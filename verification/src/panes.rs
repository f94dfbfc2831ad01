//! What the panes and lists hold, asked of the whole screen.

use crate::app;
use crate::bulkstat;
use crate::entries;
use crate::labels;
use crate::modals;
use crate::outbox;
use crate::packages;
use crate::pkgpane;
use crate::reclaim;
use crate::reclaimpane;
use crate::sorting;
use vstd::prelude::*;

verus! {

// ---------------------------------------------------------------------------
// The files
// ---------------------------------------------------------------------------

impl app::App {
    pub fn visible_entry_count(&self) -> (r: usize)
        ensures
            r == self@.files.row_count(),
    {
        self.files.visible_entry_count()
    }

    pub fn visible_entry_index(&self, visible_index: usize) -> (r: Option<usize>)
        ensures
            match r {
                Some(i) => self@.files.place(visible_index as int) == Some(i as int),
                None => self@.files.place(visible_index as int) is None,
            },
    {
        self.files.visible_entry_index(visible_index)
    }

    pub fn visible_entry(&self, visible_index: usize) -> (r: Option<&entries::Entry>)
        ensures
            match r {
                Some(e) => self@.files.entry(visible_index as int) == Some(e@),
                None => self@.files.entry(visible_index as int) is None,
            },
    {
        self.files.visible_entry(visible_index)
    }

    /// Sorts the entries in the order at hand.
    pub fn apply_sort(&mut self, now: u64)
        ensures
            final(self)@ == old(self)@.with_files(old(self)@.files.sorted(now)),
    {
        self.files.apply_sort(now);
    }

    // -----------------------------------------------------------------------
    // The largest files
    // -----------------------------------------------------------------------

    pub fn top_files_open(&self) -> (r: bool)
        ensures
            r == self@.top.open,
    {
        self.top.open
    }

    pub fn top_files_loading(&self) -> (r: bool)
        ensures
            r == self@.top.loading,
    {
        self.top.loading
    }

    pub fn top_files_path(&self) -> (r: Option<&str>)
        ensures
            match r {
                Some(path) => self@.top.path == Some(path@),
                None => self@.top.path is None,
            },
    {
        match &self.top.path {
            Some(path) => Some(path.as_str()),
            None => None,
        }
    }

    pub fn top_files_scan(&self) -> (r: Option<&bulkstat::DirScan>)
        ensures
            match r {
                Some(scan) => self@.top.scan == Some(scan@),
                None => self@.top.scan is None,
            },
    {
        match &self.top.scan {
            Some(scan) => Some(scan),
            None => None,
        }
    }

    pub fn top_files_count(&self) -> (r: usize)
        ensures
            r == self@.top.files().len(),
    {
        self.top.top_files_count()
    }

    pub fn top_files_selected(&self) -> (r: usize)
        ensures
            r == self@.top.selected,
    {
        self.top.selected
    }

    pub fn set_top_files_selected(&mut self, index: usize)
        ensures
            final(self)@ == old(self)@.with_top(
                old(self)@.top.selecting(
                    outbox::clamped(index as nat, old(self)@.top.files().len()),
                ),
            ),
    {
        self.top.set_top_files_selected(index);
    }

    pub fn selected_top_file_path(&self) -> (r: Option<String>)
        ensures
            packages::opt_text(r) == self@.top.current(),
    {
        self.top.selected_top_file_path()
    }

    /// The rows that are shown where there is room for so many.
    pub fn top_files_window_bounds(&mut self, max_rows: usize) -> (r: (usize, usize))
        ensures
            (r.0 as int, r.1 as int) == labels::window(
                old(self)@.top.selected as int,
                old(self)@.top.files().len() as int,
                old(self)@.top.offset as int,
                max_rows as int,
            ),
            final(self)@ == old(self)@.with_top(
                modals::TopFilesV {
                    offset: r.0 as nat,
                    page_rows: max_rows as nat,
                    ..old(self)@.top
                },
            ),
    {
        self.top.top_files_window_bounds(max_rows)
    }

    /// Asks for the largest files below a directory.
    pub fn open_top_files_for_path(&mut self, path: &str)
        ensures
            final(self)@ == (app::AppV {
                top: old(self)@.top.asking(path@),
                out: old(self)@.top.asked(old(self)@.out, path@),
                ..old(self)@
            }),
    {
        self.top.open_top_files_for_path(path, &mut self.out);
    }

    // -----------------------------------------------------------------------
    // The disks
    // -----------------------------------------------------------------------

    pub fn disk_info_open(&self) -> (r: bool)
        ensures
            r == self@.disks.info_open,
    {
        self.disks.info_open
    }

    pub fn disk_info_loading(&self) -> (r: bool)
        ensures
            r == self@.disks.info_loading,
    {
        self.disks.info_loading
    }

    // -----------------------------------------------------------------------
    // What could be reclaimed
    // -----------------------------------------------------------------------

    pub fn reclaim_item_count(&self) -> (r: usize)
        ensures
            r == self@.reclaim.findings().len(),
    {
        self.reclaim.reclaim_item_count()
    }

    pub fn selected_reclaim_finding(&self) -> (r: Option<&reclaim::Finding>)
        ensures
            match r {
                Some(f) => self@.reclaim.current() == Some(f@),
                None => self@.reclaim.current() is None,
            },
    {
        self.reclaim.selected_reclaim_finding()
    }

    pub fn reclaim_paths_open(&self) -> (r: bool)
        ensures
            r == self@.reclaim.paths_open,
    {
        self.reclaim.paths_open
    }

    pub fn reclaim_paths_count(&self) -> (r: usize)
        ensures
            r == self@.reclaim.path_list().len(),
    {
        self.reclaim.reclaim_paths_count()
    }

    pub fn reclaim_paths_selected(&self) -> (r: usize)
        ensures
            r == self@.reclaim.paths_selected,
    {
        self.reclaim.paths_selected
    }

    pub fn set_reclaim_paths_selected(&mut self, index: usize)
        ensures
            final(self)@ == old(self)@.with_reclaim(
                old(self)@.reclaim.selecting_path(
                    outbox::clamped(index as nat, old(self)@.reclaim.path_list().len()),
                ),
            ),
    {
        self.reclaim.set_reclaim_paths_selected(index);
    }

    /// The name and the path of the selected path.
    pub fn selected_reclaim_path(&self) -> (r: Option<(String, String)>)
        ensures
            match r {
                Some((name, path)) => self@.reclaim.current_path() == Some((name@, path@)),
                None => self@.reclaim.current_path() is None,
            },
    {
        self.reclaim.selected_reclaim_path()
    }

    /// The rows of the paths that are shown where there is room for so many.
    pub fn reclaim_paths_window_bounds(&mut self, max_rows: usize) -> (r: (usize, usize))
        ensures
            (r.0 as int, r.1 as int) == labels::window(
                old(self)@.reclaim.paths_selected as int,
                old(self)@.reclaim.path_list().len() as int,
                old(self)@.reclaim.paths_offset as int,
                max_rows as int,
            ),
            final(self)@ == old(self)@.with_reclaim(
                reclaimpane::ReclaimV {
                    paths_offset: r.0 as nat,
                    paths_page_rows: max_rows as nat,
                    ..old(self)@.reclaim
                },
            ),
    {
        self.reclaim.reclaim_paths_window_bounds(max_rows)
    }

    /// Asks for a scan when the pane is shown, unless there is one of the
    /// directory at hand.
    pub fn open_reclaim_for_focus(&mut self)
        ensures
            ({
                let v = old(self)@;
                final(self)@ == if v.reclaim.covers(v.files.cwd) {
                    v
                } else {
                    app::AppV {
                        reclaim: v.reclaim.scanning(v.files.cwd),
                        out: v.reclaim.scan_asked(v.out, v.files.cwd),
                        ..v
                    }
                }
            }),
    {
        self.reclaim.open_reclaim_for_focus(self.files.cwd.as_str(), &mut self.out);
    }

    /// Scans anew after a path of a finding is gone.
    pub fn rescan_reclaim_finding(&mut self, finding_index: usize)
        ensures
            ({
                let v = old(self)@;
                let count = v.reclaim.findings().len();
                let chosen = v.reclaim.selecting(outbox::clamped(finding_index as nat, count));
                final(self)@ == if count == 0 {
                    v
                } else {
                    app::AppV {
                        reclaim: chosen.scanning(v.files.cwd),
                        out: chosen.scan_asked(v.out, v.files.cwd),
                        ..v
                    }
                }
            }),
    {
        self.reclaim.rescan_reclaim_finding(
            finding_index,
            self.files.cwd.as_str(),
            &mut self.out,
        );
    }

    // -----------------------------------------------------------------------
    // The packages
    // -----------------------------------------------------------------------

    pub fn flat_packages(&self) -> (r: &Vec<pkgpane::FlatPackage>)
        ensures
            sorting::views(r@) == self@.pkgs.flat,
    {
        &self.pkgs.flat
    }

    pub fn rebuild_flat_packages(&mut self)
        ensures
            final(self)@ == old(self)@.with_pkgs(old(self)@.pkgs.flattened()),
    {
        self.pkgs.rebuild_flat_packages();
    }

    pub fn pkg_item_count(&self) -> (r: usize)
        ensures
            r == self@.pkgs.rows().len(),
    {
        self.pkgs.pkg_item_count()
    }

    pub fn pkg_visible_index(&self, visible_index: usize) -> (r: Option<usize>)
        ensures
            match r {
                Some(i) => self@.pkgs.place(visible_index as int) == Some(i as int),
                None => self@.pkgs.place(visible_index as int) is None,
            },
    {
        self.pkgs.pkg_visible_index(visible_index)
    }

    /// The package that is selected, and what is known of its dependencies.
    pub fn selected_pkg_detail(&self) -> (r: Option<
        (&pkgpane::FlatPackage, Option<&packages::DepInfo>),
    >)
        ensures
            match r {
                Some((p, info)) => self@.pkgs.current() == Some(p@) && match info {
                    Some(d) => self@.pkgs.dep_graph is Some
                        && self@.pkgs.dep_graph->0.contains_key((p@.manager, p@.package.name))
                        && self@.pkgs.dep_graph->0[(p@.manager, p@.package.name)] == d@,
                    None => self@.pkgs.dep_graph is None
                        || !self@.pkgs.dep_graph->0.contains_key((p@.manager, p@.package.name)),
                },
                None => self@.pkgs.current() is None,
            },
    {
        self.pkgs.selected_pkg_detail()
    }

    pub fn pending_uninstall_name(&self) -> (r: &str)
        ensures
            r@ == match self@.pkgs.pending_uninstall {
                Some(t) => t.display_name,
                None => "?"@,
            },
    {
        self.pkgs.pending_uninstall_name()
    }

    /// The room that the packages of all managers take.
    pub fn total_pkg_size(&self) -> (r: u64)
        ensures
            r == bulkstat::capped(pkgpane::managers_room(self@.pkgs.reports) as int),
    {
        self.pkgs.total_pkg_size()
    }

    /// The room that the dependencies of all projects take.
    pub fn total_project_deps_size(&self) -> (r: u64)
        ensures
            r == bulkstat::capped(pkgpane::projects_room(self@.pkgs.project_deps) as int),
    {
        self.pkgs.total_project_deps_size()
    }

    /// Fills the pane when it is first shown, or its projects when they are
    /// those of another directory.
    pub fn load_packages(&mut self)
        ensures
            ({
                let v = old(self)@;
                final(self)@ == if v.pkgs.covers(v.files.cwd) {
                    v
                } else {
                    app::AppV {
                        pkgs: v.pkgs.scanning(),
                        out: v.pkgs.scan_asked(v.out, v.files.cwd, !v.pkgs.loaded),
                        ..v
                    }
                }
            }),
    {
        self.pkgs.load_packages(self.files.cwd.as_str(), &mut self.out);
    }

    pub fn reload_project_deps(&mut self)
        ensures
            ({
                let v = old(self)@;
                final(self)@ == (app::AppV {
                    pkgs: v.pkgs.scanning(),
                    out: v.pkgs.scan_asked(v.out, v.files.cwd, false),
                    ..v
                })
            }),
    {
        self.pkgs.reload_project_deps(self.files.cwd.as_str(), &mut self.out);
    }
}

} // verus!
