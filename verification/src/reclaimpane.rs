//! The reclaim pane: what could be freed, the paths of a finding, and emptying
//! the Trash.

use crate::labels;
use crate::outbox;
use crate::packages;
use crate::paths;
use crate::reclaim;
use crate::sorting;
use crate::text;
use vstd::prelude::*;

verus! {

/// The reclaim pane.
pub struct ReclaimPane {
    pub active_scan_id: u64,
    pub report: Option<reclaim::ReclaimReport>,
    /// The directory that was scanned, or is being scanned.
    pub cwd: Option<String>,
    pub loading: bool,
    pub selected: usize,
    pub page_rows: usize,
    /// The list of a finding's paths is open.
    pub paths_open: bool,
    pub paths_selected: usize,
    pub paths_finding: usize,
    pub paths_offset: usize,
    pub paths_page_rows: usize,
    pub confirming_empty_trash: bool,
    pub emptying_trash: bool,
}

#[verifier::ext_equal]
pub struct ReclaimV {
    pub active_scan_id: u64,
    pub report: Option<reclaim::ReportModel>,
    pub cwd: Option<Seq<char>>,
    pub loading: bool,
    pub selected: nat,
    pub page_rows: nat,
    pub paths_open: bool,
    pub paths_selected: nat,
    pub paths_finding: nat,
    pub paths_offset: nat,
    pub paths_page_rows: nat,
    pub confirming_empty_trash: bool,
    pub emptying_trash: bool,
}

impl View for ReclaimPane {
    type V = ReclaimV;

    open spec fn view(&self) -> ReclaimV {
        ReclaimV {
            active_scan_id: self.active_scan_id,
            report: match self.report {
                Some(r) => Some(r@),
                None => None,
            },
            cwd: packages::opt_text(self.cwd),
            loading: self.loading,
            selected: self.selected as nat,
            page_rows: self.page_rows as nat,
            paths_open: self.paths_open,
            paths_selected: self.paths_selected as nat,
            paths_finding: self.paths_finding as nat,
            paths_offset: self.paths_offset as nat,
            paths_page_rows: self.paths_page_rows as nat,
            confirming_empty_trash: self.confirming_empty_trash,
            emptying_trash: self.emptying_trash,
        }
    }
}

/// The finding is the Trash.
pub open spec fn is_trash(f: reclaim::FindingModel) -> bool {
    f.label == "Trash"@
}

impl ReclaimV {
    pub open spec fn findings(self) -> Seq<reclaim::FindingModel> {
        match self.report {
            Some(r) => r.findings,
            None => Seq::empty(),
        }
    }

    /// The finding that is selected.
    pub open spec fn current(self) -> Option<reclaim::FindingModel> {
        if self.selected < self.findings().len() {
            Some(self.findings()[self.selected as int])
        } else {
            None
        }
    }

    /// The paths of the finding whose paths are listed.
    pub open spec fn path_list(self) -> Seq<Seq<char>> {
        if self.paths_finding < self.findings().len() {
            self.findings()[self.paths_finding as int].paths
        } else {
            Seq::empty()
        }
    }

    /// The path that is selected, and what it is called.
    pub open spec fn current_path(self) -> Option<(Seq<char>, Seq<char>)> {
        if self.paths_selected < self.path_list().len() {
            let path = self.path_list()[self.paths_selected as int];
            Some(
                (
                    match paths::name_of(paths::path_of(path)) {
                        Some(name) => name,
                        None => path,
                    },
                    path,
                ),
            )
        } else {
            None
        }
    }

    /// The Trash is among the findings.
    pub open spec fn lists_trash(self) -> bool {
        exists|i: int| 0 <= i < self.findings().len() && is_trash(#[trigger] self.findings()[i])
    }

    pub open spec fn selecting(self, row: nat) -> ReclaimV {
        ReclaimV { selected: row, ..self }
    }

    pub open spec fn stepped(self, delta: int) -> ReclaimV {
        if self.findings().len() == 0 {
            self
        } else {
            self.selecting(
                outbox::wrapped_row(
                    self.selected as int,
                    delta,
                    self.findings().len() as int,
                ) as nat,
            )
        }
    }

    pub open spec fn paged(self, pages: int) -> ReclaimV {
        if self.findings().len() == 0 {
            self
        } else {
            let rows = if self.page_rows < 1 {
                1
            } else {
                self.page_rows as int
            };
            self.selecting(
                outbox::paged_row(
                    self.selected as int,
                    pages * rows,
                    self.findings().len() as int,
                ) as nat,
            )
        }
    }

    pub open spec fn at_end(self) -> ReclaimV {
        if self.findings().len() == 0 {
            self
        } else {
            self.selecting((self.findings().len() - 1) as nat)
        }
    }

    pub open spec fn selecting_path(self, row: nat) -> ReclaimV {
        ReclaimV { paths_selected: row, ..self }
    }

    pub open spec fn path_stepped(self, delta: int) -> ReclaimV {
        if self.path_list().len() == 0 {
            self
        } else {
            self.selecting_path(
                outbox::wrapped_row(
                    self.paths_selected as int,
                    delta,
                    self.path_list().len() as int,
                ) as nat,
            )
        }
    }

    pub open spec fn path_paged(self, pages: int) -> ReclaimV {
        if self.path_list().len() == 0 {
            self
        } else {
            let rows = if self.paths_page_rows < 1 {
                1
            } else {
                self.paths_page_rows as int
            };
            self.selecting_path(
                outbox::paged_row(
                    self.paths_selected as int,
                    pages * rows,
                    self.path_list().len() as int,
                ) as nat,
            )
        }
    }

    pub open spec fn without_paths(self) -> ReclaimV {
        ReclaimV { paths_open: false, paths_selected: 0, paths_offset: 0, ..self }
    }

    /// The pane once a scan was asked for; one at a time.
    pub open spec fn scanning(self, cwd: Seq<char>) -> ReclaimV {
        if self.loading {
            self
        } else {
            ReclaimV {
                active_scan_id: outbox::next_id(self.active_scan_id),
                loading: true,
                report: None,
                cwd: Some(cwd),
                selected: 0,
                ..self.without_paths()
            }
        }
    }

    pub open spec fn scan_asked(self, out: outbox::OutboxV, cwd: Seq<char>) -> outbox::OutboxV {
        if self.loading {
            out
        } else {
            out.says("scanning reclaim recommendations…"@).asks(
                outbox::RequestV::ScanReclaim {
                    scan_id: outbox::next_id(self.active_scan_id),
                    root: cwd,
                },
            )
        }
    }

    /// The report at hand is that of the directory.
    pub open spec fn covers(self, cwd: Seq<char>) -> bool {
        self.report is Some && self.cwd is Some && paths::path_of(self.cwd->0) == paths::path_of(
            cwd,
        )
    }

    /// The pane once emptying the Trash was asked for.
    pub open spec fn asking_trash(self) -> ReclaimV {
        ReclaimV {
            confirming_empty_trash: self.confirming_empty_trash || (!self.emptying_trash
                && self.lists_trash()),
            ..self
        }
    }

    /// The pane once emptying the Trash was confirmed.
    pub open spec fn trash_confirmed(self) -> ReclaimV {
        ReclaimV {
            confirming_empty_trash: false,
            emptying_trash: self.emptying_trash || self.confirming_empty_trash,
            ..self
        }
    }

    /// What confirming asks for: the Trash is emptied where it was asked about.
    pub open spec fn trash_requested(self, out: outbox::OutboxV) -> outbox::OutboxV {
        if self.confirming_empty_trash {
            out.says("emptying Trash…"@).asks(outbox::RequestV::EmptyTrash)
        } else {
            out
        }
    }

    /// The pane with the list of the selected finding's paths.
    pub open spec fn with_paths(self) -> ReclaimV {
        if self.findings().len() == 0 {
            self
        } else {
            ReclaimV {
                paths_open: true,
                paths_selected: 0,
                paths_offset: 0,
                paths_finding: outbox::clamped(self.selected, self.findings().len()),
                ..self
            }
        }
    }
}

impl ReclaimPane {
    pub fn reclaim_item_count(&self) -> (r: usize)
        ensures
            r == self@.findings().len(),
    {
        match &self.report {
            Some(report) => report.findings.len(),
            None => 0,
        }
    }

    pub fn reclaim_paths_count(&self) -> (r: usize)
        ensures
            r == self@.path_list().len(),
    {
        match &self.report {
            Some(report) => if self.paths_finding < report.findings.len() {
                let f = &report.findings[self.paths_finding];
                assert(self@.findings()[self.paths_finding as int] == f@);
                f.paths.len()
            } else {
                0
            },
            None => 0,
        }
    }

    pub fn selected_reclaim_finding(&self) -> (r: Option<&reclaim::Finding>)
        ensures
            match r {
                Some(f) => self@.current() == Some(f@),
                None => self@.current() is None,
            },
    {
        match &self.report {
            Some(report) => if self.selected < report.findings.len() {
                let f = &report.findings[self.selected];
                assert(self@.findings()[self.selected as int] == f@);
                Some(f)
            } else {
                None
            },
            None => None,
        }
    }

    /// The name and the path of the selected path.
    pub fn selected_reclaim_path(&self) -> (r: Option<(String, String)>)
        ensures
            match r {
                Some((name, path)) => self@.current_path() == Some((name@, path@)),
                None => self@.current_path() is None,
            },
    {
        match &self.report {
            Some(report) => {
                if self.paths_finding >= report.findings.len() {
                    return None;
                }
                let f = &report.findings[self.paths_finding];
                assert(self@.findings()[self.paths_finding as int] == f@);
                if self.paths_selected >= f.paths.len() {
                    return None;
                }
                let path = f.paths[self.paths_selected].as_str();
                assert(self@.path_list()[self.paths_selected as int] == path@);
                let name = match paths::path_file_name(path) {
                    Some(name) => name,
                    None => path.to_owned(),
                };
                Some((name, path.to_owned()))
            },
            None => None,
        }
    }

    /// The finding of the Trash.
    pub fn reclaim_trash_finding(&self) -> (r: Option<&reclaim::Finding>)
        ensures
            match r {
                Some(f) => is_trash(f@) && exists|i: int|
                    0 <= i < self@.findings().len() && (#[trigger] self@.findings()[i]) == f@,
                None => !self@.lists_trash(),
            },
    {
        match &self.report {
            Some(report) => {
                let mut i: usize = 0;
                while i < report.findings.len()
                    invariant
                        i <= report.findings@.len(),
                        self@.findings() == sorting::views(report.findings@),
                        forall|k: int|
                            0 <= k < i ==> !is_trash(#[trigger] self@.findings()[k]),
                    decreases report.findings@.len() - i,
                {
                    let f = &report.findings[i];
                    assert(self@.findings()[i as int] == f@);
                    if text::same_text(f.label.as_str(), "Trash") {
                        return Some(f);
                    }
                    i += 1;
                }
                None
            },
            None => None,
        }
    }

    // -----------------------------------------------------------------------
    // Moves
    // -----------------------------------------------------------------------

    pub fn move_cursor(&mut self, delta: i32)
        ensures
            final(self)@ == old(self)@.stepped(delta as int),
    {
        let count: usize = self.reclaim_item_count();
        if count > 0 {
            self.selected = outbox::wrap_row(self.selected, delta, count);
        }
    }

    pub fn page_move(&mut self, pages: i32)
        ensures
            final(self)@ == old(self)@.paged(pages as int),
    {
        let count: usize = self.reclaim_item_count();
        if count > 0 {
            self.selected = outbox::turn_pages(self.selected, pages, self.page_rows, count);
        }
    }

    pub fn move_to_start(&mut self)
        ensures
            final(self)@ == old(self)@.selecting(0),
    {
        self.selected = 0;
    }

    pub fn move_to_end(&mut self)
        ensures
            final(self)@ == old(self)@.at_end(),
    {
        let count: usize = self.reclaim_item_count();
        if count > 0 {
            self.selected = count - 1;
        }
    }

    pub fn move_reclaim_paths(&mut self, delta: i32)
        ensures
            final(self)@ == old(self)@.path_stepped(delta as int),
    {
        let count: usize = self.reclaim_paths_count();
        if count > 0 {
            self.paths_selected = outbox::wrap_row(self.paths_selected, delta, count);
        }
    }

    /// Moves by pages of the rows that are shown, up to the ends of the list.
    pub fn page_reclaim_paths(&mut self, pages: i32)
        ensures
            final(self)@ == old(self)@.path_paged(pages as int),
    {
        let count: usize = self.reclaim_paths_count();
        if count > 0 {
            self.paths_selected = outbox::turn_pages(
                self.paths_selected,
                pages,
                self.paths_page_rows,
                count,
            );
        }
    }

    pub fn set_reclaim_paths_selected(&mut self, index: usize)
        ensures
            final(self)@ == old(self)@.selecting_path(
                outbox::clamped(index as nat, old(self)@.path_list().len()),
            ),
    {
        let count: usize = self.reclaim_paths_count();
        self.paths_selected = outbox::clamp(index, count);
    }

    /// The rows of the paths that are shown where there is room for so many.
    pub fn reclaim_paths_window_bounds(&mut self, max_rows: usize) -> (r: (usize, usize))
        ensures
            (r.0 as int, r.1 as int) == labels::window(
                old(self)@.paths_selected as int,
                old(self)@.path_list().len() as int,
                old(self)@.paths_offset as int,
                max_rows as int,
            ),
            final(self)@ == (ReclaimV {
                paths_offset: r.0 as nat,
                paths_page_rows: max_rows as nat,
                ..old(self)@
            }),
    {
        let count: usize = self.reclaim_paths_count();
        let (offset, end) = labels::modal_window_bounds(
            self.paths_selected,
            count,
            self.paths_offset,
            max_rows,
        );
        self.paths_offset = offset;
        self.paths_page_rows = max_rows;
        (offset, end)
    }

    // -----------------------------------------------------------------------
    // Scans
    // -----------------------------------------------------------------------

    pub fn request_reclaim_scan(&mut self, cwd: &str, out: &mut outbox::Outbox)
        ensures
            final(self)@ == old(self)@.scanning(cwd@),
            final(out)@ == old(self)@.scan_asked(old(out)@, cwd@),
    {
        if self.loading {
            return ;
        }
        self.active_scan_id = self.active_scan_id.saturating_add(1);
        self.loading = true;
        self.report = None;
        self.cwd = Some(cwd.to_owned());
        self.selected = 0;
        self.close_reclaim_paths();
        out.say("scanning reclaim recommendations…");
        out.ask(
            outbox::Request::ScanReclaim {
                scan_id: self.active_scan_id,
                root: cwd.to_owned(),
            },
        );
    }

    /// Asks for a scan when the pane is shown, unless there is one of this
    /// directory.
    pub fn open_reclaim_for_focus(&mut self, cwd: &str, out: &mut outbox::Outbox)
        ensures
            final(self)@ == if old(self)@.covers(cwd@) {
                old(self)@
            } else {
                old(self)@.scanning(cwd@)
            },
            final(out)@ == if old(self)@.covers(cwd@) {
                old(out)@
            } else {
                old(self)@.scan_asked(old(out)@, cwd@)
            },
    {
        if self.report.is_some() {
            match &self.cwd {
                Some(dir) => {
                    if paths::path_equals(dir.as_str(), cwd) {
                        return ;
                    }
                },
                None => {},
            }
        }
        self.request_reclaim_scan(cwd, out);
    }

    /// A scan came back. One that is not the latest is dropped, and so is what
    /// was found in another directory than the one at hand.
    pub fn reclaim_scanned(
        &mut self,
        scan_id: u64,
        root: String,
        report: reclaim::ReclaimReport,
        cwd: &str,
        out: &mut outbox::Outbox,
    ) -> (changed: bool)
        ensures
            changed == (scan_id == old(self)@.active_scan_id && old(self)@.loading),
            !changed ==> final(self)@ == old(self)@ && final(out)@ == old(out)@,
            changed && paths::path_of(root@) != paths::path_of(cwd@) ==> final(self)@ == (ReclaimV {
                loading: false,
                ..old(self)@
            }) && final(out)@ == old(out)@.says("ignored stale reclaim scan"@),
            changed && paths::path_of(root@) == paths::path_of(cwd@) ==> final(self)@ == (ReclaimV {
                loading: false,
                report: Some(report@),
                cwd: Some(root@),
                selected: outbox::clamped(old(self)@.selected, report@.findings.len()),
                ..old(self)@.without_paths()
            }) && final(out)@ == old(out)@.says("reclaim scan complete"@),
    {
        if scan_id != self.active_scan_id || !self.loading {
            return false;
        }
        self.loading = false;
        if !paths::path_equals(root.as_str(), cwd) {
            out.say("ignored stale reclaim scan");
            return true;
        }
        self.selected = outbox::clamp(self.selected, report.findings.len());
        self.report = Some(report);
        self.cwd = Some(root);
        self.close_reclaim_paths();
        out.say("reclaim scan complete");
        true
    }

    /// A scan broke off.
    pub fn reclaim_scan_failed(&mut self, out: &mut outbox::Outbox)
        ensures
            final(self)@ == (ReclaimV { loading: false, ..old(self)@ }),
            final(out)@ == old(out)@.says("reclaim scan failed"@),
    {
        self.loading = false;
        out.say("reclaim scan failed");
    }

    /// Scans anew after a path of a finding is gone.
    pub fn rescan_reclaim_finding(
        &mut self,
        finding_index: usize,
        cwd: &str,
        out: &mut outbox::Outbox,
    )
        ensures
            ({
                let count = old(self)@.findings().len();
                let chosen = old(self)@.selecting(outbox::clamped(finding_index as nat, count));
                if count == 0 {
                    final(self)@ == old(self)@ && final(out)@ == old(out)@
                } else {
                    final(self)@ == chosen.scanning(cwd@) && final(out)@ == chosen.scan_asked(
                        old(out)@,
                        cwd@,
                    )
                }
            }),
    {
        let count: usize = self.reclaim_item_count();
        if count == 0 {
            return ;
        }
        self.selected = outbox::clamp(finding_index, count);
        self.request_reclaim_scan(cwd, out);
    }

    // -----------------------------------------------------------------------
    // Paths
    // -----------------------------------------------------------------------

    pub fn open_selected_reclaim_paths(&mut self, out: &mut outbox::Outbox)
        ensures
            final(self)@ == old(self)@.with_paths(),
            final(out)@ == if old(self)@.findings().len() == 0 {
                old(out)@.says("no reclaim findings loaded"@)
            } else {
                old(out)@.says(
                    "opened reclaim paths: "@ + old(self)@.findings()[outbox::clamped(
                        old(self)@.selected,
                        old(self)@.findings().len(),
                    ) as int].label,
                )
            },
    {
        let count: usize = self.reclaim_item_count();
        if count == 0 {
            out.say("no reclaim findings loaded");
            return ;
        }
        self.paths_open = true;
        self.paths_selected = 0;
        self.paths_offset = 0;
        self.paths_finding = outbox::clamp(self.selected, count);
        match &self.report {
            Some(report) => {
                let f = &report.findings[self.paths_finding];
                assert(self@.findings()[self.paths_finding as int] == f@);
                out.say_text(text::join2("opened reclaim paths: ", f.label.as_str()));
            },
            None => {},
        }
    }

    pub fn close_reclaim_paths(&mut self)
        ensures
            final(self)@ == old(self)@.without_paths(),
    {
        self.paths_open = false;
        self.paths_selected = 0;
        self.paths_offset = 0;
    }

    // -----------------------------------------------------------------------
    // The Trash
    // -----------------------------------------------------------------------

    /// Asks whether the Trash is to be emptied, where the report lists it.
    pub fn request_empty_trash(&mut self, out: &mut outbox::Outbox)
        ensures
            final(self)@ == old(self)@.asking_trash(),
            final(out)@ == if old(self)@.emptying_trash {
                old(out)@.says("Trash is already being emptied"@)
            } else if !old(self)@.lists_trash() {
                old(out)@.says("Trash is not in this reclaim report"@)
            } else {
                old(out)@
            },
    {
        if self.emptying_trash {
            out.say("Trash is already being emptied");
            return ;
        }
        match self.reclaim_trash_finding() {
            Some(f) => {
                proof {
                    let i = choose|i: int|
                        0 <= i < self@.findings().len() && (#[trigger] self@.findings()[i]) == f@;
                    assert(is_trash(self@.findings()[i]));
                    assert(self@.lists_trash());
                }
                self.confirming_empty_trash = true;
            },
            None => {
                out.say("Trash is not in this reclaim report");
            },
        }
    }

    pub fn cancel_empty_trash(&mut self)
        ensures
            final(self)@ == (ReclaimV { confirming_empty_trash: false, ..old(self)@ }),
    {
        self.confirming_empty_trash = false;
    }

    /// Empties the Trash once that was asked for.
    pub fn confirm_empty_trash(&mut self, out: &mut outbox::Outbox)
        ensures
            final(self)@ == old(self)@.trash_confirmed(),
            final(out)@ == old(self)@.trash_requested(old(out)@),
    {
        if !self.confirming_empty_trash {
            return ;
        }
        self.confirming_empty_trash = false;
        self.emptying_trash = true;
        out.say("emptying Trash…");
        out.ask(outbox::Request::EmptyTrash);
    }
}

// ---------------------------------------------------------------------------
// Laws
// ---------------------------------------------------------------------------

/// The Trash is emptied only where the report lists it: without such a finding,
/// asking for it and confirming ask for nothing outside.
pub proof fn trash_is_emptied_only_where_listed(v: ReclaimV, out: outbox::OutboxV)
    requires
        !v.lists_trash(),
        !v.confirming_empty_trash,
    ensures
        v.asking_trash().trash_requested(out) == out,
        v.asking_trash().trash_confirmed().emptying_trash == v.emptying_trash,
{
}

/// Emptying is asked for once: after it was confirmed, asking and confirming
/// again ask for nothing until it is done.
pub proof fn trash_is_emptied_once(v: ReclaimV, out: outbox::OutboxV)
    requires
        v.confirming_empty_trash,
    ensures
        v.trash_confirmed().asking_trash().trash_requested(out) == out,
{
}

/// While a scan runs, asking again asks for nothing.
pub proof fn one_reclaim_scan_at_a_time(v: ReclaimV, out: outbox::OutboxV, cwd: Seq<char>)
    ensures
        v.scanning(cwd).scanning(cwd) == v.scanning(cwd),
        v.scanning(cwd).scan_asked(v.scan_asked(out, cwd), cwd) == v.scan_asked(out, cwd),
{
}

} // verus!
