//! The packages pane: installed packages, the dependencies of projects, the
//! filters on both, and uninstalling.

use crate::bulkstat;
use crate::manifests;
use crate::outbox;
use crate::packages;
use crate::paths;
use crate::sorting;
use crate::sums;
use crate::text;
use vstd::prelude::*;

verus! {

/// Which packages the pane lists.
#[derive(Clone, Copy, Debug, PartialEq, Eq, Structural)]
pub enum PkgView {
    SystemManagers,
    ProjectDeps,
}

/// A package that is uninstalled once that is confirmed.
#[derive(Debug)]
pub struct UninstallTarget {
    pub manager: packages::Manager,
    pub name: String,
    pub display_name: String,
}

#[verifier::ext_equal]
pub struct UninstallModel {
    pub manager: packages::Manager,
    pub name: Seq<char>,
    pub display_name: Seq<char>,
}

impl View for UninstallTarget {
    type V = UninstallModel;

    open spec fn view(&self) -> UninstallModel {
        UninstallModel {
            manager: self.manager,
            name: self.name@,
            display_name: self.display_name@,
        }
    }
}

pub open spec fn target_view(t: Option<UninstallTarget>) -> Option<UninstallModel> {
    match t {
        Some(t) => Some(t@),
        None => None,
    }
}

/// A package and its manager.
#[derive(Debug)]
pub struct FlatPackage {
    pub package: packages::Package,
    pub manager: packages::Manager,
}

#[verifier::ext_equal]
pub struct FlatModel {
    pub package: packages::PackageModel,
    pub manager: packages::Manager,
}

impl View for FlatPackage {
    type V = FlatModel;

    open spec fn view(&self) -> FlatModel {
        FlatModel { package: self.package@, manager: self.manager }
    }
}

/// The packages pane.
pub struct PackagePane {
    pub reports: Vec<packages::ManagerReport>,
    pub project_deps: Vec<manifests::ProjectDeps>,
    /// The directory whose projects are listed.
    pub project_deps_cwd: Option<String>,
    pub view: PkgView,
    pub loaded: bool,
    pub loading: bool,
    pub selected: usize,
    pub page_rows: usize,
    pub search_mode: bool,
    pub search_query: String,
    pub search_matches: Vec<usize>,
    pub flat: Vec<FlatPackage>,
    /// Only packages that nothing depends on are listed.
    pub show_unused: bool,
    pub detail: bool,
    pub dep_graph: Option<packages::DepGraph>,
    pub deps_loading: bool,
    pub active_scan_id: u64,
    pub confirming_uninstall: bool,
    pub pending_uninstall: Option<UninstallTarget>,
    pub uninstalling: Option<String>,
}

#[verifier::ext_equal]
pub struct PaneV {
    pub reports: Seq<packages::ManagerModel>,
    pub project_deps: Seq<manifests::ProjectModel>,
    pub project_deps_cwd: Option<Seq<char>>,
    pub view: PkgView,
    pub loaded: bool,
    pub loading: bool,
    pub selected: nat,
    pub page_rows: nat,
    pub search_mode: bool,
    pub search_query: Seq<char>,
    pub search_matches: Seq<usize>,
    pub flat: Seq<FlatModel>,
    pub show_unused: bool,
    pub detail: bool,
    pub dep_graph: Option<Map<(packages::Manager, Seq<char>), packages::DepModel>>,
    pub deps_loading: bool,
    pub active_scan_id: u64,
    pub confirming_uninstall: bool,
    pub pending_uninstall: Option<UninstallModel>,
    pub uninstalling: Option<Seq<char>>,
}

impl View for PackagePane {
    type V = PaneV;

    open spec fn view(&self) -> PaneV {
        PaneV {
            reports: sorting::views(self.reports@),
            project_deps: sorting::views(self.project_deps@),
            project_deps_cwd: packages::opt_text(self.project_deps_cwd),
            view: self.view,
            loaded: self.loaded,
            loading: self.loading,
            selected: self.selected as nat,
            page_rows: self.page_rows as nat,
            search_mode: self.search_mode,
            search_query: self.search_query@,
            search_matches: self.search_matches@,
            flat: sorting::views(self.flat@),
            show_unused: self.show_unused,
            detail: self.detail,
            dep_graph: match self.dep_graph {
                Some(g) => Some(g@),
                None => None,
            },
            deps_loading: self.deps_loading,
            active_scan_id: self.active_scan_id,
            confirming_uninstall: self.confirming_uninstall,
            pending_uninstall: target_view(self.pending_uninstall),
            uninstalling: packages::opt_text(self.uninstalling),
        }
    }
}

// ---------------------------------------------------------------------------
// Lists
// ---------------------------------------------------------------------------

/// The room that a package takes, as far as it is known.
pub open spec fn package_room(p: FlatModel) -> u64 {
    match p.package.size {
        Some(size) => size.allocated,
        None => 0,
    }
}

/// Largest packages first, then by name.
pub struct LargestPackage;

impl sorting::Order<FlatModel> for LargestPackage {
    open spec fn before(&self, a: FlatModel, b: FlatModel) -> bool {
        if package_room(a) != package_room(b) {
            package_room(a) > package_room(b)
        } else {
            text::text_less(a.package.name, b.package.name)
        }
    }

    proof fn is_order(&self, a: FlatModel, b: FlatModel, c: FlatModel) {
        text::text_order_weak(a.package.name, b.package.name, c.package.name);
    }
}

fn room(p: &FlatPackage) -> (r: u64)
    ensures
        r == package_room(p@),
{
    match p.package.size {
        Some(size) => size.allocated,
        None => 0,
    }
}

impl sorting::Arranged<FlatPackage> for LargestPackage {
    fn goes_before(&self, a: &FlatPackage, b: &FlatPackage) -> (r: bool) {
        let x: u64 = room(a);
        let y: u64 = room(b);
        if x != y {
            x > y
        } else {
            text::text_is_less(a.package.name.as_str(), b.package.name.as_str())
        }
    }
}

/// Packages with their manager.
pub open spec fn of_manager(list: Seq<packages::PackageModel>, manager: packages::Manager) -> Seq<
    FlatModel,
> {
    list.map_values(|p: packages::PackageModel| FlatModel { package: p, manager })
}

/// The packages of all managers that are there.
pub open spec fn all_packages(reports: Seq<packages::ManagerModel>) -> Seq<FlatModel>
    decreases reports.len(),
{
    if reports.len() == 0 {
        Seq::empty()
    } else {
        let before = all_packages(reports.drop_last());
        let r = reports.last();
        if r.available {
            before + of_manager(r.packages, r.manager)
        } else {
            before
        }
    }
}

fn gather_packages(reports: &Vec<packages::ManagerReport>) -> (r: Vec<FlatPackage>)
    ensures
        sorting::views(r@) == all_packages(sorting::views(reports@)),
{
    let ghost all = sorting::views(reports@);
    let mut r: Vec<FlatPackage> = Vec::new();
    let mut i: usize = 0;
    assert(all.take(0) =~= Seq::<packages::ManagerModel>::empty());
    assert(sorting::views(r@) =~= Seq::<FlatModel>::empty());
    while i < reports.len()
        invariant
            i <= reports@.len(),
            all == sorting::views(reports@),
            sorting::views(r@) == all_packages(all.take(i as int)),
        decreases reports@.len() - i,
    {
        let report = &reports[i];
        assert(all.take(i + 1).drop_last() =~= all.take(i as int));
        assert(all.take(i + 1).last() == report@);
        if report.available {
            let ghost before = sorting::views(r@);
            let ghost more = of_manager(report@.packages, report.manager);
            let mut k: usize = 0;
            assert(before + more.take(0) =~= before);
            while k < report.packages.len()
                invariant
                    k <= report.packages@.len(),
                    more == of_manager(sorting::views(report.packages@), report.manager),
                    sorting::views(r@) == before + more.take(k as int),
                decreases report.packages@.len() - k,
            {
                let p = FlatPackage {
                    package: report.packages[k].clone(),
                    manager: report.manager,
                };
                proof {
                    sorting::views_push(r@, p);
                    assert(more[k as int] == p@);
                    assert((before + more.take(k as int)).push(p@) =~= before + more.take(k + 1));
                }
                r.push(p);
                k += 1;
            }
            assert(more.take(more.len() as int) =~= more);
        }
        i += 1;
    }
    assert(all.take(all.len() as int) =~= all);
    r
}

impl PaneV {
    /// How many packages there are in the view at hand.
    pub open spec fn total(self) -> nat {
        match self.view {
            PkgView::SystemManagers => self.flat.len(),
            PkgView::ProjectDeps => self.project_deps.len(),
        }
    }

    /// The filter on what nothing depends on lets the package through.
    pub open spec fn passes(self, i: int) -> bool {
        !self.show_unused || self.view != PkgView::SystemManagers || self.dep_graph is None || (i
            < self.flat.len() && packages::status_in(
            self.dep_graph->0,
            self.flat[i].manager,
            self.flat[i].package.name,
        ) == packages::PackageUseStatus::DependencyLeaf)
    }

    /// The packages among the first `count` that pass the filter.
    pub open spec fn base(self, count: nat) -> Seq<usize>
        decreases count,
    {
        if count == 0 {
            Seq::empty()
        } else {
            let before = self.base((count - 1) as nat);
            if self.passes(count - 1) {
                before.push((count - 1) as usize)
            } else {
                before
            }
        }
    }

    /// The text occurs in what a package is known by: the name or the manager,
    /// or of a project the path or the manager.
    pub open spec fn is_match(self, i: int, query: Seq<char>) -> bool {
        match self.view {
            PkgView::SystemManagers => i < self.flat.len() && (text::has_part(
                text::lowercase(self.flat[i].package.name),
                query,
            ) || text::has_part(self.flat[i].manager.name(), query)),
            PkgView::ProjectDeps => i < self.project_deps.len() && (text::has_part(
                text::lowercase(self.project_deps[i].path),
                query,
            ) || text::has_part(self.project_deps[i].manager_label, query)),
        }
    }

    /// Those of the packages that match.
    pub open spec fn matching(self, list: Seq<usize>, query: Seq<char>) -> Seq<usize>
        decreases list.len(),
    {
        if list.len() == 0 {
            Seq::empty()
        } else {
            let before = self.matching(list.drop_last(), query);
            if self.is_match(list.last() as int, query) {
                before.push(list.last())
            } else {
                before
            }
        }
    }

    pub open spec fn is_searched(self) -> bool {
        self.search_query.len() > 0
    }

    /// The packages in the rows.
    pub open spec fn rows(self) -> Seq<usize> {
        if self.is_searched() {
            self.search_matches
        } else {
            self.base(self.total())
        }
    }

    /// What the search finds.
    pub open spec fn found(self) -> Seq<usize> {
        self.matching(self.base(self.total()), text::lowercase(self.search_query))
    }

    /// The place of the package in a row.
    pub open spec fn place(self, row: int) -> Option<int> {
        if 0 <= row < self.rows().len() {
            Some(self.rows()[row] as int)
        } else {
            None
        }
    }

    /// The package that is selected.
    pub open spec fn current(self) -> Option<FlatModel> {
        match self.place(self.selected as int) {
            Some(i) => if i < self.flat.len() {
                Some(self.flat[i])
            } else {
                None
            },
            None => None,
        }
    }

    /// The project that is selected.
    pub open spec fn current_project(self) -> Option<manifests::ProjectModel> {
        match self.place(self.selected as int) {
            Some(i) => if i < self.project_deps.len() {
                Some(self.project_deps[i])
            } else {
                None
            },
            None => None,
        }
    }

    pub open spec fn selecting(self, row: nat) -> PaneV {
        PaneV { selected: row, ..self }
    }

    pub open spec fn stepped(self, delta: int) -> PaneV {
        if self.rows().len() == 0 {
            self
        } else {
            self.selecting(
                outbox::wrapped_row(self.selected as int, delta, self.rows().len() as int) as nat,
            )
        }
    }

    pub open spec fn paged(self, pages: int) -> PaneV {
        if self.rows().len() == 0 {
            self
        } else {
            let rows = if self.page_rows < 1 {
                1
            } else {
                self.page_rows as int
            };
            self.selecting(
                outbox::paged_row(
                    self.selected as int,
                    pages * rows,
                    self.rows().len() as int,
                ) as nat,
            )
        }
    }

    pub open spec fn at_end(self) -> PaneV {
        if self.rows().len() == 0 {
            self
        } else {
            self.selecting((self.rows().len() - 1) as nat)
        }
    }

    /// The matches of a search found anew.
    pub open spec fn refound(self) -> PaneV {
        if self.is_searched() {
            PaneV { search_matches: self.found(), ..self }
        } else {
            self
        }
    }

    pub open spec fn with_query(self, query: Seq<char>) -> PaneV {
        let after = PaneV { search_query: query, selected: 0, ..self };
        if query.len() == 0 {
            PaneV { search_matches: Seq::empty(), ..after }
        } else {
            PaneV { search_matches: after.found(), ..after }
        }
    }

    /// The place in a list, or the first one.
    pub open spec fn row_in(list: Seq<usize>, wanted: usize) -> nat
        decreases list.len(),
    {
        if list.len() == 0 {
            0
        } else if list.last() == wanted && !list.drop_last().contains(wanted) {
            (list.len() - 1) as nat
        } else {
            PaneV::row_in(list.drop_last(), wanted)
        }
    }

    /// The pane without a search, with the same package selected.
    pub open spec fn unsearched(self) -> PaneV {
        let after = PaneV {
            search_mode: false,
            search_query: Seq::empty(),
            search_matches: Seq::empty(),
            ..self
        };
        match self.place(self.selected as int) {
            Some(i) => after.selecting(
                PaneV::row_in(after.base(after.total()), self.rows()[self.selected as int]),
            ),
            None => after,
        }
    }

    pub open spec fn unfiltered(self) -> PaneV {
        PaneV {
            show_unused: !self.show_unused,
            selected: 0,
            search_matches: Seq::empty(),
            search_query: Seq::empty(),
            search_mode: false,
            ..self
        }
    }

    pub open spec fn other_view(self) -> PaneV {
        (PaneV {
            view: match self.view {
                PkgView::SystemManagers => PkgView::ProjectDeps,
                PkgView::ProjectDeps => PkgView::SystemManagers,
            },
            selected: 0,
            ..self
        }).refound()
    }

    /// The packages of the reports, sorted.
    pub open spec fn flattened(self) -> PaneV {
        (PaneV {
            flat: sorting::arranged(&LargestPackage, all_packages(self.reports)),
            ..self
        }).refound()
    }
}

impl PackagePane {
    fn pkg_passes_unused_filter(&self, i: usize) -> (r: bool)
        ensures
            r == self@.passes(i as int),
    {
        if !self.show_unused {
            return true;
        }
        if self.view != PkgView::SystemManagers {
            return true;
        }
        match &self.dep_graph {
            Some(graph) => {
                if i >= self.flat.len() {
                    return false;
                }
                let p = &self.flat[i];
                assert(self@.flat[i as int] == p@);
                let status = graph.use_status(p.manager, p.package.name.as_str());
                status == packages::PackageUseStatus::DependencyLeaf
            },
            None => true,
        }
    }

    fn base_pkg_indices(&self) -> (r: Vec<usize>)
        ensures
            r@ == self@.base(self@.total()),
    {
        let total: usize = match self.view {
            PkgView::SystemManagers => self.flat.len(),
            PkgView::ProjectDeps => self.project_deps.len(),
        };
        let mut r: Vec<usize> = Vec::new();
        let mut i: usize = 0;
        while i < total
            invariant
                i <= total,
                total == self@.total(),
                r@ == self@.base(i as nat),
            decreases total - i,
        {
            if self.pkg_passes_unused_filter(i) {
                r.push(i);
            }
            i += 1;
        }
        r
    }

    fn matches(&self, i: usize, query: &str) -> (r: bool)
        ensures
            r == self@.is_match(i as int, query@),
    {
        match self.view {
            PkgView::SystemManagers => {
                if i >= self.flat.len() {
                    return false;
                }
                let p = &self.flat[i];
                assert(self@.flat[i as int] == p@);
                let name = text::to_lower(p.package.name.as_str());
                text::contains_text(name.as_str(), query) || text::contains_text(
                    p.manager.label(),
                    query,
                )
            },
            PkgView::ProjectDeps => {
                if i >= self.project_deps.len() {
                    return false;
                }
                let p = &self.project_deps[i];
                assert(self@.project_deps[i as int] == p@);
                let path = text::to_lower(p.path.as_str());
                text::contains_text(path.as_str(), query) || text::contains_text(
                    p.manager_label.as_str(),
                    query,
                )
            },
        }
    }

    fn find_matches(&self) -> (r: Vec<usize>)
        ensures
            r@ == self@.found(),
    {
        let query = text::to_lower(self.search_query.as_str());
        let base = self.base_pkg_indices();
        let mut r: Vec<usize> = Vec::new();
        let mut i: usize = 0;
        assert(base@.take(0) =~= Seq::<usize>::empty());
        while i < base.len()
            invariant
                i <= base@.len(),
                r@ == self@.matching(base@.take(i as int), query@),
            decreases base@.len() - i,
        {
            assert(base@.take(i + 1).drop_last() =~= base@.take(i as int));
            assert(base@.take(i + 1).last() == base@[i as int]);
            if self.matches(base[i], query.as_str()) {
                r.push(base[i]);
            }
            i += 1;
        }
        assert(base@.take(base@.len() as int) =~= base@);
        r
    }

    /// The packages in the rows.
    pub fn pkg_visible_indices(&self) -> (r: Vec<usize>)
        ensures
            r@ == self@.rows(),
    {
        if !self.search_query.as_str().is_empty() {
            let mut r: Vec<usize> = Vec::new();
            let mut i: usize = 0;
            while i < self.search_matches.len()
                invariant
                    i <= self.search_matches@.len(),
                    r@ == self.search_matches@.take(i as int),
                decreases self.search_matches@.len() - i,
            {
                r.push(self.search_matches[i]);
                assert(self.search_matches@.take(i + 1) =~= self.search_matches@.take(
                    i as int,
                ).push(self.search_matches@[i as int]));
                i += 1;
            }
            assert(self.search_matches@.take(self.search_matches@.len() as int)
                =~= self.search_matches@);
            r
        } else {
            self.base_pkg_indices()
        }
    }

    pub fn pkg_item_count(&self) -> (r: usize)
        ensures
            r == self@.rows().len(),
    {
        if !self.search_query.as_str().is_empty() {
            self.search_matches.len()
        } else {
            self.base_pkg_indices().len()
        }
    }

    pub fn pkg_visible_index(&self, visible_index: usize) -> (r: Option<usize>)
        ensures
            match r {
                Some(i) => self@.place(visible_index as int) == Some(i as int) && visible_index
                    < self@.rows().len() && self@.rows()[visible_index as int] == i,
                None => self@.place(visible_index as int) is None,
            },
    {
        let rows = self.pkg_visible_indices();
        if visible_index < rows.len() {
            Some(rows[visible_index])
        } else {
            None
        }
    }

    /// A filter is typed no more but still narrows the rows.
    pub fn pkg_filter_active(&self) -> (r: bool)
        ensures
            r == (!self@.search_mode && self@.is_searched()),
    {
        !self.search_mode && !self.search_query.as_str().is_empty()
    }

    /// The package that is selected, and what is known of its dependencies.
    pub fn selected_pkg_detail(&self) -> (r: Option<(&FlatPackage, Option<&packages::DepInfo>)>)
        ensures
            match r {
                Some((p, info)) => self@.current() == Some(p@) && match info {
                    Some(d) => self@.dep_graph is Some && self@.dep_graph->0.contains_key(
                        (p@.manager, p@.package.name),
                    ) && self@.dep_graph->0[(p@.manager, p@.package.name)] == d@,
                    None => self@.dep_graph is None || !self@.dep_graph->0.contains_key(
                        (p@.manager, p@.package.name),
                    ),
                },
                None => self@.current() is None,
            },
    {
        match self.pkg_visible_index(self.selected) {
            Some(i) => {
                if i >= self.flat.len() {
                    return None;
                }
                let p = &self.flat[i];
                assert(self@.flat[i as int] == p@);
                let info = match &self.dep_graph {
                    Some(graph) => graph.get(p.manager, p.package.name.as_str()),
                    None => None,
                };
                Some((p, info))
            },
            None => None,
        }
    }

    /// The project that is selected.
    pub fn selected_project_dep_detail(&self) -> (r: Option<&manifests::ProjectDeps>)
        ensures
            match r {
                Some(p) => self@.current_project() == Some(p@),
                None => self@.current_project() is None,
            },
    {
        match self.pkg_visible_index(self.selected) {
            Some(i) => {
                if i >= self.project_deps.len() {
                    return None;
                }
                assert(self@.project_deps[i as int] == self.project_deps@[i as int]@);
                Some(&self.project_deps[i])
            },
            None => None,
        }
    }

    // -----------------------------------------------------------------------
    // Moves and filters
    // -----------------------------------------------------------------------

    pub fn move_cursor(&mut self, delta: i32)
        ensures
            final(self)@ == old(self)@.stepped(delta as int),
    {
        let count: usize = self.pkg_item_count();
        if count > 0 {
            self.selected = outbox::wrap_row(self.selected, delta, count);
        }
    }

    pub fn page_move(&mut self, pages: i32)
        ensures
            final(self)@ == old(self)@.paged(pages as int),
    {
        let count: usize = self.pkg_item_count();
        if count > 0 {
            self.selected = outbox::turn_pages(self.selected, pages, self.page_rows, count);
        }
    }

    /// Notes how many rows a page has.
    pub fn set_page_rows(&mut self, rows: usize)
        ensures
            final(self)@ == (PaneV { page_rows: rows as nat, ..old(self)@ }),
    {
        self.page_rows = rows;
    }

    pub fn move_to_start(&mut self)
        ensures
            final(self)@ == old(self)@.selecting(0),
    {
        self.selected = 0;
    }

    pub fn move_to_end(&mut self)
        ensures
            final(self)@ == old(self)@.at_end(),
    {
        let count: usize = self.pkg_item_count();
        if count > 0 {
            self.selected = count - 1;
        }
    }

    pub fn toggle_unused_filter(&mut self, out: &mut outbox::Outbox)
        ensures
            final(self)@ == old(self)@.unfiltered(),
            final(out)@ == old(out)@.says(
                if old(self)@.show_unused {
                    "showing all packages"@
                } else {
                    "showing dependency leaves only"@
                },
            ),
    {
        self.show_unused = !self.show_unused;
        self.selected = 0;
        self.search_matches = Vec::new();
        self.search_query = String::new();
        self.search_mode = false;
        if self.show_unused {
            out.say("showing dependency leaves only");
        } else {
            out.say("showing all packages");
        }
    }

    pub fn toggle_pkg_view(&mut self)
        ensures
            final(self)@ == old(self)@.other_view(),
    {
        self.view = match self.view {
            PkgView::SystemManagers => PkgView::ProjectDeps,
            PkgView::ProjectDeps => PkgView::SystemManagers,
        };
        self.selected = 0;
        self.update_matches();
    }

    fn update_matches(&mut self)
        ensures
            final(self)@ == old(self)@.refound(),
    {
        if !self.search_query.as_str().is_empty() {
            let found = self.find_matches();
            self.search_matches = found;
        }
    }

    pub fn open_pkg_detail(&mut self)
        ensures
            final(self)@ == (PaneV {
                detail: old(self)@.detail || old(self)@.rows().len() > 0,
                ..old(self)@
            }),
    {
        if self.pkg_item_count() > 0 {
            self.detail = true;
        }
    }

    pub fn close_pkg_detail(&mut self)
        ensures
            final(self)@ == (PaneV { detail: false, ..old(self)@ }),
    {
        self.detail = false;
    }

    pub fn enter_pkg_search(&mut self)
        ensures
            final(self)@ == (PaneV {
                search_mode: true,
                search_query: Seq::empty(),
                search_matches: Seq::empty(),
                ..old(self)@
            }),
    {
        self.search_mode = true;
        self.search_query = String::new();
        self.search_matches = Vec::new();
    }

    /// Ends a search and shows all packages; the selected one stays selected.
    pub fn exit_pkg_search(&mut self)
        ensures
            final(self)@ == old(self)@.unsearched(),
    {
        let wanted = self.pkg_visible_index(self.selected);
        self.search_mode = false;
        self.search_query = String::new();
        self.search_matches = Vec::new();
        match wanted {
            Some(i) => {
                let base = self.base_pkg_indices();
                self.selected = row_of(&base, i);
            },
            None => {},
        }
    }

    /// Ends typing; what was found stays shown.
    pub fn keep_pkg_search(&mut self)
        ensures
            final(self)@ == (PaneV { search_mode: false, ..old(self)@ }),
    {
        self.search_mode = false;
    }

    pub fn pkg_search_push(&mut self, ch: char)
        ensures
            final(self)@ == old(self)@.with_query(old(self)@.search_query.push(ch)),
    {
        self.search_query.push(ch);
        self.selected = 0;
        let found = self.find_matches();
        self.search_matches = found;
    }

    pub fn pkg_search_pop(&mut self)
        ensures
            final(self)@ == old(self)@.with_query(
                if old(self)@.search_query.len() > 0 {
                    old(self)@.search_query.drop_last()
                } else {
                    Seq::empty()
                },
            ),
    {
        self.search_query = text::without_last(self.search_query.as_str());
        self.selected = 0;
        if self.search_query.as_str().is_empty() {
            self.search_matches = Vec::new();
        } else {
            let found = self.find_matches();
            self.search_matches = found;
        }
    }

    /// Lists the packages of the reports, the largest first.
    pub fn rebuild_flat_packages(&mut self)
        ensures
            final(self)@ == old(self)@.flattened(),
    {
        let list = gather_packages(&self.reports);
        let order = LargestPackage;
        self.flat = sorting::arrange(&order, list);
        self.update_matches();
    }
}

fn row_of(list: &Vec<usize>, wanted: usize) -> (r: usize)
    ensures
        r == PaneV::row_in(list@, wanted),
{
    let mut i: usize = 0;
    while i < list.len()
        invariant
            i <= list@.len(),
            !list@.take(i as int).contains(wanted),
        decreases list@.len() - i,
    {
        let ghost before = list@.take(i as int);
        let ghost now = list@.take(i + 1);
        assert(now.drop_last() =~= before);
        assert(now.last() == list@[i as int]);
        if list[i] == wanted {
            proof {
                row_in_longer(list@, wanted, i + 1);
            }
            return i;
        }
        assert(!now.contains(wanted)) by {
            if now.contains(wanted) {
                let k = choose|k: int| 0 <= k < now.len() && now[k] == wanted;
                assert(before[k] == wanted);
            }
        }
        i += 1;
    }
    proof {
        assert(list@.take(list@.len() as int) =~= list@);
        row_in_missing(list@, wanted);
    }
    0
}

proof fn row_in_missing(list: Seq<usize>, wanted: usize)
    requires
        !list.contains(wanted),
    ensures
        PaneV::row_in(list, wanted) == 0,
    decreases list.len(),
{
    if list.len() > 0 {
        let shorter = list.drop_last();
        assert(list[list.len() - 1] == list.last());
        assert(!shorter.contains(wanted)) by {
            if shorter.contains(wanted) {
                let k = choose|k: int| 0 <= k < shorter.len() && shorter[k] == wanted;
                assert(list[k] == wanted);
            }
        }
        row_in_missing(shorter, wanted);
    }
}

proof fn row_in_longer(list: Seq<usize>, wanted: usize, k: int)
    requires
        0 < k <= list.len(),
        list[k - 1] == wanted,
        !list.take(k - 1).contains(wanted),
    ensures
        PaneV::row_in(list, wanted) == k - 1,
    decreases list.len(),
{
    let shorter = list.drop_last();
    if k == list.len() {
        assert(shorter =~= list.take(k - 1));
    } else {
        assert(shorter.take(k - 1) =~= list.take(k - 1));
        assert(shorter[k - 1] == wanted);
        row_in_longer(shorter, wanted, k);
    }
}

// ---------------------------------------------------------------------------
// Scans
// ---------------------------------------------------------------------------

/// What a scan of packages found. The managers were only asked where
/// `include_managers` says so.
pub struct PackageScan {
    pub scan_id: u64,
    pub cwd: String,
    pub reports: Vec<packages::ManagerReport>,
    pub project_deps: Vec<manifests::ProjectDeps>,
    pub include_managers: bool,
}

/// How many of the managers are there.
pub open spec fn available_count(reports: Seq<packages::ManagerModel>) -> nat
    decreases reports.len(),
{
    if reports.len() == 0 {
        0
    } else {
        available_count(reports.drop_last()) + if reports.last().available {
            1nat
        } else {
            0
        }
    }
}

fn count_available(reports: &Vec<packages::ManagerReport>) -> (r: usize)
    ensures
        r == available_count(sorting::views(reports@)),
{
    let ghost all = sorting::views(reports@);
    let mut r: usize = 0;
    let mut i: usize = 0;
    assert(all.take(0) =~= Seq::<packages::ManagerModel>::empty());
    while i < reports.len()
        invariant
            i <= reports@.len(),
            r <= i,
            all == sorting::views(reports@),
            r == available_count(all.take(i as int)),
        decreases reports@.len() - i,
    {
        assert(all.take(i + 1).drop_last() =~= all.take(i as int));
        assert(all.take(i + 1).last() == reports@[i as int]@);
        if reports[i].available {
            r += 1;
        }
        i += 1;
    }
    assert(all.take(all.len() as int) =~= all);
    r
}

/// The warnings of managers that could not be listed, one after the other.
pub open spec fn warnings_of(reports: Seq<packages::ManagerModel>) -> Seq<char>
    decreases reports.len(),
{
    if reports.len() == 0 {
        Seq::empty()
    } else {
        let before = warnings_of(reports.drop_last());
        match reports.last().warning {
            Some(w) => before + " · "@ + reports.last().manager.name() + ": "@ + w,
            None => before,
        }
    }
}

fn collect_warnings(reports: &Vec<packages::ManagerReport>) -> (r: String)
    ensures
        r@ == warnings_of(sorting::views(reports@)),
{
    let ghost all = sorting::views(reports@);
    let mut r = String::new();
    let mut i: usize = 0;
    assert(all.take(0) =~= Seq::<packages::ManagerModel>::empty());
    while i < reports.len()
        invariant
            i <= reports@.len(),
            all == sorting::views(reports@),
            r@ == warnings_of(all.take(i as int)),
        decreases reports@.len() - i,
    {
        assert(all.take(i + 1).drop_last() =~= all.take(i as int));
        assert(all.take(i + 1).last() == reports@[i as int]@);
        match &reports[i].warning {
            Some(w) => {
                r = text::join5(
                    r.as_str(),
                    " · ",
                    reports[i].manager.label(),
                    ": ",
                    w.as_str(),
                );
            },
            None => {},
        }
        i += 1;
    }
    assert(all.take(all.len() as int) =~= all);
    r
}

impl PaneV {
    /// The pane once a scan was asked for; one at a time.
    pub open spec fn scanning(self) -> PaneV {
        if self.loading {
            self
        } else {
            PaneV {
                active_scan_id: outbox::next_id(self.active_scan_id),
                loading: true,
                ..self
            }
        }
    }

    pub open spec fn scan_asked(
        self,
        out: outbox::OutboxV,
        cwd: Seq<char>,
        include_managers: bool,
    ) -> outbox::OutboxV {
        if self.loading {
            out
        } else {
            out.says(
                if include_managers {
                    "scanning packages…"@
                } else {
                    "refreshing project dependencies…"@
                },
            ).asks(
                outbox::RequestV::ScanPackages {
                    scan_id: outbox::next_id(self.active_scan_id),
                    cwd,
                    include_managers,
                },
            )
        }
    }

    /// The pane with what a scan found.
    pub open spec fn filled(
        self,
        cwd: Seq<char>,
        reports: Seq<packages::ManagerModel>,
        project_deps: Seq<manifests::ProjectModel>,
        include_managers: bool,
    ) -> PaneV {
        let listed = (PaneV {
            reports: if include_managers {
                reports
            } else {
                self.reports
            },
            loaded: self.loaded || include_managers,
            project_deps,
            project_deps_cwd: Some(cwd),
            loading: false,
            ..self
        }).flattened();
        listed.selecting(outbox::clamped(listed.selected, listed.rows().len()))
    }

    /// The status after the managers were asked.
    pub open spec fn summary(self) -> Seq<char> {
        text::decimal(self.flat.len()) + " packages across "@ + text::decimal(
            available_count(self.reports),
        ) + " managers · "@ + text::decimal(self.project_deps.len())
            + " projects · scanning deps…"@ + warnings_of(self.reports)
    }

    /// The package that is to be uninstalled.
    pub open spec fn uninstall_target(self) -> Option<UninstallModel> {
        match self.current() {
            Some(p) => Some(
                UninstallModel {
                    manager: p.manager,
                    name: p.package.name,
                    display_name: p.manager.name() + " "@ + p.package.name,
                },
            ),
            None => None,
        }
    }

    pub open spec fn uninstall_cancelled(self) -> PaneV {
        PaneV { confirming_uninstall: false, pending_uninstall: None, ..self }
    }

    /// The pane once uninstalling was confirmed.
    pub open spec fn uninstall_confirmed(self) -> PaneV {
        match self.pending_uninstall {
            Some(t) => PaneV {
                uninstalling: Some(t.display_name),
                ..self.uninstall_cancelled()
            },
            None => self.uninstall_cancelled(),
        }
    }

    pub open spec fn uninstall_asked(self, out: outbox::OutboxV) -> outbox::OutboxV {
        match self.pending_uninstall {
            Some(t) => out.says("uninstalling "@ + t.display_name + "…"@).asks(
                outbox::RequestV::Uninstall { manager: t.manager, name: t.name },
            ),
            None => out,
        }
    }

    /// The packages are there, with the projects of a directory.
    pub open spec fn covers(self, cwd: Seq<char>) -> bool {
        self.loaded && self.project_deps_cwd is Some && paths::path_of(self.project_deps_cwd->0)
            == paths::path_of(cwd)
    }

    /// Whether asking to uninstall is refused, for it is a project.
    pub open spec fn refuses_uninstall(self) -> bool {
        !self.confirming_uninstall && self.uninstalling is None && self.place(
            self.selected as int,
        ) is Some && self.view != PkgView::SystemManagers
    }

    /// The pane once uninstalling was asked for.
    pub open spec fn asking_uninstall(self) -> PaneV {
        if self.confirming_uninstall || self.uninstalling is Some || self.view
            != PkgView::SystemManagers || self.uninstall_target() is None {
            self
        } else {
            PaneV {
                pending_uninstall: self.uninstall_target(),
                confirming_uninstall: true,
                ..self
            }
        }
    }
}

impl PackagePane {
    /// Asks for a scan of packages, of projects alone or with the managers.
    pub fn request_package_scan(
        &mut self,
        include_managers: bool,
        cwd: &str,
        out: &mut outbox::Outbox,
    )
        ensures
            final(self)@ == old(self)@.scanning(),
            final(out)@ == old(self)@.scan_asked(old(out)@, cwd@, include_managers),
    {
        if self.loading {
            return ;
        }
        self.active_scan_id = self.active_scan_id.saturating_add(1);
        self.loading = true;
        if include_managers {
            out.say("scanning packages…");
        } else {
            out.say("refreshing project dependencies…");
        }
        out.ask(
            outbox::Request::ScanPackages {
                scan_id: self.active_scan_id,
                cwd: cwd.to_owned(),
                include_managers,
            },
        );
    }

    pub fn refresh_packages(&mut self, cwd: &str, out: &mut outbox::Outbox)
        ensures
            final(self)@ == old(self)@.scanning(),
            final(out)@ == old(self)@.scan_asked(old(out)@, cwd@, true),
    {
        self.request_package_scan(true, cwd, out);
    }

    pub fn reload_project_deps(&mut self, cwd: &str, out: &mut outbox::Outbox)
        ensures
            final(self)@ == old(self)@.scanning(),
            final(out)@ == old(self)@.scan_asked(old(out)@, cwd@, false),
    {
        self.request_package_scan(false, cwd, out);
    }

    /// Fills the pane when it is first shown, or its projects when they are
    /// those of another directory.
    pub fn load_packages(&mut self, cwd: &str, out: &mut outbox::Outbox)
        ensures
            final(self)@ == if old(self)@.covers(cwd@) {
                old(self)@
            } else {
                old(self)@.scanning()
            },
            final(out)@ == if old(self)@.covers(cwd@) {
                old(out)@
            } else {
                old(self)@.scan_asked(old(out)@, cwd@, !old(self)@.loaded)
            },
    {
        if self.loaded {
            let stale = match &self.project_deps_cwd {
                Some(dir) => !paths::path_equals(dir.as_str(), cwd),
                None => true,
            };
            if stale {
                self.reload_project_deps(cwd, out);
            }
            return ;
        }
        self.request_package_scan(true, cwd, out);
    }

    /// A scan came back. One that is not the latest is dropped, and so is what
    /// was found in another directory than the one at hand.
    pub fn packages_scanned(&mut self, scan: PackageScan, cwd: &str, out: &mut outbox::Outbox) -> (changed:
        bool)
        ensures
            changed == (scan.scan_id == old(self)@.active_scan_id && old(self)@.loading),
            !changed ==> final(self)@ == old(self)@ && final(out)@ == old(out)@,
            changed && paths::path_of(scan.cwd@) != paths::path_of(cwd@) ==> final(self)@ == (
            PaneV { loading: false, ..old(self)@ }) && final(out)@ == old(out)@.says(
                "discarded stale package scan"@,
            ),
            changed && paths::path_of(scan.cwd@) == paths::path_of(cwd@) ==> {
                let after = old(self)@.filled(
                    scan.cwd@,
                    sorting::views(scan.reports@),
                    sorting::views(scan.project_deps@),
                    scan.include_managers,
                );
                if scan.include_managers {
                    final(self)@ == (PaneV { deps_loading: true, ..after }) && final(out)@ == if after.deps_loading {
                        old(out)@.says(after.summary())
                    } else {
                        old(out)@.says(after.summary()).asks(outbox::RequestV::ScanDeps)
                    }
                } else {
                    final(self)@ == after && final(out)@ == old(out)@.says(
                        "project dependencies refreshed · "@ + text::decimal(
                            after.project_deps.len(),
                        ) + " projects"@,
                    )
                }
            },
    {
        if scan.scan_id != self.active_scan_id || !self.loading {
            return false;
        }
        if !paths::path_equals(scan.cwd.as_str(), cwd) {
            self.loading = false;
            out.say("discarded stale package scan");
            return true;
        }
        if scan.include_managers {
            self.reports = scan.reports;
            self.loaded = true;
        }
        self.project_deps = scan.project_deps;
        self.project_deps_cwd = Some(scan.cwd);
        self.loading = false;
        self.rebuild_flat_packages();
        let count: usize = self.pkg_item_count();
        self.selected = outbox::clamp(self.selected, count);
        if scan.include_managers {
            let total = text::decimal_text(self.flat.len() as u64);
            let managers = text::decimal_text(count_available(&self.reports) as u64);
            let projects = text::decimal_text(self.project_deps.len() as u64);
            let warnings = collect_warnings(&self.reports);
            let head = text::join4(
                total.as_str(),
                " packages across ",
                managers.as_str(),
                " managers · ",
            );
            out.say_text(
                text::join4(
                    head.as_str(),
                    projects.as_str(),
                    " projects · scanning deps…",
                    warnings.as_str(),
                ),
            );
            if !self.deps_loading {
                self.deps_loading = true;
                out.ask(outbox::Request::ScanDeps);
            }
        } else {
            let projects = text::decimal_text(self.project_deps.len() as u64);
            out.say_text(
                text::join3(
                    "project dependencies refreshed · ",
                    projects.as_str(),
                    " projects",
                ),
            );
        }
        true
    }

    /// A scan broke off.
    pub fn package_scan_failed(&mut self, out: &mut outbox::Outbox)
        ensures
            final(self)@ == (PaneV { loading: false, ..old(self)@ }),
            final(out)@ == old(out)@.says("package scan failed"@),
    {
        self.loading = false;
        out.say("package scan failed");
    }

    /// The dependency graph came back.
    pub fn deps_scanned(&mut self, graph: packages::DepGraph, out: &mut outbox::Outbox)
        ensures
            final(self)@ == (PaneV {
                dep_graph: Some(graph@),
                deps_loading: false,
                ..old(self)@
            }),
            final(out)@ == old(out)@.says(
                text::decimal(old(self)@.flat.len()) + " packages · "@ + text::decimal(
                    packages::leaves(graph@).len(),
                ) + " dependency leaves · u to filter · i for details"@,
            ),
    {
        let leaves = text::decimal_text(graph.dependency_leaf_count() as u64);
        let total = text::decimal_text(self.flat.len() as u64);
        out.say_text(
            text::join4(
                total.as_str(),
                " packages · ",
                leaves.as_str(),
                " dependency leaves · u to filter · i for details",
            ),
        );
        self.dep_graph = Some(graph);
        self.deps_loading = false;
    }

    /// The scan of dependencies broke off.
    pub fn dep_scan_failed(&mut self)
        ensures
            final(self)@ == (PaneV { deps_loading: false, ..old(self)@ }),
    {
        self.deps_loading = false;
    }

    // -----------------------------------------------------------------------
    // Uninstalling
    // -----------------------------------------------------------------------

    /// Asks whether the selected package is to be uninstalled.
    pub fn request_uninstall(&mut self, out: &mut outbox::Outbox)
        ensures
            final(self)@ == old(self)@.asking_uninstall(),
            final(out)@ == if old(self)@.refuses_uninstall() {
                old(out)@.says("uninstall only works for system packages"@)
            } else {
                old(out)@
            },
    {
        if self.confirming_uninstall || self.uninstalling.is_some() {
            return ;
        }
        let i = match self.pkg_visible_index(self.selected) {
            Some(i) => i,
            None => {
                return ;
            },
        };
        if self.view != PkgView::SystemManagers {
            out.say("uninstall only works for system packages");
            return ;
        }
        if i >= self.flat.len() {
            return ;
        }
        let p = &self.flat[i];
        assert(self@.flat[i as int] == p@);
        self.pending_uninstall = Some(
            UninstallTarget {
                manager: p.manager,
                name: p.package.name.clone(),
                display_name: text::join3(p.manager.label(), " ", p.package.name.as_str()),
            },
        );
        self.confirming_uninstall = true;
    }

    pub fn cancel_uninstall(&mut self)
        ensures
            final(self)@ == old(self)@.uninstall_cancelled(),
    {
        self.confirming_uninstall = false;
        self.pending_uninstall = None;
    }

    pub fn confirm_uninstall(&mut self, out: &mut outbox::Outbox)
        ensures
            final(self)@ == old(self)@.uninstall_confirmed(),
            final(out)@ == old(self)@.uninstall_asked(old(out)@),
    {
        self.confirming_uninstall = false;
        let target = self.pending_uninstall.take();
        match target {
            Some(t) => {
                out.say_text(text::join3("uninstalling ", t.display_name.as_str(), "…"));
                out.ask(outbox::Request::Uninstall { manager: t.manager, name: t.name });
                self.uninstalling = Some(t.display_name);
            },
            None => {},
        }
    }

    pub fn pending_uninstall_name(&self) -> (r: &str)
        ensures
            r@ == match self@.pending_uninstall {
                Some(t) => t.display_name,
                None => "?"@,
            },
    {
        match &self.pending_uninstall {
            Some(t) => t.display_name.as_str(),
            None => "?",
        }
    }

    /// A package was uninstalled, or it was not.
    pub fn uninstalled(&mut self, result: Result<String, String>, cwd: &str, out: &mut outbox::Outbox)
        ensures
            ({
                let name = match old(self)@.uninstalling {
                    Some(n) => n,
                    None => Seq::empty(),
                };
                match result {
                    Ok(_) => {
                        let after = PaneV { uninstalling: None, dep_graph: None, ..old(self)@ };
                        final(self)@ == after.scanning() && final(out)@ == after.scan_asked(
                            old(out)@.says("uninstalled "@ + name),
                            cwd@,
                            true,
                        )
                    },
                    Err(reason) => final(self)@ == (PaneV { uninstalling: None, ..old(self)@ })
                        && final(out)@ == old(out)@.says("uninstall failed: "@ + reason@),
                }
            }),
    {
        let name = match self.uninstalling.take() {
            Some(n) => n,
            None => String::new(),
        };
        match result {
            Ok(_) => {
                out.say_text(text::join2("uninstalled ", name.as_str()));
                self.dep_graph = None;
                self.refresh_packages(cwd, out);
            },
            Err(reason) => {
                out.say_text(text::join2("uninstall failed: ", reason.as_str()));
            },
        }
    }

    // -----------------------------------------------------------------------
    // Totals
    // -----------------------------------------------------------------------

    /// The room that the packages of all managers take.
    pub fn total_pkg_size(&self) -> (r: u64)
        ensures
            r == bulkstat::capped(managers_room(self@.reports) as int),
    {
        let ghost all = self@.reports;
        let mut r: u64 = 0;
        let mut i: usize = 0;
        assert(all.take(0) =~= Seq::<packages::ManagerModel>::empty());
        while i < self.reports.len()
            invariant
                i <= self.reports@.len(),
                all == sorting::views(self.reports@),
                r == bulkstat::capped(managers_room(all.take(i as int)) as int),
            decreases self.reports@.len() - i,
        {
            assert(all.take(i + 1).drop_last() =~= all.take(i as int));
            assert(all.take(i + 1).last() == self.reports@[i as int]@);
            if self.reports[i].available {
                r = r.saturating_add(self.reports[i].total_size.allocated);
            }
            i += 1;
        }
        assert(all.take(all.len() as int) =~= all);
        r
    }

    /// The room that the dependencies of all projects take.
    pub fn total_project_deps_size(&self) -> (r: u64)
        ensures
            r == bulkstat::capped(projects_room(self@.project_deps) as int),
    {
        let ghost all = self@.project_deps;
        let mut r: u64 = 0;
        let mut i: usize = 0;
        assert(all.take(0) =~= Seq::<manifests::ProjectModel>::empty());
        while i < self.project_deps.len()
            invariant
                i <= self.project_deps@.len(),
                all == sorting::views(self.project_deps@),
                r == bulkstat::capped(projects_room(all.take(i as int)) as int),
            decreases self.project_deps@.len() - i,
        {
            assert(all.take(i + 1).drop_last() =~= all.take(i as int));
            assert(all.take(i + 1).last() == self.project_deps@[i as int]@);
            match self.project_deps[i].deps_size {
                Some(size) => {
                    r = r.saturating_add(size.allocated);
                },
                None => {},
            }
            i += 1;
        }
        assert(all.take(all.len() as int) =~= all);
        r
    }
}

/// The room that the packages of available managers take.
pub open spec fn managers_room(reports: Seq<packages::ManagerModel>) -> nat
    decreases reports.len(),
{
    if reports.len() == 0 {
        0
    } else {
        managers_room(reports.drop_last()) + if reports.last().available {
            reports.last().total_size.allocated as nat
        } else {
            0
        }
    }
}

/// The room that dependencies take.
pub open spec fn projects_room(projects: Seq<manifests::ProjectModel>) -> nat
    decreases projects.len(),
{
    if projects.len() == 0 {
        0
    } else {
        projects_room(projects.drop_last()) + manifests::allocated_of(projects.last()) as nat
    }
}

// ---------------------------------------------------------------------------
// Laws
// ---------------------------------------------------------------------------

/// While a scan runs, asking again asks for nothing.
pub proof fn one_scan_at_a_time(v: PaneV, out: outbox::OutboxV, cwd: Seq<char>, managers: bool)
    ensures
        v.scanning().scanning() == v.scanning(),
        v.scanning().scan_asked(v.scan_asked(out, cwd, managers), cwd, managers) == v.scan_asked(
            out,
            cwd,
            managers,
        ),
{
}

/// The list of all packages holds each package of each manager that is there, as
/// often as the manager lists it, under that manager.
pub proof fn every_package_is_listed(reports: Seq<packages::ManagerModel>, p: FlatModel)
    ensures
        sums::times(all_packages(reports), p) == sums::added(
            reports,
            |r: packages::ManagerModel|
                if r.available && r.manager == p.manager {
                    sums::times(r.packages, p.package) as int
                } else {
                    0
                },
        ),
    decreases reports.len(),
{
    sums::times_of_none(p);
    if reports.len() > 0 {
        every_package_is_listed(reports.drop_last(), p);
        let r = reports.last();
        sums::times_of_parts(
            all_packages(reports.drop_last()),
            of_manager(r.packages, r.manager),
            p,
        );
        packages_of_a_manager(r.packages, r.manager, p);
    }
}

proof fn packages_of_a_manager(
    list: Seq<packages::PackageModel>,
    manager: packages::Manager,
    p: FlatModel,
)
    ensures
        sums::times(of_manager(list, manager), p) == if manager == p.manager {
            sums::times(list, p.package)
        } else {
            0
        },
    decreases list.len(),
{
    if list.len() == 0 {
        assert(of_manager(list, manager) =~= Seq::<FlatModel>::empty());
        assert(list =~= Seq::<packages::PackageModel>::empty());
        sums::times_of_none(p);
        sums::times_of_none(p.package);
    } else {
        let less = list.drop_last();
        let last = FlatModel { package: list.last(), manager };
        packages_of_a_manager(less, manager, p);
        assert(of_manager(list, manager) =~= of_manager(less, manager).push(last));
        sums::times_of_push(of_manager(less, manager), last, p);
        assert(list =~= less.push(list.last()));
        sums::times_of_push(less, list.last(), p.package);
    }
}

/// The packages are listed once each, those with more allocated bytes first,
/// those without a size counting as empty, and where these are equal by name.
pub proof fn the_largest_packages_come_first(pane: PaneV, i: int, j: int)
    requires
        0 <= i < j < pane.flattened().flat.len(),
    ensures
        pane.flattened().flat.to_multiset() == all_packages(pane.reports).to_multiset(),
        ({
            let (a, b) = (pane.flattened().flat[i].package, pane.flattened().flat[j].package);
            let x: u64 = match a.size {
                Some(size) => size.allocated,
                None => 0,
            };
            let y: u64 = match b.size {
                Some(size) => size.allocated,
                None => 0,
            };
            x >= y && (x == y ==> !text::text_less(b.name, a.name))
        }),
{
    let all = all_packages(pane.reports);
    sorting::arranged_keeps_items(&LargestPackage, all);
    sorting::arranged_is_arranged(&LargestPackage, all);
    let s = sorting::arranged(&LargestPackage, all);
    assert(!sorting::Order::before(&LargestPackage, s[j], s[i]));
}

/// The rooms that are shown are what the managers that are there, and the
/// projects, take together, and the managers that are there are counted.
pub proof fn rooms_add_up(
    reports: Seq<packages::ManagerModel>,
    projects: Seq<manifests::ProjectModel>,
)
    ensures
        managers_room(reports) == sums::added(
            reports,
            |r: packages::ManagerModel|
                if r.available {
                    r.total_size.allocated as int
                } else {
                    0
                },
        ),
        available_count(reports) == sums::added(
            reports,
            |r: packages::ManagerModel|
                if r.available {
                    1int
                } else {
                    0
                },
        ),
        projects_room(projects) == sums::added(
            projects,
            |p: manifests::ProjectModel|
                match p.deps_size {
                    Some(size) => size.allocated as int,
                    None => 0,
                },
        ),
    decreases reports.len(), projects.len(),
{
    if reports.len() > 0 {
        rooms_add_up(reports.drop_last(), projects);
    } else if projects.len() > 0 {
        rooms_add_up(reports, projects.drop_last());
    }
}

/// Without the filter every package has a row; with it those that nothing
/// depends on have one. Rows keep the order of the list.
pub proof fn rows_are_those_that_pass(pane: PaneV, i: int)
    requires
        0 <= i < pane.total() <= usize::MAX,
    ensures
        ({
            let rows = pane.base(pane.total());
            let shown = !pane.show_unused || pane.view == PkgView::ProjectDeps || pane.dep_graph
                is None || packages::status_in(
                pane.dep_graph->0,
                pane.flat[i].manager,
                pane.flat[i].package.name,
            ) == packages::PackageUseStatus::DependencyLeaf;
            &&& rows.contains(i as usize) <==> shown
            &&& forall|k: int, l: int|
                0 <= k < l < rows.len() ==> #[trigger] rows[k] < #[trigger] rows[l]
            &&& forall|k: int| 0 <= k < rows.len() ==> (#[trigger] rows[k]) < pane.total()
        }),
{
    base_is_those_that_pass(pane, pane.total());
    let rows = pane.base(pane.total());
    if pane.passes(i) {
        assert(rows.contains(i as usize));
    }
}

proof fn base_is_those_that_pass(pane: PaneV, count: nat)
    requires
        count <= pane.total() <= usize::MAX,
    ensures
        ({
            let rows = pane.base(count);
            &&& forall|i: int|
                0 <= i < count ==> (#[trigger] pane.passes(i) <==> rows.contains(i as usize))
            &&& forall|k: int, l: int|
                0 <= k < l < rows.len() ==> #[trigger] rows[k] < #[trigger] rows[l]
            &&& forall|k: int| 0 <= k < rows.len() ==> (#[trigger] rows[k]) < count
        }),
    decreases count,
{
    if count > 0 {
        let less = (count - 1) as nat;
        base_is_those_that_pass(pane, less);
        let before = pane.base(less);
        let rows = pane.base(count);
        assert forall|i: int| 0 <= i < count implies (#[trigger] pane.passes(i) <==> rows.contains(
            i as usize,
        )) by {
            if i < less {
                if before.contains(i as usize) {
                    let k = choose|k: int| 0 <= k < before.len() && before[k] == i as usize;
                    assert(rows[k] == i as usize);
                }
                if rows.contains(i as usize) {
                    let k = choose|k: int| 0 <= k < rows.len() && rows[k] == i as usize;
                    assert(before[k] == i as usize);
                }
            } else {
                if pane.passes(i) {
                    assert(rows[before.len() as int] == i as usize);
                }
                if rows.contains(i as usize) {
                    let k = choose|k: int| 0 <= k < rows.len() && rows[k] == i as usize;
                    if k < before.len() {
                        assert(before[k] < less);
                    }
                }
            }
        }
    }
}

/// A search keeps of the rows those that hold the text, in lower case, in the
/// name or the manager, or of a project in the path or the manager.
pub proof fn a_search_keeps_every_match(pane: PaneV)
    ensures
        pane.found() == pane.base(pane.total()).filter(
            |i: usize|
                match pane.view {
                    PkgView::SystemManagers => i < pane.flat.len() && (text::has_part(
                        text::lowercase(pane.flat[i as int].package.name),
                        text::lowercase(pane.search_query),
                    ) || text::has_part(
                        pane.flat[i as int].manager.name(),
                        text::lowercase(pane.search_query),
                    )),
                    PkgView::ProjectDeps => i < pane.project_deps.len() && (text::has_part(
                        text::lowercase(pane.project_deps[i as int].path),
                        text::lowercase(pane.search_query),
                    ) || text::has_part(
                        pane.project_deps[i as int].manager_label,
                        text::lowercase(pane.search_query),
                    )),
                },
        ),
{
    let query = text::lowercase(pane.search_query);
    let rows = pane.base(pane.total());
    let a = |i: usize| pane.is_match(i as int, query);
    let b = |i: usize|
        match pane.view {
            PkgView::SystemManagers => i < pane.flat.len() && (text::has_part(
                text::lowercase(pane.flat[i as int].package.name),
                text::lowercase(pane.search_query),
            ) || text::has_part(
                pane.flat[i as int].manager.name(),
                text::lowercase(pane.search_query),
            )),
            PkgView::ProjectDeps => i < pane.project_deps.len() && (text::has_part(
                text::lowercase(pane.project_deps[i as int].path),
                text::lowercase(pane.search_query),
            ) || text::has_part(
                pane.project_deps[i as int].manager_label,
                text::lowercase(pane.search_query),
            )),
        };
    assert(a =~= b);
    matching_is_filtered(pane, rows, query);
}

proof fn matching_is_filtered(pane: PaneV, list: Seq<usize>, query: Seq<char>)
    ensures
        pane.matching(list, query) == list.filter(|i: usize| pane.is_match(i as int, query)),
    decreases list.len(),
{
    reveal(Seq::filter);
    if list.len() > 0 {
        matching_is_filtered(pane, list.drop_last(), query);
    }
}

/// A search finds a package by its name, in whatever case it is written, or by
/// its manager, and a project by its path or its manager.
pub proof fn packages_are_found_by_name_and_manager(pane: PaneV, i: int, query: Seq<char>)
    requires
        0 <= i,
    ensures
        pane.view == PkgView::SystemManagers && i < pane.flat.len() ==> (pane.is_match(i, query)
            <==> text::has_part(text::lowercase(pane.flat[i].package.name), query)
            || text::has_part(pane.flat[i].manager.name(), query)),
        pane.view == PkgView::ProjectDeps && i < pane.project_deps.len() ==> (pane.is_match(
            i,
            query,
        ) <==> text::has_part(text::lowercase(pane.project_deps[i].path), query)
            || text::has_part(pane.project_deps[i].manager_label, query)),
{
}

/// Turning the filter on what nothing depends on to the other side ends the
/// search and begins at the first row; doing so again leaves the filter as it was.
pub proof fn the_filter_begins_anew(pane: PaneV)
    ensures
        ({
            let other = pane.unfiltered();
            &&& other.show_unused == !pane.show_unused
            &&& !other.is_searched() && !other.search_mode && other.selected == 0
            &&& other.flat == pane.flat && other.view == pane.view
            &&& other.unfiltered().show_unused == pane.show_unused
        }),
{
}

/// Clearing a search keeps the selected package selected, where the rows show it
/// without the search.
pub proof fn clearing_a_search_keeps_the_package(pane: PaneV)
    requires
        pane.place(pane.selected as int) is Some,
        pane.base(pane.total()).contains(pane.rows()[pane.selected as int]),
    ensures
        !pane.unsearched().is_searched(),
        pane.unsearched().place(pane.unsearched().selected as int) == pane.place(
            pane.selected as int,
        ),
{
    let after = PaneV {
        search_mode: false,
        search_query: Seq::empty(),
        search_matches: Seq::empty(),
        ..pane
    };
    same_base(pane, after, pane.total());
    row_is_of_wanted(after.base(after.total()), pane.rows()[pane.selected as int]);
    let there = pane.unsearched();
    same_base(after, there, after.total());
}

proof fn same_base(a: PaneV, b: PaneV, count: nat)
    requires
        a.flat == b.flat,
        a.view == b.view,
        a.show_unused == b.show_unused,
        a.dep_graph == b.dep_graph,
    ensures
        a.base(count) == b.base(count),
    decreases count,
{
    if count > 0 {
        same_base(a, b, (count - 1) as nat);
    }
}

proof fn row_is_of_wanted(list: Seq<usize>, wanted: usize)
    requires
        list.contains(wanted),
    ensures
        PaneV::row_in(list, wanted) < list.len(),
        list[PaneV::row_in(list, wanted) as int] == wanted,
    decreases list.len(),
{
    let less = list.drop_last();
    if !(list.last() == wanted && !less.contains(wanted)) {
        if !less.contains(wanted) {
            let k = choose|k: int| 0 <= k < list.len() && list[k] == wanted;
            if k < less.len() {
                assert(less[k] == wanted);
            }
        }
        row_is_of_wanted(less, wanted);
    }
}

} // verus!
