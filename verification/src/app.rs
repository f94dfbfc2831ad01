//! What the screen shows and how it changes: the panes together.
//!
//! Nothing here touches the disk, starts a thread or runs a command. What has
//! to be done outside is put on a list of requests, and what came of it is
//! handed back.

use crate::browser;
use crate::cache;
use crate::entries;
use crate::fsevents;
use crate::history;
use crate::keymap;
use crate::modals;
use crate::outbox;
use crate::packages;
use crate::paths;
use crate::pkgpane;
use crate::reclaimpane;
use crate::sorting;
use crate::state;
use crate::text;
use vstd::prelude::*;

verus! {

/// For how long new sizes may wait before they are saved, in milliseconds.
pub const SIZE_CACHE_SAVE_INTERVAL: u64 = 60_000;

/// What a text is being typed for.
#[derive(Clone, Copy, Debug, PartialEq, Eq, Structural)]
pub enum InputMode {
    Off,
    Rename,
    Mkdir,
}

/// What happens with a typed text: a new name for a path, or a new directory in
/// one.
#[derive(Debug)]
pub enum InputAction {
    Rename(String),
    Mkdir(String),
}

#[verifier::ext_equal]
pub enum ActionModel {
    Rename(Seq<char>),
    Mkdir(Seq<char>),
}

impl View for InputAction {
    type V = ActionModel;

    open spec fn view(&self) -> ActionModel {
        match self {
            InputAction::Rename(path) => ActionModel::Rename(path@),
            InputAction::Mkdir(path) => ActionModel::Mkdir(path@),
        }
    }
}

/// The line in which a text is typed.
pub struct Input {
    pub mode: InputMode,
    pub prompt: String,
    pub buffer: String,
    pub on_commit: Option<InputAction>,
}

#[verifier::ext_equal]
pub struct InputV {
    pub mode: InputMode,
    pub prompt: Seq<char>,
    pub buffer: Seq<char>,
    pub on_commit: Option<ActionModel>,
}

impl View for Input {
    type V = InputV;

    open spec fn view(&self) -> InputV {
        InputV {
            mode: self.mode,
            prompt: self.prompt@,
            buffer: self.buffer@,
            on_commit: match self.on_commit {
                Some(a) => Some(a@),
                None => None,
            },
        }
    }
}

/// No text is being typed.
pub open spec fn no_input() -> InputV {
    InputV {
        mode: InputMode::Off,
        prompt: Seq::empty(),
        buffer: Seq::empty(),
        on_commit: None,
    }
}

/// What is moved to the Trash once that is confirmed.
#[derive(Debug)]
pub enum DeleteTarget {
    FileEntry(entries::Entry),
    Package { name: String, path: String, is_project_dep: bool },
    TopFile { name: String, path: String },
    ReclaimPath { finding_index: usize, name: String, path: String },
    Batch,
}

#[verifier::ext_equal]
pub enum TargetModel {
    FileEntry(entries::EntryV),
    Package { name: Seq<char>, path: Seq<char>, is_project_dep: bool },
    TopFile { name: Seq<char>, path: Seq<char> },
    ReclaimPath { finding_index: nat, name: Seq<char>, path: Seq<char> },
    Batch,
}

impl View for DeleteTarget {
    type V = TargetModel;

    open spec fn view(&self) -> TargetModel {
        match self {
            DeleteTarget::FileEntry(e) => TargetModel::FileEntry(e@),
            DeleteTarget::Package { name, path, is_project_dep } => TargetModel::Package {
                name: name@,
                path: path@,
                is_project_dep: *is_project_dep,
            },
            DeleteTarget::TopFile { name, path } => TargetModel::TopFile {
                name: name@,
                path: path@,
            },
            DeleteTarget::ReclaimPath { finding_index, name, path } => TargetModel::ReclaimPath {
                finding_index: *finding_index as nat,
                name: name@,
                path: path@,
            },
            DeleteTarget::Batch => TargetModel::Batch,
        }
    }
}

pub open spec fn target_model(t: Option<DeleteTarget>) -> Option<TargetModel> {
    match t {
        Some(t) => Some(t@),
        None => None,
    }
}

/// The baseline of the directory at hand, and what changed since.
pub struct HistoryState {
    pub baseline: Option<history::ScanRecord>,
    pub diff: Option<history::DiffReport>,
    pub scan_id: u64,
    pub saving: bool,
}

#[verifier::ext_equal]
pub struct HistoryV {
    pub baseline: Option<history::RecordModel>,
    pub diff: Option<history::DiffModel>,
    pub scan_id: u64,
    pub saving: bool,
}

pub open spec fn record_view(r: Option<history::ScanRecord>) -> Option<history::RecordModel> {
    match r {
        Some(r) => Some(r@),
        None => None,
    }
}

pub open spec fn diff_view(r: Option<history::DiffReport>) -> Option<history::DiffModel> {
    match r {
        Some(r) => Some(r@),
        None => None,
    }
}

impl View for HistoryState {
    type V = HistoryV;

    open spec fn view(&self) -> HistoryV {
        HistoryV {
            baseline: record_view(self.baseline),
            diff: diff_view(self.diff),
            scan_id: self.scan_id,
            saving: self.saving,
        }
    }
}

/// The remembered sizes, and whether they are to be saved.
pub struct KnownSizes {
    pub cache: cache::SizeCache,
    pub dirty: bool,
    /// When they were last saved, in milliseconds.
    pub last_save: u64,
}

#[verifier::ext_equal]
pub struct KnownV {
    pub cache: Map<Seq<char>, cache::CacheLine>,
    pub dirty: bool,
    pub last_save: u64,
}

impl View for KnownSizes {
    type V = KnownV;

    open spec fn view(&self) -> KnownV {
        KnownV { cache: self.cache@, dirty: self.dirty, last_save: self.last_save }
    }
}

impl KnownV {
    /// Nothing is remembered any more of a path, of what lies in it and of the
    /// directories around it.
    pub open spec fn without(self, path: Seq<char>) -> KnownV {
        KnownV {
            cache: cache::without_related(self.cache, path),
            dirty: self.dirty || exists|k: Seq<char>| #[trigger]
                self.cache.contains_key(k) && cache::is_related(k, path),
            ..self
        }
    }

    /// Nothing is remembered any more of a path.
    pub open spec fn forgetting(self, path: Seq<char>) -> KnownV {
        KnownV {
            cache: self.cache.remove(path),
            dirty: self.dirty || self.cache.contains_key(path),
            ..self
        }
    }

    /// Nothing is remembered any more of the directories among entries.
    pub open spec fn forgetting_dirs(self, list: Seq<entries::EntryV>) -> KnownV
        decreases list.len(),
    {
        if list.len() == 0 {
            self
        } else {
            let before = self.forgetting_dirs(list.drop_last());
            if list.last().is_dir {
                before.forgetting(list.last().path)
            } else {
                before
            }
        }
    }

    /// Nothing is remembered any more of several paths and what is around them.
    pub open spec fn without_all(self, list: Seq<Seq<char>>) -> KnownV
        decreases list.len(),
    {
        if list.len() == 0 {
            self
        } else {
            self.without_all(list.drop_last()).without(list.last())
        }
    }
}

impl KnownSizes {
    /// When a path changes, what is remembered of it, of what lies in it and of
    /// the directories around it is no longer true.
    pub fn invalidate_cache_for(&mut self, path: &str)
        ensures
            final(self)@ == old(self)@.without(path@),
    {
        let removed = self.cache.invalidate_for(path);
        self.dirty = self.dirty || removed;
    }

    fn remove_cached_size(&mut self, path: &str)
        ensures
            final(self)@ == old(self)@.forgetting(path@),
    {
        let removed = self.cache.remove(path);
        self.dirty = self.dirty || removed;
    }

    pub fn forget_dirs(&mut self, list: &Vec<entries::Entry>)
        ensures
            final(self)@ == old(self)@.forgetting_dirs(sorting::views(list@)),
    {
        let ghost start = self@;
        let ghost all = sorting::views(list@);
        let mut i: usize = 0;
        assert(all.take(0) =~= Seq::<entries::EntryV>::empty());
        while i < list.len()
            invariant
                i <= list@.len(),
                all == sorting::views(list@),
                self@ == start.forgetting_dirs(all.take(i as int)),
            decreases list@.len() - i,
        {
            assert(all.take(i + 1).drop_last() =~= all.take(i as int));
            assert(all.take(i + 1).last() == list@[i as int]@);
            if list[i].is_dir {
                self.remove_cached_size(list[i].path.as_str());
            }
            i += 1;
        }
        assert(all.take(all.len() as int) =~= all);
    }

    pub fn invalidate_all(&mut self, list: &Vec<String>)
        ensures
            final(self)@ == old(self)@.without_all(text::texts(list@)),
    {
        let ghost start = self@;
        let ghost all = text::texts(list@);
        let mut i: usize = 0;
        assert(all.take(0) =~= Seq::<Seq<char>>::empty());
        while i < list.len()
            invariant
                i <= list@.len(),
                all == text::texts(list@),
                self@ == start.without_all(all.take(i as int)),
            decreases list@.len() - i,
        {
            assert(all.take(i + 1).drop_last() =~= all.take(i as int));
            assert(all.take(i + 1).last() == list@[i as int]@);
            self.invalidate_cache_for(list[i].as_str());
            i += 1;
        }
        assert(all.take(all.len() as int) =~= all);
    }
}

/// The state of the screen.
pub struct App {
    pub files: browser::Browser,
    pub known: KnownSizes,
    pub disks: modals::DiskPane,
    pub pkgs: pkgpane::PackagePane,
    pub reclaim: reclaimpane::ReclaimPane,
    pub top: modals::TopFiles,
    pub input: Input,
    pub history: HistoryState,
    pub focus: keymap::Focus,
    pub show_help: bool,
    pub file_info_open: bool,
    pub confirming_delete: bool,
    pub pending_delete: Option<DeleteTarget>,
    /// What is being moved to the Trash.
    pub deleting: Option<DeleteTarget>,
    pub out: outbox::Outbox,
}

#[verifier::ext_equal]
pub struct AppV {
    pub files: browser::BrowserV,
    pub known: KnownV,
    pub disks: modals::DiskPaneV,
    pub pkgs: pkgpane::PaneV,
    pub reclaim: reclaimpane::ReclaimV,
    pub top: modals::TopFilesV,
    pub input: InputV,
    pub history: HistoryV,
    pub focus: keymap::Focus,
    pub show_help: bool,
    pub file_info_open: bool,
    pub confirming_delete: bool,
    pub pending_delete: Option<TargetModel>,
    pub deleting: Option<TargetModel>,
    pub out: outbox::OutboxV,
}

impl View for App {
    type V = AppV;

    open spec fn view(&self) -> AppV {
        AppV {
            files: self.files@,
            known: self.known@,
            disks: self.disks@,
            pkgs: self.pkgs@,
            reclaim: self.reclaim@,
            top: self.top@,
            input: self.input@,
            history: self.history@,
            focus: self.focus,
            show_help: self.show_help,
            file_info_open: self.file_info_open,
            confirming_delete: self.confirming_delete,
            pending_delete: target_model(self.pending_delete),
            deleting: target_model(self.deleting),
            out: self.out@,
        }
    }
}

impl AppV {
    pub open spec fn says(self, status: Seq<char>) -> AppV {
        AppV { out: self.out.says(status), ..self }
    }

    pub open spec fn asks(self, request: outbox::RequestV) -> AppV {
        AppV { out: self.out.asks(request), ..self }
    }

    /// Asks for the directory at hand to be read, with a path or else a row
    /// selected and a status in the end.
    pub open spec fn reading(
        self,
        selected: Option<Seq<char>>,
        index: nat,
        status: Option<Seq<char>>,
    ) -> AppV {
        self.asks(
            outbox::RequestV::ReadDir { path: self.files.cwd, selected, index, status },
        )
    }

    pub open spec fn reading_history(self) -> AppV {
        self.asks(outbox::RequestV::ReadHistory { path: self.files.cwd })
    }

    /// Asks for the directory at hand to be read again, with the same entry
    /// selected.
    pub open spec fn reloading(self, status: Option<Seq<char>>) -> AppV {
        self.reading(
            match self.files.current() {
                Some(e) => Some(e.path),
                None => None,
            },
            self.files.selected,
            status,
        )
    }

    // -----------------------------------------------------------------------
    // Moves
    // -----------------------------------------------------------------------

    pub open spec fn files_then_scan(self, files: browser::BrowserV) -> AppV {
        AppV { files: files.current_scanned(), out: files.current_asked(self.out), ..self }
    }

    pub open spec fn moved(self, delta: int) -> AppV {
        if self.confirming_delete {
            self
        } else {
            match self.focus {
                keymap::Focus::Files => if self.files.row_count() == 0 {
                    self
                } else {
                    self.files_then_scan(self.files.stepped(delta))
                },
                keymap::Focus::Disks => AppV { disks: self.disks.stepped(delta), ..self },
                keymap::Focus::Packages => AppV { pkgs: self.pkgs.stepped(delta), ..self },
                keymap::Focus::Reclaim => AppV { reclaim: self.reclaim.stepped(delta), ..self },
            }
        }
    }

    pub open spec fn paged(self, pages: int) -> AppV {
        if self.confirming_delete {
            self
        } else {
            match self.focus {
                keymap::Focus::Files => if self.files.row_count() == 0 {
                    self
                } else {
                    self.files_then_scan(self.files.paged(pages))
                },
                keymap::Focus::Disks => AppV { disks: self.disks.paged(pages), ..self },
                keymap::Focus::Packages => AppV { pkgs: self.pkgs.paged(pages), ..self },
                keymap::Focus::Reclaim => AppV { reclaim: self.reclaim.paged(pages), ..self },
            }
        }
    }

    pub open spec fn at_start(self) -> AppV {
        match self.focus {
            keymap::Focus::Files => self.files_then_scan(self.files.selecting(0)),
            keymap::Focus::Disks => AppV { disks: self.disks.selecting(0), ..self },
            keymap::Focus::Packages => AppV { pkgs: self.pkgs.selecting(0), ..self },
            keymap::Focus::Reclaim => AppV { reclaim: self.reclaim.selecting(0), ..self },
        }
    }

    pub open spec fn at_end(self) -> AppV {
        match self.focus {
            keymap::Focus::Files => if self.files.row_count() == 0 {
                self
            } else {
                self.files_then_scan(self.files.at_end())
            },
            keymap::Focus::Disks => AppV { disks: self.disks.at_end(), ..self },
            keymap::Focus::Packages => AppV { pkgs: self.pkgs.at_end(), ..self },
            keymap::Focus::Reclaim => AppV { reclaim: self.reclaim.at_end(), ..self },
        }
    }

    /// The screen in another directory.
    pub open spec fn in_dir(self, dir: Seq<char>, selected: Option<Seq<char>>, index: nat) -> AppV {
        (AppV { files: self.files.moved_to(dir), ..self }).reading(
            selected,
            index,
            None,
        ).reading_history()
    }

    /// Opens what is selected: a directory, a disk, or the paths of a finding.
    pub open spec fn entered(self) -> AppV {
        if self.confirming_delete {
            self
        } else {
            match self.focus {
                keymap::Focus::Files => match self.files.current() {
                    Some(e) => if e.is_dir {
                        self.in_dir(e.path, None, 0)
                    } else {
                        self
                    },
                    None => self,
                },
                keymap::Focus::Disks => match self.disks.current() {
                    Some(d) => (AppV { focus: keymap::Focus::Files, ..self }).in_dir(
                        d.mount,
                        None,
                        0,
                    ),
                    None => self,
                },
                keymap::Focus::Packages => self,
                keymap::Focus::Reclaim => self.with_finding_paths(),
            }
        }
    }

    pub open spec fn with_finding_paths(self) -> AppV {
        let count = self.reclaim.findings().len();
        (AppV { reclaim: self.reclaim.with_paths(), ..self }).says(
            if count == 0 {
                "no reclaim findings loaded"@
            } else {
                "opened reclaim paths: "@ + self.reclaim.findings()[outbox::clamped(
                    self.reclaim.selected,
                    count,
                ) as int].label
            },
        )
    }

    /// Goes to the directory around the one at hand, which stays selected there.
    pub open spec fn upwards(self) -> AppV {
        if self.confirming_delete {
            self
        } else {
            match paths::parent_of(paths::path_of(self.files.cwd)) {
                Some(parent) => self.in_dir(
                    paths::path_text(parent),
                    Some(self.files.cwd),
                    self.files.selected,
                ),
                None => self,
            }
        }
    }

    pub open spec fn hidden_toggled(self) -> AppV {
        if self.confirming_delete {
            self
        } else {
            (AppV {
                files: browser::BrowserV { show_hidden: !self.files.show_hidden, ..self.files },
                ..self
            }).reloading(None)
        }
    }

    pub open spec fn sort_cycled(self, now: u64) -> AppV {
        if self.confirming_delete {
            self
        } else {
            (AppV {
                files: (browser::BrowserV {
                    sort: self.files.sort.successor(),
                    ..self.files
                }).resorted(now),
                ..self
            }).says("sort: "@ + self.files.sort.successor().name())
        }
    }

    /// Sizes every directory that has no fresh size.
    pub open spec fn scanning_all(self) -> AppV {
        if self.confirming_delete {
            self
        } else {
            let wanted = browser::unsized_dirs(self.files.entries, true);
            AppV {
                files: self.files.all_scanned(wanted),
                out: self.files.all_asked(
                    self.out,
                    wanted,
                    "full scan"@,
                    "full scan complete · all visible sizes known"@,
                ),
                ..self
            }
        }
    }

    /// Refreshes the directory at hand.
    pub open spec fn refreshing(self) -> AppV {
        if self.confirming_delete {
            self
        } else {
            (AppV { known: self.known.forgetting_dirs(self.files.entries), ..self }).asks(
                outbox::RequestV::ReadDisks,
            ).asks(
                outbox::RequestV::Rescan {
                    path: self.files.cwd,
                    selected: match self.files.current() {
                        Some(e) => Some(e.path),
                        None => None,
                    },
                    index: self.files.selected,
                },
            )
        }
    }
}

fn copy_current(files: &browser::Browser) -> (r: Option<String>)
    ensures
        packages::opt_text(r) == match files@.current() {
            Some(e) => Some(e.path),
            None => None,
        },
{
    match files.visible_entry(files.selected) {
        Some(e) => Some(e.path.clone()),
        None => None,
    }
}

impl App {
    /// The screen at the start: in a directory, with the sizes of earlier
    /// sessions. What was wrong with the saved files is said in the end.
    pub fn new(
        cwd: &str,
        saved: Result<Vec<state::CachedSize>, String>,
        freshness: &fsevents::Freshness,
        history_problem: Option<String>,
        now: u64,
    ) -> (r: App)
        ensures
            r@.files == (browser::BrowserV {
                cwd: cwd@,
                entries: Seq::empty(),
                selected: 0,
                show_hidden: false,
                sort: entries::SortMode::SizeDesc,
                sort_dirty: false,
                last_sort: now,
                list_offset: 0,
                page_rows: 0,
                search_mode: false,
                search_query: Seq::empty(),
                search_matches: Seq::empty(),
                marked: Seq::empty(),
                active_scan_id: 0,
                scan_total: 0,
                scan_completed: 0,
            }),
            r@.known == match saved {
                Ok(list) => KnownV {
                    cache: if list@.len() > state::SIZE_CACHE_MAX_ENTRIES {
                        cache::loaded_lines(
                            cache::kept_lines(sorting::views(list@)),
                            freshness@,
                        )
                    } else {
                        cache::loaded_lines(sorting::views(list@), freshness@)
                    },
                    dirty: list@.len() > state::SIZE_CACHE_MAX_ENTRIES,
                    last_save: now,
                },
                Err(_) => KnownV { cache: Map::empty(), dirty: false, last_save: now },
            },
            r@.input == no_input(),
            r@.history == (HistoryV { baseline: None, diff: None, scan_id: 0, saving: false }),
            r@.disks == (modals::DiskPaneV {
                disks: Seq::empty(),
                selected: 0,
                page_rows: 0,
                info_open: false,
                info_loading: false,
                info_id: 0,
                info_report: None,
            }),
            r@.pkgs == (pkgpane::PaneV {
                reports: Seq::empty(),
                project_deps: Seq::empty(),
                project_deps_cwd: None,
                view: pkgpane::PkgView::SystemManagers,
                loaded: false,
                loading: false,
                selected: 0,
                page_rows: 0,
                search_mode: false,
                search_query: Seq::empty(),
                search_matches: Seq::empty(),
                flat: Seq::empty(),
                show_unused: false,
                detail: false,
                dep_graph: None,
                deps_loading: false,
                active_scan_id: 0,
                confirming_uninstall: false,
                pending_uninstall: None,
                uninstalling: None,
            }),
            r@.reclaim == (reclaimpane::ReclaimV {
                active_scan_id: 0,
                report: None,
                cwd: None,
                loading: false,
                selected: 0,
                page_rows: 0,
                paths_open: false,
                paths_selected: 0,
                paths_finding: 0,
                paths_offset: 0,
                paths_page_rows: 0,
                confirming_empty_trash: false,
                emptying_trash: false,
            }),
            r@.top == (modals::TopFilesV {
                open: false,
                loading: false,
                scan_id: 0,
                scan: None,
                path: None,
                selected: 0,
                offset: 0,
                page_rows: 0,
            }),
            r@.focus == keymap::Focus::Files,
            !r@.show_help && !r@.file_info_open && !r@.confirming_delete,
            r@.pending_delete is None && r@.deleting is None,
            r@.out == (outbox::OutboxV {
                status: "Space preview · f Finder · O open"@,
                requests: seq![
                    outbox::RequestV::ReadDisks,
                    outbox::RequestV::ReadDir {
                        path: cwd@,
                        selected: None,
                        index: 0,
                        status: match saved {
                            Err(problem) => Some("size cache ignored: "@ + problem@),
                            Ok(_) => match history_problem {
                                Some(problem) => Some("history ignored: "@ + problem@),
                                None => None,
                            },
                        },
                    },
                    outbox::RequestV::ReadHistory { path: cwd@ },
                ],
            }),
    {
        let mut warning: Option<String> = None;
        let mut loaded = cache::SizeCache::new();
        let mut dirty = false;
        match saved {
            Ok(list) => {
                let (lines, dropped) = cache::SizeCache::from_saved(list, freshness);
                loaded = lines;
                dirty = dropped;
                match history_problem {
                    Some(problem) => {
                        warning = Some(text::join2("history ignored: ", problem.as_str()));
                    },
                    None => {},
                }
            },
            Err(problem) => {
                warning = Some(text::join2("size cache ignored: ", problem.as_str()));
            },
        }
        let mut out = outbox::Outbox::new();
        out.say("Space preview · f Finder · O open");
        out.ask(outbox::Request::ReadDisks);
        out.ask(
            outbox::Request::ReadDir {
                path: cwd.to_owned(),
                selected: None,
                index: 0,
                status: warning,
            },
        );
        out.ask(outbox::Request::ReadHistory { path: cwd.to_owned() });
        let files = browser::Browser {
            cwd: cwd.to_owned(),
            entries: Vec::new(),
            selected: 0,
            show_hidden: false,
            sort: entries::SortMode::SizeDesc,
            sort_dirty: false,
            last_sort: now,
            list_offset: 0,
            page_rows: 0,
            search_mode: false,
            search_query: String::new(),
            search_matches: Vec::new(),
            marked: Vec::new(),
            active_scan_id: 0,
            scan_total: 0,
            scan_completed: 0,
        };
        assert(files@.entries =~= Seq::<entries::EntryV>::empty());
        assert(files@.marked =~= Seq::<Seq<char>>::empty());
        let disks = modals::DiskPane {
            disks: Vec::new(),
            selected: 0,
            page_rows: 0,
            info_open: false,
            info_loading: false,
            info_id: 0,
            info_report: None,
        };
        let pkgs = pkgpane::PackagePane {
            reports: Vec::new(),
            project_deps: Vec::new(),
            project_deps_cwd: None,
            view: pkgpane::PkgView::SystemManagers,
            loaded: false,
            loading: false,
            selected: 0,
            page_rows: 0,
            search_mode: false,
            search_query: String::new(),
            search_matches: Vec::new(),
            flat: Vec::new(),
            show_unused: false,
            detail: false,
            dep_graph: None,
            deps_loading: false,
            active_scan_id: 0,
            confirming_uninstall: false,
            pending_uninstall: None,
            uninstalling: None,
        };
        let reclaim = reclaimpane::ReclaimPane {
            active_scan_id: 0,
            report: None,
            cwd: None,
            loading: false,
            selected: 0,
            page_rows: 0,
            paths_open: false,
            paths_selected: 0,
            paths_finding: 0,
            paths_offset: 0,
            paths_page_rows: 0,
            confirming_empty_trash: false,
            emptying_trash: false,
        };
        let top = modals::TopFiles {
            open: false,
            loading: false,
            scan_id: 0,
            scan: None,
            path: None,
            selected: 0,
            offset: 0,
            page_rows: 0,
        };
        assert(disks@.disks =~= Seq::<modals::DiskModel>::empty());
        assert(pkgs@.reports =~= Seq::<packages::ManagerModel>::empty());
        assert(pkgs@.project_deps =~= Seq::<crate::manifests::ProjectModel>::empty());
        assert(pkgs@.flat =~= Seq::<pkgpane::FlatModel>::empty());
        App {
            files,
            known: KnownSizes { cache: loaded, dirty, last_save: now },
            disks,
            pkgs,
            reclaim,
            top,
            input: Input {
                mode: InputMode::Off,
                prompt: String::new(),
                buffer: String::new(),
                on_commit: None,
            },
            history: HistoryState { baseline: None, diff: None, scan_id: 0, saving: false },
            focus: keymap::Focus::Files,
            show_help: false,
            file_info_open: false,
            confirming_delete: false,
            pending_delete: None,
            deleting: None,
            out,
        }
    }

    fn ask_dir(&mut self, selected: Option<String>, index: usize, status: Option<String>)
        ensures
            final(self)@ == old(self)@.reading(
                packages::opt_text(selected),
                index as nat,
                packages::opt_text(status),
            ),
    {
        self.out.ask(
            outbox::Request::ReadDir { path: self.files.cwd.clone(), selected, index, status },
        );
    }

    /// Reads the baseline of the directory at hand.
    pub fn refresh_history_state(&mut self)
        ensures
            final(self)@ == old(self)@.reading_history(),
    {
        self.out.ask(outbox::Request::ReadHistory { path: self.files.cwd.clone() });
    }

    /// Reads the directory at hand again.
    pub fn reload(&mut self)
        ensures
            final(self)@ == old(self)@.reloading(None),
    {
        let selected = copy_current(&self.files);
        let index: usize = self.files.selected;
        self.ask_dir(selected, index, None);
    }

    /// The directory at hand was read.
    pub fn dir_read(
        &mut self,
        listing: Result<Vec<browser::DirEntry>, String>,
        selected: Option<String>,
        index: usize,
        status: Option<String>,
        now: u64,
    )
        ensures
            ({
                let shown = old(self)@.files.showing(
                    browser::entries_from(
                        browser::listed(listing),
                        old(self)@.known.cache,
                        old(self)@.files.show_hidden,
                    ),
                    now,
                ).restoring(packages::opt_text(selected), index as nat);
                let after = AppV {
                    files: shown.auto_scanned(),
                    out: shown.auto_asked(old(self)@.out),
                    ..old(self)@
                };
                final(self)@ == match packages::opt_text(status) {
                    Some(s) => after.says(s),
                    None => after,
                }
            }),
    {
        self.files.reload_with_selection(
            listing,
            selected,
            index,
            &self.known.cache,
            now,
            &mut self.out,
        );
        match status {
            Some(s) => {
                self.out.say_text(s);
            },
            None => {},
        }
    }

    /// The directory at hand was read for a refresh.
    pub fn dir_read_for_rescan(
        &mut self,
        listing: Result<Vec<browser::DirEntry>, String>,
        selected: Option<String>,
        index: usize,
        now: u64,
    )
        ensures
            ({
                let shown = old(self)@.files.showing(
                    browser::entries_from(
                        browser::listed(listing),
                        old(self)@.known.cache,
                        old(self)@.files.show_hidden,
                    ),
                    now,
                ).restoring(packages::opt_text(selected), index as nat);
                let after = browser::BrowserV {
                    entries: browser::without_dir_sizes(shown.entries),
                    ..shown
                };
                let wanted = browser::unsized_dirs(after.entries, false);
                final(self)@ == (AppV {
                    files: after.all_scanned(wanted),
                    out: after.all_asked(
                        old(self)@.out,
                        wanted,
                        "refresh scan"@,
                        "refresh complete · no directories to rescan"@,
                    ),
                    ..old(self)@
                })
            }),
    {
        self.files.rescan(
            listing,
            selected,
            index,
            &self.known.cache,
            now,
            &mut self.out,
        );
    }

    // -----------------------------------------------------------------------
    // Moves
    // -----------------------------------------------------------------------

    pub fn move_cursor(&mut self, delta: i32)
        ensures
            final(self)@ == old(self)@.moved(delta as int),
    {
        if self.confirming_delete {
            return ;
        }
        match self.focus {
            keymap::Focus::Files => {
                self.files.move_cursor(delta, &mut self.out);
            },
            keymap::Focus::Disks => {
                self.disks.move_cursor(delta);
            },
            keymap::Focus::Packages => {
                self.pkgs.move_cursor(delta);
            },
            keymap::Focus::Reclaim => {
                self.reclaim.move_cursor(delta);
            },
        }
    }

    pub fn page_move(&mut self, pages: i32)
        ensures
            final(self)@ == old(self)@.paged(pages as int),
    {
        if self.confirming_delete {
            return ;
        }
        match self.focus {
            keymap::Focus::Files => {
                self.files.page_move(pages, &mut self.out);
            },
            keymap::Focus::Disks => {
                self.disks.page_move(pages);
            },
            keymap::Focus::Packages => {
                self.pkgs.page_move(pages);
            },
            keymap::Focus::Reclaim => {
                self.reclaim.page_move(pages);
            },
        }
    }

    pub fn move_to_start(&mut self)
        ensures
            final(self)@ == old(self)@.at_start(),
    {
        match self.focus {
            keymap::Focus::Files => {
                self.files.move_to_start(&mut self.out);
            },
            keymap::Focus::Disks => {
                self.disks.move_to_start();
            },
            keymap::Focus::Packages => {
                self.pkgs.move_to_start();
            },
            keymap::Focus::Reclaim => {
                self.reclaim.move_to_start();
            },
        }
    }

    pub fn move_to_end(&mut self)
        ensures
            final(self)@ == old(self)@.at_end(),
    {
        match self.focus {
            keymap::Focus::Files => {
                self.files.move_to_end(&mut self.out);
            },
            keymap::Focus::Disks => {
                self.disks.move_to_end();
            },
            keymap::Focus::Packages => {
                self.pkgs.move_to_end();
            },
            keymap::Focus::Reclaim => {
                self.reclaim.move_to_end();
            },
        }
    }

    fn open_dir(&mut self, dir: &str, selected: Option<String>, index: usize)
        ensures
            final(self)@ == old(self)@.in_dir(
                dir@,
                packages::opt_text(selected),
                index as nat,
            ),
    {
        self.files.move_to_dir(dir);
        self.ask_dir(selected, index, None);
        self.refresh_history_state();
    }

    pub fn enter(&mut self)
        ensures
            final(self)@ == old(self)@.entered(),
    {
        if self.confirming_delete {
            return ;
        }
        match self.focus {
            keymap::Focus::Files => {
                let dir = match self.files.visible_entry(self.files.selected) {
                    Some(e) => if e.is_dir {
                        e.path.clone()
                    } else {
                        return ;
                    },
                    None => {
                        return ;
                    },
                };
                self.open_dir(dir.as_str(), None, 0);
            },
            keymap::Focus::Disks => {
                let dir = match self.disks.selected_disk() {
                    Some(d) => d.mount.clone(),
                    None => {
                        return ;
                    },
                };
                self.focus = keymap::Focus::Files;
                self.open_dir(dir.as_str(), None, 0);
            },
            keymap::Focus::Packages => {},
            keymap::Focus::Reclaim => {
                self.open_selected_reclaim_paths();
            },
        }
    }

    pub fn open_selected_reclaim_paths(&mut self)
        ensures
            final(self)@ == old(self)@.with_finding_paths(),
    {
        self.reclaim.open_selected_reclaim_paths(&mut self.out);
    }

    pub fn go_up(&mut self)
        ensures
            final(self)@ == old(self)@.upwards(),
    {
        if self.confirming_delete {
            return ;
        }
        match paths::path_parent(self.files.cwd.as_str()) {
            Some(parent) => {
                let before = self.files.cwd.clone();
                let index: usize = self.files.selected;
                self.open_dir(parent.as_str(), Some(before), index);
            },
            None => {},
        }
    }

    pub fn toggle_hidden(&mut self)
        ensures
            final(self)@ == old(self)@.hidden_toggled(),
    {
        if self.confirming_delete {
            return ;
        }
        self.files.show_hidden = !self.files.show_hidden;
        self.reload();
    }

    /// Goes on to the next order of the files.
    pub fn cycle_sort(&mut self, now: u64)
        ensures
            final(self)@ == old(self)@.sort_cycled(now),
    {
        if self.confirming_delete {
            return ;
        }
        self.files.cycle_sort(now, &mut self.out);
    }

    /// Refreshes the directory and sizes all directories in it anew.
    pub fn force_rescan(&mut self)
        ensures
            final(self)@ == old(self)@.refreshing(),
    {
        if self.confirming_delete {
            return ;
        }
        let selected = copy_current(&self.files);
        let index: usize = self.files.selected;
        self.known.forget_dirs(&self.files.entries);
        self.out.ask(outbox::Request::ReadDisks);
        self.out.ask(
            outbox::Request::Rescan { path: self.files.cwd.clone(), selected, index },
        );
    }

    /// Sizes every directory that has no fresh size.
    pub fn scan_all_missing_visible(&mut self)
        ensures
            final(self)@ == old(self)@.scanning_all(),
    {
        if self.confirming_delete {
            return ;
        }
        self.files.scan_all_missing_visible(&mut self.out);
    }
}

// ---------------------------------------------------------------------------
// Laws
// ---------------------------------------------------------------------------

/// Of several entries the directories are forgotten, each of them, and nothing
/// else; there is something to save once one was.
pub proof fn every_directory_is_forgotten(
    known: KnownV,
    list: Seq<entries::EntryV>,
    k: Seq<char>,
)
    ensures
        ({
            let after = known.forgetting_dirs(list);
            let gone = exists|i: int|
                0 <= i < list.len() && (#[trigger] list[i]).is_dir && list[i].path == k;
            &&& after.cache.contains_key(k) <==> known.cache.contains_key(k) && !gone
            &&& after.cache.contains_key(k) ==> after.cache[k] == known.cache[k]
            &&& known.cache.contains_key(k) && gone ==> after.dirty
            &&& known.dirty ==> after.dirty
            &&& after.last_save == known.last_save
        }),
    decreases list.len(),
{
    if list.len() > 0 {
        let less = list.drop_last();
        every_directory_is_forgotten(known, less, k);
        let last = list.len() - 1;
        assert(list[last] == list.last());
        if exists|i: int| 0 <= i < less.len() && (#[trigger] less[i]).is_dir && less[i].path == k {
            let i = choose|i: int|
                0 <= i < less.len() && (#[trigger] less[i]).is_dir && less[i].path == k;
            assert(list[i].is_dir && list[i].path == k);
        }
        if exists|i: int| 0 <= i < list.len() && (#[trigger] list[i]).is_dir && list[i].path == k {
            let i = choose|i: int|
                0 <= i < list.len() && (#[trigger] list[i]).is_dir && list[i].path == k;
            if i < last {
                assert(less[i].is_dir && less[i].path == k);
            }
        }
    }
}

/// Of several paths each is forgotten, with what lies in it and the directories
/// around it, and nothing else.
pub proof fn every_path_is_forgotten(known: KnownV, list: Seq<Seq<char>>, k: Seq<char>)
    ensures
        ({
            let after = known.without_all(list);
            let gone = exists|i: int|
                0 <= i < list.len() && (paths::lies_under(
                    paths::path_of(k),
                    paths::path_of(#[trigger] list[i]),
                ) || paths::lies_under(paths::path_of(list[i]), paths::path_of(k)));
            &&& after.cache.contains_key(k) <==> known.cache.contains_key(k) && !gone
            &&& after.cache.contains_key(k) ==> after.cache[k] == known.cache[k]
            &&& known.cache.contains_key(k) && gone ==> after.dirty
            &&& known.dirty ==> after.dirty
        }),
    decreases list.len(),
{
    if list.len() > 0 {
        let less = list.drop_last();
        every_path_is_forgotten(known, less, k);
        let last = list.len() - 1;
        assert(list[last] == list.last());
        let near = |p: Seq<char>|
            paths::lies_under(paths::path_of(k), paths::path_of(p)) || paths::lies_under(
                paths::path_of(p),
                paths::path_of(k),
            );
        if exists|i: int| 0 <= i < less.len() && near(#[trigger] less[i]) {
            let i = choose|i: int| 0 <= i < less.len() && near(#[trigger] less[i]);
            assert(near(list[i]));
        }
        if exists|i: int| 0 <= i < list.len() && near(#[trigger] list[i]) {
            let i = choose|i: int| 0 <= i < list.len() && near(#[trigger] list[i]);
            if i < last {
                assert(near(less[i]));
            }
        }
    }
}

} // verus!
