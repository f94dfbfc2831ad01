//! What each command does.

use crate::actions;
use crate::app;
use crate::browser;
use crate::keymap;
use crate::keys;
use crate::modals;
use crate::outbox;
use crate::pkgpane;
use crate::reclaimpane;
use vstd::prelude::*;

verus! {

/// What follows a key: nothing, that the screen is drawn anew, or the end.
#[derive(Clone, Copy, Debug, PartialEq, Eq, Structural)]
pub enum Step {
    Nothing,
    Redraw,
    Quit,
}

pub open spec fn step_of(command: keys::Command) -> Step {
    match command {
        keys::Command::Ignore => Step::Nothing,
        keys::Command::Quit => Step::Quit,
        _ => Step::Redraw,
    }
}

/// Two screens are one.
spec fn same_screen(a: app::AppV, b: app::AppV) -> bool {
    a == b
}

/// A typed text without its last character.
pub open spec fn query_erased(query: Seq<char>) -> Seq<char> {
    if query.len() > 0 {
        query.drop_last()
    } else {
        Seq::empty()
    }
}

impl app::AppV {
    pub open spec fn with_pkgs(self, pkgs: pkgpane::PaneV) -> app::AppV {
        app::AppV { pkgs, ..self }
    }

    pub open spec fn with_files(self, files: browser::BrowserV) -> app::AppV {
        app::AppV { files, ..self }
    }

    pub open spec fn with_top(self, top: modals::TopFilesV) -> app::AppV {
        app::AppV { top, ..self }
    }

    pub open spec fn with_reclaim(self, reclaim: reclaimpane::ReclaimV) -> app::AppV {
        app::AppV { reclaim, ..self }
    }

    pub open spec fn help_shown(self, show_help: bool) -> app::AppV {
        app::AppV { show_help, ..self }
    }

    pub open spec fn file_info_shown(self, open: bool) -> app::AppV {
        app::AppV { file_info_open: open, ..self }
    }

    /// The details of the selected file are shown, if one is selected.
    pub open spec fn file_info_asked(self) -> app::AppV {
        if self.files.current() is Some {
            self.file_info_shown(true)
        } else {
            self
        }
    }

    pub open spec fn detail_closed(self) -> app::AppV {
        self.with_pkgs(pkgpane::PaneV { detail: false, ..self.pkgs })
    }

    pub open spec fn detail_opened(self) -> app::AppV {
        self.with_pkgs(
            pkgpane::PaneV {
                detail: self.pkgs.detail || self.pkgs.rows().len() > 0,
                ..self.pkgs
            },
        )
    }

    pub open spec fn uninstall_asked(self) -> app::AppV {
        let after = self.with_pkgs(self.pkgs.asking_uninstall());
        if self.pkgs.refuses_uninstall() {
            after.says("uninstall only works for system packages"@)
        } else {
            after
        }
    }

    pub open spec fn uninstall_confirmed(self) -> app::AppV {
        app::AppV {
            pkgs: self.pkgs.uninstall_confirmed(),
            out: self.pkgs.uninstall_asked(self.out),
            ..self
        }
    }

    pub open spec fn trash_confirmed(self) -> app::AppV {
        app::AppV {
            reclaim: self.reclaim.trash_confirmed(),
            out: self.reclaim.trash_requested(self.out),
            ..self
        }
    }

    pub open spec fn trash_cancelled(self) -> app::AppV {
        self.with_reclaim(
            reclaimpane::ReclaimV { confirming_empty_trash: false, ..self.reclaim },
        )
    }

    /// Scans for the largest files in the selected directory, or in the one at
    /// hand.
    pub open spec fn top_files_asked(self) -> app::AppV {
        let root = match self.files.current() {
            Some(e) => if e.is_dir {
                e.path
            } else {
                self.files.cwd
            },
            None => self.files.cwd,
        };
        app::AppV { top: self.top.asking(root), out: self.top.asked(self.out, root), ..self }
    }

    pub open spec fn packages_refreshed(self) -> app::AppV {
        app::AppV {
            pkgs: self.pkgs.scanning(),
            out: self.pkgs.scan_asked(self.out, self.files.cwd, true),
            ..self
        }
    }

    /// The packages pane has the focus, and is filled where it is not.
    pub open spec fn packages_opened(self) -> app::AppV {
        let after = self.focused(keymap::Focus::Packages);
        if after.pkgs.covers(after.files.cwd) {
            after
        } else {
            app::AppV {
                pkgs: after.pkgs.scanning(),
                out: after.pkgs.scan_asked(after.out, after.files.cwd, !after.pkgs.loaded),
                ..after
            }
        }
    }

    pub open spec fn leaf_filter_toggled(self) -> app::AppV {
        self.with_pkgs(self.pkgs.unfiltered()).says(
            if self.pkgs.show_unused {
                "showing all packages"@
            } else {
                "showing dependency leaves only"@
            },
        )
    }

    pub open spec fn disk_info_asked(self) -> app::AppV {
        app::AppV { disks: self.disks.asking(), out: self.disks.asked(self.out), ..self }
    }

    pub open spec fn top_file_at_start(self) -> app::AppV {
        self.with_top(self.top.selecting(0))
    }

    pub open spec fn top_file_at_end(self) -> app::AppV {
        let count = self.top.files().len();
        self.with_top(self.top.selecting(outbox::clamped(count, count)))
    }

    pub open spec fn reclaim_path_at_start(self) -> app::AppV {
        self.with_reclaim(self.reclaim.selecting_path(0))
    }

    pub open spec fn reclaim_path_at_end(self) -> app::AppV {
        let count = self.reclaim.path_list().len();
        self.with_reclaim(self.reclaim.selecting_path(outbox::clamped(count, count)))
    }

    pub open spec fn disk_info_closed(self) -> app::AppV {
        app::AppV { disks: self.disks.closed(), ..self }
    }

    pub open spec fn search_kept(self) -> app::AppV {
        self.with_files(browser::BrowserV { search_mode: false, ..self.files })
    }

    pub open spec fn search_typed(self, ch: char) -> app::AppV {
        self.with_files(self.files.with_query(self.files.search_query.push(ch)))
    }

    pub open spec fn search_erased(self) -> app::AppV {
        self.with_files(self.files.with_query(query_erased(self.files.search_query)))
    }

    pub open spec fn pkg_search_entered(self) -> app::AppV {
        self.with_pkgs(
            pkgpane::PaneV {
                search_mode: true,
                search_query: Seq::empty(),
                search_matches: Seq::empty(),
                ..self.pkgs
            },
        )
    }

    pub open spec fn pkg_search_kept(self) -> app::AppV {
        self.with_pkgs(pkgpane::PaneV { search_mode: false, ..self.pkgs })
    }

    pub open spec fn pkg_search_typed(self, ch: char) -> app::AppV {
        self.with_pkgs(self.pkgs.with_query(self.pkgs.search_query.push(ch)))
    }

    pub open spec fn pkg_search_erased(self) -> app::AppV {
        self.with_pkgs(self.pkgs.with_query(query_erased(self.pkgs.search_query)))
    }

    pub open spec fn files_focused(self) -> app::AppV {
        app::AppV { focus: keymap::Focus::Files, ..self }
    }

    /// What a command an answer to a question, or about the help does.
    #[verifier::opaque]
    pub open spec fn question_done(self, command: keys::Command) -> app::AppV {
        match command {
            keys::Command::OpenHelp => self.help_shown(true),
            keys::Command::CloseHelp => self.help_shown(false),
            keys::Command::ConfirmDelete => self.delete_confirmed(),
            keys::Command::CancelDelete => self.delete_cancelled(),
            keys::Command::ConfirmUninstall => self.uninstall_confirmed(),
            keys::Command::CancelUninstall => self.with_pkgs(self.pkgs.uninstall_cancelled()),
            keys::Command::ConfirmEmptyTrash => self.trash_confirmed(),
            keys::Command::CancelEmptyTrash => self.trash_cancelled(),
            _ => self,
        }
    }

    /// What a command about the details of a package, a disk or a file does.
    #[verifier::opaque]
    pub open spec fn detail_done(self, command: keys::Command) -> app::AppV {
        match command {
            keys::Command::ClosePkgDetail => self.detail_closed(),
            keys::Command::UninstallFromDetail => self.detail_closed().uninstall_asked(),
            keys::Command::DeleteFromDetail => self.detail_closed().delete_asked(),
            keys::Command::CloseDiskInfo => self.disk_info_closed(),
            keys::Command::CloseFileInfo => self.file_info_shown(false),
            keys::Command::LaunchFromFileInfo(action) => self.file_info_shown(false).launching(
                action,
            ),
            keys::Command::DeleteFromFileInfo => self.file_info_shown(false).delete_asked(),
            _ => self,
        }
    }

    /// What a command about the largest files does.
    #[verifier::opaque]
    pub open spec fn top_files_done(self, command: keys::Command) -> app::AppV {
        match command {
            keys::Command::CloseTopFiles => self.with_top(self.top.closed()),
            keys::Command::MoveTopFiles(way) => self.with_top(self.top.stepped(way.sign())),
            keys::Command::PageTopFiles(way) => self.with_top(self.top.paged(way.sign())),
            keys::Command::FirstTopFile => self.top_file_at_start(),
            keys::Command::LastTopFile => self.top_file_at_end(),
            keys::Command::LaunchTopFile(action) => self.launching_top_file(action),
            keys::Command::DeleteTopFile => self.asking_top_file(),
            _ => self,
        }
    }

    /// What a command about the paths of a finding does.
    #[verifier::opaque]
    pub open spec fn reclaim_paths_done(self, command: keys::Command) -> app::AppV {
        match command {
            keys::Command::CloseReclaimPaths => self.with_reclaim(self.reclaim.without_paths()),
            keys::Command::MoveReclaimPaths(way) => self.with_reclaim(
                self.reclaim.path_stepped(way.sign()),
            ),
            keys::Command::PageReclaimPaths(way) => self.with_reclaim(
                self.reclaim.path_paged(way.sign()),
            ),
            keys::Command::FirstReclaimPath => self.reclaim_path_at_start(),
            keys::Command::LastReclaimPath => self.reclaim_path_at_end(),
            keys::Command::LaunchReclaimPath(action) => self.launching_reclaim_path(action),
            keys::Command::DeleteReclaimPath => self.asking_reclaim_path(),
            _ => self,
        }
    }

    /// What a command about typed text does.
    #[verifier::opaque]
    pub open spec fn typing_done(self, command: keys::Command) -> app::AppV {
        match command {
            keys::Command::LeaveInput => self.input_left(),
            keys::Command::CommitInput => self.committed(),
            keys::Command::EraseInput => self.input_erased(),
            keys::Command::TypeInput(ch) => self.input_typed(ch),
            _ => self,
        }
    }

    /// What a command about a search does.
    #[verifier::opaque]
    pub open spec fn search_done(self, command: keys::Command) -> app::AppV {
        match command {
            keys::Command::ClearSearch => self.with_files(self.files.unsearched()),
            keys::Command::KeepSearch => self.search_kept(),
            keys::Command::EraseSearch => self.search_erased(),
            keys::Command::TypeSearch(ch) => self.search_typed(ch),
            keys::Command::ClearPkgSearch => self.with_pkgs(self.pkgs.unsearched()),
            keys::Command::KeepPkgSearch => self.pkg_search_kept(),
            keys::Command::ErasePkgSearch => self.pkg_search_erased(),
            keys::Command::TypePkgSearch(ch) => self.pkg_search_typed(ch),
            _ => self,
        }
    }

    /// What a command that moves the selection or the focus does.
    #[verifier::opaque]
    pub open spec fn movement_done(self, command: keys::Command) -> app::AppV {
        match command {
            keys::Command::FocusFiles => self.files_focused(),
            keys::Command::Move(way) => self.moved(way.sign()),
            keys::Command::Page(way) => self.paged(way.sign()),
            keys::Command::ToStart => self.at_start(),
            keys::Command::ToEnd => self.at_end(),
            keys::Command::Enter => self.entered(),
            keys::Command::GoUp => self.upwards(),
            keys::Command::FocusNext => self.focused(actions::focus_after(self.focus)),
            keys::Command::FocusPrevious => self.focused(actions::focus_before(self.focus)),
            _ => self,
        }
    }

    /// What a command about files does.
    #[verifier::opaque]
    pub open spec fn files_done(self, command: keys::Command, now: u64) -> app::AppV {
        match command {
            keys::Command::Refresh => self.refreshing(),
            keys::Command::ScanAll => self.scanning_all(),
            keys::Command::Delete => self.delete_asked(),
            keys::Command::Rename => self.asking_rename(),
            keys::Command::Mkdir => self.asking_mkdir(),
            keys::Command::ToggleMark => self.mark_toggled(),
            keys::Command::MarkAll => self.all_marked(),
            keys::Command::CycleSort => self.sort_cycled(now),
            keys::Command::Search => self.with_files(self.files.searching()),
            keys::Command::ToggleHidden => self.hidden_toggled(),
            keys::Command::SaveBaseline => self.saving_baseline(),
            _ => self,
        }
    }

    /// What a command about packages does.
    #[verifier::opaque]
    pub open spec fn packages_done(self, command: keys::Command) -> app::AppV {
        match command {
            keys::Command::OpenPkgDetail => self.detail_opened(),
            keys::Command::RefreshPackages => self.packages_refreshed(),
            keys::Command::OpenPackages => self.packages_opened(),
            keys::Command::SearchPackages => self.pkg_search_entered(),
            keys::Command::ToggleLeafFilter => self.leaf_filter_toggled(),
            keys::Command::Uninstall => self.uninstall_asked(),
            keys::Command::TogglePkgView => self.with_pkgs(self.pkgs.other_view()),
            _ => self,
        }
    }

    /// What a command about other programs, reports and details does.
    #[verifier::opaque]
    pub open spec fn outside_done(self, command: keys::Command) -> app::AppV {
        match command {
            keys::Command::OpenReclaimPaths => self.with_finding_paths(),
            keys::Command::Launch(action) => self.launching(action),
            keys::Command::CopyPath => self.copying_path(),
            keys::Command::OpenShell => self.opening_terminal(),
            keys::Command::ScanReclaim => self.reclaiming(),
            keys::Command::EmptyTrash => self.asking_empty_trash(),
            keys::Command::OpenTopFiles => self.top_files_asked(),
            keys::Command::OpenFileInfo => self.file_info_asked(),
            keys::Command::OpenDiskInfo => self.disk_info_asked(),
            _ => self,
        }
    }

    /// What a command does.
    pub open spec fn performed(self, command: keys::Command, now: u64) -> app::AppV {
        self.question_done(command)
            .detail_done(command)
            .top_files_done(command)
            .reclaim_paths_done(command)
            .typing_done(command)
            .search_done(command)
            .movement_done(command)
            .files_done(command, now)
            .packages_done(command)
            .outside_done(command)
    }
}

impl app::App {
    pub fn open_help(&mut self)
        ensures
            final(self)@ == old(self)@.help_shown(true),
    {
        self.show_help = true;
    }

    pub fn close_help(&mut self)
        ensures
            final(self)@ == old(self)@.help_shown(false),
    {
        self.show_help = false;
    }

    pub fn open_file_info(&mut self)
        ensures
            final(self)@ == old(self)@.file_info_asked(),
    {
        if self.files.visible_entry(self.files.selected).is_some() {
            self.file_info_open = true;
        }
    }

    pub fn close_file_info(&mut self)
        ensures
            final(self)@ == old(self)@.file_info_shown(false),
    {
        self.file_info_open = false;
    }

    pub fn request_uninstall(&mut self)
        ensures
            final(self)@ == old(self)@.uninstall_asked(),
    {
        self.pkgs.request_uninstall(&mut self.out);
    }

    /// Scans for the largest files in the selected directory, or in the one at
    /// hand.
    pub fn open_top_files(&mut self)
        ensures
            final(self)@ == old(self)@.top_files_asked(),
    {
        let root = match self.files.visible_entry(self.files.selected) {
            Some(e) => if e.is_dir {
                e.path.clone()
            } else {
                self.files.cwd.clone()
            },
            None => self.files.cwd.clone(),
        };
        self.top.open_top_files_for_path(root.as_str(), &mut self.out);
    }

    pub fn open_packages(&mut self)
        ensures
            final(self)@ == old(self)@.packages_opened(),
    {
        self.set_focus(keymap::Focus::Packages);
        self.pkgs.load_packages(self.files.cwd.as_str(), &mut self.out);
    }

    pub fn confirm_uninstall(&mut self)
        ensures
            final(self)@ == old(self)@.uninstall_confirmed(),
    {
        self.pkgs.confirm_uninstall(&mut self.out);
    }

    pub fn cancel_uninstall(&mut self)
        ensures
            final(self)@ == old(self)@.with_pkgs(old(self)@.pkgs.uninstall_cancelled()),
    {
        self.pkgs.cancel_uninstall();
    }

    pub fn confirm_empty_trash(&mut self)
        ensures
            final(self)@ == old(self)@.trash_confirmed(),
    {
        self.reclaim.confirm_empty_trash(&mut self.out);
    }

    pub fn cancel_empty_trash(&mut self)
        ensures
            final(self)@ == old(self)@.trash_cancelled(),
    {
        self.reclaim.cancel_empty_trash();
    }

    pub fn open_pkg_detail(&mut self)
        ensures
            final(self)@ == old(self)@.detail_opened(),
    {
        self.pkgs.open_pkg_detail();
    }

    pub fn close_pkg_detail(&mut self)
        ensures
            final(self)@ == old(self)@.detail_closed(),
    {
        self.pkgs.close_pkg_detail();
    }

    pub fn close_top_files(&mut self)
        ensures
            final(self)@ == old(self)@.with_top(old(self)@.top.closed()),
    {
        self.top.close_top_files();
    }

    pub fn move_top_files(&mut self, delta: i32)
        ensures
            final(self)@ == old(self)@.with_top(old(self)@.top.stepped(delta as int)),
    {
        self.top.move_top_files(delta);
    }

    pub fn page_top_files(&mut self, pages: i32)
        ensures
            final(self)@ == old(self)@.with_top(old(self)@.top.paged(pages as int)),
    {
        self.top.page_top_files(pages);
    }

    pub fn move_top_files_to_start(&mut self)
        ensures
            final(self)@ == old(self)@.top_file_at_start(),
    {
        self.top.set_top_files_selected(0);
    }

    pub fn move_top_files_to_end(&mut self)
        ensures
            final(self)@ == old(self)@.top_file_at_end(),
    {
        let count: usize = self.top.top_files_count();
        self.top.set_top_files_selected(count);
    }

    pub fn close_reclaim_paths(&mut self)
        ensures
            final(self)@ == old(self)@.with_reclaim(old(self)@.reclaim.without_paths()),
    {
        self.reclaim.close_reclaim_paths();
    }

    pub fn move_reclaim_paths(&mut self, delta: i32)
        ensures
            final(self)@ == old(self)@.with_reclaim(old(self)@.reclaim.path_stepped(delta as int)),
    {
        self.reclaim.move_reclaim_paths(delta);
    }

    pub fn page_reclaim_paths(&mut self, pages: i32)
        ensures
            final(self)@ == old(self)@.with_reclaim(old(self)@.reclaim.path_paged(pages as int)),
    {
        self.reclaim.page_reclaim_paths(pages);
    }

    pub fn move_reclaim_paths_to_start(&mut self)
        ensures
            final(self)@ == old(self)@.reclaim_path_at_start(),
    {
        self.reclaim.set_reclaim_paths_selected(0);
    }

    pub fn move_reclaim_paths_to_end(&mut self)
        ensures
            final(self)@ == old(self)@.reclaim_path_at_end(),
    {
        let count: usize = self.reclaim.reclaim_paths_count();
        self.reclaim.set_reclaim_paths_selected(count);
    }

    pub fn close_disk_info(&mut self)
        ensures
            final(self)@ == old(self)@.disk_info_closed(),
    {
        self.disks.close_disk_info();
    }

    pub fn request_disk_info_for_selected_disk(&mut self)
        ensures
            final(self)@ == old(self)@.disk_info_asked(),
    {
        self.disks.request_disk_info_for_selected_disk(&mut self.out);
    }

    pub fn enter_search(&mut self)
        ensures
            final(self)@ == old(self)@.with_files(old(self)@.files.searching()),
    {
        self.files.enter_search();
    }

    pub fn exit_search(&mut self)
        ensures
            final(self)@ == old(self)@.with_files(old(self)@.files.unsearched()),
    {
        self.files.exit_search();
    }

    pub fn keep_search(&mut self)
        ensures
            final(self)@ == old(self)@.search_kept(),
    {
        self.files.keep_search();
    }

    pub fn search_push(&mut self, ch: char)
        ensures
            final(self)@ == old(self)@.search_typed(ch),
    {
        self.files.search_push(ch);
    }

    pub fn search_pop(&mut self)
        ensures
            final(self)@ == old(self)@.search_erased(),
    {
        self.files.search_pop();
    }

    pub fn enter_pkg_search(&mut self)
        ensures
            final(self)@ == old(self)@.pkg_search_entered(),
    {
        self.pkgs.enter_pkg_search();
    }

    pub fn exit_pkg_search(&mut self)
        ensures
            final(self)@ == old(self)@.with_pkgs(old(self)@.pkgs.unsearched()),
    {
        self.pkgs.exit_pkg_search();
    }

    pub fn keep_pkg_search(&mut self)
        ensures
            final(self)@ == old(self)@.pkg_search_kept(),
    {
        self.pkgs.keep_pkg_search();
    }

    pub fn pkg_search_push(&mut self, ch: char)
        ensures
            final(self)@ == old(self)@.pkg_search_typed(ch),
    {
        self.pkgs.pkg_search_push(ch);
    }

    pub fn pkg_search_pop(&mut self)
        ensures
            final(self)@ == old(self)@.pkg_search_erased(),
    {
        self.pkgs.pkg_search_pop();
    }

    pub fn refresh_packages(&mut self)
        ensures
            final(self)@ == old(self)@.packages_refreshed(),
    {
        self.pkgs.refresh_packages(self.files.cwd.as_str(), &mut self.out);
    }

    pub fn toggle_unused_filter(&mut self)
        ensures
            final(self)@ == old(self)@.leaf_filter_toggled(),
    {
        self.pkgs.toggle_unused_filter(&mut self.out);
    }

    pub fn toggle_pkg_view(&mut self)
        ensures
            final(self)@ == old(self)@.with_pkgs(old(self)@.pkgs.other_view()),
    {
        self.pkgs.toggle_pkg_view();
    }

    pub fn focus_files(&mut self)
        ensures
            final(self)@ == old(self)@.files_focused(),
    {
        self.focus = keymap::Focus::Files;
    }

    fn perform_question(&mut self, command: keys::Command)
        ensures
            same_screen(final(self)@, old(self)@.question_done(command)),
    {
        reveal(app::AppV::question_done);
        match command {
            keys::Command::OpenHelp => self.open_help(),
            keys::Command::CloseHelp => self.close_help(),
            keys::Command::ConfirmDelete => self.confirm_delete(),
            keys::Command::CancelDelete => self.cancel_delete(),
            keys::Command::ConfirmUninstall => self.confirm_uninstall(),
            keys::Command::CancelUninstall => self.cancel_uninstall(),
            keys::Command::ConfirmEmptyTrash => self.confirm_empty_trash(),
            keys::Command::CancelEmptyTrash => self.cancel_empty_trash(),
            _ => {},
        }
    }

    fn perform_detail(&mut self, command: keys::Command)
        ensures
            same_screen(final(self)@, old(self)@.detail_done(command)),
    {
        reveal(app::AppV::detail_done);
        match command {
            keys::Command::ClosePkgDetail => self.close_pkg_detail(),
            keys::Command::UninstallFromDetail => {
                self.close_pkg_detail();
                self.request_uninstall();
            },
            keys::Command::DeleteFromDetail => {
                self.close_pkg_detail();
                self.request_delete();
            },
            keys::Command::CloseDiskInfo => self.close_disk_info(),
            keys::Command::CloseFileInfo => self.close_file_info(),
            keys::Command::LaunchFromFileInfo(action) => {
                self.close_file_info();
                self.launch_external_action(action);
            },
            keys::Command::DeleteFromFileInfo => {
                self.close_file_info();
                self.request_delete();
            },
            _ => {},
        }
    }

    fn perform_top_files(&mut self, command: keys::Command)
        ensures
            same_screen(final(self)@, old(self)@.top_files_done(command)),
    {
        reveal(app::AppV::top_files_done);
        match command {
            keys::Command::CloseTopFiles => self.close_top_files(),
            keys::Command::MoveTopFiles(way) => self.move_top_files(way.step()),
            keys::Command::PageTopFiles(way) => self.page_top_files(way.step()),
            keys::Command::FirstTopFile => self.move_top_files_to_start(),
            keys::Command::LastTopFile => self.move_top_files_to_end(),
            keys::Command::LaunchTopFile(action) => self.launch_top_file(action),
            keys::Command::DeleteTopFile => self.request_delete_top_file(),
            _ => {},
        }
    }

    fn perform_reclaim_paths(&mut self, command: keys::Command)
        ensures
            same_screen(final(self)@, old(self)@.reclaim_paths_done(command)),
    {
        reveal(app::AppV::reclaim_paths_done);
        match command {
            keys::Command::CloseReclaimPaths => self.close_reclaim_paths(),
            keys::Command::MoveReclaimPaths(way) => self.move_reclaim_paths(way.step()),
            keys::Command::PageReclaimPaths(way) => self.page_reclaim_paths(way.step()),
            keys::Command::FirstReclaimPath => self.move_reclaim_paths_to_start(),
            keys::Command::LastReclaimPath => self.move_reclaim_paths_to_end(),
            keys::Command::LaunchReclaimPath(action) => self.launch_reclaim_path(action),
            keys::Command::DeleteReclaimPath => self.request_delete_reclaim_path(),
            _ => {},
        }
    }

    fn perform_typing(&mut self, command: keys::Command)
        ensures
            same_screen(final(self)@, old(self)@.typing_done(command)),
    {
        reveal(app::AppV::typing_done);
        match command {
            keys::Command::LeaveInput => self.exit_input_mode(),
            keys::Command::CommitInput => self.input_commit(),
            keys::Command::EraseInput => self.input_pop(),
            keys::Command::TypeInput(ch) => self.input_push(ch),
            _ => {},
        }
    }

    fn perform_search(&mut self, command: keys::Command)
        ensures
            same_screen(final(self)@, old(self)@.search_done(command)),
    {
        reveal(app::AppV::search_done);
        match command {
            keys::Command::ClearSearch => self.exit_search(),
            keys::Command::KeepSearch => self.keep_search(),
            keys::Command::EraseSearch => self.search_pop(),
            keys::Command::TypeSearch(ch) => self.search_push(ch),
            keys::Command::ClearPkgSearch => self.exit_pkg_search(),
            keys::Command::KeepPkgSearch => self.keep_pkg_search(),
            keys::Command::ErasePkgSearch => self.pkg_search_pop(),
            keys::Command::TypePkgSearch(ch) => self.pkg_search_push(ch),
            _ => {},
        }
    }

    fn perform_movement(&mut self, command: keys::Command)
        ensures
            same_screen(final(self)@, old(self)@.movement_done(command)),
    {
        reveal(app::AppV::movement_done);
        match command {
            keys::Command::FocusFiles => self.focus_files(),
            keys::Command::Move(way) => self.move_cursor(way.step()),
            keys::Command::Page(way) => self.page_move(way.step()),
            keys::Command::ToStart => self.move_to_start(),
            keys::Command::ToEnd => self.move_to_end(),
            keys::Command::Enter => self.enter(),
            keys::Command::GoUp => self.go_up(),
            keys::Command::FocusNext => self.focus_next(),
            keys::Command::FocusPrevious => self.focus_previous(),
            _ => {},
        }
    }

    fn perform_files(&mut self, command: keys::Command, now: u64)
        ensures
            same_screen(final(self)@, old(self)@.files_done(command, now)),
    {
        reveal(app::AppV::files_done);
        match command {
            keys::Command::Refresh => self.force_rescan(),
            keys::Command::ScanAll => self.scan_all_missing_visible(),
            keys::Command::Delete => self.request_delete(),
            keys::Command::Rename => self.request_rename(),
            keys::Command::Mkdir => self.request_mkdir(),
            keys::Command::ToggleMark => self.toggle_mark(),
            keys::Command::MarkAll => self.mark_all_visible(),
            keys::Command::CycleSort => self.cycle_sort(now),
            keys::Command::Search => self.enter_search(),
            keys::Command::ToggleHidden => self.toggle_hidden(),
            keys::Command::SaveBaseline => self.save_history_baseline(),
            _ => {},
        }
    }

    fn perform_packages(&mut self, command: keys::Command)
        ensures
            same_screen(final(self)@, old(self)@.packages_done(command)),
    {
        reveal(app::AppV::packages_done);
        match command {
            keys::Command::OpenPkgDetail => self.open_pkg_detail(),
            keys::Command::RefreshPackages => self.refresh_packages(),
            keys::Command::OpenPackages => self.open_packages(),
            keys::Command::SearchPackages => self.enter_pkg_search(),
            keys::Command::ToggleLeafFilter => self.toggle_unused_filter(),
            keys::Command::Uninstall => self.request_uninstall(),
            keys::Command::TogglePkgView => self.toggle_pkg_view(),
            _ => {},
        }
    }

    fn perform_outside(&mut self, command: keys::Command)
        ensures
            same_screen(final(self)@, old(self)@.outside_done(command)),
    {
        reveal(app::AppV::outside_done);
        match command {
            keys::Command::OpenReclaimPaths => self.open_selected_reclaim_paths(),
            keys::Command::Launch(action) => self.launch_external_action(action),
            keys::Command::CopyPath => self.copy_path_to_clipboard(),
            keys::Command::OpenShell => self.open_shell(),
            keys::Command::ScanReclaim => self.request_reclaim_scan(),
            keys::Command::EmptyTrash => self.request_empty_trash(),
            keys::Command::OpenTopFiles => self.open_top_files(),
            keys::Command::OpenFileInfo => self.open_file_info(),
            keys::Command::OpenDiskInfo => self.request_disk_info_for_selected_disk(),
            _ => {},
        }
    }

    /// Does what a command asks for.
    pub fn perform(&mut self, command: keys::Command, now: u64) -> (step: Step)
        ensures
            final(self)@ == old(self)@.performed(command, now),
            step == step_of(command),
    {
        self.perform_question(command);
        self.perform_detail(command);
        self.perform_top_files(command);
        self.perform_reclaim_paths(command);
        self.perform_typing(command);
        self.perform_search(command);
        self.perform_movement(command);
        self.perform_files(command, now);
        self.perform_packages(command);
        self.perform_outside(command);
        match command {
            keys::Command::Ignore => Step::Nothing,
            keys::Command::Quit => Step::Quit,
            _ => Step::Redraw,
        }
    }

    /// Does what a key asks for.
    pub fn press(&mut self, key: keys::Key, modifiers: keys::Modifiers, now: u64) -> (step: Step)
        ensures
            final(self)@ == old(self)@.performed(old(self)@.command(key, modifiers), now),
            step == step_of(old(self)@.command(key, modifiers)),
    {
        let command = self.command_for(key, modifiers);
        self.perform(command, now)
    }
}

// ---------------------------------------------------------------------------
// Laws
// ---------------------------------------------------------------------------

/// Something is thrown away or taken out.
pub open spec fn destroys(request: outbox::RequestV) -> bool {
    request is Trash || request is TrashAll || request is EmptyTrash || request is Uninstall
}

/// What was asked for still is, and what is asked for in addition destroys
/// nothing.
pub open spec fn adds_no_harm(before: outbox::OutboxV, after: outbox::OutboxV) -> bool {
    &&& before.requests.len() <= after.requests.len()
    &&& forall|i: int|
        0 <= i < before.requests.len() ==> #[trigger] after.requests[i] == before.requests[i]
    &&& forall|i: int|
        before.requests.len() <= i < after.requests.len() ==> !destroys(
            #[trigger] after.requests[i],
        )
}

/// The command is a yes to a question.
pub open spec fn is_consent(command: keys::Command) -> bool {
    command == keys::Command::ConfirmDelete || command == keys::Command::ConfirmUninstall
        || command == keys::Command::ConfirmEmptyTrash
}

#[verifier::spinoff_prover]
#[verifier::rlimit(50)]
proof fn question_does_no_harm(v: app::AppV, command: keys::Command)
    requires
        !is_consent(command),
    ensures
        adds_no_harm(v.out, v.question_done(command).out),
{
    reveal(app::AppV::question_done);
}

#[verifier::spinoff_prover]
#[verifier::rlimit(50)]
proof fn detail_does_no_harm(v: app::AppV, command: keys::Command)
    ensures
        adds_no_harm(v.out, v.detail_done(command).out),
{
    reveal(app::AppV::detail_done);
}

#[verifier::spinoff_prover]
#[verifier::rlimit(50)]
proof fn top_files_does_no_harm(v: app::AppV, command: keys::Command)
    ensures
        adds_no_harm(v.out, v.top_files_done(command).out),
{
    reveal(app::AppV::top_files_done);
}

#[verifier::spinoff_prover]
#[verifier::rlimit(50)]
proof fn reclaim_paths_does_no_harm(v: app::AppV, command: keys::Command)
    ensures
        adds_no_harm(v.out, v.reclaim_paths_done(command).out),
{
    reveal(app::AppV::reclaim_paths_done);
}

#[verifier::spinoff_prover]
#[verifier::rlimit(50)]
proof fn typing_does_no_harm(v: app::AppV, command: keys::Command)
    ensures
        adds_no_harm(v.out, v.typing_done(command).out),
{
    reveal(app::AppV::typing_done);
}

#[verifier::spinoff_prover]
#[verifier::rlimit(50)]
proof fn search_does_no_harm(v: app::AppV, command: keys::Command)
    ensures
        adds_no_harm(v.out, v.search_done(command).out),
{
    reveal(app::AppV::search_done);
}

#[verifier::spinoff_prover]
#[verifier::rlimit(50)]
proof fn movement_does_no_harm(v: app::AppV, command: keys::Command)
    ensures
        adds_no_harm(v.out, v.movement_done(command).out),
{
    reveal(app::AppV::movement_done);
}

#[verifier::spinoff_prover]
#[verifier::rlimit(50)]
proof fn files_does_no_harm(v: app::AppV, command: keys::Command, now: u64)
    ensures
        adds_no_harm(v.out, v.files_done(command, now).out),
{
    reveal(app::AppV::files_done);
}

#[verifier::spinoff_prover]
#[verifier::rlimit(50)]
proof fn packages_does_no_harm(v: app::AppV, command: keys::Command)
    ensures
        adds_no_harm(v.out, v.packages_done(command).out),
{
    reveal(app::AppV::packages_done);
}

#[verifier::spinoff_prover]
#[verifier::rlimit(50)]
proof fn outside_does_no_harm(v: app::AppV, command: keys::Command)
    ensures
        adds_no_harm(v.out, v.outside_done(command).out),
{
    reveal(app::AppV::outside_done);
}

/// No key throws anything away or takes a package out, but for a `y` to an open
/// question.
#[verifier::spinoff_prover]
#[verifier::rlimit(50)]
pub proof fn nothing_is_destroyed_unasked(
    v: app::AppV,
    key: keys::Key,
    modifiers: keys::Modifiers,
    now: u64,
)
    requires
        key != keys::Key::Char('y') || !(v.confirming_delete || v.pkgs.confirming_uninstall
            || v.reclaim.confirming_empty_trash),
    ensures
        adds_no_harm(v.out, v.performed(v.command(key, modifiers), now).out),
{
    let command = v.command(key, modifiers);
    assert(!is_consent(command));
    question_does_no_harm(v, command);
    let v1 = v.question_done(command);
    detail_does_no_harm(v1, command);
    let v2 = v1.detail_done(command);
    top_files_does_no_harm(v2, command);
    let v3 = v2.top_files_done(command);
    reclaim_paths_does_no_harm(v3, command);
    let v4 = v3.reclaim_paths_done(command);
    typing_does_no_harm(v4, command);
    let v5 = v4.typing_done(command);
    search_does_no_harm(v5, command);
    let v6 = v5.search_done(command);
    movement_does_no_harm(v6, command);
    let v7 = v6.movement_done(command);
    files_does_no_harm(v7, command, now);
    let v8 = v7.files_done(command, now);
    packages_does_no_harm(v8, command);
    let v9 = v8.packages_done(command);
    outside_does_no_harm(v9, command);
}

} // verus!
