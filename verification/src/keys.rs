//! From keys to commands, and from commands to what is shown.

use crate::app;
use crate::keymap;
use crate::outbox;
use crate::pkgpane;
use vstd::prelude::*;

verus! {

/// A key.
#[derive(Clone, Copy, Debug, PartialEq, Eq, Structural)]
pub enum Key {
    Char(char),
    Esc,
    Enter,
    Backspace,
    Up,
    Down,
    Left,
    Right,
    PageUp,
    PageDown,
    Home,
    End,
    Tab,
    BackTab,
    Other,
}

/// The modifiers that are held with a key. Shift is none of them: it is how
/// upper-case letters and symbols arrive.
#[derive(Clone, Copy, Debug, PartialEq, Eq, Structural)]
pub struct Modifiers {
    pub control: bool,
    pub alt: bool,
    pub command: bool,
}

/// A direction in a list.
#[derive(Clone, Copy, Debug, PartialEq, Eq, Structural)]
pub enum Way {
    Back,
    Forward,
}

impl Way {
    pub open spec fn sign(self) -> int {
        match self {
            Way::Back => -1,
            Way::Forward => 1,
        }
    }

    pub fn step(self) -> (r: i32)
        ensures
            r == self.sign(),
    {
        match self {
            Way::Back => -1,
            Way::Forward => 1,
        }
    }
}

/// What a key asks for.
#[derive(Clone, Copy, Debug, PartialEq, Eq, Structural)]
pub enum Command {
    Ignore,
    Quit,
    OpenHelp,
    CloseHelp,
    ConfirmDelete,
    CancelDelete,
    ConfirmUninstall,
    CancelUninstall,
    ConfirmEmptyTrash,
    CancelEmptyTrash,
    ClosePkgDetail,
    UninstallFromDetail,
    DeleteFromDetail,
    CloseTopFiles,
    MoveTopFiles(Way),
    PageTopFiles(Way),
    FirstTopFile,
    LastTopFile,
    LaunchTopFile(outbox::ExternalAction),
    DeleteTopFile,
    CloseReclaimPaths,
    MoveReclaimPaths(Way),
    PageReclaimPaths(Way),
    FirstReclaimPath,
    LastReclaimPath,
    LaunchReclaimPath(outbox::ExternalAction),
    DeleteReclaimPath,
    CloseDiskInfo,
    CloseFileInfo,
    LaunchFromFileInfo(outbox::ExternalAction),
    DeleteFromFileInfo,
    LeaveInput,
    CommitInput,
    EraseInput,
    TypeInput(char),
    ClearSearch,
    KeepSearch,
    EraseSearch,
    TypeSearch(char),
    ClearPkgSearch,
    KeepPkgSearch,
    ErasePkgSearch,
    TypePkgSearch(char),
    FocusFiles,
    Move(Way),
    Page(Way),
    ToStart,
    ToEnd,
    OpenPkgDetail,
    OpenReclaimPaths,
    Enter,
    GoUp,
    Launch(outbox::ExternalAction),
    CopyPath,
    OpenShell,
    RefreshPackages,
    ScanReclaim,
    Refresh,
    ScanAll,
    Delete,
    Rename,
    Mkdir,
    ToggleMark,
    MarkAll,
    EmptyTrash,
    CycleSort,
    OpenTopFiles,
    OpenPackages,
    Search,
    SearchPackages,
    OpenFileInfo,
    OpenDiskInfo,
    SaveBaseline,
    ToggleLeafFilter,
    Uninstall,
    TogglePkgView,
    FocusNext,
    FocusPrevious,
    ToggleHidden,
}

/// A character with one of the modifiers is none of the plain keys.
pub open spec fn is_inhibited(key: Key, modifiers: Modifiers) -> bool {
    key is Char && (modifiers.control || modifiers.alt || modifiers.command)
}

pub fn char_modifier_inhibited(key: Key, modifiers: Modifiers) -> (r: bool)
    ensures
        r == is_inhibited(key, modifiers),
{
    match key {
        Key::Char(_) => modifiers.control || modifiers.alt || modifiers.command,
        _ => false,
    }
}

/// A question is answered by `y`, or by `n` and Esc.
pub open spec fn answer(key: Key, yes: Command, no: Command) -> Command {
    match key {
        Key::Char('y') => yes,
        Key::Char('n') => no,
        Key::Esc => no,
        _ => Command::Ignore,
    }
}

fn answer_of(key: Key, yes: Command, no: Command) -> (r: Command)
    ensures
        r == answer(key, yes, no),
{
    match key {
        Key::Char('y') => yes,
        Key::Char('n') => no,
        Key::Esc => no,
        _ => Command::Ignore,
    }
}

pub open spec fn detail_command(key: Key) -> Command {
    match key {
        Key::Esc => Command::ClosePkgDetail,
        Key::Char('i') => Command::ClosePkgDetail,
        Key::Char('q') => Command::ClosePkgDetail,
        Key::Char('x') => Command::UninstallFromDetail,
        Key::Char('d') => Command::DeleteFromDetail,
        _ => Command::Ignore,
    }
}

fn detail_command_of(key: Key) -> (r: Command)
    ensures
        r == detail_command(key),
{
    match key {
        Key::Esc => Command::ClosePkgDetail,
        Key::Char('i') => Command::ClosePkgDetail,
        Key::Char('q') => Command::ClosePkgDetail,
        Key::Char('x') => Command::UninstallFromDetail,
        Key::Char('d') => Command::DeleteFromDetail,
        _ => Command::Ignore,
    }
}

pub open spec fn top_files_command(key: Key) -> Command {
    match key {
        Key::Esc => Command::CloseTopFiles,
        Key::Down => Command::MoveTopFiles(Way::Forward),
        Key::Char('j') => Command::MoveTopFiles(Way::Forward),
        Key::Up => Command::MoveTopFiles(Way::Back),
        Key::Char('k') => Command::MoveTopFiles(Way::Back),
        Key::PageDown => Command::PageTopFiles(Way::Forward),
        Key::PageUp => Command::PageTopFiles(Way::Back),
        Key::Home => Command::FirstTopFile,
        Key::End => Command::LastTopFile,
        Key::Enter => Command::LaunchTopFile(outbox::ExternalAction::RevealInFinder),
        Key::Char('f') => Command::LaunchTopFile(outbox::ExternalAction::RevealInFinder),
        Key::Char('O') => Command::LaunchTopFile(outbox::ExternalAction::Open),
        Key::Char('d') => Command::DeleteTopFile,
        _ => Command::Ignore,
    }
}

fn top_files_command_of(key: Key) -> (r: Command)
    ensures
        r == top_files_command(key),
{
    match key {
        Key::Esc => Command::CloseTopFiles,
        Key::Down => Command::MoveTopFiles(Way::Forward),
        Key::Char('j') => Command::MoveTopFiles(Way::Forward),
        Key::Up => Command::MoveTopFiles(Way::Back),
        Key::Char('k') => Command::MoveTopFiles(Way::Back),
        Key::PageDown => Command::PageTopFiles(Way::Forward),
        Key::PageUp => Command::PageTopFiles(Way::Back),
        Key::Home => Command::FirstTopFile,
        Key::End => Command::LastTopFile,
        Key::Enter => Command::LaunchTopFile(outbox::ExternalAction::RevealInFinder),
        Key::Char('f') => Command::LaunchTopFile(outbox::ExternalAction::RevealInFinder),
        Key::Char('O') => Command::LaunchTopFile(outbox::ExternalAction::Open),
        Key::Char('d') => Command::DeleteTopFile,
        _ => Command::Ignore,
    }
}

pub open spec fn reclaim_paths_command(key: Key) -> Command {
    match key {
        Key::Esc => Command::CloseReclaimPaths,
        Key::Down => Command::MoveReclaimPaths(Way::Forward),
        Key::Char('j') => Command::MoveReclaimPaths(Way::Forward),
        Key::Up => Command::MoveReclaimPaths(Way::Back),
        Key::Char('k') => Command::MoveReclaimPaths(Way::Back),
        Key::PageDown => Command::PageReclaimPaths(Way::Forward),
        Key::PageUp => Command::PageReclaimPaths(Way::Back),
        Key::Home => Command::FirstReclaimPath,
        Key::End => Command::LastReclaimPath,
        Key::Enter => Command::LaunchReclaimPath(outbox::ExternalAction::RevealInFinder),
        Key::Char('f') => Command::LaunchReclaimPath(outbox::ExternalAction::RevealInFinder),
        Key::Char('O') => Command::LaunchReclaimPath(outbox::ExternalAction::Open),
        Key::Char('d') => Command::DeleteReclaimPath,
        _ => Command::Ignore,
    }
}

fn reclaim_paths_command_of(key: Key) -> (r: Command)
    ensures
        r == reclaim_paths_command(key),
{
    match key {
        Key::Esc => Command::CloseReclaimPaths,
        Key::Down => Command::MoveReclaimPaths(Way::Forward),
        Key::Char('j') => Command::MoveReclaimPaths(Way::Forward),
        Key::Up => Command::MoveReclaimPaths(Way::Back),
        Key::Char('k') => Command::MoveReclaimPaths(Way::Back),
        Key::PageDown => Command::PageReclaimPaths(Way::Forward),
        Key::PageUp => Command::PageReclaimPaths(Way::Back),
        Key::Home => Command::FirstReclaimPath,
        Key::End => Command::LastReclaimPath,
        Key::Enter => Command::LaunchReclaimPath(outbox::ExternalAction::RevealInFinder),
        Key::Char('f') => Command::LaunchReclaimPath(outbox::ExternalAction::RevealInFinder),
        Key::Char('O') => Command::LaunchReclaimPath(outbox::ExternalAction::Open),
        Key::Char('d') => Command::DeleteReclaimPath,
        _ => Command::Ignore,
    }
}

pub open spec fn file_info_command(key: Key) -> Command {
    match key {
        Key::Esc => Command::CloseFileInfo,
        Key::Char('i') => Command::CloseFileInfo,
        Key::Char('q') => Command::CloseFileInfo,
        Key::Char(' ') => Command::LaunchFromFileInfo(outbox::ExternalAction::QuickLook),
        Key::Char('f') => Command::LaunchFromFileInfo(outbox::ExternalAction::RevealInFinder),
        Key::Char('O') => Command::LaunchFromFileInfo(outbox::ExternalAction::Open),
        Key::Char('d') => Command::DeleteFromFileInfo,
        _ => Command::Ignore,
    }
}

fn file_info_command_of(key: Key) -> (r: Command)
    ensures
        r == file_info_command(key),
{
    match key {
        Key::Esc => Command::CloseFileInfo,
        Key::Char('i') => Command::CloseFileInfo,
        Key::Char('q') => Command::CloseFileInfo,
        Key::Char(' ') => Command::LaunchFromFileInfo(outbox::ExternalAction::QuickLook),
        Key::Char('f') => Command::LaunchFromFileInfo(outbox::ExternalAction::RevealInFinder),
        Key::Char('O') => Command::LaunchFromFileInfo(outbox::ExternalAction::Open),
        Key::Char('d') => Command::DeleteFromFileInfo,
        _ => Command::Ignore,
    }
}

pub open spec fn input_command(key: Key) -> Command {
    match key {
        Key::Esc => Command::LeaveInput,
        Key::Enter => Command::CommitInput,
        Key::Backspace => Command::EraseInput,
        Key::Char(ch) => Command::TypeInput(ch),
        _ => Command::Ignore,
    }
}

fn input_command_of(key: Key) -> (r: Command)
    ensures
        r == input_command(key),
{
    match key {
        Key::Esc => Command::LeaveInput,
        Key::Enter => Command::CommitInput,
        Key::Backspace => Command::EraseInput,
        Key::Char(ch) => Command::TypeInput(ch),
        _ => Command::Ignore,
    }
}

/// Keys while a search is typed: letters are part of it, and arrows move.
pub open spec fn search_command(key: Key) -> Command {
    match key {
        Key::Esc => Command::ClearSearch,
        Key::Enter => Command::KeepSearch,
        Key::Backspace => Command::EraseSearch,
        Key::Down => Command::Move(Way::Forward),
        Key::Up => Command::Move(Way::Back),
        Key::PageDown => Command::Page(Way::Forward),
        Key::PageUp => Command::Page(Way::Back),
        Key::Home => Command::ToStart,
        Key::End => Command::ToEnd,
        Key::Char(ch) => Command::TypeSearch(ch),
        _ => Command::Ignore,
    }
}

fn search_command_of(key: Key) -> (r: Command)
    ensures
        r == search_command(key),
{
    match key {
        Key::Esc => Command::ClearSearch,
        Key::Enter => Command::KeepSearch,
        Key::Backspace => Command::EraseSearch,
        Key::Down => Command::Move(Way::Forward),
        Key::Up => Command::Move(Way::Back),
        Key::PageDown => Command::Page(Way::Forward),
        Key::PageUp => Command::Page(Way::Back),
        Key::Home => Command::ToStart,
        Key::End => Command::ToEnd,
        Key::Char(ch) => Command::TypeSearch(ch),
        _ => Command::Ignore,
    }
}

/// Keys while a package filter is typed.
pub open spec fn pkg_search_command(key: Key) -> Command {
    match key {
        Key::Esc => Command::ClearPkgSearch,
        Key::Enter => Command::KeepPkgSearch,
        Key::Backspace => Command::ErasePkgSearch,
        Key::Down => Command::Move(Way::Forward),
        Key::Up => Command::Move(Way::Back),
        Key::PageDown => Command::Page(Way::Forward),
        Key::PageUp => Command::Page(Way::Back),
        Key::Home => Command::ToStart,
        Key::End => Command::ToEnd,
        Key::Char(ch) => Command::TypePkgSearch(ch),
        _ => Command::Ignore,
    }
}

pub fn handle_pkg_search_key(key: Key) -> (r: Command)
    ensures
        r == pkg_search_command(key),
{
    match key {
        Key::Esc => Command::ClearPkgSearch,
        Key::Enter => Command::KeepPkgSearch,
        Key::Backspace => Command::ErasePkgSearch,
        Key::Down => Command::Move(Way::Forward),
        Key::Up => Command::Move(Way::Back),
        Key::PageDown => Command::Page(Way::Forward),
        Key::PageUp => Command::Page(Way::Back),
        Key::Home => Command::ToStart,
        Key::End => Command::ToEnd,
        Key::Char(ch) => Command::TypePkgSearch(ch),
        _ => Command::Ignore,
    }
}

/// The command where a pane has the focus, and nothing otherwise.
pub open spec fn only_in(here: bool, command: Command) -> Command {
    if here {
        command
    } else {
        Command::Ignore
    }
}

impl app::AppV {
    /// What Esc and Ctrl+C leave: the innermost of what is open.
    pub open spec fn cancel_command(self) -> Command {
        if self.show_help {
            Command::CloseHelp
        } else if self.confirming_delete {
            Command::CancelDelete
        } else if self.pkgs.confirming_uninstall {
            Command::CancelUninstall
        } else if self.reclaim.confirming_empty_trash {
            Command::CancelEmptyTrash
        } else if self.pkgs.detail {
            Command::ClosePkgDetail
        } else if self.top.open {
            Command::CloseTopFiles
        } else if self.reclaim.paths_open {
            Command::CloseReclaimPaths
        } else if self.disks.info_open {
            Command::CloseDiskInfo
        } else if self.file_info_open {
            Command::CloseFileInfo
        } else if self.input.mode != app::InputMode::Off {
            Command::LeaveInput
        } else if self.files.search_mode {
            Command::ClearSearch
        } else if self.pkgs.search_mode {
            Command::ClearPkgSearch
        } else if self.files.is_searched() {
            Command::ClearSearch
        } else if self.pkgs.is_searched() {
            Command::ClearPkgSearch
        } else if self.focus != keymap::Focus::Files {
            Command::FocusFiles
        } else {
            Command::Ignore
        }
    }

    /// Keys of the panes.
    pub open spec fn base_command(self, key: Key) -> Command {
        let files = self.focus == keymap::Focus::Files;
        let packages = self.focus == keymap::Focus::Packages;
        let listed = packages && self.pkgs.loaded;
        let reclaim = self.focus == keymap::Focus::Reclaim;
        match key {
            Key::Esc => self.cancel_command(),
            Key::Down => Command::Move(Way::Forward),
            Key::Up => Command::Move(Way::Back),
            Key::PageDown => Command::Page(Way::Forward),
            Key::PageUp => Command::Page(Way::Back),
            Key::Home => Command::ToStart,
            Key::End => Command::ToEnd,
            Key::Enter => if listed {
                Command::OpenPkgDetail
            } else if reclaim {
                Command::OpenReclaimPaths
            } else {
                Command::Enter
            },
            Key::Backspace => Command::GoUp,
            Key::Left => self.left_command(),
            Key::Right => self.right_command(),
            Key::BackTab => Command::FocusPrevious,
            Key::Tab => Command::FocusNext,
            Key::Other => Command::Ignore,
            Key::Char(ch) => match ch {
                '?' => Command::OpenHelp,
                'q' => Command::Quit,
                'j' => Command::Move(Way::Forward),
                'k' => Command::Move(Way::Back),
                ' ' => Command::Launch(outbox::ExternalAction::QuickLook),
                'f' => Command::Launch(outbox::ExternalAction::RevealInFinder),
                'O' => Command::Launch(outbox::ExternalAction::Open),
                'y' => Command::CopyPath,
                's' => Command::OpenShell,
                'r' => if packages {
                    Command::RefreshPackages
                } else if reclaim {
                    Command::ScanReclaim
                } else {
                    Command::Refresh
                },
                'S' => Command::ScanAll,
                'd' => Command::Delete,
                'c' => only_in(files, Command::Rename),
                'n' => only_in(files, Command::Mkdir),
                'v' => only_in(files, Command::ToggleMark),
                'a' => only_in(files, Command::MarkAll),
                'E' => only_in(reclaim, Command::EmptyTrash),
                'R' => Command::ScanReclaim,
                'o' => Command::CycleSort,
                't' => only_in(files, Command::OpenTopFiles),
                'p' => if listed {
                    Command::TogglePkgView
                } else {
                    Command::OpenPackages
                },
                '/' => if files {
                    Command::Search
                } else {
                    only_in(listed, Command::SearchPackages)
                },
                'i' => if files {
                    Command::OpenFileInfo
                } else if self.focus == keymap::Focus::Disks {
                    Command::OpenDiskInfo
                } else {
                    only_in(listed, Command::OpenPkgDetail)
                },
                'B' => Command::SaveBaseline,
                'u' => only_in(listed, Command::ToggleLeafFilter),
                'x' => only_in(listed, Command::Uninstall),
                'h' => self.left_command(),
                'l' => self.right_command(),
                '.' => Command::ToggleHidden,
                _ => Command::Ignore,
            },
        }
    }

    pub open spec fn left_command(self) -> Command {
        if self.focus == keymap::Focus::Packages && self.pkgs.view
            == pkgpane::PkgView::ProjectDeps {
            Command::TogglePkgView
        } else {
            Command::FocusPrevious
        }
    }

    pub open spec fn right_command(self) -> Command {
        if self.focus == keymap::Focus::Packages && self.pkgs.view
            == pkgpane::PkgView::SystemManagers {
            Command::TogglePkgView
        } else {
            Command::FocusNext
        }
    }

    /// What a key asks for, by the innermost of what is open.
    pub open spec fn command(self, key: Key, modifiers: Modifiers) -> Command {
        if key == Key::Char('c') && modifiers.control {
            self.cancel_command()
        } else if is_inhibited(key, modifiers) {
            Command::Ignore
        } else if self.show_help {
            if key == Key::Esc || key == Key::Char('?') || key == Key::Char('q') {
                Command::CloseHelp
            } else {
                Command::Ignore
            }
        } else if self.confirming_delete {
            answer(key, Command::ConfirmDelete, Command::CancelDelete)
        } else if self.pkgs.confirming_uninstall {
            answer(key, Command::ConfirmUninstall, Command::CancelUninstall)
        } else if self.reclaim.confirming_empty_trash {
            answer(key, Command::ConfirmEmptyTrash, Command::CancelEmptyTrash)
        } else if self.pkgs.detail {
            detail_command(key)
        } else if self.top.open {
            top_files_command(key)
        } else if self.reclaim.paths_open {
            reclaim_paths_command(key)
        } else if self.disks.info_open {
            only_in(key == Key::Esc, Command::CloseDiskInfo)
        } else if self.file_info_open {
            file_info_command(key)
        } else if self.input.mode != app::InputMode::Off {
            input_command(key)
        } else if self.files.search_mode {
            search_command(key)
        } else if self.pkgs.search_mode {
            pkg_search_command(key)
        } else {
            self.base_command(key)
        }
    }
}

impl app::App {
    /// What Esc and Ctrl+C leave.
    pub fn cancel_active_state(&self) -> (r: Command)
        ensures
            r == self@.cancel_command(),
    {
        if self.show_help {
            Command::CloseHelp
        } else if self.confirming_delete {
            Command::CancelDelete
        } else if self.pkgs.confirming_uninstall {
            Command::CancelUninstall
        } else if self.reclaim.confirming_empty_trash {
            Command::CancelEmptyTrash
        } else if self.pkgs.detail {
            Command::ClosePkgDetail
        } else if self.top.open {
            Command::CloseTopFiles
        } else if self.reclaim.paths_open {
            Command::CloseReclaimPaths
        } else if self.disks.info_open {
            Command::CloseDiskInfo
        } else if self.file_info_open {
            Command::CloseFileInfo
        } else if self.input.mode != app::InputMode::Off {
            Command::LeaveInput
        } else if self.files.search_mode {
            Command::ClearSearch
        } else if self.pkgs.search_mode {
            Command::ClearPkgSearch
        } else if self.files.search_filter_active() {
            Command::ClearSearch
        } else if self.pkgs.pkg_filter_active() {
            Command::ClearPkgSearch
        } else if self.focus != keymap::Focus::Files {
            Command::FocusFiles
        } else {
            Command::Ignore
        }
    }

    fn left_command_of(&self) -> (r: Command)
        ensures
            r == self@.left_command(),
    {
        if self.focus == keymap::Focus::Packages && self.pkgs.view
            == pkgpane::PkgView::ProjectDeps {
            Command::TogglePkgView
        } else {
            Command::FocusPrevious
        }
    }

    fn right_command_of(&self) -> (r: Command)
        ensures
            r == self@.right_command(),
    {
        if self.focus == keymap::Focus::Packages && self.pkgs.view
            == pkgpane::PkgView::SystemManagers {
            Command::TogglePkgView
        } else {
            Command::FocusNext
        }
    }

    fn base_command_of(&self, key: Key) -> (r: Command)
        ensures
            r == self@.base_command(key),
    {
        let files = self.focus == keymap::Focus::Files;
        let packages = self.focus == keymap::Focus::Packages;
        let listed = packages && self.pkgs.loaded;
        let reclaim = self.focus == keymap::Focus::Reclaim;
        match key {
            Key::Esc => self.cancel_active_state(),
            Key::Down => Command::Move(Way::Forward),
            Key::Up => Command::Move(Way::Back),
            Key::PageDown => Command::Page(Way::Forward),
            Key::PageUp => Command::Page(Way::Back),
            Key::Home => Command::ToStart,
            Key::End => Command::ToEnd,
            Key::Enter => if listed {
                Command::OpenPkgDetail
            } else if reclaim {
                Command::OpenReclaimPaths
            } else {
                Command::Enter
            },
            Key::Backspace => Command::GoUp,
            Key::Left => self.left_command_of(),
            Key::Right => self.right_command_of(),
            Key::BackTab => Command::FocusPrevious,
            Key::Tab => Command::FocusNext,
            Key::Other => Command::Ignore,
            Key::Char(ch) => match ch {
                '?' => Command::OpenHelp,
                'q' => Command::Quit,
                'j' => Command::Move(Way::Forward),
                'k' => Command::Move(Way::Back),
                ' ' => Command::Launch(outbox::ExternalAction::QuickLook),
                'f' => Command::Launch(outbox::ExternalAction::RevealInFinder),
                'O' => Command::Launch(outbox::ExternalAction::Open),
                'y' => Command::CopyPath,
                's' => Command::OpenShell,
                'r' => if packages {
                    Command::RefreshPackages
                } else if reclaim {
                    Command::ScanReclaim
                } else {
                    Command::Refresh
                },
                'S' => Command::ScanAll,
                'd' => Command::Delete,
                'c' => where_allowed(files, Command::Rename),
                'n' => where_allowed(files, Command::Mkdir),
                'v' => where_allowed(files, Command::ToggleMark),
                'a' => where_allowed(files, Command::MarkAll),
                'E' => where_allowed(reclaim, Command::EmptyTrash),
                'R' => Command::ScanReclaim,
                'o' => Command::CycleSort,
                't' => where_allowed(files, Command::OpenTopFiles),
                'p' => if listed {
                    Command::TogglePkgView
                } else {
                    Command::OpenPackages
                },
                '/' => if files {
                    Command::Search
                } else {
                    where_allowed(listed, Command::SearchPackages)
                },
                'i' => if files {
                    Command::OpenFileInfo
                } else if self.focus == keymap::Focus::Disks {
                    Command::OpenDiskInfo
                } else {
                    where_allowed(listed, Command::OpenPkgDetail)
                },
                'B' => Command::SaveBaseline,
                'u' => where_allowed(listed, Command::ToggleLeafFilter),
                'x' => where_allowed(listed, Command::Uninstall),
                'h' => self.left_command_of(),
                'l' => self.right_command_of(),
                '.' => Command::ToggleHidden,
                _ => Command::Ignore,
            },
        }
    }

    /// What a key asks for.
    pub fn command_for(&self, key: Key, modifiers: Modifiers) -> (r: Command)
        ensures
            r == self@.command(key, modifiers),
    {
        if key == Key::Char('c') && modifiers.control {
            self.cancel_active_state()
        } else if char_modifier_inhibited(key, modifiers) {
            Command::Ignore
        } else if self.show_help {
            if key == Key::Esc || key == Key::Char('?') || key == Key::Char('q') {
                Command::CloseHelp
            } else {
                Command::Ignore
            }
        } else if self.confirming_delete {
            answer_of(key, Command::ConfirmDelete, Command::CancelDelete)
        } else if self.pkgs.confirming_uninstall {
            answer_of(key, Command::ConfirmUninstall, Command::CancelUninstall)
        } else if self.reclaim.confirming_empty_trash {
            answer_of(key, Command::ConfirmEmptyTrash, Command::CancelEmptyTrash)
        } else if self.pkgs.detail {
            detail_command_of(key)
        } else if self.top.open {
            top_files_command_of(key)
        } else if self.reclaim.paths_open {
            reclaim_paths_command_of(key)
        } else if self.disks.info_open {
            where_allowed(key == Key::Esc, Command::CloseDiskInfo)
        } else if self.file_info_open {
            file_info_command_of(key)
        } else if self.input.mode != app::InputMode::Off {
            input_command_of(key)
        } else if self.files.search_mode {
            search_command_of(key)
        } else if self.pkgs.search_mode {
            handle_pkg_search_key(key)
        } else {
            self.base_command_of(key)
        }
    }
}

fn where_allowed(here: bool, command: Command) -> (r: Command)
    ensures
        r == only_in(here, command),
{
    if here {
        command
    } else {
        Command::Ignore
    }
}

// ---------------------------------------------------------------------------
// Laws
// ---------------------------------------------------------------------------

/// A character with Control, Alt or Command held does nothing, but for Ctrl+C.
pub proof fn modified_characters_do_nothing(v: app::AppV, key: Key, modifiers: Modifiers)
    requires
        is_inhibited(key, modifiers),
        key != Key::Char('c') || !modifiers.control,
    ensures
        v.command(key, modifiers) == Command::Ignore,
{
}

/// Ctrl+C leaves what Esc leaves.
pub proof fn control_c_is_escape(v: app::AppV, modifiers: Modifiers, held: Modifiers)
    requires
        modifiers.control,
    ensures
        v.command(Key::Char('c'), modifiers) == v.command(Key::Esc, held),
        v.command(Key::Esc, held) == v.cancel_command(),
{
}

/// Letters are text while a package filter is typed, the ones that move
/// elsewhere too.
pub proof fn letters_are_filter_text(ch: char)
    ensures
        pkg_search_command(Key::Char(ch)) == Command::TypePkgSearch(ch),
        search_command(Key::Char(ch)) == Command::TypeSearch(ch),
{
}

/// Only the letter q ends the program: Esc and Ctrl+C leave what is open, and
/// never more.
pub proof fn only_q_quits(v: app::AppV, key: Key, modifiers: Modifiers)
    ensures
        v.command(key, modifiers) == Command::Quit ==> key == Key::Char('q'),
        v.cancel_command() != Command::Quit,
{
}

} // verus!
