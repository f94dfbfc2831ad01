//! Renaming, new directories, other programs, the focus and the baseline.

use crate::app;
use crate::browser;
use crate::keymap;
use crate::outbox;
use crate::paths;
use crate::pkgpane;
use crate::reclaimpane;
use crate::text;
use vstd::prelude::*;

verus! {

/// What came of creating or renaming something.
#[derive(Debug)]
pub enum FileOutcome {
    Done,
    /// There is something of that name.
    Exists,
    Failed(String),
}

#[verifier::ext_equal]
pub enum OutcomeModel {
    Done,
    Exists,
    Failed(Seq<char>),
}

impl View for FileOutcome {
    type V = OutcomeModel;

    open spec fn view(&self) -> OutcomeModel {
        match self {
            FileOutcome::Done => OutcomeModel::Done,
            FileOutcome::Exists => OutcomeModel::Exists,
            FileOutcome::Failed(reason) => OutcomeModel::Failed(reason@),
        }
    }
}

// ---------------------------------------------------------------------------
// Names
// ---------------------------------------------------------------------------

impl app::AppV {
    pub open spec fn typing(
        self,
        mode: app::InputMode,
        prompt: Seq<char>,
        initial: Seq<char>,
        action: app::ActionModel,
    ) -> app::AppV {
        app::AppV {
            input: app::InputV { mode, prompt, buffer: initial, on_commit: Some(action) },
            ..self
        }
    }

    pub open spec fn asking_rename(self) -> app::AppV {
        if self.confirming_delete {
            self
        } else {
            match self.files.current() {
                Some(e) => self.typing(
                    app::InputMode::Rename,
                    "Rename:"@,
                    e.name,
                    app::ActionModel::Rename(e.path),
                ),
                None => self,
            }
        }
    }

    pub open spec fn asking_mkdir(self) -> app::AppV {
        if self.confirming_delete {
            self
        } else {
            self.typing(
                app::InputMode::Mkdir,
                "New directory:"@,
                Seq::empty(),
                app::ActionModel::Mkdir(self.files.cwd),
            )
        }
    }

    pub open spec fn input_left(self) -> app::AppV {
        app::AppV { input: app::no_input(), ..self }
    }

    pub open spec fn with_buffer(self, buffer: Seq<char>) -> app::AppV {
        app::AppV { input: app::InputV { buffer, ..self.input }, ..self }
    }

    /// A character is typed; a name holds neither a slash nor a zero.
    pub open spec fn input_typed(self, ch: char) -> app::AppV {
        if ch == '/' || ch == '\0' {
            self
        } else {
            self.with_buffer(self.input.buffer.push(ch))
        }
    }

    pub open spec fn input_erased(self) -> app::AppV {
        if self.input.buffer.len() == 0 {
            self
        } else {
            self.with_buffer(self.input.buffer.drop_last())
        }
    }

    /// The typed name is used.
    pub open spec fn committed(self) -> app::AppV {
        let name = text::trimmed(self.input.buffer);
        let after = self.input_left();
        match self.input.on_commit {
            Some(app::ActionModel::Rename(old)) => if name.len() == 0 {
                after.says("rename cancelled: empty name"@)
            } else if name.contains('/') {
                after.says("rename failed: name cannot contain '/'"@)
            } else {
                match paths::parent_of(paths::path_of(old)) {
                    Some(parent) => after.asks(
                        outbox::RequestV::Rename {
                            from: old,
                            to: paths::join_text(paths::path_text(parent), name),
                            name,
                        },
                    ),
                    None => after,
                }
            },
            Some(app::ActionModel::Mkdir(parent)) => if name.len() == 0 {
                after.says("mkdir cancelled: empty name"@)
            } else if name.contains('/') {
                after.says("mkdir failed: name cannot contain '/'"@)
            } else {
                after.asks(
                    outbox::RequestV::CreateDir { path: paths::join_text(parent, name), name },
                )
            },
            None => after,
        }
    }

    /// A path was given another name, or could not be. The selection follows it.
    pub open spec fn renamed(
        self,
        from: Seq<char>,
        to: Seq<char>,
        name: Seq<char>,
        outcome: OutcomeModel,
    ) -> app::AppV {
        match outcome {
            OutcomeModel::Done => {
                let old_name = match paths::name_of(paths::path_of(from)) {
                    Some(n) => n,
                    None => Seq::empty(),
                };
                let after = self.says("renamed: "@ + old_name + " → "@ + name);
                (app::AppV { known: after.known.without(from).without(to), ..after }).reading(
                    Some(to),
                    self.files.selected,
                    None,
                ).reading_history()
            },
            OutcomeModel::Exists => self.says("rename failed: "@ + name + " already exists"@),
            OutcomeModel::Failed(reason) => self.says("rename failed: "@ + reason),
        }
    }

    /// A directory was created, or could not be. It is selected.
    pub open spec fn created(
        self,
        path: Seq<char>,
        name: Seq<char>,
        outcome: OutcomeModel,
    ) -> app::AppV {
        match outcome {
            OutcomeModel::Done => {
                let after = self.says("created directory: "@ + name);
                (app::AppV { known: after.known.without(path), ..after }).reading(
                    Some(path),
                    self.files.selected,
                    None,
                ).reading_history()
            },
            OutcomeModel::Exists => self.says("mkdir failed: "@ + name + " already exists"@),
            OutcomeModel::Failed(reason) => self.says("mkdir failed: "@ + reason),
        }
    }
}

impl app::App {
    fn enter_input_mode(
        &mut self,
        mode: app::InputMode,
        prompt: &str,
        initial: &str,
        action: app::InputAction,
    )
        ensures
            final(self)@ == old(self)@.typing(mode, prompt@, initial@, action@),
    {
        self.input = app::Input {
            mode,
            prompt: prompt.to_owned(),
            buffer: initial.to_owned(),
            on_commit: Some(action),
        };
    }

    pub fn request_rename(&mut self)
        ensures
            final(self)@ == old(self)@.asking_rename(),
    {
        if self.confirming_delete {
            return ;
        }
        let (name, path) = match self.files.visible_entry(self.files.selected) {
            Some(e) => (e.name.clone(), e.path.clone()),
            None => {
                return ;
            },
        };
        self.enter_input_mode(
            app::InputMode::Rename,
            "Rename:",
            name.as_str(),
            app::InputAction::Rename(path),
        );
    }

    pub fn request_mkdir(&mut self)
        ensures
            final(self)@ == old(self)@.asking_mkdir(),
    {
        if self.confirming_delete {
            return ;
        }
        let dir = self.files.cwd.clone();
        let none = String::new();
        self.enter_input_mode(
            app::InputMode::Mkdir,
            "New directory:",
            none.as_str(),
            app::InputAction::Mkdir(dir),
        );
    }

    pub fn exit_input_mode(&mut self)
        ensures
            final(self)@ == old(self)@.input_left(),
    {
        self.input = app::Input {
            mode: app::InputMode::Off,
            prompt: String::new(),
            buffer: String::new(),
            on_commit: None,
        };
    }

    pub fn input_push(&mut self, ch: char)
        ensures
            final(self)@ == old(self)@.input_typed(ch),
    {
        if ch == '/' || ch == '\0' {
            return ;
        }
        self.input.buffer.push(ch);
    }

    pub fn input_pop(&mut self)
        ensures
            final(self)@ == old(self)@.input_erased(),
    {
        self.input.buffer = text::without_last(self.input.buffer.as_str());
    }

    /// Uses the typed name: asks for a path to be renamed or a directory to be
    /// created, unless the name is none.
    pub fn input_commit(&mut self)
        ensures
            final(self)@ == old(self)@.committed(),
    {
        let name = text::trim_text(self.input.buffer.as_str());
        let action = self.input.on_commit.take();
        self.exit_input_mode();
        match action {
            Some(app::InputAction::Rename(old)) => {
                if name.as_str().is_empty() {
                    self.out.say("rename cancelled: empty name");
                } else if text::contains_char(name.as_str(), '/') {
                    self.out.say("rename failed: name cannot contain '/'");
                } else {
                    match paths::path_parent(old.as_str()) {
                        Some(parent) => {
                            let to = paths::path_join(parent.as_str(), name.as_str());
                            self.out.ask(outbox::Request::Rename { from: old, to, name });
                        },
                        None => {},
                    }
                }
            },
            Some(app::InputAction::Mkdir(parent)) => {
                if name.as_str().is_empty() {
                    self.out.say("mkdir cancelled: empty name");
                } else if text::contains_char(name.as_str(), '/') {
                    self.out.say("mkdir failed: name cannot contain '/'");
                } else {
                    let path = paths::path_join(parent.as_str(), name.as_str());
                    self.out.ask(outbox::Request::CreateDir { path, name });
                }
            },
            None => {},
        }
    }

    fn read_dir_at(&mut self, path: &str)
        ensures
            final(self)@ == old(self)@.reading(Some(path@), old(self)@.files.selected, None),
    {
        self.out.ask(
            outbox::Request::ReadDir {
                path: self.files.cwd.clone(),
                selected: Some(path.to_owned()),
                index: self.files.selected,
                status: None,
            },
        );
    }

    /// A path was given another name, or could not be.
    pub fn rename_result(&mut self, from: &str, to: &str, name: &str, outcome: FileOutcome)
        ensures
            final(self)@ == old(self)@.renamed(from@, to@, name@, outcome@),
    {
        match outcome {
            FileOutcome::Done => {
                let old_name = match paths::path_file_name(from) {
                    Some(n) => n,
                    None => String::new(),
                };
                self.out.say_text(text::join4("renamed: ", old_name.as_str(), " → ", name));
                self.known.invalidate_cache_for(from);
                self.known.invalidate_cache_for(to);
                self.read_dir_at(to);
                self.refresh_history_state();
            },
            FileOutcome::Exists => {
                self.out.say_text(text::join3("rename failed: ", name, " already exists"));
            },
            FileOutcome::Failed(reason) => {
                self.out.say_text(text::join2("rename failed: ", reason.as_str()));
            },
        }
    }

    /// A directory was created, or could not be.
    pub fn mkdir_result(&mut self, path: &str, name: &str, outcome: FileOutcome)
        ensures
            final(self)@ == old(self)@.created(path@, name@, outcome@),
    {
        match outcome {
            FileOutcome::Done => {
                self.out.say_text(text::join2("created directory: ", name));
                self.known.invalidate_cache_for(path);
                self.read_dir_at(path);
                self.refresh_history_state();
            },
            FileOutcome::Exists => {
                self.out.say_text(text::join3("mkdir failed: ", name, " already exists"));
            },
            FileOutcome::Failed(reason) => {
                self.out.say_text(text::join2("mkdir failed: ", reason.as_str()));
            },
        }
    }
}

// ---------------------------------------------------------------------------
// Marks
// ---------------------------------------------------------------------------

impl app::AppV {
    pub open spec fn mark_toggled(self) -> app::AppV {
        if self.confirming_delete {
            self
        } else {
            match self.files.current() {
                Some(e) => if self.files.marked.contains(e.path) {
                    (app::AppV {
                        files: browser::BrowserV {
                            marked: text::without(self.files.marked, e.path),
                            ..self.files
                        },
                        ..self
                    }).says("unmarked: "@ + e.name)
                } else {
                    (app::AppV {
                        files: browser::BrowserV {
                            marked: self.files.marked.push(e.path),
                            ..self.files
                        },
                        ..self
                    }).says("marked: "@ + e.name)
                },
                None => self,
            }
        }
    }

    pub open spec fn all_marked(self) -> app::AppV {
        if self.confirming_delete {
            self
        } else {
            (app::AppV {
                files: browser::BrowserV {
                    marked: self.files.marks_with_rows(self.files.row_count()),
                    ..self.files
                },
                ..self
            }).says("marked all "@ + text::decimal(self.files.row_count()) + " visible entries"@)
        }
    }
}

impl app::App {
    pub fn toggle_mark(&mut self)
        ensures
            final(self)@ == old(self)@.mark_toggled(),
    {
        if self.confirming_delete {
            return ;
        }
        self.files.toggle_mark(&mut self.out);
    }

    pub fn mark_all_visible(&mut self)
        ensures
            final(self)@ == old(self)@.all_marked(),
    {
        if self.confirming_delete {
            return ;
        }
        self.files.mark_all_visible(&mut self.out);
    }
}

// ---------------------------------------------------------------------------
// Other programs
// ---------------------------------------------------------------------------

impl app::AppV {
    /// The path that is selected in the pane with the focus, and what it is
    /// called.
    pub open spec fn action_target(self) -> Option<(Seq<char>, Seq<char>)> {
        match self.focus {
            keymap::Focus::Files => match self.files.current() {
                Some(e) => Some((e.path, e.name)),
                None => None,
            },
            keymap::Focus::Disks => match self.disks.current() {
                Some(d) => Some(
                    (
                        d.mount,
                        if d.name.len() == 0 {
                            d.mount
                        } else {
                            d.name
                        },
                    ),
                ),
                None => None,
            },
            keymap::Focus::Packages => match self.pkgs.view {
                pkgpane::PkgView::SystemManagers => match self.pkgs.current() {
                    Some(p) => match p.package.path {
                        Some(path) => Some((path, p.manager.name() + " "@ + p.package.name)),
                        None => None,
                    },
                    None => None,
                },
                pkgpane::PkgView::ProjectDeps => match self.pkgs.current_project() {
                    Some(p) => Some(
                        (
                            match p.deps_dir {
                                Some(dir) => dir,
                                None => p.path,
                            },
                            p.manager_label + " "@ + p.path,
                        ),
                    ),
                    None => None,
                },
            },
            keymap::Focus::Reclaim => match self.reclaim.current_path() {
                Some((name, path)) => Some((path, name)),
                None => None,
            },
        }
    }

    pub open spec fn launching(self, action: outbox::ExternalAction) -> app::AppV {
        match self.action_target() {
            Some((path, label)) => self.asks(
                outbox::RequestV::Launch {
                    action,
                    path,
                    done: action.name() + ": "@ + label,
                    failed: action.name() + " failed: "@,
                },
            ),
            None => self.says("nothing selected"@),
        }
    }

    /// Hands the selected top file to another program.
    pub open spec fn launching_top_file(self, action: outbox::ExternalAction) -> app::AppV {
        match self.top.current() {
            Some(path) => self.asks(
                outbox::RequestV::Launch {
                    action,
                    path,
                    done: if action == outbox::ExternalAction::RevealInFinder {
                        "revealed top file in Finder"@
                    } else {
                        "opened top file"@
                    },
                    failed: if action == outbox::ExternalAction::RevealInFinder {
                        "reveal failed: "@
                    } else {
                        "open failed: "@
                    },
                },
            ),
            None => self,
        }
    }

    /// Hands the selected path of a finding to another program.
    pub open spec fn launching_reclaim_path(self, action: outbox::ExternalAction) -> app::AppV {
        match self.reclaim.current_path() {
            Some((_, path)) => self.asks(
                outbox::RequestV::Launch {
                    action,
                    path,
                    done: if action == outbox::ExternalAction::RevealInFinder {
                        "revealed reclaim path in Finder"@
                    } else {
                        "opened reclaim path"@
                    },
                    failed: if action == outbox::ExternalAction::RevealInFinder {
                        "reveal failed: "@
                    } else {
                        "open failed: "@
                    },
                },
            ),
            None => self,
        }
    }

    pub open spec fn copying_path(self) -> app::AppV {
        match self.action_target() {
            Some((path, _)) => self.asks(outbox::RequestV::CopyText { text: path }),
            None => self.says("nothing selected"@),
        }
    }

    pub open spec fn opening_terminal(self) -> app::AppV {
        match self.action_target() {
            Some((path, _)) => self.asks(
                outbox::RequestV::OpenTerminal {
                    path,
                    otherwise: match paths::parent_of(paths::path_of(path)) {
                        Some(parent) => paths::path_text(parent),
                        None => self.files.cwd,
                    },
                },
            ),
            None => self.says("nothing selected"@),
        }
    }
}

impl app::App {
    /// The path that is selected in the pane with the focus, and what it is
    /// called.
    pub fn selected_action_target(&self) -> (r: Option<(String, String)>)
        ensures
            match r {
                Some((path, label)) => self@.action_target() == Some((path@, label@)),
                None => self@.action_target() is None,
            },
    {
        match self.focus {
            keymap::Focus::Files => match self.files.visible_entry(self.files.selected) {
                Some(e) => Some((e.path.clone(), e.name.clone())),
                None => None,
            },
            keymap::Focus::Disks => match self.disks.selected_disk() {
                Some(d) => {
                    let label = if d.name.as_str().is_empty() {
                        d.mount.clone()
                    } else {
                        d.name.clone()
                    };
                    Some((d.mount.clone(), label))
                },
                None => None,
            },
            keymap::Focus::Packages => match self.pkgs.view {
                pkgpane::PkgView::SystemManagers => match self.pkgs.selected_pkg_detail() {
                    Some((p, _)) => match &p.package.path {
                        Some(path) => Some(
                            (
                                path.clone(),
                                text::join3(p.manager.label(), " ", p.package.name.as_str()),
                            ),
                        ),
                        None => None,
                    },
                    None => None,
                },
                pkgpane::PkgView::ProjectDeps => match self.pkgs.selected_project_dep_detail() {
                    Some(p) => {
                        let path = match &p.deps_dir {
                            Some(dir) => dir.clone(),
                            None => p.path.clone(),
                        };
                        Some((path, text::join3(p.manager_label.as_str(), " ", p.path.as_str())))
                    },
                    None => None,
                },
            },
            keymap::Focus::Reclaim => match self.reclaim.selected_reclaim_path() {
                Some((name, path)) => Some((path, name)),
                None => None,
            },
        }
    }

    /// Hands what is selected to another program.
    pub fn launch_external_action(&mut self, action: outbox::ExternalAction)
        ensures
            final(self)@ == old(self)@.launching(action),
    {
        match self.selected_action_target() {
            Some((path, label)) => {
                let done = text::join3(action.status_label(), ": ", label.as_str());
                let failed = text::join2(action.status_label(), " failed: ");
                self.out.ask(outbox::Request::Launch { action, path, done, failed });
            },
            None => {
                self.out.say("nothing selected");
            },
        }
    }

    pub fn launch_top_file(&mut self, action: outbox::ExternalAction)
        ensures
            final(self)@ == old(self)@.launching_top_file(action),
    {
        match self.top.selected_top_file_path() {
            Some(path) => {
                let (done, failed) = if action == outbox::ExternalAction::RevealInFinder {
                    ("revealed top file in Finder", "reveal failed: ")
                } else {
                    ("opened top file", "open failed: ")
                };
                self.out.ask(
                    outbox::Request::Launch {
                        action,
                        path,
                        done: done.to_owned(),
                        failed: failed.to_owned(),
                    },
                );
            },
            None => {},
        }
    }

    pub fn launch_reclaim_path(&mut self, action: outbox::ExternalAction)
        ensures
            final(self)@ == old(self)@.launching_reclaim_path(action),
    {
        match self.reclaim.selected_reclaim_path() {
            Some((_, path)) => {
                let (done, failed) = if action == outbox::ExternalAction::RevealInFinder {
                    ("revealed reclaim path in Finder", "reveal failed: ")
                } else {
                    ("opened reclaim path", "open failed: ")
                };
                self.out.ask(
                    outbox::Request::Launch {
                        action,
                        path,
                        done: done.to_owned(),
                        failed: failed.to_owned(),
                    },
                );
            },
            None => {},
        }
    }

    /// Another program was started, or could not be.
    pub fn launch_result(&mut self, result: Result<(), String>, done: &str, failed: &str)
        ensures
            final(self)@ == old(self)@.says(
                match result {
                    Ok(_) => done@,
                    Err(reason) => failed@ + reason@,
                },
            ),
    {
        match result {
            Ok(_) => {
                self.out.say(done);
            },
            Err(reason) => {
                self.out.say_text(text::join2(failed, reason.as_str()));
            },
        }
    }

    pub fn copy_path_to_clipboard(&mut self)
        ensures
            final(self)@ == old(self)@.copying_path(),
    {
        match self.selected_action_target() {
            Some((path, _)) => {
                self.out.ask(outbox::Request::CopyText { text: path });
            },
            None => {
                self.out.say("nothing selected");
            },
        }
    }

    /// A path was put on the clipboard, or could not be.
    pub fn copy_result(&mut self, path: &str, result: Result<(), String>)
        ensures
            final(self)@ == old(self)@.says(
                match result {
                    Ok(_) => "copied: "@ + path@,
                    Err(reason) => "copy failed: "@ + reason@,
                },
            ),
    {
        match result {
            Ok(_) => {
                self.out.say_text(text::join2("copied: ", path));
            },
            Err(reason) => {
                self.out.say_text(text::join2("copy failed: ", reason.as_str()));
            },
        }
    }

    pub fn open_shell(&mut self)
        ensures
            final(self)@ == old(self)@.opening_terminal(),
    {
        match self.selected_action_target() {
            Some((path, _)) => {
                let otherwise = match paths::path_parent(path.as_str()) {
                    Some(parent) => parent,
                    None => self.files.cwd.clone(),
                };
                self.out.ask(outbox::Request::OpenTerminal { path, otherwise });
            },
            None => {
                self.out.say("nothing selected");
            },
        }
    }

    /// A terminal was opened in a directory, or could not be.
    pub fn terminal_result(&mut self, dir: &str, result: Result<(), String>)
        ensures
            final(self)@ == old(self)@.says(
                match result {
                    Ok(_) => "opening terminal: "@ + dir@,
                    Err(reason) => "open shell failed: "@ + reason@,
                },
            ),
    {
        match result {
            Ok(_) => {
                self.out.say_text(text::join2("opening terminal: ", dir));
            },
            Err(reason) => {
                self.out.say_text(text::join2("open shell failed: ", reason.as_str()));
            },
        }
    }
}

// ---------------------------------------------------------------------------
// The focus
// ---------------------------------------------------------------------------

pub open spec fn focus_after(focus: keymap::Focus) -> keymap::Focus {
    match focus {
        keymap::Focus::Files => keymap::Focus::Disks,
        keymap::Focus::Disks => keymap::Focus::Packages,
        keymap::Focus::Packages => keymap::Focus::Reclaim,
        keymap::Focus::Reclaim => keymap::Focus::Files,
    }
}

pub open spec fn focus_before(focus: keymap::Focus) -> keymap::Focus {
    match focus {
        keymap::Focus::Files => keymap::Focus::Reclaim,
        keymap::Focus::Disks => keymap::Focus::Files,
        keymap::Focus::Packages => keymap::Focus::Disks,
        keymap::Focus::Reclaim => keymap::Focus::Packages,
    }
}

impl app::AppV {
    /// Another pane has the focus; the reclaim pane has a report made for the
    /// directory at hand.
    pub open spec fn focused(self, focus: keymap::Focus) -> app::AppV {
        let cleared = if self.focus != focus {
            self.says(Seq::empty())
        } else {
            self
        };
        let after = app::AppV { focus, ..cleared };
        if focus == keymap::Focus::Reclaim && !after.reclaim.covers(after.files.cwd) {
            after.reclaiming()
        } else {
            after
        }
    }

    /// Asks for a new reclaim report.
    pub open spec fn reclaiming(self) -> app::AppV {
        app::AppV {
            reclaim: self.reclaim.scanning(self.files.cwd),
            out: self.reclaim.scan_asked(self.out, self.files.cwd),
            ..self
        }
    }
}

impl app::App {
    pub fn set_focus(&mut self, focus: keymap::Focus)
        ensures
            final(self)@ == old(self)@.focused(focus),
    {
        if self.focus != focus {
            let none = String::new();
            self.out.say_text(none);
        }
        self.focus = focus;
        if self.focus == keymap::Focus::Reclaim {
            self.reclaim.open_reclaim_for_focus(self.files.cwd.as_str(), &mut self.out);
        }
    }

    pub fn focus_next(&mut self)
        ensures
            final(self)@ == old(self)@.focused(focus_after(old(self)@.focus)),
    {
        let next = match self.focus {
            keymap::Focus::Files => keymap::Focus::Disks,
            keymap::Focus::Disks => keymap::Focus::Packages,
            keymap::Focus::Packages => keymap::Focus::Reclaim,
            keymap::Focus::Reclaim => keymap::Focus::Files,
        };
        self.set_focus(next);
    }

    pub fn focus_previous(&mut self)
        ensures
            final(self)@ == old(self)@.focused(focus_before(old(self)@.focus)),
    {
        let previous = match self.focus {
            keymap::Focus::Files => keymap::Focus::Reclaim,
            keymap::Focus::Disks => keymap::Focus::Files,
            keymap::Focus::Packages => keymap::Focus::Disks,
            keymap::Focus::Reclaim => keymap::Focus::Packages,
        };
        self.set_focus(previous);
    }

    pub fn request_reclaim_scan(&mut self)
        ensures
            final(self)@ == old(self)@.reclaiming(),
    {
        self.reclaim.request_reclaim_scan(self.files.cwd.as_str(), &mut self.out);
    }
}

/// Panes are passed through in a ring: back is the way forward undone, and four
/// steps lead round.
pub proof fn panes_form_a_ring(focus: keymap::Focus)
    ensures
        focus_before(focus_after(focus)) == focus,
        focus_after(focus_before(focus)) == focus,
        focus_after(focus_after(focus_after(focus_after(focus)))) == focus,
{
}

// ---------------------------------------------------------------------------
// The Trash
// ---------------------------------------------------------------------------

impl app::AppV {
    pub open spec fn asking_empty_trash(self) -> app::AppV {
        if self.confirming_delete {
            self
        } else {
            let after = app::AppV { reclaim: self.reclaim.asking_trash(), ..self };
            if self.reclaim.emptying_trash {
                after.says("Trash is already being emptied"@)
            } else if !self.reclaim.lists_trash() {
                after.says("Trash is not in this reclaim report"@)
            } else {
                after
            }
        }
    }

    /// The Trash was emptied, or could not be.
    pub open spec fn trash_emptied(self, problem: Option<Seq<char>>) -> app::AppV {
        let after = app::AppV {
            reclaim: reclaimpane::ReclaimV { emptying_trash: false, ..self.reclaim },
            ..self
        };
        match problem {
            Some(reason) => after.says("empty trash failed: "@ + reason),
            None => {
                let done = after.says("Trash emptied"@).asks(outbox::RequestV::ReadDisks);
                if self.focus == keymap::Focus::Reclaim {
                    done.reclaiming()
                } else {
                    done
                }
            },
        }
    }
}

impl app::App {
    pub fn request_empty_trash(&mut self)
        ensures
            final(self)@ == old(self)@.asking_empty_trash(),
    {
        if self.confirming_delete {
            return ;
        }
        self.reclaim.request_empty_trash(&mut self.out);
    }

    /// The Trash was emptied, or could not be.
    pub fn empty_trash_result(&mut self, result: Result<(), String>)
        ensures
            final(self)@ == old(self)@.trash_emptied(
                match result {
                    Ok(_) => None,
                    Err(reason) => Some(reason@),
                },
            ),
    {
        self.reclaim.emptying_trash = false;
        match result {
            Ok(_) => {
                self.out.say("Trash emptied");
                self.out.ask(outbox::Request::ReadDisks);
                if self.focus == keymap::Focus::Reclaim {
                    self.request_reclaim_scan();
                }
            },
            Err(reason) => {
                self.out.say_text(text::join2("empty trash failed: ", reason.as_str()));
            },
        }
    }
}

/// What is typed is erased by one step back, and a name takes neither a slash
/// nor a zero.
pub proof fn erasing_undoes_typing(v: app::AppV, ch: char)
    ensures
        ch != '/' && ch != '\0' ==> v.input_typed(ch).input.buffer == v.input.buffer.push(ch)
            && v.input_typed(ch).input_erased() == v,
        ch == '/' || ch == '\0' ==> v.input_typed(ch) == v,
{
    if ch != '/' && ch != '\0' {
        assert(v.input.buffer.push(ch).drop_last() =~= v.input.buffer);
    }
}

/// Marking the selected entry again takes its mark off; the marks of others stay.
pub proof fn marking_twice_changes_nothing(v: app::AppV, path: Seq<char>)
    requires
        v.files.current() is Some,
        !v.confirming_delete,
    ensures
        ({
            let here = v.files.current()->0.path;
            let once = v.mark_toggled();
            &&& path != here ==> (once.files.marked.contains(path) <==> v.files.marked.contains(
                path,
            ))
            &&& once.files.marked.contains(here) <==> !v.files.marked.contains(here)
            &&& once.files.current() == v.files.current()
            &&& once.mark_toggled().files.marked.contains(path) <==> v.files.marked.contains(path)
        }),
{
    let here = v.files.current()->0.path;
    let once = v.mark_toggled();
    assert(once.files.current() == v.files.current());
    toggling_is_exact(v, path);
    toggling_is_exact(v, here);
    toggling_is_exact(once, path);
}

proof fn toggling_is_exact(v: app::AppV, path: Seq<char>)
    requires
        v.files.current() is Some,
        !v.confirming_delete,
    ensures
        ({
            let here = v.files.current()->0.path;
            v.mark_toggled().files.marked.contains(path) <==> if path == here {
                !v.files.marked.contains(path)
            } else {
                v.files.marked.contains(path)
            }
        }),
{
    let here = v.files.current()->0.path;
    let marks = v.files.marked;
    if marks.contains(here) {
        text::the_others_are_left(marks, here, path);
    } else {
        let more = marks.push(here);
        assert(more[marks.len() as int] == here);
        if marks.contains(path) {
            let k = choose|k: int| 0 <= k < marks.len() && marks[k] == path;
            assert(more[k] == path);
        }
        if more.contains(path) && path != here {
            let k = choose|k: int| 0 <= k < more.len() && more[k] == path;
            assert(marks[k] == path);
        }
    }
}

/// A typed name renames what it was asked for, once: into that name, without the
/// blanks around it. A name that is empty or holds a slash renames nothing. Either
/// way the input is left.
pub proof fn renaming_asks_once(v: app::AppV, old_path: Seq<char>)
    requires
        v.input.on_commit == Some(app::ActionModel::Rename(old_path)),
        paths::parent_of(paths::path_of(old_path)) is Some,
    ensures
        ({
            let name = text::trimmed(v.input.buffer);
            let done = v.committed();
            &&& done.input == app::no_input()
            &&& done.files == v.files && done.known == v.known
            &&& if name.len() > 0 && !name.contains('/') {
                done.out.requests == v.out.requests.push(
                    outbox::RequestV::Rename {
                        from: old_path,
                        to: paths::join_text(
                            paths::path_text(paths::parent_of(paths::path_of(old_path))->0),
                            name,
                        ),
                        name,
                    },
                )
            } else {
                done.out.requests == v.out.requests
            }
        }),
{
}

} // verus!
