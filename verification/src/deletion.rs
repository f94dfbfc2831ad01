//! Moving things to the Trash: what is asked, what is confirmed, and what
//! follows once it is gone.

use crate::app;
use crate::browser;
use crate::bulkstat;
use crate::cache;
use crate::keymap;
use crate::outbox;
use crate::packages;
use crate::paths;
use crate::pkgpane;
use crate::reclaim;
use crate::sizes;
use crate::sums;
use crate::text;
use vstd::prelude::*;

verus! {

/// The remembered room of marked paths, together.
pub open spec fn marked_room(marks: Seq<Seq<char>>, m: Map<Seq<char>, cache::CacheLine>) -> nat
    decreases marks.len(),
{
    if marks.len() == 0 {
        0
    } else {
        let before = marked_room(marks.drop_last(), m);
        if m.contains_key(marks.last()) {
            before + m[marks.last()].size.allocated as nat
        } else {
            before
        }
    }
}

fn sum_marked(marks: &Vec<String>, known: &cache::SizeCache) -> (r: u64)
    ensures
        r == bulkstat::capped(marked_room(text::texts(marks@), known@) as int),
{
    let ghost all = text::texts(marks@);
    let mut total: u64 = 0;
    let mut i: usize = 0;
    assert(all.take(0) =~= Seq::<Seq<char>>::empty());
    while i < marks.len()
        invariant
            i <= marks@.len(),
            all == text::texts(marks@),
            total == bulkstat::capped(marked_room(all.take(i as int), known@) as int),
        decreases marks@.len() - i,
    {
        assert(all.take(i + 1).drop_last() =~= all.take(i as int));
        assert(all.take(i + 1).last() == marks@[i as int]@);
        match known.get(marks[i].as_str()) {
            Some(line) => {
                total = total.saturating_add(line.size.allocated);
            },
            None => {},
        }
        i += 1;
    }
    assert(all.take(all.len() as int) =~= all);
    total
}

/// The names of paths, as far as they have any.
pub open spec fn names_of(list: Seq<Seq<char>>) -> Seq<Seq<char>>
    decreases list.len(),
{
    if list.len() == 0 {
        Seq::empty()
    } else {
        let before = names_of(list.drop_last());
        match paths::name_of(paths::path_of(list.last())) {
            Some(name) => before.push(name),
            None => before,
        }
    }
}

pub fn collect_names(list: &Vec<String>) -> (r: Vec<String>)
    ensures
        text::texts(r@) == names_of(text::texts(list@)),
{
    let ghost all = text::texts(list@);
    let mut names: Vec<String> = Vec::new();
    let mut i: usize = 0;
    assert(all.take(0) =~= Seq::<Seq<char>>::empty());
    assert(text::texts(names@) =~= Seq::<Seq<char>>::empty());
    while i < list.len()
        invariant
            i <= list@.len(),
            all == text::texts(list@),
            text::texts(names@) == names_of(all.take(i as int)),
        decreases list@.len() - i,
    {
        assert(all.take(i + 1).drop_last() =~= all.take(i as int));
        assert(all.take(i + 1).last() == list@[i as int]@);
        match paths::path_file_name(list[i].as_str()) {
            Some(name) => {
                proof {
                    text::texts_push(names@, name);
                }
                names.push(name);
            },
            None => {},
        }
        i += 1;
    }
    assert(all.take(all.len() as int) =~= all);
    names
}

/// What is said once the marked paths were moved.
pub open spec fn batch_status(failed: Seq<Seq<char>>) -> Seq<char> {
    if failed.len() == 0 {
        "moved marked items to trash"@
    } else {
        "some items failed: "@ + text::joined(names_of(failed), ", "@)
    }
}

impl app::TargetModel {
    /// What the target is called.
    pub open spec fn name(self) -> Seq<char> {
        match self {
            app::TargetModel::FileEntry(e) => e.name,
            app::TargetModel::Package { name, .. } => name,
            app::TargetModel::TopFile { name, .. } => name,
            app::TargetModel::ReclaimPath { name, .. } => name,
            app::TargetModel::Batch => "marked items"@,
        }
    }

    /// Where the target is; a batch has its paths in the marks.
    pub open spec fn path(self) -> Option<Seq<char>> {
        match self {
            app::TargetModel::FileEntry(e) => Some(e.path),
            app::TargetModel::Package { path, .. } => Some(path),
            app::TargetModel::TopFile { path, .. } => Some(path),
            app::TargetModel::ReclaimPath { path, .. } => Some(path),
            app::TargetModel::Batch => None,
        }
    }
}

impl app::AppV {
    /// Asks whether a target is to go to the Trash.
    pub open spec fn asking_delete(self, target: app::TargetModel) -> app::AppV {
        app::AppV { pending_delete: Some(target), confirming_delete: true, ..self }
    }

    pub open spec fn asking_reclaim_path(self) -> app::AppV {
        match self.reclaim.current_path() {
            Some((name, path)) => self.asking_delete(
                app::TargetModel::ReclaimPath {
                    finding_index: self.reclaim.paths_finding,
                    name,
                    path,
                },
            ),
            None => self.says("no reclaim path selected"@),
        }
    }

    pub open spec fn asking_top_file(self) -> app::AppV {
        if self.top.loading {
            self.says("top files scan in progress"@)
        } else {
            match self.top.current() {
                Some(path) => self.asking_delete(
                    app::TargetModel::TopFile {
                        name: match paths::name_of(paths::path_of(path)) {
                            Some(name) => name,
                            None => "top file"@,
                        },
                        path,
                    },
                ),
                None => self.says("no top file selected"@),
            }
        }
    }

    /// The question whether all marked paths are to go.
    pub open spec fn batch_question(self) -> Seq<char> {
        let room = bulkstat::capped(marked_room(self.files.marked, self.known.cache) as int);
        "Trash "@ + text::decimal(self.files.marked.len()) + " items"@ + (if room > 0 {
            " ("@ + sizes::human_text(room as nat) + ")"@
        } else {
            Seq::empty()
        }) + "? (y/n)"@
    }

    pub open spec fn asking_batch(self) -> app::AppV {
        if self.confirming_delete {
            self
        } else if self.files.marked.len() == 0 {
            self.says("nothing marked for deletion"@)
        } else {
            self.asking_delete(app::TargetModel::Batch).says(self.batch_question())
        }
    }

    pub open spec fn asking_package(self) -> app::AppV {
        match self.pkgs.current() {
            Some(p) => if p.manager == packages::Manager::BrewCask {
                app::AppV { pkgs: self.pkgs.asking_uninstall(), ..self }
            } else {
                match p.package.path {
                    Some(path) => self.asking_delete(
                        app::TargetModel::Package {
                            name: p.manager.name() + " "@ + p.package.name,
                            path,
                            is_project_dep: false,
                        },
                    ),
                    None => self.says("no path known for package "@ + p.package.name),
                }
            },
            None => self,
        }
    }

    pub open spec fn asking_project(self) -> app::AppV {
        match self.pkgs.current_project() {
            Some(p) => match p.deps_dir {
                Some(dir) => self.asking_delete(
                    app::TargetModel::Package {
                        name: p.manager_label + " dependency dir ("@ + dir + ")"@,
                        path: dir,
                        is_project_dep: true,
                    },
                ),
                None => self.says("no local dependency directory to delete for "@ + p.manifest),
            },
            None => self,
        }
    }

    /// Asks whether what is selected, or all that is marked, is to go.
    pub open spec fn delete_asked(self) -> app::AppV {
        if self.confirming_delete {
            self
        } else {
            match self.focus {
                keymap::Focus::Files => if self.files.marked.len() > 0 {
                    self.asking_batch()
                } else {
                    match self.files.current() {
                        Some(e) => self.asking_delete(app::TargetModel::FileEntry(e)),
                        None => self,
                    }
                },
                keymap::Focus::Disks => self.says("cannot delete a disk mount"@),
                keymap::Focus::Reclaim => if self.reclaim.paths_open {
                    self.asking_reclaim_path()
                } else {
                    self.says("press Enter on a reclaim finding to list paths"@)
                },
                keymap::Focus::Packages => match self.pkgs.view {
                    pkgpane::PkgView::SystemManagers => self.asking_package(),
                    pkgpane::PkgView::ProjectDeps => self.asking_project(),
                },
            }
        }
    }

    pub open spec fn delete_cancelled(self) -> app::AppV {
        app::AppV { confirming_delete: false, pending_delete: None, ..self }
    }

    /// What was asked about is on its way to the Trash.
    pub open spec fn delete_confirmed(self) -> app::AppV {
        match self.pending_delete {
            Some(target) => {
                let after = app::AppV { deleting: Some(target), ..self.delete_cancelled() };
                match target.path() {
                    Some(path) => after.asks(outbox::RequestV::Trash { path }),
                    None => (app::AppV {
                        files: browser::BrowserV { marked: Seq::empty(), ..after.files },
                        ..after
                    }).asks(outbox::RequestV::TrashAll { paths: self.files.marked }),
                }
            },
            None => self.delete_cancelled(),
        }
    }

    /// Nothing is remembered of a path that is gone, and the disks are read
    /// again.
    pub open spec fn losing(self, path: Seq<char>) -> app::AppV {
        (app::AppV { known: self.known.without(path), ..self }).asks(outbox::RequestV::ReadDisks)
    }

    /// What follows once a target is gone.
    pub open spec fn target_gone(self, target: app::TargetModel) -> app::AppV {
        let status = "moved to trash: "@ + target.name();
        let after = self.says(status);
        match target {
            app::TargetModel::FileEntry(e) => after.losing(e.path).reloading(Some(status)),
            app::TargetModel::TopFile { path, .. } => {
                let after = after.losing(path);
                match after.top.path {
                    Some(root) => app::AppV {
                        top: after.top.asking(root),
                        out: after.top.asked(after.out, root),
                        ..after
                    },
                    None => after,
                }
            },
            app::TargetModel::ReclaimPath { finding_index, path, .. } => {
                let after = after.losing(path);
                let count = after.reclaim.findings().len();
                let chosen = after.reclaim.selecting(outbox::clamped(finding_index, count));
                if count == 0 {
                    after
                } else {
                    app::AppV {
                        reclaim: chosen.scanning(after.files.cwd),
                        out: chosen.scan_asked(after.out, after.files.cwd),
                        ..after
                    }
                }
            },
            app::TargetModel::Package { path, is_project_dep, .. } => {
                let after = after.losing(path);
                app::AppV {
                    pkgs: after.pkgs.scanning(),
                    out: after.pkgs.scan_asked(after.out, after.files.cwd, !is_project_dep),
                    ..after
                }
            },
            app::TargetModel::Batch => after,
        }
    }

    /// A target was moved, or could not be.
    pub open spec fn trashed(self, problem: Option<Seq<char>>) -> app::AppV {
        let after = app::AppV { deleting: None, ..self };
        match self.deleting {
            Some(target) => match problem {
                Some(reason) => after.says("delete failed: "@ + reason),
                None => after.target_gone(target).reading_history(),
            },
            None => self,
        }
    }

    /// The marked paths were moved, as far as they could be.
    pub open spec fn batch_trashed(
        self,
        moved: Seq<Seq<char>>,
        failed: Seq<Seq<char>>,
    ) -> app::AppV {
        let status = batch_status(failed);
        (app::AppV { deleting: None, known: self.known.without_all(moved), ..self }).asks(
            outbox::RequestV::ReadDisks,
        ).reloading(Some(status)).reading_history().says(status)
    }
}

impl app::App {
    pub fn request_delete_reclaim_path(&mut self)
        ensures
            final(self)@ == old(self)@.asking_reclaim_path(),
    {
        match self.reclaim.selected_reclaim_path() {
            Some((name, path)) => {
                self.pending_delete = Some(
                    app::DeleteTarget::ReclaimPath {
                        finding_index: self.reclaim.paths_finding,
                        name,
                        path,
                    },
                );
                self.confirming_delete = true;
            },
            None => {
                self.out.say("no reclaim path selected");
            },
        }
    }

    pub fn request_delete_top_file(&mut self)
        ensures
            final(self)@ == old(self)@.asking_top_file(),
    {
        if self.top.loading {
            self.out.say("top files scan in progress");
            return ;
        }
        match self.top.selected_top_file_path() {
            Some(path) => {
                let name = match paths::path_file_name(path.as_str()) {
                    Some(name) => name,
                    None => "top file".to_owned(),
                };
                self.pending_delete = Some(app::DeleteTarget::TopFile { name, path });
                self.confirming_delete = true;
            },
            None => {
                self.out.say("no top file selected");
            },
        }
    }

    pub fn request_batch_delete(&mut self)
        ensures
            final(self)@ == old(self)@.asking_batch(),
    {
        if self.confirming_delete {
            return ;
        }
        if self.files.marked.len() == 0 {
            self.out.say("nothing marked for deletion");
            return ;
        }
        let room: u64 = sum_marked(&self.files.marked, &self.known.cache);
        let size = if room > 0 {
            text::join3(" (", sizes::human(room).as_str(), ")")
        } else {
            String::new()
        };
        let count = text::decimal_text(self.files.marked.len() as u64);
        self.out.say_text(
            text::join5("Trash ", count.as_str(), " items", size.as_str(), "? (y/n)"),
        );
        self.confirming_delete = true;
        self.pending_delete = Some(app::DeleteTarget::Batch);
    }

    fn request_delete_package(&mut self)
        requires
            old(self)@.pkgs.view == pkgpane::PkgView::SystemManagers,
        ensures
            final(self)@ == old(self)@.asking_package(),
    {
        let (manager, package) = match self.pkgs.selected_pkg_detail() {
            Some((p, _)) => (p.manager, p.package.clone()),
            None => {
                return ;
            },
        };
        if manager == packages::Manager::BrewCask {
            self.pkgs.request_uninstall(&mut self.out);
            return ;
        }
        match package.path {
            Some(path) => {
                self.pending_delete = Some(
                    app::DeleteTarget::Package {
                        name: text::join3(manager.label(), " ", package.name.as_str()),
                        path,
                        is_project_dep: false,
                    },
                );
                self.confirming_delete = true;
            },
            None => {
                self.out.say_text(
                    text::join2("no path known for package ", package.name.as_str()),
                );
            },
        }
    }

    fn request_delete_project(&mut self)
        ensures
            final(self)@ == old(self)@.asking_project(),
    {
        let project = match self.pkgs.selected_project_dep_detail() {
            Some(p) => p.clone(),
            None => {
                return ;
            },
        };
        match project.deps_dir {
            Some(dir) => {
                self.pending_delete = Some(
                    app::DeleteTarget::Package {
                        name: text::join4(
                            project.manager_label.as_str(),
                            " dependency dir (",
                            dir.as_str(),
                            ")",
                        ),
                        path: dir,
                        is_project_dep: true,
                    },
                );
                self.confirming_delete = true;
            },
            None => {
                self.out.say_text(
                    text::join2(
                        "no local dependency directory to delete for ",
                        project.manifest.as_str(),
                    ),
                );
            },
        }
    }

    pub fn request_delete(&mut self)
        ensures
            final(self)@ == old(self)@.delete_asked(),
    {
        if self.confirming_delete {
            return ;
        }
        match self.focus {
            keymap::Focus::Files => {
                if self.files.marked.len() > 0 {
                    self.request_batch_delete();
                    return ;
                }
                let entry = match self.files.visible_entry(self.files.selected) {
                    Some(e) => e.clone(),
                    None => {
                        return ;
                    },
                };
                self.pending_delete = Some(app::DeleteTarget::FileEntry(entry));
                self.confirming_delete = true;
            },
            keymap::Focus::Disks => {
                self.out.say("cannot delete a disk mount");
            },
            keymap::Focus::Reclaim => {
                if self.reclaim.paths_open {
                    self.request_delete_reclaim_path();
                } else {
                    self.out.say("press Enter on a reclaim finding to list paths");
                }
            },
            keymap::Focus::Packages => match self.pkgs.view {
                pkgpane::PkgView::SystemManagers => {
                    self.request_delete_package();
                },
                pkgpane::PkgView::ProjectDeps => {
                    self.request_delete_project();
                },
            },
        }
    }

    pub fn cancel_delete(&mut self)
        ensures
            final(self)@ == old(self)@.delete_cancelled(),
    {
        self.confirming_delete = false;
        self.pending_delete = None;
    }

    /// Asks for what was asked about to be moved to the Trash.
    pub fn confirm_delete(&mut self)
        ensures
            final(self)@ == old(self)@.delete_confirmed(),
    {
        self.confirming_delete = false;
        let target = match self.pending_delete.take() {
            Some(target) => target,
            None => {
                return ;
            },
        };
        match &target {
            app::DeleteTarget::FileEntry(e) => {
                self.out.ask(outbox::Request::Trash { path: e.path.clone() });
            },
            app::DeleteTarget::Package { path, .. } => {
                self.out.ask(outbox::Request::Trash { path: path.clone() });
            },
            app::DeleteTarget::TopFile { path, .. } => {
                self.out.ask(outbox::Request::Trash { path: path.clone() });
            },
            app::DeleteTarget::ReclaimPath { path, .. } => {
                self.out.ask(outbox::Request::Trash { path: path.clone() });
            },
            app::DeleteTarget::Batch => {
                let marked = reclaim::copy_texts(&self.files.marked);
                self.files.marked = Vec::new();
                assert(self.files@.marked =~= Seq::<Seq<char>>::empty());
                self.out.ask(outbox::Request::TrashAll { paths: marked });
            },
        }
        self.deleting = Some(target);
    }

    fn lose(&mut self, path: &str)
        ensures
            final(self)@ == old(self)@.losing(path@),
    {
        self.known.invalidate_cache_for(path);
        self.out.ask(outbox::Request::ReadDisks);
    }

    fn reload_saying(&mut self, status: String)
        ensures
            final(self)@ == old(self)@.reloading(Some(status@)),
    {
        let selected = match self.files.visible_entry(self.files.selected) {
            Some(e) => Some(e.path.clone()),
            None => None,
        };
        self.out.ask(
            outbox::Request::ReadDir {
                path: self.files.cwd.clone(),
                selected,
                index: self.files.selected,
                status: Some(status),
            },
        );
    }

    fn after_target(&mut self, target: app::DeleteTarget)
        ensures
            final(self)@ == old(self)@.target_gone(target@),
    {
        match target {
            app::DeleteTarget::FileEntry(e) => {
                let status = text::join2("moved to trash: ", e.name.as_str());
                self.out.say(status.as_str());
                self.lose(e.path.as_str());
                self.reload_saying(status);
            },
            app::DeleteTarget::TopFile { name, path } => {
                self.out.say_text(text::join2("moved to trash: ", name.as_str()));
                self.lose(path.as_str());
                let root = packages::copy_opt_text(&self.top.path);
                match root {
                    Some(root) => {
                        self.top.open_top_files_for_path(root.as_str(), &mut self.out);
                    },
                    None => {},
                }
            },
            app::DeleteTarget::ReclaimPath { finding_index, name, path } => {
                self.out.say_text(text::join2("moved to trash: ", name.as_str()));
                self.lose(path.as_str());
                self.reclaim.rescan_reclaim_finding(
                    finding_index,
                    self.files.cwd.as_str(),
                    &mut self.out,
                );
            },
            app::DeleteTarget::Package { name, path, is_project_dep } => {
                self.out.say_text(text::join2("moved to trash: ", name.as_str()));
                self.lose(path.as_str());
                if is_project_dep {
                    self.pkgs.reload_project_deps(self.files.cwd.as_str(), &mut self.out);
                } else {
                    self.pkgs.refresh_packages(self.files.cwd.as_str(), &mut self.out);
                }
            },
            app::DeleteTarget::Batch => {
                self.out.say_text(text::join2("moved to trash: ", "marked items"));
            },
        }
    }

    /// A target was moved to the Trash, or could not be.
    pub fn trash_result(&mut self, result: Result<(), String>)
        ensures
            final(self)@ == old(self)@.trashed(
                match result {
                    Ok(_) => None,
                    Err(reason) => Some(reason@),
                },
            ),
    {
        let target = match self.deleting.take() {
            Some(target) => target,
            None => {
                return ;
            },
        };
        match result {
            Ok(_) => {
                self.after_target(target);
                self.refresh_history_state();
            },
            Err(reason) => {
                self.out.say_text(text::join2("delete failed: ", reason.as_str()));
            },
        }
    }

    /// The marked paths were moved to the Trash, as far as they could be.
    pub fn batch_trash_result(&mut self, moved: &Vec<String>, failed: &Vec<String>)
        ensures
            final(self)@ == old(self)@.batch_trashed(text::texts(moved@), text::texts(failed@)),
    {
        self.deleting = None;
        self.known.invalidate_all(moved);
        self.out.ask(outbox::Request::ReadDisks);
        let status = if failed.len() == 0 {
            "moved marked items to trash".to_owned()
        } else {
            let names = collect_names(failed);
            text::join2("some items failed: ", text::join_texts(&names, ", ").as_str())
        };
        assert(status@ == batch_status(text::texts(failed@)));
        self.reload_saying(status.clone());
        self.refresh_history_state();
        self.out.say_text(status);
    }

    /// What is asked about.
    pub fn pending_delete_name(&self) -> (r: &str)
        ensures
            r@ == match self@.pending_delete {
                Some(target) => target.name(),
                None => "?"@,
            },
    {
        match &self.pending_delete {
            Some(app::DeleteTarget::FileEntry(e)) => e.name.as_str(),
            Some(app::DeleteTarget::Package { name, .. }) => name.as_str(),
            Some(app::DeleteTarget::TopFile { name, .. }) => name.as_str(),
            Some(app::DeleteTarget::ReclaimPath { name, .. }) => name.as_str(),
            Some(app::DeleteTarget::Batch) => "marked items",
            None => "?",
        }
    }
}

// ---------------------------------------------------------------------------
// Moving to the Trash
// ---------------------------------------------------------------------------

/// How an attempt to move a path to the Trash went: what the system could not
/// make or find, or what it said.
#[derive(Debug)]
pub enum TrashAttempt {
    NoString,
    NoUrl,
    NoManager,
    Failed(String),
    Moved,
}

/// Why a path was not moved to the Trash. A path with a null byte in it cannot be
/// named to the system at all.
pub open spec fn trash_problem(path: Seq<char>, attempt: TrashAttempt) -> Option<Seq<char>> {
    if path.contains('\0') {
        Some("path contains a null byte"@)
    } else {
        match attempt {
            TrashAttempt::NoString => Some("could not create NSString for path"@),
            TrashAttempt::NoUrl => Some("could not create file URL for path"@),
            TrashAttempt::NoManager => Some("could not access NSFileManager"@),
            TrashAttempt::Failed(reason) => Some("move to Trash failed: "@ + reason@),
            TrashAttempt::Moved => None,
        }
    }
}

/// What became of a path that was to be moved to the Trash.
pub fn delete_to_trash(path: &str, attempt: TrashAttempt) -> (r: Result<(), String>)
    ensures
        match r {
            Ok(_) => trash_problem(path@, attempt) is None,
            Err(e) => trash_problem(path@, attempt) == Some(e@),
        },
{
    if text::contains_char(path, '\0') {
        return Err("path contains a null byte".to_owned());
    }
    match attempt {
        TrashAttempt::NoString => Err("could not create NSString for path".to_owned()),
        TrashAttempt::NoUrl => Err("could not create file URL for path".to_owned()),
        TrashAttempt::NoManager => Err("could not access NSFileManager".to_owned()),
        TrashAttempt::Failed(reason) => Err(
            text::join2("move to Trash failed: ", reason.as_str()),
        ),
        TrashAttempt::Moved => Ok(()),
    }
}

// ---------------------------------------------------------------------------
// Laws
// ---------------------------------------------------------------------------

/// To ask whether something is to be deleted has nothing done outside.
pub proof fn asking_moves_nothing(v: app::AppV)
    ensures
        v.delete_asked().out.requests == v.out.requests,
        v.asking_batch().out.requests == v.out.requests,
        v.asking_top_file().out.requests == v.out.requests,
        v.asking_reclaim_path().out.requests == v.out.requests,
        v.delete_asked().deleting == v.deleting,
{
}

/// What goes to the Trash on confirmation is what was asked about, whatever is
/// selected by then; without a question nothing goes.
pub proof fn what_was_asked_goes(v: app::AppV)
    ensures
        v.pending_delete is None ==> v.delete_confirmed().out == v.out,
        v.pending_delete is Some && v.pending_delete->0.path() is Some
            ==> v.delete_confirmed().out == v.out.asks(
            outbox::RequestV::Trash { path: v.pending_delete->0.path()->0 },
        ),
        v.pending_delete is Some && v.pending_delete->0.path() is None
            ==> v.delete_confirmed().out == v.out.asks(
            outbox::RequestV::TrashAll { paths: v.files.marked },
        ),
        v.delete_cancelled().out == v.out,
{
}

/// While a question is open, moving, opening, renaming, sorting and a second
/// question change nothing.
pub proof fn questions_are_answered_first(v: app::AppV, n: int)
    requires
        v.confirming_delete,
    ensures
        v.moved(n) == v,
        v.paged(n) == v,
        v.entered() == v,
        v.upwards() == v,
        v.refreshing() == v,
        v.delete_asked() == v,
        v.asking_batch() == v,
{
}

/// Nothing is remembered any more of a file that went to the Trash, of what was
/// in it and of the directories around it.
pub proof fn deleted_paths_are_forgotten(v: app::AppV, k: Seq<char>)
    requires
        v.deleting is Some,
        v.deleting->0.path() is Some,
        cache::is_related(k, v.deleting->0.path()->0),
    ensures
        !v.trashed(None).known.cache.contains_key(k),
{
    cache::invalidation_is_exact(v.known.cache, v.deleting->0.path()->0, k);
}

/// The names of paths: of all that have one, in order.
pub proof fn every_name_is_kept(list: Seq<Seq<char>>)
    ensures
        names_of(list) == list.filter(|e: Seq<char>| paths::name_of(paths::path_of(e)) is Some).map_values(|e: Seq<char>| paths::name_of(paths::path_of(e))->0),
    decreases list.len(),
{
    reveal(Seq::filter);
    let wanted = |e: Seq<char>| paths::name_of(paths::path_of(e)) is Some;
    let shown = |e: Seq<char>| paths::name_of(paths::path_of(e))->0;
    if list.len() == 0 {
        assert(list.filter(wanted).map_values(shown) =~= Seq::<Seq<char>>::empty());
    } else {
        let less = list.drop_last();
        let last = list.last();
        every_name_is_kept(less);
        if wanted(last) {
            assert(list.filter(wanted).map_values(shown) =~= less.filter(wanted).map_values(
                shown,
            ).push(shown(last)));
        }
    }
}

/// The room of marked paths is what the sizes that are remembered of them add up
/// to.
pub proof fn marked_room_adds_up(marks: Seq<Seq<char>>, m: Map<Seq<char>, cache::CacheLine>)
    ensures
        marked_room(marks, m) == sums::added(
            marks,
            |p: Seq<char>|
                if m.contains_key(p) {
                    m[p].size.allocated as int
                } else {
                    0
                },
        ),
    decreases marks.len(),
{
    if marks.len() > 0 {
        marked_room_adds_up(marks.drop_last(), m);
    }
}

/// Of marked paths that were moved nothing is remembered any more, nor of what
/// lay in them or of the directories around them; what could not be moved is
/// remembered as before, unless something near it was moved.
pub proof fn moved_paths_are_forgotten(
    v: app::AppV,
    moved: Seq<Seq<char>>,
    failed: Seq<Seq<char>>,
    k: Seq<char>,
)
    ensures
        v.batch_trashed(moved, failed).known.cache.contains_key(k) <==> v.known.cache.contains_key(
            k,
        ) && !(exists|i: int|
            0 <= i < moved.len() && (paths::lies_under(
                paths::path_of(k),
                paths::path_of(#[trigger] moved[i]),
            ) || paths::lies_under(paths::path_of(moved[i]), paths::path_of(k)))),
        v.batch_trashed(moved, failed).deleting is None,
{
    app::every_path_is_forgotten(v.known, moved, k);
}

} // verus!
