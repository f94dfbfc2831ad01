//! What comes back from outside: sizes, baselines and the saved cache, and what
//! the header says of the baseline.

use crate::app;
use crate::bulkstat;
use crate::cache;
use crate::entries;
use crate::history;
use crate::labels;
use crate::modals;
use crate::outbox;
use crate::packages;
use crate::paths;
use crate::sizes;
use crate::sorting;
use crate::scanner;
use crate::state;
use crate::text;
use vstd::prelude::*;

verus! {

// ---------------------------------------------------------------------------
// Sizes
// ---------------------------------------------------------------------------

impl app::AppV {
    /// A directory was sized. A size is remembered, and shown where the
    /// directory is listed; that of another scan than the latest is dropped.
    pub open spec fn dir_sized(
        self,
        scan_id: u64,
        path: Seq<char>,
        size: bulkstat::SizeInfo,
        inaccessible: u32,
        skipped_mounts: u32,
        scanned_at: u64,
    ) -> app::AppV {
        if scan_id != self.files.active_scan_id {
            self
        } else {
            let line = cache::CacheLine {
                size,
                inaccessible,
                skipped_mounts,
                scanned_at,
                stale: false,
            };
            let files = self.files.sized(path, size, inaccessible, skipped_mounts, scanned_at);
            app::AppV {
                files,
                known: app::KnownV {
                    cache: self.known.cache.insert(path, line),
                    dirty: true,
                    ..self.known
                },
                out: if files.scan_completed < files.scan_total {
                    self.out.says(files.progress("scanned "@, path))
                } else {
                    self.out
                },
                ..self
            }
        }
    }

    /// Something is under way that may change what is shown.
    pub open spec fn is_busy(self) -> bool {
        ||| self.files.sort_dirty
        ||| exists|i: int| 0 <= i < self.files.entries.len() && (#[trigger] self.files.entries[i]).scanning
        ||| self.top.loading
        ||| self.reclaim.loading
        ||| self.disks.info_loading
        ||| self.pkgs.loading
        ||| self.pkgs.deps_loading
        ||| self.pkgs.uninstalling is Some
        ||| self.reclaim.emptying_trash
        ||| self.history.saving
    }

    /// A message of a scan has come; one of an earlier scan changes nothing. The
    /// time is given in seconds from the epoch, which is noted with a size, and
    /// in milliseconds, which is noted with an order.
    pub open spec fn told(self, msg: scanner::MsgModel, secs: u64, now: u64) -> app::AppV {
        match msg {
            scanner::MsgModel::DirStarted { scan_id, path } => if scan_id
                == self.files.active_scan_id {
                self.says(self.files.progress("scanning "@, path))
            } else {
                self
            },
            scanner::MsgModel::DirSize { scan_id, path, size, inaccessible, skipped_mounts } =>
                self.dir_sized(scan_id, path, size, inaccessible, skipped_mounts, secs),
            scanner::MsgModel::AllDone { scan_id } => if scan_id == self.files.active_scan_id {
                (app::AppV {
                    files: if self.files.sort_dirty {
                        self.files.at_rest().resorted(now)
                    } else {
                        self.files.at_rest()
                    },
                    ..self
                }).says("scan complete"@)
            } else {
                self
            },
        }
    }

    /// The message changes what is shown.
    pub open spec fn is_moved_by(self, msg: scanner::MsgModel) -> bool {
        match msg {
            scanner::MsgModel::DirStarted { scan_id, .. } => scan_id == self.files.active_scan_id,
            scanner::MsgModel::DirSize { scan_id, path, .. } => scan_id
                == self.files.active_scan_id && entries::place_of(self.files.entries, path)
                < self.files.entries.len(),
            scanner::MsgModel::AllDone { scan_id } => scan_id == self.files.active_scan_id,
        }
    }

    /// The remembered sizes have waited long enough to be saved.
    pub open spec fn save_due(self, now: u64) -> bool {
        self.known.dirty && now - self.known.last_save >= app::SIZE_CACHE_SAVE_INTERVAL
    }
}

impl app::App {
    /// A directory is being sized.
    pub fn dir_started(&mut self, scan_id: u64, path: &str) -> (changed: bool)
        ensures
            changed == (scan_id == old(self)@.files.active_scan_id),
            final(self)@ == if changed {
                old(self)@.says(old(self)@.files.progress("scanning "@, path@))
            } else {
                old(self)@
            },
    {
        self.files.dir_started(scan_id, path, &mut self.out)
    }

    /// A directory was sized.
    pub fn dir_sized(
        &mut self,
        scan_id: u64,
        path: &str,
        size: bulkstat::SizeInfo,
        inaccessible: u32,
        skipped_mounts: u32,
        scanned_at: u64,
    ) -> (changed: bool)
        ensures
            final(self)@ == old(self)@.dir_sized(
                scan_id,
                path@,
                size,
                inaccessible,
                skipped_mounts,
                scanned_at,
            ),
            changed == (scan_id == old(self)@.files.active_scan_id && entries::place_of(
                old(self)@.files.entries,
                path@,
            ) < old(self)@.files.entries.len()),
    {
        if scan_id != self.files.active_scan_id {
            return false;
        }
        self.known.cache.record(
            path,
            cache::CacheLine { size, inaccessible, skipped_mounts, scanned_at, stale: false },
        );
        self.known.dirty = true;
        self.files.dir_sized(
            scan_id,
            path,
            size,
            inaccessible,
            skipped_mounts,
            scanned_at,
            &mut self.out,
        )
    }

    /// A scan is through.
    pub fn scan_done(&mut self, scan_id: u64, now: u64) -> (changed: bool)
        ensures
            changed == (scan_id == old(self)@.files.active_scan_id),
            final(self)@ == if !changed {
                old(self)@
            } else {
                (app::AppV {
                    files: if old(self)@.files.sort_dirty {
                        old(self)@.files.at_rest().resorted(now)
                    } else {
                        old(self)@.files.at_rest()
                    },
                    ..old(self)@
                }).says("scan complete"@)
            },
    {
        self.files.scan_done(scan_id, now, &mut self.out)
    }

    /// A message of a scan has come. The time is given in seconds from the epoch
    /// and in milliseconds.
    pub fn scan_message(&mut self, msg: scanner::ScanMsg, secs: u64, now: u64) -> (changed: bool)
        ensures
            final(self)@ == old(self)@.told(msg@, secs, now),
            changed == old(self)@.is_moved_by(msg@),
    {
        match msg {
            scanner::ScanMsg::DirStarted { scan_id, path } => self.dir_started(
                scan_id,
                path.as_str(),
            ),
            scanner::ScanMsg::DirSize { scan_id, path, size, inaccessible, skipped_mounts } =>
                self.dir_sized(scan_id, path.as_str(), size, inaccessible, skipped_mounts, secs),
            scanner::ScanMsg::AllDone { scan_id } => self.scan_done(scan_id, now),
        }
    }

    /// How long to wait for a key before looking for results again, in
    /// milliseconds.
    pub fn poll_millis(&self) -> (r: u64)
        ensures
            r == if self@.is_busy() {
                50u64
            } else {
                1000u64
            },
    {
        if self.has_pending_scan_work() {
            50
        } else {
            1000
        }
    }

    /// The volumes were listed.
    pub fn refresh_disks(&mut self, disks: Vec<modals::DiskInfo>)
        ensures
            final(self)@ == (app::AppV {
                disks: modals::DiskPaneV {
                    disks: sorting::views(disks@),
                    selected: outbox::clamped(old(self)@.disks.selected, disks@.len()),
                    ..old(self)@.disks
                },
                ..old(self)@
            }),
    {
        self.disks.refresh_disks(disks);
    }

    pub fn has_pending_scan_work(&self) -> (r: bool)
        ensures
            r == self@.is_busy(),
    {
        self.files.sort_dirty || self.files.is_scanning() || self.top.loading
            || self.reclaim.loading || self.disks.info_loading || self.pkgs.loading
            || self.pkgs.deps_loading || self.pkgs.uninstalling.is_some()
            || self.reclaim.emptying_trash || self.history.saving
    }

    // -----------------------------------------------------------------------
    // The saved sizes
    // -----------------------------------------------------------------------

    pub fn is_save_due(&self, now: u64) -> (r: bool)
        ensures
            r == self@.save_due(now),
    {
        self.known.dirty && now >= self.known.last_save && now - self.known.last_save
            >= app::SIZE_CACHE_SAVE_INTERVAL
    }

    /// The remembered sizes as they are saved, newest first and as many as a
    /// cache holds; nothing where they are saved already.
    pub fn size_cache_entries_for_store(&mut self) -> (r: Option<Vec<state::CachedSize>>)
        ensures
            match r {
                Some(list) => {
                    &&& old(self)@.known.dirty
                    &&& cache::is_saved_form(old(self)@.known.cache, sorting::views(list@))
                    &&& final(self)@ == (app::AppV {
                        known: app::KnownV {
                            cache: old(self)@.known.cache.restrict(
                                cache::saved_paths(sorting::views(list@)),
                            ),
                            ..old(self)@.known
                        },
                        ..old(self)@
                    })
                },
                None => !old(self)@.known.dirty && final(self)@ == old(self)@,
            },
    {
        if !self.known.dirty {
            return None;
        }
        Some(self.known.cache.entries_for_store())
    }

    /// The sizes were saved, or could not be.
    pub fn save_size_cache_result(&mut self, result: Result<(), String>, now: u64)
        ensures
            final(self)@ == match result {
                Ok(_) => app::AppV {
                    known: app::KnownV { dirty: false, last_save: now, ..old(self)@.known },
                    ..old(self)@
                },
                Err(reason) => old(self)@.says("size cache save failed: "@ + reason@),
            },
    {
        match result {
            Ok(_) => {
                self.known.dirty = false;
                self.known.last_save = now;
            },
            Err(reason) => {
                self.out.say_text(text::join2("size cache save failed: ", reason.as_str()));
            },
        }
    }
}

// ---------------------------------------------------------------------------
// Baselines
// ---------------------------------------------------------------------------

/// How long ago, from one time to a later one.
pub open spec fn seconds_between(from: u64, to: u64) -> nat {
    if to >= from {
        (to - from) as nat
    } else {
        0
    }
}

/// A number of bytes with its sign, and nothing for no change.
pub open spec fn delta_text(delta: int) -> Seq<char> {
    if delta > 0 {
        "+"@ + sizes::human_text(bulkstat::capped(delta) as nat)
    } else if delta < 0 {
        "-"@ + sizes::human_text(bulkstat::capped(-delta) as nat)
    } else {
        "±0"@
    }
}

/// A change of room, cut to what 64 bits with a sign hold.
pub open spec fn cut_delta(delta: int) -> i64 {
    if delta > i64::MAX {
        i64::MAX
    } else if delta < i64::MIN {
        i64::MIN
    } else {
        delta as i64
    }
}

/// The change of the first child of a name.
pub open spec fn change_named(changes: Seq<history::ChangeModel>, name: Seq<char>) -> Option<i64>
    decreases changes.len(),
{
    if changes.len() == 0 {
        None
    } else if changes[0].name == name {
        Some(cut_delta(changes[0].allocated_delta()))
    } else {
        change_named(changes.skip(1), name)
    }
}

impl app::AppV {
    /// Asks for a new baseline of the directory at hand.
    pub open spec fn saving_baseline(self) -> app::AppV {
        if self.history.saving {
            self
        } else {
            let scan_id = outbox::next_id(self.history.scan_id);
            (app::AppV {
                history: app::HistoryV { scan_id, saving: true, ..self.history },
                ..self
            }).says("scanning baseline…"@).asks(
                outbox::RequestV::ScanBaseline { scan_id, path: self.files.cwd },
            )
        }
    }

    /// How old the baseline of the directory at hand is.
    pub open spec fn baseline_text(self, now: u64) -> Option<Seq<char>> {
        match self.history.baseline {
            Some(record) => Some(
                "baseline saved "@ + labels::elapsed_text(seconds_between(record.timestamp, now)),
            ),
            None => None,
        }
    }

    /// How much the directory at hand has grown since its baseline.
    pub open spec fn growth_text(self) -> Option<Seq<char>> {
        match self.history.diff {
            Some(diff) => Some(
                delta_text(diff.after_total.allocated - diff.before_total.allocated) + " in "@
                    + labels::elapsed_text(
                    seconds_between(diff.baseline_timestamp, diff.current_timestamp),
                ),
            ),
            None => None,
        }
    }

    /// How much a child of the directory at hand has grown since the baseline.
    pub open spec fn growth_of(self, name: Seq<char>) -> Option<i64> {
        match self.history.diff {
            Some(diff) => change_named(diff.changes, name),
            None => None,
        }
    }

    /// A scan for a baseline is the one that was asked for last, of the
    /// directory at hand.
    pub open spec fn wants_baseline(self, scan_id: u64, path: Seq<char>) -> bool {
        self.history.saving && scan_id == self.history.scan_id && paths::path_of(path)
            == paths::path_of(self.files.cwd)
    }
}

impl app::App {
    /// The baseline of a directory was read. That of another directory than the
    /// one at hand is dropped.
    pub fn history_read(
        &mut self,
        path: &str,
        baseline: Option<history::ScanRecord>,
        diff: Option<history::DiffReport>,
    )
        ensures
            final(self)@ == if path@ != old(self)@.files.cwd {
                old(self)@
            } else {
                app::AppV {
                    history: app::HistoryV {
                        baseline: app::record_view(baseline),
                        diff: if baseline is Some {
                            app::diff_view(diff)
                        } else {
                            None
                        },
                        ..old(self)@.history
                    },
                    ..old(self)@
                }
            },
    {
        if !text::same_text(path, self.files.cwd.as_str()) {
            return ;
        }
        self.history.diff = if baseline.is_some() {
            diff
        } else {
            None
        };
        self.history.baseline = baseline;
    }

    pub fn save_history_baseline(&mut self)
        ensures
            final(self)@ == old(self)@.saving_baseline(),
    {
        if self.history.saving {
            return ;
        }
        self.history.scan_id = self.history.scan_id.saturating_add(1);
        self.history.saving = true;
        self.out.say("scanning baseline…");
        self.out.ask(
            outbox::Request::ScanBaseline {
                scan_id: self.history.scan_id,
                path: self.files.cwd.clone(),
            },
        );
    }

    /// A scan for a baseline came back; whether it is to be saved. One that is
    /// not the latest, or not of the directory at hand, is dropped and never
    /// reaches the disk.
    pub fn baseline_scanned(&mut self, scan_id: u64, record: &history::ScanRecord) -> (save: bool)
        ensures
            save == old(self)@.wants_baseline(scan_id, record@.path),
            final(self)@ == if scan_id == old(self)@.history.scan_id && !save {
                app::AppV {
                    history: app::HistoryV { saving: false, ..old(self)@.history },
                    ..old(self)@
                }
            } else {
                old(self)@
            },
    {
        if scan_id != self.history.scan_id {
            return false;
        }
        if self.history.saving && paths::path_equals(
            record.path.as_str(),
            self.files.cwd.as_str(),
        ) {
            return true;
        }
        self.history.saving = false;
        false
    }

    /// A new baseline was saved, or could not be.
    pub fn baseline_saved(&mut self, record: history::ScanRecord, result: Result<(), String>)
        ensures
            final(self)@ == match result {
                Ok(_) => (app::AppV {
                    history: app::HistoryV {
                        baseline: Some(record@),
                        diff: None,
                        saving: false,
                        ..old(self)@.history
                    },
                    ..old(self)@
                }).says("baseline saved"@),
                Err(reason) => (app::AppV {
                    history: app::HistoryV { saving: false, ..old(self)@.history },
                    ..old(self)@
                }).says("baseline save failed: "@ + reason@),
            },
    {
        self.history.saving = false;
        match result {
            Ok(_) => {
                self.history.baseline = Some(record);
                self.history.diff = None;
                self.out.say("baseline saved");
            },
            Err(reason) => {
                self.out.say_text(text::join2("baseline save failed: ", reason.as_str()));
            },
        }
    }

    /// A scan for a baseline broke off.
    pub fn baseline_failed(&mut self, scan_id: u64, reason: &str)
        ensures
            final(self)@ == if scan_id == old(self)@.history.scan_id && old(self)@.history.saving {
                (app::AppV {
                    history: app::HistoryV { saving: false, ..old(self)@.history },
                    ..old(self)@
                }).says("baseline save failed: "@ + reason@)
            } else {
                old(self)@
            },
    {
        if scan_id != self.history.scan_id || !self.history.saving {
            return ;
        }
        self.history.saving = false;
        self.out.say_text(text::join2("baseline save failed: ", reason));
    }

    /// How old the baseline of the directory at hand is.
    pub fn history_baseline_status(&self, now_secs: u64) -> (r: Option<String>)
        ensures
            packages::opt_text(r) == self@.baseline_text(now_secs),
    {
        match &self.history.baseline {
            Some(record) => {
                let age: u64 = now_secs.saturating_sub(record.timestamp);
                Some(text::join2("baseline saved ", labels::format_elapsed(age).as_str()))
            },
            None => None,
        }
    }

    /// How much the directory at hand has grown since its baseline.
    pub fn history_delta_status(&self) -> (r: Option<String>)
        ensures
            packages::opt_text(r) == self@.growth_text(),
    {
        match &self.history.diff {
            Some(diff) => {
                let delta: i128 = diff.total_delta_allocated();
                let label = if delta > 0 {
                    text::join2("+", sizes::human(delta as u64).as_str())
                } else if delta < 0 {
                    text::join2("-", sizes::human((-delta) as u64).as_str())
                } else {
                    "±0".to_owned()
                };
                let age = labels::format_elapsed(
                    diff.current_timestamp.saturating_sub(diff.baseline_timestamp),
                );
                Some(text::join3(label.as_str(), " in ", age.as_str()))
            },
            None => None,
        }
    }

    /// How much a child of the directory at hand has grown since the baseline.
    pub fn size_delta(&self, name: &str) -> (r: Option<i64>)
        ensures
            r == self@.growth_of(name@),
    {
        match &self.history.diff {
            Some(diff) => find_change(&diff.changes, name),
            None => None,
        }
    }
}

fn cut(delta: i128) -> (r: i64)
    ensures
        r == cut_delta(delta as int),
{
    if delta > i64::MAX as i128 {
        i64::MAX
    } else if delta < i64::MIN as i128 {
        i64::MIN
    } else {
        delta as i64
    }
}

fn find_change(changes: &Vec<history::ChildChange>, name: &str) -> (r: Option<i64>)
    ensures
        r == change_named(sorting::views(changes@), name@),
{
    let ghost all = sorting::views(changes@);
    let mut i: usize = 0;
    assert(all.skip(0) =~= all);
    while i < changes.len()
        invariant
            i <= changes@.len(),
            all == sorting::views(changes@),
            change_named(all, name@) == change_named(all.skip(i as int), name@),
        decreases changes@.len() - i,
    {
        assert(all.skip(i as int)[0] == changes@[i as int]@);
        assert(all.skip(i as int).skip(1) =~= all.skip(i + 1));
        if text::same_text(changes[i].name.as_str(), name) {
            return Some(cut(changes[i].delta_allocated()));
        }
        i += 1;
    }
    assert(all.skip(i as int).len() == 0);
    None
}

// ---------------------------------------------------------------------------
// Laws
// ---------------------------------------------------------------------------

/// A size that came in is remembered fresh, and what is remembered of all other
/// paths stays.
pub proof fn sizes_are_remembered(
    v: app::AppV,
    path: Seq<char>,
    size: bulkstat::SizeInfo,
    inaccessible: u32,
    skipped_mounts: u32,
    at: u64,
    other: Seq<char>,
)
    requires
        other != path,
    ensures
        ({
            let after = v.dir_sized(
                v.files.active_scan_id,
                path,
                size,
                inaccessible,
                skipped_mounts,
                at,
            ).known;
            &&& after.dirty
            &&& after.cache.contains_key(path)
            &&& after.cache[path].size == size
            &&& !after.cache[path].stale
            &&& after.cache.contains_key(other) == v.known.cache.contains_key(other)
            &&& after.cache.contains_key(other) ==> after.cache[other] == v.known.cache[other]
        }),
{
}

/// What comes back from a scan that another has replaced changes nothing.
pub proof fn late_sizes_are_dropped(
    v: app::AppV,
    scan_id: u64,
    path: Seq<char>,
    size: bulkstat::SizeInfo,
    inaccessible: u32,
    skipped_mounts: u32,
    at: u64,
)
    requires
        scan_id != v.files.active_scan_id,
    ensures
        v.dir_sized(scan_id, path, size, inaccessible, skipped_mounts, at) == v,
{
}

/// A baseline that was scanned for another directory than the one at hand, or
/// before another was asked for, is never saved.
pub proof fn late_baselines_are_not_saved(v: app::AppV, scan_id: u64, path: Seq<char>)
    requires
        scan_id != v.history.scan_id || paths::path_of(path) != paths::path_of(v.files.cwd),
    ensures
        !v.wants_baseline(scan_id, path),
{
}

/// The growth of a child is what the first change of its name says: the room
/// after less the room before, as far as 64 bits hold it; none where no change
/// has its name.
pub proof fn growth_is_the_difference(
    changes: Seq<history::ChangeModel>,
    name: Seq<char>,
    i: int,
)
    ensures
        0 <= i < changes.len() && changes[i].name == name && (forall|k: int|
            0 <= k < i ==> (#[trigger] changes[k]).name != name) ==> ({
            let room = |size: Option<bulkstat::SizeInfo>|
                if size is Some {
                    size->0.allocated as int
                } else {
                    0
                };
            let d = room(changes[i].after) - room(changes[i].before);
            &&& change_named(changes, name) is Some
            &&& i64::MIN <= d <= i64::MAX ==> change_named(changes, name)->0 == d
            &&& d > i64::MAX ==> change_named(changes, name)->0 == i64::MAX
            &&& d < i64::MIN ==> change_named(changes, name)->0 == i64::MIN
        }),
        (forall|k: int| 0 <= k < changes.len() ==> (#[trigger] changes[k]).name != name)
            ==> change_named(changes, name) is None,
    decreases changes.len(),
{
    if changes.len() > 0 {
        let rest = changes.skip(1);
        growth_is_the_difference(rest, name, i - 1);
        assert forall|k: int| 0 <= k < rest.len() implies #[trigger] rest[k] == changes[k + 1] by {}
        if i > 0 && i < changes.len() {
            assert(rest[i - 1] == changes[i]);
        }
        if forall|k: int| 0 <= k < i ==> (#[trigger] changes[k]).name != name {
            assert forall|k: int| 0 <= k < i - 1 && k < rest.len() implies (#[trigger] rest[k]).name
                != name by {
                assert(changes[k + 1].name != name);
            }
            if i > 0 {
                assert(changes[0].name != name);
            }
        }
        if forall|k: int| 0 <= k < changes.len() ==> (#[trigger] changes[k]).name != name {
            assert forall|k: int| 0 <= k < rest.len() implies (#[trigger] rest[k]).name != name by {
                assert(changes[k + 1].name != name);
            }
            assert(changes[0].name != name);
        }
    }
}

/// Once the latest scan is over the entries are in order, whatever sizes have
/// come; the end of an earlier scan changes nothing.
pub proof fn a_finished_scan_leaves_an_order(v: app::AppV, scan_id: u64, secs: u64, now: u64)
    ensures
        ({
            let after = v.told(scanner::MsgModel::AllDone { scan_id }, secs, now);
            &&& scan_id == v.files.active_scan_id ==> !after.files.sort_dirty
            &&& scan_id == v.files.active_scan_id && v.files.sort_dirty ==> after.files.entries
                == entries::sorted_entries(v.files.sort, v.files.at_rest().entries)
            &&& scan_id != v.files.active_scan_id ==> after == v
        }),
{
}

/// Remembered sizes are saved only where they have changed, and then as soon as
/// the interval since the last time is over, and from then on.
pub proof fn saving_waits_for_the_interval(v: app::AppV, now: u64, later: u64)
    ensures
        v.save_due(now) ==> v.known.dirty,
        v.known.dirty && now >= v.known.last_save + app::SIZE_CACHE_SAVE_INTERVAL ==> v.save_due(
            now,
        ),
        now < v.known.last_save + app::SIZE_CACHE_SAVE_INTERVAL ==> !v.save_due(now),
        now <= later && v.save_due(now) ==> v.save_due(later),
{
}

/// The time between two is what the first takes to reach the second; a growth is
/// told with a plus, a loss with a minus, by its bytes.
pub proof fn spans_and_changes_are_told(from: u64, to: u64, bytes: u64)
    ensures
        from <= to ==> from + seconds_between(from, to) == to,
        from > to ==> seconds_between(from, to) == 0,
        bytes > 0 ==> delta_text(bytes as int) == "+"@ + sizes::human_text(bytes as nat),
        bytes > 0 ==> delta_text(-(bytes as int)) == "-"@ + sizes::human_text(bytes as nat),
{
}

} // verus!
