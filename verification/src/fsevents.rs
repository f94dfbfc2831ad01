//! Which cached sizes are still good, by what the file system reports to have
//! changed since the last run.

use crate::history;
use crate::json;
use crate::paths;
use crate::sums;
use crate::text;
use vstd::prelude::*;

verus! {

pub const STATE_VERSION: u64 = 1;

pub const FS_FLAG_MUST_SCAN_SUBDIRS: u32 = 0x0000_0001;

pub const FS_FLAG_USER_DROPPED: u32 = 0x0000_0002;

pub const FS_FLAG_KERNEL_DROPPED: u32 = 0x0000_0004;

pub const FS_FLAG_EVENT_IDS_WRAPPED: u32 = 0x0000_0008;

pub const FS_FLAG_HISTORY_DONE: u32 = 0x0000_0010;

pub const FS_FLAG_ROOT_CHANGED: u32 = 0x0000_0020;

pub const FS_FLAG_MOUNT: u32 = 0x0000_0040;

pub const FS_FLAG_UNMOUNT: u32 = 0x0000_0080;

/// What the events of the last run's absence say about the cached sizes.
#[derive(Debug)]
pub enum Freshness {
    /// The events cannot be trusted: every cached size is stale.
    All,
    /// Only directories with a change inside them, and those outside the watched
    /// root, are stale.
    Touched { watched_root: String, changed: Vec<String> },
}

#[verifier::ext_equal]
pub enum FreshnessModel {
    All,
    Touched { watched_root: Seq<char>, changed: Seq<Seq<char>> },
}

impl View for Freshness {
    type V = FreshnessModel;

    open spec fn view(&self) -> FreshnessModel {
        match self {
            Freshness::All => FreshnessModel::All,
            Freshness::Touched { watched_root, changed } => FreshnessModel::Touched {
                watched_root: watched_root@,
                changed: text::texts(changed@),
            },
        }
    }
}

/// Some change happened in `dir` or below it.
pub open spec fn touched(changed: Seq<Seq<char>>, dir: Seq<char>) -> bool {
    exists|i: int|
        0 <= i < changed.len() && paths::lies_under(
            #[trigger] paths::path_of(changed[i]),
            paths::path_of(dir),
        )
}

/// A directory's cached size is to be taken as stale.
pub open spec fn stale(freshness: FreshnessModel, dir: Seq<char>) -> bool {
    match freshness {
        FreshnessModel::All => true,
        FreshnessModel::Touched { watched_root, changed } => !paths::lies_under(
            paths::path_of(dir),
            paths::path_of(watched_root),
        ) || touched(changed, dir),
    }
}

impl Freshness {
    /// Whether a directory's cached size is to be taken as stale.
    pub fn is_stale(&self, dir: &str) -> (r: bool)
        ensures
            r == stale(self@, dir@),
    {
        match self {
            Freshness::All => true,
            Freshness::Touched { watched_root, changed } => {
                if !paths::path_starts_with(dir, watched_root.as_str()) {
                    return true;
                }
                let ghost all = text::texts(changed@);
                let mut i: usize = 0;
                while i < changed.len()
                    invariant
                        i <= changed@.len(),
                        all == text::texts(changed@),
                        self@ == (FreshnessModel::Touched {
                            watched_root: watched_root@,
                            changed: all,
                        }),
                        forall|k: int|
                            0 <= k < i ==> !paths::lies_under(
                                #[trigger] paths::path_of(all[k]),
                                paths::path_of(dir@),
                            ),
                    decreases changed@.len() - i,
                {
                    assert(all[i as int] == changed@[i as int]@);
                    if paths::path_starts_with(changed[i].as_str(), dir) {
                        assert(paths::lies_under(
                            paths::path_of(all[i as int]),
                            paths::path_of(dir@),
                        ));
                        return true;
                    }
                    i += 1;
                }
                false
            },
        }
    }
}

// ---------------------------------------------------------------------------
// The state between runs
// ---------------------------------------------------------------------------

/// The volume and the last event that were seen.
#[derive(Debug)]
pub struct SavedState {
    pub volume_uuid: String,
    pub last_event_id: u64,
}

#[verifier::ext_equal]
pub struct SavedModel {
    pub volume_uuid: Seq<char>,
    pub last_event_id: u64,
}

impl View for SavedState {
    type V = SavedModel;

    open spec fn view(&self) -> SavedModel {
        SavedModel { volume_uuid: self.volume_uuid@, last_event_id: self.last_event_id }
    }
}

/// The state as it is saved.
pub open spec fn state_json(state: SavedModel) -> json::Json {
    json::Json::Object(
        json::object_of(
            seq![
                ("version"@, json::Json::Unsigned(STATE_VERSION)),
                ("volume_uuid"@, json::Json::Text(state.volume_uuid)),
                ("last_event_id"@, json::Json::Unsigned(state.last_event_id)),
            ],
        ),
    )
}

/// The state that a JSON value describes; none where it has another version or
/// lacks a part.
pub open spec fn state_from(value: json::Json) -> Option<SavedModel> {
    let uuid = json::text_member(value, "volume_uuid"@);
    let id = json::number_member(value, "last_event_id"@);
    if json::number_member(value, "version"@) == Some(STATE_VERSION) && uuid is Some && id is Some {
        Some(SavedModel { volume_uuid: uuid->0, last_event_id: id->0 })
    } else {
        None
    }
}

/// The state in a file.
pub open spec fn state_of(file: Option<Seq<char>>) -> Option<SavedModel> {
    match file {
        None => None,
        Some(t) => match json::json_parsed(t) {
            None => None,
            Some(value) => state_from(value),
        },
    }
}

pub open spec fn loaded(r: Option<SavedState>) -> Option<SavedModel> {
    match r {
        Some(s) => Some(s@),
        None => None,
    }
}

/// The state that a parsed JSON value describes.
pub fn state_from_json(value: &serde_json::Value) -> (r: Option<SavedState>)
    ensures
        loaded(r) == state_from(json::json_model(*value)),
{
    match json::get_number(value, "version") {
        Some(version) => {
            if version != STATE_VERSION {
                return None;
            }
        },
        None => return None,
    }
    let volume_uuid = match json::get_text(value, "volume_uuid") {
        Some(t) => t.to_owned(),
        None => return None,
    };
    match json::get_number(value, "last_event_id") {
        Some(last_event_id) => Some(SavedState { volume_uuid, last_event_id }),
        None => None,
    }
}

/// The state in a file.
pub fn load_state(file: Option<&str>) -> (r: Option<SavedState>)
    ensures
        loaded(r) == state_of(history::view_of(file)),
{
    match file {
        None => None,
        Some(t) => match json::parse(t) {
            None => None,
            Some(value) => state_from_json(&value),
        },
    }
}

/// The text of a state file, from which the state is read back.
pub fn save_state(volume_uuid: &str, last_event_id: u64) -> (r: String)
    ensures
        ({
            let state = SavedModel { volume_uuid: volume_uuid@, last_event_id };
            r@ == json::json_pretty(state_json(state)) && state_of(Some(r@)) == Some(state)
        }),
{
    let mut pairs = json::no_members();
    json::put(&mut pairs, "version", json::of_number(STATE_VERSION));
    json::put(&mut pairs, "volume_uuid", json::of_text(volume_uuid));
    json::put(&mut pairs, "last_event_id", json::of_number(last_event_id));
    let ghost state = SavedModel { volume_uuid: volume_uuid@, last_event_id };
    assert(json::pair_models(pairs@) =~= seq![
        ("version"@, json::Json::Unsigned(STATE_VERSION)),
        ("volume_uuid"@, json::Json::Text(state.volume_uuid)),
        ("last_event_id"@, json::Json::Unsigned(state.last_event_id)),
    ]);
    let value = json::of_members(pairs);
    proof {
        state_survives_json(state);
    }
    json::pretty(&value)
}

// ---------------------------------------------------------------------------
// Replaying events
// ---------------------------------------------------------------------------

/// What was learned from the replayed events so far.
#[derive(Debug)]
pub struct Replay {
    pub changed_dirs: Vec<String>,
    pub history_done: bool,
    pub reliable: bool,
}

#[verifier::ext_equal]
pub struct ReplayModel {
    pub changed_dirs: Seq<Seq<char>>,
    pub history_done: bool,
    pub reliable: bool,
}

impl View for Replay {
    type V = ReplayModel;

    open spec fn view(&self) -> ReplayModel {
        ReplayModel {
            changed_dirs: text::texts(self.changed_dirs@),
            history_done: self.history_done,
            reliable: self.reliable,
        }
    }
}

/// The flags of an event say that changes may have been missed.
pub open spec fn is_unreliable(flags: u32) -> bool {
    ||| flags & FS_FLAG_MUST_SCAN_SUBDIRS != 0
    ||| flags & FS_FLAG_USER_DROPPED != 0
    ||| flags & FS_FLAG_KERNEL_DROPPED != 0
    ||| flags & FS_FLAG_EVENT_IDS_WRAPPED != 0
    ||| flags & FS_FLAG_ROOT_CHANGED != 0
    ||| flags & FS_FLAG_MOUNT != 0
    ||| flags & FS_FLAG_UNMOUNT != 0
}

/// What is known after one more event. The event that ends the history carries
/// no change; an event without a path only tells about reliability.
pub open spec fn with_event(replay: ReplayModel, flags: u32, path: Seq<char>) -> ReplayModel {
    if flags & FS_FLAG_HISTORY_DONE != 0 {
        ReplayModel { history_done: true, ..replay }
    } else {
        ReplayModel {
            reliable: replay.reliable && !is_unreliable(flags),
            changed_dirs: if path.len() > 0 {
                replay.changed_dirs.push(path)
            } else {
                replay.changed_dirs
            },
            ..replay
        }
    }
}

impl Replay {
    pub fn new() -> (r: Replay)
        ensures
            r@ == (ReplayModel {
                changed_dirs: Seq::empty(),
                history_done: false,
                reliable: true,
            }),
    {
        let r = Replay { changed_dirs: Vec::new(), history_done: false, reliable: true };
        assert(r@.changed_dirs =~= Seq::<Seq<char>>::empty());
        r
    }

    /// Takes in one event.
    pub fn note(&mut self, flags: u32, path: &str)
        ensures
            final(self)@ == with_event(old(self)@, flags, path@),
    {
        if flags & FS_FLAG_HISTORY_DONE != 0 {
            self.history_done = true;
            return ;
        }
        if flags & FS_FLAG_MUST_SCAN_SUBDIRS != 0 || flags & FS_FLAG_USER_DROPPED != 0 || flags
            & FS_FLAG_KERNEL_DROPPED != 0 || flags & FS_FLAG_EVENT_IDS_WRAPPED != 0 || flags
            & FS_FLAG_ROOT_CHANGED != 0 || flags & FS_FLAG_MOUNT != 0 || flags & FS_FLAG_UNMOUNT
            != 0 {
            self.reliable = false;
        }
        if !path.is_empty() {
            let dir = path.to_owned();
            proof {
                text::texts_push(self.changed_dirs@, dir);
            }
            self.changed_dirs.push(dir);
        }
    }
}

/// The events since the saved one are worth replaying: the volume is the same
/// and events have happened since.
pub open spec fn can_replay(saved: Option<SavedModel>, uuid: Seq<char>, now_id: u64) -> bool {
    saved is Some && saved->0.volume_uuid == uuid && saved->0.last_event_id > 0
        && saved->0.last_event_id < now_id
}

/// The event from which to replay, where that is possible.
pub fn replay_since(saved: &Option<SavedState>, uuid: &str, now_id: u64) -> (r: Option<u64>)
    ensures
        r == if can_replay(loaded(*saved), uuid@, now_id) {
            Some(loaded(*saved)->0.last_event_id)
        } else {
            None
        },
{
    match saved {
        Some(s) => if text::same_text(s.volume_uuid.as_str(), uuid) && s.last_event_id > 0
            && s.last_event_id < now_id {
            Some(s.last_event_id)
        } else {
            None
        },
        None => None,
    }
}

/// What a replay says about the cached sizes: nothing to be trusted unless it
/// reached the end of the history and missed nothing.
pub open spec fn freshness_of(root: Seq<char>, replay: Option<ReplayModel>) -> FreshnessModel {
    match replay {
        Some(r) => if r.history_done && r.reliable {
            FreshnessModel::Touched { watched_root: root, changed: r.changed_dirs }
        } else {
            FreshnessModel::All
        },
        None => FreshnessModel::All,
    }
}

pub open spec fn replayed(r: Option<Replay>) -> Option<ReplayModel> {
    match r {
        Some(replay) => Some(replay@),
        None => None,
    }
}

/// Decides which cached sizes are stale, from what was saved by the last run and
/// what a replay of the events since then found; no replay is given where none
/// could be made.
pub fn plan_freshness(
    root: &str,
    uuid: &str,
    now_id: u64,
    saved: &Option<SavedState>,
    replay: Option<Replay>,
) -> (r: Freshness)
    ensures
        r@ == if can_replay(loaded(*saved), uuid@, now_id) {
            freshness_of(root@, replayed(replay))
        } else {
            FreshnessModel::All
        },
{
    if replay_since(saved, uuid, now_id).is_none() {
        return Freshness::All;
    }
    replay_into_freshness(root, replay)
}

pub fn replay_into_freshness(root: &str, replay: Option<Replay>) -> (r: Freshness)
    ensures
        r@ == freshness_of(root@, replayed(replay)),
{
    match replay {
        Some(found) => if found.history_done && found.reliable {
            Freshness::Touched { watched_root: root.to_owned(), changed: found.changed_dirs }
        } else {
            Freshness::All
        },
        None => Freshness::All,
    }
}

// ---------------------------------------------------------------------------
// Laws
// ---------------------------------------------------------------------------

proof fn state_survives_json(state: SavedModel)
    ensures
        state_from(state_json(state)) == Some(state),
        json::is_plain(state_json(state), 127),
{
    reveal_strlit("version");
    reveal_strlit("volume_uuid");
    reveal_strlit("last_event_id");
    assert("version"@.len() == 7 && "volume_uuid"@.len() == 11 && "last_event_id"@.len() == 13);
    let a = ("version"@, json::Json::Unsigned(STATE_VERSION));
    let b = ("volume_uuid"@, json::Json::Text(state.volume_uuid));
    let c = ("last_event_id"@, json::Json::Unsigned(state.last_event_id));
    assert(seq![a, b, c].drop_last() =~= seq![a, b]);
    assert(seq![a, b].drop_last() =~= seq![a]);
    assert(seq![a].drop_last() =~= Seq::<(Seq<char>, json::Json)>::empty());
    reveal_with_fuel(json::object_of, 4);
    let m = json::object_of(seq![a, b, c]);
    assert forall|k: Seq<char>| m.contains_key(k) implies json::is_plain(
        #[trigger] m[k],
        126,
    ) by {}
}

/// A change makes its own directory and every directory above it stale.
pub proof fn ancestors_of_a_change_are_stale(
    root: Seq<char>,
    changed: Seq<Seq<char>>,
    i: int,
    dir: Seq<char>,
)
    requires
        0 <= i < changed.len(),
        paths::lies_under(paths::path_of(changed[i]), paths::path_of(dir)),
    ensures
        stale(FreshnessModel::Touched { watched_root: root, changed }, dir),
{
}

/// A directory that is not stale lies under the watched root and holds no
/// reported change.
pub proof fn fresh_directories_are_untouched(freshness: FreshnessModel, dir: Seq<char>, i: int)
    requires
        !stale(freshness, dir),
        0 <= i < freshness->changed.len(),
    ensures
        freshness is Touched,
        paths::lies_under(paths::path_of(dir), paths::path_of(freshness->watched_root)),
        !paths::lies_under(paths::path_of(freshness->changed[i]), paths::path_of(dir)),
{
}

/// A stale directory makes every directory above it stale as well.
pub proof fn staleness_spreads_upwards(freshness: FreshnessModel, dir: Seq<char>, above: Seq<char>)
    requires
        stale(freshness, dir),
        paths::lies_under(paths::path_of(dir), paths::path_of(above)),
    ensures
        stale(freshness, above),
{
    match freshness {
        FreshnessModel::All => {},
        FreshnessModel::Touched { watched_root, changed } => {
            let (d, a, w) = (
                paths::path_of(dir),
                paths::path_of(above),
                paths::path_of(watched_root),
            );
            paths::lies_under_is_partial_order(d, a, w);
            if touched(changed, dir) {
                let i = choose|i: int|
                    0 <= i < changed.len() && paths::lies_under(
                        #[trigger] paths::path_of(changed[i]),
                        d,
                    );
                paths::lies_under_is_partial_order(paths::path_of(changed[i]), d, a);
                assert(paths::lies_under(paths::path_of(changed[i]), a));
            }
        },
    }
}

/// Nothing is taken as fresh on the word of a replay that was cut short or
/// missed events.
pub proof fn doubtful_replays_are_not_trusted(
    root: Seq<char>,
    replay: ReplayModel,
    dir: Seq<char>,
)
    requires
        !(replay.history_done && replay.reliable),
    ensures
        stale(freshness_of(root, Some(replay)), dir),
{
}

/// An event of a replay: its flags and the path that it names.
pub struct ReplayEvent {
    pub flags: u32,
    pub path: Seq<char>,
}

/// A replay after some events.
pub open spec fn replay_of(events: Seq<ReplayEvent>) -> ReplayModel
    decreases events.len(),
{
    if events.len() == 0 {
        ReplayModel { changed_dirs: Seq::empty(), history_done: false, reliable: true }
    } else {
        with_event(replay_of(events.drop_last()), events.last().flags, events.last().path)
    }
}

/// The event names a change: it does not end the history, and it has a path.
pub open spec fn names_a_change(event: ReplayEvent) -> bool {
    event.flags & 0x10u32 == 0 && event.path.len() > 0
}

/// A replay gathers the paths of all events that name a change, in order, and of
/// no others. It has reached the end of the history once an event says so, and it
/// can be trusted as long as none of the others says that something was missed,
/// dropped, mounted or moved.
pub proof fn a_replay_gathers_every_change(events: Seq<ReplayEvent>)
    ensures
        ({
            let r = replay_of(events);
            &&& r.changed_dirs == events.filter(|e: ReplayEvent| names_a_change(e)).map_values(
                |e: ReplayEvent| e.path,
            )
            &&& r.history_done <==> exists|i: int|
                0 <= i < events.len() && (#[trigger] events[i]).flags & 0x10u32 != 0
            &&& r.reliable <==> forall|i: int|
                0 <= i < events.len() && (#[trigger] events[i]).flags & 0x10u32 == 0
                    ==> events[i].flags & 0xefu32 == 0
        }),
    decreases events.len(),
{
    reveal(Seq::filter);
    let named = |e: ReplayEvent| names_a_change(e);
    let path = |e: ReplayEvent| e.path;
    let r = replay_of(events);
    if events.len() == 0 {
        assert(events.filter(named).map_values(path) =~= Seq::<Seq<char>>::empty());
    } else {
        let less = events.drop_last();
        let last = events.last();
        let flags = last.flags;
        a_replay_gathers_every_change(less);
        if names_a_change(last) {
            assert(events.filter(named).map_values(path) =~= less.filter(named).map_values(
                path,
            ).push(last.path));
        }
        assert((flags & 0xefu32 == 0) == (flags & 1u32 == 0 && flags & 2u32 == 0 && flags & 4u32
            == 0 && flags & 8u32 == 0 && flags & 0x20u32 == 0 && flags & 0x40u32 == 0 && flags
            & 0x80u32 == 0)) by (bit_vector);
        assert(events[events.len() - 1] == last);
        assert(r.history_done == (replay_of(less).history_done || flags & 0x10u32 != 0));
        assert(r.reliable == (replay_of(less).reliable && (flags & 0x10u32 != 0 || flags & 0xefu32
            == 0)));
        if replay_of(less).history_done {
            let i = choose|i: int| 0 <= i < less.len() && (#[trigger] less[i]).flags & 0x10u32 != 0;
            assert(events[i] == less[i]);
        }
        if exists|i: int| 0 <= i < events.len() && (#[trigger] events[i]).flags & 0x10u32 != 0 {
            let i = choose|i: int|
                0 <= i < events.len() && (#[trigger] events[i]).flags & 0x10u32 != 0;
            if i < less.len() {
                assert(events[i] == less[i]);
            }
        }
        if r.reliable {
            assert forall|i: int|
                0 <= i < events.len() && (#[trigger] events[i]).flags & 0x10u32
                    == 0 implies events[i].flags & 0xefu32 == 0 by {
                if i < less.len() {
                    assert(events[i] == less[i]);
                }
            }
        }
        if forall|i: int|
            0 <= i < events.len() && (#[trigger] events[i]).flags & 0x10u32 == 0 ==> events[i].flags
                & 0xefu32 == 0 {
            assert forall|i: int|
                0 <= i < less.len() && (#[trigger] less[i]).flags & 0x10u32 == 0 implies less[i].flags
                & 0xefu32 == 0 by {
                assert(less[i] == events[i]);
            }
        }
    }
}

/// Every directory with a change inside it is stale after a replay, and so is
/// every directory outside the watched root; where the replay can be trusted,
/// no other is.
pub proof fn directories_with_changes_are_stale(
    root: Seq<char>,
    events: Seq<ReplayEvent>,
    dir: Seq<char>,
)
    ensures
        ({
            let f = freshness_of(root, Some(replay_of(events)));
            let inside = exists|i: int|
                0 <= i < events.len() && names_a_change(#[trigger] events[i]) && paths::lies_under(
                    paths::path_of(events[i].path),
                    paths::path_of(dir),
                );
            let outside = !paths::lies_under(paths::path_of(dir), paths::path_of(root));
            let trusted = (exists|i: int|
                0 <= i < events.len() && (#[trigger] events[i]).flags & 0x10u32 != 0) && (forall|
                i: int,
            |
                0 <= i < events.len() && (#[trigger] events[i]).flags & 0x10u32 == 0
                    ==> events[i].flags & 0xefu32 == 0);
            stale(f, dir) <==> (!trusted || outside || inside)
        }),
{
    a_replay_gathers_every_change(events);
    let changed = replay_of(events).changed_dirs;
    let named = |e: ReplayEvent| names_a_change(e);
    let kept = events.filter(named);
    if exists|i: int|
        0 <= i < events.len() && names_a_change(#[trigger] events[i]) && paths::lies_under(
            paths::path_of(events[i].path),
            paths::path_of(dir),
        ) {
        let i = choose|i: int|
            0 <= i < events.len() && names_a_change(#[trigger] events[i]) && paths::lies_under(
                paths::path_of(events[i].path),
                paths::path_of(dir),
            );
        events.lemma_filter_contains(named, i);
        let k = choose|k: int| 0 <= k < kept.len() && kept[k] == events[i];
        assert(changed[k] == events[i].path);
        assert(touched(changed, dir));
    }
    if touched(changed, dir) {
        let k = choose|k: int|
            0 <= k < changed.len() && paths::lies_under(
                #[trigger] paths::path_of(changed[k]),
                paths::path_of(dir),
            );
        let i = sums::filtered_from(events, named, k);
        assert(names_a_change(events[i]));
    }
}

/// Events are replayed only from a saved event of the same volume that lies
/// before the present one: nothing saved, another volume, or an event that is not
/// earlier gives no replay, and everything is then taken as stale.
pub proof fn only_later_events_are_replayed(state: SavedModel, uuid: Seq<char>, now_id: u64)
    ensures
        !can_replay(None, uuid, now_id),
        state.volume_uuid != uuid ==> !can_replay(Some(state), uuid, now_id),
        state.last_event_id >= now_id ==> !can_replay(Some(state), uuid, now_id),
        state.last_event_id == 0 ==> !can_replay(Some(state), uuid, now_id),
        state.volume_uuid == uuid && 0 < state.last_event_id < now_id ==> can_replay(
            Some(state),
            uuid,
            now_id,
        ),
{
}

} // verus!
