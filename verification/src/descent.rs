//! Searches that go down from a directory: what waits is handed out, and the
//! subdirectories of what was looked at wait in turn. What such a search reaches
//! is the same in whichever order its steps come.

use crate::paths;
use crate::sums;
use vstd::prelude::*;

verus! {

/// Where a search begins, how deep it goes, and the names of the directories
/// that it goes into.
pub struct Descent {
    pub root: Seq<char>,
    pub max_depth: nat,
    pub enters: spec_fn(Seq<char>) -> bool,
}

/// A subdirectory that was met in a directory at some depth.
#[verifier::ext_equal]
pub struct MetDir {
    pub dir: Seq<char>,
    pub depth: nat,
    pub name: Seq<char>,
}

impl MetDir {
    /// The path of the subdirectory.
    pub open spec fn path(self) -> Seq<char> {
        paths::join_text(self.dir, self.name)
    }
}

/// The subdirectories of a directory as they are met there.
pub open spec fn met_in(dir: (Seq<char>, nat), names: Seq<Seq<char>>) -> Seq<MetDir> {
    names.map_values(|n: Seq<char>| MetDir { dir: dir.0, depth: dir.1, name: n })
}

/// Names as a file system lists them: no two of them alike.
pub open spec fn is_listing(names: Seq<Seq<char>>) -> bool {
    &&& forall|i: int| 0 <= i < names.len() ==> paths::is_entry_name(#[trigger] names[i])
    &&& names.no_duplicates()
}

impl Descent {
    /// A subdirectory that is gone into.
    pub open spec fn goes_into(self, met: MetDir) -> bool {
        met.depth < self.max_depth && (self.enters)(met.name)
    }

    /// The subdirectories that are gone into, with their depths.
    pub open spec fn entered(self, met: Seq<MetDir>) -> Seq<(Seq<char>, nat)>
        decreases met.len(),
    {
        if met.len() == 0 {
            Seq::empty()
        } else {
            let before = self.entered(met.drop_last());
            let m = met.last();
            if self.goes_into(m) {
                before.push((m.path(), m.depth + 1))
            } else {
                before
            }
        }
    }

    /// The directories that a search knows of: the root, and the subdirectories
    /// that are gone into.
    pub open spec fn known(self, met: Seq<MetDir>) -> Seq<(Seq<char>, nat)> {
        seq![(self.root, 0nat)] + self.entered(met)
    }
}

/// A step of a search.
pub enum DescentEvent {
    /// The directory that waits last was handed out.
    Took,
    /// The subdirectories of a directory were taken in.
    Looked { dir: (Seq<char>, nat), names: Seq<Seq<char>> },
}

/// What has happened since a search began.
#[verifier::ext_equal]
pub struct Search {
    /// The directories that wait, each with its depth.
    pub waiting: Seq<(Seq<char>, nat)>,
    /// Something waited when it was handed out, and only what had been handed
    /// out was looked at, and once.
    pub possible: bool,
    /// The directories that were handed out.
    pub handed: Seq<(Seq<char>, nat)>,
    /// Those of them that were looked at.
    pub looked: Seq<(Seq<char>, nat)>,
    /// The subdirectories that were met.
    pub met: Seq<MetDir>,
}

impl Search {
    pub open spec fn after(self, descent: Descent, event: DescentEvent) -> Search {
        match event {
            DescentEvent::Took => Search {
                possible: self.possible && self.waiting.len() > 0,
                waiting: self.waiting.drop_last(),
                handed: self.handed.push(self.waiting.last()),
                ..self
            },
            DescentEvent::Looked { dir, names } => Search {
                possible: self.possible && is_listing(names) && sums::times(self.looked, dir)
                    < sums::times(self.handed, dir),
                waiting: self.waiting + descent.entered(met_in(dir, names)),
                looked: self.looked.push(dir),
                met: self.met + met_in(dir, names),
                ..self
            },
        }
    }
}

/// A search after some steps.
pub open spec fn search(descent: Descent, events: Seq<DescentEvent>) -> Search
    decreases events.len(),
{
    if events.len() == 0 {
        Search {
            waiting: seq![(descent.root, 0nat)],
            possible: true,
            handed: Seq::empty(),
            looked: Seq::empty(),
            met: Seq::empty(),
        }
    } else {
        search(descent, events.drop_last()).after(descent, events.last())
    }
}

/// A directory lies below the root by a trail of names, all of them of
/// directories that are gone into, and as many as its depth.
pub open spec fn lies_at(descent: Descent, dir: (Seq<char>, nat), trail: Seq<Seq<char>>) -> bool {
    let top = paths::path_of(descent.root);
    &&& trail.len() == dir.1 && dir.1 <= descent.max_depth
    &&& paths::path_of(dir.0) == (paths::PathModel { parts: top.parts + trail, ..top })
    &&& forall|i: int| 0 <= i < trail.len() ==> (descent.enters)(#[trigger] trail[i])
}

/// The directory is one that the search may reach.
pub open spec fn is_reached(descent: Descent, dir: (Seq<char>, nat)) -> bool {
    exists|trail: Seq<Seq<char>>| #[trigger] lies_at(descent, dir, trail)
}

// ---------------------------------------------------------------------------
// What every search keeps
// ---------------------------------------------------------------------------

proof fn entered_in_parts(descent: Descent, met: Seq<MetDir>, more: Seq<MetDir>)
    ensures
        descent.entered(met + more) == descent.entered(met) + descent.entered(more),
    decreases more.len(),
{
    if more.len() == 0 {
        assert(met + more =~= met);
        assert(descent.entered(met) + descent.entered(more) =~= descent.entered(met));
    } else {
        assert((met + more).drop_last() =~= met + more.drop_last());
        entered_in_parts(descent, met, more.drop_last());
        assert(descent.entered(met + more) =~= descent.entered(met) + descent.entered(more));
    }
}

/// What is gone into of a directory: one subdirectory for each of some names,
/// in their order.
proof fn entered_by_names(descent: Descent, dir: (Seq<char>, nat), names: Seq<Seq<char>>) -> (at:
    Seq<int>)
    ensures
        at.len() == descent.entered(met_in(dir, names)).len(),
        forall|i: int|
            0 <= i < at.len() ==> 0 <= #[trigger] at[i] < names.len() && dir.1 < descent.max_depth
                && (descent.enters)(names[at[i]]) && descent.entered(met_in(dir, names))[i] == (
                paths::join_text(dir.0, names[at[i]]),
                dir.1 + 1,
            ),
        forall|i: int, j: int| 0 <= i < j < at.len() ==> #[trigger] at[i] < #[trigger] at[j],
    decreases names.len(),
{
    let met = met_in(dir, names);
    if names.len() == 0 {
        Seq::empty()
    } else {
        let less = names.drop_last();
        let before = entered_by_names(descent, dir, less);
        assert(met.drop_last() =~= met_in(dir, less));
        assert forall|i: int| 0 <= i < before.len() implies 0 <= #[trigger] before[i] < less.len()
            && names[before[i]] == less[before[i]] by {}
        if descent.goes_into(met.last()) {
            before.push(names.len() - 1)
        } else {
            before
        }
    }
}

spec fn has_parent(dir: (Seq<char>, nat), parents: Seq<(Seq<char>, nat)>) -> bool {
    exists|j: int|
        0 <= j < parents.len() && paths::parent_of(paths::path_of(dir.0)) == Some(
            paths::path_of((#[trigger] parents[j]).0),
        )
}

spec fn is_sound(descent: Descent, s: Search) -> bool {
    let known = descent.known(s.met);
    &&& forall|d: (Seq<char>, nat)| #[trigger]
        sums::times(s.handed, d) + sums::times(s.waiting, d) == sums::times(known, d)
    &&& forall|d: (Seq<char>, nat)| #[trigger]
        sums::times(s.looked, d) <= sums::times(s.handed, d)
    &&& forall|i: int| 0 <= i < known.len() ==> is_reached(descent, #[trigger] known[i])
    &&& forall|i: int|
        0 <= i < known.len() && (#[trigger] known[i]).1 > 0 ==> has_parent(known[i], s.looked)
    &&& forall|i: int, j: int|
        0 <= i < j < known.len() ==> paths::path_of((#[trigger] known[i]).0) != paths::path_of(
            (#[trigger] known[j]).0,
        )
    &&& forall|i: int|
        0 <= i < s.met.len() ==> paths::is_entry_name((#[trigger] s.met[i]).name)
            && s.looked.contains((s.met[i].dir, s.met[i].depth))
}

proof fn listed_is_found<T>(list: Seq<T>, item: T)
    ensures
        sums::times(list, item) > 0 <==> list.contains(item),
{
    broadcast use vstd::seq_lib::group_to_multiset_ensures;

}

/// An item that stands once in a list is not found in two places of it.
proof fn twice_is_counted<T>(list: Seq<T>, i: int, j: int)
    requires
        0 <= i < j < list.len(),
        list[i] == list[j],
    ensures
        sums::times(list, list[i]) >= 2,
{
    let front = list.take(j);
    let back = list.skip(j);
    assert(list =~= front + back);
    sums::times_of_parts(front, back, list[i]);
    assert(front[i] == list[i] && back[0] == list[j]);
    listed_is_found(front, list[i]);
    listed_is_found(back, list[i]);
}

/// In a list without duplicates everything stands once at most.
proof fn distinct_is_counted_once<T>(list: Seq<T>, item: T)
    requires
        forall|i: int, j: int| 0 <= i < j < list.len() ==> #[trigger] list[i] != #[trigger] list[j],
    ensures
        sums::times(list, item) <= 1,
    decreases list.len(),
{
    if list.len() == 0 {
        assert(list =~= Seq::<T>::empty());
        sums::times_of_none(item);
    } else {
        let less = list.drop_last();
        assert forall|i: int, j: int| 0 <= i < j < less.len() implies #[trigger] less[i]
            != #[trigger] less[j] by {
            assert(less[i] == list[i] && less[j] == list[j]);
        }
        distinct_is_counted_once(less, item);
        assert(list =~= less.push(list.last()));
        sums::times_of_push(less, list.last(), item);
        if list.last() == item {
            listed_is_found(less, item);
            if less.contains(item) {
                let i = choose|i: int| 0 <= i < less.len() && less[i] == item;
                assert(list[i] == list[list.len() - 1]);
            }
        }
    }
}

/// One name further down.
proof fn trail_goes_on(descent: Descent, dir: (Seq<char>, nat), name: Seq<char>)
    requires
        is_reached(descent, dir),
        dir.1 < descent.max_depth,
        (descent.enters)(name),
        paths::is_entry_name(name),
    ensures
        is_reached(descent, (paths::join_text(dir.0, name), dir.1 + 1)),
{
    let top = paths::path_of(descent.root);
    let trail = choose|trail: Seq<Seq<char>>| #[trigger] lies_at(descent, dir, trail);
    paths::entries_lie_below(dir.0, name);
    assert((top.parts + trail).push(name) =~= top.parts + trail.push(name));
    assert(lies_at(descent, (paths::join_text(dir.0, name), dir.1 + 1), trail.push(name)));
}

/// A directory that is known and has not been looked at is nobody's parent.
proof fn nobody_has_parent(descent: Descent, s: Search, dir: (Seq<char>, nat), i: int)
    requires
        is_sound(descent, s),
        sums::times(s.looked, dir) < sums::times(s.handed, dir),
        0 <= i < descent.known(s.met).len(),
    ensures
        descent.known(s.met).contains(dir),
        is_reached(descent, dir),
        paths::parent_of(paths::path_of(descent.known(s.met)[i].0)) == Some(paths::path_of(dir.0))
            ==> descent.known(s.met)[i].1 == 0,
{
    let known = descent.known(s.met);
    listed_is_found(known, dir);
    assert(sums::times(s.handed, dir) + sums::times(s.waiting, dir) == sums::times(known, dir));
    let at = choose|k: int| 0 <= k < known.len() && known[k] == dir;
    assert(is_reached(descent, known[at]));
    if known[i].1 > 0 && paths::parent_of(paths::path_of(known[i].0)) == Some(
        paths::path_of(dir.0),
    ) {
        assert(has_parent(known[i], s.looked));
        let j = choose|j: int|
            0 <= j < s.looked.len() && paths::parent_of(paths::path_of(known[i].0)) == Some(
                paths::path_of((#[trigger] s.looked[j]).0),
            );
        let other = s.looked[j];
        listed_is_found(s.looked, other);
        assert(sums::times(s.looked, other) <= sums::times(s.handed, other));
        assert(sums::times(s.handed, other) + sums::times(s.waiting, other) == sums::times(
            known,
            other,
        ));
        listed_is_found(known, other);
        let k = choose|k: int| 0 <= k < known.len() && known[k] == other;
        assert(k == at) by {
            if k < at {
                assert(paths::path_of(known[k].0) != paths::path_of(known[at].0));
            }
            if at < k {
                assert(paths::path_of(known[at].0) != paths::path_of(known[k].0));
            }
        }
        assert forall|a: int, b: int| 0 <= a < b < known.len() implies #[trigger] known[a]
            != #[trigger] known[b] by {
            assert(paths::path_of(known[a].0) != paths::path_of(known[b].0));
        }
        distinct_is_counted_once(known, dir);
        assert(false);
    }
}

proof fn looking_is_sound(
    descent: Descent,
    s: Search,
    dir: (Seq<char>, nat),
    names: Seq<Seq<char>>,
)
    requires
        is_sound(descent, s),
        is_listing(names),
        sums::times(s.looked, dir) < sums::times(s.handed, dir),
    ensures
        is_sound(descent, s.after(descent, DescentEvent::Looked { dir, names })),
{
    let after = s.after(descent, DescentEvent::Looked { dir, names });
    let more = met_in(dir, names);
    let news = descent.entered(more);
    let known = descent.known(s.met);
    let all = descent.known(after.met);
    entered_in_parts(descent, s.met, more);
    assert(all =~= known + news);
    let at = entered_by_names(descent, dir, names);
    nobody_has_parent(descent, s, dir, 0);
    assert forall|d: (Seq<char>, nat)| #[trigger]
        sums::times(after.handed, d) + sums::times(after.waiting, d) == sums::times(all, d) by {
        assert(sums::times(s.handed, d) + sums::times(s.waiting, d) == sums::times(known, d));
        sums::times_of_parts(s.waiting, news, d);
        sums::times_of_parts(known, news, d);
    }
    assert forall|d: (Seq<char>, nat)| #[trigger]
        sums::times(after.looked, d) <= sums::times(after.handed, d) by {
        assert(sums::times(s.looked, d) <= sums::times(s.handed, d));
        sums::times_of_push(s.looked, dir, d);
    }
    assert forall|i: int| known.len() <= i < all.len() implies {
        let name = names[at[i - known.len()]];
        &&& paths::is_entry_name(name)
        &&& #[trigger] all[i] == (paths::join_text(dir.0, name), dir.1 + 1)
        &&& is_reached(descent, all[i])
        &&& paths::parent_of(paths::path_of(all[i].0)) == Some(paths::path_of(dir.0))
    } by {
        let k = i - known.len();
        assert(all[i] == news[k]);
        assert(0 <= at[k] < names.len());
        trail_goes_on(descent, dir, names[at[k]]);
        paths::entries_lie_below(dir.0, names[at[k]]);
    }
    assert forall|i: int| 0 <= i < all.len() implies is_reached(descent, #[trigger] all[i]) by {
        if i < known.len() {
            assert(all[i] == known[i]);
        }
    }
    assert forall|i: int| 0 <= i < all.len() && (#[trigger] all[i]).1 > 0 implies has_parent(
        all[i],
        after.looked,
    ) by {
        if i < known.len() {
            assert(all[i] == known[i]);
            let j = choose|j: int|
                0 <= j < s.looked.len() && paths::parent_of(paths::path_of(known[i].0)) == Some(
                    paths::path_of((#[trigger] s.looked[j]).0),
                );
            assert(after.looked[j] == s.looked[j]);
        } else {
            assert(after.looked[s.looked.len() as int] == dir);
        }
    }
    assert forall|i: int, j: int| 0 <= i < j < all.len() implies paths::path_of(
        (#[trigger] all[i]).0,
    ) != paths::path_of((#[trigger] all[j]).0) by {
        if j < known.len() {
            assert(all[i] == known[i] && all[j] == known[j]);
        } else if i < known.len() {
            assert(all[i] == known[i]);
            nobody_has_parent(descent, s, dir, i);
            let a = choose|trail: Seq<Seq<char>>| #[trigger] lies_at(descent, all[i], trail);
            let b = choose|trail: Seq<Seq<char>>| #[trigger] lies_at(descent, all[j], trail);
            assert(is_reached(descent, all[i]) && is_reached(descent, all[j]));
            assert(lies_at(descent, all[i], a) && lies_at(descent, all[j], b));
            assert(paths::path_of(all[i].0).parts.len() == paths::path_of(descent.root).parts.len()
                + all[i].1);
            assert(paths::path_of(all[j].0).parts.len() == paths::path_of(descent.root).parts.len()
                + all[j].1);
        } else {
            let (m, n) = (at[i - known.len()], at[j - known.len()]);
            assert(m < n);
            paths::entries_lie_below(dir.0, names[m]);
            paths::entries_lie_below(dir.0, names[n]);
            let parts = paths::path_of(dir.0).parts;
            assert(parts.push(names[m]).last() == names[m]);
            assert(parts.push(names[n]).last() == names[n]);
            assert(names[m] != names[n]);
        }
    }
    assert forall|i: int| 0 <= i < after.met.len() implies paths::is_entry_name(
        (#[trigger] after.met[i]).name,
    ) && after.looked.contains((after.met[i].dir, after.met[i].depth)) by {
        if i < s.met.len() {
            assert(after.met[i] == s.met[i]);
            let d = (s.met[i].dir, s.met[i].depth);
            let j = choose|j: int| 0 <= j < s.looked.len() && s.looked[j] == d;
            assert(after.looked[j] == d);
        } else {
            assert(after.met[i].name == names[i - s.met.len()]);
            assert(after.looked[s.looked.len() as int] == dir);
        }
    }
}

proof fn search_is_sound(descent: Descent, events: Seq<DescentEvent>)
    requires
        search(descent, events).possible,
    ensures
        is_sound(descent, search(descent, events)),
    decreases events.len(),
{
    let s = search(descent, events);
    if events.len() == 0 {
        let known = descent.known(s.met);
        assert(known =~= seq![(descent.root, 0nat)]);
        assert forall|d: (Seq<char>, nat)| #[trigger]
            sums::times(s.handed, d) + sums::times(s.waiting, d) == sums::times(known, d) by {
            sums::times_of_none(d);
        }
        assert forall|d: (Seq<char>, nat)| #[trigger]
            sums::times(s.looked, d) <= sums::times(s.handed, d) by {
            sums::times_of_none(d);
        }
        let top = paths::path_of(descent.root);
        assert(top.parts + Seq::<Seq<char>>::empty() =~= top.parts);
        assert(lies_at(descent, (descent.root, 0nat), Seq::empty()));
    } else {
        let before = search(descent, events.drop_last());
        search_is_sound(descent, events.drop_last());
        match events.last() {
            DescentEvent::Took => {
                let waiting = before.waiting;
                assert(waiting =~= waiting.drop_last().push(waiting.last()));
                assert forall|d: (Seq<char>, nat)| #[trigger]
                    sums::times(s.handed, d) + sums::times(s.waiting, d) == sums::times(
                        descent.known(s.met),
                        d,
                    ) by {
                    assert(sums::times(before.handed, d) + sums::times(before.waiting, d)
                        == sums::times(descent.known(s.met), d));
                    sums::times_of_push(waiting.drop_last(), waiting.last(), d);
                    sums::times_of_push(before.handed, waiting.last(), d);
                }
                assert forall|d: (Seq<char>, nat)| #[trigger]
                    sums::times(s.looked, d) <= sums::times(s.handed, d) by {
                    assert(sums::times(before.looked, d) <= sums::times(before.handed, d));
                    sums::times_of_push(before.handed, waiting.last(), d);
                }
            },
            DescentEvent::Looked { dir, names } => {
                looking_is_sound(descent, before, dir, names);
            },
        }
    }
}

// ---------------------------------------------------------------------------
// Laws
// ---------------------------------------------------------------------------

/// Whatever waits or was handed out lies below the root, no deeper than the
/// search goes, and behind no directory that it stays out of.
pub proof fn a_search_keeps_to_its_bounds(
    descent: Descent,
    events: Seq<DescentEvent>,
    dir: (Seq<char>, nat),
)
    requires
        search(descent, events).possible,
        search(descent, events).handed.contains(dir) || search(descent, events).waiting.contains(
            dir,
        ),
    ensures
        is_reached(descent, dir),
{
    search_is_sound(descent, events);
    let s = search(descent, events);
    let known = descent.known(s.met);
    listed_is_found(s.handed, dir);
    listed_is_found(s.waiting, dir);
    assert(sums::times(s.handed, dir) + sums::times(s.waiting, dir) == sums::times(known, dir));
    listed_is_found(known, dir);
    let i = choose|i: int| 0 <= i < known.len() && known[i] == dir;
    assert(is_reached(descent, known[i]));
}

/// No directory is handed out twice.
pub proof fn a_search_never_repeats(descent: Descent, events: Seq<DescentEvent>, i: int, j: int)
    requires
        search(descent, events).possible,
        0 <= i < j < search(descent, events).handed.len(),
    ensures
        paths::path_of(search(descent, events).handed[i].0) != paths::path_of(
            search(descent, events).handed[j].0,
        ),
{
    search_is_sound(descent, events);
    let s = search(descent, events);
    let known = descent.known(s.met);
    let (a, b) = (s.handed[i], s.handed[j]);
    listed_is_found(s.handed, a);
    listed_is_found(s.handed, b);
    assert(sums::times(s.handed, a) + sums::times(s.waiting, a) == sums::times(known, a));
    assert(sums::times(s.handed, b) + sums::times(s.waiting, b) == sums::times(known, b));
    listed_is_found(known, a);
    listed_is_found(known, b);
    let k = choose|k: int| 0 <= k < known.len() && known[k] == a;
    let l = choose|l: int| 0 <= l < known.len() && known[l] == b;
    if a == b {
        twice_is_counted(s.handed, i, j);
        assert forall|m: int, n: int| 0 <= m < n < known.len() implies #[trigger] known[m]
            != #[trigger] known[n] by {
            assert(paths::path_of(known[m].0) != paths::path_of(known[n].0));
        }
        distinct_is_counted_once(known, a);
    } else if k < l {
        assert(paths::path_of(known[k].0) != paths::path_of(known[l].0));
    } else {
        assert(paths::path_of(known[l].0) != paths::path_of(known[k].0));
    }
}

/// With nothing waiting, the root and every subdirectory that was met and that
/// the search goes into was handed out, once, and nothing else.
pub proof fn a_search_leaves_nothing_out(descent: Descent, events: Seq<DescentEvent>)
    requires
        search(descent, events).possible,
        search(descent, events).waiting.len() == 0,
    ensures
        search(descent, events).handed.to_multiset() == descent.known(
            search(descent, events).met,
        ).to_multiset(),
{
    search_is_sound(descent, events);
    let s = search(descent, events);
    let known = descent.known(s.met);
    assert(s.handed.to_multiset() =~= known.to_multiset()) by {
        assert forall|d: (Seq<char>, nat)|
            s.handed.to_multiset().count(d) == known.to_multiset().count(d) by {
            assert(sums::times(s.handed, d) + sums::times(s.waiting, d) == sums::times(known, d));
            assert(s.waiting =~= Seq::<(Seq<char>, nat)>::empty());
            sums::times_of_none(d);
        }
    }
}

/// Whatever was met was met in a directory that the search reaches.
pub proof fn what_is_met_is_in_reach(descent: Descent, events: Seq<DescentEvent>, i: int)
    requires
        search(descent, events).possible,
        0 <= i < search(descent, events).met.len(),
    ensures
        ({
            let m = search(descent, events).met[i];
            paths::is_entry_name(m.name) && is_reached(descent, (m.dir, m.depth))
        }),
{
    search_is_sound(descent, events);
    let s = search(descent, events);
    let m = s.met[i];
    let dir = (m.dir, m.depth);
    listed_is_found(s.looked, dir);
    assert(sums::times(s.looked, dir) <= sums::times(s.handed, dir));
    listed_is_found(s.handed, dir);
    a_search_keeps_to_its_bounds(descent, events, dir);
}

proof fn entered_one_by_one(descent: Descent, met: Seq<MetDir>) -> (at: Seq<int>)
    ensures
        at.len() == descent.entered(met).len(),
        forall|i: int|
            0 <= i < at.len() ==> 0 <= #[trigger] at[i] < met.len() && descent.goes_into(met[at[i]])
                && descent.entered(met)[i] == (met[at[i]].path(), met[at[i]].depth + 1),
        forall|k: int|
            0 <= k < met.len() && descent.goes_into(#[trigger] met[k]) ==> descent.entered(
                met,
            ).contains((met[k].path(), met[k].depth + 1)),
    decreases met.len(),
{
    if met.len() == 0 {
        Seq::empty()
    } else {
        let less = met.drop_last();
        let before = entered_one_by_one(descent, less);
        let all = descent.entered(met);
        assert forall|i: int| 0 <= i < before.len() implies 0 <= #[trigger] before[i] < less.len()
            && met[before[i]] == less[before[i]] by {}
        assert forall|k: int|
            0 <= k < met.len() && descent.goes_into(#[trigger] met[k]) implies all.contains(
            (met[k].path(), met[k].depth + 1),
        ) by {
            let wanted = (met[k].path(), met[k].depth + 1);
            if k < less.len() {
                assert(less[k] == met[k]);
                let part = descent.entered(less);
                let i = choose|i: int| 0 <= i < part.len() && part[i] == wanted;
                assert(all[i] == wanted);
            } else {
                assert(all[all.len() - 1] == wanted);
            }
        }
        if descent.goes_into(met.last()) {
            before.push(met.len() - 1)
        } else {
            before
        }
    }
}

/// With nothing waiting, a subdirectory that was met was handed out once where
/// the search goes into it, and else not at all.
pub proof fn met_is_handed_out_or_left_out(descent: Descent, events: Seq<DescentEvent>, k: int)
    requires
        search(descent, events).possible,
        search(descent, events).waiting.len() == 0,
        0 <= k < search(descent, events).met.len(),
    ensures
        ({
            let s = search(descent, events);
            let m = s.met[k];
            &&& descent.goes_into(m) ==> sums::times(s.handed, (m.path(), m.depth + 1)) == 1
            &&& !descent.goes_into(m) ==> !s.handed.contains((m.path(), m.depth + 1))
        }),
{
    search_is_sound(descent, events);
    a_search_leaves_nothing_out(descent, events);
    let s = search(descent, events);
    let m = s.met[k];
    let wanted = (m.path(), m.depth + 1);
    let known = descent.known(s.met);
    let entered = descent.entered(s.met);
    let at = entered_one_by_one(descent, s.met);
    assert(sums::times(s.handed, wanted) == sums::times(known, wanted));
    listed_is_found(known, wanted);
    listed_is_found(s.handed, wanted);
    if descent.goes_into(m) {
        let i = choose|i: int| 0 <= i < entered.len() && entered[i] == wanted;
        assert(known[i + 1] == wanted);
        assert forall|a: int, b: int| 0 <= a < b < known.len() implies #[trigger] known[a]
            != #[trigger] known[b] by {
            assert(paths::path_of(known[a].0) != paths::path_of(known[b].0));
        }
        distinct_is_counted_once(known, wanted);
    } else if known.contains(wanted) {
        let i = choose|i: int| 0 <= i < known.len() && known[i] == wanted;
        assert(known[i] == entered[i - 1]);
        let other = s.met[at[i - 1]];
        what_is_met_is_in_reach(descent, events, k);
        what_is_met_is_in_reach(descent, events, at[i - 1]);
        paths::entries_lie_below(m.dir, m.name);
        paths::entries_lie_below(other.dir, other.name);
        assert(paths::path_of(m.dir).parts.push(m.name).last() == m.name);
        assert(paths::path_of(other.dir).parts.push(other.name).last() == other.name);
    }
}

} // verus!
