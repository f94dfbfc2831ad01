//! Sizes of directories that were scanned before.

use crate::bulkstat;
use crate::fsevents;
use crate::paths;
use crate::sorting;
use crate::state;
use crate::sums;
use crate::text;
use vstd::hash_map::StringHashMap;
use vstd::prelude::*;

verus! {

/// What is remembered of a directory.
#[derive(Clone, Copy, Debug, PartialEq, Eq, Structural)]
pub struct CacheLine {
    pub size: bulkstat::SizeInfo,
    pub inaccessible: u32,
    pub skipped_mounts: u32,
    /// Seconds since the epoch.
    pub scanned_at: u64,
    /// It was scanned in an earlier session and may have changed since.
    pub stale: bool,
}

/// The remembered directories by path.
pub struct SizeCache {
    lines: StringHashMap<CacheLine>,
    paths: Vec<String>,
}

impl View for SizeCache {
    type V = Map<Seq<char>, CacheLine>;

    closed spec fn view(&self) -> Map<Seq<char>, CacheLine> {
        self.lines@
    }
}

/// The list holds the keys of the map, each once.
pub open spec fn lists_keys(m: Map<Seq<char>, CacheLine>, keys: Seq<Seq<char>>) -> bool {
    keys.no_duplicates() && (forall|k: Seq<char>|
        #[trigger] m.contains_key(k) <==> keys.contains(k))
}

/// The keys are those wanted ones that were seen.
spec fn are_kept(keys: Seq<Seq<char>>, seen: Seq<Seq<char>>, wanted: Set<Seq<char>>) -> bool {
    forall|k: Seq<char>| #[trigger]
        keys.contains(k) <==> (wanted.contains(k) && seen.contains(k))
}

/// Of the map those are gone that were seen and are not wanted.
spec fn are_left(
    lines: Map<Seq<char>, CacheLine>,
    m: Map<Seq<char>, CacheLine>,
    seen: Seq<Seq<char>>,
    wanted: Set<Seq<char>>,
) -> bool {
    forall|k: Seq<char>| #[trigger]
        lines.contains_key(k) <==> (m.contains_key(k) && (wanted.contains(k) || !seen.contains(k)))
}

/// One path is the other or lies in it.
pub open spec fn is_related(a: Seq<char>, b: Seq<char>) -> bool {
    paths::lies_under(paths::path_of(a), paths::path_of(b)) || paths::lies_under(
        paths::path_of(b),
        paths::path_of(a),
    )
}

/// The map without the path, what lies in it and the directories around it.
pub open spec fn without_related(m: Map<Seq<char>, CacheLine>, path: Seq<char>) -> Map<
    Seq<char>,
    CacheLine,
> {
    m.restrict(Set::new(|k: Seq<char>| !is_related(k, path)))
}

/// Saved sizes by when they were scanned, the newest first, then by path.
pub struct NewestFirst;

impl sorting::Order<state::CachedModel> for NewestFirst {
    open spec fn before(&self, a: state::CachedModel, b: state::CachedModel) -> bool {
        if a.scanned_at != b.scanned_at {
            a.scanned_at > b.scanned_at
        } else {
            paths::path_less(paths::path_of(a.path), paths::path_of(b.path))
        }
    }

    proof fn is_order(&self, a: state::CachedModel, b: state::CachedModel, c: state::CachedModel) {
        let (x, y, z) = (
            paths::path_of(a.path),
            paths::path_of(b.path),
            paths::path_of(c.path),
        );
        paths::path_order_total(x, y);
        paths::path_order_total(y, z);
        if paths::path_less(z, x) && paths::path_less(x, y) {
            paths::path_order_transitive(z, x, y);
        }
        if paths::path_less(y, z) && paths::path_less(z, x) {
            paths::path_order_transitive(y, z, x);
        }
    }
}

impl sorting::Arranged<state::CachedSize> for NewestFirst {
    fn goes_before(&self, a: &state::CachedSize, b: &state::CachedSize) -> (r: bool) {
        if a.scanned_at != b.scanned_at {
            a.scanned_at > b.scanned_at
        } else {
            paths::path_is_less(a.path.as_str(), b.path.as_str())
        }
    }
}

/// The saved form of a remembered directory.
pub open spec fn saved_line(path: Seq<char>, line: CacheLine) -> state::CachedModel {
    state::CachedModel {
        path,
        size: line.size,
        inaccessible: line.inaccessible,
        scanned_at: line.scanned_at,
    }
}

/// The saved forms of the directories in a list.
pub open spec fn saved_lines(m: Map<Seq<char>, CacheLine>, keys: Seq<Seq<char>>) -> Seq<
    state::CachedModel,
> {
    keys.map_values(|k: Seq<char>| saved_line(k, m[k]))
}

/// The newest of the saved sizes, as many as are kept.
pub open spec fn kept_lines(all: Seq<state::CachedModel>) -> Seq<state::CachedModel> {
    sorting::best(&NewestFirst, all, state::SIZE_CACHE_MAX_ENTRIES as nat)
}

/// What is saved of a cache, whatever the order in which it is walked.
pub open spec fn is_saved_form(m: Map<Seq<char>, CacheLine>, saved: Seq<state::CachedModel>) -> bool {
    exists|keys: Seq<Seq<char>>| #[trigger]
        lists_keys(m, keys) && saved == kept_lines(saved_lines(m, keys))
}

/// The map that saved sizes make: each is stale unless the changes since then
/// left it alone, and of two with one path the later in the list counts.
pub open spec fn loaded_lines(
    list: Seq<state::CachedModel>,
    freshness: fsevents::FreshnessModel,
) -> Map<Seq<char>, CacheLine>
    decreases list.len(),
{
    if list.len() == 0 {
        Map::empty()
    } else {
        let e = list.last();
        loaded_lines(list.drop_last(), freshness).insert(
            e.path,
            CacheLine {
                size: e.size,
                inaccessible: e.inaccessible,
                skipped_mounts: 0,
                scanned_at: e.scanned_at,
                stale: fsevents::stale(freshness, e.path),
            },
        )
    }
}

/// The paths of saved sizes.
pub open spec fn saved_paths(list: Seq<state::CachedModel>) -> Set<Seq<char>> {
    Set::new(
        |k: Seq<char>|
            exists|i: int| 0 <= i < list.len() && (#[trigger] list[i]).path == k,
    )
}

impl SizeCache {
    #[verifier::type_invariant]
    spec fn is_consistent(&self) -> bool {
        lists_keys(self.lines@, text::texts(self.paths@))
    }

    pub fn new() -> (r: SizeCache)
        ensures
            r@ == Map::<Seq<char>, CacheLine>::empty(),
    {
        SizeCache { lines: StringHashMap::new(), paths: Vec::new() }
    }

    /// What is remembered of a directory.
    pub fn get(&self, path: &str) -> (r: Option<CacheLine>)
        ensures
            r == if self@.contains_key(path@) {
                Some(self@[path@])
            } else {
                None
            },
    {
        match self.lines.get(path) {
            Some(line) => Some(*line),
            None => None,
        }
    }

    /// Remembers a directory.
    pub fn record(&mut self, path: &str, line: CacheLine)
        ensures
            final(self)@ == old(self)@.insert(path@, line),
    {
        proof {
            use_type_invariant(&*self);
        }
        let mut taken = SizeCache::new();
        std::mem::swap(&mut taken, self);
        let SizeCache { lines: taken_lines, paths: taken_paths } = taken;
        let mut lines = taken_lines;
        let mut known = taken_paths;
        let ghost before = text::texts(known@);
        let ghost m = lines@;
        if !lines.contains_key(path) {
            let key = path.to_owned();
            proof {
                text::texts_push(known@, key);
            }
            known.push(key);
        }
        lines.insert(path.to_owned(), line);
        proof {
            let now = text::texts(known@);
            assert forall|k: Seq<char>| #[trigger] lines@.contains_key(k) <==> now.contains(k) by {
                assert(m.contains_key(k) <==> before.contains(k));
                if now.len() > before.len() {
                    assert(now == before.push(path@));
                    if before.contains(k) {
                        let i = choose|i: int| 0 <= i < before.len() && before[i] == k;
                        assert(now[i] == k);
                    }
                    if now.contains(k) && k != path@ {
                        let i = choose|i: int| 0 <= i < now.len() && now[i] == k;
                        assert(before[i] == k);
                    }
                    assert(now[before.len() as int] == path@);
                } else {
                    assert(m.contains_key(path@));
                }
            }
            assert(now.no_duplicates()) by {
                if now.len() > before.len() {
                    assert(!before.contains(path@)) by {
                        assert(!m.contains_key(path@));
                    }
                }
            }
        }
        *self = SizeCache { lines, paths: known };
    }

    /// Keeps the directories that a list of marks keeps; the marks stand in the
    /// order of the paths.
    fn keep(&mut self, marks: &Vec<bool>, Ghost(wanted): Ghost<Set<Seq<char>>>)
        requires
            marks@.len() == old(self).known_paths().len(),
            forall|i: int|
                0 <= i < marks@.len() ==> #[trigger] marks@[i] == wanted.contains(
                    old(self).known_paths()[i],
                ),
        ensures
            final(self)@ == old(self)@.restrict(wanted),
    {
        proof {
            use_type_invariant(&*self);
        }
        let ghost m = self@;
        let ghost before = text::texts(self.paths@);
        let mut taken = SizeCache::new();
        std::mem::swap(&mut taken, self);
        let SizeCache { lines: taken_lines, paths: old_paths } = taken;
        let mut lines = taken_lines;
        let mut known: Vec<String> = Vec::new();
        let mut i: usize = 0;
        let ghost mut seen = Seq::<Seq<char>>::empty();
        assert(text::texts(known@) =~= Seq::<Seq<char>>::empty());
        assert(before.take(0) =~= seen);
        while i < old_paths.len()
            invariant
                seen == before.take(i as int),
                i <= old_paths@.len(),
                before == text::texts(old_paths@),
                marks@.len() == before.len(),
                lists_keys(m, before),
                forall|k: int|
                    0 <= k < marks@.len() ==> #[trigger] marks@[k] == wanted.contains(before[k]),
                text::texts(known@).no_duplicates(),
                are_kept(text::texts(known@), seen, wanted),
                are_left(lines@, m, seen, wanted),
                forall|k: Seq<char>| #[trigger] lines@.contains_key(k) ==> lines@[k] == m[k],
            decreases old_paths@.len() - i,
        {
            let ghost p = old_paths@[i as int]@;
            let ghost earlier = seen;
            let ghost now = before.take(i + 1);
            let ghost known_before = text::texts(known@);
            proof {
                assert(before[i as int] == p);
                assert(now =~= earlier.push(p));
                assert(!earlier.contains(p)) by {
                    if earlier.contains(p) {
                        let k = choose|k: int| 0 <= k < earlier.len() && earlier[k] == p;
                        assert(before[k] == before[i as int]);
                    }
                }
                assert forall|k: Seq<char>| #[trigger] now.contains(k) <==> earlier.contains(k) || k
                    == p by {
                    if earlier.contains(k) {
                        let j = choose|j: int| 0 <= j < earlier.len() && earlier[j] == k;
                        assert(now[j] == k);
                    }
                    if now.contains(k) && k != p {
                        let j = choose|j: int| 0 <= j < now.len() && now[j] == k;
                        assert(earlier[j] == k);
                    }
                    assert(now[i as int] == p);
                }
            }
            if marks[i] {
                let key = old_paths[i].clone();
                proof {
                    text::texts_push(known@, key);
                    let longer = known_before.push(p);
                    assert(!known_before.contains(p));
                    assert forall|k: Seq<char>| #[trigger] longer.contains(k)
                        <==> known_before.contains(k) || k == p by {
                        if known_before.contains(k) {
                            let j = choose|j: int|
                                0 <= j < known_before.len() && known_before[j] == k;
                            assert(longer[j] == k);
                        }
                        if longer.contains(k) && k != p {
                            let j = choose|j: int| 0 <= j < longer.len() && longer[j] == k;
                            assert(known_before[j] == k);
                        }
                        assert(longer[known_before.len() as int] == p);
                    }
                }
                known.push(key);
            } else {
                lines.remove(old_paths[i].as_str());
            }
            proof {
                seen = now;
            }
            i += 1;
        }
        proof {
            assert(seen =~= before);
            assert forall|k: Seq<char>| #[trigger] lines@.contains_key(k) <==> m.contains_key(k)
                && wanted.contains(k) by {
                assert(m.contains_key(k) <==> before.contains(k));
                assert(seen.contains(k) == before.contains(k));
            }
            assert forall|k: Seq<char>| #[trigger] lines@.contains_key(k) <==> text::texts(
                known@,
            ).contains(k) by {
                assert(m.contains_key(k) <==> before.contains(k));
                assert(seen.contains(k) == before.contains(k));
            }
            assert(lines@ =~= m.restrict(wanted));
        }
        *self = SizeCache { lines, paths: known };
    }

    closed spec fn known_paths(&self) -> Seq<Seq<char>> {
        text::texts(self.paths@)
    }

    /// Forgets a directory; the result says whether it was known.
    pub fn remove(&mut self, path: &str) -> (removed: bool)
        ensures
            final(self)@ == old(self)@.remove(path@),
            removed == old(self)@.contains_key(path@),
    {
        if !self.lines.contains_key(path) {
            assert(self@.remove(path@) =~= self@);
            return false;
        }
        let mut marks: Vec<bool> = Vec::new();
        let mut i: usize = 0;
        let ghost wanted = Set::new(|k: Seq<char>| k != path@);
        while i < self.paths.len()
            invariant
                i <= self.paths@.len(),
                marks@.len() == i,
                wanted == Set::new(|k: Seq<char>| k != path@),
                forall|k: int|
                    0 <= k < i ==> #[trigger] marks@[k] == wanted.contains(self.known_paths()[k]),
            decreases self.paths@.len() - i,
        {
            let same = text::same_text(self.paths[i].as_str(), path);
            marks.push(!same);
            i += 1;
        }
        let ghost m = self@;
        self.keep(&marks, Ghost(wanted));
        assert(m.restrict(wanted) =~= m.remove(path@));
        true
    }

    /// A path has changed: forgets it, what lies in it and the directories
    /// around it. The result says whether anything was known of them.
    pub fn invalidate_for(&mut self, path: &str) -> (removed: bool)
        ensures
            final(self)@ == without_related(old(self)@, path@),
            removed == exists|k: Seq<char>| #[trigger]
                old(self)@.contains_key(k) && is_related(k, path@),
    {
        proof {
            use_type_invariant(&*self);
        }
        let mut marks: Vec<bool> = Vec::new();
        let mut i: usize = 0;
        let mut removed = false;
        let ghost wanted = Set::new(|k: Seq<char>| !is_related(k, path@));
        while i < self.paths.len()
            invariant
                i <= self.paths@.len(),
                marks@.len() == i,
                lists_keys(self@, self.known_paths()),
                wanted == Set::new(|k: Seq<char>| !is_related(k, path@)),
                forall|k: int|
                    0 <= k < i ==> #[trigger] marks@[k] == wanted.contains(self.known_paths()[k]),
                removed ==> exists|k: Seq<char>| #[trigger]
                    self@.contains_key(k) && is_related(k, path@),
                !removed ==> forall|k: int|
                    0 <= k < i ==> !is_related(#[trigger] self.known_paths()[k], path@),
            decreases self.paths@.len() - i,
        {
            let one = self.paths[i].as_str();
            let related = paths::path_starts_with(one, path) || paths::path_starts_with(path, one);
            if related {
                assert(self.known_paths()[i as int] == one@);
                assert(self.known_paths().contains(one@));
                assert(self@.contains_key(one@));
                removed = true;
            }
            marks.push(!related);
            i += 1;
        }
        proof {
            if !removed {
                assert forall|k: Seq<char>| #[trigger] self@.contains_key(k) implies !is_related(
                    k,
                    path@,
                ) by {
                    assert(self.known_paths().contains(k));
                    let j = choose|j: int|
                        0 <= j < self.known_paths().len() && self.known_paths()[j] == k;
                    assert(!is_related(self.known_paths()[j], path@));
                }
            }
        }
        self.keep(&marks, Ghost(wanted));
        removed
    }

    /// The sizes to save, the newest first and no more than are kept; what is
    /// not saved is forgotten.
    pub fn entries_for_store(&mut self) -> (r: Vec<state::CachedSize>)
        ensures
            is_saved_form(old(self)@, sorting::views(r@)),
            final(self)@ == old(self)@.restrict(saved_paths(sorting::views(r@))),
    {
        proof {
            use_type_invariant(&*self);
        }
        let ghost m = self@;
        let ghost keys = self.known_paths();
        let mut list: Vec<state::CachedSize> = Vec::new();
        let mut i: usize = 0;
        assert(sorting::views(list@) =~= Seq::<state::CachedModel>::empty());
        while i < self.paths.len()
            invariant
                i <= self.paths@.len(),
                m == self@,
                keys == self.known_paths(),
                lists_keys(m, keys),
                list@.len() == i,
                forall|k: int|
                    0 <= k < i ==> (#[trigger] list@[k])@ == saved_line(keys[k], m[keys[k]]),
            decreases self.paths@.len() - i,
        {
            let path = self.paths[i].as_str();
            assert(keys[i as int] == path@);
            assert(keys.contains(path@));
            assert(m.contains_key(path@));
            match self.lines.get(path) {
                Some(line) => {
                    list.push(
                        state::CachedSize {
                            path: path.to_owned(),
                            size: line.size,
                            inaccessible: line.inaccessible,
                            scanned_at: line.scanned_at,
                        },
                    );
                },
                None => {
                    assert(false);
                    return list;
                },
            }
            i += 1;
        }
        let ghost all = sorting::views(list@);
        assert(all =~= saved_lines(m, keys));
        let order = NewestFirst;
        let mut sorted = sorting::arrange(&order, list);
        let ghost arranged = sorting::views(sorted@);
        proof {
            sorting::arranged_keeps_items(&NewestFirst, all);
        }
        if sorted.len() > state::SIZE_CACHE_MAX_ENTRIES {
            sorted.truncate(state::SIZE_CACHE_MAX_ENTRIES);
            assert(sorting::views(sorted@) =~= arranged.take(state::SIZE_CACHE_MAX_ENTRIES as int));
            self.keep_saved(&sorted);
        } else {
            proof {
                assert forall|k: Seq<char>| #[trigger] m.contains_key(k) implies saved_paths(
                    arranged,
                ).contains(k) by {
                    assert(keys.contains(k));
                    let j = choose|j: int| 0 <= j < keys.len() && keys[j] == k;
                    assert(all[j].path == k);
                    assert(all.to_multiset().count(all[j]) > 0) by {
                        all.to_multiset_ensures();
                        assert(all.contains(all[j]));
                    }
                    arranged.to_multiset_ensures();
                    assert(arranged.contains(all[j]));
                    let q = choose|q: int| 0 <= q < arranged.len() && arranged[q] == all[j];
                    assert(arranged[q].path == k);
                }
                assert(m.restrict(saved_paths(arranged)) =~= m);
            }
        }
        assert(lists_keys(m, keys));
        sorted
    }

    fn keep_saved(&mut self, saved: &Vec<state::CachedSize>)
        ensures
            final(self)@ == old(self)@.restrict(saved_paths(sorting::views(saved@))),
    {
        let ghost list = sorting::views(saved@);
        let mut known: StringHashMap<bool> = StringHashMap::new();
        let mut i: usize = 0;
        while i < saved.len()
            invariant
                i <= saved@.len(),
                list == sorting::views(saved@),
                forall|k: Seq<char>| #[trigger]
                    known@.contains_key(k) <==> exists|j: int|
                        0 <= j < i && (#[trigger] list[j]).path == k,
            decreases saved@.len() - i,
        {
            let ghost before = known@;
            assert(list[i as int].path == saved@[i as int].path@);
            known.insert(saved[i].path.clone(), true);
            proof {
                assert forall|k: Seq<char>| #[trigger] known@.contains_key(k) <==> exists|j: int|
                    0 <= j < i + 1 && (#[trigger] list[j]).path == k by {
                    if before.contains_key(k) {
                        let j = choose|j: int| 0 <= j < i && (#[trigger] list[j]).path == k;
                        assert(list[j].path == k);
                    }
                }
            }
            i += 1;
        }
        let ghost wanted = saved_paths(list);
        let mut marks: Vec<bool> = Vec::new();
        let mut n: usize = 0;
        while n < self.paths.len()
            invariant
                n <= self.paths@.len(),
                marks@.len() == n,
                wanted == saved_paths(list),
                forall|k: Seq<char>| #[trigger]
                    known@.contains_key(k) <==> exists|j: int|
                        0 <= j < list.len() && (#[trigger] list[j]).path == k,
                forall|k: int|
                    0 <= k < n ==> #[trigger] marks@[k] == wanted.contains(self.known_paths()[k]),
            decreases self.paths@.len() - n,
        {
            let keep = known.contains_key(self.paths[n].as_str());
            assert(self.known_paths()[n as int] == self.paths@[n as int]@);
            marks.push(keep);
            n += 1;
        }
        self.keep(&marks, Ghost(wanted));
    }

    /// The cache that saved sizes make, and whether some of them were dropped.
    pub fn from_saved(saved: Vec<state::CachedSize>, freshness: &fsevents::Freshness) -> (r: (
        SizeCache,
        bool,
    ))
        ensures
            r.1 == (saved@.len() > state::SIZE_CACHE_MAX_ENTRIES),
            r.0@ == if saved@.len() > state::SIZE_CACHE_MAX_ENTRIES {
                loaded_lines(kept_lines(sorting::views(saved@)), freshness@)
            } else {
                loaded_lines(sorting::views(saved@), freshness@)
            },
    {
        let ghost all = sorting::views(saved@);
        let dropped = saved.len() > state::SIZE_CACHE_MAX_ENTRIES;
        let mut list = saved;
        if dropped {
            let order = NewestFirst;
            list = sorting::arrange(&order, list);
            let ghost arranged = sorting::views(list@);
            proof {
                sorting::arranged_keeps_items(&NewestFirst, all);
            }
            list.truncate(state::SIZE_CACHE_MAX_ENTRIES);
            assert(sorting::views(list@) =~= arranged.take(state::SIZE_CACHE_MAX_ENTRIES as int));
            assert(sorting::views(list@) == kept_lines(all));
        }
        let ghost kept = sorting::views(list@);
        let mut cache = SizeCache::new();
        let mut i: usize = 0;
        assert(kept.take(0) =~= Seq::<state::CachedModel>::empty());
        while i < list.len()
            invariant
                i <= list@.len(),
                kept == sorting::views(list@),
                cache@ == loaded_lines(kept.take(i as int), freshness@),
            decreases list@.len() - i,
        {
            assert(kept.take(i + 1).drop_last() =~= kept.take(i as int));
            assert(kept.take(i + 1).last() == list@[i as int]@);
            let e = &list[i];
            cache.record(
                e.path.as_str(),
                CacheLine {
                    size: e.size,
                    inaccessible: e.inaccessible,
                    skipped_mounts: 0,
                    scanned_at: e.scanned_at,
                    stale: freshness.is_stale(e.path.as_str()),
                },
            );
            i += 1;
        }
        assert(kept.take(kept.len() as int) =~= kept);
        (cache, dropped)
    }
}

// ---------------------------------------------------------------------------
// Laws
// ---------------------------------------------------------------------------

/// After a change nothing is remembered of the path, of what lies in it and of
/// the directories around it; everything else stays as it was.
pub proof fn invalidation_is_exact(m: Map<Seq<char>, CacheLine>, path: Seq<char>, k: Seq<char>)
    ensures
        is_related(k, path) ==> !without_related(m, path).contains_key(k),
        !is_related(k, path) ==> without_related(m, path).contains_key(k) == m.contains_key(k),
        !is_related(k, path) && m.contains_key(k) ==> without_related(m, path)[k] == m[k],
{
}

/// What is saved of a cache stays within its limit, and nothing that is left out
/// was scanned later than something that is saved.
pub proof fn newest_sizes_are_saved(all: Seq<state::CachedModel>)
    ensures
        kept_lines(all).len() <= state::SIZE_CACHE_MAX_ENTRIES,
        all.len() <= state::SIZE_CACHE_MAX_ENTRIES ==> kept_lines(all).to_multiset()
            == all.to_multiset(),
        forall|i: int, k: int|
            #![trigger all[i], kept_lines(all)[k]]
            0 <= i < all.len() && !kept_lines(all).contains(all[i]) && 0 <= k < kept_lines(
                all,
            ).len() ==> all[i].scanned_at <= kept_lines(all)[k].scanned_at,
{
    broadcast use vstd::seq_lib::group_to_multiset_ensures;

    let list = sorting::arranged(&NewestFirst, all);
    let kept = kept_lines(all);
    sorting::arranged_keeps_items(&NewestFirst, all);
    sorting::arranged_is_arranged(&NewestFirst, all);
    assert forall|i: int, k: int|
        #![trigger all[i], kept_lines(all)[k]]
        0 <= i < all.len() && !kept_lines(all).contains(all[i]) && 0 <= k < kept_lines(
            all,
        ).len() implies all[i].scanned_at <= kept_lines(all)[k].scanned_at by {
        assert(all.contains(all[i]));
        assert(all.to_multiset().count(all[i]) > 0);
        assert(list.to_multiset().count(all[i]) > 0);
        assert(list.contains(all[i]));
        let j = choose|j: int| 0 <= j < list.len() && list[j] == all[i];
        if j < kept.len() {
            assert(kept[j] == all[i]);
        }
        assert(kept[k] == list[k]);
        assert(!sorting::Order::before(&NewestFirst, list[j], list[k]));
    }
}

/// A saved size is taken over as it was, and counts as fresh exactly where the
/// changes since then left its directory alone.
pub proof fn saved_sizes_are_as_fresh_as_their_tree(
    list: Seq<state::CachedModel>,
    freshness: fsevents::FreshnessModel,
    path: Seq<char>,
)
    ensures
        loaded_lines(list, freshness).contains_key(path) <==> saved_paths(list).contains(path),
        loaded_lines(list, freshness).contains_key(path) ==> {
            let line = loaded_lines(list, freshness)[path];
            &&& line.stale == fsevents::stale(freshness, path)
            &&& exists|i: int|
                0 <= i < list.len() && #[trigger] list[i] == saved_line(path, line)
        },
    decreases list.len(),
{
    if list.len() > 0 {
        let shorter = list.drop_last();
        let e = list.last();
        saved_sizes_are_as_fresh_as_their_tree(shorter, freshness, path);
        if path == e.path {
            assert(list[list.len() - 1] == saved_line(path, loaded_lines(list, freshness)[path]));
        } else {
            assert(loaded_lines(list, freshness).contains_key(path) == loaded_lines(
                shorter,
                freshness,
            ).contains_key(path));
            if saved_paths(list).contains(path) {
                let i = choose|i: int| 0 <= i < list.len() && (#[trigger] list[i]).path == path;
                assert(shorter[i] == list[i]);
            }
            if saved_paths(shorter).contains(path) {
                let i = choose|i: int|
                    0 <= i < shorter.len() && (#[trigger] shorter[i]).path == path;
                assert(list[i].path == path);
                let line = loaded_lines(shorter, freshness)[path];
                let k = choose|k: int|
                    0 <= k < shorter.len() && #[trigger] shorter[k] == saved_line(path, line);
                assert(list[k] == saved_line(path, line));
            }
        }
    }
}

/// Of more sizes than are kept, as many are saved as are kept, and all of them
/// come from those; of fewer, all are saved. None is made up.
pub proof fn as_many_sizes_as_fit_are_saved(all: Seq<state::CachedModel>, line: state::CachedModel)
    ensures
        kept_lines(all).len() == if all.len() <= 50_000 {
            all.len()
        } else {
            50_000
        },
        sums::times(kept_lines(all), line) <= sums::times(all, line),
{
    broadcast use vstd::seq_lib::group_to_multiset_ensures;

    let list = sorting::arranged(&NewestFirst, all);
    let kept = kept_lines(all);
    sorting::arranged_keeps_items(&NewestFirst, all);
    let rest = list.skip(kept.len() as int);
    assert(kept + rest =~= list);
    sums::times_of_parts(kept, rest, line);
}

/// Of several saved sizes of one path the last one is taken over, as it was
/// saved.
pub proof fn the_last_saved_size_counts(
    list: Seq<state::CachedModel>,
    freshness: fsevents::FreshnessModel,
    i: int,
)
    requires
        0 <= i < list.len(),
        forall|k: int| i < k < list.len() ==> (#[trigger] list[k]).path != list[i].path,
    ensures
        ({
            let m = loaded_lines(list, freshness);
            let path = list[i].path;
            &&& m.contains_key(path)
            &&& m[path].size == list[i].size
            &&& m[path].inaccessible == list[i].inaccessible
            &&& m[path].scanned_at == list[i].scanned_at
            &&& m[path].stale == fsevents::stale(freshness, path)
        }),
    decreases list.len(),
{
    let less = list.drop_last();
    if i < less.len() {
        assert(less[i] == list[i]);
        assert(list[list.len() - 1] == list.last());
        assert forall|k: int| i < k < less.len() implies (#[trigger] less[k]).path
            != less[i].path by {
            assert(less[k] == list[k]);
        }
        the_last_saved_size_counts(less, freshness, i);
    }
}

/// A change of a path forgets what is remembered of the path, of what lies in it
/// and of the directories around it, and of nothing else.
pub proof fn a_change_forgets_what_it_touches(
    m: Map<Seq<char>, CacheLine>,
    path: Seq<char>,
    k: Seq<char>,
)
    ensures
        ({
            let touched = paths::lies_under(paths::path_of(k), paths::path_of(path))
                || paths::lies_under(paths::path_of(path), paths::path_of(k));
            &&& without_related(m, path).contains_key(k) <==> m.contains_key(k) && !touched
            &&& without_related(m, path).contains_key(k) ==> without_related(m, path)[k] == m[k]
        }),
{
}

} // verus!
