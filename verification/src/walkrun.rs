//! What a whole walk finds: the steps that the threads of a walk take, in any
//! order in which they may come, and what has been found once it is over.

use crate::bulkstat;
use crate::paths;
use crate::sorting;
use crate::sums;
use crate::walk;
use vstd::prelude::*;

verus! {

// ---------------------------------------------------------------------------
// The entries that are met
// ---------------------------------------------------------------------------

/// An entry that was met in a directory.
#[verifier::ext_equal]
pub struct Met {
    /// The path of the directory.
    pub dir: Seq<char>,
    /// Its path below the root, as the file system has it.
    pub below: Seq<u8>,
    pub entry: bulkstat::EntryModel,
}

/// A regular file whose attributes could be read.
pub open spec fn is_file(entry: bulkstat::EntryModel) -> bool {
    entry.error == 0 && entry.objtype == 1
}

/// The identity of a file with several links: its device, the root's where none
/// is given, and its number there.
pub open spec fn identity(entry: bulkstat::EntryModel, policy: bulkstat::ScanPolicy) -> Option<
    (u64, u64),
> {
    match entry.fileid {
        Some(id) => if entry.linkcount >= 2 {
            Some(
                (
                    match entry.devid {
                        Some(dev) => dev,
                        None => policy.root_dev,
                    },
                    id,
                ),
            )
        } else {
            None
        },
        None => None,
    }
}

/// The identities of the files with several links among the entries.
pub open spec fn identities(met: Seq<Met>, policy: bulkstat::ScanPolicy) -> Set<(u64, u64)> {
    Set::new(
        |id: (u64, u64)|
            exists|i: int|
                0 <= i < met.len() && is_file((#[trigger] met[i]).entry) && identity(
                    met[i].entry,
                    policy,
                ) == Some(id),
    )
}

/// The last of the entries is a file that counts: none of the entries before it
/// is another link to it.
pub open spec fn counts(met: Seq<Met>, policy: bulkstat::ScanPolicy) -> bool {
    let entry = met.last().entry;
    is_file(entry) && match identity(entry, policy) {
        Some(id) => !identities(met.drop_last(), policy).contains(id),
        None => true,
    }
}

/// A subdirectory whose attributes could be read.
pub open spec fn is_subdir(entry: bulkstat::EntryModel) -> bool {
    entry.error == 0 && entry.objtype == 2 && entry.name is Some && entry.name->0 != seq![46u8]
        && entry.name->0 != seq![46u8, 46u8]
}

/// The path of an entry.
pub open spec fn path_of_met(met: Met) -> Seq<char> {
    paths::join_text(met.dir, bulkstat::lossy_text(met.entry.name->0))
}

/// A subdirectory that does not belong to the scan: one on a device that is
/// neither the root's nor the Data volume's, and the mount point of the Data
/// volume where the scan reaches it from above.
pub open spec fn is_left_out(met: Met, policy: bulkstat::ScanPolicy) -> bool {
    is_subdir(met.entry) && {
        ||| match met.entry.devid {
            Some(dev) => dev != policy.root_dev && Some(dev) != policy.data_dev,
            None => false,
        }
        ||| policy.skip_data_volume && paths::path_of(path_of_met(met)) == paths::path_of(
            "/System/Volumes/Data"@,
        )
    }
}

/// The files with a name that count, each as it competes for the largest.
pub open spec fn files(met: Seq<Met>, policy: bulkstat::ScanPolicy) -> Seq<
    bulkstat::CandidateModel,
>
    decreases met.len(),
{
    if met.len() == 0 {
        Seq::empty()
    } else {
        let before = files(met.drop_last(), policy);
        let m = met.last();
        if counts(met, policy) && m.entry.name is Some {
            before.push(
                bulkstat::CandidateModel {
                    allocated: m.entry.allocsize,
                    logical: m.entry.totalsize,
                    path: path_of_met(m),
                },
            )
        } else {
            before
        }
    }
}

/// The subdirectory that an entry stands for.
pub open spec fn subdir_of(met: Met) -> bulkstat::SubdirModel {
    bulkstat::SubdirModel {
        name: met.entry.name->0,
        path: path_of_met(met),
    }
}

/// The subdirectories that belong to the scan.
pub open spec fn places(met: Seq<Met>, policy: bulkstat::ScanPolicy) -> Seq<walk::PlaceModel>
    decreases met.len(),
{
    if met.len() == 0 {
        Seq::empty()
    } else {
        let before = places(met.drop_last(), policy);
        let m = met.last();
        if is_subdir(m.entry) && !is_left_out(m, policy) {
            before.push(walk::place_in(m.below, subdir_of(m)))
        } else {
            before
        }
    }
}

/// What a walk adds up.
pub enum Tally {
    /// The logical bytes of the files.
    Logical,
    /// The allocated bytes of the files.
    Allocated,
    /// The entries that could not be read.
    Unreadable,
    /// The subdirectories that do not belong to the scan.
    Skipped,
}

/// What the last of the entries adds.
pub open spec fn gain(met: Seq<Met>, policy: bulkstat::ScanPolicy, what: Tally) -> nat {
    let m = met.last();
    match what {
        Tally::Logical => if counts(met, policy) {
            m.entry.totalsize as nat
        } else {
            0
        },
        Tally::Allocated => if counts(met, policy) {
            m.entry.allocsize as nat
        } else {
            0
        },
        Tally::Unreadable => if m.entry.error != 0 {
            1
        } else {
            0
        },
        Tally::Skipped => if is_left_out(m, policy) {
            1
        } else {
            0
        },
    }
}

/// What all entries add up to.
pub open spec fn tallied(met: Seq<Met>, policy: bulkstat::ScanPolicy, what: Tally) -> nat
    decreases met.len(),
{
    if met.len() == 0 {
        0
    } else {
        tallied(met.drop_last(), policy, what) + gain(met, policy, what)
    }
}

/// The entries in a buffer, as far as they can be decoded.
pub open spec fn entries_of(buf: Seq<u8>, count: nat, start: int) -> Seq<bulkstat::EntryModel>
    decreases count,
{
    if count == 0 {
        Seq::empty()
    } else {
        match bulkstat::entry_at(buf, start) {
            None => Seq::empty(),
            Some(e) => seq![e] + entries_of(buf, (count - 1) as nat, start + e.length),
        }
    }
}

/// The entries as they are met in the directory of a chain.
pub open spec fn met_in(chain: walk::ChainModel, entries: Seq<bulkstat::EntryModel>) -> Seq<Met> {
    entries.map_values(
        |e: bulkstat::EntryModel| Met { dir: chain.dir, below: chain.below, entry: e },
    )
}

// ---------------------------------------------------------------------------
// Runs
// ---------------------------------------------------------------------------

/// A step that a thread takes; a chain is named by its place among those that
/// are being followed.
pub enum WalkEvent {
    /// A directory that waits was taken: a chain begins there.
    Took,
    /// The chain's directory was opened, and this was read of it.
    Read { chain: int, buf: Seq<u8>, count: nat },
    /// The chain's directory was read to its end.
    Closed { chain: int },
    /// The chain's directory could not be opened.
    Unopened { chain: int, unreadable: u32 },
    /// The chain has ended.
    Ended { chain: int },
}

/// A chain that is being followed.
#[verifier::ext_equal]
pub struct Followed {
    pub chain: walk::ChainModel,
    /// Its directory is still to be read.
    pub open: bool,
    /// The files of the directories behind it.
    pub kept: Seq<bulkstat::CandidateModel>,
    /// The files of its directory so far.
    pub fresh: Seq<bulkstat::CandidateModel>,
}

/// What has happened since a walk began.
#[verifier::ext_equal]
pub struct WalkRun {
    pub walk: walk::WalkingModel,
    /// Every step could be taken when it was: a directory waited, and a chain
    /// ends when there is nothing left to read of it.
    pub possible: bool,
    pub chains: Seq<Followed>,
    /// The entries that were met, in order.
    pub met: Seq<Met>,
    /// The directories that were gone into.
    pub entered: Seq<walk::PlaceModel>,
    /// How many of them were read to their end or could not be opened.
    pub finished: nat,
    /// What the directories that could not be opened add to the unreadable.
    pub unopened: nat,
    /// The files of the chains that have ended.
    pub ended: Seq<bulkstat::CandidateModel>,
}

impl WalkRun {
    pub open spec fn after(self, event: WalkEvent) -> WalkRun {
        let policy = self.walk.policy;
        match event {
            WalkEvent::Took => {
                let place = self.walk.waiting.last();
                WalkRun {
                    possible: self.possible && self.walk.waiting.len() > 0,
                    walk: self.walk.after_next(),
                    chains: self.chains.push(
                        Followed {
                            chain: walk::new_chain(place),
                            open: true,
                            kept: Seq::empty(),
                            fresh: Seq::empty(),
                        },
                    ),
                    entered: self.entered.push(place),
                    ..self
                }
            },
            WalkEvent::Read { chain: i, buf, count } => {
                let f = self.chains[i];
                let met = self.met + met_in(f.chain, entries_of(buf, count, 0));
                let (part, seen) = bulkstat::with_entries(
                    buf,
                    count,
                    0,
                    f.chain.dir,
                    self.walk.limit,
                    policy,
                    (f.chain.part, self.walk.seen),
                );
                WalkRun {
                    possible: self.possible && 0 <= i < self.chains.len() && f.open,
                    walk: walk::WalkingModel { seen, ..self.walk },
                    chains: self.chains.update(
                        i,
                        Followed {
                            chain: walk::ChainModel { part, ..f.chain },
                            fresh: f.fresh + files(met, policy).skip(
                                files(self.met, policy).len() as int,
                            ),
                            ..f
                        },
                    ),
                    met,
                    ..self
                }
            },
            WalkEvent::Closed { chain: i } => {
                let f = self.chains[i];
                let subdirs = f.chain.part.subdirs;
                WalkRun {
                    possible: self.possible && 0 <= i < self.chains.len() && f.open,
                    walk: self.walk.after_close(f.chain),
                    chains: self.chains.update(
                        i,
                        Followed {
                            chain: f.chain.closed(self.walk.limit),
                            open: subdirs.len() > 0,
                            kept: f.kept + f.fresh,
                            fresh: Seq::empty(),
                        },
                    ),
                    entered: if subdirs.len() > 0 {
                        self.entered.push(walk::place_in(f.chain.below, subdirs.last()))
                    } else {
                        self.entered
                    },
                    finished: self.finished + 1,
                    ..self
                }
            },
            WalkEvent::Unopened { chain: i, unreadable } => {
                let f = self.chains[i];
                WalkRun {
                    possible: self.possible && 0 <= i < self.chains.len() && f.open && f.chain.part
                        == bulkstat::empty_directory() && f.fresh.len() == 0,
                    chains: self.chains.update(
                        i,
                        Followed {
                            chain: f.chain.unopened(unreadable),
                            open: false,
                            ..f
                        },
                    ),
                    finished: self.finished + 1,
                    unopened: self.unopened + unreadable as nat,
                    ..self
                }
            },
            WalkEvent::Ended { chain: i } => {
                let f = self.chains[i];
                WalkRun {
                    possible: self.possible && 0 <= i < self.chains.len() && !f.open,
                    walk: self.walk.after_chain(f.chain),
                    chains: self.chains.remove(i),
                    ended: self.ended + f.kept,
                    ..self
                }
            },
        }
    }

    /// What has been met of something so far.
    pub open spec fn total(self, what: Tally) -> nat {
        tallied(self.met, self.walk.policy, what) + if what is Unreadable {
            self.unopened
        } else {
            0
        }
    }
}

/// A walk after some steps.
pub open spec fn walk_run(start: walk::WalkingModel, events: Seq<WalkEvent>) -> WalkRun
    decreases events.len(),
{
    if events.len() == 0 {
        WalkRun {
            walk: start,
            possible: true,
            chains: Seq::empty(),
            met: Seq::empty(),
            entered: Seq::empty(),
            finished: 0,
            unopened: 0,
            ended: Seq::empty(),
        }
    } else {
        walk_run(start, events.drop_last()).after(events.last())
    }
}

// ---------------------------------------------------------------------------
// One entry after the other
// ---------------------------------------------------------------------------

/// What is known after some entries of a directory.
spec fn after_entries(
    dir: Seq<char>,
    limit: nat,
    policy: bulkstat::ScanPolicy,
    entries: Seq<bulkstat::EntryModel>,
    known: (bulkstat::DirectoryModel, Set<(u64, u64)>),
) -> (bulkstat::DirectoryModel, Set<(u64, u64)>)
    decreases entries.len(),
{
    if entries.len() == 0 {
        known
    } else {
        bulkstat::with_entry(
            dir,
            limit,
            policy,
            entries.last(),
            after_entries(dir, limit, policy, entries.drop_last(), known),
        )
    }
}

proof fn after_first_entry(
    dir: Seq<char>,
    limit: nat,
    policy: bulkstat::ScanPolicy,
    first: bulkstat::EntryModel,
    rest: Seq<bulkstat::EntryModel>,
    known: (bulkstat::DirectoryModel, Set<(u64, u64)>),
)
    ensures
        after_entries(dir, limit, policy, seq![first] + rest, known) == after_entries(
            dir,
            limit,
            policy,
            rest,
            bulkstat::with_entry(dir, limit, policy, first, known),
        ),
    decreases rest.len(),
{
    let all = seq![first] + rest;
    if rest.len() == 0 {
        assert(all.drop_last() =~= Seq::<bulkstat::EntryModel>::empty());
        assert(all.last() == first);
        reveal_with_fuel(after_entries, 2);
    } else {
        assert(all.drop_last() =~= seq![first] + rest.drop_last());
        assert(all.last() == rest.last());
        after_first_entry(dir, limit, policy, first, rest.drop_last(), known);
    }
}

/// Reading a buffer is reading its entries one after the other.
proof fn buffer_is_its_entries(
    buf: Seq<u8>,
    count: nat,
    start: int,
    dir: Seq<char>,
    limit: nat,
    policy: bulkstat::ScanPolicy,
    known: (bulkstat::DirectoryModel, Set<(u64, u64)>),
)
    ensures
        bulkstat::with_entries(buf, count, start, dir, limit, policy, known) == after_entries(
            dir,
            limit,
            policy,
            entries_of(buf, count, start),
            known,
        ),
    decreases count,
{
    if count > 0 {
        match bulkstat::entry_at(buf, start) {
            None => {},
            Some(e) => {
                let less = (count - 1) as nat;
                let next = bulkstat::with_entry(dir, limit, policy, e, known);
                buffer_is_its_entries(buf, less, start + e.length, dir, limit, policy, next);
                after_first_entry(
                    dir,
                    limit,
                    policy,
                    e,
                    entries_of(buf, less, start + e.length),
                    known,
                );
            },
        }
    }
}

/// What a directory, or a chain of them, holds of something.
spec fn held(found: bulkstat::DirectoryModel, what: Tally) -> int {
    match what {
        Tally::Logical => found.size.logical as int,
        Tally::Allocated => found.size.allocated as int,
        Tally::Unreadable => found.inaccessible as int,
        Tally::Skipped => found.skipped_mounts as int,
    }
}

/// What the totals hold of something.
spec fn summed(state: bulkstat::WalkModel, what: Tally) -> int {
    match what {
        Tally::Logical => state.size.logical as int,
        Tally::Allocated => state.size.allocated as int,
        Tally::Unreadable => state.inaccessible as int,
        Tally::Skipped => state.skipped_mounts as int,
    }
}

/// The most that can be held of something.
pub open spec fn most(what: Tally) -> int {
    match what {
        Tally::Logical => u64::MAX as int,
        Tally::Allocated => u64::MAX as int,
        Tally::Unreadable => u32::MAX as int,
        Tally::Skipped => u32::MAX as int,
    }
}

spec fn at_most(n: int, what: Tally) -> int {
    if n > most(what) {
        most(what)
    } else {
        n
    }
}

proof fn identities_with_one_more(met: Seq<Met>, m: Met, policy: bulkstat::ScanPolicy)
    ensures
        identities(met.push(m), policy) == if is_file(m.entry) && identity(
            m.entry,
            policy,
        ) is Some {
            identities(met, policy).insert(identity(m.entry, policy)->0)
        } else {
            identities(met, policy)
        },
{
    let more = met.push(m);
    let last = met.len() as int;
    assert(more[last] == m);
    assert forall|id: (u64, u64)|
        identities(more, policy).contains(id) == (identities(met, policy).contains(id) || (is_file(
            m.entry,
        ) && identity(m.entry, policy) == Some(id))) by {
        if identities(met, policy).contains(id) {
            let i = choose|i: int|
                0 <= i < met.len() && is_file((#[trigger] met[i]).entry) && identity(
                    met[i].entry,
                    policy,
                ) == Some(id);
            assert(more[i] == met[i]);
        }
        if identities(more, policy).contains(id) {
            let i = choose|i: int|
                0 <= i < more.len() && is_file((#[trigger] more[i]).entry) && identity(
                    more[i].entry,
                    policy,
                ) == Some(id);
            if i < last {
                assert(more[i] == met[i]);
            }
        }
    }
    if is_file(m.entry) && identity(m.entry, policy) is Some {
        assert(identities(more, policy) =~= identities(met, policy).insert(
            identity(m.entry, policy)->0,
        ));
    } else {
        assert(identities(more, policy) =~= identities(met, policy));
    }
}

/// The links that were met are known, and of the files that a directory brought
/// the largest are kept.
spec fn books(
    met: Seq<Met>,
    found: bulkstat::DirectoryModel,
    seen: Set<(u64, u64)>,
    fresh: Seq<bulkstat::CandidateModel>,
    limit: nat,
    policy: bulkstat::ScanPolicy,
) -> bool {
    &&& seen == identities(met, policy)
    &&& found.largest_files == sorting::best(&bulkstat::LargestFirst, fresh, limit)
}

proof fn best_of_none(list: Seq<bulkstat::CandidateModel>)
    ensures
        sorting::best(&bulkstat::LargestFirst, list, 0) == Seq::<bulkstat::CandidateModel>::empty(),
{
    let all = sorting::arranged(&bulkstat::LargestFirst, list);
    if all.len() > 0 {
        assert(all.take(0) =~= Seq::<bulkstat::CandidateModel>::empty());
    }
    assert(sorting::best(&bulkstat::LargestFirst, list, 0) =~= Seq::<
        bulkstat::CandidateModel,
    >::empty());
}

/// The files that one more entry adds to those that count.
spec fn newest_file(met: Seq<Met>, policy: bulkstat::ScanPolicy) -> Seq<bulkstat::CandidateModel> {
    files(met, policy).skip(files(met.drop_last(), policy).len() as int)
}

proof fn one_entry(
    met: Seq<Met>,
    m: Met,
    found: bulkstat::DirectoryModel,
    seen: Set<(u64, u64)>,
    fresh: Seq<bulkstat::CandidateModel>,
    limit: nat,
    policy: bulkstat::ScanPolicy,
)
    requires
        books(met, found, seen, fresh, limit, policy),
    ensures
        ({
            let (after, now) = bulkstat::with_entry(m.dir, limit, policy, m.entry, (found, seen));
            let more = met.push(m);
            &&& files(met, policy) + newest_file(more, policy) == files(more, policy)
            &&& books(more, after, now, fresh + newest_file(more, policy), limit, policy)
            &&& forall|what: Tally| #[trigger]
                held(after, what) == at_most(held(found, what) + gain(more, policy, what), what)
            &&& after.subdirs == if is_subdir(m.entry) && !is_left_out(m, policy) {
                found.subdirs.push(subdir_of(m))
            } else {
                found.subdirs
            }
        }),
{
    let more = met.push(m);
    assert(more.drop_last() =~= met);
    assert(more.last() == m);
    identities_with_one_more(met, m, policy);
    let (after, now) = bulkstat::with_entry(m.dir, limit, policy, m.entry, (found, seen));
    let news = newest_file(more, policy);
    assert(files(met, policy) + news =~= files(more, policy));
    if is_file(m.entry) && !counts(more, policy) {
        assert(identities(met, policy).insert(identity(m.entry, policy)->0) =~= identities(
            met,
            policy,
        ));
    }
    if counts(more, policy) && m.entry.name is Some {
        let c = bulkstat::CandidateModel {
            allocated: m.entry.allocsize,
            logical: m.entry.totalsize,
            path: bulkstat::entry_path(m.dir, m.entry.name->0),
        };
        assert(news =~= seq![c]);
        assert(fresh + news =~= fresh.push(c));
        sorting::best_of_push(&bulkstat::LargestFirst, fresh, c, limit);
        if limit == 0 {
            best_of_none(fresh);
            best_of_none(fresh.push(c));
        }
    } else {
        assert(news =~= Seq::<bulkstat::CandidateModel>::empty());
        assert(fresh + news =~= fresh);
    }
}

// ---------------------------------------------------------------------------
// One buffer after the other
// ---------------------------------------------------------------------------

/// The places of some subdirectories.
spec fn listed(below: Seq<u8>, subdirs: Seq<bulkstat::SubdirModel>) -> Seq<walk::PlaceModel> {
    subdirs.map_values(|s: bulkstat::SubdirModel| walk::place_in(below, s))
}

proof fn listed_with_one_more(
    below: Seq<u8>,
    subdirs: Seq<bulkstat::SubdirModel>,
    more: bulkstat::SubdirModel,
)
    ensures
        listed(below, subdirs.push(more)) == listed(below, subdirs).push(
            walk::place_in(below, more),
        ),
{
    assert(listed(below, subdirs.push(more)) =~= listed(below, subdirs).push(
        walk::place_in(below, more),
    ));
}

/// What the entries of one directory add.
proof fn many_entries(
    met: Seq<Met>,
    chain: walk::ChainModel,
    entries: Seq<bulkstat::EntryModel>,
    seen: Set<(u64, u64)>,
    fresh: Seq<bulkstat::CandidateModel>,
    limit: nat,
    policy: bulkstat::ScanPolicy,
)
    requires
        books(met, chain.part, seen, fresh, limit, policy),
    ensures
        ({
            let (after, now) = after_entries(chain.dir, limit, policy, entries, (chain.part, seen));
            let more = met + met_in(chain, entries);
            let news = files(more, policy).skip(files(met, policy).len() as int);
            &&& files(met, policy) + news == files(more, policy)
            &&& books(more, after, now, fresh + news, limit, policy)
            &&& forall|what: Tally| #[trigger]
                tallied(more, policy, what) >= tallied(met, policy, what) && held(after, what)
                    == at_most(
                    held(chain.part, what) + tallied(more, policy, what) - tallied(
                        met,
                        policy,
                        what,
                    ),
                    what,
                )
            &&& forall|p: walk::PlaceModel| #[trigger]
                sums::times(listed(chain.below, after.subdirs), p) + sums::times(places(met, policy), p)
                    == sums::times(listed(chain.below, chain.part.subdirs), p) + sums::times(
                    places(more, policy),
                    p,
                )
        }),
    decreases entries.len(),
{
    let more = met + met_in(chain, entries);
    let news = files(more, policy).skip(files(met, policy).len() as int);
    if entries.len() == 0 {
        assert(more =~= met);
        assert(news =~= Seq::<bulkstat::CandidateModel>::empty());
        assert(files(met, policy) + news =~= files(met, policy));
        assert(fresh + news =~= fresh);
    } else {
        let part = entries.drop_last();
        let before = met + met_in(chain, part);
        let m = Met { dir: chain.dir, below: chain.below, entry: entries.last() };
        assert(more =~= before.push(m));
        assert(more.drop_last() =~= before);
        many_entries(met, chain, part, seen, fresh, limit, policy);
        let (found, known) = after_entries(chain.dir, limit, policy, part, (chain.part, seen));
        let old_news = files(before, policy).skip(files(met, policy).len() as int);
        one_entry(before, m, found, known, fresh + old_news, limit, policy);
        let newest = newest_file(more, policy);
        assert(news =~= old_news + newest) by {
            assert(files(more, policy) =~= files(met, policy) + old_news + newest);
        }
        assert(files(met, policy) + news =~= files(more, policy));
        assert(fresh + news =~= fresh + old_news + newest);
        let (after, now) = after_entries(chain.dir, limit, policy, entries, (chain.part, seen));
        assert forall|what: Tally| #[trigger]
            tallied(more, policy, what) >= tallied(met, policy, what) && held(after, what)
                == at_most(
                held(chain.part, what) + tallied(more, policy, what) - tallied(met, policy, what),
                what,
            ) by {
            assert(tallied(before, policy, what) >= tallied(met, policy, what));
            assert(held(after, what) == at_most(held(found, what) + gain(more, policy, what), what));
        }
        assert forall|p: walk::PlaceModel| #[trigger]
            sums::times(listed(chain.below, after.subdirs), p) + sums::times(places(met, policy), p) == sums::times(
                listed(chain.below, chain.part.subdirs),
                p,
            ) + sums::times(places(more, policy), p) by {
            assert(sums::times(listed(chain.below, found.subdirs), p) + sums::times(places(met, policy), p)
                == sums::times(listed(chain.below, chain.part.subdirs), p) + sums::times(
                places(before, policy),
                p,
            ));
            let place = walk::place_in(chain.below, subdir_of(m));
            listed_with_one_more(chain.below, found.subdirs, subdir_of(m));
            sums::times_of_push(listed(chain.below, found.subdirs), place, p);
            sums::times_of_push(places(before, policy), place, p);
        }
    }
}

// ---------------------------------------------------------------------------
// What every run keeps
// ---------------------------------------------------------------------------

/// What a chain holds of something.
spec fn holding(what: Tally) -> spec_fn(Followed) -> int {
    |f: Followed| held(f.chain.total, what) + held(f.chain.part, what)
}

/// How often a file stands among those of a chain.
spec fn filing(c: bulkstat::CandidateModel) -> spec_fn(Followed) -> int {
    |f: Followed| (sums::times(f.kept, c) + sums::times(f.fresh, c)) as int
}

/// How often a place stands among the subdirectories that a chain has still to
/// hand out.
spec fn listing(p: walk::PlaceModel) -> spec_fn(Followed) -> int {
    |f: Followed| sums::times(listed(f.chain.below, f.chain.part.subdirs), p) as int
}

/// One for a chain whose directory is still to be read.
spec fn opened() -> spec_fn(Followed) -> int {
    |f: Followed|
        if f.open {
            1int
        } else {
            0
        }
}

spec fn chain_is_kept(f: Followed, limit: nat) -> bool {
    &&& f.chain.total.largest_files == sorting::best(&bulkstat::LargestFirst, f.kept, limit)
    &&& f.chain.part.largest_files == sorting::best(&bulkstat::LargestFirst, f.fresh, limit)
    &&& !f.open ==> f.chain.part == bulkstat::empty_directory() && f.fresh.len() == 0
}

spec fn is_kept(run: WalkRun, start: walk::WalkingModel) -> bool {
    &&& run.walk.limit == start.limit
    &&& run.walk.policy == start.policy
    &&& run.walk.state.top_file_limit == start.limit
    &&& run.walk.active == run.chains.len()
    &&& run.walk.seen == identities(run.met, start.policy)
    &&& run.walk.state.largest_files == sorting::best(
        &bulkstat::LargestFirst,
        run.ended,
        start.limit,
    )
    &&& forall|i: int|
        0 <= i < run.chains.len() ==> #[trigger] chain_is_kept(run.chains[i], start.limit)
}

spec fn adds_up(run: WalkRun, what: Tally) -> bool {
    run.total(what) <= most(what) ==> summed(run.walk.state, what) + sums::added(
        run.chains,
        holding(what),
    ) == run.total(what)
}

spec fn files_are_kept(run: WalkRun, c: bulkstat::CandidateModel) -> bool {
    sums::times(run.ended, c) + sums::added(run.chains, filing(c)) == sums::times(
        files(run.met, run.walk.policy),
        c,
    )
}

spec fn places_are_kept(run: WalkRun, start: walk::WalkingModel, p: walk::PlaceModel) -> bool {
    sums::times(run.entered, p) + sums::times(run.walk.waiting, p) + sums::added(run.chains, listing(p))
        == sums::times(start.waiting, p) + sums::times(places(run.met, run.walk.policy), p)
}

spec fn all_are_read(run: WalkRun) -> bool {
    run.finished + sums::added(run.chains, opened()) == run.entered.len()
}

/// A chain that reads a buffer.
proof fn read_is_kept(run: WalkRun, i: int, buf: Seq<u8>, count: nat, start: walk::WalkingModel)
    requires
        is_kept(run, start),
        0 <= i < run.chains.len(),
        run.chains[i].open,
    ensures
        ({
            let after = run.after(WalkEvent::Read { chain: i, buf, count });
            let f = run.chains[i];
            let g = after.chains[i];
            &&& is_kept(after, start)
            &&& g.open
            &&& g.kept == f.kept
            &&& g.chain.total == f.chain.total
            &&& g.chain.below == f.chain.below
            &&& files(run.met, start.policy) + g.fresh.skip(f.fresh.len() as int) == files(
                after.met,
                start.policy,
            )
            &&& g.fresh == f.fresh + g.fresh.skip(f.fresh.len() as int)
            &&& forall|what: Tally| #[trigger]
                tallied(after.met, start.policy, what) >= tallied(run.met, start.policy, what)
                    && held(g.chain.part, what) == at_most(
                    held(f.chain.part, what) + tallied(after.met, start.policy, what) - tallied(
                        run.met,
                        start.policy,
                        what,
                    ),
                    what,
                )
            &&& forall|p: walk::PlaceModel| #[trigger]
                sums::times(listed(f.chain.below, g.chain.part.subdirs), p) + sums::times(
                    places(run.met, start.policy),
                    p,
                ) == sums::times(listed(f.chain.below, f.chain.part.subdirs), p) + sums::times(
                    places(after.met, start.policy),
                    p,
                )
        }),
{
    let after = run.after(WalkEvent::Read { chain: i, buf, count });
    let f = run.chains[i];
    let entries = entries_of(buf, count, 0);
    assert(chain_is_kept(f, start.limit));
    buffer_is_its_entries(
        buf,
        count,
        0,
        f.chain.dir,
        start.limit,
        start.policy,
        (f.chain.part, run.walk.seen),
    );
    many_entries(
        run.met,
        f.chain,
        entries,
        run.walk.seen,
        f.fresh,
        start.limit,
        start.policy,
    );
    let g = after.chains[i];
    assert(g.fresh.skip(f.fresh.len() as int) =~= files(after.met, start.policy).skip(
        files(run.met, start.policy).len() as int,
    ));
    assert forall|j: int| 0 <= j < after.chains.len() implies #[trigger] chain_is_kept(
        after.chains[j],
        start.limit,
    ) by {
        if j != i {
            assert(chain_is_kept(run.chains[j], start.limit));
            assert(after.chains[j] == run.chains[j]);
        }
    }
}

/// What every step keeps.
proof fn step_is_kept(run: WalkRun, event: WalkEvent, start: walk::WalkingModel)
    requires
        is_kept(run, start),
        run.after(event).possible,
    ensures
        is_kept(run.after(event), start),
{
    let after = run.after(event);
    let limit = start.limit;
    match event {
        WalkEvent::Took => {
            let none = Seq::<bulkstat::CandidateModel>::empty();
            assert(sorting::best(&bulkstat::LargestFirst, none, limit) =~= none);
            assert forall|j: int| 0 <= j < after.chains.len() implies #[trigger] chain_is_kept(
                after.chains[j],
                limit,
            ) by {
                if j < run.chains.len() {
                    assert(chain_is_kept(run.chains[j], limit));
                    assert(after.chains[j] == run.chains[j]);
                }
            }
        },
        WalkEvent::Read { chain: i, buf, count } => {
            read_is_kept(run, i, buf, count, start);
        },
        WalkEvent::Closed { chain: i } => {
            let f = run.chains[i];
            assert(chain_is_kept(f, limit));
            let none = Seq::<bulkstat::CandidateModel>::empty();
            assert(sorting::best(&bulkstat::LargestFirst, none, limit) =~= none);
            walk::largest_of_parts(f.kept, f.fresh, limit);
            assert forall|j: int| 0 <= j < after.chains.len() implies #[trigger] chain_is_kept(
                after.chains[j],
                limit,
            ) by {
                if j != i {
                    assert(chain_is_kept(run.chains[j], limit));
                    assert(after.chains[j] == run.chains[j]);
                }
            }
        },
        WalkEvent::Unopened { chain: i, unreadable } => {
            let f = run.chains[i];
            assert(chain_is_kept(f, limit));
            assert forall|j: int| 0 <= j < after.chains.len() implies #[trigger] chain_is_kept(
                after.chains[j],
                limit,
            ) by {
                if j != i {
                    assert(chain_is_kept(run.chains[j], limit));
                    assert(after.chains[j] == run.chains[j]);
                }
            }
        },
        WalkEvent::Ended { chain: i } => {
            let f = run.chains[i];
            assert(chain_is_kept(f, limit));
            walk::largest_of_parts(run.ended, f.kept, limit);
            assert forall|j: int| 0 <= j < after.chains.len() implies #[trigger] chain_is_kept(
                after.chains[j],
                limit,
            ) by {
                let k = if j < i {
                    j
                } else {
                    j + 1
                };
                assert(chain_is_kept(run.chains[k], limit));
                assert(after.chains[j] == run.chains[k]);
            }
        },
    }
}

proof fn absorbing_adds_up(
    total: bulkstat::DirectoryModel,
    limit: nat,
    part: bulkstat::DirectoryModel,
    what: Tally,
)
    ensures
        held(bulkstat::absorbed(total, limit, part), what) == at_most(
            held(total, what) + held(part, what),
            what,
        ),
        held(bulkstat::empty_directory(), what) == 0,
{
}

proof fn merging_adds_up(
    state: bulkstat::WalkModel,
    chain: bulkstat::DirectoryModel,
    what: Tally,
)
    requires
        summed(state, what) + held(chain, what) <= most(what),
    ensures
        summed(bulkstat::merged_chain(state, chain), what) == summed(state, what) + held(
            chain,
            what,
        ),
{
}

proof fn chains_hold_no_less(chains: Seq<Followed>, what: Tally)
    ensures
        sums::added(chains, holding(what)) >= 0,
        forall|i: int|
            0 <= i < chains.len() ==> held((#[trigger] chains[i]).chain.total, what) + held(
                chains[i].chain.part,
                what,
            ) <= sums::added(chains, holding(what)),
{
    let held_by = holding(what);
    assert forall|i: int| 0 <= i < chains.len() implies held_by(#[trigger] chains[i]) >= 0 by {
        let f = chains[i];
        assert(held(f.chain.total, what) >= 0 && held(f.chain.part, what) >= 0);
    }
    sums::added_is_no_less(chains, held_by);
    assert forall|i: int| 0 <= i < chains.len() implies held(
        (#[trigger] chains[i]).chain.total,
        what,
    ) + held(chains[i].chain.part, what) <= sums::added(chains, holding(what)) by {
        assert(held_by(chains[i]) <= sums::added(chains, held_by));
    }
}

proof fn read_adds_up(
    run: WalkRun,
    i: int,
    buf: Seq<u8>,
    count: nat,
    start: walk::WalkingModel,
    what: Tally,
)
    requires
        is_kept(run, start),
        adds_up(run, what),
        0 <= i < run.chains.len(),
        run.chains[i].open,
    ensures
        adds_up(run.after(WalkEvent::Read { chain: i, buf, count }), what),
{
    let after = run.after(WalkEvent::Read { chain: i, buf, count });
    let held_by = holding(what);
    let f = run.chains[i];
    let g = after.chains[i];
    chains_hold_no_less(run.chains, what);
    read_is_kept(run, i, buf, count, start);
    sums::added_with_other(run.chains, held_by, i, g);
    let old_total = tallied(run.met, start.policy, what);
    let new_total = tallied(after.met, start.policy, what);
    assert(new_total >= old_total);
    assert(held(g.chain.part, what) == at_most(
        held(f.chain.part, what) + new_total - old_total,
        what,
    ));
    assert(after.total(what) - run.total(what) == new_total - old_total);
    assert(held_by(f) == held(f.chain.total, what) + held(f.chain.part, what));
    assert(held_by(g) == held(f.chain.total, what) + held(g.chain.part, what));
    assert(held(f.chain.total, what) >= 0 && summed(run.walk.state, what) >= 0);
}

proof fn step_adds_up(run: WalkRun, event: WalkEvent, start: walk::WalkingModel, what: Tally)
    requires
        is_kept(run, start),
        adds_up(run, what),
        run.after(event).possible,
    ensures
        adds_up(run.after(event), what),
{
    let after = run.after(event);
    let held_by = holding(what);
    chains_hold_no_less(run.chains, what);
    assert(summed(run.walk.state, what) >= 0);
    match event {
        WalkEvent::Took => {
            sums::added_with_one_more(run.chains, held_by, after.chains.last());
            assert(held(bulkstat::empty_directory(), what) == 0);
            assert(held_by(after.chains.last()) == 0);
        },
        WalkEvent::Read { chain: i, buf, count } => {
            read_adds_up(run, i, buf, count, start, what);
        },
        WalkEvent::Closed { chain: i } => {
            let f = run.chains[i];
            let g = after.chains[i];
            sums::added_with_other(run.chains, held_by, i, g);
            absorbing_adds_up(f.chain.total, run.walk.limit, f.chain.part, what);
            assert(held(g.chain.part, what) == 0);
            assert(held_by(f) == held(f.chain.total, what) + held(f.chain.part, what));
            assert(held_by(g) == at_most(held_by(f), what));
        },
        WalkEvent::Unopened { chain: i, unreadable } => {
            let f = run.chains[i];
            let g = after.chains[i];
            let more: int = if what is Unreadable {
                unreadable as int
            } else {
                0
            };
            sums::added_with_other(run.chains, held_by, i, g);
            assert(after.total(what) == run.total(what) + more);
            assert(held(g.chain.total, what) == at_most(held(f.chain.total, what) + more, what));
            assert(held_by(f) == held(f.chain.total, what) + held(f.chain.part, what));
            assert(held_by(g) == held(g.chain.total, what) + held(f.chain.part, what));
            assert(held(f.chain.part, what) >= 0);
        },
        WalkEvent::Ended { chain: i } => {
            let f = run.chains[i];
            assert(chain_is_kept(f, start.limit));
            assert(held(f.chain.part, what) == 0);
            assert(held_by(f) == held(f.chain.total, what));
            sums::added_without(run.chains, held_by, i);
            if run.total(what) <= most(what) {
                merging_adds_up(run.walk.state, f.chain.total, what);
            }
        },
    }
}

proof fn step_keeps_files(
    run: WalkRun,
    event: WalkEvent,
    start: walk::WalkingModel,
    c: bulkstat::CandidateModel,
)
    requires
        is_kept(run, start),
        files_are_kept(run, c),
        run.after(event).possible,
    ensures
        files_are_kept(run.after(event), c),
{
    let after = run.after(event);
    let filed = filing(c);
    sums::times_of_none(c);
    match event {
        WalkEvent::Took => {
            sums::added_with_one_more(run.chains, filed, after.chains.last());
        },
        WalkEvent::Read { chain: i, buf, count } => {
            read_is_kept(run, i, buf, count, start);
            let f = run.chains[i];
            let g = after.chains[i];
            let news = g.fresh.skip(f.fresh.len() as int);
            sums::times_of_parts(f.fresh, news, c);
            sums::times_of_parts(files(run.met, start.policy), news, c);
            sums::added_with_other(run.chains, filed, i, g);
        },
        WalkEvent::Closed { chain: i } => {
            let f = run.chains[i];
            sums::times_of_parts(f.kept, f.fresh, c);
            sums::added_with_other(run.chains, filed, i, after.chains[i]);
        },
        WalkEvent::Unopened { chain: i, unreadable } => {
            sums::added_with_other(run.chains, filed, i, after.chains[i]);
        },
        WalkEvent::Ended { chain: i } => {
            let f = run.chains[i];
            assert(chain_is_kept(f, start.limit));
            assert(f.fresh =~= Seq::<bulkstat::CandidateModel>::empty());
            sums::times_of_parts(run.ended, f.kept, c);
            sums::added_without(run.chains, filed, i);
        },
    }
}

proof fn step_keeps_places(
    run: WalkRun,
    event: WalkEvent,
    start: walk::WalkingModel,
    p: walk::PlaceModel,
)
    requires
        is_kept(run, start),
        places_are_kept(run, start, p),
        run.after(event).possible,
    ensures
        places_are_kept(run.after(event), start, p),
{
    let after = run.after(event);
    let lists = listing(p);
    sums::times_of_none(p);
    match event {
        WalkEvent::Took => {
            let waiting = run.walk.waiting;
            let g = after.chains.last();
            assert(listed(g.chain.below, g.chain.part.subdirs) =~= Seq::<walk::PlaceModel>::empty());
            sums::added_with_one_more(run.chains, lists, g);
            assert(waiting =~= waiting.drop_last().push(waiting.last()));
            sums::times_of_push(waiting.drop_last(), waiting.last(), p);
            sums::times_of_push(run.entered, waiting.last(), p);
        },
        WalkEvent::Read { chain: i, buf, count } => {
            read_is_kept(run, i, buf, count, start);
            let f = run.chains[i];
            let g = after.chains[i];
            sums::added_with_other(run.chains, lists, i, g);
            assert(sums::times(listed(f.chain.below, g.chain.part.subdirs), p) + sums::times(
                places(run.met, start.policy),
                p,
            ) == sums::times(listed(f.chain.below, f.chain.part.subdirs), p) + sums::times(
                places(after.met, start.policy),
                p,
            ));
        },
        WalkEvent::Closed { chain: i } => {
            let f = run.chains[i];
            let g = after.chains[i];
            let subdirs = f.chain.part.subdirs;
            let below = f.chain.below;
            assert(listed(g.chain.below, g.chain.part.subdirs) =~= Seq::<walk::PlaceModel>::empty());
            sums::added_with_other(run.chains, lists, i, g);
            if subdirs.len() > 0 {
                let next = walk::place_in(below, subdirs.last());
                assert(subdirs =~= subdirs.drop_last().push(subdirs.last()));
                listed_with_one_more(below, subdirs.drop_last(), subdirs.last());
                sums::times_of_push(listed(below, subdirs.drop_last()), next, p);
                sums::times_of_push(run.entered, next, p);
                sums::times_of_parts(run.walk.waiting, listed(below, subdirs.drop_last()), p);
                assert(after.walk.waiting =~= run.walk.waiting + listed(
                    below,
                    subdirs.drop_last(),
                ));
            } else {
                assert(listed(below, subdirs) =~= Seq::<walk::PlaceModel>::empty());
            }
        },
        WalkEvent::Unopened { chain: i, unreadable } => {
            sums::added_with_other(run.chains, lists, i, after.chains[i]);
        },
        WalkEvent::Ended { chain: i } => {
            let f = run.chains[i];
            assert(chain_is_kept(f, start.limit));
            assert(listed(f.chain.below, f.chain.part.subdirs) =~= Seq::<walk::PlaceModel>::empty());
            sums::added_without(run.chains, lists, i);
        },
    }
}

proof fn step_reads_all(run: WalkRun, event: WalkEvent)
    requires
        all_are_read(run),
        run.after(event).possible,
    ensures
        all_are_read(run.after(event)),
{
    let after = run.after(event);
    match event {
        WalkEvent::Took => {
            sums::added_with_one_more(run.chains, opened(), after.chains.last());
        },
        WalkEvent::Read { chain: i, buf, count } => {
            sums::added_with_other(run.chains, opened(), i, after.chains[i]);
        },
        WalkEvent::Closed { chain: i } => {
            sums::added_with_other(run.chains, opened(), i, after.chains[i]);
        },
        WalkEvent::Unopened { chain: i, unreadable } => {
            sums::added_with_other(run.chains, opened(), i, after.chains[i]);
        },
        WalkEvent::Ended { chain: i } => {
            sums::added_without(run.chains, opened(), i);
        },
    }
}

/// What every run keeps.
proof fn run_is_kept(
    root: Seq<char>,
    limit: nat,
    is_directory: bool,
    policy: bulkstat::ScanPolicy,
    events: Seq<WalkEvent>,
)
    requires
        walk_run(walk::new_walk(root, limit, is_directory, policy), events).possible,
    ensures
        ({
            let start = walk::new_walk(root, limit, is_directory, policy);
            let run = walk_run(start, events);
            &&& is_kept(run, start)
            &&& all_are_read(run)
            &&& forall|what: Tally| #[trigger] adds_up(run, what)
            &&& forall|c: bulkstat::CandidateModel| #[trigger] files_are_kept(run, c)
            &&& forall|p: walk::PlaceModel| #[trigger] places_are_kept(run, start, p)
        }),
    decreases events.len(),
{
    let start = walk::new_walk(root, limit, is_directory, policy);
    let run = walk_run(start, events);
    if events.len() == 0 {
        let none = Seq::<bulkstat::CandidateModel>::empty();
        assert(sorting::best(&bulkstat::LargestFirst, none, limit) =~= none);
        assert(identities(run.met, policy) =~= Set::empty());
        assert forall|c: bulkstat::CandidateModel| #[trigger] files_are_kept(run, c) by {
            sums::times_of_none(c);
        }
        assert forall|p: walk::PlaceModel| #[trigger] places_are_kept(run, start, p) by {
            sums::times_of_none(p);
        }
    } else {
        let before = walk_run(start, events.drop_last());
        let event = events.last();
        run_is_kept(root, limit, is_directory, policy, events.drop_last());
        step_is_kept(before, event, start);
        step_reads_all(before, event);
        assert forall|what: Tally| #[trigger] adds_up(run, what) by {
            assert(adds_up(before, what));
            step_adds_up(before, event, start, what);
        }
        assert forall|c: bulkstat::CandidateModel| #[trigger] files_are_kept(run, c) by {
            assert(files_are_kept(before, c));
            step_keeps_files(before, event, start, c);
        }
        assert forall|p: walk::PlaceModel| #[trigger] places_are_kept(run, start, p) by {
            assert(places_are_kept(before, start, p));
            step_keeps_places(before, event, start, p);
        }
    }
}

// ---------------------------------------------------------------------------
// Laws
// ---------------------------------------------------------------------------

/// What a walk has found of something.
pub open spec fn found_of(found: bulkstat::DirScanModel, what: Tally) -> int {
    match what {
        Tally::Logical => found.size.logical as int,
        Tally::Allocated => found.size.allocated as int,
        Tally::Unreadable => found.inaccessible as int,
        Tally::Skipped => found.skipped_mounts as int,
    }
}

/// Whatever the order in which the threads of a walk take their steps: once it
/// is over, both sizes are those of all files that were met, a file with several
/// links counted once, and the counters are those of the entries and directories
/// that could not be read and of the subdirectories that were left out, each as
/// long as it fits its type.
pub proof fn a_finished_walk_adds_up(
    root: Seq<char>,
    limit: nat,
    is_directory: bool,
    policy: bulkstat::ScanPolicy,
    events: Seq<WalkEvent>,
)
    requires
        walk_run(walk::new_walk(root, limit, is_directory, policy), events).possible,
    ensures
        ({
            let run = walk_run(walk::new_walk(root, limit, is_directory, policy), events);
            run.walk.is_over() ==> forall|what: Tally|
                #![trigger run.total(what)]
                run.total(what) <= most(what) ==> found_of(run.walk.found(), what) == run.total(
                    what,
                )
        }),
{
    run_is_kept(root, limit, is_directory, policy, events);
    let run = walk_run(walk::new_walk(root, limit, is_directory, policy), events);
    assert forall|what: Tally|
        #![trigger run.total(what)]
        run.walk.is_over() && run.total(what) <= most(what) implies found_of(
        run.walk.found(),
        what,
    ) == run.total(what) by {
        assert(adds_up(run, what));
    }
}

/// Whatever the order in which the threads of a walk take their steps: once it
/// is over, the largest files that it reports are the largest of all files that
/// were met, a file with several links counted once. Only between files that rank
/// alike, of one size and with paths that name one file, does the order in which
/// the chains ended decide.
pub proof fn a_finished_walk_has_the_largest(
    root: Seq<char>,
    limit: nat,
    is_directory: bool,
    policy: bulkstat::ScanPolicy,
    events: Seq<WalkEvent>,
)
    requires
        walk_run(walk::new_walk(root, limit, is_directory, policy), events).possible,
    ensures
        ({
            let run = walk_run(walk::new_walk(root, limit, is_directory, policy), events);
            let all = files(run.met, policy);
            run.walk.is_over() ==> {
                &&& run.ended.to_multiset() == all.to_multiset()
                &&& run.walk.found().largest_files == bulkstat::report_of(
                    sorting::best(&bulkstat::LargestFirst, run.ended, limit),
                )
                &&& (forall|x: bulkstat::CandidateModel, y: bulkstat::CandidateModel|
                    all.contains(x) && all.contains(y) && !#[trigger] sorting::Order::before(
                        &bulkstat::LargestFirst,
                        x,
                        y,
                    ) && !sorting::Order::before(&bulkstat::LargestFirst, y, x) ==> x == y)
                    ==> run.walk.found().largest_files == bulkstat::report_of(
                    sorting::best(&bulkstat::LargestFirst, all, limit),
                )
            }
        }),
{
    broadcast use vstd::seq_lib::group_to_multiset_ensures;

    run_is_kept(root, limit, is_directory, policy, events);
    let run = walk_run(walk::new_walk(root, limit, is_directory, policy), events);
    let all = files(run.met, policy);
    if run.walk.is_over() {
        assert(run.ended.to_multiset() =~= all.to_multiset()) by {
            assert forall|c: bulkstat::CandidateModel|
                run.ended.to_multiset().count(c) == all.to_multiset().count(c) by {
                assert(files_are_kept(run, c));
            }
        }
        if forall|x: bulkstat::CandidateModel, y: bulkstat::CandidateModel|
            all.contains(x) && all.contains(y) && !#[trigger] sorting::Order::before(
                &bulkstat::LargestFirst,
                x,
                y,
            ) && !sorting::Order::before(&bulkstat::LargestFirst, y, x) ==> x == y {
            let order = bulkstat::LargestFirst;
            let a = sorting::arranged(&order, run.ended);
            let b = sorting::arranged(&order, all);
            sorting::arranged_is_arranged(&order, run.ended);
            sorting::arranged_is_arranged(&order, all);
            sorting::arranged_keeps_items(&order, run.ended);
            sorting::arranged_keeps_items(&order, all);
            assert forall|x: bulkstat::CandidateModel, y: bulkstat::CandidateModel|
                a.contains(x) && a.contains(y) && !(#[trigger] sorting::Order::before(
                    &order,
                    x,
                    y,
                )) && !sorting::Order::before(&order, y, x) implies x == y by {
                assert(a.to_multiset().count(x) > 0 && a.to_multiset().count(y) > 0);
                assert(all.contains(x) && all.contains(y));
            }
            sorting::arrangement_is_unique(&order, a, b);
        }
    }
}

/// Whatever the order in which the threads of a walk take their steps: once it
/// is over, the root and every subdirectory that was met and belongs to the scan
/// was gone into once, and no other directory; and each was read to its end or
/// could not be opened.
pub proof fn a_finished_walk_went_everywhere(
    root: Seq<char>,
    limit: nat,
    is_directory: bool,
    policy: bulkstat::ScanPolicy,
    events: Seq<WalkEvent>,
)
    requires
        walk_run(walk::new_walk(root, limit, is_directory, policy), events).possible,
    ensures
        ({
            let start = walk::new_walk(root, limit, is_directory, policy);
            let run = walk_run(start, events);
            run.walk.is_over() ==> {
                &&& run.entered.to_multiset() == (start.waiting + places(
                    run.met,
                    policy,
                )).to_multiset()
                &&& run.finished == run.entered.len()
            }
        }),
{
    run_is_kept(root, limit, is_directory, policy, events);
    let start = walk::new_walk(root, limit, is_directory, policy);
    let run = walk_run(start, events);
    let all = start.waiting + places(run.met, policy);
    if run.walk.is_over() {
        assert(run.entered.to_multiset() =~= all.to_multiset()) by {
            assert forall|p: walk::PlaceModel|
                run.entered.to_multiset().count(p) == all.to_multiset().count(p) by {
                assert(places_are_kept(run, start, p));
                sums::times_of_none(p);
                assert(run.walk.waiting =~= Seq::<walk::PlaceModel>::empty());
                sums::times_of_parts(start.waiting, places(run.met, policy), p);
            }
        }
    }
}

/// A chain holds the largest of its own files: those of the directories behind
/// it, and of its directory those that were read.
pub proof fn chains_hold_their_largest(
    root: Seq<char>,
    limit: nat,
    is_directory: bool,
    policy: bulkstat::ScanPolicy,
    events: Seq<WalkEvent>,
    i: int,
)
    requires
        walk_run(walk::new_walk(root, limit, is_directory, policy), events).possible,
        0 <= i < walk_run(
            walk::new_walk(root, limit, is_directory, policy),
            events,
        ).chains.len(),
    ensures
        ({
            let f = walk_run(
                walk::new_walk(root, limit, is_directory, policy),
                events,
            ).chains[i];
            &&& f.chain.total.largest_files == sorting::best(
                &bulkstat::LargestFirst,
                f.kept,
                limit,
            )
            &&& f.chain.part.largest_files == sorting::best(
                &bulkstat::LargestFirst,
                f.fresh,
                limit,
            )
        }),
{
    run_is_kept(root, limit, is_directory, policy, events);
    let run = walk_run(walk::new_walk(root, limit, is_directory, policy), events);
    assert(chain_is_kept(run.chains[i], limit));
}

/// The bytes of several entries, one behind the other.
pub open spec fn packed(list: Seq<bulkstat::PackedEntry>) -> Seq<u8>
    decreases list.len(),
{
    if list.len() == 0 {
        Seq::empty()
    } else {
        list[0].bytes() + packed(list.skip(1))
    }
}

proof fn packed_from(before: Seq<u8>, list: Seq<bulkstat::PackedEntry>, after: Seq<u8>)
    requires
        forall|i: int|
            0 <= i < list.len() ==> (#[trigger] list[i]).is_announced() && list[i].bytes().len()
                <= u32::MAX,
    ensures
        entries_of(before + packed(list) + after, list.len(), before.len() as int)
            == list.map_values(|e: bulkstat::PackedEntry| e.meaning()),
    decreases list.len(),
{
    let f = |e: bulkstat::PackedEntry| e.meaning();
    let buf = before + packed(list) + after;
    if list.len() == 0 {
        assert(list.map_values(f) =~= Seq::<bulkstat::EntryModel>::empty());
    } else {
        let first = list[0];
        let rest = list.skip(1);
        assert(first.is_announced());
        assert(buf =~= before + first.bytes() + (packed(rest) + after));
        bulkstat::packed_entries_are_decoded(before, first, packed(rest) + after);
        assert forall|i: int| 0 <= i < rest.len() implies (#[trigger] rest[i]).is_announced()
            && rest[i].bytes().len() <= u32::MAX by {
            assert(rest[i] == list[i + 1]);
        }
        packed_from(before + first.bytes(), rest, after);
        assert(buf =~= (before + first.bytes()) + packed(rest) + after);
        assert((before + first.bytes()).len() == before.len() + first.bytes().len());
        assert(list.map_values(f) =~= seq![f(first)] + rest.map_values(f));
    }
}

/// A buffer is read whole: of the entries that the file system packed into it,
/// each is met, in order, with its attributes as they were.
pub proof fn packed_buffers_are_read_whole(
    list: Seq<bulkstat::PackedEntry>,
    after: Seq<u8>,
    i: int,
)
    requires
        forall|k: int|
            0 <= k < list.len() ==> (#[trigger] list[k]).is_announced() && list[k].bytes().len()
                <= u32::MAX,
        0 <= i < list.len(),
    ensures
        entries_of(packed(list) + after, list.len(), 0).len() == list.len(),
        entries_of(packed(list) + after, list.len(), 0)[i] == list[i].meaning(),
{
    let none = Seq::<u8>::empty();
    packed_from(none, list, after);
    assert(none + packed(list) + after =~= packed(list) + after);
}

/// A file is at least as large as another: it has more allocated bytes, or as
/// many and more bytes of content, or as many of both and no earlier a path.
pub open spec fn at_least_as_large(
    a: bulkstat::CandidateModel,
    b: bulkstat::CandidateModel,
) -> bool {
    ||| a.allocated > b.allocated
    ||| a.allocated == b.allocated && a.logical > b.logical
    ||| a.allocated == b.allocated && a.logical == b.logical && !paths::path_less(
        paths::path_of(a.path),
        paths::path_of(b.path),
    )
}

/// A file as it is listed.
pub open spec fn listing_of(c: bulkstat::CandidateModel) -> bulkstat::LargeFileModel {
    bulkstat::LargeFileModel {
        path: c.path,
        size: bulkstat::SizeInfo { logical: c.logical, allocated: c.allocated },
    }
}

/// Once a walk is over, the files that were met and count fall into two parts,
/// those that are reported and the others: as many are reported as were asked
/// for, or all of them; no other file has more allocated bytes than a reported
/// one, nor more content where those are equal; and the report lists the files
/// with more allocated bytes first, those with more content first where these
/// are equal, and where both are, by path.
pub proof fn the_report_lists_the_largest(
    root: Seq<char>,
    limit: nat,
    is_directory: bool,
    policy: bulkstat::ScanPolicy,
    events: Seq<WalkEvent>,
) -> (r: (Seq<bulkstat::CandidateModel>, Seq<bulkstat::CandidateModel>))
    requires
        walk_run(walk::new_walk(root, limit, is_directory, policy), events).possible,
        walk_run(walk::new_walk(root, limit, is_directory, policy), events).walk.is_over(),
    ensures
        ({
            let run = walk_run(walk::new_walk(root, limit, is_directory, policy), events);
            let report = run.walk.found().largest_files;
            let all = files(run.met, policy);
            let (top, rest) = r;
            &&& (top + rest).to_multiset() == all.to_multiset()
            &&& report.to_multiset() == top.map_values(
                |c: bulkstat::CandidateModel| listing_of(c),
            ).to_multiset()
            &&& report.len() == if all.len() <= limit {
                all.len()
            } else {
                limit
            }
            &&& forall|i: int, j: int|
                0 <= i < top.len() && 0 <= j < rest.len() ==> at_least_as_large(
                    #[trigger] top[i],
                    #[trigger] rest[j],
                )
            &&& forall|i: int, j: int|
                0 <= i < j < report.len() ==> {
                    let (a, b) = (#[trigger] report[i], #[trigger] report[j]);
                    &&& a.size.allocated >= b.size.allocated
                    &&& a.size.allocated == b.size.allocated ==> a.size.logical >= b.size.logical
                    &&& a.size == b.size ==> !paths::path_less(
                        paths::path_of(b.path),
                        paths::path_of(a.path),
                    )
                }
        }),
{
    broadcast use vstd::seq_lib::group_to_multiset_ensures;

    a_finished_walk_has_the_largest(root, limit, is_directory, policy, events);
    let run = walk_run(walk::new_walk(root, limit, is_directory, policy), events);
    let order = bulkstat::LargestFirst;
    let all = files(run.met, policy);
    let sorted = sorting::arranged(&order, run.ended);
    sorting::arranged_keeps_items(&order, run.ended);
    sorting::arranged_is_arranged(&order, run.ended);
    assert(sorted.to_multiset() == all.to_multiset());
    assert(sorted.len() == sorted.to_multiset().len());
    assert(all.len() == all.to_multiset().len());
    let k = if sorted.len() <= limit {
        sorted.len() as int
    } else {
        limit as int
    };
    let top = sorting::best(&order, run.ended, limit);
    let rest = sorted.skip(k);
    assert(top =~= sorted.take(k));
    assert(top + rest =~= sorted);
    assert forall|i: int, j: int| 0 <= i < top.len() && 0 <= j < rest.len() implies at_least_as_large(
        #[trigger] top[i],
        #[trigger] rest[j],
    ) by {
        assert(top[i] == sorted[i] && rest[j] == sorted[j + k]);
        assert(!sorting::Order::before(&order, sorted[j + k], sorted[i]));
        paths::path_order_total(paths::path_of(top[i].path), paths::path_of(rest[j].path));
    }
    let shown = top.map_values(|c: bulkstat::CandidateModel| bulkstat::reported(c));
    let report = run.walk.found().largest_files;
    sorting::arranged_keeps_items(&bulkstat::ReportOrder, shown);
    sorting::arranged_is_arranged(&bulkstat::ReportOrder, shown);
    assert(report == sorting::arranged(&bulkstat::ReportOrder, shown));
    assert(shown =~= top.map_values(|c: bulkstat::CandidateModel| listing_of(c)));
    assert forall|i: int, j: int| 0 <= i < j < report.len() implies {
        let (a, b) = (#[trigger] report[i], #[trigger] report[j]);
        &&& a.size.allocated >= b.size.allocated
        &&& a.size.allocated == b.size.allocated ==> a.size.logical >= b.size.logical
        &&& a.size == b.size ==> !paths::path_less(paths::path_of(b.path), paths::path_of(a.path))
    } by {
        assert(!sorting::Order::before(&bulkstat::ReportOrder, report[j], report[i]));
    }
    (top, rest)
}

} // verus!
