//! The walk through a directory tree. Directories wait in a queue; whoever
//! takes one follows a chain down from it, one subdirectory after the other,
//! and puts the other subdirectories into the queue. Opening and reading
//! directories is the caller's.

use crate::bulkstat;
use crate::pool;
use crate::sorting;
use vstd::prelude::*;

verus! {

/// A directory of the tree: its path as text, and its path below the root of the
/// walk as the file system has it, by which it can be opened.
#[derive(Debug)]
struct Place {
    path: String,
    below: Vec<u8>,
}

#[verifier::ext_equal]
pub struct PlaceModel {
    pub path: Seq<char>,
    pub below: Seq<u8>,
}

impl View for Place {
    type V = PlaceModel;

    closed spec fn view(&self) -> PlaceModel {
        PlaceModel { path: self.path@, below: self.below@ }
    }
}

/// The path of a subdirectory below the root: a slash goes between the names.
pub open spec fn deeper(below: Seq<u8>, name: Seq<u8>) -> Seq<u8> {
    if below.len() == 0 {
        name
    } else {
        below.push(47u8) + name
    }
}

/// The place of a subdirectory.
pub open spec fn place_in(below: Seq<u8>, subdir: bulkstat::SubdirModel) -> PlaceModel {
    PlaceModel { path: subdir.path, below: deeper(below, subdir.name) }
}

fn go_deeper(below: &Vec<u8>, name: &Vec<u8>) -> (r: Vec<u8>)
    ensures
        r@ == deeper(below@, name@),
{
    let mut r: Vec<u8> = below.clone();
    if r.len() > 0 {
        r.push(47);
    }
    let ghost start = r@;
    let mut i: usize = 0;
    assert(start + name@.take(0) =~= start);
    while i < name.len()
        invariant
            i <= name@.len(),
            r@ == start + name@.take(i as int),
        decreases name@.len() - i,
    {
        r.push(name[i]);
        i += 1;
        assert(start + name@.take(i as int) =~= (start + name@.take(i - 1)).push(name@[i - 1]));
    }
    assert(name@.take(name@.len() as int) =~= name@);
    assert(r@ =~= deeper(below@, name@));
    r
}

/// A chain of directories that is being followed down.
#[derive(Debug)]
pub struct Chain {
    place: Place,
    total: bulkstat::DirectoryScan,
    part: bulkstat::DirectoryScan,
}

#[verifier::ext_equal]
pub struct ChainModel {
    /// The directory that is being read.
    pub dir: Seq<char>,
    /// Its path below the root, as the file system has it.
    pub below: Seq<u8>,
    /// What the directories before it held.
    pub total: bulkstat::DirectoryModel,
    /// What was read of it so far.
    pub part: bulkstat::DirectoryModel,
}

impl View for Chain {
    type V = ChainModel;

    closed spec fn view(&self) -> ChainModel {
        ChainModel {
            dir: self.place.path@,
            below: self.place.below@,
            total: self.total@,
            part: self.part@,
        }
    }
}

/// A chain that begins at a directory.
pub open spec fn new_chain(place: PlaceModel) -> ChainModel {
    ChainModel {
        dir: place.path,
        below: place.below,
        total: bulkstat::empty_directory(),
        part: bulkstat::empty_directory(),
    }
}

impl ChainModel {
    /// No more of the largest files are kept than were asked for.
    pub open spec fn keeps(self, limit: nat) -> bool {
        self.total.largest_files.len() <= limit && self.part.largest_files.len() <= limit
    }

    /// The directory has been read to its end: the last subdirectory continues
    /// the chain.
    pub open spec fn closed(self, limit: nat) -> ChainModel {
        let total = bulkstat::absorbed(self.total, limit, self.part);
        let subdirs = self.part.subdirs;
        if subdirs.len() > 0 {
            ChainModel { total, ..new_chain(place_in(self.below, subdirs.last())) }
        } else {
            ChainModel { total, part: bulkstat::empty_directory(), ..self }
        }
    }

    /// The directory could not be opened.
    pub open spec fn unopened(self, unreadable: u32) -> ChainModel {
        ChainModel {
            total: bulkstat::DirectoryModel {
                inaccessible: bulkstat::capped_count(self.total.inaccessible + unreadable),
                ..self.total
            },
            ..self
        }
    }
}

impl Chain {
    /// The directory that is being read.
    pub fn dir(&self) -> (r: &str)
        ensures
            r@ == self@.dir,
    {
        self.place.path.as_str()
    }

    /// The path of that directory below the root, as the file system has it:
    /// nothing for the root itself.
    pub fn below(&self) -> (r: &Vec<u8>)
        ensures
            r@ == self@.below,
    {
        &self.place.below
    }
}

/// A walk: its totals, the files with several links that were met, and the
/// directories that wait.
pub struct Walk {
    limit: usize,
    policy: bulkstat::ScanPolicy,
    state: bulkstat::WalkState,
    seen: bulkstat::SeenLinks,
    queue: pool::WorkQueue<Place>,
}

#[verifier::ext_equal]
pub struct WalkingModel {
    pub limit: nat,
    pub policy: bulkstat::ScanPolicy,
    pub state: bulkstat::WalkModel,
    pub seen: Set<(u64, u64)>,
    /// The directories that wait.
    pub waiting: Seq<PlaceModel>,
    /// How many chains are being followed.
    pub active: nat,
}

impl View for Walk {
    type V = WalkingModel;

    closed spec fn view(&self) -> WalkingModel {
        WalkingModel {
            limit: self.limit as nat,
            policy: self.policy,
            state: self.state@,
            seen: self.seen@,
            waiting: sorting::views(self.queue@.items),
            active: self.queue@.active,
        }
    }
}

/// What a thread that takes part in a walk does next.
#[derive(Debug)]
pub enum WalkTask {
    /// Open the directory of the chain, which lies below the root, and follow it.
    Follow(Chain),
    /// Another chain may still bring more.
    Wait,
    Stop,
}

/// A walk before anything was read.
pub open spec fn new_walk(
    root: Seq<char>,
    limit: nat,
    is_directory: bool,
    policy: bulkstat::ScanPolicy,
) -> WalkingModel {
    WalkingModel {
        limit,
        policy,
        state: bulkstat::WalkModel {
            top_file_limit: limit,
            size: bulkstat::SizeInfo { logical: 0, allocated: 0 },
            inaccessible: 0,
            skipped_mounts: 0,
            largest_files: Seq::empty(),
        },
        seen: Set::empty(),
        waiting: if is_directory {
            seq![PlaceModel { path: root, below: Seq::empty() }]
        } else {
            Seq::empty()
        },
        active: 0,
    }
}

impl WalkingModel {
    /// What comes next.
    pub open spec fn after_next(self) -> WalkingModel {
        if self.waiting.len() > 0 {
            WalkingModel {
                waiting: self.waiting.drop_last(),
                active: self.active + 1,
                ..self
            }
        } else {
            self
        }
    }

    /// A chain's directory has been read to its end: the other subdirectories
    /// wait now.
    pub open spec fn after_close(self, chain: ChainModel) -> WalkingModel {
        let subdirs = chain.part.subdirs;
        WalkingModel {
            waiting: if subdirs.len() > 0 {
                self.waiting + subdirs.drop_last().map_values(
                    |s: bulkstat::SubdirModel| place_in(chain.below, s),
                )
            } else {
                self.waiting
            },
            ..self
        }
    }

    /// A chain has ended.
    pub open spec fn after_chain(self, chain: ChainModel) -> WalkingModel {
        WalkingModel {
            state: bulkstat::merged_chain(self.state, chain.total),
            active: (self.active - 1) as nat,
            ..self
        }
    }

    /// Everything has been read.
    pub open spec fn is_over(self) -> bool {
        self.waiting.len() == 0 && self.active == 0
    }

    /// What the walk has found.
    pub open spec fn found(self) -> bulkstat::DirScanModel {
        bulkstat::DirScanModel {
            size: self.state.size,
            largest_files: bulkstat::report_of(self.state.largest_files),
            inaccessible: self.state.inaccessible,
            skipped_mounts: self.state.skipped_mounts,
        }
    }
}

/// Begins the scan of a directory. A root that is no directory, a link to one
/// included, is not entered.
pub fn scan_dir(
    root: &str,
    top_file_limit: usize,
    is_directory: bool,
    policy: bulkstat::ScanPolicy,
) -> (walk: Walk)
    ensures
        walk@ == new_walk(root@, top_file_limit as nat, is_directory, policy),
{
    let mut seed: Vec<Place> = Vec::new();
    if is_directory {
        let place = Place { path: root.to_owned(), below: Vec::new() };
        assert(place@ =~= PlaceModel { path: root@, below: Seq::empty() });
        seed.push(place);
    }
    assert(sorting::views(seed@) =~= new_walk(
        root@,
        top_file_limit as nat,
        is_directory,
        policy,
    ).waiting);
    Walk {
        limit: top_file_limit,
        policy,
        state: bulkstat::WalkState::new(top_file_limit),
        seen: bulkstat::SeenLinks::new(),
        queue: pool::WorkQueue::new(seed),
    }
}

impl Walk {
    /// How many directories wait to be read: a thread can be started for each.
    pub fn waiting(&self) -> (n: usize)
        ensures
            n == self@.waiting.len(),
    {
        self.queue.waiting()
    }

    /// What a thread does next.
    pub fn next(&mut self) -> (task: WalkTask)
        requires
            old(self)@.active < usize::MAX,
        ensures
            final(self)@ == old(self)@.after_next(),
            match task {
                WalkTask::Follow(chain) => old(self)@.waiting.len() > 0 && chain@ == new_chain(
                    old(self)@.waiting.last(),
                ),
                WalkTask::Wait => old(self)@.waiting.len() == 0 && old(self)@.active > 0,
                WalkTask::Stop => old(self)@.is_over(),
            },
    {
        let ghost before = self.queue@;
        match self.queue.next() {
            pool::DrainStep::Work(place) => {
                assert(sorting::views(before.items.drop_last()) =~= sorting::views(
                    before.items,
                ).drop_last());
                WalkTask::Follow(
                    Chain {
                        place,
                        total: bulkstat::DirectoryScan::new(),
                        part: bulkstat::DirectoryScan::new(),
                    },
                )
            },
            pool::DrainStep::Wait => WalkTask::Wait,
            pool::DrainStep::Stop => WalkTask::Stop,
        }
    }

    /// Counts the entries of a buffer of the chain's directory.
    pub fn read(&mut self, chain: &mut Chain, buf: &Vec<u8>, count: usize)
        requires
            old(chain)@.keeps(old(self)@.limit),
        ensures
            ({
                let (part, seen) = bulkstat::with_entries(
                    buf@,
                    count as nat,
                    0,
                    old(chain)@.dir,
                    old(self)@.limit,
                    old(self)@.policy,
                    (old(chain)@.part, old(self)@.seen),
                );
                &&& final(chain)@ == (ChainModel { part, ..old(chain)@ })
                &&& final(self)@ == (WalkingModel { seen, ..old(self)@ })
            }),
            final(chain)@.keeps(old(self)@.limit),
    {
        bulkstat::scan_open_dir(
            buf,
            count,
            chain.place.path.as_str(),
            self.limit,
            &self.policy,
            &mut chain.part,
            &mut self.seen,
        );
    }

    /// The chain's directory has been read to its end. The other subdirectories
    /// are put into the queue; the last one is to be opened next, by its name in
    /// the directory.
    pub fn close(&mut self, chain: &mut Chain) -> (next: Option<Vec<u8>>)
        requires
            old(chain)@.keeps(old(self)@.limit),
        ensures
            final(chain)@ == old(chain)@.closed(old(self)@.limit),
            final(chain)@.keeps(old(self)@.limit),
            final(self)@ == old(self)@.after_close(old(chain)@),
            match next {
                Some(name) => old(chain)@.part.subdirs.len() > 0 && name@
                    == old(chain)@.part.subdirs.last().name,
                None => old(chain)@.part.subdirs.len() == 0,
            },
    {
        let ghost start = self@;
        let ghost from = chain@;
        let mut part = bulkstat::DirectoryScan::new();
        std::mem::swap(&mut part, &mut chain.part);
        let step = chain.total.absorb(self.limit, part);
        match step {
            bulkstat::WalkStep::Finish => None,
            bulkstat::WalkStep::Descend { next, others } => {
                let ghost subdirs = from.part.subdirs;
                proof {
                    assert(sorting::views(others@) =~= subdirs.drop_last());
                    assert(next@ == subdirs.last());
                }
                self.enqueue(&chain.place.below, &others);
                let below = go_deeper(&chain.place.below, &next.name);
                chain.place = Place { path: next.path, below };
                Some(next.name)
            },
        }
    }

    fn enqueue(&mut self, below: &Vec<u8>, others: &Vec<bulkstat::Subdir>)
        ensures
            final(self)@ == (WalkingModel {
                waiting: old(self)@.waiting + sorting::views(others@).map_values(
                    |s: bulkstat::SubdirModel| place_in(below@, s),
                ),
                ..old(self)@
            }),
    {
        let ghost start = self@;
        let ghost added = sorting::views(others@).map_values(
            |s: bulkstat::SubdirModel| place_in(below@, s),
        );
        let mut i: usize = 0;
        assert(start.waiting + added.take(0) =~= start.waiting);
        while i < others.len()
            invariant
                i <= others@.len(),
                added == sorting::views(others@).map_values(
                    |s: bulkstat::SubdirModel| place_in(below@, s),
                ),
                self@ == (WalkingModel { waiting: start.waiting + added.take(i as int), ..start }),
            decreases others@.len() - i,
        {
            let place = Place {
                path: others[i].path.clone(),
                below: go_deeper(below, &others[i].name),
            };
            proof {
                sorting::views_push(self.queue@.items, place);
                assert(added[i as int] == place@);
                assert(start.waiting + added.take(i + 1) =~= (start.waiting + added.take(
                    i as int,
                )).push(added[i as int]));
            }
            self.queue.push(place);
            i += 1;
        }
        assert(added.take(added.len() as int) =~= added);
    }

    /// The chain's directory could not be opened: the chain ends there. An error
    /// of permission or of length counts as unreadable.
    pub fn open_failed(&self, chain: &mut Chain, unreadable: u32)
        requires
            old(chain)@.keeps(self@.limit),
        ensures
            final(chain)@ == old(chain)@.unopened(unreadable),
            final(chain)@.keeps(self@.limit),
    {
        chain.total.open_failed(unreadable);
    }

    /// A chain has ended: what it found is added up. Says whether everything has
    /// been read now, so that all who wait are to be told.
    pub fn finish_chain(&mut self, chain: Chain) -> (over: bool)
        requires
            old(self)@.active > 0,
        ensures
            final(self)@ == old(self)@.after_chain(chain@),
            over == final(self)@.is_over(),
    {
        self.state.merge(&chain.total);
        self.queue.done()
    }

    /// What the walk has found.
    pub fn finish(&self) -> (scan: bulkstat::DirScan)
        ensures
            scan@ == self@.found(),
    {
        self.state.finish()
    }
}

// ---------------------------------------------------------------------------
// Laws
// ---------------------------------------------------------------------------

/// A file with several links is counted once, under whichever of its names it is
/// met first: met again, it changes nothing.
pub proof fn linked_files_count_once(
    dir: Seq<char>,
    again: Seq<char>,
    limit: nat,
    policy: bulkstat::ScanPolicy,
    entry: bulkstat::EntryModel,
    link: bulkstat::EntryModel,
    known: (bulkstat::DirectoryModel, Set<(u64, u64)>),
    later: (bulkstat::DirectoryModel, Set<(u64, u64)>),
)
    requires
        entry.error == 0 && link.error == 0,
        entry.objtype == bulkstat::VREG && link.objtype == bulkstat::VREG,
        entry.linkcount > 1 && link.linkcount > 1,
        entry.fileid is Some && link.fileid == entry.fileid && link.devid == entry.devid,
        bulkstat::with_entry(dir, limit, policy, entry, known).1.subset_of(later.1),
    ensures
        bulkstat::with_entry(again, limit, policy, link, later) == later,
{
    let id = bulkstat::link_identity(entry.devid, entry.fileid, entry.linkcount, policy);
    assert(bulkstat::with_entry(dir, limit, policy, entry, known).1.contains(id->0));
}

proof fn bytes_add_up(s: u64, a: u64, b: u64)
    ensures
        bulkstat::wrapped64(bulkstat::wrapped64(s + a) + b) == bulkstat::wrapped64(s + a + b),
{
    let m: int = 0x1_0000_0000_0000_0000;
    assert(((s + a) % m + b) % m == (s + a + b) % m);
}

proof fn counts_add_up(s: u32, a: u32, b: u32)
    ensures
        bulkstat::wrapped32(bulkstat::wrapped32(s + a) + b) == bulkstat::wrapped32(s + a + b),
{
    let m: int = 0x1_0000_0000;
    assert(((s + a) % m + b) % m == (s + a + b) % m);
}

/// The order in which chains end does not matter to the sizes and the counts.
pub proof fn chains_add_up_in_any_order(
    state: bulkstat::WalkModel,
    a: bulkstat::DirectoryModel,
    b: bulkstat::DirectoryModel,
)
    ensures
        ({
            let x = bulkstat::merged_chain(bulkstat::merged_chain(state, a), b);
            let y = bulkstat::merged_chain(bulkstat::merged_chain(state, b), a);
            &&& x.size == y.size
            &&& x.inaccessible == y.inaccessible
            &&& x.skipped_mounts == y.skipped_mounts
        }),
{
    bytes_add_up(state.size.logical, a.size.logical, b.size.logical);
    bytes_add_up(state.size.logical, b.size.logical, a.size.logical);
    bytes_add_up(state.size.allocated, a.size.allocated, b.size.allocated);
    bytes_add_up(state.size.allocated, b.size.allocated, a.size.allocated);
    counts_add_up(state.inaccessible, a.inaccessible, b.inaccessible);
    counts_add_up(state.inaccessible, b.inaccessible, a.inaccessible);
    counts_add_up(state.skipped_mounts, a.skipped_mounts, b.skipped_mounts);
    counts_add_up(state.skipped_mounts, b.skipped_mounts, a.skipped_mounts);
}

proof fn candidates_are_offered(
    files: Seq<bulkstat::CandidateModel>,
    more: Seq<bulkstat::CandidateModel>,
    limit: nat,
)
    ensures
        bulkstat::with_candidates(
            sorting::best(&bulkstat::LargestFirst, files, limit),
            limit,
            more,
        ) == sorting::best(&bulkstat::LargestFirst, files + more, limit),
    decreases more.len(),
{
    if more.len() == 0 {
        assert(files + more =~= files);
    } else {
        candidates_are_offered(files, more.drop_last(), limit);
        sorting::best_of_push(
            &bulkstat::LargestFirst,
            files + more.drop_last(),
            more.last(),
            limit,
        );
        assert((files + more.drop_last()).push(more.last()) =~= files + more);
    }
}

/// No large file gets lost between chains: where the totals hold the largest of
/// some files, and a chain the largest of its own, the totals hold the largest
/// of all of them once the chain is added.
pub proof fn largest_files_are_kept(
    state: bulkstat::WalkModel,
    chain: bulkstat::DirectoryModel,
    files: Seq<bulkstat::CandidateModel>,
    more: Seq<bulkstat::CandidateModel>,
)
    requires
        state.largest_files == sorting::best(
            &bulkstat::LargestFirst,
            files,
            state.top_file_limit,
        ),
        chain.largest_files == sorting::best(
            &bulkstat::LargestFirst,
            more,
            state.top_file_limit,
        ),
    ensures
        bulkstat::merged_chain(state, chain).largest_files == sorting::best(
            &bulkstat::LargestFirst,
            files + more,
            state.top_file_limit,
        ),
{
    largest_of_parts(files, more, state.top_file_limit);
}

/// The largest of two lists are kept where each is cut to its own largest first.
pub proof fn largest_of_parts(
    files: Seq<bulkstat::CandidateModel>,
    more: Seq<bulkstat::CandidateModel>,
    limit: nat,
)
    ensures
        bulkstat::with_candidates(
            sorting::best(&bulkstat::LargestFirst, files, limit),
            limit,
            sorting::best(&bulkstat::LargestFirst, more, limit),
        ) == sorting::best(&bulkstat::LargestFirst, files + more, limit),
{
    let cut = sorting::best(&bulkstat::LargestFirst, more, limit);
    candidates_are_offered(files, cut, limit);
    sorting::best_of_cut_parts(&bulkstat::LargestFirst, files, more, limit);
    sorting::best_of_parts(&bulkstat::LargestFirst, files, cut, limit);
}

/// Symbolic links and special files add nothing, wherever they lie.
pub proof fn other_entries_add_nothing(
    dir: Seq<char>,
    limit: nat,
    policy: bulkstat::ScanPolicy,
    entry: bulkstat::EntryModel,
    known: (bulkstat::DirectoryModel, Set<(u64, u64)>),
)
    requires
        entry.error == 0,
        entry.objtype != bulkstat::VREG && entry.objtype != bulkstat::VDIR,
    ensures
        bulkstat::with_entry(dir, limit, policy, entry, known) == known,
{
}

/// An entry that cannot be read is counted as such and adds nothing else, so the
/// size stays a lower bound.
pub proof fn unreadable_entries_are_counted(
    dir: Seq<char>,
    limit: nat,
    policy: bulkstat::ScanPolicy,
    entry: bulkstat::EntryModel,
    known: (bulkstat::DirectoryModel, Set<(u64, u64)>),
)
    requires
        entry.error != 0,
        known.0.inaccessible < u32::MAX,
    ensures
        ({
            let after = bulkstat::with_entry(dir, limit, policy, entry, known);
            &&& after.0.inaccessible == known.0.inaccessible + 1
            &&& after.0.size == known.0.size
            &&& after.0.subdirs == known.0.subdirs
            &&& after.1 == known.1
        }),
{
}

/// A directory on a device that is neither the root's nor the Data volume's is
/// counted as skipped and never walked.
pub proof fn other_devices_are_not_walked(
    dir: Seq<char>,
    limit: nat,
    policy: bulkstat::ScanPolicy,
    entry: bulkstat::EntryModel,
    known: (bulkstat::DirectoryModel, Set<(u64, u64)>),
)
    requires
        entry.error == 0 && entry.objtype == bulkstat::VDIR,
        entry.name is Some && !bulkstat::is_dot_name(entry.name->0),
        entry.devid is Some && entry.devid->0 != policy.root_dev,
        entry.devid != policy.data_dev,
        known.0.skipped_mounts < u32::MAX,
    ensures
        ({
            let after = bulkstat::with_entry(dir, limit, policy, entry, known);
            &&& after.0.skipped_mounts == known.0.skipped_mounts + 1
            &&& after.0.size == known.0.size
            &&& after.0.subdirs == known.0.subdirs
        }),
{
}

/// The path of a directory below the root: the names on the way to it with a
/// slash between any two of them.
pub proof fn names_are_parted_by_slashes(below: Seq<u8>, name: Seq<u8>)
    ensures
        deeper(Seq::empty(), name) == name,
        below.len() > 0 ==> deeper(below, name) == below + seq!['/' as u8] + name,
{
    assert('/' as u8 == 47u8);
    if below.len() > 0 {
        assert(below.push(47u8) + name =~= below + seq![47u8] + name);
    }
}

} // verus!
