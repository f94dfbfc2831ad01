//! Directory sizes from packed attribute buffers.
//!
//! The kernel hands out the attributes of many directory entries in one
//! buffer. Layout of each entry:
//!
//! | bytes   | field          | type      | present                       |
//! |---------|----------------|-----------|-------------------------------|
//! | 0..4    | length         | u32       | always, padding included      |
//! | 4..24   | returned attrs | 5 * u32   | always                        |
//! | then    | error          | u32       | where the common bitmap says  |
//! |         | name reference | i32 + u32 | where the common bitmap says  |
//! |         | device         | i32       | where the common bitmap says  |
//! |         | object type    | u32       | where the common bitmap says  |
//! |         | file id        | u64       | where the common bitmap says  |
//! |         | link count     | u32       | where the file bitmap says    |
//! |         | total size     | u64       | where the file bitmap says    |
//! |         | allocated size | u64       | where the file bitmap says    |
//!
//! Numbers are little-endian, as on every machine that runs macOS.

use crate::paths;
use crate::sorting;
use std::collections::HashMap;
use std::sync::atomic::{AtomicU64, Ordering};
use std::sync::Arc;
use vstd::prelude::*;

verus! {

pub const ATTR_CMN_NAME: u32 = 0x00000001;

pub const ATTR_CMN_DEVID: u32 = 0x00000002;

pub const ATTR_CMN_OBJTYPE: u32 = 0x00000008;

pub const ATTR_CMN_FILEID: u32 = 0x02000000;

pub const ATTR_CMN_ERROR: u32 = 0x20000000;

pub const ATTR_FILE_LINKCOUNT: u32 = 0x00000001;

pub const ATTR_FILE_TOTALSIZE: u32 = 0x00000002;

pub const ATTR_FILE_ALLOCSIZE: u32 = 0x00000004;

/// Object types of the entries that are counted.
pub const VREG: u32 = 1;

pub const VDIR: u32 = 2;

/// Where macOS mounts the Data volume that is firmlinked into `/`.
pub const DATA_VOLUME_ROOT: &'static str = "/System/Volumes/Data";

// ---------------------------------------------------------------------------
// Sizes
// ---------------------------------------------------------------------------

/// Apparent and on-disk size in bytes.
#[derive(Clone, Copy, Debug, PartialEq, Eq, Structural)]
pub struct SizeInfo {
    pub logical: u64,
    pub allocated: u64,
}

/// A number of bytes, cut to what 64 bits hold.
pub open spec fn capped(n: int) -> u64 {
    if n > u64::MAX {
        u64::MAX
    } else {
        n as u64
    }
}

/// A count, cut to what 32 bits hold.
pub open spec fn capped_count(n: int) -> u32 {
    if n > u32::MAX {
        u32::MAX
    } else {
        n as u32
    }
}

/// Two sizes added up, each part stopping at the largest number.
pub open spec fn size_sum(a: SizeInfo, b: SizeInfo) -> SizeInfo {
    SizeInfo {
        logical: capped(a.logical + b.logical),
        allocated: capped(a.allocated + b.allocated),
    }
}

impl SizeInfo {
    pub fn new(logical: u64, allocated: u64) -> (size: SizeInfo)
        ensures
            size.logical == logical,
            size.allocated == allocated,
    {
        SizeInfo { logical, allocated }
    }

    /// Adds the size of one more file.
    pub fn add_file(&mut self, file: SizeInfo)
        ensures
            *final(self) == size_sum(*old(self), file),
    {
        self.logical = self.logical.saturating_add(file.logical);
        self.allocated = self.allocated.saturating_add(file.allocated);
    }
}

impl Default for SizeInfo {
    fn default() -> (size: SizeInfo)
        ensures
            size == (SizeInfo { logical: 0, allocated: 0 }),
    {
        SizeInfo { logical: 0, allocated: 0 }
    }
}

/// A file of a largest-files report.
#[derive(Clone, Debug)]
pub struct LargeFile {
    pub path: String,
    pub size: SizeInfo,
}

#[verifier::ext_equal]
pub struct LargeFileModel {
    pub path: Seq<char>,
    pub size: SizeInfo,
}

impl View for LargeFile {
    type V = LargeFileModel;

    open spec fn view(&self) -> LargeFileModel {
        LargeFileModel { path: self.path@, size: self.size }
    }
}

/// What a scan of a directory tree found.
#[derive(Clone, Debug)]
pub struct DirScan {
    pub size: SizeInfo,
    pub largest_files: Vec<LargeFile>,
    /// Directories that could not be opened plus entries whose attributes could
    /// not be read. When non-zero the size is a lower bound.
    pub inaccessible: u32,
    /// Subdirectories skipped because they sit on another volume.
    pub skipped_mounts: u32,
}

#[verifier::ext_equal]
pub struct DirScanModel {
    pub size: SizeInfo,
    pub largest_files: Seq<LargeFileModel>,
    pub inaccessible: u32,
    pub skipped_mounts: u32,
}

impl View for DirScan {
    type V = DirScanModel;

    open spec fn view(&self) -> DirScanModel {
        DirScanModel {
            size: self.size,
            largest_files: sorting::views(self.largest_files@),
            inaccessible: self.inaccessible,
            skipped_mounts: self.skipped_mounts,
        }
    }
}

/// The scan that found nothing.
pub open spec fn empty_scan() -> DirScanModel {
    DirScanModel {
        size: SizeInfo { logical: 0, allocated: 0 },
        largest_files: Seq::empty(),
        inaccessible: 0,
        skipped_mounts: 0,
    }
}

impl Default for DirScan {
    fn default() -> (scan: DirScan)
        ensures
            scan@ == empty_scan(),
    {
        let scan = DirScan {
            size: SizeInfo { logical: 0, allocated: 0 },
            largest_files: Vec::new(),
            inaccessible: 0,
            skipped_mounts: 0,
        };
        assert(scan@.largest_files =~= Seq::<LargeFileModel>::empty());
        scan
    }
}

// ---------------------------------------------------------------------------
// Cancellation
// ---------------------------------------------------------------------------

/// A scan is cancelled once the shared generation moves away from the one that
/// the scan was started for; one that watches no generation never is.
#[derive(Debug)]
pub struct ScanCancellation {
    generation: Option<Arc<AtomicU64>>,
    expected: u64,
}

/// Whether a scan started for generation `expected` is out of date.
pub fn is_superseded(generation: u64, expected: u64) -> (r: bool)
    ensures
        r == (generation != expected),
{
    generation != expected
}

impl ScanCancellation {
    /// The generation that the scan was started for.
    pub closed spec fn started_for(&self) -> u64 {
        self.expected
    }

    /// The generation that is watched, if any is.
    pub closed spec fn watched(&self) -> Option<Arc<AtomicU64>> {
        self.generation
    }

    pub fn new(generation: Arc<AtomicU64>, expected: u64) -> (c: ScanCancellation)
        ensures
            c.started_for() == expected,
            c.watched() == Some(generation),
    {
        ScanCancellation { generation: Some(generation), expected }
    }

    /// A cancellation of a scan that nothing cancels.
    pub fn never() -> (c: ScanCancellation)
        ensures
            c.started_for() == 0,
            c.watched() is None,
    {
        ScanCancellation { generation: None, expected: 0 }
    }

    /// Whether the scan is cancelled: never where no generation is watched. Else
    /// the generation is read and compared as `is_superseded` does; what it
    /// holds at that moment is up to the other threads.
    pub fn is_cancelled(&self) -> (r: bool)
        ensures
            self.watched() is None ==> !r,
    {
        match &self.generation {
            Some(generation) => is_superseded(generation.load(Ordering::Relaxed), self.expected),
            None => false,
        }
    }
}

impl Clone for ScanCancellation {
    /// A clone watches the same generation for the same scan.
    fn clone(&self) -> (r: ScanCancellation)
        ensures
            r.watched() == self.watched(),
            r.started_for() == self.started_for(),
    {
        match &self.generation {
            Some(generation) => ScanCancellation {
                generation: Some(Arc::clone(generation)),
                expected: self.expected,
            },
            None => ScanCancellation { generation: None, expected: self.expected },
        }
    }
}

/// What a scan reports: nothing once it is cancelled, an empty scan where the
/// root is no directory, else what was found.
pub fn scan_outcome(
    cancelled_before: bool,
    is_directory: bool,
    cancelled_after: bool,
    found: DirScan,
) -> (r: Option<DirScan>)
    ensures
        match r {
            None => cancelled_before || (is_directory && cancelled_after),
            Some(scan) => !cancelled_before && !(is_directory && cancelled_after) && scan@ == (
            if is_directory {
                found@
            } else {
                empty_scan()
            }),
        },
{
    if cancelled_before {
        return None;
    }
    if !is_directory {
        return Some(DirScan::default());
    }
    if cancelled_after {
        None
    } else {
        Some(found)
    }
}

// ---------------------------------------------------------------------------
// Which directories belong to the scan
// ---------------------------------------------------------------------------

/// Which devices belong to the scanned file system.
#[derive(Clone, Copy, Debug, PartialEq, Eq, Structural)]
pub struct ScanPolicy {
    pub root_dev: u64,
    /// Device of the Data volume when it resolves. The root volume and the Data
    /// volume are firmlinked into one logical `/`, so both are counted.
    pub data_dev: Option<u64>,
    pub skip_data_volume: bool,
}

/// The path of the Data volume.
pub open spec fn data_volume() -> paths::PathModel {
    paths::path_of(DATA_VOLUME_ROOT@)
}

impl ScanPolicy {
    /// The policy of a scan that starts at `root`. The Data volume's own mount
    /// point is skipped where the scan reaches it from above, because its
    /// content already appears through the firmlinks.
    pub fn with_devices(root: &str, root_dev: u64, data_dev: Option<u64>) -> (policy: ScanPolicy)
        ensures
            policy.root_dev == root_dev,
            policy.data_dev == data_dev,
            policy.skip_data_volume == (paths::lies_under(data_volume(), paths::path_of(root@))
                && paths::path_of(root@) != data_volume()),
    {
        ScanPolicy {
            root_dev,
            data_dev,
            skip_data_volume: paths::path_starts_with(DATA_VOLUME_ROOT, root)
                && !paths::path_equals(root, DATA_VOLUME_ROOT),
        }
    }
}

/// A subdirectory is left out where it is the Data volume's mount point and the
/// policy says so, or where it is known to sit on a device that is neither the
/// root's nor the Data volume's.
pub open spec fn left_out(path: Seq<char>, devid: Option<u64>, policy: ScanPolicy) -> bool {
    ||| policy.skip_data_volume && paths::path_of(path) == data_volume()
    ||| devid is Some && devid->0 != policy.root_dev && policy.data_dev != devid
}

pub fn should_skip_subdir(path: &str, devid: Option<u64>, policy: &ScanPolicy) -> (r: bool)
    ensures
        r == left_out(path@, devid, *policy),
{
    if policy.skip_data_volume && paths::path_equals(path, DATA_VOLUME_ROOT) {
        return true;
    }
    match devid {
        Some(dev) => dev != policy.root_dev && match policy.data_dev {
            Some(data) => data != dev,
            None => true,
        },
        None => false,
    }
}

/// `EACCES`, `EPERM` and `ENAMETOOLONG` of the platform, as `libc` defines them.
/// Their numbers differ between systems, so none is claimed.
#[verifier::external_body]
fn unreadable_errnos() -> (codes: (i32, i32, i32)) {
    (libc::EACCES, libc::EPERM, libc::ENAMETOOLONG)
}

/// How many directories a failed open adds to the unreadable ones: one for the
/// three given errors, none for any other, such as a deletion race.
pub fn inaccessible_for(errno: Option<i32>, codes: (i32, i32, i32)) -> (count: u32)
    ensures
        count == if errno is Some && (errno->0 == codes.0 || errno->0 == codes.1 || errno->0
            == codes.2) {
            1u32
        } else {
            0u32
        },
{
    match errno {
        Some(code) => if code == codes.0 || code == codes.1 || code == codes.2 {
            1
        } else {
            0
        },
        None => 0,
    }
}

/// How many directories a failed open adds to the unreadable ones, by the
/// platform's error numbers.
pub fn inaccessible_from_errno(errno: Option<i32>) -> (count: u32)
    ensures
        count <= 1,
        errno is None ==> count == 0,
{
    inaccessible_for(errno, unreadable_errnos())
}

// ---------------------------------------------------------------------------
// Hard links
// ---------------------------------------------------------------------------

/// The files with several links that were already counted, by device and file
/// id.
pub struct SeenLinks {
    by_file: HashMap<u64, Vec<u64>>,
}

impl View for SeenLinks {
    type V = Set<(u64, u64)>;

    closed spec fn view(&self) -> Set<(u64, u64)> {
        Set::new(
            |id: (u64, u64)|
                self.by_file@.contains_key(id.1) && self.by_file@[id.1]@.contains(id.0),
        )
    }
}

impl SeenLinks {
    pub fn new() -> (seen: SeenLinks)
        ensures
            seen@ == Set::<(u64, u64)>::empty(),
    {
        broadcast use vstd::std_specs::hash::group_hash_axioms;

        let seen = SeenLinks { by_file: HashMap::new() };
        assert(seen@ =~= Set::<(u64, u64)>::empty());
        seen
    }

    /// Notes a file; says whether it is seen for the first time.
    pub fn insert(&mut self, dev: u64, file: u64) -> (fresh: bool)
        ensures
            fresh == !old(self)@.contains((dev, file)),
            final(self)@ == old(self)@.insert((dev, file)),
    {
        broadcast use vstd::std_specs::hash::group_hash_axioms;

        let ghost before = self@;
        let mut devs: Vec<u64> = Vec::new();
        let mut known = false;
        match self.by_file.get(&file) {
            Some(list) => {
                let mut i: usize = 0;
                while i < list.len()
                    invariant
                        i <= list@.len(),
                        devs@ == list@.take(i as int),
                        known == list@.take(i as int).contains(dev),
                    decreases list@.len() - i,
                {
                    let d = list[i];
                    assert(list@.take(i + 1) =~= list@.take(i as int).push(d));
                    assert(list@.take(i + 1)[i as int] == d);
                    if d == dev {
                        known = true;
                    }
                    proof {
                        let now = list@.take(i as int);
                        let next = list@.take(i + 1);
                        if now.contains(dev) {
                            let k = choose|k: int| 0 <= k < now.len() && now[k] == dev;
                            assert(next[k] == dev);
                        }
                        if next.contains(dev) && d != dev {
                            let k = choose|k: int| 0 <= k < next.len() && next[k] == dev;
                            assert(now[k] == dev);
                        }
                    }
                    devs.push(d);
                    i += 1;
                }
                assert(list@.take(list@.len() as int) =~= list@);
            },
            None => {
                assert(!devs@.contains(dev));
            },
        }
        assert(known == before.contains((dev, file)));
        if known {
            assert(before.insert((dev, file)) =~= before);
            return false;
        }
        let ghost listed = devs@;
        devs.push(dev);
        self.by_file.insert(file, devs);
        proof {
            assert forall|id: (u64, u64)| self@.contains(id) == #[trigger] before.insert(
                (dev, file),
            ).contains(id) by {
                if id.1 == file {
                    assert(devs@ == listed.push(dev));
                    if id.0 == dev {
                        assert(devs@[listed.len() as int] == dev);
                    } else if listed.contains(id.0) {
                        let k = choose|k: int| 0 <= k < listed.len() && listed[k] == id.0;
                        assert(devs@[k] == id.0);
                    } else if devs@.contains(id.0) {
                        let k = choose|k: int| 0 <= k < devs@.len() && devs@[k] == id.0;
                        assert(listed[k] == id.0);
                    }
                }
            }
            assert(self@ =~= before.insert((dev, file)));
        }
        true
    }
}

/// The identity under which a file is counted once: none where it has one link
/// or no file id, so that it always counts.
pub open spec fn link_identity(
    devid: Option<u64>,
    fileid: Option<u64>,
    linkcount: u32,
    policy: ScanPolicy,
) -> Option<(u64, u64)> {
    if linkcount <= 1 || fileid is None {
        None
    } else {
        Some((if devid is Some { devid->0 } else { policy.root_dev }, fileid->0))
    }
}

/// Whether a file's bytes are still to be counted; a file with several links
/// counts the first time it is met.
pub fn should_count_file(
    devid: Option<u64>,
    fileid: Option<u64>,
    linkcount: u32,
    policy: &ScanPolicy,
    seen: &mut SeenLinks,
) -> (counts: bool)
    ensures
        match link_identity(devid, fileid, linkcount, *policy) {
            None => counts && final(seen)@ == old(seen)@,
            Some(id) => counts == !old(seen)@.contains(id) && final(seen)@ == old(seen)@.insert(
                id,
            ),
        },
{
    if linkcount <= 1 {
        return true;
    }
    match fileid {
        None => true,
        Some(file) => {
            let dev: u64 = match devid {
                Some(d) => d,
                None => policy.root_dev,
            };
            seen.insert(dev, file)
        },
    }
}

// ---------------------------------------------------------------------------
// The largest files
// ---------------------------------------------------------------------------

/// A file that may belong to the largest ones.
#[derive(Clone, Debug)]
pub struct FileCandidate {
    pub allocated: u64,
    pub logical: u64,
    pub path: String,
}

#[verifier::ext_equal]
pub struct CandidateModel {
    pub allocated: u64,
    pub logical: u64,
    pub path: Seq<char>,
}

impl View for FileCandidate {
    type V = CandidateModel;

    open spec fn view(&self) -> CandidateModel {
        CandidateModel { allocated: self.allocated, logical: self.logical, path: self.path@ }
    }
}

/// Files by rank: more allocated bytes, then more logical bytes, then the later
/// path.
pub struct LargestFirst;

impl sorting::Order<CandidateModel> for LargestFirst {
    open spec fn before(&self, a: CandidateModel, b: CandidateModel) -> bool {
        if a.allocated != b.allocated {
            a.allocated > b.allocated
        } else if a.logical != b.logical {
            a.logical > b.logical
        } else {
            paths::path_less(paths::path_of(b.path), paths::path_of(a.path))
        }
    }

    proof fn is_order(&self, a: CandidateModel, b: CandidateModel, c: CandidateModel) {
        let (p, q, r) = (paths::path_of(a.path), paths::path_of(b.path), paths::path_of(c.path));
        paths::path_order_total(p, q);
        paths::path_order_total(q, r);
        paths::path_order_total(p, r);
        if paths::path_less(p, r) && paths::path_less(r, q) {
            paths::path_order_transitive(p, r, q);
        }
        if paths::path_less(q, p) && paths::path_less(p, r) {
            paths::path_order_transitive(q, p, r);
        }
    }
}

impl sorting::Arranged<FileCandidate> for LargestFirst {
    fn goes_before(&self, a: &FileCandidate, b: &FileCandidate) -> (r: bool) {
        if a.allocated != b.allocated {
            a.allocated > b.allocated
        } else if a.logical != b.logical {
            a.logical > b.logical
        } else {
            paths::path_is_less(b.path.as_str(), a.path.as_str())
        }
    }
}

/// The `limit` largest of the files in `list` and `candidate`.
pub open spec fn with_candidate(
    list: Seq<CandidateModel>,
    limit: nat,
    candidate: CandidateModel,
) -> Seq<CandidateModel> {
    sorting::first(sorting::merged(&LargestFirst, list, seq![candidate]), limit)
}

/// Offers a file to the largest ones found so far, of which at most `limit` are
/// kept.
pub fn push_file_candidate(list: &mut Vec<FileCandidate>, limit: usize, candidate: FileCandidate)
    requires
        old(list)@.len() <= limit,
    ensures
        sorting::views(final(list)@) == with_candidate(
            sorting::views(old(list)@),
            limit as nat,
            candidate@,
        ),
        final(list)@.len() <= limit,
{
    sorting::offer(&LargestFirst, list, candidate, limit);
}

pub fn push_largest_file(list: &mut Vec<FileCandidate>, limit: usize, path: String, size: SizeInfo)
    requires
        old(list)@.len() <= limit,
    ensures
        sorting::views(final(list)@) == with_candidate(
            sorting::views(old(list)@),
            limit as nat,
            CandidateModel { allocated: size.allocated, logical: size.logical, path: path@ },
        ),
        final(list)@.len() <= limit,
{
    push_file_candidate(
        list,
        limit,
        FileCandidate { allocated: size.allocated, logical: size.logical, path },
    );
}

/// Offers a whole list of files, one after the other.
pub open spec fn with_candidates(
    list: Seq<CandidateModel>,
    limit: nat,
    more: Seq<CandidateModel>,
) -> Seq<CandidateModel>
    decreases more.len(),
{
    if more.len() == 0 {
        list
    } else {
        with_candidate(with_candidates(list, limit, more.drop_last()), limit, more.last())
    }
}

fn push_file_candidates(list: &mut Vec<FileCandidate>, limit: usize, more: &Vec<FileCandidate>)
    requires
        old(list)@.len() <= limit,
    ensures
        sorting::views(final(list)@) == with_candidates(
            sorting::views(old(list)@),
            limit as nat,
            sorting::views(more@),
        ),
        final(list)@.len() <= limit,
{
    let ghost start = sorting::views(list@);
    let ghost all = sorting::views(more@);
    let mut i: usize = 0;
    assert(all.take(0) =~= Seq::<CandidateModel>::empty());
    while i < more.len()
        invariant
            i <= more@.len(),
            all == sorting::views(more@),
            list@.len() <= limit,
            sorting::views(list@) == with_candidates(start, limit as nat, all.take(i as int)),
        decreases more@.len() - i,
    {
        let item = &more[i];
        let copy = FileCandidate {
            allocated: item.allocated,
            logical: item.logical,
            path: item.path.clone(),
        };
        assert(all.take(i + 1).drop_last() =~= all.take(i as int));
        assert(all.take(i + 1).last() == copy@);
        push_file_candidate(list, limit, copy);
        i += 1;
    }
    assert(all.take(all.len() as int) =~= all);
}

/// The order of a largest-files report: more allocated bytes, then more logical
/// bytes, then the earlier path.
pub struct ReportOrder;

impl sorting::Order<LargeFileModel> for ReportOrder {
    open spec fn before(&self, a: LargeFileModel, b: LargeFileModel) -> bool {
        if a.size.allocated != b.size.allocated {
            a.size.allocated > b.size.allocated
        } else if a.size.logical != b.size.logical {
            a.size.logical > b.size.logical
        } else {
            paths::path_less(paths::path_of(a.path), paths::path_of(b.path))
        }
    }

    proof fn is_order(&self, a: LargeFileModel, b: LargeFileModel, c: LargeFileModel) {
        let (p, q, r) = (paths::path_of(a.path), paths::path_of(b.path), paths::path_of(c.path));
        paths::path_order_total(p, q);
        paths::path_order_total(q, r);
        paths::path_order_total(p, r);
        if paths::path_less(r, p) && paths::path_less(q, r) {
            paths::path_order_transitive(q, r, p);
        }
        if paths::path_less(r, p) && paths::path_less(p, q) {
            paths::path_order_transitive(r, p, q);
        }
    }
}

impl sorting::Arranged<LargeFile> for ReportOrder {
    fn goes_before(&self, a: &LargeFile, b: &LargeFile) -> (r: bool) {
        if a.size.allocated != b.size.allocated {
            a.size.allocated > b.size.allocated
        } else if a.size.logical != b.size.logical {
            a.size.logical > b.size.logical
        } else {
            paths::path_is_less(a.path.as_str(), b.path.as_str())
        }
    }
}

/// A candidate as it is reported.
pub open spec fn reported(c: CandidateModel) -> LargeFileModel {
    LargeFileModel {
        path: c.path,
        size: SizeInfo { logical: c.logical, allocated: c.allocated },
    }
}

/// The candidates as they are reported, in report order.
pub open spec fn report_of(list: Seq<CandidateModel>) -> Seq<LargeFileModel> {
    sorting::arranged(&ReportOrder, list.map_values(|c: CandidateModel| reported(c)))
}

pub fn sorted_largest_files(list: &Vec<FileCandidate>) -> (files: Vec<LargeFile>)
    ensures
        sorting::views(files@) == report_of(sorting::views(list@)),
{
    let ghost all = sorting::views(list@).map_values(|c: CandidateModel| reported(c));
    let mut files: Vec<LargeFile> = Vec::new();
    let mut i: usize = 0;
    assert(sorting::views(files@) =~= all.take(0));
    while i < list.len()
        invariant
            i <= list@.len(),
            all == sorting::views(list@).map_values(|c: CandidateModel| reported(c)),
            sorting::views(files@) == all.take(i as int),
        decreases list@.len() - i,
    {
        let item = &list[i];
        let file = LargeFile {
            path: item.path.clone(),
            size: SizeInfo { logical: item.logical, allocated: item.allocated },
        };
        proof {
            sorting::views_push(files@, file);
            assert(file@ == all[i as int]);
            assert(all.take(i + 1) =~= all.take(i as int).push(all[i as int]));
        }
        files.push(file);
        i += 1;
    }
    assert(all.take(all.len() as int) =~= all);
    sorting::arrange(&ReportOrder, files)
}

// ---------------------------------------------------------------------------
// Reading the packed buffer
// ---------------------------------------------------------------------------

/// The little-endian number in `width` bytes from `at` on.
pub open spec fn le_number(buf: Seq<u8>, at: int, width: nat) -> nat
    decreases width,
{
    if width == 0 {
        0
    } else {
        buf[at] as nat + 256 * le_number(buf, at + 1, (width - 1) as nat)
    }
}

/// `width` bytes from `at` on lie in the buffer and before `limit`.
pub open spec fn holds_field(buf: Seq<u8>, limit: int, at: int, width: nat) -> bool {
    at + width <= limit && at + width <= buf.len()
}

pub fn read_u32(buf: &Vec<u8>, limit: usize, off: usize) -> (r: Option<u32>)
    ensures
        match r {
            Some(n) => holds_field(buf@, limit as int, off as int, 4) && n == le_number(
                buf@,
                off as int,
                4,
            ),
            None => !holds_field(buf@, limit as int, off as int, 4),
        },
{
    let end: usize = if limit < buf.len() {
        limit
    } else {
        buf.len()
    };
    if end < 4 || off > end - 4 {
        return None;
    }
    let (a, b, c, d) = (buf[off], buf[off + 1], buf[off + 2], buf[off + 3]);
    proof {
        reveal_with_fuel(le_number, 5);
    }
    Some(a as u32 + 256 * (b as u32 + 256 * (c as u32 + 256 * (d as u32))))
}

pub fn read_u64(buf: &Vec<u8>, limit: usize, off: usize) -> (r: Option<u64>)
    ensures
        match r {
            Some(n) => holds_field(buf@, limit as int, off as int, 8) && n == le_number(
                buf@,
                off as int,
                8,
            ),
            None => !holds_field(buf@, limit as int, off as int, 8),
        },
{
    let end: usize = if limit < buf.len() {
        limit
    } else {
        buf.len()
    };
    if end < 8 || off > end - 8 {
        return None;
    }
    let low: u64 = match read_u32(buf, limit, off) {
        Some(n) => n as u64,
        None => 0,
    };
    let high: u64 = match read_u32(buf, limit, off + 4) {
        Some(n) => n as u64,
        None => 0,
    };
    proof {
        reveal_with_fuel(le_number, 9);
    }
    Some(low + 0x1_0000_0000 * high)
}

/// The signed number that a 32-bit pattern denotes.
pub open spec fn as_signed(n: nat) -> int {
    if n < 0x8000_0000 {
        n as int
    } else {
        n - 0x1_0000_0000
    }
}

pub fn read_i32(buf: &Vec<u8>, limit: usize, off: usize) -> (r: Option<i32>)
    ensures
        match r {
            Some(n) => holds_field(buf@, limit as int, off as int, 4) && n == as_signed(
                le_number(buf@, off as int, 4),
            ),
            None => !holds_field(buf@, limit as int, off as int, 4),
        },
{
    match read_u32(buf, limit, off) {
        Some(n) => if n < 0x8000_0000 {
            Some(n as i32)
        } else {
            Some((n as i64 - 0x1_0000_0000) as i32)
        },
        None => None,
    }
}

/// The bytes that an attribute reference points at: `len` bytes, `offset` bytes
/// away from the reference itself, without the one NUL that may end them. None
/// where they do not lie in the entry or nothing is left.
pub open spec fn referenced(buf: Seq<u8>, limit: int, at: int, offset: int, len: int) -> Option<
    Seq<u8>,
> {
    let from = at + offset;
    if len == 0 || from < 0 || from + len > limit || from + len > buf.len() {
        None
    } else {
        let raw = buf.subrange(from, from + len);
        let name = if raw.last() == 0 {
            raw.drop_last()
        } else {
            raw
        };
        if name.len() == 0 {
            None
        } else {
            Some(name)
        }
    }
}

pub fn read_attr_reference(
    buf: &Vec<u8>,
    limit: usize,
    attr_ref_start: usize,
    data_offset: i32,
    data_len: u32,
) -> (r: Option<Vec<u8>>)
    requires
        attr_ref_start <= buf@.len(),
    ensures
        match r {
            Some(name) => referenced(
                buf@,
                limit as int,
                attr_ref_start as int,
                data_offset as int,
                data_len as int,
            ) == Some(name@),
            None => referenced(
                buf@,
                limit as int,
                attr_ref_start as int,
                data_offset as int,
                data_len as int,
            ) is None,
        },
{
    if data_len == 0 {
        return None;
    }
    let from: i128 = attr_ref_start as i128 + data_offset as i128;
    let to: i128 = from + data_len as i128;
    if from < 0 || to > limit as i128 || to > buf.len() as i128 {
        return None;
    }
    let start: usize = from as usize;
    let mut end: usize = to as usize;
    let ghost raw = buf@.subrange(start as int, end as int);
    if buf[end - 1] == 0 {
        end = end - 1;
        assert(raw.drop_last() =~= buf@.subrange(start as int, end as int));
    }
    if start == end {
        return None;
    }
    let mut name: Vec<u8> = Vec::new();
    let mut i: usize = start;
    while i < end
        invariant
            start <= i <= end <= buf@.len(),
            name@ == buf@.subrange(start as int, i as int),
        decreases end - i,
    {
        name.push(buf[i]);
        i += 1;
        assert(buf@.subrange(start as int, i as int) =~= buf@.subrange(
            start as int,
            i - 1,
        ).push(buf@[i - 1]));
    }
    Some(name)
}

/// One entry of a buffer, decoded.
#[verifier::ext_equal]
pub struct EntryModel {
    pub length: nat,
    pub error: nat,
    pub name: Option<Seq<u8>>,
    pub devid: Option<u64>,
    pub objtype: nat,
    pub fileid: Option<u64>,
    pub linkcount: u32,
    pub totalsize: u64,
    pub allocsize: u64,
}

/// The bitmap of a returned attribute group has a bit set.
pub open spec fn has_bit(bitmap: nat, bit: u32) -> bool {
    (bitmap as u32) & bit != 0
}

/// How far a field moves the ones after it.
pub open spec fn width_if(present: bool, width: int) -> int {
    if present {
        width
    } else {
        0
    }
}

/// A 64-bit field that is present and lies in the entry.
pub open spec fn wide_field(buf: Seq<u8>, end: int, present: bool, at: int) -> Option<u64> {
    if present && holds_field(buf, end, at, 8) {
        Some(le_number(buf, at, 8) as u64)
    } else {
        None
    }
}

/// The number, or zero.
pub open spec fn or_zero(n: Option<u64>) -> u64 {
    match n {
        Some(v) => v,
        None => 0,
    }
}

/// The entry that starts at `start`; none where its header, or a 32-bit field
/// that its bitmaps announce, does not lie in it.
pub open spec fn entry_at(buf: Seq<u8>, start: int) -> Option<EntryModel> {
    let length = le_number(buf, start, 4);
    let end = start + length;
    let common = le_number(buf, start + 4, 4);
    let file = le_number(buf, start + 16, 4);
    let error_at = start + 24;
    let name_at = error_at + width_if(has_bit(common, ATTR_CMN_ERROR), 4);
    let dev_at = name_at + width_if(has_bit(common, ATTR_CMN_NAME), 8);
    let type_at = dev_at + width_if(has_bit(common, ATTR_CMN_DEVID), 4);
    let id_at = type_at + width_if(has_bit(common, ATTR_CMN_OBJTYPE), 4);
    let links_at = id_at + width_if(has_bit(common, ATTR_CMN_FILEID), 8);
    let total_at = links_at + width_if(has_bit(file, ATTR_FILE_LINKCOUNT), 4);
    let alloc_at = total_at + width_if(has_bit(file, ATTR_FILE_TOTALSIZE), 8);
    if start + 24 > buf.len() || length == 0 || end > buf.len() || end < start + 20 || (has_bit(
        common,
        ATTR_CMN_ERROR,
    ) && !holds_field(buf, end, error_at, 4)) || (has_bit(common, ATTR_CMN_NAME) && !holds_field(
        buf,
        end,
        name_at,
        8,
    )) || (has_bit(common, ATTR_CMN_DEVID) && !holds_field(buf, end, dev_at, 4)) || (has_bit(
        common,
        ATTR_CMN_OBJTYPE,
    ) && !holds_field(buf, end, type_at, 4)) || (has_bit(file, ATTR_FILE_LINKCOUNT)
        && !holds_field(buf, end, links_at, 4)) {
        None
    } else {
        Some(
            EntryModel {
                length,
                error: if has_bit(common, ATTR_CMN_ERROR) {
                    le_number(buf, error_at, 4)
                } else {
                    0
                },
                name: if has_bit(common, ATTR_CMN_NAME) {
                    referenced(
                        buf,
                        end,
                        name_at,
                        as_signed(le_number(buf, name_at, 4)),
                        le_number(buf, name_at + 4, 4) as int,
                    )
                } else {
                    None
                },
                devid: if has_bit(common, ATTR_CMN_DEVID) {
                    Some(le_number(buf, dev_at, 4) as u64)
                } else {
                    None
                },
                objtype: if has_bit(common, ATTR_CMN_OBJTYPE) {
                    le_number(buf, type_at, 4)
                } else {
                    0
                },
                fileid: wide_field(buf, end, has_bit(common, ATTR_CMN_FILEID), id_at),
                linkcount: if has_bit(file, ATTR_FILE_LINKCOUNT) {
                    le_number(buf, links_at, 4) as u32
                } else {
                    1
                },
                totalsize: or_zero(
                    wide_field(buf, end, has_bit(file, ATTR_FILE_TOTALSIZE), total_at),
                ),
                allocsize: or_zero(
                    wide_field(buf, end, has_bit(file, ATTR_FILE_ALLOCSIZE), alloc_at),
                ),
            },
        )
    }
}

/// An entry of a buffer.
pub struct RawEntry {
    pub length: usize,
    pub error: u32,
    pub name: Option<Vec<u8>>,
    pub devid: Option<u64>,
    pub objtype: u32,
    pub fileid: Option<u64>,
    pub linkcount: u32,
    pub totalsize: u64,
    pub allocsize: u64,
}

impl View for RawEntry {
    type V = EntryModel;

    open spec fn view(&self) -> EntryModel {
        EntryModel {
            length: self.length as nat,
            error: self.error as nat,
            name: match self.name {
                Some(bytes) => Some(bytes@),
                None => None,
            },
            devid: self.devid,
            objtype: self.objtype as nat,
            fileid: self.fileid,
            linkcount: self.linkcount,
            totalsize: self.totalsize,
            allocsize: self.allocsize,
        }
    }
}

/// Decodes the entry that starts at `start`.
#[verifier::spinoff_prover]
#[verifier::rlimit(40)]
pub fn read_entry(buf: &Vec<u8>, start: usize) -> (r: Option<RawEntry>)
    requires
        start <= buf@.len(),
    ensures
        match r {
            Some(e) => entry_at(buf@, start as int) == Some(e@) && start + e.length <= buf@.len(),
            None => entry_at(buf@, start as int) is None,
        },
{
    let count: usize = buf.len();
    if count - start < 24 {
        return None;
    }
    let length: usize = match read_u32(buf, count, start) {
        Some(n) => n as usize,
        None => return None,
    };
    if length == 0 || length > count - start {
        return None;
    }
    let end: usize = start + length;
    let common: u32 = match read_u32(buf, end, start + 4) {
        Some(n) => n,
        None => return None,
    };
    let file: u32 = match read_u32(buf, end, start + 16) {
        Some(n) => n,
        None => return None,
    };
    let mut field: usize = start + 24;
    let mut error: u32 = 0;
    if common & ATTR_CMN_ERROR != 0 {
        error = match read_u32(buf, end, field) {
            Some(n) => n,
            None => return None,
        };
        field = field + 4;
    }
    let mut name: Option<Vec<u8>> = None;
    if common & ATTR_CMN_NAME != 0 {
        let offset: i32 = match read_i32(buf, end, field) {
            Some(n) => n,
            None => return None,
        };
        let len: u32 = match read_u32(buf, end, field + 4) {
            Some(n) => n,
            None => return None,
        };
        name = read_attr_reference(buf, end, field, offset, len);
        field = field + 8;
    }
    let mut devid: Option<u64> = None;
    if common & ATTR_CMN_DEVID != 0 {
        devid = match read_u32(buf, end, field) {
            Some(n) => Some(n as u64),
            None => return None,
        };
        field = field + 4;
    }
    let mut objtype: u32 = 0;
    if common & ATTR_CMN_OBJTYPE != 0 {
        objtype = match read_u32(buf, end, field) {
            Some(n) => n,
            None => return None,
        };
        field = field + 4;
    }
    // From here on a field may lie beyond the entry, and positions may pass the
    // end of the buffer: they are kept in a wider type.
    let mut at: u128 = field as u128;
    let mut fileid: Option<u64> = None;
    if common & ATTR_CMN_FILEID != 0 {
        fileid = read_wide(buf, end, at);
        at = at + 8;
    }
    let mut linkcount: u32 = 1;
    if file & ATTR_FILE_LINKCOUNT != 0 {
        if at + 4 > end as u128 {
            return None;
        }
        linkcount = match read_u32(buf, end, at as usize) {
            Some(n) => n,
            None => return None,
        };
        at = at + 4;
    }
    let mut totalsize: u64 = 0;
    if file & ATTR_FILE_TOTALSIZE != 0 {
        totalsize = match read_wide(buf, end, at) {
            Some(n) => n,
            None => 0,
        };
        at = at + 8;
    }
    let mut allocsize: u64 = 0;
    if file & ATTR_FILE_ALLOCSIZE != 0 {
        allocsize = match read_wide(buf, end, at) {
            Some(n) => n,
            None => 0,
        };
    }
    Some(
        RawEntry {
            length,
            error,
            name,
            devid,
            objtype,
            fileid,
            linkcount,
            totalsize,
            allocsize,
        },
    )
}

fn read_wide(buf: &Vec<u8>, end: usize, at: u128) -> (r: Option<u64>)
    requires
        end <= buf@.len(),
        at <= buf@.len() + 64,
    ensures
        r == wide_field(buf@, end as int, true, at as int),
{
    let count: usize = buf.len();
    if count < 8 || at > (count - 8) as u128 || at + 8 > end as u128 {
        return None;
    }
    read_u64(buf, end, at as usize)
}

// ---------------------------------------------------------------------------
// Counting the entries of a directory
// ---------------------------------------------------------------------------

/// The text form of a file name: `String::from_utf8_lossy`.
pub uninterp spec fn lossy_text(bytes: Seq<u8>) -> Seq<char>;

/// `String::from_utf8_lossy`: bytes that are UTF-8 give the text they encode.
/// What stands in for bytes that are not is left unsaid.
#[verifier::external_body]
pub(crate) fn name_text(bytes: &[u8]) -> (name: String)
    ensures
        name@ == lossy_text(bytes@),
        vstd::utf8::valid_utf8(bytes@) ==> vstd::utf8::encode_utf8(name@) == bytes@,
{
    String::from_utf8_lossy(bytes).into_owned()
}

/// A subdirectory to be scanned: its name as the file system has it, and its
/// path.
#[derive(Clone, Debug)]
pub struct Subdir {
    pub name: Vec<u8>,
    pub path: String,
}

#[verifier::ext_equal]
pub struct SubdirModel {
    pub name: Seq<u8>,
    pub path: Seq<char>,
}

impl View for Subdir {
    type V = SubdirModel;

    open spec fn view(&self) -> SubdirModel {
        SubdirModel { name: self.name@, path: self.path@ }
    }
}

/// What was found in a directory, or in a chain of directories.
#[derive(Debug)]
pub struct DirectoryScan {
    pub size: SizeInfo,
    pub largest_files: Vec<FileCandidate>,
    pub subdirs: Vec<Subdir>,
    pub inaccessible: u32,
    pub skipped_mounts: u32,
}

#[verifier::ext_equal]
pub struct DirectoryModel {
    pub size: SizeInfo,
    pub largest_files: Seq<CandidateModel>,
    pub subdirs: Seq<SubdirModel>,
    pub inaccessible: u32,
    pub skipped_mounts: u32,
}

impl View for DirectoryScan {
    type V = DirectoryModel;

    open spec fn view(&self) -> DirectoryModel {
        DirectoryModel {
            size: self.size,
            largest_files: sorting::views(self.largest_files@),
            subdirs: sorting::views(self.subdirs@),
            inaccessible: self.inaccessible,
            skipped_mounts: self.skipped_mounts,
        }
    }
}

/// What is known before anything was read.
pub open spec fn empty_directory() -> DirectoryModel {
    DirectoryModel {
        size: SizeInfo { logical: 0, allocated: 0 },
        largest_files: Seq::empty(),
        subdirs: Seq::empty(),
        inaccessible: 0,
        skipped_mounts: 0,
    }
}

impl DirectoryScan {
    pub fn new() -> (scan: DirectoryScan)
        ensures
            scan@ == empty_directory(),
            scan.largest_files@.len() == 0,
    {
        let scan = DirectoryScan {
            size: SizeInfo { logical: 0, allocated: 0 },
            largest_files: Vec::new(),
            subdirs: Vec::new(),
            inaccessible: 0,
            skipped_mounts: 0,
        };
        assert(scan@.largest_files =~= Seq::<CandidateModel>::empty());
        assert(scan@.subdirs =~= Seq::<SubdirModel>::empty());
        scan
    }
}

/// The path of an entry of `dir`.
pub open spec fn entry_path(dir: Seq<char>, name: Seq<u8>) -> Seq<char> {
    paths::join_text(dir, lossy_text(name))
}

/// A directory's entries for itself and its parent.
pub open spec fn is_dot_name(name: Seq<u8>) -> bool {
    name == seq![46u8] || name == seq![46u8, 46u8]
}

/// What is known after one more entry. An entry whose attributes could not be
/// read adds to the unreadable ones. A regular file adds its size, unless it is
/// another link to a file already counted, and is offered to the largest ones.
/// A directory is listed, or adds to the skipped mounts. Anything else adds
/// nothing.
pub open spec fn with_entry(
    dir: Seq<char>,
    limit: nat,
    policy: ScanPolicy,
    entry: EntryModel,
    known: (DirectoryModel, Set<(u64, u64)>),
) -> (DirectoryModel, Set<(u64, u64)>) {
    let (found, seen) = known;
    let id = link_identity(entry.devid, entry.fileid, entry.linkcount, policy);
    let size = SizeInfo { logical: entry.totalsize, allocated: entry.allocsize };
    if entry.error != 0 {
        (
            DirectoryModel { inaccessible: capped_count(found.inaccessible + 1), ..found },
            seen,
        )
    } else if entry.objtype == VREG {
        if id is Some && seen.contains(id->0) {
            known
        } else {
            (
                DirectoryModel {
                    size: size_sum(found.size, size),
                    largest_files: if limit > 0 && entry.name is Some {
                        with_candidate(
                            found.largest_files,
                            limit,
                            CandidateModel {
                                allocated: entry.allocsize,
                                logical: entry.totalsize,
                                path: entry_path(dir, entry.name->0),
                            },
                        )
                    } else {
                        found.largest_files
                    },
                    ..found
                },
                if id is Some {
                    seen.insert(id->0)
                } else {
                    seen
                },
            )
        }
    } else if entry.objtype == VDIR && entry.name is Some && !is_dot_name(entry.name->0) {
        let path = entry_path(dir, entry.name->0);
        if left_out(path, entry.devid, policy) {
            (
                DirectoryModel { skipped_mounts: capped_count(found.skipped_mounts + 1), ..found },
                seen,
            )
        } else {
            (
                DirectoryModel {
                    subdirs: found.subdirs.push(SubdirModel { name: entry.name->0, path }),
                    ..found
                },
                seen,
            )
        }
    } else {
        known
    }
}

/// What is known after `count` entries of a buffer, from the one at `start` on;
/// an entry that cannot be decoded ends the buffer.
pub open spec fn with_entries(
    buf: Seq<u8>,
    count: nat,
    start: int,
    dir: Seq<char>,
    limit: nat,
    policy: ScanPolicy,
    known: (DirectoryModel, Set<(u64, u64)>),
) -> (DirectoryModel, Set<(u64, u64)>)
    decreases count,
{
    if count == 0 {
        known
    } else {
        match entry_at(buf, start) {
            None => known,
            Some(e) => with_entries(
                buf,
                (count - 1) as nat,
                start + e.length,
                dir,
                limit,
                policy,
                with_entry(dir, limit, policy, e, known),
            ),
        }
    }
}

fn is_dots(name: &Vec<u8>) -> (r: bool)
    ensures
        r == is_dot_name(name@),
{
    if name.len() == 1 && name[0] == 46 {
        assert(name@ =~= seq![46u8]);
        return true;
    }
    if name.len() == 2 && name[0] == 46 && name[1] == 46 {
        assert(name@ =~= seq![46u8, 46u8]);
        return true;
    }
    false
}

fn count_entry(
    dir: &str,
    limit: usize,
    policy: &ScanPolicy,
    entry: RawEntry,
    found: &mut DirectoryScan,
    seen: &mut SeenLinks,
)
    requires
        old(found).largest_files@.len() <= limit,
    ensures
        (final(found)@, final(seen)@) == with_entry(
            dir@,
            limit as nat,
            *policy,
            entry@,
            (old(found)@, old(seen)@),
        ),
        final(found).largest_files@.len() <= limit,
{
    if entry.error != 0 {
        found.inaccessible = found.inaccessible.saturating_add(1);
        return ;
    }
    if entry.objtype == VREG {
        if !should_count_file(entry.devid, entry.fileid, entry.linkcount, policy, seen) {
            assert(seen@ =~= old(seen)@);
            return ;
        }
        let size = SizeInfo { logical: entry.totalsize, allocated: entry.allocsize };
        found.size.add_file(size);
        if limit > 0 {
            match &entry.name {
                Some(name) => {
                    let label = name_text(name.as_slice());
                    let path = paths::path_join(dir, label.as_str());
                    push_largest_file(&mut found.largest_files, limit, path, size);
                },
                None => {},
            }
        }
        return ;
    }
    if entry.objtype == VDIR {
        match entry.name {
            Some(name) => {
                if !is_dots(&name) {
                    let label = name_text(name.as_slice());
                    let path = paths::path_join(dir, label.as_str());
                    if should_skip_subdir(path.as_str(), entry.devid, policy) {
                        found.skipped_mounts = found.skipped_mounts.saturating_add(1);
                    } else {
                        let subdir = Subdir { name, path };
                        proof {
                            sorting::views_push(found.subdirs@, subdir);
                        }
                        found.subdirs.push(subdir);
                    }
                }
            },
            None => {},
        }
    }
}

/// Counts the entries of one buffer of directory `dir`.
pub fn scan_open_dir(
    buf: &Vec<u8>,
    count: usize,
    dir: &str,
    top_file_limit: usize,
    policy: &ScanPolicy,
    found: &mut DirectoryScan,
    seen: &mut SeenLinks,
)
    requires
        old(found).largest_files@.len() <= top_file_limit,
    ensures
        (final(found)@, final(seen)@) == with_entries(
            buf@,
            count as nat,
            0,
            dir@,
            top_file_limit as nat,
            *policy,
            (old(found)@, old(seen)@),
        ),
        final(found).largest_files@.len() <= top_file_limit,
{
    let ghost goal = with_entries(
        buf@,
        count as nat,
        0,
        dir@,
        top_file_limit as nat,
        *policy,
        (found@, seen@),
    );
    let size: usize = buf.len();
    let mut left: usize = count;
    let mut start: usize = 0;
    while left > 0
        invariant
            size == buf@.len(),
            start <= size,
            found.largest_files@.len() <= top_file_limit,
            goal == with_entries(
                buf@,
                left as nat,
                start as int,
                dir@,
                top_file_limit as nat,
                *policy,
                (found@, seen@),
            ),
        ensures
            found.largest_files@.len() <= top_file_limit,
            goal == (found@, seen@),
        decreases left,
    {
        match read_entry(buf, start) {
            Some(entry) => {
                let length: usize = entry.length;
                count_entry(dir, top_file_limit, policy, entry, found, seen);
                start = start + length;
            },
            None => {
                break ;
            },
        }
        left = left - 1;
    }
}

// ---------------------------------------------------------------------------
// Putting directories together
// ---------------------------------------------------------------------------

/// What a chain of directories knows after one more: its subdirectories are not
/// taken over, they are scanned on their own.
pub open spec fn absorbed(
    chain: DirectoryModel,
    limit: nat,
    part: DirectoryModel,
) -> DirectoryModel {
    DirectoryModel {
        size: size_sum(chain.size, part.size),
        largest_files: with_candidates(chain.largest_files, limit, part.largest_files),
        inaccessible: capped_count(chain.inaccessible + part.inaccessible),
        skipped_mounts: capped_count(chain.skipped_mounts + part.skipped_mounts),
        ..chain
    }
}

/// The next step of a walk down a chain of directories.
#[derive(Debug)]
pub enum WalkStep {
    /// Scan the other subdirectories elsewhere and go down into this one.
    Descend { next: Subdir, others: Vec<Subdir> },
    /// The chain has ended.
    Finish,
}

impl DirectoryScan {
    /// Adds what one more directory of the chain held. The last subdirectory
    /// continues the chain; the ones before it are handed out.
    pub fn absorb(&mut self, limit: usize, part: DirectoryScan) -> (step: WalkStep)
        requires
            old(self).largest_files@.len() <= limit,
        ensures
            final(self)@ == absorbed(old(self)@, limit as nat, part@),
            final(self).largest_files@.len() <= limit,
            match step {
                WalkStep::Finish => part@.subdirs.len() == 0,
                WalkStep::Descend { next, others } => sorting::views(others@).push(next@)
                    == part@.subdirs,
            },
    {
        self.size.add_file(part.size);
        self.inaccessible = self.inaccessible.saturating_add(part.inaccessible);
        self.skipped_mounts = self.skipped_mounts.saturating_add(part.skipped_mounts);
        push_file_candidates(&mut self.largest_files, limit, &part.largest_files);
        let mut others = part.subdirs;
        let ghost all = others@;
        match others.pop() {
            Some(next) => {
                proof {
                    sorting::views_push(others@, next);
                    assert(others@.push(next) =~= all);
                }
                WalkStep::Descend { next, others }
            },
            None => WalkStep::Finish,
        }
    }

    /// Notes that a directory of the chain could not be opened.
    pub fn open_failed(&mut self, unreadable: u32)
        ensures
            final(self)@ == (DirectoryModel {
                inaccessible: capped_count(old(self).inaccessible + unreadable),
                ..old(self)@
            }),
            final(self).largest_files == old(self).largest_files,
    {
        self.inaccessible = self.inaccessible.saturating_add(unreadable);
    }
}

/// The totals of a walk, to which finished chains are added.
pub struct WalkState {
    top_file_limit: usize,
    logical: u64,
    allocated: u64,
    inaccessible: u32,
    skipped_mounts: u32,
    largest_files: Vec<FileCandidate>,
}

#[verifier::ext_equal]
pub struct WalkModel {
    pub top_file_limit: nat,
    pub size: SizeInfo,
    pub inaccessible: u32,
    pub skipped_mounts: u32,
    pub largest_files: Seq<CandidateModel>,
}

/// Numbers of bytes wrap around at 2^64, counts at 2^32.
pub open spec fn wrapped64(n: int) -> u64 {
    (n % 0x1_0000_0000_0000_0000) as u64
}

pub open spec fn wrapped32(n: int) -> u32 {
    (n % 0x1_0000_0000) as u32
}

/// The totals after one more chain.
pub open spec fn merged_chain(state: WalkModel, chain: DirectoryModel) -> WalkModel {
    WalkModel {
        size: SizeInfo {
            logical: wrapped64(state.size.logical + chain.size.logical),
            allocated: wrapped64(state.size.allocated + chain.size.allocated),
        },
        inaccessible: wrapped32(state.inaccessible + chain.inaccessible),
        skipped_mounts: wrapped32(state.skipped_mounts + chain.skipped_mounts),
        largest_files: with_candidates(
            state.largest_files,
            state.top_file_limit,
            chain.largest_files,
        ),
        ..state
    }
}

impl View for WalkState {
    type V = WalkModel;

    closed spec fn view(&self) -> WalkModel {
        WalkModel {
            top_file_limit: self.top_file_limit as nat,
            size: SizeInfo { logical: self.logical, allocated: self.allocated },
            inaccessible: self.inaccessible,
            skipped_mounts: self.skipped_mounts,
            largest_files: sorting::views(self.largest_files@),
        }
    }
}

impl WalkState {
    #[verifier::type_invariant]
    spec fn is_bounded(&self) -> bool {
        self.largest_files@.len() <= self.top_file_limit
    }

    pub fn new(top_file_limit: usize) -> (state: WalkState)
        ensures
            state@ == (WalkModel {
                top_file_limit: top_file_limit as nat,
                size: SizeInfo { logical: 0, allocated: 0 },
                inaccessible: 0,
                skipped_mounts: 0,
                largest_files: Seq::empty(),
            }),
    {
        let state = WalkState {
            top_file_limit,
            logical: 0,
            allocated: 0,
            inaccessible: 0,
            skipped_mounts: 0,
            largest_files: Vec::new(),
        };
        assert(state@.largest_files =~= Seq::<CandidateModel>::empty());
        state
    }

    /// Adds a finished chain.
    pub fn merge(&mut self, chain: &DirectoryScan)
        ensures
            final(self)@ == merged_chain(old(self)@, chain@),
    {
        proof {
            use_type_invariant(&*self);
        }
        let mut kept: Vec<FileCandidate> = Vec::new();
        std::mem::swap(&mut kept, &mut self.largest_files);
        push_file_candidates(&mut kept, self.top_file_limit, &chain.largest_files);
        self.logical = self.logical.wrapping_add(chain.size.logical);
        self.allocated = self.allocated.wrapping_add(chain.size.allocated);
        self.inaccessible = self.inaccessible.wrapping_add(chain.inaccessible);
        self.skipped_mounts = self.skipped_mounts.wrapping_add(chain.skipped_mounts);
        self.largest_files = kept;
    }

    /// The report of the walk.
    pub fn finish(&self) -> (scan: DirScan)
        ensures
            scan@ == (DirScanModel {
                size: self@.size,
                largest_files: report_of(self@.largest_files),
                inaccessible: self@.inaccessible,
                skipped_mounts: self@.skipped_mounts,
            }),
    {
        DirScan {
            size: SizeInfo::new(self.logical, self.allocated),
            largest_files: sorted_largest_files(&self.largest_files),
            inaccessible: self.inaccessible,
            skipped_mounts: self.skipped_mounts,
        }
    }
}

// ---------------------------------------------------------------------------
// Laws
// ---------------------------------------------------------------------------

/// A number in `width` bytes, the lowest first.
pub open spec fn le_bytes(n: nat, width: nat) -> Seq<u8>
    decreases width,
{
    if width == 0 {
        Seq::empty()
    } else {
        seq![(n % 256) as u8] + le_bytes(n / 256, (width - 1) as nat)
    }
}

/// A number that may be missing, in `width` bytes.
pub open spec fn packed_number(n: Option<nat>, width: nat) -> Seq<u8> {
    match n {
        Some(v) => le_bytes(v, width),
        None => Seq::empty(),
    }
}

pub open spec fn narrow(n: Option<u32>) -> Option<nat> {
    match n {
        Some(v) => Some(v as nat),
        None => None,
    }
}

pub open spec fn wide(n: Option<u64>) -> Option<nat> {
    match n {
        Some(v) => Some(v as nat),
        None => None,
    }
}

/// The attributes of an entry as the file system packs them. Each may be
/// missing; the bitmaps say which are there.
pub struct PackedEntry {
    pub common: u32,
    pub volume: u32,
    pub directory: u32,
    pub file: u32,
    pub fork: u32,
    pub error: Option<u32>,
    pub name: Option<Seq<u8>>,
    pub devid: Option<u32>,
    pub objtype: Option<u32>,
    pub fileid: Option<u64>,
    pub linkcount: Option<u32>,
    pub totalsize: Option<u64>,
    pub allocsize: Option<u64>,
    /// What fills the entry up.
    pub padding: Seq<u8>,
}

impl PackedEntry {
    /// The bitmaps announce what is there.
    pub open spec fn is_announced(self) -> bool {
        &&& (self.common & 0x2000_0000u32 != 0) == (self.error is Some)
        &&& (self.common & 0x0000_0001u32 != 0) == (self.name is Some)
        &&& (self.common & 0x0000_0002u32 != 0) == (self.devid is Some)
        &&& (self.common & 0x0000_0008u32 != 0) == (self.objtype is Some)
        &&& (self.common & 0x0200_0000u32 != 0) == (self.fileid is Some)
        &&& (self.file & 0x0000_0001u32 != 0) == (self.linkcount is Some)
        &&& (self.file & 0x0000_0002u32 != 0) == (self.totalsize is Some)
        &&& (self.file & 0x0000_0004u32 != 0) == (self.allocsize is Some)
        &&& self.name is Some ==> self.name->0.len() > 0
    }

    /// The fields between the reference to the name and the name.
    pub open spec fn fields(self) -> Seq<u8> {
        packed_number(narrow(self.devid), 4) + packed_number(narrow(self.objtype), 4)
            + packed_number(wide(self.fileid), 8) + packed_number(narrow(self.linkcount), 4)
            + packed_number(wide(self.totalsize), 8) + packed_number(wide(self.allocsize), 8)
    }

    /// The reference to the name: how far away it lies, and how long it is with
    /// the NUL that ends it.
    pub open spec fn reference(self) -> Seq<u8> {
        match self.name {
            Some(name) => le_bytes(8 + self.fields().len(), 4) + le_bytes(name.len() + 1, 4),
            None => Seq::empty(),
        }
    }

    /// What comes behind the length: the bitmaps, the fields in the order of
    /// their bits, the name, and what fills up.
    pub open spec fn body(self) -> Seq<u8> {
        le_bytes(self.common as nat, 4) + le_bytes(self.volume as nat, 4) + le_bytes(
            self.directory as nat,
            4,
        ) + le_bytes(self.file as nat, 4) + le_bytes(self.fork as nat, 4) + packed_number(
            narrow(self.error),
            4,
        ) + self.reference() + self.fields() + match self.name {
            Some(name) => name.push(0u8),
            None => Seq::empty(),
        } + self.padding
    }

    /// The entry in bytes.
    pub open spec fn bytes(self) -> Seq<u8> {
        le_bytes(4 + self.body().len(), 4) + self.body()
    }

    /// What the entry says.
    pub open spec fn meaning(self) -> EntryModel {
        EntryModel {
            length: self.bytes().len(),
            error: match self.error {
                Some(n) => n as nat,
                None => 0,
            },
            name: self.name,
            devid: match self.devid {
                Some(n) => Some(n as u64),
                None => None,
            },
            objtype: match self.objtype {
                Some(n) => n as nat,
                None => 0,
            },
            fileid: self.fileid,
            linkcount: match self.linkcount {
                Some(n) => n,
                None => 1,
            },
            totalsize: match self.totalsize {
                Some(n) => n,
                None => 0,
            },
            allocsize: match self.allocsize {
                Some(n) => n,
                None => 0,
            },
        }
    }
}

proof fn le_bytes_len(n: nat, width: nat)
    ensures
        le_bytes(n, width).len() == width,
    decreases width,
{
    if width > 0 {
        le_bytes_len(n / 256, (width - 1) as nat);
    }
}

spec fn power_of_256(width: nat) -> nat
    decreases width,
{
    if width == 0 {
        1
    } else {
        256 * power_of_256((width - 1) as nat)
    }
}

proof fn le_number_of_bytes(front: Seq<u8>, n: nat, width: nat, back: Seq<u8>)
    requires
        n < power_of_256(width),
    ensures
        le_number(front + le_bytes(n, width) + back, front.len() as int, width) == n,
    decreases width,
{
    if width > 0 {
        let less = (width - 1) as nat;
        let low = seq![(n % 256) as u8];
        let all = front + le_bytes(n, width) + back;
        le_number_of_bytes(front + low, n / 256, less, back);
        assert((front + low) + le_bytes(n / 256, less) + back =~= all);
        assert(all[front.len() as int] == (n % 256) as u8);
        assert((front + low).len() == front.len() + 1);
    }
}

/// A packed number stands where it was put.
proof fn packed_is_read(buf: Seq<u8>, front: Seq<u8>, n: nat, width: nat, back: Seq<u8>)
    requires
        buf == front + le_bytes(n, width) + back,
        (width == 4 && n <= u32::MAX) || (width == 8 && n <= u64::MAX),
    ensures
        le_number(buf, front.len() as int, width) == n,
{
    assert(power_of_256(4) == 0x1_0000_0000) by {
        reveal_with_fuel(power_of_256, 5);
    }
    assert(power_of_256(8) == 0x1_0000_0000_0000_0000) by {
        reveal_with_fuel(power_of_256, 9);
    }
    le_number_of_bytes(front, n, width, back);
}

proof fn packed_len(n: Option<nat>, width: nat)
    ensures
        packed_number(n, width).len() == if n is Some {
            width
        } else {
            0
        },
{
    if n is Some {
        le_bytes_len(n->0, width);
    }
}

proof fn regrouped(a: Seq<u8>, b: Seq<u8>, c: Seq<u8>)
    ensures
        (a + b) + c == a + (b + c),
{
    assert((a + b) + c =~= a + (b + c));
}

/// Goes past a number that may be missing.
proof fn past_number(
    buf: Seq<u8>,
    front: Seq<u8>,
    n: Option<nat>,
    width: nat,
    back: Seq<u8>,
) -> (next: Seq<u8>)
    requires
        buf == front + (packed_number(n, width) + back),
        (width == 4 && (n is Some ==> n->0 <= u32::MAX)) || (width == 8 && (n is Some ==> n->0
            <= u64::MAX)),
    ensures
        buf == next + back,
        next.len() == front.len() + if n is Some {
            width
        } else {
            0
        },
        next.len() <= buf.len(),
        n is Some ==> le_number(buf, front.len() as int, width) == n->0,
{
    let piece = packed_number(n, width);
    regrouped(front, piece, back);
    packed_len(n, width);
    if n is Some {
        packed_is_read(buf, front, n->0, width, back);
    }
    front + piece
}

/// Where the fields of an entry stand.
proof fn fields_are_read(buf: Seq<u8>, front: Seq<u8>, e: PackedEntry, back: Seq<u8>) -> (next:
    Seq<u8>)
    requires
        buf == front + (e.fields() + back),
    ensures
        buf == next + back,
        ({
            let dev_at = front.len() as int;
            let type_at = dev_at + width_if(e.devid is Some, 4);
            let id_at = type_at + width_if(e.objtype is Some, 4);
            let links_at = id_at + width_if(e.fileid is Some, 8);
            let total_at = links_at + width_if(e.linkcount is Some, 4);
            let alloc_at = total_at + width_if(e.totalsize is Some, 8);
            &&& next.len() == alloc_at + width_if(e.allocsize is Some, 8)
            &&& e.devid is Some ==> le_number(buf, dev_at, 4) == e.devid->0
            &&& e.objtype is Some ==> le_number(buf, type_at, 4) == e.objtype->0
            &&& e.fileid is Some ==> le_number(buf, id_at, 8) == e.fileid->0
            &&& e.linkcount is Some ==> le_number(buf, links_at, 4) == e.linkcount->0
            &&& e.totalsize is Some ==> le_number(buf, total_at, 8) == e.totalsize->0
            &&& e.allocsize is Some ==> le_number(buf, alloc_at, 8) == e.allocsize->0
        }),
        next.len() <= buf.len(),
        e.fields().len() == next.len() - front.len(),
{
    let a = packed_number(narrow(e.devid), 4);
    let b = packed_number(narrow(e.objtype), 4);
    let c = packed_number(wide(e.fileid), 8);
    let d = packed_number(narrow(e.linkcount), 4);
    let f = packed_number(wide(e.totalsize), 8);
    let g = packed_number(wide(e.allocsize), 8);
    regrouped(a + b + c + d + f, g, back);
    regrouped(a + b + c + d, f, g + back);
    regrouped(a + b + c, d, f + (g + back));
    regrouped(a + b, c, d + (f + (g + back)));
    regrouped(a, b, c + (d + (f + (g + back))));
    let f1 = past_number(buf, front, narrow(e.devid), 4, b + (c + (d + (f + (g + back)))));
    let f2 = past_number(buf, f1, narrow(e.objtype), 4, c + (d + (f + (g + back))));
    let f3 = past_number(buf, f2, wide(e.fileid), 8, d + (f + (g + back)));
    let f4 = past_number(buf, f3, narrow(e.linkcount), 4, f + (g + back));
    let f5 = past_number(buf, f4, wide(e.totalsize), 8, g + back);
    let f6 = past_number(buf, f5, wide(e.allocsize), 8, back);
    assert(e.fields().len() + back.len() + front.len() == buf.len());
    f6
}

/// Where the length and the bitmaps of an entry stand.
proof fn header_is_read(
    buf: Seq<u8>,
    before: Seq<u8>,
    length: nat,
    e: PackedEntry,
    back: Seq<u8>,
) -> (next: Seq<u8>)
    requires
        length <= u32::MAX,
        buf == before + (le_bytes(length, 4) + (le_bytes(e.common as nat, 4) + (le_bytes(
            e.volume as nat,
            4,
        ) + (le_bytes(e.directory as nat, 4) + (le_bytes(e.file as nat, 4) + (le_bytes(
            e.fork as nat,
            4,
        ) + back)))))),
    ensures
        buf == next + back,
        next.len() == before.len() + 24,
        next.len() <= buf.len(),
        le_number(buf, before.len() as int, 4) == length,
        le_number(buf, before.len() as int + 4, 4) == e.common,
        le_number(buf, before.len() as int + 16, 4) == e.file,
{
    let c = le_bytes(e.volume as nat, 4);
    let d = le_bytes(e.directory as nat, 4);
    let f = le_bytes(e.file as nat, 4);
    let g = le_bytes(e.fork as nat, 4);
    let b = le_bytes(e.common as nat, 4);
    let f1 = past_number(buf, before, Some(length), 4, b + (c + (d + (f + (g + back)))));
    let f2 = past_number(buf, f1, Some(e.common as nat), 4, c + (d + (f + (g + back))));
    let f3 = past_number(buf, f2, Some(e.volume as nat), 4, d + (f + (g + back)));
    let f4 = past_number(buf, f3, Some(e.directory as nat), 4, f + (g + back));
    let f5 = past_number(buf, f4, Some(e.file as nat), 4, g + back);
    past_number(buf, f5, Some(e.fork as nat), 4, back)
}

/// The name of an entry, with the NUL that ends it.
spec fn named(e: PackedEntry) -> Seq<u8> {
    match e.name {
        Some(name) => name.push(0u8),
        None => Seq::empty(),
    }
}

proof fn body_in_parts(e: PackedEntry, after: Seq<u8>)
    ensures
        e.body() + after == le_bytes(e.common as nat, 4) + (le_bytes(e.volume as nat, 4) + (
        le_bytes(e.directory as nat, 4) + (le_bytes(e.file as nat, 4) + (le_bytes(
            e.fork as nat,
            4,
        ) + (packed_number(narrow(e.error), 4) + (e.reference() + (e.fields() + (named(e) + (
        e.padding + after))))))))),
{
    let a = le_bytes(e.common as nat, 4);
    let b = le_bytes(e.volume as nat, 4);
    let c = le_bytes(e.directory as nat, 4);
    let d = le_bytes(e.file as nat, 4);
    let f = le_bytes(e.fork as nat, 4);
    let g = packed_number(narrow(e.error), 4);
    let h = e.reference();
    let i = e.fields();
    let j = named(e);
    let k = e.padding;
    regrouped(a + b + c + d + f + g + h + i + j, k, after);
    regrouped(a + b + c + d + f + g + h + i, j, k + after);
    regrouped(a + b + c + d + f + g + h, i, j + (k + after));
    regrouped(a + b + c + d + f + g, h, i + (j + (k + after)));
    regrouped(a + b + c + d + f, g, h + (i + (j + (k + after))));
    regrouped(a + b + c + d, f, g + (h + (i + (j + (k + after)))));
    regrouped(a + b + c, d, f + (g + (h + (i + (j + (k + after))))));
    regrouped(a + b, c, d + (f + (g + (h + (i + (j + (k + after)))))));
    regrouped(a, b, c + (d + (f + (g + (h + (i + (j + (k + after))))))));
}

/// Where the name of an entry stands, and what refers to it.
proof fn name_is_read(
    buf: Seq<u8>,
    front: Seq<u8>,
    e: PackedEntry,
    back: Seq<u8>,
    end: int,
) -> (next: Seq<u8>)
    requires
        e.is_announced(),
        e.name is Some ==> e.name->0.len() < u32::MAX,
        buf == front + (e.reference() + (e.fields() + (named(e) + back))),
        buf.len() - back.len() <= end <= buf.len(),
    ensures
        buf == next + (e.fields() + (named(e) + back)),
        next.len() == front.len() + width_if(e.name is Some, 8),
        next.len() + e.fields().len() + named(e).len() + back.len() == buf.len(),
        e.name is Some ==> {
            &&& as_signed(le_number(buf, front.len() as int, 4)) == 8 + e.fields().len()
            &&& le_number(buf, front.len() as int + 4, 4) == e.name->0.len() + 1
            &&& referenced(
                buf,
                end,
                front.len() as int,
                8 + e.fields().len() as int,
                e.name->0.len() as int + 1,
            ) == e.name
        },
{
    let rest = e.fields() + (named(e) + back);
    packed_len(narrow(e.devid), 4);
    packed_len(narrow(e.objtype), 4);
    packed_len(wide(e.fileid), 8);
    packed_len(narrow(e.linkcount), 4);
    packed_len(wide(e.totalsize), 8);
    packed_len(wide(e.allocsize), 8);
    if e.name is Some {
        let name = e.name->0;
        let away = le_bytes(8 + e.fields().len(), 4);
        let long = le_bytes(name.len() + 1, 4);
        regrouped(away, long, rest);
        let f1 = past_number(buf, front, Some(8 + e.fields().len()), 4, long + rest);
        let f2 = past_number(buf, f1, Some(name.len() + 1), 4, rest);
        let from = (f2.len() + e.fields().len()) as int;
        regrouped(f2, e.fields(), named(e) + back);
        let start = f2 + e.fields();
        assert(buf.subrange(from, from + name.len() + 1) =~= name.push(0u8)) by {
            assert(buf == start + (named(e) + back));
        }
        assert(name.push(0u8).drop_last() =~= name);
        f2
    } else {
        assert(e.reference() + rest =~= rest);
        front
    }
}

/// The numbers of an entry stand in a buffer where they are looked for.
spec fn stands_in(buf: Seq<u8>, start: int, e: PackedEntry) -> bool {
    let length = 4 + e.body().len();
    let end = start + length;
    let error_at = start + 24;
    let name_at = error_at + width_if(e.error is Some, 4);
    let dev_at = name_at + width_if(e.name is Some, 8);
    let type_at = dev_at + width_if(e.devid is Some, 4);
    let id_at = type_at + width_if(e.objtype is Some, 4);
    let links_at = id_at + width_if(e.fileid is Some, 8);
    let total_at = links_at + width_if(e.linkcount is Some, 4);
    let alloc_at = total_at + width_if(e.totalsize is Some, 8);
    &&& 0 <= start
    &&& end <= buf.len()
    &&& alloc_at + width_if(e.allocsize is Some, 8) <= end
    &&& le_number(buf, start, 4) == length
    &&& le_number(buf, start + 4, 4) == e.common
    &&& le_number(buf, start + 16, 4) == e.file
    &&& e.error is Some ==> le_number(buf, error_at, 4) == e.error->0
    &&& e.name is Some ==> referenced(
        buf,
        end,
        name_at,
        as_signed(le_number(buf, name_at, 4)),
        le_number(buf, name_at + 4, 4) as int,
    ) == e.name
    &&& e.devid is Some ==> le_number(buf, dev_at, 4) == e.devid->0
    &&& e.objtype is Some ==> le_number(buf, type_at, 4) == e.objtype->0
    &&& e.fileid is Some ==> le_number(buf, id_at, 8) == e.fileid->0
    &&& e.linkcount is Some ==> le_number(buf, links_at, 4) == e.linkcount->0
    &&& e.totalsize is Some ==> le_number(buf, total_at, 8) == e.totalsize->0
    &&& e.allocsize is Some ==> le_number(buf, alloc_at, 8) == e.allocsize->0
}

proof fn what_stands_is_decoded(buf: Seq<u8>, start: int, e: PackedEntry)
    requires
        e.is_announced(),
        stands_in(buf, start, e),
    ensures
        entry_at(buf, start) is Some,
        entry_at(buf, start)->0 == (EntryModel {
            length: 4 + e.body().len(),
            ..e.meaning()
        }),
{
    let got = entry_at(buf, start);
    assert(got is Some);
    assert(got->0.name == e.name);
    assert(got->0.devid == e.meaning().devid);
    assert(got->0.fileid == e.meaning().fileid);
}

proof fn parts_stand_in(buf: Seq<u8>, before: Seq<u8>, e: PackedEntry, after: Seq<u8>)
    requires
        e.is_announced(),
        4 + e.body().len() <= u32::MAX,
        buf == before + (le_bytes(4 + e.body().len(), 4) + (e.body() + after)),
    ensures
        stands_in(buf, before.len() as int, e),
{
    let length = 4 + e.body().len();
    le_bytes_len(length, 4);
    body_in_parts(e, after);
    let back = e.padding + after;
    let f = e.fields() + (named(e) + back);
    let h = packed_number(narrow(e.error), 4) + (e.reference() + f);
    let end = before.len() + length;
    assert(buf.len() == end + after.len());
    let f1 = header_is_read(buf, before, length, e, h);
    let f2 = past_number(buf, f1, narrow(e.error), 4, e.reference() + f);
    assert(e.name is Some ==> e.name->0.len() < u32::MAX);
    let f3 = name_is_read(buf, f2, e, back, end as int);
    let f4 = fields_are_read(buf, f3, e, named(e) + back);
}

/// What the file system packs is what is decoded: wherever an entry stands in a
/// buffer, and whichever attributes it has, each is read back as it was, for
/// every value of it.
pub proof fn packed_entries_are_decoded(before: Seq<u8>, e: PackedEntry, after: Seq<u8>)
    requires
        e.is_announced(),
        e.bytes().len() <= u32::MAX,
    ensures
        entry_at(before + e.bytes() + after, before.len() as int) == Some(e.meaning()),
{
    let buf = before + e.bytes() + after;
    let length = 4 + e.body().len();
    le_bytes_len(length, 4);
    regrouped(before, e.bytes(), after);
    regrouped(le_bytes(length, 4), e.body(), after);
    parts_stand_in(buf, before, e, after);
    what_stands_is_decoded(buf, before.len() as int, e);
}

/// A sum that 64 bits hold is that sum, and a larger one is what they hold at
/// most.
pub proof fn sums_are_kept_as_far_as_they_fit(n: int)
    ensures
        0 <= n <= 0xffff_ffff_ffff_ffff ==> capped(n) == n,
        n > 0xffff_ffff_ffff_ffff ==> capped(n) == 0xffff_ffff_ffff_ffff,
{
}

} // verus!
