//! Scanning directories, remembering sizes and comparing them.

use diskr::bulkstat::{
    inaccessible_for, inaccessible_from_errno, is_superseded, read_attr_reference, read_entry,
    read_i32, read_u32, read_u64, scan_outcome, should_skip_subdir, DirScan, ScanCancellation,
    ScanPolicy, SizeInfo,
};
use diskr::fsevents::{load_state, plan_freshness, save_state, Freshness, Replay, SavedState};
use diskr::history::{
    diff, diff_records, load_record_for_path, record_from_json, record_to_json, save, scan_record,
    ChildSize, EntryKind, HistoryError, ScanRecord, SizedEntry,
};
use diskr::scanner::{all_done, dir_size, dir_started, ScanMsg, Scanner};
use diskr::state::{load_size_cache, store_size_cache, CacheError, CachedSize};
use diskr::walk::{scan_dir, Chain, Walk, WalkTask};
use std::sync::atomic::AtomicU64;
use std::sync::Arc;

const VREG: u32 = 1;
const VDIR: u32 = 2;
const VLNK: u32 = 5;
const DATA_VOLUME_ROOT: &str = "/System/Volumes/Data";

/// An entry as `getattrlistbulk` packs it: the attributes that were asked for,
/// in the order of their bits, with the name at the end.
fn entry(name: &str, objtype: u32, fileid: u64, links: u32, logical: u64, allocated: u64) -> Vec<u8> {
    let file = objtype == VREG;
    let common: u32 = 0x0000_0001 | 0x0000_0002 | 0x0000_0008 | 0x0200_0000;
    let fileattr: u32 = if file { 0x0000_0001 | 0x0000_0002 | 0x0000_0004 } else { 0 };
    let mut body: Vec<u8> = Vec::new();
    body.extend((common | 0x8000_0000).to_le_bytes());
    body.extend(0u32.to_le_bytes());
    body.extend(0u32.to_le_bytes());
    body.extend(fileattr.to_le_bytes());
    body.extend(0u32.to_le_bytes());
    let name_ref_at = body.len();
    body.extend([0u8; 8]);
    body.extend(7i32.to_le_bytes());
    body.extend(objtype.to_le_bytes());
    body.extend(fileid.to_le_bytes());
    if file {
        body.extend(links.to_le_bytes());
        body.extend(logical.to_le_bytes());
        body.extend(allocated.to_le_bytes());
    }
    let data_at = body.len();
    body.extend(name.as_bytes());
    body.push(0);
    let offset = (data_at - name_ref_at) as i32;
    body[name_ref_at..name_ref_at + 4].copy_from_slice(&offset.to_le_bytes());
    body[name_ref_at + 4..name_ref_at + 8].copy_from_slice(&((name.len() + 1) as u32).to_le_bytes());
    while (body.len() + 4) % 8 != 0 {
        body.push(0);
    }
    let mut all: Vec<u8> = ((body.len() + 4) as u32).to_le_bytes().to_vec();
    all.extend(body);
    all
}

fn file(name: &str, bytes: u64) -> Vec<u8> {
    entry(name, VREG, 1, 1, bytes, bytes.div_ceil(4096) * 4096)
}

fn dir(name: &str) -> Vec<u8> {
    entry(name, VDIR, 2, 1, 0, 0)
}

fn policy() -> ScanPolicy {
    ScanPolicy { root_dev: 7, data_dev: None, skip_data_volume: false }
}

/// Follows a chain: `tree` holds the entries of each directory, or none for one
/// that cannot be opened.
fn follow(walk: &mut Walk, mut chain: Chain, tree: &[(&str, Option<Vec<Vec<u8>>>)]) {
    loop {
        let path = chain.dir().to_string();
        match tree.iter().find(|d| d.0 == path) {
            Some((_, Some(entries))) => {
                for one in entries {
                    walk.read(&mut chain, one, 1);
                }
                if walk.close(&mut chain).is_none() {
                    break;
                }
            }
            Some((_, None)) => {
                walk.open_failed(&mut chain, 1);
                break;
            }
            None => {
                walk.open_failed(&mut chain, 0);
                break;
            }
        }
    }
    walk.finish_chain(chain);
}

fn scan_tree(root: &str, limit: usize, tree: &[(&str, Option<Vec<Vec<u8>>>)]) -> DirScan {
    let mut walk = scan_dir(root, limit, true, policy());
    loop {
        match walk.next() {
            WalkTask::Follow(chain) => follow(&mut walk, chain, tree),
            WalkTask::Wait => panic!("nobody else is walking"),
            WalkTask::Stop => break,
        }
    }
    walk.finish()
}

#[test]
fn matches_stat_sum_on_known_tree() {
    let got = scan_tree(
        "/t",
        0,
        &[
            ("/t", Some(vec![dir("a"), file("root.txt", 12), entry("broken-link", VLNK, 9, 1, 0, 0)])),
            ("/t/a", Some(vec![file("big.bin", 1_024_000), dir("b")])),
            ("/t/a/b", Some(vec![dir("c")])),
            ("/t/a/b/c", Some(vec![file("deep.txt", 7)])),
        ],
    );
    assert_eq!(got.size.logical, 12 + 1_024_000 + 7, "bulkstat size mismatch");
}

#[test]
fn scan_reports_allocated_size_and_largest_files() {
    let scan = scan_tree(
        "/t",
        2,
        &[
            ("/t", Some(vec![file("small.txt", 5), dir("a")])),
            ("/t/a", Some(vec![dir("b"), file("large.bin", 4096 * 8)])),
            ("/t/a/b", Some(vec![file("medium.bin", 4096)])),
        ],
    );
    assert_eq!(scan.size.logical, 5 + 4096 * 8 + 4096);
    assert!(scan.size.allocated > 0);
    assert_eq!(scan.largest_files.len(), 2);
    assert_eq!(scan.largest_files[0].path, "/t/a/large.bin");
    assert_eq!(scan.largest_files[0].size.logical, 4096 * 8);
    assert_eq!(scan.largest_files[1].path, "/t/a/b/medium.bin");
}

#[test]
fn unreadable_subdir_is_counted_and_rest_still_sums() {
    let scan = scan_tree(
        "/t",
        0,
        &[
            ("/t", Some(vec![file("readable.txt", 10), dir("locked")])),
            ("/t/locked", None),
        ],
    );
    assert_eq!(scan.inaccessible, 1, "locked dir should be counted");
    assert_eq!(scan.size.logical, 10, "readable part should still sum");
}

#[test]
fn hard_linked_file_counts_once() {
    let scan = scan_tree(
        "/t",
        10,
        &[(
            "/t",
            Some(vec![
                entry("original.bin", VREG, 42, 2, 4096, 4096),
                entry("linked.bin", VREG, 42, 2, 4096, 4096),
            ]),
        )],
    );
    assert_eq!(scan.size.logical, 4096, "hard link should not double count");
    assert_eq!(scan.largest_files.len(), 1);
}

#[test]
fn missing_directory_counts_as_zero() {
    let mut walk = scan_dir("/missing", 0, false, policy());
    assert!(matches!(walk.next(), WalkTask::Stop));
    assert_eq!(walk.finish().size.logical, 0);
}

#[test]
fn root_symlink_to_directory_counts_as_zero() {
    // The link itself is no directory.
    let walk = scan_dir("/link", 0, false, policy());
    assert_eq!(walk.finish().size.logical, 0);
}

#[test]
fn siblings_wait_while_a_chain_goes_down() {
    let mut walk = scan_dir("/t", 0, true, policy());
    let mut chain = match walk.next() {
        WalkTask::Follow(chain) => chain,
        _ => panic!("the root waits"),
    };
    assert!(matches!(walk.next(), WalkTask::Wait));
    for one in [dir("x"), dir("y"), dir("z"), dir("."), dir("..")] {
        walk.read(&mut chain, &one, 1);
    }
    assert_eq!(walk.close(&mut chain), Some(b"z".to_vec()));
    assert_eq!(chain.dir(), "/t/z");
    match walk.next() {
        WalkTask::Follow(other) => assert_eq!(other.dir(), "/t/y"),
        _ => panic!("a sibling waits"),
    }
}

/// Two chains that are followed side by side, the one that starts first given by
/// `root_first`.
fn walk_side_by_side(root_first: bool) -> DirScan {
    let link = |name: &str| entry(name, VREG, 42, 2, 5000, 8192);
    let mut walk = scan_dir("/t", 2, true, policy());
    let mut root = match walk.next() {
        WalkTask::Follow(chain) => chain,
        _ => panic!("the root waits"),
    };
    for one in [file("top", 10), dir("a"), dir("b")] {
        walk.read(&mut root, &one, 1);
    }
    assert_eq!(walk.close(&mut root), Some(b"b".to_vec()));
    let mut side = match walk.next() {
        WalkTask::Follow(chain) => chain,
        _ => panic!("the sibling waits"),
    };
    assert_eq!((root.dir(), side.dir()), ("/t/b", "/t/a"));
    if root_first {
        walk.read(&mut root, &link("linked"), 1);
        walk.read(&mut side, &link("linked"), 1);
    } else {
        walk.read(&mut side, &link("linked"), 1);
        walk.read(&mut root, &link("linked"), 1);
    }
    walk.read(&mut side, &file("small", 1), 1);
    walk.read(&mut root, &dir("locked"), 1);
    assert_eq!(walk.close(&mut side), None);
    assert_eq!(walk.close(&mut root), Some(b"locked".to_vec()));
    walk.open_failed(&mut root, 1);
    if root_first {
        assert!(!walk.finish_chain(root));
        assert!(walk.finish_chain(side));
    } else {
        assert!(!walk.finish_chain(side));
        assert!(walk.finish_chain(root));
    }
    walk.finish()
}

#[test]
fn chains_side_by_side_add_up() {
    for root_first in [true, false] {
        let scan = walk_side_by_side(root_first);
        assert_eq!(scan.size.logical, 10 + 5000 + 1);
        assert_eq!(scan.size.allocated, 4096 + 8192 + 4096);
        assert_eq!((scan.inaccessible, scan.skipped_mounts), (1, 0));
        let linked = if root_first { "/t/b/linked" } else { "/t/a/linked" };
        let largest: Vec<&str> = scan.largest_files.iter().map(|f| f.path.as_str()).collect();
        assert_eq!(largest, vec![linked, "/t/top"]);
    }
}

#[test]
fn several_entries_lie_in_one_buffer() {
    let mut buf = file("one", 100);
    buf.extend(file("two", 200));
    let second = read_entry(&buf, file("one", 100).len()).unwrap();
    assert_eq!(second.name, Some(b"two".to_vec()));
    assert_eq!((second.totalsize, second.allocsize), (200, 4096));
    let mut walk = scan_dir("/t", 1, true, policy());
    if let WalkTask::Follow(mut chain) = walk.next() {
        walk.read(&mut chain, &buf, 2);
        assert_eq!(walk.close(&mut chain), None);
        assert!(walk.finish_chain(chain));
    }
    let scan = walk.finish();
    assert_eq!(scan.size.logical, 300);
    assert_eq!(scan.largest_files[0].path, "/t/two");
}

#[test]
fn fields_are_read_within_their_entry() {
    let buf: Vec<u8> = vec![1, 0, 0, 0, 0xff, 0xff, 0xff, 0xff, b'a', b'b', 0];
    assert_eq!(read_u32(&buf, 11, 0), Some(1));
    assert_eq!(read_i32(&buf, 11, 4), Some(-1));
    assert_eq!(read_u64(&buf, 8, 0), Some(0xffff_ffff_0000_0001));
    assert_eq!(read_u64(&buf, 7, 0), None);
    assert_eq!(read_u32(&buf, 11, 8), None);
    assert_eq!(read_attr_reference(&buf, 11, 0, 8, 3), Some(b"ab".to_vec()));
    assert_eq!(read_attr_reference(&buf, 11, 0, 8, 0), None);
    assert_eq!(read_attr_reference(&buf, 10, 0, 8, 3), None);
}

#[test]
fn enametoolong_counts_as_inaccessible() {
    assert_eq!(inaccessible_from_errno(Some(libc::ENAMETOOLONG)), 1);
    assert_eq!(inaccessible_from_errno(Some(libc::EACCES)), 1);
    assert_eq!(inaccessible_from_errno(Some(libc::EPERM)), 1);
    assert_eq!(inaccessible_from_errno(Some(libc::ENOENT)), 0);
    assert_eq!(inaccessible_from_errno(None), 0);
    assert_eq!(inaccessible_for(Some(3), (1, 2, 3)), 1);
    assert_eq!(inaccessible_for(Some(4), (1, 2, 3)), 0);
}

#[test]
fn skip_policy_skips_data_volume_only_from_ancestor() {
    let root_policy = ScanPolicy::with_devices("/", 10, Some(11));
    assert!(should_skip_subdir(DATA_VOLUME_ROOT, Some(11), &root_policy));

    let data_policy = ScanPolicy::with_devices(DATA_VOLUME_ROOT, 11, Some(11));
    assert!(!should_skip_subdir(DATA_VOLUME_ROOT, Some(11), &data_policy));
}

#[test]
fn skip_policy_allows_root_and_data_devices_skips_other_volumes() {
    // Scanning `/`: root volume is dev 10, firmlinked Data volume is dev 11.
    let policy = ScanPolicy::with_devices("/", 10, Some(11));

    assert!(!should_skip_subdir("/Users/example", Some(11), &policy));
    assert!(!should_skip_subdir("/System/Library", Some(10), &policy));
    assert!(should_skip_subdir("/Volumes/External", Some(20), &policy));
    assert!(should_skip_subdir("/System/Volumes/VM", Some(21), &policy));
    assert!(should_skip_subdir("/System/Volumes/Preboot", Some(22), &policy));
    assert!(should_skip_subdir("/Users/example/nfs", Some(23), &policy));
    // Unknown device: kept rather than guessed away.
    assert!(!should_skip_subdir("/Users/example/unknown", None, &policy));
}

#[test]
fn cancelled_scan_returns_no_result() {
    let generation = Arc::new(AtomicU64::new(2));
    let cancellation = ScanCancellation::new(generation, 1);
    assert!(cancellation.is_cancelled());
    assert!(scan_outcome(cancellation.is_cancelled(), true, false, DirScan::default()).is_none());
    assert!(scan_outcome(false, true, true, DirScan::default()).is_none());
    assert!(scan_outcome(false, false, true, DirScan::default()).is_some());
    assert!(!ScanCancellation::never().is_cancelled());
    assert!(!ScanCancellation::never().clone().is_cancelled());
    let shared = Arc::new(AtomicU64::new(3));
    let watching = ScanCancellation::new(Arc::clone(&shared), 3);
    let copy = watching.clone();
    assert!(!watching.is_cancelled() && !copy.is_cancelled());
    shared.store(4, std::sync::atomic::Ordering::Relaxed);
    assert!(watching.is_cancelled() && copy.is_cancelled());
    assert!(is_superseded(2, 1));
    assert!(!is_superseded(1, 1));
}

#[test]
fn scan_all_streams_each_dir_and_completion() {
    let mut scanner = Scanner::new();
    let expected = scanner.scan_all();
    assert!(!is_superseded(scanner.generation(), expected));
    let first = DirScan { size: SizeInfo::new(1, 4096), ..DirScan::default() };

    assert!(matches!(
        dir_started(42, "/first", false),
        Some(ScanMsg::DirStarted { scan_id: 42, path }) if path == "/first"
    ));
    match dir_size(42, "/first", Some(&first), false) {
        Some(ScanMsg::DirSize { scan_id, path, size, inaccessible, skipped_mounts }) => {
            assert_eq!(scan_id, 42);
            assert_eq!(path, "/first");
            assert_eq!(inaccessible, 0);
            assert_eq!(skipped_mounts, 0);
            assert!(size.logical > 0);
        }
        _ => panic!("a size is sent"),
    }
    assert!(matches!(all_done(42, false), Some(ScanMsg::AllDone { scan_id: 42 })));

    scanner.cancel_current();
    assert!(is_superseded(scanner.generation(), expected));
    assert!(dir_started(42, "/second", true).is_none());
    assert!(dir_size(42, "/second", Some(&first), true).is_none());
    assert!(dir_size(42, "/second", None, false).is_none());
    assert!(all_done(42, true).is_none());
}

#[test]
fn freshness_all_marks_everything_stale() {
    let f = Freshness::All;
    assert!(f.is_stale("/anything"));
}

#[test]
fn touched_marks_only_affected_subtrees() {
    let f = Freshness::Touched {
        watched_root: "/root".to_string(),
        changed: vec!["/root/a/b".to_string()],
    };
    // The changed directory itself and its ancestors are stale.
    assert!(f.is_stale("/root/a/b"));
    assert!(f.is_stale("/root/a"));
    assert!(f.is_stale("/root"));
    // A sibling subtree with no change inside it stays fresh.
    assert!(!f.is_stale("/root/a/c"));
    assert!(!f.is_stale("/root/x"));
    // Anything outside the watched root is unknown, hence stale.
    assert!(f.is_stale("/elsewhere"));
}

#[test]
fn state_round_trips_through_sidecar() {
    let file = save_state("ABC-123", 987_654);
    let loaded = load_state(Some(&file)).expect("state present");
    assert_eq!(loaded.volume_uuid, "ABC-123");
    assert_eq!(loaded.last_event_id, 987_654);
    // A wrong version is ignored rather than trusted.
    assert!(load_state(Some(r#"{"version":99,"volume_uuid":"x","last_event_id":1}"#)).is_none());
    assert!(load_state(None).is_none());
}

#[test]
fn replays_are_trusted_only_when_complete() {
    let saved = Some(SavedState { volume_uuid: "V".to_string(), last_event_id: 5 });
    let mut replay = Replay::new();
    replay.note(0, "/root/a");
    replay.note(0x10, "");
    match plan_freshness("/root", "V", 9, &saved, Some(replay)) {
        Freshness::Touched { changed, .. } => assert_eq!(changed, vec!["/root/a"]),
        Freshness::All => panic!("the replay is complete"),
    }
    let mut doubtful = Replay::new();
    doubtful.note(0x01, "/root/a");
    doubtful.note(0x10, "");
    assert!(matches!(plan_freshness("/root", "V", 9, &saved, Some(doubtful)), Freshness::All));
    assert!(matches!(plan_freshness("/root", "W", 9, &saved, None), Freshness::All));
}

fn child(name: &str, bytes: u64) -> ChildSize {
    ChildSize { name: name.to_string(), is_dir: true, size: SizeInfo::new(bytes, bytes) }
}

fn record(children: Vec<ChildSize>) -> ScanRecord {
    ScanRecord { path: "/tmp/example".to_string(), timestamp: 1000, children, inaccessible: 0 }
}

#[test]
fn diff_detects_growth_addition_and_removal() {
    let before = record(vec![child("steady", 100), child("shrinks", 500), child("gone", 200)]);
    let mut after = record(vec![child("steady", 100), child("shrinks", 300), child("grows", 900)]);
    after.timestamp = 2000;

    let diff = diff_records(&before, &after);

    // "steady" is unchanged and should be absent.
    assert!(diff.changes.iter().all(|c| c.name != "steady"));
    // Largest mover first: "grows" (+900) over "shrinks" (-200) and "gone" (-200).
    assert_eq!(diff.changes[0].name, "grows");
    assert_eq!(diff.changes[0].before, None);
    assert_eq!(diff.changes[0].delta_allocated(), 900);

    let removed = diff.changes.iter().find(|c| c.name == "gone").expect("removed child present");
    assert_eq!(removed.after, None);
    assert_eq!(removed.delta_allocated(), -200);

    assert_eq!(diff.before_total.allocated, 800);
    assert_eq!(diff.after_total.allocated, 1300);
    assert_eq!(diff.total_delta_allocated(), 500);
    assert_eq!(diff.baseline_timestamp, 1000);
    assert_eq!(diff.current_timestamp, 2000);
}

fn same_record(a: &ScanRecord, b: &ScanRecord) -> bool {
    a.path == b.path
        && a.timestamp == b.timestamp
        && a.inaccessible == b.inaccessible
        && a.children.len() == b.children.len()
        && a.children
            .iter()
            .zip(b.children.iter())
            .all(|(x, y)| x.name == y.name && x.is_dir == y.is_dir && x.size == y.size)
}

#[test]
fn record_round_trips_through_json() {
    let original = ScanRecord {
        path: "/tmp/example".to_string(),
        timestamp: 4242,
        children: vec![
            ChildSize { name: "dir".to_string(), is_dir: true, size: SizeInfo::new(10, 20) },
            ChildSize { name: "file".to_string(), is_dir: false, size: SizeInfo::new(30, 40) },
        ],
        inaccessible: 3,
    };

    let json = record_to_json(&original);
    let restored = record_from_json(&original.path, &json);
    assert!(same_record(&restored, &original));
}

#[test]
fn total_sums_children() {
    let rec = record(vec![child("a", 100), child("b", 250)]);
    assert_eq!(rec.total().allocated, 350);
}

#[test]
fn saved_baselines_are_found_again() {
    let first = save(None, &record(vec![child("a", 1)])).unwrap();
    let mut other = record(vec![child("z", 9)]);
    other.path = "/tmp/other".to_string();
    let both = save(Some(&first), &other).unwrap();
    let loaded = load_record_for_path(Some(&both), "/tmp/example").unwrap().unwrap();
    assert!(same_record(&loaded, &record(vec![child("a", 1)])));
    assert!(load_record_for_path(Some(&both), "/tmp/none").unwrap().is_none());

    let now = record(vec![child("a", 5)]);
    assert_eq!(diff(Some(&both), &now).unwrap().total_delta_allocated(), 4);
    assert_eq!(diff(None, &now).err(), Some(HistoryError::NoBaseline));
    assert_eq!(save(Some("{"), &now).err(), Some(HistoryError::Malformed));
    assert_eq!(save(Some("[]"), &now).err(), Some(HistoryError::UnexpectedFormat));
}

#[test]
fn fractions_in_a_history_do_not_touch_its_baselines() {
    let stored = r#"{
        "/tmp/old": {"path": "/tmp/old", "timestamp": 7, "ratio": 0.1, "big": 1e300,
            "children": [{"name": "x", "is_dir": true, "logical": 3, "allocated": 4.5}]},
        "/tmp/plain": {"path": "/tmp/plain", "timestamp": 8, "children": []}
    }"#;
    let before = load_record_for_path(Some(stored), "/tmp/old").unwrap().unwrap();
    assert_eq!((before.timestamp, before.children.len()), (7, 1));
    assert_eq!(before.children[0].size.allocated, 0);

    let text = save(Some(stored), &record(vec![child("a", 1)])).unwrap();
    let after = load_record_for_path(Some(&text), "/tmp/old").unwrap().unwrap();
    assert!(same_record(&after, &before));
    let saved = load_record_for_path(Some(&text), "/tmp/example").unwrap().unwrap();
    assert!(same_record(&saved, &record(vec![child("a", 1)])));

    let value: serde_json::Value = serde_json::from_str(&text).unwrap();
    let given: serde_json::Value = serde_json::from_str(stored).unwrap();
    assert_eq!(value["/tmp/plain"], given["/tmp/plain"]);
    assert!(value["/tmp/old"]["ratio"].is_f64() && value["/tmp/old"]["big"].is_f64());
}

#[test]
fn baselines_count_what_a_directory_holds() {
    let sized = |name: &str, kind, bytes, inaccessible| SizedEntry {
        name: name.to_string(),
        kind,
        size: SizeInfo::new(bytes, bytes),
        inaccessible,
    };
    let got = scan_record(
        "/r",
        9,
        &vec![sized("b", EntryKind::Directory, 10, 2), sized("a", EntryKind::File, 5, 0)],
    );
    assert_eq!(got.children[0].name, "a");
    assert!(got.children[1].is_dir);
    assert_eq!(got.total().logical, 15);
    assert_eq!(got.inaccessible, 2);
}

#[test]
fn size_cache_round_trips_schema_v1() {
    let entries = vec![CachedSize {
        path: "/tmp/example".to_string(),
        size: SizeInfo::new(123, 456),
        inaccessible: 2,
        scanned_at: 42,
    }];

    let file = store_size_cache(&entries);
    let loaded = load_size_cache(Some(&file)).unwrap();

    assert_eq!(loaded.len(), 1);
    assert_eq!(loaded[0].path, entries[0].path);
    assert_eq!(loaded[0].size, entries[0].size);
    assert_eq!(loaded[0].inaccessible, 2);
    assert_eq!(loaded[0].scanned_at, 42);
}

#[test]
fn size_cache_skips_malformed_entries() {
    let loaded = load_size_cache(Some(
        r#"{"version":1,"entries":[{"path":"/tmp/a","logical":1,"allocated":2,"scanned_at":3},{"path":""}]}"#,
    ))
    .unwrap();

    assert_eq!(loaded.len(), 1);
    assert_eq!(loaded[0].path, "/tmp/a");
}

#[test]
fn size_cache_files_must_fit() {
    assert_eq!(load_size_cache(Some("nonsense")).err(), Some(CacheError::Malformed));
    assert_eq!(
        load_size_cache(Some(r#"{"version":2,"entries":[]}"#)).err(),
        Some(CacheError::UnexpectedVersion)
    );
    assert_eq!(
        load_size_cache(Some(r#"{"version":1}"#)).err(),
        Some(CacheError::MissingEntries)
    );
    assert_eq!(load_size_cache(None).unwrap().len(), 0);
}
