//! What stays true from one call to the next.

use diskr::app::App;
use diskr::browser::{DirEntry, FileKind};
use diskr::bulkstat::{ScanPolicy, SizeInfo};
use diskr::cache::SizeCache;
use diskr::fsevents::Freshness;
use diskr::history::{
    diff_records, load_record_for_path, save, ChildSize, DiffReport, ScanRecord,
};
use diskr::keys::{Key, Modifiers};
use diskr::manifests::{manifest_groups, EntryType, NamedEntry};
use diskr::outbox::Request;
use diskr::perform::Step;
use diskr::scanner::ScanMsg;
use diskr::state::{CachedSize, SIZE_CACHE_MAX_ENTRIES};
use diskr::walk::{scan_dir, WalkTask};

const NONE: Modifiers = Modifiers { control: false, alt: false, command: false };

fn listed(name: &str, kind: FileKind) -> DirEntry {
    DirEntry {
        name: name.to_string(),
        path: format!("/r/{name}"),
        kind,
        len: 0,
        blocks: 0,
        modified: None,
    }
}

fn app_with(listing: Vec<DirEntry>) -> App {
    let mut app = App::new("/r", Ok(Vec::new()), &Freshness::All, None, 0);
    app.dir_read(Ok(listing), None, 0, None, 0);
    app.out.take_requests();
    app
}

fn baseline(path: &str, timestamp: u64) -> ScanRecord {
    ScanRecord { path: path.to_string(), timestamp, children: Vec::new(), inaccessible: 0 }
}

fn saved_size(path: &str, scanned_at: u64) -> CachedSize {
    CachedSize {
        path: path.to_string(),
        size: SizeInfo::new(1, 2),
        inaccessible: 3,
        scanned_at,
    }
}

#[test]
fn only_the_newest_baselines_are_kept() {
    let mut file: Option<String> = None;
    for n in 0..513u64 {
        let record = baseline(&format!("/p{n}"), 100 + n);
        file = Some(save(file.as_deref(), &record).unwrap());
    }
    let kept = |path: &str| load_record_for_path(file.as_deref(), path).unwrap().is_some();
    assert!(!kept("/p0"));
    assert!(kept("/p1"));
    assert!(kept("/p512"));

    let older = save(file.as_deref(), &baseline("/late", 1)).unwrap();
    assert_eq!(load_record_for_path(Some(&older), "/late").unwrap().unwrap().timestamp, 1);
    assert!(load_record_for_path(Some(&older), "/p1").unwrap().is_none());
    assert!(load_record_for_path(Some(&older), "/p2").unwrap().is_some());
}

#[test]
fn a_saved_baseline_is_kept_among_others_of_its_age() {
    let mut file: Option<String> = None;
    for n in 0..512u64 {
        file = Some(save(file.as_deref(), &baseline(&format!("/a{n:03}"), 7)).unwrap());
    }
    let after = save(file.as_deref(), &baseline("/z", 7)).unwrap();
    assert!(load_record_for_path(Some(&after), "/z").unwrap().is_some());
    assert!(load_record_for_path(Some(&after), "/a510").unwrap().is_some());
    assert!(load_record_for_path(Some(&after), "/a511").unwrap().is_none());

    let again = save(Some(&after), &baseline("/z", 9)).unwrap();
    assert_eq!(load_record_for_path(Some(&again), "/z").unwrap().unwrap().timestamp, 9);
    assert!(load_record_for_path(Some(&again), "/a510").unwrap().is_some());
}

fn child(name: &str, logical: u64, allocated: u64) -> ChildSize {
    ChildSize { name: name.to_string(), is_dir: false, size: SizeInfo::new(logical, allocated) }
}

fn of_children(children: Vec<ChildSize>) -> ScanRecord {
    ScanRecord { children, ..baseline("/r", 1) }
}

#[test]
fn additions_and_removals_of_no_size_are_listed() {
    let before = of_children(vec![child("gone", 0, 0), child("same", 0, 0)]);
    let after = of_children(vec![child("new", 0, 0), child("same", 0, 0)]);
    let report = diff_records(&before, &after);
    let names: Vec<&str> = report.changes.iter().map(|c| c.name.as_str()).collect();
    assert_eq!(names, vec!["gone", "new"]);
    assert_eq!(report.changes[0].after, None);
    assert_eq!(report.changes[1].before, None);
    assert_eq!(report.changes[1].after, Some(SizeInfo::new(0, 0)));
    assert_eq!(report.total_delta_allocated(), 0);
}

#[test]
fn the_order_of_children_changes_no_report() {
    let olds = || vec![child("a", 1, 10), child("b", 2, 20), child("c", 3, 30)];
    let news = || vec![child("b", 2, 25), child("d", 4, 35), child("c", 3, 25)];
    let mut turned_olds = olds();
    turned_olds.reverse();
    let mut turned_news = news();
    turned_news.rotate_left(1);
    let one = diff_records(&of_children(olds()), &of_children(news()));
    let other = diff_records(&of_children(turned_olds), &of_children(turned_news));
    let shown = |r: &DiffReport| -> Vec<(String, i128)> {
        r.changes.iter().map(|c| (c.name.clone(), c.delta_allocated())).collect()
    };
    let names: Vec<String> = one.changes.iter().map(|c| c.name.clone()).collect();
    assert_eq!(names, vec!["d", "a", "b", "c"]);
    assert_eq!(shown(&one), shown(&other));
    assert_eq!(one.before_total, other.before_total);
    assert_eq!(one.after_total, other.after_total);
    let sum: i128 = one.changes.iter().map(|c| c.delta_allocated()).sum();
    assert_eq!(sum, one.total_delta_allocated());
    assert_eq!(sum, 25);
}

#[test]
fn only_the_newest_sizes_are_saved() {
    let count = SIZE_CACHE_MAX_ENTRIES as u64 + 1;
    let saved: Vec<CachedSize> = (0..count).map(|n| saved_size(&format!("/d{n}"), n)).collect();
    let (mut cache, dropped) = SizeCache::from_saved(saved, &Freshness::All);
    assert!(dropped);
    assert!(cache.get("/d0").is_none());
    assert!(cache.get("/d1").is_some());
    let stored = cache.entries_for_store();
    assert_eq!(stored.len(), SIZE_CACHE_MAX_ENTRIES);
    assert_eq!(stored[0].scanned_at, count - 1);
}

#[test]
fn unchanged_directories_stay_fresh() {
    let changes = Freshness::Touched {
        watched_root: "/home".to_string(),
        changed: vec!["/home/a/b".to_string()],
    };
    let saved = vec![
        saved_size("/home/a", 1),
        saved_size("/home/c", 2),
        saved_size("/elsewhere", 3),
    ];
    let (cache, dropped) = SizeCache::from_saved(saved, &changes);
    assert!(!dropped);
    assert!(cache.get("/home/a").unwrap().stale);
    assert!(!cache.get("/home/c").unwrap().stale);
    assert!(cache.get("/elsewhere").unwrap().stale);
    assert_eq!(cache.get("/home/c").unwrap().size, SizeInfo::new(1, 2));
    assert_eq!(cache.get("/home/c").unwrap().inaccessible, 3);
}

#[test]
fn escape_never_ends_the_program() {
    let mut app = app_with(vec![listed("a", FileKind::File)]);
    for _ in 0..3 {
        assert_ne!(app.press(Key::Esc, NONE, 0), Step::Quit);
    }
    app.press(Key::Char('/'), NONE, 0);
    assert_ne!(app.press(Key::Char('q'), NONE, 0), Step::Quit);
    assert_eq!(app.files.search_query, "q");
    assert_ne!(app.press(Key::Esc, NONE, 0), Step::Quit);
    assert_eq!(app.press(Key::Char('q'), NONE, 0), Step::Quit);
}

#[test]
fn sizes_find_their_row_after_sorting() {
    let mut app = app_with(vec![
        listed("a", FileKind::Directory),
        listed("b", FileKind::Directory),
    ]);
    let scan_id = app.files.active_scan_id;
    app.files.entries.reverse();
    app.scan_message(
        ScanMsg::DirSize {
            scan_id,
            path: "/r/a".to_string(),
            size: SizeInfo::new(7, 8),
            inaccessible: 0,
            skipped_mounts: 0,
        },
        1,
        1_000,
    );
    let size_of = |name: &str| app.files.entries.iter().find(|e| e.name == name).unwrap().size;
    assert_eq!(size_of("a"), Some(SizeInfo::new(7, 8)));
    assert_eq!(size_of("b"), None);
}

#[test]
fn a_listing_selects_the_wanted_path() {
    let mut app = app_with(Vec::new());
    app.dir_read(
        Ok(vec![listed("a", FileKind::File), listed("b", FileKind::File), listed("c", FileKind::File)]),
        Some("/r/b".to_string()),
        0,
        None,
        0,
    );
    assert_eq!(app.visible_entry(app.files.selected).unwrap().path, "/r/b");
}

#[test]
fn full_scans_leave_fresh_sizes_alone() {
    let mut app = app_with(vec![
        listed("a", FileKind::Directory),
        listed("b", FileKind::Directory),
    ]);
    app.files.entries[0].size = Some(SizeInfo::new(1, 1));
    app.files.entries[0].size_stale = false;
    app.files.entries[1].size = Some(SizeInfo::new(2, 2));
    app.files.entries[1].size_stale = true;
    let stale = app.files.entries[1].path.clone();
    app.scan_all_missing_visible();
    match &app.out.take_requests()[0] {
        Request::ScanDirs { dirs, .. } => assert_eq!(dirs, &vec![stale]),
        other => panic!("the stale directory is scanned, not {other:?}"),
    }
    assert_eq!(app.files.entries[0].size, Some(SizeInfo::new(1, 1)));
    assert_eq!(app.files.entries[1].size, Some(SizeInfo::new(2, 2)));
}

#[test]
fn marks_and_searches_end_with_the_directory() {
    let mut app = app_with(vec![listed("a", FileKind::File), listed("d", FileKind::Directory)]);
    app.mark_all_visible();
    assert_eq!(app.files.marked.len(), 2);
    app.enter_search();
    app.files.search_push('d');
    app.files.keep_search();
    assert_eq!(app.visible_entry(0).unwrap().name, "d");
    app.files.selected = 0;
    app.enter();
    assert_eq!(app.files.cwd, "/r/d");
    assert!(app.files.marked.is_empty());
    assert_eq!(app.files.search_query, "");
}

#[test]
fn shared_dependency_directories_make_one_group() {
    let named = |name: &str| NamedEntry { name: name.to_string(), kind: EntryType::File };
    let groups = manifest_groups(
        "/r",
        &vec![named("package.json"), named("requirements.txt"), named("pyproject.toml"), named("go.mod")],
    );
    let places: Vec<Option<&str>> = groups.iter().map(|g| g.deps_path.as_deref()).collect();
    assert_eq!(places, vec![Some("/r/node_modules"), Some("/r/.venv"), None]);
    assert_eq!(groups[1].manifests, vec!["requirements.txt", "pyproject.toml"]);
}

/// A directory entry with its name, its device and the error that reading its
/// attributes gave.
fn subdirectory(name: &str, device: i32, error: u32) -> Vec<u8> {
    let common: u32 = 0x0000_0001 | 0x0000_0002 | 0x0000_0008 | 0x2000_0000 | 0x8000_0000;
    let mut body: Vec<u8> = Vec::new();
    body.extend(common.to_le_bytes());
    body.extend([0u8; 16]);
    body.extend(error.to_le_bytes());
    let name_ref_at = body.len();
    body.extend([0u8; 8]);
    body.extend(device.to_le_bytes());
    body.extend(2u32.to_le_bytes());
    let offset = (body.len() - name_ref_at) as i32;
    body.extend(name.as_bytes());
    body.push(0);
    body[name_ref_at..name_ref_at + 4].copy_from_slice(&offset.to_le_bytes());
    body[name_ref_at + 4..name_ref_at + 8]
        .copy_from_slice(&((name.len() + 1) as u32).to_le_bytes());
    let mut all: Vec<u8> = ((body.len() + 4) as u32).to_le_bytes().to_vec();
    all.extend(body);
    all
}

#[test]
fn directories_are_found_again_by_their_raw_names() {
    let policy = ScanPolicy { root_dev: 7, data_dev: None, skip_data_volume: false };
    let mut walk = scan_dir("/t", 0, true, policy);
    let mut raw: Vec<Vec<u8>> = Vec::new();
    loop {
        match walk.next() {
            WalkTask::Follow(mut chain) => {
                raw.push(chain.below().clone());
                loop {
                    if chain.below().is_empty() {
                        let mut odd = subdirectory("x", 7, 0);
                        let at = odd.iter().rposition(|b| *b == b'x').unwrap();
                        odd[at] = 0xff;
                        walk.read(&mut chain, &odd, 1);
                        walk.read(&mut chain, &subdirectory("a", 7, 0), 1);
                    } else if chain.below() == b"a" {
                        walk.read(&mut chain, &subdirectory("b", 7, 0), 1);
                        walk.read(&mut chain, &subdirectory("c", 7, 0), 1);
                    }
                    if walk.close(&mut chain).is_none() {
                        break;
                    }
                }
                walk.finish_chain(chain);
            }
            WalkTask::Wait => panic!("nobody else is walking"),
            WalkTask::Stop => break,
        }
    }
    raw.sort();
    assert_eq!(raw, vec![Vec::new(), b"a/b".to_vec(), vec![0xff]]);
}

#[test]
fn unreadable_entries_and_other_devices_are_counted() {
    let policy = ScanPolicy { root_dev: 7, data_dev: Some(8), skip_data_volume: false };
    let mut walk = scan_dir("/t", 0, true, policy);
    let mut walked: Vec<String> = Vec::new();
    loop {
        match walk.next() {
            WalkTask::Follow(mut chain) => {
                loop {
                    walked.push(chain.dir().to_string());
                    if chain.dir() == "/t" {
                        walk.read(&mut chain, &subdirectory("here", 7, 0), 1);
                        walk.read(&mut chain, &subdirectory("data", 8, 0), 1);
                        walk.read(&mut chain, &subdirectory("away", 9, 0), 1);
                        walk.read(&mut chain, &subdirectory("broken", 7, 5), 1);
                    }
                    if walk.close(&mut chain).is_none() {
                        break;
                    }
                }
                walk.finish_chain(chain);
            }
            WalkTask::Wait => panic!("nobody else is walking"),
            WalkTask::Stop => break,
        }
    }
    walked.sort();
    assert_eq!(walked, vec!["/t", "/t/data", "/t/here"]);
    let found = walk.finish();
    assert_eq!(found.inaccessible, 1);
    assert_eq!(found.skipped_mounts, 1);
}
