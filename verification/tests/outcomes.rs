//! What follows when work ends, well or badly.

use diskr::app::App;
use diskr::browser::{DirEntry, FileKind};
use diskr::bulkstat::SizeInfo;
use diskr::fileinfo::{
    file_kind, octal_permissions, read_attributes, symbolic_permissions, Attributes,
};
use diskr::fsevents::Freshness;
use diskr::history::{HistoryError, ScanRecord};
use diskr::installed::{scan_cargo, BinFacts, CargoInstall};
use diskr::labels::{format_full_timestamp, LocalDate, LocalTime};
use diskr::modals::disk_info;
use diskr::outbox::{ExternalAction, Request};
use diskr::packages::{brew_prefix, pip_command, PipCommand};
use diskr::scanner::{ScanMsg, Scanner};
use diskr::reports::{thin_step, ThinStep};
use diskr::space::{report_for_path, ApfsContainer, SnapshotListing, StatfsInfo, ThinError};
use diskr::state::{fsevents_file, history_file, size_cache_file, state_dir, CacheError};

fn listed(name: &str, kind: FileKind) -> DirEntry {
    DirEntry {
        name: name.to_string(),
        path: format!("/r/{name}"),
        kind,
        len: 0,
        blocks: 0,
        modified: None,
    }
}

fn app_with(listing: Vec<DirEntry>) -> App {
    let mut app = App::new("/r", Ok(Vec::new()), &Freshness::All, None, 0);
    app.dir_read(Ok(listing), None, 0, None, 0);
    app.out.take_requests();
    app
}

fn sized(scan_id: u64, path: &str) -> ScanMsg {
    ScanMsg::DirSize {
        scan_id,
        path: path.to_string(),
        size: SizeInfo::new(1, 2),
        inaccessible: 0,
        skipped_mounts: 0,
    }
}

#[test]
fn broken_off_work_is_reported() {
    let mut app = app_with(vec![listed("d", FileKind::Directory)]);
    assert!(app.files.entries[0].scanning);
    app.files.scan_failed("no threads", &mut app.out);
    assert_eq!(app.out.status, "could not start scanner: no threads");
    assert!(!app.files.entries[0].scanning);

    app.top.loading = true;
    app.top.top_files_failed(&mut app.out);
    assert_eq!(app.out.status, "top files scan failed");
    assert!(!app.top.loading);

    app.disks.info_loading = true;
    app.disks.disk_info_failed(&mut app.out);
    assert_eq!(app.out.status, "disk info scan failed");
    assert!(app.disks.info_open && !app.disks.info_loading);

    app.pkgs.loading = true;
    app.pkgs.package_scan_failed(&mut app.out);
    assert_eq!(app.out.status, "package scan failed");
    assert!(!app.pkgs.loading);
    app.pkgs.deps_loading = true;
    app.pkgs.dep_scan_failed();
    assert!(!app.pkgs.deps_loading);

    app.reclaim.loading = true;
    app.reclaim.reclaim_scan_failed(&mut app.out);
    assert_eq!(app.out.status, "reclaim scan failed");
    assert!(!app.reclaim.loading);
}

#[test]
fn an_emptied_trash_frees_room() {
    let mut app = app_with(Vec::new());
    app.empty_trash_result(Err("denied".to_string()));
    assert_eq!(app.out.status, "empty trash failed: denied");
    assert!(app.out.take_requests().is_empty());
    app.empty_trash_result(Ok(()));
    assert_eq!(app.out.status, "Trash emptied");
    assert!(matches!(app.out.take_requests()[0], Request::ReadDisks));
}

#[test]
fn marked_files_that_stay_are_named() {
    let mut app = app_with(vec![listed("d", FileKind::Directory)]);
    let scan_id = app.files.active_scan_id;
    app.scan_message(sized(scan_id, "/r/d"), 5, 5_000);
    assert!(app.known.cache.get("/r/d").is_some());
    app.batch_trash_result(&vec!["/r/d".to_string()], &vec!["/r/x".to_string(), "/r/y".to_string()]);
    assert_eq!(app.out.status, "some items failed: x, y");
    assert!(app.known.cache.get("/r/d").is_none());
    app.batch_trash_result(&Vec::new(), &Vec::new());
    assert_eq!(app.out.status, "moved marked items to trash");
}

#[test]
fn sizes_are_saved_once_they_changed() {
    let mut app = app_with(vec![listed("d", FileKind::Directory)]);
    assert!(app.size_cache_entries_for_store().is_none());
    assert!(!app.is_save_due(1_000_000));
    let scan_id = app.files.active_scan_id;
    app.scan_message(sized(scan_id, "/r/d"), 5, 5_000);
    assert!(app.is_save_due(1_000_000));
    let stored = app.size_cache_entries_for_store().unwrap();
    assert_eq!(stored.len(), 1);
    assert_eq!(stored[0].path, "/r/d");
    assert_eq!(stored[0].scanned_at, 5);
    app.save_size_cache_result(Err("full".to_string()), 7);
    assert_eq!(app.out.status, "size cache save failed: full");
    assert!(app.size_cache_entries_for_store().is_some());
    app.save_size_cache_result(Ok(()), 7);
    assert!(app.size_cache_entries_for_store().is_none());
}

#[test]
fn entries_are_sorted_again_after_a_while() {
    let mut app = app_with(vec![
        listed("a", FileKind::Directory),
        listed("b", FileKind::Directory),
    ]);
    let scan_id = app.files.active_scan_id;
    app.scan_message(sized(scan_id, "/r/b"), 5, 0);
    assert!(app.files.sort_dirty);
    assert!(!app.files.settle(0));
    assert!(app.files.settle(60_000));
    assert_eq!(app.files.entries[0].name, "b");
    assert!(!app.files.settle(120_000));
}

#[test]
fn saved_baselines_are_taken_over() {
    let mut app = app_with(Vec::new());
    let record = || ScanRecord {
        path: "/r".to_string(),
        timestamp: 9,
        children: Vec::new(),
        inaccessible: 0,
    };
    app.save_history_baseline();
    let id = app.history.scan_id;
    app.baseline_failed(id + 1, "late");
    assert!(app.history.saving);
    app.baseline_failed(id, "gone");
    assert_eq!(app.out.status, "baseline save failed: gone");
    assert!(!app.history.saving);
    app.baseline_saved(record(), Err("full".to_string()));
    assert_eq!(app.out.status, "baseline save failed: full");
    assert!(app.history.baseline.is_none());
    app.baseline_saved(record(), Ok(()));
    assert_eq!(app.out.status, "baseline saved");
    assert_eq!(app.history.baseline.as_ref().unwrap().timestamp, 9);
}

#[test]
fn crates_are_as_large_as_their_programs() {
    let install = CargoInstall {
        name: "ripgrep".to_string(),
        version: "14".to_string(),
        bins: vec!["gone".to_string(), "rg".to_string(), "rgx".to_string()],
    };
    let fact = |exists, bytes: Option<u64>| BinFacts {
        exists,
        size: bytes.map(|b| SizeInfo::new(b, b)),
    };
    let facts = vec![fact(false, Some(9)), fact(true, Some(2)), fact(true, Some(3))];
    let got = scan_cargo(&install, Some("/bin"), &facts);
    assert_eq!(got.path.as_deref(), Some("/bin/rg"));
    assert_eq!(got.size, Some(SizeInfo::new(5, 5)));
    let unknown = scan_cargo(&install, None, &facts);
    assert_eq!(unknown.path, None);
    assert_eq!(unknown.size, None);
}

#[test]
fn tools_are_found_where_they_are() {
    assert_eq!(pip_command(true, false, ""), Some(PipCommand::Pip3));
    assert_eq!(pip_command(false, true, " pip 24 "), Some(PipCommand::Python3Module));
    assert_eq!(pip_command(false, true, " \n"), None);
    assert_eq!(pip_command(false, false, "pip 24"), None);
    assert_eq!(pip_command(true, true, "pip 24"), Some(PipCommand::Python3Module));
    assert_eq!(pip_command(true, true, ""), Some(PipCommand::Pip3));
    assert_eq!(brew_prefix(Some("/custom"), true), "/custom");
    assert_eq!(brew_prefix(Some(""), true), "/opt/homebrew");
    assert_eq!(brew_prefix(None, false), "/usr/local");
}

#[test]
fn state_lies_below_the_home_directory() {
    assert_eq!(state_dir("/h"), "/h/Library/Application Support/diskr");
    assert_eq!(size_cache_file("/h"), "/h/Library/Application Support/diskr/size-cache.json");
    assert_eq!(history_file("/h"), "/h/Library/Application Support/diskr/history.json");
    assert_eq!(fsevents_file("/h"), "/h/Library/Application Support/diskr/fsevents.json");
}

fn stat(mount: &str, fs_type: &str, total: u64) -> StatfsInfo {
    StatfsInfo {
        mount: mount.to_string(),
        device: "/dev/disk1".to_string(),
        fs_type: fs_type.to_string(),
        total,
        used: 1,
        free: 2,
        available: 3,
    }
}

#[test]
fn containers_are_reported_on_apfs_alone() {
    let snapshots = || SnapshotListing { names: Vec::new(), error: None };
    let container = || {
        Some(ApfsContainer { reference: "disk3".to_string(), size: 9, free: 4 })
    };
    let apfs = report_for_path("/p", true, Ok(stat("/", "apfs", 4)), snapshots(), container());
    assert!(apfs.unwrap().apfs_container.is_some());
    let hfs = report_for_path("/p", true, Ok(stat("/", "hfs", 4)), snapshots(), container());
    assert!(hfs.unwrap().apfs_container.is_none());
    let missing = report_for_path("/p", false, Ok(stat("/", "apfs", 4)), snapshots(), None);
    assert_eq!(missing.err().as_deref(), Some("path does not exist: /p"));
    let broken = report_for_path("/p", true, Err("io".to_string()), snapshots(), None);
    assert_eq!(broken.err().as_deref(), Some("io"));
}

#[test]
fn volumes_without_room_are_not_listed() {
    let shown = disk_info(vec![stat("/", "apfs", 4), stat("/", "apfs", 0), stat("", "apfs", 4)]);
    assert_eq!(shown.len(), 1);
    assert_eq!(shown[0].name, "/dev/disk1");
    assert_eq!(shown[0].available, 3);
}

#[test]
fn pages_are_as_long_as_their_panes() {
    let mut app = app_with(Vec::new());
    app.show_packages(12);
    assert_eq!(app.pkgs.page_rows, 10);
    app.show_packages(1);
    assert_eq!(app.pkgs.page_rows, 1);
    app.show_reclaim(7);
    assert_eq!(app.reclaim.page_rows, 5);
}

#[test]
fn snapshots_are_thinned_only_when_confirmed() {
    match thin_step("/", 5, false) {
        Ok(ThinStep::Preview(page)) => {
            assert_eq!(page.lines[0], "Would run: tmutil thinlocalsnapshots / 5 4");
        }
        other => panic!("it is shown, not {other:?}"),
    }
    assert!(matches!(thin_step("/", 0, false), Ok(ThinStep::Preview(_))));
    match thin_step("/", 5, true) {
        Ok(ThinStep::Run(args)) => assert_eq!(args, vec!["thinlocalsnapshots", "/", "5", "4"]),
        other => panic!("it is run, not {other:?}"),
    }
    assert!(matches!(thin_step("/", 0, true), Err(ThinError::NothingToThin)));
}

#[test]
fn unusable_files_are_explained() {
    assert_eq!(
        HistoryError::Malformed.message("/h.json", "/r"),
        "parse /h.json (delete it to reset history)"
    );
    assert_eq!(
        HistoryError::UnexpectedFormat.message("/h.json", "/r"),
        "unexpected history format in /h.json (delete it to reset history)"
    );
    assert_eq!(
        HistoryError::NoBaseline.message("/h.json", "/r"),
        "no saved baseline for /r; run `diskr --save /r` first"
    );
    assert_eq!(
        CacheError::Malformed.message("/c.json"),
        "parse /c.json (delete it to reset cache)"
    );
    assert_eq!(
        CacheError::UnexpectedVersion.message("/c.json"),
        "unexpected size-cache version in /c.json (delete it to reset cache)"
    );
    assert_eq!(CacheError::MissingEntries.message("/c.json"), "missing entries in /c.json");
}

#[test]
fn actions_name_their_programs() {
    let line = |action: ExternalAction| {
        let (program, args) = action.launch_args("/r/a");
        format!("{program} {}", args.join(" "))
    };
    assert_eq!(line(ExternalAction::QuickLook), "qlmanage -p /r/a");
    assert_eq!(line(ExternalAction::RevealInFinder), "open -R /r/a");
    assert_eq!(line(ExternalAction::Open), "open /r/a");
}

#[test]
fn permissions_are_spelled_out() {
    assert_eq!(symbolic_permissions(0o100_754), "rwxr-xr--");
    assert_eq!(symbolic_permissions(0), "---------");
    assert_eq!(octal_permissions(0o100_754), "0754");
    assert_eq!(octal_permissions(0o4_001), "4001");
    assert_eq!(file_kind(true, false, false), "directory");
    assert_eq!(file_kind(false, true, false), "symlink");
    assert_eq!(file_kind(false, false, true), "file");
    assert_eq!(file_kind(false, false, false), "other");
}

#[test]
fn attribute_lists_are_read() {
    let none = read_attributes(&Vec::new());
    assert_eq!(none, Attributes { count: 0, quarantined: false });
    let some = read_attributes(&b"a\0com.apple.quarantine\0".to_vec());
    assert_eq!(some, Attributes { count: 2, quarantined: true });
    let other = read_attributes(&b"\0com.apple.quarantined\0x".to_vec());
    assert_eq!(other, Attributes { count: 2, quarantined: false });
}

#[test]
fn times_are_told_to_the_second() {
    let date = LocalDate { year: 126, month: 0, day: 9 };
    let time = LocalTime { date, hour: 7, minute: 5, second: 3 };
    assert_eq!(format_full_timestamp(Some(time)), "2026-01-09 07:05:03");
    assert_eq!(format_full_timestamp(None), "?");
}

#[test]
fn panes_start_empty() {
    let app = App::new("/r", Ok(Vec::new()), &Freshness::All, None, 0);
    assert_eq!((app.disks.page_rows, app.disks.info_id), (0, 0));
    assert!(app.disks.info_report.is_none());
    assert_eq!((app.pkgs.page_rows, app.pkgs.active_scan_id), (0, 0));
    assert!(app.pkgs.search_matches.is_empty());
    assert_eq!((app.reclaim.active_scan_id, app.reclaim.paths_selected), (0, 0));
    assert_eq!((app.top.scan_id, app.top.offset, app.top.page_rows), (0, 0, 0));
}

#[test]
fn ending_a_scan_outdates_it() {
    let mut scanner = Scanner::new();
    let before = scanner.generation();
    scanner.cancel_current();
    assert_ne!(scanner.generation(), before);
}
