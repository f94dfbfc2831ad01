//! What keys and results do to what is shown.

use diskr::app::{App, DeleteTarget, InputMode};
use diskr::browser::{DirEntry, FileKind};
use diskr::bulkstat::SizeInfo;
use diskr::cache::CacheLine;
use diskr::deletion::{delete_to_trash, TrashAttempt};
use diskr::entries::{natural_is_less, SortMode};
use diskr::fsevents::Freshness;
use diskr::history::{ChildSize, ScanRecord};
use diskr::keymap::Focus;
use diskr::keys::{char_modifier_inhibited, handle_pkg_search_key, Command, Key, Modifiers};
use diskr::manifests::ProjectDeps;
use diskr::modals::DiskInfo;
use diskr::outbox::{ExternalAction, Request};
use diskr::overlay::{overlay_area, overlays, Overlay};
use diskr::packages::{
    DepEvidence, DepGraph, DepInfo, Manager, ManagerReport, Package,
};
use diskr::perform::Step;
use diskr::pkgpane::{FlatPackage, PackageScan, PkgView};
use diskr::reclaim::{Finding, ReclaimReport, Reclaimability};
use diskr::scanner::ScanMsg;
use diskr::screen::Area;
use diskr::state::CachedSize;

const NONE: Modifiers = Modifiers { control: false, alt: false, command: false };
const CONTROL: Modifiers = Modifiers { control: true, alt: false, command: false };

fn listed(root: &str, name: &str, kind: FileKind, len: u64) -> DirEntry {
    DirEntry {
        name: name.to_string(),
        path: format!("{root}/{name}"),
        kind,
        len,
        blocks: len.div_ceil(512),
        modified: Some(len as i128),
    }
}

fn file(root: &str, name: &str, len: u64) -> DirEntry {
    listed(root, name, FileKind::File, len)
}

fn dir(root: &str, name: &str) -> DirEntry {
    listed(root, name, FileKind::Directory, 0)
}

fn start(root: &str, saved: Vec<CachedSize>) -> App {
    let mut app = App::new(root, Ok(saved), &Freshness::All, None, 0);
    app.out.take_requests();
    app
}

fn show(app: &mut App, listing: Vec<DirEntry>) {
    app.dir_read(Ok(listing), None, 0, None, 0);
}

fn app_at(root: &str, listing: Vec<DirEntry>) -> App {
    let mut app = start(root, Vec::new());
    show(&mut app, listing);
    app
}

fn cancel_active_state(app: &mut App) {
    let command = app.cancel_active_state();
    app.perform(command, 0);
}

fn type_in_packages(app: &mut App, key: Key) -> bool {
    let command = handle_pkg_search_key(key);
    app.perform(command, 0) == Step::Redraw
}

fn named(app: &App) -> Vec<&str> {
    app.files.entries.iter().map(|e| e.name.as_str()).collect()
}

fn pick(app: &mut App, name: &str) {
    app.files.selected = app.files.entries.iter().position(|e| e.name == name).unwrap();
}

fn package(name: &str, bytes: Option<u64>, path: Option<&str>) -> Package {
    Package {
        name: name.to_string(),
        version: "1.0".to_string(),
        size: bytes.map(|b| SizeInfo::new(b, b)),
        path: path.map(|p| p.to_string()),
        metadata_path: None,
    }
}

fn manager_report(manager: Manager, packages: Vec<Package>) -> ManagerReport {
    ManagerReport {
        manager,
        packages,
        total_size: SizeInfo::default(),
        available: true,
        warning: None,
    }
}

fn project(path: &str) -> ProjectDeps {
    ProjectDeps {
        path: path.to_string(),
        manager_label: "cargo".to_string(),
        manifest: "Cargo.toml".to_string(),
        dep_count: 5,
        deps_size: None,
        deps_dir: Some(format!("{path}/target")),
    }
}

fn trash_only_report(root: &str, bytes: u64) -> ReclaimReport {
    ReclaimReport {
        root: root.to_string(),
        findings: vec![Finding {
            label: "Trash".to_string(),
            class: Reclaimability::Risky,
            note: String::new(),
            size: SizeInfo::new(bytes, bytes),
            inaccessible: 0,
            skipped_mounts: 0,
            count: 1,
            paths: vec![format!("{root}/.Trash")],
            rollup: false,
        }],
        total: SizeInfo::new(bytes, bytes),
        inaccessible: 0,
        skipped_mounts: 0,
    }
}

fn target_path(target: &DeleteTarget) -> String {
    match target {
        DeleteTarget::FileEntry(e) => e.path.clone(),
        DeleteTarget::Package { path, .. } => path.clone(),
        DeleteTarget::TopFile { path, .. } => path.clone(),
        DeleteTarget::ReclaimPath { path, .. } => path.clone(),
        DeleteTarget::Batch => panic!("Batch not expected in this test"),
    }
}

#[test]
fn delete_request_is_pinned_to_original_entry() {
    let mut app = app_at("/r", vec![file("/r", "a.txt", 1), file("/r", "b.txt", 2)]);
    let target = app.files.entries[0].path.clone();
    app.request_delete();

    assert!(app.confirming_delete);
    assert_eq!(target_path(app.pending_delete.as_ref().unwrap()), target);
    app.move_cursor(1);
    assert_eq!(target_path(app.pending_delete.as_ref().unwrap()), target);

    app.cancel_delete();
    assert!(!app.confirming_delete);
    assert!(app.pending_delete.is_none());
}

#[test]
fn delete_request_only_applies_to_files_pane() {
    let mut app = app_at("/r", vec![file("/r", "a.txt", 1)]);
    app.focus = Focus::Disks;
    app.request_delete();

    assert!(!app.confirming_delete);
    assert!(app.pending_delete.is_none());
}

#[test]
fn delete_request_applies_to_package_deps() {
    let mut app = app_at("/r", Vec::new());
    app.pkgs.project_deps = vec![project("/r")];
    app.focus = Focus::Packages;
    app.pkgs.view = PkgView::ProjectDeps;
    app.pkgs.selected = 0;

    app.request_delete();

    assert!(app.confirming_delete);
    match app.pending_delete.as_ref().unwrap() {
        DeleteTarget::Package { name, path, is_project_dep } => {
            assert!(*is_project_dep);
            assert_eq!(path, "/r/target");
            assert!(name.contains("dependency dir"));
        }
        _ => panic!("expected DeleteTarget::Package"),
    }
}

#[test]
fn dependency_leaf_filter_includes_global_leaf_managers() {
    let mut app = app_at("/r", Vec::new());
    app.focus = Focus::Packages;
    app.pkgs.view = PkgView::SystemManagers;
    app.pkgs.loaded = true;
    app.pkgs.flat = vec![
        FlatPackage { package: package("leaf", None, None), manager: Manager::Brew },
        FlatPackage { package: package("shared-lib", None, None), manager: Manager::Brew },
        FlatPackage { package: package("miniconda", None, None), manager: Manager::BrewCask },
    ];
    let info = |dependents: Vec<String>| DepInfo {
        dependencies: Vec::new(),
        dependents,
        evidence: DepEvidence::ManagerGraph,
    };
    let mut graph = DepGraph::new();
    graph.set(Manager::Brew, "leaf", info(Vec::new()));
    graph.set(Manager::Brew, "shared-lib", info(vec!["app".to_string()]));
    graph.set(Manager::BrewCask, "miniconda", info(Vec::new()));
    app.pkgs.dep_graph = Some(graph);

    app.toggle_unused_filter();

    assert_eq!(app.pkgs.pkg_item_count(), 2);
    assert_eq!(app.pkgs.pkg_visible_index(0), Some(0));
    assert_eq!(app.pkgs.pkg_visible_index(1), Some(2));
    assert_eq!(app.pkgs.pkg_visible_index(2), None);
}

fn disk(name: &str, mount: &str) -> DiskInfo {
    DiskInfo { name: name.to_string(), mount: mount.to_string(), total: 100, available: 50 }
}

#[test]
fn disk_pane_selection_can_open_mounts() {
    let mut app = app_at("/r", Vec::new());
    app.disks.disks = vec![disk("first", "/r/first"), disk("second", "/r/second")];
    app.focus = Focus::Disks;

    app.move_cursor(1);
    assert_eq!(app.disks.selected, 1);
    app.enter();

    assert_eq!(app.files.cwd, "/r/second");
    assert!(app.focus == Focus::Files);
}

#[test]
fn hidden_toggle_filters_dotfiles() {
    let listing = || vec![file("/r", "visible.txt", 7), file("/r", ".hidden.txt", 6)];
    let mut app = app_at("/r", listing());
    assert!(named(&app).contains(&"visible.txt"));
    assert!(!named(&app).contains(&".hidden.txt"));

    app.toggle_hidden();
    show(&mut app, listing());
    assert!(named(&app).contains(&".hidden.txt"));
}

#[test]
fn app_new_preserves_caller_path() {
    let app = start("/r/.", Vec::new());
    assert_eq!(app.files.cwd, "/r/.");
}

#[test]
fn history_baseline_status_does_not_duplicate_ago() {
    let mut app = app_at("/r", Vec::new());
    app.history.baseline = Some(ScanRecord {
        path: "/r".to_string(),
        timestamp: 940,
        children: Vec::new(),
        inaccessible: 0,
    });

    let status = app.history_baseline_status(1000).unwrap();
    assert!(status.starts_with("baseline saved "));
    assert!(!status.contains("ago ago"));
}

#[test]
fn stale_reclaim_scan_result_is_ignored_after_cwd_change() {
    let mut app = app_at("/a", Vec::new());
    app.reclaim.active_scan_id = 7;
    app.reclaim.loading = true;
    app.files.cwd = "/b".to_string();
    let report = ReclaimReport { root: "/a".to_string(), ..ReclaimReport::default() };

    assert!(app.reclaim.reclaim_scanned(7, "/a".to_string(), report, "/b", &mut app.out));
    assert!(app.reclaim.report.is_none());
    assert!(!app.reclaim.loading);
    assert!(app.out.status.contains("stale reclaim"));
}

#[test]
fn stale_package_scan_result_is_ignored_after_cwd_change() {
    let mut app = app_at("/a", Vec::new());
    app.pkgs.active_scan_id = 11;
    app.pkgs.loading = true;
    let scan = PackageScan {
        scan_id: 11,
        cwd: "/a".to_string(),
        reports: Vec::new(),
        project_deps: vec![project("/a")],
        include_managers: false,
    };

    assert!(app.pkgs.packages_scanned(scan, "/b", &mut app.out));
    assert!(app.pkgs.project_deps.is_empty());
    assert!(app.pkgs.project_deps_cwd.is_none());
    assert!(!app.pkgs.loading);
    let status = &app.out.status;
    assert!(status.contains("stale package") || status.contains("discarded stale"));
}

fn with_dirs(count: usize) -> Vec<DirEntry> {
    (0..count).map(|i| dir("/r", &format!("dir-{i}"))).collect()
}

fn scanning(app: &App) -> usize {
    app.files.entries.iter().filter(|e| e.is_dir && e.scanning).count()
}

#[test]
fn force_rescan_refreshes_entries_and_preserves_selection() {
    let mut listing = with_dirs(6);
    listing.push(file("/r", "a.txt", 1));
    listing.push(file("/r", "c.txt", 3));
    let mut app = app_at("/r", listing);
    app.files.sort = SortMode::Name;
    app.files.apply_sort(0);
    app.move_cursor(1);
    let selected_before = app.files.entries[app.files.selected].path.clone();
    app.out.take_requests();

    app.force_rescan();
    let request = app.out.take_requests().pop().unwrap();
    match request {
        Request::Rescan { path, selected, index } => {
            assert_eq!(path, "/r");
            let mut listing = with_dirs(6);
            for name in ["a.txt", "b.txt", "c.txt"] {
                listing.push(file("/r", name, 2));
            }
            app.dir_read_for_rescan(Ok(listing), selected, index, 0);
        }
        other => panic!("a rescan is asked for, not {other:?}"),
    }

    assert!(named(&app).contains(&"b.txt"));
    assert_eq!(app.files.entries[app.files.selected].path, selected_before);
    assert_eq!(scanning(&app), 6);
}

fn line(logical: u64, allocated: u64, inaccessible: u32, scanned_at: u64, stale: bool) -> CacheLine {
    CacheLine {
        size: SizeInfo::new(logical, allocated),
        inaccessible,
        skipped_mounts: 0,
        scanned_at,
        stale,
    }
}

#[test]
fn full_scan_scans_all_missing_visible_dirs_without_invalidating_cache() {
    let mut app = app_at("/r", with_dirs(6));
    app.files.sort = SortMode::Name;
    app.files.apply_sort(0);
    let known_size = SizeInfo::new(123, 64);
    app.known.cache.record("/r/dir-0", line(123, 64, 0, 1, false));
    for entry in &mut app.files.entries {
        entry.scanning = false;
        entry.size = if entry.path == "/r/dir-0" { Some(known_size) } else { None };
    }
    pick(&mut app, "dir-4");

    app.scan_all_missing_visible();

    assert_eq!(scanning(&app), 5);
    assert_eq!(app.known.cache.get("/r/dir-0").unwrap().size, known_size);
    let known = app.files.entries.iter().find(|e| e.path == "/r/dir-0").unwrap();
    assert_eq!(known.size, Some(known_size));
    assert!(app.out.status.contains("full scan: 5 directories"));
}

#[test]
fn go_up_reselects_previous_directory_in_parent() {
    let listing = || vec![dir("/r", "child"), dir("/r", "sibling")];
    let mut app = app_at("/r", listing());
    app.files.sort = SortMode::Name;
    app.files.apply_sort(0);
    pick(&mut app, "child");

    app.enter();
    assert_eq!(app.files.cwd, "/r/child");
    show(&mut app, vec![file("/r/child", "nested.txt", 1)]);
    app.out.take_requests();
    app.go_up();
    for request in app.out.take_requests() {
        if let Request::ReadDir { selected, index, status, .. } = request {
            app.dir_read(Ok(listing()), selected, index, status, 0);
        }
    }

    assert_eq!(app.files.cwd, "/r");
    assert_eq!(app.files.entries[app.files.selected].path, "/r/child");
}

#[test]
fn initial_scan_is_bounded_for_broad_directories() {
    let app = app_at("/r", with_dirs(8));
    let scanning_count = app.files.entries.iter().filter(|e| e.scanning).count();

    assert_eq!(scanning_count, 4);
    assert!(app.out.status.contains("4/8 directories"));
}

#[test]
fn persisted_size_cache_marks_directory_stale_until_fresh_scan() {
    let mut app = app_at("/r", Vec::new());
    app.known.cache.record("/r/cached", line(10, 20, 1, 123, true));
    show(&mut app, vec![dir("/r", "cached")]);

    let entry = &app.files.entries[0];
    assert_eq!(entry.size, Some(SizeInfo::new(10, 20)));
    assert!(entry.size_stale);
    assert_eq!(entry.cached_at, Some(123));
    assert_eq!(entry.inaccessible, 1);

    app.known.cache.record("/r/cached", line(30, 40, 0, 456, false));
    show(&mut app, vec![dir("/r", "cached")]);

    let entry = &app.files.entries[0];
    assert_eq!(entry.size, Some(SizeInfo::new(30, 40)));
    assert!(!entry.size_stale);
    assert_eq!(entry.cached_at, Some(456));
    assert_eq!(entry.inaccessible, 0);
}

#[test]
fn saved_sizes_are_stale_at_the_start() {
    let saved = CachedSize {
        path: "/r/cached".to_string(),
        size: SizeInfo::new(10, 20),
        inaccessible: 0,
        scanned_at: 5,
    };
    let app = start("/r", vec![saved]);
    assert!(app.known.cache.get("/r/cached").unwrap().stale);
    let bad = App::new("/r", Err("bad file".to_string()), &Freshness::All, None, 0);
    assert!(bad.known.cache.get("/r/cached").is_none());
    assert!(bad.out.requests.iter().any(|r| matches!(
        r,
        Request::ReadDir { status: Some(s), .. } if s.contains("bad file")
    )));
}

#[test]
fn cache_invalidation_removes_persistent_metadata_for_ancestors() {
    let mut app = app_at("/r", Vec::new());
    app.known.cache.record("/r/cached", line(10, 20, 2, 123, true));
    app.known.invalidate_cache_for("/r/cached/child.txt");

    assert!(app.known.cache.get("/r/cached").is_none());
    assert!(app.known.dirty);
}

#[test]
fn moving_to_unscanned_directory_starts_selected_scan() {
    let mut app = app_at("/r", with_dirs(6));
    app.files.sort = SortMode::Name;
    app.files.apply_sort(0);
    app.files.selected = 5;
    for entry in &mut app.files.entries {
        entry.scanning = false;
    }

    app.move_cursor(0);

    assert!(app.files.entries[app.files.selected].scanning);
    assert!(app.out.status.contains("scanning selected directory"));
}

#[test]
fn scan_selected_missing_dir_uses_visible_mapping_during_search() {
    let mut app = app_at("/r", vec![dir("/r", "aaa"), dir("/r", "bbb")]);
    app.files.sort = SortMode::Name;
    app.files.apply_sort(0);
    for entry in &mut app.files.entries {
        entry.size = None;
        entry.scanning = false;
    }

    app.enter_search();
    app.search_push('b');
    app.move_cursor(0);

    let scanning = |name: &str| app.files.entries.iter().find(|e| e.name == name).unwrap().scanning;
    assert!(scanning("bbb"));
    assert!(!scanning("aaa"));
}

#[test]
fn apply_sort_preserving_selection_rebuilds_search_matches() {
    let mut app = app_at("/r", vec![dir("/r", "a"), dir("/r", "b-small"), dir("/r", "b-big")]);
    app.files.sort = SortMode::Name;
    app.files.apply_sort(0);
    for entry in &mut app.files.entries {
        entry.size = match entry.name.as_str() {
            "b-big" => Some(SizeInfo::new(200, 32)),
            "b-small" => Some(SizeInfo::new(100, 16)),
            _ => Some(SizeInfo::new(1, 8)),
        };
    }

    app.enter_search();
    app.search_push('b');
    app.move_cursor(1);
    app.files.sort = SortMode::SizeDesc;
    app.files.apply_sort_preserving_selection(0);

    let visible: Vec<&str> =
        app.files.search_matches.iter().map(|&i| app.files.entries[i].name.as_str()).collect();
    assert_eq!(visible, vec!["b-big", "b-small"]);
}

#[test]
fn name_sort_uses_natural_numeric_order() {
    let mut app = app_at(
        "/r",
        vec![file("/r", "file-10.txt", 1), file("/r", "file-2.txt", 1), file("/r", "file-1.txt", 1)],
    );
    app.files.sort = SortMode::Name;
    app.files.apply_sort(0);
    assert_eq!(named(&app), vec!["file-1.txt", "file-2.txt", "file-10.txt"]);
    assert!(natural_is_less("a9", "a10"));
    assert!(!natural_is_less("a10", "a9"));
}

#[test]
fn symlinks_are_marked_and_sized() {
    let app = app_at("/r", vec![file("/r", "target.txt", 1), listed("/r", "link.txt", FileKind::Symlink, 9)]);
    let entry = app.files.entries.iter().find(|e| e.name == "link.txt").unwrap();
    assert!(entry.is_symlink);
    assert!(entry.size.is_some());
}

#[test]
fn search_exit_preserves_selected_match() {
    let mut app = app_at("/r", vec![file("/r", "alpha.txt", 1), file("/r", "beta.txt", 1)]);
    app.files.sort = SortMode::Name;
    app.files.apply_sort(0);
    app.enter_search();
    app.search_push('b');
    app.exit_search();
    assert_eq!(app.files.entries[app.files.selected].name, "beta.txt");
}

#[test]
fn focus_transit_to_packages_does_not_start_package_scan() {
    let mut app = app_at("/r", Vec::new());
    app.set_focus(Focus::Packages);

    assert!(matches!(app.focus, Focus::Packages));
    assert!(!app.pkgs.loading);
    assert!(!app.pkgs.loaded);
}

#[test]
fn reverse_focus_from_files_goes_to_reclaim() {
    let mut app = app_at("/r", Vec::new());
    app.focus = Focus::Files;
    app.focus_previous();
    assert!(app.focus == Focus::Reclaim);
}

#[test]
fn external_action_target_uses_selected_file_disk_or_package() {
    let mut app = app_at("/r", vec![file("/r", "visible.txt", 7)]);
    let target = app.selected_action_target().unwrap();
    assert_eq!(target, ("/r/visible.txt".to_string(), "visible.txt".to_string()));

    app.disks.disks = vec![disk("External", "/r/mount")];
    app.focus = Focus::Disks;
    let target = app.selected_action_target().unwrap();
    assert_eq!(target, ("/r/mount".to_string(), "External".to_string()));

    app.pkgs.reports =
        vec![manager_report(Manager::Cargo, vec![package("diskr", None, Some("/r/pkg-bin"))])];
    app.pkgs.project_deps = vec![project("/r")];
    app.pkgs.loaded = true;
    app.pkgs.rebuild_flat_packages();
    app.focus = Focus::Packages;
    app.pkgs.view = PkgView::SystemManagers;
    app.pkgs.selected = 0;
    let target = app.selected_action_target().unwrap();
    assert_eq!(target, ("/r/pkg-bin".to_string(), "cargo diskr".to_string()));

    app.pkgs.view = PkgView::ProjectDeps;
    let target = app.selected_action_target().unwrap();
    assert_eq!(target, ("/r/target".to_string(), "cargo /r".to_string()));
}

#[test]
fn package_search_treats_j_and_k_as_query_text() {
    let mut app = app_at("/r", Vec::new());
    app.focus = Focus::Packages;
    app.pkgs.loaded = true;
    app.pkgs.reports = vec![manager_report(
        Manager::Brew,
        vec![
            package("jq", Some(30), None),
            package("kubectl", Some(20), None),
            package("alpha", Some(10), None),
        ],
    )];
    app.pkgs.rebuild_flat_packages();

    app.pkgs.selected = 0;
    app.enter_pkg_search();
    assert!(type_in_packages(&mut app, Key::Down));
    assert_eq!(app.pkgs.selected, 1);
    assert!(app.pkgs.search_query.is_empty());

    assert!(type_in_packages(&mut app, Key::Char('j')));
    assert_eq!(app.pkgs.search_query, "j");
    assert_eq!(app.pkgs.pkg_visible_indices(), vec![0]);

    app.exit_pkg_search();
    app.enter_pkg_search();
    assert!(type_in_packages(&mut app, Key::Char('k')));
    assert_eq!(app.pkgs.search_query, "k");
    assert_eq!(app.pkgs.pkg_visible_indices(), vec![1]);
}

#[test]
fn char_with_control_is_inhibited() {
    for c in ['c', 'd', 'r', 'v'] {
        assert!(char_modifier_inhibited(Key::Char(c), CONTROL));
    }
}

#[test]
fn char_with_alt_or_super_is_inhibited() {
    assert!(char_modifier_inhibited(Key::Char('c'), Modifiers { alt: true, ..NONE }));
    assert!(char_modifier_inhibited(Key::Char('x'), Modifiers { command: true, ..NONE }));
}

#[test]
fn plain_char_and_shift_char_are_not_inhibited() {
    for c in ['c', 'S', 'O', '?'] {
        assert!(!char_modifier_inhibited(Key::Char(c), NONE));
    }
}

#[test]
fn non_char_keys_with_control_are_not_inhibited() {
    assert!(!char_modifier_inhibited(Key::Esc, CONTROL));
}

#[test]
fn ctrl_c_exits_input_mode_via_cancel_active_state() {
    let mut app = app_at("/r", vec![file("/r", "file.txt", 1)]);
    app.request_rename();
    assert!(matches!(app.input.mode, InputMode::Rename));

    cancel_active_state(&mut app);
    assert!(matches!(app.input.mode, InputMode::Off));
}

#[test]
fn ctrl_c_cancels_delete_confirmation() {
    let mut app = app_at("/r", vec![file("/r", "file.txt", 1)]);
    app.request_delete();
    assert!(app.confirming_delete);

    cancel_active_state(&mut app);
    assert!(!app.confirming_delete);
}

#[test]
fn ctrl_c_closes_help_overlay() {
    let mut app = app_at("/r", Vec::new());
    app.open_help();
    assert!(app.show_help);

    cancel_active_state(&mut app);
    assert!(!app.show_help);
}

#[test]
fn ctrl_c_cancels_empty_trash_confirmation() {
    let mut app = app_at("/r", Vec::new());
    // E only arms when the loaded reclaim report lists Trash.
    app.reclaim.report = Some(trash_only_report("/r", 1024));
    app.request_empty_trash();
    assert!(app.reclaim.confirming_empty_trash);

    cancel_active_state(&mut app);
    assert!(!app.reclaim.confirming_empty_trash);
}

#[test]
fn ctrl_c_in_search_mode_exits_search() {
    let mut app = app_at("/r", Vec::new());
    app.enter_search();
    assert!(app.files.search_mode);

    cancel_active_state(&mut app);
    assert!(!app.files.search_mode);
}

#[test]
fn ctrl_c_clears_kept_search_filter() {
    let mut app = app_at("/r", vec![file("/r", "alpha.txt", 1), file("/r", "beta.txt", 1)]);
    app.enter_search();
    app.search_push('b');
    app.keep_search();
    assert!(app.files.search_filter_active());

    cancel_active_state(&mut app);

    assert!(!app.files.search_mode);
    assert!(!app.files.search_filter_active());
    assert_eq!(app.files.visible_entry_count(), 2);
}

#[test]
fn ctrl_c_in_base_files_state_is_noop() {
    let mut app = app_at("/r", Vec::new());
    assert!(matches!(app.focus, Focus::Files));

    // Should not panic or change meaningful state.
    cancel_active_state(&mut app);
    assert!(matches!(app.focus, Focus::Files));
    assert!(matches!(app.input.mode, InputMode::Off));
    assert!(!app.confirming_delete);
}

#[test]
fn control_c_and_escape_do_the_same() {
    let mut first = app_at("/r", Vec::new());
    first.open_help();
    assert_eq!(first.press(Key::Char('c'), CONTROL, 0), Step::Redraw);
    assert!(!first.show_help);
    let mut second = app_at("/r", Vec::new());
    second.open_help();
    second.press(Key::Esc, NONE, 0);
    assert!(!second.show_help);
}

#[test]
fn nothing_goes_to_the_trash_unasked() {
    let mut app = app_at("/r", vec![file("/r", "file.txt", 1)]);
    app.out.take_requests();
    app.press(Key::Char('d'), NONE, 0);
    assert!(app.out.take_requests().is_empty());
    app.press(Key::Char('y'), NONE, 0);
    let asked = app.out.take_requests();
    assert!(matches!(&asked[0], Request::Trash { path } if path == "/r/file.txt"));

    app.known.cache.record("/r/file.txt", line(1, 1, 0, 1, false));
    app.trash_result(Ok(()));
    assert!(app.known.cache.get("/r/file.txt").is_none());
}

#[test]
fn marked_files_go_together() {
    let mut app = app_at("/r", vec![file("/r", "a", 1), file("/r", "b", 2), file("/r", "c", 3)]);
    app.mark_all_visible();
    app.request_delete();
    assert!(matches!(app.pending_delete, Some(DeleteTarget::Batch)));
    app.out.take_requests();
    app.confirm_delete();
    match &app.out.take_requests()[0] {
        Request::TrashAll { paths } => assert_eq!(paths.len(), 3),
        other => panic!("all are moved together, not {other:?}"),
    }
}

#[test]
fn letters_are_text_while_a_name_is_typed() {
    let mut app = app_at("/r", vec![file("/r", "a", 1)]);
    app.press(Key::Char('n'), NONE, 0);
    assert_eq!(app.input.mode, InputMode::Mkdir);
    for c in "qd".chars() {
        assert_eq!(app.press(Key::Char(c), NONE, 0), Step::Redraw);
    }
    assert_eq!(app.input.buffer, "qd");
    app.out.take_requests();
    app.press(Key::Enter, NONE, 0);
    assert!(matches!(
        &app.out.take_requests()[0],
        Request::CreateDir { path, name } if path == "/r/qd" && name == "qd"
    ));
}

#[test]
fn quitting_is_a_key_too() {
    let mut app = app_at("/r", Vec::new());
    assert_eq!(app.press(Key::Char('q'), NONE, 0), Step::Quit);
    assert_eq!(app.press(Key::Char('q'), CONTROL, 0), Step::Nothing);
    assert_eq!(app.command_for(Key::Char('?'), NONE), Command::OpenHelp);
    app.open_help();
    assert_eq!(app.press(Key::Char('q'), NONE, 0), Step::Redraw);
}

#[test]
fn scans_report_to_the_current_listing() {
    let mut app = app_at("/r", vec![dir("/r", "d")]);
    let scan_id = app.files.active_scan_id;
    let sized = |scan_id| ScanMsg::DirSize {
        scan_id,
        path: "/r/d".to_string(),
        size: SizeInfo::new(5, 6),
        inaccessible: 1,
        skipped_mounts: 2,
    };
    assert!(!app.scan_message(sized(scan_id + 1), 77, 77_000));
    assert!(app.files.entries[0].size.is_none());
    assert!(app.scan_message(sized(scan_id), 77, 77_000));
    assert_eq!(app.files.entries[0].size, Some(SizeInfo::new(5, 6)));
    assert_eq!(app.known.cache.get("/r/d").unwrap().scanned_at, 77);
    assert_eq!(app.poll_millis(), 50);
    assert!(app.scan_message(ScanMsg::AllDone { scan_id }, 78, 78_000));
    assert_eq!(app.files.last_sort, 78_000);
    assert_eq!(app.out.status, "scan complete");
    assert_eq!(app.poll_millis(), 1000);
}

#[test]
fn baselines_of_another_scan_are_not_saved() {
    let mut app = app_at("/r", Vec::new());
    app.save_history_baseline();
    let id = app.history.scan_id;
    let record = ScanRecord {
        path: "/r".to_string(),
        timestamp: 1,
        children: vec![ChildSize {
            name: "x".to_string(),
            is_dir: false,
            size: SizeInfo::new(1, 1),
        }],
        inaccessible: 0,
    };
    assert!(!app.baseline_scanned(id + 1, &record));
    assert!(app.baseline_scanned(id, &record));
}

#[test]
fn rejects_paths_with_null_bytes() {
    assert!(delete_to_trash("/tmp/diskr\0bad", TrashAttempt::Moved).is_err());
    assert!(delete_to_trash("/tmp/diskr", TrashAttempt::Moved).is_ok());
    assert_eq!(
        delete_to_trash("/tmp/x", TrashAttempt::Failed("busy".to_string())),
        Err("move to Trash failed: busy".to_string())
    );
    for attempt in [TrashAttempt::NoString, TrashAttempt::NoUrl, TrashAttempt::NoManager] {
        assert!(delete_to_trash("/tmp/x", attempt).unwrap_err().starts_with("could not"));
    }
}

#[test]
fn actions_are_handed_to_other_programs() {
    let mut app = app_at("/r", vec![file("/r", "a.txt", 1)]);
    app.out.take_requests();
    app.launch_external_action(ExternalAction::QuickLook);
    match app.out.take_requests().pop() {
        Some(Request::Launch { action, path, done, failed }) => {
            assert_eq!(action, ExternalAction::QuickLook);
            assert_eq!(path, "/r/a.txt");
            app.launch_result(Err("gone".to_string()), &done, &failed);
            assert!(app.out.status.contains("gone"));
        }
        other => panic!("a launch is asked for, not {other:?}"),
    }
}

#[test]
fn help_lies_on_top_of_all() {
    let mut app = app_at("/r", vec![file("/r", "a", 1)]);
    app.request_delete();
    app.open_help();
    assert_eq!(overlays(&app), vec![Overlay::ConfirmDelete, Overlay::Help]);
    let screen = Area { x: 0, y: 0, width: 120, height: 40 };
    assert_eq!(overlay_area(Overlay::Help, screen), Area { x: 10, y: 4, width: 100, height: 32 });
}
