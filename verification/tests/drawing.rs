//! What the panes and the dialogs say.

use diskr::app::App;
use diskr::browser::{DirEntry, FileKind};
use diskr::bulkstat::{DirScan, LargeFile, SizeInfo};
use diskr::columns::file_columns;
use diskr::filesview::draw_files;
use diskr::fsevents::Freshness;
use diskr::history::{ChildSize, DiffReport, ScanRecord};
use diskr::keymap::Focus;
use diskr::layout::{lay_out, split_columns, split_rows, Part};
use diskr::listview::{draw_file_info, draw_reclaim_panel, draw_reclaim_paths, draw_top_files, FileInfo};
use diskr::manifests::ProjectDeps;
use diskr::modals::DiskInfo;
use diskr::modalview::{
    draw_confirm, draw_disk_info_modal, draw_empty_trash_confirm, draw_input_overlay,
    draw_pkg_detail, draw_project_dep_detail, draw_uninstall_confirm,
};
use diskr::packages::{DepGraph, DepInfo, Manager, ManagerReport, Package};
use diskr::pkgpane::{PackageScan, PkgView};
use diskr::reclaim::{Finding, ReclaimReport, Reclaimability};
use diskr::screen::{Area, Color, Line, Lines};
use diskr::sideview::{draw_disks, draw_packages};
use diskr::space::{ApfsContainer, SnapshotListing, SpaceReport};
use diskr::state::CachedSize;
use diskr::statusview::{draw_header, draw_legend, draw_status, selection_status};

fn text(line: &Line) -> String {
    line.spans.iter().map(|span| span.text.as_str()).collect()
}

fn texts(lines: &Lines) -> Vec<String> {
    lines.lines.iter().map(text).collect()
}

fn listed(name: &str, kind: FileKind, len: u64) -> DirEntry {
    DirEntry {
        name: name.to_string(),
        path: format!("/r/{name}"),
        kind,
        len,
        blocks: len.div_ceil(512),
        modified: None,
    }
}

fn app_with(saved: Vec<CachedSize>, listing: Vec<DirEntry>) -> App {
    let mut app = App::new("/r", Ok(saved), &Freshness::All, None, 0);
    app.out.take_requests();
    app.dir_read(Ok(listing), None, 0, None, 0);
    app.out.take_requests();
    app.out.status.clear();
    app
}

fn disk(name: &str, mount: &str, total: u64, available: u64) -> DiskInfo {
    DiskInfo {
        name: name.to_string(),
        mount: mount.to_string(),
        total,
        available,
    }
}

fn finding(label: &str, bytes: u64, paths: &[&str]) -> Finding {
    Finding {
        label: label.to_string(),
        class: Reclaimability::Safe,
        note: "Rebuilt.".to_string(),
        size: SizeInfo::new(bytes, bytes),
        inaccessible: 0,
        skipped_mounts: 0,
        count: paths.len(),
        paths: paths.iter().map(|p| p.to_string()).collect(),
        rollup: false,
    }
}

fn with_report(app: &mut App, findings: Vec<Finding>) {
    app.request_reclaim_scan();
    let scan_id = app.reclaim.active_scan_id;
    let report = ReclaimReport {
        root: "/r".to_string(),
        findings,
        total: SizeInfo::new(2048, 2048),
        inaccessible: 0,
        skipped_mounts: 0,
    };
    assert!(app
        .reclaim
        .reclaim_scanned(scan_id, "/r".to_string(), report, "/r", &mut app.out));
}

fn package(name: &str, bytes: u64) -> Package {
    Package {
        name: name.to_string(),
        version: "1.0".to_string(),
        size: Some(SizeInfo::new(bytes, bytes)),
        path: Some(format!("/opt/{name}")),
        metadata_path: None,
    }
}

fn with_packages(app: &mut App) {
    app.open_packages();
    let scan_id = app.pkgs.active_scan_id;
    let scan = PackageScan {
        scan_id,
        cwd: "/r".to_string(),
        reports: vec![ManagerReport {
            manager: Manager::Brew,
            packages: vec![package("curl", 1024), package("wget", 4096)],
            total_size: SizeInfo::new(5120, 5120),
            available: true,
            warning: None,
        }],
        project_deps: vec![ProjectDeps {
            path: "/r/p".to_string(),
            manager_label: "cargo".to_string(),
            manifest: "Cargo.toml".to_string(),
            dep_count: 3,
            deps_size: Some(SizeInfo::new(1024, 2048)),
            deps_dir: Some("/r/p/target".to_string()),
        }],
        include_managers: true,
    };
    assert!(app.pkgs.packages_scanned(scan, "/r", &mut app.out));
    let mut graph = DepGraph::new();
    graph.set(Manager::Brew, "curl", DepInfo::known(Vec::new(), vec!["wget".to_string()]));
    graph.set(Manager::Brew, "wget", DepInfo::known(vec!["curl".to_string()], Vec::new()));
    app.pkgs.deps_scanned(graph, &mut app.out);
    app.out.take_requests();
    app.out.status.clear();
}

#[test]
fn the_header_tells_what_is_unusual() {
    let mut app = app_with(Vec::new(), Vec::new());
    assert_eq!(text(&draw_header(&app, 80, 0, false)), "diskr · /r");
    app.files.show_hidden = true;
    let record = ScanRecord {
        path: "/r".to_string(),
        timestamp: 100,
        children: vec![ChildSize {
            name: "x".to_string(),
            is_dir: false,
            size: SizeInfo::new(1, 1),
        }],
        inaccessible: 0,
    };
    let diff = DiffReport {
        path: "/r".to_string(),
        baseline_timestamp: 100,
        current_timestamp: 160,
        before_total: SizeInfo::new(1, 1),
        after_total: SizeInfo::new(1025, 1025),
        changes: Vec::new(),
        baseline_inaccessible: 0,
        current_inaccessible: 0,
    };
    app.history_read("/r", Some(record), Some(diff));
    let line = text(&draw_header(&app, 80, 160, true));
    assert!(line.starts_with("diskr · /r · hidden on · baseline saved "));
    assert!(line.contains(" · +1.0 KiB in "));
    assert!(line.ends_with(" · limited access (no Full Disk Access)"));
    // The path gives way to the rest of the line.
    assert_eq!(text(&draw_header(&app_with(Vec::new(), Vec::new()), 31, 0, false)), "diskr · …");
}

#[test]
fn files_are_listed_with_their_sizes() {
    let mut app = app_with(
        Vec::new(),
        vec![
            listed("a.txt", FileKind::File, 2048),
            listed("link", FileKind::Symlink, 0),
            listed("socket", FileKind::Other, 0),
        ],
    );
    assert_eq!(app.show_files(10), (0, 3));
    let times = vec!["1d".to_string(), "2d".to_string(), "?".to_string()];
    let pane = draw_files(&app, 42, &times, None, 0);
    assert_eq!(pane.title, "files · 3 items · 2.0 KiB · 2/3 sized · sort size ↓");
    assert_eq!(pane.border, Color::Yellow);
    assert!(pane.message.is_none());
    let (name, size, modified, bar) = file_columns(40, false);
    assert_eq!((modified, bar), (0, 0));
    let row = |icon: &str, label: &str, bytes: &str| format!("{icon}{label:<name$}  {bytes:>size$}");
    assert_eq!(
        texts(&pane.rows),
        vec![row("  ", "a.txt", "2.0 KiB"), row("↪ ", "link", "0 B"), row("  ", "socket", "?")]
    );
    app.toggle_mark();
    let marked = draw_files(&app, 42, &times, None, 0);
    assert!(marked.title.ends_with(" · 1 marked 2.0 KiB"));
    assert!(text(&marked.rows.lines[0]).starts_with("✓ a.txt"));
    assert_eq!(marked.rows.lines[0].spans[0].style.color, Some(Color::Green));
}

#[test]
fn an_empty_listing_says_so() {
    let mut app = app_with(Vec::new(), Vec::new());
    app.show_files(10);
    let pane = draw_files(&app, 40, &Vec::new(), None, 0);
    assert_eq!(pane.title, "files · 0 items");
    assert_eq!(pane.message.as_deref(), Some("empty directory"));
    let mut searched = app_with(Vec::new(), vec![listed("a", FileKind::File, 1)]);
    searched.enter_search();
    searched.search_push('z');
    searched.show_files(10);
    let pane = draw_files(&searched, 40, &Vec::new(), None, 0);
    assert_eq!(pane.message.as_deref(), Some("no matching entries"));
}

#[test]
fn rows_tell_what_can_be_reclaimed() {
    let mut app = app_with(Vec::new(), vec![listed("node_modules", FileKind::Directory, 0)]);
    app.show_files(10);
    let pane = draw_files(&app, 60, &vec![String::new()], Some("/home/me"), 0);
    assert!(text(&pane.rows.lines[0]).ends_with(" [build]"));
    assert!(text(&pane.rows.lines[0]).starts_with("▸ node_modules"));
}

#[test]
fn the_status_tells_of_the_selection() {
    let mut app = app_with(
        vec![CachedSize {
            path: "/r/d".to_string(),
            size: SizeInfo::new(1024, 2048),
            inaccessible: 2,
            scanned_at: 100,
        }],
        vec![listed("d", FileKind::Directory, 0), listed("f", FileKind::File, 700)],
    );
    app.files.selected = 0;
    assert_eq!(app.files.entries[0].name, "d");
    app.files.entries[0].scanning = false;
    assert_eq!(
        text(&selection_status(&app, 0, 160, "3d")),
        "dir d · ~2.0 KiB disk · 1.0 KiB apparent · cached 1m ago; press r to refresh · 2 unreadable dirs; size is a lower bound · 3d"
    );
    app.files.selected = 1;
    assert_eq!(
        text(&selection_status(&app, 0, 160, "3d")),
        "file f · 1.0 KiB disk · 700 B apparent · 3d"
    );
    app.out.say("saved");
    assert_eq!(
        text(&draw_status(&app, 0, 160, "3d")),
        "file f · 1.0 KiB disk · 700 B apparent · 3d · saved"
    );
    app.enter_search();
    app.search_push('f');
    assert_eq!(
        text(&draw_status(&app, 0, 0, "")),
        "search /f · 1 matches · Enter keep · Esc clear"
    );
    app.keep_search();
    assert_eq!(
        text(&draw_status(&app, 0, 0, "")),
        "filter /f · 1 matches · / edit · Esc clear"
    );
}

#[test]
fn disks_are_shown_narrow_or_with_bars() {
    let mut app = app_with(Vec::new(), Vec::new());
    let none = draw_disks(&app, 30, 10, false);
    assert_eq!(none.title, "disks (0)");
    assert_eq!(none.message.as_deref(), Some("no disks detected"));
    app.refresh_disks(vec![
        disk("/dev/disk1", "/", 1000, 400),
        disk("", "/Volumes/Backup", 1000, 50),
    ]);
    let narrow = draw_disks(&app, 40, 10, false);
    assert_eq!(
        texts(&narrow.lines),
        vec!["  Root volume  60%  400 B free", "  Backup  95%  50 B free"]
    );
    assert_eq!(narrow.lines.lines[1].spans[0].style.color, Some(Color::Red));
    app.set_focus(Focus::Disks);
    assert!(app.side_expanded());
    app.show_disks(60, 12, true);
    assert_eq!(app.disks.page_rows, 2);
    let wide = draw_disks(&app, 60, 12, true);
    assert_eq!(wide.border, Color::Yellow);
    assert_eq!(wide.gauges.len(), 2);
    assert_eq!(wide.gauges[0].label, "> Root volume  / (/dev/disk1)  600 B / 1000 B");
    assert_eq!((wide.gauges[0].percent, wide.gauges[0].bold), (60, true));
    assert_eq!(wide.gauges[1].label, "Backup  /Volumes/Backup  950 B / 1000 B");
    assert_eq!((wide.gauges[1].percent, wide.gauges[1].color), (95, Color::Red));
    assert_eq!(
        text(&selection_status(&app, 0, 0, "")),
        "disk Root volume  / (/dev/disk1) · 400 B free of 1000 B"
    );
}

#[test]
fn packages_are_listed_the_largest_first() {
    let mut app = app_with(Vec::new(), Vec::new());
    assert!(!app.packages_visible());
    let idle = draw_packages(&app, 60, 10, 0, 0);
    assert_eq!(texts(&idle.notes), vec!["press p to scan packages"]);
    with_packages(&mut app);
    assert!(app.packages_visible());
    let view = draw_packages(&app, 60, 10, 0, 0);
    assert_eq!(text(&view.title), " packages ─[ System ]─ Projects  · 5.0 KiB");
    assert!(view.notes.lines.is_empty());
    assert!(text(&view.rows.lines[0]).contains("wget"));
    assert!(text(&view.rows.lines[0]).ends_with("4.0 KiB"));
    assert!(text(&view.rows.lines[1]).contains("curl"));
    assert_eq!(view.selected, 0);
    assert_eq!(text(&selection_status(&app, 0, 0, "")), "brew package wget · 4.0 KiB");
    app.toggle_pkg_view();
    let projects = draw_packages(&app, 60, 10, 0, 0);
    assert_eq!(text(&projects.title), " packages ─ System ─[ Projects ] · 2.0 KiB");
    assert!(text(&projects.rows.lines[0]).contains("cargo · 3 deps · /r/p"));
    assert_eq!(
        text(&selection_status(&app, 0, 0, "")),
        "cargo project · 3 deps · 2.0 KiB disk · 1.0 KiB apparent"
    );
}

#[test]
fn the_details_of_a_package_name_its_dependents() {
    let mut app = app_with(Vec::new(), Vec::new());
    assert!(draw_pkg_detail(&app.pkgs, 60, 0).is_none());
    with_packages(&mut app);
    app.pkgs.selected = 1;
    assert_eq!(
        texts(&draw_pkg_detail(&app.pkgs, 60, 0).unwrap()),
        vec![
            "",
            "brew curl@1.0",
            "  Size: 1.0 KiB",
            "  Path: /opt/curl",
            "",
            "  Dependencies (0): none",
            "  Used by (1): wget",
            "",
            "  x uninstall  ·  d trash dir  ·  Esc close",
        ]
    );
    app.toggle_pkg_view();
    assert_eq!(app.pkgs.view, PkgView::ProjectDeps);
    assert_eq!(
        texts(&draw_project_dep_detail(&app.pkgs, 60).unwrap()),
        vec![
            "",
            "cargo /r/p",
            "  Manifest: Cargo.toml",
            "  Dependencies: 3",
            "  Deps size: 2.0 KiB disk · 1.0 KiB apparent",
            "  Deps dir: /r/p/target",
            "",
            "  d trash deps dir  ·  Esc close",
        ]
    );
}

#[test]
fn findings_are_listed_with_their_class() {
    let mut app = app_with(Vec::new(), Vec::new());
    let idle = draw_reclaim_panel(&app.reclaim, 80, 0);
    assert_eq!(idle.title, " reclaim ");
    assert_eq!(texts(&idle.notes), vec!["press R to scan reclaim recommendations"]);
    let mut partial = finding("User caches", 2048, &["/r/Library/Caches"]);
    partial.inaccessible = 1;
    partial.skipped_mounts = 2;
    partial.rollup = true;
    with_report(&mut app, vec![partial, finding("Trash", 1024, &["/r/.Trash", "/r/b"])]);
    let view = draw_reclaim_panel(&app.reclaim, 80, 0);
    assert_eq!(view.title, " reclaim 2 findings · 2.0 KiB ");
    assert_eq!(
        texts(&view.rows),
        vec![
            "      ≥2.0 KiB *        safe  User caches [subtotal]",
            "        1.0 KiB         safe  Trash",
        ]
    );
    assert_eq!(
        texts(&view.detail),
        vec![
            "",
            "2.0 KiB · 1 paths",
            "Rebuilt.",
            "1 unreadable directories; size is a lower bound",
            "2 mounted volumes on other devices skipped",
            "",
            "enter: open paths  ·  d: delete path  ·  esc: close paths",
        ]
    );
    app.set_focus(Focus::Reclaim);
    app.reclaim.selected = 1;
    app.open_selected_reclaim_paths();
    let (from, to) = app.reclaim_paths_window_bounds(5);
    assert_eq!((from, to), (0, 2));
    let paths = draw_reclaim_paths(&app.reclaim, from, to, 60);
    assert_eq!(paths.title, " reclaim paths ");
    assert_eq!(texts(&paths.rows), vec![" 1. /r/.Trash  (current)", " 2. /r/b"]);
    assert_eq!(
        texts(&paths.footer),
        vec![
            "Trash (safe) · 2  ·  1-2 of 2",
            "f/enter: reveal  ·  O: open  ·  d: trash  ·  esc: close",
        ]
    );
    assert_eq!(texts(&draw_empty_trash_confirm(&app.reclaim))[1], "Empty Trash (~1.0 KiB)?");
    assert_eq!(texts(&draw_empty_trash_confirm(&app.reclaim))[2], "/r/.Trash");
}

#[test]
fn the_largest_files_are_numbered() {
    let mut app = app_with(Vec::new(), Vec::new());
    app.open_top_files_for_path("/r");
    assert!(app.top_files_open() && app.top_files_loading());
    let waiting = draw_top_files(&app.top, 0, 0, 60, 0);
    assert_eq!(texts(&waiting.notes)[2], "path: /r");
    let scan = DirScan {
        size: SizeInfo::new(3072, 3072),
        largest_files: vec![
            LargeFile { path: "/r/big".to_string(), size: SizeInfo::new(2048, 2048) },
            LargeFile { path: "/r/small".to_string(), size: SizeInfo::new(512, 1024) },
        ],
        inaccessible: 0,
        skipped_mounts: 0,
    };
    let scan_id = app.top.scan_id;
    assert!(app.top.top_files_scanned(scan_id, "/r".to_string(), scan, &mut app.out));
    let (from, to) = app.top_files_window_bounds(1);
    assert_eq!((from, to), (0, 1));
    let view = draw_top_files(&app.top, from, to, 60, 0);
    assert_eq!(view.title, " top files · /r ");
    assert_eq!(texts(&view.rows), vec![format!(" 1. /r/big  {:>20}", "2.0 KiB")]);
    assert_eq!(texts(&view.footer)[0], "total: 3.0 KiB · 1-1 of 2");
    app.set_top_files_selected(9);
    assert_eq!(app.top_files_selected(), 1);
    assert_eq!(app.selected_top_file_path().as_deref(), Some("/r/small"));
    assert_eq!(app.top_files_window_bounds(1), (1, 2));
    let view = draw_top_files(&app.top, 1, 2, 60, 0);
    assert_eq!(texts(&view.rows), vec![format!(" 2. /r/small  {:>20}", "1.0 KiB / 512 B")]);
}

#[test]
fn the_details_of_a_disk_are_those_of_the_report() {
    let mut app = app_with(Vec::new(), Vec::new());
    assert_eq!(texts(&draw_disk_info_modal(&app.disks, 60, 0)), vec!["no disk details available"]);
    app.refresh_disks(vec![disk("d", "/", 4096, 1024)]);
    app.request_disk_info_for_selected_disk();
    assert!(app.disk_info_open() && app.disk_info_loading());
    let report = SpaceReport {
        path: "/".to_string(),
        mount: "/".to_string(),
        device: "/dev/disk3".to_string(),
        fs_type: "apfs".to_string(),
        total: 4096,
        used: 1024,
        free: 3072,
        available: 2048,
        local_snapshots: SnapshotListing { names: vec!["s1".to_string()], error: None },
        apfs_container: Some(ApfsContainer {
            reference: "disk3".to_string(),
            size: 8192,
            free: 3072,
        }),
    };
    let scan_id = app.disks.info_id;
    assert!(app.disks.disk_info_scanned(scan_id, Ok(report), &mut app.out));
    assert_eq!(
        texts(&draw_disk_info_modal(&app.disks, 60, 0)),
        vec![
            "",
            "mount /  (apfs, /dev/disk3)",
            "",
            "total 4.0 KiB",
            "used 1.0 KiB",
            "free 3.0 KiB  (available: 2.0 KiB)",
            "free-not-available 1.0 KiB",
            "",
            "apfs container 3.0 KiB free of 8.0 KiB",
            "snapshots: 1",
            "s1",
            "",
            "esc closes this panel",
        ]
    );
}

#[test]
fn the_details_of_a_file_are_complete() {
    let info = FileInfo {
        name: "f".to_string(),
        kind: "file".to_string(),
        path: "/r/f".to_string(),
        size: Some(SizeInfo::new(1024, 512)),
        size_stale: false,
        direct_items: None,
        inaccessible: 0,
        created: "c".to_string(),
        modified: "m".to_string(),
        accessed: "a".to_string(),
        owner: "me".to_string(),
        group: "staff".to_string(),
        permissions_octal: "0644".to_string(),
        permissions_symbolic: "rw-r--r--".to_string(),
        hard_links: 1,
        xattr_count: Some(2),
        has_quarantine_xattr: true,
    };
    assert_eq!(
        texts(&draw_file_info(&info, 80)),
        vec![
            "",
            "f · file",
            "  Path: /r/f",
            "  Size: 512 B disk · 1.0 KiB apparent",
            "  Apparent and allocated size differ; APFS clones, sparse files, or compression can make allocated smaller.",
            "",
            "  Created: c",
            "  Modified: m",
            "  Accessed: a",
            "  Owner: me:staff",
            "  Permissions: 0644 (rw-r--r--)",
            "  Hard links: 1",
            "  Extended attrs: 2 (includes com.apple.quarantine)",
            "",
            "  Space Quick Look  ·  f Finder  ·  O open  ·  d trash  ·  Esc close",
        ]
    );
    let dir = FileInfo {
        kind: "directory".to_string(),
        size: None,
        direct_items: Some(3),
        inaccessible: 2,
        xattr_count: None,
        has_quarantine_xattr: false,
        ..info
    };
    let lines = texts(&draw_file_info(&dir, 80));
    assert_eq!(lines[3], "  Recursive size: not scanned yet");
    assert_eq!(lines[4], "  Items: 3 direct children");
    assert_eq!(
        lines[5],
        "  2 unreadable directories were skipped; recursive size is a lower bound."
    );
    assert!(lines.contains(&"  Extended attrs: unavailable".to_string()));
}

#[test]
fn questions_name_what_they_are_about() {
    let mut app = app_with(
        Vec::new(),
        vec![listed("a", FileKind::File, 1), listed("b", FileKind::File, 1)],
    );
    app.files.selected = 0;
    let name = app.files.entries[0].name.clone();
    app.request_delete();
    assert_eq!(
        texts(&draw_confirm(&app)),
        vec![
            "".to_string(),
            format!("Move to Trash: {name}"),
            "".to_string(),
            "press  y  to confirm   ·   n  to cancel".to_string(),
        ]
    );
    app.cancel_delete();
    app.request_rename();
    assert_eq!(app.input.prompt, "Rename:");
    assert_eq!(texts(&draw_input_overlay(&app)), vec!["".to_string(), format!("{name}▏")]);
    app.exit_input_mode();
    with_packages(&mut app);
    app.request_uninstall();
    assert_eq!(app.pending_uninstall_name(), "brew wget");
    assert_eq!(texts(&draw_uninstall_confirm(&app.pkgs))[1], "Uninstall: brew wget");
}

#[test]
fn the_legend_explains_the_markers() {
    assert_eq!(
        text(&draw_legend()),
        "markers  ~ cached  ≥ lower bound  * mounts skipped  ↑↓ grew/shrank"
    );
}

#[test]
fn shares_are_rounded_and_fill_the_area() {
    for (first, second) in [(62u16, 38u16), (74, 26), (50, 50), (0, 100), (100, 0)] {
        for width in (0u16..=420).chain([1000, 12_345, 32_767, 60_000, 65_000]) {
            for x in [0u16, 7, 500] {
                let area = Area { x, y: 3, width, height: 4 };
                let (a, b) = split_columns(Part::Percent(first), Part::Percent(second), area);
                let share = ((u32::from(width) * u32::from(first) + 50) / 100) as u16;
                assert_eq!((a.x, a.width), (x, share));
                assert_eq!((b.x, b.width), (x + share, width - share));
                let tall = Area { x: 3, y: x, width: 4, height: width };
                let (a, b) = split_rows(Part::Percent(first), Part::Percent(second), tall);
                assert_eq!((a.y, a.height, b.y, b.height), (x, share, x + share, width - share));
            }
        }
    }
}

#[test]
fn the_side_column_grows_when_it_is_looked_at() {
    let area = Area { x: 0, y: 0, width: 100, height: 30 };
    let files = lay_out(area, Focus::Files, false, 2);
    assert_eq!((files.files.width, files.disks.x, files.disks.width), (74, 74, 26));
    let disks = lay_out(area, Focus::Disks, false, 2);
    assert_eq!((disks.files.width, disks.disks.x, disks.packages.width), (62, 62, 38));
    let packages = lay_out(area, Focus::Files, true, 2);
    assert_eq!((packages.files.width, packages.packages.x), (62, 62));
}
