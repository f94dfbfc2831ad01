//! The command line and its reports.

use diskr::bulkstat::{DirScan, LargeFile, SizeInfo};
use diskr::cli::{parse_args, parse_top_limit, CliAction, CliError};
use diskr::history::{diff_records, validate_dir, ChildChange, ChildSize, ScanRecord};
use diskr::manifests::ProjectDeps;
use diskr::packages::{Manager, ManagerReport, Package};
use diskr::reclaim::{Finding, ReclaimReport, Reclaimability};
use diskr::reportjson::{
    diff_to_json, json_text, packages_to_json, reclaim_to_json, save_to_json, space_to_json,
    top_to_json,
};
use diskr::reports::{
    canonical_dir, change_status, diff_report, format_signed_bytes, help_page, packages_report,
    reclaim_report, reclaim_size_label, save_report, space_report, thin_preview, thin_report,
    top_report, top_size_label,
};
use diskr::space::{ApfsContainer, SnapshotListing, SpaceReport, ThinResult};

fn parse(parts: &[&str]) -> Result<CliAction, CliError> {
    let args: Vec<String> = parts.iter().map(|p| p.to_string()).collect();
    parse_args(&args, "/Users/me")
}

fn problem(parts: &[&str]) -> String {
    parse(parts).err().unwrap().message()
}

#[test]
fn defaults_to_home_without_args() {
    assert!(matches!(parse(&[]).unwrap(), CliAction::Run(path) if path == "/Users/me"));
}

#[test]
fn accepts_one_path() {
    let action = parse(&["/tmp"]).unwrap();
    assert!(matches!(action, CliAction::Run(path) if path == "/tmp"));
}

#[test]
fn accepts_dash_prefixed_path_after_separator() {
    let action = parse(&["--", "-cache"]).unwrap();
    assert!(matches!(action, CliAction::Run(path) if path == "-cache"));
}

#[test]
fn parses_top_report() {
    let action = parse(&["--top", "20", "--json", "/tmp"]).unwrap();
    assert!(matches!(
        action,
        CliAction::Top { path, limit: 20, json: true } if path == "/tmp"
    ));
}

#[test]
fn parses_top_equals_report_with_default_path() {
    let action = parse(&["--top=5"]).unwrap();
    assert!(matches!(action, CliAction::Top { limit: 5, json: false, .. }));
}

#[test]
fn parses_save_baseline() {
    let action = parse(&["--save", "/tmp"]).unwrap();
    assert!(matches!(action, CliAction::Save { path, json: false } if path == "/tmp"));
}

#[test]
fn parses_diff_report() {
    let action = parse(&["--diff", "--json", "/tmp"]).unwrap();
    assert!(matches!(action, CliAction::Diff { path, json: true } if path == "/tmp"));
}

#[test]
fn parses_space_report() {
    let action = parse(&["--space", "--json", "/tmp"]).unwrap();
    assert!(matches!(action, CliAction::Space { path, json: true } if path == "/tmp"));
}

#[test]
fn parses_packages_report() {
    let action = parse(&["--packages", "--json", "/tmp"]).unwrap();
    assert!(matches!(action, CliAction::Packages { path, json: true } if path == "/tmp"));
}

#[test]
fn parses_reclaim_report() {
    let action = parse(&["--reclaim", "--json", "/tmp"]).unwrap();
    assert!(matches!(action, CliAction::Reclaim { path, json: true } if path == "/tmp"));
}

#[test]
fn parses_snapshot_thin_dry_run() {
    let action = parse(&["--thin-snapshots", "1.5G", "/tmp"]).unwrap();
    assert!(matches!(
        action,
        CliAction::ThinSnapshots { path, bytes: 1_610_612_736, confirmed: false } if path == "/tmp"
    ));
}

#[test]
fn parses_snapshot_thin_confirmation() {
    let action = parse(&["--thin-snapshots=2G", "--yes"]).unwrap();
    assert!(matches!(
        action,
        CliAction::ThinSnapshots { bytes: 2_147_483_648, confirmed: true, .. }
    ));
}

#[test]
fn top_rejects_zero_limit() {
    assert!(problem(&["--top", "0"]).contains("--top must be greater than zero"));
}

#[test]
fn json_requires_top_report() {
    assert!(problem(&["--json"])
        .contains("--json requires --top, --reclaim, --save, --diff, --space, or --packages"));
}

#[test]
fn yes_requires_snapshot_thinning() {
    assert!(problem(&["--yes"]).contains("--yes requires --thin-snapshots"));
}

#[test]
fn report_modes_are_mutually_exclusive() {
    assert!(problem(&["--top", "5", "--space"]).contains(
        "choose only one of --top, --reclaim, --save, --diff, --space, --packages, or --thin-snapshots"
    ));
}

#[test]
fn separator_requires_path() {
    assert!(problem(&["--"]).contains("usage: diskr [PATH]"));
}

#[test]
fn parses_help_and_version_flags() {
    assert!(matches!(parse(&["--help"]).unwrap(), CliAction::Help));
    assert!(matches!(parse(&["-h"]).unwrap(), CliAction::Help));
    assert!(matches!(parse(&["--version"]).unwrap(), CliAction::Version));
    assert!(matches!(parse(&["-V"]).unwrap(), CliAction::Version));
}

#[test]
fn rejects_extra_args() {
    assert!(parse(&["/tmp", "/var"]).is_err());
    assert!(parse(&["--", "/tmp", "/var"]).is_err());
}

#[test]
fn help_settles_the_rest() {
    assert!(matches!(parse(&["--json", "-h", "--top"]).unwrap(), CliAction::Help));
    // Behind the separator it is a path.
    assert!(matches!(parse(&["--", "--help"]).unwrap(), CliAction::Run(p) if p == "--help"));
}

#[test]
fn values_are_taken_whatever_they_look_like() {
    assert_eq!(problem(&["--top", "--json"]), "invalid --top value: --json");
    assert_eq!(problem(&["--top"]), "usage: diskr --top N [--json] [PATH]");
    assert_eq!(
        problem(&["--thin-snapshots"]),
        "usage: diskr --thin-snapshots SIZE [--yes] [PATH]"
    );
    assert_eq!(problem(&["--thin-snapshots", "12XB"]), "unknown size unit: XB");
    // A repeated prefix is stripped as often as it stands there.
    assert!(matches!(parse(&["--top=--top=7"]).unwrap(), CliAction::Top { limit: 7, .. }));
}

#[test]
fn top_limits_are_plain_numbers() {
    assert_eq!(parse_top_limit("+3").unwrap(), 3);
    assert_eq!(parse_top_limit("18446744073709551615").unwrap(), usize::MAX);
    assert!(matches!(
        parse_top_limit("18446744073709551616"),
        Err(CliError::InvalidTop(v)) if v == "18446744073709551616"
    ));
    assert!(matches!(parse_top_limit("-1"), Err(CliError::InvalidTop(_))));
    assert!(matches!(parse_top_limit(""), Err(CliError::InvalidTop(_))));
    assert!(matches!(parse_top_limit("0"), Err(CliError::ZeroTop)));
}

#[test]
fn problems_come_in_order() {
    // A report makes --json meaningful even where another option is missing.
    assert_eq!(problem(&["--yes", "--json"]), CliError::JsonAlone.message());
    assert_eq!(problem(&["--yes", "--save", "--json"]), CliError::YesAlone.message());
    assert_eq!(problem(&["--save", "--diff", "--"]), CliError::PathUsage.message());
    assert_eq!(problem(&["--save", "--diff"]), CliError::SeveralModes.message());
}

#[test]
fn canonical_dir_resolves_dotted_paths() {
    let resolved = canonical_dir("/root/dir/.", true, true, Ok("/root/dir".to_string()));
    assert_eq!(resolved, Ok("/root/dir".to_string()));
}

#[test]
fn reports_need_a_directory() {
    let gone = canonical_dir("/no", false, false, Err("not found".to_string()));
    assert_eq!(gone, Err("path does not exist: /no".to_string()));
    let file = canonical_dir("/a.txt", true, false, Ok("/a.txt".to_string()));
    assert_eq!(file, Err("path is not a directory: /a.txt".to_string()));
    let broken = canonical_dir("/a", true, true, Err("denied".to_string()));
    assert_eq!(broken, Err("resolve /a: denied".to_string()));
    assert_eq!(validate_dir("/a", true, true), Ok(()));
    assert_eq!(validate_dir("/a", true, false), Err("path is not a directory: /a".to_string()));
}

#[test]
fn change_status_uses_logical_delta_when_allocated_is_unchanged() {
    let shrank = ChildChange {
        name: String::from("logical-only"),
        before: Some(SizeInfo::new(200, 100)),
        after: Some(SizeInfo::new(120, 100)),
    };
    let grew = ChildChange {
        name: String::from("logical-only"),
        before: Some(SizeInfo::new(120, 100)),
        after: Some(SizeInfo::new(200, 100)),
    };

    assert_eq!(change_status(&shrank), "shrank");
    assert_eq!(change_status(&grew), "grew");
}

#[test]
fn changes_are_new_or_removed_first() {
    let size = Some(SizeInfo::new(1, 1));
    let new = ChildChange { name: "n".to_string(), before: None, after: size };
    let removed = ChildChange { name: "n".to_string(), before: size, after: None };
    assert_eq!(change_status(&new), "new");
    assert_eq!(change_status(&removed), "removed");
}

#[test]
fn signed_bytes_are_capped() {
    assert_eq!(format_signed_bytes(0), "+0 B");
    assert_eq!(format_signed_bytes(-2048), "-2.0 KiB");
    assert_eq!(format_signed_bytes(i128::MIN), format_signed_bytes(-(u64::MAX as i128)));
    assert_eq!(format_signed_bytes(i128::MAX), format_signed_bytes(u64::MAX as i128));
}

fn scan() -> DirScan {
    DirScan {
        size: SizeInfo::new(3000, 4096),
        largest_files: vec![
            LargeFile { path: "/r/a".to_string(), size: SizeInfo::new(2048, 2048) },
            LargeFile { path: "/r/b".to_string(), size: SizeInfo::new(952, 2048) },
        ],
        inaccessible: 2,
        skipped_mounts: 1,
    }
}

#[test]
fn top_report_lists_files_by_rank() {
    let page = top_report("/r", 20, &scan());
    assert_eq!(
        page.lines,
        vec![
            "Top 20 files by allocated size under /r",
            "Total: 4.0 KiB disk / 2.9 KiB apparent",
            "Warning: 2 directories were unreadable; totals are lower bounds.",
            "Note: skipped 1 mounted volumes on other devices.",
            " 1.                2.0 KiB  /r/a",
            " 2. 2.0 KiB disk / 952 B apparent  /r/b",
        ]
    );
    let none = top_report("/r", 3, &DirScan::default());
    assert_eq!(none.lines[2], "No regular files found.");
    assert_eq!(top_size_label(SizeInfo::new(1024, 1024)), "1.0 KiB");
}

#[test]
fn top_json_names_every_number() {
    let value = top_to_json("/r", 20, &scan());
    assert_eq!(value["path"], "/r");
    assert_eq!(value["limit"], 20);
    assert_eq!(value["total_logical"], 3000);
    assert_eq!(value["total_allocated"], 4096);
    assert_eq!(value["inaccessible"], 2);
    assert_eq!(value["skipped_mounts"], 1);
    assert_eq!(value["files"].as_array().unwrap().len(), 2);
    assert_eq!(value["files"][1]["logical"], 952);
    assert_eq!(value.as_object().unwrap().len(), 7);
}

#[test]
fn json_text_is_the_value_written_out() {
    let value = top_to_json("/r \"q\"", 1, &DirScan::default());
    let text = json_text(&value);
    assert_ne!(text, "/r \"q\"");
    let again: serde_json::Value = serde_json::from_str(&text).unwrap();
    assert_eq!(again, value);
    assert!(text.starts_with("{\n  \""));
}

fn finding(label: &str, rollup: bool, count: usize, inaccessible: u32) -> Finding {
    Finding {
        label: label.to_string(),
        class: Reclaimability::Safe,
        note: "a note".to_string(),
        size: SizeInfo::new(1024, 1024),
        inaccessible,
        skipped_mounts: 0,
        count,
        paths: vec!["/r/x".to_string(), "/r/y".to_string()],
        rollup,
    }
}

#[test]
fn reclaim_report_marks_subtotals_and_lower_bounds() {
    let report = ReclaimReport {
        root: "/r".to_string(),
        findings: vec![finding("caches", true, 1, 0), finding("node_modules", false, 2, 3)],
        total: SizeInfo::new(1024, 1024),
        inaccessible: 3,
        skipped_mounts: 0,
    };
    assert_eq!(
        reclaim_report(&report).lines,
        vec![
            "Reclaimable space under /r",
            "Total: 1.0 KiB disk / 1.0 KiB apparent",
            "Warning: 3 directories were unreadable; totals are lower bounds.",
            "               1.0 KiB  [   safe    ]  caches [subtotal]",
            "                          a note",
            "              ≥1.0 KiB  [   safe    ]  node_modules (x2)",
            "                          a note",
            "",
            "This is a report only; diskr does not delete anything here.",
        ]
    );
    assert_eq!(reclaim_size_label(&finding("c", false, 1, 1)), "≥1.0 KiB");
    let empty = ReclaimReport { findings: Vec::new(), root: "/r".to_string(), ..Default::default() };
    assert_eq!(
        reclaim_report(&empty).lines[2],
        "No known reclaimable caches or build artifacts found."
    );

    let value = reclaim_to_json(&report);
    assert_eq!(value["root"], "/r");
    assert_eq!(value["findings"][1]["count"], 2);
    assert_eq!(value["findings"][0]["rollup"], true);
    assert_eq!(value["findings"][0]["class"], "safe");
    assert_eq!(value["findings"][0]["paths"][1], "/r/y");
    assert_eq!(value["findings"][0].as_object().unwrap().len(), 10);
}

fn child(name: &str, bytes: u64) -> ChildSize {
    ChildSize { name: name.to_string(), is_dir: true, size: SizeInfo::new(bytes, bytes) }
}

fn record(timestamp: u64, inaccessible: u32, children: Vec<ChildSize>) -> ScanRecord {
    ScanRecord { path: "/r".to_string(), timestamp, children, inaccessible }
}

#[test]
fn saved_baselines_are_reported_with_their_limits() {
    let saved = record(7, 4, vec![child("a", 1024), child("b", 1024)]);
    assert_eq!(
        save_report(&saved).lines,
        vec![
            "Saved baseline for /r",
            "Total: 2.0 KiB disk / 2.0 KiB apparent across 2 entries",
            "Warning: 4 directories were unreadable; totals are lower bounds.",
            "Compare later with `diskr --diff /r`.",
        ]
    );
    let value = save_to_json(&saved);
    assert_eq!(value["timestamp"], 7);
    assert_eq!(value["total_allocated"], 2048);
    assert_eq!(value["inaccessible"], 4);
    assert_eq!(value["children"][1]["name"], "b");
}

#[test]
fn differences_are_reported_largest_first() {
    let before = record(100, 1, vec![child("same", 10), child("gone", 1024)]);
    let after = record(3760, 2, vec![child("same", 10), child("grown", 4096)]);
    let diff = diff_records(&before, &after);
    assert_eq!(
        diff_report(&diff).lines,
        vec![
            "Diff for /r",
            "Baseline captured 1h 1m ago",
            "Total: 1.0 KiB disk → 4.0 KiB disk  (+3.0 KiB)",
            "Warning: 1 directories were unreadable in the baseline; totals are lower bounds.",
            "Warning: 2 directories were unreadable in this scan; totals are lower bounds.",
            "    +4.0 KiB  new        grown",
            "    -1.0 KiB  removed    gone",
        ]
    );
    let value = diff_to_json(&diff);
    assert_eq!(value["changes"][0]["status"], "new");
    assert_eq!(value["changes"][0]["before_logical"], serde_json::Value::Null);
    assert_eq!(value["changes"][1]["delta_allocated"], "-1024");
    assert_eq!(value["total_delta_logical"], "3072");
    assert_eq!(value["baseline_inaccessible"], 1);
    assert_eq!(value["current_inaccessible"], 2);

    let same = diff_records(&before, &record(100, 0, vec![child("same", 10), child("gone", 1024)]));
    assert_eq!(diff_report(&same).lines.last().unwrap(), "No changes since the baseline.");
}

fn space(error: Option<&str>, names: Vec<&str>) -> SpaceReport {
    SpaceReport {
        path: "/r".to_string(),
        mount: "/".to_string(),
        device: "/dev/disk1".to_string(),
        fs_type: "apfs".to_string(),
        total: 4096,
        used: 1024,
        free: 3072,
        available: 2048,
        local_snapshots: SnapshotListing {
            names: names.iter().map(|n| n.to_string()).collect(),
            error: error.map(|e| e.to_string()),
        },
        apfs_container: Some(ApfsContainer { reference: "disk1".to_string(), size: 8192, free: 1024 }),
    }
}

#[test]
fn space_report_explains_the_gap() {
    let page = space_report(&space(None, vec!["one", "two"]));
    assert_eq!(
        page.lines,
        vec![
            "Space report for /r",
            "Mount: / (apfs, /dev/disk1)",
            "Total: 4.0 KiB",
            "Used: 1.0 KiB",
            "Free blocks: 3.0 KiB",
            "Available to user: 2.0 KiB",
            "Free but not user-available: 1.0 KiB",
            "APFS container disk1: 8.0 KiB total / 1.0 KiB free",
            "Local snapshots: 2",
            "  one",
            "  two",
            "Snapshot sizes are not reported by tmutil. To request reclamation, first preview with `diskr --thin-snapshots 10G /r`.",
        ]
    );
    let none = space_report(&space(Some(""), vec![]));
    assert_eq!(none.lines.last().unwrap(), "Local snapshots: none reported by tmutil");
    let failed = space_report(&space(Some("denied"), vec!["one"]));
    assert_eq!(failed.lines.last().unwrap(), "Local snapshots: unavailable (denied)");

    let value = space_to_json(&space(Some("denied"), vec!["one"]));
    assert_eq!(value["free_not_user_available"], 1024);
    assert_eq!(value["apfs_container"]["reference"], "disk1");
    assert_eq!(value["local_snapshots"][0]["name"], "one");
    assert_eq!(value["local_snapshot_error"], "denied");
    let plain = space_to_json(&SpaceReport { apfs_container: None, ..space(None, vec![]) });
    assert_eq!(plain["apfs_container"], serde_json::Value::Null);
    assert_eq!(plain["local_snapshot_error"], serde_json::Value::Null);
}

#[test]
fn thinning_is_shown_before_it_is_done() {
    assert_eq!(
        thin_preview("/", 2048).lines,
        vec![
            "Would run: tmutil thinlocalsnapshots / 2048 4",
            "Re-run with --yes to request 2.0 KiB of local snapshot reclamation.",
        ]
    );
    let result = ThinResult {
        path: "/".to_string(),
        requested_bytes: 2048,
        stdout: "thinned".to_string(),
        stderr: String::new(),
    };
    assert_eq!(
        thin_report(&result).lines,
        vec!["Requested 2.0 KiB of local snapshot reclamation for /.", "thinned"]
    );
}

fn package(name: &str, bytes: Option<u64>) -> Package {
    Package {
        name: name.to_string(),
        version: "1.0".to_string(),
        size: bytes.map(|b| SizeInfo::new(b, b)),
        path: None,
        metadata_path: None,
    }
}

fn manager(manager: Manager, available: bool, packages: Vec<Package>, warning: Option<&str>) -> ManagerReport {
    ManagerReport {
        manager,
        packages,
        total_size: SizeInfo::new(2048, 2048),
        available,
        warning: warning.map(|w| w.to_string()),
    }
}

#[test]
fn packages_report_lists_the_largest_ten() {
    let mut many: Vec<Package> = (0..11).map(|i| package(&format!("p{i}"), Some(1024))).collect();
    many.push(package("unknown", None));
    many.push(package("huge", Some(4096)));
    let reports = vec![
        manager(Manager::Brew, true, many, None),
        manager(Manager::Npm, false, vec![package("hidden", None)], None),
        manager(Manager::Pip, true, Vec::new(), Some("timed out")),
    ];
    let projects = vec![ProjectDeps {
        path: "/r/app".to_string(),
        manager_label: "npm".to_string(),
        manifest: "package.json".to_string(),
        dep_count: 3,
        deps_size: None,
        deps_dir: None,
    }];
    let lines = packages_report("/r", &reports, &projects).lines;
    assert_eq!(lines[0], "Package report");
    assert_eq!(lines[2], "brew: 13 packages · 2.0 KiB");
    assert_eq!(lines[3], "     4.0 KiB  huge 1.0");
    assert_eq!(lines[4], "     1.0 KiB  p0 1.0");
    assert_eq!(lines[12], "     1.0 KiB  p8 1.0");
    assert_eq!(lines[13], "  … and 3 more");
    assert_eq!(lines[15], "pip: timed out");
    assert_eq!(lines[17], "Project dependencies under /r");
    assert_eq!(lines[18], "           —  /r/app (npm, 3 deps)");
    assert_eq!(lines.len(), 19);

    let nothing = packages_report("/r", &Vec::new(), &Vec::new()).lines;
    assert_eq!(nothing, vec!["Package report", "", "No supported package managers found.", ""]);

    let value = packages_to_json("/r", &reports, &projects);
    assert_eq!(value["path"], "/r");
    assert_eq!(value["system_packages"].as_array().unwrap().len(), 2);
    assert_eq!(value["system_packages"][0]["count"], 13);
    assert_eq!(value["system_packages"][0].get("warning"), None);
    assert_eq!(value["system_packages"][1]["warning"], "timed out");
    assert_eq!(value["system_packages"][0]["packages"][11]["logical"], serde_json::Value::Null);
    assert_eq!(value["project_dependencies"][0]["dep_count"], 3);
}

#[test]
fn help_names_every_mode_and_key() {
    let lines = help_page("1.2.3").lines;
    assert_eq!(lines[0], "diskr 1.2.3");
    assert!(lines.contains(&"  diskr --thin-snapshots SIZE [--yes] [PATH]".to_string()));
    assert!(lines.contains(&"Global:".to_string()));
    assert!(lines.contains(&"  ?                Show keyboard help".to_string()));
}
