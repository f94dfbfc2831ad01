//! What comes back from the file system and from other programs.

use diskr::actions::FileOutcome;
use diskr::app::App;
use diskr::bulkstat::SizeInfo;
use diskr::fsevents::Freshness;
use diskr::installed::{
    app_roots, find_pip_package, infer_pip_package_dir, latest_subdir_name, locate,
    parse_cargo_list, parse_site_packages, Listed, PipTraces,
};
use diskr::outbox::Request;
use diskr::packages::{uninstall_outcome, Manager};
use diskr::pool::WorkQueue;
use diskr::space::statfs_info;
use diskr::walk::{self, WalkTask};
use diskr::bulkstat::ScanPolicy;

fn start() -> App {
    let mut app = App::new("/r", Ok(Vec::new()), &Freshness::All, None, 0);
    app.out.take_requests();
    app
}

fn listed(name: &str) -> Listed {
    Listed { name: name.to_string(), version: "2".to_string() }
}

#[test]
fn a_renamed_file_stays_selected() {
    let mut app = start();
    app.rename_result("/r/a", "/r/b", "b", FileOutcome::Done);
    assert_eq!(app.out.status, "renamed: a → b");
    let requests = app.out.take_requests();
    assert!(matches!(
        &requests[0],
        Request::ReadDir { path, selected: Some(selected), .. }
            if path == "/r" && selected == "/r/b"
    ));
    assert!(matches!(&requests[1], Request::ReadHistory { path } if path == "/r"));
    app.rename_result("/r/a", "/r/b", "b", FileOutcome::Exists);
    assert_eq!(app.out.status, "rename failed: b already exists");
    app.rename_result("/r/a", "/r/b", "b", FileOutcome::Failed("denied".to_string()));
    assert_eq!(app.out.status, "rename failed: denied");
    assert!(app.out.take_requests().is_empty());
}

#[test]
fn a_new_directory_is_selected() {
    let mut app = start();
    app.mkdir_result("/r/d", "d", FileOutcome::Done);
    assert_eq!(app.out.status, "created directory: d");
    assert!(matches!(
        &app.out.take_requests()[0],
        Request::ReadDir { selected: Some(selected), .. } if selected == "/r/d"
    ));
    app.mkdir_result("/r/d", "d", FileOutcome::Exists);
    assert_eq!(app.out.status, "mkdir failed: d already exists");
    app.mkdir_result("/r/d", "d", FileOutcome::Failed("full".to_string()));
    assert_eq!(app.out.status, "mkdir failed: full");
}

#[test]
fn other_programs_report_back() {
    let mut app = start();
    app.copy_result("/r/a", Ok(()));
    assert_eq!(app.out.status, "copied: /r/a");
    app.copy_result("/r/a", Err("no pbcopy".to_string()));
    assert_eq!(app.out.status, "copy failed: no pbcopy");
    app.terminal_result("/r", Ok(()));
    assert_eq!(app.out.status, "opening terminal: /r");
}

#[test]
fn uninstalling_says_what_the_manager_said() {
    assert_eq!(uninstall_outcome("brew", true, " done\n", "", "0"), Ok("done".to_string()));
    assert_eq!(
        uninstall_outcome("brew", false, "x", " no such keg\n", "1"),
        Err("no such keg".to_string())
    );
    assert_eq!(
        uninstall_outcome("npm", false, "x", " \n", "exit status: 1"),
        Err("npm exited with exit status: 1".to_string())
    );
    let (program, args) = Manager::Pip.uninstall_args("flask", false);
    assert_eq!(program, "python3");
    assert_eq!(args, vec!["-m", "pip", "uninstall", "-y", "flask"]);
}

#[test]
fn packages_are_found_where_their_manager_keeps_them() {
    let size = SizeInfo::new(1, 2);
    let root = Some("/lib".to_string());
    let found = locate(&listed("left-pad"), &root, Some(size));
    assert_eq!(found.path.as_deref(), Some("/lib/left-pad"));
    assert_eq!(found.size, Some(size));
    assert!(locate(&listed("gone"), &root, None).path.is_none());
    assert!(locate(&listed("lost"), &None, Some(size)).size.is_none());
    assert_eq!(app_roots(Some("/home/me")), vec!["/Applications", "/home/me/Applications"]);
    assert_eq!(app_roots(None), vec!["/Applications"]);
}

#[test]
fn pip_packages_are_traced() {
    assert_eq!(parse_site_packages("/a\n\n /b \n"), vec!["/a", "/b"]);
    assert_eq!(infer_pip_package_dir("/s", "my-pkg"), vec!["/s/my-pkg", "/s/my_pkg"]);
    let nothing = || PipTraces { dist_info: false, size: None, top_level: None, inferred: None };
    let traced = PipTraces {
        dist_info: true,
        size: Some(SizeInfo::new(3, 4)),
        top_level: Some("/s/mod".to_string()),
        inferred: Some("/s/pkg".to_string()),
    };
    let found = find_pip_package(&listed("pkg"), &vec![nothing(), traced]);
    assert_eq!(found.size, Some(SizeInfo::new(3, 4)));
    assert_eq!(found.path.as_deref(), Some("/s/mod"));
    let guessed = PipTraces { inferred: Some("/s/pkg".to_string()), ..nothing() };
    let found = find_pip_package(&listed("pkg"), &vec![guessed]);
    assert_eq!((found.size, found.path.as_deref()), (None, Some("/s/pkg")));
}

#[test]
fn cargo_lists_crates_with_their_programs() {
    let installs = parse_cargo_list("ripgrep v14.1.0:\n    rg\nfoo v0.1.0 (/src/foo):\n    a\n    b\n");
    assert_eq!(installs.len(), 2);
    assert_eq!((installs[0].name.as_str(), installs[0].version.as_str()), ("ripgrep", "14.1.0"));
    assert_eq!(installs[0].bins, vec!["rg"]);
    assert_eq!(installs[1].bins, vec!["a", "b"]);
}

#[test]
fn the_last_changed_version_counts() {
    let names = vec!["1".to_string(), "2".to_string(), "3".to_string()];
    assert_eq!(latest_subdir_name(&names, &vec![Some(5), Some(9), None]), "2");
    assert_eq!(latest_subdir_name(&names, &vec![Some(5), Some(5), Some(5)]), "3");
    assert_eq!(latest_subdir_name(&Vec::new(), &Vec::new()), "");
}

#[test]
fn volumes_are_counted_in_blocks() {
    let stat = statfs_info(
        &b"/\0junk".to_vec(),
        &b"/dev/disk1\0".to_vec(),
        &b"apfs\0\0".to_vec(),
        4096,
        10,
        4,
        3,
    );
    assert_eq!((stat.mount.as_str(), stat.device.as_str()), ("/", "/dev/disk1"));
    assert_eq!(stat.fs_type, "apfs");
    assert_eq!((stat.total, stat.used, stat.free, stat.available), (40960, 24576, 16384, 12288));
}

#[test]
fn waiting_work_is_counted() {
    let mut queue = WorkQueue::new(vec![1]);
    assert_eq!(queue.waiting(), 1);
    queue.next();
    queue.push(2);
    queue.push(3);
    assert_eq!(queue.waiting(), 2);
    let policy = ScanPolicy::with_devices("/r", 1, None);
    let mut walk = walk::scan_dir("/r", 0, true, policy);
    assert_eq!(walk.waiting(), 1);
    let WalkTask::Follow(mut chain) = walk.next() else {
        panic!("the root is to be read");
    };
    assert_eq!((walk.waiting(), chain.dir()), (0, "/r"));
    assert!(walk.close(&mut chain).is_none());
    assert!(walk.finish_chain(chain));
}
