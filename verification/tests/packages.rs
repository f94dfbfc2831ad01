//! Packages, projects and reclaimable space.

use diskr::bulkstat::SizeInfo;
use diskr::bytesize::{parse_byte_size, SizeError};
use diskr::installed::{
    find_cask_app_path, find_npm_global_root, find_pip_dist_info, find_pip_top_level_path,
    is_pip_dist_info, normalize_dist_name, package_of_cask, parse_brew_cask_json, parse_bun_list,
    parse_npm_list, parse_pip_list, parse_pip_record_size, record_rows,
    single_version_node_modules_root, split_csv_row, FoundApp,
};
use diskr::manifests::{
    count_cargo_toml_deps, count_composer_deps, count_gemfile_deps, count_go_mod_deps,
    count_manifest_deps, count_package_json_deps, count_pyproject_deps, count_requirements_deps,
    find_project_deps, manifest_groups, project_children, project_deps, EntryType, NamedEntry,
    PendingProject,
};
use diskr::packages::{
    package_dep_info, parse_brew_dep_graph, parse_pip_show_output, pip_show_args, scan_dep_graph,
    scan_manager, DepEvidence, DepTable, Manager, ManagerReport, Package, PackageUseStatus,
};
use diskr::pool::{DrainStep, WorkQueue};
use diskr::reclaim::{
    classify_by_name_path, fixed_locations, is_strict_prefix, report_with_home, ArtifactWalk,
    ReclaimReport, Reclaimability, SizedPath,
};
use diskr::space::{
    apfs_container_for_mount, c_char_array_to_string, list_local_snapshots,
    parse_tmutil_snapshot_names, thin_arguments, thin_local_snapshots, CommandOutput, ThinError,
};

#[test]
fn count_package_json() {
    let content = r#"{"dependencies":{"a":"1","b":"2"},"devDependencies":{"c":"3"}}"#;
    assert_eq!(count_package_json_deps(content), 3);
}

#[test]
fn count_cargo_toml() {
    let content = "[package]\nname = \"x\"\n\n[dependencies]\nserde = \"1\"\nanyhow = \"1\"\n\n[dev-dependencies]\ntempfile = \"3\"\n";
    assert_eq!(count_cargo_toml_deps(content), 3);
}

#[test]
fn count_requirements() {
    let content = "flask==2.0\nrequests>=2.28\n# comment\n-r base.txt\n\nnumpy\n";
    assert_eq!(count_requirements_deps(content), 3);
}

#[test]
fn count_go_mod() {
    let content = "module example.com/foo\n\ngo 1.21\n\nrequire (\n\tgithub.com/a/b v1.0\n\tgithub.com/c/d v2.0\n)\n";
    assert_eq!(count_go_mod_deps(content), 2);
}

#[test]
fn count_gemfile() {
    let content = "source 'https://rubygems.org'\ngem 'rails'\ngem 'pg'\n";
    assert_eq!(count_gemfile_deps(content), 2);
}

#[test]
fn count_composer_json() {
    let content = r#"{"require":{"php":"^8.2","monolog/monolog":"^3"},"require-dev":{"phpunit/phpunit":"^11"}}"#;
    assert_eq!(count_composer_deps(content), 3);
}

#[test]
fn unreadable_manifests_list_nothing() {
    assert_eq!(count_package_json_deps("{"), 0);
    assert_eq!(count_manifest_deps("package.json", None), 0);
    assert_eq!(count_manifest_deps("go.mod", Some("require a v1")), 1);
    let array = "[project]\nname = \"x\"\ndependencies = [\n  \"click\",\n  \"rich>=1\",\n]\n";
    assert_eq!(count_pyproject_deps(array), 2);
}

#[test]
fn manager_labels_are_distinct() {
    let labels: Vec<_> = Manager::all().iter().map(|m| m.label()).collect();
    let mut unique = labels.clone();
    unique.sort();
    unique.dedup();
    assert_eq!(labels.len(), unique.len());
}

#[test]
fn manager_uninstall_args_use_native_manager_commands() {
    let (cmd, args) = Manager::Brew.uninstall_args("ripgrep", true);
    assert_eq!(cmd, "brew");
    assert_eq!(args, vec!["uninstall", "ripgrep"]);

    for has_pip3 in [true, false] {
        let (cmd, args) = Manager::Pip.uninstall_args("ruff", has_pip3);
        if cmd == "pip3" {
            assert_eq!(args, vec!["uninstall", "-y", "ruff"]);
        } else {
            assert_eq!(cmd, "python3");
            assert_eq!(args, vec!["-m", "pip", "uninstall", "-y", "ruff"]);
        }
    }

    let (cmd, args) = Manager::Npm.uninstall_args("typescript", true);
    assert_eq!(cmd, "npm");
    assert_eq!(args, vec!["uninstall", "-g", "typescript"]);
}

#[test]
fn normalizes_pip_distribution_names() {
    assert_eq!(normalize_dist_name("PyYAML"), "pyyaml");
    assert_eq!(normalize_dist_name("ruff"), "ruff");
    assert_eq!(normalize_dist_name("typing_extensions"), "typing-extensions");
}

#[test]
fn finds_pip_dist_info_and_top_level_path() {
    let names = vec!["yaml".to_string(), "PyYAML-6.0.1.dist-info".to_string()];
    assert_eq!(find_pip_dist_info(&names, "PyYAML"), Some(1));
    assert_eq!(find_pip_top_level_path("/site", "yaml\n"), vec!["/site/yaml"]);
    // A version has to follow the name.
    assert!(!is_pip_dist_info("sentry-sdk-1.0.dist-info", "sentry"));
    assert!(is_pip_dist_info("sentry-24.1.dist-info", "sentry"));
}

#[test]
fn splits_csv_fields_with_quoted_values() {
    let fields = split_csv_row("path,to,script.py,sha256=abc,12");
    assert_eq!(fields, vec!["path", "to", "script.py", "sha256=abc", "12"]);
    let fields = split_csv_row("\"hello,world\",sha256=abc,7");
    assert_eq!(fields, vec!["hello,world", "sha256=abc", "7"]);
    assert_eq!(split_csv_row("\"say \"\"hi\"\"\",1"), vec!["say \"hi\"", "1"]);
}

#[test]
fn parses_pip_record_sizes_from_manifest() {
    let rows = record_rows(
        "requests/__init__.py,sha256=abc,13\n\
         requests-2.32.0.dist-info/RECORD,sha256=def,7\n",
    );
    assert_eq!(rows.len(), 2);
    let size = parse_pip_record_size(&rows, &vec![Some(4096), Some(4096)]);
    assert_eq!(size.logical, 20);
    assert!(size.allocated > 0);
}

fn deps<'a>(table: &'a DepTable, name: &str) -> (&'a Vec<String>, &'a Vec<String>) {
    let info = table.get(name).unwrap();
    (&info.dependencies, &info.dependents)
}

#[test]
fn parses_brew_dependency_graph_and_reverse_deps() {
    let graph = parse_brew_dep_graph(
        "a: b c\n\
         b: c\n\
         c:\n\
         app: a\n",
    );

    assert_eq!(deps(&graph, "a").0, &vec!["b", "c"]);
    assert_eq!(deps(&graph, "a").1, &vec!["app"]);
    assert_eq!(deps(&graph, "b").0, &vec!["c"]);
    assert_eq!(deps(&graph, "b").1, &vec!["a"]);
    assert_eq!(deps(&graph, "c").0, &Vec::<String>::new());
    assert_eq!(deps(&graph, "c").1, &vec!["a", "b"]);
}

#[test]
fn parses_pip_show_dependency_fields() {
    let graph = parse_pip_show_output(
        "Name: requests\n\
         Version: 2.32.0\n\
         Requires: certifi, urllib3\n\
         Required-by: my-tool\n\
         ---\n\
         Name: urllib3\n\
         Version: 2.0.0\n\
         Requires:\n\
         Required-by: requests\n",
    );

    assert_eq!(deps(&graph, "requests").0, &vec!["certifi", "urllib3"]);
    assert_eq!(deps(&graph, "requests").1, &vec!["my-tool"]);
    assert_eq!(deps(&graph, "urllib3").0, &Vec::<String>::new());
    assert_eq!(deps(&graph, "urllib3").1, &vec!["requests"]);
}

#[test]
fn global_cli_managers_are_dependency_leaves() {
    let brew_deps = DepTable::new();
    let pip_deps = DepTable::new();

    for manager in [Manager::BrewCask, Manager::Npm, Manager::Cargo, Manager::Bun] {
        let info = package_dep_info(manager, "tool", &brew_deps, &pip_deps);
        assert_eq!(info.evidence, DepEvidence::ManagerGraph);
        assert!(info.dependencies.is_empty());
        assert!(info.dependents.is_empty());
        assert!(manager.is_global_leaf_manager());
    }
}

fn package(name: &str) -> Package {
    Package {
        name: name.to_string(),
        version: "1.0".to_string(),
        size: Some(SizeInfo::new(10, 20)),
        path: None,
        metadata_path: None,
    }
}

fn report(manager: Manager, available: bool, names: &[&str]) -> ManagerReport {
    scan_manager(manager, available, names.iter().map(|n| package(n)).collect(), None)
}

#[test]
fn managers_add_their_packages_up() {
    let got = report(Manager::Brew, true, &["a", "b"]);
    assert_eq!(got.total_size, SizeInfo::new(20, 40));
    let gone = report(Manager::Npm, false, &["a"]);
    assert!(gone.packages.is_empty() && !gone.available);
}

#[test]
fn pip_is_asked_about_its_own_packages() {
    let reports = vec![report(Manager::Brew, true, &["a"]), report(Manager::Pip, true, &["x", "y"])];
    assert_eq!(pip_show_args(&reports).unwrap(), vec!["show", "x", "y"]);
    assert!(pip_show_args(&vec![report(Manager::Pip, true, &[])]).is_none());
    assert!(pip_show_args(&vec![report(Manager::Pip, false, &["x"])]).is_none());
}

#[test]
fn use_is_told_by_dependents() {
    let brew = parse_brew_dep_graph("a: b\n");
    let reports = vec![report(Manager::Brew, true, &["a", "b", "c"])];
    let graph = scan_dep_graph(&reports, &brew, &DepTable::new());
    assert_eq!(graph.use_status(Manager::Brew, "b"), PackageUseStatus::RequiredByDependents);
    assert_eq!(graph.use_status(Manager::Brew, "a"), PackageUseStatus::DependencyLeaf);
    assert_eq!(graph.use_status(Manager::Brew, "c"), PackageUseStatus::Untracked);
    assert_eq!(graph.dependency_leaf_count(), 1);
    assert!(graph.get(Manager::Brew, "d").is_none());
}

#[test]
fn npm_global_root_prefers_active_npm_over_version_probes() {
    let resolved = find_npm_global_root(
        "/active/lib/node_modules\n",
        Some("/nvm/versions/node/v22.0.0/lib/node_modules".to_string()),
        Some("/home/fnm/lib/node_modules".to_string()),
        None,
    );
    assert_eq!(resolved, Some("/active/lib/node_modules".to_string()));
}

#[test]
fn npm_global_root_does_not_guess_across_multiple_nvm_versions() {
    let nvm = single_version_node_modules_root(vec![
        "/nvm/v20.0.0/lib/node_modules".to_string(),
        "/nvm/v22.0.0/lib/node_modules".to_string(),
    ]);
    assert_eq!(find_npm_global_root("", nvm, None, None), None);
}

fn named(name: &str, kind: EntryType) -> NamedEntry {
    NamedEntry { name: name.to_string(), kind }
}

#[test]
fn finds_project_deps_in_directory() {
    let root = vec![named("myapp", EntryType::Directory)];
    let below = project_children("/r", 0, 3, &root);
    assert_eq!(below[0].dir, "/r/myapp");
    let entries = vec![
        named("node_modules", EntryType::Directory),
        named("package.json", EntryType::File),
    ];
    assert!(project_children("/r/myapp", 1, 3, &entries).is_empty());
    let groups = manifest_groups("/r/myapp", &entries);
    assert_eq!(groups[0].deps_path, Some("/r/myapp/node_modules".to_string()));
    let count = count_manifest_deps("package.json", Some(r#"{"dependencies":{"lodash":"4.0"}}"#));
    let found = project_deps("/r/myapp", &groups[0], &vec![count], Some(SizeInfo::new(17, 4096)));

    let deps = find_project_deps(vec![found]);
    assert_eq!(deps.len(), 1);
    assert_eq!(deps[0].manifest, "package.json");
    assert_eq!(deps[0].dep_count, 1);
    assert!(deps[0].deps_size.is_some());
}

#[test]
fn project_deps_merge_manifests_that_share_deps_dir() {
    let entries = vec![
        named("pyproject.toml", EntryType::File),
        named("requirements.txt", EntryType::File),
        named(".venv", EntryType::Directory),
    ];
    let groups = manifest_groups("/r/pyapp", &entries);
    assert_eq!(groups.len(), 1);
    let counts = vec![
        count_manifest_deps("requirements.txt", Some("requests\nflask\n")),
        count_manifest_deps("pyproject.toml", Some("[project.dependencies]\nclick = \"8\"\n")),
    ];
    let deps = project_deps("/r/pyapp", &groups[0], &counts, Some(SizeInfo::new(11, 4096)));
    assert_eq!(deps.path, "/r/pyapp");
    assert_eq!(deps.manager_label, "pip, pip/uv");
    assert_eq!(deps.manifest, "requirements.txt, pyproject.toml");
    assert_eq!(deps.dep_count, 3);
    assert_eq!(deps.deps_dir, Some("/r/pyapp/.venv".to_string()));
    assert!(deps.deps_size.is_some());
}

#[test]
fn parses_brew_cask_json_correctly() {
    let json_data = r#"{
        "casks": [
            {
                "token": "pdfextractor",
                "installed": "1.5",
                "artifacts": [ { "app": ["PDFExtractor.app"] } ]
            },
            {
                "token": "packages",
                "installed": "1.2.10",
                "artifacts": [ { "pkg": ["Install Packages.pkg"] } ]
            }
        ]
    }"#;

    let casks = parse_brew_cask_json(json_data);
    assert_eq!(casks.len(), 2);

    let places = find_cask_app_path(&casks[0].app_names[0], &vec!["/apps".to_string()]);
    assert_eq!(places, vec!["/apps/PDFExtractor.app"]);
    let apps = vec![FoundApp { path: places[0].clone(), size: SizeInfo::new(3, 4096) }];
    let pdf = package_of_cask(&casks[0], "/caskroom", SizeInfo::new(0, 0), &apps);
    assert_eq!(pdf.name, "pdfextractor");
    assert_eq!(pdf.version, "1.5");
    assert_eq!(pdf.path.as_ref().unwrap(), "/apps/PDFExtractor.app");
    assert_eq!(pdf.metadata_path.as_ref().unwrap(), "/caskroom/pdfextractor");

    let pkgs = package_of_cask(&casks[1], "/caskroom", SizeInfo::new(0, 0), &Vec::new());
    assert_eq!(pkgs.version, "1.2.10 (installer-based)");
    assert_eq!(pkgs.path.as_ref().unwrap(), "/caskroom/packages");
    assert!(pkgs.metadata_path.is_none());
}

#[test]
fn managers_list_their_packages() {
    let npm = parse_npm_list(r#"{"dependencies":{"typescript":{"version":"5.0"}}}"#);
    assert_eq!((npm[0].name.as_str(), npm[0].version.as_str()), ("typescript", "5.0"));
    assert!(parse_npm_list("oops").is_empty());
    let pip = parse_pip_list(r#"[{"name":"ruff","version":"0.1"},{"version":"2"}]"#);
    assert_eq!(pip.len(), 1);
    let bun = parse_bun_list("/home/.bun\n├── @scope/tool@1.2.3\n└── left@2.0\n");
    assert_eq!(bun[0].name, "@scope/tool");
    assert_eq!(bun[0].version, "1.2.3");
    assert_eq!(bun[1].name, "left");
}

fn sized(category: usize, path: &str, bytes: u64) -> SizedPath {
    SizedPath {
        category,
        path: path.to_string(),
        size: SizeInfo::new(bytes, bytes),
        inaccessible: 0,
        skipped_mounts: 0,
    }
}

fn sized_places(root: &str, home: &str, wanted: &[(&str, u64)]) -> Vec<SizedPath> {
    fixed_locations(root, home)
        .iter()
        .filter_map(|place| {
            wanted.iter().find(|w| w.0 == place.path).map(|w| sized(place.category, w.0, w.1))
        })
        .collect()
}

fn find_artifacts(root: &str, tree: &[(&str, &[&str])]) -> Vec<SizedPath> {
    let mut walk = ArtifactWalk::new(root);
    while let Some(dir) = walk.next_dir() {
        if let Some((_, names)) = tree.iter().find(|d| d.0 == dir.path) {
            let names: Vec<String> = names.iter().map(|n| n.to_string()).collect();
            walk.visit(&dir, &names);
        }
    }
    walk.hits.iter().map(|hit| sized(hit.category, &hit.path, 4096)).collect()
}

fn class_for(report: &ReclaimReport, label: &str) -> Option<Reclaimability> {
    report.findings.iter().find(|finding| finding.label == label).map(|finding| finding.class)
}

#[test]
fn finds_fixed_caches_and_project_artifacts() {
    let fixed = sized_places("/r", "/r", &[("/r/Library/Caches", 8192)]);
    let artifacts = find_artifacts(
        "/r",
        &[
            ("/r", &["Library", "proj", "work"]),
            ("/r/proj", &["node_modules"]),
            ("/r/work", &["app"]),
            ("/r/work/app", &["node_modules"]),
        ],
    );
    let report = report_with_home("/r", &fixed, &artifacts);

    let caches = report.findings.iter().find(|f| f.label == "User caches").unwrap();
    assert_eq!(caches.count, 1);
    assert!(caches.size.logical >= 8192);

    let node = report.findings.iter().find(|f| f.label == "node_modules").unwrap();
    assert_eq!(node.count, 2, "both node_modules trees should roll up");
    assert_eq!(node.class, Reclaimability::Regenerable);

    assert!(report.total.allocated >= report.total.logical.min(1));
}

#[test]
fn does_not_descend_into_matched_artifacts() {
    let hits = find_artifacts(
        "/r",
        &[
            ("/r", &["proj"]),
            ("/r/proj", &["node_modules"]),
            ("/r/proj/node_modules", &["dep"]),
            ("/r/proj/node_modules/dep", &["node_modules"]),
        ],
    );
    assert_eq!(hits.len(), 1, "nested node_modules must not be double counted");
}

#[test]
fn the_artifact_walk_hands_every_directory_out_once() {
    let tree: [(&str, &[&str]); 4] = [
        ("/r", &["a", "b", "Library", ".git", "node_modules"]),
        ("/r/a", &["target", "deep"]),
        ("/r/b", &["node_modules"]),
        ("/r/a/deep", &[".venv", "c"]),
    ];
    let mut walk = ArtifactWalk::new("/r");
    let mut handed: Vec<(String, usize)> = Vec::new();
    while let Some(dir) = walk.next_dir() {
        if let Some((_, names)) = tree.iter().find(|d| d.0 == dir.path) {
            let names: Vec<String> = names.iter().map(|n| n.to_string()).collect();
            walk.visit(&dir, &names);
        }
        handed.push((dir.path, dir.depth));
    }
    handed.sort();
    let expected: Vec<(String, usize)> =
        [("/r", 0), ("/r/a", 1), ("/r/a/deep", 2), ("/r/a/deep/c", 3), ("/r/b", 1)]
            .iter()
            .map(|d| (d.0.to_string(), d.1))
            .collect();
    assert_eq!(handed, expected);
    let hits: Vec<&str> = walk.hits.iter().map(|hit| hit.path.as_str()).collect();
    assert!(hits.contains(&"/r/node_modules") && hits.contains(&"/r/b/node_modules"));
    for a in &hits {
        assert!(is_strict_prefix("/r", a));
        for b in &hits {
            assert!(!is_strict_prefix(a, b));
        }
    }
}

#[test]
fn the_artifact_walk_goes_no_deeper_than_its_limit() {
    let mut walk = ArtifactWalk::new("/r");
    let mut deepest = 0;
    let mut read = 0;
    while let Some(dir) = walk.next_dir() {
        deepest = deepest.max(dir.depth);
        read += 1;
        walk.visit(&dir, &vec!["down".to_string()]);
    }
    assert_eq!((read, deepest), (11, 10));
}

#[test]
fn the_project_search_keeps_to_its_bounds() {
    let children = |dir: &str| -> Vec<NamedEntry> {
        match dir {
            "/r" => vec![
                named("app", EntryType::Directory),
                named(".git", EntryType::Directory),
                named("vendor", EntryType::Directory),
                named("notes", EntryType::File),
            ],
            "/r/app" => vec![
                named("target", EntryType::Directory),
                named("node_modules", EntryType::Directory),
                named("sub", EntryType::Directory),
                named("link", EntryType::Other),
            ],
            _ => vec![named("more", EntryType::Directory)],
        }
    };
    let seed = vec![PendingProject { dir: "/r".to_string(), depth: 0 }];
    let mut queue = WorkQueue::new(seed);
    let mut handed: Vec<(String, usize)> = Vec::new();
    loop {
        match queue.next() {
            DrainStep::Work(pending) => {
                let entries = children(&pending.dir);
                for below in project_children(&pending.dir, pending.depth, 3, &entries) {
                    queue.push(below);
                }
                handed.push((pending.dir, pending.depth));
                queue.done();
            }
            DrainStep::Wait => panic!("nobody else works"),
            DrainStep::Stop => break,
        }
    }
    let expected: Vec<(String, usize)> =
        [("/r", 0), ("/r/app", 1), ("/r/app/sub", 2), ("/r/app/sub/more", 3)]
            .iter()
            .map(|d| (d.0.to_string(), d.1))
            .collect();
    assert_eq!(handed, expected);
}

#[test]
fn skips_library_tree_in_recursive_pass() {
    let hits = find_artifacts(
        "/r",
        &[
            ("/r", &["Library", ".hidden"]),
            ("/r/Library", &["weird"]),
            ("/r/Library/weird", &["node_modules"]),
            ("/r/.hidden", &["node_modules"]),
        ],
    );
    assert!(hits.is_empty(), "recursive pass should not walk into the Library tree");
}

#[test]
fn excludes_paths_outside_the_root() {
    let fixed = sized_places("/home/scoped", "/home", &[("/home/Library/Caches", 4096)]);
    let report = report_with_home("/home/scoped", &fixed, &Vec::new());
    assert!(class_for(&report, "User caches").is_none(), "caches outside root must be excluded");
}

#[test]
fn fixed_findings_accept_dotted_home_root() {
    let fixed = sized_places("/home/.", "/home", &[("/home/Library/Caches", 4096)]);
    let report = report_with_home("/home", &fixed, &Vec::new());
    assert_eq!(class_for(&report, "User caches"), Some(Reclaimability::Safe));
    assert_eq!(report.root, "/home");
}

#[test]
fn parent_child_overlap_counts_bytes_once() {
    let fixed = sized_places(
        "/r",
        "/r",
        &[("/r/Library/Caches", 8192), ("/r/Library/Caches/Homebrew", 8192)],
    );
    let report = report_with_home("/r", &fixed, &Vec::new());

    let user_caches = report.findings.iter().find(|f| f.label == "User caches").unwrap();
    let homebrew = report.findings.iter().find(|f| f.label == "Homebrew cache").unwrap();

    assert!(user_caches.rollup, "User caches should be marked rollup");
    assert!(!homebrew.rollup, "Homebrew cache should NOT be rollup");
    assert!(report.total.logical <= homebrew.size.logical);
}

#[test]
fn non_overlapping_finding_not_marked_rollup() {
    let fixed = sized_places("/r", "/r", &[("/r/Library/Caches", 4096)]);
    let report = report_with_home("/r", &fixed, &Vec::new());

    let user_caches = report.findings.iter().find(|f| f.label == "User caches").unwrap();
    assert!(!user_caches.rollup, "User caches with no child overlap should NOT be rollup");
    assert!(report.total.logical >= 4096);
}

#[test]
fn is_strict_prefix_basic() {
    let parent = "/a/b";
    let child = "/a/b/c";
    let sibling = "/a/d";
    let same = "/a/b";

    assert!(is_strict_prefix(parent, child));
    assert!(!is_strict_prefix(parent, sibling));
    assert!(!is_strict_prefix(parent, same), "same path is not strict");
    assert!(!is_strict_prefix(child, parent), "child not prefix of parent");
}

#[test]
fn directories_are_classed_by_name() {
    assert_eq!(
        classify_by_name_path("node_modules", "/r/node_modules", None),
        Some(Reclaimability::Regenerable)
    );
    assert_eq!(classify_by_name_path("src", "/r/src", Some("/home")), None);
}

#[test]
fn parse_byte_size_accepts_binary_units() {
    assert_eq!(parse_byte_size("1024").unwrap(), 1024);
    assert_eq!(parse_byte_size("1K").unwrap(), 1024);
    assert_eq!(parse_byte_size("1.5G").unwrap(), 1_610_612_736);
    assert_eq!(parse_byte_size("2 TiB").unwrap(), 2_199_023_255_552);
}

#[test]
fn parse_byte_size_rejects_invalid_values() {
    assert!(parse_byte_size("").is_err());
    assert!(parse_byte_size("0").is_err());
    assert!(parse_byte_size("12XB").is_err());
    assert!(parse_byte_size("..1G").is_err());
}

#[test]
fn byte_size_errors_say_what_is_wrong() {
    assert!(matches!(parse_byte_size("  "), Err(SizeError::Empty)));
    assert!(matches!(parse_byte_size("..1G"), Err(SizeError::Invalid(_))));
    assert!(matches!(parse_byte_size("0K"), Err(SizeError::NotPositive)));
    assert!(matches!(parse_byte_size("1Q"), Err(SizeError::UnknownUnit(u)) if u == "Q"));
    assert!(matches!(parse_byte_size("99999999T"), Err(SizeError::TooLarge)));
    // Halves go through the nearest double.
    assert_eq!(parse_byte_size("0.5K").unwrap(), 512);
    assert_eq!(parse_byte_size("9007199254740993").unwrap(), 9_007_199_254_740_992);
}

#[test]
fn parses_tmutil_snapshot_names() {
    let output = "\
Snapshots for volume group containing disk /:
com.apple.TimeMachine.2026-06-08-120000.local
com.apple.os.update-MSUPrepareUpdate
";

    assert_eq!(
        parse_tmutil_snapshot_names(output),
        vec![
            "com.apple.TimeMachine.2026-06-08-120000.local",
            "com.apple.os.update-MSUPrepareUpdate"
        ]
    );
}

fn output(success: bool, stdout: &str, stderr: &str) -> CommandOutput {
    CommandOutput { success, stdout: stdout.to_string(), stderr: stderr.to_string() }
}

#[test]
fn snapshots_are_listed_or_explained() {
    let listed = list_local_snapshots(Ok(output(true, "com.apple.os.update-X\n", "")));
    assert_eq!(listed.names, vec!["com.apple.os.update-X"]);
    assert_eq!(listed.error, None);
    let failed = list_local_snapshots(Ok(output(false, "", "denied\n")));
    assert_eq!(failed.error, Some("denied".to_string()));
}

#[test]
fn thinning_takes_a_size() {
    assert!(matches!(thin_arguments("/", 0), Err(ThinError::NothingToThin)));
    assert_eq!(
        thin_arguments("/", 5).unwrap(),
        vec!["thinlocalsnapshots", "/", "5", "4"]
    );
    let done = thin_local_snapshots("/", 5, &output(true, " ok \n", "")).unwrap();
    assert_eq!((done.requested_bytes, done.stdout.as_str()), (5, "ok"));
    let failed = thin_local_snapshots("/", 5, &output(false, "", "no"));
    assert!(matches!(failed, Err(ThinError::Failed(m)) if m == "no"));
}

#[test]
fn c_char_array_to_string_stops_at_nul() {
    assert_eq!(c_char_array_to_string(&vec![b'a', b'b', 0, b'c']), "ab");
    assert_eq!(c_char_array_to_string(&vec![]), "");
    assert_eq!(c_char_array_to_string(&vec![0]), "");
}

#[test]
fn containers_are_read_from_property_lists() {
    let plist = br#"<?xml version="1.0" encoding="UTF-8"?>
<plist version="1.0"><dict>
<key>APFSContainerReference</key><string>disk3</string>
<key>APFSContainerSize</key><integer>1000</integer>
<key>APFSContainerFree</key><integer>400</integer>
</dict></plist>"#
        .to_vec();
    let container = apfs_container_for_mount(true, &plist).unwrap();
    assert_eq!(container.reference, "disk3");
    assert_eq!((container.size, container.free), (1000, 400));
    assert!(apfs_container_for_mount(false, &plist).is_none());
    assert!(apfs_container_for_mount(true, &b"nonsense".to_vec()).is_none());
}
