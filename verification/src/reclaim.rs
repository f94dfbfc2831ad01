//! What can be reclaimed: well-known caches and build artifacts.
//!
//! Two passes find space that is usually safe to free. The first looks at fixed
//! locations below the home directory. The second walks the scan root for
//! directories with the names of build artifacts. Every finding carries a class
//! that says how safe it is to delete.

use crate::bulkstat;
use crate::descent;
use crate::paths;
use crate::sorting;
use crate::sums;
use crate::text;
use vstd::prelude::*;

verus! {

/// How safe a category is to delete.
#[derive(Clone, Copy, Debug, PartialEq, Eq, Structural)]
pub enum Reclaimability {
    /// Pure cache; regenerated automatically with no real loss.
    Safe,
    /// Rebuildable, but at the cost of time or bandwidth.
    Regenerable,
    /// May contain data that cannot easily be recreated.
    Risky,
}

impl Reclaimability {
    pub open spec fn name(self) -> Seq<char> {
        match self {
            Reclaimability::Safe => "safe"@,
            Reclaimability::Regenerable => "regenerable"@,
            Reclaimability::Risky => "risky"@,
        }
    }

    pub fn label(self) -> (r: &'static str)
        ensures
            r@ == self.name(),
    {
        match self {
            Reclaimability::Safe => "safe",
            Reclaimability::Regenerable => "regenerable",
            Reclaimability::Risky => "risky",
        }
    }
}

/// A category of reclaimable directories: one or two locations relative to the
/// home directory, or the name of a build artifact.
pub struct FixedCategory {
    pub label: &'static str,
    pub class: Reclaimability,
    pub note: &'static str,
    pub path: &'static str,
    pub other: Option<&'static str>,
}

#[verifier::ext_equal]
pub struct CategoryModel {
    pub label: Seq<char>,
    pub class: Reclaimability,
    pub note: Seq<char>,
    pub path: Seq<char>,
    pub other: Option<Seq<char>>,
}

impl View for FixedCategory {
    type V = CategoryModel;

    open spec fn view(&self) -> CategoryModel {
        CategoryModel {
            label: self.label@,
            class: self.class,
            note: self.note@,
            path: self.path@,
            other: match self.other {
                Some(p) => Some(p@),
                None => None,
            },
        }
    }
}

pub const FIXED_CATEGORY_COUNT: usize = 17;

/// The well-known cache locations.
pub open spec fn fixed_category(i: int) -> CategoryModel {
    if i == 0 {
        CategoryModel {
            label: "User caches"@,
            class: Reclaimability::Safe,
            note: "App and system caches; rebuilt on demand."@,
            path: "Library/Caches"@,
            other: None,
        }
    } else if i == 1 {
        CategoryModel {
            label: "Xcode DerivedData"@,
            class: Reclaimability::Safe,
            note: "Build intermediates; Xcode regenerates them on the next build."@,
            path: "Library/Developer/Xcode/DerivedData"@,
            other: None,
        }
    } else if i == 2 {
        CategoryModel {
            label: "Xcode Archives"@,
            class: Reclaimability::Risky,
            note: "Shipped app archives and dSYMs; these are not regenerable."@,
            path: "Library/Developer/Xcode/Archives"@,
            other: None,
        }
    } else if i == 3 {
        CategoryModel {
            label: "iOS DeviceSupport"@,
            class: Reclaimability::Regenerable,
            note: "Symbol caches re-created when you reconnect a device."@,
            path: "Library/Developer/Xcode/iOS DeviceSupport"@,
            other: None,
        }
    } else if i == 4 {
        CategoryModel {
            label: "Simulator devices"@,
            class: Reclaimability::Regenerable,
            note: "Simulator state and installed apps; Xcode can recreate them."@,
            path: "Library/Developer/CoreSimulator/Devices"@,
            other: None,
        }
    } else if i == 5 {
        CategoryModel {
            label: "Homebrew cache"@,
            class: Reclaimability::Safe,
            note: "Downloaded bottles; `brew cleanup` removes these."@,
            path: "Library/Caches/Homebrew"@,
            other: None,
        }
    } else if i == 6 {
        CategoryModel {
            label: "Cargo cache"@,
            class: Reclaimability::Regenerable,
            note: "Downloaded crates and git checkouts; re-fetched on build."@,
            path: ".cargo/registry"@,
            other: Some(".cargo/git"@),
        }
    } else if i == 7 {
        CategoryModel {
            label: "npm cache"@,
            class: Reclaimability::Safe,
            note: "npm package cache; rebuilt on the next install."@,
            path: ".npm"@,
            other: None,
        }
    } else if i == 8 {
        CategoryModel {
            label: "Yarn cache"@,
            class: Reclaimability::Safe,
            note: "Yarn package cache; rebuilt on the next install."@,
            path: "Library/Caches/Yarn"@,
            other: Some(".cache/yarn"@),
        }
    } else if i == 9 {
        CategoryModel {
            label: "pnpm store"@,
            class: Reclaimability::Regenerable,
            note: "Shared package store; re-fetched on install (breaks linked installs)."@,
            path: "Library/pnpm/store"@,
            other: Some(".local/share/pnpm/store"@),
        }
    } else if i == 10 {
        CategoryModel {
            label: "pip cache"@,
            class: Reclaimability::Safe,
            note: "Downloaded wheels; re-fetched on the next install."@,
            path: "Library/Caches/pip"@,
            other: Some(".cache/pip"@),
        }
    } else if i == 11 {
        CategoryModel {
            label: "uv cache"@,
            class: Reclaimability::Safe,
            note: "uv package cache; re-fetched on the next install."@,
            path: "Library/Caches/uv"@,
            other: Some(".cache/uv"@),
        }
    } else if i == 12 {
        CategoryModel {
            label: "Go module/build cache"@,
            class: Reclaimability::Regenerable,
            note: "Go module and build caches; rebuilt by the toolchain."@,
            path: "Library/Caches/go-build"@,
            other: Some("go/pkg/mod"@),
        }
    } else if i == 13 {
        CategoryModel {
            label: "Trash"@,
            class: Reclaimability::Safe,
            note: "Already discarded items; emptying is permanent."@,
            path: ".Trash"@,
            other: None,
        }
    } else if i == 14 {
        CategoryModel {
            label: "Chrome cache"@,
            class: Reclaimability::Safe,
            note: "Browser cache; rebuilt as you browse."@,
            path: "Library/Caches/Google/Chrome"@,
            other: None,
        }
    } else if i == 15 {
        CategoryModel {
            label: "Safari cache"@,
            class: Reclaimability::Safe,
            note: "Browser cache; rebuilt as you browse."@,
            path: "Library/Caches/com.apple.Safari"@,
            other: None,
        }
    } else {
        CategoryModel {
            label: "Docker data"@,
            class: Reclaimability::Risky,
            note: "Docker images and volumes; may hold data you have not pushed."@,
            path: "Library/Containers/com.docker.docker/Data/vms"@,
            other: None,
        }
    }
}

/// A well-known cache location.
fn get_fixed_category(i: usize) -> (c: FixedCategory)
    requires
        i < FIXED_CATEGORY_COUNT,
    ensures
        c@ == fixed_category(i as int),
{
    if i == 0 {
        FixedCategory {
            label: "User caches",
            class: Reclaimability::Safe,
            note: "App and system caches; rebuilt on demand.",
            path: "Library/Caches",
            other: None,
        }
    } else if i == 1 {
        FixedCategory {
            label: "Xcode DerivedData",
            class: Reclaimability::Safe,
            note: "Build intermediates; Xcode regenerates them on the next build.",
            path: "Library/Developer/Xcode/DerivedData",
            other: None,
        }
    } else if i == 2 {
        FixedCategory {
            label: "Xcode Archives",
            class: Reclaimability::Risky,
            note: "Shipped app archives and dSYMs; these are not regenerable.",
            path: "Library/Developer/Xcode/Archives",
            other: None,
        }
    } else if i == 3 {
        FixedCategory {
            label: "iOS DeviceSupport",
            class: Reclaimability::Regenerable,
            note: "Symbol caches re-created when you reconnect a device.",
            path: "Library/Developer/Xcode/iOS DeviceSupport",
            other: None,
        }
    } else if i == 4 {
        FixedCategory {
            label: "Simulator devices",
            class: Reclaimability::Regenerable,
            note: "Simulator state and installed apps; Xcode can recreate them.",
            path: "Library/Developer/CoreSimulator/Devices",
            other: None,
        }
    } else if i == 5 {
        FixedCategory {
            label: "Homebrew cache",
            class: Reclaimability::Safe,
            note: "Downloaded bottles; `brew cleanup` removes these.",
            path: "Library/Caches/Homebrew",
            other: None,
        }
    } else if i == 6 {
        FixedCategory {
            label: "Cargo cache",
            class: Reclaimability::Regenerable,
            note: "Downloaded crates and git checkouts; re-fetched on build.",
            path: ".cargo/registry",
            other: Some(".cargo/git"),
        }
    } else if i == 7 {
        FixedCategory {
            label: "npm cache",
            class: Reclaimability::Safe,
            note: "npm package cache; rebuilt on the next install.",
            path: ".npm",
            other: None,
        }
    } else if i == 8 {
        FixedCategory {
            label: "Yarn cache",
            class: Reclaimability::Safe,
            note: "Yarn package cache; rebuilt on the next install.",
            path: "Library/Caches/Yarn",
            other: Some(".cache/yarn"),
        }
    } else if i == 9 {
        FixedCategory {
            label: "pnpm store",
            class: Reclaimability::Regenerable,
            note: "Shared package store; re-fetched on install (breaks linked installs).",
            path: "Library/pnpm/store",
            other: Some(".local/share/pnpm/store"),
        }
    } else if i == 10 {
        FixedCategory {
            label: "pip cache",
            class: Reclaimability::Safe,
            note: "Downloaded wheels; re-fetched on the next install.",
            path: "Library/Caches/pip",
            other: Some(".cache/pip"),
        }
    } else if i == 11 {
        FixedCategory {
            label: "uv cache",
            class: Reclaimability::Safe,
            note: "uv package cache; re-fetched on the next install.",
            path: "Library/Caches/uv",
            other: Some(".cache/uv"),
        }
    } else if i == 12 {
        FixedCategory {
            label: "Go module/build cache",
            class: Reclaimability::Regenerable,
            note: "Go module and build caches; rebuilt by the toolchain.",
            path: "Library/Caches/go-build",
            other: Some("go/pkg/mod"),
        }
    } else if i == 13 {
        FixedCategory {
            label: "Trash",
            class: Reclaimability::Safe,
            note: "Already discarded items; emptying is permanent.",
            path: ".Trash",
            other: None,
        }
    } else if i == 14 {
        FixedCategory {
            label: "Chrome cache",
            class: Reclaimability::Safe,
            note: "Browser cache; rebuilt as you browse.",
            path: "Library/Caches/Google/Chrome",
            other: None,
        }
    } else if i == 15 {
        FixedCategory {
            label: "Safari cache",
            class: Reclaimability::Safe,
            note: "Browser cache; rebuilt as you browse.",
            path: "Library/Caches/com.apple.Safari",
            other: None,
        }
    } else {
        FixedCategory {
            label: "Docker data",
            class: Reclaimability::Risky,
            note: "Docker images and volumes; may hold data you have not pushed.",
            path: "Library/Containers/com.docker.docker/Data/vms",
            other: None,
        }
    }
}

pub const ARTIFACT_COUNT: usize = 7;

/// The build artifacts that the walk looks for, each under a name that is not
/// used for anything else.
pub open spec fn artifact(i: int) -> CategoryModel {
    if i == 0 {
        CategoryModel {
            label: "node_modules"@,
            class: Reclaimability::Regenerable,
            note: "Node dependencies; `npm install` restores them."@,
            path: "node_modules"@,
            other: None,
        }
    } else if i == 1 {
        CategoryModel {
            label: "target"@,
            class: Reclaimability::Regenerable,
            note: "Rust/Cargo build output; `cargo build` restores it."@,
            path: "target"@,
            other: None,
        }
    } else if i == 2 {
        CategoryModel {
            label: ".venv"@,
            class: Reclaimability::Regenerable,
            note: "Python virtualenv; recreate from requirements."@,
            path: ".venv"@,
            other: None,
        }
    } else if i == 3 {
        CategoryModel {
            label: "venv"@,
            class: Reclaimability::Regenerable,
            note: "Python virtualenv; recreate from requirements."@,
            path: "venv"@,
            other: None,
        }
    } else if i == 4 {
        CategoryModel {
            label: "__pycache__"@,
            class: Reclaimability::Safe,
            note: "Python bytecode cache; regenerated on import."@,
            path: "__pycache__"@,
            other: None,
        }
    } else if i == 5 {
        CategoryModel {
            label: ".next"@,
            class: Reclaimability::Safe,
            note: "Next.js build cache; rebuilt on the next build."@,
            path: ".next"@,
            other: None,
        }
    } else {
        CategoryModel {
            label: ".gradle"@,
            class: Reclaimability::Regenerable,
            note: "Gradle caches and build state; rebuilt on demand."@,
            path: ".gradle"@,
            other: None,
        }
    }
}

/// A build artifact that the walk looks for.
fn get_artifact(i: usize) -> (c: FixedCategory)
    requires
        i < ARTIFACT_COUNT,
    ensures
        c@ == artifact(i as int),
{
    if i == 0 {
        FixedCategory {
            label: "node_modules",
            class: Reclaimability::Regenerable,
            note: "Node dependencies; `npm install` restores them.",
            path: "node_modules",
            other: None,
        }
    } else if i == 1 {
        FixedCategory {
            label: "target",
            class: Reclaimability::Regenerable,
            note: "Rust/Cargo build output; `cargo build` restores it.",
            path: "target",
            other: None,
        }
    } else if i == 2 {
        FixedCategory {
            label: ".venv",
            class: Reclaimability::Regenerable,
            note: "Python virtualenv; recreate from requirements.",
            path: ".venv",
            other: None,
        }
    } else if i == 3 {
        FixedCategory {
            label: "venv",
            class: Reclaimability::Regenerable,
            note: "Python virtualenv; recreate from requirements.",
            path: "venv",
            other: None,
        }
    } else if i == 4 {
        FixedCategory {
            label: "__pycache__",
            class: Reclaimability::Safe,
            note: "Python bytecode cache; regenerated on import.",
            path: "__pycache__",
            other: None,
        }
    } else if i == 5 {
        FixedCategory {
            label: ".next",
            class: Reclaimability::Safe,
            note: "Next.js build cache; rebuilt on the next build.",
            path: ".next",
            other: None,
        }
    } else {
        FixedCategory {
            label: ".gradle",
            class: Reclaimability::Regenerable,
            note: "Gradle caches and build state; rebuilt on demand.",
            path: ".gradle",
            other: None,
        }
    }
}

/// How deep the artifact walk descends.
pub const MAX_ARTIFACT_DEPTH: usize = 10;

// ---------------------------------------------------------------------------
// Findings
// ---------------------------------------------------------------------------

/// A reclaimable category with the directories that were found for it.
#[derive(Debug)]
pub struct Finding {
    pub label: String,
    pub class: Reclaimability,
    pub note: String,
    pub size: bulkstat::SizeInfo,
    /// Unreadable directories met while sizing.
    pub inaccessible: u32,
    /// Mounted volumes skipped while sizing.
    pub skipped_mounts: u32,
    /// Number of directories in this finding.
    pub count: usize,
    pub paths: Vec<String>,
    /// The paths of another finding lie inside this one's, so its bytes are
    /// already counted there. Shown for context, not part of the total.
    pub rollup: bool,
}

#[verifier::ext_equal]
pub struct FindingModel {
    pub label: Seq<char>,
    pub class: Reclaimability,
    pub note: Seq<char>,
    pub size: bulkstat::SizeInfo,
    pub inaccessible: u32,
    pub skipped_mounts: u32,
    pub count: nat,
    pub paths: Seq<Seq<char>>,
    pub rollup: bool,
}

impl View for Finding {
    type V = FindingModel;

    open spec fn view(&self) -> FindingModel {
        FindingModel {
            label: self.label@,
            class: self.class,
            note: self.note@,
            size: self.size,
            inaccessible: self.inaccessible,
            skipped_mounts: self.skipped_mounts,
            count: self.count as nat,
            paths: text::texts(self.paths@),
            rollup: self.rollup,
        }
    }
}

/// A vector of texts copied.
pub fn copy_texts(list: &Vec<String>) -> (r: Vec<String>)
    ensures
        text::texts(r@) == text::texts(list@),
{
    let mut r: Vec<String> = Vec::new();
    let mut i: usize = 0;
    while i < list.len()
        invariant
            i <= list@.len(),
            text::texts(r@) == text::texts(list@).take(i as int),
        decreases list@.len() - i,
    {
        let item = list[i].clone();
        proof {
            text::texts_push(r@, item);
        }
        r.push(item);
        i += 1;
        assert(text::texts(list@).take(i as int) =~= text::texts(list@).take(i - 1).push(
            text::texts(list@)[i - 1],
        ));
    }
    assert(text::texts(list@).take(list@.len() as int) =~= text::texts(list@));
    r
}

impl Clone for Finding {
    fn clone(&self) -> (r: Finding)
        ensures
            r@ == self@,
    {
        Finding {
            label: self.label.clone(),
            class: self.class,
            note: self.note.clone(),
            size: self.size,
            inaccessible: self.inaccessible,
            skipped_mounts: self.skipped_mounts,
            count: self.count,
            paths: copy_texts(&self.paths),
            rollup: self.rollup,
        }
    }
}

/// A directory of a category, with what a scan of it found.
#[derive(Debug)]
pub struct SizedPath {
    /// The number of the category in its table.
    pub category: usize,
    pub path: String,
    pub size: bulkstat::SizeInfo,
    pub inaccessible: u32,
    pub skipped_mounts: u32,
}

#[verifier::ext_equal]
pub struct SizedModel {
    pub category: int,
    pub path: Seq<char>,
    pub size: bulkstat::SizeInfo,
    pub inaccessible: u32,
    pub skipped_mounts: u32,
}

impl View for SizedPath {
    type V = SizedModel;

    open spec fn view(&self) -> SizedModel {
        SizedModel {
            category: self.category as int,
            path: self.path@,
            size: self.size,
            inaccessible: self.inaccessible,
            skipped_mounts: self.skipped_mounts,
        }
    }
}

/// The finding of a category before any directory was added.
pub open spec fn empty_finding(c: CategoryModel) -> FindingModel {
    FindingModel {
        label: c.label,
        class: c.class,
        note: c.note,
        size: bulkstat::SizeInfo { logical: 0, allocated: 0 },
        inaccessible: 0,
        skipped_mounts: 0,
        count: 0,
        paths: Seq::empty(),
        rollup: false,
    }
}

/// The finding of category `i`: all its directories, in the order they came,
/// with their sizes and counts added up.
pub open spec fn gathered(c: CategoryModel, i: int, scans: Seq<SizedModel>) -> FindingModel
    decreases scans.len(),
{
    if scans.len() == 0 {
        empty_finding(c)
    } else {
        let before = gathered(c, i, scans.drop_last());
        let scan = scans.last();
        if scan.category == i {
            FindingModel {
                size: bulkstat::size_sum(before.size, scan.size),
                inaccessible: bulkstat::capped_count(before.inaccessible + scan.inaccessible),
                skipped_mounts: bulkstat::capped_count(
                    before.skipped_mounts + scan.skipped_mounts,
                ),
                count: before.count + 1,
                paths: before.paths.push(scan.path),
                ..before
            }
        } else {
            before
        }
    }
}

/// The findings of the first `count` categories of a table that have a
/// directory, in the table's order.
pub open spec fn found_in(
    table: spec_fn(int) -> CategoryModel,
    count: nat,
    scans: Seq<SizedModel>,
) -> Seq<FindingModel>
    decreases count,
{
    if count == 0 {
        Seq::empty()
    } else {
        let i = count - 1;
        let before = found_in(table, i as nat, scans);
        let finding = gathered(table(i), i, scans);
        if finding.paths.len() > 0 {
            before.push(finding)
        } else {
            before
        }
    }
}

fn gather(c: FixedCategory, i: usize, scans: &Vec<SizedPath>) -> (r: Finding)
    ensures
        r@ == gathered(c@, i as int, sorting::views(scans@)),
        r.paths@.len() <= scans@.len(),
{
    let ghost all = sorting::views(scans@);
    let mut size = bulkstat::SizeInfo::default();
    let mut inaccessible: u32 = 0;
    let mut skipped_mounts: u32 = 0;
    let mut paths: Vec<String> = Vec::new();
    let mut k: usize = 0;
    assert(all.take(0) =~= Seq::<SizedModel>::empty());
    assert(text::texts(paths@) =~= Seq::<Seq<char>>::empty());
    while k < scans.len()
        invariant
            k <= scans@.len(),
            all == sorting::views(scans@),
            paths@.len() <= k,
            gathered(c@, i as int, all.take(k as int)) == (FindingModel {
                size,
                inaccessible,
                skipped_mounts,
                count: paths@.len(),
                paths: text::texts(paths@),
                ..empty_finding(c@)
            }),
        decreases scans@.len() - k,
    {
        let scan = &scans[k];
        let ghost next = all.take(k + 1);
        assert(next.drop_last() =~= all.take(k as int));
        assert(next.last() == scan@);
        if scan.category == i {
            size.add_file(scan.size);
            inaccessible = inaccessible.saturating_add(scan.inaccessible);
            skipped_mounts = skipped_mounts.saturating_add(scan.skipped_mounts);
            let path = scan.path.clone();
            proof {
                text::texts_push(paths@, path);
            }
            paths.push(path);
        }
        k += 1;
    }
    assert(all.take(all.len() as int) =~= all);
    Finding {
        label: c.label.to_owned(),
        class: c.class,
        note: c.note.to_owned(),
        size,
        inaccessible,
        skipped_mounts,
        count: paths.len(),
        paths,
        rollup: false,
    }
}

/// The findings of the fixed locations.
pub fn fixed_findings(scans: &Vec<SizedPath>) -> (r: Vec<Finding>)
    ensures
        sorting::views(r@) == found_in(
            |i: int| fixed_category(i),
            FIXED_CATEGORY_COUNT as nat,
            sorting::views(scans@),
        ),
{
    let ghost table = |i: int| fixed_category(i);
    let mut r: Vec<Finding> = Vec::new();
    let mut i: usize = 0;
    assert(sorting::views(r@) =~= Seq::<FindingModel>::empty());
    while i < FIXED_CATEGORY_COUNT
        invariant
            i <= FIXED_CATEGORY_COUNT,
            table == (|i: int| fixed_category(i)),
            sorting::views(r@) == found_in(table, i as nat, sorting::views(scans@)),
        decreases FIXED_CATEGORY_COUNT - i,
    {
        let finding = gather(get_fixed_category(i), i, scans);
        assert(finding@ == gathered(table(i as int), i as int, sorting::views(scans@)));
        if finding.paths.len() > 0 {
            proof {
                sorting::views_push(r@, finding);
            }
            r.push(finding);
        }
        i += 1;
    }
    r
}

/// The findings of the build artifacts.
pub fn artifact_findings(scans: &Vec<SizedPath>) -> (r: Vec<Finding>)
    ensures
        sorting::views(r@) == found_in(
            |i: int| artifact(i),
            ARTIFACT_COUNT as nat,
            sorting::views(scans@),
        ),
{
    let ghost table = |i: int| artifact(i);
    let mut r: Vec<Finding> = Vec::new();
    let mut i: usize = 0;
    assert(sorting::views(r@) =~= Seq::<FindingModel>::empty());
    while i < ARTIFACT_COUNT
        invariant
            i <= ARTIFACT_COUNT,
            table == (|i: int| artifact(i)),
            sorting::views(r@) == found_in(table, i as nat, sorting::views(scans@)),
        decreases ARTIFACT_COUNT - i,
    {
        let finding = gather(get_artifact(i), i, scans);
        assert(finding@ == gathered(table(i as int), i as int, sorting::views(scans@)));
        if finding.paths.len() > 0 {
            proof {
                sorting::views_push(r@, finding);
            }
            r.push(finding);
        }
        i += 1;
    }
    r
}

// ---------------------------------------------------------------------------
// Where to look
// ---------------------------------------------------------------------------

/// A fixed location that is worth looking at.
#[derive(Debug)]
pub struct CategoryPath {
    pub category: usize,
    pub path: String,
}

impl View for CategoryPath {
    type V = (int, Seq<char>);

    open spec fn view(&self) -> (int, Seq<char>) {
        (self.category as int, self.path@)
    }
}

/// A list with one more location of a category, where it lies under the root.
pub open spec fn with_location(
    list: Seq<(int, Seq<char>)>,
    root: Seq<char>,
    home: Seq<char>,
    i: int,
    rel: Seq<char>,
) -> Seq<(int, Seq<char>)> {
    let path = paths::join_text(home, rel);
    if paths::lies_under(paths::path_of(path), paths::path_of(root)) {
        list.push((i, path))
    } else {
        list
    }
}

/// The locations of the first `count` categories that lie under the root.
pub open spec fn locations(root: Seq<char>, home: Seq<char>, count: nat) -> Seq<(int, Seq<char>)>
    decreases count,
{
    if count == 0 {
        Seq::empty()
    } else {
        let i = count - 1;
        let c = fixed_category(i);
        let first = with_location(locations(root, home, i as nat), root, home, i, c.path);
        match c.other {
            Some(other) => with_location(first, root, home, i, other),
            None => first,
        }
    }
}

fn add_location(list: &mut Vec<CategoryPath>, root: &str, home: &str, i: usize, rel: &str)
    ensures
        sorting::views(final(list)@) == with_location(
            sorting::views(old(list)@),
            root@,
            home@,
            i as int,
            rel@,
        ),
{
    let path = paths::path_join(home, rel);
    if paths::path_starts_with(path.as_str(), root) {
        let item = CategoryPath { category: i, path };
        proof {
            sorting::views_push(list@, item);
        }
        list.push(item);
    }
}

/// The fixed locations below `home` that lie under `root`; those that are
/// directories are to be sized.
pub fn fixed_locations(root: &str, home: &str) -> (r: Vec<CategoryPath>)
    ensures
        sorting::views(r@) == locations(root@, home@, FIXED_CATEGORY_COUNT as nat),
{
    let mut r: Vec<CategoryPath> = Vec::new();
    let mut i: usize = 0;
    assert(sorting::views(r@) =~= Seq::<(int, Seq<char>)>::empty());
    while i < FIXED_CATEGORY_COUNT
        invariant
            i <= FIXED_CATEGORY_COUNT,
            sorting::views(r@) == locations(root@, home@, i as nat),
        decreases FIXED_CATEGORY_COUNT - i,
    {
        let c = get_fixed_category(i);
        add_location(&mut r, root, home, i, c.path);
        match c.other {
            Some(other) => {
                add_location(&mut r, root, home, i, other);
            },
            None => {},
        }
        i += 1;
    }
    r
}

/// The artifact with a name, among the first `count` of the table.
pub open spec fn artifact_index(name: Seq<char>, count: nat) -> Option<int>
    decreases count,
{
    if count == 0 {
        None
    } else if artifact_index(name, (count - 1) as nat) is Some {
        artifact_index(name, (count - 1) as nat)
    } else if artifact(count - 1).path == name {
        Some(count - 1)
    } else {
        None
    }
}

/// The artifact with a name.
pub fn find_artifact(name: &str) -> (r: Option<usize>)
    ensures
        match r {
            Some(i) => i < ARTIFACT_COUNT && artifact_index(name@, ARTIFACT_COUNT as nat) == Some(
                i as int,
            ),
            None => artifact_index(name@, ARTIFACT_COUNT as nat) is None,
        },
{
    let mut found: Option<usize> = None;
    let mut i: usize = 0;
    while i < ARTIFACT_COUNT
        invariant
            i <= ARTIFACT_COUNT,
            match found {
                Some(k) => k < i && artifact_index(name@, i as nat) == Some(k as int),
                None => artifact_index(name@, i as nat) is None,
            },
        decreases ARTIFACT_COUNT - i,
    {
        if found.is_none() {
            let c = get_artifact(i);
            if text::same_text(c.path, name) {
                found = Some(i);
            }
        }
        i += 1;
    }
    found
}

/// Whether the artifact walk goes into a directory with this name: not into the
/// `Library` tree, whose caches are fixed locations, nor into hidden ones.
pub open spec fn descends(name: Seq<char>) -> bool {
    name != "Library"@ && !(name.len() > 0 && name[0] == '.')
}

pub fn should_descend(name: &str) -> (r: bool)
    ensures
        r == descends(name@),
{
    if text::same_text(name, "Library") {
        return false;
    }
    let chars = text::chars_of(name);
    !(chars.len() > 0 && chars[0] == '.')
}

/// A directory that the artifact walk is still to read, with its depth.
#[derive(Debug)]
pub struct PendingDir {
    pub path: String,
    pub depth: usize,
}

impl View for PendingDir {
    type V = (Seq<char>, nat);

    open spec fn view(&self) -> (Seq<char>, nat) {
        (self.path@, self.depth as nat)
    }
}

/// The state of the artifact walk: what is still to be read, the next one last,
/// and the artifacts found so far.
pub struct ArtifactWalk {
    pub pending: Vec<PendingDir>,
    pub hits: Vec<CategoryPath>,
}

#[verifier::ext_equal]
pub struct ArtifactWalkModel {
    pub pending: Seq<(Seq<char>, nat)>,
    pub hits: Seq<(int, Seq<char>)>,
}

impl View for ArtifactWalk {
    type V = ArtifactWalkModel;

    open spec fn view(&self) -> ArtifactWalkModel {
        ArtifactWalkModel {
            pending: sorting::views(self.pending@),
            hits: sorting::views(self.hits@),
        }
    }
}

/// The walk after a subdirectory `name` of `dir` was met. An artifact is noted
/// and not entered; another directory is entered later, unless it lies too deep
/// or is one to stay out of.
pub open spec fn with_directory(
    walk: ArtifactWalkModel,
    dir: Seq<char>,
    depth: nat,
    name: Seq<char>,
) -> ArtifactWalkModel {
    let path = paths::join_text(dir, name);
    match artifact_index(name, ARTIFACT_COUNT as nat) {
        Some(i) => ArtifactWalkModel { hits: walk.hits.push((i, path)), ..walk },
        None => if depth < MAX_ARTIFACT_DEPTH && descends(name) {
            ArtifactWalkModel { pending: walk.pending.push((path, depth + 1)), ..walk }
        } else {
            walk
        },
    }
}

/// The walk after all the subdirectories of `dir` were met.
pub open spec fn with_directories(
    walk: ArtifactWalkModel,
    dir: Seq<char>,
    depth: nat,
    names: Seq<Seq<char>>,
) -> ArtifactWalkModel
    decreases names.len(),
{
    if names.len() == 0 {
        walk
    } else {
        with_directory(
            with_directories(walk, dir, depth, names.drop_last()),
            dir,
            depth,
            names.last(),
        )
    }
}

impl ArtifactWalk {
    /// A walk that starts at `root`.
    pub fn new(root: &str) -> (walk: ArtifactWalk)
        ensures
            walk@.pending == seq![(root@, 0nat)],
            walk@.hits == Seq::<(int, Seq<char>)>::empty(),
    {
        let mut pending: Vec<PendingDir> = Vec::new();
        pending.push(PendingDir { path: root.to_owned(), depth: 0 });
        let walk = ArtifactWalk { pending, hits: Vec::new() };
        assert(walk@.pending =~= seq![(root@, 0nat)]);
        assert(walk@.hits =~= Seq::<(int, Seq<char>)>::empty());
        walk
    }

    /// The directory to read next.
    pub fn next_dir(&mut self) -> (r: Option<PendingDir>)
        ensures
            match r {
                Some(dir) => old(self)@.pending == final(self)@.pending.push(dir@),
                None => old(self)@.pending.len() == 0 && final(self)@ == old(self)@,
            },
            final(self)@.hits == old(self)@.hits,
    {
        let ghost before = self.pending@;
        match self.pending.pop() {
            Some(dir) => {
                proof {
                    sorting::views_push(self.pending@, dir);
                    assert(self.pending@.push(dir) =~= before);
                }
                Some(dir)
            },
            None => None,
        }
    }

    /// Takes in the names of the subdirectories of `dir`, symbolic links left
    /// out.
    pub fn visit(&mut self, dir: &PendingDir, names: &Vec<String>)
        requires
            dir.depth < usize::MAX,
        ensures
            final(self)@ == with_directories(
                old(self)@,
                dir@.0,
                dir@.1,
                text::texts(names@),
            ),
    {
        let ghost start = self@;
        let ghost all = text::texts(names@);
        let mut i: usize = 0;
        assert(all.take(0) =~= Seq::<Seq<char>>::empty());
        while i < names.len()
            invariant
                i <= names@.len(),
                dir.depth < usize::MAX,
                all == text::texts(names@),
                self@ == with_directories(start, dir@.0, dir@.1, all.take(i as int)),
            decreases names@.len() - i,
        {
            let name = names[i].as_str();
            assert(all.take(i + 1).drop_last() =~= all.take(i as int));
            assert(all.take(i + 1).last() == name@);
            let path = paths::path_join(dir.path.as_str(), name);
            match find_artifact(name) {
                Some(category) => {
                    let hit = CategoryPath { category, path };
                    proof {
                        sorting::views_push(self.hits@, hit);
                    }
                    self.hits.push(hit);
                },
                None => {
                    if dir.depth < MAX_ARTIFACT_DEPTH && should_descend(name) {
                        let below = PendingDir { path, depth: dir.depth + 1 };
                        proof {
                            sorting::views_push(self.pending@, below);
                        }
                        self.pending.push(below);
                    }
                },
            }
            i += 1;
        }
        assert(all.take(all.len() as int) =~= all);
    }
}

/// The class of a directory that is one of the fixed locations below `home`,
/// among the first `count`.
pub open spec fn class_of_location(path: Seq<char>, home: Seq<char>, count: nat) -> Option<
    Reclaimability,
>
    decreases count,
{
    if count == 0 {
        None
    } else if class_of_location(path, home, (count - 1) as nat) is Some {
        class_of_location(path, home, (count - 1) as nat)
    } else {
        let c = fixed_category(count - 1);
        let p = paths::path_of(path);
        if p == paths::path_of(paths::join_text(home, c.path)) || (c.other is Some && p
            == paths::path_of(paths::join_text(home, c.other->0))) {
            Some(c.class)
        } else {
            None
        }
    }
}

/// How a directory is classified by its name and path alone: by its name where
/// that is an artifact's, else as a fixed location.
pub open spec fn class_by_name(name: Seq<char>, path: Seq<char>, home: Option<Seq<char>>) -> Option<
    Reclaimability,
> {
    match artifact_index(name, ARTIFACT_COUNT as nat) {
        Some(i) => Some(artifact(i).class),
        None => match home {
            Some(h) => class_of_location(path, h, FIXED_CATEGORY_COUNT as nat),
            None => None,
        },
    }
}

/// Classifies a directory by its name and path alone.
pub fn classify_by_name_path(name: &str, path: &str, home: Option<&str>) -> (r: Option<
    Reclaimability,
>)
    ensures
        r == class_by_name(
            name@,
            path@,
            match home {
                Some(h) => Some(h@),
                None => None,
            },
        ),
{
    match find_artifact(name) {
        Some(i) => Some(get_artifact(i).class),
        None => match home {
            Some(h) => {
                let mut found: Option<Reclaimability> = None;
                let mut i: usize = 0;
                while i < FIXED_CATEGORY_COUNT
                    invariant
                        i <= FIXED_CATEGORY_COUNT,
                        found == class_of_location(path@, h@, i as nat),
                    decreases FIXED_CATEGORY_COUNT - i,
                {
                    if found.is_none() {
                        let c = get_fixed_category(i);
                        let at = paths::path_join(h, c.path);
                        let mut hit = paths::path_equals(path, at.as_str());
                        match c.other {
                            Some(other) => {
                                let also = paths::path_join(h, other);
                                hit = hit || paths::path_equals(path, also.as_str());
                            },
                            None => {},
                        }
                        if hit {
                            found = Some(c.class);
                        }
                    }
                    i += 1;
                }
                found
            },
            None => None,
        },
    }
}

// ---------------------------------------------------------------------------
// The report
// ---------------------------------------------------------------------------

/// `descendant` lies inside `ancestor`, and is not the same path.
pub open spec fn strictly_inside(ancestor: Seq<char>, descendant: Seq<char>) -> bool {
    paths::path_of(ancestor) != paths::path_of(descendant) && paths::lies_under(
        paths::path_of(descendant),
        paths::path_of(ancestor),
    )
}

pub fn is_strict_prefix(ancestor: &str, descendant: &str) -> (r: bool)
    ensures
        r == strictly_inside(ancestor@, descendant@),
{
    if paths::path_equals(ancestor, descendant) {
        return false;
    }
    paths::path_starts_with(descendant, ancestor)
}

/// Some path of `child` lies inside some path of `parent`.
pub open spec fn reaches_into(parent: Seq<Seq<char>>, child: Seq<Seq<char>>) -> bool {
    exists|p: int, q: int|
        0 <= p < parent.len() && 0 <= q < child.len() && #[trigger] strictly_inside(
            parent[p],
            child[q],
        )
}

/// Some path of another finding lies inside some path of finding `i`.
pub open spec fn contains_another(findings: Seq<FindingModel>, i: int) -> bool {
    exists|j: int|
        0 <= j < findings.len() && j != i && #[trigger] reaches_into(
            findings[i].paths,
            findings[j].paths,
        )
}

/// The findings with those marked that contain another one.
pub open spec fn with_rollups(findings: Seq<FindingModel>) -> Seq<FindingModel> {
    Seq::new(
        findings.len(),
        |i: int|
            FindingModel {
                rollup: findings[i].rollup || contains_another(findings, i),
                ..findings[i]
            },
    )
}

fn paths_reach_into(parent: &Vec<String>, child: &Vec<String>) -> (r: bool)
    ensures
        r == reaches_into(text::texts(parent@), text::texts(child@)),
{
    let ghost ps = text::texts(parent@);
    let ghost cs = text::texts(child@);
    let mut p: usize = 0;
    while p < parent.len()
        invariant
            p <= parent@.len(),
            ps == text::texts(parent@),
            cs == text::texts(child@),
            forall|a: int, b: int|
                0 <= a < p && 0 <= b < cs.len() ==> !#[trigger] strictly_inside(ps[a], cs[b]),
        decreases parent@.len() - p,
    {
        let mut q: usize = 0;
        while q < child.len()
            invariant
                p < parent@.len(),
                q <= child@.len(),
                ps == text::texts(parent@),
                cs == text::texts(child@),
                forall|b: int| 0 <= b < q ==> !#[trigger] strictly_inside(ps[p as int], cs[b]),
            decreases child@.len() - q,
        {
            if is_strict_prefix(parent[p].as_str(), child[q].as_str()) {
                assert(strictly_inside(ps[p as int], cs[q as int]));
                return true;
            }
            q += 1;
        }
        p += 1;
    }
    false
}

/// Marks every finding that contains another one.
pub fn mark_rollups(findings: &mut Vec<Finding>)
    ensures
        sorting::views(final(findings)@) == with_rollups(sorting::views(old(findings)@)),
{
    let ghost start = sorting::views(findings@);
    let mut marks: Vec<bool> = Vec::new();
    let mut i: usize = 0;
    while i < findings.len()
        invariant
            i <= findings@.len(),
            marks@.len() == i,
            start == sorting::views(findings@),
            forall|k: int| 0 <= k < i ==> marks@[k] == #[trigger] contains_another(start, k),
        decreases findings@.len() - i,
    {
        let mut mark = false;
        let mut j: usize = 0;
        while j < findings.len() && !mark
            invariant
                i < findings@.len(),
                j <= findings@.len(),
                start == sorting::views(findings@),
                mark ==> contains_another(start, i as int),
                !mark ==> forall|b: int|
                    0 <= b < j && b != i ==> !#[trigger] reaches_into(
                        start[i as int].paths,
                        start[b].paths,
                    ),
            decreases findings@.len() - j,
        {
            if j != i && paths_reach_into(&findings[i].paths, &findings[j].paths) {
                assert(reaches_into(start[i as int].paths, start[j as int].paths));
                mark = true;
            }
            j += 1;
        }
        marks.push(mark);
        i += 1;
    }
    let mut k: usize = 0;
    while k < findings.len()
        invariant
            k <= findings@.len(),
            findings@.len() == marks@.len(),
            findings@.len() == start.len(),
            forall|a: int| 0 <= a < start.len() ==> marks@[a] == #[trigger] contains_another(
                start,
                a,
            ),
            forall|a: int|
                0 <= a < start.len() ==> #[trigger] sorting::views(findings@)[a] == if a < k {
                    with_rollups(start)[a]
                } else {
                    start[a]
                },
        decreases findings@.len() - k,
    {
        let ghost before = sorting::views(findings@);
        assert(marks@[k as int] == contains_another(start, k as int));
        assert(before[k as int] == start[k as int]);
        assert(findings@[k as int]@ == start[k as int]);
        if marks[k] {
            findings[k].rollup = true;
        }
        assert(sorting::views(findings@)[k as int] == with_rollups(start)[k as int]);
        assert forall|a: int| 0 <= a < start.len() && a != k implies #[trigger] sorting::views(
            findings@,
        )[a] == before[a] by {}
        k += 1;
    }
    assert(sorting::views(findings@) =~= with_rollups(start));
}

/// Findings by allocated bytes, then logical bytes, the largest first, then by
/// label.
pub struct FindingOrder;

impl sorting::Order<FindingModel> for FindingOrder {
    open spec fn before(&self, a: FindingModel, b: FindingModel) -> bool {
        if a.size.allocated != b.size.allocated {
            a.size.allocated > b.size.allocated
        } else if a.size.logical != b.size.logical {
            a.size.logical > b.size.logical
        } else {
            text::text_less(a.label, b.label)
        }
    }

    proof fn is_order(&self, a: FindingModel, b: FindingModel, c: FindingModel) {
        text::text_order_total(a.label, b.label);
        text::text_order_total(b.label, c.label);
        text::text_order_total(a.label, c.label);
        if text::text_less(c.label, a.label) && text::text_less(a.label, b.label) {
            text::text_order_transitive(c.label, a.label, b.label);
        }
        if text::text_less(b.label, c.label) && text::text_less(c.label, a.label) {
            text::text_order_transitive(b.label, c.label, a.label);
        }
    }
}

impl sorting::Arranged<Finding> for FindingOrder {
    fn goes_before(&self, a: &Finding, b: &Finding) -> (r: bool) {
        if a.size.allocated != b.size.allocated {
            a.size.allocated > b.size.allocated
        } else if a.size.logical != b.size.logical {
            a.size.logical > b.size.logical
        } else {
            text::text_is_less(a.label.as_str(), b.label.as_str())
        }
    }
}

/// The findings that hold any bytes.
pub open spec fn with_bytes(findings: Seq<FindingModel>) -> Seq<FindingModel>
    decreases findings.len(),
{
    if findings.len() == 0 {
        Seq::empty()
    } else {
        let before = with_bytes(findings.drop_last());
        let f = findings.last();
        if f.size.allocated > 0 || f.size.logical > 0 {
            before.push(f)
        } else {
            before
        }
    }
}

/// The findings as they are reported: those with bytes, the largest first, with
/// the ones marked that contain another.
pub open spec fn reported_findings(found: Seq<FindingModel>) -> Seq<FindingModel> {
    with_rollups(sorting::arranged(&FindingOrder, with_bytes(found)))
}

/// Sizes and counts of the findings that are not roll-ups, added up.
pub open spec fn total_of(findings: Seq<FindingModel>) -> (bulkstat::SizeInfo, u32, u32)
    decreases findings.len(),
{
    if findings.len() == 0 {
        (bulkstat::SizeInfo { logical: 0, allocated: 0 }, 0, 0)
    } else {
        let before = total_of(findings.drop_last());
        let f = findings.last();
        if f.rollup {
            before
        } else {
            (
                bulkstat::size_sum(before.0, f.size),
                bulkstat::capped_count(before.1 + f.inaccessible),
                bulkstat::capped_count(before.2 + f.skipped_mounts),
            )
        }
    }
}

/// A reclaim report.
#[derive(Debug)]
pub struct ReclaimReport {
    pub root: String,
    pub findings: Vec<Finding>,
    pub total: bulkstat::SizeInfo,
    pub inaccessible: u32,
    pub skipped_mounts: u32,
}

#[verifier::ext_equal]
pub struct ReportModel {
    pub root: Seq<char>,
    pub findings: Seq<FindingModel>,
    pub total: bulkstat::SizeInfo,
    pub inaccessible: u32,
    pub skipped_mounts: u32,
}

impl View for ReclaimReport {
    type V = ReportModel;

    open spec fn view(&self) -> ReportModel {
        ReportModel {
            root: self.root@,
            findings: sorting::views(self.findings@),
            total: self.total,
            inaccessible: self.inaccessible,
            skipped_mounts: self.skipped_mounts,
        }
    }
}

impl Default for ReclaimReport {
    fn default() -> (r: ReclaimReport)
        ensures
            r@ == report_from(Seq::empty(), Seq::empty()),
    {
        let r = ReclaimReport {
            root: String::new(),
            findings: Vec::new(),
            total: bulkstat::SizeInfo::default(),
            inaccessible: 0,
            skipped_mounts: 0,
        };
        assert(reported_findings(Seq::empty()) =~= Seq::<FindingModel>::empty());
        assert(r@.findings =~= Seq::<FindingModel>::empty());
        r
    }
}

/// The report of what was found under a root.
pub open spec fn report_from(root: Seq<char>, found: Seq<FindingModel>) -> ReportModel {
    let findings = reported_findings(found);
    let (total, inaccessible, skipped_mounts) = total_of(findings);
    ReportModel { root, findings, total, inaccessible, skipped_mounts }
}

fn keep_with_bytes(found: Vec<Finding>) -> (r: Vec<Finding>)
    ensures
        sorting::views(r@) == with_bytes(sorting::views(found@)),
{
    let ghost all = sorting::views(found@);
    let mut r: Vec<Finding> = Vec::new();
    let mut i: usize = 0;
    assert(all.take(0) =~= Seq::<FindingModel>::empty());
    assert(sorting::views(r@) =~= Seq::<FindingModel>::empty());
    while i < found.len()
        invariant
            i <= found@.len(),
            all == sorting::views(found@),
            sorting::views(r@) == with_bytes(all.take(i as int)),
        decreases found@.len() - i,
    {
        let f = &found[i];
        assert(all.take(i + 1).drop_last() =~= all.take(i as int));
        assert(all.take(i + 1).last() == f@);
        if f.size.allocated > 0 || f.size.logical > 0 {
            let item = f.clone();
            proof {
                sorting::views_push(r@, item);
            }
            r.push(item);
        }
        i += 1;
    }
    assert(all.take(all.len() as int) =~= all);
    r
}

/// The report of what the two passes found under `root`.
pub fn report_with_home(root: &str, fixed: &Vec<SizedPath>, artifacts: &Vec<SizedPath>) -> (r:
    ReclaimReport)
    ensures
        r@ == report_from(
            root@,
            found_in(
                |i: int| fixed_category(i),
                FIXED_CATEGORY_COUNT as nat,
                sorting::views(fixed@),
            ) + found_in(
                |i: int| artifact(i),
                ARTIFACT_COUNT as nat,
                sorting::views(artifacts@),
            ),
        ),
{
    let mut found = fixed_findings(fixed);
    let mut built = artifact_findings(artifacts);
    let ghost a = found@;
    let ghost b = built@;
    found.append(&mut built);
    assert(sorting::views(found@) =~= sorting::views(a) + sorting::views(b));
    let kept = keep_with_bytes(found);
    let mut findings = sorting::arrange(&FindingOrder, kept);
    mark_rollups(&mut findings);
    let ghost all = sorting::views(findings@);
    let mut total = bulkstat::SizeInfo::default();
    let mut inaccessible: u32 = 0;
    let mut skipped_mounts: u32 = 0;
    let mut i: usize = 0;
    assert(all.take(0) =~= Seq::<FindingModel>::empty());
    while i < findings.len()
        invariant
            i <= findings@.len(),
            all == sorting::views(findings@),
            (total, inaccessible, skipped_mounts) == total_of(all.take(i as int)),
        decreases findings@.len() - i,
    {
        let f = &findings[i];
        assert(all.take(i + 1).drop_last() =~= all.take(i as int));
        assert(all.take(i + 1).last() == f@);
        if !f.rollup {
            total.add_file(f.size);
            inaccessible = inaccessible.saturating_add(f.inaccessible);
            skipped_mounts = skipped_mounts.saturating_add(f.skipped_mounts);
        }
        i += 1;
    }
    assert(all.take(all.len() as int) =~= all);
    ReclaimReport { root: root.to_owned(), findings, total, inaccessible, skipped_mounts }
}

// ---------------------------------------------------------------------------
// Laws
// ---------------------------------------------------------------------------

/// No byte is counted twice by way of nesting: of the findings that enter the
/// total, none holds a path that lies inside a path of another one.
pub proof fn total_counts_no_nested_finding(found: Seq<FindingModel>, i: int, j: int, p: int, q: int)
    requires
        0 <= i < reported_findings(found).len(),
        0 <= j < reported_findings(found).len(),
        i != j,
        !reported_findings(found)[i].rollup,
        0 <= p < reported_findings(found)[i].paths.len(),
        0 <= q < reported_findings(found)[j].paths.len(),
    ensures
        !strictly_inside(
            reported_findings(found)[i].paths[p],
            reported_findings(found)[j].paths[q],
        ),
{
    let sorted = sorting::arranged(&FindingOrder, with_bytes(found));
    let all = reported_findings(found);
    assert(all[i].paths == sorted[i].paths && all[j].paths == sorted[j].paths);
    assert(!contains_another(sorted, i));
    assert(!reaches_into(sorted[i].paths, sorted[j].paths));
}

/// A finding is left out of the total only where another finding lies inside
/// it.
pub proof fn rollups_contain_a_finding(found: Seq<FindingModel>, i: int)
    requires
        0 <= i < reported_findings(found).len(),
        forall|k: int| 0 <= k < found.len() ==> !(#[trigger] found[k]).rollup,
        reported_findings(found)[i].rollup,
    ensures
        contains_another(reported_findings(found), i),
{
    let kept = with_bytes(found);
    let sorted = sorting::arranged(&FindingOrder, kept);
    let all = reported_findings(found);
    with_bytes_unmarked(found);
    sorting::arranged_keeps_items(&FindingOrder, kept);
    assert(!sorted[i].rollup) by {
        broadcast use vstd::seq_lib::group_to_multiset_ensures;

        assert(sorted.contains(sorted[i]));
        assert(sorted.to_multiset().count(sorted[i]) > 0);
        assert(kept.contains(sorted[i]));
    }
    assert(contains_another(sorted, i));
    let j = choose|j: int|
        0 <= j < sorted.len() && j != i && #[trigger] reaches_into(
            sorted[i].paths,
            sorted[j].paths,
        );
    assert(reaches_into(all[i].paths, all[j].paths));
}

proof fn with_bytes_unmarked(found: Seq<FindingModel>)
    requires
        forall|k: int| 0 <= k < found.len() ==> !(#[trigger] found[k]).rollup,
    ensures
        forall|k: int| 0 <= k < with_bytes(found).len() ==> !(#[trigger] with_bytes(
            found,
        )[k]).rollup,
    decreases found.len(),
{
    if found.len() > 0 {
        assert forall|k: int| 0 <= k < found.drop_last().len() implies !(
        #[trigger] found.drop_last()[k]).rollup by {
            assert(found.drop_last()[k] == found[k]);
        }
        with_bytes_unmarked(found.drop_last());
        assert(found.last() == found[found.len() - 1]);
    }
}

/// The artifact walk as a search that goes down: it goes into what is no
/// artifact itself and not to be stayed out of.
pub open spec fn artifact_descent(root: Seq<char>) -> descent::Descent {
    descent::Descent {
        root,
        max_depth: MAX_ARTIFACT_DEPTH as nat,
        enters: |name: Seq<char>|
            artifact_index(name, ARTIFACT_COUNT as nat) is None && descends(name),
    }
}

/// An artifact walk after some steps.
pub open spec fn artifact_walk(
    root: Seq<char>,
    events: Seq<descent::DescentEvent>,
) -> ArtifactWalkModel
    decreases events.len(),
{
    if events.len() == 0 {
        ArtifactWalkModel { pending: seq![(root, 0nat)], hits: Seq::empty() }
    } else {
        let walk = artifact_walk(root, events.drop_last());
        match events.last() {
            descent::DescentEvent::Took => ArtifactWalkModel {
                pending: walk.pending.drop_last(),
                ..walk
            },
            descent::DescentEvent::Looked { dir, names } => with_directories(
                walk,
                dir.0,
                dir.1,
                names,
            ),
        }
    }
}

/// The artifacts among the directories that were met.
pub open spec fn artifacts_among(met: Seq<descent::MetDir>) -> Seq<(int, Seq<char>)>
    decreases met.len(),
{
    if met.len() == 0 {
        Seq::empty()
    } else {
        let before = artifacts_among(met.drop_last());
        match artifact_index(met.last().name, ARTIFACT_COUNT as nat) {
            Some(i) => before.push((i, met.last().path())),
            None => before,
        }
    }
}

proof fn artifacts_in_parts(met: Seq<descent::MetDir>, more: Seq<descent::MetDir>)
    ensures
        artifacts_among(met + more) == artifacts_among(met) + artifacts_among(more),
    decreases more.len(),
{
    if more.len() == 0 {
        assert(met + more =~= met);
        assert(artifacts_among(met) + artifacts_among(more) =~= artifacts_among(met));
    } else {
        assert((met + more).drop_last() =~= met + more.drop_last());
        artifacts_in_parts(met, more.drop_last());
        assert(artifacts_among(met + more) =~= artifacts_among(met) + artifacts_among(more));
    }
}

proof fn visiting_is_looking(
    walk: ArtifactWalkModel,
    root: Seq<char>,
    dir: (Seq<char>, nat),
    names: Seq<Seq<char>>,
)
    ensures
        ({
            let met = descent::met_in(dir, names);
            with_directories(walk, dir.0, dir.1, names) == (ArtifactWalkModel {
                pending: walk.pending + artifact_descent(root).entered(met),
                hits: walk.hits + artifacts_among(met),
            })
        }),
    decreases names.len(),
{
    let met = descent::met_in(dir, names);
    let after = with_directories(walk, dir.0, dir.1, names);
    if names.len() > 0 {
        visiting_is_looking(walk, root, dir, names.drop_last());
        assert(met.drop_last() =~= descent::met_in(dir, names.drop_last()));
    }
    assert(after.pending =~= walk.pending + artifact_descent(root).entered(met));
    assert(after.hits =~= walk.hits + artifacts_among(met));
}

/// An artifact walk is such a search: what is pending waits in it, and the hits
/// are the artifacts among the directories that were met, in order.
pub proof fn an_artifact_walk_is_a_descent(root: Seq<char>, events: Seq<descent::DescentEvent>)
    ensures
        ({
            let search = descent::search(artifact_descent(root), events);
            artifact_walk(root, events) == (ArtifactWalkModel {
                pending: search.waiting,
                hits: artifacts_among(search.met),
            })
        }),
    decreases events.len(),
{
    if events.len() > 0 {
        an_artifact_walk_is_a_descent(root, events.drop_last());
        let before = artifact_walk(root, events.drop_last());
        let search = descent::search(artifact_descent(root), events.drop_last());
        match events.last() {
            descent::DescentEvent::Took => {},
            descent::DescentEvent::Looked { dir, names } => {
                visiting_is_looking(before, root, dir, names);
                artifacts_in_parts(search.met, descent::met_in(dir, names));
            },
        }
    }
}

proof fn artifact_is_met(met: Seq<descent::MetDir>, i: int) -> (k: int)
    requires
        0 <= i < artifacts_among(met).len(),
    ensures
        0 <= k < met.len(),
        artifact_index(met[k].name, ARTIFACT_COUNT as nat) is Some,
        artifacts_among(met)[i].1 == met[k].path(),
    decreases met.len(),
{
    let less = met.drop_last();
    if i < artifacts_among(less).len() {
        let k = artifact_is_met(less, i);
        assert(less[k] == met[k]);
        k
    } else {
        met.len() - 1
    }
}

/// A hit lies below the root behind directories that are gone into, and none of
/// those is an artifact.
proof fn hits_lie_at(root: Seq<char>, events: Seq<descent::DescentEvent>, i: int) -> (r: (
    Seq<Seq<char>>,
    Seq<char>,
))
    requires
        descent::search(artifact_descent(root), events).possible,
        0 <= i < artifact_walk(root, events).hits.len(),
    ensures
        artifact_index(r.1, ARTIFACT_COUNT as nat) is Some,
        paths::path_of(artifact_walk(root, events).hits[i].1) == (paths::PathModel {
            parts: paths::path_of(root).parts + r.0.push(r.1),
            ..paths::path_of(root)
        }),
        forall|k: int|
            0 <= k < r.0.len() ==> artifact_index(#[trigger] r.0[k], ARTIFACT_COUNT as nat) is None,
{
    let d = artifact_descent(root);
    let search = descent::search(d, events);
    an_artifact_walk_is_a_descent(root, events);
    let k = artifact_is_met(search.met, i);
    let m = search.met[k];
    descent::what_is_met_is_in_reach(d, events, k);
    let trail = choose|trail: Seq<Seq<char>>| #[trigger]
        descent::lies_at(d, (m.dir, m.depth), trail);
    paths::entries_lie_below(m.dir, m.name);
    let top = paths::path_of(root).parts;
    assert((top + trail).push(m.name) =~= top + trail.push(m.name));
    (trail, m.name)
}

/// In whichever order directories are read: every artifact that is found lies
/// inside the root.
pub proof fn artifacts_lie_under_the_root(
    root: Seq<char>,
    events: Seq<descent::DescentEvent>,
    i: int,
)
    requires
        descent::search(artifact_descent(root), events).possible,
        0 <= i < artifact_walk(root, events).hits.len(),
    ensures
        strictly_inside(root, artifact_walk(root, events).hits[i].1),
{
    let (trail, name) = hits_lie_at(root, events, i);
    let top = paths::path_of(root).parts;
    let all = top + trail.push(name);
    assert(all.subrange(0, top.len() as int) =~= top);
    assert(all.len() > top.len());
}

/// In whichever order directories are read: no artifact that is found lies
/// inside another one.
pub proof fn artifacts_do_not_overlap(
    root: Seq<char>,
    events: Seq<descent::DescentEvent>,
    i: int,
    j: int,
)
    requires
        descent::search(artifact_descent(root), events).possible,
        0 <= i < artifact_walk(root, events).hits.len(),
        0 <= j < artifact_walk(root, events).hits.len(),
    ensures
        !strictly_inside(
            artifact_walk(root, events).hits[i].1,
            artifact_walk(root, events).hits[j].1,
        ),
{
    let (trail, name) = hits_lie_at(root, events, i);
    let (other, last) = hits_lie_at(root, events, j);
    let top = paths::path_of(root).parts;
    let a = top + trail.push(name);
    let b = top + other.push(last);
    let (outer, inner) = (
        artifact_walk(root, events).hits[i].1,
        artifact_walk(root, events).hits[j].1,
    );
    if strictly_inside(outer, inner) {
        let at = top.len() + trail.len();
        assert(b.subrange(0, a.len() as int) == a);
        assert(a[at as int] == name);
        if a.len() == b.len() {
            assert(b.subrange(0, a.len() as int) =~= b);
        } else {
            assert(b.subrange(0, a.len() as int)[at as int] == b[at as int]);
            assert(b[at as int] == other[trail.len() as int]);
        }
    }
}

/// In whichever order directories are read: with nothing pending, every
/// directory that was met was a hit, or was handed out once, or lies too deep or
/// is one to stay out of.
pub proof fn an_artifact_walk_leaves_nothing_out(
    root: Seq<char>,
    events: Seq<descent::DescentEvent>,
    k: int,
)
    requires
        descent::search(artifact_descent(root), events).possible,
        artifact_walk(root, events).pending.len() == 0,
        0 <= k < descent::search(artifact_descent(root), events).met.len(),
    ensures
        ({
            let search = descent::search(artifact_descent(root), events);
            let m = search.met[k];
            let index = artifact_index(m.name, ARTIFACT_COUNT as nat);
            let enters = index is None && m.depth < MAX_ARTIFACT_DEPTH && descends(m.name);
            &&& index is Some ==> artifact_walk(root, events).hits.contains((index->0, m.path()))
            &&& enters ==> sums::times(search.handed, (m.path(), m.depth + 1)) == 1
            &&& !enters ==> !search.handed.contains((m.path(), m.depth + 1))
        }),
{
    let d = artifact_descent(root);
    let search = descent::search(d, events);
    let m = search.met[k];
    an_artifact_walk_is_a_descent(root, events);
    if artifact_index(m.name, ARTIFACT_COUNT as nat) is Some {
        artifact_is_listed(search.met, k);
    }
    descent::met_is_handed_out_or_left_out(d, events, k);
}

proof fn artifact_is_listed(met: Seq<descent::MetDir>, k: int)
    requires
        0 <= k < met.len(),
        artifact_index(met[k].name, ARTIFACT_COUNT as nat) is Some,
    ensures
        artifacts_among(met).contains(
            (artifact_index(met[k].name, ARTIFACT_COUNT as nat)->0, met[k].path()),
        ),
    decreases met.len(),
{
    let hit = (artifact_index(met[k].name, ARTIFACT_COUNT as nat)->0, met[k].path());
    let all = artifacts_among(met);
    if k == met.len() - 1 {
        assert(all[all.len() - 1] == hit);
    } else {
        let less = met.drop_last();
        assert(less[k] == met[k]);
        artifact_is_listed(less, k);
        let i = choose|i: int| 0 <= i < artifacts_among(less).len() && artifacts_among(less)[i]
            == hit;
        assert(all[i] == hit);
    }
}

/// A number of bytes as it is shown: all of them, or as many as 64 bits hold.
pub open spec fn at_most_64(n: int) -> int {
    if n > 0xffff_ffff_ffff_ffff {
        0xffff_ffff_ffff_ffff
    } else {
        n
    }
}

/// A count as it is shown: all of it, or as much as 32 bits hold.
pub open spec fn at_most_32(n: int) -> int {
    if n > 0xffff_ffff {
        0xffff_ffff
    } else {
        n
    }
}

/// What a scan adds to the finding of a category.
pub open spec fn of_category(i: int, amount: spec_fn(SizedModel) -> int) -> spec_fn(
    SizedModel,
) -> int {
    |s: SizedModel|
        if s.category == i {
            amount(s)
        } else {
            0
        }
}

/// The finding of a category has the bytes of all its directories, added up, and
/// as many unreadable entries and skipped mounts as they have together; it names
/// each of them, in order, and counts them; and it is of the category's class.
pub proof fn a_finding_adds_up(c: CategoryModel, i: int, scans: Seq<SizedModel>)
    ensures
        ({
            let f = gathered(c, i, scans);
            let own = scans.filter(|s: SizedModel| s.category == i);
            &&& f.size.allocated == at_most_64(
                sums::added(scans, of_category(i, |s: SizedModel| s.size.allocated as int)),
            )
            &&& f.size.logical == at_most_64(
                sums::added(scans, of_category(i, |s: SizedModel| s.size.logical as int)),
            )
            &&& f.inaccessible == at_most_32(
                sums::added(scans, of_category(i, |s: SizedModel| s.inaccessible as int)),
            )
            &&& f.skipped_mounts == at_most_32(
                sums::added(scans, of_category(i, |s: SizedModel| s.skipped_mounts as int)),
            )
            &&& f.count == own.len()
            &&& f.paths == own.map_values(|s: SizedModel| s.path)
            &&& f.label == c.label && f.class == c.class && f.note == c.note
            &&& !f.rollup
        }),
    decreases scans.len(),
{
    reveal(Seq::filter);
    let mine = |s: SizedModel| s.category == i;
    let path = |s: SizedModel| s.path;
    let a = of_category(i, |s: SizedModel| s.size.allocated as int);
    let l = of_category(i, |s: SizedModel| s.size.logical as int);
    let n = of_category(i, |s: SizedModel| s.inaccessible as int);
    let k = of_category(i, |s: SizedModel| s.skipped_mounts as int);
    if scans.len() == 0 {
        assert(scans.filter(mine).map_values(path) =~= Seq::<Seq<char>>::empty());
    } else {
        let less = scans.drop_last();
        a_finding_adds_up(c, i, less);
        sums_are_no_less(less, a);
        sums_are_no_less(less, l);
        sums_are_no_less(less, n);
        sums_are_no_less(less, k);
        if scans.last().category == i {
            assert(scans.filter(mine).map_values(path) =~= less.filter(mine).map_values(path).push(
                scans.last().path,
            ));
        }
    }
}

proof fn sums_are_no_less(scans: Seq<SizedModel>, amount: spec_fn(SizedModel) -> int)
    requires
        forall|s: SizedModel| #[trigger] amount(s) >= 0,
    ensures
        sums::added(scans, amount) >= 0,
    decreases scans.len(),
{
    if scans.len() > 0 {
        sums_are_no_less(scans.drop_last(), amount);
    }
}

/// The findings of a table: every category with a directory has its one, and
/// there are no others.
pub proof fn every_category_is_found(
    table: spec_fn(int) -> CategoryModel,
    count: nat,
    scans: Seq<SizedModel>,
) -> (at: Seq<int>)
    ensures
        at.len() == found_in(table, count, scans).len(),
        forall|k: int|
            0 <= k < at.len() ==> 0 <= #[trigger] at[k] < count && found_in(table, count, scans)[k]
                == gathered(table(at[k]), at[k], scans),
        forall|k: int, l: int| 0 <= k < l < at.len() ==> #[trigger] at[k] < #[trigger] at[l],
        forall|j: int|
            0 <= j < scans.len() && 0 <= (#[trigger] scans[j]).category < count ==> at.contains(
                scans[j].category,
            ),
    decreases count,
{
    if count == 0 {
        Seq::empty()
    } else {
        let i = count - 1;
        let before = every_category_is_found(table, i as nat, scans);
        let finding = gathered(table(i), i, scans);
        let all = found_in(table, count, scans);
        let at = if finding.paths.len() > 0 {
            before.push(i)
        } else {
            before
        };
        assert forall|k: int| 0 <= k < at.len() implies 0 <= #[trigger] at[k] < count && all[k]
            == gathered(table(at[k]), at[k], scans) by {
            if k < before.len() {
                assert(at[k] == before[k]);
            }
        }
        assert forall|j: int|
            0 <= j < scans.len() && 0 <= (#[trigger] scans[j]).category < count implies at.contains(
            scans[j].category,
        ) by {
            if scans[j].category == i {
                a_directory_is_named(table(i), i, scans, j);
                assert(at[before.len() as int] == i);
            } else {
                let k = choose|k: int| 0 <= k < before.len() && before[k] == scans[j].category;
                assert(at[k] == before[k]);
            }
        }
        at
    }
}

proof fn a_directory_is_named(c: CategoryModel, i: int, scans: Seq<SizedModel>, j: int)
    requires
        0 <= j < scans.len(),
        scans[j].category == i,
    ensures
        gathered(c, i, scans).paths.contains(scans[j].path),
        gathered(c, i, scans).paths.len() > 0,
    decreases scans.len(),
{
    let less = scans.drop_last();
    let now = gathered(c, i, scans).paths;
    if j == scans.len() - 1 {
        assert(now[now.len() - 1] == scans[j].path);
    } else {
        assert(less[j] == scans[j]);
        a_directory_is_named(c, i, less, j);
        let before = gathered(c, i, less).paths;
        let k = choose|k: int| 0 <= k < before.len() && before[k] == scans[j].path;
        assert(now[k] == before[k]);
    }
}

/// A finding is reported where it holds any bytes, as it was found but for the
/// mark on those that contain another; nothing else is reported.
pub proof fn findings_with_bytes_are_reported(root: Seq<char>, found: Seq<FindingModel>) -> (at:
    Seq<int>)
    ensures
        ({
            let findings = report_from(root, found).findings;
            &&& at.len() == findings.len()
            &&& at.no_duplicates()
            &&& forall|k: int|
                0 <= k < at.len() ==> 0 <= #[trigger] at[k] < found.len() && (FindingModel {
                    rollup: found[at[k]].rollup,
                    ..findings[k]
                }) == found[at[k]]
            &&& forall|j: int|
                0 <= j < found.len() ==> (at.contains(j) <==> (#[trigger] found[j]).size.allocated
                    > 0 || found[j].size.logical > 0)
        }),
{
    let kept = with_bytes(found);
    let places = places_with_bytes(found);
    let sorted = sorting::arranged(&FindingOrder, kept);
    let moved = sorting::arranged_moves(&FindingOrder, kept);
    let findings = report_from(root, found).findings;
    let at = Seq::new(moved.len(), |k: int| places[moved[k]]);
    assert forall|k: int| 0 <= k < at.len() implies 0 <= #[trigger] at[k] < found.len() && (
    FindingModel { rollup: found[at[k]].rollup, ..findings[k] }) == found[at[k]] by {
        assert(0 <= moved[k] < kept.len());
        assert(sorted[k] == kept[moved[k]]);
        assert(0 <= places[moved[k]] < found.len());
        assert(findings[k] == with_rollups(sorted)[k]);
    }
    assert forall|k: int, l: int| 0 <= k < at.len() && 0 <= l < at.len() && k != l implies at[k]
        != at[l] by {
        assert(moved[k] != moved[l]);
        if moved[k] < moved[l] {
            assert(places[moved[k]] < places[moved[l]]);
        } else {
            assert(places[moved[l]] < places[moved[k]]);
        }
    }
    assert forall|j: int| 0 <= j < found.len() implies (at.contains(j) <==> (
    #[trigger] found[j]).size.allocated > 0 || found[j].size.logical > 0) by {
        if found[j].size.allocated > 0 || found[j].size.logical > 0 {
            let p = choose|p: int| 0 <= p < places.len() && places[p] == j;
            assert(places.contains(j));
            assert(moved.contains(p));
            let k = choose|k: int| 0 <= k < moved.len() && moved[k] == p;
            assert(at[k] == j);
        }
        if at.contains(j) {
            let k = choose|k: int| 0 <= k < at.len() && at[k] == j;
            assert(places.contains(places[moved[k]]));
        }
    }
    at
}

proof fn places_with_bytes(found: Seq<FindingModel>) -> (places: Seq<int>)
    ensures
        places.len() == with_bytes(found).len(),
        forall|k: int|
            0 <= k < places.len() ==> 0 <= #[trigger] places[k] < found.len() && with_bytes(
                found,
            )[k] == found[places[k]],
        forall|k: int, l: int|
            0 <= k < l < places.len() ==> #[trigger] places[k] < #[trigger] places[l],
        forall|j: int|
            0 <= j < found.len() ==> (places.contains(j) <==> (#[trigger] found[j]).size.allocated
                > 0 || found[j].size.logical > 0),
    decreases found.len(),
{
    if found.len() == 0 {
        Seq::empty()
    } else {
        let less = found.drop_last();
        let before = places_with_bytes(less);
        let f = found.last();
        let last = found.len() - 1;
        let places = if f.size.allocated > 0 || f.size.logical > 0 {
            before.push(last)
        } else {
            before
        };
        assert forall|k: int| 0 <= k < places.len() implies 0 <= #[trigger] places[k] < found.len()
            && with_bytes(found)[k] == found[places[k]] by {
            if k < before.len() {
                assert(places[k] == before[k]);
                assert(less[before[k]] == found[before[k]]);
            }
        }
        assert forall|j: int| 0 <= j < found.len() implies (places.contains(j) <==> (
        #[trigger] found[j]).size.allocated > 0 || found[j].size.logical > 0) by {
            if j < last {
                assert(less[j] == found[j]);
                if before.contains(j) {
                    let k = choose|k: int| 0 <= k < before.len() && before[k] == j;
                    assert(places[k] == j);
                }
                if places.contains(j) {
                    let k = choose|k: int| 0 <= k < places.len() && places[k] == j;
                    assert(before[k] == j);
                }
            } else {
                if f.size.allocated > 0 || f.size.logical > 0 {
                    assert(places[before.len() as int] == j);
                }
                if places.contains(j) {
                    let k = choose|k: int| 0 <= k < places.len() && places[k] == j;
                    assert(k == before.len() || before[k] < last);
                }
            }
        }
        places
    }
}

/// A finding that is not inside another's bytes adds what it has.
pub open spec fn unless_rollup(amount: spec_fn(FindingModel) -> int) -> spec_fn(
    FindingModel,
) -> int {
    |f: FindingModel|
        if f.rollup {
            0
        } else {
            amount(f)
        }
}

/// The totals of a report are what its findings have together, but for those
/// that contain another one.
pub proof fn a_report_adds_up(root: Seq<char>, found: Seq<FindingModel>)
    ensures
        ({
            let r = report_from(root, found);
            &&& r.root == root
            &&& r.total.allocated == at_most_64(
                sums::added(
                    r.findings,
                    unless_rollup(|f: FindingModel| f.size.allocated as int),
                ),
            )
            &&& r.total.logical == at_most_64(
                sums::added(r.findings, unless_rollup(|f: FindingModel| f.size.logical as int)),
            )
            &&& r.inaccessible == at_most_32(
                sums::added(r.findings, unless_rollup(|f: FindingModel| f.inaccessible as int)),
            )
            &&& r.skipped_mounts == at_most_32(
                sums::added(r.findings, unless_rollup(|f: FindingModel| f.skipped_mounts as int)),
            )
        }),
{
    findings_add_up(report_from(root, found).findings);
}

proof fn findings_add_up(findings: Seq<FindingModel>)
    ensures
        ({
            let (total, inaccessible, skipped) = total_of(findings);
            let a = unless_rollup(|f: FindingModel| f.size.allocated as int);
            let l = unless_rollup(|f: FindingModel| f.size.logical as int);
            let n = unless_rollup(|f: FindingModel| f.inaccessible as int);
            let k = unless_rollup(|f: FindingModel| f.skipped_mounts as int);
            &&& total.allocated == at_most_64(sums::added(findings, a))
            &&& total.logical == at_most_64(sums::added(findings, l))
            &&& inaccessible == at_most_32(sums::added(findings, n))
            &&& skipped == at_most_32(sums::added(findings, k))
            &&& sums::added(findings, a) >= 0 && sums::added(findings, l) >= 0
            &&& sums::added(findings, n) >= 0 && sums::added(findings, k) >= 0
        }),
    decreases findings.len(),
{
    if findings.len() > 0 {
        findings_add_up(findings.drop_last());
    }
}

/// The findings of a report come in the order of their allocated bytes, the most
/// first, then of their content, then of their labels.
pub proof fn the_largest_findings_come_first(
    root: Seq<char>,
    found: Seq<FindingModel>,
    i: int,
    j: int,
)
    requires
        0 <= i < j < report_from(root, found).findings.len(),
    ensures
        ({
            let a = report_from(root, found).findings[i];
            let b = report_from(root, found).findings[j];
            &&& a.size.allocated >= b.size.allocated
            &&& a.size.allocated == b.size.allocated ==> a.size.logical >= b.size.logical
            &&& a.size == b.size ==> !text::text_less(b.label, a.label)
        }),
{
    let sorted = sorting::arranged(&FindingOrder, with_bytes(found));
    sorting::arranged_is_arranged(&FindingOrder, with_bytes(found));
    assert(!sorting::Order::before(&FindingOrder, sorted[j], sorted[i]));
}

/// The locations to size are those of every category that lie under the root:
/// its path below the home directory, and its other path where it has one.
pub proof fn every_location_under_the_root_is_sized(
    root: Seq<char>,
    home: Seq<char>,
    count: nat,
    i: int,
    rel: Seq<char>,
)
    requires
        0 <= i < count,
        rel == fixed_category(i).path || fixed_category(i).other == Some(rel),
        paths::lies_under(paths::path_of(paths::join_text(home, rel)), paths::path_of(root)),
    ensures
        locations(root, home, count).contains((i, paths::join_text(home, rel))),
    decreases count,
{
    let k = count - 1;
    let c = fixed_category(k);
    let before = locations(root, home, k as nat);
    let first = with_location(before, root, home, k, c.path);
    let all = locations(root, home, count);
    let wanted = (i, paths::join_text(home, rel));
    if i < k {
        every_location_under_the_root_is_sized(root, home, k as nat, i, rel);
        let at = choose|at: int| 0 <= at < before.len() && before[at] == wanted;
        assert(first[at] == wanted);
        assert(all[at] == wanted);
    } else if rel == c.path {
        assert(first[before.len() as int] == wanted);
        assert(all[before.len() as int] == wanted);
    } else {
        assert(all[first.len() as int] == wanted);
    }
}

/// No other place is sized: each is that of a category, and lies under the root.
pub proof fn only_locations_under_the_root_are_sized(
    root: Seq<char>,
    home: Seq<char>,
    count: nat,
    at: int,
)
    requires
        0 <= at < locations(root, home, count).len(),
    ensures
        ({
            let (i, path) = locations(root, home, count)[at];
            &&& 0 <= i < count
            &&& path == paths::join_text(home, fixed_category(i).path) || (fixed_category(i).other
                is Some && path == paths::join_text(home, fixed_category(i).other->0))
            &&& paths::lies_under(paths::path_of(path), paths::path_of(root))
        }),
    decreases count,
{
    let before = locations(root, home, (count - 1) as nat);
    if at < before.len() {
        only_locations_under_the_root_are_sized(root, home, (count - 1) as nat, at);
    }
}

/// A name is that of an artifact exactly where one of the table has it.
pub proof fn artifacts_are_known_by_name(name: Seq<char>, count: nat, k: int)
    ensures
        artifact_index(name, count) matches Some(i) ==> 0 <= i < count && artifact(i).path == name,
        0 <= k < count && artifact(k).path == name ==> artifact_index(name, count) is Some,
    decreases count,
{
    if count > 0 {
        artifacts_are_known_by_name(name, (count - 1) as nat, k);
    }
}

/// A path is at a place of a category below the home directory.
pub open spec fn is_place_of(path: Seq<char>, home: Seq<char>, i: int) -> bool {
    let c = fixed_category(i);
    paths::path_of(path) == paths::path_of(paths::join_text(home, c.path)) || (c.other is Some
        && paths::path_of(path) == paths::path_of(paths::join_text(home, c.other->0)))
}

/// A directory at a place of a category has that category's class, the first one
/// of several; at no such place it has none.
pub proof fn places_have_the_class_of_their_category(
    path: Seq<char>,
    home: Seq<char>,
    count: nat,
    i: int,
)
    ensures
        0 <= i < count && is_place_of(path, home, i) && (forall|k: int|
            0 <= k < i ==> !(#[trigger] is_place_of(path, home, k))) ==> class_of_location(
            path,
            home,
            count,
        ) == Some(fixed_category(i).class),
        (forall|k: int| 0 <= k < count ==> !(#[trigger] is_place_of(path, home, k)))
            ==> class_of_location(path, home, count) is None,
    decreases count,
{
    if count > 0 {
        let less = (count - 1) as nat;
        places_have_the_class_of_their_category(path, home, less, i);
        if forall|k: int| 0 <= k < count ==> !(#[trigger] is_place_of(path, home, k)) {
            assert(!is_place_of(path, home, count - 1));
            assert(class_of_location(path, home, less) is None);
        }
        if i == count - 1 {
            assert((forall|k: int| 0 <= k < i ==> !(#[trigger] is_place_of(path, home, k)))
                ==> class_of_location(path, home, less) is None);
        }
    }
}

} // verus!
