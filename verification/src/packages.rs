//! Package managers, what they have installed, and which packages depend on
//! which.

use crate::bulkstat;
use crate::reclaim;
use crate::sorting;
use crate::sums;
use crate::text;
use vstd::prelude::*;

verus! {

// ---------------------------------------------------------------------------
// Managers
// ---------------------------------------------------------------------------

/// A package manager.
#[derive(Clone, Copy, Debug, PartialEq, Eq, Hash, Structural)]
pub enum Manager {
    Brew,
    BrewCask,
    Npm,
    Pip,
    Cargo,
    Bun,
}

impl Manager {
    pub open spec fn name(self) -> Seq<char> {
        match self {
            Manager::Brew => "brew"@,
            Manager::BrewCask => "brew (cask)"@,
            Manager::Npm => "npm (global)"@,
            Manager::Pip => "pip"@,
            Manager::Cargo => "cargo"@,
            Manager::Bun => "bun (global)"@,
        }
    }

    pub fn label(self) -> (r: &'static str)
        ensures
            r@ == self.name(),
    {
        match self {
            Manager::Brew => "brew",
            Manager::BrewCask => "brew (cask)",
            Manager::Npm => "npm (global)",
            Manager::Pip => "pip",
            Manager::Cargo => "cargo",
            Manager::Bun => "bun (global)",
        }
    }

    pub open spec fn program(self) -> Seq<char> {
        match self {
            Manager::Brew => "brew"@,
            Manager::BrewCask => "brew"@,
            Manager::Npm => "npm"@,
            Manager::Pip => "pip3"@,
            Manager::Cargo => "cargo"@,
            Manager::Bun => "bun"@,
        }
    }

    /// The program that runs the manager.
    pub fn command(self) -> (r: &'static str)
        ensures
            r@ == self.program(),
    {
        match self {
            Manager::Brew => "brew",
            Manager::BrewCask => "brew",
            Manager::Npm => "npm",
            Manager::Pip => "pip3",
            Manager::Cargo => "cargo",
            Manager::Bun => "bun",
        }
    }

    /// All managers, in the order of the reports.
    pub fn all() -> (r: Vec<Manager>)
        ensures
            r@ == seq![
                Manager::Brew,
                Manager::BrewCask,
                Manager::Npm,
                Manager::Pip,
                Manager::Cargo,
                Manager::Bun,
            ],
    {
        let mut r: Vec<Manager> = Vec::new();
        r.push(Manager::Brew);
        r.push(Manager::BrewCask);
        r.push(Manager::Npm);
        r.push(Manager::Pip);
        r.push(Manager::Cargo);
        r.push(Manager::Bun);
        r
    }

    /// What the manager installs is used by people, not by other packages.
    pub open spec fn installs_leaves(self) -> bool {
        self == Manager::BrewCask || self == Manager::Npm || self == Manager::Cargo || self
            == Manager::Bun
    }

    pub fn is_global_leaf_manager(self) -> (r: bool)
        ensures
            r == self.installs_leaves(),
    {
        match self {
            Manager::BrewCask | Manager::Npm | Manager::Cargo | Manager::Bun => true,
            Manager::Brew | Manager::Pip => false,
        }
    }

    /// The program and the arguments that uninstall a package.
    pub open spec fn uninstall_line(self, name: Seq<char>, has_pip3: bool) -> (
        Seq<char>,
        Seq<Seq<char>>,
    ) {
        match self {
            Manager::Brew => ("brew"@, seq!["uninstall"@, name]),
            Manager::BrewCask => ("brew"@, seq!["uninstall"@, "--cask"@, name]),
            Manager::Npm => ("npm"@, seq!["uninstall"@, "-g"@, name]),
            Manager::Pip => if has_pip3 {
                ("pip3"@, seq!["uninstall"@, "-y"@, name])
            } else {
                ("python3"@, seq!["-m"@, "pip"@, "uninstall"@, "-y"@, name])
            },
            Manager::Cargo => ("cargo"@, seq!["uninstall"@, name]),
            Manager::Bun => ("bun"@, seq!["remove"@, "-g"@, name]),
        }
    }

    /// The program and the arguments that uninstall a package; pip is run as a
    /// Python module where there is no `pip3`.
    pub fn uninstall_args(self, name: &str, has_pip3: bool) -> (r: (&'static str, Vec<String>))
        ensures
            (r.0@, text::texts(r.1@)) == self.uninstall_line(name@, has_pip3),
    {
        let mut args: Vec<String> = Vec::new();
        let program = match self {
            Manager::Brew => {
                args.push("uninstall".to_owned());
                "brew"
            },
            Manager::BrewCask => {
                args.push("uninstall".to_owned());
                args.push("--cask".to_owned());
                "brew"
            },
            Manager::Npm => {
                args.push("uninstall".to_owned());
                args.push("-g".to_owned());
                "npm"
            },
            Manager::Pip => {
                if has_pip3 {
                    args.push("uninstall".to_owned());
                    args.push("-y".to_owned());
                    "pip3"
                } else {
                    args.push("-m".to_owned());
                    args.push("pip".to_owned());
                    args.push("uninstall".to_owned());
                    args.push("-y".to_owned());
                    "python3"
                }
            },
            Manager::Cargo => {
                args.push("uninstall".to_owned());
                "cargo"
            },
            Manager::Bun => {
                args.push("remove".to_owned());
                args.push("-g".to_owned());
                "bun"
            },
        };
        args.push(name.to_owned());
        assert(text::texts(args@) =~= self.uninstall_line(name@, has_pip3).1);
        (program, args)
    }
}

/// How pip is run.
#[derive(Clone, Copy, Debug, PartialEq, Eq, Structural)]
pub enum PipCommand {
    Pip3,
    Python3Module,
}

/// How pip is run: as a module of the Python whose packages are looked up, where
/// that has it, so that both speak of one interpreter; else as `pip3`.
pub fn pip_command(has_pip3: bool, has_python3: bool, version_output: &str) -> (r: Option<
    PipCommand,
>)
    ensures
        r == if has_python3 && text::trimmed(version_output@).len() > 0 {
            Some(PipCommand::Python3Module)
        } else if has_pip3 {
            Some(PipCommand::Pip3)
        } else {
            None
        },
{
    let shown = text::trim_text(version_output);
    if has_python3 && !shown.as_str().is_empty() {
        Some(PipCommand::Python3Module)
    } else if has_pip3 {
        Some(PipCommand::Pip3)
    } else {
        None
    }
}

/// Where Homebrew lives: where its environment variable says, else at the
/// default of the processor.
pub fn brew_prefix(configured: Option<&str>, apple_silicon: bool) -> (r: String)
    ensures
        r@ == if configured is Some && configured->0@.len() > 0 {
            configured->0@
        } else if apple_silicon {
            "/opt/homebrew"@
        } else {
            "/usr/local"@
        },
{
    match configured {
        Some(dir) => {
            if !dir.is_empty() {
                return dir.to_owned();
            }
        },
        None => {},
    }
    if apple_silicon {
        "/opt/homebrew".to_owned()
    } else {
        "/usr/local".to_owned()
    }
}

/// What an uninstall command reported.
pub fn uninstall_outcome(
    program: &str,
    success: bool,
    stdout: &str,
    stderr: &str,
    status: &str,
) -> (r: Result<String, String>)
    ensures
        match r {
            Ok(t) => success && t@ == text::trimmed(stdout@),
            Err(t) => !success && t@ == if text::trimmed(stderr@).len() > 0 {
                text::trimmed(stderr@)
            } else {
                program@ + " exited with "@ + status@
            },
        },
{
    if success {
        return Ok(text::trim_text(stdout));
    }
    let shown = text::trim_text(stderr);
    if shown.as_str().is_empty() {
        Err(text::join3(program, " exited with ", status))
    } else {
        Err(shown)
    }
}

// ---------------------------------------------------------------------------
// Packages
// ---------------------------------------------------------------------------

/// An installed package.
#[derive(Debug)]
pub struct Package {
    pub name: String,
    pub version: String,
    pub size: Option<bulkstat::SizeInfo>,
    pub path: Option<String>,
    pub metadata_path: Option<String>,
}

#[verifier::ext_equal]
pub struct PackageModel {
    pub name: Seq<char>,
    pub version: Seq<char>,
    pub size: Option<bulkstat::SizeInfo>,
    pub path: Option<Seq<char>>,
    pub metadata_path: Option<Seq<char>>,
}

/// The text that may be there.
pub open spec fn opt_text(t: Option<String>) -> Option<Seq<char>> {
    match t {
        Some(s) => Some(s@),
        None => None,
    }
}

impl View for Package {
    type V = PackageModel;

    open spec fn view(&self) -> PackageModel {
        PackageModel {
            name: self.name@,
            version: self.version@,
            size: self.size,
            path: opt_text(self.path),
            metadata_path: opt_text(self.metadata_path),
        }
    }
}

pub fn copy_opt_text(t: &Option<String>) -> (r: Option<String>)
    ensures
        opt_text(r) == opt_text(*t),
{
    match t {
        Some(s) => Some(s.clone()),
        None => None,
    }
}

impl Clone for Package {
    fn clone(&self) -> (r: Package)
        ensures
            r@ == self@,
    {
        Package {
            name: self.name.clone(),
            version: self.version.clone(),
            size: self.size,
            path: copy_opt_text(&self.path),
            metadata_path: copy_opt_text(&self.metadata_path),
        }
    }
}

/// What a manager has installed.
#[derive(Clone, Debug)]
pub struct ManagerReport {
    pub manager: Manager,
    pub packages: Vec<Package>,
    pub total_size: bulkstat::SizeInfo,
    pub available: bool,
    /// Why the manager's packages could not be listed.
    pub warning: Option<String>,
}

#[verifier::ext_equal]
pub struct ManagerModel {
    pub manager: Manager,
    pub packages: Seq<PackageModel>,
    pub total_size: bulkstat::SizeInfo,
    pub available: bool,
    pub warning: Option<Seq<char>>,
}

impl View for ManagerReport {
    type V = ManagerModel;

    open spec fn view(&self) -> ManagerModel {
        ManagerModel {
            manager: self.manager,
            packages: sorting::views(self.packages@),
            total_size: self.total_size,
            available: self.available,
            warning: opt_text(self.warning),
        }
    }
}

/// The sizes of the packages that have one, added up.
pub open spec fn packages_total(packages: Seq<PackageModel>) -> bulkstat::SizeInfo
    decreases packages.len(),
{
    if packages.len() == 0 {
        bulkstat::SizeInfo { logical: 0, allocated: 0 }
    } else {
        let before = packages_total(packages.drop_last());
        match packages.last().size {
            Some(size) => bulkstat::size_sum(before, size),
            None => before,
        }
    }
}

/// The report of a manager.
pub fn scan_manager(
    manager: Manager,
    available: bool,
    packages: Vec<Package>,
    warning: Option<String>,
) -> (r: ManagerReport)
    ensures
        r@ == if available {
            ManagerModel {
                manager,
                packages: sorting::views(packages@),
                total_size: packages_total(sorting::views(packages@)),
                available: true,
                warning: opt_text(warning),
            }
        } else {
            ManagerModel {
                manager,
                packages: Seq::empty(),
                total_size: bulkstat::SizeInfo { logical: 0, allocated: 0 },
                available: false,
                warning: None,
            }
        },
{
    if !available {
        let r = ManagerReport {
            manager,
            packages: Vec::new(),
            total_size: bulkstat::SizeInfo::default(),
            available: false,
            warning: None,
        };
        assert(r@.packages =~= Seq::<PackageModel>::empty());
        return r;
    }
    let ghost all = sorting::views(packages@);
    let mut total_size = bulkstat::SizeInfo::default();
    let mut i: usize = 0;
    assert(all.take(0) =~= Seq::<PackageModel>::empty());
    while i < packages.len()
        invariant
            i <= packages@.len(),
            all == sorting::views(packages@),
            total_size == packages_total(all.take(i as int)),
        decreases packages@.len() - i,
    {
        assert(all.take(i + 1).drop_last() =~= all.take(i as int));
        assert(all.take(i + 1).last() == packages@[i as int]@);
        match packages[i].size {
            Some(size) => {
                total_size.add_file(size);
            },
            None => {},
        }
        i += 1;
    }
    assert(all.take(all.len() as int) =~= all);
    ManagerReport { manager, packages, total_size, available: true, warning }
}

/// The packages that `pip show` is asked about.
pub open spec fn pip_names(reports: Seq<ManagerModel>) -> Seq<Seq<char>>
    decreases reports.len(),
{
    if reports.len() == 0 {
        Seq::empty()
    } else if reports[0].manager == Manager::Pip && reports[0].available {
        reports[0].packages.map_values(|p: PackageModel| p.name)
    } else {
        pip_names(reports.skip(1))
    }
}

/// The arguments of `pip show` for all packages that pip has installed: none
/// where there are no such packages.
pub fn pip_show_args(reports: &Vec<ManagerReport>) -> (r: Option<Vec<String>>)
    ensures
        match r {
            Some(args) => pip_names(sorting::views(reports@)).len() > 0 && text::texts(args@)
                == seq!["show"@] + pip_names(sorting::views(reports@)),
            None => pip_names(sorting::views(reports@)).len() == 0,
        },
{
    let ghost all = sorting::views(reports@);
    let mut i: usize = 0;
    assert(all.skip(0) =~= all);
    while i < reports.len()
        invariant
            i <= reports@.len(),
            all == sorting::views(reports@),
            pip_names(all.skip(i as int)) == pip_names(all),
        decreases reports@.len() - i,
    {
        let report = &reports[i];
        let ghost rest = all.skip(i as int);
        assert(rest[0] == report@);
        assert(rest.skip(1) =~= all.skip(i + 1));
        if report.manager == Manager::Pip && report.available {
            let ghost names = report@.packages.map_values(|p: PackageModel| p.name);
            if report.packages.len() == 0 {
                return None;
            }
            let mut args: Vec<String> = Vec::new();
            args.push("show".to_owned());
            assert(text::texts(args@) =~= seq!["show"@] + names.take(0));
            let mut k: usize = 0;
            while k < report.packages.len()
                invariant
                    k <= report.packages@.len(),
                    names == report@.packages.map_values(|p: PackageModel| p.name),
                    text::texts(args@) == seq!["show"@] + names.take(k as int),
                decreases report.packages@.len() - k,
            {
                let name = report.packages[k].name.clone();
                proof {
                    text::texts_push(args@, name);
                    assert(names[k as int] == name@);
                    assert(seq!["show"@] + names.take(k + 1) =~= (seq!["show"@] + names.take(
                        k as int,
                    )).push(name@));
                }
                args.push(name);
                k += 1;
            }
            assert(names.take(names.len() as int) =~= names);
            return Some(args);
        }
        i += 1;
    }
    assert(all.skip(i as int) =~= Seq::<ManagerModel>::empty());
    None
}

// ---------------------------------------------------------------------------
// Dependencies
// ---------------------------------------------------------------------------

/// Where knowledge about dependencies comes from.
#[derive(Clone, Copy, Debug, PartialEq, Eq, Structural)]
pub enum DepEvidence {
    ManagerGraph,
    Untracked,
}

/// Whether a package is needed by others.
#[derive(Clone, Copy, Debug, PartialEq, Eq, Structural)]
pub enum PackageUseStatus {
    DependencyLeaf,
    RequiredByDependents,
    Untracked,
}

/// What a package depends on and what depends on it.
#[derive(Debug)]
pub struct DepInfo {
    pub dependencies: Vec<String>,
    pub dependents: Vec<String>,
    pub evidence: DepEvidence,
}

#[verifier::ext_equal]
pub struct DepModel {
    pub dependencies: Seq<Seq<char>>,
    pub dependents: Seq<Seq<char>>,
    pub evidence: DepEvidence,
}

impl View for DepInfo {
    type V = DepModel;

    open spec fn view(&self) -> DepModel {
        DepModel {
            dependencies: text::texts(self.dependencies@),
            dependents: text::texts(self.dependents@),
            evidence: self.evidence,
        }
    }
}

impl Clone for DepInfo {
    fn clone(&self) -> (r: DepInfo)
        ensures
            r@ == self@,
    {
        DepInfo {
            dependencies: reclaim::copy_texts(&self.dependencies),
            dependents: reclaim::copy_texts(&self.dependents),
            evidence: self.evidence,
        }
    }
}

/// Nothing is known.
pub open spec fn untracked() -> DepModel {
    DepModel {
        dependencies: Seq::empty(),
        dependents: Seq::empty(),
        evidence: DepEvidence::Untracked,
    }
}

/// What the manager says.
pub open spec fn known_model(dependencies: Seq<Seq<char>>, dependents: Seq<Seq<char>>) -> DepModel {
    DepModel { dependencies, dependents, evidence: DepEvidence::ManagerGraph }
}

impl DepModel {
    /// The manager knows the package, and nothing depends on it.
    pub open spec fn is_leaf(self) -> bool {
        self.evidence == DepEvidence::ManagerGraph && self.dependents.len() == 0
    }
}

impl Default for DepInfo {
    fn default() -> (r: DepInfo)
        ensures
            r@ == untracked(),
    {
        let r = DepInfo {
            dependencies: Vec::new(),
            dependents: Vec::new(),
            evidence: DepEvidence::Untracked,
        };
        assert(r@.dependencies =~= Seq::<Seq<char>>::empty());
        assert(r@.dependents =~= Seq::<Seq<char>>::empty());
        r
    }
}

impl DepInfo {
    pub fn known(dependencies: Vec<String>, dependents: Vec<String>) -> (r: DepInfo)
        ensures
            r@ == known_model(text::texts(dependencies@), text::texts(dependents@)),
    {
        DepInfo { dependencies, dependents, evidence: DepEvidence::ManagerGraph }
    }

    pub fn is_dependency_leaf(&self) -> (r: bool)
        ensures
            r == self@.is_leaf(),
    {
        self.evidence == DepEvidence::ManagerGraph && self.dependents.len() == 0
    }
}

/// Dependency information by package name; a name occurs once.
#[derive(Debug)]
pub struct DepTable {
    names: Vec<String>,
    infos: Vec<DepInfo>,
}

/// A list of keys and a list of values as a map.
pub open spec fn zip_map<K, V>(keys: Seq<K>, values: Seq<V>) -> Map<K, V>
    decreases keys.len(),
{
    if keys.len() == 0 || values.len() == 0 {
        Map::empty()
    } else {
        zip_map(keys.drop_last(), values.drop_last()).insert(keys.last(), values.last())
    }
}

proof fn zip_map_lookup<K, V>(keys: Seq<K>, values: Seq<V>)
    requires
        keys.len() == values.len(),
        keys.no_duplicates(),
    ensures
        forall|k: K| #[trigger] zip_map(keys, values).contains_key(k) <==> keys.contains(k),
        forall|i: int|
            0 <= i < keys.len() ==> zip_map(keys, values)[#[trigger] keys[i]] == values[i],
    decreases keys.len(),
{
    if keys.len() > 0 {
        let ks = keys.drop_last();
        let vs = values.drop_last();
        assert(ks.no_duplicates());
        zip_map_lookup(ks, vs);
        let m = zip_map(keys, values);
        assert forall|k: K| #[trigger] m.contains_key(k) <==> keys.contains(k) by {
            assert(zip_map(ks, vs).contains_key(k) <==> ks.contains(k));
            if keys.contains(k) && k != keys.last() {
                let i = choose|i: int| 0 <= i < keys.len() && keys[i] == k;
                assert(ks[i] == k);
            }
            if ks.contains(k) {
                let i = choose|i: int| 0 <= i < ks.len() && ks[i] == k;
                assert(keys[i] == k);
            }
            assert(keys[keys.len() - 1] == keys.last());
        }
        assert forall|i: int| 0 <= i < keys.len() implies m[#[trigger] keys[i]] == values[i] by {
            if i < ks.len() {
                assert(ks[i] == keys[i]);
                assert(keys[i] != keys.last());
            }
        }
    }
}

/// Replacing one value changes the map at its key alone.
proof fn zip_map_update<K, V>(keys: Seq<K>, values: Seq<V>, i: int, v: V)
    requires
        keys.len() == values.len(),
        keys.no_duplicates(),
        0 <= i < keys.len(),
    ensures
        zip_map(keys, values.update(i, v)) == zip_map(keys, values).insert(keys[i], v),
{
    zip_map_lookup(keys, values);
    zip_map_lookup(keys, values.update(i, v));
    let a = zip_map(keys, values.update(i, v));
    let b = zip_map(keys, values).insert(keys[i], v);
    assert forall|k: K| #[trigger] a.contains_key(k) implies a[k] == b[k] by {
        let j = choose|j: int| 0 <= j < keys.len() && keys[j] == k;
        assert(a[keys[j]] == values.update(i, v)[j]);
        assert(zip_map(keys, values)[keys[j]] == values[j]);
    }
    assert forall|k: K| a.contains_key(k) == b.contains_key(k) by {
        assert(keys.contains(keys[i]));
    }
    assert(a =~= b);
}

impl View for DepTable {
    type V = Map<Seq<char>, DepModel>;

    closed spec fn view(&self) -> Map<Seq<char>, DepModel> {
        zip_map(text::texts(self.names@), sorting::views(self.infos@))
    }
}

impl DepTable {
    #[verifier::type_invariant]
    spec fn is_table(&self) -> bool {
        self.names@.len() == self.infos@.len() && text::texts(self.names@).no_duplicates()
    }

    pub fn new() -> (r: DepTable)
        ensures
            r@ == Map::<Seq<char>, DepModel>::empty(),
    {
        let r = DepTable { names: Vec::new(), infos: Vec::new() };
        r
    }

    fn position(&self, name: &str) -> (r: Option<usize>)
        ensures
            match r {
                Some(i) => i < self.names@.len() && text::texts(self.names@)[i as int] == name@,
                None => !text::texts(self.names@).contains(name@),
            },
    {
        let ghost all = text::texts(self.names@);
        let mut i: usize = 0;
        while i < self.names.len()
            invariant
                i <= self.names@.len(),
                all == text::texts(self.names@),
                forall|k: int| 0 <= k < i ==> all[k] != name@,
            decreases self.names@.len() - i,
        {
            if text::same_text(self.names[i].as_str(), name) {
                return Some(i);
            }
            i += 1;
        }
        None
    }

    /// The information about a package.
    pub fn get(&self, name: &str) -> (r: Option<&DepInfo>)
        ensures
            match r {
                Some(info) => self@.contains_key(name@) && self@[name@] == info@,
                None => !self@.contains_key(name@),
            },
    {
        proof {
            use_type_invariant(self);
            zip_map_lookup(text::texts(self.names@), sorting::views(self.infos@));
        }
        match self.position(name) {
            Some(i) => {
                assert(text::texts(self.names@)[i as int] == name@);
                assert(text::texts(self.names@).contains(name@));
                Some(&self.infos[i])
            },
            None => None,
        }
    }

    /// Sets the information about a package.
    pub fn set(&mut self, name: &str, info: DepInfo)
        ensures
            final(self)@ == old(self)@.insert(name@, info@),
    {
        proof {
            use_type_invariant(&*self);
        }
        let at = self.position(name);
        let mut taken = DepTable::new();
        std::mem::swap(&mut taken, self);
        let DepTable { names: taken_names, infos: taken_infos } = taken;
        let mut names = taken_names;
        let mut infos = taken_infos;
        let ghost keys = text::texts(names@);
        let ghost values = sorting::views(infos@);
        match at {
            Some(i) => {
                proof {
                    zip_map_update(keys, values, i as int, info@);
                }
                infos.set(i, info);
                assert(sorting::views(infos@) =~= values.update(i as int, info@));
            },
            None => {
                let key = name.to_owned();
                proof {
                    text::texts_push(names@, key);
                    sorting::views_push(infos@, info);
                    assert(keys.push(name@).drop_last() =~= keys);
                    assert(values.push(info@).drop_last() =~= values);
                    assert(keys.push(name@).no_duplicates());
                }
                names.push(key);
                infos.push(info);
            },
        }
        *self = DepTable { names, infos };
    }
}

/// What a table says about a package, where it knows the package.
pub open spec fn lookup(table: Map<Seq<char>, DepModel>, name: Seq<char>) -> DepModel {
    if table.contains_key(name) {
        table[name]
    } else {
        untracked()
    }
}

fn look_up(table: &DepTable, name: &str) -> (r: DepInfo)
    ensures
        r@ == lookup(table@, name@),
{
    match table.get(name) {
        Some(info) => info.clone(),
        None => DepInfo::default(),
    }
}

/// What is known about a package of a manager.
pub open spec fn dep_info_of(
    manager: Manager,
    name: Seq<char>,
    brew: Map<Seq<char>, DepModel>,
    pip: Map<Seq<char>, DepModel>,
) -> DepModel {
    match manager {
        Manager::Brew => lookup(brew, name),
        Manager::Pip => lookup(pip, name),
        _ => known_model(Seq::empty(), Seq::empty()),
    }
}

pub fn package_dep_info(manager: Manager, name: &str, brew_deps: &DepTable, pip_deps: &DepTable) -> (r:
    DepInfo)
    ensures
        r@ == dep_info_of(manager, name@, brew_deps@, pip_deps@),
{
    match manager {
        Manager::Brew => look_up(brew_deps, name),
        Manager::Pip => look_up(pip_deps, name),
        Manager::BrewCask | Manager::Npm | Manager::Cargo | Manager::Bun => {
            let r = DepInfo::known(Vec::new(), Vec::new());
            assert(r@.dependencies =~= Seq::<Seq<char>>::empty());
            assert(r@.dependents =~= Seq::<Seq<char>>::empty());
            r
        },
    }
}

// ---------------------------------------------------------------------------
// The dependency graph of Homebrew
// ---------------------------------------------------------------------------

/// A line of `brew deps`: a package, a colon, and what it depends on; none
/// where the line has no colon.
pub open spec fn brew_line(line: Seq<char>) -> Option<(Seq<char>, Seq<Seq<char>>)> {
    let at = text::first_place(line, ':');
    if at < line.len() {
        Some(
            (
                text::trimmed(line.subrange(0, at as int)),
                text::words_of(line.subrange(at as int + 1, line.len() as int)),
            ),
        )
    } else {
        None
    }
}

/// A package's information, or that of a package without any edges.
pub open spec fn known_or_new(table: Map<Seq<char>, DepModel>, name: Seq<char>) -> DepModel {
    if table.contains_key(name) {
        table[name]
    } else {
        known_model(Seq::empty(), Seq::empty())
    }
}

/// The table after `name` was noted as a dependent of each of `deps`.
pub open spec fn with_dependent(
    table: Map<Seq<char>, DepModel>,
    deps: Seq<Seq<char>>,
    name: Seq<char>,
) -> Map<Seq<char>, DepModel>
    decreases deps.len(),
{
    if deps.len() == 0 {
        table
    } else {
        let before = with_dependent(table, deps.drop_last(), name);
        let info = known_or_new(before, deps.last());
        before.insert(deps.last(), DepModel { dependents: info.dependents.push(name), ..info })
    }
}

/// The table after a package and its dependencies were noted.
pub open spec fn with_package(
    table: Map<Seq<char>, DepModel>,
    name: Seq<char>,
    deps: Seq<Seq<char>>,
) -> Map<Seq<char>, DepModel> {
    let noted = with_dependent(table, deps, name);
    noted.insert(name, DepModel { dependencies: deps, ..known_or_new(noted, name) })
}

/// The graph that the lines of `brew deps` describe.
pub open spec fn brew_graph(lines: Seq<Seq<char>>) -> Map<Seq<char>, DepModel>
    decreases lines.len(),
{
    if lines.len() == 0 {
        Map::empty()
    } else {
        let before = brew_graph(lines.drop_last());
        match brew_line(lines.last()) {
            Some((name, deps)) => with_package(before, name, deps),
            None => before,
        }
    }
}

fn known_or_fresh(table: &DepTable, name: &str) -> (r: DepInfo)
    ensures
        r@ == known_or_new(table@, name@),
{
    match table.get(name) {
        Some(info) => info.clone(),
        None => {
            let r = DepInfo::known(Vec::new(), Vec::new());
            assert(r@.dependencies =~= Seq::<Seq<char>>::empty());
            assert(r@.dependents =~= Seq::<Seq<char>>::empty());
            r
        },
    }
}

fn note_package(table: &mut DepTable, name: &str, deps: Vec<String>)
    ensures
        final(table)@ == with_package(old(table)@, name@, text::texts(deps@)),
{
    let ghost start = table@;
    let ghost all = text::texts(deps@);
    let mut i: usize = 0;
    assert(all.take(0) =~= Seq::<Seq<char>>::empty());
    while i < deps.len()
        invariant
            i <= deps@.len(),
            all == text::texts(deps@),
            table@ == with_dependent(start, all.take(i as int), name@),
        decreases deps@.len() - i,
    {
        assert(all.take(i + 1).drop_last() =~= all.take(i as int));
        assert(all.take(i + 1).last() == deps@[i as int]@);
        let mut info = known_or_fresh(table, deps[i].as_str());
        let dependent = name.to_owned();
        proof {
            text::texts_push(info.dependents@, dependent);
        }
        info.dependents.push(dependent);
        table.set(deps[i].as_str(), info);
        i += 1;
    }
    assert(all.take(all.len() as int) =~= all);
    let mut info = known_or_fresh(table, name);
    info.dependencies = deps;
    table.set(name, info);
}

/// The graph that the output of `brew deps` describes.
pub fn parse_brew_dep_graph(output: &str) -> (r: DepTable)
    ensures
        r@ == brew_graph(text::lines_of(output@)),
{
    let lines = text::text_lines(output);
    let ghost all = text::lines_of(output@);
    let mut r = DepTable::new();
    let mut i: usize = 0;
    assert(all.take(0) =~= Seq::<Seq<char>>::empty());
    while i < lines.len()
        invariant
            i <= lines@.len(),
            all == text::texts(lines@),
            r@ == brew_graph(all.take(i as int)),
        decreases lines@.len() - i,
    {
        assert(all.take(i + 1).drop_last() =~= all.take(i as int));
        assert(all.take(i + 1).last() == lines@[i as int]@);
        let chars = text::chars_of(lines[i].as_str());
        let at = text::find_char(&chars, ':');
        if at < chars.len() {
            let head = text::text_of_range(&chars, 0, at);
            let tail = text::text_of_range(&chars, at + 1, chars.len());
            let name = text::trim_text(head.as_str());
            let deps = text::split_words(tail.as_str());
            note_package(&mut r, name.as_str(), deps);
        }
        i += 1;
    }
    assert(all.take(all.len() as int) =~= all);
    r
}

// ---------------------------------------------------------------------------
// The dependency graph of pip
// ---------------------------------------------------------------------------

/// What was read of `pip show` so far: the finished packages, and the one that
/// is being read.
#[verifier::ext_equal]
pub struct PipReading {
    pub table: Map<Seq<char>, DepModel>,
    pub name: Seq<char>,
    pub dependencies: Seq<Seq<char>>,
    pub dependents: Seq<Seq<char>>,
}

/// The items of a list that is separated by a comma and a blank.
pub open spec fn comma_list(s: Seq<char>) -> Seq<Seq<char>> {
    text::trimmed_items(text::split_at_text(s, ", "@))
}

/// The package that is being read is finished, if there is one.
pub open spec fn finished(r: PipReading) -> PipReading {
    if r.name.len() > 0 {
        PipReading {
            table: r.table.insert(r.name, known_model(r.dependencies, r.dependents)),
            name: Seq::empty(),
            dependencies: Seq::empty(),
            dependents: Seq::empty(),
        }
    } else {
        r
    }
}

/// What follows a prefix.
pub open spec fn after(line: Seq<char>, prefix: Seq<char>) -> Seq<char> {
    line.subrange(prefix.len() as int, line.len() as int)
}

/// What is known after one more line.
pub open spec fn with_pip_line(r: PipReading, line: Seq<char>) -> PipReading {
    if line == "---"@ {
        finished(r)
    } else if text::has_prefix(line, "Name: "@) {
        PipReading { name: text::trimmed(after(line, "Name: "@)), ..finished(r) }
    } else if text::has_prefix(line, "Requires: "@) {
        PipReading { dependencies: comma_list(after(line, "Requires: "@)), ..r }
    } else if text::has_prefix(line, "Required-by: "@) {
        PipReading { dependents: comma_list(after(line, "Required-by: "@)), ..r }
    } else {
        r
    }
}

pub open spec fn pip_reading(lines: Seq<Seq<char>>) -> PipReading
    decreases lines.len(),
{
    if lines.len() == 0 {
        PipReading {
            table: Map::empty(),
            name: Seq::empty(),
            dependencies: Seq::empty(),
            dependents: Seq::empty(),
        }
    } else {
        with_pip_line(pip_reading(lines.drop_last()), lines.last())
    }
}

struct PipReader {
    table: DepTable,
    name: String,
    dependencies: Vec<String>,
    dependents: Vec<String>,
}

impl View for PipReader {
    type V = PipReading;

    closed spec fn view(&self) -> PipReading {
        PipReading {
            table: self.table@,
            name: self.name@,
            dependencies: text::texts(self.dependencies@),
            dependents: text::texts(self.dependents@),
        }
    }
}

fn no_texts() -> (r: Vec<String>)
    ensures
        text::texts(r@) == Seq::<Seq<char>>::empty(),
{
    let r: Vec<String> = Vec::new();
    assert(text::texts(r@) =~= Seq::<Seq<char>>::empty());
    r
}

impl PipReader {
    fn finish(&mut self)
        ensures
            final(self)@ == finished(old(self)@),
    {
        if self.name.as_str().is_empty() {
            return ;
        }
        let mut name = String::new();
        let mut dependencies = no_texts();
        let mut dependents = no_texts();
        std::mem::swap(&mut name, &mut self.name);
        std::mem::swap(&mut dependencies, &mut self.dependencies);
        std::mem::swap(&mut dependents, &mut self.dependents);
        self.table.set(name.as_str(), DepInfo::known(dependencies, dependents));
    }

    fn read(&mut self, line: &str)
        ensures
            final(self)@ == with_pip_line(old(self)@, line@),
    {
        if text::same_text(line, "---") {
            self.finish();
            return ;
        }
        match text::strip_prefix_text(line, "Name: ") {
            Some(rest) => {
                self.finish();
                self.name = text::trim_text(rest.as_str());
                return ;
            },
            None => {},
        }
        match text::strip_prefix_text(line, "Requires: ") {
            Some(rest) => {
                self.dependencies = split_commas(rest.as_str());
                return ;
            },
            None => {},
        }
        match text::strip_prefix_text(line, "Required-by: ") {
            Some(rest) => {
                self.dependents = split_commas(rest.as_str());
            },
            None => {},
        }
    }
}

fn split_commas(t: &str) -> (r: Vec<String>)
    ensures
        text::texts(r@) == comma_list(t@),
{
    proof {
        reveal_strlit(", ");
    }
    let pieces = text::split_by(t, ", ");
    text::trim_items(&pieces)
}

/// The dependency information that the output of `pip show` describes.
pub fn parse_pip_show_output(output: &str) -> (r: DepTable)
    ensures
        r@ == finished(pip_reading(text::lines_of(output@))).table,
{
    let lines = text::text_lines(output);
    let ghost all = text::lines_of(output@);
    let mut reader = PipReader {
        table: DepTable::new(),
        name: String::new(),
        dependencies: no_texts(),
        dependents: no_texts(),
    };
    let mut i: usize = 0;
    assert(all.take(0) =~= Seq::<Seq<char>>::empty());
    while i < lines.len()
        invariant
            i <= lines@.len(),
            all == text::texts(lines@),
            reader@ == pip_reading(all.take(i as int)),
        decreases lines@.len() - i,
    {
        assert(all.take(i + 1).drop_last() =~= all.take(i as int));
        assert(all.take(i + 1).last() == lines@[i as int]@);
        reader.read(lines[i].as_str());
        i += 1;
    }
    assert(all.take(all.len() as int) =~= all);
    reader.finish();
    reader.table
}

// ---------------------------------------------------------------------------
// All managers together
// ---------------------------------------------------------------------------

/// Dependency information by manager and package name; a pair occurs once.
#[derive(Debug)]
pub struct DepGraph {
    managers: Vec<Manager>,
    names: Vec<String>,
    infos: Vec<DepInfo>,
}

/// The managers and names side by side.
pub open spec fn pairs(managers: Seq<Manager>, names: Seq<Seq<char>>) -> Seq<(Manager, Seq<char>)> {
    Seq::new(managers.len(), |i: int| (managers[i], names[i]))
}

impl View for DepGraph {
    type V = Map<(Manager, Seq<char>), DepModel>;

    closed spec fn view(&self) -> Map<(Manager, Seq<char>), DepModel> {
        zip_map(pairs(self.managers@, text::texts(self.names@)), sorting::views(self.infos@))
    }
}

/// The packages that nothing depends on.
pub open spec fn leaves(graph: Map<(Manager, Seq<char>), DepModel>) -> Set<(Manager, Seq<char>)> {
    graph.dom().filter(|k: (Manager, Seq<char>)| graph[k].is_leaf())
}

/// Whether a package is needed by others, as far as the graph knows.
pub open spec fn status_in(
    graph: Map<(Manager, Seq<char>), DepModel>,
    manager: Manager,
    name: Seq<char>,
) -> PackageUseStatus {
    let key = (manager, name);
    if graph.contains_key(key) && graph[key].evidence == DepEvidence::ManagerGraph {
        if graph[key].dependents.len() == 0 {
            PackageUseStatus::DependencyLeaf
        } else {
            PackageUseStatus::RequiredByDependents
        }
    } else {
        PackageUseStatus::Untracked
    }
}

impl DepGraph {
    #[verifier::type_invariant]
    spec fn is_graph(&self) -> bool {
        self.managers@.len() == self.infos@.len() && self.names@.len() == self.infos@.len()
            && pairs(self.managers@, text::texts(self.names@)).no_duplicates()
    }

    pub fn new() -> (r: DepGraph)
        ensures
            r@ == Map::<(Manager, Seq<char>), DepModel>::empty(),
    {
        DepGraph { managers: Vec::new(), names: Vec::new(), infos: Vec::new() }
    }

    fn position(&self, manager: Manager, name: &str) -> (r: Option<usize>)
        ensures
            match r {
                Some(i) => i < self.infos@.len() && pairs(
                    self.managers@,
                    text::texts(self.names@),
                )[i as int] == (manager, name@),
                None => !pairs(self.managers@, text::texts(self.names@)).contains(
                    (manager, name@),
                ),
            },
    {
        proof {
            use_type_invariant(self);
        }
        let ghost all = pairs(self.managers@, text::texts(self.names@));
        let mut i: usize = 0;
        while i < self.managers.len()
            invariant
                i <= self.managers@.len(),
                self.managers@.len() == self.infos@.len(),
                self.names@.len() == self.infos@.len(),
                all == pairs(self.managers@, text::texts(self.names@)),
                forall|k: int| 0 <= k < i ==> all[k] != (manager, name@),
            decreases self.managers@.len() - i,
        {
            if self.managers[i] == manager && text::same_text(self.names[i].as_str(), name) {
                return Some(i);
            }
            i += 1;
        }
        None
    }

    /// The information about a package.
    pub fn get(&self, manager: Manager, name: &str) -> (r: Option<&DepInfo>)
        ensures
            match r {
                Some(info) => self@.contains_key((manager, name@)) && self@[(manager, name@)]
                    == info@,
                None => !self@.contains_key((manager, name@)),
            },
    {
        proof {
            use_type_invariant(self);
            zip_map_lookup(
                pairs(self.managers@, text::texts(self.names@)),
                sorting::views(self.infos@),
            );
        }
        let ghost all = pairs(self.managers@, text::texts(self.names@));
        match self.position(manager, name) {
            Some(i) => {
                assert(all[i as int] == (manager, name@));
                assert(all.contains((manager, name@)));
                Some(&self.infos[i])
            },
            None => None,
        }
    }

    /// Sets the information about a package.
    pub fn set(&mut self, manager: Manager, name: &str, info: DepInfo)
        ensures
            final(self)@ == old(self)@.insert((manager, name@), info@),
    {
        proof {
            use_type_invariant(&*self);
        }
        let at = self.position(manager, name);
        let ghost keys = pairs(self.managers@, text::texts(self.names@));
        let ghost values = sorting::views(self.infos@);
        let mut taken = DepGraph::new();
        std::mem::swap(&mut taken, self);
        let DepGraph { managers: taken_managers, names: taken_names, infos: taken_infos } = taken;
        let mut managers = taken_managers;
        let mut names = taken_names;
        let mut infos = taken_infos;
        match at {
            Some(i) => {
                proof {
                    zip_map_update(keys, values, i as int, info@);
                }
                infos.set(i, info);
                assert(sorting::views(infos@) =~= values.update(i as int, info@));
            },
            None => {
                let key = name.to_owned();
                proof {
                    text::texts_push(names@, key);
                    sorting::views_push(infos@, info);
                    assert(pairs(managers@.push(manager), text::texts(names@.push(key)))
                        =~= keys.push((manager, name@)));
                    assert(keys.push((manager, name@)).drop_last() =~= keys);
                    assert(values.push(info@).drop_last() =~= values);
                    assert(keys.push((manager, name@)).no_duplicates());
                }
                managers.push(manager);
                names.push(key);
                infos.push(info);
            },
        }
        *self = DepGraph { managers, names, infos };
    }

    /// Whether a package is needed by others.
    pub fn use_status(&self, manager: Manager, name: &str) -> (r: PackageUseStatus)
        ensures
            r == status_in(self@, manager, name@),
    {
        match self.get(manager, name) {
            Some(info) => if info.evidence == DepEvidence::ManagerGraph {
                if info.dependents.len() == 0 {
                    PackageUseStatus::DependencyLeaf
                } else {
                    PackageUseStatus::RequiredByDependents
                }
            } else {
                PackageUseStatus::Untracked
            },
            None => PackageUseStatus::Untracked,
        }
    }

    /// How many packages nothing depends on.
    pub fn dependency_leaf_count(&self) -> (r: usize)
        ensures
            r == leaves(self@).len(),
    {
        proof {
            use_type_invariant(self);
        }
        let ghost keys = pairs(self.managers@, text::texts(self.names@));
        let ghost values = sorting::views(self.infos@);
        let mut r: usize = 0;
        let mut i: usize = 0;
        assert(leaf_keys(keys, values, 0) =~= Set::<(Manager, Seq<char>)>::empty());
        while i < self.infos.len()
            invariant
                i <= self.infos@.len(),
                r <= i,
                keys == pairs(self.managers@, text::texts(self.names@)),
                values == sorting::views(self.infos@),
                keys.len() == values.len(),
                keys.no_duplicates(),
                leaf_keys(keys, values, i as nat).finite(),
                r == leaf_keys(keys, values, i as nat).len(),
            decreases self.infos@.len() - i,
        {
            let leaf = self.infos[i].is_dependency_leaf();
            proof {
                let now = leaf_keys(keys, values, i as nat);
                let next = leaf_keys(keys, values, (i + 1) as nat);
                if leaf {
                    assert(next =~= now.insert(keys[i as int]));
                    assert(!now.contains(keys[i as int]));
                } else {
                    assert(next =~= now);
                }
            }
            if leaf {
                r += 1;
            }
            i += 1;
        }
        proof {
            zip_map_lookup(keys, values);
            assert(leaf_keys(keys, values, keys.len()) =~= leaves(self@)) by {
                assert forall|k: (Manager, Seq<char>)| leaf_keys(
                    keys,
                    values,
                    keys.len(),
                ).contains(k) == leaves(self@).contains(k) by {
                    if leaves(self@).contains(k) {
                        assert(keys.contains(k));
                        let j = choose|j: int| 0 <= j < keys.len() && keys[j] == k;
                        assert(self@[keys[j]] == values[j]);
                    }
                    if leaf_keys(keys, values, keys.len()).contains(k) {
                        let j = choose|j: int|
                            0 <= j < keys.len() && #[trigger] keys[j] == k && values[j].is_leaf();
                        assert(keys.contains(keys[j]));
                        assert(self@[keys[j]] == values[j]);
                    }
                }
            }
        }
        r
    }
}

/// The keys of the leaves among the first `count` entries.
spec fn leaf_keys<K>(keys: Seq<K>, values: Seq<DepModel>, count: nat) -> Set<K> {
    Set::new(
        |k: K|
            exists|j: int| 0 <= j < count && #[trigger] keys[j] == k && values[j].is_leaf(),
    )
}

/// The graph after the packages of a manager were added.
pub open spec fn with_packages(
    graph: Map<(Manager, Seq<char>), DepModel>,
    manager: Manager,
    packages: Seq<PackageModel>,
    brew: Map<Seq<char>, DepModel>,
    pip: Map<Seq<char>, DepModel>,
) -> Map<(Manager, Seq<char>), DepModel>
    decreases packages.len(),
{
    if packages.len() == 0 {
        graph
    } else {
        let name = packages.last().name;
        with_packages(graph, manager, packages.drop_last(), brew, pip).insert(
            (manager, name),
            dep_info_of(manager, name, brew, pip),
        )
    }
}

/// The graph of all available managers' packages.
pub open spec fn graph_of(
    reports: Seq<ManagerModel>,
    brew: Map<Seq<char>, DepModel>,
    pip: Map<Seq<char>, DepModel>,
) -> Map<(Manager, Seq<char>), DepModel>
    decreases reports.len(),
{
    if reports.len() == 0 {
        Map::empty()
    } else {
        let before = graph_of(reports.drop_last(), brew, pip);
        let report = reports.last();
        if report.available {
            with_packages(before, report.manager, report.packages, brew, pip)
        } else {
            before
        }
    }
}

/// The dependency graph of everything that the reports list.
pub fn scan_dep_graph(reports: &Vec<ManagerReport>, brew_deps: &DepTable, pip_deps: &DepTable) -> (r:
    DepGraph)
    ensures
        r@ == graph_of(sorting::views(reports@), brew_deps@, pip_deps@),
{
    let ghost all = sorting::views(reports@);
    let mut r = DepGraph::new();
    let mut i: usize = 0;
    assert(all.take(0) =~= Seq::<ManagerModel>::empty());
    while i < reports.len()
        invariant
            i <= reports@.len(),
            all == sorting::views(reports@),
            r@ == graph_of(all.take(i as int), brew_deps@, pip_deps@),
        decreases reports@.len() - i,
    {
        let report = &reports[i];
        assert(all.take(i + 1).drop_last() =~= all.take(i as int));
        assert(all.take(i + 1).last() == report@);
        if report.available {
            let ghost before = r@;
            let ghost packages = report@.packages;
            let mut k: usize = 0;
            assert(packages.take(0) =~= Seq::<PackageModel>::empty());
            while k < report.packages.len()
                invariant
                    k <= report.packages@.len(),
                    packages == sorting::views(report.packages@),
                    r@ == with_packages(
                        before,
                        report.manager,
                        packages.take(k as int),
                        brew_deps@,
                        pip_deps@,
                    ),
                decreases report.packages@.len() - k,
            {
                let name = report.packages[k].name.as_str();
                assert(packages.take(k + 1).drop_last() =~= packages.take(k as int));
                assert(packages.take(k + 1).last() == report.packages@[k as int]@);
                let info = package_dep_info(report.manager, name, brew_deps, pip_deps);
                r.set(report.manager, name, info);
                k += 1;
            }
            assert(packages.take(packages.len() as int) =~= packages);
        }
        i += 1;
    }
    assert(all.take(all.len() as int) =~= all);
    r
}

// ---------------------------------------------------------------------------
// Laws
// ---------------------------------------------------------------------------

/// No two managers share a label.
pub proof fn manager_labels_differ(a: Manager, b: Manager)
    requires
        a != b,
    ensures
        a.name() != b.name(),
{
    reveal_strlit("brew");
    reveal_strlit("brew (cask)");
    reveal_strlit("npm (global)");
    reveal_strlit("pip");
    reveal_strlit("cargo");
    reveal_strlit("bun (global)");
    assert("brew"@.len() == 4);
    assert("brew (cask)"@.len() == 11);
    assert("npm (global)"@.len() == 12);
    assert("pip"@.len() == 3);
    assert("cargo"@.len() == 5);
    assert("npm (global)"@[0] != "bun (global)"@[0]);
}

/// Every line names another package.
pub open spec fn packages_differ(lines: Seq<Seq<char>>) -> bool {
    forall|i: int, j: int|
        0 <= i < j < lines.len() && brew_line(lines[i]) is Some && brew_line(lines[j]) is Some
            ==> (#[trigger] brew_line(lines[i])->0).0 != (#[trigger] brew_line(lines[j])->0).0
}

/// Some line names this package.
spec fn is_listed(lines: Seq<Seq<char>>, name: Seq<char>) -> bool {
    exists|i: int|
        0 <= i < lines.len() && brew_line(lines[i]) is Some && (#[trigger] brew_line(
            lines[i],
        )->0).0 == name
}

/// The first package lists the second one as a dependency.
pub open spec fn depends_on(g: Map<Seq<char>, DepModel>, a: Seq<char>, b: Seq<char>) -> bool {
    g.contains_key(a) && g[a].dependencies.contains(b)
}

/// The first package lists the second one as a dependent.
pub open spec fn needed_by(g: Map<Seq<char>, DepModel>, b: Seq<char>, a: Seq<char>) -> bool {
    g.contains_key(b) && g[b].dependents.contains(a)
}

/// Every edge is known from both its ends.
spec fn edges_mirror(g: Map<Seq<char>, DepModel>) -> bool {
    forall|a: Seq<char>, b: Seq<char>|
        #![trigger depends_on(g, a, b)]
        #![trigger needed_by(g, b, a)]
        depends_on(g, a, b) <==> needed_by(g, b, a)
}

proof fn with_dependent_adds(
    g: Map<Seq<char>, DepModel>,
    deps: Seq<Seq<char>>,
    name: Seq<char>,
)
    ensures
        forall|k: Seq<char>| #[trigger]
            with_dependent(g, deps, name).contains_key(k) <==> g.contains_key(k) || deps.contains(
                k,
            ),
        forall|k: Seq<char>|
            g.contains_key(k) ==> (#[trigger] with_dependent(g, deps, name)[k]).dependencies
                == g[k].dependencies,
        forall|k: Seq<char>|
            !g.contains_key(k) && deps.contains(k) ==> (#[trigger] with_dependent(
                g,
                deps,
                name,
            )[k]).dependencies == Seq::<Seq<char>>::empty(),
        forall|k: Seq<char>, a: Seq<char>|
            with_dependent(g, deps, name).contains_key(k) ==> (
            #[trigger] with_dependent(g, deps, name)[k].dependents.contains(a) <==> (
            g.contains_key(k) && g[k].dependents.contains(a)) || (deps.contains(k) && a == name)),
    decreases deps.len(),
{
    let after = with_dependent(g, deps, name);
    if deps.len() == 0 {
        assert forall|k: Seq<char>| !deps.contains(k) by {}
    } else {
        let rest = deps.drop_last();
        let last = deps.last();
        with_dependent_adds(g, rest, name);
        let before = with_dependent(g, rest, name);
        let info = known_or_new(before, last);
        let pushed = info.dependents.push(name);
        assert forall|k: Seq<char>| deps.contains(k) <==> rest.contains(k) || k == last by {
            if rest.contains(k) {
                let i = choose|i: int| 0 <= i < rest.len() && rest[i] == k;
                assert(deps[i] == k);
            }
            if deps.contains(k) && k != last {
                let i = choose|i: int| 0 <= i < deps.len() && deps[i] == k;
                assert(rest[i] == k);
            }
            assert(deps[deps.len() - 1] == last);
        }
        assert forall|a: Seq<char>| pushed.contains(a) <==> info.dependents.contains(a) || a
            == name by {
            if info.dependents.contains(a) {
                let i = choose|i: int|
                    0 <= i < info.dependents.len() && info.dependents[i] == a;
                assert(pushed[i] == a);
            }
            if pushed.contains(a) && a != name {
                let i = choose|i: int| 0 <= i < pushed.len() && pushed[i] == a;
                assert(info.dependents[i] == a);
            }
            assert(pushed[info.dependents.len() as int] == name);
        }
        assert(after[last].dependents == pushed);
        assert forall|k: Seq<char>, a: Seq<char>| after.contains_key(k) implies (
        #[trigger] after[k].dependents.contains(a) <==> (g.contains_key(k)
            && g[k].dependents.contains(a)) || (deps.contains(k) && a == name)) by {
            if k == last {
                if before.contains_key(last) {
                    assert(before[last].dependents.contains(a) <==> (g.contains_key(last)
                        && g[last].dependents.contains(a)) || (rest.contains(last) && a == name));
                }
            } else {
                assert(after[k] == before[k]);
                assert(before[k].dependents.contains(a) <==> (g.contains_key(k)
                    && g[k].dependents.contains(a)) || (rest.contains(k) && a == name));
            }
        }
    }
}

proof fn unlisted_has_no_dependencies(lines: Seq<Seq<char>>, name: Seq<char>)
    requires
        !is_listed(lines, name),
        brew_graph(lines).contains_key(name),
    ensures
        brew_graph(lines)[name].dependencies.len() == 0,
    decreases lines.len(),
{
    if lines.len() > 0 {
        let rest = lines.drop_last();
        let before = brew_graph(rest);
        if is_listed(rest, name) {
            let i = choose|i: int|
                0 <= i < rest.len() && brew_line(rest[i]) is Some && (#[trigger] brew_line(
                    rest[i],
                )->0).0 == name;
            assert(lines[i] == rest[i]);
            assert(brew_line(lines[i]) is Some);
        }
        if before.contains_key(name) {
            unlisted_has_no_dependencies(rest, name);
        }
        match brew_line(lines.last()) {
            Some((n, deps)) => {
                assert(lines[lines.len() - 1] == lines.last());
                assert((brew_line(lines[lines.len() - 1])->0).0 == n);
                assert(n != name);
                with_dependent_adds(before, deps, n);
            },
            None => {},
        }
    }
}

/// The reverse edges mirror the forward ones: where every package has one line,
/// a package lists a dependency exactly where the dependency lists it as a
/// dependent.
pub proof fn reverse_dependencies_mirror(lines: Seq<Seq<char>>, a: Seq<char>, b: Seq<char>)
    requires
        packages_differ(lines),
    ensures
        depends_on(brew_graph(lines), a, b) <==> needed_by(brew_graph(lines), b, a),
{
    graph_mirrors(lines);
}

proof fn graph_mirrors(lines: Seq<Seq<char>>)
    requires
        packages_differ(lines),
    ensures
        edges_mirror(brew_graph(lines)),
    decreases lines.len(),
{
    if lines.len() > 0 {
        let rest = lines.drop_last();
        assert(packages_differ(rest)) by {
            assert forall|i: int, j: int|
                0 <= i < j < rest.len() && brew_line(rest[i]) is Some && brew_line(rest[j])
                    is Some implies (#[trigger] brew_line(rest[i])->0).0 != (#[trigger] brew_line(
                rest[j],
            )->0).0 by {
                assert(rest[i] == lines[i] && rest[j] == lines[j]);
                assert((brew_line(lines[i])->0).0 != (brew_line(lines[j])->0).0);
            }
        }
        graph_mirrors(rest);
        let before = brew_graph(rest);
        match brew_line(lines.last()) {
            Some((n, deps)) => {
                let noted = with_dependent(before, deps, n);
                let after = brew_graph(lines);
                with_dependent_adds(before, deps, n);
                assert(!is_listed(rest, n)) by {
                    if is_listed(rest, n) {
                        let i = choose|i: int|
                            0 <= i < rest.len() && brew_line(rest[i]) is Some && (
                            #[trigger] brew_line(rest[i])->0).0 == n;
                        assert(lines[i] == rest[i]);
                        let j = lines.len() - 1;
                        assert(lines[j] == lines.last());
                        assert((brew_line(lines[i])->0).0 != (brew_line(lines[j])->0).0);
                    }
                }
                if before.contains_key(n) {
                    unlisted_has_no_dependencies(rest, n);
                }
                assert(after == noted.insert(
                    n,
                    DepModel { dependencies: deps, ..known_or_new(noted, n) },
                ));
                assert forall|x: Seq<char>, y: Seq<char>|
                    #![trigger depends_on(after, x, y)]
                    #![trigger needed_by(after, y, x)]
                    depends_on(after, x, y) <==> needed_by(after, y, x) by {
                    mirror_step(before, noted, after, n, deps, x, y);
                }
            },
            None => {},
        }
    }
}

proof fn mirror_step(
    before: Map<Seq<char>, DepModel>,
    noted: Map<Seq<char>, DepModel>,
    after: Map<Seq<char>, DepModel>,
    n: Seq<char>,
    deps: Seq<Seq<char>>,
    x: Seq<char>,
    y: Seq<char>,
)
    requires
        edges_mirror(before),
        noted == with_dependent(before, deps, n),
        after == noted.insert(n, DepModel { dependencies: deps, ..known_or_new(noted, n) }),
        before.contains_key(n) ==> before[n].dependencies.len() == 0,
    ensures
        depends_on(after, x, y) <==> needed_by(after, y, x),
{
    with_dependent_adds(before, deps, n);
    assert(depends_on(before, x, y) <==> needed_by(before, y, x));
    assert(before.contains_key(n) ==> !before[n].dependencies.contains(y));
    // dependents of y after the step
    assert(noted.contains_key(y) ==> (noted[y].dependents.contains(x) <==> (
    before.contains_key(y) && before[y].dependents.contains(x)) || (deps.contains(y) && x == n)));
    if x == n {
        assert(after[x].dependencies == deps);
        if deps.contains(y) {
            assert(noted.contains_key(y));
            assert(noted[y].dependents.contains(x));
        }
        if after.contains_key(y) && after[y].dependents.contains(x) {
            if y == n && !noted.contains_key(n) {
                assert(after[y].dependents =~= Seq::<Seq<char>>::empty());
            } else {
                assert(noted[y].dependents.contains(x));
            }
        }
    } else {
        if after.contains_key(x) {
            assert(after[x] == noted[x]);
        }
        if after.contains_key(y) && after[y].dependents.contains(x) {
            if y == n && !noted.contains_key(n) {
                assert(after[y].dependents =~= Seq::<Seq<char>>::empty());
            } else {
                assert(noted[y].dependents.contains(x));
            }
        }
    }
}

/// A manager's total is what the sizes of its packages add up to, each part as
/// far as 64 bits hold it; a package without a size adds nothing.
pub proof fn packages_add_up(packages: Seq<PackageModel>)
    ensures
        ({
            let logical = sums::added(
                packages,
                |p: PackageModel|
                    if p.size is Some {
                        p.size->0.logical as int
                    } else {
                        0
                    },
            );
            let allocated = sums::added(
                packages,
                |p: PackageModel|
                    if p.size is Some {
                        p.size->0.allocated as int
                    } else {
                        0
                    },
            );
            &&& 0 <= logical && 0 <= allocated
            &&& packages_total(packages).logical == if logical > u64::MAX {
                u64::MAX as int
            } else {
                logical
            }
            &&& packages_total(packages).allocated == if allocated > u64::MAX {
                u64::MAX as int
            } else {
                allocated
            }
        }),
    decreases packages.len(),
{
    if packages.len() > 0 {
        packages_add_up(packages.drop_last());
    }
}

/// What a line of `brew deps` lists is what its package depends on in the graph,
/// and nothing else is.
pub proof fn brew_lines_are_edges(lines: Seq<Seq<char>>, i: int, b: Seq<char>)
    requires
        packages_differ(lines),
        0 <= i < lines.len(),
        brew_line(lines[i]) is Some,
    ensures
        ({
            let (a, deps) = brew_line(lines[i])->0;
            &&& depends_on(brew_graph(lines), a, b) <==> deps.contains(b)
            &&& deps.contains(b) ==> needed_by(brew_graph(lines), b, a)
        }),
{
    brew_line_is_kept(lines, i);
    reverse_dependencies_mirror(lines, (brew_line(lines[i])->0).0, b);
}

proof fn brew_line_is_kept(lines: Seq<Seq<char>>, i: int)
    requires
        packages_differ(lines),
        0 <= i < lines.len(),
        brew_line(lines[i]) is Some,
    ensures
        brew_graph(lines).contains_key((brew_line(lines[i])->0).0),
        brew_graph(lines)[(brew_line(lines[i])->0).0].dependencies == (brew_line(lines[i])->0).1,
    decreases lines.len(),
{
    let rest = lines.drop_last();
    let (a, deps) = brew_line(lines[i])->0;
    if i < rest.len() {
        assert(packages_differ(rest)) by {
            assert forall|j: int, k: int|
                0 <= j < k < rest.len() && brew_line(rest[j]) is Some && brew_line(rest[k])
                    is Some implies (#[trigger] brew_line(rest[j])->0).0 != (#[trigger] brew_line(
                rest[k],
            )->0).0 by {
                assert(rest[j] == lines[j] && rest[k] == lines[k]);
                assert((brew_line(lines[j])->0).0 != (brew_line(lines[k])->0).0);
            }
        }
        assert(rest[i] == lines[i]);
        brew_line_is_kept(rest, i);
        let before = brew_graph(rest);
        match brew_line(lines.last()) {
            Some((n, more)) => {
                assert(lines[lines.len() - 1] == lines.last());
                assert((brew_line(lines[i])->0).0 != (brew_line(lines[lines.len() - 1])->0).0);
                with_dependent_adds(before, more, n);
            },
            None => {},
        }
    }
}

/// The graph of all packages knows every package of every manager that is
/// there, and says of it what its manager's table says; it knows no others.
pub proof fn the_graph_knows_every_package(
    reports: Seq<ManagerModel>,
    brew: Map<Seq<char>, DepModel>,
    pip: Map<Seq<char>, DepModel>,
    manager: Manager,
    name: Seq<char>,
)
    ensures
        graph_of(reports, brew, pip).contains_key((manager, name)) <==> exists|i: int, k: int|
            0 <= i < reports.len() && reports[i].available && reports[i].manager == manager && 0
                <= k < reports[i].packages.len() && (#[trigger] reports[i].packages[k]).name == name,
        graph_of(reports, brew, pip).contains_key((manager, name)) ==> graph_of(
            reports,
            brew,
            pip,
        )[(manager, name)] == if manager == Manager::Brew {
            lookup(brew, name)
        } else if manager == Manager::Pip {
            lookup(pip, name)
        } else {
            known_model(Seq::empty(), Seq::empty())
        },
    decreases reports.len(),
{
    if reports.len() > 0 {
        let less = reports.drop_last();
        let last = reports.last();
        let n = reports.len() - 1;
        the_graph_knows_every_package(less, brew, pip, manager, name);
        let before = graph_of(less, brew, pip);
        let after = graph_of(reports, brew, pip);
        assert(reports[n] == last);
        if last.available {
            packages_are_added(before, last.manager, last.packages, brew, pip, manager, name);
        }
        if before.contains_key((manager, name)) {
            let (i, k) = choose|i: int, k: int|
                0 <= i < less.len() && less[i].available && less[i].manager == manager && 0 <= k
                    < less[i].packages.len() && (#[trigger] less[i].packages[k]).name == name;
            assert(reports[i] == less[i]);
            assert(reports[i].packages[k].name == name);
        }
        if exists|i: int, k: int|
            0 <= i < reports.len() && reports[i].available && reports[i].manager == manager && 0
                <= k < reports[i].packages.len() && (#[trigger] reports[i].packages[k]).name
                == name {
            let (i, k) = choose|i: int, k: int|
                0 <= i < reports.len() && reports[i].available && reports[i].manager == manager && 0
                    <= k < reports[i].packages.len() && (#[trigger] reports[i].packages[k]).name
                    == name;
            if i < n {
                assert(less[i] == reports[i]);
                assert(less[i].packages[k].name == name);
            }
        }
    }
}

proof fn packages_are_added(
    graph: Map<(Manager, Seq<char>), DepModel>,
    of: Manager,
    packages: Seq<PackageModel>,
    brew: Map<Seq<char>, DepModel>,
    pip: Map<Seq<char>, DepModel>,
    manager: Manager,
    name: Seq<char>,
)
    ensures
        ({
            let after = with_packages(graph, of, packages, brew, pip);
            let key = (manager, name);
            let listed = of == manager && exists|k: int|
                0 <= k < packages.len() && (#[trigger] packages[k]).name == name;
            &&& after.contains_key(key) == (graph.contains_key(key) || listed)
            &&& listed ==> after[key] == dep_info_of(manager, name, brew, pip)
            &&& !listed && graph.contains_key(key) ==> after[key] == graph[key]
        }),
    decreases packages.len(),
{
    if packages.len() > 0 {
        let less = packages.drop_last();
        packages_are_added(graph, of, less, brew, pip, manager, name);
        assert(packages[packages.len() - 1] == packages.last());
        if exists|k: int| 0 <= k < less.len() && (#[trigger] less[k]).name == name {
            let k = choose|k: int| 0 <= k < less.len() && (#[trigger] less[k]).name == name;
            assert(packages[k].name == name);
        }
        if packages.last().name != name && exists|k: int|
            0 <= k < packages.len() && (#[trigger] packages[k]).name == name {
            let k = choose|k: int| 0 <= k < packages.len() && (#[trigger] packages[k]).name == name;
            assert(less[k].name == name);
        }
    }
}

/// What `pip show` says of a package, between the line with its name and the
/// next: the table knows it by that name, with the two lists that follow, and
/// what it knew of others stays. A package without lists has none: nothing is
/// carried over from the one before it.
pub proof fn every_pip_package_is_read(
    before: Seq<Seq<char>>,
    name: Seq<char>,
    requires_list: Seq<char>,
    required_by: Seq<char>,
)
    requires
        text::trimmed(name) == name && name.len() > 0,
    ensures
        finished(
            pip_reading(
                before.push("Name: "@ + name).push("Requires: "@ + requires_list).push(
                    "Required-by: "@ + required_by,
                ),
            ),
        ).table == finished(pip_reading(before)).table.insert(
            name,
            DepModel {
                dependencies: comma_list(requires_list),
                dependents: comma_list(required_by),
                evidence: DepEvidence::ManagerGraph,
            },
        ),
        finished(pip_reading(before)).table.contains_key(pip_reading(before).name)
            || pip_reading(before).name.len() == 0,
        pip_reading(before).name.len() > 0 ==> finished(
            pip_reading(before.push("Name: "@ + name)),
        ).table == finished(pip_reading(before)).table.insert(
            name,
            DepModel {
                dependencies: Seq::empty(),
                dependents: Seq::empty(),
                evidence: DepEvidence::ManagerGraph,
            },
        ),
{
    reveal_strlit("---");
    reveal_strlit("Name: ");
    reveal_strlit("Requires: ");
    reveal_strlit("Required-by: ");
    let a = "Name: "@ + name;
    let b = "Requires: "@ + requires_list;
    let c = "Required-by: "@ + required_by;
    assert(a[0] == 'N' && b[0] == 'R' && c[0] == 'R' && b[7] == 's' && c[7] == 'd');
    assert("---"@[0] == '-');
    assert(text::has_prefix(a, "Name: "@)) by {
        assert(a.subrange(0, 6) =~= "Name: "@);
    }
    assert(text::has_prefix(b, "Requires: "@)) by {
        assert(b.subrange(0, 10) =~= "Requires: "@);
    }
    assert(text::has_prefix(c, "Required-by: "@)) by {
        assert(c.subrange(0, 13) =~= "Required-by: "@);
    }
    assert(!text::has_prefix(b, "Name: "@)) by {
        if text::has_prefix(b, "Name: "@) {
            assert(b.subrange(0, 6)[0] == b[0]);
        }
    }
    assert(!text::has_prefix(c, "Name: "@)) by {
        if text::has_prefix(c, "Name: "@) {
            assert(c.subrange(0, 6)[0] == c[0]);
        }
    }
    assert(!text::has_prefix(c, "Requires: "@)) by {
        if text::has_prefix(c, "Requires: "@) {
            assert(c.subrange(0, 10)[7] == c[7]);
        }
    }
    assert(after(a, "Name: "@) =~= name);
    assert(after(b, "Requires: "@) =~= requires_list);
    assert(after(c, "Required-by: "@) =~= required_by);
    let one = before.push(a);
    let two = one.push(b);
    let three = two.push(c);
    assert(one.drop_last() =~= before && two.drop_last() =~= one && three.drop_last() =~= two);
    assert(pip_reading(one) == with_pip_line(pip_reading(before), a));
    assert(pip_reading(two) == with_pip_line(pip_reading(one), b));
    assert(pip_reading(three) == with_pip_line(pip_reading(two), c));
}

/// The packages that `pip show` is asked about are those of the first report of
/// pip that could be made: all of them, in order.
pub proof fn pip_is_asked_about_all_its_packages(reports: Seq<ManagerModel>, i: int)
    requires
        0 <= i < reports.len(),
        reports[i].manager == Manager::Pip && reports[i].available,
        forall|k: int|
            0 <= k < i ==> !((#[trigger] reports[k]).manager == Manager::Pip
                && reports[k].available),
    ensures
        pip_names(reports).len() == reports[i].packages.len(),
        forall|k: int|
            0 <= k < reports[i].packages.len() ==> #[trigger] pip_names(reports)[k]
                == reports[i].packages[k].name,
    decreases reports.len(),
{
    if i > 0 {
        assert(!(reports[0].manager == Manager::Pip && reports[0].available));
        let rest = reports.skip(1);
        assert(rest[i - 1] == reports[i]);
        assert forall|k: int| 0 <= k < i - 1 implies !((#[trigger] rest[k]).manager == Manager::Pip
            && rest[k].available) by {
            assert(rest[k] == reports[k + 1]);
        }
        pip_is_asked_about_all_its_packages(rest, i - 1);
    }
}

/// A package is a leaf exactly where its manager knows it and nothing depends on
/// it; what is told of a single package agrees with that, and a package that
/// something depends on is never told to be unused.
pub proof fn leaves_are_what_nothing_needs(
    graph: Map<(Manager, Seq<char>), DepModel>,
    manager: Manager,
    name: Seq<char>,
)
    ensures
        ({
            let key = (manager, name);
            let known = graph.contains_key(key) && graph[key].evidence
                == DepEvidence::ManagerGraph;
            &&& leaves(graph).contains(key) <==> known && graph[key].dependents.len() == 0
            &&& status_in(graph, manager, name) == PackageUseStatus::DependencyLeaf
                <==> leaves(graph).contains(key)
            &&& status_in(graph, manager, name) == PackageUseStatus::RequiredByDependents
                <==> known && graph[key].dependents.len() > 0
            &&& status_in(graph, manager, name) == PackageUseStatus::Untracked <==> !known
        }),
{
}

} // verus!
