//! Projects: which manifests a directory holds, how many dependencies each of
//! them lists, and how much room the installed dependencies take.

use crate::bulkstat;
use crate::descent;
use crate::json;
use crate::packages;
use crate::paths;
use crate::pool;
use crate::sorting;
use crate::sums;
use crate::text;
use vstd::prelude::*;

verus! {

// ---------------------------------------------------------------------------
// Counting
// ---------------------------------------------------------------------------

/// A count that stops at the largest machine number.
pub open spec fn capped_len(n: nat) -> usize {
    if n <= usize::MAX {
        n as usize
    } else {
        usize::MAX
    }
}

/// How many members the object of that name has.
pub open spec fn member_count(value: json::Json, key: Seq<char>) -> nat {
    match json::member(value, key) {
        Some(json::Json::Object(m)) => m.dom().len(),
        _ => 0,
    }
}

/// How many members two objects of a value have together.
pub open spec fn two_counts(value: json::Json, a: Seq<char>, b: Seq<char>) -> nat {
    member_count(value, a) + member_count(value, b)
}

fn count_members(value: &serde_json::Value, key: &str) -> (r: usize)
    ensures
        r == member_count(json::json_model(*value), key@),
{
    match json::get(value, key) {
        Some(inner) => match json::keys(inner) {
            Some(names) => {
                proof {
                    let all = text::texts(names@);
                    assert forall|i: int, j: int|
                        0 <= i < j < all.len() implies all[i] != all[j] by {
                        text::text_order_total(names@[i]@, names@[j]@);
                    }
                    assert(all.no_duplicates());
                    all.unique_seq_to_set();
                }
                names.len()
            },
            None => 0,
        },
        None => 0,
    }
}

/// How many dependencies a parsed `package.json` lists.
pub fn package_json_deps(value: &serde_json::Value) -> (r: usize)
    ensures
        r == capped_len(
            two_counts(json::json_model(*value), "dependencies"@, "devDependencies"@),
        ),
{
    let deps: usize = count_members(value, "dependencies");
    let dev_deps: usize = count_members(value, "devDependencies");
    deps.saturating_add(dev_deps)
}

/// How many dependencies a parsed `composer.json` lists.
pub fn composer_json_deps(value: &serde_json::Value) -> (r: usize)
    ensures
        r == capped_len(two_counts(json::json_model(*value), "require"@, "require-dev"@)),
{
    let required: usize = count_members(value, "require");
    let dev_required: usize = count_members(value, "require-dev");
    required.saturating_add(dev_required)
}

/// The count of what a text denotes, none where it is no JSON.
pub open spec fn json_count(content: Seq<char>, a: Seq<char>, b: Seq<char>) -> nat {
    match json::json_parsed(content) {
        Some(value) => two_counts(value, a, b),
        None => 0,
    }
}

pub fn count_package_json_deps(content: &str) -> (r: usize)
    ensures
        r == capped_len(json_count(content@, "dependencies"@, "devDependencies"@)),
{
    match json::parse(content) {
        Some(value) => package_json_deps(&value),
        None => 0,
    }
}

pub fn count_composer_deps(content: &str) -> (r: usize)
    ensures
        r == capped_len(json_count(content@, "require"@, "require-dev"@)),
{
    match json::parse(content) {
        Some(value) => composer_json_deps(&value),
        None => 0,
    }
}

/// The line starts with that character.
pub open spec fn starts(line: Seq<char>, c: char) -> bool {
    line.len() > 0 && line[0] == c
}

/// The header opens a table of Cargo dependencies.
pub open spec fn is_cargo_section(line: Seq<char>) -> bool {
    line == "[dependencies]"@ || line == "[dev-dependencies]"@ || line == "[build-dependencies]"@
}

/// The dependencies in trimmed lines of a `Cargo.toml`, and whether the last
/// line stands in a table of dependencies.
pub open spec fn cargo_deps(lines: Seq<Seq<char>>) -> (nat, bool)
    decreases lines.len(),
{
    if lines.len() == 0 {
        (0, false)
    } else {
        let (count, inside) = cargo_deps(lines.drop_last());
        let line = lines.last();
        if starts(line, '[') {
            (count, is_cargo_section(line))
        } else if inside && line.contains('=') && !starts(line, '#') {
            (count + 1, inside)
        } else {
            (count, inside)
        }
    }
}

pub fn count_cargo_toml_deps(content: &str) -> (r: usize)
    ensures
        r == cargo_deps(text::trimmed_lines(content@)).0,
{
    let lines = text::trim_lines(content);
    let ghost all = text::trimmed_lines(content@);
    let mut count: usize = 0;
    let mut inside = false;
    let mut i: usize = 0;
    assert(all.take(0) =~= Seq::<Seq<char>>::empty());
    while i < lines.len()
        invariant
            i <= lines@.len(),
            count <= i,
            all == text::texts(lines@),
            (count as nat, inside) == cargo_deps(all.take(i as int)),
        decreases lines@.len() - i,
    {
        let line = lines[i].as_str();
        assert(all.take(i + 1).drop_last() =~= all.take(i as int));
        assert(all.take(i + 1).last() == line@);
        if text::starts_with_char(line, '[') {
            inside = text::same_text(line, "[dependencies]") || text::same_text(
                line,
                "[dev-dependencies]",
            ) || text::same_text(line, "[build-dependencies]");
        } else if inside && text::contains_char(line, '=') && !text::starts_with_char(line, '#') {
            count += 1;
        }
        i += 1;
    }
    assert(all.take(all.len() as int) =~= all);
    count
}

/// The line of a `requirements.txt` names a package.
pub open spec fn is_requirement(line: Seq<char>) -> bool {
    line.len() > 0 && line[0] != '#' && line[0] != '-'
}

pub fn count_requirements_deps(content: &str) -> (r: usize)
    ensures
        r == text::trimmed_lines(content@).filter(|line: Seq<char>| is_requirement(line)).len(),
{
    let lines = text::trim_lines(content);
    let ghost all = text::trimmed_lines(content@);
    let ghost wanted = |line: Seq<char>| is_requirement(line);
    let mut count: usize = 0;
    let mut i: usize = 0;
    proof {
        reveal(Seq::filter);
        assert(all.take(0) =~= Seq::<Seq<char>>::empty());
    }
    while i < lines.len()
        invariant
            i <= lines@.len(),
            count <= i,
            all == text::texts(lines@),
            wanted == (|line: Seq<char>| is_requirement(line)),
            count == all.take(i as int).filter(wanted).len(),
        decreases lines@.len() - i,
    {
        let line = lines[i].as_str();
        proof {
            reveal(Seq::filter);
            assert(all.take(i + 1).drop_last() =~= all.take(i as int));
            assert(all.take(i + 1).last() == line@);
        }
        if !line.is_empty() && !text::starts_with_char(line, '#') && !text::starts_with_char(
            line,
            '-',
        ) {
            count += 1;
        }
        i += 1;
    }
    assert(all.take(all.len() as int) =~= all);
    count
}

/// The line of a `Gemfile` names a gem.
pub open spec fn is_gem(line: Seq<char>) -> bool {
    text::has_prefix(line, "gem "@)
}

pub fn count_gemfile_deps(content: &str) -> (r: usize)
    ensures
        r == text::trimmed_lines(content@).filter(|line: Seq<char>| is_gem(line)).len(),
{
    let lines = text::trim_lines(content);
    let ghost all = text::trimmed_lines(content@);
    let ghost wanted = |line: Seq<char>| is_gem(line);
    let mut count: usize = 0;
    let mut i: usize = 0;
    proof {
        reveal(Seq::filter);
        assert(all.take(0) =~= Seq::<Seq<char>>::empty());
    }
    while i < lines.len()
        invariant
            i <= lines@.len(),
            count <= i,
            all == text::texts(lines@),
            wanted == (|line: Seq<char>| is_gem(line)),
            count == all.take(i as int).filter(wanted).len(),
        decreases lines@.len() - i,
    {
        let line = lines[i].as_str();
        proof {
            reveal(Seq::filter);
            assert(all.take(i + 1).drop_last() =~= all.take(i as int));
            assert(all.take(i + 1).last() == line@);
        }
        if text::starts_with_text(line, "gem ") {
            count += 1;
        }
        i += 1;
    }
    assert(all.take(all.len() as int) =~= all);
    count
}

/// The requirements in trimmed lines of a `go.mod`, and whether the last line
/// stands in a block of requirements.
pub open spec fn go_deps(lines: Seq<Seq<char>>) -> (nat, bool)
    decreases lines.len(),
{
    if lines.len() == 0 {
        (0, false)
    } else {
        let (count, inside) = go_deps(lines.drop_last());
        let line = lines.last();
        if text::has_prefix(line, "require ("@) {
            (count, true)
        } else if line == ")"@ {
            (count, false)
        } else {
            let in_block: nat = if inside && line.len() > 0 && !text::has_prefix(line, "//"@) {
                1
            } else {
                0
            };
            let alone: nat = if text::has_prefix(line, "require "@) && !line.contains('(') {
                1
            } else {
                0
            };
            (count + in_block + alone, inside)
        }
    }
}

pub fn count_go_mod_deps(content: &str) -> (r: usize)
    ensures
        r == capped_len(go_deps(text::trimmed_lines(content@)).0),
{
    let lines = text::trim_lines(content);
    let ghost all = text::trimmed_lines(content@);
    let mut count: usize = 0;
    let mut inside = false;
    let mut i: usize = 0;
    assert(all.take(0) =~= Seq::<Seq<char>>::empty());
    while i < lines.len()
        invariant
            i <= lines@.len(),
            all == text::texts(lines@),
            count == capped_len(go_deps(all.take(i as int)).0),
            inside == go_deps(all.take(i as int)).1,
        decreases lines@.len() - i,
    {
        let line = lines[i].as_str();
        assert(all.take(i + 1).drop_last() =~= all.take(i as int));
        assert(all.take(i + 1).last() == line@);
        if text::starts_with_text(line, "require (") {
            inside = true;
        } else if text::same_text(line, ")") {
            inside = false;
        } else {
            if inside && !line.is_empty() && !text::starts_with_text(line, "//") {
                count = count.saturating_add(1);
            }
            if text::starts_with_text(line, "require ") && !text::contains_char(line, '(') {
                count = count.saturating_add(1);
            }
        }
        i += 1;
    }
    assert(all.take(all.len() as int) =~= all);
    count
}

// ---------------------------------------------------------------------------
// pyproject.toml
// ---------------------------------------------------------------------------

/// What a table of a `pyproject.toml` says about dependencies.
#[derive(Clone, Copy, Debug, PartialEq, Eq, Structural)]
pub enum Section {
    /// Nothing.
    Other,
    /// `[project]`: the array `dependencies` lists them.
    Project,
    /// `[project.optional-dependencies]`: each array lists some.
    Optional,
    /// Any other table of dependencies: each line is one.
    Named,
}

/// The table that a header opens.
pub open spec fn section_of(header: Seq<char>) -> Section {
    if header == "[project]"@ {
        Section::Project
    } else if header == "[project.optional-dependencies]"@ {
        Section::Optional
    } else if text::has_part(header, "dependencies"@) {
        Section::Named
    } else {
        Section::Other
    }
}

/// The quoted items in the text of an array, and whether the array ends in it.
/// A `#` outside quotes starts a comment.
pub open spec fn array_items(s: Seq<char>, quote: Option<char>) -> (nat, bool)
    decreases s.len(),
{
    if s.len() == 0 {
        (0, false)
    } else {
        let c = s[0];
        let rest = s.subrange(1, s.len() as int);
        match quote {
            Some(q) => array_items(
                rest,
                if c == q {
                    None
                } else {
                    quote
                },
            ),
            None => if c == '"' || c == '\'' {
                let (count, closed) = array_items(rest, Some(c));
                ((count + 1) as nat, closed)
            } else if c == ']' {
                (0, true)
            } else if c == '#' {
                (0, false)
            } else {
                array_items(rest, None)
            },
        }
    }
}

/// What follows the bracket that opens an array, and the key in front of it.
pub open spec fn array_start(line: Seq<char>) -> Option<(Seq<char>, Seq<char>)> {
    let at = text::first_place(line, '=');
    if at < line.len() {
        let value = text::trimmed(line.subrange(at as int + 1, line.len() as int));
        if starts(value, '[') {
            Some(
                (
                    text::trimmed(line.subrange(0, at as int)),
                    value.subrange(1, value.len() as int),
                ),
            )
        } else {
            None
        }
    } else {
        None
    }
}

/// The array in which a line lists dependencies, where it opens one.
pub open spec fn opened_array(section: Section, line: Seq<char>) -> Option<Seq<char>> {
    match array_start(line) {
        Some((key, items)) => if section == Section::Project && key == "dependencies"@ || section
            == Section::Optional && !starts(line, '#') {
            Some(items)
        } else {
            None
        },
        None => None,
    }
}

#[verifier::ext_equal]
pub struct PyState {
    pub count: nat,
    pub section: Section,
    pub in_array: bool,
}

/// What is known after one more trimmed line.
pub open spec fn with_py_line(s: PyState, line: Seq<char>) -> PyState {
    if s.in_array {
        let (items, closed) = array_items(line, None);
        PyState { count: s.count + items, in_array: !closed, ..s }
    } else if starts(line, '[') {
        PyState { section: section_of(line), ..s }
    } else if s.section == Section::Named {
        if starts(line, '"') || starts(line, '\'') || (line.contains('=') && !starts(line, '#')) {
            PyState { count: s.count + 1, ..s }
        } else {
            s
        }
    } else {
        match opened_array(s.section, line) {
            Some(text) => {
                let (items, closed) = array_items(text, None);
                PyState { count: s.count + items, in_array: !closed, ..s }
            },
            None => s,
        }
    }
}

pub open spec fn py_state(lines: Seq<Seq<char>>) -> PyState
    decreases lines.len(),
{
    if lines.len() == 0 {
        PyState { count: 0, section: Section::Other, in_array: false }
    } else {
        with_py_line(py_state(lines.drop_last()), lines.last())
    }
}

/// Counts the items in the text of an array.
fn scan_array(chars: &Vec<char>, from: usize) -> (r: (usize, bool))
    requires
        from <= chars@.len(),
    ensures
        (r.0 as nat, r.1) == array_items(chars@.subrange(from as int, chars@.len() as int), None),
{
    let n: usize = chars.len();
    let ghost whole = array_items(chars@.subrange(from as int, n as int), None);
    let mut count: usize = 0;
    let mut quote: Option<char> = None;
    let mut i: usize = from;
    while i < n
        invariant
            from <= i <= n,
            n == chars@.len(),
            count <= i - from,
            whole == array_items(chars@.subrange(from as int, chars@.len() as int), None),
            whole == ((count + array_items(chars@.subrange(i as int, n as int), quote).0) as nat,
            array_items(chars@.subrange(i as int, n as int), quote).1),
        ensures
            (count as nat, false) == whole,
        decreases n - i,
    {
        let c: char = chars[i];
        let ghost here = chars@.subrange(i as int, n as int);
        assert(here.subrange(1, here.len() as int) =~= chars@.subrange(i + 1, n as int));
        assert(here[0] == c);
        match quote {
            Some(q) => {
                if c == q {
                    quote = None;
                }
            },
            None => {
                if c == '"' || c == '\'' {
                    count += 1;
                    quote = Some(c);
                } else if c == ']' {
                    return (count, true);
                } else if c == '#' {
                    return (count, false);
                }
            },
        }
        i += 1;
    }
    (count, false)
}

fn find_section(header: &str) -> (r: Section)
    ensures
        r == section_of(header@),
{
    if text::same_text(header, "[project]") {
        Section::Project
    } else if text::same_text(header, "[project.optional-dependencies]") {
        Section::Optional
    } else if text::contains_text(header, "dependencies") {
        Section::Named
    } else {
        Section::Other
    }
}

/// The characters of the array that a line opens.
fn open_array(section: Section, line: &str) -> (r: Option<Vec<char>>)
    ensures
        match r {
            Some(chars) => opened_array(section, line@) == Some(chars@),
            None => opened_array(section, line@) is None,
        },
{
    let chars = text::chars_of(line);
    let at = text::find_char(&chars, '=');
    if at >= chars.len() {
        return None;
    }
    let tail = text::text_of_range(&chars, at + 1, chars.len());
    let value = text::trim_text(tail.as_str());
    if !text::starts_with_char(value.as_str(), '[') {
        return None;
    }
    let head = text::text_of_range(&chars, 0, at);
    let key = text::trim_text(head.as_str());
    let counts = match section {
        Section::Project => text::same_text(key.as_str(), "dependencies"),
        Section::Optional => !text::starts_with_char(line, '#'),
        Section::Other | Section::Named => false,
    };
    if counts {
        let shown = text::chars_of(value.as_str());
        let inside = text::text_of_range(&shown, 1, shown.len());
        Some(text::chars_of(inside.as_str()))
    } else {
        None
    }
}

pub fn count_pyproject_deps(content: &str) -> (r: usize)
    ensures
        r == capped_len(py_state(text::trimmed_lines(content@)).count),
{
    let lines = text::trim_lines(content);
    let ghost all = text::trimmed_lines(content@);
    let mut count: usize = 0;
    let mut section = Section::Other;
    let mut in_array = false;
    let mut i: usize = 0;
    assert(all.take(0) =~= Seq::<Seq<char>>::empty());
    while i < lines.len()
        invariant
            i <= lines@.len(),
            all == text::texts(lines@),
            count == capped_len(py_state(all.take(i as int)).count),
            section == py_state(all.take(i as int)).section,
            in_array == py_state(all.take(i as int)).in_array,
        decreases lines@.len() - i,
    {
        let line = lines[i].as_str();
        assert(all.take(i + 1).drop_last() =~= all.take(i as int));
        assert(all.take(i + 1).last() == line@);
        if in_array {
            let chars = text::chars_of(line);
            assert(chars@.subrange(0, chars@.len() as int) =~= chars@);
            let (items, closed) = scan_array(&chars, 0);
            count = count.saturating_add(items);
            in_array = !closed;
        } else if text::starts_with_char(line, '[') {
            section = find_section(line);
        } else if section == Section::Named {
            if text::starts_with_char(line, '"') || text::starts_with_char(line, '\'') || (
            text::contains_char(line, '=') && !text::starts_with_char(line, '#')) {
                count = count.saturating_add(1);
            }
        } else {
            match open_array(section, line) {
                Some(chars) => {
                    assert(chars@.subrange(0, chars@.len() as int) =~= chars@);
                    let (items, closed) = scan_array(&chars, 0);
                    count = count.saturating_add(items);
                    in_array = !closed;
                },
                None => {},
            }
        }
        i += 1;
    }
    assert(all.take(all.len() as int) =~= all);
    count
}

// ---------------------------------------------------------------------------
// All manifests
// ---------------------------------------------------------------------------

/// A manifest's file name, its manager's label, and the directory beside it
/// that holds the dependencies; an empty name where there is none.
pub open spec fn manifest_at(i: int) -> (Seq<char>, Seq<char>, Seq<char>) {
    if i == 0 {
        ("package.json"@, "npm/bun/yarn"@, "node_modules"@)
    } else if i == 1 {
        ("Cargo.toml"@, "cargo"@, "target"@)
    } else if i == 2 {
        ("requirements.txt"@, "pip"@, ".venv"@)
    } else if i == 3 {
        ("pyproject.toml"@, "pip/uv"@, ".venv"@)
    } else if i == 4 {
        ("go.mod"@, "go"@, ""@)
    } else if i == 5 {
        ("Gemfile"@, "bundler"@, "vendor/bundle"@)
    } else {
        ("composer.json"@, "composer"@, "vendor"@)
    }
}

/// How many kinds of manifests there are.
pub const MANIFESTS: usize = 7;

fn manifest(i: usize) -> (r: (&'static str, &'static str, &'static str))
    ensures
        (r.0@, r.1@, r.2@) == manifest_at(i as int),
{
    if i == 0 {
        ("package.json", "npm/bun/yarn", "node_modules")
    } else if i == 1 {
        ("Cargo.toml", "cargo", "target")
    } else if i == 2 {
        ("requirements.txt", "pip", ".venv")
    } else if i == 3 {
        ("pyproject.toml", "pip/uv", ".venv")
    } else if i == 4 {
        ("go.mod", "go", "")
    } else if i == 5 {
        ("Gemfile", "bundler", "vendor/bundle")
    } else {
        ("composer.json", "composer", "vendor")
    }
}

/// The dependencies that a manifest of that name lists.
pub open spec fn deps_in(manifest: Seq<char>, content: Seq<char>) -> usize {
    if manifest == "package.json"@ {
        capped_len(json_count(content, "dependencies"@, "devDependencies"@))
    } else if manifest == "Cargo.toml"@ {
        capped_len(cargo_deps(text::trimmed_lines(content)).0)
    } else if manifest == "requirements.txt"@ {
        capped_len(
            text::trimmed_lines(content).filter(|line: Seq<char>| is_requirement(line)).len(),
        )
    } else if manifest == "pyproject.toml"@ {
        capped_len(py_state(text::trimmed_lines(content)).count)
    } else if manifest == "go.mod"@ {
        capped_len(go_deps(text::trimmed_lines(content)).0)
    } else if manifest == "Gemfile"@ {
        capped_len(text::trimmed_lines(content).filter(|line: Seq<char>| is_gem(line)).len())
    } else if manifest == "composer.json"@ {
        capped_len(json_count(content, "require"@, "require-dev"@))
    } else {
        0
    }
}

/// How many dependencies a manifest lists; none where it cannot be read.
pub fn count_manifest_deps(manifest: &str, content: Option<&str>) -> (r: usize)
    ensures
        r == match content {
            Some(c) => deps_in(manifest@, c@),
            None => 0,
        },
{
    match content {
        Some(c) => {
            if text::same_text(manifest, "package.json") {
                count_package_json_deps(c)
            } else if text::same_text(manifest, "Cargo.toml") {
                count_cargo_toml_deps(c)
            } else if text::same_text(manifest, "requirements.txt") {
                count_requirements_deps(c)
            } else if text::same_text(manifest, "pyproject.toml") {
                count_pyproject_deps(c)
            } else if text::same_text(manifest, "go.mod") {
                count_go_mod_deps(c)
            } else if text::same_text(manifest, "Gemfile") {
                count_gemfile_deps(c)
            } else if text::same_text(manifest, "composer.json") {
                count_composer_deps(c)
            } else {
                0
            }
        },
        None => 0,
    }
}

// ---------------------------------------------------------------------------
// Project directories
// ---------------------------------------------------------------------------

/// What an entry of a directory is.
#[derive(Clone, Copy, Debug, PartialEq, Eq, Structural)]
pub enum EntryType {
    File,
    Directory,
    Other,
}

/// An entry of a directory.
#[derive(Debug)]
pub struct NamedEntry {
    pub name: String,
    pub kind: EntryType,
}

#[verifier::ext_equal]
pub struct NamedModel {
    pub name: Seq<char>,
    pub kind: EntryType,
}

impl View for NamedEntry {
    type V = NamedModel;

    open spec fn view(&self) -> NamedModel {
        NamedModel { name: self.name@, kind: self.kind }
    }
}

/// The manifests of a directory that share a dependency directory.
#[derive(Debug)]
pub struct ProjectManifestGroup {
    pub deps_path: Option<String>,
    pub manager_labels: Vec<String>,
    pub manifests: Vec<String>,
}

#[verifier::ext_equal]
pub struct GroupModel {
    pub deps_path: Option<Seq<char>>,
    pub manager_labels: Seq<Seq<char>>,
    pub manifests: Seq<Seq<char>>,
}

impl View for ProjectManifestGroup {
    type V = GroupModel;

    open spec fn view(&self) -> GroupModel {
        GroupModel {
            deps_path: packages::opt_text(self.deps_path),
            manager_labels: text::texts(self.manager_labels@),
            manifests: text::texts(self.manifests@),
        }
    }
}

/// The group with one more manifest; a label is listed once.
pub open spec fn with_manifest(group: GroupModel, label: Seq<char>, manifest: Seq<char>) -> GroupModel {
    GroupModel {
        manager_labels: if group.manager_labels.contains(label) {
            group.manager_labels
        } else {
            group.manager_labels.push(label)
        },
        manifests: group.manifests.push(manifest),
        ..group
    }
}

impl ProjectManifestGroup {
    pub fn new(deps_path: Option<String>, manager_label: &str, manifest: &str) -> (r:
        ProjectManifestGroup)
        ensures
            r@ == (GroupModel {
                deps_path: packages::opt_text(deps_path),
                manager_labels: seq![manager_label@],
                manifests: seq![manifest@],
            }),
    {
        let mut manager_labels: Vec<String> = Vec::new();
        manager_labels.push(manager_label.to_owned());
        let mut manifests: Vec<String> = Vec::new();
        manifests.push(manifest.to_owned());
        let r = ProjectManifestGroup { deps_path, manager_labels, manifests };
        assert(r@.manager_labels =~= seq![manager_label@]);
        assert(r@.manifests =~= seq![manifest@]);
        r
    }

    pub fn add(&mut self, manager_label: &str, manifest: &str)
        ensures
            final(self)@ == with_manifest(old(self)@, manager_label@, manifest@),
    {
        if !text::list_has(&self.manager_labels, manager_label) {
            let label = manager_label.to_owned();
            proof {
                text::texts_push(self.manager_labels@, label);
            }
            self.manager_labels.push(label);
        }
        let name = manifest.to_owned();
        proof {
            text::texts_push(self.manifests@, name);
        }
        self.manifests.push(name);
    }
}

/// The directory holds a file of that name.
pub open spec fn has_file(entries: Seq<NamedModel>, name: Seq<char>) -> bool {
    exists|i: int|
        0 <= i < entries.len() && (#[trigger] entries[i]).name == name && entries[i].kind
            == EntryType::File
}

fn holds_file(entries: &Vec<NamedEntry>, name: &str) -> (r: bool)
    ensures
        r == has_file(sorting::views(entries@), name@),
{
    let ghost all = sorting::views(entries@);
    let mut i: usize = 0;
    while i < entries.len()
        invariant
            i <= entries@.len(),
            all == sorting::views(entries@),
            forall|k: int|
                0 <= k < i ==> !((#[trigger] all[k]).name == name@ && all[k].kind
                    == EntryType::File),
        decreases entries@.len() - i,
    {
        assert(all[i as int] == entries@[i as int]@);
        if entries[i].kind == EntryType::File && text::same_text(entries[i].name.as_str(), name) {
            return true;
        }
        i += 1;
    }
    false
}

/// The place of the group with that dependency directory.
pub open spec fn group_place(groups: Seq<GroupModel>, deps_path: Option<Seq<char>>) -> nat
    decreases groups.len(),
{
    if groups.len() == 0 {
        0
    } else if groups[0].deps_path == deps_path {
        0
    } else {
        1 + group_place(groups.subrange(1, groups.len() as int), deps_path)
    }
}

/// The groups with one more manifest, put to those with its dependency
/// directory.
pub open spec fn with_grouped(
    groups: Seq<GroupModel>,
    deps_path: Option<Seq<char>>,
    label: Seq<char>,
    manifest: Seq<char>,
) -> Seq<GroupModel> {
    let at = group_place(groups, deps_path);
    if at < groups.len() {
        groups.update(at as int, with_manifest(groups[at as int], label, manifest))
    } else {
        groups.push(
            GroupModel { deps_path, manager_labels: seq![label], manifests: seq![manifest] },
        )
    }
}

/// Where the dependencies of a manifest in a directory are.
pub open spec fn deps_place(dir: Seq<char>, name: Seq<char>) -> Option<Seq<char>> {
    if name.len() == 0 {
        None
    } else {
        Some(paths::join_text(dir, name))
    }
}

/// The groups of the first `count` kinds of manifests that a directory holds.
pub open spec fn groups_in(dir: Seq<char>, entries: Seq<NamedModel>, count: nat) -> Seq<GroupModel>
    decreases count,
{
    if count == 0 {
        Seq::empty()
    } else {
        let before = groups_in(dir, entries, (count - 1) as nat);
        let (manifest, label, deps) = manifest_at(count - 1);
        if has_file(entries, manifest) {
            with_grouped(before, deps_place(dir, deps), label, manifest)
        } else {
            before
        }
    }
}

fn same_place(a: &Option<String>, b: &Option<String>) -> (r: bool)
    ensures
        r == (packages::opt_text(*a) == packages::opt_text(*b)),
{
    match (a, b) {
        (Some(x), Some(y)) => text::same_text(x.as_str(), y.as_str()),
        (None, None) => true,
        _ => false,
    }
}

proof fn group_place_skips(groups: Seq<GroupModel>, deps_path: Option<Seq<char>>, i: nat)
    requires
        i <= groups.len(),
        forall|k: int| 0 <= k < i ==> (#[trigger] groups[k]).deps_path != deps_path,
    ensures
        group_place(groups, deps_path) == i + group_place(
            groups.subrange(i as int, groups.len() as int),
            deps_path,
        ),
    decreases i,
{
    if i == 0 {
        assert(groups.subrange(0, groups.len() as int) =~= groups);
    } else {
        group_place_skips(groups, deps_path, (i - 1) as nat);
        let here = groups.subrange(i - 1, groups.len() as int);
        assert(here[0] == groups[i - 1]);
        assert(here.subrange(1, here.len() as int) =~= groups.subrange(
            i as int,
            groups.len() as int,
        ));
    }
}

fn put_in_group(
    groups: &mut Vec<ProjectManifestGroup>,
    deps_path: Option<String>,
    label: &str,
    manifest: &str,
)
    ensures
        sorting::views(final(groups)@) == with_grouped(
            sorting::views(old(groups)@),
            packages::opt_text(deps_path),
            label@,
            manifest@,
        ),
{
    let ghost all = sorting::views(groups@);
    let ghost wanted = packages::opt_text(deps_path);
    let n: usize = groups.len();
    let mut i: usize = 0;
    while i < n
        invariant
            i <= n,
            n == groups@.len(),
            groups@ == old(groups)@,
            all == sorting::views(groups@),
            wanted == packages::opt_text(deps_path),
            forall|k: int| 0 <= k < i ==> (#[trigger] all[k]).deps_path != wanted,
        decreases n - i,
    {
        assert(all[i as int] == groups@[i as int]@);
        if same_place(&groups[i].deps_path, &deps_path) {
            proof {
                group_place_skips(all, wanted, i as nat);
                assert(all.subrange(i as int, all.len() as int)[0] == all[i as int]);
            }
            let mut group = groups.remove(i);
            group.add(label, manifest);
            groups.insert(i, group);
            assert(sorting::views(groups@) =~= all.update(
                i as int,
                with_manifest(all[i as int], label@, manifest@),
            ));
            return ;
        }
        i += 1;
    }
    proof {
        group_place_skips(all, wanted, n as nat);
        assert(all.subrange(n as int, all.len() as int) =~= Seq::<GroupModel>::empty());
    }
    let group = ProjectManifestGroup::new(deps_path, label, manifest);
    proof {
        sorting::views_push(groups@, group);
    }
    groups.push(group);
}

/// The manifests of a directory, in groups that share a dependency directory.
pub fn manifest_groups(dir: &str, entries: &Vec<NamedEntry>) -> (r: Vec<ProjectManifestGroup>)
    ensures
        sorting::views(r@) == groups_in(dir@, sorting::views(entries@), MANIFESTS as nat),
{
    let mut r: Vec<ProjectManifestGroup> = Vec::new();
    let mut i: usize = 0;
    assert(sorting::views(r@) =~= Seq::<GroupModel>::empty());
    while i < MANIFESTS
        invariant
            i <= MANIFESTS,
            sorting::views(r@) == groups_in(dir@, sorting::views(entries@), i as nat),
        decreases MANIFESTS - i,
    {
        let (name, label, deps) = manifest(i);
        if holds_file(entries, name) {
            let deps_path = if deps.is_empty() {
                None
            } else {
                Some(paths::path_join(dir, deps))
            };
            put_in_group(&mut r, deps_path, label, name);
        }
        i += 1;
    }
    r
}

/// A directory in which projects may lie.
pub open spec fn holds_projects(name: Seq<char>) -> bool {
    !starts(name, '.') && name != "node_modules"@ && name != "target"@ && name != "vendor"@
}

/// How deep projects are looked for.
pub const PROJECT_DEPTH: usize = 5;

/// A directory that is still to be looked at, and how deep it lies.
#[derive(Debug)]
pub struct PendingProject {
    pub dir: String,
    pub depth: usize,
}

impl View for PendingProject {
    type V = (Seq<char>, nat);

    open spec fn view(&self) -> (Seq<char>, nat) {
        (self.dir@, self.depth as nat)
    }
}

/// The directories to look at below a directory.
pub open spec fn below(dir: Seq<char>, depth: nat, entries: Seq<NamedModel>) -> Seq<
    (Seq<char>, nat),
>
    decreases entries.len(),
{
    if entries.len() == 0 {
        Seq::empty()
    } else {
        let before = below(dir, depth, entries.drop_last());
        let entry = entries.last();
        if entry.kind == EntryType::Directory && holds_projects(entry.name) {
            before.push((paths::join_text(dir, entry.name), depth + 1))
        } else {
            before
        }
    }
}

/// The directories to look at below a directory; none at the greatest depth.
pub fn project_children(
    dir: &str,
    depth: usize,
    max_depth: usize,
    entries: &Vec<NamedEntry>,
) -> (r: Vec<PendingProject>)
    ensures
        sorting::views(r@) == if depth < max_depth {
            below(dir@, depth as nat, sorting::views(entries@))
        } else {
            Seq::empty()
        },
{
    let mut r: Vec<PendingProject> = Vec::new();
    assert(sorting::views(r@) =~= Seq::<(Seq<char>, nat)>::empty());
    if depth >= max_depth {
        return r;
    }
    let ghost all = sorting::views(entries@);
    let mut i: usize = 0;
    assert(all.take(0) =~= Seq::<NamedModel>::empty());
    while i < entries.len()
        invariant
            i <= entries@.len(),
            depth < max_depth,
            all == sorting::views(entries@),
            sorting::views(r@) == below(dir@, depth as nat, all.take(i as int)),
        decreases entries@.len() - i,
    {
        let entry = &entries[i];
        assert(all.take(i + 1).drop_last() =~= all.take(i as int));
        assert(all.take(i + 1).last() == entry@);
        let name = entry.name.as_str();
        if entry.kind == EntryType::Directory && !text::starts_with_char(name, '.')
            && !text::same_text(name, "node_modules") && !text::same_text(name, "target")
            && !text::same_text(name, "vendor") {
            let child = PendingProject { dir: paths::path_join(dir, name), depth: depth + 1 };
            proof {
                sorting::views_push(r@, child);
            }
            r.push(child);
        }
        i += 1;
    }
    assert(all.take(all.len() as int) =~= all);
    r
}

// ---------------------------------------------------------------------------
// Reports
// ---------------------------------------------------------------------------

/// The dependencies of a project.
#[derive(Debug)]
pub struct ProjectDeps {
    pub path: String,
    pub manager_label: String,
    pub manifest: String,
    pub dep_count: usize,
    pub deps_size: Option<bulkstat::SizeInfo>,
    pub deps_dir: Option<String>,
}

#[verifier::ext_equal]
pub struct ProjectModel {
    pub path: Seq<char>,
    pub manager_label: Seq<char>,
    pub manifest: Seq<char>,
    pub dep_count: usize,
    pub deps_size: Option<bulkstat::SizeInfo>,
    pub deps_dir: Option<Seq<char>>,
}

impl View for ProjectDeps {
    type V = ProjectModel;

    open spec fn view(&self) -> ProjectModel {
        ProjectModel {
            path: self.path@,
            manager_label: self.manager_label@,
            manifest: self.manifest@,
            dep_count: self.dep_count,
            deps_size: self.deps_size,
            deps_dir: packages::opt_text(self.deps_dir),
        }
    }
}

impl Clone for ProjectDeps {
    fn clone(&self) -> (r: ProjectDeps)
        ensures
            r@ == self@,
    {
        ProjectDeps {
            path: self.path.clone(),
            manager_label: self.manager_label.clone(),
            manifest: self.manifest.clone(),
            dep_count: self.dep_count,
            deps_size: self.deps_size,
            deps_dir: packages::copy_opt_text(&self.deps_dir),
        }
    }
}

/// Counts added up.
pub open spec fn counts_total(counts: Seq<usize>) -> nat
    decreases counts.len(),
{
    if counts.len() == 0 {
        0
    } else {
        counts_total(counts.drop_last()) + counts.last() as nat
    }
}

/// The report on a group of manifests: what each of them lists, and the size of
/// their dependency directory where there is one.
pub fn project_deps(
    dir: &str,
    group: &ProjectManifestGroup,
    counts: &Vec<usize>,
    deps_size: Option<bulkstat::SizeInfo>,
) -> (r: ProjectDeps)
    ensures
        r@ == (ProjectModel {
            path: dir@,
            manager_label: text::joined(group@.manager_labels, ", "@),
            manifest: text::joined(group@.manifests, ", "@),
            dep_count: capped_len(counts_total(counts@)),
            deps_size: if group@.deps_path is Some {
                deps_size
            } else {
                None
            },
            deps_dir: if deps_size is Some {
                group@.deps_path
            } else {
                None
            },
        }),
{
    let mut dep_count: usize = 0;
    let mut i: usize = 0;
    assert(counts@.take(0) =~= Seq::<usize>::empty());
    while i < counts.len()
        invariant
            i <= counts@.len(),
            dep_count == capped_len(counts_total(counts@.take(i as int))),
        decreases counts@.len() - i,
    {
        assert(counts@.take(i + 1).drop_last() =~= counts@.take(i as int));
        dep_count = dep_count.saturating_add(counts[i]);
        i += 1;
    }
    assert(counts@.take(counts@.len() as int) =~= counts@);
    let (size, place) = match (&group.deps_path, deps_size) {
        (Some(path), Some(size)) => (Some(size), Some(path.clone())),
        _ => (None, None),
    };
    ProjectDeps {
        path: dir.to_owned(),
        manager_label: text::join_texts(&group.manager_labels, ", "),
        manifest: text::join_texts(&group.manifests, ", "),
        dep_count,
        deps_size: size,
        deps_dir: place,
    }
}

/// The room that the dependencies take.
pub open spec fn allocated_of(p: ProjectModel) -> u64 {
    match p.deps_size {
        Some(size) => size.allocated,
        None => 0,
    }
}

/// Largest first, then by path, then by manifest.
pub struct LargestProject {}

impl sorting::Order<ProjectModel> for LargestProject {
    open spec fn before(&self, a: ProjectModel, b: ProjectModel) -> bool {
        let (pa, pb) = (paths::path_of(a.path), paths::path_of(b.path));
        allocated_of(a) > allocated_of(b) || (allocated_of(a) == allocated_of(b) && (
        paths::path_less(pa, pb) || (pa == pb && text::text_less(a.manifest, b.manifest))))
    }

    proof fn is_order(&self, a: ProjectModel, b: ProjectModel, c: ProjectModel) {
        let (pa, pb, pc) = (
            paths::path_of(a.path),
            paths::path_of(b.path),
            paths::path_of(c.path),
        );
        paths::path_order_total(pa, pb);
        if paths::path_less(pc, pa) && paths::path_less(pa, pb) {
            paths::path_order_transitive(pc, pa, pb);
        }
        if paths::path_less(pb, pc) && paths::path_less(pc, pa) {
            paths::path_order_transitive(pb, pc, pa);
        }
        text::text_order_weak(a.manifest, b.manifest, c.manifest);
    }
}

fn allocated(p: &ProjectDeps) -> (r: u64)
    ensures
        r == allocated_of(p@),
{
    match p.deps_size {
        Some(size) => size.allocated,
        None => 0,
    }
}

impl sorting::Arranged<ProjectDeps> for LargestProject {
    fn goes_before(&self, a: &ProjectDeps, b: &ProjectDeps) -> (r: bool) {
        let x: u64 = allocated(a);
        let y: u64 = allocated(b);
        if x != y {
            return x > y;
        }
        if paths::path_is_less(a.path.as_str(), b.path.as_str()) {
            return true;
        }
        paths::path_equals(a.path.as_str(), b.path.as_str()) && text::text_is_less(
            a.manifest.as_str(),
            b.manifest.as_str(),
        )
    }
}

/// What was found in all directories, in the order of the report.
pub fn find_project_deps(found: Vec<ProjectDeps>) -> (r: Vec<ProjectDeps>)
    ensures
        sorting::views(r@) == sorting::arranged(&LargestProject {  }, sorting::views(found@)),
{
    let order = LargestProject {  };
    sorting::arrange(&order, found)
}

/// A group is found where there is one.
proof fn group_is_found(groups: Seq<GroupModel>, deps_path: Option<Seq<char>>)
    ensures
        group_place(groups, deps_path) <= groups.len(),
        forall|k: int|
            0 <= k < group_place(groups, deps_path) ==> (#[trigger] groups[k]).deps_path
                != deps_path,
        group_place(groups, deps_path) < groups.len() ==> groups[group_place(
            groups,
            deps_path,
        ) as int].deps_path == deps_path,
    decreases groups.len(),
{
    if groups.len() > 0 && groups[0].deps_path != deps_path {
        let tail = groups.subrange(1, groups.len() as int);
        group_is_found(tail, deps_path);
        assert forall|k: int| 0 <= k < group_place(groups, deps_path) implies (
        #[trigger] groups[k]).deps_path != deps_path by {
            if k > 0 {
                assert(tail[k - 1] == groups[k]);
            }
        }
    }
}

/// Manifests with one dependency directory share one group, so that directory is
/// counted once.
pub proof fn dependency_directories_count_once(
    dir: Seq<char>,
    entries: Seq<NamedModel>,
    count: nat,
)
    ensures
        forall|i: int, j: int|
            0 <= i < j < groups_in(dir, entries, count).len() ==> (#[trigger] groups_in(
                dir,
                entries,
                count,
            )[i]).deps_path != (#[trigger] groups_in(dir, entries, count)[j]).deps_path,
    decreases count,
{
    if count > 0 {
        let before = groups_in(dir, entries, (count - 1) as nat);
        dependency_directories_count_once(dir, entries, (count - 1) as nat);
        let (manifest, label, deps) = manifest_at(count - 1);
        if has_file(entries, manifest) {
            group_is_found(before, deps_place(dir, deps));
        }
    }
}

/// Every manifest that a directory holds is in one of its groups.
pub proof fn every_manifest_is_grouped(
    dir: Seq<char>,
    entries: Seq<NamedModel>,
    count: nat,
    kind: int,
)
    requires
        0 <= kind < count,
        has_file(entries, manifest_at(kind).0),
    ensures
        exists|i: int|
            0 <= i < groups_in(dir, entries, count).len() && (#[trigger] groups_in(
                dir,
                entries,
                count,
            )[i]).manifests.contains(manifest_at(kind).0),
    decreases count,
{
    let groups = groups_in(dir, entries, count);
    let before = groups_in(dir, entries, (count - 1) as nat);
    let (manifest, label, deps) = manifest_at(count - 1);
    let at = group_place(before, deps_place(dir, deps)) as int;
    group_is_found(before, deps_place(dir, deps));
    if kind == count - 1 {
        let list = groups[at].manifests;
        assert(list[list.len() - 1] == manifest);
        assert(groups[at].manifests.contains(manifest));
    } else {
        every_manifest_is_grouped(dir, entries, (count - 1) as nat, kind);
        let wanted = manifest_at(kind).0;
        let i = choose|i: int|
            0 <= i < before.len() && (#[trigger] before[i]).manifests.contains(wanted);
        let k = choose|k: int| 0 <= k < before[i].manifests.len() && before[i].manifests[k] == wanted;
        assert(groups[i].manifests[k] == wanted);
        assert(groups[i].manifests.contains(wanted));
    }
}

/// The search for projects as one that goes down.
pub open spec fn project_descent(root: Seq<char>, max_depth: nat) -> descent::Descent {
    descent::Descent { root, max_depth, enters: |name: Seq<char>| holds_projects(name) }
}

/// The names of the directories among the entries.
pub open spec fn directory_names(entries: Seq<NamedModel>) -> Seq<Seq<char>>
    decreases entries.len(),
{
    if entries.len() == 0 {
        Seq::empty()
    } else {
        let before = directory_names(entries.drop_last());
        if entries.last().kind == EntryType::Directory {
            before.push(entries.last().name)
        } else {
            before
        }
    }
}

/// A step of the search for projects, on whichever thread.
pub enum ProjectEvent {
    /// A directory was asked for.
    Next,
    /// The directories below one were put into the queue.
    Looked { dir: (Seq<char>, nat), entries: Seq<NamedModel> },
    /// The work on a directory has ended.
    Done,
}

/// What has happened since a search for projects began.
pub struct ProjectRun {
    pub queue: pool::QueueModel<(Seq<char>, nat)>,
    /// What was handed out and what was looked at.
    pub trace: Seq<descent::DescentEvent>,
}

/// A search for projects after some steps.
pub open spec fn project_run(
    root: Seq<char>,
    max_depth: nat,
    events: Seq<ProjectEvent>,
) -> ProjectRun
    decreases events.len(),
{
    if events.len() == 0 {
        ProjectRun {
            queue: pool::QueueModel { items: seq![(root, 0nat)], active: 0 },
            trace: Seq::empty(),
        }
    } else {
        let run = project_run(root, max_depth, events.drop_last());
        match events.last() {
            ProjectEvent::Next => ProjectRun {
                queue: run.queue.after_next(),
                trace: if run.queue.items.len() > 0 {
                    run.trace.push(descent::DescentEvent::Took)
                } else {
                    run.trace
                },
            },
            ProjectEvent::Looked { dir, entries } => ProjectRun {
                queue: pool::QueueModel {
                    items: run.queue.items + if dir.1 < max_depth {
                        below(dir.0, dir.1, entries)
                    } else {
                        Seq::empty()
                    },
                    ..run.queue
                },
                trace: run.trace.push(
                    descent::DescentEvent::Looked { dir, names: directory_names(entries) },
                ),
            },
            ProjectEvent::Done => ProjectRun {
                queue: pool::QueueModel { active: (run.queue.active - 1) as nat, ..run.queue },
                ..run
            },
        }
    }
}

proof fn children_are_entered(
    root: Seq<char>,
    max_depth: nat,
    dir: (Seq<char>, nat),
    entries: Seq<NamedModel>,
)
    ensures
        project_descent(root, max_depth).entered(descent::met_in(dir, directory_names(entries)))
            == if dir.1 < max_depth {
            below(dir.0, dir.1, entries)
        } else {
            Seq::empty()
        },
    decreases entries.len(),
{
    let d = project_descent(root, max_depth);
    let met = descent::met_in(dir, directory_names(entries));
    if entries.len() > 0 {
        children_are_entered(root, max_depth, dir, entries.drop_last());
        if entries.last().kind == EntryType::Directory {
            assert(met.drop_last() =~= descent::met_in(dir, directory_names(entries.drop_last())));
        }
    }
}

/// The queue of a search for projects holds what waits in the search that goes
/// down.
pub proof fn a_project_search_is_a_descent(
    root: Seq<char>,
    max_depth: nat,
    events: Seq<ProjectEvent>,
)
    ensures
        ({
            let run = project_run(root, max_depth, events);
            run.queue.items == descent::search(project_descent(root, max_depth), run.trace).waiting
        }),
    decreases events.len(),
{
    let d = project_descent(root, max_depth);
    if events.len() > 0 {
        a_project_search_is_a_descent(root, max_depth, events.drop_last());
        let before = project_run(root, max_depth, events.drop_last());
        let run = project_run(root, max_depth, events);
        match events.last() {
            ProjectEvent::Next => {
                if before.queue.items.len() > 0 {
                    assert(run.trace.drop_last() =~= before.trace);
                }
            },
            ProjectEvent::Looked { dir, entries } => {
                children_are_entered(root, max_depth, dir, entries);
                assert(run.trace.drop_last() =~= before.trace);
            },
            ProjectEvent::Done => {},
        }
    }
}

/// In whichever order the threads take their steps: a directory that is handed
/// out lies below the root, at most as deep as the search goes, and behind no
/// directory that is hidden or holds dependencies or build results; and no
/// other that is handed out is the same.
pub proof fn a_project_search_keeps_to_its_bounds(
    root: Seq<char>,
    max_depth: nat,
    events: Seq<ProjectEvent>,
    i: int,
)
    requires
        descent::search(
            project_descent(root, max_depth),
            project_run(root, max_depth, events).trace,
        ).possible,
        0 <= i < descent::search(
            project_descent(root, max_depth),
            project_run(root, max_depth, events).trace,
        ).handed.len(),
    ensures
        ({
            let d = project_descent(root, max_depth);
            let handed = descent::search(d, project_run(root, max_depth, events).trace).handed;
            let top = paths::path_of(root);
            &&& handed[i].1 <= max_depth
            &&& exists|trail: Seq<Seq<char>>|
                {
                    &&& trail.len() == handed[i].1
                    &&& #[trigger] descent::lies_at(d, handed[i], trail)
                    &&& paths::path_of(handed[i].0) == (paths::PathModel {
                        parts: top.parts + trail,
                        ..top
                    })
                    &&& forall|k: int|
                        0 <= k < trail.len() ==> holds_projects(#[trigger] trail[k])
                }
            &&& forall|j: int|
                0 <= j < handed.len() && j != i ==> paths::path_of((#[trigger] handed[j]).0)
                    != paths::path_of(handed[i].0)
        }),
{
    let d = project_descent(root, max_depth);
    let trace = project_run(root, max_depth, events).trace;
    let handed = descent::search(d, trace).handed;
    descent::a_search_keeps_to_its_bounds(d, trace, handed[i]);
    let trail = choose|trail: Seq<Seq<char>>| #[trigger] descent::lies_at(d, handed[i], trail);
    assert(descent::lies_at(d, handed[i], trail));
    assert forall|k: int| 0 <= k < trail.len() implies holds_projects(#[trigger] trail[k]) by {
        assert((d.enters)(trail[k]));
    }
    assert forall|j: int| 0 <= j < handed.len() && j != i implies paths::path_of(
        (#[trigger] handed[j]).0,
    ) != paths::path_of(handed[i].0) by {
        if j < i {
            descent::a_search_never_repeats(d, trace, j, i);
        } else {
            descent::a_search_never_repeats(d, trace, i, j);
        }
    }
}

/// In whichever order the threads take their steps: once they are told to stop,
/// every directory that was met and in which projects may lie was handed out
/// once, unless it lies too deep, and no other was.
pub proof fn a_project_search_leaves_nothing_out(
    root: Seq<char>,
    max_depth: nat,
    events: Seq<ProjectEvent>,
    k: int,
)
    requires
        descent::search(
            project_descent(root, max_depth),
            project_run(root, max_depth, events).trace,
        ).possible,
        project_run(root, max_depth, events).queue.next_step() is Stop,
        0 <= k < descent::search(
            project_descent(root, max_depth),
            project_run(root, max_depth, events).trace,
        ).met.len(),
    ensures
        ({
            let search = descent::search(
                project_descent(root, max_depth),
                project_run(root, max_depth, events).trace,
            );
            let m = search.met[k];
            let enters = m.depth < max_depth && holds_projects(m.name);
            &&& enters ==> sums::times(search.handed, (m.path(), m.depth + 1)) == 1
            &&& !enters ==> !search.handed.contains((m.path(), m.depth + 1))
        }),
{
    a_project_search_is_a_descent(root, max_depth, events);
    descent::met_is_handed_out_or_left_out(
        project_descent(root, max_depth),
        project_run(root, max_depth, events).trace,
        k,
    );
}

/// A line of a `Cargo.toml` that names a dependency: it sets a value, and the
/// nearest header above it opens one of the three tables of dependencies.
pub open spec fn names_cargo_dep(lines: Seq<Seq<char>>, i: int) -> bool {
    &&& lines[i].contains('=')
    &&& !(lines[i].len() > 0 && (lines[i][0] == '[' || lines[i][0] == '#'))
    &&& exists|h: int|
        {
            &&& 0 <= h < i
            &&& #[trigger] lines[h] == "[dependencies]"@ || lines[h] == "[dev-dependencies]"@
                || lines[h] == "[build-dependencies]"@
            &&& forall|k: int| h < k < i ==> !starts(#[trigger] lines[k], '[')
        }
}

/// The last header opens a table of Cargo dependencies.
spec fn in_cargo_table(lines: Seq<Seq<char>>, i: int) -> bool {
    exists|h: int|
        {
            &&& 0 <= h < i
            &&& #[trigger] lines[h] == "[dependencies]"@ || lines[h] == "[dev-dependencies]"@
                || lines[h] == "[build-dependencies]"@
            &&& forall|k: int| h < k < i ==> !starts(#[trigger] lines[k], '[')
        }
}

proof fn cargo_headers_are_headers()
    ensures
        starts("[dependencies]"@, '['),
        starts("[dev-dependencies]"@, '['),
        starts("[build-dependencies]"@, '['),
{
    reveal_strlit("[dependencies]");
    reveal_strlit("[dev-dependencies]");
    reveal_strlit("[build-dependencies]");
}

proof fn cargo_table_goes_on(lines: Seq<Seq<char>>)
    requires
        lines.len() > 0,
    ensures
        in_cargo_table(lines, lines.len() as int) == if starts(lines.last(), '[') {
            lines.last() == "[dependencies]"@ || lines.last() == "[dev-dependencies]"@
                || lines.last() == "[build-dependencies]"@
        } else {
            in_cargo_table(lines.drop_last(), lines.len() - 1)
        },
{
    cargo_headers_are_headers();
    let less = lines.drop_last();
    let n = lines.len() as int;
    assert forall|k: int| 0 <= k < n - 1 implies #[trigger] less[k] == lines[k] by {}
    if starts(lines.last(), '[') {
        assert(lines[n - 1] == lines.last());
    } else {
        if in_cargo_table(less, n - 1) {
            let h = choose|h: int|
                {
                    &&& 0 <= h < n - 1
                    &&& #[trigger] less[h] == "[dependencies]"@ || less[h] == "[dev-dependencies]"@
                        || less[h] == "[build-dependencies]"@
                    &&& forall|k: int| h < k < n - 1 ==> !starts(#[trigger] less[k], '[')
                };
            assert(lines[h] == less[h]);
            assert forall|k: int| h < k < n implies !starts(#[trigger] lines[k], '[') by {
                if k < n - 1 {
                    assert(less[k] == lines[k]);
                }
            }
        }
        if in_cargo_table(lines, n) {
            let h = choose|h: int|
                {
                    &&& 0 <= h < n
                    &&& #[trigger] lines[h] == "[dependencies]"@ || lines[h]
                        == "[dev-dependencies]"@ || lines[h] == "[build-dependencies]"@
                    &&& forall|k: int| h < k < n ==> !starts(#[trigger] lines[k], '[')
                };
            assert(h < n - 1);
            assert(less[h] == lines[h]);
            assert forall|k: int| h < k < n - 1 implies !starts(#[trigger] less[k], '[') by {
                assert(lines[k] == less[k]);
            }
        }
    }
}

/// The dependencies of a `Cargo.toml` are the lines that name one, each counted
/// once.
pub proof fn cargo_deps_are_the_lines_that_name_one(lines: Seq<Seq<char>>)
    ensures
        cargo_deps(lines).0 == sums::places_where(lines.len(), |i: int| names_cargo_dep(lines, i)),
{
    cargo_lines_count(lines);
}

proof fn cargo_lines_count(lines: Seq<Seq<char>>)
    ensures
        cargo_deps(lines).0 == sums::places_where(lines.len(), |i: int| names_cargo_dep(lines, i)),
        cargo_deps(lines).1 == in_cargo_table(lines, lines.len() as int),
    decreases lines.len(),
{
    if lines.len() > 0 {
        let less = lines.drop_last();
        let n = (lines.len() - 1) as nat;
        cargo_lines_count(less);
        cargo_table_goes_on(lines);
        assert forall|i: int| 0 <= i < n implies names_cargo_dep(less, i) == names_cargo_dep(
            lines,
            i,
        ) by {
            earlier_lines_stay(lines, i);
        }
        sums::same_places(n, |i: int| names_cargo_dep(less, i), |i: int| names_cargo_dep(lines, i));
        assert(in_cargo_table(less, n as int) == in_cargo_table(lines, n as int)) by {
            same_table(lines, n as int);
        }
        assert(lines[n as int] == lines.last());
    }
}

proof fn same_table(lines: Seq<Seq<char>>, i: int)
    requires
        0 <= i < lines.len(),
    ensures
        in_cargo_table(lines.drop_last(), i) == in_cargo_table(lines, i),
{
    let less = lines.drop_last();
    assert forall|k: int| 0 <= k < less.len() implies #[trigger] less[k] == lines[k] by {}
    if in_cargo_table(less, i) {
        let h = choose|h: int|
            {
                &&& 0 <= h < i
                &&& #[trigger] less[h] == "[dependencies]"@ || less[h] == "[dev-dependencies]"@
                    || less[h] == "[build-dependencies]"@
                &&& forall|k: int| h < k < i ==> !starts(#[trigger] less[k], '[')
            };
        assert(lines[h] == less[h]);
        assert forall|k: int| h < k < i implies !starts(#[trigger] lines[k], '[') by {
            assert(less[k] == lines[k]);
        }
    }
    if in_cargo_table(lines, i) {
        let h = choose|h: int|
            {
                &&& 0 <= h < i
                &&& #[trigger] lines[h] == "[dependencies]"@ || lines[h] == "[dev-dependencies]"@
                    || lines[h] == "[build-dependencies]"@
                &&& forall|k: int| h < k < i ==> !starts(#[trigger] lines[k], '[')
            };
        assert(lines[h] == less[h]);
        assert forall|k: int| h < k < i implies !starts(#[trigger] less[k], '[') by {
            assert(less[k] == lines[k]);
        }
    }
}

proof fn earlier_lines_stay(lines: Seq<Seq<char>>, i: int)
    requires
        0 <= i < lines.len() - 1,
    ensures
        names_cargo_dep(lines.drop_last(), i) == names_cargo_dep(lines, i),
{
    same_table(lines, i);
    let less = lines.drop_last();
    assert(less[i] == lines[i]);
    assert(names_cargo_dep(less, i) == (less[i].contains('=') && !(less[i].len() > 0 && (less[i][0]
        == '[' || less[i][0] == '#')) && in_cargo_table(less, i)));
    assert(names_cargo_dep(lines, i) == (lines[i].contains('=') && !(lines[i].len() > 0 && (
    lines[i][0] == '[' || lines[i][0] == '#')) && in_cargo_table(lines, i)));
}

/// A line of a `go.mod` stands in a block of requirements: one was opened above
/// it and not closed since.
pub open spec fn in_go_block(lines: Seq<Seq<char>>, i: int) -> bool {
    exists|h: int|
        {
            &&& 0 <= h < i
            &&& #[trigger] text::has_prefix(lines[h], "require ("@)
            &&& forall|k: int| h < k < i ==> #[trigger] lines[k] != ")"@
        }
}

/// A line of a `go.mod` that names requirements: one that is not empty and no
/// comment in a block, and one that requires a module by itself.
pub open spec fn go_deps_in_line(lines: Seq<Seq<char>>, i: int) -> int {
    let line = lines[i];
    if text::has_prefix(line, "require ("@) || line == ")"@ {
        0
    } else {
        (if in_go_block(lines, i) && line.len() > 0 && !text::has_prefix(line, "//"@) {
            1int
        } else {
            0
        }) + (if text::has_prefix(line, "require "@) && !line.contains('(') {
            1int
        } else {
            0
        })
    }
}

/// The dependencies of a `go.mod` are those that its lines name.
pub proof fn go_deps_are_those_of_its_lines(lines: Seq<Seq<char>>)
    ensures
        go_deps(lines).0 == sums::added(
            Seq::new(lines.len(), |i: int| i),
            |i: int| go_deps_in_line(lines, i),
        ),
{
    go_lines_count(lines, lines.len());
    assert(lines.take(lines.len() as int) =~= lines);
}

proof fn go_lines_count(lines: Seq<Seq<char>>, n: nat)
    requires
        n <= lines.len(),
    ensures
        go_deps(lines.take(n as int)).0 == sums::added(
            Seq::new(n, |i: int| i),
            |i: int| go_deps_in_line(lines, i),
        ),
        go_deps(lines.take(n as int)).1 == in_go_block(lines, n as int),
    decreases n,
{
    reveal_strlit("require (");
    reveal_strlit(")");
    let part = lines.take(n as int);
    if n > 0 {
        let m = (n - 1) as nat;
        go_lines_count(lines, m);
        let line = lines[m as int];
        assert(part.drop_last() =~= lines.take(m as int));
        assert(part.last() == line);
        assert(Seq::new(n, |i: int| i).drop_last() =~= Seq::new(m, |i: int| i));
        if in_go_block(lines, m as int) && line != ")"@ {
            let h = choose|h: int|
                {
                    &&& 0 <= h < m
                    &&& #[trigger] text::has_prefix(lines[h], "require ("@)
                    &&& forall|k: int| h < k < m ==> #[trigger] lines[k] != ")"@
                };
            assert(text::has_prefix(lines[h], "require ("@));
        }
        if in_go_block(lines, n as int) {
            let h = choose|h: int|
                {
                    &&& 0 <= h < n
                    &&& #[trigger] text::has_prefix(lines[h], "require ("@)
                    &&& forall|k: int| h < k < n ==> #[trigger] lines[k] != ")"@
                };
            assert(text::has_prefix(lines[h], "require ("@));
            if h < m {
                assert(lines[m as int] != ")"@);
            }
        }
        if text::has_prefix(line, "require ("@) {
            assert(text::has_prefix(lines[m as int], "require ("@));
            assert(line != ")"@);
        }
    }
}

/// The packages of a `requirements.txt` are its lines that are neither empty nor
/// a comment nor an option, and the gems of a `Gemfile` its lines that start
/// with the word, each counted once.
pub proof fn requirements_and_gems_are_lines(lines: Seq<Seq<char>>)
    ensures
        lines.filter(|line: Seq<char>| is_requirement(line)).len() == sums::places_where(
            lines.len(),
            |i: int| lines[i].len() > 0 && lines[i][0] != '#' && lines[i][0] != '-',
        ),
        lines.filter(|line: Seq<char>| is_gem(line)).len() == sums::places_where(
            lines.len(),
            |i: int|
                lines[i].len() >= 4 && lines[i][0] == 'g' && lines[i][1] == 'e' && lines[i][2] == 'm'
                    && lines[i][3] == ' ',
        ),
    decreases lines.len(),
{
    reveal(Seq::filter);
    reveal_strlit("gem ");
    if lines.len() > 0 {
        let less = lines.drop_last();
        requirements_and_gems_are_lines(less);
        sums::same_places(
            less.len(),
            |i: int| less[i].len() > 0 && less[i][0] != '#' && less[i][0] != '-',
            |i: int| lines[i].len() > 0 && lines[i][0] != '#' && lines[i][0] != '-',
        );
        sums::same_places(
            less.len(),
            |i: int|
                less[i].len() >= 4 && less[i][0] == 'g' && less[i][1] == 'e' && less[i][2] == 'm'
                    && less[i][3] == ' ',
            |i: int|
                lines[i].len() >= 4 && lines[i][0] == 'g' && lines[i][1] == 'e' && lines[i][2] == 'm'
                    && lines[i][3] == ' ',
        );
        let line = lines.last();
        if line.len() >= 4 {
            let head = line.subrange(0, 4);
            if head == "gem "@ {
                assert(head[0] == 'g' && head[1] == 'e' && head[2] == 'm' && head[3] == ' ');
            } else if line[0] == 'g' && line[1] == 'e' && line[2] == 'm' && line[3] == ' ' {
                assert(head =~= "gem "@);
            }
        }
    }
}

/// The dependencies of a project are what its manifests list together.
pub proof fn counts_add_up(counts: Seq<usize>)
    ensures
        counts_total(counts) == sums::added(counts, |n: usize| n as int),
    decreases counts.len(),
{
    if counts.len() > 0 {
        counts_add_up(counts.drop_last());
    }
}

/// Projects are reported once each, those whose dependencies take more room
/// first, those without any as taking none, and where these are equal by path
/// and manifest.
pub proof fn the_largest_projects_come_first(found: Seq<ProjectModel>, i: int, j: int)
    requires
        0 <= i < j < sorting::arranged(&LargestProject {  }, found).len(),
    ensures
        sorting::arranged(&LargestProject {  }, found).to_multiset() == found.to_multiset(),
        ({
            let listed = sorting::arranged(&LargestProject {  }, found);
            let (a, b) = (listed[i], listed[j]);
            let x: u64 = match a.deps_size {
                Some(size) => size.allocated,
                None => 0,
            };
            let y: u64 = match b.deps_size {
                Some(size) => size.allocated,
                None => 0,
            };
            let (p, q) = (paths::path_of(a.path), paths::path_of(b.path));
            &&& x >= y
            &&& x == y ==> !paths::path_less(q, p)
            &&& x == y && p == q ==> !text::text_less(b.manifest, a.manifest)
        }),
{
    let order = LargestProject {  };
    sorting::arranged_keeps_items(&order, found);
    sorting::arranged_is_arranged(&order, found);
    let listed = sorting::arranged(&order, found);
    assert(!sorting::Order::before(&order, listed[j], listed[i]));
}

/// The state of a `pyproject.toml` in front of a table: no array is open.
spec fn py_rest(s: PyState, lines: Seq<Seq<char>>) -> PyState
    decreases lines.len(),
{
    if lines.len() == 0 {
        s
    } else {
        with_py_line(py_rest(s, lines.drop_last()), lines.last())
    }
}

proof fn py_in_parts(a: Seq<Seq<char>>, b: Seq<Seq<char>>)
    ensures
        py_state(a + b) == py_rest(py_state(a), b),
    decreases b.len(),
{
    if b.len() == 0 {
        assert(a + b =~= a);
    } else {
        assert((a + b).drop_last() =~= a + b.drop_last());
        py_in_parts(a, b.drop_last());
    }
}

/// A line that sets a value or starts with a quoted name.
pub open spec fn sets_a_value(line: Seq<char>) -> bool {
    line.len() > 0 && (line[0] == '"' || line[0] == '\'') || line.contains('=') && !(line.len() > 0
        && line[0] == '#')
}

/// In a table of a `pyproject.toml` that is named for dependencies, and is none
/// of the two whose arrays list them, every line that sets a value is one; in a
/// table of another name none is, whatever stood before it.
pub proof fn py_tables_count_for_themselves(
    before: Seq<Seq<char>>,
    header: Seq<char>,
    body: Seq<Seq<char>>,
)
    requires
        !py_state(before).in_array,
        header.len() > 0 && header[0] == '[',
        header != "[project]"@ && header != "[project.optional-dependencies]"@,
        forall|i: int| 0 <= i < body.len() ==> !starts(#[trigger] body[i], '['),
    ensures
        text::has_part(header, "dependencies"@) ==> py_state(before.push(header) + body).count
            == py_state(before).count + sums::places_where(
            body.len(),
            |i: int| sets_a_value(body[i]),
        ),
        !text::has_part(header, "dependencies"@) ==> py_state(before.push(header) + body).count
            == py_state(before).count,
        !py_state(before.push(header) + body).in_array,
{
    let start = py_state(before.push(header));
    assert(before.push(header).drop_last() =~= before);
    py_in_parts(before.push(header), body);
    py_body_counts(start, body);
}

proof fn py_body_counts(start: PyState, body: Seq<Seq<char>>)
    requires
        !start.in_array,
        start.section == Section::Named || start.section == Section::Other,
        forall|i: int| 0 <= i < body.len() ==> !starts(#[trigger] body[i], '['),
    ensures
        ({
            let end = py_rest(start, body);
            &&& !end.in_array && end.section == start.section
            &&& end.count == start.count + if start.section == Section::Named {
                sums::places_where(body.len(), |i: int| sets_a_value(body[i]))
            } else {
                0
            }
        }),
    decreases body.len(),
{
    if body.len() > 0 {
        let less = body.drop_last();
        assert forall|i: int| 0 <= i < less.len() implies !starts(#[trigger] less[i], '[') by {
            assert(less[i] == body[i]);
        }
        py_body_counts(start, less);
        sums::same_places(
            less.len(),
            |i: int| sets_a_value(less[i]),
            |i: int| sets_a_value(body[i]),
        );
        assert(body[body.len() - 1] == body.last());
    }
}

/// A manifest in JSON lists as many dependencies as its two objects have members
/// together; what is no object there has none.
pub proof fn members_of_both_objects_count(
    m: Map<Seq<char>, json::Json>,
    a: Seq<char>,
    b: Seq<char>,
)
    ensures
        ({
            let both = two_counts(json::Json::Object(m), a, b);
            let of = |key: Seq<char>|
                if m.contains_key(key) && m[key] is Object {
                    m[key]->Object_0.dom().len() as int
                } else {
                    0
                };
            &&& both == of(a) + of(b)
            &&& both <= usize::MAX ==> capped_len(both) == both
            &&& both > usize::MAX ==> capped_len(both) == usize::MAX
        }),
{
}

/// A group with one more manifest lists it behind the others, and its label
/// among the labels, of which none is lost and none comes twice.
pub proof fn groups_keep_their_labels(
    group: GroupModel,
    label: Seq<char>,
    manifest: Seq<char>,
    other: Seq<char>,
)
    ensures
        ({
            let more = with_manifest(group, label, manifest);
            &&& more.manager_labels.contains(other) <==> group.manager_labels.contains(other)
                || other == label
            &&& group.manager_labels.no_duplicates() ==> more.manager_labels.no_duplicates()
            &&& more.manifests == group.manifests.push(manifest)
            &&& more.deps_path == group.deps_path
        }),
{
    let labels = group.manager_labels;
    let more = labels.push(label);
    assert(more[labels.len() as int] == label);
    if labels.contains(other) {
        let k = choose|k: int| 0 <= k < labels.len() && labels[k] == other;
        assert(more[k] == other);
    }
    if more.contains(other) && other != label {
        let k = choose|k: int| 0 <= k < more.len() && more[k] == other;
        assert(labels[k] == other);
    }
}

/// In an array every quoted item counts once, whatever it holds, and with it
/// what follows; the array ends at its bracket, and a comment ends the line.
pub proof fn quoted_items_count_once(item: Seq<char>, quote: char, rest: Seq<char>, c: char)
    requires
        quote == '"' || quote == '\'',
        !item.contains(quote),
    ensures
        array_items(seq![quote] + item + seq![quote] + rest, None).0 == 1 + array_items(
            rest,
            None,
        ).0,
        array_items(seq![quote] + item + seq![quote] + rest, None).1 == array_items(rest, None).1,
        array_items(seq![']'] + rest, None) == (0nat, true),
        array_items(seq!['#'] + rest, None) == (0nat, false),
        c != '"' && c != '\'' && c != ']' && c != '#' ==> array_items(seq![c] + rest, None)
            == array_items(rest, None),
{
    let s = seq![quote] + item + seq![quote] + rest;
    assert(s[0] == quote);
    assert(s.subrange(1, s.len() as int) =~= item + (seq![quote] + rest));
    item_is_passed(item, quote, rest);
    let t = seq![c] + rest;
    assert(t[0] == c && t.subrange(1, t.len() as int) =~= rest);
    assert((seq![']'] + rest)[0] == ']' && (seq!['#'] + rest)[0] == '#');
}

proof fn item_is_passed(item: Seq<char>, quote: char, rest: Seq<char>)
    requires
        !item.contains(quote),
    ensures
        array_items(item + (seq![quote] + rest), Some(quote)) == array_items(rest, None),
    decreases item.len(),
{
    let s = item + (seq![quote] + rest);
    if item.len() == 0 {
        assert(s =~= seq![quote] + rest);
        assert(s[0] == quote && s.subrange(1, s.len() as int) =~= rest);
    } else {
        let tail = item.subrange(1, item.len() as int);
        assert(item.contains(item[0]));
        assert forall|i: int| 0 <= i < tail.len() implies tail[i] != quote by {
            assert(item.contains(item[i + 1]));
        }
        item_is_passed(tail, quote, rest);
        assert(s[0] == item[0] && s.subrange(1, s.len() as int) =~= tail + (seq![quote] + rest));
    }
}

/// An array of dependencies goes on from line to line until its bracket: each
/// line with a quoted item and a comma counts one more.
pub proof fn arrays_go_on_over_lines(before: Seq<Seq<char>>, names: Seq<Seq<char>>)
    requires
        py_state(before).in_array,
        forall|i: int| 0 <= i < names.len() ==> !(#[trigger] names[i]).contains('"'),
    ensures
        ({
            let lines = names.map_values(|n: Seq<char>| seq!['"'] + n + seq!['"', ',']);
            let inside = py_state(before + lines);
            let after = py_state((before + lines).push(seq![']']));
            &&& inside.count == py_state(before).count + names.len()
            &&& inside.in_array && inside.section == py_state(before).section
            &&& after.count == inside.count && !after.in_array && after.section == inside.section
        }),
    decreases names.len(),
{
    let f = |n: Seq<char>| seq!['"'] + n + seq!['"', ','];
    let lines = names.map_values(f);
    let all = before + lines;
    if names.len() == 0 {
        assert(all =~= before);
    } else {
        let less = names.drop_last();
        let name = names[names.len() - 1];
        assert forall|i: int| 0 <= i < less.len() implies !(#[trigger] less[i]).contains('"') by {
            assert(less[i] == names[i]);
        }
        arrays_go_on_over_lines(before, less);
        assert(all.drop_last() =~= before + less.map_values(f));
        let line = f(name);
        assert(all.last() == line);
        let comma = seq![','];
        let none = Seq::<char>::empty();
        assert(line =~= seq!['"'] + name + seq!['"'] + comma);
        quoted_items_count_once(name, '"', comma, ',');
        quoted_items_count_once(none, '"', none, ',');
        assert(comma =~= comma + none);
        assert(array_items(comma, None) == array_items(none, None));
        assert(array_items(none, None) == (0nat, false));
    }
    let closed = all.push(seq![']']);
    assert(closed.drop_last() =~= all);
    let none = Seq::<char>::empty();
    quoted_items_count_once(none, '"', none, ',');
    assert(seq![']'] =~= seq![']'] + none);
}

/// In the table of the project an array of dependencies counts from the line on
/// that opens it, with what stands behind its bracket there.
pub proof fn arrays_count_from_their_bracket(before: Seq<Seq<char>>, items: Seq<char>)
    requires
        py_state(before).section == Section::Project && !py_state(before).in_array,
        items.len() > 0 ==> !text::is_space(items.last()),
    ensures
        ({
            let after = py_state(before.push("dependencies = ["@ + items));
            &&& after.count == py_state(before).count + array_items(items, None).0
            &&& after.in_array == !array_items(items, None).1
            &&& after.section == Section::Project
        }),
{
    reveal_strlit("dependencies = [");
    reveal_strlit("dependencies");
    let key = "dependencies"@;
    let line = "dependencies = ["@ + items;
    let lines = before.push(line);
    assert(lines.drop_last() =~= before);
    assert(line[0] == 'd' && line[13] == '=' && line[12] == ' ' && line[14] == ' ' && line[15]
        == '[');
    text::the_first_place_is_first(line, '=');
    let at = text::first_place(line, '=') as int;
    assert(at == 13) by {
        assert(line.contains(line[13]));
        if at < 13 {
            assert(line[at] == "dependencies = ["@[at]);
        }
    }
    let value = seq!['['] + items;
    let behind = line.subrange(14, line.len() as int);
    assert(behind.subrange(1, behind.len() as int) =~= value);
    assert(behind[0] == ' ');
    assert(value[0] == '[');
    assert(text::trimmed_start(value) == value);
    assert(text::trimmed_start(behind) == value);
    assert(value.last() == if items.len() > 0 {
        items.last()
    } else {
        '['
    });
    assert(text::trimmed(behind) == value);
    let front = line.subrange(0, 13);
    assert(front =~= key.push(' '));
    assert(front.drop_last() =~= key);
    assert(key[0] == 'd' && key.last() == 's');
    assert(text::trimmed_start(front) == front);
    assert(text::trimmed_end(key) == key);
    assert(text::trimmed(front) == key);
    assert(value.subrange(1, value.len() as int) =~= items);
}

} // verus!
