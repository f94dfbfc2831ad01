//! What the package managers print about installed packages, and what their
//! files on disk say.

use crate::bulkstat;
use crate::json;
use crate::packages;
use crate::paths;
use crate::reclaim;
use crate::sorting;
use crate::sums;
use crate::text;
use vstd::prelude::*;

verus! {

/// A package that a manager lists.
#[derive(Debug)]
pub struct Listed {
    pub name: String,
    pub version: String,
}

#[verifier::ext_equal]
pub struct ListedModel {
    pub name: Seq<char>,
    pub version: Seq<char>,
}

impl View for Listed {
    type V = ListedModel;

    open spec fn view(&self) -> ListedModel {
        ListedModel { name: self.name@, version: self.version@ }
    }
}

/// A text, or an empty one.
pub open spec fn text_or_empty(t: Option<Seq<char>>) -> Seq<char> {
    match t {
        Some(s) => s,
        None => Seq::empty(),
    }
}

fn get_text_or_empty(value: &serde_json::Value, key: &str) -> (r: String)
    ensures
        r@ == text_or_empty(json::text_member(json::json_model(*value), key@)),
{
    match json::get_text(value, key) {
        Some(t) => t.to_owned(),
        None => String::new(),
    }
}

// ---------------------------------------------------------------------------
// npm
// ---------------------------------------------------------------------------

/// The packages in the order of their names, each with its version.
pub open spec fn lists_members(m: Map<Seq<char>, json::Json>, listed: Seq<ListedModel>) -> bool {
    &&& forall|k: Seq<char>| #[trigger]
        m.contains_key(k) <==> exists|i: int|
            0 <= i < listed.len() && (#[trigger] listed[i]).name == k
    &&& forall|i: int, j: int|
        0 <= i < j < listed.len() ==> text::text_less(
            (#[trigger] listed[i]).name,
            (#[trigger] listed[j]).name,
        )
    &&& forall|i: int|
        0 <= i < listed.len() ==> (#[trigger] listed[i]).version == text_or_empty(
            json::text_member(m[listed[i].name], "version"@),
        )
}

/// The packages that `npm list` gave, where its output was parsed to `value`.
pub fn npm_packages(value: &serde_json::Value) -> (r: Vec<Listed>)
    ensures
        match json::member(json::json_model(*value), "dependencies"@) {
            Some(json::Json::Object(m)) => lists_members(m, sorting::views(r@)),
            _ => r@.len() == 0,
        },
{
    let mut r: Vec<Listed> = Vec::new();
    let deps = match json::get(value, "dependencies") {
        Some(deps) => deps,
        None => {
            return r;
        },
    };
    let names = match json::keys(deps) {
        Some(names) => names,
        None => {
            return r;
        },
    };
    let ghost m = json::json_model(*deps)->Object_0;
    let mut i: usize = 0;
    while i < names.len()
        invariant
            i <= names@.len(),
            r@.len() == i,
            json::json_model(*deps) == json::Json::Object(m),
            text::texts(names@).to_set() == m.dom(),
            forall|k: int| 0 <= k < i ==> (#[trigger] r@[k])@.name == names@[k]@,
            forall|k: int|
                0 <= k < i ==> (#[trigger] r@[k])@.version == text_or_empty(
                    json::text_member(m[names@[k]@], "version"@),
                ),
        decreases names@.len() - i,
    {
        let name = names[i].as_str();
        assert(text::texts(names@)[i as int] == name@);
        assert(text::texts(names@).to_set().contains(name@));
        assert(m.contains_key(name@));
        let version = match json::get(deps, name) {
            Some(info) => get_text_or_empty(info, "version"),
            None => String::new(),
        };
        r.push(Listed { name: name.to_owned(), version });
        i += 1;
    }
    proof {
        let all = sorting::views(r@);
        assert forall|k: Seq<char>| #[trigger] m.contains_key(k) <==> exists|i: int|
            0 <= i < all.len() && (#[trigger] all[i]).name == k by {
            if m.contains_key(k) {
                assert(text::texts(names@).to_set().contains(k));
                assert(text::texts(names@).contains(k));
                let j = choose|j: int| 0 <= j < names@.len() && text::texts(names@)[j] == k;
                assert(all[j] == r@[j]@);
            }
            if exists|i: int| 0 <= i < all.len() && (#[trigger] all[i]).name == k {
                let j = choose|j: int| 0 <= j < all.len() && (#[trigger] all[j]).name == k;
                assert(all[j] == r@[j]@);
                assert(text::texts(names@)[j] == k);
                assert(text::texts(names@).to_set().contains(k));
            }
        }
        assert forall|i: int, j: int| 0 <= i < j < all.len() implies text::text_less(
            (#[trigger] all[i]).name,
            (#[trigger] all[j]).name,
        ) by {
            assert(all[i] == r@[i]@ && all[j] == r@[j]@);
        }
    }
    r
}

/// The packages that `npm list` gave.
pub fn parse_npm_list(output: &str) -> (r: Vec<Listed>)
    ensures
        match json::json_parsed(output@) {
            Some(value) => match json::member(value, "dependencies"@) {
                Some(json::Json::Object(m)) => lists_members(m, sorting::views(r@)),
                _ => r@.len() == 0,
            },
            None => r@.len() == 0,
        },
{
    match json::parse(output) {
        Some(value) => npm_packages(&value),
        None => Vec::new(),
    }
}

/// Where npm keeps global packages: where it says itself, else in the only
/// version of nvm, else in the only version of fnm, else in the known place.
pub fn find_npm_global_root(
    active: &str,
    nvm: Option<String>,
    fnm: Option<String>,
    known: Option<String>,
) -> (r: Option<String>)
    ensures
        packages::opt_text(r) == if text::trimmed(active@).len() > 0 {
            Some(text::trimmed(active@))
        } else if nvm is Some {
            packages::opt_text(nvm)
        } else if fnm is Some {
            packages::opt_text(fnm)
        } else {
            packages::opt_text(known)
        },
{
    let shown = text::trim_text(active);
    if !shown.as_str().is_empty() {
        return Some(shown);
    }
    if nvm.is_some() {
        return nvm;
    }
    if fnm.is_some() {
        return fnm;
    }
    known
}

/// The one directory of several versions, none where there are two.
pub fn single_version_node_modules_root(mut roots: Vec<String>) -> (r: Option<String>)
    ensures
        packages::opt_text(r) == if roots@.len() == 1 {
            Some(roots@[0]@)
        } else {
            None
        },
{
    if roots.len() == 1 {
        roots.pop()
    } else {
        None
    }
}

/// A package in a directory of packages: its place and its size where it is
/// there.
pub open spec fn located(p: ListedModel, root: Option<Seq<char>>, size: Option<bulkstat::SizeInfo>) -> packages::PackageModel {
    packages::PackageModel {
        name: p.name,
        version: p.version,
        size: if root is Some {
            size
        } else {
            None
        },
        path: if root is Some && size is Some {
            Some(paths::join_text(root->0, p.name))
        } else {
            None
        },
        metadata_path: None,
    }
}

/// A package of npm or bun under the root of its manager. The size is that of
/// the package's directory, none where there is no such directory.
pub fn locate(p: &Listed, root: &Option<String>, size: Option<bulkstat::SizeInfo>) -> (r:
    packages::Package)
    ensures
        r@ == located(p@, packages::opt_text(*root), size),
{
    let (size, path) = match (root, size) {
        (Some(dir), Some(size)) => (
            Some(size),
            Some(paths::path_join(dir.as_str(), p.name.as_str())),
        ),
        _ => (None, None),
    };
    packages::Package {
        name: p.name.clone(),
        version: p.version.clone(),
        size,
        path,
        metadata_path: None,
    }
}

// ---------------------------------------------------------------------------
// bun
// ---------------------------------------------------------------------------

/// Whether a character is a letter or a digit: what `char::is_alphanumeric`
/// makes of it.
pub uninterp spec fn alphanumeric(c: char) -> bool;

/// `char::is_alphanumeric`: a function of the character.
#[verifier::external_body]
fn is_alphanumeric(c: char) -> (r: bool)
    ensures
        r == alphanumeric(c),
{
    c.is_alphanumeric()
}

/// The text without the characters in front that are no part of a name.
pub open spec fn without_tree(s: Seq<char>) -> Seq<char>
    decreases s.len(),
{
    if s.len() > 0 && !alphanumeric(s[0]) && s[0] != '@' {
        without_tree(s.subrange(1, s.len() as int))
    } else {
        s
    }
}

/// The place of the last such character, or the length.
pub open spec fn last_place(s: Seq<char>, c: char) -> nat
    decreases s.len(),
{
    if s.len() == 0 {
        0
    } else if s.last() == c {
        (s.len() - 1) as nat
    } else {
        let at = last_place(s.drop_last(), c);
        if at < s.len() - 1 {
            at
        } else {
            s.len()
        }
    }
}

/// The package that a trimmed line of `bun pm ls` names: a name, an `@` and a
/// version, behind the characters that draw the tree.
pub open spec fn bun_entry(line: Seq<char>) -> Option<ListedModel> {
    if !line.contains('@') {
        None
    } else {
        let shown = without_tree(line);
        let at = last_place(shown, '@');
        if at == 0 {
            None
        } else if at < shown.len() {
            Some(
                ListedModel {
                    name: shown.subrange(0, at as int),
                    version: shown.subrange(at as int + 1, shown.len() as int),
                },
            )
        } else {
            Some(ListedModel { name: shown, version: Seq::empty() })
        }
    }
}

/// The packages that trimmed lines of `bun pm ls` name.
pub open spec fn bun_entries(lines: Seq<Seq<char>>) -> Seq<ListedModel>
    decreases lines.len(),
{
    if lines.len() == 0 {
        Seq::empty()
    } else {
        let before = bun_entries(lines.drop_last());
        match bun_entry(lines.last()) {
            Some(p) => before.push(p),
            None => before,
        }
    }
}

fn find_last(chars: &Vec<char>, from: usize, c: char) -> (at: usize)
    requires
        from <= chars@.len(),
    ensures
        at == from + last_place(chars@.subrange(from as int, chars@.len() as int), c),
{
    let n: usize = chars.len();
    let ghost whole = chars@.subrange(from as int, n as int);
    let mut i: usize = n;
    assert(whole.take(n - from) =~= whole);
    while i > from
        invariant
            from <= i <= n,
            n == chars@.len(),
            whole == chars@.subrange(from as int, n as int),
            last_place(whole, c) == if last_place(whole.take(i - from), c) < i - from {
                last_place(whole.take(i - from), c)
            } else {
                (n - from) as nat
            },
            last_place(whole.take(i - from), c) <= i - from,
        decreases i,
    {
        let ghost here = whole.take(i - from);
        proof {
            last_place_bound(here, c);
            last_place_bound(here.drop_last(), c);
            assert(here.drop_last() =~= whole.take(i - from - 1));
            assert(here.last() == chars@[i - 1]);
        }
        if chars[i - 1] == c {
            return i - 1;
        }
        i -= 1;
    }
    assert(whole.take(0) =~= Seq::<char>::empty());
    n
}

proof fn last_place_bound(s: Seq<char>, c: char)
    ensures
        last_place(s, c) <= s.len(),
    decreases s.len(),
{
    if s.len() > 0 {
        last_place_bound(s.drop_last(), c);
    }
}

fn parse_bun_line(line: &str) -> (r: Option<Listed>)
    ensures
        match r {
            Some(p) => bun_entry(line@) == Some(p@),
            None => bun_entry(line@) is None,
        },
{
    if !text::contains_char(line, '@') {
        return None;
    }
    let chars = text::chars_of(line);
    let n: usize = chars.len();
    let mut from: usize = 0;
    let mut skipping = true;
    assert(chars@.subrange(0, n as int) =~= chars@);
    while from < n && skipping
        invariant
            from <= n,
            n == chars@.len(),
            chars@ == line@,
            without_tree(line@) == without_tree(chars@.subrange(from as int, n as int)),
            !skipping ==> without_tree(line@) == chars@.subrange(from as int, n as int),
        decreases n - from, (if skipping { 1int } else { 0int }),
    {
        let c: char = chars[from];
        let ghost here = chars@.subrange(from as int, n as int);
        assert(here[0] == c);
        assert(here.subrange(1, here.len() as int) =~= chars@.subrange(from + 1, n as int));
        if !is_alphanumeric(c) && c != '@' {
            from += 1;
        } else {
            skipping = false;
        }
    }
    let ghost shown = chars@.subrange(from as int, n as int);
    assert(without_tree(line@) == shown);
    let at: usize = find_last(&chars, from, '@');
    proof {
        last_place_bound(shown, '@');
    }
    if at == from {
        return None;
    }
    if at < n {
        assert(shown.subrange(0, at - from) =~= chars@.subrange(from as int, at as int));
        assert(shown.subrange(at - from + 1, shown.len() as int) =~= chars@.subrange(
            at + 1,
            n as int,
        ));
        Some(
            Listed {
                name: text::text_of_range(&chars, from, at),
                version: text::text_of_range(&chars, at + 1, n),
            },
        )
    } else {
        Some(Listed { name: text::text_of_range(&chars, from, n), version: String::new() })
    }
}

/// The packages that `bun pm ls` gave.
pub fn parse_bun_list(output: &str) -> (r: Vec<Listed>)
    ensures
        sorting::views(r@) == bun_entries(text::trimmed_lines(output@)),
{
    let lines = text::trim_lines(output);
    let ghost all = text::trimmed_lines(output@);
    let mut r: Vec<Listed> = Vec::new();
    let mut i: usize = 0;
    assert(all.take(0) =~= Seq::<Seq<char>>::empty());
    assert(sorting::views(r@) =~= Seq::<ListedModel>::empty());
    while i < lines.len()
        invariant
            i <= lines@.len(),
            all == text::texts(lines@),
            sorting::views(r@) == bun_entries(all.take(i as int)),
        decreases lines@.len() - i,
    {
        assert(all.take(i + 1).drop_last() =~= all.take(i as int));
        assert(all.take(i + 1).last() == lines@[i as int]@);
        match parse_bun_line(lines[i].as_str()) {
            Some(p) => {
                proof {
                    sorting::views_push(r@, p);
                }
                r.push(p);
            },
            None => {},
        }
        i += 1;
    }
    assert(all.take(all.len() as int) =~= all);
    r
}

// ---------------------------------------------------------------------------
// pip
// ---------------------------------------------------------------------------

/// The packages in the items of `pip list`; an item without a name counts not.
pub open spec fn pip_entries(items: Seq<json::Json>) -> Seq<ListedModel>
    decreases items.len(),
{
    if items.len() == 0 {
        Seq::empty()
    } else {
        let before = pip_entries(items.drop_last());
        match json::text_member(items.last(), "name"@) {
            Some(name) => before.push(
                ListedModel {
                    name,
                    version: text_or_empty(json::text_member(items.last(), "version"@)),
                },
            ),
            None => before,
        }
    }
}

/// The packages of a parsed `pip list`.
pub open spec fn pip_entries_of(value: json::Json) -> Seq<ListedModel> {
    match value {
        json::Json::List(items) => pip_entries(items),
        _ => Seq::empty(),
    }
}

/// The packages that `pip list` gave, where its output was parsed to `value`.
pub fn pip_packages(value: &serde_json::Value) -> (r: Vec<Listed>)
    ensures
        sorting::views(r@) == pip_entries_of(json::json_model(*value)),
{
    let mut r: Vec<Listed> = Vec::new();
    assert(sorting::views(r@) =~= Seq::<ListedModel>::empty());
    match json::as_list(value) {
        Some(items) => {
            let ghost all = json::models(items@);
            let mut i: usize = 0;
            assert(all.take(0) =~= Seq::<json::Json>::empty());
            while i < items.len()
                invariant
                    i <= items@.len(),
                    all == json::models(items@),
                    sorting::views(r@) == pip_entries(all.take(i as int)),
                decreases items@.len() - i,
            {
                assert(all.take(i + 1).drop_last() =~= all.take(i as int));
                assert(all.take(i + 1).last() == json::json_model(items@[i as int]));
                match json::get_text(&items[i], "name") {
                    Some(name) => {
                        let p = Listed {
                            name: name.to_owned(),
                            version: get_text_or_empty(&items[i], "version"),
                        };
                        proof {
                            sorting::views_push(r@, p);
                        }
                        r.push(p);
                    },
                    None => {},
                }
                i += 1;
            }
            assert(all.take(all.len() as int) =~= all);
        },
        None => {},
    }
    r
}

/// The packages that `pip list` gave.
pub fn parse_pip_list(output: &str) -> (r: Vec<Listed>)
    ensures
        sorting::views(r@) == match json::json_parsed(output@) {
            Some(value) => pip_entries_of(value),
            None => Seq::empty(),
        },
{
    match json::parse(output) {
        Some(value) => pip_packages(&value),
        None => {
            let r: Vec<Listed> = Vec::new();
            assert(sorting::views(r@) =~= Seq::<ListedModel>::empty());
            r
        },
    }
}

/// The directories of packages that Python printed, one on a line.
pub fn parse_site_packages(output: &str) -> (r: Vec<String>)
    ensures
        text::texts(r@) == text::trimmed_items(text::lines_of(output@)),
{
    let lines = text::text_lines(output);
    text::trim_items(&lines)
}

/// A character that separates the words of a distribution's name.
pub open spec fn is_dash(c: char) -> bool {
    c == '-' || c == '_' || c == '.'
}

/// The finished words of a distribution's name, and the word that is being
/// read; letters count in lower case.
pub open spec fn dist_words(s: Seq<char>) -> (Seq<Seq<char>>, Seq<char>)
    decreases s.len(),
{
    if s.len() == 0 {
        (Seq::empty(), Seq::empty())
    } else {
        let (words, word) = dist_words(s.drop_last());
        let c = text::ascii_lower(s.last());
        if !is_dash(c) {
            (words, word.push(c))
        } else if word.len() > 0 {
            (words.push(word), Seq::empty())
        } else {
            (words, word)
        }
    }
}

/// The words of a distribution's name.
pub open spec fn all_dist_words(s: Seq<char>) -> Seq<Seq<char>> {
    let (words, word) = dist_words(s);
    if word.len() > 0 {
        words.push(word)
    } else {
        words
    }
}

/// The name by which distributions are compared: its words in lower case, with
/// one dash between them.
pub open spec fn normal_name(s: Seq<char>) -> Seq<char> {
    text::joined(all_dist_words(s), "-"@)
}

pub fn normalize_dist_name(name: &str) -> (r: String)
    ensures
        r@ == normal_name(name@),
{
    let chars = text::chars_of(name);
    let mut words: Vec<String> = Vec::new();
    let mut word = String::new();
    let mut i: usize = 0;
    assert(chars@.take(0) =~= Seq::<char>::empty());
    assert(text::texts(words@) =~= Seq::<Seq<char>>::empty());
    while i < chars.len()
        invariant
            i <= chars@.len(),
            (text::texts(words@), word@) == dist_words(chars@.take(i as int)),
        decreases chars@.len() - i,
    {
        assert(chars@.take(i + 1).drop_last() =~= chars@.take(i as int));
        let c: char = text::ascii_lower_char(chars[i]);
        if !(c == '-' || c == '_' || c == '.') {
            word.push(c);
        } else if !word.as_str().is_empty() {
            proof {
                text::texts_push(words@, word);
            }
            words.push(word);
            word = String::new();
        }
        i += 1;
    }
    assert(chars@.take(chars@.len() as int) =~= chars@);
    if !word.as_str().is_empty() {
        proof {
            text::texts_push(words@, word);
        }
        words.push(word);
    }
    text::join_texts(&words, "-")
}

/// The directory of metadata belongs to a package: its name is the package's
/// name, or that with a dash and a version behind it.
pub open spec fn is_dist_info(file_name: Seq<char>, package: Seq<char>) -> bool {
    let suffix = ".dist-info"@;
    text::has_suffix(file_name, suffix) && {
        let found = normal_name(file_name.subrange(0, file_name.len() - suffix.len()));
        let needle = normal_name(package) + "-"@;
        found == normal_name(package) || (text::has_prefix(found, needle) && found.len()
            > needle.len() && text::is_digit(found[needle.len() as int]))
    }
}

pub fn is_pip_dist_info(file_name: &str, package: &str) -> (r: bool)
    ensures
        r == is_dist_info(file_name@, package@),
{
    if !text::ends_with_text(file_name, ".dist-info") {
        return false;
    }
    let suffix = text::chars_of(".dist-info");
    let chars = text::chars_of(file_name);
    let prefix = text::text_of_range(&chars, 0, chars.len() - suffix.len());
    let found = normalize_dist_name(prefix.as_str());
    let wanted = normalize_dist_name(package);
    if text::same_text(found.as_str(), wanted.as_str()) {
        return true;
    }
    let needle = text::join2(wanted.as_str(), "-");
    match text::strip_prefix_text(found.as_str(), needle.as_str()) {
        Some(rest) => {
            let tail = text::chars_of(rest.as_str());
            if tail.len() > 0 {
                assert(tail@[0] == found@[needle@.len() as int]);
                text::is_ascii_digit(tail[0])
            } else {
                false
            }
        },
        None => false,
    }
}

/// The first directory of metadata that belongs to a package.
pub fn find_pip_dist_info(names: &Vec<String>, package: &str) -> (r: Option<usize>)
    ensures
        match r {
            Some(i) => i < names@.len() && is_dist_info(names@[i as int]@, package@) && (forall|
                k: int,
            |
                0 <= k < i ==> !is_dist_info((#[trigger] names@[k])@, package@)),
            None => forall|k: int|
                0 <= k < names@.len() ==> !is_dist_info((#[trigger] names@[k])@, package@),
        },
{
    let mut i: usize = 0;
    while i < names.len()
        invariant
            i <= names@.len(),
            forall|k: int| 0 <= k < i ==> !is_dist_info((#[trigger] names@[k])@, package@),
        decreases names@.len() - i,
    {
        if is_pip_dist_info(names[i].as_str(), package) {
            return Some(i);
        }
        i += 1;
    }
    None
}

/// The text with another character in the place of each dash.
pub open spec fn underscored(s: Seq<char>) -> Seq<char> {
    s.map_values(
        |c: char|
            if c == '-' {
                '_'
            } else {
                c
            },
    )
}

/// Where a package's directory may be: under its name, or under its name with
/// underscores.
pub fn infer_pip_package_dir(site_packages: &str, package: &str) -> (r: Vec<String>)
    ensures
        text::texts(r@) == seq![
            paths::join_text(site_packages@, package@),
            paths::join_text(site_packages@, underscored(package@)),
        ],
{
    let chars = text::chars_of(package);
    let mut other: Vec<char> = Vec::new();
    let mut i: usize = 0;
    while i < chars.len()
        invariant
            i <= chars@.len(),
            other@.len() == i,
            forall|k: int| 0 <= k < i ==> #[trigger] other@[k] == underscored(chars@)[k],
        decreases chars@.len() - i,
    {
        let c: char = chars[i];
        other.push(
            if c == '-' {
                '_'
            } else {
                c
            },
        );
        i += 1;
    }
    assert(other@ =~= underscored(package@));
    let name = text::text_of(&other);
    let mut r: Vec<String> = Vec::new();
    r.push(paths::path_join(site_packages, package));
    r.push(paths::path_join(site_packages, name.as_str()));
    assert(text::texts(r@) =~= seq![
        paths::join_text(site_packages@, package@),
        paths::join_text(site_packages@, underscored(package@)),
    ]);
    r
}

/// Names joined to a directory.
pub open spec fn joined_all(dir: Seq<char>, names: Seq<Seq<char>>) -> Seq<Seq<char>> {
    names.map_values(|name: Seq<char>| paths::join_text(dir, name))
}

/// Where the modules of a package may be, as its `top_level.txt` lists them.
pub fn find_pip_top_level_path(site_packages: &str, top_level: &str) -> (r: Vec<String>)
    ensures
        text::texts(r@) == joined_all(
            site_packages@,
            text::trimmed_items(text::lines_of(top_level@)),
        ),
{
    let lines = text::text_lines(top_level);
    let names = text::trim_items(&lines);
    let ghost all = text::trimmed_items(text::lines_of(top_level@));
    let mut r: Vec<String> = Vec::new();
    let mut i: usize = 0;
    while i < names.len()
        invariant
            i <= names@.len(),
            all == text::texts(names@),
            r@.len() == i,
            forall|k: int|
                0 <= k < i ==> (#[trigger] r@[k])@ == paths::join_text(site_packages@, all[k]),
        decreases names@.len() - i,
    {
        r.push(paths::path_join(site_packages, names[i].as_str()));
        i += 1;
    }
    assert(text::texts(r@) =~= joined_all(site_packages@, all));
    r
}

// ---------------------------------------------------------------------------
// RECORD files
// ---------------------------------------------------------------------------

/// The fields of a line of comma-separated values from here on, where `current`
/// was read of the field at hand. In quotes a comma is a comma and two quotes
/// are one.
pub open spec fn csv_fields(s: Seq<char>, quoted: bool, current: Seq<char>) -> Seq<Seq<char>>
    decreases s.len(),
{
    if s.len() == 0 {
        seq![current]
    } else {
        let c = s[0];
        let rest = s.subrange(1, s.len() as int);
        if c == '"' {
            if quoted && rest.len() > 0 && rest[0] == '"' {
                csv_fields(rest.subrange(1, rest.len() as int), quoted, current.push('"'))
            } else {
                csv_fields(rest, !quoted, current)
            }
        } else if c == ',' && !quoted {
            seq![current] + csv_fields(rest, quoted, Seq::empty())
        } else {
            csv_fields(rest, quoted, current.push(c))
        }
    }
}

/// The fields of a line of comma-separated values.
pub fn split_csv_row(line: &str) -> (fields: Vec<String>)
    ensures
        text::texts(fields@) == csv_fields(line@, false, Seq::empty()),
{
    let chars = text::chars_of(line);
    let n: usize = chars.len();
    let mut fields: Vec<String> = Vec::new();
    let mut current = String::new();
    let mut quoted = false;
    let mut i: usize = 0;
    assert(chars@.subrange(0, n as int) =~= chars@);
    assert(text::texts(fields@) + csv_fields(chars@, false, Seq::empty()) =~= csv_fields(
        line@,
        false,
        Seq::empty(),
    ));
    while i < n
        invariant
            i <= n,
            n == chars@.len(),
            text::texts(fields@) + csv_fields(chars@.subrange(i as int, n as int), quoted, current@)
                == csv_fields(line@, false, Seq::empty()),
        decreases n - i,
    {
        let c: char = chars[i];
        let ghost here = chars@.subrange(i as int, n as int);
        let ghost rest = here.subrange(1, here.len() as int);
        assert(here[0] == c);
        assert(rest =~= chars@.subrange(i + 1, n as int));
        if c == '"' {
            if quoted && i + 1 < n && chars[i + 1] == '"' {
                assert(rest[0] == '"');
                assert(rest.subrange(1, rest.len() as int) =~= chars@.subrange(i + 2, n as int));
                i += 1;
                current.push('"');
            } else {
                quoted = !quoted;
            }
        } else if c == ',' && !quoted {
            let ghost done = text::texts(fields@);
            proof {
                text::texts_push(fields@, current);
                assert(done + (seq![current@] + csv_fields(rest, quoted, Seq::empty()))
                    =~= done.push(current@) + csv_fields(rest, quoted, Seq::empty()));
            }
            fields.push(current);
            current = String::new();
        } else {
            current.push(c);
        }
        i += 1;
    }
    proof {
        text::texts_push(fields@, current);
        assert(chars@.subrange(n as int, n as int) =~= Seq::<char>::empty());
        assert(text::texts(fields@) + seq![current@] =~= text::texts(fields@).push(current@));
    }
    fields.push(current);
    fields
}

/// A file that a `RECORD` lists: its path, and its length where it is given.
#[derive(Debug)]
pub struct RecordRow {
    pub path: String,
    pub bytes: Option<u64>,
}

impl View for RecordRow {
    type V = (Seq<char>, Option<u64>);

    open spec fn view(&self) -> (Seq<char>, Option<u64>) {
        (self.path@, self.bytes)
    }
}

/// The length that a field gives.
pub open spec fn bytes_in(field: Seq<char>) -> Option<u64> {
    match text::unsigned_value(text::trimmed(field), u64::MAX as nat) {
        Some(n) => Some(n as u64),
        None => None,
    }
}

/// The file that a line of a `RECORD` lists: three fields at least, the first
/// of them not blank.
pub open spec fn record_row(line: Seq<char>) -> Option<(Seq<char>, Option<u64>)> {
    let fields = csv_fields(line, false, Seq::empty());
    if text::trimmed(line).len() == 0 || fields.len() < 3 || text::trimmed(fields[0]).len() == 0 {
        None
    } else {
        Some((text::trimmed(fields[0]), bytes_in(fields[2])))
    }
}

/// The files that the lines of a `RECORD` list.
pub open spec fn rows_in(lines: Seq<Seq<char>>) -> Seq<(Seq<char>, Option<u64>)>
    decreases lines.len(),
{
    if lines.len() == 0 {
        Seq::empty()
    } else {
        let before = rows_in(lines.drop_last());
        match record_row(lines.last()) {
            Some(row) => before.push(row),
            None => before,
        }
    }
}

fn parse_record_row(line: &str) -> (r: Option<RecordRow>)
    ensures
        match r {
            Some(row) => record_row(line@) == Some(row@),
            None => record_row(line@) is None,
        },
{
    let shown = text::trim_text(line);
    if shown.as_str().is_empty() {
        return None;
    }
    let fields = split_csv_row(line);
    if fields.len() < 3 {
        return None;
    }
    assert(text::texts(fields@)[0] == fields@[0]@);
    assert(text::texts(fields@)[2] == fields@[2]@);
    let path = text::trim_text(fields[0].as_str());
    if path.as_str().is_empty() {
        return None;
    }
    let number = text::trim_text(fields[2].as_str());
    let bytes = text::parse_unsigned(number.as_str(), u64::MAX);
    Some(RecordRow { path, bytes })
}

/// The files that a `RECORD` lists.
pub fn record_rows(record: &str) -> (r: Vec<RecordRow>)
    ensures
        sorting::views(r@) == rows_in(text::lines_of(record@)),
{
    let lines = text::text_lines(record);
    let ghost all = text::lines_of(record@);
    let mut r: Vec<RecordRow> = Vec::new();
    let mut i: usize = 0;
    assert(all.take(0) =~= Seq::<Seq<char>>::empty());
    assert(sorting::views(r@) =~= Seq::<(Seq<char>, Option<u64>)>::empty());
    while i < lines.len()
        invariant
            i <= lines@.len(),
            all == text::texts(lines@),
            sorting::views(r@) == rows_in(all.take(i as int)),
        decreases lines@.len() - i,
    {
        assert(all.take(i + 1).drop_last() =~= all.take(i as int));
        assert(all.take(i + 1).last() == lines@[i as int]@);
        match parse_record_row(lines[i].as_str()) {
            Some(row) => {
                proof {
                    sorting::views_push(r@, row);
                }
                r.push(row);
            },
            None => {},
        }
        i += 1;
    }
    assert(all.take(all.len() as int) =~= all);
    r
}

/// The sizes of recorded files added up: the lengths as recorded, the room as
/// found on disk.
pub open spec fn recorded_size(rows: Seq<(Seq<char>, Option<u64>)>, room: Seq<Option<u64>>) -> bulkstat::SizeInfo
    decreases rows.len(),
{
    if rows.len() == 0 || room.len() == 0 {
        bulkstat::SizeInfo { logical: 0, allocated: 0 }
    } else {
        let before = recorded_size(rows.drop_last(), room.drop_last());
        bulkstat::size_sum(
            before,
            bulkstat::SizeInfo {
                logical: bulkstat::or_zero(rows.last().1),
                allocated: bulkstat::or_zero(room.last()),
            },
        )
    }
}

/// The size of the files that a `RECORD` lists. For each of them `room` holds
/// what it takes on disk, none where it is not there.
pub fn parse_pip_record_size(rows: &Vec<RecordRow>, room: &Vec<Option<u64>>) -> (r:
    bulkstat::SizeInfo)
    requires
        rows@.len() == room@.len(),
    ensures
        r == recorded_size(sorting::views(rows@), room@),
{
    let ghost all = sorting::views(rows@);
    let mut r = bulkstat::SizeInfo::default();
    let mut i: usize = 0;
    assert(all.take(0) =~= Seq::<(Seq<char>, Option<u64>)>::empty());
    while i < rows.len()
        invariant
            i <= rows@.len(),
            rows@.len() == room@.len(),
            all == sorting::views(rows@),
            r == recorded_size(all.take(i as int), room@.take(i as int)),
        decreases rows@.len() - i,
    {
        assert(all.take(i + 1).drop_last() =~= all.take(i as int));
        assert(all.take(i + 1).last() == rows@[i as int]@);
        assert(room@.take(i + 1).drop_last() =~= room@.take(i as int));
        let logical: u64 = match rows[i].bytes {
            Some(bytes) => bytes,
            None => 0,
        };
        let allocated: u64 = match room[i] {
            Some(bytes) => bytes,
            None => 0,
        };
        r.add_file(bulkstat::SizeInfo::new(logical, allocated));
        i += 1;
    }
    assert(all.take(all.len() as int) =~= all);
    assert(room@.take(room@.len() as int) =~= room@);
    r
}

/// What one directory of packages holds of a package.
#[derive(Debug)]
pub struct PipTraces {
    /// Its metadata are there.
    pub dist_info: bool,
    /// The size that the metadata give.
    pub size: Option<bulkstat::SizeInfo>,
    /// The first of its listed modules that is there.
    pub top_level: Option<String>,
    /// A directory of its name.
    pub inferred: Option<String>,
}

#[verifier::ext_equal]
pub struct TracesModel {
    pub dist_info: bool,
    pub size: Option<bulkstat::SizeInfo>,
    pub top_level: Option<Seq<char>>,
    pub inferred: Option<Seq<char>>,
}

impl View for PipTraces {
    type V = TracesModel;

    open spec fn view(&self) -> TracesModel {
        TracesModel {
            dist_info: self.dist_info,
            size: self.size,
            top_level: packages::opt_text(self.top_level),
            inferred: packages::opt_text(self.inferred),
        }
    }
}

/// The first of several directories with the package's metadata decides; where
/// none has them, the first with a directory of the package's name.
pub open spec fn pip_found(traces: Seq<TracesModel>) -> (Option<bulkstat::SizeInfo>, Option<Seq<char>>)
    decreases traces.len(),
{
    if traces.len() == 0 {
        (None, None)
    } else if traces[0].dist_info {
        (
            traces[0].size,
            if traces[0].top_level is Some {
                traces[0].top_level
            } else {
                traces[0].inferred
            },
        )
    } else {
        let later = pip_found(traces.subrange(1, traces.len() as int));
        if has_metadata(traces.subrange(1, traces.len() as int)) || traces[0].inferred is None {
            later
        } else {
            (None, traces[0].inferred)
        }
    }
}

/// One of the directories has the package's metadata.
pub open spec fn has_metadata(traces: Seq<TracesModel>) -> bool {
    exists|i: int| 0 <= i < traces.len() && (#[trigger] traces[i]).dist_info
}

/// A package of pip, with the size and the place that the directories of
/// packages give.
pub fn find_pip_package(p: &Listed, traces: &Vec<PipTraces>) -> (r: packages::Package)
    ensures
        r@ == (packages::PackageModel {
            name: p@.name,
            version: p@.version,
            size: pip_found(sorting::views(traces@)).0,
            path: pip_found(sorting::views(traces@)).1,
            metadata_path: None,
        }),
{
    let ghost all = sorting::views(traces@);
    let n: usize = traces.len();
    let mut size: Option<bulkstat::SizeInfo> = None;
    let mut path: Option<String> = None;
    let mut known = false;
    let mut i: usize = n;
    assert(all.subrange(n as int, n as int) =~= Seq::<TracesModel>::empty());
    while i > 0
        invariant
            i <= n,
            n == traces@.len(),
            all == sorting::views(traces@),
            (size, packages::opt_text(path)) == pip_found(all.subrange(i as int, n as int)),
            known == has_metadata(all.subrange(i as int, n as int)),
        decreases i,
    {
        i -= 1;
        let ghost here = all.subrange(i as int, n as int);
        let ghost rest = all.subrange(i + 1, n as int);
        assert(here.subrange(1, here.len() as int) =~= rest);
        assert(here[0] == traces@[i as int]@);
        let t = &traces[i];
        if t.dist_info {
            size = t.size;
            path = if t.top_level.is_some() {
                packages::copy_opt_text(&t.top_level)
            } else {
                packages::copy_opt_text(&t.inferred)
            };
            known = true;
            assert(here[0].dist_info);
        } else {
            if !known && t.inferred.is_some() {
                size = None;
                path = packages::copy_opt_text(&t.inferred);
            }
            proof {
                if has_metadata(rest) {
                    let k = choose|k: int| 0 <= k < rest.len() && (#[trigger] rest[k]).dist_info;
                    assert(here[k + 1].dist_info);
                }
                if has_metadata(here) {
                    let k = choose|k: int| 0 <= k < here.len() && (#[trigger] here[k]).dist_info;
                    assert(rest[k - 1].dist_info);
                }
            }
        }
    }
    assert(all.subrange(0, n as int) =~= all);
    packages::Package {
        name: p.name.clone(),
        version: p.version.clone(),
        size,
        path,
        metadata_path: None,
    }
}

// ---------------------------------------------------------------------------
// cargo
// ---------------------------------------------------------------------------

/// A crate that `cargo install --list` names, with its programs.
#[derive(Debug)]
pub struct CargoInstall {
    pub name: String,
    pub version: String,
    pub bins: Vec<String>,
}

#[verifier::ext_equal]
pub struct CargoModel {
    pub name: Seq<char>,
    pub version: Seq<char>,
    pub bins: Seq<Seq<char>>,
}

impl View for CargoInstall {
    type V = CargoModel;

    open spec fn view(&self) -> CargoModel {
        CargoModel { name: self.name@, version: self.version@, bins: text::texts(self.bins@) }
    }
}

/// The text without such characters in front.
pub open spec fn without_leading(s: Seq<char>, c: char) -> Seq<char>
    decreases s.len(),
{
    if s.len() > 0 && s[0] == c {
        without_leading(s.subrange(1, s.len() as int), c)
    } else {
        s
    }
}

/// The text without such characters at the end.
pub open spec fn without_trailing(s: Seq<char>, c: char) -> Seq<char>
    decreases s.len(),
{
    if s.len() > 0 && s.last() == c {
        without_trailing(s.drop_last(), c)
    } else {
        s
    }
}

/// The version that a header of `cargo install --list` gives: `v1.2:` is 1.2.
pub open spec fn cargo_version(word: Seq<char>) -> Seq<char> {
    without_trailing(without_leading(word, 'v'), ':')
}

fn clean_version(word: &str) -> (r: String)
    ensures
        r@ == cargo_version(word@),
{
    let chars = text::chars_of(word);
    let n: usize = chars.len();
    let mut from: usize = 0;
    assert(chars@.subrange(0, n as int) =~= chars@);
    while from < n && chars[from] == 'v'
        invariant
            from <= n,
            n == chars@.len(),
            without_leading(word@, 'v') == without_leading(
                chars@.subrange(from as int, n as int),
                'v',
            ),
        decreases n - from,
    {
        let ghost here = chars@.subrange(from as int, n as int);
        assert(here.subrange(1, here.len() as int) =~= chars@.subrange(from + 1, n as int));
        from += 1;
    }
    let ghost shown = chars@.subrange(from as int, n as int);
    assert(without_leading(word@, 'v') == shown);
    let mut to: usize = n;
    while to > from && chars[to - 1] == ':'
        invariant
            from <= to <= n,
            n == chars@.len(),
            without_trailing(shown, ':') == without_trailing(
                chars@.subrange(from as int, to as int),
                ':',
            ),
        decreases to,
    {
        let ghost here = chars@.subrange(from as int, to as int);
        assert(here.drop_last() =~= chars@.subrange(from as int, to - 1));
        to -= 1;
    }
    text::text_of_range(&chars, from, to)
}

/// The first word that does not start with a parenthesis.
pub open spec fn program_in(words: Seq<Seq<char>>) -> Option<Seq<char>>
    decreases words.len(),
{
    if words.len() == 0 {
        None
    } else if words[0].len() > 0 && words[0][0] == '(' {
        program_in(words.subrange(1, words.len() as int))
    } else {
        Some(words[0])
    }
}

fn find_program(words: &Vec<String>) -> (r: Option<String>)
    ensures
        packages::opt_text(r) == program_in(text::texts(words@)),
{
    let ghost all = text::texts(words@);
    let mut i: usize = 0;
    assert(all.subrange(0, all.len() as int) =~= all);
    while i < words.len()
        invariant
            i <= words@.len(),
            all == text::texts(words@),
            program_in(all) == program_in(all.subrange(i as int, all.len() as int)),
        decreases words@.len() - i,
    {
        let ghost here = all.subrange(i as int, all.len() as int);
        assert(here[0] == words@[i as int]@);
        assert(here.subrange(1, here.len() as int) =~= all.subrange(i + 1, all.len() as int));
        if !text::starts_with_char(words[i].as_str(), '(') {
            return Some(words[i].clone());
        }
        i += 1;
    }
    None
}

/// What was read of `cargo install --list` so far: the finished crates, and the
/// one that is being read.
#[verifier::ext_equal]
pub struct CargoReading {
    pub done: Seq<CargoModel>,
    pub current: CargoModel,
}

/// The crate that is being read joins the finished ones, if there is one.
pub open spec fn with_current(r: CargoReading) -> Seq<CargoModel> {
    if r.current.name.len() > 0 {
        r.done.push(r.current)
    } else {
        r.done
    }
}

/// The line is indented: it names a program.
pub open spec fn is_indented(line: Seq<char>) -> bool {
    line.len() > 0 && (line[0] == ' ' || line[0] == '\t')
}

/// What is known after one more line.
pub open spec fn with_cargo_line(r: CargoReading, line: Seq<char>) -> CargoReading {
    let words = text::words_of(line);
    if is_indented(line) {
        match program_in(words) {
            Some(bin) => CargoReading {
                current: CargoModel { bins: r.current.bins.push(bin), ..r.current },
                ..r
            },
            None => r,
        }
    } else if words.len() == 0 {
        CargoReading { done: with_current(r), ..r }
    } else {
        CargoReading {
            done: with_current(r),
            current: CargoModel {
                name: words[0],
                version: if words.len() > 1 {
                    cargo_version(words[1])
                } else {
                    Seq::empty()
                },
                bins: Seq::empty(),
            },
        }
    }
}

pub open spec fn cargo_reading(lines: Seq<Seq<char>>) -> CargoReading
    decreases lines.len(),
{
    if lines.len() == 0 {
        CargoReading {
            done: Seq::empty(),
            current: CargoModel {
                name: Seq::empty(),
                version: Seq::empty(),
                bins: Seq::empty(),
            },
        }
    } else {
        with_cargo_line(cargo_reading(lines.drop_last()), lines.last())
    }
}

fn no_bins() -> (r: Vec<String>)
    ensures
        text::texts(r@) == Seq::<Seq<char>>::empty(),
{
    let r: Vec<String> = Vec::new();
    assert(text::texts(r@) =~= Seq::<Seq<char>>::empty());
    r
}

fn finish_crate(done: &mut Vec<CargoInstall>, name: &str, version: &str, bins: &Vec<String>)
    ensures
        sorting::views(final(done)@) == with_current(
            CargoReading {
                done: sorting::views(old(done)@),
                current: CargoModel {
                    name: name@,
                    version: version@,
                    bins: text::texts(bins@),
                },
            },
        ),
{
    if name.is_empty() {
        return ;
    }
    let item = CargoInstall {
        name: name.to_owned(),
        version: version.to_owned(),
        bins: reclaim::copy_texts(bins),
    };
    proof {
        sorting::views_push(done@, item);
    }
    done.push(item);
}

/// The crates that `cargo install --list` gave.
pub fn parse_cargo_list(output: &str) -> (r: Vec<CargoInstall>)
    ensures
        sorting::views(r@) == with_current(cargo_reading(text::lines_of(output@))),
{
    let lines = text::text_lines(output);
    let ghost all = text::lines_of(output@);
    let mut done: Vec<CargoInstall> = Vec::new();
    let mut name = String::new();
    let mut version = String::new();
    let mut bins = no_bins();
    let mut i: usize = 0;
    assert(all.take(0) =~= Seq::<Seq<char>>::empty());
    assert(sorting::views(done@) =~= Seq::<CargoModel>::empty());
    while i < lines.len()
        invariant
            i <= lines@.len(),
            all == text::texts(lines@),
            cargo_reading(all.take(i as int)) == (CargoReading {
                done: sorting::views(done@),
                current: CargoModel {
                    name: name@,
                    version: version@,
                    bins: text::texts(bins@),
                },
            }),
        decreases lines@.len() - i,
    {
        let line = lines[i].as_str();
        assert(all.take(i + 1).drop_last() =~= all.take(i as int));
        assert(all.take(i + 1).last() == line@);
        let words = text::split_words(line);
        if text::starts_with_char(line, ' ') || text::starts_with_char(line, '\t') {
            match find_program(&words) {
                Some(bin) => {
                    proof {
                        text::texts_push(bins@, bin);
                    }
                    bins.push(bin);
                },
                None => {},
            }
        } else {
            finish_crate(&mut done, name.as_str(), version.as_str(), &bins);
            if words.len() > 0 {
                assert(text::texts(words@)[0] == words@[0]@);
                name = words[0].clone();
                version = if words.len() > 1 {
                    assert(text::texts(words@)[1] == words@[1]@);
                    clean_version(words[1].as_str())
                } else {
                    String::new()
                };
                bins = no_bins();
            }
        }
        i += 1;
    }
    assert(all.take(all.len() as int) =~= all);
    finish_crate(&mut done, name.as_str(), version.as_str(), &bins);
    done
}

/// What is known of a program on disk: whether it is there, and its size where
/// that can be read.
#[derive(Clone, Copy, Debug, PartialEq, Eq, Structural)]
pub struct BinFacts {
    pub exists: bool,
    pub size: Option<bulkstat::SizeInfo>,
}

/// The first of the programs that is there, and the sizes of those that are
/// there and can be read, added up.
pub open spec fn bins_found(
    dir: Seq<char>,
    bins: Seq<Seq<char>>,
    facts: Seq<BinFacts>,
) -> (Option<Seq<char>>, Option<bulkstat::SizeInfo>)
    decreases bins.len(),
{
    if bins.len() == 0 || facts.len() == 0 {
        (None, None)
    } else {
        let (path, size) = bins_found(dir, bins.drop_last(), facts.drop_last());
        let fact = facts.last();
        if !fact.exists {
            (path, size)
        } else {
            (
                if path is Some {
                    path
                } else {
                    Some(paths::join_text(dir, bins.last()))
                },
                match (size, fact.size) {
                    (Some(a), Some(b)) => Some(bulkstat::size_sum(a, b)),
                    (None, Some(b)) => Some(b),
                    _ => size,
                },
            )
        }
    }
}

/// A crate with its programs' size and place. For each program `facts` says
/// what is known of it on disk.
pub fn scan_cargo(install: &CargoInstall, bin_dir: Option<&str>, facts: &Vec<BinFacts>) -> (r:
    packages::Package)
    requires
        install@.bins.len() == facts@.len(),
    ensures
        r@ == (packages::PackageModel {
            name: install@.name,
            version: install@.version,
            size: match bin_dir {
                Some(dir) => bins_found(dir@, install@.bins, facts@).1,
                None => None,
            },
            path: match bin_dir {
                Some(dir) => bins_found(dir@, install@.bins, facts@).0,
                None => None,
            },
            metadata_path: None,
        }),
{
    let mut size: Option<bulkstat::SizeInfo> = None;
    let mut path: Option<String> = None;
    match bin_dir {
        Some(dir) => {
            let ghost all = install@.bins;
            let n: usize = facts.len();
            let mut i: usize = 0;
            assert(all.take(0) =~= Seq::<Seq<char>>::empty());
            while i < n
                invariant
                    i <= n,
                    n == facts@.len(),
                    all == install@.bins,
                    all.len() == n,
                    (packages::opt_text(path), size) == bins_found(
                        dir@,
                        all.take(i as int),
                        facts@.take(i as int),
                    ),
                decreases n - i,
            {
                assert(all.take(i + 1).drop_last() =~= all.take(i as int));
                assert(facts@.take(i + 1).drop_last() =~= facts@.take(i as int));
                assert(all.take(i + 1).last() == install.bins@[i as int]@);
                if facts[i].exists {
                    if path.is_none() {
                        path = Some(paths::path_join(dir, install.bins[i].as_str()));
                    }
                    match facts[i].size {
                        Some(found) => {
                            let mut total = match size {
                                Some(before) => before,
                                None => bulkstat::SizeInfo::default(),
                            };
                            total.add_file(found);
                            size = Some(total);
                        },
                        None => {},
                    }
                }
                i += 1;
            }
            assert(all.take(n as int) =~= all);
            assert(facts@.take(n as int) =~= facts@);
        },
        None => {},
    }
    packages::Package {
        name: install.name.clone(),
        version: install.version.clone(),
        size,
        path,
        metadata_path: None,
    }
}

// ---------------------------------------------------------------------------
// Homebrew
// ---------------------------------------------------------------------------

/// The later of two times; a time that is not known is the earliest.
pub open spec fn no_earlier(a: Option<i128>, b: Option<i128>) -> bool {
    match (a, b) {
        (Some(x), Some(y)) => x >= y,
        (_, None) => true,
        (None, Some(_)) => false,
    }
}

/// The name whose time is the latest; of several the last, an empty one of none.
pub open spec fn latest(names: Seq<Seq<char>>, times: Seq<Option<i128>>) -> nat
    decreases names.len(),
{
    if names.len() <= 1 {
        0
    } else {
        let before = latest(names.drop_last(), times.drop_last());
        if no_earlier(times.last(), times[before as int]) {
            (names.len() - 1) as nat
        } else {
            before
        }
    }
}

/// The name of the version of a formula that was changed last.
pub fn latest_subdir_name(names: &Vec<String>, times: &Vec<Option<i128>>) -> (r: String)
    requires
        names@.len() == times@.len(),
    ensures
        names@.len() == 0 ==> r@ == Seq::<char>::empty(),
        names@.len() > 0 ==> latest(text::texts(names@), times@) < names@.len() && r@
            == names@[latest(text::texts(names@), times@) as int]@,
{
    let n: usize = names.len();
    if n == 0 {
        return String::new();
    }
    let ghost all = text::texts(names@);
    let mut best: usize = 0;
    let mut i: usize = 1;
    while i < n
        invariant
            1 <= i <= n,
            n == names@.len(),
            n == times@.len(),
            all == text::texts(names@),
            best < i,
            best == latest(all.take(i as int), times@.take(i as int)),
        decreases n - i,
    {
        assert(all.take(i + 1).drop_last() =~= all.take(i as int));
        assert(times@.take(i + 1).drop_last() =~= times@.take(i as int));
        assert(times@.take(i + 1).last() == times@[i as int]);
        assert(times@.take(i + 1)[best as int] == times@[best as int]);
        let later = match (times[i], times[best]) {
            (Some(x), Some(y)) => x >= y,
            (_, None) => true,
            (None, Some(_)) => false,
        };
        if later {
            best = i;
        }
        i += 1;
    }
    assert(all.take(n as int) =~= all);
    assert(times@.take(n as int) =~= times@);
    names[best].clone()
}

/// A cask that Homebrew lists.
#[derive(Debug)]
pub struct CaskInfo {
    pub token: String,
    pub version: String,
    /// It was put in place by an installer, so its files are not its own.
    pub installer_based: bool,
    pub app_names: Vec<String>,
}

#[verifier::ext_equal]
pub struct CaskModel {
    pub token: Seq<char>,
    pub version: Seq<char>,
    pub installer_based: bool,
    pub app_names: Seq<Seq<char>>,
}

impl View for CaskInfo {
    type V = CaskModel;

    open spec fn view(&self) -> CaskModel {
        CaskModel {
            token: self.token@,
            version: self.version@,
            installer_based: self.installer_based,
            app_names: text::texts(self.app_names@),
        }
    }
}

/// The items that are texts.
pub open spec fn texts_in(items: Seq<json::Json>) -> Seq<Seq<char>>
    decreases items.len(),
{
    if items.len() == 0 {
        Seq::empty()
    } else {
        let before = texts_in(items.drop_last());
        match items.last() {
            json::Json::Text(t) => before.push(t),
            _ => before,
        }
    }
}

/// One of the artifacts is an installer.
pub open spec fn has_installer(artifacts: Seq<json::Json>) -> bool {
    exists|i: int|
        0 <= i < artifacts.len() && (json::member(#[trigger] artifacts[i], "pkg"@) is Some
            || json::member(artifacts[i], "installer"@) is Some)
}

/// The apps that artifacts name.
pub open spec fn apps_in(artifacts: Seq<json::Json>) -> Seq<Seq<char>>
    decreases artifacts.len(),
{
    if artifacts.len() == 0 {
        Seq::empty()
    } else {
        let before = apps_in(artifacts.drop_last());
        match json::list_member(artifacts.last(), "app"@) {
            Some(items) => before + texts_in(items),
            None => before,
        }
    }
}

/// The artifacts of a cask.
pub open spec fn artifacts_of(cask: json::Json) -> Seq<json::Json> {
    match json::list_member(cask, "artifacts"@) {
        Some(items) => items,
        None => Seq::empty(),
    }
}

/// A cask, where it has a token.
pub open spec fn cask_from(cask: json::Json) -> Option<CaskModel> {
    match json::text_member(cask, "token"@) {
        Some(token) => {
            let installed = text_or_empty(json::text_member(cask, "installed"@));
            let installer_based = has_installer(artifacts_of(cask));
            Some(
                CaskModel {
                    token,
                    version: if installer_based {
                        installed + " (installer-based)"@
                    } else {
                        installed
                    },
                    installer_based,
                    app_names: apps_in(artifacts_of(cask)),
                },
            )
        },
        None => None,
    }
}

/// The casks among the items.
pub open spec fn casks_in(items: Seq<json::Json>) -> Seq<CaskModel>
    decreases items.len(),
{
    if items.len() == 0 {
        Seq::empty()
    } else {
        let before = casks_in(items.drop_last());
        match cask_from(items.last()) {
            Some(cask) => before.push(cask),
            None => before,
        }
    }
}

/// The casks of a parsed listing.
pub open spec fn casks_of(value: json::Json) -> Seq<CaskModel> {
    match json::list_member(value, "casks"@) {
        Some(items) => casks_in(items),
        None => Seq::empty(),
    }
}

fn add_texts(items: &Vec<serde_json::Value>, names: &mut Vec<String>)
    ensures
        text::texts(final(names)@) == text::texts(old(names)@) + texts_in(json::models(items@)),
{
    let ghost all = json::models(items@);
    let ghost start = text::texts(names@);
    let mut i: usize = 0;
    assert(all.take(0) =~= Seq::<json::Json>::empty());
    assert(start + Seq::<Seq<char>>::empty() =~= start);
    while i < items.len()
        invariant
            i <= items@.len(),
            all == json::models(items@),
            text::texts(names@) == start + texts_in(all.take(i as int)),
        decreases items@.len() - i,
    {
        assert(all.take(i + 1).drop_last() =~= all.take(i as int));
        assert(all.take(i + 1).last() == json::json_model(items@[i as int]));
        let ghost before = texts_in(all.take(i as int));
        match json::as_text(&items[i]) {
            Some(t) => {
                let name = t.to_owned();
                proof {
                    text::texts_push(names@, name);
                    assert(start + before.push(name@) =~= (start + before).push(name@));
                }
                names.push(name);
            },
            None => {},
        }
        i += 1;
    }
    assert(all.take(all.len() as int) =~= all);
}

fn parse_cask(cask: &serde_json::Value) -> (r: Option<CaskInfo>)
    ensures
        match r {
            Some(c) => cask_from(json::json_model(*cask)) == Some(c@),
            None => cask_from(json::json_model(*cask)) is None,
        },
{
    let token = match json::get_text(cask, "token") {
        Some(token) => token.to_owned(),
        None => {
            return None;
        },
    };
    let installed = get_text_or_empty(cask, "installed");
    let mut installer_based = false;
    let mut app_names: Vec<String> = Vec::new();
    let ghost all = artifacts_of(json::json_model(*cask));
    assert(text::texts(app_names@) =~= Seq::<Seq<char>>::empty());
    match json::get_list(cask, "artifacts") {
        Some(artifacts) => {
            let mut i: usize = 0;
            assert(all.take(0) =~= Seq::<json::Json>::empty());
            while i < artifacts.len()
                invariant
                    i <= artifacts@.len(),
                    all == json::models(artifacts@),
                    installer_based == has_installer(all.take(i as int)),
                    text::texts(app_names@) == apps_in(all.take(i as int)),
                decreases artifacts@.len() - i,
            {
                let art = &artifacts[i];
                let ghost before = all.take(i as int);
                let ghost after = all.take(i + 1);
                assert(after.drop_last() =~= before);
                assert(after.last() == json::json_model(*art));
                let installs = json::get(art, "pkg").is_some() || json::get(
                    art,
                    "installer",
                ).is_some();
                proof {
                    if has_installer(before) {
                        let k = choose|k: int|
                            0 <= k < before.len() && (json::member(
                                #[trigger] before[k],
                                "pkg"@,
                            ) is Some || json::member(before[k], "installer"@) is Some);
                        assert(after[k] == before[k]);
                    }
                    if installs {
                        assert(after[i as int] == json::json_model(*art));
                        assert(has_installer(after));
                    }
                    if has_installer(after) && !installs {
                        let k = choose|k: int|
                            0 <= k < after.len() && (json::member(#[trigger] after[k], "pkg"@)
                                is Some || json::member(after[k], "installer"@) is Some);
                        assert(before[k] == after[k]);
                    }
                }
                if installs {
                    installer_based = true;
                }
                match json::get_list(art, "app") {
                    Some(apps) => {
                        add_texts(apps, &mut app_names);
                    },
                    None => {},
                }
                i += 1;
            }
            assert(all.take(all.len() as int) =~= all);
        },
        None => {},
    }
    let version = if installer_based {
        text::join2(installed.as_str(), " (installer-based)")
    } else {
        installed
    };
    Some(CaskInfo { token, version, installer_based, app_names })
}

/// The casks of a listing that was parsed to `value`.
pub fn brew_casks(value: &serde_json::Value) -> (r: Vec<CaskInfo>)
    ensures
        sorting::views(r@) == casks_of(json::json_model(*value)),
{
    let mut r: Vec<CaskInfo> = Vec::new();
    assert(sorting::views(r@) =~= Seq::<CaskModel>::empty());
    match json::get_list(value, "casks") {
        Some(items) => {
            let ghost all = json::models(items@);
            let mut i: usize = 0;
            assert(all.take(0) =~= Seq::<json::Json>::empty());
            while i < items.len()
                invariant
                    i <= items@.len(),
                    all == json::models(items@),
                    sorting::views(r@) == casks_in(all.take(i as int)),
                decreases items@.len() - i,
            {
                assert(all.take(i + 1).drop_last() =~= all.take(i as int));
                assert(all.take(i + 1).last() == json::json_model(items@[i as int]));
                match parse_cask(&items[i]) {
                    Some(cask) => {
                        proof {
                            sorting::views_push(r@, cask);
                        }
                        r.push(cask);
                    },
                    None => {},
                }
                i += 1;
            }
            assert(all.take(all.len() as int) =~= all);
        },
        None => {},
    }
    r
}

/// The casks that `brew info --cask --json=v2` gave.
pub fn parse_brew_cask_json(output: &str) -> (r: Vec<CaskInfo>)
    ensures
        sorting::views(r@) == match json::json_parsed(output@) {
            Some(value) => casks_of(value),
            None => Seq::empty(),
        },
{
    match json::parse(output) {
        Some(value) => brew_casks(&value),
        None => {
            let r: Vec<CaskInfo> = Vec::new();
            assert(sorting::views(r@) =~= Seq::<CaskModel>::empty());
            r
        },
    }
}

/// Where apps are installed: for everyone, and for the owner of `home`.
pub fn app_roots(home: Option<&str>) -> (r: Vec<String>)
    ensures
        text::texts(r@) == match home {
            Some(dir) => seq!["/Applications"@, paths::join_text(dir@, "Applications"@)],
            None => seq!["/Applications"@],
        },
{
    let mut r: Vec<String> = Vec::new();
    r.push("/Applications".to_owned());
    match home {
        Some(dir) => {
            r.push(paths::path_join(dir, "Applications"));
            assert(text::texts(r@) =~= seq![
                "/Applications"@,
                paths::join_text(dir@, "Applications"@),
            ]);
        },
        None => {
            assert(text::texts(r@) =~= seq!["/Applications"@]);
        },
    }
    r
}

/// Where an app may be: at its own path where that is absolute, then under each
/// of the roots.
pub open spec fn app_places(name: Seq<char>, roots: Seq<Seq<char>>) -> Seq<Seq<char>> {
    let under = roots.map_values(|root: Seq<char>| paths::join_text(root, name));
    if name.len() > 0 && name[0] == '/' {
        seq![name] + under
    } else {
        under
    }
}

pub fn find_cask_app_path(name: &str, roots: &Vec<String>) -> (r: Vec<String>)
    ensures
        text::texts(r@) == app_places(name@, text::texts(roots@)),
{
    let mut r: Vec<String> = Vec::new();
    let ghost under = text::texts(roots@).map_values(
        |root: Seq<char>| paths::join_text(root, name@),
    );
    if text::starts_with_char(name, '/') {
        r.push(name.to_owned());
    }
    let ghost start = text::texts(r@);
    assert(start =~= if name@.len() > 0 && name@[0] == '/' {
        seq![name@]
    } else {
        Seq::empty()
    });
    let mut i: usize = 0;
    assert(start + under.take(0) =~= start);
    while i < roots.len()
        invariant
            i <= roots@.len(),
            under == text::texts(roots@).map_values(
                |root: Seq<char>| paths::join_text(root, name@),
            ),
            text::texts(r@) == start + under.take(i as int),
        decreases roots@.len() - i,
    {
        let place = paths::path_join(roots[i].as_str(), name);
        proof {
            text::texts_push(r@, place);
            assert(under[i as int] == place@);
            assert((start + under.take(i as int)).push(place@) =~= start + under.take(i + 1));
        }
        r.push(place);
        i += 1;
    }
    assert(under.take(under.len() as int) =~= under);
    assert(Seq::<Seq<char>>::empty() + under =~= under);
    r
}

/// An app that is on disk.
#[derive(Debug)]
pub struct FoundApp {
    pub path: String,
    pub size: bulkstat::SizeInfo,
}

impl View for FoundApp {
    type V = (Seq<char>, bulkstat::SizeInfo);

    open spec fn view(&self) -> (Seq<char>, bulkstat::SizeInfo) {
        (self.path@, self.size)
    }
}

/// The sizes of apps added to that of the cask's own directory.
pub open spec fn with_apps(own: bulkstat::SizeInfo, apps: Seq<(Seq<char>, bulkstat::SizeInfo)>) -> bulkstat::SizeInfo
    decreases apps.len(),
{
    if apps.len() == 0 {
        own
    } else {
        bulkstat::size_sum(with_apps(own, apps.drop_last()), apps.last().1)
    }
}

/// The first app that lies elsewhere than in the cask's own directory.
pub open spec fn primary_app(own: Seq<char>, apps: Seq<(Seq<char>, bulkstat::SizeInfo)>) -> Option<
    Seq<char>,
>
    decreases apps.len(),
{
    if apps.len() == 0 {
        None
    } else {
        let before = primary_app(own, apps.drop_last());
        if before is None && paths::path_of(apps.last().0) != paths::path_of(own) {
            Some(apps.last().0)
        } else {
            before
        }
    }
}

/// The package that a cask is: the apps count only where no installer put them
/// in place, and the first of them is what actions work on.
pub open spec fn cask_package(
    cask: CaskModel,
    own: Seq<char>,
    own_size: bulkstat::SizeInfo,
    apps: Seq<(Seq<char>, bulkstat::SizeInfo)>,
) -> packages::PackageModel {
    let counted = if cask.installer_based {
        Seq::empty()
    } else {
        apps
    };
    let primary = primary_app(own, counted);
    packages::PackageModel {
        name: cask.token,
        version: cask.version,
        size: Some(with_apps(own_size, counted)),
        path: Some(
            if primary is Some {
                primary->0
            } else {
                own
            },
        ),
        metadata_path: if primary is Some {
            Some(own)
        } else {
            None
        },
    }
}

/// The package of a cask in the Caskroom. The size of its own directory is zero
/// where there is none; `apps` are those of its apps that are on disk.
pub fn package_of_cask(
    cask: &CaskInfo,
    caskroom: &str,
    own_size: bulkstat::SizeInfo,
    apps: &Vec<FoundApp>,
) -> (r: packages::Package)
    ensures
        r@ == cask_package(
            cask@,
            paths::join_text(caskroom@, cask@.token),
            own_size,
            sorting::views(apps@),
        ),
{
    let own = paths::path_join(caskroom, cask.token.as_str());
    let mut size = own_size;
    let mut primary: Option<String> = None;
    let ghost all = sorting::views(apps@);
    if !cask.installer_based {
        let mut i: usize = 0;
        assert(all.take(0) =~= Seq::<(Seq<char>, bulkstat::SizeInfo)>::empty());
        while i < apps.len()
            invariant
                i <= apps@.len(),
                all == sorting::views(apps@),
                size == with_apps(own_size, all.take(i as int)),
                packages::opt_text(primary) == primary_app(own@, all.take(i as int)),
            decreases apps@.len() - i,
        {
            assert(all.take(i + 1).drop_last() =~= all.take(i as int));
            assert(all.take(i + 1).last() == apps@[i as int]@);
            size.add_file(apps[i].size);
            if primary.is_none() && !paths::path_equals(apps[i].path.as_str(), own.as_str()) {
                primary = Some(apps[i].path.clone());
            }
            i += 1;
        }
        assert(all.take(all.len() as int) =~= all);
    }
    let (path, metadata_path) = match primary {
        Some(app) => (app, Some(own)),
        None => (own, None),
    };
    packages::Package {
        name: cask.token.clone(),
        version: cask.version.clone(),
        size: Some(size),
        path: Some(path),
        metadata_path,
    }
}

// ---------------------------------------------------------------------------
// Laws
// ---------------------------------------------------------------------------

/// A word of a normal name: not empty, without dashes, in lower case.
spec fn is_normal_word(w: Seq<char>) -> bool {
    w.len() > 0 && forall|i: int|
        0 <= i < w.len() ==> !is_dash(#[trigger] w[i]) && text::ascii_lower(w[i]) == w[i]
}

proof fn words_are_normal(s: Seq<char>)
    ensures
        forall|i: int|
            0 <= i < dist_words(s).0.len() ==> is_normal_word(#[trigger] dist_words(s).0[i]),
        dist_words(s).1.len() > 0 ==> is_normal_word(dist_words(s).1),
    decreases s.len(),
{
    if s.len() > 0 {
        words_are_normal(s.drop_last());
    }
}

proof fn words_of_longer(s: Seq<char>, w: Seq<char>)
    requires
        is_normal_word(w),
    ensures
        dist_words(s + w) == (dist_words(s).0, dist_words(s).1 + w),
    decreases w.len(),
{
    let rest = w.drop_last();
    assert((s + w).drop_last() =~= s + rest);
    assert((s + w).last() == w.last());
    assert(w[w.len() - 1] == w.last());
    if rest.len() == 0 {
        assert(s + rest =~= s);
        assert(dist_words(s).1 + w =~= dist_words(s).1.push(w.last()));
    } else {
        assert forall|i: int| 0 <= i < rest.len() implies !is_dash(#[trigger] rest[i])
            && text::ascii_lower(rest[i]) == rest[i] by {
            assert(rest[i] == w[i]);
        }
        words_of_longer(s, rest);
        assert(dist_words(s).1 + w =~= (dist_words(s).1 + rest).push(w.last()));
    }
}

proof fn words_of_joined(words: Seq<Seq<char>>)
    requires
        words.len() > 0,
        forall|i: int| 0 <= i < words.len() ==> is_normal_word(#[trigger] words[i]),
    ensures
        dist_words(text::joined(words, "-"@)) == (words.drop_last(), words.last()),
    decreases words.len(),
{
    reveal_strlit("-");
    let rest = words.drop_last();
    let w = words.last();
    assert(words[words.len() - 1] == w);
    let empty = Seq::<char>::empty();
    if rest.len() == 0 {
        words_of_longer(empty, w);
        assert(empty + w =~= w);
        assert(rest =~= Seq::<Seq<char>>::empty());
        assert(dist_words(empty).1 + w =~= w);
    } else {
        assert forall|i: int| 0 <= i < rest.len() implies is_normal_word(#[trigger] rest[i]) by {
            assert(rest[i] == words[i]);
        }
        words_of_joined(rest);
        let before = text::joined(rest, "-"@);
        let dashed = before + "-"@;
        assert("-"@ =~= seq!['-']);
        assert(dashed.drop_last() =~= before);
        assert(dashed.last() == '-');
        assert(rest[rest.len() - 1] == rest.last());
        assert(dist_words(dashed) == (rest.drop_last().push(rest.last()), empty));
        assert(rest.drop_last().push(rest.last()) =~= rest);
        words_of_longer(dashed, w);
        assert(empty + w =~= w);
        assert(text::joined(words, "-"@) =~= dashed + w);
    }
}

/// A normal name is its own normal name.
pub proof fn normal_name_is_stable(s: Seq<char>)
    ensures
        normal_name(normal_name(s)) == normal_name(s),
{
    let words = all_dist_words(s);
    words_are_normal(s);
    if words.len() == 0 {
        assert(normal_name(s) =~= Seq::<char>::empty());
        assert(all_dist_words(Seq::<char>::empty()) =~= Seq::<Seq<char>>::empty());
    } else {
        words_of_joined(words);
        assert(words[words.len() - 1] == words.last());
        assert(words.drop_last().push(words.last()) =~= words);
    }
}

/// A line without quotes is split at its commas.
pub proof fn csv_without_quotes(s: Seq<char>)
    requires
        !s.contains('"'),
    ensures
        csv_fields(s, false, Seq::empty()) == text::split_on(s, ','),
{
    csv_from(s, Seq::empty());
    let pieces = text::split_on(s, ',');
    text::split_on_not_empty(s, ',');
    assert(Seq::<char>::empty() + pieces[0] =~= pieces[0]);
    assert(pieces.update(0, pieces[0]) =~= pieces);
}

/// The first piece of a split takes up the first character.
proof fn split_from_front(s: Seq<char>, sep: char)
    requires
        s.len() > 0,
    ensures
        ({
            let tail = text::split_on(s.subrange(1, s.len() as int), sep);
            text::split_on(s, sep) == if s[0] == sep {
                seq![Seq::<char>::empty()] + tail
            } else {
                tail.update(0, seq![s[0]] + tail[0])
            }
        }),
    decreases s.len(),
{
    let rest = s.subrange(1, s.len() as int);
    let tail = text::split_on(rest, sep);
    let empty = Seq::<char>::empty();
    text::split_on_not_empty(rest, sep);
    if s.len() == 1 {
        assert(s.drop_last() =~= empty);
        assert(rest =~= empty);
        assert(text::split_on(empty, sep) =~= seq![empty]);
        assert(seq![empty] + tail =~= seq![empty].push(empty));
        assert(seq![s[0]] + tail[0] =~= empty.push(s.last()));
        assert(text::split_on(s, sep) =~= if s[0] == sep {
            seq![empty] + tail
        } else {
            tail.update(0, seq![s[0]] + tail[0])
        });
    } else {
        let t = s.drop_last();
        split_from_front(t, sep);
        assert(t.subrange(1, t.len() as int) =~= rest.drop_last());
        assert(rest.last() == s.last());
        let inner = text::split_on(rest.drop_last(), sep);
        text::split_on_not_empty(rest.drop_last(), sep);
        text::split_on_not_empty(t, sep);
        if inner.len() == 1 {
            assert((seq![s[0]] + inner[0]).push(s.last()) =~= seq![s[0]] + inner[0].push(s.last()));
        }
        assert(text::split_on(s, sep) =~= if s[0] == sep {
            seq![empty] + tail
        } else {
            tail.update(0, seq![s[0]] + tail[0])
        });
    }
}

proof fn csv_from(s: Seq<char>, current: Seq<char>)
    requires
        !s.contains('"'),
    ensures
        csv_fields(s, false, current) == text::split_on(s, ',').update(
            0,
            current + text::split_on(s, ',')[0],
        ),
    decreases s.len(),
{
    let pieces = text::split_on(s, ',');
    text::split_on_not_empty(s, ',');
    if s.len() == 0 {
        assert(current + pieces[0] =~= current);
        assert(pieces.update(0, current) =~= seq![current]);
    } else {
        let rest = s.subrange(1, s.len() as int);
        assert(s[0] != '"');
        assert(!rest.contains('"')) by {
            if rest.contains('"') {
                let i = choose|i: int| 0 <= i < rest.len() && rest[i] == '"';
                assert(s[i + 1] == '"');
            }
        }
        let tail = text::split_on(rest, ',');
        text::split_on_not_empty(rest, ',');
        split_from_front(s, ',');
        if s[0] == ',' {
            csv_from(rest, Seq::empty());
            assert(Seq::<char>::empty() + tail[0] =~= tail[0]);
            assert(tail.update(0, tail[0]) =~= tail);
            assert(current + Seq::<char>::empty() =~= current);
            assert(csv_fields(s, false, current) =~= pieces.update(0, current + pieces[0]));
        } else {
            csv_from(rest, current.push(s[0]));
            assert(current.push(s[0]) + tail[0] =~= current + pieces[0]);
            assert(csv_fields(s, false, current) =~= pieces.update(0, current + pieces[0]));
        }
    }
}

/// The packages of `bun pm ls`: one for each line that names one, in order.
pub proof fn every_bun_line_is_read(lines: Seq<Seq<char>>)
    ensures
        bun_entries(lines) == lines.filter(|e: Seq<char>| bun_entry(e) is Some).map_values(|e: Seq<char>| bun_entry(e)->0),
    decreases lines.len(),
{
    reveal(Seq::filter);
    let wanted = |e: Seq<char>| bun_entry(e) is Some;
    let shown = |e: Seq<char>| bun_entry(e)->0;
    if lines.len() == 0 {
        assert(lines.filter(wanted).map_values(shown) =~= Seq::<ListedModel>::empty());
    } else {
        let less = lines.drop_last();
        let last = lines.last();
        every_bun_line_is_read(less);
        if wanted(last) {
            assert(lines.filter(wanted).map_values(shown) =~= less.filter(wanted).map_values(
                shown,
            ).push(shown(last)));
        }
    }
}

/// The packages of `pip list`: one for each item with a name, in order, with the
/// version that it has.
pub proof fn every_pip_item_is_read(items: Seq<json::Json>)
    ensures
        pip_entries(items) == items.filter(
            |e: json::Json|
                json::text_member(e, "name"@) is Some,
        ).map_values(
            |e: json::Json| (ListedModel { name: json::text_member(e, "name"@)->0, version: match json::text_member(e, "version"@) { Some(v) => v, None => Seq::empty() } }),
        ),
    decreases items.len(),
{
    reveal(Seq::filter);
    let wanted = |e: json::Json| json::text_member(e, "name"@) is Some;
    let shown = |e: json::Json| (ListedModel { name: json::text_member(e, "name"@)->0, version: match json::text_member(e, "version"@) { Some(v) => v, None => Seq::empty() } });
    if items.len() == 0 {
        assert(items.filter(wanted).map_values(shown) =~= Seq::<ListedModel>::empty());
    } else {
        let less = items.drop_last();
        let last = items.last();
        every_pip_item_is_read(less);
        if wanted(last) {
            assert(items.filter(wanted).map_values(shown) =~= less.filter(wanted).map_values(
                shown,
            ).push(shown(last)));
        }
    }
}

/// The files of a `RECORD`: one for each line that lists one, in order.
pub proof fn every_record_line_is_read(lines: Seq<Seq<char>>)
    ensures
        rows_in(lines) == lines.filter(|e: Seq<char>| record_row(e) is Some).map_values(|e: Seq<char>| record_row(e)->0),
    decreases lines.len(),
{
    reveal(Seq::filter);
    let wanted = |e: Seq<char>| record_row(e) is Some;
    let shown = |e: Seq<char>| record_row(e)->0;
    if lines.len() == 0 {
        assert(lines.filter(wanted).map_values(shown) =~= Seq::<(Seq<char>, Option<u64>)>::empty());
    } else {
        let less = lines.drop_last();
        let last = lines.last();
        every_record_line_is_read(less);
        if wanted(last) {
            assert(lines.filter(wanted).map_values(shown) =~= less.filter(wanted).map_values(
                shown,
            ).push(shown(last)));
        }
    }
}

/// The texts among the items: all of them, in order.
pub proof fn every_text_is_kept(items: Seq<json::Json>)
    ensures
        texts_in(items) == items.filter(
            |e: json::Json|
                e is Text,
        ).map_values(
            |e: json::Json| e->Text_0,
        ),
    decreases items.len(),
{
    reveal(Seq::filter);
    let wanted = |e: json::Json| e is Text;
    let shown = |e: json::Json| e->Text_0;
    if items.len() == 0 {
        assert(items.filter(wanted).map_values(shown) =~= Seq::<Seq<char>>::empty());
    } else {
        let less = items.drop_last();
        let last = items.last();
        every_text_is_kept(less);
        if wanted(last) {
            assert(items.filter(wanted).map_values(shown) =~= less.filter(wanted).map_values(
                shown,
            ).push(shown(last)));
        }
    }
}

/// The casks of a listing: one for each item with a token, in order.
pub proof fn every_cask_is_read(items: Seq<json::Json>)
    ensures
        casks_in(items) == items.filter(
            |e: json::Json|
                json::text_member(e, "token"@) is Some,
        ).map_values(
            |e: json::Json| cask_from(e)->0,
        ),
    decreases items.len(),
{
    reveal(Seq::filter);
    let wanted = |e: json::Json| json::text_member(e, "token"@) is Some;
    let shown = |e: json::Json| cask_from(e)->0;
    if items.len() == 0 {
        assert(items.filter(wanted).map_values(shown) =~= Seq::<CaskModel>::empty());
    } else {
        let less = items.drop_last();
        let last = items.last();
        every_cask_is_read(less);
        if wanted(last) {
            assert(items.filter(wanted).map_values(shown) =~= less.filter(wanted).map_values(
                shown,
            ).push(shown(last)));
        }
    }
}

/// The size of recorded files is what their recorded lengths add up to, and what
/// they take on disk adds up to, each as far as 64 bits hold it; what is not
/// known adds nothing.
pub proof fn recorded_sizes_add_up(rows: Seq<(Seq<char>, Option<u64>)>, room: Seq<Option<u64>>)
    requires
        rows.len() == room.len(),
    ensures
        ({
            let logical = sums::added(
                rows,
                |r: (Seq<char>, Option<u64>)|
                    if r.1 is Some {
                        r.1->0 as int
                    } else {
                        0
                    },
            );
            let allocated = sums::added(
                room,
                |r: Option<u64>|
                    if r is Some {
                        r->0 as int
                    } else {
                        0
                    },
            );
            &&& 0 <= logical && 0 <= allocated
            &&& recorded_size(rows, room).logical == if logical > u64::MAX {
                u64::MAX as int
            } else {
                logical
            }
            &&& recorded_size(rows, room).allocated == if allocated > u64::MAX {
                u64::MAX as int
            } else {
                allocated
            }
        }),
    decreases rows.len(),
{
    if rows.len() > 0 {
        recorded_sizes_add_up(rows.drop_last(), room.drop_last());
    }
}

/// The size of a cask is that of its own directory and of its apps together,
/// each part as far as 64 bits hold it.
pub proof fn apps_add_up(own: bulkstat::SizeInfo, apps: Seq<(Seq<char>, bulkstat::SizeInfo)>)
    ensures
        ({
            let logical = own.logical + sums::added(
                apps,
                |a: (Seq<char>, bulkstat::SizeInfo)| a.1.logical as int,
            );
            let allocated = own.allocated + sums::added(
                apps,
                |a: (Seq<char>, bulkstat::SizeInfo)| a.1.allocated as int,
            );
            &&& own.logical <= logical && own.allocated <= allocated
            &&& with_apps(own, apps).logical == if logical > u64::MAX {
                u64::MAX as int
            } else {
                logical
            }
            &&& with_apps(own, apps).allocated == if allocated > u64::MAX {
                u64::MAX as int
            } else {
                allocated
            }
        }),
    decreases apps.len(),
{
    if apps.len() > 0 {
        apps_add_up(own, apps.drop_last());
    }
}

/// The app that actions work on is the first that lies elsewhere than the cask's
/// own directory.
pub proof fn the_first_app_elsewhere_is_primary(
    own: Seq<char>,
    apps: Seq<(Seq<char>, bulkstat::SizeInfo)>,
)
    ensures
        match primary_app(own, apps) {
            Some(path) => exists|i: int|
                {
                    &&& 0 <= i < apps.len()
                    &&& (#[trigger] apps[i]).0 == path && paths::path_of(path) != paths::path_of(own)
                    &&& forall|k: int|
                        0 <= k < i ==> paths::path_of((#[trigger] apps[k]).0) == paths::path_of(own)
                },
            None => forall|k: int|
                0 <= k < apps.len() ==> paths::path_of((#[trigger] apps[k]).0) == paths::path_of(
                    own,
                ),
        },
    decreases apps.len(),
{
    if apps.len() > 0 {
        let less = apps.drop_last();
        the_first_app_elsewhere_is_primary(own, less);
        assert(apps[apps.len() - 1] == apps.last());
        match primary_app(own, less) {
            Some(path) => {
                let i = choose|i: int|
                    {
                        &&& 0 <= i < less.len()
                        &&& (#[trigger] less[i]).0 == path && paths::path_of(path)
                            != paths::path_of(own)
                        &&& forall|k: int|
                            0 <= k < i ==> paths::path_of((#[trigger] less[k]).0) == paths::path_of(
                                own,
                            )
                    };
                assert(apps[i] == less[i]);
                assert forall|k: int| 0 <= k < i implies paths::path_of((#[trigger] apps[k]).0)
                    == paths::path_of(own) by {
                    assert(apps[k] == less[k]);
                }
            },
            None => {
                assert forall|k: int| 0 <= k < less.len() implies paths::path_of(
                    (#[trigger] apps[k]).0,
                ) == paths::path_of(own) by {
                    assert(apps[k] == less[k]);
                }
            },
        }
    }
}

/// A crate's programs: the place of the first that is there, and the sizes of
/// those that are there and have one, added up as far as 64 bits hold them.
pub proof fn programs_add_up(dir: Seq<char>, bins: Seq<Seq<char>>, facts: Seq<BinFacts>)
    requires
        bins.len() == facts.len(),
    ensures
        ({
            let (path, size) = bins_found(dir, bins, facts);
            let counts = |f: BinFacts| f.exists && f.size is Some;
            let logical = sums::added(
                facts,
                |f: BinFacts|
                    if counts(f) {
                        f.size->0.logical as int
                    } else {
                        0
                    },
            );
            let allocated = sums::added(
                facts,
                |f: BinFacts|
                    if counts(f) {
                        f.size->0.allocated as int
                    } else {
                        0
                    },
            );
            &&& 0 <= logical && 0 <= allocated
            &&& size is Some <==> exists|i: int| 0 <= i < facts.len() && counts(#[trigger] facts[i])
            &&& size is None ==> logical == 0 && allocated == 0
            &&& size is Some ==> size->0.logical == (if logical > u64::MAX {
                u64::MAX as int
            } else {
                logical
            }) && size->0.allocated == (if allocated > u64::MAX {
                u64::MAX as int
            } else {
                allocated
            })
            &&& match path {
                Some(p) => exists|i: int|
                    {
                        &&& 0 <= i < facts.len()
                        &&& (#[trigger] facts[i]).exists && p == paths::join_text(dir, bins[i])
                        &&& forall|k: int| 0 <= k < i ==> !(#[trigger] facts[k]).exists
                    },
                None => forall|k: int| 0 <= k < facts.len() ==> !(#[trigger] facts[k]).exists,
            }
        }),
    decreases bins.len(),
{
    let counts = |f: BinFacts| f.exists && f.size is Some;
    if bins.len() > 0 {
        let (less, some) = (bins.drop_last(), facts.drop_last());
        programs_add_up(dir, less, some);
        let (path, size) = bins_found(dir, less, some);
        let last = facts.len() - 1;
        assert(facts[last] == facts.last() && bins[last] == bins.last());
        assert forall|k: int| 0 <= k < last implies #[trigger] facts[k] == some[k] && bins[k]
            == less[k] by {}
        if exists|i: int| 0 <= i < some.len() && counts(#[trigger] some[i]) {
            let i = choose|i: int| 0 <= i < some.len() && counts(#[trigger] some[i]);
            assert(counts(facts[i]));
        }
        if counts(facts.last()) {
            assert(counts(facts[last]));
        }
        if exists|i: int| 0 <= i < facts.len() && counts(#[trigger] facts[i]) {
            let i = choose|i: int| 0 <= i < facts.len() && counts(#[trigger] facts[i]);
            if i < last {
                assert(counts(some[i]));
            }
        }
        match path {
            Some(p) => {
                let i = choose|i: int|
                    {
                        &&& 0 <= i < some.len()
                        &&& (#[trigger] some[i]).exists && p == paths::join_text(dir, less[i])
                        &&& forall|k: int| 0 <= k < i ==> !(#[trigger] some[k]).exists
                    };
                assert(facts[i].exists && p == paths::join_text(dir, bins[i]));
            },
            None => {
                assert forall|k: int| 0 <= k < last implies !(#[trigger] facts[k]).exists by {
                    assert(!some[k].exists);
                }
            },
        }
    }
}

/// The version of a formula that is taken is one that was changed last: none was
/// changed later, and those behind it in the list were changed earlier.
pub proof fn the_latest_version_is_taken(names: Seq<Seq<char>>, times: Seq<Option<i128>>, i: int)
    requires
        names.len() == times.len(),
        0 <= i < names.len(),
    ensures
        ({
            let at = latest(names, times) as int;
            let later = |a: Option<i128>, b: Option<i128>|
                match (a, b) {
                    (Some(x), Some(y)) => x > y,
                    (Some(_), None) => true,
                    _ => false,
                };
            &&& at < names.len()
            &&& !later(times[i], times[at])
            &&& i > at ==> later(times[at], times[i])
        }),
    decreases names.len(),
{
    if names.len() > 1 {
        let (less, some) = (names.drop_last(), times.drop_last());
        let last = names.len() - 1;
        let before = latest(less, some) as int;
        the_latest_version_is_taken(less, some, 0);
        if i < last {
            the_latest_version_is_taken(less, some, i);
            assert(some[i] == times[i]);
        }
        assert(some[before] == times[before]);
    }
}

/// A line that shows a package of bun, behind what draws the tree: the name, an
/// at-sign and the version, of which the name may hold further at-signs.
pub proof fn bun_lines_are_name_and_version(
    tree: Seq<char>,
    name: Seq<char>,
    version: Seq<char>,
)
    requires
        forall|i: int| 0 <= i < tree.len() ==> !alphanumeric(#[trigger] tree[i]) && tree[i] != '@',
        name.len() > 0 && (alphanumeric(name[0]) || name[0] == '@'),
        !version.contains('@'),
    ensures
        bun_entry(tree + name + seq!['@'] + version) == Some(ListedModel { name, version }),
{
    let shown = name + seq!['@'] + version;
    let line = tree + name + seq!['@'] + version;
    assert(line =~= tree + shown);
    assert(line[tree.len() + name.len() as int] == '@');
    assert(line.contains('@'));
    tree_is_cut(tree, shown);
    the_last_place_is_last(name, version);
    assert(shown.subrange(0, name.len() as int) =~= name);
    assert(shown.subrange(name.len() as int + 1, shown.len() as int) =~= version);
}

proof fn tree_is_cut(tree: Seq<char>, shown: Seq<char>)
    requires
        forall|i: int| 0 <= i < tree.len() ==> !alphanumeric(#[trigger] tree[i]) && tree[i] != '@',
        shown.len() > 0 && (alphanumeric(shown[0]) || shown[0] == '@'),
    ensures
        without_tree(tree + shown) == shown,
    decreases tree.len(),
{
    let line = tree + shown;
    if tree.len() == 0 {
        assert(line =~= shown);
    } else {
        let tail = tree.subrange(1, tree.len() as int);
        assert forall|i: int| 0 <= i < tail.len() implies !alphanumeric(#[trigger] tail[i])
            && tail[i] != '@' by {
            assert(tail[i] == tree[i + 1]);
        }
        tree_is_cut(tail, shown);
        assert(line[0] == tree[0]);
        assert(line.subrange(1, line.len() as int) =~= tail + shown);
    }
}

proof fn the_last_place_is_last(name: Seq<char>, version: Seq<char>)
    requires
        !version.contains('@'),
    ensures
        last_place(name + seq!['@'] + version, '@') == name.len(),
    decreases version.len(),
{
    let s = name + seq!['@'] + version;
    if version.len() == 0 {
        assert(s.last() == '@');
    } else {
        let less = version.drop_last();
        assert(version[version.len() - 1] != '@');
        assert forall|i: int| 0 <= i < less.len() implies less[i] != '@' by {
            assert(version.contains(version[i]));
        }
        the_last_place_is_last(name, less);
        assert(s.drop_last() =~= name + seq!['@'] + less);
        assert(s.last() == version.last());
    }
}

/// The programs that indented lines name.
pub open spec fn programs_in(lines: Seq<Seq<char>>) -> Seq<Seq<char>>
    decreases lines.len(),
{
    if lines.len() == 0 {
        Seq::empty()
    } else {
        match program_in(text::words_of(lines.last())) {
            Some(p) => programs_in(lines.drop_last()).push(p),
            None => programs_in(lines.drop_last()),
        }
    }
}

/// In the output of `cargo install --list` a line that is not indented begins a
/// crate, with its name and its version, and the indented lines behind it name
/// its programs: the crates before it stay as they were.
pub proof fn every_crate_is_read(
    before: Seq<Seq<char>>,
    header: Seq<char>,
    bins: Seq<Seq<char>>,
)
    requires
        header.len() > 0 && header[0] != ' ' && header[0] != '\t',
        text::words_of(header).len() > 0,
        forall|i: int|
            0 <= i < bins.len() ==> (#[trigger] bins[i]).len() > 0 && (bins[i][0] == ' '
                || bins[i][0] == '\t'),
    ensures
        with_current(cargo_reading(before.push(header) + bins)) == with_current(
            cargo_reading(before),
        ).push(
            CargoModel {
                name: text::words_of(header)[0],
                version: if text::words_of(header).len() > 1 {
                    cargo_version(text::words_of(header)[1])
                } else {
                    Seq::empty()
                },
                bins: programs_in(bins),
            },
        ),
{
    crate_is_current(before, header, bins);
}

proof fn crate_is_current(before: Seq<Seq<char>>, header: Seq<char>, bins: Seq<Seq<char>>)
    requires
        header.len() > 0 && header[0] != ' ' && header[0] != '\t',
        text::words_of(header).len() > 0,
        forall|i: int|
            0 <= i < bins.len() ==> (#[trigger] bins[i]).len() > 0 && (bins[i][0] == ' '
                || bins[i][0] == '\t'),
    ensures
        ({
            let r = cargo_reading(before.push(header) + bins);
            &&& r.done == with_current(cargo_reading(before))
            &&& r.current.name == text::words_of(header)[0]
            &&& r.current.version == if text::words_of(header).len() > 1 {
                cargo_version(text::words_of(header)[1])
            } else {
                Seq::empty()
            }
            &&& r.current.name.len() > 0
            &&& r.current.bins == programs_in(bins)
        }),
    decreases bins.len(),
{
    text::words_are_what_space_leaves(header);
    let all = before.push(header) + bins;
    if bins.len() == 0 {
        assert(all =~= before.push(header));
        assert(before.push(header).drop_last() =~= before);
    } else {
        let less = bins.drop_last();
        assert forall|i: int| 0 <= i < less.len() implies (#[trigger] less[i]).len() > 0 && (
        less[i][0] == ' ' || less[i][0] == '\t') by {
            assert(less[i] == bins[i]);
        }
        crate_is_current(before, header, less);
        assert(all.drop_last() =~= before.push(header) + less);
        assert(bins[bins.len() - 1] == bins.last());
        assert(all.last() == bins.last());
    }
}

/// A field in quotes, with every quote in it written twice.
pub open spec fn in_quotes(field: Seq<char>) -> Seq<char>
    decreases field.len(),
{
    if field.len() == 0 {
        seq!['"']
    } else {
        (if field[0] == '"' {
            seq!['"', '"']
        } else {
            seq![field[0]]
        }) + in_quotes(field.subrange(1, field.len() as int))
    }
}

/// A quoted field is read as it was, commas and quotes in it included, and ends
/// at the comma behind it or at the end of the line.
pub proof fn quoted_fields_are_read_back(field: Seq<char>, rest: Seq<char>)
    ensures
        csv_fields(seq!['"'] + in_quotes(field) + seq![','] + rest, false, Seq::empty()) == seq![
            field,
        ] + csv_fields(rest, false, Seq::empty()),
        csv_fields(seq!['"'] + in_quotes(field), false, Seq::empty()) == seq![field],
{
    let none = Seq::<char>::empty();
    let a = seq!['"'] + in_quotes(field) + seq![','] + rest;
    assert(a.subrange(1, a.len() as int) =~= in_quotes(field) + (seq![','] + rest));
    let b = seq!['"'] + in_quotes(field);
    assert(b.subrange(1, b.len() as int) =~= in_quotes(field) + none);
    assert(a[0] == '"' && b[0] == '"');
    quotes_are_undone(field, seq![','] + rest, none);
    quotes_are_undone(field, none, none);
    assert(none + field =~= field);
    let c = seq![','] + rest;
    assert(c.subrange(1, c.len() as int) =~= rest);
    assert(c[0] == ',');
}

proof fn quotes_are_undone(field: Seq<char>, rest: Seq<char>, current: Seq<char>)
    requires
        rest.len() == 0 || rest[0] != '"',
    ensures
        csv_fields(in_quotes(field) + rest, true, current) == csv_fields(
            rest,
            false,
            current + field,
        ),
    decreases field.len(),
{
    let s = in_quotes(field) + rest;
    if field.len() == 0 {
        assert(s[0] == '"');
        assert(s.subrange(1, s.len() as int) =~= rest);
        assert(current + field =~= current);
    } else {
        let tail = field.subrange(1, field.len() as int);
        let c = field[0];
        quotes_are_undone(tail, rest, current.push(c));
        assert(current.push(c) + tail =~= current + field);
        if c == '"' {
            assert(s =~= seq!['"', '"'] + (in_quotes(tail) + rest));
            let after = s.subrange(1, s.len() as int);
            assert(s[0] == '"' && after[0] == '"');
            assert(after.subrange(1, after.len() as int) =~= in_quotes(tail) + rest);
        } else {
            assert(s =~= seq![c] + (in_quotes(tail) + rest));
            assert(s[0] == c);
            assert(s.subrange(1, s.len() as int) =~= in_quotes(tail) + rest);
        }
    }
}

/// The apps of several artifacts are those of the first, all the texts of its
/// list, and then those of the others.
pub proof fn every_app_is_named(first: json::Json, artifacts: Seq<json::Json>)
    ensures
        apps_in(seq![first] + artifacts) == (match json::list_member(first, "app"@) {
            Some(items) => items.filter(|e: json::Json| e is Text).map_values(
                |e: json::Json| e->Text_0,
            ),
            None => Seq::empty(),
        }) + apps_in(artifacts),
    decreases artifacts.len(),
{
    let all = seq![first] + artifacts;
    if artifacts.len() == 0 {
        let none = Seq::<json::Json>::empty();
        assert(all.drop_last() =~= none);
        assert(apps_in(none) =~= Seq::empty());
        assert(all.last() == first);
        match json::list_member(first, "app"@) {
            Some(items) => {
                every_text_is_kept(items);
            },
            None => {},
        }
    } else {
        every_app_is_named(first, artifacts.drop_last());
        assert(all.drop_last() =~= seq![first] + artifacts.drop_last());
        assert(all.last() == artifacts.last());
    }
}

/// The traces of a package: the first directory with its metadata gives its size
/// and its place, and where none has them the first directory with its name gives
/// the place alone.
pub proof fn the_first_trace_decides(traces: Seq<TracesModel>, i: int)
    requires
        0 <= i < traces.len(),
    ensures
        traces[i].dist_info && (forall|k: int| 0 <= k < i ==> !(#[trigger] traces[k]).dist_info)
            ==> pip_found(traces).0 == traces[i].size && pip_found(traces).1 == (if traces[i].top_level
            is Some {
            traces[i].top_level
        } else {
            traces[i].inferred
        }),
        (forall|k: int| 0 <= k < traces.len() ==> !(#[trigger] traces[k]).dist_info)
            && traces[i].inferred is Some && (forall|k: int|
            0 <= k < i ==> (#[trigger] traces[k]).inferred is None) ==> pip_found(traces) == (
            None::<bulkstat::SizeInfo>,
            traces[i].inferred,
        ),
    decreases traces.len(),
{
    let rest = traces.subrange(1, traces.len() as int);
    assert forall|k: int| 0 <= k < rest.len() implies #[trigger] rest[k] == traces[k + 1] by {}
    if i > 0 {
        the_first_trace_decides(rest, i - 1);
        assert(rest[i - 1] == traces[i]);
        if traces[i].dist_info {
            assert(has_metadata(rest));
        }
        if forall|k: int| 0 <= k < traces.len() ==> !(#[trigger] traces[k]).dist_info {
            assert forall|k: int| 0 <= k < rest.len() implies !(#[trigger] rest[k]).dist_info by {
                assert(!traces[k + 1].dist_info);
            }
        }
        if forall|k: int| 0 <= k < i ==> !(#[trigger] traces[k]).dist_info {
            assert(!traces[0].dist_info);
            assert forall|k: int| 0 <= k < i - 1 implies !(#[trigger] rest[k]).dist_info by {
                assert(!traces[k + 1].dist_info);
            }
        }
        if forall|k: int| 0 <= k < i ==> (#[trigger] traces[k]).inferred is None {
            assert(traces[0].inferred is None);
            assert forall|k: int| 0 <= k < i - 1 implies (#[trigger] rest[k]).inferred is None by {
                assert(traces[k + 1].inferred is None);
            }
        }
    } else if forall|k: int| 0 <= k < traces.len() ==> !(#[trigger] traces[k]).dist_info {
        assert forall|k: int| 0 <= k < rest.len() implies !(#[trigger] rest[k]).dist_info by {
            assert(!traces[k + 1].dist_info);
        }
        assert(!traces[0].dist_info);
        assert(!has_metadata(rest));
    }
}

/// A line of a `RECORD` is read as it was written: the path in quotes, a
/// checksum and the length, up to what 64 bits hold.
pub proof fn record_lines_are_read_back(path: Seq<char>, sum: Seq<char>, n: u64)
    requires
        path.len() > 0 && text::trimmed(path) == path,
        !sum.contains(',') && !sum.contains('"'),
    ensures
        record_row(
            seq!['"'] + in_quotes(path) + seq![','] + (sum + seq![','] + text::decimal(n as nat)),
        ) == Some((path, Some(n))),
{
    let digits = text::decimal(n as nat);
    let rest = sum + seq![','] + digits;
    let line = seq!['"'] + in_quotes(path) + seq![','] + rest;
    let none = Seq::<char>::empty();
    quoted_fields_are_read_back(path, rest);
    field_ends_at_comma(sum, digits, none);
    text::decimal_is_digits(n as nat);
    text::written_numbers_are_read_back(n as nat, u64::MAX as nat);
    assert forall|i: int| 0 <= i < digits.len() implies digits[i] != ',' && digits[i] != '"' by {
        assert(text::is_digit(digits[i]));
    }
    last_field(digits, none);
    assert(none + sum =~= sum && none + digits =~= digits);
    assert(csv_fields(line, false, none) =~= seq![path, sum, digits]);
    assert(text::is_digit(digits[0]) && text::is_digit(digits[digits.len() - 1]));
    assert(text::trimmed(digits) == digits);
    assert(line[0] == '"');
    assert(line.last() == digits.last());
    assert(text::trimmed(line) == line);
}

proof fn field_ends_at_comma(field: Seq<char>, rest: Seq<char>, current: Seq<char>)
    requires
        !field.contains(',') && !field.contains('"'),
    ensures
        csv_fields(field + seq![','] + rest, false, current) == seq![current + field] + csv_fields(
            rest,
            false,
            Seq::empty(),
        ),
    decreases field.len(),
{
    let s = field + seq![','] + rest;
    if field.len() == 0 {
        assert(s[0] == ',');
        assert(s.subrange(1, s.len() as int) =~= rest);
        assert(current + field =~= current);
    } else {
        let tail = field.subrange(1, field.len() as int);
        assert(field.contains(field[0]));
        assert forall|i: int| 0 <= i < tail.len() implies tail[i] != ',' && tail[i] != '"' by {
            assert(field.contains(field[i + 1]));
        }
        field_ends_at_comma(tail, rest, current.push(field[0]));
        assert(s[0] == field[0]);
        assert(s.subrange(1, s.len() as int) =~= tail + seq![','] + rest);
        assert(current.push(field[0]) + tail =~= current + field);
    }
}

proof fn last_field(field: Seq<char>, current: Seq<char>)
    requires
        !field.contains(',') && !field.contains('"'),
    ensures
        csv_fields(field, false, current) == seq![current + field],
    decreases field.len(),
{
    if field.len() == 0 {
        assert(current + field =~= current);
    } else {
        let tail = field.subrange(1, field.len() as int);
        assert(field.contains(field[0]));
        assert forall|i: int| 0 <= i < tail.len() implies tail[i] != ',' && tail[i] != '"' by {
            assert(field.contains(field[i + 1]));
        }
        last_field(tail, current.push(field[0]));
        assert(current.push(field[0]) + tail =~= current + field);
    }
}

} // verus!
