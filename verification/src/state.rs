//! The persistent cache of directory sizes.

use crate::bulkstat;
use crate::history;
use crate::json;
use crate::paths;
use crate::sorting;
use crate::text;
use vstd::prelude::*;

verus! {

/// How many sizes are kept.
pub const SIZE_CACHE_MAX_ENTRIES: usize = 50_000;

pub const SIZE_CACHE_VERSION: u64 = 1;

/// Where the program keeps its state, below the home directory.
pub fn state_dir(home: &str) -> (dir: String)
    ensures
        dir@ == paths::join_text(home@, "Library/Application Support/diskr"@),
{
    paths::path_join(home, "Library/Application Support/diskr")
}

/// The file that holds the size cache.
pub fn size_cache_file(home: &str) -> (file: String)
    ensures
        file@ == paths::join_text(
            paths::join_text(home@, "Library/Application Support/diskr"@),
            "size-cache.json"@,
        ),
{
    paths::path_join(state_dir(home).as_str(), "size-cache.json")
}

/// The file that holds the saved baselines.
pub fn history_file(home: &str) -> (file: String)
    ensures
        file@ == paths::join_text(
            paths::join_text(home@, "Library/Application Support/diskr"@),
            "history.json"@,
        ),
{
    paths::path_join(state_dir(home).as_str(), "history.json")
}

/// The file that holds the last seen file system event.
pub fn fsevents_file(home: &str) -> (file: String)
    ensures
        file@ == paths::join_text(
            paths::join_text(home@, "Library/Application Support/diskr"@),
            "fsevents.json"@,
        ),
{
    paths::path_join(state_dir(home).as_str(), "fsevents.json")
}

/// A directory's size as it was when last scanned.
#[derive(Debug)]
pub struct CachedSize {
    pub path: String,
    pub size: bulkstat::SizeInfo,
    pub inaccessible: u32,
    /// Seconds since the Unix epoch.
    pub scanned_at: u64,
}

#[verifier::ext_equal]
pub struct CachedModel {
    pub path: Seq<char>,
    pub size: bulkstat::SizeInfo,
    pub inaccessible: u32,
    pub scanned_at: u64,
}

impl View for CachedSize {
    type V = CachedModel;

    open spec fn view(&self) -> CachedModel {
        CachedModel {
            path: self.path@,
            size: self.size,
            inaccessible: self.inaccessible,
            scanned_at: self.scanned_at,
        }
    }
}

impl Clone for CachedSize {
    fn clone(&self) -> (r: CachedSize)
        ensures
            r@ == self@,
    {
        CachedSize {
            path: self.path.clone(),
            size: self.size,
            inaccessible: self.inaccessible,
            scanned_at: self.scanned_at,
        }
    }
}

/// Why a size cache could not be used.
#[derive(Clone, Copy, Debug, PartialEq, Eq, Structural)]
pub enum CacheError {
    /// The file is not JSON.
    Malformed,
    /// The file has another version.
    UnexpectedVersion,
    /// The file lists no entries.
    MissingEntries,
}

impl CacheError {
    /// What is wrong with the size cache in `file`.
    pub open spec fn text(self, file: Seq<char>) -> Seq<char> {
        match self {
            CacheError::Malformed => "parse "@ + file + " (delete it to reset cache)"@,
            CacheError::UnexpectedVersion => "unexpected size-cache version in "@ + file
                + " (delete it to reset cache)"@,
            CacheError::MissingEntries => "missing entries in "@ + file,
        }
    }

    pub fn message(self, file: &str) -> (r: String)
        ensures
            r@ == self.text(file@),
    {
        match self {
            CacheError::Malformed => text::join3("parse ", file, " (delete it to reset cache)"),
            CacheError::UnexpectedVersion => text::join3(
                "unexpected size-cache version in ",
                file,
                " (delete it to reset cache)",
            ),
            CacheError::MissingEntries => text::join2("missing entries in ", file),
        }
    }
}

// ---------------------------------------------------------------------------
// Writing
// ---------------------------------------------------------------------------

pub open spec fn cached_json(entry: CachedModel) -> json::Json {
    json::Json::Object(
        json::object_of(
            seq![
                ("path"@, json::Json::Text(entry.path)),
                ("logical"@, json::Json::Unsigned(entry.size.logical)),
                ("allocated"@, json::Json::Unsigned(entry.size.allocated)),
                ("inaccessible"@, json::Json::Unsigned(entry.inaccessible as u64)),
                ("scanned_at"@, json::Json::Unsigned(entry.scanned_at)),
            ],
        ),
    )
}

/// A size cache as it is saved.
pub open spec fn cache_json(entries: Seq<CachedModel>) -> json::Json {
    json::Json::Object(
        json::object_of(
            seq![
                ("version"@, json::Json::Unsigned(SIZE_CACHE_VERSION)),
                (
                    "entries"@,
                    json::Json::List(entries.map_values(|e: CachedModel| cached_json(e))),
                ),
            ],
        ),
    )
}

fn cached_to_json(entry: &CachedSize) -> (r: serde_json::Value)
    ensures
        json::json_model(r) == cached_json(entry@),
{
    let mut pairs = json::no_members();
    json::put(&mut pairs, "path", json::of_text(entry.path.as_str()));
    json::put(&mut pairs, "logical", json::of_number(entry.size.logical));
    json::put(&mut pairs, "allocated", json::of_number(entry.size.allocated));
    json::put(&mut pairs, "inaccessible", json::of_number(entry.inaccessible as u64));
    json::put(&mut pairs, "scanned_at", json::of_number(entry.scanned_at));
    let ghost e = entry@;
    assert(json::pair_models(pairs@) =~= seq![
        ("path"@, json::Json::Text(e.path)),
        ("logical"@, json::Json::Unsigned(e.size.logical)),
        ("allocated"@, json::Json::Unsigned(e.size.allocated)),
        ("inaccessible"@, json::Json::Unsigned(e.inaccessible as u64)),
        ("scanned_at"@, json::Json::Unsigned(e.scanned_at)),
    ]);
    json::of_members(pairs)
}

/// A size cache as it is saved.
pub fn size_cache_to_json(entries: &Vec<CachedSize>) -> (r: serde_json::Value)
    ensures
        json::json_model(r) == cache_json(sorting::views(entries@)),
{
    let ghost all = sorting::views(entries@).map_values(|e: CachedModel| cached_json(e));
    let mut items: Vec<serde_json::Value> = Vec::new();
    let mut i: usize = 0;
    assert(json::models(items@) =~= all.take(0));
    while i < entries.len()
        invariant
            i <= entries@.len(),
            all == sorting::views(entries@).map_values(|e: CachedModel| cached_json(e)),
            json::models(items@) == all.take(i as int),
        decreases entries@.len() - i,
    {
        let item = cached_to_json(&entries[i]);
        proof {
            json::models_push(items@, item);
            assert(all.take(i + 1) =~= all.take(i as int).push(all[i as int]));
        }
        items.push(item);
        i += 1;
    }
    assert(all.take(all.len() as int) =~= all);
    let mut pairs = json::no_members();
    json::put(&mut pairs, "version", json::of_number(SIZE_CACHE_VERSION));
    json::put(&mut pairs, "entries", json::of_list(items));
    assert(json::pair_models(pairs@) =~= seq![
        ("version"@, json::Json::Unsigned(SIZE_CACHE_VERSION)),
        ("entries"@, json::Json::List(all)),
    ]);
    json::of_members(pairs)
}

// ---------------------------------------------------------------------------
// Reading
// ---------------------------------------------------------------------------

/// The size that a JSON value describes. It needs a path, both sizes and the
/// time of the scan; unreadable directories are optional.
pub open spec fn cached_from(value: json::Json) -> Option<CachedModel> {
    let path = json::text_member(value, "path"@);
    let logical = json::number_member(value, "logical"@);
    let allocated = json::number_member(value, "allocated"@);
    let scanned_at = json::number_member(value, "scanned_at"@);
    if path is Some && path->0.len() > 0 && logical is Some && allocated is Some && scanned_at
        is Some {
        Some(
            CachedModel {
                path: path->0,
                size: bulkstat::SizeInfo { logical: logical->0, allocated: allocated->0 },
                inaccessible: history::count_or_zero(
                    json::number_member(value, "inaccessible"@),
                ),
                scanned_at: scanned_at->0,
            },
        )
    } else {
        None
    }
}

/// The sizes that a list of JSON values describes; what describes none is left
/// out.
pub open spec fn all_cached_from(items: Seq<json::Json>) -> Seq<CachedModel>
    decreases items.len(),
{
    if items.len() == 0 {
        Seq::empty()
    } else {
        let before = all_cached_from(items.drop_last());
        match cached_from(items.last()) {
            Some(entry) => before.push(entry),
            None => before,
        }
    }
}

/// The cache that a JSON value describes.
pub open spec fn cache_from(value: json::Json) -> Result<Seq<CachedModel>, CacheError> {
    if history::number_or_zero(json::number_member(value, "version"@)) != SIZE_CACHE_VERSION {
        Err(CacheError::UnexpectedVersion)
    } else {
        match json::list_member(value, "entries"@) {
            Some(items) => Ok(all_cached_from(items)),
            None => Err(CacheError::MissingEntries),
        }
    }
}

/// The cache in a file: empty where there is no file.
pub open spec fn cache_of(file: Option<Seq<char>>) -> Result<Seq<CachedModel>, CacheError> {
    match file {
        None => Ok(Seq::empty()),
        Some(t) => match json::json_parsed(t) {
            None => Err(CacheError::Malformed),
            Some(value) => cache_from(value),
        },
    }
}

pub open spec fn read_cache(r: Result<Vec<CachedSize>, CacheError>) -> Result<
    Seq<CachedModel>,
    CacheError,
> {
    match r {
        Ok(list) => Ok(sorting::views(list@)),
        Err(e) => Err(e),
    }
}

/// The size that a saved JSON value describes.
pub fn cached_size_from_json(value: &serde_json::Value) -> (r: Option<CachedSize>)
    ensures
        match r {
            Some(entry) => cached_from(json::json_model(*value)) == Some(entry@),
            None => cached_from(json::json_model(*value)) is None,
        },
{
    let path = match json::get_text(value, "path") {
        Some(p) => p,
        None => return None,
    };
    if path.is_empty() {
        return None;
    }
    let logical: u64 = match json::get_number(value, "logical") {
        Some(n) => n,
        None => return None,
    };
    let allocated: u64 = match json::get_number(value, "allocated") {
        Some(n) => n,
        None => return None,
    };
    let scanned_at: u64 = match json::get_number(value, "scanned_at") {
        Some(n) => n,
        None => return None,
    };
    let inaccessible = history::get_count(value, "inaccessible");
    Some(
        CachedSize {
            path: path.to_owned(),
            size: bulkstat::SizeInfo { logical, allocated },
            inaccessible,
            scanned_at,
        },
    )
}

/// The cache that a parsed JSON value describes.
pub fn size_cache_from_json(value: &serde_json::Value) -> (r: Result<Vec<CachedSize>, CacheError>)
    ensures
        read_cache(r) == cache_from(json::json_model(*value)),
{
    let version: u64 = match json::get_number(value, "version") {
        Some(n) => n,
        None => 0,
    };
    if version != SIZE_CACHE_VERSION {
        return Err(CacheError::UnexpectedVersion);
    }
    let items = match json::get_list(value, "entries") {
        Some(items) => items,
        None => return Err(CacheError::MissingEntries),
    };
    let ghost all = json::models(items@);
    let mut list: Vec<CachedSize> = Vec::new();
    let mut i: usize = 0;
    assert(all.take(0) =~= Seq::<json::Json>::empty());
    assert(sorting::views(list@) =~= Seq::<CachedModel>::empty());
    while i < items.len()
        invariant
            i <= items@.len(),
            all == json::models(items@),
            sorting::views(list@) == all_cached_from(all.take(i as int)),
        decreases items@.len() - i,
    {
        assert(all.take(i + 1).drop_last() =~= all.take(i as int));
        assert(all.take(i + 1).last() == json::json_model(items@[i as int]));
        match cached_size_from_json(&items[i]) {
            Some(entry) => {
                proof {
                    sorting::views_push(list@, entry);
                }
                list.push(entry);
            },
            None => {},
        }
        i += 1;
    }
    assert(all.take(all.len() as int) =~= all);
    Ok(list)
}

/// The cache in a file.
pub fn load_size_cache(file: Option<&str>) -> (r: Result<Vec<CachedSize>, CacheError>)
    ensures
        read_cache(r) == cache_of(history::view_of(file)),
{
    match file {
        None => {
            let list: Vec<CachedSize> = Vec::new();
            assert(sorting::views(list@) =~= Seq::<CachedModel>::empty());
            Ok(list)
        },
        Some(t) => match json::parse(t) {
            None => Err(CacheError::Malformed),
            Some(value) => size_cache_from_json(&value),
        },
    }
}

/// The text of a cache file. Where every entry has a path, the file reads back
/// as what was stored.
pub fn store_size_cache(entries: &Vec<CachedSize>) -> (r: String)
    ensures
        r@ == json::json_pretty(cache_json(sorting::views(entries@))),
        (forall|i: int|
            0 <= i < entries@.len() ==> (#[trigger] entries@[i]).path@.len() > 0) ==> cache_of(
            Some(r@),
        ) == Ok::<Seq<CachedModel>, CacheError>(sorting::views(entries@)),
{
    let value = size_cache_to_json(entries);
    proof {
        let all = sorting::views(entries@);
        cache_is_plain(all);
        if forall|i: int| 0 <= i < entries@.len() ==> (#[trigger] entries@[i]).path@.len() > 0 {
            assert forall|i: int| 0 <= i < all.len() implies (#[trigger] all[i]).path.len() > 0 by {
                assert(entries@[i].path@.len() > 0);
            }
            cache_survives_json(all);
        }
    }
    json::pretty(&value)
}

// ---------------------------------------------------------------------------
// Laws
// ---------------------------------------------------------------------------

proof fn five_members(
    a: (Seq<char>, json::Json),
    b: (Seq<char>, json::Json),
    c: (Seq<char>, json::Json),
    d: (Seq<char>, json::Json),
    e: (Seq<char>, json::Json),
)
    requires
        a.0 != b.0,
        a.0 != c.0,
        a.0 != d.0,
        a.0 != e.0,
        b.0 != c.0,
        b.0 != d.0,
        b.0 != e.0,
        c.0 != d.0,
        c.0 != e.0,
        d.0 != e.0,
    ensures
        ({
            let m = json::object_of(seq![a, b, c, d, e]);
            &&& m.contains_key(a.0) && m[a.0] == a.1
            &&& m.contains_key(b.0) && m[b.0] == b.1
            &&& m.contains_key(c.0) && m[c.0] == c.1
            &&& m.contains_key(d.0) && m[d.0] == d.1
            &&& m.contains_key(e.0) && m[e.0] == e.1
            &&& forall|k: Seq<char>|
                m.contains_key(k) ==> k == a.0 || k == b.0 || k == c.0 || k == d.0 || k == e.0
        }),
{
    let s = seq![a, b, c, d, e];
    assert(s.drop_last() =~= seq![a, b, c, d]);
    assert(seq![a, b, c, d].drop_last() =~= seq![a, b, c]);
    assert(seq![a, b, c].drop_last() =~= seq![a, b]);
    assert(seq![a, b].drop_last() =~= seq![a]);
    assert(seq![a].drop_last() =~= Seq::<(Seq<char>, json::Json)>::empty());
    reveal_with_fuel(json::object_of, 6);
}

proof fn two_members(a: (Seq<char>, json::Json), b: (Seq<char>, json::Json))
    requires
        a.0 != b.0,
    ensures
        ({
            let m = json::object_of(seq![a, b]);
            &&& m.contains_key(a.0) && m[a.0] == a.1
            &&& m.contains_key(b.0) && m[b.0] == b.1
            &&& forall|k: Seq<char>| m.contains_key(k) ==> k == a.0 || k == b.0
        }),
{
    assert(seq![a, b].drop_last() =~= seq![a]);
    assert(seq![a].drop_last() =~= Seq::<(Seq<char>, json::Json)>::empty());
    reveal_with_fuel(json::object_of, 3);
}

proof fn cache_keys_differ()
    ensures
        "path"@ != "logical"@,
        "path"@ != "allocated"@,
        "path"@ != "inaccessible"@,
        "path"@ != "scanned_at"@,
        "logical"@ != "allocated"@,
        "logical"@ != "inaccessible"@,
        "logical"@ != "scanned_at"@,
        "allocated"@ != "inaccessible"@,
        "allocated"@ != "scanned_at"@,
        "inaccessible"@ != "scanned_at"@,
        "version"@ != "entries"@,
{
    reveal_strlit("path");
    reveal_strlit("logical");
    reveal_strlit("allocated");
    reveal_strlit("inaccessible");
    reveal_strlit("scanned_at");
    reveal_strlit("version");
    reveal_strlit("entries");
    assert("path"@.len() == 4 && "logical"@.len() == 7 && "allocated"@.len() == 9
        && "inaccessible"@.len() == 12 && "scanned_at"@.len() == 10);
    assert("version"@[0] != "entries"@[0]);
}

proof fn cached_members(e: CachedModel)
    ensures
        ({
            let m = cached_json(e)->Object_0;
            &&& m.contains_key("path"@) && m["path"@] == json::Json::Text(e.path)
            &&& m.contains_key("logical"@) && m["logical"@] == json::Json::Unsigned(e.size.logical)
            &&& m.contains_key("allocated"@) && m["allocated"@] == json::Json::Unsigned(
                e.size.allocated,
            )
            &&& m.contains_key("inaccessible"@) && m["inaccessible"@] == json::Json::Unsigned(
                e.inaccessible as u64,
            )
            &&& m.contains_key("scanned_at"@) && m["scanned_at"@] == json::Json::Unsigned(
                e.scanned_at,
            )
            &&& forall|k: Seq<char>|
                m.contains_key(k) ==> k == "path"@ || k == "logical"@ || k == "allocated"@ || k
                    == "inaccessible"@ || k == "scanned_at"@
        }),
{
    cache_keys_differ();
    five_members(
        ("path"@, json::Json::Text(e.path)),
        ("logical"@, json::Json::Unsigned(e.size.logical)),
        ("allocated"@, json::Json::Unsigned(e.size.allocated)),
        ("inaccessible"@, json::Json::Unsigned(e.inaccessible as u64)),
        ("scanned_at"@, json::Json::Unsigned(e.scanned_at)),
    );
}

proof fn all_cached_survive(entries: Seq<CachedModel>)
    requires
        forall|i: int| 0 <= i < entries.len() ==> (#[trigger] entries[i]).path.len() > 0,
    ensures
        all_cached_from(entries.map_values(|e: CachedModel| cached_json(e))) == entries,
    decreases entries.len(),
{
    let f = |e: CachedModel| cached_json(e);
    let all = entries.map_values(f);
    if entries.len() == 0 {
        assert(all_cached_from(all) =~= entries);
    } else {
        let rest = entries.drop_last();
        assert forall|i: int| 0 <= i < rest.len() implies (#[trigger] rest[i]).path.len() > 0 by {
            assert(rest[i] == entries[i]);
        }
        all_cached_survive(rest);
        assert(all.drop_last() =~= rest.map_values(f));
        let last = entries[entries.len() - 1];
        cached_members(last);
        assert(all.last() == cached_json(last));
        assert(cached_from(cached_json(last)) == Some(last));
        assert(entries =~= rest.push(last));
    }
}

/// A stored cache reads back as it was, provided that every entry has a path.
pub proof fn cache_survives_json(entries: Seq<CachedModel>)
    requires
        forall|i: int| 0 <= i < entries.len() ==> (#[trigger] entries[i]).path.len() > 0,
    ensures
        cache_from(cache_json(entries)) == Ok::<Seq<CachedModel>, CacheError>(entries),
{
    cache_keys_differ();
    let items = entries.map_values(|e: CachedModel| cached_json(e));
    two_members(
        ("version"@, json::Json::Unsigned(SIZE_CACHE_VERSION)),
        ("entries"@, json::Json::List(items)),
    );
    all_cached_survive(entries);
}

/// A stored cache nests no deeper than its text may.
proof fn cache_is_plain(entries: Seq<CachedModel>)
    ensures
        json::is_plain(cache_json(entries), 127),
{
    cache_keys_differ();
    let items = entries.map_values(|e: CachedModel| cached_json(e));
    two_members(
        ("version"@, json::Json::Unsigned(SIZE_CACHE_VERSION)),
        ("entries"@, json::Json::List(items)),
    );
    assert forall|i: int| 0 <= i < items.len() implies json::is_plain(
        #[trigger] items[i],
        125,
    ) by {
        cached_members(entries[i]);
        let m = cached_json(entries[i])->Object_0;
        assert forall|k: Seq<char>| m.contains_key(k) implies json::is_plain(
            #[trigger] m[k],
            124,
        ) by {}
        assert(items[i] == json::Json::Object(m));
    }
    assert(json::is_plain(json::Json::List(items), 126));
    let top = cache_json(entries)->Object_0;
    assert forall|k: Seq<char>| top.contains_key(k) implies json::is_plain(
        #[trigger] top[k],
        126,
    ) by {}
}

/// An item has all that a size needs: a path, both sizes and the time of the
/// scan.
pub open spec fn is_complete(e: json::Json) -> bool {
    &&& json::text_member(e, "path"@) is Some
    &&& json::text_member(e, "path"@)->0.len() > 0
    &&& json::number_member(e, "logical"@) is Some
    &&& json::number_member(e, "allocated"@) is Some
    &&& json::number_member(e, "scanned_at"@) is Some
}

/// What an item says, member by member.
pub open spec fn told_by(e: json::Json) -> CachedModel {
    CachedModel {
        path: json::text_member(e, "path"@)->0,
        size: bulkstat::SizeInfo {
            logical: json::number_member(e, "logical"@)->0,
            allocated: json::number_member(e, "allocated"@)->0,
        },
        inaccessible: match json::number_member(e, "inaccessible"@) {
            Some(n) => if n <= 0xffff_ffff {
                n as u32
            } else {
                0
            },
            None => 0,
        },
        scanned_at: json::number_member(e, "scanned_at"@)->0,
    }
}

/// The sizes of a saved cache: one for each complete item, in order, with what
/// stands there.
pub proof fn every_saved_size_is_read(items: Seq<json::Json>)
    ensures
        all_cached_from(items) == items.filter(|e: json::Json| is_complete(e)).map_values(
            |e: json::Json| told_by(e),
        ),
    decreases items.len(),
{
    reveal(Seq::filter);
    let wanted = |e: json::Json| is_complete(e);
    let shown = |e: json::Json| told_by(e);
    if items.len() == 0 {
        assert(items.filter(wanted).map_values(shown) =~= Seq::<CachedModel>::empty());
    } else {
        let less = items.drop_last();
        let last = items.last();
        every_saved_size_is_read(less);
        if wanted(last) {
            assert(items.filter(wanted).map_values(shown) =~= less.filter(wanted).map_values(
                shown,
            ).push(shown(last)));
        }
    }
}

} // verus!
