//! Saved scan baselines and the difference between two scans: what grew since
//! the last time.

use crate::bulkstat;
use crate::json;
use crate::sorting;
use crate::sums;
use crate::text;
use vstd::prelude::*;

verus! {

/// How many baselines are kept.
pub const HISTORY_MAX_RECORDS: usize = 512;

/// One immediate child of a scanned directory, with its recursive size.
#[derive(Debug)]
pub struct ChildSize {
    pub name: String,
    pub is_dir: bool,
    pub size: bulkstat::SizeInfo,
}

#[verifier::ext_equal]
pub struct ChildModel {
    pub name: Seq<char>,
    pub is_dir: bool,
    pub size: bulkstat::SizeInfo,
}

impl View for ChildSize {
    type V = ChildModel;

    open spec fn view(&self) -> ChildModel {
        ChildModel { name: self.name@, is_dir: self.is_dir, size: self.size }
    }
}

impl Clone for ChildSize {
    fn clone(&self) -> (r: ChildSize)
        ensures
            r@ == self@,
    {
        ChildSize { name: self.name.clone(), is_dir: self.is_dir, size: self.size }
    }
}

/// A saved scan of a directory's immediate children at a point in time.
#[derive(Debug)]
pub struct ScanRecord {
    pub path: String,
    /// Seconds since the Unix epoch when the scan was made.
    pub timestamp: u64,
    pub children: Vec<ChildSize>,
    /// Directories that could not be read; when non-zero the sizes are lower
    /// bounds.
    pub inaccessible: u32,
}

#[verifier::ext_equal]
pub struct RecordModel {
    pub path: Seq<char>,
    pub timestamp: u64,
    pub children: Seq<ChildModel>,
    pub inaccessible: u32,
}

impl View for ScanRecord {
    type V = RecordModel;

    open spec fn view(&self) -> RecordModel {
        RecordModel {
            path: self.path@,
            timestamp: self.timestamp,
            children: sorting::views(self.children@),
            inaccessible: self.inaccessible,
        }
    }
}

fn copy_children(list: &Vec<ChildSize>) -> (r: Vec<ChildSize>)
    ensures
        sorting::views(r@) == sorting::views(list@),
{
    let mut r: Vec<ChildSize> = Vec::new();
    let mut i: usize = 0;
    while i < list.len()
        invariant
            i <= list@.len(),
            sorting::views(r@) == sorting::views(list@).take(i as int),
        decreases list@.len() - i,
    {
        let item = list[i].clone();
        proof {
            sorting::views_push(r@, item);
        }
        r.push(item);
        i += 1;
        assert(sorting::views(list@).take(i as int) =~= sorting::views(list@).take(i - 1).push(
            sorting::views(list@)[i - 1],
        ));
    }
    assert(sorting::views(list@).take(list@.len() as int) =~= sorting::views(list@));
    r
}

impl Clone for ScanRecord {
    fn clone(&self) -> (r: ScanRecord)
        ensures
            r@ == self@,
    {
        ScanRecord {
            path: self.path.clone(),
            timestamp: self.timestamp,
            children: copy_children(&self.children),
            inaccessible: self.inaccessible,
        }
    }
}

/// The sizes of the children added up.
pub open spec fn children_total(children: Seq<ChildModel>) -> bulkstat::SizeInfo
    decreases children.len(),
{
    if children.len() == 0 {
        bulkstat::SizeInfo { logical: 0, allocated: 0 }
    } else {
        bulkstat::size_sum(children_total(children.drop_last()), children.last().size)
    }
}

impl ScanRecord {
    pub fn total(&self) -> (total: bulkstat::SizeInfo)
        ensures
            total == children_total(self@.children),
    {
        let ghost all = self@.children;
        let mut total = bulkstat::SizeInfo::default();
        let mut i: usize = 0;
        assert(all.take(0) =~= Seq::<ChildModel>::empty());
        while i < self.children.len()
            invariant
                i <= self.children@.len(),
                all == sorting::views(self.children@),
                total == children_total(all.take(i as int)),
            decreases self.children@.len() - i,
        {
            assert(all.take(i + 1).drop_last() =~= all.take(i as int));
            assert(all.take(i + 1).last() == self.children@[i as int]@);
            total.add_file(self.children[i].size);
            i += 1;
        }
        assert(all.take(all.len() as int) =~= all);
        total
    }
}

// ---------------------------------------------------------------------------
// Scanning
// ---------------------------------------------------------------------------

/// What a directory entry is.
#[derive(Clone, Copy, Debug, PartialEq, Eq, Structural)]
pub enum EntryKind {
    File,
    Directory,
    Symlink,
    Other,
}

/// A directory entry as the file system reports it: for a file its own size,
/// for a directory what a scan of it found.
#[derive(Debug)]
pub struct SizedEntry {
    pub name: String,
    pub kind: EntryKind,
    pub size: bulkstat::SizeInfo,
    pub inaccessible: u32,
}

#[verifier::ext_equal]
pub struct SizedEntryModel {
    pub name: Seq<char>,
    pub kind: EntryKind,
    pub size: bulkstat::SizeInfo,
    pub inaccessible: u32,
}

impl View for SizedEntry {
    type V = SizedEntryModel;

    open spec fn view(&self) -> SizedEntryModel {
        SizedEntryModel {
            name: self.name@,
            kind: self.kind,
            size: self.size,
            inaccessible: self.inaccessible,
        }
    }
}

/// The allocated size of a file with a number of 512-byte blocks.
pub fn allocated_from_blocks(blocks: u64) -> (bytes: u64)
    ensures
        bytes == bulkstat::capped(blocks * 512),
{
    if blocks > 0xffff_ffff_ffff_ffff / 512 {
        0xffff_ffff_ffff_ffff
    } else {
        blocks * 512
    }
}

/// The children among the entries: files and directories, with the unreadable
/// directories counted.
pub open spec fn children_of(entries: Seq<SizedEntryModel>) -> (Seq<ChildModel>, u32)
    decreases entries.len(),
{
    if entries.len() == 0 {
        (Seq::empty(), 0)
    } else {
        let (children, inaccessible) = children_of(entries.drop_last());
        let e = entries.last();
        if e.kind == EntryKind::File || e.kind == EntryKind::Directory {
            (
                children.push(
                    ChildModel {
                        name: e.name,
                        is_dir: e.kind == EntryKind::Directory,
                        size: e.size,
                    },
                ),
                bulkstat::capped_count(inaccessible + e.inaccessible),
            )
        } else {
            (children, inaccessible)
        }
    }
}

/// Children in the order of their names.
pub struct ByName;

impl sorting::Order<ChildModel> for ByName {
    open spec fn before(&self, a: ChildModel, b: ChildModel) -> bool {
        text::text_less(a.name, b.name)
    }

    proof fn is_order(&self, a: ChildModel, b: ChildModel, c: ChildModel) {
        text::text_order_weak(a.name, b.name, c.name);
    }
}

impl sorting::Arranged<ChildSize> for ByName {
    fn goes_before(&self, a: &ChildSize, b: &ChildSize) -> (r: bool) {
        text::text_is_less(a.name.as_str(), b.name.as_str())
    }
}

/// The record of a directory with these entries.
pub fn scan_record(path: &str, timestamp: u64, entries: &Vec<SizedEntry>) -> (r: ScanRecord)
    ensures
        r@ == (RecordModel {
            path: path@,
            timestamp,
            children: sorting::arranged(&ByName, children_of(sorting::views(entries@)).0),
            inaccessible: children_of(sorting::views(entries@)).1,
        }),
{
    let ghost all = sorting::views(entries@);
    let mut children: Vec<ChildSize> = Vec::new();
    let mut inaccessible: u32 = 0;
    let mut i: usize = 0;
    assert(all.take(0) =~= Seq::<SizedEntryModel>::empty());
    assert(sorting::views(children@) =~= Seq::<ChildModel>::empty());
    while i < entries.len()
        invariant
            i <= entries@.len(),
            all == sorting::views(entries@),
            (sorting::views(children@), inaccessible) == children_of(all.take(i as int)),
        decreases entries@.len() - i,
    {
        let e = &entries[i];
        assert(all.take(i + 1).drop_last() =~= all.take(i as int));
        assert(all.take(i + 1).last() == e@);
        if e.kind == EntryKind::File || e.kind == EntryKind::Directory {
            let child = ChildSize {
                name: e.name.clone(),
                is_dir: e.kind == EntryKind::Directory,
                size: e.size,
            };
            proof {
                sorting::views_push(children@, child);
            }
            children.push(child);
            inaccessible = inaccessible.saturating_add(e.inaccessible);
        }
        i += 1;
    }
    assert(all.take(all.len() as int) =~= all);
    let children = sorting::arrange(&ByName, children);
    ScanRecord { path: path.to_owned(), timestamp, children, inaccessible }
}

// ---------------------------------------------------------------------------
// Differences
// ---------------------------------------------------------------------------

/// A child's change between two scans. A side is `None` where the child does
/// not exist in that scan.
#[derive(Debug)]
pub struct ChildChange {
    pub name: String,
    pub before: Option<bulkstat::SizeInfo>,
    pub after: Option<bulkstat::SizeInfo>,
}

#[verifier::ext_equal]
pub struct ChangeModel {
    pub name: Seq<char>,
    pub before: Option<bulkstat::SizeInfo>,
    pub after: Option<bulkstat::SizeInfo>,
}

impl View for ChildChange {
    type V = ChangeModel;

    open spec fn view(&self) -> ChangeModel {
        ChangeModel { name: self.name@, before: self.before, after: self.after }
    }
}

/// A size, nothing standing for zero bytes.
pub open spec fn size_or_zero(size: Option<bulkstat::SizeInfo>) -> bulkstat::SizeInfo {
    match size {
        Some(s) => s,
        None => bulkstat::SizeInfo { logical: 0, allocated: 0 },
    }
}

impl ChangeModel {
    pub open spec fn allocated_delta(self) -> int {
        size_or_zero(self.after).allocated - size_or_zero(self.before).allocated
    }

    pub open spec fn logical_delta(self) -> int {
        size_or_zero(self.after).logical - size_or_zero(self.before).logical
    }
}

fn or_zero(size: Option<bulkstat::SizeInfo>) -> (r: bulkstat::SizeInfo)
    ensures
        r == size_or_zero(size),
{
    match size {
        Some(s) => s,
        None => bulkstat::SizeInfo { logical: 0, allocated: 0 },
    }
}

impl ChildChange {
    pub fn delta_allocated(&self) -> (d: i128)
        ensures
            d == self@.allocated_delta(),
            -0x1_0000_0000_0000_0000 < d < 0x1_0000_0000_0000_0000,
    {
        or_zero(self.after).allocated as i128 - or_zero(self.before).allocated as i128
    }

    pub fn delta_logical(&self) -> (d: i128)
        ensures
            d == self@.logical_delta(),
    {
        or_zero(self.after).logical as i128 - or_zero(self.before).logical as i128
    }
}

/// What changed between two scans of a directory.
#[derive(Debug)]
pub struct DiffReport {
    pub path: String,
    pub baseline_timestamp: u64,
    pub current_timestamp: u64,
    pub before_total: bulkstat::SizeInfo,
    pub after_total: bulkstat::SizeInfo,
    /// Children whose size changed, plus additions and removals, the largest
    /// movers of allocated bytes first.
    pub changes: Vec<ChildChange>,
    /// Unreadable directories of the two scans.
    pub baseline_inaccessible: u32,
    pub current_inaccessible: u32,
}

#[verifier::ext_equal]
pub struct DiffModel {
    pub path: Seq<char>,
    pub baseline_timestamp: u64,
    pub current_timestamp: u64,
    pub before_total: bulkstat::SizeInfo,
    pub after_total: bulkstat::SizeInfo,
    pub changes: Seq<ChangeModel>,
    pub baseline_inaccessible: u32,
    pub current_inaccessible: u32,
}

impl View for DiffReport {
    type V = DiffModel;

    open spec fn view(&self) -> DiffModel {
        DiffModel {
            path: self.path@,
            baseline_timestamp: self.baseline_timestamp,
            current_timestamp: self.current_timestamp,
            before_total: self.before_total,
            after_total: self.after_total,
            changes: sorting::views(self.changes@),
            baseline_inaccessible: self.baseline_inaccessible,
            current_inaccessible: self.current_inaccessible,
        }
    }
}

impl DiffReport {
    pub fn total_delta_allocated(&self) -> (d: i128)
        ensures
            d == self.after_total.allocated - self.before_total.allocated,
    {
        self.after_total.allocated as i128 - self.before_total.allocated as i128
    }

    pub fn total_delta_logical(&self) -> (d: i128)
        ensures
            d == self.after_total.logical - self.before_total.logical,
    {
        self.after_total.logical as i128 - self.before_total.logical as i128
    }
}

/// The size of the first child with a name.
pub open spec fn size_of_child(children: Seq<ChildModel>, name: Seq<char>) -> Option<
    bulkstat::SizeInfo,
>
    decreases children.len(),
{
    if children.len() == 0 {
        None
    } else if children[0].name == name {
        Some(children[0].size)
    } else {
        size_of_child(children.subrange(1, children.len() as int), name)
    }
}

/// The change of a child that exists now.
pub open spec fn change_of(before: Seq<ChildModel>, child: ChildModel) -> ChangeModel {
    ChangeModel {
        name: child.name,
        before: size_of_child(before, child.name),
        after: Some(child.size),
    }
}

/// The children that are new or whose size is not what it was, in order.
pub open spec fn changed(before: Seq<ChildModel>, after: Seq<ChildModel>) -> Seq<ChangeModel>
    decreases after.len(),
{
    if after.len() == 0 {
        Seq::empty()
    } else {
        let rest = changed(before, after.drop_last());
        let change = change_of(before, after.last());
        if change.before is None || change.allocated_delta() != 0 || change.logical_delta() != 0 {
            rest.push(change)
        } else {
            rest
        }
    }
}

/// The children that no longer exist, in order.
pub open spec fn removed(before: Seq<ChildModel>, after: Seq<ChildModel>) -> Seq<ChangeModel>
    decreases before.len(),
{
    if before.len() == 0 {
        Seq::empty()
    } else {
        let rest = removed(before.drop_last(), after);
        let child = before.last();
        if size_of_child(after, child.name) is None {
            rest.push(ChangeModel { name: child.name, before: Some(child.size), after: None })
        } else {
            rest
        }
    }
}

pub open spec fn magnitude(d: int) -> int {
    if d < 0 {
        -d
    } else {
        d
    }
}

/// Changes by how many allocated bytes moved, the most first, then by name.
pub struct LargestMove;

impl sorting::Order<ChangeModel> for LargestMove {
    open spec fn before(&self, a: ChangeModel, b: ChangeModel) -> bool {
        let x = magnitude(a.allocated_delta());
        let y = magnitude(b.allocated_delta());
        if x != y {
            x > y
        } else {
            text::text_less(a.name, b.name)
        }
    }

    proof fn is_order(&self, a: ChangeModel, b: ChangeModel, c: ChangeModel) {
        text::text_order_weak(a.name, b.name, c.name);
    }
}

fn moved(change: &ChildChange) -> (r: i128)
    ensures
        r == magnitude(change@.allocated_delta()),
{
    let d: i128 = change.delta_allocated();
    if d < 0 {
        -d
    } else {
        d
    }
}

impl sorting::Arranged<ChildChange> for LargestMove {
    fn goes_before(&self, a: &ChildChange, b: &ChildChange) -> (r: bool) {
        let x: i128 = moved(a);
        let y: i128 = moved(b);
        if x != y {
            x > y
        } else {
            text::text_is_less(a.name.as_str(), b.name.as_str())
        }
    }
}

/// The difference of two records.
pub open spec fn diff_of(before: RecordModel, after: RecordModel) -> DiffModel {
    DiffModel {
        path: after.path,
        baseline_timestamp: before.timestamp,
        current_timestamp: after.timestamp,
        before_total: children_total(before.children),
        after_total: children_total(after.children),
        changes: sorting::arranged(
            &LargestMove,
            changed(before.children, after.children) + removed(before.children, after.children),
        ),
        baseline_inaccessible: before.inaccessible,
        current_inaccessible: after.inaccessible,
    }
}

fn find_size(children: &Vec<ChildSize>, name: &str) -> (r: Option<bulkstat::SizeInfo>)
    ensures
        r == size_of_child(sorting::views(children@), name@),
{
    let ghost all = sorting::views(children@);
    let mut i: usize = 0;
    assert(all.subrange(0, all.len() as int) =~= all);
    while i < children.len()
        invariant
            i <= children@.len(),
            all == sorting::views(children@),
            size_of_child(all, name@) == size_of_child(
                all.subrange(i as int, all.len() as int),
                name@,
            ),
        decreases children@.len() - i,
    {
        let ghost rest = all.subrange(i as int, all.len() as int);
        assert(rest[0] == children@[i as int]@);
        if text::same_text(children[i].name.as_str(), name) {
            return Some(children[i].size);
        }
        assert(rest.subrange(1, rest.len() as int) =~= all.subrange(i + 1, all.len() as int));
        i += 1;
    }
    None
}

/// The difference of two records, whose children need not be sorted.
pub fn diff_records(before: &ScanRecord, after: &ScanRecord) -> (diff: DiffReport)
    ensures
        diff@ == diff_of(before@, after@),
{
    let ghost olds = before@.children;
    let ghost news = after@.children;
    let mut changes: Vec<ChildChange> = Vec::new();
    let mut i: usize = 0;
    assert(news.take(0) =~= Seq::<ChildModel>::empty());
    assert(sorting::views(changes@) =~= Seq::<ChangeModel>::empty());
    while i < after.children.len()
        invariant
            i <= after.children@.len(),
            olds == sorting::views(before.children@),
            news == sorting::views(after.children@),
            sorting::views(changes@) == changed(olds, news.take(i as int)),
        decreases after.children@.len() - i,
    {
        let child = &after.children[i];
        assert(news.take(i + 1).drop_last() =~= news.take(i as int));
        assert(news.take(i + 1).last() == child@);
        let change = ChildChange {
            name: child.name.clone(),
            before: find_size(&before.children, child.name.as_str()),
            after: Some(child.size),
        };
        if change.before.is_none() || change.delta_allocated() != 0 || change.delta_logical() != 0 {
            proof {
                sorting::views_push(changes@, change);
            }
            changes.push(change);
        }
        i += 1;
    }
    assert(news.take(news.len() as int) =~= news);
    let ghost first = changed(olds, news);
    let mut k: usize = 0;
    assert(olds.take(0) =~= Seq::<ChildModel>::empty());
    assert(first + removed(olds.take(0), news) =~= first);
    while k < before.children.len()
        invariant
            k <= before.children@.len(),
            olds == sorting::views(before.children@),
            news == sorting::views(after.children@),
            sorting::views(changes@) == first + removed(olds.take(k as int), news),
        decreases before.children@.len() - k,
    {
        let child = &before.children[k];
        assert(olds.take(k + 1).drop_last() =~= olds.take(k as int));
        assert(olds.take(k + 1).last() == child@);
        let ghost gone = removed(olds.take(k as int), news);
        if find_size(&after.children, child.name.as_str()).is_none() {
            let change = ChildChange {
                name: child.name.clone(),
                before: Some(child.size),
                after: None,
            };
            proof {
                sorting::views_push(changes@, change);
                assert((first + gone).push(change@) =~= first + gone.push(change@));
            }
            changes.push(change);
        }
        k += 1;
    }
    assert(olds.take(olds.len() as int) =~= olds);
    let changes = sorting::arrange(&LargestMove, changes);
    DiffReport {
        path: after.path.clone(),
        baseline_timestamp: before.timestamp,
        current_timestamp: after.timestamp,
        before_total: before.total(),
        after_total: after.total(),
        changes,
        baseline_inaccessible: before.inaccessible,
        current_inaccessible: after.inaccessible,
    }
}

// ---------------------------------------------------------------------------
// JSON
// ---------------------------------------------------------------------------

pub open spec fn child_json(child: ChildModel) -> json::Json {
    json::Json::Object(
        json::object_of(
            seq![
                ("name"@, json::Json::Text(child.name)),
                ("is_dir"@, json::Json::Bool(child.is_dir)),
                ("logical"@, json::Json::Unsigned(child.size.logical)),
                ("allocated"@, json::Json::Unsigned(child.size.allocated)),
            ],
        ),
    )
}

pub open spec fn children_json(children: Seq<ChildModel>) -> json::Json {
    json::Json::List(children.map_values(|c: ChildModel| child_json(c)))
}

/// A record as it is saved.
pub open spec fn record_json(record: RecordModel) -> json::Json {
    json::Json::Object(
        json::object_of(
            seq![
                ("path"@, json::Json::Text(record.path)),
                ("timestamp"@, json::Json::Unsigned(record.timestamp)),
                ("inaccessible"@, json::Json::Unsigned(record.inaccessible as u64)),
                ("children"@, children_json(record.children)),
            ],
        ),
    )
}

fn child_to_json(child: &ChildSize) -> (r: serde_json::Value)
    ensures
        json::json_model(r) == child_json(child@),
{
    let mut pairs = json::no_members();
    json::put(&mut pairs, "name", json::of_text(child.name.as_str()));
    json::put(&mut pairs, "is_dir", json::of_bool(child.is_dir));
    json::put(&mut pairs, "logical", json::of_number(child.size.logical));
    json::put(&mut pairs, "allocated", json::of_number(child.size.allocated));
    let ghost c = child@;
    assert(json::pair_models(pairs@) =~= seq![
        ("name"@, json::Json::Text(c.name)),
        ("is_dir"@, json::Json::Bool(c.is_dir)),
        ("logical"@, json::Json::Unsigned(c.size.logical)),
        ("allocated"@, json::Json::Unsigned(c.size.allocated)),
    ]);
    json::of_members(pairs)
}

pub(crate) fn children_to_json(children: &Vec<ChildSize>) -> (r: serde_json::Value)
    ensures
        json::json_model(r) == children_json(sorting::views(children@)),
{
    let ghost all = sorting::views(children@).map_values(|c: ChildModel| child_json(c));
    let mut items: Vec<serde_json::Value> = Vec::new();
    let mut i: usize = 0;
    assert(json::models(items@) =~= all.take(0));
    while i < children.len()
        invariant
            i <= children@.len(),
            all == sorting::views(children@).map_values(|c: ChildModel| child_json(c)),
            json::models(items@) == all.take(i as int),
        decreases children@.len() - i,
    {
        let item = child_to_json(&children[i]);
        proof {
            json::models_push(items@, item);
            assert(all.take(i + 1) =~= all.take(i as int).push(all[i as int]));
        }
        items.push(item);
        i += 1;
    }
    assert(all.take(all.len() as int) =~= all);
    json::of_list(items)
}

/// A record as it is saved.
pub fn record_to_json(record: &ScanRecord) -> (r: serde_json::Value)
    ensures
        json::json_model(r) == record_json(record@),
{
    let mut pairs = json::no_members();
    json::put(&mut pairs, "path", json::of_text(record.path.as_str()));
    json::put(&mut pairs, "timestamp", json::of_number(record.timestamp));
    json::put(&mut pairs, "inaccessible", json::of_number(record.inaccessible as u64));
    json::put(&mut pairs, "children", children_to_json(&record.children));
    let ghost m = record@;
    assert(json::pair_models(pairs@) =~= seq![
        ("path"@, json::Json::Text(m.path)),
        ("timestamp"@, json::Json::Unsigned(m.timestamp)),
        ("inaccessible"@, json::Json::Unsigned(m.inaccessible as u64)),
        ("children"@, children_json(m.children)),
    ]);
    json::of_members(pairs)
}

/// A number, or zero where there is none.
pub open spec fn number_or_zero(n: Option<u64>) -> u64 {
    match n {
        Some(v) => v,
        None => 0,
    }
}

/// A count of 32 bits, or zero where there is none.
pub open spec fn count_or_zero(n: Option<u64>) -> u32 {
    match n {
        Some(v) => if v <= u32::MAX {
            v as u32
        } else {
            0
        },
        None => 0,
    }
}

pub(crate) fn get_count(value: &serde_json::Value, key: &str) -> (r: u32)
    ensures
        r == count_or_zero(json::number_member(json::json_model(*value), key@)),
{
    match json::get_number(value, key) {
        Some(n) => if n <= 0xffff_ffff {
            n as u32
        } else {
            0
        },
        None => 0,
    }
}

/// The child that a JSON value describes: it needs a name, and lacks a size
/// where none is given.
pub open spec fn child_from(value: json::Json) -> Option<ChildModel> {
    match json::text_member(value, "name"@) {
        Some(name) => Some(
            ChildModel {
                name,
                is_dir: match json::bool_member(value, "is_dir"@) {
                    Some(b) => b,
                    None => false,
                },
                size: bulkstat::SizeInfo {
                    logical: number_or_zero(json::number_member(value, "logical"@)),
                    allocated: number_or_zero(json::number_member(value, "allocated"@)),
                },
            },
        ),
        None => None,
    }
}

/// The children that a list of JSON values describes.
pub open spec fn children_from(items: Seq<json::Json>) -> Seq<ChildModel>
    decreases items.len(),
{
    if items.len() == 0 {
        Seq::empty()
    } else {
        let before = children_from(items.drop_last());
        match child_from(items.last()) {
            Some(child) => before.push(child),
            None => before,
        }
    }
}

/// The record that a JSON value describes.
pub open spec fn record_from(path: Seq<char>, value: json::Json) -> RecordModel {
    RecordModel {
        path,
        timestamp: number_or_zero(json::number_member(value, "timestamp"@)),
        children: match json::list_member(value, "children"@) {
            Some(items) => children_from(items),
            None => Seq::empty(),
        },
        inaccessible: count_or_zero(json::number_member(value, "inaccessible"@)),
    }
}

fn child_from_json(value: &serde_json::Value) -> (r: Option<ChildSize>)
    ensures
        match r {
            Some(child) => child_from(json::json_model(*value)) == Some(child@),
            None => child_from(json::json_model(*value)) is None,
        },
{
    match json::get_text(value, "name") {
        Some(name) => {
            let is_dir = match json::get_bool(value, "is_dir") {
                Some(b) => b,
                None => false,
            };
            let logical: u64 = match json::get_number(value, "logical") {
                Some(n) => n,
                None => 0,
            };
            let allocated: u64 = match json::get_number(value, "allocated") {
                Some(n) => n,
                None => 0,
            };
            Some(
                ChildSize {
                    name: name.to_owned(),
                    is_dir,
                    size: bulkstat::SizeInfo { logical, allocated },
                },
            )
        },
        None => None,
    }
}

/// The record that a saved JSON value describes.
pub fn record_from_json(path: &str, value: &serde_json::Value) -> (r: ScanRecord)
    ensures
        r@ == record_from(path@, json::json_model(*value)),
{
    let timestamp: u64 = match json::get_number(value, "timestamp") {
        Some(n) => n,
        None => 0,
    };
    let mut children: Vec<ChildSize> = Vec::new();
    assert(sorting::views(children@) =~= Seq::<ChildModel>::empty());
    match json::get_list(value, "children") {
        Some(items) => {
            let ghost all = json::models(items@);
            let mut i: usize = 0;
            assert(all.take(0) =~= Seq::<json::Json>::empty());
            while i < items.len()
                invariant
                    i <= items@.len(),
                    all == json::models(items@),
                    sorting::views(children@) == children_from(all.take(i as int)),
                decreases items@.len() - i,
            {
                assert(all.take(i + 1).drop_last() =~= all.take(i as int));
                assert(all.take(i + 1).last() == json::json_model(items@[i as int]));
                match child_from_json(&items[i]) {
                    Some(child) => {
                        proof {
                            sorting::views_push(children@, child);
                        }
                        children.push(child);
                    },
                    None => {},
                }
                i += 1;
            }
            assert(all.take(all.len() as int) =~= all);
        },
        None => {},
    }
    let inaccessible = get_count(value, "inaccessible");
    ScanRecord { path: path.to_owned(), timestamp, children, inaccessible }
}

// ---------------------------------------------------------------------------
// The history file
// ---------------------------------------------------------------------------

/// Why the history could not be used.
#[derive(Clone, Copy, Debug, PartialEq, Eq, Structural)]
pub enum HistoryError {
    /// The file is not JSON.
    Malformed,
    /// The file holds something other than an object.
    UnexpectedFormat,
    /// There is no baseline for the path.
    NoBaseline,
}

impl HistoryError {
    /// What is wrong with the history in `file`, or that it lacks `path`.
    pub open spec fn text(self, file: Seq<char>, path: Seq<char>) -> Seq<char> {
        match self {
            HistoryError::Malformed => "parse "@ + file + " (delete it to reset history)"@,
            HistoryError::UnexpectedFormat => "unexpected history format in "@ + file
                + " (delete it to reset history)"@,
            HistoryError::NoBaseline => "no saved baseline for "@ + path + "; run `diskr --save "@
                + path + "` first"@,
        }
    }

    pub fn message(self, file: &str, path: &str) -> (r: String)
        ensures
            r@ == self.text(file@, path@),
    {
        match self {
            HistoryError::Malformed => text::join3("parse ", file, " (delete it to reset history)"),
            HistoryError::UnexpectedFormat => text::join3(
                "unexpected history format in ",
                file,
                " (delete it to reset history)",
            ),
            HistoryError::NoBaseline => text::join5(
                "no saved baseline for ",
                path,
                "; run `diskr --save ",
                path,
                "` first",
            ),
        }
    }
}

/// Why a path cannot be scanned.
pub open spec fn dir_problem(path: Seq<char>, exists: bool, is_dir: bool) -> Option<Seq<char>> {
    if !exists {
        Some("path does not exist: "@ + path)
    } else if !is_dir {
        Some("path is not a directory: "@ + path)
    } else {
        None
    }
}

/// Whether a path can be scanned: it takes a directory that exists.
pub fn validate_dir(path: &str, exists: bool, is_dir: bool) -> (r: Result<(), String>)
    ensures
        match r {
            Ok(_) => dir_problem(path@, exists, is_dir) is None,
            Err(e) => dir_problem(path@, exists, is_dir) == Some(e@),
        },
{
    if !exists {
        return Err(text::join2("path does not exist: ", path));
    }
    if !is_dir {
        return Err(text::join2("path is not a directory: ", path));
    }
    Ok(())
}

/// What a history file holds: nothing where there is no file.
pub open spec fn history_of(file: Option<Seq<char>>) -> Result<Map<Seq<char>, json::Json>, HistoryError> {
    match file {
        None => Ok(Map::empty()),
        Some(t) => match json::json_parsed(t) {
            None => Err(HistoryError::Malformed),
            Some(json::Json::Object(m)) => Ok(m),
            Some(_) => Err(HistoryError::UnexpectedFormat),
        },
    }
}

/// The baseline of a path in a parsed history.
pub open spec fn baseline_in(value: json::Json, path: Seq<char>) -> Result<
    Option<RecordModel>,
    HistoryError,
> {
    match value {
        json::Json::Object(m) => Ok(
            if m.contains_key(path) {
                Some(record_from(path, m[path]))
            } else {
                None
            },
        ),
        _ => Err(HistoryError::UnexpectedFormat),
    }
}

/// The baseline of a path in a history file.
pub open spec fn baseline_of(file: Option<Seq<char>>, path: Seq<char>) -> Result<
    Option<RecordModel>,
    HistoryError,
> {
    match file {
        None => Ok(None),
        Some(t) => match json::json_parsed(t) {
            None => Err(HistoryError::Malformed),
            Some(value) => baseline_in(value, path),
        },
    }
}

pub open spec fn found_baseline(r: Result<Option<ScanRecord>, HistoryError>) -> Result<
    Option<RecordModel>,
    HistoryError,
> {
    match r {
        Ok(Some(record)) => Ok(Some(record@)),
        Ok(None) => Ok(None),
        Err(e) => Err(e),
    }
}

/// The baseline of a path in a parsed history.
pub fn record_in_history(value: &serde_json::Value, path: &str) -> (r: Result<
    Option<ScanRecord>,
    HistoryError,
>)
    ensures
        found_baseline(r) == baseline_in(json::json_model(*value), path@),
{
    if json::keys(value).is_none() {
        return Err(HistoryError::UnexpectedFormat);
    }
    match json::get(value, path) {
        Some(saved) => Ok(Some(record_from_json(path, saved))),
        None => Ok(None),
    }
}

pub open spec fn view_of(file: Option<&str>) -> Option<Seq<char>> {
    match file {
        Some(t) => Some(t@),
        None => None,
    }
}

/// The saved baseline of a path, where the history file holds one.
pub fn load_record_for_path(file: Option<&str>, path: &str) -> (r: Result<
    Option<ScanRecord>,
    HistoryError,
>)
    ensures
        found_baseline(r) == baseline_of(view_of(file), path@),
{
    match file {
        None => Ok(None),
        Some(t) => match json::parse(t) {
            None => Err(HistoryError::Malformed),
            Some(value) => record_in_history(&value, path),
        },
    }
}

/// Compares a fresh scan with the saved baseline of the same path.
pub fn diff(file: Option<&str>, current: &ScanRecord) -> (r: Result<DiffReport, HistoryError>)
    ensures
        match baseline_of(view_of(file), current@.path) {
            Err(e) => r == Err::<DiffReport, HistoryError>(e),
            Ok(None) => r == Err::<DiffReport, HistoryError>(HistoryError::NoBaseline),
            Ok(Some(baseline)) => r is Ok && r->Ok_0@ == diff_of(baseline, current@),
        },
{
    match load_record_for_path(file, current.path.as_str()) {
        Err(e) => Err(e),
        Ok(None) => Err(HistoryError::NoBaseline),
        Ok(Some(baseline)) => Ok(diff_records(&baseline, current)),
    }
}

// ---------------------------------------------------------------------------
// Saving
// ---------------------------------------------------------------------------

/// When the record that a saved JSON value describes was made.
pub open spec fn saved_at(value: json::Json) -> u64 {
    number_or_zero(json::number_member(value, "timestamp"@))
}

/// Of two saved paths, `a` is the newer one; of two of one age, the one that
/// comes first.
pub open spec fn newer(m: Map<Seq<char>, json::Json>, a: Seq<char>, b: Seq<char>) -> bool {
    saved_at(m[a]) > saved_at(m[b]) || (saved_at(m[a]) == saved_at(m[b]) && text::text_less(a, b))
}

/// A saved path is kept where fewer than `limit` are newer.
pub open spec fn is_kept(m: Map<Seq<char>, json::Json>, path: Seq<char>, limit: nat) -> bool {
    m.contains_key(path) && m.dom().filter(|p: Seq<char>| newer(m, p, path)).len() < limit
}

/// The newest records of a history, as many as `limit` says.
pub open spec fn newest(m: Map<Seq<char>, json::Json>, limit: nat) -> Map<Seq<char>, json::Json> {
    m.restrict(Set::new(|p: Seq<char>| is_kept(m, p, limit)))
}

/// How many other baselines stay beside the one that is saved.
pub const OTHER_RECORDS: usize = HISTORY_MAX_RECORDS - 1;

/// A history after a record was saved: the record, and of the other paths the
/// newest.
pub open spec fn with_record(m: Map<Seq<char>, json::Json>, record: RecordModel) -> Map<
    Seq<char>,
    json::Json,
> {
    newest(m.remove(record.path), OTHER_RECORDS as nat).insert(record.path, record_json(record))
}

struct Aged {
    path: String,
    timestamp: u64,
}

impl View for Aged {
    type V = (Seq<char>, u64);

    closed spec fn view(&self) -> (Seq<char>, u64) {
        (self.path@, self.timestamp)
    }
}

struct NewestFirst;

impl sorting::Order<(Seq<char>, u64)> for NewestFirst {
    closed spec fn before(&self, a: (Seq<char>, u64), b: (Seq<char>, u64)) -> bool {
        a.1 > b.1 || (a.1 == b.1 && text::text_less(a.0, b.0))
    }

    proof fn is_order(&self, a: (Seq<char>, u64), b: (Seq<char>, u64), c: (Seq<char>, u64)) {
        text::text_order_weak(a.0, b.0, c.0);
    }
}

impl sorting::Arranged<Aged> for NewestFirst {
    fn goes_before(&self, a: &Aged, b: &Aged) -> (r: bool) {
        a.timestamp > b.timestamp || (a.timestamp == b.timestamp && text::text_is_less(
            a.path.as_str(),
            b.path.as_str(),
        ))
    }
}

/// The list holds every saved path once, with its age.
spec fn lists_history(list: Seq<(Seq<char>, u64)>, m: Map<Seq<char>, json::Json>) -> bool {
    &&& list.no_duplicates()
    &&& forall|i: int|
        0 <= i < list.len() ==> m.contains_key((#[trigger] list[i]).0) && list[i].1 == saved_at(
            m[list[i].0],
        )
    &&& forall|p: Seq<char>| #[trigger]
        m.contains_key(p) ==> list.contains((p, saved_at(m[p])))
}

/// In an arranged list of a history, the place of a path is the number of newer
/// ones.
proof fn place_is_rank(list: Seq<(Seq<char>, u64)>, m: Map<Seq<char>, json::Json>, i: int)
    requires
        lists_history(list, m),
        sorting::is_arranged(&NewestFirst, list),
        0 <= i < list.len(),
    ensures
        m.dom().filter(|p: Seq<char>| newer(m, p, list[i].0)).len() == i,
{
    let before = list.take(i).map_values(|e: (Seq<char>, u64)| e.0);
    let ahead = m.dom().filter(|p: Seq<char>| newer(m, p, list[i].0));
    assert forall|a: int, b: int| 0 <= a < b < list.len() implies list[a].0 != list[b].0 by {
        if list[a].0 == list[b].0 {
            assert(list[a] == list[b]);
        }
    }
    assert(before.no_duplicates());
    assert(before.to_set() =~= ahead) by {
        assert forall|p: Seq<char>| before.to_set().contains(p) == ahead.contains(p) by {
            if before.contains(p) {
                let k = choose|k: int| 0 <= k < before.len() && before[k] == p;
                assert(list.take(i)[k] == list[k]);
                assert(list[k].0 == p);
                assert(!sorting::Order::before(&NewestFirst, list[i], list[k]));
                text::text_order_total(list[i].0, list[k].0);
                assert(newer(m, p, list[i].0));
            }
            if ahead.contains(p) {
                assert(m.contains_key(p));
                assert(list.contains((p, saved_at(m[p]))));
                let k = choose|k: int| 0 <= k < list.len() && list[k] == (p, saved_at(m[p]));
                if k > i {
                    assert(!sorting::Order::before(&NewestFirst, list[k], list[i]));
                    assert(false);
                }
                if k == i {
                    text::text_order_total(p, p);
                    assert(false);
                }
                assert(before[k] == p);
            }
        }
    }
    before.unique_seq_to_set();
}

/// The members of the first `count` paths of a list.
spec fn members_of(
    list: Seq<(Seq<char>, u64)>,
    m: Map<Seq<char>, json::Json>,
    count: nat,
) -> Seq<(Seq<char>, json::Json)> {
    Seq::new(count, |i: int| (list[i].0, m[list[i].0]))
}

proof fn members_map(list: Seq<(Seq<char>, u64)>, m: Map<Seq<char>, json::Json>, count: nat)
    requires
        lists_history(list, m),
        count <= list.len(),
    ensures
        forall|p: Seq<char>| #[trigger]
            json::object_of(members_of(list, m, count)).contains_key(p) <==> exists|i: int|
                0 <= i < count && (#[trigger] list[i]).0 == p,
        forall|p: Seq<char>| #[trigger]
            json::object_of(members_of(list, m, count)).contains_key(p) ==> json::object_of(
                members_of(list, m, count),
            )[p] == m[p],
    decreases count,
{
    let pairs = members_of(list, m, count);
    if count > 0 {
        let less = (count - 1) as nat;
        members_map(list, m, less);
        assert(pairs.drop_last() =~= members_of(list, m, less));
        assert(pairs.last() == (list[less as int].0, m[list[less as int].0]));
        let all = json::object_of(pairs);
        let some = json::object_of(members_of(list, m, less));
        assert(all == some.insert(list[less as int].0, m[list[less as int].0]));
        assert forall|p: Seq<char>| #[trigger] all.contains_key(p) <==> exists|i: int|
            0 <= i < count && (#[trigger] list[i]).0 == p by {
            if all.contains_key(p) {
                if p == list[less as int].0 {
                } else {
                    assert(some.contains_key(p));
                }
            }
            if exists|i: int| 0 <= i < count && (#[trigger] list[i]).0 == p {
                let i = choose|i: int| 0 <= i < count && (#[trigger] list[i]).0 == p;
                if i < less {
                    assert(some.contains_key(p));
                }
            }
        }
    }
}

/// The first paths of an arranged list are the ones that are kept.
proof fn first_are_newest(
    list: Seq<(Seq<char>, u64)>,
    m: Map<Seq<char>, json::Json>,
    count: nat,
    limit: nat,
)
    requires
        lists_history(list, m),
        sorting::is_arranged(&NewestFirst, list),
        count == if list.len() <= limit {
            list.len()
        } else {
            limit
        },
    ensures
        json::object_of(members_of(list, m, count)) == newest(m, limit),
{
    let some = json::object_of(members_of(list, m, count));
    members_map(list, m, count);
    assert forall|p: Seq<char>| some.contains_key(p) == newest(m, limit).contains_key(p) by {
        if some.contains_key(p) {
            let i = choose|i: int| 0 <= i < count && (#[trigger] list[i]).0 == p;
            place_is_rank(list, m, i);
            assert(is_kept(m, p, limit));
        }
        if newest(m, limit).contains_key(p) {
            assert(is_kept(m, p, limit));
            assert(list.contains((p, saved_at(m[p]))));
            let i = choose|i: int| 0 <= i < list.len() && list[i] == (p, saved_at(m[p]));
            place_is_rank(list, m, i);
            assert(list[i].0 == p);
        }
    }
    assert(some =~= newest(m, limit));
}

/// The paths of a history with their ages, but for one path.
fn list_history(value: &Option<serde_json::Value>, path: &str) -> (r: Result<
    Vec<Aged>,
    HistoryError,
>)
    ensures
        match history_in(*value) {
            Err(e) => r == Err::<Vec<Aged>, HistoryError>(e),
            Ok(m) => r is Ok && lists_history(sorting::views(r->Ok_0@), m.remove(path@)),
        },
{
    let mut list: Vec<Aged> = Vec::new();
    let v = match value {
        None => {
            assert(sorting::views(list@) =~= Seq::<(Seq<char>, u64)>::empty());
            return Ok(list);
        },
        Some(v) => v,
    };
    let names = match json::keys(v) {
        Some(names) => names,
        None => return Err(HistoryError::UnexpectedFormat),
    };
    let ghost m = json::json_model(*v)->Object_0;
    let ghost others = m.remove(path@);
    let ghost all = text::texts(names@);
    let mut i: usize = 0;
    while i < names.len()
        invariant
            i <= names@.len(),
            all == text::texts(names@),
            json::json_model(*v) == json::Json::Object(m),
            all.to_set() == m.dom(),
            others == m.remove(path@),
            forall|a: int, b: int|
                0 <= a < b < names@.len() ==> text::text_less(
                    #[trigger] names@[a]@,
                    #[trigger] names@[b]@,
                ),
            sorting::views(list@).no_duplicates(),
            forall|k: int|
                0 <= k < list@.len() ==> others.contains_key(
                    (#[trigger] sorting::views(list@)[k]).0,
                ) && sorting::views(list@)[k].1 == saved_at(others[sorting::views(list@)[k].0]),
            forall|k: int|
                0 <= k < list@.len() ==> exists|a: int|
                    0 <= a < i && (#[trigger] sorting::views(list@)[k]).0
                        == #[trigger] names@[a]@,
            forall|a: int|
                0 <= a < i && names@[a]@ != path@ ==> sorting::views(list@).contains(
                    ((#[trigger] names@[a])@, saved_at(others[names@[a]@])),
                ),
        decreases names@.len() - i,
    {
        let name = names[i].as_str();
        let ghost held = sorting::views(list@);
        assert(all[i as int] == name@);
        assert(all.to_set().contains(name@));
        if !text::same_text(name, path) {
            let timestamp: u64 = match json::get(v, name) {
                Some(saved) => match json::get_number(saved, "timestamp") {
                    Some(n) => n,
                    None => 0,
                },
                None => 0,
            };
            let item = Aged { path: names[i].clone(), timestamp };
            proof {
                sorting::views_push(list@, item);
            }
            list.push(item);
            proof {
                let now = sorting::views(list@);
                assert(now == held.push((name@, timestamp)));
                assert forall|k: int| 0 <= k < held.len() implies held[k].0 != name@ by {
                    if held[k].0 == name@ {
                        let a = choose|a: int| 0 <= a < i && held[k].0 == #[trigger] names@[a]@;
                        text::text_order_total(names@[a]@, names@[i as int]@);
                        assert(text::text_less(names@[a]@, names@[i as int]@));
                    }
                }
                assert(now.no_duplicates());
                assert(now[held.len() as int].0 == names@[i as int]@);
                assert forall|k: int| 0 <= k < now.len() implies exists|a: int|
                    0 <= a < i + 1 && (#[trigger] now[k]).0 == #[trigger] names@[a]@ by {
                    if k < held.len() {
                        assert(now[k] == held[k]);
                    }
                }
                assert forall|e: (Seq<char>, u64)| held.contains(e) implies now.contains(e) by {
                    let k = choose|k: int| 0 <= k < held.len() && held[k] == e;
                    assert(now[k] == e);
                }
                assert(now[held.len() as int] == (name@, saved_at(others[name@])));
                assert forall|k: int| 0 <= k < now.len() implies others.contains_key(
                    (#[trigger] now[k]).0,
                ) && now[k].1 == saved_at(others[now[k].0]) by {
                    if k < held.len() {
                        assert(now[k] == held[k]);
                    }
                }
            }
        }
        i += 1;
    }
    proof {
        let now = sorting::views(list@);
        assert forall|p: Seq<char>| #[trigger] others.contains_key(p) implies now.contains(
            (p, saved_at(others[p])),
        ) by {
            assert(all.to_set().contains(p));
            let a = choose|a: int| 0 <= a < all.len() && all[a] == p;
            assert(names@[a]@ == p);
        }
    }
    Ok(list)
}

/// What a parsed history holds.
pub open spec fn history_in(value: Option<serde_json::Value>) -> Result<
    Map<Seq<char>, json::Json>,
    HistoryError,
> {
    match value {
        None => Ok(Map::empty()),
        Some(v) => match json::json_model(v) {
            json::Json::Object(m) => Ok(m),
            _ => Err(HistoryError::UnexpectedFormat),
        },
    }
}

/// A parsed history with one more record, which is kept, beside the newest of
/// the others; nothing stands for a history that was never saved.
pub fn store_record(value: &Option<serde_json::Value>, record: &ScanRecord) -> (r: Result<
    serde_json::Value,
    HistoryError,
>)
    ensures
        match history_in(*value) {
            Err(e) => r == Err::<serde_json::Value, HistoryError>(e),
            Ok(m) => r is Ok && json::json_model(r->Ok_0) == json::Json::Object(
                with_record(m, record@),
            ),
        },
{
    let listed = match list_history(value, record.path.as_str()) {
        Ok(list) => list,
        Err(e) => return Err(e),
    };
    let ghost others = match history_in(*value) {
        Ok(m) => m.remove(record@.path),
        Err(_) => Map::empty(),
    };
    let ghost unsorted = sorting::views(listed@);
    let list = sorting::arrange(&NewestFirst, listed);
    let ghost all = sorting::views(list@);
    proof {
        sorting::arranged_is_arranged(&NewestFirst, unsorted);
        sorting::arranged_keeps_items(&NewestFirst, unsorted);
        same_items_list_history(unsorted, all, others);
    }
    let count: usize = if list.len() <= OTHER_RECORDS {
        list.len()
    } else {
        OTHER_RECORDS
    };
    let mut pairs = json::no_members();
    let mut i: usize = 0;
    assert(json::pair_models(pairs@) =~= members_of(all, others, 0));
    while i < count
        invariant
            i <= count <= list@.len(),
            all == sorting::views(list@),
            lists_history(all, others),
            match history_in(*value) {
                Ok(m) => others == m.remove(record@.path),
                Err(_) => false,
            },
            json::pair_models(pairs@) == members_of(all, others, i as nat),
        decreases count - i,
    {
        let path = list[i].path.as_str();
        assert(all[i as int].0 == path@);
        assert(others.contains_key(path@));
        let item = match value {
            Some(v) => match json::get(v, path) {
                Some(saved) => json::copy(saved),
                None => json::null(),
            },
            None => json::null(),
        };
        assert(json::json_model(item) == others[path@]);
        json::put(&mut pairs, path, item);
        i += 1;
        assert(json::pair_models(pairs@) =~= members_of(all, others, i as nat));
    }
    proof {
        first_are_newest(all, others, count as nat, OTHER_RECORDS as nat);
    }
    let ghost kept = json::pair_models(pairs@);
    json::put(&mut pairs, record.path.as_str(), record_to_json(record));
    assert(json::pair_models(pairs@).drop_last() =~= kept);
    Ok(json::of_members(pairs))
}

proof fn same_items_list_history(
    a: Seq<(Seq<char>, u64)>,
    b: Seq<(Seq<char>, u64)>,
    m: Map<Seq<char>, json::Json>,
)
    requires
        lists_history(a, m),
        a.to_multiset() == b.to_multiset(),
    ensures
        lists_history(b, m),
{
    broadcast use vstd::seq_lib::group_to_multiset_ensures;

    a.lemma_multiset_has_no_duplicates();
    b.lemma_multiset_has_no_duplicates_conv();
    assert forall|e: (Seq<char>, u64)| a.contains(e) == b.contains(e) by {
        assert(a.contains(e) <==> a.to_multiset().count(e) > 0);
        assert(b.contains(e) <==> b.to_multiset().count(e) > 0);
    }
    assert forall|i: int| 0 <= i < b.len() implies m.contains_key((#[trigger] b[i]).0) && b[i].1
        == saved_at(m[b[i].0]) by {
        assert(b.contains(b[i]));
        let k = choose|k: int| 0 <= k < a.len() && a[k] == b[i];
        assert(m.contains_key(a[k].0));
    }
}

/// A text holds a history, but for its fractions: every baseline is found in it
/// as it is in the history, and what holds no fraction is as it was.
pub open spec fn reads_back(t: Seq<char>, m: Map<Seq<char>, json::Json>) -> bool {
    &&& history_of(Some(t)) is Ok
    &&& json::same_but_for_fractions(
        json::Json::Object(m),
        json::Json::Object(history_of(Some(t))->Ok_0),
        127,
    )
    &&& forall|path: Seq<char>| #[trigger]
        baseline_of(Some(t), path) == baseline_in(json::Json::Object(m), path)
    &&& forall|path: Seq<char>| #[trigger]
        m.contains_key(path) && json::is_plain(m[path], 126) ==> history_of(
            Some(t),
        )->Ok_0.contains_key(path) && history_of(Some(t))->Ok_0[path] == m[path]
}

/// The text of a history file after a record was saved. From a plain history
/// the text reads back as what was saved. From one in which something else put
/// fractions, it reads back the same but for those: every baseline is as it was,
/// and the record is the baseline of its path.
pub fn save(file: Option<&str>, record: &ScanRecord) -> (r: Result<String, HistoryError>)
    ensures
        match history_of(view_of(file)) {
            Err(e) => r == Err::<String, HistoryError>(e),
            Ok(m) => r matches Ok(t) && t@ == json::json_pretty(
                json::Json::Object(with_record(m, record@)),
            ) && (json::is_plain(json::Json::Object(m), 127) ==> history_of(Some(t@)) == Ok::<
                Map<Seq<char>, json::Json>,
                HistoryError,
            >(with_record(m, record@))) && (json::is_readable(json::Json::Object(m), 127)
                ==> reads_back(t@, with_record(m, record@)) && baseline_of(Some(t@), record@.path)
                == Ok::<Option<RecordModel>, HistoryError>(Some(record@))),
        },
{
    let value: Option<serde_json::Value> = match file {
        None => None,
        Some(t) => match json::parse(t) {
            None => return Err(HistoryError::Malformed),
            Some(v) => Some(v),
        },
    };
    match store_record(&value, record) {
        Err(e) => Err(e),
        Ok(v) => {
            proof {
                record_survives_json(record@);
                match history_in(value) {
                    Ok(m) => {
                        if json::is_plain(json::Json::Object(m), 127) {
                            saving_keeps_a_history_plain(m, record@);
                        }
                        if json::is_readable(json::Json::Object(m), 127) {
                            saving_keeps_a_history_readable(m, record@);
                        }
                    },
                    Err(_) => {},
                }
            }
            let t = json::pretty(&v);
            proof {
                match history_in(value) {
                    Ok(m) => {
                        if json::is_readable(json::Json::Object(m), 127) {
                            same_but_for_fractions_reads_back(t@, with_record(m, record@));
                        }
                    },
                    Err(_) => {},
                }
            }
            Ok(t)
        },
    }
}

// ---------------------------------------------------------------------------
// Laws
// ---------------------------------------------------------------------------

proof fn four_members(
    a: (Seq<char>, json::Json),
    b: (Seq<char>, json::Json),
    c: (Seq<char>, json::Json),
    d: (Seq<char>, json::Json),
)
    requires
        a.0 != b.0,
        a.0 != c.0,
        a.0 != d.0,
        b.0 != c.0,
        b.0 != d.0,
        c.0 != d.0,
    ensures
        ({
            let m = json::object_of(seq![a, b, c, d]);
            &&& m.contains_key(a.0) && m[a.0] == a.1
            &&& m.contains_key(b.0) && m[b.0] == b.1
            &&& m.contains_key(c.0) && m[c.0] == c.1
            &&& m.contains_key(d.0) && m[d.0] == d.1
            &&& forall|k: Seq<char>|
                m.contains_key(k) ==> k == a.0 || k == b.0 || k == c.0 || k == d.0
        }),
{
    let s = seq![a, b, c, d];
    assert(s.drop_last() =~= seq![a, b, c]);
    assert(seq![a, b, c].drop_last() =~= seq![a, b]);
    assert(seq![a, b].drop_last() =~= seq![a]);
    assert(seq![a].drop_last() =~= Seq::<(Seq<char>, json::Json)>::empty());
    reveal_with_fuel(json::object_of, 5);
}

proof fn child_keys_differ()
    ensures
        "name"@ != "is_dir"@,
        "name"@ != "logical"@,
        "name"@ != "allocated"@,
        "is_dir"@ != "logical"@,
        "is_dir"@ != "allocated"@,
        "logical"@ != "allocated"@,
        "path"@ != "timestamp"@,
        "path"@ != "inaccessible"@,
        "path"@ != "children"@,
        "timestamp"@ != "inaccessible"@,
        "timestamp"@ != "children"@,
        "inaccessible"@ != "children"@,
{
    reveal_strlit("name");
    reveal_strlit("is_dir");
    reveal_strlit("logical");
    reveal_strlit("allocated");
    reveal_strlit("path");
    reveal_strlit("timestamp");
    reveal_strlit("inaccessible");
    reveal_strlit("children");
    assert("name"@.len() == 4 && "is_dir"@.len() == 6 && "logical"@.len() == 7
        && "allocated"@.len() == 9);
    assert("path"@.len() == 4 && "timestamp"@.len() == 9 && "inaccessible"@.len() == 12
        && "children"@.len() == 8);
}

proof fn child_survives_json(child: ChildModel)
    ensures
        child_from(child_json(child)) == Some(child),
{
    child_keys_differ();
    four_members(
        ("name"@, json::Json::Text(child.name)),
        ("is_dir"@, json::Json::Bool(child.is_dir)),
        ("logical"@, json::Json::Unsigned(child.size.logical)),
        ("allocated"@, json::Json::Unsigned(child.size.allocated)),
    );
}

proof fn children_survive_json(children: Seq<ChildModel>)
    ensures
        children_from(children.map_values(|c: ChildModel| child_json(c))) == children,
    decreases children.len(),
{
    let f = |c: ChildModel| child_json(c);
    let all = children.map_values(f);
    if children.len() == 0 {
        assert(children_from(all) =~= children);
    } else {
        children_survive_json(children.drop_last());
        assert(all.drop_last() =~= children.drop_last().map_values(f));
        child_survives_json(children.last());
        assert(all.last() == child_json(children.last()));
        assert(children =~= children.drop_last().push(children.last()));
    }
}

/// A saved record comes back as it was: reading what was written loses nothing.
pub proof fn record_survives_json(record: RecordModel)
    ensures
        record_from(record.path, record_json(record)) == record,
{
    child_keys_differ();
    four_members(
        ("path"@, json::Json::Text(record.path)),
        ("timestamp"@, json::Json::Unsigned(record.timestamp)),
        ("inaccessible"@, json::Json::Unsigned(record.inaccessible as u64)),
        ("children"@, children_json(record.children)),
    );
    children_survive_json(record.children);
}

/// A record saved before unreadable directories were counted reads as one
/// without any.
pub proof fn older_records_load(path: Seq<char>, value: json::Json)
    requires
        json::member(value, "inaccessible"@) is None,
    ensures
        record_from(path, value).inaccessible == 0,
{
}

/// No two children share a name.
pub open spec fn names_differ(children: Seq<ChildModel>) -> bool {
    forall|i: int, j: int|
        0 <= i < j < children.len() ==> (#[trigger] children[i]).name != (
        #[trigger] children[j]).name
}

proof fn size_of_listed_child(children: Seq<ChildModel>, i: int)
    requires
        names_differ(children),
        0 <= i < children.len(),
    ensures
        size_of_child(children, children[i].name) == Some(children[i].size),
    decreases children.len(),
{
    if i > 0 {
        let tail = children.subrange(1, children.len() as int);
        assert(names_differ(tail)) by {
            assert forall|a: int, b: int| 0 <= a < b < tail.len() implies (
            #[trigger] tail[a]).name != (#[trigger] tail[b]).name by {
                assert(tail[a] == children[a + 1] && tail[b] == children[b + 1]);
            }
        }
        assert(tail[i - 1] == children[i]);
        size_of_listed_child(tail, i - 1);
    }
}

proof fn nothing_changed(all: Seq<ChildModel>, part: Seq<ChildModel>)
    requires
        forall|i: int|
            0 <= i < part.len() ==> size_of_child(all, (#[trigger] part[i]).name) == Some(
                part[i].size,
            ),
    ensures
        changed(all, part).len() == 0,
        removed(part, all).len() == 0,
    decreases part.len(),
{
    if part.len() > 0 {
        assert forall|i: int| 0 <= i < part.drop_last().len() implies size_of_child(
            all,
            (#[trigger] part.drop_last()[i]).name,
        ) == Some(part.drop_last()[i].size) by {
            assert(part.drop_last()[i] == part[i]);
        }
        nothing_changed(all, part.drop_last());
        assert(part.last() == part[part.len() - 1]);
    }
}

/// A directory that did not change has an empty difference.
pub proof fn unchanged_has_no_changes(before: RecordModel, after: RecordModel)
    requires
        before.children == after.children,
        names_differ(before.children),
    ensures
        diff_of(before, after).changes.len() == 0,
        diff_of(before, after).before_total == diff_of(before, after).after_total,
{
    let all = before.children;
    assert forall|i: int| 0 <= i < all.len() implies size_of_child(
        all,
        (#[trigger] all[i]).name,
    ) == Some(all[i].size) by {
        size_of_listed_child(all, i);
    }
    nothing_changed(all, all);
    let list = changed(all, all) + removed(all, all);
    assert(list =~= Seq::<ChangeModel>::empty());
    sorting::arranged_keeps_items(&LargestMove, list);
}

proof fn changed_lists(before: Seq<ChildModel>, after: Seq<ChildModel>, i: int)
    requires
        0 <= i < after.len(),
        size_of_child(before, after[i].name) != Some(after[i].size),
    ensures
        changed(before, after).contains(change_of(before, after[i])),
    decreases after.len(),
{
    let rest = changed(before, after.drop_last());
    let all = changed(before, after);
    if i == after.len() - 1 {
        assert(all.last() == change_of(before, after[i]));
        assert(all[all.len() - 1] == change_of(before, after[i]));
    } else {
        assert(after.drop_last()[i] == after[i]);
        changed_lists(before, after.drop_last(), i);
        let k = choose|k: int| 0 <= k < rest.len() && rest[k] == change_of(before, after[i]);
        assert(all[k] == rest[k]);
    }
}

proof fn removed_lists(before: Seq<ChildModel>, after: Seq<ChildModel>, i: int)
    requires
        0 <= i < before.len(),
        size_of_child(after, before[i].name) is None,
    ensures
        removed(before, after).contains(
            ChangeModel { name: before[i].name, before: Some(before[i].size), after: None },
        ),
    decreases before.len(),
{
    let rest = removed(before.drop_last(), after);
    let all = removed(before, after);
    let gone = ChangeModel { name: before[i].name, before: Some(before[i].size), after: None };
    if i == before.len() - 1 {
        assert(all[all.len() - 1] == gone);
    } else {
        assert(before.drop_last()[i] == before[i]);
        removed_lists(before.drop_last(), after, i);
        let k = choose|k: int| 0 <= k < rest.len() && rest[k] == gone;
        assert(all[k] == rest[k]);
    }
}

proof fn listed_in_diff(before: RecordModel, after: RecordModel, change: ChangeModel)
    requires
        (changed(before.children, after.children) + removed(
            before.children,
            after.children,
        )).contains(change),
    ensures
        diff_of(before, after).changes.contains(change),
{
    broadcast use vstd::seq_lib::group_to_multiset_ensures;

    let list = changed(before.children, after.children) + removed(before.children, after.children);
    sorting::arranged_keeps_items(&LargestMove, list);
    assert(list.to_multiset().count(change) > 0);
    assert(diff_of(before, after).changes.to_multiset().count(change) > 0);
}

/// No growth goes unreported: a child whose size is not what it was is listed,
/// with its size on both sides.
pub proof fn every_change_is_listed(before: RecordModel, after: RecordModel, i: int)
    requires
        0 <= i < after.children.len(),
        size_of_child(before.children, after.children[i].name) != Some(after.children[i].size),
    ensures
        diff_of(before, after).changes.contains(change_of(before.children, after.children[i])),
{
    changed_lists(before.children, after.children, i);
    let a = changed(before.children, after.children);
    let b = removed(before.children, after.children);
    let change = change_of(before.children, after.children[i]);
    let k = choose|k: int| 0 <= k < a.len() && a[k] == change;
    assert((a + b)[k] == change);
    listed_in_diff(before, after, change);
}

/// No addition goes unreported, be the child of no size.
pub proof fn every_addition_is_listed(before: RecordModel, after: RecordModel, i: int)
    requires
        0 <= i < after.children.len(),
        size_of_child(before.children, after.children[i].name) is None,
    ensures
        diff_of(before, after).changes.contains(
            ChangeModel {
                name: after.children[i].name,
                before: None,
                after: Some(after.children[i].size),
            },
        ),
{
    every_change_is_listed(before, after, i);
}

/// No removal goes unreported.
pub proof fn every_removal_is_listed(before: RecordModel, after: RecordModel, i: int)
    requires
        0 <= i < before.children.len(),
        size_of_child(after.children, before.children[i].name) is None,
    ensures
        diff_of(before, after).changes.contains(
            ChangeModel {
                name: before.children[i].name,
                before: Some(before.children[i].size),
                after: None,
            },
        ),
{
    removed_lists(before.children, after.children, i);
    let a = changed(before.children, after.children);
    let b = removed(before.children, after.children);
    let gone = ChangeModel {
        name: before.children[i].name,
        before: Some(before.children[i].size),
        after: None,
    };
    let k = choose|k: int| 0 <= k < b.len() && b[k] == gone;
    assert((a + b)[a.len() + k] == gone);
    listed_in_diff(before, after, gone);
}

/// Comparing the other way round turns the totals' differences around.
pub proof fn diff_is_antisymmetric(before: RecordModel, after: RecordModel)
    ensures
        diff_of(after, before).after_total.allocated - diff_of(
            after,
            before,
        ).before_total.allocated == diff_of(before, after).before_total.allocated - diff_of(
            before,
            after,
        ).after_total.allocated,
        diff_of(after, before).after_total.logical - diff_of(after, before).before_total.logical
            == diff_of(before, after).before_total.logical - diff_of(
            before,
            after,
        ).after_total.logical,
{
}

// ---------------------------------------------------------------------------
// Laws of differences
// ---------------------------------------------------------------------------

/// A size is found only where a child has that name and size.
proof fn found_child(children: Seq<ChildModel>, name: Seq<char>) -> (i: int)
    requires
        size_of_child(children, name) is Some,
    ensures
        0 <= i < children.len(),
        children[i].name == name,
        size_of_child(children, name) == Some(children[i].size),
    decreases children.len(),
{
    if children[0].name == name {
        0
    } else {
        let tail = children.subrange(1, children.len() as int);
        let i = found_child(tail, name);
        assert(tail[i] == children[i + 1]);
        i + 1
    }
}

/// A size is found where a child has the name.
proof fn child_is_found(children: Seq<ChildModel>, i: int)
    requires
        0 <= i < children.len(),
    ensures
        size_of_child(children, children[i].name) is Some,
    decreases children.len(),
{
    if i > 0 {
        let tail = children.subrange(1, children.len() as int);
        assert(tail[i - 1] == children[i]);
        child_is_found(tail, i - 1);
    }
}

/// The change is what the two records say of its name, and is one.
pub open spec fn is_change(before: RecordModel, after: RecordModel, change: ChangeModel) -> bool {
    &&& change.before == size_of_child(before.children, change.name)
    &&& change.after == size_of_child(after.children, change.name)
    &&& change.before != change.after
}

/// No two changes share a name.
pub open spec fn change_names_differ(changes: Seq<ChangeModel>) -> bool {
    forall|i: int, j: int|
        0 <= i < j < changes.len() ==> (#[trigger] changes[i]).name != (#[trigger] changes[j]).name
}

proof fn names_differ_in_part(children: Seq<ChildModel>)
    requires
        names_differ(children),
        children.len() > 0,
    ensures
        names_differ(children.drop_last()),
        size_of_child(children.drop_last(), children.last().name) is None,
{
    let part = children.drop_last();
    assert forall|a: int, b: int| 0 <= a < b < part.len() implies (#[trigger] part[a]).name != (
    #[trigger] part[b]).name by {
        assert(part[a] == children[a] && part[b] == children[b]);
    }
    if size_of_child(part, children.last().name) is Some {
        let i = found_child(part, children.last().name);
        assert(children[i].name == children[children.len() - 1].name);
    }
}

proof fn changed_are_changes(before: Seq<ChildModel>, after: Seq<ChildModel>, k: int)
    requires
        0 <= k < changed(before, after).len(),
    ensures
        exists|i: int|
            0 <= i < after.len() && changed(before, after)[k] == change_of(
                before,
                #[trigger] after[i],
            ),
        changed(before, after)[k].before != changed(before, after)[k].after,
    decreases after.len(),
{
    if after.len() > 0 {
        let part = after.drop_last();
        let rest = changed(before, part);
        if k < rest.len() {
            changed_are_changes(before, part, k);
            let i = choose|i: int| 0 <= i < part.len() && rest[k] == change_of(before, #[trigger] part[i]);
            assert(after[i] == part[i]);
        } else {
            assert(changed(before, after)[k] == change_of(before, after[after.len() - 1]));
        }
    }
}

proof fn removed_are_changes(before: Seq<ChildModel>, after: Seq<ChildModel>, k: int)
    requires
        0 <= k < removed(before, after).len(),
    ensures
        removed(before, after)[k].after is None,
        size_of_child(after, removed(before, after)[k].name) is None,
        exists|i: int|
            0 <= i < before.len() && removed(before, after)[k].name == (#[trigger] before[i]).name
                && removed(before, after)[k].before == Some(before[i].size),
    decreases before.len(),
{
    if before.len() > 0 {
        let part = before.drop_last();
        let rest = removed(part, after);
        if k < rest.len() {
            removed_are_changes(part, after, k);
            let i = choose|i: int|
                0 <= i < part.len() && rest[k].name == (#[trigger] part[i]).name && rest[k].before
                    == Some(part[i].size);
            assert(before[i] == part[i]);
        } else {
            assert(removed(before, after)[k].name == before[before.len() - 1].name);
        }
    }
}

proof fn changed_names_differ(before: Seq<ChildModel>, after: Seq<ChildModel>)
    requires
        names_differ(after),
    ensures
        change_names_differ(changed(before, after)),
    decreases after.len(),
{
    if after.len() > 0 {
        let part = after.drop_last();
        let rest = changed(before, part);
        names_differ_in_part(after);
        changed_names_differ(before, part);
        assert forall|k: int| 0 <= k < rest.len() implies (#[trigger] rest[k]).name
            != after.last().name by {
            changed_are_changes(before, part, k);
            let i = choose|i: int| 0 <= i < part.len() && rest[k] == change_of(before, #[trigger] part[i]);
            child_is_found(part, i);
        }
    }
}

proof fn removed_names_differ(before: Seq<ChildModel>, after: Seq<ChildModel>)
    requires
        names_differ(before),
    ensures
        change_names_differ(removed(before, after)),
    decreases before.len(),
{
    if before.len() > 0 {
        let part = before.drop_last();
        let rest = removed(part, after);
        names_differ_in_part(before);
        removed_names_differ(part, after);
        assert forall|k: int| 0 <= k < rest.len() implies (#[trigger] rest[k]).name
            != before.last().name by {
            removed_are_changes(part, after, k);
            let i = choose|i: int|
                0 <= i < part.len() && rest[k].name == (#[trigger] part[i]).name && rest[k].before
                    == Some(part[i].size);
            child_is_found(part, i);
        }
    }
}

/// The changes and removals, before they are put in order.
spec fn unordered(before: RecordModel, after: RecordModel) -> Seq<ChangeModel> {
    changed(before.children, after.children) + removed(before.children, after.children)
}

proof fn unordered_are_changes(before: RecordModel, after: RecordModel)
    requires
        names_differ(before.children),
        names_differ(after.children),
    ensures
        change_names_differ(unordered(before, after)),
        forall|k: int|
            0 <= k < unordered(before, after).len() ==> is_change(
                before,
                after,
                #[trigger] unordered(before, after)[k],
            ),
{
    let (olds, news) = (before.children, after.children);
    let a = changed(olds, news);
    let b = removed(olds, news);
    let list = unordered(before, after);
    changed_names_differ(olds, news);
    removed_names_differ(olds, news);
    assert forall|k: int| 0 <= k < list.len() implies is_change(
        before,
        after,
        #[trigger] list[k],
    ) && (k < a.len() ==> list[k].after is Some) && (k >= a.len() ==> list[k].after is None) by {
        if k < a.len() {
            assert(list[k] == a[k]);
            changed_are_changes(olds, news, k);
            let i = choose|i: int| 0 <= i < news.len() && a[k] == change_of(olds, #[trigger] news[i]);
            size_of_listed_child(news, i);
        } else {
            let r = k - a.len();
            assert(list[k] == b[r]);
            removed_are_changes(olds, news, r);
            let i = choose|i: int|
                0 <= i < olds.len() && b[r].name == (#[trigger] olds[i]).name && b[r].before == Some(
                    olds[i].size,
                );
            size_of_listed_child(olds, i);
        }
    }
    assert forall|i: int, j: int| 0 <= i < j < list.len() implies (#[trigger] list[i]).name != (
    #[trigger] list[j]).name by {
        if j < a.len() {
            assert(list[i] == a[i] && list[j] == a[j]);
        } else if i >= a.len() {
            assert(list[i] == b[i - a.len()] && list[j] == b[j - a.len()]);
        }
    }
}

/// The changes are those of all names that one record has and the other has
/// not, or has with another size, each listed once.
pub proof fn changes_are_exact(before: RecordModel, after: RecordModel, change: ChangeModel)
    requires
        names_differ(before.children),
        names_differ(after.children),
    ensures
        diff_of(before, after).changes.contains(change) <==> is_change(before, after, change),
        diff_of(before, after).changes.no_duplicates(),
{
    broadcast use vstd::seq_lib::group_to_multiset_ensures;

    let (olds, news) = (before.children, after.children);
    let list = unordered(before, after);
    let changes = diff_of(before, after).changes;
    sorting::arranged_keeps_items(&LargestMove, list);
    unordered_are_changes(before, after);
    assert(list.no_duplicates());
    list.lemma_multiset_has_no_duplicates();
    changes.lemma_multiset_has_no_duplicates_conv();
    if changes.contains(change) {
        assert(changes.to_multiset().count(change) > 0);
        assert(list.to_multiset().count(change) > 0);
        assert(list.contains(change));
    }
    if is_change(before, after, change) {
        match change.after {
            Some(_) => {
                let i = found_child(news, change.name);
                assert(change_of(olds, news[i]) == change);
                every_change_is_listed(before, after, i);
            },
            None => {
                let i = found_child(olds, change.name);
                every_removal_is_listed(before, after, i);
            },
        }
    }
}

/// The allocated bytes of a size.
pub open spec fn by_allocated() -> spec_fn(bulkstat::SizeInfo) -> int {
    |size: bulkstat::SizeInfo| size.allocated as int
}

/// The logical bytes of a size.
pub open spec fn by_logical() -> spec_fn(bulkstat::SizeInfo) -> int {
    |size: bulkstat::SizeInfo| size.logical as int
}

pub open spec fn child_bytes(bytes: spec_fn(bulkstat::SizeInfo) -> int) -> spec_fn(ChildModel) -> int {
    |c: ChildModel| bytes(c.size)
}

pub open spec fn change_bytes(bytes: spec_fn(bulkstat::SizeInfo) -> int) -> spec_fn(
    ChangeModel,
) -> int {
    |c: ChangeModel| bytes(size_or_zero(c.after)) - bytes(size_or_zero(c.before))
}

/// The bytes of all children.
pub open spec fn bytes_in(
    children: Seq<ChildModel>,
    bytes: spec_fn(bulkstat::SizeInfo) -> int,
) -> int {
    sums::added(children, child_bytes(bytes))
}

/// The bytes that changes added, less those that they took away.
pub open spec fn bytes_moved(
    changes: Seq<ChangeModel>,
    bytes: spec_fn(bulkstat::SizeInfo) -> int,
) -> int {
    sums::added(changes, change_bytes(bytes))
}

/// The bytes before of those children that exist now.
spec fn bytes_matched(
    before: Seq<ChildModel>,
    after: Seq<ChildModel>,
    bytes: spec_fn(bulkstat::SizeInfo) -> int,
) -> int
    decreases after.len(),
{
    if after.len() == 0 {
        0
    } else {
        bytes_matched(before, after.drop_last(), bytes) + bytes(
            size_or_zero(size_of_child(before, after.last().name)),
        )
    }
}

proof fn changed_move(
    before: Seq<ChildModel>,
    after: Seq<ChildModel>,
    bytes: spec_fn(bulkstat::SizeInfo) -> int,
)
    ensures
        bytes_moved(changed(before, after), bytes) == bytes_in(after, bytes) - bytes_matched(
            before,
            after,
            bytes,
        ),
    decreases after.len(),
{
    if after.len() > 0 {
        let rest = changed(before, after.drop_last());
        let change = change_of(before, after.last());
        changed_move(before, after.drop_last(), bytes);
        assert(rest.push(change).drop_last() =~= rest);
        assert(rest.push(change).last() == change);
        if change.before is Some && change.allocated_delta() == 0 && change.logical_delta() == 0 {
            assert(change.before == change.after);
        }
    }
}

/// The bytes of the children that no longer exist.
spec fn bytes_lost(
    before: Seq<ChildModel>,
    after: Seq<ChildModel>,
    bytes: spec_fn(bulkstat::SizeInfo) -> int,
) -> int
    decreases before.len(),
{
    if before.len() == 0 {
        0
    } else {
        bytes_lost(before.drop_last(), after, bytes) + if size_of_child(
            after,
            before.last().name,
        ) is None {
            bytes(before.last().size)
        } else {
            0
        }
    }
}

proof fn removed_move(
    before: Seq<ChildModel>,
    after: Seq<ChildModel>,
    bytes: spec_fn(bulkstat::SizeInfo) -> int,
)
    requires
        bytes(size_or_zero(None)) == 0,
    ensures
        bytes_moved(removed(before, after), bytes) == -bytes_lost(before, after, bytes),
    decreases before.len(),
{
    if before.len() > 0 {
        let rest = removed(before.drop_last(), after);
        let child = before.last();
        let gone = ChangeModel { name: child.name, before: Some(child.size), after: None };
        removed_move(before.drop_last(), after, bytes);
        assert(rest.push(gone).drop_last() =~= rest);
        assert(rest.push(gone).last() == gone);
    }
}

proof fn size_of_child_in_parts(children: Seq<ChildModel>, name: Seq<char>)
    requires
        children.len() > 0,
    ensures
        size_of_child(children, name) == match size_of_child(children.drop_last(), name) {
            Some(size) => Some(size),
            None => if children.last().name == name {
                Some(children.last().size)
            } else {
                None
            },
        },
    decreases children.len(),
{
    let tail = children.subrange(1, children.len() as int);
    let part = children.drop_last();
    if children.len() == 1 {
        assert(tail.len() == 0);
        assert(part.len() == 0);
    } else if children[0].name == name {
        assert(part[0] == children[0]);
    } else {
        assert(part[0] == children[0]);
        assert(part.subrange(1, part.len() as int) =~= tail.drop_last());
        assert(tail.last() == children.last());
        size_of_child_in_parts(tail, name);
    }
}

/// One child more before adds its bytes to those that are matched where it
/// exists now.
proof fn matched_with_one_more(
    before: Seq<ChildModel>,
    after: Seq<ChildModel>,
    bytes: spec_fn(bulkstat::SizeInfo) -> int,
)
    requires
        names_differ(before),
        names_differ(after),
        before.len() > 0,
        bytes(size_or_zero(None)) == 0,
    ensures
        bytes_matched(before, after, bytes) == bytes_matched(before.drop_last(), after, bytes)
            + if size_of_child(after, before.last().name) is Some {
            bytes(before.last().size)
        } else {
            0
        },
    decreases after.len(),
{
    if after.len() > 0 {
        let one = before.last();
        let c = after.last();
        names_differ_in_part(before);
        names_differ_in_part(after);
        matched_with_one_more(before, after.drop_last(), bytes);
        size_of_child_in_parts(before, c.name);
        size_of_child_in_parts(after, one.name);
    }
}

proof fn matched_or_lost(
    before: Seq<ChildModel>,
    after: Seq<ChildModel>,
    bytes: spec_fn(bulkstat::SizeInfo) -> int,
)
    requires
        names_differ(before),
        names_differ(after),
        bytes(size_or_zero(None)) == 0,
    ensures
        bytes_matched(before, after, bytes) + bytes_lost(before, after, bytes) == bytes_in(
            before,
            bytes,
        ),
    decreases before.len(),
{
    if before.len() == 0 {
        nothing_matched(before, after, bytes);
    } else {
        names_differ_in_part(before);
        matched_or_lost(before.drop_last(), after, bytes);
        matched_with_one_more(before, after, bytes);
    }
}

proof fn nothing_matched(
    before: Seq<ChildModel>,
    after: Seq<ChildModel>,
    bytes: spec_fn(bulkstat::SizeInfo) -> int,
)
    requires
        before.len() == 0,
        bytes(size_or_zero(None)) == 0,
    ensures
        bytes_matched(before, after, bytes) == 0,
    decreases after.len(),
{
    if after.len() > 0 {
        nothing_matched(before, after.drop_last(), bytes);
    }
}

proof fn changes_move(
    before: RecordModel,
    after: RecordModel,
    bytes: spec_fn(bulkstat::SizeInfo) -> int,
)
    requires
        names_differ(before.children),
        names_differ(after.children),
        bytes(size_or_zero(None)) == 0,
    ensures
        bytes_moved(diff_of(before, after).changes, bytes) == bytes_in(after.children, bytes)
            - bytes_in(before.children, bytes),
{
    let (olds, news) = (before.children, after.children);
    let list = unordered(before, after);
    sorting::arranged_keeps_items(&LargestMove, list);
    sums::added_in_any_order(diff_of(before, after).changes, list, change_bytes(bytes));
    sums::added_parts(changed(olds, news), removed(olds, news), change_bytes(bytes));
    changed_move(olds, news, bytes);
    removed_move(olds, news, bytes);
    matched_or_lost(olds, news, bytes);
}

proof fn total_is_capped_sum(children: Seq<ChildModel>)
    ensures
        bytes_in(children, by_allocated()) >= 0,
        bytes_in(children, by_logical()) >= 0,
        children_total(children).allocated == bulkstat::capped(bytes_in(children, by_allocated())),
        children_total(children).logical == bulkstat::capped(bytes_in(children, by_logical())),
    decreases children.len(),
{
    if children.len() > 0 {
        total_is_capped_sum(children.drop_last());
    }
}

/// The listed changes explain the whole difference of the totals, as long as
/// the sizes of either record add up to a number that can be held.
pub proof fn changes_add_up(before: RecordModel, after: RecordModel)
    requires
        names_differ(before.children),
        names_differ(after.children),
    ensures
        bytes_in(before.children, by_allocated()) <= u64::MAX && bytes_in(
            after.children,
            by_allocated(),
        ) <= u64::MAX ==> bytes_moved(diff_of(before, after).changes, by_allocated()) == diff_of(
            before,
            after,
        ).after_total.allocated - diff_of(before, after).before_total.allocated,
        bytes_in(before.children, by_logical()) <= u64::MAX && bytes_in(
            after.children,
            by_logical(),
        ) <= u64::MAX ==> bytes_moved(diff_of(before, after).changes, by_logical()) == diff_of(
            before,
            after,
        ).after_total.logical - diff_of(before, after).before_total.logical,
{
    changes_move(before, after, by_allocated());
    changes_move(before, after, by_logical());
    total_is_capped_sum(before.children);
    total_is_capped_sum(after.children);
}

/// Two records of one scan, whose children stand in any order.
pub open spec fn same_but_for_order(a: RecordModel, b: RecordModel) -> bool {
    &&& a.path == b.path
    &&& a.timestamp == b.timestamp
    &&& a.inaccessible == b.inaccessible
    &&& a.children.to_multiset() == b.children.to_multiset()
}

proof fn names_differ_in_any_order(a: Seq<ChildModel>, b: Seq<ChildModel>)
    requires
        names_differ(a),
        a.to_multiset() == b.to_multiset(),
    ensures
        names_differ(b),
{
    broadcast use vstd::seq_lib::group_to_multiset_ensures;

    assert(a.no_duplicates());
    a.lemma_multiset_has_no_duplicates();
    b.lemma_multiset_has_no_duplicates_conv();
    assert forall|i: int, j: int| 0 <= i < j < b.len() implies (#[trigger] b[i]).name != (
    #[trigger] b[j]).name by {
        assert(b.contains(b[i]) && b.contains(b[j]));
        assert(a.to_multiset().count(b[i]) > 0 && a.to_multiset().count(b[j]) > 0);
        assert(a.contains(b[i]) && a.contains(b[j]));
        let k = choose|k: int| 0 <= k < a.len() && a[k] == b[i];
        let l = choose|l: int| 0 <= l < a.len() && a[l] == b[j];
        assert(b[i] != b[j]);
    }
}

proof fn sizes_in_any_order(a: Seq<ChildModel>, b: Seq<ChildModel>, name: Seq<char>)
    requires
        names_differ(a),
        names_differ(b),
        a.to_multiset() == b.to_multiset(),
    ensures
        size_of_child(a, name) == size_of_child(b, name),
{
    broadcast use vstd::seq_lib::group_to_multiset_ensures;

    if size_of_child(a, name) is Some {
        let i = found_child(a, name);
        assert(a.contains(a[i]));
        assert(b.to_multiset().count(a[i]) > 0);
        assert(b.contains(a[i]));
        let j = choose|j: int| 0 <= j < b.len() && b[j] == a[i];
        size_of_listed_child(b, j);
    } else if size_of_child(b, name) is Some {
        let j = found_child(b, name);
        assert(b.contains(b[j]));
        assert(a.to_multiset().count(b[j]) > 0);
        assert(a.contains(b[j]));
        let i = choose|i: int| 0 <= i < a.len() && a[i] == b[j];
        size_of_listed_child(a, i);
    }
}

proof fn changes_in_any_order(
    before: RecordModel,
    after: RecordModel,
    before2: RecordModel,
    after2: RecordModel,
)
    requires
        same_but_for_order(before, before2),
        same_but_for_order(after, after2),
        names_differ(before.children),
        names_differ(after.children),
    ensures
        diff_of(before, after).changes == diff_of(before2, after2).changes,
{
    broadcast use vstd::seq_lib::group_to_multiset_ensures;

    names_differ_in_any_order(before.children, before2.children);
    names_differ_in_any_order(after.children, after2.children);
    let a = diff_of(before, after).changes;
    let b = diff_of(before2, after2).changes;
    assert forall|c: ChangeModel|
        a.contains(c) == b.contains(c) && (a.contains(c) == is_change(before, after, c)) by {
        changes_are_exact(before, after, c);
        changes_are_exact(before2, after2, c);
        sizes_in_any_order(before.children, before2.children, c.name);
        sizes_in_any_order(after.children, after2.children, c.name);
    }
    let any = ChangeModel { name: Seq::empty(), before: None, after: None };
    changes_are_exact(before, after, any);
    changes_are_exact(before2, after2, any);
    a.lemma_multiset_has_no_duplicates();
    b.lemma_multiset_has_no_duplicates();
    assert forall|c: ChangeModel| a.to_multiset().count(c) == b.to_multiset().count(c) by {
        assert(a.contains(c) == b.contains(c));
        assert(a.contains(c) <==> a.to_multiset().count(c) > 0);
        assert(b.contains(c) <==> b.to_multiset().count(c) > 0);
    }
    assert(a.to_multiset() =~= b.to_multiset());
    sorting::arranged_is_arranged(&LargestMove, unordered(before, after));
    sorting::arranged_is_arranged(&LargestMove, unordered(before2, after2));
    assert forall|x: ChangeModel, y: ChangeModel|
        a.contains(x) && a.contains(y) && !(#[trigger] sorting::Order::before(&LargestMove, x, y))
            && !sorting::Order::before(&LargestMove, y, x) implies x == y by {
        text::text_order_total(x.name, y.name);
        assert(is_change(before, after, x));
        assert(is_change(before, after, y));
    }
    sorting::arrangement_is_unique(&LargestMove, a, b);
}

/// The order of the children does not matter: with them in any other order the
/// difference is the same.
pub proof fn order_of_children_does_not_matter(
    before: RecordModel,
    after: RecordModel,
    before2: RecordModel,
    after2: RecordModel,
)
    requires
        same_but_for_order(before, before2),
        same_but_for_order(after, after2),
        names_differ(before.children),
        names_differ(after.children),
    ensures
        diff_of(before, after) == diff_of(before2, after2),
{
    changes_in_any_order(before, after, before2, after2);
    total_is_capped_sum(before.children);
    total_is_capped_sum(after.children);
    total_is_capped_sum(before2.children);
    total_is_capped_sum(after2.children);
    sums::added_in_any_order(before.children, before2.children, child_bytes(by_allocated()));
    sums::added_in_any_order(before.children, before2.children, child_bytes(by_logical()));
    sums::added_in_any_order(after.children, after2.children, child_bytes(by_allocated()));
    sums::added_in_any_order(after.children, after2.children, child_bytes(by_logical()));
}

/// The changes stand in order: the most allocated bytes first, and where as many
/// moved, by name.
pub proof fn changes_are_ordered(before: RecordModel, after: RecordModel, i: int, j: int)
    requires
        0 <= i < j < diff_of(before, after).changes.len(),
    ensures
        ({
            let (x, y) = (diff_of(before, after).changes[i], diff_of(before, after).changes[j]);
            &&& magnitude(x.allocated_delta()) >= magnitude(y.allocated_delta())
            &&& magnitude(x.allocated_delta()) == magnitude(y.allocated_delta())
                ==> !text::text_less(y.name, x.name)
        }),
{
    sorting::arranged_is_arranged(&LargestMove, unordered(before, after));
    let changes = diff_of(before, after).changes;
    assert(!sorting::Order::before(&LargestMove, changes[j], changes[i]));
}

// ---------------------------------------------------------------------------
// Laws of saving
// ---------------------------------------------------------------------------

proof fn newer_is_transitive(
    m: Map<Seq<char>, json::Json>,
    a: Seq<char>,
    b: Seq<char>,
    c: Seq<char>,
)
    requires
        newer(m, a, b),
        newer(m, b, c),
    ensures
        newer(m, a, c),
{
    if saved_at(m[a]) == saved_at(m[b]) && saved_at(m[b]) == saved_at(m[c]) {
        text::text_order_transitive(a, b, c);
    }
}

/// Among some saved paths there is one that all others are newer than.
proof fn oldest_of(m: Map<Seq<char>, json::Json>, some: Set<Seq<char>>) -> (oldest: Seq<char>)
    requires
        some.finite(),
        some.len() > 0,
    ensures
        some.contains(oldest),
        forall|p: Seq<char>| #[trigger] some.contains(p) && p != oldest ==> newer(m, p, oldest),
    decreases some.len(),
{
    let x = some.choose();
    assert(some.contains(x));
    let rest = some.remove(x);
    if rest.len() == 0 {
        assert forall|p: Seq<char>| #[trigger] some.contains(p) && p != x implies newer(
            m,
            p,
            x,
        ) by {
            assert(rest.contains(p));
            rest.lemma_len0_is_empty();
        }
        x
    } else {
        let y = oldest_of(m, rest);
        text::text_order_total(x, y);
        if newer(m, x, y) {
            y
        } else {
            assert(newer(m, y, x));
            assert forall|p: Seq<char>| #[trigger] some.contains(p) && p != x implies newer(
                m,
                p,
                x,
            ) by {
                assert(rest.contains(p));
                if p != y {
                    newer_is_transitive(m, p, y, x);
                }
            }
            x
        }
    }
}

/// The newest of a history are no more than the limit says, and nothing that is
/// dropped is newer than something that is kept.
pub proof fn newest_are_few(m: Map<Seq<char>, json::Json>, limit: nat)
    requires
        m.dom().finite(),
    ensures
        newest(m, limit).dom().finite(),
        newest(m, limit).dom().len() <= limit,
        forall|p: Seq<char>, q: Seq<char>|
            #![trigger newest(m, limit).contains_key(p), m.contains_key(q)]
            newest(m, limit).contains_key(p) && m.contains_key(q) && !newest(
                m,
                limit,
            ).contains_key(q) ==> saved_at(m[q]) <= saved_at(m[p]),
        m.dom().len() <= limit ==> newest(m, limit) == m,
{
    let kept = newest(m, limit).dom();
    assert(kept.subset_of(m.dom()));
    vstd::set_lib::lemma_len_subset(kept, m.dom());
    if kept.len() > limit {
        let last = oldest_of(m, kept);
        let ahead = m.dom().filter(|p: Seq<char>| newer(m, p, last));
        assert(kept.remove(last).subset_of(ahead));
        vstd::set_lib::lemma_len_subset(ahead, m.dom());
        vstd::set_lib::lemma_len_subset(kept.remove(last), ahead);
        assert(is_kept(m, last, limit));
    }
    assert forall|p: Seq<char>, q: Seq<char>|
        #![trigger newest(m, limit).contains_key(p), m.contains_key(q)]
        newest(m, limit).contains_key(p) && m.contains_key(q) && !newest(m, limit).contains_key(
            q,
        ) implies saved_at(m[q]) <= saved_at(m[p]) by {
        if saved_at(m[q]) > saved_at(m[p]) {
            let before_p = m.dom().filter(|o: Seq<char>| newer(m, o, p));
            let before_q = m.dom().filter(|o: Seq<char>| newer(m, o, q));
            assert forall|o: Seq<char>| before_q.contains(o) implies before_p.contains(o) by {
                newer_is_transitive(m, o, q, p);
            }
            vstd::set_lib::lemma_len_subset(before_p, m.dom());
            vstd::set_lib::lemma_len_subset(before_q, before_p);
            assert(is_kept(m, p, limit));
            assert(!is_kept(m, q, limit));
        }
    }
    if m.dom().len() <= limit {
        assert forall|p: Seq<char>| m.contains_key(p) implies is_kept(m, p, limit) by {
            let ahead = m.dom().filter(|o: Seq<char>| newer(m, o, p));
            text::text_order_total(p, p);
            assert(!ahead.contains(p));
            ahead.lemma_subset_not_in_lt(m.dom(), p);
        }
        assert(newest(m, limit) =~= m);
    }
}

/// What was saved is there, whatever its age, as the only baseline of its path;
/// a history does not grow past its limit; what stays of the others is as it
/// was, and none of those that are dropped is newer than one that stays.
pub proof fn saving_keeps_the_record_and_the_newest(
    m: Map<Seq<char>, json::Json>,
    record: RecordModel,
)
    requires
        m.dom().finite(),
    ensures
        ({
            let after = with_record(m, record);
            &&& after.contains_key(record.path)
            &&& after[record.path] == record_json(record)
            &&& after.dom().finite()
            &&& after.dom().len() <= HISTORY_MAX_RECORDS
            &&& forall|p: Seq<char>| #[trigger]
                after.contains_key(p) && p != record.path ==> m.contains_key(p) && after[p] == m[p]
            &&& forall|p: Seq<char>, q: Seq<char>|
                #![trigger after.contains_key(p), m.contains_key(q)]
                after.contains_key(p) && p != record.path && m.contains_key(q)
                    && !after.contains_key(q) ==> saved_at(m[q]) <= saved_at(m[p])
            &&& m.dom().len() < HISTORY_MAX_RECORDS ==> after == m.insert(
                record.path,
                record_json(record),
            )
        }),
{
    let others = m.remove(record.path);
    let limit = OTHER_RECORDS as nat;
    newest_are_few(others, limit);
    vstd::set_lib::lemma_len_subset(others.dom(), m.dom());
    let after = with_record(m, record);
    let kept = newest(others, limit);
    assert(after.dom() =~= kept.dom().insert(record.path));
    assert forall|p: Seq<char>, q: Seq<char>|
        #![trigger after.contains_key(p), m.contains_key(q)]
        after.contains_key(p) && p != record.path && m.contains_key(q) && !after.contains_key(
            q,
        ) implies saved_at(m[q]) <= saved_at(m[p]) by {
        assert(kept.contains_key(p));
        assert(others.contains_key(q));
    }
    if m.dom().len() < HISTORY_MAX_RECORDS {
        assert(after =~= m.insert(record.path, record_json(record)));
    }
}

/// A record nests no deeper than its text may.
proof fn record_is_plain(record: RecordModel)
    ensures
        json::is_plain(record_json(record), 126),
{
    child_keys_differ();
    let items = record.children.map_values(|c: ChildModel| child_json(c));
    assert forall|i: int| 0 <= i < items.len() implies json::is_plain(
        #[trigger] items[i],
        124,
    ) by {
        let c = record.children[i];
        four_members(
            ("name"@, json::Json::Text(c.name)),
            ("is_dir"@, json::Json::Bool(c.is_dir)),
            ("logical"@, json::Json::Unsigned(c.size.logical)),
            ("allocated"@, json::Json::Unsigned(c.size.allocated)),
        );
        let m = child_json(c)->Object_0;
        assert forall|k: Seq<char>| m.contains_key(k) implies json::is_plain(
            #[trigger] m[k],
            123,
        ) by {}
        assert(items[i] == json::Json::Object(m));
    }
    assert(json::is_plain(json::Json::List(items), 125));
    four_members(
        ("path"@, json::Json::Text(record.path)),
        ("timestamp"@, json::Json::Unsigned(record.timestamp)),
        ("inaccessible"@, json::Json::Unsigned(record.inaccessible as u64)),
        ("children"@, children_json(record.children)),
    );
    let top = record_json(record)->Object_0;
    assert forall|k: Seq<char>| top.contains_key(k) implies json::is_plain(
        #[trigger] top[k],
        125,
    ) by {}
}

/// Saving keeps a history plain, so that what was saved reads back after any
/// number of saves.
pub proof fn saving_keeps_a_history_plain(m: Map<Seq<char>, json::Json>, record: RecordModel)
    requires
        json::is_plain(json::Json::Object(m), 127),
    ensures
        json::is_plain(json::Json::Object(with_record(m, record)), 127),
{
    record_is_plain(record);
    let after = with_record(m, record);
    assert forall|k: Seq<char>| after.contains_key(k) implies json::is_plain(
        #[trigger] after[k],
        126,
    ) by {
        if k == record.path {
            assert(after[k] == record_json(record));
        } else {
            let others = m.remove(record.path);
            assert(newest(others, OTHER_RECORDS as nat).contains_key(k));
            assert(others.contains_key(k));
            assert(m.contains_key(k));
            json::plain_member(json::Json::Object(m), k, 127);
            assert(after[k] == m[k]);
        }
    }
}

/// Saving keeps a history such that it can be read back.
pub proof fn saving_keeps_a_history_readable(m: Map<Seq<char>, json::Json>, record: RecordModel)
    requires
        json::is_readable(json::Json::Object(m), 127),
    ensures
        json::is_readable(json::Json::Object(with_record(m, record)), 127),
{
    record_is_plain(record);
    json::plain_is_readable(record_json(record), 126);
    let after = with_record(m, record);
    assert forall|k: Seq<char>| after.contains_key(k) implies json::is_readable(
        #[trigger] after[k],
        126,
    ) by {
        if k == record.path {
            assert(after[k] == record_json(record));
        } else {
            let others = m.remove(record.path);
            assert(newest(others, OTHER_RECORDS as nat).contains_key(k));
            assert(others.contains_key(k));
            assert(m.contains_key(k));
            json::readable_member(json::Json::Object(m), k, 127);
            assert(after[k] == m[k]);
        }
    }
}

proof fn children_are_the_same(a: Seq<json::Json>, b: Seq<json::Json>, depth: nat)
    requires
        a.len() == b.len(),
        forall|i: int|
            0 <= i < a.len() ==> json::same_but_for_fractions(#[trigger] a[i], b[i], depth),
    ensures
        children_from(a) == children_from(b),
    decreases a.len(),
{
    if a.len() > 0 {
        let (c, d) = (a.drop_last(), b.drop_last());
        assert forall|i: int| 0 <= i < c.len() implies json::same_but_for_fractions(
            #[trigger] c[i],
            d[i],
            depth,
        ) by {
            assert(c[i] == a[i] && d[i] == b[i]);
        }
        children_are_the_same(c, d, depth);
        let (x, y) = (a[a.len() - 1], b[b.len() - 1]);
        assert(json::same_but_for_fractions(x, y, depth));
        json::members_are_the_same(x, y, "name"@, depth);
        json::members_are_the_same(x, y, "is_dir"@, depth);
        json::members_are_the_same(x, y, "logical"@, depth);
        json::members_are_the_same(x, y, "allocated"@, depth);
        assert(child_from(a.last()) == child_from(b.last()));
    }
}

/// Fractions play no part in a record: what is the same but for fractions
/// describes the same record.
pub proof fn fractions_do_not_matter(path: Seq<char>, a: json::Json, b: json::Json, depth: nat)
    requires
        json::same_but_for_fractions(a, b, depth),
    ensures
        record_from(path, a) == record_from(path, b),
        saved_at(a) == saved_at(b),
{
    json::members_are_the_same(a, b, "timestamp"@, depth);
    json::members_are_the_same(a, b, "inaccessible"@, depth);
    json::members_are_the_same(a, b, "children"@, depth);
    match (json::member(a, "children"@), json::member(b, "children"@)) {
        (Some(json::Json::List(s)), Some(json::Json::List(t))) => {
            let less = (depth - 1) as nat;
            assert(json::same_but_for_fractions(json::Json::List(s), json::Json::List(t), less));
            assert forall|i: int| 0 <= i < s.len() implies json::same_but_for_fractions(
                #[trigger] s[i],
                t[i],
                (less - 1) as nat,
            ) by {}
            children_are_the_same(s, t, (less - 1) as nat);
        },
        _ => {},
    }
}

proof fn same_but_for_fractions_reads_back(t: Seq<char>, m: Map<Seq<char>, json::Json>)
    requires
        json::json_parsed(t) is Some,
        json::same_but_for_fractions(json::Json::Object(m), json::json_parsed(t)->0, 127),
    ensures
        reads_back(t, m),
{
    let n = json::json_parsed(t)->0->Object_0;
    assert(json::json_parsed(t)->0 == json::Json::Object(n));
    let (a, b) = (json::Json::Object(m), json::Json::Object(n));
    assert forall|path: Seq<char>| #[trigger] baseline_of(Some(t), path) == baseline_in(a, path) by {
        json::members_are_the_same(a, b, path, 127);
        if m.contains_key(path) {
            assert(json::same_but_for_fractions(m[path], n[path], 126));
            fractions_do_not_matter(path, m[path], n[path], 126);
        }
    }
    assert forall|path: Seq<char>| #[trigger]
        m.contains_key(path) && json::is_plain(m[path], 126) implies n.contains_key(path)
        && n[path] == m[path] by {
        json::members_are_the_same(a, b, path, 127);
    }
}

/// A history after several records were saved, one after the other, to begin
/// with where nothing was saved.
pub open spec fn after_saves(records: Seq<RecordModel>) -> Map<Seq<char>, json::Json>
    decreases records.len(),
{
    if records.len() == 0 {
        Map::empty()
    } else {
        with_record(after_saves(records.drop_last()), records.last())
    }
}

/// After any run of saves the history is plain and within its limit, and the
/// baseline of the last record's path is that record.
pub proof fn saves_read_back(records: Seq<RecordModel>)
    ensures
        json::is_plain(json::Json::Object(after_saves(records)), 127),
        after_saves(records).dom().finite(),
        after_saves(records).dom().len() <= HISTORY_MAX_RECORDS,
        records.len() > 0 ==> baseline_in(
            json::Json::Object(after_saves(records)),
            records.last().path,
        ) == Ok::<Option<RecordModel>, HistoryError>(Some(records.last())),
    decreases records.len(),
{
    if records.len() > 0 {
        let before = after_saves(records.drop_last());
        saves_read_back(records.drop_last());
        saving_keeps_a_history_plain(before, records.last());
        saving_keeps_the_record_and_the_newest(before, records.last());
        record_survives_json(records.last());
    }
}

/// The size of a record is what the sizes of its children add up to, each part
/// as far as 64 bits hold it.
pub proof fn children_add_up(children: Seq<ChildModel>)
    ensures
        ({
            let logical = sums::added(children, |c: ChildModel| c.size.logical as int);
            let allocated = sums::added(children, |c: ChildModel| c.size.allocated as int);
            &&& 0 <= logical && 0 <= allocated
            &&& children_total(children).logical == if logical > u64::MAX {
                u64::MAX as int
            } else {
                logical
            }
            &&& children_total(children).allocated == if allocated > u64::MAX {
                u64::MAX as int
            } else {
                allocated
            }
        }),
    decreases children.len(),
{
    if children.len() > 0 {
        children_add_up(children.drop_last());
    }
}

/// A record holds the files and directories of a listing, all of them and in
/// order, each with its name and size, and counts what could not be read in
/// them.
pub proof fn records_hold_every_child(entries: Seq<SizedEntryModel>)
    ensures
        children_of(entries).0 == entries.filter(
            |e: SizedEntryModel| e.kind == EntryKind::File || e.kind == EntryKind::Directory,
        ).map_values(
            |e: SizedEntryModel|
                (ChildModel {
                    name: e.name,
                    is_dir: e.kind == EntryKind::Directory,
                    size: e.size,
                }),
        ),
        ({
            let unread = sums::added(
                entries,
                |e: SizedEntryModel|
                    if e.kind == EntryKind::File || e.kind == EntryKind::Directory {
                        e.inaccessible as int
                    } else {
                        0
                    },
            );
            0 <= unread && children_of(entries).1 == if unread > u32::MAX {
                u32::MAX as int
            } else {
                unread
            }
        }),
    decreases entries.len(),
{
    reveal(Seq::filter);
    let wanted = |e: SizedEntryModel| e.kind == EntryKind::File || e.kind == EntryKind::Directory;
    let shown = |e: SizedEntryModel|
        (ChildModel { name: e.name, is_dir: e.kind == EntryKind::Directory, size: e.size });
    if entries.len() == 0 {
        assert(entries.filter(wanted).map_values(shown) =~= Seq::<ChildModel>::empty());
    } else {
        let less = entries.drop_last();
        records_hold_every_child(less);
        if wanted(entries.last()) {
            assert(entries.filter(wanted).map_values(shown) =~= less.filter(wanted).map_values(
                shown,
            ).push(shown(entries.last())));
        }
    }
}

/// The size of a child is found by its name: that of the first child that has
/// it.
pub proof fn children_are_found_by_name(children: Seq<ChildModel>, name: Seq<char>)
    ensures
        match size_of_child(children, name) {
            Some(size) => exists|i: int|
                {
                    &&& 0 <= i < children.len()
                    &&& (#[trigger] children[i]).name == name && children[i].size == size
                    &&& forall|k: int| 0 <= k < i ==> (#[trigger] children[k]).name != name
                },
            None => forall|i: int| 0 <= i < children.len() ==> (#[trigger] children[i]).name != name,
        },
    decreases children.len(),
{
    if children.len() > 0 {
        if children[0].name != name {
            let tail = children.subrange(1, children.len() as int);
            children_are_found_by_name(tail, name);
            match size_of_child(children, name) {
                Some(size) => {
                    let i = choose|i: int|
                        {
                            &&& 0 <= i < tail.len()
                            &&& (#[trigger] tail[i]).name == name && tail[i].size == size
                            &&& forall|k: int| 0 <= k < i ==> (#[trigger] tail[k]).name != name
                        };
                    assert(children[i + 1] == tail[i]);
                    assert forall|k: int| 0 <= k < i + 1 implies (#[trigger] children[k]).name
                        != name by {
                        if k > 0 {
                            assert(children[k] == tail[k - 1]);
                        }
                    }
                },
                None => {
                    assert forall|i: int| 0 <= i < children.len() implies (
                    #[trigger] children[i]).name != name by {
                        if i > 0 {
                            assert(children[i] == tail[i - 1]);
                        }
                    }
                },
            }
        } else {
            assert(children[0].name == name);
        }
    }
}

/// Among some saved paths there is one that is newer than all others.
proof fn newest_of(m: Map<Seq<char>, json::Json>, some: Set<Seq<char>>) -> (first: Seq<char>)
    requires
        some.finite(),
        some.len() > 0,
    ensures
        some.contains(first),
        forall|p: Seq<char>| #[trigger] some.contains(p) && p != first ==> newer(m, first, p),
    decreases some.len(),
{
    let x = some.choose();
    assert(some.contains(x));
    let rest = some.remove(x);
    if rest.len() == 0 {
        assert forall|p: Seq<char>| #[trigger] some.contains(p) && p != x implies newer(
            m,
            x,
            p,
        ) by {
            assert(rest.contains(p));
            rest.lemma_len0_is_empty();
        }
        x
    } else {
        let y = newest_of(m, rest);
        text::text_order_total(x, y);
        if newer(m, y, x) {
            y
        } else {
            assert(newer(m, x, y));
            assert forall|p: Seq<char>| #[trigger] some.contains(p) && p != x implies newer(
                m,
                x,
                p,
            ) by {
                assert(rest.contains(p));
                if p != y {
                    newer_is_transitive(m, x, y, p);
                }
            }
            x
        }
    }
}

/// As many records are kept as may be: all of few, and of many the full number.
pub proof fn as_many_records_as_fit_are_kept(m: Map<Seq<char>, json::Json>, limit: nat)
    requires
        m.dom().finite(),
        m.dom().len() >= limit,
    ensures
        newest(m, limit).dom().len() == limit,
        newest(m, limit).dom().subset_of(m.dom()),
{
    newest_are_few(m, limit);
    let kept = newest(m, limit).dom();
    assert(kept.subset_of(m.dom()));
    if kept.len() < limit {
        let rest = m.dom().difference(kept);
        vstd::set_lib::lemma_len_difference(m.dom(), kept);
        assert(rest.len() > 0) by {
            if rest.len() == 0 {
                rest.lemma_len0_is_empty();
                assert(m.dom() =~= kept) by {
                    assert forall|p: Seq<char>| m.dom().contains(p) implies kept.contains(p) by {
                        assert(!rest.contains(p));
                    }
                }
            }
        }
        let first = newest_of(m, rest);
        let ahead = m.dom().filter(|p: Seq<char>| newer(m, p, first));
        assert forall|p: Seq<char>| ahead.contains(p) implies kept.contains(p) by {
            if !kept.contains(p) {
                assert(rest.contains(p));
                text::text_order_total(p, first);
                if p != first {
                    assert(newer(m, first, p));
                }
            }
        }
        vstd::set_lib::lemma_len_subset(ahead, kept);
        assert(is_kept(m, first, limit));
        assert(kept.contains(first));
    }
}

/// A history holds five hundred and twelve records at most: a full one stays
/// full, and of one that is not full nothing is dropped.
pub proof fn a_full_history_stays_full(m: Map<Seq<char>, json::Json>, record: RecordModel)
    requires
        m.dom().finite(),
        m.remove(record.path).dom().len() >= 511,
    ensures
        with_record(m, record).dom().len() == 512,
{
    let others = m.remove(record.path);
    as_many_records_as_fit_are_kept(others, 511);
    let kept = newest(others, 511);
    newest_are_few(others, 511);
    assert(with_record(m, record).dom() =~= kept.dom().insert(record.path));
}

/// A record lists its children by name.
pub proof fn records_are_sorted_by_name(entries: Seq<SizedEntryModel>, i: int, j: int)
    requires
        0 <= i < j < sorting::arranged(&ByName, children_of(entries).0).len(),
    ensures
        ({
            let listed = sorting::arranged(&ByName, children_of(entries).0);
            &&& !text::text_less(listed[j].name, listed[i].name)
            &&& listed.to_multiset() == children_of(entries).0.to_multiset()
        }),
{
    let children = children_of(entries).0;
    sorting::arranged_is_arranged(&ByName, children);
    sorting::arranged_keeps_items(&ByName, children);
    let listed = sorting::arranged(&ByName, children);
    assert(!sorting::Order::before(&ByName, listed[j], listed[i]));
}

/// A difference tells the two scans apart: times, unreadable directories and
/// sums of the baseline on the one side and of the scan at hand on the other; it
/// is about the path of the latter.
pub proof fn a_difference_tells_its_scans_apart(before: RecordModel, after: RecordModel)
    ensures
        ({
            let d = diff_of(before, after);
            &&& d.path == after.path
            &&& d.baseline_timestamp == before.timestamp && d.current_timestamp == after.timestamp
            &&& d.baseline_inaccessible == before.inaccessible && d.current_inaccessible
                == after.inaccessible
            &&& d.before_total == children_total(before.children) && d.after_total
                == children_total(after.children)
        }),
{
}

} // verus!
