//! The reports of the command line as JSON.

use crate::bulkstat;
use crate::history;
use crate::json;
use crate::labels;
use crate::manifests;
use crate::packages;
use crate::reclaim;
use crate::reports;
use crate::sorting;
use crate::space;
use crate::text;
use vstd::prelude::*;

verus! {

/// An object with these members.
pub open spec fn object(members: Seq<(Seq<char>, json::Json)>) -> json::Json {
    json::Json::Object(json::object_of(members))
}

/// The text of a report.
pub fn json_text(value: &serde_json::Value) -> (r: String)
    ensures
        r@ == json::json_pretty(json::json_model(*value)),
{
    json::pretty(value)
}

/// A list of texts.
pub open spec fn texts_json(items: Seq<Seq<char>>) -> json::Json {
    json::Json::List(items.map_values(|t: Seq<char>| json::Json::Text(t)))
}

fn texts_to_json(items: &Vec<String>) -> (r: serde_json::Value)
    ensures
        json::json_model(r) == texts_json(text::texts(items@)),
{
    let ghost all = text::texts(items@).map_values(|t: Seq<char>| json::Json::Text(t));
    let mut list: Vec<serde_json::Value> = Vec::new();
    let mut i: usize = 0;
    assert(json::models(list@) =~= all.take(0));
    while i < items.len()
        invariant
            i <= items@.len(),
            all == text::texts(items@).map_values(|t: Seq<char>| json::Json::Text(t)),
            json::models(list@) == all.take(i as int),
        decreases items@.len() - i,
    {
        let item = json::of_text(items[i].as_str());
        proof {
            json::models_push(list@, item);
            assert(all.take(i + 1) =~= all.take(i as int).push(all[i as int]));
        }
        list.push(item);
        i += 1;
    }
    assert(all.take(all.len() as int) =~= all);
    json::of_list(list)
}

/// The logical bytes of a size that may be unknown.
pub open spec fn logical_of(size: Option<bulkstat::SizeInfo>) -> Option<u64> {
    match size {
        Some(s) => Some(s.logical),
        None => None,
    }
}

/// The allocated bytes of a size that may be unknown.
pub open spec fn allocated_of(size: Option<bulkstat::SizeInfo>) -> Option<u64> {
    match size {
        Some(s) => Some(s.allocated),
        None => None,
    }
}

fn logical_to_json(size: Option<bulkstat::SizeInfo>) -> (r: serde_json::Value)
    ensures
        json::json_model(r) == json::optional_number(logical_of(size)),
{
    match size {
        Some(s) => json::of_number(s.logical),
        None => json::null(),
    }
}

fn allocated_to_json(size: Option<bulkstat::SizeInfo>) -> (r: serde_json::Value)
    ensures
        json::json_model(r) == json::optional_number(allocated_of(size)),
{
    match size {
        Some(s) => json::of_number(s.allocated),
        None => json::null(),
    }
}

fn opt_text_to_json(t: &Option<String>) -> (r: serde_json::Value)
    ensures
        json::json_model(r) == json::optional_text(packages::opt_text(*t)),
{
    match t {
        Some(t) => json::of_text(t.as_str()),
        None => json::null(),
    }
}

/// A difference of sizes as text.
fn delta_text(d: i128) -> (r: String)
    requires
        -0x1_0000_0000_0000_0000 < d < 0x1_0000_0000_0000_0000,
    ensures
        r@ == labels::signed_decimal(d as int),
{
    if d < 0 {
        text::join2("-", text::decimal_text((-d) as u64).as_str())
    } else {
        text::decimal_text(d as u64)
    }
}

// ---------------------------------------------------------------------------
// The largest files
// ---------------------------------------------------------------------------

pub open spec fn file_json(file: bulkstat::LargeFileModel) -> json::Json {
    object(
        seq![
            ("path"@, json::Json::Text(file.path)),
            ("logical"@, json::Json::Unsigned(file.size.logical)),
            ("allocated"@, json::Json::Unsigned(file.size.allocated)),
        ],
    )
}

pub open spec fn files_json(files: Seq<bulkstat::LargeFileModel>) -> json::Json {
    json::Json::List(files.map_values(|f: bulkstat::LargeFileModel| file_json(f)))
}

/// The report on the largest files.
pub open spec fn top_json(path: Seq<char>, limit: u64, scan: bulkstat::DirScanModel) -> json::Json {
    object(
        seq![
            ("path"@, json::Json::Text(path)),
            ("limit"@, json::Json::Unsigned(limit)),
            ("total_logical"@, json::Json::Unsigned(scan.size.logical)),
            ("total_allocated"@, json::Json::Unsigned(scan.size.allocated)),
            ("inaccessible"@, json::Json::Unsigned(scan.inaccessible as u64)),
            ("skipped_mounts"@, json::Json::Unsigned(scan.skipped_mounts as u64)),
            ("files"@, files_json(scan.largest_files)),
        ],
    )
}

fn file_to_json(file: &bulkstat::LargeFile) -> (r: serde_json::Value)
    ensures
        json::json_model(r) == file_json(file@),
{
    let mut pairs = json::no_members();
    json::put(&mut pairs, "path", json::of_text(file.path.as_str()));
    json::put(&mut pairs, "logical", json::of_number(file.size.logical));
    json::put(&mut pairs, "allocated", json::of_number(file.size.allocated));
    let ghost f = file@;
    assert(json::pair_models(pairs@) =~= seq![
        ("path"@, json::Json::Text(f.path)),
        ("logical"@, json::Json::Unsigned(f.size.logical)),
        ("allocated"@, json::Json::Unsigned(f.size.allocated)),
    ]);
    json::of_members(pairs)
}

fn files_to_json(files: &Vec<bulkstat::LargeFile>) -> (r: serde_json::Value)
    ensures
        json::json_model(r) == files_json(sorting::views(files@)),
{
    let ghost all = sorting::views(files@).map_values(
        |f: bulkstat::LargeFileModel| file_json(f),
    );
    let mut list: Vec<serde_json::Value> = Vec::new();
    let mut i: usize = 0;
    assert(json::models(list@) =~= all.take(0));
    while i < files.len()
        invariant
            i <= files@.len(),
            all == sorting::views(files@).map_values(|f: bulkstat::LargeFileModel| file_json(f)),
            json::models(list@) == all.take(i as int),
        decreases files@.len() - i,
    {
        let item = file_to_json(&files[i]);
        proof {
            json::models_push(list@, item);
            assert(all.take(i + 1) =~= all.take(i as int).push(all[i as int]));
        }
        list.push(item);
        i += 1;
    }
    assert(all.take(all.len() as int) =~= all);
    json::of_list(list)
}

/// The report on the largest files.
pub fn top_to_json(path: &str, limit: usize, scan: &bulkstat::DirScan) -> (r: serde_json::Value)
    ensures
        json::json_model(r) == top_json(path@, limit as u64, scan@),
{
    let mut pairs = json::no_members();
    json::put(&mut pairs, "path", json::of_text(path));
    json::put(&mut pairs, "limit", json::of_number(limit as u64));
    json::put(&mut pairs, "total_logical", json::of_number(scan.size.logical));
    json::put(&mut pairs, "total_allocated", json::of_number(scan.size.allocated));
    json::put(&mut pairs, "inaccessible", json::of_number(scan.inaccessible as u64));
    json::put(&mut pairs, "skipped_mounts", json::of_number(scan.skipped_mounts as u64));
    json::put(&mut pairs, "files", files_to_json(&scan.largest_files));
    let ghost m = scan@;
    assert(json::pair_models(pairs@) =~= seq![
        ("path"@, json::Json::Text(path@)),
        ("limit"@, json::Json::Unsigned(limit as u64)),
        ("total_logical"@, json::Json::Unsigned(m.size.logical)),
        ("total_allocated"@, json::Json::Unsigned(m.size.allocated)),
        ("inaccessible"@, json::Json::Unsigned(m.inaccessible as u64)),
        ("skipped_mounts"@, json::Json::Unsigned(m.skipped_mounts as u64)),
        ("files"@, files_json(m.largest_files)),
    ]);
    json::of_members(pairs)
}

// ---------------------------------------------------------------------------
// Reclaimable space
// ---------------------------------------------------------------------------

pub open spec fn finding_json(finding: reclaim::FindingModel) -> json::Json {
    object(
        seq![
            ("label"@, json::Json::Text(finding.label)),
            ("class"@, json::Json::Text(finding.class.name())),
            ("count"@, json::Json::Unsigned(finding.count as u64)),
            ("logical"@, json::Json::Unsigned(finding.size.logical)),
            ("allocated"@, json::Json::Unsigned(finding.size.allocated)),
            ("inaccessible"@, json::Json::Unsigned(finding.inaccessible as u64)),
            ("skipped_mounts"@, json::Json::Unsigned(finding.skipped_mounts as u64)),
            ("rollup"@, json::Json::Bool(finding.rollup)),
            ("note"@, json::Json::Text(finding.note)),
            ("paths"@, texts_json(finding.paths)),
        ],
    )
}

pub open spec fn findings_json(findings: Seq<reclaim::FindingModel>) -> json::Json {
    json::Json::List(findings.map_values(|f: reclaim::FindingModel| finding_json(f)))
}

/// The report on reclaimable space.
pub open spec fn reclaim_json(report: reclaim::ReportModel) -> json::Json {
    object(
        seq![
            ("root"@, json::Json::Text(report.root)),
            ("total_logical"@, json::Json::Unsigned(report.total.logical)),
            ("total_allocated"@, json::Json::Unsigned(report.total.allocated)),
            ("inaccessible"@, json::Json::Unsigned(report.inaccessible as u64)),
            ("skipped_mounts"@, json::Json::Unsigned(report.skipped_mounts as u64)),
            ("findings"@, findings_json(report.findings)),
        ],
    )
}

fn finding_to_json(finding: &reclaim::Finding) -> (r: serde_json::Value)
    ensures
        json::json_model(r) == finding_json(finding@),
{
    let mut pairs = json::no_members();
    json::put(&mut pairs, "label", json::of_text(finding.label.as_str()));
    json::put(&mut pairs, "class", json::of_text(finding.class.label()));
    json::put(&mut pairs, "count", json::of_number(finding.count as u64));
    json::put(&mut pairs, "logical", json::of_number(finding.size.logical));
    json::put(&mut pairs, "allocated", json::of_number(finding.size.allocated));
    json::put(&mut pairs, "inaccessible", json::of_number(finding.inaccessible as u64));
    json::put(&mut pairs, "skipped_mounts", json::of_number(finding.skipped_mounts as u64));
    json::put(&mut pairs, "rollup", json::of_bool(finding.rollup));
    json::put(&mut pairs, "note", json::of_text(finding.note.as_str()));
    json::put(&mut pairs, "paths", texts_to_json(&finding.paths));
    let ghost f = finding@;
    assert(json::pair_models(pairs@) =~= seq![
        ("label"@, json::Json::Text(f.label)),
        ("class"@, json::Json::Text(f.class.name())),
        ("count"@, json::Json::Unsigned(f.count as u64)),
        ("logical"@, json::Json::Unsigned(f.size.logical)),
        ("allocated"@, json::Json::Unsigned(f.size.allocated)),
        ("inaccessible"@, json::Json::Unsigned(f.inaccessible as u64)),
        ("skipped_mounts"@, json::Json::Unsigned(f.skipped_mounts as u64)),
        ("rollup"@, json::Json::Bool(f.rollup)),
        ("note"@, json::Json::Text(f.note)),
        ("paths"@, texts_json(f.paths)),
    ]);
    json::of_members(pairs)
}

fn findings_to_json(findings: &Vec<reclaim::Finding>) -> (r: serde_json::Value)
    ensures
        json::json_model(r) == findings_json(sorting::views(findings@)),
{
    let ghost all = sorting::views(findings@).map_values(
        |f: reclaim::FindingModel| finding_json(f),
    );
    let mut list: Vec<serde_json::Value> = Vec::new();
    let mut i: usize = 0;
    assert(json::models(list@) =~= all.take(0));
    while i < findings.len()
        invariant
            i <= findings@.len(),
            all == sorting::views(findings@).map_values(
                |f: reclaim::FindingModel| finding_json(f),
            ),
            json::models(list@) == all.take(i as int),
        decreases findings@.len() - i,
    {
        let item = finding_to_json(&findings[i]);
        proof {
            json::models_push(list@, item);
            assert(all.take(i + 1) =~= all.take(i as int).push(all[i as int]));
        }
        list.push(item);
        i += 1;
    }
    assert(all.take(all.len() as int) =~= all);
    json::of_list(list)
}

/// The report on reclaimable space.
pub fn reclaim_to_json(report: &reclaim::ReclaimReport) -> (r: serde_json::Value)
    ensures
        json::json_model(r) == reclaim_json(report@),
{
    let mut pairs = json::no_members();
    json::put(&mut pairs, "root", json::of_text(report.root.as_str()));
    json::put(&mut pairs, "total_logical", json::of_number(report.total.logical));
    json::put(&mut pairs, "total_allocated", json::of_number(report.total.allocated));
    json::put(&mut pairs, "inaccessible", json::of_number(report.inaccessible as u64));
    json::put(&mut pairs, "skipped_mounts", json::of_number(report.skipped_mounts as u64));
    json::put(&mut pairs, "findings", findings_to_json(&report.findings));
    let ghost m = report@;
    assert(json::pair_models(pairs@) =~= seq![
        ("root"@, json::Json::Text(m.root)),
        ("total_logical"@, json::Json::Unsigned(m.total.logical)),
        ("total_allocated"@, json::Json::Unsigned(m.total.allocated)),
        ("inaccessible"@, json::Json::Unsigned(m.inaccessible as u64)),
        ("skipped_mounts"@, json::Json::Unsigned(m.skipped_mounts as u64)),
        ("findings"@, findings_json(m.findings)),
    ]);
    json::of_members(pairs)
}

// ---------------------------------------------------------------------------
// Baselines
// ---------------------------------------------------------------------------

/// The report on a saved baseline.
pub open spec fn save_json(record: history::RecordModel) -> json::Json {
    let total = history::children_total(record.children);
    object(
        seq![
            ("path"@, json::Json::Text(record.path)),
            ("timestamp"@, json::Json::Unsigned(record.timestamp)),
            ("total_logical"@, json::Json::Unsigned(total.logical)),
            ("total_allocated"@, json::Json::Unsigned(total.allocated)),
            ("inaccessible"@, json::Json::Unsigned(record.inaccessible as u64)),
            ("children"@, history::children_json(record.children)),
        ],
    )
}

/// The report on a saved baseline.
pub fn save_to_json(record: &history::ScanRecord) -> (r: serde_json::Value)
    ensures
        json::json_model(r) == save_json(record@),
{
    let total = record.total();
    let mut pairs = json::no_members();
    json::put(&mut pairs, "path", json::of_text(record.path.as_str()));
    json::put(&mut pairs, "timestamp", json::of_number(record.timestamp));
    json::put(&mut pairs, "total_logical", json::of_number(total.logical));
    json::put(&mut pairs, "total_allocated", json::of_number(total.allocated));
    json::put(&mut pairs, "inaccessible", json::of_number(record.inaccessible as u64));
    json::put(&mut pairs, "children", history::children_to_json(&record.children));
    let ghost m = record@;
    assert(json::pair_models(pairs@) =~= seq![
        ("path"@, json::Json::Text(m.path)),
        ("timestamp"@, json::Json::Unsigned(m.timestamp)),
        ("total_logical"@, json::Json::Unsigned(total.logical)),
        ("total_allocated"@, json::Json::Unsigned(total.allocated)),
        ("inaccessible"@, json::Json::Unsigned(m.inaccessible as u64)),
        ("children"@, history::children_json(m.children)),
    ]);
    json::of_members(pairs)
}

pub open spec fn change_json(change: history::ChangeModel) -> json::Json {
    object(
        seq![
            ("name"@, json::Json::Text(change.name)),
            ("status"@, json::Json::Text(reports::status_of(change))),
            ("before_logical"@, json::optional_number(logical_of(change.before))),
            ("before_allocated"@, json::optional_number(allocated_of(change.before))),
            ("after_logical"@, json::optional_number(logical_of(change.after))),
            ("after_allocated"@, json::optional_number(allocated_of(change.after))),
            (
                "delta_logical"@,
                json::Json::Text(labels::signed_decimal(change.logical_delta())),
            ),
            (
                "delta_allocated"@,
                json::Json::Text(labels::signed_decimal(change.allocated_delta())),
            ),
        ],
    )
}

pub open spec fn changes_json(changes: Seq<history::ChangeModel>) -> json::Json {
    json::Json::List(changes.map_values(|c: history::ChangeModel| change_json(c)))
}

/// The report on what changed since a baseline.
pub open spec fn diff_json(diff: history::DiffModel) -> json::Json {
    object(
        seq![
            ("path"@, json::Json::Text(diff.path)),
            ("baseline_timestamp"@, json::Json::Unsigned(diff.baseline_timestamp)),
            ("current_timestamp"@, json::Json::Unsigned(diff.current_timestamp)),
            ("before_total_logical"@, json::Json::Unsigned(diff.before_total.logical)),
            ("before_total_allocated"@, json::Json::Unsigned(diff.before_total.allocated)),
            ("after_total_logical"@, json::Json::Unsigned(diff.after_total.logical)),
            ("after_total_allocated"@, json::Json::Unsigned(diff.after_total.allocated)),
            (
                "total_delta_logical"@,
                json::Json::Text(
                    labels::signed_decimal(diff.after_total.logical - diff.before_total.logical),
                ),
            ),
            (
                "total_delta_allocated"@,
                json::Json::Text(
                    labels::signed_decimal(
                        diff.after_total.allocated - diff.before_total.allocated,
                    ),
                ),
            ),
            ("baseline_inaccessible"@, json::Json::Unsigned(diff.baseline_inaccessible as u64)),
            ("current_inaccessible"@, json::Json::Unsigned(diff.current_inaccessible as u64)),
            ("changes"@, changes_json(diff.changes)),
        ],
    )
}

fn change_to_json(change: &history::ChildChange) -> (r: serde_json::Value)
    ensures
        json::json_model(r) == change_json(change@),
{
    let logical: i128 = change.delta_logical();
    let allocated: i128 = change.delta_allocated();
    let mut pairs = json::no_members();
    json::put(&mut pairs, "name", json::of_text(change.name.as_str()));
    json::put(&mut pairs, "status", json::of_text(reports::change_status(change)));
    json::put(&mut pairs, "before_logical", logical_to_json(change.before));
    json::put(&mut pairs, "before_allocated", allocated_to_json(change.before));
    json::put(&mut pairs, "after_logical", logical_to_json(change.after));
    json::put(&mut pairs, "after_allocated", allocated_to_json(change.after));
    json::put(&mut pairs, "delta_logical", json::of_text(delta_text(logical).as_str()));
    json::put(&mut pairs, "delta_allocated", json::of_text(delta_text(allocated).as_str()));
    let ghost c = change@;
    assert(json::pair_models(pairs@) =~= seq![
        ("name"@, json::Json::Text(c.name)),
        ("status"@, json::Json::Text(reports::status_of(c))),
        ("before_logical"@, json::optional_number(logical_of(c.before))),
        ("before_allocated"@, json::optional_number(allocated_of(c.before))),
        ("after_logical"@, json::optional_number(logical_of(c.after))),
        ("after_allocated"@, json::optional_number(allocated_of(c.after))),
        ("delta_logical"@, json::Json::Text(labels::signed_decimal(c.logical_delta()))),
        ("delta_allocated"@, json::Json::Text(labels::signed_decimal(c.allocated_delta()))),
    ]);
    json::of_members(pairs)
}

fn changes_to_json(changes: &Vec<history::ChildChange>) -> (r: serde_json::Value)
    ensures
        json::json_model(r) == changes_json(sorting::views(changes@)),
{
    let ghost all = sorting::views(changes@).map_values(
        |c: history::ChangeModel| change_json(c),
    );
    let mut list: Vec<serde_json::Value> = Vec::new();
    let mut i: usize = 0;
    assert(json::models(list@) =~= all.take(0));
    while i < changes.len()
        invariant
            i <= changes@.len(),
            all == sorting::views(changes@).map_values(|c: history::ChangeModel| change_json(c)),
            json::models(list@) == all.take(i as int),
        decreases changes@.len() - i,
    {
        let item = change_to_json(&changes[i]);
        proof {
            json::models_push(list@, item);
            assert(all.take(i + 1) =~= all.take(i as int).push(all[i as int]));
        }
        list.push(item);
        i += 1;
    }
    assert(all.take(all.len() as int) =~= all);
    json::of_list(list)
}

/// The report on what changed since a baseline.
pub fn diff_to_json(report: &history::DiffReport) -> (r: serde_json::Value)
    ensures
        json::json_model(r) == diff_json(report@),
{
    let logical = delta_text(report.total_delta_logical());
    let allocated = delta_text(report.total_delta_allocated());
    let mut pairs = json::no_members();
    json::put(&mut pairs, "path", json::of_text(report.path.as_str()));
    json::put(&mut pairs, "baseline_timestamp", json::of_number(report.baseline_timestamp));
    json::put(&mut pairs, "current_timestamp", json::of_number(report.current_timestamp));
    json::put(&mut pairs, "before_total_logical", json::of_number(report.before_total.logical));
    json::put(&mut pairs, "before_total_allocated", json::of_number(report.before_total.allocated));
    json::put(&mut pairs, "after_total_logical", json::of_number(report.after_total.logical));
    json::put(&mut pairs, "after_total_allocated", json::of_number(report.after_total.allocated));
    json::put(&mut pairs, "total_delta_logical", json::of_text(logical.as_str()));
    json::put(&mut pairs, "total_delta_allocated", json::of_text(allocated.as_str()));
    json::put(
        &mut pairs,
        "baseline_inaccessible",
        json::of_number(report.baseline_inaccessible as u64),
    );
    json::put(
        &mut pairs,
        "current_inaccessible",
        json::of_number(report.current_inaccessible as u64),
    );
    json::put(&mut pairs, "changes", changes_to_json(&report.changes));
    let ghost m = report@;
    assert(json::pair_models(pairs@) =~= seq![
        ("path"@, json::Json::Text(m.path)),
        ("baseline_timestamp"@, json::Json::Unsigned(m.baseline_timestamp)),
        ("current_timestamp"@, json::Json::Unsigned(m.current_timestamp)),
        ("before_total_logical"@, json::Json::Unsigned(m.before_total.logical)),
        ("before_total_allocated"@, json::Json::Unsigned(m.before_total.allocated)),
        ("after_total_logical"@, json::Json::Unsigned(m.after_total.logical)),
        ("after_total_allocated"@, json::Json::Unsigned(m.after_total.allocated)),
        ("total_delta_logical"@, json::Json::Text(logical@)),
        ("total_delta_allocated"@, json::Json::Text(allocated@)),
        ("baseline_inaccessible"@, json::Json::Unsigned(m.baseline_inaccessible as u64)),
        ("current_inaccessible"@, json::Json::Unsigned(m.current_inaccessible as u64)),
        ("changes"@, changes_json(m.changes)),
    ]);
    json::of_members(pairs)
}

// ---------------------------------------------------------------------------
// Space
// ---------------------------------------------------------------------------

pub open spec fn snapshot_json(name: Seq<char>) -> json::Json {
    object(seq![("name"@, json::Json::Text(name))])
}

pub open spec fn snapshots_json(names: Seq<Seq<char>>) -> json::Json {
    json::Json::List(names.map_values(|n: Seq<char>| snapshot_json(n)))
}

pub open spec fn container_json(container: Option<space::ContainerModel>) -> json::Json {
    match container {
        Some(c) => object(
            seq![
                ("reference"@, json::Json::Text(c.reference)),
                ("size"@, json::Json::Unsigned(c.size)),
                ("free"@, json::Json::Unsigned(c.free)),
            ],
        ),
        None => json::Json::Null,
    }
}

/// The report on a volume's space.
pub open spec fn space_json(report: space::SpaceModel) -> json::Json {
    let stat = report.stat;
    object(
        seq![
            ("path"@, json::Json::Text(report.path)),
            ("mount"@, json::Json::Text(stat.mount)),
            ("device"@, json::Json::Text(stat.device)),
            ("filesystem"@, json::Json::Text(stat.fs_type)),
            ("total"@, json::Json::Unsigned(stat.total)),
            ("used"@, json::Json::Unsigned(stat.used)),
            ("free"@, json::Json::Unsigned(stat.free)),
            ("available"@, json::Json::Unsigned(stat.available)),
            ("free_not_user_available"@, json::Json::Unsigned(reports::withheld(report) as u64)),
            ("apfs_container"@, container_json(report.apfs_container)),
            ("local_snapshots"@, snapshots_json(report.local_snapshots.names)),
            ("local_snapshot_error"@, json::optional_text(report.local_snapshots.error)),
        ],
    )
}

fn snapshots_to_json(names: &Vec<String>) -> (r: serde_json::Value)
    ensures
        json::json_model(r) == snapshots_json(text::texts(names@)),
{
    let ghost all = text::texts(names@).map_values(|n: Seq<char>| snapshot_json(n));
    let mut list: Vec<serde_json::Value> = Vec::new();
    let mut i: usize = 0;
    assert(json::models(list@) =~= all.take(0));
    while i < names.len()
        invariant
            i <= names@.len(),
            all == text::texts(names@).map_values(|n: Seq<char>| snapshot_json(n)),
            json::models(list@) == all.take(i as int),
        decreases names@.len() - i,
    {
        let mut pairs = json::no_members();
        json::put(&mut pairs, "name", json::of_text(names[i].as_str()));
        assert(json::pair_models(pairs@) =~= seq![
            ("name"@, json::Json::Text(names@[i as int]@)),
        ]);
        let item = json::of_members(pairs);
        proof {
            json::models_push(list@, item);
            assert(all[i as int] == snapshot_json(names@[i as int]@));
            assert(all.take(i + 1) =~= all.take(i as int).push(all[i as int]));
        }
        list.push(item);
        i += 1;
    }
    assert(all.take(all.len() as int) =~= all);
    json::of_list(list)
}

fn container_to_json(container: &Option<space::ApfsContainer>) -> (r: serde_json::Value)
    ensures
        json::json_model(r) == container_json(space::container_view(*container)),
{
    match container {
        Some(c) => {
            let mut pairs = json::no_members();
            json::put(&mut pairs, "reference", json::of_text(c.reference.as_str()));
            json::put(&mut pairs, "size", json::of_number(c.size));
            json::put(&mut pairs, "free", json::of_number(c.free));
            assert(json::pair_models(pairs@) =~= seq![
                ("reference"@, json::Json::Text(c.reference@)),
                ("size"@, json::Json::Unsigned(c.size)),
                ("free"@, json::Json::Unsigned(c.free)),
            ]);
            json::of_members(pairs)
        },
        None => json::null(),
    }
}

/// The report on a volume's space.
pub fn space_to_json(report: &space::SpaceReport) -> (r: serde_json::Value)
    ensures
        json::json_model(r) == space_json(report@),
{
    let withheld: u64 = report.unavailable_free();
    let mut pairs = json::no_members();
    json::put(&mut pairs, "path", json::of_text(report.path.as_str()));
    json::put(&mut pairs, "mount", json::of_text(report.mount.as_str()));
    json::put(&mut pairs, "device", json::of_text(report.device.as_str()));
    json::put(&mut pairs, "filesystem", json::of_text(report.fs_type.as_str()));
    json::put(&mut pairs, "total", json::of_number(report.total));
    json::put(&mut pairs, "used", json::of_number(report.used));
    json::put(&mut pairs, "free", json::of_number(report.free));
    json::put(&mut pairs, "available", json::of_number(report.available));
    json::put(&mut pairs, "free_not_user_available", json::of_number(withheld));
    json::put(&mut pairs, "apfs_container", container_to_json(&report.apfs_container));
    json::put(&mut pairs, "local_snapshots", snapshots_to_json(&report.local_snapshots.names));
    json::put(
        &mut pairs,
        "local_snapshot_error",
        opt_text_to_json(&report.local_snapshots.error),
    );
    let ghost m = report@;
    assert(json::pair_models(pairs@) =~= seq![
        ("path"@, json::Json::Text(m.path)),
        ("mount"@, json::Json::Text(m.stat.mount)),
        ("device"@, json::Json::Text(m.stat.device)),
        ("filesystem"@, json::Json::Text(m.stat.fs_type)),
        ("total"@, json::Json::Unsigned(m.stat.total)),
        ("used"@, json::Json::Unsigned(m.stat.used)),
        ("free"@, json::Json::Unsigned(m.stat.free)),
        ("available"@, json::Json::Unsigned(m.stat.available)),
        ("free_not_user_available"@, json::Json::Unsigned(withheld)),
        ("apfs_container"@, container_json(m.apfs_container)),
        ("local_snapshots"@, snapshots_json(m.local_snapshots.names)),
        ("local_snapshot_error"@, json::optional_text(m.local_snapshots.error)),
    ]);
    json::of_members(pairs)
}

// ---------------------------------------------------------------------------
// Packages
// ---------------------------------------------------------------------------

pub open spec fn package_json(package: packages::PackageModel) -> json::Json {
    object(
        seq![
            ("name"@, json::Json::Text(package.name)),
            ("version"@, json::Json::Text(package.version)),
            ("logical"@, json::optional_number(logical_of(package.size))),
            ("allocated"@, json::optional_number(allocated_of(package.size))),
            ("path"@, json::optional_text(package.path)),
            ("metadata_path"@, json::optional_text(package.metadata_path)),
        ],
    )
}

pub open spec fn package_list_json(packages: Seq<packages::PackageModel>) -> json::Json {
    json::Json::List(packages.map_values(|p: packages::PackageModel| package_json(p)))
}

/// What is said of a manager: why its packages could not be listed only where
/// they could not.
pub open spec fn manager_json(report: packages::ManagerModel) -> json::Json {
    let members = seq![
        ("manager"@, json::Json::Text(report.manager.name())),
        ("count"@, json::Json::Unsigned(report.packages.len() as u64)),
        ("total_logical"@, json::Json::Unsigned(report.total_size.logical)),
        ("total_allocated"@, json::Json::Unsigned(report.total_size.allocated)),
        ("packages"@, package_list_json(report.packages)),
    ];
    object(
        match report.warning {
            Some(warning) => members.push(("warning"@, json::Json::Text(warning))),
            None => members,
        },
    )
}

/// What is said of the managers that are there.
pub open spec fn managers_json(reports: Seq<packages::ManagerModel>) -> Seq<json::Json>
    decreases reports.len(),
{
    if reports.len() == 0 {
        Seq::empty()
    } else if reports.last().available {
        managers_json(reports.drop_last()).push(manager_json(reports.last()))
    } else {
        managers_json(reports.drop_last())
    }
}

pub open spec fn project_json(project: manifests::ProjectModel) -> json::Json {
    object(
        seq![
            ("path"@, json::Json::Text(project.path)),
            ("manager"@, json::Json::Text(project.manager_label)),
            ("manifest"@, json::Json::Text(project.manifest)),
            ("dep_count"@, json::Json::Unsigned(project.dep_count as u64)),
            ("deps_logical"@, json::optional_number(logical_of(project.deps_size))),
            ("deps_allocated"@, json::optional_number(allocated_of(project.deps_size))),
        ],
    )
}

pub open spec fn projects_json(projects: Seq<manifests::ProjectModel>) -> json::Json {
    json::Json::List(projects.map_values(|p: manifests::ProjectModel| project_json(p)))
}

/// The report on packages and on the projects below a directory.
pub open spec fn packages_json(
    path: Seq<char>,
    reports: Seq<packages::ManagerModel>,
    projects: Seq<manifests::ProjectModel>,
) -> json::Json {
    object(
        seq![
            ("path"@, json::Json::Text(path)),
            ("system_packages"@, json::Json::List(managers_json(reports))),
            ("project_dependencies"@, projects_json(projects)),
        ],
    )
}

fn package_to_json(package: &packages::Package) -> (r: serde_json::Value)
    ensures
        json::json_model(r) == package_json(package@),
{
    let mut pairs = json::no_members();
    json::put(&mut pairs, "name", json::of_text(package.name.as_str()));
    json::put(&mut pairs, "version", json::of_text(package.version.as_str()));
    json::put(&mut pairs, "logical", logical_to_json(package.size));
    json::put(&mut pairs, "allocated", allocated_to_json(package.size));
    json::put(&mut pairs, "path", opt_text_to_json(&package.path));
    json::put(&mut pairs, "metadata_path", opt_text_to_json(&package.metadata_path));
    let ghost p = package@;
    assert(json::pair_models(pairs@) =~= seq![
        ("name"@, json::Json::Text(p.name)),
        ("version"@, json::Json::Text(p.version)),
        ("logical"@, json::optional_number(logical_of(p.size))),
        ("allocated"@, json::optional_number(allocated_of(p.size))),
        ("path"@, json::optional_text(p.path)),
        ("metadata_path"@, json::optional_text(p.metadata_path)),
    ]);
    json::of_members(pairs)
}

fn package_list_to_json(list: &Vec<packages::Package>) -> (r: serde_json::Value)
    ensures
        json::json_model(r) == package_list_json(sorting::views(list@)),
{
    let ghost all = sorting::views(list@).map_values(
        |p: packages::PackageModel| package_json(p),
    );
    let mut items: Vec<serde_json::Value> = Vec::new();
    let mut i: usize = 0;
    assert(json::models(items@) =~= all.take(0));
    while i < list.len()
        invariant
            i <= list@.len(),
            all == sorting::views(list@).map_values(|p: packages::PackageModel| package_json(p)),
            json::models(items@) == all.take(i as int),
        decreases list@.len() - i,
    {
        let item = package_to_json(&list[i]);
        proof {
            json::models_push(items@, item);
            assert(all.take(i + 1) =~= all.take(i as int).push(all[i as int]));
        }
        items.push(item);
        i += 1;
    }
    assert(all.take(all.len() as int) =~= all);
    json::of_list(items)
}

fn manager_to_json(report: &packages::ManagerReport) -> (r: serde_json::Value)
    ensures
        json::json_model(r) == manager_json(report@),
{
    let mut pairs = json::no_members();
    json::put(&mut pairs, "manager", json::of_text(report.manager.label()));
    json::put(&mut pairs, "count", json::of_number(report.packages.len() as u64));
    json::put(&mut pairs, "total_logical", json::of_number(report.total_size.logical));
    json::put(&mut pairs, "total_allocated", json::of_number(report.total_size.allocated));
    json::put(&mut pairs, "packages", package_list_to_json(&report.packages));
    let ghost m = report@;
    assert(json::pair_models(pairs@) =~= seq![
        ("manager"@, json::Json::Text(m.manager.name())),
        ("count"@, json::Json::Unsigned(m.packages.len() as u64)),
        ("total_logical"@, json::Json::Unsigned(m.total_size.logical)),
        ("total_allocated"@, json::Json::Unsigned(m.total_size.allocated)),
        ("packages"@, package_list_json(m.packages)),
    ]);
    if let Some(warning) = &report.warning {
        json::put(&mut pairs, "warning", json::of_text(warning.as_str()));
    }
    json::of_members(pairs)
}

fn managers_to_json(reports: &Vec<packages::ManagerReport>) -> (r: serde_json::Value)
    ensures
        json::json_model(r) == json::Json::List(managers_json(sorting::views(reports@))),
{
    let ghost all = sorting::views(reports@);
    let mut items: Vec<serde_json::Value> = Vec::new();
    let mut i: usize = 0;
    assert(all.take(0) =~= Seq::<packages::ManagerModel>::empty());
    assert(json::models(items@) =~= managers_json(all.take(0)));
    while i < reports.len()
        invariant
            i <= reports@.len(),
            all == sorting::views(reports@),
            json::models(items@) == managers_json(all.take(i as int)),
        decreases reports@.len() - i,
    {
        assert(all.take(i + 1).drop_last() =~= all.take(i as int));
        assert(all.take(i + 1).last() == reports@[i as int]@);
        if reports[i].available {
            let item = manager_to_json(&reports[i]);
            proof {
                json::models_push(items@, item);
            }
            items.push(item);
        }
        i += 1;
    }
    assert(all.take(all.len() as int) =~= all);
    json::of_list(items)
}

fn project_to_json(project: &manifests::ProjectDeps) -> (r: serde_json::Value)
    ensures
        json::json_model(r) == project_json(project@),
{
    let mut pairs = json::no_members();
    json::put(&mut pairs, "path", json::of_text(project.path.as_str()));
    json::put(&mut pairs, "manager", json::of_text(project.manager_label.as_str()));
    json::put(&mut pairs, "manifest", json::of_text(project.manifest.as_str()));
    json::put(&mut pairs, "dep_count", json::of_number(project.dep_count as u64));
    json::put(&mut pairs, "deps_logical", logical_to_json(project.deps_size));
    json::put(&mut pairs, "deps_allocated", allocated_to_json(project.deps_size));
    let ghost p = project@;
    assert(json::pair_models(pairs@) =~= seq![
        ("path"@, json::Json::Text(p.path)),
        ("manager"@, json::Json::Text(p.manager_label)),
        ("manifest"@, json::Json::Text(p.manifest)),
        ("dep_count"@, json::Json::Unsigned(p.dep_count as u64)),
        ("deps_logical"@, json::optional_number(logical_of(p.deps_size))),
        ("deps_allocated"@, json::optional_number(allocated_of(p.deps_size))),
    ]);
    json::of_members(pairs)
}

fn projects_to_json(projects: &Vec<manifests::ProjectDeps>) -> (r: serde_json::Value)
    ensures
        json::json_model(r) == projects_json(sorting::views(projects@)),
{
    let ghost all = sorting::views(projects@).map_values(
        |p: manifests::ProjectModel| project_json(p),
    );
    let mut items: Vec<serde_json::Value> = Vec::new();
    let mut i: usize = 0;
    assert(json::models(items@) =~= all.take(0));
    while i < projects.len()
        invariant
            i <= projects@.len(),
            all == sorting::views(projects@).map_values(
                |p: manifests::ProjectModel| project_json(p),
            ),
            json::models(items@) == all.take(i as int),
        decreases projects@.len() - i,
    {
        let item = project_to_json(&projects[i]);
        proof {
            json::models_push(items@, item);
            assert(all.take(i + 1) =~= all.take(i as int).push(all[i as int]));
        }
        items.push(item);
        i += 1;
    }
    assert(all.take(all.len() as int) =~= all);
    json::of_list(items)
}

/// The report on packages and on the projects below a directory.
pub fn packages_to_json(
    path: &str,
    reports: &Vec<packages::ManagerReport>,
    projects: &Vec<manifests::ProjectDeps>,
) -> (r: serde_json::Value)
    ensures
        json::json_model(r) == packages_json(
            path@,
            sorting::views(reports@),
            sorting::views(projects@),
        ),
{
    let mut pairs = json::no_members();
    json::put(&mut pairs, "path", json::of_text(path));
    json::put(&mut pairs, "system_packages", managers_to_json(reports));
    json::put(&mut pairs, "project_dependencies", projects_to_json(projects));
    assert(json::pair_models(pairs@) =~= seq![
        ("path"@, json::Json::Text(path@)),
        ("system_packages"@, json::Json::List(managers_json(sorting::views(reports@)))),
        ("project_dependencies"@, projects_json(sorting::views(projects@))),
    ]);
    json::of_members(pairs)
}

// ---------------------------------------------------------------------------
// Laws
// ---------------------------------------------------------------------------

proof fn member_of(pairs: Seq<(Seq<char>, json::Json)>, i: int)
    requires
        0 <= i < pairs.len(),
        forall|j: int| i < j < pairs.len() ==> (#[trigger] pairs[j]).0 != pairs[i].0,
    ensures
        json::member(object(pairs), pairs[i].0) == Some(pairs[i].1),
    decreases pairs.len(),
{
    let less = pairs.drop_last();
    if i < pairs.len() - 1 {
        assert(less[i] == pairs[i]);
        assert forall|j: int| i < j < less.len() implies (#[trigger] less[j]).0 != less[i].0 by {
            assert(less[j] == pairs[j]);
        }
        member_of(less, i);
        assert(pairs[pairs.len() - 1].0 != pairs[i].0);
    }
}

/// What is told of a large file is its path and both of its sizes.
pub proof fn files_are_told_as_they_are(file: bulkstat::LargeFileModel)
    ensures
        json::member(file_json(file), "path"@) == Some(json::Json::Text(file.path)),
        json::member(file_json(file), "logical"@) == Some(json::Json::Unsigned(file.size.logical)),
        json::member(file_json(file), "allocated"@) == Some(json::Json::Unsigned(file.size.allocated)),
{
    reveal_strlit("path");
    reveal_strlit("logical");
    reveal_strlit("allocated");
    assert("path"@.len() == 4);
    assert("logical"@.len() == 7);
    assert("allocated"@.len() == 9);
    let pairs = seq![
        ("path"@, json::Json::Text(file.path)),
        ("logical"@, json::Json::Unsigned(file.size.logical)),
        ("allocated"@, json::Json::Unsigned(file.size.allocated)),
    ];
    member_of(pairs, 0);
    member_of(pairs, 1);
    member_of(pairs, 2);
}

/// What is told of a finding is what was found, member by member.
pub proof fn findings_are_told_as_they_are(finding: reclaim::FindingModel)
    ensures
        json::member(finding_json(finding), "label"@) == Some(json::Json::Text(finding.label)),
        json::member(finding_json(finding), "class"@) == Some(json::Json::Text(finding.class.name())),
        json::member(finding_json(finding), "count"@) == Some(json::Json::Unsigned(finding.count as u64)),
        json::member(finding_json(finding), "logical"@) == Some(json::Json::Unsigned(finding.size.logical)),
        json::member(finding_json(finding), "allocated"@) == Some(json::Json::Unsigned(finding.size.allocated)),
        json::member(finding_json(finding), "inaccessible"@) == Some(json::Json::Unsigned(finding.inaccessible as u64)),
        json::member(finding_json(finding), "skipped_mounts"@) == Some(json::Json::Unsigned(finding.skipped_mounts as u64)),
        json::member(finding_json(finding), "rollup"@) == Some(json::Json::Bool(finding.rollup)),
        json::member(finding_json(finding), "note"@) == Some(json::Json::Text(finding.note)),
        json::member(finding_json(finding), "paths"@) == Some(texts_json(finding.paths)),
{
    reveal_strlit("label");
    reveal_strlit("class");
    reveal_strlit("count");
    reveal_strlit("logical");
    reveal_strlit("allocated");
    reveal_strlit("inaccessible");
    reveal_strlit("skipped_mounts");
    reveal_strlit("rollup");
    reveal_strlit("note");
    reveal_strlit("paths");
    assert("label"@.len() == 5);
    assert("class"@.len() == 5);
    assert("count"@.len() == 5);
    assert("logical"@.len() == 7);
    assert("allocated"@.len() == 9);
    assert("inaccessible"@.len() == 12);
    assert("skipped_mounts"@.len() == 14);
    assert("rollup"@.len() == 6);
    assert("note"@.len() == 4);
    assert("paths"@.len() == 5);
    assert("label"@[0] != "class"@[0]);
    assert("label"@[0] != "count"@[0]);
    assert("label"@[0] != "paths"@[0]);
    assert("class"@[1] != "count"@[1]);
    assert("class"@[0] != "paths"@[0]);
    assert("count"@[0] != "paths"@[0]);
    let pairs = seq![
        ("label"@, json::Json::Text(finding.label)),
        ("class"@, json::Json::Text(finding.class.name())),
        ("count"@, json::Json::Unsigned(finding.count as u64)),
        ("logical"@, json::Json::Unsigned(finding.size.logical)),
        ("allocated"@, json::Json::Unsigned(finding.size.allocated)),
        ("inaccessible"@, json::Json::Unsigned(finding.inaccessible as u64)),
        ("skipped_mounts"@, json::Json::Unsigned(finding.skipped_mounts as u64)),
        ("rollup"@, json::Json::Bool(finding.rollup)),
        ("note"@, json::Json::Text(finding.note)),
        ("paths"@, texts_json(finding.paths)),
    ];
    member_of(pairs, 0);
    member_of(pairs, 1);
    member_of(pairs, 2);
    member_of(pairs, 3);
    member_of(pairs, 4);
    member_of(pairs, 5);
    member_of(pairs, 6);
    member_of(pairs, 7);
    member_of(pairs, 8);
    member_of(pairs, 9);
}

/// The report on the largest files tells the sums of the scan as they are.
pub proof fn totals_are_told_as_they_are(path: Seq<char>, limit: u64, scan: bulkstat::DirScanModel)
    ensures
        json::member(top_json(path, limit, scan), "path"@) == Some(json::Json::Text(path)),
        json::member(top_json(path, limit, scan), "limit"@) == Some(json::Json::Unsigned(limit)),
        json::member(top_json(path, limit, scan), "total_logical"@) == Some(json::Json::Unsigned(scan.size.logical)),
        json::member(top_json(path, limit, scan), "total_allocated"@) == Some(json::Json::Unsigned(scan.size.allocated)),
        json::member(top_json(path, limit, scan), "inaccessible"@) == Some(json::Json::Unsigned(scan.inaccessible as u64)),
        json::member(top_json(path, limit, scan), "skipped_mounts"@) == Some(json::Json::Unsigned(scan.skipped_mounts as u64)),
        json::member(top_json(path, limit, scan), "files"@) == Some(files_json(scan.largest_files)),
{
    reveal_strlit("path");
    reveal_strlit("limit");
    reveal_strlit("total_logical");
    reveal_strlit("total_allocated");
    reveal_strlit("inaccessible");
    reveal_strlit("skipped_mounts");
    reveal_strlit("files");
    assert("path"@.len() == 4);
    assert("limit"@.len() == 5);
    assert("total_logical"@.len() == 13);
    assert("total_allocated"@.len() == 15);
    assert("inaccessible"@.len() == 12);
    assert("skipped_mounts"@.len() == 14);
    assert("files"@.len() == 5);
    assert("limit"@[0] != "files"@[0]);
    let pairs = seq![
        ("path"@, json::Json::Text(path)),
        ("limit"@, json::Json::Unsigned(limit)),
        ("total_logical"@, json::Json::Unsigned(scan.size.logical)),
        ("total_allocated"@, json::Json::Unsigned(scan.size.allocated)),
        ("inaccessible"@, json::Json::Unsigned(scan.inaccessible as u64)),
        ("skipped_mounts"@, json::Json::Unsigned(scan.skipped_mounts as u64)),
        ("files"@, files_json(scan.largest_files)),
    ];
    member_of(pairs, 0);
    member_of(pairs, 1);
    member_of(pairs, 2);
    member_of(pairs, 3);
    member_of(pairs, 4);
    member_of(pairs, 5);
    member_of(pairs, 6);
}

/// The report on reclaimable space tells its sums as they are.
pub proof fn reclaimable_sums_are_told_as_they_are(report: reclaim::ReportModel)
    ensures
        json::member(reclaim_json(report), "root"@) == Some(json::Json::Text(report.root)),
        json::member(reclaim_json(report), "total_logical"@) == Some(json::Json::Unsigned(report.total.logical)),
        json::member(reclaim_json(report), "total_allocated"@) == Some(json::Json::Unsigned(report.total.allocated)),
        json::member(reclaim_json(report), "inaccessible"@) == Some(json::Json::Unsigned(report.inaccessible as u64)),
        json::member(reclaim_json(report), "skipped_mounts"@) == Some(json::Json::Unsigned(report.skipped_mounts as u64)),
        json::member(reclaim_json(report), "findings"@) == Some(findings_json(report.findings)),
{
    reveal_strlit("root");
    reveal_strlit("total_logical");
    reveal_strlit("total_allocated");
    reveal_strlit("inaccessible");
    reveal_strlit("skipped_mounts");
    reveal_strlit("findings");
    assert("root"@.len() == 4);
    assert("total_logical"@.len() == 13);
    assert("total_allocated"@.len() == 15);
    assert("inaccessible"@.len() == 12);
    assert("skipped_mounts"@.len() == 14);
    assert("findings"@.len() == 8);
    let pairs = seq![
        ("root"@, json::Json::Text(report.root)),
        ("total_logical"@, json::Json::Unsigned(report.total.logical)),
        ("total_allocated"@, json::Json::Unsigned(report.total.allocated)),
        ("inaccessible"@, json::Json::Unsigned(report.inaccessible as u64)),
        ("skipped_mounts"@, json::Json::Unsigned(report.skipped_mounts as u64)),
        ("findings"@, findings_json(report.findings)),
    ];
    member_of(pairs, 0);
    member_of(pairs, 1);
    member_of(pairs, 2);
    member_of(pairs, 3);
    member_of(pairs, 4);
    member_of(pairs, 5);
}

/// What is told of a package is its name, its version, both sizes where they are
/// known, and its places.
pub proof fn packages_are_told_as_they_are(package: packages::PackageModel)
    ensures
        json::member(package_json(package), "name"@) == Some(json::Json::Text(package.name)),
        json::member(package_json(package), "version"@) == Some(json::Json::Text(package.version)),
        json::member(package_json(package), "logical"@) == Some(json::optional_number(logical_of(package.size))),
        json::member(package_json(package), "allocated"@) == Some(json::optional_number(allocated_of(package.size))),
        json::member(package_json(package), "path"@) == Some(json::optional_text(package.path)),
        json::member(package_json(package), "metadata_path"@) == Some(json::optional_text(package.metadata_path)),
{
    reveal_strlit("name");
    reveal_strlit("version");
    reveal_strlit("logical");
    reveal_strlit("allocated");
    reveal_strlit("path");
    reveal_strlit("metadata_path");
    assert("name"@.len() == 4);
    assert("version"@.len() == 7);
    assert("logical"@.len() == 7);
    assert("allocated"@.len() == 9);
    assert("path"@.len() == 4);
    assert("metadata_path"@.len() == 13);
    assert("name"@[0] != "path"@[0]);
    assert("version"@[0] != "logical"@[0]);
    let pairs = seq![
        ("name"@, json::Json::Text(package.name)),
        ("version"@, json::Json::Text(package.version)),
        ("logical"@, json::optional_number(logical_of(package.size))),
        ("allocated"@, json::optional_number(allocated_of(package.size))),
        ("path"@, json::optional_text(package.path)),
        ("metadata_path"@, json::optional_text(package.metadata_path)),
    ];
    member_of(pairs, 0);
    member_of(pairs, 1);
    member_of(pairs, 2);
    member_of(pairs, 3);
    member_of(pairs, 4);
    member_of(pairs, 5);
}

/// Every item of a list is told, in order: files, findings, changes, packages
/// and projects.
pub proof fn every_item_is_told(
    files: Seq<bulkstat::LargeFileModel>,
    findings: Seq<reclaim::FindingModel>,
    changes: Seq<history::ChangeModel>,
    list: Seq<packages::PackageModel>,
    projects: Seq<manifests::ProjectModel>,
    i: int,
)
    ensures
        files_json(files)->List_0.len() == files.len(),
        0 <= i < files.len() ==> files_json(files)->List_0[i] == file_json(files[i]),
        findings_json(findings)->List_0.len() == findings.len(),
        0 <= i < findings.len() ==> findings_json(findings)->List_0[i] == finding_json(findings[i]),
        changes_json(changes)->List_0.len() == changes.len(),
        0 <= i < changes.len() ==> changes_json(changes)->List_0[i] == change_json(changes[i]),
        package_list_json(list)->List_0.len() == list.len(),
        0 <= i < list.len() ==> package_list_json(list)->List_0[i] == package_json(list[i]),
        projects_json(projects)->List_0.len() == projects.len(),
        0 <= i < projects.len() ==> projects_json(projects)->List_0[i] == project_json(projects[i]),
{
}

/// Every manager that is there is told of, in order, and no other.
pub proof fn every_manager_is_told(reports: Seq<packages::ManagerModel>)
    ensures
        managers_json(reports) == reports.filter(
            |r: packages::ManagerModel| r.available,
        ).map_values(|r: packages::ManagerModel| manager_json(r)),
    decreases reports.len(),
{
    reveal(Seq::filter);
    let wanted = |r: packages::ManagerModel| r.available;
    let shown = |r: packages::ManagerModel| manager_json(r);
    if reports.len() == 0 {
        assert(reports.filter(wanted).map_values(shown) =~= Seq::<json::Json>::empty());
    } else {
        let less = reports.drop_last();
        let last = reports.last();
        every_manager_is_told(less);
        if wanted(last) {
            assert(reports.filter(wanted).map_values(shown) =~= less.filter(wanted).map_values(
                shown,
            ).push(shown(last)));
        }
    }
}

} // verus!
