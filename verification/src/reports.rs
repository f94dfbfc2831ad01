//! The reports of the command line, line by line.

use crate::bulkstat;
use crate::history;
use crate::keymap;
use crate::labels;
use crate::manifests;
use crate::packages;
use crate::reclaim;
use crate::screen;
use crate::sizes;
use crate::sorting;
use crate::space;
use crate::text;
use vstd::prelude::*;

verus! {

/// Lines of text.
#[derive(Debug)]
pub struct Page {
    pub lines: Vec<String>,
}

impl View for Page {
    type V = Seq<Seq<char>>;

    open spec fn view(&self) -> Seq<Seq<char>> {
        text::texts(self.lines@)
    }
}

/// A page without lines.
pub open spec fn empty_page() -> Seq<Seq<char>> {
    Seq::empty()
}

impl Page {
    fn new() -> (r: Page)
        ensures
            r@ == empty_page(),
    {
        let r = Page { lines: Vec::new() };
        assert(r@ =~= empty_page());
        r
    }

    fn say(&mut self, line: &str)
        ensures
            final(self)@ == old(self)@.push(line@),
    {
        let copy = line.to_owned();
        proof {
            text::texts_push(self.lines@, copy);
        }
        self.lines.push(copy);
    }

    fn say2(&mut self, a: &str, b: &str)
        ensures
            final(self)@ == old(self)@.push(a@ + b@),
    {
        self.say(text::join2(a, b).as_str());
    }

    fn say3(&mut self, a: &str, b: &str, c: &str)
        ensures
            final(self)@ == old(self)@.push(a@ + b@ + c@),
    {
        self.say(text::join3(a, b, c).as_str());
    }
}

// ---------------------------------------------------------------------------
// Sizes
// ---------------------------------------------------------------------------

/// A size, both ways where they differ.
pub open spec fn size_label(size: bulkstat::SizeInfo) -> Seq<char> {
    if size.allocated == size.logical {
        sizes::human_text(size.logical as nat)
    } else {
        both_sizes(size)
    }
}

/// A size both ways.
pub open spec fn both_sizes(size: bulkstat::SizeInfo) -> Seq<char> {
    sizes::human_text(size.allocated as nat) + " disk / "@ + sizes::human_text(size.logical as nat)
        + " apparent"@
}

fn say_both_sizes(size: bulkstat::SizeInfo) -> (r: String)
    ensures
        r@ == both_sizes(size),
{
    text::join4(
        sizes::human(size.allocated).as_str(),
        " disk / ",
        sizes::human(size.logical).as_str(),
        " apparent",
    )
}

/// A size, both ways where they differ.
pub fn top_size_label(size: bulkstat::SizeInfo) -> (r: String)
    ensures
        r@ == size_label(size),
{
    if size.allocated == size.logical {
        sizes::human(size.logical)
    } else {
        say_both_sizes(size)
    }
}

/// The size of a finding, marked where it is a lower bound.
pub open spec fn finding_size(finding: reclaim::FindingModel) -> Seq<char> {
    if finding.inaccessible > 0 {
        "≥"@ + size_label(finding.size)
    } else {
        size_label(finding.size)
    }
}

/// The size of a finding, marked where it is a lower bound.
pub fn reclaim_size_label(finding: &reclaim::Finding) -> (r: String)
    ensures
        r@ == finding_size(finding@),
{
    let label = top_size_label(finding.size);
    if finding.inaccessible > 0 {
        text::join2("≥", label.as_str())
    } else {
        label
    }
}

/// A number of bytes with its sign, as far as a machine word counts.
pub open spec fn signed_bytes(delta: int) -> Seq<char> {
    let size = history::magnitude(delta);
    let counted = if size > u64::MAX {
        u64::MAX as nat
    } else {
        size as nat
    };
    (if delta < 0 {
        "-"@
    } else {
        "+"@
    }) + sizes::human_text(counted)
}

/// A number of bytes with its sign.
pub fn format_signed_bytes(delta: i128) -> (r: String)
    ensures
        r@ == signed_bytes(delta as int),
{
    let most: i128 = u64::MAX as i128;
    let counted: u64 = if delta > most || delta < -most {
        u64::MAX
    } else if delta < 0 {
        (-delta) as u64
    } else {
        delta as u64
    };
    let sign = if delta < 0 {
        "-"
    } else {
        "+"
    };
    text::join2(sign, sizes::human(counted).as_str())
}

/// A text in the middle of a field, the odd space behind it.
pub open spec fn centred(s: Seq<char>, width: nat) -> Seq<char> {
    let room = if s.len() < width {
        (width - s.len()) as nat
    } else {
        0
    };
    text::repeated(' ', room / 2) + s + text::repeated(' ', (room - room / 2) as nat)
}

fn centre(s: &str, width: usize) -> (r: String)
    ensures
        r@ == centred(s@, width as nat),
{
    let used: usize = text::chars_of(s).len();
    let room: usize = width.saturating_sub(used);
    let left = text::repeat_char(' ', room / 2);
    let right = text::repeat_char(' ', room - room / 2);
    text::join3(left.as_str(), s, right.as_str())
}

fn count_text(n: usize) -> (r: String)
    ensures
        r@ == text::decimal(n as nat),
{
    text::decimal_text(n as u64)
}

/// The line of totals.
pub open spec fn total_line(size: bulkstat::SizeInfo) -> Seq<char> {
    "Total: "@ + both_sizes(size)
}

/// The warning that a scan met unreadable directories, where it did.
pub open spec fn with_warning(lines: Seq<Seq<char>>, inaccessible: u32) -> Seq<Seq<char>> {
    if inaccessible > 0 {
        lines.push(
            "Warning: "@ + text::decimal(inaccessible as nat)
                + " directories were unreadable; totals are lower bounds."@,
        )
    } else {
        lines
    }
}

/// The note that a scan met other volumes, where it did.
pub open spec fn with_note(lines: Seq<Seq<char>>, skipped_mounts: u32) -> Seq<Seq<char>> {
    if skipped_mounts > 0 {
        lines.push(
            "Note: skipped "@ + text::decimal(skipped_mounts as nat)
                + " mounted volumes on other devices."@,
        )
    } else {
        lines
    }
}

fn warn(page: &mut Page, inaccessible: u32)
    ensures
        final(page)@ == with_warning(old(page)@, inaccessible),
{
    if inaccessible > 0 {
        page.say3(
            "Warning: ",
            text::decimal_text(inaccessible as u64).as_str(),
            " directories were unreadable; totals are lower bounds.",
        );
    }
}

fn note(page: &mut Page, skipped_mounts: u32)
    ensures
        final(page)@ == with_note(old(page)@, skipped_mounts),
{
    if skipped_mounts > 0 {
        page.say3(
            "Note: skipped ",
            text::decimal_text(skipped_mounts as u64).as_str(),
            " mounted volumes on other devices.",
        );
    }
}

// ---------------------------------------------------------------------------
// The largest files
// ---------------------------------------------------------------------------

/// What stands above the list of the largest files.
pub open spec fn top_heading(path: Seq<char>, limit: nat, scan: bulkstat::DirScanModel) -> Seq<
    Seq<char>,
> {
    with_note(
        with_warning(
            empty_page().push(
                "Top "@ + text::decimal(limit) + " files by allocated size under "@ + path,
            ).push(total_line(scan.size)),
            scan.inaccessible,
        ),
        scan.skipped_mounts,
    )
}

/// The line of a file, with its place in the list.
pub open spec fn top_row(place: nat, file: bulkstat::LargeFileModel) -> Seq<char> {
    screen::padded_left(text::decimal(place), 2) + ". "@ + screen::padded_left(
        size_label(file.size),
        22,
    ) + "  "@ + file.path
}

/// The report on the largest files.
pub open spec fn top_lines(path: Seq<char>, limit: nat, scan: bulkstat::DirScanModel) -> Seq<
    Seq<char>,
> {
    let heading = top_heading(path, limit, scan);
    if scan.largest_files.len() == 0 {
        heading.push("No regular files found."@)
    } else {
        heading + Seq::new(
            scan.largest_files.len(),
            |i: int| top_row((i + 1) as nat, scan.largest_files[i]),
        )
    }
}

/// The report on the largest files.
pub fn top_report(path: &str, limit: usize, scan: &bulkstat::DirScan) -> (r: Page)
    ensures
        r@ == top_lines(path@, limit as nat, scan@),
{
    let mut page = Page::new();
    page.say(
        text::join4(
            "Top ",
            count_text(limit).as_str(),
            " files by allocated size under ",
            path,
        ).as_str(),
    );
    page.say2("Total: ", say_both_sizes(scan.size).as_str());
    warn(&mut page, scan.inaccessible);
    note(&mut page, scan.skipped_mounts);
    let ghost m = scan@;
    let ghost heading = top_heading(path@, limit as nat, m);
    assert(page@ == heading);
    if scan.largest_files.len() == 0 {
        page.say("No regular files found.");
        return page;
    }
    let ghost rows = Seq::new(
        m.largest_files.len(),
        |i: int| top_row((i + 1) as nat, m.largest_files[i]),
    );
    let mut i: usize = 0;
    assert(heading + rows.take(0) =~= heading);
    while i < scan.largest_files.len()
        invariant
            i <= scan.largest_files@.len(),
            m == scan@,
            rows == Seq::new(
                m.largest_files.len(),
                |i: int| top_row((i + 1) as nat, m.largest_files[i]),
            ),
            page@ == heading + rows.take(i as int),
        decreases scan.largest_files@.len() - i,
    {
        let file = &scan.largest_files[i];
        assert(m.largest_files[i as int] == file@);
        assert(rows[i as int] == top_row((i + 1) as nat, file@));
        page.say(
            text::join5(
                screen::pad_left(count_text(i + 1).as_str(), 2).as_str(),
                ". ",
                screen::pad_left(top_size_label(file.size).as_str(), 22).as_str(),
                "  ",
                file.path.as_str(),
            ).as_str(),
        );
        assert(heading + rows.take(i + 1) =~= (heading + rows.take(i as int)).push(rows[i as int]));
        i += 1;
    }
    assert(rows.take(rows.len() as int) =~= rows);
    page
}

// ---------------------------------------------------------------------------
// Reclaimable space
// ---------------------------------------------------------------------------

/// How often a finding was found, where it is more than once.
pub open spec fn times_label(count: nat) -> Seq<char> {
    if count > 1 {
        " (x"@ + text::decimal(count) + ")"@
    } else {
        ""@
    }
}

/// The line of a finding. What others count already is marked as a subtotal.
pub open spec fn finding_row(finding: reclaim::FindingModel) -> Seq<char> {
    screen::padded_left(finding_size(finding), 22) + "  ["@ + centred(finding.class.name(), 11)
        + "]  "@ + finding.label + times_label(finding.count) + if finding.rollup {
        " [subtotal]"@
    } else {
        ""@
    }
}

/// The lines of the findings, each with its note below.
pub open spec fn finding_rows(
    lines: Seq<Seq<char>>,
    findings: Seq<reclaim::FindingModel>,
) -> Seq<Seq<char>>
    decreases findings.len(),
{
    if findings.len() == 0 {
        lines
    } else {
        finding_rows(lines, findings.drop_last()).push(finding_row(findings.last())).push(
            "                          "@ + findings.last().note,
        )
    }
}

/// The report on reclaimable space.
pub open spec fn reclaim_lines(report: reclaim::ReportModel) -> Seq<Seq<char>> {
    let heading = with_note(
        with_warning(
            empty_page().push("Reclaimable space under "@ + report.root).push(
                total_line(report.total),
            ),
            report.inaccessible,
        ),
        report.skipped_mounts,
    );
    if report.findings.len() == 0 {
        heading.push("No known reclaimable caches or build artifacts found."@)
    } else {
        finding_rows(heading, report.findings).push(""@).push(
            "This is a report only; diskr does not delete anything here."@,
        )
    }
}

fn say_finding(finding: &reclaim::Finding) -> (r: String)
    ensures
        r@ == finding_row(finding@),
{
    let front = text::join4(
        screen::pad_left(reclaim_size_label(finding).as_str(), 22).as_str(),
        "  [",
        centre(finding.class.label(), 11).as_str(),
        "]  ",
    );
    let count = if finding.count > 1 {
        text::join3(" (x", count_text(finding.count).as_str(), ")")
    } else {
        "".to_owned()
    };
    let suffix = if finding.rollup {
        " [subtotal]"
    } else {
        ""
    };
    text::join4(front.as_str(), finding.label.as_str(), count.as_str(), suffix)
}

/// The report on reclaimable space.
pub fn reclaim_report(report: &reclaim::ReclaimReport) -> (r: Page)
    ensures
        r@ == reclaim_lines(report@),
{
    let mut page = Page::new();
    page.say2("Reclaimable space under ", report.root.as_str());
    page.say2("Total: ", say_both_sizes(report.total).as_str());
    warn(&mut page, report.inaccessible);
    note(&mut page, report.skipped_mounts);
    if report.findings.len() == 0 {
        page.say("No known reclaimable caches or build artifacts found.");
        return page;
    }
    let ghost heading = page@;
    let ghost all = report@.findings;
    let mut i: usize = 0;
    assert(all.take(0) =~= Seq::<reclaim::FindingModel>::empty());
    while i < report.findings.len()
        invariant
            i <= report.findings@.len(),
            all == report@.findings,
            page@ == finding_rows(heading, all.take(i as int)),
        decreases report.findings@.len() - i,
    {
        let finding = &report.findings[i];
        page.say(say_finding(finding).as_str());
        page.say2("                          ", finding.note.as_str());
        assert(all.take(i + 1).drop_last() =~= all.take(i as int));
        assert(all.take(i + 1).last() == finding@);
        i += 1;
    }
    assert(all.take(all.len() as int) =~= all);
    page.say("");
    page.say("This is a report only; diskr does not delete anything here.");
    page
}

// ---------------------------------------------------------------------------
// Baselines
// ---------------------------------------------------------------------------

/// The report on a saved baseline.
pub open spec fn save_lines(record: history::RecordModel) -> Seq<Seq<char>> {
    with_warning(
        empty_page().push("Saved baseline for "@ + record.path).push(
            total_line(history::children_total(record.children)) + " across "@ + text::decimal(
                record.children.len(),
            ) + " entries"@,
        ),
        record.inaccessible,
    ).push("Compare later with `diskr --diff "@ + record.path + "`."@)
}

/// The report on a saved baseline.
pub fn save_report(record: &history::ScanRecord) -> (r: Page)
    ensures
        r@ == save_lines(record@),
{
    let mut page = Page::new();
    page.say2("Saved baseline for ", record.path.as_str());
    page.say(
        text::join5(
            "Total: ",
            say_both_sizes(record.total()).as_str(),
            " across ",
            count_text(record.children.len()).as_str(),
            " entries",
        ).as_str(),
    );
    warn(&mut page, record.inaccessible);
    page.say3("Compare later with `diskr --diff ", record.path.as_str(), "`.");
    page
}

/// What became of a child.
pub open spec fn status_of(change: history::ChangeModel) -> Seq<char> {
    if change.before is None && change.after is Some {
        "new"@
    } else if change.before is Some && change.after is None {
        "removed"@
    } else if change.allocated_delta() > 0 || (change.allocated_delta() == 0
        && change.logical_delta() > 0) {
        "grew"@
    } else {
        "shrank"@
    }
}

/// What became of a child.
pub fn change_status(change: &history::ChildChange) -> (r: &'static str)
    ensures
        r@ == status_of(change@),
{
    if change.before.is_none() && change.after.is_some() {
        return "new";
    }
    if change.before.is_some() && change.after.is_none() {
        return "removed";
    }
    let allocated: i128 = change.delta_allocated();
    let logical: i128 = change.delta_logical();
    if allocated > 0 || (allocated == 0 && logical > 0) {
        "grew"
    } else {
        "shrank"
    }
}

/// The line of a change.
pub open spec fn change_row(change: history::ChangeModel) -> Seq<char> {
    screen::padded_left(signed_bytes(change.allocated_delta()), 12) + "  "@ + screen::padded_right(
        status_of(change),
        9,
    ) + "  "@ + change.name
}

/// The warning that one of the two scans met unreadable directories.
pub open spec fn with_limits(lines: Seq<Seq<char>>, inaccessible: u32, scan: Seq<char>) -> Seq<
    Seq<char>,
> {
    if inaccessible > 0 {
        lines.push(
            "Warning: "@ + text::decimal(inaccessible as nat) + " directories were unreadable in "@
                + scan + "; totals are lower bounds."@,
        )
    } else {
        lines
    }
}

fn warn_of_limits(page: &mut Page, inaccessible: u32, scan: &str)
    ensures
        final(page)@ == with_limits(old(page)@, inaccessible, scan@),
{
    if inaccessible > 0 {
        page.say(
            text::join5(
                "Warning: ",
                text::decimal_text(inaccessible as u64).as_str(),
                " directories were unreadable in ",
                scan,
                "; totals are lower bounds.",
            ).as_str(),
        );
    }
}

/// What stands above the list of changes.
pub open spec fn diff_heading(diff: history::DiffModel) -> Seq<Seq<char>> {
    let age = if diff.current_timestamp > diff.baseline_timestamp {
        (diff.current_timestamp - diff.baseline_timestamp) as nat
    } else {
        0
    };
    with_limits(
        with_limits(
            empty_page().push("Diff for "@ + diff.path).push(
                "Baseline captured "@ + labels::elapsed_text(age),
            ).push(
                "Total: "@ + sizes::human_text(diff.before_total.allocated as nat) + " disk → "@
                    + sizes::human_text(diff.after_total.allocated as nat) + " disk  ("@
                    + signed_bytes(diff.after_total.allocated - diff.before_total.allocated)
                    + ")"@,
            ),
            diff.baseline_inaccessible,
            "the baseline"@,
        ),
        diff.current_inaccessible,
        "this scan"@,
    )
}

/// The report on what changed since a baseline.
pub open spec fn diff_lines(diff: history::DiffModel) -> Seq<Seq<char>> {
    if diff.changes.len() == 0 {
        diff_heading(diff).push("No changes since the baseline."@)
    } else {
        diff_heading(diff) + diff.changes.map_values(|c: history::ChangeModel| change_row(c))
    }
}

fn say_diff_heading(report: &history::DiffReport) -> (page: Page)
    ensures
        page@ == diff_heading(report@),
{
    let mut page = Page::new();
    page.say2("Diff for ", report.path.as_str());
    page.say2(
        "Baseline captured ",
        labels::format_elapsed(
            report.current_timestamp.saturating_sub(report.baseline_timestamp),
        ).as_str(),
    );
    let front = text::join5(
        "Total: ",
        sizes::human(report.before_total.allocated).as_str(),
        " disk → ",
        sizes::human(report.after_total.allocated).as_str(),
        " disk  (",
    );
    page.say3(
        front.as_str(),
        format_signed_bytes(report.total_delta_allocated()).as_str(),
        ")",
    );
    warn_of_limits(&mut page, report.baseline_inaccessible, "the baseline");
    warn_of_limits(&mut page, report.current_inaccessible, "this scan");
    page
}

/// The report on what changed since a baseline.
pub fn diff_report(report: &history::DiffReport) -> (r: Page)
    ensures
        r@ == diff_lines(report@),
{
    let mut page = say_diff_heading(report);
    if report.changes.len() == 0 {
        page.say("No changes since the baseline.");
        return page;
    }
    let ghost heading = page@;
    let ghost rows = report@.changes.map_values(|c: history::ChangeModel| change_row(c));
    let mut i: usize = 0;
    assert(heading + rows.take(0) =~= heading);
    while i < report.changes.len()
        invariant
            i <= report.changes@.len(),
            rows == report@.changes.map_values(|c: history::ChangeModel| change_row(c)),
            page@ == heading + rows.take(i as int),
        decreases report.changes@.len() - i,
    {
        let change = &report.changes[i];
        assert(rows[i as int] == change_row(change@));
        let delta: i128 = change.delta_allocated();
        page.say(
            text::join5(
                screen::pad_left(format_signed_bytes(delta).as_str(), 12).as_str(),
                "  ",
                screen::pad_key(change_status(change), 9).as_str(),
                "  ",
                change.name.as_str(),
            ).as_str(),
        );
        assert(heading + rows.take(i + 1) =~= (heading + rows.take(i as int)).push(rows[i as int]));
        i += 1;
    }
    assert(rows.take(rows.len() as int) =~= rows);
    page
}

// ---------------------------------------------------------------------------
// Space
// ---------------------------------------------------------------------------

/// Free blocks that the user cannot have.
pub open spec fn withheld(report: space::SpaceModel) -> nat {
    if report.stat.free > report.stat.available {
        (report.stat.free - report.stat.available) as nat
    } else {
        0
    }
}

/// What the file system and the container say.
pub open spec fn space_heading(report: space::SpaceModel) -> Seq<Seq<char>> {
    let stat = report.stat;
    let lines = empty_page().push("Space report for "@ + report.path).push(
        "Mount: "@ + stat.mount + " ("@ + stat.fs_type + ", "@ + stat.device + ")"@,
    ).push("Total: "@ + sizes::human_text(stat.total as nat)).push(
        "Used: "@ + sizes::human_text(stat.used as nat),
    ).push("Free blocks: "@ + sizes::human_text(stat.free as nat)).push(
        "Available to user: "@ + sizes::human_text(stat.available as nat),
    );
    let lines = if withheld(report) > 0 {
        lines.push("Free but not user-available: "@ + sizes::human_text(withheld(report)))
    } else {
        lines
    };
    match report.apfs_container {
        Some(container) => lines.push(
            "APFS container "@ + container.reference + ": "@ + sizes::human_text(
                container.size as nat,
            ) + " total / "@ + sizes::human_text(container.free as nat) + " free"@,
        ),
        None => lines,
    }
}

/// What `tmutil` says of the snapshots.
pub open spec fn snapshot_lines(path: Seq<char>, snapshots: space::SnapshotModel) -> Seq<
    Seq<char>,
> {
    if snapshots.error matches Some(error) && error.len() > 0 {
        empty_page().push("Local snapshots: unavailable ("@ + snapshots.error->0 + ")"@)
    } else if snapshots.names.len() == 0 {
        empty_page().push("Local snapshots: none reported by tmutil"@)
    } else {
        (empty_page().push("Local snapshots: "@ + text::decimal(snapshots.names.len()))
            + snapshots.names.map_values(|name: Seq<char>| "  "@ + name)).push(
            "Snapshot sizes are not reported by tmutil. To request reclamation, first preview with `diskr --thin-snapshots 10G "@
                + path + "`."@,
        )
    }
}

/// The report on a volume's space.
pub open spec fn space_lines(report: space::SpaceModel) -> Seq<Seq<char>> {
    space_heading(report) + snapshot_lines(report.path, report.local_snapshots)
}

fn say_space_heading(report: &space::SpaceReport) -> (page: Page)
    ensures
        page@ == space_heading(report@),
{
    let mut page = Page::new();
    page.say2("Space report for ", report.path.as_str());
    let volume = text::join5(
        "Mount: ",
        report.mount.as_str(),
        " (",
        report.fs_type.as_str(),
        ", ",
    );
    page.say3(volume.as_str(), report.device.as_str(), ")");
    page.say2("Total: ", sizes::human(report.total).as_str());
    page.say2("Used: ", sizes::human(report.used).as_str());
    page.say2("Free blocks: ", sizes::human(report.free).as_str());
    page.say2("Available to user: ", sizes::human(report.available).as_str());
    let unavailable: u64 = report.unavailable_free();
    if unavailable > 0 {
        page.say2("Free but not user-available: ", sizes::human(unavailable).as_str());
    }
    match &report.apfs_container {
        Some(container) => {
            let front = text::join4(
                "APFS container ",
                container.reference.as_str(),
                ": ",
                sizes::human(container.size).as_str(),
            );
            page.say(
                text::join4(
                    front.as_str(),
                    " total / ",
                    sizes::human(container.free).as_str(),
                    " free",
                ).as_str(),
            );
        },
        None => {},
    }
    page
}

/// The report on a volume's space.
pub fn space_report(report: &space::SpaceReport) -> (r: Page)
    ensures
        r@ == space_lines(report@),
{
    let mut page = say_space_heading(report);
    let ghost heading = page@;
    let ghost listed = report@.local_snapshots;
    let ghost after = snapshot_lines(report@.path, listed);
    let names = &report.local_snapshots.names;
    if let Some(error) = &report.local_snapshots.error {
        if !error.as_str().is_empty() {
            page.say3("Local snapshots: unavailable (", error.as_str(), ")");
            assert(page@ =~= heading + after);
            return page;
        }
    }
    if names.len() == 0 {
        page.say("Local snapshots: none reported by tmutil");
        assert(page@ =~= heading + after);
        return page;
    }
    page.say2("Local snapshots: ", count_text(names.len()).as_str());
    let ghost front = page@;
    let ghost rows = listed.names.map_values(|name: Seq<char>| "  "@ + name);
    let mut i: usize = 0;
    assert(front + rows.take(0) =~= front);
    while i < names.len()
        invariant
            i <= names@.len(),
            listed == report@.local_snapshots,
            names@ == report.local_snapshots.names@,
            rows == listed.names.map_values(|name: Seq<char>| "  "@ + name),
            page@ == front + rows.take(i as int),
        decreases names@.len() - i,
    {
        assert(rows[i as int] == "  "@ + names@[i as int]@);
        page.say2("  ", names[i].as_str());
        assert(front + rows.take(i + 1) =~= (front + rows.take(i as int)).push(rows[i as int]));
        i += 1;
    }
    assert(rows.take(rows.len() as int) =~= rows);
    page.say3(
        "Snapshot sizes are not reported by tmutil. To request reclamation, first preview with `diskr --thin-snapshots 10G ",
        report.path.as_str(),
        "`.",
    );
    assert(page@ =~= heading + after);
    page
}

/// What thinning would do.
pub open spec fn thin_preview_lines(mount: Seq<char>, bytes: u64) -> Seq<Seq<char>> {
    empty_page().push(
        "Would run: tmutil thinlocalsnapshots "@ + mount + " "@ + text::decimal(bytes as nat)
            + " 4"@,
    ).push(
        "Re-run with --yes to request "@ + sizes::human_text(bytes as nat)
            + " of local snapshot reclamation."@,
    )
}

/// What thinning would do on the volume mounted there.
pub fn thin_preview(mount: &str, bytes: u64) -> (r: Page)
    ensures
        r@ == thin_preview_lines(mount@, bytes),
{
    let mut page = Page::new();
    page.say(
        text::join5(
            "Would run: tmutil thinlocalsnapshots ",
            mount,
            " ",
            text::decimal_text(bytes).as_str(),
            " 4",
        ).as_str(),
    );
    page.say3(
        "Re-run with --yes to request ",
        sizes::human(bytes).as_str(),
        " of local snapshot reclamation.",
    );
    page
}

/// What is done about the snapshots of a volume.
#[derive(Debug)]
pub enum ThinStep {
    /// Say what would be done.
    Preview(Page),
    /// Run `tmutil` with these arguments.
    Run(Vec<String>),
}

/// What is done on a request to thin the snapshots of the volume mounted there:
/// it is shown, and run only where it is confirmed and asks for some bytes.
pub fn thin_step(mount: &str, bytes: u64, confirmed: bool) -> (r: Result<
    ThinStep,
    space::ThinError,
>)
    ensures
        match r {
            Ok(ThinStep::Preview(page)) => !confirmed && page@ == thin_preview_lines(mount@, bytes),
            Ok(ThinStep::Run(args)) => confirmed && bytes > 0 && text::texts(args@)
                == space::thin_line(mount@, bytes),
            Err(e) => confirmed && bytes == 0 && e == space::ThinError::NothingToThin,
        },
{
    if !confirmed {
        return Ok(ThinStep::Preview(thin_preview(mount, bytes)));
    }
    match space::thin_arguments(mount, bytes) {
        Ok(args) => Ok(ThinStep::Run(args)),
        Err(e) => Err(e),
    }
}

/// What thinning did, with what `tmutil` said.
pub open spec fn thin_lines(result: space::ThinModel) -> Seq<Seq<char>> {
    let line = empty_page().push(
        "Requested "@ + sizes::human_text(result.requested_bytes as nat)
            + " of local snapshot reclamation for "@ + result.path + "."@,
    );
    if result.stdout.len() > 0 {
        line.push(result.stdout)
    } else {
        line
    }
}

/// What thinning did, with what `tmutil` said.
pub fn thin_report(result: &space::ThinResult) -> (r: Page)
    ensures
        r@ == thin_lines(result@),
{
    let mut page = Page::new();
    page.say(
        text::join5(
            "Requested ",
            sizes::human(result.requested_bytes).as_str(),
            " of local snapshot reclamation for ",
            result.path.as_str(),
            ".",
        ).as_str(),
    );
    if !result.stdout.as_str().is_empty() {
        page.say(result.stdout.as_str());
    }
    page
}

// ---------------------------------------------------------------------------
// Packages
// ---------------------------------------------------------------------------

/// Packages by their allocated bytes, the most first; an unknown size counts as
/// nothing.
pub struct LargestFirst;

pub open spec fn package_bytes(package: packages::PackageModel) -> u64 {
    match package.size {
        Some(size) => size.allocated,
        None => 0,
    }
}

fn bytes_of(package: &packages::Package) -> (r: u64)
    ensures
        r == package_bytes(package@),
{
    match package.size {
        Some(size) => size.allocated,
        None => 0,
    }
}

impl sorting::Order<packages::PackageModel> for LargestFirst {
    open spec fn before(&self, a: packages::PackageModel, b: packages::PackageModel) -> bool {
        package_bytes(a) > package_bytes(b)
    }

    proof fn is_order(
        &self,
        a: packages::PackageModel,
        b: packages::PackageModel,
        c: packages::PackageModel,
    ) {
    }
}

impl sorting::Arranged<packages::Package> for LargestFirst {
    fn goes_before(&self, a: &packages::Package, b: &packages::Package) -> (r: bool) {
        bytes_of(a) > bytes_of(b)
    }
}

/// A size that may be unknown.
pub open spec fn known_size(size: Option<bulkstat::SizeInfo>, unknown: Seq<char>) -> Seq<char> {
    match size {
        Some(s) => sizes::human_text(s.allocated as nat),
        None => unknown,
    }
}

fn say_size(size: Option<bulkstat::SizeInfo>, unknown: &str) -> (r: String)
    ensures
        r@ == known_size(size, unknown@),
{
    match size {
        Some(s) => sizes::human(s.allocated),
        None => unknown.to_owned(),
    }
}

/// The line of a package.
pub open spec fn package_row(package: packages::PackageModel) -> Seq<char> {
    "  "@ + screen::padded_left(known_size(package.size, "?"@), 10) + "  "@ + package.name + " "@
        + package.version
}

/// How many packages of a manager are listed by name.
pub const SHOWN_PACKAGES: usize = 10;

/// The lines of a manager: why there is nothing to list, or the largest
/// packages and how many there are besides.
pub open spec fn manager_lines(report: packages::ManagerModel) -> Seq<Seq<char>> {
    match report.warning {
        Some(warning) => empty_page().push(report.manager.name() + ": "@ + warning).push(""@),
        None => {
            let shown = sorting::first(
                sorting::arranged(&LargestFirst, report.packages),
                SHOWN_PACKAGES as nat,
            );
            let lines = empty_page().push(
                report.manager.name() + ": "@ + text::decimal(report.packages.len())
                    + " packages · "@ + sizes::human_text(report.total_size.allocated as nat),
            ) + shown.map_values(|p: packages::PackageModel| package_row(p));
            let lines = if report.packages.len() > SHOWN_PACKAGES {
                lines.push(
                    "  … and "@ + text::decimal((report.packages.len() - SHOWN_PACKAGES) as nat)
                        + " more"@,
                )
            } else {
                lines
            };
            lines.push(""@)
        },
    }
}

/// The lines of the managers that are there.
pub open spec fn managers_lines(reports: Seq<packages::ManagerModel>) -> Seq<Seq<char>>
    decreases reports.len(),
{
    if reports.len() == 0 {
        empty_page()
    } else if reports.last().available {
        managers_lines(reports.drop_last()) + manager_lines(reports.last())
    } else {
        managers_lines(reports.drop_last())
    }
}

/// Some manager is there.
pub open spec fn any_available(reports: Seq<packages::ManagerModel>) -> bool {
    exists|i: int| 0 <= i < reports.len() && (#[trigger] reports[i]).available
}

/// The line of a project.
pub open spec fn project_row(project: manifests::ProjectModel) -> Seq<char> {
    "  "@ + screen::padded_left(known_size(project.deps_size, "—"@), 10) + "  "@ + project.path
        + " ("@ + project.manager_label + ", "@ + text::decimal(project.dep_count as nat)
        + " deps)"@
}

/// The lines of the projects.
pub open spec fn project_lines(path: Seq<char>, projects: Seq<manifests::ProjectModel>) -> Seq<
    Seq<char>,
> {
    if projects.len() == 0 {
        empty_page()
    } else {
        empty_page().push("Project dependencies under "@ + path) + projects.map_values(
            |p: manifests::ProjectModel| project_row(p),
        )
    }
}

/// The report on packages and projects.
pub open spec fn packages_lines(
    path: Seq<char>,
    reports: Seq<packages::ManagerModel>,
    projects: Seq<manifests::ProjectModel>,
) -> Seq<Seq<char>> {
    let lines = empty_page().push("Package report"@).push(""@) + managers_lines(reports);
    let lines = if any_available(reports) {
        lines
    } else {
        lines.push("No supported package managers found."@).push(""@)
    };
    lines + project_lines(path, projects)
}

fn copy_packages(list: &Vec<packages::Package>) -> (r: Vec<packages::Package>)
    ensures
        sorting::views(r@) == sorting::views(list@),
{
    let ghost all = sorting::views(list@);
    let mut r: Vec<packages::Package> = Vec::new();
    let mut i: usize = 0;
    assert(sorting::views(r@) =~= all.take(0));
    while i < list.len()
        invariant
            i <= list@.len(),
            all == sorting::views(list@),
            sorting::views(r@) == all.take(i as int),
        decreases list@.len() - i,
    {
        let item = list[i].clone();
        proof {
            sorting::views_push(r@, item);
            assert(all.take(i + 1) =~= all.take(i as int).push(all[i as int]));
        }
        r.push(item);
        i += 1;
    }
    assert(all.take(all.len() as int) =~= all);
    r
}

fn say_manager(page: &mut Page, report: &packages::ManagerReport)
    ensures
        final(page)@ == old(page)@ + manager_lines(report@),
{
    let ghost before = page@;
    let ghost wanted = manager_lines(report@);
    let name = report.manager.label();
    if let Some(warning) = &report.warning {
        page.say3(name, ": ", warning.as_str());
        page.say("");
        assert(page@ =~= before + wanted);
        return;
    }
    page.say(
        text::join5(
            name,
            ": ",
            count_text(report.packages.len()).as_str(),
            " packages · ",
            sizes::human(report.total_size.allocated).as_str(),
        ).as_str(),
    );
    let ghost front = page@;
    let order = LargestFirst;
    let sorted = sorting::arrange(&order, copy_packages(&report.packages));
    let ghost all = sorting::views(sorted@);
    proof {
        sorting::arranged_keeps_items(&LargestFirst, report@.packages);
    }
    let count: usize = if sorted.len() < SHOWN_PACKAGES {
        sorted.len()
    } else {
        SHOWN_PACKAGES
    };
    let ghost rows = sorting::first(all, SHOWN_PACKAGES as nat).map_values(
        |p: packages::PackageModel| package_row(p),
    );
    let mut i: usize = 0;
    assert(front + rows.take(0) =~= front);
    while i < count
        invariant
            i <= count <= sorted@.len(),
            all == sorting::views(sorted@),
            rows.len() == count,
            rows == sorting::first(all, SHOWN_PACKAGES as nat).map_values(
                |p: packages::PackageModel| package_row(p),
            ),
            page@ == front + rows.take(i as int),
        decreases count - i,
    {
        let package = &sorted[i];
        assert(rows[i as int] == package_row(package@));
        let front_text = text::join4(
            "  ",
            screen::pad_left(say_size(package.size, "?").as_str(), 10).as_str(),
            "  ",
            package.name.as_str(),
        );
        page.say3(front_text.as_str(), " ", package.version.as_str());
        assert(front + rows.take(i + 1) =~= (front + rows.take(i as int)).push(rows[i as int]));
        i += 1;
    }
    assert(rows.take(rows.len() as int) =~= rows);
    if report.packages.len() > SHOWN_PACKAGES {
        page.say3("  … and ", count_text(report.packages.len() - SHOWN_PACKAGES).as_str(), " more");
    }
    page.say("");
    assert(page@ =~= before + wanted);
}

fn say_projects(page: &mut Page, path: &str, projects: &Vec<manifests::ProjectDeps>)
    ensures
        final(page)@ == old(page)@ + project_lines(path@, sorting::views(projects@)),
{
    let ghost before = page@;
    let ghost all = sorting::views(projects@);
    if projects.len() == 0 {
        assert(page@ =~= before + project_lines(path@, all));
        return;
    }
    page.say2("Project dependencies under ", path);
    let ghost front = page@;
    let ghost rows = all.map_values(|p: manifests::ProjectModel| project_row(p));
    let mut i: usize = 0;
    assert(front + rows.take(0) =~= front);
    while i < projects.len()
        invariant
            i <= projects@.len(),
            all == sorting::views(projects@),
            rows == all.map_values(|p: manifests::ProjectModel| project_row(p)),
            page@ == front + rows.take(i as int),
        decreases projects@.len() - i,
    {
        let project = &projects[i];
        assert(rows[i as int] == project_row(project@));
        let front_text = text::join5(
            "  ",
            screen::pad_left(say_size(project.deps_size, "—").as_str(), 10).as_str(),
            "  ",
            project.path.as_str(),
            " (",
        );
        page.say(
            text::join5(
                front_text.as_str(),
                project.manager_label.as_str(),
                ", ",
                count_text(project.dep_count).as_str(),
                " deps)",
            ).as_str(),
        );
        assert(front + rows.take(i + 1) =~= (front + rows.take(i as int)).push(rows[i as int]));
        i += 1;
    }
    assert(rows.take(rows.len() as int) =~= rows);
    assert(page@ =~= before + project_lines(path@, all));
}

/// The report on packages and on the projects below a directory.
pub fn packages_report(
    path: &str,
    reports: &Vec<packages::ManagerReport>,
    projects: &Vec<manifests::ProjectDeps>,
) -> (r: Page)
    ensures
        r@ == packages_lines(path@, sorting::views(reports@), sorting::views(projects@)),
{
    let mut page = Page::new();
    page.say("Package report");
    page.say("");
    let ghost front = page@;
    let ghost all = sorting::views(reports@);
    let mut any_manager = false;
    let mut i: usize = 0;
    assert(all.take(0) =~= Seq::<packages::ManagerModel>::empty());
    assert(front + managers_lines(all.take(0)) =~= front);
    while i < reports.len()
        invariant
            i <= reports@.len(),
            all == sorting::views(reports@),
            page@ == front + managers_lines(all.take(i as int)),
            any_manager == any_available(all.take(i as int)),
        decreases reports@.len() - i,
    {
        let report = &reports[i];
        assert(all.take(i + 1).drop_last() =~= all.take(i as int));
        assert(all.take(i + 1).last() == report@);
        let ghost before = page@;
        if report.available {
            any_manager = true;
            say_manager(&mut page, report);
            assert(page@ =~= front + managers_lines(all.take(i + 1)));
        }
        proof {
            let now = all.take(i + 1);
            let earlier = all.take(i as int);
            if any_available(earlier) {
                let k = choose|k: int| 0 <= k < earlier.len() && (#[trigger] earlier[k]).available;
                assert(now[k].available);
            }
            if report.available {
                assert(now[i as int].available);
            }
            if any_available(now) && !report.available {
                let k = choose|k: int| 0 <= k < now.len() && (#[trigger] now[k]).available;
                assert(earlier[k].available);
            }
        }
        i += 1;
    }
    assert(all.take(all.len() as int) =~= all);
    if !any_manager {
        page.say("No supported package managers found.");
        page.say("");
    }
    say_projects(&mut page, path, projects);
    page
}

// ---------------------------------------------------------------------------
// Help
// ---------------------------------------------------------------------------

/// The line of a key.
pub open spec fn key_row(binding: keymap::BindingModel) -> Seq<char> {
    "  "@ + screen::padded_right(binding.key, 16) + " "@ + binding.action
}

/// The lines of the keys, by section.
pub open spec fn key_lines(sections: Seq<keymap::SectionModel>) -> Seq<Seq<char>>
    decreases sections.len(),
{
    if sections.len() == 0 {
        empty_page()
    } else {
        key_lines(sections.drop_last()).push(""@).push(sections.last().title + ":"@)
            + sections.last().bindings.map_values(|b: keymap::BindingModel| key_row(b))
    }
}

/// How to call the program.
pub open spec fn usage_lines(version: Seq<char>) -> Seq<Seq<char>> {
    empty_page().push("diskr "@ + version).push(""@).push(
        "Lightweight terminal file explorer and disk/storage manager for macOS."@,
    ).push(""@).push("Usage:"@).push("  diskr [PATH]"@).push("  diskr -- PATH"@).push(
        "  diskr --top N [--json] [PATH]"@,
    ).push("  diskr --reclaim [--json] [PATH]"@).push("  diskr --save [--json] [PATH]"@).push(
        "  diskr --diff [--json] [PATH]"@,
    ).push("  diskr --space [--json] [PATH]"@).push("  diskr --packages [--json] [PATH]"@).push(
        "  diskr --thin-snapshots SIZE [--yes] [PATH]"@,
    ).push(""@).push("Keys:"@)
}

/// The help of the command line.
pub open spec fn help_lines(version: Seq<char>) -> Seq<Seq<char>> {
    usage_lines(version) + key_lines(keymap::help())
}

fn say_usage(version: &str) -> (page: Page)
    ensures
        page@ == usage_lines(version@),
{
    let mut page = Page::new();
    page.say2("diskr ", version);
    page.say("");
    page.say("Lightweight terminal file explorer and disk/storage manager for macOS.");
    page.say("");
    page.say("Usage:");
    page.say("  diskr [PATH]");
    page.say("  diskr -- PATH");
    page.say("  diskr --top N [--json] [PATH]");
    page.say("  diskr --reclaim [--json] [PATH]");
    page.say("  diskr --save [--json] [PATH]");
    page.say("  diskr --diff [--json] [PATH]");
    page.say("  diskr --space [--json] [PATH]");
    page.say("  diskr --packages [--json] [PATH]");
    page.say("  diskr --thin-snapshots SIZE [--yes] [PATH]");
    page.say("");
    page.say("Keys:");
    page
}

fn say_section(page: &mut Page, section: &keymap::KeySection)
    ensures
        final(page)@ == old(page)@.push(""@).push(section@.title + ":"@)
            + section@.bindings.map_values(|b: keymap::BindingModel| key_row(b)),
{
    page.say("");
    page.say2(section.title, ":");
    let ghost front = page@;
    let ghost all = section@.bindings;
    let ghost rows = all.map_values(|b: keymap::BindingModel| key_row(b));
    let mut i: usize = 0;
    assert(front + rows.take(0) =~= front);
    while i < section.bindings.len()
        invariant
            i <= section.bindings@.len(),
            all == section@.bindings,
            rows == all.map_values(|b: keymap::BindingModel| key_row(b)),
            page@ == front + rows.take(i as int),
        decreases section.bindings@.len() - i,
    {
        let binding = &section.bindings[i];
        assert(rows[i as int] == key_row(binding@));
        page.say(
            text::join4(
                "  ",
                screen::pad_key(binding.key, 16).as_str(),
                " ",
                binding.action,
            ).as_str(),
        );
        assert(front + rows.take(i + 1) =~= (front + rows.take(i as int)).push(rows[i as int]));
        i += 1;
    }
    assert(rows.take(rows.len() as int) =~= rows);
}

/// The help of the command line.
pub fn help_page(version: &str) -> (r: Page)
    ensures
        r@ == help_lines(version@),
{
    let mut page = say_usage(version);
    let ghost front = page@;
    let sections = keymap::help_sections();
    let ghost all = sorting::views(sections@);
    let mut i: usize = 0;
    assert(all.take(0) =~= Seq::<keymap::SectionModel>::empty());
    assert(front + key_lines(all.take(0)) =~= front);
    while i < sections.len()
        invariant
            i <= sections@.len(),
            all == sorting::views(sections@),
            page@ == front + key_lines(all.take(i as int)),
        decreases sections@.len() - i,
    {
        assert(all.take(i + 1).drop_last() =~= all.take(i as int));
        assert(all.take(i + 1).last() == sections@[i as int]@);
        say_section(&mut page, &sections[i]);
        assert(page@ =~= front + key_lines(all.take(i + 1)));
        i += 1;
    }
    assert(all.take(all.len() as int) =~= all);
    page
}

// ---------------------------------------------------------------------------
// Paths
// ---------------------------------------------------------------------------

/// The directory that a report is about: the path as the file system resolves
/// it, or why there is none.
pub open spec fn resolved_dir(
    path: Seq<char>,
    exists: bool,
    is_dir: bool,
    resolved: Result<Seq<char>, Seq<char>>,
) -> Result<Seq<char>, Seq<char>> {
    match (history::dir_problem(path, exists, is_dir), resolved) {
        (Some(problem), _) => Err(problem),
        (None, Ok(dir)) => Ok(dir),
        (None, Err(e)) => Err("resolve "@ + path + ": "@ + e),
    }
}

pub open spec fn text_result(r: Result<String, String>) -> Result<Seq<char>, Seq<char>> {
    match r {
        Ok(t) => Ok(t@),
        Err(e) => Err(e@),
    }
}

/// The directory that a report is about, given what the file system says of the
/// path: whether it exists, whether it is a directory, and how it resolves.
pub fn canonical_dir(
    path: &str,
    exists: bool,
    is_dir: bool,
    resolved: Result<String, String>,
) -> (r: Result<String, String>)
    ensures
        text_result(r) == resolved_dir(path@, exists, is_dir, text_result(resolved)),
{
    match history::validate_dir(path, exists, is_dir) {
        Err(problem) => Err(problem),
        Ok(_) => match resolved {
            Ok(dir) => Ok(dir),
            Err(e) => Err(text::join4("resolve ", path, ": ", e.as_str())),
        },
    }
}

// ---------------------------------------------------------------------------
// Laws
// ---------------------------------------------------------------------------

/// Of a manager's packages the report lists the ten largest by the room that
/// they take, or all of them: none that is left out takes more than one that is
/// listed, and none is listed before one that takes more.
pub proof fn the_largest_packages_are_listed(list: Seq<packages::PackageModel>, i: int, j: int)
    requires
        0 <= i < j < list.len(),
    ensures
        ({
            let all = sorting::arranged(&LargestFirst, list);
            let room = |p: packages::PackageModel|
                if p.size is Some {
                    p.size->0.allocated as int
                } else {
                    0
                };
            &&& all.len() == list.len()
            &&& all.to_multiset() == list.to_multiset()
            &&& room(all[i]) >= room(all[j])
            &&& sorting::first(all, 10) == if list.len() < 10 {
                all
            } else {
                all.subrange(0, 10)
            }
        }),
{
    sorting::arranged_is_arranged(&LargestFirst, list);
    sorting::arranged_keeps_items(&LargestFirst, list);
    let all = sorting::arranged(&LargestFirst, list);
    assert(!sorting::Order::before(&LargestFirst, all[j], all[i]));
}

/// The report on a manager has one line for each package that it lists, with its
/// size, name and version, and says how many there are besides.
pub proof fn every_listed_package_has_a_line(report: packages::ManagerModel, i: int)
    requires
        report.warning is None,
        0 <= i < report.packages.len(),
        i < 10,
    ensures
        ({
            let all = sorting::arranged(&LargestFirst, report.packages);
            let lines = manager_lines(report);
            let n = report.packages.len();
            &&& lines[0] == report.manager.name() + ": "@ + text::decimal(n) + " packages · "@
                + sizes::human_text(report.total_size.allocated as nat)
            &&& lines[i + 1] == "  "@ + screen::padded_left(
                if all[i].size is Some {
                    sizes::human_text(all[i].size->0.allocated as nat)
                } else {
                    "?"@
                },
                10,
            ) + "  "@ + all[i].name + " "@ + all[i].version
            &&& n > 10 ==> lines.len() == 13 && lines[11] == "  … and "@ + text::decimal(
                (n - 10) as nat,
            ) + " more"@
            &&& n <= 10 ==> lines.len() == n + 2
        }),
{
    sorting::arranged_keeps_items(&LargestFirst, report.packages);
    assert(sorting::arranged(&LargestFirst, report.packages).len() == report.packages.len());
}

/// Every manager that is there has its lines, in the order of the managers, and
/// the others have none.
pub proof fn every_manager_is_reported(
    first: packages::ManagerModel,
    reports: Seq<packages::ManagerModel>,
)
    ensures
        managers_lines(seq![first] + reports) == (if first.available {
            manager_lines(first)
        } else {
            Seq::empty()
        }) + managers_lines(reports),
    decreases reports.len(),
{
    let all = seq![first] + reports;
    if reports.len() == 0 {
        assert(all.drop_last() =~= reports);
        assert(all.last() == first);
    } else {
        every_manager_is_reported(first, reports.drop_last());
        assert(all.drop_last() =~= seq![first] + reports.drop_last());
        assert(all.last() == reports.last());
    }
}

/// Every large file has a line of its own, with its place, its size and its
/// path, in the order of the scan.
pub proof fn every_large_file_has_a_line(
    path: Seq<char>,
    limit: nat,
    scan: bulkstat::DirScanModel,
    i: int,
)
    requires
        0 <= i < scan.largest_files.len(),
    ensures
        ({
            let lines = top_lines(path, limit, scan);
            let n = scan.largest_files.len();
            let file = scan.largest_files[i];
            &&& lines.len() >= n + 2
            &&& lines[0] == "Top "@ + text::decimal(limit) + " files by allocated size under "@
                + path
            &&& lines[1] == "Total: "@ + sizes::human_text(scan.size.allocated as nat)
                + " disk / "@ + sizes::human_text(scan.size.logical as nat) + " apparent"@
            &&& lines[lines.len() - n + i] == screen::padded_left(text::decimal((i + 1) as nat), 2)
                + ". "@ + screen::padded_left(size_label(file.size), 22) + "  "@ + file.path
        }),
{
    let heading = top_heading(path, limit, scan);
    assert(top_lines(path, limit, scan).len() == heading.len() + scan.largest_files.len());
}

/// Every finding has a line of its own and its note below it, in order; those
/// that others count already are marked.
pub proof fn every_finding_has_its_lines(
    lines: Seq<Seq<char>>,
    findings: Seq<reclaim::FindingModel>,
    i: int,
)
    requires
        0 <= i < findings.len(),
    ensures
        ({
            let all = finding_rows(lines, findings);
            let f = findings[i];
            &&& all.len() == lines.len() + 2 * findings.len()
            &&& all[lines.len() + 2 * i] == screen::padded_left(
                if f.inaccessible > 0 {
                    "≥"@ + size_label(f.size)
                } else {
                    size_label(f.size)
                },
                22,
            ) + "  ["@ + centred(f.class.name(), 11) + "]  "@ + f.label + (if f.count > 1 {
                " (x"@ + text::decimal(f.count) + ")"@
            } else {
                ""@
            }) + (if f.rollup {
                " [subtotal]"@
            } else {
                ""@
            })
            &&& all[lines.len() + 2 * i + 1] == "                          "@ + f.note
        }),
    decreases findings.len(),
{
    let less = findings.drop_last();
    rows_are_two_each(lines, less);
    if i < findings.len() - 1 {
        every_finding_has_its_lines(lines, less, i);
        assert(less[i] == findings[i]);
    }
}

proof fn rows_are_two_each(lines: Seq<Seq<char>>, findings: Seq<reclaim::FindingModel>)
    ensures
        finding_rows(lines, findings).len() == lines.len() + 2 * findings.len(),
    decreases findings.len(),
{
    if findings.len() > 0 {
        rows_are_two_each(lines, findings.drop_last());
    }
}

/// Both sizes are named where they differ, the room on disk first; one alone
/// where they are the same.
pub proof fn differing_sizes_are_both_named(size: bulkstat::SizeInfo)
    ensures
        size.allocated == size.logical ==> size_label(size) == sizes::human_text(
            size.allocated as nat,
        ),
        size.allocated != size.logical ==> size_label(size) == sizes::human_text(
            size.allocated as nat,
        ) + " disk / "@ + sizes::human_text(size.logical as nat) + " apparent"@,
{
}

/// Every change has a line of its own, in order: by how much the room has grown
/// or shrunk, what became of the child, and its name.
pub proof fn every_change_has_a_line(diff: history::DiffModel, i: int)
    requires
        0 <= i < diff.changes.len(),
    ensures
        ({
            let lines = diff_lines(diff);
            let n = diff.changes.len();
            let c = diff.changes[i];
            let room = |size: Option<bulkstat::SizeInfo>|
                if size is Some {
                    size->0.allocated as int
                } else {
                    0
                };
            let grown = room(c.after) - room(c.before);
            &&& lines.len() >= n + 3
            &&& lines[lines.len() - n + i] == screen::padded_left(
                (if grown < 0 {
                    "-"@
                } else {
                    "+"@
                }) + sizes::human_text(
                    if grown < 0 {
                        (-grown) as nat
                    } else {
                        grown as nat
                    },
                ),
                12,
            ) + "  "@ + screen::padded_right(status_of(c), 9) + "  "@ + c.name
            &&& c.before is None && c.after is Some ==> status_of(c) == "new"@
            &&& c.before is Some && c.after is None ==> status_of(c) == "removed"@
            &&& c.before is Some && c.after is Some && grown > 0 ==> status_of(c) == "grew"@
            &&& c.before is Some && c.after is Some && grown < 0 ==> status_of(c) == "shrank"@
        }),
{
    let heading = diff_heading(diff);
    assert(diff_lines(diff).len() == heading.len() + diff.changes.len());
}

/// Free room that users cannot have is what is free beyond what they can have,
/// and none where they can have all of it.
pub proof fn withheld_room_is_the_rest(report: space::SpaceModel)
    ensures
        report.stat.available <= report.stat.free ==> withheld(report) + report.stat.available
            == report.stat.free,
        report.stat.available > report.stat.free ==> withheld(report) == 0,
{
}

} // verus!
