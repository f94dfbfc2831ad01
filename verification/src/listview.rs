//! The reports that are drawn on top of the panes: what could be reclaimed, the
//! largest files, and the details of a file.

use crate::app;
use crate::bulkstat;
use crate::columns;
use crate::modals;
use crate::modalview;
use crate::reclaim;
use crate::reclaimpane;
use crate::screen;
use crate::sizes;
use crate::sorting;
use crate::statusview;
use crate::text;
use vstd::prelude::*;

verus! {

fn style(color: screen::Color) -> (r: screen::Style)
    ensures
        r == screen::colored(color),
{
    screen::Style::colored(color)
}

// ---------------------------------------------------------------------------
// Findings
// ---------------------------------------------------------------------------

/// The colour of a class.
pub open spec fn class_color(class: reclaim::Reclaimability) -> screen::Color {
    match class {
        reclaim::Reclaimability::Safe => screen::Color::Green,
        reclaim::Reclaimability::Regenerable => screen::Color::Yellow,
        reclaim::Reclaimability::Risky => screen::Color::Red,
    }
}

fn color_of_class(class: reclaim::Reclaimability) -> (r: screen::Color)
    ensures
        r == class_color(class),
{
    match class {
        reclaim::Reclaimability::Safe => screen::Color::Green,
        reclaim::Reclaimability::Regenerable => screen::Color::Yellow,
        reclaim::Reclaimability::Risky => screen::Color::Red,
    }
}

/// The size of a finding with its marks.
pub open spec fn finding_size(f: reclaim::FindingModel) -> Seq<char> {
    (if f.inaccessible > 0 {
        "≥"@
    } else {
        Seq::empty()
    }) + columns::size_pair_text(f.size) + " "@ + (if f.skipped_mounts > 0 {
        "*"@
    } else {
        Seq::empty()
    })
}

fn describe_finding_size(f: &reclaim::Finding) -> (r: String)
    ensures
        r@ == finding_size(f@),
{
    let none = String::new();
    let bound = if f.inaccessible > 0 {
        "≥"
    } else {
        none.as_str()
    };
    let skipped = if f.skipped_mounts > 0 {
        "*"
    } else {
        none.as_str()
    };
    text::join4(bound, columns::size_pair(f.size).as_str(), " ", skipped)
}

/// What a finding is called in the list; one that holds others is a subtotal.
pub open spec fn finding_label(f: reclaim::FindingModel, room: nat) -> Seq<char> {
    if f.rollup {
        screen::truncated(f.label, statusview::less(room as int, 10)) + " [subtotal]"@
    } else {
        screen::truncated(f.label, room)
    }
}

/// The row of a finding.
pub open spec fn finding_row(f: reclaim::FindingModel, width: int) -> Seq<screen::SpanV> {
    screen::blank().push(
        screen::span(screen::padded_left(finding_size(f), 16), modalview::green()),
    ).push(screen::span(" "@, screen::plain())).push(
        screen::span(
            screen::padded_left(f.class.name(), 11),
            screen::colored(class_color(f.class)),
        ),
    ).push(screen::span("  "@, screen::plain())).push(
        screen::span(finding_label(f, statusview::less(width, 52)), modalview::white()),
    )
}

fn draw_finding(f: &reclaim::Finding, width: u16) -> (r: screen::Line)
    ensures
        r@ == finding_row(f@, width as int),
{
    let room: usize = width.saturating_sub(52) as usize;
    let mut line = screen::Line::new();
    line.add(
        screen::pad_left(describe_finding_size(f).as_str(), 16).as_str(),
        style(screen::Color::Green),
    );
    line.add(" ", screen::Style::plain());
    line.add(
        screen::pad_left(f.class.label(), 11).as_str(),
        style(color_of_class(f.class)),
    );
    line.add("  ", screen::Style::plain());
    let label = if f.rollup {
        text::join2(
            screen::truncate(f.label.as_str(), room.saturating_sub(10)).as_str(),
            " [subtotal]",
        )
    } else {
        screen::truncate(f.label.as_str(), room)
    };
    line.add(label.as_str(), style(screen::Color::White));
    line
}

pub open spec fn finding_rows(findings: Seq<reclaim::FindingModel>, width: int) -> Seq<
    Seq<screen::SpanV>,
> {
    Seq::new(findings.len(), |i: int| finding_row(findings[i], width))
}

/// The details of a finding.
pub open spec fn finding_detail(f: reclaim::FindingModel) -> Seq<Seq<screen::SpanV>> {
    let start = screen::no_lines().push(screen::gap()).push(
        screen::one(
            columns::size_pair_text(f.size) + " · "@ + text::decimal(f.count) + " paths"@,
            modalview::green(),
        ),
    ).push(screen::one(f.note, modalview::gray()));
    let bounded = if f.inaccessible > 0 {
        start.push(
            screen::one(
                text::decimal(f.inaccessible as nat)
                    + " unreadable directories; size is a lower bound"@,
                modalview::yellow(),
            ),
        )
    } else {
        start
    };
    let skipped = if f.skipped_mounts > 0 {
        bounded.push(
            screen::one(
                text::decimal(f.skipped_mounts as nat)
                    + " mounted volumes on other devices skipped"@,
                modalview::yellow(),
            ),
        )
    } else {
        bounded
    };
    skipped.push(screen::gap()).push(
        screen::one(
            "enter: open paths  ·  d: delete path  ·  esc: close paths"@,
            screen::plain(),
        ),
    )
}

fn draw_finding_detail(f: &reclaim::Finding) -> (r: screen::Lines)
    ensures
        r@ == finding_detail(f@),
{
    let mut lines = screen::Lines::new();
    lines.skip();
    lines.say(
        text::join4(
            columns::size_pair(f.size).as_str(),
            " · ",
            text::decimal_text(f.count as u64).as_str(),
            " paths",
        ).as_str(),
        style(screen::Color::Green),
    );
    lines.say(f.note.as_str(), style(screen::Color::Gray));
    if f.inaccessible > 0 {
        lines.say(
            text::join2(
                text::decimal_text(f.inaccessible as u64).as_str(),
                " unreadable directories; size is a lower bound",
            ).as_str(),
            style(screen::Color::Yellow),
        );
    }
    if f.skipped_mounts > 0 {
        lines.say(
            text::join2(
                text::decimal_text(f.skipped_mounts as u64).as_str(),
                " mounted volumes on other devices skipped",
            ).as_str(),
            style(screen::Color::Yellow),
        );
    }
    lines.skip();
    lines.say(
        "enter: open paths  ·  d: delete path  ·  esc: close paths",
        screen::Style::plain(),
    );
    lines
}

/// The report on what could be reclaimed: a few lines in the middle, or a list
/// with the details of the selected finding below.
#[derive(Debug)]
pub struct ReclaimView {
    pub title: String,
    pub notes: screen::Lines,
    pub rows: screen::Lines,
    pub selected: usize,
    pub detail: screen::Lines,
}

#[verifier::ext_equal]
pub struct ReclaimViewV {
    pub title: Seq<char>,
    pub notes: Seq<Seq<screen::SpanV>>,
    pub rows: Seq<Seq<screen::SpanV>>,
    pub selected: nat,
    pub detail: Seq<Seq<screen::SpanV>>,
}

impl View for ReclaimView {
    type V = ReclaimViewV;

    open spec fn view(&self) -> ReclaimViewV {
        ReclaimViewV {
            title: self.title@,
            notes: self.notes@,
            rows: self.rows@,
            selected: self.selected as nat,
            detail: self.detail@,
        }
    }
}

/// What is said where there is nothing to list.
pub open spec fn reclaim_notes(v: reclaimpane::ReclaimV, ms: u64) -> Seq<Seq<screen::SpanV>> {
    let none = screen::no_lines();
    if v.loading {
        none.push(screen::gap()).push(
            modalview::waiting(ms, "scanning reclaim recommendations…"@),
        ).push(screen::gap()).push(
            screen::one(
                "press Enter on a finding to view recoverable paths"@,
                screen::plain(),
            ),
        )
    } else if v.report is None {
        none.push(screen::one("press R to scan reclaim recommendations"@, screen::plain()))
    } else if v.findings().len() == 0 {
        none.push(screen::one("no reclaim candidates found"@, screen::plain()))
    } else {
        none
    }
}

pub open spec fn lists_findings(v: reclaimpane::ReclaimV) -> bool {
    !v.loading && v.report is Some && v.findings().len() > 0
}

/// The report in a list of some width.
pub open spec fn reclaim_view(v: reclaimpane::ReclaimV, width: int, ms: u64) -> ReclaimViewV {
    if lists_findings(v) {
        ReclaimViewV {
            title: " reclaim "@ + columns::findings_text(v.findings().len()) + " · "@
                + sizes::human_text(v.report->0.total.allocated as nat) + " "@,
            notes: screen::no_lines(),
            rows: finding_rows(v.findings(), width),
            selected: crate::outbox::clamped(v.selected, v.findings().len()),
            detail: match v.current() {
                Some(f) => finding_detail(f),
                None => screen::no_lines(),
            },
        }
    } else {
        ReclaimViewV {
            title: " reclaim "@,
            notes: reclaim_notes(v, ms),
            rows: screen::no_lines(),
            selected: 0,
            detail: screen::no_lines(),
        }
    }
}

fn draw_findings(findings: &Vec<reclaim::Finding>, width: u16) -> (r: screen::Lines)
    ensures
        r@ == finding_rows(sorting::views(findings@), width as int),
{
    let ghost wanted = finding_rows(sorting::views(findings@), width as int);
    let mut rows = screen::Lines::new();
    let mut i: usize = 0;
    assert(wanted.take(0) =~= screen::no_lines());
    while i < findings.len()
        invariant
            i <= findings@.len(),
            wanted == finding_rows(sorting::views(findings@), width as int),
            rows@ == wanted.take(i as int),
        decreases findings@.len() - i,
    {
        let line = draw_finding(&findings[i], width);
        assert(line@ == wanted[i as int]);
        rows.add(line);
        assert(wanted.take(i + 1) =~= wanted.take(i as int).push(wanted[i as int]));
        i += 1;
    }
    assert(wanted.take(wanted.len() as int) =~= wanted);
    rows
}

fn draw_reclaim_notes(pane: &reclaimpane::ReclaimPane, ms: u64) -> (r: screen::Lines)
    ensures
        r@ == reclaim_notes(pane@, ms),
{
    let mut lines = screen::Lines::new();
    if pane.loading {
        lines.skip();
        lines.pair(
            text::join2(columns::spinner_char(ms), " ").as_str(),
            style(screen::Color::Cyan),
            "scanning reclaim recommendations…",
            style(screen::Color::White),
        );
        lines.skip();
        lines.say("press Enter on a finding to view recoverable paths", screen::Style::plain());
    } else if pane.report.is_none() {
        lines.say("press R to scan reclaim recommendations", screen::Style::plain());
    } else if pane.reclaim_item_count() == 0 {
        lines.say("no reclaim candidates found", screen::Style::plain());
    }
    lines
}

/// Draws the report on what could be reclaimed.
pub fn draw_reclaim_panel(pane: &reclaimpane::ReclaimPane, width: u16, ms: u64) -> (r: ReclaimView)
    ensures
        r@ == reclaim_view(pane@, width as int, ms),
{
    let count: usize = pane.reclaim_item_count();
    match &pane.report {
        Some(report) => {
            if !pane.loading && count > 0 {
                assert(pane@.findings() == sorting::views(report.findings@));
                let title = text::join5(
                    " reclaim ",
                    columns::finding_count_label(count).as_str(),
                    " · ",
                    sizes::human(report.total.allocated).as_str(),
                    " ",
                );
                let rows = draw_findings(&report.findings, width);
                let selected: usize = crate::outbox::clamp(pane.selected, count);
                let detail = match pane.selected_reclaim_finding() {
                    Some(f) => draw_finding_detail(f),
                    None => screen::Lines::new(),
                };
                return ReclaimView {
                    title,
                    notes: screen::Lines::new(),
                    rows,
                    selected,
                    detail,
                };
            }
        },
        None => {},
    }
    ReclaimView {
        title: " reclaim ".to_owned(),
        notes: draw_reclaim_notes(pane, ms),
        rows: screen::Lines::new(),
        selected: 0,
        detail: screen::Lines::new(),
    }
}

// ---------------------------------------------------------------------------
// Lists with a footer
// ---------------------------------------------------------------------------

/// A list on top of the panes: a message, or rows with a footer.
#[derive(Debug)]
pub struct ListView {
    pub title: String,
    pub notes: screen::Lines,
    pub rows: screen::Lines,
    pub selected: usize,
    pub footer: screen::Lines,
}

#[verifier::ext_equal]
pub struct ListViewV {
    pub title: Seq<char>,
    pub notes: Seq<Seq<screen::SpanV>>,
    pub rows: Seq<Seq<screen::SpanV>>,
    pub selected: nat,
    pub footer: Seq<Seq<screen::SpanV>>,
}

impl View for ListView {
    type V = ListViewV;

    open spec fn view(&self) -> ListViewV {
        ListViewV {
            title: self.title@,
            notes: self.notes@,
            rows: self.rows@,
            selected: self.selected as nat,
            footer: self.footer@,
        }
    }
}

/// The hint below a list.
pub open spec fn list_hint() -> Seq<screen::SpanV> {
    screen::one(
        "f/enter: reveal  ·  O: open  ·  d: trash  ·  esc: close"@,
        screen::plain(),
    )
}

fn add_list_hint(lines: &mut screen::Lines)
    ensures
        final(lines)@ == old(lines)@.push(list_hint()),
{
    lines.say(
        "f/enter: reveal  ·  O: open  ·  d: trash  ·  esc: close",
        screen::Style::plain(),
    );
}

/// The number of a row in front of it.
pub open spec fn row_number(i: int) -> screen::SpanV {
    screen::span(screen::padded_left(text::decimal((i + 1) as nat), 2) + ". "@, modalview::dim())
}

fn add_row_number(line: &mut screen::Line, i: usize)
    requires
        i < usize::MAX,
    ensures
        final(line)@ == old(line)@.push(row_number(i as int)),
{
    let number = screen::pad_left(text::decimal_text((i + 1) as u64).as_str(), 2);
    line.add(text::join2(number.as_str(), ". ").as_str(), style(screen::Color::DarkGray));
}

/// Which rows are shown, of how many.
pub open spec fn range_text(offset: nat, end: nat, count: nat) -> Seq<char> {
    text::decimal(offset + 1) + "-"@ + text::decimal(end) + " of "@ + text::decimal(count)
}

fn describe_range(offset: usize, end: usize, count: usize) -> (r: String)
    requires
        offset < usize::MAX,
    ensures
        r@ == range_text(offset as nat, end as nat, count as nat),
{
    text::join5(
        text::decimal_text((offset + 1) as u64).as_str(),
        "-",
        text::decimal_text(end as u64).as_str(),
        " of ",
        text::decimal_text(count as u64).as_str(),
    )
}

/// The row of a path of a finding.
pub open spec fn path_row(path: Seq<char>, i: int, selected: bool, width: int) -> Seq<
    screen::SpanV,
> {
    let line = screen::blank().push(row_number(i)).push(
        screen::span(screen::truncated(path, statusview::less(width, 8)), modalview::white()),
    );
    if selected {
        line.push(screen::span("  (current)"@, modalview::dim()))
    } else {
        line
    }
}

pub open spec fn path_rows(
    paths: Seq<Seq<char>>,
    selected: nat,
    offset: int,
    end: int,
    width: int,
) -> Seq<Seq<screen::SpanV>> {
    Seq::new(
        (end - offset) as nat,
        |i: int| path_row(paths[offset + i], offset + i, offset + i == selected, width),
    )
}

/// The list of the paths of a finding, with the rows from one to another.
pub open spec fn paths_view(
    v: reclaimpane::ReclaimV,
    offset: nat,
    end: nat,
    width: int,
) -> ListViewV {
    let count = v.path_list().len();
    if count == 0 {
        ListViewV {
            title: " reclaim paths "@,
            notes: screen::no_lines().push(
                screen::one("no reclaim paths found"@, screen::plain()),
            ),
            rows: screen::no_lines(),
            selected: 0,
            footer: screen::no_lines(),
        }
    } else {
        let f = v.findings()[v.paths_finding as int];
        ListViewV {
            title: " reclaim paths "@,
            notes: screen::no_lines(),
            rows: path_rows(v.path_list(), v.paths_selected, offset as int, end as int, width),
            selected: statusview::less(v.paths_selected as int, offset as int),
            footer: screen::no_lines().push(
                screen::two(
                    f.label + " ("@ + f.class.name() + ") · "@ + text::decimal(f.count),
                    modalview::gray(),
                    "  ·  "@ + range_text(offset, end, count),
                    modalview::dim(),
                ),
            ).push(list_hint()),
        }
    }
}

fn draw_path_rows(
    paths: &Vec<String>,
    selected: usize,
    offset: usize,
    end: usize,
    width: u16,
) -> (r: screen::Lines)
    requires
        offset <= end <= paths@.len(),
    ensures
        r@ == path_rows(
            text::texts(paths@),
            selected as nat,
            offset as int,
            end as int,
            width as int,
        ),
{
    let ghost all = text::texts(paths@);
    let ghost wanted = path_rows(
        all,
        selected as nat,
        offset as int,
        end as int,
        width as int,
    );
    let room: usize = width.saturating_sub(8) as usize;
    let mut rows = screen::Lines::new();
    let mut i: usize = offset;
    assert(wanted.take(0) =~= screen::no_lines());
    while i < end
        invariant
            offset <= i <= end <= paths@.len(),
            room == statusview::less(width as int, 8),
            all == text::texts(paths@),
            wanted == path_rows(
                all,
                selected as nat,
                offset as int,
                end as int,
                width as int,
            ),
            rows@ == wanted.take(i - offset),
        decreases end - i,
    {
        let mut line = screen::Line::new();
        add_row_number(&mut line, i);
        line.add(
            screen::truncate(paths[i].as_str(), room).as_str(),
            style(screen::Color::White),
        );
        if i == selected {
            line.add("  (current)", style(screen::Color::DarkGray));
        }
        assert(all[i as int] == paths@[i as int]@);
        assert(line@ == wanted[i - offset]);
        rows.add(line);
        assert(wanted.take(i - offset + 1) =~= wanted.take(i - offset).push(wanted[i - offset]));
        i += 1;
    }
    assert(wanted.take(wanted.len() as int) =~= wanted);
    rows
}

fn no_paths() -> (r: ListView)
    ensures
        r@ == (ListViewV {
            title: " reclaim paths "@,
            notes: screen::no_lines().push(
                screen::one("no reclaim paths found"@, screen::plain()),
            ),
            rows: screen::no_lines(),
            selected: 0,
            footer: screen::no_lines(),
        }),
{
    let mut notes = screen::Lines::new();
    notes.say("no reclaim paths found", screen::Style::plain());
    ListView {
        title: " reclaim paths ".to_owned(),
        notes,
        rows: screen::Lines::new(),
        selected: 0,
        footer: screen::Lines::new(),
    }
}

/// Draws the list of the paths of a finding.
pub fn draw_reclaim_paths(
    pane: &reclaimpane::ReclaimPane,
    offset: usize,
    end: usize,
    width: u16,
) -> (r: ListView)
    requires
        offset <= end <= pane@.path_list().len(),
        pane@.path_list().len() > 0 ==> offset < end,
    ensures
        r@ == paths_view(pane@, offset as nat, end as nat, width as int),
{
    let report = match &pane.report {
        Some(report) => report,
        None => {
            return no_paths();
        },
    };
    assert(pane@.findings() == sorting::views(report.findings@));
    if pane.paths_finding >= report.findings.len() {
        return no_paths();
    }
    let f = &report.findings[pane.paths_finding];
    assert(pane@.findings()[pane.paths_finding as int] == f@);
    if f.paths.len() == 0 {
        return no_paths();
    }
    let rows = draw_path_rows(&f.paths, pane.paths_selected, offset, end, width);
    let start = text::join4(f.label.as_str(), " (", f.class.label(), ") · ");
    let what = text::join2(start.as_str(), text::decimal_text(f.count as u64).as_str());
    let range = text::join2("  ·  ", describe_range(offset, end, f.paths.len()).as_str());
    let mut footer = screen::Lines::new();
    footer.pair(
        what.as_str(),
        style(screen::Color::Gray),
        range.as_str(),
        style(screen::Color::DarkGray),
    );
    add_list_hint(&mut footer);
    ListView {
        title: " reclaim paths ".to_owned(),
        notes: screen::Lines::new(),
        rows,
        selected: pane.paths_selected.saturating_sub(offset),
        footer,
    }
}

// ---------------------------------------------------------------------------
// Largest files
// ---------------------------------------------------------------------------

/// The row of one of the largest files.
pub open spec fn top_row(f: bulkstat::LargeFileModel, i: int, width: int) -> Seq<screen::SpanV> {
    screen::blank().push(row_number(i)).push(
        screen::span(screen::truncated(f.path, statusview::less(width, 34)), modalview::white()),
    ).push(screen::span("  "@, screen::plain())).push(
        screen::span(
            screen::padded_left(columns::size_pair_text(f.size), 20),
            modalview::green(),
        ),
    )
}

pub open spec fn top_rows(
    files: Seq<bulkstat::LargeFileModel>,
    offset: int,
    end: int,
    width: int,
) -> Seq<Seq<screen::SpanV>> {
    Seq::new((end - offset) as nat, |i: int| top_row(files[offset + i], offset + i, width))
}

/// What is said where no files are listed.
pub open spec fn top_notes(v: modals::TopFilesV, ms: u64) -> Seq<Seq<screen::SpanV>> {
    if v.loading {
        let start = screen::no_lines().push(screen::gap()).push(
            modalview::waiting(ms, "scanning top files…"@),
        );
        match v.path {
            Some(path) => start.push(screen::one("path: "@ + path, screen::plain())),
            None => start,
        }
    } else {
        screen::no_lines().push(
            screen::one(
                if v.scan is Some {
                    "no regular files found"@
                } else {
                    "no scan in progress"@
                },
                screen::plain(),
            ),
        )
    }
}

/// The list of the largest files, with the rows from one to another.
pub open spec fn top_view(
    v: modals::TopFilesV,
    offset: nat,
    end: nat,
    width: int,
    ms: u64,
) -> ListViewV {
    if v.loading || v.files().len() == 0 {
        ListViewV {
            title: " top files "@,
            notes: top_notes(v, ms),
            rows: screen::no_lines(),
            selected: 0,
            footer: screen::no_lines(),
        }
    } else {
        ListViewV {
            title: match v.path {
                Some(path) => " top files · "@ + path + " "@,
                None => " top files "@,
            },
            notes: screen::no_lines(),
            rows: top_rows(v.files(), offset as int, end as int, width),
            selected: statusview::less(v.selected as int, offset as int),
            footer: screen::no_lines().push(
                screen::two(
                    "total: "@ + columns::size_pair_text(v.scan->0.size),
                    modalview::green(),
                    " · "@ + range_text(offset, end, v.files().len()),
                    modalview::dim(),
                ),
            ).push(list_hint()),
        }
    }
}

fn draw_top_rows(files: &Vec<bulkstat::LargeFile>, offset: usize, end: usize, width: u16) -> (r:
    screen::Lines)
    requires
        offset <= end <= files@.len(),
    ensures
        r@ == top_rows(sorting::views(files@), offset as int, end as int, width as int),
{
    let ghost all = sorting::views(files@);
    let ghost wanted = top_rows(all, offset as int, end as int, width as int);
    let room: usize = width.saturating_sub(34) as usize;
    let mut rows = screen::Lines::new();
    let mut i: usize = offset;
    assert(wanted.take(0) =~= screen::no_lines());
    while i < end
        invariant
            offset <= i <= end <= files@.len(),
            room == statusview::less(width as int, 34),
            all == sorting::views(files@),
            wanted == top_rows(all, offset as int, end as int, width as int),
            rows@ == wanted.take(i - offset),
        decreases end - i,
    {
        let mut line = screen::Line::new();
        add_row_number(&mut line, i);
        line.add(
            screen::truncate(files[i].path.as_str(), room).as_str(),
            style(screen::Color::White),
        );
        line.add("  ", screen::Style::plain());
        line.add(
            screen::pad_left(columns::size_pair(files[i].size).as_str(), 20).as_str(),
            style(screen::Color::Green),
        );
        assert(all[i as int] == files@[i as int]@);
        assert(line@ == wanted[i - offset]);
        rows.add(line);
        assert(wanted.take(i - offset + 1) =~= wanted.take(i - offset).push(wanted[i - offset]));
        i += 1;
    }
    assert(wanted.take(wanted.len() as int) =~= wanted);
    rows
}

fn draw_top_notes(pane: &modals::TopFiles, ms: u64) -> (r: screen::Lines)
    ensures
        r@ == top_notes(pane@, ms),
{
    let mut lines = screen::Lines::new();
    if pane.loading {
        lines.skip();
        lines.pair(
            text::join2(columns::spinner_char(ms), " ").as_str(),
            style(screen::Color::Cyan),
            "scanning top files…",
            style(screen::Color::White),
        );
        match &pane.path {
            Some(path) => {
                lines.say(text::join2("path: ", path.as_str()).as_str(), screen::Style::plain());
            },
            None => {},
        }
        return lines;
    }
    let message = if pane.scan.is_some() {
        "no regular files found"
    } else {
        "no scan in progress"
    };
    lines.say(message, screen::Style::plain());
    lines
}

/// Draws the list of the largest files.
pub fn draw_top_files(pane: &modals::TopFiles, offset: usize, end: usize, width: u16, ms: u64) -> (r:
    ListView)
    requires
        offset <= end <= pane@.files().len(),
        pane@.files().len() > 0 ==> offset < end,
    ensures
        r@ == top_view(pane@, offset as nat, end as nat, width as int, ms),
{
    match &pane.scan {
        Some(scan) => {
            assert(pane@.files() == sorting::views(scan.largest_files@));
            if !pane.loading && scan.largest_files.len() > 0 {
                let title = match &pane.path {
                    Some(path) => text::join3(" top files · ", path.as_str(), " "),
                    None => " top files ".to_owned(),
                };
                let rows = draw_top_rows(&scan.largest_files, offset, end, width);
                let total = text::join2("total: ", columns::size_pair(scan.size).as_str());
                let range = text::join2(
                    " · ",
                    describe_range(offset, end, scan.largest_files.len()).as_str(),
                );
                let mut footer = screen::Lines::new();
                footer.pair(
                    total.as_str(),
                    style(screen::Color::Green),
                    range.as_str(),
                    style(screen::Color::DarkGray),
                );
                add_list_hint(&mut footer);
                return ListView {
                    title,
                    notes: screen::Lines::new(),
                    rows,
                    selected: pane.selected.saturating_sub(offset),
                    footer,
                };
            }
        },
        None => {},
    }
    ListView {
        title: " top files ".to_owned(),
        notes: draw_top_notes(pane, ms),
        rows: screen::Lines::new(),
        selected: 0,
        footer: screen::Lines::new(),
    }
}

// ---------------------------------------------------------------------------
// Details of a file
// ---------------------------------------------------------------------------

/// What is known of a file; its times are given as texts.
#[derive(Debug)]
pub struct FileInfo {
    pub name: String,
    pub kind: String,
    pub path: String,
    pub size: Option<bulkstat::SizeInfo>,
    pub size_stale: bool,
    pub direct_items: Option<u64>,
    pub inaccessible: u32,
    pub created: String,
    pub modified: String,
    pub accessed: String,
    pub owner: String,
    pub group: String,
    pub permissions_octal: String,
    pub permissions_symbolic: String,
    pub hard_links: u64,
    pub xattr_count: Option<u64>,
    pub has_quarantine_xattr: bool,
}

/// What is said of the size of a file.
pub open spec fn info_size(info: FileInfo) -> Seq<Seq<screen::SpanV>> {
    let is_dir = info.kind@ == "directory"@;
    match info.size {
        Some(size) => {
            let first = screen::no_lines().push(
                modalview::labelled(
                    if is_dir {
                        "  Recursive size: "@
                    } else {
                        "  Size: "@
                    },
                    columns::size_detail_text(size),
                    if info.size_stale {
                        modalview::dim()
                    } else {
                        modalview::green()
                    },
                ),
            );
            if size.logical == size.allocated {
                first
            } else {
                first.push(
                    screen::one(
                        if size.allocated < size.logical {
                            "  Apparent and allocated size differ; APFS clones, sparse files, or compression can make allocated smaller."@
                        } else {
                            "  Apparent and allocated size differ; filesystem block allocation can round allocated size up."@
                        },
                        modalview::gray(),
                    ),
                )
            }
        },
        None => if is_dir {
            screen::no_lines().push(
                modalview::labelled("  Recursive size: "@, "not scanned yet"@, modalview::gray()),
            )
        } else {
            screen::no_lines()
        },
    }
}

fn draw_info_size(info: &FileInfo) -> (r: screen::Lines)
    ensures
        r@ == info_size(*info),
{
    let is_dir = text::same_text(info.kind.as_str(), "directory");
    let mut lines = screen::Lines::new();
    match info.size {
        Some(size) => {
            let label = if is_dir {
                "  Recursive size: "
            } else {
                "  Size: "
            };
            let color = if info.size_stale {
                screen::Color::DarkGray
            } else {
                screen::Color::Green
            };
            lines.pair(
                label,
                style(screen::Color::DarkGray),
                columns::size_detail(size).as_str(),
                style(color),
            );
            if size.logical != size.allocated {
                let note = if size.allocated < size.logical {
                    "  Apparent and allocated size differ; APFS clones, sparse files, or compression can make allocated smaller."
                } else {
                    "  Apparent and allocated size differ; filesystem block allocation can round allocated size up."
                };
                lines.say(note, style(screen::Color::Gray));
            }
        },
        None => {
            if is_dir {
                lines.pair(
                    "  Recursive size: ",
                    style(screen::Color::DarkGray),
                    "not scanned yet",
                    style(screen::Color::Gray),
                );
            }
        },
    }
    lines
}

/// What is said of extended attributes.
pub open spec fn xattr_text(count: Option<u64>, quarantine: bool) -> Seq<char> {
    match count {
        Some(n) => if quarantine {
            text::decimal(n as nat) + " (includes com.apple.quarantine)"@
        } else {
            text::decimal(n as nat)
        },
        None => "unavailable"@,
    }
}

fn describe_xattrs(count: Option<u64>, quarantine: bool) -> (r: String)
    ensures
        r@ == xattr_text(count, quarantine),
{
    match count {
        Some(n) => if quarantine {
            text::join2(text::decimal_text(n).as_str(), " (includes com.apple.quarantine)")
        } else {
            text::decimal_text(n)
        },
        None => "unavailable".to_owned(),
    }
}

/// The details of a file.
pub open spec fn file_detail(info: FileInfo, width: int) -> Seq<Seq<screen::SpanV>> {
    let start = screen::no_lines().push(screen::gap()).push(
        screen::two(
            screen::truncated(info.name@, statusview::less(width, 6)),
            screen::bold(screen::Color::White),
            " · "@ + info.kind@,
            modalview::gray(),
        ),
    ).push(
        modalview::labelled(
            "  Path: "@,
            screen::start_truncated(info.path@, statusview::less(width, 10)),
            modalview::gray(),
        ),
    );
    let sized = start + info_size(info);
    let counted = match info.direct_items {
        Some(n) => sized.push(
            modalview::labelled(
                "  Items: "@,
                text::decimal(n as nat) + " direct children"@,
                modalview::white(),
            ),
        ),
        None => sized,
    };
    let bounded = if info.inaccessible > 0 {
        counted.push(
            screen::one(
                "  "@ + text::decimal(info.inaccessible as nat)
                    + " unreadable directories were skipped; recursive size is a lower bound."@,
                modalview::yellow(),
            ),
        )
    } else {
        counted
    };
    let white = modalview::white();
    bounded.push(screen::gap()).push(
        modalview::labelled("  Created: "@, info.created@, white),
    ).push(modalview::labelled("  Modified: "@, info.modified@, white)).push(
        modalview::labelled("  Accessed: "@, info.accessed@, white),
    ).push(
        modalview::labelled("  Owner: "@, info.owner@ + ":"@ + info.group@, white),
    ).push(
        modalview::labelled(
            "  Permissions: "@,
            info.permissions_octal@ + " ("@ + info.permissions_symbolic@ + ")"@,
            white,
        ),
    ).push(
        modalview::labelled("  Hard links: "@, text::decimal(info.hard_links as nat), white),
    ).push(
        modalview::labelled(
            "  Extended attrs: "@,
            xattr_text(info.xattr_count, info.has_quarantine_xattr),
            if info.has_quarantine_xattr {
                modalview::yellow()
            } else {
                white
            },
        ),
    ).push(screen::gap()).push(file_hints())
}

/// The keys of the details of a file.
pub open spec fn file_hints() -> Seq<screen::SpanV> {
    modalview::hint(
        modalview::hint(
            modalview::hint(
                modalview::hint(
                    modalview::hint(screen::blank(), "  Space"@, " Quick Look"@),
                    "f"@,
                    " Finder"@,
                ),
                "O"@,
                " open"@,
            ),
            "d"@,
            " trash"@,
        ),
        "Esc"@,
        " close"@,
    )
}

fn draw_file_hints() -> (r: screen::Line)
    ensures
        r@ == file_hints(),
{
    let mut line = screen::Line::new();
    modalview::add_hint(&mut line, "  Space", " Quick Look");
    modalview::add_hint(&mut line, "f", " Finder");
    modalview::add_hint(&mut line, "O", " open");
    modalview::add_hint(&mut line, "d", " trash");
    modalview::add_hint(&mut line, "Esc", " close");
    line
}

fn append(lines: &mut screen::Lines, more: screen::Lines)
    ensures
        final(lines)@ == old(lines)@ + more@,
{
    let ghost start = lines@;
    let ghost all = more@;
    let mut rest = more.lines;
    let mut other: Vec<screen::Line> = Vec::new();
    std::mem::swap(&mut lines.lines, &mut other);
    let ghost before = other@;
    other.append(&mut rest);
    lines.lines = other;
    assert(lines@ =~= start + all);
}

/// Draws the details of a file.
pub fn draw_file_info(info: &FileInfo, width: u16) -> (r: screen::Lines)
    ensures
        r@ == file_detail(*info, width as int),
{
    let white = style(screen::Color::White);
    let mut lines = screen::Lines::new();
    lines.skip();
    lines.pair(
        screen::truncate(info.name.as_str(), width.saturating_sub(6) as usize).as_str(),
        screen::Style::bold(screen::Color::White),
        text::join2(" · ", info.kind.as_str()).as_str(),
        style(screen::Color::Gray),
    );
    modalview::add_labelled(
        &mut lines,
        "  Path: ",
        screen::truncate_start(info.path.as_str(), width.saturating_sub(10) as usize).as_str(),
        style(screen::Color::Gray),
    );
    append(&mut lines, draw_info_size(info));
    match info.direct_items {
        Some(n) => {
            modalview::add_labelled(
                &mut lines,
                "  Items: ",
                text::join2(text::decimal_text(n).as_str(), " direct children").as_str(),
                white,
            );
        },
        None => {},
    }
    if info.inaccessible > 0 {
        lines.say(
            text::join3(
                "  ",
                text::decimal_text(info.inaccessible as u64).as_str(),
                " unreadable directories were skipped; recursive size is a lower bound.",
            ).as_str(),
            style(screen::Color::Yellow),
        );
    }
    lines.skip();
    modalview::add_labelled(&mut lines, "  Created: ", info.created.as_str(), white);
    modalview::add_labelled(&mut lines, "  Modified: ", info.modified.as_str(), white);
    modalview::add_labelled(&mut lines, "  Accessed: ", info.accessed.as_str(), white);
    modalview::add_labelled(
        &mut lines,
        "  Owner: ",
        text::join3(info.owner.as_str(), ":", info.group.as_str()).as_str(),
        white,
    );
    modalview::add_labelled(
        &mut lines,
        "  Permissions: ",
        text::join4(
            info.permissions_octal.as_str(),
            " (",
            info.permissions_symbolic.as_str(),
            ")",
        ).as_str(),
        white,
    );
    modalview::add_labelled(
        &mut lines,
        "  Hard links: ",
        text::decimal_text(info.hard_links).as_str(),
        white,
    );
    let color = if info.has_quarantine_xattr {
        screen::Color::Yellow
    } else {
        screen::Color::White
    };
    modalview::add_labelled(
        &mut lines,
        "  Extended attrs: ",
        describe_xattrs(info.xattr_count, info.has_quarantine_xattr).as_str(),
        style(color),
    );
    lines.skip();
    lines.add(draw_file_hints());
    lines
}

impl app::App {
    /// Notes how many findings a page of a list of some height holds.
    pub fn show_reclaim(&mut self, height: u16)
        ensures
            final(self)@ == (app::AppV {
                reclaim: reclaimpane::ReclaimV {
                    page_rows: crate::sideview::package_rows(height as int),
                    ..old(self)@.reclaim
                },
                ..old(self)@
            }),
    {
        let rows: usize = if height < 3 {
            1
        } else {
            height as usize - 2
        };
        self.reclaim.page_rows = rows;
    }
}

} // verus!
