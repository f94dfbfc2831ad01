//! The panes beside the files: disks and packages.

use crate::app;
use crate::bulkstat;
use crate::columns;
use crate::filesview;
use crate::keymap;
use crate::modals;
use crate::outbox;
use crate::packages;
use crate::pkgpane;
use crate::screen;
use crate::sizes;
use crate::sorting;
use crate::statusview;
use crate::text;
use vstd::prelude::*;

verus! {

// ---------------------------------------------------------------------------
// Disks
// ---------------------------------------------------------------------------

/// What is used of a disk.
pub open spec fn used_of(disk: modals::DiskModel) -> nat {
    statusview::less(disk.total as int, disk.available as int)
}

/// What is used of a disk, in percent.
pub open spec fn used_percent(disk: modals::DiskModel) -> nat {
    let percent = sizes::percent_of(used_of(disk), disk.total as nat);
    if percent <= u16::MAX {
        percent
    } else {
        u16::MAX as nat
    }
}

/// The colour of a disk, by how full it is.
pub open spec fn fullness(percent: nat) -> screen::Color {
    if percent > 90 {
        screen::Color::Red
    } else if percent > 75 {
        screen::Color::Yellow
    } else {
        screen::Color::Green
    }
}

fn fullness_of(percent: u16) -> (r: screen::Color)
    ensures
        r == fullness(percent as nat),
{
    if percent > 90 {
        screen::Color::Red
    } else if percent > 75 {
        screen::Color::Yellow
    } else {
        screen::Color::Green
    }
}

/// A disk on one line, cut to a width.
pub open spec fn compact_disk(disk: modals::DiskModel, selected: bool, width: nat) -> screen::SpanV {
    screen::span(
        screen::truncated(
            (if selected {
                "▸ "@
            } else {
                "  "@
            }) + columns::volume_name(disk.mount) + "  "@ + text::decimal(used_percent(disk)) + (
            "%  "@ + sizes::human_text(disk.available as nat) + " free"@),
            width,
        ),
        screen::Style { color: Some(fullness(used_percent(disk))), bold: selected },
    )
}

pub fn compact_disk_line(disk: &modals::DiskInfo, selected: bool, width: usize) -> (r: screen::Line)
    ensures
        r@ == screen::blank().push(compact_disk(disk@, selected, width as nat)),
{
    let used: u64 = disk.total.saturating_sub(disk.available);
    let percent: u16 = sizes::share_percent(used, disk.total);
    let marker = if selected {
        "▸ "
    } else {
        "  "
    };
    let rest = text::join3("%  ", sizes::human(disk.available).as_str(), " free");
    let whole = text::join5(
        marker,
        columns::volume_label(disk.mount.as_str()).as_str(),
        "  ",
        text::decimal_text(percent as u64).as_str(),
        rest.as_str(),
    );
    let style = screen::Style { color: Some(fullness_of(percent)), bold: selected };
    screen::Line::of(screen::truncate(whole.as_str(), width).as_str(), style)
}

/// A line with a disk never takes more than its width.
pub proof fn compact_disks_fit(disk: modals::DiskModel, selected: bool, width: nat)
    ensures
        screen::width_of(compact_disk(disk, selected, width).text) <= width,
{
    let t = (if selected {
        "▸ "@
    } else {
        "  "@
    }) + columns::volume_name(disk.mount) + "  "@ + text::decimal(used_percent(disk)) + ("%  "@
        + sizes::human_text(disk.available as nat) + " free"@);
    screen::cut_text_fits(t, width);
}

/// A disk with a bar of what is used of it.
#[derive(Debug)]
pub struct Gauge {
    pub label: String,
    pub color: screen::Color,
    pub bold: bool,
    pub percent: u16,
}

#[verifier::ext_equal]
pub struct GaugeV {
    pub label: Seq<char>,
    pub color: screen::Color,
    pub bold: bool,
    pub percent: nat,
}

impl View for Gauge {
    type V = GaugeV;

    open spec fn view(&self) -> GaugeV {
        GaugeV {
            label: self.label@,
            color: self.color,
            bold: self.bold,
            percent: self.percent as nat,
        }
    }
}

pub open spec fn gauge_of(disk: modals::DiskModel, selected: bool) -> GaugeV {
    GaugeV {
        label: (if selected {
            "> "@
        } else {
            Seq::empty()
        }) + columns::disk_name(disk) + "  "@ + sizes::human_text(used_of(disk)) + (" / "@
            + sizes::human_text(disk.total as nat)),
        color: fullness(used_percent(disk)),
        bold: selected,
        percent: if used_percent(disk) < 100 {
            used_percent(disk)
        } else {
            100
        },
    }
}

fn draw_gauge(disk: &modals::DiskInfo, selected: bool) -> (r: Gauge)
    ensures
        r@ == gauge_of(disk@, selected),
{
    let used: u64 = disk.total.saturating_sub(disk.available);
    let percent: u16 = sizes::share_percent(used, disk.total);
    let none = String::new();
    let marker = if selected {
        "> "
    } else {
        none.as_str()
    };
    let total = text::join2(" / ", sizes::human(disk.total).as_str());
    Gauge {
        label: text::join5(
            marker,
            columns::disk_label(disk).as_str(),
            "  ",
            sizes::human(used).as_str(),
            total.as_str(),
        ),
        color: fullness_of(percent),
        bold: selected,
        percent: if percent < 100 {
            percent
        } else {
            100
        },
    }
}

/// The pane of the disks: a message, or a line each, or a bar each.
#[derive(Debug)]
pub struct DisksView {
    pub title: String,
    pub border: screen::Color,
    pub message: Option<String>,
    pub lines: screen::Lines,
    pub gauges: Vec<Gauge>,
}

#[verifier::ext_equal]
pub struct DisksViewV {
    pub title: Seq<char>,
    pub border: screen::Color,
    pub message: Option<Seq<char>>,
    pub lines: Seq<Seq<screen::SpanV>>,
    pub gauges: Seq<GaugeV>,
}

impl View for DisksView {
    type V = DisksViewV;

    open spec fn view(&self) -> DisksViewV {
        DisksViewV {
            title: self.title@,
            border: self.border,
            message: packages::opt_text(self.message),
            lines: self.lines@,
            gauges: sorting::views(self.gauges@),
        }
    }
}

/// A disk is the selected one of the pane with the focus.
pub open spec fn is_selected(v: app::AppV, i: int) -> bool {
    v.focus == keymap::Focus::Disks && i == v.disks.selected
}

pub open spec fn compact_lines(v: app::AppV, from: int, to: int, width: nat) -> Seq<
    Seq<screen::SpanV>,
> {
    Seq::new(
        (to - from) as nat,
        |i: int|
            screen::blank().push(
                compact_disk(v.disks.disks[from + i], is_selected(v, from + i), width),
            ),
    )
}

pub open spec fn gauges_of(v: app::AppV, from: int, to: int) -> Seq<GaugeV> {
    Seq::new(
        (to - from) as nat,
        |i: int| gauge_of(v.disks.disks[from + i], is_selected(v, from + i)),
    )
}

/// How many disks a page of the pane holds.
pub open spec fn disk_rows(v: app::AppV, width: int, height: int, expanded: bool) -> int {
    let inner = statusview::less(height, 2) as int;
    if width == 0 || height == 0 || v.disks.disks.len() == 0 {
        1
    } else if !expanded {
        if inner < 1 {
            1
        } else {
            inner
        }
    } else if inner < 4 {
        1
    } else {
        inner / 4
    }
}

/// The pane of the disks in an area.
pub open spec fn disks_view(v: app::AppV, width: int, height: int, expanded: bool) -> DisksViewV {
    let inner_width = statusview::less(width, 2);
    let inner_height = statusview::less(height, 2);
    let count = v.disks.disks.len() as int;
    let (from, to) = columns::disk_window(
        v.disks.selected as int,
        count,
        disk_rows(v, width, height, expanded),
    );
    let empty = DisksViewV {
        title: "disks ("@ + text::decimal(v.disks.disks.len()) + ")"@,
        border: filesview::border_of(v.focus == keymap::Focus::Disks),
        message: None,
        lines: screen::no_lines(),
        gauges: Seq::empty(),
    };
    if count == 0 {
        DisksViewV { message: Some("no disks detected"@), ..empty }
    } else if !expanded {
        DisksViewV { lines: compact_lines(v, from, to, inner_width), ..empty }
    } else if inner_height < 4 {
        DisksViewV {
            message: Some(
                screen::truncated(
                    match v.disks.current() {
                        Some(d) => columns::disk_name(d),
                        None => "no disks"@,
                    },
                    inner_width,
                ),
            ),
            ..empty
        }
    } else {
        DisksViewV { gauges: gauges_of(v, from, to), ..empty }
    }
}

fn draw_compact(state: &app::App, from: usize, to: usize, width: usize) -> (r: screen::Lines)
    requires
        from <= to <= state@.disks.disks.len(),
    ensures
        r@ == compact_lines(state@, from as int, to as int, width as nat),
{
    let ghost wanted = compact_lines(state@, from as int, to as int, width as nat);
    let mut lines = screen::Lines::new();
    let mut i: usize = from;
    while i < to
        invariant
            from <= i <= to <= state@.disks.disks.len(),
            wanted == compact_lines(state@, from as int, to as int, width as nat),
            lines@ == wanted.take(i - from),
        decreases to - i,
    {
        let selected = state.focus == keymap::Focus::Disks && i == state.disks.selected;
        assert(state@.disks.disks[i as int] == state.disks.disks@[i as int]@);
        let line = compact_disk_line(&state.disks.disks[i], selected, width);
        assert(line@ == wanted[i - from]);
        lines.add(line);
        assert(wanted.take(i - from + 1) =~= wanted.take(i - from).push(wanted[i - from]));
        i += 1;
    }
    assert(wanted.take(wanted.len() as int) =~= wanted);
    lines
}

fn draw_gauges(state: &app::App, from: usize, to: usize) -> (r: Vec<Gauge>)
    requires
        from <= to <= state@.disks.disks.len(),
    ensures
        sorting::views(r@) == gauges_of(state@, from as int, to as int),
{
    let ghost wanted = gauges_of(state@, from as int, to as int);
    let mut r: Vec<Gauge> = Vec::new();
    let mut i: usize = from;
    assert(sorting::views(r@) =~= wanted.take(0));
    while i < to
        invariant
            from <= i <= to <= state@.disks.disks.len(),
            wanted == gauges_of(state@, from as int, to as int),
            sorting::views(r@) == wanted.take(i - from),
        decreases to - i,
    {
        let selected = state.focus == keymap::Focus::Disks && i == state.disks.selected;
        assert(state@.disks.disks[i as int] == state.disks.disks@[i as int]@);
        let gauge = draw_gauge(&state.disks.disks[i], selected);
        proof {
            sorting::views_push(r@, gauge);
        }
        assert(gauge@ == wanted[i - from]);
        r.push(gauge);
        assert(wanted.take(i - from + 1) =~= wanted.take(i - from).push(wanted[i - from]));
        i += 1;
    }
    assert(wanted.take(wanted.len() as int) =~= wanted);
    r
}

/// How many packages a page of a pane of some height holds.
pub open spec fn package_rows(height: int) -> nat {
    if height < 3 {
        1
    } else {
        (height - 2) as nat
    }
}

fn count_disk_rows(state: &app::App, width: u16, height: u16, expanded: bool) -> (r: usize)
    ensures
        r == disk_rows(state@, width as int, height as int, expanded),
{
    let inner: usize = height.saturating_sub(2) as usize;
    if width == 0 || height == 0 || state.disks.disks.len() == 0 {
        1
    } else if !expanded {
        if inner < 1 {
            1
        } else {
            inner
        }
    } else if inner < 4 {
        1
    } else {
        inner / 4
    }
}

/// The pane of the packages is shown.
pub open spec fn shows_packages(v: app::AppV) -> bool {
    v.focus == keymap::Focus::Packages || v.pkgs.loaded || v.pkgs.loading
}

impl app::App {
    /// Whether the pane of the packages is shown.
    pub fn packages_visible(&self) -> (r: bool)
        ensures
            r == shows_packages(self@),
    {
        self.focus == keymap::Focus::Packages || self.pkgs.loaded || self.pkgs.loading
    }

    /// Whether the disks are shown with bars: they or the packages are looked at.
    pub fn side_expanded(&self) -> (r: bool)
        ensures
            r == (self@.focus == keymap::Focus::Disks || shows_packages(self@)),
    {
        self.focus == keymap::Focus::Disks || self.packages_visible()
    }

    /// Notes how many rows a page of the disks has in an area.
    pub fn show_disks(&mut self, width: u16, height: u16, expanded: bool)
        ensures
            final(self)@ == (app::AppV {
                disks: modals::DiskPaneV {
                    page_rows: disk_rows(
                        old(self)@,
                        width as int,
                        height as int,
                        expanded,
                    ) as nat,
                    ..old(self)@.disks
                },
                ..old(self)@
            }),
    {
        let rows: usize = count_disk_rows(self, width, height, expanded);
        self.disks.page_rows = rows;
    }

    /// Notes how many rows a page of the packages has in a pane of some height.
    pub fn show_packages(&mut self, height: u16)
        ensures
            final(self)@ == (app::AppV {
                pkgs: pkgpane::PaneV {
                    page_rows: package_rows(height as int),
                    ..old(self)@.pkgs
                },
                ..old(self)@
            }),
    {
        let rows: usize = if height < 3 {
            1
        } else {
            height as usize - 2
        };
        self.pkgs.set_page_rows(rows);
    }
}

/// Draws the pane of the disks, narrow or with bars.
pub fn draw_disks(state: &app::App, width: u16, height: u16, expanded: bool) -> (r: DisksView)
    ensures
        r@ == disks_view(state@, width as int, height as int, expanded),
{
    let inner_width: usize = width.saturating_sub(2) as usize;
    let inner_height: usize = height.saturating_sub(2) as usize;
    let count: usize = state.disks.disks.len();
    let rows: usize = count_disk_rows(state, width, height, expanded);
    let title = text::join3("disks (", text::decimal_text(count as u64).as_str(), ")");
    let border = filesview::border_color(state.focus == keymap::Focus::Disks);
    let (from, to) = columns::disk_window_bounds(state.disks.selected, count, rows);
    let gauges: Vec<Gauge> = Vec::new();
    assert(sorting::views(gauges@) =~= Seq::<GaugeV>::empty());
    let lines = screen::Lines::new();
    if count == 0 {
        let message = Some("no disks detected".to_owned());
        return DisksView { title, border, message, lines, gauges };
    }
    if !expanded {
        let lines = draw_compact(state, from, to, inner_width);
        return DisksView { title, border, message: None, lines, gauges };
    }
    if inner_height < 4 {
        let label = match state.disks.selected_disk() {
            Some(d) => columns::disk_label(d),
            None => "no disks".to_owned(),
        };
        let message = Some(screen::truncate(label.as_str(), inner_width));
        return DisksView { title, border, message, lines, gauges };
    }
    let gauges = draw_gauges(state, from, to);
    DisksView { title, border, message: None, lines, gauges }
}

// ---------------------------------------------------------------------------
// Packages
// ---------------------------------------------------------------------------

/// How a package is used, in two columns.
pub open spec fn use_mark(status: packages::PackageUseStatus) -> screen::SpanV {
    match status {
        packages::PackageUseStatus::RequiredByDependents => screen::span(
            "* "@,
            screen::colored(screen::Color::DarkGray),
        ),
        packages::PackageUseStatus::DependencyLeaf => screen::span(
            "  "@,
            screen::colored(screen::Color::DarkGray),
        ),
        packages::PackageUseStatus::Untracked => screen::span(
            "? "@,
            screen::colored(screen::Color::Yellow),
        ),
    }
}

fn add_use_mark(line: &mut screen::Line, status: packages::PackageUseStatus)
    ensures
        final(line)@ == old(line)@.push(use_mark(status)),
{
    match status {
        packages::PackageUseStatus::RequiredByDependents => line.add(
            "* ",
            screen::Style::colored(screen::Color::DarkGray),
        ),
        packages::PackageUseStatus::DependencyLeaf => line.add(
            "  ",
            screen::Style::colored(screen::Color::DarkGray),
        ),
        packages::PackageUseStatus::Untracked => line.add(
            "? ",
            screen::Style::colored(screen::Color::Yellow),
        ),
    }
}

/// A line with a size behind it, if there is a column for it.
pub open spec fn with_size(line: Seq<screen::SpanV>, size: Seq<char>, width: nat) -> Seq<
    screen::SpanV,
> {
    if width == 0 {
        line
    } else {
        line.push(screen::span("  "@, screen::plain())).push(
            screen::span(
                screen::padded_left(size, width),
                screen::colored(screen::Color::Green),
            ),
        )
    }
}

fn add_size(line: &mut screen::Line, size: &str, width: usize)
    ensures
        final(line)@ == with_size(old(line)@, size@, width as nat),
{
    if width > 0 {
        line.add("  ", screen::Style::plain());
        line.add(
            screen::pad_left(size, width).as_str(),
            screen::Style::colored(screen::Color::Green),
        );
    }
}

/// The row of a package: how it is used, its manager, its name and version, and
/// its size.
pub open spec fn package_row(
    manager: Seq<char>,
    name: Seq<char>,
    version: Seq<char>,
    size: Seq<char>,
    status: packages::PackageUseStatus,
    inner_width: int,
) -> Seq<screen::SpanV> {
    let (name_width, size_width) = columns::package_columns_of(inner_width);
    let room = statusview::less(name_width, (manager.len() + 1) as int + 2);
    let whole = if version.len() == 0 {
        name
    } else {
        name + "@"@ + version
    };
    with_size(
        screen::blank().push(use_mark(status)).push(
            screen::span(manager + " "@, screen::colored(screen::Color::DarkGray)),
        ).push(
            screen::span(
                screen::padded_right(screen::truncated(whole, room), room),
                screen::colored(screen::Color::White),
            ),
        ),
        size,
        size_width as nat,
    )
}

pub fn package_line_with_version(
    manager: &str,
    name: &str,
    version: &str,
    size: &str,
    use_status: packages::PackageUseStatus,
    inner_width: u16,
) -> (r: screen::Line)
    ensures
        r@ == package_row(manager@, name@, version@, size@, use_status, inner_width as int),
{
    let (name_width, size_width) = columns::package_columns(inner_width);
    let label_width: usize = text::chars_of(manager).len();
    let room: usize = name_width.saturating_sub(label_width).saturating_sub(3);
    let whole = if version.is_empty() {
        name.to_owned()
    } else {
        text::join3(name, "@", version)
    };
    let mut line = screen::Line::new();
    add_use_mark(&mut line, use_status);
    line.add(
        text::join2(manager, " ").as_str(),
        screen::Style::colored(screen::Color::DarkGray),
    );
    let cut = screen::truncate(whole.as_str(), room);
    line.add(
        screen::pad_key(cut.as_str(), room).as_str(),
        screen::Style::colored(screen::Color::White),
    );
    add_size(&mut line, size, size_width);
    line
}

/// The row of a project.
pub open spec fn project_row(
    label: Seq<char>,
    size: Seq<char>,
    name_width: nat,
    size_width: nat,
) -> Seq<screen::SpanV> {
    with_size(
        screen::one(
            screen::padded_right(screen::truncated(label, name_width), name_width),
            screen::colored(screen::Color::White),
        ),
        size,
        size_width,
    )
}

pub fn package_line(label: &str, size: &str, name_width: usize, size_width: usize) -> (r:
    screen::Line)
    ensures
        r@ == project_row(label@, size@, name_width as nat, size_width as nat),
{
    let cut = screen::truncate(label, name_width);
    let mut line = screen::Line::of(
        screen::pad_key(cut.as_str(), name_width).as_str(),
        screen::Style::colored(screen::Color::White),
    );
    add_size(&mut line, size, size_width);
    line
}

/// The row of the pane for a place in the list.
pub open spec fn pane_row(v: pkgpane::PaneV, place: usize, inner_width: int) -> Seq<screen::SpanV> {
    match v.view {
        pkgpane::PkgView::SystemManagers => if place < v.flat.len() {
            let p = v.flat[place as int];
            package_row(
                p.manager.name(),
                p.package.name,
                p.package.version,
                match p.package.size {
                    Some(size) => sizes::human_text(size.allocated as nat),
                    None => "?"@,
                },
                match v.dep_graph {
                    Some(graph) => packages::status_in(graph, p.manager, p.package.name),
                    None => packages::PackageUseStatus::Untracked,
                },
                inner_width,
            )
        } else {
            screen::blank()
        },
        pkgpane::PkgView::ProjectDeps => if place < v.project_deps.len() {
            let p = v.project_deps[place as int];
            let (name_width, size_width) = columns::package_columns_of(inner_width);
            project_row(
                p.manager_label + " · "@ + text::decimal(p.dep_count as nat) + " deps · "@ + p.path,
                match p.deps_size {
                    Some(size) => sizes::human_text(size.allocated as nat),
                    None => "—"@,
                },
                name_width as nat,
                size_width as nat,
            )
        } else {
            screen::blank()
        },
    }
}

fn draw_pane_row(pane: &pkgpane::PackagePane, place: usize, inner_width: u16) -> (r: screen::Line)
    ensures
        r@ == pane_row(pane@, place, inner_width as int),
{
    match pane.view {
        pkgpane::PkgView::SystemManagers => {
            if place >= pane.flat.len() {
                return screen::Line::new();
            }
            let p = &pane.flat[place];
            assert(pane@.flat[place as int] == p@);
            let size = match p.package.size {
                Some(size) => sizes::human(size.allocated),
                None => "?".to_owned(),
            };
            let status = match &pane.dep_graph {
                Some(graph) => graph.use_status(p.manager, p.package.name.as_str()),
                None => packages::PackageUseStatus::Untracked,
            };
            package_line_with_version(
                p.manager.label(),
                p.package.name.as_str(),
                p.package.version.as_str(),
                size.as_str(),
                status,
                inner_width,
            )
        },
        pkgpane::PkgView::ProjectDeps => {
            if place >= pane.project_deps.len() {
                return screen::Line::new();
            }
            let p = &pane.project_deps[place];
            assert(pane@.project_deps[place as int] == p@);
            let size = match p.deps_size {
                Some(size) => sizes::human(size.allocated),
                None => "—".to_owned(),
            };
            let (name_width, size_width) = columns::package_columns(inner_width);
            let label = text::join5(
                p.manager_label.as_str(),
                " · ",
                text::decimal_text(p.dep_count as u64).as_str(),
                " deps · ",
                p.path.as_str(),
            );
            package_line(label.as_str(), size.as_str(), name_width, size_width)
        },
    }
}

/// The pane of the packages: a few lines in the middle, or rows.
#[derive(Debug)]
pub struct PackagesView {
    pub title: screen::Line,
    pub border: screen::Color,
    pub notes: screen::Lines,
    pub rows: screen::Lines,
    pub selected: usize,
}

#[verifier::ext_equal]
pub struct PackagesViewV {
    pub title: Seq<screen::SpanV>,
    pub border: screen::Color,
    pub notes: Seq<Seq<screen::SpanV>>,
    pub rows: Seq<Seq<screen::SpanV>>,
    pub selected: nat,
}

impl View for PackagesView {
    type V = PackagesViewV;

    open spec fn view(&self) -> PackagesViewV {
        PackagesViewV {
            title: self.title@,
            border: self.border,
            notes: self.notes@,
            rows: self.rows@,
            selected: self.selected as nat,
        }
    }
}

/// The room that the list takes, as the title says it.
pub open spec fn room_text(v: pkgpane::PaneV) -> Seq<char> {
    let room = match v.view {
        pkgpane::PkgView::SystemManagers => bulkstat::capped(
            pkgpane::managers_room(v.reports) as int,
        ),
        pkgpane::PkgView::ProjectDeps => bulkstat::capped(
            pkgpane::projects_room(v.project_deps) as int,
        ),
    };
    if v.loaded && room > 0 {
        " · "@ + sizes::human_text(room as nat)
    } else {
        Seq::empty()
    }
}

/// The title of the pane: the two views, the room, and the filter.
pub open spec fn packages_title(v: pkgpane::PaneV) -> Seq<screen::SpanV> {
    let system = v.view == pkgpane::PkgView::SystemManagers;
    let on = screen::bold(screen::Color::Yellow);
    let off = screen::colored(screen::Color::DarkGray);
    screen::blank().push(screen::span(" packages ─"@, screen::plain())).push(
        if system {
            screen::span("[ System ]"@, on)
        } else {
            screen::span(" System "@, off)
        },
    ).push(screen::span("─"@, screen::plain())).push(
        if system {
            screen::span(" Projects "@, off)
        } else {
            screen::span("[ Projects ]"@, on)
        },
    ).push(screen::span(room_text(v), screen::colored(screen::Color::Green))).push(
        if v.show_unused {
            screen::span(" [dependency leaves]"@, screen::colored(screen::Color::Magenta))
        } else {
            screen::span(Seq::empty(), screen::plain())
        },
    )
}

fn draw_packages_title(pane: &pkgpane::PackagePane) -> (r: screen::Line)
    ensures
        r@ == packages_title(pane@),
{
    let system = pane.view == pkgpane::PkgView::SystemManagers;
    let on = screen::Style::bold(screen::Color::Yellow);
    let off = screen::Style::colored(screen::Color::DarkGray);
    let room: u64 = match pane.view {
        pkgpane::PkgView::SystemManagers => pane.total_pkg_size(),
        pkgpane::PkgView::ProjectDeps => pane.total_project_deps_size(),
    };
    let room_note = if pane.loaded && room > 0 {
        text::join2(" · ", sizes::human(room).as_str())
    } else {
        String::new()
    };
    let mut line = screen::Line::new();
    line.add(" packages ─", screen::Style::plain());
    if system {
        line.add("[ System ]", on);
    } else {
        line.add(" System ", off);
    }
    line.add("─", screen::Style::plain());
    if system {
        line.add(" Projects ", off);
    } else {
        line.add("[ Projects ]", on);
    }
    line.add(room_note.as_str(), screen::Style::colored(screen::Color::Green));
    if pane.show_unused {
        line.add(" [dependency leaves]", screen::Style::colored(screen::Color::Magenta));
    } else {
        let none = String::new();
        line.add(none.as_str(), screen::Style::plain());
    }
    line
}

/// What the pane says while it has no rows. The place of the full dot in the
/// bar of activity is given.
pub open spec fn packages_notes(
    v: pkgpane::PaneV,
    width: int,
    height: int,
    ms: u64,
    active: nat,
) -> Seq<Seq<screen::SpanV>> {
    let cyan = screen::colored(screen::Color::Cyan);
    let white = screen::colored(screen::Color::White);
    let dim = screen::colored(screen::Color::DarkGray);
    let none = screen::no_lines();
    if !v.loaded && v.loading {
        if statusview::less(height, 2) >= 6 {
            none.push(
                screen::two(
                    columns::big_spinner(ms) + " "@,
                    cyan,
                    "scanning package data…"@,
                    white,
                ),
            ).push(
                screen::one(
                    "  "@ + columns::dots(
                        columns::activity_dots(statusview::less(width, 2) as int) as nat,
                        active,
                    ) + "  "@,
                    dim,
                ),
            ).push(screen::one("checking package managers and project dependencies"@, dim))
        } else {
            none.push(screen::two(columns::spinner(ms) + " "@, cyan, "scanning…"@, white))
        }
    } else if !v.loaded {
        none.push(screen::one("press p to scan packages"@, screen::plain()))
    } else if v.rows().len() == 0 {
        none.push(
            screen::one(
                if !v.search_mode && v.is_searched() {
                    "no matching packages"@
                } else if v.view == pkgpane::PkgView::SystemManagers {
                    "no supported packages found"@
                } else {
                    "no project manifests found"@
                },
                screen::plain(),
            ),
        )
    } else {
        none
    }
}

fn draw_notes(pane: &pkgpane::PackagePane, width: u16, height: u16, ms: u64, active: usize) -> (r:
    screen::Lines)
    ensures
        r@ == packages_notes(pane@, width as int, height as int, ms, active as nat),
{
    let cyan = screen::Style::colored(screen::Color::Cyan);
    let white = screen::Style::colored(screen::Color::White);
    let dim = screen::Style::colored(screen::Color::DarkGray);
    let mut lines = screen::Lines::new();
    if !pane.loaded && pane.loading {
        if height.saturating_sub(2) >= 6 {
            lines.pair(
                text::join2(columns::big_spinner_char(ms), " ").as_str(),
                cyan,
                "scanning package data…",
                white,
            );
            let dots: usize = columns::activity_width(width.saturating_sub(2) as usize);
            lines.say(columns::activity_bar(dots, active).as_str(), dim);
            lines.say("checking package managers and project dependencies", dim);
        } else {
            lines.pair(
                text::join2(columns::spinner_char(ms), " ").as_str(),
                cyan,
                "scanning…",
                white,
            );
        }
    } else if !pane.loaded {
        lines.say("press p to scan packages", screen::Style::plain());
    } else if pane.pkg_item_count() == 0 {
        let message = if pane.pkg_filter_active() {
            "no matching packages"
        } else if pane.view == pkgpane::PkgView::SystemManagers {
            "no supported packages found"
        } else {
            "no project manifests found"
        };
        lines.say(message, screen::Style::plain());
    }
    lines
}

pub open spec fn packages_rows(v: pkgpane::PaneV, width: int) -> Seq<Seq<screen::SpanV>> {
    if v.loaded {
        Seq::new(
            v.rows().len(),
            |i: int| pane_row(v, v.rows()[i], statusview::less(width, 2) as int),
        )
    } else {
        screen::no_lines()
    }
}

/// The pane of the packages in an area.
pub open spec fn packages_view(
    v: app::AppV,
    width: int,
    height: int,
    ms: u64,
    active: nat,
) -> PackagesViewV {
    PackagesViewV {
        title: packages_title(v.pkgs),
        border: filesview::border_of(v.focus == keymap::Focus::Packages),
        notes: packages_notes(v.pkgs, width, height, ms, active),
        rows: packages_rows(v.pkgs, width),
        selected: outbox::clamped(v.pkgs.selected, v.pkgs.rows().len()),
    }
}

fn draw_rows(pane: &pkgpane::PackagePane, width: u16) -> (r: screen::Lines)
    ensures
        r@ == packages_rows(pane@, width as int),
{
    let mut rows = screen::Lines::new();
    if !pane.loaded {
        return rows;
    }
    let places = pane.pkg_visible_indices();
    let inner: u16 = width.saturating_sub(2);
    let ghost wanted = packages_rows(pane@, width as int);
    let mut i: usize = 0;
    assert(wanted.take(0) =~= screen::no_lines());
    while i < places.len()
        invariant
            i <= places@.len(),
            places@ == pane@.rows(),
            pane@.loaded,
            inner == statusview::less(width as int, 2),
            wanted == packages_rows(pane@, width as int),
            rows@ == wanted.take(i as int),
        decreases places@.len() - i,
    {
        let line = draw_pane_row(pane, places[i], inner);
        assert(line@ == wanted[i as int]);
        rows.add(line);
        assert(wanted.take(i + 1) =~= wanted.take(i as int).push(wanted[i as int]));
        i += 1;
    }
    assert(wanted.take(wanted.len() as int) =~= wanted);
    rows
}

/// Draws the pane of the packages.
pub fn draw_packages(state: &app::App, width: u16, height: u16, ms: u64, active: usize) -> (r:
    PackagesView)
    ensures
        r@ == packages_view(state@, width as int, height as int, ms, active as nat),
{
    let title = draw_packages_title(&state.pkgs);
    let border = filesview::border_color(state.focus == keymap::Focus::Packages);
    let notes = draw_notes(&state.pkgs, width, height, ms, active);
    let rows = draw_rows(&state.pkgs, width);
    let count: usize = state.pkgs.pkg_item_count();
    let selected: usize = outbox::clamp(state.pkgs.selected, count);
    PackagesView { title, border, notes, rows, selected }
}

} // verus!
