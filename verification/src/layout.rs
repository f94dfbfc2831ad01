//! Where things are drawn: areas, columns, and the rows that are shown.

use crate::keymap;
use crate::screen;
use ratatui_core::layout::{Constraint, Direction, Layout, Rect};
use vstd::prelude::*;

verus! {

// ---------------------------------------------------------------------------
// Areas
// ---------------------------------------------------------------------------

/// How much of an area a part takes.
#[derive(Clone, Copy, Debug, PartialEq, Eq, Structural)]
pub enum Part {
    Length(u16),
    AtLeast(u16),
    Percent(u16),
}

/// Where an area begins along a direction.
pub open spec fn start_of(area: screen::Area, vertical: bool) -> int {
    if vertical {
        area.y as int
    } else {
        area.x as int
    }
}

/// How far an area reaches along a direction.
pub open spec fn extent_of(area: screen::Area, vertical: bool) -> int {
    if vertical {
        area.height as int
    } else {
        area.width as int
    }
}

/// Where an area ends along a direction.
pub open spec fn end_of(area: screen::Area, vertical: bool) -> int {
    start_of(area, vertical) + extent_of(area, vertical)
}

/// The least that some parts take together, percentages aside.
pub open spec fn wanted(parts: Seq<Part>) -> int
    decreases parts.len(),
{
    if parts.len() == 0 {
        0
    } else {
        wanted(parts.drop_last()) + match parts.last() {
            Part::Length(n) => n as int,
            Part::AtLeast(n) => n as int,
            Part::Percent(_) => 0,
        }
    }
}

/// There is room for all parts, and none is a percentage.
pub open spec fn fit(parts: Seq<Part>, extent: int) -> bool {
    &&& wanted(parts) <= extent <= 0x7fff
    &&& forall|i: int| 0 <= i < parts.len() ==> !(#[trigger] parts[i] is Percent)
}

/// The part has what was asked for it.
pub open spec fn met(part: Part, extent: int) -> bool {
    match part {
        Part::Length(n) => extent == n,
        Part::AtLeast(n) => extent >= n,
        Part::Percent(_) => true,
    }
}

/// The areas follow one another from the start of the whole.
pub open spec fn follow(areas: Seq<screen::Area>, whole: screen::Area, vertical: bool) -> bool {
    &&& areas.len() > 0 ==> start_of(areas[0], vertical) == start_of(whole, vertical)
    &&& forall|i: int|
        0 < i < areas.len() ==> start_of(#[trigger] areas[i], vertical) == end_of(
            areas[i - 1],
            vertical,
        )
}

/// The two parts share the whole: their percentages make up a hundred.
pub open spec fn shared(parts: Seq<Part>) -> bool {
    parts.len() == 2 && match (parts[0], parts[1]) {
        (Part::Percent(p), Part::Percent(q)) => p + q == 100,
        _ => false,
    }
}

/// A percentage of an extent, to the nearest whole; a half counts as one.
pub open spec fn share(extent: int, percent: int) -> int {
    (extent * percent + 50) / 100
}

/// `ratatui_core::layout::Layout::split`: parts of an area that ends within the
/// coordinates, side by side or one above the other. There are as many as were
/// asked for. Each keeps the extent of the area across the direction of the
/// split and lies within it along that direction. Where there is room for
/// lengths and minima, all are met, the parts follow one another from the start,
/// and reach to the end if one of them may grow. Two percentages that make up
/// a hundred are met as well, up to rounding, and fill the area. Nothing is stated
/// of other percentages, nor of the case that not all can be met: the solver weighs
/// the wishes then, and walks hash maps while it does.
#[verifier::external_body]
fn split_area(vertical: bool, parts: &Vec<Part>, area: screen::Area) -> (r: Vec<screen::Area>)
    requires
        end_of(area, true) <= u16::MAX,
        end_of(area, false) <= u16::MAX,
    ensures
        r@.len() == parts@.len(),
        forall|i: int|
            0 <= i < r@.len() ==> start_of(#[trigger] r@[i], !vertical) == start_of(area, !vertical)
                && extent_of(r@[i], !vertical) == extent_of(area, !vertical),
        forall|i: int|
            0 <= i < r@.len() ==> start_of(area, vertical) <= start_of(#[trigger] r@[i], vertical)
                && end_of(r@[i], vertical) <= end_of(area, vertical),
        fit(parts@, extent_of(area, vertical)) ==> follow(r@, area, vertical) && forall|i: int|
            0 <= i < r@.len() ==> met(parts@[i], extent_of(#[trigger] r@[i], vertical)),
        fit(parts@, extent_of(area, vertical)) && (exists|i: int|
            0 <= i < parts@.len() && (#[trigger] parts@[i]) is AtLeast) ==> end_of(
            r@[r@.len() - 1],
            vertical,
        ) == end_of(area, vertical),
        shared(parts@) ==> follow(r@, area, vertical) && extent_of(r@[0], vertical) == share(
            extent_of(area, vertical),
            parts@[0]->Percent_0 as int,
        ) && end_of(r@[1], vertical) == end_of(area, vertical),
{
    let direction = if vertical { Direction::Vertical } else { Direction::Horizontal };
    let wishes = parts.iter().map(|part| match part {
        Part::Length(n) => Constraint::Length(*n),
        Part::AtLeast(n) => Constraint::Min(*n),
        Part::Percent(n) => Constraint::Percentage(*n),
    });
    let whole = Rect { x: area.x, y: area.y, width: area.width, height: area.height };
    let layout = Layout::default().direction(direction).constraints(wishes);
    let back = |r: &Rect| screen::Area { x: r.x, y: r.y, width: r.width, height: r.height };
    layout.split(whole).iter().map(back).collect()
}

/// The area ends within the coordinates.
pub open spec fn on_screen(area: screen::Area) -> bool {
    end_of(area, true) <= u16::MAX && end_of(area, false) <= u16::MAX
}

/// The area lies within another.
pub open spec fn lies_in(area: screen::Area, whole: screen::Area) -> bool {
    &&& whole.x <= area.x && area.x + area.width <= whole.x + whole.width
    &&& whole.y <= area.y && area.y + area.height <= whole.y + whole.height
}

/// Two parts of an area.
pub open spec fn in_two(
    vertical: bool,
    first: Part,
    second: Part,
    area: screen::Area,
    r: (screen::Area, screen::Area),
) -> bool {
    &&& lies_in(r.0, area) && lies_in(r.1, area)
    &&& extent_of(r.0, !vertical) == extent_of(area, !vertical)
    &&& extent_of(r.1, !vertical) == extent_of(area, !vertical)
    &&& fit(seq![first, second], extent_of(area, vertical)) ==> {
        &&& start_of(r.0, vertical) == start_of(area, vertical)
        &&& start_of(r.1, vertical) == end_of(r.0, vertical)
        &&& met(first, extent_of(r.0, vertical)) && met(second, extent_of(r.1, vertical))
        &&& first is AtLeast || second is AtLeast ==> end_of(r.1, vertical) == end_of(
            area,
            vertical,
        )
    }
    &&& shared(seq![first, second]) ==> {
        &&& start_of(r.0, vertical) == start_of(area, vertical)
        &&& extent_of(r.0, vertical) == share(extent_of(area, vertical), first->Percent_0 as int)
        &&& start_of(r.1, vertical) == end_of(r.0, vertical)
        &&& end_of(r.1, vertical) == end_of(area, vertical)
    }
}

fn split_in_two(vertical: bool, first: Part, second: Part, area: screen::Area) -> (r: (
    screen::Area,
    screen::Area,
))
    requires
        on_screen(area),
    ensures
        in_two(vertical, first, second, area, r),
{
    let mut parts: Vec<Part> = Vec::new();
    parts.push(first);
    parts.push(second);
    let areas = split_area(vertical, &parts, area);
    assert(parts@ =~= seq![first, second]);
    assert(parts@[0] == first && parts@[1] == second);
    assert(areas@[0] == areas[0] && areas@[1] == areas[1]);
    assert(start_of(areas@[1], vertical) == start_of(areas@[1], vertical));
    (areas[0], areas[1])
}

/// Two parts of an area, one above the other.
pub fn split_rows(first: Part, second: Part, area: screen::Area) -> (r: (screen::Area, screen::Area))
    requires
        on_screen(area),
    ensures
        in_two(true, first, second, area, r),
{
    split_in_two(true, first, second, area)
}

/// Two parts of an area, side by side.
pub fn split_columns(first: Part, second: Part, area: screen::Area) -> (r: (
    screen::Area,
    screen::Area,
))
    requires
        on_screen(area),
    ensures
        in_two(false, first, second, area, r),
{
    split_in_two(false, first, second, area)
}

proof fn wanted_by_two(first: Part, second: Part)
    requires
        !(first is Percent) && !(second is Percent),
    ensures
        wanted(seq![first, second]) == match first {
            Part::Length(n) => n as int,
            Part::AtLeast(n) => n as int,
            Part::Percent(_) => 0,
        } + match second {
            Part::Length(n) => n as int,
            Part::AtLeast(n) => n as int,
            Part::Percent(_) => 0,
        },
{
    let both = seq![first, second];
    assert(both.drop_last() =~= seq![first]);
    assert(seq![first].drop_last() =~= Seq::<Part>::empty());
    assert(wanted(Seq::<Part>::empty()) == 0);
    assert(wanted(seq![first]) == wanted(seq![first].drop_last()) + match first {
        Part::Length(n) => n as int,
        Part::AtLeast(n) => n as int,
        Part::Percent(_) => 0,
    });
}

/// A part that grows, with rows of a fixed height below it.
pub open spec fn with_footer(
    least: int,
    footer: int,
    area: screen::Area,
    r: (screen::Area, screen::Area),
) -> bool {
    &&& lies_in(r.0, area) && lies_in(r.1, area)
    &&& r.0.width == area.width && r.1.width == area.width
    &&& least + footer <= area.height <= 0x7fff ==> {
        &&& r.0.y == area.y && r.0.height == area.height - footer
        &&& r.1.y == area.y + area.height - footer && r.1.height == footer
    }
}

fn split_footer(least: u16, footer: u16, area: screen::Area) -> (r: (screen::Area, screen::Area))
    requires
        on_screen(area),
    ensures
        with_footer(least as int, footer as int, area, r),
{
    proof {
        wanted_by_two(Part::AtLeast(least), Part::Length(footer));
        let both = seq![Part::AtLeast(least), Part::Length(footer)];
        assert(forall|i: int| 0 <= i < both.len() ==> !(#[trigger] both[i] is Percent));
    }
    split_rows(Part::AtLeast(least), Part::Length(footer), area)
}

/// The list of findings and the details below it.
pub fn reclaim_panel_layout(area: screen::Area) -> (r: (screen::Area, screen::Area))
    requires
        on_screen(area),
    ensures
        with_footer(7, 9, area, r),
{
    split_footer(7, 9, area)
}

/// The list of a dialog and the hints below it, inside its border: nothing where
/// there is no inside.
pub fn modal_list_regions(area: screen::Area) -> (r: Option<(screen::Area, screen::Area)>)
    requires
        on_screen(area),
    ensures
        match r {
            Some(regions) => exists|inner: screen::Area|
                #![trigger is_inside(inner, area)]
                is_inside(inner, area) && inner.width > 0 && inner.height > 0 && with_footer(
                    1,
                    2,
                    inner,
                    regions,
                ),
            None => area.width <= 2 || area.height <= 2,
        },
        r is Some ==> area.width > 2 && area.height > 2,
{
    let inner = inner_area(area);
    assert(is_inside(inner, area));
    if inner.height == 0 || inner.width == 0 {
        return None;
    }
    Some(split_footer(1, 2, inner))
}

/// The keys of the help and the legend below them, inside its border.
pub fn help_regions(area: screen::Area) -> (r: (screen::Area, screen::Area))
    requires
        on_screen(area),
    ensures
        exists|inner: screen::Area|
            #![trigger is_inside(inner, area)]
            is_inside(inner, area) && with_footer(1, 1, inner, r),
{
    let inner = inner_area(area);
    assert(is_inside(inner, area));
    split_footer(1, 1, inner)
}

/// Rows of one height, one for each of a number of things.
pub fn equal_rows(count: usize, height: u16, area: screen::Area) -> (r: Vec<screen::Area>)
    requires
        on_screen(area),
    ensures
        r@.len() == count,
        forall|i: int|
            0 <= i < r@.len() ==> lies_in(#[trigger] r@[i], area) && r@[i].width == area.width,
        count * height <= area.height <= 0x7fff ==> forall|i: int|
            0 <= i < r@.len() ==> (#[trigger] r@[i]).y == area.y + i * height && r@[i].height
                == height,
{
    let mut parts: Vec<Part> = Vec::new();
    while parts.len() < count
        invariant
            parts@.len() <= count,
            forall|i: int| 0 <= i < parts@.len() ==> #[trigger] parts@[i] == Part::Length(height),
        decreases count - parts@.len(),
    {
        parts.push(Part::Length(height));
    }
    let areas = split_area(true, &parts, area);
    proof {
        wanted_by_equals(parts@, height);
        if count * height <= area.height <= 0x7fff {
            assert forall|i: int| 0 <= i < areas@.len() implies (#[trigger] areas@[i]).y == area.y
                + i * height && areas@[i].height == height by {
                rows_follow(parts@, height, areas@, area, i);
            }
        }
    }
    areas
}

proof fn wanted_by_equals(parts: Seq<Part>, height: u16)
    requires
        forall|i: int| 0 <= i < parts.len() ==> #[trigger] parts[i] == Part::Length(height),
    ensures
        wanted(parts) == parts.len() * height,
    decreases parts.len(),
{
    if parts.len() > 0 {
        let rest = parts.drop_last();
        assert forall|i: int| 0 <= i < rest.len() implies #[trigger] rest[i] == Part::Length(
            height,
        ) by {
            assert(rest[i] == parts[i]);
        }
        wanted_by_equals(rest, height);
        assert(parts.last() == Part::Length(height));
        assert((parts.len() - 1) * height + height == parts.len() * height) by (nonlinear_arith)
            requires
                parts.len() > 0,
        ;
    } else {
        assert(0 * height == 0) by (nonlinear_arith);
    }
}

proof fn rows_follow(
    parts: Seq<Part>,
    height: u16,
    areas: Seq<screen::Area>,
    area: screen::Area,
    i: int,
)
    requires
        0 <= i < areas.len(),
        areas.len() == parts.len(),
        follow(areas, area, true),
        forall|k: int| 0 <= k < parts.len() ==> #[trigger] parts[k] == Part::Length(height),
        forall|k: int| 0 <= k < areas.len() ==> met(parts[k], extent_of(#[trigger] areas[k], true)),
    ensures
        areas[i].y == area.y + i * height,
        areas[i].height == height,
    decreases i,
{
    assert(parts[i] == Part::Length(height));
    assert(met(parts[i], extent_of(areas[i], true)));
    if i > 0 {
        rows_follow(parts, height, areas, area, i - 1);
        assert(start_of(areas[i], true) == end_of(areas[i - 1], true));
        assert((i - 1) * height + height == i * height) by (nonlinear_arith);
    } else {
        assert(0 * height == 0) by (nonlinear_arith);
    }
}

/// The panes of the screen.
#[derive(Clone, Copy, Debug, PartialEq, Eq, Structural)]
pub struct Panes {
    pub header: screen::Area,
    pub files: screen::Area,
    pub disks: screen::Area,
    pub packages: screen::Area,
    pub status: screen::Area,
    pub help: screen::Area,
}

/// The share of the files in the width, in percent: less where the disks or the
/// packages are looked at.
pub open spec fn files_percent(focus: keymap::Focus, packages_visible: bool) -> int {
    if focus == keymap::Focus::Disks || packages_visible {
        62
    } else {
        74
    }
}

/// Lays the panes out: a header, the body, a status line and a line of hints;
/// the disks and packages stand beside the files, narrow unless they are looked
/// at.
pub fn lay_out(
    area: screen::Area,
    focus: keymap::Focus,
    packages_visible: bool,
    disk_count: usize,
) -> (r: Panes)
    requires
        on_screen(area),
    ensures
        r.header.x == area.x && r.header.width == area.width,
        r.status.x == area.x && r.status.width == area.width,
        r.help.x == area.x && r.help.width == area.width,
        ({
            let width = share(area.width as int, files_percent(focus, packages_visible));
            &&& r.files.x == area.x && r.files.width == width
            &&& r.disks.x == area.x + width && r.disks.width == area.width - width
            &&& r.packages.x == r.disks.x && r.packages.width == r.disks.width
        }),
        lies_in(r.header, area) && lies_in(r.files, area) && lies_in(r.disks, area) && lies_in(
            r.packages,
            area,
        ) && lies_in(r.status, area) && lies_in(r.help, area),
        8 <= area.height <= 0x7fff ==> {
            let body = area.height - 3;
            let (disk_height, package_height) = side_heights(
                body,
                disk_count as int,
                packages_visible,
            );
            &&& r.header.y == area.y && r.header.height == 1
            &&& r.files.y == area.y + 1 && r.files.height == body
            &&& r.disks.y == area.y + 1 && r.disks.height == disk_height
            &&& r.packages.y == area.y + 1 + disk_height && r.packages.height == package_height
            &&& r.status.y == area.y + 1 + body && r.status.height == 1
            &&& r.help.y == area.y + 2 + body && r.help.height == 1
        },
{
    let mut parts: Vec<Part> = Vec::new();
    parts.push(Part::Length(1));
    parts.push(Part::AtLeast(5));
    parts.push(Part::Length(1));
    parts.push(Part::Length(1));
    proof {
        reveal_with_fuel(wanted, 5);
        assert(parts@.drop_last() =~= seq![Part::Length(1), Part::AtLeast(5), Part::Length(1)]);
        assert(parts@.drop_last().drop_last() =~= seq![Part::Length(1), Part::AtLeast(5)]);
        assert(parts@.drop_last().drop_last().drop_last() =~= seq![Part::Length(1)]);
        assert(parts@.drop_last().drop_last().drop_last().drop_last() =~= Seq::<Part>::empty());
        assert(wanted(parts@) == 8);
        assert(parts@[1] is AtLeast);
    }
    let rows = split_area(true, &parts, area);
    proof {
        if 8 <= area.height <= 0x7fff {
            assert(fit(parts@, area.height as int));
            assert(follow(rows@, area, true));
            assert(met(parts@[0], extent_of(rows@[0], true)));
            assert(met(parts@[1], extent_of(rows@[1], true)));
            assert(met(parts@[2], extent_of(rows@[2], true)));
            assert(met(parts@[3], extent_of(rows@[3], true)));
            assert(start_of(rows@[1], true) == end_of(rows@[0], true));
            assert(start_of(rows@[2], true) == end_of(rows@[1], true));
            assert(start_of(rows@[3], true) == end_of(rows@[2], true));
        }
        assert(lies_in(rows@[0], area) && lies_in(rows@[1], area) && lies_in(rows@[2], area)
            && lies_in(rows@[3], area));
    }
    let expanded = focus == keymap::Focus::Disks || packages_visible;
    let (files_share, side_share): (u16, u16) = if expanded {
        (62, 38)
    } else {
        (74, 26)
    };
    let (files, side) = split_columns(
        Part::Percent(files_share),
        Part::Percent(side_share),
        rows[1],
    );
    let (disk_height, package_height) = side_panel_heights(
        side.height,
        disk_count,
        packages_visible,
    );
    proof {
        wanted_by_two(Part::Length(disk_height), Part::Length(package_height));
        let both = seq![Part::Length(disk_height), Part::Length(package_height)];
        assert(forall|i: int| 0 <= i < both.len() ==> !(#[trigger] both[i] is Percent));
    }
    let (disks, packages) = split_rows(
        Part::Length(disk_height),
        Part::Length(package_height),
        side,
    );
    Panes { header: rows[0], files, disks, packages, status: rows[2], help: rows[3] }
}

/// How high the disks and the packages are in the side column.
pub open spec fn side_heights(side: int, disk_count: int, packages_visible: bool) -> (int, int) {
    if side <= 8 {
        if side == 0 {
            (0, 0)
        } else if !packages_visible {
            (side, 0)
        } else {
            let packages = if side <= 4 {
                1
            } else {
                side - 3
            };
            (side - packages, packages)
        }
    } else {
        let wanted = if disk_count % 65536 == 0 {
            3
        } else {
            4 * (disk_count % 65536) + 2
        };
        let reserved = if packages_visible && side >= 13 {
            7
        } else if packages_visible {
            side - 6
        } else if side >= 11 {
            5
        } else {
            side - 6
        };
        let disks = if wanted < side - reserved {
            wanted
        } else {
            side - reserved
        };
        (disks, side - disks)
    }
}

pub fn side_panel_heights(side_height: u16, disk_count: usize, packages_visible: bool) -> (r: (
    u16,
    u16,
))
    ensures
        (r.0 as int, r.1 as int) == side_heights(
            side_height as int,
            disk_count as int,
            packages_visible,
        ),
        r.0 + r.1 == side_height,
        packages_visible && side_height > 0 ==> r.1 > 0,
{
    if side_height == 0 {
        return (0, 0);
    }
    if side_height <= 8 {
        if !packages_visible {
            return (side_height, 0);
        }
        let package_height: u16 = if side_height <= 4 {
            1
        } else {
            side_height - 3
        };
        return (side_height - package_height, package_height);
    }
    let count: usize = disk_count % 65536;
    let wanted: u32 = if count == 0 {
        3
    } else {
        4 * (count as u32) + 2
    };
    let least: u16 = if packages_visible {
        7
    } else {
        5
    };
    let reserved: u16 = if least < side_height - 6 {
        least
    } else {
        side_height - 6
    };
    let most: u16 = side_height - reserved;
    let disks: u16 = if wanted < most as u32 {
        wanted as u16
    } else {
        most
    };
    (disks, side_height - disks)
}

/// The least of a share of an extent that is not under a minimum, within the
/// extent.
pub open spec fn centered_extent(extent: int, percent: int, least: int) -> int {
    let share = (if extent * percent > 65535 {
        65535
    } else {
        extent * percent
    }) / 100;
    let wanted = if share < least {
        least
    } else {
        share
    };
    if wanted < extent {
        wanted
    } else {
        extent
    }
}

/// An area in the middle of another.
pub open spec fn centered(
    px: int,
    py: int,
    min_width: int,
    min_height: int,
    area: screen::Area,
) -> (int, int, int, int) {
    let width = centered_extent(area.width as int, px, min_width);
    let height = centered_extent(area.height as int, py, min_height);
    (
        area.x + (area.width - width) / 2,
        area.y + (area.height - height) / 2,
        width,
        height,
    )
}

fn center(extent: u16, percent: u16, least: u16) -> (r: u16)
    ensures
        r == centered_extent(extent as int, percent as int, least as int),
        r <= extent,
{
    assert(extent * percent <= 0xffff * 0xffff) by (nonlinear_arith)
        requires
            extent <= 0xffff,
            percent <= 0xffff,
    ;
    let product: u32 = extent as u32 * percent as u32;
    let share: u16 = (if product > 65535 {
        65535
    } else {
        product as u16
    }) / 100;
    let wanted: u16 = if share < least {
        least
    } else {
        share
    };
    if wanted < extent {
        wanted
    } else {
        extent
    }
}

/// The middle of an area, for something that is drawn on top.
pub fn centered_rect(px: u16, py: u16, min_width: u16, min_height: u16, area: screen::Area) -> (r:
    screen::Area)
    requires
        area.x + area.width <= u16::MAX,
        area.y + area.height <= u16::MAX,
    ensures
        (r.x as int, r.y as int, r.width as int, r.height as int) == centered(
            px as int,
            py as int,
            min_width as int,
            min_height as int,
            area,
        ),
{
    let width: u16 = center(area.width, px, min_width);
    let height: u16 = center(area.height, py, min_height);
    screen::Area {
        x: area.x + (area.width - width) / 2,
        y: area.y + (area.height - height) / 2,
        width,
        height,
    }
}

/// What is drawn in the middle lies within the area.
pub proof fn centered_areas_lie_within(
    px: int,
    py: int,
    min_width: int,
    min_height: int,
    area: screen::Area,
)
    requires
        0 <= px,
        0 <= py,
        0 <= min_width,
        0 <= min_height,
    ensures
        ({
            let (x, y, width, height) = centered(px, py, min_width, min_height, area);
            &&& area.x <= x && x + width <= area.x + area.width
            &&& area.y <= y && y + height <= area.y + area.height
        }),
{
    assert(0 <= area.width * px) by (nonlinear_arith)
        requires
            0 <= px,
            0 <= area.width,
    ;
    assert(0 <= area.height * py) by (nonlinear_arith)
        requires
            0 <= py,
            0 <= area.height,
    ;
}

/// The inside of a stretch with a border at each end.
pub open spec fn inside(start: int, extent: int) -> (int, int) {
    (
        if extent == 0 {
            start
        } else {
            start + 1
        },
        if extent < 2 {
            0
        } else {
            extent - 2
        },
    )
}

/// The area is the inside of one with a border.
pub open spec fn is_inside(inner: screen::Area, area: screen::Area) -> bool {
    &&& (inner.x as int, inner.width as int) == inside(area.x as int, area.width as int)
    &&& (inner.y as int, inner.height as int) == inside(area.y as int, area.height as int)
}

/// The inside of an area with a border.
pub fn inner_area(area: screen::Area) -> (r: screen::Area)
    requires
        area.x + area.width <= u16::MAX,
        area.y + area.height <= u16::MAX,
    ensures
        is_inside(r, area),
{
    screen::Area {
        x: if area.width == 0 {
            area.x
        } else {
            area.x + 1
        },
        y: if area.height == 0 {
            area.y
        } else {
            area.y + 1
        },
        width: area.width.saturating_sub(2),
        height: area.height.saturating_sub(2),
    }
}

} // verus!
