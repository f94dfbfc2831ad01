//! Columns, bars and the short texts in them.

use crate::bulkstat;
use crate::entries;
use crate::labels;
use crate::modals;
use crate::packages;
use crate::paths;
use crate::reclaim;
use crate::screen;
use crate::sizes;
use crate::text;
use vstd::prelude::*;

verus! {

// ---------------------------------------------------------------------------
// Columns
// ---------------------------------------------------------------------------

/// The widths of the columns of the files: name, size, time and bar. Two
/// columns are for the icon, and two between columns. Columns that do not fit
/// are left out, the bar first.
pub open spec fn columns_of(width: int, show_modified: bool) -> (int, int, int, int) {
    let room = if width < 2 {
        0
    } else {
        width - 2
    };
    let alone = if room < 1 {
        1
    } else {
        room
    };
    if !show_modified {
        if room < 12 {
            (alone, 0, 0, 0)
        } else if width >= 55 {
            (room - 26, 12, 0, 10)
        } else {
            let size = if room < 20 {
                room - 8
            } else {
                12
            };
            (room - 2 - size, size, 0, 0)
        }
    } else {
        if room < 14 {
            (alone, 0, 0, 0)
        } else if width >= 55 {
            (room - 36, 12, 8, 10)
        } else if width >= 50 {
            (room - 24, 12, 8, 0)
        } else {
            let modified = if room < 18 {
                room - 10
            } else {
                8
            };
            (room - 2 - modified, 0, modified, 0)
        }
    }
}

pub fn file_columns(inner_width: u16, show_modified: bool) -> (r: (usize, usize, usize, usize))
    ensures
        (r.0 as int, r.1 as int, r.2 as int, r.3 as int) == columns_of(
            inner_width as int,
            show_modified,
        ),
{
    let width: usize = inner_width as usize;
    let room: usize = width.saturating_sub(2);
    let alone: usize = if room < 1 {
        1
    } else {
        room
    };
    if !show_modified {
        if room < 12 {
            (alone, 0, 0, 0)
        } else if width >= 55 {
            (room - 26, 12, 0, 10)
        } else {
            let size: usize = if room < 20 {
                room - 8
            } else {
                12
            };
            (room - 2 - size, size, 0, 0)
        }
    } else {
        if room < 14 {
            (alone, 0, 0, 0)
        } else if width >= 55 {
            (room - 36, 12, 8, 10)
        } else if width >= 50 {
            (room - 24, 12, 8, 0)
        } else {
            let modified: usize = if room < 18 {
                room - 10
            } else {
                8
            };
            (room - 2 - modified, 0, modified, 0)
        }
    }
}

/// A column with the gap in front of it, if there is one.
pub open spec fn with_gap(width: int) -> int {
    if width == 0 {
        0
    } else {
        2 + width
    }
}

/// Icon, columns and gaps fill the pane, from three columns on; and a name is
/// never left out.
pub proof fn columns_fill_the_pane(width: int, show_modified: bool)
    requires
        width >= 3,
    ensures
        ({
            let (name, size, modified, bar) = columns_of(width, show_modified);
            &&& name >= 1
            &&& 2 + name + with_gap(size) + with_gap(modified) + with_gap(bar) == width
        }),
{
}

/// The widths of the columns of the packages: name and size.
pub open spec fn package_columns_of(width: int) -> (int, int) {
    if width < 16 {
        (
            if width < 1 {
                1
            } else {
                width
            },
            0,
        )
    } else if width < 21 {
        (10, width - 12)
    } else {
        (width - 11, 9)
    }
}

pub fn package_columns(inner_width: u16) -> (r: (usize, usize))
    ensures
        (r.0 as int, r.1 as int) == package_columns_of(inner_width as int),
{
    let width: usize = inner_width as usize;
    if width < 16 {
        let name: usize = if width < 1 {
            1
        } else {
            width
        };
        (name, 0)
    } else if width < 21 {
        (10, width - 12)
    } else {
        (width - 11, 9)
    }
}

/// Columns of the packages fill the pane too.
pub proof fn package_columns_fill_the_pane(width: int)
    requires
        width >= 1,
    ensures
        package_columns_of(width).0 + with_gap(package_columns_of(width).1) == width,
{
}

/// The disks that are shown, the selected one in the middle.
pub open spec fn disk_window(selected: int, count: int, max_rows: int) -> (int, int) {
    if count == 0 {
        (0, 0)
    } else {
        let rows = if max_rows < 1 {
            1
        } else {
            max_rows
        };
        let at = if selected < count {
            selected
        } else {
            count - 1
        };
        let last = if count < rows {
            0
        } else {
            count - rows
        };
        let wanted = if at < rows / 2 {
            0
        } else {
            at - rows / 2
        };
        let offset = if wanted < last {
            wanted
        } else {
            last
        };
        (
            offset,
            if offset + rows < count {
                offset + rows
            } else {
                count
            },
        )
    }
}

pub fn disk_window_bounds(selected: usize, total_items: usize, max_rows: usize) -> (r: (
    usize,
    usize,
))
    ensures
        (r.0 as int, r.1 as int) == disk_window(
            selected as int,
            total_items as int,
            max_rows as int,
        ),
        r.0 <= r.1 <= total_items,
{
    if total_items == 0 {
        return (0, 0);
    }
    let rows: usize = if max_rows < 1 {
        1
    } else {
        max_rows
    };
    let at: usize = if selected < total_items {
        selected
    } else {
        total_items - 1
    };
    let last: usize = total_items.saturating_sub(rows);
    let wanted: usize = at.saturating_sub(rows / 2);
    let offset: usize = if wanted < last {
        wanted
    } else {
        last
    };
    let end: usize = if rows < total_items - offset {
        offset + rows
    } else {
        total_items
    };
    (offset, end)
}

/// The selected disk is among those that are shown.
pub proof fn disk_window_shows_selection(selected: int, count: int, max_rows: int)
    requires
        0 <= selected < count,
        0 <= max_rows,
    ensures
        disk_window(selected, count, max_rows).0 <= selected < disk_window(
            selected,
            count,
            max_rows,
        ).1,
{
}

// ---------------------------------------------------------------------------
// Bars
// ---------------------------------------------------------------------------

/// A part of a whole in percent, to the nearest, and a hundred at most.
pub open spec fn nearest_percent(value: nat, total: nat) -> nat {
    if total == 0 {
        0
    } else {
        let n = bulkstat::capped(bulkstat::capped((value * 100) as int) + total / 2) as nat / total;
        if n < 100 {
            n
        } else {
            100
        }
    }
}

fn times(a: u64, b: u64) -> (r: u64)
    ensures
        r == bulkstat::capped(a * b),
{
    assert(a * b <= 0xffff_ffff_ffff_ffff * 0xffff_ffff_ffff_ffff) by (nonlinear_arith)
        requires
            a <= 0xffff_ffff_ffff_ffff,
            b <= 0xffff_ffff_ffff_ffff,
    ;
    let p: u128 = a as u128 * b as u128;
    if p > u64::MAX as u128 {
        u64::MAX
    } else {
        p as u64
    }
}

pub fn rounded_percent(value: u64, total: u64) -> (r: u64)
    ensures
        r == nearest_percent(value as nat, total as nat),
{
    if total == 0 {
        return 0;
    }
    let n: u64 = times(value, 100).saturating_add(total / 2) / total;
    if n < 100 {
        n
    } else {
        100
    }
}

#[verifier::ext_equal]
pub struct BarModel {
    pub bar: Seq<char>,
    pub percent: Seq<char>,
    pub style: screen::Style,
}

/// How many places of a bar are filled.
pub open spec fn filled_places(size: nat, max: nat, width: nat) -> nat {
    if size == 0 || max == 0 || width == 0 {
        0
    } else {
        let n = bulkstat::capped((size * width) as int) as nat / max;
        if n < 1 {
            1
        } else if n < width {
            n
        } else {
            width
        }
    }
}

/// The colour of a bar, by its share of the largest.
pub open spec fn bar_style(size: nat, max: nat) -> screen::Style {
    let percent = if size >= max {
        100
    } else {
        nearest_percent(size, max)
    };
    if percent >= 50 {
        screen::colored(screen::Color::Red)
    } else if percent >= 25 {
        screen::colored(screen::Color::Yellow)
    } else {
        screen::colored(screen::Color::White)
    }
}

/// A bar whose length is the share of the largest, with the share of the sum.
pub open spec fn size_bar(size: Option<u64>, max: nat, total: nat, width: nat) -> BarModel {
    if width == 0 {
        BarModel { bar: Seq::empty(), percent: Seq::empty(), style: screen::plain() }
    } else {
        match size {
            None => BarModel {
                bar: text::repeated(' ', width),
                percent: " --%"@,
                style: screen::colored(screen::Color::DarkGray),
            },
            Some(size) => if max == 0 {
                BarModel {
                    bar: text::repeated(' ', width),
                    percent: "  0%"@,
                    style: screen::colored(screen::Color::DarkGray),
                }
            } else {
                let filled = filled_places(size as nat, max, width);
                BarModel {
                    bar: text::repeated('█', filled) + text::repeated(
                        '░',
                        (width - filled) as nat,
                    ),
                    percent: screen::padded_left(
                        text::decimal(nearest_percent(size as nat, total)),
                        3,
                    ) + "%"@,
                    style: bar_style(size as nat, max),
                }
            },
        }
    }
}

fn places_filled(size: u64, max: u64, width: usize) -> (r: usize)
    ensures
        r == filled_places(size as nat, max as nat, width as nat),
        r <= width,
{
    if size == 0 || max == 0 || width == 0 {
        return 0;
    }
    let n: u64 = times(size, width as u64) / max;
    if n < 1 {
        1
    } else if n < width as u64 {
        n as usize
    } else {
        width
    }
}

fn style_of_bar(size: u64, max: u64) -> (r: screen::Style)
    ensures
        r == bar_style(size as nat, max as nat),
{
    let percent: u64 = if size >= max {
        100
    } else {
        rounded_percent(size, max)
    };
    if percent >= 50 {
        screen::Style::colored(screen::Color::Red)
    } else if percent >= 25 {
        screen::Style::colored(screen::Color::Yellow)
    } else {
        screen::Style::colored(screen::Color::White)
    }
}

pub fn file_size_bar(
    size: Option<u64>,
    max_visible_size: u64,
    total_visible_size: u64,
    bar_width: usize,
) -> (r: (String, String, screen::Style))
    ensures
        (BarModel { bar: r.0@, percent: r.1@, style: r.2 }) == size_bar(
            size,
            max_visible_size as nat,
            total_visible_size as nat,
            bar_width as nat,
        ),
{
    if bar_width == 0 {
        return (String::new(), String::new(), screen::Style::plain());
    }
    match size {
        None => (
            text::repeat_char(' ', bar_width),
            " --%".to_owned(),
            screen::Style::colored(screen::Color::DarkGray),
        ),
        Some(size) => {
            if max_visible_size == 0 {
                return (
                    text::repeat_char(' ', bar_width),
                    "  0%".to_owned(),
                    screen::Style::colored(screen::Color::DarkGray),
                );
            }
            let filled: usize = places_filled(size, max_visible_size, bar_width);
            let full = text::repeat_char('█', filled);
            let free = text::repeat_char('░', bar_width - filled);
            let percent = text::decimal_text(rounded_percent(size, total_visible_size));
            let padded = screen::pad_left(percent.as_str(), 3);
            (
                text::join2(full.as_str(), free.as_str()),
                text::join2(padded.as_str(), "%"),
                style_of_bar(size, max_visible_size),
            )
        },
    }
}

/// A bar is as long as it is to be.
pub proof fn bars_keep_their_width(size: Option<u64>, max: nat, total: nat, width: nat)
    ensures
        size_bar(size, max, total, width).bar.len() == width,
{
}

// ---------------------------------------------------------------------------
// Sizes in words
// ---------------------------------------------------------------------------

/// A size with its apparent size where they differ.
pub open spec fn size_detail_text(size: bulkstat::SizeInfo) -> Seq<char> {
    if size.allocated == size.logical {
        sizes::human_text(size.logical as nat)
    } else {
        sizes::human_text(size.allocated as nat) + " disk · "@ + sizes::human_text(
            size.logical as nat,
        ) + " apparent"@
    }
}

pub fn size_detail(size: bulkstat::SizeInfo) -> (r: String)
    ensures
        r@ == size_detail_text(size),
{
    if size.allocated == size.logical {
        return sizes::human(size.logical);
    }
    text::join4(
        sizes::human(size.allocated).as_str(),
        " disk · ",
        sizes::human(size.logical).as_str(),
        " apparent",
    )
}

pub open spec fn marked_detail_text(size: bulkstat::SizeInfo, stale: bool) -> Seq<char> {
    if stale {
        "~"@ + size_detail_text(size)
    } else {
        size_detail_text(size)
    }
}

pub fn size_detail_with_cache_marker(size: bulkstat::SizeInfo, stale: bool) -> (r: String)
    ensures
        r@ == marked_detail_text(size, stale),
{
    let detail = size_detail(size);
    if stale {
        text::join2("~", detail.as_str())
    } else {
        detail
    }
}

/// Two sizes, allocated and apparent, or one where they are the same.
pub open spec fn size_pair_text(size: bulkstat::SizeInfo) -> Seq<char> {
    if size.allocated == size.logical {
        sizes::human_text(size.allocated as nat)
    } else {
        sizes::human_text(size.allocated as nat) + " / "@ + sizes::human_text(size.logical as nat)
    }
}

pub fn size_pair(size: bulkstat::SizeInfo) -> (r: String)
    ensures
        r@ == size_pair_text(size),
{
    if size.allocated == size.logical {
        return sizes::human(size.allocated);
    }
    text::join3(
        sizes::human(size.allocated).as_str(),
        " / ",
        sizes::human(size.logical).as_str(),
    )
}

/// A size with a mark in front where it is from the cache, another where it is
/// a lower bound, and one behind it where volumes were skipped.
pub open spec fn marked_size_text(
    bytes: nat,
    inaccessible: u32,
    skipped_mounts: u32,
    stale: bool,
) -> Seq<char> {
    (if stale {
        "~"@
    } else {
        Seq::empty()
    }) + (if inaccessible > 0 {
        "≥"@
    } else {
        Seq::empty()
    }) + sizes::human_text(bytes) + (if skipped_mounts > 0 {
        "*"@
    } else {
        Seq::empty()
    })
}

pub fn size_with_markers(bytes: u64, inaccessible: u32, skipped_mounts: u32, stale: bool) -> (r:
    String)
    ensures
        r@ == marked_size_text(bytes as nat, inaccessible, skipped_mounts, stale),
{
    let none = String::new();
    let old = if stale {
        "~"
    } else {
        none.as_str()
    };
    let bound = if inaccessible > 0 {
        "≥"
    } else {
        none.as_str()
    };
    let skipped = if skipped_mounts > 0 {
        "*"
    } else {
        none.as_str()
    };
    text::join4(old, bound, sizes::human(bytes).as_str(), skipped)
}

/// The style of a size, by its magnitude.
pub open spec fn magnitude_style(bytes: nat) -> screen::Style {
    if bytes >= 0x4000_0000 {
        screen::bold(screen::Color::Yellow)
    } else if bytes >= 0x10_0000 {
        screen::colored(screen::Color::Green)
    } else {
        screen::colored(screen::Color::DarkGray)
    }
}

pub fn size_magnitude_style(bytes: u64) -> (r: screen::Style)
    ensures
        r == magnitude_style(bytes as nat),
{
    if bytes >= 0x4000_0000 {
        screen::Style::bold(screen::Color::Yellow)
    } else if bytes >= 0x10_0000 {
        screen::Style::colored(screen::Color::Green)
    } else {
        screen::Style::colored(screen::Color::DarkGray)
    }
}

/// What is behind an entry that has grown or shrunk.
pub open spec fn badge(delta: i64) -> Option<screen::SpanV> {
    if delta == 0 {
        None
    } else if delta > 0 {
        Some(
            screen::span(
                " ↑"@ + sizes::human_text(delta as nat),
                screen::colored(screen::Color::Green),
            ),
        )
    } else {
        Some(
            screen::span(
                " ↓"@ + sizes::human_text((-delta) as nat),
                screen::colored(screen::Color::Blue),
            ),
        )
    }
}

pub fn growth_badge(delta: i64) -> (r: Option<(String, screen::Style)>)
    ensures
        match r {
            Some((t, style)) => badge(delta) == Some(screen::span(t@, style)),
            None => badge(delta) is None,
        },
{
    if delta == 0 {
        None
    } else if delta > 0 {
        Some(
            (
                text::join2(" ↑", sizes::human(delta as u64).as_str()),
                screen::Style::colored(screen::Color::Green),
            ),
        )
    } else {
        let magnitude: u64 = (-(delta as i128)) as u64;
        Some(
            (
                text::join2(" ↓", sizes::human(magnitude).as_str()),
                screen::Style::colored(screen::Color::Blue),
            ),
        )
    }
}

// ---------------------------------------------------------------------------
// Labels
// ---------------------------------------------------------------------------

/// What a volume is called, by where it is mounted.
pub open spec fn volume_name(mount: Seq<char>) -> Seq<char> {
    match paths::name_of(paths::path_of(mount)) {
        Some(name) => if name.len() == 0 {
            "Root volume"@
        } else {
            name
        },
        None => "Root volume"@,
    }
}

pub fn volume_label(mount: &str) -> (r: String)
    ensures
        r@ == volume_name(mount@),
{
    match paths::path_file_name(mount) {
        Some(name) => if name.as_str().is_empty() {
            "Root volume".to_owned()
        } else {
            name
        },
        None => "Root volume".to_owned(),
    }
}

pub open spec fn disk_name(disk: modals::DiskModel) -> Seq<char> {
    if disk.name.len() == 0 {
        volume_name(disk.mount) + "  "@ + disk.mount
    } else {
        volume_name(disk.mount) + "  "@ + disk.mount + " ("@ + disk.name + ")"@
    }
}

pub fn disk_label(disk: &modals::DiskInfo) -> (r: String)
    ensures
        r@ == disk_name(disk@),
{
    let volume = volume_label(disk.mount.as_str());
    let start = text::join3(volume.as_str(), "  ", disk.mount.as_str());
    if disk.name.as_str().is_empty() {
        start
    } else {
        text::join4(start.as_str(), " (", disk.name.as_str(), ")")
    }
}

pub open spec fn findings_text(count: nat) -> Seq<char> {
    if count == 1 {
        "1 finding"@
    } else {
        text::decimal(count) + " findings"@
    }
}

pub fn finding_count_label(count: usize) -> (r: String)
    ensures
        r@ == findings_text(count as nat),
{
    if count == 1 {
        "1 finding".to_owned()
    } else {
        text::join2(text::decimal_text(count as u64).as_str(), " findings")
    }
}

/// The chip and the colour of a class.
pub open spec fn chip_of(class: reclaim::Reclaimability) -> (Seq<char>, screen::Color) {
    match class {
        reclaim::Reclaimability::Safe => ("cache"@, screen::Color::Green),
        reclaim::Reclaimability::Regenerable => ("build"@, screen::Color::Yellow),
        reclaim::Reclaimability::Risky => ("keep"@, screen::Color::Red),
    }
}

pub fn reclaim_chip(class: reclaim::Reclaimability) -> (r: (&'static str, screen::Color))
    ensures
        (r.0@, r.1) == chip_of(class),
{
    match class {
        reclaim::Reclaimability::Safe => ("cache", screen::Color::Green),
        reclaim::Reclaimability::Regenerable => ("build", screen::Color::Yellow),
        reclaim::Reclaimability::Risky => ("keep", screen::Color::Red),
    }
}

/// How old the size of an entry from the cache is.
pub open spec fn cache_age_text(entry: entries::EntryV, now: u64) -> Option<Seq<char>> {
    if !entry.size_stale {
        None
    } else {
        match entry.cached_at {
            Some(at) => Some(
                "cached "@ + labels::elapsed_text(
                    if now > at {
                        (now - at) as nat
                    } else {
                        0
                    },
                ) + "; press r to refresh"@,
            ),
            None => None,
        }
    }
}

pub fn stale_cache_status(entry: &entries::Entry, now: u64) -> (r: Option<String>)
    ensures
        packages::opt_text(r) == cache_age_text(entry@, now),
{
    if !entry.size_stale {
        return None;
    }
    match entry.cached_at {
        Some(at) => {
            let age: u64 = now.saturating_sub(at);
            Some(
                text::join3(
                    "cached ",
                    labels::format_elapsed(age).as_str(),
                    "; press r to refresh",
                ),
            )
        },
        None => None,
    }
}

// ---------------------------------------------------------------------------
// Movement
// ---------------------------------------------------------------------------

/// The picture of a wheel that turns, at a time in milliseconds.
pub open spec fn spinner(ms: u64) -> Seq<char> {
    match ms / 60 % 10 {
        0 => "⠋"@,
        1 => "⠙"@,
        2 => "⠹"@,
        3 => "⠸"@,
        4 => "⠼"@,
        5 => "⠴"@,
        6 => "⠦"@,
        7 => "⠧"@,
        8 => "⠇"@,
        _ => "⠏"@,
    }
}

pub fn spinner_char(ms: u64) -> (r: &'static str)
    ensures
        r@ == spinner(ms),
{
    match ms / 60 % 10 {
        0 => "⠋",
        1 => "⠙",
        2 => "⠹",
        3 => "⠸",
        4 => "⠼",
        5 => "⠴",
        6 => "⠦",
        7 => "⠧",
        8 => "⠇",
        _ => "⠏",
    }
}

pub open spec fn big_spinner(ms: u64) -> Seq<char> {
    match ms / 120 % 8 {
        0 => "⣾"@,
        1 => "⣽"@,
        2 => "⣻"@,
        3 => "⢿"@,
        4 => "⡿"@,
        5 => "⣟"@,
        6 => "⣯"@,
        _ => "⣷"@,
    }
}

pub fn big_spinner_char(ms: u64) -> (r: &'static str)
    ensures
        r@ == big_spinner(ms),
{
    match ms / 120 % 8 {
        0 => "⣾",
        1 => "⣽",
        2 => "⣻",
        3 => "⢿",
        4 => "⡿",
        5 => "⣟",
        6 => "⣯",
        _ => "⣷",
    }
}

/// How many dots a bar of activity has in a pane of some width.
pub open spec fn activity_dots(width: int) -> int {
    if width >= 30 {
        20
    } else if width >= 20 {
        width - 10
    } else {
        10
    }
}

pub fn activity_width(width: usize) -> (r: usize)
    ensures
        r == activity_dots(width as int),
{
    if width >= 30 {
        20
    } else if width >= 20 {
        width - 10
    } else {
        10
    }
}

/// Dots with spaces between them, one of them full.
pub open spec fn dots(count: nat, active: nat) -> Seq<char>
    decreases count,
{
    if count == 0 {
        Seq::empty()
    } else {
        let dot = if active == count - 1 {
            "●"@
        } else {
            "·"@
        };
        if count == 1 {
            dot
        } else {
            dots((count - 1) as nat, active) + " "@ + dot
        }
    }
}

/// A bar of activity with its full dot at a place.
pub fn activity_bar(dot_count: usize, active: usize) -> (r: String)
    ensures
        r@ == "  "@ + dots(dot_count as nat, active as nat) + "  "@,
{
    let mut bar = String::new();
    let mut i: usize = 0;
    while i < dot_count
        invariant
            i <= dot_count,
            bar@ == dots(i as nat, active as nat),
        decreases dot_count - i,
    {
        let dot = if active == i {
            "●"
        } else {
            "·"
        };
        if i == 0 {
            bar = dot.to_owned();
        } else {
            bar = text::join3(bar.as_str(), " ", dot);
        }
        i += 1;
    }
    text::join3("  ", bar.as_str(), "  ")
}

// ---------------------------------------------------------------------------
// Laws
// ---------------------------------------------------------------------------

/// A share is shown in the nearest whole percent, of what it is a share of.
pub proof fn shares_are_shown_to_the_nearest_percent(value: nat, total: nat)
    requires
        0 < total,
        value <= total,
        value * 100 + total / 2 <= u64::MAX,
    ensures
        nearest_percent(value, total) <= 100,
        200 * value - total <= 2 * (nearest_percent(value, total) * total) <= 200 * value + total,
{
    let sum = value * 100 + total / 2;
    let n = sum / total;
    assert(n * total <= sum < n * total + total) by (nonlinear_arith)
        requires
            total > 0,
            n == sum / total,
    ;
    assert(n <= 100) by (nonlinear_arith)
        requires
            total > 0,
            n * total <= sum,
            sum <= 100 * total + total / 2,
    ;
}

/// A bar is filled by the share of the largest, rounded down, but in one place
/// at least where there is anything.
pub proof fn bars_are_filled_by_their_share(size: nat, max: nat, width: nat)
    requires
        0 < size <= max,
        0 < width,
        size * width <= u64::MAX,
    ensures
        ({
            let n = filled_places(size, max, width);
            &&& 1 <= n <= width
            &&& n == 1 || n * max <= size * width
            &&& size * width < n * max + max
            &&& size == max ==> n == width
        }),
{
    let all = size * width;
    let n = all / max;
    assert(n * max <= all < n * max + max) by (nonlinear_arith)
        requires
            max > 0,
            n == all / max,
    ;
    assert(n <= width) by (nonlinear_arith)
        requires
            max > 0,
            n * max <= all,
            all == size * width,
            size <= max,
    ;
    if size == max {
        assert(n >= width) by (nonlinear_arith)
            requires
                max > 0,
                all == max * width,
                all < n * max + max,
        ;
    }
    if n < 1 {
        assert(n * max == 0) by (nonlinear_arith)
            requires
                n == 0,
        ;
    }
}

} // verus!
