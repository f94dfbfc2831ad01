//! The pane of the files.

use crate::app;
use crate::browser;
use crate::bulkstat;
use crate::columns;
use crate::entries;
use crate::keymap;
use crate::packages;
use crate::reclaim;
use crate::screen;
use crate::sizes;
use crate::sorting;
use crate::sums;
use crate::text;
use vstd::prelude::*;

verus! {

/// From this width on the time of modification is always shown.
pub const MODIFIED_AUTO_WIDTH: u16 = 100;

/// The rows that are shown: the old window within the list, moved just so far
/// that the selected row is in it.
pub open spec fn file_window(selected: int, count: int, offset: int, max_rows: int) -> (int, int) {
    if count == 0 {
        (0, 0)
    } else {
        let rows = if max_rows < 1 {
            1
        } else {
            max_rows
        };
        let last = if count < rows {
            0
        } else {
            count - rows
        };
        let old = if offset < last {
            offset
        } else {
            last
        };
        let at = if selected < count {
            selected
        } else {
            count - 1
        };
        let start = if at < old {
            at
        } else if at >= old + rows {
            at + 1 - rows
        } else {
            old
        };
        (
            start,
            if start + rows < count {
                start + rows
            } else {
                count
            },
        )
    }
}

pub fn file_window_bounds(
    selected: usize,
    total_items: usize,
    current_offset: usize,
    max_rows: usize,
) -> (r: (usize, usize))
    ensures
        (r.0 as int, r.1 as int) == file_window(
            selected as int,
            total_items as int,
            current_offset as int,
            max_rows as int,
        ),
        r.0 <= r.1 <= total_items,
{
    if total_items == 0 {
        return (0, 0);
    }
    let rows: usize = if max_rows < 1 {
        1
    } else {
        max_rows
    };
    let last: usize = total_items.saturating_sub(rows);
    let old: usize = if current_offset < last {
        current_offset
    } else {
        last
    };
    let at: usize = if selected < total_items {
        selected
    } else {
        total_items - 1
    };
    let start: usize = if at < old {
        at
    } else if at - old >= rows {
        at - (rows - 1)
    } else {
        old
    };
    let end: usize = if rows < total_items - start {
        start + rows
    } else {
        total_items
    };
    (start, end)
}

/// The selected row is in the window, and the window lies within the list.
pub proof fn file_window_shows_selection(selected: int, count: int, offset: int, max_rows: int)
    requires
        0 <= selected < count,
        0 <= offset,
        0 <= max_rows,
    ensures
        ({
            let (start, end) = file_window(selected, count, offset, max_rows);
            0 <= start <= selected < end <= count
        }),
{
}

// ---------------------------------------------------------------------------
// Sums
// ---------------------------------------------------------------------------

/// What the rows up to one show of sizes: the largest, their sum, and how many
/// have one.
#[verifier::ext_equal]
pub struct RowSums {
    pub max: nat,
    pub total: nat,
    pub sized: nat,
}

pub open spec fn row_sums(v: browser::BrowserV, rows: nat) -> RowSums
    decreases rows,
{
    if rows == 0 {
        RowSums { max: 0, total: 0, sized: 0 }
    } else {
        let before = row_sums(v, (rows - 1) as nat);
        match v.entry(rows - 1) {
            Some(e) => match e.size {
                Some(size) => RowSums {
                    max: if size.allocated as nat > before.max {
                        size.allocated as nat
                    } else {
                        before.max
                    },
                    total: before.total + size.allocated as nat,
                    sized: before.sized + 1,
                },
                None => before,
            },
            None => before,
        }
    }
}

/// The sums of all rows; the total is cut to what 64 bits hold.
fn sum_rows(files: &browser::Browser) -> (r: (u64, u64, usize))
    ensures
        ({
            let sums = row_sums(files@, files@.row_count());
            r.0 == sums.max && r.1 == bulkstat::capped(sums.total as int) && r.2 == sums.sized
        }),
{
    let count: usize = files.visible_entry_count();
    let mut max: u64 = 0;
    let mut total: u64 = 0;
    let mut sized: usize = 0;
    let mut row: usize = 0;
    while row < count
        invariant
            row <= count,
            count == files@.row_count(),
            sized <= row,
            max == row_sums(files@, row as nat).max,
            total == bulkstat::capped(row_sums(files@, row as nat).total as int),
            sized == row_sums(files@, row as nat).sized,
        decreases count - row,
    {
        match files.visible_entry(row) {
            Some(e) => {
                match e.size {
                    Some(size) => {
                        let room: u64 = entries::size_sort_key(size);
                        if room > max {
                            max = room;
                        }
                        total = total.saturating_add(room);
                        sized += 1;
                    },
                    None => {},
                }
            },
            None => {},
        }
        row += 1;
    }
    (max, total, sized)
}

/// What the marked entries take together, and whether some of it is unknown.
#[verifier::ext_equal]
pub struct MarkSums {
    pub total: nat,
    pub lower_bound: bool,
}

pub open spec fn mark_sums(list: Seq<entries::EntryV>, marks: Seq<Seq<char>>) -> MarkSums
    decreases marks.len(),
{
    if marks.len() == 0 {
        MarkSums { total: 0, lower_bound: false }
    } else {
        let before = mark_sums(list, marks.drop_last());
        let at = entries::place_of(list, marks.last());
        if at < list.len() && list[at as int].size is Some {
            MarkSums {
                total: before.total + list[at as int].size->0.allocated as nat,
                lower_bound: before.lower_bound || list[at as int].inaccessible > 0,
            }
        } else {
            MarkSums { total: before.total, lower_bound: true }
        }
    }
}

fn sum_marks(list: &Vec<entries::Entry>, marks: &Vec<String>) -> (r: (u64, bool))
    ensures
        ({
            let sums = mark_sums(sorting::views(list@), text::texts(marks@));
            r.0 == bulkstat::capped(sums.total as int) && r.1 == sums.lower_bound
        }),
{
    let ghost all = text::texts(marks@);
    let mut total: u64 = 0;
    let mut lower_bound = false;
    let mut i: usize = 0;
    assert(all.take(0) =~= Seq::<Seq<char>>::empty());
    while i < marks.len()
        invariant
            i <= marks@.len(),
            all == text::texts(marks@),
            total == bulkstat::capped(
                mark_sums(sorting::views(list@), all.take(i as int)).total as int,
            ),
            lower_bound == mark_sums(sorting::views(list@), all.take(i as int)).lower_bound,
        decreases marks@.len() - i,
    {
        assert(all.take(i + 1).drop_last() =~= all.take(i as int));
        assert(all.take(i + 1).last() == marks@[i as int]@);
        match entries::find_entry(list, marks[i].as_str()) {
            Some(at) => {
                assert(sorting::views(list@)[at as int] == list@[at as int]@);
                match list[at].size {
                    Some(size) => {
                        total = total.saturating_add(size.allocated);
                        lower_bound = lower_bound || list[at].inaccessible > 0;
                    },
                    None => {
                        lower_bound = true;
                    },
                }
            },
            None => {
                lower_bound = true;
            },
        }
        i += 1;
    }
    assert(all.take(all.len() as int) =~= all);
    (total, lower_bound)
}

// ---------------------------------------------------------------------------
// The title
// ---------------------------------------------------------------------------

/// What is said of the marks.
pub open spec fn marks_text(v: browser::BrowserV) -> Seq<char> {
    if v.marked.len() == 0 {
        Seq::empty()
    } else {
        let sums = mark_sums(v.entries, v.marked);
        let total = bulkstat::capped(sums.total as int);
        " · "@ + text::decimal(v.marked.len()) + " marked"@ + (if total > 0 {
            (if sums.lower_bound {
                " ≥"@
            } else {
                " "@
            }) + sizes::human_text(total as nat)
        } else {
            Seq::empty()
        })
    }
}

fn describe_marks(files: &browser::Browser) -> (r: String)
    ensures
        r@ == marks_text(files@),
{
    if files.marked.len() == 0 {
        return String::new();
    }
    let (total, lower_bound) = sum_marks(&files.entries, &files.marked);
    let count = text::decimal_text(files.marked.len() as u64);
    let room = if total > 0 {
        let mark = if lower_bound {
            " ≥"
        } else {
            " "
        };
        text::join2(mark, sizes::human(total).as_str())
    } else {
        String::new()
    };
    text::join4(" · ", count.as_str(), " marked", room.as_str())
}

/// The title of the pane: how many entries, how large, how many of them sized,
/// how they are sorted, and what is marked.
pub open spec fn files_title(v: browser::BrowserV) -> Seq<char> {
    let shown = v.row_count();
    let sums = row_sums(v, shown);
    let total = bulkstat::capped(sums.total as int);
    (if !v.search_mode && v.is_searched() {
        "files · "@ + text::decimal(shown) + "/"@ + text::decimal(v.entries.len()) + " items"@
    } else {
        "files · "@ + text::decimal(shown) + " items"@
    }) + (if total > 0 {
        " · "@ + sizes::human_text(total as nat)
    } else {
        Seq::empty()
    }) + (if sums.sized < shown {
        " · "@ + text::decimal(sums.sized) + "/"@ + text::decimal(shown) + " sized"@
    } else {
        Seq::empty()
    }) + (" · sort "@ + v.sort.name()) + marks_text(v)
}

pub fn files_pane_title(
    files: &browser::Browser,
    visible_count: usize,
    total_size: u64,
    sized: usize,
) -> (r: String)
    requires
        visible_count == files@.row_count(),
        total_size == bulkstat::capped(row_sums(files@, files@.row_count()).total as int),
        sized == row_sums(files@, files@.row_count()).sized,
    ensures
        r@ == files_title(files@),
{
    let shown = text::decimal_text(visible_count as u64);
    let start = if files.search_filter_active() {
        text::join5(
            "files · ",
            shown.as_str(),
            "/",
            text::decimal_text(files.entries.len() as u64).as_str(),
            " items",
        )
    } else {
        text::join3("files · ", shown.as_str(), " items")
    };
    let size = if total_size > 0 {
        text::join2(" · ", sizes::human(total_size).as_str())
    } else {
        String::new()
    };
    let coverage = if sized < visible_count {
        text::join5(
            " · ",
            text::decimal_text(sized as u64).as_str(),
            "/",
            shown.as_str(),
            " sized",
        )
    } else {
        String::new()
    };
    let sort = text::join2(" · sort ", files.sort.label());
    let marks = describe_marks(files);
    text::join5(
        start.as_str(),
        size.as_str(),
        coverage.as_str(),
        sort.as_str(),
        marks.as_str(),
    )
}

// ---------------------------------------------------------------------------
// Rows
// ---------------------------------------------------------------------------

/// What a row says of a size.
pub open spec fn row_size(e: entries::EntryV, ms: u64) -> screen::SpanV {
    let dim = screen::colored(screen::Color::DarkGray);
    if e.is_dir && e.scanning {
        screen::span(
            columns::spinner(ms) + " scanning…"@,
            screen::colored(screen::Color::Cyan),
        )
    } else {
        match e.size {
            Some(size) => if e.is_dir {
                screen::span(
                    columns::marked_size_text(
                        size.allocated as nat,
                        e.inaccessible,
                        e.skipped_mounts,
                        e.size_stale,
                    ),
                    if e.size_stale {
                        dim
                    } else {
                        columns::magnitude_style(size.allocated as nat)
                    },
                )
            } else {
                screen::span(
                    sizes::human_text(size.allocated as nat),
                    columns::magnitude_style(size.allocated as nat),
                )
            },
            None => screen::span(
                if e.is_dir {
                    "—"@
                } else if e.is_symlink {
                    "link"@
                } else {
                    "?"@
                },
                dim,
            ),
        }
    }
}

fn describe_size(e: &entries::Entry, ms: u64) -> (r: (String, screen::Style))
    ensures
        screen::span(r.0@, r.1) == row_size(e@, ms),
{
    let dim = screen::Style::colored(screen::Color::DarkGray);
    if e.is_dir && e.scanning {
        return (
            text::join2(columns::spinner_char(ms), " scanning…"),
            screen::Style::colored(screen::Color::Cyan),
        );
    }
    match e.size {
        Some(size) => {
            let room: u64 = entries::size_sort_key(size);
            if e.is_dir {
                let style = if e.size_stale {
                    dim
                } else {
                    columns::size_magnitude_style(room)
                };
                (
                    columns::size_with_markers(
                        room,
                        e.inaccessible,
                        e.skipped_mounts,
                        e.size_stale,
                    ),
                    style,
                )
            } else {
                (sizes::human(room), columns::size_magnitude_style(room))
            }
        },
        None => {
            let mark = if e.is_dir {
                "—"
            } else if e.is_symlink {
                "link"
            } else {
                "?"
            };
            (mark.to_owned(), dim)
        },
    }
}

/// The picture in front of a row: what the entry is, and whether it is marked.
pub open spec fn icon_of(e: entries::EntryV, marked: bool) -> screen::SpanV {
    screen::span(
        if marked {
            if e.is_dir {
                "✓▸"@
            } else if e.is_symlink {
                "✓↪"@
            } else {
                "✓ "@
            }
        } else if e.is_dir {
            "▸ "@
        } else if e.is_symlink {
            "↪ "@
        } else {
            "  "@
        },
        screen::colored(
            if marked {
                screen::Color::Green
            } else {
                screen::Color::DarkGray
            },
        ),
    )
}

fn add_icon(line: &mut screen::Line, e: &entries::Entry, marked: bool)
    ensures
        final(line)@ == old(line)@.push(icon_of(e@, marked)),
{
    let icon = if marked {
        if e.is_dir {
            "✓▸"
        } else if e.is_symlink {
            "✓↪"
        } else {
            "✓ "
        }
    } else if e.is_dir {
        "▸ "
    } else if e.is_symlink {
        "↪ "
    } else {
        "  "
    };
    let color = if marked {
        screen::Color::Green
    } else {
        screen::Color::DarkGray
    };
    line.add(icon, screen::Style::colored(color));
}

/// What the columns of the pane are.
#[derive(Clone, Copy, Debug, PartialEq, Eq, Structural)]
pub struct RowShape {
    pub name: usize,
    pub size: usize,
    pub modified: usize,
    pub bar: usize,
    pub show_modified: bool,
    pub max: u64,
    pub total: u64,
    /// The time in milliseconds, for the wheel of a scan.
    pub ms: u64,
}

/// A line with the bar of an entry.
pub open spec fn with_bar(
    line: Seq<screen::SpanV>,
    e: entries::EntryV,
    shape: RowShape,
) -> Seq<screen::SpanV> {
    if shape.bar == 0 {
        line
    } else {
        let apart = line.push(screen::span("  "@, screen::plain()));
        if e.scanning {
            apart.push(
                screen::span(text::repeated(' ', shape.bar as nat), screen::plain()),
            ).push(screen::span(" "@, screen::plain())).push(
                screen::span("    "@, screen::plain()),
            )
        } else {
            let b = columns::size_bar(
                match e.size {
                    Some(size) => Some(size.allocated),
                    None => None,
                },
                shape.max as nat,
                shape.total as nat,
                shape.bar as nat,
            );
            apart.push(screen::span(b.bar, b.style)).push(
                screen::span(" "@, screen::plain()),
            ).push(screen::span(b.percent, screen::colored(screen::Color::DarkGray)))
        }
    }
}

fn add_bar(line: &mut screen::Line, e: &entries::Entry, shape: &RowShape)
    ensures
        final(line)@ == with_bar(old(line)@, e@, *shape),
{
    if shape.bar == 0 {
        return ;
    }
    line.add("  ", screen::Style::plain());
    if e.scanning {
        line.add(text::repeat_char(' ', shape.bar).as_str(), screen::Style::plain());
        line.add(" ", screen::Style::plain());
        line.add("    ", screen::Style::plain());
        return ;
    }
    let size = match e.size {
        Some(size) => Some(entries::size_sort_key(size)),
        None => None,
    };
    let (bar, percent, style) = columns::file_size_bar(size, shape.max, shape.total, shape.bar);
    line.add(bar.as_str(), style);
    line.add(" ", screen::Style::plain());
    line.add(percent.as_str(), screen::Style::colored(screen::Color::DarkGray));
}

/// A row of the pane: icon, name, size, bar, time, growth and class.
pub open spec fn file_row(
    e: entries::EntryV,
    marked: bool,
    shape: RowShape,
    modified: Seq<char>,
    growth: Option<i64>,
    class: Option<reclaim::Reclaimability>,
) -> Seq<screen::SpanV> {
    let start = screen::blank().push(icon_of(e, marked)).push(
        screen::span(
            screen::fitted(e.name, shape.name as nat),
            if e.is_dir {
                screen::bold(screen::Color::Blue)
            } else {
                screen::plain()
            },
        ),
    );
    let size = row_size(e, shape.ms);
    let sized = if shape.size == 0 {
        start
    } else {
        start.push(screen::span("  "@, screen::plain())).push(
            screen::span(screen::padded_left(size.text, shape.size as nat), size.style),
        )
    };
    let barred = with_bar(sized, e, shape);
    let timed = if shape.show_modified && shape.modified > 0 {
        barred.push(screen::span("  "@, screen::plain())).push(
            screen::span(
                screen::padded_left(modified, shape.modified as nat),
                screen::colored(screen::Color::DarkGray),
            ),
        )
    } else {
        barred
    };
    let grown = if !e.scanning && growth is Some && columns::badge(growth->0) is Some {
        timed.push(columns::badge(growth->0)->0)
    } else {
        timed
    };
    match class {
        Some(class) => grown.push(
            screen::span(
                " ["@ + columns::chip_of(class).0 + "]"@,
                screen::colored(columns::chip_of(class).1),
            ),
        ),
        None => grown,
    }
}

fn draw_row(
    e: &entries::Entry,
    marked: bool,
    shape: &RowShape,
    modified: &str,
    growth: Option<i64>,
    class: Option<reclaim::Reclaimability>,
) -> (r: screen::Line)
    ensures
        r@ == file_row(e@, marked, *shape, modified@, growth, class),
{
    let mut line = screen::Line::new();
    add_icon(&mut line, e, marked);
    let name_style = if e.is_dir {
        screen::Style::bold(screen::Color::Blue)
    } else {
        screen::Style::plain()
    };
    line.add(screen::pad_truncated(e.name.as_str(), shape.name).as_str(), name_style);
    let (size, style) = describe_size(e, shape.ms);
    if shape.size > 0 {
        line.add("  ", screen::Style::plain());
        line.add(screen::pad_left(size.as_str(), shape.size).as_str(), style);
    }
    add_bar(&mut line, e, shape);
    if shape.show_modified && shape.modified > 0 {
        line.add("  ", screen::Style::plain());
        line.add(
            screen::pad_left(modified, shape.modified).as_str(),
            screen::Style::colored(screen::Color::DarkGray),
        );
    }
    if !e.scanning {
        match growth {
            Some(delta) => {
                match columns::growth_badge(delta) {
                    Some((badge, style)) => {
                        line.add(badge.as_str(), style);
                    },
                    None => {},
                }
            },
            None => {},
        }
    }
    match class {
        Some(class) => {
            let (chip, color) = columns::reclaim_chip(class);
            line.add(text::join3(" [", chip, "]").as_str(), screen::Style::colored(color));
        },
        None => {},
    }
    line
}

// ---------------------------------------------------------------------------
// The pane
// ---------------------------------------------------------------------------

/// A pane with a border: a message, or rows of which one is selected.
#[derive(Debug)]
pub struct ListPane {
    pub title: String,
    pub border: screen::Color,
    pub message: Option<String>,
    pub rows: screen::Lines,
    pub selected: usize,
}

#[verifier::ext_equal]
pub struct ListPaneV {
    pub title: Seq<char>,
    pub border: screen::Color,
    pub message: Option<Seq<char>>,
    pub rows: Seq<Seq<screen::SpanV>>,
    pub selected: nat,
}

impl View for ListPane {
    type V = ListPaneV;

    open spec fn view(&self) -> ListPaneV {
        ListPaneV {
            title: self.title@,
            border: self.border,
            message: packages::opt_text(self.message),
            rows: self.rows@,
            selected: self.selected as nat,
        }
    }
}

/// The colour of the border of a pane.
pub open spec fn border_of(focused: bool) -> screen::Color {
    if focused {
        screen::Color::Yellow
    } else {
        screen::Color::DarkGray
    }
}

pub fn border_color(focused: bool) -> (r: screen::Color)
    ensures
        r == border_of(focused),
{
    if focused {
        screen::Color::Yellow
    } else {
        screen::Color::DarkGray
    }
}

/// The row of an entry in the pane.
pub open spec fn row_of_entry(
    v: app::AppV,
    shape: RowShape,
    row: int,
    modified: Seq<char>,
    home: Option<Seq<char>>,
) -> Seq<screen::SpanV> {
    match v.files.entry(row) {
        Some(e) => file_row(
            e,
            v.files.marked.contains(e.path),
            shape,
            modified,
            v.growth_of(e.name),
            reclaim::class_by_name(e.name, e.path, home),
        ),
        None => screen::blank(),
    }
}

/// The rows of the pane from one on; their times are given as texts.
pub open spec fn rows_from(
    v: app::AppV,
    shape: RowShape,
    offset: nat,
    modified: Seq<Seq<char>>,
    home: Option<Seq<char>>,
) -> Seq<Seq<screen::SpanV>> {
    Seq::new(
        modified.len(),
        |i: int| row_of_entry(v, shape, offset + i, modified[i], home),
    )
}

/// The columns of the pane in an area of some width.
pub open spec fn shape_of(v: browser::BrowserV, width: u16, ms: u64) -> RowShape {
    let show_modified = v.sort == entries::SortMode::Modified || width >= MODIFIED_AUTO_WIDTH;
    let inner: int = if width < 2 {
        0
    } else {
        width - 2
    };
    let (name, size, modified, bar) = columns::columns_of(inner, show_modified);
    let sums = row_sums(v, v.row_count());
    RowShape {
        name: name as usize,
        size: size as usize,
        modified: modified as usize,
        bar: bar as usize,
        show_modified,
        max: sums.max as u64,
        total: bulkstat::capped(sums.total as int),
        ms,
    }
}

/// The pane of the files.
pub open spec fn files_pane(
    v: app::AppV,
    width: u16,
    modified: Seq<Seq<char>>,
    home: Option<Seq<char>>,
    ms: u64,
) -> ListPaneV {
    let border = border_of(v.focus == keymap::Focus::Files);
    if v.files.row_count() == 0 {
        ListPaneV {
            title: "files · 0 items"@,
            border,
            message: Some(
                if v.files.entries.len() == 0 {
                    "empty directory"@
                } else {
                    "no matching entries"@
                },
            ),
            rows: screen::no_lines(),
            selected: 0,
        }
    } else {
        ListPaneV {
            title: files_title(v.files),
            border,
            message: None,
            rows: rows_from(v, shape_of(v.files, width, ms), v.files.list_offset, modified, home),
            selected: if v.files.selected > v.files.list_offset {
                (v.files.selected - v.files.list_offset) as nat
            } else {
                0
            },
        }
    }
}

impl app::App {
    /// Chooses the rows that are shown in a pane of some height, and gives the
    /// first and the one behind the last.
    pub fn show_files(&mut self, height: u16) -> (r: (usize, usize))
        ensures
            ({
                let rows = if height < 3 {
                    1
                } else {
                    height - 2
                };
                &&& (r.0 as int, r.1 as int) == file_window(
                    old(self)@.files.selected as int,
                    old(self)@.files.row_count() as int,
                    old(self)@.files.list_offset as int,
                    rows,
                )
                &&& r.0 <= r.1 <= old(self)@.files.row_count()
                &&& final(self)@ == (app::AppV {
                    files: browser::BrowserV {
                        list_offset: r.0 as nat,
                        page_rows: rows as nat,
                        ..old(self)@.files
                    },
                    ..old(self)@
                })
            }),
    {
        let rows: usize = if height < 3 {
            1
        } else {
            height as usize - 2
        };
        let count: usize = self.files.visible_entry_count();
        let (start, end) = file_window_bounds(
            self.files.selected,
            count,
            self.files.list_offset,
            rows,
        );
        self.files.list_offset = start;
        self.files.page_rows = rows;
        (start, end)
    }
}

/// Draws the pane of the files. The times of the rows that are shown are given
/// as texts, one for each.
pub fn draw_files(
    state: &app::App,
    width: u16,
    modified: &Vec<String>,
    home: Option<&str>,
    ms: u64,
) -> (r: ListPane)
    requires
        state@.files.list_offset + modified@.len() <= usize::MAX,
    ensures
        r@ == files_pane(
            state@,
            width,
            text::texts(modified@),
            match home {
                Some(h) => Some(h@),
                None => None,
            },
            ms,
        ),
{
    let border = border_color(state.focus == keymap::Focus::Files);
    let count: usize = state.files.visible_entry_count();
    if count == 0 {
        let message = if state.files.entries.len() == 0 {
            "empty directory"
        } else {
            "no matching entries"
        };
        return ListPane {
            title: "files · 0 items".to_owned(),
            border,
            message: Some(message.to_owned()),
            rows: screen::Lines::new(),
            selected: 0,
        };
    }
    let show_modified = state.files.sort == entries::SortMode::Modified || width
        >= MODIFIED_AUTO_WIDTH;
    let (name, size, time, bar) = columns::file_columns(width.saturating_sub(2), show_modified);
    let (max, total, sized) = sum_rows(&state.files);
    let shape = RowShape { name, size, modified: time, bar, show_modified, max, total, ms };
    assert(shape == shape_of(state@.files, width, ms));
    let title = files_pane_title(&state.files, count, total, sized);
    let ghost place = match home {
        Some(h) => Some(h@),
        None => None,
    };
    let ghost wanted = rows_from(
        state@,
        shape,
        state@.files.list_offset,
        text::texts(modified@),
        place,
    );
    let mut rows = screen::Lines::new();
    let mut i: usize = 0;
    while i < modified.len()
        invariant
            i <= modified@.len(),
            state@.files.list_offset + modified@.len() <= usize::MAX,
            place == match home {
                Some(h) => Some(h@),
                None => None,
            },
            wanted == rows_from(
                state@,
                shape,
                state@.files.list_offset,
                text::texts(modified@),
                place,
            ),
            rows@ == wanted.take(i as int),
        decreases modified@.len() - i,
    {
        let line = match state.files.visible_entry(state.files.list_offset + i) {
            Some(e) => draw_row(
                e,
                state.files.is_marked(e.path.as_str()),
                &shape,
                modified[i].as_str(),
                state.size_delta(e.name.as_str()),
                reclaim::classify_by_name_path(e.name.as_str(), e.path.as_str(), home),
            ),
            None => screen::Line::new(),
        };
        assert(line@ == wanted[i as int]);
        rows.add(line);
        assert(wanted.take(i + 1) =~= wanted.take(i as int).push(wanted[i as int]));
        i += 1;
    }
    assert(wanted.take(wanted.len() as int) =~= wanted);
    let selected: usize = state.files.selected.saturating_sub(state.files.list_offset);
    ListPane { title, border, message: None, rows, selected }
}

/// The sums under the list are those of the rows: the total is what their sizes
/// add up to, the largest is the size of one of them and none is larger, and
/// those with a size are counted.
pub proof fn rows_add_up(v: browser::BrowserV, rows: nat)
    ensures
        ({
            let of_row = |i: int|
                match v.entry(i) {
                    Some(e) => match e.size {
                        Some(size) => Some(size.allocated),
                        None => None,
                    },
                    None => None,
                };
            let all = Seq::new(rows, of_row);
            let s = row_sums(v, rows);
            &&& s.total == sums::added(
                all,
                |r: Option<u64>|
                    if r is Some {
                        r->0 as int
                    } else {
                        0
                    },
            )
            &&& s.sized == sums::places_where(rows, |i: int| of_row(i) is Some)
            &&& forall|i: int|
                0 <= i < rows && #[trigger] of_row(i) is Some ==> of_row(i)->0 <= s.max
            &&& s.max == 0 || exists|i: int| 0 <= i < rows && #[trigger] of_row(i) == Some(
                s.max as u64,
            ) && s.max <= u64::MAX
        }),
    decreases rows,
{
    let of_row = |i: int|
        match v.entry(i) {
            Some(e) => match e.size {
                Some(size) => Some(size.allocated),
                None => None,
            },
            None => None,
        };
    if rows > 0 {
        let less = (rows - 1) as nat;
        rows_add_up(v, less);
        assert(Seq::new(rows, of_row).drop_last() =~= Seq::new(less, of_row));
        let s = row_sums(v, rows);
        let b = row_sums(v, less);
        if s.max == b.max && b.max != 0 {
            let i = choose|i: int| 0 <= i < less && #[trigger] of_row(i) == Some(b.max as u64);
            assert(of_row(i) == Some(s.max as u64));
        } else if s.max != 0 {
            assert(of_row(rows - 1) == Some(s.max as u64));
        }
    }
}

/// The room of the marked entries is what the sizes that are known of them add
/// up to, and it is a lower bound where one has no size, is not listed, or could
/// not be read in full.
pub proof fn marks_add_up(list: Seq<entries::EntryV>, marks: Seq<Seq<char>>)
    ensures
        ({
            let at = |p: Seq<char>| entries::place_of(list, p) as int;
            let s = mark_sums(list, marks);
            &&& s.total == sums::added(
                marks,
                |p: Seq<char>|
                    if at(p) < list.len() && list[at(p)].size is Some {
                        list[at(p)].size->0.allocated as int
                    } else {
                        0
                    },
            )
            &&& s.lower_bound <==> exists|i: int|
                0 <= i < marks.len() && {
                    let k = at(#[trigger] marks[i]);
                    k >= list.len() || list[k].size is None || list[k].inaccessible > 0
                }
        }),
    decreases marks.len(),
{
    let at = |p: Seq<char>| entries::place_of(list, p) as int;
    if marks.len() > 0 {
        let less = marks.drop_last();
        marks_add_up(list, less);
        assert(marks[marks.len() - 1] == marks.last());
        if mark_sums(list, less).lower_bound {
            let i = choose|i: int|
                0 <= i < less.len() && {
                    let k = at(#[trigger] less[i]);
                    k >= list.len() || list[k].size is None || list[k].inaccessible > 0
                };
            assert(marks[i] == less[i]);
        }
        if exists|i: int|
            0 <= i < marks.len() && {
                let k = at(#[trigger] marks[i]);
                k >= list.len() || list[k].size is None || list[k].inaccessible > 0
            } {
            let i = choose|i: int|
                0 <= i < marks.len() && {
                    let k = at(#[trigger] marks[i]);
                    k >= list.len() || list[k].size is None || list[k].inaccessible > 0
                };
            if i < less.len() {
                assert(less[i] == marks[i]);
            }
        }
    }
}

} // verus!
