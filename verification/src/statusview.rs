//! The lines around the panes: where one is, what is selected, and which keys
//! there are.

use crate::app;
use crate::columns;
use crate::entries;
use crate::keymap;
use crate::packages;
use crate::pkgpane;
use crate::screen;
use crate::sizes;
use crate::sorting;
use crate::text;
use vstd::prelude::*;

verus! {

/// A number less another, nothing below zero.
pub open spec fn less(a: int, b: int) -> nat {
    if a > b {
        (a - b) as nat
    } else {
        0
    }
}

// ---------------------------------------------------------------------------
// The header
// ---------------------------------------------------------------------------

/// A line with another piece where there is a text.
pub open spec fn with_note(
    line: Seq<screen::SpanV>,
    note: Option<Seq<char>>,
    color: screen::Color,
) -> Seq<screen::SpanV> {
    match note {
        Some(t) => line.push(screen::span(" · "@ + t, screen::colored(color))),
        None => line,
    }
}

fn add_note(line: &mut screen::Line, note: &Option<String>, color: screen::Color)
    ensures
        final(line)@ == with_note(old(line)@, packages::opt_text(*note), color),
{
    match note {
        Some(t) => {
            line.add(text::join2(" · ", t.as_str()).as_str(), screen::Style::colored(color));
        },
        None => {},
    }
}

/// Where one is, with what is out of the ordinary.
pub open spec fn header(v: app::AppV, width: nat, now: u64, limited: bool) -> Seq<screen::SpanV> {
    let place = screen::blank().push(screen::span("diskr"@, screen::strong())).push(
        screen::span(" · "@, screen::plain()),
    ).push(
        screen::span(
            screen::start_truncated(v.files.cwd, less(width as int, 30)),
            screen::colored(screen::Color::Cyan),
        ),
    );
    let hidden = if v.files.show_hidden {
        place.push(screen::span(" · hidden on"@, screen::colored(screen::Color::Gray)))
    } else {
        place
    };
    let aged = with_note(hidden, v.baseline_text(now), screen::Color::DarkGray);
    let grown = with_note(aged, v.growth_text(), screen::Color::Green);
    if limited {
        grown.push(
            screen::span(
                " · limited access (no Full Disk Access)"@,
                screen::colored(screen::Color::Yellow),
            ),
        )
    } else {
        grown
    }
}

pub fn draw_header(state: &app::App, width: u16, now: u64, limited: bool) -> (r: screen::Line)
    ensures
        r@ == header(state@, width as nat, now, limited),
{
    let room: usize = width.saturating_sub(30) as usize;
    let mut line = screen::Line::new();
    line.add("diskr", screen::Style::strong());
    line.add(" · ", screen::Style::plain());
    line.add(
        screen::truncate_start(state.files.cwd.as_str(), room).as_str(),
        screen::Style::colored(screen::Color::Cyan),
    );
    if state.files.show_hidden {
        line.add(" · hidden on", screen::Style::colored(screen::Color::Gray));
    }
    let baseline = state.history_baseline_status(now);
    add_note(&mut line, &baseline, screen::Color::DarkGray);
    let growth = state.history_delta_status();
    add_note(&mut line, &growth, screen::Color::Green);
    if limited {
        line.add(
            " · limited access (no Full Disk Access)",
            screen::Style::colored(screen::Color::Yellow),
        );
    }
    line
}

// ---------------------------------------------------------------------------
// The selection
// ---------------------------------------------------------------------------

/// A kind, a name and a piece between.
pub open spec fn named(kind: Seq<char>, name: Seq<char>) -> Seq<screen::SpanV> {
    screen::blank().push(screen::span(kind, screen::colored(screen::Color::DarkGray))).push(
        screen::span(screen::truncated(name, 28), screen::bold(screen::Color::White)),
    )
}

fn name_line(kind: &str, name: &str) -> (r: screen::Line)
    ensures
        r@ == named(kind@, name@),
{
    let mut line = screen::Line::new();
    line.add(kind, screen::Style::colored(screen::Color::DarkGray));
    line.add(
        screen::truncate(name, 28).as_str(),
        screen::Style::bold(screen::Color::White),
    );
    line
}

/// A line with a dot and another piece.
pub open spec fn dotted(
    line: Seq<screen::SpanV>,
    t: Seq<char>,
    style: screen::Style,
) -> Seq<screen::SpanV> {
    line.push(screen::span(" · "@, screen::colored(screen::Color::DarkGray))).push(
        screen::span(t, style),
    )
}

fn add_dotted(line: &mut screen::Line, t: &str, style: screen::Style)
    ensures
        final(line)@ == dotted(old(line)@, t@, style),
{
    line.add(" · ", screen::Style::colored(screen::Color::DarkGray));
    line.add(t, style);
}

/// The size of a file in words.
pub open spec fn file_size_text(entry: entries::EntryV) -> Seq<char> {
    match entry.size {
        Some(size) => columns::size_detail_text(size),
        None => if entry.is_symlink {
            "symlink"@
        } else {
            "?"@
        },
    }
}

/// What is said of an entry; the time it was modified is given as a text.
pub open spec fn entry_status(
    entry: entries::EntryV,
    ms: u64,
    now: u64,
    modified: Seq<char>,
) -> Seq<screen::SpanV> {
    let gray = screen::colored(screen::Color::Gray);
    let yellow = screen::colored(screen::Color::Yellow);
    if entry.is_dir && entry.scanning {
        dotted(
            screen::blank().push(
                screen::span(
                    columns::spinner(ms) + " "@,
                    screen::colored(screen::Color::Cyan),
                ),
            ).push(screen::span("dir "@, screen::colored(screen::Color::DarkGray))).push(
                screen::span(screen::truncated(entry.name, 28), screen::bold(screen::Color::White)),
            ).push(screen::span(" · scanning size"@, gray)),
            modified,
            gray,
        )
    } else if entry.is_dir {
        let sized = dotted(
            named("dir "@, entry.name),
            match entry.size {
                Some(size) => columns::marked_detail_text(size, entry.size_stale),
                None => "—"@,
            },
            if entry.size_stale {
                screen::colored(screen::Color::DarkGray)
            } else {
                screen::colored(screen::Color::Green)
            },
        );
        let aged = with_note(sized, columns::cache_age_text(entry, now), screen::Color::DarkGray);
        let bounded = if entry.inaccessible > 0 {
            aged.push(
                screen::span(
                    " · "@ + text::decimal(entry.inaccessible as nat)
                        + " unreadable dirs; size is a lower bound"@,
                    yellow,
                ),
            )
        } else {
            aged
        };
        let skipped = if entry.skipped_mounts > 0 {
            bounded.push(
                screen::span(
                    " · "@ + text::decimal(entry.skipped_mounts as nat)
                        + " mounted volumes on other devices skipped"@,
                    yellow,
                ),
            )
        } else {
            bounded
        };
        dotted(skipped, modified, gray)
    } else {
        dotted(
            dotted(
                named(
                    if entry.is_symlink {
                        "link "@
                    } else {
                        "file "@
                    },
                    entry.name,
                ),
                file_size_text(entry),
                screen::colored(screen::Color::Green),
            ),
            modified,
            gray,
        )
    }
}

fn entry_line(entry: &entries::Entry, ms: u64, now: u64, modified: &str) -> (r: screen::Line)
    ensures
        r@ == entry_status(entry@, ms, now, modified@),
{
    let gray = screen::Style::colored(screen::Color::Gray);
    let yellow = screen::Style::colored(screen::Color::Yellow);
    if entry.is_dir && entry.scanning {
        let mut line = screen::Line::new();
        line.add(
            text::join2(columns::spinner_char(ms), " ").as_str(),
            screen::Style::colored(screen::Color::Cyan),
        );
        line.add("dir ", screen::Style::colored(screen::Color::DarkGray));
        line.add(
            screen::truncate(entry.name.as_str(), 28).as_str(),
            screen::Style::bold(screen::Color::White),
        );
        line.add(" · scanning size", gray);
        add_dotted(&mut line, modified, gray);
        return line;
    }
    if entry.is_dir {
        let mut line = name_line("dir ", entry.name.as_str());
        let size = match entry.size {
            Some(size) => columns::size_detail_with_cache_marker(size, entry.size_stale),
            None => "—".to_owned(),
        };
        let style = if entry.size_stale {
            screen::Style::colored(screen::Color::DarkGray)
        } else {
            screen::Style::colored(screen::Color::Green)
        };
        add_dotted(&mut line, size.as_str(), style);
        let age = columns::stale_cache_status(entry, now);
        add_note(&mut line, &age, screen::Color::DarkGray);
        if entry.inaccessible > 0 {
            line.add(
                text::join3(
                    " · ",
                    text::decimal_text(entry.inaccessible as u64).as_str(),
                    " unreadable dirs; size is a lower bound",
                ).as_str(),
                yellow,
            );
        }
        if entry.skipped_mounts > 0 {
            line.add(
                text::join3(
                    " · ",
                    text::decimal_text(entry.skipped_mounts as u64).as_str(),
                    " mounted volumes on other devices skipped",
                ).as_str(),
                yellow,
            );
        }
        add_dotted(&mut line, modified, gray);
        return line;
    }
    let kind = if entry.is_symlink {
        "link "
    } else {
        "file "
    };
    let mut line = name_line(kind, entry.name.as_str());
    let size = match entry.size {
        Some(size) => columns::size_detail(size),
        None => if entry.is_symlink {
            "symlink".to_owned()
        } else {
            "?".to_owned()
        },
    };
    add_dotted(&mut line, size.as_str(), screen::Style::colored(screen::Color::Green));
    add_dotted(&mut line, modified, gray);
    line
}

/// What is said of the packages pane.
pub open spec fn package_status(v: pkgpane::PaneV, ms: u64) -> Seq<screen::SpanV> {
    let gray = screen::colored(screen::Color::Gray);
    let green = screen::colored(screen::Color::Green);
    if v.loading {
        screen::two(
            columns::spinner(ms) + " "@,
            screen::colored(screen::Color::Cyan),
            "scanning packages"@,
            screen::colored(screen::Color::White),
        )
    } else if !v.loaded {
        screen::one("packages not scanned"@, gray)
    } else {
        match v.view {
            pkgpane::PkgView::SystemManagers => match v.current() {
                Some(p) => dotted(
                    named(p.manager.name() + " package "@, p.package.name),
                    match p.package.size {
                        Some(size) => columns::size_detail_text(size),
                        None => "?"@,
                    },
                    green,
                ),
                None => screen::one("no packages in view"@, gray),
            },
            pkgpane::PkgView::ProjectDeps => match v.current_project() {
                Some(p) => screen::two(
                    p.manager_label + " project · "@ + text::decimal(p.dep_count as nat)
                        + " deps · "@,
                    gray,
                    match p.deps_size {
                        Some(size) => columns::size_detail_text(size),
                        None => "—"@,
                    },
                    green,
                ),
                None => screen::one("no project dependencies in view"@, gray),
            },
        }
    }
}

fn package_status_line(pane: &pkgpane::PackagePane, ms: u64) -> (r: screen::Line)
    ensures
        r@ == package_status(pane@, ms),
{
    let gray = screen::Style::colored(screen::Color::Gray);
    let green = screen::Style::colored(screen::Color::Green);
    if pane.loading {
        let mut line = screen::Line::new();
        line.add(
            text::join2(columns::spinner_char(ms), " ").as_str(),
            screen::Style::colored(screen::Color::Cyan),
        );
        line.add("scanning packages", screen::Style::colored(screen::Color::White));
        return line;
    }
    if !pane.loaded {
        return screen::Line::of("packages not scanned", gray);
    }
    match pane.view {
        pkgpane::PkgView::SystemManagers => match pane.selected_pkg_detail() {
            Some((p, _)) => {
                let kind = text::join2(p.manager.label(), " package ");
                let mut line = name_line(kind.as_str(), p.package.name.as_str());
                let size = match p.package.size {
                    Some(size) => columns::size_detail(size),
                    None => "?".to_owned(),
                };
                add_dotted(&mut line, size.as_str(), green);
                line
            },
            None => screen::Line::of("no packages in view", gray),
        },
        pkgpane::PkgView::ProjectDeps => match pane.selected_project_dep_detail() {
            Some(p) => {
                let count = text::decimal_text(p.dep_count as u64);
                let size = match p.deps_size {
                    Some(size) => columns::size_detail(size),
                    None => "—".to_owned(),
                };
                let mut line = screen::Line::new();
                line.add(
                    text::join4(
                        p.manager_label.as_str(),
                        " project · ",
                        count.as_str(),
                        " deps · ",
                    ).as_str(),
                    gray,
                );
                line.add(size.as_str(), green);
                line
            },
            None => screen::Line::of("no project dependencies in view", gray),
        },
    }
}

/// What is said of what is selected.
pub open spec fn selection(
    v: app::AppV,
    ms: u64,
    now: u64,
    modified: Seq<char>,
) -> Seq<screen::SpanV> {
    let gray = screen::colored(screen::Color::Gray);
    match v.focus {
        keymap::Focus::Files => match v.files.current() {
            Some(e) => entry_status(e, ms, now, modified),
            None => screen::one("no files in view"@, gray),
        },
        keymap::Focus::Disks => match v.disks.current() {
            Some(d) => named("disk "@, columns::disk_name(d)).push(
                screen::span(
                    " · "@ + sizes::human_text(d.available as nat) + " free of "@
                        + sizes::human_text(d.total as nat),
                    gray,
                ),
            ),
            None => screen::one("no disks available"@, gray),
        },
        keymap::Focus::Reclaim => match v.reclaim.current_path() {
            Some((name, path)) => dotted(
                named("reclaim "@, name),
                screen::truncated(path, 34),
                gray,
            ),
            None => screen::one("no reclaim path selected"@, gray),
        },
        keymap::Focus::Packages => package_status(v.pkgs, ms),
    }
}

pub fn selection_status(state: &app::App, ms: u64, now: u64, modified: &str) -> (r: screen::Line)
    ensures
        r@ == selection(state@, ms, now, modified@),
{
    let gray = screen::Style::colored(screen::Color::Gray);
    match state.focus {
        keymap::Focus::Files => match state.files.visible_entry(state.files.selected) {
            Some(e) => entry_line(e, ms, now, modified),
            None => screen::Line::of("no files in view", gray),
        },
        keymap::Focus::Disks => match state.disks.selected_disk() {
            Some(d) => {
                let label = columns::disk_label(d);
                let mut line = name_line("disk ", label.as_str());
                line.add(
                    text::join4(
                        " · ",
                        sizes::human(d.available).as_str(),
                        " free of ",
                        sizes::human(d.total).as_str(),
                    ).as_str(),
                    gray,
                );
                line
            },
            None => screen::Line::of("no disks available", gray),
        },
        keymap::Focus::Reclaim => match state.reclaim.selected_reclaim_path() {
            Some((name, path)) => {
                let mut line = name_line("reclaim ", name.as_str());
                add_dotted(&mut line, screen::truncate(path.as_str(), 34).as_str(), gray);
                line
            },
            None => screen::Line::of("no reclaim path selected", gray),
        },
        keymap::Focus::Packages => package_status_line(&state.pkgs, ms),
    }
}

// ---------------------------------------------------------------------------
// The status line
// ---------------------------------------------------------------------------

/// What is said of a search: its text and how much was found.
pub open spec fn search_status(
    label: Seq<char>,
    query: Seq<char>,
    count: nat,
    hint: Seq<char>,
) -> Seq<screen::SpanV> {
    screen::blank().push(screen::span(label, screen::colored(screen::Color::DarkGray))).push(
        screen::span("/"@ + query, screen::bold(screen::Color::White)),
    ).push(
        screen::span(
            " · "@ + text::decimal(count) + hint,
            screen::colored(screen::Color::Gray),
        ),
    )
}

fn search_line(label: &str, query: &str, count: usize, hint: &str) -> (r: screen::Line)
    ensures
        r@ == search_status(label@, query@, count as nat, hint@),
{
    let mut line = screen::Line::new();
    line.add(label, screen::Style::colored(screen::Color::DarkGray));
    line.add(text::join2("/", query).as_str(), screen::Style::bold(screen::Color::White));
    line.add(
        text::join3(" · ", text::decimal_text(count as u64).as_str(), hint).as_str(),
        screen::Style::colored(screen::Color::Gray),
    );
    line
}

/// The status line: a search, or else what is selected and what happened last.
pub open spec fn status_line(
    v: app::AppV,
    ms: u64,
    now: u64,
    modified: Seq<char>,
) -> Seq<screen::SpanV> {
    let typing = " matches · Enter keep · Esc clear"@;
    let kept = " matches · / edit · Esc clear"@;
    if v.files.search_mode {
        search_status("search "@, v.files.search_query, v.files.row_count(), typing)
    } else if v.pkgs.search_mode {
        search_status("filter packages "@, v.pkgs.search_query, v.pkgs.rows().len(), typing)
    } else if v.focus == keymap::Focus::Files && v.files.is_searched() {
        search_status("filter "@, v.files.search_query, v.files.row_count(), kept)
    } else if v.focus == keymap::Focus::Packages && v.pkgs.is_searched() {
        search_status("package filter "@, v.pkgs.search_query, v.pkgs.rows().len(), kept)
    } else {
        let selected = selection(v, ms, now, modified);
        if v.out.status.len() == 0 {
            selected
        } else {
            dotted(selected, v.out.status, screen::colored(screen::Color::Gray))
        }
    }
}

pub fn draw_status(state: &app::App, ms: u64, now: u64, modified: &str) -> (r: screen::Line)
    ensures
        r@ == status_line(state@, ms, now, modified@),
{
    let typing = " matches · Enter keep · Esc clear";
    let kept = " matches · / edit · Esc clear";
    if state.files.search_mode {
        return search_line(
            "search ",
            state.files.search_query.as_str(),
            state.files.visible_entry_count(),
            typing,
        );
    }
    if state.pkgs.search_mode {
        return search_line(
            "filter packages ",
            state.pkgs.search_query.as_str(),
            state.pkgs.pkg_item_count(),
            typing,
        );
    }
    if state.focus == keymap::Focus::Files && state.files.search_filter_active() {
        return search_line(
            "filter ",
            state.files.search_query.as_str(),
            state.files.visible_entry_count(),
            kept,
        );
    }
    if state.focus == keymap::Focus::Packages && state.pkgs.pkg_filter_active() {
        return search_line(
            "package filter ",
            state.pkgs.search_query.as_str(),
            state.pkgs.pkg_item_count(),
            kept,
        );
    }
    let mut line = selection_status(state, ms, now, modified);
    if !state.out.status.as_str().is_empty() {
        add_dotted(
            &mut line,
            state.out.status.as_str(),
            screen::Style::colored(screen::Color::Gray),
        );
    }
    line
}

// ---------------------------------------------------------------------------
// Keys
// ---------------------------------------------------------------------------

/// The style of a key: keys that destroy stand out.
pub open spec fn key_style(key: Seq<char>) -> screen::Style {
    screen::bold(
        if keymap::is_destructive(key) {
            screen::Color::Red
        } else {
            screen::Color::Yellow
        },
    )
}

fn style_of_key(key: &str) -> (r: screen::Style)
    ensures
        r == key_style(key@),
{
    if keymap::is_destructive_key(key) {
        screen::Style::bold(screen::Color::Red)
    } else {
        screen::Style::bold(screen::Color::Yellow)
    }
}

/// A line with a key and what it does.
pub open spec fn with_key(
    line: Seq<screen::SpanV>,
    key: Seq<char>,
    action: Seq<char>,
) -> Seq<screen::SpanV> {
    let gray = screen::colored(screen::Color::Gray);
    let start = if line.len() == 0 {
        line
    } else {
        line.push(screen::span(" · "@, screen::colored(screen::Color::DarkGray)))
    };
    start.push(screen::span(key, key_style(key))).push(screen::span(" "@, gray)).push(
        screen::span(action, gray),
    )
}

fn add_key(line: &mut screen::Line, key: &str, action: &str)
    ensures
        final(line)@ == with_key(old(line)@, key@, action@),
{
    let gray = screen::Style::colored(screen::Color::Gray);
    if line.spans.len() > 0 {
        line.add(" · ", screen::Style::colored(screen::Color::DarkGray));
    }
    line.add(key, style_of_key(key));
    line.add(" ", gray);
    line.add(action, gray);
}

/// The hints from a place on that still fit behind a line of so many columns.
pub open spec fn with_fitting_keys(
    line: Seq<screen::SpanV>,
    hints: Seq<keymap::HintModel>,
    used: nat,
    room: nat,
) -> Seq<screen::SpanV>
    decreases hints.len(),
{
    if hints.len() == 0 {
        line
    } else {
        let next = used + (if line.len() == 0 {
            0nat
        } else {
            3nat
        }) + hints[0].key.len() + 1 + hints[0].action.len();
        if next > room {
            line
        } else {
            with_fitting_keys(
                with_key(line, hints[0].key, hints[0].action),
                hints.skip(1),
                next,
                room,
            )
        }
    }
}

/// The hints of a pane that fit into a width, the one to the help always.
pub open spec fn footer_line(focus: keymap::Focus, width: nat) -> Seq<screen::SpanV> {
    with_key(
        with_fitting_keys(
            screen::blank(),
            keymap::footer_of(focus),
            0,
            less(width as int, 9),
        ),
        "?"@,
        "help"@,
    )
}

fn count_chars(s: &str) -> (r: usize)
    ensures
        r == s@.len(),
{
    text::chars_of(s).len()
}

pub fn draw_help(focus: keymap::Focus, width: u16) -> (r: screen::Line)
    ensures
        r@ == footer_line(focus, width as nat),
{
    let room: usize = width.saturating_sub(9) as usize;
    let hints = keymap::footer_bindings_for(focus);
    let ghost all = sorting::views(hints@);
    let mut line = screen::Line::new();
    let mut used: usize = 0;
    let mut i: usize = 0;
    assert(all.skip(0) =~= all);
    while i < hints.len()
        invariant_except_break
            i <= hints@.len(),
            used <= room,
            room <= 65535,
            all == sorting::views(hints@),
            with_fitting_keys(line@, all.skip(i as int), used as nat, room as nat)
                == with_fitting_keys(screen::blank(), all, 0, room as nat),
        ensures
            line@ == with_fitting_keys(screen::blank(), all, 0, room as nat),
        decreases hints@.len() - i,
    {
        let ghost rest = all.skip(i as int);
        assert(rest[0] == hints@[i as int]@);
        assert(rest.skip(1) =~= all.skip(i + 1));
        let key: usize = count_chars(hints[i].key);
        let action: usize = count_chars(hints[i].action);
        let gap: usize = if line.spans.len() == 0 {
            0
        } else {
            3
        };
        let free: usize = room - used;
        if gap >= free || key >= free - gap || action >= free - gap - key {
            break ;
        }
        used = used + gap + key + 1 + action;
        add_key(&mut line, hints[i].key, hints[i].action);
        i += 1;
        if i == hints.len() {
            assert(all.skip(i as int).len() == 0);
        }
    }
    add_key(&mut line, "?", "help");
    line
}

/// The widest key of some sections, one at least and sixteen at most.
pub open spec fn widest_key(bindings: Seq<keymap::BindingModel>) -> nat
    decreases bindings.len(),
{
    if bindings.len() == 0 {
        0
    } else {
        let before = widest_key(bindings.drop_last());
        if bindings.last().key.len() > before {
            bindings.last().key.len()
        } else {
            before
        }
    }
}

/// All keys of some sections.
pub open spec fn all_keys(sections: Seq<keymap::SectionModel>) -> Seq<keymap::BindingModel>
    decreases sections.len(),
{
    if sections.len() == 0 {
        Seq::empty()
    } else {
        all_keys(sections.drop_last()) + sections.last().bindings
    }
}

pub open spec fn key_column(sections: Seq<keymap::SectionModel>) -> nat {
    let widest = widest_key(all_keys(sections));
    if all_keys(sections).len() == 0 {
        1
    } else if widest > 16 {
        16
    } else {
        widest
    }
}

/// A line of the help: a key and what it does.
pub open spec fn help_key(binding: keymap::BindingModel, width: nat) -> Seq<screen::SpanV> {
    screen::blank().push(screen::span("  "@, screen::plain())).push(
        screen::span(screen::padded_right(binding.key, width), key_style(binding.key)),
    ).push(screen::span("  "@, screen::plain())).push(
        screen::span(binding.action, screen::colored(screen::Color::Gray)),
    )
}

pub open spec fn help_keys(bindings: Seq<keymap::BindingModel>, width: nat) -> Seq<
    Seq<screen::SpanV>,
> {
    Seq::new(bindings.len(), |i: int| help_key(bindings[i], width))
}

/// The lines of some sections of the help, with an empty line between them.
pub open spec fn help_lines(sections: Seq<keymap::SectionModel>, width: nat) -> Seq<
    Seq<screen::SpanV>,
>
    decreases sections.len(),
{
    if sections.len() == 0 {
        screen::no_lines()
    } else {
        let before = help_lines(sections.drop_last(), width);
        let apart = if sections.len() > 1 {
            before.push(screen::gap())
        } else {
            before
        };
        apart.push(screen::one(sections.last().title, screen::bold(screen::Color::Cyan)))
            + help_keys(sections.last().bindings, width)
    }
}

fn find_key_column(sections: &Vec<keymap::KeySection>, from: usize, to: usize) -> (r: usize)
    requires
        from <= to <= sections@.len(),
    ensures
        r == key_column(sorting::views(sections@).subrange(from as int, to as int)),
{
    let ghost part = sorting::views(sections@).subrange(from as int, to as int);
    let mut widest: usize = 0;
    let mut any = false;
    let mut i: usize = from;
    assert(part.take(0) =~= Seq::<keymap::SectionModel>::empty());
    while i < to
        invariant
            from <= i <= to <= sections@.len(),
            part == sorting::views(sections@).subrange(from as int, to as int),
            widest == widest_key(all_keys(part.take(i - from))),
            any == (all_keys(part.take(i - from)).len() > 0),
        decreases to - i,
    {
        let ghost done = all_keys(part.take(i - from));
        let ghost next = part.take(i - from + 1);
        assert(next.drop_last() =~= part.take(i - from));
        assert(next.last() == sections@[i as int]@);
        let ghost keys = sorting::views(sections@[i as int].bindings@);
        let mut k: usize = 0;
        assert(done + keys.take(0) =~= done);
        while k < sections[i].bindings.len()
            invariant
                i < sections@.len(),
                k <= sections@[i as int].bindings@.len(),
                keys == sorting::views(sections@[i as int].bindings@),
                widest == widest_key(done + keys.take(k as int)),
                any == ((done + keys.take(k as int)).len() > 0),
            decreases sections@[i as int].bindings@.len() - k,
        {
            let ghost more = done + keys.take(k + 1);
            assert(more.drop_last() =~= done + keys.take(k as int));
            assert(more.last() == sections@[i as int].bindings@[k as int]@);
            let n: usize = count_chars(sections[i].bindings[k].key);
            if n > widest {
                widest = n;
            }
            any = true;
            k += 1;
        }
        assert(keys.take(keys.len() as int) =~= keys);
        assert(done + keys =~= all_keys(next));
        i += 1;
    }
    assert(part.take(to - from) =~= part);
    if !any {
        1
    } else if widest > 16 {
        16
    } else {
        widest
    }
}

/// A column of the help: some of its sections.
pub fn draw_help_column(sections: &Vec<keymap::KeySection>, from: usize, to: usize) -> (r:
    screen::Lines)
    requires
        from <= to <= sections@.len(),
    ensures
        ({
            let part = sorting::views(sections@).subrange(from as int, to as int);
            r@ == help_lines(part, key_column(part))
        }),
{
    let ghost part = sorting::views(sections@).subrange(from as int, to as int);
    let width: usize = find_key_column(sections, from, to);
    let mut lines = screen::Lines::new();
    let mut i: usize = from;
    assert(part.take(0) =~= Seq::<keymap::SectionModel>::empty());
    while i < to
        invariant
            from <= i <= to <= sections@.len(),
            part == sorting::views(sections@).subrange(from as int, to as int),
            width == key_column(part),
            lines@ == help_lines(part.take(i - from), width as nat),
        decreases to - i,
    {
        let ghost next = part.take(i - from + 1);
        assert(next.drop_last() =~= part.take(i - from));
        assert(next.last() == sections@[i as int]@);
        let ghost keys = sorting::views(sections@[i as int].bindings@);
        if i > from {
            lines.skip();
        }
        lines.say(sections[i].title, screen::Style::bold(screen::Color::Cyan));
        let ghost start = lines@;
        let mut k: usize = 0;
        assert(start + help_keys(keys, width as nat).take(0) =~= start);
        while k < sections[i].bindings.len()
            invariant
                i < sections@.len(),
                k <= sections@[i as int].bindings@.len(),
                keys == sorting::views(sections@[i as int].bindings@),
                lines@ == start + help_keys(keys, width as nat).take(k as int),
            decreases sections@[i as int].bindings@.len() - k,
        {
            let key = sections[i].bindings[k].key;
            let mut line = screen::Line::new();
            line.add("  ", screen::Style::plain());
            line.add(screen::pad_key(key, width).as_str(), style_of_key(key));
            line.add("  ", screen::Style::plain());
            line.add(
                sections[i].bindings[k].action,
                screen::Style::colored(screen::Color::Gray),
            );
            assert(line@ == help_key(keys[k as int], width as nat));
            let ghost before = lines@;
            lines.add(line);
            assert(lines@ =~= start + help_keys(keys, width as nat).take(k + 1));
            k += 1;
        }
        assert(help_keys(keys, width as nat).take(keys.len() as int) =~= help_keys(
            keys,
            width as nat,
        ));
        i += 1;
    }
    assert(part.take(to - from) =~= part);
    lines
}

/// What the marks at sizes mean.
pub open spec fn legend() -> Seq<screen::SpanV> {
    let mark = screen::colored(screen::Color::Yellow);
    let note = screen::colored(screen::Color::Gray);
    screen::blank().push(screen::span("markers  "@, screen::colored(screen::Color::DarkGray))).push(
        screen::span("~"@, mark),
    ).push(screen::span(" cached  "@, note)).push(screen::span("≥"@, mark)).push(
        screen::span(" lower bound  "@, note),
    ).push(screen::span("*"@, mark)).push(screen::span(" mounts skipped  "@, note)).push(
        screen::span("↑↓"@, screen::colored(screen::Color::Green)),
    ).push(screen::span(" grew/shrank"@, note))
}

pub fn draw_legend() -> (r: screen::Line)
    ensures
        r@ == legend(),
{
    let mark = screen::Style::colored(screen::Color::Yellow);
    let note = screen::Style::colored(screen::Color::Gray);
    let mut line = screen::Line::new();
    line.add("markers  ", screen::Style::colored(screen::Color::DarkGray));
    line.add("~", mark);
    line.add(" cached  ", note);
    line.add("≥", mark);
    line.add(" lower bound  ", note);
    line.add("*", mark);
    line.add(" mounts skipped  ", note);
    line.add("↑↓", screen::Style::colored(screen::Color::Green));
    line.add(" grew/shrank", note);
    line
}

/// The keys of the help: in two columns where there is room.
#[derive(Debug)]
pub struct HelpView {
    pub left: screen::Lines,
    pub right: Option<screen::Lines>,
}

/// How wide the help has to be for two columns.
pub const TWO_COLUMNS: u16 = 76;

/// The column of some sections.
pub open spec fn help_column(sections: Seq<keymap::SectionModel>) -> Seq<Seq<screen::SpanV>> {
    help_lines(sections, key_column(sections))
}

/// Draws the keys of the help.
pub fn draw_help_overlay(width: u16) -> (r: HelpView)
    ensures
        ({
            let all = keymap::help();
            let half = (all.len() + 1) / 2;
            match r.right {
                Some(right) => width >= TWO_COLUMNS && r.left@ == help_column(
                    all.subrange(0, half as int),
                ) && right@ == help_column(all.subrange(half as int, all.len() as int)),
                None => width < TWO_COLUMNS && r.left@ == help_column(all),
            }
        }),
{
    let sections = keymap::help_sections();
    let count: usize = sections.len();
    let ghost all = keymap::help();
    assert(all.len() == 6);
    assert(all.subrange(0, all.len() as int) =~= all);
    if width < TWO_COLUMNS {
        return HelpView { left: draw_help_column(&sections, 0, count), right: None };
    }
    let half: usize = (count + 1) / 2;
    HelpView {
        left: draw_help_column(&sections, 0, half),
        right: Some(draw_help_column(&sections, half, count)),
    }
}

// ---------------------------------------------------------------------------
// Laws
// ---------------------------------------------------------------------------

/// However narrow the terminal is, the footer ends with the key to the help.
pub proof fn help_is_always_shown(focus: keymap::Focus, width: nat)
    ensures
        footer_line(focus, width).len() >= 3,
        footer_line(focus, width).last().text == "help"@,
        footer_line(focus, width)[footer_line(focus, width).len() - 3].text == "?"@,
{
}

} // verus!
