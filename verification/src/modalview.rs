//! What is drawn on top of the panes.

use crate::app;
use crate::bulkstat;
use crate::columns;
use crate::deletion;
use crate::manifests;
use crate::modals;
use crate::packages;
use crate::pkgpane;
use crate::reclaim;
use crate::reclaimpane;
use crate::screen;
use crate::sizes;
use crate::sorting;
use crate::space;
use crate::statusview;
use crate::text;
use vstd::prelude::*;

verus! {

pub open spec fn dim() -> screen::Style {
    screen::colored(screen::Color::DarkGray)
}

pub open spec fn gray() -> screen::Style {
    screen::colored(screen::Color::Gray)
}

pub open spec fn white() -> screen::Style {
    screen::colored(screen::Color::White)
}

pub open spec fn green() -> screen::Style {
    screen::colored(screen::Color::Green)
}

pub open spec fn yellow() -> screen::Style {
    screen::colored(screen::Color::Yellow)
}

fn style(color: screen::Color) -> (r: screen::Style)
    ensures
        r == screen::colored(color),
{
    screen::Style::colored(color)
}

/// A label in front of a value.
pub open spec fn labelled(label: Seq<char>, value: Seq<char>, value_style: screen::Style) -> Seq<
    screen::SpanV,
> {
    screen::two(label, dim(), value, value_style)
}

pub fn add_labelled(lines: &mut screen::Lines, label: &str, value: &str, value_style: screen::Style)
    ensures
        final(lines)@ == old(lines)@.push(labelled(label@, value@, value_style)),
{
    lines.pair(label, style(screen::Color::DarkGray), value, value_style);
}

/// A wheel that turns, and what is waited for.
pub open spec fn waiting(ms: u64, what: Seq<char>) -> Seq<screen::SpanV> {
    screen::two(
        columns::spinner(ms) + " "@,
        screen::colored(screen::Color::Cyan),
        what,
        white(),
    )
}

fn add_waiting(lines: &mut screen::Lines, ms: u64, what: &str)
    ensures
        final(lines)@ == old(lines)@.push(waiting(ms, what@)),
{
    lines.pair(
        text::join2(columns::spinner_char(ms), " ").as_str(),
        style(screen::Color::Cyan),
        what,
        style(screen::Color::White),
    );
}

// ---------------------------------------------------------------------------
// Questions
// ---------------------------------------------------------------------------

/// The line in which a text is typed.
pub fn draw_input_overlay(state: &app::App) -> (r: screen::Lines)
    ensures
        r@ == screen::no_lines().push(screen::gap()).push(
            screen::one(state@.input.buffer + "▏"@, screen::plain()),
        ),
{
    let mut lines = screen::Lines::new();
    lines.skip();
    lines.say(
        text::join2(state.input.buffer.as_str(), "▏").as_str(),
        screen::Style::plain(),
    );
    lines
}

/// How a question ends.
pub open spec fn with_answers(lines: Seq<Seq<screen::SpanV>>) -> Seq<Seq<screen::SpanV>> {
    lines.push(screen::gap()).push(
        screen::one("press  y  to confirm   ·   n  to cancel"@, screen::plain()),
    )
}

fn add_answers(lines: &mut screen::Lines)
    ensures
        final(lines)@ == with_answers(old(lines)@),
{
    lines.skip();
    lines.say("press  y  to confirm   ·   n  to cancel", screen::Style::plain());
}

/// The question whether something is to go to the Trash. What is marked is
/// listed by name.
pub open spec fn delete_question(v: app::AppV) -> Seq<Seq<screen::SpanV>> {
    let name = match v.pending_delete {
        Some(target) => target.name(),
        None => "?"@,
    };
    let start = screen::no_lines().push(screen::gap()).push(
        screen::one("Move to Trash: "@ + name, screen::strong()),
    );
    with_answers(
        if v.pending_delete is Some && v.pending_delete->0 is Batch {
            start.push(
                screen::one(text::joined(deletion::names_of(v.files.marked), ", "@), gray()),
            )
        } else {
            start
        },
    )
}

/// The names of what is marked, where that is asked about.
pub fn pending_batch_summary(state: &app::App) -> (r: Option<String>)
    ensures
        packages::opt_text(r) == if state@.pending_delete is Some && state@.pending_delete->0 is Batch {
            Some(text::joined(deletion::names_of(state@.files.marked), ", "@))
        } else {
            None
        },
{
    match &state.pending_delete {
        Some(app::DeleteTarget::Batch) => {
            let names = deletion::collect_names(&state.files.marked);
            Some(text::join_texts(&names, ", "))
        },
        _ => None,
    }
}

pub fn draw_confirm(state: &app::App) -> (r: screen::Lines)
    ensures
        r@ == delete_question(state@),
{
    let mut lines = screen::Lines::new();
    lines.skip();
    lines.say(
        text::join2("Move to Trash: ", state.pending_delete_name()).as_str(),
        screen::Style::strong(),
    );
    match pending_batch_summary(state) {
        Some(summary) => {
            lines.say(summary.as_str(), style(screen::Color::Gray));
        },
        None => {},
    }
    add_answers(&mut lines);
    lines
}

/// The first finding that is the Trash.
pub open spec fn trash_of(findings: Seq<reclaim::FindingModel>) -> Option<reclaim::FindingModel>
    decreases findings.len(),
{
    if findings.len() == 0 {
        None
    } else if reclaimpane::is_trash(findings[0]) {
        Some(findings[0])
    } else {
        trash_of(findings.skip(1))
    }
}

fn find_trash(findings: &Vec<reclaim::Finding>) -> (r: Option<usize>)
    ensures
        match r {
            Some(i) => i < findings@.len() && trash_of(sorting::views(findings@)) == Some(
                findings@[i as int]@,
            ),
            None => trash_of(sorting::views(findings@)) is None,
        },
{
    let ghost all = sorting::views(findings@);
    let mut i: usize = 0;
    assert(all.skip(0) =~= all);
    while i < findings.len()
        invariant
            i <= findings@.len(),
            all == sorting::views(findings@),
            trash_of(all) == trash_of(all.skip(i as int)),
        decreases findings@.len() - i,
    {
        assert(all.skip(i as int)[0] == findings@[i as int]@);
        assert(all.skip(i as int).skip(1) =~= all.skip(i + 1));
        if text::same_text(findings[i].label.as_str(), "Trash") {
            return Some(i);
        }
        i += 1;
    }
    assert(all.skip(i as int).len() == 0);
    None
}

/// The question whether the Trash is to be emptied, with its size and place.
pub open spec fn trash_question(v: reclaimpane::ReclaimV) -> Seq<Seq<screen::SpanV>> {
    let trash = trash_of(v.findings());
    with_answers(
        screen::no_lines().push(screen::gap()).push(
            screen::one(
                "Empty Trash"@ + (match trash {
                    Some(f) => " (~"@ + sizes::human_text(f.size.allocated as nat) + ")"@,
                    None => Seq::empty(),
                }) + "?"@,
                screen::strong(),
            ),
        ).push(
            screen::one(
                match trash {
                    Some(f) => if f.paths.len() > 0 {
                        f.paths[0]
                    } else {
                        Seq::empty()
                    },
                    None => Seq::empty(),
                },
                gray(),
            ),
        ).push(screen::one("already-discarded items are removed permanently"@, gray())),
    )
}

pub fn draw_empty_trash_confirm(pane: &reclaimpane::ReclaimPane) -> (r: screen::Lines)
    ensures
        r@ == trash_question(pane@),
{
    let mut size_note = String::new();
    let mut path_note = String::new();
    match &pane.report {
        Some(report) => {
            assert(pane@.findings() == sorting::views(report.findings@));
            match find_trash(&report.findings) {
                Some(i) => {
                    let f = &report.findings[i];
                    size_note = text::join3(" (~", sizes::human(f.size.allocated).as_str(), ")");
                    if f.paths.len() > 0 {
                        path_note = f.paths[0].clone();
                    }
                },
                None => {},
            }
        },
        None => {},
    }
    let mut lines = screen::Lines::new();
    lines.skip();
    lines.say(
        text::join3("Empty Trash", size_note.as_str(), "?").as_str(),
        screen::Style::strong(),
    );
    lines.say(path_note.as_str(), style(screen::Color::Gray));
    lines.say("already-discarded items are removed permanently", style(screen::Color::Gray));
    add_answers(&mut lines);
    lines
}

pub fn draw_uninstall_confirm(pane: &pkgpane::PackagePane) -> (r: screen::Lines)
    ensures
        r@ == with_answers(
            screen::no_lines().push(screen::gap()).push(
                screen::one(
                    "Uninstall: "@ + (match pane@.pending_uninstall {
                        Some(t) => t.display_name,
                        None => "?"@,
                    }),
                    screen::strong(),
                ),
            ),
        ),
{
    let mut lines = screen::Lines::new();
    lines.skip();
    lines.say(
        text::join2("Uninstall: ", pane.pending_uninstall_name()).as_str(),
        screen::Style::strong(),
    );
    add_answers(&mut lines);
    lines
}

// ---------------------------------------------------------------------------
// Details of a package
// ---------------------------------------------------------------------------

/// A key and what it does, at the end of a popup.
pub open spec fn hint(line: Seq<screen::SpanV>, key: Seq<char>, action: Seq<char>) -> Seq<
    screen::SpanV,
> {
    let start = if line.len() == 0 {
        line
    } else {
        line.push(screen::span("  ·  "@, dim()))
    };
    start.push(screen::span(key, screen::bold(screen::Color::Yellow))).push(
        screen::span(action, gray()),
    )
}

pub fn add_hint(line: &mut screen::Line, key: &str, action: &str)
    ensures
        final(line)@ == hint(old(line)@, key@, action@),
{
    if line.spans.len() > 0 {
        line.add("  ·  ", style(screen::Color::DarkGray));
    }
    line.add(key, screen::Style::bold(screen::Color::Yellow));
    line.add(action, style(screen::Color::Gray));
}

/// Names in a row, cut to a width, or what is said where there are none.
pub open spec fn names_line(names: Seq<Seq<char>>, none: Seq<char>, width: nat) -> Seq<char> {
    if names.len() == 0 {
        none
    } else {
        screen::truncated(text::joined(names, ", "@), width)
    }
}

fn list_names(names: &Vec<String>, none: &str, width: usize) -> (r: String)
    ensures
        r@ == names_line(text::texts(names@), none@, width as nat),
{
    if names.len() == 0 {
        none.to_owned()
    } else {
        screen::truncate(text::join_texts(names, ", ").as_str(), width)
    }
}

/// What is said of how a package is used.
pub open spec fn usage_lines(
    lines: Seq<Seq<screen::SpanV>>,
    manager: packages::Manager,
    info: Option<packages::DepModel>,
    deps_loading: bool,
    width: int,
    ms: u64,
) -> Seq<Seq<screen::SpanV>> {
    match info {
        Some(d) => if d.evidence == packages::DepEvidence::ManagerGraph {
            if manager.installs_leaves() && d.dependencies.len() == 0 && d.dependents.len() == 0 {
                lines.push(
                    screen::one(
                        "  Usage: global install - no package-manager dependents"@,
                        green(),
                    ),
                ).push(
                    screen::one(
                        "  Treat as a leaf unless you use it manually or from scripts."@,
                        gray(),
                    ),
                )
            } else {
                lines.push(
                    labelled(
                        "  Dependencies ("@ + text::decimal(d.dependencies.len()) + "): "@,
                        names_line(d.dependencies, "none"@, statusview::less(width, 18)),
                        white(),
                    ),
                ).push(
                    labelled(
                        "  Used by ("@ + text::decimal(d.dependents.len()) + "): "@,
                        names_line(
                            d.dependents,
                            "none in manager graph"@,
                            statusview::less(width, 14),
                        ),
                        if d.dependents.len() == 0 {
                            green()
                        } else {
                            yellow()
                        },
                    ),
                )
            }
        } else {
            lines.push(
                screen::one(
                    "  Usage: not dependency-tracked by this package manager"@,
                    yellow(),
                ),
            ).push(
                screen::one(
                    "  This can still be a runtime, app, environment, CLI, or manually used tool."@,
                    gray(),
                ),
            )
        },
        None => if deps_loading {
            lines.push(
                screen::two(
                    "  "@ + columns::spinner(ms) + " "@,
                    screen::colored(screen::Color::Cyan),
                    "scanning dependency tree…"@,
                    gray(),
                ),
            )
        } else {
            lines.push(screen::one("  dependency info not available"@, dim()))
        },
    }
}

fn add_usage(
    lines: &mut screen::Lines,
    manager: packages::Manager,
    info: Option<&packages::DepInfo>,
    deps_loading: bool,
    width: u16,
    ms: u64,
)
    ensures
        final(lines)@ == usage_lines(
            old(lines)@,
            manager,
            match info {
                Some(d) => Some(d@),
                None => None,
            },
            deps_loading,
            width as int,
            ms,
        ),
{
    match info {
        Some(d) => {
            if d.evidence == packages::DepEvidence::ManagerGraph {
                if manager.is_global_leaf_manager() && d.dependencies.len() == 0
                    && d.dependents.len() == 0 {
                    lines.say(
                        "  Usage: global install - no package-manager dependents",
                        style(screen::Color::Green),
                    );
                    lines.say(
                        "  Treat as a leaf unless you use it manually or from scripts.",
                        style(screen::Color::Gray),
                    );
                } else {
                    let needs = list_names(
                        &d.dependencies,
                        "none",
                        width.saturating_sub(18) as usize,
                    );
                    add_labelled(
                        lines,
                        text::join3(
                            "  Dependencies (",
                            text::decimal_text(d.dependencies.len() as u64).as_str(),
                            "): ",
                        ).as_str(),
                        needs.as_str(),
                        style(screen::Color::White),
                    );
                    let users = list_names(
                        &d.dependents,
                        "none in manager graph",
                        width.saturating_sub(14) as usize,
                    );
                    let color = if d.dependents.len() == 0 {
                        screen::Color::Green
                    } else {
                        screen::Color::Yellow
                    };
                    add_labelled(
                        lines,
                        text::join3(
                            "  Used by (",
                            text::decimal_text(d.dependents.len() as u64).as_str(),
                            "): ",
                        ).as_str(),
                        users.as_str(),
                        style(color),
                    );
                }
            } else {
                lines.say(
                    "  Usage: not dependency-tracked by this package manager",
                    style(screen::Color::Yellow),
                );
                lines.say(
                    "  This can still be a runtime, app, environment, CLI, or manually used tool.",
                    style(screen::Color::Gray),
                );
            }
        },
        None => {
            if deps_loading {
                lines.pair(
                    text::join3("  ", columns::spinner_char(ms), " ").as_str(),
                    style(screen::Color::Cyan),
                    "scanning dependency tree…",
                    style(screen::Color::Gray),
                );
            } else {
                lines.say("  dependency info not available", style(screen::Color::DarkGray));
            }
        },
    }
}

/// Lines with a path that may be there, cut to a width.
pub open spec fn with_path(
    lines: Seq<Seq<screen::SpanV>>,
    label: Seq<char>,
    path: Option<Seq<char>>,
    width: nat,
) -> Seq<Seq<screen::SpanV>> {
    match path {
        Some(p) => lines.push(labelled(label, screen::truncated(p, width), gray())),
        None => lines,
    }
}

fn add_path(lines: &mut screen::Lines, label: &str, path: &Option<String>, width: usize)
    ensures
        final(lines)@ == with_path(old(lines)@, label@, packages::opt_text(*path), width as nat),
{
    match path {
        Some(p) => {
            let cut = screen::truncate(p.as_str(), width);
            add_labelled(lines, label, cut.as_str(), style(screen::Color::Gray));
        },
        None => {},
    }
}

/// Lines with a size that may be known.
pub open spec fn with_size(
    lines: Seq<Seq<screen::SpanV>>,
    label: Seq<char>,
    size: Option<bulkstat::SizeInfo>,
) -> Seq<Seq<screen::SpanV>> {
    match size {
        Some(s) => lines.push(labelled(label, columns::size_detail_text(s), green())),
        None => lines,
    }
}

fn add_size(lines: &mut screen::Lines, label: &str, size: Option<bulkstat::SizeInfo>)
    ensures
        final(lines)@ == with_size(old(lines)@, label@, size),
{
    match size {
        Some(s) => {
            let detail = columns::size_detail(s);
            add_labelled(lines, label, detail.as_str(), style(screen::Color::Green));
        },
        None => {},
    }
}

/// The details of a package: name and version, size, where it is, and how it is
/// used.
pub open spec fn package_detail(
    p: pkgpane::FlatModel,
    info: Option<packages::DepModel>,
    deps_loading: bool,
    width: int,
    ms: u64,
) -> Seq<Seq<screen::SpanV>> {
    let named = screen::no_lines().push(screen::gap()).push(
        screen::blank().push(screen::span(p.manager.name() + " "@, dim())).push(
            screen::span(p.package.name, screen::bold(screen::Color::White)),
        ).push(
            if p.package.version.len() == 0 {
                screen::span(Seq::empty(), screen::plain())
            } else {
                screen::span("@"@ + p.package.version, gray())
            },
        ),
    );
    let sized = with_size(named, "  Size: "@, p.package.size);
    let placed = with_path(sized, "  Path: "@, p.package.path, statusview::less(width, 10));
    let known = with_path(
        placed,
        "  Metadata: "@,
        p.package.metadata_path,
        statusview::less(width, 14),
    );
    usage_lines(known.push(screen::gap()), p.manager, info, deps_loading, width, ms).push(
        screen::gap(),
    ).push(
        hint(
            hint(hint(screen::blank(), "  x"@, " uninstall"@), "d"@, " trash dir"@),
            "Esc"@,
            " close"@,
        ),
    )
}

/// The entry of a graph for a package.
pub open spec fn info_of(v: pkgpane::PaneV, p: pkgpane::FlatModel) -> Option<packages::DepModel> {
    match v.dep_graph {
        Some(graph) => if graph.contains_key((p.manager, p.package.name)) {
            Some(graph[(p.manager, p.package.name)])
        } else {
            None
        },
        None => None,
    }
}

/// The details of the selected package, if one is selected.
pub fn draw_pkg_detail(pane: &pkgpane::PackagePane, width: u16, ms: u64) -> (r: Option<
    screen::Lines,
>)
    ensures
        match r {
            Some(lines) => pane@.current() is Some && lines@ == package_detail(
                pane@.current()->0,
                info_of(pane@, pane@.current()->0),
                pane@.deps_loading,
                width as int,
                ms,
            ),
            None => pane@.current() is None,
        },
{
    let (p, info) = match pane.selected_pkg_detail() {
        Some(found) => found,
        None => {
            return None;
        },
    };
    let mut lines = screen::Lines::new();
    lines.skip();
    let mut title = screen::Line::new();
    title.add(
        text::join2(p.manager.label(), " ").as_str(),
        style(screen::Color::DarkGray),
    );
    title.add(p.package.name.as_str(), screen::Style::bold(screen::Color::White));
    if p.package.version.as_str().is_empty() {
        let none = String::new();
        title.add(none.as_str(), screen::Style::plain());
    } else {
        title.add(
            text::join2("@", p.package.version.as_str()).as_str(),
            style(screen::Color::Gray),
        );
    }
    lines.add(title);
    add_size(&mut lines, "  Size: ", p.package.size);
    add_path(&mut lines, "  Path: ", &p.package.path, width.saturating_sub(10) as usize);
    add_path(
        &mut lines,
        "  Metadata: ",
        &p.package.metadata_path,
        width.saturating_sub(14) as usize,
    );
    lines.skip();
    add_usage(&mut lines, p.manager, info, pane.deps_loading, width, ms);
    lines.skip();
    let mut hints = screen::Line::new();
    add_hint(&mut hints, "  x", " uninstall");
    add_hint(&mut hints, "d", " trash dir");
    add_hint(&mut hints, "Esc", " close");
    lines.add(hints);
    Some(lines)
}

/// The details of a project.
pub open spec fn project_detail(p: manifests::ProjectModel, width: int) -> Seq<
    Seq<screen::SpanV>,
> {
    let named = screen::no_lines().push(screen::gap()).push(
        screen::two(
            p.manager_label + " "@,
            dim(),
            p.path,
            screen::bold(screen::Color::White),
        ),
    ).push(labelled("  Manifest: "@, p.manifest, gray())).push(
        labelled("  Dependencies: "@, text::decimal(p.dep_count as nat), white()),
    );
    let sized = with_size(named, "  Deps size: "@, p.deps_size);
    with_path(sized, "  Deps dir: "@, p.deps_dir, statusview::less(width, 14)).push(
        screen::gap(),
    ).push(hint(hint(screen::blank(), "  d"@, " trash deps dir"@), "Esc"@, " close"@))
}

/// The details of the selected project, if one is selected.
pub fn draw_project_dep_detail(pane: &pkgpane::PackagePane, width: u16) -> (r: Option<
    screen::Lines,
>)
    ensures
        match r {
            Some(lines) => pane@.current_project() is Some && lines@ == project_detail(
                pane@.current_project()->0,
                width as int,
            ),
            None => pane@.current_project() is None,
        },
{
    let p = match pane.selected_project_dep_detail() {
        Some(p) => p,
        None => {
            return None;
        },
    };
    let mut lines = screen::Lines::new();
    lines.skip();
    lines.pair(
        text::join2(p.manager_label.as_str(), " ").as_str(),
        style(screen::Color::DarkGray),
        p.path.as_str(),
        screen::Style::bold(screen::Color::White),
    );
    add_labelled(&mut lines, "  Manifest: ", p.manifest.as_str(), style(screen::Color::Gray));
    add_labelled(
        &mut lines,
        "  Dependencies: ",
        text::decimal_text(p.dep_count as u64).as_str(),
        style(screen::Color::White),
    );
    add_size(&mut lines, "  Deps size: ", p.deps_size);
    add_path(&mut lines, "  Deps dir: ", &p.deps_dir, width.saturating_sub(14) as usize);
    lines.skip();
    let mut hints = screen::Line::new();
    add_hint(&mut hints, "  d", " trash deps dir");
    add_hint(&mut hints, "Esc", " close");
    lines.add(hints);
    Some(lines)
}

// ---------------------------------------------------------------------------
// Details of a disk
// ---------------------------------------------------------------------------

/// The first names of a list, a line each.
pub open spec fn name_lines(names: Seq<Seq<char>>, count: nat, width: nat) -> Seq<
    Seq<screen::SpanV>,
> {
    Seq::new(count, |i: int| screen::one(screen::truncated(names[i], width), gray()))
}

/// How many of a list are shown.
pub open spec fn at_most(n: nat, limit: nat) -> nat {
    if n < limit {
        n
    } else {
        limit
    }
}

/// What is said of snapshots: what went wrong, or how many there are and the
/// first six by name.
pub open spec fn snapshot_lines(s: space::SnapshotModel, width: int) -> Seq<Seq<screen::SpanV>> {
    match s.error {
        Some(error) => screen::no_lines().push(
            labelled("snapshots "@, error, screen::colored(screen::Color::Red)),
        ),
        None => if s.names.len() == 0 {
            screen::no_lines().push(screen::one("snapshots: none"@, dim()))
        } else {
            screen::no_lines().push(
                screen::one("snapshots: "@ + text::decimal(s.names.len()), dim()),
            ) + name_lines(s.names, at_most(s.names.len(), 6), statusview::less(width, 6))
        },
    }
}

/// The details of a disk.
pub open spec fn disk_detail(report: space::SpaceModel, width: int) -> Seq<Seq<screen::SpanV>> {
    let stat = report.stat;
    let gap = statusview::less(stat.free as int, stat.available as int);
    let sizes_said = screen::no_lines().push(screen::gap()).push(
        labelled(
            "mount "@,
            stat.mount + "  ("@ + stat.fs_type + ", "@ + (stat.device + ")"@),
            white(),
        ),
    ).push(screen::gap()).push(
        labelled("total "@, sizes::human_text(stat.total as nat), green()),
    ).push(labelled("used "@, sizes::human_text(stat.used as nat), green())).push(
        labelled(
            "free "@,
            sizes::human_text(stat.free as nat) + "  (available: "@ + sizes::human_text(
                stat.available as nat,
            ) + ")"@,
            green(),
        ),
    );
    let gapped = if gap > 0 {
        sizes_said.push(labelled("free-not-available "@, sizes::human_text(gap), yellow()))
    } else {
        sizes_said
    };
    let contained = match report.apfs_container {
        Some(c) => gapped.push(screen::gap()).push(
            labelled(
                "apfs container "@,
                sizes::human_text(c.free as nat) + " free of "@ + sizes::human_text(c.size as nat),
                green(),
            ),
        ),
        None => gapped.push(screen::gap()),
    };
    (contained + snapshot_lines(report.local_snapshots, width)).push(screen::gap()).push(
        screen::one("esc closes this panel"@, screen::plain()),
    )
}

fn add_snapshots(lines: &mut screen::Lines, s: &space::SnapshotListing, width: u16)
    ensures
        final(lines)@ == old(lines)@ + snapshot_lines(s@, width as int),
{
    let ghost start = lines@;
    match &s.error {
        Some(error) => {
            add_labelled(lines, "snapshots ", error.as_str(), style(screen::Color::Red));
            assert(lines@ =~= start + snapshot_lines(s@, width as int));
        },
        None => {
            if s.names.len() == 0 {
                lines.say("snapshots: none", style(screen::Color::DarkGray));
                assert(lines@ =~= start + snapshot_lines(s@, width as int));
                return ;
            }
            lines.say(
                text::join2(
                    "snapshots: ",
                    text::decimal_text(s.names.len() as u64).as_str(),
                ).as_str(),
                style(screen::Color::DarkGray),
            );
            let ghost before = lines@;
            let room: usize = width.saturating_sub(6) as usize;
            let count: usize = if s.names.len() < 6 {
                s.names.len()
            } else {
                6
            };
            let ghost wanted = name_lines(text::texts(s.names@), count as nat, room as nat);
            let mut i: usize = 0;
            assert(before + wanted.take(0) =~= before);
            while i < count
                invariant
                    i <= count <= s.names@.len(),
                    wanted == name_lines(text::texts(s.names@), count as nat, room as nat),
                    lines@ == before + wanted.take(i as int),
                decreases count - i,
            {
                let cut = screen::truncate(s.names[i].as_str(), room);
                let ghost so_far = lines@;
                lines.say(cut.as_str(), style(screen::Color::Gray));
                assert(lines@ =~= before + wanted.take(i + 1));
                i += 1;
            }
            assert(wanted.take(wanted.len() as int) =~= wanted);
            assert(lines@ =~= start + snapshot_lines(s@, width as int));
        },
    }
}

fn draw_disk_detail(report: &space::SpaceReport, width: u16) -> (r: screen::Lines)
    ensures
        r@ == disk_detail(report@, width as int),
{
    let gap: u64 = report.unavailable_free();
    let mut lines = screen::Lines::new();
    lines.skip();
    let device = text::join2(report.device.as_str(), ")");
    add_labelled(
        &mut lines,
        "mount ",
        text::join5(
            report.mount.as_str(),
            "  (",
            report.fs_type.as_str(),
            ", ",
            device.as_str(),
        ).as_str(),
        style(screen::Color::White),
    );
    lines.skip();
    let green = style(screen::Color::Green);
    add_labelled(&mut lines, "total ", sizes::human(report.total).as_str(), green);
    add_labelled(&mut lines, "used ", sizes::human(report.used).as_str(), green);
    add_labelled(
        &mut lines,
        "free ",
        text::join4(
            sizes::human(report.free).as_str(),
            "  (available: ",
            sizes::human(report.available).as_str(),
            ")",
        ).as_str(),
        green,
    );
    if gap > 0 {
        add_labelled(
            &mut lines,
            "free-not-available ",
            sizes::human(gap).as_str(),
            style(screen::Color::Yellow),
        );
    }
    lines.skip();
    match &report.apfs_container {
        Some(c) => {
            add_labelled(
                &mut lines,
                "apfs container ",
                text::join3(
                    sizes::human(c.free).as_str(),
                    " free of ",
                    sizes::human(c.size).as_str(),
                ).as_str(),
                green,
            );
        },
        None => {},
    }
    add_snapshots(&mut lines, &report.local_snapshots, width);
    lines.skip();
    lines.say("esc closes this panel", screen::Style::plain());
    lines
}

/// What is shown of the selected disk.
pub open spec fn disk_info_lines(v: modals::DiskPaneV, width: int, ms: u64) -> Seq<
    Seq<screen::SpanV>,
> {
    if v.info_loading {
        screen::no_lines().push(screen::gap()).push(waiting(ms, "loading disk details…"@))
    } else {
        match v.info_report {
            Some(report) => disk_detail(report, width),
            None => screen::no_lines().push(
                screen::one("no disk details available"@, screen::plain()),
            ),
        }
    }
}

pub fn draw_disk_info_modal(pane: &modals::DiskPane, width: u16, ms: u64) -> (r: screen::Lines)
    ensures
        r@ == disk_info_lines(pane@, width as int, ms),
{
    if pane.info_loading {
        let mut lines = screen::Lines::new();
        lines.skip();
        add_waiting(&mut lines, ms, "loading disk details…");
        return lines;
    }
    match &pane.info_report {
        Some(report) => draw_disk_detail(report, width),
        None => {
            let mut lines = screen::Lines::new();
            lines.say("no disk details available", screen::Style::plain());
            lines
        },
    }
}

} // verus!
