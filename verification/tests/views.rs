//! What is shown, and where.

use diskr::columns::{
    activity_bar, activity_width, disk_label, disk_window_bounds, file_columns, file_size_bar,
    growth_badge, package_columns, rounded_percent, size_magnitude_style, spinner_char,
};
use diskr::filesview::file_window_bounds;
use diskr::keymap::{footer_bindings_for, help_sections, is_destructive_key, Focus};
use diskr::labels::{
    format_elapsed, format_modified_time, modal_window_bounds, should_show_disk_mount,
    LocalDate,
};
use diskr::layout::{
    centered_rect, equal_rows, help_regions, inner_area, lay_out, modal_list_regions,
    reclaim_panel_layout, side_panel_heights, split_columns, split_rows, Part,
};
use diskr::modals::DiskInfo;
use diskr::screen::{display_width, pad_truncated, truncate, truncate_start, Area, Line};
use diskr::sideview::compact_disk_line;
use diskr::sizes::{human, share_percent};
use diskr::statusview::{draw_help, draw_help_overlay};

/// The part of the manual that tells of the formats and lists the keys.
const README: &str = r"
The size cache and the baselines are kept as JSON through `serde_json`; property
lists of `diskutil` are read with `plist`, error numbers come from `libc`, and
areas of the screen are split by `ratatui-core`. What the library believes of
these crates stands at the functions that call them.

## Keys

The table mirrors the help (`?`) and `diskr --help`. Keys that remove something
(`d`, `E`, `x`) are shown in red.

| Key | Action |
| --- | --- |
| ? | Show keyboard help |
| q | Quit |
| Esc, Ctrl+C | Close a dialog, clear a search or filter, or go back to the files |
| Up/Down, j/k | Move the selection |
| PageUp/PageDown | Move by a page |
| Home/End | Jump to the first or last item |
| Enter | Open the selected directory, disk, package or finding |
| Backspace | Go to the parent directory |
| Left/Right, h/l | Switch pane or package view |
| Tab, Shift+Tab | Cycle panes |
| / | Search files or filter packages; Enter keeps, Esc clears |
| i | Show details |
| . | Toggle hidden files |
| o | Cycle the sort mode |
| r | Refresh the view and size all visible directories again |
| S | Size the visible directories whose size is missing or stale |
| B | Save a baseline of the directory |
| t | List the largest files |
| c | Rename the selected file |
| n | Create a directory |
| v | Toggle a mark |
| a | Mark all visible files |
| d | Move the selected item, or the marked ones, to the Trash |
| Space | Quick Look |
| f | Reveal in Finder |
| O | Open with the default app |
| y | Copy the path |
| s | Open a terminal there |
| p | Open the packages pane or switch its view |
| u | Show only packages that nothing depends on |
| x | Uninstall the selected package |
| R | Scan for reclaimable space again |
| E | Empty the Trash, where the report lists it |
";

fn line_text(line: &Line) -> String {
    line.spans.iter().map(|s| s.text.as_str()).collect()
}

fn disk(name: &str, mount: &str, total: u64, available: u64) -> DiskInfo {
    DiskInfo { name: name.to_string(), mount: mount.to_string(), total, available }
}

#[test]
fn truncate_preserves_short_names() {
    assert_eq!(truncate("Downloads", 40), "Downloads");
}

#[test]
fn truncate_keeps_unicode_boundary() {
    assert_eq!(truncate("résumé.txt", 7), "résumé…");
}

#[test]
fn truncate_uses_terminal_display_width() {
    let truncated = truncate("漢字abc", 5);
    assert_eq!(truncated, "漢字…");
    assert_eq!(display_width(&truncated), 5);
}

#[test]
fn pad_truncated_pads_by_terminal_display_width() {
    let padded = pad_truncated("漢字a", 6);
    assert_eq!(display_width(&padded), 6);
    assert_eq!(padded, "漢字a ");
}

#[test]
fn truncate_start_keeps_path_tail() {
    assert_eq!(truncate_start("/Users/milo/Downloads", 10), "…Downloads");
}

#[test]
fn centered_rect_uses_expected_percent_area() {
    let area = Area { x: 0, y: 0, width: 100, height: 40 };
    let got = centered_rect(60, 20, 40, 6, area);
    assert_eq!(got, Area { x: 20, y: 16, width: 60, height: 8 });
}

#[test]
fn centered_rect_respects_minimum_size() {
    let area = Area { x: 0, y: 0, width: 80, height: 24 };
    let got = centered_rect(60, 20, 40, 6, area);
    assert_eq!(got.height, 6);
}

#[test]
fn reclaim_panel_layout_keeps_detail_below_list() {
    let area = Area { x: 15, y: 4, width: 70, height: 28 };
    let (list, detail) = reclaim_panel_layout(area);

    assert_eq!(list.x, area.x);
    assert_eq!(detail.x, area.x);
    assert_eq!(list.width, area.width);
    assert_eq!(detail.width, area.width);
    assert_eq!(list.y + list.height, detail.y);
    assert_eq!(detail.height, 9);
    assert!(list.height >= 7);
}

#[test]
fn wishes_that_fit_are_met() {
    let area = Area { x: 3, y: 2, width: 50, height: 20 };
    for (first, second, at) in [
        (Part::Length(5), Part::AtLeast(3), 5),
        (Part::AtLeast(3), Part::Length(5), 15),
        (Part::AtLeast(0), Part::Length(20), 0),
        (Part::Length(20), Part::AtLeast(0), 20),
    ] {
        let (top, bottom) = split_rows(first, second, area);
        assert_eq!(top, Area { x: 3, y: 2, width: 50, height: at });
        assert_eq!(bottom, Area { x: 3, y: 2 + at, width: 50, height: 20 - at });
    }
    let (left, right) = split_columns(Part::Length(10), Part::Length(15), area);
    assert_eq!((left.x, left.width, right.x, right.width), (3, 10, 13, 15));
    let rows = equal_rows(3, 4, area);
    assert_eq!(rows[2], Area { x: 3, y: 10, width: 50, height: 4 });
    assert_eq!(inner_area(area), Area { x: 4, y: 3, width: 48, height: 18 });
}

#[test]
fn parts_stay_within_their_area() {
    let area = Area { x: 3, y: 2, width: 9, height: 4 };
    for (first, second) in [
        (Part::Length(5), Part::Length(7)),
        (Part::AtLeast(6), Part::AtLeast(6)),
        (Part::Percent(62), Part::Percent(38)),
        (Part::Percent(90), Part::Length(50)),
    ] {
        let (top, bottom) = split_rows(first, second, area);
        for part in [top, bottom] {
            assert!(part.y >= 2 && part.y + part.height <= 6);
            assert_eq!((part.x, part.width), (3, 9));
        }
    }
}

#[test]
fn panes_stack_up() {
    let area = Area { x: 0, y: 0, width: 100, height: 30 };
    let panes = lay_out(area, Focus::Files, false, 2);
    assert_eq!((panes.header.y, panes.header.height), (0, 1));
    assert_eq!((panes.files.y, panes.files.height), (1, 27));
    assert_eq!((panes.disks.y, panes.disks.height), (1, 10));
    assert_eq!((panes.packages.y, panes.packages.height), (11, 17));
    assert_eq!((panes.status.y, panes.help.y), (28, 29));
    assert!(panes.files.width > panes.disks.width);
}

#[test]
fn dialogs_keep_room_for_their_hints() {
    let area = Area { x: 10, y: 5, width: 40, height: 12 };
    let (list, hints) = modal_list_regions(area).unwrap();
    assert_eq!(list, Area { x: 11, y: 6, width: 38, height: 8 });
    assert_eq!(hints, Area { x: 11, y: 14, width: 38, height: 2 });
    assert!(modal_list_regions(Area { width: 2, ..area }).is_none());
    let (keys, legend) = help_regions(area);
    assert_eq!((keys.height, legend.y), (9, 15));
}

#[test]
fn help_takes_two_columns_where_there_is_room() {
    let wide = draw_help_overlay(76);
    assert!(wide.right.is_some());
    let narrow = draw_help_overlay(75);
    assert!(narrow.right.is_none());
    let joined = wide.left.lines.len() + wide.right.unwrap().lines.len();
    // One empty line between the two halves is saved.
    assert_eq!(narrow.left.lines.len(), joined + 1);
}

#[test]
fn file_columns_hide_size_on_narrow_widths() {
    assert_eq!(file_columns(10, false), (8, 0, 0, 0));
}

#[test]
fn file_columns_keep_size_when_space_allows() {
    assert_eq!(file_columns(30, false), (14, 12, 0, 0));
}

#[test]
fn file_columns_show_modified_in_wide_view() {
    let (name_width, size_width, modified_width, bar_width) = file_columns(60, true);
    assert!(size_width > 0);
    assert!(modified_width > 0);
    assert!(bar_width > 0);
    // Account for ICON_WIDTH (2) + GAP_WIDTH (2) * 3 = 8
    assert_eq!(name_width + size_width + modified_width + bar_width + 8, 60);
    assert_eq!(bar_width, 10);
}

#[test]
fn file_columns_swap_modified_when_space_is_limited() {
    let (name_width, size_width, modified_width, bar_width) = file_columns(35, true);
    assert!(size_width == 0);
    assert_eq!(name_width + modified_width + 4, 35);
    assert!(modified_width >= 4);
    assert_eq!(bar_width, 0);
}

#[test]
fn file_columns_show_bar_at_wide_width() {
    let (name_width, size_width, modified_width, bar_width) = file_columns(90, false);
    assert_eq!(modified_width, 0);
    assert_eq!(bar_width, 10);
    // Account for ICON_WIDTH (2) + GAP_WIDTH (2) * 2 = 6
    assert_eq!(name_width + size_width + bar_width + 6, 90);
}

#[test]
fn file_size_bar_renders_scaled_blocks() {
    let (bar, percent, _style) = file_size_bar(Some(50), 100, 200, 10);
    assert_eq!(bar.chars().count(), 10);
    assert_eq!(percent, " 25%");
}

#[test]
fn file_size_bar_handles_unknown_size() {
    let (bar, percent, _style) = file_size_bar(None, 100, 200, 10);
    assert_eq!(bar.len(), 10);
    assert_eq!(percent, " --%");
}

#[test]
fn package_columns_hide_size_when_narrow() {
    assert_eq!(package_columns(12), (12, 0));
}

#[test]
fn growth_badge_shows_direction_and_skips_zero() {
    let (up, _) = growth_badge(4096).unwrap();
    assert!(up.contains('↑'));
    let (down, _) = growth_badge(-4096).unwrap();
    assert!(down.contains('↓'));
    assert!(growth_badge(0).is_none());
    assert!(growth_badge(i64::MIN).is_some());
}

#[test]
fn size_magnitude_style_grades_by_size() {
    let kb = size_magnitude_style(500);
    let mb = size_magnitude_style(5 * 1024 * 1024);
    let gb = size_magnitude_style(5 * 1024 * 1024 * 1024);
    assert_ne!(kb, mb);
    assert_ne!(mb, gb);
}

#[test]
fn side_panel_keeps_room_for_packages() {
    assert_eq!(side_panel_heights(21, 12, true), (14, 7));
}

#[test]
fn side_panel_gives_packages_rows_on_short_terminal_when_visible() {
    // Packages not visible: the short side column is all disks.
    assert_eq!(side_panel_heights(8, 2, false), (8, 0));
    // Packages focused/loaded on the same short column: both panes get
    // rows so a focused packages pane is never zero-height.
    let (disk, pkg) = side_panel_heights(8, 2, true);
    assert!(pkg > 0, "packages pane starved on short terminal");
    assert!(disk > 0, "disks pane starved on short terminal");
    assert_eq!(disk + pkg, 8);
}

#[test]
fn disk_window_tracks_selected_disk() {
    assert_eq!(disk_window_bounds(0, 12, 3), (0, 3));
    assert_eq!(disk_window_bounds(8, 12, 3), (7, 10));
    assert_eq!(disk_window_bounds(11, 12, 3), (9, 12));
}

#[test]
fn compact_disk_line_truncates_to_width() {
    let disk = disk("", "/Volumes/Data", 1000, 280);
    let line = compact_disk_line(&disk, false, 18);
    assert!(display_width(&line_text(&line)) <= 18, "compact disk line overflowed: {line:?}");
    let selected = compact_disk_line(&disk, true, 40);
    assert!(display_width(&line_text(&selected)) <= 40);
}

#[test]
fn disk_label_prefers_mount_component_over_device_node() {
    let disk = disk("/dev/disk3s1", "/Volumes/Projects", 100, 50);
    assert_eq!(disk_label(&disk), "Projects  /Volumes/Projects (/dev/disk3s1)");
}

#[test]
fn file_window_bounds_scrolls_to_keep_selection_visible() {
    assert_eq!(file_window_bounds(0, 100, 0, 10), (0, 10));
    assert_eq!(file_window_bounds(9, 100, 0, 10), (0, 10));
    assert_eq!(file_window_bounds(10, 100, 0, 10), (1, 11));
    assert_eq!(file_window_bounds(50, 100, 40, 10), (41, 51));
}

#[test]
fn modal_window_bounds_keeps_selection_visible() {
    assert_eq!(modal_window_bounds(0, 50, 0, 10), (0, 10));
    assert_eq!(modal_window_bounds(12, 50, 0, 10), (3, 13));
    assert_eq!(modal_window_bounds(49, 50, 3, 10), (40, 50));
}

#[test]
fn disk_filter_hides_macos_system_volumes() {
    assert!(!should_show_disk_mount("/System/Volumes/VM", "apfs"));
    assert!(!should_show_disk_mount("/System/Volumes/Data", "apfs"));
    assert!(!should_show_disk_mount("/private/var/run", "apfs"));
    assert!(!should_show_disk_mount("/dev", "devfs"));
    assert!(should_show_disk_mount("/", "apfs"));
    assert!(should_show_disk_mount("/Volumes/External", "apfs"));
}

#[test]
fn human_formats_binary_units() {
    assert_eq!(human(0), "0 B");
    assert_eq!(human(1023), "1023 B");
    assert_eq!(human(1024), "1.0 KiB");
    assert_eq!(human(10 * 1024), "10 KiB");
    assert_eq!(human(5 * 1024 * 1024), "5.0 MiB");
}

#[test]
fn sizes_are_rounded_as_doubles_are() {
    for bytes in [1u64, 1535, 1536, 99_999, 10_485_759, 123_456_789_012, u64::MAX] {
        let mut value = bytes as f64;
        let mut unit = 0;
        let units = ["B", "KiB", "MiB", "GiB", "TiB", "PiB"];
        while value >= 1024.0 && unit < 5 {
            value /= 1024.0;
            unit += 1;
        }
        let expected = if unit == 0 {
            format!("{bytes} B")
        } else if value >= 10.0 {
            format!("{value:.0} {}", units[unit])
        } else {
            format!("{value:.1} {}", units[unit])
        };
        assert_eq!(human(bytes), expected);
    }
    for (part, whole) in [(1u64, 3u64), (2, 3), (199, 200), (u64::MAX - 1, u64::MAX)] {
        let expected = (part as f64 / whole as f64 * 100.0) as u16;
        assert_eq!(share_percent(part, whole), expected);
    }
    assert_eq!(rounded_percent(1, 3), 33);
    assert_eq!(rounded_percent(7, 0), 0);
}

#[test]
fn times_are_told_in_words() {
    assert_eq!(format_elapsed(0), "just now");
    assert_eq!(format_elapsed(59), "59s ago");
    assert_eq!(format_elapsed(3_661), "1h 1m ago");
    assert_eq!(format_elapsed(90_000), "1d 1h ago");
}

#[test]
fn changes_are_told_by_age_or_day() {
    let day = |year, month, day| Some(LocalDate { year, month, day });
    let today = day(126, 5, 15);
    let at = |then, date| format_modified_time(Some(then), Some(5_000_000), today, date);
    assert_eq!(at(4_999_970, None), "30s");
    assert_eq!(at(4_990_000, None), "2h");
    assert_eq!(at(4_000_000, None), "11d");
    assert_eq!(at(1_000_000, day(126, 0, 3)), "Jan 3");
    assert_eq!(at(1_000_000, day(125, 10, 3)), "2025-11-03");
    assert_eq!(at(1_000_000, None), "?");
    assert_eq!(format_modified_time(None, Some(1), today, today), "?");
}

#[test]
fn activity_moves_along_its_bar() {
    assert_eq!(activity_width(100), 20);
    assert_eq!(activity_width(5), 10);
    assert_eq!(activity_bar(3, 1), "  · ● ·  ");
    assert_ne!(spinner_char(0), spinner_char(60));
}

#[test]
fn keymap_includes_help_binding() {
    assert!(help_sections()
        .iter()
        .flat_map(|section| section.bindings.iter())
        .any(|binding| binding.key == "?"));
}

#[test]
fn help_binding_has_a_footer_hint() {
    let sections = help_sections();
    let help = sections[0].bindings.iter().find(|binding| binding.key == "?").unwrap();
    assert_eq!(help.footer.map(|footer| footer.action), Some("help"));
}

#[test]
fn focus_footer_is_focused_and_short() {
    // Files footer carries file actions, not package/reclaim noise.
    let files: Vec<&str> = footer_bindings_for(Focus::Files).iter().map(|fb| fb.key).collect();
    assert!(files.contains(&"/"));
    assert!(files.contains(&"S"));
    assert!(!files.contains(&"R"), "reclaim key leaked into Files footer");

    // Reclaim footer carries reclaim actions.
    let reclaim: Vec<&str> = footer_bindings_for(Focus::Reclaim).iter().map(|fb| fb.key).collect();
    assert!(reclaim.contains(&"R"));
    assert!(reclaim.contains(&"E"));

    // Packages footer carries package actions.
    let packages: Vec<&str> =
        footer_bindings_for(Focus::Packages).iter().map(|fb| fb.key).collect();
    assert!(packages.contains(&"p"));
    assert!(packages.contains(&"u"));

    // No focus produces a duplicate key, and `?` is left to the renderer.
    for focus in [Focus::Files, Focus::Disks, Focus::Packages, Focus::Reclaim] {
        let keys: Vec<&str> = footer_bindings_for(focus).iter().map(|fb| fb.key).collect();
        let mut deduped = keys.clone();
        deduped.sort_unstable();
        deduped.dedup();
        assert_eq!(keys.len(), deduped.len(), "duplicate footer key for {focus:?}");
        assert!(!keys.contains(&"?"));
    }
}

#[test]
fn the_footer_always_ends_in_help() {
    for width in [12u16, 40, 200] {
        let text = line_text(&draw_help(Focus::Files, width));
        assert!(text.trim_end().ends_with("help"));
    }
}

#[test]
fn destructive_keys_are_flagged() {
    assert!(is_destructive_key("d"));
    assert!(is_destructive_key("E"));
    assert!(is_destructive_key("x"));
    assert!(!is_destructive_key("r"));
    assert!(!is_destructive_key("S"));
}

#[test]
fn readme_documents_every_keymap_key() {
    for section in help_sections() {
        for binding in section.bindings {
            assert!(
                README.contains(binding.key),
                "README key table is missing keymap binding `{}`",
                binding.key
            );
        }
    }
}

#[test]
fn readme_runtime_claims_stay_truthful() {
    assert!(!README.contains("no serde"), "README still claims 'no serde'");
    assert!(README.contains("serde_json"), "README should name the serde_json dependency");
}
