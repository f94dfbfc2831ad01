//! Short texts and small rules that the panes share.

use crate::paths;
use crate::text;
use vstd::prelude::*;

verus! {

// ---------------------------------------------------------------------------
// Windows
// ---------------------------------------------------------------------------

pub open spec fn smaller(a: int, b: int) -> int {
    if a < b {
        a
    } else {
        b
    }
}

/// The rows of a list that are shown, from the first to behind the last: the
/// old window, moved just so far that the selected row is in it.
pub open spec fn window(selected: int, count: int, offset: int, max_rows: int) -> (int, int) {
    let rows = if max_rows < 1 {
        1
    } else {
        max_rows
    };
    if count == 0 {
        (0, 0)
    } else {
        let moved = if selected < offset {
            selected
        } else if selected >= offset + rows {
            selected + 1 - rows
        } else {
            offset
        };
        let start = smaller(moved, count - 1);
        (start, smaller(start + rows, count))
    }
}

pub fn modal_window_bounds(selected: usize, count: usize, offset: usize, max_rows: usize) -> (r: (
    usize,
    usize,
))
    ensures
        (r.0 as int, r.1 as int) == window(
            selected as int,
            count as int,
            offset as int,
            max_rows as int,
        ),
{
    let rows: usize = if max_rows < 1 {
        1
    } else {
        max_rows
    };
    if count == 0 {
        return (0, 0);
    }
    let moved: usize = if selected < offset {
        selected
    } else if selected - offset >= rows {
        selected - (rows - 1)
    } else {
        offset
    };
    let start: usize = if moved < count - 1 {
        moved
    } else {
        count - 1
    };
    let end: usize = if count - start > rows {
        start + rows
    } else {
        count
    };
    (start, end)
}

/// The selected row is always in the window, and the window is no longer than
/// asked for.
pub proof fn window_shows_selection(selected: int, count: int, offset: int, max_rows: int)
    requires
        0 <= selected < count,
        0 <= offset,
        0 <= max_rows,
    ensures
        ({
            let (start, end) = window(selected, count, offset, max_rows);
            0 <= start <= selected < end <= count && end - start <= if max_rows < 1 {
                1
            } else {
                max_rows
            }
        }),
{
}

// ---------------------------------------------------------------------------
// Times
// ---------------------------------------------------------------------------

/// How long ago something was.
pub open spec fn elapsed_text(secs: nat) -> Seq<char> {
    let days = secs / 86_400;
    let hours = (secs % 86_400) / 3_600;
    let minutes = (secs % 3_600) / 60;
    if secs == 0 {
        "just now"@
    } else if days > 0 {
        text::decimal(days) + "d "@ + text::decimal(hours) + "h ago"@
    } else if hours > 0 {
        text::decimal(hours) + "h "@ + text::decimal(minutes) + "m ago"@
    } else if minutes > 0 {
        text::decimal(minutes) + "m ago"@
    } else {
        text::decimal(secs) + "s ago"@
    }
}

pub fn format_elapsed(secs: u64) -> (r: String)
    ensures
        r@ == elapsed_text(secs as nat),
{
    if secs == 0 {
        return "just now".to_owned();
    }
    let days: u64 = secs / 86_400;
    let hours: u64 = (secs % 86_400) / 3_600;
    let minutes: u64 = (secs % 3_600) / 60;
    if days > 0 {
        let d = text::decimal_text(days);
        let h = text::decimal_text(hours);
        return text::join4(d.as_str(), "d ", h.as_str(), "h ago");
    }
    if hours > 0 {
        let h = text::decimal_text(hours);
        let m = text::decimal_text(minutes);
        return text::join4(h.as_str(), "h ", m.as_str(), "m ago");
    }
    if minutes > 0 {
        let m = text::decimal_text(minutes);
        return text::join2(m.as_str(), "m ago");
    }
    let s = text::decimal_text(secs);
    text::join2(s.as_str(), "s ago")
}

/// A day in local time, as the C library counts: years from 1900, months from
/// zero.
#[derive(Clone, Copy, Debug, PartialEq, Eq, Structural)]
pub struct LocalDate {
    pub year: i32,
    pub month: i32,
    pub day: i32,
}

/// The short name of a month.
pub open spec fn month_name(month: int) -> Option<Seq<char>> {
    if month == 0 {
        Some("Jan"@)
    } else if month == 1 {
        Some("Feb"@)
    } else if month == 2 {
        Some("Mar"@)
    } else if month == 3 {
        Some("Apr"@)
    } else if month == 4 {
        Some("May"@)
    } else if month == 5 {
        Some("Jun"@)
    } else if month == 6 {
        Some("Jul"@)
    } else if month == 7 {
        Some("Aug"@)
    } else if month == 8 {
        Some("Sep"@)
    } else if month == 9 {
        Some("Oct"@)
    } else if month == 10 {
        Some("Nov"@)
    } else if month == 11 {
        Some("Dec"@)
    } else {
        None
    }
}

fn find_month(month: i32) -> (r: Option<&'static str>)
    ensures
        match r {
            Some(name) => month_name(month as int) == Some(name@),
            None => month_name(month as int) is None,
        },
{
    if month == 0 {
        Some("Jan")
    } else if month == 1 {
        Some("Feb")
    } else if month == 2 {
        Some("Mar")
    } else if month == 3 {
        Some("Apr")
    } else if month == 4 {
        Some("May")
    } else if month == 5 {
        Some("Jun")
    } else if month == 6 {
        Some("Jul")
    } else if month == 7 {
        Some("Aug")
    } else if month == 8 {
        Some("Sep")
    } else if month == 9 {
        Some("Oct")
    } else if month == 10 {
        Some("Nov")
    } else if month == 11 {
        Some("Dec")
    } else {
        None
    }
}

/// A number with a minus where it is negative.
pub open spec fn signed_decimal(n: int) -> Seq<char> {
    if n < 0 {
        "-"@ + text::decimal((-n) as nat)
    } else {
        text::decimal(n as nat)
    }
}

pub fn signed_text(n: i64) -> (r: String)
    ensures
        r@ == signed_decimal(n as int),
{
    if n < 0 {
        let size: i128 = -(n as i128);
        let shown = text::decimal_text(size as u64);
        text::join2("-", shown.as_str())
    } else {
        text::decimal_text(n as u64)
    }
}

/// A number with zeros in front, up to a width in which a minus counts.
pub open spec fn zero_padded(n: int, width: nat) -> Seq<char> {
    let digits = text::decimal(
        (if n < 0 {
            -n
        } else {
            n
        }) as nat,
    );
    let sign = if n < 0 {
        "-"@
    } else {
        ""@
    };
    let missing = width - digits.len() - if n < 0 {
        1int
    } else {
        0
    };
    sign + text::repeated(
        '0',
        if missing > 0 {
            missing as nat
        } else {
            0
        },
    ) + digits
}

fn pad_zeros(n: i64, width: usize) -> (r: String)
    ensures
        r@ == zero_padded(n as int, width as nat),
{
    proof {
        reveal_strlit("-");
        reveal_strlit("");
    }
    let size: i128 = if n < 0 {
        -(n as i128)
    } else {
        n as i128
    };
    let digits = text::decimal_text(size as u64);
    let sign = if n < 0 {
        "-"
    } else {
        ""
    };
    let used: usize = text::chars_of(digits.as_str()).len();
    let room: usize = width.saturating_sub(
        if n < 0 {
            1
        } else {
            0
        },
    );
    let zeros = text::repeat_char('0', room.saturating_sub(used));
    text::join3(sign, zeros.as_str(), digits.as_str())
}

/// How long ago a file was changed, where that is less than a month; else the
/// day, without the year where it is this one.
pub open spec fn modified_text(
    modified: Option<u64>,
    now: Option<u64>,
    now_date: Option<LocalDate>,
    date: Option<LocalDate>,
) -> Seq<char> {
    match (modified, now) {
        (Some(then), Some(now)) => {
            let age = (now - then) as nat;
            if now >= then && age < 60 {
                text::decimal(age) + "s"@
            } else if now >= then && age < 3_600 {
                text::decimal(age / 60) + "m"@
            } else if now >= then && age < 86_400 {
                text::decimal(age / 3_600) + "h"@
            } else if now >= then && age < 2_592_000 {
                text::decimal(age / 86_400) + "d"@
            } else {
                match (now_date, date) {
                    (Some(today), Some(day)) => if today.year == day.year && month_name(
                        day.month as int,
                    ) is Some {
                        month_name(day.month as int)->0 + " "@ + signed_decimal(day.day as int)
                    } else {
                        zero_padded(day.year + 1900, 4) + "-"@ + zero_padded(day.month + 1, 2)
                            + "-"@ + zero_padded(day.day as int, 2)
                    },
                    _ => "?"@,
                }
            }
        },
        _ => "?"@,
    }
}

/// When a file was changed. The times count in seconds; one that is not known
/// or lies before the epoch is none, and so is a day that the system's calendar
/// does not give.
pub fn format_modified_time(
    modified: Option<u64>,
    now: Option<u64>,
    now_date: Option<LocalDate>,
    date: Option<LocalDate>,
) -> (r: String)
    ensures
        r@ == modified_text(modified, now, now_date, date),
{
    let (then, now) = match (modified, now) {
        (Some(then), Some(now)) => (then, now),
        _ => {
            return "?".to_owned();
        },
    };
    if now >= then {
        let age: u64 = now - then;
        if age < 60 {
            let n = text::decimal_text(age);
            return text::join2(n.as_str(), "s");
        }
        if age < 3_600 {
            let n = text::decimal_text(age / 60);
            return text::join2(n.as_str(), "m");
        }
        if age < 86_400 {
            let n = text::decimal_text(age / 3_600);
            return text::join2(n.as_str(), "h");
        }
        if age < 2_592_000 {
            let n = text::decimal_text(age / 86_400);
            return text::join2(n.as_str(), "d");
        }
    }
    let (today, day) = match (now_date, date) {
        (Some(today), Some(day)) => (today, day),
        _ => {
            return "?".to_owned();
        },
    };
    if today.year == day.year {
        match find_month(day.month) {
            Some(name) => {
                let n = signed_text(day.day as i64);
                return text::join3(name, " ", n.as_str());
            },
            None => {},
        }
    }
    let y = pad_zeros(day.year as i64 + 1900, 4);
    let m = pad_zeros(day.month as i64 + 1, 2);
    let d = pad_zeros(day.day as i64, 2);
    text::join5(y.as_str(), "-", m.as_str(), "-", d.as_str())
}

/// A second in local time, with its day.
#[derive(Clone, Copy, Debug, PartialEq, Eq, Structural)]
pub struct LocalTime {
    pub date: LocalDate,
    pub hour: i32,
    pub minute: i32,
    pub second: i32,
}

/// A time to the second; a question mark where none is known.
pub open spec fn full_timestamp_text(time: Option<LocalTime>) -> Seq<char> {
    match time {
        Some(t) => zero_padded(t.date.year + 1900, 4) + "-"@ + zero_padded(t.date.month + 1, 2)
            + "-"@ + zero_padded(t.date.day as int, 2) + " "@ + zero_padded(t.hour as int, 2) + ":"@
            + zero_padded(t.minute as int, 2) + ":"@ + zero_padded(t.second as int, 2),
        None => "?"@,
    }
}

/// A time to the second.
pub fn format_full_timestamp(time: Option<LocalTime>) -> (r: String)
    ensures
        r@ == full_timestamp_text(time),
{
    match time {
        Some(t) => {
            let year = pad_zeros(t.date.year as i64 + 1900, 4);
            let month = pad_zeros(t.date.month as i64 + 1, 2);
            let day = pad_zeros(t.date.day as i64, 2);
            let hour = pad_zeros(t.hour as i64, 2);
            let minute = pad_zeros(t.minute as i64, 2);
            let second = pad_zeros(t.second as i64, 2);
            let date = text::join5(year.as_str(), "-", month.as_str(), "-", day.as_str());
            let start = text::join5(date.as_str(), " ", hour.as_str(), ":", minute.as_str());
            text::join3(start.as_str(), ":", second.as_str())
        },
        None => "?".to_owned(),
    }
}

// ---------------------------------------------------------------------------
// Scans
// ---------------------------------------------------------------------------

/// What the status says of a scan of some directories among several.
pub open spec fn limited_text(action: Seq<char>, scanning: nat, total: nat) -> Seq<char> {
    if scanning >= total {
        action + ": "@ + text::decimal(total) + " directories"@
    } else {
        action + ": "@ + text::decimal(scanning) + "/"@ + text::decimal(total)
            + " directories · move or r to scan more"@
    }
}

pub fn limited_scan_status(action: &str, scanning: usize, total: usize) -> (r: String)
    ensures
        r@ == limited_text(action@, scanning as nat, total as nat),
{
    let all = text::decimal_text(total as u64);
    if scanning >= total {
        text::join4(action, ": ", all.as_str(), " directories")
    } else {
        let some = text::decimal_text(scanning as u64);
        let head = text::join5(action, ": ", some.as_str(), "/", all.as_str());
        text::join2(head.as_str(), " directories · move or r to scan more")
    }
}

/// What the status calls a directory: its name, or its path where it has none;
/// of a long one the end.
pub open spec fn path_label(path: Seq<char>) -> Seq<char> {
    let label = match paths::name_of(paths::path_of(path)) {
        Some(name) => name,
        None => path,
    };
    if label.len() <= 36 {
        label
    } else {
        "…"@ + label.subrange(label.len() - 35, label.len() as int)
    }
}

pub fn scan_path_label(path: &str) -> (r: String)
    ensures
        r@ == path_label(path@),
{
    let label = match paths::path_file_name(path) {
        Some(name) => name,
        None => path.to_owned(),
    };
    let chars = text::chars_of(label.as_str());
    if chars.len() <= 36 {
        return label;
    }
    let tail = text::text_of_range(&chars, chars.len() - 35, chars.len());
    text::join2("…", tail.as_str())
}

// ---------------------------------------------------------------------------
// Disks
// ---------------------------------------------------------------------------

/// A volume is shown unless the system keeps it for itself.
pub open spec fn is_shown_mount(mount: Seq<char>, fs_type: Seq<char>) -> bool {
    fs_type != "autofs"@ && fs_type != "devfs"@ && !text::has_prefix(mount, "/System/Volumes/"@)
        && !text::has_prefix(mount, "/private/var/"@)
}

pub fn should_show_disk_mount(mount: &str, fs_type: &str) -> (r: bool)
    ensures
        r == is_shown_mount(mount@, fs_type@),
{
    if text::same_text(fs_type, "autofs") || text::same_text(fs_type, "devfs") {
        return false;
    }
    !text::starts_with_text(mount, "/System/Volumes/") && !text::starts_with_text(
        mount,
        "/private/var/",
    )
}

// ---------------------------------------------------------------------------
// Laws
// ---------------------------------------------------------------------------

/// A span of time is shown in its two largest parts: the days, hours, minutes
/// and seconds that make it up.
pub proof fn spans_are_shown_in_their_parts(secs: nat) -> (r: (nat, nat, nat, nat))
    ensures
        ({
            let (d, h, m, s) = r;
            &&& d * 86_400 + h * 3_600 + m * 60 + s == secs
            &&& h < 24 && m < 60 && s < 60
            &&& elapsed_text(secs) == if secs == 0 {
                "just now"@
            } else if d > 0 {
                text::decimal(d) + "d "@ + text::decimal(h) + "h ago"@
            } else if h > 0 {
                text::decimal(h) + "h "@ + text::decimal(m) + "m ago"@
            } else if m > 0 {
                text::decimal(m) + "m ago"@
            } else {
                text::decimal(s) + "s ago"@
            }
        }),
{
    (secs / 86_400, (secs % 86_400) / 3_600, (secs % 3_600) / 60, secs % 60)
}

/// The age of a file that was changed less than thirty days ago is shown in the
/// largest unit that it reaches, in whole ones; the dates do not matter then.
pub proof fn ages_are_shown_in_whole_units(
    then: u64,
    age: nat,
    now_date: Option<LocalDate>,
    date: Option<LocalDate>,
) -> (n: nat)
    requires
        then + age <= u64::MAX,
        age < 30 * 24 * 60 * 60,
    ensures
        ({
            let shown = modified_text(Some(then), Some((then + age) as u64), now_date, date);
            if age < 60 {
                n == age && shown == text::decimal(n) + "s"@
            } else if age < 60 * 60 {
                n * 60 <= age < n * 60 + 60 && shown == text::decimal(n) + "m"@
            } else if age < 24 * 60 * 60 {
                n * 3_600 <= age < n * 3_600 + 3_600 && shown == text::decimal(n) + "h"@
            } else {
                n * 86_400 <= age < n * 86_400 + 86_400 && shown == text::decimal(n) + "d"@
            }
        }),
{
    if age < 60 {
        age
    } else if age < 3_600 {
        age / 60
    } else if age < 86_400 {
        age / 3_600
    } else {
        age / 86_400
    }
}

/// A number with zeros in front is as long as it should be, or as its digits
/// are, and is still read as that number.
pub proof fn zeros_in_front_change_nothing(n: nat, width: nat)
    ensures
        zero_padded(n as int, width).len() == if text::decimal(n).len() < width {
            width
        } else {
            text::decimal(n).len()
        },
        text::digits_value(zero_padded(n as int, width)) == n,
{
    reveal_strlit("");
    let digits = text::decimal(n);
    let zeros: nat = if width > digits.len() {
        (width - digits.len()) as nat
    } else {
        0
    };
    assert(zero_padded(n as int, width) =~= text::repeated('0', zeros) + digits);
    text::decimal_round_trip(n);
    zeros_add_nothing(zeros, digits);
}

proof fn zeros_add_nothing(zeros: nat, digits: Seq<char>)
    ensures
        text::digits_value(text::repeated('0', zeros) + digits) == text::digits_value(digits),
    decreases zeros + digits.len(),
{
    let s = text::repeated('0', zeros) + digits;
    if digits.len() > 0 {
        zeros_add_nothing(zeros, digits.drop_last());
        assert(s.drop_last() =~= text::repeated('0', zeros) + digits.drop_last());
        assert(s.last() == digits.last());
    } else if zeros > 0 {
        zeros_add_nothing((zeros - 1) as nat, digits);
        assert(s.drop_last() =~= text::repeated('0', (zeros - 1) as nat) + digits);
        assert(s.last() == '0');
    } else {
        assert(s =~= digits);
    }
}

} // verus!
