//! The entries of a directory: their order, the search among them, and which
//! of them are scanned next.

use crate::bulkstat;
use crate::sorting;
use crate::text;
use vstd::prelude::*;

verus! {

// ---------------------------------------------------------------------------
// Natural order
// ---------------------------------------------------------------------------

/// How many digits a text starts with.
pub open spec fn digit_count(s: Seq<char>) -> nat
    decreases s.len(),
{
    if s.len() > 0 && text::is_digit(s[0]) {
        1 + digit_count(s.subrange(1, s.len() as int))
    } else {
        0
    }
}

/// The digits that a text starts with.
pub open spec fn digit_run(s: Seq<char>) -> Seq<char> {
    s.subrange(0, digit_count(s) as int)
}

/// What follows the digits that a text starts with.
pub open spec fn after_digits(s: Seq<char>) -> Seq<char> {
    s.subrange(digit_count(s) as int, s.len() as int)
}

/// Digits without leading zeros; of zero one digit is left.
pub open spec fn significant(d: Seq<char>) -> Seq<char>
    decreases d.len(),
{
    if d.len() > 1 && d[0] == '0' {
        significant(d.subrange(1, d.len() as int))
    } else {
        d
    }
}

/// A number comes before another: a smaller one, or an equal one with fewer
/// leading zeros.
pub open spec fn number_less(a: Seq<char>, b: Seq<char>) -> bool {
    let (x, y) = (significant(a), significant(b));
    if x.len() != y.len() {
        x.len() < y.len()
    } else if x != y {
        text::text_less(x, y)
    } else {
        a.len() < b.len()
    }
}

/// Both texts start with a digit.
pub open spec fn both_digits(a: Seq<char>, b: Seq<char>) -> bool {
    text::is_digit(a[0]) && text::is_digit(b[0])
}

/// The order of names in which runs of digits count as numbers.
pub open spec fn natural_less(a: Seq<char>, b: Seq<char>) -> bool
    decreases a.len(),
{
    if b.len() == 0 {
        false
    } else if a.len() == 0 {
        true
    } else if both_digits(a, b) {
        let (x, y) = (digit_run(a), digit_run(b));
        if significant(x) == significant(y) && x.len() == y.len() {
            proof {
                digit_count_bound(a);
            }
            natural_less(after_digits(a), after_digits(b))
        } else {
            number_less(x, y)
        }
    } else if a[0] != b[0] {
        a[0] < b[0]
    } else {
        natural_less(a.subrange(1, a.len() as int), b.subrange(1, b.len() as int))
    }
}

/// The digits are part of the text.
pub proof fn digit_count_bound(s: Seq<char>)
    ensures
        digit_count(s) <= s.len(),
        s.len() > 0 && text::is_digit(s[0]) ==> digit_count(s) >= 1,
    decreases s.len(),
{
    if s.len() > 0 && text::is_digit(s[0]) {
        digit_count_bound(s.subrange(1, s.len() as int));
    }
}

/// Digits are their significant ones behind zeros.
proof fn significant_is_tail(d: Seq<char>)
    ensures
        significant(d).len() <= d.len(),
        significant(d) == d.subrange(d.len() - significant(d).len(), d.len() as int),
        forall|i: int| 0 <= i < d.len() - significant(d).len() ==> #[trigger] d[i] == '0',
    decreases d.len(),
{
    if d.len() > 1 && d[0] == '0' {
        let rest = d.subrange(1, d.len() as int);
        significant_is_tail(rest);
        let k = significant(d).len();
        assert(rest.subrange(rest.len() - k, rest.len() as int) =~= d.subrange(
            d.len() - k,
            d.len() as int,
        ));
        assert forall|i: int| 0 <= i < d.len() - k implies #[trigger] d[i] == '0' by {
            if i > 0 {
                assert(rest[i - 1] == d[i]);
            }
        }
    } else {
        assert(d.subrange(0, d.len() as int) =~= d);
    }
}

/// Equal numbers with equally many digits are the same digits.
proof fn same_number_same_digits(x: Seq<char>, y: Seq<char>)
    requires
        significant(x) == significant(y),
        x.len() == y.len(),
    ensures
        x == y,
{
    significant_is_tail(x);
    significant_is_tail(y);
    let k = x.len() - significant(x).len();
    assert forall|i: int| 0 <= i < x.len() implies x[i] == y[i] by {
        if i >= k {
            assert(significant(x)[i - k] == x[i]);
            assert(significant(y)[i - k] == y[i]);
        }
    }
    assert(x =~= y);
}

/// Of two names exactly one comes before the other, unless they are the same.
pub proof fn natural_order_total(a: Seq<char>, b: Seq<char>)
    ensures
        !(natural_less(a, b) && natural_less(b, a)),
        a != b ==> natural_less(a, b) || natural_less(b, a),
        a == b ==> !natural_less(a, b),
    decreases a.len(),
{
    if a.len() == 0 || b.len() == 0 {
        assert(a.len() == 0 && b.len() == 0 ==> a =~= b);
    } else if both_digits(a, b) {
        let (x, y) = (digit_run(a), digit_run(b));
        digit_count_bound(a);
        digit_count_bound(b);
        text::text_order_total(significant(x), significant(y));
        if significant(x) == significant(y) && x.len() == y.len() {
            same_number_same_digits(x, y);
            natural_order_total(after_digits(a), after_digits(b));
            assert(a =~= x + after_digits(a));
            assert(b =~= y + after_digits(b));
        }
    } else if a[0] == b[0] {
        let (p, q) = (a.subrange(1, a.len() as int), b.subrange(1, b.len() as int));
        natural_order_total(p, q);
        assert(a =~= seq![a[0]] + p);
        assert(b =~= seq![b[0]] + q);
    }
}

proof fn number_less_transitive(a: Seq<char>, b: Seq<char>, c: Seq<char>)
    requires
        number_less(a, b),
        number_less(b, c),
    ensures
        number_less(a, c),
        !(significant(a) == significant(c) && a.len() == c.len()),
{
    let (x, y, z) = (significant(a), significant(b), significant(c));
    text::text_order_total(x, y);
    text::text_order_total(y, z);
    text::text_order_total(x, z);
    if text::text_less(x, y) && text::text_less(y, z) {
        text::text_order_transitive(x, y, z);
    }
}

/// The order of names is transitive.
pub proof fn natural_order_transitive(a: Seq<char>, b: Seq<char>, c: Seq<char>)
    requires
        natural_less(a, b),
        natural_less(b, c),
    ensures
        natural_less(a, c),
    decreases a.len(),
{
    if a.len() > 0 && b.len() > 0 && c.len() > 0 {
        digit_count_bound(a);
        digit_count_bound(b);
        digit_count_bound(c);
        if both_digits(a, b) && both_digits(b, c) {
            let (x, y, z) = (digit_run(a), digit_run(b), digit_run(c));
            let ab = significant(x) == significant(y) && x.len() == y.len();
            let bc = significant(y) == significant(z) && y.len() == z.len();
            if ab && bc {
                natural_order_transitive(after_digits(a), after_digits(b), after_digits(c));
            } else if !ab && !bc {
                number_less_transitive(x, y, z);
            }
        } else if !both_digits(a, b) && !both_digits(b, c) && a[0] == b[0] && b[0] == c[0] {
            natural_order_transitive(
                a.subrange(1, a.len() as int),
                b.subrange(1, b.len() as int),
                c.subrange(1, c.len() as int),
            );
        }
    }
}

/// Being no later is transitive in the order of names.
proof fn natural_order_weak(a: Seq<char>, b: Seq<char>, c: Seq<char>)
    ensures
        !(natural_less(a, b) && natural_less(b, a)),
        !natural_less(b, a) && !natural_less(c, b) ==> !natural_less(c, a),
{
    natural_order_total(a, b);
    natural_order_total(b, c);
    if natural_less(c, a) && natural_less(a, b) {
        natural_order_transitive(c, a, b);
    }
}

/// Where the run of digits at `from` ends.
fn run_end(chars: &Vec<char>, from: usize) -> (end: usize)
    requires
        from <= chars@.len(),
    ensures
        end == from + digit_count(chars@.subrange(from as int, chars@.len() as int)),
        from <= end <= chars@.len(),
{
    let n: usize = chars.len();
    let mut end: usize = from;
    while end < n && text::is_ascii_digit(chars[end])
        invariant
            from <= end <= n,
            n == chars@.len(),
            digit_count(chars@.subrange(from as int, n as int)) == (end - from) + digit_count(
                chars@.subrange(end as int, n as int),
            ),
        decreases n - end,
    {
        let ghost here = chars@.subrange(end as int, n as int);
        assert(here[0] == chars@[end as int]);
        assert(here.subrange(1, here.len() as int) =~= chars@.subrange(end + 1, n as int));
        end += 1;
    }
    end
}

/// Where the significant digits of a run start.
fn significant_start(chars: &Vec<char>, from: usize, to: usize) -> (start: usize)
    requires
        from <= to <= chars@.len(),
    ensures
        from <= start <= to,
        chars@.subrange(start as int, to as int) == significant(
            chars@.subrange(from as int, to as int),
        ),
{
    let mut start: usize = from;
    while start < to && to - start > 1 && chars[start] == '0'
        invariant
            from <= start <= to <= chars@.len(),
            significant(chars@.subrange(from as int, to as int)) == significant(
                chars@.subrange(start as int, to as int),
            ),
        decreases to - start,
    {
        let ghost here = chars@.subrange(start as int, to as int);
        assert(here[0] == chars@[start as int]);
        assert(here.subrange(1, here.len() as int) =~= chars@.subrange(start + 1, to as int));
        start += 1;
    }
    start
}

/// Whether a name comes before another in natural order.
pub fn natural_is_less(a: &str, b: &str) -> (r: bool)
    ensures
        r == natural_less(a@, b@),
{
    let x = text::chars_of(a);
    let y = text::chars_of(b);
    let n: usize = x.len();
    let m: usize = y.len();
    let mut i: usize = 0;
    let mut j: usize = 0;
    assert(x@.subrange(0, n as int) =~= a@);
    assert(y@.subrange(0, m as int) =~= b@);
    while i < n && j < m
        invariant
            i <= n,
            j <= m,
            n == x@.len(),
            m == y@.len(),
            natural_less(a@, b@) == natural_less(
                x@.subrange(i as int, n as int),
                y@.subrange(j as int, m as int),
            ),
        decreases n - i,
    {
        let ghost p = x@.subrange(i as int, n as int);
        let ghost q = y@.subrange(j as int, m as int);
        let c: char = x[i];
        let d: char = y[j];
        assert(p[0] == c && q[0] == d);
        if text::is_ascii_digit(c) && text::is_ascii_digit(d) {
            let i_end: usize = run_end(&x, i);
            let j_end: usize = run_end(&y, j);
            let ghost run_p = x@.subrange(i as int, i_end as int);
            let ghost run_q = y@.subrange(j as int, j_end as int);
            proof {
                digit_count_bound(p);
                digit_count_bound(q);
                assert(digit_run(p) =~= run_p);
                assert(digit_run(q) =~= run_q);
                assert(after_digits(p) =~= x@.subrange(i_end as int, n as int));
                assert(after_digits(q) =~= y@.subrange(j_end as int, m as int));
            }
            let i_sig: usize = significant_start(&x, i, i_end);
            let j_sig: usize = significant_start(&y, j, j_end);
            assert(significant(run_p).len() == i_end - i_sig);
            assert(significant(run_q).len() == j_end - j_sig);
            if i_end - i_sig != j_end - j_sig {
                return i_end - i_sig < j_end - j_sig;
            }
            let s = text::text_of_range(&x, i_sig, i_end);
            let t = text::text_of_range(&y, j_sig, j_end);
            if !text::same_text(s.as_str(), t.as_str()) {
                return text::text_is_less(s.as_str(), t.as_str());
            }
            if i_end - i != j_end - j {
                return i_end - i < j_end - j;
            }
            i = i_end;
            j = j_end;
        } else if c != d {
            return c < d;
        } else {
            assert(p.subrange(1, p.len() as int) =~= x@.subrange(i + 1, n as int));
            assert(q.subrange(1, q.len() as int) =~= y@.subrange(j + 1, m as int));
            i += 1;
            j += 1;
        }
    }
    j < m
}

// ---------------------------------------------------------------------------
// Entries
// ---------------------------------------------------------------------------

/// How entries are sorted.
#[derive(Clone, Copy, Debug, PartialEq, Eq, Structural)]
pub enum SortMode {
    Name,
    SizeDesc,
    Modified,
}

impl SortMode {
    pub open spec fn name(self) -> Seq<char> {
        match self {
            SortMode::Name => "name"@,
            SortMode::SizeDesc => "size ↓"@,
            SortMode::Modified => "mtime"@,
        }
    }

    pub fn label(self) -> (r: &'static str)
        ensures
            r@ == self.name(),
    {
        match self {
            SortMode::Name => "name",
            SortMode::SizeDesc => "size ↓",
            SortMode::Modified => "mtime",
        }
    }

    /// The mode that follows.
    pub open spec fn successor(self) -> SortMode {
        match self {
            SortMode::Name => SortMode::SizeDesc,
            SortMode::SizeDesc => SortMode::Modified,
            SortMode::Modified => SortMode::Name,
        }
    }

    pub fn next(self) -> (r: SortMode)
        ensures
            r == self.successor(),
    {
        match self {
            SortMode::Name => SortMode::SizeDesc,
            SortMode::SizeDesc => SortMode::Modified,
            SortMode::Modified => SortMode::Name,
        }
    }
}

/// An entry of the directory at hand. The time of its last change counts in
/// nanoseconds from the epoch.
#[derive(Debug)]
pub struct Entry {
    pub name: String,
    pub name_lower: String,
    pub path: String,
    pub is_dir: bool,
    pub is_symlink: bool,
    pub size: Option<bulkstat::SizeInfo>,
    pub size_stale: bool,
    pub cached_at: Option<u64>,
    pub inaccessible: u32,
    pub skipped_mounts: u32,
    pub modified: Option<i128>,
    pub scanning: bool,
}

#[verifier::ext_equal]
pub struct EntryV {
    pub name: Seq<char>,
    pub name_lower: Seq<char>,
    pub path: Seq<char>,
    pub is_dir: bool,
    pub is_symlink: bool,
    pub size: Option<bulkstat::SizeInfo>,
    pub size_stale: bool,
    pub cached_at: Option<u64>,
    pub inaccessible: u32,
    pub skipped_mounts: u32,
    pub modified: Option<i128>,
    pub scanning: bool,
}

impl View for Entry {
    type V = EntryV;

    open spec fn view(&self) -> EntryV {
        EntryV {
            name: self.name@,
            name_lower: self.name_lower@,
            path: self.path@,
            is_dir: self.is_dir,
            is_symlink: self.is_symlink,
            size: self.size,
            size_stale: self.size_stale,
            cached_at: self.cached_at,
            inaccessible: self.inaccessible,
            skipped_mounts: self.skipped_mounts,
            modified: self.modified,
            scanning: self.scanning,
        }
    }
}

impl Clone for Entry {
    fn clone(&self) -> (r: Entry)
        ensures
            r@ == self@,
    {
        Entry {
            name: self.name.clone(),
            name_lower: self.name_lower.clone(),
            path: self.path.clone(),
            is_dir: self.is_dir,
            is_symlink: self.is_symlink,
            size: self.size,
            size_stale: self.size_stale,
            cached_at: self.cached_at,
            inaccessible: self.inaccessible,
            skipped_mounts: self.skipped_mounts,
            modified: self.modified,
            scanning: self.scanning,
        }
    }
}

/// The figure by which sizes are sorted: the room that is taken.
pub fn size_sort_key(size: bulkstat::SizeInfo) -> (r: u64)
    ensures
        r == size.allocated,
{
    size.allocated
}

/// The room that an entry takes, as far as it is known.
pub open spec fn room_of(e: EntryV) -> u64 {
    match e.size {
        Some(size) => size.allocated,
        None => 0,
    }
}

fn room(e: &Entry) -> (r: u64)
    ensures
        r == room_of(e@),
{
    match e.size {
        Some(size) => size_sort_key(size),
        None => 0,
    }
}

/// A time is later than another; none is the earliest.
pub open spec fn is_later(a: Option<i128>, b: Option<i128>) -> bool {
    match (a, b) {
        (Some(x), Some(y)) => x > y,
        (Some(_), None) => true,
        _ => false,
    }
}

/// Entries by name with directories first, or by size with the largest first,
/// or by time with the latest first.
pub struct EntryOrder {
    pub mode: SortMode,
}

impl sorting::Order<EntryV> for EntryOrder {
    open spec fn before(&self, a: EntryV, b: EntryV) -> bool {
        match self.mode {
            SortMode::Name => if a.is_dir != b.is_dir {
                a.is_dir
            } else {
                natural_less(a.name_lower, b.name_lower)
            },
            SortMode::SizeDesc => room_of(a) > room_of(b),
            SortMode::Modified => is_later(a.modified, b.modified),
        }
    }

    proof fn is_order(&self, a: EntryV, b: EntryV, c: EntryV) {
        natural_order_weak(a.name_lower, b.name_lower, c.name_lower);
    }
}

impl sorting::Arranged<Entry> for EntryOrder {
    fn goes_before(&self, a: &Entry, b: &Entry) -> (r: bool) {
        match self.mode {
            SortMode::Name => if a.is_dir != b.is_dir {
                a.is_dir
            } else {
                natural_is_less(a.name_lower.as_str(), b.name_lower.as_str())
            },
            SortMode::SizeDesc => room(a) > room(b),
            SortMode::Modified => match (a.modified, b.modified) {
                (Some(x), Some(y)) => x > y,
                (Some(_), None) => true,
                _ => false,
            },
        }
    }
}

/// The entries in the order of a mode.
pub open spec fn sorted_entries(mode: SortMode, list: Seq<EntryV>) -> Seq<EntryV> {
    sorting::arranged(&EntryOrder { mode }, list)
}

pub fn sort_entries(mode: SortMode, list: Vec<Entry>) -> (r: Vec<Entry>)
    ensures
        sorting::views(r@) == sorted_entries(mode, sorting::views(list@)),
{
    let order = EntryOrder { mode };
    sorting::arrange(&order, list)
}

// ---------------------------------------------------------------------------
// Places
// ---------------------------------------------------------------------------

/// The place of the first entry with that path, or the number of entries.
pub open spec fn place_of(list: Seq<EntryV>, path: Seq<char>) -> nat
    decreases list.len(),
{
    if list.len() == 0 || list[0].path == path {
        0
    } else {
        1 + place_of(list.subrange(1, list.len() as int), path)
    }
}

pub fn find_entry(list: &Vec<Entry>, path: &str) -> (r: Option<usize>)
    ensures
        match r {
            Some(i) => i == place_of(sorting::views(list@), path@) && i < list@.len(),
            None => place_of(sorting::views(list@), path@) == list@.len(),
        },
{
    let ghost all = sorting::views(list@);
    let n: usize = list.len();
    let mut i: usize = 0;
    assert(all.subrange(0, n as int) =~= all);
    while i < n
        invariant
            i <= n,
            n == list@.len(),
            all == sorting::views(list@),
            place_of(all, path@) == i + place_of(all.subrange(i as int, n as int), path@),
        decreases n - i,
    {
        let ghost here = all.subrange(i as int, n as int);
        assert(here[0] == list@[i as int]@);
        assert(here.subrange(1, here.len() as int) =~= all.subrange(i + 1, n as int));
        if text::same_text(list[i].path.as_str(), path) {
            return Some(i);
        }
        i += 1;
    }
    None
}

// ---------------------------------------------------------------------------
// Search
// ---------------------------------------------------------------------------

/// The places of the entries among the first `count` whose name holds the text.
pub open spec fn matches_among(list: Seq<EntryV>, query: Seq<char>, count: nat) -> Seq<usize>
    decreases count,
{
    if count == 0 {
        Seq::empty()
    } else {
        let before = matches_among(list, query, (count - 1) as nat);
        if text::has_part(list[count - 1].name_lower, query) {
            before.push((count - 1) as usize)
        } else {
            before
        }
    }
}

/// The places of the entries whose name holds the text, whatever its case.
pub open spec fn matches_of(list: Seq<EntryV>, query: Seq<char>) -> Seq<usize> {
    matches_among(list, text::lowercase(query), list.len())
}

pub fn find_matches(list: &Vec<Entry>, query: &str) -> (r: Vec<usize>)
    ensures
        r@ == matches_of(sorting::views(list@), query@),
{
    let wanted = text::to_lower(query);
    let ghost all = sorting::views(list@);
    let mut r: Vec<usize> = Vec::new();
    let mut i: usize = 0;
    while i < list.len()
        invariant
            i <= list@.len(),
            all == sorting::views(list@),
            r@ == matches_among(all, wanted@, i as nat),
        decreases list@.len() - i,
    {
        assert(all[i as int] == list@[i as int]@);
        if text::contains_text(list[i].name_lower.as_str(), wanted.as_str()) {
            r.push(i);
        }
        i += 1;
    }
    r
}

// ---------------------------------------------------------------------------
// Scans
// ---------------------------------------------------------------------------

/// The entries from the selected one on, and then those before it.
pub open spec fn from_selected(list: Seq<EntryV>, selected: nat) -> Seq<EntryV> {
    if selected < list.len() {
        list.subrange(selected as int, list.len() as int) + list.subrange(0, selected as int)
    } else {
        list
    }
}

/// The paths of the directories among the entries that are wanted.
pub open spec fn wanted_dirs(list: Seq<EntryV>, wanted: Seq<Seq<char>>) -> Seq<Seq<char>>
    decreases list.len(),
{
    if list.len() == 0 {
        Seq::empty()
    } else {
        let before = wanted_dirs(list.drop_last(), wanted);
        let e = list.last();
        if e.is_dir && wanted.contains(e.path) {
            before.push(e.path)
        } else {
            before
        }
    }
}

/// The directories to scan: wanted ones, nearest to the selected entry first,
/// and no more than `limit`.
pub open spec fn candidates(
    list: Seq<EntryV>,
    selected: nat,
    limit: nat,
    wanted: Seq<Seq<char>>,
) -> Seq<Seq<char>> {
    sorting::first(wanted_dirs(from_selected(list, selected), wanted), limit)
}

proof fn wanted_dirs_grow(list: Seq<EntryV>, wanted: Seq<Seq<char>>, k: int)
    requires
        0 <= k <= list.len(),
    ensures
        wanted_dirs(list.take(k), wanted).len() <= wanted_dirs(list, wanted).len(),
        wanted_dirs(list, wanted).take(wanted_dirs(list.take(k), wanted).len() as int)
            == wanted_dirs(list.take(k), wanted),
    decreases list.len(),
{
    if k == list.len() {
        assert(list.take(k) =~= list);
        assert(wanted_dirs(list, wanted).take(wanted_dirs(list, wanted).len() as int)
            =~= wanted_dirs(list, wanted));
    } else {
        let shorter = list.drop_last();
        wanted_dirs_grow(shorter, wanted, k);
        assert(shorter.take(k) =~= list.take(k));
        let n = wanted_dirs(list.take(k), wanted).len() as int;
        assert(wanted_dirs(list, wanted).take(n) =~= wanted_dirs(shorter, wanted).take(n));
    }
}

pub fn scan_candidates(
    list: &Vec<Entry>,
    selected: usize,
    limit: usize,
    wanted: &Vec<String>,
) -> (r: Vec<String>)
    ensures
        text::texts(r@) == candidates(
            sorting::views(list@),
            selected as nat,
            limit as nat,
            text::texts(wanted@),
        ),
{
    let ghost all = sorting::views(list@);
    let ghost order = from_selected(all, selected as nat);
    let ghost names = text::texts(wanted@);
    let n: usize = list.len();
    let from: usize = if selected < n {
        selected
    } else {
        0
    };
    let mut r: Vec<String> = Vec::new();
    let mut i: usize = 0;
    assert(order.take(0) =~= Seq::<EntryV>::empty());
    assert(text::texts(r@) =~= Seq::<Seq<char>>::empty());
    while i < n && r.len() < limit
        invariant
            i <= n,
            n == list@.len(),
            from < n || n == 0,
            from == if selected < n {
                selected
            } else {
                0
            },
            all == sorting::views(list@),
            order == from_selected(all, selected as nat),
            names == text::texts(wanted@),
            r@.len() <= limit,
            text::texts(r@) == wanted_dirs(order.take(i as int), names),
        decreases n - i,
    {
        let at: usize = if i < n - from {
            from + i
        } else {
            i - (n - from)
        };
        let e = &list[at];
        proof {
            assert(order[i as int] == all[at as int]);
            assert(all[at as int] == e@);
            assert(order.take(i + 1).drop_last() =~= order.take(i as int));
            assert(order.take(i + 1).last() == e@);
        }
        if e.is_dir && text::list_has(wanted, e.path.as_str()) {
            let path = e.path.clone();
            proof {
                text::texts_push(r@, path);
            }
            r.push(path);
        }
        i += 1;
    }
    proof {
        assert(order.len() == n);
        wanted_dirs_grow(order, names, i as int);
        assert(order.take(order.len() as int) =~= order);
        if i == n {
            assert(wanted_dirs(order, names).take(r@.len() as int) =~= wanted_dirs(order, names));
        }
    }
    r
}

/// Sorting keeps the entries, each once, and those that rank alike in the order
/// they had.
pub proof fn sorting_keeps_the_entries(mode: SortMode, list: Seq<EntryV>)
    ensures
        sorted_entries(mode, list).len() == list.len(),
        sorted_entries(mode, list).to_multiset() == list.to_multiset(),
{
    sorting::arranged_keeps_items(&EntryOrder { mode }, list);
}

/// By name, directories come first and names follow in natural order; by size,
/// more allocated bytes come first, and what has no size counts as none; by
/// time, the latest change comes first, and what has no time comes last.
pub proof fn sorted_entries_are_in_order(list: Seq<EntryV>, i: int, j: int)
    requires
        0 <= i < j < list.len(),
    ensures
        ({
            let s = sorted_entries(SortMode::Name, list);
            &&& s[j].is_dir ==> s[i].is_dir
            &&& s[i].is_dir == s[j].is_dir ==> !natural_less(s[j].name_lower, s[i].name_lower)
        }),
        ({
            let s = sorted_entries(SortMode::SizeDesc, list);
            match s[j].size {
                Some(size) => size.allocated > 0 ==> s[i].size is Some
                    && s[i].size->0.allocated >= size.allocated,
                None => true,
            }
        }),
        ({
            let s = sorted_entries(SortMode::Modified, list);
            match s[j].modified {
                Some(time) => s[i].modified is Some && s[i].modified->0 >= time,
                None => true,
            }
        }),
{
    let (a, b, c) = (
        EntryOrder { mode: SortMode::Name },
        EntryOrder { mode: SortMode::SizeDesc },
        EntryOrder { mode: SortMode::Modified },
    );
    sorting::arranged_keeps_items(&a, list);
    sorting::arranged_keeps_items(&b, list);
    sorting::arranged_keeps_items(&c, list);
    sorting::arranged_is_arranged(&a, list);
    sorting::arranged_is_arranged(&b, list);
    sorting::arranged_is_arranged(&c, list);
    let s = sorted_entries(SortMode::Name, list);
    let t = sorted_entries(SortMode::SizeDesc, list);
    let u = sorted_entries(SortMode::Modified, list);
    assert(!sorting::Order::before(&a, s[j], s[i]));
    assert(!sorting::Order::before(&b, t[j], t[i]));
    assert(!sorting::Order::before(&c, u[j], u[i]));
}

/// A search finds the entries whose name, in lower case, holds the text in lower
/// case, and no others, in the order of the rows.
pub proof fn a_search_finds_every_match(list: Seq<EntryV>, query: Seq<char>)
    requires
        list.len() <= usize::MAX,
    ensures
        ({
            let found = matches_of(list, query);
            &&& forall|k: int|
                0 <= k < found.len() ==> (#[trigger] found[k]) < list.len() && text::has_part(
                    list[found[k] as int].name_lower,
                    text::lowercase(query),
                )
            &&& forall|k: int, l: int|
                0 <= k < l < found.len() ==> #[trigger] found[k] < #[trigger] found[l]
            &&& forall|i: int|
                0 <= i < list.len() && text::has_part(
                    (#[trigger] list[i]).name_lower,
                    text::lowercase(query),
                ) ==> found.contains(i as usize)
        }),
{
    matches_among_first(list, text::lowercase(query), list.len());
}

proof fn matches_among_first(list: Seq<EntryV>, query: Seq<char>, count: nat)
    requires
        count <= list.len() <= usize::MAX,
    ensures
        ({
            let found = matches_among(list, query, count);
            &&& forall|k: int|
                0 <= k < found.len() ==> (#[trigger] found[k]) < count && text::has_part(
                    list[found[k] as int].name_lower,
                    query,
                )
            &&& forall|k: int, l: int|
                0 <= k < l < found.len() ==> #[trigger] found[k] < #[trigger] found[l]
            &&& forall|i: int|
                0 <= i < count && text::has_part((#[trigger] list[i]).name_lower, query)
                    ==> found.contains(i as usize)
        }),
    decreases count,
{
    if count > 0 {
        let before = matches_among(list, query, (count - 1) as nat);
        let found = matches_among(list, query, count);
        matches_among_first(list, query, (count - 1) as nat);
        assert forall|i: int|
            0 <= i < count && text::has_part(
                (#[trigger] list[i]).name_lower,
                query,
            ) implies found.contains(i as usize) by {
            if i < count - 1 {
                assert(before.contains(i as usize));
                let k = choose|k: int| 0 <= k < before.len() && before[k] == i as usize;
                assert(found[k] == i as usize);
            } else {
                assert(found[before.len() as int] == i as usize);
            }
        }
    }
}

/// An entry is found by its path: at the first place that has it, or past the
/// end where none has.
pub proof fn entries_are_found_by_path(list: Seq<EntryV>, path: Seq<char>)
    ensures
        place_of(list, path) <= list.len(),
        place_of(list, path) < list.len() ==> list[place_of(list, path) as int].path == path,
        forall|i: int| 0 <= i < place_of(list, path) ==> (#[trigger] list[i]).path != path,
    decreases list.len(),
{
    if list.len() > 0 && list[0].path != path {
        let tail = list.subrange(1, list.len() as int);
        entries_are_found_by_path(tail, path);
        assert forall|i: int| 0 <= i < place_of(list, path) implies (#[trigger] list[i]).path
            != path by {
            if i > 0 {
                assert(list[i] == tail[i - 1]);
            }
        }
    }
}

/// The directories among the entries that are wanted: all of them, in order.
pub proof fn wanted_directories_are_found(list: Seq<EntryV>, wanted_paths: Seq<Seq<char>>)
    ensures
        wanted_dirs(list, wanted_paths) == list.filter(
            |e: EntryV|
                e.is_dir && wanted_paths.contains(e.path),
        ).map_values(
            |e: EntryV| e.path,
        ),
    decreases list.len(),
{
    reveal(Seq::filter);
    let wanted = |e: EntryV| e.is_dir && wanted_paths.contains(e.path);
    let shown = |e: EntryV| e.path;
    if list.len() == 0 {
        assert(list.filter(wanted).map_values(shown) =~= Seq::<Seq<char>>::empty());
    } else {
        let less = list.drop_last();
        let last = list.last();
        wanted_directories_are_found(less, wanted_paths);
        if wanted(last) {
            assert(list.filter(wanted).map_values(shown) =~= less.filter(wanted).map_values(
                shown,
            ).push(shown(last)));
        }
    }
}

/// A character that is no digit, in front of both names, does not change their
/// order; and where names begin with different characters that are not both
/// digits, those decide.
pub proof fn letters_are_compared_one_by_one(c: char, d: char, a: Seq<char>, b: Seq<char>)
    requires
        !text::is_digit(c),
    ensures
        natural_less(seq![c] + a, seq![c] + b) == natural_less(a, b),
        c != d ==> natural_less(seq![c] + a, seq![d] + b) == (c < d),
        c != d ==> natural_less(seq![d] + b, seq![c] + a) == (d < c),
{
    let (x, y, z) = (seq![c] + a, seq![c] + b, seq![d] + b);
    assert(x.subrange(1, x.len() as int) =~= a);
    assert(y.subrange(1, y.len() as int) =~= b);
    assert(x[0] == c && y[0] == c && z[0] == d);
}

spec fn tens(n: nat) -> nat
    decreases n,
{
    if n == 0 {
        1
    } else {
        10 * tens((n - 1) as nat)
    }
}

proof fn value_from_the_front(s: Seq<char>)
    requires
        s.len() > 0,
        text::all_digits(s),
    ensures
        text::digits_value(s) == text::digit_value(s[0]) * tens((s.len() - 1) as nat)
            + text::digits_value(s.subrange(1, s.len() as int)),
        text::digits_value(s) < tens(s.len()),
    decreases s.len(),
{
    let tail = s.subrange(1, s.len() as int);
    assert(text::is_digit(s[0]));
    let first = text::digit_value(s[0]);
    assert(first <= 9);
    if s.len() == 1 {
        assert(s.drop_last() =~= Seq::<char>::empty());
        assert(tail =~= Seq::<char>::empty());
        reveal_with_fuel(text::digits_value, 2);
        reveal_with_fuel(tens, 2);
        assert(first * 1 == first);
    } else {
        let less = s.drop_last();
        assert forall|i: int| 0 <= i < less.len() implies text::is_digit(#[trigger] less[i]) by {
            assert(less[i] == s[i]);
        }
        assert(text::is_digit(s[s.len() - 1]));
        value_from_the_front(less);
        assert(less.subrange(1, less.len() as int) =~= tail.drop_last());
        assert(less[0] == s[0] && tail.last() == s.last());
        let t = tens((less.len() - 1) as nat);
        let rest = text::digits_value(tail.drop_last());
        assert(tens(less.len()) == 10 * t);
        assert(tens(s.len()) == 10 * tens(less.len()));
        assert((first * t + rest) * 10 == first * (10 * t) + rest * 10) by (nonlinear_arith);
    }
}

proof fn digits_are_ordered_by_value(a: Seq<char>, b: Seq<char>)
    requires
        a.len() == b.len(),
        text::all_digits(a),
        text::all_digits(b),
    ensures
        text::text_less(a, b) <==> text::digits_value(a) < text::digits_value(b),
        a == b <==> text::digits_value(a) == text::digits_value(b),
    decreases a.len(),
{
    if a.len() == 0 {
        assert(a =~= b);
    } else {
        let (x, y) = (a.subrange(1, a.len() as int), b.subrange(1, b.len() as int));
        assert forall|i: int| 0 <= i < x.len() implies text::is_digit(#[trigger] x[i]) by {
            assert(x[i] == a[i + 1]);
        }
        assert forall|i: int| 0 <= i < y.len() implies text::is_digit(#[trigger] y[i]) by {
            assert(y[i] == b[i + 1]);
        }
        digits_are_ordered_by_value(x, y);
        value_from_the_front(a);
        value_from_the_front(b);
        if x.len() > 0 {
            value_from_the_front(x);
            value_from_the_front(y);
        } else {
            reveal_with_fuel(tens, 2);
        }
        let t = tens(x.len());
        assert(text::is_digit(a[0]) && text::is_digit(b[0]));
        let (p, q) = (text::digit_value(a[0]), text::digit_value(b[0]));
        let (u, v) = (text::digits_value(x), text::digits_value(y));
        assert(u < t && v < t);
        if p < q {
            assert(p * t + u < q * t + v) by (nonlinear_arith)
                requires
                    p + 1 <= q,
                    u < t,
                    0 <= v,
            ;
            assert(a[0] < b[0]);
        } else if q < p {
            assert(q * t + v < p * t + u) by (nonlinear_arith)
                requires
                    q + 1 <= p,
                    v < t,
                    0 <= u,
            ;
            assert(b[0] < a[0]);
        } else {
            assert(a[0] == b[0]);
            if x == y {
                assert(a =~= seq![a[0]] + x);
                assert(b =~= seq![b[0]] + y);
            }
        }
    }
}

proof fn significant_keeps_the_value(d: Seq<char>)
    requires
        text::all_digits(d),
    ensures
        text::all_digits(significant(d)),
        text::digits_value(significant(d)) == text::digits_value(d),
        significant(d).len() <= d.len(),
        d.len() > 0 ==> significant(d).len() > 0,
        significant(d).len() > 1 ==> significant(d)[0] != '0',
    decreases d.len(),
{
    if d.len() > 1 && d[0] == '0' {
        let tail = d.subrange(1, d.len() as int);
        assert forall|i: int| 0 <= i < tail.len() implies text::is_digit(#[trigger] tail[i]) by {
            assert(tail[i] == d[i + 1]);
        }
        significant_keeps_the_value(tail);
        value_from_the_front(d);
        assert(0 * tens((d.len() - 1) as nat) == 0);
    }
}

proof fn longer_is_larger(a: Seq<char>, b: Seq<char>)
    requires
        text::all_digits(a),
        text::all_digits(b),
        0 < a.len() < b.len(),
        b[0] != '0',
    ensures
        text::digits_value(a) < text::digits_value(b),
{
    value_from_the_front(a);
    value_from_the_front(b);
    tens_grow(a.len(), (b.len() - 1) as nat);
    assert(text::is_digit(b[0]));
    let t = tens((b.len() - 1) as nat);
    let p = text::digit_value(b[0]);
    assert(p >= 1);
    assert(p * t >= t) by (nonlinear_arith)
        requires
            p >= 1,
            t >= 0,
    ;
}

proof fn tens_grow(a: nat, b: nat)
    requires
        a <= b,
    ensures
        tens(a) <= tens(b),
    decreases b,
{
    if a < b {
        tens_grow(a, (b - 1) as nat);
    }
}

proof fn digits_to_the_end(s: Seq<char>)
    requires
        text::all_digits(s),
    ensures
        digit_count(s) == s.len(),
    decreases s.len(),
{
    if s.len() > 0 {
        let tail = s.subrange(1, s.len() as int);
        assert(text::is_digit(s[0]));
        assert forall|i: int| 0 <= i < tail.len() implies text::is_digit(#[trigger] tail[i]) by {
            assert(tail[i] == s[i + 1]);
        }
        digits_to_the_end(tail);
    }
}

/// Names that are numbers are ordered by their values, and those of one value by
/// their lengths.
pub proof fn numbers_are_ordered_by_value(a: Seq<char>, b: Seq<char>)
    requires
        text::all_digits(a) && a.len() > 0,
        text::all_digits(b) && b.len() > 0,
    ensures
        natural_less(a, b) <==> text::digits_value(a) < text::digits_value(b) || (
        text::digits_value(a) == text::digits_value(b) && a.len() < b.len()),
{
    digits_to_the_end(a);
    digits_to_the_end(b);
    significant_keeps_the_value(a);
    significant_keeps_the_value(b);
    assert(a.subrange(0, a.len() as int) =~= a);
    assert(b.subrange(0, b.len() as int) =~= b);
    assert(after_digits(a) =~= Seq::<char>::empty());
    assert(after_digits(b) =~= Seq::<char>::empty());
    assert(text::is_digit(a[0]) && text::is_digit(b[0]));
    let (x, y) = (significant(a), significant(b));
    if x.len() == y.len() {
        digits_are_ordered_by_value(x, y);
    } else if x.len() < y.len() {
        longer_is_larger(x, y);
    } else {
        longer_is_larger(y, x);
    }
    assert(!natural_less(Seq::empty(), Seq::empty()));
}

/// What is scanned first is what comes first from the selected entry on: no
/// wanted directory between it and the selected entry is left out, and there are
/// as many as the limit allows.
pub proof fn the_nearest_are_scanned_first(
    list: Seq<EntryV>,
    selected: nat,
    limit: nat,
    wanted: Seq<Seq<char>>,
)
    requires
        selected < list.len(),
    ensures
        ({
            let turned = list.subrange(selected as int, list.len() as int) + list.subrange(
                0,
                selected as int,
            );
            let all = turned.filter(|e: EntryV| e.is_dir && wanted.contains(e.path)).map_values(
                |e: EntryV| e.path,
            );
            &&& candidates(list, selected, limit, wanted).len() == if all.len() < limit {
                all.len()
            } else {
                limit
            }
            &&& forall|i: int|
                0 <= i < candidates(list, selected, limit, wanted).len() ==> #[trigger] candidates(
                    list,
                    selected,
                    limit,
                    wanted,
                )[i] == all[i]
        }),
{
    wanted_directories_are_found(from_selected(list, selected), wanted);
}

} // verus!
