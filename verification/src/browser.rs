//! The files pane: the directory at hand, the search in it, the marks, and the
//! scans of its directories.

use crate::bulkstat;
use crate::cache;
use crate::entries;
use crate::history;
use crate::labels;
use crate::outbox;
use crate::packages;
use crate::reclaim;
use crate::sorting;
use crate::text;
use vstd::prelude::*;

verus! {

/// How many directories are sized without being asked for.
pub const AUTO_SCAN_LIMIT: usize = 4;

/// For how long results may come in before the entries are sorted anew, in
/// milliseconds.
pub const SORT_DEBOUNCE: u64 = 100;

/// The files pane.
pub struct Browser {
    pub cwd: String,
    pub entries: Vec<entries::Entry>,
    pub selected: usize,
    pub show_hidden: bool,
    pub sort: entries::SortMode,
    pub sort_dirty: bool,
    /// When the entries were last sorted, in milliseconds.
    pub last_sort: u64,
    pub list_offset: usize,
    pub page_rows: usize,
    pub search_mode: bool,
    pub search_query: String,
    pub search_matches: Vec<usize>,
    /// The marked paths, each once.
    pub marked: Vec<String>,
    pub active_scan_id: u64,
    pub scan_total: usize,
    pub scan_completed: usize,
}

#[verifier::ext_equal]
pub struct BrowserV {
    pub cwd: Seq<char>,
    pub entries: Seq<entries::EntryV>,
    pub selected: nat,
    pub show_hidden: bool,
    pub sort: entries::SortMode,
    pub sort_dirty: bool,
    pub last_sort: u64,
    pub list_offset: nat,
    pub page_rows: nat,
    pub search_mode: bool,
    pub search_query: Seq<char>,
    pub search_matches: Seq<usize>,
    pub marked: Seq<Seq<char>>,
    pub active_scan_id: u64,
    pub scan_total: nat,
    pub scan_completed: nat,
}

impl View for Browser {
    type V = BrowserV;

    open spec fn view(&self) -> BrowserV {
        BrowserV {
            cwd: self.cwd@,
            entries: sorting::views(self.entries@),
            selected: self.selected as nat,
            show_hidden: self.show_hidden,
            sort: self.sort,
            sort_dirty: self.sort_dirty,
            last_sort: self.last_sort,
            list_offset: self.list_offset as nat,
            page_rows: self.page_rows as nat,
            search_mode: self.search_mode,
            search_query: self.search_query@,
            search_matches: self.search_matches@,
            marked: text::texts(self.marked@),
            active_scan_id: self.active_scan_id,
            scan_total: self.scan_total as nat,
            scan_completed: self.scan_completed as nat,
        }
    }
}

// ---------------------------------------------------------------------------
// Entries that are scanned
// ---------------------------------------------------------------------------

/// The entries with those marked as being scanned whose path is in the list.
pub open spec fn with_scanning(list: Seq<entries::EntryV>, dirs: Seq<Seq<char>>) -> Seq<
    entries::EntryV,
> {
    list.map_values(
        |e: entries::EntryV| entries::EntryV { scanning: dirs.contains(e.path), ..e },
    )
}

fn set_scanning(list: &mut Vec<entries::Entry>, dirs: &Vec<String>)
    ensures
        sorting::views(final(list)@) == with_scanning(
            sorting::views(old(list)@),
            text::texts(dirs@),
        ),
{
    let ghost before = sorting::views(list@);
    let n: usize = list.len();
    let mut i: usize = 0;
    while i < n
        invariant
            i <= n,
            n == list@.len(),
            n == before.len(),
            forall|k: int|
                0 <= k < i ==> (#[trigger] list@[k])@ == with_scanning(
                    before,
                    text::texts(dirs@),
                )[k],
            forall|k: int| i <= k < n ==> (#[trigger] list@[k])@ == before[k],
        decreases n - i,
    {
        let scanning = text::list_has(dirs, list[i].path.as_str());
        let mut e = list[i].clone();
        e.scanning = scanning;
        list.set(i, e);
        i += 1;
    }
    assert(sorting::views(list@) =~= with_scanning(before, text::texts(dirs@)));
}

/// The paths of the directories that are to be sized: those without a size,
/// and where stale ones count, those with a stale size.
pub open spec fn unsized_dirs(list: Seq<entries::EntryV>, stale: bool) -> Seq<Seq<char>>
    decreases list.len(),
{
    if list.len() == 0 {
        Seq::empty()
    } else {
        let before = unsized_dirs(list.drop_last(), stale);
        let e = list.last();
        if e.is_dir && (e.size is None || (stale && e.size_stale)) {
            before.push(e.path)
        } else {
            before
        }
    }
}

fn find_unsized(list: &Vec<entries::Entry>, stale: bool) -> (r: Vec<String>)
    ensures
        text::texts(r@) == unsized_dirs(sorting::views(list@), stale),
{
    let ghost all = sorting::views(list@);
    let mut r: Vec<String> = Vec::new();
    let mut i: usize = 0;
    assert(all.take(0) =~= Seq::<entries::EntryV>::empty());
    assert(text::texts(r@) =~= Seq::<Seq<char>>::empty());
    while i < list.len()
        invariant
            i <= list@.len(),
            all == sorting::views(list@),
            text::texts(r@) == unsized_dirs(all.take(i as int), stale),
        decreases list@.len() - i,
    {
        let e = &list[i];
        assert(all.take(i + 1).drop_last() =~= all.take(i as int));
        assert(all.take(i + 1).last() == e@);
        if e.is_dir && (e.size.is_none() || (stale && e.size_stale)) {
            let path = e.path.clone();
            proof {
                text::texts_push(r@, path);
            }
            r.push(path);
        }
        i += 1;
    }
    assert(all.take(all.len() as int) =~= all);
    r
}

// ---------------------------------------------------------------------------
// The pane as it is shown
// ---------------------------------------------------------------------------

impl BrowserV {
    /// A search narrows the entries, be it still typed or kept.
    pub open spec fn is_searched(self) -> bool {
        self.search_query.len() > 0
    }

    /// How many rows there are.
    pub open spec fn row_count(self) -> nat {
        if self.is_searched() {
            self.search_matches.len()
        } else {
            self.entries.len()
        }
    }

    /// The place of the entry in a row.
    pub open spec fn place(self, row: int) -> Option<int> {
        if self.is_searched() {
            if 0 <= row < self.search_matches.len() && self.search_matches[row]
                < self.entries.len() {
                Some(self.search_matches[row] as int)
            } else {
                None
            }
        } else if 0 <= row < self.entries.len() {
            Some(row)
        } else {
            None
        }
    }

    /// The entry in a row.
    pub open spec fn entry(self, row: int) -> Option<entries::EntryV> {
        match self.place(row) {
            Some(i) => Some(self.entries[i]),
            None => None,
        }
    }

    /// The entry that is selected.
    pub open spec fn current(self) -> Option<entries::EntryV> {
        self.entry(self.selected as int)
    }

    /// The first row from `row` on that shows a path, or the number of rows.
    pub open spec fn row_of(self, path: Seq<char>, row: nat) -> nat
        decreases self.row_count() - row,
    {
        if row >= self.row_count() {
            self.row_count()
        } else if self.entry(row as int) is Some && self.entry(row as int)->0.path == path {
            row
        } else {
            self.row_of(path, row + 1)
        }
    }

    /// The pane with another row selected.
    pub open spec fn selecting(self, row: nat) -> BrowserV {
        BrowserV { selected: row, ..self }
    }

    // -----------------------------------------------------------------------
    // Scans
    // -----------------------------------------------------------------------

    /// The pane once directories are being scanned.
    pub open spec fn scanning(self, dirs: Seq<Seq<char>>) -> BrowserV {
        if dirs.len() == 0 {
            self
        } else {
            BrowserV {
                active_scan_id: outbox::next_id(self.active_scan_id),
                scan_total: dirs.len(),
                scan_completed: 0,
                entries: with_scanning(self.entries, dirs),
                ..self
            }
        }
    }

    /// What is said and asked for when directories are to be scanned.
    pub open spec fn scan_asked(
        self,
        out: outbox::OutboxV,
        dirs: Seq<Seq<char>>,
        status: Seq<char>,
    ) -> outbox::OutboxV {
        if dirs.len() == 0 {
            out.says("no directories to scan"@)
        } else {
            out.says(status).asks(
                outbox::RequestV::ScanDirs {
                    scan_id: outbox::next_id(self.active_scan_id),
                    dirs,
                },
            )
        }
    }

    /// The selected directory, where it has no fresh size and is not being
    /// scanned.
    pub open spec fn unsized_current(self) -> Option<entries::EntryV> {
        match self.current() {
            Some(e) => if e.is_dir && (e.size is None || e.size_stale) && !e.scanning {
                Some(e)
            } else {
                None
            },
            None => None,
        }
    }

    /// The pane once the selected directory is scanned where that is due.
    pub open spec fn current_scanned(self) -> BrowserV {
        match self.unsized_current() {
            Some(e) => self.scanning(seq![e.path]),
            None => self,
        }
    }

    pub open spec fn current_asked(self, out: outbox::OutboxV) -> outbox::OutboxV {
        match self.unsized_current() {
            Some(e) => self.scan_asked(
                out,
                seq![e.path],
                "scanning selected directory: "@ + e.name,
            ),
            None => out,
        }
    }

    // -----------------------------------------------------------------------
    // Moves
    // -----------------------------------------------------------------------

    pub open spec fn stepped(self, delta: int) -> BrowserV {
        if self.row_count() == 0 {
            self
        } else {
            self.selecting(
                outbox::wrapped_row(self.selected as int, delta, self.row_count() as int) as nat,
            )
        }
    }

    pub open spec fn paged(self, pages: int) -> BrowserV {
        if self.row_count() == 0 {
            self
        } else {
            let rows = if self.page_rows < 1 {
                1
            } else {
                self.page_rows as int
            };
            self.selecting(
                outbox::paged_row(
                    self.selected as int,
                    pages * rows,
                    self.row_count() as int,
                ) as nat,
            )
        }
    }

    pub open spec fn at_end(self) -> BrowserV {
        if self.row_count() == 0 {
            self
        } else {
            self.selecting((self.row_count() - 1) as nat)
        }
    }

    // -----------------------------------------------------------------------
    // Order
    // -----------------------------------------------------------------------

    pub open spec fn sorted(self, now: u64) -> BrowserV {
        BrowserV {
            entries: entries::sorted_entries(self.sort, self.entries),
            last_sort: now,
            sort_dirty: false,
            ..self
        }
    }

    /// The rows of a search found anew, with the first one selected.
    pub open spec fn searched(self) -> BrowserV {
        BrowserV {
            search_matches: entries::matches_of(self.entries, self.search_query),
            selected: 0,
            list_offset: 0,
            ..self
        }
    }

    /// The pane sorted anew, with the same entry selected.
    pub open spec fn resorted(self, now: u64) -> BrowserV {
        let after = self.sorted(now);
        let fallback = outbox::clamped(self.selected, self.entries.len());
        match self.current() {
            Some(e) => if self.is_searched() {
                let found = after.searched();
                let row = found.row_of(e.path, 0);
                found.selecting(
                    if row < found.row_count() {
                        row
                    } else {
                        0
                    },
                )
            } else {
                let row = after.row_of(e.path, 0);
                after.selecting(
                    if row < after.row_count() {
                        row
                    } else {
                        fallback
                    },
                )
            },
            None => after.selecting(fallback),
        }
    }

    // -----------------------------------------------------------------------
    // Search
    // -----------------------------------------------------------------------

    /// The pane without a search, with the same entry selected.
    pub open spec fn unsearched(self) -> BrowserV {
        let after = BrowserV {
            search_mode: false,
            search_query: Seq::empty(),
            search_matches: Seq::empty(),
            list_offset: 0,
            ..self
        };
        match self.current() {
            Some(e) => {
                let row = after.row_of(e.path, 0);
                if row < after.row_count() {
                    after.selecting(row)
                } else {
                    after
                }
            },
            None => after,
        }
    }

    /// The pane when a search begins.
    pub open spec fn searching(self) -> BrowserV {
        let start = if self.is_searched() {
            self.unsearched()
        } else {
            self
        };
        BrowserV {
            search_mode: true,
            search_query: Seq::empty(),
            search_matches: Seq::empty(),
            list_offset: 0,
            ..start
        }
    }

    pub open spec fn with_query(self, query: Seq<char>) -> BrowserV {
        let after = BrowserV { search_query: query, ..self };
        if query.len() == 0 {
            BrowserV { search_matches: Seq::empty(), selected: 0, list_offset: 0, ..after }
        } else {
            after.searched()
        }
    }
}

impl Browser {
    pub fn visible_entry_count(&self) -> (r: usize)
        ensures
            r == self@.row_count(),
    {
        if !self.search_query.as_str().is_empty() {
            self.search_matches.len()
        } else {
            self.entries.len()
        }
    }

    pub fn visible_entry_index(&self, visible_index: usize) -> (r: Option<usize>)
        ensures
            match r {
                Some(i) => self@.place(visible_index as int) == Some(i as int) && i
                    < self.entries@.len(),
                None => self@.place(visible_index as int) is None,
            },
    {
        if !self.search_query.as_str().is_empty() {
            if visible_index < self.search_matches.len() {
                let i: usize = self.search_matches[visible_index];
                if i < self.entries.len() {
                    Some(i)
                } else {
                    None
                }
            } else {
                None
            }
        } else if visible_index < self.entries.len() {
            Some(visible_index)
        } else {
            None
        }
    }

    pub fn visible_entry(&self, visible_index: usize) -> (r: Option<&entries::Entry>)
        ensures
            match r {
                Some(e) => self@.entry(visible_index as int) == Some(e@),
                None => self@.entry(visible_index as int) is None,
            },
    {
        match self.visible_entry_index(visible_index) {
            Some(i) => Some(&self.entries[i]),
            None => None,
        }
    }

    /// A search is typed no more but still narrows the entries.
    pub fn search_filter_active(&self) -> (r: bool)
        ensures
            r == (!self@.search_mode && self@.is_searched()),
    {
        !self.search_mode && !self.search_query.as_str().is_empty()
    }

    fn find_row(&self, path: &str) -> (r: Option<usize>)
        ensures
            match r {
                Some(row) => row == self@.row_of(path@, 0) && row < self@.row_count(),
                None => self@.row_of(path@, 0) == self@.row_count(),
            },
    {
        let n: usize = self.visible_entry_count();
        let mut row: usize = 0;
        while row < n
            invariant
                row <= n,
                n == self@.row_count(),
                self@.row_of(path@, 0) == self@.row_of(path@, row as nat),
            decreases n - row,
        {
            match self.visible_entry(row) {
                Some(e) => {
                    if text::same_text(e.path.as_str(), path) {
                        return Some(row);
                    }
                },
                None => {},
            }
            row += 1;
        }
        None
    }

    fn current_path(&self) -> (r: Option<String>)
        ensures
            packages::opt_text(r) == match self@.current() {
                Some(e) => Some(e.path),
                None => None,
            },
    {
        match self.visible_entry(self.selected) {
            Some(e) => Some(e.path.clone()),
            None => None,
        }
    }

    // -----------------------------------------------------------------------
    // Scans
    // -----------------------------------------------------------------------

    pub fn start_scan(&mut self, dirs: Vec<String>, status: String, out: &mut outbox::Outbox)
        ensures
            final(self)@ == old(self)@.scanning(text::texts(dirs@)),
            final(out)@ == old(self)@.scan_asked(old(out)@, text::texts(dirs@), status@),
    {
        if dirs.len() == 0 {
            out.say("no directories to scan");
            return ;
        }
        self.active_scan_id = self.active_scan_id.saturating_add(1);
        self.scan_total = dirs.len();
        self.scan_completed = 0;
        set_scanning(&mut self.entries, &dirs);
        out.say_text(status);
        out.ask(outbox::Request::ScanDirs { scan_id: self.active_scan_id, dirs });
    }

    /// Scans the selected directory where it has no fresh size.
    pub fn scan_selected_missing_dir(&mut self, out: &mut outbox::Outbox)
        ensures
            final(self)@ == old(self)@.current_scanned(),
            final(out)@ == old(self)@.current_asked(old(out)@),
    {
        let (name, path) = match self.visible_entry(self.selected) {
            Some(e) => {
                if !e.is_dir || (e.size.is_some() && !e.size_stale) || e.scanning {
                    return ;
                }
                (e.name.clone(), e.path.clone())
            },
            None => {
                return ;
            },
        };
        let mut dirs: Vec<String> = Vec::new();
        let ghost wanted = seq![path@];
        dirs.push(path);
        assert(text::texts(dirs@) =~= wanted);
        let status = text::join2("scanning selected directory: ", name.as_str());
        self.start_scan(dirs, status, out);
    }

    // -----------------------------------------------------------------------
    // Moves
    // -----------------------------------------------------------------------

    /// Moves the selection, around the ends of the list.
    pub fn move_cursor(&mut self, delta: i32, out: &mut outbox::Outbox)
        ensures
            final(self)@ == if old(self)@.row_count() == 0 {
                old(self)@
            } else {
                old(self)@.stepped(delta as int).current_scanned()
            },
            final(out)@ == if old(self)@.row_count() == 0 {
                old(out)@
            } else {
                old(self)@.stepped(delta as int).current_asked(old(out)@)
            },
    {
        let count: usize = self.visible_entry_count();
        if count == 0 {
            return ;
        }
        self.selected = outbox::wrap_row(self.selected, delta, count);
        self.scan_selected_missing_dir(out);
    }

    /// Moves the selection by pages of the rows that are shown, up to the ends
    /// of the list.
    pub fn page_move(&mut self, pages: i32, out: &mut outbox::Outbox)
        ensures
            final(self)@ == if old(self)@.row_count() == 0 {
                old(self)@
            } else {
                old(self)@.paged(pages as int).current_scanned()
            },
            final(out)@ == if old(self)@.row_count() == 0 {
                old(out)@
            } else {
                old(self)@.paged(pages as int).current_asked(old(out)@)
            },
    {
        let count: usize = self.visible_entry_count();
        if count == 0 {
            return ;
        }
        self.selected = outbox::turn_pages(self.selected, pages, self.page_rows, count);
        self.scan_selected_missing_dir(out);
    }

    pub fn move_to_start(&mut self, out: &mut outbox::Outbox)
        ensures
            final(self)@ == old(self)@.selecting(0).current_scanned(),
            final(out)@ == old(self)@.selecting(0).current_asked(old(out)@),
    {
        self.selected = 0;
        self.scan_selected_missing_dir(out);
    }

    pub fn move_to_end(&mut self, out: &mut outbox::Outbox)
        ensures
            final(self)@ == if old(self)@.row_count() == 0 {
                old(self)@
            } else {
                old(self)@.at_end().current_scanned()
            },
            final(out)@ == if old(self)@.row_count() == 0 {
                old(out)@
            } else {
                old(self)@.at_end().current_asked(old(out)@)
            },
    {
        let count: usize = self.visible_entry_count();
        if count == 0 {
            return ;
        }
        self.selected = count - 1;
        self.scan_selected_missing_dir(out);
    }

    // -----------------------------------------------------------------------
    // Order
    // -----------------------------------------------------------------------

    pub fn apply_sort(&mut self, now: u64)
        ensures
            final(self)@ == old(self)@.sorted(now),
    {
        let mut list: Vec<entries::Entry> = Vec::new();
        std::mem::swap(&mut list, &mut self.entries);
        self.entries = entries::sort_entries(self.sort, list);
        self.last_sort = now;
        self.sort_dirty = false;
    }

    fn update_search(&mut self)
        ensures
            final(self)@ == old(self)@.searched(),
    {
        self.search_matches = entries::find_matches(&self.entries, self.search_query.as_str());
        self.selected = 0;
        self.list_offset = 0;
    }

    pub fn apply_sort_preserving_selection(&mut self, now: u64)
        ensures
            final(self)@ == old(self)@.resorted(now),
    {
        let path = self.current_path();
        let fallback: usize = outbox::clamp(self.selected, self.entries.len());
        proof {
            sorting::arranged_keeps_items(
                &entries::EntryOrder { mode: self.sort },
                self@.entries,
            );
        }
        self.apply_sort(now);
        match path {
            Some(path) => {
                if !self.search_query.as_str().is_empty() {
                    self.update_search();
                    self.selected = match self.find_row(path.as_str()) {
                        Some(row) => row,
                        None => 0,
                    };
                } else {
                    self.selected = match self.find_row(path.as_str()) {
                        Some(row) => row,
                        None => fallback,
                    };
                }
            },
            None => {
                self.selected = fallback;
            },
        }
    }

    /// Goes on to the next order.
    pub fn cycle_sort(&mut self, now: u64, out: &mut outbox::Outbox)
        ensures
            final(self)@ == (BrowserV { sort: old(self)@.sort.successor(), ..old(self)@ }).resorted(
                now,
            ),
            final(out)@ == old(out)@.says("sort: "@ + old(self)@.sort.successor().name()),
    {
        self.sort = self.sort.next();
        out.say_text(text::join2("sort: ", self.sort.label()));
        self.apply_sort_preserving_selection(now);
    }

    // -----------------------------------------------------------------------
    // Search
    // -----------------------------------------------------------------------

    /// Ends a search and shows all entries; the selected entry stays selected.
    pub fn exit_search(&mut self)
        ensures
            final(self)@ == old(self)@.unsearched(),
    {
        let path = self.current_path();
        self.search_mode = false;
        self.search_query = String::new();
        self.search_matches = Vec::new();
        self.list_offset = 0;
        match path {
            Some(path) => {
                match self.find_row(path.as_str()) {
                    Some(row) => {
                        self.selected = row;
                    },
                    None => {},
                }
            },
            None => {},
        }
    }

    pub fn enter_search(&mut self)
        ensures
            final(self)@ == old(self)@.searching(),
    {
        if !self.search_query.as_str().is_empty() {
            self.exit_search();
        }
        self.search_mode = true;
        self.search_query = String::new();
        self.search_matches = Vec::new();
        self.list_offset = 0;
    }

    /// Ends typing; what was found stays shown.
    pub fn keep_search(&mut self)
        ensures
            final(self)@ == (BrowserV { search_mode: false, ..old(self)@ }),
    {
        self.search_mode = false;
    }

    pub fn search_push(&mut self, ch: char)
        ensures
            final(self)@ == old(self)@.with_query(old(self)@.search_query.push(ch)),
    {
        self.search_query.push(ch);
        self.update_search();
    }

    pub fn search_pop(&mut self)
        ensures
            final(self)@ == old(self)@.with_query(
                if old(self)@.search_query.len() > 0 {
                    old(self)@.search_query.drop_last()
                } else {
                    Seq::empty()
                },
            ),
    {
        let ghost query = self.search_query@;
        self.search_query = text::without_last(self.search_query.as_str());
        if self.search_query.as_str().is_empty() {
            self.search_matches = Vec::new();
            self.selected = 0;
            self.list_offset = 0;
        } else {
            self.update_search();
        }
    }
}

// ---------------------------------------------------------------------------
// Listings
// ---------------------------------------------------------------------------

/// What an entry of a directory is; unknown where it could not be looked at.
#[derive(Clone, Copy, Debug, PartialEq, Eq, Structural)]
pub enum FileKind {
    Directory,
    File,
    Symlink,
    Other,
    Unknown,
}

/// An entry as it was read from a directory.
#[derive(Debug)]
pub struct DirEntry {
    pub name: String,
    pub path: String,
    pub kind: FileKind,
    pub len: u64,
    /// Blocks of 512 bytes.
    pub blocks: u64,
    pub modified: Option<i128>,
}

#[verifier::ext_equal]
pub struct DirEntryV {
    pub name: Seq<char>,
    pub path: Seq<char>,
    pub kind: FileKind,
    pub len: u64,
    pub blocks: u64,
    pub modified: Option<i128>,
}

impl View for DirEntry {
    type V = DirEntryV;

    open spec fn view(&self) -> DirEntryV {
        DirEntryV {
            name: self.name@,
            path: self.path@,
            kind: self.kind,
            len: self.len,
            blocks: self.blocks,
            modified: self.modified,
        }
    }
}

/// What is remembered of a path.
pub open spec fn remembered(m: Map<Seq<char>, cache::CacheLine>, path: Seq<char>) -> Option<
    cache::CacheLine,
> {
    if m.contains_key(path) {
        Some(m[path])
    } else {
        None
    }
}

/// An entry as it is shown: a directory has the size that is remembered of it.
pub open spec fn entry_from(d: DirEntryV, m: Map<Seq<char>, cache::CacheLine>) -> entries::EntryV {
    let line = remembered(m, d.path);
    let is_dir = d.kind == FileKind::Directory;
    entries::EntryV {
        name: d.name,
        name_lower: text::lowercase(d.name),
        path: d.path,
        is_dir,
        is_symlink: d.kind == FileKind::Symlink,
        size: if is_dir {
            match line {
                Some(l) => Some(l.size),
                None => None,
            }
        } else if d.kind == FileKind::File || d.kind == FileKind::Symlink {
            Some(
                bulkstat::SizeInfo {
                    logical: d.len,
                    allocated: bulkstat::capped(d.blocks * 512),
                },
            )
        } else {
            None
        },
        size_stale: is_dir && line is Some && line->0.stale,
        cached_at: if is_dir && line is Some {
            Some(line->0.scanned_at)
        } else {
            None
        },
        inaccessible: match line {
            Some(l) => l.inaccessible,
            None => 0,
        },
        skipped_mounts: match line {
            Some(l) => l.skipped_mounts,
            None => 0,
        },
        modified: if d.kind == FileKind::Unknown {
            None
        } else {
            d.modified
        },
        scanning: false,
    }
}

/// The entries of a listing; hidden ones only where they are shown.
pub open spec fn entries_from(
    list: Seq<DirEntryV>,
    m: Map<Seq<char>, cache::CacheLine>,
    show_hidden: bool,
) -> Seq<entries::EntryV>
    decreases list.len(),
{
    if list.len() == 0 {
        Seq::empty()
    } else {
        let before = entries_from(list.drop_last(), m, show_hidden);
        let d = list.last();
        if !show_hidden && d.name.len() > 0 && d.name[0] == '.' {
            before
        } else {
            before.push(entry_from(d, m))
        }
    }
}

fn make_entry(d: &DirEntry, known: &cache::SizeCache) -> (r: entries::Entry)
    ensures
        r@ == entry_from(d@, known@),
{
    let line = known.get(d.path.as_str());
    let is_dir = d.kind == FileKind::Directory;
    let size = if is_dir {
        match line {
            Some(l) => Some(l.size),
            None => None,
        }
    } else if d.kind == FileKind::File || d.kind == FileKind::Symlink {
        Some(bulkstat::SizeInfo::new(d.len, history::allocated_from_blocks(d.blocks)))
    } else {
        None
    };
    let (stale, cached_at) = match line {
        Some(l) => if is_dir {
            (l.stale, Some(l.scanned_at))
        } else {
            (false, None)
        },
        None => (false, None),
    };
    let (inaccessible, skipped_mounts) = match line {
        Some(l) => (l.inaccessible, l.skipped_mounts),
        None => (0, 0),
    };
    entries::Entry {
        name: d.name.clone(),
        name_lower: text::to_lower(d.name.as_str()),
        path: d.path.clone(),
        is_dir,
        is_symlink: d.kind == FileKind::Symlink,
        size,
        size_stale: stale,
        cached_at,
        inaccessible,
        skipped_mounts,
        modified: if d.kind == FileKind::Unknown {
            None
        } else {
            d.modified
        },
        scanning: false,
    }
}

fn make_entries(list: &Vec<DirEntry>, known: &cache::SizeCache, show_hidden: bool) -> (r: Vec<
    entries::Entry,
>)
    ensures
        sorting::views(r@) == entries_from(sorting::views(list@), known@, show_hidden),
{
    let ghost all = sorting::views(list@);
    let mut r: Vec<entries::Entry> = Vec::new();
    let mut i: usize = 0;
    assert(all.take(0) =~= Seq::<DirEntryV>::empty());
    assert(sorting::views(r@) =~= Seq::<entries::EntryV>::empty());
    while i < list.len()
        invariant
            i <= list@.len(),
            all == sorting::views(list@),
            sorting::views(r@) == entries_from(all.take(i as int), known@, show_hidden),
        decreases list@.len() - i,
    {
        let d = &list[i];
        assert(all.take(i + 1).drop_last() =~= all.take(i as int));
        assert(all.take(i + 1).last() == d@);
        if show_hidden || !text::starts_with_char(d.name.as_str(), '.') {
            let e = make_entry(d, known);
            proof {
                sorting::views_push(r@, e);
            }
            r.push(e);
        }
        i += 1;
    }
    assert(all.take(all.len() as int) =~= all);
    r
}

/// The entries with the sizes of directories taken back.
pub open spec fn without_dir_sizes(list: Seq<entries::EntryV>) -> Seq<entries::EntryV> {
    list.map_values(
        |e: entries::EntryV|
            if e.is_dir {
                entries::EntryV { size: None, size_stale: false, cached_at: None, ..e }
            } else {
                e
            },
    )
}

fn drop_dir_sizes(list: &mut Vec<entries::Entry>)
    ensures
        sorting::views(final(list)@) == without_dir_sizes(sorting::views(old(list)@)),
{
    let ghost before = sorting::views(list@);
    let n: usize = list.len();
    let mut i: usize = 0;
    while i < n
        invariant
            i <= n,
            n == list@.len(),
            n == before.len(),
            forall|k: int| 0 <= k < i ==> (#[trigger] list@[k])@ == without_dir_sizes(before)[k],
            forall|k: int| i <= k < n ==> (#[trigger] list@[k])@ == before[k],
        decreases n - i,
    {
        let mut e = list[i].clone();
        if e.is_dir {
            e.size = None;
            e.size_stale = false;
            e.cached_at = None;
        }
        list.set(i, e);
        i += 1;
    }
    assert(sorting::views(list@) =~= without_dir_sizes(before));
}

/// What a listing says, where the directory could be read.
pub open spec fn listed(listing: Result<Vec<DirEntry>, String>) -> Seq<DirEntryV> {
    match listing {
        Ok(list) => sorting::views(list@),
        Err(_) => Seq::empty(),
    }
}

/// A path in a list of marks, each once.
pub open spec fn with_mark(marks: Seq<Seq<char>>, path: Seq<char>) -> Seq<Seq<char>> {
    if marks.contains(path) {
        marks
    } else {
        marks.push(path)
    }
}

impl BrowserV {
    /// The pane with other entries, sorted, and what a search finds in them.
    pub open spec fn showing(self, list: Seq<entries::EntryV>, now: u64) -> BrowserV {
        let after = (BrowserV { entries: list, ..self }).sorted(now);
        if self.is_searched() {
            BrowserV {
                search_matches: entries::matches_of(after.entries, self.search_query),
                ..after
            }
        } else {
            after
        }
    }

    /// The pane with a path selected, or else a row.
    pub open spec fn restoring(self, path: Option<Seq<char>>, index: nat) -> BrowserV {
        let fallback = outbox::clamped(index, self.row_count());
        match path {
            Some(p) => {
                let row = self.row_of(p, 0);
                self.selecting(
                    if row < self.row_count() {
                        row
                    } else {
                        fallback
                    },
                )
            },
            None => self.selecting(fallback),
        }
    }

    /// From where on directories are scanned: the selected entry.
    pub open spec fn anchor(self) -> nat {
        match self.place(self.selected as int) {
            Some(i) => i as nat,
            None => self.selected,
        }
    }

    /// Some of the wanted directories, from the selected entry on.
    pub open spec fn nearest(self, limit: nat, wanted: Seq<Seq<char>>) -> Seq<Seq<char>> {
        entries::candidates(self.entries, self.anchor(), limit, wanted)
    }

    /// The pane with a few of the directories being scanned that have no size.
    pub open spec fn auto_scanned(self) -> BrowserV {
        let missing = unsized_dirs(self.entries, false);
        if missing.len() == 0 {
            self
        } else {
            self.scanning(self.nearest(AUTO_SCAN_LIMIT as nat, missing))
        }
    }

    pub open spec fn auto_asked(self, out: outbox::OutboxV) -> outbox::OutboxV {
        let missing = unsized_dirs(self.entries, false);
        if missing.len() == 0 {
            out.says("cache hit · all sizes known"@)
        } else {
            let dirs = self.nearest(AUTO_SCAN_LIMIT as nat, missing);
            self.scan_asked(
                out,
                dirs,
                labels::limited_text("scanning"@, dirs.len(), missing.len()),
            )
        }
    }

    /// The pane with all directories being scanned that are wanted.
    pub open spec fn all_scanned(self, wanted: Seq<Seq<char>>) -> BrowserV {
        if wanted.len() == 0 {
            self
        } else {
            self.scanning(self.nearest(wanted.len(), wanted))
        }
    }

    pub open spec fn all_asked(
        self,
        out: outbox::OutboxV,
        wanted: Seq<Seq<char>>,
        action: Seq<char>,
        done: Seq<char>,
    ) -> outbox::OutboxV {
        if wanted.len() == 0 {
            out.says(done)
        } else {
            let dirs = self.nearest(wanted.len(), wanted);
            self.scan_asked(out, dirs, labels::limited_text(action, dirs.len(), wanted.len()))
        }
    }

    /// The pane in another directory, before it was read.
    pub open spec fn moved_to(self, dir: Seq<char>) -> BrowserV {
        BrowserV { cwd: dir, selected: 0, marked: Seq::empty(), ..self.unsearched() }
    }

    /// The rows' paths added to the marks, up to a row.
    pub open spec fn marks_with_rows(self, rows: nat) -> Seq<Seq<char>>
        decreases rows,
    {
        if rows == 0 {
            self.marked
        } else {
            let before = self.marks_with_rows((rows - 1) as nat);
            match self.entry(rows - 1) {
                Some(e) => with_mark(before, e.path),
                None => before,
            }
        }
    }

    /// The pane after a directory was sized.
    pub open spec fn sized(
        self,
        path: Seq<char>,
        size: bulkstat::SizeInfo,
        inaccessible: u32,
        skipped_mounts: u32,
        scanned_at: u64,
    ) -> BrowserV {
        let at = entries::place_of(self.entries, path);
        BrowserV {
            entries: if at < self.entries.len() {
                self.entries.update(
                    at as int,
                    entries::EntryV {
                        size: Some(size),
                        size_stale: false,
                        cached_at: Some(scanned_at),
                        inaccessible,
                        skipped_mounts,
                        scanning: false,
                        ..self.entries[at as int]
                    },
                )
            } else {
                self.entries
            },
            scan_completed: if self.scan_completed < usize::MAX {
                self.scan_completed + 1
            } else {
                self.scan_completed
            },
            sort_dirty: self.sort_dirty || self.sort == entries::SortMode::SizeDesc,
            ..self
        }
    }

    /// The pane with no entry being scanned.
    pub open spec fn at_rest(self) -> BrowserV {
        BrowserV { entries: with_scanning(self.entries, Seq::empty()), ..self }
    }

    /// How far a scan is: `action` what, and how many of how many.
    pub open spec fn progress(self, action: Seq<char>, path: Seq<char>) -> Seq<char> {
        action + labels::path_label(path) + ": "@ + text::decimal(self.scan_completed) + "/"@
            + text::decimal(self.scan_total)
    }
}

impl Browser {
    fn show_entries(&mut self, list: Vec<entries::Entry>, now: u64)
        ensures
            final(self)@ == old(self)@.showing(sorting::views(list@), now),
    {
        self.entries = list;
        self.apply_sort(now);
        if !self.search_query.as_str().is_empty() {
            self.search_matches = entries::find_matches(
                &self.entries,
                self.search_query.as_str(),
            );
        }
    }

    fn restore_selection(&mut self, path: Option<String>, index: usize)
        ensures
            final(self)@ == old(self)@.restoring(packages::opt_text(path), index as nat),
    {
        let fallback: usize = outbox::clamp(index, self.visible_entry_count());
        self.selected = match path {
            Some(p) => match self.find_row(p.as_str()) {
                Some(row) => row,
                None => fallback,
            },
            None => fallback,
        };
    }

    fn scan_anchor(&self) -> (r: usize)
        ensures
            r == self@.anchor(),
    {
        match self.visible_entry_index(self.selected) {
            Some(i) => i,
            None => self.selected,
        }
    }

    fn auto_scan(&mut self, out: &mut outbox::Outbox)
        ensures
            final(self)@ == old(self)@.auto_scanned(),
            final(out)@ == old(self)@.auto_asked(old(out)@),
    {
        let missing = find_unsized(&self.entries, false);
        if missing.len() == 0 {
            out.say("cache hit · all sizes known");
            return ;
        }
        let anchor: usize = self.scan_anchor();
        let dirs = entries::scan_candidates(&self.entries, anchor, AUTO_SCAN_LIMIT, &missing);
        let status = labels::limited_scan_status("scanning", dirs.len(), missing.len());
        self.start_scan(dirs, status, out);
    }

    fn scan_all(
        &mut self,
        wanted: &Vec<String>,
        action: &str,
        done: &str,
        out: &mut outbox::Outbox,
    )
        ensures
            final(self)@ == old(self)@.all_scanned(text::texts(wanted@)),
            final(out)@ == old(self)@.all_asked(
                old(out)@,
                text::texts(wanted@),
                action@,
                done@,
            ),
    {
        if wanted.len() == 0 {
            out.say(done);
            return ;
        }
        let anchor: usize = self.scan_anchor();
        let dirs = entries::scan_candidates(&self.entries, anchor, wanted.len(), wanted);
        let status = labels::limited_scan_status(action, dirs.len(), wanted.len());
        self.start_scan(dirs, status, out);
    }

    /// Shows a directory that was read: its entries, the selection on a path or
    /// else on a row, and a few scans of directories without a size.
    pub fn reload_with_selection(
        &mut self,
        listing: Result<Vec<DirEntry>, String>,
        path: Option<String>,
        index: usize,
        known: &cache::SizeCache,
        now: u64,
        out: &mut outbox::Outbox,
    )
        ensures
            ({
                let after = old(self)@.showing(
                    entries_from(listed(listing), known@, old(self)@.show_hidden),
                    now,
                ).restoring(packages::opt_text(path), index as nat);
                final(self)@ == after.auto_scanned() && final(out)@ == after.auto_asked(old(out)@)
            }),
    {
        let list = self.read_entries(listing, known);
        self.show_entries(list, now);
        self.restore_selection(path, index);
        self.auto_scan(out);
    }

    fn read_entries(&self, listing: Result<Vec<DirEntry>, String>, known: &cache::SizeCache) -> (r:
        Vec<entries::Entry>)
        ensures
            sorting::views(r@) == entries_from(listed(listing), known@, self@.show_hidden),
    {
        match listing {
            Ok(list) => make_entries(&list, known, self.show_hidden),
            Err(_) => {
                let r: Vec<entries::Entry> = Vec::new();
                assert(sorting::views(r@) =~= Seq::<entries::EntryV>::empty());
                r
            },
        }
    }

    /// Shows a directory that was read for a refresh, and scans all directories
    /// in it.
    pub fn rescan(
        &mut self,
        listing: Result<Vec<DirEntry>, String>,
        path: Option<String>,
        index: usize,
        known: &cache::SizeCache,
        now: u64,
        out: &mut outbox::Outbox,
    )
        ensures
            ({
                let shown = old(self)@.showing(
                    entries_from(listed(listing), known@, old(self)@.show_hidden),
                    now,
                ).restoring(packages::opt_text(path), index as nat);
                let after = BrowserV { entries: without_dir_sizes(shown.entries), ..shown };
                let wanted = unsized_dirs(after.entries, false);
                final(self)@ == after.all_scanned(wanted) && final(out)@ == after.all_asked(
                    old(out)@,
                    wanted,
                    "refresh scan"@,
                    "refresh complete · no directories to rescan"@,
                )
            }),
    {
        let list = self.read_entries(listing, known);
        self.show_entries(list, now);
        self.restore_selection(path, index);
        drop_dir_sizes(&mut self.entries);
        let wanted = find_unsized(&self.entries, false);
        self.scan_all(
            &wanted,
            "refresh scan",
            "refresh complete · no directories to rescan",
            out,
        );
    }

    /// Scans every directory without a fresh size.
    pub fn scan_all_missing_visible(&mut self, out: &mut outbox::Outbox)
        ensures
            final(self)@ == old(self)@.all_scanned(unsized_dirs(old(self)@.entries, true)),
            final(out)@ == old(self)@.all_asked(
                old(out)@,
                unsized_dirs(old(self)@.entries, true),
                "full scan"@,
                "full scan complete · all visible sizes known"@,
            ),
    {
        let wanted = find_unsized(&self.entries, true);
        self.scan_all(
            &wanted,
            "full scan",
            "full scan complete · all visible sizes known",
            out,
        );
    }

    /// Goes to another directory, which is then to be read.
    pub fn move_to_dir(&mut self, dir: &str)
        ensures
            final(self)@ == old(self)@.moved_to(dir@),
    {
        self.exit_search();
        self.cwd = dir.to_owned();
        self.selected = 0;
        self.marked = Vec::new();
        assert(self@.marked =~= Seq::<Seq<char>>::empty());
    }

    // -----------------------------------------------------------------------
    // What comes back from scans
    // -----------------------------------------------------------------------

    fn progress_text(&self, action: &str, path: &str) -> (r: String)
        ensures
            r@ == self@.progress(action@, path@),
    {
        let label = labels::scan_path_label(path);
        let done = text::decimal_text(self.scan_completed as u64);
        let total = text::decimal_text(self.scan_total as u64);
        let head = text::join5(action, label.as_str(), ": ", done.as_str(), "/");
        text::join2(head.as_str(), total.as_str())
    }

    /// A scan has come to a directory.
    pub fn dir_started(&self, scan_id: u64, path: &str, out: &mut outbox::Outbox) -> (changed: bool)
        ensures
            changed == (scan_id == self@.active_scan_id),
            final(out)@ == if changed {
                old(out)@.says(self@.progress("scanning "@, path@))
            } else {
                old(out)@
            },
    {
        if scan_id != self.active_scan_id {
            return false;
        }
        out.say_text(self.progress_text("scanning ", path));
        true
    }

    /// A directory was sized. The result of another scan than the latest is
    /// dropped.
    pub fn dir_sized(
        &mut self,
        scan_id: u64,
        path: &str,
        size: bulkstat::SizeInfo,
        inaccessible: u32,
        skipped_mounts: u32,
        scanned_at: u64,
        out: &mut outbox::Outbox,
    ) -> (changed: bool)
        ensures
            scan_id != old(self)@.active_scan_id ==> !changed && final(self)@ == old(self)@
                && final(out)@ == old(out)@,
            scan_id == old(self)@.active_scan_id ==> {
                let after = old(self)@.sized(path@, size, inaccessible, skipped_mounts, scanned_at);
                &&& final(self)@ == after
                &&& changed == (entries::place_of(old(self)@.entries, path@)
                    < old(self)@.entries.len())
                &&& final(out)@ == if after.scan_completed < after.scan_total {
                    old(out)@.says(after.progress("scanned "@, path@))
                } else {
                    old(out)@
                }
            },
    {
        if scan_id != self.active_scan_id {
            return false;
        }
        let ghost before = self@.entries;
        let at = entries::find_entry(&self.entries, path);
        let changed = match at {
            Some(i) => {
                let mut e = self.entries[i].clone();
                e.size = Some(size);
                e.size_stale = false;
                e.cached_at = Some(scanned_at);
                e.inaccessible = inaccessible;
                e.skipped_mounts = skipped_mounts;
                e.scanning = false;
                let ghost shown = e@;
                self.entries.set(i, e);
                assert(sorting::views(self.entries@) =~= before.update(i as int, shown));
                true
            },
            None => false,
        };
        self.scan_completed = self.scan_completed.saturating_add(1);
        if self.sort == entries::SortMode::SizeDesc {
            self.sort_dirty = true;
        }
        if self.scan_completed < self.scan_total {
            out.say_text(self.progress_text("scanned ", path));
        }
        changed
    }

    fn clear_scanning(&mut self)
        ensures
            final(self)@ == old(self)@.at_rest(),
    {
        let none: Vec<String> = Vec::new();
        assert(text::texts(none@) =~= Seq::<Seq<char>>::empty());
        set_scanning(&mut self.entries, &none);
    }

    /// A scan is through.
    pub fn scan_done(&mut self, scan_id: u64, now: u64, out: &mut outbox::Outbox) -> (changed: bool)
        ensures
            changed == (scan_id == old(self)@.active_scan_id),
            final(self)@ == if !changed {
                old(self)@
            } else if old(self)@.sort_dirty {
                old(self)@.at_rest().resorted(now)
            } else {
                old(self)@.at_rest()
            },
            final(out)@ == if changed {
                old(out)@.says("scan complete"@)
            } else {
                old(out)@
            },
    {
        if scan_id != self.active_scan_id {
            return false;
        }
        self.clear_scanning();
        if self.sort_dirty {
            self.apply_sort_preserving_selection(now);
        }
        out.say("scan complete");
        true
    }

    /// A scan could not be started.
    pub fn scan_failed(&mut self, reason: &str, out: &mut outbox::Outbox)
        ensures
            final(self)@ == (BrowserV { sort_dirty: false, ..old(self)@.at_rest() }),
            final(out)@ == old(out)@.says("could not start scanner: "@ + reason@),
    {
        self.clear_scanning();
        self.sort_dirty = false;
        out.say_text(text::join2("could not start scanner: ", reason));
    }

    /// Sorts the entries anew where sizes have come in and some time has passed.
    pub fn settle(&mut self, now: u64) -> (changed: bool)
        ensures
            changed == (old(self)@.sort_dirty && now - old(self)@.last_sort >= SORT_DEBOUNCE),
            final(self)@ == if changed {
                old(self)@.resorted(now)
            } else {
                old(self)@
            },
    {
        if self.sort_dirty && now >= self.last_sort && now - self.last_sort >= SORT_DEBOUNCE {
            self.apply_sort_preserving_selection(now);
            true
        } else {
            false
        }
    }

    /// Some entry is being scanned.
    pub fn is_scanning(&self) -> (r: bool)
        ensures
            r == exists|i: int|
                0 <= i < self@.entries.len() && (#[trigger] self@.entries[i]).scanning,
    {
        let mut i: usize = 0;
        while i < self.entries.len()
            invariant
                i <= self.entries@.len(),
                forall|k: int| 0 <= k < i ==> !(#[trigger] self@.entries[k]).scanning,
            decreases self.entries@.len() - i,
        {
            assert(self@.entries[i as int] == self.entries@[i as int]@);
            if self.entries[i].scanning {
                return true;
            }
            i += 1;
        }
        false
    }

    // -----------------------------------------------------------------------
    // Marks
    // -----------------------------------------------------------------------

    pub fn is_marked(&self, path: &str) -> (r: bool)
        ensures
            r == self@.marked.contains(path@),
    {
        text::list_has(&self.marked, path)
    }

    /// Marks the selected entry, or takes its mark away.
    pub fn toggle_mark(&mut self, out: &mut outbox::Outbox)
        ensures
            match old(self)@.current() {
                Some(e) => if old(self)@.marked.contains(e.path) {
                    final(self)@ == (BrowserV {
                        marked: text::without(old(self)@.marked, e.path),
                        ..old(self)@
                    }) && final(out)@ == old(out)@.says("unmarked: "@ + e.name)
                } else {
                    final(self)@ == (BrowserV {
                        marked: old(self)@.marked.push(e.path),
                        ..old(self)@
                    }) && final(out)@ == old(out)@.says("marked: "@ + e.name)
                },
                None => final(self)@ == old(self)@ && final(out)@ == old(out)@,
            },
    {
        let (name, path) = match self.visible_entry(self.selected) {
            Some(e) => (e.name.clone(), e.path.clone()),
            None => {
                return ;
            },
        };
        if self.is_marked(path.as_str()) {
            let kept = text::list_without(&self.marked, path.as_str());
            self.marked = kept;
            out.say_text(text::join2("unmarked: ", name.as_str()));
        } else {
            proof {
                text::texts_push(self.marked@, path);
            }
            self.marked.push(path);
            out.say_text(text::join2("marked: ", name.as_str()));
        }
    }

    /// Marks all entries that are shown.
    pub fn mark_all_visible(&mut self, out: &mut outbox::Outbox)
        ensures
            final(self)@ == (BrowserV {
                marked: old(self)@.marks_with_rows(old(self)@.row_count()),
                ..old(self)@
            }),
            final(out)@ == old(out)@.says(
                "marked all "@ + text::decimal(old(self)@.row_count()) + " visible entries"@,
            ),
    {
        let count: usize = self.visible_entry_count();
        let mut marked = reclaim::copy_texts(&self.marked);
        let mut row: usize = 0;
        while row < count
            invariant
                row <= count,
                count == self@.row_count(),
                text::texts(marked@) == self@.marks_with_rows(row as nat),
            decreases count - row,
        {
            match self.visible_entry(row) {
                Some(e) => {
                    if !text::list_has(&marked, e.path.as_str()) {
                        let path = e.path.clone();
                        proof {
                            text::texts_push(marked@, path);
                        }
                        marked.push(path);
                    }
                },
                None => {},
            }
            row += 1;
        }
        self.marked = marked;
        let n = text::decimal_text(count as u64);
        out.say_text(text::join3("marked all ", n.as_str(), " visible entries"));
    }
}

// ---------------------------------------------------------------------------
// Laws
// ---------------------------------------------------------------------------

/// A step or a page leads to a row of the list, if it has any.
pub proof fn moves_stay_in_the_list(v: BrowserV, delta: int)
    requires
        v.row_count() > 0,
    ensures
        v.stepped(delta).selected < v.row_count(),
        v.paged(delta).selected < v.row_count(),
        v.at_end().selected < v.row_count(),
{
}

/// Page moves end at the first and the last row.
pub proof fn pages_do_not_wrap(v: BrowserV, pages: int)
    requires
        v.selected < v.row_count(),
    ensures
        pages >= 0 ==> v.paged(pages).selected >= v.selected,
        pages <= 0 ==> v.paged(pages).selected <= v.selected,
{
    let rows = if v.page_rows < 1 {
        1
    } else {
        v.page_rows as int
    };
    assert(pages >= 0 ==> pages * rows >= 0) by (nonlinear_arith)
        requires
            rows >= 1,
    ;
    assert(pages <= 0 ==> pages * rows <= 0) by (nonlinear_arith)
        requires
            rows >= 1,
    ;
}

/// A row that shows a path is found, at the latest there.
proof fn row_is_found(v: BrowserV, path: Seq<char>, from: nat, row: nat)
    requires
        from <= row < v.row_count(),
        v.entry(row as int) is Some,
        v.entry(row as int)->0.path == path,
    ensures
        v.row_of(path, from) <= row,
        v.entry(v.row_of(path, from) as int) is Some,
        v.entry(v.row_of(path, from) as int)->0.path == path,
    decreases row - from,
{
    if !(v.entry(from as int) is Some && v.entry(from as int)->0.path == path) {
        row_is_found(v, path, from + 1, row);
    }
}

/// The matches are the places whose name holds the text.
proof fn match_of_place(list: Seq<entries::EntryV>, query: Seq<char>, count: nat, place: nat) -> (row:
    nat)
    requires
        place < count <= list.len(),
        list.len() <= usize::MAX,
        text::has_part(list[place as int].name_lower, query),
    ensures
        row < entries::matches_among(list, query, count).len(),
        entries::matches_among(list, query, count)[row as int] == place,
    decreases count,
{
    let before = entries::matches_among(list, query, (count - 1) as nat);
    if place == count - 1 {
        before.len()
    } else {
        match_of_place(list, query, (count - 1) as nat, place)
    }
}

proof fn place_of_match(list: Seq<entries::EntryV>, query: Seq<char>, count: nat, row: int)
    requires
        count <= list.len(),
        list.len() <= usize::MAX,
        0 <= row < entries::matches_among(list, query, count).len(),
    ensures
        entries::matches_among(list, query, count)[row] < count,
        text::has_part(
            list[entries::matches_among(list, query, count)[row] as int].name_lower,
            query,
        ),
    decreases count,
{
    let before = entries::matches_among(list, query, (count - 1) as nat);
    if row < before.len() {
        place_of_match(list, query, (count - 1) as nat, row);
    }
}

/// The rows show what the search finds.
pub open spec fn search_is_current(v: BrowserV) -> bool {
    v.is_searched() ==> v.search_matches == entries::matches_of(v.entries, v.search_query)
}

/// Sorting does not change which entry is selected.
pub proof fn sorting_keeps_the_selection(v: BrowserV, now: u64)
    requires
        v.current() is Some,
        search_is_current(v),
        v.entries.len() <= usize::MAX,
    ensures
        v.resorted(now).current() is Some,
        v.resorted(now).current()->0.path == v.current()->0.path,
{
    let e = v.current()->0;
    let after = v.sorted(now);
    sorting::arranged_keeps_items(&entries::EntryOrder { mode: v.sort }, v.entries);
    v.entries.to_multiset_ensures();
    after.entries.to_multiset_ensures();
    let i = v.place(v.selected as int)->0;
    assert(v.entries[i] == e);
    assert(v.entries.contains(e));
    assert(v.entries.to_multiset().count(e) > 0);
    assert(after.entries.to_multiset().count(e) > 0);
    assert(after.entries.contains(e));
    let j = choose|j: int| 0 <= j < after.entries.len() && after.entries[j] == e;
    assert(after.entries.len() == v.entries.len());
    if v.is_searched() {
        let query = text::lowercase(v.search_query);
        place_of_match(v.entries, query, v.entries.len(), v.selected as int);
        let row = match_of_place(after.entries, query, after.entries.len(), j as nat);
        let found = after.searched();
        assert(found.place(row as int) == Some(j));
        row_is_found(found, e.path, 0, row);
        let at = found.row_of(e.path, 0);
        assert(found.selecting(at).current() == found.entry(at as int));
    } else {
        row_is_found(after, e.path, 0, j as nat);
        let at = after.row_of(e.path, 0);
        assert(after.selecting(at).current() == after.entry(at as int));
    }
}

/// Ending a search does not change which entry is selected.
pub proof fn clearing_a_search_keeps_the_selection(v: BrowserV)
    requires
        v.current() is Some,
    ensures
        v.unsearched().current() is Some,
        v.unsearched().current()->0.path == v.current()->0.path,
{
    let e = v.current()->0;
    let after = BrowserV {
        search_mode: false,
        search_query: Seq::empty(),
        search_matches: Seq::empty(),
        list_offset: 0,
        ..v
    };
    let i = v.place(v.selected as int)->0;
    row_is_found(after, e.path, 0, i as nat);
    let at = after.row_of(e.path, 0);
    assert(after.selecting(at).current() == after.entry(at as int));
}

/// No more directories are sized without being asked for than the limit says.
pub proof fn auto_scans_are_few(v: BrowserV)
    ensures
        v.nearest(AUTO_SCAN_LIMIT as nat, unsized_dirs(v.entries, false)).len() <= AUTO_SCAN_LIMIT,
{
}

proof fn place_holds_path(list: Seq<entries::EntryV>, path: Seq<char>, i: int)
    requires
        0 <= i < list.len(),
        list[i].path == path,
    ensures
        entries::place_of(list, path) <= i,
        list[entries::place_of(list, path) as int].path == path,
    decreases list.len(),
{
    if list[0].path != path {
        let tail = list.subrange(1, list.len() as int);
        assert(tail[i - 1] == list[i]);
        place_holds_path(tail, path, i - 1);
        assert(tail[entries::place_of(tail, path) as int] == list[entries::place_of(list, path)
            as int]);
    }
}

/// A size lands on the entry with its path, wherever the list has moved to, and
/// on no other.
pub proof fn sizes_land_on_their_entry(
    v: BrowserV,
    path: Seq<char>,
    size: bulkstat::SizeInfo,
    inaccessible: u32,
    skipped_mounts: u32,
    scanned_at: u64,
    i: int,
)
    requires
        0 <= i < v.entries.len(),
    ensures
        ({
            let after = v.sized(path, size, inaccessible, skipped_mounts, scanned_at);
            let at = entries::place_of(v.entries, path) as int;
            &&& after.entries.len() == v.entries.len()
            &&& v.entries[i].path != path ==> after.entries[i] == v.entries[i]
            &&& v.entries[i].path == path ==> after.entries[at].path == path
                && after.entries[at].size == Some(size) && !after.entries[at].size_stale
                && after.entries[at].inaccessible == inaccessible
            &&& after.selected == v.selected && after.marked == v.marked
        }),
{
    let at = entries::place_of(v.entries, path) as int;
    if v.entries[i].path == path {
        place_holds_path(v.entries, path, i);
    } else if at < v.entries.len() {
        place_is_path(v.entries, path);
    }
}

proof fn place_is_path(list: Seq<entries::EntryV>, path: Seq<char>)
    requires
        entries::place_of(list, path) < list.len(),
    ensures
        list[entries::place_of(list, path) as int].path == path,
    decreases list.len(),
{
    if list[0].path != path {
        let tail = list.subrange(1, list.len() as int);
        place_is_path(tail, path);
        assert(tail[entries::place_of(tail, path) as int] == list[entries::place_of(list, path)
            as int]);
    }
}

/// Where the path that is to be selected is shown, it is selected: a renamed
/// entry keeps the cursor.
pub proof fn the_wanted_path_is_selected(v: BrowserV, path: Seq<char>, index: nat, row: nat)
    requires
        row < v.row_count(),
        v.entry(row as int) is Some,
        v.entry(row as int)->0.path == path,
    ensures
        v.restoring(Some(path), index).current() is Some,
        v.restoring(Some(path), index).current()->0.path == path,
{
    row_is_found(v, path, 0, row);
    let at = v.row_of(path, 0);
    assert(v.selecting(at).current() == v.entry(at as int));
}

/// Scans say which entries are being scanned and leave every size as it is.
pub proof fn scans_keep_known_sizes(v: BrowserV, dirs: Seq<Seq<char>>, i: int)
    requires
        0 <= i < v.entries.len(),
    ensures
        v.scanning(dirs).entries.len() == v.entries.len(),
        v.scanning(dirs).entries[i].path == v.entries[i].path,
        v.scanning(dirs).entries[i].size == v.entries[i].size,
        v.scanning(dirs).entries[i].size_stale == v.entries[i].size_stale,
        v.scanning(dirs).entries[i].cached_at == v.entries[i].cached_at,
        v.scanning(dirs).selected == v.selected,
{
}

proof fn wanted_dirs_are_wanted(
    list: Seq<entries::EntryV>,
    wanted: Seq<Seq<char>>,
    dir: Seq<char>,
)
    requires
        entries::wanted_dirs(list, wanted).contains(dir),
    ensures
        wanted.contains(dir),
    decreases list.len(),
{
    let dirs = entries::wanted_dirs(list, wanted);
    let k = choose|k: int| 0 <= k < dirs.len() && dirs[k] == dir;
    if list.len() > 0 {
        let before = entries::wanted_dirs(list.drop_last(), wanted);
        if k < before.len() {
            assert(before[k] == dir);
            wanted_dirs_are_wanted(list.drop_last(), wanted, dir);
        }
    }
}

proof fn unsized_dirs_have_no_fresh_size(
    list: Seq<entries::EntryV>,
    stale: bool,
    dir: Seq<char>,
) -> (i: int)
    requires
        unsized_dirs(list, stale).contains(dir),
    ensures
        0 <= i < list.len(),
        list[i].path == dir && list[i].is_dir,
        list[i].size is None || list[i].size_stale,
    decreases list.len(),
{
    let dirs = unsized_dirs(list, stale);
    let k = choose|k: int| 0 <= k < dirs.len() && dirs[k] == dir;
    let before = unsized_dirs(list.drop_last(), stale);
    if k < before.len() {
        assert(before[k] == dir);
        let i = unsized_dirs_have_no_fresh_size(list.drop_last(), stale, dir);
        assert(list.drop_last()[i] == list[i]);
        i
    } else {
        list.len() - 1
    }
}

/// A full scan covers only directories without a fresh size.
pub proof fn full_scans_spare_fresh_sizes(v: BrowserV, dir: Seq<char>)
    requires
        v.nearest(
            unsized_dirs(v.entries, true).len(),
            unsized_dirs(v.entries, true),
        ).contains(dir),
    ensures
        exists|i: int|
            0 <= i < v.entries.len() && (#[trigger] v.entries[i]).path == dir
                && v.entries[i].is_dir && (v.entries[i].size is None
                || v.entries[i].size_stale),
{
    let wanted = unsized_dirs(v.entries, true);
    let near = v.nearest(wanted.len(), wanted);
    let all = entries::wanted_dirs(entries::from_selected(v.entries, v.anchor()), wanted);
    let k = choose|k: int| 0 <= k < near.len() && near[k] == dir;
    assert(all[k] == dir);
    wanted_dirs_are_wanted(entries::from_selected(v.entries, v.anchor()), wanted, dir);
    let i = unsized_dirs_have_no_fresh_size(v.entries, true, dir);
    assert(v.entries[i].path == dir);
}

/// Marks and a search belong to one directory: in another there are none.
pub proof fn leaving_clears_marks_and_search(v: BrowserV, dir: Seq<char>)
    ensures
        v.moved_to(dir).marked.len() == 0,
        !v.moved_to(dir).is_searched(),
        !v.moved_to(dir).search_mode,
{
}

/// The directories that are to be sized: those without a size and, where stale
/// ones count, those with a stale one; all of them, in order.
pub proof fn directories_without_a_size_are_scanned(list: Seq<entries::EntryV>, stale: bool)
    ensures
        unsized_dirs(list, stale) == list.filter(
            |e: entries::EntryV|
                e.is_dir && (e.size is None || (stale && e.size_stale)),
        ).map_values(
            |e: entries::EntryV| e.path,
        ),
    decreases list.len(),
{
    reveal(Seq::filter);
    let wanted = |e: entries::EntryV| e.is_dir && (e.size is None || (stale && e.size_stale));
    let shown = |e: entries::EntryV| e.path;
    if list.len() == 0 {
        assert(list.filter(wanted).map_values(shown) =~= Seq::<Seq<char>>::empty());
    } else {
        let less = list.drop_last();
        let last = list.last();
        directories_without_a_size_are_scanned(less, stale);
        if wanted(last) {
            assert(list.filter(wanted).map_values(shown) =~= less.filter(wanted).map_values(
                shown,
            ).push(shown(last)));
        }
    }
}

/// A listing shows every entry, in order, but those whose name starts with a dot
/// while these are hidden.
pub proof fn hidden_entries_are_left_out(list: Seq<DirEntryV>, m: Map<Seq<char>, cache::CacheLine>, show_hidden: bool)
    ensures
        entries_from(list, m, show_hidden) == list.filter(
            |e: DirEntryV|
                show_hidden || e.name.len() == 0 || e.name[0] != '.',
        ).map_values(
            |e: DirEntryV| entry_from(e, m),
        ),
    decreases list.len(),
{
    reveal(Seq::filter);
    let wanted = |e: DirEntryV| show_hidden || e.name.len() == 0 || e.name[0] != '.';
    let shown = |e: DirEntryV| entry_from(e, m);
    if list.len() == 0 {
        assert(list.filter(wanted).map_values(shown) =~= Seq::<entries::EntryV>::empty());
    } else {
        let less = list.drop_last();
        let last = list.last();
        hidden_entries_are_left_out(less, m, show_hidden);
        if wanted(last) {
            assert(list.filter(wanted).map_values(shown) =~= less.filter(wanted).map_values(
                shown,
            ).push(shown(last)));
        }
    }
}

/// An entry of a listing: a file and a link have the length and the room that
/// they have on disk, in blocks of 512 bytes; a directory has what is remembered
/// of it, all of it as it was remembered; and nothing is being scanned yet.
pub proof fn listed_entries_are_what_they_are(d: DirEntryV, m: Map<Seq<char>, cache::CacheLine>)
    ensures
        ({
            let e = entry_from(d, m);
            &&& e.name == d.name && e.path == d.path && !e.scanning
            &&& e.is_dir <==> d.kind == FileKind::Directory
            &&& e.is_symlink <==> d.kind == FileKind::Symlink
            &&& d.kind == FileKind::File || d.kind == FileKind::Symlink ==> e.size is Some
                && e.size->0.logical == d.len && e.size->0.allocated == (if d.blocks * 512
                > 0xffff_ffff_ffff_ffff {
                0xffff_ffff_ffff_ffff
            } else {
                d.blocks * 512
            }) && !e.size_stale && e.cached_at is None
            &&& d.kind == FileKind::Directory && m.contains_key(d.path) ==> e.size == Some(
                m[d.path].size,
            ) && e.size_stale == m[d.path].stale && e.cached_at == Some(m[d.path].scanned_at)
                && e.inaccessible == m[d.path].inaccessible && e.skipped_mounts
                == m[d.path].skipped_mounts
            &&& d.kind == FileKind::Directory && !m.contains_key(d.path) ==> e.size is None
                && !e.size_stale && e.cached_at is None && e.inaccessible == 0 && e.skipped_mounts
                == 0
            &&& d.kind != FileKind::Unknown ==> e.modified == d.modified
        }),
{
}

/// While directories are scanned exactly those entries are shown as being scanned
/// whose path is among them; there is one scan more than before, of that many
/// directories, of which none is done.
pub proof fn scanned_entries_are_shown(v: BrowserV, dirs: Seq<Seq<char>>, i: int)
    requires
        0 <= i < v.entries.len(),
        dirs.len() > 0,
    ensures
        ({
            let s = v.scanning(dirs);
            &&& s.entries[i].scanning <==> exists|k: int|
                0 <= k < dirs.len() && #[trigger] dirs[k] == v.entries[i].path
            &&& s.scan_total == dirs.len() && s.scan_completed == 0
            &&& v.active_scan_id < u64::MAX ==> s.active_scan_id == v.active_scan_id + 1
            &&& !v.at_rest().entries[i].scanning
        }),
{
    if dirs.contains(v.entries[i].path) {
        let k = choose|k: int| 0 <= k < dirs.len() && dirs[k] == v.entries[i].path;
        assert(dirs[k] == v.entries[i].path);
    }
}

/// Marking the rows marks what they show and keeps what was marked: a path is
/// marked exactly where it was before or a row shows it, and none twice.
pub proof fn every_row_is_marked(v: BrowserV, rows: nat, path: Seq<char>)
    requires
        rows <= v.row_count(),
        v.marked.no_duplicates(),
    ensures
        v.marks_with_rows(rows).contains(path) <==> v.marked.contains(path) || exists|i: int|
            0 <= i < rows && (#[trigger] v.entry(i)) is Some && v.entry(i)->0.path == path,
        v.marks_with_rows(rows).no_duplicates(),
    decreases rows,
{
    if rows > 0 {
        let less = (rows - 1) as nat;
        let before = v.marks_with_rows(less);
        every_row_is_marked(v, less, path);
        match v.entry(rows - 1) {
            Some(e) => {
                assert(v.entry(rows - 1) is Some);
                if !before.contains(e.path) {
                    let after = before.push(e.path);
                    assert(after[before.len() as int] == e.path);
                    if before.contains(path) {
                        let k = choose|k: int| 0 <= k < before.len() && before[k] == path;
                        assert(after[k] == path);
                    }
                    if after.contains(path) && path != e.path {
                        let k = choose|k: int| 0 <= k < after.len() && after[k] == path;
                        assert(before[k] == path);
                    }
                }
            },
            None => {},
        }
        if exists|i: int|
            0 <= i < rows && (#[trigger] v.entry(i)) is Some && v.entry(i)->0.path == path {
            let i = choose|i: int|
                0 <= i < rows && (#[trigger] v.entry(i)) is Some && v.entry(i)->0.path == path;
            if i < less {
                assert(v.entry(i) is Some && v.entry(i)->0.path == path);
            }
        }
    }
}

/// Entries that are shown anew are sorted, and a search that is under way is made
/// again in them.
pub proof fn shown_entries_are_searched_anew(v: BrowserV, list: Seq<entries::EntryV>, now: u64)
    ensures
        v.showing(list, now).entries == entries::sorted_entries(v.sort, list),
        v.search_query.len() > 0 ==> v.showing(list, now).search_matches == entries::matches_of(
            v.showing(list, now).entries,
            v.search_query,
        ),
        v.showing(list, now).search_query == v.search_query,
        !v.showing(list, now).sort_dirty,
{
}

} // verus!
