//! What has to be done outside, and what the status line says.

use crate::packages;
use crate::sorting;
use crate::text;
use vstd::prelude::*;

verus! {

/// What another program is to do with a path.
#[derive(Clone, Copy, Debug, PartialEq, Eq, Structural)]
pub enum ExternalAction {
    QuickLook,
    RevealInFinder,
    Open,
}

impl ExternalAction {
    pub open spec fn name(self) -> Seq<char> {
        match self {
            ExternalAction::QuickLook => "quick look"@,
            ExternalAction::RevealInFinder => "reveal in Finder"@,
            ExternalAction::Open => "open"@,
        }
    }

    pub fn status_label(self) -> (r: &'static str)
        ensures
            r@ == self.name(),
    {
        match self {
            ExternalAction::QuickLook => "quick look",
            ExternalAction::RevealInFinder => "reveal in Finder",
            ExternalAction::Open => "open",
        }
    }

    /// The program and the arguments that do it.
    pub open spec fn line(self, path: Seq<char>) -> (Seq<char>, Seq<Seq<char>>) {
        match self {
            ExternalAction::QuickLook => ("qlmanage"@, seq!["-p"@, path]),
            ExternalAction::RevealInFinder => ("open"@, seq!["-R"@, path]),
            ExternalAction::Open => ("open"@, seq![path]),
        }
    }

    /// The program and the arguments that do it.
    pub fn launch_args(self, path: &str) -> (r: (&'static str, Vec<String>))
        ensures
            (r.0@, text::texts(r.1@)) == self.line(path@),
    {
        let mut args: Vec<String> = Vec::new();
        let program = match self {
            ExternalAction::QuickLook => {
                args.push("-p".to_owned());
                "qlmanage"
            },
            ExternalAction::RevealInFinder => {
                args.push("-R".to_owned());
                "open"
            },
            ExternalAction::Open => "open",
        };
        args.push(path.to_owned());
        assert(text::texts(args@) =~= self.line(path@).1);
        (program, args)
    }
}

/// What has to be done outside.
#[derive(Debug)]
pub enum Request {
    /// Size these directories.
    ScanDirs { scan_id: u64, dirs: Vec<String> },
    /// Read the directory at hand and show it; the selection goes to a path, or
    /// else to a row, and the status is said in the end.
    ReadDir { path: String, selected: Option<String>, index: usize, status: Option<String> },
    /// Read the directory at hand and size all directories in it anew.
    Rescan { path: String, selected: Option<String>, index: usize },
    /// Read the baseline of the directory at hand and compare with it.
    ReadHistory { path: String },
    /// Scan the directory at hand for a new baseline.
    ScanBaseline { scan_id: u64, path: String },
    /// List the mounted volumes.
    ReadDisks,
    ScanReclaim { scan_id: u64, root: String },
    ScanTopFiles { scan_id: u64, path: String },
    ScanDisk { scan_id: u64, path: String },
    ScanPackages { scan_id: u64, cwd: String, include_managers: bool },
    ScanDeps,
    /// Move a path to the Trash.
    Trash { path: String },
    /// Move several paths to the Trash.
    TrashAll { paths: Vec<String> },
    EmptyTrash,
    Uninstall { manager: packages::Manager, name: String },
    /// Give a path another name.
    Rename { from: String, to: String, name: String },
    /// Create a directory.
    CreateDir { path: String, name: String },
    /// Hand a path to another program; what is said when that is done, and
    /// before the reason when it failed.
    Launch { action: ExternalAction, path: String, done: String, failed: String },
    /// Put a text on the clipboard.
    CopyText { text: String },
    /// Open a terminal at a path if it is a directory, or else at another.
    OpenTerminal { path: String, otherwise: String },
}

#[verifier::ext_equal]
pub enum RequestV {
    ScanDirs { scan_id: u64, dirs: Seq<Seq<char>> },
    ReadDir {
        path: Seq<char>,
        selected: Option<Seq<char>>,
        index: nat,
        status: Option<Seq<char>>,
    },
    Rescan { path: Seq<char>, selected: Option<Seq<char>>, index: nat },
    ReadHistory { path: Seq<char> },
    ScanBaseline { scan_id: u64, path: Seq<char> },
    ReadDisks,
    ScanReclaim { scan_id: u64, root: Seq<char> },
    ScanTopFiles { scan_id: u64, path: Seq<char> },
    ScanDisk { scan_id: u64, path: Seq<char> },
    ScanPackages { scan_id: u64, cwd: Seq<char>, include_managers: bool },
    ScanDeps,
    Trash { path: Seq<char> },
    TrashAll { paths: Seq<Seq<char>> },
    EmptyTrash,
    Uninstall { manager: packages::Manager, name: Seq<char> },
    Rename { from: Seq<char>, to: Seq<char>, name: Seq<char> },
    CreateDir { path: Seq<char>, name: Seq<char> },
    Launch { action: ExternalAction, path: Seq<char>, done: Seq<char>, failed: Seq<char> },
    CopyText { text: Seq<char> },
    OpenTerminal { path: Seq<char>, otherwise: Seq<char> },
}

impl View for Request {
    type V = RequestV;

    open spec fn view(&self) -> RequestV {
        match self {
            Request::ScanDirs { scan_id, dirs } => RequestV::ScanDirs {
                scan_id: *scan_id,
                dirs: text::texts(dirs@),
            },
            Request::ReadDir { path, selected, index, status } => RequestV::ReadDir {
                path: path@,
                selected: packages::opt_text(*selected),
                index: *index as nat,
                status: packages::opt_text(*status),
            },
            Request::Rescan { path, selected, index } => RequestV::Rescan {
                path: path@,
                selected: packages::opt_text(*selected),
                index: *index as nat,
            },
            Request::ReadHistory { path } => RequestV::ReadHistory { path: path@ },
            Request::ScanBaseline { scan_id, path } => RequestV::ScanBaseline {
                scan_id: *scan_id,
                path: path@,
            },
            Request::ReadDisks => RequestV::ReadDisks,
            Request::ScanReclaim { scan_id, root } => RequestV::ScanReclaim {
                scan_id: *scan_id,
                root: root@,
            },
            Request::ScanTopFiles { scan_id, path } => RequestV::ScanTopFiles {
                scan_id: *scan_id,
                path: path@,
            },
            Request::ScanDisk { scan_id, path } => RequestV::ScanDisk {
                scan_id: *scan_id,
                path: path@,
            },
            Request::ScanPackages { scan_id, cwd, include_managers } => RequestV::ScanPackages {
                scan_id: *scan_id,
                cwd: cwd@,
                include_managers: *include_managers,
            },
            Request::ScanDeps => RequestV::ScanDeps,
            Request::Trash { path } => RequestV::Trash { path: path@ },
            Request::TrashAll { paths } => RequestV::TrashAll { paths: text::texts(paths@) },
            Request::EmptyTrash => RequestV::EmptyTrash,
            Request::Uninstall { manager, name } => RequestV::Uninstall {
                manager: *manager,
                name: name@,
            },
            Request::Rename { from, to, name } => RequestV::Rename {
                from: from@,
                to: to@,
                name: name@,
            },
            Request::CreateDir { path, name } => RequestV::CreateDir { path: path@, name: name@ },
            Request::Launch { action, path, done, failed } => RequestV::Launch {
                action: *action,
                path: path@,
                done: done@,
                failed: failed@,
            },
            Request::CopyText { text } => RequestV::CopyText { text: text@ },
            Request::OpenTerminal { path, otherwise } => RequestV::OpenTerminal {
                path: path@,
                otherwise: otherwise@,
            },
        }
    }
}

/// The status line, and the list of what has to be done outside.
#[derive(Debug)]
pub struct Outbox {
    pub status: String,
    pub requests: Vec<Request>,
}

#[verifier::ext_equal]
pub struct OutboxV {
    pub status: Seq<char>,
    pub requests: Seq<RequestV>,
}

impl View for Outbox {
    type V = OutboxV;

    open spec fn view(&self) -> OutboxV {
        OutboxV { status: self.status@, requests: sorting::views(self.requests@) }
    }
}

impl OutboxV {
    /// Another status.
    pub open spec fn says(self, status: Seq<char>) -> OutboxV {
        OutboxV { status, ..self }
    }

    /// One more request.
    pub open spec fn asks(self, request: RequestV) -> OutboxV {
        OutboxV { requests: self.requests.push(request), ..self }
    }
}

impl Outbox {
    pub fn new() -> (r: Outbox)
        ensures
            r@ == (OutboxV { status: Seq::empty(), requests: Seq::empty() }),
    {
        let r = Outbox { status: String::new(), requests: Vec::new() };
        assert(r@.requests =~= Seq::<RequestV>::empty());
        r
    }

    pub fn say(&mut self, status: &str)
        ensures
            final(self)@ == old(self)@.says(status@),
    {
        self.status = status.to_owned();
    }

    pub fn say_text(&mut self, status: String)
        ensures
            final(self)@ == old(self)@.says(status@),
    {
        self.status = status;
    }

    pub fn ask(&mut self, request: Request)
        ensures
            final(self)@ == old(self)@.asks(request@),
    {
        proof {
            sorting::views_push(self.requests@, request);
        }
        self.requests.push(request);
    }

    /// Takes the requests off the list, the oldest first.
    pub fn take_requests(&mut self) -> (r: Vec<Request>)
        ensures
            sorting::views(r@) == old(self)@.requests,
            final(self)@ == (OutboxV { requests: Seq::empty(), ..old(self)@ }),
    {
        let mut r: Vec<Request> = Vec::new();
        std::mem::swap(&mut r, &mut self.requests);
        assert(self@.requests =~= Seq::<RequestV>::empty());
        r
    }
}

// ---------------------------------------------------------------------------
// Rows
// ---------------------------------------------------------------------------

/// The number that follows, as long as there is one.
pub open spec fn next_id(id: u64) -> u64 {
    if id < u64::MAX {
        (id + 1) as u64
    } else {
        id
    }
}

/// A number that a list's last place bounds.
pub open spec fn clamped(i: nat, count: nat) -> nat {
    if count == 0 {
        0
    } else if i < count {
        i
    } else {
        (count - 1) as nat
    }
}

pub fn clamp(i: usize, count: usize) -> (r: usize)
    ensures
        r == clamped(i as nat, count as nat),
{
    if count == 0 {
        0
    } else if i < count {
        i
    } else {
        count - 1
    }
}

/// The row that many rows further, around the end of the list.
pub open spec fn wrapped_row(row: int, delta: int, count: int) -> int {
    (row + delta) % count
}

/// The row that many rows further, but within the list.
pub open spec fn paged_row(row: int, delta: int, count: int) -> int {
    if row + delta < 0 {
        0
    } else if row + delta >= count {
        count - 1
    } else {
        row + delta
    }
}

pub fn wrap_row(row: usize, delta: i32, count: usize) -> (r: usize)
    requires
        count > 0,
    ensures
        r == wrapped_row(row as int, delta as int, count as int),
        r < count,
{
    let n: i128 = count as i128;
    let sum: i128 = row as i128 + delta as i128;
    let shifted: i128 = if sum < 0 {
        // One more turn of at least the delta's length.
        let turns: i128 = n * 0x8000_0000;
        assert(turns + sum >= 0) by (nonlinear_arith)
            requires
                turns == n * 0x8000_0000,
                n >= 1,
                sum >= -0x8000_0000,
        ;
        proof {
            vstd::arithmetic::div_mod::lemma_mod_multiples_vanish(
                0x8000_0000,
                sum as int,
                n as int,
            );
        }
        turns + sum
    } else {
        sum
    };
    (shifted % n) as usize
}

/// The row that many pages further.
pub fn turn_pages(row: usize, pages: i32, page_rows: usize, count: usize) -> (r: usize)
    requires
        count > 0,
    ensures
        r == paged_row(
            row as int,
            pages * (if page_rows < 1 {
                1
            } else {
                page_rows as int
            }),
            count as int,
        ),
        r < count,
{
    let rows: i128 = if page_rows < 1 {
        1
    } else {
        page_rows as i128
    };
    assert(-0x8000_0000 * 0x1_0000_0000_0000_0000 <= pages * rows <= 0x8000_0000
        * 0x1_0000_0000_0000_0000) by (nonlinear_arith)
        requires
            -0x8000_0000 <= pages <= 0x8000_0000,
            0 <= rows <= 0x1_0000_0000_0000_0000,
    ;
    let delta: i128 = pages as i128 * rows;
    let sum: i128 = row as i128 + delta;
    if sum < 0 {
        0
    } else if sum >= count as i128 {
        count - 1
    } else {
        sum as usize
    }
}

// ---------------------------------------------------------------------------
// Laws
// ---------------------------------------------------------------------------

/// Moving on from the last row leads to the first, moving back from the first to
/// the last, and otherwise to the row next to it; what one move does, the move
/// the other way undoes.
pub proof fn moves_go_around(row: int, delta: int, count: int)
    requires
        0 <= row < count,
    ensures
        0 <= wrapped_row(row, delta, count) < count,
        wrapped_row(row, 1, count) == if row + 1 == count {
            0
        } else {
            row + 1
        },
        wrapped_row(row, -1, count) == if row == 0 {
            count - 1
        } else {
            row - 1
        },
        wrapped_row(wrapped_row(row, delta, count), -delta, count) == row,
{
    vstd::arithmetic::div_mod::lemma_mod_bound(row + delta, count);
    vstd::arithmetic::div_mod::lemma_small_mod(row as nat, count as nat);
    vstd::arithmetic::div_mod::lemma_add_mod_noop(row + delta, -delta, count);
    vstd::arithmetic::div_mod::lemma_mod_adds(row + delta, -delta, count);
    assert(((row + delta) % count - delta) % count == row) by {
        vstd::arithmetic::div_mod::lemma_sub_mod_noop(row + delta, delta, count);
        vstd::arithmetic::div_mod::lemma_mod_twice(row + delta, count);
        vstd::arithmetic::div_mod::lemma_sub_mod_noop((row + delta) % count, delta, count);
        assert((row + delta) - delta == row);
    }
    if row + 1 == count {
        vstd::arithmetic::div_mod::lemma_mod_self_0(count);
    } else {
        vstd::arithmetic::div_mod::lemma_small_mod((row + 1) as nat, count as nat);
    }
    if row == 0 {
        vstd::arithmetic::div_mod::lemma_mod_add_multiples_vanish(-1, count);
        vstd::arithmetic::div_mod::lemma_small_mod((count - 1) as nat, count as nat);
        assert((-1 + count) == count - 1);
    } else {
        vstd::arithmetic::div_mod::lemma_small_mod((row - 1) as nat, count as nat);
    }
}

} // verus!
