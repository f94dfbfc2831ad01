//! The disks pane with the report on a disk, and the list of the largest files.

use crate::bulkstat;
use crate::labels;
use crate::outbox;
use crate::packages;
use crate::sorting;
use crate::space;
use crate::text;
use vstd::prelude::*;

verus! {

// ---------------------------------------------------------------------------
// Disks
// ---------------------------------------------------------------------------

/// A mounted volume.
#[derive(Debug)]
pub struct DiskInfo {
    pub name: String,
    pub mount: String,
    pub total: u64,
    pub available: u64,
}

#[verifier::ext_equal]
pub struct DiskModel {
    pub name: Seq<char>,
    pub mount: Seq<char>,
    pub total: u64,
    pub available: u64,
}

impl View for DiskInfo {
    type V = DiskModel;

    open spec fn view(&self) -> DiskModel {
        DiskModel {
            name: self.name@,
            mount: self.mount@,
            total: self.total,
            available: self.available,
        }
    }
}

/// A volume as the file system reports it.
pub open spec fn disk_from(stat: space::StatModel) -> Option<DiskModel> {
    if stat.mount.len() > 0 && labels::is_shown_mount(stat.mount, stat.fs_type) && stat.total > 0 {
        Some(
            DiskModel {
                name: stat.device,
                mount: stat.mount,
                total: stat.total,
                available: stat.available,
            },
        )
    } else {
        None
    }
}

/// The volumes that are shown.
pub open spec fn disks_from(stats: Seq<space::StatModel>) -> Seq<DiskModel>
    decreases stats.len(),
{
    if stats.len() == 0 {
        Seq::empty()
    } else {
        let before = disks_from(stats.drop_last());
        match disk_from(stats.last()) {
            Some(disk) => before.push(disk),
            None => before,
        }
    }
}

/// The volumes that are shown, of all that are mounted.
pub fn disk_info(stats: Vec<space::StatfsInfo>) -> (r: Vec<DiskInfo>)
    ensures
        sorting::views(r@) == disks_from(sorting::views(stats@)),
{
    let ghost all = sorting::views(stats@);
    let mut r: Vec<DiskInfo> = Vec::new();
    let mut i: usize = 0;
    assert(all.take(0) =~= Seq::<space::StatModel>::empty());
    assert(sorting::views(r@) =~= Seq::<DiskModel>::empty());
    while i < stats.len()
        invariant
            i <= stats@.len(),
            all == sorting::views(stats@),
            sorting::views(r@) == disks_from(all.take(i as int)),
        decreases stats@.len() - i,
    {
        let s = &stats[i];
        assert(all.take(i + 1).drop_last() =~= all.take(i as int));
        assert(all.take(i + 1).last() == s@);
        if !s.mount.as_str().is_empty() && labels::should_show_disk_mount(
            s.mount.as_str(),
            s.fs_type.as_str(),
        ) && s.total > 0 {
            let disk = DiskInfo {
                name: s.device.clone(),
                mount: s.mount.clone(),
                total: s.total,
                available: s.available,
            };
            proof {
                sorting::views_push(r@, disk);
            }
            r.push(disk);
        }
        i += 1;
    }
    assert(all.take(all.len() as int) =~= all);
    r
}

/// The disks pane, and the report on one of the disks.
pub struct DiskPane {
    pub disks: Vec<DiskInfo>,
    pub selected: usize,
    pub page_rows: usize,
    pub info_open: bool,
    pub info_loading: bool,
    pub info_id: u64,
    pub info_report: Option<space::SpaceReport>,
}

#[verifier::ext_equal]
pub struct DiskPaneV {
    pub disks: Seq<DiskModel>,
    pub selected: nat,
    pub page_rows: nat,
    pub info_open: bool,
    pub info_loading: bool,
    pub info_id: u64,
    pub info_report: Option<space::SpaceModel>,
}

impl View for DiskPane {
    type V = DiskPaneV;

    open spec fn view(&self) -> DiskPaneV {
        DiskPaneV {
            disks: sorting::views(self.disks@),
            selected: self.selected as nat,
            page_rows: self.page_rows as nat,
            info_open: self.info_open,
            info_loading: self.info_loading,
            info_id: self.info_id,
            info_report: match self.info_report {
                Some(r) => Some(r@),
                None => None,
            },
        }
    }
}

impl DiskPaneV {
    pub open spec fn current(self) -> Option<DiskModel> {
        if self.selected < self.disks.len() {
            Some(self.disks[self.selected as int])
        } else {
            None
        }
    }

    pub open spec fn selecting(self, row: nat) -> DiskPaneV {
        DiskPaneV { selected: row, ..self }
    }

    pub open spec fn stepped(self, delta: int) -> DiskPaneV {
        if self.disks.len() == 0 {
            self
        } else {
            self.selecting(
                outbox::wrapped_row(self.selected as int, delta, self.disks.len() as int) as nat,
            )
        }
    }

    pub open spec fn paged(self, pages: int) -> DiskPaneV {
        if self.disks.len() == 0 {
            self
        } else {
            let rows = if self.page_rows < 1 {
                1
            } else {
                self.page_rows as int
            };
            self.selecting(
                outbox::paged_row(self.selected as int, pages * rows, self.disks.len() as int) as nat,
            )
        }
    }

    pub open spec fn at_end(self) -> DiskPaneV {
        if self.disks.len() == 0 {
            self
        } else {
            self.selecting((self.disks.len() - 1) as nat)
        }
    }

    pub open spec fn closed(self) -> DiskPaneV {
        DiskPaneV { info_open: false, info_loading: false, ..self }
    }

    /// The pane once the report on the selected disk was asked for.
    pub open spec fn asking(self) -> DiskPaneV {
        match self.current() {
            Some(_) => DiskPaneV {
                info_id: outbox::next_id(self.info_id),
                info_loading: true,
                info_report: None,
                info_open: true,
                ..self
            },
            None => self,
        }
    }

    pub open spec fn asked(self, out: outbox::OutboxV) -> outbox::OutboxV {
        match self.current() {
            Some(disk) => out.says("loading disk info…"@).asks(
                outbox::RequestV::ScanDisk {
                    scan_id: outbox::next_id(self.info_id),
                    path: disk.mount,
                },
            ),
            None => out.says("no disk selected"@),
        }
    }
}

impl DiskPane {
    /// Lists other volumes.
    pub fn refresh_disks(&mut self, disks: Vec<DiskInfo>)
        ensures
            final(self)@ == (DiskPaneV {
                disks: sorting::views(disks@),
                selected: outbox::clamped(old(self)@.selected, disks@.len()),
                ..old(self)@
            }),
    {
        self.selected = outbox::clamp(self.selected, disks.len());
        self.disks = disks;
    }

    pub fn selected_disk(&self) -> (r: Option<&DiskInfo>)
        ensures
            match r {
                Some(d) => self@.current() == Some(d@),
                None => self@.current() is None,
            },
    {
        if self.selected < self.disks.len() {
            assert(self@.disks[self.selected as int] == self.disks@[self.selected as int]@);
            Some(&self.disks[self.selected])
        } else {
            None
        }
    }

    pub fn move_cursor(&mut self, delta: i32)
        ensures
            final(self)@ == old(self)@.stepped(delta as int),
    {
        let count: usize = self.disks.len();
        if count > 0 {
            self.selected = outbox::wrap_row(self.selected, delta, count);
        }
    }

    pub fn page_move(&mut self, pages: i32)
        ensures
            final(self)@ == old(self)@.paged(pages as int),
    {
        let count: usize = self.disks.len();
        if count > 0 {
            self.selected = outbox::turn_pages(self.selected, pages, self.page_rows, count);
        }
    }

    pub fn move_to_start(&mut self)
        ensures
            final(self)@ == old(self)@.selecting(0),
    {
        self.selected = 0;
    }

    pub fn move_to_end(&mut self)
        ensures
            final(self)@ == old(self)@.at_end(),
    {
        let count: usize = self.disks.len();
        if count > 0 {
            self.selected = count - 1;
        }
    }

    pub fn request_disk_info_for_selected_disk(&mut self, out: &mut outbox::Outbox)
        ensures
            final(self)@ == old(self)@.asking(),
            final(out)@ == old(self)@.asked(old(out)@),
    {
        let path = match self.selected_disk() {
            Some(disk) => disk.mount.clone(),
            None => {
                out.say("no disk selected");
                return ;
            },
        };
        self.info_id = self.info_id.saturating_add(1);
        self.info_loading = true;
        self.info_report = None;
        self.info_open = true;
        out.say("loading disk info…");
        out.ask(outbox::Request::ScanDisk { scan_id: self.info_id, path });
    }

    /// The report on a disk came back. One that is not the latest, or that
    /// nobody waits for, is dropped.
    pub fn disk_info_scanned(
        &mut self,
        scan_id: u64,
        result: Result<space::SpaceReport, String>,
        out: &mut outbox::Outbox,
    ) -> (changed: bool)
        ensures
            changed == (scan_id == old(self)@.info_id && old(self)@.info_loading),
            !changed ==> final(self)@ == old(self)@ && final(out)@ == old(out)@,
            changed ==> match result {
                Ok(report) => final(self)@ == (DiskPaneV {
                    info_loading: false,
                    info_open: true,
                    info_report: Some(report@),
                    ..old(self)@
                }) && final(out)@ == old(out)@.says(Seq::empty()),
                Err(reason) => final(self)@ == (DiskPaneV {
                    info_loading: false,
                    info_open: true,
                    info_report: None,
                    ..old(self)@
                }) && final(out)@ == old(out)@.says("failed to load disk info: "@ + reason@),
            },
    {
        if scan_id != self.info_id || !self.info_loading {
            return false;
        }
        self.info_loading = false;
        self.info_open = true;
        match result {
            Ok(report) => {
                self.info_report = Some(report);
                out.say_text(String::new());
            },
            Err(reason) => {
                self.info_report = None;
                out.say_text(text::join2("failed to load disk info: ", reason.as_str()));
            },
        }
        true
    }

    /// The scan for a report broke off.
    pub fn disk_info_failed(&mut self, out: &mut outbox::Outbox)
        ensures
            final(self)@ == (DiskPaneV { info_loading: false, info_open: true, ..old(self)@ }),
            final(out)@ == old(out)@.says("disk info scan failed"@),
    {
        self.info_loading = false;
        self.info_open = true;
        out.say("disk info scan failed");
    }

    pub fn close_disk_info(&mut self)
        ensures
            final(self)@ == old(self)@.closed(),
    {
        self.info_open = false;
        self.info_loading = false;
    }
}

// ---------------------------------------------------------------------------
// Largest files
// ---------------------------------------------------------------------------

/// How many of the largest files are listed.
pub const TOP_FILES_LIMIT: usize = 50;

/// The list of the largest files below a directory.
pub struct TopFiles {
    pub open: bool,
    pub loading: bool,
    pub scan_id: u64,
    pub scan: Option<bulkstat::DirScan>,
    pub path: Option<String>,
    pub selected: usize,
    pub offset: usize,
    pub page_rows: usize,
}

#[verifier::ext_equal]
pub struct TopFilesV {
    pub open: bool,
    pub loading: bool,
    pub scan_id: u64,
    pub scan: Option<bulkstat::DirScanModel>,
    pub path: Option<Seq<char>>,
    pub selected: nat,
    pub offset: nat,
    pub page_rows: nat,
}

impl View for TopFiles {
    type V = TopFilesV;

    open spec fn view(&self) -> TopFilesV {
        TopFilesV {
            open: self.open,
            loading: self.loading,
            scan_id: self.scan_id,
            scan: match self.scan {
                Some(s) => Some(s@),
                None => None,
            },
            path: packages::opt_text(self.path),
            selected: self.selected as nat,
            offset: self.offset as nat,
            page_rows: self.page_rows as nat,
        }
    }
}

impl TopFilesV {
    pub open spec fn files(self) -> Seq<bulkstat::LargeFileModel> {
        match self.scan {
            Some(s) => s.largest_files,
            None => Seq::empty(),
        }
    }

    pub open spec fn current(self) -> Option<Seq<char>> {
        if self.selected < self.files().len() {
            Some(self.files()[self.selected as int].path)
        } else {
            None
        }
    }

    pub open spec fn selecting(self, row: nat) -> TopFilesV {
        TopFilesV { selected: row, ..self }
    }

    pub open spec fn stepped(self, delta: int) -> TopFilesV {
        if self.files().len() == 0 {
            self
        } else {
            self.selecting(
                outbox::wrapped_row(self.selected as int, delta, self.files().len() as int) as nat,
            )
        }
    }

    pub open spec fn paged(self, pages: int) -> TopFilesV {
        if self.files().len() == 0 {
            self
        } else {
            let rows = if self.page_rows < 1 {
                1
            } else {
                self.page_rows as int
            };
            self.selecting(
                outbox::paged_row(
                    self.selected as int,
                    pages * rows,
                    self.files().len() as int,
                ) as nat,
            )
        }
    }

    pub open spec fn closed(self) -> TopFilesV {
        TopFilesV {
            open: false,
            loading: false,
            scan: None,
            path: None,
            selected: 0,
            offset: 0,
            ..self
        }
    }

    /// The list once it was asked for.
    pub open spec fn asking(self, path: Seq<char>) -> TopFilesV {
        TopFilesV {
            open: true,
            loading: true,
            scan_id: outbox::next_id(self.scan_id),
            scan: None,
            path: Some(path),
            selected: 0,
            offset: 0,
            ..self
        }
    }

    pub open spec fn asked(self, out: outbox::OutboxV, path: Seq<char>) -> outbox::OutboxV {
        out.says("scanning top files…"@).asks(
            outbox::RequestV::ScanTopFiles { scan_id: outbox::next_id(self.scan_id), path },
        )
    }
}

impl TopFiles {
    pub fn top_files_count(&self) -> (r: usize)
        ensures
            r == self@.files().len(),
    {
        match &self.scan {
            Some(scan) => scan.largest_files.len(),
            None => 0,
        }
    }

    pub fn selected_top_file_path(&self) -> (r: Option<String>)
        ensures
            packages::opt_text(r) == self@.current(),
    {
        match &self.scan {
            Some(scan) => if self.selected < scan.largest_files.len() {
                let file = &scan.largest_files[self.selected];
                assert(self@.files()[self.selected as int] == file@);
                Some(file.path.clone())
            } else {
                None
            },
            None => None,
        }
    }

    pub fn move_top_files(&mut self, delta: i32)
        ensures
            final(self)@ == old(self)@.stepped(delta as int),
    {
        let count: usize = self.top_files_count();
        if count > 0 {
            self.selected = outbox::wrap_row(self.selected, delta, count);
        }
    }

    /// Moves by pages of the rows that are shown, up to the ends of the list.
    pub fn page_top_files(&mut self, pages: i32)
        ensures
            final(self)@ == old(self)@.paged(pages as int),
    {
        let count: usize = self.top_files_count();
        if count > 0 {
            self.selected = outbox::turn_pages(self.selected, pages, self.page_rows, count);
        }
    }

    pub fn set_top_files_selected(&mut self, index: usize)
        ensures
            final(self)@ == old(self)@.selecting(
                outbox::clamped(index as nat, old(self)@.files().len()),
            ),
    {
        let count: usize = self.top_files_count();
        self.selected = outbox::clamp(index, count);
    }

    /// The rows that are shown where there is room for so many.
    pub fn top_files_window_bounds(&mut self, max_rows: usize) -> (r: (usize, usize))
        ensures
            (r.0 as int, r.1 as int) == labels::window(
                old(self)@.selected as int,
                old(self)@.files().len() as int,
                old(self)@.offset as int,
                max_rows as int,
            ),
            final(self)@ == (TopFilesV {
                offset: r.0 as nat,
                page_rows: max_rows as nat,
                ..old(self)@
            }),
    {
        let count: usize = self.top_files_count();
        let (offset, end) = labels::modal_window_bounds(
            self.selected,
            count,
            self.offset,
            max_rows,
        );
        self.offset = offset;
        self.page_rows = max_rows;
        (offset, end)
    }

    pub fn open_top_files_for_path(&mut self, path: &str, out: &mut outbox::Outbox)
        ensures
            final(self)@ == old(self)@.asking(path@),
            final(out)@ == old(self)@.asked(old(out)@, path@),
    {
        self.scan_id = self.scan_id.saturating_add(1);
        self.path = Some(path.to_owned());
        self.open = true;
        self.selected = 0;
        self.offset = 0;
        self.loading = true;
        self.scan = None;
        out.say("scanning top files…");
        out.ask(
            outbox::Request::ScanTopFiles { scan_id: self.scan_id, path: path.to_owned() },
        );
    }

    /// A scan came back. One that is not the latest, or that nobody waits for,
    /// is dropped.
    pub fn top_files_scanned(
        &mut self,
        scan_id: u64,
        path: String,
        scan: bulkstat::DirScan,
        out: &mut outbox::Outbox,
    ) -> (changed: bool)
        ensures
            changed == (scan_id == old(self)@.scan_id && old(self)@.loading),
            !changed ==> final(self)@ == old(self)@ && final(out)@ == old(out)@,
            changed ==> final(self)@ == (TopFilesV {
                scan: Some(scan@),
                path: Some(path@),
                loading: false,
                selected: 0,
                offset: 0,
                ..old(self)@
            }) && final(out)@ == old(out)@.says("top files scan complete"@),
    {
        if scan_id != self.scan_id || !self.loading {
            return false;
        }
        self.scan = Some(scan);
        self.path = Some(path);
        self.loading = false;
        self.selected = 0;
        self.offset = 0;
        out.say("top files scan complete");
        true
    }

    /// A scan broke off.
    pub fn top_files_failed(&mut self, out: &mut outbox::Outbox)
        ensures
            final(self)@ == (TopFilesV { loading: false, ..old(self)@ }),
            final(out)@ == old(out)@.says("top files scan failed"@),
    {
        self.loading = false;
        out.say("top files scan failed");
    }

    pub fn close_top_files(&mut self)
        ensures
            final(self)@ == old(self)@.closed(),
    {
        self.open = false;
        self.loading = false;
        self.scan = None;
        self.path = None;
        self.selected = 0;
        self.offset = 0;
    }
}

/// The volumes that are shown: all that have a mount point and room and are not
/// of the kinds that are left out.
pub proof fn every_real_volume_is_shown(stats: Seq<space::StatModel>)
    ensures
        disks_from(stats) == stats.filter(
            |e: space::StatModel|
                e.mount.len() > 0 && e.total > 0 && labels::is_shown_mount(e.mount, e.fs_type),
        ).map_values(
            |e: space::StatModel| (DiskModel { name: e.device, mount: e.mount, total: e.total, available: e.available }),
        ),
    decreases stats.len(),
{
    reveal(Seq::filter);
    let wanted = |e: space::StatModel| e.mount.len() > 0 && e.total > 0 && labels::is_shown_mount(e.mount, e.fs_type);
    let shown = |e: space::StatModel| (DiskModel { name: e.device, mount: e.mount, total: e.total, available: e.available });
    if stats.len() == 0 {
        assert(stats.filter(wanted).map_values(shown) =~= Seq::<DiskModel>::empty());
    } else {
        let less = stats.drop_last();
        let last = stats.last();
        every_real_volume_is_shown(less);
        if wanted(last) {
            assert(stats.filter(wanted).map_values(shown) =~= less.filter(wanted).map_values(
                shown,
            ).push(shown(last)));
        }
    }
}

} // verus!
