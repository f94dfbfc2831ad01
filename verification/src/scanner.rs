//! Scans of several directories at once: which scan is the current one, and the
//! messages that it sends. Scanning and sending are the caller's.

use crate::bulkstat;
use vstd::prelude::*;

verus! {

/// A message of a scan.
#[derive(Debug)]
pub enum ScanMsg {
    DirStarted { scan_id: u64, path: String },
    DirSize {
        scan_id: u64,
        path: String,
        size: bulkstat::SizeInfo,
        /// Unreadable directories below the path; with any the size is a lower
        /// bound.
        inaccessible: u32,
        /// Mounted volumes on other devices that were skipped.
        skipped_mounts: u32,
    },
    AllDone { scan_id: u64 },
}

pub enum MsgModel {
    DirStarted { scan_id: u64, path: Seq<char> },
    DirSize {
        scan_id: u64,
        path: Seq<char>,
        size: bulkstat::SizeInfo,
        inaccessible: u32,
        skipped_mounts: u32,
    },
    AllDone { scan_id: u64 },
}

impl View for ScanMsg {
    type V = MsgModel;

    open spec fn view(&self) -> MsgModel {
        match self {
            ScanMsg::DirStarted { scan_id, path } => MsgModel::DirStarted {
                scan_id: *scan_id,
                path: path@,
            },
            ScanMsg::DirSize { scan_id, path, size, inaccessible, skipped_mounts } =>
                MsgModel::DirSize {
                scan_id: *scan_id,
                path: path@,
                size: *size,
                inaccessible: *inaccessible,
                skipped_mounts: *skipped_mounts,
            },
            ScanMsg::AllDone { scan_id } => MsgModel::AllDone { scan_id: *scan_id },
        }
    }
}

pub open spec fn opt_msg(msg: Option<ScanMsg>) -> Option<MsgModel> {
    match msg {
        Some(m) => Some(m@),
        None => None,
    }
}

/// Which scan is the current one: each moves the generation on, and a scan whose
/// generation is not the current one is over.
#[derive(Debug)]
pub struct Scanner {
    generation: u64,
}

impl Scanner {
    /// The generation.
    pub closed spec fn current(&self) -> u64 {
        self.generation
    }

    pub fn new() -> (scanner: Scanner)
        ensures
            scanner.current() == 0,
    {
        Scanner { generation: 0 }
    }

    /// The generation.
    pub fn generation(&self) -> (r: u64)
        ensures
            r == self.current(),
    {
        self.generation
    }

    /// Ends the current scan.
    pub fn cancel_current(&mut self)
        ensures
            final(self).current() == next_generation(old(self).current()),
    {
        self.generation = self.generation.wrapping_add(1);
    }

    /// Ends the current scan and begins another, for which the generation stands
    /// that is given back.
    pub fn scan_all(&mut self) -> (expected: u64)
        ensures
            final(self).current() == next_generation(old(self).current()),
            expected == bulkstat::capped(old(self).current() + 1),
    {
        let expected: u64 = self.generation.saturating_add(1);
        self.generation = self.generation.wrapping_add(1);
        expected
    }
}

/// The generation after this one.
pub open spec fn next_generation(generation: u64) -> u64 {
    if generation == u64::MAX {
        0
    } else {
        (generation + 1) as u64
    }
}

/// The message that a directory is being scanned, unless the scan is over.
pub fn dir_started(scan_id: u64, dir: &str, cancelled: bool) -> (msg: Option<ScanMsg>)
    ensures
        opt_msg(msg) == if cancelled {
            None
        } else {
            Some(MsgModel::DirStarted { scan_id, path: dir@ })
        },
{
    if cancelled {
        return None;
    }
    Some(ScanMsg::DirStarted { scan_id, path: dir.to_owned() })
}

/// The message of a directory's size, unless the scan was over before the
/// directory had been scanned or is over now.
pub fn dir_size(
    scan_id: u64,
    dir: &str,
    scan: Option<&bulkstat::DirScan>,
    cancelled: bool,
) -> (msg: Option<ScanMsg>)
    ensures
        opt_msg(msg) == match scan {
            Some(found) if !cancelled => Some(
                MsgModel::DirSize {
                    scan_id,
                    path: dir@,
                    size: found.size,
                    inaccessible: found.inaccessible,
                    skipped_mounts: found.skipped_mounts,
                },
            ),
            _ => None,
        },
{
    match scan {
        Some(found) => if cancelled {
            None
        } else {
            Some(
                ScanMsg::DirSize {
                    scan_id,
                    path: dir.to_owned(),
                    size: found.size,
                    inaccessible: found.inaccessible,
                    skipped_mounts: found.skipped_mounts,
                },
            )
        },
        None => None,
    }
}

/// The message that every directory has been scanned, unless the scan is over.
pub fn all_done(scan_id: u64, cancelled: bool) -> (msg: Option<ScanMsg>)
    ensures
        opt_msg(msg) == if cancelled {
            None
        } else {
            Some(MsgModel::AllDone { scan_id })
        },
{
    if cancelled {
        None
    } else {
        Some(ScanMsg::AllDone { scan_id })
    }
}

/// A scan is the current one from when it begins until the next one begins or it
/// is cancelled, as long as the generations do not run out.
pub proof fn a_new_scan_ends_the_last(generation: u64)
    requires
        generation < u64::MAX,
    ensures
        next_generation(generation) == bulkstat::capped(generation + 1),
        next_generation(next_generation(generation)) != bulkstat::capped(generation + 1),
{
}

} // verus!
