//! Verified core of diskr, a terminal file explorer and storage manager.
//!
//! What decides, parses, orders or lays out lives here, with its contract.
//! Reading the file system, running macOS commands and painting the terminal are
//! left to the program around the library.

pub mod actions;
pub mod app;
pub mod browser;
pub mod bulkstat;
pub mod bytesize;
pub mod cache;
pub mod cli;
pub mod columns;
pub mod deletion;
pub mod descent;
pub mod entries;
pub mod events;
pub mod fileinfo;
pub mod filesview;
pub mod fsevents;
pub mod history;
pub mod installed;
pub mod json;
pub mod keymap;
pub mod keys;
pub mod labels;
pub mod layout;
pub mod listview;
pub mod manifests;
pub mod modals;
pub mod modalview;
pub mod outbox;
pub mod overlay;
pub mod packages;
pub mod panes;
pub mod paths;
pub mod perform;
pub mod pkgpane;
pub mod pool;
pub mod reclaim;
pub mod reclaimpane;
pub mod reportjson;
pub mod reports;
pub mod scanner;
pub mod screen;
pub mod sideview;
pub mod sizes;
pub mod sorting;
pub mod space;
pub mod state;
pub mod statusview;
pub mod sums;
pub mod text;
pub mod walk;
pub mod walkrun;
