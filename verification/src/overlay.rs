//! What lies on top of the panes, and how large it is.

use crate::app;
use crate::keymap;
use crate::layout;
use crate::pkgpane;
use crate::screen;
use vstd::prelude::*;

verus! {

#[derive(Clone, Copy, Debug, PartialEq, Eq, Structural)]
pub enum Overlay {
    Reclaim,
    TopFiles,
    ReclaimPaths,
    DiskInfo,
    ConfirmDelete,
    ConfirmUninstall,
    ConfirmEmptyTrash,
    PackageDetail,
    ProjectDetail,
    FileInfo,
    Input,
    Help,
}

/// A list with one more where a condition holds.
pub open spec fn with_if(list: Seq<Overlay>, shown: bool, overlay: Overlay) -> Seq<Overlay> {
    if shown {
        list.push(overlay)
    } else {
        list
    }
}

fn push_if(list: &mut Vec<Overlay>, shown: bool, overlay: Overlay)
    ensures
        final(list)@ == with_if(old(list)@, shown, overlay),
{
    if shown {
        list.push(overlay);
    }
}

/// What lies on top, the lowest first.
pub open spec fn overlays_of(v: app::AppV) -> Seq<Overlay> {
    let none = Seq::<Overlay>::empty();
    let a = with_if(
        none,
        v.focus == keymap::Focus::Reclaim && !v.reclaim.paths_open,
        Overlay::Reclaim,
    );
    let b = with_if(a, v.top.open, Overlay::TopFiles);
    let c = with_if(b, v.reclaim.paths_open, Overlay::ReclaimPaths);
    let d = with_if(c, v.disks.info_open, Overlay::DiskInfo);
    let e = with_if(d, v.confirming_delete, Overlay::ConfirmDelete);
    let f = with_if(e, v.pkgs.confirming_uninstall, Overlay::ConfirmUninstall);
    let g = with_if(f, v.reclaim.confirming_empty_trash, Overlay::ConfirmEmptyTrash);
    let h = with_if(
        g,
        v.pkgs.detail,
        if v.pkgs.view == pkgpane::PkgView::SystemManagers {
            Overlay::PackageDetail
        } else {
            Overlay::ProjectDetail
        },
    );
    let i = with_if(h, v.file_info_open, Overlay::FileInfo);
    let j = with_if(i, v.input.mode != app::InputMode::Off, Overlay::Input);
    with_if(j, v.show_help, Overlay::Help)
}

/// Lists what lies on top, the lowest first.
pub fn overlays(state: &app::App) -> (r: Vec<Overlay>)
    ensures
        r@ == overlays_of(state@),
{
    let mut list: Vec<Overlay> = Vec::new();
    push_if(
        &mut list,
        state.focus == keymap::Focus::Reclaim && !state.reclaim.paths_open,
        Overlay::Reclaim,
    );
    push_if(&mut list, state.top.open, Overlay::TopFiles);
    push_if(&mut list, state.reclaim.paths_open, Overlay::ReclaimPaths);
    push_if(&mut list, state.disks.info_open, Overlay::DiskInfo);
    push_if(&mut list, state.confirming_delete, Overlay::ConfirmDelete);
    push_if(&mut list, state.pkgs.confirming_uninstall, Overlay::ConfirmUninstall);
    push_if(&mut list, state.reclaim.confirming_empty_trash, Overlay::ConfirmEmptyTrash);
    let detail = if state.pkgs.view == pkgpane::PkgView::SystemManagers {
        Overlay::PackageDetail
    } else {
        Overlay::ProjectDetail
    };
    push_if(&mut list, state.pkgs.detail, detail);
    push_if(&mut list, state.file_info_open, Overlay::FileInfo);
    push_if(&mut list, state.input.mode != app::InputMode::Off, Overlay::Input);
    push_if(&mut list, state.show_help, Overlay::Help);
    list
}

/// The share of the screen that something takes, and its least extents.
pub open spec fn shares_of(overlay: Overlay) -> (int, int, int, int) {
    match overlay {
        Overlay::Reclaim => (70, 70, 72, 22),
        Overlay::TopFiles => (70, 70, 74, 20),
        Overlay::ReclaimPaths => (70, 70, 74, 20),
        Overlay::DiskInfo => (65, 62, 60, 18),
        Overlay::ConfirmDelete => (60, 20, 40, 7),
        Overlay::ConfirmUninstall => (60, 20, 44, 6),
        Overlay::ConfirmEmptyTrash => (60, 20, 48, 8),
        Overlay::PackageDetail => (75, 60, 50, 14),
        Overlay::ProjectDetail => (75, 60, 50, 12),
        Overlay::FileInfo => (78, 70, 64, 20),
        Overlay::Input => (50, 20, 40, 6),
        Overlay::Help => (84, 80, 64, 22),
    }
}

/// Where something that lies on top is drawn.
pub fn overlay_area(overlay: Overlay, area: screen::Area) -> (r: screen::Area)
    requires
        area.x + area.width <= u16::MAX,
        area.y + area.height <= u16::MAX,
    ensures
        ({
            let (px, py, width, height) = shares_of(overlay);
            (r.x as int, r.y as int, r.width as int, r.height as int) == layout::centered(
                px,
                py,
                width,
                height,
                area,
            )
        }),
{
    let (px, py, width, height): (u16, u16, u16, u16) = match overlay {
        Overlay::Reclaim => (70, 70, 72, 22),
        Overlay::TopFiles => (70, 70, 74, 20),
        Overlay::ReclaimPaths => (70, 70, 74, 20),
        Overlay::DiskInfo => (65, 62, 60, 18),
        Overlay::ConfirmDelete => (60, 20, 40, 7),
        Overlay::ConfirmUninstall => (60, 20, 44, 6),
        Overlay::ConfirmEmptyTrash => (60, 20, 48, 8),
        Overlay::PackageDetail => (75, 60, 50, 14),
        Overlay::ProjectDetail => (75, 60, 50, 12),
        Overlay::FileInfo => (78, 70, 64, 20),
        Overlay::Input => (50, 20, 40, 6),
        Overlay::Help => (84, 80, 64, 22),
    };
    layout::centered_rect(px, py, width, height, area)
}

/// The help, when it is open, lies on top of all else.
pub proof fn help_lies_on_top(v: app::AppV)
    requires
        v.show_help,
    ensures
        overlays_of(v).len() > 0,
        overlays_of(v).last() == Overlay::Help,
{
}

} // verus!
