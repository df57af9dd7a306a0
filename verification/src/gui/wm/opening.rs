//! How the windows of the programs open.

use super::anim::small;
use super::stack::OpenInfo;
use crate::gui::app::AppKind;
use vstd::prelude::*;

verus! {

/// The programs that have windows.
#[derive(Clone, Copy)]
pub enum Program {
    Explorer,
    Terminal,
    Editor,
    Settings,
    Browser,
    About,
    /// A dialog, with its size.
    Dialog(i32, i32),
    KeepResolution,
    ImageViewer,
    Video,
    /// The player, with a song or else a film.
    Player { song: bool },
}

impl Program {
    pub open spec fn spec_kind(self) -> AppKind {
        match self {
            Program::Explorer => AppKind::Explorer,
            Program::Terminal => AppKind::Terminal,
            Program::Editor => AppKind::Editor,
            Program::Settings => AppKind::Settings,
            Program::Browser => AppKind::Browser,
            Program::About => AppKind::About,
            _ => AppKind::Other,
        }
    }

    pub open spec fn first_size(self) -> (i32, i32) {
        match self {
            Program::Explorer => (780, 480),
            Program::Terminal => (720, 440),
            Program::Editor => (720, 480),
            Program::Settings => (880, 600),
            Program::Browser => (1000, 680),
            Program::About => (460, 380),
            Program::Dialog(w, h) => (w, h),
            Program::KeepResolution => (420, 144),
            Program::ImageViewer => (860, 600),
            Program::Video => (800, 520),
            Program::Player { song } => if song { (820, 420) } else { (960, 580) },
        }
    }

    pub open spec fn least_size(self) -> (i32, i32) {
        match self {
            Program::Explorer => (520, 280),
            Program::Editor => (360, 200),
            Program::Settings => (700, 420),
            Program::Browser => (420, 300),
            Program::Player { .. } => (480, 300),
            _ => (260, 160),
        }
    }

    pub open spec fn opens(self) -> OpenInfo {
        OpenInfo {
            kind: self.spec_kind(),
            resizable: !(self is About || self is Dialog || self is KeepResolution),
            min_w: self.least_size().0,
            min_h: self.least_size().1,
            w: self.first_size().0,
            h: self.first_size().1,
        }
    }

    pub fn kind(&self) -> (r: AppKind)
        ensures
            r == self.spec_kind(),
    {
        match self {
            Program::Explorer => AppKind::Explorer,
            Program::Terminal => AppKind::Terminal,
            Program::Editor => AppKind::Editor,
            Program::Settings => AppKind::Settings,
            Program::Browser => AppKind::Browser,
            Program::About => AppKind::About,
            _ => AppKind::Other,
        }
    }

    pub fn initial_size(&self) -> (r: (i32, i32))
        ensures
            r == self.first_size(),
    {
        match self {
            Program::Explorer => (780, 480),
            Program::Terminal => (720, 440),
            Program::Editor => (720, 480),
            Program::Settings => (880, 600),
            Program::Browser => (1000, 680),
            Program::About => (460, 380),
            Program::Dialog(w, h) => (*w, *h),
            Program::KeepResolution => (420, 144),
            Program::ImageViewer => (860, 600),
            Program::Video => (800, 520),
            Program::Player { song } => if *song { (820, 420) } else { (960, 580) },
        }
    }

    pub fn min_size(&self) -> (r: (i32, i32))
        ensures
            r == self.least_size(),
    {
        match self {
            Program::Explorer => (520, 280),
            Program::Editor => (360, 200),
            Program::Settings => (700, 420),
            Program::Browser => (420, 300),
            Program::Player { .. } => (480, 300),
            _ => (260, 160),
        }
    }

    pub fn resizable(&self) -> (r: bool)
        ensures
            r == !(self is About || self is Dialog || self is KeepResolution),
    {
        match self {
            Program::About | Program::Dialog(..) | Program::KeepResolution => false,
            _ => true,
        }
    }

    /// What the window manager asks before it opens the window.
    pub fn open_info(&self) -> (r: OpenInfo)
        ensures
            r == self.opens(),
    {
        let (w, h) = self.initial_size();
        let (min_w, min_h) = self.min_size();
        OpenInfo { kind: self.kind(), resizable: self.resizable(), min_w, min_h, w, h }
    }
}

/// Every program opens a window that the window manager can hold; one that can
/// be resized opens no smaller than it may become.
pub proof fn lemma_opens(p: Program)
    requires
        p matches Program::Dialog(w, h) ==> 0 <= w && small(w as int) && 0 <= h && small(h as int),
    ensures
        p.opens().wf(),
        p.opens().resizable ==> p.opens().w >= p.opens().min_w && p.opens().h >= p.opens().min_h,
{
}

} // verus!
