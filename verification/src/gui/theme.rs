//! Metrics shared by the desktop and its apps.

use vstd::prelude::*;

verus! {

pub const TITLEBAR_H: i32 = 36;
pub const WINDOW_RADIUS: i32 = 12;
pub const TOPBAR_H: i32 = 28;
pub const DOCK_ICON: i32 = 48;
pub const DOCK_PAD: i32 = 10;

} // verus!
