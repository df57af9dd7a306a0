//! The state of the desktop: windows in stacking order, focus, damage, and
//! the geometry of dock and menu.

use super::super::app::{AppEvent, AppKind, WindowId};
use super::super::geom::{inside, Rect};
use super::super::theme::{DOCK_ICON, DOCK_PAD, TITLEBAR_H, TOPBAR_H};
use super::anim::{shadow_bounds, shadowed, small, small_rect, visual, visual_of, Anim, AnimKind};
use crate::arith::{max, min, tdiv};
use vstd::prelude::*;

verus! {

pub const RESIZE_BORDER: i32 = 7;
pub const MENU_FADE_MS: u64 = 130;
pub const BOOT_FADE_MS: u64 = 700;
pub const BOUNCE_MS: u64 = 900;

/// Entries of the dock.
pub const DOCK_LEN: usize = 5;

/// Rows of the menu, separators among them.
pub const MENU_LEN: usize = 9;

/// A window, as far as the window manager looks at it.
#[derive(Clone, Copy, PartialEq, Eq, Debug, Structural)]
pub struct Window {
    pub id: WindowId,
    pub kind: AppKind,
    pub resizable: bool,
    pub min_w: i32,
    pub min_h: i32,
    pub rect: Rect,
    pub restore: Option<Rect>,
    pub minimized: bool,
    pub closing: bool,
    pub needs_render: bool,
    pub hover_button: Option<u8>,
    pub anim: Option<Anim>,
    /// Screen area painted last frame (for damage while animating).
    pub last_paint: Rect,
}

#[derive(Clone, Copy, PartialEq, Eq, Debug, Structural)]
pub enum Drag {
    Move { id: WindowId, dx: i32, dy: i32 },
    Resize { id: WindowId, right: bool, bottom: bool, left: bool, start: Rect, px: i32, py: i32 },
}

#[derive(Clone, Copy, PartialEq, Eq, Debug, Structural)]
pub enum MenuItem {
    About,
    Settings,
    Explorer,
    Terminal,
    Editor,
    Restart,
    ShutDown,
}

/// Something for the desktop thread to do, in this order.
pub enum Action {
    /// Hand an event to the app in a window, then apply its requests.
    Deliver(WindowId, AppEvent),
    /// Ask the app whether its window may close, and close it if so.
    RequestClose(WindowId),
    /// Start an app; its window grows out of the rectangle, if any.
    Launch(AppKind, Option<Rect>),
    Restart,
    ShutDown,
}

/// Everything about the desktop but its lists.
#[derive(Clone, Copy)]
pub struct Shell {
    pub width: i32,
    pub height: i32,
    pub focused: Option<WindowId>,
    pub next_id: WindowId,
    pub pointer: (i32, i32),
    pub cursor_dirty: bool,
    pub cursor_hot: (i32, i32),
    pub hw_cursor: bool,
    pub buttons: u8,
    pub drag: Option<Drag>,
    pub capture: Option<WindowId>,
    pub hovered: Option<WindowId>,
    /// Time, place and number of the last click.
    pub last_click: (u64, i32, i32, u8),
    pub dock_hover: Option<usize>,
    pub dock_bounce: Option<(AppKind, u64)>,
    pub menu_open: bool,
    pub menu_opened_at: u64,
    pub menu_hover: Option<usize>,
    pub cascade: i32,
    pub boot_at: u64,
    pub animations: bool,
    pub pointer_speed: u8,
    pub natural_scroll: bool,
    pub double_click_ms: u32,
    /// Remaining sub-pixel motion for pointer-speed scaling.
    pub motion_rem: (i32, i32),
}

pub struct Wm {
    pub s: Shell,
    /// Bottom to top.
    pub windows: Vec<Window>,
    pub damage: Vec<Rect>,
    pub out: Vec<Action>,
}

#[verifier::ext_equal]
pub struct WmState {
    pub s: Shell,
    pub windows: Seq<Window>,
    pub damage: Seq<Rect>,
    pub out: Seq<Action>,
}

impl View for Wm {
    type V = WmState;

    open spec fn view(&self) -> WmState {
        WmState { s: self.s, windows: self.windows@, damage: self.damage@, out: self.out@ }
    }
}

// ---------------------------------------------------------------------
// Windows
// ---------------------------------------------------------------------

impl Window {
    pub open spec fn wf(self) -> bool {
        &&& small_rect(self.rect)
        &&& (self.restore matches Some(r) ==> small_rect(r))
        &&& (self.anim matches Some(a) ==> a.kind.wf())
        &&& small(self.min_w as int)
        &&& small(self.min_h as int)
        &&& -0x2000_0000 <= self.last_paint.x <= 0x2000_0000
        &&& -0x2000_0000 <= self.last_paint.y <= 0x2000_0000
        &&& -0x1000_0000 <= self.last_paint.w <= 0x1000_0000
        &&& -0x1000_0000 <= self.last_paint.h <= 0x1000_0000
    }

    pub open spec fn is_maximized(self) -> bool {
        self.restore is Some
    }

    /// Everything this window paints at rest, including its shadow.
    pub open spec fn rest_bounds(self) -> Rect {
        if self.is_maximized() { self.rect } else { shadowed(self.rect) }
    }

    /// Hidden from hit-testing (minimised, or animating out).
    pub open spec fn is_gone(self) -> bool {
        self.minimized || self.closing || (self.anim matches Some(a) && a.kind is Minimize)
    }

    /// Everything this window paints at a moment.
    pub open spec fn bounds_at(self, now: u64) -> Rect {
        let r = visual_of(self.rect, self.anim, now).0;
        if self.minimized && self.anim is None {
            Rect { x: 0, y: 0, w: 0, h: 0 }
        } else if self.is_maximized() && self.anim is None {
            r
        } else {
            shadowed(r)
        }
    }

    /// Whether the window reacts to the pointer here; resize handles sit
    /// outside the left, right and bottom edges.
    pub open spec fn hit(self, x: int, y: int) -> bool {
        if self.is_maximized() {
            self.rect.spec_contains(x, y)
        } else {
            inside(
                self.rect.x - RESIZE_BORDER,
                self.rect.y as int,
                self.rect.w + 2 * RESIZE_BORDER,
                self.rect.h + RESIZE_BORDER,
                x,
                y,
            )
        }
    }

    pub fn maximized(&self) -> (r: bool)
        ensures
            r == self.is_maximized(),
    {
        self.restore.is_some()
    }

    /// Radius of the window's corners.
    pub fn radius(&self) -> (r: i32)
        ensures
            r == if self.is_maximized() { 0int } else { super::super::theme::WINDOW_RADIUS as int },
    {
        if self.maximized() { 0 } else { super::super::theme::WINDOW_RADIUS }
    }

    pub fn paint_bounds(&self) -> (r: Rect)
        requires
            self.wf(),
        ensures
            r == self.rest_bounds(),
            -0x2000_0000 <= r.x <= 0x2000_0000,
            -0x2000_0000 <= r.y <= 0x2000_0000,
            -0x1000_0000 <= r.w <= 0x1000_0000,
            -0x1000_0000 <= r.h <= 0x1000_0000,
    {
        if self.maximized() { self.rect } else { shadow_bounds(self.rect) }
    }

    pub fn gone(&self) -> (r: bool)
        ensures
            r == self.is_gone(),
    {
        let leaving: bool = match self.anim {
            Some(a) => match a.kind {
                AnimKind::Minimize(_) => true,
                _ => false,
            },
            None => false,
        };
        self.minimized || self.closing || leaving
    }

    pub fn visual_bounds(&self, now: u64) -> (r: Rect)
        requires
            self.wf(),
        ensures
            r == self.bounds_at(now),
            -0x2000_0000 <= r.x <= 0x2000_0000,
            -0x2000_0000 <= r.y <= 0x2000_0000,
            -0x1000_0000 <= r.w <= 0x1000_0000,
            -0x1000_0000 <= r.h <= 0x1000_0000,
    {
        if self.minimized && self.anim.is_none() {
            return Rect { x: 0, y: 0, w: 0, h: 0 };
        }
        let r: Rect = visual(self.rect, self.anim, now).0;
        if self.maximized() && self.anim.is_none() { r } else { shadow_bounds(r) }
    }

    pub fn client_size(&self) -> (r: (i32, i32))
        requires
            self.wf(),
        ensures
            r.0 == self.rect.w,
            r.1 == self.rect.h - TITLEBAR_H,
    {
        (self.rect.w, self.rect.h - TITLEBAR_H)
    }

    /// Centre of a title bar button: close, minimise, maximise.
    pub fn button_center(i: u8) -> (r: (i32, i32))
        ensures
            r.0 == 20 + i * 20,
            r.1 == 18,
    {
        (20 + i as i32 * 20, TITLEBAR_H / 2)
    }

    pub(super) fn is_hit(&self, x: i32, y: i32) -> (r: bool)
        requires
            self.wf(),
        ensures
            r == self.hit(x as int, y as int),
    {
        if self.maximized() {
            self.rect.contains(x, y)
        } else {
            Rect::new(self.rect.x - RESIZE_BORDER, self.rect.y, self.rect.w + 14, self.rect.h + RESIZE_BORDER).contains(x, y)
        }
    }
}

/// The title bar button at a point of the window, if there is one.
pub open spec fn button_at(lx: int, ly: int) -> Option<u8> {
    let dy = (ly - 18) * (ly - 18);
    if (lx - 20) * (lx - 20) + dy <= 64 {
        Some(0u8)
    } else if (lx - 40) * (lx - 40) + dy <= 64 {
        Some(1u8)
    } else if (lx - 60) * (lx - 60) + dy <= 64 {
        Some(2u8)
    } else {
        None
    }
}

pub fn title_button(lx: i32, ly: i32) -> (r: Option<u8>)
    ensures
        r == button_at(lx as int, ly as int),
{
    if lx < 0 || lx > 100 || ly < 0 || ly > 100 {
        proof {
            let d = ly - 18;
            assert(d * d >= 0) by (nonlinear_arith);
            assert(ly < 0 || ly > 100 ==> d * d > 64) by (nonlinear_arith)
                requires
                    d == ly - 18,
            ;
            let a = lx - 20;
            let b = lx - 40;
            let c = lx - 60;
            assert(a * a >= 0 && b * b >= 0 && c * c >= 0) by (nonlinear_arith);
            assert(lx < 0 || lx > 100 ==> a * a > 64 && b * b > 64 && c * c > 64) by (nonlinear_arith)
                requires
                    a == lx - 20,
                    b == lx - 40,
                    c == lx - 60,
            ;
        }
        return None;
    }
    proof {
        let d = ly - 18;
        let a = lx - 20;
        let b = lx - 40;
        let c = lx - 60;
        assert(0 <= d * d <= 10000 && 0 <= a * a <= 10000 && 0 <= b * b <= 10000 && 0 <= c * c <= 10000) by (nonlinear_arith)
            requires
                -100 <= d <= 100,
                -100 <= a <= 100,
                -100 <= b <= 100,
                -100 <= c <= 100,
        ;
    }
    let dy: i32 = (ly - 18) * (ly - 18);
    if (lx - 20) * (lx - 20) + dy <= 64 {
        Some(0u8)
    } else if (lx - 40) * (lx - 40) + dy <= 64 {
        Some(1u8)
    } else if (lx - 60) * (lx - 60) + dy <= 64 {
        Some(2u8)
    } else {
        None
    }
}

/// Position of a window in the stack.
pub open spec fn find_from(ws: Seq<Window>, id: WindowId, i: int) -> Option<int>
    decreases ws.len() - i,
{
    if i < 0 || i >= ws.len() {
        None
    } else if ws[i].id == id {
        Some(i)
    } else {
        find_from(ws, id, i + 1)
    }
}

pub open spec fn find(ws: Seq<Window>, id: WindowId) -> Option<int> {
    find_from(ws, id, 0)
}

pub proof fn lemma_find_from(ws: Seq<Window>, id: WindowId, i: int)
    requires
        0 <= i,
    ensures
        match find_from(ws, id, i) {
            Some(k) => i <= k < ws.len() && ws[k].id == id,
            None => forall|k: int| i <= k < ws.len() ==> (#[trigger] ws[k]).id != id,
        },
    decreases ws.len() - i,
{
    if i < ws.len() && ws[i].id != id {
        lemma_find_from(ws, id, i + 1);
    }
}

/// The topmost window that can be seen, among the first `n`.
pub open spec fn top_visible(ws: Seq<Window>, n: int) -> Option<WindowId>
    decreases n,
{
    if n <= 0 || n > ws.len() {
        None
    } else if !ws[n - 1].is_gone() {
        Some(ws[n - 1].id)
    } else {
        top_visible(ws, n - 1)
    }
}

/// The topmost window under a point, among the first `n`.
pub open spec fn top_hit(ws: Seq<Window>, x: int, y: int, n: int) -> Option<WindowId>
    decreases n,
{
    if n <= 0 || n > ws.len() {
        None
    } else if !ws[n - 1].is_gone() && ws[n - 1].hit(x, y) {
        Some(ws[n - 1].id)
    } else {
        top_hit(ws, x, y, n - 1)
    }
}

// ---------------------------------------------------------------------
// Dock and menu
// ---------------------------------------------------------------------

/// App of a dock entry.
pub open spec fn dock_app(i: int) -> AppKind {
    if i == 0 {
        AppKind::Explorer
    } else if i == 1 {
        AppKind::Terminal
    } else if i == 2 {
        AppKind::Editor
    } else if i == 3 {
        AppKind::Settings
    } else {
        AppKind::About
    }
}

/// Dock entry of an app.
pub open spec fn dock_slot(k: AppKind) -> Option<int> {
    match k {
        AppKind::Explorer => Some(0int),
        AppKind::Terminal => Some(1int),
        AppKind::Editor => Some(2int),
        AppKind::Settings => Some(3int),
        AppKind::About => Some(4int),
        _ => None,
    }
}

/// Every dock entry starts the app that it stands for.
pub proof fn lemma_dock_entries(i: int)
    requires
        0 <= i < DOCK_LEN,
    ensures
        dock_slot(dock_app(i)) == Some(i),
{
}

pub fn dock_kind(i: usize) -> (r: AppKind)
    requires
        i < DOCK_LEN,
    ensures
        r == dock_app(i as int),
{
    if i == 0 {
        AppKind::Explorer
    } else if i == 1 {
        AppKind::Terminal
    } else if i == 2 {
        AppKind::Editor
    } else if i == 3 {
        AppKind::Settings
    } else {
        AppKind::About
    }
}

/// What a row of the menu does; `None` for a separator.
pub open spec fn menu_entry(i: int) -> Option<MenuItem> {
    if i == 0 {
        Some(MenuItem::About)
    } else if i == 1 {
        Some(MenuItem::Settings)
    } else if i == 3 {
        Some(MenuItem::Explorer)
    } else if i == 4 {
        Some(MenuItem::Terminal)
    } else if i == 5 {
        Some(MenuItem::Editor)
    } else if i == 7 {
        Some(MenuItem::Restart)
    } else if i == 8 {
        Some(MenuItem::ShutDown)
    } else {
        None
    }
}

pub fn menu_row(i: usize) -> (r: Option<MenuItem>)
    ensures
        r == menu_entry(i as int),
{
    if i == 0 {
        Some(MenuItem::About)
    } else if i == 1 {
        Some(MenuItem::Settings)
    } else if i == 3 {
        Some(MenuItem::Explorer)
    } else if i == 4 {
        Some(MenuItem::Terminal)
    } else if i == 5 {
        Some(MenuItem::Editor)
    } else if i == 7 {
        Some(MenuItem::Restart)
    } else if i == 8 {
        Some(MenuItem::ShutDown)
    } else {
        None
    }
}

pub open spec fn menu_row_height(i: int) -> int {
    if menu_entry(i) is Some { 28 } else { 9 }
}

/// Top edge of a row of the open menu.
pub open spec fn menu_row_top(i: int) -> int
    decreases i,
{
    if i <= 0 { TOPBAR_H + 10 } else { menu_row_top(i - 1) + menu_row_height(i - 1) }
}

pub open spec fn menu_area() -> Rect {
    Rect { x: 6, y: 32, w: 220, h: 226 }
}

/// The menu item under a point.
pub open spec fn menu_hit(x: int, y: int) -> Option<int> {
    if menu_area().spec_contains(x, y) && exists|i: int|
        0 <= i < MENU_LEN && menu_row_top(i) <= y < menu_row_top(i) + #[trigger] menu_row_height(i) && menu_entry(
            i,
        ) is Some {
        Some(
            choose|i: int|
                0 <= i < MENU_LEN && menu_row_top(i) <= y < menu_row_top(i) + #[trigger] menu_row_height(i) && menu_entry(
                    i,
                ) is Some,
        )
    } else {
        None
    }
}

pub(super) proof fn lemma_rows_apart(i: int, j: int)
    requires
        0 <= i < j,
    ensures
        menu_row_top(i) + menu_row_height(i) <= menu_row_top(j),
    decreases j,
{
    if j > i + 1 {
        lemma_rows_apart(i, j - 1);
    }
}

pub fn menu_item_at(x: i32, y: i32) -> (r: Option<usize>)
    ensures
        match r {
            Some(i) => i < MENU_LEN && menu_hit(x as int, y as int) == Some(i as int) && menu_entry(i as int) is Some,
            None => menu_hit(x as int, y as int) is None,
        },
{
    if !menu_rect().contains(x, y) {
        return None;
    }
    let mut top: i32 = 38;
    let mut i: usize = 0;
    while i < MENU_LEN
        invariant
            i <= MENU_LEN,
            menu_area().spec_contains(x as int, y as int),
            top == menu_row_top(i as int),
            38 <= top <= 38 + 28 * i,
            y >= top || i == 0,
            forall|k: int| 0 <= k < i ==> y >= menu_row_top(k) + #[trigger] menu_row_height(k),
        decreases MENU_LEN - i,
    {
        let item: Option<MenuItem> = menu_row(i);
        let h: i32 = if item.is_some() { 28 } else { 9 };
        if y >= top && y < top + h {
            proof {
                assert forall|k: int|
                    0 <= k < MENU_LEN && menu_row_top(k) <= y < menu_row_top(k) + #[trigger] menu_row_height(k) implies k
                    == i by {
                    if k < i {
                        lemma_rows_apart(k, i as int);
                    }
                    if i < k {
                        lemma_rows_apart(i as int, k);
                    }
                }
                assert(menu_row_top(i as int) <= y < menu_row_top(i as int) + menu_row_height(i as int));
            }
            return if item.is_some() { Some(i) } else { None };
        }
        if y < top {
            proof {
                assert(i == 0);
                assert forall|k: int| 0 <= k < MENU_LEN implies y < menu_row_top(k) by {
                    if k > 0 {
                        lemma_rows_apart(0, k);
                    }
                }
            }
            return None;
        }
        top = top + h;
        i += 1;
        proof {
            assert(menu_row_top(i as int) == menu_row_top(i - 1) + menu_row_height(i - 1));
        }
    }
    None
}

pub fn menu_rect() -> (r: Rect)
    ensures
        r == menu_area(),
{
    Rect::new(6, TOPBAR_H + 4, 220, 226)
}

pub open spec fn over_logo(x: int, y: int) -> bool {
    inside(4, 2, 84, 24, x, y)
}

pub fn logo_rect() -> (r: Rect)
    ensures
        r == (Rect { x: 4, y: 2, w: 84, h: 24 }),
{
    Rect::new(4, 2, 84, TOPBAR_H - 4)
}

impl Shell {
    pub open spec fn screen(self) -> Rect {
        Rect { x: 0, y: 0, w: self.width, h: self.height }
    }

    pub open spec fn wf(self) -> bool {
        &&& 1 <= self.width <= 0x10_0000
        &&& 68 <= self.height <= 0x10_0000
        &&& 0 <= self.pointer.0 < self.width
        &&& 0 <= self.pointer.1 < self.height
        &&& 0 <= self.cursor_hot.0 < 64
        &&& 0 <= self.cursor_hot.1 < 64
        &&& 0 <= self.cascade
        &&& (self.dock_hover matches Some(i) ==> i < DOCK_LEN)
        &&& (self.menu_hover matches Some(i) ==> i < MENU_LEN)
        &&& (self.drag matches Some(d) ==> match d {
            Drag::Move { id, dx, dy } => small(dx as int) && small(dy as int),
            Drag::Resize { id, right, bottom, left, start, px, py } => small_rect(start) && 0 <= px <= 0x10_0000 && 0 <= py
                <= 0x10_0000,
        })
    }

    pub open spec fn dock_area(self) -> Rect {
        Rect { x: tdiv(self.width - 308, 2) as i32, y: (self.height - 78) as i32, w: 308, h: 68 }
    }

    pub open spec fn icon_area(self, i: int) -> Rect {
        Rect {
            x: (self.dock_area().x + 14 + i * 58) as i32,
            y: (self.dock_area().y + 10) as i32,
            w: DOCK_ICON,
            h: DOCK_ICON,
        }
    }

    /// The dock with room for hops and names above it.
    pub open spec fn dock_surroundings(self) -> Rect {
        let d = self.dock_area();
        Rect { x: (d.x - 60) as i32, y: (d.y - 60) as i32, w: 428, h: 138 }
    }

    /// Where windows of an app go to when they are minimised.
    pub open spec fn dock_goal(self, k: AppKind) -> Rect {
        match dock_slot(k) {
            Some(i) => self.icon_area(i),
            None => Rect { x: (self.dock_area().x + 154 - 24) as i32, y: self.dock_area().y, w: 48, h: 48 },
        }
    }

    /// The dock entry under a point.
    pub open spec fn dock_hit(self, x: int, y: int) -> Option<int> {
        if self.icon_area(0).spec_contains(x, y) {
            Some(0int)
        } else if self.icon_area(1).spec_contains(x, y) {
            Some(1int)
        } else if self.icon_area(2).spec_contains(x, y) {
            Some(2int)
        } else if self.icon_area(3).spec_contains(x, y) {
            Some(3int)
        } else if self.icon_area(4).spec_contains(x, y) {
            Some(4int)
        } else {
            None
        }
    }

    pub fn dock_rect(&self) -> (r: Rect)
        requires
            self.wf(),
        ensures
            r == self.dock_area(),
            -400 <= r.x <= 0x10_0000,
            -100 <= r.y <= 0x10_0000,
    {
        let d: i64 = self.width as i64 - 308;
        Rect::new(crate::arith::div(d, 2) as i32, self.height - 78, 308, 68)
    }

    pub fn dock_icon_rect(&self, i: usize) -> (r: Rect)
        requires
            self.wf(),
            i < DOCK_LEN,
        ensures
            r == self.icon_area(i as int),
            small_rect(r),
    {
        let d: Rect = self.dock_rect();
        Rect::new(d.x + 14 + i as i32 * 58, d.y + DOCK_PAD, DOCK_ICON, DOCK_ICON)
    }

    pub fn dock_damage_rect(&self) -> (r: Rect)
        requires
            self.wf(),
        ensures
            r == self.dock_surroundings(),
    {
        let d: Rect = self.dock_rect();
        Rect::new(d.x - 60, d.y - 60, d.w + 120, d.h + 70)
    }

    pub fn dock_position(kind: AppKind) -> (r: Option<usize>)
        ensures
            match r {
                Some(i) => dock_slot(kind) == Some(i as int) && i < DOCK_LEN,
                None => dock_slot(kind) is None,
            },
    {
        match kind {
            AppKind::Explorer => Some(0),
            AppKind::Terminal => Some(1),
            AppKind::Editor => Some(2),
            AppKind::Settings => Some(3),
            AppKind::About => Some(4),
            _ => None,
        }
    }

    pub fn dock_target(&self, kind: AppKind) -> (r: Rect)
        requires
            self.wf(),
        ensures
            r == self.dock_goal(kind),
            small_rect(r),
    {
        match Shell::dock_position(kind) {
            Some(i) => self.dock_icon_rect(i),
            None => {
                let d: Rect = self.dock_rect();
                Rect::new(d.x + d.w / 2 - 24, d.y, 48, 48)
            },
        }
    }

    pub fn dock_entry_at(&self, x: i32, y: i32) -> (r: Option<usize>)
        requires
            self.wf(),
        ensures
            match r {
                Some(i) => i < DOCK_LEN && self.dock_hit(x as int, y as int) == Some(i as int),
                None => self.dock_hit(x as int, y as int) is None,
            },
    {
        if self.dock_icon_rect(0).contains(x, y) {
            Some(0)
        } else if self.dock_icon_rect(1).contains(x, y) {
            Some(1)
        } else if self.dock_icon_rect(2).contains(x, y) {
            Some(2)
        } else if self.dock_icon_rect(3).contains(x, y) {
            Some(3)
        } else if self.dock_icon_rect(4).contains(x, y) {
            Some(4)
        } else {
            None
        }
    }

    /// An animation that starts now, unless animations are switched off.
    pub open spec fn animation(self, kind: AnimKind, duration: u64, now: u64) -> Option<Anim> {
        if self.animations { Some(Anim { kind, start: now, duration }) } else { None }
    }

    pub fn animate(&self, kind: AnimKind, duration: u64, now: u64) -> (r: Option<Anim>)
        ensures
            r == self.animation(kind, duration, now),
    {
        if self.animations { Some(Anim { kind, start: now, duration }) } else { None }
    }

    /// How high a dock icon hops: two parabolic arcs, the second smaller.
    pub open spec fn hop(self, kind: AppKind, now: u64) -> int {
        match self.dock_bounce {
            Some((k, start)) => if k == kind {
                let t = min(max(now - start, 0), BOUNCE_MS as int);
                let phase = if t < 450 { t * 1024 / 450 } else { (t - 450) * 1024 / 450 };
                let amp = if t < 450 { 18int } else { 8 };
                amp * 4 * phase * (1024 - phase) / 1048576
            } else {
                0
            },
            None => 0,
        }
    }

    pub fn bounce_offset(&self, kind: AppKind, now: u64) -> (r: i32)
        ensures
            r == self.hop(kind, now),
            0 <= r <= 18,
    {
        match self.dock_bounce {
            Some((k, start)) => {
                if k == kind {
                    let e: u64 = now.saturating_sub(start);
                    let t: i64 = if e < BOUNCE_MS { e as i64 } else { BOUNCE_MS as i64 };
                    let phase: i64 = if t < 450 { t * 1024 / 450 } else { (t - 450) * 1024 / 450 };
                    let amp: i64 = if t < 450 { 18 } else { 8 };
                    proof {
                        assert(0 <= phase * (1024 - phase) <= 512 * 512) by (nonlinear_arith)
                            requires
                                0 <= phase <= 1024,
                        ;
                        let q = phase * (1024 - phase);
                        assert(amp * 4 * phase * (1024 - phase) == amp * 4 * q) by (nonlinear_arith)
                            requires
                                q == phase * (1024 - phase),
                        ;
                        assert(0 <= amp * 4 * phase <= 72 * 1024) by (nonlinear_arith)
                            requires
                                0 <= amp <= 18,
                                0 <= phase <= 1024,
                        ;
                        assert(0 <= amp * 4 * q <= 72 * 512 * 512) by (nonlinear_arith)
                            requires
                                0 <= amp <= 18,
                                0 <= q <= 512 * 512,
                        ;
                    }
                    (amp * 4 * phase * (1024 - phase) / 1048576) as i32
                } else {
                    0
                }
            },
            None => 0,
        }
    }
}

} // verus!
