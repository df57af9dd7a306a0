//! Where things are in the explorer's window.

use super::menu::{ContextMenu, MenuState};
use crate::arith::{clamp, max, tdiv};
use crate::gui::geom::Area;
use vstd::prelude::*;

verus! {

pub const TOOLBAR_H: i32 = 50;
pub const SIDEBAR_W: i32 = 176;
pub const HEADER_H: i32 = 28;
pub const ROW_H: i32 = 28;
pub const STATUS_H: i32 = 26;

#[derive(Clone, Copy, PartialEq, Eq, Debug, Structural)]
pub enum Tool {
    Back,
    Forward,
    Up,
    NewFolder,
    NewFile,
}

#[derive(Clone, Copy, PartialEq, Eq, Debug, Structural)]
pub enum Hover {
    Nothing,
    Tool(Tool),
    Place(usize),
    Crumb(usize),
    Row(usize),
    Menu(usize),
}

/// The list of files: how many there are, how far it is scrolled, and the
/// size of the window.
#[derive(Clone, Copy, PartialEq, Eq, Debug, Structural)]
pub struct Pane {
    pub w: i32,
    pub h: i32,
    pub count: usize,
    pub scroll: i64,
}

impl Pane {
    /// There are no more files than have room in 32-bit coordinates.
    pub open spec fn wf(self) -> bool {
        &&& self.count * 28 + 8 <= i32::MAX
        &&& -0x1_0000_0000 <= self.scroll <= 0x1_0000_0000
        &&& self.w >= 0
        &&& self.h >= 0
    }

    pub open spec fn list(self) -> Area {
        Area { x: 176, y: 78, w: (self.w - 176) as i64, h: (self.h - 104) as i64 }
    }

    pub open spec fn content(self) -> int {
        self.count * 28 + 8
    }

    pub open spec fn max_scroll(self) -> int {
        max(self.content() - self.list().h, 0)
    }

    pub open spec fn clamped(self) -> Pane {
        Pane { scroll: clamp(self.scroll as int, 0, self.max_scroll()) as i64, ..self }
    }

    pub open spec fn row(self, i: int) -> Area {
        let l = self.list();
        Area { x: (l.x + 6) as i64, y: (l.y + 4 + i * 28 - self.scroll) as i64, w: (l.w - 20) as i64, h: 28 }
    }

    pub open spec fn track(self) -> Area {
        let l = self.list();
        Area { x: (l.x + l.w - 12) as i64, y: (l.y + 2) as i64, w: 10, h: (l.h - 4) as i64 }
    }

    /// Scrolled so that row `i` can be seen.
    pub open spec fn showing(self, i: int) -> Pane {
        let top = 4 + i * 28;
        let h = self.list().h;
        let s = if top < self.scroll {
            top - 4
        } else if top + 28 > self.scroll + h {
            top + 28 - h + 4
        } else {
            self.scroll as int
        };
        (Pane { scroll: s as i64, ..self }).clamped()
    }

    pub open spec fn row_at(self, x: int, y: int) -> Option<usize> {
        let l = self.list();
        let d = y - l.y - 4 + self.scroll;
        if !l.spec_has(x, y) || x >= l.x + l.w - 14 || d < 0 || d / 28 >= self.count {
            None
        } else {
            Some((d / 28) as usize)
        }
    }

    /// Scrolled by dragging the scroll bar to `y`.
    pub open spec fn dragged(self, y: int) -> Pane {
        let range = self.max_scroll();
        let t = self.track();
        Pane { scroll: clamp(tdiv((y - t.y) * range, max(t.h as int, 1)), 0, range) as i64, ..self }
    }

    pub open spec fn tool(self, t: Tool) -> Area {
        match t {
            Tool::Back => Area { x: 12, y: 10, w: 32, h: 30 },
            Tool::Forward => Area { x: 46, y: 10, w: 32, h: 30 },
            Tool::Up => Area { x: 80, y: 10, w: 32, h: 30 },
            Tool::NewFile => Area { x: (self.w - 96) as i64, y: 10, w: 84, h: 30 },
            Tool::NewFolder => Area { x: (self.w - 196) as i64, y: 10, w: 94, h: 30 },
        }
    }

    pub open spec fn tool_at(self, x: int, y: int) -> Option<Tool> {
        if self.tool(Tool::Back).spec_has(x, y) {
            Some(Tool::Back)
        } else if self.tool(Tool::Forward).spec_has(x, y) {
            Some(Tool::Forward)
        } else if self.tool(Tool::Up).spec_has(x, y) {
            Some(Tool::Up)
        } else if self.tool(Tool::NewFolder).spec_has(x, y) {
            Some(Tool::NewFolder)
        } else if self.tool(Tool::NewFile).spec_has(x, y) {
            Some(Tool::NewFile)
        } else {
            None
        }
    }

    pub open spec fn crumbs(self) -> Area {
        Area { x: 124, y: 10, w: max(self.w - 332, 60) as i64, h: 30 }
    }
}

pub open spec fn place_area(i: int) -> Area {
    Area { x: 8, y: (84 + i * 30) as i64, w: 160, h: 28 }
}

/// The first of these areas that has a point.
pub open spec fn first_with(areas: Seq<Area>, x: int, y: int, k: int) -> Option<usize>
    decreases areas.len() - k,
{
    if k < 0 || k >= areas.len() {
        None
    } else if areas[k].spec_has(x, y) {
        Some(k as usize)
    } else {
        first_with(areas, x, y, k + 1)
    }
}

pub open spec fn place_areas(n: nat) -> Seq<Area> {
    Seq::new(n, |i: int| place_area(i))
}

/// What is at a point; while a menu is open, only its items are.
pub open spec fn hit(p: Pane, menu: Option<MenuState>, crumbs: Seq<Area>, places: nat, x: int, y: int) -> Hover {
    match menu {
        Some(m) => match m.item_at((p.w, p.h), x, y) {
            Some(i) => Hover::Menu(i),
            None => Hover::Nothing,
        },
        None => match p.tool_at(x, y) {
            Some(t) => Hover::Tool(t),
            None => match first_with(crumbs, x, y, 0) {
                Some(i) => Hover::Crumb(i),
                None => match first_with(place_areas(places), x, y, 0) {
                    Some(i) => Hover::Place(i),
                    None => match p.row_at(x, y) {
                        Some(i) => Hover::Row(i),
                        None => Hover::Nothing,
                    },
                },
            },
        },
    }
}

/// After a row was asked for, all of it can be seen, if the list is tall
/// enough for it.
pub proof fn lemma_showing(p: Pane, i: int)
    requires
        p.wf(),
        0 <= i < p.count,
        p.list().h >= 36,
    ensures
        ({
            let s = p.showing(i).scroll;
            s <= 4 + i * 28 && 4 + i * 28 + 28 <= s + p.list().h
        }),
{
}

/// A row is found again at its own place.
pub proof fn lemma_row_at_row(p: Pane, i: int, x: int, y: int)
    requires
        p.wf(),
        0 <= i < p.count,
        p.row(i).spec_has(x, y),
        p.list().spec_has(x, y),
    ensures
        p.row_at(x, y) == Some(i as usize),
{
    let d = y - p.list().y - 4 + p.scroll;
    assert(i * 28 <= d < i * 28 + 28);
    assert(d / 28 == i) by (nonlinear_arith)
        requires
            i * 28 <= d < i * 28 + 28,
    ;
}

impl Pane {
    pub fn list_rect(&self) -> (r: Area)
        ensures
            r == self.list(),
            r.small(),
    {
        Area { x: 176, y: 78, w: self.w as i64 - 176, h: self.h as i64 - 104 }
    }

    pub fn content_height(&self) -> (r: i64)
        requires
            self.wf(),
        ensures
            r == self.content(),
    {
        self.count as i64 * 28 + 8
    }

    fn range(&self) -> (r: i64)
        requires
            self.wf(),
        ensures
            r == self.max_scroll(),
            0 <= r <= 0x8000_0100,
    {
        let d: i64 = self.content_height() - self.list_rect().h;
        if d > 0 { d } else { 0 }
    }

    pub fn clamp_scroll(&mut self)
        requires
            old(self).wf(),
        ensures
            *final(self) == old(self).clamped(),
            final(self).wf(),
    {
        let m: i64 = self.range();
        self.scroll = crate::arith::clamp_i64(self.scroll, 0, m);
    }

    pub fn row_rect(&self, i: usize) -> (r: Area)
        requires
            self.wf(),
            i < self.count,
        ensures
            r == self.row(i as int),
    {
        let l: Area = self.list_rect();
        Area { x: l.x + 6, y: l.y + 4 + i as i64 * 28 - self.scroll, w: l.w - 20, h: 28 }
    }

    pub fn scrollbar_track(&self) -> (r: Area)
        ensures
            r == self.track(),
            r.small(),
    {
        let l: Area = self.list_rect();
        Area { x: l.x + l.w - 12, y: l.y + 2, w: 10, h: l.h - 4 }
    }

    pub fn ensure_visible(&mut self, i: usize)
        requires
            old(self).wf(),
            i < old(self).count,
        ensures
            *final(self) == old(self).showing(i as int),
            final(self).wf(),
    {
        let h: i64 = self.list_rect().h;
        let top: i64 = 4 + i as i64 * 28;
        if top < self.scroll {
            self.scroll = top - 4;
        } else if top + 28 > self.scroll + h {
            self.scroll = top + 28 - h + 4;
        }
        let m: i64 = self.range();
        self.scroll = crate::arith::clamp_i64(self.scroll, 0, m);
    }

    pub fn find_row(&self, x: i32, y: i32) -> (r: Option<usize>)
        requires
            self.wf(),
        ensures
            r == self.row_at(x as int, y as int),
            r matches Some(i) ==> i < self.count,
    {
        let l: Area = self.list_rect();
        if !l.has(x, y) || x as i64 >= l.x + l.w - 14 {
            return None;
        }
        let d: i64 = y as i64 - l.y - 4 + self.scroll;
        if d < 0 || d / 28 >= self.count as i64 {
            return None;
        }
        Some((d / 28) as usize)
    }

    pub fn drag_to(&mut self, y: i32)
        requires
            old(self).wf(),
        ensures
            *final(self) == old(self).dragged(y as int),
            final(self).wf(),
    {
        let t: Area = self.scrollbar_track();
        let range: i64 = self.range();
        let h: i64 = if t.h > 1 { t.h } else { 1 };
        let d: i64 = y as i64 - t.y;
        proof {
            assert(-0x7fff_0000_0000_0000 <= d * range <= 0x7fff_0000_0000_0000) by (nonlinear_arith)
                requires
                    -0x8000_0100 <= d <= 0x8000_0000,
                    0 <= range <= 0x8000_0100,
            ;
        }
        self.scroll = crate::arith::clamp_i64(crate::arith::div(d * range, h), 0, range);
    }

    /// Scroll by two rows for each step of the wheel.
    pub fn wheel(&mut self, delta: i32)
        requires
            old(self).wf(),
        ensures
            *final(self) == (Pane { scroll: (old(self).scroll + delta * 56) as i64, ..*old(self) }).clamped(),
            final(self).wf(),
    {
        let m: i64 = self.range();
        self.scroll = crate::arith::clamp_i64(self.scroll + delta as i64 * 56, 0, m);
    }

    pub fn tool_rect(&self, t: Tool) -> (r: Area)
        ensures
            r == self.tool(t),
            r.small(),
    {
        match t {
            Tool::Back => Area { x: 12, y: 10, w: 32, h: 30 },
            Tool::Forward => Area { x: 46, y: 10, w: 32, h: 30 },
            Tool::Up => Area { x: 80, y: 10, w: 32, h: 30 },
            Tool::NewFile => Area { x: self.w as i64 - 96, y: 10, w: 84, h: 30 },
            Tool::NewFolder => Area { x: self.w as i64 - 196, y: 10, w: 94, h: 30 },
        }
    }

    fn find_tool(&self, x: i32, y: i32) -> (r: Option<Tool>)
        ensures
            r == self.tool_at(x as int, y as int),
    {
        if self.tool_rect(Tool::Back).has(x, y) {
            Some(Tool::Back)
        } else if self.tool_rect(Tool::Forward).has(x, y) {
            Some(Tool::Forward)
        } else if self.tool_rect(Tool::Up).has(x, y) {
            Some(Tool::Up)
        } else if self.tool_rect(Tool::NewFolder).has(x, y) {
            Some(Tool::NewFolder)
        } else if self.tool_rect(Tool::NewFile).has(x, y) {
            Some(Tool::NewFile)
        } else {
            None
        }
    }

    pub fn crumb_area(&self) -> (r: Area)
        ensures
            r == self.crumbs(),
    {
        let w: i64 = self.w as i64 - 332;
        Area { x: 124, y: 10, w: if w > 60 { w } else { 60 }, h: 30 }
    }
}

pub open spec fn all_small(areas: Seq<Area>) -> bool {
    forall|i: int| 0 <= i < areas.len() ==> (#[trigger] areas[i]).small()
}

fn find_first(areas: &[Area], x: i32, y: i32) -> (r: Option<usize>)
    requires
        all_small(areas@),
    ensures
        r == first_with(areas@, x as int, y as int, 0),
        r matches Some(i) ==> i < areas@.len(),
{
    let mut k: usize = 0;
    while k < areas.len()
        invariant
            k <= areas@.len(),
            all_small(areas@),
            first_with(areas@, x as int, y as int, 0) == first_with(areas@, x as int, y as int, k as int),
        decreases areas@.len() - k,
    {
        if areas[k].has(x, y) {
            return Some(k);
        }
        k += 1;
    }
    None
}

pub fn place_rect(i: usize) -> (r: Area)
    requires
        i < 100,
    ensures
        r == place_area(i as int),
        r.small(),
{
    Area { x: 8, y: 84 + i as i64 * 30, w: 160, h: 28 }
}

/// What is at a point.
pub fn find_hit(p: &Pane, menu: &Option<ContextMenu>, crumbs: &[Area], places: usize, x: i32, y: i32) -> (r: Hover)
    requires
        p.wf(),
        all_small(crumbs@),
        places <= 5,
        *menu matches Some(m) ==> m@.items.len() <= 100,
    ensures
        r == hit(
            *p,
            match *menu {
                Some(m) => Some(m@),
                None => None,
            },
            crumbs@,
            places as nat,
            x as int,
            y as int,
        ),
        r matches Hover::Row(i) ==> i < p.count,
        r matches Hover::Crumb(i) ==> i < crumbs@.len(),
        r matches Hover::Place(i) ==> i < places,
{
    if let Some(m) = menu {
        return match m.item_at((p.w, p.h), x, y) {
            Some(i) => Hover::Menu(i),
            None => Hover::Nothing,
        };
    }
    if let Some(t) = p.find_tool(x, y) {
        return Hover::Tool(t);
    }
    if let Some(i) = find_first(crumbs, x, y) {
        return Hover::Crumb(i);
    }
    let mut areas: Vec<Area> = Vec::new();
    let mut i: usize = 0;
    while i < places
        invariant
            i <= places <= 5,
            areas@ == place_areas(i as nat),
            all_small(areas@),
        decreases places - i,
    {
        areas.push(place_rect(i));
        i += 1;
        proof {
            assert(areas@ =~= place_areas(i as nat));
        }
    }
    if let Some(i) = find_first(&areas, x, y) {
        return Hover::Place(i);
    }
    match p.find_row(x, y) {
        Some(i) => Hover::Row(i),
        None => Hover::Nothing,
    }
}

/// Where the columns of the list begin; a narrow list leaves some out.
pub struct Columns {
    pub name: i64,
    pub size: Option<i64>,
    pub modified: Option<i64>,
    pub kind: Option<i64>,
}

pub fn columns(p: &Pane) -> (r: Columns)
    ensures
        ({
            let l = p.list();
            &&& r.name == l.x + 16
            &&& r.kind == if l.w > 620 { Some((l.x + l.w - 150) as i64) } else { None }
            &&& r.modified == if l.w > 620 {
                Some((l.x + l.w - 300) as i64)
            } else if l.w > 480 {
                Some((l.x + l.w - 150) as i64)
            } else {
                None
            }
            &&& r.size == if l.w > 620 {
                Some((l.x + l.w - 390) as i64)
            } else if l.w > 480 {
                Some((l.x + l.w - 240) as i64)
            } else if l.w > 330 {
                Some((l.x + l.w - 150) as i64)
            } else {
                None
            }
        }),
{
    let l: Area = p.list_rect();
    let right: i64 = l.x + l.w - 150;
    let kind: Option<i64> = if l.w > 620 { Some(right) } else { None };
    let second: i64 = right - if kind.is_some() { 150 } else { 0 };
    let modified: Option<i64> = if l.w > 480 { Some(second) } else { None };
    let third: i64 = second - if modified.is_some() { 90 } else { 0 };
    let size: Option<i64> = if l.w > 330 { Some(third) } else { None };
    Columns { name: l.x + 16, size, modified, kind }
}

/// The scroll bar's two ends show the first and the last rows.
pub proof fn lemma_scrollbar_ends(p: Pane, y: int)
    requires
        p.wf(),
        p.track().h > 0,
    ensures
        y <= p.track().y ==> p.dragged(y).scroll == 0,
        y >= p.track().y + p.track().h ==> p.dragged(y).scroll == p.max_scroll(),
        0 <= p.dragged(y).scroll <= p.max_scroll(),
{
    let range = p.max_scroll();
    let h = p.track().h as int;
    let d = y - p.track().y;
    if d <= 0 {
        let a = -(d * range);
        assert(a >= 0) by (nonlinear_arith)
            requires
                d <= 0,
                range >= 0,
                a == -(d * range),
        ;
        assert(a / h >= 0) by (nonlinear_arith)
            requires
                a >= 0,
                h > 0,
        ;
    } else if d >= h {
        assert(d * range >= h * range) by (nonlinear_arith)
            requires
                d >= h,
                range >= 0,
        ;
        assert((d * range) / h >= range) by (nonlinear_arith)
            requires
                d * range >= h * range,
                h > 0,
        ;
        assert(d * range >= 0) by (nonlinear_arith)
            requires
                d > 0,
                range >= 0,
        ;
    }
}

/// Scrolling moves the rows with the list: what is at a point then is what
/// was as much further down before.
pub proof fn lemma_rows_scroll(p: Pane, x: int, y: int, d: int)
    requires
        p.wf(),
        p.list().spec_has(x, y),
        p.list().spec_has(x, y + d),
        -0x1_0000_0000 <= p.scroll + d <= 0x1_0000_0000,
    ensures
        (Pane { scroll: (p.scroll + d) as i64, ..p }).row_at(x, y) == p.row_at(x, y + d),
{
}

/// Of the areas at a point the first one counts.
pub proof fn lemma_first_with(areas: Seq<Area>, x: int, y: int, k: int)
    requires
        0 <= k <= areas.len() <= usize::MAX,
    ensures
        match first_with(areas, x, y, k) {
            Some(i) => k <= i < areas.len() && areas[i as int].spec_has(x, y) && forall|j: int|
                k <= j < i ==> !(#[trigger] areas[j]).spec_has(x, y),
            None => forall|j: int| k <= j < areas.len() ==> !(#[trigger] areas[j]).spec_has(x, y),
        },
    decreases areas.len() - k,
{
    if k < areas.len() && !areas[k].spec_has(x, y) {
        lemma_first_with(areas, x, y, k + 1);
    }
}

} // verus!
