//! The context menu of the explorer.

use crate::arith::{max, min};
use crate::gui::geom::Area;
use vstd::prelude::*;

verus! {

#[derive(Clone, Copy, PartialEq, Eq, Debug, Structural)]
pub enum Action {
    Open,
    Rename,
    Duplicate,
    Copy,
    Cut,
    Paste,
    Delete,
    NewFolder,
    NewFile,
    Refresh,
    TerminalHere,
}

impl Action {
    pub open spec fn spec_label(self) -> Seq<char> {
        match self {
            Action::Open => "Open"@,
            Action::Rename => "Rename\u{2026}"@,
            Action::Duplicate => "Duplicate"@,
            Action::Copy => "Copy"@,
            Action::Cut => "Cut"@,
            Action::Paste => "Paste"@,
            Action::Delete => "Delete\u{2026}"@,
            Action::NewFolder => "New Folder\u{2026}"@,
            Action::NewFile => "New File\u{2026}"@,
            Action::Refresh => "Refresh"@,
            Action::TerminalHere => "Open Terminal Here"@,
        }
    }

    pub fn label(&self) -> (r: &'static str)
        ensures
            r@ == self.spec_label(),
    {
        match self {
            Action::Open => "Open",
            Action::Rename => "Rename\u{2026}",
            Action::Duplicate => "Duplicate",
            Action::Copy => "Copy",
            Action::Cut => "Cut",
            Action::Paste => "Paste",
            Action::Delete => "Delete\u{2026}",
            Action::NewFolder => "New Folder\u{2026}",
            Action::NewFile => "New File\u{2026}",
            Action::Refresh => "Refresh",
            Action::TerminalHere => "Open Terminal Here",
        }
    }
}

/// A menu at a point; `None` among the items is a separator.
pub struct ContextMenu {
    pub x: i32,
    pub y: i32,
    pub items: Vec<Option<Action>>,
}

#[verifier::ext_equal]
pub struct MenuState {
    pub x: i32,
    pub y: i32,
    pub items: Seq<Option<Action>>,
}

impl View for ContextMenu {
    type V = MenuState;

    open spec fn view(&self) -> MenuState {
        MenuState { x: self.x, y: self.y, items: self.items@ }
    }
}

pub open spec fn item_height(it: Option<Action>) -> int {
    if it is Some { 26 } else { 9 }
}

/// The height of the first `k` items.
pub open spec fn height_to(items: Seq<Option<Action>>, k: int) -> int
    decreases k,
{
    if k <= 0 { 0 } else { height_to(items, k - 1) + item_height(items[k - 1]) }
}

impl MenuState {
    pub open spec fn area(self, bounds: (i32, i32)) -> Area {
        let h = height_to(self.items, self.items.len() as int) + 10;
        Area {
            x: max(min(self.x as int, bounds.0 - 194), 4) as i64,
            y: max(min(self.y as int, bounds.1 - h - 4), 4) as i64,
            w: 190,
            h: h as i64,
        }
    }

    /// The item whose row is at height `y` below the first, from item `k`
    /// on.
    pub open spec fn row_at(self, y: int, k: int) -> Option<usize>
        decreases self.items.len() - k,
    {
        if k < 0 || k >= self.items.len() {
            None
        } else if height_to(self.items, k) <= y < height_to(self.items, k + 1) {
            if self.items[k] is Some { Some(k as usize) } else { None }
        } else {
            self.row_at(y, k + 1)
        }
    }

    pub open spec fn item_at(self, bounds: (i32, i32), x: int, y: int) -> Option<usize> {
        let r = self.area(bounds);
        if r.spec_has(x, y) { self.row_at(y - r.y - 5, 0) } else { None }
    }
}

/// What is found at a point is an item that can be chosen.
pub proof fn lemma_item_at(m: MenuState, y: int, k: int)
    requires
        0 <= k,
        m.row_at(y, k) is Some,
        m.items.len() <= usize::MAX,
    ensures
        m.row_at(y, k)->0 < m.items.len(),
        m.items[m.row_at(y, k)->0 as int] is Some,
    decreases m.items.len() - k,
{
    if k < m.items.len() && !(height_to(m.items, k) <= y < height_to(m.items, k + 1)) {
        lemma_item_at(m, y, k + 1);
    }
}

/// The items for a place: on an item or beside it, with or without
/// something to paste.
pub open spec fn menu_items(on_item: bool, has_clip: bool) -> Seq<Option<Action>> {
    (if on_item {
        seq![
            Some(Action::Open),
            None,
            Some(Action::Rename),
            Some(Action::Duplicate),
            Some(Action::Copy),
            Some(Action::Cut),
            Some(Action::Delete),
            None,
        ]
    } else {
        Seq::empty()
    }) + seq![Some(Action::NewFolder), Some(Action::NewFile)] + (if has_clip {
        seq![Some(Action::Paste)]
    } else {
        Seq::empty()
    }) + seq![None, Some(Action::TerminalHere), Some(Action::Refresh)]
}

/// "Paste" is offered just when there is something to paste, and an item
/// can be changed only where there is one.
pub proof fn lemma_menu_items(on_item: bool, has_clip: bool)
    ensures
        menu_items(on_item, has_clip).contains(Some(Action::Paste)) == has_clip,
        menu_items(on_item, has_clip).contains(Some(Action::Delete)) == on_item,
        menu_items(on_item, has_clip).contains(Some(Action::Refresh)),
{
    let m = menu_items(on_item, has_clip);
    assert(m.last() == Some(Action::Refresh));
    assert(m[m.len() - 1] == Some(Action::Refresh));
    if has_clip {
        let k = if on_item { 10int } else { 2 };
        assert(m[k] == Some(Action::Paste));
    }
    if on_item {
        assert(m[6] == Some(Action::Delete));
    }
    if !has_clip && m.contains(Some(Action::Paste)) {
        let k = choose|k: int| 0 <= k < m.len() && m[k] == Some(Action::Paste);
        assert(m[k] == Some(Action::Paste));
    }
    if !on_item && m.contains(Some(Action::Delete)) {
        let k = choose|k: int| 0 <= k < m.len() && m[k] == Some(Action::Delete);
        assert(m[k] == Some(Action::Delete));
    }
}

impl ContextMenu {
    pub fn new(x: i32, y: i32, on_item: bool, has_clip: bool) -> (r: ContextMenu)
        ensures
            r@ == (MenuState { x, y, items: menu_items(on_item, has_clip) }),
    {
        let mut items: Vec<Option<Action>> = Vec::new();
        if on_item {
            items.push(Some(Action::Open));
            items.push(None);
            items.push(Some(Action::Rename));
            items.push(Some(Action::Duplicate));
            items.push(Some(Action::Copy));
            items.push(Some(Action::Cut));
            items.push(Some(Action::Delete));
            items.push(None);
        }
        items.push(Some(Action::NewFolder));
        items.push(Some(Action::NewFile));
        if has_clip {
            items.push(Some(Action::Paste));
        }
        items.push(None);
        items.push(Some(Action::TerminalHere));
        items.push(Some(Action::Refresh));
        proof {
            assert(items@ =~= menu_items(on_item, has_clip));
        }
        ContextMenu { x, y, items }
    }

    pub fn rect(&self, bounds: (i32, i32)) -> (r: Area)
        requires
            self@.items.len() <= 100,
        ensures
            r == self@.area(bounds),
            r.small(),
    {
        let n: usize = self.items.len();
        let mut h: i64 = 0;
        let mut i: usize = 0;
        while i < n
            invariant
                i <= n == self.items@.len(),
                n <= 100,
                h == height_to(self.items@, i as int),
                0 <= h <= 26 * i,
            decreases n - i,
        {
            h += if self.items[i].is_some() { 26 } else { 9 };
            i += 1;
        }
        let bx: i64 = bounds.0 as i64 - 194;
        let by: i64 = bounds.1 as i64 - (h + 10) - 4;
        let x: i64 = if (self.x as i64) < bx { self.x as i64 } else { bx };
        let y: i64 = if (self.y as i64) < by { self.y as i64 } else { by };
        Area { x: if x > 4 { x } else { 4 }, y: if y > 4 { y } else { 4 }, w: 190, h: h + 10 }
    }

    pub fn item_at(&self, bounds: (i32, i32), x: i32, y: i32) -> (r: Option<usize>)
        requires
            self@.items.len() <= 100,
        ensures
            r == self@.item_at(bounds, x as int, y as int),
            r matches Some(i) ==> i < self@.items.len() && self@.items[i as int] is Some,
    {
        let a: Area = self.rect(bounds);
        if !a.has(x, y) {
            return None;
        }
        let at: i64 = y as i64 - a.y - 5;
        let n: usize = self.items.len();
        let mut top: i64 = 0;
        let mut i: usize = 0;
        while i < n
            invariant
                i <= n == self.items@.len(),
                n <= 100,
                top == height_to(self.items@, i as int),
                0 <= top <= 26 * i,
                a == self@.area(bounds),
                a.spec_has(x as int, y as int),
                at == y - a.y - 5,
                self@.row_at(at as int, 0) == self@.row_at(at as int, i as int),
            decreases n - i,
        {
            let h: i64 = if self.items[i].is_some() { 26 } else { 9 };
            proof {
                assert(height_to(self.items@, i + 1) == top + h);
            }
            if at >= top && at < top + h {
                return if self.items[i].is_some() { Some(i) } else { None };
            }
            top += h;
            i += 1;
        }
        None
    }
}

proof fn lemma_heights(items: Seq<Option<Action>>, a: int, b: int)
    requires
        0 <= a <= b,
    ensures
        height_to(items, a) <= height_to(items, b),
    decreases b - a,
{
    if a < b {
        lemma_heights(items, a, b - 1);
    }
}

proof fn lemma_row_found(m: MenuState, i: int, y: int, k: int)
    requires
        0 <= k <= i < m.items.len(),
        m.items[i] is Some,
        height_to(m.items, i) <= y < height_to(m.items, i + 1),
    ensures
        m.row_at(y, k) == Some(i as usize),
    decreases i - k,
{
    if k < i {
        lemma_heights(m.items, k + 1, i);
        lemma_row_found(m, i, y, k + 1);
    }
}

/// The item that is drawn at a point is the one that a click there chooses,
/// and a line between items is none.
pub proof fn lemma_items_hit(m: MenuState, bounds: (i32, i32), i: int, x: int, y: int)
    requires
        0 <= i < m.items.len() <= usize::MAX,
        m.area(bounds).spec_has(x, y),
        height_to(m.items, i) <= y - m.area(bounds).y - 5 < height_to(m.items, i + 1),
    ensures
        m.items[i] is Some ==> m.item_at(bounds, x, y) == Some(i as usize),
        m.items[i] is None ==> m.item_at(bounds, x, y) is None,
{
    if m.items[i] is Some {
        lemma_row_found(m, i, y - m.area(bounds).y - 5, 0);
    } else {
        lemma_line_found(m, i, y - m.area(bounds).y - 5, 0);
    }
}

proof fn lemma_line_found(m: MenuState, i: int, y: int, k: int)
    requires
        0 <= k <= i < m.items.len(),
        m.items[i] is None,
        height_to(m.items, i) <= y < height_to(m.items, i + 1),
    ensures
        m.row_at(y, k) is None,
    decreases i - k,
{
    if k < i {
        lemma_heights(m.items, k + 1, i);
        lemma_line_found(m, i, y, k + 1);
    }
}

/// A menu opens at the pointer where there is room, and otherwise as close
/// to it as it fits into the window.
pub proof fn lemma_menu_in_window(m: MenuState, bounds: (i32, i32))
    requires
        0 <= m.items.len() <= 100,
        bounds.0 >= 198,
        bounds.1 >= height_to(m.items, m.items.len() as int) + 18,
    ensures
        ({
            let r = m.area(bounds);
            &&& 4 <= r.x && r.x + r.w <= bounds.0 - 4
            &&& 4 <= r.y && r.y + r.h <= bounds.1 - 4
            &&& 4 <= m.x && m.x + r.w <= bounds.0 - 4 ==> r.x == m.x
            &&& 4 <= m.y && m.y + r.h <= bounds.1 - 4 ==> r.y == m.y
        }),
{
    lemma_heights(m.items, 0, m.items.len() as int);
}

} // verus!
