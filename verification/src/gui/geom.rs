//! Rectangles in screen or window coordinates.

use crate::arith::{fits, max, max_i64, min, min_i64};
use vstd::prelude::*;

verus! {

#[derive(Clone, Copy, Debug, PartialEq, Eq, Structural)]
pub struct Rect {
    pub x: i32,
    pub y: i32,
    pub w: i32,
    pub h: i32,
}

/// Whether the point lies in the rectangle at (x, y) of size w by h.
pub open spec fn inside(x: int, y: int, w: int, h: int, px: int, py: int) -> bool {
    x <= px < x + w && y <= py < y + h
}

/// A rectangle with room for every sum of window coordinates.
#[derive(Clone, Copy, Debug, PartialEq, Eq, Structural)]
pub struct Area {
    pub x: i64,
    pub y: i64,
    pub w: i64,
    pub h: i64,
}

impl Area {
    pub open spec fn spec_has(self, x: int, y: int) -> bool {
        inside(self.x as int, self.y as int, self.w as int, self.h as int, x, y)
    }

    /// Whether its edges are within eight window widths of the origin.
    pub open spec fn small(self) -> bool {
        &&& -0x4_0000_0000 <= self.x <= 0x4_0000_0000
        &&& -0x4_0000_0000 <= self.y <= 0x4_0000_0000
        &&& -0x4_0000_0000 <= self.w <= 0x4_0000_0000
        &&& -0x4_0000_0000 <= self.h <= 0x4_0000_0000
    }

    pub fn has(&self, x: i32, y: i32) -> (r: bool)
        requires
            self.small(),
        ensures
            r == self.spec_has(x as int, y as int),
    {
        let (px, py) = (x as i64, y as i64);
        self.x <= px && px < self.x + self.w && self.y <= py && py < self.y + self.h
    }

    /// Grown by `d` on all sides.
    pub open spec fn spec_grown(self, d: int) -> Area {
        Area {
            x: (self.x - d) as i64,
            y: (self.y - d) as i64,
            w: (self.w + 2 * d) as i64,
            h: (self.h + 2 * d) as i64,
        }
    }

    pub fn grown(&self, d: i64) -> (r: Area)
        requires
            self.small(),
            0 <= d <= 100,
        ensures
            r == self.spec_grown(d as int),
    {
        Area { x: self.x - d, y: self.y - d, w: self.w + 2 * d, h: self.h + 2 * d }
    }
}

impl Rect {
    /// Right and bottom edges are 32-bit numbers.
    pub open spec fn fits(self) -> bool {
        fits(self.x + self.w) && fits(self.y + self.h)
    }

    pub open spec fn spec_contains(self, x: int, y: int) -> bool {
        inside(self.x as int, self.y as int, self.w as int, self.h as int, x, y)
    }

    pub open spec fn spec_is_empty(self) -> bool {
        self.w <= 0 || self.h <= 0
    }

    /// Every point of `self` is a point of `o`.
    pub open spec fn within(self, o: Rect) -> bool {
        forall|x: int, y: int| #[trigger] self.spec_contains(x, y) ==> o.spec_contains(x, y)
    }

    pub fn new(x: i32, y: i32, w: i32, h: i32) -> (r: Rect)
        ensures
            r == (Rect { x, y, w, h }),
    {
        Rect { x, y, w, h }
    }

    pub fn right(&self) -> (r: i32)
        requires
            fits(self.x + self.w),
        ensures
            r == self.x + self.w,
    {
        self.x + self.w
    }

    pub fn bottom(&self) -> (r: i32)
        requires
            fits(self.y + self.h),
        ensures
            r == self.y + self.h,
    {
        self.y + self.h
    }

    pub fn contains(&self, x: i32, y: i32) -> (r: bool)
        ensures
            r == self.spec_contains(x as int, y as int),
    {
        self.x <= x && (x as i64) < self.x as i64 + self.w as i64 && self.y <= y && (y as i64) < self.y as i64 + self.h as i64
    }

    pub fn is_empty(&self) -> (r: bool)
        ensures
            r == self.spec_is_empty(),
    {
        self.w <= 0 || self.h <= 0
    }

    pub open spec fn spec_intersect(self, o: Rect) -> Rect {
        let x0 = max(self.x as int, o.x as int);
        let y0 = max(self.y as int, o.y as int);
        let x1 = min(self.x + self.w, o.x + o.w);
        let y1 = min(self.y + self.h, o.y + o.h);
        Rect { x: x0 as i32, y: y0 as i32, w: max(x1 - x0, 0) as i32, h: max(y1 - y0, 0) as i32 }
    }

    /// The common part of two rectangles.
    pub fn intersect(&self, o: &Rect) -> (r: Rect)
        requires
            self.w >= 0,
            self.h >= 0,
        ensures
            r == self.spec_intersect(*o),
            forall|x: int, y: int| #[trigger]
                r.spec_contains(x, y) <==> self.spec_contains(x, y) && o.spec_contains(x, y),
            0 <= r.w <= self.w,
            0 <= r.h <= self.h,
    {
        let x0: i64 = max_i64(self.x as i64, o.x as i64);
        let y0: i64 = max_i64(self.y as i64, o.y as i64);
        let x1: i64 = min_i64(self.x as i64 + self.w as i64, o.x as i64 + o.w as i64);
        let y1: i64 = min_i64(self.y as i64 + self.h as i64, o.y as i64 + o.h as i64);
        let w: i64 = max_i64(x1 - x0, 0);
        let h: i64 = max_i64(y1 - y0, 0);
        Rect { x: x0 as i32, y: y0 as i32, w: w as i32, h: h as i32 }
    }

    pub open spec fn spec_union(self, o: Rect) -> Rect {
        if self.spec_is_empty() {
            o
        } else if o.spec_is_empty() {
            self
        } else {
            let x0 = min(self.x as int, o.x as int);
            let y0 = min(self.y as int, o.y as int);
            let x1 = max(self.x + self.w, o.x + o.w);
            let y1 = max(self.y + self.h, o.y + o.h);
            Rect { x: x0 as i32, y: y0 as i32, w: (x1 - x0) as i32, h: (y1 - y0) as i32 }
        }
    }

    /// Whether the union of two rectangles has a 32-bit size.
    pub open spec fn union_fits(self, o: Rect) -> bool {
        ||| self.spec_is_empty()
        ||| o.spec_is_empty()
        ||| fits(max(self.x + self.w, o.x + o.w) - min(self.x as int, o.x as int)) && fits(
            max(self.y + self.h, o.y + o.h) - min(self.y as int, o.y as int),
        )
    }

    /// The smallest rectangle around both.
    pub fn union(&self, o: &Rect) -> (r: Rect)
        requires
            self.union_fits(*o),
        ensures
            r == self.spec_union(*o),
            forall|x: int, y: int| #[trigger]
                self.spec_contains(x, y) || o.spec_contains(x, y) ==> r.spec_contains(x, y),
    {
        if self.is_empty() {
            return *o;
        }
        if o.is_empty() {
            return *self;
        }
        let x0: i64 = min_i64(self.x as i64, o.x as i64);
        let y0: i64 = min_i64(self.y as i64, o.y as i64);
        let x1: i64 = max_i64(self.x as i64 + self.w as i64, o.x as i64 + o.w as i64);
        let y1: i64 = max_i64(self.y as i64 + self.h as i64, o.y as i64 + o.h as i64);
        Rect { x: x0 as i32, y: y0 as i32, w: (x1 - x0) as i32, h: (y1 - y0) as i32 }
    }

    /// The rectangle without a border of `n` on each side.
    pub fn inset(&self, n: i32) -> (r: Rect)
        requires
            fits(self.x + n),
            fits(self.y + n),
            fits(self.w - 2 * n),
            fits(self.h - 2 * n),
        ensures
            r.x == self.x + n,
            r.y == self.y + n,
            r.w == self.w - 2 * n,
            r.h == self.h - 2 * n,
    {
        Rect {
            x: self.x + n,
            y: self.y + n,
            w: (self.w as i64 - 2 * n as i64) as i32,
            h: (self.h as i64 - 2 * n as i64) as i32,
        }
    }
}

/// A point is in the common part of two rectangles if it is in both.
pub proof fn lemma_intersect_is_common(a: Rect, b: Rect, x: int, y: int)
    requires
        a.fits(),
        b.fits(),
        a.w >= 0,
        a.h >= 0,
    ensures
        a.spec_intersect(b).spec_contains(x, y) <==> a.spec_contains(x, y) && b.spec_contains(x, y),
        a.spec_intersect(b).spec_is_empty() ==> !(a.spec_contains(x, y) && b.spec_contains(x, y)),
{
}

/// The union of two rectangles holds every point of both, and lies in every
/// rectangle that does.
pub proof fn lemma_union_is_least(a: Rect, b: Rect, o: Rect)
    requires
        a.fits(),
        b.fits(),
        o.fits(),
        a.union_fits(b),
    ensures
        a.within(a.spec_union(b)),
        b.within(a.spec_union(b)),
        a.within(o) && b.within(o) ==> a.spec_union(b).within(o),
{
    let u = a.spec_union(b);
    if a.within(o) && b.within(o) && !a.spec_is_empty() && !b.spec_is_empty() {
        assert(a.spec_contains(a.x as int, a.y as int));
        assert(a.spec_contains(a.x + a.w - 1, a.y + a.h - 1));
        assert(b.spec_contains(b.x as int, b.y as int));
        assert(b.spec_contains(b.x + b.w - 1, b.y + b.h - 1));
    }
}

} // verus!
