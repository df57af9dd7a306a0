//! What a canvas keeps between drawing commands, and the commands that work
//! on whole pixels.
//!
//! The current transform, the saved ones and the path are kept over any kind
//! of transform and point, since drawing takes those in floating point.

use crate::arith::{fits, max};
use crate::gui::geom::Rect;
use vstd::arithmetic::div_mod::lemma_fundamental_div_mod_converse;
use vstd::arithmetic::mul::{lemma_mul_inequality, lemma_mul_is_distributive_add_other_way, lemma_mul_nonnegative};
use vstd::prelude::*;

verus! {

pub struct Painting<T, P> {
    /// The transform in force.
    pub xf: T,
    pub stack: Vec<T>,
    /// The parts of the path, in the order in which they were started.
    pub path: Vec<Vec<P>>,
}

#[verifier::ext_equal]
pub struct PaintingState<T, P> {
    pub xf: T,
    pub stack: Seq<T>,
    pub path: Seq<Seq<P>>,
}

pub open spec fn parts_of<P>(v: Seq<Vec<P>>) -> Seq<Seq<P>> {
    Seq::new(v.len(), |i: int| v[i]@)
}

impl<T, P> View for Painting<T, P> {
    type V = PaintingState<T, P>;

    open spec fn view(&self) -> PaintingState<T, P> {
        PaintingState { xf: self.xf, stack: self.stack@, path: parts_of(self.path@) }
    }
}

impl<T, P> PaintingState<T, P> {
    pub open spec fn saved(self) -> PaintingState<T, P> {
        PaintingState { stack: self.stack.push(self.xf), ..self }
    }

    /// The transform saved last is back; with none saved nothing changes.
    pub open spec fn restored(self) -> PaintingState<T, P> {
        if self.stack.len() == 0 {
            self
        } else {
            PaintingState { xf: self.stack.last(), stack: self.stack.drop_last(), ..self }
        }
    }

    pub open spec fn started(self, points: Seq<P>) -> PaintingState<T, P> {
        PaintingState { path: self.path.push(points), ..self }
    }

    /// The points follow on the last part of the path, or start the first.
    pub open spec fn followed(self, points: Seq<P>) -> PaintingState<T, P> {
        if self.path.len() == 0 {
            self.started(points)
        } else {
            PaintingState { path: self.path.drop_last().push(self.path.last() + points), ..self }
        }
    }

    /// The last part ends where it began.
    pub open spec fn joined(self) -> PaintingState<T, P> {
        if self.path.len() == 0 || self.path.last().len() == 0 {
            self
        } else {
            self.followed(seq![self.path.last()[0]])
        }
    }
}

/// The lines from each point of a part to the next.
pub open spec fn lines<P>(part: Seq<P>) -> Seq<(P, P)> {
    if part.len() < 2 {
        Seq::empty()
    } else {
        Seq::new((part.len() - 1) as nat, |i: int| (part[i], part[i + 1]))
    }
}

/// The lines of all parts, one part after the other.
pub open spec fn all_lines<P>(path: Seq<Seq<P>>) -> Seq<(P, P)>
    decreases path.len(),
{
    if path.len() == 0 {
        Seq::empty()
    } else {
        all_lines(path.drop_last()) + lines(path.last())
    }
}

impl<T: Copy, P: Copy> Painting<T, P> {
    pub fn new(xf: T) -> (r: Painting<T, P>)
        ensures
            r@ == (PaintingState::<T, P> { xf, stack: Seq::empty(), path: Seq::empty() }),
    {
        let r = Painting { xf, stack: Vec::new(), path: Vec::new() };
        assert(r@ =~= (PaintingState::<T, P> { xf, stack: Seq::empty(), path: Seq::empty() }));
        r
    }

    pub fn save(&mut self)
        ensures
            final(self)@ == old(self)@.saved(),
    {
        self.stack.push(self.xf);
    }

    pub fn restore(&mut self)
        ensures
            final(self)@ == old(self)@.restored(),
    {
        match self.stack.pop() {
            Some(xf) => {
                self.xf = xf;
            },
            None => {},
        }
    }

    pub fn begin_path(&mut self)
        ensures
            final(self)@ == (PaintingState { path: Seq::empty(), ..old(self)@ }),
    {
        self.path = Vec::new();
        assert(self@ =~= (PaintingState { path: Seq::empty(), ..old(self)@ }));
    }

    pub fn move_to(&mut self, p: P)
        ensures
            final(self)@ == old(self)@.started(seq![p]),
    {
        let mut part = Vec::new();
        part.push(p);
        assert(part@ =~= seq![p]);
        self.path.push(part);
        assert(self@ =~= old(self)@.started(seq![p]));
    }

    pub fn line_to(&mut self, p: P)
        ensures
            final(self)@ == old(self)@.followed(seq![p]),
    {
        let mut points = Vec::new();
        points.push(p);
        assert(points@ =~= seq![p]);
        self.follow(&points);
    }

    pub fn close_path(&mut self)
        ensures
            final(self)@ == old(self)@.joined(),
    {
        let n: usize = self.path.len();
        if n > 0 && self.path[n - 1].len() > 0 {
            let first = self.path[n - 1][0];
            assert(old(self)@.path.last() == old(self).path@[n - 1]@);
            self.line_to(first);
        }
    }

    /// The points of an arc.
    pub fn arc(&mut self, points: &[P])
        ensures
            final(self)@ == old(self)@.followed(points@),
    {
        self.follow(points);
    }

    fn follow(&mut self, points: &[P])
        ensures
            final(self)@ == old(self)@.followed(points@),
    {
        let mut part = match self.path.pop() {
            Some(part) => part,
            None => Vec::new(),
        };
        let ghost before = part@;
        let mut i: usize = 0;
        while i < points.len()
            invariant
                i <= points.len(),
                part@ == before + points@.take(i as int),
            decreases points.len() - i,
        {
            part.push(points[i]);
            i = i + 1;
            assert(part@ =~= before + points@.take(i as int));
        }
        assert(points@.take(i as int) =~= points@);
        self.path.push(part);
        proof {
            if old(self).path@.len() == 0 {
                assert(before + points@ =~= points@);
            } else {
                assert(old(self)@.path.last() == before);
            }
            assert(self@.path =~= old(self)@.followed(points@).path);
        }
    }

    /// What stroking the path draws.
    pub fn segments(&self) -> (r: Vec<(P, P)>)
        ensures
            r@ == all_lines(self@.path),
    {
        let mut out: Vec<(P, P)> = Vec::new();
        let mut i: usize = 0;
        assert(self@.path.take(0) =~= Seq::empty());
        while i < self.path.len()
            invariant
                i <= self.path.len(),
                out@ == all_lines(self@.path.take(i as int)),
            decreases self.path.len() - i,
        {
            let part = &self.path[i];
            let ghost done = out@;
            let mut k: usize = 1;
            assert(lines(part@).take(0) =~= Seq::empty());
            while k < part.len()
                invariant
                    1 <= k,
                    k <= part.len() || k == 1,
                    out@ == done + lines(part@).take(k - 1),
                decreases part.len() - k,
            {
                out.push((part[k - 1], part[k]));
                k = k + 1;
                assert(out@ =~= done + lines(part@).take(k - 1));
            }
            proof {
                assert(lines(part@).take(k - 1) =~= lines(part@));
                let upto = self@.path.take(i + 1);
                assert(upto.drop_last() =~= self@.path.take(i as int));
                assert(upto.last() == part@);
            }
            i = i + 1;
        }
        assert(self@.path.take(i as int) =~= self@.path);
        out
    }
}

/// Restoring right after saving gives back what there was.
pub proof fn lemma_save_restore<T, P>(s: PaintingState<T, P>)
    ensures
        s.saved().restored() == s,
{
    assert(s.stack.push(s.xf).drop_last() =~= s.stack);
}

/// Saving and restoring leave the path alone.
pub proof fn lemma_path_not_saved<T, P>(s: PaintingState<T, P>)
    ensures
        s.saved().path == s.path,
        s.restored().path == s.path,
{
}

/// Following and closing change no part of the path but the last, and keep the
/// points that one has.
pub proof fn lemma_parts_kept<T, P>(s: PaintingState<T, P>, points: Seq<P>, i: int)
    requires
        0 <= i < s.path.len(),
    ensures
        s.path[i].is_prefix_of(s.followed(points).path[i]),
        s.path[i].is_prefix_of(s.joined().path[i]),
        i < s.path.len() - 1 ==> s.followed(points).path[i] == s.path[i] && s.joined().path[i] == s.path[i],
{
    assert((s.path.last() + points).take(s.path.last().len() as int) =~= s.path.last());
    if s.path.last().len() > 0 {
        let first = seq![s.path.last()[0]];
        assert((s.path.last() + first).take(s.path.last().len() as int) =~= s.path.last());
    }
}

// ---------------------------------------------------------------------
// Whole pixels
// ---------------------------------------------------------------------

/// The four bars of a rectangle's outline, `lw` wide: top, bottom, left, right.
pub fn outline(r: &Rect, lw: i32) -> (b: [Rect; 4])
    requires
        r.fits(),
        fits(r.y + r.h - lw),
        fits(r.x + r.w - lw),
    ensures
        b@ == seq![
            (Rect { h: lw, ..*r }),
            (Rect { y: (r.y + r.h - lw) as i32, h: lw, ..*r }),
            (Rect { w: lw, ..*r }),
            (Rect { x: (r.x + r.w - lw) as i32, w: lw, ..*r }),
        ],
{
    [
        Rect::new(r.x, r.y, r.w, lw),
        Rect::new(r.x, r.bottom() - lw, r.w, lw),
        Rect::new(r.x, r.y, lw, r.h),
        Rect::new(r.right() - lw, r.y, lw, r.h),
    ]
}

/// The pixel at (x, y) of a picture `w` wide; nothing outside it.
pub open spec fn pixel(data: Seq<u32>, w: int, h: int, x: int, y: int) -> u32 {
    if 0 <= x < w && 0 <= y < h {
        data[y * w + x]
    } else {
        0
    }
}

proof fn lemma_index(w: int, h: int, x: int, y: int)
    requires
        0 <= x < w,
        0 <= y < h,
    ensures
        0 <= y * w + x < h * w,
        (y * w + x) / w == y,
        (y * w + x) % w == x,
{
    lemma_mul_nonnegative(y, w);
    lemma_mul_inequality(y + 1, h, w);
    lemma_mul_is_distributive_add_other_way(w, y, 1);
    lemma_fundamental_div_mod_converse(y * w + x, w, y, x);
}

/// Makes the pixels of `r` transparent.
pub fn clear_rect(data: &mut Vec<u32>, w: i32, h: i32, r: &Rect)
    requires
        0 <= w,
        0 <= h,
        old(data)@.len() == h * w,
        0 <= r.w,
        0 <= r.h,
    ensures
        final(data)@.len() == old(data)@.len(),
        forall|x: int, y: int|
            0 <= x < w && 0 <= y < h ==> #[trigger] pixel(final(data)@, w as int, h as int, x, y)
                == if r.spec_contains(x, y) {
                0
            } else {
                pixel(old(data)@, w as int, h as int, x, y)
            },
{
    let ghost before = data@;
    let screen = Rect::new(0, 0, w, h);
    let rr = r.intersect(&screen);
    let mut y: i32 = rr.y;
    if rr.w > 0 && rr.h > 0 {
        assert(rr.spec_contains(rr.x as int, rr.y as int));
        assert(rr.spec_contains(rr.x + rr.w - 1, rr.y + rr.h - 1));
        assert(screen.spec_contains(rr.x as int, rr.y as int));
        assert(screen.spec_contains(rr.x + rr.w - 1, rr.y + rr.h - 1));
        while y < rr.y + rr.h
            invariant
                0 <= rr.x,
                0 <= rr.y <= y <= rr.y + rr.h <= h,
                0 < rr.w,
                rr.x + rr.w <= w,
                data@.len() == before.len() == h * w,
                forall|i: int|
                    0 <= i < before.len() ==> #[trigger] data@[i] == if rr.spec_contains(
                        i % (w as int),
                        i / (w as int),
                    ) && i / (w as int) < y {
                        0
                    } else {
                        before[i]
                    },
            decreases rr.y + rr.h - y,
        {
            let mut x: i32 = rr.x;
            while x < rr.x + rr.w
                invariant
                    0 <= rr.x <= x <= rr.x + rr.w <= w,
                    0 <= rr.y <= y < rr.y + rr.h <= h,
                    0 < rr.w,
                    data@.len() == before.len() == h * w,
                    forall|i: int|
                        0 <= i < before.len() ==> #[trigger] data@[i] == if rr.spec_contains(
                            i % (w as int),
                            i / (w as int),
                        ) && (i / (w as int) < y || i / (w as int) == y && i % (w as int) < x) {
                            0
                        } else {
                            before[i]
                        },
                decreases rr.x + rr.w - x,
            {
                proof {
                    lemma_index(w as int, h as int, x as int, y as int);
                    lemma_mul_nonnegative(y as int, w as int);
                    assert(data@.len() == data.len());
                }
                let i: usize = y as usize * w as usize + x as usize;
                data.set(i, 0);
                x = x + 1;
                assert forall|j: int| 0 <= j < before.len() implies #[trigger] data@[j] == if rr.spec_contains(
                    j % (w as int),
                    j / (w as int),
                ) && (j / (w as int) < y || j / (w as int) == y && j % (w as int) < x) {
                    0
                } else {
                    before[j]
                } by {
                    vstd::arithmetic::div_mod::lemma_fundamental_div_mod(j, w as int);
                    vstd::arithmetic::mul::lemma_mul_is_commutative(w as int, y as int);
                }
            }
            y = y + 1;
        }
    }
    proof {
        assert forall|x: int, y: int| 0 <= x < w && 0 <= y < h implies #[trigger] pixel(
            data@,
            w as int,
            h as int,
            x,
            y,
        ) == if r.spec_contains(x, y) {
            0
        } else {
            pixel(before, w as int, h as int, x, y)
        } by {
            lemma_index(w as int, h as int, x, y);
            assert(screen.spec_contains(x, y));
            assert(rr.spec_contains(x, y) <==> r.spec_contains(x, y));
        }
    }
}

/// The part of a picture that starts at (sx, sy), at least one pixel wide and
/// high; transparent where the picture has none.
pub fn part_of(img: &[u32], iw: i32, ih: i32, sx: i32, sy: i32, sw: i32, sh: i32) -> (r: Vec<u32>)
    requires
        0 <= iw,
        0 <= ih,
        img@.len() == ih * iw,
        fits(sx + max(sw as int, 1)),
        fits(sy + max(sh as int, 1)),
        max(sw as int, 1) * max(sh as int, 1) <= i32::MAX,
    ensures
        r@.len() == max(sh as int, 1) * max(sw as int, 1),
        forall|x: int, y: int|
            0 <= x < max(sw as int, 1) && 0 <= y < max(sh as int, 1) ==> #[trigger] pixel(
                r@,
                max(sw as int, 1),
                max(sh as int, 1),
                x,
                y,
            ) == pixel(img@, iw as int, ih as int, sx + x, sy + y),
{
    let w: i32 = if sw > 1 {
        sw
    } else {
        1
    };
    let h: i32 = if sh > 1 {
        sh
    } else {
        1
    };
    let mut out: Vec<u32> = Vec::new();
    let mut y: i32 = 0;
    while y < h
        invariant
            0 <= iw,
            0 <= ih,
            img@.len() == ih * iw,
            fits(sx + w),
            fits(sy + h),
            1 <= w,
            0 <= y <= h,
            out@.len() == y * w,
            forall|i: int|
                0 <= i < out@.len() ==> #[trigger] out@[i] == pixel(
                    img@,
                    iw as int,
                    ih as int,
                    sx + i % (w as int),
                    sy + i / (w as int),
                ),
        decreases h - y,
    {
        let mut x: i32 = 0;
        while x < w
            invariant
                0 <= iw,
                0 <= ih,
                img@.len() == ih * iw,
                fits(sx + w),
                fits(sy + h),
                0 <= x <= w,
                0 <= y < h,
                out@.len() == y * w + x,
                forall|i: int|
                    0 <= i < out@.len() ==> #[trigger] out@[i] == pixel(
                        img@,
                        iw as int,
                        ih as int,
                        sx + i % (w as int),
                        sy + i / (w as int),
                    ),
            decreases w - x,
        {
            let (ix, iy) = (sx + x, sy + y);
            proof {
                lemma_index(w as int, h as int, x as int, y as int);
                if 0 <= ix < iw && 0 <= iy < ih {
                    lemma_index(iw as int, ih as int, ix as int, iy as int);
                    lemma_mul_nonnegative(iy as int, iw as int);
                    assert(img@.len() == img.len());
                }
            }
            if ix >= 0 && iy >= 0 && ix < iw && iy < ih {
                out.push(img[iy as usize * iw as usize + ix as usize]);
            } else {
                out.push(0);
            }
            x = x + 1;
        }
        proof {
            lemma_mul_is_distributive_add_other_way(w as int, y as int, 1);
        }
        y = y + 1;
    }
    proof {
        assert forall|x: int, y: int| 0 <= x < w && 0 <= y < h implies #[trigger] pixel(
            out@,
            w as int,
            h as int,
            x,
            y,
        ) == pixel(img@, iw as int, ih as int, sx + x, sy + y) by {
            lemma_index(w as int, h as int, x, y);
        }
    }
    out
}

} // verus!
