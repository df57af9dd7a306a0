//! The mouse pointer image, rasterised once at boot with 4x4 supersampling.

use crate::arith::{div, tdiv};
use vstd::prelude::*;

verus! {

/// Width and height of the pointer image.
pub const CURSOR_DIM: i32 = 64;

/// Samples per pixel, in each direction.
pub const SS: i32 = 4;

/// Samples in a row of the image.
pub const GRID: i32 = 256;

/// How far the outline reaches, in samples (1.25 px).
pub const REACH: i32 = 5;

/// Classic arrow outline, in pixels (hotspot at the origin).
pub open spec fn arrow_points() -> Seq<(i32, i32)> {
    seq![(1i32, 1i32), (1, 18), (5, 14), (8, 21), (11, 20), (8, 13), (14, 13)]
}

/// Whether the ray to the right of a point crosses the edge from corner `j`
/// to corner `i`, in supersampled units.
pub open spec fn crosses(poly: Seq<(i32, i32)>, i: int, j: int, x: int, y: int) -> bool {
    let (xi, yi) = (poly[i].0 * SS, poly[i].1 * SS);
    let (xj, yj) = (poly[j].0 * SS, poly[j].1 * SS);
    (yi > y) != (yj > y) && x < tdiv((xj - xi) * (y - yi), yj - yi) + xi
}

/// How many of the edges that end in the first `n` corners are crossed.
pub open spec fn crossings(poly: Seq<(i32, i32)>, n: int, x: int, y: int) -> int
    decreases n,
{
    if n <= 0 {
        0
    } else {
        let j = if n == 1 { poly.len() - 1 } else { n - 2 };
        crossings(poly, n - 1, x, y) + if crosses(poly, n - 1, j, x, y) { 1int } else { 0 }
    }
}

/// Point in polygon, even-odd.
pub open spec fn within(poly: Seq<(i32, i32)>, x: int, y: int) -> bool {
    crossings(poly, poly.len() as int, x, y) % 2 == 1
}

/// Whether a sample lies in the arrow.
pub open spec fn filled(x: int, y: int) -> bool {
    0 <= x < GRID && 0 <= y < GRID && within(arrow_points(), x, y)
}

/// Whether the arrow is within reach of a sample.
pub open spec fn outlined(x: int, y: int) -> bool {
    0 <= x < GRID && 0 <= y < GRID && exists|dx: int, dy: int| #[trigger] near(dx, dy) && filled(x + dx, y + dy)
}

pub open spec fn near(dx: int, dy: int) -> bool {
    -REACH <= dx <= REACH && -REACH <= dy <= REACH && dx * dx + dy * dy <= REACH * REACH
}

/// The `k`th sample of a pixel.
pub open spec fn sample(px: int, py: int, k: int) -> (int, int) {
    (px * SS + k % 4, py * SS + k / 4)
}

/// How many of the first `k` samples of a pixel are in the arrow, in its
/// outline, and in its shadow: the outline shifted by (1, 2) pixels.
pub open spec fn counts(px: int, py: int, k: int) -> (int, int, int)
    decreases k,
{
    if k <= 0 {
        (0, 0, 0)
    } else {
        let (f, e, s) = counts(px, py, k - 1);
        let (x, y) = sample(px, py, k - 1);
        (
            f + if filled(x, y) { 1int } else { 0 },
            e + if !filled(x, y) && outlined(x, y) { 1int } else { 0 },
            s + if outlined(x - SS, y - 2 * SS) { 1int } else { 0 },
        )
    }
}

/// A grey with an alpha value over another.
pub open spec fn over(a_dst: int, c_dst: int, a_src: int, c_src: int) -> (int, int) {
    let a_out = a_src + a_dst * (255 - a_src) / 255;
    if a_out == 0 { (0, 0) } else { (a_out, (c_src * a_src + c_dst * a_dst * (255 - a_src) / 255) / a_out) }
}

/// A pixel of the pointer: the shadow, then the outline (dark), then the
/// fill (white).
pub open spec fn pointer_pixel(px: int, py: int) -> u32 {
    let (fill, edge, shadow) = counts(px, py, 16);
    let (a1, c1) = over(shadow * 70 / 16, 0, edge * 255 / 16, 0x20);
    let (a, c) = over(a1, c1, fill * 255 / 16, 0xff);
    let (a, c) = (a as u32, c as u32);
    (a << 24) | (c << 16) | (c << 8) | c
}

/// Point in polygon (even-odd), coordinates in supersampled units.
pub fn inside(poly: &[(i32, i32)], x: i32, y: i32) -> (r: bool)
    requires
        poly@.len() > 0,
        forall|i: int| 0 <= i < poly@.len() ==> -1000 <= (#[trigger] poly@[i]).0 <= 1000 && -1000 <= poly@[i].1 <= 1000,
        -10000 <= x <= 10000,
        -10000 <= y <= 10000,
    ensures
        r == within(poly@, x as int, y as int),
{
    let n: usize = poly.len();
    let mut c: bool = false;
    let mut j: usize = n - 1;
    let mut i: usize = 0;
    while i < n
        invariant
            i <= n,
            n == poly@.len(),
            n > 0,
            j == if i == 0 { n - 1 } else { i - 1 },
            forall|i: int|
                0 <= i < poly@.len() ==> -1000 <= (#[trigger] poly@[i]).0 <= 1000 && -1000 <= poly@[i].1 <= 1000,
            -10000 <= x <= 10000,
            -10000 <= y <= 10000,
            c == (crossings(poly@, i as int, x as int, y as int) % 2 == 1),
        decreases n - i,
    {
        let xi: i64 = poly[i].0 as i64 * 4;
        let yi: i64 = poly[i].1 as i64 * 4;
        let xj: i64 = poly[j].0 as i64 * 4;
        let yj: i64 = poly[j].1 as i64 * 4;
        let split: bool = (yi > y as i64) != (yj > y as i64);
        let mut hit: bool = false;
        if split {
            let w: i64 = xj - xi;
            let h: i64 = y as i64 - yi;
            proof {
                assert(-200_000_000 <= w * h <= 200_000_000) by (nonlinear_arith)
                    requires
                        -8000 <= w <= 8000,
                        -14000 <= h <= 14000,
                ;
            }
            let d: i64 = yj - yi;
            let q: i64 = if d > 0 { div(w * h, d) } else { div(-(w * h), -d) };
            proof {
                crate::arith::lemma_tdiv_bounds(w * h, d as int);
                assert(q == tdiv(w * h, d as int));
            }
            hit = (x as i64) < q + xi;
        }
        proof {
            assert(hit == crosses(poly@, i as int, j as int, x as int, y as int));
        }
        if hit {
            c = !c;
        }
        j = i;
        i += 1;
    }
    c
}

fn points() -> (r: Vec<(i32, i32)>)
    ensures
        r@ == arrow_points(),
{
    let mut v: Vec<(i32, i32)> = Vec::new();
    v.push((1, 1));
    v.push((1, 18));
    v.push((5, 14));
    v.push((8, 21));
    v.push((11, 20));
    v.push((8, 13));
    v.push((14, 13));
    proof {
        assert(v@ =~= arrow_points());
    }
    v
}

pub open spec fn is_mask(m: Seq<bool>) -> bool {
    m.len() == 65536 && forall|x: int, y: int|
        0 <= x < 256 && 0 <= y < 256 ==> #[trigger] m[y * 256 + x] == filled(x, y)
}

fn mask() -> (r: Vec<bool>)
    ensures
        is_mask(r@),
{
    let poly: Vec<(i32, i32)> = points();
    let mut m: Vec<bool> = Vec::new();
    let mut y: i32 = 0;
    while y < 256
        invariant
            0 <= y <= 256,
            poly@ == arrow_points(),
            m@.len() == y * 256,
            forall|a: int, b: int| 0 <= a < 256 && 0 <= b < y ==> #[trigger] m@[b * 256 + a] == filled(a, b),
        decreases 256 - y,
    {
        let mut x: i32 = 0;
        while x < 256
            invariant
                0 <= y < 256,
                0 <= x <= 256,
                poly@ == arrow_points(),
                m@.len() == y * 256 + x,
                forall|a: int, b: int|
                    0 <= a < 256 && 0 <= b && b * 256 + a < y * 256 + x ==> #[trigger] m@[b * 256 + a] == filled(a, b),
            decreases 256 - x,
        {
            let v: bool = inside(&poly, x, y);
            m.push(v);
            proof {
                assert(v == filled(x as int, y as int));
                assert forall|a: int, b: int|
                    0 <= a < 256 && 0 <= b && b * 256 + a < y * 256 + x + 1 implies #[trigger] m@[b * 256 + a] == filled(
                    a,
                    b,
                ) by {
                    if b * 256 + a == y * 256 + x {
                        assert(a == x && b == y);
                    }
                }
            }
            x += 1;
        }
        y += 1;
    }
    m
}

fn is_outlined(m: &[bool], x: i32, y: i32) -> (r: bool)
    requires
        is_mask(m@),
        0 <= x < 256,
        0 <= y < 256,
    ensures
        r == outlined(x as int, y as int),
{
    let mut dy: i32 = -5;
    while dy <= 5
        invariant
            is_mask(m@),
            0 <= x < 256,
            0 <= y < 256,
            -5 <= dy <= 6,
            forall|a: int, b: int| #[trigger] near(a, b) && b < dy ==> !filled(x + a, y + b),
        decreases 6 - dy,
    {
        let mut dx: i32 = -5;
        while dx <= 5
            invariant
                is_mask(m@),
                0 <= x < 256,
                0 <= y < 256,
                -5 <= dy <= 5,
                -5 <= dx <= 6,
                forall|a: int, b: int| #[trigger]
                    near(a, b) && (b < dy || b == dy && a < dx) ==> !filled(x + a, y + b),
            decreases 6 - dx,
        {
            proof {
                assert(0 <= dx * dx <= 25 && 0 <= dy * dy <= 25) by (nonlinear_arith)
                    requires
                        -5 <= dx <= 5,
                        -5 <= dy <= 5,
                ;
            }
            let (xx, yy) = (x + dx, y + dy);
            if dx * dx + dy * dy <= 25 && xx >= 0 && yy >= 0 && xx < 256 && yy < 256 {
                let at: usize = (yy * 256 + xx) as usize;
                proof {
                    assert(m@[yy * 256 + xx] == filled(xx as int, yy as int));
                }
                if m[at] {
                    proof {
                        assert(near(dx as int, dy as int));
                    }
                    return true;
                }
            }
            dx += 1;
        }
        dy += 1;
    }
    false
}

pub open spec fn is_outline(m: Seq<bool>) -> bool {
    m.len() == 65536 && forall|x: int, y: int|
        0 <= x < 256 && 0 <= y < 256 ==> #[trigger] m[y * 256 + x] == outlined(x, y)
}

fn outline(m: &[bool]) -> (r: Vec<bool>)
    requires
        is_mask(m@),
    ensures
        is_outline(r@),
{
    let mut o: Vec<bool> = Vec::new();
    let mut y: i32 = 0;
    while y < 256
        invariant
            is_mask(m@),
            0 <= y <= 256,
            o@.len() == y * 256,
            forall|a: int, b: int| 0 <= a < 256 && 0 <= b < y ==> #[trigger] o@[b * 256 + a] == outlined(a, b),
        decreases 256 - y,
    {
        let mut x: i32 = 0;
        while x < 256
            invariant
                is_mask(m@),
                0 <= y < 256,
                0 <= x <= 256,
                o@.len() == y * 256 + x,
                forall|a: int, b: int|
                    0 <= a < 256 && 0 <= b && b * 256 + a < y * 256 + x ==> #[trigger] o@[b * 256 + a] == outlined(a, b),
            decreases 256 - x,
        {
            let v: bool = is_outlined(m, x, y);
            o.push(v);
            proof {
                assert forall|a: int, b: int|
                    0 <= a < 256 && 0 <= b && b * 256 + a < y * 256 + x + 1 implies #[trigger] o@[b * 256 + a]
                    == outlined(a, b) by {
                    if b * 256 + a == y * 256 + x {
                        assert(a == x && b == y);
                    }
                }
            }
            x += 1;
        }
        y += 1;
    }
    o
}

fn blend(a_dst: u32, c_dst: u32, a_src: u32, c_src: u32) -> (r: (u32, u32))
    requires
        a_dst <= 255,
        a_src <= 255,
        c_dst <= 8160,
        c_src <= 255,
    ensures
        (r.0 as int, r.1 as int) == over(a_dst as int, c_dst as int, a_src as int, c_src as int),
        r.0 <= 255,
        c_dst == 0 && c_src <= 32 ==> r.1 <= 8160,
{
    let left: u32 = 255 - a_src;
    proof {
        assert(0 <= a_dst * left <= 255 * left) by (nonlinear_arith)
            requires
                0 <= a_dst <= 255,
                0 <= left,
        ;
        assert(0 <= c_dst * a_dst <= 8160 * 255) by (nonlinear_arith)
            requires
                0 <= a_dst <= 255,
                0 <= c_dst <= 8160,
        ;
        assert(0 <= (c_dst * a_dst) * left <= 8160 * 255 * 255) by (nonlinear_arith)
            requires
                0 <= c_dst * a_dst <= 8160 * 255,
                0 <= left <= 255,
        ;
        assert(0 <= c_src * a_src <= c_src * 255 <= 255 * 255) by (nonlinear_arith)
            requires
                0 <= a_src <= 255,
                0 <= c_src <= 255,
        ;
        assert(c_dst == 0 ==> c_dst * a_dst * left == 0) by (nonlinear_arith);
    }
    let a_out: u32 = a_src + a_dst * left / 255;
    if a_out == 0 {
        return (0, 0);
    }
    let top: u32 = c_src * a_src + c_dst * a_dst * left / 255;
    proof {
        assert(top as int / a_out as int <= top) by (nonlinear_arith)
            requires
                top >= 0,
                a_out >= 1,
        ;
    }
    (a_out, top / a_out)
}

proof fn lemma_counts(px: int, py: int, k: int)
    requires
        0 <= k,
    ensures
        0 <= counts(px, py, k).0,
        0 <= counts(px, py, k).1,
        0 <= counts(px, py, k).2 <= k,
        counts(px, py, k).0 + counts(px, py, k).1 <= k,
    decreases k,
{
    if k > 0 {
        lemma_counts(px, py, k - 1);
    }
}

fn pixel(m: &[bool], o: &[bool], px: i32, py: i32) -> (r: u32)
    requires
        is_mask(m@),
        is_outline(o@),
        0 <= px < 64,
        0 <= py < 64,
    ensures
        r == pointer_pixel(px as int, py as int),
{
    let (mut fill, mut edge, mut shadow): (u32, u32, u32) = (0, 0, 0);
    let mut k: i32 = 0;
    while k < 16
        invariant
            is_mask(m@),
            is_outline(o@),
            0 <= px < 64,
            0 <= py < 64,
            0 <= k <= 16,
            (fill as int, edge as int, shadow as int) == counts(px as int, py as int, k as int),
        decreases 16 - k,
    {
        let x: i32 = px * 4 + k % 4;
        let y: i32 = py * 4 + k / 4;
        proof {
            assert(sample(px as int, py as int, k as int) == (x as int, y as int));
            lemma_counts(px as int, py as int, k as int);
            assert(m@[y * 256 + x] == filled(x as int, y as int));
            assert(o@[y * 256 + x] == outlined(x as int, y as int));
        }
        let at: usize = (y * 256 + x) as usize;
        if m[at] {
            fill += 1;
        } else if o[at] {
            edge += 1;
        }
        let (ox, oy) = (x - 4, y - 8);
        if ox >= 0 && oy >= 0 {
            let under: usize = (oy * 256 + ox) as usize;
            proof {
                assert(o@[oy * 256 + ox] == outlined(ox as int, oy as int));
            }
            if o[under] {
                shadow += 1;
            }
        }
        k += 1;
    }
    proof {
        lemma_counts(px as int, py as int, 16);
    }
    let (a1, c1) = blend(shadow * 70 / 16, 0, edge * 255 / 16, 0x20);
    let (a, c) = blend(a1, c1, fill * 255 / 16, 0xff);
    (a << 24) | (c << 16) | (c << 8) | c
}

/// A 64x64 ARGB arrow: white fill with a dark antialiased outline and a
/// soft shadow. The pixels, and the hot spot.
pub fn arrow() -> (r: (Vec<u32>, (i32, i32)))
    ensures
        r.0@.len() == 4096,
        forall|x: int, y: int|
            0 <= x < CURSOR_DIM && 0 <= y < CURSOR_DIM ==> #[trigger] r.0@[y * CURSOR_DIM + x] == pointer_pixel(x, y),
        r.1 == (1i32, 1i32),
{
    let m: Vec<bool> = mask();
    let o: Vec<bool> = outline(&m);
    let mut out: Vec<u32> = Vec::new();
    let mut y: i32 = 0;
    while y < 64
        invariant
            is_mask(m@),
            is_outline(o@),
            0 <= y <= 64,
            out@.len() == y * 64,
            forall|a: int, b: int| 0 <= a < 64 && 0 <= b < y ==> #[trigger] out@[b * 64 + a] == pointer_pixel(a, b),
        decreases 64 - y,
    {
        let mut x: i32 = 0;
        while x < 64
            invariant
                is_mask(m@),
                is_outline(o@),
                0 <= y < 64,
                0 <= x <= 64,
                out@.len() == y * 64 + x,
                forall|a: int, b: int|
                    0 <= a < 64 && 0 <= b && b * 64 + a < y * 64 + x ==> #[trigger] out@[b * 64 + a] == pointer_pixel(
                        a,
                        b,
                    ),
            decreases 64 - x,
        {
            let v: u32 = pixel(&m, &o, x, y);
            out.push(v);
            proof {
                assert forall|a: int, b: int|
                    0 <= a < 64 && 0 <= b && b * 64 + a < y * 64 + x + 1 implies #[trigger] out@[b * 64 + a]
                    == pointer_pixel(a, b) by {
                    if b * 64 + a == y * 64 + x {
                        assert(a == x && b == y);
                    }
                }
            }
            x += 1;
        }
        y += 1;
    }
    (out, (1, 1))
}

} // verus!
