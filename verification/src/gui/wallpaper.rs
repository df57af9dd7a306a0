//! Built-in wallpapers: gradients with soft glowing blobs.

use crate::arith::max;
use vstd::prelude::*;

verus! {

/// A glowing blob: where it is and how large, in 1/1000 of the picture, and
/// its colour with an alpha value.
#[derive(Clone, Copy, PartialEq, Eq, Debug, Structural)]
pub struct Blob {
    pub x: i32,
    pub y: i32,
    pub radius: i32,
    pub color: u32,
}

#[derive(Clone, Copy)]
pub struct Wallpaper {
    pub name: &'static str,
    pub top: u32,
    pub bottom: u32,
    pub blobs: (Blob, Blob, Option<Blob>),
}

/// How many wallpapers there are.
pub const WALLPAPERS: usize = 6;

/// A wallpaper by its number; the last one stands for all beyond it.
pub fn wallpaper(index: usize) -> (r: Wallpaper)
    ensures
        r.name@ == if index == 0 {
            "Twilight"@
        } else if index == 1 {
            "Ocean"@
        } else if index == 2 {
            "Sunset"@
        } else if index == 3 {
            "Forest"@
        } else if index == 4 {
            "Graphite"@
        } else {
            "Daylight"@
        },
        (r.top, r.bottom) == if index == 0 {
            (0xff1b_2a5eu32, 0xff5a_2d7au32)
        } else if index == 1 {
            (0xff06_3b5cu32, 0xff0b_7a8fu32)
        } else if index == 2 {
            (0xff3a_1c5cu32, 0xfff0_7a4au32)
        } else if index == 3 {
            (0xff0f_2f24u32, 0xff2f_6b3fu32)
        } else if index == 4 {
            (0xff22_252bu32, 0xff40_454fu32)
        } else {
            (0xff8e_c5fcu32, 0xffe0_c3fcu32)
        },
        r.blobs == blobs_of(index as int),
{
    if index == 0 {
        Wallpaper {
            name: "Twilight",
            top: 0xff1b_2a5e,
            bottom: 0xff5a_2d7a,
            blobs: (
                Blob { x: 750, y: 250, radius: 500, color: 0x466f_8cff },
                Blob { x: 200, y: 750, radius: 400, color: 0x37ff_7eb6 },
                Some(Blob { x: 500, y: 1000, radius: 500, color: 0x2d49_c6e5 }),
            ),
        }
    } else if index == 1 {
        Wallpaper {
            name: "Ocean",
            top: 0xff06_3b5c,
            bottom: 0xff0b_7a8f,
            blobs: (
                Blob { x: 200, y: 200, radius: 450, color: 0x3c5e_e7df },
                Blob { x: 800, y: 800, radius: 550, color: 0x462d_9cdb },
                None,
            ),
        }
    } else if index == 2 {
        Wallpaper {
            name: "Sunset",
            top: 0xff3a_1c5c,
            bottom: 0xfff0_7a4a,
            blobs: (
                Blob { x: 700, y: 900, radius: 600, color: 0x50ff_c857 },
                Blob { x: 150, y: 300, radius: 400, color: 0x37ff_5e8a },
                None,
            ),
        }
    } else if index == 3 {
        Wallpaper {
            name: "Forest",
            top: 0xff0f_2f24,
            bottom: 0xff2f_6b3f,
            blobs: (
                Blob { x: 300, y: 700, radius: 500, color: 0x379b_e56a },
                Blob { x: 850, y: 200, radius: 400, color: 0x323f_c19d },
                None,
            ),
        }
    } else if index == 4 {
        Wallpaper {
            name: "Graphite",
            top: 0xff22_252b,
            bottom: 0xff40_454f,
            blobs: (
                Blob { x: 700, y: 300, radius: 500, color: 0x289a_a7bd },
                Blob { x: 200, y: 850, radius: 450, color: 0x286f_7c91 },
                None,
            ),
        }
    } else {
        Wallpaper {
            name: "Daylight",
            top: 0xff8e_c5fc,
            bottom: 0xffe0_c3fc,
            blobs: (
                Blob { x: 250, y: 250, radius: 450, color: 0x5aff_ffff },
                Blob { x: 800, y: 750, radius: 500, color: 0x5aff_d6e8 },
                None,
            ),
        }
    }
}

pub open spec fn blobs_of(index: int) -> (Blob, Blob, Option<Blob>) {
    if index == 0 {
        (
            Blob { x: 750, y: 250, radius: 500, color: 0x466f_8cff },
            Blob { x: 200, y: 750, radius: 400, color: 0x37ff_7eb6 },
            Some(Blob { x: 500, y: 1000, radius: 500, color: 0x2d49_c6e5 }),
        )
    } else if index == 1 {
        (
            Blob { x: 200, y: 200, radius: 450, color: 0x3c5e_e7df },
            Blob { x: 800, y: 800, radius: 550, color: 0x462d_9cdb },
            None,
        )
    } else if index == 2 {
        (
            Blob { x: 700, y: 900, radius: 600, color: 0x50ff_c857 },
            Blob { x: 150, y: 300, radius: 400, color: 0x37ff_5e8a },
            None,
        )
    } else if index == 3 {
        (
            Blob { x: 300, y: 700, radius: 500, color: 0x379b_e56a },
            Blob { x: 850, y: 200, radius: 400, color: 0x323f_c19d },
            None,
        )
    } else if index == 4 {
        (
            Blob { x: 700, y: 300, radius: 500, color: 0x289a_a7bd },
            Blob { x: 200, y: 850, radius: 450, color: 0x286f_7c91 },
            None,
        )
    } else {
        (
            Blob { x: 250, y: 250, radius: 450, color: 0x5aff_ffff },
            Blob { x: 800, y: 750, radius: 500, color: 0x5aff_d6e8 },
            None,
        )
    }
}

/// A blob in a picture: its middle and its radius, in pixels.
pub fn circle(b: &Blob, w: i32, h: i32) -> (r: (i64, i64, i64))
    requires
        0 <= w,
        0 <= h,
        0 <= b.x <= 1000,
        0 <= b.y <= 1000,
        0 <= b.radius <= 1000,
    ensures
        r.0 == b.x as int * w / 1000,
        r.1 == b.y as int * h / 1000,
        r.2 == max((b.radius as int * max(w as int, h as int) / 1000) * 6 / 10, 1),
        1 <= r.2 <= 0x8000_0000,
        0 <= r.0 <= w,
        0 <= r.1 <= h,
{
    let unit: i64 = if w > h { w as i64 } else { h as i64 };
    proof {
        let (x, y, q) = (b.x as int, b.y as int, b.radius as int);
        assert(0 <= x * w <= 1000 * w && 0 <= y * h <= 1000 * h && 0 <= q * unit <= 1000 * unit) by (nonlinear_arith)
            requires
                0 <= x <= 1000,
                0 <= y <= 1000,
                0 <= q <= 1000,
                0 <= w,
                0 <= h,
                0 <= unit,
        ;
    }
    let cx: i64 = b.x as i64 * w as i64 / 1000;
    let cy: i64 = b.y as i64 * h as i64 / 1000;
    let r: i64 = b.radius as i64 * unit / 1000 * 6 / 10;
    (cx, cy, if r > 1 { r } else { 1 })
}

/// `r` is the square root of `n`, rounded down.
pub open spec fn is_root(n: int, r: int) -> bool {
    0 <= r && r * r <= n < (r + 1) * (r + 1)
}

/// The square root of `n`, rounded down.
pub fn isqrt(n: u64) -> (r: u64)
    ensures
        is_root(n as int, r as int),
        r <= 0xffff_ffff,
{
    let mut lo: u64 = 0;
    let mut hi: u64 = 0x1_0000_0000;
    while hi - lo > 1
        invariant
            0 <= lo < hi <= 0x1_0000_0000,
            lo * lo <= n,
            n < hi * hi,
        decreases hi - lo,
    {
        let mid: u64 = lo + (hi - lo) / 2;
        proof {
            assert(mid * mid <= 0xffff_ffff * 0xffff_ffff) by (nonlinear_arith)
                requires
                    0 <= mid <= 0xffff_ffff,
            ;
        }
        if mid * mid <= n {
            lo = mid;
        } else {
            hi = mid;
        }
    }
    proof {
        assert(hi == lo + 1);
    }
    lo
}

/// How strong a blob of radius `r` is at a distance, of 255.
pub open spec fn glow(d: int, r: int) -> int {
    let t = (r - d) * 255 / r;
    t * t / 255
}

/// How strong a blob is at a point off its middle, if it reaches there.
pub fn strength(dx: i64, dy: i64, radius: i64) -> (r: Option<u32>)
    requires
        1 <= radius <= 0x8000_0000,
        -0x8000_0000 <= dx <= 0x8000_0000,
        -0x8000_0000 <= dy <= 0x8000_0000,
    ensures
        exists|d: int| #[trigger]
            is_root(dx * dx + dy * dy, d) && (match r {
                Some(s) => d < radius && s == glow(d, radius as int),
                None => d >= radius,
            }),
        r matches Some(s) ==> s <= 255,
{
    proof {
        assert(0 <= dx * dx <= 0x8000_0000 * 0x8000_0000 && 0 <= dy * dy <= 0x8000_0000 * 0x8000_0000)
            by (nonlinear_arith)
            requires
                -0x8000_0000 <= dx <= 0x8000_0000,
                -0x8000_0000 <= dy <= 0x8000_0000,
        ;
    }
    let sum: u64 = (dx * dx) as u64 + (dy * dy) as u64;
    let d: u64 = isqrt(sum);
    proof {
        assert(is_root(dx * dx + dy * dy, d as int));
    }
    if d >= radius as u64 {
        return None;
    }
    proof {
        lemma_glow(d as int, radius as int);
    }
    let t: u64 = (radius as u64 - d) * 255 / radius as u64;
    proof {
        assert(0 <= t * t <= 255 * 255) by (nonlinear_arith)
            requires
                0 <= t <= 255,
        ;
    }
    Some((t * t / 255) as u32)
}

proof fn lemma_glow(d: int, r: int)
    requires
        0 <= d <= r,
        r >= 1,
    ensures
        0 <= (r - d) * 255 / r <= 255,
        0 <= glow(d, r) <= 255,
{
    assert(0 <= (r - d) * 255 / r <= 255) by (nonlinear_arith)
        requires
            0 <= d <= r,
            r >= 1,
    ;
    let t = (r - d) * 255 / r;
    assert(0 <= t * t <= 255 * 255) by (nonlinear_arith)
        requires
            0 <= t <= 255,
    ;
}

/// A blob is strongest in its middle, and fades to nothing at its edge.
pub proof fn lemma_fades(d: int, e: int, r: int)
    requires
        0 <= d <= e <= r,
        r >= 1,
    ensures
        glow(e, r) <= glow(d, r),
        glow(0, r) == 255,
        glow(r, r) == 0,
{
    lemma_glow(d, r);
    lemma_glow(e, r);
    let (t, u) = ((r - d) * 255 / r, (r - e) * 255 / r);
    assert(u <= t) by (nonlinear_arith)
        requires
            t == (r - d) * 255 / r,
            u == (r - e) * 255 / r,
            d <= e <= r,
            r >= 1,
    {
        assert((r - e) * 255 <= (r - d) * 255);
    }
    assert(u * u <= t * t) by (nonlinear_arith)
        requires
            0 <= u <= t,
    ;
    assert((r - 0) * 255 / r == 255) by (nonlinear_arith)
        requires
            r >= 1,
    ;
    assert((r - r) * 255 / r == 0) by (nonlinear_arith)
        requires
            r >= 1,
    ;
}

} // verus!
