//! Integer arithmetic shared by the rest of the system.

use vstd::prelude::*;

verus! {

/// Division rounding towards zero, as the machine divides.
pub open spec fn tdiv(a: int, b: int) -> int {
    if a >= 0 {
        if b > 0 { a / b } else { -(a / -b) }
    } else {
        if b > 0 { -(-a / b) } else { -a / -b }
    }
}

pub open spec fn min(a: int, b: int) -> int {
    if a <= b { a } else { b }
}

pub open spec fn max(a: int, b: int) -> int {
    if a >= b { a } else { b }
}

/// `v` moved into `lo ..= hi`; `lo` when the range is empty.
pub open spec fn clamp(v: int, lo: int, hi: int) -> int {
    if v <= lo { lo } else if v >= hi { hi } else { v }
}

/// Whether `v` is a 32-bit signed number.
pub open spec fn fits(v: int) -> bool {
    i32::MIN <= v <= i32::MAX
}

/// Division rounding towards zero.
pub fn div(a: i64, b: i64) -> (r: i64)
    requires
        b != 0,
        a > i64::MIN,
        b > i64::MIN,
    ensures
        r == tdiv(a as int, b as int),
{
    proof {
        lemma_tdiv_bounds(a as int, b as int);
    }
    if a >= 0 {
        if b > 0 {
            a / b
        } else {
            -(a / -b)
        }
    } else {
        if b > 0 {
            -(-a / b)
        } else {
            -a / -b
        }
    }
}

/// `a / b`, cut off towards zero, for every `a`.
pub fn div_any(a: i64, b: i64) -> (r: i64)
    requires
        b > 1,
    ensures
        r == tdiv(a as int, b as int),
{
    let q: i128 = if a < 0 { -(((-(a as i128)) as u128 / b as u128) as i128) } else { (a / b) as i128 };
    proof {
        let m: int = if a < 0 { -(a as int) } else { a as int };
        assert(0 <= m / (b as int) <= m) by (nonlinear_arith)
            requires
                m >= 0,
                b > 1,
        ;
        assert(a == i64::MIN ==> m / (b as int) <= m / 2) by (nonlinear_arith)
            requires
                m >= 0,
                b > 1,
        ;
    }
    q as i64
}

/// The quotient is no further from zero than the dividend.
pub proof fn lemma_tdiv_bounds(a: int, b: int)
    requires
        b != 0,
    ensures
        a >= 0 ==> -a <= tdiv(a, b) <= a,
        a <= 0 ==> a <= tdiv(a, b) <= -a,
        a >= 0 && b > 0 ==> tdiv(a, b) >= 0,
{
    let x = if a >= 0 { a } else { -a };
    let y = if b > 0 { b } else { -b };
    assert(0 <= x / y <= x) by (nonlinear_arith)
        requires
            x >= 0,
            y >= 1,
    ;
}

/// Division rounding down.
pub fn floor_div(a: i64, b: i64) -> (r: i64)
    requires
        b > 0,
    ensures
        r == a as int / b as int,
{
    if a >= 0 {
        a / b
    } else {
        let n: i64 = -1 - a;
        let q: i64 = n / b;
        proof {
            let qi = q as int;
            let bi = b as int;
            let ai = a as int;
            let ni = n as int;
            assert(ni == bi * qi + ni % bi && 0 <= ni % bi < bi) by (nonlinear_arith)
                requires
                    ni >= 0,
                    bi > 0,
                    qi == ni / bi,
            ;
            assert(0 <= qi <= ni) by (nonlinear_arith)
                requires
                    ni >= 0,
                    bi >= 1,
                    qi == ni / bi,
            ;
            assert(ai / bi == -1 - qi) by (nonlinear_arith)
                requires
                    bi > 0,
                    bi * qi <= -1 - ai,
                    -1 - ai < bi * qi + bi,
            ;
        }
        -1 - q
    }
}

pub fn min_i32(a: i32, b: i32) -> (r: i32)
    ensures
        r == min(a as int, b as int),
{
    if a <= b { a } else { b }
}

pub fn max_i32(a: i32, b: i32) -> (r: i32)
    ensures
        r == max(a as int, b as int),
{
    if a >= b { a } else { b }
}

pub fn min_i64(a: i64, b: i64) -> (r: i64)
    ensures
        r == min(a as int, b as int),
{
    if a <= b { a } else { b }
}

pub fn max_i64(a: i64, b: i64) -> (r: i64)
    ensures
        r == max(a as int, b as int),
{
    if a >= b { a } else { b }
}

pub fn min_usize(a: usize, b: usize) -> (r: usize)
    ensures
        r == min(a as int, b as int),
{
    if a <= b { a } else { b }
}

pub fn clamp_i64(v: i64, lo: i64, hi: i64) -> (r: i64)
    ensures
        r == clamp(v as int, lo as int, hi as int),
{
    if v <= lo { lo } else if v >= hi { hi } else { v }
}

/// A 32-bit word as a signed number.
pub open spec fn signed32(v: u32) -> int {
    if v < 0x8000_0000 { v as int } else { v - 0x1_0000_0000 }
}

pub fn to_signed(v: u32) -> (r: i32)
    ensures
        r == signed32(v),
{
    if v < 0x8000_0000 { v as i32 } else { (v as i64 - 0x1_0000_0000) as i32 }
}

} // verus!
