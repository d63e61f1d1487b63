//! Fixed-point trigonometry on angles in micro-degrees: a cosine built
//! from a truncated power series, and its inverse by bisection. The spec
//! functions are the mathematical definitions of these fixed-point
//! approximations; the executable functions compute exactly those values.

use vstd::prelude::*;

use crate::fixed::{div_round, lemma_div_le, lemma_rdiv_bounds, lemma_rdiv_le, rdiv};

verus! {

/// Half turn in micro-degrees.
pub const HALF_TURN: i64 = 180_000_000;

/// Full turn in micro-degrees.
pub const FULL_TURN: i64 = 360_000_000;

/// Cosine on [0, 90] degrees (micro-degree argument), at the 10^9 scale:
/// the angle converted to radians, then the power series truncated after
/// the tenth-power term, each term floored at the 10^9 scale.
pub open spec fn cos_quarter(x: int) -> int {
    let r = rdiv(x * 17_453_293, 1_000_000);
    let x2 = r * r / 1_000_000_000;
    let x4 = x2 * x2 / 1_000_000_000;
    let t6 = x4 * (x2 / 720) / 1_000_000_000;
    let t8 = x4 * (x4 / 40320) / 1_000_000_000;
    let t10 = (t8 * x2 / 1_000_000_000) / 90;
    1_000_000_000 - x2 / 2 + x4 / 24 - t6 + t8 - t10
}

/// Cosine on [0, 360] degrees (micro-degree argument), at the 10^9 scale,
/// by reflection of the first quadrant.
pub open spec fn cos_mdeg(a: int) -> int {
    if a <= 90_000_000 {
        cos_quarter(a)
    } else if a <= 180_000_000 {
        -cos_quarter(180_000_000 - a)
    } else if a <= 270_000_000 {
        -cos_quarter(a - 180_000_000)
    } else {
        cos_quarter(360_000_000 - a)
    }
}

/// Bisection for the inverse cosine: the angle in [lo, hi] micro-degrees
/// at which `cos_mdeg` crosses v.
pub open spec fn acos_search(v: int, lo: int, hi: int) -> int
    decreases hi - lo,
{
    if hi - lo <= 1 {
        lo
    } else {
        let mid = (lo + hi) / 2;
        if cos_mdeg(mid) >= v {
            acos_search(v, mid, hi)
        } else {
            acos_search(v, lo, mid)
        }
    }
}

/// Inverse cosine in micro-degrees of a value at the 10^9 scale.
pub open spec fn acos_mdeg(v: int) -> int {
    acos_search(v, 0, 180_000_000)
}

/// Cosine on the first quadrant, executable.
fn cos_quarter_fix(x: i64) -> (r: i64)
    requires
        0 <= x <= 90_000_000,
    ensures
        r == cos_quarter(x as int),
        -2_000_000_000 <= r <= 2_000_000_000,
{
    let rad = div_round(x * 17_453_293, 1_000_000);
    proof {
        lemma_rdiv_bounds(x * 17_453_293, 1_000_000);
        lemma_rdiv_le(x * 17_453_293, 1_000_000, 1_570_797_000);
    }
    assert(rad * rad <= 1_570_797_000i64 * 1_570_797_000) by (nonlinear_arith)
        requires
            0 <= rad <= 1_570_797_000i64,
    ;
    let x2 = rad * rad / 1_000_000_000;
    proof {
        lemma_div_le(rad * rad, 1_000_000_000, 2_470_000_000);
    }
    assert(x2 * x2 <= 2_470_000_000i64 * 2_470_000_000) by (nonlinear_arith)
        requires
            0 <= x2 <= 2_470_000_000i64,
    ;
    let x4 = x2 * x2 / 1_000_000_000;
    proof {
        lemma_div_le(x2 * x2, 1_000_000_000, 6_101_000_000);
        lemma_div_le(x2 as int, 720, 3_430_556);
        lemma_div_le(x2 as int, 2, 1_235_000_000);
        lemma_div_le(x4 as int, 24, 254_209_000);
        lemma_div_le(x4 as int, 40320, 151_315);
    }
    let x2s = x2 / 720;
    assert(x4 * x2s <= 6_101_000_000i64 * 3_430_556) by (nonlinear_arith)
        requires
            0 <= x4 <= 6_101_000_000i64,
            0 <= x2s <= 3_430_556i64,
    ;
    let t6 = x4 * x2s / 1_000_000_000;
    let x4s = x4 / 40320;
    assert(x4 * x4s <= 6_101_000_000i64 * 151_315) by (nonlinear_arith)
        requires
            0 <= x4 <= 6_101_000_000i64,
            0 <= x4s <= 151_315i64,
    ;
    let t8 = x4 * x4s / 1_000_000_000;
    proof {
        lemma_div_le(x4 * x2s, 1_000_000_000, 21_000_000);
        lemma_div_le(x4 * x4s, 1_000_000_000, 924_000);
    }
    assert(t8 * x2 <= 924_000i64 * 2_470_000_000) by (nonlinear_arith)
        requires
            0 <= t8 <= 924_000i64,
            0 <= x2 <= 2_470_000_000i64,
    ;
    let t10 = (t8 * x2 / 1_000_000_000) / 90;
    proof {
        lemma_div_le(t8 * x2, 1_000_000_000, 2_282_280);
        lemma_div_le(t8 * x2 / 1_000_000_000, 90, 2_282_280);
    }
    1_000_000_000 - x2 / 2 + x4 / 24 - t6 + t8 - t10
}

/// Cosine on [0, 360] degrees, executable.
pub fn cos_fix(a: i64) -> (r: i64)
    requires
        0 <= a <= 360_000_000,
    ensures
        r == cos_mdeg(a as int),
        -2_000_000_000 <= r <= 2_000_000_000,
{
    if a <= 90_000_000 {
        cos_quarter_fix(a)
    } else if a <= 180_000_000 {
        -cos_quarter_fix(180_000_000 - a)
    } else if a <= 270_000_000 {
        -cos_quarter_fix(a - 180_000_000)
    } else {
        cos_quarter_fix(360_000_000 - a)
    }
}

/// Inverse cosine, executable: bisection over `cos_fix`.
pub fn acos_fix(v: i64) -> (r: i64)
    ensures
        r == acos_mdeg(v as int),
        0 <= r < 180_000_000,
{
    let mut lo: i64 = 0;
    let mut hi: i64 = 180_000_000;
    while hi - lo > 1
        invariant
            0 <= lo < hi <= 180_000_000,
            acos_search(v as int, lo as int, hi as int) == acos_mdeg(v as int),
        decreases hi - lo,
    {
        let mid = (lo + hi) / 2;
        let c = cos_fix(mid);
        if c >= v {
            lo = mid;
        } else {
            hi = mid;
        }
    }
    lo
}

} // verus!
