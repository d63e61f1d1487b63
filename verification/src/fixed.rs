//! Fixed-point arithmetic helpers: rounding division, integer square and
//! cube roots, and clamping, with exact contracts over the corresponding
//! mathematical (spec-level) definitions.

use vstd::prelude::*;

verus! {

/// One in the micro-unit fixed-point scale used for saturation, intensity,
/// alpha, normalized channels and index values (1.0 == 1_000_000).
pub const FIX_ONE: i64 = 1_000_000;

/// Rounding division of a non-negative dividend by a positive divisor:
/// the integer nearest to n / d, halves rounded up.
pub open spec fn rdiv(n: int, d: int) -> int {
    (2 * n + d) / (2 * d)
}

/// Rounding division extended to signed dividends, halves rounded away
/// from zero.
pub open spec fn srdiv(n: int, d: int) -> int {
    if n >= 0 {
        rdiv(n, d)
    } else {
        -rdiv(-n, d)
    }
}

/// x restricted to the interval [lo, hi].
pub open spec fn spec_clamp(x: int, lo: int, hi: int) -> int {
    if x < lo {
        lo
    } else if x > hi {
        hi
    } else {
        x
    }
}

/// If n <= b * d then the rounded quotient of n by d is at most b.
pub proof fn lemma_rdiv_le(n: int, d: int, b: int)
    requires
        0 < d,
        0 <= n,
        n <= b * d,
    ensures
        rdiv(n, d) <= b,
{
    let q = (2 * n + d) / (2 * d);
    let r = (2 * n + d) % (2 * d);
    vstd::arithmetic::div_mod::lemma_fundamental_div_mod(2 * n + d, 2 * d);
    vstd::arithmetic::div_mod::lemma_mod_bound(2 * n + d, 2 * d);
    assert(q <= b) by (nonlinear_arith)
        requires
            2 * n + d == 2 * d * q + r,
            0 <= r < 2 * d,
            n <= b * d,
            0 < d,
            0 <= n,
    ;
}

/// If b * d <= n then the rounded quotient of n by d is at least b.
pub proof fn lemma_rdiv_ge(n: int, d: int, b: int)
    requires
        0 < d,
        0 <= n,
        b * d <= n,
    ensures
        rdiv(n, d) >= b,
{
    let q = (2 * n + d) / (2 * d);
    let r = (2 * n + d) % (2 * d);
    vstd::arithmetic::div_mod::lemma_fundamental_div_mod(2 * n + d, 2 * d);
    vstd::arithmetic::div_mod::lemma_mod_bound(2 * n + d, 2 * d);
    assert(q >= b) by (nonlinear_arith)
        requires
            2 * n + d == 2 * d * q + r,
            0 <= r < 2 * d,
            b * d <= n,
            0 < d,
            0 <= n,
    ;
}

/// The rounded quotient of a non-negative dividend lies between 0 and the
/// dividend itself.
pub proof fn lemma_rdiv_bounds(n: int, d: int)
    requires
        0 < d,
        0 <= n,
    ensures
        0 <= rdiv(n, d) <= n,
{
    lemma_rdiv_ge(n, d, 0);
    assert(n <= n * d) by (nonlinear_arith)
        requires
            0 < d,
            0 <= n,
    ;
    lemma_rdiv_le(n, d, n);
}

/// Rounding division is monotone in the dividend.
pub proof fn lemma_rdiv_mono(n1: int, n2: int, d: int)
    requires
        0 < d,
        n1 <= n2,
    ensures
        rdiv(n1, d) <= rdiv(n2, d),
{
    vstd::arithmetic::div_mod::lemma_div_is_ordered(2 * n1 + d, 2 * n2 + d, 2 * d);
}

/// Rounding division of an exact multiple recovers the factor.
pub proof fn lemma_rdiv_exact(d: int, b: int)
    requires
        0 < d,
        0 <= b,
    ensures
        rdiv(b * d, d) == b,
{
    assert(0 <= b * d) by (nonlinear_arith)
        requires
            0 < d,
            0 <= b,
    ;
    lemma_rdiv_le(b * d, d, b);
    lemma_rdiv_ge(b * d, d, b);
}

/// A floored quotient of a bounded non-negative dividend is bounded.
pub proof fn lemma_div_le(x: int, d: int, b: int)
    requires
        0 < d,
        0 <= x,
        x <= b * d,
    ensures
        0 <= x / d <= b,
{
    let q = x / d;
    let r = x % d;
    vstd::arithmetic::div_mod::lemma_fundamental_div_mod(x, d);
    vstd::arithmetic::div_mod::lemma_mod_bound(x, d);
    assert(0 <= q && q <= b) by (nonlinear_arith)
        requires
            x == d * q + r,
            0 <= r < d,
            x <= b * d,
            0 < d,
            0 <= x,
    ;
}

/// Signed rounding division is monotone in the dividend.
pub proof fn lemma_srdiv_mono(n1: int, n2: int, d: int)
    requires
        0 < d,
        n1 <= n2,
    ensures
        srdiv(n1, d) <= srdiv(n2, d),
{
    if n1 >= 0 {
        lemma_rdiv_mono(n1, n2, d);
    } else if n2 < 0 {
        lemma_rdiv_mono(-n2, -n1, d);
    } else {
        lemma_rdiv_bounds(-n1, d);
        lemma_rdiv_bounds(n2, d);
    }
}

/// A signed rounded quotient of a bounded dividend is bounded.
pub proof fn lemma_srdiv_abs_le(n: int, d: int, b: int)
    requires
        0 < d,
        0 <= b,
        -(b * d) <= n <= b * d,
    ensures
        -b <= srdiv(n, d) <= b,
{
    if n >= 0 {
        lemma_rdiv_bounds(n, d);
        lemma_rdiv_le(n, d, b);
    } else {
        lemma_rdiv_bounds(-n, d);
        lemma_rdiv_le(-n, d, b);
    }
}

/// Rounding division, implemented over i64 with the value of `srdiv`.
pub fn div_round(n: i64, d: i64) -> (r: i64)
    requires
        0 < d <= 1_000_000_000_000,
        -4_000_000_000_000_000_000 <= n <= 4_000_000_000_000_000_000,
    ensures
        r == srdiv(n as int, d as int),
{
    if n >= 0 {
        (2 * n + d) / (2 * d)
    } else {
        let m = -n;
        let q = (2 * m + d) / (2 * d);
        -q
    }
}

/// Clamp a value into [lo, hi].
pub fn clamp_i64(x: i64, lo: i64, hi: i64) -> (r: i64)
    requires
        lo <= hi,
    ensures
        r == spec_clamp(x as int, lo as int, hi as int),
{
    if x < lo {
        lo
    } else if x > hi {
        hi
    } else {
        x
    }
}

/// Bisection for the integer square root: the greatest value in [lo, hi)
/// whose square does not exceed n.
pub open spec fn sqrt_search(n: int, lo: int, hi: int) -> int
    decreases hi - lo,
{
    if hi - lo <= 1 {
        lo
    } else {
        let mid = (lo + hi) / 2;
        if mid * mid <= n {
            sqrt_search(n, mid, hi)
        } else {
            sqrt_search(n, lo, mid)
        }
    }
}

/// Integer square root of values up to 4 * 10^12.
pub open spec fn spec_isqrt(n: int) -> int {
    sqrt_search(n, 0, 2_000_001)
}

/// Bisection for the integer cube root: the greatest value in [lo, hi)
/// whose cube does not exceed n.
pub open spec fn cbrt_search(n: int, lo: int, hi: int) -> int
    decreases hi - lo,
{
    if hi - lo <= 1 {
        lo
    } else {
        let mid = (lo + hi) / 2;
        if mid * mid * mid <= n {
            cbrt_search(n, mid, hi)
        } else {
            cbrt_search(n, lo, mid)
        }
    }
}

/// Integer cube root of values up to 2 * 10^18.
pub open spec fn spec_icbrt(n: int) -> int {
    cbrt_search(n, 0, 1_259_922)
}

/// Integer square root, executable: the greatest r with r * r <= n.
pub fn isqrt(n: u64) -> (r: u64)
    requires
        n <= 4_000_000_000_000,
    ensures
        r == spec_isqrt(n as int),
        r * r <= n < (r + 1) * (r + 1),
        r <= 2_000_000,
{
    let mut lo: u64 = 0;
    let mut hi: u64 = 2_000_001;
    assert(2_000_001u64 * 2_000_001 > 4_000_000_000_000) by (nonlinear_arith);
    while hi - lo > 1
        invariant
            lo < hi,
            hi <= 2_000_001,
            lo * lo <= n,
            n < hi * hi,
            sqrt_search(n as int, lo as int, hi as int) == spec_isqrt(n as int),
        decreases hi - lo,
    {
        let mid = (lo + hi) / 2;
        assert(mid * mid <= 2_000_001u64 * 2_000_001) by (nonlinear_arith)
            requires
                mid <= 2_000_001u64,
        ;
        if mid * mid <= n {
            lo = mid;
        } else {
            hi = mid;
        }
    }
    lo
}

/// Integer cube root, executable: the greatest r with r * r * r <= n.
pub fn icbrt(n: u64) -> (r: u64)
    requires
        n <= 2_000_000_000_000_000_000,
    ensures
        r == spec_icbrt(n as int),
        r * r * r <= n < (r + 1) * (r + 1) * (r + 1),
        r <= 1_259_921,
{
    let mut lo: u64 = 0;
    let mut hi: u64 = 1_259_922;
    assert(1_259_922u64 * 1_259_922 * 1_259_922 > 2_000_000_000_000_000_000) by (nonlinear_arith);
    while hi - lo > 1
        invariant
            lo < hi,
            hi <= 1_259_922,
            lo * lo * lo <= n,
            n < hi * hi * hi,
            cbrt_search(n as int, lo as int, hi as int) == spec_icbrt(n as int),
        decreases hi - lo,
    {
        let mid = (lo + hi) / 2;
        assert(mid * mid <= 1_259_922u64 * 1_259_922 && mid * mid * mid <= 1_259_922u64
            * 1_259_922 * 1_259_922) by (nonlinear_arith)
            requires
                mid <= 1_259_922u64,
        ;
        if mid * mid * mid <= n {
            lo = mid;
        } else {
            hi = mid;
        }
    }
    lo
}

} // verus!
