//! The per-pixel vegetation classifier: a weighted combination of the
//! ExG, CIVE and VEG spectral indices over the chromatic coordinates,
//! with an explicit guard for the zero-channel pixels on which the VEG
//! denominator would be undefined.

use vstd::prelude::*;

use crate::colorspace::rgb::{chromatic, RGB};
use crate::fixed::{
    div_round, icbrt, lemma_rdiv_bounds, lemma_rdiv_le, lemma_srdiv_abs_le, spec_icbrt, srdiv,
};

verus! {

/// The combined vegetation index of a pixel, in micro-units:
/// 0.36 * ExG + 0.47 * CIVE + 0.17 * VEG over the chromatic coordinates,
/// where ExG = 2g - r - b, CIVE = 0.441r - 0.811g + 0.385b and
/// VEG = g / (r^(2/3) * b^(1/3)) - 1, the denominator taken as the cube
/// root of r * r * b.
pub open spec fn veg_index_val(p: RGB) -> int {
    let sum = p.red + p.green + p.blue;
    let r = chromatic(p.red as int, sum as int);
    let g = chromatic(p.green as int, sum as int);
    let b = chromatic(p.blue as int, sum as int);
    let exg = 2 * g - r - b;
    let cive = srdiv(441 * r - 811 * g + 385 * b, 1_000);
    let denom = spec_icbrt(r * r * b);
    let veg = if denom == 0 {
        0
    } else {
        srdiv(g * 1_000_000, denom) - 1_000_000
    };
    srdiv(36 * exg + 47 * cive + 17 * veg, 100)
}

/// A pixel counts as vegetation exactly when its red and blue channels
/// are both nonzero — otherwise the VEG term is undefined and the pixel
/// is classified as non-vegetation — and the combined index exceeds
/// 0.03.
pub open spec fn is_vegetation(p: RGB) -> bool {
    p.red > 0 && p.blue > 0 && veg_index_val(p) > 30_000
}

/// The combined vegetation index, executable: the index of a pixel with
/// nonzero red and blue channels, and nothing for a degenerate pixel.
pub fn vegetation_index(p: &RGB) -> (r: Option<i64>)
    ensures
        p.red > 0 && p.blue > 0 ==> (r matches Some(v) && v as int == veg_index_val(*p)),
        p.red == 0 || p.blue == 0 ==> r is None,
{
    if p.red == 0 || p.blue == 0 {
        return None;
    }
    let sum: i64 = p.red as i64 + p.green as i64 + p.blue as i64;
    let r = div_round(p.red as i64 * 1_000_000, sum);
    let g = div_round(p.green as i64 * 1_000_000, sum);
    let b = div_round(p.blue as i64 * 1_000_000, sum);
    proof {
        lemma_rdiv_bounds(p.red as int * 1_000_000, sum as int);
        lemma_rdiv_le(p.red as int * 1_000_000, sum as int, 1_000_000);
        lemma_rdiv_bounds(p.green as int * 1_000_000, sum as int);
        lemma_rdiv_le(p.green as int * 1_000_000, sum as int, 1_000_000);
        lemma_rdiv_bounds(p.blue as int * 1_000_000, sum as int);
        lemma_rdiv_le(p.blue as int * 1_000_000, sum as int, 1_000_000);
    }
    let exg = 2 * g - r - b;
    let cive = div_round(441 * r - 811 * g + 385 * b, 1_000);
    proof {
        lemma_srdiv_abs_le(441 * r as int - 811 * g as int + 385 * b as int, 1_000, 1_000_000);
    }
    assert(0 <= r * r <= 1_000_000_000_000 && 0 <= r * r * b <= 1_000_000_000_000_000_000)
        by (nonlinear_arith)
        requires
            0 <= r <= 1_000_000i64,
            0 <= b <= 1_000_000i64,
    ;
    let denom = icbrt((r * r * b) as u64);
    let veg: i64 = if denom == 0 {
        0
    } else {
        let q = div_round(g * 1_000_000, denom as i64);
        proof {
            lemma_rdiv_bounds(g as int * 1_000_000, denom as int);
        }
        q - 1_000_000
    };
    let idx = div_round(36 * exg + 47 * cive + 17 * veg, 100);
    proof {
        lemma_srdiv_abs_le(
            36 * exg as int + 47 * cive as int + 17 * veg as int,
            100,
            200_000_000_000,
        );
    }
    Some(idx)
}

/// Classify one pixel, executable.
pub fn classify_pixel(p: &RGB) -> (r: bool)
    ensures
        r == is_vegetation(*p),
{
    match vegetation_index(p) {
        Some(idx) => idx > 30_000,
        None => false,
    }
}

} // verus!
