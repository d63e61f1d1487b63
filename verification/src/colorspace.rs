//! The three pixel color models — RGB, HSI and Lab — and the shared
//! conversion capability among them. Chromatic channels are converted by
//! the classic coordinate formulas in fixed-point arithmetic; the alpha
//! channel is only rescaled between the 8-bit and the micro-unit domain.

pub mod hsi;
pub mod lab;
pub mod rgb;

use vstd::prelude::*;

use self::hsi::HSI;
use self::lab::Lab;
use self::rgb::RGB;
use crate::fixed::rdiv;

verus! {

/// An 8-bit alpha rescaled to the micro-unit scale, nearest value.
pub open spec fn alpha_to_fix(a: int) -> int {
    rdiv(a * 1_000_000, 255)
}

/// A micro-unit value rescaled to an 8-bit channel, nearest value.
pub open spec fn fix_to_byte(x: int) -> int {
    rdiv(x * 255, 1_000_000)
}

/// The least of three values.
pub open spec fn min3(a: int, b: int, c: int) -> int {
    if a <= b && a <= c {
        a
    } else if b <= c {
        b
    } else {
        c
    }
}

/// Rescaling an 8-bit alpha to the micro-unit domain and back returns it
/// unchanged: the two roundings cancel.
pub proof fn lemma_alpha_rescale_inverse(a: int)
    requires
        0 <= a <= 255,
    ensures
        fix_to_byte(alpha_to_fix(a)) == a,
{
    let q = alpha_to_fix(a);
    let r0 = (2 * (a * 1_000_000) + 255) % 510;
    vstd::arithmetic::div_mod::lemma_fundamental_div_mod(2 * (a * 1_000_000) + 255, 510);
    vstd::arithmetic::div_mod::lemma_mod_bound(2 * (a * 1_000_000) + 255, 510);
    assert(510 * q == 2_000_000 * a + 255 - r0);
    assert(2 * (q * 255) + 1_000_000 == a * 2_000_000 + (1_000_000 + 255 - r0));
    vstd::arithmetic::div_mod::lemma_fundamental_div_mod_converse(
        2 * (q * 255) + 1_000_000,
        2_000_000,
        a,
        1_000_000 + 255 - r0,
    );
}

/// A micro-unit value in [0, 1] scaled to one 8-bit channel, executable.
pub(crate) fn byte_of_fix(v: i64) -> (r: u8)
    requires
        0 <= v <= 1_000_000,
    ensures
        r as int == fix_to_byte(v as int),
{
    let b = crate::fixed::div_round(v * 255, 1_000_000);
    proof {
        crate::fixed::lemma_rdiv_bounds(v as int * 255, 1_000_000);
        crate::fixed::lemma_rdiv_le(v as int * 255, 1_000_000, 255);
    }
    b as u8
}

/// Alpha is preserved across every sequence of conversions: an 8-bit
/// pixel sent to HSI or Lab — directly or through the other model — and
/// back to RGB keeps its alpha exactly, because the rescalings between
/// the 0-255 and 0-1 domains cancel.
pub proof fn lemma_alpha_round_trip(p: RGB)
    ensures
        p.hsi_spec().rgb_spec().alpha == p.alpha,
        p.lab_spec().rgb_spec().alpha == p.alpha,
        p.hsi_spec().lab_spec().rgb_spec().alpha == p.alpha,
        p.lab_spec().hsi_spec().rgb_spec().alpha == p.alpha,
{
    let a = p.alpha as int;
    crate::fixed::lemma_rdiv_bounds(a * 1_000_000, 255);
    crate::fixed::lemma_rdiv_le(a * 1_000_000, 255, 1_000_000);
    lemma_alpha_rescale_inverse(a);
    crate::fixed::lemma_rdiv_bounds(alpha_to_fix(a) * 255, 1_000_000);
    crate::fixed::lemma_rdiv_le(alpha_to_fix(a) * 255, 1_000_000, 255);
}

/// A pixel representation with total conversions to each of the three
/// color models; the identity conversion copies the pixel.
pub trait ColorSpace: Sized {
    /// The fields lie in the ranges their color model documents.
    spec fn cs_wf(&self) -> bool;

    /// The pixel expressed in the RGB model.
    spec fn rgb_spec(&self) -> RGB;

    /// The pixel expressed in the HSI model.
    spec fn hsi_spec(&self) -> HSI;

    /// The pixel expressed in the Lab model.
    spec fn lab_spec(&self) -> Lab;

    /// Convert to RGB; any 8-bit pixel is well formed.
    fn to_rgb(&self) -> (r: RGB)
        requires
            self.cs_wf(),
        ensures
            r == self.rgb_spec(),
    ;

    /// Convert to HSI; the result is a well-formed HSI pixel.
    fn to_hsi(&self) -> (r: HSI)
        requires
            self.cs_wf(),
        ensures
            r == self.hsi_spec(),
            crate::colorspace::hsi::hsi_wf(r),
    ;

    /// Convert to Lab; the result is a well-formed Lab pixel.
    fn to_lab(&self) -> (r: Lab)
        requires
            self.cs_wf(),
        ensures
            r == self.lab_spec(),
            crate::colorspace::lab::lab_wf(r),
    ;
}

} // verus!
