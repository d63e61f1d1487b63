//! The Lab pixel model and its conversion back to RGB.

use vstd::prelude::*;

use crate::colorspace::hsi::HSI;
use crate::colorspace::rgb::{rgb_to_hsi_spec, RGB};
use crate::colorspace::{byte_of_fix, fix_to_byte, ColorSpace};
use crate::fixed::{clamp_i64, div_round, lemma_div_le, lemma_rdiv_bounds, lemma_rdiv_le,
    lemma_srdiv_abs_le, rdiv, spec_clamp, srdiv};

verus! {

/// One pixel as lightness l (micro-units in [0, 100]), signed chromatic
/// axes a and b (micro-units), and alpha (micro-units in [0, 1]).
#[derive(Clone, Copy, PartialEq, Eq, Structural, Debug)]
pub struct Lab {
    pub l: i64,
    pub a: i64,
    pub b: i64,
    pub alpha: i64,
}

/// The fields lie in their documented ranges.
pub open spec fn lab_wf(p: Lab) -> bool {
    &&& 0 <= p.l <= 100_000_000
    &&& -700_000_000 <= p.a <= 700_000_000
    &&& -700_000_000 <= p.b <= 700_000_000
    &&& 0 <= p.alpha <= 1_000_000
}

/// The inverse of the Lab compression: cube above the cube-root domain
/// boundary, linear below it; micro-unit argument and result.
pub open spec fn lab_f_inv(f: int) -> int {
    if f > 206_893 {
        (f * f * f) / 1_000_000_000_000
    } else {
        srdiv((f - 137_931) * 1_000, 7_787)
    }
}

/// Lab to RGB: recover the three compressed values from L, a and b,
/// invert the compression, scale by the reference white, apply the
/// inverse linear map and saturate each channel to 8 bits.
pub open spec fn lab_to_rgb_spec(p: Lab) -> RGB {
    let fy = rdiv(p.l + 16_000_000, 116);
    let fx = spec_clamp(fy + srdiv(p.a as int, 500), -2_000_000, 2_000_000);
    let fz = spec_clamp(fy - srdiv(p.b as int, 200), -2_000_000, 2_000_000);
    let xw = srdiv(950_456 * lab_f_inv(fx), 1_000_000);
    let yw = lab_f_inv(fy);
    let zw = srdiv(1_088_754 * lab_f_inv(fz), 1_000_000);
    let rl = srdiv(3_240_479 * xw - 1_537_150 * yw - 498_535 * zw, 1_000_000);
    let gl = srdiv(-969_256 * xw + 1_875_992 * yw + 41_556 * zw, 1_000_000);
    let bl = srdiv(55_648 * xw - 204_043 * yw + 1_057_311 * zw, 1_000_000);
    RGB {
        red: spec_clamp(srdiv(rl * 255, 1_000_000), 0, 255) as u8,
        green: spec_clamp(srdiv(gl * 255, 1_000_000), 0, 255) as u8,
        blue: spec_clamp(srdiv(bl * 255, 1_000_000), 0, 255) as u8,
        alpha: fix_to_byte(spec_clamp(p.alpha as int, 0, 1_000_000)) as u8,
    }
}

/// The inverse compression, executable.
pub(crate) fn lab_f_inv_fix(f: i64) -> (r: i64)
    requires
        -2_000_000 <= f <= 2_000_000,
    ensures
        r == lab_f_inv(f as int),
        -300_000 <= r <= 8_000_000,
{
    if f > 206_893 {
        assert(0 <= f * f <= 4_000_000_000_000 && 0 <= f * f * f
            <= 8_000_000_000_000_000_000) by (nonlinear_arith)
            requires
                0 < f <= 2_000_000i64,
        ;
        let c = (f * f * f) / 1_000_000_000_000;
        proof {
            lemma_div_le(f as int * f as int * f as int, 1_000_000_000_000, 8_000_000);
        }
        c
    } else {
        let m = div_round((f - 137_931) * 1_000, 7_787);
        proof {
            lemma_srdiv_abs_le((f as int - 137_931) * 1_000, 7_787, 300_000);
        }
        m
    }
}

impl ColorSpace for Lab {
    open spec fn cs_wf(&self) -> bool {
        lab_wf(*self)
    }

    open spec fn rgb_spec(&self) -> RGB {
        lab_to_rgb_spec(*self)
    }

    open spec fn hsi_spec(&self) -> HSI {
        rgb_to_hsi_spec(lab_to_rgb_spec(*self))
    }

    open spec fn lab_spec(&self) -> Lab {
        *self
    }

    #[verifier::rlimit(100)]
    fn to_rgb(&self) -> (r: RGB) {
        let fy = div_round(self.l + 16_000_000, 116);
        proof {
            lemma_rdiv_bounds(self.l as int + 16_000_000, 116);
            lemma_rdiv_le(self.l as int + 16_000_000, 116, 1_000_001);
        }
        let da = div_round(self.a, 500);
        let db = div_round(self.b, 200);
        proof {
            lemma_srdiv_abs_le(self.a as int, 500, 1_400_000);
            lemma_srdiv_abs_le(self.b as int, 200, 3_500_000);
        }
        let fx = clamp_i64(fy + da, -2_000_000, 2_000_000);
        let fz = clamp_i64(fy - db, -2_000_000, 2_000_000);
        let tx = lab_f_inv_fix(fx);
        let ty = lab_f_inv_fix(fy);
        let tz = lab_f_inv_fix(fz);
        let xw = div_round(950_456 * tx, 1_000_000);
        let zw = div_round(1_088_754 * tz, 1_000_000);
        proof {
            lemma_srdiv_abs_le(950_456 * tx as int, 1_000_000, 7_700_000);
            lemma_srdiv_abs_le(1_088_754 * tz as int, 1_000_000, 8_800_000);
        }
        let rl = div_round(3_240_479 * xw - 1_537_150 * ty - 498_535 * zw, 1_000_000);
        let gl = div_round(-969_256 * xw + 1_875_992 * ty + 41_556 * zw, 1_000_000);
        let bl = div_round(55_648 * xw - 204_043 * ty + 1_057_311 * zw, 1_000_000);
        proof {
            lemma_srdiv_abs_le(
                3_240_479 * xw as int - 1_537_150 * ty as int - 498_535 * zw as int,
                1_000_000,
                50_000_000,
            );
            lemma_srdiv_abs_le(
                -969_256 * xw as int + 1_875_992 * ty as int + 41_556 * zw as int,
                1_000_000,
                50_000_000,
            );
            lemma_srdiv_abs_le(
                55_648 * xw as int - 204_043 * ty as int + 1_057_311 * zw as int,
                1_000_000,
                50_000_000,
            );
        }
        let red = clamp_i64(div_round(rl * 255, 1_000_000), 0, 255);
        let green = clamp_i64(div_round(gl * 255, 1_000_000), 0, 255);
        let blue = clamp_i64(div_round(bl * 255, 1_000_000), 0, 255);
        let alpha = byte_of_fix(clamp_i64(self.alpha, 0, 1_000_000));
        RGB { red: red as u8, green: green as u8, blue: blue as u8, alpha }
    }

    fn to_hsi(&self) -> (r: HSI) {
        let rgb = self.to_rgb();
        rgb.to_hsi()
    }

    fn to_lab(&self) -> (r: Lab) {
        *self
    }
}

} // verus!
