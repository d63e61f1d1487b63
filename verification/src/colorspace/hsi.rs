//! The HSI pixel model and its conversion back to RGB.

use vstd::prelude::*;

use crate::colorspace::lab::Lab;
use crate::colorspace::rgb::{rgb_to_lab_spec, RGB};
use crate::colorspace::{byte_of_fix, fix_to_byte, ColorSpace};
use crate::fixed::{clamp_i64, div_round, lemma_rdiv_bounds, lemma_rdiv_le, lemma_srdiv_abs_le,
    rdiv, spec_clamp, srdiv};
use crate::trig::{cos_fix, cos_mdeg};

verus! {

/// One pixel as hue (micro-degrees in [0, 360)), saturation, intensity
/// and alpha (micro-units in [0, 1]).
#[derive(Clone, Copy, PartialEq, Eq, Structural, Debug)]
pub struct HSI {
    pub hue: i64,
    pub saturation: i64,
    pub intensity: i64,
    pub alpha: i64,
}

/// The fields lie in their documented ranges.
pub open spec fn hsi_wf(p: HSI) -> bool {
    &&& 0 <= p.hue < 360_000_000
    &&& 0 <= p.saturation <= 1_000_000
    &&& 0 <= p.intensity <= 1_000_000
    &&& 0 <= p.alpha <= 1_000_000
}

/// The argument of the cosine of (60 degrees - hue), folded to a
/// non-negative angle by evenness of the cosine.
pub open spec fn sector_arg(h: int) -> int {
    if h <= 60_000_000 {
        60_000_000 - h
    } else {
        h - 60_000_000
    }
}

/// The saturation-cosine ratio of the sector formula, at the micro-unit
/// scale, capped so that downstream arithmetic stays within machine
/// range; when the divisor cosine is 0 the uncapped ratio would be
/// unbounded and the cap itself is used, with the sign of the numerator.
pub open spec fn sector_ratio(s: int, c1: int, c2: int) -> int {
    let n = s * c1;
    if c2 > 0 {
        spec_clamp(srdiv(n, c2), -2_000_000_000_000, 2_000_000_000_000)
    } else if c2 < 0 {
        spec_clamp(srdiv(-n, -c2), -2_000_000_000_000, 2_000_000_000_000)
    } else if n >= 0 {
        2_000_000_000_000
    } else {
        -2_000_000_000_000
    }
}

/// HSI to RGB by the sector decomposition: x, y, z come from the hue
/// cosines, each is clamped into [0, 1] and scaled to 8 bits, and the
/// 120-degree sector of the hue picks which permutation of (x, y, z)
/// the channels take.
pub open spec fn hsi_to_rgb_spec(p: HSI) -> RGB {
    let i = p.intensity as int;
    let s = p.saturation as int;
    let h = p.hue as int;
    let x = rdiv(i * (1_000_000 - s), 1_000_000);
    let c1 = cos_mdeg(h);
    let c2 = cos_mdeg(sector_arg(h));
    let ratio = sector_ratio(s, c1, c2);
    let y = srdiv(i * (1_000_000 + ratio), 1_000_000);
    let z = 3 * i - x - y;
    let xb = fix_to_byte(spec_clamp(x, 0, 1_000_000));
    let yb = fix_to_byte(spec_clamp(y, 0, 1_000_000));
    let zb = fix_to_byte(spec_clamp(z, 0, 1_000_000));
    let ab = fix_to_byte(spec_clamp(p.alpha as int, 0, 1_000_000));
    if h < 120_000_000 {
        RGB { red: yb as u8, green: zb as u8, blue: xb as u8, alpha: ab as u8 }
    } else if h < 240_000_000 {
        RGB { red: xb as u8, green: yb as u8, blue: zb as u8, alpha: ab as u8 }
    } else {
        RGB { red: zb as u8, green: xb as u8, blue: yb as u8, alpha: ab as u8 }
    }
}

impl ColorSpace for HSI {
    open spec fn cs_wf(&self) -> bool {
        hsi_wf(*self)
    }

    open spec fn rgb_spec(&self) -> RGB {
        hsi_to_rgb_spec(*self)
    }

    open spec fn hsi_spec(&self) -> HSI {
        *self
    }

    open spec fn lab_spec(&self) -> Lab {
        rgb_to_lab_spec(hsi_to_rgb_spec(*self))
    }

    fn to_rgb(&self) -> (r: RGB) {
        let i = self.intensity;
        let s = self.saturation;
        let h = self.hue;
        assert(0 <= i * (1_000_000 - s) <= 1_000_000_000_000) by (nonlinear_arith)
            requires
                0 <= i <= 1_000_000i64,
                0 <= s <= 1_000_000i64,
        ;
        let x = div_round(i * (1_000_000 - s), 1_000_000);
        proof {
            lemma_rdiv_bounds(i as int * (1_000_000 - s as int), 1_000_000);
            lemma_rdiv_le(i as int * (1_000_000 - s as int), 1_000_000, 1_000_000);
        }
        let c1 = cos_fix(h);
        let arg2 = if h <= 60_000_000 {
            60_000_000 - h
        } else {
            h - 60_000_000
        };
        let c2 = cos_fix(arg2);
        assert(-2_000_000_000_000_000 <= s * c1 <= 2_000_000_000_000_000) by (nonlinear_arith)
            requires
                0 <= s <= 1_000_000i64,
                -2_000_000_000 <= c1 <= 2_000_000_000i64,
        ;
        let n = s * c1;
        let ratio = if c2 > 0 {
            clamp_i64(div_round(n, c2), -2_000_000_000_000, 2_000_000_000_000)
        } else if c2 < 0 {
            clamp_i64(div_round(-n, -c2), -2_000_000_000_000, 2_000_000_000_000)
        } else if n >= 0 {
            2_000_000_000_000
        } else {
            -2_000_000_000_000
        };
        let t = 1_000_000 + ratio;
        assert(-2_100_000_000_000_000_000 <= i * t <= 2_100_000_000_000_000_000
            && -2_100_000_000_000_000_000 <= i as int * t as int
            <= 2_100_000_000_000_000_000) by (nonlinear_arith)
            requires
                0 <= i <= 1_000_000i64,
                -2_000_001_000_000 <= t <= 2_000_001_000_000i64,
        ;
        let y = div_round(i * t, 1_000_000);
        proof {
            lemma_srdiv_abs_le(i as int * t as int, 1_000_000, 2_100_000_000_000);
        }
        let z = 3 * i - x - y;
        let xb = byte_of_fix(clamp_i64(x, 0, 1_000_000));
        let yb = byte_of_fix(clamp_i64(y, 0, 1_000_000));
        let zb = byte_of_fix(clamp_i64(z, 0, 1_000_000));
        let ab = byte_of_fix(clamp_i64(self.alpha, 0, 1_000_000));
        if h < 120_000_000 {
            RGB { red: yb, green: zb, blue: xb, alpha: ab }
        } else if h < 240_000_000 {
            RGB { red: xb, green: yb, blue: zb, alpha: ab }
        } else {
            RGB { red: zb, green: xb, blue: yb, alpha: ab }
        }
    }

    fn to_hsi(&self) -> (r: HSI) {
        *self
    }

    fn to_lab(&self) -> (r: Lab) {
        let rgb = self.to_rgb();
        rgb.to_lab()
    }
}

} // verus!
