//! The RGB pixel model and its conversions to HSI and Lab.

use vstd::prelude::*;

use crate::colorspace::hsi::HSI;
use crate::colorspace::lab::Lab;
use crate::colorspace::{alpha_to_fix, min3, ColorSpace};
use crate::fixed::{
    clamp_i64, div_round, icbrt, isqrt, lemma_div_le, lemma_rdiv_bounds, lemma_rdiv_le, rdiv,
    spec_clamp, spec_icbrt, spec_isqrt, srdiv,
};
use crate::trig::{acos_fix, acos_mdeg};

verus! {

/// One pixel with 8-bit red, green, blue and alpha channels.
#[derive(Clone, Copy, PartialEq, Eq, Structural, Debug)]
pub struct RGB {
    pub red: u8,
    pub green: u8,
    pub blue: u8,
    pub alpha: u8,
}

/// A channel rescaled by the channel sum into a micro-unit chromatic
/// coordinate.
pub open spec fn chromatic(c: int, s: int) -> int {
    rdiv(c * 1_000_000, s)
}

/// RGB to HSI: the hue is the arccosine of the half-sum ratio over the
/// chromatic coordinates, reflected above 180 degrees when blue exceeds
/// green, and pinned to 0 for gray pixels, where the ratio is undefined;
/// the saturation comes from the least channel, the intensity is the
/// channel mean, and a fully black pixel has hue and saturation 0.
pub open spec fn rgb_to_hsi_spec(p: RGB) -> HSI {
    let sum = p.red + p.green + p.blue;
    let alpha = alpha_to_fix(p.alpha as int);
    if sum == 0 {
        HSI { hue: 0, saturation: 0, intensity: 0, alpha: alpha as i64 }
    } else {
        let r = chromatic(p.red as int, sum as int);
        let g = chromatic(p.green as int, sum as int);
        let b = chromatic(p.blue as int, sum as int);
        let d1 = r - g;
        let d2 = r - b;
        let db = g - b;
        let sq = spec_isqrt(d1 * d1 + d2 * db);
        let hue = if sq == 0 {
            0
        } else {
            let inner = spec_clamp(
                srdiv((d1 + d2) * 500_000_000, sq),
                -1_000_000_000,
                1_000_000_000,
            );
            let theta = acos_mdeg(inner);
            if p.blue <= p.green {
                theta
            } else if theta == 0 {
                0
            } else {
                360_000_000 - theta
            }
        };
        let saturation = 1_000_000 - rdiv(
            3_000_000 * min3(p.red as int, p.green as int, p.blue as int),
            sum as int,
        );
        let intensity = rdiv(sum * 1_000_000, 765);
        HSI {
            hue: hue as i64,
            saturation: saturation as i64,
            intensity: intensity as i64,
            alpha: alpha as i64,
        }
    }
}

/// The Lab forward compression: cube root above the small-value
/// threshold, linear below it; micro-unit argument and result.
pub open spec fn lab_f(t: int) -> int {
    if t > 8_856 {
        spec_icbrt(t * 1_000_000_000_000)
    } else {
        rdiv(7_787 * t, 1_000) + 137_931
    }
}

/// RGB to Lab: channels normalized to micro-units, the linear map to
/// XYZ, division by the reference white, the forward compression, and
/// the L, a, b combinations, with L clamped to its nominal range.
pub open spec fn rgb_to_lab_spec(p: RGB) -> Lab {
    let rn = rdiv(p.red as int * 1_000_000, 255);
    let gn = rdiv(p.green as int * 1_000_000, 255);
    let bn = rdiv(p.blue as int * 1_000_000, 255);
    let xl = rdiv(412_453 * rn + 357_580 * gn + 180_423 * bn, 1_000_000);
    let yw = rdiv(212_671 * rn + 715_160 * gn + 72_169 * bn, 1_000_000);
    let zl = rdiv(19_334 * rn + 119_193 * gn + 950_227 * bn, 1_000_000);
    let xw = rdiv(xl * 1_000_000, 950_456);
    let zw = rdiv(zl * 1_000_000, 1_088_754);
    let fx = lab_f(xw);
    let fy = lab_f(yw);
    let fz = lab_f(zw);
    Lab {
        l: spec_clamp(116 * fy - 16_000_000, 0, 100_000_000) as i64,
        a: (500 * (fx - fy)) as i64,
        b: (200 * (fy - fz)) as i64,
        alpha: alpha_to_fix(p.alpha as int) as i64,
    }
}

/// The forward compression, executable.
pub(crate) fn lab_f_fix(t: i64) -> (r: i64)
    requires
        0 <= t <= 1_100_000,
    ensures
        r == lab_f(t as int),
        0 <= r <= 1_259_921,
{
    if t > 8_856 {
        let c = icbrt((t * 1_000_000_000_000) as u64);
        c as i64
    } else {
        let lin = div_round(7_787 * t, 1_000);
        proof {
            lemma_rdiv_bounds(7_787 * t, 1_000);
            lemma_rdiv_le(7_787 * t, 1_000, 69_000);
        }
        lin + 137_931
    }
}

/// The 8-bit alpha rescaled to micro-units, executable.
pub(crate) fn alpha_fix(a: u8) -> (r: i64)
    ensures
        r == alpha_to_fix(a as int),
        0 <= r <= 1_000_000,
{
    let r = div_round(a as i64 * 1_000_000, 255);
    proof {
        lemma_rdiv_bounds(a as int * 1_000_000, 255);
        lemma_rdiv_le(a as int * 1_000_000, 255, 1_000_000);
    }
    r
}

impl ColorSpace for RGB {
    /// Every 8-bit pixel is well formed.
    open spec fn cs_wf(&self) -> bool {
        true
    }

    open spec fn rgb_spec(&self) -> RGB {
        *self
    }

    open spec fn hsi_spec(&self) -> HSI {
        rgb_to_hsi_spec(*self)
    }

    open spec fn lab_spec(&self) -> Lab {
        rgb_to_lab_spec(*self)
    }

    fn to_rgb(&self) -> (r: RGB) {
        *self
    }

    fn to_hsi(&self) -> (r: HSI) {
        let sum: i64 = self.red as i64 + self.green as i64 + self.blue as i64;
        let alpha = alpha_fix(self.alpha);
        if sum == 0 {
            HSI { hue: 0, saturation: 0, intensity: 0, alpha }
        } else {
            let r = div_round(self.red as i64 * 1_000_000, sum);
            let g = div_round(self.green as i64 * 1_000_000, sum);
            let b = div_round(self.blue as i64 * 1_000_000, sum);
            proof {
                lemma_rdiv_bounds(self.red as int * 1_000_000, sum as int);
                lemma_rdiv_le(self.red as int * 1_000_000, sum as int, 1_000_000);
                lemma_rdiv_bounds(self.green as int * 1_000_000, sum as int);
                lemma_rdiv_le(self.green as int * 1_000_000, sum as int, 1_000_000);
                lemma_rdiv_bounds(self.blue as int * 1_000_000, sum as int);
                lemma_rdiv_le(self.blue as int * 1_000_000, sum as int, 1_000_000);
            }
            let d1 = r - g;
            let d2 = r - b;
            let db = g - b;
            assert(0 <= d1 * d1 <= 1_000_000_000_000 && -1_000_000_000_000 <= d2 * db
                <= 1_000_000_000_000 && 0 <= d1 * d1 + d2 * db <= 2_000_000_000_000)
                by (nonlinear_arith)
                requires
                    d2 == d1 + db,
                    -1_000_000 <= d1 <= 1_000_000i64,
                    -1_000_000 <= db <= 1_000_000i64,
                    -1_000_000 <= d2 <= 1_000_000i64,
            ;
            let dd = d1 * d1 + d2 * db;
            let sq = isqrt(dd as u64);
            let hue: i64;
            if sq == 0 {
                hue = 0;
            } else {
                let num = (d1 + d2) * 500_000_000;
                let inner = clamp_i64(div_round(num, sq as i64), -1_000_000_000, 1_000_000_000);
                let theta = acos_fix(inner);
                if self.blue <= self.green {
                    hue = theta;
                } else if theta == 0 {
                    hue = 0;
                } else {
                    hue = 360_000_000 - theta;
                }
            }
            let mn: i64 = if self.red <= self.green && self.red <= self.blue {
                self.red as i64
            } else if self.green <= self.blue {
                self.green as i64
            } else {
                self.blue as i64
            };
            let sat_drop = div_round(3_000_000 * mn, sum);
            proof {
                lemma_rdiv_bounds(3_000_000 * mn as int, sum as int);
                lemma_rdiv_le(3_000_000 * mn as int, sum as int, 1_000_000);
            }
            let saturation = 1_000_000 - sat_drop;
            let intensity = div_round(sum * 1_000_000, 765);
            proof {
                lemma_rdiv_bounds(sum as int * 1_000_000, 765);
                lemma_rdiv_le(sum as int * 1_000_000, 765, 1_000_000);
            }
            HSI { hue, saturation, intensity, alpha }
        }
    }

    fn to_lab(&self) -> (r: Lab) {
        let rn = div_round(self.red as i64 * 1_000_000, 255);
        let gn = div_round(self.green as i64 * 1_000_000, 255);
        let bn = div_round(self.blue as i64 * 1_000_000, 255);
        proof {
            lemma_rdiv_bounds(self.red as int * 1_000_000, 255);
            lemma_rdiv_le(self.red as int * 1_000_000, 255, 1_000_000);
            lemma_rdiv_bounds(self.green as int * 1_000_000, 255);
            lemma_rdiv_le(self.green as int * 1_000_000, 255, 1_000_000);
            lemma_rdiv_bounds(self.blue as int * 1_000_000, 255);
            lemma_rdiv_le(self.blue as int * 1_000_000, 255, 1_000_000);
        }
        let xl = div_round(412_453 * rn + 357_580 * gn + 180_423 * bn, 1_000_000);
        let yw = div_round(212_671 * rn + 715_160 * gn + 72_169 * bn, 1_000_000);
        let zl = div_round(19_334 * rn + 119_193 * gn + 950_227 * bn, 1_000_000);
        proof {
            lemma_rdiv_bounds(412_453 * rn as int + 357_580 * gn as int + 180_423 * bn as int, 1_000_000);
            lemma_rdiv_le(
                412_453 * rn as int + 357_580 * gn as int + 180_423 * bn as int,
                1_000_000,
                950_456,
            );
            lemma_rdiv_bounds(212_671 * rn as int + 715_160 * gn as int + 72_169 * bn as int, 1_000_000);
            lemma_rdiv_le(
                212_671 * rn as int + 715_160 * gn as int + 72_169 * bn as int,
                1_000_000,
                1_000_000,
            );
            lemma_rdiv_bounds(19_334 * rn as int + 119_193 * gn as int + 950_227 * bn as int, 1_000_000);
            lemma_rdiv_le(
                19_334 * rn as int + 119_193 * gn as int + 950_227 * bn as int,
                1_000_000,
                1_088_754,
            );
        }
        let xw = div_round(xl * 1_000_000, 950_456);
        let zw = div_round(zl * 1_000_000, 1_088_754);
        proof {
            lemma_rdiv_bounds(xl as int * 1_000_000, 950_456);
            lemma_rdiv_le(xl as int * 1_000_000, 950_456, 1_100_000);
            lemma_rdiv_bounds(zl as int * 1_000_000, 1_088_754);
            lemma_rdiv_le(zl as int * 1_000_000, 1_088_754, 1_100_000);
        }
        let fx = lab_f_fix(xw);
        let fy = lab_f_fix(yw);
        let fz = lab_f_fix(zw);
        let l = clamp_i64(116 * fy - 16_000_000, 0, 100_000_000);
        let a = 500 * (fx - fy);
        let b = 200 * (fy - fz);
        let alpha = alpha_fix(self.alpha);
        Lab { l, a, b, alpha }
    }
}

} // verus!
