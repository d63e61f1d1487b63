//! Operations on HSI images: the conversion back to RGB, the intensity
//! histogram, and histogram equalization of the intensity channel.

use vstd::prelude::*;

use crate::colorspace::hsi::{hsi_wf, HSI};
use crate::colorspace::rgb::RGB;
use crate::colorspace::ColorSpace;
use crate::fixed::{lemma_div_le, lemma_srdiv_mono, spec_clamp, srdiv};
use crate::image::{
    count_upto, count_val, hist_min, lemma_count_upto_le_len, lemma_count_upto_mono,
    lemma_count_upto_push, lemma_count_upto_zero, lemma_count_val_le_len, lemma_count_val_push,
    scan_min, Image,
};

verus! {

/// The histogram bin of an intensity: the micro-unit value scaled to
/// [0, 255] and floored.
pub open spec fn intensity_bin(p: HSI) -> int {
    (p.intensity as int * 255) / 1_000_000
}

/// The bin keys of a pixel sequence.
pub open spec fn bin_seq(s: Seq<HSI>) -> Seq<int> {
    Seq::new(s.len(), |i: int| intensity_bin(s[i]))
}

/// The equalized intensity for a pixel whose bin has cumulative count c:
/// (c - mn) / (total - mn) in micro-units, clamped into [0, 1], where mn
/// is the least nonzero bin index; a degenerate denominator maps to 1.
pub open spec fn equalized_intensity(c: int, mn: int, total: int) -> int {
    if total <= mn {
        1_000_000
    } else {
        spec_clamp(srdiv((c - mn) * 1_000_000, total - mn), 0, 1_000_000)
    }
}

/// One pixel after intensity equalization: hue, saturation and alpha are
/// kept, the intensity is remapped through the cumulative distribution
/// of the bins of the whole sequence.
pub open spec fn equalize_pixel(p: HSI, k: Seq<int>, total: int) -> HSI {
    HSI {
        hue: p.hue,
        saturation: p.saturation,
        intensity: equalized_intensity(
            count_upto(k, intensity_bin(p)) as int,
            scan_min(k, 0),
            total,
        ) as i64,
        alpha: p.alpha,
    }
}

/// The equalization ratio, executable.
fn eq_ratio(c: usize, mn: usize, total: usize) -> (r: i64)
    requires
        mn < total,
    ensures
        r == spec_clamp(srdiv((c - mn) * 1_000_000, total as int - mn), 0, 1_000_000),
        0 <= r <= 1_000_000,
{
    let num: i128 = c as i128 - mn as i128;
    let den: i128 = total as i128 - mn as i128;
    let q: i128 = if num >= 0 {
        (2 * (num * 1_000_000) + den) / (2 * den)
    } else {
        -((2 * (-num * 1_000_000) + den) / (2 * den))
    };
    let q = if q < 0 {
        0
    } else if q > 1_000_000 {
        1_000_000
    } else {
        q
    };
    q as i64
}

impl Image<HSI> {
    /// The image converted pixel by pixel back to the RGB model.
    pub fn to_rgb(&self) -> (r: Image<RGB>)
        requires
            self.wf(),
            self.all_wf(),
        ensures
            r.wf(),
            r.width == self.width,
            r.height == self.height,
            r.pixels().len() == self.pixels().len(),
            forall|i: int|
                0 <= i < self.pixels().len() ==> r.pixels()[i] == self.pixels()[i].rgb_spec(),
    {
        let mut data: Vec<RGB> = Vec::new();
        let mut j: usize = 0;
        while j < self.data.len()
            invariant
                j <= self.data.len(),
                data@.len() == j,
                self.all_wf(),
                forall|i: int| 0 <= i < j ==> data@[i] == self.data@[i].rgb_spec(),
            decreases self.data.len() - j,
        {
            let p = self.data[j];
            data.push(p.to_rgb());
            j += 1;
        }
        Image { data, width: self.width, height: self.height }
    }

    /// The intensity histogram: for every bin v in [0, 255], how many
    /// pixels have floor(intensity * 255) equal to v.
    pub fn get_intensity_histogram(&self) -> (r: Vec<usize>)
        requires
            self.all_wf(),
        ensures
            r@.len() == 256,
            forall|v: int| 0 <= v < 256 ==> r@[v] == count_val(bin_seq(self.pixels()), v),
    {
        let ghost s = self.pixels();
        let ghost k = bin_seq(s);
        let mut hist = crate::image::zeros256();
        let mut j: usize = 0;
        proof {
            assert(k.take(0) =~= Seq::<int>::empty());
        }
        while j < self.data.len()
            invariant
                j <= self.data.len(),
                s == self.pixels(),
                k == bin_seq(s),
                self.all_wf(),
                hist@.len() == 256,
                forall|v: int| 0 <= v < 256 ==> hist@[v] == count_val(k.take(j as int), v),
            decreases self.data.len() - j,
        {
            let p = self.data[j];
            let b = intensity_bin_fix(&p);
            proof {
                assert(k.take(j as int).push(k[j as int]) =~= k.take(j as int + 1));
                assert forall|v: int| 0 <= v < 256 implies #[trigger] count_val(
                    k.take(j as int + 1),
                    v,
                ) == count_val(k.take(j as int), v) + (if intensity_bin(s[j as int]) == v {
                    1nat
                } else {
                    0nat
                }) by {
                    lemma_count_val_push(k.take(j as int), k[j as int], v);
                }
                lemma_count_val_le_len(k.take(j as int), b as int);
            }
            hist[b] = hist[b] + 1;
            j += 1;
        }
        proof {
            assert(k.take(self.data@.len() as int) =~= k);
        }
        hist
    }

    /// The image with its intensity channel equalized through the
    /// cumulative distribution of the intensity histogram; hue,
    /// saturation and alpha are kept, and every new intensity lies in
    /// [0, 1].
    pub fn get_intensity_equalized_image(&self) -> (r: Self)
        requires
            self.wf(),
            self.all_wf(),
        ensures
            r.wf(),
            r.all_wf(),
            r.width == self.width,
            r.height == self.height,
            r.pixels().len() == self.pixels().len(),
            forall|i: int|
                0 <= i < self.pixels().len() ==> r.pixels()[i] == equalize_pixel(
                    self.pixels()[i],
                    bin_seq(self.pixels()),
                    self.pixels().len() as int,
                ),
    {
        let ghost s = self.pixels();
        let ghost k = bin_seq(s);
        let hist = self.get_intensity_histogram();
        let mut cdf = crate::image::zeros256();
        let mut sum: usize = 0;
        let mut v: usize = 0;
        let n = self.data.len();
        proof {
            lemma_count_upto_zero(k.take(0), -1);
            assert(count_upto(k, -1) == 0);
        }
        while v < 256
            invariant
                v <= 256,
                s == self.pixels(),
                k == bin_seq(s),
                hist@.len() == 256,
                forall|u: int| 0 <= u < 256 ==> hist@[u] == count_val(k, u),
                cdf@.len() == 256,
                n == self.data@.len(),
                k.len() == n,
                sum == count_upto(k, v as int - 1),
                forall|u: int| 0 <= u < v ==> cdf@[u] == count_upto(k, u),
            decreases 256 - v,
        {
            proof {
                lemma_count_upto_le_len(k, v as int);
                assert(k.len() == self.data@.len());
                assert(count_upto(k, v as int) == count_upto(k, v as int - 1) + count_val(
                    k,
                    v as int,
                ));
            }
            sum = sum + hist[v];
            cdf[v] = sum;
            v += 1;
        }
        let mn = hist_min(&hist, Ghost(k));
        let total = self.data.len();
        let mut data: Vec<HSI> = Vec::new();
        let mut j: usize = 0;
        while j < self.data.len()
            invariant
                j <= self.data.len(),
                s == self.pixels(),
                k == bin_seq(s),
                self.all_wf(),
                cdf@.len() == 256,
                forall|u: int| 0 <= u < 256 ==> cdf@[u] == count_upto(k, u),
                mn == scan_min(k, 0),
                mn <= 255,
                total == self.data@.len(),
                data@.len() == j,
                forall|i: int|
                    0 <= i < j ==> data@[i] == equalize_pixel(s[i], k, s.len() as int)
                        && hsi_wf(#[trigger] data@[i]),
            decreases self.data.len() - j,
        {
            let p = self.data[j];
            let b = intensity_bin_fix(&p);
            let c = cdf[b];
            let intensity: i64 = if total <= mn {
                1_000_000
            } else {
                eq_ratio(c, mn, total)
            };
            data.push(HSI { hue: p.hue, saturation: p.saturation, intensity, alpha: p.alpha });
            j += 1;
        }
        Image { data, width: self.width, height: self.height }
    }
}

/// The histogram bin of a pixel's intensity, executable.
fn intensity_bin_fix(p: &HSI) -> (r: usize)
    requires
        hsi_wf(*p),
    ensures
        r as int == intensity_bin(*p),
        r <= 255,
{
    let b = (p.intensity * 255) / 1_000_000;
    proof {
        lemma_div_le(p.intensity as int * 255, 1_000_000, 255);
    }
    b as usize
}

/// Equalization is order-preserving: a pixel with intensity no greater
/// than another's receives a new intensity no greater than the other's.
/// (The cumulative bin counts themselves are non-decreasing in the bin:
/// see `lemma_count_upto_mono`.)
pub proof fn lemma_equalization_monotone(s: Seq<HSI>, i1: int, i2: int, total: int)
    requires
        0 <= i1 < s.len(),
        0 <= i2 < s.len(),
        hsi_wf(s[i1]),
        hsi_wf(s[i2]),
        s[i1].intensity <= s[i2].intensity,
    ensures
        equalize_pixel(s[i1], bin_seq(s), total).intensity <= equalize_pixel(
            s[i2],
            bin_seq(s),
            total,
        ).intensity,
{
    let k = bin_seq(s);
    let b1 = intensity_bin(s[i1]);
    let b2 = intensity_bin(s[i2]);
    let mn = scan_min(k, 0);
    vstd::arithmetic::div_mod::lemma_div_is_ordered(
        s[i1].intensity as int * 255,
        s[i2].intensity as int * 255,
        1_000_000,
    );
    assert(b1 <= b2);
    lemma_div_le(s[i1].intensity as int * 255, 1_000_000, 255);
    lemma_div_le(s[i2].intensity as int * 255, 1_000_000, 255);
    lemma_count_upto_mono(k, b1, b2);
    let c1 = count_upto(k, b1) as int;
    let c2 = count_upto(k, b2) as int;
    if total > mn {
        lemma_srdiv_mono((c1 - mn) * 1_000_000, (c2 - mn) * 1_000_000, total - mn);
    }
}

} // verus!
