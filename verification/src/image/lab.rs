//! Operations on Lab images: the a-channel histogram and the conversion
//! back to RGB.

use vstd::prelude::*;

use crate::colorspace::lab::{lab_wf, Lab};
use crate::colorspace::rgb::RGB;
use crate::colorspace::ColorSpace;
use crate::fixed::spec_clamp;
use crate::image::{count_val, lemma_count_val_le_len, lemma_count_val_push, Image};

verus! {

/// The histogram bin of an a-channel value: the micro-unit value
/// recentered by +128, floored to whole units and clamped into
/// [0, 255].
pub open spec fn a_bin(p: Lab) -> int {
    spec_clamp((p.a + 128_000_000) / 1_000_000, 0, 255)
}

/// The a-channel bin keys of a pixel sequence.
pub open spec fn a_bin_seq(s: Seq<Lab>) -> Seq<int> {
    Seq::new(s.len(), |i: int| a_bin(s[i]))
}

/// The a-channel histogram bin of one pixel, executable.
fn a_bin_fix(p: &Lab) -> (r: usize)
    requires
        lab_wf(*p),
    ensures
        r as int == a_bin(*p),
        r <= 255,
{
    let s = p.a + 128_000_000;
    if s < 0 {
        proof {
            vstd::arithmetic::div_mod::lemma_div_is_ordered(s as int, -1, 1_000_000);
        }
        0
    } else {
        let b = s / 1_000_000;
        proof {
            crate::fixed::lemma_div_le(s as int, 1_000_000, 1_000);
        }
        if b > 255 {
            255
        } else {
            b as usize
        }
    }
}

impl Image<Lab> {
    /// The a-channel histogram: for every bin v in [0, 255], how many
    /// pixels have their recentered a value in that bin.
    pub fn a_histogram(&self) -> (r: Vec<usize>)
        requires
            self.all_wf(),
        ensures
            r@.len() == 256,
            forall|v: int| 0 <= v < 256 ==> r@[v] == count_val(a_bin_seq(self.pixels()), v),
    {
        let ghost s = self.pixels();
        let ghost k = a_bin_seq(s);
        let mut hist = crate::image::zeros256();
        let mut j: usize = 0;
        proof {
            assert(k.take(0) =~= Seq::<int>::empty());
        }
        while j < self.data.len()
            invariant
                j <= self.data.len(),
                s == self.pixels(),
                k == a_bin_seq(s),
                self.all_wf(),
                hist@.len() == 256,
                forall|v: int| 0 <= v < 256 ==> hist@[v] == count_val(k.take(j as int), v),
            decreases self.data.len() - j,
        {
            let p = self.data[j];
            let b = a_bin_fix(&p);
            proof {
                assert(k.take(j as int).push(k[j as int]) =~= k.take(j as int + 1));
                assert forall|v: int| 0 <= v < 256 implies #[trigger] count_val(
                    k.take(j as int + 1),
                    v,
                ) == count_val(k.take(j as int), v) + (if a_bin(s[j as int]) == v {
                    1nat
                } else {
                    0nat
                }) by {
                    lemma_count_val_push(k.take(j as int), k[j as int], v);
                }
                lemma_count_val_le_len(k.take(j as int), b as int);
            }
            hist[b] = hist[b] + 1;
            j += 1;
        }
        proof {
            assert(k.take(self.data@.len() as int) =~= k);
        }
        hist
    }

    /// The image converted pixel by pixel back to the RGB model.
    pub fn to_rgb(&self) -> (r: Image<RGB>)
        requires
            self.wf(),
            self.all_wf(),
        ensures
            r.wf(),
            r.width == self.width,
            r.height == self.height,
            r.pixels().len() == self.pixels().len(),
            forall|i: int|
                0 <= i < self.pixels().len() ==> r.pixels()[i] == self.pixels()[i].rgb_spec(),
    {
        let mut data: Vec<RGB> = Vec::new();
        let mut j: usize = 0;
        while j < self.data.len()
            invariant
                j <= self.data.len(),
                data@.len() == j,
                self.all_wf(),
                forall|i: int| 0 <= i < j ==> data@[i] == self.data@[i].rgb_spec(),
            decreases self.data.len() - j,
        {
            let p = self.data[j];
            data.push(p.to_rgb());
            j += 1;
        }
        Image { data, width: self.width, height: self.height }
    }
}

} // verus!
