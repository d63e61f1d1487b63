//! The generic image container — a row-major pixel buffer with immutable
//! width and height — and the counting machinery that the histogram
//! operations share: how often a key occurs in a sequence, cumulative
//! counts, and the least and greatest key present.

pub mod hsi;
pub mod lab;
pub mod rgb;

use vstd::prelude::*;

use crate::colorspace::ColorSpace;

verus! {

/// A row-major buffer of exactly width * height pixels of one color
/// model (index = y * width + x).
pub struct Image<T: ColorSpace> {
    pub data: Vec<T>,
    pub width: u32,
    pub height: u32,
}

impl<T: ColorSpace> Image<T> {
    /// The shape invariant: the buffer holds exactly width * height
    /// pixels.
    pub open spec fn wf(&self) -> bool {
        self.data@.len() == self.width * self.height
    }

    /// The pixel sequence, in row-major order.
    pub open spec fn pixels(&self) -> Seq<T> {
        self.data@
    }

    /// Every pixel is well formed for its color model.
    pub open spec fn all_wf(&self) -> bool {
        forall|i: int| 0 <= i < self.data@.len() ==> (#[trigger] self.data@[i]).cs_wf()
    }

    /// Width in pixels.
    pub fn get_width(&self) -> (r: u32)
        ensures
            r == self.width,
    {
        self.width
    }

    /// Height in pixels.
    pub fn get_height(&self) -> (r: u32)
        ensures
            r == self.height,
    {
        self.height
    }
}

/// How often the key v occurs in the key sequence k.
pub open spec fn count_val(k: Seq<int>, v: int) -> nat
    decreases k.len(),
{
    if k.len() == 0 {
        0
    } else {
        count_val(k.drop_last(), v) + (if k.last() == v {
            1nat
        } else {
            0nat
        })
    }
}

/// How often a key at most v occurs in k (the cumulative count).
pub open spec fn count_upto(k: Seq<int>, v: int) -> nat
    decreases v + 257,
{
    if v < 0 {
        0
    } else {
        count_upto(k, v - 1) + count_val(k, v)
    }
}

/// The least key in [0, 255] present in k, or 0 when none is.
pub open spec fn scan_min(k: Seq<int>, v: int) -> int
    decreases 256 - v,
{
    if v >= 256 {
        0
    } else if count_val(k, v) > 0 {
        v
    } else {
        scan_min(k, v + 1)
    }
}

/// The greatest key in [0, 255] present in k, or 0 when none is.
pub open spec fn scan_max(k: Seq<int>, v: int) -> int
    decreases v + 1,
{
    if v < 0 {
        0
    } else if count_val(k, v) > 0 {
        v
    } else {
        scan_max(k, v - 1)
    }
}

/// A vector of 256 zeroed counters.
pub(crate) fn zeros256() -> (r: Vec<usize>)
    ensures
        r@.len() == 256,
        forall|v: int| 0 <= v < 256 ==> r@[v] == 0,
{
    let mut r: Vec<usize> = Vec::new();
    let mut j: usize = 0;
    while j < 256
        invariant
            j <= 256,
            r@.len() == j,
            forall|v: int| 0 <= v < j ==> r@[v] == 0,
        decreases 256 - j,
    {
        r.push(0);
        j += 1;
    }
    r
}

/// The least key with a nonzero counter, executable over a histogram of
/// the key sequence k.
pub(crate) fn hist_min(hist: &Vec<usize>, Ghost(k): Ghost<Seq<int>>) -> (r: usize)
    requires
        hist@.len() == 256,
        forall|v: int| 0 <= v < 256 ==> hist@[v] == count_val(k, v),
    ensures
        r == scan_min(k, 0),
        r <= 255,
{
    let mut j: usize = 0;
    while j < 256
        invariant
            j <= 256,
            scan_min(k, 0) == scan_min(k, j as int),
            hist@.len() == 256,
            forall|v: int| 0 <= v < 256 ==> hist@[v] == count_val(k, v),
        decreases 256 - j,
    {
        if hist[j] > 0 {
            return j;
        }
        j += 1;
    }
    0
}

/// The greatest key with a nonzero counter, executable over a histogram
/// of the key sequence k.
pub(crate) fn hist_max(hist: &Vec<usize>, Ghost(k): Ghost<Seq<int>>) -> (r: usize)
    requires
        hist@.len() == 256,
        forall|v: int| 0 <= v < 256 ==> hist@[v] == count_val(k, v),
    ensures
        r == scan_max(k, 255),
        r <= 255,
{
    let mut j: usize = 255;
    while j > 0
        invariant
            j <= 255,
            scan_max(k, 255) == scan_max(k, j as int),
            hist@.len() == 256,
            forall|v: int| 0 <= v < 256 ==> hist@[v] == count_val(k, v),
        decreases j,
    {
        if hist[j] > 0 {
            return j;
        }
        j -= 1;
    }
    proof {
        assert(scan_max(k, -1) == 0);
    }
    0
}

/// Appending one key raises exactly that key's count by one.
pub proof fn lemma_count_val_push(k: Seq<int>, x: int, v: int)
    ensures
        count_val(k.push(x), v) == count_val(k, v) + (if x == v {
            1nat
        } else {
            0nat
        }),
{
    assert(k.push(x).drop_last() =~= k);
}

/// No key occurs more often than the sequence is long.
pub proof fn lemma_count_val_le_len(k: Seq<int>, v: int)
    ensures
        count_val(k, v) <= k.len(),
    decreases k.len(),
{
    if k.len() > 0 {
        lemma_count_val_le_len(k.drop_last(), v);
    }
}

/// A key with positive count occurs at some index.
pub proof fn lemma_count_val_pos_exists(k: Seq<int>, v: int)
    requires
        count_val(k, v) > 0,
    ensures
        exists|i: int| 0 <= i < k.len() && k[i] == v,
    decreases k.len(),
{
    if k.last() == v {
        assert(k[k.len() - 1] == v);
    } else {
        lemma_count_val_pos_exists(k.drop_last(), v);
        let i = choose|i: int| 0 <= i < k.drop_last().len() && k.drop_last()[i] == v;
        assert(k[i] == v);
    }
}

/// A key that occurs at some index has positive count.
pub proof fn lemma_count_val_witness(k: Seq<int>, v: int, i: int)
    requires
        0 <= i < k.len(),
        k[i] == v,
    ensures
        count_val(k, v) > 0,
    decreases k.len(),
{
    if i == k.len() - 1 {
    } else {
        assert(k.drop_last()[i] == v);
        lemma_count_val_witness(k.drop_last(), v, i);
    }
}

/// Appending one key raises the cumulative count at v by one exactly
/// when the key lies in [0, v].
pub proof fn lemma_count_upto_push(k: Seq<int>, x: int, v: int)
    requires
        v <= 256,
    ensures
        count_upto(k.push(x), v) == count_upto(k, v) + (if 0 <= x <= v {
            1nat
        } else {
            0nat
        }),
    decreases v + 257,
{
    if v >= 0 {
        lemma_count_upto_push(k, x, v - 1);
        lemma_count_val_push(k, x, v);
    }
}

/// The cumulative count never exceeds the sequence length, and counts
/// the whole sequence once every key lies in [0, v].
pub proof fn lemma_count_upto_le_len(k: Seq<int>, v: int)
    requires
        v <= 256,
    ensures
        count_upto(k, v) <= k.len(),
        (forall|i: int| 0 <= i < k.len() ==> 0 <= #[trigger] k[i] <= v) ==> count_upto(k, v)
            == k.len(),
    decreases k.len(),
{
    if k.len() == 0 {
        lemma_count_upto_zero(k, v);
    } else {
        let pre = k.drop_last();
        lemma_count_upto_le_len(pre, v);
        lemma_count_upto_push(pre, k.last(), v);
        assert(pre.push(k.last()) =~= k);
        assert(forall|i: int| 0 <= i < pre.len() ==> pre[i] == k[i]);
    }
}

/// The cumulative count of the empty sequence is 0.
pub proof fn lemma_count_upto_zero(k: Seq<int>, v: int)
    requires
        k.len() == 0,
        v <= 256,
    ensures
        count_upto(k, v) == 0,
    decreases v + 257,
{
    if v >= 0 {
        lemma_count_upto_zero(k, v - 1);
    }
}

/// The cumulative count is non-decreasing in the key bound.
pub proof fn lemma_count_upto_mono(k: Seq<int>, v1: int, v2: int)
    requires
        v1 <= v2 <= 256,
    ensures
        count_upto(k, v1) <= count_upto(k, v2),
    decreases v2 - v1,
{
    if v1 < v2 {
        lemma_count_upto_mono(k, v1, v2 - 1);
    }
}

/// The scan from j finds a present key no greater than any key v >= j
/// that is present, and the key it finds is itself present.
pub proof fn lemma_scan_min_props(k: Seq<int>, j: int, v: int)
    requires
        j <= v < 256,
        count_val(k, v) > 0,
    ensures
        j <= scan_min(k, j) <= v,
        count_val(k, scan_min(k, j)) > 0,
    decreases 256 - j,
{
    if count_val(k, j) > 0 {
    } else {
        lemma_scan_min_props(k, j + 1, v);
    }
}

/// The downward scan from v finds a present key no smaller than any key
/// present at or below v, and the key it finds is itself present.
pub proof fn lemma_scan_max_props(k: Seq<int>, j: int, v: int)
    requires
        0 <= v <= j,
        count_val(k, v) > 0,
    ensures
        v <= scan_max(k, j) <= j,
        count_val(k, scan_max(k, j)) > 0,
    decreases j + 1,
{
    if count_val(k, j) > 0 {
    } else {
        lemma_scan_max_props(k, j - 1, v);
    }
}

} // verus!
