//! Operations on RGB images: construction from decoded image bytes, the
//! flattened RGBA bitmap, per-channel histograms, contrast stretching,
//! the conversions to HSI and Lab, and the vegetation statistics.

use vstd::prelude::*;

use crate::colorspace::hsi::{hsi_wf, HSI};
use crate::colorspace::lab::{lab_wf, Lab};
use crate::colorspace::rgb::RGB;
use crate::colorspace::ColorSpace;
use crate::fixed::{div_round, lemma_rdiv_bounds, lemma_rdiv_exact, lemma_rdiv_le, rdiv};
use crate::image::{
    count_val, hist_max, hist_min, lemma_count_val_le_len, lemma_count_val_push,
    lemma_count_val_witness, lemma_scan_max_props, lemma_scan_min_props, scan_max, scan_min,
    Image,
};
use crate::vegetation::{classify_pixel, is_vegetation};

verus! {

/// The pixel a row-major RGBA byte buffer holds at index i.
pub open spec fn rgba_at(bytes: Seq<u8>, i: int) -> RGB {
    RGB {
        red: bytes[4 * i],
        green: bytes[4 * i + 1],
        blue: bytes[4 * i + 2],
        alpha: bytes[4 * i + 3],
    }
}

/// One channel of a pixel: 0 red, 1 green, otherwise blue.
pub open spec fn channel_sel(p: RGB, ch: int) -> int {
    if ch == 0 {
        p.red as int
    } else if ch == 1 {
        p.green as int
    } else {
        p.blue as int
    }
}

/// The key sequence of one channel of a pixel sequence.
pub open spec fn channel_seq(s: Seq<RGB>, ch: int) -> Seq<int> {
    Seq::new(s.len(), |i: int| channel_sel(s[i], ch))
}

/// One channel value linearly stretched from [mn, mx] to [0, 255],
/// nearest value; a constant channel (mn == mx) passes through
/// unchanged.
pub open spec fn stretch_channel(v: int, mn: int, mx: int) -> int {
    if mn == mx {
        v
    } else {
        rdiv(255 * (v - mn), mx - mn)
    }
}

/// One pixel after the per-channel contrast stretch; alpha is kept.
pub open spec fn stretch_pixel(
    p: RGB,
    mn0: int,
    mx0: int,
    mn1: int,
    mx1: int,
    mn2: int,
    mx2: int,
) -> RGB {
    RGB {
        red: stretch_channel(p.red as int, mn0, mx0) as u8,
        green: stretch_channel(p.green as int, mn1, mx1) as u8,
        blue: stretch_channel(p.blue as int, mn2, mx2) as u8,
        alpha: p.alpha,
    }
}

/// How many pixels the vegetation index classifies as vegetation.
pub open spec fn green_count(s: Seq<RGB>) -> nat
    decreases s.len(),
{
    if s.len() == 0 {
        0
    } else {
        green_count(s.drop_last()) + (if is_vegetation(s.last()) {
            1nat
        } else {
            0nat
        })
    }
}

/// The aggregate greenery fraction in micro-units; an empty image has
/// fraction 0.
pub open spec fn greenery_spec(s: Seq<RGB>) -> int {
    if s.len() == 0 {
        0
    } else {
        rdiv(green_count(s) as int * 1_000_000, s.len() as int)
    }
}

/// One pixel of the vegetation mask: vegetation passes through, any
/// other pixel becomes opaque black.
pub open spec fn mask_pixel(p: RGB) -> RGB {
    if is_vegetation(p) {
        p
    } else {
        RGB { red: 0, green: 0, blue: 0, alpha: 255 }
    }
}

/// Appending one pixel raises the vegetation count by one exactly when
/// it is vegetation.
pub proof fn lemma_green_count_push(s: Seq<RGB>, p: RGB)
    ensures
        green_count(s.push(p)) == green_count(s) + (if is_vegetation(p) {
            1nat
        } else {
            0nat
        }),
{
    assert(s.push(p).drop_last() =~= s);
}

/// What the decoder returns for a byte buffer: the width, height and
/// row-major RGBA8 pixel bytes of the image the buffer encodes, or
/// nothing when the buffer encodes no image.
pub uninterp spec fn decoded_rgba(data: Seq<u8>) -> Option<(u32, u32, Seq<u8>)>;

/// The mathematical view of a decoder result.
pub open spec fn decoded_view(r: Option<(u32, u32, Vec<u8>)>) -> Option<(u32, u32, Seq<u8>)> {
    match r {
        Some(t) => Some((t.0, t.1, t.2@)),
        None => None,
    }
}

/// Relies on image::load_from_memory and image::DynamicImage::to_rgba8:
/// the decoded image depends on the bytes alone, and an RGBA8 image
/// buffer holds exactly width * height * 4 bytes.
#[verifier::external_body]
fn decode_rgba(data: &Vec<u8>) -> (r: Option<(u32, u32, Vec<u8>)>)
    ensures
        decoded_view(r) == decoded_rgba(data@),
        r matches Some(t) ==> t.2@.len() == 4 * ((t.0 as int) * (t.1 as int)),
{
    match image::load_from_memory(data.as_slice()) {
        Ok(img) => {
            let rgba = img.to_rgba8();
            let w = rgba.width();
            let h = rgba.height();
            Some((w, h, rgba.into_raw()))
        },
        Err(_) => None,
    }
}

impl Image<RGB> {
    /// Build an RGB image from a row-major RGBA8 byte buffer; fails
    /// exactly when the buffer length is not width * height * 4.
    pub fn from_rgba_bytes(width: u32, height: u32, bytes: &Vec<u8>) -> (r: Option<Image<RGB>>)
        ensures
            r is Some <==> bytes@.len() == 4 * ((width as int) * (height as int)),
            r matches Some(img) ==> {
                &&& img.wf()
                &&& img.width == width
                &&& img.height == height
                &&& img.pixels().len() == (width as int) * (height as int)
                &&& forall|i: int|
                    0 <= i < img.pixels().len() ==> img.pixels()[i] == rgba_at(bytes@, i)
            },
    {
        assert((width as u64) * (height as u64) <= 18_446_744_065_119_617_025u64)
            by (nonlinear_arith)
            requires
                width <= 4_294_967_295u32,
                height <= 4_294_967_295u32,
        ;
        let wh: u64 = (width as u64) * (height as u64);
        let len = bytes.len();
        if len % 4 != 0 {
            proof {
                vstd::arithmetic::div_mod::lemma_fundamental_div_mod(len as int, 4);
            }
            return None;
        }
        if (len / 4) as u64 != wh {
            proof {
                vstd::arithmetic::div_mod::lemma_fundamental_div_mod(len as int, 4);
            }
            return None;
        }
        proof {
            vstd::arithmetic::div_mod::lemma_fundamental_div_mod(len as int, 4);
        }
        let count = len / 4;
        let mut data: Vec<RGB> = Vec::new();
        let mut j: usize = 0;
        while j < count
            invariant
                j <= count,
                data@.len() == j,
                count == bytes@.len() / 4,
                4 * count == bytes@.len(),
                bytes@.len() <= usize::MAX,
                forall|i: int| 0 <= i < j ==> data@[i] == rgba_at(bytes@, i),
            decreases count - j,
        {
            let p = RGB {
                red: bytes[4 * j],
                green: bytes[4 * j + 1],
                blue: bytes[4 * j + 2],
                alpha: bytes[4 * j + 3],
            };
            data.push(p);
            j += 1;
        }
        Some(Image { data, width, height })
    }

    /// Build an RGB image by decoding an encoded image file held in
    /// memory; fails exactly when the bytes decode to no image.
    pub fn new_with_data(data: Vec<u8>) -> (r: Option<Image<RGB>>)
        ensures
            r is Some <==> decoded_rgba(data@) is Some,
            r matches Some(img) ==> {
                &&& decoded_rgba(data@) matches Some(t) && img.width == t.0 && img.height == t.1
                    && img.pixels().len() == (t.0 as int) * (t.1 as int) && forall|i: int|
                    0 <= i < img.pixels().len() ==> img.pixels()[i] == rgba_at(t.2, i)
                &&& img.wf()
            },
    {
        match decode_rgba(&data) {
            Some((w, h, buf)) => Image::<RGB>::from_rgba_bytes(w, h, &buf),
            None => None,
        }
    }

    /// Flatten the image back to its row-major RGBA8 byte buffer.
    pub fn get_bitmap(&self) -> (r: Vec<u8>)
        ensures
            r@.len() == 4 * self.pixels().len(),
            forall|i: int| 0 <= i < self.pixels().len() ==> rgba_at(r@, i) == self.pixels()[i],
    {
        let mut r: Vec<u8> = Vec::new();
        let mut j: usize = 0;
        while j < self.data.len()
            invariant
                j <= self.data.len(),
                r@.len() == 4 * j,
                forall|i: int| 0 <= i < j ==> rgba_at(r@, i) == self.data@[i],
            decreases self.data.len() - j,
        {
            let p = self.data[j];
            let ghost r0 = r@;
            r.push(p.red);
            r.push(p.green);
            r.push(p.blue);
            r.push(p.alpha);
            proof {
                assert(r@.len() == 4 * (j + 1));
                assert(forall|m: int| 0 <= m < r0.len() ==> r@[m] == r0[m]);
                assert(r@[4 * j as int] == p.red);
                assert(r@[4 * j as int + 1] == p.green);
                assert(r@[4 * j as int + 2] == p.blue);
                assert(r@[4 * j as int + 3] == p.alpha);
                assert forall|i: int| 0 <= i < j + 1 implies rgba_at(r@, i) == self.data@[i] by {
                    if i < j {
                        assert(rgba_at(r0, i) == self.data@[i]);
                        assert(4 * i + 3 < 4 * j as int);
                    }
                }
            }
            j += 1;
        }
        r
    }

    /// The three per-channel frequency histograms: for every 8-bit value
    /// v, how many pixels hold v in their red, green and blue channel.
    pub fn get_histogram(&self) -> (r: (Vec<usize>, Vec<usize>, Vec<usize>))
        ensures
            r.0@.len() == 256 && r.1@.len() == 256 && r.2@.len() == 256,
            forall|v: int|
                0 <= v < 256 ==> r.0@[v] == count_val(channel_seq(self.pixels(), 0), v)
                    && r.1@[v] == count_val(channel_seq(self.pixels(), 1), v) && r.2@[v]
                    == count_val(channel_seq(self.pixels(), 2), v),
    {
        let ghost s = self.pixels();
        let mut red = crate::image::zeros256();
        let mut green = crate::image::zeros256();
        let mut blue = crate::image::zeros256();
        let mut j: usize = 0;
        proof {
            assert(channel_seq(s, 0).take(0) =~= Seq::<int>::empty());
            assert(channel_seq(s, 1).take(0) =~= Seq::<int>::empty());
            assert(channel_seq(s, 2).take(0) =~= Seq::<int>::empty());
        }
        while j < self.data.len()
            invariant
                j <= self.data.len(),
                s == self.pixels(),
                red@.len() == 256 && green@.len() == 256 && blue@.len() == 256,
                forall|v: int|
                    0 <= v < 256 ==> red@[v] == count_val(channel_seq(s, 0).take(j as int), v)
                        && green@[v] == count_val(channel_seq(s, 1).take(j as int), v)
                        && blue@[v] == count_val(channel_seq(s, 2).take(j as int), v),
            decreases self.data.len() - j,
        {
            let p = self.data[j];
            proof {
                lemma_histogram_step(s, j as int);
                lemma_count_val_le_len(channel_seq(s, 0).take(j as int), p.red as int);
                lemma_count_val_le_len(channel_seq(s, 1).take(j as int), p.green as int);
                lemma_count_val_le_len(channel_seq(s, 2).take(j as int), p.blue as int);
            }
            let rv = p.red as usize;
            red[rv] = red[rv] + 1;
            let gv = p.green as usize;
            green[gv] = green[gv] + 1;
            let bv = p.blue as usize;
            blue[bv] = blue[bv] + 1;
            j += 1;
        }
        proof {
            assert(channel_seq(s, 0).take(self.data@.len() as int) =~= channel_seq(s, 0));
            assert(channel_seq(s, 1).take(self.data@.len() as int) =~= channel_seq(s, 1));
            assert(channel_seq(s, 2).take(self.data@.len() as int) =~= channel_seq(s, 2));
        }
        (red, green, blue)
    }

    /// The image with each channel linearly stretched so that the least
    /// present value maps to 0 and the greatest to 255; a constant
    /// channel passes through unchanged, and alpha is kept.
    pub fn get_stretched_image(&self) -> (r: Self)
        requires
            self.wf(),
        ensures
            r.wf(),
            r.width == self.width,
            r.height == self.height,
            r.pixels().len() == self.pixels().len(),
            r.pixels() == stretch_all(self.pixels()),
            forall|i: int|
                0 <= i < self.pixels().len() ==> r.pixels()[i] == stretch_pixel(
                    self.pixels()[i],
                    scan_min(channel_seq(self.pixels(), 0), 0),
                    scan_max(channel_seq(self.pixels(), 0), 255),
                    scan_min(channel_seq(self.pixels(), 1), 0),
                    scan_max(channel_seq(self.pixels(), 1), 255),
                    scan_min(channel_seq(self.pixels(), 2), 0),
                    scan_max(channel_seq(self.pixels(), 2), 255),
                ),
    {
        let ghost s = self.pixels();
        let (hr, hg, hb) = self.get_histogram();
        let mn0 = hist_min(&hr, Ghost(channel_seq(s, 0)));
        let mx0 = hist_max(&hr, Ghost(channel_seq(s, 0)));
        let mn1 = hist_min(&hg, Ghost(channel_seq(s, 1)));
        let mx1 = hist_max(&hg, Ghost(channel_seq(s, 1)));
        let mn2 = hist_min(&hb, Ghost(channel_seq(s, 2)));
        let mx2 = hist_max(&hb, Ghost(channel_seq(s, 2)));
        let mut data: Vec<RGB> = Vec::new();
        let mut j: usize = 0;
        while j < self.data.len()
            invariant
                j <= self.data.len(),
                s == self.pixels(),
                data@.len() == j,
                mn0 == scan_min(channel_seq(s, 0), 0) && mx0 == scan_max(channel_seq(s, 0), 255),
                mn1 == scan_min(channel_seq(s, 1), 0) && mx1 == scan_max(channel_seq(s, 1), 255),
                mn2 == scan_min(channel_seq(s, 2), 0) && mx2 == scan_max(channel_seq(s, 2), 255),
                0 <= mn0 <= 255 && 0 <= mx0 <= 255,
                0 <= mn1 <= 255 && 0 <= mx1 <= 255,
                0 <= mn2 <= 255 && 0 <= mx2 <= 255,
                forall|i: int|
                    0 <= i < j ==> data@[i] == stretch_pixel(
                        s[i],
                        scan_min(channel_seq(s, 0), 0),
                        scan_max(channel_seq(s, 0), 255),
                        scan_min(channel_seq(s, 1), 0),
                        scan_max(channel_seq(s, 1), 255),
                        scan_min(channel_seq(s, 2), 0),
                        scan_max(channel_seq(s, 2), 255),
                    ),
            decreases self.data.len() - j,
        {
            let p = self.data[j];
            proof {
                lemma_pixel_in_bounds(s, j as int, 0);
                lemma_pixel_in_bounds(s, j as int, 1);
                lemma_pixel_in_bounds(s, j as int, 2);
            }
            let red = stretch_channel_fix(p.red, mn0 as u8, mx0 as u8);
            let green = stretch_channel_fix(p.green, mn1 as u8, mx1 as u8);
            let blue = stretch_channel_fix(p.blue, mn2 as u8, mx2 as u8);
            data.push(RGB { red, green, blue, alpha: p.alpha });
            j += 1;
        }
        proof {
            assert(data@ =~= stretch_all(s));
        }
        Image { data, width: self.width, height: self.height }
    }

    /// The image converted pixel by pixel to the HSI model.
    pub fn to_hsi(&self) -> (r: Image<HSI>)
        requires
            self.wf(),
        ensures
            r.wf(),
            r.all_wf(),
            r.width == self.width,
            r.height == self.height,
            r.pixels().len() == self.pixels().len(),
            forall|i: int|
                0 <= i < self.pixels().len() ==> r.pixels()[i] == self.pixels()[i].hsi_spec(),
    {
        let mut data: Vec<HSI> = Vec::new();
        let mut j: usize = 0;
        while j < self.data.len()
            invariant
                j <= self.data.len(),
                data@.len() == j,
                forall|i: int|
                    0 <= i < j ==> data@[i] == self.data@[i].hsi_spec() && hsi_wf(#[trigger] data@[i]),
            decreases self.data.len() - j,
        {
            let p = self.data[j];
            data.push(p.to_hsi());
            j += 1;
        }
        Image { data, width: self.width, height: self.height }
    }

    /// The image converted pixel by pixel to the Lab model.
    pub fn to_lab(&self) -> (r: Image<Lab>)
        requires
            self.wf(),
        ensures
            r.wf(),
            r.all_wf(),
            r.width == self.width,
            r.height == self.height,
            r.pixels().len() == self.pixels().len(),
            forall|i: int|
                0 <= i < self.pixels().len() ==> r.pixels()[i] == self.pixels()[i].lab_spec(),
    {
        let mut data: Vec<Lab> = Vec::new();
        let mut j: usize = 0;
        while j < self.data.len()
            invariant
                j <= self.data.len(),
                data@.len() == j,
                forall|i: int|
                    0 <= i < j ==> data@[i] == self.data@[i].lab_spec() && lab_wf(#[trigger] data@[i]),
            decreases self.data.len() - j,
        {
            let p = self.data[j];
            data.push(p.to_lab());
            j += 1;
        }
        Image { data, width: self.width, height: self.height }
    }

    /// The fraction of pixels classified as vegetation, in micro-units;
    /// always between 0 and 1.
    pub fn get_greenery_percentage(&self) -> (r: i64)
        requires
            self.wf(),
        ensures
            r == greenery_spec(self.pixels()),
            0 <= r <= 1_000_000,
    {
        let ghost s = self.pixels();
        let mut green: usize = 0;
        let mut j: usize = 0;
        proof {
            assert(s.take(0) =~= Seq::<RGB>::empty());
        }
        while j < self.data.len()
            invariant
                j <= self.data.len(),
                s == self.pixels(),
                green == green_count(s.take(j as int)),
                green <= j,
            decreases self.data.len() - j,
        {
            let p = self.data[j];
            proof {
                assert(s.take(j as int).push(s[j as int]) =~= s.take(j as int + 1));
                lemma_green_count_push(s.take(j as int), s[j as int]);
            }
            if classify_pixel(&p) {
                green = green + 1;
            }
            j += 1;
        }
        proof {
            assert(s.take(self.data@.len() as int) =~= s);
        }
        if self.data.len() == 0 {
            0
        } else {
            let len = self.data.len();
            let q = ((2 * (green as u128) * 1_000_000 + len as u128) / (2 * (len as u128)))
                as i64;
            proof {
                lemma_rdiv_bounds(green_count(s) as int * 1_000_000, s.len() as int);
                assert(green_count(s) as int * 1_000_000 <= 1_000_000 * (s.len() as int))
                    by (nonlinear_arith)
                    requires
                        green_count(s) <= s.len(),
                ;
                lemma_rdiv_le(green_count(s) as int * 1_000_000, s.len() as int, 1_000_000);
            }
            q
        }
    }

    /// The vegetation mask: every pixel classified as vegetation passes
    /// through unchanged; every other pixel becomes opaque black.
    pub fn test(&self) -> (r: Self)
        requires
            self.wf(),
        ensures
            r.wf(),
            r.width == self.width,
            r.height == self.height,
            r.pixels().len() == self.pixels().len(),
            forall|i: int|
                0 <= i < self.pixels().len() ==> r.pixels()[i] == mask_pixel(self.pixels()[i]),
    {
        let mut data: Vec<RGB> = Vec::new();
        let mut j: usize = 0;
        while j < self.data.len()
            invariant
                j <= self.data.len(),
                data@.len() == j,
                forall|i: int| 0 <= i < j ==> data@[i] == mask_pixel(self.data@[i]),
            decreases self.data.len() - j,
        {
            let p = self.data[j];
            if classify_pixel(&p) {
                data.push(p);
            } else {
                data.push(RGB { red: 0, green: 0, blue: 0, alpha: 255 });
            }
            j += 1;
        }
        Image { data, width: self.width, height: self.height }
    }
}

/// One step of the histogram loop: taking one more pixel appends its
/// channel keys.
proof fn lemma_histogram_step(s: Seq<RGB>, j: int)
    requires
        0 <= j < s.len(),
    ensures
        forall|v: int|
            0 <= v < 256 ==> #[trigger] count_val(channel_seq(s, 0).take(j + 1), v) == count_val(
                channel_seq(s, 0).take(j),
                v,
            ) + (if s[j].red == v {
                1nat
            } else {
                0nat
            }),
        forall|v: int|
            0 <= v < 256 ==> #[trigger] count_val(channel_seq(s, 1).take(j + 1), v) == count_val(
                channel_seq(s, 1).take(j),
                v,
            ) + (if s[j].green == v {
                1nat
            } else {
                0nat
            }),
        forall|v: int|
            0 <= v < 256 ==> #[trigger] count_val(channel_seq(s, 2).take(j + 1), v) == count_val(
                channel_seq(s, 2).take(j),
                v,
            ) + (if s[j].blue == v {
                1nat
            } else {
                0nat
            }),
{
    assert(channel_seq(s, 0).take(j + 1) =~= channel_seq(s, 0).take(j).push(channel_sel(s[j], 0)));
    assert(channel_seq(s, 1).take(j + 1) =~= channel_seq(s, 1).take(j).push(channel_sel(s[j], 1)));
    assert(channel_seq(s, 2).take(j + 1) =~= channel_seq(s, 2).take(j).push(channel_sel(s[j], 2)));
    assert forall|v: int| 0 <= v < 256 implies #[trigger] count_val(
        channel_seq(s, 0).take(j + 1),
        v,
    ) == count_val(channel_seq(s, 0).take(j), v) + (if s[j].red == v {
        1nat
    } else {
        0nat
    }) by {
        lemma_count_val_push(channel_seq(s, 0).take(j), channel_sel(s[j], 0), v);
    }
    assert forall|v: int| 0 <= v < 256 implies #[trigger] count_val(
        channel_seq(s, 1).take(j + 1),
        v,
    ) == count_val(channel_seq(s, 1).take(j), v) + (if s[j].green == v {
        1nat
    } else {
        0nat
    }) by {
        lemma_count_val_push(channel_seq(s, 1).take(j), channel_sel(s[j], 1), v);
    }
    assert forall|v: int| 0 <= v < 256 implies #[trigger] count_val(
        channel_seq(s, 2).take(j + 1),
        v,
    ) == count_val(channel_seq(s, 2).take(j), v) + (if s[j].blue == v {
        1nat
    } else {
        0nat
    }) by {
        lemma_count_val_push(channel_seq(s, 2).take(j), channel_sel(s[j], 2), v);
    }
}

/// Every pixel's channel value lies between the least and greatest value
/// present in that channel.
pub proof fn lemma_pixel_in_bounds(s: Seq<RGB>, j: int, ch: int)
    requires
        0 <= j < s.len(),
    ensures
        scan_min(channel_seq(s, ch), 0) <= channel_sel(s[j], ch) <= scan_max(
            channel_seq(s, ch),
            255,
        ),
{
    let k = channel_seq(s, ch);
    let v = channel_sel(s[j], ch);
    assert(k[j] == v);
    lemma_count_val_witness(k, v, j);
    lemma_scan_min_props(k, 0, v);
    lemma_scan_max_props(k, 255, v);
}

/// One channel value stretched, executable.
fn stretch_channel_fix(v: u8, mn: u8, mx: u8) -> (r: u8)
    requires
        mn <= v <= mx,
    ensures
        r as int == stretch_channel(v as int, mn as int, mx as int),
{
    if mn == mx {
        v
    } else {
        let d = mx as i64 - mn as i64;
        let n = 255 * (v as i64 - mn as i64);
        let q = div_round(n, d);
        proof {
            lemma_rdiv_bounds(n as int, d as int);
            lemma_rdiv_le(n as int, d as int, 255);
        }
        q as u8
    }
}

/// After the stretch, a channel that was not constant attains 0 and 255,
/// and every channel value stays between 0 and 255.
pub proof fn lemma_stretch_saturates(s: Seq<RGB>, ch: int)
    requires
        0 <= ch < 3,
        scan_min(channel_seq(s, ch), 0) != scan_max(channel_seq(s, ch), 255),
    ensures
        exists|i: int|
            0 <= i < s.len() && channel_sel(
                #[trigger] stretch_all(s)[i],
                ch,
            ) == 0,
        exists|i: int|
            0 <= i < s.len() && channel_sel(
                #[trigger] stretch_all(s)[i],
                ch,
            ) == 255,
        forall|i: int|
            0 <= i < s.len() ==> 0 <= channel_sel(#[trigger] stretch_all(s)[i], ch) <= 255,
{
    let k = channel_seq(s, ch);
    let mn = scan_min(k, 0);
    let mx = scan_max(k, 255);
    lemma_scan_bounds_present(s, ch);
    let imn = choose|i: int| 0 <= i < k.len() && k[i] == mn;
    let imx = choose|i: int| 0 <= i < k.len() && k[i] == mx;
    assert(mn < mx) by {
        lemma_pixel_in_bounds(s, imn, ch);
        lemma_pixel_in_bounds(s, imx, ch);
    }
    lemma_rdiv_exact(mx - mn, 0);
    lemma_rdiv_exact(mx - mn, 255);
    assert(255 * (mn - mn) == 0);
    assert(0 * (mx - mn) == 0) by (nonlinear_arith);
    assert(stretch_channel(mn, mn, mx) == 0);
    assert(stretch_channel(mx, mn, mx) == 255);
    assert(channel_sel(stretch_all(s)[imn], ch) == 0);
    assert(channel_sel(stretch_all(s)[imx], ch) == 255);
    assert forall|i: int| 0 <= i < s.len() implies 0 <= channel_sel(
        #[trigger] stretch_all(s)[i],
        ch,
    ) <= 255 by {
        lemma_pixel_in_bounds(s, i, ch);
        let v = channel_sel(s[i], ch);
        lemma_rdiv_bounds(255 * (v - mn), mx - mn);
        lemma_rdiv_le(255 * (v - mn), mx - mn, 255);
    }
}

/// The whole pixel sequence after the per-channel stretch.
pub open spec fn stretch_all(s: Seq<RGB>) -> Seq<RGB> {
    Seq::new(
        s.len(),
        |i: int|
            stretch_pixel(
                s[i],
                scan_min(channel_seq(s, 0), 0),
                scan_max(channel_seq(s, 0), 255),
                scan_min(channel_seq(s, 1), 0),
                scan_max(channel_seq(s, 1), 255),
                scan_min(channel_seq(s, 2), 0),
                scan_max(channel_seq(s, 2), 255),
            ),
    )
}

/// The least and greatest present channel values are themselves present
/// at some index when the channel is not constant.
proof fn lemma_scan_bounds_present(s: Seq<RGB>, ch: int)
    requires
        0 <= ch < 3,
        scan_min(channel_seq(s, ch), 0) != scan_max(channel_seq(s, ch), 255),
    ensures
        exists|i: int|
            0 <= i < channel_seq(s, ch).len() && channel_seq(s, ch)[i] == scan_min(
                channel_seq(s, ch),
                0,
            ),
        exists|i: int|
            0 <= i < channel_seq(s, ch).len() && channel_seq(s, ch)[i] == scan_max(
                channel_seq(s, ch),
                255,
            ),
{
    let k = channel_seq(s, ch);
    if s.len() == 0 {
        lemma_scan_empty(k, 0, 255);
        assert(false);
    }
    lemma_pixel_in_bounds(s, 0, ch);
    lemma_count_val_witness(k, k[0], 0);
    lemma_scan_min_props(k, 0, k[0]);
    lemma_scan_max_props(k, 255, k[0]);
    crate::image::lemma_count_val_pos_exists(k, scan_min(k, 0));
    crate::image::lemma_count_val_pos_exists(k, scan_max(k, 255));
}

/// Scanning an empty key sequence finds nothing on either side.
proof fn lemma_scan_empty(k: Seq<int>, j: int, j2: int)
    requires
        k.len() == 0,
        0 <= j <= 256,
        -1 <= j2 <= 255,
    ensures
        scan_min(k, j) == 0,
        scan_max(k, j2) == 0,
    decreases 256 - j + j2 + 1,
{
    if j < 256 || j2 >= 0 {
        lemma_scan_empty(k, if j < 256 { j + 1 } else { j }, if j2 >= 0 { j2 - 1 } else { j2 });
    }
}

} // verus!
