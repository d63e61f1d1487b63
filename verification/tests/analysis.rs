use color_detect::colorspace::rgb::RGB;
use color_detect::image::Image;
use color_detect::vegetation::{classify_pixel, vegetation_index};
use color_detect::FIX_ONE;

fn rgb(red: u8, green: u8, blue: u8, alpha: u8) -> RGB {
    RGB { red, green, blue, alpha }
}

fn image_of(pixels: Vec<RGB>, width: u32, height: u32) -> Image<RGB> {
    assert_eq!(pixels.len(), (width * height) as usize);
    Image { data: pixels, width, height }
}

#[test]
fn single_pixel_histogram_has_one_bin_per_channel() {
    let img = image_of(vec![rgb(10, 20, 30, 255)], 1, 1);
    let (red, green, blue) = img.get_histogram();
    for v in 0..256 {
        assert_eq!(red[v], if v == 10 { 1 } else { 0 });
        assert_eq!(green[v], if v == 20 { 1 } else { 0 });
        assert_eq!(blue[v], if v == 30 { 1 } else { 0 });
    }
}

#[test]
fn histogram_counts_repeated_values() {
    let img = image_of(vec![rgb(5, 5, 9, 0), rgb(5, 7, 9, 0), rgb(6, 7, 9, 0)], 3, 1);
    let (red, green, blue) = img.get_histogram();
    assert_eq!(red[5], 2);
    assert_eq!(red[6], 1);
    assert_eq!(green[5], 1);
    assert_eq!(green[7], 2);
    assert_eq!(blue[9], 3);
}

#[test]
fn stretch_saturates_min_and_max() {
    let img = image_of(vec![rgb(10, 60, 110, 255), rgb(200, 250, 190, 7)], 2, 1);
    let s = img.get_stretched_image();
    assert_eq!(s.get_width(), 2);
    assert_eq!(s.get_height(), 1);
    let bytes = s.get_bitmap();
    assert_eq!(bytes, vec![0, 0, 0, 255, 255, 255, 255, 7]);
}

#[test]
fn stretch_maps_middle_value_linearly() {
    let img = image_of(
        vec![rgb(10, 0, 0, 255), rgb(100, 0, 0, 255), rgb(200, 0, 0, 255)],
        3,
        1,
    );
    let s = img.get_stretched_image();
    let bytes = s.get_bitmap();
    // round(255 * (100 - 10) / 190) == 121
    assert_eq!(bytes[4], 121);
    assert_eq!(bytes[0], 0);
    assert_eq!(bytes[8], 255);
}

#[test]
fn stretch_keeps_constant_channel() {
    let img = image_of(vec![rgb(100, 5, 10, 255), rgb(100, 200, 30, 255)], 2, 1);
    let s = img.get_stretched_image();
    let bytes = s.get_bitmap();
    assert_eq!(bytes[0], 100);
    assert_eq!(bytes[4], 100);
}

#[test]
fn intensity_histogram_of_white_pixel() {
    let img = image_of(vec![rgb(255, 255, 255, 255)], 1, 1);
    let hist = img.to_hsi().get_intensity_histogram();
    assert_eq!(hist[255], 1);
    let total: usize = hist.iter().sum();
    assert_eq!(total, 1);
}

#[test]
fn equalization_spreads_dark_ramp() {
    let img = image_of(
        vec![rgb(0, 0, 0, 255), rgb(3, 3, 3, 255), rgb(6, 6, 6, 255), rgb(9, 9, 9, 255)],
        2,
        2,
    );
    let h = img.to_hsi();
    let e = h.get_intensity_equalized_image();
    assert_eq!(e.get_width(), 2);
    assert_eq!(e.get_height(), 2);
    assert_eq!(e.data[0].intensity, 250_000);
    assert_eq!(e.data[1].intensity, 500_000);
    assert_eq!(e.data[2].intensity, 750_000);
    assert_eq!(e.data[3].intensity, 1_000_000);
    // hue, saturation and alpha are untouched
    for i in 0..4 {
        assert_eq!(e.data[i].hue, h.data[i].hue);
        assert_eq!(e.data[i].saturation, h.data[i].saturation);
        assert_eq!(e.data[i].alpha, h.data[i].alpha);
    }
}

#[test]
fn equalization_preserves_intensity_order() {
    let img = image_of(
        vec![rgb(40, 40, 40, 255), rgb(10, 10, 10, 255), rgb(90, 90, 90, 255)],
        3,
        1,
    );
    let h = img.to_hsi();
    let e = h.get_intensity_equalized_image();
    for i in 0..3 {
        for j in 0..3 {
            if h.data[i].intensity <= h.data[j].intensity {
                assert!(e.data[i].intensity <= e.data[j].intensity);
            }
        }
    }
    for i in 0..3 {
        assert!(0 <= e.data[i].intensity && e.data[i].intensity <= 1_000_000);
    }
}

#[test]
fn forest_green_is_vegetation() {
    let p = rgb(34, 139, 34, 255);
    let idx = vegetation_index(&p).unwrap();
    assert!(680_000 <= idx && idx <= 720_000, "index was {}", idx);
    assert!(classify_pixel(&p));
}

#[test]
fn gray_is_not_vegetation() {
    let p = rgb(128, 128, 128, 255);
    assert!(!classify_pixel(&p));
}

#[test]
fn zero_channel_pixel_is_not_vegetation() {
    assert!(!classify_pixel(&rgb(0, 255, 10, 255)));
    assert!(!classify_pixel(&rgb(10, 255, 0, 255)));
    assert_eq!(vegetation_index(&rgb(0, 255, 10, 255)), None);
}

#[test]
fn mask_keeps_vegetation_and_blacks_out_the_rest() {
    let img = image_of(vec![rgb(34, 139, 34, 200), rgb(128, 128, 128, 255)], 2, 1);
    let m = img.test();
    assert_eq!(m.data[0], rgb(34, 139, 34, 200));
    assert_eq!(m.data[1], rgb(0, 0, 0, 255));
    assert_eq!(m.get_width(), 2);
    assert_eq!(m.get_height(), 1);
}

#[test]
fn greenery_percentage_half_green() {
    let img = image_of(vec![rgb(34, 139, 34, 255), rgb(128, 128, 128, 255)], 2, 1);
    assert_eq!(img.get_greenery_percentage(), 500_000);
}

#[test]
fn greenery_percentage_in_unit_range() {
    let img = image_of(
        vec![rgb(0, 0, 0, 0), rgb(255, 255, 255, 255), rgb(3, 250, 7, 1), rgb(9, 9, 9, 9)],
        4,
        1,
    );
    let g = img.get_greenery_percentage();
    assert!(0 <= g && g <= FIX_ONE);
}

#[test]
fn conversions_preserve_shape() {
    let img = image_of(
        vec![
            rgb(1, 2, 3, 4),
            rgb(5, 6, 7, 8),
            rgb(9, 10, 11, 12),
            rgb(13, 14, 15, 16),
            rgb(17, 18, 19, 20),
            rgb(21, 22, 23, 24),
        ],
        3,
        2,
    );
    let h = img.to_hsi();
    assert_eq!((h.get_width(), h.get_height(), h.data.len()), (3, 2, 6));
    let l = img.to_lab();
    assert_eq!((l.get_width(), l.get_height(), l.data.len()), (3, 2, 6));
    let back = h.to_rgb();
    assert_eq!((back.get_width(), back.get_height(), back.data.len()), (3, 2, 6));
    let back2 = l.to_rgb();
    assert_eq!((back2.get_width(), back2.get_height(), back2.data.len()), (3, 2, 6));
    let st = img.get_stretched_image();
    assert_eq!((st.get_width(), st.get_height(), st.data.len()), (3, 2, 6));
    let mk = img.test();
    assert_eq!((mk.get_width(), mk.get_height(), mk.data.len()), (3, 2, 6));
    let eq = h.get_intensity_equalized_image();
    assert_eq!((eq.get_width(), eq.get_height(), eq.data.len()), (3, 2, 6));
}

#[test]
fn lab_a_histogram_counts_every_pixel_once() {
    let img = image_of(vec![rgb(50, 100, 200, 255), rgb(200, 30, 40, 255)], 2, 1);
    let lab = img.to_lab();
    let hist = lab.a_histogram();
    let total: usize = hist.iter().sum();
    assert_eq!(total, 2);
}

#[test]
fn from_rgba_bytes_checks_length() {
    let bytes = vec![1u8, 2, 3, 4, 5, 6, 7, 8];
    let img = Image::<RGB>::from_rgba_bytes(2, 1, &bytes).unwrap();
    assert_eq!(img.data[0], rgb(1, 2, 3, 4));
    assert_eq!(img.data[1], rgb(5, 6, 7, 8));
    assert_eq!(img.get_bitmap(), bytes);
    assert!(Image::<RGB>::from_rgba_bytes(2, 2, &bytes).is_none());
    assert!(Image::<RGB>::from_rgba_bytes(1, 1, &bytes).is_none());
}
