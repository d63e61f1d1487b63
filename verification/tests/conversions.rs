use color_detect::colorspace::hsi::HSI;
use color_detect::colorspace::rgb::RGB;
use color_detect::colorspace::ColorSpace;

fn rgb(red: u8, green: u8, blue: u8, alpha: u8) -> RGB {
    RGB { red, green, blue, alpha }
}

#[test]
fn identity_conversion_returns_copy() {
    let p = rgb(12, 34, 56, 78);
    assert_eq!(p.to_rgb(), p);
    let h = p.to_hsi();
    assert_eq!(h.to_hsi(), h);
    let l = p.to_lab();
    assert_eq!(l.to_lab(), l);
}

#[test]
fn pure_green_to_hsi() {
    let h = rgb(0, 255, 0, 255).to_hsi();
    assert!((h.hue - 120_000_000).abs() <= 20_000, "hue was {}", h.hue);
    assert_eq!(h.saturation, 1_000_000);
    assert_eq!(h.intensity, 333_333);
    assert_eq!(h.alpha, 1_000_000);
}

#[test]
fn gray_pixel_has_hue_zero() {
    let h = rgb(130, 130, 130, 255).to_hsi();
    assert_eq!(h.hue, 0);
    assert_eq!(h.saturation, 0);
}

#[test]
fn black_pixel_has_hue_and_saturation_zero() {
    let h = rgb(0, 0, 0, 9).to_hsi();
    assert_eq!(h.hue, 0);
    assert_eq!(h.saturation, 0);
    assert_eq!(h.intensity, 0);
}

fn assert_close(a: u8, b: u8, tol: i32, what: &str) {
    let d = (a as i32 - b as i32).abs();
    assert!(d <= tol, "{}: {} vs {} (off by {})", what, a, b, d);
}

#[test]
fn rgb_hsi_round_trip_warm_pixel() {
    let p = rgb(200, 100, 50, 255);
    let q = p.to_hsi().to_rgb();
    assert_close(q.red, p.red, 2, "red");
    assert_close(q.green, p.green, 2, "green");
    assert_close(q.blue, p.blue, 2, "blue");
    assert_eq!(q.alpha, p.alpha);
}

#[test]
fn rgb_hsi_round_trip_second_pixel() {
    let p = rgb(180, 120, 60, 200);
    let q = p.to_hsi().to_rgb();
    assert_close(q.red, p.red, 2, "red");
    assert_close(q.green, p.green, 2, "green");
    assert_close(q.blue, p.blue, 2, "blue");
    assert_eq!(q.alpha, p.alpha);
}

#[test]
fn rgb_lab_round_trip() {
    for p in [rgb(50, 100, 200, 255), rgb(200, 100, 50, 13), rgb(34, 139, 34, 255)] {
        let q = p.to_lab().to_rgb();
        assert_close(q.red, p.red, 2, "red");
        assert_close(q.green, p.green, 2, "green");
        assert_close(q.blue, p.blue, 2, "blue");
        assert_eq!(q.alpha, p.alpha);
    }
}

#[test]
fn alpha_preserved_across_conversions() {
    let p = rgb(10, 220, 77, 77);
    assert_eq!(p.to_hsi().to_rgb().alpha, 77);
    assert_eq!(p.to_lab().to_rgb().alpha, 77);
    assert_eq!(p.to_hsi().to_lab().to_rgb().alpha, 77);
    assert_eq!(p.to_lab().to_hsi().to_rgb().alpha, 77);
}

#[test]
fn lab_of_gray_is_neutral() {
    let l = rgb(128, 128, 128, 255).to_lab();
    assert!(l.a.abs() < 2_000_000, "a was {}", l.a);
    assert!(l.b.abs() < 2_000_000, "b was {}", l.b);
    assert!(l.l > 0 && l.l <= 100_000_000);
}

#[test]
fn hsi_sector_permutation_keeps_intensity() {
    // A mid-saturation pixel in each 120-degree hue sector survives the
    // round trip with its channel sum (3 * intensity) nearly unchanged.
    let h1 = HSI { hue: 40_000_000, saturation: 500_000, intensity: 400_000, alpha: 1_000_000 };
    let q = h1.to_rgb();
    let sum = q.red as i64 + q.green as i64 + q.blue as i64;
    // 3 * intensity scaled to 0..765
    let expect = 3 * 400_000 * 255 / 1_000_000;
    assert!((sum - expect).abs() <= 3, "sum {} vs {}", sum, expect);
}
