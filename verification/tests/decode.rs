use color_detect::colorspace::rgb::RGB;
use color_detect::image::Image;
use std::io::Cursor;

#[test]
fn decodes_a_png_round_trip() {
    let raw: Vec<u8> = vec![
        10, 20, 30, 255, 40, 50, 60, 255, 70, 80, 90, 255, 100, 110, 120, 255, 130, 140, 150,
        255, 160, 170, 180, 255,
    ];
    let buf = image::RgbaImage::from_raw(3, 2, raw.clone()).unwrap();
    let mut encoded: Vec<u8> = Vec::new();
    buf.write_to(&mut Cursor::new(&mut encoded), image::ImageOutputFormat::Png).unwrap();

    let img = Image::<RGB>::new_with_data(encoded).unwrap();
    assert_eq!(img.get_width(), 3);
    assert_eq!(img.get_height(), 2);
    assert_eq!(img.get_bitmap(), raw);
    assert_eq!(img.data[1], RGB { red: 40, green: 50, blue: 60, alpha: 255 });
}

#[test]
fn undecodable_bytes_give_no_image() {
    let garbage = vec![0u8, 1, 2, 3, 4, 5, 6, 7, 8, 9];
    assert!(Image::<RGB>::new_with_data(garbage).is_none());
}
