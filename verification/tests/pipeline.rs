use std::io::Cursor;

use gallery::transform::extract_exif_orientation;
use gallery::transform::load_and_resize;
use gallery::transform::TransformError;

fn png_bytes(width: u32, height: u32) -> Vec<u8> {
    let img = image::RgbImage::from_fn(width, height, |x, y| {
        image::Rgb([(x * 37 % 256) as u8, (y * 91 % 256) as u8, 33])
    });
    let mut out = Vec::new();
    image::DynamicImage::ImageRgb8(img)
        .write_to(&mut Cursor::new(&mut out), image::ImageFormat::Png)
        .unwrap();
    out
}

fn jpeg_bytes(width: u32, height: u32) -> Vec<u8> {
    let img = image::RgbImage::from_fn(width, height, |x, y| {
        image::Rgb([(x * 37 % 256) as u8, (y * 91 % 256) as u8, 33])
    });
    let mut out = Vec::new();
    image::DynamicImage::ImageRgb8(img)
        .write_to(&mut Cursor::new(&mut out), image::ImageFormat::Jpeg)
        .unwrap();
    out
}

/// A JPEG with an EXIF segment holding the given orientation in the
/// primary image file directory, spliced in right after the start marker.
fn jpeg_with_orientation(width: u32, height: u32, orientation: u16) -> Vec<u8> {
    let base = jpeg_bytes(width, height);
    let mut app1: Vec<u8> = Vec::new();
    app1.extend([0xFF, 0xE1, 0x00, 0x22]);
    app1.extend(b"Exif\0\0");
    // TIFF header, little-endian, first directory at offset 8.
    app1.extend([0x49, 0x49, 0x2A, 0x00, 0x08, 0x00, 0x00, 0x00]);
    // One entry: tag 0x0112 (orientation), type SHORT, count 1.
    app1.extend([0x01, 0x00]);
    app1.extend([0x12, 0x01, 0x03, 0x00, 0x01, 0x00, 0x00, 0x00]);
    app1.extend(orientation.to_le_bytes());
    app1.extend([0x00, 0x00]);
    // No further directory.
    app1.extend([0x00, 0x00, 0x00, 0x00]);

    let mut out = Vec::new();
    out.extend(&base[..2]);
    out.extend(app1);
    out.extend(&base[2..]);
    out
}

#[test]
fn orientation_defaults_to_one_without_exif() {
    assert_eq!(extract_exif_orientation(&png_bytes(4, 2)), 1);
}

#[test]
fn orientation_is_read_from_exif() {
    assert_eq!(extract_exif_orientation(&jpeg_with_orientation(4, 2, 6)), 6);
    assert_eq!(extract_exif_orientation(&jpeg_with_orientation(4, 2, 3)), 3);
}

#[test]
fn transform_produces_bounded_jpeg() {
    let out = load_and_resize(&png_bytes(64, 48), 10, 80).unwrap();
    // The result is JPEG, not the PNG input handed back.
    assert_eq!(&out[..2], &[0xFF, 0xD8]);
    let decoded = image::load_from_memory(&out).unwrap();
    let (w, h) = (decoded.width(), decoded.height());
    assert!(w <= 10 && h <= 10);
    assert_eq!((w, h), (10, 8));
}

#[test]
fn transform_applies_orientation_after_resize() {
    // A 4x2 source marked "rotate a quarter turn clockwise" comes out 2x4.
    let out = load_and_resize(&jpeg_with_orientation(4, 2, 6), 4, 80).unwrap();
    let decoded = image::load_from_memory(&out).unwrap();
    assert_eq!((decoded.width(), decoded.height()), (2, 4));
}

#[test]
fn transform_is_deterministic() {
    let bytes = jpeg_with_orientation(4, 2, 6);
    let first = load_and_resize(&bytes, 4, 80).unwrap();
    let second = load_and_resize(&bytes, 4, 80).unwrap();
    assert_eq!(first, second);
}

#[test]
fn transform_rejects_undecodable_bytes() {
    let garbage = vec![0u8, 1, 2, 3, 4, 5];
    assert!(matches!(load_and_resize(&garbage, 10, 80), Err(TransformError::Decode)));
    assert!(matches!(load_and_resize(&Vec::new(), 10, 80), Err(TransformError::Decode)));
}

#[test]
fn transform_rejects_unsupported_orientation() {
    let bytes = jpeg_with_orientation(4, 2, 9);
    let r = load_and_resize(&bytes, 4, 80);
    assert!(matches!(
        r,
        Err(TransformError::UnsupportedOrientation { orientation }) if orientation == 9
    ));
}
