use apollo18_renderer::image::{decode_jpeg, srgb_image_from_decoding, SrgbImage};
use std::io::Cursor;

const MALFORMED_JPEG_FIXTURE: &[u8] = &[
    0xff, 0xd8, 0xff, 0xe0, 0x00, 0x10, 0x4a, 0x46, 0x49, 0x46, 0x00, 0x01, 0x01, 0x00, 0x00,
    0x01, 0x00, 0x01, 0x00, 0x00, 0xff, 0xdb, 0x00, 0x43, 0x00, 0x01, 0x01, 0x01, 0x01, 0x01,
    0x01, 0x01, 0x01, 0x01, 0x01, 0x01, 0x01, 0x01, 0x01, 0x01, 0x01, 0x01, 0x01, 0x01, 0x01,
    0x01, 0x01, 0x01, 0x01, 0x01, 0x01, 0x01, 0x01, 0x01, 0x01, 0x01, 0x01, 0x01, 0x01, 0x01,
    0x01, 0x01, 0x01, 0x01, 0x01, 0x01, 0x01, 0x01, 0x01, 0x01, 0x01, 0x01, 0x01, 0x01, 0x01,
    0x01, 0x01, 0x01, 0x01, 0x01, 0x01, 0x01, 0x01, 0x01, 0x01, 0x01, 0x01, 0x01, 0x01, 0xff,
    0xc0, 0x00, 0x11, 0x08, 0x00, 0x01, 0x00, 0x01, 0x03, 0x01, 0x22, 0x00, 0x02, 0x11, 0x01,
    0x03, 0x11, 0x01, 0xff, 0xc4, 0x00, 0x14, 0x00, 0x01, 0x00, 0x00, 0x00, 0x00, 0x00, 0x00,
    0x00, 0x00, 0x00, 0x00, 0x00, 0x00, 0x00, 0x00, 0x00, 0x00, 0xff, 0xc4, 0x00, 0x14, 0x10,
    0x01, 0x00, 0x00, 0x00, 0x00, 0x00, 0x00, 0x00, 0x00, 0x00, 0x00, 0x00, 0x00, 0x00, 0x00,
    0x00, 0x00, 0xff, 0xda, 0x00, 0x0c, 0x03, 0x01, 0x00, 0x02, 0x11, 0x03, 0x11, 0x00, 0x3f,
    0x00, 0x00, 0xff, 0xd9,
];

fn encoded_jpeg(width: u32, height: u32) -> Vec<u8> {
    let mut image = image::RgbImage::new(width, height);
    for (x, y, pixel) in image.enumerate_pixels_mut() {
        *pixel = image::Rgb([(x * 40) as u8, (y * 60) as u8, 200]);
    }
    let mut bytes = Cursor::new(Vec::new());
    image::DynamicImage::ImageRgb8(image)
        .write_to(&mut bytes, image::ImageFormat::Jpeg)
        .expect("JPEG fixture should encode");
    bytes.into_inner()
}

#[test]
fn rejects_invalid_jpeg_bytes() {
    assert!(decode_jpeg(b"not a JPEG").is_err());
    assert!(decode_jpeg(MALFORMED_JPEG_FIXTURE).is_err());
}

#[test]
fn validates_dimensions_and_rgb_storage() {
    assert!(SrgbImage::new(0, 1, Vec::new()).is_err());
    assert!(SrgbImage::new(1, 0, Vec::new()).is_err());
    assert!(SrgbImage::new(1, 1, vec![0; 2]).is_err());
    assert!(SrgbImage::new(1, 1, vec![0; 3]).is_ok());
}

#[test]
fn decodes_encoded_jpeg_into_owned_srgb_pixels() {
    let image = decode_jpeg(&encoded_jpeg(5, 3)).expect("encoded JPEG should decode");
    assert_eq!((image.width(), image.height()), (5, 3));
    assert_ne!(image.pixel(4, 2).channels(), [0, 0, 0]);
}

#[test]
fn codec_failures_keep_the_codec_error() {
    let error = decode_jpeg(b"not a JPEG").expect_err("bytes should not decode");
    assert!(error.source().is_some());
    assert!(error.to_string().starts_with("JPEG decoding failed: "));
}

#[test]
fn inconsistent_decodings_are_reported_without_panicking() {
    let error = srgb_image_from_decoding(Ok((2, 2, vec![0; 11])))
        .expect_err("eleven bytes cannot hold four RGB pixels");
    assert!(error.source().is_none());
    assert_eq!(
        error.to_string(),
        "JPEG decoding failed: sRGB image dimensions 2x2 require 12 RGB bytes, received 11"
    );
}

#[test]
fn pixels_are_read_in_row_major_rgb_order() {
    let pixels = (0..18).collect::<Vec<u8>>();
    let image = SrgbImage::new(3, 2, pixels).expect("valid synthetic image");
    assert_eq!(image.pixel(0, 0).channels(), [0, 1, 2]);
    assert_eq!(image.pixel(2, 0).channels(), [6, 7, 8]);
    assert_eq!(image.pixel(1, 1).channels(), [12, 13, 14]);
}

#[test]
fn invalid_images_describe_their_mismatch() {
    let error = SrgbImage::new(4, 2, vec![0; 5]).expect_err("five bytes cannot hold eight pixels");
    assert_eq!(
        error.to_string(),
        "sRGB image dimensions 4x2 require 24 RGB bytes, received 5"
    );
    let empty = SrgbImage::new(0, 7, Vec::new()).expect_err("empty images are invalid");
    assert_eq!(empty.to_string(), "sRGB image dimensions 0x7 require 0 RGB bytes, received 0");
}
