use image::{ImageFormat, Rgb, RgbImage, Rgba, RgbaImage};
use phonoscule::covers::{decode_thumbnail, full_res, is_scalable, FULL, MAX_SIDE, THUMB};
use std::io::Cursor;

fn png(width: u32, height: u32, color: [u8; 3]) -> Vec<u8> {
    let mut bytes = Cursor::new(vec![]);
    RgbImage::from_pixel(width, height, Rgb(color)).write_to(&mut bytes, ImageFormat::Png).unwrap();
    bytes.into_inner()
}

#[test]
fn a_cover_is_scaled_to_fill_a_square() {
    let edge = THUMB as usize;
    let rgb = decode_thumbnail("/m/Cover.PNG", &png(40, 10, [200, 16, 90])).unwrap();
    assert_eq!(rgb.len(), edge * edge * 3);
    assert!(rgb.chunks_exact(3).all(|px| px == [200, 16, 90]));

    // The left half black and the right half white: cropped around the center.
    let mut bytes = Cursor::new(vec![]);
    let halves = RgbImage::from_fn(640, 320, |x, _| if x < 320 { Rgb([0, 0, 0]) } else { Rgb([255, 255, 255]) });
    halves.write_to(&mut bytes, ImageFormat::Png).unwrap();
    let rgb = decode_thumbnail("cover.png", &bytes.into_inner()).unwrap();
    assert_eq!((rgb[0], rgb[(edge - 1) * 3]), (0, 255));
    assert_eq!((rgb[(edge / 2 - 2) * 3], rgb[(edge / 2 + 1) * 3]), (0, 255));
}

#[test]
fn a_full_cover_keeps_its_alpha() {
    let edge = FULL as usize;
    let mut bytes = Cursor::new(vec![]);
    RgbaImage::from_pixel(3, 3, Rgba([1, 2, 3, 128])).write_to(&mut bytes, ImageFormat::Png).unwrap();
    let bytes = bytes.into_inner();
    let rgba = full_res("cover.png", &bytes).unwrap();
    assert_eq!(rgba.len(), edge * edge * 4);
    assert_eq!(rgba[..4], [1, 2, 3, 128]);
    let rgb = decode_thumbnail("cover.png", &bytes).unwrap();
    assert_eq!(rgb[..3], [1, 2, 3], "a thumbnail has none");
}

#[test]
fn what_is_no_image_is_not_decoded() {
    assert!(decode_thumbnail("cover.png", b"no image").is_none());
    assert!(full_res("cover.png", b"no image").is_none());
    assert!(decode_thumbnail("cover", &png(4, 4, [0, 0, 0])).is_none(), "the extension tells the format");
    assert!(decode_thumbnail("cover.jpg", &png(4, 4, [0, 0, 0])).is_none());
}

/// An image so long that its pixels could not be told apart is not scaled.
#[test]
fn an_image_that_cannot_be_scaled_is_not_decoded() {
    assert!(is_scalable(1, 1, THUMB) && is_scalable(3000, 2000, FULL) && is_scalable(20_000, 40, FULL));
    assert!(!is_scalable(0, 10, THUMB) && !is_scalable(10, 0, THUMB), "nothing to scale");
    assert!(is_scalable(MAX_SIDE, 1, 2) && !is_scalable(MAX_SIDE + 1, 1, 2));
    assert!(!is_scalable(1, MAX_SIDE + 1, 2));
    assert!(is_scalable(MAX_SIDE, 1, 4095) && !is_scalable(MAX_SIDE, 1, 4097), "the long side could not be counted");
    assert!(!is_scalable(10, 10, u32::MAX), "nor held");
    assert!(decode_thumbnail("cover.png", &png(MAX_SIDE + 1, 1, [1, 2, 3])).is_none());
    assert!(full_res("cover.png", &png(1, MAX_SIDE + 1, [1, 2, 3])).is_none());
}
