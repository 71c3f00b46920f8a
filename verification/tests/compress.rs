use image::{DynamicImage, Rgb, RgbImage};
use mangalize::compress::{compress, looks_grayscale, looks_grayscale_rgb, scaled_to, Compression};

/// A page shaped like real line work: mostly white, three bordered panels and
/// a band of tonal wash.
fn inked_page(width: u32, height: u32) -> DynamicImage {
    let mut image = RgbImage::from_pixel(width, height, Rgb([255, 255, 255]));
    for panel in 0..3u32 {
        let top = height * panel / 3 + height / 40;
        let bottom = height * (panel + 1) / 3 - height / 40;
        let (left, right) = (width / 20, width - width / 20);
        for y in top..bottom {
            for x in left..right {
                let edge = y < top + 3 || y + 3 >= bottom || x < left + 3 || x + 3 >= right;
                if edge {
                    image.put_pixel(x, y, Rgb([10, 10, 10]));
                }
            }
        }
    }
    for y in height / 3..height * 2 / 3 {
        for x in width / 4..width * 3 / 4 {
            let shade = 120 + ((x * 90) / width.max(1)) as u8 % 90;
            image.put_pixel(x, y, Rgb([shade, shade, shade]));
        }
    }
    DynamicImage::ImageRgb8(image)
}

fn colour_page(width: u32, height: u32) -> DynamicImage {
    let mut image = RgbImage::from_pixel(width, height, Rgb([250, 250, 250]));
    for y in 0..height / 4 {
        for x in 0..width / 4 {
            image.put_pixel(x, y, Rgb([200, 40, 40]));
        }
    }
    DynamicImage::ImageRgb8(image)
}

fn encode(image: &DynamicImage, quality: u8) -> Vec<u8> {
    let mut bytes = Vec::new();
    image::codecs::jpeg::JpegEncoder::new_with_quality(std::io::Cursor::new(&mut bytes), quality)
        .encode_image(&image.to_rgb8())
        .unwrap();
    bytes
}

#[test]
fn undecodable_bytes_fall_back_to_the_original() {
    assert!(compress(b"this is not an image", &Compression::kindle()).is_none());
}

#[test]
fn scaling_keeps_the_aspect_ratio_both_ways_round() {
    assert_eq!(scaled_to(2000, 3000, 1500), (1000, 1500));
    assert_eq!(scaled_to(3000, 2000, 1500), (1500, 1000));
    assert_eq!(scaled_to(800, 1600, 800), (400, 800));
}

#[test]
fn a_sliver_never_scales_to_nothing() {
    assert_eq!(scaled_to(10000, 1, 100), (100, 1));
    assert_eq!(scaled_to(1, 10000, 100), (1, 100));
}

#[test]
fn a_black_and_white_page_is_recognised_as_such() {
    assert!(looks_grayscale(&inked_page(400, 600)));
}

#[test]
fn a_colour_cover_is_not() {
    assert!(!looks_grayscale(&colour_page(400, 600)));
}

#[test]
fn sampling_judges_by_the_chroma_spread() {
    // Two pixels: a neutral grey, then one whose channels drift by exactly the
    // tolerance, then by one more.
    assert!(looks_grayscale_rgb(2, 1, &[100, 100, 100, 100, 112, 106]));
    assert!(!looks_grayscale_rgb(2, 1, &[100, 100, 100, 100, 113, 106]));
    assert!(!looks_grayscale_rgb(0, 5, &[]));
}

#[test]
fn an_oversized_page_is_scaled_to_the_cap() {
    let original = encode(&inked_page(2000, 3000), 95);
    let result = compress(&original, &Compression::kindle()).expect("should compress");
    assert!(result.height <= 1600 && result.height >= 1598, "{}", result.height);
    assert!(result.width <= 1067, "{}", result.width);
    let ratio = result.width as f64 / result.height as f64;
    assert!((ratio - 2.0 / 3.0).abs() < 0.01, "aspect ratio drifted: {ratio}");
}

#[test]
fn a_page_already_under_the_cap_keeps_its_dimensions() {
    let original = encode(&inked_page(800, 1200), 95);
    let result = compress(&original, &Compression::kindle()).expect("should compress");
    assert_eq!((result.width, result.height), (800, 1200));
}

#[test]
fn a_page_is_never_enlarged_to_meet_the_cap() {
    let original = encode(&inked_page(400, 600), 95);
    if let Some(result) = compress(&original, &Compression::large()) {
        assert_eq!((result.width, result.height), (400, 600));
    }
}

#[test]
fn original_settings_change_nothing() {
    assert!(Compression::original().is_noop());
    let original = encode(&inked_page(800, 1200), 95);
    assert!(compress(&original, &Compression::original()).is_none());
}

#[test]
fn a_page_that_would_grow_is_left_alone() {
    let original = encode(&colour_page(300, 400), 20);
    let settings = Compression { max_edge: None, quality: 95, grayscale: false };
    assert!(compress(&original, &settings).is_none());
}

#[test]
fn the_presets_and_the_default() {
    assert_eq!(Compression::default(), Compression::kindle());
    assert_eq!(Compression::kindle().max_edge, Some(1600));
    assert_eq!(Compression::compact().quality, 78);
    assert!(!Compression::kindle().is_noop());
    assert!(!Compression { max_edge: None, quality: 99, grayscale: false }.is_noop());
}

#[test]
fn an_oversized_page_gets_dramatically_smaller() {
    let original = encode(&inked_page(2000, 3000), 95);
    let result = compress(&original, &Compression::kindle()).expect("should compress");
    let saved = 1.0 - (result.bytes.len() as f64 / original.len() as f64);
    assert!(saved > 0.5, "only saved {:.0}%", saved * 100.0);
}

#[test]
fn greyscale_encoding_beats_rgb_on_an_inked_page() {
    let page = inked_page(1200, 1600);
    let original = encode(&page, 90);
    let as_grey = compress(&original, &Compression { max_edge: None, quality: 90, grayscale: true })
        .expect("greyscale should be smaller");
    let as_rgb = compress(&original, &Compression { max_edge: None, quality: 90, grayscale: false });
    let rgb_len = as_rgb.map(|r| r.bytes.len()).unwrap_or(original.len());
    assert!(as_grey.bytes.len() < rgb_len, "greyscale {} should beat rgb {rgb_len}", as_grey.bytes.len());
}

#[test]
fn a_recompressed_page_fits_the_cap_and_never_grows() {
    let original = encode(&colour_page(2400, 3600), 100);
    let out = compress(&original, &Compression::kindle()).unwrap();
    assert!(out.width <= 1600 && out.height <= 1600);
    assert!(out.width <= 2400 && out.height <= 3600);
}

#[test]
fn a_bmp_page_is_decoded_and_recompressed() {
    let mut bmp = Vec::new();
    colour_page(400, 600)
        .write_to(&mut std::io::Cursor::new(&mut bmp), image::ImageFormat::Bmp)
        .unwrap();
    let out = compress(&bmp, &Compression::kindle()).unwrap();
    assert!(out.bytes.len() < bmp.len());
    assert_eq!((out.width, out.height), (400, 600));
}
