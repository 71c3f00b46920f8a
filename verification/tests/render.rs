use image::{DynamicImage, Rgb, RgbImage};
use mangalize::compress::Compression;
use mangalize::page::{Page, PageKind};
use mangalize::project::Direction;
use mangalize::writers::{make_displayable, render_page, Rendered, Target};

fn page(path: &str, kind: PageKind, split: bool, width: u32, height: u32) -> Page {
    Page {
        path: path.to_string(),
        width,
        height,
        bytes: 0,
        kind,
        excluded: None,
        split,
    }
}

/// A spread whose left half is black and right half white, as PNG bytes.
fn two_tone_spread(width: u32, height: u32) -> Vec<u8> {
    let mut image = RgbImage::from_pixel(width, height, Rgb([255, 255, 255]));
    for y in 0..height {
        for x in 0..width / 2 {
            image.put_pixel(x, y, Rgb([0, 0, 0]));
        }
    }
    let mut bytes = Vec::new();
    DynamicImage::ImageRgb8(image)
        .write_to(&mut std::io::Cursor::new(&mut bytes), image::ImageFormat::Png)
        .unwrap();
    bytes
}

fn mean_brightness(jpeg: &[u8]) -> u64 {
    let image = image::load_from_memory(jpeg).unwrap().to_luma8();
    let total: u64 = image.pixels().map(|p| p.0[0] as u64).sum();
    total / (image.width() as u64 * image.height() as u64)
}

#[test]
fn with_compression_off_an_unsplit_page_passes_through_byte_for_byte() {
    let bytes = b"not even an image".to_vec();
    let p = page("ch1/001.PNG", PageKind::Single, false, 800, 1200);
    let out = render_page(&p, bytes.clone(), Direction::RightToLeft, &Compression::original(), Target::Epub)
        .unwrap();
    assert_eq!(out.len(), 1);
    assert_eq!(out[0].bytes, bytes);
    assert_eq!(out[0].ext, "png");
    assert_eq!((out[0].width, out[0].height), (800, 1200));
}

const TINY_WEBP: &[u8] = &[
    82, 73, 70, 70, 30, 0, 0, 0, 87, 69, 66, 80, 86, 80, 56, 76, 17, 0, 0, 0, 47, 7, 192, 2, 0, 7,
    80, 143, 34, 215, 163, 255, 129, 136, 232, 127, 0, 0,
];

fn rendered(bytes: &[u8], ext: &'static str) -> Rendered {
    Rendered { bytes: bytes.to_vec(), ext, width: 8, height: 12 }
}

#[test]
fn webp_is_converted_for_epub_because_kindle_cannot_draw_it() {
    let out = make_displayable(rendered(TINY_WEBP, "webp"), Target::Epub).unwrap();
    assert_eq!(out.ext, "jpg");
    assert_eq!(image::guess_format(&out.bytes).unwrap(), image::ImageFormat::Jpeg);
    assert_eq!((out.width, out.height), (8, 12), "dimensions must survive");
}

#[test]
fn webp_is_left_alone_for_cbz_where_readers_handle_it() {
    let out = make_displayable(rendered(TINY_WEBP, "webp"), Target::Cbz).unwrap();
    assert_eq!(out.ext, "webp");
    assert_eq!(out.bytes, TINY_WEBP, "a CBZ should keep the original bytes");
}

#[test]
fn a_format_kindle_understands_is_never_re_encoded() {
    let jpeg = b"\xff\xd8\xff\xe0 pretend jpeg".to_vec();
    let out = make_displayable(rendered(&jpeg, "jpg"), Target::Epub).unwrap();
    assert_eq!(out.bytes, jpeg);

    let png = rendered(b"pretend png", "png");
    assert_eq!(make_displayable(png, Target::Epub).unwrap().ext, "png");
}

#[test]
fn webp_that_cannot_be_decoded_fails_for_epub_rather_than_shipping_blank_pages() {
    let out = make_displayable(rendered(b"junk", "webp"), Target::Epub);
    assert!(out.is_err());
}

#[test]
fn a_cbz_page_passes_through_whatever_its_format() {
    let bytes = b"riff webp payload".to_vec();
    let p = page("ch1/002.webp", PageKind::Single, false, 10, 20);
    let out = render_page(&p, bytes.clone(), Direction::RightToLeft, &Compression::original(), Target::Cbz)
        .unwrap();
    assert_eq!(out[0].bytes, bytes);
    assert_eq!(out[0].ext, "webp");
}

#[test]
fn splitting_a_spread_produces_two_pages_right_half_first() {
    let bytes = two_tone_spread(400, 300);
    let p = page("ch1/010.png", PageKind::Spread, true, 400, 300);
    let out = render_page(&p, bytes, Direction::RightToLeft, &Compression::original(), Target::Epub)
        .unwrap();
    assert_eq!(out.len(), 2);
    assert!(out.iter().all(|r| r.ext == "jpg" && r.width == 200 && r.height == 300));
    assert!(mean_brightness(&out[0].bytes) > 200, "right (white) half comes first");
    assert!(mean_brightness(&out[1].bytes) < 50);
}

#[test]
fn left_to_right_volumes_read_the_left_half_first() {
    let bytes = two_tone_spread(400, 300);
    let p = page("ch1/010.png", PageKind::Spread, true, 400, 300);
    let out = render_page(&p, bytes, Direction::LeftToRight, &Compression::original(), Target::Cbz)
        .unwrap();
    assert!(mean_brightness(&out[0].bytes) < 50);
}

#[test]
fn a_spread_that_cannot_be_decoded_is_an_error() {
    let p = page("ch1/010.png", PageKind::Spread, true, 400, 300);
    let out = render_page(&p, b"junk".to_vec(), Direction::LeftToRight, &Compression::kindle(), Target::Cbz);
    assert!(out.is_err());
}

#[test]
fn a_spread_that_cannot_be_decoded_names_the_page() {
    let p = page("ch1/010.png", PageKind::Spread, true, 400, 300);
    let out = render_page(&p, b"junk".to_vec(), Direction::RightToLeft, &Compression::original(), Target::Epub);
    assert_eq!(out.unwrap_err(), "decoding ch1/010.png");
}

#[test]
fn an_odd_width_spread_gives_the_extra_column_to_the_right_half() {
    let bytes = two_tone_spread(401, 300);
    let p = page("ch1/011.png", PageKind::Spread, true, 401, 300);
    let out = render_page(&p, bytes, Direction::LeftToRight, &Compression::original(), Target::Cbz)
        .unwrap();
    assert_eq!((out[0].width, out[0].height), (200, 300));
    assert_eq!((out[1].width, out[1].height), (201, 300));
}

#[test]
fn undecodable_webp_for_epub_says_which_format_failed() {
    let out = make_displayable(rendered(b"junk", "webp"), Target::Epub);
    assert_eq!(out.unwrap_err(), "decoding a webp page for conversion");
}
