//! Making pages smaller without making them look worse.
//!
//! Two savings, each applied per page: pixels beyond the reader's screen are
//! scaled away, and a page that is black and white in everything but its
//! encoding is stored as greyscale. Recompression is never allowed to make a
//! page bigger: if the result is no smaller than what came in, the original is
//! kept.
//!
//! Decoding, resizing and JPEG encoding are the `image` crate's; what is
//! decided here is whether to do them, at what size, and which result to keep.
use vstd::prelude::*;

use image::{DynamicImage, GenericImageView, ImageError};

verus! {

#[verifier::external_type_specification]
#[verifier::external_body]
pub struct ExDynamicImage(DynamicImage);

#[verifier::external_type_specification]
#[verifier::external_body]
pub struct ExImageError(ImageError);

/// How hard to work at shrinking pages.
#[derive(Debug, Clone, Copy, PartialEq, Eq, Structural)]
pub struct Compression {
    /// Longest edge in pixels. `None` leaves the page at its original size.
    pub max_edge: Option<u32>,
    /// JPEG quality, 1–100.
    pub quality: u8,
    /// Store a page that is already black and white as greyscale.
    pub grayscale: bool,
}

impl Compression {
    /// Leave every page exactly as it was found.
    pub fn original() -> (c: Compression)
        ensures
            c == (Compression { max_edge: None, quality: 100, grayscale: false }),
    {
        Compression { max_edge: None, quality: 100, grayscale: false }
    }

    /// Sized for the e-ink Kindles: 1600 is just above a Paperwhite's height.
    pub fn kindle() -> (c: Compression)
        ensures
            c == (Compression { max_edge: Some(1600), quality: 85, grayscale: true }),
    {
        Compression { max_edge: Some(1600), quality: 85, grayscale: true }
    }

    /// For a Kindle Scribe or a tablet, where the screen is genuinely larger.
    pub fn large() -> (c: Compression)
        ensures
            c == (Compression { max_edge: Some(2400), quality: 88, grayscale: true }),
    {
        Compression { max_edge: Some(2400), quality: 88, grayscale: true }
    }

    /// When the volume has to fit an email attachment limit.
    pub fn compact() -> (c: Compression)
        ensures
            c == (Compression { max_edge: Some(1280), quality: 78, grayscale: true }),
    {
        Compression { max_edge: Some(1280), quality: 78, grayscale: true }
    }

    /// Whether these settings would change a page at all.
    pub open spec fn noop(self) -> bool {
        self.max_edge is None && !self.grayscale && self.quality >= 100
    }

    /// Whether these settings would change a page at all.
    pub fn is_noop(&self) -> (r: bool)
        ensures
            r == self.noop(),
    {
        self.max_edge.is_none() && !self.grayscale && self.quality >= 100
    }
}

impl Default for Compression {
    /// The Kindle settings.
    fn default() -> (r: Compression)
        ensures
            r == (Compression { max_edge: Some(1600), quality: 85, grayscale: true }),
    {
        Compression::kindle()
    }
}

/// A page that has been re-encoded.
pub struct Compressed {
    pub bytes: Vec<u8>,
    pub width: u32,
    pub height: u32,
}

/// The image `image::load_from_memory` decodes from these bytes, if any.
pub uninterp spec fn decoded(bytes: Seq<u8>) -> Option<DynamicImage>;

/// Whether these bytes decode into an image.
pub open spec fn decodes(bytes: Seq<u8>) -> bool {
    decoded(bytes) is Some
}

/// `image::load_from_memory`: the format is guessed from the bytes, which are
/// then decoded. It succeeds exactly on the bytes that decode, with the image
/// they decode to.
#[verifier::external_body]
pub(crate) fn decode(bytes: &[u8]) -> (r: Result<DynamicImage, ImageError>)
    ensures
        r is Ok <==> decodes(bytes@),
        r matches Ok(image) ==> decoded(bytes@) == Some(image),
{
    image::load_from_memory(bytes)
}

/// The width and height `GenericImageView::dimensions` reports for an image.
pub uninterp spec fn image_size(image: DynamicImage) -> (u32, u32);

/// `GenericImageView::dimensions`: width and height in pixels.
#[verifier::external_body]
pub(crate) fn dimensions(image: &DynamicImage) -> (r: (u32, u32))
    ensures
        r == image_size(*image),
{
    image.dimensions()
}

/// The image `DynamicImage::resize` with the Catmull-Rom filter makes of an
/// image, towards a width and height.
pub uninterp spec fn resized_image(image: DynamicImage, width: u32, height: u32) -> DynamicImage;

/// `DynamicImage::resize` with the Catmull-Rom filter, towards `width` by
/// `height` with the ratio kept: the result fits within that box, except that
/// each side is at least one pixel.
#[verifier::external_body]
pub(crate) fn resize(image: &DynamicImage, width: u32, height: u32) -> (r: DynamicImage)
    ensures
        r == resized_image(*image, width, height),
        image_size(r).0 <= if width >= 1 { width } else { 1 },
        image_size(r).1 <= if height >= 1 { height } else { 1 },
{
    image.resize(width, height, image::imageops::FilterType::CatmullRom)
}

/// The part `DynamicImage::crop_imm` cuts out of an image.
pub uninterp spec fn cropped_image(image: DynamicImage, x: u32, y: u32, width: u32, height: u32) -> DynamicImage;

/// `DynamicImage::crop_imm`: the part of the image at `(x, y)` of the given
/// size.
#[verifier::external_body]
pub(crate) fn crop(image: &DynamicImage, x: u32, y: u32, width: u32, height: u32) -> (r: DynamicImage)
    ensures
        r == cropped_image(*image, x, y, width, height),
{
    image.crop_imm(x, y, width, height)
}

/// An image as `DynamicImage::to_rgb8` gives it: width, height and the
/// pixels as `r, g, b` bytes, row by row.
pub uninterp spec fn rgb_view(image: DynamicImage) -> (u32, u32, Seq<u8>);

/// `DynamicImage::to_rgb8` taken apart: width, height and the pixels as
/// `r, g, b` bytes, row by row. The buffer holds at least three bytes for each
/// pixel.
#[verifier::external_body]
pub(crate) fn rgb_pixels(image: &DynamicImage) -> (r: (u32, u32, Vec<u8>))
    ensures
        (r.0, r.1, r.2@) == rgb_view(*image),
        r.2@.len() >= 3 * (r.0 as int * r.1 as int),
{
    let rgb = image.to_rgb8();
    let (width, height) = rgb.dimensions();
    (width, height, rgb.into_raw())
}

/// The greyscale JPEG `JpegEncoder::new_with_quality` writes of an image at a
/// quality, or nothing when the encoder fails.
pub uninterp spec fn luma_jpeg(image: DynamicImage, quality: u8) -> Option<Seq<u8>>;

/// `JpegEncoder::new_with_quality` encoding `DynamicImage::to_luma8`: the
/// image as a greyscale JPEG.
#[verifier::external_body]
pub(crate) fn encode_luma(image: &DynamicImage, quality: u8) -> (r: Result<Vec<u8>, ImageError>)
    requires
        1 <= quality <= 100,
    ensures
        r is Ok <==> luma_jpeg(*image, quality) is Some,
        r matches Ok(b) ==> luma_jpeg(*image, quality) == Some(b@),
{
    let mut bytes = Vec::new();
    image::codecs::jpeg::JpegEncoder::new_with_quality(std::io::Cursor::new(&mut bytes), quality)
        .encode_image(&image.to_luma8())
        .map(|_| bytes)
}

/// The colour JPEG `JpegEncoder::new_with_quality` writes of an image at a
/// quality, or nothing when the encoder fails.
pub uninterp spec fn rgb_jpeg(image: DynamicImage, quality: u8) -> Option<Seq<u8>>;

/// `JpegEncoder::new_with_quality` encoding `DynamicImage::to_rgb8`: the image
/// as a colour JPEG.
#[verifier::external_body]
pub(crate) fn encode_rgb(image: &DynamicImage, quality: u8) -> (r: Result<Vec<u8>, ImageError>)
    requires
        1 <= quality <= 100,
    ensures
        r is Ok <==> rgb_jpeg(*image, quality) is Some,
        r matches Ok(b) ==> rgb_jpeg(*image, quality) == Some(b@),
{
    let mut bytes = Vec::new();
    image::codecs::jpeg::JpegEncoder::new_with_quality(std::io::Cursor::new(&mut bytes), quality)
        .encode_image(&image.to_rgb8())
        .map(|_| bytes)
}

/// The side that is not capped, scaled by the same factor as the capped one
/// (rounded down, never below one pixel).
pub open spec fn scaled_side(short: int, long: int, max: int) -> int {
    if short * max / long >= 1 {
        short * max / long
    } else {
        1
    }
}

/// Dimensions that fit inside `max` on the longest edge, keeping the ratio.
pub open spec fn scaled_to_spec(width: int, height: int, max: int) -> (int, int) {
    if width >= height {
        (max, scaled_side(height, width, max))
    } else {
        (scaled_side(width, height, max), max)
    }
}

/// The product of two `u32` values fits in a `u64`.
proof fn lemma_u32_product(a: u32, b: u32)
    ensures
        a as int * b as int <= 0xffff_fffe_0000_0001,
{
    assert(a as int * b as int <= 0xffff_ffff * 0xffff_ffff) by (nonlinear_arith)
        requires
            a <= 0xffff_ffff,
            b <= 0xffff_ffff,
    ;
}

/// Dimensions that fit inside `max` on the longest edge, keeping the ratio.
pub fn scaled_to(width: u32, height: u32, max: u32) -> (r: (u32, u32))
    requires
        width > 0 || height > 0,
    ensures
        (r.0 as int, r.1 as int) == scaled_to_spec(width as int, height as int, max as int),
        max >= 1 ==> 1 <= r.0 <= max && 1 <= r.1 <= max,
        width >= 1 && height >= 1 && (width > max || height > max) ==> r.0 <= width && r.1
            <= height,
{
    if width >= height {
        proof {
            lemma_u32_product(height, max);
        }
        let product: u64 = height as u64 * max as u64;
        let q: u64 = product / width as u64;
        proof {
            if height >= 1 && width > max {
                assert(q <= height) by (nonlinear_arith)
                    requires
                        q == product / width as u64,
                        product == height as int * max as int,
                        max < width,
                        height >= 1,
                ;
            }
        }
        proof {
            assert(height as int * max as int <= width as int * max as int) by (nonlinear_arith)
                requires
                    height <= width,
            ;
            assert(q <= max as u64) by (nonlinear_arith)
                requires
                    q == product / width as u64,
                    product <= width as int * max as int,
                    width > 0,
            ;
        }
        let scaled: u32 = if q >= 1 {
            q as u32
        } else {
            1
        };
        (max, scaled)
    } else {
        proof {
            lemma_u32_product(width, max);
        }
        let product: u64 = width as u64 * max as u64;
        let q: u64 = product / height as u64;
        proof {
            if width >= 1 && height > max {
                assert(q <= width) by (nonlinear_arith)
                    requires
                        q == product / height as u64,
                        product == width as int * max as int,
                        max < height,
                        width >= 1,
                ;
            }
        }
        proof {
            assert(width as int * max as int <= height as int * max as int) by (nonlinear_arith)
                requires
                    width <= height,
            ;
            assert(q <= max as u64) by (nonlinear_arith)
                requires
                    q == product / height as u64,
                    product <= height as int * max as int,
                    height > 0,
            ;
        }
        let scaled: u32 = if q >= 1 {
            q as u32
        } else {
            1
        };
        (scaled, max)
    }
}

/// Scaled dimensions fit the cap and keep the ratio: the longer edge becomes
/// `max`, and the other is the largest whole number of pixels that does not
/// stretch the page, or one pixel when the page is a sliver.
pub proof fn scaled_dimensions_fit_and_keep_the_ratio(width: int, height: int, max: int)
    requires
        width > 0,
        height > 0,
        max > 0,
    ensures
        ({
            let (w, h) = scaled_to_spec(width, height, max);
            &&& 1 <= w <= max
            &&& 1 <= h <= max
            &&& width >= height ==> w == max && (h == 1 || (h * width <= height * max < (h + 1)
                * width))
            &&& width < height ==> h == max && (w == 1 || (w * height <= width * max < (w + 1)
                * height))
        }),
{
    if width >= height {
        let q = height * max / width;
        assert(q * width <= height * max < (q + 1) * width) by (nonlinear_arith)
            requires
                q == height * max / width,
                width > 0,
        ;
        assert(q <= max) by (nonlinear_arith)
            requires
                q == height * max / width,
                width > 0,
                height <= width,
                max > 0,
        ;
    } else {
        let q = width * max / height;
        assert(q * height <= width * max < (q + 1) * height) by (nonlinear_arith)
            requires
                q == width * max / height,
                height > 0,
        ;
        assert(q <= max) by (nonlinear_arith)
            requires
                q == width * max / height,
                height > 0,
                width < height,
                max > 0,
        ;
    }
}

/// How far a channel may drift from the others before a page counts as
/// colour: JPEG noise on a black-and-white scan is not colour.
pub const CHROMA_TOLERANCE: u8 = 12;

/// Roughly how many pixels to look at.
pub const SAMPLE_TARGET: u64 = 20000;

/// The distance between sampled pixels: one in every `total / 20000`.
pub open spec fn sample_step(total: int) -> int {
    if total / (SAMPLE_TARGET as int) >= 1 {
        total / (SAMPLE_TARGET as int)
    } else {
        1
    }
}

/// The index of the `k`-th sampled pixel.
pub open spec fn sample_at(step: int, k: int) -> int {
    k * step
}

/// The spread between the largest and smallest channel of pixel `i`.
pub open spec fn pixel_spread(px: Seq<u8>, i: int) -> int {
    let r = px[3 * i] as int;
    let g = px[3 * i + 1] as int;
    let b = px[3 * i + 2] as int;
    let hi = if r >= g && r >= b {
        r
    } else if g >= b {
        g
    } else {
        b
    };
    let lo = if r <= g && r <= b {
        r
    } else if g <= b {
        g
    } else {
        b
    };
    hi - lo
}

/// Whether a `width` by `height` page of `r, g, b` pixels is black and white:
/// not empty, and every sampled pixel within the chroma tolerance.
pub open spec fn grayscale_sample(width: int, height: int, px: Seq<u8>) -> bool {
    let total = width * height;
    let step = sample_step(total);
    &&& width > 0
    &&& height > 0
    &&& forall|k: int|
        0 <= k && #[trigger] sample_at(step, k) < total ==> pixel_spread(px, sample_at(step, k))
            <= CHROMA_TOLERANCE as int
}

/// Whether the pixels of a page are black and white, sampled rather than
/// exhaustive: a colour page is colour nearly everywhere it matters.
pub fn looks_grayscale_rgb(width: u32, height: u32, px: &[u8]) -> (r: bool)
    requires
        px@.len() >= 3 * (width as int * height as int),
    ensures
        r == grayscale_sample(width as int, height as int, px@),
{
    if width == 0 || height == 0 {
        return false;
    }
    proof {
        lemma_u32_product(width, height);
    }
    let total: u64 = width as u64 * height as u64;
    let step: u64 = if total / SAMPLE_TARGET >= 1 {
        total / SAMPLE_TARGET
    } else {
        1
    };
    let len: usize = px.len();
    proof {
        assert(3 * total <= len);
        assert(step as int == sample_step(total as int));
        assert(total >= 1) by (nonlinear_arith)
            requires
                width > 0,
                height > 0,
                total == width as int * height as int,
        ;
        assert(step <= total);
    }
    let ghost k: int = 0;
    let mut i: u64 = 0;
    while i < total
        invariant
            width > 0,
            height > 0,
            total == width * height,
            step as int == sample_step(total as int),
            1 <= step <= total,
            len == px@.len(),
            3 * total <= len,
            i as int == sample_at(step as int, k),
            0 <= k,
            i < total + step,
            forall|j: int|
                0 <= j < k ==> pixel_spread(px@, #[trigger] sample_at(step as int, j))
                    <= CHROMA_TOLERANCE as int,
            forall|j: int|
                0 <= j < k ==> #[trigger] sample_at(step as int, j) < total as int,
        decreases total + step - i,
    {
        let base: usize = (3 * i) as usize;
        let r = px[base];
        let g = px[base + 1];
        let b = px[base + 2];
        let hi = if r >= g && r >= b {
            r
        } else if g >= b {
            g
        } else {
            b
        };
        let lo = if r <= g && r <= b {
            r
        } else if g <= b {
            g
        } else {
            b
        };
        if hi - lo > CHROMA_TOLERANCE {
            proof {
                assert(pixel_spread(px@, sample_at(step as int, k)) > CHROMA_TOLERANCE as int);
            }
            return false;
        }
        proof {
            assert(sample_at(step as int, k + 1) == sample_at(step as int, k) + step) by (
            nonlinear_arith);
            k = k + 1;
        }
        i = i + step;
    }
    proof {
        assert forall|j: int|
            0 <= j && #[trigger] sample_at(step as int, j) < total implies pixel_spread(
            px@,
            sample_at(step as int, j),
        ) <= CHROMA_TOLERANCE as int by {
            if j >= k {
                assert(sample_at(step as int, j) >= sample_at(step as int, k)) by (nonlinear_arith)
                    requires
                        j >= k,
                        step >= 1,
                ;
            }
        }
    }
    true
}

/// Whether a page is black and white in everything but its encoding, judged
/// on its pixels as `to_rgb8` gives them.
pub open spec fn looks_grayscale_spec(image: DynamicImage) -> bool {
    let (w, h, px) = rgb_view(image);
    grayscale_sample(w as int, h as int, px)
}

/// Whether a page is black and white in everything but its encoding.
pub fn looks_grayscale(image: &DynamicImage) -> (r: bool)
    ensures
        r == looks_grayscale_spec(*image),
{
    let (width, height, px) = rgb_pixels(image);
    looks_grayscale_rgb(width, height, px.as_slice())
}

/// The dimensions a page of `width` by `height` is brought to: scaled to the
/// cap when its longest edge exceeds it, and otherwise left alone.
pub open spec fn fitted(settings: Compression, width: int, height: int) -> Option<(int, int)> {
    match settings.max_edge {
        Some(max) => if (if width >= height {
            width
        } else {
            height
        }) > max {
            Some(scaled_to_spec(width, height, max as int))
        } else {
            None
        },
        None => None,
    }
}

/// The JPEG quality actually used: the setting, kept within 1–100.
pub open spec fn quality_of(settings: Compression) -> int {
    if settings.quality < 1 {
        1
    } else if settings.quality > 100 {
        100
    } else {
        settings.quality as int
    }
}

/// The page that is encoded: the image resized to fit the cap when it is
/// larger, and otherwise the image itself.
pub open spec fn fitted_page(image: DynamicImage, settings: Compression) -> DynamicImage {
    let (w, h) = image_size(image);
    match fitted(settings, w as int, h as int) {
        Some((nw, nh)) => resized_image(image, nw as u32, nh as u32),
        None => image,
    }
}

/// What rendering gives: the fitted page's JPEG, greyscale when asked and
/// the page is black and white, with the page's width and height; or the
/// message saying which encoding failed.
pub open spec fn rendered_spec(image: DynamicImage, settings: Compression) -> Result<
    (Seq<u8>, u32, u32),
    Seq<char>,
> {
    let page = fitted_page(image, settings);
    let (w, h) = image_size(page);
    let q = quality_of(settings) as u8;
    if settings.grayscale && looks_grayscale_spec(page) {
        match luma_jpeg(page, q) {
            Some(b) => Ok((b, w, h)),
            None => Err("encoding greyscale page"@),
        }
    } else {
        match rgb_jpeg(page, q) {
            Some(b) => Ok((b, w, h)),
            None => Err("encoding page"@),
        }
    }
}

/// A render result as plain values.
pub open spec fn render_view(r: Result<Compressed, String>) -> Result<(Seq<u8>, u32, u32), Seq<char>> {
    match r {
        Ok(c) => Ok((c.bytes@, c.width, c.height)),
        Err(e) => Err(e@),
    }
}

/// Resize and encode an image already in memory: only ever downscaled, to fit
/// the cap, and stored as greyscale when asked and the page is black and
/// white. The error says which encoding failed.
pub fn render(image: &DynamicImage, settings: &Compression) -> (r: Result<Compressed, String>)
    ensures
        render_view(r) == rendered_spec(*image, *settings),
        r matches Ok(c) ==> match settings.max_edge {
            Some(m) => m >= 1 ==> c.width <= m && c.height <= m,
            None => true,
        },
        image_size(*image).0 >= 1 && image_size(*image).1 >= 1 ==> (r matches Ok(c) ==> c.width
            <= image_size(*image).0 && c.height <= image_size(*image).1),
{
    let (w, h) = dimensions(image);
    let resized = match settings.max_edge {
        Some(max) => {
            let longest = if w >= h {
                w
            } else {
                h
            };
            if longest > max {
                let (nw, nh) = scaled_to(w, h, max);
                Some(resize(image, nw, nh))
            } else {
                None
            }
        },
        None => None,
    };
    let page = match &resized {
        Some(smaller) => smaller,
        None => image,
    };
    assert(*page == fitted_page(*image, *settings));
    let (width, height) = dimensions(page);
    assert(match settings.max_edge {
        Some(m) => m >= 1 ==> width <= m && height <= m,
        None => true,
    });
    assert(w >= 1 && h >= 1 ==> width <= w && height <= h);
    let quality: u8 = if settings.quality < 1 {
        1
    } else if settings.quality > 100 {
        100
    } else {
        settings.quality
    };
    assert(quality == quality_of(*settings) as u8);
    if settings.grayscale && looks_grayscale(page) {
        match encode_luma(page, quality) {
            Ok(bytes) => Ok(Compressed { bytes, width, height }),
            Err(_) => {
                proof {
                    reveal_strlit("encoding greyscale page");
                }
                Err(String::from_str("encoding greyscale page"))
            },
        }
    } else {
        match encode_rgb(page, quality) {
            Ok(bytes) => Ok(Compressed { bytes, width, height }),
            Err(_) => {
                proof {
                    reveal_strlit("encoding page");
                }
                Err(String::from_str("encoding page"))
            },
        }
    }
}

/// What recompressing a page gives: its rendering when the settings change
/// something, the bytes decode, encoding succeeds and the result is smaller;
/// otherwise nothing, and the original is kept.
pub open spec fn compressed_of(original: Seq<u8>, settings: Compression) -> Option<(Seq<u8>, u32, u32)> {
    if settings.noop() || !decodes(original) {
        None
    } else {
        match rendered_spec(decoded(original).unwrap(), settings) {
            Ok((b, w, h)) => if b.len() < original.len() {
                Some((b, w, h))
            } else {
                None
            },
            Err(_) => None,
        }
    }
}

/// A recompressed page as plain values.
pub open spec fn compressed_view(r: Option<Compressed>) -> Option<(Seq<u8>, u32, u32)> {
    match r {
        Some(c) => Some((c.bytes@, c.width, c.height)),
        None => None,
    }
}

/// Recompress one page, or `None` to keep the original bytes: when the
/// settings change nothing, when the bytes do not decode, when encoding fails,
/// and when the result is no smaller than the original.
pub fn compress(original: &[u8], settings: &Compression) -> (r: Option<Compressed>)
    ensures
        settings.noop() ==> r is None,
        !decodes(original@) ==> r is None,
        r matches Some(c) ==> c.bytes@.len() < original@.len(),
        !settings.noop() && decodes(original@) ==> match rendered_spec(decoded(original@).unwrap(), *settings) {
            Ok((b, w, h)) => if b.len() < original@.len() {
                r matches Some(c) && c.bytes@ == b && c.width == w && c.height == h
            } else {
                r is None
            },
            Err(_) => r is None,
        },
        compressed_view(r) == compressed_of(original@, *settings),
        r matches Some(c) ==> match settings.max_edge {
            Some(m) => m >= 1 ==> c.width <= m && c.height <= m,
            None => true,
        },
        ({
            let (w, h) = image_size(decoded(original@).unwrap());
            w >= 1 && h >= 1 ==> (r matches Some(c) ==> c.width <= w && c.height <= h)
        }),
{
    if settings.is_noop() {
        return None;
    }
    let image = match decode(original) {
        Ok(image) => image,
        Err(_) => return None,
    };
    let compressed = match render(&image, settings) {
        Ok(c) => c,
        Err(_) => return None,
    };
    if compressed.bytes.len() >= original.len() {
        return None;
    }
    Some(compressed)
}

} // verus!
