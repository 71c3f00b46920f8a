//! Output formats. Every writer consumes the same volume and differs only in
//! how it packages the pages.
use vstd::prelude::*;

use crate::compress::{self, Compression};
use image::DynamicImage;
use crate::page::{path_extension, Page, PageKind};
use crate::project::Direction;
use crate::text::{chars_of, eq_str, lower_seq, lowered, push_str, string_of};

pub mod archive;
pub mod cbz;
pub mod epub;
pub mod timestamp;

verus! {

/// Which writer pages are being rendered for. The two disagree about what they
/// can display: an EPUB full of WebP opens on a Kindle as blank pages.
#[derive(Debug, Clone, Copy, PartialEq, Eq, Structural)]
pub enum Target {
    Epub,
    Cbz,
}

/// One image as it will appear in the output: its bytes, the extension they
/// are stored under, and the dimensions the page is laid out at.
#[derive(Debug, Clone, PartialEq, Eq)]
pub struct Rendered {
    pub bytes: Vec<u8>,
    pub ext: &'static str,
    pub width: u32,
    pub height: u32,
}

/// Formats a Kindle can draw: JPEG, PNG, GIF and BMP — not WebP, not AVIF.
pub open spec fn kindle_can_draw(ext: Seq<char>) -> bool {
    ext == "jpg"@ || ext == "jpeg"@ || ext == "png"@ || ext == "gif"@ || ext == "bmp"@
}

/// Whether a page stored under `ext` must be re-encoded to be readable in
/// `target`. Only EPUB output ever converts; a CBZ reader handles WebP itself.
pub fn needs_conversion(ext: &str, target: Target) -> (r: bool)
    ensures
        r == (target == Target::Epub && !kindle_can_draw(ext@)),
{
    if target == Target::Cbz {
        return false;
    }
    let e = chars_of(ext);
    !(eq_str(&e, "jpg") || eq_str(&e, "jpeg") || eq_str(&e, "png") || eq_str(&e, "gif")
        || eq_str(&e, "bmp"))
}

/// The extension a page's original bytes are stored under.
pub open spec fn stored_ext_of(path: Seq<char>) -> Seq<char> {
    match path_extension(path) {
        Some(e) => if lower_seq(e) == "png"@ {
            "png"@
        } else if lower_seq(e) == "webp"@ {
            "webp"@
        } else if lower_seq(e) == "avif"@ {
            "avif"@
        } else {
            "jpg"@
        },
        None => "jpg"@,
    }
}

/// The extension a page's original bytes should be stored under.
pub fn stored_ext(page: &Page) -> (r: &'static str)
    ensures
        r@ == stored_ext_of(page.path@),
{
    let p = chars_of(page.path.as_str());
    let name = match crate::page::file_name_chars(&p) {
        Some(n) => n,
        None => return "jpg",
    };
    let ext = match crate::page::name_extension(&name) {
        Some(e) => e,
        None => return "jpg",
    };
    let e = lowered(&ext);
    if eq_str(&e, "png") {
        "png"
    } else if eq_str(&e, "webp") {
        "webp"
    } else if eq_str(&e, "avif") {
        "avif"
    } else {
        "jpg"
    }
}

/// The media type matching a stored extension.
pub open spec fn media_type_of(ext: Seq<char>) -> Seq<char> {
    if ext == "png"@ {
        "image/png"@
    } else if ext == "webp"@ {
        "image/webp"@
    } else if ext == "avif"@ {
        "image/avif"@
    } else {
        "image/jpeg"@
    }
}

/// The media type matching `stored_ext`.
pub fn media_type(ext: &str) -> (r: &'static str)
    ensures
        r@ == media_type_of(ext@),
{
    let e = chars_of(ext);
    if eq_str(&e, "png") {
        "image/png"
    } else if eq_str(&e, "webp") {
        "image/webp"
    } else if eq_str(&e, "avif") {
        "image/avif"
    } else {
        "image/jpeg"
    }
}

/// JPEG quality for the halves of a split spread when compression is off:
/// every spread is re-encoded once, and at the encoder's default of 75 the
/// screentones visibly mush.
pub const SPLIT_QUALITY: u8 = 92;

/// JPEG quality for a page converted because the reader cannot draw it.
pub const CONVERT_QUALITY: u8 = 92;

/// Whether a page is cut into two halves on export.
pub open spec fn must_split(page: Page) -> bool {
    page.split && page.kind == PageKind::Spread
}

/// `text` followed by the page's path, as an error message.
fn about_page(text: &str, page: &Page) -> (r: String)
    ensures
        r@ == text@ + page.path@,
{
    let mut out: Vec<char> = Vec::new();
    push_str(&mut out, text);
    push_str(&mut out, page.path.as_str());
    proof {
        assert(out@ =~= text@ + page.path@);
    }
    string_of(out.as_slice())
}

/// An output image as plain values: bytes, extension, width and height.
pub type ImageView = (Seq<u8>, Seq<char>, u32, u32);

/// A rendered image as plain values.
pub open spec fn image_view(r: Rendered) -> ImageView {
    (r.bytes@, r.ext@, r.width, r.height)
}

/// What making an image displayable gives: the image itself when the target
/// can draw it, otherwise its JPEG conversion, or the message saying which
/// step failed.
pub open spec fn displayable_of(x: ImageView, target: Target) -> Result<ImageView, Seq<char>> {
    if !(target == Target::Epub && !kindle_can_draw(x.1)) {
        Ok(x)
    } else if !decodes_page(x.0) {
        Err("decoding a "@ + x.1 + " page for conversion"@)
    } else {
        match compress::rendered_spec(compress::decoded(x.0).unwrap(), convert_settings()) {
            Ok((b, w, h)) => Ok((b, "jpg"@, w, h)),
            Err(_) => Err("converting page to JPEG"@),
        }
    }
}

/// A displayable result as plain values.
pub open spec fn displayed_view(r: Result<Rendered, String>) -> Result<ImageView, Seq<char>> {
    match r {
        Ok(p) => Ok(image_view(p)),
        Err(e) => Err(e@),
    }
}

/// The settings a page the reader cannot draw is re-encoded with: full size,
/// colour kept, at the conversion quality.
pub open spec fn convert_settings() -> Compression {
    Compression { max_edge: None, quality: CONVERT_QUALITY, grayscale: false }
}

/// A rendered page as the target can display it. EPUB pages in a format a
/// Kindle cannot draw are decoded and re-encoded as JPEG; everything else is
/// passed through unchanged.
pub fn make_displayable(rendered: Rendered, target: Target) -> (r: Result<Rendered, String>)
    ensures
        !(target == Target::Epub && !kindle_can_draw(rendered.ext@)) ==> r == Ok::<
            Rendered,
            String,
        >(rendered),
        target == Target::Epub && !kindle_can_draw(rendered.ext@) ==> {
            &&& !decodes_page(rendered.bytes@) ==> r is Err
            &&& r matches Ok(p) ==> p.ext@ == "jpg"@
            &&& decodes_page(rendered.bytes@) ==> match compress::rendered_spec(
                compress::decoded(rendered.bytes@).unwrap(),
                convert_settings(),
            ) {
                Ok((b, w, h)) => r matches Ok(p) && p.bytes@ == b && p.width == w && p.height == h,
                Err(_) => r is Err,
            }
        },
        displayed_view(r) == displayable_of(image_view(rendered), target),
{
    if !needs_conversion(rendered.ext, target) {
        return Ok(rendered);
    }
    let image = match compress::decode(rendered.bytes.as_slice()) {
        Ok(image) => image,
        Err(_) => {
            let mut out: Vec<char> = Vec::new();
            push_str(&mut out, "decoding a ");
            push_str(&mut out, rendered.ext);
            push_str(&mut out, " page for conversion");
            return Err(string_of(out.as_slice()));
        },
    };
    let settings = Compression { max_edge: None, quality: CONVERT_QUALITY, grayscale: false };
    assert(settings == convert_settings());
    match compress::render(&image, &settings) {
        Ok(encoded) => Ok(
            Rendered {
                bytes: encoded.bytes,
                ext: "jpg",
                width: encoded.width,
                height: encoded.height,
            },
        ),
        Err(_) => Err(String::from_str("converting page to JPEG")),
    }
}

/// Whether these bytes decode as an image.
pub open spec fn decodes_page(bytes: Seq<u8>) -> bool {
    compress::decodes(bytes)
}

/// The settings the halves of a split spread are encoded with: the volume's
/// own, or, with compression off, an explicit quality and nothing else.
pub open spec fn split_settings(compression: Compression) -> Compression {
    if compression.noop() {
        Compression { max_edge: None, quality: SPLIT_QUALITY, grayscale: false }
    } else {
        compression
    }
}

/// The image an unsplit page becomes before the target is considered: its
/// recompression when that is smaller, otherwise the original bytes under the
/// page's own extension and dimensions.
pub open spec fn unsplit_image(page: Page, original: Seq<u8>, compression: Compression) -> ImageView {
    match compress::compressed_of(original, compression) {
        Some((b, w, h)) => (b, "jpg"@, w, h),
        None => (original, stored_ext_of(page.path@), page.width, page.height),
    }
}

/// The two halves of a spread, cut at half its width (rounded down), in
/// reading order: the right half first for a right-to-left volume.
pub open spec fn split_halves(image: DynamicImage, direction: Direction) -> (
    DynamicImage,
    DynamicImage,
) {
    let (w, h) = compress::image_size(image);
    let half = (w / 2) as u32;
    let left = compress::cropped_image(image, 0, 0, half, h);
    let right = compress::cropped_image(image, half, 0, (w - half) as u32, h);
    match direction {
        Direction::RightToLeft => (right, left),
        Direction::LeftToRight => (left, right),
    }
}

/// The images written for one page, or the message saying what failed.
pub open spec fn page_output(
    page: Page,
    original: Seq<u8>,
    direction: Direction,
    compression: Compression,
    target: Target,
) -> Result<Seq<ImageView>, Seq<char>> {
    if !must_split(page) {
        match displayable_of(unsplit_image(page, original, compression), target) {
            Ok(x) => Ok(seq![x]),
            Err(e) => Err(e),
        }
    } else if !decodes_page(original) {
        Err("decoding "@ + page.path@)
    } else {
        let (first, second) = split_halves(compress::decoded(original).unwrap(), direction);
        let settings = split_settings(compression);
        match (compress::rendered_spec(first, settings), compress::rendered_spec(second, settings)) {
            (Ok((a, aw, ah)), Ok((b, bw, bh))) => Ok(
                seq![(a, "jpg"@, aw, ah), (b, "jpg"@, bw, bh)],
            ),
            _ => Err("encoding split half"@),
        }
    }
}

/// A page's rendering as plain values.
pub open spec fn pages_view(r: Result<Vec<Rendered>, String>) -> Result<Seq<ImageView>, Seq<char>> {
    match r {
        Ok(v) => Ok(v@.map_values(|p: Rendered| image_view(p))),
        Err(e) => Err(e@),
    }
}

/// The images to write for one page, from the bytes of its file, expanding a
/// split spread into two halves in reading order.
///
/// An unsplit page is recompressed when that makes it smaller and otherwise
/// passed through byte for byte; with compression off and a format the target
/// can draw, it is always passed through. A split spread is decoded, cut at
/// half its width, and each half encoded as JPEG, the right half first for a
/// right-to-left volume.
pub fn render_page(
    page: &Page,
    original: Vec<u8>,
    direction: Direction,
    compression: &Compression,
    target: Target,
) -> (r: Result<Vec<Rendered>, String>)
    ensures
        must_split(*page) ==> {
            &&& !decodes_page(original@) ==> r is Err
            &&& r matches Ok(v) ==> v@.len() == 2 && v@[0].ext@ == "jpg"@ && v@[1].ext@ == "jpg"@
        },
        !must_split(*page) ==> (r matches Ok(v) ==> v@.len() == 1),
        !must_split(*page) && compression.noop() && !(target == Target::Epub && !kindle_can_draw(
            stored_ext_of(page.path@),
        )) ==> (r matches Ok(v) && v@.len() == 1 && v@[0].bytes@ == original@ && v@[0].ext@
            == stored_ext_of(page.path@) && v@[0].width == page.width && v@[0].height
            == page.height),
        pages_view(r) == page_output(*page, original@, direction, *compression, target),
{
    let split = page.split && page.kind == PageKind::Spread;
    if !split {
        let ghost bytes = original@;
        let rendered = match compress::compress(original.as_slice(), compression) {
            Some(smaller) => Rendered {
                bytes: smaller.bytes,
                ext: "jpg",
                width: smaller.width,
                height: smaller.height,
            },
            None => Rendered {
                bytes: original,
                ext: stored_ext(page),
                width: page.width,
                height: page.height,
            },
        };
        assert(image_view(rendered) == unsplit_image(*page, bytes, *compression));
        return match make_displayable(rendered, target) {
            Ok(shown) => {
                let mut v: Vec<Rendered> = Vec::new();
                v.push(shown);
                assert(v@.map_values(|p: Rendered| image_view(p)) =~= seq![image_view(shown)]);
                Ok(v)
            },
            Err(e) => Err(e),
        };
    }
    let image = match compress::decode(original.as_slice()) {
        Ok(image) => image,
        Err(_) => return Err(about_page("decoding ", page)),
    };
    let (width, height) = compress::dimensions(&image);
    let half = width / 2;
    let left = compress::crop(&image, 0, 0, half, height);
    let right = compress::crop(&image, half, 0, width - half, height);
    let settings = if compression.is_noop() {
        Compression { max_edge: None, quality: SPLIT_QUALITY, grayscale: false }
    } else {
        *compression
    };
    let (first, second) = match direction {
        Direction::RightToLeft => (right, left),
        Direction::LeftToRight => (left, right),
    };
    assert(settings == split_settings(*compression));
    assert((first, second) == split_halves(image, direction));
    let a = match compress::render(&first, &settings) {
        Ok(encoded) => encoded,
        Err(_) => return Err(String::from_str("encoding split half")),
    };
    let b = match compress::render(&second, &settings) {
        Ok(encoded) => encoded,
        Err(_) => return Err(String::from_str("encoding split half")),
    };
    let mut v: Vec<Rendered> = Vec::new();
    v.push(Rendered { bytes: a.bytes, ext: "jpg", width: a.width, height: a.height });
    v.push(Rendered { bytes: b.bytes, ext: "jpg", width: b.width, height: b.height });
    assert(v@.map_values(|p: Rendered| image_view(p)) =~= seq![image_view(v@[0]), image_view(v@[1])]);
    Ok(v)
}

/// XML escape of one character.
pub open spec fn esc_char(c: char) -> Seq<char> {
    if c == '&' {
        "&amp;"@
    } else if c == '<' {
        "&lt;"@
    } else if c == '>' {
        "&gt;"@
    } else if c == '"' {
        "&quot;"@
    } else if c == '\'' {
        "&apos;"@
    } else {
        seq![c]
    }
}

/// A text with the five XML predefined entities escaped.
pub open spec fn esc_of(s: Seq<char>) -> Seq<char>
    decreases s.len(),
{
    if s.len() == 0 {
        Seq::empty()
    } else {
        esc_of(s.drop_last()) + esc_char(s.last())
    }
}

/// Append the XML escape of `s` to `out`.
pub fn push_escaped(out: &mut Vec<char>, s: &str)
    ensures
        final(out)@ == old(out)@ + esc_of(s@),
{
    let v = chars_of(s);
    let ghost base = out@;
    let mut i: usize = 0;
    while i < v.len()
        invariant
            i <= v@.len(),
            v@ == s@,
            base == old(out)@,
            out@ == base + esc_of(v@.take(i as int)),
        decreases v@.len() - i,
    {
        let c = v[i];
        proof {
            assert(v@.take(i + 1).drop_last() =~= v@.take(i as int));
            assert(v@.take(i + 1).last() == c);
        }
        if c == '&' {
            push_str(out, "&amp;");
        } else if c == '<' {
            push_str(out, "&lt;");
        } else if c == '>' {
            push_str(out, "&gt;");
        } else if c == '"' {
            push_str(out, "&quot;");
        } else if c == '\'' {
            push_str(out, "&apos;");
        } else {
            out.push(c);
        }
        proof {
            assert(out@ =~= base + esc_of(v@.take(i + 1)));
        }
        i = i + 1;
    }
    assert(v@.take(v@.len() as int) =~= v@);
}

/// Escape the five XML predefined entities.
pub fn esc(s: &str) -> (r: String)
    ensures
        r@ == esc_of(s@),
{
    let mut out: Vec<char> = Vec::new();
    push_escaped(&mut out, s);
    assert(out@ =~= esc_of(s@));
    string_of(out.as_slice())
}

} // verus!
