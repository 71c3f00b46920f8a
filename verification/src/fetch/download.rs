//! Fetching candidate images: what a reply says about an image, and whether
//! the bytes that came back are one.
//!
//! The requests themselves are sent by the caller; what is decided here is
//! which headers go with them, how a probe's reply is read, and what a
//! downloaded body is stored as.
use vstd::prelude::*;

use image::ImageError;

use super::series::all_digits;
use super::url::{origin_of, origin_text};
use crate::text::{chars_of, is_digit, lower_seq, lowered, push_str, string_of, starts_with, trim, trimmed};

verus! {

/// Refuse anything big enough to mean the wrong link was followed.
pub const MAX_IMAGE_BYTES: usize = 64 * 1024 * 1024;

/// Enough of a file to carry the header of every accepted format.
pub const PROBE_BYTES: usize = 64 * 1024;

/// What a probe learned about one candidate.
#[derive(Debug, Clone, PartialEq, Eq)]
pub struct Probe {
    pub width: u32,
    pub height: u32,
    /// Full size in bytes when the server reported one, else 0.
    pub bytes: u64,
    /// Why the probe failed, when it did.
    pub error: Option<String>,
}

impl Probe {
    /// A probe that failed for the given reason: nothing measured.
    pub fn failed(reason: String) -> (r: Probe)
        ensures
            r.width == 0 && r.height == 0 && r.bytes == 0,
            r.error == Some(reason),
    {
        Probe { width: 0, height: 0, bytes: 0, error: Some(reason) }
    }
}

/// The value of a run of decimal digits.
pub open spec fn digits_number(s: Seq<char>) -> nat
    decreases s.len(),
{
    if s.len() == 0 {
        0
    } else {
        digits_number(s.drop_last()) * 10 + (s.last() as int - '0' as int) as nat
    }
}

/// A whole number as `u64::from_str` reads it: an optional `+`, then one or
/// more digits, the value fitting a `u64`.
pub open spec fn u64_text(s: Seq<char>) -> Option<u64> {
    let d = if s.len() > 0 && s[0] == '+' {
        s.skip(1)
    } else {
        s
    };
    if d.len() > 0 && all_digits(d) && digits_number(d) <= u64::MAX {
        Some(digits_number(d) as u64)
    } else {
        None
    }
}

/// A whole number read as `u64::from_str` reads it.
pub fn parse_u64(s: &Vec<char>) -> (r: Option<u64>)
    ensures
        r == u64_text(s@),
{
    let start: usize = if s.len() > 0 && s[0] == '+' {
        1
    } else {
        0
    };
    let ghost d = if s@.len() > 0 && s@[0] == '+' {
        s@.skip(1)
    } else {
        s@
    };
    assert(d =~= s@.skip(start as int));
    if start >= s.len() {
        return None;
    }
    let mut value: u64 = 0;
    let mut i = start;
    while i < s.len()
        invariant
            start <= i <= s@.len(),
            d == s@.skip(start as int),
            d == (if s@.len() > 0 && s@[0] == '+' {
                s@.skip(1)
            } else {
                s@
            }),
            forall|k: int| start <= k < i ==> is_digit(s@[k]),
            value as nat == digits_number(s@.subrange(start as int, i as int)),
        decreases s@.len() - i,
    {
        let c = s[i];
        if !('0' <= c && c <= '9') {
            proof {
                assert(d[i - start] == c);
                assert(!is_digit(d[i - start]));
                assert(!all_digits(d));
                assert(u64_text(s@) is None);
            }
            return None;
        }
        let digit = (c as u32 - '0' as u32) as u64;
        proof {
            assert(s@.subrange(start as int, i + 1).drop_last() =~= s@.subrange(
                start as int,
                i as int,
            ));
        }
        if value > 1844674407370955161 || (value == 1844674407370955161 && digit > 5) {
            proof {
                let pre = s@.subrange(start as int, i + 1);
                assert(pre.last() == c);
                assert(digits_number(pre) == value * 10 + digit);
                assert(digits_number(pre) > u64::MAX);
                assert(pre =~= d.take(i + 1 - start));
                if all_digits(d) {
                    lemma_digits_number_prefix(d, i + 1 - start);
                }
            }
            return None;
        }
        proof {
            let pre = s@.subrange(start as int, i + 1);
            assert(pre.last() == c);
            assert(digits_number(pre) == value * 10 + digit);
        }
        value = value * 10 + digit;
        i = i + 1;
    }
    proof {
        assert(s@.subrange(start as int, i as int) =~= d);
        assert(all_digits(d));
    }
    Some(value)
}

/// A number's digits never shrink as more are read.
pub proof fn lemma_digits_number_prefix(d: Seq<char>, n: int)
    requires
        0 <= n <= d.len(),
        forall|k: int| 0 <= k < d.len() ==> is_digit(d[k]),
    ensures
        digits_number(d.take(n)) <= digits_number(d),
    decreases d.len() - n,
{
    if n < d.len() {
        lemma_digits_number_prefix(d, n + 1);
        assert(d.take(n + 1).drop_last() =~= d.take(n));
    } else {
        assert(d.take(n) =~= d);
    }
}

/// What follows the last `/` of a header (the whole header when it has none).
pub open spec fn after_last_slash(s: Seq<char>) -> Seq<char>
    decreases s.len(),
{
    if s.len() == 0 {
        s
    } else if s.last() == '/' {
        Seq::empty()
    } else {
        after_last_slash(s.drop_last()).push(s.last())
    }
}

/// The total size a `Content-Range: bytes 0-63/1048576` header reports.
pub open spec fn range_total(header: Option<Seq<char>>) -> Option<u64> {
    match header {
        Some(h) => u64_text(trim(after_last_slash(h))),
        None => None,
    }
}

/// The total size a `Content-Range` header reports.
pub fn content_range_total(header: Option<&str>) -> (r: Option<u64>)
    ensures
        r == range_total(match header {
            Some(h) => Some(h@),
            None => None,
        }),
{
    let h = match header {
        Some(h) => chars_of(h),
        None => return None,
    };
    let mut start = h.len();
    proof {
        assert(h@.take(start as int) =~= h@);
        assert(h@.skip(start as int) =~= Seq::<char>::empty());
        assert(after_last_slash(h@) =~= after_last_slash(h@.take(start as int)) + h@.skip(
            start as int,
        ));
    }
    while start > 0 && h[start - 1] != '/'
        invariant
            start <= h@.len(),
            after_last_slash(h@) == after_last_slash(h@.take(start as int)) + h@.skip(
                start as int,
            ),
        decreases start,
    {
        proof {
            let t = h@.take(start as int);
            assert(t.drop_last() =~= h@.take(start - 1));
            assert(h@.skip(start - 1) =~= seq![t.last()] + h@.skip(start as int));
            assert(after_last_slash(h@.take(start - 1)).push(t.last()) + h@.skip(start as int)
                =~= after_last_slash(h@.take(start - 1)) + h@.skip(start - 1));
        }
        start = start - 1;
    }
    proof {
        if start > 0 {
            assert(h@.take(start as int).last() == '/');
        }
        assert(after_last_slash(h@.take(start as int)) == Seq::<char>::empty());
        assert(after_last_slash(h@) =~= h@.skip(start as int));
    }
    let tail = crate::text::slice_of(&h, start, h.len());
    assert(tail@ =~= h@.skip(start as int));
    parse_u64(&trimmed(&tail))
}

/// The size a probe reports: the `Content-Range` total, else the
/// `Content-Length`.
pub open spec fn reported_total(range: Option<Seq<char>>, length: Option<Seq<char>>) -> Option<u64> {
    match range_total(range) {
        Some(n) => Some(n),
        None => match length {
            Some(l) => u64_text(l),
            None => None,
        },
    }
}

/// The dimensions an image's header declares, as `image::ImageReader`
/// reads them with the format guessed from the bytes.
pub uninterp spec fn header_size(bytes: Seq<u8>) -> Option<(u32, u32)>;

/// `image::ImageReader::with_guessed_format` then `into_dimensions` on the
/// first bytes of a file: the dimensions its header declares.
#[verifier::external_body]
fn header_dimensions(head: &[u8]) -> (r: Result<(u32, u32), ImageError>)
    ensures
        r is Ok <==> header_size(head@) is Some,
        r matches Ok(d) ==> header_size(head@) == Some(d),
{
    image::ImageReader::new(std::io::Cursor::new(head))
        .with_guessed_format()
        .map_err(ImageError::IoError)?
        .into_dimensions()
}

/// `ImageError`'s `Display` text.
#[verifier::external_body]
fn error_text(e: &ImageError) -> String {
    e.to_string()
}

/// What a probe's reply says about an image: its dimensions from the first
/// bytes, its full size from the headers. The content type only shapes the
/// message when the header cannot be read, since plenty of servers mislabel
/// images and the bytes are the authority.
pub fn probe_reply(
    content_type: &str,
    content_range: Option<&str>,
    content_length: Option<&str>,
    head: &[u8],
) -> (r: Result<Probe, String>)
    ensures
        r is Ok <==> header_size(head@) is Some,
        r matches Ok(p) ==> ({
            &&& header_size(head@) == Some((p.width, p.height))
            &&& p.bytes == match reported_total(
                match content_range {
                    Some(h) => Some(h@),
                    None => None,
                },
                match content_length {
                    Some(h) => Some(h@),
                    None => None,
                },
            ) {
                Some(n) => n,
                None => 0,
            }
            &&& p.error is None
        }),
{
    let total = match content_range_total(content_range) {
        Some(n) => Some(n),
        None => match content_length {
            Some(l) => parse_u64(&chars_of(l)),
            None => None,
        },
    };
    match header_dimensions(head) {
        Ok((width, height)) => Ok(
            Probe {
                width,
                height,
                bytes: match total {
                    Some(n) => n,
                    None => 0,
                },
                error: None,
            },
        ),
        Err(e) => {
            let declared = lowered(&chars_of(content_type));
            let mut out: Vec<char> = Vec::new();
            if crate::text::begins_with(&declared, "text/") {
                push_str(&mut out, "that URL served ");
                crate::text::push_all(&mut out, &declared);
                push_str(&mut out, ", not an image");
            } else {
                push_str(&mut out, "could not read the image header");
            }
            push_str(&mut out, ": ");
            push_str(&mut out, error_text(&e).as_str());
            Err(string_of(out.as_slice()))
        },
    }
}

/// An image format, as far as storing it goes.
#[derive(Debug, Clone, Copy, PartialEq, Eq, Structural)]
pub enum ImageKind {
    Png,
    WebP,
    Avif,
    /// Anything else the decoder recognises.
    Other,
}

/// The format `image::guess_format` recognises in a file's bytes.
pub uninterp spec fn guessed_kind(bytes: Seq<u8>) -> Option<ImageKind>;

/// `image::guess_format`: the format recognised from a file's leading bytes,
/// or `None` when none is.
#[verifier::external_body]
fn guess_kind(bytes: &[u8]) -> (r: Option<ImageKind>)
    ensures
        r == guessed_kind(bytes@),
{
    match image::guess_format(bytes) {
        Ok(image::ImageFormat::Png) => Some(ImageKind::Png),
        Ok(image::ImageFormat::WebP) => Some(ImageKind::WebP),
        Ok(image::ImageFormat::Avif) => Some(ImageKind::Avif),
        Ok(_) => Some(ImageKind::Other),
        Err(_) => None,
    }
}

/// The extension an image of a format is stored under: anything but PNG,
/// WebP and AVIF is stored as JPEG, which is what it almost always is.
pub open spec fn extension_of(kind: ImageKind) -> Seq<char> {
    match kind {
        ImageKind::Png => "png"@,
        ImageKind::WebP => "webp"@,
        ImageKind::Avif => "avif"@,
        ImageKind::Other => "jpg"@,
    }
}

/// The extension an image of a format is stored under.
pub fn extension_for(kind: ImageKind) -> (r: &'static str)
    ensures
        r@ == extension_of(kind),
{
    match kind {
        ImageKind::Png => "png",
        ImageKind::WebP => "webp",
        ImageKind::Avif => "avif",
        ImageKind::Other => "jpg",
    }
}

/// A downloaded body accepted as an image, with the extension to store it
/// under: refused when it is over the size limit or its bytes are no image
/// format, whatever the server declared. The bytes decide the extension, so a
/// WebP served as `image/jpeg` is still stored as `.webp`.
pub fn accept_image(declared: &str, bytes: Vec<u8>) -> (r: Result<(Vec<u8>, &'static str), String>)
    ensures
        bytes@.len() > MAX_IMAGE_BYTES ==> r is Err,
        bytes@.len() <= MAX_IMAGE_BYTES ==> (r is Ok <==> guessed_kind(bytes@) is Some),
        r matches Ok((b, ext)) ==> b@ == bytes@ && ext@ == extension_of(
            guessed_kind(bytes@).unwrap(),
        ),
{
    if bytes.len() > MAX_IMAGE_BYTES {
        return Err(String::from_str("image is over 64 MB"));
    }
    match guess_kind(bytes.as_slice()) {
        Some(kind) => Ok((bytes, extension_for(kind))),
        None => {
            let d = lowered(&chars_of(declared));
            if crate::text::begins_with(&d, "text/") {
                let mut out: Vec<char> = Vec::new();
                push_str(&mut out, "that URL served ");
                crate::text::push_all(&mut out, &d);
                push_str(&mut out, ", not an image");
                Err(string_of(out.as_slice()))
            } else {
                Err(String::from_str("could not recognise the image format"))
            }
        },
    }
}

/// What image hosts are asked for.
pub open spec fn accept_header() -> Seq<char> {
    "image/avif,image/webp,image/*,*/*;q=0.8"@
}

/// The headers an image request carries: who asks, what it accepts, and,
/// when the image is fetched for a page, that page as the referer and its
/// origin, since many hosts refuse a request that does not look like it came
/// from the page.
pub open spec fn request_headers_spec(agent: Seq<char>, referer: Option<Seq<char>>) -> Seq<
    (Seq<char>, Seq<char>),
> {
    seq![("User-Agent"@, agent), ("Accept"@, accept_header())] + match referer {
        Some(r) => seq![("Referer"@, r)] + match origin_text(r) {
            Some(o) => seq![("Origin"@, o)],
            None => Seq::empty(),
        },
        None => Seq::empty(),
    }
}

/// The headers an image request carries.
pub fn request_headers(agent: &str, referer: Option<&str>) -> (r: Vec<(String, String)>)
    ensures
        r@.map_values(|h: (String, String)| (h.0@, h.1@)) == request_headers_spec(
            agent@,
            match referer {
                Some(s) => Some(s@),
                None => None,
            },
        ),
{
    let mut headers: Vec<(String, String)> = Vec::new();
    headers.push((String::from_str("User-Agent"), String::from_str(agent)));
    headers.push(
        (String::from_str("Accept"), String::from_str("image/avif,image/webp,image/*,*/*;q=0.8")),
    );
    match referer {
        Some(r) => {
            headers.push((String::from_str("Referer"), String::from_str(r)));
            match origin_of(r) {
                Some(o) => headers.push((String::from_str("Origin"), o)),
                None => {},
            }
        },
        None => {},
    }
    assert(headers@.map_values(|h: (String, String)| (h.0@, h.1@)) =~= request_headers_spec(
        agent@,
        match referer {
            Some(s) => Some(s@),
            None => None,
        },
    ));
    headers
}

} // verus!
