//! Pages embedded in the markup as `data:` URIs rather than linked from it.
//!
//! A data URI needs no request at all, only decoding, so it is recognised,
//! measured and unpacked here. The scheme and the media type are read from
//! the characters of the reference; the payload is decoded from its UTF-8 bytes.
use vstd::prelude::*;

use crate::text::{
    chars_of, decimal, decimal_of, eq_str, find_bytes, find_char, find_char_from, find_from, is_space,
    lemma_find_char_from, lemma_find_from, lower_seq, lowered, push_all, push_str, slice_of, space,
    string_of, trim, trimmed,
};
use vstd::string::StringSliceAdditionalSpecFns;
use vstd::utf8::encode_utf8;

verus! {

/// Whether a reference carries its own bytes: it starts with `data:`, in any
/// case, and has something after it.
pub open spec fn data_uri_spec(r: Seq<char>) -> bool {
    r.len() > 5 && lower_seq(r.take(5)) == "data:"@
}

/// The media type a data URI declares: the header up to the first `;`,
/// trimmed and lowercased, or `text/plain` (the spec's default) when none.
pub open spec fn media_type_spec(uri: Seq<char>) -> Seq<char> {
    if uri.len() < 5 {
        "text/plain"@
    } else {
        let rest = uri.skip(5);
        let comma = find_char_from(rest, ',', 0);
        let header = if comma < 0 { rest } else { rest.take(comma) };
        let semi = find_char_from(header, ';', 0);
        let declared = trim(if semi < 0 { header } else { header.take(semi) });
        if declared.len() == 0 { "text/plain"@ } else { lower_seq(declared) }
    }
}

/// Whether a data URI claims to hold an image. An unlabelled one defaults to
/// `text/plain`, so it is not assumed to be a page.
pub open spec fn data_image_spec(r: Seq<char>) -> bool {
    data_uri_spec(r) && media_type_spec(r).len() >= 6 && media_type_spec(r).take(6) == "image/"@
}

/// Whether a reference carries its own bytes.
pub fn is_data_uri(reference: &str) -> (r: bool)
    ensures
        r == data_uri_spec(reference@),
{
    let v = chars_of(reference);
    if v.len() <= 5 {
        return false;
    }
    let head = lowered(&slice_of(&v, 0, 5));
    proof {
        assert(v@.subrange(0, 5) =~= v@.take(5));
    }
    eq_str(&head, "data:")
}

/// The declared media type, or the spec's default when none is given.
pub fn media_type(uri: &str) -> (r: String)
    ensures
        r@ == media_type_spec(uri@),
{
    let v = chars_of(uri);
    if v.len() < 5 {
        return String::from_str("text/plain");
    }
    let rest = slice_of(&v, 5, v.len());
    assert(rest@ =~= v@.skip(5));
    let header = match find_char(&rest, ',', 0) {
        Some(c) => {
            let h = slice_of(&rest, 0, c);
            assert(h@ =~= rest@.take(c as int));
            h
        },
        None => rest,
    };
    let declared_raw = match find_char(&header, ';', 0) {
        Some(c) => {
            let h = slice_of(&header, 0, c);
            assert(h@ =~= header@.take(c as int));
            h
        },
        None => header,
    };
    let declared = trimmed(&declared_raw);
    if declared.len() == 0 {
        String::from_str("text/plain")
    } else {
        string_of(lowered(&declared).as_slice())
    }
}

/// Whether it carries bytes that claim to be an image.
pub fn is_data_image(reference: &str) -> (r: bool)
    ensures
        r == data_image_spec(reference@),
{
    if !is_data_uri(reference) {
        return false;
    }
    let m = chars_of(media_type(reference).as_str());
    if m.len() < 6 {
        return false;
    }
    let head = slice_of(&m, 0, 6);
    assert(head@ =~= m@.take(6));
    eq_str(&head, "image/")
}

/// Why a data URI could not be decoded or accepted.
#[derive(Debug, Clone, Copy, PartialEq, Eq, Structural)]
pub enum DataUriError {
    /// Too short to be a data URI at all.
    NotDataUri,
    /// No comma separates the header from the payload.
    NoComma,
    /// The payload claims to be base64 and is not.
    BadBase64,
    /// A `%` escape runs past the end of the payload.
    TruncatedEscape,
    /// A `%` escape is not followed by hexadecimal digits.
    BadEscape,
    /// The embedded image would decode to more than the allowed size; the field
    /// is its approximate size in bytes.
    TooLarge { approx: usize },
}

/// The value of an ASCII hexadecimal digit.
pub open spec fn hex_value(b: u8) -> Option<u8> {
    if 48 <= b <= 57 {
        Some((b - 48) as u8)
    } else if 97 <= b <= 102 {
        Some((b - 87) as u8)
    } else if 65 <= b <= 70 {
        Some((b - 55) as u8)
    } else {
        None
    }
}

/// What a two-byte percent escape stands for, read as `u8::from_str_radix`
/// reads it in base 16: two hex digits, or a `+` and one.
pub open spec fn escape_value(a: u8, b: u8) -> Option<u8> {
    match (hex_value(a), hex_value(b)) {
        (Some(x), Some(y)) => Some((x * 16 + y) as u8),
        (None, Some(y)) => if a == 43 { Some(y) } else { None },
        _ => None,
    }
}

/// The bytes a percent-encoded payload stands for.
pub open spec fn percent_decoded(b: Seq<u8>) -> Result<Seq<u8>, DataUriError>
    decreases b.len(),
{
    if b.len() == 0 {
        Ok(Seq::empty())
    } else if b[0] == 37 {
        if b.len() < 3 {
            Err(DataUriError::TruncatedEscape)
        } else {
            match escape_value(b[1], b[2]) {
                Some(v) => match percent_decoded(b.skip(3)) {
                    Ok(rest) => Ok(seq![v] + rest),
                    Err(e) => Err(e),
                },
                None => Err(DataUriError::BadEscape),
            }
        }
    } else {
        match percent_decoded(b.skip(1)) {
            Ok(rest) => Ok(seq![b[0]] + rest),
            Err(e) => Err(e),
        }
    }
}

fn hex_digit(b: u8) -> (r: Option<u8>)
    ensures
        r == hex_value(b),
{
    if 48 <= b && b <= 57 {
        Some(b - 48)
    } else if 97 <= b && b <= 102 {
        Some(b - 87)
    } else if 65 <= b && b <= 70 {
        Some(b - 55)
    } else {
        None
    }
}

/// Decode a percent-encoded payload.
pub fn percent_decode(input: &[u8]) -> (r: Result<Vec<u8>, DataUriError>)
    ensures
        match r {
            Ok(v) => percent_decoded(input@) == Ok::<Seq<u8>, DataUriError>(v@),
            Err(e) => percent_decoded(input@) == Err::<Seq<u8>, DataUriError>(e),
        },
    decreases input@.len(),
{
    if input.len() == 0 {
        return Ok(Vec::new());
    }
    if input[0] == 37 {
        if input.len() < 3 {
            return Err(DataUriError::TruncatedEscape);
        }
        let v = match (hex_digit(input[1]), hex_digit(input[2])) {
            (Some(x), Some(y)) => x * 16 + y,
            (None, Some(y)) => if input[1] == 43 {
                y
            } else {
                return Err(DataUriError::BadEscape);
            },
            _ => return Err(DataUriError::BadEscape),
        };
        let (_, tail) = input.split_at(3);
        let rest = percent_decode(tail)?;
        let mut out: Vec<u8> = Vec::new();
        out.push(v);
        let mut rest = rest;
        out.append(&mut rest);
        Ok(out)
    } else {
        let (_, tail) = input.split_at(1);
        let rest = percent_decode(tail)?;
        let mut out: Vec<u8> = Vec::new();
        out.push(input[0]);
        let mut rest = rest;
        out.append(&mut rest);
        Ok(out)
    }
}

/// What the standard base64 engine (`+/` alphabet, padding accepted) decodes
/// the given bytes to, or `None` when they are not valid base64.
pub uninterp spec fn base64_decoded(input: Seq<u8>) -> Option<Seq<u8>>;

/// Decode standard base64.
///
/// Calls `base64::engine::general_purpose::STANDARD.decode`; the contract only
/// names its result.
#[verifier::external_body]
fn base64_decode(input: &[u8]) -> (r: Option<Vec<u8>>)
    ensures
        match r {
            Some(v) => base64_decoded(input@) == Some(v@),
            None => base64_decoded(input@) is None,
        },
{
    base64::Engine::decode(&base64::engine::general_purpose::STANDARD, input).ok()
}

/// The characters of `s` that are not white space, in order.
pub open spec fn without_space(s: Seq<char>) -> Seq<char>
    decreases s.len(),
{
    if s.len() == 0 {
        s
    } else if is_space(s.last()) {
        without_space(s.drop_last())
    } else {
        without_space(s.drop_last()).push(s.last())
    }
}

/// Whether any `;`-separated parameter of a header is `base64`, ignoring case
/// and surrounding white space.
pub open spec fn has_base64_param(h: Seq<char>) -> bool
    decreases h.len(),
{
    let semi = find_char_from(h, ';', 0);
    let part = if semi < 0 { h } else { h.take(semi) };
    lower_seq(trim(part)) == "base64"@ || (semi >= 0 && {
        proof {
            lemma_find_char_from(h, ';', 0);
        }
        has_base64_param(h.skip(semi + 1))
    })
}

/// What a data URI carries: base64 is decoded after dropping any white space
/// (a URI pretty-printed across lines is still the same image); anything else
/// is percent-decoded from its UTF-8 bytes.
pub open spec fn decoded_spec(uri: Seq<char>) -> Result<Seq<u8>, DataUriError> {
    if uri.len() < 5 {
        Err(DataUriError::NotDataUri)
    } else {
        let rest = uri.skip(5);
        let comma = find_char_from(rest, ',', 0);
        if comma < 0 {
            Err(DataUriError::NoComma)
        } else {
            let header = rest.take(comma);
            let payload = rest.skip(comma + 1);
            if has_base64_param(header) {
                match base64_decoded(encode_utf8(without_space(payload))) {
                    Some(b) => Ok(b),
                    None => Err(DataUriError::BadBase64),
                }
            } else {
                percent_decoded(encode_utf8(payload))
            }
        }
    }
}

fn base64_param(h: &Vec<char>) -> (r: bool)
    ensures
        r == has_base64_param(h@),
    decreases h@.len(),
{
    let hl = h.len();
    let semi = find_char(h, ';', 0);
    proof {
        lemma_find_char_from(h@, ';', 0);
    }
    let part = match semi {
        Some(s) => {
            let p = slice_of(h, 0, s);
            assert(p@ =~= h@.take(s as int));
            p
        },
        None => h.clone(),
    };
    let t = lowered(&trimmed(&part));
    if eq_str(&t, "base64") {
        return true;
    }
    match semi {
        Some(s) => {
            let rest = slice_of(h, s + 1, h.len());
            assert(rest@ =~= h@.skip(s + 1));
            base64_param(&rest)
        },
        None => false,
    }
}

fn drop_space(s: &Vec<char>) -> (r: Vec<char>)
    ensures
        r@ == without_space(s@),
{
    let mut r: Vec<char> = Vec::new();
    let mut i: usize = 0;
    while i < s.len()
        invariant
            i <= s@.len(),
            r@ == without_space(s@.take(i as int)),
        decreases s@.len() - i,
    {
        proof {
            assert(s@.take(i + 1).drop_last() =~= s@.take(i as int));
            assert(s@.take(i + 1).last() == s@[i as int]);
        }
        if !space(s[i]) {
            r.push(s[i]);
        }
        i = i + 1;
    }
    assert(s@.take(s@.len() as int) =~= s@);
    r
}

/// The bytes a data URI carries.
pub fn decode(uri: &str) -> (r: Result<Vec<u8>, DataUriError>)
    ensures
        match r {
            Ok(v) => decoded_spec(uri@) == Ok::<Seq<u8>, DataUriError>(v@),
            Err(e) => decoded_spec(uri@) == Err::<Seq<u8>, DataUriError>(e),
        },
{
    let v = chars_of(uri);
    if v.len() < 5 {
        return Err(DataUriError::NotDataUri);
    }
    let rest = slice_of(&v, 5, v.len());
    assert(rest@ =~= v@.skip(5));
    let comma = match find_char(&rest, ',', 0) {
        Some(c) => c,
        None => return Err(DataUriError::NoComma),
    };
    let header = slice_of(&rest, 0, comma);
    assert(header@ =~= rest@.take(comma as int));
    let payload = slice_of(&rest, comma + 1, rest.len());
    assert(payload@ =~= rest@.skip(comma + 1));
    if base64_param(&header) {
        let cleaned = string_of(drop_space(&payload).as_slice());
        match base64_decode(cleaned.as_str().as_bytes()) {
            Some(b) => Ok(b),
            None => Err(DataUriError::BadBase64),
        }
    } else {
        let p = string_of(payload.as_slice());
        percent_decode(p.as_str().as_bytes())
    }
}

/// How many bytes a data URI decodes to, roughly, without decoding it: the
/// UTF-8 length of its payload, or three bytes per four of it when the URI
/// mentions `;base64` anywhere.
pub open spec fn decoded_len_spec(b: Seq<u8>) -> nat {
    let comma = find_from(b, seq![44u8], 0);
    let payload = if comma < 0 { Seq::<u8>::empty() } else { b.skip(comma + 1) };
    if find_from(b, seq![59u8, 98u8, 97u8, 115u8, 101u8, 54u8, 52u8], 0) >= 0 {
        payload.len() / 4 * 3
    } else {
        payload.len()
    }
}

/// Roughly how many bytes a data URI decodes to, without decoding it.
pub fn decoded_len(uri: &str) -> (r: usize)
    ensures
        r == decoded_len_spec(uri.spec_bytes()),
{
    let b = uri.as_bytes();
    let comma: [u8; 1] = [44u8];
    let marker: [u8; 7] = [59u8, 98u8, 97u8, 115u8, 101u8, 54u8, 52u8];
    let c = find_bytes(b, comma.as_slice(), 0);
    assert(comma@ =~= seq![44u8]);
    assert(marker@ =~= seq![59u8, 98u8, 97u8, 115u8, 101u8, 54u8, 52u8]);
    proof {
        lemma_find_from(b@, seq![44u8], 0);
    }
    let payload_len: usize = match c {
        Some(i) => b.len() - i - 1,
        None => 0,
    };
    if find_bytes(b, marker.as_slice(), 0).is_some() {
        payload_len / 4 * 3
    } else {
        payload_len
    }
}

/// `n / d` rounded to the nearest whole number, ties to even, as `{:.0}` prints
/// the quotient.
pub open spec fn rounded(n: nat, d: nat) -> nat {
    let q = n / d;
    let r = n % d;
    if 2 * r > d || (2 * r == d && q % 2 == 1) { q + 1 } else { q }
}

fn round_div(n: usize, d: usize) -> (r: usize)
    requires
        d > 0,
    ensures
        r as nat == rounded(n as nat, d as nat),
{
    if d == 1 {
        return n;
    }
    let q = n / d;
    let r = n % d;
    assert(q <= n / 2) by (nonlinear_arith)
        requires
            d >= 2,
            q == n / d,
    {
    }
    if r > d - r || (r == d - r && q % 2 == 1) {
        q + 1
    } else {
        q
    }
}

/// `embedded <media type> (<n> KB)`: a short, readable stand-in for a data
/// URI, which never contains the payload itself.
pub open spec fn description(uri: &str) -> Seq<char> {
    "embedded "@ + media_type_spec(uri@) + " ("@ + decimal_of(
        rounded(decoded_len_spec(uri.spec_bytes()), 1024),
    ) + " KB)"@
}

/// A short, readable stand-in for a data URI.
pub fn describe(uri: &str) -> (r: String)
    ensures
        r@ == description(uri),
{
    let approx = decoded_len(uri);
    let mut out = chars_of("embedded ");
    push_str(&mut out, media_type(uri).as_str());
    push_str(&mut out, " (");
    push_all(&mut out, &decimal(round_div(approx, 1024) as u128));
    push_str(&mut out, " KB)");
    string_of(out.as_slice())
}

/// Refuse an embedded page large enough to mean something has gone wrong.
pub fn check_size(uri: &str, max: usize) -> (r: Result<(), DataUriError>)
    ensures
        r == if decoded_len_spec(uri.spec_bytes()) > max {
            Err(DataUriError::TooLarge { approx: decoded_len_spec(uri.spec_bytes()) as usize })
        } else {
            Ok(())
        },
{
    let approx = decoded_len(uri);
    if approx > max {
        Err(DataUriError::TooLarge { approx })
    } else {
        Ok(())
    }
}

} // verus!
