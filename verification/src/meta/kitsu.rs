//! Kitsu, asked when MangaDex cannot be reached: English titles directly,
//! but a single series poster and no volume-level data.
use vstd::prelude::*;

use super::json::{items, items_of, member, member_in, member_of, or_null, text, text_of, Json};
use super::mangadex::{clamp, clamped, number_text};
use super::{opt_text, param_views, series_views, CoverView, ParamView, Request, SeriesMatch, SeriesView, Source};
use crate::text::{chars_of, decimal_of, is_digit, push_str, string_of};

verus! {

/// The API's address.
pub open spec fn api() -> Seq<char> {
    "https://kitsu.io/api/edge"@
}

/// The search for a title: between one and twenty results.
pub open spec fn search_request(query: Seq<char>, limit: u32) -> (Seq<char>, Seq<ParamView>) {
    (
        api() + "/manga"@,
        seq![("filter[text]"@, query), ("page[limit]"@, decimal_of(clamped(limit, 1, 20) as nat))],
    )
}

/// The search for a title.
pub fn search(query: &str, limit: u32) -> (r: Request)
    ensures
        r@ == search_request(query@, limit),
{
    let mut params: Vec<(String, String)> = Vec::new();
    params.push((String::from_str("filter[text]"), String::from_str(query)));
    params.push((String::from_str("page[limit]"), number_text(clamp(limit, 1, 20))));
    let r = Request { url: String::from_str("https://kitsu.io/api/edge/manga"), params };
    proof {
        reveal_strlit("https://kitsu.io/api/edge/manga");
        reveal_strlit("https://kitsu.io/api/edge");
        reveal_strlit("/manga");
        assert(r.url@ =~= api() + "/manga"@);
        assert(param_views(r.params@) =~= search_request(query@, limit).1);
    }
    r
}

/// The value of four decimal digits.
pub open spec fn digits4(d: Seq<char>) -> int {
    ((d[0] as int - '0' as int) * 1000 + (d[1] as int - '0' as int) * 100 + (d[2] as int - '0' as int)
        * 10 + (d[3] as int - '0' as int))
}

/// The year a start date begins with: its first four bytes read as a whole
/// number, which succeeds only for four ASCII digits, or `+` and three.
pub open spec fn year_of(date: Seq<char>) -> Option<u32> {
    if date.len() >= 4 && is_digit(date[1]) && is_digit(date[2]) && is_digit(date[3]) {
        if is_digit(date[0]) {
            Some(digits4(date) as u32)
        } else if date[0] == '+' {
            Some(digits4(seq!['0'] + date.subrange(1, 4)) as u32)
        } else {
            None
        }
    } else {
        None
    }
}

/// The year a start date begins with.
fn year(date: &String) -> (r: Option<u32>)
    ensures
        r == year_of(date@),
{
    let d = chars_of(date.as_str());
    if d.len() < 4 {
        return None;
    }
    let (a, b, c, e) = (d[0], d[1], d[2], d[3]);
    if !(('0' <= b && b <= '9') && ('0' <= c && c <= '9') && ('0' <= e && e <= '9')) {
        return None;
    }
    let tail: u32 = (b as u32 - '0' as u32) * 100 + (c as u32 - '0' as u32) * 10 + (e as u32
        - '0' as u32);
    if '0' <= a && a <= '9' {
        Some((a as u32 - '0' as u32) * 1000 + tail)
    } else if a == '+' {
        proof {
            let z = seq!['0'] + d@.subrange(1, 4);
            assert(z[0] == '0' && z[1] == b && z[2] == c && z[3] == e);
        }
        Some(tail)
    } else {
        None
    }
}

/// The text at `value[a][b]`, owned.
fn text_at2(value: Option<&Json>, a: &str, b: &str) -> (r: Option<String>)
    ensures
        opt_text(r) == text_of(member_of(member_of(or_null(value), a@), b@)),
{
    match text(member_in(member_in(value, a), b)) {
        Some(t) => Some(t.clone()),
        None => None,
    }
}

/// One catalogue entry read as a series; entries without an id are skipped.
/// Kitsu names no author or artist without a second round trip, nor a
/// demographic.
pub open spec fn series_spec(item: Json) -> Option<SeriesView> {
    match text_of(member_of(item, "id"@)) {
        None => None,
        Some(id) => {
            let attrs = member_of(item, "attributes"@);
            let titles = member_of(attrs, "titles"@);
            let poster = member_of(attrs, "posterImage"@);
            Some(
                SeriesView {
                    source: Source::Kitsu,
                    id,
                    title_english: text_of(member_of(titles, "en"@)),
                    title_romaji: text_of(member_of(titles, "en_jp"@)),
                    title_native: text_of(member_of(titles, "ja_jp"@)),
                    author: None,
                    artist: None,
                    description: text_of(member_of(attrs, "synopsis"@)),
                    year: match text_of(member_of(attrs, "startDate"@)) {
                        Some(d) => year_of(d),
                        None => None,
                    },
                    status: text_of(member_of(attrs, "status"@)),
                    demographic: None,
                    thumbnail_url: match text_of(member_of(poster, "small"@)) {
                        Some(s) => Some(s),
                        None => text_of(member_of(poster, "original"@)),
                    },
                    site_url: match text_of(member_of(attrs, "slug"@)) {
                        Some(s) => Some("https://kitsu.app/manga/"@ + s),
                        None => None,
                    },
                },
            )
        },
    }
}

/// One catalogue entry read as a series, or `None` without an id.
pub fn parse_series(item: &Json) -> (r: Option<SeriesMatch>)
    ensures
        match r {
            Some(m) => series_spec(*item) == Some(m@),
            None => series_spec(*item) is None,
        },
{
    let id = match text(member(item, "id")) {
        Some(id) => id.clone(),
        None => return None,
    };
    let attrs = member(item, "attributes");
    let year = match text(member_in(attrs, "startDate")) {
        Some(d) => year(d),
        None => None,
    };
    let thumbnail_url = match text_at2(attrs, "posterImage", "small") {
        Some(s) => Some(s),
        None => text_at2(attrs, "posterImage", "original"),
    };
    let site_url = match text(member_in(attrs, "slug")) {
        Some(s) => {
            let mut out: Vec<char> = Vec::new();
            push_str(&mut out, "https://kitsu.app/manga/");
            push_str(&mut out, s.as_str());
            Some(string_of(out.as_slice()))
        },
        None => None,
    };
    let m = SeriesMatch {
        source: Source::Kitsu,
        title_english: text_at2(attrs, "titles", "en"),
        title_romaji: text_at2(attrs, "titles", "en_jp"),
        title_native: text_at2(attrs, "titles", "ja_jp"),
        author: None,
        artist: None,
        description: match text(member_in(attrs, "synopsis")) {
            Some(t) => Some(t.clone()),
            None => None,
        },
        year,
        status: match text(member_in(attrs, "status")) {
            Some(t) => Some(t.clone()),
            None => None,
        },
        demographic: None,
        thumbnail_url,
        site_url,
        id,
    };
    proof {
        assert(m@ == series_spec(*item).unwrap());
    }
    Some(m)
}

/// Entries read as series, as a function.
pub open spec fn series_reader() -> spec_fn(Json) -> Option<SeriesView> {
    |j: Json| series_spec(j)
}

/// The series in an answer's `data` list, skipping entries without an id.
pub open spec fn series_list_spec(body: Json) -> Seq<SeriesView> {
    match items_of(member_of(body, "data"@)) {
        Some(entries) => entries.filter_map(series_reader()),
        None => Seq::empty(),
    }
}

/// The series in an answer's `data` list.
pub fn series_list(body: &Json) -> (r: Vec<SeriesMatch>)
    ensures
        series_views(r@) == series_list_spec(*body),
{
    let mut out: Vec<SeriesMatch> = Vec::new();
    let entries = match items(member(body, "data")) {
        Some(e) => e,
        None => return out,
    };
    let mut i: usize = 0;
    while i < entries.len()
        invariant
            i <= entries@.len(),
            series_views(out@) == entries@.take(i as int).filter_map(series_reader()),
        decreases entries@.len() - i,
    {
        let ghost before = out@;
        proof {
            assert(entries@.take(i + 1).drop_last() =~= entries@.take(i as int));
            assert(entries@.take(i + 1).last() == entries@[i as int]);
        }
        match parse_series(&entries[i]) {
            Some(m) => {
                out.push(m);
                proof {
                    assert(series_views(out@) =~= series_views(before).push(m@));
                }
            },
            None => {},
        }
        i = i + 1;
    }
    assert(entries@.take(entries@.len() as int) =~= entries@);
    out
}

/// The request for a series, whose poster stands in for its covers.
pub open spec fn poster_request(id: Seq<char>) -> (Seq<char>, Seq<ParamView>) {
    (api() + "/manga/"@ + id, Seq::empty())
}

/// The request for a series, whose poster stands in for its covers.
pub fn poster(id: &str) -> (r: Request)
    ensures
        r@ == poster_request(id@),
{
    let mut out: Vec<char> = Vec::new();
    push_str(&mut out, "https://kitsu.io/api/edge/manga/");
    push_str(&mut out, id);
    let r = Request { url: string_of(out.as_slice()), params: Vec::new() };
    proof {
        reveal_strlit("https://kitsu.io/api/edge/manga/");
        reveal_strlit("https://kitsu.io/api/edge");
        reveal_strlit("/manga/");
        assert(r.url@ =~= poster_request(id@).0);
        assert(param_views(r.params@) =~= Seq::<ParamView>::empty());
    }
    r
}

/// The series poster as a single untagged cover: the original or large
/// image, with the small one, or the same image, as its thumbnail.
pub open spec fn poster_spec(body: Json) -> Option<CoverView> {
    let poster = member_of(member_of(member_of(body, "data"@), "attributes"@), "posterImage"@);
    let full = match text_of(member_of(poster, "original"@)) {
        Some(u) => Some(u),
        None => text_of(member_of(poster, "large"@)),
    };
    match full {
        Some(url) => Some(
            (
                None,
                url,
                match text_of(member_of(poster, "small"@)) {
                    Some(s) => s,
                    None => url,
                },
            ),
        ),
        None => None,
    }
}

/// The series poster as a single untagged cover, when there is one.
pub fn poster_from(body: &Json) -> (r: Option<super::VolumeCover>)
    ensures
        match r {
            Some(c) => poster_spec(*body) == Some(c@),
            None => poster_spec(*body) is None,
        },
{
    let poster = member_in(member_in(member(body, "data"), "attributes"), "posterImage");
    let full = match text(member_in(poster, "original")) {
        Some(u) => u,
        None => match text(member_in(poster, "large")) {
            Some(u) => u,
            None => return None,
        },
    };
    let thumbnail_url = match text(member_in(poster, "small")) {
        Some(s) => s.clone(),
        None => full.clone(),
    };
    Some(super::VolumeCover { volume: None, url: full.clone(), thumbnail_url })
}

} // verus!
