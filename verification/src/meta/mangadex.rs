//! MangaDex: the requests the app sends and how their answers are read.
//!
//! Answers are walked as untyped JSON: the shapes are deeply nested, heavily
//! optional and mostly discarded.
use vstd::prelude::*;

use super::json::{
    boolean, bool_of, items, items_of, member, member_in, member_of, members, members_of, or_null,
    text, text_of, u64_of, whole, Json,
};
use super::{
    default_ratings, opt_text, param_views, rating_key_of, series_views, sort_key_of, BrowsePage,
    BrowseQuery, ChapterRef, ChapterView, ContentRating, CoverView, ParamView, Request,
    SeriesMatch, SeriesView, Sort, Source,
    Tag, TagView, VolumeChapters, VolumeCover,
};
use crate::order::{order_of, sorted_by, stable_sort, views_of, Ordered};
use crate::fetch::series::{decimal_parts, lex_before, lex_less, number_before, number_less, parts_of_text};
use crate::text::{
    chars_of, decimal, decimal_of, find_from, find_str, push_str, string_of, texts, trim, trimmed,
};

verus! {

/// The API's address.
pub open spec fn api() -> Seq<char> {
    "https://api.mangadex.org"@
}

/// Where cover art is served from.
pub open spec fn uploads() -> Seq<char> {
    "https://uploads.mangadex.org/covers"@
}

/// The catalogue endpoint, which both searching and browsing use.
pub open spec fn manga_url() -> Seq<char> {
    api() + "/manga"@
}

/// `a` followed by `b`.
fn cat(a: &str, b: &str) -> (r: String)
    ensures
        r@ == a@ + b@,
{
    let mut out: Vec<char> = Vec::new();
    push_str(&mut out, a);
    push_str(&mut out, b);
    string_of(out.as_slice())
}

/// `a`, `b` and `c` one after the other.
fn cat3(a: &str, b: &str, c: &str) -> (r: String)
    ensures
        r@ == a@ + b@ + c@,
{
    let mut out: Vec<char> = Vec::new();
    push_str(&mut out, a);
    push_str(&mut out, b);
    push_str(&mut out, c);
    string_of(out.as_slice())
}

/// A query parameter.
fn pair(key: &str, value: &str) -> (r: (String, String))
    ensures
        r.0@ == key@,
        r.1@ == value@,
{
    (String::from_str(key), String::from_str(value))
}

/// `x` kept within `lo..=hi`.
pub open spec fn clamped(x: u32, lo: u32, hi: u32) -> u32 {
    if x < lo {
        lo
    } else if x > hi {
        hi
    } else {
        x
    }
}

/// `x` kept within `lo..=hi`.
pub fn clamp(x: u32, lo: u32, hi: u32) -> (r: u32)
    ensures
        r == clamped(x, lo, hi),
{
    if x < lo {
        lo
    } else if x > hi {
        hi
    } else {
        x
    }
}

/// A number written out in decimal.
pub fn number_text(n: u32) -> (r: String)
    ensures
        r@ == decimal_of(n as nat),
{
    let v = decimal(n as u128);
    string_of(v.as_slice())
}

/// A request with no query parameters.
fn bare(url: String) -> (r: Request)
    ensures
        r@ == (url@, Seq::<ParamView>::empty()),
{
    let r = Request { url, params: Vec::new() };
    assert(super::params_of(r) =~= Seq::<ParamView>::empty());
    r
}

/// The search for a title, most relevant first, with authors, artists and
/// covers included.
pub open spec fn search_request(query: Seq<char>, limit: u32) -> (Seq<char>, Seq<ParamView>) {
    (
        manga_url(),
        seq![
            ("title"@, query),
            ("limit"@, decimal_of(clamped(limit, 1, 25) as nat)),
            ("includes[]"@, "author"@),
            ("includes[]"@, "artist"@),
            ("includes[]"@, "cover_art"@),
            ("order[relevance]"@, "desc"@),
        ],
    )
}

/// The search for a title: between one and twenty-five results.
pub fn search(query: &str, limit: u32) -> (r: Request)
    ensures
        r@ == search_request(query@, limit),
{
    let mut params: Vec<(String, String)> = Vec::new();
    params.push(pair("title", query));
    params.push((String::from_str("limit"), number_text(clamp(limit, 1, 25))));
    params.push(pair("includes[]", "author"));
    params.push(pair("includes[]", "artist"));
    params.push(pair("includes[]", "cover_art"));
    params.push(pair("order[relevance]", "desc"));
    let r = Request { url: cat("https://api.mangadex.org", "/manga"), params };
    proof {
        reveal_strlit("https://api.mangadex.org");
        reveal_strlit("/manga");
        assert(param_views(r.params@) =~= search_request(query@, limit).1);
    }
    r
}

/// The title a browse searches for: trimmed, and only when something is left.
pub open spec fn browse_title(q: BrowseQuery) -> Option<Seq<char>> {
    match q.title {
        Some(t) => if trim(t@).len() > 0 {
            Some(trim(t@))
        } else {
            None
        },
        None => None,
    }
}

/// The ordering a browse asks for: relevance means nothing without a search
/// term and returns the catalogue in no useful order, so it becomes follows.
pub open spec fn effective_sort_of(q: BrowseQuery) -> Sort {
    if q.sort == Sort::Relevance && browse_title(q) is None {
        Sort::Follows
    } else {
        q.sort
    }
}

/// The content ratings a browse asks for: an empty selection falls back to
/// the conservative default rather than whatever the API includes.
pub open spec fn ratings_of(q: BrowseQuery) -> Seq<ContentRating> {
    if q.content_ratings@.len() == 0 {
        default_ratings()
    } else {
        q.content_ratings@
    }
}

/// One parameter `key` for each value.
pub open spec fn tagged(key: Seq<char>, values: Seq<Seq<char>>) -> Seq<ParamView> {
    values.map_values(|v: Seq<char>| (key, v))
}

/// The parameters of a browse, in the order they are sent.
pub open spec fn browse_params(q: BrowseQuery) -> Seq<ParamView> {
    seq![
        ("limit"@, decimal_of(clamped(q.limit, 1, 100) as nat)),
        ("offset"@, decimal_of(q.offset as nat)),
        ("includes[]"@, "author"@),
        ("includes[]"@, "artist"@),
        ("includes[]"@, "cover_art"@),
        (
            "order["@ + sort_key_of(effective_sort_of(q)) + "]"@,
            if q.descending {
                "desc"@
            } else {
                "asc"@
            },
        ),
    ] + match browse_title(q) {
        Some(t) => seq![("title"@, t)],
        None => Seq::empty(),
    } + tagged("contentRating[]"@, ratings_of(q).map_values(|r: ContentRating| rating_key_of(r)))
        + tagged("includedTags[]"@, texts(q.included_tags@)) + tagged(
        "excludedTags[]"@,
        texts(q.excluded_tags@),
    ) + tagged("status[]"@, texts(q.status@)) + tagged(
        "publicationDemographic[]"@,
        texts(q.demographic@),
    )
}

/// A browse with no content rating selected asks only for safe and
/// suggestive titles: clearing every box means the conservative default, not
/// whatever the API would include.
pub proof fn an_empty_rating_selection_asks_only_for_safe_titles(q: BrowseQuery)
    requires
        q.content_ratings@.len() == 0,
    ensures
        forall|k: int|
            0 <= k < browse_params(q).len() && (#[trigger] browse_params(q)[k]).0
                == "contentRating[]"@ ==> browse_params(q)[k].1 == "safe"@ || browse_params(q)[k].1
                == "suggestive"@,
{
    reveal_strlit("contentRating[]");
    reveal_strlit("limit");
    reveal_strlit("offset");
    reveal_strlit("includes[]");
    reveal_strlit("order[");
    reveal_strlit("]");
    reveal_strlit("title");
    reveal_strlit("includedTags[]");
    reveal_strlit("excludedTags[]");
    reveal_strlit("status[]");
    reveal_strlit("publicationDemographic[]");
    reveal_strlit("latestUploadedChapter");
    reveal_strlit("followedCount");
    reveal_strlit("rating");
    reveal_strlit("createdAt");
    reveal_strlit("relevance");
    let head = seq![
        ("limit"@, decimal_of(clamped(q.limit, 1, 100) as nat)),
        ("offset"@, decimal_of(q.offset as nat)),
        ("includes[]"@, "author"@),
        ("includes[]"@, "artist"@),
        ("includes[]"@, "cover_art"@),
        (
            "order["@ + sort_key_of(effective_sort_of(q)) + "]"@,
            if q.descending {
                "desc"@
            } else {
                "asc"@
            },
        ),
    ];
    let title: Seq<ParamView> = match browse_title(q) {
        Some(t) => seq![("title"@, t)],
        None => Seq::empty(),
    };
    let ratings = tagged("contentRating[]"@, ratings_of(q).map_values(|r: ContentRating| rating_key_of(r)));
    let rest = tagged("includedTags[]"@, texts(q.included_tags@)) + tagged(
        "excludedTags[]"@,
        texts(q.excluded_tags@),
    ) + tagged("status[]"@, texts(q.status@)) + tagged(
        "publicationDemographic[]"@,
        texts(q.demographic@),
    );
    let all = head + title + ratings + rest;
    assert(browse_params(q) =~= all);
    assert forall|k: int|
        0 <= k < all.len() && (#[trigger] all[k]).0 == "contentRating[]"@ implies all[k].1
        == "safe"@ || all[k].1 == "suggestive"@ by {
        let (a, b, c) = (head.len() as int, title.len() as int, ratings.len() as int);
        assert("contentRating[]"@.len() == 15);
        if k < a {
            assert(all[k] == head[k]);
            assert(sort_key_of(effective_sort_of(q)).len() != 8);
            assert(head[k].0.len() != 15);
            assert(false);
        } else if k < a + b {
            assert(all[k] == title[k - a]);
            assert(title[k - a].0 == "title"@);
            assert(false);
        } else if k < a + b + c {
            let j = k - a - b;
            assert(all[k] == ratings[j]);
            assert(ratings_of(q) == default_ratings());
            let keys = ratings_of(q).map_values(|r: ContentRating| rating_key_of(r));
            assert(ratings[j] == ("contentRating[]"@, keys[j]));
            assert(keys[j] == rating_key_of(default_ratings()[j]));
            assert(j == 0 || j == 1);
        } else {
            let j = k - a - b - c;
            assert(all[k] == rest[j]);
            let t1 = tagged("includedTags[]"@, texts(q.included_tags@));
            let t2 = tagged("excludedTags[]"@, texts(q.excluded_tags@));
            let t3 = tagged("status[]"@, texts(q.status@));
            let t4 = tagged("publicationDemographic[]"@, texts(q.demographic@));
            assert(rest == t1 + t2 + t3 + t4);
            if j < t1.len() {
                assert(rest[j] == t1[j]);
                assert(t1[j].0 == "includedTags[]"@);
            } else if j < t1.len() + t2.len() {
                assert(rest[j] == t2[j - t1.len()]);
                assert(t2[j - t1.len()].0 == "excludedTags[]"@);
            } else if j < t1.len() + t2.len() + t3.len() {
                assert(rest[j] == t3[j - t1.len() - t2.len()]);
                assert(t3[j - t1.len() - t2.len()].0 == "status[]"@);
            } else {
                assert(rest[j] == t4[j - t1.len() - t2.len() - t3.len()]);
                assert(t4[j - t1.len() - t2.len() - t3.len()].0 == "publicationDemographic[]"@);
            }
            assert(rest[j].0.len() != 15);
            assert(false);
        }
    }
}

/// The ordering a browse asks for.
pub fn effective_sort(query: &BrowseQuery) -> (r: Sort)
    ensures
        r == effective_sort_of(*query),
{
    match (query.sort, browse_title_of(query)) {
        (Sort::Relevance, None) => Sort::Follows,
        (sort, _) => sort,
    }
}

/// The trimmed title of a browse, when anything is left of it.
fn browse_title_of(query: &BrowseQuery) -> (r: Option<String>)
    ensures
        opt_text(r) == browse_title(*query),
{
    match &query.title {
        Some(t) => {
            let v = trimmed(&chars_of(t.as_str()));
            if v.len() > 0 {
                Some(string_of(v.as_slice()))
            } else {
                None
            }
        },
        None => None,
    }
}

/// Add one parameter `key` for each value.
fn push_tagged(params: &mut Vec<(String, String)>, key: &str, values: &Vec<String>)
    ensures
        param_views(final(params)@) == param_views(old(params)@) + tagged(key@, texts(values@)),
{
    let ghost base = param_views(params@);
    let mut i: usize = 0;
    while i < values.len()
        invariant
            i <= values@.len(),
            base == param_views(old(params)@),
            param_views(params@) == base + tagged(key@, texts(values@).take(i as int)),
        decreases values@.len() - i,
    {
        let ghost before = params@;
        params.push((String::from_str(key), values[i].clone()));
        proof {
            assert(param_views(params@) =~= param_views(before).push((key@, values@[i as int]@)));
            assert(tagged(key@, texts(values@).take(i + 1)) =~= tagged(
                key@,
                texts(values@).take(i as int),
            ).push((key@, values@[i as int]@)));
        }
        i = i + 1;
    }
    assert(texts(values@).take(values@.len() as int) =~= texts(values@));
}

/// Add one content-rating parameter for each rating.
fn push_ratings(params: &mut Vec<(String, String)>, ratings: &Vec<ContentRating>)
    ensures
        param_views(final(params)@) == param_views(old(params)@) + tagged(
            "contentRating[]"@,
            ratings@.map_values(|r: ContentRating| rating_key_of(r)),
        ),
{
    let ghost base = param_views(params@);
    let ghost keys = ratings@.map_values(|r: ContentRating| rating_key_of(r));
    let mut i: usize = 0;
    while i < ratings.len()
        invariant
            i <= ratings@.len(),
            keys == ratings@.map_values(|r: ContentRating| rating_key_of(r)),
            base == param_views(old(params)@),
            param_views(params@) == base + tagged("contentRating[]"@, keys.take(i as int)),
        decreases ratings@.len() - i,
    {
        let ghost before = params@;
        params.push(pair("contentRating[]", ratings[i].key()));
        proof {
            assert(param_views(params@) =~= param_views(before).push(
                ("contentRating[]"@, keys[i as int]),
            ));
            assert(tagged("contentRating[]"@, keys.take(i + 1)) =~= tagged(
                "contentRating[]"@,
                keys.take(i as int),
            ).push(("contentRating[]"@, keys[i as int])));
        }
        i = i + 1;
    }
    assert(keys.take(ratings@.len() as int) =~= keys);
}

/// The request for browsing the catalogue: the same endpoint a search uses,
/// with an ordering instead of, or as well as, a title.
pub fn browse(query: &BrowseQuery) -> (r: Request)
    ensures
        r@ == (manga_url(), browse_params(*query)),
{
    let mut params: Vec<(String, String)> = Vec::new();
    params.push((String::from_str("limit"), number_text(clamp(query.limit, 1, 100))));
    params.push((String::from_str("offset"), number_text(query.offset)));
    params.push(pair("includes[]", "author"));
    params.push(pair("includes[]", "artist"));
    params.push(pair("includes[]", "cover_art"));
    let title = browse_title_of(query);
    let sort = match (query.sort, &title) {
        (Sort::Relevance, None) => Sort::Follows,
        (sort, _) => sort,
    };
    let direction = if query.descending {
        "desc"
    } else {
        "asc"
    };
    params.push((cat3("order[", sort.key(), "]"), String::from_str(direction)));
    let ghost head = param_views(params@);
    proof {
        assert(head =~= browse_params(*query).take(6));
    }
    match title {
        Some(t) => params.push((String::from_str("title"), t)),
        None => {},
    }
    let ghost titled = param_views(params@);
    if query.content_ratings.len() == 0 {
        let defaults = ContentRating::default_set();
        push_ratings(&mut params, &defaults);
    } else {
        push_ratings(&mut params, &query.content_ratings);
    }
    push_tagged(&mut params, "includedTags[]", &query.included_tags);
    push_tagged(&mut params, "excludedTags[]", &query.excluded_tags);
    push_tagged(&mut params, "status[]", &query.status);
    push_tagged(&mut params, "publicationDemographic[]", &query.demographic);
    let r = Request { url: cat("https://api.mangadex.org", "/manga"), params };
    proof {
        reveal_strlit("https://api.mangadex.org");
        reveal_strlit("/manga");
        assert(titled =~= head + match browse_title(*query) {
            Some(t) => seq![("title"@, t)],
            None => Seq::empty(),
        });
        assert(param_views(r.params@) =~= browse_params(*query));
    }
    r
}

/// The request for every tag a series can carry.
pub open spec fn tags_request() -> (Seq<char>, Seq<ParamView>) {
    (api() + "/manga/tag"@, Seq::empty())
}

/// The request for every tag a series can carry.
pub fn tags() -> (r: Request)
    ensures
        r@ == tags_request(),
{
    proof {
        reveal_strlit("https://api.mangadex.org");
        reveal_strlit("/manga/tag");
    }
    bare(cat("https://api.mangadex.org", "/manga/tag"))
}

/// The request for every cover of a series, by volume.
pub open spec fn covers_request(manga_id: Seq<char>) -> (Seq<char>, Seq<ParamView>) {
    (
        api() + "/cover"@,
        seq![("manga[]"@, manga_id), ("limit"@, "100"@), ("order[volume]"@, "asc"@)],
    )
}

/// The request for every cover of a series.
pub fn volume_covers(manga_id: &str) -> (r: Request)
    ensures
        r@ == covers_request(manga_id@),
{
    let mut params: Vec<(String, String)> = Vec::new();
    params.push(pair("manga[]", manga_id));
    params.push(pair("limit", "100"));
    params.push(pair("order[volume]", "asc"));
    let r = Request { url: cat("https://api.mangadex.org", "/cover"), params };
    proof {
        reveal_strlit("https://api.mangadex.org");
        reveal_strlit("/cover");
        assert(param_views(r.params@) =~= covers_request(manga_id@).1);
    }
    r
}

/// The request for a series's volume-to-chapter map. Deliberately without a
/// language filter: volume tagging is per translation, and one language gives
/// a sparse and misleading map.
pub open spec fn aggregate_request(manga_id: Seq<char>) -> (Seq<char>, Seq<ParamView>) {
    (api() + "/manga/"@ + manga_id + "/aggregate"@, Seq::empty())
}

/// The request for a series's volume-to-chapter map.
pub fn volume_chapters(manga_id: &str) -> (r: Request)
    ensures
        r@ == aggregate_request(manga_id@),
{
    proof {
        reveal_strlit("https://api.mangadex.org/manga/");
        reveal_strlit("https://api.mangadex.org");
        reveal_strlit("/manga/");
    }
    bare(cat3("https://api.mangadex.org/manga/", manga_id, "/aggregate"))
}

/// The request for a chapter's image server and files.
pub open spec fn chapter_pages_request(chapter_id: Seq<char>) -> (Seq<char>, Seq<ParamView>) {
    (api() + "/at-home/server/"@ + chapter_id, Seq::empty())
}

/// The request for a chapter's image server and files, via the MangaDex@Home
/// network. The server is chosen per request and valid only briefly, so it is
/// asked right before downloading, never cached.
pub fn chapter_pages(chapter_id: &str) -> (r: Request)
    ensures
        r@ == chapter_pages_request(chapter_id@),
{
    proof {
        reveal_strlit("https://api.mangadex.org/at-home/server/");
        reveal_strlit("https://api.mangadex.org");
        reveal_strlit("/at-home/server/");
    }
    bare(cat("https://api.mangadex.org/at-home/server/", chapter_id))
}

/// The request for what a chapter says about itself.
pub open spec fn chapter_request(chapter_id: Seq<char>) -> (Seq<char>, Seq<ParamView>) {
    (api() + "/chapter/"@ + chapter_id, Seq::empty())
}

/// The request for what a chapter says about itself, which explains an empty
/// one.
pub fn chapter(chapter_id: &str) -> (r: Request)
    ensures
        r@ == chapter_request(chapter_id@),
{
    proof {
        reveal_strlit("https://api.mangadex.org/chapter/");
        reveal_strlit("https://api.mangadex.org");
        reveal_strlit("/chapter/");
    }
    bare(cat("https://api.mangadex.org/chapter/", chapter_id))
}

/// The first alternate title that has one in `language`.
pub open spec fn first_alt(alts: Seq<Json>, language: Seq<char>, i: int) -> Option<Seq<char>>
    decreases alts.len() - i,
{
    if i < 0 || i >= alts.len() {
        None
    } else {
        match text_of(member_of(alts[i], language)) {
            Some(t) => Some(t),
            None => first_alt(alts, language, i + 1),
        }
    }
}

/// A title in `language`: the canonical title when it is in that language,
/// else the first alternate in it. MangaDex stores one canonical title, so the
/// English name of a Japanese series is usually among the alternates.
pub open spec fn localized_spec(attrs: Json, language: Seq<char>) -> Option<Seq<char>> {
    match text_of(member_of(member_of(attrs, "title"@), language)) {
        Some(t) => Some(t),
        None => match items_of(member_of(attrs, "altTitles"@)) {
            Some(alts) => first_alt(alts, language, 0),
            None => None,
        },
    }
}

/// A title in `language`.
fn localized(attrs: Option<&Json>, language: &str) -> (r: Option<String>)
    ensures
        opt_text(r) == localized_spec(or_null(attrs), language@),
{
    let titles = member_in(attrs, "title");
    let canonical = member_in(titles, language);
    match text(canonical) {
        Some(t) => {
            assert(or_null(titles) == member_of(or_null(attrs), "title"@));
            assert(or_null(canonical) == member_of(member_of(or_null(attrs), "title"@), language@));
            assert(text_of(member_of(member_of(or_null(attrs), "title"@), language@)) == Some(t@));
            return Some(t.clone());
        },
        None => {},
    }
    let alts = match items(member_in(attrs, "altTitles")) {
        Some(a) => a,
        None => return None,
    };
    let mut i: usize = 0;
    while i < alts.len()
        invariant
            i <= alts@.len(),
            text_of(member_of(member_of(or_null(attrs), "title"@), language@)) is None,
            items_of(member_of(or_null(attrs), "altTitles"@)) == Some(alts@),
            first_alt(alts@, language@, 0) == first_alt(alts@, language@, i as int),
        decreases alts@.len() - i,
    {
        match text(member(&alts[i], language)) {
            Some(t) => return Some(t.clone()),
            None => {},
        }
        i = i + 1;
    }
    None
}

/// The first related entity of `kind`.
pub open spec fn first_of_type(rs: Seq<Json>, kind: Seq<char>, i: int) -> Option<Json>
    decreases rs.len() - i,
{
    if i < 0 || i >= rs.len() {
        None
    } else if text_of(member_of(rs[i], "type"@)) == Some(kind) {
        Some(rs[i])
    } else {
        first_of_type(rs, kind, i + 1)
    }
}

/// The first relationship of an entry with the given type.
pub open spec fn relationship_spec(item: Json, kind: Seq<char>) -> Option<Json> {
    match items_of(member_of(item, "relationships"@)) {
        Some(rs) => first_of_type(rs, kind, 0),
        None => None,
    }
}

/// An attribute of the first relationship of the given type, when it is text.
pub open spec fn related_text(item: Json, kind: Seq<char>, key: Seq<char>) -> Option<Seq<char>> {
    match relationship_spec(item, kind) {
        Some(r) => text_of(member_of(member_of(r, "attributes"@), key)),
        None => None,
    }
}

/// An attribute of the first relationship of the given type, when it is text.
fn related(item: &Json, kind: &str, key: &str) -> (r: Option<String>)
    ensures
        opt_text(r) == related_text(*item, kind@, key@),
{
    let rs = match items(member(item, "relationships")) {
        Some(rs) => rs,
        None => return None,
    };
    let k = chars_of(kind);
    let mut i: usize = 0;
    while i < rs.len()
        invariant
            i <= rs@.len(),
            items_of(member_of(*item, "relationships"@)) == Some(rs@),
            k@ == kind@,
            first_of_type(rs@, kind@, 0) == first_of_type(rs@, kind@, i as int),
        decreases rs@.len() - i,
    {
        let is_kind = match text(member(&rs[i], "type")) {
            Some(t) => crate::text::eq_str(&chars_of(t.as_str()), kind),
            None => false,
        };
        if is_kind {
            assert(first_of_type(rs@, kind@, i as int) == Some(rs@[i as int]));
            return match text(member_in(member(&rs[i], "attributes"), key)) {
                Some(t) => Some(t.clone()),
                None => None,
            };
        }
        i = i + 1;
    }
    None
}

/// Text trimmed of white space, when there is any text.
pub open spec fn trimmed_opt(t: Option<Seq<char>>) -> Option<Seq<char>> {
    match t {
        Some(s) => Some(trim(s)),
        None => None,
    }
}

/// One catalogue entry read as a series; entries without an id are skipped.
pub open spec fn series_spec(item: Json) -> Option<SeriesView> {
    match text_of(member_of(item, "id"@)) {
        None => None,
        Some(id) => {
            let attrs = member_of(item, "attributes"@);
            Some(
                SeriesView {
                    source: Source::MangaDex,
                    id,
                    title_english: localized_spec(attrs, "en"@),
                    title_romaji: localized_spec(attrs, "ja-ro"@),
                    title_native: localized_spec(attrs, "ja"@),
                    author: trimmed_opt(related_text(item, "author"@, "name"@)),
                    artist: trimmed_opt(related_text(item, "artist"@, "name"@)),
                    description: text_of(member_of(member_of(attrs, "description"@), "en"@)),
                    year: match u64_of(member_of(attrs, "year"@)) {
                        Some(y) => Some(y as u32),
                        None => None,
                    },
                    status: text_of(member_of(attrs, "status"@)),
                    demographic: text_of(member_of(attrs, "publicationDemographic"@)),
                    thumbnail_url: match related_text(item, "cover_art"@, "fileName"@) {
                        Some(f) => Some(uploads() + "/"@ + id + "/"@ + f + ".256.jpg"@),
                        None => None,
                    },
                    site_url: Some("https://mangadex.org/title/"@ + id),
                },
            )
        },
    }
}

/// An owned copy of text.
fn owned(t: Option<&String>) -> (r: Option<String>)
    ensures
        opt_text(r) == match t {
            Some(s) => Some(s@),
            None => None::<Seq<char>>,
        },
{
    match t {
        Some(s) => Some(s.clone()),
        None => None,
    }
}

/// Text trimmed of white space.
fn trim_opt(t: Option<String>) -> (r: Option<String>)
    ensures
        opt_text(r) == trimmed_opt(opt_text(t)),
{
    match t {
        Some(s) => Some(string_of(trimmed(&chars_of(s.as_str())).as_slice())),
        None => None,
    }
}

/// One catalogue entry read as a series, or `None` without an id.
pub fn parse_series(item: &Json) -> (r: Option<SeriesMatch>)
    ensures
        match r {
            Some(m) => series_spec(*item) == Some(m@),
            None => series_spec(*item) is None,
        },
{
    let id = match text(member(item, "id")) {
        Some(id) => id.clone(),
        None => return None,
    };
    let attrs = member(item, "attributes");
    let cover_file = related(item, "cover_art", "fileName");
    let thumbnail_url = match &cover_file {
        Some(f) => {
            let mut out: Vec<char> = Vec::new();
            push_str(&mut out, "https://uploads.mangadex.org/covers/");
            push_str(&mut out, id.as_str());
            push_str(&mut out, "/");
            push_str(&mut out, f.as_str());
            push_str(&mut out, ".256.jpg");
            Some(string_of(out.as_slice()))
        },
        None => None,
    };
    let year = match whole(member_in(attrs, "year")) {
        Some(y) => Some(y as u32),
        None => None,
    };
    let m = SeriesMatch {
        source: Source::MangaDex,
        thumbnail_url,
        site_url: Some(cat("https://mangadex.org/title/", id.as_str())),
        title_english: localized(attrs, "en"),
        title_romaji: localized(attrs, "ja-ro"),
        title_native: localized(attrs, "ja"),
        author: trim_opt(related(item, "author", "name")),
        artist: trim_opt(related(item, "artist", "name")),
        description: owned(text(member_in(member_in(attrs, "description"), "en"))),
        year,
        status: owned(text(member_in(attrs, "status"))),
        demographic: owned(text(member_in(attrs, "publicationDemographic"))),
        id,
    };
    proof {
        reveal_strlit("https://uploads.mangadex.org/covers/");
        reveal_strlit("https://uploads.mangadex.org/covers");
        reveal_strlit("/");
        assert(m@.thumbnail_url =~= series_spec(*item).unwrap().thumbnail_url);
        assert(m@ == series_spec(*item).unwrap());
    }
    Some(m)
}

/// Entries read as series, as a function.
pub open spec fn series_reader() -> spec_fn(Json) -> Option<SeriesView> {
    |j: Json| series_spec(j)
}

/// The series in an answer's `data` list, skipping entries without an id.
pub open spec fn series_list_spec(body: Json) -> Seq<SeriesView> {
    match items_of(member_of(body, "data"@)) {
        Some(entries) => entries.filter_map(series_reader()),
        None => Seq::empty(),
    }
}

/// The series in an answer's `data` list.
pub fn series_list(body: &Json) -> (r: Vec<SeriesMatch>)
    ensures
        series_views(r@) == series_list_spec(*body),
{
    let mut out: Vec<SeriesMatch> = Vec::new();
    let entries = match items(member(body, "data")) {
        Some(e) => e,
        None => return out,
    };
    let mut i: usize = 0;
    while i < entries.len()
        invariant
            i <= entries@.len(),
            series_views(out@) == entries@.take(i as int).filter_map(series_reader()),
        decreases entries@.len() - i,
    {
        let ghost before = out@;
        proof {
            assert(entries@.take(i + 1).drop_last() =~= entries@.take(i as int));
            assert(entries@.take(i + 1).last() == entries@[i as int]);
        }
        match parse_series(&entries[i]) {
            Some(m) => {
                out.push(m);
                proof {
                    assert(series_views(out@) =~= series_views(before).push(m@));
                }
            },
            None => {},
        }
        i = i + 1;
    }
    assert(entries@.take(entries@.len() as int) =~= entries@);
    out
}

/// A whole number from an answer, or zero.
pub open spec fn count_of(value: Json) -> u32 {
    match u64_of(value) {
        Some(n) => n as u32,
        None => 0,
    }
}

/// One page of browse results: the series, and the totals for paging.
pub fn browse_page(body: &Json) -> (r: BrowsePage)
    ensures
        series_views(r.series@) == series_list_spec(*body),
        r.total == count_of(member_of(*body, "total"@)),
        r.offset == count_of(member_of(*body, "offset"@)),
{
    let total = match whole(member(body, "total")) {
        Some(n) => n as u32,
        None => 0,
    };
    let offset = match whole(member(body, "offset")) {
        Some(n) => n as u32,
        None => 0,
    };
    BrowsePage { series: series_list(body), total, offset }
}

/// One tag entry: id and English name required, group `other` when absent.
pub open spec fn tag_spec(item: Json) -> Option<TagView> {
    let attrs = member_of(item, "attributes"@);
    match (
        text_of(member_of(item, "id"@)),
        text_of(member_of(member_of(attrs, "name"@), "en"@)),
    ) {
        (Some(id), Some(name)) => Some(
            (
                id,
                name,
                match text_of(member_of(attrs, "group"@)) {
                    Some(g) => g,
                    None => "other"@,
                },
            ),
        ),
        _ => None,
    }
}

/// Tag entries read as tags, as a function.
pub open spec fn tag_reader() -> spec_fn(Json) -> Option<TagView> {
    |j: Json| tag_spec(j)
}

impl Ordered for Tag {
    /// By group, then by name, in text order.
    open spec fn less(a: TagView, b: TagView) -> bool {
        lex_less(a.2, b.2) || (a.2 == b.2 && lex_less(a.1, b.1))
    }

    fn before(&self, other: &Tag) -> (r: bool) {
        let g = chars_of(self.group.as_str());
        let h = chars_of(other.group.as_str());
        if lex_before(&g, &h) {
            return true;
        }
        if !crate::text::eq_str(&g, other.group.as_str()) {
            return false;
        }
        lex_before(&chars_of(self.name.as_str()), &chars_of(other.name.as_str()))
    }
}

/// Every tag in an answer, ordered by group and then name.
pub open spec fn tags_spec(body: Json) -> Seq<TagView> {
    match items_of(member_of(body, "data"@)) {
        Some(entries) => sorted_by(entries.filter_map(tag_reader()), order_of::<Tag>()),
        None => Seq::empty(),
    }
}

/// Every tag in an answer, ordered by group and then name.
pub fn tags_from(body: &Json) -> (r: Vec<Tag>)
    ensures
        views_of(r@) == tags_spec(*body),
{
    let entries = match items(member(body, "data")) {
        Some(e) => e,
        None => {
            let r: Vec<Tag> = Vec::new();
            assert(views_of(r@) =~= Seq::<TagView>::empty());
            return r;
        },
    };
    let mut found: Vec<Tag> = Vec::new();
    let mut i: usize = 0;
    while i < entries.len()
        invariant
            i <= entries@.len(),
            views_of(found@) == entries@.take(i as int).filter_map(tag_reader()),
        decreases entries@.len() - i,
    {
        let ghost before = found@;
        proof {
            assert(entries@.take(i + 1).drop_last() =~= entries@.take(i as int));
            assert(entries@.take(i + 1).last() == entries@[i as int]);
        }
        let item = &entries[i];
        let attrs = member(item, "attributes");
        match (text(member(item, "id")), text(member_in(member_in(attrs, "name"), "en"))) {
            (Some(id), Some(name)) => {
                let group = match text(member_in(attrs, "group")) {
                    Some(g) => g.clone(),
                    None => String::from_str("other"),
                };
                let t = Tag { id: id.clone(), name: name.clone(), group };
                found.push(t);
                proof {
                    assert(views_of(found@) =~= views_of(before).push(t@));
                }
            },
            _ => {},
        }
        i = i + 1;
    }
    assert(entries@.take(entries@.len() as int) =~= entries@);
    stable_sort(found)
}

/// Where a volume label sorts: numbers first, other labels after, untagged
/// art last.
pub open spec fn label_rank(label: Option<Seq<char>>) -> int {
    match label {
        None => 2,
        Some(l) => if decimal_parts(l) is Some {
            0
        } else {
            1
        },
    }
}

/// Whether label `a` sorts strictly before label `b`: by rank, and numbers by
/// value. Labels of the same other rank are equal, and keep their order.
pub open spec fn label_less(a: Option<Seq<char>>, b: Option<Seq<char>>) -> bool {
    label_rank(a) < label_rank(b) || (label_rank(a) == 0 && label_rank(b) == 0 && number_less(
        a.unwrap(),
        b.unwrap(),
    ))
}

/// Where a label sorts.
fn rank_of(label: Option<&String>) -> (r: u8)
    ensures
        r as int == label_rank(match label {
            Some(s) => Some(s@),
            None => None::<Seq<char>>,
        }),
{
    match label {
        None => 2,
        Some(l) => if parts_of_text(&chars_of(l.as_str())).is_some() {
            0
        } else {
            1
        },
    }
}

/// Whether label `a` sorts strictly before label `b`.
fn label_before(a: Option<&String>, b: Option<&String>) -> (r: bool)
    ensures
        r == label_less(
            match a {
                Some(s) => Some(s@),
                None => None::<Seq<char>>,
            },
            match b {
                Some(s) => Some(s@),
                None => None::<Seq<char>>,
            },
        ),
{
    let ra = rank_of(a);
    let rb = rank_of(b);
    if ra < rb {
        return true;
    }
    match (a, b) {
        (Some(x), Some(y)) => ra == 0 && rb == 0 && number_before(x.as_str(), y.as_str()),
        _ => false,
    }
}

/// Whether label `a` sorts strictly before label `b`.
pub fn label_before_text(a: &String, b: &String) -> (r: bool)
    ensures
        r == label_less(Some(a@), Some(b@)),
{
    label_before(Some(a), Some(b))
}

impl Ordered for VolumeCover {
    /// By volume label.
    open spec fn less(a: CoverView, b: CoverView) -> bool {
        label_less(a.0, b.0)
    }

    fn before(&self, other: &VolumeCover) -> (r: bool) {
        label_before(self.volume.as_ref(), other.volume.as_ref())
    }
}

/// One cover entry: its file is required.
pub open spec fn cover_spec(manga_id: Seq<char>, item: Json) -> Option<CoverView> {
    let attrs = member_of(item, "attributes"@);
    match text_of(member_of(attrs, "fileName"@)) {
        Some(file) => Some(
            (
                text_of(member_of(attrs, "volume"@)),
                uploads() + "/"@ + manga_id + "/"@ + file,
                uploads() + "/"@ + manga_id + "/"@ + file + ".512.jpg"@,
            ),
        ),
        None => None,
    }
}

/// Cover entries read as covers, as a function.
pub open spec fn cover_reader(manga_id: Seq<char>) -> spec_fn(Json) -> Option<CoverView> {
    |j: Json| cover_spec(manga_id, j)
}

/// Every cover in an answer, in volume order.
pub open spec fn covers_spec(manga_id: Seq<char>, body: Json) -> Seq<CoverView> {
    match items_of(member_of(body, "data"@)) {
        Some(entries) => sorted_by(
            entries.filter_map(cover_reader(manga_id)),
            order_of::<VolumeCover>(),
        ),
        None => Seq::empty(),
    }
}

/// Every cover in an answer, in volume order.
pub fn covers_from(manga_id: &str, body: &Json) -> (r: Vec<VolumeCover>)
    ensures
        views_of(r@) == covers_spec(manga_id@, *body),
{
    let entries = match items(member(body, "data")) {
        Some(e) => e,
        None => {
            let r: Vec<VolumeCover> = Vec::new();
            assert(views_of(r@) =~= Seq::<CoverView>::empty());
            return r;
        },
    };
    let mut found: Vec<VolumeCover> = Vec::new();
    let mut i: usize = 0;
    while i < entries.len()
        invariant
            i <= entries@.len(),
            views_of(found@) == entries@.take(i as int).filter_map(cover_reader(manga_id@)),
        decreases entries@.len() - i,
    {
        let ghost before = found@;
        proof {
            assert(entries@.take(i + 1).drop_last() =~= entries@.take(i as int));
            assert(entries@.take(i + 1).last() == entries@[i as int]);
        }
        let attrs = member(&entries[i], "attributes");
        match text(member_in(attrs, "fileName")) {
            Some(file) => {
                let mut url: Vec<char> = Vec::new();
                push_str(&mut url, "https://uploads.mangadex.org/covers/");
                push_str(&mut url, manga_id);
                push_str(&mut url, "/");
                push_str(&mut url, file.as_str());
                let full = string_of(url.as_slice());
                push_str(&mut url, ".512.jpg");
                let c = VolumeCover {
                    volume: owned(text(member_in(attrs, "volume"))),
                    url: full,
                    thumbnail_url: string_of(url.as_slice()),
                };
                proof {
                    reveal_strlit("https://uploads.mangadex.org/covers/");
                    reveal_strlit("https://uploads.mangadex.org/covers");
                    reveal_strlit("/");
                    assert(c@.1 =~= cover_spec(manga_id@, entries@[i as int]).unwrap().1);
                    assert(c@.2 =~= cover_spec(manga_id@, entries@[i as int]).unwrap().2);
                }
                found.push(c);
                proof {
                    assert(views_of(found@) =~= views_of(before).push(c@));
                }
            },
            None => {},
        }
        i = i + 1;
    }
    assert(entries@.take(entries@.len() as int) =~= entries@);
    stable_sort(found)
}

impl Ordered for ChapterRef {
    /// By chapter number, as a volume label sorts.
    open spec fn less(a: ChapterView, b: ChapterView) -> bool {
        label_less(Some(a.0), Some(b.0))
    }

    fn before(&self, other: &ChapterRef) -> (r: bool) {
        label_before(Some(&self.number), Some(&other.number))
    }
}

impl Ordered for VolumeChapters {
    /// By volume label.
    open spec fn less(a: (Seq<char>, Seq<ChapterView>), b: (Seq<char>, Seq<ChapterView>)) -> bool {
        label_less(Some(a.0), Some(b.0))
    }

    fn before(&self, other: &VolumeChapters) -> (r: bool) {
        label_before(Some(&self.volume), Some(&other.volume))
    }
}

/// One chapter of the map: its number is the key, and it is available unless
/// it says otherwise.
pub open spec fn chapter_spec(entry: (String, Json)) -> ChapterView {
    (
        entry.0@,
        text_of(member_of(entry.1, "id"@)),
        match bool_of(member_of(entry.1, "isUnavailable"@)) {
            Some(b) => b,
            None => false,
        },
    )
}

/// The chapters of one volume of the map, in chapter order.
pub open spec fn chapters_spec(volume: Json) -> Seq<ChapterView> {
    match members_of(member_of(volume, "chapters"@)) {
        Some(entries) => sorted_by(
            entries.map_values(|e: (String, Json)| chapter_spec(e)),
            order_of::<ChapterRef>(),
        ),
        None => Seq::empty(),
    }
}

/// One volume of the map; the `none` bucket of chapters outside any volume
/// is left out.
pub open spec fn volume_spec(entry: (String, Json)) -> Option<(Seq<char>, Seq<ChapterView>)> {
    if entry.0@ == "none"@ {
        None
    } else {
        Some((entry.0@, chapters_spec(entry.1)))
    }
}

/// Volumes of the map read, as a function.
pub open spec fn volume_reader() -> spec_fn((String, Json)) -> Option<(Seq<char>, Seq<ChapterView>)> {
    |e: (String, Json)| volume_spec(e)
}

/// The volume-to-chapter map in an answer, in volume order.
pub open spec fn volumes_spec(body: Json) -> Seq<(Seq<char>, Seq<ChapterView>)> {
    match members_of(member_of(body, "volumes"@)) {
        Some(entries) => sorted_by(entries.filter_map(volume_reader()), order_of::<VolumeChapters>()),
        None => Seq::empty(),
    }
}

/// The chapters of one volume of the map, in chapter order.
fn chapters_from(volume: &Json) -> (r: Vec<ChapterRef>)
    ensures
        views_of(r@) == chapters_spec(*volume),
{
    let entries = match members(member(volume, "chapters")) {
        Some(e) => e,
        None => {
            let r: Vec<ChapterRef> = Vec::new();
            assert(views_of(r@) =~= Seq::<ChapterView>::empty());
            return r;
        },
    };
    let mut found: Vec<ChapterRef> = Vec::new();
    let mut i: usize = 0;
    while i < entries.len()
        invariant
            i <= entries@.len(),
            views_of(found@) == entries@.take(i as int).map_values(
                |e: (String, Json)| chapter_spec(e),
            ),
        decreases entries@.len() - i,
    {
        let entry = &entries[i].1;
        let c = ChapterRef {
            number: entries[i].0.clone(),
            id: owned(text(member(entry, "id"))),
            unavailable: match boolean(member(entry, "isUnavailable")) {
                Some(b) => b,
                None => false,
            },
        };
        let ghost before = found@;
        proof {
            assert(c@ == chapter_spec(entries@[i as int]));
        }
        found.push(c);
        proof {
            assert(views_of(found@) =~= views_of(before).push(c@));
            assert(entries@.take(i + 1).map_values(|e: (String, Json)| chapter_spec(e))
                =~= entries@.take(i as int).map_values(|e: (String, Json)| chapter_spec(e)).push(
                chapter_spec(entries@[i as int]),
            ));
        }
        i = i + 1;
    }
    assert(entries@.take(entries@.len() as int) =~= entries@);
    stable_sort(found)
}

/// The volume-to-chapter map in an answer, in volume order.
pub fn volumes_from(body: &Json) -> (r: Vec<VolumeChapters>)
    ensures
        views_of(r@) == volumes_spec(*body),
{
    let entries = match members(member(body, "volumes")) {
        Some(e) => e,
        None => {
            let r: Vec<VolumeChapters> = Vec::new();
            assert(views_of(r@) =~= Seq::<(Seq<char>, Seq<ChapterView>)>::empty());
            return r;
        },
    };
    let mut found: Vec<VolumeChapters> = Vec::new();
    let mut i: usize = 0;
    while i < entries.len()
        invariant
            i <= entries@.len(),
            views_of(found@) == entries@.take(i as int).filter_map(volume_reader()),
        decreases entries@.len() - i,
    {
        let ghost before = found@;
        proof {
            assert(entries@.take(i + 1).drop_last() =~= entries@.take(i as int));
            assert(entries@.take(i + 1).last() == entries@[i as int]);
            reveal_strlit("none");
        }
        let name = &entries[i].0;
        if !crate::text::eq_str(&chars_of(name.as_str()), "none") {
            let v = VolumeChapters { volume: name.clone(), chapters: chapters_from(&entries[i].1) };
            found.push(v);
            proof {
                assert(v@.1 == views_of(v.chapters@));
                assert(views_of(found@) =~= views_of(before).push(v@));
            }
        }
        i = i + 1;
    }
    assert(entries@.take(entries@.len() as int) =~= entries@);
    stable_sort(found)
}

/// What an image server answered for a chapter.
#[derive(Debug, Clone, PartialEq, Eq)]
pub enum PageList {
    /// The page images, in reading order.
    Pages(Vec<String>),
    /// The answer named no image server.
    NoServer,
    /// MangaDex indexes the chapter but serves no images for it.
    Unhosted,
}

/// The files of a chapter's answer that are text.
pub open spec fn file_names(body: Json) -> Seq<Seq<char>> {
    match items_of(member_of(member_of(body, "chapter"@), "data"@)) {
        Some(files) => files.filter_map(|f: Json| text_of(f)),
        None => Seq::empty(),
    }
}

/// A chapter's hash, or nothing.
pub open spec fn hash_of(body: Json) -> Seq<char> {
    match text_of(member_of(member_of(body, "chapter"@), "hash"@)) {
        Some(h) => h,
        None => Seq::empty(),
    }
}

/// The page addresses an image server's answer gives: the server, the
/// chapter's hash and each file; a chapter with no hash or no files is not
/// hosted there.
pub open spec fn page_list_spec(body: Json) -> Option<Seq<Seq<char>>> {
    match text_of(member_of(body, "baseUrl"@)) {
        None => None,
        Some(base) => if hash_of(body).len() == 0 || file_names(body).len() == 0 {
            Some(Seq::empty())
        } else {
            Some(
                file_names(body).map_values(
                    |f: Seq<char>| base + "/data/"@ + hash_of(body) + "/"@ + f,
                ),
            )
        },
    }
}

/// The page addresses an image server's answer gives.
pub fn page_urls(body: &Json) -> (r: PageList)
    ensures
        page_list_spec(*body) is None <==> r is NoServer,
        r matches PageList::Unhosted ==> page_list_spec(*body) == Some(Seq::<Seq<char>>::empty()),
        r matches PageList::Pages(v) ==> texts(v@) == page_list_spec(*body).unwrap() && v@.len()
            > 0,
{
    let base = match text(member(body, "baseUrl")) {
        Some(b) => b,
        None => return PageList::NoServer,
    };
    let chapter = member(body, "chapter");
    let hash = match text(member_in(chapter, "hash")) {
        Some(h) => h.clone(),
        None => String::from_str(""),
    };
    let mut files: Vec<String> = Vec::new();
    match items(member_in(chapter, "data")) {
        Some(list) => {
            let mut i: usize = 0;
            while i < list.len()
                invariant
                    i <= list@.len(),
                    texts(files@) == list@.take(i as int).filter_map(|f: Json| text_of(f)),
                decreases list@.len() - i,
            {
                let ghost before = files@;
                proof {
                    assert(list@.take(i + 1).drop_last() =~= list@.take(i as int));
                    assert(list@.take(i + 1).last() == list@[i as int]);
                }
                match &list[i] {
                    Json::Text(f) => {
                        files.push(f.clone());
                        proof {
                            assert(texts(files@) =~= texts(before).push(f@));
                        }
                    },
                    _ => {},
                }
                i = i + 1;
            }
            assert(list@.take(list@.len() as int) =~= list@);
        },
        None => {},
    }
    proof {
        reveal_strlit("");
        assert(texts(files@) == file_names(*body));
        assert(hash@ == hash_of(*body));
    }
    if chars_of(hash.as_str()).len() == 0 || files.len() == 0 {
        proof {
            if hash@.len() == 0 {
                assert(hash_of(*body).len() == 0);
            } else {
                assert(file_names(*body).len() == 0);
            }
        }
        return PageList::Unhosted;
    }
    let mut urls: Vec<String> = Vec::new();
    let mut i: usize = 0;
    while i < files.len()
        invariant
            i <= files@.len(),
            texts(files@) == file_names(*body),
            hash@ == hash_of(*body),
            text_of(member_of(*body, "baseUrl"@)) == Some(base@),
            texts(urls@) == texts(files@).take(i as int).map_values(
                |f: Seq<char>| base@ + "/data/"@ + hash_of(*body) + "/"@ + f,
            ),
        decreases files@.len() - i,
    {
        let mut u: Vec<char> = Vec::new();
        push_str(&mut u, base.as_str());
        push_str(&mut u, "/data/");
        push_str(&mut u, hash.as_str());
        push_str(&mut u, "/");
        push_str(&mut u, files[i].as_str());
        let ghost before = urls@;
        let url = string_of(u.as_slice());
        proof {
            assert(texts(files@)[i as int] == files@[i as int]@);
            assert(url@ == base@ + "/data/"@ + hash_of(*body) + "/"@ + texts(files@)[i as int]);
        }
        urls.push(url);
        proof {
            assert(texts(urls@) =~= texts(before).push(url@));
            assert(texts(files@).take(i + 1) =~= texts(files@).take(i as int).push(
                texts(files@)[i as int],
            ));
            assert(texts(urls@) =~= texts(files@).take(i + 1).map_values(
                |f: Seq<char>| base@ + "/data/"@ + hash_of(*body) + "/"@ + f,
            ));
        }
        i = i + 1;
    }
    assert(texts(files@).take(files@.len() as int) =~= texts(files@));
    PageList::Pages(urls)
}

/// Why a chapter has no images, from what the chapter says about itself:
/// when it points at the publisher's own reader, where to go instead.
pub open spec fn unhosted_reason_spec(chapter: Option<Json>) -> Seq<char> {
    let external = match chapter {
        Some(body) => text_of(
            member_of(member_of(member_of(body, "data"@), "attributes"@), "externalUrl"@),
        ),
        None => None,
    };
    match external {
        Some(url) => "MangaDex indexes this chapter but does not host its images — it is officially licensed and published at "@
            + url
            + ". Paste that page's URL into the chapter's Get dialog instead."@,
        None => "MangaDex has no images for this chapter yet."@,
    }
}

/// Why a chapter has no images; `chapter` is what the chapter says about
/// itself, when asking succeeded.
pub fn unhosted_reason(chapter: Option<&Json>) -> (r: String)
    ensures
        r@ == unhosted_reason_spec(match chapter {
            Some(c) => Some(*c),
            None => None,
        }),
{
    let external = match chapter {
        Some(body) => text(member_in(member_in(member(body, "data"), "attributes"), "externalUrl")),
        None => None,
    };
    match external {
        Some(url) => cat3(
            "MangaDex indexes this chapter but does not host its images — it is officially licensed and published at ",
            url.as_str(),
            ". Paste that page's URL into the chapter's Get dialog instead.",
        ),
        None => String::from_str("MangaDex has no images for this chapter yet."),
    }
}

/// Whether an address is served by the MangaDex@Home network. Cover art
/// comes from MangaDex's own servers, which are not part of it.
pub open spec fn at_home(url: Seq<char>) -> bool {
    find_from(url, ".mangadex.network"@, 0) >= 0
}

/// Whether an address is served by the MangaDex@Home network, whose
/// volunteers are told how each page fetch went.
pub fn is_at_home(url: &str) -> (r: bool)
    ensures
        r == at_home(url@),
{
    find_str(&chars_of(url), ".mangadex.network", 0).is_some()
}

} // verus!
