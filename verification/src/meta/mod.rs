//! Series metadata from public manga databases.
//!
//! MangaDex is the primary source: it publishes per-volume cover art and a
//! volume-to-chapter map. Kitsu is the fallback for looking a title up when
//! MangaDex cannot be reached. The requests are described here and the
//! answers read here; sending them is the caller's business.
use vstd::prelude::*;

use crate::text::{is_space, space};

pub mod json;
pub mod kitsu;
pub mod mangadex;

verus! {

/// A `String` option as text.
pub open spec fn opt_text(o: Option<String>) -> Option<Seq<char>> {
    match o {
        Some(s) => Some(s@),
        None => None,
    }
}

/// A series match as plain values.
pub struct SeriesView {
    pub source: Source,
    pub id: Seq<char>,
    pub title_english: Option<Seq<char>>,
    pub title_romaji: Option<Seq<char>>,
    pub title_native: Option<Seq<char>>,
    pub author: Option<Seq<char>>,
    pub artist: Option<Seq<char>>,
    pub description: Option<Seq<char>>,
    pub year: Option<u32>,
    pub status: Option<Seq<char>>,
    pub demographic: Option<Seq<char>>,
    pub thumbnail_url: Option<Seq<char>>,
    pub site_url: Option<Seq<char>>,
}

/// A cover as plain values: volume, full-size and thumbnail addresses.
pub type CoverView = (Option<Seq<char>>, Seq<char>, Seq<char>);

/// A chapter reference as plain values: number, identifier, unavailability.
pub type ChapterView = (Seq<char>, Option<Seq<char>>, bool);

/// A tag as plain values: identifier, name, group.
pub type TagView = (Seq<char>, Seq<char>, Seq<char>);

/// A query parameter as plain values.
pub type ParamView = (Seq<char>, Seq<char>);

/// Where a result came from.
#[derive(Debug, Clone, Copy, PartialEq, Eq, Structural)]
pub enum Source {
    MangaDex,
    Kitsu,
}

/// A candidate series returned by a search. The titles are kept apart: which
/// one belongs in a library is the user's call.
#[derive(Debug, Clone, PartialEq, Eq)]
pub struct SeriesMatch {
    pub source: Source,
    pub id: String,
    pub title_english: Option<String>,
    pub title_romaji: Option<String>,
    pub title_native: Option<String>,
    pub author: Option<String>,
    pub artist: Option<String>,
    pub description: Option<String>,
    pub year: Option<u32>,
    pub status: Option<String>,
    pub demographic: Option<String>,
    /// Small cover for the picker, not for embedding.
    pub thumbnail_url: Option<String>,
    pub site_url: Option<String>,
}

/// The title a list shows: English, else romanised, else native, else
/// "Untitled".
pub open spec fn display_title_of(m: SeriesMatch) -> Seq<char> {
    match m.title_english {
        Some(t) => t@,
        None => match m.title_romaji {
            Some(t) => t@,
            None => match m.title_native {
                Some(t) => t@,
                None => "Untitled"@,
            },
        },
    }
}

impl SeriesMatch {
    /// The title to show in a list, preferring the most readable form.
    pub fn display_title(&self) -> (r: &str)
        ensures
            r@ == display_title_of(*self),
    {
        match &self.title_english {
            Some(t) => t.as_str(),
            None => match &self.title_romaji {
                Some(t) => t.as_str(),
                None => match &self.title_native {
                    Some(t) => t.as_str(),
                    None => "Untitled",
                },
            },
        }
    }
}

/// One volume's cover art.
#[derive(Debug, Clone, PartialEq, Eq)]
pub struct VolumeCover {
    /// Volume number as published, e.g. `"1"`; `None` for untagged art.
    pub volume: Option<String>,
    /// Full resolution, for embedding in the book.
    pub url: String,
    /// Downscaled, for the picker.
    pub thumbnail_url: String,
}

/// How to order a browse. Every one can run either way.
#[derive(Debug, Clone, Copy, PartialEq, Eq, Structural)]
pub enum Sort {
    /// Whatever was uploaded to most recently.
    LatestUpload,
    /// What most people are reading.
    Follows,
    Rating,
    /// Newest entries in the catalogue.
    RecentlyAdded,
    Title,
    /// Only meaningful alongside a title query.
    Relevance,
}

/// The API's parameter name for an ordering.
pub open spec fn sort_key_of(sort: Sort) -> Seq<char> {
    match sort {
        Sort::LatestUpload => "latestUploadedChapter"@,
        Sort::Follows => "followedCount"@,
        Sort::Rating => "rating"@,
        Sort::RecentlyAdded => "createdAt"@,
        Sort::Title => "title"@,
        Sort::Relevance => "relevance"@,
    }
}

impl Sort {
    /// The API's parameter name for this ordering.
    pub fn key(self) -> (r: &'static str)
        ensures
            r@ == sort_key_of(self),
    {
        match self {
            Sort::LatestUpload => "latestUploadedChapter",
            Sort::Follows => "followedCount",
            Sort::Rating => "rating",
            Sort::RecentlyAdded => "createdAt",
            Sort::Title => "title",
            Sort::Relevance => "relevance",
        }
    }
}

/// How explicit a series is allowed to be.
#[derive(Debug, Clone, Copy, PartialEq, Eq, Structural)]
pub enum ContentRating {
    Safe,
    Suggestive,
    Erotica,
    Pornographic,
}

/// The API's name for a content rating.
pub open spec fn rating_key_of(rating: ContentRating) -> Seq<char> {
    match rating {
        ContentRating::Safe => "safe"@,
        ContentRating::Suggestive => "suggestive"@,
        ContentRating::Erotica => "erotica"@,
        ContentRating::Pornographic => "pornographic"@,
    }
}

/// What a fresh install browses with: safe and suggestive, nothing more.
pub open spec fn default_ratings() -> Seq<ContentRating> {
    seq![ContentRating::Safe, ContentRating::Suggestive]
}

impl ContentRating {
    /// The API's name for this rating.
    pub fn key(self) -> (r: &'static str)
        ensures
            r@ == rating_key_of(self),
    {
        match self {
            ContentRating::Safe => "safe",
            ContentRating::Suggestive => "suggestive",
            ContentRating::Erotica => "erotica",
            ContentRating::Pornographic => "pornographic",
        }
    }

    /// What a fresh install browses with: a browse with no query is the first
    /// thing the panel shows and should not open on anything unasked for.
    pub fn default_set() -> (r: Vec<ContentRating>)
        ensures
            r@ == default_ratings(),
    {
        let mut v: Vec<ContentRating> = Vec::new();
        v.push(ContentRating::Safe);
        v.push(ContentRating::Suggestive);
        assert(v@ =~= default_ratings());
        v
    }
}

/// A tag a series can be filed under.
#[derive(Debug, Clone, PartialEq, Eq)]
pub struct Tag {
    pub id: String,
    pub name: String,
    /// `genre`, `theme`, `format` or `content`.
    pub group: String,
}

/// What to browse for. The default is a plain catalogue listing: exploring
/// should not require a search term.
#[derive(Debug, Clone, PartialEq, Eq)]
pub struct BrowseQuery {
    /// Free text. Ordering by relevance needs one.
    pub title: Option<String>,
    pub sort: Sort,
    pub descending: bool,
    pub included_tags: Vec<String>,
    pub excluded_tags: Vec<String>,
    pub content_ratings: Vec<ContentRating>,
    /// `ongoing`, `completed`, `hiatus`, `cancelled`.
    pub status: Vec<String>,
    /// `shounen`, `shoujo`, `josei`, `seinen`.
    pub demographic: Vec<String>,
    pub limit: u32,
    pub offset: u32,
}

impl Default for BrowseQuery {
    /// The most followed series first, thirty-two at a time, safe and
    /// suggestive only.
    fn default() -> (r: BrowseQuery)
        ensures
            r.title is None,
            r.sort == Sort::Follows,
            r.descending,
            r.included_tags@.len() == 0,
            r.excluded_tags@.len() == 0,
            r.content_ratings@ == default_ratings(),
            r.status@.len() == 0,
            r.demographic@.len() == 0,
            r.limit == 32,
            r.offset == 0,
    {
        BrowseQuery {
            title: None,
            sort: Sort::Follows,
            descending: true,
            included_tags: Vec::new(),
            excluded_tags: Vec::new(),
            content_ratings: ContentRating::default_set(),
            status: Vec::new(),
            demographic: Vec::new(),
            limit: 32,
            offset: 0,
        }
    }
}

/// One page of browse results.
#[derive(Debug, Clone, PartialEq, Eq)]
pub struct BrowsePage {
    pub series: Vec<SeriesMatch>,
    /// How many match the query in total, for paging.
    pub total: u32,
    pub offset: u32,
}

/// One chapter as the source knows it.
#[derive(Debug, Clone, PartialEq, Eq)]
pub struct ChapterRef {
    /// Chapter number as published, e.g. `"7"` or `"7.5"`.
    pub number: String,
    /// The source's own identifier, which fetching pages needs.
    pub id: Option<String>,
    /// The source lists this chapter but cannot serve its images: the pages
    /// live on the publisher's own reader.
    pub unavailable: bool,
}

/// Which chapters a published volume contains.
#[derive(Debug, Clone, PartialEq, Eq)]
pub struct VolumeChapters {
    pub volume: String,
    pub chapters: Vec<ChapterRef>,
}

/// A GET request to a source: the address and its query parameters, in order.
#[derive(Debug, Clone, PartialEq, Eq)]
pub struct Request {
    pub url: String,
    pub params: Vec<(String, String)>,
}

/// Parameters as plain pairs.
pub open spec fn param_views(params: Seq<(String, String)>) -> Seq<ParamView> {
    params.map_values(|p: (String, String)| (p.0@, p.1@))
}

/// A request's parameters as plain pairs.
pub open spec fn params_of(r: Request) -> Seq<ParamView> {
    param_views(r.params@)
}

impl View for Request {
    type V = (Seq<char>, Seq<ParamView>);

    open spec fn view(&self) -> (Seq<char>, Seq<ParamView>) {
        (self.url@, params_of(*self))
    }
}

impl View for SeriesMatch {
    type V = SeriesView;

    open spec fn view(&self) -> SeriesView {
        SeriesView {
            source: self.source,
            id: self.id@,
            title_english: opt_text(self.title_english),
            title_romaji: opt_text(self.title_romaji),
            title_native: opt_text(self.title_native),
            author: opt_text(self.author),
            artist: opt_text(self.artist),
            description: opt_text(self.description),
            year: self.year,
            status: opt_text(self.status),
            demographic: opt_text(self.demographic),
            thumbnail_url: opt_text(self.thumbnail_url),
            site_url: opt_text(self.site_url),
        }
    }
}

impl View for VolumeCover {
    type V = CoverView;

    open spec fn view(&self) -> CoverView {
        (opt_text(self.volume), self.url@, self.thumbnail_url@)
    }
}

impl View for ChapterRef {
    type V = ChapterView;

    open spec fn view(&self) -> ChapterView {
        (self.number@, opt_text(self.id), self.unavailable)
    }
}

impl View for VolumeChapters {
    type V = (Seq<char>, Seq<ChapterView>);

    open spec fn view(&self) -> (Seq<char>, Seq<ChapterView>) {
        (self.volume@, self.chapters@.map_values(|c: ChapterRef| c@))
    }
}

impl View for Tag {
    type V = TagView;

    open spec fn view(&self) -> TagView {
        (self.id@, self.name@, self.group@)
    }
}

/// Covers as plain values.
pub open spec fn cover_views(v: Seq<VolumeCover>) -> Seq<CoverView> {
    v.map_values(|c: VolumeCover| c@)
}

/// Series matches as plain values.
pub open spec fn series_views(v: Seq<SeriesMatch>) -> Seq<SeriesView> {
    v.map_values(|m: SeriesMatch| m@)
}

/// Whether a text is blank: empty or white space only.
pub open spec fn blank(s: Seq<char>) -> bool {
    forall|i: int| 0 <= i < s.len() ==> is_space(s[i])
}

/// Whether a text is blank.
pub fn is_blank(s: &str) -> (r: bool)
    ensures
        r == blank(s@),
{
    let v = crate::text::chars_of(s);
    let mut i: usize = 0;
    while i < v.len()
        invariant
            v@ == s@,
            i <= v@.len(),
            forall|j: int| 0 <= j < i ==> is_space(v@[j]),
        decreases v@.len() - i,
    {
        if !space(v[i]) {
            return false;
        }
        i = i + 1;
    }
    true
}

/// A search's answer when it needs no request: a blank query finds nothing
/// and asks nobody. `None` means the sources must be asked.
pub fn search(query: &str, limit: u32) -> (r: Option<Vec<SeriesMatch>>)
    ensures
        blank(query@) ==> (r matches Some(v) && v@.len() == 0),
        !blank(query@) ==> r is None,
{
    if is_blank(query) {
        Some(Vec::new())
    } else {
        None
    }
}

/// Whether Kitsu must be asked after MangaDex answered a search: unless
/// MangaDex found something.
pub open spec fn needs_fallback_of(primary: Result<Vec<SeriesMatch>, String>) -> bool {
    !(primary matches Ok(hits) && hits@.len() > 0)
}

/// Whether Kitsu must be asked after MangaDex answered a search.
pub fn needs_fallback(primary: &Result<Vec<SeriesMatch>, String>) -> (r: bool)
    ensures
        r == needs_fallback_of(*primary),
{
    match primary {
        Ok(hits) => hits.len() == 0,
        Err(_) => true,
    }
}

/// The answer to a search that fell back to Kitsu: Kitsu's results when it
/// answered, and otherwise an error, MangaDex's own when both failed, as the
/// more useful one.
pub fn settle_search(
    primary: Result<Vec<SeriesMatch>, String>,
    fallback: Result<Vec<SeriesMatch>, String>,
) -> (r: Result<Vec<SeriesMatch>, String>)
    ensures
        fallback is Ok ==> r == fallback,
        fallback is Err && primary is Err ==> r == primary,
        fallback is Err && primary is Ok ==> r == fallback,
{
    match fallback {
        Ok(hits) => Ok(hits),
        Err(fallback_err) => match primary {
            Err(e) => Err(e),
            Ok(_) => Err(fallback_err),
        },
    }
}

/// The message for a source that does not host chapter images.
pub open spec fn no_images_message() -> Seq<char> {
    "Kitsu does not host chapter images"@
}

/// The request for the image addresses of one chapter. Only MangaDex hosts
/// chapter images.
pub fn chapter_pages(source: Source, chapter_id: &str) -> (r: Result<Request, String>)
    ensures
        source == Source::Kitsu ==> (r matches Err(e) && e@ == no_images_message()),
        source == Source::MangaDex ==> (r matches Ok(q) && q@ == mangadex::chapter_pages_request(
            chapter_id@,
        )),
{
    match source {
        Source::MangaDex => Ok(mangadex::chapter_pages(chapter_id)),
        Source::Kitsu => Err(String::from_str("Kitsu does not host chapter images")),
    }
}

/// The request for a series's volume-to-chapter map; Kitsu has none, so the
/// map is empty without asking.
pub fn volume_chapters(source: Source, id: &str) -> (r: Option<Request>)
    ensures
        source == Source::Kitsu ==> r is None,
        source == Source::MangaDex ==> (r matches Some(q) && q@ == mangadex::aggregate_request(id@)),
{
    match source {
        Source::MangaDex => Some(mangadex::volume_chapters(id)),
        Source::Kitsu => None,
    }
}

/// The request for a series's covers: every volume's from MangaDex, the single
/// poster from Kitsu.
pub fn volume_covers(source: Source, id: &str) -> (r: Request)
    ensures
        source == Source::MangaDex ==> r@ == mangadex::covers_request(id@),
        source == Source::Kitsu ==> r@ == kitsu::poster_request(id@),
{
    match source {
        Source::MangaDex => mangadex::volume_covers(id),
        Source::Kitsu => kitsu::poster(id),
    }
}

/// The covers a source answered with: MangaDex's list, or Kitsu's poster as
/// one untagged cover.
pub fn covers_of(source: Source, id: &str, body: &json::Json) -> (r: Vec<VolumeCover>)
    ensures
        source == Source::MangaDex ==> cover_views(r@) == mangadex::covers_spec(id@, *body),
        source == Source::Kitsu ==> cover_views(r@) == (match kitsu::poster_spec(*body) {
            Some(c) => seq![c],
            None => Seq::empty(),
        }),
{
    match source {
        Source::MangaDex => mangadex::covers_from(id, body),
        Source::Kitsu => {
            let mut v: Vec<VolumeCover> = Vec::new();
            match kitsu::poster_from(body) {
                Some(c) => v.push(c),
                None => {},
            }
            assert(cover_views(v@) =~= (match kitsu::poster_spec(*body) {
                Some(c) => seq![c],
                None => Seq::empty(),
            }));
            v
        },
    }
}

/// The request for browsing the catalogue; only MangaDex is browsed.
pub fn browse(query: &BrowseQuery) -> (r: Request)
    ensures
        r@ == (mangadex::manga_url(), mangadex::browse_params(*query)),
{
    mangadex::browse(query)
}

/// The request for every tag a series can carry.
pub fn tags() -> (r: Request)
    ensures
        r@ == mangadex::tags_request(),
{
    mangadex::tags()
}

/// The report MangaDex is sent about one page fetch from its volunteer
/// network, as JSON: address, success, whether it came from a cache, size
/// and time taken. Only pages served by that network are reported, so for
/// anything else there is none.
pub fn report_page_fetch(url: &str, success: bool, cached: bool, bytes: usize, millis: u64) -> (r:
    Option<json::Json>)
    ensures
        !mangadex::at_home(url@) ==> r is None,
        mangadex::at_home(url@) ==> (r matches Some(json::Json::Object(members)) && {
            &&& members@.len() == 5
            &&& members@[0].0@ == "url"@ && json::text_of(members@[0].1) == Some(url@)
            &&& members@[1].0@ == "success"@ && members@[1].1 == json::Json::Bool(success)
            &&& members@[2].0@ == "cached"@ && members@[2].1 == json::Json::Bool(cached)
            &&& members@[3].0@ == "bytes"@ && members@[3].1 == json::Json::Number(
                Some(bytes as u64),
            )
            &&& members@[4].0@ == "duration"@ && members@[4].1 == json::Json::Number(Some(millis))
        }),
{
    if !mangadex::is_at_home(url) {
        return None;
    }
    let mut members: Vec<(String, json::Json)> = Vec::new();
    members.push((String::from_str("url"), json::Json::Text(String::from_str(url))));
    members.push((String::from_str("success"), json::Json::Bool(success)));
    members.push((String::from_str("cached"), json::Json::Bool(cached)));
    members.push((String::from_str("bytes"), json::Json::Number(Some(bytes as u64))));
    members.push((String::from_str("duration"), json::Json::Number(Some(millis))));
    Some(json::Json::Object(members))
}

} // verus!
