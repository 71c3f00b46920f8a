//! Between the library and the metadata sources: how a source is named in
//! the library, what a search result becomes when it is added, and how a
//! source's volume map and covers become the layout the library syncs to.
use vstd::prelude::*;

use super::model::{NewSeries, PublishedChapter, PublishedVolume};
use crate::meta::{display_title_of, opt_text, ChapterRef, SeriesMatch, Source, VolumeChapters, VolumeCover};
use crate::text::{chars_of, eq_str, push_str, string_of};

verus! {

/// The name a source is stored under.
pub open spec fn source_name_of(source: Source) -> Seq<char> {
    match source {
        Source::MangaDex => "mangadex"@,
        Source::Kitsu => "kitsu"@,
    }
}

/// The name a source is stored under.
pub fn source_name(source: Source) -> (r: &'static str)
    ensures
        r@ == source_name_of(source),
{
    match source {
        Source::MangaDex => "mangadex",
        Source::Kitsu => "kitsu",
    }
}

/// `Debug` formatting of a string: quoted, with escapes.
pub uninterp spec fn debug_quoted(s: Seq<char>) -> Seq<char>;

/// `format!("{:?}", s)` for a string.
#[verifier::external_body]
fn quoted(s: &str) -> (r: String)
    ensures
        r@ == debug_quoted(s@),
{
    format!("{s:?}")
}

/// The source a stored name stands for; any other name is an error that
/// quotes it.
pub fn parse_source(name: &str) -> (r: Result<Source, String>)
    ensures
        name@ == "mangadex"@ ==> r == Ok::<Source, String>(Source::MangaDex),
        name@ == "kitsu"@ ==> r == Ok::<Source, String>(Source::Kitsu),
        name@ != "mangadex"@ && name@ != "kitsu"@ ==> (r matches Err(e) && e@
            == "unknown metadata source "@ + debug_quoted(name@)),
{
    let n = chars_of(name);
    proof {
        reveal_strlit("mangadex");
        reveal_strlit("kitsu");
        assert("kitsu"@.len() == 5);
        assert("mangadex"@.len() == 8);
        assert("kitsu"@ != "mangadex"@);
    }
    if eq_str(&n, "mangadex") {
        Ok(Source::MangaDex)
    } else if eq_str(&n, "kitsu") {
        Ok(Source::Kitsu)
    } else {
        let mut out: Vec<char> = Vec::new();
        push_str(&mut out, "unknown metadata source ");
        push_str(&mut out, quoted(name).as_str());
        Err(string_of(out.as_slice()))
    }
}

/// A text option, copied.
fn copied(o: &Option<String>) -> (r: Option<String>)
    ensures
        opt_text(r) == opt_text(*o),
{
    match o {
        Some(s) => Some(s.clone()),
        None => None,
    }
}

/// A text option, or nothing.
fn or_empty(o: &Option<String>) -> (r: String)
    ensures
        r@ == match o {
            Some(s) => s@,
            None => Seq::<char>::empty(),
        },
{
    match o {
        Some(s) => s.clone(),
        None => String::new(),
    }
}

/// The series a search result is added to the library as: the source and
/// its id, the title a list shows, the other titles and the details, with
/// the missing text details left empty.
pub fn new_series_from(m: &SeriesMatch) -> (r: NewSeries)
    ensures
        opt_text(r.source) == Some(source_name_of(m.source)),
        opt_text(r.source_id) == Some(m.id@),
        r.title@ == display_title_of(*m),
        opt_text(r.title_romaji) == opt_text(m.title_romaji),
        opt_text(r.title_native) == opt_text(m.title_native),
        r.author@ == match m.author {
            Some(a) => a@,
            None => Seq::<char>::empty(),
        },
        r.artist@ == match m.artist {
            Some(a) => a@,
            None => Seq::<char>::empty(),
        },
        r.description@ == match m.description {
            Some(d) => d@,
            None => Seq::<char>::empty(),
        },
        r.year == m.year,
        opt_text(r.status) == opt_text(m.status),
        opt_text(r.site_url) == opt_text(m.site_url),
        r.tags@.len() == 0,
        r.content_rating is None,
{
    NewSeries {
        source: Some(String::from_str(source_name(m.source))),
        source_id: Some(m.id.clone()),
        title: String::from_str(m.display_title()),
        title_romaji: copied(&m.title_romaji),
        title_native: copied(&m.title_native),
        author: or_empty(&m.author),
        artist: or_empty(&m.artist),
        description: or_empty(&m.description),
        year: m.year,
        status: copied(&m.status),
        site_url: copied(&m.site_url),
        tags: Vec::new(),
        content_rating: None,
    }
}

/// The address of the first cover tagged with volume `volume`.
pub open spec fn cover_for(covers: Seq<VolumeCover>, volume: Seq<char>) -> Option<Seq<char>>
    decreases covers.len(),
{
    if covers.len() == 0 {
        None
    } else if opt_text(covers[0].volume) == Some(volume) {
        Some(covers[0].url@)
    } else {
        cover_for(covers.skip(1), volume)
    }
}

/// A published chapter as plain values: number, title, id, unavailability.
pub type PublishedChapterView = (Seq<char>, Option<Seq<char>>, Option<Seq<char>>, bool);

/// A published chapter as plain values.
pub open spec fn published_chapter_view(c: PublishedChapter) -> PublishedChapterView {
    (c.number@, opt_text(c.title), opt_text(c.source_id), c.unavailable)
}

/// What a source's chapter becomes in a layout: no title, its id and
/// availability carried over.
pub open spec fn chapter_from_source(c: ChapterRef) -> PublishedChapterView {
    (c.number@, None, opt_text(c.id), c.unavailable)
}

/// One volume of a layout: the source's volume, its chapters as they come,
/// and the first cover tagged with its number.
pub open spec fn layout_volume(v: VolumeChapters, covers: Seq<VolumeCover>) -> (
    Seq<char>,
    Option<Seq<char>>,
    Seq<PublishedChapterView>,
) {
    (
        v.volume@,
        cover_for(covers, v.volume@),
        v.chapters@.map_values(|c: ChapterRef| chapter_from_source(c)),
    )
}

/// A published volume as plain values.
pub open spec fn published_volume_view(v: PublishedVolume) -> (
    Seq<char>,
    Option<Seq<char>>,
    Seq<PublishedChapterView>,
) {
    (
        v.number@,
        opt_text(v.cover_url),
        v.chapters@.map_values(|c: PublishedChapter| published_chapter_view(c)),
    )
}

/// The first cover tagged with volume `volume`.
fn find_cover(covers: &Vec<VolumeCover>, volume: &String) -> (r: Option<String>)
    ensures
        opt_text(r) == cover_for(covers@, volume@),
{
    let v = chars_of(volume.as_str());
    let mut i: usize = 0;
    assert(covers@.skip(0) =~= covers@);
    while i < covers.len()
        invariant
            i <= covers@.len(),
            v@ == volume@,
            cover_for(covers@, volume@) == cover_for(covers@.skip(i as int), volume@),
        decreases covers@.len() - i,
    {
        assert(covers@.skip(i as int).skip(1) =~= covers@.skip(i + 1));
        let tagged = match &covers[i].volume {
            Some(t) => eq_str(&v, t.as_str()),
            None => false,
        };
        if tagged {
            return Some(covers[i].url.clone());
        }
        i = i + 1;
    }
    None
}

/// The layout a source publishes: each of its volumes with its chapters,
/// and the cover art tagged with that volume.
pub fn published_layout(published: &Vec<VolumeChapters>, covers: &Vec<VolumeCover>) -> (r: Vec<PublishedVolume>)
    ensures
        r@.len() == published@.len(),
        forall|k: int|
            0 <= k < r@.len() ==> published_volume_view(#[trigger] r@[k]) == layout_volume(
                published@[k],
                covers@,
            ),
{
    let mut out: Vec<PublishedVolume> = Vec::new();
    let mut i: usize = 0;
    while i < published.len()
        invariant
            i <= published@.len(),
            out@.len() == i,
            forall|k: int|
                0 <= k < i ==> published_volume_view(#[trigger] out@[k]) == layout_volume(
                    published@[k],
                    covers@,
                ),
        decreases published@.len() - i,
    {
        let v = &published[i];
        let mut chapters: Vec<PublishedChapter> = Vec::new();
        let mut j: usize = 0;
        while j < v.chapters.len()
            invariant
                j <= v.chapters@.len(),
                chapters@.map_values(|c: PublishedChapter| published_chapter_view(c))
                    == v.chapters@.take(j as int).map_values(
                    |c: ChapterRef| chapter_from_source(c),
                ),
            decreases v.chapters@.len() - j,
        {
            let c = &v.chapters[j];
            let p = PublishedChapter {
                number: c.number.clone(),
                title: None,
                source_id: copied(&c.id),
                unavailable: c.unavailable,
            };
            let ghost before = chapters@;
            proof {
                assert(published_chapter_view(p) == chapter_from_source(v.chapters@[j as int]));
            }
            chapters.push(p);
            proof {
                assert(chapters@.map_values(|c: PublishedChapter| published_chapter_view(c))
                    =~= before.map_values(|c: PublishedChapter| published_chapter_view(c)).push(
                    published_chapter_view(p),
                ));
                assert(v.chapters@.take(j + 1).map_values(|c: ChapterRef| chapter_from_source(c))
                    =~= v.chapters@.take(j as int).map_values(|c: ChapterRef| chapter_from_source(c)).push(
                    chapter_from_source(v.chapters@[j as int]),
                ));
                assert(chapters@.map_values(|c: PublishedChapter| published_chapter_view(c))
                    =~= v.chapters@.take(j + 1).map_values(|c: ChapterRef| chapter_from_source(c)));
            }
            j = j + 1;
        }
        assert(v.chapters@.take(j as int) =~= v.chapters@);
        let pv = PublishedVolume {
            number: v.volume.clone(),
            cover_url: find_cover(covers, &v.volume),
            chapters,
        };
        out.push(pv);
        proof {
            assert(published_volume_view(out@[i as int]) == layout_volume(published@[i as int], covers@));
        }
        i = i + 1;
    }
    out
}

} // verus!
