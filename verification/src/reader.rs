//! What the reader is handed: a chapter on disk or streamed from its source,
//! the chapters of a translation to move between, and the key a streamed
//! page is cached under.
use vstd::prelude::*;

use crate::library::index::{
    chapter_pos, first_where, folder_of, has_series, lemma_first_where, lemma_first_where_at, held_of,
    no_chapter_message, no_series_message, not_downloaded_message, numbers_of, page_files_of, paths_of,
    series_pos, series_view_of, Index, ChapterRecord, edited, existing_pos, inserted, inserted_pos,
    streamed_in, with_chapters, IndexState, ids_exhausted_message, lemma_has_series, index_wf,
};
use crate::library::model::NewSeries;
use crate::library::model::SeriesId;
use crate::meta::{opt_text, ChapterRef, VolumeChapters};
use crate::order::{order_of, sorted_by, views_of};
use crate::scan::FileProbe;
use crate::text::{chars_of, find_char, find_char_from, find_from, find_str, push_str, slice_of, string_of, texts};
use crate::library::index::ChapterRow;

verus! {

/// Page addresses for a chapter read straight from its source. No pages with
/// an external address is no failure: the source indexes the chapter and the
/// publisher hosts it, which the reader shows as a destination.
#[derive(Debug, Clone, PartialEq, Eq)]
pub struct OnlineChapter {
    pub pages: Vec<String>,
    pub external_url: Option<String>,
    /// Ready to show; empty when the pages came back fine.
    pub message: Option<String>,
}

/// Everything the reader needs to open a chapter.
#[derive(Debug, Clone, PartialEq, Eq)]
pub struct ReaderChapter {
    pub series_id: i64,
    pub series_title: String,
    pub number: String,
    pub title: Option<String>,
    /// `right-to-left` or `left-to-right`, from the series.
    pub direction: String,
    /// Page files, in reading order.
    pub pages: Vec<String>,
    /// Zero-based page to open on.
    pub last_page: u32,
    /// Adjacent downloaded chapters, for moving between them.
    pub previous: Option<String>,
    pub next: Option<String>,
    /// Where the series came from, enough to stream the same chapter in
    /// another translation.
    pub source: Option<String>,
    pub series_source_id: Option<String>,
    pub language: String,
}

/// One chapter of a translation: an id to open and a number to match.
#[derive(Debug, Clone, PartialEq, Eq)]
pub struct OnlineChapterRef {
    pub id: String,
    pub number: String,
}

/// What the reader knows about a chapter it is streaming.
#[derive(Debug, Clone, PartialEq, Eq)]
pub struct OnlineRead {
    pub source: String,
    pub series_source_id: String,
    pub title: String,
    pub cover_url: Option<String>,
    pub chapter: String,
    pub chapter_source_id: String,
    /// How long the chapter is, so history can say "page 4 of 37".
    pub pages: u32,
    /// Which translation is being read.
    pub language: Option<String>,
}

/// The chapters of a volume map that can be opened from the source, as
/// (id, number): those it serves and has an id for.
pub open spec fn openable(c: ChapterRef) -> Option<(Seq<char>, Seq<char>)> {
    if c.unavailable {
        None
    } else {
        match c.id {
            Some(id) => Some((id@, c.number@)),
            None => None,
        }
    }
}

/// Every openable chapter of a volume map, volume by volume, in order.
pub open spec fn online_chapters_spec(volumes: Seq<VolumeChapters>) -> Seq<(Seq<char>, Seq<char>)>
    decreases volumes.len(),
{
    if volumes.len() == 0 {
        Seq::empty()
    } else {
        online_chapters_spec(volumes.drop_last()) + volumes.last().chapters@.filter_map(
            |c: ChapterRef| openable(c),
        )
    }
}

/// References as plain values.
pub open spec fn ref_views(v: Seq<OnlineChapterRef>) -> Seq<(Seq<char>, Seq<char>)> {
    v.map_values(|r: OnlineChapterRef| (r.id@, r.number@))
}

/// Every chapter of a series in one translation, in reading order: what
/// comes next when reading on, and where chapter 6 is in another language —
/// chapter numbers line up across translations even though ids do not.
pub fn online_chapters(volumes: &Vec<VolumeChapters>) -> (r: Vec<OnlineChapterRef>)
    ensures
        ref_views(r@) == online_chapters_spec(volumes@),
{
    let mut out: Vec<OnlineChapterRef> = Vec::new();
    let mut i: usize = 0;
    while i < volumes.len()
        invariant
            i <= volumes@.len(),
            ref_views(out@) == online_chapters_spec(volumes@.take(i as int)),
        decreases volumes@.len() - i,
    {
        let cs = &volumes[i].chapters;
        let ghost base = ref_views(out@);
        let mut j: usize = 0;
        while j < cs.len()
            invariant
                j <= cs@.len(),
                ref_views(out@) == base + cs@.take(j as int).filter_map(|c: ChapterRef| openable(c)),
            decreases cs@.len() - j,
        {
            let ghost before = out@;
            proof {
                assert(cs@.take(j + 1).drop_last() =~= cs@.take(j as int));
                assert(cs@.take(j + 1).last() == cs@[j as int]);
            }
            let c = &cs[j];
            if !c.unavailable {
                match &c.id {
                    Some(id) => {
                        let r = OnlineChapterRef { id: id.clone(), number: c.number.clone() };
                        out.push(r);
                        proof {
                            assert(ref_views(out@) =~= ref_views(before).push((r.id@, r.number@)));
                        }
                    },
                    None => {},
                }
            }
            j = j + 1;
        }
        proof {
            assert(cs@.take(j as int) =~= cs@);
            assert(volumes@.take(i + 1).drop_last() =~= volumes@.take(i as int));
            assert(volumes@.take(i + 1).last() == volumes@[i as int]);
        }
        i = i + 1;
    }
    assert(volumes@.take(i as int) =~= volumes@);
    out
}

/// FNV-1a over 64 bits.
pub open spec fn fnv64(bytes: Seq<u8>) -> u64
    decreases bytes.len(),
{
    if bytes.len() == 0 {
        0xcbf2_9ce4_8422_2325
    } else {
        vstd::wrapping::u64_specs::wrapping_mul(
            fnv64(bytes.drop_last()) ^ (bytes.last() as u64),
            0x0000_0100_0000_01b3,
        )
    }
}

/// The part of a page address that names the image: from the first `/` after
/// the scheme's `://`, or the whole address when there is no such part.
pub open spec fn image_path(url: Seq<char>) -> Seq<char> {
    let s = find_from(url, "://"@, 0);
    if s < 0 {
        url
    } else {
        let rest = url.skip(s + 3);
        let slash = find_char_from(rest, '/', 0);
        if slash < 0 {
            url
        } else {
            rest.skip(slash)
        }
    }
}

/// The key a streamed page is cached under. MangaDex@Home hands out a
/// different server on every request, so hashing the whole address would
/// miss every time; the path identifies the image itself.
pub fn stable_key(url: &str) -> (r: u64)
    ensures
        r == fnv64(vstd::utf8::encode_utf8(image_path(url@))),
{
    let u = chars_of(url);
    let path = match find_str(&u, "://", 0) {
        None => u,
        Some(s) => {
            proof {
                crate::text::lemma_find_from(u@, "://"@, 0);
                reveal_strlit("://");
                assert("://"@.len() == 3);
                assert(crate::text::matches_at(u@, "://"@, s as int));
                assert(s + 3 <= u@.len());
            }
            let n = u.len();
            assert(s + 3 <= n);
            let start: usize = s + 3;
            let rest = slice_of(&u, start, n);
            assert(rest@ =~= u@.skip(start as int));
            match find_char(&rest, '/', 0) {
                None => u,
                Some(slash) => {
                    proof {
                        crate::text::lemma_find_char_from(rest@, '/', 0);
                    }
                    let p = slice_of(&rest, slash, rest.len());
                    assert(p@ =~= rest@.skip(slash as int));
                    p
                },
            }
        },
    };
    let text = string_of(path.as_slice());
    let bytes = text.as_str().as_bytes();
    let mut h: u64 = 0xcbf2_9ce4_8422_2325;
    let mut i: usize = 0;
    assert(bytes@.take(0) =~= Seq::<u8>::empty());
    while i < bytes.len()
        invariant
            i <= bytes@.len(),
            h == fnv64(bytes@.take(i as int)),
        decreases bytes@.len() - i,
    {
        assert(bytes@.take(i + 1).drop_last() =~= bytes@.take(i as int));
        h = h ^ (bytes[i] as u64);
        h = h.wrapping_mul(0x0000_0100_0000_01b3);
        i = i + 1;
    }
    assert(bytes@.take(i as int) =~= bytes@);
    h
}


/// The downloaded chapters before and after `number` in reading order.
pub open spec fn neighbours(order: Seq<Seq<char>>, number: Seq<char>) -> (Option<Seq<char>>, Option<Seq<char>>) {
    let at = first_where(order, |x: Seq<char>| x == number);
    if at < 0 {
        (None, None)
    } else {
        (
            if at > 0 {
                Some(order[at - 1])
            } else {
                None
            },
            if at + 1 < order.len() {
                Some(order[at + 1])
            } else {
                None
            },
        )
    }
}

/// The message for a chapter whose folder holds no pages.
pub open spec fn no_pages_message(number: Seq<char>) -> Seq<char> {
    "chapter "@ + number + " has no pages on disk"@
}

impl Index {
    /// Open chapter `number` of series `id` for reading, given the listing
    /// of its folder: its pages in reading order, the page to open on (the
    /// last one read, brought back inside the chapter when a re-download
    /// made it shorter), and the downloaded chapters either side of it.
    pub fn reader_chapter(&self, id: SeriesId, number: &str, listing: Vec<FileProbe>) -> (r: Result<
        ReaderChapter,
        String,
    >)
        ensures
            !has_series(self@, id.0) ==> (r matches Err(e) && e@ == no_series_message(id.0)),
            has_series(self@, id.0) && chapter_pos(self@.chapters, id.0, number@) < 0 ==> (r matches Err(e)
                && e@ == no_chapter_message(id.0, number@)),
            has_series(self@, id.0) && chapter_pos(self@.chapters, id.0, number@) >= 0
                && self@.chapters[chapter_pos(self@.chapters, id.0, number@)].folder is None ==> (r matches Err(
                e,
            ) && e@ == not_downloaded_message(number@)),
            ({
                let pages = paths_of(sorted_by(page_files_of(views_of(listing@)), order_of::<FileProbe>()));
                has_series(self@, id.0) && chapter_pos(self@.chapters, id.0, number@) >= 0
                    && self@.chapters[chapter_pos(self@.chapters, id.0, number@)].folder is Some
                    && pages.len() == 0 ==> (r matches Err(e) && e@ == no_pages_message(number@))
            }),
            r matches Ok(c) ==> {
                let series = series_view_of(self@, self@.series[series_pos(self@.series, id.0)]);
                let stored = self@.chapters[chapter_pos(self@.chapters, id.0, number@)];
                let pages = paths_of(sorted_by(page_files_of(views_of(listing@)), order_of::<FileProbe>()));
                let order = numbers_of(sorted_by(held_of(self@.chapters, id.0), order_of::<ChapterRow>()));
                &&& has_series(self@, id.0) && chapter_pos(self@.chapters, id.0, number@) >= 0
                &&& stored.folder is Some && pages.len() > 0
                &&& c.series_id == id.0 && c.series_title@ == series.title && c.direction@ == series.direction
                &&& c.number@ == number@ && opt_text(c.title) == stored.title
                &&& texts(c.pages@) == pages
                &&& c.last_page == (if stored.last_page < pages.len() - 1 {
                    stored.last_page as int
                } else {
                    pages.len() - 1
                })
                &&& opt_text(c.previous) == neighbours(order, number@).0
                &&& opt_text(c.next) == neighbours(order, number@).1
                &&& opt_text(c.source) == series.source && opt_text(c.series_source_id) == series.source_id
                &&& c.language@ == series.language
            },
    {
        let series = self.series(id)?;
        let stored = self.chapter(id, number)?;
        let pages = self.chapter_page_files(id, number, listing)?;
        if pages.len() == 0 {
            let mut out = chars_of("chapter ");
            push_str(&mut out, number);
            push_str(&mut out, " has no pages on disk");
            proof {
                reveal_strlit("chapter ");
                reveal_strlit(" has no pages on disk");
            }
            return Err(string_of(out.as_slice()));
        }
        let order = self.downloaded_chapter_numbers(id);
        let ghost ov = texts(order@);
        let ghost p = |x: Seq<char>| x == number@;
        let wanted = String::from_str(number);
        let mut at: usize = 0;
        while at < order.len() && order[at] != wanted
            invariant
                at <= order@.len(),
                ov == texts(order@),
                p == (|x: Seq<char>| x == number@),
                wanted@ == number@,
                forall|j: int| 0 <= j < at ==> !p(#[trigger] ov[j]),
            decreases order@.len() - at,
        {
            assert(ov[at as int] == order@[at as int]@);
            at = at + 1;
        }
        assert(at < order@.len() ==> ov[at as int] == order@[at as int]@);
        proof {
            lemma_first_where(ov, p);
            if at < order.len() {
                lemma_first_where_at(ov, p, at as int);
            }
        }
        let (previous, next) = if at < order.len() {
            let previous = if at > 0 {
                Some(order[at - 1].clone())
            } else {
                None
            };
            let next = if at + 1 < order.len() {
                Some(order[at + 1].clone())
            } else {
                None
            };
            (previous, next)
        } else {
            (None, None)
        };
        let last = pages.len() - 1;
        let last_page = if (stored.last_page as usize) < last {
            stored.last_page
        } else {
            last as u32
        };
        Ok(ReaderChapter {
            series_id: id.0,
            series_title: series.title,
            number: wanted,
            title: stored.title,
            direction: series.direction,
            pages,
            last_page,
            previous,
            next,
            source: series.source,
            series_source_id: series.source_id,
            language: series.language,
        })
    }
}


/// Whether `new` is the record a streamed read files its series under: the
/// source, its id and the title, and nothing else.
pub open spec fn files_read(new: NewSeries, read: OnlineRead) -> bool {
    &&& opt_text(new.source) == Some(read.source@)
    &&& opt_text(new.source_id) == Some(read.series_source_id@)
    &&& new.title@ == read.title@
    &&& new.title_romaji is None && new.title_native is None && new.year is None && new.status is None
    &&& new.author@.len() == 0 && new.artist@.len() == 0 && new.description@.len() == 0
    &&& new.site_url is None && new.tags@.len() == 0 && new.content_rating is None
}

/// The language a read asks for, when it names one.
pub open spec fn read_language(read: OnlineRead) -> Option<Seq<char>> {
    match read.language {
        Some(l) if l@.len() > 0 => Some(l@),
        _ => None,
    }
}

/// What noting a streamed read does to the index: the series is recorded
/// without being shelved; a series not on the shelf takes the language
/// being read (one the user added keeps the language they chose); and the
/// chapter is recorded as read from its source.
pub open spec fn noted_read(st: IndexState, new: NewSeries, read: OnlineRead, now: i64) -> IndexState {
    let s1 = inserted(st, new, false, now);
    let rec = s1.series[inserted_pos(st, new)];
    let s2 = match read_language(read) {
        Some(l) if !rec.shelved && l != rec.language => edited(
            s1,
            rec.id,
            rec.title,
            rec.author,
            rec.description,
            l,
            rec.direction,
        ),
        _ => s1,
    };
    with_chapters(
        s2,
        streamed_in(s2.chapters, rec.id, read.chapter@, Some(read.chapter_source_id@), read.pages),
    )
}

impl Index {
    /// Note that a series is being read from its source, at time `now`, and
    /// give the id to record progress against, with the cover address to
    /// fetch when the series has no cover yet (history is a wall of covers).
    pub fn track_online(&mut self, read: &OnlineRead, now: i64) -> (r: Result<(i64, Option<String>), String>)
        ensures
            exists|new: NewSeries| {
                &&& files_read(new, *read)
                &&& existing_pos(old(self)@, new) < 0 && old(self)@.last_id == i64::MAX ==> (r matches Err(e)
                    && e@ == ids_exhausted_message() && final(self)@ == old(self)@)
                &&& !(existing_pos(old(self)@, new) < 0 && old(self)@.last_id == i64::MAX) ==> {
                    let rec = inserted(old(self)@, new, false, now).series[inserted_pos(old(self)@, new)];
                    &&& final(self)@ == noted_read(old(self)@, new, *read, now)
                    &&& r matches Ok((id, cover)) && id == rec.id && opt_text(cover) == (if rec.cover_path is None {
                        opt_text(read.cover_url)
                    } else {
                        None
                    })
                }
            },
            index_wf(old(self)@) ==> index_wf(final(self)@),
    {
        let ghost st = self@;
        let new = NewSeries {
            source: Some(read.source.clone()),
            source_id: Some(read.series_source_id.clone()),
            title: read.title.clone(),
            ..NewSeries::default()
        };
        let ghost g = new;
        assert(files_read(g, *read));
        let series = match self.record_unshelved_series_at(new, now) {
            Ok(s) => s,
            Err(e) => {
                proof {
                    assert(existing_pos(st, g) < 0 && st.last_id == i64::MAX);
                }
                return Err(e);
            },
        };
        let ghost s1 = self@;
        let ghost rec = s1.series[inserted_pos(st, g)];
        proof {
            assert(!(existing_pos(st, g) < 0 && st.last_id == i64::MAX));
            assert(s1 == inserted(st, g, false, now));
            lemma_has_series(s1, rec.id);
        }
        let mut language: Option<&String> = None;
        if !series.shelved {
            match &read.language {
                Some(l) => {
                    if chars_of(l.as_str()).len() > 0 && *l != series.language {
                        language = Some(l);
                    }
                },
                None => {},
            }
        }
        match language {
            Some(l) => {
                let _ = self.update_series(
                    series.id,
                    series.title.as_str(),
                    series.author.as_str(),
                    series.description.as_str(),
                    l.as_str(),
                    series.direction.as_str(),
                );
            },
            None => {},
        }
        let ghost s2 = self@;
        proof {
            assert(s2 == match read_language(*read) {
                Some(l) if !rec.shelved && l != rec.language => edited(
                    s1,
                    rec.id,
                    rec.title,
                    rec.author,
                    rec.description,
                    l,
                    rec.direction,
                ),
                _ => s1,
            });
            let k1 = inserted_pos(st, g);
            crate::library::index::lemma_first_where(st.series, |r: crate::library::index::SeriesRecord| r.source == opt_text(g.source) && r.source_id == opt_text(g.source_id));
            assert(0 <= k1 < s1.series.len());
            assert(s1.series[k1].id == rec.id);
            assert(has_series(s1, rec.id));
            let k2 = crate::library::index::series_pos(s1.series, rec.id);
            assert(0 <= k2 < s1.series.len() && s1.series[k2].id == rec.id);
            assert(s2.series.len() == s1.series.len());
            assert(s2.series[k2].id == s1.series[k2].id);
            assert(has_series(s2, rec.id));
        }
        let _ = self.record_streamed_chapter(
            series.id,
            read.chapter.as_str(),
            Some(read.chapter_source_id.as_str()),
            read.pages,
        );
        let cover = if series.cover_path.is_none() {
            match &read.cover_url {
                Some(u) => Some(u.clone()),
                None => None,
            }
        } else {
            None
        };
        proof {
            assert(self@ == noted_read(st, g, *read, now));
            assert(opt_text(cover) == (if rec.cover_path is None {
                opt_text(read.cover_url)
            } else {
                None
            }));
        }
        Ok((series.id.0, cover))
    }
}

/// Whether a listed chapter can be streamed: the source serves it and gives
/// it an id.
pub open spec fn servable() -> spec_fn(ChapterRef) -> bool {
    |c: ChapterRef| !c.unavailable && c.id is Some
}

/// A chapter's id and number.
pub open spec fn ref_pairs(cs: Seq<ChapterRef>) -> Seq<(Seq<char>, Seq<char>)> {
    cs.map_values(|c: ChapterRef| (c.id.unwrap()@, c.number@))
}

/// Every chapter of a volume map, volume after volume.
pub open spec fn map_chapters(vs: Seq<VolumeChapters>) -> Seq<ChapterRef> {
    vs.map_values(|v: VolumeChapters| v.chapters@).flatten()
}

proof fn lemma_openable_filter(cs: Seq<ChapterRef>)
    ensures
        cs.filter_map(|c: ChapterRef| openable(c)) == ref_pairs(cs.filter(servable())),
    decreases cs.len(),
{
    if cs.len() > 0 {
        let d = cs.drop_last();
        lemma_openable_filter(d);
        assert(d.push(cs.last()) =~= cs);
        d.lemma_filter_push(cs.last(), servable());
        let c = cs.last();
        if !c.unavailable && c.id is Some {
            assert(ref_pairs(d.filter(servable()).push(c)) =~= ref_pairs(d.filter(servable())) + seq![
                (c.id.unwrap()@, c.number@),
            ]);
        }
    } else {
        cs.lemma_filter_len(servable());
        assert(ref_pairs(cs.filter(servable())) =~= Seq::<(Seq<char>, Seq<char>)>::empty());
    }
}

/// Reading online goes on through every chapter the source can stream: the
/// list holds, in map order, each chapter of every volume that is available
/// and has an id, each once, and nothing else; so it is as long as there are
/// such chapters.
pub proof fn every_streamable_chapter_is_listed(vs: Seq<VolumeChapters>)
    ensures
        online_chapters_spec(vs) == ref_pairs(map_chapters(vs).filter(servable())),
        online_chapters_spec(vs).len() == map_chapters(vs).filter(servable()).len(),
    decreases vs.len(),
{
    if vs.len() > 0 {
        let d = vs.drop_last();
        every_streamable_chapter_is_listed(d);
        let cs = vs.last().chapters@;
        lemma_openable_filter(cs);
        assert(vs.map_values(|v: VolumeChapters| v.chapters@) =~= d.map_values(
            |v: VolumeChapters| v.chapters@,
        ).push(cs));
        d.map_values(|v: VolumeChapters| v.chapters@).lemma_flatten_push(cs);
        let a = map_chapters(d);
        assert(map_chapters(vs) =~= a + cs);
        Seq::filter_distributes_over_add(a, cs, servable());
        assert(ref_pairs(a.filter(servable()) + cs.filter(servable())) =~= ref_pairs(
            a.filter(servable()),
        ) + ref_pairs(cs.filter(servable())));
    } else {
        assert(vs.map_values(|v: VolumeChapters| v.chapters@) =~= Seq::<Seq<ChapterRef>>::empty());
        assert(map_chapters(vs) =~= Seq::<ChapterRef>::empty());
        let e = map_chapters(vs);
        e.lemma_filter_len(servable());
        assert(ref_pairs(e.filter(servable())) =~= Seq::<(Seq<char>, Seq<char>)>::empty());
    }
}

} // verus!
