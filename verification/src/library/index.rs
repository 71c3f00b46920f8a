//! The library's index: every series it knows, the volumes and chapters
//! published for each, which chapters are on disk, and where the reader left
//! off in each.
//!
//! A chapter row with no folder is a chapter known to exist but not held, so
//! "missing chapters" is a filter rather than a second source of truth. Keys
//! are unique: one series per id, one volume and one chapter per series and
//! label. The files themselves are the application's to write and delete;
//! the index says where they belong and what is recorded of them.
use vstd::prelude::*;

use crate::export::{join_path, joined_path};
use crate::library::layout::{
    arrange_volumes, arranged, cover_views, opt_text, row_views, volume_views, CoverView,
};
use crate::library::model::{
    BuiltVolume, ChapterStatus, ChapterView, NewSeries, Series, SeriesId, VolumeStatus,
};
use crate::library::paths::{
    chapter_slug, chapter_slug_spec, int_digits, int_text, series_slug, series_slug_spec,
    volume_slug, volume_slug_spec,
};
use crate::fetch::series::{lex_before, lex_less, number_before, number_less};
use crate::library::model::{
    HistoryEntry, HistoryView, PublishedChapter, PublishedVolume, SeriesView, SyncReport,
};
use crate::library::sync::{count_missing, listed_numbers};
use crate::order::{order_of, sorted_by, stable_sort, views_of, Ordered};
use crate::page::{extension_verdict, extension_verdict_of};
use crate::scan::{FileProbe, FileView};
use crate::text::{chars_of, lower_seq, lowered, push_all, push_str, string_of, texts};

verus! {

/// A stored series. Folder and cover are relative to the library.
#[derive(Debug, Clone)]
pub struct SeriesRow {
    pub id: i64,
    /// The series folder's name inside `series/`.
    pub slug: String,
    pub source: Option<String>,
    pub source_id: Option<String>,
    pub title: String,
    pub title_romaji: Option<String>,
    pub title_native: Option<String>,
    pub author: String,
    pub artist: String,
    pub description: String,
    pub year: Option<u32>,
    pub status: Option<String>,
    pub language: String,
    pub direction: String,
    pub site_url: Option<String>,
    /// The cover, relative to the series folder.
    pub cover_path: Option<String>,
    pub added_at: i64,
    pub synced_at: Option<i64>,
    pub tags: Vec<String>,
    pub content_rating: Option<String>,
    pub shelved: bool,
}

/// A stored series as plain values.
pub struct SeriesRecord {
    pub id: i64,
    pub slug: Seq<char>,
    pub source: Option<Seq<char>>,
    pub source_id: Option<Seq<char>>,
    pub title: Seq<char>,
    pub title_romaji: Option<Seq<char>>,
    pub title_native: Option<Seq<char>>,
    pub author: Seq<char>,
    pub artist: Seq<char>,
    pub description: Seq<char>,
    pub year: Option<u32>,
    pub status: Option<Seq<char>>,
    pub language: Seq<char>,
    pub direction: Seq<char>,
    pub site_url: Option<Seq<char>>,
    pub cover_path: Option<Seq<char>>,
    pub added_at: i64,
    pub synced_at: Option<i64>,
    pub tags: Seq<Seq<char>>,
    pub content_rating: Option<Seq<char>>,
    pub shelved: bool,
}

impl View for SeriesRow {
    type V = SeriesRecord;

    open spec fn view(&self) -> SeriesRecord {
        SeriesRecord {
            id: self.id,
            slug: self.slug@,
            source: opt_text(self.source),
            source_id: opt_text(self.source_id),
            title: self.title@,
            title_romaji: opt_text(self.title_romaji),
            title_native: opt_text(self.title_native),
            author: self.author@,
            artist: self.artist@,
            description: self.description@,
            year: self.year,
            status: opt_text(self.status),
            language: self.language@,
            direction: self.direction@,
            site_url: opt_text(self.site_url),
            cover_path: opt_text(self.cover_path),
            added_at: self.added_at,
            synced_at: self.synced_at,
            tags: texts(self.tags@),
            content_rating: opt_text(self.content_rating),
            shelved: self.shelved,
        }
    }
}

/// A stored volume of a series.
#[derive(Debug, Clone)]
pub struct VolumeRow {
    pub series_id: i64,
    pub number: String,
    pub cover_url: Option<String>,
    /// The downloaded cover, relative to the series folder.
    pub cover_path: Option<String>,
    pub built: Option<BuiltVolume>,
}

/// A recorded build as plain values: path, time and size.
pub type BuiltRecord = (Seq<char>, i64, u64);

pub open spec fn built_view(b: Option<BuiltVolume>) -> Option<BuiltRecord> {
    match b {
        Some(b) => Some((b.path@, b.built_at, b.bytes)),
        None => None,
    }
}

/// A stored volume as plain values.
pub struct VolumeRecord {
    pub series_id: i64,
    pub number: Seq<char>,
    pub cover_url: Option<Seq<char>>,
    pub cover_path: Option<Seq<char>>,
    pub built: Option<BuiltRecord>,
}

impl View for VolumeRow {
    type V = VolumeRecord;

    open spec fn view(&self) -> VolumeRecord {
        VolumeRecord {
            series_id: self.series_id,
            number: self.number@,
            cover_url: opt_text(self.cover_url),
            cover_path: opt_text(self.cover_path),
            built: built_view(self.built),
        }
    }
}

/// A stored chapter: known to exist, and held on disk when it has a folder.
#[derive(Debug, Clone)]
pub struct ChapterRow {
    pub series_id: i64,
    pub number: String,
    /// The published volume it belongs to, when one claims it.
    pub volume: Option<String>,
    pub title: Option<String>,
    /// The chapter's images, relative to the series folder.
    pub folder: Option<String>,
    pub page_count: u32,
    pub source_url: Option<String>,
    pub downloaded_at: Option<i64>,
    pub source_id: Option<String>,
    pub unavailable: bool,
    pub last_page: u32,
    pub read_at: Option<i64>,
    pub opened_at: Option<i64>,
}

/// A stored chapter as plain values.
pub struct ChapterRecord {
    pub series_id: i64,
    pub number: Seq<char>,
    pub volume: Option<Seq<char>>,
    pub title: Option<Seq<char>>,
    pub folder: Option<Seq<char>>,
    pub page_count: u32,
    pub source_url: Option<Seq<char>>,
    pub downloaded_at: Option<i64>,
    pub source_id: Option<Seq<char>>,
    pub unavailable: bool,
    pub last_page: u32,
    pub read_at: Option<i64>,
    pub opened_at: Option<i64>,
}

impl View for ChapterRow {
    type V = ChapterRecord;

    open spec fn view(&self) -> ChapterRecord {
        ChapterRecord {
            series_id: self.series_id,
            number: self.number@,
            volume: opt_text(self.volume),
            title: opt_text(self.title),
            folder: opt_text(self.folder),
            page_count: self.page_count,
            source_url: opt_text(self.source_url),
            downloaded_at: self.downloaded_at,
            source_id: opt_text(self.source_id),
            unavailable: self.unavailable,
            last_page: self.last_page,
            read_at: self.read_at,
            opened_at: self.opened_at,
        }
    }
}

/// The index of a library rooted at `root`. `last_id` is the largest series
/// id ever handed out, so ids are never reused.
#[derive(Debug, Clone)]
pub struct Index {
    pub root: String,
    pub series: Vec<SeriesRow>,
    pub volumes: Vec<VolumeRow>,
    pub chapters: Vec<ChapterRow>,
    pub last_id: i64,
}

/// The index as plain values.
pub struct IndexState {
    pub root: Seq<char>,
    pub series: Seq<SeriesRecord>,
    pub volumes: Seq<VolumeRecord>,
    pub chapters: Seq<ChapterRecord>,
    pub last_id: i64,
}

pub open spec fn rows_view<T: View>(s: Seq<T>) -> Seq<T::V> {
    s.map_values(|t: T| t@)
}

impl View for Index {
    type V = IndexState;

    open spec fn view(&self) -> IndexState {
        IndexState {
            root: self.root@,
            series: rows_view(self.series@),
            volumes: rows_view(self.volumes@),
            chapters: rows_view(self.chapters@),
            last_id: self.last_id,
        }
    }
}

/// The position of the first element satisfying `p`, or -1.
pub open spec fn first_where<T>(s: Seq<T>, p: spec_fn(T) -> bool) -> int
    decreases s.len(),
{
    if s.len() == 0 {
        -1
    } else if p(s[0]) {
        0
    } else {
        let k = first_where(s.skip(1), p);
        if k < 0 {
            -1
        } else {
            k + 1
        }
    }
}

/// `first_where` finds the first element satisfying `p`, and -1 means none does.
pub proof fn lemma_first_where<T>(s: Seq<T>, p: spec_fn(T) -> bool)
    ensures
        -1 <= first_where(s, p) < s.len(),
        first_where(s, p) == -1 <==> forall|j: int| 0 <= j < s.len() ==> !p(#[trigger] s[j]),
        first_where(s, p) >= 0 ==> p(s[first_where(s, p)]),
        forall|j: int| 0 <= j < first_where(s, p) ==> !p(#[trigger] s[j]),
    decreases s.len(),
{
    if s.len() > 0 && !p(s[0]) {
        let t = s.skip(1);
        lemma_first_where(t, p);
        assert forall|j: int| 1 <= j < s.len() implies s[j] == t[j - 1] by {}
        if first_where(t, p) == -1 {
            assert forall|j: int| 0 <= j < s.len() implies !p(#[trigger] s[j]) by {
                if j > 0 {
                    assert(s[j] == t[j - 1]);
                }
            }
        } else {
            assert forall|j: int| 0 <= j < first_where(s, p) implies !p(#[trigger] s[j]) by {
                if j > 0 {
                    assert(s[j] == t[j - 1]);
                }
            }
        }
    }
}

/// A position where `p` holds and nowhere before is what `first_where` finds.
pub proof fn lemma_first_where_at<T>(s: Seq<T>, p: spec_fn(T) -> bool, k: int)
    requires
        0 <= k < s.len(),
        p(s[k]),
        forall|j: int| 0 <= j < k ==> !p(#[trigger] s[j]),
    ensures
        first_where(s, p) == k,
{
    lemma_first_where(s, p);
    let f = first_where(s, p);
    if f != -1 && f < k {
        assert(!p(s[f]));
    }
    if f == -1 {
        assert(!p(s[k]));
    }
}

/// How many elements satisfy `p`.
pub open spec fn count_where<T>(s: Seq<T>, p: spec_fn(T) -> bool) -> nat
    decreases s.len(),
{
    if s.len() == 0 {
        0
    } else {
        count_where(s.drop_last(), p) + if p(s.last()) {
            1nat
        } else {
            0nat
        }
    }
}

/// The series with id `id`.
pub open spec fn series_pos(ss: Seq<SeriesRecord>, id: i64) -> int {
    first_where(ss, |r: SeriesRecord| r.id == id)
}

/// The series recorded for a source's id.
pub open spec fn source_pos(ss: Seq<SeriesRecord>, source: Seq<char>, source_id: Seq<char>) -> int {
    first_where(
        ss,
        |r: SeriesRecord| r.source == Some(source) && r.source_id == Some(source_id),
    )
}

/// The chapter `number` of series `id`.
pub open spec fn chapter_pos(cs: Seq<ChapterRecord>, id: i64, number: Seq<char>) -> int {
    first_where(cs, |c: ChapterRecord| c.series_id == id && c.number == number)
}

/// The volume `number` of series `id`.
pub open spec fn volume_pos(vs: Seq<VolumeRecord>, id: i64, number: Seq<char>) -> int {
    first_where(vs, |v: VolumeRecord| v.series_id == id && v.number == number)
}

/// Whether a series with id `id` is stored.
pub open spec fn has_series(st: IndexState, id: i64) -> bool {
    exists|j: int| 0 <= j < st.series.len() && (#[trigger] st.series[j]).id == id
}

/// A stored series is found where it is stored.
pub proof fn lemma_has_series(st: IndexState, id: i64)
    ensures
        has_series(st, id) <==> series_pos(st.series, id) >= 0,
        series_pos(st.series, id) >= 0 ==> st.series[series_pos(st.series, id)].id == id,
        -1 <= series_pos(st.series, id) < st.series.len(),
{
    lemma_first_where(st.series, |r: SeriesRecord| r.id == id);
    if has_series(st, id) {
        let j = choose|j: int| 0 <= j < st.series.len() && (#[trigger] st.series[j]).id == id;
        assert((|r: SeriesRecord| r.id == id)(st.series[j]));
    }
    if series_pos(st.series, id) >= 0 {
        assert((|r: SeriesRecord| r.id == id)(st.series[series_pos(st.series, id)]));
    }
}

/// The index's invariant: series ids are unique and never above `last_id`,
/// a source's id names at most one series, each series has at most one
/// volume and one chapter of a label, and every volume and chapter belongs
/// to a stored series.
pub open spec fn index_wf(st: IndexState) -> bool {
    &&& forall|i: int, j: int|
        0 <= i < j < st.series.len() ==> #[trigger] st.series[i].id != #[trigger] st.series[j].id
    &&& forall|i: int| 0 <= i < st.series.len() ==> #[trigger] st.series[i].id <= st.last_id
    &&& forall|i: int, j: int|
        0 <= i < j < st.series.len() && (#[trigger] st.series[i]).source is Some
            && st.series[i].source_id is Some ==> !((#[trigger] st.series[j]).source
            == st.series[i].source && st.series[j].source_id == st.series[i].source_id)
    &&& forall|i: int, j: int|
        0 <= i < j < st.volumes.len() ==> !((#[trigger] st.volumes[i]).series_id == (
        #[trigger] st.volumes[j]).series_id && st.volumes[i].number == st.volumes[j].number)
    &&& forall|i: int, j: int|
        0 <= i < j < st.chapters.len() ==> !((#[trigger] st.chapters[i]).series_id == (
        #[trigger] st.chapters[j]).series_id && st.chapters[i].number == st.chapters[j].number)
    &&& forall|i: int|
        0 <= i < st.volumes.len() ==> has_series(st, (#[trigger] st.volumes[i]).series_id)
    &&& forall|i: int|
        0 <= i < st.chapters.len() ==> has_series(st, (#[trigger] st.chapters[i]).series_id)
}

/// The folder of the series with folder name `slug`.
pub open spec fn series_folder(root: Seq<char>, slug: Seq<char>) -> Seq<char> {
    joined_path(joined_path(root, "series"@), slug)
}

/// A path inside a series folder, when there is one.
pub open spec fn inside(folder: Seq<char>, relative: Option<Seq<char>>) -> Option<Seq<char>> {
    match relative {
        Some(r) => Some(joined_path(folder, r)),
        None => None,
    }
}

/// What a series looks like to its readers: its record with its folder and
/// cover made absolute, and how many of its chapters are held and known.
pub open spec fn series_view_of(st: IndexState, r: SeriesRecord) -> crate::library::model::SeriesView {
    let folder = series_folder(st.root, r.slug);
    crate::library::model::SeriesView {
        id: r.id,
        source: r.source,
        source_id: r.source_id,
        title: r.title,
        title_romaji: r.title_romaji,
        title_native: r.title_native,
        author: r.author,
        artist: r.artist,
        description: r.description,
        year: r.year,
        status: r.status,
        language: r.language,
        direction: r.direction,
        site_url: r.site_url,
        folder: folder,
        cover_path: inside(folder, r.cover_path),
        added_at: r.added_at,
        synced_at: r.synced_at,
        have_chapters: count_where(
            st.chapters,
            |c: ChapterRecord| c.series_id == r.id && c.folder is Some,
        ) as u32,
        known_chapters: count_where(st.chapters, |c: ChapterRecord| c.series_id == r.id) as u32,
        tags: r.tags,
        content_rating: r.content_rating,
        shelved: r.shelved,
    }
}

/// The record a new series is stored as: its details, a folder name made
/// from its title and id, English read right to left, no cover yet.
pub open spec fn new_record(new: NewSeries, id: i64, shelved: bool, now: i64) -> SeriesRecord {
    SeriesRecord {
        id: id,
        slug: series_slug_spec(new.title@, id as int),
        source: opt_text(new.source),
        source_id: opt_text(new.source_id),
        title: new.title@,
        title_romaji: opt_text(new.title_romaji),
        title_native: opt_text(new.title_native),
        author: new.author@,
        artist: new.artist@,
        description: new.description@,
        year: new.year,
        status: opt_text(new.status),
        language: "en"@,
        direction: "right-to-left"@,
        site_url: opt_text(new.site_url),
        cover_path: None,
        added_at: now,
        synced_at: None,
        tags: texts(new.tags@),
        content_rating: opt_text(new.content_rating),
        shelved: shelved,
    }
}

/// The series already stored for the new one's source and source id, or -1.
pub open spec fn existing_pos(st: IndexState, new: NewSeries) -> int {
    match (opt_text(new.source), opt_text(new.source_id)) {
        (Some(source), Some(source_id)) => source_pos(st.series, source, source_id),
        _ => -1,
    }
}

/// Storing a series: one already stored for the same source id is kept (and
/// put on the shelf when the new one is shelved, never taken off it);
/// otherwise a record is added under the next id.
pub open spec fn inserted(st: IndexState, new: NewSeries, shelved: bool, now: i64) -> IndexState {
    let k = existing_pos(st, new);
    if k >= 0 {
        if shelved {
            IndexState { series: st.series.update(k, SeriesRecord { shelved: true, ..st.series[k] }), ..st }
        } else {
            st
        }
    } else {
        let id = (st.last_id + 1) as i64;
        IndexState { series: st.series.push(new_record(new, id, shelved, now)), last_id: id, ..st }
    }
}

/// Where the stored series ends up.
pub open spec fn inserted_pos(st: IndexState, new: NewSeries) -> int {
    let k = existing_pos(st, new);
    if k >= 0 {
        k
    } else {
        st.series.len() as int
    }
}

/// The message when every series id has been handed out.
pub open spec fn ids_exhausted_message() -> Seq<char> {
    "the library has no series id left"@
}

/// Putting a series on the shelf.
pub open spec fn shelved(st: IndexState, id: i64) -> IndexState {
    let k = series_pos(st.series, id);
    if k >= 0 {
        IndexState { series: st.series.update(k, SeriesRecord { shelved: true, ..st.series[k] }), ..st }
    } else {
        st
    }
}

/// Editing the details a user may change. Identity and layout stay.
pub open spec fn edited(
    st: IndexState,
    id: i64,
    title: Seq<char>,
    author: Seq<char>,
    description: Seq<char>,
    language: Seq<char>,
    direction: Seq<char>,
) -> IndexState {
    let k = series_pos(st.series, id);
    if k >= 0 {
        IndexState {
            series: st.series.update(
                k,
                SeriesRecord { title, author, description, language, direction, ..st.series[k] },
            ),
            ..st
        }
    } else {
        st
    }
}

/// Recording the series cover, stored as `cover.jpg` in its folder.
pub open spec fn with_cover(st: IndexState, id: i64) -> IndexState {
    let k = series_pos(st.series, id);
    if k >= 0 {
        IndexState {
            series: st.series.update(k, SeriesRecord { cover_path: Some("cover.jpg"@), ..st.series[k] }),
            ..st
        }
    } else {
        st
    }
}

/// The message for a series id the index does not hold.
pub open spec fn no_series_message(id: i64) -> Seq<char> {
    "no series with id "@ + int_text(id as int)
}

pub(crate) fn copy_text(o: &Option<String>) -> (r: Option<String>)
    ensures
        r == *o,
{
    match o {
        Some(s) => Some(s.clone()),
        None => None,
    }
}

pub(crate) fn copy_texts(v: &Vec<String>) -> (r: Vec<String>)
    ensures
        r@ == v@,
{
    let mut r: Vec<String> = Vec::new();
    let mut i: usize = 0;
    while i < v.len()
        invariant
            i <= v@.len(),
            r@ == v@.take(i as int),
        decreases v@.len() - i,
    {
        r.push(v[i].clone());
        assert(r@ =~= v@.take(i + 1));
        i = i + 1;
    }
    assert(v@.take(i as int) =~= v@);
    r
}

fn no_series(id: i64) -> (r: String)
    ensures
        r@ == no_series_message(id),
{
    let mut out = chars_of("no series with id ");
    push_all(&mut out, &int_digits(id));
    proof {
        reveal_strlit("no series with id ");
    }
    string_of(out.as_slice())
}

impl Index {
    /// An empty index for a library at `root`.
    pub fn new(root: &str) -> (r: Index)
        ensures
            r@.root == root@,
            r@.series.len() == 0,
            r@.volumes.len() == 0,
            r@.chapters.len() == 0,
            r@.last_id == 0,
            index_wf(r@),
    {
        let r = Index {
            root: String::from_str(root),
            series: Vec::new(),
            volumes: Vec::new(),
            chapters: Vec::new(),
            last_id: 0,
        };
        assert(r@.series =~= Seq::<SeriesRecord>::empty());
        assert(r@.volumes =~= Seq::<VolumeRecord>::empty());
        assert(r@.chapters =~= Seq::<ChapterRecord>::empty());
        r
    }

    /// Where the series with id `id` is stored.
    pub fn find_series(&self, id: i64) -> (r: Option<usize>)
        ensures
            match r {
                Some(k) => k as int == series_pos(self@.series, id) && k < self.series@.len(),
                None => series_pos(self@.series, id) == -1,
            },
    {
        let ghost p = |r: SeriesRecord| r.id == id;
        let ghost ss = self@.series;
        let mut i: usize = 0;
        while i < self.series.len()
            invariant
                i <= self.series@.len(),
                ss == self@.series,
                p == (|r: SeriesRecord| r.id == id),
                forall|j: int| 0 <= j < i ==> !p(#[trigger] ss[j]),
            decreases self.series@.len() - i,
        {
            if self.series[i].id == id {
                proof {
                    assert(ss[i as int] == self.series@[i as int]@);
                    lemma_first_where_at(ss, p, i as int);
                }
                return Some(i);
            }
            assert(ss[i as int] == self.series@[i as int]@);
            i = i + 1;
        }
        proof {
            lemma_first_where(ss, p);
        }
        None
    }

    /// The absolute folder of the series stored at `k`.
    fn folder_at(&self, k: usize) -> (r: Vec<char>)
        requires
            k < self.series@.len(),
        ensures
            r@ == series_folder(self@.root, self@.series[k as int].slug),
    {
        let base = join_path(&chars_of(self.root.as_str()), "series");
        assert(self@.series[k as int] == self.series@[k as int]@);
        join_path(&base, self.series[k].slug.as_str())
    }

    /// How many chapters of series `id` are held, and how many are known.
    fn chapter_counts(&self, id: i64) -> (r: (u32, u32))
        ensures
            r.0 == count_where(
                self@.chapters,
                |c: ChapterRecord| c.series_id == id && c.folder is Some,
            ) as u32,
            r.1 == count_where(self@.chapters, |c: ChapterRecord| c.series_id == id) as u32,
    {
        let ghost cs = self@.chapters;
        let ghost held = |c: ChapterRecord| c.series_id == id && c.folder is Some;
        let ghost known = |c: ChapterRecord| c.series_id == id;
        let mut have: usize = 0;
        let mut all: usize = 0;
        let mut i: usize = 0;
        assert(cs.take(0) =~= Seq::<ChapterRecord>::empty());
        while i < self.chapters.len()
            invariant
                i <= self.chapters@.len(),
                cs == self@.chapters,
                held == (|c: ChapterRecord| c.series_id == id && c.folder is Some),
                known == (|c: ChapterRecord| c.series_id == id),
                have as nat == count_where(cs.take(i as int), held),
                all as nat == count_where(cs.take(i as int), known),
                have <= i,
                all <= i,
            decreases self.chapters@.len() - i,
        {
            assert(cs.take(i + 1).drop_last() =~= cs.take(i as int));
            assert(cs.take(i + 1).last() == self.chapters@[i as int]@);
            if self.chapters[i].series_id == id {
                all = all + 1;
                if self.chapters[i].folder.is_some() {
                    have = have + 1;
                }
            }
            i = i + 1;
        }
        assert(cs.take(i as int) =~= cs);
        (have as u32, all as u32)
    }

    /// The series stored at `k`, as its readers see it.
    fn series_at(&self, k: usize) -> (r: Series)
        requires
            k < self.series@.len(),
        ensures
            r@ == series_view_of(self@, self@.series[k as int]),
    {
        let row = &self.series[k];
        assert(self@.series[k as int] == row@);
        let folder = self.folder_at(k);
        let cover = match &row.cover_path {
            Some(c) => Some(string_of(join_path(&folder, c.as_str()).as_slice())),
            None => None,
        };
        let (have, known) = self.chapter_counts(row.id);
        let tags = copy_texts(&row.tags);
        Series {
            id: SeriesId(row.id),
            source: copy_text(&row.source),
            source_id: copy_text(&row.source_id),
            title: row.title.clone(),
            title_romaji: copy_text(&row.title_romaji),
            title_native: copy_text(&row.title_native),
            author: row.author.clone(),
            artist: row.artist.clone(),
            description: row.description.clone(),
            year: row.year,
            status: copy_text(&row.status),
            language: row.language.clone(),
            direction: row.direction.clone(),
            site_url: copy_text(&row.site_url),
            folder: string_of(folder.as_slice()),
            cover_path: cover,
            added_at: row.added_at,
            synced_at: row.synced_at,
            have_chapters: have,
            known_chapters: known,
            tags,
            content_rating: copy_text(&row.content_rating),
            shelved: row.shelved,
        }
    }

    /// The series with id `id`, or an error naming the id when there is none.
    pub fn series(&self, id: SeriesId) -> (r: Result<Series, String>)
        ensures
            has_series(self@, id.0) ==> (r matches Ok(s) && s@ == series_view_of(
                self@,
                self@.series[series_pos(self@.series, id.0)],
            )),
            !has_series(self@, id.0) ==> (r matches Err(e) && e@ == no_series_message(id.0)),
    {
        proof {
            lemma_has_series(self@, id.0);
        }
        match self.find_series(id.0) {
            Some(k) => Ok(self.series_at(k)),
            None => Err(no_series(id.0)),
        }
    }
}


fn text_is(o: &Option<String>, s: &String) -> (r: bool)
    ensures
        r == (opt_text(*o) == Some(s@)),
{
    match o {
        Some(t) => *t == *s,
        None => false,
    }
}

/// Changing a stored series without touching its id or source keeps the
/// index's invariant.
proof fn lemma_series_update_wf(st: IndexState, k: int, rec: SeriesRecord)
    requires
        index_wf(st),
        0 <= k < st.series.len(),
        rec.id == st.series[k].id,
        rec.source == st.series[k].source,
        rec.source_id == st.series[k].source_id,
    ensures
        index_wf(IndexState { series: st.series.update(k, rec), ..st }),
{
    let t = IndexState { series: st.series.update(k, rec), ..st };
    assert forall|id: i64| has_series(st, id) implies has_series(t, id) by {
        let j = choose|j: int| 0 <= j < st.series.len() && (#[trigger] st.series[j]).id == id;
        assert(t.series[j].id == id);
    }
    assert forall|i: int| 0 <= i < t.volumes.len() implies has_series(t, (#[trigger] t.volumes[i]).series_id) by {
        assert(has_series(st, st.volumes[i].series_id));
    }
    assert forall|i: int| 0 <= i < t.chapters.len() implies has_series(t, (#[trigger] t.chapters[i]).series_id) by {
        assert(has_series(st, st.chapters[i].series_id));
    }
}

impl Index {
    /// Where the series recorded for `source`'s id `source_id` is stored.
    fn find_by_source(&self, source: &String, source_id: &String) -> (r: Option<usize>)
        ensures
            match r {
                Some(k) => k as int == source_pos(self@.series, source@, source_id@) && k < self.series@.len(),
                None => source_pos(self@.series, source@, source_id@) == -1,
            },
    {
        let ghost p = |r: SeriesRecord| r.source == Some(source@) && r.source_id == Some(source_id@);
        let ghost ss = self@.series;
        let mut i: usize = 0;
        while i < self.series.len()
            invariant
                i <= self.series@.len(),
                ss == self@.series,
                p == (|r: SeriesRecord| r.source == Some(source@) && r.source_id == Some(source_id@)),
                forall|j: int| 0 <= j < i ==> !p(#[trigger] ss[j]),
            decreases self.series@.len() - i,
        {
            assert(ss[i as int] == self.series@[i as int]@);
            if text_is(&self.series[i].source, source) && text_is(&self.series[i].source_id, source_id) {
                proof {
                    lemma_first_where_at(ss, p, i as int);
                }
                return Some(i);
            }
            i = i + 1;
        }
        proof {
            lemma_first_where(ss, p);
        }
        None
    }

    /// Store a series, or find the one already stored for the same source id;
    /// `shelved` puts it on the shelf. Fails only when every id is taken.
    fn insert_series(&mut self, new: NewSeries, shelved: bool, now: i64) -> (r: Result<Series, String>)
        ensures
            existing_pos(old(self)@, new) < 0 && old(self)@.last_id == i64::MAX ==> (r matches Err(e)
                && e@ == ids_exhausted_message() && final(self)@ == old(self)@),
            !(existing_pos(old(self)@, new) < 0 && old(self)@.last_id == i64::MAX) ==> (r matches Ok(s)
                && final(self)@ == inserted(old(self)@, new, shelved, now) && s@ == series_view_of(
                final(self)@,
                final(self)@.series[inserted_pos(old(self)@, new)],
            )),
            index_wf(old(self)@) ==> index_wf(final(self)@),
    {
        let ghost st = self@;
        let found = match (&new.source, &new.source_id) {
            (Some(source), Some(source_id)) => self.find_by_source(source, source_id),
            _ => None,
        };
        proof {
            lemma_first_where(st.series, |r: SeriesRecord| r.source == opt_text(new.source) && r.source_id == opt_text(new.source_id));
        }
        match found {
            Some(k) => {
                if shelved {
                    self.series[k].shelved = true;
                    proof {
                        assert(self@.series =~= st.series.update(k as int, SeriesRecord { shelved: true, ..st.series[k as int] }));
                        if index_wf(st) {
                            lemma_series_update_wf(st, k as int, SeriesRecord { shelved: true, ..st.series[k as int] });
                        }
                    }
                }
                assert(self@ == inserted(st, new, shelved, now));
                Ok(self.series_at(k))
            },
            None => {
                if self.last_id == i64::MAX {
                    proof {
                        reveal_strlit("the library has no series id left");
                    }
                    return Err(String::from_str("the library has no series id left"));
                }
                let id = self.last_id + 1;
                let slug = series_slug(new.title.as_str(), id);
                proof {
                    reveal_strlit("en");
                    reveal_strlit("right-to-left");
                }
                let row = SeriesRow {
                    id,
                    slug,
                    source: new.source,
                    source_id: new.source_id,
                    title: new.title,
                    title_romaji: new.title_romaji,
                    title_native: new.title_native,
                    author: new.author,
                    artist: new.artist,
                    description: new.description,
                    year: new.year,
                    status: new.status,
                    language: String::from_str("en"),
                    direction: String::from_str("right-to-left"),
                    site_url: new.site_url,
                    cover_path: None,
                    added_at: now,
                    synced_at: None,
                    tags: new.tags,
                    content_rating: new.content_rating,
                    shelved,
                };
                assert(row@ == new_record(new, id, shelved, now));
                self.series.push(row);
                self.last_id = id;
                proof {
                    assert(self@.series =~= st.series.push(new_record(new, id, shelved, now)));
                    assert(self@ == inserted(st, new, shelved, now));
                    if index_wf(st) {
                        let t = self@;
                        assert forall|id2: i64| has_series(st, id2) implies has_series(t, id2) by {
                            let j = choose|j: int| 0 <= j < st.series.len() && (#[trigger] st.series[j]).id == id2;
                            assert(t.series[j].id == id2);
                        }
                        assert forall|i: int| 0 <= i < t.volumes.len() implies has_series(t, (#[trigger] t.volumes[i]).series_id) by {
                            assert(has_series(st, st.volumes[i].series_id));
                        }
                        assert forall|i: int| 0 <= i < t.chapters.len() implies has_series(t, (#[trigger] t.chapters[i]).series_id) by {
                            assert(has_series(st, st.chapters[i].series_id));
                        }
                        let n = st.series.len() as int;
                        assert forall|i: int, j: int| 0 <= i < j < t.series.len() implies #[trigger] t.series[i].id != #[trigger] t.series[j].id by {
                            if j == n {
                                assert(st.series[i].id <= st.last_id);
                            }
                        }
                        assert forall|i: int, j: int|
                            0 <= i < j < t.series.len() && (#[trigger] t.series[i]).source is Some
                                && t.series[i].source_id is Some implies !((#[trigger] t.series[j]).source
                                == t.series[i].source && t.series[j].source_id == t.series[i].source_id) by {
                            if j == n {
                                if t.series[j].source == t.series[i].source && t.series[j].source_id == t.series[i].source_id {
                                    let q = |r: SeriesRecord| r.source == opt_text(new.source) && r.source_id == opt_text(new.source_id);
                                    assert(q(st.series[i]));
                                }
                            }
                        }
                    }
                }
                Ok(self.series_at(self.series.len() - 1))
            },
        }
    }

    /// Add a series to the shelf, or return the one already stored for the
    /// same source id, putting it on the shelf if it was only recorded.
    /// Adding twice is idempotent rather than an error.
    pub fn add_series_at(&mut self, new: NewSeries, now: i64) -> (r: Result<Series, String>)
        ensures
            existing_pos(old(self)@, new) < 0 && old(self)@.last_id == i64::MAX ==> (r matches Err(e)
                && e@ == ids_exhausted_message() && final(self)@ == old(self)@),
            !(existing_pos(old(self)@, new) < 0 && old(self)@.last_id == i64::MAX) ==> (r matches Ok(s)
                && final(self)@ == inserted(old(self)@, new, true, now) && s@ == series_view_of(
                final(self)@,
                final(self)@.series[inserted_pos(old(self)@, new)],
            )),
            index_wf(old(self)@) ==> index_wf(final(self)@),
    {
        self.insert_series(new, true, now)
    }

    /// Record a series read straight from its source without putting it on
    /// the shelf. One already on the shelf stays there.
    pub fn record_unshelved_series_at(&mut self, new: NewSeries, now: i64) -> (r: Result<Series, String>)
        ensures
            existing_pos(old(self)@, new) < 0 && old(self)@.last_id == i64::MAX ==> (r matches Err(e)
                && e@ == ids_exhausted_message() && final(self)@ == old(self)@),
            !(existing_pos(old(self)@, new) < 0 && old(self)@.last_id == i64::MAX) ==> (r matches Ok(s)
                && final(self)@ == inserted(old(self)@, new, false, now) && s@ == series_view_of(
                final(self)@,
                final(self)@.series[inserted_pos(old(self)@, new)],
            )),
            index_wf(old(self)@) ==> index_wf(final(self)@),
    {
        self.insert_series(new, false, now)
    }

    /// Put a series that was only recorded onto the shelf.
    pub fn shelve(&mut self, id: SeriesId)
        ensures
            final(self)@ == shelved(old(self)@, id.0),
            index_wf(old(self)@) ==> index_wf(final(self)@),
    {
        let ghost st = self@;
        match self.find_series(id.0) {
            Some(k) => {
                self.series[k].shelved = true;
                proof {
                    assert(self@.series =~= st.series.update(k as int, SeriesRecord { shelved: true, ..st.series[k as int] }));
                    if index_wf(st) {
                        lemma_series_update_wf(st, k as int, SeriesRecord { shelved: true, ..st.series[k as int] });
                    }
                }
            },
            None => {},
        }
    }

    /// Change the details a user may edit: title, author, description,
    /// language and reading direction.
    pub fn update_series(
        &mut self,
        id: SeriesId,
        title: &str,
        author: &str,
        description: &str,
        language: &str,
        direction: &str,
    ) -> (r: Result<Series, String>)
        ensures
            final(self)@ == edited(old(self)@, id.0, title@, author@, description@, language@, direction@),
            has_series(old(self)@, id.0) ==> (r matches Ok(s) && s@ == series_view_of(
                final(self)@,
                final(self)@.series[series_pos(old(self)@.series, id.0)],
            )),
            !has_series(old(self)@, id.0) ==> (r matches Err(e) && e@ == no_series_message(id.0)),
            index_wf(old(self)@) ==> index_wf(final(self)@),
    {
        let ghost st = self@;
        proof {
            lemma_has_series(st, id.0);
        }
        match self.find_series(id.0) {
            Some(k) => {
                self.series[k].title = String::from_str(title);
                self.series[k].author = String::from_str(author);
                self.series[k].description = String::from_str(description);
                self.series[k].language = String::from_str(language);
                self.series[k].direction = String::from_str(direction);
                let ghost rec = SeriesRecord { title: title@, author: author@, description: description@, language: language@, direction: direction@, ..st.series[k as int] };
                proof {
                    assert(self@.series =~= st.series.update(k as int, rec));
                    if index_wf(st) {
                        lemma_series_update_wf(st, k as int, rec);
                    }
                }
                Ok(self.series_at(k))
            },
            None => Err(no_series(id.0)),
        }
    }

    /// Record that the series cover is stored, as `cover.jpg` in the series
    /// folder, and give its absolute path.
    pub fn set_cover(&mut self, id: SeriesId) -> (r: Result<String, String>)
        ensures
            final(self)@ == with_cover(old(self)@, id.0),
            has_series(old(self)@, id.0) ==> (r matches Ok(p) && p@ == joined_path(
                series_folder(old(self)@.root, old(self)@.series[series_pos(old(self)@.series, id.0)].slug),
                "cover.jpg"@,
            )),
            !has_series(old(self)@, id.0) ==> (r matches Err(e) && e@ == no_series_message(id.0)),
            index_wf(old(self)@) ==> index_wf(final(self)@),
    {
        let ghost st = self@;
        proof {
            lemma_has_series(st, id.0);
        }
        match self.find_series(id.0) {
            Some(k) => {
                let folder = self.folder_at(k);
                let path = join_path(&folder, "cover.jpg");
                self.series[k].cover_path = Some(String::from_str("cover.jpg"));
                let ghost rec = SeriesRecord { cover_path: Some("cover.jpg"@), ..st.series[k as int] };
                proof {
                    assert(self@.series =~= st.series.update(k as int, rec));
                    if index_wf(st) {
                        lemma_series_update_wf(st, k as int, rec);
                    }
                }
                Ok(string_of(path.as_slice()))
            },
            None => Err(no_series(id.0)),
        }
    }
}


/// The shelf: each shelved series as its readers see it, in stored order.
pub open spec fn shelf_of(st: IndexState, ss: Seq<SeriesRecord>) -> Seq<SeriesView>
    decreases ss.len(),
{
    if ss.len() == 0 {
        Seq::empty()
    } else if ss.last().shelved {
        shelf_of(st, ss.drop_last()).push(series_view_of(st, ss.last()))
    } else {
        shelf_of(st, ss.drop_last())
    }
}

/// Series are listed by title, ignoring ASCII case.
impl Ordered for Series {
    open spec fn less(a: SeriesView, b: SeriesView) -> bool {
        lex_less(lower_seq(a.title), lower_seq(b.title))
    }

    fn before(&self, other: &Self) -> (r: bool) {
        lex_before(&lowered(&chars_of(self.title.as_str())), &lowered(&chars_of(other.title.as_str())))
    }
}

impl Index {
    /// Everything on the shelf, by title ignoring case. Series recorded only
    /// because they were read are left out.
    pub fn all_series(&self) -> (r: Vec<Series>)
        ensures
            views_of(r@) == sorted_by(shelf_of(self@, self@.series), order_of::<Series>()),
    {
        let ghost ss = self@.series;
        let mut out: Vec<Series> = Vec::new();
        let mut i: usize = 0;
        assert(ss.take(0) =~= Seq::<SeriesRecord>::empty());
        while i < self.series.len()
            invariant
                i <= self.series@.len(),
                ss == self@.series,
                views_of(out@) == shelf_of(self@, ss.take(i as int)),
            decreases self.series@.len() - i,
        {
            assert(ss.take(i + 1).drop_last() =~= ss.take(i as int));
            assert(ss.take(i + 1).last() == self.series@[i as int]@);
            if self.series[i].shelved {
                let one = self.series_at(i);
                out.push(one);
                assert(views_of(out@) =~= shelf_of(self@, ss.take(i as int)).push(
                    series_view_of(self@, ss[i as int]),
                ));
            }
            i = i + 1;
        }
        assert(ss.take(i as int) =~= ss);
        stable_sort(out)
    }
}


/// A chapter row as first recorded: known, not held, never opened.
pub open spec fn blank_chapter(id: i64, number: Seq<char>) -> ChapterRecord {
    ChapterRecord {
        series_id: id,
        number: number,
        volume: None,
        title: None,
        folder: None,
        page_count: 0,
        source_url: None,
        downloaded_at: None,
        source_id: None,
        unavailable: false,
        last_page: 0,
        read_at: None,
        opened_at: None,
    }
}

/// The first of two optional values that is present.
pub open spec fn or_else(a: Option<Seq<char>>, b: Option<Seq<char>>) -> Option<Seq<char>> {
    match a {
        Some(x) => Some(x),
        None => b,
    }
}

/// Changing chapter `number` of series `id` by `f`, recording it first when
/// it is not known.
pub open spec fn upsert_chapter(
    cs: Seq<ChapterRecord>,
    id: i64,
    number: Seq<char>,
    f: spec_fn(ChapterRecord) -> ChapterRecord,
) -> Seq<ChapterRecord> {
    let k = chapter_pos(cs, id, number);
    if k >= 0 {
        cs.update(k, f(cs[k]))
    } else {
        cs.push(f(blank_chapter(id, number)))
    }
}

/// Changing chapter `number` of series `id` by `f`, when it is known.
pub open spec fn update_chapter(
    cs: Seq<ChapterRecord>,
    id: i64,
    number: Seq<char>,
    f: spec_fn(ChapterRecord) -> ChapterRecord,
) -> Seq<ChapterRecord> {
    let k = chapter_pos(cs, id, number);
    if k >= 0 {
        cs.update(k, f(cs[k]))
    } else {
        cs
    }
}

/// Where a chapter's images go, relative to its series folder.
pub open spec fn chapter_folder_of(number: Seq<char>) -> Seq<char> {
    "chapters/"@ + chapter_slug_spec(number)
}

/// A chapter whose pages are now on disk.
pub open spec fn downloaded(c: ChapterRecord, page_count: u32, source_url: Option<Seq<char>>, now: i64) -> ChapterRecord {
    ChapterRecord {
        folder: Some(chapter_folder_of(c.number)),
        page_count: page_count,
        source_url: or_else(source_url, c.source_url),
        downloaded_at: Some(now),
        ..c
    }
}

/// A chapter read from its source: its source id is kept, and a chapter not
/// on disk takes the page count the reader reports.
pub open spec fn streamed(c: ChapterRecord, source_id: Option<Seq<char>>, page_count: u32) -> ChapterRecord {
    ChapterRecord {
        source_id: or_else(source_id, c.source_id),
        page_count: if c.folder is Some { c.page_count } else { page_count },
        ..c
    }
}

/// Where the reader is: on `page`, opened `now`, and finished when `finished`
/// says so. The time a chapter was first finished is kept.
pub open spec fn progressed(c: ChapterRecord, page: u32, finished: bool, now: i64) -> ChapterRecord {
    ChapterRecord {
        last_page: page,
        opened_at: Some(now),
        read_at: if finished && c.read_at is None { Some(now) } else { c.read_at },
        ..c
    }
}

/// A chapter with its reading forgotten; its pages stay.
pub open spec fn unread(c: ChapterRecord) -> ChapterRecord {
    ChapterRecord { last_page: 0, read_at: None, opened_at: None, ..c }
}

/// A chapter whose pages are gone.
pub open spec fn emptied(c: ChapterRecord) -> ChapterRecord {
    ChapterRecord { folder: None, page_count: 0, downloaded_at: None, ..c }
}

/// A chapter as its readers see it, with its folder made absolute.
pub open spec fn status_view(folder: Seq<char>, c: ChapterRecord) -> ChapterView {
    ChapterView {
        number: c.number,
        title: c.title,
        source_id: c.source_id,
        unavailable: c.unavailable,
        last_page: c.last_page,
        read_at: c.read_at,
        opened_at: c.opened_at,
        folder: inside(folder, c.folder),
        page_count: c.page_count,
        source_url: c.source_url,
        downloaded_at: c.downloaded_at,
    }
}

/// The folder of series `id`, when it is stored.
pub open spec fn folder_of(st: IndexState, id: i64) -> Seq<char> {
    series_folder(st.root, st.series[series_pos(st.series, id)].slug)
}

/// The message for a chapter a series does not have.
pub open spec fn no_chapter_message(id: i64, number: Seq<char>) -> Seq<char> {
    "series "@ + int_text(id as int) + " has no chapter "@ + number
}

/// Forgetting a chapter's pages. A chapter no published volume claims is
/// forgotten altogether; one the layout knows stays, as a known gap.
pub open spec fn deleted(cs: Seq<ChapterRecord>, id: i64, number: Seq<char>) -> Seq<ChapterRecord> {
    let k = chapter_pos(cs, id, number);
    if k < 0 {
        cs
    } else if cs[k].volume is None {
        cs.remove(k)
    } else {
        cs.update(k, emptied(cs[k]))
    }
}

/// What `chapter_pos` finds is the chapter asked for.
pub proof fn lemma_chapter_pos(cs: Seq<ChapterRecord>, id: i64, number: Seq<char>)
    ensures
        -1 <= chapter_pos(cs, id, number) < cs.len(),
        chapter_pos(cs, id, number) >= 0 ==> cs[chapter_pos(cs, id, number)].series_id == id
            && cs[chapter_pos(cs, id, number)].number == number,
        chapter_pos(cs, id, number) == -1 ==> forall|j: int|
            0 <= j < cs.len() ==> !((#[trigger] cs[j]).series_id == id && cs[j].number == number),
{
    let p = |c: ChapterRecord| c.series_id == id && c.number == number;
    lemma_first_where(cs, p);
    if chapter_pos(cs, id, number) >= 0 {
        assert(p(cs[chapter_pos(cs, id, number)]));
    }
    if chapter_pos(cs, id, number) == -1 {
        assert forall|j: int| 0 <= j < cs.len() implies !((#[trigger] cs[j]).series_id == id && cs[j].number == number) by {
            assert(!p(cs[j]));
        }
    }
}

/// Changing a chapter without touching its key keeps the invariant.
proof fn lemma_chapter_update_wf(st: IndexState, k: int, rec: ChapterRecord)
    requires
        index_wf(st),
        0 <= k < st.chapters.len(),
        rec.series_id == st.chapters[k].series_id,
        rec.number == st.chapters[k].number,
    ensures
        index_wf(IndexState { chapters: st.chapters.update(k, rec), ..st }),
{
    let t = IndexState { chapters: st.chapters.update(k, rec), ..st };
    assert forall|i: int| 0 <= i < t.chapters.len() implies has_series(t, (#[trigger] t.chapters[i]).series_id) by {
        assert(has_series(st, st.chapters[i].series_id));
    }
}

/// Recording a chapter not yet known, of a stored series, keeps the invariant.
proof fn lemma_chapter_push_wf(st: IndexState, rec: ChapterRecord)
    requires
        index_wf(st),
        chapter_pos(st.chapters, rec.series_id, rec.number) == -1,
        has_series(st, rec.series_id),
    ensures
        index_wf(IndexState { chapters: st.chapters.push(rec), ..st }),
{
    let t = IndexState { chapters: st.chapters.push(rec), ..st };
    let p = |c: ChapterRecord| c.series_id == rec.series_id && c.number == rec.number;
    lemma_first_where(st.chapters, p);
    assert forall|i: int| 0 <= i < t.chapters.len() implies has_series(t, (#[trigger] t.chapters[i]).series_id) by {
        if i < st.chapters.len() {
            assert(has_series(st, st.chapters[i].series_id));
        }
    }
    assert forall|i: int, j: int| 0 <= i < j < t.chapters.len() implies !((#[trigger] t.chapters[i]).series_id == (
        #[trigger] t.chapters[j]).series_id && t.chapters[i].number == t.chapters[j].number) by {
        if j == st.chapters.len() {
            assert(!p(st.chapters[i]));
        }
    }
}

/// Dropping a chapter keeps the invariant.
proof fn lemma_chapter_remove_wf(st: IndexState, k: int)
    requires
        index_wf(st),
        0 <= k < st.chapters.len(),
    ensures
        index_wf(IndexState { chapters: st.chapters.remove(k), ..st }),
{
    let t = IndexState { chapters: st.chapters.remove(k), ..st };
    assert forall|i: int| 0 <= i < t.chapters.len() implies has_series(t, (#[trigger] t.chapters[i]).series_id) by {
        if i < k {
            assert(t.chapters[i] == st.chapters[i]);
        } else {
            assert(t.chapters[i] == st.chapters[i + 1]);
        }
    }
    assert forall|i: int, j: int| 0 <= i < j < t.chapters.len() implies !((#[trigger] t.chapters[i]).series_id == (
        #[trigger] t.chapters[j]).series_id && t.chapters[i].number == t.chapters[j].number) by {
        let i2 = if i < k { i } else { i + 1 };
        let j2 = if j < k { j } else { j + 1 };
        assert(t.chapters[i] == st.chapters[i2]);
        assert(t.chapters[j] == st.chapters[j2]);
    }
}

fn no_chapter(id: i64, number: &String) -> (r: String)
    ensures
        r@ == no_chapter_message(id, number@),
{
    let mut out = chars_of("series ");
    push_all(&mut out, &int_digits(id));
    push_str(&mut out, " has no chapter ");
    push_str(&mut out, number.as_str());
    proof {
        reveal_strlit("series ");
        reveal_strlit(" has no chapter ");
    }
    string_of(out.as_slice())
}

impl Index {
    /// Where chapter `number` of series `id` is stored.
    pub fn find_chapter(&self, id: i64, number: &String) -> (r: Option<usize>)
        ensures
            match r {
                Some(k) => k as int == chapter_pos(self@.chapters, id, number@) && k < self.chapters@.len(),
                None => chapter_pos(self@.chapters, id, number@) == -1,
            },
    {
        let ghost p = |c: ChapterRecord| c.series_id == id && c.number == number@;
        let ghost cs = self@.chapters;
        let mut i: usize = 0;
        while i < self.chapters.len()
            invariant
                i <= self.chapters@.len(),
                cs == self@.chapters,
                p == (|c: ChapterRecord| c.series_id == id && c.number == number@),
                forall|j: int| 0 <= j < i ==> !p(#[trigger] cs[j]),
            decreases self.chapters@.len() - i,
        {
            assert(cs[i as int] == self.chapters@[i as int]@);
            if self.chapters[i].series_id == id && self.chapters[i].number == *number {
                proof {
                    lemma_first_where_at(cs, p, i as int);
                }
                return Some(i);
            }
            i = i + 1;
        }
        proof {
            lemma_first_where(cs, p);
        }
        None
    }

    /// The chapter stored at `k` as its readers see it, given its series folder.
    fn status_at(&self, folder: &Vec<char>, k: usize) -> (r: ChapterStatus)
        requires
            k < self.chapters@.len(),
        ensures
            r@ == status_view(folder@, self@.chapters[k as int]),
    {
        assert(self@.chapters[k as int] == self.chapters@[k as int]@);
        status_of(folder, &self.chapters[k])
    }

    /// Chapter `number` of series `id`, or an error saying which is missing.
    pub fn chapter(&self, id: SeriesId, number: &str) -> (r: Result<ChapterStatus, String>)
        ensures
            !has_series(self@, id.0) ==> (r matches Err(e) && e@ == no_series_message(id.0)),
            has_series(self@, id.0) && chapter_pos(self@.chapters, id.0, number@) < 0 ==> (r matches Err(e)
                && e@ == no_chapter_message(id.0, number@)),
            has_series(self@, id.0) && chapter_pos(self@.chapters, id.0, number@) >= 0 ==> (r matches Ok(c)
                && c@ == status_view(
                folder_of(self@, id.0),
                self@.chapters[chapter_pos(self@.chapters, id.0, number@)],
            )),
    {
        proof {
            lemma_has_series(self@, id.0);
        }
        let number = String::from_str(number);
        match self.find_series(id.0) {
            None => Err(no_series(id.0)),
            Some(s) => {
                let folder = self.folder_at(s);
                match self.find_chapter(id.0, &number) {
                    Some(k) => Ok(self.status_at(&folder, k)),
                    None => Err(no_chapter(id.0, &number)),
                }
            },
        }
    }

    /// Where a chapter's images belong. Creating the folder is the caller's
    /// job, since a folder that exists but holds nothing looks like a failed
    /// download.
    pub fn chapter_dir(&self, id: SeriesId, number: &str) -> (r: Result<String, String>)
        ensures
            !has_series(self@, id.0) ==> (r matches Err(e) && e@ == no_series_message(id.0)),
            has_series(self@, id.0) ==> (r matches Ok(p) && p@ == joined_path(
                folder_of(self@, id.0),
                chapter_folder_of(number@),
            )),
    {
        proof {
            lemma_has_series(self@, id.0);
        }
        match self.find_series(id.0) {
            None => Err(no_series(id.0)),
            Some(s) => {
                let folder = self.folder_at(s);
                let relative = chapter_relative(number);
                Ok(string_of(join_path(&folder, relative.as_str()).as_slice()))
            },
        }
    }

    /// Record that a chapter's pages are on disk, recording the chapter too
    /// when the published layout never mentioned it.
    pub fn record_chapter_at(
        &mut self,
        id: SeriesId,
        number: &str,
        page_count: u32,
        source_url: Option<&str>,
        now: i64,
    ) -> (r: Result<ChapterStatus, String>)
        ensures
            !has_series(old(self)@, id.0) ==> (r matches Err(e) && e@ == no_series_message(id.0)
                && final(self)@ == old(self)@),
            has_series(old(self)@, id.0) ==> final(self)@ == with_chapters(
                old(self)@,
                recorded(old(self)@.chapters, id.0, number@, page_count, opt_str(source_url), now),
            ),
            has_series(old(self)@, id.0) ==> (r matches Ok(c) && c@ == status_view(
                folder_of(old(self)@, id.0),
                downloaded(
                    chapter_or_blank(old(self)@.chapters, id.0, number@),
                    page_count,
                    opt_str(source_url),
                    now,
                ),
            )),
            index_wf(old(self)@) ==> index_wf(final(self)@),
    {
        let ghost st = self@;
        let ghost su = match source_url {
            Some(u) => Some(u@),
            None => None,
        };
        let ghost f = |c: ChapterRecord| downloaded(c, page_count, su, now);
        proof {
            lemma_has_series(st, id.0);
        }
        let s = match self.find_series(id.0) {
            None => return Err(no_series(id.0)),
            Some(s) => s,
        };
        let folder = self.folder_at(s);
        let number = String::from_str(number);
        let relative = chapter_relative(number.as_str());
        let url = match source_url {
            Some(u) => Some(String::from_str(u)),
            None => None,
        };
        let k = match self.find_chapter(id.0, &number) {
            Some(k) => {
                let ghost rec = f(st.chapters[k as int]);
                proof {
                    lemma_chapter_pos(st.chapters, id.0, number@);
                }
                self.chapters[k].folder = Some(relative);
                self.chapters[k].page_count = page_count;
                if url.is_some() {
                    self.chapters[k].source_url = url;
                }
                self.chapters[k].downloaded_at = Some(now);
                proof {
                    assert(self@.chapters[k as int] == rec);
                    assert(self@.chapters =~= st.chapters.update(k as int, rec));
                    if index_wf(st) {
                        lemma_chapter_update_wf(st, k as int, rec);
                    }
                }
                k
            },
            None => {
                let ghost rec = f(blank_chapter(id.0, number@));
                self.chapters.push(
                    ChapterRow {
                        series_id: id.0,
                        number,
                        volume: None,
                        title: None,
                        folder: Some(relative),
                        page_count,
                        source_url: url,
                        downloaded_at: Some(now),
                        source_id: None,
                        unavailable: false,
                        last_page: 0,
                        read_at: None,
                        opened_at: None,
                    },
                );
                proof {
                    assert(self@.chapters =~= st.chapters.push(rec));
                    if index_wf(st) {
                        assert(has_series(st, id.0));
                        lemma_chapter_push_wf(st, rec);
                    }
                }
                self.chapters.len() - 1
            },
        };
        Ok(self.status_at(&folder, k))
    }
}

/// A stored chapter as its readers see it, given its series folder.
fn status_of(folder: &Vec<char>, c: &ChapterRow) -> (r: ChapterStatus)
    ensures
        r@ == status_view(folder@, c@),
{
    let absolute = match &c.folder {
        Some(f) => Some(string_of(join_path(folder, f.as_str()).as_slice())),
        None => None,
    };
    ChapterStatus {
        number: c.number.clone(),
        title: copy_text(&c.title),
        source_id: copy_text(&c.source_id),
        unavailable: c.unavailable,
        last_page: c.last_page,
        read_at: c.read_at,
        opened_at: c.opened_at,
        folder: absolute,
        page_count: c.page_count,
        source_url: copy_text(&c.source_url),
        downloaded_at: c.downloaded_at,
    }
}

/// `chapters/` followed by the chapter's folder name.
fn chapter_relative(number: &str) -> (r: String)
    ensures
        r@ == chapter_folder_of(number@),
{
    let mut out = chars_of("chapters/");
    push_str(&mut out, chapter_slug(number).as_str());
    proof {
        reveal_strlit("chapters/");
    }
    string_of(out.as_slice())
}


/// The index with its chapters replaced.
pub open spec fn with_chapters(st: IndexState, cs: Seq<ChapterRecord>) -> IndexState {
    IndexState { chapters: cs, ..st }
}

/// An optional text as plain values.
pub open spec fn opt_str(o: Option<&str>) -> Option<Seq<char>> {
    match o {
        Some(u) => Some(u@),
        None => None,
    }
}

/// Recording that chapter `number` is on disk.
pub open spec fn recorded(
    cs: Seq<ChapterRecord>,
    id: i64,
    number: Seq<char>,
    page_count: u32,
    source_url: Option<Seq<char>>,
    now: i64,
) -> Seq<ChapterRecord> {
    upsert_chapter(cs, id, number, |c: ChapterRecord| downloaded(c, page_count, source_url, now))
}

/// Recording that chapter `number` was read from its source.
pub open spec fn streamed_in(
    cs: Seq<ChapterRecord>,
    id: i64,
    number: Seq<char>,
    source_id: Option<Seq<char>>,
    page_count: u32,
) -> Seq<ChapterRecord> {
    upsert_chapter(cs, id, number, |c: ChapterRecord| streamed(c, source_id, page_count))
}

/// Recording where the reader is in chapter `number`.
pub open spec fn progress_saved(
    cs: Seq<ChapterRecord>,
    id: i64,
    number: Seq<char>,
    page: u32,
    finished: bool,
    now: i64,
) -> Seq<ChapterRecord> {
    update_chapter(cs, id, number, |c: ChapterRecord| progressed(c, page, finished, now))
}

/// Forgetting the reading of chapter `number`.
pub open spec fn progress_cleared(cs: Seq<ChapterRecord>, id: i64, number: Seq<char>) -> Seq<ChapterRecord> {
    update_chapter(cs, id, number, |c: ChapterRecord| unread(c))
}

/// The chapter stored as `number` of series `id`, or a blank one.
pub open spec fn chapter_or_blank(cs: Seq<ChapterRecord>, id: i64, number: Seq<char>) -> ChapterRecord {
    let k = chapter_pos(cs, id, number);
    if k >= 0 {
        cs[k]
    } else {
        blank_chapter(id, number)
    }
}

/// Forgetting the reading of series `id`'s chapters, or of every chapter.
pub open spec fn unread_all(cs: Seq<ChapterRecord>, only: Option<i64>) -> Seq<ChapterRecord> {
    cs.map_values(
        |c: ChapterRecord|
            if only is None || only == Some(c.series_id) {
                unread(c)
            } else {
                c
            },
    )
}

impl Index {
    /// Note that a chapter exists and was opened from its source rather
    /// than from disk. Its row has no folder, the same shape as a chapter
    /// known but not held, so history and resuming treat it alike.
    pub fn record_streamed_chapter(
        &mut self,
        id: SeriesId,
        number: &str,
        source_id: Option<&str>,
        page_count: u32,
    ) -> (r: Result<(), String>)
        ensures
            !has_series(old(self)@, id.0) ==> (r matches Err(e) && e@ == no_series_message(id.0)
                && final(self)@ == old(self)@),
            has_series(old(self)@, id.0) ==> r is Ok,
            has_series(old(self)@, id.0) ==> final(self)@ == with_chapters(
                old(self)@,
                streamed_in(old(self)@.chapters, id.0, number@, opt_str(source_id), page_count),
            ),
            index_wf(old(self)@) ==> index_wf(final(self)@),
    {
        let ghost st = self@;
        let ghost sid = match source_id {
            Some(u) => Some(u@),
            None => None,
        };
        let ghost f = |c: ChapterRecord| streamed(c, sid, page_count);
        proof {
            lemma_has_series(st, id.0);
        }
        if self.find_series(id.0).is_none() {
            return Err(no_series(id.0));
        }
        let number = String::from_str(number);
        let sid_text = match source_id {
            Some(u) => Some(String::from_str(u)),
            None => None,
        };
        match self.find_chapter(id.0, &number) {
            Some(k) => {
                let ghost rec = f(st.chapters[k as int]);
                proof {
                    lemma_chapter_pos(st.chapters, id.0, number@);
                }
                if sid_text.is_some() {
                    self.chapters[k].source_id = sid_text;
                }
                if self.chapters[k].folder.is_none() {
                    self.chapters[k].page_count = page_count;
                }
                proof {
                    assert(self@.chapters[k as int] == rec);
                    assert(self@.chapters =~= st.chapters.update(k as int, rec));
                    if index_wf(st) {
                        lemma_chapter_update_wf(st, k as int, rec);
                    }
                }
            },
            None => {
                let ghost rec = f(blank_chapter(id.0, number@));
                self.chapters.push(
                    ChapterRow {
                        series_id: id.0,
                        number,
                        volume: None,
                        title: None,
                        folder: None,
                        page_count,
                        source_url: None,
                        downloaded_at: None,
                        source_id: sid_text,
                        unavailable: false,
                        last_page: 0,
                        read_at: None,
                        opened_at: None,
                    },
                );
                proof {
                    assert(self@.chapters =~= st.chapters.push(rec));
                    if index_wf(st) {
                        lemma_chapter_push_wf(st, rec);
                    }
                }
            },
        }
        Ok(())
    }

    /// Record where the reader is in a chapter: on `page`, opened `now`, and
    /// finished when `finished` says so (the caller watching the reader is
    /// the one who knows). The time a chapter was first finished is kept.
    /// A chapter the index does not know is left alone.
    pub fn save_progress_at(&mut self, id: SeriesId, number: &str, page: u32, finished: bool, now: i64)
        ensures
            final(self)@ == with_chapters(
                old(self)@,
                progress_saved(old(self)@.chapters, id.0, number@, page, finished, now),
            ),
            index_wf(old(self)@) ==> index_wf(final(self)@),
    {
        let ghost st = self@;
        let ghost f = |c: ChapterRecord| progressed(c, page, finished, now);
        let number = String::from_str(number);
        match self.find_chapter(id.0, &number) {
            Some(k) => {
                let ghost rec = f(st.chapters[k as int]);
                self.chapters[k].last_page = page;
                self.chapters[k].opened_at = Some(now);
                if finished && self.chapters[k].read_at.is_none() {
                    self.chapters[k].read_at = Some(now);
                }
                proof {
                    assert(self@.chapters[k as int] == rec);
                    assert(self@.chapters =~= st.chapters.update(k as int, rec));
                    if index_wf(st) {
                        lemma_chapter_update_wf(st, k as int, rec);
                    }
                }
            },
            None => {},
        }
    }

    /// Forget that a chapter was read, without touching its pages.
    pub fn clear_progress(&mut self, id: SeriesId, number: &str)
        ensures
            final(self)@ == with_chapters(old(self)@, progress_cleared(old(self)@.chapters, id.0, number@)),
            index_wf(old(self)@) ==> index_wf(final(self)@),
    {
        let ghost st = self@;
        let ghost f = |c: ChapterRecord| unread(c);
        let number = String::from_str(number);
        match self.find_chapter(id.0, &number) {
            Some(k) => {
                let ghost rec = f(st.chapters[k as int]);
                self.chapters[k].last_page = 0;
                self.chapters[k].read_at = None;
                self.chapters[k].opened_at = None;
                proof {
                    assert(self@.chapters[k as int] == rec);
                    assert(self@.chapters =~= st.chapters.update(k as int, rec));
                    if index_wf(st) {
                        lemma_chapter_update_wf(st, k as int, rec);
                    }
                }
            },
            None => {},
        }
    }

    fn forget_reading(&mut self, only: Option<i64>)
        ensures
            final(self)@ == with_chapters(old(self)@, unread_all(old(self)@.chapters, only)),
            index_wf(old(self)@) ==> index_wf(final(self)@),
    {
        let ghost st = self@;
        let ghost target = unread_all(st.chapters, only);
        let mut i: usize = 0;
        while i < self.chapters.len()
            invariant
                i <= self.chapters@.len(),
                self.chapters@.len() == st.chapters.len(),
                self@.root == st.root,
                self@.series == st.series,
                self@.volumes == st.volumes,
                self@.last_id == st.last_id,
                target == unread_all(st.chapters, only),
                forall|j: int| 0 <= j < i ==> (#[trigger] self.chapters@[j])@ == target[j],
                forall|j: int| i <= j < self.chapters@.len() ==> (#[trigger] self.chapters@[j])@ == st.chapters[j],
            decreases self.chapters@.len() - i,
        {
            let ghost before = self.chapters@;
            let mine = match only {
                None => true,
                Some(o) => self.chapters[i].series_id == o,
            };
            if mine {
                self.chapters[i].last_page = 0;
                self.chapters[i].read_at = None;
                self.chapters[i].opened_at = None;
            }
            proof {
                assert(target[i as int] == (if only is None || only == Some(st.chapters[i as int].series_id) {
                    unread(st.chapters[i as int])
                } else {
                    st.chapters[i as int]
                }));
                assert(self.chapters@[i as int]@ == target[i as int]);
                assert forall|j: int| 0 <= j < self.chapters@.len() && j != i implies #[trigger] self.chapters@[j] == before[j] by {}
            }
            i = i + 1;
        }
        proof {
            assert forall|j: int| 0 <= j < target.len() implies #[trigger] self@.chapters[j] == target[j] by {
                assert(self@.chapters[j] == self.chapters@[j]@);
            }
            assert(self@.chapters =~= target);
            if index_wf(st) {
                let t = self@;
                assert forall|j: int| 0 <= j < t.chapters.len() implies has_series(t, (#[trigger] t.chapters[j]).series_id) by {
                    assert(t.chapters[j] == target[j]);
                    assert(has_series(st, st.chapters[j].series_id));
                }
                assert forall|a: int, b: int| 0 <= a < b < t.chapters.len() implies !((#[trigger] t.chapters[a]).series_id == (
                    #[trigger] t.chapters[b]).series_id && t.chapters[a].number == t.chapters[b].number) by {
                    assert(t.chapters[a] == target[a]);
                    assert(t.chapters[b] == target[b]);
                }
            }
        }
    }

    /// Forget what was read, in every series. The pages stay.
    pub fn clear_history(&mut self)
        ensures
            final(self)@ == with_chapters(old(self)@, unread_all(old(self)@.chapters, None)),
            index_wf(old(self)@) ==> index_wf(final(self)@),
    {
        self.forget_reading(None)
    }

    /// Forget what was read of one series, leaving the others alone.
    pub fn clear_series_history(&mut self, id: SeriesId)
        ensures
            final(self)@ == with_chapters(old(self)@, unread_all(old(self)@.chapters, Some(id.0))),
            index_wf(old(self)@) ==> index_wf(final(self)@),
    {
        self.forget_reading(Some(id.0))
    }

    /// Forget a chapter's pages, giving the folder to delete. The chapter
    /// stays known when a published volume claims it, so the gap shows.
    pub fn delete_chapter(&mut self, id: SeriesId, number: &str) -> (r: Result<Option<String>, String>)
        ensures
            !has_series(old(self)@, id.0) ==> (r matches Err(e) && e@ == no_series_message(id.0)
                && final(self)@ == old(self)@),
            has_series(old(self)@, id.0) && chapter_pos(old(self)@.chapters, id.0, number@) < 0 ==> (r matches Err(e)
                && e@ == no_chapter_message(id.0, number@) && final(self)@ == old(self)@),
            has_series(old(self)@, id.0) && chapter_pos(old(self)@.chapters, id.0, number@) >= 0
                ==> final(self)@ == with_chapters(old(self)@, deleted(old(self)@.chapters, id.0, number@)),
            has_series(old(self)@, id.0) && chapter_pos(old(self)@.chapters, id.0, number@) >= 0 ==> (r matches Ok(
                f,
            ) && opt_text(f) == inside(
                folder_of(old(self)@, id.0),
                old(self)@.chapters[chapter_pos(old(self)@.chapters, id.0, number@)].folder,
            )),
            index_wf(old(self)@) ==> index_wf(final(self)@),
    {
        let ghost st = self@;
        proof {
            lemma_has_series(st, id.0);
        }
        let s = match self.find_series(id.0) {
            None => return Err(no_series(id.0)),
            Some(s) => s,
        };
        let folder = self.folder_at(s);
        let number = String::from_str(number);
        let k = match self.find_chapter(id.0, &number) {
            None => return Err(no_chapter(id.0, &number)),
            Some(k) => k,
        };
        let gone = match &self.chapters[k].folder {
            Some(f) => Some(string_of(join_path(&folder, f.as_str()).as_slice())),
            None => None,
        };
        assert(st.chapters[k as int] == self.chapters@[k as int]@);
        if self.chapters[k].volume.is_none() {
            self.chapters.remove(k);
            proof {
                assert(self@.chapters =~= st.chapters.remove(k as int));
                if index_wf(st) {
                    lemma_chapter_remove_wf(st, k as int);
                }
            }
        } else {
            let ghost rec = emptied(st.chapters[k as int]);
            self.chapters[k].folder = None;
            self.chapters[k].page_count = 0;
            self.chapters[k].downloaded_at = None;
            proof {
                assert(self@.chapters[k as int] == rec);
                assert(self@.chapters =~= st.chapters.update(k as int, rec));
                if index_wf(st) {
                    lemma_chapter_update_wf(st, k as int, rec);
                }
            }
        }
        Ok(gone)
    }
}


/// Reading order of chapter labels: numbers by value first, then the rest;
/// labels of equal value by their text.
pub open spec fn chapter_less(a: Seq<char>, b: Seq<char>) -> bool {
    number_less(a, b) || (!number_less(b, a) && lex_less(a, b))
}

/// Chapter rows are put in reading order by their labels.
impl Ordered for ChapterRow {
    open spec fn less(a: ChapterRecord, b: ChapterRecord) -> bool {
        chapter_less(a.number, b.number)
    }

    fn before(&self, other: &Self) -> (r: bool) {
        let a = self.number.as_str();
        let b = other.number.as_str();
        number_before(a, b) || (!number_before(b, a) && lex_before(&chars_of(a), &chars_of(b)))
    }
}

/// History is listed most recently opened first.
impl Ordered for HistoryEntry {
    open spec fn less(a: HistoryView, b: HistoryView) -> bool {
        a.opened_at > b.opened_at
    }

    fn before(&self, other: &Self) -> (r: bool) {
        self.opened_at > other.opened_at
    }
}

/// The labels of some chapters.
pub open spec fn numbers_of(cs: Seq<ChapterRecord>) -> Seq<Seq<char>> {
    cs.map_values(|c: ChapterRecord| c.number)
}

/// Whether a chapter can be opened: its pages are on disk, or its source
/// can serve them.
pub open spec fn openable(c: ChapterRecord) -> bool {
    c.folder is Some || (c.source_id is Some && !c.unavailable)
}

/// The chapters of series `id` held on disk, in stored order.
pub open spec fn held_of(cs: Seq<ChapterRecord>, id: i64) -> Seq<ChapterRecord>
    decreases cs.len(),
{
    if cs.len() == 0 {
        Seq::empty()
    } else if cs.last().series_id == id && cs.last().folder is Some {
        held_of(cs.drop_last(), id).push(cs.last())
    } else {
        held_of(cs.drop_last(), id)
    }
}

/// Whether a chapter belongs in the history asked for: opened, still
/// openable from somewhere, of a stored series, and of series `only` when
/// one is named.
pub open spec fn in_history(st: IndexState, c: ChapterRecord, only: Option<i64>) -> bool {
    c.opened_at is Some && openable(c) && has_series(st, c.series_id) && (only is None || only
        == Some(c.series_id))
}

/// A history entry for a chapter.
pub open spec fn history_view(st: IndexState, c: ChapterRecord) -> HistoryView {
    let r = st.series[series_pos(st.series, c.series_id)];
    let folder = series_folder(st.root, r.slug);
    HistoryView {
        series_id: c.series_id,
        series_title: r.title,
        cover_path: inside(folder, r.cover_path),
        chapter: c.number,
        last_page: c.last_page,
        page_count: c.page_count,
        opened_at: c.opened_at.unwrap(),
        finished: c.read_at is Some,
        downloaded: c.folder is Some,
        chapter_source_id: c.source_id,
        series_source_id: r.source_id,
    }
}

/// The entries of the history asked for, in stored order.
pub open spec fn history_of(st: IndexState, cs: Seq<ChapterRecord>, only: Option<i64>) -> Seq<HistoryView>
    decreases cs.len(),
{
    if cs.len() == 0 {
        Seq::empty()
    } else if in_history(st, cs.last(), only) {
        history_of(st, cs.drop_last(), only).push(history_view(st, cs.last()))
    } else {
        history_of(st, cs.drop_last(), only)
    }
}

/// The history asked for, most recently opened first, at most `limit` long.
pub open spec fn history_list(st: IndexState, only: Option<i64>, limit: nat) -> Seq<HistoryView> {
    let all = sorted_by(history_of(st, st.chapters, only), order_of::<HistoryEntry>());
    if all.len() <= limit {
        all
    } else {
        all.take(limit as int)
    }
}

/// Whether a chapter of series `id` is one to offer for reading: not
/// finished, and openable.
pub open spec fn resumable(c: ChapterRecord, id: i64) -> bool {
    c.series_id == id && c.read_at is None && openable(c)
}

/// The unfinished chapter of series `id` opened most recently (the earliest
/// stored among equals), or -1.
pub open spec fn last_opened(cs: Seq<ChapterRecord>, id: i64) -> int
    decreases cs.len(),
{
    if cs.len() == 0 {
        -1
    } else {
        let k = last_opened(cs.drop_last(), id);
        let c = cs.last();
        if resumable(c, id) && c.opened_at is Some && (k < 0 || c.opened_at.unwrap()
            > cs[k].opened_at.unwrap()) {
            cs.len() - 1
        } else {
            k
        }
    }
}

/// The first chapter of series `id` in reading order that is still to
/// read, or -1.
pub open spec fn next_unread(cs: Seq<ChapterRecord>, id: i64) -> int
    decreases cs.len(),
{
    if cs.len() == 0 {
        -1
    } else {
        let k = next_unread(cs.drop_last(), id);
        let c = cs.last();
        if resumable(c, id) && (k < 0 || chapter_less(c.number, cs[k].number)) {
            cs.len() - 1
        } else {
            k
        }
    }
}

/// The chapter to offer as "continue reading": the unfinished one opened
/// last, or failing that the first one not yet read. Someone who finished
/// everything they started wants the next one, not the last one again.
pub open spec fn resume_pos(cs: Seq<ChapterRecord>, id: i64) -> int {
    if last_opened(cs, id) >= 0 {
        last_opened(cs, id)
    } else {
        next_unread(cs, id)
    }
}

pub proof fn lemma_last_opened(cs: Seq<ChapterRecord>, id: i64)
    ensures
        -1 <= last_opened(cs, id) < cs.len(),
        last_opened(cs, id) >= 0 ==> resumable(cs[last_opened(cs, id)], id)
            && cs[last_opened(cs, id)].opened_at is Some,
    decreases cs.len(),
{
    if cs.len() > 0 {
        lemma_last_opened(cs.drop_last(), id);
    }
}

pub proof fn lemma_next_unread(cs: Seq<ChapterRecord>, id: i64)
    ensures
        -1 <= next_unread(cs, id) < cs.len(),
        next_unread(cs, id) >= 0 ==> resumable(cs[next_unread(cs, id)], id),
        next_unread(cs, id) == -1 ==> forall|j: int| 0 <= j < cs.len() ==> !resumable(#[trigger] cs[j], id),
    decreases cs.len(),
{
    if cs.len() > 0 {
        lemma_next_unread(cs.drop_last(), id);
        assert forall|j: int| 0 <= j < cs.len() - 1 implies cs[j] == cs.drop_last()[j] by {}
    }
}

fn copy_row(c: &ChapterRow) -> (r: ChapterRow)
    ensures
        r@ == c@,
{
    ChapterRow {
        series_id: c.series_id,
        number: c.number.clone(),
        volume: copy_text(&c.volume),
        title: copy_text(&c.title),
        folder: copy_text(&c.folder),
        page_count: c.page_count,
        source_url: copy_text(&c.source_url),
        downloaded_at: c.downloaded_at,
        source_id: copy_text(&c.source_id),
        unavailable: c.unavailable,
        last_page: c.last_page,
        read_at: c.read_at,
        opened_at: c.opened_at,
    }
}

fn is_openable(c: &ChapterRow) -> (r: bool)
    ensures
        r == openable(c@),
{
    c.folder.is_some() || (c.source_id.is_some() && !c.unavailable)
}

impl Index {
    /// Every downloaded chapter of series `id`, in reading order: what a
    /// reader steps through.
    pub fn downloaded_chapter_numbers(&self, id: SeriesId) -> (r: Vec<String>)
        ensures
            texts(r@) == numbers_of(sorted_by(held_of(self@.chapters, id.0), order_of::<ChapterRow>())),
    {
        let ghost cs = self@.chapters;
        let mut held: Vec<ChapterRow> = Vec::new();
        let mut i: usize = 0;
        assert(cs.take(0) =~= Seq::<ChapterRecord>::empty());
        while i < self.chapters.len()
            invariant
                i <= self.chapters@.len(),
                cs == self@.chapters,
                views_of(held@) == held_of(cs.take(i as int), id.0),
            decreases self.chapters@.len() - i,
        {
            assert(cs.take(i + 1).drop_last() =~= cs.take(i as int));
            assert(cs.take(i + 1).last() == self.chapters@[i as int]@);
            if self.chapters[i].series_id == id.0 && self.chapters[i].folder.is_some() {
                held.push(copy_row(&self.chapters[i]));
                assert(views_of(held@) =~= held_of(cs.take(i as int), id.0).push(cs[i as int]));
            }
            i = i + 1;
        }
        assert(cs.take(i as int) =~= cs);
        let sorted = stable_sort(held);
        let ghost sv = views_of(sorted@);
        let mut out: Vec<String> = Vec::new();
        let mut j: usize = 0;
        while j < sorted.len()
            invariant
                j <= sorted@.len(),
                sv == views_of(sorted@),
                texts(out@) == numbers_of(sv.take(j as int)),
            decreases sorted@.len() - j,
        {
            let ghost before = out@;
            out.push(sorted[j].number.clone());
            proof {
                assert(sv.len() == sorted@.len());
                assert(sv[j as int] == sorted@[j as int]@);
                assert(texts(out@) =~= texts(before).push(sv[j as int].number));
                assert(numbers_of(sv.take(j + 1)) =~= numbers_of(sv.take(j as int)).push(sv[j as int].number));
            }
            j = j + 1;
        }
        assert(sv.take(j as int) =~= sv);
        out
    }

    /// The history entry for the chapter stored at `k`.
    fn history_at(&self, k: usize) -> (r: HistoryEntry)
        requires
            k < self.chapters@.len(),
            has_series(self@, self@.chapters[k as int].series_id),
            self@.chapters[k as int].opened_at is Some,
        ensures
            r@ == history_view(self@, self@.chapters[k as int]),
    {
        let c = &self.chapters[k];
        assert(self@.chapters[k as int] == c@);
        proof {
            lemma_has_series(self@, c.series_id);
        }
        let s = match self.find_series(c.series_id) {
            Some(s) => s,
            None => 0,
        };
        let row = &self.series[s];
        assert(self@.series[s as int] == row@);
        let folder = self.folder_at(s);
        let cover = match &row.cover_path {
            Some(p) => Some(string_of(join_path(&folder, p.as_str()).as_slice())),
            None => None,
        };
        let opened = match c.opened_at {
            Some(t) => t,
            None => 0,
        };
        HistoryEntry {
            series_id: SeriesId(c.series_id),
            series_title: row.title.clone(),
            cover_path: cover,
            chapter: c.number.clone(),
            last_page: c.last_page,
            page_count: c.page_count,
            opened_at: opened,
            finished: c.read_at.is_some(),
            downloaded: c.folder.is_some(),
            chapter_source_id: copy_text(&c.source_id),
            series_source_id: copy_text(&row.source_id),
        }
    }

    fn history_for(&self, only: Option<i64>, limit: usize) -> (r: Vec<HistoryEntry>)
        ensures
            views_of(r@) == history_list(self@, only, limit as nat),
    {
        let ghost cs = self@.chapters;
        let mut all: Vec<HistoryEntry> = Vec::new();
        let mut i: usize = 0;
        assert(cs.take(0) =~= Seq::<ChapterRecord>::empty());
        while i < self.chapters.len()
            invariant
                i <= self.chapters@.len(),
                cs == self@.chapters,
                views_of(all@) == history_of(self@, cs.take(i as int), only),
            decreases self.chapters@.len() - i,
        {
            assert(cs.take(i + 1).drop_last() =~= cs.take(i as int));
            assert(cs.take(i + 1).last() == self.chapters@[i as int]@);
            let c = &self.chapters[i];
            let mine = match only {
                None => true,
                Some(o) => c.series_id == o,
            };
            proof {
                lemma_has_series(self@, c.series_id);
            }
            if c.opened_at.is_some() && is_openable(c) && mine && self.find_series(c.series_id).is_some() {
                all.push(self.history_at(i));
                assert(views_of(all@) =~= history_of(self@, cs.take(i as int), only).push(
                    history_view(self@, cs[i as int]),
                ));
            }
            i = i + 1;
        }
        assert(cs.take(i as int) =~= cs);
        let mut sorted = stable_sort(all);
        if sorted.len() > limit {
            sorted.truncate(limit);
            assert(views_of(sorted@) =~= history_list(self@, only, limit as nat));
        }
        sorted
    }

    /// Recently opened chapters of every series, newest first, at most
    /// `limit` of them. A chapter whose pages are gone and which its source
    /// cannot serve is a dead end and is left out.
    pub fn history(&self, limit: usize) -> (r: Vec<HistoryEntry>)
        ensures
            views_of(r@) == history_list(self@, None, limit as nat),
    {
        self.history_for(None, limit)
    }

    /// The history of one series, newest first, at most `limit` long.
    pub fn series_history(&self, id: SeriesId, limit: usize) -> (r: Vec<HistoryEntry>)
        ensures
            views_of(r@) == history_list(self@, Some(id.0), limit as nat),
    {
        self.history_for(Some(id.0), limit)
    }

    /// The chapter to offer as "continue reading" for series `id`.
    pub fn resume_point(&self, id: SeriesId) -> (r: Result<Option<ChapterStatus>, String>)
        ensures
            !has_series(self@, id.0) ==> (r matches Err(e) && e@ == no_series_message(id.0)),
            has_series(self@, id.0) && resume_pos(self@.chapters, id.0) < 0 ==> r == Ok::<
                Option<ChapterStatus>,
                String,
            >(None),
            has_series(self@, id.0) && resume_pos(self@.chapters, id.0) >= 0 ==> (r matches Ok(
                Some(c),
            ) && c@ == status_view(
                folder_of(self@, id.0),
                self@.chapters[resume_pos(self@.chapters, id.0)],
            )),
    {
        let ghost cs = self@.chapters;
        proof {
            lemma_has_series(self@, id.0);
        }
        let s = match self.find_series(id.0) {
            None => return Err(no_series(id.0)),
            Some(s) => s,
        };
        let folder = self.folder_at(s);
        let mut opened: Option<usize> = None;
        let mut first: Option<usize> = None;
        let mut i: usize = 0;
        assert(cs.take(0) =~= Seq::<ChapterRecord>::empty());
        while i < self.chapters.len()
            invariant
                i <= self.chapters@.len(),
                cs == self@.chapters,
                match opened {
                    Some(k) => k < i && k as int == last_opened(cs.take(i as int), id.0),
                    None => last_opened(cs.take(i as int), id.0) == -1,
                },
                match first {
                    Some(k) => k < i && k as int == next_unread(cs.take(i as int), id.0),
                    None => next_unread(cs.take(i as int), id.0) == -1,
                },
            decreases self.chapters@.len() - i,
        {
            let ghost t = cs.take(i + 1);
            assert(t.drop_last() =~= cs.take(i as int));
            assert(t.last() == self.chapters@[i as int]@);
            proof {
                lemma_last_opened(cs.take(i as int), id.0);
                lemma_next_unread(cs.take(i as int), id.0);
            }
            let c = &self.chapters[i];
            if c.series_id == id.0 && c.read_at.is_none() && is_openable(c) {
                let newer = match (opened, c.opened_at) {
                    (_, None) => false,
                    (None, Some(_)) => true,
                    (Some(k), Some(at)) => {
                        assert(t[k as int] == self.chapters@[k as int]@);
                        match self.chapters[k].opened_at {
                            Some(best) => at > best,
                            None => true,
                        }
                    },
                };
                if newer {
                    opened = Some(i);
                }
                let earlier = match first {
                    None => true,
                    Some(k) => {
                        assert(t[k as int] == self.chapters@[k as int]@);
                        c.before(&self.chapters[k])
                    },
                };
                if earlier {
                    first = Some(i);
                }
            }
            i = i + 1;
        }
        assert(cs.take(i as int) =~= cs);
        let pick = match opened {
            Some(k) => Some(k),
            None => first,
        };
        match pick {
            Some(k) => Ok(Some(self.status_at(&folder, k))),
            None => Ok(None),
        }
    }
}


/// The index with its volumes replaced.
pub open spec fn with_volumes(st: IndexState, vs: Seq<VolumeRecord>) -> IndexState {
    IndexState { volumes: vs, ..st }
}

/// A volume row as first recorded: no cover, never built.
pub open spec fn blank_volume(id: i64, number: Seq<char>) -> VolumeRecord {
    VolumeRecord { series_id: id, number: number, cover_url: None, cover_path: None, built: None }
}

/// Changing volume `number` of series `id` by `f`, recording it first when
/// it is not known.
pub open spec fn upsert_volume(
    vs: Seq<VolumeRecord>,
    id: i64,
    number: Seq<char>,
    f: spec_fn(VolumeRecord) -> VolumeRecord,
) -> Seq<VolumeRecord> {
    let k = volume_pos(vs, id, number);
    if k >= 0 {
        vs.update(k, f(vs[k]))
    } else {
        vs.push(f(blank_volume(id, number)))
    }
}

/// A volume the published layout lists: its cover address is refreshed,
/// unless the layout gives none.
pub open spec fn volume_listed(vs: Seq<VolumeRecord>, id: i64, v: PublishedVolume) -> Seq<VolumeRecord> {
    upsert_volume(
        vs,
        id,
        v.number@,
        |r: VolumeRecord| VolumeRecord { cover_url: or_else(opt_text(v.cover_url), r.cover_url), ..r },
    )
}

/// A chapter the published layout lists in volume `volume`: its volume and
/// availability are refreshed, its title and source id unless the layout
/// gives none. A chapter on disk keeps its folder and pages.
pub open spec fn chapter_listed(
    cs: Seq<ChapterRecord>,
    id: i64,
    volume: Seq<char>,
    p: PublishedChapter,
) -> Seq<ChapterRecord> {
    upsert_chapter(
        cs,
        id,
        p.number@,
        |c: ChapterRecord|
            ChapterRecord {
                volume: Some(volume),
                title: or_else(opt_text(p.title), c.title),
                source_id: or_else(opt_text(p.source_id), c.source_id),
                unavailable: p.unavailable,
                ..c
            },
    )
}

/// Merging the chapters one published volume lists.
pub open spec fn chapters_listed(
    cs: Seq<ChapterRecord>,
    id: i64,
    volume: Seq<char>,
    ps: Seq<PublishedChapter>,
) -> Seq<ChapterRecord>
    decreases ps.len(),
{
    if ps.len() == 0 {
        cs
    } else {
        chapter_listed(chapters_listed(cs, id, volume, ps.drop_last()), id, volume, ps.last())
    }
}

/// Merging a published layout, volume by volume.
pub open spec fn layout_merged(st: IndexState, id: i64, vs: Seq<PublishedVolume>) -> IndexState
    decreases vs.len(),
{
    if vs.len() == 0 {
        st
    } else {
        let m = layout_merged(st, id, vs.drop_last());
        let v = vs.last();
        IndexState {
            volumes: volume_listed(m.volumes, id, v),
            chapters: chapters_listed(m.chapters, id, v.number@, v.chapters@),
            ..m
        }
    }
}

/// Merging a published layout into series `id` and noting when.
pub open spec fn synced(st: IndexState, id: i64, vs: Seq<PublishedVolume>, now: i64) -> IndexState {
    let m = layout_merged(st, id, vs);
    let k = series_pos(m.series, id);
    IndexState { series: m.series.update(k, SeriesRecord { synced_at: Some(now), ..m.series[k] }), ..m }
}

/// The chapters of series `id`, in stored order.
pub open spec fn of_series(cs: Seq<ChapterRecord>, id: i64) -> Seq<ChapterRecord>
    decreases cs.len(),
{
    if cs.len() == 0 {
        Seq::empty()
    } else if cs.last().series_id == id {
        of_series(cs.drop_last(), id).push(cs.last())
    } else {
        of_series(cs.drop_last(), id)
    }
}

/// Changing a volume without touching its key keeps the invariant.
proof fn lemma_volume_update_wf(st: IndexState, k: int, rec: VolumeRecord)
    requires
        index_wf(st),
        0 <= k < st.volumes.len(),
        rec.series_id == st.volumes[k].series_id,
        rec.number == st.volumes[k].number,
    ensures
        index_wf(IndexState { volumes: st.volumes.update(k, rec), ..st }),
{
    let t = IndexState { volumes: st.volumes.update(k, rec), ..st };
    assert forall|i: int| 0 <= i < t.volumes.len() implies has_series(t, (#[trigger] t.volumes[i]).series_id) by {
        assert(has_series(st, st.volumes[i].series_id));
    }
}

/// What `volume_pos` finds is the volume asked for.
pub proof fn lemma_volume_pos(vs: Seq<VolumeRecord>, id: i64, number: Seq<char>)
    ensures
        -1 <= volume_pos(vs, id, number) < vs.len(),
        volume_pos(vs, id, number) >= 0 ==> vs[volume_pos(vs, id, number)].series_id == id
            && vs[volume_pos(vs, id, number)].number == number,
{
    let p = |v: VolumeRecord| v.series_id == id && v.number == number;
    lemma_first_where(vs, p);
    if volume_pos(vs, id, number) >= 0 {
        assert(p(vs[volume_pos(vs, id, number)]));
    }
}

/// Recording a volume not yet known, of a stored series, keeps the invariant.
proof fn lemma_volume_push_wf(st: IndexState, rec: VolumeRecord)
    requires
        index_wf(st),
        volume_pos(st.volumes, rec.series_id, rec.number) == -1,
        has_series(st, rec.series_id),
    ensures
        index_wf(IndexState { volumes: st.volumes.push(rec), ..st }),
{
    let t = IndexState { volumes: st.volumes.push(rec), ..st };
    let p = |v: VolumeRecord| v.series_id == rec.series_id && v.number == rec.number;
    lemma_first_where(st.volumes, p);
    assert forall|i: int| 0 <= i < t.volumes.len() implies has_series(t, (#[trigger] t.volumes[i]).series_id) by {
        if i < st.volumes.len() {
            assert(has_series(st, st.volumes[i].series_id));
        }
    }
    assert forall|i: int, j: int| 0 <= i < j < t.volumes.len() implies !((#[trigger] t.volumes[i]).series_id == (
        #[trigger] t.volumes[j]).series_id && t.volumes[i].number == t.volumes[j].number) by {
        if j == st.volumes.len() {
            assert(!p(st.volumes[i]));
        }
    }
}

impl Index {
    /// Where volume `number` of series `id` is stored.
    pub fn find_volume(&self, id: i64, number: &String) -> (r: Option<usize>)
        ensures
            match r {
                Some(k) => k as int == volume_pos(self@.volumes, id, number@) && k < self.volumes@.len(),
                None => volume_pos(self@.volumes, id, number@) == -1,
            },
    {
        let ghost p = |v: VolumeRecord| v.series_id == id && v.number == number@;
        let ghost vs = self@.volumes;
        let mut i: usize = 0;
        while i < self.volumes.len()
            invariant
                i <= self.volumes@.len(),
                vs == self@.volumes,
                p == (|v: VolumeRecord| v.series_id == id && v.number == number@),
                forall|j: int| 0 <= j < i ==> !p(#[trigger] vs[j]),
            decreases self.volumes@.len() - i,
        {
            assert(vs[i as int] == self.volumes@[i as int]@);
            if self.volumes[i].series_id == id && self.volumes[i].number == *number {
                proof {
                    lemma_first_where_at(vs, p, i as int);
                }
                return Some(i);
            }
            i = i + 1;
        }
        proof {
            lemma_first_where(vs, p);
        }
        None
    }

    fn list_volume(&mut self, id: i64, v: &PublishedVolume)
        requires
            index_wf(old(self)@) ==> has_series(old(self)@, id),
        ensures
            final(self)@ == with_volumes(old(self)@, volume_listed(old(self)@.volumes, id, *v)),
            index_wf(old(self)@) ==> index_wf(final(self)@),
    {
        let ghost st = self@;
        let ghost f = |r: VolumeRecord| VolumeRecord { cover_url: or_else(opt_text(v.cover_url), r.cover_url), ..r };
        proof {
            lemma_volume_pos(st.volumes, id, v.number@);
        }
        match self.find_volume(id, &v.number) {
            Some(k) => {
                let ghost rec = f(st.volumes[k as int]);
                if v.cover_url.is_some() {
                    self.volumes[k].cover_url = copy_text(&v.cover_url);
                }
                proof {
                    assert(self@.volumes[k as int] == rec);
                    assert(self@.volumes =~= st.volumes.update(k as int, rec));
                    if index_wf(st) {
                        lemma_volume_update_wf(st, k as int, rec);
                    }
                }
            },
            None => {
                let ghost rec = f(blank_volume(id, v.number@));
                self.volumes.push(
                    VolumeRow {
                        series_id: id,
                        number: v.number.clone(),
                        cover_url: copy_text(&v.cover_url),
                        cover_path: None,
                        built: None,
                    },
                );
                proof {
                    assert(self@.volumes =~= st.volumes.push(rec));
                    if index_wf(st) {
                        lemma_volume_push_wf(st, rec);
                    }
                }
            },
        }
    }

    fn list_chapter(&mut self, id: i64, volume: &String, p: &PublishedChapter)
        requires
            index_wf(old(self)@) ==> has_series(old(self)@, id),
        ensures
            final(self)@ == with_chapters(old(self)@, chapter_listed(old(self)@.chapters, id, volume@, *p)),
            index_wf(old(self)@) ==> index_wf(final(self)@),
    {
        let ghost st = self@;
        let ghost f = |c: ChapterRecord|
            ChapterRecord {
                volume: Some(volume@),
                title: or_else(opt_text(p.title), c.title),
                source_id: or_else(opt_text(p.source_id), c.source_id),
                unavailable: p.unavailable,
                ..c
            };
        proof {
            lemma_chapter_pos(st.chapters, id, p.number@);
        }
        match self.find_chapter(id, &p.number) {
            Some(k) => {
                let ghost rec = f(st.chapters[k as int]);
                self.chapters[k].volume = Some(volume.clone());
                if p.title.is_some() {
                    self.chapters[k].title = copy_text(&p.title);
                }
                if p.source_id.is_some() {
                    self.chapters[k].source_id = copy_text(&p.source_id);
                }
                self.chapters[k].unavailable = p.unavailable;
                proof {
                    assert(self@.chapters[k as int] == rec);
                    assert(self@.chapters =~= st.chapters.update(k as int, rec));
                    if index_wf(st) {
                        lemma_chapter_update_wf(st, k as int, rec);
                    }
                }
            },
            None => {
                let ghost rec = f(blank_chapter(id, p.number@));
                self.chapters.push(
                    ChapterRow {
                        series_id: id,
                        number: p.number.clone(),
                        volume: Some(volume.clone()),
                        title: copy_text(&p.title),
                        folder: None,
                        page_count: 0,
                        source_url: None,
                        downloaded_at: None,
                        source_id: copy_text(&p.source_id),
                        unavailable: p.unavailable,
                        last_page: 0,
                        read_at: None,
                        opened_at: None,
                    },
                );
                proof {
                    assert(self@.chapters =~= st.chapters.push(rec));
                    if index_wf(st) {
                        lemma_chapter_push_wf(st, rec);
                    }
                }
            },
        }
    }

    /// The labels of series `id`'s chapters, held ones only when `held`.
    fn labels_of(&self, id: i64, held: bool) -> (r: Vec<String>)
        ensures
            held ==> texts(r@) == numbers_of(held_of(self@.chapters, id)),
            !held ==> texts(r@) == numbers_of(of_series(self@.chapters, id)),
    {
        let ghost cs = self@.chapters;
        let mut out: Vec<String> = Vec::new();
        let mut i: usize = 0;
        assert(cs.take(0) =~= Seq::<ChapterRecord>::empty());
        while i < self.chapters.len()
            invariant
                i <= self.chapters@.len(),
                cs == self@.chapters,
                held ==> texts(out@) == numbers_of(held_of(cs.take(i as int), id)),
                !held ==> texts(out@) == numbers_of(of_series(cs.take(i as int), id)),
            decreases self.chapters@.len() - i,
        {
            assert(cs.take(i + 1).drop_last() =~= cs.take(i as int));
            assert(cs.take(i + 1).last() == self.chapters@[i as int]@);
            let ghost before = out@;
            if self.chapters[i].series_id == id && (!held || self.chapters[i].folder.is_some()) {
                out.push(self.chapters[i].number.clone());
                proof {
                    assert(texts(out@) =~= texts(before).push(cs[i as int].number));
                    if held {
                        assert(numbers_of(held_of(cs.take(i + 1), id)) =~= numbers_of(held_of(cs.take(i as int), id)).push(cs[i as int].number));
                    } else {
                        assert(numbers_of(of_series(cs.take(i + 1), id)) =~= numbers_of(of_series(cs.take(i as int), id)).push(cs[i as int].number));
                    }
                }
            }
            i = i + 1;
        }
        assert(cs.take(i as int) =~= cs);
        out
    }

    /// Merge a published volume/chapter layout into series `id`, noting the
    /// time as `now`. Chapters on disk are never removed, even when the
    /// layout stops listing them: they are counted as orphaned.
    pub fn sync_layout_at(&mut self, id: SeriesId, published: &Vec<PublishedVolume>, now: i64) -> (r: Result<SyncReport, String>)
        requires
            listed_numbers(published@).len() <= usize::MAX,
        ensures
            !has_series(old(self)@, id.0) ==> (r matches Err(e) && e@ == no_series_message(id.0)
                && final(self)@ == old(self)@),
            has_series(old(self)@, id.0) ==> final(self)@ == synced(old(self)@, id.0, published@, now),
            has_series(old(self)@, id.0) ==> (r matches Ok(report) && report.volumes == published@.len()
                && report.chapters_added == count_missing(
                listed_numbers(published@),
                numbers_of(of_series(old(self)@.chapters, id.0)),
            ) && report.orphaned == count_missing(
                numbers_of(held_of(final(self)@.chapters, id.0)),
                listed_numbers(published@),
            )),
            index_wf(old(self)@) ==> index_wf(final(self)@),
    {
        let ghost st = self@;
        proof {
            lemma_has_series(st, id.0);
        }
        if self.find_series(id.0).is_none() {
            return Err(no_series(id.0));
        }
        let known = self.labels_of(id.0, false);
        let mut v: usize = 0;
        assert(published@.take(0) =~= Seq::<PublishedVolume>::empty());
        while v < published.len()
            invariant
                v <= published@.len(),
                index_wf(st) ==> index_wf(self@),
                has_series(self@, id.0),
                self@ == layout_merged(st, id.0, published@.take(v as int)),
                self@.series == st.series,
                self@.root == st.root,
                self@.last_id == st.last_id,
            decreases published@.len() - v,
        {
            let pv = &published[v];
            let ghost m = self@;
            assert(published@.take(v + 1).drop_last() =~= published@.take(v as int));
            assert(published@.take(v + 1).last() == *pv);
            self.list_volume(id.0, pv);
            let mut c: usize = 0;
            assert(pv.chapters@.take(0) =~= Seq::<PublishedChapter>::empty());
            while c < pv.chapters.len()
                invariant
                    c <= pv.chapters@.len(),
                    index_wf(st) ==> index_wf(self@),
                    has_series(self@, id.0),
                    self@.volumes == volume_listed(m.volumes, id.0, *pv),
                    self@.chapters == chapters_listed(m.chapters, id.0, pv.number@, pv.chapters@.take(c as int)),
                    self@.series == st.series,
                    self@.root == st.root,
                    self@.last_id == st.last_id,
                decreases pv.chapters@.len() - c,
            {
                assert(pv.chapters@.take(c + 1).drop_last() =~= pv.chapters@.take(c as int));
                self.list_chapter(id.0, &pv.number, &pv.chapters[c]);
                proof {
                    assert(self@.series == st.series);
                    assert(has_series(self@, id.0));
                }
                c = c + 1;
            }
            assert(pv.chapters@.take(c as int) =~= pv.chapters@);
            v = v + 1;
        }
        assert(published@.take(v as int) =~= published@);
        let held = self.labels_of(id.0, true);
        let report = SyncReport::tally(&known, &held, published);
        let ghost m = self@;
        let k = match self.find_series(id.0) {
            Some(k) => k,
            None => 0,
        };
        proof {
            lemma_has_series(self@, id.0);
        }
        self.series[k].synced_at = Some(now);
        proof {
            let rec = SeriesRecord { synced_at: Some(now), ..m.series[k as int] };
            assert(self@.series =~= m.series.update(k as int, rec));
            if index_wf(m) {
                lemma_series_update_wf(m, k as int, rec);
            }
        }
        Ok(report)
    }
}


/// The chapters of series `id` in reading order.
pub open spec fn in_reading_order(cs: Seq<ChapterRecord>, id: i64) -> Seq<ChapterRecord> {
    sorted_by(of_series(cs, id), order_of::<ChapterRow>())
}

/// Chapter rows `(volume label, chapter)` that stand for the records `recs`
/// of a series with folder `folder`.
pub open spec fn rows_for(
    rows: Seq<(Option<String>, ChapterStatus)>,
    recs: Seq<ChapterRecord>,
    folder: Seq<char>,
) -> bool {
    &&& rows.len() == recs.len()
    &&& forall|i: int|
        0 <= i < rows.len() ==> opt_text((#[trigger] rows[i]).0) == recs[i].volume && rows[i].1@
            == status_view(folder, recs[i])
}

/// The stored volumes of series `id` as cover rows: label, cover address
/// and cover path made absolute.
pub open spec fn covers_of(vs: Seq<VolumeRecord>, id: i64, folder: Seq<char>) -> Seq<CoverView>
    decreases vs.len(),
{
    if vs.len() == 0 {
        Seq::empty()
    } else if vs.last().series_id == id {
        covers_of(vs.drop_last(), id, folder).push(
            (vs.last().number, vs.last().cover_url, inside(folder, vs.last().cover_path)),
        )
    } else {
        covers_of(vs.drop_last(), id, folder)
    }
}

/// The recorded build of volume `number`, unless its file is among `gone`.
pub open spec fn built_of(vs: Seq<VolumeRecord>, id: i64, number: Seq<char>, gone: Seq<Seq<char>>) -> Option<
    BuiltRecord,
> {
    let k = volume_pos(vs, id, number);
    if k >= 0 && vs[k].built is Some && !gone.contains(vs[k].built.unwrap().0) {
        vs[k].built
    } else {
        None
    }
}

fn copy_built(b: &BuiltVolume) -> (r: BuiltVolume)
    ensures
        built_view(Some(r)) == built_view(Some(*b)),
{
    BuiltVolume { path: b.path.clone(), built_at: b.built_at, bytes: b.bytes }
}

fn contains_text(v: &Vec<String>, s: &String) -> (r: bool)
    ensures
        r == texts(v@).contains(s@),
{
    let mut k: usize = 0;
    while k < v.len()
        invariant
            k <= v@.len(),
            forall|j: int| 0 <= j < k ==> texts(v@)[j] != s@,
        decreases v@.len() - k,
    {
        if v[k] == *s {
            assert(texts(v@)[k as int] == s@);
            return true;
        }
        k = k + 1;
    }
    false
}

impl Index {
    /// Every volume of series `id` with what is held of it. Chapters no
    /// published volume claims are gathered under `Unsorted`, last. A
    /// recorded build whose file is among `gone` counts as not built, so a
    /// cleaned-out output folder heals itself.
    pub fn volumes(&self, id: SeriesId, gone: &Vec<String>) -> (r: Result<Vec<VolumeStatus>, String>)
        ensures
            !has_series(self@, id.0) ==> (r matches Err(e) && e@ == no_series_message(id.0)),
            has_series(self@, id.0) ==> (r matches Ok(vs) && exists|rows: Seq<(Option<String>, ChapterStatus)>|
                #![trigger rows_for(rows, in_reading_order(self@.chapters, id.0), folder_of(self@, id.0))]
                rows_for(rows, in_reading_order(self@.chapters, id.0), folder_of(self@, id.0))
                    && volume_views(vs@) == arranged(
                    row_views(rows),
                    covers_of(self@.volumes, id.0, folder_of(self@, id.0)),
                )),
            has_series(self@, id.0) ==> (r matches Ok(vs) && forall|j: int|
                0 <= j < vs@.len() ==> built_view((#[trigger] vs@[j]).built) == built_of(
                    self@.volumes,
                    id.0,
                    vs@[j].number@,
                    texts(gone@),
                )),
    {
        let ghost cs = self@.chapters;
        let ghost vsv = self@.volumes;
        proof {
            lemma_has_series(self@, id.0);
        }
        let s = match self.find_series(id.0) {
            None => return Err(no_series(id.0)),
            Some(s) => s,
        };
        let folder = self.folder_at(s);
        let ghost fv = folder@;
        // The series's chapters, in reading order.
        let mut mine: Vec<ChapterRow> = Vec::new();
        let mut i: usize = 0;
        assert(cs.take(0) =~= Seq::<ChapterRecord>::empty());
        while i < self.chapters.len()
            invariant
                i <= self.chapters@.len(),
                cs == self@.chapters,
                views_of(mine@) == of_series(cs.take(i as int), id.0),
            decreases self.chapters@.len() - i,
        {
            assert(cs.take(i + 1).drop_last() =~= cs.take(i as int));
            assert(cs.take(i + 1).last() == self.chapters@[i as int]@);
            if self.chapters[i].series_id == id.0 {
                mine.push(copy_row(&self.chapters[i]));
                assert(views_of(mine@) =~= of_series(cs.take(i as int), id.0).push(cs[i as int]));
            }
            i = i + 1;
        }
        assert(cs.take(i as int) =~= cs);
        let ordered = stable_sort(mine);
        let ghost ov = views_of(ordered@);
        let mut rows: Vec<(Option<String>, ChapterStatus)> = Vec::new();
        let mut j: usize = 0;
        while j < ordered.len()
            invariant
                j <= ordered@.len(),
                ov == views_of(ordered@),
                rows_for(rows@, ov.take(j as int), fv),
                fv == folder@,
            decreases ordered@.len() - j,
        {
            assert(ov[j as int] == ordered@[j as int]@);
            rows.push((copy_text(&ordered[j].volume), status_of(&folder, &ordered[j])));
            assert(ov.take(j + 1).drop_last() =~= ov.take(j as int));
            proof {
                let t = ov.take(j + 1);
                assert forall|q: int| 0 <= q < rows@.len() implies opt_text((#[trigger] rows@[q]).0) == t[q].volume
                    && rows@[q].1@ == status_view(fv, t[q]) by {
                    if q < j {
                        assert(t[q] == ov.take(j as int)[q]);
                    }
                }
            }
            j = j + 1;
        }
        assert(ov.take(j as int) =~= ov);
        // The series's volume rows, as covers.
        let ghost vs0 = self@.volumes;
        let mut covers: Vec<(String, Option<String>, Option<String>)> = Vec::new();
        let mut c: usize = 0;
        assert(vs0.take(0) =~= Seq::<VolumeRecord>::empty());
        while c < self.volumes.len()
            invariant
                c <= self.volumes@.len(),
                vs0 == self@.volumes,
                fv == folder@,
                cover_views(covers@) == covers_of(vs0.take(c as int), id.0, fv),
            decreases self.volumes@.len() - c,
        {
            assert(vs0.take(c + 1).drop_last() =~= vs0.take(c as int));
            assert(vs0.take(c + 1).last() == self.volumes@[c as int]@);
            let v = &self.volumes[c];
            if v.series_id == id.0 {
                let path = match &v.cover_path {
                    Some(p) => Some(string_of(join_path(&folder, p.as_str()).as_slice())),
                    None => None,
                };
                covers.push((v.number.clone(), copy_text(&v.cover_url), path));
                assert(cover_views(covers@) =~= covers_of(vs0.take(c as int), id.0, fv).push(
                    (vs0[c as int].number, vs0[c as int].cover_url, inside(fv, vs0[c as int].cover_path)),
                ));
            }
            c = c + 1;
        }
        assert(vs0.take(c as int) =~= vs0);
        let ghost rg = rows@;
        let mut out = arrange_volumes(rows, &covers);
        let ghost arranged_views = volume_views(out@);
        // Attach what is recorded of each volume's last build.
        let mut b: usize = 0;
        while b < out.len()
            invariant
                b <= out@.len(),
                volume_views(out@) == arranged_views,
                vs0 == self@.volumes,
                forall|q: int| 0 <= q < b ==> built_view((#[trigger] out@[q]).built) == built_of(vs0, id.0, out@[q].number@, texts(gone@)),
            decreases out@.len() - b,
        {
            let ghost before = out@;
            let found = self.find_volume(id.0, &out[b].number);
            proof {
                lemma_volume_pos(vs0, id.0, out@[b as int].number@);
            }
            let built = match found {
                Some(k) => {
                    assert(vs0[k as int] == self.volumes@[k as int]@);
                    match &self.volumes[k].built {
                        Some(rec) => {
                            if contains_text(gone, &rec.path) {
                                None
                            } else {
                                Some(copy_built(rec))
                            }
                        },
                        None => None,
                    }
                },
                None => None,
            };
            out[b].built = built;
            proof {
                assert forall|q: int| 0 <= q < out@.len() && q != b implies #[trigger] out@[q] == before[q] by {}
                assert(volume_views(out@) =~= volume_views(before));
            }
            b = b + 1;
        }
        proof {
            assert(rows_for(rg, in_reading_order(cs, id.0), folder_of(self@, id.0)));
        }
        Ok(out)
    }
}


/// Recording where volume `number` was written, when and how large it was.
pub open spec fn built_recorded(
    vs: Seq<VolumeRecord>,
    id: i64,
    number: Seq<char>,
    path: Seq<char>,
    bytes: u64,
    now: i64,
) -> Seq<VolumeRecord> {
    upsert_volume(vs, id, number, |v: VolumeRecord| VolumeRecord { built: Some((path, now, bytes)), ..v })
}

/// Forgetting the recorded build of volume `number`.
pub open spec fn built_cleared(vs: Seq<VolumeRecord>, id: i64, number: Seq<char>) -> Seq<VolumeRecord> {
    let k = volume_pos(vs, id, number);
    if k >= 0 {
        vs.update(k, VolumeRecord { built: None, ..vs[k] })
    } else {
        vs
    }
}

/// Where a volume's cover is stored, relative to its series folder.
pub open spec fn volume_cover_of(number: Seq<char>) -> Seq<char> {
    "volumes/"@ + volume_slug_spec(number) + ".jpg"@
}

/// Recording that volume `number`'s cover is stored.
pub open spec fn cover_recorded(vs: Seq<VolumeRecord>, id: i64, number: Seq<char>) -> Seq<VolumeRecord> {
    upsert_volume(
        vs,
        id,
        number,
        |v: VolumeRecord| VolumeRecord { cover_path: Some(volume_cover_of(number)), ..v },
    )
}

/// The volumes of series `id` with a published cover not yet stored:
/// label and cover address. A recorded cover whose file is not among
/// `present` counts as missing.
pub open spec fn covers_missing(
    vs: Seq<VolumeRecord>,
    id: i64,
    folder: Seq<char>,
    present: Seq<Seq<char>>,
) -> Seq<(Seq<char>, Seq<char>)>
    decreases vs.len(),
{
    if vs.len() == 0 {
        Seq::empty()
    } else {
        let rest = covers_missing(vs.drop_last(), id, folder, present);
        let v = vs.last();
        if v.series_id == id && v.cover_url is Some && !(v.cover_path is Some && present.contains(
            joined_path(folder, v.cover_path.unwrap()),
        )) {
            rest.push((v.number, v.cover_url.unwrap()))
        } else {
            rest
        }
    }
}

fn volume_cover_relative(number: &str) -> (r: String)
    ensures
        r@ == volume_cover_of(number@),
{
    let mut out = chars_of("volumes/");
    push_str(&mut out, volume_slug(number).as_str());
    push_str(&mut out, ".jpg");
    proof {
        reveal_strlit("volumes/");
        reveal_strlit(".jpg");
    }
    string_of(out.as_slice())
}

impl Index {
    fn set_built(&mut self, id: i64, number: &String, built: BuiltVolume)
        requires
            index_wf(old(self)@) ==> has_series(old(self)@, id),
        ensures
            final(self)@ == with_volumes(
                old(self)@,
                upsert_volume(
                    old(self)@.volumes,
                    id,
                    number@,
                    |v: VolumeRecord| VolumeRecord { built: built_view(Some(built)), ..v },
                ),
            ),
            index_wf(old(self)@) ==> index_wf(final(self)@),
    {
        let ghost st = self@;
        let ghost f = |v: VolumeRecord| VolumeRecord { built: built_view(Some(built)), ..v };
        proof {
            lemma_volume_pos(st.volumes, id, number@);
        }
        match self.find_volume(id, number) {
            Some(k) => {
                let ghost rec = f(st.volumes[k as int]);
                self.volumes[k].built = Some(built);
                proof {
                    assert(self@.volumes[k as int] == rec);
                    assert(self@.volumes =~= st.volumes.update(k as int, rec));
                    if index_wf(st) {
                        lemma_volume_update_wf(st, k as int, rec);
                    }
                }
            },
            None => {
                let ghost rec = f(blank_volume(id, number@));
                self.volumes.push(
                    VolumeRow { series_id: id, number: number.clone(), cover_url: None, cover_path: None, built: Some(built) },
                );
                proof {
                    assert(self@.volumes =~= st.volumes.push(rec));
                    if index_wf(st) {
                        lemma_volume_push_wf(st, rec);
                    }
                }
            },
        }
    }

    /// Remember where volume `number` was written, at time `now`. Recorded
    /// rather than worked out from the output folder on demand: what was
    /// written is a fact, where it would be written now is a guess.
    pub fn record_built_at(&mut self, id: SeriesId, number: &str, path: &str, bytes: u64, now: i64) -> (r: Result<(), String>)
        ensures
            !has_series(old(self)@, id.0) ==> (r matches Err(e) && e@ == no_series_message(id.0)
                && final(self)@ == old(self)@),
            has_series(old(self)@, id.0) ==> r is Ok,
            has_series(old(self)@, id.0) ==> final(self)@ == with_volumes(
                old(self)@,
                built_recorded(old(self)@.volumes, id.0, number@, path@, bytes, now),
            ),
            index_wf(old(self)@) ==> index_wf(final(self)@),
    {
        let ghost st = self@;
        proof {
            lemma_has_series(st, id.0);
        }
        if self.find_series(id.0).is_none() {
            return Err(no_series(id.0));
        }
        let number = String::from_str(number);
        let built = BuiltVolume { path: String::from_str(path), built_at: now, bytes };
        self.set_built(id.0, &number, built);
        proof {
            assert(self@.volumes =~= built_recorded(st.volumes, id.0, number@, path@, bytes, now));
        }
        Ok(())
    }

    /// Forget the recorded build of volume `number`, without touching the file.
    pub fn clear_built(&mut self, id: SeriesId, number: &str)
        ensures
            final(self)@ == with_volumes(old(self)@, built_cleared(old(self)@.volumes, id.0, number@)),
            index_wf(old(self)@) ==> index_wf(final(self)@),
    {
        let ghost st = self@;
        let number = String::from_str(number);
        match self.find_volume(id.0, &number) {
            Some(k) => {
                let ghost rec = VolumeRecord { built: None, ..st.volumes[k as int] };
                self.volumes[k].built = None;
                proof {
                    assert(self@.volumes =~= st.volumes.update(k as int, rec));
                    if index_wf(st) {
                        lemma_volume_update_wf(st, k as int, rec);
                    }
                }
            },
            None => {},
        }
    }

    /// Record that volume `number`'s cover is stored inside the series
    /// folder (recording the volume when the cover arrives before a sync),
    /// and give where it goes.
    pub fn set_volume_cover(&mut self, id: SeriesId, number: &str) -> (r: Result<String, String>)
        ensures
            !has_series(old(self)@, id.0) ==> (r matches Err(e) && e@ == no_series_message(id.0)
                && final(self)@ == old(self)@),
            has_series(old(self)@, id.0) ==> final(self)@ == with_volumes(
                old(self)@,
                cover_recorded(old(self)@.volumes, id.0, number@),
            ),
            has_series(old(self)@, id.0) ==> (r matches Ok(p) && p@ == joined_path(
                folder_of(old(self)@, id.0),
                volume_cover_of(number@),
            )),
            index_wf(old(self)@) ==> index_wf(final(self)@),
    {
        let ghost st = self@;
        let ghost f = |v: VolumeRecord| VolumeRecord { cover_path: Some(volume_cover_of(number@)), ..v };
        proof {
            lemma_has_series(st, id.0);
            lemma_volume_pos(st.volumes, id.0, number@);
        }
        let s = match self.find_series(id.0) {
            None => return Err(no_series(id.0)),
            Some(s) => s,
        };
        let folder = self.folder_at(s);
        let relative = volume_cover_relative(number);
        let path = join_path(&folder, relative.as_str());
        let number = String::from_str(number);
        match self.find_volume(id.0, &number) {
            Some(k) => {
                let ghost rec = f(st.volumes[k as int]);
                self.volumes[k].cover_path = Some(relative);
                proof {
                    assert(self@.volumes[k as int] == rec);
                    assert(self@.volumes =~= st.volumes.update(k as int, rec));
                    if index_wf(st) {
                        lemma_volume_update_wf(st, k as int, rec);
                    }
                }
            },
            None => {
                let ghost rec = f(blank_volume(id.0, number@));
                self.volumes.push(
                    VolumeRow { series_id: id.0, number, cover_url: None, cover_path: Some(relative), built: None },
                );
                proof {
                    assert(self@.volumes =~= st.volumes.push(rec));
                    if index_wf(st) {
                        lemma_volume_push_wf(st, rec);
                    }
                }
            },
        }
        Ok(string_of(path.as_slice()))
    }

    /// Volumes of series `id` with published cover art but no stored copy:
    /// label and cover address. `present` holds the cover files that exist,
    /// so a recorded cover whose file has gone counts as missing.
    pub fn volumes_missing_covers(&self, id: SeriesId, present: &Vec<String>) -> (r: Result<Vec<(String, String)>, String>)
        ensures
            !has_series(self@, id.0) ==> (r matches Err(e) && e@ == no_series_message(id.0)),
            has_series(self@, id.0) ==> (r matches Ok(v) && v@.map_values(|p: (String, String)| (p.0@, p.1@))
                == covers_missing(self@.volumes, id.0, folder_of(self@, id.0), texts(present@))),
    {
        let ghost vs = self@.volumes;
        proof {
            lemma_has_series(self@, id.0);
        }
        let s = match self.find_series(id.0) {
            None => return Err(no_series(id.0)),
            Some(s) => s,
        };
        let folder = self.folder_at(s);
        let mut out: Vec<(String, String)> = Vec::new();
        let mut i: usize = 0;
        assert(vs.take(0) =~= Seq::<VolumeRecord>::empty());
        while i < self.volumes.len()
            invariant
                i <= self.volumes@.len(),
                vs == self@.volumes,
                out@.map_values(|p: (String, String)| (p.0@, p.1@)) == covers_missing(
                    vs.take(i as int),
                    id.0,
                    folder@,
                    texts(present@),
                ),
            decreases self.volumes@.len() - i,
        {
            assert(vs.take(i + 1).drop_last() =~= vs.take(i as int));
            assert(vs.take(i + 1).last() == self.volumes@[i as int]@);
            let v = &self.volumes[i];
            if v.series_id == id.0 {
                if let Some(url) = &v.cover_url {
                    let stored = match &v.cover_path {
                        Some(p) => contains_text(present, &string_of(join_path(&folder, p.as_str()).as_slice())),
                        None => false,
                    };
                    if !stored {
                        let ghost before = out@;
                        out.push((v.number.clone(), url.clone()));
                        assert(out@.map_values(|p: (String, String)| (p.0@, p.1@)) =~= before.map_values(
                            |p: (String, String)| (p.0@, p.1@),
                        ).push((vs[i as int].number, vs[i as int].cover_url.unwrap())));
                    }
                }
            }
            i = i + 1;
        }
        assert(vs.take(i as int) =~= vs);
        Ok(out)
    }
}


/// The chapters not of series `id`, in stored order.
pub open spec fn chapters_without(cs: Seq<ChapterRecord>, id: i64) -> Seq<ChapterRecord>
    decreases cs.len(),
{
    if cs.len() == 0 {
        Seq::empty()
    } else if cs.last().series_id != id {
        chapters_without(cs.drop_last(), id).push(cs.last())
    } else {
        chapters_without(cs.drop_last(), id)
    }
}

/// The volumes not of series `id`, in stored order.
pub open spec fn volumes_without(vs: Seq<VolumeRecord>, id: i64) -> Seq<VolumeRecord>
    decreases vs.len(),
{
    if vs.len() == 0 {
        Seq::empty()
    } else if vs.last().series_id != id {
        volumes_without(vs.drop_last(), id).push(vs.last())
    } else {
        volumes_without(vs.drop_last(), id)
    }
}

/// Removing series `id` from the index, with its volumes and chapters.
pub open spec fn removed(st: IndexState, id: i64) -> IndexState {
    IndexState {
        series: st.series.remove(series_pos(st.series, id)),
        volumes: volumes_without(st.volumes, id),
        chapters: chapters_without(st.chapters, id),
        ..st
    }
}

pub proof fn lemma_chapters_without(cs: Seq<ChapterRecord>, id: i64)
    ensures
        forall|i: int|
            0 <= i < chapters_without(cs, id).len() ==> (#[trigger] chapters_without(cs, id)[i]).series_id
                != id && cs.contains(chapters_without(cs, id)[i]),
        (forall|i: int, j: int|
            0 <= i < j < cs.len() ==> !((#[trigger] cs[i]).series_id == (#[trigger] cs[j]).series_id
                && cs[i].number == cs[j].number)) ==> (forall|i: int, j: int|
            0 <= i < j < chapters_without(cs, id).len() ==> !((
            #[trigger] chapters_without(cs, id)[i]).series_id == (
            #[trigger] chapters_without(cs, id)[j]).series_id && chapters_without(cs, id)[i].number
                == chapters_without(cs, id)[j].number)),
    decreases cs.len(),
{
    if cs.len() > 0 {
        let d = cs.drop_last();
        lemma_chapters_without(d, id);
        let w = chapters_without(d, id);
        assert forall|i: int| 0 <= i < w.len() implies cs.contains(#[trigger] w[i]) by {
            assert(d.contains(w[i]));
            let j = choose|j: int| 0 <= j < d.len() && d[j] == w[i];
            assert(cs[j] == w[i]);
        }
        if cs.last().series_id != id {
            let t = chapters_without(cs, id);
            assert(t == w.push(cs.last()));
            assert(cs[cs.len() - 1] == cs.last());
            if forall|i: int, j: int|
                0 <= i < j < cs.len() ==> !((#[trigger] cs[i]).series_id == (#[trigger] cs[j]).series_id
                    && cs[i].number == cs[j].number) {
                assert(forall|i: int, j: int|
                    0 <= i < j < d.len() ==> !((#[trigger] d[i]).series_id == (#[trigger] d[j]).series_id
                        && d[i].number == d[j].number)) by {
                    assert forall|i: int, j: int| 0 <= i < j < d.len() implies !((#[trigger] d[i]).series_id == (
                        #[trigger] d[j]).series_id && d[i].number == d[j].number) by {
                        assert(d[i] == cs[i] && d[j] == cs[j]);
                    }
                }
                assert forall|i: int, j: int| 0 <= i < j < t.len() implies !((#[trigger] t[i]).series_id == (
                    #[trigger] t[j]).series_id && t[i].number == t[j].number) by {
                    if j == t.len() - 1 {
                        assert(t[j] == cs.last());
                        assert(t[i] == w[i]);
                        assert(d.contains(w[i]));
                        let q = choose|q: int| 0 <= q < d.len() && d[q] == w[i];
                        assert(cs[q] == w[i]);
                    } else {
                        assert(t[i] == w[i] && t[j] == w[j]);
                    }
                }
            }
            assert forall|i: int| 0 <= i < t.len() implies (#[trigger] t[i]).series_id != id && cs.contains(t[i]) by {
                if i < t.len() - 1 {
                    assert(t[i] == w[i]);
                } else {
                    assert(cs[cs.len() - 1] == t[i]);
                }
            }
        } else {
            if forall|i: int, j: int|
                0 <= i < j < cs.len() ==> !((#[trigger] cs[i]).series_id == (#[trigger] cs[j]).series_id
                    && cs[i].number == cs[j].number) {
                assert forall|i: int, j: int| 0 <= i < j < d.len() implies !((#[trigger] d[i]).series_id == (
                    #[trigger] d[j]).series_id && d[i].number == d[j].number) by {
                    assert(d[i] == cs[i] && d[j] == cs[j]);
                }
            }
        }
    }
}

pub proof fn lemma_volumes_without(vs: Seq<VolumeRecord>, id: i64)
    ensures
        forall|i: int|
            0 <= i < volumes_without(vs, id).len() ==> (#[trigger] volumes_without(vs, id)[i]).series_id
                != id && vs.contains(volumes_without(vs, id)[i]),
        (forall|i: int, j: int|
            0 <= i < j < vs.len() ==> !((#[trigger] vs[i]).series_id == (#[trigger] vs[j]).series_id
                && vs[i].number == vs[j].number)) ==> (forall|i: int, j: int|
            0 <= i < j < volumes_without(vs, id).len() ==> !((
            #[trigger] volumes_without(vs, id)[i]).series_id == (
            #[trigger] volumes_without(vs, id)[j]).series_id && volumes_without(vs, id)[i].number
                == volumes_without(vs, id)[j].number)),
    decreases vs.len(),
{
    if vs.len() > 0 {
        let d = vs.drop_last();
        lemma_volumes_without(d, id);
        let w = volumes_without(d, id);
        assert forall|i: int| 0 <= i < w.len() implies vs.contains(#[trigger] w[i]) by {
            assert(d.contains(w[i]));
            let j = choose|j: int| 0 <= j < d.len() && d[j] == w[i];
            assert(vs[j] == w[i]);
        }
        if vs.last().series_id != id {
            let t = volumes_without(vs, id);
            assert(t == w.push(vs.last()));
            assert(vs[vs.len() - 1] == vs.last());
            if forall|i: int, j: int|
                0 <= i < j < vs.len() ==> !((#[trigger] vs[i]).series_id == (#[trigger] vs[j]).series_id
                    && vs[i].number == vs[j].number) {
                assert forall|i: int, j: int| 0 <= i < j < d.len() implies !((#[trigger] d[i]).series_id == (
                    #[trigger] d[j]).series_id && d[i].number == d[j].number) by {
                    assert(d[i] == vs[i] && d[j] == vs[j]);
                }
                assert forall|i: int, j: int| 0 <= i < j < t.len() implies !((#[trigger] t[i]).series_id == (
                    #[trigger] t[j]).series_id && t[i].number == t[j].number) by {
                    if j == t.len() - 1 {
                        assert(t[j] == vs.last());
                        assert(t[i] == w[i]);
                        assert(d.contains(w[i]));
                        let q = choose|q: int| 0 <= q < d.len() && d[q] == w[i];
                        assert(vs[q] == w[i]);
                    } else {
                        assert(t[i] == w[i] && t[j] == w[j]);
                    }
                }
            }
            assert forall|i: int| 0 <= i < t.len() implies (#[trigger] t[i]).series_id != id && vs.contains(t[i]) by {
                if i < t.len() - 1 {
                    assert(t[i] == w[i]);
                } else {
                    assert(vs[vs.len() - 1] == t[i]);
                }
            }
        } else {
            if forall|i: int, j: int|
                0 <= i < j < vs.len() ==> !((#[trigger] vs[i]).series_id == (#[trigger] vs[j]).series_id
                    && vs[i].number == vs[j].number) {
                assert forall|i: int, j: int| 0 <= i < j < d.len() implies !((#[trigger] d[i]).series_id == (
                    #[trigger] d[j]).series_id && d[i].number == d[j].number) by {
                    assert(d[i] == vs[i] && d[j] == vs[j]);
                }
            }
        }
    }
}

/// Removing a stored series with everything filed under it keeps the invariant.
proof fn lemma_removed_wf(st: IndexState, id: i64)
    requires
        index_wf(st),
        has_series(st, id),
    ensures
        index_wf(removed(st, id)),
{
    lemma_has_series(st, id);
    lemma_chapters_without(st.chapters, id);
    lemma_volumes_without(st.volumes, id);
    let k = series_pos(st.series, id);
    let t = removed(st, id);
    let m = |i: int| if i < k { i } else { i + 1 };
    assert forall|i: int| 0 <= i < t.series.len() implies #[trigger] t.series[i] == st.series[m(i)] by {}
    assert forall|x: i64| x != id && has_series(st, x) implies has_series(t, x) by {
        let j = choose|j: int| 0 <= j < st.series.len() && (#[trigger] st.series[j]).id == x;
        if j < k {
            assert(t.series[j].id == x);
        } else {
            assert(j != k);
            assert(t.series[j - 1].id == x);
        }
    }
    assert forall|i: int| 0 <= i < t.chapters.len() implies has_series(t, (#[trigger] t.chapters[i]).series_id) by {
        let c = t.chapters[i];
        assert(st.chapters.contains(c));
        let j = choose|j: int| 0 <= j < st.chapters.len() && st.chapters[j] == c;
        assert(has_series(st, st.chapters[j].series_id));
    }
    assert forall|i: int| 0 <= i < t.volumes.len() implies has_series(t, (#[trigger] t.volumes[i]).series_id) by {
        let v = t.volumes[i];
        assert(st.volumes.contains(v));
        let j = choose|j: int| 0 <= j < st.volumes.len() && st.volumes[j] == v;
        assert(has_series(st, st.volumes[j].series_id));
    }
    assert forall|i: int, j: int| 0 <= i < j < t.series.len() implies #[trigger] t.series[i].id != #[trigger] t.series[j].id by {
        assert(t.series[i] == st.series[m(i)]);
        assert(t.series[j] == st.series[m(j)]);
    }
    assert forall|i: int| 0 <= i < t.series.len() implies #[trigger] t.series[i].id <= t.last_id by {
        assert(t.series[i] == st.series[m(i)]);
    }
    assert forall|i: int, j: int|
        0 <= i < j < t.series.len() && (#[trigger] t.series[i]).source is Some && t.series[i].source_id is Some
            implies !((#[trigger] t.series[j]).source == t.series[i].source && t.series[j].source_id
        == t.series[i].source_id) by {
        assert(t.series[i] == st.series[m(i)]);
        assert(t.series[j] == st.series[m(j)]);
    }
}

impl Index {
    /// Remove series `id` from the index with its volumes and chapters,
    /// giving its folder. Deleting the files is the caller's choice, and
    /// never the default: a library holds what the user spent effort
    /// collecting.
    pub fn remove_series(&mut self, id: SeriesId) -> (r: Result<String, String>)
        ensures
            !has_series(old(self)@, id.0) ==> (r matches Err(e) && e@ == no_series_message(id.0)
                && final(self)@ == old(self)@),
            has_series(old(self)@, id.0) ==> final(self)@ == removed(old(self)@, id.0),
            has_series(old(self)@, id.0) ==> (r matches Ok(f) && f@ == folder_of(old(self)@, id.0)),
            index_wf(old(self)@) ==> index_wf(final(self)@),
    {
        let ghost st = self@;
        proof {
            lemma_has_series(st, id.0);
        }
        let k = match self.find_series(id.0) {
            None => return Err(no_series(id.0)),
            Some(k) => k,
        };
        let folder = self.folder_at(k);
        self.series.remove(k);
        let ghost cs = st.chapters;
        let mut kept: Vec<ChapterRow> = Vec::new();
        let mut i: usize = 0;
        assert(cs.take(0) =~= Seq::<ChapterRecord>::empty());
        while i < self.chapters.len()
            invariant
                i <= self.chapters@.len(),
                cs == rows_view(self.chapters@),
                views_of(kept@) == chapters_without(cs.take(i as int), id.0),
            decreases self.chapters@.len() - i,
        {
            assert(cs.take(i + 1).drop_last() =~= cs.take(i as int));
            assert(cs.take(i + 1).last() == self.chapters@[i as int]@);
            if self.chapters[i].series_id != id.0 {
                kept.push(copy_row(&self.chapters[i]));
                assert(views_of(kept@) =~= chapters_without(cs.take(i as int), id.0).push(cs[i as int]));
            }
            i = i + 1;
        }
        assert(cs.take(i as int) =~= cs);
        self.chapters = kept;
        let ghost vs = st.volumes;
        let mut keep_v: Vec<VolumeRow> = Vec::new();
        let mut j: usize = 0;
        assert(vs.take(0) =~= Seq::<VolumeRecord>::empty());
        while j < self.volumes.len()
            invariant
                j <= self.volumes@.len(),
                vs == rows_view(self.volumes@),
                views_of(keep_v@) == volumes_without(vs.take(j as int), id.0),
            decreases self.volumes@.len() - j,
        {
            assert(vs.take(j + 1).drop_last() =~= vs.take(j as int));
            assert(vs.take(j + 1).last() == self.volumes@[j as int]@);
            if self.volumes[j].series_id != id.0 {
                let v = &self.volumes[j];
                let built = match &v.built {
                    Some(b) => Some(copy_built(b)),
                    None => None,
                };
                keep_v.push(
                    VolumeRow {
                        series_id: v.series_id,
                        number: v.number.clone(),
                        cover_url: copy_text(&v.cover_url),
                        cover_path: copy_text(&v.cover_path),
                        built,
                    },
                );
                assert(views_of(keep_v@) =~= volumes_without(vs.take(j as int), id.0).push(vs[j as int]));
            }
            j = j + 1;
        }
        assert(vs.take(j as int) =~= vs);
        self.volumes = keep_v;
        proof {
            assert(self@.series =~= st.series.remove(k as int));
            assert(self@.chapters =~= chapters_without(cs, id.0));
            assert(self@.volumes =~= volumes_without(vs, id.0));
            if index_wf(st) {
                lemma_removed_wf(st, id.0);
            }
        }
        Ok(string_of(folder.as_slice()))
    }
}


impl Index {
    /// `add_series_at`, stamped with the current time.
    pub fn add_series(&mut self, new: NewSeries) -> (r: Result<Series, String>)
        ensures
            existing_pos(old(self)@, new) < 0 && old(self)@.last_id == i64::MAX ==> (r matches Err(e)
                && e@ == ids_exhausted_message() && final(self)@ == old(self)@),
            !(existing_pos(old(self)@, new) < 0 && old(self)@.last_id == i64::MAX) ==> (r matches Ok(s)
                && s@ == series_view_of(final(self)@, final(self)@.series[inserted_pos(old(self)@, new)])),
            !(existing_pos(old(self)@, new) < 0 && old(self)@.last_id == i64::MAX) ==> exists|now: i64|
                final(self)@ == inserted(old(self)@, new, true, now),
            index_wf(old(self)@) ==> index_wf(final(self)@),
    {
        let now = crate::writers::timestamp::unix_seconds();
        self.add_series_at(new, now)
    }

    /// `record_unshelved_series_at`, stamped with the current time.
    pub fn record_unshelved_series(&mut self, new: NewSeries) -> (r: Result<Series, String>)
        ensures
            existing_pos(old(self)@, new) < 0 && old(self)@.last_id == i64::MAX ==> (r matches Err(e)
                && e@ == ids_exhausted_message() && final(self)@ == old(self)@),
            !(existing_pos(old(self)@, new) < 0 && old(self)@.last_id == i64::MAX) ==> (r matches Ok(s)
                && s@ == series_view_of(final(self)@, final(self)@.series[inserted_pos(old(self)@, new)])),
            !(existing_pos(old(self)@, new) < 0 && old(self)@.last_id == i64::MAX) ==> exists|now: i64|
                final(self)@ == inserted(old(self)@, new, false, now),
            index_wf(old(self)@) ==> index_wf(final(self)@),
    {
        let now = crate::writers::timestamp::unix_seconds();
        self.record_unshelved_series_at(new, now)
    }

    /// `record_chapter_at`, stamped with the current time.
    pub fn record_chapter(&mut self, id: SeriesId, number: &str, page_count: u32, source_url: Option<&str>) -> (r:
        Result<ChapterStatus, String>)
        ensures
            !has_series(old(self)@, id.0) ==> (r matches Err(e) && e@ == no_series_message(id.0)
                && final(self)@ == old(self)@),
            has_series(old(self)@, id.0) ==> r is Ok,
            has_series(old(self)@, id.0) ==> exists|now: i64|
                final(self)@ == with_chapters(
                    old(self)@,
                    recorded(old(self)@.chapters, id.0, number@, page_count, opt_str(source_url), now),
                ),
            index_wf(old(self)@) ==> index_wf(final(self)@),
    {
        let now = crate::writers::timestamp::unix_seconds();
        self.record_chapter_at(id, number, page_count, source_url, now)
    }

    /// `save_progress_at`, stamped with the current time.
    pub fn save_progress(&mut self, id: SeriesId, number: &str, page: u32, finished: bool)
        ensures
            exists|now: i64|
                final(self)@ == with_chapters(
                    old(self)@,
                    progress_saved(old(self)@.chapters, id.0, number@, page, finished, now),
                ),
            index_wf(old(self)@) ==> index_wf(final(self)@),
    {
        let now = crate::writers::timestamp::unix_seconds();
        self.save_progress_at(id, number, page, finished, now)
    }

    /// `sync_layout_at`, stamped with the current time.
    pub fn sync_layout(&mut self, id: SeriesId, published: &Vec<PublishedVolume>) -> (r: Result<SyncReport, String>)
        requires
            listed_numbers(published@).len() <= usize::MAX,
        ensures
            !has_series(old(self)@, id.0) ==> (r matches Err(e) && e@ == no_series_message(id.0)
                && final(self)@ == old(self)@),
            has_series(old(self)@, id.0) ==> exists|now: i64| final(self)@ == synced(old(self)@, id.0, published@, now),
            has_series(old(self)@, id.0) ==> (r matches Ok(report) && report.volumes == published@.len()
                && report.chapters_added == count_missing(
                listed_numbers(published@),
                numbers_of(of_series(old(self)@.chapters, id.0)),
            ) && report.orphaned == count_missing(
                numbers_of(held_of(final(self)@.chapters, id.0)),
                listed_numbers(published@),
            )),
            index_wf(old(self)@) ==> index_wf(final(self)@),
    {
        let now = crate::writers::timestamp::unix_seconds();
        self.sync_layout_at(id, published, now)
    }

    /// `record_built_at`, stamped with the current time.
    pub fn record_built(&mut self, id: SeriesId, number: &str, path: &str, bytes: u64) -> (r: Result<(), String>)
        ensures
            !has_series(old(self)@, id.0) ==> (r matches Err(e) && e@ == no_series_message(id.0)
                && final(self)@ == old(self)@),
            has_series(old(self)@, id.0) ==> r is Ok,
            has_series(old(self)@, id.0) ==> exists|now: i64|
                final(self)@ == with_volumes(
                    old(self)@,
                    built_recorded(old(self)@.volumes, id.0, number@, path@, bytes, now),
                ),
            index_wf(old(self)@) ==> index_wf(final(self)@),
    {
        let now = crate::writers::timestamp::unix_seconds();
        self.record_built_at(id, number, path, bytes, now)
    }
}


/// What `resume_pos` offers is left to read, and it offers nothing only
/// when nothing is.
pub proof fn lemma_resume(cs: Seq<ChapterRecord>, id: i64)
    ensures
        -1 <= resume_pos(cs, id) < cs.len(),
        resume_pos(cs, id) >= 0 ==> resumable(cs[resume_pos(cs, id)], id),
        resume_pos(cs, id) == -1 <==> forall|j: int| 0 <= j < cs.len() ==> !resumable(#[trigger] cs[j], id),
{
    lemma_last_opened(cs, id);
    lemma_next_unread(cs, id);
    if resume_pos(cs, id) >= 0 {
        let k = resume_pos(cs, id);
        assert(resumable(cs[k], id));
    }
}

/// Whether a chapter is one left unfinished after being opened.
pub open spec fn opened_unfinished(c: ChapterRecord, id: i64) -> bool {
    resumable(c, id) && c.opened_at is Some
}

proof fn lemma_last_opened_latest(cs: Seq<ChapterRecord>, id: i64)
    ensures
        last_opened(cs, id) < 0 ==> forall|j: int| 0 <= j < cs.len() ==> !opened_unfinished(#[trigger] cs[j], id),
        last_opened(cs, id) >= 0 ==> forall|j: int|
            0 <= j < cs.len() && opened_unfinished(#[trigger] cs[j], id) ==> cs[j].opened_at.unwrap()
                <= cs[last_opened(cs, id)].opened_at.unwrap(),
    decreases cs.len(),
{
    lemma_last_opened(cs, id);
    if cs.len() > 0 {
        let d = cs.drop_last();
        lemma_last_opened_latest(d, id);
        lemma_last_opened(d, id);
        assert forall|j: int| 0 <= j < cs.len() - 1 implies cs[j] == d[j] by {}
    }
}

/// "Continue reading" offers the unfinished chapter opened most recently:
/// when some unfinished chapter of the series has been opened, the one
/// offered is such a chapter, and no other was opened later.
pub proof fn continue_reading_offers_the_latest_opened(cs: Seq<ChapterRecord>, id: i64)
    ensures
        (exists|j: int| 0 <= j < cs.len() && opened_unfinished(#[trigger] cs[j], id)) ==> {
            let k = resume_pos(cs, id);
            &&& 0 <= k < cs.len()
            &&& opened_unfinished(cs[k], id)
            &&& forall|j: int|
                0 <= j < cs.len() && opened_unfinished(#[trigger] cs[j], id) ==> cs[j].opened_at.unwrap()
                    <= cs[k].opened_at.unwrap()
        },
{
    lemma_last_opened_latest(cs, id);
    lemma_last_opened(cs, id);
}

/// Every chapter not of series `id` is kept.
pub proof fn lemma_chapters_without_keeps(cs: Seq<ChapterRecord>, id: i64)
    ensures
        forall|j: int|
            0 <= j < cs.len() && (#[trigger] cs[j]).series_id != id ==> chapters_without(cs, id).contains(cs[j]),
    decreases cs.len(),
{
    if cs.len() > 0 {
        let d = cs.drop_last();
        lemma_chapters_without_keeps(d, id);
        assert forall|j: int| 0 <= j < cs.len() && (#[trigger] cs[j]).series_id != id implies chapters_without(
            cs,
            id,
        ).contains(cs[j]) by {
            let w = chapters_without(d, id);
            if j < cs.len() - 1 {
                assert(d[j] == cs[j]);
                assert(w.contains(cs[j]));
                let q = choose|q: int| 0 <= q < w.len() && w[q] == cs[j];
                if cs.last().series_id != id {
                    assert(chapters_without(cs, id)[q] == w[q]);
                }
            } else {
                assert(chapters_without(cs, id).last() == cs.last());
            }
        }
    }
}


/// The files of a listing that can be pages, in stored order.
pub open spec fn page_files_of(files: Seq<FileView>) -> Seq<FileView>
    decreases files.len(),
{
    if files.len() == 0 {
        Seq::empty()
    } else if extension_verdict_of(files.last().0) is None {
        page_files_of(files.drop_last()).push(files.last())
    } else {
        page_files_of(files.drop_last())
    }
}

/// The paths of some files.
pub open spec fn paths_of(files: Seq<FileView>) -> Seq<Seq<char>> {
    files.map_values(|f: FileView| f.0)
}

/// The message for a chapter that is known but not on disk.
pub open spec fn not_downloaded_message(number: Seq<char>) -> Seq<char> {
    "chapter "@ + number + " has not been downloaded"@
}

impl Index {
    /// The page files of a downloaded chapter in reading order, given the
    /// listing of its folder: files whose extension can be a page, sorted
    /// naturally by name rather than as plain text, since a chapter
    /// imported from a folder the user already had need not be zero-padded.
    pub fn chapter_page_files(&self, id: SeriesId, number: &str, listing: Vec<FileProbe>) -> (r: Result<
        Vec<String>,
        String,
    >)
        ensures
            !has_series(self@, id.0) ==> (r matches Err(e) && e@ == no_series_message(id.0)),
            has_series(self@, id.0) && chapter_pos(self@.chapters, id.0, number@) < 0 ==> (r matches Err(e)
                && e@ == no_chapter_message(id.0, number@)),
            has_series(self@, id.0) && chapter_pos(self@.chapters, id.0, number@) >= 0
                && self@.chapters[chapter_pos(self@.chapters, id.0, number@)].folder is None ==> (r matches Err(
                e,
            ) && e@ == not_downloaded_message(number@)),
            has_series(self@, id.0) && chapter_pos(self@.chapters, id.0, number@) >= 0
                && self@.chapters[chapter_pos(self@.chapters, id.0, number@)].folder is Some ==> (r matches Ok(
                v,
            ) && texts(v@) == paths_of(
                sorted_by(page_files_of(views_of(listing@)), order_of::<FileProbe>()),
            )),
    {
        let chapter = self.chapter(id, number)?;
        if chapter.folder.is_none() {
            let mut out = chars_of("chapter ");
            push_str(&mut out, number);
            push_str(&mut out, " has not been downloaded");
            proof {
                reveal_strlit("chapter ");
                reveal_strlit(" has not been downloaded");
            }
            return Err(string_of(out.as_slice()));
        }
        let ghost lv = views_of(listing@);
        let mut rest = listing;
        let mut pages: Vec<FileProbe> = Vec::new();
        let ghost mut i: int = 0;
        proof {
            assert(views_of(rest@) =~= lv.skip(0));
            assert(lv.take(0) =~= Seq::<FileView>::empty());
        }
        while rest.len() > 0
            invariant
                0 <= i <= lv.len(),
                views_of(rest@) == lv.skip(i),
                views_of(pages@) == page_files_of(lv.take(i)),
            decreases rest@.len(),
        {
            let ghost before = rest@;
            let f = rest.remove(0);
            proof {
                assert(views_of(before).len() == before.len());
                assert(f@ == views_of(before)[0]);
                assert(lv.skip(i)[0] == lv[i]);
                assert(lv.take(i + 1).drop_last() =~= lv.take(i));
                assert(lv.take(i + 1).last() == lv[i]);
                assert(views_of(rest@) =~= lv.skip(i + 1)) by {
                    assert forall|j: int| 0 <= j < rest@.len() implies #[trigger] views_of(rest@)[j] == lv.skip(i + 1)[j] by {
                        assert(rest@[j] == before[j + 1]);
                        assert(views_of(before)[j + 1] == lv.skip(i)[j + 1]);
                    }
                }
            }
            if extension_verdict(f.path.as_str()).is_none() {
                pages.push(f);
                assert(views_of(pages@) =~= page_files_of(lv.take(i)).push(lv[i]));
            }
            proof {
                i = i + 1;
            }
        }
        proof {
            assert(lv.take(i) =~= lv);
        }
        let sorted = stable_sort(pages);
        let ghost sv = views_of(sorted@);
        let mut out: Vec<String> = Vec::new();
        let mut j: usize = 0;
        while j < sorted.len()
            invariant
                j <= sorted@.len(),
                sv == views_of(sorted@),
                texts(out@) == paths_of(sv.take(j as int)),
            decreases sorted@.len() - j,
        {
            let ghost before = out@;
            out.push(sorted[j].path.clone());
            proof {
                assert(sv[j as int] == sorted@[j as int]@);
                assert(texts(out@) =~= texts(before).push(sv[j as int].0));
                assert(paths_of(sv.take(j + 1)) =~= paths_of(sv.take(j as int)).push(sv[j as int].0));
            }
            j = j + 1;
        }
        assert(sv.take(j as int) =~= sv);
        Ok(out)
    }
}

} // verus!
