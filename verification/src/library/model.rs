//! The records the library stores, as the UI sees them. Paths are held as
//! text; the application turns them into platform paths at its edge.
use vstd::prelude::*;

use crate::library::layout::opt_text;
use crate::text::texts;

verus! {

/// Row id of a series. A newtype so it cannot be mixed up with a chapter id.
#[derive(Debug, Clone, Copy, PartialEq, Eq, Structural, Hash)]
pub struct SeriesId(pub i64);

/// A series the user has added, as stored.
#[derive(Debug, Clone)]
pub struct Series {
    pub id: SeriesId,
    /// Where the metadata came from, e.g. `"mangadex"`. `None` for hand-entered.
    pub source: Option<String>,
    pub source_id: Option<String>,
    pub title: String,
    pub title_romaji: Option<String>,
    pub title_native: Option<String>,
    pub author: String,
    pub artist: String,
    pub description: String,
    pub year: Option<u32>,
    pub status: Option<String>,
    pub language: String,
    pub direction: String,
    pub site_url: Option<String>,
    /// Absolute path to the series folder inside the library.
    pub folder: String,
    /// Absolute path to the series cover, when one has been downloaded.
    pub cover_path: Option<String>,
    /// Unix seconds.
    pub added_at: i64,
    /// When the published layout was last pulled. `None` means never.
    pub synced_at: Option<i64>,
    /// Chapters present on disk, and chapters known to exist.
    pub have_chapters: u32,
    pub known_chapters: u32,
    /// The source's genre and theme tags, in the order it gave them.
    pub tags: Vec<String>,
    pub content_rating: Option<String>,
    /// On the shelf, rather than only recorded because it was read.
    pub shelved: bool,
}

/// A series as plain values.
pub struct SeriesView {
    pub id: i64,
    pub source: Option<Seq<char>>,
    pub source_id: Option<Seq<char>>,
    pub title: Seq<char>,
    pub title_romaji: Option<Seq<char>>,
    pub title_native: Option<Seq<char>>,
    pub author: Seq<char>,
    pub artist: Seq<char>,
    pub description: Seq<char>,
    pub year: Option<u32>,
    pub status: Option<Seq<char>>,
    pub language: Seq<char>,
    pub direction: Seq<char>,
    pub site_url: Option<Seq<char>>,
    pub folder: Seq<char>,
    pub cover_path: Option<Seq<char>>,
    pub added_at: i64,
    pub synced_at: Option<i64>,
    pub have_chapters: u32,
    pub known_chapters: u32,
    pub tags: Seq<Seq<char>>,
    pub content_rating: Option<Seq<char>>,
    pub shelved: bool,
}

impl View for Series {
    type V = SeriesView;

    open spec fn view(&self) -> SeriesView {
        SeriesView {
            id: self.id.0,
            source: opt_text(self.source),
            source_id: opt_text(self.source_id),
            title: self.title@,
            title_romaji: opt_text(self.title_romaji),
            title_native: opt_text(self.title_native),
            author: self.author@,
            artist: self.artist@,
            description: self.description@,
            year: self.year,
            status: opt_text(self.status),
            language: self.language@,
            direction: self.direction@,
            site_url: opt_text(self.site_url),
            folder: self.folder@,
            cover_path: opt_text(self.cover_path),
            added_at: self.added_at,
            synced_at: self.synced_at,
            have_chapters: self.have_chapters,
            known_chapters: self.known_chapters,
            tags: texts(self.tags@),
            content_rating: opt_text(self.content_rating),
            shelved: self.shelved,
        }
    }
}

/// What to write when adding a series. Mirrors what a metadata search returns.
#[derive(Debug, Clone)]
pub struct NewSeries {
    pub source: Option<String>,
    pub source_id: Option<String>,
    pub title: String,
    pub title_romaji: Option<String>,
    pub title_native: Option<String>,
    pub author: String,
    pub artist: String,
    pub description: String,
    pub year: Option<u32>,
    pub status: Option<String>,
    pub site_url: Option<String>,
    pub tags: Vec<String>,
    pub content_rating: Option<String>,
}

impl Default for NewSeries {
    fn default() -> (r: Self)
        ensures
            r.source is None && r.source_id is None && r.title@.len() == 0 && r.title_romaji is None
                && r.title_native is None && r.author@.len() == 0 && r.artist@.len() == 0
                && r.description@.len() == 0 && r.year is None && r.status is None
                && r.site_url is None && r.tags@.len() == 0 && r.content_rating is None,
    {
        NewSeries {
            source: None,
            source_id: None,
            title: String::new(),
            title_romaji: None,
            title_native: None,
            author: String::new(),
            artist: String::new(),
            description: String::new(),
            year: None,
            status: None,
            site_url: None,
            tags: Vec::new(),
            content_rating: None,
        }
    }
}

/// One chapter: known to exist, and either downloaded or not.
#[derive(Debug, Clone)]
pub struct ChapterStatus {
    /// Chapter label as published, e.g. `"7"` or `"7.5"`.
    pub number: String,
    pub title: Option<String>,
    /// The metadata source's id for this chapter, when it has one.
    pub source_id: Option<String>,
    /// The source indexes it but cannot serve the images, so a URL is needed.
    pub unavailable: bool,
    /// Zero-based page the reader was last on.
    pub last_page: u32,
    /// When the chapter was finished. `None` means it was not.
    pub read_at: Option<i64>,
    /// When it was last opened, finished or not.
    pub opened_at: Option<i64>,
    /// Absolute path to the chapter's images. `None` means we do not have it.
    pub folder: Option<String>,
    pub page_count: u32,
    /// The URL the pages were pulled from, kept so a bad rip can be traced.
    pub source_url: Option<String>,
    pub downloaded_at: Option<i64>,
}

/// A chapter as plain values.
pub struct ChapterView {
    pub number: Seq<char>,
    pub title: Option<Seq<char>>,
    pub source_id: Option<Seq<char>>,
    pub unavailable: bool,
    pub last_page: u32,
    pub read_at: Option<i64>,
    pub opened_at: Option<i64>,
    pub folder: Option<Seq<char>>,
    pub page_count: u32,
    pub source_url: Option<Seq<char>>,
    pub downloaded_at: Option<i64>,
}

impl View for ChapterStatus {
    type V = ChapterView;

    open spec fn view(&self) -> ChapterView {
        ChapterView {
            number: self.number@,
            title: opt_text(self.title),
            source_id: opt_text(self.source_id),
            unavailable: self.unavailable,
            last_page: self.last_page,
            read_at: self.read_at,
            opened_at: self.opened_at,
            folder: opt_text(self.folder),
            page_count: self.page_count,
            source_url: opt_text(self.source_url),
            downloaded_at: self.downloaded_at,
        }
    }
}

impl ChapterStatus {
    /// Whether the chapter's pages are on disk.
    pub fn downloaded(&self) -> (r: bool)
        ensures
            r == self.folder is Some,
    {
        self.folder.is_some()
    }
}

/// How many of the chapters are on disk.
pub open spec fn downloaded_count(cs: Seq<ChapterStatus>) -> nat
    decreases cs.len(),
{
    if cs.len() == 0 {
        0
    } else {
        downloaded_count(cs.drop_last()) + if cs.last().folder is Some {
            1nat
        } else {
            0nat
        }
    }
}

/// A volume of a series as published, plus what we hold of it.
#[derive(Debug, Clone)]
pub struct VolumeStatus {
    /// Volume label as published, e.g. `"1"`. Not always a number.
    pub number: String,
    pub cover_url: Option<String>,
    pub cover_path: Option<String>,
    pub chapters: Vec<ChapterStatus>,
    /// The last build of this volume, while its file is still there.
    pub built: Option<BuiltVolume>,
}

/// Where a volume was last written, when, and how large it was.
#[derive(Debug, Clone)]
pub struct BuiltVolume {
    pub path: String,
    /// Unix seconds.
    pub built_at: i64,
    pub bytes: u64,
}

impl VolumeStatus {
    /// How many of this volume's chapters are on disk.
    pub fn have(&self) -> (r: usize)
        ensures
            r as nat == downloaded_count(self.chapters@),
    {
        let mut n: usize = 0;
        let mut i: usize = 0;
        assert(self.chapters@.take(0) =~= Seq::<ChapterStatus>::empty());
        while i < self.chapters.len()
            invariant
                i <= self.chapters@.len(),
                n as nat == downloaded_count(self.chapters@.take(i as int)),
                n <= i,
            decreases self.chapters@.len() - i,
        {
            assert(self.chapters@.take(i + 1).drop_last() =~= self.chapters@.take(i as int));
            if self.chapters[i].downloaded() {
                n = n + 1;
            }
            i = i + 1;
        }
        assert(self.chapters@.take(i as int) =~= self.chapters@);
        n
    }

    /// True when every chapter of this volume is on disk, so it can be built.
    pub fn complete(&self) -> (r: bool)
        ensures
            r == (self.chapters@.len() > 0 && downloaded_count(self.chapters@)
                == self.chapters@.len()),
    {
        !self.chapters.is_empty() && self.have() == self.chapters.len()
    }
}

/// A published volume and its chapters, handed in after a metadata lookup.
#[derive(Debug, Clone)]
pub struct PublishedVolume {
    pub number: String,
    pub cover_url: Option<String>,
    pub chapters: Vec<PublishedChapter>,
}

/// A published chapter.
#[derive(Debug, Clone)]
pub struct PublishedChapter {
    pub number: String,
    pub title: Option<String>,
    /// The source's own id, which is what fetching pages from it needs.
    pub source_id: Option<String>,
    /// The source lists the chapter but cannot serve its images.
    pub unavailable: bool,
}

/// One entry in the reading history.
#[derive(Debug, Clone)]
pub struct HistoryEntry {
    pub series_id: SeriesId,
    pub series_title: String,
    pub cover_path: Option<String>,
    pub chapter: String,
    pub last_page: u32,
    pub page_count: u32,
    pub opened_at: i64,
    pub finished: bool,
    /// Whether the pages are on disk; otherwise the source serves them.
    pub downloaded: bool,
    pub chapter_source_id: Option<String>,
    pub series_source_id: Option<String>,
}

/// A history entry as plain values.
pub struct HistoryView {
    pub series_id: i64,
    pub series_title: Seq<char>,
    pub cover_path: Option<Seq<char>>,
    pub chapter: Seq<char>,
    pub last_page: u32,
    pub page_count: u32,
    pub opened_at: i64,
    pub finished: bool,
    pub downloaded: bool,
    pub chapter_source_id: Option<Seq<char>>,
    pub series_source_id: Option<Seq<char>>,
}

impl View for HistoryEntry {
    type V = HistoryView;

    open spec fn view(&self) -> HistoryView {
        HistoryView {
            series_id: self.series_id.0,
            series_title: self.series_title@,
            cover_path: opt_text(self.cover_path),
            chapter: self.chapter@,
            last_page: self.last_page,
            page_count: self.page_count,
            opened_at: self.opened_at,
            finished: self.finished,
            downloaded: self.downloaded,
            chapter_source_id: opt_text(self.chapter_source_id),
            series_source_id: opt_text(self.series_source_id),
        }
    }
}

/// What changed when a published layout was merged in.
#[derive(Debug, Clone, Copy, PartialEq, Eq, Structural)]
pub struct SyncReport {
    pub volumes: usize,
    pub chapters_added: usize,
    /// Chapters held on disk that the published layout no longer lists. Kept,
    /// never deleted: the user's files outrank a crowd-sourced index.
    pub orphaned: usize,
}

impl Default for SyncReport {
    fn default() -> (r: Self)
        ensures
            r.volumes == 0 && r.chapters_added == 0 && r.orphaned == 0,
    {
        SyncReport { volumes: 0, chapters_added: 0, orphaned: 0 }
    }
}

} // verus!
