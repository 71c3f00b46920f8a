//! What the command line decides: which library, which chapters a batch
//! looks for, how a volume is dressed before it is built, and how pages and
//! names are described on a terminal.
use vstd::prelude::*;

use crate::export::joined_path;
use crate::library::model::{ChapterStatus, VolumeStatus};
use crate::page::{ExcludeReason, PageKind};
use crate::project::{Direction, Volume};
use crate::text::{chars_of, push_str, slice_of, string_of, texts};

verus! {

/// The `library` subcommands.
#[derive(Debug, Clone, PartialEq, Eq)]
pub enum LibraryCommand {
    /// Add a series by searching the metadata sources, taking result `pick`
    /// (counted from 1), and pull its layout.
    Add { query: String, pick: usize },
    /// Add a series by hand, for titles no metadata source carries.
    New { title: String, author: String },
    /// List every series in the library.
    List,
    /// Show a series' volumes and which chapters are missing.
    Status { series: i64 },
    /// Remove a series; its downloaded images only when asked, irreversibly.
    Remove { series: i64, delete_files: bool },
    /// Re-pull the published volume layout for a series.
    Sync { series: i64 },
    /// List the images a chapter page offers, without downloading anything.
    Peek { url: String },
    /// Download a chapter's pages from a URL; every image with `all`, not
    /// just the ones that look like pages.
    Get { series: i64, chapter: String, url: String, all: bool },
    /// Find and download every missing chapter from one URL; with `dry_run`,
    /// only show the plan.
    Batch { series: i64, url: String, dry_run: bool },
    /// Build a stored volume into an EPUB or CBZ.
    Build { series: i64, volume: String, out: String },
}

/// Where the library lives: the flag, else `$MANGALIZE_LIBRARY`, else
/// `Mangalize` in the home directory — never a hidden one, since this is the
/// user's collection.
pub open spec fn root_of(
    explicit: Option<Seq<char>>,
    from_env: Option<Seq<char>>,
    home: Option<Seq<char>>,
) -> Option<Seq<char>> {
    match explicit {
        Some(r) => Some(r),
        None => match from_env {
            Some(r) => Some(r),
            None => match home {
                Some(h) => Some(joined_path(h, "Mangalize"@)),
                None => None,
            },
        },
    }
}

/// A text option as plain text.
pub open spec fn text_opt(o: Option<String>) -> Option<Seq<char>> {
    match o {
        Some(s) => Some(s@),
        None => None,
    }
}

/// Where the library lives; with neither flag, variable nor home directory
/// there is nowhere, and the user is told to pass the flag.
pub fn resolve_root(explicit: Option<String>, from_env: Option<String>, home: Option<String>) -> (r:
    Result<String, String>)
    ensures
        match root_of(text_opt(explicit), text_opt(from_env), text_opt(home)) {
            Some(p) => r matches Ok(s) && s@ == p,
            None => r matches Err(e) && e@ == "no HOME set; pass --library"@,
        },
{
    match explicit {
        Some(r) => Ok(r),
        None => match from_env {
            Some(r) => Ok(r),
            None => match home {
                Some(h) => Ok(
                    string_of(crate::export::join_path(&chars_of(h.as_str()), "Mangalize").as_slice()),
                ),
                None => Err(String::from_str("no HOME set; pass --library")),
            },
        },
    }
}

/// The numbers of a volume's chapters that are not on disk, in order.
pub open spec fn missing_in(cs: Seq<ChapterStatus>) -> Seq<Seq<char>>
    decreases cs.len(),
{
    if cs.len() == 0 {
        Seq::empty()
    } else if cs.last().folder is Some {
        missing_in(cs.drop_last())
    } else {
        missing_in(cs.drop_last()).push(cs.last().number@)
    }
}

/// Every chapter of a layout that is not on disk, volume by volume.
pub open spec fn missing_chapters_of(vs: Seq<VolumeStatus>) -> Seq<Seq<char>>
    decreases vs.len(),
{
    if vs.len() == 0 {
        Seq::empty()
    } else {
        missing_chapters_of(vs.drop_last()) + missing_in(vs.last().chapters@)
    }
}

/// What a batch looks for: only the gaps. There is no crawling outward — the
/// published layout decides what is worth looking for, and the library what
/// is already here.
pub fn missing_chapters(volumes: &Vec<VolumeStatus>) -> (r: Vec<String>)
    ensures
        texts(r@) == missing_chapters_of(volumes@),
{
    let mut out: Vec<String> = Vec::new();
    let mut i: usize = 0;
    while i < volumes.len()
        invariant
            i <= volumes@.len(),
            texts(out@) == missing_chapters_of(volumes@.take(i as int)),
        decreases volumes@.len() - i,
    {
        let cs = &volumes[i].chapters;
        let ghost base = texts(out@);
        let mut j: usize = 0;
        while j < cs.len()
            invariant
                j <= cs@.len(),
                texts(out@) == base + missing_in(cs@.take(j as int)),
            decreases cs@.len() - j,
        {
            let ghost before = out@;
            proof {
                assert(cs@.take(j + 1).drop_last() =~= cs@.take(j as int));
                assert(cs@.take(j + 1).last() == cs@[j as int]);
            }
            if !cs[j].downloaded() {
                out.push(cs[j].number.clone());
                proof {
                    assert(texts(out@) =~= texts(before).push(cs@[j as int].number@));
                }
            }
            j = j + 1;
        }
        proof {
            assert(cs@.take(j as int) =~= cs@);
            assert(volumes@.take(i + 1).drop_last() =~= volumes@.take(i as int));
            assert(volumes@.take(i + 1).last() == volumes@[i as int]);
        }
        i = i + 1;
    }
    assert(volumes@.take(i as int) =~= volumes@);
    out
}

/// A text cut to `max` characters: unchanged when it fits, else its first
/// `max - 1` characters and an ellipsis.
pub open spec fn truncated(s: Seq<char>, max: nat) -> Seq<char> {
    if s.len() <= max {
        s
    } else {
        s.take(if max >= 1 {
            max - 1
        } else {
            0
        }) + "…"@
    }
}

/// A text cut to fit `max` characters on a terminal line.
pub fn truncate(s: &str, max: usize) -> (r: String)
    ensures
        r@ == truncated(s@, max as nat),
{
    let v = chars_of(s);
    if v.len() <= max {
        return String::from_str(s);
    }
    let keep = if max >= 1 {
        max - 1
    } else {
        0
    };
    let mut out = slice_of(&v, 0, keep);
    push_str(&mut out, "…");
    string_of(out.as_slice())
}

/// How a page is described when the scanner reports what it found.
pub open spec fn describe_of(excluded: Option<ExcludeReason>, kind: PageKind) -> Seq<char> {
    match excluded {
        None => if kind == PageKind::Spread {
            "spread"@
        } else {
            Seq::empty()
        },
        Some(ExcludeReason::NotAPage) => "excluded: not a page"@,
        Some(ExcludeReason::Unreadable) => "excluded: unreadable"@,
        Some(ExcludeReason::OffSize { .. }) => "excluded: off-size"@,
        Some(ExcludeReason::Manual) => "excluded: manual"@,
    }
}

/// How a page is described when the scanner reports what it found.
pub fn describe(excluded: Option<ExcludeReason>, kind: PageKind) -> (r: String)
    ensures
        r@ == describe_of(excluded, kind),
{
    match excluded {
        None => if kind == PageKind::Spread {
            String::from_str("spread")
        } else {
            String::new()
        },
        Some(ExcludeReason::NotAPage) => String::from_str("excluded: not a page"),
        Some(ExcludeReason::Unreadable) => String::from_str("excluded: unreadable"),
        Some(ExcludeReason::OffSize { .. }) => String::from_str("excluded: off-size"),
        Some(ExcludeReason::Manual) => String::from_str("excluded: manual"),
    }
}

/// A scanned volume with what the command line overrides: the series title,
/// the author, and left-to-right reading. Everything else is left alone.
pub fn with_overrides(volume: Volume, title: Option<String>, author: Option<String>, ltr: bool) -> (r:
    Volume)
    ensures
        r.chapters == volume.chapters,
        r.cover == volume.cover,
        r.root == volume.root,
        r.metadata.series == match title {
            Some(t) => t,
            None => volume.metadata.series,
        },
        r.metadata.author == match author {
            Some(a) => a,
            None => volume.metadata.author,
        },
        r.metadata.direction == if ltr {
            Direction::LeftToRight
        } else {
            volume.metadata.direction
        },
        r.metadata.volume == volume.metadata.volume,
        r.metadata.language == volume.metadata.language,
        r.metadata.description == volume.metadata.description,
        r.metadata.identifier == volume.metadata.identifier,
{
    let mut v = volume;
    match title {
        Some(t) => v.metadata.series = t,
        None => {},
    }
    match author {
        Some(a) => v.metadata.author = a,
        None => {},
    }
    if ltr {
        v.metadata.direction = Direction::LeftToRight;
    }
    v
}

/// Which search result to take, when `pick` (counted from 1) names one of
/// `hits`; otherwise the results are listed and the user told the range.
pub fn pick_index(pick: usize, hits: usize) -> (r: Result<usize, String>)
    ensures
        1 <= pick <= hits ==> r == Ok::<usize, String>((pick - 1) as usize),
        !(1 <= pick <= hits) ==> (r matches Err(e) && e@ == "--pick must be between 1 and "@
            + crate::text::decimal_of(hits as nat)),
{
    if pick == 0 || pick > hits {
        let mut out: Vec<char> = Vec::new();
        push_str(&mut out, "--pick must be between 1 and ");
        crate::text::push_all(&mut out, &crate::text::decimal(hits as u128));
        return Err(string_of(out.as_slice()));
    }
    Ok(pick - 1)
}

/// Whether a chapter has no folder on disk.
pub open spec fn off_disk() -> spec_fn(ChapterStatus) -> bool {
    |c: ChapterStatus| c.folder is None
}

/// The numbers of chapters, in order.
pub open spec fn chapter_numbers(cs: Seq<ChapterStatus>) -> Seq<Seq<char>> {
    cs.map_values(|c: ChapterStatus| c.number@)
}

/// Every chapter of a layout, volume after volume.
pub open spec fn layout_chapters(vs: Seq<VolumeStatus>) -> Seq<ChapterStatus> {
    vs.map_values(|v: VolumeStatus| v.chapters@).flatten()
}

proof fn lemma_missing_in(cs: Seq<ChapterStatus>)
    ensures
        missing_in(cs) == chapter_numbers(cs.filter(off_disk())),
    decreases cs.len(),
{
    if cs.len() > 0 {
        let d = cs.drop_last();
        lemma_missing_in(d);
        assert(d.push(cs.last()) =~= cs);
        d.lemma_filter_push(cs.last(), off_disk());
        if cs.last().folder is None {
            assert(chapter_numbers(d.filter(off_disk()).push(cs.last())) =~= chapter_numbers(
                d.filter(off_disk()),
            ).push(cs.last().number@));
        }
    } else {
        assert(cs.filter(off_disk()) =~= Seq::<ChapterStatus>::empty()) by {
            cs.lemma_filter_len(off_disk());
        }
        assert(chapter_numbers(cs.filter(off_disk())) =~= Seq::<Seq<char>>::empty());
    }
}

/// The gaps a batch looks for are exactly the chapters not on disk: every
/// chapter of every volume whose folder is missing, each once, in layout
/// order, and nothing else; so there are as many as there are such chapters.
pub proof fn the_gaps_are_every_chapter_not_on_disk(vs: Seq<VolumeStatus>)
    ensures
        missing_chapters_of(vs) == chapter_numbers(layout_chapters(vs).filter(off_disk())),
        missing_chapters_of(vs).len() == layout_chapters(vs).filter(off_disk()).len(),
    decreases vs.len(),
{
    if vs.len() > 0 {
        let d = vs.drop_last();
        the_gaps_are_every_chapter_not_on_disk(d);
        let cs = vs.last().chapters@;
        lemma_missing_in(cs);
        assert(vs.map_values(|v: VolumeStatus| v.chapters@) =~= d.map_values(
            |v: VolumeStatus| v.chapters@,
        ).push(cs));
        d.map_values(|v: VolumeStatus| v.chapters@).lemma_flatten_push(cs);
        let a = layout_chapters(d);
        assert(layout_chapters(vs) =~= a + cs);
        Seq::filter_distributes_over_add(a, cs, off_disk());
        assert(chapter_numbers(a.filter(off_disk()) + cs.filter(off_disk())) =~= chapter_numbers(
            a.filter(off_disk()),
        ) + chapter_numbers(cs.filter(off_disk())));
    } else {
        assert(vs.map_values(|v: VolumeStatus| v.chapters@) =~= Seq::<Seq<ChapterStatus>>::empty());
        assert(layout_chapters(vs) =~= Seq::<ChapterStatus>::empty());
        let e = layout_chapters(vs);
        e.lemma_filter_len(off_disk());
        assert(chapter_numbers(e.filter(off_disk())) =~= Seq::<Seq<char>>::empty());
    }
}

} // verus!
