//! The editable model the editor binds to and the writers consume.
use vstd::prelude::*;

use crate::page::Page;
use crate::text::{chars_of, decimal, decimal_of, push_all, push_str, string_of};

verus! {

/// Reading direction of a volume.
#[derive(Debug, Clone, Copy, PartialEq, Eq, Structural)]
pub enum Direction {
    /// Japanese reading order: pages advance right to left.
    RightToLeft,
    LeftToRight,
}

impl Direction {
    /// The EPUB `page-progression-direction` value.
    pub fn epub_ppd(self) -> (r: &'static str)
        ensures
            r@ == (match self {
                Direction::RightToLeft => "rtl"@,
                Direction::LeftToRight => "ltr"@,
            }),
    {
        match self {
            Direction::RightToLeft => "rtl",
            Direction::LeftToRight => "ltr",
        }
    }
}

/// Right to left, as manga reads.
pub fn default_direction() -> (r: Direction)
    ensures
        r == Direction::RightToLeft,
{
    Direction::RightToLeft
}

/// Descriptive metadata of a volume.
#[derive(Debug, Clone, PartialEq, Eq)]
pub struct Metadata {
    /// Series title, e.g. "Ichi the Witch".
    pub series: String,
    /// Volume number within the series, if known.
    pub volume: Option<u32>,
    pub author: String,
    pub language: String,
    pub description: String,
    pub direction: Direction,
    /// Stable identifier written into the EPUB package document.
    pub identifier: String,
}

/// The title as it should appear in a reader's library.
pub open spec fn display_title_of(series: Seq<char>, volume: Option<u32>) -> Seq<char> {
    match volume {
        Some(v) => series + ", Vol. "@ + decimal_of(v as nat),
        None => series,
    }
}

impl Metadata {
    /// Empty metadata in English, read right to left.
    pub fn empty() -> (r: Metadata)
        ensures
            r.series@.len() == 0,
            r.volume is None,
            r.author@.len() == 0,
            r.language@ == "en"@,
            r.description@.len() == 0,
            r.direction == Direction::RightToLeft,
            r.identifier@.len() == 0,
    {
        Metadata {
            series: String::new(),
            volume: None,
            author: String::new(),
            language: String::from_str("en"),
            description: String::new(),
            direction: Direction::RightToLeft,
            identifier: String::new(),
        }
    }

    /// The title as it should appear in a reader's library.
    pub fn display_title(&self) -> (r: String)
        ensures
            r@ == display_title_of(self.series@, self.volume),
    {
        match self.volume {
            Some(v) => {
                let mut out = chars_of(self.series.as_str());
                push_str(&mut out, ", Vol. ");
                let d = decimal(v as u128);
                push_all(&mut out, &d);
                string_of(out.as_slice())
            },
            None => self.series.clone(),
        }
    }
}

/// One chapter of a volume.
#[derive(Debug, Clone, PartialEq, Eq)]
pub struct Chapter {
    /// Title shown in the table of contents.
    pub title: String,
    /// Folder this chapter was scanned from.
    pub source: String,
    /// Pages in reading order, including excluded ones so the editor can show them.
    pub pages: Vec<Page>,
}

/// The pages of a list that will be written, in order.
pub open spec fn included_of(pages: Seq<Page>) -> Seq<Page>
    decreases pages.len(),
{
    if pages.len() == 0 {
        Seq::empty()
    } else if pages.last().excluded is None {
        included_of(pages.drop_last()).push(pages.last())
    } else {
        included_of(pages.drop_last())
    }
}

pub proof fn lemma_included_len(pages: Seq<Page>)
    ensures
        included_of(pages).len() <= pages.len(),
    decreases pages.len(),
{
    if pages.len() > 0 {
        lemma_included_len(pages.drop_last());
    }
}

/// Every included page of every chapter, flattened in order.
pub open spec fn volume_pages_of(chapters: Seq<Chapter>) -> Seq<Page>
    decreases chapters.len(),
{
    if chapters.len() == 0 {
        Seq::empty()
    } else {
        volume_pages_of(chapters.drop_last()) + included_of(chapters.last().pages@)
    }
}

/// Collect the included pages of `pages` onto `out`.
fn collect_included<'a>(pages: &'a Vec<Page>, out: &mut Vec<&'a Page>)
    ensures
        final(out)@.len() == old(out)@.len() + included_of(pages@).len(),
        forall|k: int| 0 <= k < old(out)@.len() ==> *final(out)@[k] == *old(out)@[k],
        forall|k: int|
            0 <= k < included_of(pages@).len() ==> *final(out)@[old(out)@.len() + k]
                == included_of(pages@)[k],
{
    let ghost base = out@;
    let mut i: usize = 0;
    while i < pages.len()
        invariant
            i <= pages@.len(),
            base == old(out)@,
            out@.len() == base.len() + included_of(pages@.take(i as int)).len(),
            forall|k: int| 0 <= k < base.len() ==> *out@[k] == *base[k],
            forall|k: int|
                0 <= k < included_of(pages@.take(i as int)).len() ==> *out@[base.len() + k]
                    == included_of(pages@.take(i as int))[k],
        decreases pages@.len() - i,
    {
        proof {
            assert(pages@.take(i + 1).drop_last() =~= pages@.take(i as int));
            assert(pages@.take(i + 1).last() == pages@[i as int]);
        }
        if pages[i].excluded.is_none() {
            out.push(&pages[i]);
        }
        i = i + 1;
    }
    assert(pages@.take(pages@.len() as int) =~= pages@);
}

impl Chapter {
    /// Pages that will actually be written to the output.
    pub fn included(&self) -> (r: Vec<&Page>)
        ensures
            r@.len() == included_of(self.pages@).len(),
            forall|k: int| 0 <= k < r@.len() ==> *r@[k] == included_of(self.pages@)[k],
    {
        let mut r: Vec<&Page> = Vec::new();
        collect_included(&self.pages, &mut r);
        r
    }

    /// How many pages will be written.
    pub fn included_count(&self) -> (r: usize)
        ensures
            r == included_of(self.pages@).len(),
    {
        let mut i: usize = 0;
        let mut n: usize = 0;
        while i < self.pages.len()
            invariant
                i <= self.pages@.len(),
                n == included_of(self.pages@.take(i as int)).len(),
                n <= i,
            decreases self.pages@.len() - i,
        {
            proof {
                assert(self.pages@.take(i + 1).drop_last() =~= self.pages@.take(i as int));
                assert(self.pages@.take(i + 1).last() == self.pages@[i as int]);
            }
            if self.pages[i].excluded.is_none() {
                n = n + 1;
            }
            i = i + 1;
        }
        assert(self.pages@.take(self.pages@.len() as int) =~= self.pages@);
        n
    }

    /// How many pages are held out.
    pub fn excluded_count(&self) -> (r: usize)
        ensures
            r == self.pages@.len() - included_of(self.pages@).len(),
    {
        proof {
            lemma_included_len(self.pages@);
        }
        self.pages.len() - self.included_count()
    }
}

/// A volume being assembled: metadata, cover and chapters.
#[derive(Debug, Clone, PartialEq, Eq)]
pub struct Volume {
    pub metadata: Metadata,
    /// Cover image. Defaults to the first included page when none was picked.
    pub cover: Option<String>,
    pub chapters: Vec<Chapter>,
    /// Folder the volume was scanned from.
    pub root: String,
}

impl Volume {
    /// Every page that will be written, flattened across chapters.
    pub fn included_pages(&self) -> (r: Vec<&Page>)
        ensures
            r@.len() == volume_pages_of(self.chapters@).len(),
            forall|k: int| 0 <= k < r@.len() ==> *r@[k] == volume_pages_of(self.chapters@)[k],
    {
        let mut r: Vec<&Page> = Vec::new();
        let mut i: usize = 0;
        while i < self.chapters.len()
            invariant
                i <= self.chapters@.len(),
                r@.len() == volume_pages_of(self.chapters@.take(i as int)).len(),
                forall|k: int|
                    0 <= k < r@.len() ==> *r@[k] == volume_pages_of(self.chapters@.take(i as int))[k],
            decreases self.chapters@.len() - i,
        {
            proof {
                assert(self.chapters@.take(i + 1).drop_last() =~= self.chapters@.take(i as int));
                assert(self.chapters@.take(i + 1).last() == self.chapters@[i as int]);
            }
            collect_included(&self.chapters[i].pages, &mut r);
            i = i + 1;
        }
        assert(self.chapters@.take(self.chapters@.len() as int) =~= self.chapters@);
        r
    }

    /// How many pages will be written.
    pub fn total_included(&self) -> (r: usize)
        ensures
            r == volume_pages_of(self.chapters@).len(),
    {
        self.included_pages().len()
    }

    /// The cover to use: the explicit choice, else the first included page.
    pub fn effective_cover(&self) -> (r: Option<String>)
        ensures
            r == (match self.cover {
                Some(c) => Some(c),
                None => if volume_pages_of(self.chapters@).len() > 0 {
                    Some(volume_pages_of(self.chapters@)[0].path)
                } else {
                    None
                },
            }),
    {
        match &self.cover {
            Some(c) => Some(c.clone()),
            None => {
                let pages = self.included_pages();
                if pages.len() > 0 {
                    Some(pages[0].path.clone())
                } else {
                    None
                }
            },
        }
    }
}

} // verus!
