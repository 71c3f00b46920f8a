//! Turning a folder of scraped chapters into an editable volume.
//!
//! Scraped folders are messy in predictable ways: site furniture among the
//! pages, inconsistent file names between chapters, the occasional spread.
//! What is on disk is read by the caller (each file's path, size and decoded
//! dimensions); here it becomes chapters in reading order, each page judged
//! against the volume's normal page size, with the reason recorded for every
//! page held out.
use vstd::prelude::*;

use crate::library::volume::{fnv1a, uuid_text};
use crate::natsort::{natural_order, natural_sign, trailing_number, trailing_number_of};
use crate::order::{order_of, sorted_by, stable_sort, views_of, Ordered};
use crate::page::{extension_verdict, extension_verdict_of, file_name_chars, file_name_of, ExcludeReason, Page, PageKind};
use crate::project::{Chapter, Metadata, Volume};
use crate::sieve::{norm_of, verdict_of, Norm, Verdict};
use crate::text::{
    chars_of, decimal, decimal_of, find, find_from, is_space, lower, lower_seq, push_all, push_str,
    skip_space, skip_space_from, space, string_of, to_lower, trim, trimmed,
};

verus! {

/// What was read of one file: its path, its size in bytes and, when its header
/// decoded, its dimensions in pixels.
#[derive(Debug, Clone, PartialEq, Eq)]
pub struct FileProbe {
    pub path: String,
    pub bytes: u64,
    pub dimensions: Option<(u32, u32)>,
}

/// A folder and the files directly in it.
#[derive(Debug, Clone, PartialEq, Eq)]
pub struct Folder {
    pub path: String,
    pub files: Vec<FileProbe>,
}

/// A probed file as plain values.
pub type FileView = (Seq<char>, u64, Option<(u32, u32)>);

/// A page as plain values: path, width, height, bytes, kind, exclusion, split.
pub type PageView = (Seq<char>, u32, u32, u64, PageKind, Option<ExcludeReason>, bool);

/// A chapter as plain values: title, source folder, pages.
pub type ChapterView = (Seq<char>, Seq<char>, Seq<PageView>);

impl View for FileProbe {
    type V = FileView;

    open spec fn view(&self) -> FileView {
        (self.path@, self.bytes, self.dimensions)
    }
}

impl View for Folder {
    type V = (Seq<char>, Seq<FileView>);

    open spec fn view(&self) -> (Seq<char>, Seq<FileView>) {
        (self.path@, views_of(self.files@))
    }
}

/// A page as plain values.
pub open spec fn page_view(p: Page) -> PageView {
    (p.path@, p.width, p.height, p.bytes, p.kind, p.excluded, p.split)
}

/// Pages as plain values.
pub open spec fn page_views(ps: Seq<Page>) -> Seq<PageView> {
    ps.map_values(|p: Page| page_view(p))
}

/// A chapter as plain values.
pub open spec fn chapter_view(c: Chapter) -> ChapterView {
    (c.title@, c.source@, page_views(c.pages@))
}

/// Chapters as plain values.
pub open spec fn chapter_views(cs: Seq<Chapter>) -> Seq<ChapterView> {
    cs.map_values(|c: Chapter| chapter_view(c))
}

/// The final component of a path, or nothing.
pub open spec fn name_of(path: Seq<char>) -> Seq<char> {
    match file_name_of(path) {
        Some(n) => n,
        None => Seq::empty(),
    }
}

/// The final component of a path, or nothing.
fn file_name(path: &str) -> (r: Vec<char>)
    ensures
        r@ == name_of(path@),
{
    match file_name_chars(&chars_of(path)) {
        Some(n) => n,
        None => Vec::new(),
    }
}

impl Ordered for FileProbe {
    /// Files read in natural order of their names.
    open spec fn less(a: FileView, b: FileView) -> bool {
        natural_order(name_of(a.0), name_of(b.0)) < 0
    }

    fn before(&self, other: &FileProbe) -> (r: bool) {
        let a = string_of(file_name(self.path.as_str()).as_slice());
        let b = string_of(file_name(other.path.as_str()).as_slice());
        natural_sign(a.as_str(), b.as_str()) < 0
    }
}

/// The page a file makes: none for a file whose extension is not a page's,
/// an unreadable page for one whose header did not decode.
pub open spec fn page_of(f: FileView) -> Option<PageView> {
    if extension_verdict_of(f.0) is Some {
        None
    } else {
        match f.2 {
            Some((w, h)) => Some((f.0, w, h, f.1, PageKind::Single, None, false)),
            None => Some((f.0, 0, 0, f.1, PageKind::Single, Some(ExcludeReason::Unreadable), false)),
        }
    }
}

/// The page a file makes, or `None` for files that are not images at all.
///
/// Files rejected purely by extension are dropped rather than listed as
/// excluded: a `.css` was never a candidate. Files that look like images but
/// fail to decode are kept and flagged, as those are worth telling about.
pub fn build_page(file: &FileProbe) -> (r: Option<Page>)
    ensures
        match r {
            Some(p) => page_of(file@) == Some(page_view(p)),
            None => page_of(file@) is None,
        },
{
    if extension_verdict(file.path.as_str()).is_some() {
        return None;
    }
    match file.dimensions {
        Some((width, height)) => Some(
            Page {
                path: file.path.clone(),
                width,
                height,
                bytes: file.bytes,
                kind: PageKind::Single,
                excluded: None,
                split: false,
            },
        ),
        None => Some(
            Page {
                path: file.path.clone(),
                width: 0,
                height: 0,
                bytes: file.bytes,
                kind: PageKind::Single,
                excluded: Some(ExcludeReason::Unreadable),
                split: false,
            },
        ),
    }
}

/// Files made into pages, as a function.
pub open spec fn page_reader() -> spec_fn(FileView) -> Option<PageView> {
    |f: FileView| page_of(f)
}

/// The pages of a folder's files, in natural order of their names.
pub open spec fn pages_of(files: Seq<FileView>) -> Seq<PageView> {
    sorted_by(files, order_of::<FileProbe>()).filter_map(page_reader())
}

/// Index of the first white space at or after `i` (or the length).
pub open spec fn word_end(s: Seq<char>, i: int) -> int
    decreases s.len() - i,
{
    if i < 0 || i >= s.len() {
        s.len() as int
    } else if is_space(s[i]) {
        i
    } else {
        word_end(s, i + 1)
    }
}

/// What `char::to_uppercase` gives for a character.
pub uninterp spec fn upper_of(c: char) -> Seq<char>;

/// `char::to_uppercase`, collected: the Unicode uppercase mapping, which
/// may be more than one character.
#[verifier::external_body]
fn uppercase(c: char) -> (r: Vec<char>)
    ensures
        r@ == upper_of(c),
{
    c.to_uppercase().collect()
}

/// `-` and `_` read as spaces.
pub open spec fn dashless(s: Seq<char>) -> Seq<char> {
    Seq::new(s.len(), |i: int| if s[i] == '-' || s[i] == '_' { ' ' } else { s[i] })
}

/// The words of `s` from `i` on, each with its first character uppercased,
/// joined by single spaces; `first` when no word has been written yet.
pub open spec fn title_from(s: Seq<char>, i: int, first: bool) -> Seq<char>
    decreases s.len() - i,
{
    if i < 0 || i >= s.len() {
        Seq::empty()
    } else {
        let j = skip_space(s, i);
        proof {
            crate::text::lemma_skip_space(s, i);
            if j < s.len() {
                lemma_word_end(s, j);
            }
        }
        if j >= s.len() {
            Seq::empty()
        } else {
            let k = word_end(s, j);
            if k <= j {
                Seq::empty()
            } else {
                (if first {
                    Seq::empty()
                } else {
                    " "@
                }) + upper_of(s[j]) + s.subrange(j + 1, k) + title_from(s, k, false)
            }
        }
    }
}

/// A name in title case: `-` and `_` read as spaces, runs of white space
/// become one, and every word starts with a capital.
pub open spec fn titlecase_of(s: Seq<char>) -> Seq<char> {
    title_from(dashless(s), 0, true)
}

pub proof fn lemma_word_end(s: Seq<char>, i: int)
    requires
        0 <= i <= s.len(),
    ensures
        i <= word_end(s, i) <= s.len(),
        word_end(s, i) < s.len() ==> is_space(s[word_end(s, i)]),
        forall|k: int| i <= k < word_end(s, i) ==> !is_space(s[k]),
    decreases s.len() - i,
{
    if i < s.len() && !is_space(s[i]) {
        lemma_word_end(s, i + 1);
    }
}

/// `-` and `_` replaced by spaces.
fn dashes_to_spaces(s: &Vec<char>) -> (r: Vec<char>)
    ensures
        r@ == dashless(s@),
{
    let mut out: Vec<char> = Vec::new();
    let mut i: usize = 0;
    while i < s.len()
        invariant
            i <= s@.len(),
            out@ == dashless(s@).take(i as int),
        decreases s@.len() - i,
    {
        let c = s[i];
        out.push(if c == '-' || c == '_' { ' ' } else { c });
        proof {
            assert(out@ =~= dashless(s@).take(i + 1));
        }
        i = i + 1;
    }
    assert(dashless(s@).take(i as int) =~= dashless(s@));
    out
}

/// A name in title case.
pub fn titlecase(s: &str) -> (r: String)
    ensures
        r@ == titlecase_of(s@),
{
    let d = dashes_to_spaces(&chars_of(s));
    let mut out: Vec<char> = Vec::new();
    let mut i: usize = 0;
    let mut first = true;
    while i < d.len()
        invariant
            i <= d@.len(),
            d@ == dashless(s@),
            out@ + title_from(d@, i as int, first) == title_from(d@, 0, true),
        decreases d@.len() - i,
    {
        let j = skip_space_from(&d, i);
        if j >= d.len() {
            proof {
                assert(title_from(d@, i as int, first) == Seq::<char>::empty());
                assert(out@ + Seq::<char>::empty() =~= out@);
            }
            return string_of(out.as_slice());
        }
        let mut k = j;
        while k < d.len() && !space(d[k])
            invariant
                j <= k <= d@.len(),
                word_end(d@, j as int) == word_end(d@, k as int),
            decreases d@.len() - k,
        {
            k = k + 1;
        }
        proof {
            crate::text::lemma_skip_space(d@, i as int);
            assert(!is_space(d@[j as int]));
            assert(k > j);
        }
        let ghost before = out@;
        if !first {
            out.push(' ');
        }
        let up = uppercase(d[j]);
        push_all(&mut out, &up);
        proof {
            reveal_strlit(" ");
            assert(d@.subrange(j + 1, j + 1) =~= Seq::<char>::empty());
            assert(out@ =~= before + (if first {
                Seq::empty()
            } else {
                " "@
            }) + upper_of(d@[j as int]) + d@.subrange(j + 1, j + 1));
        }
        let mut m = j + 1;
        while m < k
            invariant
                j + 1 <= m <= k,
                k <= d@.len(),
                out@ == before + (if first {
                    Seq::empty()
                } else {
                    " "@
                }) + upper_of(d@[j as int]) + d@.subrange(j + 1, m as int),
            decreases k - m,
        {
            out.push(d[m]);
            proof {
                assert(d@.subrange(j + 1, m + 1) =~= d@.subrange(j + 1, m as int).push(d@[m as int]));
            }
            m = m + 1;
        }
        proof {
            reveal_strlit(" ");
            assert(before + title_from(d@, i as int, first) =~= out@ + title_from(d@, k as int, false));
        }
        first = false;
        i = k;
    }
    proof {
        assert(title_from(d@, i as int, first) == Seq::<char>::empty());
        assert(out@ + Seq::<char>::empty() =~= out@);
    }
    string_of(out.as_slice())
}

/// The title of a chapter from its folder's name: `Chapter n` for a name
/// ending in a number, else the name in title case.
pub open spec fn chapter_title_of(dir: Seq<char>) -> Seq<char> {
    match trailing_number_of(name_of(dir)) {
        Some(n) => "Chapter "@ + decimal_of(n),
        None => titlecase_of(name_of(dir)),
    }
}

/// The human-facing title of a chapter, from its folder's name.
pub fn chapter_title(dir: &str) -> (r: String)
    ensures
        r@ == chapter_title_of(dir@),
{
    let name = string_of(file_name(dir).as_slice());
    match trailing_number(name.as_str()) {
        Some(n) => {
            let mut out: Vec<char> = Vec::new();
            push_str(&mut out, "Chapter ");
            push_all(&mut out, &decimal(n));
            string_of(out.as_slice())
        },
        None => titlecase(name.as_str()),
    }
}

/// A chapter scanned from a folder: titled after it, its pages in order.
pub open spec fn chapter_of(folder: (Seq<char>, Seq<FileView>)) -> ChapterView {
    (chapter_title_of(folder.0), folder.0, pages_of(folder.1))
}

/// One folder's files as a chapter, in natural file-name order.
/// Size-based judging happens later, once the volume's norm is known.
pub fn scan_chapter(dir: &str, files: Vec<FileProbe>) -> (r: Chapter)
    ensures
        chapter_view(r) == chapter_of((dir@, views_of(files@))),
{
    let sorted = stable_sort(files);
    let mut pages: Vec<Page> = Vec::new();
    let mut i: usize = 0;
    while i < sorted.len()
        invariant
            i <= sorted@.len(),
            page_views(pages@) == views_of(sorted@).take(i as int).filter_map(page_reader()),
        decreases sorted@.len() - i,
    {
        let ghost before = pages@;
        proof {
            assert(views_of(sorted@).take(i + 1).drop_last() =~= views_of(sorted@).take(i as int));
            assert(views_of(sorted@).take(i + 1).last() == sorted@[i as int]@);
        }
        match build_page(&sorted[i]) {
            Some(p) => {
                pages.push(p);
                proof {
                    assert(page_views(pages@) =~= page_views(before).push(page_view(p)));
                }
            },
            None => {},
        }
        i = i + 1;
    }
    assert(views_of(sorted@).take(sorted@.len() as int) =~= views_of(sorted@));
    Chapter { title: chapter_title(dir), source: String::from_str(dir), pages }
}

/// The order of two chapter folders: by trailing number when both names end
/// in one, so `ch10` follows `ch9`, ties and the rest by natural name order.
pub open spec fn chapter_dir_order(a: Seq<char>, b: Seq<char>) -> int {
    let (an, bn) = (name_of(a), name_of(b));
    match (trailing_number_of(an), trailing_number_of(bn)) {
        (Some(x), Some(y)) => if x < y {
            -1
        } else if x > y {
            1
        } else {
            natural_order(an, bn)
        },
        _ => natural_order(an, bn),
    }
}

/// The order of two chapter folders, as a sign.
pub fn compare_chapter_dirs(a: &str, b: &str) -> (r: i8)
    ensures
        r as int == chapter_dir_order(a@, b@),
{
    let an = string_of(file_name(a).as_slice());
    let bn = string_of(file_name(b).as_slice());
    match (trailing_number(an.as_str()), trailing_number(bn.as_str())) {
        (Some(x), Some(y)) => if x < y {
            -1
        } else if x > y {
            1
        } else {
            natural_sign(an.as_str(), bn.as_str())
        },
        _ => natural_sign(an.as_str(), bn.as_str()),
    }
}

impl Ordered for Folder {
    /// Chapter folders in chapter order.
    open spec fn less(a: (Seq<char>, Seq<FileView>), b: (Seq<char>, Seq<FileView>)) -> bool {
        chapter_dir_order(a.0, b.0) < 0
    }

    fn before(&self, other: &Folder) -> (r: bool) {
        compare_chapter_dirs(self.path.as_str(), other.path.as_str()) < 0
    }
}

/// The first place at or after `from` where `needle` starts a word of
/// `haystack`: at its start, or right after a space.
pub open spec fn word_start_from(haystack: Seq<char>, needle: Seq<char>, from: int) -> Option<int>
    decreases haystack.len() + 1 - from,
{
    let i = find_from(haystack, needle, from);
    proof {
        if from >= 0 {
            crate::text::lemma_find_from(haystack, needle, from);
        }
    }
    if from < 0 || i < 0 {
        None
    } else if i == 0 || haystack[i - 1] == ' ' {
        Some(i)
    } else if i + 1 > from {
        word_start_from(haystack, needle, i + 1)
    } else {
        None
    }
}

pub proof fn lemma_word_start_bound(haystack: Seq<char>, needle: Seq<char>, from: int)
    requires
        0 <= from,
    ensures
        word_start_from(haystack, needle, from) matches Some(i) ==> 0 <= i <= haystack.len(),
    decreases haystack.len() + 1 - from,
{
    crate::text::lemma_find_from(haystack, needle, from);
    let i = find_from(haystack, needle, from);
    if i >= 0 && !(i == 0 || haystack[i - 1] == ' ') && i + 1 > from {
        lemma_word_start_bound(haystack, needle, i + 1);
    }
}

/// Where `needle` starts a word of `haystack`, so `volleyball` is not taken
/// for a `vol` marker.
pub fn find_at_word_start(haystack: &Vec<char>, needle: &str) -> (r: Option<usize>)
    requires
        needle@.len() > 0,
    ensures
        match r {
            Some(i) => word_start_from(haystack@, needle@, 0) == Some(i as int),
            None => word_start_from(haystack@, needle@, 0) is None,
        },
{
    let n = chars_of(needle);
    let mut from: usize = 0;
    loop
        invariant
            from <= haystack@.len() + 1,
            n@ == needle@,
            needle@.len() > 0,
            word_start_from(haystack@, needle@, 0) == word_start_from(haystack@, needle@, from as int),
        decreases haystack@.len() + 1 - from,
    {
        if from > haystack.len() {
            proof {
                assert(find_from(haystack@, needle@, from as int) == -1);
            }
            return None;
        }
        match find(haystack, &n, from) {
            None => return None,
            Some(i) => {
                proof {
                    crate::text::lemma_find_from(haystack@, needle@, from as int);
                }
                if i == 0 || haystack[i - 1] == ' ' {
                    return Some(i);
                }
                from = i + 1;
            },
        }
    }
}

/// The earlier of two places, when either exists.
pub open spec fn earliest(a: Option<int>, b: Option<int>) -> Option<int> {
    match (a, b) {
        (Some(x), Some(y)) => Some(if x <= y { x } else { y }),
        (Some(x), None) => Some(x),
        (None, y) => y,
    }
}

/// Where the volume marker of a (lowercased) name starts: the earliest of
/// `volume`, `vol.`, `vol ` and `tome ` that starts a word.
pub open spec fn marker_at(lowered: Seq<char>) -> Option<int> {
    earliest(
        earliest(word_start_from(lowered, "volume"@, 0), word_start_from(lowered, "vol."@, 0)),
        earliest(word_start_from(lowered, "vol "@, 0), word_start_from(lowered, "tome "@, 0)),
    )
}

/// The series a volume folder's name suggests: the name up to its volume
/// marker, in title case. `Itch The Witch Volume 01` gives `Itch The Witch`.
pub open spec fn series_guess_of(name: Seq<char>) -> Seq<char> {
    let spaced = dashless(name);
    let base = match marker_at(lower_seq(spaced)) {
        Some(i) => spaced.take(i),
        None => spaced,
    };
    titlecase_of(trim(base))
}

fn earlier(a: Option<usize>, b: Option<usize>) -> (r: Option<usize>)
    ensures
        match r {
            Some(x) => earliest(
                match a {
                    Some(v) => Some(v as int),
                    None => None,
                },
                match b {
                    Some(v) => Some(v as int),
                    None => None,
                },
            ) == Some(x as int),
            None => a is None && b is None,
        },
{
    match (a, b) {
        (Some(x), Some(y)) => Some(if x <= y { x } else { y }),
        (Some(x), None) => Some(x),
        (None, y) => y,
    }
}

/// ASCII lowercase of every character.
fn lowercase(s: &Vec<char>) -> (r: Vec<char>)
    ensures
        r@ == lower_seq(s@),
{
    crate::text::lowered(s)
}

/// The series a volume folder's name suggests.
pub fn series_guess(root: &str) -> (r: String)
    ensures
        r@ == series_guess_of(name_of(root@)),
{
    let spaced = dashes_to_spaces(&file_name(root));
    let low = lowercase(&spaced);
    proof {
        reveal_strlit("volume");
        reveal_strlit("vol.");
        reveal_strlit("vol ");
        reveal_strlit("tome ");
    }
    let cut = earlier(
        earlier(find_at_word_start(&low, "volume"), find_at_word_start(&low, "vol.")),
        earlier(find_at_word_start(&low, "vol "), find_at_word_start(&low, "tome ")),
    );
    proof {
        lemma_word_start_bound(low@, "volume"@, 0);
        lemma_word_start_bound(low@, "vol."@, 0);
        lemma_word_start_bound(low@, "vol "@, 0);
        lemma_word_start_bound(low@, "tome "@, 0);
    }
    let base = match cut {
        Some(i) => crate::text::slice_of(&spaced, 0, i),
        None => spaced,
    };
    proof {
        match cut {
            Some(i) => assert(base@ =~= dashless(name_of(root@)).take(i as int)),
            None => {},
        }
    }
    let t = trimmed(&base);
    titlecase(string_of(t.as_slice()).as_str())
}

/// Whether a chapter has any page.
pub open spec fn has_pages() -> spec_fn(ChapterView) -> bool {
    |c: ChapterView| c.2.len() > 0
}

/// Folders scanned as chapters, as a function.
pub open spec fn chapter_reader() -> spec_fn((Seq<char>, Seq<FileView>)) -> ChapterView {
    |f: (Seq<char>, Seq<FileView>)| chapter_of(f)
}

/// The chapters of a volume before judging: every folder with pages, in
/// chapter order, or, when none has any, the volume folder's own files as a
/// single chapter (when they make any pages).
pub open spec fn scanned_chapters(
    root: Seq<char>,
    folders: Seq<(Seq<char>, Seq<FileView>)>,
    loose: Seq<FileView>,
) -> Seq<ChapterView> {
    let cs = sorted_by(folders, order_of::<Folder>()).map_values(chapter_reader()).filter(
        has_pages(),
    );
    if cs.len() > 0 {
        cs
    } else if chapter_of((root, loose)).2.len() > 0 {
        seq![chapter_of((root, loose))]
    } else {
        Seq::empty()
    }
}

/// Every page of every chapter, in order.
pub open spec fn all_pages(cs: Seq<ChapterView>) -> Seq<PageView>
    decreases cs.len(),
{
    if cs.len() == 0 {
        Seq::empty()
    } else {
        all_pages(cs.drop_last()) + cs.last().2
    }
}

/// The dimensions of pages.
pub open spec fn sizes_of(ps: Seq<PageView>) -> Seq<(u32, u32)> {
    ps.map_values(|p: PageView| (p.1, p.2))
}

/// A page judged against the volume's norm: kind and exclusion follow the
/// verdict. A spread is kept whole by default, to be shown as one image;
/// splitting it is asked for separately. A page already held out, or a volume
/// without a norm, is left as it was.
pub open spec fn judged_page(norm: Option<Norm>, p: PageView) -> PageView {
    match norm {
        Some(n) => if p.5 is None {
            let v = verdict_of(n, p.1, p.2);
            let kind = if v == Verdict::Spread {
                PageKind::Spread
            } else {
                PageKind::Single
            };
            (
                p.0,
                p.1,
                p.2,
                p.3,
                kind,
                if v == Verdict::OffSize {
                    Some(ExcludeReason::OffSize { width: p.1, height: p.2 })
                } else {
                    None
                },
                p.6,
            )
        } else {
            p
        },
        None => p,
    }
}

/// Chapters with every page judged against the norm.
pub open spec fn judged_chapters(cs: Seq<ChapterView>, norm: Option<Norm>) -> Seq<ChapterView> {
    cs.map_values(
        |c: ChapterView| (c.0, c.1, c.2.map_values(|p: PageView| judged_page(norm, p))),
    )
}

/// The chapters of a scanned volume, judged against the modal page size of
/// the whole volume, which is more reliable than any one chapter's.
pub open spec fn volume_chapters_of(
    root: Seq<char>,
    folders: Seq<(Seq<char>, Seq<FileView>)>,
    loose: Seq<FileView>,
) -> Seq<ChapterView> {
    let cs = scanned_chapters(root, folders, loose);
    judged_chapters(cs, norm_of(sizes_of(all_pages(cs))))
}

/// The volume number a folder's name ends in, when it fits a `u32`.
pub open spec fn volume_number_of(name: Seq<char>) -> Option<u32> {
    match trailing_number_of(name) {
        Some(n) => if n <= u32::MAX {
            Some(n as u32)
        } else {
            None
        },
        None => None,
    }
}

/// A page judged against the volume's norm.
fn judge_page(norm: Option<Norm>, p: Page) -> (r: Page)
    ensures
        page_view(r) == judged_page(norm, page_view(p)),
{
    match norm {
        Some(n) => if p.excluded.is_none() {
            let v = n.verdict(p.width, p.height);
            let kind = v.kind();
            let excluded = v.exclusion(p.width, p.height);
            Page { kind, excluded, ..p }
        } else {
            p
        },
        None => p,
    }
}

proof fn lemma_filter_push<T>(s: Seq<T>, x: T, keep: spec_fn(T) -> bool)
    ensures
        s.push(x).filter(keep) == if keep(x) {
            s.filter(keep).push(x)
        } else {
            s.filter(keep)
        },
{
    reveal(Seq::filter);
    assert(s.push(x).drop_last() =~= s);
    assert(s.push(x).last() == x);
}

/// A deterministic identifier from the volume folder's name, so exporting
/// the same volume again keeps its identity in a reader's library.
pub fn stable_id(root: &str) -> (r: String)
    ensures
        r@ == uuid_text(fnv1a(vstd::utf8::encode_utf8(name_of(root@)))),
{
    let name = string_of(file_name(root).as_slice());
    crate::library::volume::stable_id(name.as_str())
}

/// Scanning the same folder again, wherever it now lives, gives the same
/// identifier: it depends on the folder's name alone, so a re-exported volume
/// keeps its identity in a reader's library.
pub proof fn the_identifier_follows_the_folder_name(a: Seq<char>, b: Seq<char>)
    requires
        name_of(a) == name_of(b),
    ensures
        "urn:uuid:"@ + uuid_text(fnv1a(vstd::utf8::encode_utf8(name_of(a)))) == "urn:uuid:"@
            + uuid_text(fnv1a(vstd::utf8::encode_utf8(name_of(b)))),
        series_guess_of(name_of(a)) == series_guess_of(name_of(b)),
        volume_number_of(name_of(a)) == volume_number_of(name_of(b)),
{
}

/// Scan a volume: `folders` are the volume folder's subfolders, each with
/// its files, and `loose` the files directly in the volume folder.
///
/// Each subfolder with pages becomes a chapter, in chapter order; a volume
/// folder holding its images directly becomes a single chapter. Every page is
/// then judged against the volume's modal page size, and the metadata guessed
/// from the folder's name, with an identifier that stays the same however
/// often the same folder is scanned.
pub fn scan_volume(root: &str, folders: Vec<Folder>, loose: Vec<FileProbe>) -> (r: Volume)
    ensures
        chapter_views(r.chapters@) == volume_chapters_of(root@, views_of(folders@), views_of(loose@)),
        r.root@ == root@,
        r.cover is None,
        r.metadata.series@ == series_guess_of(name_of(root@)),
        r.metadata.volume == volume_number_of(name_of(root@)),
        r.metadata.identifier@ == "urn:uuid:"@ + uuid_text(
            fnv1a(vstd::utf8::encode_utf8(name_of(root@))),
        ),
        r.metadata.author@.len() == 0,
        r.metadata.language@ == "en"@,
        r.metadata.description@.len() == 0,
        r.metadata.direction == crate::project::Direction::RightToLeft,
{
    let ghost folder_views = views_of(folders@);
    let sorted = stable_sort(folders);
    let ghost ordered = views_of(sorted@);
    let mut rest = sorted;
    let mut chapters: Vec<Chapter> = Vec::new();
    let ghost i: int = 0;
    proof {
        assert(views_of(rest@) =~= ordered.skip(0));
        assert(ordered.take(0).map_values(chapter_reader()).filter(has_pages()) =~= Seq::<
            ChapterView,
        >::empty());
    }
    while rest.len() > 0
        invariant
            0 <= i <= ordered.len(),
            views_of(rest@) == ordered.skip(i),
            chapter_views(chapters@) == ordered.take(i).map_values(chapter_reader()).filter(
                has_pages(),
            ),
        decreases rest@.len(),
    {
        let ghost taken = rest@;
        proof {
            assert(views_of(taken).len() == taken.len());
        }
        let f = rest.remove(0);
        proof {
            assert forall|j: int| 0 <= j < rest@.len() implies #[trigger] views_of(rest@)[j]
                == ordered.skip(i + 1)[j] by {
                assert(rest@[j] == taken[j + 1]);
                assert(views_of(taken)[j + 1] == ordered.skip(i)[j + 1]);
            }
            assert(views_of(rest@) =~= ordered.skip(i + 1));
            assert(views_of(taken)[0] == ordered.skip(i)[0]);
            assert(ordered[i] == f@);
            assert(ordered.take(i + 1).map_values(chapter_reader()) =~= ordered.take(i).map_values(
                chapter_reader(),
            ).push(chapter_of(f@)));
            lemma_filter_push(
                ordered.take(i).map_values(chapter_reader()),
                chapter_of(f@),
                has_pages(),
            );
        }
        let c = scan_chapter(f.path.as_str(), f.files);
        let ghost before = chapters@;
        if c.pages.len() > 0 {
            chapters.push(c);
            proof {
                assert(chapter_views(chapters@) =~= chapter_views(before).push(chapter_view(c)));
            }
        }
        proof {
            i = i + 1;
        }
    }
    proof {
        assert(ordered.take(i) =~= ordered);
    }
    if chapters.len() == 0 {
        let single = scan_chapter(root, loose);
        if single.pages.len() > 0 {
            chapters.push(single);
            proof {
                assert(chapter_views(chapters@) =~= seq![chapter_view(single)]);
            }
        }
    }
    let ghost cs = chapter_views(chapters@);
    proof {
        assert(cs == scanned_chapters(root@, folder_views, views_of(loose@)));
    }
    let mut sizes: Vec<(u32, u32)> = Vec::new();
    let mut ci: usize = 0;
    while ci < chapters.len()
        invariant
            ci <= chapters@.len(),
            cs == chapter_views(chapters@),
            sizes@ == sizes_of(all_pages(cs.take(ci as int))),
        decreases chapters@.len() - ci,
    {
        let pages = &chapters[ci].pages;
        let ghost base = sizes@;
        let mut pi: usize = 0;
        while pi < pages.len()
            invariant
                pi <= pages@.len(),
                sizes@ == base + sizes_of(page_views(pages@).take(pi as int)),
            decreases pages@.len() - pi,
        {
            sizes.push((pages[pi].width, pages[pi].height));
            proof {
                assert(sizes_of(page_views(pages@).take(pi + 1)) =~= sizes_of(
                    page_views(pages@).take(pi as int),
                ).push((pages@[pi as int].width, pages@[pi as int].height)));
            }
            pi = pi + 1;
        }
        proof {
            assert(page_views(pages@).take(pi as int) =~= page_views(pages@));
            assert(cs.take(ci + 1).drop_last() =~= cs.take(ci as int));
            assert(cs.take(ci + 1).last() == chapter_view(chapters@[ci as int]));
            assert(sizes_of(all_pages(cs.take(ci + 1))) =~= sizes_of(all_pages(cs.take(ci as int)))
                + sizes_of(page_views(pages@)));
        }
        ci = ci + 1;
    }
    proof {
        assert(cs.take(ci as int) =~= cs);
    }
    let norm = Norm::from_sizes(sizes.as_slice());
    let mut judged: Vec<Chapter> = Vec::new();
    let mut left = chapters;
    let ghost k: int = 0;
    proof {
        assert(chapter_views(left@) =~= cs.skip(0));
    }
    while left.len() > 0
        invariant
            0 <= k <= cs.len(),
            chapter_views(left@) == cs.skip(k),
            chapter_views(judged@) == judged_chapters(cs.take(k), norm),
        decreases left@.len(),
    {
        let ghost taken = left@;
        proof {
            assert(chapter_views(taken).len() == taken.len());
        }
        let c = left.remove(0);
        proof {
            assert forall|j: int| 0 <= j < left@.len() implies #[trigger] chapter_views(left@)[j]
                == cs.skip(k + 1)[j] by {
                assert(left@[j] == taken[j + 1]);
                assert(chapter_views(taken)[j + 1] == cs.skip(k)[j + 1]);
            }
            assert(chapter_views(left@) =~= cs.skip(k + 1));
            assert(chapter_views(taken)[0] == cs.skip(k)[0]);
            assert(cs[k] == chapter_view(c));
        }
        let Chapter { title, source, pages } = c;
        let ghost pv = page_views(pages@);
        let mut ps = pages;
        let mut out: Vec<Page> = Vec::new();
        let ghost m: int = 0;
        proof {
            assert(page_views(ps@) =~= pv.skip(0));
        }
        while ps.len() > 0
            invariant
                0 <= m <= pv.len(),
                page_views(ps@) == pv.skip(m),
                page_views(out@) == pv.take(m).map_values(|p: PageView| judged_page(norm, p)),
            decreases ps@.len(),
        {
            let ghost had = ps@;
            proof {
                assert(page_views(had).len() == had.len());
            }
            let p = ps.remove(0);
            proof {
                assert forall|j: int| 0 <= j < ps@.len() implies #[trigger] page_views(ps@)[j]
                    == pv.skip(m + 1)[j] by {
                    assert(ps@[j] == had[j + 1]);
                    assert(page_views(had)[j + 1] == pv.skip(m)[j + 1]);
                }
                assert(page_views(ps@) =~= pv.skip(m + 1));
                assert(page_views(had)[0] == pv.skip(m)[0]);
                assert(pv[m] == page_view(p));
            }
            let ghost before = out@;
            let q = judge_page(norm, p);
            out.push(q);
            proof {
                assert(page_views(out@) =~= page_views(before).push(page_view(q)));
                assert(pv.take(m + 1).map_values(|x: PageView| judged_page(norm, x)) =~= pv.take(
                    m,
                ).map_values(|x: PageView| judged_page(norm, x)).push(judged_page(norm, pv[m])));
                m = m + 1;
            }
        }
        proof {
            assert(pv.take(m) =~= pv);
        }
        let ghost before = judged@;
        let jc = Chapter { title, source, pages: out };
        proof {
            assert(page_views(out@) =~= cs[k].2.map_values(|x: PageView| judged_page(norm, x)));
            assert(chapter_view(jc) == (cs[k].0, cs[k].1, cs[k].2.map_values(
                |x: PageView| judged_page(norm, x),
            )));
        }
        judged.push(jc);
        proof {
            assert(chapter_views(judged@) =~= chapter_views(before).push(chapter_view(jc)));
            assert(judged_chapters(cs.take(k + 1), norm) =~= judged_chapters(cs.take(k), norm).push(
                chapter_view(jc),
            ));
            k = k + 1;
        }
    }
    proof {
        assert(cs.take(k) =~= cs);
    }
    let name = string_of(file_name(root).as_slice());
    let volume = match trailing_number(name.as_str()) {
        Some(n) => if n <= 0xffff_ffff {
            Some(n as u32)
        } else {
            None
        },
        None => None,
    };
    let mut identifier: Vec<char> = Vec::new();
    push_str(&mut identifier, "urn:uuid:");
    push_str(&mut identifier, stable_id(root).as_str());
    let mut metadata = Metadata::empty();
    metadata.series = series_guess(root);
    metadata.volume = volume;
    metadata.identifier = string_of(identifier.as_slice());
    Volume { metadata, cover: None, chapters: judged, root: String::from_str(root) }
}

/// Every character of `d` is a digit.
pub open spec fn digits_only(d: Seq<char>) -> bool {
    forall|k: int| 0 <= k < d.len() ==> crate::text::is_digit(#[trigger] d[k])
}

/// Whether `b` holds no digit.
pub open spec fn no_digit(b: Seq<char>) -> bool {
    forall|k: int| 0 <= k < b.len() ==> !crate::text::is_digit(#[trigger] b[k])
}

proof fn lemma_trailing_run(a: Seq<char>, d: Seq<char>)
    requires
        digits_only(d),
        a.len() == 0 || !crate::text::is_digit(a.last()),
    ensures
        crate::natsort::trailing_digits(a + d) == d.len(),
    decreases d.len(),
{
    if d.len() == 0 {
        assert(a + d =~= a);
    } else {
        assert((a + d).drop_last() =~= a + d.drop_last());
        assert((a + d).last() == d.last());
        assert(crate::text::is_digit(d[d.len() - 1]));
        lemma_trailing_run(a, d.drop_last());
    }
}

proof fn lemma_trailing_number(a: Seq<char>, d: Seq<char>, b: Seq<char>)
    requires
        d.len() > 0,
        digits_only(d),
        no_digit(b),
        a.len() == 0 || !crate::text::is_digit(a.last()),
    ensures
        trailing_number_of(a + d + b) == if crate::natsort::digits_value(d) <= u128::MAX {
            Some(crate::natsort::digits_value(d))
        } else {
            None::<nat>
        },
    decreases b.len(),
{
    if b.len() == 0 {
        assert(a + d + b =~= a + d);
        lemma_trailing_run(a, d);
        assert((a + d).last() == d.last());
        assert(crate::text::is_digit(d[d.len() - 1]));
        assert((a + d).skip((a + d).len() - d.len()) =~= d);
    } else {
        assert((a + d + b).drop_last() =~= a + d + b.drop_last());
        assert((a + d + b).last() == b.last());
        assert(!crate::text::is_digit(b[b.len() - 1]));
        lemma_trailing_number(a, d, b.drop_last());
    }
}

/// A chapter folder is titled after its last digit run, whatever digits come
/// earlier in its name (a series name like `kaiju-no-8`, a date): a name made
/// of anything, then a run of digits not preceded by another digit, then no
/// more digits, is titled `Chapter` and that run's value.
pub proof fn a_chapter_is_titled_after_its_last_number(dir: Seq<char>, a: Seq<char>, d: Seq<char>, b: Seq<char>)
    requires
        name_of(dir) == a + d + b,
        d.len() > 0,
        digits_only(d),
        no_digit(b),
        a.len() == 0 || !crate::text::is_digit(a.last()),
        crate::natsort::digits_value(d) <= u128::MAX,
    ensures
        chapter_title_of(dir) == "Chapter "@ + decimal_of(crate::natsort::digits_value(d)),
{
    lemma_trailing_number(a, d, b);
}

} // verus!
