//! A single image file and everything inferred about it.
use vstd::prelude::*;

use crate::text::{chars_of, eq_str, lower_seq, lowered, slice_of, string_of};

verus! {

/// Whether an image is an ordinary page or a double-page spread.
#[derive(Debug, Clone, Copy, PartialEq, Eq, Structural)]
pub enum PageKind {
    /// An ordinary single page.
    Single,
    /// A double-page spread: roughly twice the width of its chapter's norm.
    Spread,
}

/// Why a file is held out of the output.
#[derive(Debug, Clone, Copy, PartialEq, Eq, Structural)]
pub enum ExcludeReason {
    /// Extension is not a raster image, or is a known site-furniture type.
    NotAPage,
    /// Decoding the header failed, so it is not a usable image.
    Unreadable,
    /// Dimensions are wildly off the chapter's normal page size.
    OffSize { width: u32, height: u32 },
    /// The user excluded it by hand.
    Manual,
}

/// One image of a chapter.
#[derive(Debug, Clone, PartialEq, Eq)]
pub struct Page {
    pub path: String,
    pub width: u32,
    pub height: u32,
    pub bytes: u64,
    pub kind: PageKind,
    /// `Some` when the page is held out of the output.
    pub excluded: Option<ExcludeReason>,
    /// Cut a spread into two single pages on export.
    pub split: bool,
}

/// The segments of a path, split on `/`.
pub open spec fn trimmed_path(p: Seq<char>) -> Seq<char>
    decreases p.len(),
{
    if p.len() > 0 && p.last() == '/' {
        trimmed_path(p.drop_last())
    } else if p.len() >= 2 && p.last() == '.' && p[p.len() - 2] == '/' {
        trimmed_path(p.drop_last())
    } else {
        p
    }
}

/// Index just past the last `/` of `p`, or 0 when there is none.
pub open spec fn after_last_slash(p: Seq<char>) -> int
    decreases p.len(),
{
    if p.len() == 0 {
        0
    } else if p.last() == '/' {
        p.len() as int
    } else {
        after_last_slash(p.drop_last())
    }
}

/// The final component of a path: trailing separators and `.` components are
/// ignored, and a final `..` (or nothing at all) has no name.
pub open spec fn file_name_of(p: Seq<char>) -> Option<Seq<char>> {
    let t = trimmed_path(p);
    let name = t.skip(after_last_slash(t));
    if name.len() == 0 || name == "."@ || name == ".."@ {
        None
    } else {
        Some(name)
    }
}

/// Index of the last `.` in `s`, or -1.
pub open spec fn last_dot(s: Seq<char>) -> int
    decreases s.len(),
{
    if s.len() == 0 {
        -1
    } else if s.last() == '.' {
        s.len() - 1
    } else {
        last_dot(s.drop_last())
    }
}

/// The extension of a file name: what follows its last `.`, unless that dot
/// opens the name (a hidden file has no extension).
pub open spec fn extension_of_name(name: Seq<char>) -> Option<Seq<char>> {
    let d = last_dot(name);
    if d > 0 {
        Some(name.skip(d + 1))
    } else {
        None
    }
}

/// The extension of a path's final component.
pub open spec fn path_extension(p: Seq<char>) -> Option<Seq<char>> {
    match file_name_of(p) {
        Some(name) => extension_of_name(name),
        None => None,
    }
}

/// Extensions treated as comic pages.
pub open spec fn is_raster_ext(e: Seq<char>) -> bool {
    e == "jpg"@ || e == "jpeg"@ || e == "png"@ || e == "webp"@ || e == "avif"@ || e == "bmp"@
        || e == "tif"@ || e == "tiff"@
}

/// What the extension alone says about a path.
pub open spec fn extension_verdict_of(p: Seq<char>) -> Option<ExcludeReason> {
    match path_extension(p) {
        Some(e) if is_raster_ext(lower_seq(e)) => None,
        _ => Some(ExcludeReason::NotAPage),
    }
}

proof fn lemma_after_last_slash(p: Seq<char>)
    ensures
        0 <= after_last_slash(p) <= p.len(),
        forall|k: int| after_last_slash(p) <= k < p.len() ==> p[k] != '/',
        after_last_slash(p) > 0 ==> p[after_last_slash(p) - 1] == '/',
    decreases p.len(),
{
    if p.len() > 0 && p.last() != '/' {
        lemma_after_last_slash(p.drop_last());
        assert forall|k: int| after_last_slash(p) <= k < p.len() implies p[k] != '/' by {
            if k < p.len() - 1 {
                assert(p[k] == p.drop_last()[k]);
            }
        }
    }
}

proof fn lemma_last_dot(s: Seq<char>)
    ensures
        -1 <= last_dot(s) < s.len(),
        last_dot(s) >= 0 ==> s[last_dot(s)] == '.',
        forall|k: int| last_dot(s) < k < s.len() ==> s[k] != '.',
    decreases s.len(),
{
    if s.len() > 0 && s.last() != '.' {
        lemma_last_dot(s.drop_last());
        assert forall|k: int| last_dot(s) < k < s.len() implies s[k] != '.' by {
            if k < s.len() - 1 {
                assert(s[k] == s.drop_last()[k]);
            }
        }
    }
}

/// The final component of a path, as `file_name_of` describes it.
pub fn file_name_chars(path: &Vec<char>) -> (r: Option<Vec<char>>)
    ensures
        match r {
            Some(v) => file_name_of(path@) == Some(v@),
            None => file_name_of(path@) is None,
        },
{
    let mut end = path.len();
    proof {
        assert(path@.take(end as int) =~= path@);
    }
    while end > 0 && (path[end - 1] == '/' || (end >= 2 && path[end - 1] == '.' && path[end - 2] == '/'))
        invariant
            end <= path@.len(),
            trimmed_path(path@) == trimmed_path(path@.take(end as int)),
        decreases end,
    {
        proof {
            assert(path@.take(end as int).drop_last() =~= path@.take(end - 1));
        }
        end = end - 1;
    }
    let ghost t = path@.take(end as int);
    assert(trimmed_path(t) == t);
    assert(t.take(end as int) =~= t);
    let mut start = end;
    while start > 0 && path[start - 1] != '/'
        invariant
            start <= end,
            end <= path@.len(),
            t == path@.take(end as int),
            after_last_slash(t) == after_last_slash(t.take(start as int)),
            forall|k: int| start <= k < end ==> path@[k] != '/',
        decreases start,
    {
        proof {
            assert(t.take(start as int).drop_last() =~= t.take(start - 1));
            assert(t.take(start as int).last() == path@[start - 1]);
        }
        start = start - 1;
    }
    proof {
        if start > 0 {
            assert(t.take(start as int).last() == path@[start - 1]);
        }
        assert(after_last_slash(t) == start);
        assert(t.skip(start as int) =~= path@.subrange(start as int, end as int));
    }
    let name = slice_of(path, start, end);
    if name.len() == 0 || eq_str(&name, ".") || eq_str(&name, "..") {
        None
    } else {
        Some(name)
    }
}

/// The extension of a file name, as `extension_of_name` describes it.
pub fn name_extension(name: &Vec<char>) -> (r: Option<Vec<char>>)
    ensures
        match r {
            Some(v) => extension_of_name(name@) == Some(v@),
            None => extension_of_name(name@) is None,
        },
{
    let mut i = name.len();
    proof {
        assert(name@.take(i as int) =~= name@);
    }
    while i > 0 && name[i - 1] != '.'
        invariant
            i <= name@.len(),
            last_dot(name@) == last_dot(name@.take(i as int)),
        decreases i,
    {
        proof {
            let w = name@.take(i as int);
            assert(w.drop_last() =~= name@.take(i - 1));
            assert(w.last() == name@[i - 1]);
            assert(w.len() > 0 && w.last() != '.');
            assert(last_dot(w) == last_dot(w.drop_last()));
        }
        i = i - 1;
    }
    proof {
        if i > 0 {
            assert(name@.take(i as int).last() == name@[i - 1]);
            assert(last_dot(name@) == i - 1);
        } else {
            assert(last_dot(name@) == -1);
        }
    }
    if i >= 2 {
        let e = slice_of(name, i, name.len());
        assert(e@ =~= name@.skip(i as int));
        Some(e)
    } else {
        None
    }
}

impl Page {
    /// Whether the page will be written to the output.
    pub fn is_included(&self) -> (r: bool)
        ensures
            r == (self.excluded is None),
    {
        self.excluded.is_none()
    }

    /// The page's file name, or an empty string when its path has none.
    pub fn file_name(&self) -> (r: String)
        ensures
            r@ == match file_name_of(self.path@) {
                Some(n) => n,
                None => Seq::<char>::empty(),
            },
    {
        let p = chars_of(self.path.as_str());
        match file_name_chars(&p) {
            Some(n) => string_of(n.as_slice()),
            None => string_of(Vec::<char>::new().as_slice()),
        }
    }
}

/// Classify a path by extension before paying to read its header.
///
/// `.jpg.jpeg` double extensions are common in scraped folders; only the final
/// component counts.
pub fn extension_verdict(path: &str) -> (r: Option<ExcludeReason>)
    ensures
        r == extension_verdict_of(path@),
{
    let p = chars_of(path);
    let name = match file_name_chars(&p) {
        Some(n) => n,
        None => return Some(ExcludeReason::NotAPage),
    };
    let ext = match name_extension(&name) {
        Some(e) => e,
        None => return Some(ExcludeReason::NotAPage),
    };
    let e = lowered(&ext);
    if eq_str(&e, "jpg") || eq_str(&e, "jpeg") || eq_str(&e, "png") || eq_str(&e, "webp")
        || eq_str(&e, "avif") || eq_str(&e, "bmp") || eq_str(&e, "tif") || eq_str(&e, "tiff") {
        None
    } else {
        Some(ExcludeReason::NotAPage)
    }
}

} // verus!
