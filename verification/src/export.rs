//! Where a built volume goes: its file name and its place under the output
//! folder. Naming lives here rather than in the interface so a one-off build
//! and an unattended batch produce identical names.
use vstd::prelude::*;

use crate::library::paths::{safe_component, safe_component_of};
use crate::page::PageKind;
use crate::project::{Chapter, Volume};
use crate::text::{chars_of, decimal_of, decimal_padded, push_all, push_str, string_of, zero_padded};

verus! {

/// The output formats.
#[derive(Debug, Clone, Copy, PartialEq, Eq, Structural)]
pub enum Format {
    Epub,
    Cbz,
}

impl Format {
    /// The file extension of the format.
    pub fn extension(self) -> (r: &'static str)
        ensures
            r@ == format_ext(self),
    {
        match self {
            Format::Epub => "epub",
            Format::Cbz => "cbz",
        }
    }
}

/// The file extension of a format.
pub open spec fn format_ext(f: Format) -> Seq<char> {
    match f {
        Format::Epub => "epub"@,
        Format::Cbz => "cbz"@,
    }
}

/// What a build reports: where it wrote, how many bytes, how many pages.
#[derive(Debug, Clone)]
pub struct BuildReport {
    pub path: String,
    pub bytes: u64,
    pub pages: usize,
}

/// `Itch The Witch v01`: the series made safe (`volume` when nothing is left)
/// and the volume number padded to two digits, so `v2` sorts before `v10`.
pub open spec fn file_stem_of(series: Seq<char>, volume: Option<u32>) -> Seq<char> {
    let s = safe_component_of(series);
    let s = if s.len() == 0 { "volume"@ } else { s };
    match volume {
        Some(v) => s + " v"@ + zero_padded(decimal_of(v as nat), 2),
        None => s,
    }
}

/// The file name of a volume without an extension.
pub fn file_stem(volume: &Volume) -> (r: String)
    ensures
        r@ == file_stem_of(volume.metadata.series@, volume.metadata.volume),
{
    proof {
        reveal_strlit("volume");
    }
    let s = safe_component(volume.metadata.series.as_str());
    let mut out = if s.as_str().is_empty() {
        chars_of("volume")
    } else {
        chars_of(s.as_str())
    };
    match volume.metadata.volume {
        Some(v) => {
            push_str(&mut out, " v");
            push_all(&mut out, &decimal_padded(v as u128, 2));
        },
        None => {},
    }
    string_of(out.as_slice())
}

/// A file name to pre-fill the save dialog with, e.g. `Itch The Witch v01.epub`.
pub fn suggest_filename(volume: &Volume, format: Format) -> (r: String)
    ensures
        r@ == file_stem_of(volume.metadata.series@, volume.metadata.volume) + "."@ + format_ext(format),
{
    let mut out = chars_of(file_stem(volume).as_str());
    push_str(&mut out, ".");
    push_str(&mut out, format.extension());
    string_of(out.as_slice())
}

/// `dir` joined with one more component, with a `/` between them unless `dir`
/// is empty or already ends with one.
pub open spec fn joined_path(dir: Seq<char>, name: Seq<char>) -> Seq<char> {
    if dir.len() == 0 || dir.last() == '/' {
        dir + name
    } else {
        dir + "/"@ + name
    }
}

pub fn join_path(dir: &Vec<char>, name: &str) -> (r: Vec<char>)
    ensures
        r@ == joined_path(dir@, name@),
{
    let mut out = crate::text::slice_of(dir, 0, dir.len());
    assert(out@ =~= dir@);
    let slash = dir.len() > 0 && dir[dir.len() - 1] != '/';
    if slash {
        out.push('/');
    }
    push_str(&mut out, name);
    proof {
        reveal_strlit("/");
    }
    assert(out@ =~= joined_path(dir@, name@));
    out
}

/// `<root>/<Series>/<Series v01.epub>`, or a flat `<root>/<Series v01.epub>`;
/// a series with no usable name is filed under `Unsorted`.
pub open spec fn build_path_of(root: Seq<char>, series: Seq<char>, volume: Option<u32>, format: Format, folder_per_series: bool) -> Seq<char> {
    let name = file_stem_of(series, volume) + "."@ + format_ext(format);
    if folder_per_series {
        let folder = safe_component_of(series);
        let folder = if folder.len() == 0 { "Unsorted"@ } else { folder };
        joined_path(joined_path(root, folder), name)
    } else {
        joined_path(root, name)
    }
}

/// Where a volume is written under the output folder `root`.
pub fn build_path(root: &str, volume: &Volume, format: Format, folder_per_series: bool) -> (r: String)
    ensures
        r@ == build_path_of(root@, volume.metadata.series@, volume.metadata.volume, format, folder_per_series),
{
    proof {
        reveal_strlit("Unsorted");
    }
    let name = suggest_filename(volume, format);
    let root = chars_of(root);
    if folder_per_series {
        let series = safe_component(volume.metadata.series.as_str());
        let folder = if series.as_str().is_empty() {
            String::from_str("Unsorted")
        } else {
            series
        };
        let dir = join_path(&root, folder.as_str());
        string_of(join_path(&dir, name.as_str()).as_slice())
    } else {
        string_of(join_path(&root, name.as_str()).as_slice())
    }
}

/// A page with the spread preference applied: a spread is split or not as
/// asked; any other page is unchanged.
pub open spec fn with_policy(p: crate::page::Page, split: bool) -> crate::page::Page {
    if p.kind == PageKind::Spread {
        crate::page::Page { split, ..p }
    } else {
        p
    }
}

/// Apply the user's spread preference to a freshly assembled volume, so the
/// editor and an unattended batch agree on what a volume looks like before
/// anything is written.
pub fn apply_spread_policy(volume: &mut Volume, split: bool)
    ensures
        final(volume).metadata == old(volume).metadata,
        final(volume).cover == old(volume).cover,
        final(volume).root == old(volume).root,
        final(volume).chapters@.len() == old(volume).chapters@.len(),
        forall|c: int|
            0 <= c < final(volume).chapters@.len() ==> {
                let a = #[trigger] final(volume).chapters@[c];
                let b = old(volume).chapters@[c];
                &&& a.title == b.title
                &&& a.source == b.source
                &&& a.pages@.len() == b.pages@.len()
                &&& forall|k: int| 0 <= k < a.pages@.len() ==> #[trigger] a.pages@[k] == with_policy(b.pages@[k], split)
            },
{
    let mut chapters: Vec<Chapter> = Vec::new();
    std::mem::swap(&mut chapters, &mut volume.chapters);
    let ghost olds = chapters@;
    let n = chapters.len();
    let mut out: Vec<Chapter> = Vec::new();
    let mut c: usize = 0;
    while chapters.len() > 0
        invariant
            n == olds.len(),
            c <= n,
            chapters@ == olds.skip(c as int),
            out@.len() == c,
            forall|j: int|
                0 <= j < c ==> {
                    let a = #[trigger] out@[j];
                    let b = olds[j];
                    &&& a.title == b.title
                    &&& a.source == b.source
                    &&& a.pages@.len() == b.pages@.len()
                    &&& forall|k: int| 0 <= k < a.pages@.len() ==> #[trigger] a.pages@[k] == with_policy(b.pages@[k], split)
                },
        decreases chapters@.len(),
    {
        let ch = chapters.remove(0);
        assert(ch == olds[c as int]);
        assert(chapters@ =~= olds.skip(c + 1));
        let Chapter { title, source, pages } = ch;
        let mut rest = pages;
        let ghost old_pages = rest@;
        let m = rest.len();
        let mut done: Vec<crate::page::Page> = Vec::new();
        let mut k: usize = 0;
        while rest.len() > 0
            invariant
                m == old_pages.len(),
                k <= m,
                rest@ == old_pages.skip(k as int),
                done@.len() == k,
                forall|j: int| 0 <= j < k ==> #[trigger] done@[j] == with_policy(old_pages[j], split),
            decreases rest@.len(),
        {
            let p = rest.remove(0);
            assert(p == old_pages[k as int]);
            assert(rest@ =~= old_pages.skip(k + 1));
            let q = if p.kind == PageKind::Spread {
                crate::page::Page { split, ..p }
            } else {
                p
            };
            done.push(q);
            k = k + 1;
        }
        out.push(Chapter { title, source, pages: done });
        c = c + 1;
    }
    volume.chapters = out;
}

} // verus!
