//! Handing a stored volume to the build pipeline: the metadata the library
//! knows and a folder scan cannot guess.
use vstd::prelude::*;

use crate::fetch::series::{decimal_parts, parts_of_text, strip_trailing_zeros, without_trailing_zeros};
use crate::library::model::{ChapterStatus, Series, VolumeStatus};
use crate::library::paths::int_text;
use crate::natsort::{digits_in, digits_value};
use crate::project::{Chapter, Direction, Metadata, Volume};
use crate::text::{
    chars_of, eq_str, hex, hex_digits, push_all, push_str, slice_of, string_of, texts, trim, trimmed,
};

verus! {

/// `"Author, Artist"`, collapsing the common case where they are one person.
pub open spec fn author_line_of(author: Seq<char>, artist: Seq<char>) -> Seq<char> {
    let (a, r) = (trim(author), trim(artist));
    if a.len() == 0 && (r.len() == 0 || r == a) {
        Seq::empty()
    } else if a.len() == 0 {
        r
    } else if r.len() == 0 || r == a {
        a
    } else {
        a + ", "@ + r
    }
}

/// `"Author, Artist"`, collapsing the common case where they are one person.
pub fn author_line(author: &str, artist: &str) -> (r: String)
    ensures
        r@ == author_line_of(author@, artist@),
{
    let a = trimmed(&chars_of(author));
    let r = trimmed(&chars_of(artist));
    let same = r.len() == a.len() && eq_str(&r, string_of(a.as_slice()).as_str());
    if a.len() == 0 && (r.len() == 0 || same) {
        return String::new();
    }
    if a.len() == 0 {
        return string_of(r.as_slice());
    }
    if r.len() == 0 || same {
        return string_of(a.as_slice());
    }
    let mut out = a;
    push_str(&mut out, ", ");
    push_all(&mut out, &r);
    string_of(out.as_slice())
}

/// FNV-1a over 128 bits (starting from the 64-bit offset basis and stepping
/// by the 64-bit prime, with 128-bit wrapping arithmetic).
pub open spec fn fnv1a(bytes: Seq<u8>) -> u128
    decreases bytes.len(),
{
    if bytes.len() == 0 {
        0xcbf2_9ce4_8422_2325
    } else {
        vstd::wrapping::u128_specs::wrapping_mul(
            fnv1a(bytes.drop_last()) ^ (bytes.last() as u128),
            0x0000_0100_0000_01b3,
        )
    }
}

/// A 128-bit value as a UUID: 32 lowercase hex digits grouped 8-4-4-4-12.
pub open spec fn uuid_text(h: u128) -> Seq<char> {
    let x = hex_digits(h as nat, 32);
    x.subrange(0, 8) + "-"@ + x.subrange(8, 12) + "-"@ + x.subrange(12, 16) + "-"@ + x.subrange(
        16,
        20,
    ) + "-"@ + x.subrange(20, 32)
}

pub proof fn lemma_hex_digits_len(n: nat, width: nat)
    ensures
        hex_digits(n, width).len() == width,
    decreases width,
{
    if width > 0 {
        lemma_hex_digits_len(n / 16, (width - 1) as nat);
    }
}

/// A deterministic identifier for a seed, formatted as a UUID. Not
/// cryptographic; it only has to be stable so the same volume keeps the same
/// identity.
pub fn stable_id(seed: &str) -> (r: String)
    ensures
        r@ == uuid_text(fnv1a(vstd::utf8::encode_utf8(seed@))),
{
    let bytes = seed.as_bytes();
    let mut h: u128 = 0xcbf2_9ce4_8422_2325;
    let mut i: usize = 0;
    assert(bytes@.take(0) =~= Seq::<u8>::empty());
    while i < bytes.len()
        invariant
            i <= bytes@.len(),
            h == fnv1a(bytes@.take(i as int)),
        decreases bytes@.len() - i,
    {
        assert(bytes@.take(i + 1).drop_last() =~= bytes@.take(i as int));
        h = h ^ (bytes[i] as u128);
        h = h.wrapping_mul(0x0000_0100_0000_01b3);
        i = i + 1;
    }
    assert(bytes@.take(i as int) =~= bytes@);
    let x = hex(h, 32);
    proof {
        lemma_hex_digits_len(h as nat, 32);
    }
    let mut out = slice_of(&x, 0, 8);
    push_str(&mut out, "-");
    push_all(&mut out, &slice_of(&x, 8, 12));
    push_str(&mut out, "-");
    push_all(&mut out, &slice_of(&x, 12, 16));
    push_str(&mut out, "-");
    push_all(&mut out, &slice_of(&x, 16, 20));
    push_str(&mut out, "-");
    push_all(&mut out, &slice_of(&x, 20, 32));
    string_of(out.as_slice())
}

/// The volume number a label names when it is a whole, non-negative number;
/// too large a number is capped at the largest `u32`.
pub open spec fn whole_volume_of(label: Seq<char>) -> Option<u32> {
    match decimal_parts(trim(label)) {
        Some((whole, fraction)) => if strip_trailing_zeros(fraction).len() == 0 {
            Some(
                if digits_value(whole) > u32::MAX {
                    u32::MAX
                } else {
                    digits_value(whole) as u32
                },
            )
        } else {
            None
        },
        None => None,
    }
}

fn whole_volume(label: &str) -> (r: Option<u32>)
    ensures
        r == whole_volume_of(label@),
{
    let t = trimmed(&chars_of(label));
    let (whole, fraction) = match parts_of_text(&t) {
        Some(p) => p,
        None => return None,
    };
    if without_trailing_zeros(&fraction).len() > 0 {
        return None;
    }
    proof {
        assert(whole@.subrange(0, whole@.len() as int) =~= whole@);
    }
    match digits_in(&whole, 0, whole.len()) {
        Some(v) => {
            if v > 0xffff_ffffu128 {
                Some(u32::MAX)
            } else {
                Some(v as u32)
            }
        },
        None => Some(u32::MAX),
    }
}

/// The chapters of a list that are on disk, in order.
pub open spec fn downloaded_of(cs: Seq<ChapterStatus>) -> Seq<ChapterStatus>
    decreases cs.len(),
{
    if cs.len() == 0 {
        Seq::empty()
    } else {
        downloaded_of(cs.drop_last()) + if cs.last().folder is Some {
            seq![cs.last()]
        } else {
            Seq::empty()
        }
    }
}

/// The table-of-contents title for a stored chapter: its number, and its own
/// title when it has a non-blank one.
pub open spec fn chapter_title_of(c: ChapterStatus) -> Seq<char> {
    match c.title {
        Some(t) => if trim(t@).len() > 0 {
            "Chapter "@ + c.number@ + " \u{2014} "@ + t@
        } else {
            "Chapter "@ + c.number@
        },
        None => "Chapter "@ + c.number@,
    }
}

/// The identity seed of a series' volume: `<series id>|<volume label>`.
pub open spec fn identity_seed(id: i64, label: Seq<char>) -> Seq<char> {
    int_text(id as int) + "|"@ + label
}

fn chapter_title(c: &ChapterStatus) -> (r: String)
    ensures
        r@ == chapter_title_of(*c),
{
    let mut out = chars_of("Chapter ");
    push_str(&mut out, c.number.as_str());
    match &c.title {
        Some(t) => {
            if trimmed(&chars_of(t.as_str())).len() > 0 {
                push_str(&mut out, " \u{2014} ");
                push_str(&mut out, t.as_str());
            }
        },
        None => {},
    }
    string_of(out.as_slice())
}

fn downloaded_chapters(cs: &Vec<ChapterStatus>) -> (r: Vec<&ChapterStatus>)
    ensures
        r@.len() == downloaded_of(cs@).len(),
        forall|k: int| 0 <= k < r@.len() ==> *r@[k] == downloaded_of(cs@)[k],
{
    let mut r: Vec<&ChapterStatus> = Vec::new();
    let mut i: usize = 0;
    assert(cs@.take(0) =~= Seq::<ChapterStatus>::empty());
    while i < cs.len()
        invariant
            i <= cs@.len(),
            r@.len() == downloaded_of(cs@.take(i as int)).len(),
            forall|k: int| 0 <= k < r@.len() ==> *r@[k] == downloaded_of(cs@.take(i as int))[k],
        decreases cs@.len() - i,
    {
        assert(cs@.take(i + 1).drop_last() =~= cs@.take(i as int));
        if cs[i].downloaded() {
            r.push(&cs[i]);
        }
        i = i + 1;
    }
    assert(cs@.take(i as int) =~= cs@);
    r
}

/// Fill in what the library knows of a scanned volume: the series' title,
/// credits, description, language and reading direction; the volume number
/// when its label is a whole number; an identity that is stable per series
/// and volume, so re-exporting replaces the book in a reader's library rather
/// than duplicating it; the cover; and, chapter by chapter in step with the
/// volume's downloaded chapters, the real chapter numbers and titles.
pub fn dress_volume(
    volume: Volume,
    series: &Series,
    status: &VolumeStatus,
    label: &str,
    cover: Option<String>,
) -> (r: Volume)
    ensures
        r.metadata.series@ == series.title@,
        r.metadata.volume == whole_volume_of(label@),
        r.metadata.author@ == author_line_of(series.author@, series.artist@),
        r.metadata.description@ == series.description@,
        r.metadata.language@ == series.language@,
        r.metadata.direction == (if series.direction@ == "left-to-right"@ {
            Direction::LeftToRight
        } else {
            Direction::RightToLeft
        }),
        r.metadata.identifier@ == "urn:uuid:"@ + uuid_text(
            fnv1a(vstd::utf8::encode_utf8(identity_seed(series.id.0, label@))),
        ),
        r.cover == cover,
        r.root == volume.root,
        r.chapters@.len() == volume.chapters@.len(),
        forall|k: int|
            0 <= k < r.chapters@.len() ==> (#[trigger] r.chapters@[k]).source
                == volume.chapters@[k].source && r.chapters@[k].pages == volume.chapters@[k].pages
                && r.chapters@[k].title@ == if k < downloaded_of(status.chapters@).len() {
                chapter_title_of(downloaded_of(status.chapters@)[k])
            } else {
                volume.chapters@[k].title@
            },
{
    let direction = if eq_str(&chars_of(series.direction.as_str()), "left-to-right") {
        Direction::LeftToRight
    } else {
        Direction::RightToLeft
    };
    let mut seed = crate::library::paths::int_digits(series.id.0);
    push_str(&mut seed, "|");
    push_str(&mut seed, label);
    let mut identifier = chars_of("urn:uuid:");
    push_str(&mut identifier, stable_id(string_of(seed.as_slice()).as_str()).as_str());
    let metadata = Metadata {
        series: series.title.clone(),
        volume: whole_volume(label),
        author: author_line(series.author.as_str(), series.artist.as_str()),
        description: series.description.clone(),
        language: series.language.clone(),
        direction,
        identifier: string_of(identifier.as_slice()),
    };
    let stored = downloaded_chapters(&status.chapters);
    let Volume { metadata: _, cover: _, chapters, root } = volume;
    let ghost old_chapters = chapters@;
    let mut rest = chapters;
    let n = rest.len();
    let mut out: Vec<Chapter> = Vec::new();
    let mut k: usize = 0;
    while rest.len() > 0
        invariant
            n == old_chapters.len(),
            k <= old_chapters.len(),
            rest@ == old_chapters.skip(k as int),
            out@.len() == k,
            stored@.len() == downloaded_of(status.chapters@).len(),
            forall|j: int| 0 <= j < stored@.len() ==> *stored@[j] == downloaded_of(status.chapters@)[j],
            forall|j: int|
                0 <= j < k ==> (#[trigger] out@[j]).source == old_chapters[j].source
                    && out@[j].pages == old_chapters[j].pages && out@[j].title@ == if j
                    < downloaded_of(status.chapters@).len() {
                    chapter_title_of(downloaded_of(status.chapters@)[j])
                } else {
                    old_chapters[j].title@
                },
        decreases rest@.len(),
    {
        let c = rest.remove(0);
        assert(c == old_chapters[k as int]);
        let title = if k < stored.len() {
            chapter_title(stored[k])
        } else {
            c.title
        };
        out.push(Chapter { title, source: c.source, pages: c.pages });
        assert(rest@ =~= old_chapters.skip(k + 1));
        k = k + 1;
    }
    assert(old_chapters.skip(k as int).len() == 0);
    Volume { metadata, cover, chapters: out, root }
}


/// The chapters whose folders are among `dirs`, in order.
pub open spec fn claimed_of(chapters: Seq<Chapter>, dirs: Seq<Seq<char>>) -> Seq<Chapter>
    decreases chapters.len(),
{
    if chapters.len() == 0 {
        Seq::empty()
    } else if dirs.contains(chapters.last().source@) {
        claimed_of(chapters.drop_last(), dirs).push(chapters.last())
    } else {
        claimed_of(chapters.drop_last(), dirs)
    }
}

/// The message for a volume none of whose chapters is on disk.
pub open spec fn nothing_downloaded_message(label: Seq<char>) -> Seq<char> {
    "no chapters of volume "@ + label + " are downloaded yet"@
}

fn listed(dirs: &Vec<String>, s: &String) -> (r: bool)
    ensures
        r == texts(dirs@).contains(s@),
{
    let mut k: usize = 0;
    while k < dirs.len()
        invariant
            k <= dirs@.len(),
            forall|j: int| 0 <= j < k ==> texts(dirs@)[j] != s@,
        decreases dirs@.len() - k,
    {
        if dirs[k] == *s {
            assert(texts(dirs@)[k as int] == s@);
            return true;
        }
        k = k + 1;
    }
    false
}

/// A stored volume's part of a scan of its series's chapters folder: the
/// chapters whose folders are among `dirs` (the volume's chapters on disk),
/// rooted at `root`. The whole folder is scanned rather than each chapter,
/// since the page-size norm is far more reliable across every chapter of a
/// series than across the handful in one volume. A volume with nothing on
/// disk is refused.
pub fn claimed_chapters(scanned: Volume, dirs: &Vec<String>, root: &str, label: &str) -> (r: Result<Volume, String>)
    ensures
        dirs@.len() == 0 ==> (r matches Err(e) && e@ == nothing_downloaded_message(label@)),
        dirs@.len() > 0 ==> (r matches Ok(v) && v.chapters@ == claimed_of(scanned.chapters@, texts(dirs@))
            && v.root@ == root@ && v.metadata == scanned.metadata && v.cover == scanned.cover),
{
    if dirs.len() == 0 {
        let mut out = chars_of("no chapters of volume ");
        push_str(&mut out, label);
        push_str(&mut out, " are downloaded yet");
        proof {
            reveal_strlit("no chapters of volume ");
            reveal_strlit(" are downloaded yet");
        }
        return Err(string_of(out.as_slice()));
    }
    let Volume { metadata, cover, chapters, root: _ } = scanned;
    let ghost all = chapters@;
    let mut rest = chapters;
    let mut kept: Vec<Chapter> = Vec::new();
    let ghost mut i: int = 0;
    proof {
        assert(rest@ =~= all.skip(0));
        assert(all.take(0) =~= Seq::<Chapter>::empty());
    }
    while rest.len() > 0
        invariant
            0 <= i <= all.len(),
            rest@ == all.skip(i),
            kept@ == claimed_of(all.take(i), texts(dirs@)),
        decreases rest@.len(),
    {
        let c = rest.remove(0);
        proof {
            assert(c == all[i]);
            assert(all.take(i + 1).drop_last() =~= all.take(i));
            assert(all.take(i + 1).last() == all[i]);
            assert(rest@ =~= all.skip(i + 1));
        }
        if listed(dirs, &c.source) {
            kept.push(c);
        }
        proof {
            i = i + 1;
        }
    }
    proof {
        assert(all.take(i) =~= all);
    }
    Ok(Volume { metadata, cover, chapters: kept, root: String::from_str(root) })
}

} // verus!
