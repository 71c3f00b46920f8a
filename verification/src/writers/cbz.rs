//! CBZ output: a zip of pages plus a `ComicInfo.xml` for readers that use it
//! (Komga, Kavita, Tachiyomi, ComicRack).
use vstd::prelude::*;

use crate::project::{display_title_of, included_of, volume_pages_of, Chapter, Direction, Metadata, Volume};
use crate::text::{chars_of, decimal, decimal_of, decimal_padded, push_all, push_str, string_of, texts, zero_padded};
use crate::writers::archive::{
    archive_ok, entries_fit, lemma_archive_ok_last, lemma_archive_ok_prefix, zip_archive, Archive,
    Entry, WriteError,
};
use crate::writers::epub::{flat, joined, push_joined, renders_view, utf8};
use crate::writers::{esc_of, push_escaped, Rendered};

verus! {

/// The `ComicInfo.xml` fields: title, series, page count, language and manga
/// reading direction always; volume, writer and summary when known (unknown
/// fields are omitted rather than left blank, which readers handle better).
pub open spec fn comic_fields(m: Metadata, page_count: nat) -> Seq<Seq<char>> {
    seq![
        "  <Title>"@ + esc_of(display_title_of(m.series@, m.volume)) + "</Title>"@,
        "  <Series>"@ + esc_of(m.series@) + "</Series>"@,
        "  <PageCount>"@ + decimal_of(page_count) + "</PageCount>"@,
        "  <LanguageISO>"@ + esc_of(m.language@) + "</LanguageISO>"@,
        "  <Manga>"@ + (match m.direction {
            Direction::RightToLeft => "YesAndRightToLeft"@,
            Direction::LeftToRight => "Yes"@,
        }) + "</Manga>"@,
    ] + (match m.volume {
        Some(v) => seq!["  <Volume>"@ + decimal_of(v as nat) + "</Volume>"@],
        None => Seq::empty(),
    }) + (if m.author@.len() > 0 {
        seq!["  <Writer>"@ + esc_of(m.author@) + "</Writer>"@]
    } else {
        Seq::empty()
    }) + (if m.description@.len() > 0 {
        seq!["  <Summary>"@ + esc_of(m.description@) + "</Summary>"@]
    } else {
        Seq::empty()
    })
}

/// The `ComicInfo.xml` document.
pub open spec fn comic_info_text(m: Metadata, page_count: nat) -> Seq<char> {
    "<?xml version=\"1.0\" encoding=\"utf-8\"?>\n<ComicInfo xmlns:xsi=\"http://www.w3.org/2001/XMLSchema-instance\">\n"@
        + joined(comic_fields(m, page_count)) + "\n</ComicInfo>\n"@
}

fn field(a: &str, mid: &Vec<char>, b: &str) -> (r: String)
    ensures
        r@ == a@ + mid@ + b@,
{
    let mut out = chars_of(a);
    push_all(&mut out, mid);
    push_str(&mut out, b);
    string_of(out.as_slice())
}

fn escaped(s: &str) -> (r: Vec<char>)
    ensures
        r@ == esc_of(s@),
{
    let mut out: Vec<char> = Vec::new();
    push_escaped(&mut out, s);
    assert(out@ =~= esc_of(s@));
    out
}

/// Minimal `ComicInfo.xml` for a volume of `page_count` pages.
pub fn comic_info(volume: &Volume, page_count: usize) -> (r: String)
    ensures
        r@ == comic_info_text(volume.metadata, page_count as nat),
{
    let m = &volume.metadata;
    let mut fields: Vec<String> = Vec::new();
    fields.push(field("  <Title>", &escaped(m.display_title().as_str()), "</Title>"));
    fields.push(field("  <Series>", &escaped(m.series.as_str()), "</Series>"));
    fields.push(field("  <PageCount>", &decimal(page_count as u128), "</PageCount>"));
    fields.push(field("  <LanguageISO>", &escaped(m.language.as_str()), "</LanguageISO>"));
    let manga = match m.direction {
        Direction::RightToLeft => "YesAndRightToLeft",
        Direction::LeftToRight => "Yes",
    };
    fields.push(field("  <Manga>", &chars_of(manga), "</Manga>"));
    let ghost head = texts(fields@);
    match m.volume {
        Some(v) => {
            fields.push(field("  <Volume>", &decimal(v as u128), "</Volume>"));
        },
        None => {},
    }
    let ghost with_volume = texts(fields@);
    if !m.author.as_str().is_empty() {
        fields.push(field("  <Writer>", &escaped(m.author.as_str()), "</Writer>"));
    }
    let ghost with_writer = texts(fields@);
    if !m.description.as_str().is_empty() {
        fields.push(field("  <Summary>", &escaped(m.description.as_str()), "</Summary>"));
    }
    assert(texts(fields@) =~= comic_fields(*m, page_count as nat));
    let mut out = chars_of(
        "<?xml version=\"1.0\" encoding=\"utf-8\"?>\n<ComicInfo xmlns:xsi=\"http://www.w3.org/2001/XMLSchema-instance\">\n",
    );
    push_joined(&mut out, &fields);
    push_str(&mut out, "\n</ComicInfo>\n");
    string_of(out.as_slice())
}

/// A page's name in the archive: chapter number (three digits) and page
/// number (four digits), both from one, so every reader sorts them the same.
pub open spec fn cbz_name(chapter: nat, page: nat, ext: Seq<char>) -> Seq<char> {
    zero_padded(decimal_of(chapter), 3) + "_"@ + zero_padded(decimal_of(page), 4) + "."@ + ext
}

/// The entries for a chapter's images, numbered on from `first`.
pub open spec fn named(chapter: nat, first: nat, images: Seq<Rendered>) -> Seq<Entry> {
    Seq::new(
        images.len(),
        |j: int| (cbz_name(chapter, (first + j + 1) as nat, images[j].ext@), true, images[j].bytes@),
    )
}

/// The page entries of the chapters, pages numbered through the volume.
pub open spec fn page_entries(chapters: Seq<Chapter>, rs: Seq<Seq<Rendered>>) -> Seq<Entry>
    decreases chapters.len(),
{
    if chapters.len() == 0 {
        Seq::empty()
    } else {
        let before = volume_pages_of(chapters.drop_last()).len();
        let mine = included_of(chapters.last().pages@).len();
        let first = flat(rs.take(before as int)).len();
        let images = flat(rs.subrange(before as int, (before + mine) as int));
        page_entries(chapters.drop_last(), rs) + named(chapters.len(), first, images)
    }
}

/// The entries of a CBZ: every page image, stored, then `ComicInfo.xml`.
pub open spec fn cbz_entries(v: Volume, rs: Seq<Seq<Rendered>>) -> Seq<Entry> {
    page_entries(v.chapters@, rs) + seq![
        ("ComicInfo.xml"@, false, utf8(comic_info_text(v.metadata, flat(rs).len()))),
    ]
}

proof fn lemma_flat_concat(a: Seq<Seq<Rendered>>, b: Seq<Seq<Rendered>>)
    ensures
        flat(a + b) == flat(a) + flat(b),
    decreases b.len(),
{
    if b.len() == 0 {
        assert(a + b =~= a);
        assert(flat(a) + flat(b) =~= flat(a));
    } else {
        lemma_flat_concat(a, b.drop_last());
        assert((a + b).drop_last() =~= a + b.drop_last());
        assert(flat(a + b) =~= flat(a) + flat(b));
    }
}

proof fn lemma_flat_prefix_len(rs: Seq<Seq<Rendered>>, n: int)
    requires
        0 <= n <= rs.len(),
    ensures
        flat(rs.take(n)).len() <= flat(rs).len(),
{
    lemma_flat_concat(rs.take(n), rs.skip(n));
    assert(rs.take(n) + rs.skip(n) =~= rs);
}

/// The page entries of fewer chapters come first among those of more.
proof fn lemma_page_entries_prefix(chs: Seq<Chapter>, rs: Seq<Seq<Rendered>>, i: int, j: int)
    requires
        0 <= i <= j <= chs.len(),
    ensures
        page_entries(chs.take(i), rs) == page_entries(chs.take(j), rs).take(
            page_entries(chs.take(i), rs).len() as int,
        ),
        page_entries(chs.take(i), rs).len() <= page_entries(chs.take(j), rs).len(),
    decreases j - i,
{
    if i < j {
        lemma_page_entries_prefix(chs, rs, i, j - 1);
        assert(chs.take(j).drop_last() =~= chs.take(j - 1));
        let a = page_entries(chs.take(i), rs);
        let b = page_entries(chs.take(j - 1), rs);
        let c = page_entries(chs.take(j), rs);
        assert(c.take(b.len() as int) =~= b);
        assert(c.take(a.len() as int) =~= b.take(a.len() as int));
    } else {
        let a = page_entries(chs.take(i), rs);
        assert(a.take(a.len() as int) =~= a);
    }
}

/// A chapter's entries for the first `k` of its images are the first entries
/// of those for all of them.
proof fn lemma_named_prefix(chapter: nat, first: nat, images: Seq<Rendered>, k: int)
    requires
        0 <= k <= images.len(),
    ensures
        named(chapter, first, images.take(k)) == named(chapter, first, images).take(k),
{
    assert(named(chapter, first, images.take(k)) =~= named(chapter, first, images).take(k));
}

fn page_entry_name(chapter: usize, page: usize, ext: &str) -> (r: String)
    ensures
        r@ == cbz_name(chapter as nat, page as nat, ext@),
{
    let mut out = decimal_padded(chapter as u128, 3);
    push_str(&mut out, "_");
    push_all(&mut out, &decimal_padded(page as u128, 4));
    push_str(&mut out, ".");
    push_str(&mut out, ext);
    string_of(out.as_slice())
}

/// The CBZ for a volume, given for each page that will be written the images
/// it renders to (two for a split spread).
pub fn write(volume: &Volume, rendered: Vec<Vec<Rendered>>) -> (r: Result<Vec<u8>, WriteError>)
    requires
        rendered@.len() == volume_pages_of(volume.chapters@).len(),
        flat(renders_view(rendered@)).len() < usize::MAX,
        volume.chapters@.len() < usize::MAX,
    ensures
        r matches Ok(b) ==> b@ == zip_archive(cbz_entries(*volume, renders_view(rendered@))),
        r matches Err(e) ==> e == WriteError::Archive,
        archive_ok(cbz_entries(*volume, renders_view(rendered@))) ==> r is Ok,
{
    let ghost rs = renders_view(rendered@);
    let ghost whole = cbz_entries(*volume, rs);
    proof {
        assert(volume.chapters@.take(volume.chapters@.len() as int) =~= volume.chapters@);
        assert(whole.take(page_entries(volume.chapters@, rs).len() as int) =~= page_entries(
            volume.chapters@,
            rs,
        ));
    }
    let ghost pages = volume_pages_of(volume.chapters@);
    let total = rendered.len();
    let mut rest = rendered;
    let mut a = Archive::new();
    let mut done: usize = 0;
    let mut page_no: usize = 0;
    let mut ci: usize = 0;
    assert(volume.chapters@.take(0) =~= Seq::<Chapter>::empty());
    assert(rs.take(0) =~= Seq::<Seq<Rendered>>::empty());
    while ci < volume.chapters.len()
        invariant
            ci <= volume.chapters@.len(),
            volume.chapters@.len() < usize::MAX,
            rs.len() == total,
            rs.len() == pages.len(),
            pages == volume_pages_of(volume.chapters@),
            done == volume_pages_of(volume.chapters@.take(ci as int)).len(),
            done <= rs.len(),
            renders_view(rest@) == rs.skip(done as int),
            page_no == flat(rs.take(done as int)).len(),
            flat(rs).len() < usize::MAX,
            a.entries() == page_entries(volume.chapters@.take(ci as int), rs),
            whole == cbz_entries(*volume, rs),
            whole.take(page_entries(volume.chapters@, rs).len() as int) == page_entries(
                volume.chapters@,
                rs,
            ),
            rs == renders_view(rendered@),
        decreases volume.chapters@.len() - ci,
    {
        let chapter = &volume.chapters[ci];
        let inc = chapter.included();
        let ghost t = volume.chapters@.take(ci + 1);
        proof {
            assert(t.drop_last() =~= volume.chapters@.take(ci as int));
            assert(t.last() == volume.chapters@[ci as int]);
            crate::writers::epub::lemma_pages_prefix(volume.chapters@, ci + 1);
        }
        let ghost before = done;
        let ghost first = page_no;
        let ghost head = a.entries();
        let ghost mut images: Seq<Rendered> = Seq::empty();
        let ghost mine = inc@.len();
        let ghost chapter_images = flat(rs.subrange(before as int, (before + mine) as int));
        let ghost whole_chapter = head + named((ci + 1) as nat, first as nat, chapter_images);
        proof {
            assert(t.len() == ci + 1);
            assert(page_entries(t, rs) == whole_chapter);
            lemma_page_entries_prefix(volume.chapters@, rs, ci + 1, volume.chapters@.len() as int);
            assert(volume.chapters@.take(volume.chapters@.len() as int) =~= volume.chapters@);
            let all = page_entries(volume.chapters@, rs);
            assert(whole_chapter == all.take(whole_chapter.len() as int));
            assert(whole.take(whole_chapter.len() as int) =~= all.take(whole_chapter.len() as int));
            if archive_ok(whole) {
                lemma_archive_ok_prefix(whole, whole_chapter.len() as int);
                assert(whole.take(whole_chapter.len() as int) =~= whole_chapter);
            }
        }
        let mut pi: usize = 0;
        assert(rs.subrange(before as int, done as int) =~= Seq::<Seq<Rendered>>::empty());
        assert(head + named((ci + 1) as nat, first as nat, images) =~= head);
        while pi < inc.len()
            invariant
                pi <= inc@.len(),
                inc@.len() == included_of(chapter.pages@).len(),
                volume_pages_of(t) == volume_pages_of(volume.chapters@.take(ci as int))
                    + included_of(chapter.pages@),
                volume_pages_of(t).len() <= pages.len(),
                ci < usize::MAX,
                before == volume_pages_of(volume.chapters@.take(ci as int)).len(),
                done == before + pi,
                rs.len() == total,
                rs.len() == pages.len(),
                renders_view(rest@) == rs.skip(done as int),
                first == flat(rs.take(before as int)).len(),
                images == flat(rs.subrange(before as int, done as int)),
                page_no == first + images.len(),
                flat(rs).len() < usize::MAX,
                a.entries() == head + named((ci + 1) as nat, first as nat, images),
                mine == inc@.len(),
                chapter_images == flat(rs.subrange(before as int, (before + mine) as int)),
                whole_chapter == head + named((ci + 1) as nat, first as nat, chapter_images),
                archive_ok(whole) ==> archive_ok(whole_chapter),
                whole == cbz_entries(*volume, rs),
                rs == renders_view(rendered@),
            decreases inc@.len() - pi,
        {
            let ghost rbefore = rest@;
            assert(done < rs.len());
            assert(renders_view(rest@).len() == rest@.len());
            let mut renders = rest.remove(0);
            proof {
                assert(renders_view(rbefore)[0] == rs.skip(done as int)[0]);
                assert(renders_view(rbefore)[0] == rbefore[0]@);
                assert(renders@ == rs[done as int]);
                assert(renders_view(rest@) =~= rs.skip(done + 1)) by {
                    assert forall|j: int| 0 <= j < rest@.len() implies renders_view(rest@)[j]
                        == rs.skip(done + 1)[j] by {
                        assert(rest@[j] == rbefore[j + 1]);
                        assert(renders_view(rbefore)[j + 1] == rs.skip(done as int)[j + 1]);
                        assert(renders_view(rbefore)[j + 1] == rbefore[j + 1]@);
                        assert(renders_view(rest@)[j] == rest@[j]@);
                    }
                }
                assert(rs.subrange(before as int, done + 1).drop_last() =~= rs.subrange(
                    before as int,
                    done as int,
                ));
                assert(flat(rs.subrange(before as int, done + 1)) == images + rs[done as int]);
                lemma_flat_concat(rs.take(before as int), rs.subrange(before as int, done + 1));
                assert(rs.take(before as int) + rs.subrange(before as int, done + 1) =~= rs.take(
                    done + 1,
                ));
                lemma_flat_prefix_len(rs, done + 1);
                lemma_flat_concat(
                    rs.subrange(before as int, done + 1),
                    rs.subrange(done + 1, (before + mine) as int),
                );
                assert(rs.subrange(before as int, done + 1) + rs.subrange(
                    done + 1,
                    (before + mine) as int,
                ) =~= rs.subrange(before as int, (before + mine) as int));
                assert(chapter_images.take((images.len() + rs[done as int].len()) as int)
                    =~= images + rs[done as int]);
            }
            let ghost page_renders = renders@;
            let ghost images0 = images;
            let mut q: usize = 0;
            assert(images0 + page_renders.take(0) =~= images0);
            while renders.len() > 0
                invariant
                    q <= page_renders.len(),
                    renders@ == page_renders.skip(q as int),
                    images0 + page_renders.take(q as int) == images,
                    first + images0.len() + page_renders.len() <= flat(rs).len(),
                    flat(rs).len() < usize::MAX,
                    page_no == first + images.len(),
                    ci < usize::MAX,
                    a.entries() == head + named((ci + 1) as nat, first as nat, images),
                    images0.len() + page_renders.len() <= chapter_images.len(),
                    chapter_images.take((images0.len() + page_renders.len()) as int) == images0
                        + page_renders,
                    whole_chapter == head + named((ci + 1) as nat, first as nat, chapter_images),
                    archive_ok(whole) ==> archive_ok(whole_chapter),
                    whole == cbz_entries(*volume, rs),
                    rs == renders_view(rendered@),
                decreases renders@.len(),
            {
                let r = renders.remove(0);
                assert(r == page_renders[q as int]);
                assert(renders@ =~= page_renders.skip(q + 1));
                page_no = page_no + 1;
                let name = page_entry_name(ci + 1, page_no, r.ext);
                proof {
                    let k: int = images.len() as int + 1;
                    let next = images.push(r);
                    assert(next =~= chapter_images.take(k)) by {
                        assert(chapter_images.take(k) =~= (images0 + page_renders).take(k));
                        assert(page_renders.take(q + 1) =~= page_renders.take(q as int).push(r));
                    }
                    lemma_named_prefix((ci + 1) as nat, first as nat, chapter_images, k);
                    let e = (name@, true, r.bytes@);
                    assert(named((ci + 1) as nat, first as nat, next) =~= named(
                        (ci + 1) as nat,
                        first as nat,
                        images,
                    ).push(e));
                    assert(a.entries().push(e) =~= whole_chapter.take(head.len() as int + k));
                    if archive_ok(whole) {
                        lemma_archive_ok_prefix(whole_chapter, head.len() as int + k);
                        lemma_archive_ok_last(a.entries(), e);
                    }
                }
                if let Err(e) = a.add(name.as_str(), true, r.bytes.as_slice()) {
                    return Err(e);
                }
                proof {
                    assert(page_renders.take(q + 1) =~= page_renders.take(q as int).push(r));
                    let old_images = images;
                    images = images.push(r);
                    assert(images0 + page_renders.take(q + 1) =~= images);
                    assert(named((ci + 1) as nat, first as nat, images) =~= named(
                        (ci + 1) as nat,
                        first as nat,
                        old_images,
                    ).push((cbz_name((ci + 1) as nat, page_no as nat, r.ext@), true, r.bytes@)));
                    assert(a.entries() =~= head + named((ci + 1) as nat, first as nat, images));
                }
                q = q + 1;
            }
            proof {
                assert(page_renders.take(q as int) =~= page_renders);
            }
            done = done + 1;
            pi = pi + 1;
        }
        proof {
            assert(page_entries(t, rs) == page_entries(volume.chapters@.take(ci as int), rs) + named(
                t.len(),
                first as nat,
                images,
            ));
            lemma_flat_concat(rs.take(before as int), rs.subrange(before as int, done as int));
            assert(rs.take(before as int) + rs.subrange(before as int, done as int) =~= rs.take(
                done as int,
            ));
        }
        ci = ci + 1;
    }
    proof {
        assert(volume.chapters@.take(ci as int) =~= volume.chapters@);
        assert(rs.take(done as int) =~= rs);
    }
    let info = comic_info(volume, page_no);
    proof {
        let e = ("ComicInfo.xml"@, false, utf8(info@));
        assert(a.entries().push(e) =~= whole);
        if archive_ok(whole) {
            lemma_archive_ok_last(a.entries(), e);
        }
    }
    if let Err(e) = a.add("ComicInfo.xml", false, info.as_str().as_bytes()) {
        return Err(e);
    }
    assert(a.entries() =~= cbz_entries(*volume, rs));
    a.finish()
}

} // verus!
