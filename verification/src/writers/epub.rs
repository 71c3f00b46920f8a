//! EPUB 3 fixed-layout documents, tuned for Kindle.
//!
//! To get comic behaviour rather than a reflowable text book, the package needs
//! `rendition:layout` set to `pre-paginated`, a per-page viewport that matches
//! the image exactly, and Amazon's own `book-type`/`fixed-layout` hints, which
//! use EPUB 2 style `name`/`content` meta elements. A double-page spread kept
//! whole is marked `rendition:page-spread-center`, so readers show it as one
//! image.
use vstd::prelude::*;

use crate::page::{file_name_chars, name_extension, path_extension, Page, PageKind};
use crate::project::{display_title_of, included_of, volume_pages_of, Chapter, Direction, Metadata, Volume};
use crate::writers::archive::{
    archive_ok, entries_fit, lemma_archive_ok_next, name_fits, name_unused, zip_archive, Archive,
    Entry, WriteError,
};
use crate::writers::Rendered;
use crate::text::{chars_of, decimal, decimal_of, decimal_padded, eq_str, lower_seq, lowered, push_all, push_str, string_of, texts, zero_padded};
use crate::writers::{esc_of, media_type, media_type_of, push_escaped};

verus! {

/// One image plus the page document that displays it.
pub struct Slot {
    /// Stem shared by the image and its page document, e.g. `p0001`.
    pub stem: String,
    pub ext: &'static str,
    pub width: u32,
    pub height: u32,
    pub spread: bool,
    pub bytes: Vec<u8>,
}

/// `images/<stem>.<ext>`.
pub open spec fn image_href_of(stem: Seq<char>, ext: Seq<char>) -> Seq<char> {
    "images/"@ + stem + "."@ + ext
}

/// `text/<stem>.xhtml`.
pub open spec fn page_href_of(stem: Seq<char>) -> Seq<char> {
    "text/"@ + stem + ".xhtml"@
}

impl Slot {
    /// Where the image is stored, relative to the package document.
    pub fn image_href(&self) -> (r: String)
        ensures
            r@ == image_href_of(self.stem@, self.ext@),
    {
        let mut out = chars_of("images/");
        push_str(&mut out, self.stem.as_str());
        push_str(&mut out, ".");
        push_str(&mut out, self.ext);
        string_of(out.as_slice())
    }

    /// Where the page document is stored, relative to the package document.
    pub fn page_href(&self) -> (r: String)
        ensures
            r@ == page_href_of(self.stem@),
    {
        let mut out = chars_of("text/");
        push_str(&mut out, self.stem.as_str());
        push_str(&mut out, ".xhtml");
        string_of(out.as_slice())
    }
}

/// Where a chapter begins in the slot list, for the tables of contents.
pub struct ChapterStart {
    pub title: String,
    pub slot: usize,
}

/// Lines joined by line breaks.
pub open spec fn joined(ls: Seq<Seq<char>>) -> Seq<char>
    decreases ls.len(),
{
    if ls.len() == 0 {
        Seq::empty()
    } else if ls.len() == 1 {
        ls[0]
    } else {
        joined(ls.drop_last()) + "\n"@ + ls.last()
    }
}

/// Append `lines`, joined by line breaks, to `out`.
pub fn push_joined(out: &mut Vec<char>, lines: &Vec<String>)
    ensures
        final(out)@ == old(out)@ + joined(texts(lines@)),
{
    let ghost base = out@;
    let mut i: usize = 0;
    assert(texts(lines@).take(0) =~= Seq::<Seq<char>>::empty());
    assert(base + Seq::<char>::empty() =~= base);
    while i < lines.len()
        invariant
            i <= lines@.len(),
            base == old(out)@,
            out@ == base + joined(texts(lines@).take(i as int)),
        decreases lines@.len() - i,
    {
        let ghost t = texts(lines@).take(i + 1);
        assert(t.drop_last() =~= texts(lines@).take(i as int));
        assert(t.last() == lines@[i as int]@);
        if i > 0 {
            push_str(out, "\n");
        }
        push_str(out, lines[i].as_str());
        proof {
            if i == 0 {
                assert(t =~= seq![lines@[0]@]);
            }
            assert(out@ =~= base + joined(t));
        }
        i = i + 1;
    }
    assert(texts(lines@).take(i as int) =~= texts(lines@));
}

/// The identifier a package declares: the volume's own, or one derived from
/// its title when it has none.
pub open spec fn opf_identifier(m: Metadata) -> Seq<char> {
    if m.identifier@.len() == 0 {
        "urn:mangalize:"@ + display_title_of(m.series@, m.volume)
    } else {
        m.identifier@
    }
}

/// The package metadata lines: Dublin Core, series, the EPUB 3 fixed-layout
/// declarations, and the Kindle hints (book type, fixed layout, no gutter or
/// margin, no region magnification, the canvas as `original-resolution`, and
/// the writing mode).
pub open spec fn opf_meta_lines(m: Metadata, canvas: (u32, u32), modified: Seq<char>) -> Seq<
    Seq<char>,
> {
    meta_head(m, modified) + meta_author(m) + meta_description(m) + meta_series(m) + meta_tail(
        m,
        canvas,
    )
}

/// Identifier, title, language and modification time.
pub open spec fn meta_head(m: Metadata, modified: Seq<char>) -> Seq<Seq<char>> {
    seq![
        "    <dc:identifier id=\"bookid\">"@ + esc_of(opf_identifier(m)) + "</dc:identifier>"@,
        "    <dc:title>"@ + esc_of(display_title_of(m.series@, m.volume)) + "</dc:title>"@,
        "    <dc:language>"@ + esc_of(m.language@) + "</dc:language>"@,
        "    <meta property=\"dcterms:modified\">"@ + modified + "</meta>"@,
    ]
}

/// The author as creator, when there is one.
pub open spec fn meta_author(m: Metadata) -> Seq<Seq<char>> {
    if m.author@.len() > 0 {
        seq![
            "    <dc:creator id=\"author\">"@ + esc_of(m.author@) + "</dc:creator>"@,
            "    <meta refines=\"#author\" property=\"role\" scheme=\"marc:relators\">aut</meta>"@,
        ]
    } else {
        Seq::empty()
    }
}

/// The description, when there is one.
pub open spec fn meta_description(m: Metadata) -> Seq<Seq<char>> {
    if m.description@.len() > 0 {
        seq!["    <dc:description>"@ + esc_of(m.description@) + "</dc:description>"@]
    } else {
        Seq::empty()
    }
}

/// The series collection and the volume's place in it, when there is a series.
pub open spec fn meta_series(m: Metadata) -> Seq<Seq<char>> {
    if m.series@.len() > 0 {
        seq![
            "    <meta property=\"belongs-to-collection\" id=\"series\">"@ + esc_of(m.series@)
                + "</meta>"@,
            "    <meta refines=\"#series\" property=\"collection-type\">series</meta>"@,
        ] + match m.volume {
            Some(v) => seq![
                "    <meta refines=\"#series\" property=\"group-position\">"@ + decimal_of(
                    v as nat,
                ) + "</meta>"@,
            ],
            None => Seq::empty(),
        }
    } else {
        Seq::empty()
    }
}

/// The fixed-layout declarations and Kindle hints.
pub open spec fn meta_tail(m: Metadata, canvas: (u32, u32)) -> Seq<Seq<char>> {
    seq![
        "    <meta property=\"rendition:layout\">pre-paginated</meta>"@,
        "    <meta property=\"rendition:orientation\">auto</meta>"@,
        "    <meta property=\"rendition:spread\">landscape</meta>"@,
        "    <meta name=\"cover\" content=\"img-1\"/>"@,
        "    <meta name=\"book-type\" content=\"comic\"/>"@,
        "    <meta name=\"fixed-layout\" content=\"true\"/>"@,
        "    <meta name=\"zero-gutter\" content=\"true\"/>"@,
        "    <meta name=\"zero-margin\" content=\"true\"/>"@,
        "    <meta name=\"RegionMagnification\" content=\"false\"/>"@,
        "    <meta name=\"original-resolution\" content=\""@ + decimal_of(canvas.0 as nat) + "x"@
            + decimal_of(canvas.1 as nat) + "\"/>"@,
        "    <meta name=\"primary-writing-mode\" content=\""@ + (match m.direction {
            Direction::RightToLeft => "horizontal-rl"@,
            Direction::LeftToRight => "horizontal-lr"@,
        }) + "\"/>"@,
    ]
}

fn line(a: &str, mid: &Vec<char>, b: &str) -> (r: String)
    ensures
        r@ == a@ + mid@ + b@,
{
    let mut out = chars_of(a);
    push_all(&mut out, mid);
    push_str(&mut out, b);
    string_of(out.as_slice())
}

fn escaped(s: &str) -> (r: Vec<char>)
    ensures
        r@ == esc_of(s@),
{
    let mut out: Vec<char> = Vec::new();
    push_escaped(&mut out, s);
    assert(out@ =~= esc_of(s@));
    out
}

#[verifier::spinoff_prover]
#[verifier::rlimit(40)]
fn opf_meta(m: &Metadata, canvas: (u32, u32), modified: &str) -> (r: Vec<String>)
    ensures
        texts(r@) == opf_meta_lines(*m, canvas, modified@),
{
    let mut ls: Vec<String> = Vec::new();
    let identifier = if m.identifier.as_str().is_empty() {
        let mut id = chars_of("urn:mangalize:");
        push_str(&mut id, m.display_title().as_str());
        string_of(id.as_slice())
    } else {
        m.identifier.clone()
    };
    ls.push(line("    <dc:identifier id=\"bookid\">", &escaped(identifier.as_str()), "</dc:identifier>"));
    ls.push(line("    <dc:title>", &escaped(m.display_title().as_str()), "</dc:title>"));
    ls.push(line("    <dc:language>", &escaped(m.language.as_str()), "</dc:language>"));
    ls.push(line("    <meta property=\"dcterms:modified\">", &chars_of(modified), "</meta>"));
    assert(texts(ls@) =~= meta_head(*m, modified@));
    let ghost head = texts(ls@);
    if !m.author.as_str().is_empty() {
        ls.push(line("    <dc:creator id=\"author\">", &escaped(m.author.as_str()), "</dc:creator>"));
        ls.push(
            String::from_str(
                "    <meta refines=\"#author\" property=\"role\" scheme=\"marc:relators\">aut</meta>",
            ),
        );
    }
    assert(texts(ls@) =~= head + meta_author(*m));
    let ghost with_author = texts(ls@);
    if !m.description.as_str().is_empty() {
        ls.push(
            line("    <dc:description>", &escaped(m.description.as_str()), "</dc:description>"),
        );
    }
    assert(texts(ls@) =~= with_author + meta_description(*m));
    let ghost with_description = texts(ls@);
    if !m.series.as_str().is_empty() {
        ls.push(
            line(
                "    <meta property=\"belongs-to-collection\" id=\"series\">",
                &escaped(m.series.as_str()),
                "</meta>",
            ),
        );
        ls.push(
            String::from_str("    <meta refines=\"#series\" property=\"collection-type\">series</meta>"),
        );
        match m.volume {
            Some(v) => {
                ls.push(
                    line(
                        "    <meta refines=\"#series\" property=\"group-position\">",
                        &decimal(v as u128),
                        "</meta>",
                    ),
                );
            },
            None => {},
        }
    }
    assert(texts(ls@) =~= with_description + meta_series(*m));
    let ghost with_series = texts(ls@);
    ls.push(String::from_str("    <meta property=\"rendition:layout\">pre-paginated</meta>"));
    ls.push(String::from_str("    <meta property=\"rendition:orientation\">auto</meta>"));
    ls.push(String::from_str("    <meta property=\"rendition:spread\">landscape</meta>"));
    ls.push(String::from_str("    <meta name=\"cover\" content=\"img-1\"/>"));
    ls.push(String::from_str("    <meta name=\"book-type\" content=\"comic\"/>"));
    ls.push(String::from_str("    <meta name=\"fixed-layout\" content=\"true\"/>"));
    ls.push(String::from_str("    <meta name=\"zero-gutter\" content=\"true\"/>"));
    ls.push(String::from_str("    <meta name=\"zero-margin\" content=\"true\"/>"));
    ls.push(String::from_str("    <meta name=\"RegionMagnification\" content=\"false\"/>"));
    assert(texts(ls@) =~= with_series + meta_tail(*m, canvas).take(9));
    let ghost nine = texts(ls@);
    let mut size = decimal(canvas.0 as u128);
    push_str(&mut size, "x");
    push_all(&mut size, &decimal(canvas.1 as u128));
    let res = line("    <meta name=\"original-resolution\" content=\"", &size, "\"/>");
    assert(res@ == meta_tail(*m, canvas)[9]);
    ls.push(res);
    let mode = match m.direction {
        Direction::RightToLeft => "horizontal-rl",
        Direction::LeftToRight => "horizontal-lr",
    };
    let wm = line("    <meta name=\"primary-writing-mode\" content=\"", &chars_of(mode), "\"/>");
    assert(wm@ == meta_tail(*m, canvas)[10]);
    ls.push(wm);
    assert(meta_tail(*m, canvas) =~= meta_tail(*m, canvas).take(9).push(meta_tail(*m, canvas)[9]).push(
        meta_tail(*m, canvas)[10],
    ));
    assert(texts(ls@) =~= with_series + meta_tail(*m, canvas));
    ls
}

/// The manifest entries for the slots from index `from` on: for each, its
/// image (the first marked as the cover) and its page document.
pub open spec fn slot_items(slots: Seq<Slot>) -> Seq<Seq<char>>
    decreases slots.len(),
{
    if slots.len() == 0 {
        Seq::empty()
    } else {
        let i = slots.len() - 1;
        let n = decimal_of(slots.len());
        let s = slots.last();
        slot_items(slots.drop_last()) + seq![
            "    <item id=\"img-"@ + n + "\" href=\""@ + image_href_of(s.stem@, s.ext@)
                + "\" media-type=\""@ + media_type_of(s.ext@) + "\""@ + (if i == 0 {
                " properties=\"cover-image\""@
            } else {
                Seq::empty()
            }) + "/>"@,
            "    <item id=\"page-"@ + n + "\" href=\""@ + page_href_of(s.stem@)
                + "\" media-type=\"application/xhtml+xml\"/>"@,
        ]
    }
}

/// The spine: every page document, in order, a spread marked to be shown
/// across the centre as one image.
pub open spec fn spine_items(slots: Seq<Slot>) -> Seq<Seq<char>>
    decreases slots.len(),
{
    if slots.len() == 0 {
        Seq::empty()
    } else {
        spine_items(slots.drop_last()) + seq![
            "    <itemref idref=\"page-"@ + decimal_of(slots.len()) + "\""@ + (if slots.last().spread {
                " properties=\"rendition:page-spread-center\""@
            } else {
                Seq::empty()
            }) + "/>"@,
        ]
    }
}

/// The manifest: navigation, table of contents and style sheet, then the slots.
pub open spec fn opf_manifest_lines(slots: Seq<Slot>) -> Seq<Seq<char>> {
    seq![
        "    <item id=\"nav\" href=\"nav.xhtml\" media-type=\"application/xhtml+xml\" properties=\"nav\"/>"@,
        "    <item id=\"ncx\" href=\"toc.ncx\" media-type=\"application/x-dtbncx+xml\"/>"@,
        "    <item id=\"css\" href=\"style.css\" media-type=\"text/css\"/>"@,
    ] + slot_items(slots)
}

/// The package document of a book.
pub open spec fn opf_text(m: Metadata, slots: Seq<Slot>, canvas: (u32, u32), modified: Seq<char>) -> Seq<
    char,
> {
    "<?xml version=\"1.0\" encoding=\"utf-8\"?>\n<package xmlns=\"http://www.idpf.org/2007/opf\" version=\"3.0\" unique-identifier=\"bookid\"\n         prefix=\"rendition: http://www.idpf.org/vocab/rendition/#\">\n  <metadata xmlns:dc=\"http://purl.org/dc/elements/1.1/\">\n"@
        + joined(opf_meta_lines(m, canvas, modified)) + "\n  </metadata>\n  <manifest>\n"@ + joined(
        opf_manifest_lines(slots),
    ) + "\n  </manifest>\n  <spine toc=\"ncx\" page-progression-direction=\""@ + (match m.direction {
        Direction::RightToLeft => "rtl"@,
        Direction::LeftToRight => "ltr"@,
    }) + "\">\n"@ + joined(spine_items(slots))
        + "\n  </spine>\n  <guide>\n    <reference type=\"cover\" href=\""@ + page_href_of(
        slots[0].stem@,
    ) + "\" title=\"Cover\"/>\n  </guide>\n</package>\n"@
}

/// The package document at a given modification time (`dcterms:modified`).
pub fn content_opf_at(m: &Metadata, slots: &Vec<Slot>, canvas: (u32, u32), modified: &str) -> (r:
    String)
    requires
        slots@.len() > 0,
    ensures
        r@ == opf_text(*m, slots@, canvas, modified@),
{
    let meta = opf_meta(m, canvas, modified);
    let mut manifest: Vec<String> = Vec::new();
    manifest.push(
        String::from_str(
            "    <item id=\"nav\" href=\"nav.xhtml\" media-type=\"application/xhtml+xml\" properties=\"nav\"/>",
        ),
    );
    manifest.push(
        String::from_str(
            "    <item id=\"ncx\" href=\"toc.ncx\" media-type=\"application/x-dtbncx+xml\"/>",
        ),
    );
    manifest.push(
        String::from_str("    <item id=\"css\" href=\"style.css\" media-type=\"text/css\"/>"),
    );
    let ghost fixed = texts(manifest@);
    let mut spine: Vec<String> = Vec::new();
    let mut i: usize = 0;
    assert(slots@.take(0) =~= Seq::<Slot>::empty());
    assert(fixed + Seq::<Seq<char>>::empty() =~= fixed);
    assert(texts(spine@) =~= spine_items(slots@.take(0)));
    while i < slots.len()
        invariant
            i <= slots@.len(),
            texts(manifest@) == fixed + slot_items(slots@.take(i as int)),
            texts(spine@) == spine_items(slots@.take(i as int)),
        decreases slots@.len() - i,
    {
        let ghost t = slots@.take(i + 1);
        assert(t.drop_last() =~= slots@.take(i as int));
        assert(t.last() == slots@[i as int]);
        let n = decimal((i + 1) as u128);
        let slot = &slots[i];
        let mut img = chars_of("    <item id=\"img-");
        push_all(&mut img, &n);
        push_str(&mut img, "\" href=\"");
        push_str(&mut img, slot.image_href().as_str());
        push_str(&mut img, "\" media-type=\"");
        push_str(&mut img, media_type(slot.ext));
        push_str(&mut img, "\"");
        if i == 0 {
            push_str(&mut img, " properties=\"cover-image\"");
        }
        push_str(&mut img, "/>");
        let ghost before = texts(manifest@);
        let img = string_of(img.as_slice());
        assert(img@ == "    <item id=\"img-"@ + decimal_of(t.len()) + "\" href=\""@ + image_href_of(
            t.last().stem@,
            t.last().ext@,
        ) + "\" media-type=\""@ + media_type_of(t.last().ext@) + "\""@ + (if t.len() - 1 == 0 {
            " properties=\"cover-image\""@
        } else {
            Seq::empty()
        }) + "/>"@);
        manifest.push(img);
        let mut page = chars_of("    <item id=\"page-");
        push_all(&mut page, &n);
        push_str(&mut page, "\" href=\"");
        push_str(&mut page, slot.page_href().as_str());
        push_str(&mut page, "\" media-type=\"application/xhtml+xml\"/>");
        let page = string_of(page.as_slice());
        manifest.push(page);
        assert(texts(manifest@) =~= before.push(img@).push(page@));
        let mut item = chars_of("    <itemref idref=\"page-");
        push_all(&mut item, &n);
        push_str(&mut item, "\"");
        if slot.spread {
            push_str(&mut item, " properties=\"rendition:page-spread-center\"");
        }
        push_str(&mut item, "/>");
        spine.push(string_of(item.as_slice()));
        proof {
            assert(texts(manifest@) =~= fixed + slot_items(t));
            assert(texts(spine@) =~= spine_items(t));
        }
        i = i + 1;
    }
    assert(slots@.take(i as int) =~= slots@);
    let mut out = chars_of(
        "<?xml version=\"1.0\" encoding=\"utf-8\"?>\n<package xmlns=\"http://www.idpf.org/2007/opf\" version=\"3.0\" unique-identifier=\"bookid\"\n         prefix=\"rendition: http://www.idpf.org/vocab/rendition/#\">\n  <metadata xmlns:dc=\"http://purl.org/dc/elements/1.1/\">\n",
    );
    push_joined(&mut out, &meta);
    push_str(&mut out, "\n  </metadata>\n  <manifest>\n");
    push_joined(&mut out, &manifest);
    push_str(&mut out, "\n  </manifest>\n  <spine toc=\"ncx\" page-progression-direction=\"");
    push_str(&mut out, m.direction.epub_ppd());
    push_str(&mut out, "\">\n");
    push_joined(&mut out, &spine);
    push_str(&mut out, "\n  </spine>\n  <guide>\n    <reference type=\"cover\" href=\"");
    push_str(&mut out, slots[0].page_href().as_str());
    push_str(&mut out, "\" title=\"Cover\"/>\n  </guide>\n</package>\n");
    assert(texts(manifest@) =~= opf_manifest_lines(slots@));
    assert(out@ =~= opf_text(*m, slots@, canvas, modified@));
    string_of(out.as_slice())
}

/// The package document of a volume, stamped with the current time.
pub fn content_opf(volume: &Volume, slots: &Vec<Slot>, canvas: (u32, u32)) -> (r: String)
    requires
        slots@.len() > 0,
    ensures
        exists|secs: i64|
            r@ == opf_text(volume.metadata, slots@, canvas, crate::writers::timestamp::utc_text(secs as int)),
{
    let modified = crate::writers::timestamp::now_utc();
    content_opf_at(&volume.metadata, slots, canvas, modified.as_str())
}

/// The document for one page: its viewport is its own image's size, which
/// is what keeps a fixed-layout reader from letterboxing a spread.
pub open spec fn page_text(stem: Seq<char>, ext: Seq<char>, width: u32, height: u32) -> Seq<char> {
    "<?xml version=\"1.0\" encoding=\"utf-8\"?>\n<!DOCTYPE html>\n<html xmlns=\"http://www.w3.org/1999/xhtml\" xmlns:epub=\"http://www.idpf.org/2007/ops\">\n<head>\n  <meta charset=\"utf-8\"/>\n  <title>"@
        + stem + "</title>\n  <meta name=\"viewport\" content=\"width="@ + decimal_of(width as nat)
        + ", height="@ + decimal_of(height as nat)
        + "\"/>\n  <link href=\"../style.css\" rel=\"stylesheet\" type=\"text/css\"/>\n</head>\n<body>\n  <div class=\"page\"><img src=\"../"@
        + image_href_of(stem, ext) + "\" alt=\"\" width=\""@ + decimal_of(width as nat)
        + "\" height=\""@ + decimal_of(height as nat)
        + "\"/></div>\n</body>\n</html>\n"@
}

/// The document for one page, with the page's own size as its viewport.
pub fn page_xhtml(slot: &Slot) -> (r: String)
    ensures
        r@ == page_text(slot.stem@, slot.ext@, slot.width, slot.height),
{
    let mut out = chars_of(
        "<?xml version=\"1.0\" encoding=\"utf-8\"?>\n<!DOCTYPE html>\n<html xmlns=\"http://www.w3.org/1999/xhtml\" xmlns:epub=\"http://www.idpf.org/2007/ops\">\n<head>\n  <meta charset=\"utf-8\"/>\n  <title>",
    );
    push_str(&mut out, slot.stem.as_str());
    push_str(&mut out, "</title>\n  <meta name=\"viewport\" content=\"width=");
    push_all(&mut out, &decimal(slot.width as u128));
    push_str(&mut out, ", height=");
    push_all(&mut out, &decimal(slot.height as u128));
    push_str(
        &mut out,
        "\"/>\n  <link href=\"../style.css\" rel=\"stylesheet\" type=\"text/css\"/>\n</head>\n<body>\n  <div class=\"page\"><img src=\"../",
    );
    push_str(&mut out, slot.image_href().as_str());
    push_str(&mut out, "\" alt=\"\" width=\"");
    push_all(&mut out, &decimal(slot.width as u128));
    push_str(&mut out, "\" height=\"");
    push_all(&mut out, &decimal(slot.height as u128));
    push_str(&mut out, "\"/></div>\n</body>\n</html>\n");
    assert(out@ =~= page_text(slot.stem@, slot.ext@, slot.width, slot.height));
    string_of(out.as_slice())
}

/// Whether every chapter start names a slot.
pub open spec fn starts_in_range(slots: Seq<Slot>, starts: Seq<ChapterStart>) -> bool {
    forall|k: int| 0 <= k < starts.len() ==> (#[trigger] starts[k]).slot < slots.len()
}

/// The table-of-contents entries of the navigation document.
pub open spec fn nav_items(slots: Seq<Slot>, starts: Seq<ChapterStart>) -> Seq<Seq<char>>
    decreases starts.len(),
{
    if starts.len() == 0 {
        Seq::empty()
    } else {
        let c = starts.last();
        nav_items(slots, starts.drop_last()) + seq![
            "      <li><a href=\""@ + page_href_of(slots[c.slot as int].stem@) + "\">"@ + esc_of(
                c.title@,
            ) + "</a></li>"@,
        ]
    }
}

/// The EPUB 3 navigation document: the chapters, and the cover as a landmark.
pub open spec fn nav_text(m: Metadata, slots: Seq<Slot>, starts: Seq<ChapterStart>) -> Seq<char> {
    let title = esc_of(display_title_of(m.series@, m.volume));
    "<?xml version=\"1.0\" encoding=\"utf-8\"?>\n<!DOCTYPE html>\n<html xmlns=\"http://www.w3.org/1999/xhtml\" xmlns:epub=\"http://www.idpf.org/2007/ops\">\n<head>\n  <meta charset=\"utf-8\"/>\n  <title>"@
        + title + "</title>\n</head>\n<body>\n  <nav epub:type=\"toc\" id=\"toc\">\n    <h1>"@ + title
        + "</h1>\n    <ol>\n"@ + joined(nav_items(slots, starts))
        + "\n    </ol>\n  </nav>\n  <nav epub:type=\"landmarks\" hidden=\"hidden\">\n    <ol>\n      <li><a epub:type=\"cover\" href=\""@
        + page_href_of(slots[0].stem@)
        + "\">Cover</a></li>\n    </ol>\n  </nav>\n</body>\n</html>\n"@
}

/// The navigation document of a volume.
pub fn nav_xhtml(volume: &Volume, slots: &Vec<Slot>, starts: &Vec<ChapterStart>) -> (r: String)
    requires
        slots@.len() > 0,
        starts_in_range(slots@, starts@),
    ensures
        r@ == nav_text(volume.metadata, slots@, starts@),
{
    let mut items: Vec<String> = Vec::new();
    let mut i: usize = 0;
    assert(starts@.take(0) =~= Seq::<ChapterStart>::empty());
    while i < starts.len()
        invariant
            i <= starts@.len(),
            starts_in_range(slots@, starts@),
            texts(items@) == nav_items(slots@, starts@.take(i as int)),
        decreases starts@.len() - i,
    {
        let ghost t = starts@.take(i + 1);
        assert(t.drop_last() =~= starts@.take(i as int));
        assert(t.last() == starts@[i as int]);
        let c = &starts[i];
        assert(c.slot < slots@.len());
        let mut item = chars_of("      <li><a href=\"");
        push_str(&mut item, slots[c.slot].page_href().as_str());
        push_str(&mut item, "\">");
        push_escaped(&mut item, c.title.as_str());
        push_str(&mut item, "</a></li>");
        items.push(string_of(item.as_slice()));
        assert(texts(items@) =~= nav_items(slots@, t));
        i = i + 1;
    }
    assert(starts@.take(i as int) =~= starts@);
    let title = escaped(volume.metadata.display_title().as_str());
    let mut out = chars_of(
        "<?xml version=\"1.0\" encoding=\"utf-8\"?>\n<!DOCTYPE html>\n<html xmlns=\"http://www.w3.org/1999/xhtml\" xmlns:epub=\"http://www.idpf.org/2007/ops\">\n<head>\n  <meta charset=\"utf-8\"/>\n  <title>",
    );
    push_all(&mut out, &title);
    push_str(
        &mut out,
        "</title>\n</head>\n<body>\n  <nav epub:type=\"toc\" id=\"toc\">\n    <h1>",
    );
    push_all(&mut out, &title);
    push_str(&mut out, "</h1>\n    <ol>\n");
    push_joined(&mut out, &items);
    push_str(
        &mut out,
        "\n    </ol>\n  </nav>\n  <nav epub:type=\"landmarks\" hidden=\"hidden\">\n    <ol>\n      <li><a epub:type=\"cover\" href=\"",
    );
    push_str(&mut out, slots[0].page_href().as_str());
    push_str(&mut out, "\">Cover</a></li>\n    </ol>\n  </nav>\n</body>\n</html>\n");
    assert(out@ =~= nav_text(volume.metadata, slots@, starts@));
    string_of(out.as_slice())
}

/// The NCX navigation points, numbered from one.
pub open spec fn ncx_points(slots: Seq<Slot>, starts: Seq<ChapterStart>) -> Seq<Seq<char>>
    decreases starts.len(),
{
    if starts.len() == 0 {
        Seq::empty()
    } else {
        let c = starts.last();
        let n = decimal_of(starts.len());
        ncx_points(slots, starts.drop_last()) + seq![
            "    <navPoint id=\"np-"@ + n + "\" playOrder=\""@ + n
                + "\">\n      <navLabel><text>"@ + esc_of(c.title@)
                + "</text></navLabel>\n      <content src=\""@ + page_href_of(
                slots[c.slot as int].stem@,
            ) + "\"/>\n    </navPoint>"@,
        ]
    }
}

/// The NCX table of contents, which older Kindle firmware still reads.
pub open spec fn ncx_text(m: Metadata, slots: Seq<Slot>, starts: Seq<ChapterStart>) -> Seq<char> {
    "<?xml version=\"1.0\" encoding=\"utf-8\"?>\n<ncx xmlns=\"http://www.daisy.org/z3986/2005/ncx/\" version=\"2005-1\">\n  <head>\n    <meta name=\"dtb:uid\" content=\""@
        + esc_of(m.identifier@)
        + "\"/>\n    <meta name=\"dtb:depth\" content=\"1\"/>\n    <meta name=\"dtb:totalPageCount\" content=\"0\"/>\n    <meta name=\"dtb:maxPageNumber\" content=\"0\"/>\n  </head>\n  <docTitle><text>"@
        + esc_of(display_title_of(m.series@, m.volume)) + "</text></docTitle>\n  <navMap>\n"@
        + joined(ncx_points(slots, starts)) + "\n  </navMap>\n</ncx>\n"@
}

/// NCX table of contents.
pub fn toc_ncx(volume: &Volume, slots: &Vec<Slot>, starts: &Vec<ChapterStart>) -> (r: String)
    requires
        starts_in_range(slots@, starts@),
    ensures
        r@ == ncx_text(volume.metadata, slots@, starts@),
{
    let mut points: Vec<String> = Vec::new();
    let mut i: usize = 0;
    assert(starts@.take(0) =~= Seq::<ChapterStart>::empty());
    while i < starts.len()
        invariant
            i <= starts@.len(),
            starts_in_range(slots@, starts@),
            texts(points@) == ncx_points(slots@, starts@.take(i as int)),
        decreases starts@.len() - i,
    {
        let ghost t = starts@.take(i + 1);
        assert(t.drop_last() =~= starts@.take(i as int));
        assert(t.last() == starts@[i as int]);
        let c = &starts[i];
        assert(c.slot < slots@.len());
        let n = decimal((i + 1) as u128);
        let mut p = chars_of("    <navPoint id=\"np-");
        push_all(&mut p, &n);
        push_str(&mut p, "\" playOrder=\"");
        push_all(&mut p, &n);
        push_str(&mut p, "\">\n      <navLabel><text>");
        push_escaped(&mut p, c.title.as_str());
        push_str(&mut p, "</text></navLabel>\n      <content src=\"");
        push_str(&mut p, slots[c.slot].page_href().as_str());
        push_str(&mut p, "\"/>\n    </navPoint>");
        points.push(string_of(p.as_slice()));
        assert(texts(points@) =~= ncx_points(slots@, t));
        i = i + 1;
    }
    assert(starts@.take(i as int) =~= starts@);
    let mut out = chars_of(
        "<?xml version=\"1.0\" encoding=\"utf-8\"?>\n<ncx xmlns=\"http://www.daisy.org/z3986/2005/ncx/\" version=\"2005-1\">\n  <head>\n    <meta name=\"dtb:uid\" content=\"",
    );
    push_escaped(&mut out, volume.metadata.identifier.as_str());
    push_str(
        &mut out,
        "\"/>\n    <meta name=\"dtb:depth\" content=\"1\"/>\n    <meta name=\"dtb:totalPageCount\" content=\"0\"/>\n    <meta name=\"dtb:maxPageNumber\" content=\"0\"/>\n  </head>\n  <docTitle><text>",
    );
    push_escaped(&mut out, volume.metadata.display_title().as_str());
    push_str(&mut out, "</text></docTitle>\n  <navMap>\n");
    push_joined(&mut out, &points);
    push_str(&mut out, "\n  </navMap>\n</ncx>\n");
    assert(out@ =~= ncx_text(volume.metadata, slots@, starts@));
    string_of(out.as_slice())
}

/// Whether a slot votes on the book's canvas: an ordinary page with a size. A
/// spread is twice a page's width by definition, so letting spreads vote would
/// letterbox every page in the book.
pub open spec fn votes(s: Slot) -> bool {
    !s.spread && s.width > 0 && s.height > 0
}

/// How many voting slots have size `c`.
pub open spec fn size_count(slots: Seq<Slot>, c: (u32, u32)) -> nat
    decreases slots.len(),
{
    if slots.len() == 0 {
        0
    } else {
        size_count(slots.drop_last(), c) + if votes(slots.last()) && (slots.last().width, slots.last().height) == c {
            1nat
        } else {
            0nat
        }
    }
}

/// Whether size `a` beats size `b`: more votes, or as many and larger.
pub open spec fn size_beats(slots: Seq<Slot>, a: (u32, u32), b: (u32, u32)) -> bool {
    size_count(slots, a) > size_count(slots, b) || (size_count(slots, a) == size_count(slots, b) && (
    a.0 > b.0 || (a.0 == b.0 && a.1 > b.1)))
}

/// Whether `c` is the book's canvas: some voting slot has it and no voting
/// slot's size beats it.
pub open spec fn is_canvas(slots: Seq<Slot>, c: (u32, u32)) -> bool {
    &&& exists|i: int|
        0 <= i < slots.len() && votes(#[trigger] slots[i]) && (slots[i].width, slots[i].height) == c
    &&& forall|i: int|
        0 <= i < slots.len() && votes(#[trigger] slots[i]) ==> !size_beats(
            slots,
            (slots[i].width, slots[i].height),
            c,
        )
}

/// A book has at most one canvas.
pub proof fn canvas_is_unique(slots: Seq<Slot>, c: (u32, u32), d: (u32, u32))
    requires
        is_canvas(slots, c),
        is_canvas(slots, d),
    ensures
        c == d,
{
    let i = choose|i: int|
        0 <= i < slots.len() && votes(#[trigger] slots[i]) && (slots[i].width, slots[i].height) == c;
    let j = choose|j: int|
        0 <= j < slots.len() && votes(#[trigger] slots[j]) && (slots[j].width, slots[j].height) == d;
    assert(!size_beats(slots, (slots[i].width, slots[i].height), d));
    assert(!size_beats(slots, (slots[j].width, slots[j].height), c));
}

/// The book's canvas: its most common ordinary page size, else the first
/// slot's size, else nothing.
pub open spec fn canvas_of(slots: Seq<Slot>) -> (u32, u32) {
    if exists|i: int| 0 <= i < slots.len() && votes(#[trigger] slots[i]) {
        choose|c: (u32, u32)| is_canvas(slots, c)
    } else if slots.len() > 0 {
        (slots[0].width, slots[0].height)
    } else {
        (0u32, 0u32)
    }
}

fn count_size(slots: &Vec<Slot>, w: u32, h: u32) -> (r: usize)
    ensures
        r as nat == size_count(slots@, (w, h)),
{
    let mut n: usize = 0;
    let mut i: usize = 0;
    assert(slots@.take(0) =~= Seq::<Slot>::empty());
    while i < slots.len()
        invariant
            i <= slots@.len(),
            n <= i,
            n as nat == size_count(slots@.take(i as int), (w, h)),
        decreases slots@.len() - i,
    {
        assert(slots@.take(i + 1).drop_last() =~= slots@.take(i as int));
        let s = &slots[i];
        if !s.spread && s.width > 0 && s.height > 0 && s.width == w && s.height == h {
            n = n + 1;
        }
        i = i + 1;
    }
    assert(slots@.take(i as int) =~= slots@);
    n
}

/// The page size the whole book is laid out on: the most common size among
/// ordinary pages (the larger size on a tie); failing any, the first slot's
/// size; failing that, nothing.
pub fn canvas_size(slots: &Vec<Slot>) -> (r: (u32, u32))
    ensures
        r == canvas_of(slots@),
        (exists|i: int| 0 <= i < slots@.len() && votes(#[trigger] slots@[i])) ==> is_canvas(
            slots@,
            r,
        ),
{
    let mut best: Option<(u32, u32, usize)> = None;
    let mut i: usize = 0;
    while i < slots.len()
        invariant
            i <= slots@.len(),
            match best {
                Some((w, h, c)) => c as nat == size_count(slots@, (w, h)) && (exists|k: int|
                    0 <= k < i && votes(#[trigger] slots@[k]) && (slots@[k].width, slots@[k].height)
                        == (w, h)) && forall|k: int|
                    0 <= k < i && votes(#[trigger] slots@[k]) ==> !size_beats(
                        slots@,
                        (slots@[k].width, slots@[k].height),
                        (w, h),
                    ),
                None => forall|k: int| 0 <= k < i ==> !votes(#[trigger] slots@[k]),
            },
        decreases slots@.len() - i,
    {
        let s = &slots[i];
        if !s.spread && s.width > 0 && s.height > 0 {
            let c = count_size(slots, s.width, s.height);
            match best {
                Some((w, h, bc)) => {
                    if c > bc || (c == bc && (s.width > w || (s.width == w && s.height > h))) {
                        proof {
                            assert forall|k: int|
                                0 <= k < i + 1 && votes(#[trigger] slots@[k]) implies !size_beats(
                                slots@,
                                (slots@[k].width, slots@[k].height),
                                (s.width, s.height),
                            ) by {
                                if k < i {
                                    assert(!size_beats(
                                        slots@,
                                        (slots@[k].width, slots@[k].height),
                                        (w, h),
                                    ));
                                }
                            }
                        }
                        best = Some((s.width, s.height, c));
                    }
                },
                None => {
                    best = Some((s.width, s.height, c));
                },
            }
        }
        i = i + 1;
    }
    match best {
        Some((w, h, _)) => {
            proof {
                assert(is_canvas(slots@, (w, h)));
                let c = choose|c: (u32, u32)| is_canvas(slots@, c);
                canvas_is_unique(slots@, c, (w, h));
            }
            (w, h)
        },
        None => {
            if slots.len() > 0 {
                (slots[0].width, slots[0].height)
            } else {
                (0, 0)
            }
        },
    }
}

/// A volume flattened into the page slots the package will contain.
pub struct Layout {
    pub slots: Vec<Slot>,
    pub chapters: Vec<ChapterStart>,
}

/// A cover image read from disk, with its measured size.
pub struct CoverImage {
    pub bytes: Vec<u8>,
    pub width: u32,
    pub height: u32,
}

/// The extension a dedicated cover is stored under: `png` or `webp` when the
/// file says so (in any case), `jpg` otherwise.
pub open spec fn cover_ext_of(path: Seq<char>) -> Seq<char> {
    match path_extension(path) {
        Some(e) => if lower_seq(e) == "png"@ {
            "png"@
        } else if lower_seq(e) == "webp"@ {
            "webp"@
        } else {
            "jpg"@
        },
        None => "jpg"@,
    }
}

/// The extension a dedicated cover is stored under.
pub fn cover_ext(path: &str) -> (r: &'static str)
    ensures
        r@ == cover_ext_of(path@),
{
    let p = chars_of(path);
    let name = match file_name_chars(&p) {
        Some(n) => n,
        None => return "jpg",
    };
    let ext = match name_extension(&name) {
        Some(e) => e,
        None => return "jpg",
    };
    let e = lowered(&ext);
    if eq_str(&e, "png") {
        "png"
    } else if eq_str(&e, "webp") {
        "webp"
    } else {
        "jpg"
    }
}

/// The cover that needs a slot of its own: the chosen cover, when it is not
/// already the first page (otherwise page one doubles as the cover and the
/// image is stored once).
pub open spec fn separate_cover_of(v: Volume) -> Option<String> {
    match v.cover {
        Some(c) => if volume_pages_of(v.chapters@).len() > 0 && volume_pages_of(v.chapters@)[0].path@
            == c@ {
            None
        } else {
            Some(c)
        },
        None => None,
    }
}

/// The cover that needs a slot of its own, if any.
pub fn separate_cover(volume: &Volume) -> (r: Option<String>)
    ensures
        r == separate_cover_of(*volume),
{
    match &volume.cover {
        Some(c) => {
            let pages = volume.included_pages();
            if pages.len() > 0 && pages[0].path == *c {
                None
            } else {
                Some(c.clone())
            }
        },
        None => None,
    }
}

/// A slot as plain values: stem, extension, width, height, spread, bytes.
pub type SlotView = (Seq<char>, Seq<char>, u32, u32, bool, Seq<u8>);

pub open spec fn slot_view(s: Slot) -> SlotView {
    (s.stem@, s.ext@, s.width, s.height, s.spread, s.bytes@)
}

/// Every rendered image, flattened in page order.
pub open spec fn flat(rs: Seq<Seq<Rendered>>) -> Seq<Rendered>
    decreases rs.len(),
{
    if rs.len() == 0 {
        Seq::empty()
    } else {
        flat(rs.drop_last()) + rs.last()
    }
}

/// For every rendered image, whether it stays a spread: its page is a spread
/// that is not being split (a split spread is two ordinary pages).
pub open spec fn spread_flags(pages: Seq<Page>, rs: Seq<Seq<Rendered>>) -> Seq<bool>
    decreases rs.len(),
{
    if rs.len() == 0 || pages.len() < rs.len() {
        Seq::empty()
    } else {
        let p = pages[rs.len() - 1];
        spread_flags(pages, rs.drop_last()) + Seq::new(
            rs.last().len(),
            |j: int| p.kind == PageKind::Spread && !p.split,
        )
    }
}

/// The stem of the `k`-th slot (from zero): `p` and its number from one,
/// zero-padded to four digits.
pub open spec fn page_stem(k: nat) -> Seq<char> {
    "p"@ + zero_padded(decimal_of(k + 1), 4)
}

/// Where each chapter with pages begins: its title and the index of its first
/// slot, counting `base` slots ahead of the pages.
pub open spec fn chapter_starts_of(chapters: Seq<Chapter>, rs: Seq<Seq<Rendered>>, base: nat) -> Seq<
    (Seq<char>, nat),
>
    decreases chapters.len(),
{
    if chapters.len() == 0 {
        Seq::empty()
    } else {
        let prev = chapter_starts_of(chapters.drop_last(), rs, base);
        let c = chapters.last();
        if included_of(c.pages@).len() > 0 {
            prev.push(
                (c.title@, base + flat(rs.take(volume_pages_of(chapters.drop_last()).len() as int)).len()),
            )
        } else {
            prev
        }
    }
}

/// Whether `l` is the layout of a volume: the separate cover first when there
/// is one, then one slot per rendered image in page order, and the chapters
/// that have pages with the slot each begins at.
pub open spec fn is_layout_of(
    l: Layout,
    v: Volume,
    cover: Option<(Seq<u8>, u32, u32, Seq<char>)>,
    rs: Seq<Seq<Rendered>>,
) -> bool {
    let base: nat = if cover is Some { 1 } else { 0 };
    let images = flat(rs);
    let spreads = spread_flags(volume_pages_of(v.chapters@), rs);
    &&& l.slots@.len() == base + images.len()
    &&& (cover matches Some((bytes, w, h, ext)) ==> slot_view(l.slots@[0]) == ("cover"@, ext, w, h, false, bytes))
    &&& forall|j: int|
        0 <= j < images.len() ==> #[trigger] slot_view(l.slots@[base + j]) == (
            page_stem((base + j) as nat),
            images[j].ext@,
            images[j].width,
            images[j].height,
            spreads[j],
            images[j].bytes@,
        )
    &&& l.chapters@.len() == chapter_starts_of(v.chapters@, rs, base).len()
    &&& forall|k: int|
        0 <= k < l.chapters@.len() ==> (#[trigger] l.chapters@[k]).title@ == chapter_starts_of(
            v.chapters@,
            rs,
            base,
        )[k].0 && l.chapters@[k].slot == chapter_starts_of(v.chapters@, rs, base)[k].1
}

/// The rendered images of each page, as sequences.
pub open spec fn renders_view(rendered: Seq<Vec<Rendered>>) -> Seq<Seq<Rendered>> {
    rendered.map_values(|v: Vec<Rendered>| v@)
}

/// The slots from `base` on hold `images` with their `flags`, in order.
pub open spec fn slots_hold(slots: Seq<Slot>, base: nat, images: Seq<Rendered>, flags: Seq<bool>) -> bool {
    &&& slots.len() == base + images.len()
    &&& flags.len() == images.len()
    &&& forall|j: int|
        0 <= j < images.len() ==> #[trigger] slot_view(slots[base + j]) == (
            page_stem((base + j) as nat),
            images[j].ext@,
            images[j].width,
            images[j].height,
            flags[j],
            images[j].bytes@,
        )
}

/// The pages of the first `i` chapters are the first pages of the volume.
pub proof fn lemma_pages_prefix(chapters: Seq<Chapter>, i: int)
    requires
        0 <= i <= chapters.len(),
    ensures
        volume_pages_of(chapters.take(i)).len() <= volume_pages_of(chapters).len(),
        forall|k: int|
            0 <= k < volume_pages_of(chapters.take(i)).len() ==> volume_pages_of(chapters.take(i))[k]
                == volume_pages_of(chapters)[k],
    decreases chapters.len(),
{
    if i < chapters.len() {
        lemma_pages_prefix(chapters.drop_last(), i);
        assert(chapters.drop_last().take(i) =~= chapters.take(i));
    } else {
        assert(chapters.take(i) =~= chapters);
    }
}

fn page_stem_text(k: usize) -> (r: String)
    requires
        k < usize::MAX,
    ensures
        r@ == page_stem(k as nat),
{
    let mut out = chars_of("p");
    push_all(&mut out, &decimal_padded((k + 1) as u128, 4));
    string_of(out.as_slice())
}

/// Flatten a volume into page slots, recording where each chapter begins.
/// `cover` is the separate cover's image when the volume has one (see
/// `separate_cover`); `rendered` holds, for each page that will be written,
/// the images it renders to (two for a split spread).
pub fn build_slots(volume: &Volume, cover: Option<CoverImage>, rendered: Vec<Vec<Rendered>>) -> (r:
    Layout)
    requires
        rendered@.len() == volume_pages_of(volume.chapters@).len(),
        cover is Some <==> separate_cover_of(*volume) is Some,
        flat(renders_view(rendered@)).len() + 1 < usize::MAX,
    ensures
        is_layout_of(
            r,
            *volume,
            match cover {
                Some(c) => Some(
                    (c.bytes@, c.width, c.height, cover_ext_of(separate_cover_of(*volume)->0@)),
                ),
                None => None,
            },
            renders_view(rendered@),
        ),
{
    let ghost rs = renders_view(rendered@);
    let ghost pages = volume_pages_of(volume.chapters@);
    let total = rendered.len();
    let ghost cover_param = match &cover {
        Some(c) => Some((c.bytes@, c.width, c.height, cover_ext_of(separate_cover_of(*volume)->0@))),
        None => None::<(Seq<u8>, u32, u32, Seq<char>)>,
    };
    let mut slots: Vec<Slot> = Vec::new();
    match cover {
        Some(ci) => {
            let path = match separate_cover(volume) {
                Some(p) => p,
                None => String::new(),
            };
            slots.push(
                Slot {
                    stem: String::from_str("cover"),
                    ext: cover_ext(path.as_str()),
                    width: ci.width,
                    height: ci.height,
                    spread: false,
                    bytes: ci.bytes,
                },
            );
            proof {
                reveal_strlit("cover");
            }
        },
        None => {},
    }
    let base = slots.len();
    assert(match cover_param {
        Some((b, w, h, e)) => base == 1 && slot_view(slots@[0]) == ("cover"@, e, w, h, false, b),
        None => base == 0,
    });
    let mut rest = rendered;
    let mut done: usize = 0;
    let mut starts: Vec<ChapterStart> = Vec::new();
    let ghost mut images: Seq<Rendered> = Seq::empty();
    let ghost mut flags: Seq<bool> = Seq::empty();
    let mut ci: usize = 0;
    assert(rs.take(0) =~= Seq::<Seq<Rendered>>::empty());
    assert(volume.chapters@.take(0) =~= Seq::<Chapter>::empty());
    while ci < volume.chapters.len()
        invariant
            ci <= volume.chapters@.len(),
            rs.len() == pages.len(),
            rs.len() == total,
            pages == volume_pages_of(volume.chapters@),
            done == volume_pages_of(volume.chapters@.take(ci as int)).len(),
            done <= rs.len(),
            renders_view(rest@) == rs.skip(done as int),
            images == flat(rs.take(done as int)),
            flags == spread_flags(pages, rs.take(done as int)),
            flat(rs).len() + 1 < usize::MAX,
            base <= 1,
            slots@.len() >= base,
            match cover_param {
                Some((b, w, h, e)) => base == 1 && slot_view(slots@[0]) == ("cover"@, e, w, h, false, b),
                None => base == 0,
            },
            slots_hold(slots@, base as nat, images, flags),
            starts@.len() == chapter_starts_of(volume.chapters@.take(ci as int), rs, base as nat).len(),
            forall|k: int|
                0 <= k < starts@.len() ==> (#[trigger] starts@[k]).title@ == chapter_starts_of(
                    volume.chapters@.take(ci as int),
                    rs,
                    base as nat,
                )[k].0 && starts@[k].slot == chapter_starts_of(
                    volume.chapters@.take(ci as int),
                    rs,
                    base as nat,
                )[k].1,
        decreases volume.chapters@.len() - ci,
    {
        let chapter = &volume.chapters[ci];
        let inc = chapter.included();
        proof {
            let t = volume.chapters@.take(ci + 1);
            assert(t.drop_last() =~= volume.chapters@.take(ci as int));
            assert(t.last() == volume.chapters@[ci as int]);
            lemma_pages_prefix(volume.chapters@, ci + 1);
        }
        if inc.len() > 0 {
            let ghost before = starts@;
            starts.push(ChapterStart { title: chapter.title.clone(), slot: slots.len() });
            proof {
                let t = volume.chapters@.take(ci + 1);
                assert(chapter_starts_of(t, rs, base as nat) == chapter_starts_of(
                    volume.chapters@.take(ci as int),
                    rs,
                    base as nat,
                ).push((chapter.title@, (base + flat(rs.take(done as int)).len()) as nat)));
            }
        } else {
            proof {
                let t = volume.chapters@.take(ci + 1);
                assert(chapter_starts_of(t, rs, base as nat) == chapter_starts_of(
                    volume.chapters@.take(ci as int),
                    rs,
                    base as nat,
                ));
            }
        }
        let ghost chapter_done = done;
        let mut pi: usize = 0;
        while pi < inc.len()
            invariant
                pi <= inc@.len(),
                inc@.len() == included_of(chapter.pages@).len(),
                forall|k: int| 0 <= k < inc@.len() ==> *inc@[k] == included_of(chapter.pages@)[k],
                volume_pages_of(volume.chapters@.take(ci + 1)) == volume_pages_of(
                    volume.chapters@.take(ci as int),
                ) + included_of(chapter.pages@),
                volume_pages_of(volume.chapters@.take(ci + 1)).len() <= pages.len(),
                forall|k: int|
                    0 <= k < volume_pages_of(volume.chapters@.take(ci + 1)).len() ==> volume_pages_of(
                        volume.chapters@.take(ci + 1),
                    )[k] == pages[k],
                chapter_done == volume_pages_of(volume.chapters@.take(ci as int)).len(),
                done == chapter_done + pi,
                rs.len() == pages.len(),
                rs.len() == total,
                renders_view(rest@) == rs.skip(done as int),
                images == flat(rs.take(done as int)),
                flags == spread_flags(pages, rs.take(done as int)),
                flat(rs).len() + 1 < usize::MAX,
                base <= 1,
                slots@.len() >= base,
                match cover_param {
                    Some((b, w, h, e)) => base == 1 && slot_view(slots@[0]) == ("cover"@, e, w, h, false, b),
                    None => base == 0,
                },
                slots_hold(slots@, base as nat, images, flags),
            decreases inc@.len() - pi,
        {
            let page = inc[pi];
            assert(*page == pages[done as int]) by {
                assert(volume_pages_of(volume.chapters@.take(ci + 1))[done as int] == included_of(
                    chapter.pages@,
                )[pi as int]);
            }
            let ghost rbefore = rest@;
            assert(done < rs.len());
            assert(renders_view(rest@).len() == rest@.len());
            let mut renders = rest.remove(0);
            proof {
                assert(renders@ == rs[done as int]) by {
                    assert(renders_view(rbefore)[0] == rs.skip(done as int)[0]);
                    assert(renders_view(rbefore)[0] == rbefore[0]@);
                }
                assert(renders_view(rest@) =~= rs.skip(done + 1)) by {
                    assert forall|j: int| 0 <= j < rest@.len() implies renders_view(rest@)[j]
                        == rs.skip(done + 1)[j] by {
                        assert(rest@[j] == rbefore[j + 1]);
                        assert(renders_view(rbefore)[j + 1] == rs.skip(done as int)[j + 1]);
                        assert(renders_view(rbefore)[j + 1] == rbefore[j + 1]@);
                        assert(renders_view(rest@)[j] == rest@[j]@);
                    }
                }
            }
            let spread = page.kind == PageKind::Spread && !page.split;
            let ghost page_renders = renders@;
            let ghost images0 = images;
            let ghost flags0 = flags;
            let mut q: usize = 0;
            assert(page_renders.take(0) =~= Seq::<Rendered>::empty());
            assert(images0 + page_renders.take(0) =~= images0);
            assert(flags0 + Seq::new(0, |j: int| spread) =~= flags0);
            proof {
                assert(rs.take(done + 1).drop_last() =~= rs.take(done as int));
                assert(flat(rs.take(done + 1)) == images0 + page_renders);
                assert(flat(rs.take(done + 1)).len() <= flat(rs).len()) by {
                    lemma_flat_prefix(rs, done + 1);
                }
            }
            while renders.len() > 0
                invariant
                    q <= page_renders.len(),
                    renders@ == page_renders.skip(q as int),
                    images0 + page_renders.take(q as int) == images,
                    flags0 + Seq::new(q as nat, |j: int| spread) == flags,
                    images0.len() + page_renders.len() + base < usize::MAX,
                    base <= 1,
                    slots@.len() >= base,
                    match cover_param {
                        Some((b, w, h, e)) => base == 1 && slot_view(slots@[0]) == ("cover"@, e, w, h, false, b),
                        None => base == 0,
                    },
                    slots_hold(slots@, base as nat, images, flags),
                decreases renders@.len(),
            {
                let ghost qbefore = renders@;
                let r = renders.remove(0);
                assert(r == page_renders[q as int]);
                assert(renders@ =~= page_renders.skip(q + 1));
                let stem = page_stem_text(slots.len());
                let ghost old_slots = slots@;
                slots.push(
                    Slot {
                        stem,
                        ext: r.ext,
                        width: r.width,
                        height: r.height,
                        spread,
                        bytes: r.bytes,
                    },
                );
                proof {
                    assert(page_renders.take(q + 1) =~= page_renders.take(q as int).push(r));
                    images = images.push(r);
                    flags = flags.push(spread);
                    assert(images0 + page_renders.take(q + 1) =~= images);
                    assert(flags0 + Seq::new((q + 1) as nat, |j: int| spread) =~= flags);
                    assert forall|j: int| 0 <= j < images.len() implies #[trigger] slot_view(
                        slots@[base + j],
                    ) == (
                        page_stem((base + j) as nat),
                        images[j].ext@,
                        images[j].width,
                        images[j].height,
                        flags[j],
                        images[j].bytes@,
                    ) by {
                                if j < images.len() - 1 {
                            assert(slots@[base + j] == old_slots[base + j]);
                        }
                    }
                }
                q = q + 1;
            }
            proof {
                assert(page_renders.take(q as int) =~= page_renders);
                assert(rs.take(done + 1).last() == rs[done as int]);
                assert(spread_flags(pages, rs.take(done + 1)) =~= flags);
            }
            done = done + 1;
            pi = pi + 1;
        }
        ci = ci + 1;
    }
    proof {
        assert(volume.chapters@.take(ci as int) =~= volume.chapters@);
        assert(rs.take(done as int) =~= rs);
    }
    let r = Layout { slots, chapters: starts };
    assert(is_layout_of(r, *volume, cover_param, rs));
    r
}

proof fn lemma_flat_prefix(rs: Seq<Seq<Rendered>>, n: int)
    requires
        0 <= n <= rs.len(),
    ensures
        flat(rs.take(n)).len() <= flat(rs).len(),
    decreases rs.len(),
{
    if n < rs.len() {
        assert(rs.drop_last().take(n) =~= rs.take(n));
        lemma_flat_prefix(rs.drop_last(), n);
    } else {
        assert(rs.take(n) =~= rs);
    }
}

/// The container document that points readers at the package.
pub const CONTAINER_XML: &'static str = "<?xml version=\"1.0\" encoding=\"UTF-8\"?>\n<container version=\"1.0\" xmlns=\"urn:oasis:names:tc:opendocument:xmlns:container\">\n  <rootfiles>\n    <rootfile full-path=\"OEBPS/content.opf\" media-type=\"application/oebps-package+xml\"/>\n  </rootfiles>\n</container>\n";

/// The style sheet every page uses: no margins, the page centred, and the
/// image scaled down to fit the canvas rather than overflowing it and being
/// clipped, so a spread is never cut; the stored image keeps its full
/// resolution, so zooming shows all of it.
pub const STYLE_CSS: &'static str = "@page { margin: 0; padding: 0; }\n\nhtml, body {\n  margin: 0;\n  padding: 0;\n  width: 100%;\n  height: 100%;\n  background-color: #ffffff;\n}\n\ndiv.page {\n  margin: 0;\n  padding: 0;\n  width: 100%;\n  height: 100%;\n  text-align: center;\n  /* Centres a page that does not fill the canvas, which is what a double-page\n     spread does once it has been scaled to fit. Readers that ignore flex fall\n     back to the image sitting at the top, still whole. */\n  display: flex;\n  align-items: center;\n  justify-content: center;\n}\n\ndiv.page img {\n  margin: 0;\n  padding: 0;\n  /* The pair below is what guarantees a spread is never cut: it is scaled down\n     until it fits the canvas, rather than overflowing and being clipped. The\n     stored image keeps its full resolution, so zooming shows all of it. */\n  max-width: 100%;\n  max-height: 100%;\n  object-fit: contain;\n}\n";

/// The UTF-8 bytes of a text.
pub open spec fn utf8(s: Seq<char>) -> Seq<u8> {
    vstd::utf8::encode_utf8(s)
}

/// The image and page-document entries of the slots.
pub open spec fn slot_entries(slots: Seq<Slot>) -> Seq<Entry>
    decreases slots.len(),
{
    if slots.len() == 0 {
        Seq::empty()
    } else {
        let s = slots.last();
        slot_entries(slots.drop_last()) + seq![
            ("OEBPS/"@ + image_href_of(s.stem@, s.ext@), true, s.bytes@),
            (
                "OEBPS/"@ + page_href_of(s.stem@),
                false,
                utf8(page_text(s.stem@, s.ext@, s.width, s.height)),
            ),
        ]
    }
}

/// The entries of an EPUB, in order: the `mimetype` first and stored (readers
/// sniff it at a fixed offset), the container, the style sheet, each slot's
/// image (stored: already compressed) and page document, the navigation
/// document, the NCX and the package document.
pub open spec fn epub_entries(v: Volume, l: Layout, modified: Seq<char>) -> Seq<Entry> {
    let canvas = canvas_of(l.slots@);
    seq![
        ("mimetype"@, true, utf8("application/epub+zip"@)),
        ("META-INF/container.xml"@, false, utf8(CONTAINER_XML@)),
        ("OEBPS/style.css"@, false, utf8(STYLE_CSS@)),
    ] + slot_entries(l.slots@) + seq![
        ("OEBPS/nav.xhtml"@, false, utf8(nav_text(v.metadata, l.slots@, l.chapters@))),
        ("OEBPS/toc.ncx"@, false, utf8(ncx_text(v.metadata, l.slots@, l.chapters@))),
        ("OEBPS/content.opf"@, false, utf8(opf_text(v.metadata, l.slots@, canvas, modified))),
    ]
}

fn add_text(a: &mut Archive, name: &str, text: &str) -> (r: Result<(), WriteError>)
    ensures
        r is Ok ==> final(a).entries() == old(a).entries().push((name@, false, utf8(text@))),
        r matches Err(e) ==> e == WriteError::Archive,
        name_fits(name@) && name_unused(old(a).entries(), name@) && entries_fit(
            old(a).entries().push((name@, false, utf8(text@))),
        ) ==> r is Ok,
{
    a.add(name, false, text.as_bytes())
}

/// The slot entries of fewer slots come first among those of more.
proof fn lemma_slot_entries_prefix(slots: Seq<Slot>, i: int, j: int)
    requires
        0 <= i <= j <= slots.len(),
    ensures
        slot_entries(slots.take(i)).len() <= slot_entries(slots.take(j)).len(),
        slot_entries(slots.take(i)) == slot_entries(slots.take(j)).take(
            slot_entries(slots.take(i)).len() as int,
        ),
    decreases j - i,
{
    if i < j {
        lemma_slot_entries_prefix(slots, i, j - 1);
        assert(slots.take(j).drop_last() =~= slots.take(j - 1));
        let a = slot_entries(slots.take(i));
        let b = slot_entries(slots.take(j - 1));
        let c = slot_entries(slots.take(j));
        assert(c.take(b.len() as int) =~= b);
        assert(c.take(a.len() as int) =~= b.take(a.len() as int));
    } else {
        let a = slot_entries(slots.take(i));
        assert(a.take(a.len() as int) =~= a);
    }
}

/// The EPUB for a laid-out volume, with `modified` as its modification time.
/// A volume with no pages is refused.
pub fn write_at(volume: &Volume, layout: &Layout, modified: &str) -> (r: Result<Vec<u8>, WriteError>)
    requires
        starts_in_range(layout.slots@, layout.chapters@),
    ensures
        layout.slots@.len() == 0 ==> r == Err::<Vec<u8>, WriteError>(WriteError::NoPages),
        r matches Ok(b) ==> b@ == zip_archive(epub_entries(*volume, *layout, modified@)),
        r matches Err(e) ==> (e == WriteError::NoPages <==> layout.slots@.len() == 0),
        layout.slots@.len() > 0 && archive_ok(epub_entries(*volume, *layout, modified@)) ==> r is Ok,
{
    let ghost whole = epub_entries(*volume, *layout, modified@);
    let slots = &layout.slots;
    if slots.len() == 0 {
        return Err(WriteError::NoPages);
    }
    let canvas = canvas_size(slots);
    let mut a = Archive::new();
    let ghost all_slots = slot_entries(slots@);
    let ghost p = whole.take(3 + all_slots.len() as int);
    proof {
        assert(whole.len() == 6 + all_slots.len());
        let e = ("mimetype"@, true, utf8("application/epub+zip"@));
        assert(a.entries().push(e) =~= whole.take(1));
        if archive_ok(whole) {
            lemma_archive_ok_next(whole, a.entries(), e);
        }
    }
    if let Err(e) = a.add("mimetype", true, "application/epub+zip".as_bytes()) {
        return Err(e);
    }
    proof {
        let e = ("META-INF/container.xml"@, false, utf8(CONTAINER_XML@));
        assert(a.entries().push(e) =~= whole.take(2));
        if archive_ok(whole) {
            lemma_archive_ok_next(whole, a.entries(), e);
        }
    }
    if let Err(e) = add_text(&mut a, "META-INF/container.xml", CONTAINER_XML) {
        return Err(e);
    }
    proof {
        let e = ("OEBPS/style.css"@, false, utf8(STYLE_CSS@));
        assert(a.entries().push(e) =~= whole.take(3));
        if archive_ok(whole) {
            lemma_archive_ok_next(whole, a.entries(), e);
        }
    }
    if let Err(e) = add_text(&mut a, "OEBPS/style.css", STYLE_CSS) {
        return Err(e);
    }
    let ghost head = a.entries();
    assert(head + all_slots =~= p);
    let mut i: usize = 0;
    assert(slots@.take(0) =~= Seq::<Slot>::empty());
    assert(head + slot_entries(slots@.take(0)) =~= head);
    while i < slots.len()
        invariant
            i <= slots@.len(),
            slots == &layout.slots,
            canvas == canvas_of(slots@),
            a.entries() == head + slot_entries(slots@.take(i as int)),
            head.len() == 3,
            all_slots == slot_entries(slots@),
            head + all_slots == p,
            p == whole.take(3 + all_slots.len() as int),
            whole == epub_entries(*volume, *layout, modified@),
            whole.len() == 6 + all_slots.len(),
        decreases slots@.len() - i,
    {
        let ghost t = slots@.take(i + 1);
        assert(t.drop_last() =~= slots@.take(i as int));
        assert(t.last() == slots@[i as int]);
        let slot = &slots[i];
        let mut img = chars_of("OEBPS/");
        push_str(&mut img, slot.image_href().as_str());
        proof {
            lemma_slot_entries_prefix(slots@, i + 1, slots@.len() as int);
            assert(slots@.take(slots@.len() as int) =~= slots@);
            let n: int = slot_entries(slots@.take(i as int)).len() as int;
            let st = slot_entries(t);
            assert(st.len() == n + 2);
            assert(head + st =~= p.take(3 + n + 2));
            let e = (img@, true, slot.bytes@);
            assert(a.entries().push(e) =~= (head + st).take(3 + n + 1));
            assert(a.entries().push(e) =~= whole.take(3 + n + 1));
            if archive_ok(whole) {
                lemma_archive_ok_next(whole, a.entries(), e);
            }
        }
        if let Err(e) = a.add(string_of(img.as_slice()).as_str(), true, slot.bytes.as_slice()) {
            return Err(e);
        }
        let mut page = chars_of("OEBPS/");
        push_str(&mut page, slot.page_href().as_str());
        proof {
            let n: int = slot_entries(slots@.take(i as int)).len() as int;
            let st = slot_entries(t);
            let e = (page@, false, utf8(page_text(slot.stem@, slot.ext@, slot.width, slot.height)));
            assert(a.entries().push(e) =~= head + st);
            assert(a.entries().push(e) =~= whole.take(3 + n + 2));
            if archive_ok(whole) {
                lemma_archive_ok_next(whole, a.entries(), e);
            }
        }
        if let Err(e) = add_text(&mut a, string_of(page.as_slice()).as_str(), page_xhtml(slot).as_str()) {
            return Err(e);
        }
        assert(a.entries() =~= head + slot_entries(t));
        i = i + 1;
    }
    assert(slots@.take(i as int) =~= slots@);
    let nav = nav_xhtml(volume, slots, &layout.chapters);
    proof {
        let e = ("OEBPS/nav.xhtml"@, false, utf8(nav@));
        assert(a.entries().push(e) =~= whole.take(3 + all_slots.len() as int + 1));
        if archive_ok(whole) {
            lemma_archive_ok_next(whole, a.entries(), e);
        }
    }
    if let Err(e) = add_text(&mut a, "OEBPS/nav.xhtml", nav.as_str()) {
        return Err(e);
    }
    let toc = toc_ncx(volume, slots, &layout.chapters);
    proof {
        let e = ("OEBPS/toc.ncx"@, false, utf8(toc@));
        assert(a.entries().push(e) =~= whole.take(3 + all_slots.len() as int + 2));
        if archive_ok(whole) {
            lemma_archive_ok_next(whole, a.entries(), e);
        }
    }
    if let Err(e) = add_text(&mut a, "OEBPS/toc.ncx", toc.as_str()) {
        return Err(e);
    }
    let opf = content_opf_at(&volume.metadata, slots, canvas, modified);
    proof {
        let e = ("OEBPS/content.opf"@, false, utf8(opf@));
        assert(a.entries().push(e) =~= whole);
        assert(whole.take(whole.len() as int) =~= whole);
        if archive_ok(whole) {
            lemma_archive_ok_next(whole, a.entries(), e);
        }
    }
    if let Err(e) = add_text(&mut a, "OEBPS/content.opf", opf.as_str()) {
        return Err(e);
    }
    assert(a.entries() =~= epub_entries(*volume, *layout, modified@));
    a.finish()
}

/// The EPUB for a laid-out volume, stamped with the current time.
pub fn write(volume: &Volume, layout: &Layout) -> (r: Result<Vec<u8>, WriteError>)
    requires
        starts_in_range(layout.slots@, layout.chapters@),
    ensures
        layout.slots@.len() == 0 ==> r == Err::<Vec<u8>, WriteError>(WriteError::NoPages),
        r matches Ok(b) ==> exists|secs: i64|
            b@ == zip_archive(
                epub_entries(*volume, *layout, crate::writers::timestamp::utc_text(secs as int)),
            ),
        r matches Err(e) ==> (e == WriteError::NoPages <==> layout.slots@.len() == 0),
        layout.slots@.len() > 0 && r is Err ==> exists|secs: i64|
            !archive_ok(
                epub_entries(*volume, *layout, crate::writers::timestamp::utc_text(secs as int)),
            ),
{
    let modified = crate::writers::timestamp::now_utc();
    write_at(volume, layout, modified.as_str())
}

} // verus!
