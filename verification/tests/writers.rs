use std::io::{Cursor, Read};

use mangalize::page::{Page, PageKind};
use mangalize::project::{Chapter, Direction, Metadata, Volume};
use mangalize::writers::epub::{
    build_slots, canvas_size, content_opf_at, page_xhtml, separate_cover, write_at, ChapterStart, CoverImage,
    Layout, Slot,
};
use mangalize::writers::archive::{Archive, WriteError};
use mangalize::writers::timestamp::{format_utc, now_utc};
use mangalize::writers::{cbz, esc, media_type, needs_conversion, Rendered, Target};

#[test]
fn escapes_xml_metacharacters() {
    assert_eq!(esc("Tom & Jerry <3"), "Tom &amp; Jerry &lt;3");
}

#[test]
fn formats_known_instants() {
    assert_eq!(format_utc(0), "1970-01-01T00:00:00Z");
    assert_eq!(format_utc(1_000_000_000), "2001-09-09T01:46:40Z");
}

#[test]
fn handles_leap_day() {
    assert_eq!(format_utc(1_709_208_000), "2024-02-29T12:00:00Z");
}

#[test]
fn handles_dates_before_the_epoch() {
    assert_eq!(format_utc(-1), "1969-12-31T23:59:59Z");
}

#[test]
fn the_current_time_has_the_epub_shape() {
    let now = now_utc();
    assert_eq!(now.len(), 20);
    assert!(now.ends_with('Z'));
    assert_eq!(&now[10..11], "T");
}

#[test]
fn only_epub_converts_what_a_kindle_cannot_draw() {
    assert!(needs_conversion("webp", Target::Epub));
    assert!(needs_conversion("avif", Target::Epub));
    assert!(!needs_conversion("webp", Target::Cbz));
    assert!(!needs_conversion("png", Target::Epub));
    assert_eq!(media_type("webp"), "image/webp");
    assert_eq!(media_type("jpg"), "image/jpeg");
}

fn page(path: &str, w: u32, h: u32, kind: PageKind, split: bool) -> Page {
    Page { path: path.to_string(), width: w, height: h, bytes: 10, kind, excluded: None, split }
}

fn volume() -> Volume {
    let mut excluded = page("/v/c1/skip.gif", 1, 1, PageKind::Single, false);
    excluded.excluded = Some(mangalize::page::ExcludeReason::NotAPage);
    Volume {
        metadata: Metadata {
            series: "Ichi & Co".to_string(),
            volume: Some(2),
            author: "Nishi".to_string(),
            language: "en".to_string(),
            description: String::new(),
            direction: Direction::RightToLeft,
            identifier: "urn:uuid:x".to_string(),
        },
        cover: None,
        chapters: vec![
            Chapter {
                title: "Chapter 1".to_string(),
                source: "/v/c1".to_string(),
                pages: vec![page("/v/c1/01.jpg", 800, 1168, PageKind::Single, false), excluded],
            },
            Chapter { title: "Empty".to_string(), source: "/v/c2".to_string(), pages: vec![] },
            Chapter {
                title: "Chapter 3".to_string(),
                source: "/v/c3".to_string(),
                pages: vec![
                    page("/v/c3/02.jpg", 1600, 1168, PageKind::Spread, false),
                    page("/v/c3/03.jpg", 1600, 1168, PageKind::Spread, true),
                ],
            },
        ],
        root: "/v".to_string(),
    }
}

fn rendered(ext: &'static str, w: u32, h: u32, tag: u8) -> Rendered {
    Rendered { bytes: vec![tag; 3], ext, width: w, height: h }
}

fn renders() -> Vec<Vec<Rendered>> {
    vec![
        vec![rendered("jpg", 800, 1168, 1)],
        vec![rendered("jpg", 1600, 1168, 2)],
        vec![rendered("jpg", 800, 1168, 3), rendered("jpg", 800, 1168, 4)],
    ]
}

#[test]
fn slots_number_pages_and_mark_unsplit_spreads() {
    let v = volume();
    assert!(separate_cover(&v).is_none());
    let layout = build_slots(&v, None, renders());
    let stems: Vec<&str> = layout.slots.iter().map(|s| s.stem.as_str()).collect();
    assert_eq!(stems, ["p0001", "p0002", "p0003", "p0004"]);
    let spreads: Vec<bool> = layout.slots.iter().map(|s| s.spread).collect();
    assert_eq!(spreads, [false, true, false, false]);
    let starts: Vec<(&str, usize)> = layout.chapters.iter().map(|c| (c.title.as_str(), c.slot)).collect();
    assert_eq!(starts, [("Chapter 1", 0), ("Chapter 3", 1)]);
    assert_eq!(canvas_size(&layout.slots), (800, 1168));
}

#[test]
fn an_explicit_cover_gets_its_own_slot_first() {
    let mut v = volume();
    v.cover = Some("/elsewhere/Cover.PNG".to_string());
    assert_eq!(separate_cover(&v).as_deref(), Some("/elsewhere/Cover.PNG"));
    let cover = CoverImage { bytes: vec![9], width: 700, height: 1000 };
    let layout = build_slots(&v, Some(cover), renders());
    assert_eq!(layout.slots[0].stem, "cover");
    assert_eq!(layout.slots[0].ext, "png");
    assert_eq!(layout.slots[1].stem, "p0002");
    assert_eq!(layout.chapters[0].slot, 1);
    v.cover = Some("/v/c1/01.jpg".to_string());
    assert!(separate_cover(&v).is_none());
}

#[test]
fn the_canvas_ignores_spreads_and_breaks_ties_on_size() {
    let slot = |w, h, spread| Slot { stem: "p".into(), ext: "jpg", width: w, height: h, spread, bytes: vec![] };
    assert_eq!(canvas_size(&vec![slot(1600, 1168, true), slot(1600, 1168, true), slot(800, 1168, false)]), (800, 1168));
    assert_eq!(canvas_size(&vec![slot(800, 1168, false), slot(900, 1200, false)]), (900, 1200));
    assert_eq!(canvas_size(&vec![slot(1600, 1168, true)]), (1600, 1168));
    assert_eq!(canvas_size(&vec![]), (0, 0));
}

#[test]
fn the_package_is_fixed_layout_with_the_cover_first() {
    let v = volume();
    let layout = build_slots(&v, None, renders());
    let opf = content_opf_at(&v.metadata, &layout.slots, (800, 1168), "2024-01-01T00:00:00Z");
    assert!(opf.contains("<meta property=\"rendition:layout\">pre-paginated</meta>"));
    assert!(opf.contains("page-progression-direction=\"rtl\""));
    assert!(opf.contains("<meta name=\"book-type\" content=\"comic\"/>"));
    assert!(opf.contains("content=\"800x1168\""));
    assert!(opf.contains("<dc:title>Ichi &amp; Co, Vol. 2</dc:title>"));
    assert!(opf.contains("href=\"images/p0001.jpg\" media-type=\"image/jpeg\" properties=\"cover-image\""));
    assert!(opf.contains("<meta refines=\"#series\" property=\"group-position\">2</meta>"));
    assert!(!opf.contains("<dc:description>"));
    assert_eq!(opf.matches("rendition:page-spread-center").count(), 1);
    assert!(opf.contains("<itemref idref=\"page-2\" properties=\"rendition:page-spread-center\"/>"));
    assert_eq!(opf.matches("<itemref").count(), 4);
    let spread = page_xhtml(&layout.slots[1]);
    assert!(spread.contains("content=\"width=1600, height=1168\""));
    assert!(spread.contains("width=\"1600\" height=\"1168\""));
    let half = page_xhtml(&layout.slots[2]);
    assert!(half.contains("content=\"width=800, height=1168\""));
}

fn names(bytes: &[u8]) -> Vec<String> {
    let mut zip = zip::ZipArchive::new(Cursor::new(bytes.to_vec())).unwrap();
    (0..zip.len()).map(|i| zip.by_index(i).unwrap().name().to_string()).collect()
}

#[test]
fn an_epub_holds_its_parts_in_order() {
    let v = volume();
    let layout = build_slots(&v, None, renders());
    let bytes = write_at(&v, &layout, "2024-01-01T00:00:00Z").unwrap();
    let n = names(&bytes);
    assert_eq!(n[0], "mimetype");
    assert_eq!(n[1], "META-INF/container.xml");
    assert_eq!(n[3], "OEBPS/images/p0001.jpg");
    assert_eq!(n[4], "OEBPS/text/p0001.xhtml");
    assert_eq!(n.last().unwrap(), "OEBPS/content.opf");
    let mut zip = zip::ZipArchive::new(Cursor::new(bytes)).unwrap();
    let mut mimetype = String::new();
    zip.by_name("mimetype").unwrap().read_to_string(&mut mimetype).unwrap();
    assert_eq!(mimetype, "application/epub+zip");
    let empty = Layout { slots: vec![], chapters: Vec::<ChapterStart>::new() };
    assert!(write_at(&v, &empty, "x").is_err());
}

#[test]
fn a_cbz_names_pages_by_chapter_and_position() {
    let v = volume();
    let bytes = cbz::write(&v, renders()).unwrap();
    let n = names(&bytes);
    assert_eq!(n, ["001_0001.jpg", "003_0002.jpg", "003_0003.jpg", "003_0004.jpg", "ComicInfo.xml"]);
    let info = cbz::comic_info(&v, 4);
    assert!(info.contains("<Manga>YesAndRightToLeft</Manga>"));
    assert!(info.contains("<PageCount>4</PageCount>"));
    assert!(info.contains("<Series>Ichi &amp; Co</Series>"));
    assert!(info.contains("<Volume>2</Volume>"));
    assert!(!info.contains("<Summary>"));
}

#[test]
fn an_entry_name_used_twice_is_refused_by_the_archive() {
    let mut a = Archive::new();
    assert_eq!(a.add("001.jpg", true, b"one"), Ok(()));
    assert_eq!(a.add("001.jpg", true, b"two"), Err(WriteError::Archive));
}

#[test]
fn a_finished_archive_holds_each_entry_once() {
    let mut a = Archive::new();
    a.add("a.txt", false, b"alpha").unwrap();
    a.add("b.txt", true, b"beta").unwrap();
    let bytes = a.finish().unwrap();
    let mut zip = zip::ZipArchive::new(Cursor::new(bytes)).unwrap();
    assert_eq!(zip.len(), 2);
    let mut text = String::new();
    zip.by_name("b.txt").unwrap().read_to_string(&mut text).unwrap();
    assert_eq!(text, "beta");
}
