use std::io::{Cursor, Read};

use image::{ImageBuffer, Rgb};
use mangalize::compress::Compression;
use mangalize::project::Volume;
use mangalize::scan::{scan_volume, FileProbe, Folder};
use mangalize::writers::epub::{build_slots, separate_cover, CoverImage};
use mangalize::writers::{cbz, render_page, Rendered, Target};

const PAGE_W: u32 = 800;
const PAGE_H: u32 = 1168;

fn jpeg(w: u32, h: u32) -> Vec<u8> {
    let img: ImageBuffer<Rgb<u8>, Vec<u8>> =
        ImageBuffer::from_fn(w, h, |x, y| Rgb([(x % 256) as u8, (y % 256) as u8, 128]));
    let mut bytes = Vec::new();
    img.write_to(&mut Cursor::new(&mut bytes), image::ImageFormat::Jpeg).unwrap();
    bytes
}

fn probe(path: &str, dims: Option<(u32, u32)>) -> FileProbe {
    FileProbe { path: path.to_string(), bytes: 1000, dimensions: dims }
}

/// The listing of a folder shaped like the real `Itch The Witch` scrape.
fn fixture() -> Volume {
    let root = "/lib/Itch The Witch Volume 01".to_string();
    let ch1 = format!("{root}/itch-the-witch-ch1");
    let mut files1 = vec![];
    for i in 1..=5u32 {
        let w = if i == 3 { PAGE_W * 2 } else { PAGE_W };
        files1.push(probe(&format!("{ch1}/{i:02}.jpg.jpeg"), Some((w, PAGE_H))));
    }
    files1.push(probe(&format!("{ch1}/banner.png"), Some((600, 400))));
    files1.push(probe(&format!("{ch1}/favicon-32x32.jpg.jpeg"), Some((32, 32))));
    files1.push(probe(&format!("{ch1}/close.svg"), None));
    files1.push(probe(&format!("{ch1}/pxf.gif"), None));
    let ch2 = format!("{root}/itch-the-witch-ch2");
    let files2 =
        (1..=10u32).map(|i| probe(&format!("{ch2}/{i:02}_{:02}.jpg.jpeg", 30 - i), Some((PAGE_W, PAGE_H)))).collect();
    let ch10 = format!("{root}/itch-the-witch-ch10");
    let folders = vec![
        Folder { path: ch1, files: files1 },
        Folder { path: ch2, files: files2 },
        Folder { path: ch10.clone(), files: vec![probe(&format!("{ch10}/01.jpg.jpeg"), Some((PAGE_W, PAGE_H)))] },
    ];
    scan_volume(&root, folders, vec![])
}

fn rendered(v: &Volume, target: Target) -> Vec<Vec<Rendered>> {
    v.included_pages()
        .into_iter()
        .map(|p| {
            render_page(p, jpeg(p.width, p.height), v.metadata.direction, &Compression::original(), target)
                .unwrap()
        })
        .collect()
}

fn epub(v: &Volume, cover: Option<CoverImage>) -> Vec<u8> {
    let layout = build_slots(v, cover, rendered(v, Target::Epub));
    mangalize::writers::epub::write(v, &layout).unwrap()
}

fn names(bytes: &[u8]) -> Vec<String> {
    let mut zip = zip::ZipArchive::new(Cursor::new(bytes.to_vec())).unwrap();
    (0..zip.len()).map(|i| zip.by_index(i).unwrap().name().to_string()).collect()
}

fn read_entry(bytes: &[u8], name: &str) -> String {
    let mut zip = zip::ZipArchive::new(Cursor::new(bytes.to_vec())).unwrap();
    let mut s = String::new();
    zip.by_name(name).unwrap().read_to_string(&mut s).unwrap();
    s
}

#[test]
fn epub_is_a_well_formed_fixed_layout_package() {
    let v = fixture();
    let bytes = epub(&v, None);
    assert_eq!(&bytes[30..38], b"mimetype");
    assert_eq!(&bytes[38..58], b"application/epub+zip");

    let names = names(&bytes);
    assert!(names.contains(&"META-INF/container.xml".to_string()));
    assert!(names.contains(&"OEBPS/content.opf".to_string()));
    assert!(names.contains(&"OEBPS/nav.xhtml".to_string()));
    assert_eq!(names.iter().filter(|n| n.starts_with("OEBPS/images/")).count(), 16);
    assert_eq!(names.iter().filter(|n| n.starts_with("OEBPS/text/")).count(), 16);

    let opf = read_entry(&bytes, "OEBPS/content.opf");
    assert!(opf.contains(r#"<meta property="rendition:layout">pre-paginated</meta>"#));
    assert!(opf.contains(r#"page-progression-direction="rtl""#));
    assert!(opf.contains(r#"<meta name="book-type" content="comic"/>"#));
    assert!(opf.contains(r#"content="800x1168""#), "norm size drives original-resolution");
    assert_eq!(opf.matches("cover-image").count(), 1);
    assert_eq!(opf.matches("rendition:page-spread-center").count(), 1);
    assert_eq!(opf.matches("<itemref").count(), 16);

    let spread_page = read_entry(&bytes, "OEBPS/text/p0003.xhtml");
    assert!(spread_page.contains(r#"content="width=1600, height=1168""#));
    let normal_page = read_entry(&bytes, "OEBPS/text/p0001.xhtml");
    assert!(normal_page.contains(r#"content="width=800, height=1168""#));
}

#[test]
fn cbz_holds_every_page_plus_comicinfo() {
    let v = fixture();
    let bytes = cbz::write(&v, rendered(&v, Target::Cbz)).unwrap();
    let images: Vec<String> = names(&bytes).into_iter().filter(|n| n.ends_with(".jpg")).collect();
    assert_eq!(images.len(), 16);
    let mut sorted = images.clone();
    sorted.sort();
    assert_eq!(sorted, images, "names must already be in lexicographic order");

    let info = read_entry(&bytes, "ComicInfo.xml");
    assert!(info.contains("<Manga>YesAndRightToLeft</Manga>"));
    assert!(info.contains("<PageCount>16</PageCount>"));
    assert!(info.contains("<Series>Itch The Witch</Series>"));
}

#[test]
fn an_explicit_cover_is_added_ahead_of_page_one() {
    let mut v = fixture();
    v.cover = Some("/lib/Itch The Witch Volume 01/cover.jpg".to_string());
    assert!(separate_cover(&v).is_some());
    let cover = CoverImage { bytes: jpeg(PAGE_W, PAGE_H), width: PAGE_W, height: PAGE_H };
    let bytes = epub(&v, Some(cover));
    let names = names(&bytes);
    assert!(names.iter().any(|n| n == "OEBPS/images/cover.jpg"));
    assert_eq!(names.iter().filter(|n| n.starts_with("OEBPS/images/")).count(), 17);
    let opf = read_entry(&bytes, "OEBPS/content.opf");
    assert!(opf.contains(r#"href="images/cover.jpg" media-type="image/jpeg" properties="cover-image""#));
}

#[test]
fn without_an_explicit_cover_page_one_is_reused_rather_than_duplicated() {
    let v = fixture();
    let bytes = epub(&v, None);
    assert_eq!(names(&bytes).iter().filter(|n| n.starts_with("OEBPS/images/")).count(), 16);
    let opf = read_entry(&bytes, "OEBPS/content.opf");
    assert!(opf.contains(r#"href="images/p0001.jpg" media-type="image/jpeg" properties="cover-image""#));
}

#[test]
fn a_split_spread_becomes_two_ordinary_pages_in_the_package() {
    let mut v = fixture();
    for chapter in &mut v.chapters {
        for page in &mut chapter.pages {
            if page.kind == mangalize::page::PageKind::Spread {
                page.split = true;
            }
        }
    }
    let bytes = epub(&v, None);
    let names = names(&bytes);
    assert_eq!(names.iter().filter(|n| n.starts_with("OEBPS/images/")).count(), 17, "the spread became two pages");
    let opf = read_entry(&bytes, "OEBPS/content.opf");
    assert_eq!(opf.matches("rendition:page-spread-center").count(), 0);
    for stem in ["p0003", "p0004"] {
        let doc = read_entry(&bytes, &format!("OEBPS/text/{stem}.xhtml"));
        assert!(doc.contains(r#"content="width=800, height=1168""#), "{stem}");
    }
}
