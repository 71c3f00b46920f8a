use mangalize::page::{ExcludeReason, PageKind};
use mangalize::scan::{
    build_page, chapter_title, compare_chapter_dirs, find_at_word_start, scan_chapter, scan_volume,
    series_guess, stable_id, titlecase, FileProbe, Folder,
};

const PAGE_W: u32 = 800;
const PAGE_H: u32 = 1168;

fn probe(path: &str, dims: Option<(u32, u32)>) -> FileProbe {
    FileProbe { path: path.to_string(), bytes: 1000, dimensions: dims }
}

fn page(path: &str) -> FileProbe {
    probe(path, Some((PAGE_W, PAGE_H)))
}

/// The listing of a folder shaped like a real scrape: a spread, site
/// furniture, a different file-name scheme per chapter and a chapter 10.
fn fixture() -> (String, Vec<Folder>) {
    let root = "/tmp/x/Itch The Witch Volume 01".to_string();
    let ch1 = format!("{root}/itch-the-witch-ch1");
    let mut files1 = vec![];
    for i in (1..=5u32).rev() {
        let w = if i == 3 { PAGE_W * 2 } else { PAGE_W };
        files1.push(probe(&format!("{ch1}/{i:02}.jpg.jpeg"), Some((w, PAGE_H))));
    }
    files1.push(probe(&format!("{ch1}/banner.png"), Some((600, 400))));
    files1.push(probe(&format!("{ch1}/favicon-32x32.jpg.jpeg"), Some((32, 32))));
    files1.push(probe(&format!("{ch1}/close.svg"), None));
    files1.push(probe(&format!("{ch1}/pxf.gif"), None));

    let ch2 = format!("{root}/itch-the-witch-ch2");
    let files2 = (1..=10u32).map(|i| page(&format!("{ch2}/{i:02}_{:02}.jpg.jpeg", 30 - i))).collect();

    let ch10 = format!("{root}/itch-the-witch-ch10");
    let folders = vec![
        Folder { path: ch10.clone(), files: vec![page(&format!("{ch10}/01.jpg.jpeg"))] },
        Folder { path: ch1, files: files1 },
        Folder { path: ch2, files: files2 },
        Folder { path: format!("{root}/extras"), files: vec![probe(&format!("{root}/extras/notes.txt"), None)] },
    ];
    (root, folders)
}

#[test]
fn series_guess_strips_volume_suffix() {
    assert_eq!(series_guess("/x/Itch The Witch Volume 01"), "Itch The Witch");
    assert_eq!(series_guess("/x/berserk-vol.3"), "Berserk");
    assert_eq!(series_guess("/x/Berserk Vol. 3"), "Berserk");
}

#[test]
fn series_guess_keeps_words_that_merely_start_with_vol() {
    assert_eq!(series_guess("/x/Haikyuu Volleyball Club"), "Haikyuu Volleyball Club");
}

#[test]
fn chapter_titles_come_from_trailing_numbers() {
    assert_eq!(chapter_title("/x/itch-the-witch-ch7"), "Chapter 7");
    assert_eq!(chapter_title("/x/extras"), "Extras");
}

#[test]
fn identifier_is_stable_across_scans() {
    let a = stable_id("/x/Itch The Witch Volume 01");
    let b = stable_id("/y/Itch The Witch Volume 01");
    assert_eq!(a, b);
    assert_ne!(a, stable_id("/x/Itch The Witch Volume 02"));
}

#[test]
fn titlecase_collapses_separators_and_capitalises_words() {
    assert_eq!(titlecase("  the_witch--hat  atelier "), "The Witch Hat Atelier");
    assert_eq!(titlecase("ßig"), "SSig");
    assert_eq!(titlecase(""), "");
}

#[test]
fn a_marker_counts_only_at_the_start_of_a_word() {
    let hay: Vec<char> = "volley vol 2".chars().collect();
    assert_eq!(find_at_word_start(&hay, "vol "), Some(7));
    assert_eq!(find_at_word_start(&hay, "vol"), Some(0));
    let hay: Vec<char> = "xvol".chars().collect();
    assert_eq!(find_at_word_start(&hay, "vol"), None);
}

#[test]
fn chapter_folders_sort_by_their_trailing_number() {
    assert_eq!(compare_chapter_dirs("/r/ch10", "/r/ch2"), 1);
    assert_eq!(compare_chapter_dirs("/r/ch2", "/r/ch10"), -1);
    assert_eq!(compare_chapter_dirs("/r/b", "/r/a"), 1);
}

#[test]
fn files_that_are_not_pages_never_become_pages() {
    assert!(build_page(&probe("/c/close.svg", None)).is_none());
    let unreadable = build_page(&probe("/c/broken.jpg", None)).unwrap();
    assert_eq!(unreadable.excluded, Some(ExcludeReason::Unreadable));
    assert_eq!((unreadable.width, unreadable.height), (0, 0));
}

#[test]
fn a_chapter_lists_its_pages_in_natural_order() {
    let files = vec![page("/c/10.jpg"), page("/c/9.jpg"), page("/c/x.css")];
    let c = scan_chapter("/c/ch3", files);
    let names: Vec<String> = c.pages.iter().map(|p| p.file_name()).collect();
    assert_eq!(names, ["9.jpg", "10.jpg"]);
    assert_eq!(c.title, "Chapter 3");
    assert_eq!(c.source, "/c/ch3");
}

#[test]
fn scan_reads_the_volume_the_way_a_reader_would() {
    let (root, folders) = fixture();
    let v = scan_volume(&root, folders, vec![]);

    assert_eq!(v.metadata.series, "Itch The Witch");
    assert_eq!(v.metadata.volume, Some(1));
    assert_eq!(v.chapters.len(), 3);
    assert!(v.metadata.identifier.starts_with("urn:uuid:"));
    assert_eq!(v.metadata.identifier, format!("urn:uuid:{}", stable_id(&root)));

    let titles: Vec<_> = v.chapters.iter().map(|c| c.title.as_str()).collect();
    assert_eq!(titles, ["Chapter 1", "Chapter 2", "Chapter 10"]);
    assert_eq!(v.total_included(), 16);

    let ch1 = &v.chapters[0];
    assert_eq!(ch1.included_count(), 5);
    assert_eq!(ch1.excluded_count(), 2);
    assert!(ch1.pages.iter().all(|p| !p.file_name().ends_with(".svg") && !p.file_name().ends_with(".gif")));
    assert!(ch1
        .pages
        .iter()
        .filter(|p| !p.is_included())
        .all(|p| matches!(p.excluded, Some(ExcludeReason::OffSize { .. }))));

    let ch2_names: Vec<String> = v.chapters[1].pages.iter().map(|p| p.file_name()).collect();
    assert_eq!(ch2_names.first().map(String::as_str), Some("01_29.jpg.jpeg"));
    assert_eq!(ch2_names.last().map(String::as_str), Some("10_20.jpg.jpeg"));
}

#[test]
fn the_wide_page_is_flagged_as_a_spread_and_kept_whole() {
    let (root, folders) = fixture();
    let v = scan_volume(&root, folders, vec![]);
    let spreads: Vec<_> = v.chapters.iter().flat_map(|c| c.pages.iter()).filter(|p| p.kind == PageKind::Spread).collect();
    assert_eq!(spreads.len(), 1);
    assert_eq!(spreads[0].file_name(), "03.jpg.jpeg");
    assert!(!spreads[0].split, "spreads must default to unsplit");
}

#[test]
fn a_folder_of_loose_images_is_one_chapter() {
    let loose = vec![page("/v/Solo/2.png"), page("/v/Solo/1.png"), page("/v/Solo/3.png")];
    let v = scan_volume("/v/Solo", vec![], loose);
    assert_eq!(v.chapters.len(), 1);
    assert_eq!(v.chapters[0].title, "Solo");
    assert_eq!(v.chapters[0].source, "/v/Solo");
    assert_eq!(v.chapters[0].pages[0].file_name(), "1.png");
    assert_eq!(v.metadata.volume, None);
    assert_eq!(v.root, "/v/Solo");
}

#[test]
fn too_few_pages_to_trust_a_norm_are_left_unjudged() {
    let loose = vec![probe("/v/A/1.png", Some((800, 1200))), probe("/v/A/2.png", Some((30, 30)))];
    let v = scan_volume("/v/A", vec![], loose);
    assert!(v.chapters[0].pages.iter().all(|p| p.excluded.is_none() && p.kind == PageKind::Single));
}

#[test]
fn nothing_to_read_is_an_empty_volume() {
    let v = scan_volume("/v/Empty", vec![], vec![probe("/v/Empty/readme.txt", None)]);
    assert!(v.chapters.is_empty());
}
