use mangalize::library::layout::arrange_volumes;
use mangalize::library::model::{
    ChapterStatus, PublishedChapter, PublishedVolume, Series, SeriesId, SyncReport, VolumeStatus,
};
use mangalize::library::paths::{chapter_slug, page_name, series_slug, volume_slug};
use mangalize::library::volume::{author_line, claimed_chapters, dress_volume, stable_id};
use mangalize::project::{Chapter, Direction, Metadata, Volume};

#[test]
fn series_slugs_lose_path_separators() {
    assert_eq!(series_slug("Fullmetal / Alchemist", 3), "Fullmetal - Alchemist [3]");
}

#[test]
fn series_slugs_survive_an_empty_title() {
    assert_eq!(series_slug("   ", 9), "Untitled [9]");
}

#[test]
fn windows_would_eat_a_trailing_dot() {
    assert_eq!(series_slug("Vol.", 1), "Vol [1]");
}

#[test]
fn chapter_folders_sort_numerically_as_plain_text() {
    let mut names = vec![chapter_slug("10"), chapter_slug("2"), chapter_slug("1")];
    names.sort();
    assert_eq!(names, ["c0001", "c0002", "c0010"]);
}

#[test]
fn decimal_chapters_keep_their_fraction() {
    assert_eq!(chapter_slug("7.5"), "c0007.5");
    assert_eq!(chapter_slug("7.50"), "c0007.5");
}

#[test]
fn named_chapters_keep_their_name() {
    assert_eq!(chapter_slug("Oneshot"), "c-Oneshot");
}

#[test]
fn volume_covers_are_named_after_their_volume() {
    assert_eq!(volume_slug("1"), "v1");
    assert_eq!(volume_slug("7.5"), "v7.5");
    assert_eq!(volume_slug("a/b"), "va-b");
}

#[test]
fn one_person_drawing_and_writing_is_named_once() {
    assert_eq!(author_line("Nishi Osamu", "Nishi Osamu"), "Nishi Osamu");
    assert_eq!(author_line("Nishi Osamu", ""), "Nishi Osamu");
}

#[test]
fn a_writer_and_an_artist_are_both_credited() {
    assert_eq!(author_line("Nishi Osamu", "Usazaki Shiro"), "Nishi Osamu, Usazaki Shiro");
}

#[test]
fn volume_identity_is_stable_and_distinct_per_volume() {
    assert_eq!(stable_id("1|3"), stable_id("1|3"));
    assert_ne!(stable_id("1|3"), stable_id("1|4"));
}

#[test]
fn an_artist_alone_is_credited_alone() {
    assert_eq!(author_line("  ", " Usazaki Shiro "), "Usazaki Shiro");
    assert_eq!(author_line("", ""), "");
}

#[test]
fn stable_ids_are_uuid_shaped_fnv_hashes() {
    // FNV-1a with no input leaves the offset basis untouched.
    assert_eq!(stable_id(""), "00000000-0000-0000-cbf2-9ce484222325");
    let id = stable_id("1|3");
    assert_eq!(id.len(), 36);
    assert_eq!(id.matches('-').count(), 4);
}

#[test]
fn slugs_handle_long_negative_and_control_input() {
    let long = "x".repeat(200);
    let slug = series_slug(&long, -5);
    assert_eq!(slug, format!("{} [-5]", "x".repeat(120)));
    assert_eq!(series_slug("a\u{7}b", 2), "a-b [2]");
    assert_eq!(chapter_slug(" 12345 "), "c12345");
    assert_eq!(chapter_slug("0.25"), "c0000.25");
    assert_eq!(chapter_slug("///"), "c----");
    assert_eq!(chapter_slug("   "), "c-unnamed");
    assert_eq!(volume_slug(""), "v-unnamed");
}

#[test]
fn page_names_are_one_based_and_padded() {
    assert_eq!(page_name(0, "jpg"), "0001.jpg");
    assert_eq!(page_name(41, "png"), "0042.png");
    assert_eq!(page_name(12345, "webp"), "12346.webp");
}

fn chapter(number: &str, folder: Option<&str>, title: Option<&str>) -> ChapterStatus {
    ChapterStatus {
        number: number.to_string(),
        title: title.map(|t| t.to_string()),
        source_id: None,
        unavailable: false,
        last_page: 0,
        read_at: None,
        opened_at: None,
        folder: folder.map(|f| f.to_string()),
        page_count: 0,
        source_url: None,
        downloaded_at: None,
    }
}

#[test]
fn a_volume_is_complete_only_when_every_chapter_is_held() {
    let mut v = VolumeStatus {
        number: "1".to_string(),
        cover_url: None,
        cover_path: None,
        chapters: vec![chapter("1", Some("/c1"), None), chapter("2", None, None)],
        built: None,
    };
    assert_eq!(v.have(), 1);
    assert!(!v.complete());
    v.chapters[1].folder = Some("/c2".to_string());
    assert!(v.complete());
    v.chapters.clear();
    assert!(!v.complete());
}

fn published(number: &str, chapters: &[&str]) -> PublishedVolume {
    PublishedVolume {
        number: number.to_string(),
        cover_url: None,
        chapters: chapters
            .iter()
            .map(|c| PublishedChapter {
                number: c.to_string(),
                title: None,
                source_id: None,
                unavailable: false,
            })
            .collect(),
    }
}

#[test]
fn a_sync_counts_new_chapters_and_orphans_without_deleting() {
    let layout = vec![published("1", &["1", "2"]), published("2", &["3"])];
    let known = vec!["1".to_string()];
    let held = vec!["1".to_string(), "9".to_string()];
    let report = SyncReport::tally(&known, &held, &layout);
    assert_eq!(report, SyncReport { volumes: 2, chapters_added: 2, orphaned: 1 });
    let again = SyncReport::tally(
        &vec!["1".to_string(), "2".to_string(), "3".to_string()],
        &held,
        &layout,
    );
    assert_eq!(again.chapters_added, 0);
}

#[test]
fn a_stored_volume_is_dressed_with_what_the_library_knows() {
    let series = Series {
        id: SeriesId(7),
        source: None,
        source_id: None,
        title: "Ichi the Witch".to_string(),
        title_romaji: None,
        title_native: None,
        author: "Nishi Osamu".to_string(),
        artist: "Usazaki Shiro".to_string(),
        description: "A witch.".to_string(),
        year: None,
        status: None,
        language: "en".to_string(),
        direction: "left-to-right".to_string(),
        site_url: None,
        folder: "/lib/ichi".to_string(),
        cover_path: None,
        added_at: 0,
        synced_at: None,
        have_chapters: 0,
        known_chapters: 0,
        tags: vec![],
        content_rating: None,
        shelved: true,
    };
    let status = VolumeStatus {
        number: "3".to_string(),
        cover_url: None,
        cover_path: None,
        chapters: vec![
            chapter("20", Some("/c20"), Some("Spells")),
            chapter("21", None, None),
            chapter("22", Some("/c22"), Some("  ")),
        ],
        built: None,
    };
    let scanned = Volume {
        metadata: Metadata::empty(),
        cover: None,
        chapters: vec![
            Chapter { title: "c0020".to_string(), source: "/c20".to_string(), pages: vec![] },
            Chapter { title: "c0022".to_string(), source: "/c22".to_string(), pages: vec![] },
        ],
        root: "/lib/ichi/chapters".to_string(),
    };
    let v = dress_volume(scanned, &series, &status, "3", Some("/v3.jpg".to_string()));
    assert_eq!(v.metadata.series, "Ichi the Witch");
    assert_eq!(v.metadata.volume, Some(3));
    assert_eq!(v.metadata.author, "Nishi Osamu, Usazaki Shiro");
    assert_eq!(v.metadata.direction, Direction::LeftToRight);
    assert_eq!(v.metadata.identifier, format!("urn:uuid:{}", stable_id("7|3")));
    assert_eq!(v.chapters[0].title, "Chapter 20 \u{2014} Spells");
    assert_eq!(v.chapters[1].title, "Chapter 22");
    assert_eq!(v.cover.as_deref(), Some("/v3.jpg"));
}

#[test]
fn loose_chapters_gather_under_unsorted_which_sorts_last() {
    let rows = vec![
        (Some("10".to_string()), chapter("30", None, None)),
        (None, chapter("99", Some("/c99"), None)),
        (Some("2".to_string()), chapter("5", Some("/c5"), None)),
        (Some("Extras".to_string()), chapter("x", None, None)),
        (Some("2".to_string()), chapter("6", None, None)),
    ];
    let covers = vec![
        ("2".to_string(), Some("https://c/2.jpg".to_string()), Some("/covers/v2.jpg".to_string())),
        ("4".to_string(), Some("https://c/4.jpg".to_string()), None),
    ];
    let volumes = arrange_volumes(rows, &covers);
    let labels: Vec<&str> = volumes.iter().map(|v| v.number.as_str()).collect();
    assert_eq!(labels, ["2", "4", "10", "Extras", "Unsorted"]);
    let two = &volumes[0];
    assert_eq!(two.chapters.len(), 2);
    assert_eq!(two.chapters[0].number, "5");
    assert_eq!(two.cover_path.as_deref(), Some("/covers/v2.jpg"));
    assert!(volumes[1].chapters.is_empty());
    assert_eq!(volumes[1].cover_url.as_deref(), Some("https://c/4.jpg"));
    assert_eq!(volumes[4].chapters[0].number, "99");
}

#[test]
fn a_stored_volume_keeps_only_the_chapters_it_claims() {
    let chapter = |source: &str| Chapter { title: source.to_string(), source: source.to_string(), pages: vec![] };
    let scanned = Volume {
        metadata: Metadata::empty(),
        cover: None,
        chapters: vec![chapter("/s/c0001"), chapter("/s/c0002"), chapter("/s/c0003")],
        root: "/s".to_string(),
    };
    let dirs = vec!["/s/c0003".to_string(), "/s/c0001".to_string()];
    let v = claimed_chapters(scanned, &dirs, "/lib/s", "1").unwrap();
    let kept: Vec<&str> = v.chapters.iter().map(|c| c.source.as_str()).collect();
    assert_eq!(kept, ["/s/c0001", "/s/c0003"]);
    assert_eq!(v.root, "/lib/s");
    let none = Volume { metadata: Metadata::empty(), cover: None, chapters: vec![], root: String::new() };
    assert_eq!(claimed_chapters(none, &vec![], "/lib/s", "4").unwrap_err(), "no chapters of volume 4 are downloaded yet");
}
