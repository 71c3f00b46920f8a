use mangalize::batch::{
    check_found, check_pages, downloaded_label, next_step, output_root, BatchReport, BuildBatchReport,
    BuiltVolume, Step,
};
use mangalize::cli::{describe, missing_chapters, pick_index, resolve_root, truncate, with_overrides};
use mangalize::library::model::{ChapterStatus, VolumeStatus};
use mangalize::library::sources::{new_series_from, parse_source, published_layout, source_name};
use mangalize::meta::{ChapterRef, SeriesMatch, Source, VolumeChapters, VolumeCover};
use mangalize::page::{ExcludeReason, PageKind};
use mangalize::project::{Direction, Metadata, Volume};
use mangalize::reader::{online_chapters, stable_key};
use mangalize::send::{account, display_name, send_target, DeliveryConfig, Security, SendReport};
use mangalize::settings::{default_library_root, default_output_root, load, save, set_library_root, Stored};

#[test]
fn a_batch_works_through_its_items_and_stops_when_asked() {
    assert_eq!(next_step(0, 3, false), Step::Work { index: 0, pause: false });
    assert_eq!(next_step(1, 3, false), Step::Work { index: 1, pause: true });
    assert_eq!(next_step(1, 3, true), Step::Stop { cancelled: true });
    assert_eq!(next_step(3, 3, true), Step::Stop { cancelled: false });
}

#[test]
fn a_failed_chapter_is_recorded_and_the_run_goes_on() {
    let mut report = BatchReport::new();
    report.record("7", Ok(downloaded_label("7", 21)));
    report.record("8", Err("no page images found".into()));
    report.record("9", Ok("9".into()));
    assert_eq!(report.downloaded, vec!["7 (21 pages)".to_string(), "9".to_string()]);
    assert_eq!(report.failed.len(), 1);
    assert_eq!((report.failed[0].number.as_str(), report.failed[0].error.as_str()), ("8", "no page images found"));
    assert!(!report.cancelled);
}

#[test]
fn a_build_batch_records_each_volume() {
    let mut report = BuildBatchReport::new();
    report.record("1", Ok(BuiltVolume { volume: "1".into(), path: "/o/a.epub".into(), bytes: 9, pages: 3 }));
    report.record("2", Err("volume 2 has no pages".into()));
    assert_eq!(report.built.len(), 1);
    assert_eq!(report.failed[0].volume, "2");
    assert_eq!(check_pages("2", 0).unwrap_err(), "volume 2 has no pages");
    assert!(check_pages("2", 1).is_ok());
    assert_eq!(check_found("https://x/c1", 0).unwrap_err(), "no page images found at https://x/c1");
}

#[test]
fn a_build_needs_somewhere_to_write() {
    assert_eq!(output_root(Some("/a".into()), Some("/b".into())).unwrap(), "/a");
    assert_eq!(output_root(None, Some("/b".into())).unwrap(), "/b");
    assert_eq!(output_root(None, None).unwrap_err(), "no output folder is set — choose one in Settings");
}

#[test]
fn missing_settings_fall_back_to_the_defaults() {
    let s = load(Stored::default(), Some("/home/u")).unwrap();
    assert_eq!(s.library_root, "/home/u/Mangalize");
    assert_eq!(s.output_root, None);
    assert_eq!(s.default_format, "epub");
    assert!(s.folder_per_series && s.split_spreads && !s.welcomed);
    assert_eq!(load(Stored::default(), None).unwrap_err(), "could not find your home directory");
    let stored = Stored { library_root: Some("/lib".into()), ..Stored::default() };
    assert_eq!(load(stored, None).unwrap().library_root, "/lib");
}

#[test]
fn settings_survive_a_round_trip() {
    let s = load(Stored::default(), Some("/home/u/")).unwrap();
    let s = set_library_root(s, "/elsewhere".into());
    let again = load(save(&s), None).unwrap();
    assert_eq!(again, s);
    assert_eq!(default_output_root(Some("/home/u")).unwrap(), "/home/u/Mangalize/Exports");
    assert_eq!(default_library_root(Some("")).unwrap(), "Mangalize");
}

fn hit() -> SeriesMatch {
    SeriesMatch {
        source: Source::MangaDex,
        id: "abc".into(),
        title_english: None,
        title_romaji: Some("Madan no Ichi".into()),
        title_native: None,
        author: Some("Nishi".into()),
        artist: None,
        description: None,
        year: Some(2024),
        status: Some("ongoing".into()),
        demographic: None,
        thumbnail_url: None,
        site_url: None,
    }
}

#[test]
fn a_search_result_becomes_a_new_series() {
    let n = new_series_from(&hit());
    assert_eq!(n.source.as_deref(), Some("mangadex"));
    assert_eq!(n.source_id.as_deref(), Some("abc"));
    assert_eq!(n.title, "Madan no Ichi");
    assert_eq!(n.author, "Nishi");
    assert_eq!(n.artist, "");
    assert_eq!(n.year, Some(2024));
}

#[test]
fn sources_are_stored_by_name() {
    assert_eq!(source_name(Source::Kitsu), "kitsu");
    assert_eq!(parse_source("mangadex").unwrap(), Source::MangaDex);
    assert_eq!(parse_source("kitsu").unwrap(), Source::Kitsu);
    assert_eq!(parse_source("anilist").unwrap_err(), "unknown metadata source \"anilist\"");
}

fn chapter(number: &str, id: Option<&str>, unavailable: bool) -> ChapterRef {
    ChapterRef { number: number.into(), id: id.map(str::to_string), unavailable }
}

#[test]
fn a_layout_takes_each_volume_with_its_own_cover() {
    let published = vec![
        VolumeChapters { volume: "1".into(), chapters: vec![chapter("1", Some("c1"), false), chapter("2", None, true)] },
        VolumeChapters { volume: "2".into(), chapters: vec![] },
    ];
    let covers = vec![
        VolumeCover { volume: None, url: "u0".into(), thumbnail_url: "t0".into() },
        VolumeCover { volume: Some("1".into()), url: "u1".into(), thumbnail_url: "t1".into() },
        VolumeCover { volume: Some("1".into()), url: "u1b".into(), thumbnail_url: "t1b".into() },
    ];
    let layout = published_layout(&published, &covers);
    assert_eq!(layout.len(), 2);
    assert_eq!(layout[0].cover_url.as_deref(), Some("u1"));
    assert_eq!(layout[1].cover_url, None);
    assert_eq!(layout[0].chapters[0].source_id.as_deref(), Some("c1"));
    assert!(layout[0].chapters[1].unavailable);
    assert!(layout[0].chapters.iter().all(|c| c.title.is_none()));
}

#[test]
fn only_chapters_the_source_serves_can_be_streamed() {
    let volumes = vec![
        VolumeChapters { volume: "1".into(), chapters: vec![chapter("1", Some("a"), false), chapter("2", Some("b"), true)] },
        VolumeChapters { volume: "2".into(), chapters: vec![chapter("3", None, false), chapter("4", Some("d"), false)] },
    ];
    let refs = online_chapters(&volumes);
    let pairs: Vec<(&str, &str)> = refs.iter().map(|r| (r.id.as_str(), r.number.as_str())).collect();
    assert_eq!(pairs, vec![("a", "1"), ("d", "4")]);
}

#[test]
fn a_page_keeps_its_cache_key_whatever_server_served_it() {
    let a = stable_key("https://abc.mangadex.network:443/data/h/1.png");
    let b = stable_key("https://xyz.mangadex.network/data/h/1.png");
    assert_eq!(a, b);
    assert_ne!(a, stable_key("https://xyz.mangadex.network/data/h/2.png"));
    // No path after the host: the whole address is the key.
    assert_ne!(stable_key("https://a.example"), stable_key("https://b.example"));
    // FNV-1a of "/" alone.
    assert_eq!(stable_key("https://a.example/"), (0xcbf2_9ce4_8422_2325u64 ^ 0x2f).wrapping_mul(0x0000_0100_0000_01b3));
}

fn config(host: &str, security: &str) -> DeliveryConfig {
    DeliveryConfig {
        kindle_email: " me@kindle.com ".into(),
        host: host.into(),
        port: 465,
        security: security.into(),
        username: " me ".into(),
        from: " me@example.com".into(),
    }
}

#[test]
fn a_delivery_config_becomes_an_account() {
    let a = account(&config(" smtp.example.com ", "tls")).unwrap();
    assert_eq!(a.host, "smtp.example.com");
    assert_eq!(a.security, Security::Tls);
    assert_eq!(a.username, "me");
    assert_eq!(a.from, "me@example.com");
    assert_eq!(account(&config("x", "none")).unwrap().security, Security::Unencrypted);
    assert_eq!(account(&config("x", "starttls")).unwrap().security, Security::StartTls);
    assert_eq!(account(&config("  ", "tls")).unwrap_err(), "no mail server set — add one under Send");
}

#[test]
fn a_send_needs_files_and_an_address() {
    assert_eq!(send_target(0, "me@kindle.com").unwrap_err(), "nothing to send");
    assert_eq!(send_target(2, "  ").unwrap_err(), "no device address set — add one under Send");
    assert_eq!(send_target(2, " me@kindle.com ").unwrap(), "me@kindle.com");
    let mut report = SendReport::new();
    report.record(&display_name("/out/Ichi/Ichi v01.epub"), Ok(()));
    report.record(&display_name("/out/big.epub"), Err("too big".into()));
    assert_eq!(report.sent, vec!["Ichi v01.epub".to_string()]);
    assert_eq!(report.failed[0].file, "big.epub");
    assert_eq!(display_name("/"), "/");
}

fn status(number: &str, downloaded: bool) -> ChapterStatus {
    ChapterStatus {
        number: number.into(),
        title: None,
        source_id: None,
        unavailable: false,
        last_page: 0,
        read_at: None,
        opened_at: None,
        folder: if downloaded { Some(format!("/lib/{number}")) } else { None },
        page_count: 0,
        source_url: None,
        downloaded_at: None,
    }
}

#[test]
fn a_batch_looks_only_for_the_gaps() {
    let volumes = vec![
        VolumeStatus { number: "1".into(), cover_url: None, cover_path: None, chapters: vec![status("1", true), status("2", false)], built: None },
        VolumeStatus { number: "2".into(), cover_url: None, cover_path: None, chapters: vec![status("3", false)], built: None },
    ];
    assert_eq!(missing_chapters(&volumes), vec!["2".to_string(), "3".to_string()]);
}

#[test]
fn the_library_root_comes_from_the_flag_the_environment_or_home() {
    assert_eq!(resolve_root(Some("/a".into()), Some("/b".into()), Some("/h".into())).unwrap(), "/a");
    assert_eq!(resolve_root(None, Some("/b".into()), Some("/h".into())).unwrap(), "/b");
    assert_eq!(resolve_root(None, None, Some("/h".into())).unwrap(), "/h/Mangalize");
    assert_eq!(resolve_root(None, None, None).unwrap_err(), "no HOME set; pass --library");
}

#[test]
fn long_names_are_cut_with_an_ellipsis() {
    assert_eq!(truncate("short", 10), "short");
    assert_eq!(truncate("exactly", 7), "exactly");
    assert_eq!(truncate("Ichi the Witch", 5), "Ichi…");
    assert_eq!(truncate("ab", 0), "…");
}

#[test]
fn pages_are_described_as_the_scanner_judged_them() {
    assert_eq!(describe(None, PageKind::Spread), "spread");
    assert_eq!(describe(None, PageKind::Single), "");
    assert_eq!(describe(Some(ExcludeReason::OffSize { width: 1, height: 2 }), PageKind::Single), "excluded: off-size");
    assert_eq!(describe(Some(ExcludeReason::Manual), PageKind::Spread), "excluded: manual");
}

#[test]
fn command_line_overrides_replace_what_was_guessed() {
    let mut metadata = Metadata::empty();
    metadata.series = "Guess".into();
    let v = Volume { metadata, cover: None, chapters: vec![], root: "/r".into() };
    let v = with_overrides(v, Some("Real".into()), None, true);
    assert_eq!(v.metadata.series, "Real");
    assert_eq!(v.metadata.author, "");
    assert_eq!(v.metadata.direction, Direction::LeftToRight);
}

#[test]
fn a_pick_must_name_a_result() {
    assert_eq!(pick_index(1, 3).unwrap(), 0);
    assert_eq!(pick_index(3, 3).unwrap(), 2);
    assert_eq!(pick_index(0, 3).unwrap_err(), "--pick must be between 1 and 3");
    assert_eq!(pick_index(4, 3).unwrap_err(), "--pick must be between 1 and 3");
}
