use mangalize::library::index::Index;
use mangalize::library::removal::deletion_target;
use mangalize::library::model::{NewSeries, PublishedChapter, PublishedVolume, SeriesId};
use mangalize::reader::OnlineRead;
use mangalize::scan::FileProbe;

fn ichi() -> NewSeries {
    NewSeries {
        source: Some("mangadex".into()),
        source_id: Some("dea77c2d".into()),
        title: "Ichi the Witch".into(),
        author: "Nishi Osamu".into(),
        artist: "Usazaki Shiro".into(),
        description: "In this world, witches must hunt down their magic!".into(),
        year: Some(2024),
        ..NewSeries::default()
    }
}

/// The shape MangaDex returns: two volumes, three chapters each.
fn layout() -> Vec<PublishedVolume> {
    ["1", "2"]
        .iter()
        .enumerate()
        .map(|(v, number)| PublishedVolume {
            number: number.to_string(),
            cover_url: Some(format!("https://covers.test/{number}.jpg")),
            chapters: (1..=3)
                .map(|c| PublishedChapter {
                    number: (v * 3 + c).to_string(),
                    title: None,
                    source_id: Some(format!("chapter-uuid-{}", v * 3 + c)),
                    unavailable: false,
                })
                .collect(),
        })
        .collect()
}

fn open() -> Index {
    Index::new("/lib")
}

/// A library holding Ichi with its layout and chapters 1 to 3 on disk.
fn readable() -> (Index, SeriesId) {
    let mut library = open();
    let series = library.add_series(ichi()).unwrap();
    library.sync_layout(series.id, &layout()).unwrap();
    for chapter in ["1", "2", "3"] {
        library.record_chapter(series.id, chapter, 5, None).unwrap();
    }
    (library, series.id)
}

#[test]
fn adding_a_series_creates_its_folder_and_is_idempotent() {
    let mut library = open();
    let first = library.add_series(ichi()).unwrap();
    assert_eq!(first.folder, "/lib/series/Ichi the Witch [1]");
    assert_eq!(library.chapter_dir(first.id, "7").unwrap(), "/lib/series/Ichi the Witch [1]/chapters/c0007");
    assert_eq!(first.title, "Ichi the Witch");

    let second = library.add_series(ichi()).unwrap();
    assert_eq!(first.id, second.id);
    assert_eq!(library.all_series().len(), 1);
}

#[test]
fn a_published_layout_becomes_a_list_of_missing_chapters() {
    let mut library = open();
    let series = library.add_series(ichi()).unwrap();

    let report = library.sync_layout(series.id, &layout()).unwrap();
    assert_eq!(report.volumes, 2);
    assert_eq!(report.chapters_added, 6);

    let volumes = library.volumes(series.id, &vec![]).unwrap();
    assert_eq!(volumes.len(), 2);
    assert_eq!(volumes[0].number, "1");
    assert_eq!(volumes[0].chapters.len(), 3);
    assert_eq!(volumes[0].have(), 0);
    assert!(!volumes[0].complete());
    assert!(volumes[0].chapters.iter().all(|c| !c.downloaded()));
    assert_eq!(volumes[1].cover_url.as_deref(), Some("https://covers.test/2.jpg"));

    let stored = library.series(series.id).unwrap();
    assert_eq!((stored.have_chapters, stored.known_chapters), (0, 6));
    assert!(stored.synced_at.is_some());
}

#[test]
fn syncing_twice_adds_nothing_and_keeps_downloaded_chapters() {
    let mut library = open();
    let series = library.add_series(ichi()).unwrap();
    library.sync_layout(series.id, &layout()).unwrap();

    library.record_chapter(series.id, "2", 4, Some("https://reader.test/2")).unwrap();

    let again = library.sync_layout(series.id, &layout()).unwrap();
    assert_eq!(again.chapters_added, 0);

    let chapter = library.chapter(series.id, "2").unwrap();
    assert!(chapter.downloaded());
    assert_eq!(chapter.page_count, 4);
    assert_eq!(chapter.source_url.as_deref(), Some("https://reader.test/2"));
}

#[test]
fn a_chapter_the_index_forgot_is_kept_and_counted_as_orphaned() {
    let mut library = open();
    let series = library.add_series(ichi()).unwrap();
    library.sync_layout(series.id, &layout()).unwrap();

    library.record_chapter(series.id, "99", 2, None).unwrap();

    let report = library.sync_layout(series.id, &layout()).unwrap();
    assert_eq!(report.orphaned, 1);
    assert!(library.chapter(series.id, "99").unwrap().downloaded());
}

#[test]
fn chapters_no_volume_claims_are_gathered_under_unsorted_and_sort_last() {
    let mut library = open();
    let series = library.add_series(ichi()).unwrap();
    library.sync_layout(series.id, &layout()).unwrap();

    library.record_chapter(series.id, "99", 1, None).unwrap();

    let volumes = library.volumes(series.id, &vec![]).unwrap();
    let labels: Vec<&str> = volumes.iter().map(|v| v.number.as_str()).collect();
    assert_eq!(labels, ["1", "2", "Unsorted"]);
}

#[test]
fn deleting_a_chapter_removes_its_files_but_leaves_the_gap_visible() {
    let mut library = open();
    let series = library.add_series(ichi()).unwrap();
    library.sync_layout(series.id, &layout()).unwrap();

    let dir = library.chapter_dir(series.id, "2").unwrap();
    library.record_chapter(series.id, "2", 3, None).unwrap();

    let gone = library.delete_chapter(series.id, "2").unwrap();
    assert_eq!(gone, Some(dir));

    let volumes = library.volumes(series.id, &vec![]).unwrap();
    assert_eq!(volumes[0].chapters.len(), 3);
    assert!(!library.chapter(series.id, "2").unwrap().downloaded());
}

#[test]
fn removing_a_series_leaves_its_files_alone_unless_asked() {
    let mut library = open();
    let series = library.add_series(ichi()).unwrap();

    let folder = library.remove_series(series.id).unwrap();
    assert!(library.all_series().is_empty());
    assert_eq!(folder, series.folder, "the caller decides whether the folder goes");
}

#[test]
fn removing_a_series_with_its_files_takes_the_folder_too() {
    let mut library = open();
    let series = library.add_series(ichi()).unwrap();
    library.sync_layout(series.id, &layout()).unwrap();
    library.record_chapter(series.id, "1", 3, None).unwrap();

    let folder = library.remove_series(series.id).unwrap();

    assert_eq!(folder, series.folder);
    assert!(library.all_series().is_empty());
    assert!(library.chapter(series.id, "1").is_err());
    assert!(library.chapters.is_empty() && library.volumes.is_empty());
}

#[test]
fn removing_a_series_never_reaches_outside_the_library() {
    let mut library = open();
    let series = library
        .add_series(NewSeries { title: "../../etc".into(), ..ichi() })
        .unwrap();
    let folder = library.remove_series(series.id).unwrap();
    assert!(folder.starts_with("/lib/series/"));
    assert!(!folder["/lib/series/".len()..].contains('/'));
}

#[test]
fn progress_is_remembered_so_a_chapter_resumes_where_it_stopped() {
    let (mut library, id) = readable();

    library.save_progress(id, "2", 3, false);

    let chapter = library.chapter(id, "2").unwrap();
    assert_eq!(chapter.last_page, 3);
    assert!(chapter.opened_at.is_some(), "opening is what history records");
    assert!(chapter.read_at.is_none(), "stopping midway is not finishing");
}

#[test]
fn finishing_is_recorded_separately_from_opening() {
    let (mut library, id) = readable();

    library.save_progress_at(id, "1", 4, true, 1000);
    let finished = library.chapter(id, "1").unwrap();
    assert_eq!(finished.read_at, Some(1000));

    library.save_progress_at(id, "1", 1, true, 2000);
    let again = library.chapter(id, "1").unwrap();
    assert_eq!(again.read_at, Some(1000));
    assert_eq!(again.opened_at, Some(2000));
}

#[test]
fn history_is_most_recently_opened_first() {
    let (mut library, id) = readable();

    for (at, chapter) in ["1", "2", "3"].iter().enumerate() {
        library.save_progress_at(id, chapter, 1, false, 100 + at as i64);
    }

    let history = library.history(10);
    let order: Vec<&str> = history.iter().map(|h| h.chapter.as_str()).collect();
    assert_eq!(order, ["3", "2", "1"]);
    assert_eq!(history[0].series_title, "Ichi the Witch");
    assert_eq!(history[0].page_count, 5);
    assert_eq!(library.history(2).len(), 2);
}

#[test]
fn history_keeps_a_deleted_chapter_the_source_can_still_serve() {
    let (mut library, id) = readable();
    library.save_progress(id, "1", 2, false);
    library.save_progress(id, "2", 2, false);

    library.delete_chapter(id, "1").unwrap();

    let history = library.history(10);
    assert_eq!(history.len(), 2);
    let deleted = history.iter().find(|e| e.chapter == "1").unwrap();
    assert!(!deleted.downloaded);
    assert!(deleted.chapter_source_id.is_some());
}

#[test]
fn history_drops_a_deleted_chapter_that_can_no_longer_be_opened_at_all() {
    let mut library = open();
    let series = library.add_series(ichi()).unwrap();

    library.record_chapter(series.id, "1", 3, Some("https://reader.test/ch-1")).unwrap();
    library.save_progress(series.id, "1", 1, false);
    assert_eq!(library.history(10).len(), 1);

    library.delete_chapter(series.id, "1").unwrap();

    assert!(library.history(10).is_empty(), "an entry that cannot be reopened from anywhere is a dead end");
}

#[test]
fn continue_reading_offers_the_chapter_that_was_left_unfinished() {
    let (mut library, id) = readable();

    library.save_progress(id, "1", 4, true);
    library.save_progress(id, "2", 2, false);

    let resume = library.resume_point(id).unwrap().expect("something to resume");
    assert_eq!(resume.number, "2");
    assert_eq!(resume.last_page, 2);
}

#[test]
fn with_nothing_unfinished_it_offers_the_next_unread_chapter() {
    let (mut library, id) = readable();

    library.save_progress(id, "1", 4, true);

    let resume = library.resume_point(id).unwrap().expect("something to resume");
    assert_eq!(resume.number, "2", "should move on rather than repeat");
    assert_eq!(resume.last_page, 0);
}

#[test]
fn a_fully_read_series_has_nothing_to_resume() {
    let (mut library, id) = readable();
    for chapter in ["1", "2", "3", "4", "5", "6"] {
        library.save_progress(id, chapter, 4, true);
    }
    assert!(library.resume_point(id).unwrap().is_none());
}

#[test]
fn finishing_what_is_downloaded_offers_the_next_chapter_from_the_source() {
    let (mut library, id) = readable();
    for chapter in ["1", "2", "3"] {
        library.save_progress(id, chapter, 4, true);
    }

    let next = library.resume_point(id).unwrap().expect("there is more to read");

    assert_eq!(next.number, "4");
    assert!(!next.downloaded(), "and it has not been downloaded yet");
    assert!(next.source_id.is_some(), "which is only offered because the source can serve it");
}

#[test]
fn progress_can_be_cleared_without_touching_the_pages() {
    let (mut library, id) = readable();
    library.save_progress(id, "1", 4, true);

    library.clear_progress(id, "1");

    let chapter = library.chapter(id, "1").unwrap();
    assert_eq!(chapter.last_page, 0);
    assert!(chapter.read_at.is_none() && chapter.opened_at.is_none());
    assert!(chapter.downloaded(), "the pages must still be there");
}

#[test]
fn a_built_volume_is_remembered_so_it_can_be_offered_rather_than_rebuilt() {
    let mut library = open();
    let id = library.add_series(ichi()).unwrap().id;
    library.sync_layout(id, &layout()).unwrap();

    library.record_built(id, "1", "/out/Ichi v01.epub", 18).unwrap();

    let volume = library.volumes(id, &vec![]).unwrap().into_iter().find(|v| v.number == "1").unwrap();
    let record = volume.built.expect("the build should be remembered");
    assert_eq!(record.path, "/out/Ichi v01.epub");
    assert_eq!(record.bytes, 18);
}

#[test]
fn a_built_volume_whose_file_was_deleted_counts_as_not_built() {
    let mut library = open();
    let id = library.add_series(ichi()).unwrap().id;
    library.sync_layout(id, &layout()).unwrap();

    library.record_built(id, "1", "/out/Ichi v01.epub", 16).unwrap();

    let gone = vec!["/out/Ichi v01.epub".to_string()];
    let volume = library.volumes(id, &gone).unwrap().into_iter().find(|v| v.number == "1").unwrap();
    assert!(volume.built.is_none(), "offering to share a file that has gone is worse than offering to build it");
}

#[test]
fn a_series_recorded_by_reading_it_stays_off_the_shelf() {
    let mut library = open();

    let streamed = library
        .record_unshelved_series(NewSeries {
            source: Some("mangadex".into()),
            source_id: Some("streamed-one".into()),
            title: "Read Once".into(),
            ..NewSeries::default()
        })
        .unwrap();

    assert!(!streamed.shelved);
    assert!(library.all_series().is_empty(), "the shelf is what the user put on it");
    assert_eq!(library.series(streamed.id).unwrap().title, "Read Once");
}

#[test]
fn reading_a_series_already_on_the_shelf_does_not_take_it_off() {
    let mut library = open();
    let added = library.add_series(ichi()).unwrap();

    let again = library.record_unshelved_series(ichi()).unwrap();

    assert_eq!(again.id, added.id);
    assert!(again.shelved, "adding then reading must not demote it");
    assert_eq!(library.all_series().len(), 1);
}

#[test]
fn shelving_a_streamed_series_puts_it_in_the_library() {
    let mut library = open();
    let streamed = library.record_unshelved_series(ichi()).unwrap();

    library.shelve(streamed.id);

    assert_eq!(library.all_series().len(), 1);
}

#[test]
fn tags_and_content_rating_survive_a_round_trip() {
    let mut library = open();
    let id = library
        .add_series(NewSeries {
            tags: vec!["Action".into(), "Magic".into()],
            content_rating: Some("safe".into()),
            ..ichi()
        })
        .unwrap()
        .id;

    let series = library.series(id).unwrap();
    assert_eq!(series.tags, ["Action", "Magic"]);
    assert_eq!(series.content_rating.as_deref(), Some("safe"));
}

#[test]
fn a_series_with_no_tags_reads_back_as_no_tags_rather_than_one_empty_one() {
    let mut library = open();
    let id = library.add_series(ichi()).unwrap().id;

    assert!(library.series(id).unwrap().tags.is_empty());
}

#[test]
fn a_chapter_read_from_its_source_reaches_history_without_being_downloaded() {
    let mut library = open();
    let series = library.record_unshelved_series(ichi()).unwrap();

    library.record_streamed_chapter(series.id, "7", Some("chapter-id-7"), 42).unwrap();
    library.save_progress(series.id, "7", 3, false);

    let history = library.history(20);
    assert_eq!(history.len(), 1, "reading it is what puts it in history");

    let entry = &history[0];
    assert_eq!(entry.chapter, "7");
    assert_eq!(entry.last_page, 3);
    assert_eq!(entry.page_count, 42, "history should know how long it is");
    assert!(!entry.downloaded, "there are no pages on disk");
    assert_eq!(entry.chapter_source_id.as_deref(), Some("chapter-id-7"));
    assert_eq!(entry.series_source_id.as_deref(), ichi().source_id.as_deref());
}

#[test]
fn history_does_not_care_which_source_a_chapter_came_from() {
    let mut library = open();
    let id = library.add_series(ichi()).unwrap().id;
    library.sync_layout(id, &layout()).unwrap();

    library.record_chapter(id, "1", 2, None).unwrap();
    library.save_progress(id, "1", 1, true);
    library.record_streamed_chapter(id, "99", Some("chapter-id-99"), 20).unwrap();
    library.save_progress(id, "99", 0, false);

    let history = library.history(20);
    let numbers: Vec<_> = history.iter().map(|e| e.chapter.as_str()).collect();
    assert!(numbers.contains(&"1") && numbers.contains(&"99"), "got {numbers:?}");

    let streamed = history.iter().find(|e| e.chapter == "99").unwrap();
    let held = history.iter().find(|e| e.chapter == "1").unwrap();
    assert!(!streamed.downloaded);
    assert!(held.downloaded);
}

#[test]
fn clearing_history_forgets_what_was_read_and_keeps_the_files() {
    let (mut library, id) = readable();
    for chapter in ["1", "2"] {
        library.save_progress(id, chapter, 3, true);
    }
    assert_eq!(library.history(20).len(), 2);

    library.clear_history();

    assert!(library.history(20).is_empty());
    let chapter = library.chapter(id, "1").unwrap();
    assert!(chapter.downloaded(), "clearing history is not deleting anything");
    assert_eq!(chapter.last_page, 0);
    assert!(chapter.read_at.is_none() && chapter.opened_at.is_none());
}

#[test]
fn clearing_one_series_leaves_the_others_alone() {
    let mut library = open();
    let ichi = library.add_series(ichi()).unwrap().id;
    let other = library
        .add_series(NewSeries {
            source_id: Some("another".into()),
            title: "Something Else".into(),
            ..NewSeries::default()
        })
        .unwrap()
        .id;
    for id in [ichi, other] {
        library.record_chapter(id, "1", 2, None).unwrap();
        library.save_progress(id, "1", 1, true);
    }

    library.clear_series_history(ichi);

    let left: Vec<_> = library.history(20).into_iter().map(|e| e.series_id).collect();
    assert_eq!(left, [other], "only the series asked for is forgotten");
}

#[test]
fn a_series_history_holds_only_that_series() {
    let mut library = open();
    let ichi = library.add_series(ichi()).unwrap().id;
    let other = library
        .add_series(NewSeries {
            source_id: Some("another".into()),
            title: "Something Else".into(),
            ..NewSeries::default()
        })
        .unwrap()
        .id;
    for id in [ichi, other] {
        for chapter in ["1", "2"] {
            library.record_chapter(id, chapter, 2, None).unwrap();
            library.save_progress(id, chapter, 1, false);
        }
    }

    let history = library.series_history(ichi, 20);

    assert_eq!(history.len(), 2);
    assert!(history.iter().all(|e| e.series_id == ichi));
    assert_eq!(library.history(20).len(), 4, "the whole log is longer");
}

#[test]
fn history_puts_the_more_recently_opened_chapter_first() {
    let (mut library, id) = readable();
    library.save_progress_at(id, "1", 4, true, 500);
    library.save_progress_at(id, "3", 2, false, 501);

    let order: Vec<_> = library.series_history(id, 20).into_iter().map(|e| e.chapter).collect();

    assert_eq!(order, ["3", "1"]);
}

#[test]
fn adding_a_series_you_only_streamed_puts_it_on_the_shelf() {
    let mut library = open();

    let streamed = library.record_unshelved_series(ichi()).unwrap();
    assert!(library.all_series().is_empty());

    let added = library.add_series(ichi()).unwrap();

    assert_eq!(added.id, streamed.id, "the same series, not a second row");
    assert!(added.shelved, "and it is on the shelf now");
    assert_eq!(library.all_series().len(), 1);
}

#[test]
fn downloaded_chapters_are_listed_in_reading_order() {
    let mut library = open();
    let id = library.add_series(ichi()).unwrap().id;
    for chapter in ["10", "2", "Extra", "7.5", "1"] {
        library.record_chapter(id, chapter, 1, None).unwrap();
    }
    library.record_streamed_chapter(id, "3", Some("x"), 9).unwrap();
    assert_eq!(library.downloaded_chapter_numbers(id), ["1", "2", "7.5", "10", "Extra"]);
}

#[test]
fn covers_are_stored_inside_the_series_and_missing_ones_are_listed() {
    let mut library = open();
    let id = library.add_series(ichi()).unwrap().id;
    library.sync_layout(id, &layout()).unwrap();
    let path = library.set_volume_cover(id, "1").unwrap();
    assert_eq!(path, "/lib/series/Ichi the Witch [1]/volumes/v1.jpg");
    let missing = library.volumes_missing_covers(id, &vec![path.clone()]).unwrap();
    assert_eq!(missing, [("2".to_string(), "https://covers.test/2.jpg".to_string())]);
    let all_missing = library.volumes_missing_covers(id, &vec![]).unwrap();
    assert_eq!(all_missing.len(), 2, "a recorded cover whose file is gone counts as missing");
    assert_eq!(library.set_cover(id).unwrap(), "/lib/series/Ichi the Witch [1]/cover.jpg");
    assert_eq!(
        library.series(id).unwrap().cover_path.as_deref(),
        Some("/lib/series/Ichi the Witch [1]/cover.jpg")
    );
}

#[test]
fn an_unknown_series_is_an_error_naming_it() {
    let mut library = open();
    assert_eq!(library.series(SeriesId(9)).unwrap_err(), "no series with id 9");
    assert_eq!(library.record_chapter(SeriesId(9), "1", 1, None).unwrap_err(), "no series with id 9");
    let id = library.add_series(ichi()).unwrap().id;
    assert_eq!(library.chapter(id, "4").unwrap_err(), "series 1 has no chapter 4");
    assert!(library.update_series(SeriesId(9), "t", "a", "d", "en", "left-to-right").is_err());
    let edited = library.update_series(id, "Ichi", "N", "D", "pt-br", "left-to-right").unwrap();
    assert_eq!((edited.title.as_str(), edited.language.as_str()), ("Ichi", "pt-br"));
}

#[test]
fn a_chapters_pages_are_listed_naturally_and_only_when_downloaded() {
    let mut library = open();
    let id = library.add_series(ichi()).unwrap().id;
    library.sync_layout(id, &layout()).unwrap();
    let file = |p: &str| FileProbe { path: p.to_string(), bytes: 1, dimensions: None };
    let listing = || vec![file("/c/10.jpg"), file("/c/notes.txt"), file("/c/2.jpg"), file("/c/1.PNG")];
    assert_eq!(library.chapter_page_files(id, "1", listing()).unwrap_err(), "chapter 1 has not been downloaded");
    assert_eq!(library.chapter_page_files(id, "77", listing()).unwrap_err(), "series 1 has no chapter 77");
    library.record_chapter(id, "1", 3, None).unwrap();
    assert_eq!(library.chapter_page_files(id, "1", listing()).unwrap(), ["/c/1.PNG", "/c/2.jpg", "/c/10.jpg"]);
}

#[test]
fn a_chapter_opens_on_its_last_page_between_its_neighbours() {
    let (mut library, id) = readable();
    let file = |p: &str| FileProbe { path: p.to_string(), bytes: 1, dimensions: None };
    library.save_progress(id, "2", 9, false);
    let opened = library.reader_chapter(id, "2", vec![file("/c/2.jpg"), file("/c/1.jpg")]).unwrap();
    assert_eq!(opened.pages, ["/c/1.jpg", "/c/2.jpg"]);
    assert_eq!(opened.last_page, 1, "a position past the end is brought back inside the chapter");
    assert_eq!(opened.previous.as_deref(), Some("1"));
    assert_eq!(opened.next.as_deref(), Some("3"));
    assert_eq!(opened.series_title, "Ichi the Witch");
    assert_eq!(
        library.reader_chapter(id, "3", vec![file("/c/notes.txt")]).unwrap_err(),
        "chapter 3 has no pages on disk"
    );
}

#[test]
fn reading_online_records_an_unshelved_series_in_its_language() {
    let mut library = open();
    let read = OnlineRead {
        source: "mangadex".into(),
        series_source_id: "streamed".into(),
        title: "Read Once".into(),
        cover_url: Some("https://covers.test/c.jpg".into()),
        chapter: "7".into(),
        chapter_source_id: "chapter-id-7".into(),
        pages: 37,
        language: Some("pt-br".into()),
    };
    let (id, cover) = library.track_online(&read, 100).unwrap();
    assert_eq!(cover.as_deref(), Some("https://covers.test/c.jpg"));
    let series = library.series(SeriesId(id)).unwrap();
    assert!(!series.shelved);
    assert_eq!(series.language, "pt-br");
    library.save_progress_at(SeriesId(id), "7", 3, false, 101);
    let history = library.history(10);
    assert_eq!(history[0].page_count, 37);
    assert!(library.all_series().is_empty());
}

#[test]
fn series_files_are_deleted_only_when_asked_and_only_inside_the_library() {
    assert_eq!(deletion_target("/lib/series/Foo [1]", "/lib", true), Some("/lib/series/Foo [1]".to_string()));
    assert_eq!(deletion_target("/lib/series/Foo [1]", "/lib", false), None);
    assert_eq!(deletion_target("/lib/seriesX/Foo", "/lib", true), None);
    assert_eq!(deletion_target("/elsewhere/Foo", "/lib", true), None);
    assert_eq!(deletion_target("/lib//series/./Foo/", "/lib/", true), Some("/lib//series/./Foo/".to_string()));
    assert_eq!(deletion_target("lib/series/Foo", "/lib", true), None);
}
