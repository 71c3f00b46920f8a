use std::path::{Component, Path};

use mangalize::export::{apply_spread_policy, build_path, file_stem, suggest_filename, Format};
use mangalize::library::paths::safe_component;
use mangalize::page::{Page, PageKind};
use mangalize::project::{Chapter, Direction, Metadata, Volume};

fn volume(series: &str, number: Option<u32>) -> Volume {
    Volume {
        metadata: Metadata {
            series: series.into(),
            volume: number,
            author: String::new(),
            language: "en".into(),
            description: String::new(),
            direction: Direction::RightToLeft,
            identifier: String::new(),
        },
        cover: None,
        chapters: Vec::new(),
        root: String::new(),
    }
}

#[test]
fn a_volume_is_filed_under_its_series() {
    let path = build_path("/out", &volume("Ichi the Witch", Some(1)), Format::Epub, true);
    assert_eq!(path, "/out/Ichi the Witch/Ichi the Witch v01.epub");
}

#[test]
fn volume_numbers_are_padded_so_v2_sorts_before_v10() {
    let stem = |n| file_stem(&volume("X", Some(n)));
    let mut names = [stem(10), stem(2), stem(1)];
    names.sort();
    assert_eq!(names, ["X v01", "X v02", "X v10"]);
}

#[test]
fn a_flat_layout_skips_the_series_folder() {
    let path = build_path("/out", &volume("Ichi the Witch", Some(3)), Format::Cbz, false);
    assert_eq!(path, "/out/Ichi the Witch v03.cbz");
}

#[test]
fn a_series_name_cannot_escape_the_output_folder() {
    let path = build_path("/out", &volume("../../etc", Some(1)), Format::Epub, true);
    let path = Path::new(&path);
    let under: Vec<_> = path.strip_prefix("/out").unwrap().components().collect();
    assert_eq!(under.len(), 2, "expected <series>/<file>, got {path:?}");
    assert!(
        !under.iter().any(|c| matches!(c, Component::ParentDir)),
        "no component may be a parent reference: {path:?}"
    );
}

#[test]
fn a_title_made_only_of_dots_does_not_produce_a_dot_folder() {
    assert_eq!(safe_component(".."), "");
    assert_eq!(safe_component("."), "");
    assert_eq!(build_path("/out", &volume("..", Some(1)), Format::Epub, true), "/out/Unsorted/volume v01.epub");
}

#[test]
fn a_volume_with_no_number_is_named_after_the_series_alone() {
    assert_eq!(file_stem(&volume("Oneshot Collection", None)), "Oneshot Collection");
}

#[test]
fn an_untitled_volume_still_gets_a_usable_name() {
    assert_eq!(file_stem(&volume("", Some(2))), "volume v02");
    assert_eq!(build_path("/out", &volume("", Some(2)), Format::Epub, true), "/out/Unsorted/volume v02.epub");
}

#[test]
fn windows_hostile_names_are_made_safe() {
    assert_eq!(safe_component("Re:Zero"), "Re-Zero");
    assert_eq!(safe_component("Vol."), "Vol");
    assert_eq!(safe_component("  spaced  "), "spaced");
}

#[test]
fn suggested_names_carry_the_format_and_roots_join_cleanly() {
    assert_eq!(suggest_filename(&volume("X", Some(4)), Format::Cbz), "X v04.cbz");
    assert_eq!(build_path("/out/", &volume("X", None), Format::Epub, false), "/out/X.epub");
    assert_eq!(build_path("", &volume("X", None), Format::Epub, false), "X.epub");
    assert_eq!(Format::Epub.extension(), "epub");
}

#[test]
fn the_spread_policy_touches_spreads_only() {
    let page = |kind, split| Page { path: "p".into(), width: 1, height: 1, bytes: 1, kind, excluded: None, split };
    let mut v = volume("X", None);
    v.chapters.push(Chapter {
        title: "c".into(),
        source: "s".into(),
        pages: vec![page(PageKind::Spread, true), page(PageKind::Single, true)],
    });
    apply_spread_policy(&mut v, false);
    assert!(!v.chapters[0].pages[0].split);
    assert!(v.chapters[0].pages[1].split);
}

#[test]
fn trailing_dots_and_white_space_are_removed_until_none_is_left() {
    assert_eq!(safe_component("a.\u{3000}."), "a");
    assert_eq!(safe_component(".\u{3000}."), "");
    assert_eq!(safe_component("Vol. 3 . ."), "Vol. 3");
    assert_eq!(safe_component(".hack"), ".hack");
}
