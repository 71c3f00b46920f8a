use mangalize::fetch::series::{chapter_links, dedupe_and_sort, normalise, number_before, split, ChapterLink};

#[test]
fn a_chapter_url_splits_into_a_template_and_a_number() {
    let (template, number) = split("https://example.test/manga/ichi-the-witch-chapter-1/").unwrap();
    assert_eq!(number, "1");
    assert_eq!(template.apply("42"), "https://example.test/manga/ichi-the-witch-chapter-42/");
}

#[test]
fn digits_in_the_series_name_do_not_win_over_the_marker() {
    let (template, number) = split("https://example.test/manga/86-chapter-3/").unwrap();
    assert_eq!(number, "3");
    assert_eq!(template.apply("4"), "https://example.test/manga/86-chapter-4/");
}

#[test]
fn a_bare_numeric_url_falls_back_to_the_last_digit_run() {
    let (template, number) = split("https://example.test/read/one-piece/1105").unwrap();
    assert_eq!(number, "1105");
    assert_eq!(template.apply("1106"), "https://example.test/read/one-piece/1106");
}

#[test]
fn decimal_chapters_keep_the_sites_own_separator() {
    let (template, number) = split("https://example.test/m/x-chapter-7-5/").unwrap();
    assert_eq!(number, "7.5");
    assert_eq!(template.apply("8.5"), "https://example.test/m/x-chapter-8-5/");
    assert_eq!(template.apply("9"), "https://example.test/m/x-chapter-9/");
}

#[test]
fn a_query_string_is_never_mistaken_for_the_chapter() {
    let (template, number) = split("https://example.test/manga/x-chapter-3/?page=2").unwrap();
    assert_eq!(number, "3");
    assert_eq!(template.apply("4"), "https://example.test/manga/x-chapter-4/?page=2");
}

#[test]
fn a_url_with_no_number_has_no_template() {
    assert!(split("https://example.test/manga/ichi-the-witch/").is_none());
}

#[test]
fn numbers_normalise_so_padding_and_trailing_zeros_match() {
    assert_eq!(normalise("07"), "7");
    assert_eq!(normalise("7.0"), "7");
    assert_eq!(normalise("7.50"), "7.5");
    assert_eq!(normalise("Oneshot"), "Oneshot");
}

#[test]
fn an_index_page_yields_every_chapter_it_lists() {
    let html = r#"
        <a href="/manga/x-chapter-1/">Chapter 1</a>
        <a href="/manga/x-chapter-2/">Chapter 2</a>
        <a href="/manga/x-chapter-10/">Chapter 10</a>
    "#;
    let links = chapter_links("https://example.test/manga/x/", html);
    let numbers: Vec<&str> = links.iter().map(|l| l.number.as_str()).collect();
    assert_eq!(numbers, ["1", "2", "10"]);
}

#[test]
fn navigation_and_adverts_lose_to_the_dominant_chapter_shape() {
    let html = r#"
        <a href="/manga/x-chapter-1/">1</a>
        <a href="/manga/x-chapter-2/">2</a>
        <a href="/manga/x-chapter-3/">3</a>
        <a href="/other/promo-2024/">A promo</a>
        <a href="https://elsewhere.test/manga/y-chapter-9/">Another site</a>
    "#;
    let links = chapter_links("https://example.test/manga/x/", html);
    assert_eq!(links.len(), 3);
    assert!(links.iter().all(|l| l.url.contains("/manga/x-chapter-")));
}

#[test]
fn the_same_chapter_linked_twice_is_listed_once() {
    let html = r#"
        <a href="/manga/x-chapter-1/">Read</a>
        <a href="/manga/x-chapter-1/">Chapter 1</a>
        <a href="/manga/x-chapter-2/">Next</a>
    "#;
    assert_eq!(chapter_links("https://example.test/manga/x/", html).len(), 2);
}

#[test]
fn a_page_with_no_chapter_links_yields_nothing() {
    assert!(chapter_links("https://example.test/", "<p>Hello</p>").is_empty());
}

#[test]
fn normalising_handles_signs_points_and_space() {
    assert_eq!(normalise("  +007.250 "), "7.25");
    assert_eq!(normalise("000"), "0");
    assert_eq!(normalise(".5"), "0.5");
    assert_eq!(normalise("5."), "5");
    assert_eq!(normalise("."), ".");
    assert_eq!(normalise(" special "), "special");
}

#[test]
fn numbers_order_by_value_and_words_come_last() {
    assert!(number_before("2", "10"));
    assert!(number_before("7.25", "7.5"));
    assert!(number_before("7", "7.5"));
    assert!(!number_before("10", "9.99"));
    assert!(number_before("99999999999999999999999999999999999999999", "100000000000000000000000000000000000000000"));
    assert!(number_before("3", "special"));
    assert!(!number_before("special", "3"));
    assert!(number_before("extra", "special"));
}

#[test]
fn dedupe_keeps_the_first_link_for_a_number_and_sorts() {
    let link = |n: &str, u: &str| ChapterLink { number: n.to_string(), url: u.to_string() };
    let out = dedupe_and_sort(vec![link("10", "a"), link("2", "b"), link("10", "c"), link("2.5", "d")]);
    let got: Vec<(&str, &str)> = out.iter().map(|l| (l.number.as_str(), l.url.as_str())).collect();
    assert_eq!(got, [("2", "b"), ("2.5", "d"), ("10", "a")]);
}

#[test]
fn a_marker_inside_a_word_is_not_a_marker() {
    let (template, number) = split("https://example.test/subchapter-9/part-4").unwrap();
    assert_eq!(number, "4");
    assert_eq!(template.pattern(), "https://example.test/subchapter-9/part-{n}");
}

#[test]
fn a_long_second_group_is_not_a_fraction() {
    let (template, number) = split("https://example.test/chapter-12-2024/").unwrap();
    assert_eq!(number, "12");
    assert_eq!(template.apply("13"), "https://example.test/chapter-13-2024/");
}

#[test]
fn applying_the_found_number_rebuilds_the_url() {
    for url in [
        "https://site.example/manga/x-chapter-7-5/",
        "https://site.example/read/one-piece/1105?page=2",
        "https://site.example/manga/ch_12.25/index.html",
    ] {
        let (template, number) = split(url).unwrap();
        assert_eq!(template.apply(&number), url);
    }
}
