use mangalize::meta::json::Json;
use mangalize::meta::mangadex::{
    browse_page, covers_from, effective_sort, is_at_home, page_urls, parse_series, series_list,
    tags_from, unhosted_reason, volumes_from, PageList,
};
use mangalize::meta::{
    browse, chapter_pages, covers_of, kitsu, mangadex, needs_fallback, search, settle_search,
    volume_chapters, BrowseQuery, ChapterRef, ContentRating, SeriesMatch, Sort, Source,
};
use mangalize::order::{stable_sort, Ordered};

fn t(s: &str) -> Json {
    Json::Text(s.to_string())
}

fn obj(members: Vec<(&str, Json)>) -> Json {
    Json::Object(members.into_iter().map(|(k, v)| (k.to_string(), v)).collect())
}

fn params(r: &mangalize::meta::Request) -> Vec<(String, String)> {
    r.params.clone()
}

fn p(k: &str, v: &str) -> (String, String) {
    (k.to_string(), v.to_string())
}

/// The shape MangaDex returns for a Japanese series: the canonical title is
/// romanised Japanese and the English name lives among the alternates.
fn ichi() -> Json {
    obj(vec![
        ("id", t("dea77c2d-dbaa-434a-b0af-0c116642434c")),
        (
            "attributes",
            obj(vec![
                ("title", obj(vec![("ja-ro", t("Madan no Ichi"))])),
                (
                    "altTitles",
                    Json::Array(vec![
                        obj(vec![("ja", t("魔男のイチ"))]),
                        obj(vec![("en", t("Ichi the Witch"))]),
                        obj(vec![("hu", t("Ichi, a boszorkány"))]),
                    ]),
                ),
                ("description", obj(vec![("en", t("In this world, witches must hunt down their magic!"))])),
                ("year", Json::Number(Some(2024))),
                ("status", t("ongoing")),
                ("publicationDemographic", t("shounen")),
            ]),
        ),
        (
            "relationships",
            Json::Array(vec![
                obj(vec![("type", t("author")), ("attributes", obj(vec![("name", t("Nishi Osamu "))]))]),
                obj(vec![("type", t("artist")), ("attributes", obj(vec![("name", t("Usazaki Shiro"))]))]),
                obj(vec![
                    ("type", t("cover_art")),
                    ("attributes", obj(vec![("fileName", t("abc.jpg")), ("volume", t("9"))])),
                ]),
            ]),
        ),
    ])
}

#[test]
fn an_empty_query_makes_no_request() {
    assert!(search("   ", 5).unwrap().is_empty());
}

#[test]
fn a_real_query_has_to_ask() {
    assert!(search(" ichi ", 5).is_none());
}

#[test]
fn relevance_without_a_search_term_falls_back_to_something_ordered() {
    let query = BrowseQuery { title: None, sort: Sort::Relevance, ..BrowseQuery::default() };
    let effective = match (query.sort, query.title.as_deref()) {
        (Sort::Relevance, None) => Sort::Follows,
        (sort, _) => sort,
    };
    assert_eq!(effective, Sort::Follows);
    assert_eq!(effective_sort(&query), Sort::Follows);
}

#[test]
fn a_blank_title_counts_as_no_title() {
    let query = BrowseQuery { title: Some("   ".into()), sort: Sort::Relevance, ..BrowseQuery::default() };
    assert_eq!(effective_sort(&query), Sort::Follows);
    let query = BrowseQuery { title: Some(" x ".into()), sort: Sort::Relevance, ..BrowseQuery::default() };
    assert_eq!(effective_sort(&query), Sort::Relevance);
}

#[test]
fn a_fresh_browse_does_not_open_on_explicit_material() {
    let defaults = BrowseQuery::default();
    assert_eq!(defaults.content_ratings, vec![ContentRating::Safe, ContentRating::Suggestive]);
    assert!(!defaults.content_ratings.contains(&ContentRating::Pornographic));
}

#[test]
fn every_ordering_has_an_api_name() {
    for sort in [
        Sort::LatestUpload,
        Sort::Follows,
        Sort::Rating,
        Sort::RecentlyAdded,
        Sort::Title,
        Sort::Relevance,
    ] {
        assert!(!sort.key().is_empty());
    }
    assert_eq!(Sort::Follows.key(), "followedCount");
    assert_eq!(Sort::LatestUpload.key(), "latestUploadedChapter");
}

#[test]
fn english_title_is_found_in_alt_titles() {
    let parsed = parse_series(&ichi()).unwrap();
    assert_eq!(parsed.title_english.as_deref(), Some("Ichi the Witch"));
    assert_eq!(parsed.title_romaji.as_deref(), Some("Madan no Ichi"));
    assert_eq!(parsed.title_native.as_deref(), Some("魔男のイチ"));
}

#[test]
fn author_and_artist_come_from_relationships() {
    let parsed = parse_series(&ichi()).unwrap();
    assert_eq!(parsed.author.as_deref(), Some("Nishi Osamu"));
    assert_eq!(parsed.artist.as_deref(), Some("Usazaki Shiro"));
}

#[test]
fn display_title_prefers_english() {
    assert_eq!(parse_series(&ichi()).unwrap().display_title(), "Ichi the Witch");
}

#[test]
fn the_rest_of_an_entry_is_read_too() {
    let parsed = parse_series(&ichi()).unwrap();
    assert_eq!(parsed.source, Source::MangaDex);
    assert_eq!(parsed.year, Some(2024));
    assert_eq!(parsed.status.as_deref(), Some("ongoing"));
    assert_eq!(parsed.demographic.as_deref(), Some("shounen"));
    assert_eq!(
        parsed.thumbnail_url.as_deref(),
        Some("https://uploads.mangadex.org/covers/dea77c2d-dbaa-434a-b0af-0c116642434c/abc.jpg.256.jpg")
    );
    assert_eq!(
        parsed.site_url.as_deref(),
        Some("https://mangadex.org/title/dea77c2d-dbaa-434a-b0af-0c116642434c")
    );
}

#[test]
fn missing_languages_are_absent_rather_than_guessed() {
    let bare = obj(vec![
        ("id", t("x")),
        ("attributes", obj(vec![("title", obj(vec![("en", t("Solo Work"))])), ("altTitles", Json::Array(vec![]))])),
        ("relationships", Json::Array(vec![])),
    ]);
    let parsed = parse_series(&bare).unwrap();
    assert_eq!(parsed.title_english.as_deref(), Some("Solo Work"));
    assert!(parsed.title_romaji.is_none());
    assert!(parsed.author.is_none());
}

#[test]
fn entries_without_an_id_are_skipped() {
    assert!(parse_series(&obj(vec![("attributes", obj(vec![]))])).is_none());
}

#[test]
fn a_search_answer_keeps_only_entries_with_an_id() {
    let body = obj(vec![(
        "data",
        Json::Array(vec![ichi(), obj(vec![("attributes", obj(vec![]))]), obj(vec![("id", t("y"))])]),
    )]);
    let found = series_list(&body);
    assert_eq!(found.len(), 2);
    assert_eq!(found[1].id, "y");
    assert_eq!(found[1].display_title(), "Untitled");
}

#[test]
fn a_browse_page_carries_its_totals() {
    let body = obj(vec![
        ("data", Json::Array(vec![ichi()])),
        ("total", Json::Number(Some(120))),
        ("offset", Json::Number(None)),
    ]);
    let page = browse_page(&body);
    assert_eq!(page.series.len(), 1);
    assert_eq!((page.total, page.offset), (120, 0));
}

#[test]
fn a_search_request_is_capped_and_ordered_by_relevance() {
    let r = mangadex::search("ichi", 500);
    assert_eq!(r.url, "https://api.mangadex.org/manga");
    assert_eq!(
        params(&r),
        vec![
            p("title", "ichi"),
            p("limit", "25"),
            p("includes[]", "author"),
            p("includes[]", "artist"),
            p("includes[]", "cover_art"),
            p("order[relevance]", "desc"),
        ]
    );
    let k = kitsu::search("ichi", 0);
    assert_eq!(k.url, "https://kitsu.io/api/edge/manga");
    assert_eq!(params(&k), vec![p("filter[text]", "ichi"), p("page[limit]", "1")]);
}

#[test]
fn a_default_browse_asks_for_the_most_followed_safe_titles() {
    let r = browse(&BrowseQuery::default());
    assert_eq!(r.url, "https://api.mangadex.org/manga");
    assert_eq!(
        params(&r),
        vec![
            p("limit", "32"),
            p("offset", "0"),
            p("includes[]", "author"),
            p("includes[]", "artist"),
            p("includes[]", "cover_art"),
            p("order[followedCount]", "desc"),
            p("contentRating[]", "safe"),
            p("contentRating[]", "suggestive"),
        ]
    );
}

#[test]
fn a_browse_with_filters_sends_each_of_them() {
    let query = BrowseQuery {
        title: Some("  witch ".into()),
        sort: Sort::Relevance,
        descending: false,
        included_tags: vec!["t1".into()],
        excluded_tags: vec!["t2".into(), "t3".into()],
        content_ratings: vec![],
        status: vec!["ongoing".into()],
        demographic: vec!["seinen".into()],
        limit: 0,
        offset: 64,
    };
    assert_eq!(
        params(&browse(&query)),
        vec![
            p("limit", "1"),
            p("offset", "64"),
            p("includes[]", "author"),
            p("includes[]", "artist"),
            p("includes[]", "cover_art"),
            p("order[relevance]", "asc"),
            p("title", "witch"),
            p("contentRating[]", "safe"),
            p("contentRating[]", "suggestive"),
            p("includedTags[]", "t1"),
            p("excludedTags[]", "t2"),
            p("excludedTags[]", "t3"),
            p("status[]", "ongoing"),
            p("publicationDemographic[]", "seinen"),
        ]
    );
}

#[test]
fn tags_are_ordered_by_group_then_name() {
    let tag = |id: &str, name: &str, group: Option<&str>| {
        let mut attrs = vec![("name", obj(vec![("en", t(name))]))];
        if let Some(g) = group {
            attrs.push(("group", t(g)));
        }
        obj(vec![("id", t(id)), ("attributes", obj(attrs))])
    };
    let body = obj(vec![(
        "data",
        Json::Array(vec![
            tag("1", "Romance", Some("genre")),
            tag("2", "Action", Some("genre")),
            tag("3", "Magic", Some("theme")),
            tag("4", "Odd", None),
            obj(vec![("id", t("5"))]),
        ]),
    )]);
    let tags = tags_from(&body);
    let order: Vec<(&str, &str)> = tags.iter().map(|t| (t.group.as_str(), t.name.as_str())).collect();
    assert_eq!(order, vec![("genre", "Action"), ("genre", "Romance"), ("other", "Odd"), ("theme", "Magic")]);
}

#[test]
fn covers_follow_volume_order_with_untagged_art_last() {
    let cover = |file: &str, volume: Option<&str>| {
        let mut attrs = vec![("fileName", t(file))];
        if let Some(v) = volume {
            attrs.push(("volume", t(v)));
        }
        obj(vec![("attributes", obj(attrs))])
    };
    let body = obj(vec![(
        "data",
        Json::Array(vec![
            cover("a.jpg", None),
            cover("b.jpg", Some("10")),
            cover("c.jpg", Some("special")),
            cover("d.jpg", Some("2")),
        ]),
    )]);
    let covers = covers_from("m1", &body);
    let files: Vec<&str> = covers.iter().map(|c| c.url.as_str()).collect();
    assert_eq!(
        files,
        vec![
            "https://uploads.mangadex.org/covers/m1/d.jpg",
            "https://uploads.mangadex.org/covers/m1/b.jpg",
            "https://uploads.mangadex.org/covers/m1/c.jpg",
            "https://uploads.mangadex.org/covers/m1/a.jpg",
        ]
    );
    assert_eq!(covers[0].thumbnail_url, "https://uploads.mangadex.org/covers/m1/d.jpg.512.jpg");
    assert_eq!(covers_of(Source::MangaDex, "m1", &body).len(), 4);
}

#[test]
fn volumes_order_numerically_not_lexicographically() {
    let labels = ["10", "2", "1"];
    let refs: Vec<ChapterRef> = labels
        .iter()
        .map(|l| ChapterRef { number: l.to_string(), id: None, unavailable: false })
        .collect();
    let sorted: Vec<String> = stable_sort(refs).into_iter().map(|c| c.number).collect();
    assert_eq!(sorted, ["1", "2", "10"]);
}

#[test]
fn unparseable_volume_labels_sort_last() {
    let special = ChapterRef { number: "special".into(), id: None, unavailable: false };
    let ninety_nine = ChapterRef { number: "99".into(), id: None, unavailable: false };
    assert!(ninety_nine.before(&special));
    assert!(!special.before(&ninety_nine));
}

#[test]
fn the_volume_map_skips_the_none_bucket_and_sorts_both_levels() {
    let chapter = |id: &str, unavailable: Option<bool>| {
        let mut m = vec![("id", t(id))];
        if let Some(u) = unavailable {
            m.push(("isUnavailable", Json::Bool(u)));
        }
        obj(m)
    };
    let body = obj(vec![(
        "volumes",
        obj(vec![
            ("10", obj(vec![("chapters", obj(vec![("91", chapter("c91", None))]))])),
            ("2", obj(vec![("chapters", obj(vec![("12", chapter("c12", Some(true))), ("9.5", chapter("c95", None))]))])),
            ("none", obj(vec![("chapters", obj(vec![("200", chapter("c200", None))]))])),
        ]),
    )]);
    let volumes = volumes_from(&body);
    let names: Vec<&str> = volumes.iter().map(|v| v.volume.as_str()).collect();
    assert_eq!(names, vec!["2", "10"]);
    let chapters: Vec<&str> = volumes[0].chapters.iter().map(|c| c.number.as_str()).collect();
    assert_eq!(chapters, vec!["9.5", "12"]);
    assert!(volumes[0].chapters[1].unavailable);
    assert_eq!(volumes[0].chapters[1].id.as_deref(), Some("c12"));
    assert!(volume_chapters(Source::Kitsu, "x").is_none());
    assert_eq!(volume_chapters(Source::MangaDex, "m1").unwrap().url, "https://api.mangadex.org/manga/m1/aggregate");
}

#[test]
fn page_addresses_join_server_hash_and_file() {
    let body = obj(vec![
        ("baseUrl", t("https://x.mangadex.network")),
        ("chapter", obj(vec![("hash", t("h1")), ("data", Json::Array(vec![t("1.png"), Json::Null, t("2.png")]))])),
    ]);
    assert_eq!(
        page_urls(&body),
        PageList::Pages(vec![
            "https://x.mangadex.network/data/h1/1.png".to_string(),
            "https://x.mangadex.network/data/h1/2.png".to_string(),
        ])
    );
}

#[test]
fn an_indexed_but_unhosted_chapter_is_told_apart_from_a_missing_server() {
    let empty = obj(vec![("baseUrl", t("https://x")), ("chapter", obj(vec![("hash", t("h")), ("data", Json::Array(vec![]))]))]);
    assert_eq!(page_urls(&empty), PageList::Unhosted);
    assert_eq!(page_urls(&obj(vec![])), PageList::NoServer);
}

#[test]
fn an_unhosted_chapter_points_at_its_publisher() {
    let chapter = obj(vec![("data", obj(vec![("attributes", obj(vec![("externalUrl", t("https://pub.example/c1"))]))]))]);
    assert_eq!(
        unhosted_reason(Some(&chapter)),
        "MangaDex indexes this chapter but does not host its images — it is officially licensed and published at https://pub.example/c1. Paste that page's URL into the chapter's Get dialog instead."
    );
    assert_eq!(unhosted_reason(None), "MangaDex has no images for this chapter yet.");
}

#[test]
fn only_mangadex_hosts_chapter_images() {
    assert_eq!(chapter_pages(Source::Kitsu, "c1").unwrap_err(), "Kitsu does not host chapter images");
    assert_eq!(
        chapter_pages(Source::MangaDex, "c1").unwrap().url,
        "https://api.mangadex.org/at-home/server/c1"
    );
}

#[test]
fn only_the_volunteer_network_is_reported_to() {
    assert!(is_at_home("https://abc.def.mangadex.network:443/data/x.png"));
    assert!(!is_at_home("https://uploads.mangadex.org/covers/x.jpg"));
}

#[test]
fn kitsu_entries_read_titles_year_and_poster() {
    let item = obj(vec![
        ("id", t("42")),
        (
            "attributes",
            obj(vec![
                ("titles", obj(vec![("en", t("Witch Hat Atelier")), ("ja_jp", t("とんがり帽子のアトリエ"))])),
                ("synopsis", t("Coco.")),
                ("startDate", t("2016-07-22")),
                ("status", t("current")),
                ("slug", t("witch-hat")),
                ("posterImage", obj(vec![("original", t("https://k/o.jpg"))])),
            ]),
        ),
    ]);
    let m: SeriesMatch = kitsu::parse_series(&item).unwrap();
    assert_eq!(m.source, Source::Kitsu);
    assert_eq!(m.year, Some(2016));
    assert_eq!(m.title_romaji, None);
    assert_eq!(m.thumbnail_url.as_deref(), Some("https://k/o.jpg"));
    assert_eq!(m.site_url.as_deref(), Some("https://kitsu.app/manga/witch-hat"));
}

#[test]
fn a_kitsu_year_needs_four_leading_digits() {
    let with_date = |d: &str| {
        obj(vec![("id", t("1")), ("attributes", obj(vec![("startDate", t(d))]))])
    };
    assert_eq!(kitsu::parse_series(&with_date("+123-01")).unwrap().year, Some(123));
    assert_eq!(kitsu::parse_series(&with_date("99")).unwrap().year, None);
    assert_eq!(kitsu::parse_series(&with_date("-123")).unwrap().year, None);
}

#[test]
fn a_kitsu_poster_becomes_one_untagged_cover() {
    let body = obj(vec![(
        "data",
        obj(vec![("attributes", obj(vec![("posterImage", obj(vec![("large", t("L")), ("small", t("S"))]))]))]),
    )]);
    let covers = covers_of(Source::Kitsu, "42", &body);
    assert_eq!(covers.len(), 1);
    assert_eq!((covers[0].volume.as_deref(), covers[0].url.as_str(), covers[0].thumbnail_url.as_str()), (None, "L", "S"));
    assert!(covers_of(Source::Kitsu, "42", &obj(vec![])).is_empty());
}

#[test]
fn kitsu_is_asked_only_when_mangadex_found_nothing() {
    let hit = parse_series(&ichi()).unwrap();
    assert!(!needs_fallback(&Ok(vec![hit.clone()])));
    assert!(needs_fallback(&Ok(vec![])));
    assert!(needs_fallback(&Err("offline".into())));
    assert_eq!(settle_search(Err("primary".into()), Err("fallback".into())), Err("primary".into()));
    assert_eq!(settle_search(Ok(vec![]), Err("fallback".into())), Err("fallback".into()));
    assert_eq!(settle_search(Err("primary".into()), Ok(vec![hit.clone()])).unwrap().len(), 1);
}
