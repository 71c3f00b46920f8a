use mangalize::fetch::extract::{
    base_href, image_urls, is_page_candidate, quoted_image_urls, script_bodies, srcset_words, tags,
};

const PAGE: &str = "https://example.test/manga/ichi/ch-7";

#[test]
fn plain_img_tags_are_found_in_document_order() {
    let html = r#"<img src="02.jpg"><img src="01.jpg">"#;
    assert_eq!(
        image_urls(PAGE, html),
        ["https://example.test/manga/ichi/02.jpg", "https://example.test/manga/ichi/01.jpg",]
    );
}

#[test]
fn a_lazy_loading_placeholder_loses_to_the_real_image() {
    let html = r#"<img src="/spinner.png" data-src="/pages/01.jpg">"#;
    assert_eq!(image_urls(PAGE, html), ["https://example.test/pages/01.jpg"]);
}

#[test]
fn srcset_entries_are_unpacked() {
    let html = r#"<img srcset="/a.jpg 1x, /b.jpg 2x">"#;
    assert_eq!(image_urls(PAGE, html), ["https://example.test/a.jpg", "https://example.test/b.jpg"]);
}

#[test]
fn site_furniture_formats_are_dropped() {
    let html = r#"<img src="/close.svg"><img src="/pixel.gif"><img src="/01.jpg">"#;
    assert_eq!(image_urls(PAGE, html), ["https://example.test/01.jpg"]);
}

#[test]
fn the_same_image_twice_is_offered_once() {
    let html = r#"<img src="/01.jpg"><img data-src="/01.jpg">"#;
    assert_eq!(image_urls(PAGE, html), ["https://example.test/01.jpg"]);
}

#[test]
fn a_base_href_changes_what_relative_means() {
    let html = r#"<base href="https://cdn.test/x/"><img src="01.jpg">"#;
    assert_eq!(image_urls(PAGE, html), ["https://cdn.test/x/01.jpg"]);
}

#[test]
fn page_lists_embedded_in_scripts_are_recovered() {
    let html = r#"<script>var pages = ["https:\/\/cdn.test\/1.jpg","https:\/\/cdn.test\/2.jpg"];</script>"#;
    assert_eq!(image_urls(PAGE, html), ["https://cdn.test/1.jpg", "https://cdn.test/2.jpg"]);
}

#[test]
fn a_greater_than_inside_an_attribute_does_not_truncate_the_url() {
    let html = r#"<img alt="a > b" src="/01.jpg">"#;
    assert_eq!(image_urls(PAGE, html), ["https://example.test/01.jpg"]);
}

#[test]
fn unquoted_attributes_still_parse() {
    let html = r#"<img src=/01.jpg width=800>"#;
    assert_eq!(image_urls(PAGE, html), ["https://example.test/01.jpg"]);
}

#[test]
fn thumbnail_links_to_full_size_images_are_offered() {
    let html = r#"<a href="/full/01.jpg"><img src="/thumb/01.jpg"></a>"#;
    let found = image_urls(PAGE, html);
    assert!(found.contains(&"https://example.test/full/01.jpg".to_string()));
}

#[test]
fn a_page_with_no_images_yields_nothing_rather_than_guessing() {
    assert!(image_urls(PAGE, "<html><body><p>Loading…</p></body></html>").is_empty());
}

#[test]
fn tags_are_read_with_lowercase_names_and_raw_bodies() {
    let found = tags(r#"<IMG Src="A.jpg"><p>x</p>"#);
    assert_eq!(found.len(), 2);
    assert_eq!(found[0].name, "img");
    assert_eq!(found[0].body, r#" Src="A.jpg""#);
    assert_eq!(found[1].name, "p");
    assert_eq!(found[1].attr("src"), None);
    assert_eq!(found[0].attr("src").as_deref(), Some("A.jpg"));
}

#[test]
fn src_is_not_found_inside_data_src() {
    let found = tags(r#"<img data-src="/a.jpg">"#);
    assert_eq!(found[0].attr("src"), None);
    assert_eq!(found[0].attr("data-src").as_deref(), Some("/a.jpg"));
}

#[test]
fn a_link_without_an_extension_is_not_an_image() {
    let html = r#"<a href="/chapter/8">next</a>"#;
    assert!(image_urls(PAGE, html).is_empty());
}

#[test]
fn extensionless_urls_are_still_candidates() {
    assert!(is_page_candidate("https://cdn.test/page/7"));
    assert!(is_page_candidate("https://cdn.test/7.webp"));
    assert!(!is_page_candidate("https://cdn.test/7.ICO"));
    assert!(!is_page_candidate("https://cdn.test/7.bmp"));
}

#[test]
fn the_first_base_tag_decides() {
    assert_eq!(base_href(PAGE, r#"<base target="_blank"><base href="/x/">"#), PAGE);
    assert_eq!(base_href(PAGE, r#"<base href="/x/">"#), "https://example.test/x/");
    assert_eq!(base_href(PAGE, "<p>no base</p>"), PAGE);
}

#[test]
fn script_bodies_are_cut_at_their_closing_tags() {
    let html = "<SCRIPT type=x>one</script><p>between</p><script>two</SCRIPT>";
    assert_eq!(script_bodies(html), ["one", "two"]);
}

#[test]
fn an_unclosed_script_runs_to_the_end() {
    assert_eq!(script_bodies("<script>tail"), ["tail"]);
    assert!(script_bodies("<script").is_empty());
}

#[test]
fn only_absolute_page_images_are_taken_from_scripts() {
    let script = r#"a = "https://x.test/1.png"; b = '/rel/2.jpg'; c = "https://x.test/logo.svg"; d = "https://x.test/has space.jpg""#;
    assert_eq!(quoted_image_urls(script), ["https://x.test/1.png"]);
}

#[test]
fn srcset_words_take_the_first_word_of_each_entry() {
    assert_eq!(srcset_words(" a.jpg 1x,b.jpg,, c.jpg 3x "), ["a.jpg", "b.jpg", "c.jpg"]);
    assert!(srcset_words("").is_empty());
}
