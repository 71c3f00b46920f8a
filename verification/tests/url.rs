use mangalize::fetch::url::{extension_of, origin_of, path_of, resolve};

const PAGE: &str = "https://example.test/manga/ichi/chapter-7?page=1";

#[test]
fn absolute_references_pass_through() {
    assert_eq!(resolve(PAGE, "https://cdn.test/a.jpg").as_deref(), Some("https://cdn.test/a.jpg"));
}

#[test]
fn protocol_relative_references_inherit_the_scheme() {
    assert_eq!(resolve(PAGE, "//cdn.test/a.jpg").as_deref(), Some("https://cdn.test/a.jpg"));
}

#[test]
fn root_relative_references_use_the_origin() {
    assert_eq!(resolve(PAGE, "/img/a.jpg").as_deref(), Some("https://example.test/img/a.jpg"));
}

#[test]
fn document_relative_references_use_the_directory_not_the_query() {
    assert_eq!(resolve(PAGE, "01.jpg").as_deref(), Some("https://example.test/manga/ichi/01.jpg"));
}

#[test]
fn unfetchable_schemes_are_refused() {
    assert_eq!(resolve(PAGE, "data:image/png;base64,AAA"), None);
    assert_eq!(resolve(PAGE, "javascript:void(0)"), None);
    assert_eq!(resolve(PAGE, "#top"), None);
}

#[test]
fn a_relative_path_containing_a_colon_is_not_a_scheme() {
    assert_eq!(
        resolve(PAGE, "img/ch:7/01.jpg").as_deref(),
        Some("https://example.test/manga/ichi/img/ch:7/01.jpg")
    );
}

#[test]
fn extensions_ignore_the_query_string() {
    assert_eq!(extension_of("https://a.test/1.jpg?w=800").as_deref(), Some("jpg"));
    assert_eq!(extension_of("https://a.test/1.JPEG").as_deref(), Some("jpeg"));
    assert_eq!(extension_of("https://a.test/page/7"), None);
}

#[test]
fn origins_drop_the_path() {
    assert_eq!(origin_of(PAGE).as_deref(), Some("https://example.test"));
}

#[test]
fn relative_resolution_edge_cases() {
    assert_eq!(resolve(PAGE, "   "), None);
    assert_eq!(resolve(PAGE, "  HTTP://x.test/a.png "), Some("HTTP://x.test/a.png".to_string()));
    assert_eq!(resolve("https://example.test", "a.jpg").as_deref(), Some("https://example.test/a.jpg"));
    assert_eq!(resolve("not a url", "a.jpg"), None);
    assert_eq!(origin_of("no scheme here"), None);
    assert_eq!(path_of("https://example.test"), "/");
    assert_eq!(path_of("https://example.test/a/b?c#d"), "/a/b");
    assert_eq!(extension_of("https://a.test/x.toolong"), None);
    assert_eq!(extension_of("https://a.test/x.jp-g"), None);
}
