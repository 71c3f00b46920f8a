use mangalize::page::{extension_verdict, ExcludeReason, Page, PageKind};

#[test]
fn double_extension_uses_final_component() {
    assert_eq!(extension_verdict("01.jpg.jpeg"), None);
}

#[test]
fn site_furniture_is_rejected() {
    assert_eq!(extension_verdict("close.svg"), Some(ExcludeReason::NotAPage));
    assert_eq!(extension_verdict("pxf.gif"), Some(ExcludeReason::NotAPage));
}

#[test]
fn extensionless_files_are_rejected() {
    assert_eq!(extension_verdict("README"), Some(ExcludeReason::NotAPage));
}

#[test]
fn extensions_are_case_insensitive_and_hidden_files_have_none() {
    assert_eq!(extension_verdict("/x/ch1/01.JPG"), None);
    assert_eq!(extension_verdict("/x/ch1/.png"), Some(ExcludeReason::NotAPage));
    assert_eq!(extension_verdict("/x/ch1/page.webp/"), None);
    assert_eq!(extension_verdict(".."), Some(ExcludeReason::NotAPage));
}

#[test]
fn a_page_knows_its_name_and_whether_it_is_included() {
    let page = Page {
        path: "/x/ch1/03.jpg".to_string(),
        width: 800,
        height: 1168,
        bytes: 10,
        kind: PageKind::Single,
        excluded: None,
        split: false,
    };
    assert_eq!(page.file_name(), "03.jpg");
    assert!(page.is_included());
    let gone = Page { excluded: Some(ExcludeReason::Manual), ..page };
    assert!(!gone.is_included());
}
