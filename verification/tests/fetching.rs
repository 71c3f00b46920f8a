use image::{ImageBuffer, Rgb};
use mangalize::fetch::download::{
    accept_image, content_range_total, extension_for, parse_u64, probe_reply, request_headers, ImageKind,
    Probe, MAX_IMAGE_BYTES,
};
use mangalize::fetch::series::ChapterLink;
use mangalize::fetch::{chapter_pages, extract_page, finish_plan, measure, plan_batch, Found};
use mangalize::sieve::Verdict;

fn jpeg(width: u32, height: u32) -> Vec<u8> {
    let img: ImageBuffer<Rgb<u8>, Vec<u8>> = ImageBuffer::from_pixel(width, height, Rgb([200, 200, 200]));
    let mut bytes = Vec::new();
    img.write_to(&mut std::io::Cursor::new(&mut bytes), image::ImageFormat::Jpeg).unwrap();
    bytes
}

fn measured(width: u32, height: u32) -> Probe {
    Probe { width, height, bytes: 1000, error: None }
}

fn urls(n: usize) -> Vec<String> {
    (1..=n).map(|i| format!("https://img.example/p/{i}.jpg")).collect()
}

#[test]
fn measuring_nothing_is_not_an_error() {
    assert!(measure(&[], vec![]).is_empty());
}

#[test]
fn extensions_follow_the_bytes_not_the_header() {
    assert_eq!(extension_for(ImageKind::WebP), "webp");
    assert_eq!(extension_for(ImageKind::Png), "png");
    assert_eq!(extension_for(ImageKind::Other), "jpg");
}

#[test]
fn a_chapter_page_yields_its_pages_measured_and_judged() {
    let mut probes = vec![measured(800, 1168); 4];
    probes.push(measured(600, 120));
    probes.push(measured(32, 32));
    let found = extract_page("https://site.example/ch1", &urls(6), probes);
    assert_eq!(found.page_url, "https://site.example/ch1");
    let taken = chapter_pages(&found);
    assert_eq!(taken, urls(4));
    assert!(found.candidates[4..].iter().all(|c| c.verdict == Verdict::OffSize && !c.selected));
}

#[test]
fn the_spread_is_recognised_rather_than_thrown_out() {
    let probes = vec![measured(800, 1168), measured(800, 1168), measured(1600, 1168), measured(800, 1168)];
    let found = measure(&urls(4), probes);
    let spread = &found[2];
    assert_eq!(spread.verdict, Verdict::Spread);
    assert_eq!((spread.width, spread.height), (1600, 1168));
    assert!(spread.selected);
}

#[test]
fn a_dead_image_url_is_reported_against_that_page_not_the_whole_chapter() {
    let probes = vec![measured(800, 1168), Probe::failed("404".into()), measured(800, 1168)];
    let found = measure(&urls(3), probes);
    assert!(found[0].error.is_none());
    assert_eq!(found[1].error.as_deref(), Some("404"));
    assert!(!found[1].selected, "an unreadable candidate must not be preticked");
}

#[test]
fn only_addresses_with_a_probe_become_candidates() {
    assert_eq!(measure(&urls(3), vec![measured(1, 1)]).len(), 1);
    assert_eq!(measure(&urls(1), vec![measured(1, 1), measured(2, 2)]).len(), 1);
}

#[test]
fn probing_reads_the_header_not_the_whole_file() {
    let bytes = jpeg(800, 1168);
    let head = &bytes[..bytes.len().min(64 * 1024)];
    let page = probe_reply("image/jpeg", Some("bytes 0-65535/1048576"), Some("65536"), head).unwrap();
    assert_eq!(page.bytes, 1048576, "full size was not recovered from the range reply");
    assert_eq!((page.width, page.height), (800, 1168));
    let page = probe_reply("image/jpeg", None, Some("4096"), head).unwrap();
    assert_eq!(page.bytes, 4096);
    let page = probe_reply("image/jpeg", None, None, head).unwrap();
    assert_eq!(page.bytes, 0);
}

#[test]
fn a_page_served_instead_of_an_image_says_so() {
    let err = probe_reply("Text/HTML", None, None, b"<html></html>").unwrap_err();
    assert!(err.starts_with("that URL served text/html, not an image: "), "{err}");
    let err = probe_reply("application/octet-stream", None, None, b"\x00\x01").unwrap_err();
    assert!(err.starts_with("could not read the image header: "), "{err}");
}

#[test]
fn content_range_totals_are_read_after_the_last_slash() {
    assert_eq!(content_range_total(Some("bytes 0-63/1048576")), Some(1048576));
    assert_eq!(content_range_total(Some("bytes 0-63/ 77 ")), Some(77));
    assert_eq!(content_range_total(Some("bytes 0-63/*")), None);
    assert_eq!(content_range_total(Some("12")), Some(12));
    assert_eq!(content_range_total(None), None);
}

#[test]
fn whole_numbers_read_as_the_standard_library_reads_them() {
    let chars = |s: &str| s.chars().collect::<Vec<char>>();
    assert_eq!(parse_u64(&chars("+42")), Some(42));
    assert_eq!(parse_u64(&chars("18446744073709551615")), Some(u64::MAX));
    assert_eq!(parse_u64(&chars("18446744073709551616")), None);
    assert_eq!(parse_u64(&chars("")), None);
    assert_eq!(parse_u64(&chars("+")), None);
    assert_eq!(parse_u64(&chars("-1")), None);
    assert_eq!(parse_u64(&chars("1 ")), None);
}

#[test]
fn the_bytes_decide_the_extension() {
    let png = {
        let img: ImageBuffer<Rgb<u8>, Vec<u8>> = ImageBuffer::from_pixel(2, 2, Rgb([1, 2, 3]));
        let mut bytes = Vec::new();
        img.write_to(&mut std::io::Cursor::new(&mut bytes), image::ImageFormat::Png).unwrap();
        bytes
    };
    let (bytes, ext) = accept_image("image/jpeg", png.clone()).unwrap();
    assert_eq!(ext, "png");
    assert_eq!(bytes, png);
    assert_eq!(accept_image("image/jpeg", jpeg(2, 2)).unwrap().1, "jpg");
    assert_eq!(
        accept_image("text/html; charset=utf-8", b"<html>".to_vec()).unwrap_err(),
        "that URL served text/html; charset=utf-8, not an image"
    );
    assert_eq!(accept_image("", b"??".to_vec()).unwrap_err(), "could not recognise the image format");
    assert_eq!(accept_image("image/jpeg", vec![0xff; MAX_IMAGE_BYTES + 1]).unwrap_err(), "image is over 64 MB");
}

#[test]
fn the_page_url_is_sent_as_a_referer_so_hotlink_checks_pass() {
    let headers = request_headers("mangalize/0.1.0", Some("https://site.example/read/ch1?p=2"));
    let pairs: Vec<(&str, &str)> = headers.iter().map(|(k, v)| (k.as_str(), v.as_str())).collect();
    assert_eq!(
        pairs,
        vec![
            ("User-Agent", "mangalize/0.1.0"),
            ("Accept", "image/avif,image/webp,image/*,*/*;q=0.8"),
            ("Referer", "https://site.example/read/ch1?p=2"),
            ("Origin", "https://site.example"),
        ]
    );
    assert_eq!(request_headers("a", None).len(), 2);
}

fn link(number: &str, url: &str) -> ChapterLink {
    ChapterLink { number: number.into(), url: url.into() }
}

#[test]
fn a_batch_prefers_links_and_guesses_the_rest() {
    let links = vec![link("7", "https://s.example/x-chapter-7/"), link("9", "https://s.example/x-chapter-9/")];
    let wanted: Vec<String> = vec!["9".into(), "8".into(), "07".into(), "8.5".into()];
    let draft = plan_batch("https://s.example/x-chapter-10/", &links, &wanted);
    let linked: Vec<(&str, &str)> = draft.items.iter().map(|i| (i.number.as_str(), i.url.as_str())).collect();
    assert_eq!(linked, vec![("9", "https://s.example/x-chapter-9/"), ("07", "https://s.example/x-chapter-7/")]);
    assert_eq!(
        draft.guesses,
        vec![
            ("8".to_string(), "https://s.example/x-chapter-8/".to_string()),
            ("8.5".to_string(), "https://s.example/x-chapter-8.5/".to_string()),
        ]
    );
    assert!(draft.unresolved.is_empty());

    let plan = finish_plan(draft, &vec![true, false]);
    let order: Vec<(&str, Found)> = plan.items.iter().map(|i| (i.number.as_str(), i.found)).collect();
    assert_eq!(order, vec![("07", Found::Linked), ("8", Found::Guessed), ("9", Found::Linked)]);
    assert_eq!(plan.unresolved, vec!["8.5".to_string()]);
    assert_eq!(plan.pattern.as_deref(), Some("https://s.example/x-chapter-{n}/"));
}

#[test]
fn without_a_url_pattern_unlinked_chapters_stay_unresolved() {
    let wanted: Vec<String> = vec!["3".into()];
    let draft = plan_batch("https://s.example/read", &vec![], &wanted);
    assert!(draft.template.is_none());
    assert_eq!(draft.unresolved, vec!["3".to_string()]);
    let plan = finish_plan(draft, &vec![]);
    assert!(plan.pattern.is_none());
    assert!(plan.items.is_empty());
}
