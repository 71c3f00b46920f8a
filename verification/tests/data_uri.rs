use mangalize::fetch::data_uri::{
    check_size, decode, decoded_len, describe, is_data_image, is_data_uri, media_type,
    percent_decode, DataUriError,
};

// "hi" as base64 is "aGk=".
const TINY: &str = "data:image/png;base64,aGk=";

#[test]
fn a_data_image_is_recognised() {
    assert!(is_data_uri(TINY));
    assert!(is_data_image(TINY));
    assert!(!is_data_image("https://a.test/x.jpg"));
}

#[test]
fn an_unlabelled_data_uri_is_not_assumed_to_be_a_page() {
    assert!(!is_data_image("data:,hello"));
    assert!(!is_data_image("data:text/html;base64,PGI+"));
}

#[test]
fn base64_payloads_decode() {
    assert_eq!(decode(TINY).unwrap(), b"hi");
}

#[test]
fn the_scheme_is_matched_case_insensitively() {
    assert!(is_data_image("DATA:image/jpeg;base64,aGk="));
    assert_eq!(decode("DATA:image/jpeg;BASE64,aGk=").unwrap(), b"hi");
}

#[test]
fn whitespace_inside_a_payload_is_tolerated() {
    assert_eq!(decode("data:image/png;base64,aG\n  k=").unwrap(), b"hi");
}

#[test]
fn percent_encoded_payloads_decode_too() {
    assert_eq!(decode("data:image/svg+xml,a%20b").unwrap(), b"a b");
}

#[test]
fn media_types_are_read_past_the_charset() {
    assert_eq!(media_type("data:image/webp;charset=utf-8;base64,aGk="), "image/webp");
    assert_eq!(media_type("data:,hello"), "text/plain");
}

#[test]
fn a_description_never_contains_the_payload() {
    let described = describe(TINY);
    assert!(described.contains("image/png"));
    assert!(!described.contains("aGk"), "{described}");
}

#[test]
fn an_absurdly_large_embedded_image_is_refused() {
    let over = format!("data:image/png;base64,{}", "A".repeat(4096));
    assert_eq!(decoded_len(&over), 3072);
    assert!(check_size(&over, 1024).is_err());
    assert!(check_size(&over, 4096).is_ok());
    assert!(check_size(TINY, 64 * 1024 * 1024).is_ok());
}

#[test]
fn malformed_uris_fail_rather_than_panic() {
    assert!(decode("data:image/png;base64").is_err());
    assert!(decode("data:image/png;base64,!!!!").is_err());
    assert!(decode("data:image/svg+xml,a%2").is_err());
}

#[test]
fn each_decoding_failure_names_its_cause() {
    assert_eq!(decode("dat"), Err(DataUriError::NotDataUri));
    assert_eq!(decode("data:image/png;base64"), Err(DataUriError::NoComma));
    assert_eq!(decode("data:image/png;base64,!!!!"), Err(DataUriError::BadBase64));
    assert_eq!(decode("data:text/plain,a%2"), Err(DataUriError::TruncatedEscape));
    assert_eq!(decode("data:text/plain,a%zz"), Err(DataUriError::BadEscape));
    let over = format!("data:image/png;base64,{}", "A".repeat(4096));
    assert_eq!(check_size(&over, 1024), Err(DataUriError::TooLarge { approx: 3072 }));
}

#[test]
fn descriptions_round_to_whole_kilobytes() {
    let one_k = format!("data:image/png,{}", "x".repeat(1536));
    assert_eq!(describe(&one_k), "embedded image/png (2 KB)");
    let half = format!("data:image/png,{}", "x".repeat(512));
    assert_eq!(describe(&half), "embedded image/png (0 KB)");
    assert_eq!(describe("data:,hi"), "embedded text/plain (0 KB)");
}

#[test]
fn percent_escapes_accept_both_cases_and_a_plus() {
    assert_eq!(percent_decode(b"%41%6a%4A"), Ok(b"AjJ".to_vec()));
    assert_eq!(percent_decode(b"%+f"), Ok(vec![15]));
    assert_eq!(percent_decode(b"%g1"), Err(DataUriError::BadEscape));
    assert_eq!(percent_decode(b""), Ok(vec![]));
}
