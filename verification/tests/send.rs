use mangalize::send::{
    encoded_size, explain_failure, mime_for, relay, send, size_problem, Account, Delivery, Security,
};

fn account(port: u16) -> Account {
    Account {
        host: "127.0.0.1".into(),
        port,
        security: Security::Unencrypted,
        username: "me".into(),
        from: "me@example.test".into(),
    }
}

#[test]
fn encoding_inflates_by_about_a_third() {
    let encoded = encoded_size(3 * 1024 * 1024);
    assert!(encoded > 4_000_000 && encoded < 4_300_000, "{encoded}");
}

#[test]
fn a_small_volume_has_no_size_problem() {
    assert!(size_problem(5 * 1024 * 1024).is_none());
}

#[test]
fn a_volume_over_the_provider_limit_names_that_limit() {
    let problem = size_problem(30 * 1024 * 1024).expect("30 MB should be flagged");
    assert!(problem.contains("25 MB"), "{problem}");
    assert!(problem.contains("Gmail"), "{problem}");
}

#[test]
fn a_volume_over_amazons_limit_says_so_instead() {
    let problem = size_problem(45 * 1024 * 1024).expect("45 MB should be flagged");
    assert!(problem.contains("50 MB"), "{problem}");
    assert!(problem.contains("USB"), "should suggest the way out: {problem}");
}

#[test]
fn a_missing_address_is_refused_before_any_connection() {
    let account = Account {
        host: "smtp.example.test".into(),
        port: 587,
        security: Security::StartTls,
        username: "me".into(),
        from: "me@example.test".into(),
    };
    let error = send(&account, "pw", &Delivery { to: "  ", filename: "v01.epub", bytes: vec![1, 2, 3] })
        .unwrap_err()
        .to_string();
    assert!(error.contains("device address"), "{error}");
}

#[test]
fn a_volume_too_large_to_arrive_is_refused_before_dialling_out() {
    let error = send(
        &Account { host: "127.0.0.1".into(), port: 1, ..account(1) },
        "app-password",
        &Delivery { to: "reader@kindle.com", filename: "huge.epub", bytes: vec![0u8; 30 * 1024 * 1024] },
    )
    .unwrap_err()
    .to_string();
    assert!(error.contains("25 MB"), "should name the limit it hit: {error}");
}

#[test]
fn encoded_sizes_are_exact() {
    assert_eq!(encoded_size(0), 0);
    assert_eq!(encoded_size(1), 4);
    assert_eq!(encoded_size(3), 4);
    assert_eq!(encoded_size(57), 77);
}

#[test]
fn size_problems_print_megabytes_to_one_place() {
    let problem = size_problem(30 * 1024 * 1024).unwrap();
    assert!(problem.starts_with("30.0 MB becomes about 40.5 MB once encoded for email."), "{problem}");
    let huge = size_problem(45 * 1024 * 1024).unwrap();
    assert!(huge.starts_with("45.0 MB becomes about 60.8 MB"), "{huge}");
}

#[test]
fn attachments_are_typed_by_extension_in_any_case() {
    assert_eq!(mime_for("Ichi v01.epub"), "application/epub+zip");
    assert_eq!(mime_for("Ichi v01.cbz"), "application/vnd.comicbook+zip");
    assert_eq!(mime_for("Ichi v01.EPUB"), "application/epub+zip");
    assert_eq!(mime_for("scan.Pdf"), "application/pdf");
    assert_eq!(mime_for("noextension"), "application/octet-stream");
}

#[test]
fn a_good_delivery_becomes_a_message_named_after_the_file() {
    let m = send(&account(25), "pw", &Delivery { to: "reader@kindle.com", filename: "v01.cbz", bytes: vec![1] })
        .unwrap();
    assert_eq!(m.to, "reader@kindle.com");
    assert_eq!(m.from, "me@example.test");
    assert_eq!(m.subject, "v01.cbz");
    assert_eq!(m.media_type, "application/vnd.comicbook+zip");
}

#[test]
fn a_blank_sender_is_refused() {
    let mut a = account(25);
    a.from = " ".into();
    let e = send(&a, "pw", &Delivery { to: "x@kindle.com", filename: "v.epub", bytes: vec![] }).unwrap_err();
    assert_eq!(e, "no sender address set");
}

#[test]
fn a_relay_needs_a_host_and_sends_credentials_only_with_a_user() {
    let mut a = account(587);
    a.host = "  smtp.test ".into();
    let r = relay(&a, "pw").unwrap();
    assert_eq!(r.host, "smtp.test");
    assert_eq!(r.credentials, Some(("me".to_string(), "pw".to_string())));
    a.username = "  ".into();
    assert_eq!(relay(&a, "pw").unwrap().credentials, None);
    a.host = " ".into();
    assert_eq!(relay(&a, "pw").unwrap_err(), "no mail server set");
}

#[test]
fn server_errors_are_explained_by_their_likely_cause() {
    let a = account(465);
    assert!(explain_failure("permanent error (535): bad", &a).starts_with("127.0.0.1 rejected the username or password."));
    assert!(explain_failure("TLS handshake failed", &a).starts_with("could not negotiate encryption with 127.0.0.1:465."));
    assert!(explain_failure("Connection refused", &a).starts_with("could not reach 127.0.0.1:465."));
    assert_eq!(explain_failure("something else", &a), "something else");
}

#[test]
fn the_largest_file_that_arrives_is_just_under_the_provider_limit() {
    assert_eq!(size_problem(19_405_464), None);
    assert!(size_problem(19_405_465).is_some());
    assert_eq!(encoded_size(19_405_464), 26_214_398);
}
