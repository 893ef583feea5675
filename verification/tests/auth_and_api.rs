//! Exercises submission validation, the outcome wire encoding, and the
//! authentication engine against real argon2 hashes.

use hexichor::api::{inspect_urls, SubmitRejection};
use hexichor::auth::Engine;
use hexichor::dto::{LoginRequest, StatusReply};
use hexichor::errors::SyncError;
use hexichor::messages::{DownloadResult, StatusReplyMessage};

#[test]
fn empty_submissions_are_rejected_before_the_core() {
    match inspect_urls(Vec::new()) {
        Err(SubmitRejection::Empty(_)) => {}
        _ => panic!("an empty submission must be rejected"),
    }
}

#[test]
fn invalid_urls_are_rejected_naming_the_first_offender() {
    let list = vec![
        "http://example.com/fine".to_string(),
        "not a url at all".to_string(),
        "also wrong".to_string(),
    ];
    match inspect_urls(list) {
        Err(SubmitRejection::BadUrl(e)) => assert_eq!(e.get_url(), "not a url at all"),
        _ => panic!("an invalid URL must be rejected"),
    }
}

#[test]
fn valid_submissions_pass_through_unchanged() {
    let list = vec![
        "http://example.com/200".to_string(),
        "https://example.com/404?q=1".to_string(),
    ];
    let out = inspect_urls(list.clone()).expect("a valid batch passes");
    assert_eq!(out, list);
}

#[test]
fn wire_encoding_matches_the_documented_codes() {
    assert_eq!(i32::from(DownloadResult::Fetched(200)), 200);
    assert_eq!(i32::from(DownloadResult::Fetched(999)), 999);
    assert_eq!(i32::from(DownloadResult::RedirectError), -1);
    assert_eq!(i32::from(DownloadResult::TimeOutError), -2);
    assert_eq!(i32::from(DownloadResult::RequestError), -3);
    assert_eq!(i32::from(DownloadResult::ConnectError), -4);
    assert_eq!(i32::from(DownloadResult::DecodeError), -5);
    assert_eq!(i32::from(DownloadResult::UnknownError), -6);
}

#[test]
fn status_replies_are_encoded_for_the_wire() {
    let msg = StatusReplyMessage::new(
        true,
        vec![
            ("http://example.com/ok".to_string(), DownloadResult::Fetched(204)),
            ("http://example.com/down".to_string(), DownloadResult::ConnectError),
        ],
    );
    assert_eq!(msg.len(), 2);
    let reply = StatusReply::from_message(msg);
    assert!(reply.finished);
    assert_eq!(
        reply.results,
        vec![
            ("http://example.com/ok".to_string(), 204),
            ("http://example.com/down".to_string(), -4),
        ]
    );
}

#[test]
fn login_succeeds_only_with_the_right_password() {
    let hash = argon2::hash_encoded(b"open sesame", b"0123456789abcdef", &argon2::Config::default())
        .expect("hashing a password succeeds");
    let mut engine = Engine::new(vec![("ali_baba".to_string(), hash)]);

    assert!(engine.verify("ali_baba", b"wrong password").is_none());
    assert!(engine.verify("nobody", b"open sesame").is_none());

    let cookie = engine.verify("ali_baba", b"open sesame").expect("the right password logs in");
    assert_eq!(cookie.chars().count(), 74);
    assert!(cookie.chars().all(|c| c.is_ascii_alphanumeric()));

    assert!(engine.is_authorized(&cookie));
    assert!(!engine.is_authorized(&"forged".to_string()));
}

#[test]
fn malformed_stored_hashes_never_authenticate() {
    let mut engine = Engine::new(vec![("user".to_string(), "not an argon2 hash".to_string())]);
    assert!(engine.verify("user", b"anything").is_none());
    assert!(!engine.is_authorized(&"anything".to_string()));
}

#[test]
fn login_bodies_and_rejections_keep_their_fields() {
    let body = LoginRequest { user: "u".to_string(), password: "p".to_string() };
    assert_eq!(body.get_user(), "u");
    assert_eq!(body.get_password(), "p");

    let wrapped = SyncError::from("a dropped channel");
    assert_eq!(*wrapped.get_error(), "a dropped channel");
}
