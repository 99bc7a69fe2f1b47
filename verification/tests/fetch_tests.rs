use hibiscus_core::errors::CoreError;
use hibiscus_core::fetch::{
    access_ok, build_login_body, csrf_header, guess_quality_from_url, is_challenge_status,
    response_outcome, TransferProgress,
};

#[test]
fn test_guess_quality() {
    assert_eq!(guess_quality_from_url("video_1080p.mp4"), "1080p");
    assert_eq!(guess_quality_from_url("video_720.m3u8"), "720p");
    assert_eq!(guess_quality_from_url("video.mp4"), "auto");
}

#[test]
fn guess_quality_all_markers() {
    assert_eq!(guess_quality_from_url("clip_480.mp4"), "480p");
    assert_eq!(guess_quality_from_url("clip_360.m3u8"), "360p");
    assert_eq!(guess_quality_from_url(""), "auto");
}

#[test]
fn http_503_is_challenge_not_transport() {
    let r = response_outcome(503, String::from("<html>blocked</html>"));
    assert!(matches!(r, Err(CoreError::ChallengeRequired)));
    let r = response_outcome(403, String::from("denied"));
    assert!(matches!(r, Err(CoreError::ChallengeRequired)));
}

#[test]
fn ordinary_statuses_pass_body_through() {
    let r = response_outcome(200, String::from("body"));
    assert_eq!(r.unwrap(), "body");
    let r = response_outcome(404, String::from("missing"));
    assert_eq!(r.unwrap(), "missing");
    assert!(!is_challenge_status(500));
    assert!(is_challenge_status(403));
}

#[test]
fn access_ok_distinguishes_challenge() {
    assert!(access_ok(&Ok(String::from("<html>"))));
    assert!(access_ok(&Err(CoreError::Transport(String::from("timed out")))));
    assert!(!access_ok(&Err(CoreError::ChallengeRequired)));
}

#[test]
fn login_body_percent_encodes_fields() {
    let body = build_login_body("t&k", "a b@c.com", "p@ss");
    assert_eq!(body, "_token=t%26k&email=a%20b%40c.com&password=p%40ss");
}

#[test]
fn login_success_judged_from_login_page() {
    assert!(!hibiscus_core::fetch::login_succeeded(
        "<form><input[name=_token] value=\"x\"></form>"
    ));
    assert!(hibiscus_core::fetch::login_succeeded("<html>welcome back</html>"));
}

#[test]
fn csrf_token_travels_in_distinct_header() {
    let (name, value) = csrf_header("tok123");
    assert_eq!(name, "X-CSRF-TOKEN");
    assert_eq!(value, "tok123");
}

#[test]
fn transfer_progress_accumulates_chunks() {
    let mut p = TransferProgress::new(100);
    p.record_chunk(30);
    p.record_chunk(70);
    assert_eq!(p.downloaded, 100);
    assert_eq!(p.total, 100);
}

#[test]
fn error_messages_name_their_condition() {
    assert_eq!(CoreError::ChallengeRequired.message(), "CLOUDFLARE_CHALLENGE");
    assert_eq!(CoreError::TaskNotFound.message(), "task not found");
    assert_eq!(CoreError::InvalidHeader.message(), "invalid header value");
    assert_eq!(CoreError::Transport(String::from("reset")).message(), "reset");
    assert_eq!(CoreError::Store(String::from("locked")).message(), "locked");
}
