//! Fetch-client decision logic: challenge detection, access probing, and
//! the login helpers, all free of I/O. The caller performs the request and
//! hands status and body in.

use vstd::prelude::*;
use vstd::string::*;

use crate::errors::CoreError;
use crate::text::{chars_of, contains_chars, contains_seq, string_from_chars};

verus! {

/// An HTTP status that signals an anti-automation challenge.
pub open spec fn spec_is_challenge_status(status: u16) -> bool {
    status == 403 || status == 503
}

/// Whether a response status is the challenge condition.
pub fn is_challenge_status(status: u16) -> (r: bool)
    ensures
        r == spec_is_challenge_status(status),
{
    status == 403 || status == 503
}

/// Classifies a response: status 403 or 503 is the challenge condition —
/// distinct from any transport fault, to be resolved out-of-band — and
/// every other status hands the decoded body through unchanged.
pub fn response_outcome(status: u16, body: String) -> (r: Result<String, CoreError>)
    ensures
        r is Err <==> spec_is_challenge_status(status),
        r matches Err(e) ==> e is ChallengeRequired,
        r matches Ok(b) ==> b == body,
{
    if status == 403 || status == 503 {
        Err(CoreError::ChallengeRequired)
    } else {
        Ok(body)
    }
}

/// Whether the site is reachable without a challenge: a successful fetch of
/// the root, or any failure other than the challenge condition.
pub fn access_ok(outcome: &Result<String, CoreError>) -> (r: bool)
    ensures
        r == !(outcome matches Err(e) && e.is_challenge()),
{
    match outcome {
        Ok(_) => true,
        Err(e) => !matches!(e, CoreError::ChallengeRequired),
    }
}

/// The quality label a source URL suggests.
pub open spec fn spec_guess_quality(url: Seq<char>) -> Seq<char> {
    if contains_seq(url, "1080"@) {
        "1080p"@
    } else if contains_seq(url, "720"@) {
        "720p"@
    } else if contains_seq(url, "480"@) {
        "480p"@
    } else if contains_seq(url, "360"@) {
        "360p"@
    } else {
        "auto"@
    }
}

/// Guesses a video quality label from markers in its URL.
pub fn guess_quality_from_url(url: &str) -> (r: String)
    ensures
        r@ == spec_guess_quality(url@),
{
    let url_chars = chars_of(url);
    if contains_chars(&url_chars, &chars_of("1080")) {
        String::from_str("1080p")
    } else if contains_chars(&url_chars, &chars_of("720")) {
        String::from_str("720p")
    } else if contains_chars(&url_chars, &chars_of("480")) {
        String::from_str("480p")
    } else if contains_chars(&url_chars, &chars_of("360")) {
        String::from_str("360p")
    } else {
        String::from_str("auto")
    }
}

/// A byte percent-encoding keeps verbatim: ASCII alphanumerics and
/// `-`, `.`, `_`, `~`.
pub open spec fn spec_url_safe_byte(b: u8) -> bool {
    (48 <= b <= 57) || (65 <= b <= 90) || (97 <= b <= 122) || b == 45 || b == 46 || b == 95 || b
        == 126
}

/// The uppercase hexadecimal digit of one nibble.
pub open spec fn spec_hex_digit(d: u8) -> char
    recommends
        d < 16,
{
    if d < 10 {
        ((48 + d) as u8) as char
    } else {
        ((55 + d) as u8) as char
    }
}

/// Percent-encoding of a byte sequence: safe bytes verbatim, every other
/// byte as `%` and two uppercase hex digits.
pub open spec fn spec_percent_encode(bytes: Seq<u8>) -> Seq<char>
    decreases bytes.len(),
{
    if bytes.len() == 0 {
        Seq::empty()
    } else {
        let b = bytes[0];
        (if spec_url_safe_byte(b) {
            seq![b as char]
        } else {
            seq!['%', spec_hex_digit(b / 16), spec_hex_digit(b % 16)]
        }) + spec_percent_encode(bytes.drop_first())
    }
}

/// Relies on urlencoding's `encode`: it percent-encodes every byte of the
/// string's UTF-8 form except ASCII alphanumerics and `-`, `.`, `_`, `~`,
/// writing uppercase hex digits.
#[verifier::external_body]
fn encode_component(s: &str) -> (r: String)
    ensures
        r@ == spec_percent_encode(s.spec_bytes()),
{
    urlencoding::encode(s).into_owned()
}

/// The form body of a login request, each field percent-encoded.
pub fn build_login_body(csrf_token: &str, email: &str, password: &str) -> (r: String)
    ensures
        r@ == "_token="@ + spec_percent_encode(csrf_token.spec_bytes()) + "&email="@
            + spec_percent_encode(email.spec_bytes()) + "&password="@ + spec_percent_encode(
            password.spec_bytes(),
        ),
{
    let mut r = String::from_str("_token=");
    r.append(encode_component(csrf_token).as_str());
    r.append("&email=");
    r.append(encode_component(email).as_str());
    r.append("&password=");
    r.append(encode_component(password).as_str());
    r
}

/// The CSRF header a token travels in, distinct from the form body.
pub fn csrf_header(token: &str) -> (r: (String, String))
    ensures
        r.0@ == "X-CSRF-TOKEN"@,
        r.1@ == token@,
{
    (String::from_str("X-CSRF-TOKEN"), token.to_owned())
}

/// Whether a login succeeded, judged from the login page fetched after the
/// attempt: seeing the token input form again means it failed.
pub fn login_succeeded(login_page_html: &str) -> (r: bool)
    ensures
        r == !contains_seq(login_page_html@, "input[name=_token]"@),
{
    let html = chars_of(login_page_html);
    let needle = chars_of("input[name=_token]");
    !contains_chars(&html, &needle)
}

/// Cumulative progress of one streaming transfer: bytes written so far and
/// the declared total (0 when unknown).
pub struct TransferProgress {
    pub downloaded: u64,
    pub total: u64,
}

impl TransferProgress {
    /// Progress at the start of a transfer whose declared length is
    /// `total_or_zero`.
    pub fn new(total_or_zero: u64) -> (r: TransferProgress)
        ensures
            r.downloaded == 0,
            r.total == total_or_zero,
    {
        TransferProgress { downloaded: 0, total: total_or_zero }
    }

    /// Accounts one chunk: the cumulative count grows by exactly the
    /// chunk's length; the declared total never moves.
    pub fn record_chunk(&mut self, len: usize)
        requires
            old(self).downloaded + len <= u64::MAX,
        ensures
            final(self).downloaded == old(self).downloaded + len,
            final(self).total == old(self).total,
    {
        self.downloaded = self.downloaded + (len as u64);
    }
}

} // verus!
