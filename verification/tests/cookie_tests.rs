use hibiscus_core::cookies::{
    apply_set_cookie, clear_session_cookie_lines, jar_cookie_lines, join_cookie_pairs, set_cookies,
};
use hibiscus_core::store::StoreState;

fn fresh_store() -> StoreState {
    StoreState::new(String::from("/data"))
}

#[test]
fn second_set_cookie_overwrites_first() {
    let mut store = fresh_store();
    apply_set_cookie(&mut store, "a=1; Domain=site.com", "site.com", 1000);
    apply_set_cookie(&mut store, "a=2; Domain=site.com", "site.com", 1001);
    let cookies = store.get_cookies("site.com", 1002);
    assert_eq!(cookies.len(), 1);
    assert_eq!(cookies[0].0, "a");
    assert_eq!(cookies[0].1, "2");
}

#[test]
fn set_cookie_attributes_are_best_effort() {
    let mut store = fresh_store();
    // the unreadable Expires is skipped; the cookie itself is kept
    apply_set_cookie(
        &mut store,
        "Expires=not-a-date; Path=/app; Domain=.site.com; sid=xyz; HttpOnly; Secure",
        "fallback.com",
        1000,
    );
    let cookies = store.get_cookies("site.com", 2000);
    assert_eq!(cookies.len(), 1);
    assert_eq!(cookies[0].0, "sid");
    assert_eq!(cookies[0].1, "xyz");
}

#[test]
fn set_cookie_without_domain_uses_fallback() {
    let mut store = fresh_store();
    apply_set_cookie(&mut store, "tok=55", "fallback.com", 1000);
    let cookies = store.get_cookies("fallback.com", 1001);
    assert_eq!(cookies.len(), 1);
    assert_eq!(cookies[0].0, "tok");
    assert_eq!(cookies[0].1, "55");
    assert_eq!(store.get_cookies("site.com", 1001).len(), 0);
}

#[test]
fn max_age_sets_absolute_expiry() {
    let mut store = fresh_store();
    // attributes collected before a name=value piece apply to it
    apply_set_cookie(&mut store, "Max-Age=100; Domain=site.com; s=1", "f.com", 1000);
    // live before the expiry, filtered after it (lazily, not deleted)
    assert_eq!(store.get_cookies("site.com", 1099).len(), 1);
    assert_eq!(store.get_cookies("site.com", 1100).len(), 0);
    assert_eq!(store.get_cookies("site.com", 1099).len(), 1);
}

#[test]
fn expires_attribute_parses_rfc2822() {
    let mut store = fresh_store();
    apply_set_cookie(
        &mut store,
        "Expires=Wed, 21 Oct 2015 07:28:00 GMT; Domain=site.com; s=1",
        "f.com",
        0,
    );
    // that date is 1445412480 seconds after the epoch
    assert_eq!(store.get_cookies("site.com", 1445412479).len(), 1);
    assert_eq!(store.get_cookies("site.com", 1445412480).len(), 0);
}

#[test]
fn two_cookies_in_one_line() {
    let mut store = fresh_store();
    // the first pair sees no attributes yet and lands on the fallback;
    // the Domain collected next applies to the following pair
    apply_set_cookie(&mut store, "a=1; Domain=site.com; b=2", "f.com", 1000);
    let fallback = store.get_cookies("f.com", 1001);
    assert_eq!(fallback.len(), 1);
    assert_eq!(fallback[0].0, "a");
    let site = store.get_cookies("site.com", 1001);
    assert_eq!(site.len(), 1);
    assert_eq!(site[0].0, "b");
}

#[test]
fn empty_set_cookie_line_stores_nothing() {
    let mut store = fresh_store();
    apply_set_cookie(&mut store, "", "f.com", 1000);
    apply_set_cookie(&mut store, " ; ; ", "f.com", 1000);
    assert_eq!(store.get_cookies("f.com", 1001).len(), 0);
}

#[test]
fn injected_cookies_persist_and_feed_jar() {
    let mut store = fresh_store();
    let jar = set_cookies(&mut store, "cf_clearance=abc; sess=42", "site.com");
    assert_eq!(jar, vec![String::from("cf_clearance=abc"), String::from("sess=42")]);
    let cookies = store.get_cookies("site.com", 1000);
    assert_eq!(cookies.len(), 2);
    assert_eq!(cookies[0].0, "cf_clearance");
    assert_eq!(cookies[1].1, "42");
}

#[test]
fn injecting_again_does_not_duplicate() {
    let mut store = fresh_store();
    let _ = set_cookies(&mut store, "a=1", "site.com");
    let _ = set_cookies(&mut store, "a=1", "site.com");
    assert_eq!(store.get_cookies("site.com", 10).len(), 1);
}

#[test]
fn jar_lines_are_name_value_pairs() {
    let mut store = fresh_store();
    let _ = set_cookies(&mut store, "a=1; b=2", "site.com");
    let lines = jar_cookie_lines(&store, "site.com", 10);
    assert_eq!(lines, vec![String::from("a=1"), String::from("b=2")]);
}

#[test]
fn startup_cookie_header_joins_pairs() {
    let pairs = vec![
        (String::from("a"), String::from("1")),
        (String::from("b"), String::from("2")),
    ];
    assert_eq!(join_cookie_pairs(&pairs), "a=1; b=2");
    let one = vec![(String::from("k"), String::from("v"))];
    assert_eq!(join_cookie_pairs(&one), "k=v");
    let none: Vec<(String, String)> = Vec::new();
    assert_eq!(join_cookie_pairs(&none), "");
}

#[test]
fn clearing_session_cookies_expires_the_known_names() {
    let lines = clear_session_cookie_lines("site.com");
    assert_eq!(lines.len(), 3);
    assert_eq!(lines[0], "hanime1_session=; Max-Age=0; Path=/; Domain=.site.com");
    assert_eq!(lines[1], "cf_clearance=; Max-Age=0; Path=/; Domain=.site.com");
    assert_eq!(lines[2], "XSRF-TOKEN=; Max-Age=0; Path=/; Domain=.site.com");
}

#[test]
fn clear_cookies_empties_the_store() {
    let mut store = fresh_store();
    let _ = set_cookies(&mut store, "a=1; b=2", "site.com");
    store.clear_cookies();
    assert_eq!(store.get_cookies("site.com", 10).len(), 0);
}
