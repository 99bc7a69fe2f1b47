use hibiscus_core::domain::{get_active_domain, resolve_plan, static_address_pool, ActiveDomain,
    ResolvePlan};
use hibiscus_core::fingerprint::{
    build_request_headers, build_sec_ch_headers, detect_platform_info, parse_major_version,
    read_user_agent_from_db, UaCache,
};
use hibiscus_core::store::StoreState;
use hibiscus_core::topic::ProgressTopic;

const CHROME_MAC_UA: &str = "Mozilla/5.0 (Macintosh; Intel Mac OS X 10_15_7) AppleWebKit/537.36 (KHTML, like Gecko) Chrome/120.0.0.0 Safari/537.36";

fn fresh_store() -> StoreState {
    StoreState::new(String::from("/data"))
}

#[test]
fn platform_inferred_from_os_markers() {
    assert_eq!(detect_platform_info(CHROME_MAC_UA), ("macOS", "13.5.0", false));
    assert_eq!(
        detect_platform_info("Mozilla/5.0 (Linux; Android 13; Pixel) Chrome/119.0.0.0"),
        ("Android", "13.0.0", true)
    );
    assert_eq!(
        detect_platform_info("Mozilla/5.0 (iPhone; CPU iPhone OS 17_0) Version/17.0 Safari/604.1"),
        ("iOS", "17.0.0", true)
    );
    assert_eq!(
        detect_platform_info("Mozilla/5.0 (Windows NT 10.0; Win64; x64) Chrome/120.0.0.0"),
        ("Windows", "10.0.0", false)
    );
    assert_eq!(detect_platform_info("curl/8.0"), ("Linux", "1.0.0", false));
}

#[test]
fn major_version_extraction() {
    assert_eq!(parse_major_version(CHROME_MAC_UA, "Chrome/"), Some(120));
    assert_eq!(parse_major_version("Mozilla/5.0 Firefox/118.0", "Firefox/"), Some(118));
    assert_eq!(parse_major_version(CHROME_MAC_UA, "Firefox/"), None);
    assert_eq!(parse_major_version("Chrome/abc.1", "Chrome/"), None);
}

#[test]
fn client_hints_agree_with_user_agent() {
    let h = build_sec_ch_headers(CHROME_MAC_UA);
    assert_eq!(
        h.ua,
        "\"Chromium\";v=\"120\", \"Google Chrome\";v=\"120\", \"Not A(Brand\";v=\"99\""
    );
    assert_eq!(h.mobile, "?0");
    assert_eq!(h.platform, "\"macOS\"");
    assert_eq!(h.platform_version, "\"13.5.0\"");
}

#[test]
fn safari_brand_list_orders_differently() {
    let ua = "Mozilla/5.0 (Macintosh) Version/17.1 Safari/605.1.15";
    let h = build_sec_ch_headers(ua);
    assert_eq!(
        h.ua,
        "\"Not A(Brand\";v=\"99\", \"Safari\";v=\"17\", \"Chromium\";v=\"17\""
    );
}

#[test]
fn request_headers_complete_and_consistent() {
    let headers = build_request_headers(CHROME_MAC_UA, "https://site.com/").unwrap();
    assert_eq!(headers.len(), 14);
    assert_eq!(headers[0].0, "user-agent");
    assert_eq!(headers[0].1, CHROME_MAC_UA);
    assert_eq!(headers[9].0, "referer");
    assert_eq!(headers[9].1, "https://site.com/");
    assert_eq!(headers[10].0, "sec-ch-ua");
    assert_eq!(headers[12].1, "\"macOS\"");
}

#[test]
fn control_characters_refuse_a_header() {
    let r = build_request_headers("bad\nagent", "https://site.com/");
    assert!(r.is_err());
    let r = build_request_headers(CHROME_MAC_UA, "https://site.com/\r");
    assert!(r.is_err());
}

#[test]
fn user_agent_cached_after_first_resolution() {
    let mut store = fresh_store();
    let mut cache = UaCache::new();
    // nothing stored: the default applies and is cached
    let ua = cache.get_or_init_user_agent(&store);
    assert_eq!(ua, CHROME_MAC_UA);
    // a later save is not seen until a reload
    store.save_setting("hibiscus_browser_user_agent", "NewAgent/1.0");
    assert_eq!(cache.get_or_init_user_agent(&store), CHROME_MAC_UA);
    assert_eq!(cache.reload_user_agent(&store), "NewAgent/1.0");
    assert_eq!(cache.get_or_init_user_agent(&store), "NewAgent/1.0");
}

#[test]
fn stored_user_agent_is_trimmed_and_must_be_nonempty() {
    let mut store = fresh_store();
    store.save_setting("hibiscus_browser_user_agent", "  Agent/2.0  ");
    assert_eq!(read_user_agent_from_db(&store).as_deref(), Some("Agent/2.0"));
    store.save_setting("hibiscus_browser_user_agent", "   ");
    assert!(read_user_agent_from_db(&store).is_none());
}

#[test]
fn active_domain_defaults() {
    let store = fresh_store();
    let d = get_active_domain(&store);
    assert_eq!(d.host, "hanime1.me");
    assert!(d.use_custom_dns);
    assert_eq!(d.base_url(), "https://hanime1.me");
    assert_eq!(d.referer(), "https://hanime1.me/");
    assert_eq!(d.cookie_domain(), "hanime1.me");
}

#[test]
fn active_domain_reads_settings_per_call() {
    let mut store = fresh_store();
    store.save_setting("network.active_host", " hanime1.com ");
    store.save_setting("network.use_custom_dns", "false");
    let d = get_active_domain(&store);
    assert_eq!(d.host, "hanime1.com");
    assert!(!d.use_custom_dns);
}

#[test]
fn resolution_substitutes_pool_for_site_names() {
    let on = ActiveDomain { host: String::from("hanime1.me"), use_custom_dns: true };
    assert!(matches!(resolve_plan(&on, "hanime1.me"), ResolvePlan::StaticPool));
    assert!(matches!(resolve_plan(&on, "www.hanime1.me"), ResolvePlan::StaticPool));
    assert!(matches!(resolve_plan(&on, "javchu.com"), ResolvePlan::StaticPool));
    assert!(matches!(resolve_plan(&on, "example.com"), ResolvePlan::System));
    assert!(matches!(resolve_plan(&on, "nothanime1.me"), ResolvePlan::System));
    let off = ActiveDomain { host: String::from("hanime1.me"), use_custom_dns: false };
    assert!(matches!(resolve_plan(&off, "hanime1.me"), ResolvePlan::System));
}

#[test]
fn pool_holds_five_addresses() {
    let pool = static_address_pool();
    assert_eq!(pool.len(), 5);
    assert_eq!(pool[0], "172.64.229.154");
}

#[test]
fn topic_drops_oldest_on_overflow() {
    let mut topic = ProgressTopic::new(2);
    let mut store = fresh_store();
    let _ = hibiscus_core::manager::add_download(
        &mut store, "v1", "T", "c.jpg", "1080P", "https://x/v1.mp4", 1,
    );
    let mut sub = topic.subscribe();
    hibiscus_core::manager::handle_progress(&mut store, &mut topic, "v1", 10, 100);
    hibiscus_core::manager::handle_progress(&mut store, &mut topic, "v1", 20, 100);
    hibiscus_core::manager::handle_progress(&mut store, &mut topic, "v1", 30, 100);
    // the slow subscriber lost the first snapshot, never the last
    let first = topic.poll(&mut sub).unwrap();
    assert_eq!(first.downloaded_bytes, 20);
    let second = topic.poll(&mut sub).unwrap();
    assert_eq!(second.downloaded_bytes, 30);
    assert!(topic.poll(&mut sub).is_none());
}

#[test]
fn fresh_subscriber_sees_only_future_snapshots() {
    let mut topic = ProgressTopic::new(8);
    let mut store = fresh_store();
    let _ = hibiscus_core::manager::add_download(
        &mut store, "v1", "T", "c.jpg", "1080P", "https://x/v1.mp4", 1,
    );
    hibiscus_core::manager::handle_progress(&mut store, &mut topic, "v1", 10, 100);
    let mut sub = topic.subscribe();
    assert!(topic.poll(&mut sub).is_none());
    hibiscus_core::manager::handle_progress(&mut store, &mut topic, "v1", 20, 100);
    assert_eq!(topic.poll(&mut sub).unwrap().downloaded_bytes, 20);
}
