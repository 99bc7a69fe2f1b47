//! Fingerprint-consistent request headers.
//!
//! All client-identifying headers are synthesized from one user-agent
//! string: the browser family is classified by substring signatures, a
//! major version extracted, platform and mobile flag inferred — so the
//! client-hint headers never contradict the user-agent.

use vstd::prelude::*;
use vstd::string::*;

use crate::errors::CoreError;
use crate::store::StoreState;
use crate::text::{
    chars_of, contains_chars, contains_seq, copy_range, dec_rep, find_char, find_seq,
    first_index_of, first_match_index, lemma_first_match_index_none, lemma_first_match_index_pinned,
    parse_u16_chars, parse_u16_spec, string_from_chars, trim_chars, trim_seq, u64_to_chars,
};

verus! {

/// The user agent a stored setting denotes: the trimmed value when it is
/// non-empty.
pub open spec fn spec_stored_ua(setting: Option<Seq<char>>) -> Option<Seq<char>> {
    match setting {
        Some(v) => if trim_seq(v).len() > 0 {
            Some(trim_seq(v))
        } else {
            None
        },
        None => None,
    }
}

/// The user agent in effect: the stored one, or the built-in default.
pub open spec fn spec_effective_ua(setting: Option<Seq<char>>) -> Seq<char> {
    match spec_stored_ua(setting) {
        Some(u) => u,
        None => "Mozilla/5.0 (Macintosh; Intel Mac OS X 10_15_7) AppleWebKit/537.36 (KHTML, like Gecko) Chrome/120.0.0.0 Safari/537.36"@,
    }
}

/// Reads the stored browser user agent: the trimmed setting when non-empty.
pub fn read_user_agent_from_db(store: &StoreState) -> (r: Option<String>)
    requires
        store.wf(),
    ensures
        crate::task::opt_view(r) == spec_stored_ua(
            store.setting_value("hibiscus_browser_user_agent"@),
        ),
{
    match store.get_setting("hibiscus_browser_user_agent") {
        Some(v) => {
            let t = trim_chars(&chars_of(v.as_str()));
            if t.len() > 0 {
                Some(string_from_chars(&t))
            } else {
                None
            }
        },
        None => None,
    }
}

/// The process-wide cache of the resolved user agent.
pub struct UaCache {
    pub cached: Option<String>,
}

impl UaCache {
    /// Well-formedness: a cached user agent is never empty (the stored one
    /// is trimmed and non-empty, the default is a fixed non-empty string).
    pub open spec fn wf(&self) -> bool {
        match self.cached {
            Some(c) => c@.len() > 0,
            None => true,
        }
    }

    /// An empty cache: nothing resolved yet.
    pub fn new() -> (r: UaCache)
        ensures
            r.cached is None,
            r.wf(),
    {
        UaCache { cached: None }
    }

    /// The user agent in effect: the cached one when present, else the
    /// stored or default one, which is then cached. Never empty.
    pub fn get_or_init_user_agent(&mut self, store: &StoreState) -> (r: String)
        requires
            store.wf(),
            old(self).wf(),
        ensures
            final(self).wf(),
            r@.len() > 0,
            match old(self).cached {
                Some(ua) => r@ == ua@ && *final(self) == *old(self),
                None => r@ == spec_effective_ua(
                    store.setting_value("hibiscus_browser_user_agent"@),
                ) && (final(self).cached matches Some(c) && c@ == r@),
            },
    {
        if let Some(ua) = &self.cached {
            return ua.clone();
        }
        let ua = match read_user_agent_from_db(store) {
            Some(u) => u,
            None => String::from_str(
                "Mozilla/5.0 (Macintosh; Intel Mac OS X 10_15_7) AppleWebKit/537.36 (KHTML, like Gecko) Chrome/120.0.0.0 Safari/537.36",
            ),
        };
        proof {
            reveal_strlit(
                "Mozilla/5.0 (Macintosh; Intel Mac OS X 10_15_7) AppleWebKit/537.36 (KHTML, like Gecko) Chrome/120.0.0.0 Safari/537.36",
            );
        }
        self.cached = Some(ua.clone());
        ua
    }

    /// Reloads the user agent from the store (after a caller saved a new
    /// one), replacing whatever was cached. Never empty.
    pub fn reload_user_agent(&mut self, store: &StoreState) -> (r: String)
        requires
            store.wf(),
        ensures
            final(self).wf(),
            r@.len() > 0,
            r@ == spec_effective_ua(store.setting_value("hibiscus_browser_user_agent"@)),
            final(self).cached matches Some(c) && c@ == r@,
    {
        let ua = match read_user_agent_from_db(store) {
            Some(u) => u,
            None => String::from_str(
                "Mozilla/5.0 (Macintosh; Intel Mac OS X 10_15_7) AppleWebKit/537.36 (KHTML, like Gecko) Chrome/120.0.0.0 Safari/537.36",
            ),
        };
        proof {
            reveal_strlit(
                "Mozilla/5.0 (Macintosh; Intel Mac OS X 10_15_7) AppleWebKit/537.36 (KHTML, like Gecko) Chrome/120.0.0.0 Safari/537.36",
            );
        }
        self.cached = Some(ua.clone());
        ua
    }
}

/// The platform a user agent declares: name, version and mobile flag,
/// inferred from OS markers in the string.
pub open spec fn spec_platform(ua: Seq<char>) -> (Seq<char>, Seq<char>, bool) {
    if contains_seq(ua, "Android"@) {
        ("Android"@, "13.0.0"@, true)
    } else if contains_seq(ua, "iPhone"@) || contains_seq(ua, "iPad"@) {
        ("iOS"@, "17.0.0"@, true)
    } else if contains_seq(ua, "Macintosh"@) {
        ("macOS"@, "13.5.0"@, false)
    } else if contains_seq(ua, "Windows"@) {
        ("Windows"@, "10.0.0"@, false)
    } else {
        ("Linux"@, "1.0.0"@, contains_seq(ua, "Mobile"@))
    }
}

/// Infers platform name, platform version and mobile flag from the OS
/// markers of a user agent.
pub fn detect_platform_info(ua: &str) -> (r: (&'static str, &'static str, bool))
    ensures
        r.0@ == spec_platform(ua@).0,
        r.1@ == spec_platform(ua@).1,
        r.2 == spec_platform(ua@).2,
{
    let u = chars_of(ua);
    if contains_chars(&u, &chars_of("Android")) {
        ("Android", "13.0.0", true)
    } else if contains_chars(&u, &chars_of("iPhone")) || contains_chars(&u, &chars_of("iPad")) {
        ("iOS", "17.0.0", true)
    } else if contains_chars(&u, &chars_of("Macintosh")) {
        ("macOS", "13.5.0", false)
    } else if contains_chars(&u, &chars_of("Windows")) {
        ("Windows", "10.0.0", false)
    } else {
        ("Linux", "1.0.0", contains_chars(&u, &chars_of("Mobile")))
    }
}

/// The stretch of a string after the first occurrence of a marker, cut at
/// the marker's next occurrence, if the marker occurs at all.
pub open spec fn spec_segment_after(h: Seq<char>, m: Seq<char>) -> Option<Seq<char>> {
    let i = first_match_index(h, m);
    if i < 0 {
        None
    } else {
        let rest = h.skip(i + m.len());
        let j = first_match_index(rest, m);
        if j < 0 {
            Some(rest)
        } else {
            Some(rest.subrange(0, j))
        }
    }
}

/// The major version a user agent carries after a marker: the digits of
/// the segment after the marker up to its first dot, read as a `u16`.
pub open spec fn spec_major_version(ua: Seq<char>, marker: Seq<char>) -> Option<u16> {
    match spec_segment_after(ua, marker) {
        None => None,
        Some(seg) => {
            let d = first_index_of(seg, '.');
            if d < 0 {
                parse_u16_spec(seg)
            } else {
                parse_u16_spec(seg.subrange(0, d))
            }
        },
    }
}

/// Extracts the major version number following a marker such as a browser
/// product token.
pub fn parse_major_version(ua: &str, marker: &str) -> (r: Option<u16>)
    ensures
        r == spec_major_version(ua@, marker@),
{
    let h = chars_of(ua);
    let m = chars_of(marker);
    match find_seq(&h, &m) {
        None => {
            proof {
                lemma_first_match_index_none(h@, m@);
            }
            None
        },
        Some(i) => {
            let hlen = h.len();
            proof {
                lemma_first_match_index_pinned(h@, m@, i as int);
                assert(i + m@.len() <= h@.len());
            }
            let rest = copy_range(&h, i + m.len(), hlen);
            proof {
                assert(rest@ =~= h@.skip(i + m@.len()));
            }
            let seg: Vec<char> = match find_seq(&rest, &m) {
                None => {
                    proof {
                        lemma_first_match_index_none(rest@, m@);
                    }
                    rest
                },
                Some(j) => {
                    proof {
                        lemma_first_match_index_pinned(rest@, m@, j as int);
                    }
                    copy_range(&rest, 0, j)
                },
            };
            let head: Vec<char> = match find_char(&seg, '.') {
                None => seg,
                Some(d) => {
                    proof {
                        crate::text::lemma_first_index_of(seg@, '.');
                    }
                    copy_range(&seg, 0, d)
                },
            };
            parse_u16_chars(&head)
        },
    }
}

/// The browser family a user agent's substring signatures classify it as.
#[derive(Clone, Copy, Debug, PartialEq, Eq, Structural)]
pub enum BrowserFamily {
    Chrome,
    Firefox,
    Safari,
}

/// The family a user agent is classified into: Firefox by its product
/// token, Safari by its token together with a version token, Chrome
/// otherwise.
pub open spec fn spec_family(ua: Seq<char>) -> BrowserFamily {
    if contains_seq(ua, "Firefox/"@) {
        BrowserFamily::Firefox
    } else if contains_seq(ua, "Safari/"@) && contains_seq(ua, "Version/"@) {
        BrowserFamily::Safari
    } else {
        BrowserFamily::Chrome
    }
}

/// The major version used in the client hints: the one after the family's
/// version marker, defaulting to 120.
pub open spec fn spec_family_major(ua: Seq<char>) -> u16 {
    let parsed = match spec_family(ua) {
        BrowserFamily::Chrome => spec_major_version(ua, "Chrome/"@),
        BrowserFamily::Firefox => spec_major_version(ua, "Firefox/"@),
        BrowserFamily::Safari => spec_major_version(ua, "Version/"@),
    };
    match parsed {
        Some(v) => v,
        None => 120,
    }
}

/// The decimal digits of the major version used in the client hints.
pub open spec fn spec_major_chars(ua: Seq<char>) -> Seq<char> {
    dec_rep(spec_family_major(ua) as nat)
}

/// The brand list of the `sec-ch-ua` hint: brands and versions consistent
/// with the user agent's family and major version.
pub open spec fn spec_brand_list(ua: Seq<char>) -> Seq<char> {
    let m = spec_major_chars(ua);
    match spec_family(ua) {
        BrowserFamily::Chrome => "\"Chromium\";v=\""@ + m + "\", \"Google Chrome\";v=\""@ + m
            + "\", \"Not A(Brand\";v=\"99\""@,
        BrowserFamily::Firefox => "\"Chromium\";v=\""@ + m + "\", \"Firefox\";v=\""@ + m
            + "\", \"Not A(Brand\";v=\"99\""@,
        BrowserFamily::Safari => "\"Not A(Brand\";v=\"99\", \"Safari\";v=\""@ + m
            + "\", \"Chromium\";v=\""@ + m + "\""@,
    }
}

/// The client-hint header values synthesized from one user agent.
pub struct SecChHeaders {
    pub ua: String,
    pub mobile: String,
    pub platform: String,
    pub platform_version: String,
}

/// Synthesizes the client-hint values from a user agent, so that the hint
/// headers never contradict it.
pub fn build_sec_ch_headers(user_agent: &str) -> (r: SecChHeaders)
    ensures
        r.ua@ == spec_brand_list(user_agent@),
        r.mobile@ == (if spec_platform(user_agent@).2 {
            "?1"@
        } else {
            "?0"@
        }),
        r.platform@ == "\""@ + spec_platform(user_agent@).0 + "\""@,
        r.platform_version@ == "\""@ + spec_platform(user_agent@).1 + "\""@,
{
    let u = chars_of(user_agent);
    let has_firefox = contains_chars(&u, &chars_of("Firefox/"));
    let has_safari = contains_chars(&u, &chars_of("Safari/")) && contains_chars(
        &u,
        &chars_of("Version/"),
    );
    let major: u16 = if has_firefox {
        match parse_major_version(user_agent, "Firefox/") {
            Some(v) => v,
            None => 120,
        }
    } else if has_safari {
        match parse_major_version(user_agent, "Version/") {
            Some(v) => v,
            None => 120,
        }
    } else {
        match parse_major_version(user_agent, "Chrome/") {
            Some(v) => v,
            None => 120,
        }
    };
    let major_str = string_from_chars(&u64_to_chars(major as u64));
    let ua_value: String = if has_firefox {
        let mut s = String::from_str("\"Chromium\";v=\"");
        s.append(major_str.as_str());
        s.append("\", \"Firefox\";v=\"");
        s.append(major_str.as_str());
        s.append("\", \"Not A(Brand\";v=\"99\"");
        s
    } else if has_safari {
        let mut s = String::from_str("\"Not A(Brand\";v=\"99\", \"Safari\";v=\"");
        s.append(major_str.as_str());
        s.append("\", \"Chromium\";v=\"");
        s.append(major_str.as_str());
        s.append("\"");
        s
    } else {
        let mut s = String::from_str("\"Chromium\";v=\"");
        s.append(major_str.as_str());
        s.append("\", \"Google Chrome\";v=\"");
        s.append(major_str.as_str());
        s.append("\", \"Not A(Brand\";v=\"99\"");
        s
    };
    let (platform, platform_version, is_mobile) = detect_platform_info(user_agent);
    let mut platform_quoted = String::from_str("\"");
    platform_quoted.append(platform);
    platform_quoted.append("\"");
    let mut version_quoted = String::from_str("\"");
    version_quoted.append(platform_version);
    version_quoted.append("\"");
    SecChHeaders {
        ua: ua_value,
        mobile: if is_mobile {
            String::from_str("?1")
        } else {
            String::from_str("?0")
        },
        platform: platform_quoted,
        platform_version: version_quoted,
    }
}

/// A string every header value may hold: no control characters but tab.
pub open spec fn spec_header_value_ok(s: Seq<char>) -> bool {
    forall|k: int|
        0 <= k < s.len() ==> #[trigger] s[k] == '\t' || (s[k] as u32 >= 32 && s[k] as u32 != 127)
}

/// Whether a value may stand in a header.
pub fn header_value_ok(s: &Vec<char>) -> (r: bool)
    ensures
        r == spec_header_value_ok(s@),
{
    let mut i: usize = 0;
    while i < s.len()
        invariant
            i <= s@.len(),
            forall|k: int|
                0 <= k < i ==> #[trigger] s@[k] == '\t' || (s@[k] as u32 >= 32 && s@[k] as u32
                    != 127),
        decreases s@.len() - i,
    {
        let c = s[i];
        if !(c == '\t' || (c as u32 >= 32 && c as u32 != 127)) {
            return false;
        }
        i = i + 1;
    }
    true
}

/// The default header set of every request: the user agent, the common
/// browser headers, the referer, and the client hints synthesized from the
/// same user agent. Rejected when the user agent or referer holds a
/// character no header value may hold.
pub fn build_request_headers(user_agent: &str, referer: &str) -> (r: Result<
    Vec<(String, String)>,
    CoreError,
>)
    ensures
        r is Ok <==> spec_header_value_ok(user_agent@) && spec_header_value_ok(referer@),
        r matches Err(e) ==> e is InvalidHeader,
        r matches Ok(h) ==> {
            &&& h@.len() == 14
            &&& h@[0].0@ == "user-agent"@ && h@[0].1@ == user_agent@
            &&& h@[1].0@ == "accept"@ && h@[1].1@
                == "text/html,application/xhtml+xml,application/xml;q=0.9,image/avif,image/webp,*/*;q=0.8"@
            &&& h@[2].0@ == "accept-language"@ && h@[2].1@ == "en-US,en;q=0.9"@
            &&& h@[3].0@ == "cache-control"@ && h@[3].1@ == "max-age=0"@
            &&& h@[4].0@ == "connection"@ && h@[4].1@ == "keep-alive"@
            &&& h@[5].0@ == "sec-fetch-site"@ && h@[5].1@ == "none"@
            &&& h@[6].0@ == "sec-fetch-mode"@ && h@[6].1@ == "navigate"@
            &&& h@[7].0@ == "sec-fetch-dest"@ && h@[7].1@ == "document"@
            &&& h@[8].0@ == "sec-fetch-user"@ && h@[8].1@ == "?1"@
            &&& h@[9].0@ == "referer"@ && h@[9].1@ == referer@
            &&& h@[10].0@ == "sec-ch-ua"@ && h@[10].1@ == spec_brand_list(user_agent@)
            &&& h@[11].0@ == "sec-ch-ua-mobile"@ && h@[11].1@ == (if spec_platform(
                user_agent@,
            ).2 {
                "?1"@
            } else {
                "?0"@
            })
            &&& h@[12].0@ == "sec-ch-ua-platform"@ && h@[12].1@ == "\""@ + spec_platform(
                user_agent@,
            ).0 + "\""@
            &&& h@[13].0@ == "sec-ch-ua-platform-version"@ && h@[13].1@ == "\""@ + spec_platform(
                user_agent@,
            ).1 + "\""@
        },
{
    let ua_chars = chars_of(user_agent);
    if !header_value_ok(&ua_chars) {
        return Err(CoreError::InvalidHeader);
    }
    let referer_chars = chars_of(referer);
    if !header_value_ok(&referer_chars) {
        return Err(CoreError::InvalidHeader);
    }
    let sec_ch = build_sec_ch_headers(user_agent);
    let mut h: Vec<(String, String)> = Vec::new();
    h.push((String::from_str("user-agent"), user_agent.to_owned()));
    h.push(
        (
            String::from_str("accept"),
            String::from_str(
                "text/html,application/xhtml+xml,application/xml;q=0.9,image/avif,image/webp,*/*;q=0.8",
            ),
        ),
    );
    h.push((String::from_str("accept-language"), String::from_str("en-US,en;q=0.9")));
    h.push((String::from_str("cache-control"), String::from_str("max-age=0")));
    h.push((String::from_str("connection"), String::from_str("keep-alive")));
    h.push((String::from_str("sec-fetch-site"), String::from_str("none")));
    h.push((String::from_str("sec-fetch-mode"), String::from_str("navigate")));
    h.push((String::from_str("sec-fetch-dest"), String::from_str("document")));
    h.push((String::from_str("sec-fetch-user"), String::from_str("?1")));
    h.push((String::from_str("referer"), referer.to_owned()));
    h.push((String::from_str("sec-ch-ua"), sec_ch.ua));
    h.push((String::from_str("sec-ch-ua-mobile"), sec_ch.mobile));
    h.push((String::from_str("sec-ch-ua-platform"), sec_ch.platform));
    h.push((String::from_str("sec-ch-ua-platform-version"), sec_ch.platform_version));
    Ok(h)
}

} // verus!
