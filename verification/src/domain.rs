//! The active domain and the evasive name-resolution decision.
//!
//! The active domain is read from the settings on every call, so changing
//! it takes effect on the next request without rebuilding the client. The
//! resolver decision substitutes a static pool of known-good addresses for
//! a recognised site hostname whenever custom DNS is enabled.

use vstd::prelude::*;
use vstd::string::*;

use crate::store::StoreState;
use crate::text::{chars_of, ends_with_chars, ends_with_seq, str_eq, string_from_chars, trim_chars,
    trim_seq};

verus! {

/// The process-wide domain configuration: the site host and whether the
/// built-in address pool overrides the system resolver.
#[derive(Clone, Debug)]
pub struct ActiveDomain {
    pub host: String,
    pub use_custom_dns: bool,
}

impl ActiveDomain {
    /// The root URL of the active host.
    pub fn base_url(&self) -> (r: String)
        ensures
            r@ == "https://"@ + self.host@,
    {
        let mut r = String::from_str("https://");
        r.append(self.host.as_str());
        r
    }

    /// The referer every request carries: the root URL with a trailing
    /// slash.
    pub fn referer(&self) -> (r: String)
        ensures
            r@ == "https://"@ + self.host@ + "/"@,
    {
        let mut r = String::from_str("https://");
        r.append(self.host.as_str());
        r.append("/");
        r
    }

    /// The domain cookies are stored and loaded under.
    pub fn cookie_domain(&self) -> (r: &str)
        ensures
            r@ == self.host@,
    {
        self.host.as_str()
    }
}

/// The host the settings denote: the stored value, trimmed, when it is
/// non-empty; else the default site host.
pub open spec fn spec_active_host(setting: Option<Seq<char>>) -> Seq<char> {
    match setting {
        Some(v) => if trim_seq(v).len() > 0 {
            trim_seq(v)
        } else {
            "hanime1.me"@
        },
        None => "hanime1.me"@,
    }
}

/// The custom-DNS flag the settings denote: the stored value when it reads
/// as a boolean; else enabled.
pub open spec fn spec_use_custom_dns(setting: Option<Seq<char>>) -> bool {
    match setting {
        Some(v) => if v == "true"@ {
            true
        } else if v == "false"@ {
            false
        } else {
            true
        },
        None => true,
    }
}

/// Reads the active domain from the store. Consulted on every resolution
/// decision, never cached, so a changed setting takes effect on the next
/// request.
pub fn get_active_domain(store: &StoreState) -> (r: ActiveDomain)
    requires
        store.wf(),
    ensures
        r.host@ == spec_active_host(store.setting_value("network.active_host"@)),
        r.use_custom_dns == spec_use_custom_dns(store.setting_value("network.use_custom_dns"@)),
{
    let host: String = match store.get_setting("network.active_host") {
        Some(v) => {
            let t = trim_chars(&chars_of(v.as_str()));
            if t.len() > 0 {
                string_from_chars(&t)
            } else {
                String::from_str("hanime1.me")
            }
        },
        None => String::from_str("hanime1.me"),
    };
    let use_custom_dns: bool = match store.get_setting("network.use_custom_dns") {
        Some(v) => {
            if str_eq(v.as_str(), "true") {
                true
            } else if str_eq(v.as_str(), "false") {
                false
            } else {
                true
            }
        },
        None => true,
    };
    ActiveDomain { host, use_custom_dns }
}

/// The root URL of the currently configured host.
pub fn base_url(store: &StoreState) -> (r: String)
    requires
        store.wf(),
    ensures
        r@ == "https://"@ + spec_active_host(store.setting_value("network.active_host"@)),
{
    get_active_domain(store).base_url()
}

/// The referer of the currently configured host.
pub fn referer(store: &StoreState) -> (r: String)
    requires
        store.wf(),
    ensures
        r@ == "https://"@ + spec_active_host(store.setting_value("network.active_host"@)) + "/"@,
{
    get_active_domain(store).referer()
}

/// A looked-up name falls under a host: it is the host itself or a
/// subdomain of it.
pub open spec fn spec_name_under(name: Seq<char>, host: Seq<char>) -> bool {
    name == host || ends_with_seq(name, "."@ + host)
}

/// A looked-up name falls under one of the site hostnames the evasive
/// resolver recognises.
pub open spec fn spec_is_site_name(name: Seq<char>) -> bool {
    ||| spec_name_under(name, "hanime1.me"@)
    ||| spec_name_under(name, "hanime1.com"@)
    ||| spec_name_under(name, "hanimeone.me"@)
    ||| spec_name_under(name, "javchu.com"@)
}

/// How one name lookup is to be answered.
#[derive(Clone, Copy, Debug, PartialEq, Eq, Structural)]
pub enum ResolvePlan {
    /// Answer from the built-in pool of known-good addresses.
    StaticPool,
    /// Delegate to the system resolver.
    System,
}

fn name_under(name: &Vec<char>, host: &str) -> (r: bool)
    ensures
        r == spec_name_under(name@, host@),
{
    let host_chars = chars_of(host);
    if crate::text::chars_eq(name, &host_chars) {
        return true;
    }
    let mut suffix: Vec<char> = Vec::new();
    suffix.push('.');
    let mut i: usize = 0;
    while i < host_chars.len()
        invariant
            i <= host_chars@.len(),
            host_chars@ == host@,
            suffix@ == seq!['.'] + host@.subrange(0, i as int),
        decreases host_chars@.len() - i,
    {
        suffix.push(host_chars[i]);
        i = i + 1;
        proof {
            assert(suffix@ =~= seq!['.'] + host@.subrange(0, i as int));
        }
    }
    proof {
        reveal_strlit(".");
        assert("."@ =~= seq!['.']);
        assert(suffix@ =~= "."@ + host@);
    }
    ends_with_chars(name, &suffix)
}

/// The resolution decision for one name, taken per lookup against the live
/// configuration: with custom DNS enabled and the name under a recognised
/// site hostname, the static pool defeats DNS-level blocking; every other
/// name goes to the system resolver.
pub fn resolve_plan(active: &ActiveDomain, name: &str) -> (r: ResolvePlan)
    ensures
        r is StaticPool <==> active.use_custom_dns && spec_is_site_name(name@),
{
    if !active.use_custom_dns {
        return ResolvePlan::System;
    }
    let n = chars_of(name);
    if name_under(&n, "hanime1.me") || name_under(&n, "hanime1.com") || name_under(
        &n,
        "hanimeone.me",
    ) || name_under(&n, "javchu.com") {
        ResolvePlan::StaticPool
    } else {
        ResolvePlan::System
    }
}

/// The built-in pool of known-good addresses, as textual IPv4 literals; the
/// caller turns them into socket addresses.
pub fn static_address_pool() -> (r: Vec<String>)
    ensures
        r@.len() == 5,
        r@[0]@ == "172.64.229.154"@,
        r@[1]@ == "104.25.254.167"@,
        r@[2]@ == "172.67.75.184"@,
        r@[3]@ == "104.21.7.20"@,
        r@[4]@ == "172.67.187.141"@,
{
    let mut r: Vec<String> = Vec::new();
    r.push(String::from_str("172.64.229.154"));
    r.push(String::from_str("104.25.254.167"));
    r.push(String::from_str("172.67.75.184"));
    r.push(String::from_str("104.21.7.20"));
    r.push(String::from_str("172.67.187.141"));
    r
}

} // verus!
