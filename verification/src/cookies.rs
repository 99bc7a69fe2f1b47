//! Cookie lifecycle: parsing Set-Cookie lines best-effort, persisting
//! cookies, and synthesizing the lines an in-memory jar is fed with.
//!
//! The Set-Cookie parser is line-oriented and forgiving: an attribute it
//! cannot read is skipped for that cookie without aborting the rest.

use vstd::prelude::*;
use vstd::string::*;

use crate::store::{
    cookie_same_key, cookies_for, spec_cookie, spec_upsert_cookie, CookieModel, StoreState,
};
use crate::text::{
    chars_of, copy_range, chars_eq, find_char, first_index_of, lower_chars, lower_seq,
    parse_i64_chars, parse_i64_spec, split_bounds, split_seq, starts_with_chars, starts_with_seq,
    string_from_chars, strip_leading_dots, strip_leading_dots_chars, trim_chars, trim_seq,
};

verus! {

/// The epoch seconds an RFC 2822 date string denotes, if it parses.
pub uninterp spec fn rfc2822_epoch(s: Seq<char>) -> Option<i64>;

/// Relies on chrono's `DateTime::parse_from_rfc2822` and
/// `DateTime::timestamp`: parsing an RFC 2822 date and reading its Unix
/// timestamp depend on the string alone.
#[verifier::external_body]
fn parse_rfc2822_timestamp(s: &str) -> (r: Option<i64>)
    ensures
        r == rfc2822_epoch(s@),
{
    match chrono::DateTime::parse_from_rfc2822(s) {
        Ok(t) => Some(t.timestamp()),
        Err(_) => None,
    }
}

/// The attributes collected while walking one Set-Cookie line.
pub ghost struct CookieAttrs {
    pub expires: Option<int>,
    pub domain: Option<Seq<char>>,
    pub path: Option<Seq<char>>,
}

/// The attribute state a line starts with: nothing collected.
pub open spec fn spec_attrs_empty() -> CookieAttrs {
    CookieAttrs { expires: None, domain: None, path: None }
}

/// The cookies one Set-Cookie line stores, walking its `;`-separated
/// pieces: attribute pieces update the pending attributes, an unreadable
/// attribute leaves them as they were, and each `name=value` piece stores a
/// cookie under the pending attributes (domain falling back to the
/// response's, path to `/`) and resets them.
pub open spec fn spec_set_cookie_saves(
    pieces: Seq<Seq<char>>,
    st: CookieAttrs,
    fallback: Seq<char>,
    now: int,
) -> Seq<CookieModel>
    decreases pieces.len(),
{
    if pieces.len() == 0 {
        Seq::empty()
    } else {
        let t = trim_seq(pieces[0]);
        let lower = lower_seq(t);
        let rest = pieces.drop_first();
        if t.len() == 0 {
            spec_set_cookie_saves(rest, st, fallback, now)
        } else if starts_with_seq(lower, "expires="@) {
            let st2 = CookieAttrs {
                expires: match rfc2822_epoch(trim_seq(t.skip(8))) {
                    Some(ts) => Some(ts as int),
                    None => st.expires,
                },
                ..st
            };
            spec_set_cookie_saves(rest, st2, fallback, now)
        } else if starts_with_seq(lower, "max-age="@) {
            let st2 = CookieAttrs {
                expires: match parse_i64_spec(trim_seq(t.skip(8))) {
                    Some(age) => if i64::MIN <= now + age <= i64::MAX {
                        Some(now + age)
                    } else {
                        st.expires
                    },
                    None => st.expires,
                },
                ..st
            };
            spec_set_cookie_saves(rest, st2, fallback, now)
        } else if starts_with_seq(lower, "domain="@) {
            let st2 = CookieAttrs { domain: Some(strip_leading_dots(trim_seq(t.skip(7)))), ..st };
            spec_set_cookie_saves(rest, st2, fallback, now)
        } else if starts_with_seq(lower, "path="@) {
            let st2 = CookieAttrs { path: Some(trim_seq(t.skip(5))), ..st };
            spec_set_cookie_saves(rest, st2, fallback, now)
        } else if lower == "httponly"@ || lower == "secure"@ || starts_with_seq(
            lower,
            "samesite="@,
        ) {
            spec_set_cookie_saves(rest, st, fallback, now)
        } else if first_index_of(t, '=') >= 0 {
            let idx = first_index_of(t, '=');
            let c = spec_cookie(
                match st.domain {
                    Some(d) => d,
                    None => fallback,
                },
                trim_seq(t.subrange(0, idx)),
                trim_seq(t.skip(idx + 1)),
                match st.path {
                    Some(p) => p,
                    None => "/"@,
                },
                st.expires,
            );
            seq![c] + spec_set_cookie_saves(rest, spec_attrs_empty(), fallback, now)
        } else {
            spec_set_cookie_saves(rest, st, fallback, now)
        }
    }
}

/// A cookie list after a sequence of insert-or-replaces, first to last.
pub open spec fn spec_apply_upserts(models: Seq<CookieModel>, saves: Seq<CookieModel>) -> Seq<
    CookieModel,
>
    decreases saves.len(),
{
    if saves.len() == 0 {
        models
    } else {
        spec_apply_upserts(spec_upsert_cookie(models, saves[0]), saves.drop_first())
    }
}

proof fn lemma_apply_upserts_push(models: Seq<CookieModel>, saves: Seq<CookieModel>, c: CookieModel)
    ensures
        spec_apply_upserts(models, saves.push(c)) == spec_upsert_cookie(
            spec_apply_upserts(models, saves),
            c,
        ),
    decreases saves.len(),
{
    if saves.len() == 0 {
        assert(saves.push(c)[0] == c);
        assert(saves.push(c).drop_first() =~= Seq::<CookieModel>::empty());
        assert(spec_apply_upserts(spec_upsert_cookie(models, c), Seq::<CookieModel>::empty())
            == spec_upsert_cookie(models, c));
    } else {
        assert(saves.push(c)[0] == saves[0]);
        assert(saves.push(c).drop_first() =~= saves.drop_first().push(c));
        lemma_apply_upserts_push(spec_upsert_cookie(models, saves[0]), saves.drop_first(), c);
        assert(spec_apply_upserts(models, saves) == spec_apply_upserts(
            spec_upsert_cookie(models, saves[0]),
            saves.drop_first(),
        ));
    }
}

/// Parses one Set-Cookie line and persists the cookies it sets, with
/// best-effort attribute handling: an attribute that does not parse is
/// skipped for that cookie, the rest of the line is still honoured.
pub fn apply_set_cookie(store: &mut StoreState, set_cookie: &str, fallback_domain: &str, now: i64)
    requires
        old(store).wf(),
    ensures
        final(store).wf(),
        final(store).cookie_models() == spec_apply_upserts(
            old(store).cookie_models(),
            spec_set_cookie_saves(
                split_seq(set_cookie@, ';'),
                spec_attrs_empty(),
                fallback_domain@,
                now as int,
            ),
        ),
        final(store).downloads == old(store).downloads,
        final(store).settings == old(store).settings,
        final(store).data_dir == old(store).data_dir,
        final(store).next_id == old(store).next_id,
{
    let line = chars_of(set_cookie);
    let pieces = split_bounds(&line, ';');
    let ghost all_pieces = split_seq(set_cookie@, ';');
    let ghost all_saves = spec_set_cookie_saves(
        all_pieces,
        spec_attrs_empty(),
        fallback_domain@,
        now as int,
    );

    let mut expires: Option<i64> = None;
    let mut domain: Option<String> = None;
    let mut path: Option<String> = None;
    let ghost mut done: Seq<CookieModel> = Seq::empty();

    let marker_expires = chars_of("expires=");
    let marker_max_age = chars_of("max-age=");
    let marker_domain = chars_of("domain=");
    let marker_path = chars_of("path=");
    let marker_httponly = chars_of("httponly");
    let marker_secure = chars_of("secure");
    let marker_samesite = chars_of("samesite=");

    proof {
        reveal_strlit("expires=");
        reveal_strlit("max-age=");
        reveal_strlit("domain=");
        reveal_strlit("path=");
        reveal_strlit("httponly");
        reveal_strlit("secure");
        reveal_strlit("samesite=");
        assert(all_pieces.skip(0) =~= all_pieces);
        assert(Seq::<CookieModel>::empty() + all_saves =~= all_saves);
    }
    let mut i: usize = 0;
    while i < pieces.len()
        invariant
            old(store).wf(),
            store.wf(),
            i <= pieces@.len(),
            pieces@.len() == all_pieces.len(),
            forall|k: int|
                0 <= k < pieces@.len() ==> 0 <= #[trigger] pieces@[k].0 <= pieces@[k].1
                    <= line@.len() && all_pieces[k] == line@.subrange(
                    pieces@[k].0 as int,
                    pieces@[k].1 as int,
                ),
            line@ == set_cookie@,
            all_pieces == split_seq(set_cookie@, ';'),
            all_saves == spec_set_cookie_saves(
                all_pieces,
                spec_attrs_empty(),
                fallback_domain@,
                now as int,
            ),
            marker_expires@ == "expires="@,
            marker_max_age@ == "max-age="@,
            marker_domain@ == "domain="@,
            marker_path@ == "path="@,
            marker_httponly@ == "httponly"@,
            marker_secure@ == "secure"@,
            marker_samesite@ == "samesite="@,
            marker_expires@.len() == 8,
            marker_max_age@.len() == 8,
            marker_domain@.len() == 7,
            marker_path@.len() == 5,
            marker_samesite@.len() == 9,
            all_saves == done + spec_set_cookie_saves(
                all_pieces.skip(i as int),
                CookieAttrs {
                    expires: match expires {
                        Some(t) => Some(t as int),
                        None => None,
                    },
                    domain: crate::task::opt_view(domain),
                    path: crate::task::opt_view(path),
                },
                fallback_domain@,
                now as int,
            ),
            store.cookie_models() == spec_apply_upserts(old(store).cookie_models(), done),
            store.downloads == old(store).downloads,
            store.settings == old(store).settings,
            store.data_dir == old(store).data_dir,
            store.next_id == old(store).next_id,
        decreases pieces@.len() - i,
    {
        let ghost tail = all_pieces.skip(i as int);
        proof {
            assert(tail.len() > 0);
            assert(tail[0] == all_pieces[i as int]);
            assert(tail.drop_first() =~= all_pieces.skip(i + 1));
        }
        let (a, b) = (pieces[i].0, pieces[i].1);
        let piece = copy_range(&line, a, b);
        let t = trim_chars(&piece);
        let lower = lower_chars(&t);
        if t.len() == 0 {
            // an empty piece carries nothing
        } else if starts_with_chars(&lower, &marker_expires) {
            let raw = copy_range(&t, 8, t.len());
            let value = trim_chars(&raw);
            proof {
                assert(t@.subrange(8, t@.len() as int) =~= t@.skip(8));
            }
            let value_str = string_from_chars(&value);
            if let Some(ts) = parse_rfc2822_timestamp(value_str.as_str()) {
                expires = Some(ts);
            }
        } else if starts_with_chars(&lower, &marker_max_age) {
            let raw = copy_range(&t, 8, t.len());
            let value = trim_chars(&raw);
            proof {
                assert(t@.subrange(8, t@.len() as int) =~= t@.skip(8));
            }
            if let Some(age) = parse_i64_chars(&value) {
                if let Some(sum) = now.checked_add(age) {
                    expires = Some(sum);
                }
            }
        } else if starts_with_chars(&lower, &marker_domain) {
            let raw = copy_range(&t, 7, t.len());
            let value = trim_chars(&raw);
            proof {
                assert(t@.subrange(7, t@.len() as int) =~= t@.skip(7));
            }
            let stripped = strip_leading_dots_chars(&value);
            domain = Some(string_from_chars(&stripped));
        } else if starts_with_chars(&lower, &marker_path) {
            let raw = copy_range(&t, 5, t.len());
            let value = trim_chars(&raw);
            proof {
                assert(t@.subrange(5, t@.len() as int) =~= t@.skip(5));
            }
            path = Some(string_from_chars(&value));
        } else if chars_eq(&lower, &marker_httponly) || chars_eq(&lower, &marker_secure)
            || starts_with_chars(&lower, &marker_samesite) {
            // flag attributes carry nothing to store
        } else if let Some(idx) = find_char(&t, '=') {
            proof {
                crate::text::lemma_first_index_of(t@, '=');
            }
            let name = trim_chars(&copy_range(&t, 0, idx));
            let raw_value = copy_range(&t, idx + 1, t.len());
            let value = trim_chars(&raw_value);
            proof {
                assert(t@.subrange(idx + 1, t@.len() as int) =~= t@.skip(idx + 1));
            }
            let name_str = string_from_chars(&name);
            let value_str = string_from_chars(&value);
            let ghost pre_cookies = store.cookie_models();
            match (&domain, &path) {
                (Some(d), Some(p)) => {
                    store.save_cookie(d.as_str(), name_str.as_str(), value_str.as_str(), p.as_str(),
                        expires);
                },
                (Some(d), None) => {
                    store.save_cookie(d.as_str(), name_str.as_str(), value_str.as_str(), "/",
                        expires);
                },
                (None, Some(p)) => {
                    store.save_cookie(fallback_domain, name_str.as_str(), value_str.as_str(),
                        p.as_str(), expires);
                },
                (None, None) => {
                    store.save_cookie(fallback_domain, name_str.as_str(), value_str.as_str(), "/",
                        expires);
                },
            }
            proof {
                let save = spec_cookie(
                    match crate::task::opt_view(domain) {
                        Some(dv) => dv,
                        None => fallback_domain@,
                    },
                    name@,
                    value@,
                    match crate::task::opt_view(path) {
                        Some(pv) => pv,
                        None => "/"@,
                    },
                    match expires {
                        Some(ts) => Some(ts as int),
                        None => None,
                    },
                );
                assert(store.cookie_models() == spec_upsert_cookie(pre_cookies, save));
                lemma_apply_upserts_push(old(store).cookie_models(), done, save);
                done = done.push(save);
            }
            expires = None;
            domain = None;
            path = None;
        } else {
            // a piece without `=` that is no known attribute is skipped
        }
        i = i + 1;
    }
    proof {
        assert(all_pieces.skip(i as int) =~= Seq::<Seq<char>>::empty());
        assert(all_saves == done);
    }
}

/// The (name, value) pairs a caller-supplied cookie string carries: one per
/// `;`-separated piece that holds `=` after a non-empty name; everything
/// else is skipped.
pub open spec fn spec_cookie_pairs(pieces: Seq<Seq<char>>) -> Seq<(Seq<char>, Seq<char>)>
    decreases pieces.len(),
{
    if pieces.len() == 0 {
        Seq::empty()
    } else {
        let t = trim_seq(pieces[0]);
        let rest = spec_cookie_pairs(pieces.drop_first());
        if t.len() == 0 || first_index_of(t, '=') < 0 {
            rest
        } else {
            let idx = first_index_of(t, '=');
            let name = trim_seq(t.subrange(0, idx));
            let value = trim_seq(t.skip(idx + 1));
            if name.len() == 0 {
                rest
            } else {
                seq![(name, value)] + rest
            }
        }
    }
}

/// The cookie models the pairs are stored under for a host: path `/`, no
/// expiry.
pub open spec fn spec_pairs_as_cookies(pairs: Seq<(Seq<char>, Seq<char>)>, host: Seq<char>) -> Seq<
    CookieModel,
>
    decreases pairs.len(),
{
    if pairs.len() == 0 {
        Seq::empty()
    } else {
        seq![spec_cookie(host, pairs[0].0, pairs[0].1, "/"@, None)] + spec_pairs_as_cookies(
            pairs.drop_first(),
            host,
        )
    }
}

/// Injects caller-supplied cookies (for instance obtained out-of-band after
/// a challenge): each `name=value` piece of the string is persisted for the
/// host under path `/` with no expiry, and handed back as a jar line.
pub fn set_cookies(store: &mut StoreState, cookies: &str, host: &str) -> (jar: Vec<String>)
    requires
        old(store).wf(),
    ensures
        final(store).wf(),
        final(store).cookie_models() == spec_apply_upserts(
            old(store).cookie_models(),
            spec_pairs_as_cookies(spec_cookie_pairs(split_seq(cookies@, ';')), host@),
        ),
        ({
            let pairs = spec_cookie_pairs(split_seq(cookies@, ';'));
            &&& jar@.len() == pairs.len()
            &&& forall|k: int|
                0 <= k < pairs.len() ==> (#[trigger] jar@[k])@ == pairs[k].0 + "="@ + pairs[k].1
        }),
        final(store).downloads == old(store).downloads,
        final(store).settings == old(store).settings,
        final(store).data_dir == old(store).data_dir,
        final(store).next_id == old(store).next_id,
{
    let line = chars_of(cookies);
    let pieces = split_bounds(&line, ';');
    let ghost all_pieces = split_seq(cookies@, ';');
    let ghost all_pairs = spec_cookie_pairs(all_pieces);
    let ghost all_saves = spec_pairs_as_cookies(all_pairs, host@);
    let mut jar: Vec<String> = Vec::new();
    let ghost mut done: Seq<CookieModel> = Seq::empty();
    let ghost mut done_pairs: Seq<(Seq<char>, Seq<char>)> = Seq::empty();
    proof {
        assert(all_pieces.skip(0) =~= all_pieces);
        assert(Seq::<CookieModel>::empty() + all_saves =~= all_saves);
        assert(Seq::<(Seq<char>, Seq<char>)>::empty() + all_pairs =~= all_pairs);
    }
    let mut i: usize = 0;
    while i < pieces.len()
        invariant
            old(store).wf(),
            store.wf(),
            i <= pieces@.len(),
            pieces@.len() == all_pieces.len(),
            forall|k: int|
                0 <= k < pieces@.len() ==> 0 <= #[trigger] pieces@[k].0 <= pieces@[k].1
                    <= line@.len() && all_pieces[k] == line@.subrange(
                    pieces@[k].0 as int,
                    pieces@[k].1 as int,
                ),
            line@ == cookies@,
            all_pieces == split_seq(cookies@, ';'),
            all_pairs == spec_cookie_pairs(all_pieces),
            all_saves == spec_pairs_as_cookies(all_pairs, host@),
            all_pairs == done_pairs + spec_cookie_pairs(all_pieces.skip(i as int)),
            all_saves == done + spec_pairs_as_cookies(
                spec_cookie_pairs(all_pieces.skip(i as int)),
                host@,
            ),
            done.len() == done_pairs.len(),
            store.cookie_models() == spec_apply_upserts(old(store).cookie_models(), done),
            jar@.len() == done_pairs.len(),
            forall|k: int|
                0 <= k < done_pairs.len() ==> (#[trigger] jar@[k])@ == done_pairs[k].0 + "="@
                    + done_pairs[k].1,
            store.downloads == old(store).downloads,
            store.settings == old(store).settings,
            store.data_dir == old(store).data_dir,
            store.next_id == old(store).next_id,
        decreases pieces@.len() - i,
    {
        let ghost tail = all_pieces.skip(i as int);
        proof {
            assert(tail.len() > 0);
            assert(tail[0] == all_pieces[i as int]);
            assert(tail.drop_first() =~= all_pieces.skip(i + 1));
        }
        let (a, b) = (pieces[i].0, pieces[i].1);
        let piece = copy_range(&line, a, b);
        let t = trim_chars(&piece);
        if t.len() > 0 {
            if let Some(idx) = find_char(&t, '=') {
                proof {
                    crate::text::lemma_first_index_of(t@, '=');
                }
                let name = trim_chars(&copy_range(&t, 0, idx));
                let raw_value = copy_range(&t, idx + 1, t.len());
                let value = trim_chars(&raw_value);
                proof {
                    assert(t@.subrange(idx + 1, t@.len() as int) =~= t@.skip(idx + 1));
                }
                if name.len() > 0 {
                    let name_str = string_from_chars(&name);
                    let value_str = string_from_chars(&value);
                    let ghost pre_cookies = store.cookie_models();
                    store.save_cookie(host, name_str.as_str(), value_str.as_str(), "/", None);
                    let mut jar_line = name_str;
                    jar_line.append("=");
                    jar_line.append(value_str.as_str());
                    jar.push(jar_line);
                    proof {
                        let save = spec_cookie(host@, name@, value@, "/"@, None);
                        let rest_pairs = spec_cookie_pairs(all_pieces.skip(i + 1));
                        assert(store.cookie_models() == spec_upsert_cookie(pre_cookies, save));
                        lemma_apply_upserts_push(old(store).cookie_models(), done, save);
                        assert(spec_cookie_pairs(tail) =~= seq![(name@, value@)] + rest_pairs);
                        assert((seq![(name@, value@)] + rest_pairs)[0] == (name@, value@));
                        assert((seq![(name@, value@)] + rest_pairs).drop_first() =~= rest_pairs);
                        assert(spec_pairs_as_cookies(spec_cookie_pairs(tail), host@)
                            =~= seq![save] + spec_pairs_as_cookies(rest_pairs, host@));
                        done = done.push(save);
                        done_pairs = done_pairs.push((name@, value@));
                        assert(all_pairs =~= done_pairs + rest_pairs);
                        assert(all_saves =~= done + spec_pairs_as_cookies(rest_pairs, host@));
                    }
                }
            }
        }
        i = i + 1;
    }
    proof {
        assert(all_pieces.skip(i as int) =~= Seq::<Seq<char>>::empty());
        assert(all_saves == done);
        assert(all_pairs == done_pairs);
    }
    jar
}

/// The jar lines (`name=value`) of the live cookies stored for a domain,
/// loaded before a request so the in-memory jar matches the store;
/// reloading is idempotent because the jar keys cookies by name.
pub fn jar_cookie_lines(store: &StoreState, domain: &str, now: i64) -> (r: Vec<String>)
    ensures
        ({
            let spec = cookies_for(store.cookie_models(), domain@, now as int);
            &&& r@.len() == spec.len()
            &&& forall|k: int|
                0 <= k < spec.len() ==> (#[trigger] r@[k])@ == spec[k].0 + "="@ + spec[k].1
        }),
{
    let pairs = store.get_cookies(domain, now);
    let mut r: Vec<String> = Vec::new();
    let ghost spec = cookies_for(store.cookie_models(), domain@, now as int);
    let mut i: usize = 0;
    while i < pairs.len()
        invariant
            i <= pairs@.len(),
            pairs@.len() == spec.len(),
            forall|k: int|
                0 <= k < spec.len() ==> (#[trigger] pairs@[k]).0@ == spec[k].0 && pairs@[k].1@
                    == spec[k].1,
            r@.len() == i,
            forall|k: int| 0 <= k < i ==> (#[trigger] r@[k])@ == spec[k].0 + "="@ + spec[k].1,
        decreases pairs@.len() - i,
    {
        let mut jar_line = pairs[i].0.clone();
        jar_line.append("=");
        jar_line.append(pairs[i].1.as_str());
        r.push(jar_line);
        i = i + 1;
    }
    r
}

/// The single header-style cookie string of a list of pairs, joined with
/// `; `, as handed to the jar at startup.
pub open spec fn spec_join_pairs(pairs: Seq<(Seq<char>, Seq<char>)>) -> Seq<char>
    decreases pairs.len(),
{
    if pairs.len() == 0 {
        Seq::empty()
    } else if pairs.len() == 1 {
        pairs[0].0 + "="@ + pairs[0].1
    } else {
        spec_join_pairs(pairs.drop_last()) + "; "@ + pairs.last().0 + "="@ + pairs.last().1
    }
}

/// Joins stored (name, value) pairs into one `a=1; b=2` cookie string.
pub fn join_cookie_pairs(pairs: &Vec<(String, String)>) -> (r: String)
    ensures
        r@ == spec_join_pairs(pairs@.map_values(|p: (String, String)| (p.0@, p.1@))),
{
    let ghost spec_pairs = pairs@.map_values(|p: (String, String)| (p.0@, p.1@));
    let mut r = String::new();
    let mut i: usize = 0;
    while i < pairs.len()
        invariant
            i <= pairs@.len(),
            spec_pairs == pairs@.map_values(|p: (String, String)| (p.0@, p.1@)),
            r@ == spec_join_pairs(spec_pairs.take(i as int)),
        decreases pairs@.len() - i,
    {
        proof {
            assert(spec_pairs.take(i + 1).drop_last() =~= spec_pairs.take(i as int));
            assert(spec_pairs.take(i + 1).last() == spec_pairs[i as int]);
        }
        if i > 0 {
            r.append("; ");
        }
        r.append(pairs[i].0.as_str());
        r.append("=");
        r.append(pairs[i].1.as_str());
        i = i + 1;
    }
    proof {
        assert(spec_pairs.take(i as int) =~= spec_pairs);
    }
    r
}

/// The expiring jar lines that clear the key session cookies for a host.
pub fn clear_session_cookie_lines(host: &str) -> (r: Vec<String>)
    ensures
        r@.len() == 3,
        r@[0]@ == "hanime1_session=; Max-Age=0; Path=/; Domain=."@ + host@,
        r@[1]@ == "cf_clearance=; Max-Age=0; Path=/; Domain=."@ + host@,
        r@[2]@ == "XSRF-TOKEN=; Max-Age=0; Path=/; Domain=."@ + host@,
{
    let mut a = String::from_str("hanime1_session=; Max-Age=0; Path=/; Domain=.");
    a.append(host);
    let mut b = String::from_str("cf_clearance=; Max-Age=0; Path=/; Domain=.");
    b.append(host);
    let mut c = String::from_str("XSRF-TOKEN=; Max-Age=0; Path=/; Domain=.");
    c.append(host);
    let mut r: Vec<String> = Vec::new();
    r.push(a);
    r.push(b);
    r.push(c);
    r
}

} // verus!
