//! Per-host request settings remembered between runs: the Referer, Origin
//! and User-Agent that worked for a CDN host, found again for that host or
//! any of its subdomains.
use vstd::prelude::*;
use crate::assoc::Assoc;
use crate::error::Error;
use crate::paths::{path_join, joined_path};
use crate::text::{
    chars_of, has_prefix, join_pieces, join_with, lowercase, push_all, push_str, single,
    slice_chars, split_on, starts_with_str, string_of, to_lowercase, trim, trimmed, lemma_trim_run,
    lemma_trim_unchanged,
};
use crate::urls::{
    no_host_text, nonempty_parts, nonempty_split, origin_of, origin_spec, strip_proto, stripped,
};
use crate::weburl::{parse_url, url_parse};

verus! {

/// File name of the preferences file in the work directory.
pub const PREFS_NAME: &'static str = ".play.json";

/// Stored settings, by host key.
pub type Prefs = Assoc<Assoc<String>>;

// ---------------------------------------------------------------------------
// Hosts and their suffixes
// ---------------------------------------------------------------------------

/// A host lowercased, without a leading `www.`.
pub open spec fn bare_host(h: Seq<char>) -> Seq<char> {
    let l = lowercase(h);
    if has_prefix(l, "www."@) {
        l.skip("www."@.len() as int)
    } else {
        l
    }
}

/// The bare host of a URL text; that of an empty host when it has none or
/// does not parse.
pub open spec fn url_host(text: Seq<char>) -> Seq<char> {
    match url_parse(text) {
        Some(u) => match u.host {
            Some(h) => bare_host(h),
            None => bare_host(Seq::<char>::empty()),
        },
        None => bare_host(Seq::<char>::empty()),
    }
}

/// The bare host of a URL text.
pub fn host_of_url(text: &str) -> (r: String)
    ensures
        r@ == url_host(text@),
{
    let h = match parse_url(text) {
        Some(u) => match u.host {
            Some(h) => chars_of(h.as_str()),
            None => Vec::new(),
        },
        None => Vec::new(),
    };
    let l = to_lowercase(h.as_slice());
    if starts_with_str(l.as_slice(), "www.") {
        let w = chars_of("www.");
        let len = l.len();
        let rest = slice_chars(l.as_slice(), w.len(), len);
        proof {
            assert(rest@ =~= l@.skip("www."@.len() as int));
        }
        string_of(rest.as_slice())
    } else {
        string_of(l.as_slice())
    }
}

/// The host a stream URL is keyed by: pseudo-protocol dropped,
/// lowercased, without `www.`.
pub open spec fn host_spec(url: Seq<char>) -> Seq<char> {
    url_host(stripped(url))
}

/// The host a stream URL is keyed by.
pub fn host_of(url: &str) -> (r: String)
    ensures
        r@ == host_spec(url@),
{
    let s = strip_proto(url);
    host_of_url(s.as_str())
}

/// The keys a host is looked up by, most specific first: the host and its
/// parent domains down to two labels (`a.b.example`, `b.example`); a
/// single-label host is its own key, an empty one has none.
pub open spec fn suffix_list(host: Seq<char>) -> Seq<Seq<char>> {
    let labels = nonempty_parts(split_on(host, '.'));
    if labels.len() < 2 {
        if host.len() == 0 {
            seq![]
        } else {
            seq![host]
        }
    } else {
        Seq::new((labels.len() - 1) as nat, |i: int| join_with(labels.skip(i), seq!['.']))
    }
}

/// The lookup keys of a host, most specific first.
pub fn suffixes(host: &str) -> (r: Vec<String>)
    ensures
        crate::curl::string_views(r@) == suffix_list(host@),
{
    let hc = chars_of(host);
    let labels = nonempty_split(hc.as_slice(), '.');
    let ghost lv = labels@.map_values(|v: Vec<char>| v@);
    let mut out: Vec<String> = Vec::new();
    if labels.len() < 2 {
        if hc.len() == 0 {
            assert(crate::curl::string_views(out@) =~= suffix_list(host@));
            return out;
        }
        out.push(host.to_string());
        assert(crate::curl::string_views(out@) =~= suffix_list(host@));
        return out;
    }
    let dot = single('.');
    let n = labels.len() - 1;
    let mut i: usize = 0;
    while i < n
        invariant
            i <= n,
            n == labels@.len() - 1,
            dot@ == seq!['.'],
            lv == labels@.map_values(|v: Vec<char>| v@),
            lv == nonempty_parts(split_on(host@, '.')),
            crate::curl::string_views(out@) =~= Seq::new(
                i as nat,
                |k: int| join_with(lv.skip(k), seq!['.']),
            ),
        decreases n - i,
    {
        let mut tail: Vec<Vec<char>> = Vec::new();
        let mut j = i;
        while j < labels.len()
            invariant
                i <= j <= labels@.len(),
                lv == labels@.map_values(|v: Vec<char>| v@),
                tail@.map_values(|v: Vec<char>| v@) =~= lv.subrange(i as int, j as int),
            decreases labels@.len() - j,
        {
            assert(lv[j as int] == labels@[j as int]@);
            let ghost before = tail@;
            tail.push(crate::text::copy_chars(labels[j].as_slice()));
            proof {
                assert(tail@.map_values(|v: Vec<char>| v@) =~= before.map_values(|v: Vec<char>| v@).push(
                    lv[j as int],
                ));
                assert(lv.subrange(i as int, j + 1) =~= lv.subrange(i as int, j as int).push(
                    lv[j as int],
                ));
            }
            j += 1;
        }
        assert(lv.subrange(i as int, labels@.len() as int) =~= lv.skip(i as int));
        let joined = join_pieces(&tail, dot.as_slice());
        let ghost before = out@;
        out.push(string_of(joined.as_slice()));
        proof {
            assert(crate::curl::string_views(out@) =~= crate::curl::string_views(before).push(
                join_with(lv.skip(i as int), seq!['.']),
            ));
        }
        i += 1;
    }
    out
}

// ---------------------------------------------------------------------------
// Looking up and remembering
// ---------------------------------------------------------------------------

/// The first of `keys` present in `m`.
pub open spec fn first_present<V>(keys: Seq<Seq<char>>, m: Map<Seq<char>, V>) -> Option<Seq<char>>
    decreases keys.len(),
{
    if keys.len() == 0 {
        None
    } else if m.contains_key(keys[0]) {
        Some(keys[0])
    } else {
        first_present(keys.drop_first(), m)
    }
}

/// The key whose settings apply to a URL: the most specific stored suffix
/// of its host.
pub open spec fn lookup_key(prefs: Map<Seq<char>, Assoc<String>>, url: Seq<char>) -> Option<Seq<char>> {
    first_present(suffix_list(host_spec(url)), prefs)
}

proof fn lemma_first_present_in<V>(keys: Seq<Seq<char>>, m: Map<Seq<char>, V>)
    ensures
        match first_present(keys, m) {
            Some(k) => m.contains_key(k) && keys.contains(k),
            None => forall|i: int| 0 <= i < keys.len() ==> !m.contains_key(#[trigger] keys[i]),
        },
    decreases keys.len(),
{
    if keys.len() > 0 && !m.contains_key(keys[0]) {
        lemma_first_present_in(keys.drop_first(), m);
        if let Some(k) = first_present(keys.drop_first(), m) {
            let i = choose|i: int| 0 <= i < keys.drop_first().len() && keys.drop_first()[i] == k;
            assert(keys[i + 1] == k);
        } else {
            assert forall|i: int| 0 <= i < keys.len() implies !m.contains_key(#[trigger] keys[i]) by {
                if i > 0 {
                    assert(keys[i] == keys.drop_first()[i - 1]);
                }
            }
        }
    } else if keys.len() > 0 {
        assert(keys[0] == keys[0]);
    }
}

fn first_present_exec(keys: &Vec<String>, prefs: &Prefs) -> (r: Option<usize>)
    ensures
        match r {
            Some(i) => i < keys@.len() && first_present(crate::curl::string_views(keys@), prefs@)
                == Some(keys@[i as int]@),
            None => first_present(crate::curl::string_views(keys@), prefs@) is None,
        },
{
    let ghost ks = crate::curl::string_views(keys@);
    let mut i: usize = 0;
    proof {
        assert(ks.skip(0) =~= ks);
    }
    while i < keys.len()
        invariant
            i <= keys@.len(),
            ks == crate::curl::string_views(keys@),
            first_present(ks.skip(i as int), prefs@) == first_present(ks, prefs@),
        decreases keys@.len() - i,
    {
        proof {
            assert(ks.skip(i as int)[0] == keys@[i as int]@);
            assert(ks.skip(i as int).drop_first() =~= ks.skip(i + 1));
        }
        if prefs.contains_key(keys[i].as_str()) {
            return Some(i);
        }
        i += 1;
    }
    proof {
        assert(ks.skip(i as int) =~= Seq::<Seq<char>>::empty());
    }
    None
}

/// The stored settings for a URL: those of the most specific stored
/// suffix of its host.
pub fn lookup_prefs<'a>(prefs: &'a Prefs, url: &str) -> (r: Option<&'a Assoc<String>>)
    ensures
        match r {
            Some(e) => lookup_key(prefs@, url@) is Some && prefs@[lookup_key(prefs@, url@)->0]
                == *e,
            None => lookup_key(prefs@, url@) is None,
        },
{
    let host = host_of(url);
    let keys = suffixes(host.as_str());
    proof {
        lemma_first_present_in(crate::curl::string_views(keys@), prefs@);
    }
    match first_present_exec(&keys, prefs) {
        Some(i) => prefs.get(keys[i].as_str()),
        None => None,
    }
}

/// `m` with `s[k]` copied in when `s` has a non-empty value for `k`.
pub open spec fn keep_setting(
    m: Map<Seq<char>, String>,
    s: Map<Seq<char>, String>,
    k: Seq<char>,
) -> Map<Seq<char>, String> {
    if s.contains_key(k) && s[k]@.len() > 0 {
        m.insert(k, s[k])
    } else {
        m
    }
}

/// The non-empty `referer`, `origin` and `user_agent` of `s` written over
/// `m`.
pub open spec fn merged_settings(m: Map<Seq<char>, String>, s: Map<Seq<char>, String>) -> Map<
    Seq<char>,
    String,
> {
    keep_setting(keep_setting(keep_setting(m, s, "referer"@), s, "origin"@), s, "user_agent"@)
}

/// The key `remember_prefs` writes for a URL: the most specific stored
/// suffix of its host, else the host itself.
pub open spec fn remember_key(prefs: Map<Seq<char>, Assoc<String>>, url: Seq<char>) -> Seq<char> {
    match first_present(suffix_list(host_spec(url)), prefs) {
        Some(k) => k,
        None => host_spec(url),
    }
}

fn keep_setting_exec(entry: &mut Assoc<String>, s: &Assoc<String>, k: &str)
    ensures
        final(entry)@ == keep_setting(old(entry)@, s@, k@),
{
    match s.get(k) {
        Some(v) => {
            if v.as_str().is_empty() {
                return;
            }
            entry.insert(k.to_string(), v.clone());
        },
        None => {},
    }
}

/// Remembers the non-empty `referer`, `origin` and `user_agent` of
/// `settings` for a URL's host: under the most specific suffix already
/// stored, else under the host itself; other stored values stay.
pub fn remember_prefs(prefs: &mut Prefs, url: &str, settings: &Assoc<String>)
    ensures
        final(prefs)@ == old(prefs)@.insert(
            remember_key(old(prefs)@, url@),
            final(prefs)@[remember_key(old(prefs)@, url@)],
        ),
        final(prefs)@[remember_key(old(prefs)@, url@)]@ == merged_settings(
            if old(prefs)@.contains_key(remember_key(old(prefs)@, url@)) {
                old(prefs)@[remember_key(old(prefs)@, url@)]@
            } else {
                Map::empty()
            },
            settings@,
        ),
{
    let host = host_of(url);
    let keys = suffixes(host.as_str());
    let key = match first_present_exec(&keys, prefs) {
        Some(i) => keys[i].clone(),
        None => host,
    };
    let mut entry = match prefs.get(key.as_str()) {
        Some(e) => e.duplicate(),
        None => Assoc::new(),
    };
    keep_setting_exec(&mut entry, settings, "referer");
    keep_setting_exec(&mut entry, settings, "origin");
    keep_setting_exec(&mut entry, settings, "user_agent");
    prefs.insert(key, entry);
}

/// The value of `k` in optional stored settings.
pub open spec fn stored_value(stored: Option<Map<Seq<char>, String>>, k: Seq<char>) -> Option<Seq<char>> {
    match stored {
        Some(m) => if m.contains_key(k) {
            Some(m[k]@)
        } else {
            None
        },
        None => None,
    }
}

/// A given, non-empty command-line value.
pub open spec fn given(o: Option<Seq<char>>) -> bool {
    o matches Some(v) && v.len() > 0
}

/// The Referer to send: the command line's, else the stored one, else the
/// stream's origin with `/`; `Err` with the error text when that origin
/// cannot be read.
pub open spec fn referer_choice(
    url: Seq<char>,
    stored: Option<Map<Seq<char>, String>>,
    referer: Option<Seq<char>>,
) -> Result<Seq<char>, Seq<char>> {
    if given(referer) {
        Ok(referer->0)
    } else {
        match stored_value(stored, "referer"@) {
            Some(r) => Ok(r),
            None => match origin_spec(url) {
                Some(o) => Ok(o.push('/')),
                None => Err(no_host_text(url)),
            },
        }
    }
}

/// The Origin to send given the chosen Referer: the command line's; else
/// the Referer's origin when the Referer came from the command line; else
/// the stored one; else the Referer's origin.
pub open spec fn origin_choice(
    stored: Option<Map<Seq<char>, String>>,
    referer: Option<Seq<char>>,
    origin: Option<Seq<char>>,
    chosen_referer: Seq<char>,
) -> Result<Seq<char>, Seq<char>> {
    let from_referer = match origin_spec(chosen_referer) {
        Some(o) => Ok(o),
        None => Err(no_host_text(chosen_referer)),
    };
    if given(origin) {
        Ok(origin->0)
    } else if given(referer) {
        from_referer
    } else {
        match stored_value(stored, "origin"@) {
            Some(o) => Ok(o),
            None => from_referer,
        }
    }
}

/// The User-Agent to send: the given one, else the stored one, else empty.
pub open spec fn agent_choice(stored: Option<Map<Seq<char>, String>>, ua: Seq<char>) -> Seq<char> {
    if ua.len() > 0 {
        ua
    } else {
        match stored_value(stored, "user_agent"@) {
            Some(a) => a,
            None => Seq::<char>::empty(),
        }
    }
}

/// The stored settings for a URL, as plain maps.
pub open spec fn stored_for(prefs: Map<Seq<char>, Assoc<String>>, url: Seq<char>) -> Option<
    Map<Seq<char>, String>,
> {
    match lookup_key(prefs, url) {
        Some(k) => Some(prefs[k]@),
        None => None,
    }
}

fn stored_get(stored: Option<&Assoc<String>>, k: &str) -> (r: Option<String>)
    ensures
        crate::weburl::opt_view(r) == stored_value(
            match stored {
                Some(s) => Some(s@),
                None => None,
            },
            k@,
        ),
{
    match stored {
        Some(s) => match s.get(k) {
            Some(v) => Some(v.clone()),
            None => None,
        },
        None => None,
    }
}

fn nonempty_arg(o: Option<&str>) -> (r: Option<&str>)
    ensures
        given(match o {
            Some(s) => Some(s@),
            None => None,
        }) == r is Some,
        r matches Some(s) ==> o == Some(s),
{
    match o {
        Some(s) => if s.is_empty() {
            None
        } else {
            Some(s)
        },
        None => None,
    }
}

/// The Referer, Origin and User-Agent for a URL: command-line values beat
/// stored ones, which beat defaults taken from the URL's origin.
pub fn settings_for(
    url: &str,
    prefs: &Prefs,
    referer: Option<&str>,
    origin: Option<&str>,
    user_agent: &str,
) -> (r: Result<Assoc<String>, Error>)
    ensures
        ({
            let stored = stored_for(prefs@, url@);
            let rv = match referer {
                Some(s) => Some(s@),
                None => None,
            };
            let ov = match origin {
                Some(s) => Some(s@),
                None => None,
            };
            match referer_choice(url@, stored, rv) {
                Err(t) => r matches Err(Error::Message(m)) && m@ == t,
                Ok(chosen) => match origin_choice(stored, rv, ov, chosen) {
                    Err(t) => r matches Err(Error::Message(m)) && m@ == t,
                    Ok(o) => r matches Ok(s) && s@.dom() == set![
                        "referer"@,
                        "origin"@,
                        "user_agent"@,
                    ] && s@["referer"@]@ == chosen && s@["origin"@]@ == o
                        && s@["user_agent"@]@ == agent_choice(stored, user_agent@),
                },
            }
        }),
{
    let stored = lookup_prefs(prefs, url);
    let cli_ref = nonempty_arg(referer);
    let ref_ = match cli_ref {
        Some(r) => r.to_string(),
        None => match stored_get(stored, "referer") {
            Some(r) => r,
            None => {
                let o = match origin_of(url) {
                    Ok(o) => o,
                    Err(e) => return Err(e),
                };
                let mut c = chars_of(o.as_str());
                c.push('/');
                string_of(c.as_slice())
            },
        },
    };
    let orig = match nonempty_arg(origin) {
        Some(o) => o.to_string(),
        None => {
            let from_stored = if cli_ref.is_some() {
                None
            } else {
                stored_get(stored, "origin")
            };
            match from_stored {
                Some(o) => o,
                None => match origin_of(ref_.as_str()) {
                    Ok(o) => o,
                    Err(e) => return Err(e),
                },
            }
        },
    };
    let ua = if !user_agent.is_empty() {
        user_agent.to_string()
    } else {
        match stored_get(stored, "user_agent") {
            Some(a) => a,
            None => String::new(),
        }
    };
    proof {
        reveal_strlit("referer");
        reveal_strlit("origin");
        reveal_strlit("user_agent");
        assert("referer"@.len() == 7);
        assert("origin"@.len() == 6);
        assert("user_agent"@.len() == 10);
    }
    let mut out: Assoc<String> = Assoc::new();
    out.insert("referer".to_string(), ref_);
    out.insert("origin".to_string(), orig);
    out.insert("user_agent".to_string(), ua);
    Ok(out)
}

// ---------------------------------------------------------------------------
// Asking for a Referer
// ---------------------------------------------------------------------------

/// A typed Referer: trimmed; `None` when blank; `https://` added when it
/// has no http(s) scheme.
pub open spec fn normalized_referer(raw: Seq<char>) -> Option<Seq<char>> {
    let s = trim(raw);
    if s.len() == 0 {
        None
    } else if has_prefix(s, "http://"@) || has_prefix(s, "https://"@) {
        Some(s)
    } else {
        Some("https://"@ + s)
    }
}

/// Normalizes a typed Referer.
pub fn normalize_referer(raw: &str) -> (r: Option<String>)
    ensures
        crate::weburl::opt_view(r) == normalized_referer(raw@),
{
    let s = trimmed(raw);
    if s.len() == 0 {
        return None;
    }
    if starts_with_str(s.as_slice(), "http://") || starts_with_str(s.as_slice(), "https://") {
        Some(string_of(s.as_slice()))
    } else {
        let mut o = chars_of("https://");
        push_all(&mut o, s.as_slice());
        Some(string_of(o.as_slice()))
    }
}

/// Normalizing a Referer twice changes nothing more: what was stored is
/// read back as it is.
pub proof fn law_normalize_referer_idempotent(raw: Seq<char>)
    requires
        normalized_referer(raw) is Some,
    ensures
        normalized_referer(normalized_referer(raw)->0) == normalized_referer(raw),
{
    reveal_strlit("https://");
    reveal_strlit("http://");
    let s = trim(raw);
    lemma_trim_run(raw);
    let r = normalized_referer(raw)->0;
    if !(has_prefix(s, "http://"@) || has_prefix(s, "https://"@)) {
        assert(r[0] == 'h');
        assert(r.last() == s.last());
        assert(r.subrange(0, 8) =~= "https://"@);
    }
    lemma_trim_unchanged(r);
}

/// Where the preferences file lives in a work directory.
pub fn prefs_path(dir: &str) -> (r: String)
    ensures
        r@ == joined_path(dir@, PREFS_NAME@),
{
    path_join(dir, PREFS_NAME)
}

// ---------------------------------------------------------------------------
// Laws
// ---------------------------------------------------------------------------

proof fn lemma_first_present_same_dom<V>(keys: Seq<Seq<char>>, a: Map<Seq<char>, V>, b: Map<Seq<char>, V>)
    requires
        a.dom() == b.dom(),
    ensures
        first_present(keys, a) == first_present(keys, b),
    decreases keys.len(),
{
    if keys.len() > 0 {
        assert(a.contains_key(keys[0]) == b.contains_key(keys[0]));
        lemma_first_present_same_dom(keys.drop_first(), a, b);
    }
}

/// A host with no empty labels is its own most specific lookup key.
proof fn lemma_host_first_suffix(host: Seq<char>)
    requires
        host.len() > 0,
        nonempty_parts(split_on(host, '.')) == split_on(host, '.'),
    ensures
        suffix_list(host).len() > 0,
        suffix_list(host)[0] == host,
{
    let labels = nonempty_parts(split_on(host, '.'));
    if labels.len() >= 2 {
        crate::text::lemma_join_split(host, '.');
        assert(labels.skip(0) =~= labels);
    }
}

/// Remembered settings are found again: after `remember_prefs` for a URL
/// whose host is non-empty and has no empty labels, looking the URL up
/// lands on the entry that was written, and that entry holds every
/// non-empty `referer`, `origin` and `user_agent` that was given.
pub proof fn law_remember_then_lookup(
    before: Map<Seq<char>, Assoc<String>>,
    after: Map<Seq<char>, Assoc<String>>,
    url: Seq<char>,
    settings: Map<Seq<char>, String>,
)
    requires
        host_spec(url).len() > 0,
        nonempty_parts(split_on(host_spec(url), '.')) == split_on(host_spec(url), '.'),
        after == before.insert(remember_key(before, url), after[remember_key(before, url)]),
        after[remember_key(before, url)]@ == merged_settings(
            if before.contains_key(remember_key(before, url)) {
                before[remember_key(before, url)]@
            } else {
                Map::empty()
            },
            settings,
        ),
    ensures
        lookup_key(after, url) == Some(remember_key(before, url)),
        stored_for(after, url) == Some(after[remember_key(before, url)]@),
        forall|k: Seq<char>|
            (k == "referer"@ || k == "origin"@ || k == "user_agent"@) && settings.contains_key(k)
                && settings[k]@.len() > 0 ==> (#[trigger] stored_for(after, url)->0).contains_key(k)
                && stored_for(after, url)->0[k] == settings[k],
{
    let host = host_spec(url);
    let sufs = suffix_list(host);
    let key = remember_key(before, url);
    lemma_host_first_suffix(host);
    lemma_first_present_in(sufs, before);
    match first_present(sufs, before) {
        Some(k) => {
            assert(after.dom() =~= before.dom());
            lemma_first_present_same_dom(sufs, before, after);
        },
        None => {
            assert(after.contains_key(host));
        },
    }
    reveal_strlit("referer");
    reveal_strlit("origin");
    reveal_strlit("user_agent");
    assert("referer"@.len() == 7);
    assert("origin"@.len() == 6);
    assert("user_agent"@.len() == 10);
}

} // verus!
