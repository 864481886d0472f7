//! Request headers and the decisions around HTTP fetches: which headers a
//! request carries, whether a URL is a playlist (and must not be
//! range-probed), what to suggest after a 403, and how a bounded playlist
//! fetch is read.
use vstd::prelude::*;
use crate::assoc::Assoc;
use crate::error::{error_text, Error};
use crate::media::{hls_body, is_hls_body, lossy_chars, utf8_lossy};
use crate::prefs::{host_of_url, url_host};
use crate::text::{
    ascii_lower, chars_of, contains_str, ends_with_str, eq_ignore_case, eq_ignore_case_str,
    has_infix, has_prefix, has_suffix, is_control_char, lowercase, starts_with_str, string_of,
    to_ascii_lower, to_lowercase, trim, trim_chars, trimmed, is_white, white_run_end, lemma_trim_run,
};
use crate::urls::{first_url_param, first_url_value};
use crate::weburl::{parse_url, url_parse};

verus! {

// ---------------------------------------------------------------------------
// Headers
// ---------------------------------------------------------------------------

/// The default request headers: User-Agent, Referer, Origin and
/// `Accept: */*`.
pub fn http_headers(ua: &str, referer: &str, origin: &str) -> (h: Assoc<String>)
    ensures
        h@ == Map::<Seq<char>, String>::empty().insert("User-Agent"@, h@["User-Agent"@]).insert(
            "Referer"@,
            h@["Referer"@],
        ).insert("Origin"@, h@["Origin"@]).insert("Accept"@, h@["Accept"@]),
        h@["User-Agent"@]@ == ua@,
        h@["Referer"@]@ == referer@,
        h@["Origin"@]@ == origin@,
        h@["Accept"@]@ == "*/*"@,
{
    proof {
        reveal_strlit("User-Agent");
        reveal_strlit("Referer");
        reveal_strlit("Origin");
        reveal_strlit("Accept");
        assert("User-Agent"@.len() == 10);
        assert("Referer"@.len() == 7);
        assert("Origin"@.len() == 6);
        assert("Accept"@.len() == 6);
        assert("Origin"@[0] == 'O');
        assert("Accept"@[0] == 'A');
    }
    let mut h: Assoc<String> = Assoc::new();
    h.insert("User-Agent".to_string(), ua.to_string());
    h.insert("Referer".to_string(), referer.to_string());
    h.insert("Origin".to_string(), origin.to_string());
    h.insert("Accept".to_string(), "*/*".to_string());
    proof {
        assert(h@ =~= Map::<Seq<char>, String>::empty().insert("User-Agent"@, h@["User-Agent"@]).insert(
            "Referer"@,
            h@["Referer"@],
        ).insert("Origin"@, h@["Origin"@]).insert("Accept"@, h@["Accept"@]));
    }
    h
}

/// The characters of `s` other than control characters (CR and LF among
/// them).
pub open spec fn without_controls(s: Seq<char>) -> Seq<char>
    decreases s.len(),
{
    if s.len() == 0 {
        seq![]
    } else if is_control_char(s.last()) {
        without_controls(s.drop_last())
    } else {
        without_controls(s.drop_last()).push(s.last())
    }
}

/// A header value as sent: control characters removed, then trimmed.
pub open spec fn sanitized(v: Seq<char>) -> Seq<char> {
    trim(without_controls(v))
}

proof fn lemma_without_controls_clean(s: Seq<char>)
    ensures
        forall|i: int|
            0 <= i < without_controls(s).len() ==> !is_control_char(#[trigger] without_controls(s)[i]),
    decreases s.len(),
{
    if s.len() > 0 {
        let p = without_controls(s.drop_last());
        lemma_without_controls_clean(s.drop_last());
        if !is_control_char(s.last()) {
            assert forall|i: int| 0 <= i < without_controls(s).len() implies !is_control_char(
                #[trigger] without_controls(s)[i],
            ) by {
                if i < p.len() {
                    assert(without_controls(s)[i] == p[i]);
                }
            }
        }
    }
}

/// A sanitized header value can be sent as it is: it holds no control
/// character (so no CR or LF), and neither starts nor ends with white space.
pub proof fn law_sanitized_is_clean(v: Seq<char>)
    ensures
        forall|i: int| 0 <= i < sanitized(v).len() ==> !is_control_char(#[trigger] sanitized(v)[i]),
        sanitized(v).len() > 0 ==> !is_white(sanitized(v)[0]) && !is_white(sanitized(v).last()),
{
    let w = without_controls(v);
    lemma_without_controls_clean(v);
    lemma_trim_run(w);
    let a = white_run_end(w, 0);
    assert forall|i: int| 0 <= i < sanitized(v).len() implies !is_control_char(
        #[trigger] sanitized(v)[i],
    ) by {
        assert(sanitized(v)[i] == w[a + i]);
    }
}

/// A header value with control characters (a stray CR/LF from a pasted
/// value among them) removed and white space trimmed.
pub fn sanitize_header_value(v: &str) -> (r: String)
    ensures
        r@ == sanitized(v@),
{
    let c = chars_of(v);
    let mut out: Vec<char> = Vec::new();
    let mut i: usize = 0;
    while i < c.len()
        invariant
            i <= c@.len(),
            c@ == v@,
            out@ == without_controls(c@.take(i as int)),
        decreases c@.len() - i,
    {
        proof {
            assert(c@.take(i + 1).drop_last() =~= c@.take(i as int));
        }
        let ch = c[i];
        let cp = ch as u32;
        if !(cp <= 0x1f || (0x7f <= cp && cp <= 0x9f)) {
            out.push(ch);
        }
        i += 1;
    }
    proof {
        assert(c@.take(c@.len() as int) =~= c@);
    }
    let t = trim_chars(out.as_slice());
    string_of(t.as_slice())
}

/// A Referer from a different host than the stream (so not the CDN's own
/// default): both hosts known and different.
pub open spec fn embed_referer(stream_url: Seq<char>, referer: Option<Seq<char>>) -> bool {
    match referer {
        None => false,
        Some(r) => {
            let t = trim(r);
            t.len() > 0 && url_host(stream_url).len() > 0 && url_host(t).len() > 0 && url_host(
                stream_url,
            ) != url_host(t)
        },
    }
}

/// Whether the Referer comes from another host than the stream.
pub fn is_embed_referer(stream_url: &str, referer: Option<&str>) -> (b: bool)
    ensures
        b == embed_referer(
            stream_url@,
            match referer {
                Some(r) => Some(r@),
                None => None,
            },
        ),
{
    let r = match referer {
        Some(r) => r,
        None => return false,
    };
    let t = trimmed(r);
    if t.len() == 0 {
        return false;
    }
    let ts = string_of(t.as_slice());
    let sh = host_of_url(stream_url);
    let rh = host_of_url(ts.as_str());
    !sh.as_str().is_empty() && !rh.as_str().is_empty() && !(sh == rh)
}

/// The value of the first header (in insertion order) whose name is `k`
/// in any ASCII case.
pub open spec fn first_ci_value(pairs: Seq<(String, String)>, k: Seq<char>) -> Option<Seq<char>>
    decreases pairs.len(),
{
    if pairs.len() == 0 {
        None
    } else if eq_ignore_case(pairs[0].0@, k) {
        Some(pairs[0].1@)
    } else {
        first_ci_value(pairs.drop_first(), k)
    }
}

fn first_ci_header(headers: &Assoc<String>, k: &str) -> (r: Option<String>)
    ensures
        crate::weburl::opt_view(r) == first_ci_value(headers.pairs(), k@),
{
    let entries = headers.entries();
    let ghost ps = headers.pairs();
    let mut i: usize = 0;
    proof {
        assert(ps.skip(0) =~= ps);
    }
    while i < entries.len()
        invariant
            i <= entries@.len(),
            entries@ == ps,
            ps == headers.pairs(),
            first_ci_value(ps.skip(i as int), k@) == first_ci_value(ps, k@),
        decreases entries@.len() - i,
    {
        proof {
            assert(ps.skip(i as int)[0] == ps[i as int]);
            assert(ps.skip(i as int).drop_first() =~= ps.skip(i + 1));
        }
        let kc = chars_of(entries[i].0.as_str());
        if eq_ignore_case_str(kc.as_slice(), k) {
            return Some(entries[i].1.clone());
        }
        i += 1;
    }
    proof {
        assert(ps.skip(i as int) =~= Seq::<(String, String)>::empty());
    }
    None
}

/// Whether a header is left out of a request: an empty value; an `Origin`
/// that is not from another host than the stream (a same-origin GET sends
/// none); a `Cookie` when the Referer's host differs from the stream's (a
/// first-party cookie is not sent to the CDN).
pub open spec fn omit_header(
    name: Seq<char>,
    value: Seq<char>,
    url: Seq<char>,
    pairs: Seq<(String, String)>,
) -> bool {
    let v = sanitized(value);
    if v.len() == 0 {
        true
    } else if eq_ignore_case(name, "origin"@) && !embed_referer(url, Some(v)) {
        true
    } else if eq_ignore_case(name, "cookie"@) {
        match first_ci_value(pairs, "referer"@) {
            Some(r) => url_host(url).len() > 0 && url_host(r).len() > 0 && url_host(url)
                != url_host(r),
            None => false,
        }
    } else {
        false
    }
}

/// Whether header `name: value` is left out of a request for `url`.
pub fn omit_curl_header(name: &str, value: &str, url: &str, headers: &Assoc<String>) -> (b: bool)
    ensures
        b == omit_header(name@, value@, url@, headers.pairs()),
{
    let v = sanitize_header_value(value);
    if v.as_str().is_empty() {
        return true;
    }
    let nc = chars_of(name);
    if eq_ignore_case_str(nc.as_slice(), "origin") && !is_embed_referer(url, Some(v.as_str())) {
        return true;
    }
    if eq_ignore_case_str(nc.as_slice(), "cookie") {
        match first_ci_header(headers, "referer") {
            Some(r) => {
                let uh = host_of_url(url);
                let rh = host_of_url(r.as_str());
                return !uh.as_str().is_empty() && !rh.as_str().is_empty() && !(uh == rh);
            },
            None => {},
        }
    }
    false
}

// ---------------------------------------------------------------------------
// Playlist URLs
// ---------------------------------------------------------------------------

/// A path that names a playlist: `.m3u8`, `.m3u` or `.mpd` at the end, or
/// `.m3u8` anywhere (any ASCII case).
pub open spec fn playlist_path(path: Seq<char>) -> bool {
    let p = ascii_lower(path);
    has_suffix(p, ".m3u8"@) || has_suffix(p, ".m3u"@) || has_suffix(p, ".mpd"@) || has_infix(
        p,
        ".m3u8"@,
    )
}

fn path_looks_like_playlist(path: &str) -> (b: bool)
    ensures
        b == playlist_path(path@),
{
    let c = chars_of(path);
    let p = to_ascii_lower(c.as_slice());
    ends_with_str(p.as_slice(), ".m3u8") || ends_with_str(p.as_slice(), ".m3u") || ends_with_str(
        p.as_slice(),
        ".mpd",
    ) || contains_str(p.as_slice(), ".m3u8")
}

/// A playlist URL: its path names a playlist, or it wraps (`?url=`) an
/// http(s) URL that is one; text that does not parse is judged as a path.
/// A wrapped URL is followed only while it is shorter than its wrapper.
pub open spec fn playlist_url(url: Seq<char>) -> bool
    decreases url.len(),
{
    match url_parse(url) {
        None => playlist_path(url),
        Some(u) => if playlist_path(u.path) {
            true
        } else {
            match first_url_param(u.pairs) {
                Some(inner) => if (has_prefix(inner, "http://"@) || has_prefix(inner, "https://"@))
                    && inner.len() < url.len() {
                    playlist_url(inner)
                } else {
                    false
                },
                None => false,
            }
        },
    }
}

/// Whether a URL is a playlist, which must not be range-probed (some WAFs
/// answer 403 to `Range` on `.m3u8`).
pub fn looks_like_playlist_url(url: &str) -> (b: bool)
    ensures
        b == playlist_url(url@),
    decreases url@.len(),
{
    let u = match parse_url(url) {
        None => return path_looks_like_playlist(url),
        Some(u) => u,
    };
    if path_looks_like_playlist(u.path.as_str()) {
        return true;
    }
    match first_url_value(&u) {
        Some(inner) => {
            let ic = chars_of(inner.as_str());
            let uc = chars_of(url);
            if (starts_with_str(ic.as_slice(), "http://") || starts_with_str(
                ic.as_slice(),
                "https://",
            )) && ic.len() < uc.len() {
                looks_like_playlist_url(inner.as_str())
            } else {
                false
            }
        },
        None => false,
    }
}

// ---------------------------------------------------------------------------
// Hints after an HTTP error
// ---------------------------------------------------------------------------

/// The lowercased text of the first 8 KiB of an error body.
pub open spec fn body_text(body: Seq<u8>) -> Seq<char> {
    lowercase(utf8_lossy(body.take(if body.len() < 8192 {
        body.len() as int
    } else {
        8192
    })))
}

/// Cloudflare disabled the zone (a Referer will not help).
pub open spec fn hint_tos() -> Seq<char> {
    " (Cloudflare disabled this CDN zone for ToS violations; a Referer will not help — copy a fresh playlist URL from the player)"@
}

/// Cloudflare challenge.
pub open spec fn hint_cloudflare() -> Seq<char> {
    " (Cloudflare blocked this; pass --referer from the page that embeds the stream)"@
}

/// nginx 403 with an embed Referer already sent.
pub open spec fn hint_nginx_spent() -> Seq<char> {
    " (nginx denied the playlist. Use the Referer from the m3u8 request in DevTools — the player iframe, not the outer page. Replay that request in the browser; if it 403s there too, master.m3u8 is spent — copy a quality playlist that still returns 200, or Copy as cURL)"@
}

/// nginx 403 without an embed Referer.
pub open spec fn hint_nginx() -> Seq<char> {
    " (nginx denied the playlist; pass --referer from the player iframe that loads this stream, not the outer page)"@
}

/// A signed URL whose token may be stale.
pub open spec fn hint_token() -> Seq<char> {
    " (stale signed token, or quote the URL so zsh does not split on &)"@
}

/// An unquoted `&` in the URL.
pub open spec fn hint_quote() -> Seq<char> {
    " (quote the URL so zsh does not split on &)"@
}

/// What to suggest after a 403, judged on the body and the URL.
pub open spec fn hint_403(url: Seq<char>, body: Seq<u8>, referer: Option<Seq<char>>) -> Seq<char> {
    let text = body_text(body);
    if has_infix(text, "website access blocked"@) || (has_infix(text, "affected zone"@) && has_infix(
        text,
        "violations"@,
    )) {
        hint_tos()
    } else if has_infix(text, "cloudflare"@) || has_infix(text, "attention required"@) || has_infix(
        text,
        "cf-error-details"@,
    ) {
        hint_cloudflare()
    } else if has_infix(text, "nginx"@) && has_infix(text, "403 forbidden"@) {
        if embed_referer(url, referer) {
            hint_nginx_spent()
        } else {
            hint_nginx()
        }
    } else if has_infix(url, "?t="@) || has_infix(url, "&t="@) || has_infix(url, "&e="@)
        || has_infix(url, "&s="@) {
        hint_token()
    } else if has_infix(url, seq!['&']) {
        hint_quote()
    } else {
        Seq::<char>::empty()
    }
}

/// The hint after a 403 when no Referer was sent.
pub fn http_403_hint(url: &str, body: &[u8]) -> (r: String)
    ensures
        r@ == hint_403(url@, body@, None),
{
    http_403_hint_for(url, body, None)
}

/// The hint after a 403, given the Referer that was sent.
pub fn http_403_hint_for(url: &str, body: &[u8], referer: Option<&str>) -> (r: String)
    ensures
        r@ == hint_403(
            url@,
            body@,
            match referer {
                Some(s) => Some(s@),
                None => None,
            },
        ),
{
    let n = if body.len() < 8192 {
        body.len()
    } else {
        8192
    };
    let head = &body[0..n];
    assert(head@ == body@.take(n as int));
    let raw = lossy_chars(head);
    let text = to_lowercase(raw.as_slice());
    let t = text.as_slice();
    let uc = chars_of(url);
    let u = uc.as_slice();
    if contains_str(t, "website access blocked") || (contains_str(t, "affected zone")
        && contains_str(t, "violations")) {
        return " (Cloudflare disabled this CDN zone for ToS violations; a Referer will not help — copy a fresh playlist URL from the player)".to_string();
    }
    if contains_str(t, "cloudflare") || contains_str(t, "attention required") || contains_str(
        t,
        "cf-error-details",
    ) {
        return " (Cloudflare blocked this; pass --referer from the page that embeds the stream)".to_string();
    }
    if contains_str(t, "nginx") && contains_str(t, "403 forbidden") {
        if is_embed_referer(url, referer) {
            return " (nginx denied the playlist. Use the Referer from the m3u8 request in DevTools — the player iframe, not the outer page. Replay that request in the browser; if it 403s there too, master.m3u8 is spent — copy a quality playlist that still returns 200, or Copy as cURL)".to_string();
        }
        return " (nginx denied the playlist; pass --referer from the player iframe that loads this stream, not the outer page)".to_string();
    }
    if contains_str(u, "?t=") || contains_str(u, "&t=") || contains_str(u, "&e=") || contains_str(
        u,
        "&s=",
    ) {
        return " (stale signed token, or quote the URL so zsh does not split on &)".to_string();
    }
    let amp = crate::text::single('&');
    if crate::text::contains(u, amp.as_slice()) {
        return " (quote the URL so zsh does not split on &)".to_string();
    }
    String::new()
}

/// Whether the hint after a 403 asks for a `--referer`.
pub fn referer_needed(url: &str, body: &[u8]) -> (b: bool)
    ensures
        b == has_infix(hint_403(url@, body@, None), "--referer"@),
{
    referer_needed_for(url, body, None)
}

/// Whether the hint after a 403 asks for a `--referer`, given the Referer
/// that was sent.
pub fn referer_needed_for(url: &str, body: &[u8], referer: Option<&str>) -> (b: bool)
    ensures
        b == has_infix(
            hint_403(
                url@,
                body@,
                match referer {
                    Some(s) => Some(s@),
                    None => None,
                },
            ),
            "--referer"@,
        ),
{
    let h = http_403_hint_for(url, body, referer);
    let hc = chars_of(h.as_str());
    contains_str(hc.as_slice(), "--referer")
}

/// What to suggest after an HTTP error status.
pub open spec fn error_hint(
    code: u16,
    url: Seq<char>,
    body: Seq<u8>,
    headers: Map<Seq<char>, String>,
) -> Seq<char> {
    if code == 403 {
        hint_403(
            url,
            body,
            if headers.contains_key("Referer"@) {
                Some(headers["Referer"@]@)
            } else {
                None
            },
        )
    } else if code == 401 {
        " (server requires auth — Copy as cURL from a 200 request in the browser, including Cookie)"@
    } else if code == 400 {
        " (nginx rejected the request; Copy as cURL from a 200 in DevTools)"@
    } else {
        Seq::<char>::empty()
    }
}

/// The hint for an HTTP error status.
pub fn http_error_hint(code: u16, url: &str, body: &[u8], headers: &Assoc<String>) -> (r: String)
    ensures
        r@ == error_hint(code, url@, body@, headers@),
{
    if code == 403 {
        let referer = match headers.get("Referer") {
            Some(r) => Some(r.as_str()),
            None => None,
        };
        return http_403_hint_for(url, body, referer);
    }
    if code == 401 {
        return " (server requires auth — Copy as cURL from a 200 request in the browser, including Cookie)".to_string();
    }
    if code == 400 {
        return " (nginx rejected the request; Copy as cURL from a 200 in DevTools)".to_string();
    }
    String::new()
}

// ---------------------------------------------------------------------------
// Bounded playlist fetches
// ---------------------------------------------------------------------------

/// What a bounded fetch of a stream URL found.
pub enum MaybePlaylist {
    /// An HLS playlist, with the URL it came from.
    Playlist { url: String, body: Vec<u8> },
    /// A progressive media file.
    Progressive { url: String },
}

/// An error that means the fetch hit the size or time bound, i.e. the URL
/// serves a large media file.
pub open spec fn aborted_as_media(e: Error) -> bool {
    let s = error_text(e);
    has_infix(s, "Maximum file size exceeded"@) || has_infix(s, "timed out"@) || has_infix(
        s,
        "curl: (28)"@,
    ) || has_infix(s, "curl: (63)"@)
}

/// Reads the outcome of a bounded fetch of `url` (the final URL and body,
/// or the error): a playlist when the body is one, else a progressive file;
/// an error that shows the bound was hit also means a progressive file;
/// other errors stay errors.
pub fn classify_playlist_fetch(url: &str, fetched: Result<(String, Vec<u8>), Error>) -> (r: Result<
    MaybePlaylist,
    Error,
>)
    ensures
        match fetched {
            Ok((u, body)) => if hls_body(body@) {
                r matches Ok(MaybePlaylist::Playlist { url: ru, body: rb }) && ru@ == u@ && rb@
                    == body@
            } else {
                r matches Ok(MaybePlaylist::Progressive { url: ru }) && ru@ == u@
            },
            Err(e) => if aborted_as_media(e) {
                r matches Ok(MaybePlaylist::Progressive { url: ru }) && ru@ == url@
            } else {
                r matches Err(e2) && e2 == e
            },
        },
{
    match fetched {
        Ok((u, body)) => {
            if is_hls_body(body.as_slice()) {
                Ok(MaybePlaylist::Playlist { url: u, body })
            } else {
                Ok(MaybePlaylist::Progressive { url: u })
            }
        },
        Err(e) => {
            let s = e.message();
            let sc = chars_of(s.as_str());
            let t = sc.as_slice();
            if contains_str(t, "Maximum file size exceeded") || contains_str(t, "timed out")
                || contains_str(t, "curl: (28)") || contains_str(t, "curl: (63)") {
                return Ok(MaybePlaylist::Progressive { url: url.to_string() });
            }
            Err(e)
        },
    }
}

/// A playlist fetch as a result: the URL and body of a playlist, or the
/// progressive-file error.
pub fn maybe_playlist_to_result(got: MaybePlaylist) -> (r: Result<(String, Vec<u8>), Error>)
    ensures
        match got {
            MaybePlaylist::Playlist { url, body } => r matches Ok((u, b)) && u@ == url@ && b@
                == body@,
            MaybePlaylist::Progressive { url } => r matches Err(Error::Progressive { url: u })
                && u@ == url@,
        },
{
    match got {
        MaybePlaylist::Playlist { url, body } => Ok((url, body)),
        MaybePlaylist::Progressive { url } => Err(Error::Progressive { url }),
    }
}

/// Whether a failed playlist fetch is a 403 that a fresh Referer may fix.
pub fn is_403(e: &Error) -> (b: bool)
    ensures
        b == (*e matches Error::Http { code, .. } && code == 403),
{
    match e {
        Error::Http { code, .. } => *code == 403,
        _ => false,
    }
}

/// Adds headers for a retry; later values replace earlier ones.
pub fn merge_headers(headers: &mut Assoc<String>, extra: &Assoc<String>)
    ensures
        final(headers)@ == old(headers)@.union_prefer_right(extra@),
{
    let entries = extra.entries();
    let ghost ps = extra.pairs();
    let ghost start = headers@;
    let mut i: usize = 0;
    while i < entries.len()
        invariant
            i <= entries@.len(),
            entries@ == ps,
            headers@ == start.union_prefer_right(crate::assoc::assoc_map(ps.take(i as int))),
        decreases entries@.len() - i,
    {
        proof {
            assert(ps.take(i + 1).drop_last() =~= ps.take(i as int));
        }
        headers.insert(entries[i].0.clone(), entries[i].1.clone());
        proof {
            assert(headers@ =~= start.union_prefer_right(crate::assoc::assoc_map(ps.take(i + 1))));
        }
        i += 1;
    }
    proof {
        assert(ps.take(entries@.len() as int) =~= ps);
    }
}

} // verus!
