//! What the desktop interface is shown: the quality list, the stored
//! hosts, the download settings, the answer to a resolve request, and the
//! download jobs with their bookkeeping.
use vstd::prelude::*;
use crate::assoc::Assoc;
use crate::download::{clamp_workers, MAX_WORKERS, MIN_WORKERS};
use crate::error::{error_text, Error};
use crate::fetch::http_headers;
use crate::prefs::{
    agent_choice, host_of, host_spec, normalize_referer, normalized_referer, origin_choice,
    referer_choice, settings_for, stored_for, Prefs,
};
use crate::urls::UA_DEFAULT;
use crate::text::{
    chars_of, contains_str, has_infix, lowercase, push_str, string_of, text_less, text_lt, to_lowercase,
    trim, trimmed,
};
use crate::hls::{parse_variants, variants_spec};
use crate::variants::{label_text, ranked, ranked_variants, variant_label, views, Variant, VariantView};

verus! {

// ---------------------------------------------------------------------------
// Qualities
// ---------------------------------------------------------------------------

/// One entry of the quality list.
pub struct VariantDto {
    pub label: String,
    pub quality: String,
    pub height: u32,
    pub bandwidth: u64,
}

/// The entry a variant is listed as: its label (also the quality to ask
/// for), height and bandwidth.
pub open spec fn variant_entry(v: VariantView) -> (Seq<char>, Seq<char>, u32, u64) {
    (label_text(v), label_text(v), v.height, v.bandwidth)
}

impl VariantDto {
    pub open spec fn entry(self) -> (Seq<char>, Seq<char>, u32, u64) {
        (self.label@, self.quality@, self.height, self.bandwidth)
    }
}

/// The quality list: the variants best first, each with its label.
pub fn variants_dto(v: &[Variant]) -> (r: Vec<VariantDto>)
    ensures
        r@.len() == ranked(views(v@)).len(),
        forall|i: int| 0 <= i < r@.len() ==> (#[trigger] r@[i]).entry() == variant_entry(ranked(views(v@))[i]),
{
    let rk = ranked_variants(v);
    let mut out: Vec<VariantDto> = Vec::new();
    let mut i: usize = 0;
    while i < rk.len()
        invariant
            i <= rk@.len(),
            views(rk@) == ranked(views(v@)),
            out@.len() == i,
            forall|j: int| 0 <= j < i ==> (#[trigger] out@[j]).entry() == variant_entry(views(rk@)[j]),
        decreases rk@.len() - i,
    {
        let x = &rk[i];
        let label = variant_label(x);
        let quality = variant_label(x);
        out.push(VariantDto { label, quality, height: x.height, bandwidth: x.bandwidth });
        i += 1;
    }
    out
}

/// The quality list of a fetched playlist (its text, and the URL it came
/// from): a master playlist lists its variants best first; a media playlist
/// has the single entry `best`.
pub fn quality_list(text: &str, final_url: &str) -> (r: Vec<VariantDto>)
    ensures
        has_infix(text@, "#EXT-X-STREAM-INF"@) ==> r@.len() == ranked(variants_spec(text@, final_url@)).len()
            && forall|i: int|
            0 <= i < r@.len() ==> (#[trigger] r@[i]).entry() == variant_entry(
                ranked(variants_spec(text@, final_url@))[i],
            ),
        !has_infix(text@, "#EXT-X-STREAM-INF"@) ==> r@.len() == 1 && r@[0].entry() == (
            "best"@,
            "best"@,
            0u32,
            0u64,
        ),
{
    let tc = chars_of(text);
    if contains_str(tc.as_slice(), "#EXT-X-STREAM-INF") {
        let vs = parse_variants(text, final_url);
        variants_dto(vs.as_slice())
    } else {
        let mut out: Vec<VariantDto> = Vec::new();
        out.push(VariantDto { label: "best".to_string(), quality: "best".to_string(), height: 0, bandwidth: 0 });
        out
    }
}

/// One subtitle track as listed.
pub struct SubtitleDto {
    pub label: String,
    pub name: String,
    pub language: String,
    pub default: bool,
}

// ---------------------------------------------------------------------------
// Resolving
// ---------------------------------------------------------------------------

/// The answer to a resolve request: the stream's qualities and tracks, or
/// a request for the embed page URL after a 403 that needs a Referer.
pub enum ResolveResponse {
    Resolved {
        kind: String,
        host: String,
        variants: Vec<VariantDto>,
        subtitles: Vec<SubtitleDto>,
        referer: String,
        origin: String,
    },
    NeedReferer { url: String, hint: String, host: String },
}

/// A failed resolve of `url`: a 403 whose hint asks for `--referer`
/// becomes a request for the embed page (with the refused URL, the hint
/// and the stream's host); any other error is passed on as its text.
pub fn map_403(url: &str, e: Error) -> (r: Result<ResolveResponse, String>)
    ensures
        match e {
            Error::Http { code, url: u, hint, .. } => if code == 403 && has_infix(hint@, "--referer"@) {
                r matches Ok(ResolveResponse::NeedReferer { url: ru, hint: rh, host })
                    && ru@ == u@ && rh@ == hint@ && host@ == host_spec(url@)
            } else {
                r matches Err(m) && m@ == error_text(e)
            },
            _ => r matches Err(m) && m@ == error_text(e),
        },
{
    let needs = match &e {
        Error::Http { code, hint, .. } => *code == 403 && contains_str(chars_of(hint.as_str()).as_slice(), "--referer"),
        _ => false,
    };
    if needs {
        match e {
            Error::Http { url: u, hint, .. } => {
                return Ok(ResolveResponse::NeedReferer { url: u, hint, host: host_of(url) });
            },
            _ => {},
        }
    }
    Err(e.message())
}

/// The User-Agent asked for, or the default one.
pub open spec fn agent_arg(user_agent: Option<Seq<char>>) -> Seq<char> {
    match user_agent {
        Some(u) => if u.len() > 0 {
            u
        } else {
            UA_DEFAULT@
        },
        None => UA_DEFAULT@,
    }
}

/// A Referer typed in the interface, normalized.
pub open spec fn referer_arg(referer: Option<Seq<char>>) -> Option<Seq<char>> {
    match referer {
        Some(r) => normalized_referer(r),
        None => None,
    }
}

/// A trimmed value, when not blank.
pub open spec fn filled(o: Option<Seq<char>>) -> Option<Seq<char>> {
    match o {
        Some(v) => if trim(v).len() > 0 {
            Some(trim(v))
        } else {
            None
        },
        None => None,
    }
}

/// The request headers for a stream from the interface: the settings for
/// its URL (typed Referer normalized, blank values ignored, the default
/// User-Agent when none), plus the captured Cookie and, with it, the host
/// the cookie belongs to (lower case) so it is replayed there.
pub open spec fn headers_ok(
    h: Map<Seq<char>, String>,
    referer: Seq<char>,
    origin: Seq<char>,
    agent: Seq<char>,
    cookie: Option<Seq<char>>,
    cookie_host: Option<Seq<char>>,
) -> bool {
    let base = set!["User-Agent"@, "Referer"@, "Origin"@, "Accept"@];
    let with_cookie = match cookie {
        Some(_) => base.insert("Cookie"@),
        None => base,
    };
    let keys = match (cookie, cookie_host) {
        (Some(_), Some(_)) => with_cookie.insert("X-Play-Cookie-Host"@),
        _ => with_cookie,
    };
    &&& h.dom() == keys
    &&& h["User-Agent"@]@ == agent
    &&& h["Referer"@]@ == referer
    &&& h["Origin"@]@ == origin
    &&& h["Accept"@]@ == "*/*"@
    &&& (cookie matches Some(c) ==> h["Cookie"@]@ == c)
    &&& (cookie is Some ==> (cookie_host matches Some(ch) ==> h["X-Play-Cookie-Host"@]@ == lowercase(
        ch,
    )))
}

fn filled_arg(o: Option<&str>) -> (r: Option<String>)
    ensures
        crate::weburl::opt_view(r) == filled(
            match o {
                Some(s) => Some(s@),
                None => None,
            },
        ),
{
    match o {
        Some(s) => {
            let t = trimmed(s);
            if t.len() > 0 {
                Some(string_of(t.as_slice()))
            } else {
                None
            }
        },
        None => None,
    }
}

/// The request headers for a stream from the interface (see `headers_ok`);
/// the errors are those of `settings_for`.
pub fn headers_for(
    url: &str,
    prefs: &Prefs,
    referer: Option<&str>,
    origin: Option<&str>,
    user_agent: Option<&str>,
    cookie: Option<&str>,
    cookie_host: Option<&str>,
) -> (r: Result<Assoc<String>, Error>)
    ensures
        ({
            let stored = stored_for(prefs@, url@);
            let rv = referer_arg(
                match referer {
                    Some(s) => Some(s@),
                    None => None,
                },
            );
            let ov = filled(
                match origin {
                    Some(s) => Some(s@),
                    None => None,
                },
            );
            let cv = filled(
                match cookie {
                    Some(s) => Some(s@),
                    None => None,
                },
            );
            let hv = filled(
                match cookie_host {
                    Some(s) => Some(s@),
                    None => None,
                },
            );
            let agent = agent_arg(
                match user_agent {
                    Some(s) => Some(s@),
                    None => None,
                },
            );
            match referer_choice(url@, stored, rv) {
                Err(t) => r matches Err(Error::Message(m)) && m@ == t,
                Ok(chosen) => match origin_choice(stored, rv, ov, chosen) {
                    Err(t) => r matches Err(Error::Message(m)) && m@ == t,
                    Ok(o) => r matches Ok(h) && headers_ok(
                        h@,
                        chosen,
                        o,
                        agent_choice(stored, agent),
                        cv,
                        hv,
                    ),
                },
            }
        }),
{
    proof {
        reveal_strlit("User-Agent");
        reveal_strlit("Referer");
        reveal_strlit("Origin");
        reveal_strlit("Accept");
        reveal_strlit("Cookie");
        reveal_strlit("X-Play-Cookie-Host");
        reveal_strlit("referer");
        reveal_strlit("origin");
        reveal_strlit("user_agent");
        assert("User-Agent"@.len() == 10);
        assert("Referer"@.len() == 7);
        assert("Origin"@.len() == 6);
        assert("Accept"@.len() == 6);
        assert("Cookie"@.len() == 6);
        assert("Origin"@[0] == 'O');
        assert("Accept"@[0] == 'A');
        assert("Cookie"@[0] == 'C');
        assert("referer"@.len() == 7);
        assert("origin"@.len() == 6);
        assert("user_agent"@.len() == 10);
        assert("X-Play-Cookie-Host"@.len() == 18);
    }
    let ua = match user_agent {
        Some(u) => if u.is_empty() {
            UA_DEFAULT
        } else {
            u
        },
        None => UA_DEFAULT,
    };
    let referer_n = match referer {
        Some(r) => normalize_referer(r),
        None => None,
    };
    let origin_n = filled_arg(origin);
    let cfg = settings_for(
        url,
        prefs,
        match &referer_n {
            Some(r) => Some(r.as_str()),
            None => None,
        },
        match &origin_n {
            Some(o) => Some(o.as_str()),
            None => None,
        },
        ua,
    );
    let cfg = match cfg {
        Ok(c) => c,
        Err(e) => return Err(e),
    };
    let empty = String::new();
    let a = match cfg.get("user_agent") {
        Some(v) => v,
        None => &empty,
    };
    let rf = match cfg.get("referer") {
        Some(v) => v,
        None => &empty,
    };
    let og = match cfg.get("origin") {
        Some(v) => v,
        None => &empty,
    };
    let mut headers = http_headers(a.as_str(), rf.as_str(), og.as_str());
    let ghost base = set!["User-Agent"@, "Referer"@, "Origin"@, "Accept"@];
    assert(headers@.dom() =~= base);
    let cv = filled_arg(cookie);
    let hv = filled_arg(cookie_host);
    if let Some(c) = cv {
        headers.insert("Cookie".to_string(), c);
        assert(headers@.dom() =~= base.insert("Cookie"@));
        if let Some(h) = hv {
            let hc = chars_of(h.as_str());
            let low = to_lowercase(hc.as_slice());
            headers.insert("X-Play-Cookie-Host".to_string(), string_of(low.as_slice()));
            assert(headers@.dom() =~= base.insert("Cookie"@).insert("X-Play-Cookie-Host"@));
        }
    }
    Ok(headers)
}

// ---------------------------------------------------------------------------
// Stored hosts and download settings
// ---------------------------------------------------------------------------

/// A stored host with its Referer and Origin.
pub struct HostRow {
    pub host: String,
    pub referer: String,
    pub origin: String,
}

/// A stored setting, empty when absent.
pub open spec fn setting_or_empty(s: Map<Seq<char>, String>, k: Seq<char>) -> Seq<char> {
    if s.contains_key(k) {
        s[k]@
    } else {
        Seq::<char>::empty()
    }
}

fn setting_text(s: &Assoc<String>, k: &str) -> (r: String)
    ensures
        r@ == setting_or_empty(s@, k@),
{
    match s.get(k) {
        Some(v) => v.clone(),
        None => String::new(),
    }
}

/// A row as plain values: host, Referer, Origin.
pub open spec fn row_view(r: HostRow) -> (Seq<char>, Seq<char>, Seq<char>) {
    (r.host@, r.referer@, r.origin@)
}

/// The row a stored entry is shown as (a missing setting is empty).
pub open spec fn row_of(p: (String, Assoc<String>)) -> (Seq<char>, Seq<char>, Seq<char>) {
    (p.0@, setting_or_empty(p.1@, "referer"@), setting_or_empty(p.1@, "origin"@))
}

/// The rows are exactly the stored entries' rows, sorted by host.
pub open spec fn rows_of(r: Seq<HostRow>, pairs: Seq<(String, Assoc<String>)>) -> bool {
    &&& r.len() == pairs.len()
    &&& rows_sorted(r)
    &&& rows_from(r, pairs)
    &&& rows_cover(r, pairs)
}

/// Where a row for `host` goes in rows sorted by host: after the rows that
/// sort before it.
fn insert_pos(rows: &Vec<HostRow>, host: &[char]) -> (p: usize)
    ensures
        p <= rows@.len(),
        forall|a: int| 0 <= a < p ==> text_lt(#[trigger] rows@[a].host@, host@),
        p < rows@.len() ==> !text_lt(rows@[p as int].host@, host@),
{
    let mut p: usize = 0;
    while p < rows.len()
        invariant
            p <= rows@.len(),
            forall|a: int| 0 <= a < p ==> text_lt(#[trigger] rows@[a].host@, host@),
        decreases rows@.len() - p,
    {
        let oc = chars_of(rows[p].host.as_str());
        if !text_less(oc.as_slice(), host) {
            return p;
        }
        p += 1;
    }
    p
}

/// Row `r` shows entry `p`.
pub open spec fn row_is(r: HostRow, p: (String, Assoc<String>)) -> bool {
    row_view(r) == row_of(p)
}

/// Rows sorted by host.
pub open spec fn rows_sorted(r: Seq<HostRow>) -> bool {
    forall|a: int, b: int| 0 <= a < b < r.len() ==> text_lt(#[trigger] r[a].host@, #[trigger] r[b].host@)
}

/// Row `r` shows one of the entries.
pub open spec fn has_entry(r: HostRow, pairs: Seq<(String, Assoc<String>)>) -> bool {
    exists|k: int| 0 <= k < pairs.len() && row_is(r, #[trigger] pairs[k])
}

/// Some row shows entry `e`.
pub open spec fn has_row(r: Seq<HostRow>, e: (String, Assoc<String>)) -> bool {
    exists|a: int| 0 <= a < r.len() && row_is(#[trigger] r[a], e)
}

/// Each row is the row of one of the entries.
pub open spec fn rows_from(r: Seq<HostRow>, pairs: Seq<(String, Assoc<String>)>) -> bool {
    forall|a: int| 0 <= a < r.len() ==> #[trigger] has_entry(r[a], pairs)
}

/// Each entry has its row.
pub open spec fn rows_cover(r: Seq<HostRow>, pairs: Seq<(String, Assoc<String>)>) -> bool {
    forall|k: int| 0 <= k < pairs.len() ==> #[trigger] has_row(r, pairs[k])
}

proof fn lemma_insert_sorted(prev: Seq<HostRow>, ps: Seq<(String, Assoc<String>)>, i: int, x: HostRow, p: int)
    requires
        0 <= i < ps.len(),
        crate::assoc::distinct_keys(ps),
        rows_sorted(prev),
        rows_from(prev, ps.take(i)),
        row_is(x, ps[i]),
        0 <= p <= prev.len(),
        forall|a: int| 0 <= a < p ==> text_lt(#[trigger] prev[a].host@, x.host@),
        p < prev.len() ==> !text_lt(prev[p].host@, x.host@),
    ensures
        rows_sorted(prev.insert(p, x)),
{
    let pt = ps.take(i);
    let n = prev.insert(p, x);
    if p < prev.len() {
        assert(has_entry(prev[p], pt));
        let k = choose|k: int| 0 <= k < pt.len() && row_is(prev[p], #[trigger] pt[k]);
        assert(pt[k] == ps[k]);
        assert(ps[k].0@ != ps[i].0@);
        crate::text::lemma_text_lt_total(prev[p].host@, x.host@);
    }
    assert forall|a: int, b: int| 0 <= a < b < n.len() implies text_lt(
        #[trigger] n[a].host@,
        #[trigger] n[b].host@,
    ) by {
        if b < p {
            assert(n[a] == prev[a] && n[b] == prev[b]);
        } else if b == p {
            assert(n[a] == prev[a]);
        } else if a == p {
            assert(n[b] == prev[b - 1]);
            if b - 1 > p {
                assert(text_lt(prev[p].host@, prev[b - 1].host@));
                crate::text::lemma_text_lt_transitive(x.host@, prev[p].host@, prev[b - 1].host@);
            }
        } else if a < p {
            assert(n[a] == prev[a] && n[b] == prev[b - 1]);
        } else {
            assert(n[a] == prev[a - 1] && n[b] == prev[b - 1]);
        }
    }
}

proof fn lemma_insert_from(prev: Seq<HostRow>, ps: Seq<(String, Assoc<String>)>, i: int, x: HostRow, p: int)
    requires
        0 <= i < ps.len(),
        rows_from(prev, ps.take(i)),
        row_is(x, ps[i]),
        0 <= p <= prev.len(),
    ensures
        rows_from(prev.insert(p, x), ps.take(i + 1)),
{
    let n = prev.insert(p, x);
    let pt = ps.take(i);
    let pt2 = ps.take(i + 1);
    assert forall|a: int| 0 <= a < n.len() implies #[trigger] has_entry(n[a], pt2) by {
        if a == p {
            assert(n[a] == x);
            assert(pt2[i] == ps[i]);
            assert(row_is(n[a], pt2[i]));
        } else {
            let a0 = if a < p {
                a
            } else {
                a - 1
            };
            assert(n[a] == prev[a0]);
            assert(has_entry(prev[a0], pt));
            let k = choose|k: int| 0 <= k < pt.len() && row_is(prev[a0], #[trigger] pt[k]);
            assert(pt2[k] == pt[k]);
            assert(row_is(n[a], pt2[k]));
        }
    }
}

proof fn lemma_insert_cover(prev: Seq<HostRow>, ps: Seq<(String, Assoc<String>)>, i: int, x: HostRow, p: int)
    requires
        0 <= i < ps.len(),
        rows_cover(prev, ps.take(i)),
        row_is(x, ps[i]),
        0 <= p <= prev.len(),
    ensures
        rows_cover(prev.insert(p, x), ps.take(i + 1)),
{
    let n = prev.insert(p, x);
    let pt = ps.take(i);
    let pt2 = ps.take(i + 1);
    assert forall|k: int| 0 <= k < pt2.len() implies #[trigger] has_row(n, pt2[k]) by {
        if k == i {
            assert(n[p] == x);
            assert(pt2[k] == ps[i]);
            assert(row_is(n[p], pt2[k]));
        } else {
            assert(pt2[k] == pt[k]);
            assert(has_row(prev, pt[k]));
            let a0 = choose|a: int| 0 <= a < prev.len() && row_is(#[trigger] prev[a], pt[k]);
            if a0 < p {
                assert(n[a0] == prev[a0]);
                assert(row_is(n[a0], pt2[k]));
            } else {
                assert(n[a0 + 1] == prev[a0]);
                assert(row_is(n[a0 + 1], pt2[k]));
            }
        }
    }
}

/// The stored hosts, one row each, sorted by host.
pub fn host_rows(prefs: &Prefs) -> (r: Vec<HostRow>)
    ensures
        rows_of(r@, prefs.pairs()),
{
    let entries = prefs.entries();
    let ghost ps = prefs.pairs();
    let mut out: Vec<HostRow> = Vec::new();
    let mut i: usize = 0;
    assert(ps.take(0) =~= Seq::<(String, Assoc<String>)>::empty());
    while i < entries.len()
        invariant
            i <= entries@.len(),
            entries@ == ps,
            crate::assoc::distinct_keys(ps),
            rows_of(out@, ps.take(i as int)),
        decreases entries@.len() - i,
    {
        let host = entries[i].0.clone();
        let referer = setting_text(&entries[i].1, "referer");
        let origin = setting_text(&entries[i].1, "origin");
        let x = HostRow { host, referer, origin };
        let xc = chars_of(x.host.as_str());
        let p = insert_pos(&out, xc.as_slice());
        proof {
            lemma_insert_sorted(out@, ps, i as int, x, p as int);
            lemma_insert_from(out@, ps, i as int, x, p as int);
            lemma_insert_cover(out@, ps, i as int, x, p as int);
        }
        out.insert(p, x);
        i += 1;
    }
    assert(ps.take(entries@.len() as int) =~= ps);
    out
}

/// The download settings shown: the worker count and its bounds.
pub struct DownloadConfigDto {
    pub workers: u32,
    pub min_workers: u32,
    pub max_workers: u32,
}

/// The settings for a requested worker count, kept within the bounds.
pub fn download_config(workers: usize) -> (r: DownloadConfigDto)
    ensures
        r.workers as int == (if workers < MIN_WORKERS {
            MIN_WORKERS
        } else if workers > MAX_WORKERS {
            MAX_WORKERS
        } else {
            workers
        }),
        r.min_workers as int == MIN_WORKERS,
        r.max_workers as int == MAX_WORKERS,
{
    let n = clamp_workers(workers);
    DownloadConfigDto { workers: n as u32, min_workers: MIN_WORKERS as u32, max_workers: MAX_WORKERS as u32 }
}

// ---------------------------------------------------------------------------
// Download jobs
// ---------------------------------------------------------------------------

/// A download job.
pub struct Job {
    pub id: u64,
    pub url: String,
    pub dest: String,
    pub quality: String,
    pub status: String,
    pub done: usize,
    pub total: usize,
    pub bytes: u64,
    pub error: Option<String>,
    pub hint: Option<String>,
}

/// A job as listed, with the host of its URL.
pub struct JobDto {
    pub id: u64,
    pub url: String,
    pub host: String,
    pub dest: String,
    pub quality: String,
    pub status: String,
    pub done: usize,
    pub total: usize,
    pub bytes: u64,
    pub error: Option<String>,
    pub hint: Option<String>,
}

/// `Job` as plain values.
pub struct JobView {
    pub id: u64,
    pub url: Seq<char>,
    pub dest: Seq<char>,
    pub quality: Seq<char>,
    pub status: Seq<char>,
    pub done: usize,
    pub total: usize,
    pub bytes: u64,
    pub error: Option<Seq<char>>,
    pub hint: Option<Seq<char>>,
}

impl View for Job {
    type V = JobView;

    open spec fn view(&self) -> JobView {
        JobView {
            id: self.id,
            url: self.url@,
            dest: self.dest@,
            quality: self.quality@,
            status: self.status@,
            done: self.done,
            total: self.total,
            bytes: self.bytes,
            error: crate::weburl::opt_view(self.error),
            hint: crate::weburl::opt_view(self.hint),
        }
    }
}

/// Views of a list of jobs.
pub open spec fn job_views(s: Seq<Job>) -> Seq<JobView> {
    s.map_values(|j: Job| j@)
}

/// A status of a job that is not finished: queued, running, remuxing or
/// being cancelled.
pub open spec fn job_active(status: Seq<char>) -> bool {
    status == "queued"@ || status == "running"@ || status == "remuxing"@ || status == "cancelling"@
}

/// A freshly queued job (`best` when no quality was asked for).
pub open spec fn queued_view(id: u64, url: Seq<char>, dest: Seq<char>, quality: Option<Seq<char>>) -> JobView {
    JobView {
        id,
        url,
        dest,
        quality: match quality {
            Some(q) => q,
            None => "best"@,
        },
        status: "queued"@,
        done: 0,
        total: 1,
        bytes: 0,
        error: None,
        hint: None,
    }
}

/// Another unfinished job, not `except`, already writes to `dest`.
pub open spec fn in_use(jobs: Seq<JobView>, dest: Seq<char>, except: Option<u64>) -> bool {
    exists|i: int|
        0 <= i < jobs.len() && job_active(#[trigger] jobs[i].status) && jobs[i].dest == dest
            && except != Some(jobs[i].id)
}

/// The index of the first job with this id at or after `i`.
pub open spec fn first_with_id(jobs: Seq<JobView>, id: u64, i: int) -> Option<int>
    decreases jobs.len() - i,
{
    if i < 0 || i >= jobs.len() {
        None
    } else if jobs[i].id == id {
        Some(i)
    } else {
        first_with_id(jobs, id, i + 1)
    }
}

fn is_active_status(s: &str) -> (b: bool)
    ensures
        b == job_active(s@),
{
    let c = chars_of(s);
    let t = c.as_slice();
    crate::text::eq_str(t, "queued") || crate::text::eq_str(t, "running") || crate::text::eq_str(
        t,
        "remuxing",
    ) || crate::text::eq_str(t, "cancelling")
}

fn copy_opt(o: &Option<String>) -> (r: Option<String>)
    ensures
        crate::weburl::opt_view(r) == crate::weburl::opt_view(*o),
{
    match o {
        Some(s) => Some(s.clone()),
        None => None,
    }
}

impl Job {
    /// Whether the job is unfinished.
    pub fn is_active(&self) -> (b: bool)
        ensures
            b == job_active(self.status@),
    {
        is_active_status(self.status.as_str())
    }

    /// The job as listed.
    pub fn dto(&self) -> (r: JobDto)
        ensures
            r.id == self.id,
            r.url@ == self.url@,
            r.host@ == host_spec(self.url@),
            r.dest@ == self.dest@,
            r.quality@ == self.quality@,
            r.status@ == self.status@,
            r.done == self.done,
            r.total == self.total,
            r.bytes == self.bytes,
            crate::weburl::opt_view(r.error) == crate::weburl::opt_view(self.error),
            crate::weburl::opt_view(r.hint) == crate::weburl::opt_view(self.hint),
    {
        JobDto {
            id: self.id,
            url: self.url.clone(),
            host: host_of(self.url.as_str()),
            dest: self.dest.clone(),
            quality: self.quality.clone(),
            status: self.status.clone(),
            done: self.done,
            total: self.total,
            bytes: self.bytes,
            error: copy_opt(&self.error),
            hint: copy_opt(&self.hint),
        }
    }
}

/// Whether an unfinished job other than `except` writes to `dest`.
pub fn dest_in_use(jobs: &[Job], dest: &str, except: Option<u64>) -> (b: bool)
    ensures
        b == in_use(job_views(jobs@), dest@, except),
{
    let ghost jv = job_views(jobs@);
    let mut i: usize = 0;
    while i < jobs.len()
        invariant
            i <= jobs@.len(),
            jv == job_views(jobs@),
            forall|j: int|
                0 <= j < i ==> !(job_active(#[trigger] jv[j].status) && jv[j].dest == dest@ && except
                    != Some(jv[j].id)),
        decreases jobs@.len() - i,
    {
        let j = &jobs[i];
        let other = match except {
            Some(x) => x != j.id,
            None => true,
        };
        if j.is_active() && crate::text::same_text(j.dest.as_str(), dest) && other {
            assert(jv[i as int] == j@);
            assert(job_active(jv[i as int].status) && jv[i as int].dest == dest@ && except != Some(
                jv[i as int].id,
            ));
            return true;
        }
        i += 1;
    }
    false
}

fn find_job(jobs: &Vec<Job>, id: u64) -> (r: Option<usize>)
    ensures
        match r {
            Some(k) => first_with_id(job_views(jobs@), id, 0) == Some(k as int),
            None => first_with_id(job_views(jobs@), id, 0) is None,
        },
{
    let ghost jv = job_views(jobs@);
    let mut i: usize = 0;
    while i < jobs.len()
        invariant
            i <= jobs@.len(),
            jv == job_views(jobs@),
            first_with_id(jv, id, 0) == first_with_id(jv, id, i as int),
        decreases jobs@.len() - i,
    {
        assert(jv[i as int] == jobs@[i as int]@);
        if jobs[i].id == id {
            return Some(i);
        }
        i += 1;
    }
    None
}

fn queued_job(id: u64, url: &str, dest: &str, quality: Option<&str>) -> (j: Job)
    ensures
        j@ == queued_view(
            id,
            url@,
            dest@,
            match quality {
                Some(q) => Some(q@),
                None => None,
            },
        ),
{
    let q = match quality {
        Some(q) => q.to_string(),
        None => "best".to_string(),
    };
    Job {
        id,
        url: url.to_string(),
        dest: dest.to_string(),
        quality: q,
        status: "queued".to_string(),
        done: 0,
        total: 1,
        bytes: 0,
        error: None,
        hint: None,
    }
}

/// Queues a download of `url` into `dest`: refused when another unfinished
/// job writes there; a retry (`reuse`) restarts the first job with that id,
/// which must exist and be finished; otherwise a new job `new_id` is added.
pub fn enqueue_job(
    jobs: &mut Vec<Job>,
    new_id: u64,
    url: &str,
    dest: &str,
    quality: Option<&str>,
    reuse: Option<u64>,
) -> (r: Result<JobDto, String>)
    ensures
        ({
            let before = job_views(old(jobs)@);
            let after = job_views(final(jobs)@);
            let q = match quality {
                Some(x) => Some(x@),
                None => None,
            };
            if in_use(before, dest@, reuse) {
                r matches Err(m) && m@ == "play: already downloading "@ + dest@ && after == before
            } else {
                match reuse {
                    Some(id) => match first_with_id(before, id, 0) {
                        None => r matches Err(m) && m@ == "play: no such job"@ && after == before,
                        Some(k) => if job_active(before[k].status) {
                            r matches Err(m) && m@ == "play: job is still running"@ && after == before
                        } else {
                            after == before.update(k, queued_view(id, url@, dest@, q)) && (r matches Ok(d)
                                && d.id == id && d.url@ == url@ && d.host@ == host_spec(url@)
                                && d.status@ == "queued"@)
                        },
                    },
                    None => after == before.push(queued_view(new_id, url@, dest@, q)) && (r matches Ok(d)
                        && d.id == new_id && d.url@ == url@ && d.host@ == host_spec(url@)
                        && d.status@ == "queued"@),
                }
            }
        }),
{
    if dest_in_use(jobs.as_slice(), dest, reuse) {
        let mut m = chars_of("play: already downloading ");
        push_str(&mut m, dest);
        return Err(string_of(m.as_slice()));
    }
    match reuse {
        Some(id) => {
            let k = match find_job(jobs, id) {
                Some(k) => k,
                None => return Err("play: no such job".to_string()),
            };
            proof {
                crate::desk::lemma_first_with_id_range(job_views(jobs@), id, 0);
            }
            if jobs[k].is_active() {
                return Err("play: job is still running".to_string());
            }
            let ghost before = jobs@;
            let job = queued_job(id, url, dest, quality);
            let d = job.dto();
            jobs.set(k, job);
            proof {
                assert(job_views(jobs@) =~= job_views(before).update(k as int, jobs@[k as int]@));
            }
            Ok(d)
        },
        None => {
            let ghost before = jobs@;
            let job = queued_job(new_id, url, dest, quality);
            let d = job.dto();
            jobs.push(job);
            proof {
                assert(job_views(jobs@) =~= job_views(before).push(jobs@.last()@));
            }
            Ok(d)
        },
    }
}

proof fn lemma_first_with_id_range(jobs: Seq<JobView>, id: u64, i: int)
    requires
        0 <= i,
    ensures
        first_with_id(jobs, id, i) matches Some(k) ==> i <= k < jobs.len() && jobs[k].id == id,
    decreases jobs.len() - i,
{
    if i < jobs.len() && jobs[i].id != id {
        lemma_first_with_id_range(jobs, id, i + 1);
    }
}

/// The job with another status.
pub open spec fn with_status(j: JobView, status: Seq<char>) -> JobView {
    JobView { status, ..j }
}

/// The job as the worker starts it: a cancelled job (or one being
/// cancelled) is marked cancelled and not run; otherwise it is running,
/// with its counters and messages cleared.
pub open spec fn started(j: JobView, cancelled: bool) -> JobView {
    if cancelled || j.status == "cancelling"@ {
        JobView { status: "cancelled"@, ..j }
    } else {
        JobView { status: "running"@, error: None, hint: None, done: 0, bytes: 0, ..j }
    }
}

/// The job after a progress report: ignored once cancellation began;
/// otherwise the counters are taken (the total at least 1) and a job whose
/// segments are all written is remuxing.
pub open spec fn progressed(j: JobView, done: usize, total: usize, bytes: u64, cancelled: bool) -> JobView {
    if j.status == "cancelling"@ || j.status == "cancelled"@ || cancelled {
        j
    } else {
        JobView {
            done,
            total: if total > 1 {
                total
            } else {
                1
            },
            bytes,
            status: if done >= total && total > 0 {
                "remuxing"@
            } else {
                j.status
            },
            ..j
        }
    }
}

/// The larger of two counts.
pub open spec fn larger(a: usize, b: usize) -> usize {
    if a >= b {
        a
    } else {
        b
    }
}

/// The job after its download ended: cancelled (no error) when it was
/// cancelled or the error says so; done, at the file written, with the
/// counters full, on success; waiting for a Referer after a 403 whose hint
/// asks for one; else failed with the error's text.
pub open spec fn finished(j: JobView, result: Result<Seq<char>, Error>, cancelled: bool) -> JobView {
    if cancelled {
        JobView { status: "cancelled"@, error: None, ..j }
    } else {
        match result {
            Ok(path) => {
                let d = larger(larger(j.total, j.done), 1);
                JobView { status: "done"@, dest: path, done: d, total: d, ..j }
            },
            Err(e) => if has_infix(error_text(e), "cancelled"@) {
                JobView { status: "cancelled"@, error: None, ..j }
            } else {
                match e {
                    Error::Http { code, hint, .. } => if code == 403 && has_infix(hint@, "--referer"@) {
                        JobView {
                            status: "needReferer"@,
                            hint: Some(hint@),
                            error: Some(error_text(e)),
                            ..j
                        }
                    } else {
                        JobView { status: "error"@, hint: None, error: Some(error_text(e)), ..j }
                    },
                    _ => JobView { status: "error"@, hint: None, error: Some(error_text(e)), ..j },
                }
            },
        }
    }
}

impl Job {
    /// Starts the job; whether the download is to run.
    pub fn start(&mut self, cancelled: bool) -> (go: bool)
        ensures
            final(self)@ == started(old(self)@, cancelled),
            go == !(cancelled || old(self).status@ == "cancelling"@),
    {
        let c = chars_of(self.status.as_str());
        if cancelled || crate::text::eq_str(c.as_slice(), "cancelling") {
            self.status = "cancelled".to_string();
            return false;
        }
        self.status = "running".to_string();
        self.error = None;
        self.hint = None;
        self.done = 0;
        self.bytes = 0;
        true
    }

    /// Takes a progress report; whether to show the job now (when it is
    /// remuxing, or when `due`, i.e. the last update is old enough).
    pub fn progress(&mut self, done: usize, total: usize, bytes: u64, cancelled: bool, due: bool) -> (show: bool)
        ensures
            final(self)@ == progressed(old(self)@, done, total, bytes, cancelled),
            show == (!(old(self).status@ == "cancelling"@ || old(self).status@ == "cancelled"@ || cancelled)
                && (final(self).status@ == "remuxing"@ || due)),
    {
        let c = chars_of(self.status.as_str());
        if crate::text::eq_str(c.as_slice(), "cancelling") || crate::text::eq_str(c.as_slice(), "cancelled")
            || cancelled {
            return false;
        }
        self.done = done;
        self.total = if total > 1 {
            total
        } else {
            1
        };
        self.bytes = bytes;
        if done >= total && total > 0 {
            self.status = "remuxing".to_string();
        }
        let c2 = chars_of(self.status.as_str());
        crate::text::eq_str(c2.as_slice(), "remuxing") || due
    }

    /// Records how the download ended.
    pub fn finish(&mut self, result: Result<String, Error>, cancelled: bool)
        ensures
            final(self)@ == finished(
                old(self)@,
                match result {
                    Ok(p) => Ok(p@),
                    Err(e) => Err(e),
                },
                cancelled,
            ),
    {
        if cancelled {
            self.status = "cancelled".to_string();
            self.error = None;
            return;
        }
        match result {
            Ok(path) => {
                let a = if self.total >= self.done {
                    self.total
                } else {
                    self.done
                };
                let d = if a >= 1 {
                    a
                } else {
                    1
                };
                self.status = "done".to_string();
                self.dest = path;
                self.done = d;
                self.total = d;
            },
            Err(e) => {
                let m = e.message();
                if contains_str(chars_of(m.as_str()).as_slice(), "cancelled") {
                    self.status = "cancelled".to_string();
                    self.error = None;
                    return;
                }
                let referer = match &e {
                    Error::Http { code, hint, .. } => *code == 403 && contains_str(
                        chars_of(hint.as_str()).as_slice(),
                        "--referer",
                    ),
                    _ => false,
                };
                if referer {
                    match &e {
                        Error::Http { hint, .. } => {
                            self.hint = Some(hint.clone());
                        },
                        _ => {},
                    }
                    self.status = "needReferer".to_string();
                } else {
                    self.status = "error".to_string();
                    self.hint = None;
                }
                self.error = Some(m);
            },
        }
    }

    /// A copy of the job.
    pub fn duplicate(&self) -> (r: Job)
        ensures
            r@ == self@,
    {
        Job {
            id: self.id,
            url: self.url.clone(),
            dest: self.dest.clone(),
            quality: self.quality.clone(),
            status: self.status.clone(),
            done: self.done,
            total: self.total,
            bytes: self.bytes,
            error: copy_opt(&self.error),
            hint: copy_opt(&self.hint),
        }
    }

    /// Asks an unfinished job to stop; whether it was unfinished (only then
    /// is it marked as being cancelled).
    pub fn request_cancel(&mut self) -> (was_active: bool)
        ensures
            was_active == job_active(old(self).status@),
            final(self)@ == (if was_active {
                with_status(old(self)@, "cancelling"@)
            } else {
                old(self)@
            }),
    {
        if self.is_active() {
            self.status = "cancelling".to_string();
            true
        } else {
            false
        }
    }
}

/// The unfinished jobs, in order.
pub open spec fn active_jobs(s: Seq<JobView>) -> Seq<JobView>
    decreases s.len(),
{
    if s.len() == 0 {
        seq![]
    } else if job_active(s.last().status) {
        active_jobs(s.drop_last()).push(s.last())
    } else {
        active_jobs(s.drop_last())
    }
}

/// Drops the finished jobs.
pub fn clear_finished(jobs: &mut Vec<Job>)
    ensures
        job_views(final(jobs)@) == active_jobs(job_views(old(jobs)@)),
{
    let ghost start = job_views(jobs@);
    let mut kept: Vec<Job> = Vec::new();
    let mut i: usize = 0;
    while i < jobs.len()
        invariant
            i <= jobs@.len(),
            start == job_views(jobs@),
            job_views(kept@) == active_jobs(start.take(i as int)),
        decreases jobs@.len() - i,
    {
        proof {
            assert(start.take(i + 1).drop_last() =~= start.take(i as int));
            assert(start.take(i + 1).last() == jobs@[i as int]@);
        }
        if jobs[i].is_active() {
            let ghost before = kept@;
            let d = jobs[i].duplicate();
            kept.push(d);
            proof {
                assert(job_views(kept@) =~= job_views(before).push(d@));
            }
        }
        i += 1;
    }
    proof {
        assert(start.take(jobs@.len() as int) =~= start);
    }
    *jobs = kept;
}

/// The jobs as listed, newest first.
pub fn list_jobs(jobs: &[Job]) -> (r: Vec<JobDto>)
    ensures
        r@.len() == jobs@.len(),
        forall|i: int|
            0 <= i < r@.len() ==> (#[trigger] r@[i]).id == jobs@[jobs@.len() - 1 - i].id && r@[i].url@
                == jobs@[jobs@.len() - 1 - i].url@ && r@[i].status@ == jobs@[jobs@.len() - 1 - i].status@
                && r@[i].dest@ == jobs@[jobs@.len() - 1 - i].dest@,
{
    let mut out: Vec<JobDto> = Vec::new();
    let mut k: usize = jobs.len();
    while k > 0
        invariant
            k <= jobs@.len(),
            out@.len() == jobs@.len() - k,
            forall|i: int|
                0 <= i < out@.len() ==> (#[trigger] out@[i]).id == jobs@[jobs@.len() - 1 - i].id
                    && out@[i].url@ == jobs@[jobs@.len() - 1 - i].url@ && out@[i].status@
                    == jobs@[jobs@.len() - 1 - i].status@ && out@[i].dest@ == jobs@[jobs@.len() - 1
                    - i].dest@,
        decreases k,
    {
        k -= 1;
        out.push(jobs[k].dto());
    }
    out
}

/// Once a job is asked to stop, the worker does not run it, progress
/// reports no longer change it, and it ends cancelled.
pub proof fn law_cancel_sticks(
    j: JobView,
    done: usize,
    total: usize,
    bytes: u64,
    c: bool,
    r: Result<Seq<char>, Error>,
)
    ensures
        finished(with_status(j, "cancelling"@), r, true).status == "cancelled"@,
        started(with_status(j, "cancelling"@), c).status == "cancelled"@,
        progressed(with_status(j, "cancelling"@), done, total, bytes, c) == with_status(j, "cancelling"@),
        progressed(with_status(j, "cancelled"@), done, total, bytes, c) == with_status(j, "cancelled"@),
{
}

/// No two jobs share an id, and no two unfinished jobs write to the same
/// file.
pub open spec fn jobs_ok(s: Seq<JobView>) -> bool {
    &&& forall|i: int, j: int| 0 <= i < j < s.len() ==> #[trigger] s[i].id != #[trigger] s[j].id
    &&& forall|i: int, j: int|
        0 <= i < j < s.len() && job_active(#[trigger] s[i].status) && job_active(#[trigger] s[j].status)
            ==> s[i].dest != s[j].dest
}

/// Queuing keeps the job list sound: a new job gets a fresh id, and two
/// unfinished downloads never write to the same file.
pub proof fn law_enqueue_keeps_jobs_ok(
    before: Seq<JobView>,
    new_id: u64,
    url: Seq<char>,
    dest: Seq<char>,
    q: Option<Seq<char>>,
    reuse: Option<u64>,
)
    requires
        jobs_ok(before),
        forall|i: int| 0 <= i < before.len() ==> #[trigger] before[i].id != new_id,
    ensures
        !in_use(before, dest, reuse) ==> match reuse {
            Some(id) => match first_with_id(before, id, 0) {
                Some(k) => !job_active(before[k].status) ==> jobs_ok(
                    before.update(k, queued_view(id, url, dest, q)),
                ),
                None => true,
            },
            None => jobs_ok(before.push(queued_view(new_id, url, dest, q))),
        },
{
    reveal_strlit("queued");
    if !in_use(before, dest, reuse) {
        match reuse {
            Some(id) => {
                lemma_first_with_id_range(before, id, 0);
                if let Some(k) = first_with_id(before, id, 0) {
                    let after = before.update(k, queued_view(id, url, dest, q));
                    assert forall|i: int, j: int|
                        0 <= i < j < after.len() && job_active(#[trigger] after[i].status) && job_active(
                            #[trigger] after[j].status,
                        ) implies after[i].dest != after[j].dest by {
                        if i == k {
                            assert(before[j].id != id);
                            assert(!(job_active(before[j].status) && before[j].dest == dest && reuse
                                != Some(before[j].id)));
                        } else if j == k {
                            assert(before[i].id != id);
                            assert(!(job_active(before[i].status) && before[i].dest == dest && reuse
                                != Some(before[i].id)));
                        }
                    }
                    assert forall|i: int, j: int| 0 <= i < j < after.len() implies #[trigger] after[i].id
                        != #[trigger] after[j].id by {
                        if i == k {
                            assert(before[i].id != before[j].id);
                        } else if j == k {
                            assert(before[i].id != before[j].id);
                        }
                    }
                }
            },
            None => {
                let after = before.push(queued_view(new_id, url, dest, q));
                let n = before.len() as int;
                assert forall|i: int, j: int|
                    0 <= i < j < after.len() && job_active(#[trigger] after[i].status) && job_active(
                        #[trigger] after[j].status,
                    ) implies after[i].dest != after[j].dest by {
                    if j == n {
                        assert(!(job_active(before[i].status) && before[i].dest == dest && reuse != Some(
                            before[i].id,
                        )));
                    }
                }
                assert forall|i: int, j: int| 0 <= i < j < after.len() implies #[trigger] after[i].id
                    != #[trigger] after[j].id by {
                    if j == n {
                        assert(before[i].id != new_id);
                    }
                }
            },
        }
    }
}

} // verus!
