//! The local HTTP proxy VLC plays from: what it holds, how a request path
//! is routed, what a proxied segment is answered with, and the parts of an
//! upstream response it reads.
use vstd::prelude::*;
use vstd::utf8::valid_utf8;
use crate::assoc::Assoc;
use crate::error::Error;
use crate::media::{
    fmp4_head, lemma_png_wrapped_head, law_png_wrapped_ts_unwrapped, png_sig, png_wrapped_ts,
    ts_at,
    error_body, kind_text, looks_like_error_body, min, subtitle_content_type, subtitle_kind,
    subtitle_mime, unwrap_media, unwrap_spec, unwrapped_body,
};
use crate::num::{dec, dec_chars, dec_padded, lemma_dec_padded_parses, parse_uint, parse_unsigned};
use crate::hls::seg_path;
use crate::paths::{file_stem_of, name_stem, path_file_stem, plain_name, last_dot};
use crate::text::{
    before_first, before_first_char, chars_of, ends_with_str, eq_ignore_case, eq_ignore_case_str,
    eq_str, first_match, has_prefix, is_digit, lacks, lemma_first_match, has_suffix, is_white, is_white_char, lines, push_all, push_str,
    slice_chars, split_lines, split_once, split_once_char, starts_with_str, string_of, trim,
    trim_chars,
};

verus! {

// ---------------------------------------------------------------------------
// State
// ---------------------------------------------------------------------------

/// What the proxy serves: the rewritten playlist, the upstream segment
/// URLs by index, extra files by path, or (for a progressive file) the
/// upstream file itself; with the headers sent upstream.
pub struct ProxyState {
    pub playlist: Vec<u8>,
    pub headers: Assoc<String>,
    pub segments: Vec<String>,
    pub files: Assoc<Vec<u8>>,
    pub verbose: bool,
    pub source: Option<String>,
    pub pending_log: Vec<(String, String)>,
    /// Segment errors reported so far.
    pub log_fail: u32,
}

/// Segment errors reported before the rest are dropped.
pub open spec fn log_limit() -> u32 {
    8
}

impl ProxyState {
    /// A proxy state with no files, no source and no errors reported.
    pub fn new(headers: Assoc<String>, segments: Vec<String>, playlist: Vec<u8>, verbose: bool) -> (r: Self)
        ensures
            r.headers@ == headers@,
            r.segments@ == segments@,
            r.playlist@ == playlist@,
            r.verbose == verbose,
            r.files@ == Map::<Seq<char>, Vec<u8>>::empty(),
            r.source is None,
            r.pending_log@ == Seq::<(String, String)>::empty(),
            r.log_fail == 0,
    {
        ProxyState {
            playlist,
            headers,
            segments,
            files: Assoc::new(),
            verbose,
            source: None,
            pending_log: Vec::new(),
            log_fail: 0,
        }
    }

    /// Counts a segment error and gives the message to report: none once
    /// `log_limit()` have been reported; the last one says that further
    /// errors are omitted.
    pub fn log_message(&mut self, msg: &str) -> (r: Option<String>)
        ensures
            old(self).log_fail >= log_limit() ==> r is None && final(self).log_fail
                == old(self).log_fail,
            old(self).log_fail < log_limit() ==> final(self).log_fail == old(self).log_fail + 1
                && (r matches Some(m) && m@ == if final(self).log_fail >= log_limit() {
                msg@ + " (further segment errors omitted)"@
            } else {
                msg@
            }),
            final(self).playlist == old(self).playlist,
            final(self).headers == old(self).headers,
            final(self).segments == old(self).segments,
            final(self).files == old(self).files,
            final(self).source == old(self).source,
            final(self).pending_log == old(self).pending_log,
    {
        if self.log_fail >= 8 {
            return None;
        }
        self.log_fail = self.log_fail + 1;
        if self.log_fail >= 8 {
            let mut m = chars_of(msg);
            push_str(&mut m, " (further segment errors omitted)");
            Some(string_of(m.as_slice()))
        } else {
            Some(msg.to_string())
        }
    }
}

/// The proxy's URL of the video playlist.
pub fn playlist_url_of(base: &str) -> (r: String)
    ensures
        r@ == base@ + "/index.m3u8"@,
{
    let mut c = chars_of(base);
    push_str(&mut c, "/index.m3u8");
    string_of(c.as_slice())
}

/// The proxy's URL of the master playlist with subtitles.
pub fn master_url_of(base: &str) -> (r: String)
    ensures
        r@ == base@ + "/master.m3u8"@,
{
    let mut c = chars_of(base);
    push_str(&mut c, "/master.m3u8");
    string_of(c.as_slice())
}

/// The proxy's URL of a progressive file.
pub fn file_url_of(base: &str) -> (r: String)
    ensures
        r@ == base@ + "/file.mp4"@,
{
    let mut c = chars_of(base);
    push_str(&mut c, "/file.mp4");
    string_of(c.as_slice())
}

// ---------------------------------------------------------------------------
// Routing
// ---------------------------------------------------------------------------

/// The content type of a served file, by extension.
pub open spec fn file_ctype(path: Seq<char>) -> Seq<char> {
    if has_suffix(path, ".m3u8"@) {
        "application/vnd.apple.mpegurl"@
    } else if has_suffix(path, ".vtt"@) || has_suffix(path, ".webvtt"@) {
        "text/vtt"@
    } else if has_suffix(path, ".srt"@) {
        "application/x-subrip"@
    } else if has_suffix(path, ".ass"@) || has_suffix(path, ".ssa"@) {
        "text/x-ssa"@
    } else {
        "application/octet-stream"@
    }
}

/// The content type of a served file.
pub fn file_content_type(path: &str) -> (r: &'static str)
    ensures
        r@ == file_ctype(path@),
{
    let c = chars_of(path);
    let p = c.as_slice();
    if ends_with_str(p, ".m3u8") {
        "application/vnd.apple.mpegurl"
    } else if ends_with_str(p, ".vtt") || ends_with_str(p, ".webvtt") {
        "text/vtt"
    } else if ends_with_str(p, ".srt") {
        "application/x-subrip"
    } else if ends_with_str(p, ".ass") || ends_with_str(p, ".ssa") {
        "text/x-ssa"
    } else {
        "application/octet-stream"
    }
}

/// Where a proxy request goes.
pub enum Route {
    /// A stored file at this path.
    File { path: String },
    /// The upstream progressive file.
    Source { url: String },
    /// The rewritten playlist.
    Playlist,
    /// Segment `index`, fetched from `upstream`; `rest` is the path after
    /// `/seg/`.
    Segment { index: usize, upstream: String, is_key: bool, rest: String },
    /// A `/seg/` path without a valid index.
    BadSegment,
    /// Anything else.
    NotFound,
}

/// `Route` as plain values.
pub enum RouteView {
    File(Seq<char>),
    Source(Seq<char>),
    Playlist,
    Segment { index: nat, upstream: Seq<char>, is_key: bool, rest: Seq<char> },
    BadSegment,
    NotFound,
}

impl View for Route {
    type V = RouteView;

    open spec fn view(&self) -> RouteView {
        match self {
            Route::File { path } => RouteView::File(path@),
            Route::Source { url } => RouteView::Source(url@),
            Route::Playlist => RouteView::Playlist,
            Route::Segment { index, upstream, is_key, rest } => RouteView::Segment {
                index: *index as nat,
                upstream: upstream@,
                is_key: *is_key,
                rest: rest@,
            },
            Route::BadSegment => RouteView::BadSegment,
            Route::NotFound => RouteView::NotFound,
        }
    }
}

/// Where a `/seg/{rest}` request goes: the file stem of `rest` must be the
/// index of a known segment.
pub open spec fn seg_route_spec(segments: Seq<Seq<char>>, rest: Seq<char>) -> RouteView {
    let stem = match file_stem_of(rest) {
        Some(t) => t,
        None => Seq::<char>::empty(),
    };
    match parse_unsigned(stem, usize::MAX as nat) {
        None => RouteView::BadSegment,
        Some(i) => if i < segments.len() {
            RouteView::Segment {
                index: i,
                upstream: segments[i as int],
                is_key: has_suffix(rest, ".key"@),
                rest,
            }
        } else {
            RouteView::BadSegment
        },
    }
}

/// Where a request for `url` goes: a stored file at its path (query
/// ignored) first; then, for a file proxy, the upstream file; then the
/// playlist at `/`, `/index.m3u8` or `/playlist.m3u8`; then
/// `/seg/{index}.{ext}`, whose file stem must be the index of a known
/// segment.
pub open spec fn route_spec(
    files: Map<Seq<char>, Vec<u8>>,
    source: Option<Seq<char>>,
    segments: Seq<Seq<char>>,
    url: Seq<char>,
) -> RouteView {
    let path = before_first(url, '?');
    if files.contains_key(path) {
        RouteView::File(path)
    } else {
        match source {
            Some(s) => RouteView::Source(s),
            None => if path == "/"@ || path == "/index.m3u8"@ || path == "/playlist.m3u8"@ {
                RouteView::Playlist
            } else if has_prefix(path, "/seg/"@) {
                seg_route_spec(segments, path.skip("/seg/"@.len() as int))
            } else {
                RouteView::NotFound
            },
        }
    }
}

/// An extension that keeps a segment file name bare: no `.`, separator,
/// drive colon or query mark.
pub open spec fn plain_ext(ext: Seq<char>) -> bool {
    lacks(ext, '.') && lacks(ext, '/') && lacks(ext, '\\') && lacks(ext, ':') && lacks(ext, '?')
}

/// The route of the proxy path of segment `n` (the path part of `seg_url`).
pub open spec fn seg_path_route(segments: Seq<Seq<char>>, n: nat, ext: Seq<char>) -> RouteView {
    RouteView::Segment {
        index: n,
        upstream: segments[n as int],
        is_key: ext == "key"@,
        rest: dec_padded(n, 5) + seq!['.'] + ext,
    }
}

proof fn lemma_lacks_split(s: Seq<char>, c: char)
    requires
        lacks(s, c),
    ensures
        split_once(s, c) is None,
        before_first(s, c) == s,
{
    lemma_first_match(s, seq![c], 0);
    if let Some(i) = first_match(s, seq![c], 0) {
        assert(s.subrange(i, i + 1)[0] == s[i]);
    }
}

proof fn lemma_last_dot_is(s: Seq<char>, i: int)
    requires
        0 <= i < s.len(),
        s[i] == '.',
        forall|j: int| i < j < s.len() ==> s[j] != '.',
    ensures
        last_dot(s) == Some(i),
    decreases s.len(),
{
    if s.last() != '.' {
        lemma_last_dot_is(s.drop_last(), i);
    }
}

/// What the path of segment `n`'s proxy URL is made of.
proof fn lemma_seg_path(n: nat, ext: Seq<char>)
    requires
        n <= usize::MAX,
        plain_ext(ext),
    ensures
        before_first(seg_path(n, ext), '?') == seg_path(n, ext),
        seg_path(n, ext) != "/"@,
        seg_path(n, ext) != "/index.m3u8"@,
        seg_path(n, ext) != "/playlist.m3u8"@,
        has_prefix(seg_path(n, ext), "/seg/"@),
        seg_path(n, ext).skip("/seg/"@.len() as int) == dec_padded(n, 5) + seq!['.'] + ext,
        plain_name(dec_padded(n, 5) + seq!['.'] + ext),
        name_stem(dec_padded(n, 5) + seq!['.'] + ext) == dec_padded(n, 5),
        parse_unsigned(dec_padded(n, 5), usize::MAX as nat) == Some(n),
        has_suffix(dec_padded(n, 5) + seq!['.'] + ext, ".key"@) == (ext == "key"@),
{
    reveal_strlit("/seg/");
    reveal_strlit("/");
    reveal_strlit("/index.m3u8");
    reveal_strlit("/playlist.m3u8");
    reveal_strlit(".key");
    reveal_strlit("key");
    lemma_dec_padded_parses(n, 5, usize::MAX as nat);
    let d = dec_padded(n, 5);
    let rest = d + seq!['.'] + ext;
    let p = seg_path(n, ext);
    assert(p =~= "/seg/"@ + rest);
    assert(p.skip(5) =~= rest);
    assert(p.subrange(0, 5) =~= "/seg/"@);
    assert forall|i: int| 0 <= i < rest.len() implies rest[i] != '?' && rest[i] != '/'
        && rest[i] != '\\' && rest[i] != ':' by {
        if i < d.len() {
            assert(is_digit(d[i]));
        } else if i > d.len() {
            assert(rest[i] == ext[i - d.len() - 1]);
        }
    }
    assert(lacks(p, '?')) by {
        assert forall|i: int| 0 <= i < p.len() implies p[i] != '?' by {
            if i >= 5 {
                assert(p[i] == rest[i - 5]);
            }
        }
    }
    lemma_lacks_split(p, '?');
    assert(p[1] == 's');
    assert("/index.m3u8"@[1] == 'i');
    assert("/playlist.m3u8"@[1] == 'p');
    assert(p.len() > 1);
    assert(is_digit(d[0]));
    assert(rest[0] == d[0]);
    assert forall|j: int| d.len() < j < rest.len() implies rest[j] != '.' by {
        assert(rest[j] == ext[j - d.len() - 1]);
    }
    lemma_last_dot_is(rest, d.len() as int);
    assert(rest.take(d.len() as int) =~= d);
    if ext == "key"@ {
        assert(rest.subrange(rest.len() - 4, rest.len() as int) =~= ".key"@);
    } else if has_suffix(rest, ".key"@) {
        let k = rest.len() - 4;
        assert(rest.subrange(k, rest.len() as int)[0] == '.');
        assert(rest[k] == '.');
        if k > d.len() {
            assert(rest[k] == ext[k - d.len() - 1]);
        } else if k < d.len() {
            assert(is_digit(d[k]));
            assert(rest[k] == d[k]);
        }
        assert(k == d.len());
        assert(ext.len() == 3);
        assert forall|j: int| 0 <= j < 3 implies ext[j] == "key"@[j] by {
            assert(rest.subrange(k, rest.len() as int)[j + 1] == rest[k + j + 1]);
        }
        assert(ext =~= "key"@);
    }
}

/// Requests for `/seg/...`.
fn seg_route(state: &ProxyState, p: &[char]) -> (r: Route)
    requires
        has_prefix(p@, "/seg/"@),
    ensures
        r@ == seg_route_spec(crate::curl::string_views(state.segments@), p@.skip("/seg/"@.len() as int)),
        plain_name(p@.skip("/seg/"@.len() as int)) ==> file_stem_of(p@.skip("/seg/"@.len() as int))
            == Some(name_stem(p@.skip("/seg/"@.len() as int))),
{
    let pre = chars_of("/seg/");
    let len = p.len();
    let rest_c = slice_chars(p, pre.len(), len);
    assert(rest_c@ =~= p@.skip("/seg/"@.len() as int));
    let rest = string_of(rest_c.as_slice());
    let stem = match path_file_stem(rest.as_str()) {
        Some(t) => t,
        None => String::new(),
    };
    let sc = chars_of(stem.as_str());
    let max: u64 = usize::MAX as u64;
    let idx = match parse_uint(sc.as_slice(), max) {
        Some(i) => i as usize,
        None => return Route::BadSegment,
    };
    if idx >= state.segments.len() {
        return Route::BadSegment;
    }
    let is_key = ends_with_str(rest_c.as_slice(), ".key");
    Route::Segment { index: idx, upstream: state.segments[idx].clone(), is_key, rest }
}

/// Routes a proxy request. The path of a segment URL the playlist rewrite
/// made (`seg_path`) is answered from the upstream segment it stands for.
pub fn route_request(state: &ProxyState, url: &str) -> (r: Route)
    ensures
        r@ == route_spec(
            state.files@,
            crate::weburl::opt_view(state.source),
            crate::curl::string_views(state.segments@),
            url@,
        ),
        forall|n: nat, ext: Seq<char>|
            url@ == #[trigger] seg_path(n, ext) && n < state.segments@.len() && plain_ext(ext)
                && !state.files@.contains_key(url@) && state.source is None ==> r@
                == seg_path_route(crate::curl::string_views(state.segments@), n, ext),
{
    let uc = chars_of(url);
    let pc = before_first_char(uc.as_slice(), '?');
    let path = string_of(pc.as_slice());
    let p = pc.as_slice();
    let r = if state.files.contains_key(path.as_str()) {
        Route::File { path }
    } else if let Some(s) = &state.source {
        Route::Source { url: s.clone() }
    } else if eq_str(p, "/") || eq_str(p, "/index.m3u8") || eq_str(p, "/playlist.m3u8") {
        Route::Playlist
    } else if !starts_with_str(p, "/seg/") {
        Route::NotFound
    } else {
        seg_route(state, p)
    };
    proof {
        let ghost seg_len: usize = state.segments.len();
        assert(state.segments@.len() == seg_len);
        assert forall|n: nat, ext: Seq<char>|
            url@ == #[trigger] seg_path(n, ext) && n < state.segments@.len() && plain_ext(ext)
                && !state.files@.contains_key(url@) && state.source is None implies r@
                == seg_path_route(crate::curl::string_views(state.segments@), n, ext) by {
            lemma_seg_path(n, ext);
        }
    }
    r
}

// ---------------------------------------------------------------------------
// Segment replies
// ---------------------------------------------------------------------------

/// The answer to a proxied segment request.
pub struct SegmentReply {
    pub body: Vec<u8>,
    pub content_type: &'static str,
    /// The unwrapped body looks like an error page, worth a warning.
    pub suspicious: bool,
}

/// The answer to a segment request given the upstream body: keys and
/// subtitles pass through; media is unwrapped from any decoy prefix and
/// typed as TS or fMP4 (subtitle segment paths keep their file type).
pub open spec fn reply_spec(rest: Seq<char>, is_key: bool, body: Seq<u8>) -> (Seq<u8>, Seq<char>, bool) {
    if is_key {
        (body, "application/octet-stream"@, false)
    } else if subtitle_mime(subtitle_kind(body)) is Some {
        (body, subtitle_mime(subtitle_kind(body))->0, false)
    } else {
        let out = unwrapped_body(body);
        let kind_m4s = unwrap_spec(body.take(min(body.len() as int, 65536))).1;
        let ctype = if has_suffix(rest, ".vtt"@) || has_suffix(rest, ".srt"@) {
            file_ctype(rest)
        } else if kind_m4s {
            "video/mp4"@
        } else {
            "video/MP2T"@
        };
        (out, ctype, error_body(out))
    }
}

/// A media segment disguised behind a PNG image (see `png_wrapped_ts`) is
/// served as the MPEG-TS alone, from its first sync byte, typed
/// `video/MP2T` unless the request names a subtitle file. The image and
/// the first three packets lie in the first 64 KiB that are sniffed.
pub proof fn law_png_wrapped_ts_served_from_sync(rest: Seq<char>, png: Seq<u8>, ts: Seq<u8>)
    requires
        png_wrapped_ts(png, ts),
        png.len() + min(ts.len() as int, 564) <= 65536,
    ensures
        reply_spec(rest, false, png + ts).0 == ts,
        !(has_suffix(rest, ".vtt"@) || has_suffix(rest, ".srt"@)) ==> reply_spec(rest, false, png + ts).1
            == "video/MP2T"@,
{
    let body = png + ts;
    let n = min(body.len() as int, 65536);
    assert(png.subrange(0, 8)[0] == png_sig()[0]);
    // Not a subtitle: the body starts with a UTF-8 continuation byte.
    let sub = body.take(min(body.len() as int, 96));
    assert(sub[0] == 0x89u8);
    assert(!valid_utf8(sub));
    assert(subtitle_kind(body) is None);
    lemma_png_wrapped_head(png, ts, n);
    law_png_wrapped_ts_unwrapped(png, ts.take(n - png.len()));
    assert(body.skip(png.len() as int) =~= ts);
}

/// A segment that already starts as MPEG-TS or fMP4, and is no subtitle,
/// is served byte for byte as fetched.
pub proof fn law_plain_segment_served_unchanged(rest: Seq<char>, body: Seq<u8>)
    requires
        ts_at(body, 0) || fmp4_head(body),
        subtitle_kind(body) is None,
    ensures
        reply_spec(rest, false, body).0 == body,
        !(has_suffix(rest, ".vtt"@) || has_suffix(rest, ".srt"@)) ==> reply_spec(rest, false, body).1
            == (if fmp4_head(body) {
            "video/mp4"@
        } else {
            "video/MP2T"@
        }),
{
    crate::media::law_plain_segment_unchanged(body);
    let head = body.take(min(body.len() as int, 65536));
    assert(head.take(min(head.len() as int, 64)) =~= body.take(min(body.len() as int, 64)));
    if body.len() > 65536 {
        assert(head[0] == body[0]);
        assert(head[188] == body[188]);
        assert(head[376] == body[376]);
    } else {
        assert(head =~= body);
    }
}

/// Answers a segment request from the upstream body.
pub fn segment_reply(rest: &str, is_key: bool, body: Vec<u8>) -> (r: SegmentReply)
    ensures
        (r.body@, r.content_type@, r.suspicious) == reply_spec(rest@, is_key, body@),
{
    if is_key {
        return SegmentReply { body, content_type: "application/octet-stream", suspicious: false };
    }
    match subtitle_content_type(body.as_slice()) {
        Some(ct) => return SegmentReply { body, content_type: ct, suspicious: false },
        None => {},
    }
    let n = if body.len() < 65536 {
        body.len()
    } else {
        65536
    };
    let head = &body.as_slice()[0..n];
    assert(head@ == body@.take(min(body@.len() as int, 65536)));
    let (skip, kind) = unwrap_media(head);
    proof {
        reveal_strlit("m4s");
        reveal_strlit("ts");
        assert("m4s"@.len() == 3);
        assert("ts"@.len() == 2);
    }
    let out = crate::media::unwrap_media_body(body.as_slice());
    let suspicious = looks_like_error_body(out.as_slice());
    let rc = chars_of(rest);
    let content_type = if ends_with_str(rc.as_slice(), ".vtt") || ends_with_str(rc.as_slice(), ".srt") {
        file_content_type(rest)
    } else if eq_str(chars_of(kind).as_slice(), "m4s") {
        "video/mp4"
    } else {
        "video/MP2T"
    };
    SegmentReply { body: out, content_type, suspicious }
}

/// The status, body and log line when fetching segment `index` from
/// `upstream` failed: an HTTP status is passed on, anything else is a 502.
pub fn upstream_failure(index: u64, upstream: &str, e: &Error) -> (r: (u16, String, String))
    ensures
        match e {
            Error::Http { code, .. } => r.0 == *code && r.1@ == "upstream "@ + dec(*code as nat)
                && r.2@ == "seg "@ + dec(index as nat) + " "@ + upstream@ + " → HTTP "@ + dec(
                *code as nat,
            ),
            _ => r.0 == 502 && r.1@ == "upstream failed"@ && r.2@ == "seg "@ + dec(index as nat)
                + " "@ + upstream@ + " → upstream failed"@,
        },
{
    let mut log = chars_of("seg ");
    let d = dec_chars(index);
    push_all(&mut log, d.as_slice());
    push_str(&mut log, " ");
    push_str(&mut log, upstream);
    match e {
        Error::Http { code, .. } => {
            let cd = dec_chars(*code as u64);
            push_str(&mut log, " → HTTP ");
            push_all(&mut log, cd.as_slice());
            let mut body = chars_of("upstream ");
            push_all(&mut body, cd.as_slice());
            (*code, string_of(body.as_slice()), string_of(log.as_slice()))
        },
        _ => {
            push_str(&mut log, " → upstream failed");
            (502, "upstream failed".to_string(), string_of(log.as_slice()))
        },
    }
}

// ---------------------------------------------------------------------------
// Upstream file responses
// ---------------------------------------------------------------------------

/// The white-space separated words of `s` from index `i`, with `cur` the
/// word being read (`str::split_whitespace`).
pub open spec fn words_from(s: Seq<char>, i: int, cur: Seq<char>) -> Seq<Seq<char>>
    decreases s.len() - i,
{
    if i < 0 || i >= s.len() {
        if cur.len() > 0 {
            seq![cur]
        } else {
            seq![]
        }
    } else if is_white(s[i]) {
        if cur.len() > 0 {
            seq![cur] + words_from(s, i + 1, seq![])
        } else {
            words_from(s, i + 1, seq![])
        }
    } else {
        words_from(s, i + 1, cur.push(s[i]))
    }
}

/// The second white-space separated word of `s`, if any.
fn second_word(s: &[char]) -> (r: Option<Vec<char>>)
    ensures
        match r {
            Some(w) => words_from(s@, 0, seq![]).len() >= 2 && words_from(s@, 0, seq![])[1] == w@,
            None => words_from(s@, 0, seq![]).len() < 2,
        },
{
    let ghost total = words_from(s@, 0, seq![]);
    let mut done: Vec<Vec<char>> = Vec::new();
    let mut cur: Vec<char> = Vec::new();
    let mut i: usize = 0;
    proof {
        assert(crate::curl::char_views(done@) + total =~= total);
    }
    while i < s.len()
        invariant
            i <= s@.len(),
            total == words_from(s@, 0, seq![]),
            crate::curl::char_views(done@) + words_from(s@, i as int, cur@) == total,
        decreases s@.len() - i,
    {
        let c = s[i];
        if is_white_char(c) {
            if cur.len() > 0 {
                let ghost before = done@;
                let ghost w = cur@;
                done.push(cur);
                cur = Vec::new();
                proof {
                    assert(crate::curl::char_views(done@) =~= crate::curl::char_views(before).push(w));
                    let rest = words_from(s@, i + 1, seq![]);
                    assert(crate::curl::char_views(before) + (seq![w] + rest) =~= crate::curl::char_views(
                        done@,
                    ) + rest);
                    assert(cur@ =~= Seq::<char>::empty());
                }
            } else {
                assert(cur@ =~= Seq::<char>::empty());
            }
        } else {
            cur.push(c);
        }
        i += 1;
    }
    if cur.len() > 0 {
        let ghost before = done@;
        let ghost w = cur@;
        done.push(cur);
        proof {
            assert(crate::curl::char_views(done@) =~= crate::curl::char_views(before).push(w));
            assert(crate::curl::char_views(before) + seq![w] =~= crate::curl::char_views(done@));
        }
    } else {
        assert(crate::curl::char_views(done@) + Seq::<Seq<char>>::empty() =~= crate::curl::char_views(done@));
    }
    if done.len() >= 2 {
        assert(crate::curl::char_views(done@)[1] == done@[1]@);
        Some(crate::text::copy_chars(done[1].as_slice()))
    } else {
        None
    }
}

/// `s` without its trailing `c` characters.
pub open spec fn strip_trailing(s: Seq<char>, c: char) -> Seq<char>
    decreases s.len(),
{
    if s.len() > 0 && s.last() == c {
        strip_trailing(s.drop_last(), c)
    } else {
        s
    }
}

fn strip_trailing_exec(s: &[char], c: char) -> (r: Vec<char>)
    ensures
        r@ == strip_trailing(s@, c),
{
    let mut n = s.len();
    proof {
        assert(s@.take(n as int) =~= s@);
    }
    while n > 0 && s[n - 1] == c
        invariant
            n <= s@.len(),
            strip_trailing(s@.take(n as int), c) == strip_trailing(s@, c),
        decreases n,
    {
        proof {
            assert(s@.take(n as int).drop_last() =~= s@.take(n - 1));
        }
        n -= 1;
    }
    slice_chars(s, 0, n)
}

/// What the proxy reads of an upstream response head: the status (from
/// the status line's second word; 0 when missing or not a number), the
/// Content-Type (`video/mp4` when absent), the Content-Length and the
/// Content-Range (header names in any ASCII case; the last of each wins).
pub struct UpstreamHead {
    pub code: u16,
    pub content_type: Seq<char>,
    pub content_length: Option<nat>,
    pub content_range: Option<Seq<char>>,
}

/// The status of a status line.
pub open spec fn status_code(line: Seq<char>) -> u16 {
    let p = words_from(strip_trailing(line, '\r'), 0, seq![]);
    if p.len() >= 2 {
        match parse_unsigned(p[1], 65535) {
            Some(v) => v as u16,
            None => 0,
        }
    } else {
        0
    }
}

/// The head after reading header lines `1..n` (stopping at the first
/// empty line).
pub open spec fn head_from(ls: Seq<Seq<char>>, n: int) -> (UpstreamHead, bool)
    decreases n,
{
    if n <= 1 {
        (
            UpstreamHead {
                code: if ls.len() > 0 {
                    status_code(ls[0])
                } else {
                    0
                },
                content_type: "video/mp4"@,
                content_length: None,
                content_range: None,
            },
            false,
        )
    } else {
        let (h, stopped) = head_from(ls, n - 1);
        let line = strip_trailing(ls[n - 1], '\r');
        if stopped || line.len() == 0 {
            (h, true)
        } else {
            match split_once(line, ':') {
                None => (h, false),
                Some((k0, v0)) => {
                    let k = trim(k0);
                    let v = trim(v0);
                    if eq_ignore_case(k, "content-type"@) {
                        (UpstreamHead { content_type: v, ..h }, false)
                    } else if eq_ignore_case(k, "content-length"@) {
                        (UpstreamHead { content_length: parse_unsigned(v, usize::MAX as nat), ..h }, false)
                    } else if eq_ignore_case(k, "content-range"@) {
                        (UpstreamHead { content_range: Some(v), ..h }, false)
                    } else {
                        (h, false)
                    }
                },
            }
        }
    }
}

/// What the proxy reads of an upstream response head.
pub open spec fn upstream_head(text: Seq<char>) -> UpstreamHead {
    let ls = lines(text);
    head_from(ls, ls.len() as int).0
}

/// Reads the status, Content-Type, Content-Length and Content-Range of an
/// upstream response head.
pub fn parse_upstream_headers(text: &str) -> (r: (u16, String, Option<usize>, Option<String>))
    ensures
        r.0 == upstream_head(text@).code,
        r.1@ == upstream_head(text@).content_type,
        match r.2 {
            Some(n) => upstream_head(text@).content_length == Some(n as nat),
            None => upstream_head(text@).content_length is None,
        },
        crate::weburl::opt_view(r.3) == upstream_head(text@).content_range,
{
    let tc = chars_of(text);
    let ls = split_lines(tc.as_slice());
    let ghost lv = lines(text@);
    let mut code: u16 = 0;
    if ls.len() > 0 {
        assert(ls@[0]@ == lv[0]);
        let first = strip_trailing_exec(ls[0].as_slice(), '\r');
        code = match second_word(first.as_slice()) {
            Some(w) => match parse_uint(w.as_slice(), 65535) {
                Some(v) => v as u16,
                None => 0,
            },
            None => 0,
        };
    }
    let mut ctype = "video/mp4".to_string();
    let mut clen: Option<usize> = None;
    let mut crange: Option<String> = None;
    let mut stopped = false;
    let mut i: usize = 1;
    let max: u64 = usize::MAX as u64;
    while i < ls.len()
        invariant
            1 <= i,
            i <= ls@.len() || (ls@.len() == 0 && i == 1),
            lv == lines(text@),
            ls@.len() == lv.len(),
            max == usize::MAX,
            forall|k: int| 0 <= k < ls@.len() ==> #[trigger] ls@[k]@ == lv[k],
            ({
                let (h, st) = head_from(lv, i as int);
                &&& h.code == code
                &&& h.content_type == ctype@
                &&& h.content_length == match clen {
                    Some(n) => Some(n as nat),
                    None => None,
                }
                &&& h.content_range == crate::weburl::opt_view(crange)
                &&& st == stopped
            }),
        decreases ls@.len() - i,
    {
        assert(ls@[i as int]@ == lv[i as int]);
        let line = strip_trailing_exec(ls[i].as_slice(), '\r');
        if stopped || line.len() == 0 {
            stopped = true;
        } else {
            match split_once_char(line.as_slice(), ':') {
                None => {},
                Some((k0, v0)) => {
                    let k = trim_chars(k0.as_slice());
                    let v = trim_chars(v0.as_slice());
                    if eq_ignore_case_str(k.as_slice(), "content-type") {
                        ctype = string_of(v.as_slice());
                    } else if eq_ignore_case_str(k.as_slice(), "content-length") {
                        clen = match parse_uint(v.as_slice(), max) {
                            Some(n) => Some(n as usize),
                            None => None,
                        };
                    } else if eq_ignore_case_str(k.as_slice(), "content-range") {
                        crange = Some(string_of(v.as_slice()));
                    }
                },
            }
        }
        i += 1;
    }
    proof {
        let (h, st) = head_from(lv, i as int);
        assert(h.content_type == ctype@);
        assert(upstream_head(text@) == head_from(lv, lv.len() as int).0);
        if ls@.len() == 0 {
            assert(head_from(lv, 0).0 == head_from(lv, 1).0);
            assert(h == head_from(lv, lv.len() as int).0);
        } else {
            assert(i == ls@.len());
            assert(h == head_from(lv, lv.len() as int).0);
        }
    }
    (code, ctype, clen, crange)
}

/// The curl `-r` range for an upstream file request: the client's
/// `Range: bytes=...` value when not empty, else `0-0` for a HEAD request.
pub open spec fn range_arg(range: Option<Seq<char>>, is_head: bool) -> Option<Seq<char>> {
    match range {
        Some(r) => if has_prefix(r, "bytes="@) && r.len() > "bytes="@.len() {
            Some(r.skip("bytes="@.len() as int))
        } else if is_head {
            Some("0-0"@)
        } else {
            None
        },
        None => if is_head {
            Some("0-0"@)
        } else {
            None
        },
    }
}

/// The byte range to ask upstream for.
pub fn curl_range(range: Option<&str>, is_head: bool) -> (r: Option<String>)
    ensures
        crate::weburl::opt_view(r) == range_arg(
            match range {
                Some(s) => Some(s@),
                None => None,
            },
            is_head,
        ),
{
    match range {
        Some(rv) => {
            let rc = chars_of(rv);
            let pre = chars_of("bytes=");
            if starts_with_str(rc.as_slice(), "bytes=") && rc.len() > pre.len() {
                let len = rc.len();
                let t = slice_chars(rc.as_slice(), pre.len(), len);
                assert(t@ =~= rc@.skip("bytes="@.len() as int));
                return Some(string_of(t.as_slice()));
            }
        },
        None => {},
    }
    if is_head {
        Some("0-0".to_string())
    } else {
        None
    }
}

/// The text after the last `/` (all of `s` when there is none).
pub open spec fn after_last_slash(s: Seq<char>) -> Seq<char>
    decreases s.len(),
{
    if s.len() == 0 {
        s
    } else if s.last() == '/' {
        Seq::<char>::empty()
    } else {
        after_last_slash(s.drop_last()).push(s.last())
    }
}

/// The size a HEAD answer reports: the total after `/` in the
/// Content-Range when it is a number, else the Content-Length.
pub open spec fn head_size(crange: Option<Seq<char>>, clen: Option<nat>) -> Option<nat> {
    match crange {
        Some(cr) => match parse_unsigned(after_last_slash(cr), usize::MAX as nat) {
            Some(n) => Some(n),
            None => clen,
        },
        None => clen,
    }
}

/// The size to report for a HEAD request.
pub fn head_content_size(crange: Option<&str>, clen: Option<usize>) -> (r: Option<usize>)
    ensures
        match r {
            Some(n) => head_size(
                match crange {
                    Some(s) => Some(s@),
                    None => None,
                },
                match clen {
                    Some(c) => Some(c as nat),
                    None => None,
                },
            ) == Some(n as nat),
            None => head_size(
                match crange {
                    Some(s) => Some(s@),
                    None => None,
                },
                match clen {
                    Some(c) => Some(c as nat),
                    None => None,
                },
            ) is None,
        },
{
    match crange {
        Some(cr) => {
            let c = chars_of(cr);
            let mut j = c.len();
            proof {
                assert(c@.take(j as int) =~= c@);
            }
            let ghost whole = after_last_slash(c@);
            while j > 0 && c[j - 1] != '/'
                invariant
                    j <= c@.len(),
                    whole == after_last_slash(c@),
                    whole == after_last_slash(c@.take(j as int)) + c@.skip(j as int),
                decreases j,
            {
                proof {
                    assert(c@.take(j as int).drop_last() =~= c@.take(j - 1));
                    assert(after_last_slash(c@.take(j - 1)).push(c@[j - 1]) + c@.skip(j as int)
                        =~= after_last_slash(c@.take(j - 1)) + c@.skip(j - 1));
                }
                j -= 1;
            }
            let len = c.len();
            let tail = slice_chars(c.as_slice(), j, len);
            proof {
                if j > 0 {
                    assert(c@.take(j as int).last() == '/');
                }
                assert(tail@ =~= whole);
            }
            let max: u64 = usize::MAX as u64;
            match parse_uint(tail.as_slice(), max) {
                Some(n) => Some(n as usize),
                None => clen,
            }
        },
        None => clen,
    }
}

} // verus!
