//! HLS playlist text: attribute lookup, subtitle renditions, variant
//! streams, the local master playlist, media-playlist rewriting for the
//! proxy, and the hints and URLs read from a media playlist.
use vstd::prelude::*;
use crate::num::{dec_padded, dec_padded_chars, parse_uint, parse_unsigned};
use crate::text::{
    ascii_lower, chars_eq, chars_of, concat, contains_str, eq_ignore_case, eq_ignore_case_str,
    find, find_char, first_match, has_infix, has_prefix, is_digit, join_pieces, join_with,
    lemma_first_match, lines, occurs_at, push_all, push_str, replace_all, replace_chars,
    same_text, single, slice_chars, split_lines, starts_with_str, string_of, to_ascii_lower,
    trim, trim_chars, has_suffix, ends_with_str, trim_start, trim_start_chars, debug_quoted,
    debug_text, dec_digit_char, is_dec_digit,
};
use crate::error::Error;
use crate::media::{
    error_body, kind_text, looks_like_error_body, lossy_chars, min, subtitle_content_type,
    subtitle_kind, subtitle_mime, unwrap_media, unwrap_media_body, unwrap_spec, unwrapped_body,
    utf8_lossy,
};
use crate::urls::{ci_char, ci_prefix, first_url_param, first_url_value, join_spec, join_url};
use crate::variants::{Variant, VariantView};
use crate::weburl::{parse_url, url_parse};

verus! {

// ---------------------------------------------------------------------------
// Attributes
// ---------------------------------------------------------------------------

/// The value of attribute `key` on a tag line: found by the first
/// ASCII-case-insensitive `key=`, then either a `"quoted"` value (`None`
/// without a closing quote) or everything up to the next `,`.
pub open spec fn hls_attr_spec(line: Seq<char>, key: Seq<char>) -> Option<Seq<char>> {
    let needle = key.push('=');
    match first_match(ascii_lower(line), ascii_lower(needle), 0) {
        None => None,
        Some(i) => {
            let rest = line.skip(i + needle.len());
            if rest.len() > 0 && rest[0] == '"' {
                match first_match(rest.drop_first(), seq!['"'], 0) {
                    Some(e) => Some(rest.drop_first().take(e)),
                    None => None,
                }
            } else {
                match first_match(rest, seq![','], 0) {
                    Some(e) => Some(rest.take(e)),
                    None => Some(rest),
                }
            }
        },
    }
}

/// The value of attribute `key` on a tag line.
pub fn hls_attr(line: &[char], key: &str) -> (r: Option<Vec<char>>)
    ensures
        match r {
            Some(v) => hls_attr_spec(line@, key@) == Some(v@),
            None => hls_attr_spec(line@, key@) is None,
        },
{
    let mut needle = chars_of(key);
    needle.push('=');
    let ll = to_ascii_lower(line);
    let ln = to_ascii_lower(needle.as_slice());
    let i = match find(ll.as_slice(), ln.as_slice()) {
        Some(i) => i,
        None => return None,
    };
    proof {
        lemma_first_match(ll@, ln@, 0);
        assert(ll@.len() == line@.len());
        assert(ln@.len() == needle@.len());
    }
    let len = line.len();
    let rest = slice_chars(line, i + needle.len(), len);
    assert(rest@ =~= line@.skip(i + needle@.len()));
    if rest.len() > 0 && rest[0] == '"' {
        let inner = slice_chars(rest.as_slice(), 1, rest.len());
        assert(inner@ =~= rest@.drop_first());
        match find_char(inner.as_slice(), '"') {
            Some(e) => {
                proof {
                    lemma_first_match(inner@, seq!['"'], 0);
                }
                Some(slice_chars(inner.as_slice(), 0, e))
            },
            None => None,
        }
    } else {
        match find_char(rest.as_slice(), ',') {
            Some(e) => {
                proof {
                    lemma_first_match(rest@, seq![','], 0);
                }
                Some(slice_chars(rest.as_slice(), 0, e))
            },
            None => Some(rest),
        }
    }
}

/// A `name"value"` attribute starting at index `q` of `s` (as the pattern
/// `NAME="([^"]+)"` matches there): the non-empty value before the next `"`.
pub open spec fn quoted_attr_at(s: Seq<char>, name: Seq<char>, q: int) -> Option<Seq<char>> {
    if occurs_at(s, name, q) {
        let rest = s.skip(q + name.len());
        match first_match(rest, seq!['"'], 0) {
            Some(k) => if k >= 1 {
                Some(rest.take(k))
            } else {
                None
            },
            None => None,
        }
    } else {
        None
    }
}

/// The first attribute match at or after `from`: its start and value.
pub open spec fn first_quoted_attr(s: Seq<char>, name: Seq<char>, from: int) -> Option<(int, Seq<char>)>
    decreases s.len() - from,
{
    if from < 0 || from >= s.len() {
        None
    } else {
        match quoted_attr_at(s, name, from) {
            Some(v) => Some((from, v)),
            None => first_quoted_attr(s, name, from + 1),
        }
    }
}

/// The value of the first `name"..."` attribute of `s`.
pub open spec fn quoted_value(s: Seq<char>, name: Seq<char>) -> Option<Seq<char>> {
    match first_quoted_attr(s, name, 0) {
        Some((_, v)) => Some(v),
        None => None,
    }
}

/// `URI="`.
pub open spec fn uri_open() -> Seq<char> {
    seq!['U', 'R', 'I', '=', '"']
}

/// `CODECS="`.
pub open spec fn codecs_open() -> Seq<char> {
    seq!['C', 'O', 'D', 'E', 'C', 'S', '=', '"']
}

fn quoted_attr_at_exec(s: &[char], name: &[char], q: usize) -> (r: Option<Vec<char>>)
    requires
        q <= s@.len(),
    ensures
        match r {
            Some(v) => quoted_attr_at(s@, name@, q as int) == Some(v@) && q + name@.len() + v@.len()
                + 1 <= s@.len(),
            None => quoted_attr_at(s@, name@, q as int) is None,
        },
{
    if !crate::text::match_at(s, name, q) {
        return None;
    }
    let len = s.len();
    let rest = slice_chars(s, q + name.len(), len);
    assert(rest@ =~= s@.skip(q + name@.len()));
    match find_char(rest.as_slice(), '"') {
        Some(k) => {
            proof {
                lemma_first_match(rest@, seq!['"'], 0);
            }
            if k >= 1 {
                Some(slice_chars(rest.as_slice(), 0, k))
            } else {
                None
            }
        },
        None => None,
    }
}

/// The first attribute match at or after `from`.
fn first_quoted_attr_exec(s: &[char], name: &[char], from: usize) -> (r: Option<(usize, Vec<char>)>)
    requires
        from <= s@.len(),
    ensures
        match r {
            Some(p) => first_quoted_attr(s@, name@, from as int) == Some((p.0 as int, p.1@)) && p.0
                + name@.len() + p.1@.len() + 1 <= s@.len(),
            None => first_quoted_attr(s@, name@, from as int) is None,
        },
{
    let mut q = from;
    while q < s.len()
        invariant
            from <= q <= s@.len(),
            first_quoted_attr(s@, name@, from as int) == first_quoted_attr(s@, name@, q as int),
        decreases s@.len() - q,
    {
        match quoted_attr_at_exec(s, name, q) {
            Some(v) => return Some((q, v)),
            None => {},
        }
        q += 1;
    }
    None
}

/// The value of the first `URI="..."` of a line.
pub fn uri_value(s: &[char]) -> (r: Option<Vec<char>>)
    ensures
        match r {
            Some(v) => quoted_value(s@, uri_open()) == Some(v@),
            None => quoted_value(s@, uri_open()) is None,
        },
{
    let name = uri_open_chars();
    match first_quoted_attr_exec(s, name.as_slice(), 0) {
        Some((_, v)) => Some(v),
        None => None,
    }
}

fn uri_open_chars() -> (r: Vec<char>)
    ensures
        r@ == uri_open(),
{
    let mut r: Vec<char> = Vec::new();
    r.push('U');
    r.push('R');
    r.push('I');
    r.push('=');
    r.push('"');
    assert(r@ =~= uri_open());
    r
}

fn codecs_open_chars() -> (r: Vec<char>)
    ensures
        r@ == codecs_open(),
{
    let mut r = chars_of("CODECS=");
    proof {
        reveal_strlit("CODECS=");
    }
    r.push('"');
    assert(r@ =~= codecs_open());
    r
}

// ---------------------------------------------------------------------------
// Subtitle renditions
// ---------------------------------------------------------------------------

/// A `#EXT-X-MEDIA:TYPE=SUBTITLES` rendition of a master playlist.
#[derive(Clone, Debug, PartialEq, Eq)]
pub struct SubtitleTrack {
    pub name: String,
    pub language: String,
    pub url: String,
    pub default: bool,
}

/// `SubtitleTrack` as plain values.
pub struct TrackView {
    pub name: Seq<char>,
    pub language: Seq<char>,
    pub url: Seq<char>,
    pub default: bool,
}

impl View for SubtitleTrack {
    type V = TrackView;

    open spec fn view(&self) -> TrackView {
        TrackView {
            name: self.name@,
            language: self.language@,
            url: self.url@,
            default: self.default,
        }
    }
}

impl SubtitleTrack {
    /// A copy of this track.
    pub fn duplicate(&self) -> (r: SubtitleTrack)
        ensures
            r@ == self@,
    {
        SubtitleTrack {
            name: self.name.clone(),
            language: self.language.clone(),
            url: self.url.clone(),
            default: self.default,
        }
    }
}

pub open spec fn track_views(ts: Seq<SubtitleTrack>) -> Seq<TrackView> {
    ts.map_values(|t: SubtitleTrack| t@)
}

/// The subtitle rendition a (trimmed) playlist line declares, its URI
/// resolved against `base`: a `#EXT-X-MEDIA:` tag whose `TYPE` is
/// `SUBTITLES` (any ASCII case) and which has a `URI`. A missing or empty
/// `NAME` reads `subtitles`; `DEFAULT=YES` (any case) marks the default.
pub open spec fn media_track(line: Seq<char>, base: Seq<char>) -> Option<TrackView> {
    if !has_prefix(line, "#EXT-X-MEDIA:"@) {
        None
    } else {
        let ty = match hls_attr_spec(line, "TYPE"@) {
            Some(t) => t,
            None => Seq::<char>::empty(),
        };
        if !eq_ignore_case(ty, "SUBTITLES"@) {
            None
        } else {
            match hls_attr_spec(line, "URI"@) {
                None => None,
                Some(uri) => Some(
                    TrackView {
                        name: match hls_attr_spec(line, "NAME"@) {
                            Some(n) => if n.len() > 0 {
                                n
                            } else {
                                "subtitles"@
                            },
                            None => "subtitles"@,
                        },
                        language: match hls_attr_spec(line, "LANGUAGE"@) {
                            Some(l) => l,
                            None => Seq::<char>::empty(),
                        },
                        url: join_spec(base, uri),
                        default: match hls_attr_spec(line, "DEFAULT"@) {
                            Some(d) => eq_ignore_case(d, "YES"@),
                            None => false,
                        },
                    },
                ),
            }
        }
    }
}

/// Some track of `ts` has URL `u`.
pub open spec fn has_url(ts: Seq<TrackView>, u: Seq<char>) -> bool {
    exists|i: int| 0 <= i < ts.len() && #[trigger] ts[i].url == u
}

/// The renditions declared by `ls`, in order, each URL kept once (its first
/// declaration wins).
pub open spec fn collect_tracks(ls: Seq<Seq<char>>, base: Seq<char>) -> Seq<TrackView>
    decreases ls.len(),
{
    if ls.len() == 0 {
        seq![]
    } else {
        let prev = collect_tracks(ls.drop_last(), base);
        match media_track(trim(ls.last()), base) {
            Some(t) => if has_url(prev, t.url) {
                prev
            } else {
                prev.push(t)
            },
            None => prev,
        }
    }
}

/// The tracks of `ts` whose default flag is `d`, in order.
pub open spec fn with_default(ts: Seq<TrackView>, d: bool) -> Seq<TrackView>
    decreases ts.len(),
{
    if ts.len() == 0 {
        seq![]
    } else if ts.last().default == d {
        with_default(ts.drop_last(), d).push(ts.last())
    } else {
        with_default(ts.drop_last(), d)
    }
}

/// The subtitle renditions of a master playlist: default tracks first,
/// otherwise in playlist order.
pub open spec fn subtitle_tracks_spec(playlist: Seq<char>, base: Seq<char>) -> Seq<TrackView> {
    let c = collect_tracks(lines(playlist), base);
    with_default(c, true) + with_default(c, false)
}

fn media_track_exec(line: &[char], base: &str) -> (r: Option<SubtitleTrack>)
    ensures
        match r {
            Some(t) => media_track(line@, base@) == Some(t@),
            None => media_track(line@, base@) is None,
        },
{
    if !starts_with_str(line, "#EXT-X-MEDIA:") {
        return None;
    }
    let ty = match hls_attr(line, "TYPE") {
        Some(t) => t,
        None => Vec::new(),
    };
    if !eq_ignore_case_str(ty.as_slice(), "SUBTITLES") {
        return None;
    }
    let uri = match hls_attr(line, "URI") {
        Some(u) => u,
        None => return None,
    };
    let us = string_of(uri.as_slice());
    let url = join_url(base, us.as_str());
    let name = match hls_attr(line, "NAME") {
        Some(n) => if n.len() > 0 {
            string_of(n.as_slice())
        } else {
            "subtitles".to_string()
        },
        None => "subtitles".to_string(),
    };
    let language = match hls_attr(line, "LANGUAGE") {
        Some(l) => string_of(l.as_slice()),
        None => String::new(),
    };
    let default = match hls_attr(line, "DEFAULT") {
        Some(d) => eq_ignore_case_str(d.as_slice(), "YES"),
        None => false,
    };
    Some(SubtitleTrack { name, language, url, default })
}

fn find_track_url(ts: &Vec<SubtitleTrack>, u: &str) -> (b: bool)
    ensures
        b == has_url(track_views(ts@), u@),
{
    let mut i: usize = 0;
    while i < ts.len()
        invariant
            i <= ts@.len(),
            forall|j: int| 0 <= j < i ==> ts@[j].url@ != u@,
        decreases ts@.len() - i,
    {
        if same_text(ts[i].url.as_str(), u) {
            assert(track_views(ts@)[i as int].url == u@);
            return true;
        }
        i += 1;
    }
    proof {
        if has_url(track_views(ts@), u@) {
            let j = choose|j: int| 0 <= j < ts@.len() && #[trigger] track_views(ts@)[j].url == u@;
            assert(ts@[j].url@ == u@);
        }
    }
    false
}

/// The subtitle renditions (`#EXT-X-MEDIA:TYPE=SUBTITLES`) of a master
/// playlist, URIs resolved against `base_url`, each URL once, default
/// tracks first.
pub fn parse_subtitle_tracks(playlist: &str, base_url: &str) -> (r: Vec<SubtitleTrack>)
    ensures
        track_views(r@) == subtitle_tracks_spec(playlist@, base_url@),
{
    let pc = chars_of(playlist);
    let ls = split_lines(pc.as_slice());
    let ghost lv = lines(playlist@);
    let mut out: Vec<SubtitleTrack> = Vec::new();
    let mut i: usize = 0;
    while i < ls.len()
        invariant
            i <= ls@.len(),
            lv == lines(playlist@),
            ls@.len() == lv.len(),
            forall|k: int| 0 <= k < ls@.len() ==> #[trigger] ls@[k]@ == lv[k],
            track_views(out@) == collect_tracks(lv.take(i as int), base_url@),
        decreases ls@.len() - i,
    {
        proof {
            assert(lv.take(i + 1).drop_last() =~= lv.take(i as int));
            assert(lv.take(i + 1).last() == ls@[i as int]@);
        }
        let line = trim_chars(ls[i].as_slice());
        match media_track_exec(line.as_slice(), base_url) {
            Some(t) => {
                if !find_track_url(&out, t.url.as_str()) {
                    let ghost before = out@;
                    out.push(t);
                    proof {
                        assert(track_views(out@) =~= track_views(before).push(out@.last()@));
                    }
                }
            },
            None => {},
        }
        i += 1;
    }
    proof {
        assert(lv.take(ls@.len() as int) =~= lv);
    }
    let ghost all = track_views(out@);
    let mut defaults: Vec<SubtitleTrack> = Vec::new();
    let mut others: Vec<SubtitleTrack> = Vec::new();
    let mut j: usize = 0;
    while j < out.len()
        invariant
            j <= out@.len(),
            all == track_views(out@),
            track_views(defaults@) == with_default(all.take(j as int), true),
            track_views(others@) == with_default(all.take(j as int), false),
        decreases out@.len() - j,
    {
        proof {
            assert(all.take(j + 1).drop_last() =~= all.take(j as int));
            assert(all.take(j + 1).last() == out@[j as int]@);
        }
        let t = out[j].duplicate();
        if t.default {
            let ghost before = defaults@;
            defaults.push(t);
            proof {
                assert(track_views(defaults@) =~= track_views(before).push(defaults@.last()@));
            }
        } else {
            let ghost before = others@;
            others.push(t);
            proof {
                assert(track_views(others@) =~= track_views(before).push(others@.last()@));
            }
        }
        j += 1;
    }
    proof {
        assert(all.take(out@.len() as int) =~= all);
    }
    let ghost d = defaults@;
    let mut k: usize = 0;
    while k < others.len()
        invariant
            k <= others@.len(),
            track_views(defaults@) == track_views(d) + track_views(others@.take(k as int)),
        decreases others@.len() - k,
    {
        let ghost before = defaults@;
        defaults.push(others[k].duplicate());
        proof {
            assert(track_views(defaults@) =~= track_views(before).push(others@[k as int]@));
            assert(track_views(others@.take(k + 1)) =~= track_views(others@.take(k as int)).push(
                others@[k as int]@,
            ));
        }
        k += 1;
    }
    proof {
        assert(others@.take(others@.len() as int) =~= others@);
    }
    defaults
}

// ---------------------------------------------------------------------------
// Variant streams
// ---------------------------------------------------------------------------

/// Index just past the run of decimal digits (`\d`: Unicode `Nd`) that
/// starts at `i`.
pub open spec fn digit_run(s: Seq<char>, i: int) -> int
    decreases s.len() - i,
{
    if 0 <= i < s.len() && is_dec_digit(s[i]) {
        digit_run(s, i + 1)
    } else {
        i
    }
}

proof fn lemma_digit_run(s: Seq<char>, i: int)
    requires
        0 <= i <= s.len(),
    ensures
        i <= digit_run(s, i) <= s.len(),
        forall|k: int| i <= k < digit_run(s, i) ==> is_dec_digit(#[trigger] s[k]),
        digit_run(s, i) < s.len() ==> !is_dec_digit(s[digit_run(s, i)]),
    decreases s.len() - i,
{
    if i < s.len() && is_dec_digit(s[i]) {
        lemma_digit_run(s, i + 1);
    }
}

/// Index just past the run of decimal digits (`\d`) from `i`.
pub fn digit_run_pub(s: &[char], i: usize) -> (r: usize)
    requires
        i <= s@.len(),
    ensures
        r == digit_run(s@, i as int),
        i <= r <= s@.len(),
{
    digit_run_exec(s, i)
}

fn digit_run_exec(s: &[char], i: usize) -> (r: usize)
    requires
        i <= s@.len(),
    ensures
        r == digit_run(s@, i as int),
        i <= r <= s@.len(),
{
    proof {
        lemma_digit_run(s@, i as int);
    }
    let mut j = i;
    while j < s.len() && dec_digit_char(s[j])
        invariant
            i <= j <= s@.len(),
            digit_run(s@, j as int) == digit_run(s@, i as int),
        decreases s@.len() - j,
    {
        j += 1;
    }
    j
}

/// The word `w` (lowercase ASCII) at index `p` of `s`, in any case.
pub open spec fn ci_at(s: Seq<char>, p: int, w: Seq<char>) -> bool {
    0 <= p <= s.len() && ci_prefix(s.skip(p), w)
}

fn ci_at_exec(s: &[char], p: usize, w: &[char]) -> (b: bool)
    requires
        p <= s@.len(),
    ensures
        b == ci_at(s@, p as int, w@),
{
    let len = s.len();
    if w.len() > len - p {
        return false;
    }
    let mut k: usize = 0;
    while k < w.len()
        invariant
            k <= w@.len(),
            p + w@.len() <= s@.len(),
            len == s@.len(),
            forall|j: int| 0 <= j < k ==> ci_char(#[trigger] s@.skip(p as int)[j], w@[j]),
        decreases w@.len() - k,
    {
        let c = s[p + k];
        let lc = crate::text::lower_ascii_char(c);
        if !(lc == w[k] || (w[k] == 's' && c == '\u{17f}')) {
            assert(!ci_char(s@.skip(p as int)[k as int], w@[k as int]));
            return false;
        }
        assert(s@.skip(p as int)[k as int] == c);
        k += 1;
    }
    true
}

/// `BANDWIDTH=` (any case) then a digit at index `p`.
pub open spec fn bandwidth_at(s: Seq<char>, p: int) -> bool {
    ci_at(s, p, "bandwidth="@) && digit_run(s, p + "bandwidth="@.len()) > p + "bandwidth="@.len()
}

/// The first `p >= from` where `bandwidth_at` holds.
pub open spec fn first_bandwidth(s: Seq<char>, from: int) -> Option<int>
    decreases s.len() - from,
{
    if from < 0 || from >= s.len() {
        None
    } else if bandwidth_at(s, from) {
        Some(from)
    } else {
        first_bandwidth(s, from + 1)
    }
}

/// `RESOLUTION=` (any case), digits, `x` or `X`, digits, at index `q`.
pub open spec fn resolution_at(s: Seq<char>, q: int) -> bool {
    let a = q + "resolution="@.len();
    let b = digit_run(s, a);
    ci_at(s, q, "resolution="@) && b > a && b < s.len() && ci_char(s[b], 'x') && digit_run(
        s,
        b + 1,
    ) > b + 1
}

/// The first `q >= from` where `resolution_at` holds.
pub open spec fn first_resolution(s: Seq<char>, from: int) -> Option<int>
    decreases s.len() - from,
{
    if from < 0 || from >= s.len() {
        None
    } else if resolution_at(s, from) {
        Some(from)
    } else {
        first_resolution(s, from + 1)
    }
}

/// Bandwidth and height of a `#EXT-X-STREAM-INF:` line, as the pattern
/// `(?i)#EXT-X-STREAM-INF:.*?BANDWIDTH=(\d+)(?:.*?RESOLUTION=\d+x(\d+))?`
/// captures them (`\d` being any Unicode decimal digit): the first
/// `BANDWIDTH=` with digits after the tag, and the height of the first
/// `RESOLUTION=WxH` after those digits. A missing capture, one too large for
/// its type, or one with a non-ASCII digit (which `str::parse` refuses)
/// reads 0.
pub open spec fn stream_inf_spec(line: Seq<char>) -> (u64, u32) {
    match first_bandwidth(line, "#EXT-X-STREAM-INF:"@.len() as int) {
        None => (0, 0),
        Some(p) => {
            let a = p + "bandwidth="@.len();
            let e = digit_run(line, a);
            let bw: u64 = match parse_unsigned(line.subrange(a, e), u64::MAX as nat) {
                Some(v) => v as u64,
                None => 0,
            };
            let h: u32 = match first_resolution(line, e) {
                None => 0,
                Some(q) => {
                    let b = digit_run(line, q + "resolution="@.len());
                    let f = digit_run(line, b + 1);
                    match parse_unsigned(line.subrange(b + 1, f), u32::MAX as nat) {
                        Some(v) => v as u32,
                        None => 0,
                    }
                },
            };
            (bw, h)
        },
    }
}

fn bandwidth_at_exec(line: &[char], p: usize, bwk: &[char]) -> (b: bool)
    requires
        p <= line@.len(),
        bwk@ == "bandwidth="@,
    ensures
        b == bandwidth_at(line@, p as int),
{
    let len = line.len();
    if !ci_at_exec(line, p, bwk) {
        return false;
    }
    let a = p + bwk.len();
    digit_run_exec(line, a) > a
}

fn resolution_at_exec(line: &[char], q: usize, rk: &[char]) -> (b: bool)
    requires
        q <= line@.len(),
        rk@ == "resolution="@,
    ensures
        b == resolution_at(line@, q as int),
{
    if !ci_at_exec(line, q, rk) {
        return false;
    }
    let len = line.len();
    let a = q + rk.len();
    let b = digit_run_exec(line, a);
    if !(b > a && b < len) {
        return false;
    }
    if !(line[b] == 'x' || line[b] == 'X') {
        return false;
    }
    digit_run_exec(line, b + 1) > b + 1
}

fn find_bandwidth(line: &[char], from: usize, bwk: &[char]) -> (r: Option<usize>)
    requires
        from <= line@.len(),
        bwk@ == "bandwidth="@,
    ensures
        match r {
            Some(p) => first_bandwidth(line@, from as int) == Some(p as int) && bandwidth_at(
                line@,
                p as int,
            ),
            None => first_bandwidth(line@, from as int) is None,
        },
{
    let len = line.len();
    let mut p = from;
    while p < len
        invariant
            from <= p <= line@.len(),
            len == line@.len(),
            bwk@ == "bandwidth="@,
            first_bandwidth(line@, from as int) == first_bandwidth(line@, p as int),
        decreases line@.len() - p,
    {
        if bandwidth_at_exec(line, p, bwk) {
            return Some(p);
        }
        p += 1;
    }
    None
}

fn find_resolution(line: &[char], from: usize, rk: &[char]) -> (r: Option<usize>)
    requires
        from <= line@.len(),
        rk@ == "resolution="@,
    ensures
        match r {
            Some(q) => first_resolution(line@, from as int) == Some(q as int) && resolution_at(
                line@,
                q as int,
            ),
            None => first_resolution(line@, from as int) is None,
        },
{
    let len = line.len();
    let mut q = from;
    while q < len
        invariant
            from <= q <= line@.len(),
            len == line@.len(),
            rk@ == "resolution="@,
            first_resolution(line@, from as int) == first_resolution(line@, q as int),
        decreases line@.len() - q,
    {
        if resolution_at_exec(line, q, rk) {
            return Some(q);
        }
        q += 1;
    }
    None
}

/// Bandwidth and height of a `#EXT-X-STREAM-INF:` line.
pub fn stream_inf(line: &[char]) -> (r: (u64, u32))
    ensures
        r == stream_inf_spec(line@),
{
    let hdr = chars_of("#EXT-X-STREAM-INF:");
    let bwk = chars_of("bandwidth=");
    let rk = chars_of("resolution=");
    let len = line.len();
    let start = hdr.len();
    if start > len {
        proof {
            assert(first_bandwidth(line@, start as int) is None);
        }
        return (0, 0);
    }
    let p = match find_bandwidth(line, start, bwk.as_slice()) {
        Some(p) => p,
        None => return (0, 0),
    };
    let a = p + bwk.len();
    let e = digit_run_exec(line, a);
    let bw_digits = slice_chars(line, a, e);
    let bw = match parse_uint(bw_digits.as_slice(), u64::MAX) {
        Some(v) => v,
        None => 0,
    };
    let q = match find_resolution(line, e, rk.as_slice()) {
        Some(q) => q,
        None => return (bw, 0),
    };
    let b = digit_run_exec(line, q + rk.len());
    let f = digit_run_exec(line, b + 1);
    let hd = slice_chars(line, b + 1, f);
    let h: u32 = match parse_uint(hd.as_slice(), 4294967295u64) {
        Some(v) => v as u32,
        None => 0,
    };
    (bw, h)
}

/// The variants declared from line `i` on: each `#EXT-X-STREAM-INF:` line
/// (trimmed) gives one, its URL from a `URI="..."` on the tag or else from
/// the next line when that does not start with `#` (that line is then
/// consumed); URLs are resolved against `base`.
pub open spec fn variants_from(ls: Seq<Seq<char>>, i: int, base: Seq<char>) -> Seq<VariantView>
    decreases ls.len() - i,
{
    if i < 0 || i >= ls.len() {
        seq![]
    } else {
        let line = trim(ls[i]);
        if has_prefix(line, "#EXT-X-STREAM-INF:"@) {
            let (bw, h) = stream_inf_spec(line);
            match quoted_value(line, uri_open()) {
                Some(u) => seq![VariantView { bandwidth: bw, height: h, url: join_spec(base, u) }]
                    + variants_from(ls, i + 1, base),
                None => if i + 1 < ls.len() && !has_prefix(ls[i + 1], seq!['#']) {
                    seq![
                        VariantView {
                            bandwidth: bw,
                            height: h,
                            url: join_spec(base, trim(ls[i + 1])),
                        },
                    ] + variants_from(ls, i + 2, base)
                } else {
                    variants_from(ls, i + 1, base)
                },
            }
        } else {
            variants_from(ls, i + 1, base)
        }
    }
}

/// The variant streams of a master playlist.
pub open spec fn variants_spec(playlist: Seq<char>, base: Seq<char>) -> Seq<VariantView> {
    variants_from(lines(playlist), 0, base)
}

proof fn lemma_emit_variant(a: Seq<VariantView>, v: VariantView, rest: Seq<VariantView>)
    ensures
        a + (seq![v] + rest) == a.push(v) + rest,
{
    assert(a + (seq![v] + rest) =~= a.push(v) + rest);
}

/// The variant streams (`#EXT-X-STREAM-INF`) of a master playlist, URLs
/// resolved against `base_url`.
pub fn parse_variants(playlist: &str, base_url: &str) -> (r: Vec<Variant>)
    ensures
        crate::variants::views(r@) == variants_spec(playlist@, base_url@),
{
    let pc = chars_of(playlist);
    let ls = split_lines(pc.as_slice());
    let ghost lv = lines(playlist@);
    let dash = single('#');
    let mut out: Vec<Variant> = Vec::new();
    let mut i: usize = 0;
    proof {
        assert(crate::variants::views(out@) + variants_from(lv, 0, base_url@) =~= variants_from(
            lv,
            0,
            base_url@,
        ));
    }
    while i < ls.len()
        invariant
            i <= ls@.len(),
            lv == lines(playlist@),
            ls@.len() == lv.len(),
            dash@ == seq!['#'],
            forall|k: int| 0 <= k < ls@.len() ==> #[trigger] ls@[k]@ == lv[k],
            crate::variants::views(out@) + variants_from(lv, i as int, base_url@) == variants_from(
                lv,
                0,
                base_url@,
            ),
        decreases ls@.len() - i,
    {
        let line = trim_chars(ls[i].as_slice());
        assert(ls@[i as int]@ == lv[i as int]);
        if starts_with_str(line.as_slice(), "#EXT-X-STREAM-INF:") {
            let (bw, h) = stream_inf(line.as_slice());
            let ghost before = crate::variants::views(out@);
            match uri_value(line.as_slice()) {
                Some(u) => {
                    let us = string_of(u.as_slice());
                    let v = Variant { bandwidth: bw, height: h, url: join_url(base_url, us.as_str()) };
                    out.push(v);
                    proof {
                        assert(crate::variants::views(out@) =~= before.push(out@.last()@));
                        lemma_emit_variant(before, out@.last()@, variants_from(lv, i + 1, base_url@));
                    }
                    i += 1;
                },
                None => {
                    if i + 1 < ls.len() && !crate::text::starts_with(ls[i + 1].as_slice(), dash.as_slice()) {
                        assert(ls@[i + 1]@ == lv[i + 1]);
                        let nt = trim_chars(ls[i + 1].as_slice());
                        let ns = string_of(nt.as_slice());
                        let v = Variant { bandwidth: bw, height: h, url: join_url(base_url, ns.as_str()) };
                        out.push(v);
                        proof {
                            assert(crate::variants::views(out@) =~= before.push(out@.last()@));
                            lemma_emit_variant(
                                before,
                                out@.last()@,
                                variants_from(lv, i + 2, base_url@),
                            );
                        }
                        i += 2;
                    } else {
                        i += 1;
                    }
                },
            }
        } else {
            i += 1;
        }
    }
    proof {
        assert(crate::variants::views(out@) + Seq::<VariantView>::empty() =~= crate::variants::views(out@));
    }
    out
}

// ---------------------------------------------------------------------------
// Media playlists
// ---------------------------------------------------------------------------

/// The first media URI among `ls`: a trimmed line that is not empty and not
/// a tag, resolved against `media_url`.
pub open spec fn first_segment(ls: Seq<Seq<char>>, media_url: Seq<char>) -> Option<Seq<char>>
    decreases ls.len(),
{
    if ls.len() == 0 {
        None
    } else if trim(ls[0]).len() > 0 && trim(ls[0])[0] != '#' {
        Some(join_spec(media_url, trim(ls[0])))
    } else {
        first_segment(ls.drop_first(), media_url)
    }
}

/// The first media URI of a media playlist, resolved.
pub fn first_segment_url(media_url: &str, media_text: &str) -> (r: Option<String>)
    ensures
        opt_str(r) == first_segment(lines(media_text@), media_url@),
{
    let pc = chars_of(media_text);
    let ls = split_lines(pc.as_slice());
    let ghost lv = lines(media_text@);
    let mut i: usize = 0;
    proof {
        assert(lv.skip(0) =~= lv);
    }
    while i < ls.len()
        invariant
            i <= ls@.len(),
            lv == lines(media_text@),
            ls@.len() == lv.len(),
            forall|k: int| 0 <= k < ls@.len() ==> #[trigger] ls@[k]@ == lv[k],
            first_segment(lv.skip(i as int), media_url@) == first_segment(lv, media_url@),
        decreases ls@.len() - i,
    {
        let t = trim_chars(ls[i].as_slice());
        proof {
            assert(lv.skip(i as int)[0] == ls@[i as int]@);
            assert(lv.skip(i as int).drop_first() =~= lv.skip(i + 1));
        }
        if t.len() > 0 && t[0] != '#' {
            let ts = string_of(t.as_slice());
            return Some(join_url(media_url, ts.as_str()));
        }
        i += 1;
    }
    None
}

/// `Option<String>` by its view.
pub open spec fn opt_str(o: Option<String>) -> Option<Seq<char>> {
    match o {
        Some(s) => Some(s@),
        None => None,
    }
}

/// The `URI` of the first `#EXT-X-MAP:` line (trimmed) that has one.
pub open spec fn map_uri(ls: Seq<Seq<char>>) -> Option<Seq<char>>
    decreases ls.len(),
{
    if ls.len() == 0 {
        None
    } else if has_prefix(trim(ls[0]), "#EXT-X-MAP:"@) && quoted_value(trim(ls[0]), uri_open()) is Some {
        quoted_value(trim(ls[0]), uri_open())
    } else {
        map_uri(ls.drop_first())
    }
}

/// The init segment (`#EXT-X-MAP`) when there is one, else the first media
/// URI; resolved against the playlist URL.
pub open spec fn map_or_first_spec(media_url: Seq<char>, media_text: Seq<char>) -> Option<Seq<char>> {
    match map_uri(lines(media_text)) {
        Some(u) => Some(join_spec(media_url, u)),
        None => first_segment(lines(media_text), media_url),
    }
}

/// Init segment if present, else the first media URI, resolved. Used to
/// sniff the container kind.
pub fn map_or_first_segment_url(media_url: &str, media_text: &str) -> (r: Option<String>)
    ensures
        opt_str(r) == map_or_first_spec(media_url@, media_text@),
{
    let pc = chars_of(media_text);
    let ls = split_lines(pc.as_slice());
    let ghost lv = lines(media_text@);
    let mut i: usize = 0;
    proof {
        assert(lv.skip(0) =~= lv);
    }
    while i < ls.len()
        invariant
            i <= ls@.len(),
            lv == lines(media_text@),
            ls@.len() == lv.len(),
            forall|k: int| 0 <= k < ls@.len() ==> #[trigger] ls@[k]@ == lv[k],
            map_uri(lv.skip(i as int)) == map_uri(lv),
        decreases ls@.len() - i,
    {
        let t = trim_chars(ls[i].as_slice());
        proof {
            assert(lv.skip(i as int)[0] == ls@[i as int]@);
            assert(lv.skip(i as int).drop_first() =~= lv.skip(i + 1));
        }
        if starts_with_str(t.as_slice(), "#EXT-X-MAP:") {
            match uri_value(t.as_slice()) {
                Some(u) => {
                    let us = string_of(u.as_slice());
                    return Some(join_url(media_url, us.as_str()));
                },
                None => {},
            }
        }
        i += 1;
    }
    proof {
        assert(lv.skip(ls@.len() as int) =~= Seq::<Seq<char>>::empty());
    }
    first_segment_url(media_url, media_text)
}

/// Some trimmed line starts with `#EXT-X-MAP:`.
pub open spec fn has_map_line(ls: Seq<Seq<char>>) -> bool {
    exists|i: int| 0 <= i < ls.len() && has_prefix(trim(#[trigger] ls[i]), "#EXT-X-MAP:"@)
}

/// The parts of a playlist hint: `segment=EXT`, `map=yes` when the playlist
/// has an init segment, and `codecs=...` from the first `CODECS="..."`.
pub open spec fn hint_parts(media_text: Seq<char>, ext: Seq<char>) -> Seq<Seq<char>> {
    let a = seq!["segment="@ + ext];
    let b = if has_map_line(lines(media_text)) {
        a.push("map=yes"@)
    } else {
        a
    };
    match quoted_value(media_text, codecs_open()) {
        Some(c) => b.push("codecs="@ + c),
        None => b,
    }
}

/// A one-line summary of a media playlist for diagnostics.
pub fn playlist_hint(media_text: &str, ext: &str) -> (r: String)
    ensures
        r@ == join_with(hint_parts(media_text@, ext@), seq![' ']),
{
    let pc = chars_of(media_text);
    let ls = split_lines(pc.as_slice());
    let ghost lv = lines(media_text@);
    let mut parts: Vec<Vec<char>> = Vec::new();
    let mut first = chars_of("segment=");
    push_str(&mut first, ext);
    parts.push(first);
    let mut has_map = false;
    let mut i: usize = 0;
    while i < ls.len()
        invariant
            i <= ls@.len(),
            lv == lines(media_text@),
            ls@.len() == lv.len(),
            forall|k: int| 0 <= k < ls@.len() ==> #[trigger] ls@[k]@ == lv[k],
            has_map == exists|j: int| 0 <= j < i && has_prefix(trim(#[trigger] lv[j]), "#EXT-X-MAP:"@),
        decreases ls@.len() - i,
    {
        let t = trim_chars(ls[i].as_slice());
        assert(ls@[i as int]@ == lv[i as int]);
        if starts_with_str(t.as_slice(), "#EXT-X-MAP:") {
            has_map = true;
        }
        i += 1;
    }
    let ghost a = seq!["segment="@ + ext@];
    proof {
        assert(parts@.map_values(|v: Vec<char>| v@) =~= a);
    }
    if has_map {
        parts.push(chars_of("map=yes"));
    }
    let ghost b = if has_map_line(lv) {
        a.push("map=yes"@)
    } else {
        a
    };
    proof {
        assert(parts@.map_values(|v: Vec<char>| v@) =~= b);
    }
    let name = codecs_open_chars();
    match first_quoted_attr_exec(pc.as_slice(), name.as_slice(), 0) {
        Some((_, c)) => {
            let mut part = chars_of("codecs=");
            push_all(&mut part, c.as_slice());
            parts.push(part);
            proof {
                assert(parts@.map_values(|v: Vec<char>| v@) =~= b.push("codecs="@ + c@));
            }
        },
        None => {},
    }
    let sp = single(' ');
    let j = join_pieces(&parts, sp.as_slice());
    string_of(j.as_slice())
}

// ---------------------------------------------------------------------------
// Local master playlist
// ---------------------------------------------------------------------------

pub open spec fn yes_no(b: bool) -> Seq<char> {
    if b {
        "YES"@
    } else {
        "NO"@
    }
}

/// The `#EXT-X-MEDIA` line for a subtitle track served at `uri`: `"` in the
/// name becomes `'`, an empty language reads `und`.
pub open spec fn media_line(t: TrackView, uri: Seq<char>) -> Seq<char> {
    "#EXT-X-MEDIA:TYPE=SUBTITLES,GROUP-ID=\"subs\",NAME=\""@ + replace_all(
        t.name,
        seq!['"'],
        seq!['\''],
    ) + "\",LANGUAGE=\""@ + (if t.language.len() == 0 {
        "und"@
    } else {
        t.language
    }) + "\",DEFAULT="@ + yes_no(t.default) + ",AUTOSELECT="@ + yes_no(t.default) + ",URI=\""@
        + uri + seq!['"']
}

pub open spec fn track_uri_views(ts: Seq<(SubtitleTrack, String)>) -> Seq<(TrackView, Seq<char>)> {
    ts.map_values(|p: (SubtitleTrack, String)| (p.0@, p.1@))
}

/// The lines of a master playlist that pairs the video playlist with
/// locally served subtitle playlists.
pub open spec fn master_lines(video_url: Seq<char>, ts: Seq<(TrackView, Seq<char>)>) -> Seq<Seq<char>> {
    seq!["#EXTM3U"@, "#EXT-X-INDEPENDENT-SEGMENTS"@] + ts.map_values(
        |p: (TrackView, Seq<char>)| media_line(p.0, p.1),
    ) + seq!["#EXT-X-STREAM-INF:BANDWIDTH=1,SUBTITLES=\"subs\""@, video_url, Seq::<char>::empty()]
}

fn media_line_exec(t: &SubtitleTrack, uri: &str) -> (r: Vec<char>)
    ensures
        r@ == media_line(t@, uri@),
{
    let mut l = chars_of("#EXT-X-MEDIA:TYPE=SUBTITLES,GROUP-ID=\"subs\",NAME=\"");
    let nc = chars_of(t.name.as_str());
    let dq = single('"');
    let sq = single('\'');
    let name = replace_chars(nc.as_slice(), dq.as_slice(), sq.as_slice());
    push_all(&mut l, name.as_slice());
    push_str(&mut l, "\",LANGUAGE=\"");
    let lang = chars_of(t.language.as_str());
    if lang.len() == 0 {
        push_str(&mut l, "und");
    } else {
        push_all(&mut l, lang.as_slice());
    }
    push_str(&mut l, "\",DEFAULT=");
    if t.default {
        push_str(&mut l, "YES");
    } else {
        push_str(&mut l, "NO");
    }
    push_str(&mut l, ",AUTOSELECT=");
    if t.default {
        push_str(&mut l, "YES");
    } else {
        push_str(&mut l, "NO");
    }
    push_str(&mut l, ",URI=\"");
    push_str(&mut l, uri);
    l.push('"');
    assert(l@ =~= media_line(t@, uri@));
    l
}

/// In the local master playlist, the line of each subtitle track ends by
/// marking it default and auto-selected exactly when the track is the
/// source's default, then gives the track's local URI.
pub proof fn law_subtitle_line_flags(video_url: Seq<char>, ts: Seq<(TrackView, Seq<char>)>, k: int)
    requires
        0 <= k < ts.len(),
    ensures
        has_suffix(
            master_lines(video_url, ts)[k + 2],
            (if ts[k].0.default {
                "\",DEFAULT=YES,AUTOSELECT=YES,URI=\""@
            } else {
                "\",DEFAULT=NO,AUTOSELECT=NO,URI=\""@
            }) + ts[k].1 + seq!['"'],
        ),
{
    let t = ts[k].0;
    let uri = ts[k].1;
    let line = master_lines(video_url, ts)[k + 2];
    assert(line == media_line(t, uri));
    reveal_strlit("#EXT-X-MEDIA:TYPE=SUBTITLES,GROUP-ID=\"subs\",NAME=\"");
    reveal_strlit("\",LANGUAGE=\"");
    reveal_strlit("und");
    reveal_strlit("\",DEFAULT=");
    reveal_strlit(",AUTOSELECT=");
    reveal_strlit(",URI=\"");
    reveal_strlit("YES");
    reveal_strlit("NO");
    reveal_strlit("\",DEFAULT=YES,AUTOSELECT=YES,URI=\"");
    reveal_strlit("\",DEFAULT=NO,AUTOSELECT=NO,URI=\"");
    let head = "#EXT-X-MEDIA:TYPE=SUBTITLES,GROUP-ID=\"subs\",NAME=\""@ + replace_all(
        t.name,
        seq!['"'],
        seq!['\''],
    ) + "\",LANGUAGE=\""@ + (if t.language.len() == 0 {
        "und"@
    } else {
        t.language
    });
    let flags = if t.default {
        "\",DEFAULT=YES,AUTOSELECT=YES,URI=\""@
    } else {
        "\",DEFAULT=NO,AUTOSELECT=NO,URI=\""@
    };
    let tail = flags + uri + seq!['"'];
    assert("\",DEFAULT="@ + yes_no(t.default) + ",AUTOSELECT="@ + yes_no(t.default) + ",URI=\""@
        =~= flags);
    assert(line =~= head + tail);
    assert(line.subrange(line.len() - tail.len(), line.len() as int) =~= tail);
}

/// A master playlist pairing the video playlist with locally served
/// subtitle playlists (`tracks` gives each track and its local URI).
pub fn local_master_playlist(video_url: &str, tracks: &[(SubtitleTrack, String)]) -> (r: String)
    ensures
        r@ == join_with(master_lines(video_url@, track_uri_views(tracks@)), seq!['\n']),
{
    let ghost tv = track_uri_views(tracks@);
    let mut out: Vec<Vec<char>> = Vec::new();
    out.push(chars_of("#EXTM3U"));
    out.push(chars_of("#EXT-X-INDEPENDENT-SEGMENTS"));
    let ghost head = seq!["#EXTM3U"@, "#EXT-X-INDEPENDENT-SEGMENTS"@];
    proof {
        assert(out@.map_values(|v: Vec<char>| v@) =~= head);
    }
    let mut i: usize = 0;
    while i < tracks.len()
        invariant
            i <= tracks@.len(),
            tv == track_uri_views(tracks@),
            out@.map_values(|v: Vec<char>| v@) == head + tv.take(i as int).map_values(
                |p: (TrackView, Seq<char>)| media_line(p.0, p.1),
            ),
        decreases tracks@.len() - i,
    {
        let (t, uri) = &tracks[i];
        let l = media_line_exec(t, uri.as_str());
        let ghost before = out@;
        out.push(l);
        proof {
            assert(tv.take(i + 1).map_values(|p: (TrackView, Seq<char>)| media_line(p.0, p.1))
                =~= tv.take(i as int).map_values(
                |p: (TrackView, Seq<char>)| media_line(p.0, p.1),
            ).push(media_line(tracks@[i as int].0@, tracks@[i as int].1@)));
            assert(out@.map_values(|v: Vec<char>| v@) =~= before.map_values(|v: Vec<char>| v@).push(
                media_line(tracks@[i as int].0@, tracks@[i as int].1@),
            ));
        }
        i += 1;
    }
    proof {
        assert(tv.take(tracks@.len() as int) =~= tv);
    }
    let ghost mid = out@.map_values(|v: Vec<char>| v@);
    out.push(chars_of("#EXT-X-STREAM-INF:BANDWIDTH=1,SUBTITLES=\"subs\""));
    out.push(chars_of(video_url));
    out.push(Vec::new());
    proof {
        assert(out@.map_values(|v: Vec<char>| v@) =~= mid + seq![
            "#EXT-X-STREAM-INF:BANDWIDTH=1,SUBTITLES=\"subs\""@,
            video_url@,
            Seq::<char>::empty(),
        ]);
        assert(out@.map_values(|v: Vec<char>| v@) =~= master_lines(video_url@, tv));
    }
    let nl = single('\n');
    let j = join_pieces(&out, nl.as_slice());
    string_of(j.as_slice())
}

// ---------------------------------------------------------------------------
// Media playlist rewriting
// ---------------------------------------------------------------------------

/// The proxy URL of segment number `n`: `{proxy}/seg/{n:05}.{ext}`.
pub open spec fn seg_url(proxy: Seq<char>, n: nat, ext: Seq<char>) -> Seq<char> {
    proxy + "/seg/"@ + dec_padded(n, 5) + seq!['.'] + ext
}

/// The path part of segment `n`'s proxy URL: `/seg/{n:05}.{ext}`.
pub open spec fn seg_path(n: nat, ext: Seq<char>) -> Seq<char> {
    "/seg/"@ + dec_padded(n, 5) + seq!['.'] + ext
}

/// A segment's proxy URL is the proxy's base followed by its path.
pub proof fn lemma_seg_url_path(proxy: Seq<char>, n: nat, ext: Seq<char>)
    ensures
        seg_url(proxy, n, ext) == proxy + seg_path(n, ext),
{
    assert(seg_url(proxy, n, ext) =~= proxy + seg_path(n, ext));
}

/// Every `URI="..."` attribute of `s`, left to right, pointed at the proxy:
/// the rewritten text, and the resolved URLs it now stands for, numbered
/// from `n`.
pub open spec fn uri_rewrite(
    s: Seq<char>,
    base: Seq<char>,
    proxy: Seq<char>,
    ext: Seq<char>,
    n: nat,
) -> (Seq<char>, Seq<Seq<char>>)
    decreases s.len(),
{
    if s.len() == 0 {
        (seq![], seq![])
    } else {
        match quoted_attr_at(s, uri_open(), 0) {
            Some(v) => {
                let e = uri_open().len() + v.len() + 1;
                if e <= s.len() {
                    let (o, g) = uri_rewrite(s.skip(e as int), base, proxy, ext, n + 1);
                    (
                        uri_open() + seg_url(proxy, n, ext) + seq!['"'] + o,
                        seq![join_spec(base, v)] + g,
                    )
                } else {
                    (s, seq![])
                }
            },
            None => {
                let (o, g) = uri_rewrite(s.drop_first(), base, proxy, ext, n);
                (seq![s[0]] + o, g)
            },
        }
    }
}

/// The rewritten lines of a media playlist and the segment URLs they
/// stand for, numbered from `n`: blank lines and I-frame playlists are
/// dropped; tags keep their text except that `URI="..."` attributes are
/// proxied (with extension `key` on `#EXT-X-KEY`); every other line is a
/// media URI and becomes a proxy URL.
pub open spec fn rewrite_lines(
    ls: Seq<Seq<char>>,
    base: Seq<char>,
    proxy: Seq<char>,
    ext: Seq<char>,
    n: nat,
) -> (Seq<Seq<char>>, Seq<Seq<char>>)
    decreases ls.len(),
{
    if ls.len() == 0 {
        (seq![], seq![])
    } else {
        let line = trim(ls[0]);
        let rest = ls.drop_first();
        if line.len() == 0 || has_prefix(line, "#EXT-X-I-FRAME-STREAM-INF"@) {
            rewrite_lines(rest, base, proxy, ext, n)
        } else if line[0] == '#' {
            if has_infix(line, "URI="@) {
                let ue = if has_prefix(line, "#EXT-X-KEY"@) {
                    "key"@
                } else {
                    ext
                };
                let (l2, g) = uri_rewrite(line, base, proxy, ue, n);
                let (o, g2) = rewrite_lines(rest, base, proxy, ext, n + g.len());
                (seq![l2] + o, g + g2)
            } else {
                let (o, g) = rewrite_lines(rest, base, proxy, ext, n);
                (seq![line] + o, g)
            }
        } else {
            let (o, g) = rewrite_lines(rest, base, proxy, ext, n + 1);
            (seq![seg_url(proxy, n, ext)] + o, seq![join_spec(base, line)] + g)
        }
    }
}

/// Some line starts with `#EXT-X-ENDLIST`.
pub open spec fn ends_listed(o: Seq<Seq<char>>) -> bool {
    exists|i: int| 0 <= i < o.len() && has_prefix(#[trigger] o[i], "#EXT-X-ENDLIST"@)
}

/// The proxied playlist text (with `#EXT-X-ENDLIST` added when missing, so
/// the player treats it as complete) and the segment URLs, numbered from
/// `n`.
pub open spec fn rewrite_spec(
    playlist: Seq<char>,
    base: Seq<char>,
    proxy: Seq<char>,
    ext: Seq<char>,
    n: nat,
) -> (Seq<char>, Seq<Seq<char>>) {
    let (o, g) = rewrite_lines(lines(playlist), base, proxy, ext, n);
    let o2 = if ends_listed(o) {
        o
    } else {
        o.push("#EXT-X-ENDLIST"@)
    };
    (join_with(o2, seq!['\n']) + seq!['\n'], g)
}

/// The proxied playlist is a complete (VOD) playlist the player can seek
/// in: it always carries `#EXT-X-ENDLIST`.
pub proof fn law_rewrite_is_vod(playlist: Seq<char>, base: Seq<char>, proxy: Seq<char>, ext: Seq<char>, n: nat)
    ensures
        has_infix(rewrite_spec(playlist, base, proxy, ext, n).0, "#EXT-X-ENDLIST"@),
{
    let (o, g) = rewrite_lines(lines(playlist), base, proxy, ext, n);
    let o2 = if ends_listed(o) {
        o
    } else {
        o.push("#EXT-X-ENDLIST"@)
    };
    let i = if ends_listed(o) {
        choose|i: int| 0 <= i < o.len() && has_prefix(#[trigger] o[i], "#EXT-X-ENDLIST"@)
    } else {
        o.len() as int
    };
    assert(0 <= i < o2.len() && has_prefix(o2[i], "#EXT-X-ENDLIST"@)) by {
        if !ends_listed(o) {
            assert(o2[i] == "#EXT-X-ENDLIST"@);
            assert("#EXT-X-ENDLIST"@.subrange(0, "#EXT-X-ENDLIST"@.len() as int) =~= "#EXT-X-ENDLIST"@);
        }
    }
    crate::text::lemma_join_has_piece(o2, seq!['\n'], i);
    crate::text::lemma_infix_of_prefix(join_with(o2, seq!['\n']), o2[i], "#EXT-X-ENDLIST"@, seq!['\n']);
}

fn seg_url_exec(proxy: &str, n: usize, ext: &[char]) -> (r: Vec<char>)
    ensures
        r@ == seg_url(proxy@, n as nat, ext@),
{
    let mut r = chars_of(proxy);
    push_str(&mut r, "/seg/");
    let d = dec_padded_chars(n as u64, 5);
    push_all(&mut r, d.as_slice());
    r.push('.');
    push_all(&mut r, ext);
    assert(r@ =~= seg_url(proxy@, n as nat, ext@));
    r
}

proof fn lemma_quoted_attr_skip(s: Seq<char>, name: Seq<char>, i: int)
    requires
        0 <= i <= s.len(),
    ensures
        quoted_attr_at(s.skip(i), name, 0) == quoted_attr_at(s, name, i),
{
    if occurs_at(s, name, i) {
        assert(s.skip(i).subrange(0, name.len() as int) =~= s.subrange(i, i + name.len()));
        assert(s.skip(i).skip(name.len() as int) =~= s.skip(i + name.len()));
    }
    if occurs_at(s.skip(i), name, 0) {
        assert(s.skip(i).subrange(0, name.len() as int) =~= s.subrange(i, i + name.len()));
    }
}

proof fn lemma_pair_step(a: Seq<char>, x: Seq<char>, o: Seq<char>)
    ensures
        a + (x + o) == (a + x) + o,
{
    assert(a + (x + o) =~= (a + x) + o);
}

/// The line with its `URI="..."` attributes proxied; their resolved URLs are
/// appended to `segments`.
fn rewrite_uris(
    line: &[char],
    base: &str,
    proxy: &str,
    ext: &[char],
    segments: &mut Vec<String>,
) -> (r: Vec<char>)
    ensures
        r@ == uri_rewrite(line@, base@, proxy@, ext@, old(segments)@.len()).0,
        crate::curl::string_views(final(segments)@) == crate::curl::string_views(old(segments)@)
            + uri_rewrite(line@, base@, proxy@, ext@, old(segments)@.len()).1,
{
    let ghost n0 = segments@.len();
    let ghost total = uri_rewrite(line@, base@, proxy@, ext@, n0);
    let ghost segs0 = crate::curl::string_views(segments@);
    let name = uri_open_chars();
    let len = line.len();
    let mut out: Vec<char> = Vec::new();
    let mut i: usize = 0;
    proof {
        assert(line@.skip(0) =~= line@);
        assert(out@ + total.0 =~= total.0);
        assert(segs0 + total.1 =~= segs0 + total.1);
    }
    while i < len
        invariant
            i <= line@.len(),
            len == line@.len(),
            name@ == uri_open(),
            segments@.len() >= n0,
            total == uri_rewrite(line@, base@, proxy@, ext@, n0),
            out@ + uri_rewrite(line@.skip(i as int), base@, proxy@, ext@, segments@.len() as nat).0
                == total.0,
            crate::curl::string_views(segments@) + uri_rewrite(
                line@.skip(i as int),
                base@,
                proxy@,
                ext@,
                segments@.len() as nat,
            ).1 == segs0 + total.1,
        decreases line@.len() - i,
    {
        let ghost rest = line@.skip(i as int);
        let ghost n = segments@.len() as nat;
        let ghost outv = out@;
        let ghost sv = crate::curl::string_views(segments@);
        proof {
            lemma_quoted_attr_skip(line@, uri_open(), i as int);
        }
        match quoted_attr_at_exec(line, name.as_slice(), i) {
            Some(v) => {
                let e = name.len() + v.len() + 1;
                let vs = string_of(v.as_slice());
                let joined = join_url(base, vs.as_str());
                let k = segments.len();
                segments.push(joined);
                let su = seg_url_exec(proxy, k, ext);
                push_all(&mut out, name.as_slice());
                push_all(&mut out, su.as_slice());
                out.push('"');
                proof {
                    assert(rest.skip(e as int) =~= line@.skip(i + e));
                    let (o, g) = uri_rewrite(rest.skip(e as int), base@, proxy@, ext@, n + 1);
                    assert(out@ =~= outv + (uri_open() + seg_url(proxy@, n, ext@) + seq!['"']));
                    lemma_pair_step(outv, uri_open() + seg_url(proxy@, n, ext@) + seq!['"'], o);
                    assert(crate::curl::string_views(segments@) =~= sv.push(join_spec(base@, v@)));
                    assert(sv + (seq![join_spec(base@, v@)] + g) =~= sv.push(join_spec(base@, v@))
                        + g);
                }
                i += e;
            },
            None => {
                let c = line[i];
                out.push(c);
                proof {
                    assert(rest.drop_first() =~= line@.skip(i + 1));
                    let (o, g) = uri_rewrite(rest.drop_first(), base@, proxy@, ext@, n);
                    assert(outv + (seq![c] + o) =~= out@ + o);
                }
                i += 1;
            },
        }
    }
    proof {
        assert(line@.skip(i as int) =~= Seq::<char>::empty());
        assert(out@ + Seq::<char>::empty() =~= out@);
        assert(crate::curl::string_views(segments@) + Seq::<Seq<char>>::empty() =~= crate::curl::string_views(segments@));
    }
    out
}

proof fn lemma_lines_step(a: Seq<Seq<char>>, x: Seq<char>, o: Seq<Seq<char>>)
    ensures
        a + (seq![x] + o) == a.push(x) + o,
{
    assert(a + (seq![x] + o) =~= a.push(x) + o);
}

proof fn lemma_segs_step(a: Seq<Seq<char>>, g: Seq<Seq<char>>, o: Seq<Seq<char>>)
    ensures
        a + (g + o) == (a + g) + o,
{
    assert(a + (g + o) =~= (a + g) + o);
}

/// Rewrites a media playlist so that every segment, key and init URI goes
/// through the proxy at `proxy` as `{proxy}/seg/{index:05}.{ext}`; the
/// resolved upstream URLs are appended to `segments` in index order.
/// `#EXT-X-ENDLIST` is added when missing.
pub fn rewrite_media_playlist(
    playlist: &str,
    base_url: &str,
    proxy: &str,
    segments: &mut Vec<String>,
    ext: &str,
) -> (r: String)
    ensures
        r@ == rewrite_spec(playlist@, base_url@, proxy@, ext@, old(segments)@.len()).0,
        crate::curl::string_views(final(segments)@) == crate::curl::string_views(old(segments)@)
            + rewrite_spec(playlist@, base_url@, proxy@, ext@, old(segments)@.len()).1,
{
    let ghost n0 = segments@.len();
    let ghost segs0 = crate::curl::string_views(segments@);
    let pc = chars_of(playlist);
    let ls = split_lines(pc.as_slice());
    let ghost lv = lines(playlist@);
    let ghost total = rewrite_lines(lv, base_url@, proxy@, ext@, n0);
    let ec = chars_of(ext);
    let kc = chars_of("key");
    let mut out: Vec<Vec<char>> = Vec::new();
    let mut i: usize = 0;
    proof {
        assert(lv.skip(0) =~= lv);
        assert(crate::curl::char_views(out@) + total.0 =~= total.0);
    }
    while i < ls.len()
        invariant
            i <= ls@.len(),
            lv == lines(playlist@),
            ls@.len() == lv.len(),
            forall|k: int| 0 <= k < ls@.len() ==> #[trigger] ls@[k]@ == lv[k],
            ec@ == ext@,
            kc@ == "key"@,
            segments@.len() >= n0,
            total == rewrite_lines(lv, base_url@, proxy@, ext@, n0),
            crate::curl::char_views(out@) + rewrite_lines(
                lv.skip(i as int),
                base_url@,
                proxy@,
                ext@,
                segments@.len() as nat,
            ).0 == total.0,
            crate::curl::string_views(segments@) + rewrite_lines(
                lv.skip(i as int),
                base_url@,
                proxy@,
                ext@,
                segments@.len() as nat,
            ).1 == segs0 + total.1,
        decreases ls@.len() - i,
    {
        let ghost rest = lv.skip(i as int);
        let ghost n = segments@.len() as nat;
        let ghost ov = crate::curl::char_views(out@);
        let ghost sv = crate::curl::string_views(segments@);
        proof {
            assert(rest[0] == ls@[i as int]@);
            assert(rest.drop_first() =~= lv.skip(i + 1));
        }
        let line = trim_chars(ls[i].as_slice());
        if line.len() == 0 || starts_with_str(line.as_slice(), "#EXT-X-I-FRAME-STREAM-INF") {
        } else if line[0] == '#' {
            if contains_str(line.as_slice(), "URI=") {
                let ue = if starts_with_str(line.as_slice(), "#EXT-X-KEY") {
                    kc.as_slice()
                } else {
                    ec.as_slice()
                };
                let l2 = rewrite_uris(line.as_slice(), base_url, proxy, ue, segments);
                out.push(l2);
                proof {
                    let (l2v, g) = uri_rewrite(line@, base_url@, proxy@, ue@, n);
                    let (o, g2) = rewrite_lines(
                        rest.drop_first(),
                        base_url@,
                        proxy@,
                        ext@,
                        n + g.len(),
                    );
                    assert(crate::curl::char_views(out@) =~= ov.push(l2v));
                    lemma_lines_step(ov, l2v, o);
                    lemma_segs_step(sv, g, g2);
                }
            } else {
                let ghost lvw = line@;
                out.push(line);
                proof {
                    let (o, g) = rewrite_lines(rest.drop_first(), base_url@, proxy@, ext@, n);
                    assert(crate::curl::char_views(out@) =~= ov.push(lvw));
                    lemma_lines_step(ov, lvw, o);
                }
            }
        } else {
            let k = segments.len();
            let ls_str = string_of(line.as_slice());
            let joined = join_url(base_url, ls_str.as_str());
            segments.push(joined);
            let su = seg_url_exec(proxy, k, ec.as_slice());
            out.push(su);
            proof {
                let (o, g) = rewrite_lines(rest.drop_first(), base_url@, proxy@, ext@, n + 1);
                assert(crate::curl::char_views(out@) =~= ov.push(seg_url(proxy@, n, ext@)));
                lemma_lines_step(ov, seg_url(proxy@, n, ext@), o);
                assert(crate::curl::string_views(segments@) =~= sv.push(join_spec(base_url@, line@)));
                lemma_lines_step(sv, join_spec(base_url@, line@), g);
            }
        }
        i += 1;
    }
    proof {
        assert(lv.skip(ls@.len() as int) =~= Seq::<Seq<char>>::empty());
        assert(crate::curl::char_views(out@) + Seq::<Seq<char>>::empty() =~= crate::curl::char_views(out@));
        assert(crate::curl::string_views(segments@) + Seq::<Seq<char>>::empty() =~= crate::curl::string_views(segments@));
    }
    let ghost ov = crate::curl::char_views(out@);
    let mut listed = false;
    let mut j: usize = 0;
    while j < out.len()
        invariant
            j <= out@.len(),
            ov == crate::curl::char_views(out@),
            listed == exists|k: int| 0 <= k < j && has_prefix(#[trigger] ov[k], "#EXT-X-ENDLIST"@),
        decreases out@.len() - j,
    {
        let b = starts_with_str(out[j].as_slice(), "#EXT-X-ENDLIST");
        assert(ov[j as int] == out@[j as int]@);
        assert(has_prefix(ov[j as int], "#EXT-X-ENDLIST"@) == b);
        if b {
            listed = true;
        }
        j += 1;
    }
    if !listed {
        out.push(chars_of("#EXT-X-ENDLIST"));
        proof {
            assert(crate::curl::char_views(out@) =~= ov.push("#EXT-X-ENDLIST"@));
        }
    }
    let nl = single('\n');
    let mut text = join_pieces(&out, nl.as_slice());
    text.push('\n');
    proof {
        assert(out@.map_values(|v: Vec<char>| v@) =~= crate::curl::char_views(out@));
    }
    string_of(text.as_slice())
}

// ---------------------------------------------------------------------------
// Subtitle URLs and segment bodies
// ---------------------------------------------------------------------------

/// The lowercased path a subtitle URL points at: the inner `url=` of a
/// fetch wrapper when that parses, else the URL's own path; the whole
/// lowercased text when the URL does not parse.
pub open spec fn subtitle_path_spec(url: Seq<char>) -> Seq<char> {
    match url_parse(url) {
        None => ascii_lower(url),
        Some(p) => match first_url_param(p.pairs) {
            Some(inner) => match url_parse(inner) {
                Some(u) => ascii_lower(u.path),
                None => ascii_lower(p.path),
            },
            None => ascii_lower(p.path),
        },
    }
}

fn subtitle_path(url: &str) -> (r: Vec<char>)
    ensures
        r@ == subtitle_path_spec(url@),
{
    let parsed = match parse_url(url) {
        None => {
            let c = chars_of(url);
            return to_ascii_lower(c.as_slice());
        },
        Some(p) => p,
    };
    match first_url_value(&parsed) {
        Some(inner) => match parse_url(inner.as_str()) {
            Some(u) => {
                let pc = chars_of(u.path.as_str());
                return to_ascii_lower(pc.as_slice());
            },
            None => {},
        },
        None => {},
    }
    let pc = chars_of(parsed.path.as_str());
    to_ascii_lower(pc.as_slice())
}

/// A subtitle file by its path's extension.
pub open spec fn subtitle_url_spec(url: Seq<char>) -> bool {
    let p = subtitle_path_spec(url);
    has_suffix(p, ".vtt"@) || has_suffix(p, ".webvtt"@) || has_suffix(p, ".srt"@) || has_suffix(
        p,
        ".ass"@,
    ) || has_suffix(p, ".ssa"@)
}

/// Whether a URL (or the inner URL of a fetch wrapper) names a subtitle
/// file: `.vtt`, `.webvtt`, `.srt`, `.ass` or `.ssa`.
pub fn is_subtitle_url(url: &str) -> (b: bool)
    ensures
        b == subtitle_url_spec(url@),
{
    let p = subtitle_path(url);
    let v = p.as_slice();
    ends_with_str(v, ".vtt") || ends_with_str(v, ".webvtt") || ends_with_str(v, ".srt")
        || ends_with_str(v, ".ass") || ends_with_str(v, ".ssa")
}

/// The subtitle file extension a URL suggests.
pub open spec fn subtitle_ext_spec(url: Seq<char>) -> Seq<char> {
    let p = ascii_lower(url);
    if has_infix(p, ".srt"@) {
        "srt"@
    } else if has_infix(p, ".ass"@) || has_infix(p, ".ssa"@) {
        "ass"@
    } else {
        "vtt"@
    }
}

/// `srt`, `ass` or `vtt`, by what the URL mentions.
pub fn subtitle_ext(url: &str) -> (r: &'static str)
    ensures
        r@ == subtitle_ext_spec(url@),
{
    let c = chars_of(url);
    let p = to_ascii_lower(c.as_slice());
    if contains_str(p.as_slice(), ".srt") {
        "srt"
    } else if contains_str(p.as_slice(), ".ass") || contains_str(p.as_slice(), ".ssa") {
        "ass"
    } else {
        "vtt"
    }
}

/// The playable bytes of a fetched media segment: the body with any decoy
/// image prefix removed; `None` for a key (the URI names a `.key` file), for
/// a subtitle body, and for an error page (`<`, `{` or `[` first) unless the
/// URI names a subtitle file.
pub open spec fn segment_body_spec(body: Seq<u8>, rest: Seq<char>) -> Option<Seq<u8>> {
    let b = unwrapped_body(body);
    if has_suffix(rest, ".key"@) {
        None
    } else if subtitle_mime(subtitle_kind(b)) is Some {
        None
    } else if !has_suffix(rest, ".vtt"@) && !has_suffix(rest, ".srt"@) && error_body(b) {
        None
    } else {
        Some(b)
    }
}

/// The playable bytes of one fetched media segment (`rest` is the segment
/// URI as requested): unwrapped, and `None` for keys, subtitles or error
/// bodies.
pub fn fetch_segment_body(body: &[u8], rest: &str) -> (r: Option<Vec<u8>>)
    ensures
        match r {
            Some(b) => segment_body_spec(body@, rest@) == Some(b@),
            None => segment_body_spec(body@, rest@) is None,
        },
{
    let rc = chars_of(rest);
    let r = rc.as_slice();
    if ends_with_str(r, ".key") {
        return None;
    }
    let b = unwrap_media_body(body);
    if subtitle_content_type(b.as_slice()).is_some() {
        return None;
    }
    if !ends_with_str(r, ".vtt") && !ends_with_str(r, ".srt") && looks_like_error_body(b.as_slice()) {
        return None;
    }
    Some(b)
}

/// The container kind of a fetched segment (`ts` or `m4s`), judged on its
/// first 64 KiB; `ts` when the fetch failed.
pub fn sniff_segment_kind(fetched: Option<&[u8]>) -> (r: &'static str)
    ensures
        r@ == match fetched {
            Some(buf) => kind_text(unwrap_spec(buf@.take(min(buf@.len() as int, 65536))).1),
            None => "ts"@,
        },
{
    match fetched {
        Some(buf) => {
            let n = if buf.len() < 65536 {
                buf.len()
            } else {
                65536
            };
            let head = &buf[0..n];
            assert(head@ == buf@.take(min(buf@.len() as int, 65536)));
            unwrap_media(head).1
        },
        None => "ts",
    }
}

// ---------------------------------------------------------------------------
// Resolving a stream URL to its media playlist
// ---------------------------------------------------------------------------

/// A media playlist ready to play, with the subtitle renditions of its
/// master playlist.
pub struct ResolvedHls {
    pub media_url: String,
    pub media_text: String,
    pub subtitles: Vec<SubtitleTrack>,
}

/// Playlist text: `#EXTM3U` after any leading white space.
pub open spec fn playlist_text(t: Seq<char>) -> bool {
    has_prefix(trim_start(t), "#EXTM3U"@)
}

/// The error for a first response that is not a playlist: the URL and the
/// first 80 characters of the text, quoted.
pub open spec fn not_playlist_text(url: Seq<char>, text: Seq<char>) -> Seq<char> {
    "play: not an HLS playlist ("@ + url + "): "@ + debug_quoted(
        text.take(if text.len() < 80 {
            text.len() as int
        } else {
            80
        }),
    )
}

/// What the first playlist response leads to.
pub enum MasterStep {
    /// It is already a media playlist.
    Media(ResolvedHls),
    /// A master playlist: one of `variants` is to be chosen and fetched.
    Variants { text: String, subtitles: Vec<SubtitleTrack>, variants: Vec<Variant> },
}

/// Reads the first playlist response (`final_url` is where it came from):
/// an error when the body is not a playlist; otherwise its subtitle
/// renditions, and either the media playlist itself or, when it lists
/// `#EXT-X-STREAM-INF` variants, those variants.
pub fn read_master(final_url: &str, body: &[u8]) -> (r: Result<MasterStep, Error>)
    ensures
        ({
            let text = utf8_lossy(body@);
            match r {
                Err(e) => !playlist_text(text) && (e matches Error::Message(m) && m@
                    == not_playlist_text(final_url@, text)),
                Ok(MasterStep::Media(h)) => playlist_text(text) && !has_infix(
                    text,
                    "#EXT-X-STREAM-INF"@,
                ) && h.media_url@ == final_url@ && h.media_text@ == text && track_views(
                    h.subtitles@,
                ) == subtitle_tracks_spec(text, final_url@),
                Ok(MasterStep::Variants { text: t, subtitles, variants }) => playlist_text(text)
                    && has_infix(text, "#EXT-X-STREAM-INF"@) && t@ == text && track_views(
                    subtitles@,
                ) == subtitle_tracks_spec(text, final_url@) && crate::variants::views(variants@)
                    == variants_spec(text, final_url@),
            }
        }),
{
    let tc = lossy_chars(body);
    let ts = trim_start_chars(tc.as_slice());
    if !starts_with_str(ts.as_slice(), "#EXTM3U") {
        let mut m = chars_of("play: not an HLS playlist (");
        push_str(&mut m, final_url);
        push_str(&mut m, "): ");
        let n = if tc.len() < 80 {
            tc.len()
        } else {
            80
        };
        let head = slice_chars(tc.as_slice(), 0, n);
        let q = debug_text(head.as_slice());
        push_str(&mut m, q.as_str());
        proof {
            assert(head@ =~= tc@.take(n as int));
        }
        let ms = string_of(m.as_slice());
        return Err(Error::Message(ms));
    }
    let text = string_of(tc.as_slice());
    let subtitles = parse_subtitle_tracks(text.as_str(), final_url);
    if contains_str(tc.as_slice(), "#EXT-X-STREAM-INF") {
        let variants = parse_variants(text.as_str(), final_url);
        Ok(MasterStep::Variants { text, subtitles, variants })
    } else {
        Ok(
            MasterStep::Media(
                ResolvedHls { media_url: final_url.to_string(), media_text: text, subtitles },
            ),
        )
    }
}

/// Reads the chosen variant's response (`chosen_url` as requested,
/// `final_url` where it came from): an error when it is not a playlist.
pub fn read_variant(
    chosen_url: &str,
    final_url: &str,
    body: &[u8],
    subtitles: Vec<SubtitleTrack>,
) -> (r: Result<ResolvedHls, Error>)
    ensures
        ({
            let text = utf8_lossy(body@);
            match r {
                Err(e) => !playlist_text(text) && (e matches Error::Message(m) && m@
                    == "play: variant is not a playlist: "@ + chosen_url@),
                Ok(h) => playlist_text(text) && h.media_url@ == final_url@ && h.media_text@ == text
                    && h.subtitles@ == subtitles@,
            }
        }),
{
    let tc = lossy_chars(body);
    let ts = trim_start_chars(tc.as_slice());
    if !starts_with_str(ts.as_slice(), "#EXTM3U") {
        let mut m = chars_of("play: variant is not a playlist: ");
        push_str(&mut m, chosen_url);
        let ms = string_of(m.as_slice());
        return Err(Error::Message(ms));
    }
    Ok(
        ResolvedHls {
            media_url: final_url.to_string(),
            media_text: string_of(tc.as_slice()),
            subtitles,
        },
    )
}

} // verus!
