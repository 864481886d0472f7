//! Saving a stream to a file: where the segments are written and whether
//! ffmpeg remuxes them, the remux command lines, the media playlist read
//! for download (segments, init sections, AES-128 keys), and the decryption
//! of a fetched segment.
use vstd::prelude::*;
use cipher::{BlockDecryptMut, KeyIvInit};
use crate::assoc::Assoc;
use crate::error::{error_text, Error};
use crate::hls::{digit_run, quoted_value, uri_open, uri_value};
use crate::media::{
    law_plain_segment_unchanged, law_png_wrapped_ts_unwrapped, png_wrapped_ts, unwrap_payload,
    unwrap_spec,
};
use crate::num::{parse_uint, parse_unsigned};
use crate::paths::{extension_of, file_name_of, joined_path, path_extension, path_join, path_with_extension, with_extension_of};
use crate::text::{
    all_ascii, ascii_lower, chars_eq, chars_of, contains_str, eq_str, first_match, has_infix, has_prefix, lines,
    lowercase, occurs_at, push_all, push_str, slice_chars, split_lines, starts_with_str,
    string_of, to_lowercase, to_uppercase, trim, trim_chars, uppercase,
};
use crate::urls::{detect_kind, join_spec, join_url, kind_spec, strip_proto, stripped, Kind};

verus! {

// ---------------------------------------------------------------------------
// Output files and remuxing
// ---------------------------------------------------------------------------

/// `.ext` of a path, lowercased; empty when it has none.
pub open spec fn dot_ext(path: Seq<char>) -> Seq<char> {
    match extension_of(path) {
        Some(e) => lowercase("."@ + e),
        None => Seq::<char>::empty(),
    }
}

fn dot_ext_exec(path: &str) -> (r: Vec<char>)
    ensures
        r@ == dot_ext(path@),
        extension_of(path@) is Some && all_ascii(extension_of(path@).unwrap()) ==> r@
            == ascii_lower(seq!['.'] + extension_of(path@).unwrap()),
{
    match path_extension(path) {
        Some(e) => {
            let mut d = chars_of(".");
            proof {
                reveal_strlit(".");
            }
            push_str(&mut d, e.as_str());
            proof {
                assert(d@ =~= seq!['.'] + e@);
                if all_ascii(e@) {
                    assert forall|i: int| 0 <= i < d@.len() implies (#[trigger] d@[i] as u32)
                        < 0x80 by {
                        if i > 0 {
                            assert(d@[i] == e@[i - 1]);
                        }
                    }
                }
            }
            to_lowercase(d.as_slice())
        },
        None => Vec::new(),
    }
}

/// Extensions of MPEG-TS files, written as downloaded.
pub open spec fn ts_ext(e: Seq<char>) -> bool {
    e == ".ts"@ || e == ".mts"@ || e == ".m2ts"@ || e == ".mpeg"@
}

/// Extensions of MP4 files, which get `+faststart` when remuxed.
pub open spec fn mp4_ext(e: Seq<char>) -> bool {
    e == ".mp4"@ || e == ".m4v"@ || e == ".mov"@
}

fn is_ts_ext(e: &[char]) -> (b: bool)
    ensures
        b == ts_ext(e@),
{
    eq_str(e, ".ts") || eq_str(e, ".mts") || eq_str(e, ".m2ts") || eq_str(e, ".mpeg")
}

fn is_mp4_ext(e: &[char]) -> (b: bool)
    ensures
        b == mp4_ext(e@),
{
    eq_str(e, ".mp4") || eq_str(e, ".m4v") || eq_str(e, ".mov")
}

/// Where segments are written and what they are remuxed into: a TS target
/// is written directly; otherwise segments go to the target with extension
/// `.ts` (an extension-less target counting as `.mp4`), remuxed into the
/// target when ffmpeg is there.
pub open spec fn plan_spec(out_file: Seq<char>, has_ffmpeg: bool) -> (Seq<char>, Option<Seq<char>>) {
    let ext = dot_ext(out_file);
    if ts_ext(ext) {
        (out_file, None)
    } else {
        let final_path = if ext.len() == 0 {
            with_extension_of(out_file, "mp4"@)
        } else {
            out_file
        };
        let ts = with_extension_of(final_path, "ts"@);
        if !has_ffmpeg {
            (ts, None)
        } else {
            (ts, Some(final_path))
        }
    }
}

/// The file segments are written to, and the file they are remuxed into
/// (if any).
///
/// When the target has a file name, the remux target is never the file the
/// segments are written to.
pub fn plan_download(out_file: &str, has_ffmpeg: bool) -> (r: (String, Option<String>))
    ensures
        (r.0@, crate::weburl::opt_view(r.1)) == plan_spec(out_file@, has_ffmpeg),
        file_name_of(out_file@) is Some && r.1 is Some ==> r.1.unwrap()@ != r.0@,
{
    let ext = dot_ext_exec(out_file);
    if is_ts_ext(ext.as_slice()) {
        return (out_file.to_string(), None);
    }
    proof {
        reveal_strlit("mp4");
        reveal_strlit("ts");
        reveal_strlit(".ts");
    }
    let final_path = if ext.len() == 0 {
        path_with_extension(out_file, "mp4")
    } else {
        out_file.to_string()
    };
    let ts = path_with_extension(final_path.as_str(), "ts");
    proof {
        if file_name_of(out_file@) is Some && ts@ == final_path@ {
            if ext.len() == 0 {
                assert(extension_of(final_path@) == Some("mp4"@));
                assert("ts"@.len() != "mp4"@.len());
            } else {
                assert(extension_of(out_file@) == Some("ts"@));
                assert(all_ascii("ts"@));
                assert(ascii_lower(seq!['.'] + "ts"@) =~= ".ts"@);
                assert(ts_ext(ext@));
            }
        }
    }
    if !has_ffmpeg {
        return (ts, None);
    }
    (ts, Some(final_path))
}

/// The ffmpeg stream-copy command from `src` to `dest`; with `aac_bsf` the
/// `aac_adtstoasc` filter is added, and MP4 targets get `+faststart`.
pub open spec fn remux_args(ffmpeg: Seq<char>, src: Seq<char>, dest: Seq<char>, aac_bsf: bool) -> Seq<
    Seq<char>,
> {
    let base = seq![ffmpeg, "-y"@, "-hide_banner"@, "-loglevel"@, "error"@, "-i"@, src, "-c"@, "copy"@];
    let with_bsf = if aac_bsf {
        base + seq!["-bsf:a"@, "aac_adtstoasc"@]
    } else {
        base
    };
    let with_fast = if mp4_ext(dot_ext(dest)) {
        with_bsf + seq!["-movflags"@, "+faststart"@]
    } else {
        with_bsf
    };
    with_fast.push(dest)
}

/// The ffmpeg remux command line.
pub fn remux_cmd(ffmpeg: &str, src: &str, dest: &str) -> (r: Vec<String>)
    ensures
        crate::curl::string_views(r@) == remux_args(ffmpeg@, src@, dest@, false),
{
    remux_cmd_opts(ffmpeg, src, dest, false)
}

/// The ffmpeg remux command line, optionally with the ADTS-to-ASC audio
/// filter that MP4 needs for some AAC streams.
pub fn remux_cmd_opts(ffmpeg: &str, src: &str, dest: &str, aac_bsf: bool) -> (r: Vec<String>)
    ensures
        crate::curl::string_views(r@) == remux_args(ffmpeg@, src@, dest@, aac_bsf),
{
    let mut cmd: Vec<String> = Vec::new();
    cmd.push(ffmpeg.to_string());
    cmd.push("-y".to_string());
    cmd.push("-hide_banner".to_string());
    cmd.push("-loglevel".to_string());
    cmd.push("error".to_string());
    cmd.push("-i".to_string());
    cmd.push(src.to_string());
    cmd.push("-c".to_string());
    cmd.push("copy".to_string());
    let ghost base = seq![ffmpeg@, "-y"@, "-hide_banner"@, "-loglevel"@, "error"@, "-i"@, src@, "-c"@, "copy"@];
    assert(crate::curl::string_views(cmd@) =~= base);
    if aac_bsf {
        cmd.push("-bsf:a".to_string());
        cmd.push("aac_adtstoasc".to_string());
    }
    let ghost with_bsf = if aac_bsf {
        base + seq!["-bsf:a"@, "aac_adtstoasc"@]
    } else {
        base
    };
    assert(crate::curl::string_views(cmd@) =~= with_bsf);
    let ext = dot_ext_exec(dest);
    if is_mp4_ext(ext.as_slice()) {
        cmd.push("-movflags".to_string());
        cmd.push("+faststart".to_string());
    }
    let ghost with_fast = if mp4_ext(dot_ext(dest@)) {
        with_bsf + seq!["-movflags"@, "+faststart"@]
    } else {
        with_bsf
    };
    assert(crate::curl::string_views(cmd@) =~= with_fast);
    cmd.push(dest.to_string());
    assert(crate::curl::string_views(cmd@) =~= with_fast.push(dest@));
    cmd
}

/// What follows the first remux attempt.
pub enum RemuxStep {
    /// Done: the first attempt's outcome stands.
    Finished(Result<(), Error>),
    /// Run `cmd` (with the AAC filter); if it fails too, `first_err` is
    /// reported.
    Retry { cmd: Vec<String>, first_err: Error },
}

/// An error from a cancelled job.
pub open spec fn cancelled_text(e: Error) -> bool {
    has_infix(error_text(e), "cancelled"@)
}

/// After the first remux attempt: success and cancellation stand; a failed
/// MP4 remux is retried with the AAC filter; other failures stand.
pub fn remux_copy(src: &str, dest: &str, ffmpeg: &str, first: Result<(), Error>) -> (r: RemuxStep)
    ensures
        match first {
            Ok(()) => r matches RemuxStep::Finished(Ok(())),
            Err(e) => if cancelled_text(e) || !mp4_ext(dot_ext(dest@)) {
                r matches RemuxStep::Finished(Err(e2)) && e2 == e
            } else {
                r matches RemuxStep::Retry { cmd, first_err } && first_err == e
                    && crate::curl::string_views(cmd@) == remux_args(ffmpeg@, src@, dest@, true)
            },
        },
{
    match first {
        Ok(()) => RemuxStep::Finished(Ok(())),
        Err(e) => {
            let m = e.message();
            let mc = chars_of(m.as_str());
            if contains_str(mc.as_slice(), "cancelled") {
                return RemuxStep::Finished(Err(e));
            }
            let ext = dot_ext_exec(dest);
            if !is_mp4_ext(ext.as_slice()) {
                return RemuxStep::Finished(Err(e));
            }
            RemuxStep::Retry { cmd: remux_cmd_opts(ffmpeg, src, dest, true), first_err: e }
        },
    }
}

/// The outcome after the retry: success, a cancellation, or else the first
/// attempt's error.
pub fn remux_retry_outcome(first_err: Error, retry: Result<(), Error>) -> (r: Result<(), Error>)
    ensures
        match retry {
            Ok(()) => r is Ok,
            Err(e) => if cancelled_text(e) {
                r matches Err(e2) && e2 == e
            } else {
                r matches Err(e2) && e2 == first_err
            },
        },
{
    match retry {
        Ok(()) => Ok(()),
        Err(e) => {
            let m = e.message();
            let mc = chars_of(m.as_str());
            if contains_str(mc.as_slice(), "cancelled") {
                Err(e)
            } else {
                Err(first_err)
            }
        },
    }
}

/// A tool name that may be looked up: ASCII letters, digits, `-`, `_`.
pub open spec fn bin_name_ok(name: Seq<char>) -> bool {
    forall|i: int|
        0 <= i < name.len() ==> ('a' <= #[trigger] name[i] <= 'z' || 'A' <= name[i] <= 'Z' || '0'
            <= name[i] <= '9' || name[i] == '-' || name[i] == '_')
}

/// Whether a tool name is safe to look up.
pub fn valid_bin_name(name: &str) -> (b: bool)
    ensures
        b == bin_name_ok(name@),
{
    let c = chars_of(name);
    let mut i: usize = 0;
    while i < c.len()
        invariant
            i <= c@.len(),
            c@ == name@,
            forall|j: int|
                0 <= j < i ==> ('a' <= #[trigger] c@[j] <= 'z' || 'A' <= c@[j] <= 'Z' || '0'
                    <= c@[j] <= '9' || c@[j] == '-' || c@[j] == '_'),
        decreases c@.len() - i,
    {
        let ch = c[i];
        if !(('a' <= ch && ch <= 'z') || ('A' <= ch && ch <= 'Z') || ('0' <= ch && ch <= '9') || ch
            == '-' || ch == '_') {
            return false;
        }
        i += 1;
    }
    true
}

/// Where tools are looked for, in order: Homebrew, `/usr/local/bin`,
/// MacPorts, `/usr/bin`, then `~/bin` and `~/.local/bin` when the home
/// directory is known, then the `PATH` entries.
pub open spec fn search_dirs(home: Option<Seq<char>>, path_dirs: Seq<Seq<char>>) -> Seq<Seq<char>> {
    let fixed = seq!["/opt/homebrew/bin"@, "/usr/local/bin"@, "/opt/local/bin"@, "/usr/bin"@];
    let with_home = match home {
        Some(h) => fixed + seq![joined_path(h, "bin"@), joined_path(h, ".local/bin"@)],
        None => fixed,
    };
    with_home + path_dirs
}

/// The directories searched for a tool.
pub fn bin_search_dirs(home: Option<&str>, path_dirs: &[String]) -> (r: Vec<String>)
    ensures
        crate::curl::string_views(r@) == search_dirs(
            match home {
                Some(h) => Some(h@),
                None => None,
            },
            crate::curl::string_views(path_dirs@),
        ),
{
    let mut dirs: Vec<String> = Vec::new();
    dirs.push("/opt/homebrew/bin".to_string());
    dirs.push("/usr/local/bin".to_string());
    dirs.push("/opt/local/bin".to_string());
    dirs.push("/usr/bin".to_string());
    match home {
        Some(h) => {
            dirs.push(path_join(h, "bin"));
            dirs.push(path_join(h, ".local/bin"));
        },
        None => {},
    }
    let ghost start = crate::curl::string_views(dirs@);
    let ghost hv = match home {
        Some(h) => Some(h@),
        None => None,
    };
    let ghost fixed = seq!["/opt/homebrew/bin"@, "/usr/local/bin"@, "/opt/local/bin"@, "/usr/bin"@];
    assert(start =~= match hv {
        Some(h) => fixed + seq![joined_path(h, "bin"@), joined_path(h, ".local/bin"@)],
        None => fixed,
    });
    let mut i: usize = 0;
    while i < path_dirs.len()
        invariant
            i <= path_dirs@.len(),
            crate::curl::string_views(dirs@) == start + crate::curl::string_views(
                path_dirs@.take(i as int),
            ),
        decreases path_dirs@.len() - i,
    {
        let ghost before = dirs@;
        dirs.push(path_dirs[i].clone());
        proof {
            assert(crate::curl::string_views(path_dirs@.take(i + 1)) =~= crate::curl::string_views(
                path_dirs@.take(i as int),
            ).push(path_dirs@[i as int]@));
            assert(crate::curl::string_views(dirs@) =~= crate::curl::string_views(before).push(
                path_dirs@[i as int]@,
            ));
        }
        i += 1;
    }
    assert(path_dirs@.take(path_dirs@.len() as int) =~= path_dirs@);
    dirs
}

// ---------------------------------------------------------------------------
// Workers
// ---------------------------------------------------------------------------

/// Parallel segment fetches by default.
pub const DEFAULT_WORKERS: usize = 6;

/// Fewest parallel segment fetches.
pub const MIN_WORKERS: usize = 1;

/// Most parallel segment fetches.
pub const MAX_WORKERS: usize = 16;

/// The worker count limited to `MIN_WORKERS..=MAX_WORKERS`.
pub fn clamp_workers(n: usize) -> (r: usize)
    ensures
        r == (if n < MIN_WORKERS {
            MIN_WORKERS
        } else if n > MAX_WORKERS {
            MAX_WORKERS
        } else {
            n
        }),
        MIN_WORKERS <= r <= MAX_WORKERS,
{
    if n < MIN_WORKERS {
        MIN_WORKERS
    } else if n > MAX_WORKERS {
        MAX_WORKERS
    } else {
        n
    }
}

/// The default worker count.
pub fn worker_count() -> (r: usize)
    ensures
        r == DEFAULT_WORKERS,
{
    DEFAULT_WORKERS
}

// ---------------------------------------------------------------------------
// Routing a download
// ---------------------------------------------------------------------------

/// How a stream is downloaded.
pub enum StreamRoute {
    /// A plain file fetch of the URL.
    Http,
    /// Resolve the HLS playlist at this URL, then fetch its segments.
    Hls { playlist_url: String },
}

/// The route for a stream URL: plain files are fetched, HLS playlists are
/// resolved (pseudo-protocol dropped), DASH is refused.
pub fn download_stream(url: &str) -> (r: Result<StreamRoute, Error>)
    ensures
        match kind_spec(url@) {
            Kind::Http => r matches Ok(StreamRoute::Http),
            Kind::Dash => r matches Err(Error::Message(m)) && m@
                == "play: DASH download is not supported"@,
            Kind::Hls => r matches Ok(StreamRoute::Hls { playlist_url: p }) && p@ == stripped(url@),
        },
{
    match detect_kind(url) {
        Kind::Http => Ok(StreamRoute::Http),
        Kind::Dash => Err(Error::msg("play: DASH download is not supported")),
        Kind::Hls => Ok(StreamRoute::Hls { playlist_url: strip_proto(url) }),
    }
}

/// When resolving the playlist shows the URL is a progressive file, it is
/// fetched as a plain file; other errors stand.
pub fn after_resolve_error(e: Error) -> (r: Result<StreamRoute, Error>)
    ensures
        match e {
            Error::Progressive { .. } => r matches Ok(StreamRoute::Http),
            _ => r matches Err(e2) && e2 == e,
        },
{
    match e {
        Error::Progressive { .. } => Ok(StreamRoute::Http),
        _ => Err(e),
    }
}

// ---------------------------------------------------------------------------
// The media playlist, read for download
// ---------------------------------------------------------------------------

/// How a segment is encrypted.
pub enum Crypto {
    /// Not encrypted.
    Plain,
    Aes128 { uri: String, iv: Option<[u8; 16]> },
}

/// `Crypto` as plain values.
pub enum CryptoView {
    Plain,
    Aes128 { uri: Seq<char>, iv: Option<Seq<u8>> },
}

impl View for Crypto {
    type V = CryptoView;

    open spec fn view(&self) -> CryptoView {
        match self {
            Crypto::Plain => CryptoView::Plain,
            Crypto::Aes128 { uri, iv } => CryptoView::Aes128 {
                uri: uri@,
                iv: match iv {
                    Some(a) => Some(a@),
                    None => None,
                },
            },
        }
    }
}

impl Crypto {
    /// A copy.
    pub fn duplicate(&self) -> (r: Crypto)
        ensures
            r@ == self@,
    {
        match self {
            Crypto::Plain => Crypto::Plain,
            Crypto::Aes128 { uri, iv } => Crypto::Aes128 { uri: uri.clone(), iv: *iv },
        }
    }
}

/// One media segment to fetch.
pub struct Seg {
    pub url: String,
    pub crypto: Crypto,
}

/// `Seg` as plain values.
pub struct SegView {
    pub url: Seq<char>,
    pub crypto: CryptoView,
}

impl View for Seg {
    type V = SegView;

    open spec fn view(&self) -> SegView {
        SegView { url: self.url@, crypto: self.crypto@ }
    }
}

pub open spec fn seg_views(s: Seq<Seg>) -> Seq<SegView> {
    s.map_values(|x: Seg| x@)
}

/// Index just past the run of characters other than `,` from `i`.
pub open spec fn comma_free_run(s: Seq<char>, i: int) -> int
    decreases s.len() - i,
{
    if 0 <= i < s.len() && s[i] != ',' {
        comma_free_run(s, i + 1)
    } else {
        i
    }
}

/// An ASCII hexadecimal digit.
pub open spec fn is_hex(c: char) -> bool {
    ('0' <= c && c <= '9') || ('a' <= c && c <= 'f') || ('A' <= c && c <= 'F')
}

/// Index just past the run of hex digits from `i`.
pub open spec fn hex_run(s: Seq<char>, i: int) -> int
    decreases s.len() - i,
{
    if 0 <= i < s.len() && is_hex(s[i]) {
        hex_run(s, i + 1)
    } else {
        i
    }
}

/// The first match at or after `from` of `name` followed by a non-empty
/// run (`hex` picks hex digits, else characters other than `,`).
pub open spec fn first_run_attr(s: Seq<char>, name: Seq<char>, hex: bool, from: int) -> Option<Seq<char>>
    decreases s.len() - from,
{
    if from < 0 || from >= s.len() {
        None
    } else {
        let a = from + name.len();
        let e = if hex {
            hex_run(s, a)
        } else {
            comma_free_run(s, a)
        };
        if occurs_at(s, name, from) && e > a {
            Some(s.subrange(a, e))
        } else {
            first_run_attr(s, name, hex, from + 1)
        }
    }
}

/// The `METHOD=` value of a key tag (as `METHOD=([^,]+)` captures it).
pub open spec fn method_capture(line: Seq<char>) -> Option<Seq<char>> {
    first_run_attr(line, "METHOD="@, false, 0)
}

/// The hex digits of an `IV=0x...` attribute (as `IV=0x([0-9A-Fa-f]+)`
/// captures them).
pub open spec fn iv_capture(line: Seq<char>) -> Option<Seq<char>> {
    first_run_attr(line, "IV=0x"@, true, 0)
}

fn comma_free_run_exec(s: &[char], i: usize) -> (r: usize)
    requires
        i <= s@.len(),
    ensures
        r == comma_free_run(s@, i as int),
        i <= r <= s@.len(),
{
    let mut j = i;
    while j < s.len() && s[j] != ','
        invariant
            i <= j <= s@.len(),
            comma_free_run(s@, j as int) == comma_free_run(s@, i as int),
        decreases s@.len() - j,
    {
        j += 1;
    }
    j
}

fn hex_run_exec(s: &[char], i: usize) -> (r: usize)
    requires
        i <= s@.len(),
    ensures
        r == hex_run(s@, i as int),
        i <= r <= s@.len(),
        forall|k: int| i <= k < r ==> is_hex(#[trigger] s@[k]),
{
    let mut j = i;
    while j < s.len() && (('0' <= s[j] && s[j] <= '9') || ('a' <= s[j] && s[j] <= 'f') || ('A'
        <= s[j] && s[j] <= 'F'))
        invariant
            i <= j <= s@.len(),
            hex_run(s@, j as int) == hex_run(s@, i as int),
            forall|k: int| i <= k < j ==> is_hex(#[trigger] s@[k]),
        decreases s@.len() - j,
    {
        j += 1;
    }
    j
}

fn first_run_attr_exec(s: &[char], name: &str, hex: bool) -> (r: Option<Vec<char>>)
    ensures
        match r {
            Some(v) => first_run_attr(s@, name@, hex, 0) == Some(v@) && (hex ==> forall|k: int|
                0 <= k < v@.len() ==> is_hex(#[trigger] v@[k])),
            None => first_run_attr(s@, name@, hex, 0) is None,
        },
{
    let nc = chars_of(name);
    let len = s.len();
    let mut q: usize = 0;
    while q < len
        invariant
            q <= s@.len(),
            len == s@.len(),
            nc@ == name@,
            first_run_attr(s@, name@, hex, 0) == first_run_attr(s@, name@, hex, q as int),
        decreases s@.len() - q,
    {
        if crate::text::match_at(s, nc.as_slice(), q) {
            let a = q + nc.len();
            let e = if hex {
                hex_run_exec(s, a)
            } else {
                comma_free_run_exec(s, a)
            };
            if e > a {
                let v = slice_chars(s, a, e);
                return Some(v);
            }
        }
        q += 1;
    }
    None
}

/// The value of a hex digit.
pub open spec fn hex_value(c: char) -> nat {
    if '0' <= c && c <= '9' {
        ((c as int) - ('0' as int)) as nat
    } else if 'a' <= c && c <= 'f' {
        ((c as int) - ('a' as int) + 10) as nat
    } else {
        ((c as int) - ('A' as int) + 10) as nat
    }
}

/// The 16 bytes of a 32-digit hex IV; `None` for any other length.
pub open spec fn iv_bytes(h: Seq<char>) -> Option<Seq<u8>> {
    if h.len() != 32 {
        None
    } else {
        Some(Seq::new(16, |i: int| (hex_value(h[2 * i]) * 16 + hex_value(h[2 * i + 1])) as u8))
    }
}

fn hex_digit(c: char) -> (r: u8)
    requires
        is_hex(c),
    ensures
        r as nat == hex_value(c),
        r < 16,
{
    if '0' <= c && c <= '9' {
        (c as u32 - '0' as u32) as u8
    } else if 'a' <= c && c <= 'f' {
        (c as u32 - 'a' as u32 + 10) as u8
    } else {
        (c as u32 - 'A' as u32 + 10) as u8
    }
}

/// An explicit IV from its hex digits.
fn parse_iv(h: &[char]) -> (r: Option<[u8; 16]>)
    requires
        forall|k: int| 0 <= k < h@.len() ==> is_hex(#[trigger] h@[k]),
    ensures
        match r {
            Some(a) => iv_bytes(h@) == Some(a@),
            None => iv_bytes(h@) is None,
        },
{
    if h.len() != 32 {
        return None;
    }
    let mut out: [u8; 16] = [0u8; 16];
    let mut i: usize = 0;
    while i < 16
        invariant
            i <= 16,
            h@.len() == 32,
            forall|k: int| 0 <= k < h@.len() ==> is_hex(#[trigger] h@[k]),
            forall|k: int|
                0 <= k < i ==> out@[k] == (hex_value(h@[2 * k]) * 16 + hex_value(h@[2 * k + 1])) as u8,
        decreases 16 - i,
    {
        let hi = hex_digit(h[2 * i]);
        let lo = hex_digit(h[2 * i + 1]);
        let b: u8 = hi * 16 + lo;
        out[i] = b;
        i += 1;
    }
    assert(out@ =~= Seq::new(16, |k: int| (hex_value(h@[2 * k]) * 16 + hex_value(h@[2 * k + 1])) as u8));
    Some(out)
}

/// Byte `j` (0..8) of `x` in big-endian order.
pub open spec fn be_byte(x: u64, j: int) -> u8 {
    ((x >> ((56 - 8 * j) as u64)) & 0xff) as u8
}

/// The IV of a segment without an explicit one: its media sequence number
/// as a big-endian 128-bit integer.
pub open spec fn seq_iv_spec(seq: u64) -> Seq<u8> {
    Seq::new(16, |i: int| if i < 8 {
        0u8
    } else {
        be_byte(seq, i - 8)
    })
}

/// The default IV for media sequence number `seq`.
pub fn seq_iv(seq: u64) -> (r: [u8; 16])
    ensures
        r@ == seq_iv_spec(seq),
{
    let mut iv: [u8; 16] = [0u8; 16];
    let mut j: usize = 0;
    while j < 8
        invariant
            j <= 8,
            forall|k: int| 0 <= k < 8 ==> iv@[k] == 0u8,
            forall|k: int| 8 <= k < 8 + j ==> #[trigger] iv@[k] == be_byte(seq, k - 8),
            forall|k: int| 8 + j <= k < 16 ==> #[trigger] iv@[k] == 0u8,
        decreases 8 - j,
    {
        let shift: u64 = (56 - 8 * j) as u64;
        let b: u8 = ((seq >> shift) & 0xff) as u8;
        iv[8 + j] = b;
        j += 1;
    }
    assert(iv@ =~= seq_iv_spec(seq));
    iv
}

/// `256` to the power `k`.
pub open spec fn pow256(k: nat) -> int
    decreases k,
{
    if k == 0 {
        1
    } else {
        256 * pow256((k - 1) as nat)
    }
}

proof fn lemma_pow256_values()
    ensures
        pow256(0) == 0x1,
        pow256(1) == 0x100,
        pow256(2) == 0x10000,
        pow256(3) == 0x1000000,
        pow256(4) == 0x100000000,
        pow256(5) == 0x10000000000,
        pow256(6) == 0x1000000000000,
        pow256(7) == 0x100000000000000,
        pow256(8) == 0x10000000000000000,
{
    reveal_with_fuel(pow256, 9);
}

proof fn lemma_pow256_grows(a: nat, b: nat)
    requires
        a <= b,
    ensures
        pow256(a) <= pow256(b),
        0 < pow256(a),
    decreases b,
{
    if a < b {
        lemma_pow256_grows(a, (b - 1) as nat);
    } else if a > 0 {
        lemma_pow256_grows((a - 1) as nat, (a - 1) as nat);
    }
}

/// Byte `j` of `x` in big-endian order is digit `7 - j` of `x` in base 256.
proof fn lemma_be_byte_digit(x: u64, j: int)
    requires
        0 <= j < 8,
    ensures
        be_byte(x, j) as int == (x as int / pow256((7 - j) as nat)) % 256,
{
    lemma_pow256_values();
    if j == 0 {
        assert((x >> 56u64) & 0xffu64 == (x / 0x100000000000000u64) % 0x100u64) by (bit_vector);
    } else if j == 1 {
        assert((x >> 48u64) & 0xffu64 == (x / 0x1000000000000u64) % 0x100u64) by (bit_vector);
    } else if j == 2 {
        assert((x >> 40u64) & 0xffu64 == (x / 0x10000000000u64) % 0x100u64) by (bit_vector);
    } else if j == 3 {
        assert((x >> 32u64) & 0xffu64 == (x / 0x100000000u64) % 0x100u64) by (bit_vector);
    } else if j == 4 {
        assert((x >> 24u64) & 0xffu64 == (x / 0x1000000u64) % 0x100u64) by (bit_vector);
    } else if j == 5 {
        assert((x >> 16u64) & 0xffu64 == (x / 0x10000u64) % 0x100u64) by (bit_vector);
    } else if j == 6 {
        assert((x >> 8u64) & 0xffu64 == (x / 0x100u64) % 0x100u64) by (bit_vector);
    } else {
        assert((x >> 0u64) & 0xffu64 == (x / 0x1u64) % 0x100u64) by (bit_vector);
    }
}

/// What an `#EXT-X-KEY:` line means: `METHOD=NONE` clears encryption;
/// `AES-128` needs a `URI` (resolved against `base`) and may give an `IV`;
/// other methods are refused. The method is compared uppercased.
pub open spec fn key_line_spec(line: Seq<char>, base: Seq<char>) -> Result<CryptoView, Seq<char>> {
    let method = match method_capture(line) {
        Some(m) => uppercase(m),
        None => Seq::<char>::empty(),
    };
    if method == "NONE"@ {
        Ok(CryptoView::Plain)
    } else if method != "AES-128"@ {
        Err("play: unsupported HLS key method "@ + method)
    } else {
        match quoted_value(line, uri_open()) {
            None => Err("play: AES-128 key missing URI"@),
            Some(u) => Ok(
                CryptoView::Aes128 {
                    uri: join_spec(base, u),
                    iv: match iv_capture(line) {
                        Some(h) => iv_bytes(h),
                        None => None,
                    },
                },
            ),
        }
    }
}

fn parse_key_line(line: &[char], base: &str) -> (r: Result<Crypto, Error>)
    ensures
        match key_line_spec(line@, base@) {
            Ok(c) => r matches Ok(x) && x@ == c,
            Err(t) => r matches Err(Error::Message(m)) && m@ == t,
        },
{
    let method = match first_run_attr_exec(line, "METHOD=", false) {
        Some(m) => to_uppercase(m.as_slice()),
        None => Vec::new(),
    };
    if eq_str(method.as_slice(), "NONE") {
        return Ok(Crypto::Plain);
    }
    if !eq_str(method.as_slice(), "AES-128") {
        let mut t = chars_of("play: unsupported HLS key method ");
        push_all(&mut t, method.as_slice());
        return Err(Error::Message(string_of(t.as_slice())));
    }
    let uri = match uri_value(line) {
        Some(u) => {
            let us = string_of(u.as_slice());
            join_url(base, us.as_str())
        },
        None => return Err(Error::msg("play: AES-128 key missing URI")),
    };
    let iv = match first_run_attr_exec(line, "IV=0x", true) {
        Some(h) => parse_iv(h.as_slice()),
        None => None,
    };
    Ok(Crypto::Aes128 { uri, iv })
}

/// The media sequence number a `#EXT-X-MEDIA-SEQUENCE:` line sets (as
/// `#EXT-X-MEDIA-SEQUENCE:(\d+)` captures it, `\d` being any Unicode
/// decimal digit); the previous number when there is no such capture, or it
/// does not parse (a non-ASCII digit) or fit.
pub open spec fn media_seq_spec(line: Seq<char>, prev: u64) -> u64 {
    match first_digits_after(line, "#EXT-X-MEDIA-SEQUENCE:"@, 0) {
        Some(d) => match parse_unsigned(d, u64::MAX as nat) {
            Some(v) => v as u64,
            None => prev,
        },
        None => prev,
    }
}

/// The digits after the first `name` (at or after `from`) that is followed
/// by at least one digit.
pub open spec fn first_digits_after(s: Seq<char>, name: Seq<char>, from: int) -> Option<Seq<char>>
    decreases s.len() - from,
{
    if from < 0 || from >= s.len() {
        None
    } else {
        let a = from + name.len();
        if occurs_at(s, name, from) && digit_run(s, a) > a {
            Some(s.subrange(a, digit_run(s, a)))
        } else {
            first_digits_after(s, name, from + 1)
        }
    }
}

fn media_seq_exec(line: &[char], prev: u64) -> (r: u64)
    ensures
        r == media_seq_spec(line@, prev),
{
    let nc = chars_of("#EXT-X-MEDIA-SEQUENCE:");
    let len = line.len();
    let mut q: usize = 0;
    while q < len
        invariant
            q <= line@.len(),
            len == line@.len(),
            nc@ == "#EXT-X-MEDIA-SEQUENCE:"@,
            first_digits_after(line@, nc@, 0) == first_digits_after(line@, nc@, q as int),
        decreases line@.len() - q,
    {
        if crate::text::match_at(line, nc.as_slice(), q) {
            let a = q + nc.len();
            let e = crate::hls::digit_run_pub(line, a);
            if e > a {
                let d = slice_chars(line, a, e);
                return match parse_uint(d.as_slice(), u64::MAX) {
                    Some(v) => v,
                    None => prev,
                };
            }
        }
        q += 1;
    }
    prev
}

/// What reading the media playlist for download has gathered: the media
/// sequence number, the init sections and the segments.
pub struct ScanState {
    pub seq: u64,
    pub crypto: CryptoView,
    pub maps: Seq<Seq<char>>,
    pub segs: Seq<SegView>,
}

/// One line of the media playlist (trimmed) read into the state: a key tag
/// sets the encryption of the segments after it, a map tag adds an init
/// section, a sequence tag sets the number, and any other line that is not
/// empty and not a tag is a segment.
pub open spec fn scan_line(line: Seq<char>, media_url: Seq<char>, st: ScanState) -> Result<ScanState, Seq<char>> {
    if has_prefix(line, "#EXT-X-KEY:"@) {
        match key_line_spec(line, media_url) {
            Ok(c) => Ok(ScanState { seq: st.seq, crypto: c, maps: st.maps, segs: st.segs }),
            Err(t) => Err(t),
        }
    } else if has_prefix(line, "#EXT-X-MAP:"@) {
        match quoted_value(line, uri_open()) {
            Some(u) => Ok(
                ScanState {
                    seq: st.seq,
                    crypto: st.crypto,
                    maps: st.maps.push(join_spec(media_url, u)),
                    segs: st.segs,
                },
            ),
            None => Ok(st),
        }
    } else if has_prefix(line, "#EXT-X-MEDIA-SEQUENCE:"@) {
        Ok(ScanState { seq: media_seq_spec(line, st.seq), crypto: st.crypto, maps: st.maps, segs: st.segs })
    } else if line.len() > 0 && line[0] != '#' {
        Ok(
            ScanState {
                seq: st.seq,
                crypto: st.crypto,
                maps: st.maps,
                segs: st.segs.push(SegView { url: join_spec(media_url, line), crypto: st.crypto }),
            },
        )
    } else {
        Ok(st)
    }
}

/// The state after reading lines `0..n` of `ls`; the first refused key
/// tag's error stops the reading.
pub open spec fn scan_lines(ls: Seq<Seq<char>>, n: int, media_url: Seq<char>) -> Result<ScanState, Seq<char>>
    decreases n,
{
    if n <= 0 {
        Ok(ScanState { seq: 0, crypto: CryptoView::Plain, maps: seq![], segs: seq![] })
    } else {
        match scan_lines(ls, n - 1, media_url) {
            Ok(st) => scan_line(trim(ls[n - 1]), media_url, st),
            Err(t) => Err(t),
        }
    }
}

proof fn lemma_scan_err_sticks(ls: Seq<Seq<char>>, n: int, m: int, media_url: Seq<char>)
    requires
        0 <= n <= m,
        scan_lines(ls, n, media_url) is Err,
    ensures
        scan_lines(ls, m, media_url) == scan_lines(ls, n, media_url),
    decreases m - n,
{
    if m > n {
        lemma_scan_err_sticks(ls, n, m - 1, media_url);
    }
}

/// The media playlist read for download.
pub open spec fn playlist_scan(media_url: Seq<char>, media_text: Seq<char>) -> Result<ScanState, Seq<char>> {
    let ls = lines(media_text);
    scan_lines(ls, ls.len() as int, media_url)
}

/// Reads a media playlist for download: the media sequence number, the
/// init-section URLs and the segments with their encryption.
pub fn parse_playlist(media_url: &str, media_text: &str) -> (r: Result<(u64, Vec<String>, Vec<Seg>), Error>)
    ensures
        match playlist_scan(media_url@, media_text@) {
            Ok(st) => r matches Ok((q, maps, segs)) && q == st.seq && crate::curl::string_views(maps@)
                == st.maps && seg_views(segs@) == st.segs,
            Err(t) => r matches Err(Error::Message(m)) && m@ == t,
        },
{
    let pc = chars_of(media_text);
    let ls = split_lines(pc.as_slice());
    let ghost lv = lines(media_text@);
    let mut seq: u64 = 0;
    let mut crypto = Crypto::Plain;
    let mut maps: Vec<String> = Vec::new();
    let mut segs: Vec<Seg> = Vec::new();
    let mut i: usize = 0;
    proof {
        assert(crate::curl::string_views(maps@) =~= Seq::<Seq<char>>::empty());
        assert(seg_views(segs@) =~= Seq::<SegView>::empty());
    }
    while i < ls.len()
        invariant
            i <= ls@.len(),
            lv == lines(media_text@),
            ls@.len() == lv.len(),
            forall|k: int| 0 <= k < ls@.len() ==> #[trigger] ls@[k]@ == lv[k],
            scan_lines(lv, i as int, media_url@) == Ok::<ScanState, Seq<char>>(
                ScanState {
                    seq,
                    crypto: crypto@,
                    maps: crate::curl::string_views(maps@),
                    segs: seg_views(segs@),
                },
            ),
        decreases ls@.len() - i,
    {
        let line = trim_chars(ls[i].as_slice());
        assert(ls@[i as int]@ == lv[i as int]);
        let ghost st = ScanState {
            seq,
            crypto: crypto@,
            maps: crate::curl::string_views(maps@),
            segs: seg_views(segs@),
        };
        if starts_with_str(line.as_slice(), "#EXT-X-KEY:") {
            match parse_key_line(line.as_slice(), media_url) {
                Ok(c) => {
                    crypto = c;
                },
                Err(e) => {
                    proof {
                        lemma_scan_err_sticks(lv, i + 1, lv.len() as int, media_url@);
                    }
                    return Err(e);
                },
            }
        } else if starts_with_str(line.as_slice(), "#EXT-X-MAP:") {
            match uri_value(line.as_slice()) {
                Some(u) => {
                    let us = string_of(u.as_slice());
                    let ghost before = maps@;
                    maps.push(join_url(media_url, us.as_str()));
                    proof {
                        assert(crate::curl::string_views(maps@) =~= crate::curl::string_views(
                            before,
                        ).push(join_spec(media_url@, u@)));
                    }
                },
                None => {},
            }
        } else if starts_with_str(line.as_slice(), "#EXT-X-MEDIA-SEQUENCE:") {
            seq = media_seq_exec(line.as_slice(), seq);
        } else if line.len() > 0 && line[0] != '#' {
            let ls_str = string_of(line.as_slice());
            let url = join_url(media_url, ls_str.as_str());
            let ghost before = segs@;
            segs.push(Seg { url, crypto: crypto.duplicate() });
            proof {
                assert(seg_views(segs@) =~= seg_views(before).push(
                    SegView { url: join_spec(media_url@, line@), crypto: crypto@ },
                ));
            }
        }
        i += 1;
    }
    Ok((seq, maps, segs))
}

// ---------------------------------------------------------------------------
// Decryption
// ---------------------------------------------------------------------------

/// What AES-128-CBC decryption with PKCS#7 unpadding gives for a key, IV
/// and ciphertext; `None` when the padding is malformed.
pub uninterp spec fn aes128_cbc_pkcs7(key: Seq<u8>, iv: Seq<u8>, data: Seq<u8>) -> Option<Seq<u8>>;

/// `cbc::Decryptor::<aes::Aes128>::new_from_slices(key, iv)` then
/// `decrypt_padded_vec_mut::<Pkcs7>(data)`. With a 16-byte key and IV the
/// decryptor is built (the crate refuses only other lengths); the crate
/// documents that a ciphertext whose length is not a multiple of the
/// 16-byte block is refused. The plaintext itself is the one
/// `aes128_cbc_pkcs7` names.
#[verifier::external_body]
fn cbc_decrypt(key: &[u8], iv: &[u8], data: &[u8]) -> (r: Option<Vec<u8>>)
    requires
        key@.len() == 16,
        iv@.len() == 16,
    ensures
        match r {
            Some(p) => aes128_cbc_pkcs7(key@, iv@, data@) == Some(p@),
            None => aes128_cbc_pkcs7(key@, iv@, data@) is None,
        },
        data@.len() % 16 != 0 ==> r is None,
{
    match cbc::Decryptor::<aes::Aes128>::new_from_slices(key, iv) {
        Ok(d) => d.decrypt_padded_vec_mut::<cipher::block_padding::Pkcs7>(data).ok(),
        Err(_) => None,
    }
}

/// The plaintext of an AES-128 segment, or the error text: a key of the
/// wrong length, or a ciphertext that does not decrypt.
pub open spec fn decrypt_spec(key: Seq<u8>, iv: Seq<u8>, data: Seq<u8>) -> Result<Seq<u8>, Seq<char>> {
    if key.len() != 16 {
        Err("play: bad AES key/iv"@)
    } else {
        match aes128_cbc_pkcs7(key, iv, data) {
            Some(p) => Ok(p),
            None => Err("play: AES decrypt failed"@),
        }
    }
}

/// Decrypts an AES-128-CBC segment.
pub fn decrypt_aes128(key: &[u8], iv: &[u8; 16], data: &[u8]) -> (r: Result<Vec<u8>, Error>)
    ensures
        match decrypt_spec(key@, iv@, data@) {
            Ok(p) => r matches Ok(v) && v@ == p,
            Err(t) => r matches Err(Error::Message(m)) && m@ == t,
        },
{
    if key.len() != 16 {
        return Err(Error::msg("play: bad AES key/iv"));
    }
    match cbc_decrypt(key, iv.as_slice(), data) {
        Some(p) => Ok(p),
        None => Err(Error::msg("play: AES decrypt failed")),
    }
}

/// The playable bytes of a fetched segment with media sequence number
/// `seq_no`: any decoy prefix removed, then decrypted when the segment is
/// AES-128 encrypted (with its own IV, else the sequence-number IV).
pub open spec fn payload_spec(
    body: Seq<u8>,
    crypto: CryptoView,
    seq_no: u64,
    keys: Map<Seq<char>, Vec<u8>>,
) -> Result<Seq<u8>, Seq<char>> {
    let payload = body.skip(unwrap_spec(body).0);
    match crypto {
        CryptoView::Plain => Ok(payload),
        CryptoView::Aes128 { uri, iv } => if !keys.contains_key(uri) {
            Err("play: missing AES key"@)
        } else {
            decrypt_spec(
                keys[uri]@,
                match iv {
                    Some(v) => v,
                    None => seq_iv_spec(seq_no),
                },
                payload,
            )
        },
    }
}

/// The playable bytes of one fetched segment.
pub fn segment_payload(body: &[u8], crypto: &Crypto, seq_no: u64, keys: &Assoc<Vec<u8>>) -> (r: Result<
    Vec<u8>,
    Error,
>)
    ensures
        match payload_spec(body@, crypto@, seq_no, keys@) {
            Ok(p) => r matches Ok(v) && v@ == p,
            Err(t) => r matches Err(Error::Message(m)) && m@ == t,
        },
{
    let payload = unwrap_payload(body);
    match crypto {
        Crypto::Plain => Ok(payload),
        Crypto::Aes128 { uri, iv } => {
            let key = match keys.get(uri.as_str()) {
                Some(k) => k,
                None => return Err(Error::msg("play: missing AES key")),
            };
            let ivb = match iv {
                Some(v) => *v,
                None => seq_iv(seq_no),
            };
            decrypt_aes128(key.as_slice(), &ivb, payload.as_slice())
        },
    }
}

/// An AES-128 segment without an `IV` attribute is decrypted with its
/// media sequence number, written as a 16-byte big-endian integer, as IV:
/// it gives what the same segment gives with that IV stated explicitly
/// (whatever its sequence number then), which is the decryption of its
/// unwrapped body under its key.
pub proof fn law_default_iv_is_media_sequence(
    body: Seq<u8>,
    uri: Seq<char>,
    seq_no: u64,
    keys: Map<Seq<char>, Vec<u8>>,
    iv: Seq<u8>,
    other_seq: u64,
)
    requires
        iv.len() == 16,
        forall|i: int| 0 <= i < 16 ==> #[trigger] iv[i] as int == (seq_no as int / pow256((15 - i) as nat)) % 256,
    ensures
        payload_spec(body, CryptoView::Aes128 { uri, iv: None }, seq_no, keys) == payload_spec(
            body,
            CryptoView::Aes128 { uri, iv: Some(iv) },
            other_seq,
            keys,
        ),
        keys.contains_key(uri) ==> payload_spec(body, CryptoView::Aes128 { uri, iv: None }, seq_no, keys)
            == decrypt_spec(keys[uri]@, iv, body.skip(unwrap_spec(body).0)),
{
    lemma_pow256_values();
    assert forall|i: int| 0 <= i < 16 implies #[trigger] iv[i] == seq_iv_spec(seq_no)[i] by {
        if i < 8 {
            lemma_pow256_grows(8, (15 - i) as nat);
            assert(seq_no as int / pow256((15 - i) as nat) == 0) by (nonlinear_arith)
                requires
                    0 <= seq_no < 0x10000000000000000,
                    0x10000000000000000 <= pow256((15 - i) as nat),
            ;
        } else {
            lemma_be_byte_digit(seq_no, i - 8);
        }
    }
    assert(iv =~= seq_iv_spec(seq_no));
}

/// A segment disguised behind a PNG image (see `png_wrapped_ts`) yields
/// what the bare stream after the image yields; unencrypted, that is the
/// stream itself.
pub proof fn law_png_wrapped_payload(
    png: Seq<u8>,
    ts: Seq<u8>,
    crypto: CryptoView,
    seq_no: u64,
    keys: Map<Seq<char>, Vec<u8>>,
)
    requires
        png_wrapped_ts(png, ts),
    ensures
        payload_spec(png + ts, crypto, seq_no, keys) == payload_spec(ts, crypto, seq_no, keys),
        crypto is Plain ==> payload_spec(png + ts, crypto, seq_no, keys) == Ok::<Seq<u8>, Seq<char>>(ts),
{
    law_png_wrapped_ts_unwrapped(png, ts);
    law_plain_segment_unchanged(ts);
    assert((png + ts).skip(png.len() as int) =~= ts);
    assert(ts.skip(0) =~= ts);
}

// ---------------------------------------------------------------------------
// Planning a download
// ---------------------------------------------------------------------------

/// Everything a download needs before its first fetch.
pub struct DownloadPlan {
    /// Where the segments are written.
    pub ts_out: String,
    /// What `ts_out` is remuxed into, when ffmpeg does that.
    pub remux_to: Option<String>,
    /// The file the download ends as.
    pub final_path: String,
    /// Media sequence number of the first segment.
    pub seq: u64,
    /// Init sections, written first.
    pub maps: Vec<String>,
    /// The segments, in playlist order.
    pub segs: Vec<Seg>,
    /// Parallel segment fetches.
    pub workers: usize,
}

impl DownloadPlan {
    /// The files a cancelled download removes: the segment file and the
    /// remux target, if any.
    pub fn outputs(&self) -> (r: Vec<String>)
        ensures
            crate::curl::string_views(r@) == seq![self.ts_out@] + match self.remux_to {
                Some(d) => seq![d@],
                None => Seq::<Seq<char>>::empty(),
            },
    {
        let mut r: Vec<String> = Vec::new();
        r.push(self.ts_out.clone());
        match &self.remux_to {
            Some(d) => {
                r.push(d.clone());
            },
            None => {},
        }
        proof {
            assert(crate::curl::string_views(r@) =~= seq![self.ts_out@] + match self.remux_to {
                Some(d) => seq![d@],
                None => Seq::<Seq<char>>::empty(),
            });
        }
        r
    }
}

/// The error of a cancelled job.
pub open spec fn cancelled_msg() -> Seq<char> {
    "play: download cancelled"@
}

/// Prepares the download of a media playlist into `out_file`: refused when
/// the job is already cancelled, when a key tag is refused, or when there
/// are no segments. Without ffmpeg a non-TS target is not remuxed: the raw
/// MPEG-TS is written to and kept at the `.ts` name (`plan_spec`).
pub fn download_media(
    media_url: &str,
    media_text: &str,
    out_file: &str,
    has_ffmpeg: bool,
    cancelled: bool,
    workers: usize,
) -> (r: Result<DownloadPlan, Error>)
    ensures
        cancelled ==> (r matches Err(Error::Message(m)) && m@ == cancelled_msg()),
        !cancelled ==> ({
            let (ts, remux) = plan_spec(out_file@, has_ffmpeg);
            match playlist_scan(media_url@, media_text@) {
                Err(t) => r matches Err(Error::Message(m)) && m@ == t,
                Ok(st) => if st.segs.len() == 0 {
                    r matches Err(Error::Message(m)) && m@ == "play: no segments in playlist"@
                } else {
                    r matches Ok(p) && p.ts_out@ == ts && crate::weburl::opt_view(p.remux_to)
                        == remux && p.final_path@ == (match remux {
                        Some(d) => d,
                        None => ts,
                    }) && p.seq == st.seq && crate::curl::string_views(p.maps@) == st.maps
                        && seg_views(p.segs@) == st.segs && p.workers == (if workers
                        < MIN_WORKERS {
                        MIN_WORKERS
                    } else if workers > MAX_WORKERS {
                        MAX_WORKERS
                    } else {
                        workers
                    })
                },
            }
        }),
{
    if cancelled {
        return Err(Error::msg("play: download cancelled"));
    }
    let (ts_out, remux_to) = plan_download(out_file, has_ffmpeg);
    let final_path = match &remux_to {
        Some(d) => d.clone(),
        None => ts_out.clone(),
    };
    let (seq, maps, segs) = match parse_playlist(media_url, media_text) {
        Ok(x) => x,
        Err(e) => return Err(e),
    };
    if segs.len() == 0 {
        return Err(Error::msg("play: no segments in playlist"));
    }
    Ok(
        DownloadPlan {
            ts_out,
            remux_to,
            final_path,
            seq,
            maps,
            segs,
            workers: clamp_workers(workers),
        },
    )
}

/// The key URIs of encrypted segments, each once, in order of first use.
pub open spec fn key_uri_list(segs: Seq<SegView>) -> Seq<Seq<char>>
    decreases segs.len(),
{
    if segs.len() == 0 {
        seq![]
    } else {
        let prev = key_uri_list(segs.drop_last());
        match segs.last().crypto {
            CryptoView::Aes128 { uri, .. } => if prev.contains(uri) {
                prev
            } else {
                prev.push(uri)
            },
            CryptoView::Plain => prev,
        }
    }
}

/// The AES keys to fetch before the segments: each key URI once.
pub fn key_uris(segs: &Vec<Seg>) -> (r: Vec<String>)
    ensures
        crate::curl::string_views(r@) == key_uri_list(seg_views(segs@)),
{
    let ghost sv = seg_views(segs@);
    let mut out: Vec<String> = Vec::new();
    let mut i: usize = 0;
    while i < segs.len()
        invariant
            i <= segs@.len(),
            sv == seg_views(segs@),
            crate::curl::string_views(out@) == key_uri_list(sv.take(i as int)),
        decreases segs@.len() - i,
    {
        proof {
            assert(sv.take(i + 1).drop_last() =~= sv.take(i as int));
            assert(sv.take(i + 1).last() == segs@[i as int]@);
        }
        match &segs[i].crypto {
            Crypto::Aes128 { uri, .. } => {
                let ghost prev = crate::curl::string_views(out@);
                let mut found = false;
                let mut j: usize = 0;
                while j < out.len()
                    invariant
                        j <= out@.len(),
                        prev == crate::curl::string_views(out@),
                        found == exists|k: int| 0 <= k < j && prev[k] == uri@,
                    decreases out@.len() - j,
                {
                    assert(prev[j as int] == out@[j as int]@);
                    if out[j] == *uri {
                        found = true;
                    }
                    j += 1;
                }
                proof {
                    if prev.contains(uri@) {
                        let k = choose|k: int| 0 <= k < prev.len() && prev[k] == uri@;
                        assert(found);
                    }
                }
                if !found {
                    out.push(uri.clone());
                    proof {
                        assert(crate::curl::string_views(out@) =~= prev.push(uri@));
                    }
                }
            },
            Crypto::Plain => {},
        }
        i += 1;
    }
    proof {
        assert(sv.take(segs@.len() as int) =~= sv);
    }
    out
}

// ---------------------------------------------------------------------------
// Laws
// ---------------------------------------------------------------------------

/// The key URIs are those the segments name, each listed once.
pub proof fn law_key_uris_cover(segs: Seq<SegView>)
    ensures
        forall|i: int, j: int|
            0 <= i < j < key_uri_list(segs).len() ==> key_uri_list(segs)[i] != key_uri_list(segs)[j],
        forall|i: int|
            0 <= i < segs.len() ==> (#[trigger] segs[i].crypto matches CryptoView::Aes128 { uri, .. }
                ==> key_uri_list(segs).contains(uri)),
        forall|u: Seq<char>|
            key_uri_list(segs).contains(u) ==> exists|i: int|
                0 <= i < segs.len() && (#[trigger] segs[i].crypto matches CryptoView::Aes128 { uri, .. }
                    && uri == u),
    decreases segs.len(),
{
    if segs.len() > 0 {
        let pre = segs.drop_last();
        law_key_uris_cover(pre);
        let prev = key_uri_list(pre);
        let last = segs.len() - 1;
        assert forall|i: int| 0 <= i < segs.len() implies (#[trigger] segs[i].crypto matches CryptoView::Aes128 { uri, .. }
            ==> key_uri_list(segs).contains(uri)) by {
            if i < last {
                assert(segs[i] == pre[i]);
                if let CryptoView::Aes128 { uri, .. } = segs[i].crypto {
                    let k = choose|k: int| 0 <= k < prev.len() && prev[k] == uri;
                    if let CryptoView::Aes128 { uri: u2, .. } = segs.last().crypto {
                        if !prev.contains(u2) {
                            assert(key_uri_list(segs)[k] == uri);
                        }
                    }
                }
            } else if let CryptoView::Aes128 { uri, .. } = segs[i].crypto {
                if !prev.contains(uri) {
                    assert(key_uri_list(segs)[prev.len() as int] == uri);
                }
            }
        }
        assert forall|u: Seq<char>| key_uri_list(segs).contains(u) implies exists|i: int|
            0 <= i < segs.len() && (#[trigger] segs[i].crypto matches CryptoView::Aes128 { uri, .. }
                && uri == u) by {
            if prev.contains(u) {
                let i = choose|i: int| 0 <= i < pre.len() && (#[trigger] pre[i].crypto matches CryptoView::Aes128 { uri, .. }
                    && uri == u);
                assert(segs[i] == pre[i]);
            } else {
                let k = choose|k: int| 0 <= k < key_uri_list(segs).len() && key_uri_list(segs)[k] == u;
                assert(segs[last] == segs.last());
            }
        }
    }
}

/// Once every listed key is fetched, no segment fails for want of its key.
pub proof fn law_fetched_keys_suffice(
    segs: Seq<SegView>,
    keys: Map<Seq<char>, Vec<u8>>,
    i: int,
    body: Seq<u8>,
    seq_no: u64,
)
    requires
        0 <= i < segs.len(),
        forall|u: Seq<char>| key_uri_list(segs).contains(u) ==> #[trigger] keys.contains_key(u),
    ensures
        payload_spec(body, segs[i].crypto, seq_no, keys) != Err::<Seq<u8>, Seq<char>>(
            "play: missing AES key"@,
        ),
{
    law_key_uris_cover(segs);
    reveal_strlit("play: missing AES key");
    reveal_strlit("play: bad AES key/iv");
    reveal_strlit("play: AES decrypt failed");
    assert("play: missing AES key"@.len() != "play: bad AES key/iv"@.len());
    assert("play: missing AES key"@.len() != "play: AES decrypt failed"@.len());
    if let CryptoView::Aes128 { uri, .. } = segs[i].crypto {
        assert(keys.contains_key(uri));
    }
}

} // verus!
