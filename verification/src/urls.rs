//! Stream URLs: pseudo-protocol prefixes, the stream kind, default download
//! names, byte-range query cleanup, curl request targets and URL joining.
use vstd::prelude::*;
use crate::error::Error;
use crate::paths::{extension_of, file_name_of, file_stem_of, path_extension, path_file_name, path_file_stem};
use crate::text::{
    single,
    before_first, before_first_char, chars_eq, chars_of, concat, contains, eq_ignore_case,
    eq_ignore_case_str, eq_str, has_infix, has_prefix, has_suffix, join_pieces, join_with,
    lacks, lower_char, lowercase, push_all, push_str, split_char, split_on, split_once,
    split_once_char, starts_with_str, string_of, to_lowercase, ends_with_str,
};
use crate::weburl::{UrlParts, UrlView, join_parsed, parse_url, url_join, url_parse};

verus! {

/// The browser User-Agent sent when none is given.
pub const UA_DEFAULT: &'static str =
    "Mozilla/5.0 (Macintosh; Intel Mac OS X 10_15_7) AppleWebKit/537.36 (KHTML, like Gecko) Chrome/131.0.0.0 Safari/537.36";

/// How a stream is played or downloaded.
#[derive(Clone, Copy, Debug, PartialEq, Eq, Structural)]
pub enum Kind {
    Hls,
    Http,
    Dash,
}

/// The name of each kind.
pub open spec fn kind_name(k: Kind) -> Seq<char> {
    match k {
        Kind::Hls => "hls"@,
        Kind::Http => "http"@,
        Kind::Dash => "dash"@,
    }
}

impl Kind {
    /// `hls`, `http` or `dash`.
    pub fn as_str(self) -> (s: &'static str)
        ensures
            s@ == kind_name(self),
    {
        match self {
            Kind::Hls => "hls",
            Kind::Http => "http",
            Kind::Dash => "dash",
        }
    }
}

/// Text starts with one of the URL prefixes the player accepts.
pub open spec fn url_like(s: Seq<char>) -> bool {
    ||| has_prefix(s, "http://"@)
    ||| has_prefix(s, "https://"@)
    ||| has_prefix(s, "hls://"@)
    ||| has_prefix(s, "hlsvariant://"@)
    ||| has_prefix(s, "httpstream://"@)
    ||| has_prefix(s, "dash://"@)
}

/// Whether `s` is a URL the player accepts (http, https, or a
/// `hls://`-style pseudo-protocol).
pub fn is_url(s: &str) -> (b: bool)
    ensures
        b == url_like(s@),
{
    let c = chars_of(s);
    let v = c.as_slice();
    starts_with_str(v, "http://") || starts_with_str(v, "https://") || starts_with_str(v, "hls://")
        || starts_with_str(v, "hlsvariant://") || starts_with_str(v, "httpstream://")
        || starts_with_str(v, "dash://")
}

/// The URL without a `hlsvariant://`, `hls://`, `httpstream://` or
/// `dash://` pseudo-protocol prefix.
pub open spec fn stripped(u: Seq<char>) -> Seq<char> {
    if has_prefix(u, "hlsvariant://"@) {
        u.skip("hlsvariant://"@.len() as int)
    } else if has_prefix(u, "hls://"@) {
        u.skip("hls://"@.len() as int)
    } else if has_prefix(u, "httpstream://"@) {
        u.skip("httpstream://"@.len() as int)
    } else if has_prefix(u, "dash://"@) {
        u.skip("dash://"@.len() as int)
    } else {
        u
    }
}

fn skip_prefix(u: &[char], p: &str) -> (r: Option<Vec<char>>)
    ensures
        match r {
            Some(v) => has_prefix(u@, p@) && v@ == u@.skip(p@.len() as int),
            None => !has_prefix(u@, p@),
        },
{
    let pv = chars_of(p);
    if crate::text::starts_with(u, pv.as_slice()) {
        Some(crate::text::slice_chars(u, pv.len(), u.len()))
    } else {
        None
    }
}

/// `stripped` on characters.
pub fn strip_proto_chars(u: &[char]) -> (r: Vec<char>)
    ensures
        r@ == stripped(u@),
{
    if let Some(v) = skip_prefix(u, "hlsvariant://") {
        return v;
    }
    if let Some(v) = skip_prefix(u, "hls://") {
        return v;
    }
    if let Some(v) = skip_prefix(u, "httpstream://") {
        return v;
    }
    if let Some(v) = skip_prefix(u, "dash://") {
        return v;
    }
    crate::text::copy_chars(u)
}

/// The URL without its pseudo-protocol prefix.
pub fn strip_proto(url: &str) -> (r: String)
    ensures
        r@ == stripped(url@),
{
    let c = chars_of(url);
    let v = strip_proto_chars(c.as_slice());
    string_of(v.as_slice())
}

/// `scheme://authority` of a parsed URL, when it has a scheme and a host.
pub open spec fn origin_of_view(u: UrlView) -> Option<Seq<char>> {
    if u.scheme.len() == 0 || u.host is None {
        None
    } else {
        Some(u.scheme + "://"@ + u.authority)
    }
}

/// The origin of a URL (after its pseudo-protocol prefix).
pub open spec fn origin_spec(url: Seq<char>) -> Option<Seq<char>> {
    match url_parse(stripped(url)) {
        Some(u) => origin_of_view(u),
        None => None,
    }
}

/// The error text when no host can be read from a URL.
pub open spec fn no_host_text(url: Seq<char>) -> Seq<char> {
    "play: could not parse host from "@ + url
}

/// `scheme://authority` of parsed URL pieces.
pub fn origin_from(u: &UrlParts) -> (r: Option<String>)
    ensures
        match r {
            Some(s) => origin_of_view(u@) == Some(s@),
            None => origin_of_view(u@) is None,
        },
{
    if u.scheme.as_str().is_empty() || u.host.is_none() {
        return None;
    }
    let mut v = chars_of(u.scheme.as_str());
    push_str(&mut v, "://");
    push_str(&mut v, u.authority.as_str());
    Some(string_of(v.as_slice()))
}

/// `scheme://authority` of a URL, e.g. `https://cdn.example`.
pub fn origin_of(url: &str) -> (r: Result<String, Error>)
    ensures
        match r {
            Ok(s) => origin_spec(url@) == Some(s@),
            Err(e) => origin_spec(url@) is None && (e matches Error::Message(m) && m@
                == no_host_text(url@)),
        },
{
    let s = strip_proto(url);
    let parsed = parse_url(s.as_str());
    let o = match parsed {
        Some(u) => origin_from(&u),
        None => None,
    };
    match o {
        Some(x) => Ok(x),
        None => {
            let mut m = chars_of("play: could not parse host from ");
            push_str(&mut m, url);
            let t = string_of(m.as_slice());
            Err(Error::msg(t.as_str()))
        },
    }
}

/// Extensions of progressive video files.
pub open spec fn video_ext(e: Seq<char>) -> bool {
    e == ".mp4"@ || e == ".mkv"@ || e == ".webm"@ || e == ".m4v"@ || e == ".mov"@ || e == ".avi"@
}

/// The kind a (lowercased) file name suggests; HLS when nothing matches.
pub open spec fn kind_of_base(base: Seq<char>) -> Kind {
    if has_suffix(base, ".m3u8"@) || has_suffix(base, ".m3u"@) || has_suffix(base, ".txt"@) {
        Kind::Hls
    } else if has_suffix(base, ".mpd"@) {
        Kind::Dash
    } else if has_suffix(base, ".mp4"@) || has_suffix(base, ".mkv"@) || has_suffix(base, ".webm"@)
        || has_suffix(base, ".m4v"@) || has_suffix(base, ".mov"@) || has_suffix(base, ".avi"@) {
        Kind::Http
    } else {
        Kind::Hls
    }
}

/// The URL's path, or empty when it does not parse.
pub open spec fn path_or_empty(s: Seq<char>) -> Seq<char> {
    match url_parse(s) {
        Some(u) => u.path,
        None => Seq::<char>::empty(),
    }
}

/// The kind of a stream URL: an explicit pseudo-protocol wins, else the
/// file name of the URL path decides.
pub open spec fn kind_spec(url: Seq<char>) -> Kind {
    if has_prefix(url, "hls://"@) || has_prefix(url, "hlsvariant://"@) {
        Kind::Hls
    } else if has_prefix(url, "httpstream://"@) {
        Kind::Http
    } else if has_prefix(url, "dash://"@) {
        Kind::Dash
    } else {
        let name = match file_name_of(path_or_empty(stripped(url))) {
            Some(n) => n,
            None => Seq::<char>::empty(),
        };
        kind_of_base(lowercase(name))
    }
}

/// The kind a lowercased file name suggests.
pub fn kind_of_file_name(base: &[char]) -> (k: Kind)
    ensures
        k == kind_of_base(base@),
{
    if ends_with_str(base, ".m3u8") || ends_with_str(base, ".m3u") || ends_with_str(base, ".txt") {
        Kind::Hls
    } else if ends_with_str(base, ".mpd") {
        Kind::Dash
    } else if ends_with_str(base, ".mp4") || ends_with_str(base, ".mkv") || ends_with_str(
        base,
        ".webm",
    ) || ends_with_str(base, ".m4v") || ends_with_str(base, ".mov") || ends_with_str(
        base,
        ".avi",
    ) {
        Kind::Http
    } else {
        Kind::Hls
    }
}

/// A file name ending in a progressive video extension (`.mp4`, `.mkv`,
/// `.webm`, `.m4v`, `.mov`, `.avi`) and in none of the playlist or manifest
/// extensions is a plain file.
pub proof fn law_video_file_name_is_http(base: Seq<char>, ext: Seq<char>)
    requires
        ext == ".mp4"@ || ext == ".mkv"@ || ext == ".webm"@ || ext == ".m4v"@ || ext == ".mov"@
            || ext == ".avi"@,
        has_suffix(base, ext),
        !has_suffix(base, ".m3u8"@),
        !has_suffix(base, ".m3u"@),
        !has_suffix(base, ".txt"@),
        !has_suffix(base, ".mpd"@),
    ensures
        kind_of_base(base) == Kind::Http,
{
}

/// A file name ending in a playlist extension (`.m3u8`, `.m3u`, `.txt`) is
/// HLS; one ending in `.mpd` (and in no playlist extension) is DASH.
pub proof fn law_manifest_file_name_kind(base: Seq<char>)
    ensures
        has_suffix(base, ".m3u8"@) || has_suffix(base, ".m3u"@) || has_suffix(base, ".txt"@)
            ==> kind_of_base(base) == Kind::Hls,
        has_suffix(base, ".mpd"@) && !has_suffix(base, ".m3u8"@) && !has_suffix(base, ".m3u"@)
            && !has_suffix(base, ".txt"@) ==> kind_of_base(base) == Kind::Dash,
{
}

/// An explicit pseudo-protocol decides the kind, whatever the rest says.
pub proof fn law_pseudo_protocol_kind(url: Seq<char>)
    ensures
        has_prefix(url, "hls://"@) || has_prefix(url, "hlsvariant://"@) ==> kind_spec(url) == Kind::Hls,
        has_prefix(url, "httpstream://"@) ==> kind_spec(url) == Kind::Http,
        has_prefix(url, "dash://"@) ==> kind_spec(url) == Kind::Dash,
{
    reveal_strlit("hls://");
    reveal_strlit("hlsvariant://");
    reveal_strlit("httpstream://");
    reveal_strlit("dash://");
    if has_prefix(url, "httpstream://"@) {
        assert(url.subrange(0, 13)[1] == 't');
        if has_prefix(url, "hls://"@) {
            assert(url.subrange(0, 6)[1] == 'l');
        }
        if has_prefix(url, "hlsvariant://"@) {
            assert(url.subrange(0, 13)[1] == 'l');
        }
    }
    if has_prefix(url, "dash://"@) {
        assert(url.subrange(0, 7)[0] == 'd');
        if has_prefix(url, "hls://"@) {
            assert(url.subrange(0, 6)[0] == 'h');
        }
        if has_prefix(url, "hlsvariant://"@) {
            assert(url.subrange(0, 13)[0] == 'h');
        }
        if has_prefix(url, "httpstream://"@) {
            assert(url.subrange(0, 13)[0] == 'h');
        }
    }
}

/// A URL with no pseudo-protocol whose path names a progressive video file
/// (its lowercased file name ends in a video extension and in no playlist
/// or manifest extension) is played as a plain file.
pub proof fn law_video_url_is_http(url: Seq<char>, name: Seq<char>, ext: Seq<char>)
    requires
        !has_prefix(url, "hls://"@),
        !has_prefix(url, "hlsvariant://"@),
        !has_prefix(url, "httpstream://"@),
        !has_prefix(url, "dash://"@),
        file_name_of(path_or_empty(stripped(url))) == Some(name),
        ext == ".mp4"@ || ext == ".mkv"@ || ext == ".webm"@ || ext == ".m4v"@ || ext == ".mov"@
            || ext == ".avi"@,
        has_suffix(lowercase(name), ext),
        !has_suffix(lowercase(name), ".m3u8"@),
        !has_suffix(lowercase(name), ".m3u"@),
        !has_suffix(lowercase(name), ".txt"@),
        !has_suffix(lowercase(name), ".mpd"@),
    ensures
        kind_spec(url) == Kind::Http,
{
    law_video_file_name_is_http(lowercase(name), ext);
}

/// The URL's path as a string, empty when it does not parse.
fn url_path(s: &str) -> (r: String)
    ensures
        r@ == path_or_empty(s@),
{
    match parse_url(s) {
        Some(u) => u.path,
        None => String::new(),
    }
}

/// Whether a URL is an HLS playlist, a DASH manifest or a plain file.
pub fn detect_kind(url: &str) -> (k: Kind)
    ensures
        k == kind_spec(url@),
{
    let c = chars_of(url);
    let v = c.as_slice();
    if starts_with_str(v, "hls://") || starts_with_str(v, "hlsvariant://") {
        return Kind::Hls;
    }
    if starts_with_str(v, "httpstream://") {
        return Kind::Http;
    }
    if starts_with_str(v, "dash://") {
        return Kind::Dash;
    }
    let raw = strip_proto(url);
    let path = url_path(raw.as_str());
    let name = match path_file_name(path.as_str()) {
        Some(n) => n,
        None => String::new(),
    };
    let nc = chars_of(name.as_str());
    let base = to_lowercase(nc.as_slice());
    kind_of_file_name(base.as_slice())
}

// ---------------------------------------------------------------------------
// Default download names
// ---------------------------------------------------------------------------

/// Case-insensitive match of a character against a lowercase ASCII letter,
/// with Unicode simple case folding (`ſ` folds to `s`).
pub open spec fn ci_char(c: char, w: char) -> bool {
    lower_char(c) == w || (w == 's' && c == '\u{17f}')
}

/// `s` starts with `w`, case-insensitively.
pub open spec fn ci_prefix(s: Seq<char>, w: Seq<char>) -> bool {
    w.len() <= s.len() && forall|i: int| 0 <= i < w.len() ==> ci_char(#[trigger] s[i], w[i])
}

/// `s` is `w` (any case), optionally followed by `.`, `_` or `-` and a
/// rest without line breaks.
pub open spec fn generic_word(s: Seq<char>, w: Seq<char>) -> bool {
    ci_prefix(s, w) && (s.len() == w.len() || ((s[w.len() as int] == '.' || s[w.len() as int]
        == '_' || s[w.len() as int] == '-') && lacks(s.skip(w.len() + 1int), '\n')))
}

/// Generic playlist file stems such as `master`, `index-720p`, `Stream_v2`.
pub open spec fn generic_stem(s: Seq<char>) -> bool {
    ||| generic_word(s, "master"@)
    ||| generic_word(s, "index"@)
    ||| generic_word(s, "playlist"@)
    ||| generic_word(s, "chunklist"@)
    ||| generic_word(s, "manifest"@)
    ||| generic_word(s, "stream"@)
    ||| generic_word(s, "video"@)
}

fn ci_prefix_exec(s: &[char], w: &str) -> (b: bool)
    ensures
        b == ci_prefix(s@, w@),
{
    let wv = chars_of(w);
    if wv.len() > s.len() {
        return false;
    }
    let mut i: usize = 0;
    while i < wv.len()
        invariant
            i <= wv@.len(),
            wv@ == w@,
            wv@.len() <= s@.len(),
            forall|j: int| 0 <= j < i ==> ci_char(#[trigger] s@[j], wv@[j]),
        decreases wv@.len() - i,
    {
        let c = s[i];
        let lc = crate::text::lower_ascii_char(c);
        if !(lc == wv[i] || (wv[i] == 's' && c == '\u{17f}')) {
            return false;
        }
        i += 1;
    }
    true
}

fn generic_word_exec(s: &[char], w: &str) -> (b: bool)
    ensures
        b == generic_word(s@, w@),
{
    if !ci_prefix_exec(s, w) {
        return false;
    }
    let n = chars_of(w).len();
    if s.len() == n {
        return true;
    }
    let c = s[n];
    if !(c == '.' || c == '_' || c == '-') {
        return false;
    }
    let mut i = n + 1;
    while i < s.len()
        invariant
            n + 1 <= i <= s@.len(),
            n == w@.len(),
            ci_prefix(s@, w@),
            s@[n as int] == '.' || s@[n as int] == '_' || s@[n as int] == '-',
            forall|j: int| n + 1 <= j < i ==> s@[j] != '\n',
        decreases s@.len() - i,
    {
        if s[i] == '\n' {
            assert(s@.skip(n + 1)[i - n - 1] == '\n');
            return false;
        }
        i += 1;
    }
    true
}

/// Whether a file stem is a generic playlist name.
pub fn is_generic_stem(s: &[char]) -> (b: bool)
    ensures
        b == generic_stem(s@),
{
    generic_word_exec(s, "master") || generic_word_exec(s, "index") || generic_word_exec(
        s,
        "playlist",
    ) || generic_word_exec(s, "chunklist") || generic_word_exec(s, "manifest")
        || generic_word_exec(s, "stream") || generic_word_exec(s, "video")
}

/// The non-empty pieces of a split.
pub open spec fn nonempty_parts(p: Seq<Seq<char>>) -> Seq<Seq<char>>
    decreases p.len(),
{
    if p.len() == 0 {
        seq![]
    } else if p.last().len() == 0 {
        nonempty_parts(p.drop_last())
    } else {
        nonempty_parts(p.drop_last()).push(p.last())
    }
}

/// The lowercased `.ext` of a path segment, or the lowercase of an empty
/// text when it has none.
pub open spec fn dot_ext(seg: Seq<char>) -> Seq<char> {
    lowercase(
        match extension_of(seg) {
            Some(e) => "."@ + e,
            None => Seq::<char>::empty(),
        },
    )
}

/// A segment's file stem, or the segment itself when it has none.
pub open spec fn stem_or_self(seg: Seq<char>) -> Seq<char> {
    match file_stem_of(seg) {
        Some(s) => s,
        None => seg,
    }
}

/// The default download file name for a URL: a video file keeps its name;
/// otherwise the playlist stem (or its folder's, for generic names like
/// `master`) with `.mp4`; `stream.mp4` when the path is empty.
pub open spec fn auto_filename_spec(url: Seq<char>) -> Seq<char> {
    let parts = nonempty_parts(split_on(path_or_empty(stripped(url)), '/'));
    let n = parts.len() as int;
    if n > 0 && video_ext(dot_ext(parts[n - 1])) {
        parts[n - 1]
    } else if n == 0 {
        "stream.mp4"@
    } else {
        let stem = stem_or_self(parts[n - 1]);
        if generic_stem(stem) && n >= 2 {
            stem_or_self(parts[n - 2]) + ".mp4"@
        } else {
            stem + ".mp4"@
        }
    }
}

/// The non-empty segments of a URL's path.
pub open spec fn path_segments(url: Seq<char>) -> Seq<Seq<char>> {
    nonempty_parts(split_on(path_or_empty(stripped(url)), '/'))
}

/// A playlist whose file stem is a generic name (`master`, `index`,
/// `playlist`, `chunklist`, `manifest`, `stream` or `video`, in any ASCII
/// case, alone or followed by `.`, `_` or `-` and a rest without line
/// breaks) and that sits in a folder is named after that folder: the
/// folder's stem with `.mp4`.
pub proof fn law_generic_playlist_takes_folder(url: Seq<char>, word: Seq<char>)
    requires
        word == "master"@ || word == "index"@ || word == "playlist"@ || word == "chunklist"@
            || word == "manifest"@ || word == "stream"@ || word == "video"@,
        path_segments(url).len() >= 2,
        !video_ext(dot_ext(path_segments(url).last())),
        ({
            let stem = stem_or_self(path_segments(url).last());
            &&& word.len() <= stem.len()
            &&& crate::text::ascii_lower(stem.take(word.len() as int)) == word
            &&& (stem.len() == word.len() || ((stem[word.len() as int] == '.' || stem[word.len() as int]
                == '_' || stem[word.len() as int] == '-') && lacks(stem.skip(word.len() + 1int), '\n')))
        }),
    ensures
        auto_filename_spec(url) == stem_or_self(path_segments(url)[path_segments(url).len() - 2])
            + ".mp4"@,
{
    let parts = path_segments(url);
    let n = parts.len() as int;
    let stem = stem_or_self(parts[n - 1]);
    assert forall|i: int| 0 <= i < word.len() implies ci_char(#[trigger] stem[i], word[i]) by {
        assert(crate::text::ascii_lower(stem.take(word.len() as int))[i] == word[i]);
        assert(stem.take(word.len() as int)[i] == stem[i]);
    }
    assert(ci_prefix(stem, word));
    assert(generic_word(stem, word));
    assert(generic_stem(stem));
    assert(parts.last() == parts[n - 1]);
}

/// The non-empty pieces of `s` split at `c`.
pub fn nonempty_split(s: &[char], c: char) -> (r: Vec<Vec<char>>)
    ensures
        r@.map_values(|v: Vec<char>| v@) == nonempty_parts(split_on(s@, c)),
{
    let all = split_char(s, c);
    let ghost pieces = split_on(s@, c);
    let mut out: Vec<Vec<char>> = Vec::new();
    let mut i: usize = 0;
    while i < all.len()
        invariant
            i <= all@.len(),
            all@.len() == pieces.len(),
            forall|k: int| 0 <= k < all@.len() ==> #[trigger] all@[k]@ == pieces[k],
            out@.map_values(|v: Vec<char>| v@) == nonempty_parts(pieces.take(i as int)),
        decreases all@.len() - i,
    {
        let ghost before = out@;
        proof {
            assert(pieces.take(i + 1).drop_last() =~= pieces.take(i as int));
            assert(pieces.take(i + 1).last() == all@[i as int]@);
        }
        if all[i].len() > 0 {
            out.push(crate::text::copy_chars(all[i].as_slice()));
            proof {
                assert(out@.map_values(|v: Vec<char>| v@) =~= before.map_values(
                    |v: Vec<char>| v@,
                ).push(all@[i as int]@));
            }
        }
        i += 1;
    }
    assert(pieces.take(all@.len() as int) =~= pieces);
    out
}

fn stem_or_self_exec(seg: &[char]) -> (r: Vec<char>)
    ensures
        r@ == stem_or_self(seg@),
{
    let s = string_of(seg);
    match path_file_stem(s.as_str()) {
        Some(st) => chars_of(st.as_str()),
        None => crate::text::copy_chars(seg),
    }
}

/// The default file name for downloading `url`.
pub fn auto_filename(url: &str) -> (r: String)
    ensures
        r@ == auto_filename_spec(url@),
{
    let raw = strip_proto(url);
    let path = url_path(raw.as_str());
    let pc = chars_of(path.as_str());
    let parts = nonempty_split(pc.as_slice(), '/');
    let ghost ps = parts@.map_values(|v: Vec<char>| v@);
    let n = parts.len();
    if n > 0 {
        assert(parts@[n - 1]@ == ps[n - 1]);
        let last = string_of(parts[n - 1].as_slice());
        let dotted = match path_extension(last.as_str()) {
            Some(e) => {
                let mut d = chars_of(".");
                push_str(&mut d, e.as_str());
                d
            },
            None => Vec::new(),
        };
        let suffix = to_lowercase(dotted.as_slice());
        let sv = suffix.as_slice();
        if eq_str(sv, ".mp4") || eq_str(sv, ".mkv") || eq_str(sv, ".webm") || eq_str(sv, ".m4v")
            || eq_str(sv, ".mov") || eq_str(sv, ".avi") {
            return last;
        }
    }
    if n == 0 {
        return "stream.mp4".to_string();
    }
    let mut stem = stem_or_self_exec(parts[n - 1].as_slice());
    if is_generic_stem(stem.as_slice()) && n >= 2 {
        assert(parts@[n - 2]@ == ps[n - 2]);
        stem = stem_or_self_exec(parts[n - 2].as_slice());
    }
    push_str(&mut stem, ".mp4");
    string_of(stem.as_slice())
}

// ---------------------------------------------------------------------------
// Byte-range query parameters
// ---------------------------------------------------------------------------

/// Query keys some CDNs use for a byte range: `bytes`, `bytestart`,
/// `byteend` (any case).
pub open spec fn range_key(k: Seq<char>) -> bool {
    eq_ignore_case(k, "bytes"@) || eq_ignore_case(k, "bytestart"@) || eq_ignore_case(k, "byteend"@)
}

/// A `key=value` query pair whose key is a byte-range key.
pub open spec fn range_pair(p: Seq<char>) -> bool {
    range_key(before_first(p, '='))
}

/// The query pairs that are not byte-range pairs, in order.
pub open spec fn kept_pairs(p: Seq<Seq<char>>) -> Seq<Seq<char>>
    decreases p.len(),
{
    if p.len() == 0 {
        seq![]
    } else if range_pair(p.last()) {
        kept_pairs(p.drop_last())
    } else {
        kept_pairs(p.drop_last()).push(p.last())
    }
}

/// The URL without byte-range query pairs; the other pairs keep their exact
/// bytes and order, and a fragment stays. A URL with no such pair is
/// returned unchanged.
pub open spec fn strip_range_spec(url: Seq<char>) -> Seq<char> {
    match split_once(stripped(url), '?') {
        None => url,
        Some((base, rest)) => {
            let query = match split_once(rest, '#') {
                Some((q, _)) => q,
                None => rest,
            };
            let pairs = split_on(query, '&');
            let kept = kept_pairs(pairs);
            if kept.len() == pairs.len() {
                url
            } else {
                let out = if kept.len() == 0 {
                    base
                } else {
                    base + seq!['?'] + join_with(kept, seq!['&'])
                };
                match split_once(rest, '#') {
                    Some((_, f)) => out + seq!['#'] + f,
                    None => out,
                }
            }
        },
    }
}

/// Whether a query key is a byte-range key.
pub fn is_byte_range_query_key(k: &[char]) -> (b: bool)
    ensures
        b == range_key(k@),
{
    eq_ignore_case_str(k, "bytes") || eq_ignore_case_str(k, "bytestart") || eq_ignore_case_str(
        k,
        "byteend",
    )
}

proof fn lemma_kept_len(p: Seq<Seq<char>>)
    ensures
        kept_pairs(p).len() <= p.len(),
    decreases p.len(),
{
    if p.len() > 0 {
        lemma_kept_len(p.drop_last());
    }
}

/// Some CDNs encode a byte range in the query instead of a `Range` header
/// (`bytes=START-END`, or `bytestart`/`byteend`); a captured URL with one is
/// only that slice. Drop those pairs so the whole file is fetched; the
/// remaining pairs are kept byte-for-byte so CDN signatures still match.
pub fn strip_range_query(url: &str) -> (r: String)
    ensures
        r@ == strip_range_spec(url@),
{
    let uc = chars_of(url);
    let s = strip_proto_chars(uc.as_slice());
    let (base, rest) = match split_once_char(s.as_slice(), '?') {
        Some(p) => p,
        None => return url.to_string(),
    };
    let (query, frag) = match split_once_char(rest.as_slice(), '#') {
        Some((q, f)) => (q, Some(f)),
        None => (crate::text::copy_chars(rest.as_slice()), None),
    };
    let pairs = split_char(query.as_slice(), '&');
    let ghost ps = split_on(query@, '&');
    let mut kept: Vec<Vec<char>> = Vec::new();
    let mut i: usize = 0;
    while i < pairs.len()
        invariant
            i <= pairs@.len(),
            pairs@.len() == ps.len(),
            forall|k: int| 0 <= k < pairs@.len() ==> #[trigger] pairs@[k]@ == ps[k],
            kept@.map_values(|v: Vec<char>| v@) == kept_pairs(ps.take(i as int)),
        decreases pairs@.len() - i,
    {
        let key = before_first_char(pairs[i].as_slice(), '=');
        let ghost before = kept@;
        proof {
            assert(ps.take(i + 1).drop_last() =~= ps.take(i as int));
            assert(ps.take(i + 1).last() == pairs@[i as int]@);
        }
        if !is_byte_range_query_key(key.as_slice()) {
            kept.push(crate::text::copy_chars(pairs[i].as_slice()));
            proof {
                assert(kept@.map_values(|v: Vec<char>| v@) =~= before.map_values(
                    |v: Vec<char>| v@,
                ).push(pairs@[i as int]@));
            }
        }
        i += 1;
    }
    proof {
        assert(ps.take(pairs@.len() as int) =~= ps);
        lemma_kept_len(ps);
    }
    if kept.len() == pairs.len() {
        return url.to_string();
    }
    let mut out = if kept.len() == 0 {
        base
    } else {
        let mut o = base;
        o.push('?');
        let amp = single('&');
        let j = join_pieces(&kept, amp.as_slice());
        push_all(&mut o, j.as_slice());
        o
    };
    if let Some(f) = frag {
        out.push('#');
        push_all(&mut out, f.as_slice());
    }
    string_of(out.as_slice())
}

// ---------------------------------------------------------------------------
// curl request targets
// ---------------------------------------------------------------------------

/// `_` written as `%5F` (nginx WAFs reject `_` in the query when the path
/// holds `=`).
pub open spec fn waf_encoded(q: Seq<char>) -> Seq<char>
    decreases q.len(),
{
    if q.len() == 0 {
        seq![]
    } else if q.last() == '_' {
        waf_encoded(q.drop_last()) + "%5F"@
    } else {
        waf_encoded(q.drop_last()).push(q.last())
    }
}

/// `q.replace('_', "%5F")`.
pub fn waf_query(q: &[char]) -> (r: Vec<char>)
    ensures
        r@ == waf_encoded(q@),
{
    let mut r: Vec<char> = Vec::new();
    let mut i: usize = 0;
    while i < q.len()
        invariant
            i <= q@.len(),
            r@ == waf_encoded(q@.take(i as int)),
        decreases q@.len() - i,
    {
        proof {
            assert(q@.take(i + 1).drop_last() =~= q@.take(i as int));
        }
        if q[i] == '_' {
            push_str(&mut r, "%5F");
        } else {
            r.push(q[i]);
        }
        i += 1;
    }
    assert(q@.take(q@.len() as int) =~= q@);
    r
}

/// Path plus `?query` as parsed.
pub open spec fn request_target(u: UrlView) -> Seq<char> {
    match u.query {
        Some(q) => u.path + seq!['?'] + q,
        None => u.path,
    }
}

/// The request target with the query WAF-encoded when the path holds `=`.
pub open spec fn waf_target(u: UrlView) -> Seq<char> {
    match u.query {
        Some(q) => u.path + seq!['?'] + (if has_infix(u.path, seq!['=']) {
            waf_encoded(q)
        } else {
            q
        }),
        None => u.path,
    }
}

/// What `curl_connect_and_target` returns for a URL.
pub open spec fn connect_and_target_spec(raw: Seq<char>) -> (Seq<char>, Seq<char>) {
    match url_parse(stripped(raw)) {
        None => (raw, Seq::<char>::empty()),
        Some(u) => (u.scheme + "://"@ + u.authority + "/"@, waf_target(u)),
    }
}

fn request_target_exec(u: &UrlParts) -> (r: Vec<char>)
    ensures
        r@ == request_target(u@),
{
    let mut t = chars_of(u.path.as_str());
    if let Some(q) = &u.query {
        t.push('?');
        push_str(&mut t, q.as_str());
    }
    t
}

fn waf_target_exec(u: &UrlParts) -> (r: Vec<char>)
    ensures
        r@ == waf_target(u@),
{
    let path = chars_of(u.path.as_str());
    match &u.query {
        Some(q) => {
            let qc = chars_of(q.as_str());
            let eq = single('=');
            let enc = if contains(path.as_slice(), eq.as_slice()) {
                waf_query(qc.as_slice())
            } else {
                qc
            };
            let mut t = path;
            t.push('?');
            push_all(&mut t, enc.as_slice());
            t
        },
        None => path,
    }
}

/// Origin URL plus a request-target with WAF-safe query encoding (`_` →
/// `%5F` when the path holds `=`). The path is left as parsed: nginx-vod
/// urlset paths use commas, and encoding them breaks signed segment hashes.
pub fn curl_connect_and_target(raw: &str) -> (r: (String, String))
    ensures
        (r.0@, r.1@) == connect_and_target_spec(raw@),
{
    let s = strip_proto(raw);
    match parse_url(s.as_str()) {
        None => (raw.to_string(), String::new()),
        Some(u) => {
            let mut c = chars_of(u.scheme.as_str());
            push_str(&mut c, "://");
            push_str(&mut c, u.authority.as_str());
            push_str(&mut c, "/");
            let t = waf_target_exec(&u);
            (string_of(c.as_slice()), string_of(t.as_slice()))
        },
    }
}

/// curl URL arguments: the URL, preceded by `--request-target TARGET` only
/// when WAF encoding changes the path and query.
pub open spec fn curl_args_spec(raw: Seq<char>) -> Seq<Seq<char>> {
    let fetch = stripped(raw);
    match url_parse(fetch) {
        None => seq![raw],
        Some(u) => {
            let target = connect_and_target_spec(fetch).1;
            if target.len() == 0 || target == request_target(u) {
                seq![fetch]
            } else {
                seq!["--request-target"@, target, fetch]
            }
        },
    }
}

/// The URL arguments to pass to curl for `raw`.
pub fn curl_url_args(raw: &str) -> (r: Vec<String>)
    ensures
        r@.map_values(|s: String| s@) == curl_args_spec(raw@),
{
    let fetch = strip_proto(raw);
    let u = match parse_url(fetch.as_str()) {
        None => {
            let v = vec![raw.to_string()];
            assert(v@.map_values(|s: String| s@) =~= seq![raw@]);
            return v;
        },
        Some(u) => u,
    };
    let (_, target) = curl_connect_and_target(fetch.as_str());
    let tc = chars_of(target.as_str());
    let plain = request_target_exec(&u);
    if tc.len() == 0 || chars_eq(tc.as_slice(), plain.as_slice()) {
        let v = vec![fetch];
        assert(v@.map_values(|s: String| s@) =~= seq![stripped(raw@)]);
        v
    } else {
        let v = vec!["--request-target".to_string(), target, fetch];
        assert(v@.map_values(|s: String| s@) =~= seq![
            "--request-target"@,
            connect_and_target_spec(stripped(raw@)).1,
            stripped(raw@),
        ]);
        v
    }
}

/// The URL to resolve relative playlist entries against: curl may report
/// the bare origin as its effective URL; then the original URL is kept.
pub open spec fn restore_spec(original: Seq<char>, effective: Seq<char>) -> Seq<char> {
    let orig_s = stripped(original);
    match url_parse(orig_s) {
        None => effective,
        Some(o) => match url_parse(effective) {
            None => orig_s,
            Some(e) => if (e.path == "/"@ || e.path.len() == 0) && o.path != "/"@ && o.path.len()
                != 0 {
                orig_s
            } else {
                effective
            },
        },
    }
}

/// The playlist URL relative segments are joined against.
pub fn restore_effective_url(original: &str, effective: &str) -> (r: String)
    ensures
        r@ == restore_spec(original@, effective@),
{
    let orig_s = strip_proto(original);
    let o = match parse_url(orig_s.as_str()) {
        None => return effective.to_string(),
        Some(o) => o,
    };
    let e = match parse_url(effective) {
        None => return orig_s,
        Some(e) => e,
    };
    let ep = chars_of(e.path.as_str());
    let op = chars_of(o.path.as_str());
    if (eq_str(ep.as_slice(), "/") || ep.len() == 0) && !eq_str(op.as_slice(), "/") && op.len()
        != 0 {
        orig_s
    } else {
        effective.to_string()
    }
}

// ---------------------------------------------------------------------------
// Joining and unwrapping
// ---------------------------------------------------------------------------

/// The value of the first `url` query pair.
pub open spec fn first_url_param(pairs: Seq<(Seq<char>, Seq<char>)>) -> Option<Seq<char>>
    decreases pairs.len(),
{
    if pairs.len() == 0 {
        None
    } else if pairs[0].0 == "url"@ {
        Some(pairs[0].1)
    } else {
        first_url_param(pairs.drop_first())
    }
}

/// An http(s) URL.
pub open spec fn web_scheme(s: Seq<char>) -> bool {
    has_prefix(s, "http://"@) || has_prefix(s, "https://"@)
}

/// The inner `url=` of a `/proxy?url=` or `/fetch?url=` wrapper, when it is
/// an http(s) URL; else the URL itself.
pub open spec fn unwrap_spec(url: Seq<char>) -> Seq<char> {
    match url_parse(url) {
        None => url,
        Some(u) => match first_url_param(u.pairs) {
            Some(inner) => if web_scheme(inner) {
                inner
            } else {
                url
            },
            None => url,
        },
    }
}

/// The value of the first `url` query pair of parsed URL pieces.
pub fn first_url_value(u: &UrlParts) -> (r: Option<String>)
    ensures
        match r {
            Some(s) => first_url_param(u@.pairs) == Some(s@),
            None => first_url_param(u@.pairs) is None,
        },
{
    let ghost all = u@.pairs;
    assert(all.skip(0) =~= all);
    let mut i: usize = 0;
    while i < u.pairs.len()
        invariant
            i <= u.pairs@.len(),
            all == u@.pairs,
            all.len() == u.pairs@.len(),
            first_url_param(all) == first_url_param(all.skip(i as int)),
        decreases u.pairs@.len() - i,
    {
        let kc = chars_of(u.pairs[i].0.as_str());
        proof {
            assert(all.skip(i as int)[0] == crate::weburl::pair_view(u.pairs@[i as int]));
            assert(all.skip(i as int).drop_first() =~= all.skip(i + 1));
        }
        if eq_str(kc.as_slice(), "url") {
            return Some(u.pairs[i].1.clone());
        }
        i += 1;
    }
    None
}

/// Inner `url=` on `/proxy` and `/fetch` wrappers, else `url`.
pub fn unwrap_resource_url(url: &str) -> (r: String)
    ensures
        r@ == unwrap_spec(url@),
{
    let u = match parse_url(url) {
        None => return url.to_string(),
        Some(u) => u,
    };
    let inner = match first_url_value(&u) {
        None => return url.to_string(),
        Some(s) => s,
    };
    let ic = chars_of(inner.as_str());
    if starts_with_str(ic.as_slice(), "http://") || starts_with_str(ic.as_slice(), "https://") {
        inner
    } else {
        url.to_string()
    }
}

/// `rel` resolved against `base`, then unwrapped from a proxy wrapper; when
/// joining fails, `rel` itself (unwrapped).
pub open spec fn join_spec(base: Seq<char>, rel: Seq<char>) -> Seq<char> {
    let joined = match url_join(base, rel) {
        Some(j) => j,
        None => rel,
    };
    unwrap_spec(joined)
}

/// Resolve a playlist entry against the playlist URL.
pub fn join_url(base: &str, rel: &str) -> (r: String)
    ensures
        r@ == join_spec(base@, rel@),
{
    let joined = match join_parsed(base, rel) {
        Some(j) => j,
        None => rel.to_string(),
    };
    unwrap_resource_url(joined.as_str())
}

} // verus!
