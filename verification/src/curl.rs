//! Request headers captured from a browser: "Copy as cURL" commands, the
//! `play://open?...` fallback URL, the loopback capture query and the
//! extension's JSON body.
use vstd::prelude::*;
use crate::text::{
    ascii_lower, chars_of, eq_ignore_case, eq_ignore_case_str, eq_str, has_prefix, is_white,
    is_white_char, lowercase, replace_all, replace_chars, split_once, split_once_char,
    starts_with_str, string_of, to_ascii_lower, to_lowercase, trim, trim_chars, trim_start,
    trim_start_chars, trimmed, push_all, push_str, single, copy_chars, starts_with, slice_chars,
};
use crate::weburl::{opt_view, pair_view, parse_url, url_parse};

verus! {

// ---------------------------------------------------------------------------
// Captured headers
// ---------------------------------------------------------------------------

/// Headers extracted from a browser capture.
#[derive(Clone, Debug, Default)]
pub struct ParsedCurl {
    pub url: String,
    pub referer: Option<String>,
    pub origin: Option<String>,
    pub user_agent: Option<String>,
    pub cookie: Option<String>,
    pub cookie_host: Option<String>,
    pub subtitles: Option<Vec<String>>,
}

/// `ParsedCurl` as plain sequences.
pub struct CurlView {
    pub url: Seq<char>,
    pub referer: Option<Seq<char>>,
    pub origin: Option<Seq<char>>,
    pub user_agent: Option<Seq<char>>,
    pub cookie: Option<Seq<char>>,
    pub cookie_host: Option<Seq<char>>,
    pub subtitles: Option<Seq<Seq<char>>>,
}

/// The views of a list of strings.
pub open spec fn string_views(v: Seq<String>) -> Seq<Seq<char>> {
    v.map_values(|s: String| s@)
}

/// The views of a list of character vectors.
pub open spec fn char_views(v: Seq<Vec<char>>) -> Seq<Seq<char>> {
    v.map_values(|x: Vec<char>| x@)
}

pub open spec fn opt_list_view(o: Option<Vec<String>>) -> Option<Seq<Seq<char>>> {
    match o {
        Some(v) => Some(string_views(v@)),
        None => None,
    }
}

impl View for ParsedCurl {
    type V = CurlView;

    open spec fn view(&self) -> CurlView {
        CurlView {
            url: self.url@,
            referer: opt_view(self.referer),
            origin: opt_view(self.origin),
            user_agent: opt_view(self.user_agent),
            cookie: opt_view(self.cookie),
            cookie_host: opt_view(self.cookie_host),
            subtitles: opt_list_view(self.subtitles),
        }
    }
}

pub open spec fn opt_chars(o: Option<Vec<char>>) -> Option<Seq<char>> {
    match o {
        Some(v) => Some(v@),
        None => None,
    }
}

fn opt_string(o: Option<Vec<char>>) -> (r: Option<String>)
    ensures
        opt_view(r) == opt_chars(o),
{
    match o {
        Some(v) => Some(string_of(v.as_slice())),
        None => None,
    }
}

// ---------------------------------------------------------------------------
// Shell words
// ---------------------------------------------------------------------------

/// Where the shell-word scanner stands: between words, inside a bare word,
/// or inside a word quoted by the given character.
pub enum Lex {
    Between,
    Word(Seq<char>),
    Quoted(char, Seq<char>),
}

/// The words of `c` from index `i` on, the scanner standing in state `st`.
/// Words are separated by white space; `'...'` and `"..."` quote, and inside
/// double quotes a backslash takes the next character literally. An
/// unterminated quote runs to the end.
pub open spec fn lex(c: Seq<char>, i: int, st: Lex) -> Seq<Seq<char>>
    decreases c.len() - i,
{
    if i < 0 || i >= c.len() {
        match st {
            Lex::Between => seq![],
            Lex::Word(w) => seq![w],
            Lex::Quoted(_, w) => seq![w],
        }
    } else {
        let ch = c[i];
        match st {
            Lex::Between => if is_white(ch) {
                lex(c, i + 1, Lex::Between)
            } else if ch == '\'' || ch == '"' {
                lex(c, i + 1, Lex::Quoted(ch, seq![]))
            } else {
                lex(c, i + 1, Lex::Word(seq![ch]))
            },
            Lex::Word(w) => if is_white(ch) {
                seq![w] + lex(c, i + 1, Lex::Between)
            } else {
                lex(c, i + 1, Lex::Word(w.push(ch)))
            },
            Lex::Quoted(q, w) => if ch == q {
                seq![w] + lex(c, i + 1, Lex::Between)
            } else if ch == '\\' && q == '"' && i + 1 < c.len() {
                lex(c, i + 2, Lex::Quoted(q, w.push(c[i + 1])))
            } else {
                lex(c, i + 1, Lex::Quoted(q, w.push(ch)))
            },
        }
    }
}

/// Backslash line continuations (`\` then CRLF or LF) become spaces.
pub open spec fn unfold_lines(s: Seq<char>) -> Seq<char> {
    replace_all(replace_all(s, "\\\r\n"@, " "@), "\\\n"@, " "@)
}

/// The shell words of a command line.
pub open spec fn shell_words(s: Seq<char>) -> Seq<Seq<char>> {
    lex(unfold_lines(s), 0, Lex::Between)
}

enum Mode {
    Between,
    Word,
    Quoted(char),
}

spec fn lex_state(m: Mode, cur: Seq<char>) -> Lex {
    match m {
        Mode::Between => Lex::Between,
        Mode::Word => Lex::Word(cur),
        Mode::Quoted(q) => Lex::Quoted(q, cur),
    }
}

proof fn lemma_emit(a: Seq<Seq<char>>, w: Seq<char>, rest: Seq<Seq<char>>)
    ensures
        a + (seq![w] + rest) == a.push(w) + rest,
{
    assert(a + (seq![w] + rest) =~= a.push(w) + rest);
}

proof fn lemma_char_views_push(v: Seq<Vec<char>>, x: Vec<char>)
    ensures
        char_views(v.push(x)) == char_views(v).push(x@),
{
    assert(char_views(v.push(x)) =~= char_views(v).push(x@));
}

/// Splits a shell command line into words.
pub fn tokenize_shell(input: &str) -> (r: Vec<Vec<char>>)
    ensures
        char_views(r@) == shell_words(input@),
{
    let raw = chars_of(input);
    let crlf = chars_of("\\\r\n");
    let lf = chars_of("\\\n");
    let sp = chars_of(" ");
    proof {
        reveal_strlit("\\\r\n");
        reveal_strlit("\\\n");
    }
    let a = replace_chars(raw.as_slice(), crlf.as_slice(), sp.as_slice());
    let c = replace_chars(a.as_slice(), lf.as_slice(), sp.as_slice());
    let mut toks: Vec<Vec<char>> = Vec::new();
    let mut mode = Mode::Between;
    let mut cur: Vec<char> = Vec::new();
    let mut i: usize = 0;
    proof {
        assert(char_views(toks@) + lex(c@, 0, Lex::Between) =~= lex(c@, 0, Lex::Between));
    }
    while i < c.len()
        invariant
            i <= c@.len(),
            char_views(toks@) + lex(c@, i as int, lex_state(mode, cur@)) == lex(
                c@,
                0,
                Lex::Between,
            ),
        decreases c@.len() - i,
    {
        let ch = c[i];
        let ghost before = toks@;
        let ghost w = cur@;
        match mode {
            Mode::Between => {
                if is_white_char(ch) {
                } else if ch == '\'' || ch == '"' {
                    mode = Mode::Quoted(ch);
                    cur = Vec::new();
                } else {
                    mode = Mode::Word;
                    cur = Vec::new();
                    cur.push(ch);
                }
                i += 1;
            },
            Mode::Word => {
                if is_white_char(ch) {
                    toks.push(cur);
                    cur = Vec::new();
                    mode = Mode::Between;
                    proof {
                        lemma_char_views_push(before, toks@.last());
                        lemma_emit(char_views(before), w, lex(c@, i + 1, Lex::Between));
                    }
                } else {
                    cur.push(ch);
                }
                i += 1;
            },
            Mode::Quoted(q) => {
                if ch == q {
                    toks.push(cur);
                    cur = Vec::new();
                    mode = Mode::Between;
                    proof {
                        lemma_char_views_push(before, toks@.last());
                        lemma_emit(char_views(before), w, lex(c@, i + 1, Lex::Between));
                    }
                    i += 1;
                } else if ch == '\\' && q == '"' && i + 1 < c.len() {
                    cur.push(c[i + 1]);
                    i += 2;
                } else {
                    cur.push(ch);
                    i += 1;
                }
            },
        }
    }
    let ghost before = toks@;
    let ghost w = cur@;
    match mode {
        Mode::Between => {
            assert(char_views(toks@) + seq![] =~= char_views(toks@));
        },
        _ => {
            toks.push(cur);
            proof {
                lemma_char_views_push(before, toks@.last());
                lemma_emit(char_views(before), w, seq![]);
                assert(char_views(toks@) + seq![] =~= char_views(toks@));
            }
        },
    }
    toks
}

// ---------------------------------------------------------------------------
// "Copy as cURL"
// ---------------------------------------------------------------------------

/// Text that starts (after white space) like a curl command.
pub open spec fn curl_like(text: Seq<char>) -> bool {
    let t = trim_start(text);
    has_prefix(t, "curl "@) || has_prefix(t, "curl\t"@) || has_prefix(t, "curl\n"@) || has_prefix(
        t,
        "curl.exe"@,
    )
}

fn looks_like_curl(text: &str) -> (b: bool)
    ensures
        b == curl_like(text@),
{
    let c = chars_of(text);
    let t = trim_start_chars(c.as_slice());
    let s = t.as_slice();
    starts_with_str(s, "curl ") || starts_with_str(s, "curl\t") || starts_with_str(s, "curl\n")
        || starts_with_str(s, "curl.exe")
}

/// A `Name: value` header with both sides trimmed, when neither is empty.
pub open spec fn header_spec(raw: Seq<char>) -> Option<(Seq<char>, Seq<char>)> {
    match split_once(raw, ':') {
        None => None,
        Some((k, v)) => if trim(k).len() == 0 || trim(v).len() == 0 {
            None
        } else {
            Some((trim(k), trim(v)))
        },
    }
}

fn header_pair(raw: &[char]) -> (r: Option<(Vec<char>, Vec<char>)>)
    ensures
        match r {
            Some(p) => header_spec(raw@) == Some((p.0@, p.1@)),
            None => header_spec(raw@) is None,
        },
{
    let (k, v) = match split_once_char(raw, ':') {
        Some(p) => p,
        None => return None,
    };
    let k = trim_chars(k.as_slice());
    let v = trim_chars(v.as_slice());
    if k.len() == 0 || v.len() == 0 {
        return None;
    }
    Some((k, v))
}

/// The headers the curl scan has collected so far.
pub struct CurlFields {
    pub url: Option<Seq<char>>,
    pub referer: Option<Seq<char>>,
    pub origin: Option<Seq<char>>,
    pub user_agent: Option<Seq<char>>,
    pub cookie: Option<Seq<char>>,
}

pub open spec fn no_fields() -> CurlFields {
    CurlFields { url: None, referer: None, origin: None, user_agent: None, cookie: None }
}

pub open spec fn set_url(f: CurlFields, v: Seq<char>) -> CurlFields {
    CurlFields { url: Some(v), referer: f.referer, origin: f.origin, user_agent: f.user_agent, cookie: f.cookie }
}

pub open spec fn set_referer(f: CurlFields, v: Seq<char>) -> CurlFields {
    CurlFields { url: f.url, referer: Some(v), origin: f.origin, user_agent: f.user_agent, cookie: f.cookie }
}

pub open spec fn set_origin(f: CurlFields, v: Seq<char>) -> CurlFields {
    CurlFields { url: f.url, referer: f.referer, origin: Some(v), user_agent: f.user_agent, cookie: f.cookie }
}

pub open spec fn set_agent(f: CurlFields, v: Seq<char>) -> CurlFields {
    CurlFields { url: f.url, referer: f.referer, origin: f.origin, user_agent: Some(v), cookie: f.cookie }
}

pub open spec fn set_cookie(f: CurlFields, v: Seq<char>) -> CurlFields {
    CurlFields { url: f.url, referer: f.referer, origin: f.origin, user_agent: f.user_agent, cookie: Some(v) }
}

/// A `-H` header recorded by (ASCII-case-insensitive) name; others are
/// ignored.
pub open spec fn with_header(f: CurlFields, k: Seq<char>, v: Seq<char>) -> CurlFields {
    let lk = ascii_lower(k);
    if lk == "referer"@ {
        set_referer(f, v)
    } else if lk == "origin"@ {
        set_origin(f, v)
    } else if lk == "user-agent"@ {
        set_agent(f, v)
    } else if lk == "cookie"@ {
        set_cookie(f, v)
    } else {
        f
    }
}

/// One step of the flag scan at word `i`: the fields after it and the
/// number of words it takes (one, or two for a flag with its value).
pub open spec fn curl_step(t: Seq<Seq<char>>, i: int, f: CurlFields) -> (CurlFields, int) {
    let tok = t[i];
    let has_next = i + 1 < t.len();
    let next = t[i + 1];
    if tok == "-H"@ || tok == "--header"@ {
        match header_spec(next) {
            Some((k, v)) => if has_next {
                (with_header(f, k, v), 2)
            } else {
                (f, 1)
            },
            None => (f, 1),
        }
    } else if tok == "-e"@ || tok == "--referer"@ {
        if has_next {
            (set_referer(f, next), 2)
        } else {
            (f, 1)
        }
    } else if tok == "-A"@ || tok == "--user-agent"@ {
        if has_next {
            (set_agent(f, next), 2)
        } else {
            (f, 1)
        }
    } else if tok == "-b"@ || tok == "--cookie"@ {
        if has_next && !has_prefix(next, seq!['-']) {
            (set_cookie(f, next), 2)
        } else {
            (f, 1)
        }
    } else if tok == "--url"@ {
        if has_next {
            (set_url(f, next), 2)
        } else {
            (f, 1)
        }
    } else if has_prefix(tok, seq!['-']) {
        (f, 1)
    } else if f.url is None && (has_prefix(tok, "http://"@) || has_prefix(tok, "https://"@)) {
        (set_url(f, tok), 1)
    } else {
        (f, 1)
    }
}

/// The fields after scanning words `i..` of `t`.
pub open spec fn curl_scan(t: Seq<Seq<char>>, i: int, f: CurlFields) -> CurlFields
    decreases t.len() - i,
{
    if i < 0 || i >= t.len() {
        f
    } else {
        let (g, n) = curl_step(t, i, f);
        if n >= 1 {
            curl_scan(t, i + n, g)
        } else {
            g
        }
    }
}

/// Index of the first flag word: 1 after a leading `curl` / `curl.exe`.
pub open spec fn curl_start(t: Seq<Seq<char>>) -> int {
    if eq_ignore_case(t[0], "curl.exe"@) || eq_ignore_case(t[0], "curl"@) {
        1
    } else {
        0
    }
}

/// What "Copy as cURL" text yields: `None` when it is not a curl command or
/// names no URL.
pub open spec fn parse_curl_spec(text: Seq<char>) -> Option<CurlView> {
    if !curl_like(text) {
        None
    } else {
        let t = shell_words(text);
        if t.len() == 0 {
            None
        } else {
            let f = curl_scan(t, curl_start(t), no_fields());
            match f.url {
                None => None,
                Some(u) => Some(
                    CurlView {
                        url: u,
                        referer: f.referer,
                        origin: f.origin,
                        user_agent: f.user_agent,
                        cookie: f.cookie,
                        cookie_host: None,
                        subtitles: None,
                    },
                ),
            }
        }
    }
}

spec fn fields_view(
    url: Option<Vec<char>>,
    referer: Option<Vec<char>>,
    origin: Option<Vec<char>>,
    agent: Option<Vec<char>>,
    cookie: Option<Vec<char>>,
) -> CurlFields {
    CurlFields {
        url: opt_chars(url),
        referer: opt_chars(referer),
        origin: opt_chars(origin),
        user_agent: opt_chars(agent),
        cookie: opt_chars(cookie),
    }
}

/// Parses Chrome/Safari "Copy as cURL": the URL (the first bare http(s)
/// word, or `--url`), and the referer, origin, user agent and cookie given
/// by `-H`, `-e`, `-A` and `-b`. `None` when the text is not a curl command
/// or names no URL.
pub fn parse_curl(text: &str) -> (r: Option<ParsedCurl>)
    ensures
        match r {
            Some(p) => parse_curl_spec(text@) == Some(p@),
            None => parse_curl_spec(text@) is None,
        },
{
    if !looks_like_curl(text) {
        return None;
    }
    let tokens = tokenize_shell(text);
    if tokens.len() == 0 {
        return None;
    }
    let ghost t = char_views(tokens@);
    let dash = single('-');
    let mut url: Option<Vec<char>> = None;
    let mut referer: Option<Vec<char>> = None;
    let mut origin: Option<Vec<char>> = None;
    let mut agent: Option<Vec<char>> = None;
    let mut cookie: Option<Vec<char>> = None;
    let mut i: usize = if eq_ignore_case_str(tokens[0].as_slice(), "curl.exe")
        || eq_ignore_case_str(tokens[0].as_slice(), "curl") {
        1
    } else {
        0
    };
    proof {
        assert(t[0] == tokens@[0]@);
    }
    let ghost start = i as int;
    assert(start == curl_start(t));
    while i < tokens.len()
        invariant
            i <= tokens@.len(),
            t == char_views(tokens@),
            dash@ == seq!['-'],
            curl_scan(t, i as int, fields_view(url, referer, origin, agent, cookie)) == curl_scan(
                t,
                start,
                no_fields(),
            ),
        decreases tokens@.len() - i,
    {
        let ghost f = fields_view(url, referer, origin, agent, cookie);
        let tok = tokens[i].as_slice();
        let has_next = i + 1 < tokens.len();
        proof {
            assert(t[i as int] == tok@);
            if has_next {
                assert(t[i + 1] == tokens@[i + 1]@);
            }
        }
        let mut step: usize = 1;
        if eq_str(tok, "-H") || eq_str(tok, "--header") {
            if has_next {
                match header_pair(tokens[i + 1].as_slice()) {
                    Some((k, v)) => {
                        let lk = to_ascii_lower(k.as_slice());
                        if eq_str(lk.as_slice(), "referer") {
                            referer = Some(v);
                        } else if eq_str(lk.as_slice(), "origin") {
                            origin = Some(v);
                        } else if eq_str(lk.as_slice(), "user-agent") {
                            agent = Some(v);
                        } else if eq_str(lk.as_slice(), "cookie") {
                            cookie = Some(v);
                        }
                        step = 2;
                    },
                    None => {},
                }
            }
        } else if eq_str(tok, "-e") || eq_str(tok, "--referer") {
            if has_next {
                referer = Some(copy_chars(tokens[i + 1].as_slice()));
                step = 2;
            }
        } else if eq_str(tok, "-A") || eq_str(tok, "--user-agent") {
            if has_next {
                agent = Some(copy_chars(tokens[i + 1].as_slice()));
                step = 2;
            }
        } else if eq_str(tok, "-b") || eq_str(tok, "--cookie") {
            if has_next && !starts_with(tokens[i + 1].as_slice(), dash.as_slice()) {
                cookie = Some(copy_chars(tokens[i + 1].as_slice()));
                step = 2;
            }
        } else if eq_str(tok, "--url") {
            if has_next {
                url = Some(copy_chars(tokens[i + 1].as_slice()));
                step = 2;
            }
        } else if starts_with(tok, dash.as_slice()) {
        } else if url.is_none() && (starts_with_str(tok, "http://") || starts_with_str(
            tok,
            "https://",
        )) {
            url = Some(copy_chars(tok));
        }
        proof {
            let (g, n) = curl_step(t, i as int, f);
            assert(g == fields_view(url, referer, origin, agent, cookie));
            assert(n == step);
        }
        i += step;
    }
    let u = match url {
        Some(u) => u,
        None => return None,
    };
    Some(
        ParsedCurl {
            url: string_of(u.as_slice()),
            referer: opt_string(referer),
            origin: opt_string(origin),
            user_agent: opt_string(agent),
            cookie: opt_string(cookie),
            cookie_host: None,
            subtitles: None,
        },
    )
}

// ---------------------------------------------------------------------------
// Extension captures
// ---------------------------------------------------------------------------

/// The trimmed text when it is an http(s) URL that parses.
pub open spec fn http_https_spec(s: Seq<char>) -> Option<Seq<char>> {
    let t = trim(s);
    if (has_prefix(t, "http://"@) || has_prefix(t, "https://"@)) && url_parse(t) is Some {
        Some(t)
    } else {
        None
    }
}

/// `http_https_spec` on an optional text.
pub open spec fn and_http(o: Option<Seq<char>>) -> Option<Seq<char>> {
    match o {
        Some(v) => http_https_spec(v),
        None => None,
    }
}

/// The trimmed text when it is an http(s) URL that parses.
pub fn http_https(s: &str) -> (r: Option<String>)
    ensures
        opt_view(r) == http_https_spec(s@),
{
    let t = trimmed(s);
    if !(starts_with_str(t.as_slice(), "http://") || starts_with_str(t.as_slice(), "https://")) {
        return None;
    }
    let ts = string_of(t.as_slice());
    match parse_url(ts.as_str()) {
        Some(_) => Some(ts),
        None => None,
    }
}

/// The value of the last query pair named `k1` or `k2`.
pub open spec fn last_value(
    pairs: Seq<(Seq<char>, Seq<char>)>,
    k1: Seq<char>,
    k2: Seq<char>,
) -> Option<Seq<char>>
    decreases pairs.len(),
{
    if pairs.len() == 0 {
        None
    } else if pairs.last().0 == k1 || pairs.last().0 == k2 {
        Some(pairs.last().1)
    } else {
        last_value(pairs.drop_last(), k1, k2)
    }
}

/// A capture from decoded query pairs: the last `url`, `referer` or
/// `initiator`, and `origin` each count when they are http(s) URLs; no URL,
/// no capture.
pub open spec fn capture_pairs_spec(pairs: Seq<(Seq<char>, Seq<char>)>) -> Option<CurlView> {
    match and_http(last_value(pairs, "url"@, "url"@)) {
        None => None,
        Some(u) => Some(
            CurlView {
                url: u,
                referer: and_http(last_value(pairs, "referer"@, "initiator"@)),
                origin: and_http(last_value(pairs, "origin"@, "origin"@)),
                user_agent: None,
                cookie: None,
                cookie_host: None,
                subtitles: None,
            },
        ),
    }
}

pub open spec fn pair_views(v: Seq<(String, String)>) -> Seq<(Seq<char>, Seq<char>)> {
    v.map_values(|p: (String, String)| pair_view(p))
}

/// Builds a capture from decoded query pairs.
pub fn capture_from_pairs(pairs: &Vec<(String, String)>) -> (r: Option<ParsedCurl>)
    ensures
        match r {
            Some(p) => capture_pairs_spec(pair_views(pairs@)) == Some(p@),
            None => capture_pairs_spec(pair_views(pairs@)) is None,
        },
{
    let ghost pv = pair_views(pairs@);
    let mut url: Option<String> = None;
    let mut referer: Option<String> = None;
    let mut origin: Option<String> = None;
    let mut i: usize = 0;
    while i < pairs.len()
        invariant
            i <= pairs@.len(),
            pv == pair_views(pairs@),
            opt_view(url) == and_http(last_value(pv.take(i as int), "url"@, "url"@)),
            opt_view(referer) == and_http(
                last_value(pv.take(i as int), "referer"@, "initiator"@),
            ),
            opt_view(origin) == and_http(last_value(pv.take(i as int), "origin"@, "origin"@)),
        decreases pairs@.len() - i,
    {
        let k = chars_of(pairs[i].0.as_str());
        proof {
            assert(pv.take(i + 1).drop_last() =~= pv.take(i as int));
            assert(pv.take(i + 1).last() == pair_view(pairs@[i as int]));
            reveal_strlit("url");
            reveal_strlit("referer");
            reveal_strlit("initiator");
            reveal_strlit("origin");
            assert("url"@.len() == 3);
            assert("referer"@.len() == 7);
            assert("origin"@.len() == 6);
            assert("url"@ != "referer"@);
            assert("url"@ != "origin"@);
            assert("origin"@ != "referer"@);
            assert("origin"@ != "initiator"@);
            assert("url"@ != "initiator"@);
        }
        if eq_str(k.as_slice(), "url") {
            url = http_https(pairs[i].1.as_str());
        } else if eq_str(k.as_slice(), "referer") || eq_str(k.as_slice(), "initiator") {
            referer = http_https(pairs[i].1.as_str());
        } else if eq_str(k.as_slice(), "origin") {
            origin = http_https(pairs[i].1.as_str());
        }
        i += 1;
    }
    proof {
        assert(pv.take(pairs@.len() as int) =~= pv);
    }
    let u = match url {
        Some(u) => u,
        None => return None,
    };
    Some(
        ParsedCurl {
            url: u,
            referer,
            origin,
            user_agent: None,
            cookie: None,
            cookie_host: None,
            subtitles: None,
        },
    )
}

/// A `play://open?url=...&referer=...&origin=...` link: its query pairs,
/// when the trimmed text parses with scheme `play`.
pub open spec fn capture_url_spec(raw: Seq<char>) -> Option<CurlView> {
    match url_parse(trim(raw)) {
        None => None,
        Some(u) => if u.scheme != "play"@ {
            None
        } else {
            capture_pairs_spec(u.pairs)
        },
    }
}

/// `play://open?url=...&referer=...&origin=...` from the extension fallback.
pub fn parse_capture_url(raw: &str) -> (r: Option<ParsedCurl>)
    ensures
        match r {
            Some(p) => capture_url_spec(raw@) == Some(p@),
            None => capture_url_spec(raw@) is None,
        },
{
    let t = trimmed(raw);
    let ts = string_of(t.as_slice());
    let u = match parse_url(ts.as_str()) {
        Some(u) => u,
        None => return None,
    };
    let sc = chars_of(u.scheme.as_str());
    if !eq_str(sc.as_slice(), "play") {
        return None;
    }
    capture_from_pairs(&u.pairs)
}

/// `s` without its leading `c` characters (`trim_start_matches(c)`).
pub open spec fn strip_leading(s: Seq<char>, c: char) -> Seq<char>
    decreases s.len(),
{
    if s.len() > 0 && s[0] == c {
        strip_leading(s.drop_first(), c)
    } else {
        s
    }
}

fn strip_leading_chars(s: &[char], c: char) -> (r: Vec<char>)
    ensures
        r@ == strip_leading(s@, c),
{
    let mut i: usize = 0;
    proof {
        assert(s@.skip(0) =~= s@);
    }
    while i < s.len() && s[i] == c
        invariant
            i <= s@.len(),
            strip_leading(s@.skip(i as int), c) == strip_leading(s@, c),
        decreases s@.len() - i,
    {
        proof {
            assert(s@.skip(i as int).drop_first() =~= s@.skip(i + 1));
        }
        i += 1;
    }
    let r = slice_chars(s, i, s.len());
    proof {
        assert(r@ =~= s@.skip(i as int));
    }
    r
}

/// The query of `GET /open?url=...` on the loopback capture port: leading
/// `?` dropped, read as the query of a dummy loopback URL.
pub open spec fn capture_query_spec(query: Seq<char>) -> Option<CurlView> {
    let q = strip_leading(trim(query), '?');
    if q.len() == 0 {
        None
    } else {
        match url_parse("http://127.0.0.1/open?"@ + q) {
            None => None,
            Some(u) => capture_pairs_spec(u.pairs),
        }
    }
}

/// Query string from `GET /open?url=...` on the loopback capture port.
pub fn parse_capture_query(query: &str) -> (r: Option<ParsedCurl>)
    ensures
        match r {
            Some(p) => capture_query_spec(query@) == Some(p@),
            None => capture_query_spec(query@) is None,
        },
{
    let t = trimmed(query);
    let q = strip_leading_chars(t.as_slice(), '?');
    if q.len() == 0 {
        return None;
    }
    let mut d = chars_of("http://127.0.0.1/open?");
    push_all(&mut d, q.as_slice());
    let ds = string_of(d.as_slice());
    let u = match parse_url(ds.as_str()) {
        Some(u) => u,
        None => return None,
    };
    capture_from_pairs(&u.pairs)
}

/// The extension's JSON capture, field by field.
#[derive(Clone, Debug, Default)]
pub struct CaptureBody {
    pub url: String,
    pub referer: Option<String>,
    pub frame: Option<String>,
    pub origin: Option<String>,
    pub initiator: Option<String>,
    pub user_agent: Option<String>,
    pub cookie: Option<String>,
    pub cookie_host: Option<String>,
    pub subtitles: Option<Vec<String>>,
}

/// `CaptureBody` as plain sequences.
pub struct CaptureBodyView {
    pub url: Seq<char>,
    pub referer: Option<Seq<char>>,
    pub frame: Option<Seq<char>>,
    pub origin: Option<Seq<char>>,
    pub initiator: Option<Seq<char>>,
    pub user_agent: Option<Seq<char>>,
    pub cookie: Option<Seq<char>>,
    pub cookie_host: Option<Seq<char>>,
    pub subtitles: Option<Seq<Seq<char>>>,
}

impl View for CaptureBody {
    type V = CaptureBodyView;

    open spec fn view(&self) -> CaptureBodyView {
        CaptureBodyView {
            url: self.url@,
            referer: opt_view(self.referer),
            frame: opt_view(self.frame),
            origin: opt_view(self.origin),
            initiator: opt_view(self.initiator),
            user_agent: opt_view(self.user_agent),
            cookie: opt_view(self.cookie),
            cookie_host: opt_view(self.cookie_host),
            subtitles: opt_list_view(self.subtitles),
        }
    }
}

/// The first of three optional texts that is an http(s) URL.
pub open spec fn first_web(
    a: Option<Seq<char>>,
    b: Option<Seq<char>>,
    c: Option<Seq<char>>,
) -> Option<Seq<char>> {
    match and_http(a) {
        Some(x) => Some(x),
        None => match and_http(b) {
            Some(x) => Some(x),
            None => and_http(c),
        },
    }
}

/// The trimmed text, when not empty.
pub open spec fn trimmed_nonempty(o: Option<Seq<char>>) -> Option<Seq<char>> {
    match o {
        Some(s) => if trim(s).len() > 0 {
            Some(trim(s))
        } else {
            None
        },
        None => None,
    }
}

/// The trimmed, lowercased host, when not empty.
pub open spec fn host_lower(o: Option<Seq<char>>) -> Option<Seq<char>> {
    match o {
        Some(s) => if lowercase(trim(s)).len() > 0 {
            Some(lowercase(trim(s)))
        } else {
            None
        },
        None => None,
    }
}

/// The http(s) URLs of a list, trimmed, in order.
pub open spec fn web_only(v: Seq<Seq<char>>) -> Seq<Seq<char>>
    decreases v.len(),
{
    if v.len() == 0 {
        seq![]
    } else {
        match http_https_spec(v.last()) {
            Some(x) => web_only(v.drop_last()).push(x),
            None => web_only(v.drop_last()),
        }
    }
}

/// Subtitle URLs that are http(s); none at all counts as no list.
pub open spec fn web_list(o: Option<Seq<Seq<char>>>) -> Option<Seq<Seq<char>>> {
    match o {
        Some(v) => if web_only(v).len() > 0 {
            Some(web_only(v))
        } else {
            None
        },
        None => None,
    }
}

/// What the extension's JSON capture yields: the URL must be http(s); the
/// player frame beats the referer, which beats the initiator; empty user
/// agent, cookie and cookie host count as absent.
pub open spec fn capture_body_spec(b: CaptureBodyView) -> Option<CurlView> {
    match http_https_spec(b.url) {
        None => None,
        Some(u) => Some(
            CurlView {
                url: u,
                referer: first_web(b.frame, b.referer, b.initiator),
                origin: and_http(b.origin),
                user_agent: trimmed_nonempty(b.user_agent),
                cookie: trimmed_nonempty(b.cookie),
                cookie_host: host_lower(b.cookie_host),
                subtitles: web_list(b.subtitles),
            },
        ),
    }
}

fn http_opt(o: &Option<String>) -> (r: Option<String>)
    ensures
        opt_view(r) == and_http(opt_view(*o)),
{
    match o {
        Some(s) => http_https(s.as_str()),
        None => None,
    }
}

fn trimmed_opt(o: &Option<String>) -> (r: Option<String>)
    ensures
        opt_view(r) == trimmed_nonempty(opt_view(*o)),
{
    match o {
        Some(s) => {
            let t = trimmed(s.as_str());
            if t.len() > 0 {
                Some(string_of(t.as_slice()))
            } else {
                None
            }
        },
        None => None,
    }
}

fn host_opt(o: &Option<String>) -> (r: Option<String>)
    ensures
        opt_view(r) == host_lower(opt_view(*o)),
{
    match o {
        Some(s) => {
            let t = trimmed(s.as_str());
            let l = to_lowercase(t.as_slice());
            if l.len() > 0 {
                Some(string_of(l.as_slice()))
            } else {
                None
            }
        },
        None => None,
    }
}

fn web_urls(v: &Vec<String>) -> (r: Vec<String>)
    ensures
        string_views(r@) == web_only(string_views(v@)),
{
    let ghost sv = string_views(v@);
    let mut r: Vec<String> = Vec::new();
    let mut i: usize = 0;
    while i < v.len()
        invariant
            i <= v@.len(),
            sv == string_views(v@),
            string_views(r@) == web_only(sv.take(i as int)),
        decreases v@.len() - i,
    {
        proof {
            assert(sv.take(i + 1).drop_last() =~= sv.take(i as int));
            assert(sv.take(i + 1).last() == v@[i as int]@);
        }
        let ghost before = r@;
        match http_https(v[i].as_str()) {
            Some(x) => {
                r.push(x);
                proof {
                    assert(string_views(r@) =~= string_views(before).push(r@.last()@));
                }
            },
            None => {},
        }
        i += 1;
    }
    proof {
        assert(sv.take(v@.len() as int) =~= sv);
    }
    r
}

/// Builds a capture from the extension's JSON body (already read into
/// fields).
pub fn capture_from_body(b: &CaptureBody) -> (r: Option<ParsedCurl>)
    ensures
        match r {
            Some(p) => capture_body_spec(b@) == Some(p@),
            None => capture_body_spec(b@) is None,
        },
{
    let url = match http_https(b.url.as_str()) {
        Some(u) => u,
        None => return None,
    };
    let referer = match http_opt(&b.frame) {
        Some(x) => Some(x),
        None => match http_opt(&b.referer) {
            Some(x) => Some(x),
            None => http_opt(&b.initiator),
        },
    };
    let subtitles = match &b.subtitles {
        Some(v) => {
            let w = web_urls(v);
            if w.len() > 0 {
                Some(w)
            } else {
                None
            }
        },
        None => None,
    };
    Some(
        ParsedCurl {
            url,
            referer,
            origin: http_opt(&b.origin),
            user_agent: trimmed_opt(&b.user_agent),
            cookie: trimmed_opt(&b.cookie),
            cookie_host: host_opt(&b.cookie_host),
            subtitles,
        },
    )
}

// ---------------------------------------------------------------------------
// Laws
// ---------------------------------------------------------------------------

/// Text that starts with an http(s) scheme.
pub open spec fn web_url(s: Seq<char>) -> bool {
    has_prefix(s, "http://"@) || has_prefix(s, "https://"@)
}

/// A capture whose stream URL, Referer and Origin are all http(s).
pub open spec fn web_capture(c: CurlView) -> bool {
    &&& web_url(c.url)
    &&& (c.referer matches Some(r) ==> web_url(r))
    &&& (c.origin matches Some(o) ==> web_url(o))
}

/// Whatever the browser extension sends (a loopback query, a `play://`
/// link or a JSON body) is only accepted with an http(s) stream URL, and
/// the Referer and Origin taken from it are http(s) too.
pub proof fn law_captures_are_web(raw: Seq<char>, query: Seq<char>, body: CaptureBodyView)
    ensures
        capture_url_spec(raw) matches Some(c) ==> web_capture(c),
        capture_query_spec(query) matches Some(c) ==> web_capture(c),
        capture_body_spec(body) matches Some(c) ==> web_capture(c),
{
}

} // verus!
