//! The loopback listener the browser extension sends streams to: which
//! requests it answers, and how.
use vstd::prelude::*;
use crate::curl::{
    capture_body_spec, capture_from_body, capture_query_spec, parse_capture_query, CaptureBody,
    CaptureBodyView, CurlView, ParsedCurl,
};
use crate::text::{before_first, before_first_char, chars_of, eq_str, split_once, split_once_char, string_of};

verus! {

/// The loopback port the extension posts to while the player runs.
pub const CAPTURE_PORT: u16 = 17331;

/// The answer to a request on the capture port, and the capture it
/// carried, if any.
pub struct CaptureReply {
    pub status: u16,
    pub body: &'static str,
    /// The body is JSON.
    pub json: bool,
    pub capture: Option<ParsedCurl>,
}

/// What a request carries: for `GET /open` its query; for `POST /open`
/// the JSON body (`json`, when it parsed) or else the body read as a query.
pub open spec fn capture_of(
    method: Seq<char>,
    raw: Seq<char>,
    json: Option<CaptureBodyView>,
    body: Seq<char>,
) -> Option<CurlView> {
    if method == "GET"@ {
        capture_query_spec(
            match split_once(raw, '?') {
                Some((_, q)) => q,
                None => Seq::<char>::empty(),
            },
        )
    } else if method == "POST"@ {
        match json {
            Some(b) => match capture_body_spec(b) {
                Some(c) => Some(c),
                None => capture_query_spec(body),
            },
            None => capture_query_spec(body),
        }
    } else {
        None
    }
}

/// The status and body of the answer: `OPTIONS` is a CORS preflight
/// (204); `GET /` and `GET /health` say `ok`; paths other than `/open` are
/// not found; `/open` answers `{"ok":true}` with a capture, else 400.
pub open spec fn capture_answer(
    method: Seq<char>,
    raw: Seq<char>,
    json: Option<CaptureBodyView>,
    body: Seq<char>,
) -> (u16, Seq<char>, bool, Option<CurlView>) {
    let path = before_first(raw, '?');
    if method == "OPTIONS"@ {
        (204, Seq::<char>::empty(), false, None)
    } else if method == "GET"@ && (path == "/"@ || path == "/health"@) {
        (200, "ok"@, false, None)
    } else if path != "/open"@ {
        (404, "not found"@, false, None)
    } else {
        match capture_of(method, raw, json, body) {
            Some(c) => (200, "{\"ok\":true}"@, true, Some(c)),
            None => (400, "{\"ok\":false}"@, false, None),
        }
    }
}

/// `ParsedCurl` optionally, by its view.
pub open spec fn opt_capture(o: Option<ParsedCurl>) -> Option<CurlView> {
    match o {
        Some(p) => Some(p@),
        None => None,
    }
}

fn query_capture(query: &str) -> (r: Option<ParsedCurl>)
    ensures
        opt_capture(r) == capture_query_spec(query@),
{
    parse_capture_query(query)
}

/// Answers a request on the capture port (`method` as sent, `raw` the
/// request target, `json` the body when it parsed as the extension's JSON,
/// `body` the body text).
pub fn capture_reply(method: &str, raw: &str, json: Option<&CaptureBody>, body: &str) -> (r: CaptureReply)
    ensures
        (r.status, r.body@, r.json, opt_capture(r.capture)) == capture_answer(
            method@,
            raw@,
            match json {
                Some(b) => Some(b@),
                None => None,
            },
            body@,
        ),
{
    proof {
        reveal_strlit("");
    }
    let m = chars_of(method);
    let rc = chars_of(raw);
    let pc = before_first_char(rc.as_slice(), '?');
    let p = pc.as_slice();
    if eq_str(m.as_slice(), "OPTIONS") {
        return CaptureReply { status: 204, body: "", json: false, capture: None };
    }
    if eq_str(m.as_slice(), "GET") && (eq_str(p, "/") || eq_str(p, "/health")) {
        return CaptureReply { status: 200, body: "ok", json: false, capture: None };
    }
    if !eq_str(p, "/open") {
        return CaptureReply { status: 404, body: "not found", json: false, capture: None };
    }
    let capture = if eq_str(m.as_slice(), "GET") {
        match split_once_char(rc.as_slice(), '?') {
            Some((_, q)) => query_capture(string_of(q.as_slice()).as_str()),
            None => query_capture(""),
        }
    } else if eq_str(m.as_slice(), "POST") {
        let from_json = match json {
            Some(b) => capture_from_body(b),
            None => None,
        };
        match from_json {
            Some(c) => Some(c),
            None => query_capture(body),
        }
    } else {
        None
    };
    match capture {
        Some(c) => CaptureReply { status: 200, body: "{\"ok\":true}", json: true, capture: Some(c) },
        None => CaptureReply { status: 400, body: "{\"ok\":false}", json: false, capture: None },
    }
}

} // verus!
