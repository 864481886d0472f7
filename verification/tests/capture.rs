use play::capture::{capture_reply, CAPTURE_PORT};
use play::curl::CaptureBody;

fn body(url: &str) -> CaptureBody {
    CaptureBody {
        url: url.into(),
        referer: Some("https://site.example/".into()),
        frame: Some("https://embed.example/player/1".into()),
        origin: None,
        initiator: None,
        user_agent: Some(" UA ".into()),
        cookie: None,
        cookie_host: None,
        subtitles: None,
    }
}

#[test]
fn capture_port_answers() {
    assert_eq!(CAPTURE_PORT, 17331);
    let r = capture_reply("OPTIONS", "/open", None, "");
    assert_eq!((r.status, r.body, r.json), (204, "", false));
    let r = capture_reply("GET", "/health", None, "");
    assert_eq!((r.status, r.body), (200, "ok"));
    let r = capture_reply("GET", "/?x=1", None, "");
    assert_eq!((r.status, r.body), (200, "ok"));
    let r = capture_reply("GET", "/nope", None, "");
    assert_eq!((r.status, r.body), (404, "not found"));
    assert!(r.capture.is_none());
}

#[test]
fn capture_port_takes_query_and_json() {
    let r = capture_reply("GET", "/open?url=https%3A%2F%2Fcdn.example%2Fa.m3u8", None, "");
    assert_eq!((r.status, r.body, r.json), (200, "{\"ok\":true}", true));
    assert_eq!(r.capture.unwrap().url, "https://cdn.example/a.m3u8");
    let r = capture_reply("GET", "/open", None, "");
    assert_eq!((r.status, r.body), (400, "{\"ok\":false}"));
    let b = body("https://cdn.example/b.m3u8");
    let r = capture_reply("POST", "/open", Some(&b), "{}");
    let c = r.capture.unwrap();
    assert_eq!(c.url, "https://cdn.example/b.m3u8");
    assert_eq!(c.referer.as_deref(), Some("https://embed.example/player/1"));
    assert_eq!(c.user_agent.as_deref(), Some("UA"));
    let bad = body("ftp://x/a");
    let r = capture_reply("POST", "/open", Some(&bad), "url=https%3A%2F%2Fcdn.example%2Fc.m3u8");
    assert_eq!(r.capture.unwrap().url, "https://cdn.example/c.m3u8");
    let r = capture_reply("PUT", "/open", None, "url=https%3A%2F%2Fcdn.example%2Fc.m3u8");
    assert_eq!(r.status, 400);
}
