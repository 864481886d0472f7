use play::curl::{
    capture_from_body, parse_capture_query, parse_capture_url, parse_curl, CaptureBody, ParsedCurl,
};
use play::urls::{
    auto_filename, curl_connect_and_target, curl_url_args, detect_kind, is_url, join_url,
    origin_of, restore_effective_url, strip_proto, strip_range_query, unwrap_resource_url, Kind,
    UA_DEFAULT,
};

/// The extension's JSON body read into its fields, as the app does with
/// serde: `url` must be a string, the other fields strings (or a list of
/// strings) when present.
fn capture_json(body: &str) -> Option<ParsedCurl> {
    let v: serde_json::Value = serde_json::from_str(body.trim()).ok()?;
    let o = v.as_object()?;
    let text = |k: &str| -> Result<Option<String>, ()> {
        match o.get(k) {
            None | Some(serde_json::Value::Null) => Ok(None),
            Some(serde_json::Value::String(s)) => Ok(Some(s.clone())),
            Some(_) => Err(()),
        }
    };
    let subtitles = match o.get("subtitles") {
        None | Some(serde_json::Value::Null) => None,
        Some(serde_json::Value::Array(a)) => {
            let mut out = Vec::new();
            for x in a {
                out.push(x.as_str()?.to_string());
            }
            Some(out)
        }
        Some(_) => return None,
    };
    let b = CaptureBody {
        url: text("url").ok()??,
        referer: text("referer").ok()?,
        frame: text("frame").ok()?,
        origin: text("origin").ok()?,
        initiator: text("initiator").ok()?,
        user_agent: text("userAgent").ok()?,
        cookie: text("cookie").ok()?,
        cookie_host: text("cookieHost").ok()?,
        subtitles,
    };
    capture_from_body(&b)
}

#[test]
fn test_is_url() {
    assert!(is_url("https://cdn.example/a.m3u8"));
    assert!(is_url("hls://https://cdn.example/master.txt"));
    assert!(!is_url("master.txt"));
}

#[test]
fn test_default_ua_looks_like_a_browser() {
    assert!(UA_DEFAULT.contains("Mozilla/5.0 ("));
    assert!(UA_DEFAULT.contains("Chrome/"));
    assert!(UA_DEFAULT.len() > 40);
}

#[test]
fn test_curl_connect_and_target_encodes_query_underscore() {
    let (base, target) =
        curl_connect_and_target("https://cdn.example/clip=.mp4?md5=token_id&expires=1");
    assert_eq!(base, "https://cdn.example/");
    assert!(target.starts_with("/clip=.mp4?"));
    assert!(target.contains("md5=token%5Fid"));
    assert!(target.contains("expires=1"));
    assert!(!target.contains("token_id&"));
    assert!(!target.contains("token_id"));
}

#[test]
fn test_curl_url_args_plain_hls_is_the_full_url() {
    let url = "https://cdn.example/hls/vid/index_720p.m3u8?token=abc_def";
    assert_eq!(curl_url_args(url), vec![url]);
    let (base, target) = curl_connect_and_target(url);
    assert_eq!(base, "https://cdn.example/");
    assert!(
        target.starts_with("/hls/vid/index_720p.m3u8?"),
        "keep underscore in playlist filename, got {target}"
    );
    assert!(target.contains("abc_def"), "do not WAF-encode HLS tokens");
    assert!(!target.contains("%5F"));
}

#[test]
fn test_curl_url_args_keeps_urlset_commas() {
    let url = "https://cdn.example/_hls/v/id-,426-240-312,640-360,-h264.mp4.urlset/seg-1-f4-v1-a1.ts?validfrom=1&hash=A%2F00j5C5e4SWvoWyhESwGXVEB6k%3D";
    let args = curl_url_args(url);
    assert_eq!(
        args,
        vec![url],
        "comma paths must not force --request-target, got {args:?}"
    );
    assert!(!args.iter().any(|a| a.contains("%2C")));
    let joined = join_url(
        "https://cdn.example/_hls/v/id-,426-240-312,640-360,-h264.mp4.urlset/index-f4-v1-a1.m3u8?validfrom=1&hash=A%2F00j5C5e4SWvoWyhESwGXVEB6k%3D",
        "seg-1-f4-v1-a1.ts?validfrom=1&hash=A%2F00j5C5e4SWvoWyhESwGXVEB6k%3D",
    );
    assert!(
        joined.contains("hash=A%2F00j5C5e4SWvoWyhESwGXVEB6k%3D"),
        "signed query encoding must stay: {joined}"
    );
    assert!(
        joined.contains("426-240-312"),
        "urlset commas must stay: {joined}"
    );
}

#[test]
fn test_curl_url_args_waf_keeps_full_url() {
    let url = "https://cdn.example/clip=.mp4?md5=token_id&expires=1";
    let args = curl_url_args(url);
    assert_eq!(args[0], "--request-target");
    assert!(args[1].contains("token%5Fid"));
    assert_eq!(args[2], url);
    assert!(!args.iter().any(|a| a == "https://cdn.example/"));
}

#[test]
fn test_restore_effective_url_if_curl_reported_origin() {
    let orig = "https://cdn.example/hls/vid/index.m3u8?token=abc";
    assert_eq!(restore_effective_url(orig, "https://cdn.example/"), orig);
    assert_eq!(
        restore_effective_url(orig, "https://cdn.example/hls/vid/index.m3u8?token=abc"),
        "https://cdn.example/hls/vid/index.m3u8?token=abc"
    );
}

#[test]
fn test_strip_proto() {
    let raw = "https://cdn.example/x";
    assert_eq!(strip_proto(&format!("hls://{raw}")), raw);
    assert_eq!(strip_proto(raw), raw);
}

#[test]
fn test_detect_kind() {
    assert_eq!(detect_kind("https://x/master.txt"), Kind::Hls);
    assert_eq!(detect_kind("https://x/index.m3u8"), Kind::Hls);
    assert_eq!(detect_kind("https://x/file.mp4"), Kind::Http);
    assert_eq!(detect_kind("https://x/manifest.mpd"), Kind::Dash);
}

#[test]
fn test_parse_curl_chrome_copy() {
    let cmd = r#"curl 'https://cdn.example/hls/show/id/master.m3u8' \
  -H 'accept: */*' \
  -H 'origin: https://player.example' \
  -H 'referer: https://player.example/watch/abc' \
  -H 'user-agent: Mozilla/5.0 Test' \
  -H 'cookie: a=1; b=2'"#;
    let p = parse_curl(cmd).unwrap();
    assert_eq!(p.url, "https://cdn.example/hls/show/id/master.m3u8");
    assert_eq!(
        p.referer.as_deref(),
        Some("https://player.example/watch/abc")
    );
    assert_eq!(p.origin.as_deref(), Some("https://player.example"));
    assert_eq!(p.user_agent.as_deref(), Some("Mozilla/5.0 Test"));
    assert_eq!(p.cookie.as_deref(), Some("a=1; b=2"));
}

#[test]
fn test_parse_curl_referer_short_flag() {
    let p = parse_curl("curl -e https://embed.example/ https://cdn.example/a.m3u8").unwrap();
    assert_eq!(p.url, "https://cdn.example/a.m3u8");
    assert_eq!(p.referer.as_deref(), Some("https://embed.example/"));
}

#[test]
fn test_parse_curl_ignores_plain_url() {
    assert!(parse_curl("https://cdn.example/master.m3u8").is_none());
}

#[test]
fn test_parse_capture_play_scheme() {
    let p = parse_capture_url(
        "play://open?url=https%3A%2F%2Fcdn.example%2Fhls%2Findex_720p.m3u8%3Ftoken%3Dab_cd&referer=https%3A%2F%2Fembed.example%2Fwatch%2F1",
    )
    .unwrap();
    assert_eq!(p.url, "https://cdn.example/hls/index_720p.m3u8?token=ab_cd");
    assert_eq!(p.referer.as_deref(), Some("https://embed.example/watch/1"));
}

#[test]
fn test_parse_capture_rejects_javascript() {
    assert!(parse_capture_url("play://open?url=javascript:alert(1)").is_none());
    assert!(capture_json(r#"{"url":"file:///tmp/x"}"#).is_none());
    assert!(parse_capture_url("https://cdn.example/a.m3u8").is_none());
}

#[test]
fn test_parse_capture_json_frame_beats_root() {
    let p = capture_json(
        r#"{"url":"https://cdn.example/a.m3u8","referer":"https://embed.example/","frame":"https://embed.example/player/abc"}"#,
    )
    .unwrap();
    assert_eq!(
        p.referer.as_deref(),
        Some("https://embed.example/player/abc")
    );
    let p = capture_json(
        r#"{"url":"https://cdn.example/a.m3u8","referer":"https://embed.example/"}"#,
    )
    .unwrap();
    assert_eq!(p.referer.as_deref(), Some("https://embed.example/"));
}

#[test]
fn test_parse_capture_json_initiator() {
    let p = capture_json(
        r#"{"url":"https://cdn.example/a.m3u8","initiator":"https://embed.example/"}"#,
    )
    .unwrap();
    assert_eq!(p.url, "https://cdn.example/a.m3u8");
    assert_eq!(p.referer.as_deref(), Some("https://embed.example/"));
}

#[test]
fn test_parse_capture_json_cookie_and_ua() {
    let p = capture_json(
        r#"{"url":"https://embed.example/wrap/token.m3u8","referer":"https://embed.example/watch/1","origin":"https://embed.example","userAgent":"Mozilla/5.0 Test","cookie":"sid=abc; other=1","cookieHost":"embed.example"}"#,
    )
    .unwrap();
    assert_eq!(p.cookie.as_deref(), Some("sid=abc; other=1"));
    assert_eq!(p.cookie_host.as_deref(), Some("embed.example"));
    assert_eq!(p.user_agent.as_deref(), Some("Mozilla/5.0 Test"));
    assert_eq!(p.origin.as_deref(), Some("https://embed.example"));
}

#[test]
fn test_join_url_unwraps_proxy_query() {
    assert_eq!(
        unwrap_resource_url(
            "https://embed.example/proxy?url=https%3A%2F%2Fcdn.example%2Fmaster.m3u8"
        ),
        "https://cdn.example/master.m3u8"
    );
    assert_eq!(
        join_url(
            "https://embed.example/wrap/token.m3u8",
            "/proxy?url=https%3A%2F%2Fcdn.example%2Findex.m3u8"
        ),
        "https://cdn.example/index.m3u8"
    );
}

#[test]
fn test_parse_capture_json_subtitles() {
    let p = capture_json(
        r#"{"url":"https://cdn.example/a.mp4","referer":"https://embed.example/","subtitles":["https://cdn.example/en.vtt","https://cdn.example/es.srt","javascript:alert(1)"]}"#,
    )
    .unwrap();
    assert_eq!(
        p.subtitles.as_deref(),
        Some(
            [
                "https://cdn.example/en.vtt".to_string(),
                "https://cdn.example/es.srt".to_string()
            ]
            .as_slice()
        )
    );
}

#[test]
fn test_parse_capture_query() {
    let p = parse_capture_query(
        "url=https%3A%2F%2Fcdn.example%2Fa.m3u8&referer=https%3A%2F%2Fembed.example%2F",
    )
    .unwrap();
    assert_eq!(p.url, "https://cdn.example/a.m3u8");
    assert_eq!(p.referer.as_deref(), Some("https://embed.example/"));
}

#[test]
fn test_origin_of_uses_url_host() {
    assert_eq!(
        origin_of("https://cdn.example/hls/master.m3u8").unwrap(),
        "https://cdn.example"
    );
}

#[test]
fn test_strip_range_query_removes_bytes_slice() {
    let url = "https://cdn.example/?expires=1&id=620097243758&bytes=0-47101";
    let full = strip_range_query(url);
    assert!(!full.contains("bytes="), "range slice must go: {full}");
    assert!(full.contains("expires=1"));
    assert!(full.contains("id=620097243758"));
    assert_eq!(
        strip_range_query("https://cdn.example/hls/master.m3u8?token=abc"),
        "https://cdn.example/hls/master.m3u8?token=abc"
    );
}

#[test]
fn test_strip_range_query_removes_instagram_bytestart() {
    let url = "https://scontent.example/o1/v/clip.mp4?_nc_cat=106&efg=eyJ2%3D%3D&oh=00_AQ&oe=6AAE&bytestart=818&byteend=909";
    let full = strip_range_query(url);
    assert!(!full.contains("bytestart"), "range start must go: {full}");
    assert!(!full.contains("byteend"), "range end must go: {full}");
    assert!(full.contains("_nc_cat=106"));
    assert!(
        full.contains("efg=eyJ2%3D%3D"),
        "signed param encoding must stay: {full}"
    );
    assert!(full.contains("oh=00_AQ"));
    assert!(full.contains("oe=6AAE"));
}

#[test]
fn test_auto_filename_skips_generic() {
    assert_eq!(
        auto_filename("https://cdn.example/show/episode-id/master.txt"),
        "episode-id.mp4"
    );
    assert_eq!(
        auto_filename("https://cdn.example/12345/index.m3u8"),
        "12345.mp4"
    );
    assert_eq!(auto_filename("https://cdn.example/ep-3.m3u8"), "ep-3.mp4");
    assert_eq!(auto_filename("https://cdn.example/clip.mp4"), "clip.mp4");
    assert_eq!(
        auto_filename("https://cdn.example/show/manifest.mpd"),
        "show.mp4"
    );
}
