use play::assoc::Assoc;
use play::error::Error;
use play::fetch::{
    classify_playlist_fetch, http_403_hint, http_403_hint_for, http_error_hint, http_headers,
    is_403, is_embed_referer, looks_like_playlist_url, maybe_playlist_to_result, merge_headers,
    omit_curl_header, referer_needed, referer_needed_for, sanitize_header_value, MaybePlaylist,
};
use play::media::{is_hls_body, looks_like_media_body};

fn headers(pairs: &[(&str, &str)]) -> Assoc<String> {
    let mut h = Assoc::new();
    for (k, v) in pairs {
        h.insert(k.to_string(), v.to_string());
    }
    h
}

#[test]
fn test_cloudflare_challenge_suggests_embed_referer() {
    let body = b"<title>Attention Required! | Cloudflare</title>\n<div id='cf-error-details'>";
    let hint = http_403_hint("https://cdn.example/abc/playlist.m3u8", body);
    assert!(hint.contains("Cloudflare"));
    assert!(hint.contains("--referer"));
    assert!(!hint.contains("stale signed token"));
}

#[test]
fn test_cloudflare_tos_zone_block_does_not_suggest_referer() {
    let mut body = b"<title>Website Access Blocked</title><div id='cf-error-details'>".to_vec();
    body.extend(std::iter::repeat(b'x').take(2500));
    body.extend(
        b"Cloudflare has restricted access to this website due to \
Terms of Service violations.The affected zone is cdn.example.",
    );
    let hint = http_403_hint("https://cdn.example/hls/a/master.txt", &body);
    assert!(hint.contains("ToS"));
    assert!(hint.contains("zone"));
    assert!(!hint.contains("--referer"));
}

#[test]
fn test_signed_url_suggests_token_or_quoting() {
    let url = "https://cdn.example/hls/show/index.m3u8?t=abc&s=1&e=43200";
    let hint = http_403_hint(url, b"");
    assert!(hint.contains("stale signed token"));
}

#[test]
fn test_nginx_forbidden_suggests_expired_path_or_referer() {
    let body = b"<html>\r\n<head><title>403 Forbidden</title></head>\r\n\
<body>\r\n<center><h1>403 Forbidden</h1></center>\r\n\
<hr><center>nginx</center>\r\n</body>\r\n</html>";
    let hint = http_403_hint("https://cdn.example/hls/show/id/master.m3u8", body);
    assert!(hint.to_lowercase().contains("nginx"));
    assert!(hint.contains("player iframe"));
    assert!(hint.contains("--referer"));
}

#[test]
fn test_nginx_forbidden_with_embed_referer_is_expired_path() {
    let body = b"<html>\r\n<head><title>403 Forbidden</title></head>\r\n\
<body>\r\n<center><h1>403 Forbidden</h1></center>\r\n\
<hr><center>nginx</center>\r\n</body>\r\n</html>";
    let url = "https://cdn.example/hls/show/id/master.m3u8";
    let hint = http_403_hint_for(url, body, Some("https://embed.example/watch/1/"));
    assert!(hint.to_lowercase().contains("nginx"));
    assert!(hint.contains("player iframe"));
    assert!(hint.contains("Copy as cURL"));
    assert!(!hint.contains("--referer"));
    assert!(!referer_needed_for(
        url,
        body,
        Some("https://embed.example/watch/1/")
    ));
    assert!(referer_needed_for(url, body, Some("https://cdn.example/")));
}

#[test]
fn test_plain_403_has_no_hint() {
    assert_eq!(http_403_hint("https://cdn.example/a.m3u8", b"denied"), "");
}

#[test]
fn test_referer_needed_only_when_hint_asks_for_it() {
    let cf = b"<title>Attention Required! | Cloudflare</title>";
    assert!(referer_needed("https://cdn.example/a.m3u8", cf));
    let nginx = b"<title>403 Forbidden</title><center>nginx</center>";
    assert!(referer_needed("https://cdn.example/a.m3u8", nginx));
    let tos = b"<title>Website Access Blocked</title>affected zone violations";
    assert!(!referer_needed("https://cdn.example/a.m3u8", tos));
    assert!(!referer_needed(
        "https://cdn.example/a.m3u8?t=x&s=1&e=2",
        b""
    ));
}

#[test]
fn test_hls_body_sniff() {
    assert!(is_hls_body(b"#EXTM3U\n#EXT-X-STREAM-INF\n"));
    assert!(is_hls_body(b"\n  #EXTM3U\n"));
    assert!(!is_hls_body(b"\0\0\0\x20ftypisom"));
    assert!(!is_hls_body(b""));
    let mut mp4 = vec![0, 0, 0, 32];
    mp4.extend(b"ftypisom");
    assert!(looks_like_media_body(&mp4));
}

#[test]
fn test_looks_like_playlist_url() {
    assert!(looks_like_playlist_url(
        "https://embed.example/wrap/token.m3u8"
    ));
    assert!(looks_like_playlist_url(
        "https://cdn.example/show/id/master.m3u8?token=abc"
    ));
    assert!(looks_like_playlist_url(
        "https://embed.example/proxy?url=https%3A%2F%2Fcdn.example%2Fmaster.m3u8"
    ));
    assert!(!looks_like_playlist_url("https://cdn.example/video.mp4"));
}

#[test]
fn test_omit_origin_only_when_same_host() {
    let url = "https://cdn.example/master.m3u8";
    let empty = Assoc::new();
    assert!(omit_curl_header(
        "Origin",
        "https://cdn.example",
        url,
        &empty
    ));
    assert!(omit_curl_header(
        "Origin",
        "https://cdn.example/",
        url,
        &empty
    ));
    assert!(!omit_curl_header(
        "Origin",
        "https://embed.example",
        url,
        &empty
    ));
    assert!(!omit_curl_header(
        "Referer",
        "https://cdn.example/",
        url,
        &empty
    ));
    assert!(omit_curl_header("Origin", "", url, &empty));
}

#[test]
fn test_omit_cookie_on_other_host() {
    let h = headers(&[
        ("Referer", "https://embed.example/watch/1"),
        ("Cookie", "sid=1"),
    ]);
    assert!(omit_curl_header(
        "Cookie",
        "sid=1",
        "https://cdn.example/master.m3u8",
        &h
    ));
    assert!(!omit_curl_header(
        "Cookie",
        "sid=1",
        "https://embed.example/wrap/token.m3u8",
        &h
    ));
}

// ---------------------------------------------------------------------------
// Further cases
// ---------------------------------------------------------------------------

#[test]
fn default_headers() {
    let h = http_headers("UA", "https://r/", "https://r");
    assert_eq!(h.get("User-Agent").unwrap(), "UA");
    assert_eq!(h.get("Referer").unwrap(), "https://r/");
    assert_eq!(h.get("Origin").unwrap(), "https://r");
    assert_eq!(h.get("Accept").unwrap(), "*/*");
    assert_eq!(h.entries().len(), 4);
}

#[test]
fn header_values_are_sanitized() {
    assert_eq!(sanitize_header_value("https://embed.example/\r\n"), "https://embed.example/");
    assert_eq!(sanitize_header_value(" a\u{7}b\tc "), "abc");
    assert!(is_embed_referer("https://cdn.example/a", Some(" https://www.embed.example/ ")));
    assert!(!is_embed_referer("https://www.cdn.example/a", Some("https://cdn.example/")));
    assert!(!is_embed_referer("https://cdn.example/a", Some("  ")));
    assert!(!is_embed_referer("https://cdn.example/a", None));
}

#[test]
fn error_hints_by_status() {
    let h = headers(&[("Referer", "https://embed.example/")]);
    assert!(http_error_hint(401, "u", b"", &h).contains("requires auth"));
    assert!(http_error_hint(400, "u", b"", &h).contains("nginx rejected"));
    assert_eq!(http_error_hint(500, "https://c/a&b", b"", &h), "");
    assert_eq!(
        http_error_hint(403, "https://c/a?x=1&y=2", b"", &h),
        " (quote the URL so zsh does not split on &)"
    );
}

#[test]
fn bounded_fetch_outcomes() {
    match classify_playlist_fetch("u", Ok(("f".to_string(), b"#EXTM3U\n".to_vec()))) {
        Ok(MaybePlaylist::Playlist { url, .. }) => assert_eq!(url, "f"),
        _ => panic!("playlist"),
    }
    match classify_playlist_fetch("u", Ok(("f".to_string(), vec![0, 1, 2]))) {
        Ok(MaybePlaylist::Progressive { url }) => assert_eq!(url, "f"),
        _ => panic!("progressive"),
    }
    match classify_playlist_fetch("u", Err(Error::msg("curl: (63) Maximum file size exceeded"))) {
        Ok(MaybePlaylist::Progressive { url }) => assert_eq!(url, "u"),
        _ => panic!("progressive after the size bound"),
    }
    assert!(classify_playlist_fetch("u", Err(Error::msg("refused"))).is_err());
    let r = maybe_playlist_to_result(MaybePlaylist::Progressive { url: "v".into() });
    assert!(matches!(r, Err(Error::Progressive { .. })));
    let e = Error::Http {
        code: 403,
        url: "u".into(),
        hint: String::new(),
        body: Vec::new(),
    };
    assert!(is_403(&e));
    assert!(!is_403(&Error::msg("x")));
}

#[test]
fn retry_headers_replace_earlier_values() {
    let mut h = headers(&[("Referer", "a"), ("Accept", "*/*")]);
    merge_headers(&mut h, &headers(&[("Referer", "b"), ("Origin", "o")]));
    assert_eq!(h.get("Referer").unwrap(), "b");
    assert_eq!(h.get("Origin").unwrap(), "o");
    assert_eq!(h.get("Accept").unwrap(), "*/*");
}
