use play::assoc::Assoc;
use play::curl::{parse_capture_query, parse_capture_url};
use play::download::{key_uris, segment_payload, Crypto, Seg};
use play::error::Error;
use play::fetch::sanitize_header_value;
use play::hls::rewrite_media_playlist;
use play::media::unwrap_media_body;
use play::prefs::normalize_referer;
use play::proxy::{route_request, ProxyState, Route};
use play::variants::{pick_variant, ranked_variants, Variant};

fn v(bandwidth: u64, height: u32, url: &str) -> Variant {
    Variant {
        bandwidth,
        height,
        url: url.into(),
    }
}

#[test]
fn rewritten_segment_urls_route_to_their_upstream() {
    let src = "#EXTM3U\n#EXT-X-KEY:METHOD=AES-128,URI=\"k.key\"\n#EXTINF:4,\na.ts\n#EXTINF:4,\nb.ts\n";
    let mut segs = Vec::new();
    let out = rewrite_media_playlist(src, "https://cdn.example/v/", "http://127.0.0.1:9", &mut segs, "ts");
    let state = ProxyState::new(Assoc::new(), segs.clone(), out.clone().into_bytes(), false);
    let mut served = Vec::new();
    for line in out.lines() {
        if let Some(path) = line.strip_prefix("http://127.0.0.1:9") {
            served.push(path.to_string());
        }
    }
    assert_eq!(served, vec!["/seg/00001.ts", "/seg/00002.ts"]);
    for (n, path) in served.iter().enumerate() {
        match route_request(&state, path) {
            Route::Segment { index, upstream, is_key, rest } => {
                assert_eq!(index, n + 1);
                assert_eq!(upstream, segs[n + 1]);
                assert!(!is_key);
                assert_eq!(rest, format!("{:05}.ts", n + 1));
            }
            _ => panic!("segment path not routed"),
        }
    }
    match route_request(&state, "/seg/00000.key") {
        Route::Segment { index, upstream, is_key, .. } => {
            assert_eq!(index, 0);
            assert_eq!(upstream, "https://cdn.example/v/k.key");
            assert!(is_key);
        }
        _ => panic!("key path not routed"),
    }
    assert!(matches!(route_request(&state, "/seg/00003.ts"), Route::BadSegment));
    assert!(matches!(route_request(&state, "/index.m3u8?x=1"), Route::Playlist));
}

#[test]
fn sanitized_values_have_no_controls_or_edge_space() {
    assert_eq!(sanitize_header_value(" a\r\nb\u{7f}c\u{9f} "), "abc");
    assert_eq!(sanitize_header_value("\t x y \n"), "x y");
    assert_eq!(sanitize_header_value("\r\n"), "");
}

#[test]
fn plain_segments_pass_through_unwrap() {
    let mut ts = vec![0u8; 188 * 3];
    ts[0] = b'G';
    ts[188] = b'G';
    ts[376] = b'G';
    assert_eq!(unwrap_media_body(&ts), ts);
    let mut fmp4 = vec![0, 0, 0, 24];
    fmp4.extend_from_slice(b"ftypisom");
    fmp4.resize(100, 7);
    assert_eq!(unwrap_media_body(&fmp4), fmp4);
}

#[test]
fn captures_only_carry_web_urls() {
    assert!(parse_capture_query("url=ftp%3A%2F%2Fx%2Fa.m3u8").is_none());
    let c = parse_capture_query("url=https%3A%2F%2Fcdn.example%2Fa.m3u8&referer=javascript%3Ax&origin=https%3A%2F%2Fembed.example").unwrap();
    assert_eq!(c.url, "https://cdn.example/a.m3u8");
    assert_eq!(c.referer, None);
    assert_eq!(c.origin.as_deref(), Some("https://embed.example"));
    assert!(parse_capture_url("play://open?url=file%3A%2F%2F%2Fetc%2Fpasswd").is_none());
}

#[test]
fn each_key_is_listed_once_and_suffices() {
    let aes = |uri: &str| Crypto::Aes128 { uri: uri.into(), iv: Some([0u8; 16]) };
    let segs = vec![
        Seg { url: "https://c/1.ts".into(), crypto: aes("https://c/k1") },
        Seg { url: "https://c/2.ts".into(), crypto: Crypto::Plain },
        Seg { url: "https://c/3.ts".into(), crypto: aes("https://c/k2") },
        Seg { url: "https://c/4.ts".into(), crypto: aes("https://c/k1") },
    ];
    let uris = key_uris(&segs);
    assert_eq!(uris, vec!["https://c/k1".to_string(), "https://c/k2".to_string()]);
    let mut keys: Assoc<Vec<u8>> = Assoc::new();
    for u in &uris {
        keys.insert(u.clone(), vec![0u8; 16]);
    }
    for s in &segs {
        match segment_payload(&[0u8; 16], &s.crypto, 0, &keys) {
            Err(Error::Message(m)) => assert_ne!(m, "play: missing AES key"),
            _ => {}
        }
    }
    let none: Assoc<Vec<u8>> = Assoc::new();
    match segment_payload(&[0u8; 16], &segs[0].crypto, 0, &none) {
        Err(Error::Message(m)) => assert_eq!(m, "play: missing AES key"),
        _ => panic!("a missing key must be reported"),
    }
}

#[test]
fn normalized_referer_is_stable() {
    let once = normalize_referer("  embed.example/page ").unwrap();
    assert_eq!(once, "https://embed.example/page");
    assert_eq!(normalize_referer(&once).unwrap(), once);
    let http = normalize_referer("http://embed.example/").unwrap();
    assert_eq!(normalize_referer(&http).unwrap(), http);
}

#[test]
fn an_existing_height_is_picked_exactly() {
    let vs = vec![v(9, 1080, "a"), v(5, 720, "b"), v(3, 480, "c")];
    assert_eq!(pick_variant(&vs, "720p").unwrap().height, 720);
    assert_eq!(pick_variant(&vs, "480P").unwrap().height, 480);
    let with_unknown = vec![v(9, 1080, "a"), v(2, 0, "u"), v(5, 720, "b")];
    let h = pick_variant(&with_unknown, "720p").unwrap().height;
    assert!(h == 720 || h == 0);
}

#[test]
fn ranking_keeps_every_variant_best_first() {
    let vs = vec![v(5, 720, "a"), v(9, 1080, "b"), v(5, 1080, "c"), v(1, 360, "d"), v(5, 720, "e")];
    let r = ranked_variants(&vs);
    let urls: Vec<&str> = r.iter().map(|x| x.url.as_str()).collect();
    assert_eq!(urls, vec!["b", "c", "a", "e", "d"]);
    let mut a: Vec<&str> = vs.iter().map(|x| x.url.as_str()).collect();
    let mut b = urls.clone();
    a.sort();
    b.sort();
    assert_eq!(a, b);
    assert_eq!(pick_variant(&vs, "best").unwrap().bandwidth, r[0].bandwidth);
    assert_eq!(pick_variant(&vs, "best").unwrap().height, r[0].height);
}

#[test]
fn proxied_playlists_are_always_vod() {
    for src in ["", "#EXTM3U\n#EXTINF:4,\na.ts\n", "#EXTM3U\n#EXTINF:4,\na.ts\n#EXT-X-ENDLIST\n"] {
        let mut segs = Vec::new();
        let out = rewrite_media_playlist(src, "https://cdn.example/v/", "http://127.0.0.1:9", &mut segs, "ts");
        assert_eq!(out.matches("#EXT-X-ENDLIST").count(), 1);
        assert!(out.ends_with("#EXT-X-ENDLIST\n"));
    }
}
