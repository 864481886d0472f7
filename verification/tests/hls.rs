use play::hls::{
    fetch_segment_body, first_segment_url, is_subtitle_url, local_master_playlist,
    map_or_first_segment_url, parse_subtitle_tracks, parse_variants, playlist_hint, read_master,
    read_variant, rewrite_media_playlist, sniff_segment_kind, stream_inf, subtitle_ext, MasterStep,
};
use play::media::{subtitle_content_type, unwrap_media};
use play::variants::{
    choose_variant, format_quality_menu, needs_prompt, pick_variant, ranked_variants,
    variant_from_choice, variant_label, Variant,
};

fn v(bandwidth: u64, height: u32, url: &str) -> Variant {
    Variant {
        bandwidth,
        height,
        url: url.into(),
    }
}

fn sample_variants() -> Vec<Variant> {
    vec![v(1, 360, "a"), v(5, 720, "b"), v(9, 1080, "c")]
}

#[test]
fn test_plain_ts() {
    let buf = [b'G']
        .into_iter()
        .chain(std::iter::repeat(0u8).take(20))
        .collect::<Vec<_>>();
    let (skip, kind) = unwrap_media(&buf);
    assert_eq!(skip, 0);
    assert_eq!(kind, "ts");
}

#[test]
fn test_png_wrapper() {
    let mut buf = b"\x89PNG\r\n\x1a\nxxxxIEND".to_vec();
    buf.extend_from_slice(&[0, 0, 0, 0, b'G']);
    buf.extend(std::iter::repeat(0u8).take(10));
    let (skip, kind) = unwrap_media(&buf);
    assert_eq!(kind, "ts");
    assert_eq!(&buf[skip..skip + 1], b"G");
}

#[test]
fn test_fmp4_not_misread_as_ts() {
    let mut buf = vec![0, 0, 0, 24];
    buf.extend_from_slice(b"ftypisom");
    buf.resize(188 * 4, 0);
    buf[188] = b'G';
    buf[376] = b'G';
    buf[564] = b'G';
    let (skip, kind) = unwrap_media(&buf);
    assert_eq!(kind, "m4s");
    assert_eq!(skip, 0);
}

#[test]
fn test_is_subtitle_url_unwraps_fetch_query() {
    let wrapped = "https://proxy.example/fetch?url=https%3A%2F%2Fcdn.example%2Fsubtitles%2Fen.vtt&ref=https%3A%2F%2Fembed.example%2F";
    assert!(is_subtitle_url(wrapped));
    assert!(!is_subtitle_url(
        "https://proxy.example/fetch?url=https%3A%2F%2Fcdn.example%2Findex.m3u8"
    ));
    assert!(is_subtitle_url("https://cdn.example/en.vtt"));
}

#[test]
fn test_parse_subtitle_tracks_from_master() {
    let src = r#"#EXTM3U
#EXT-X-MEDIA:TYPE=AUDIO,GROUP-ID="a",NAME="English",URI="audio.m3u8"
#EXT-X-MEDIA:TYPE=SUBTITLES,GROUP-ID="subs",NAME="English",DEFAULT=YES,LANGUAGE="en",URI="en.m3u8"
#EXT-X-MEDIA:TYPE=SUBTITLES,GROUP-ID="subs",NAME="Spanish",LANGUAGE="es",URI="https://cdn.example/es.m3u8"
#EXT-X-STREAM-INF:BANDWIDTH=1,SUBTITLES="subs"
index.m3u8
"#;
    let tracks = parse_subtitle_tracks(src, "https://cdn.example/hls/master.m3u8");
    assert_eq!(tracks.len(), 2);
    assert!(tracks[0].default);
    assert_eq!(tracks[0].language, "en");
    assert_eq!(tracks[0].url, "https://cdn.example/hls/en.m3u8");
    assert_eq!(tracks[1].url, "https://cdn.example/es.m3u8");
    let master = local_master_playlist(
        "http://127.0.0.1/index.m3u8",
        &[
            (tracks[0].clone(), "http://127.0.0.1/sub/0.m3u8".into()),
            (tracks[1].clone(), "http://127.0.0.1/sub/1.m3u8".into()),
        ],
    );
    assert!(master.contains("TYPE=SUBTITLES"));
    assert!(master.contains(r#"URI="http://127.0.0.1/sub/0.m3u8""#));
    assert!(master.contains(r#"SUBTITLES="subs""#));
    assert!(master.contains("http://127.0.0.1/index.m3u8"));
}

#[test]
fn test_variants_unwrap_proxy_query() {
    let src = "#EXTM3U\n#EXT-X-STREAM-INF:BANDWIDTH=1\n/proxy?url=https%3A%2F%2Fcdn.example%2Findex.m3u8\n";
    let v = parse_variants(src, "https://embed.example/wrap/token.m3u8");
    assert_eq!(v[0].url, "https://cdn.example/index.m3u8");
}

#[test]
fn test_map_or_first_prefers_init() {
    let text = "#EXTM3U\n#EXT-X-MAP:URI=\"init.mp4\"\n#EXTINF:2,\nseg1.m4s\n";
    let u = map_or_first_segment_url("https://cdn.example/hls/a.m3u8", text).unwrap();
    assert_eq!(u, "https://cdn.example/hls/init.mp4");
}

#[test]
fn test_png_wrapper_with_ff_padding() {
    let pkt: Vec<u8> = std::iter::once(b'G')
        .chain(std::iter::repeat(0u8).take(187))
        .collect();
    let mut buf = b"\x89PNG\r\n\x1a\nxxxxIEND".to_vec();
    buf.extend_from_slice(&[0, 0, 0, 0]);
    buf.extend(std::iter::repeat(0xffu8).take(20));
    for _ in 0..4 {
        buf.extend_from_slice(&pkt);
    }
    let (skip, kind) = unwrap_media(&buf);
    assert_eq!(kind, "ts");
    assert_eq!(&buf[skip..skip + 1], b"G");
    assert_eq!(&buf[skip..skip + 188], pkt.as_slice());
}

#[test]
fn test_pick_best_and_720p() {
    let v = sample_variants();
    assert_eq!(pick_variant(&v, "best").unwrap().url, "c");
    assert_eq!(pick_variant(&v, "worst").unwrap().url, "a");
    assert_eq!(pick_variant(&v, "720p").unwrap().url, "b");
}

#[test]
fn test_quality_menu_lists_best_first_as_default() {
    let variants = vec![
        v(800_000, 360, "a"),
        v(5_000_000, 720, "b"),
        v(9_000_000, 1080, "c"),
    ];
    let menu = format_quality_menu(&variants);
    let lines: Vec<&str> = menu.lines().filter(|ln| !ln.trim().is_empty()).collect();
    assert!(lines[0].contains("1)"));
    assert!(lines[0].contains("1080p"));
    assert!(lines[0].contains("[default]"));
    assert!(lines[1].contains("720p"));
    assert!(!lines[1].contains("[default]"));
    assert_eq!(variant_label(&variants[2]), "1080p");
}

#[test]
fn test_choice_enter_number_or_height() {
    let v = sample_variants();
    assert_eq!(variant_from_choice(&v, "").unwrap().url, "c");
    assert_eq!(variant_from_choice(&v, "  ").unwrap().url, "c");
    assert_eq!(variant_from_choice(&v, "1").unwrap().url, "c");
    assert_eq!(variant_from_choice(&v, "2").unwrap().url, "b");
    assert_eq!(variant_from_choice(&v, "720p").unwrap().url, "b");
    assert_eq!(variant_from_choice(&v, "worst").unwrap().url, "a");
    assert!(variant_from_choice(&v, "9").is_err());
}

#[test]
fn test_choose_variant_prompts_when_quality_omitted() {
    let v = vec![v(1, 360, "a"), v(9, 1080, "c")];
    assert!(needs_prompt(&v, None, true));
    let chosen = choose_variant(&v, None, true, Some("")).unwrap();
    assert_eq!(chosen.url, "c");
    let chosen = choose_variant(&v, None, true, Some("2")).unwrap();
    assert_eq!(chosen.url, "a");
}

#[test]
fn test_choose_variant_skips_prompt_when_quality_given() {
    let v = sample_variants();
    assert!(!needs_prompt(&v, Some("720p"), true));
    let chosen = choose_variant(&v, Some("720p"), true, Some("1")).unwrap();
    assert_eq!(chosen.url, "b");
}

#[test]
fn test_choose_variant_no_tty_uses_best() {
    let v = vec![v(1, 360, "a"), v(9, 1080, "c")];
    assert!(!needs_prompt(&v, None, false));
    let chosen = choose_variant(&v, None, false, None).unwrap();
    assert_eq!(chosen.url, "c");
}

#[test]
fn test_rewrite_relative_and_endlist() {
    let src = "#EXTM3U\n#EXT-X-PLAYLIST-TYPE:VOD\n#EXTINF:10,\nseg-1.woff2\n#EXTINF:10,\nseg-2.woff2\n";
    let mut segs = Vec::new();
    let out = rewrite_media_playlist(
        src,
        "https://cdn.example/hls/vid/",
        "http://127.0.0.1:9",
        &mut segs,
        "ts",
    );
    assert!(out.contains("http://127.0.0.1:9/seg/00000.ts"));
    assert!(out.contains("#EXT-X-ENDLIST"));
    assert_eq!(segs[0], "https://cdn.example/hls/vid/seg-1.woff2");
}

#[test]
fn test_rewrite_aes128_key_uses_key_ext() {
    let src = "#EXTM3U\n#EXT-X-KEY:METHOD=AES-128,URI=\"https://cdn.example/hls/vid/encryption.key?t=abc\"\n#EXTINF:10,\nseg-1.ts\n";
    let mut segs = Vec::new();
    let out = rewrite_media_playlist(
        src,
        "https://cdn.example/hls/vid/",
        "http://127.0.0.1:9",
        &mut segs,
        "ts",
    );
    assert!(out.contains(r#"URI="http://127.0.0.1:9/seg/00000.key""#));
    assert!(out.contains("http://127.0.0.1:9/seg/00001.ts"));
    assert_eq!(segs[0], "https://cdn.example/hls/vid/encryption.key?t=abc");
    assert_eq!(segs[1], "https://cdn.example/hls/vid/seg-1.ts");
}

// ---------------------------------------------------------------------------
// Further cases
// ---------------------------------------------------------------------------

#[test]
fn stream_inf_reads_bandwidth_and_height() {
    let l: Vec<char> = "#EXT-X-STREAM-INF:BANDWIDTH=5000000,RESOLUTION=1280x720,CODECS=\"avc1\""
        .chars()
        .collect();
    assert_eq!(stream_inf(&l), (5000000, 720));
    let l: Vec<char> = "#EXT-X-STREAM-INF:bandwidth=77,resolution=640X360".chars().collect();
    assert_eq!(stream_inf(&l), (77, 360));
    let l: Vec<char> = "#EXT-X-STREAM-INF:AVERAGE-BANDWIDTH=9,RESOLUTION=1x2".chars().collect();
    assert_eq!(stream_inf(&l), (9, 2));
    let l: Vec<char> = "#EXT-X-STREAM-INF:NAME=x".chars().collect();
    assert_eq!(stream_inf(&l), (0, 0));
    let l: Vec<char> = "#EXT-X-STREAM-INF:BANDWIDTH=99999999999999999999999".chars().collect();
    assert_eq!(stream_inf(&l), (0, 0));
}

#[test]
fn variants_take_uri_attr_or_next_line() {
    let src = "#EXTM3U\n#EXT-X-STREAM-INF:BANDWIDTH=2,RESOLUTION=10x20,URI=\"a.m3u8\"\n#EXT-X-STREAM-INF:BANDWIDTH=3\n#comment\n#EXT-X-STREAM-INF:BANDWIDTH=4\n  b.m3u8  \n";
    let v = parse_variants(src, "https://cdn.example/x/master.m3u8");
    assert_eq!(v.len(), 2);
    assert_eq!(v[0].url, "https://cdn.example/x/a.m3u8");
    assert_eq!((v[0].bandwidth, v[0].height), (2, 20));
    assert_eq!(v[1].url, "https://cdn.example/x/b.m3u8");
    assert_eq!(v[1].bandwidth, 4);
}

#[test]
fn subtitle_tracks_dedupe_and_default_first() {
    let src = "#EXT-X-MEDIA:TYPE=SUBTITLES,NAME=\"\",URI=\"a.vtt\"\n#EXT-X-MEDIA:TYPE=subtitles,URI=\"a.vtt\",DEFAULT=YES\n#EXT-X-MEDIA:TYPE=SUBTITLES,NAME=\"B\",URI=\"b.vtt\",default=yes\n";
    let t = parse_subtitle_tracks(src, "https://cdn.example/p/m.m3u8");
    assert_eq!(t.len(), 2);
    assert_eq!(t[0].name, "B");
    assert!(t[0].default);
    assert_eq!(t[1].name, "subtitles");
    assert_eq!(t[1].url, "https://cdn.example/p/a.vtt");
    assert!(!t[1].default);
}

#[test]
fn local_master_playlist_is_exact() {
    let t = play::hls::SubtitleTrack {
        name: "Eng \"CC\"".into(),
        language: String::new(),
        url: "u".into(),
        default: false,
    };
    let m = local_master_playlist("http://h/index.m3u8", &[(t, "http://h/sub/0.m3u8".into())]);
    assert_eq!(
        m,
        "#EXTM3U\n#EXT-X-INDEPENDENT-SEGMENTS\n#EXT-X-MEDIA:TYPE=SUBTITLES,GROUP-ID=\"subs\",NAME=\"Eng 'CC'\",LANGUAGE=\"und\",DEFAULT=NO,AUTOSELECT=NO,URI=\"http://h/sub/0.m3u8\"\n#EXT-X-STREAM-INF:BANDWIDTH=1,SUBTITLES=\"subs\"\nhttp://h/index.m3u8\n"
    );
}

#[test]
fn rewrite_drops_iframes_and_keeps_endlist_once() {
    let src = "#EXTM3U\n\n#EXT-X-I-FRAME-STREAM-INF:URI=\"i.m3u8\"\n#EXT-X-MAP:URI=\"init.mp4\"\na.m4s\n#EXT-X-ENDLIST\n";
    let mut segs = vec!["earlier".to_string()];
    let out = rewrite_media_playlist(src, "https://c/v/", "http://p", &mut segs, "m4s");
    assert_eq!(
        out,
        "#EXTM3U\n#EXT-X-MAP:URI=\"http://p/seg/00001.m4s\"\nhttp://p/seg/00002.m4s\n#EXT-X-ENDLIST\n"
    );
    assert_eq!(
        segs,
        vec!["earlier", "https://c/v/init.mp4", "https://c/v/a.m4s"]
    );
}

#[test]
fn first_segment_and_hint() {
    let text = "#EXTM3U\n#EXT-X-MAP:URI=\"init.mp4\"\n#EXTINF:2,CODECS=\"avc1.64001f,mp4a.40.2\"\n  seg1.m4s\n";
    assert_eq!(
        first_segment_url("https://c/h/a.m3u8", text).unwrap(),
        "https://c/h/seg1.m4s"
    );
    assert_eq!(
        playlist_hint(text, "m4s"),
        "segment=m4s map=yes codecs=avc1.64001f,mp4a.40.2"
    );
    assert_eq!(playlist_hint("#EXTM3U\n", "ts"), "segment=ts");
    assert!(first_segment_url("https://c/h/a.m3u8", "#EXTM3U\n").is_none());
}

#[test]
fn subtitle_helpers() {
    assert_eq!(subtitle_ext("https://c/x.SRT?a"), "srt");
    assert_eq!(subtitle_ext("https://c/x.ssa"), "ass");
    assert_eq!(subtitle_ext("https://c/x"), "vtt");
    assert_eq!(subtitle_content_type(b"  WEBVTT\n"), Some("text/vtt"));
    assert_eq!(subtitle_content_type(b"1\n00:00 --> 00:01"), Some("application/x-subrip"));
    assert_eq!(subtitle_content_type(b"[Script Info]"), Some("text/x-ssa"));
    assert_eq!(subtitle_content_type(b"\xff\xfe"), None);
}

#[test]
fn segment_bodies() {
    let mut ts = vec![b'G'];
    ts.extend(std::iter::repeat(0u8).take(20));
    assert_eq!(fetch_segment_body(&ts, "a.ts"), Some(ts.clone()));
    assert_eq!(fetch_segment_body(b"<html>403</html>", "a.ts"), None);
    assert_eq!(fetch_segment_body(b"<html>403</html>", "k.key"), None);
    assert_eq!(fetch_segment_body(&[7u8; 16], "00000.key"), None);
    assert_eq!(
        fetch_segment_body(b"<html>403</html>", "s.vtt"),
        Some(b"<html>403</html>".to_vec())
    );
    assert_eq!(fetch_segment_body(b"WEBVTT\n", "s.vtt"), None);
    assert_eq!(sniff_segment_kind(None), "ts");
    let mut m4s = vec![0, 0, 0, 24];
    m4s.extend_from_slice(b"ftypisom");
    assert_eq!(sniff_segment_kind(Some(&m4s)), "m4s");
}

#[test]
fn master_and_variant_reads() {
    match read_master("https://c/m.m3u8", b"  #EXTM3U\n#EXT-X-STREAM-INF:BANDWIDTH=1\nv.m3u8\n") {
        Ok(MasterStep::Variants { variants, .. }) => {
            assert_eq!(variants[0].url, "https://c/v.m3u8")
        }
        _ => panic!("expected variants"),
    }
    match read_master("https://c/m.m3u8", b"#EXTM3U\n#EXTINF:1,\ns.ts\n") {
        Ok(MasterStep::Media(h)) => assert_eq!(h.media_url, "https://c/m.m3u8"),
        _ => panic!("expected a media playlist"),
    }
    match read_master("https://c/m.m3u8", b"nope") {
        Err(e) => assert_eq!(
            e.message(),
            "play: not an HLS playlist (https://c/m.m3u8): \"nope\""
        ),
        _ => panic!("expected an error"),
    }
    let e = read_variant("https://c/v.m3u8", "https://c/v.m3u8", b"<html>", Vec::new())
        .err()
        .unwrap();
    assert_eq!(e.message(), "play: variant is not a playlist: https://c/v.m3u8");
}

#[test]
fn ranked_variants_are_best_first() {
    let r = ranked_variants(&[v(5, 720, "b"), v(9, 1080, "c"), v(5, 1080, "d"), v(1, 360, "a")]);
    let urls: Vec<&str> = r.iter().map(|x| x.url.as_str()).collect();
    assert_eq!(urls, vec!["c", "d", "b", "a"]);
}
