use play::cli::{apply_curl, check_url, peel_download, should_ask_referer, Args};
use play::error::Error;
use play::hls::SubtitleTrack;
use play::player::{
    hint_with_subs, merge_extra_subs, require_vlc, sub_path, subtitle_use, vlc_launch_args,
    vlc_stderr_level, vlc_sub_options, vlc_window_step, SubtitleUse, VlcWatch, VLC_BIN,
};
use play::proxy::{
    curl_range, file_content_type, head_content_size, parse_upstream_headers, route_request,
    segment_reply, upstream_failure, ProxyState, Route,
};
use play::assoc::Assoc;

#[test]
fn test_launch_args_are_vlc_cli_options() {
    let cmd = vlc_launch_args(
        "/Applications/VLC.app/Contents/MacOS/VLC",
        &["http://127.0.0.1/index.m3u8".to_string()],
    );
    assert_eq!(cmd[0], "/Applications/VLC.app/Contents/MacOS/VLC");
    assert!(cmd.iter().any(|a| a == "--play-and-exit"));
    assert!(cmd.iter().any(|a| a == "--network-caching=8000"));
    assert!(cmd.iter().any(|a| a == "--no-videotoolbox"));
    assert!(cmd.iter().any(|a| a == "--avcodec-hw=none"));
    assert!(!cmd.iter().any(|a| a.contains("one-instance")));
    assert_eq!(cmd.last().unwrap(), "http://127.0.0.1/index.m3u8");
    for a in &cmd[1..cmd.len() - 1] {
        assert!(
            a.starts_with("--"),
            "VLC short option would be parsed as -N: {a}"
        );
        assert!(!a.contains("NSQuit"));
    }
}

#[test]
fn test_vlc_stderr_level_picks_errors() {
    assert_eq!(
        vlc_stderr_level(
            "[000000010930af10] adaptive demux error: Failed to create demuxer 0x0 Unknown"
        ),
        Some("error")
    );
    assert_eq!(
        vlc_stderr_level("[0000000129805f40] main warning: late picture"),
        Some("warn")
    );
    assert!(vlc_stderr_level(
        "[0000000129805f40] main libvlc: Running vlc with the default interface."
    )
    .is_none());
    assert!(vlc_stderr_level("").is_none());
}

// ---------------------------------------------------------------------------
// Further cases
// ---------------------------------------------------------------------------

#[test]
fn vlc_binary_and_watch() {
    assert!(require_vlc(VLC_BIN, true).is_ok());
    assert_eq!(
        require_vlc("/x/vlc", false).err().unwrap().message(),
        "play: VLC not found at /x/vlc (set VLC=...)"
    );
    assert!(matches!(vlc_window_step(None, true), VlcWatch::WaitForExit));
    assert!(matches!(vlc_window_step(Some(-1), false), VlcWatch::WaitForExit));
    assert!(matches!(vlc_window_step(Some(2), false), VlcWatch::Watch(true)));
    assert!(matches!(vlc_window_step(Some(0), true), VlcWatch::Kill));
    assert!(matches!(vlc_window_step(Some(0), false), VlcWatch::Watch(false)));
}

#[test]
fn subtitle_options_for_vlc() {
    assert!(vlc_sub_options(&vec![], false).is_empty());
    assert_eq!(vlc_sub_options(&vec![], true), vec!["--sub-track=0"]);
    assert_eq!(
        vlc_sub_options(
            &vec!["h/0.vtt".to_string(), "h/1.srt".to_string(), "h/2.ass".to_string()],
            true
        ),
        vec!["--sub-file=h/0.vtt", "--sub-track=0", "--input-slave=h/1.srt#h/2.ass"]
    );
}

#[test]
fn extra_subtitles_are_merged_once() {
    let mut tracks: Vec<SubtitleTrack> = Vec::new();
    merge_extra_subs(
        &mut tracks,
        &[
            " https://c/subs/en.vtt ".to_string(),
            "https://c/subs/en.vtt".to_string(),
            "  ".to_string(),
            "https://c/".to_string(),
        ],
    );
    assert_eq!(tracks.len(), 2);
    assert_eq!(tracks[0].name, "en.vtt");
    assert!(tracks[0].default);
    assert_eq!(tracks[1].name, "subtitles");
    assert!(!tracks[1].default);
}

#[test]
fn subtitle_bodies_and_paths() {
    assert!(matches!(subtitle_use("https://c/s.m3u8", b"#EXTM3U\n"), SubtitleUse::Playlist));
    assert!(matches!(subtitle_use("https://c/s", b"WEBVTT\n"), SubtitleUse::Sidecar("vtt")));
    assert!(matches!(subtitle_use("https://c/s.srt", b"??"), SubtitleUse::Sidecar("srt")));
    assert!(matches!(subtitle_use("https://c/s", b"<html>"), SubtitleUse::Skip));
    assert_eq!(sub_path(3, "vtt"), "/sub/3.vtt");
    assert_eq!(hint_with_subs("segment=ts", 0), "segment=ts");
    assert_eq!(hint_with_subs("http", 2), "http subs=2");
}

#[test]
fn proxy_routes() {
    let mut st = ProxyState::new(
        Assoc::new(),
        vec!["https://c/a.ts".to_string(), "https://c/k.key".to_string()],
        b"#EXTM3U\n".to_vec(),
        false,
    );
    st.files.insert("/sub/0.vtt".to_string(), b"WEBVTT".to_vec());
    assert!(matches!(route_request(&st, "/sub/0.vtt?x=1"), Route::File { .. }));
    assert!(matches!(route_request(&st, "/index.m3u8"), Route::Playlist));
    assert!(matches!(route_request(&st, "/"), Route::Playlist));
    match route_request(&st, "/seg/00001.key") {
        Route::Segment { index, upstream, is_key, .. } => {
            assert_eq!(index, 1);
            assert_eq!(upstream, "https://c/k.key");
            assert!(is_key);
        }
        _ => panic!("segment route"),
    }
    assert!(matches!(route_request(&st, "/seg/00009.ts"), Route::BadSegment));
    assert!(matches!(route_request(&st, "/seg/x.ts"), Route::BadSegment));
    assert!(matches!(route_request(&st, "/favicon.ico"), Route::NotFound));
    st.source = Some("https://c/v.mp4".to_string());
    assert!(matches!(route_request(&st, "/file.mp4"), Route::Source { .. }));
}

#[test]
fn proxy_log_is_capped() {
    let mut st = ProxyState::new(Assoc::new(), Vec::new(), Vec::new(), false);
    for i in 0..7 {
        assert_eq!(st.log_message(&format!("e{i}")).unwrap(), format!("e{i}"));
    }
    assert_eq!(
        st.log_message("e7").unwrap(),
        "e7 (further segment errors omitted)"
    );
    assert!(st.log_message("e8").is_none());
}

#[test]
fn segment_replies() {
    let r = segment_reply("00000.key", true, b"KEY".to_vec());
    assert_eq!((r.body.as_slice(), r.content_type), (&b"KEY"[..], "application/octet-stream"));
    let r = segment_reply("00001.ts", false, b"WEBVTT\n".to_vec());
    assert_eq!(r.content_type, "text/vtt");
    let mut ts = vec![b'G'];
    ts.extend(std::iter::repeat(0u8).take(20));
    let r = segment_reply("00002.ts", false, ts.clone());
    assert_eq!(r.content_type, "video/MP2T");
    assert!(!r.suspicious);
    let r = segment_reply("00003.ts", false, b"<html>".to_vec());
    assert!(r.suspicious);
    assert_eq!(file_content_type("/x.webvtt"), "text/vtt");
    assert_eq!(file_content_type("/x.bin"), "application/octet-stream");
    let (code, body, log) = upstream_failure(
        4,
        "https://c/a.ts",
        &Error::Http {
            code: 404,
            url: String::new(),
            hint: String::new(),
            body: Vec::new(),
        },
    );
    assert_eq!((code, body.as_str()), (404, "upstream 404"));
    assert_eq!(log, "seg 4 https://c/a.ts → HTTP 404");
    let (code, body, _) = upstream_failure(4, "u", &Error::msg("x"));
    assert_eq!((code, body.as_str()), (502, "upstream failed"));
}

#[test]
fn upstream_heads() {
    let (code, ctype, clen, crange) = parse_upstream_headers(
        "HTTP/1.1 206 Partial Content\r\nContent-Type: video/webm\r\ncontent-length: 100\r\nContent-Range: bytes 0-99/5000\r\n\r\nX-After: 1\r\n",
    );
    assert_eq!(code, 206);
    assert_eq!(ctype, "video/webm");
    assert_eq!(clen, Some(100));
    assert_eq!(crange.as_deref(), Some("bytes 0-99/5000"));
    let (code, ctype, clen, crange) = parse_upstream_headers("");
    assert_eq!((code, ctype.as_str(), clen, crange), (0, "video/mp4", None, None));
    assert_eq!(curl_range(Some("bytes=10-"), false).as_deref(), Some("10-"));
    assert_eq!(curl_range(Some("bytes="), true).as_deref(), Some("0-0"));
    assert_eq!(curl_range(None, false), None);
    assert_eq!(head_content_size(Some("bytes 0-0/5000"), Some(1)), Some(5000));
    assert_eq!(head_content_size(Some("bytes 0-0/*"), Some(1)), Some(1));
    assert_eq!(head_content_size(None, None), None);
}

#[test]
fn command_line_flags() {
    let argv: Vec<String> = ["--download", "episode.mp4", "https://x/a.m3u8", "-v"]
        .iter()
        .map(|s| s.to_string())
        .collect();
    let (rest, dl, file) = peel_download(&argv);
    assert_eq!(rest, vec!["https://x/a.m3u8", "-v"]);
    assert!(dl);
    assert_eq!(file.as_deref(), Some("episode.mp4"));
    let argv: Vec<String> = ["-o", "https://x/a.m3u8", "720p"]
        .iter()
        .map(|s| s.to_string())
        .collect();
    let (rest, dl, file) = peel_download(&argv);
    assert_eq!(rest, vec!["https://x/a.m3u8", "720p"]);
    assert!(dl);
    assert!(file.is_none());
    let (rest, dl, _) = peel_download(&["https://x/a".to_string()]);
    assert_eq!(rest, vec!["https://x/a"]);
    assert!(!dl);
}

#[test]
fn pasted_curl_fills_arguments() {
    let a = Args {
        url: "curl 'https://c/m.m3u8' -H 'Referer: https://e/' -A 'UA9' -b 'k=v'".into(),
        quality: None,
        referer: None,
        origin: Some("https://o".into()),
        user_agent: "UA".into(),
        dry_run: false,
        verbose: false,
        download: false,
        download_file: None,
    };
    let (b, cookie) = apply_curl(a);
    assert_eq!(b.url, "https://c/m.m3u8");
    assert_eq!(b.referer.as_deref(), Some("https://e/"));
    assert_eq!(b.origin.as_deref(), Some("https://o"));
    assert_eq!(b.user_agent, "UA9");
    assert_eq!(cookie.as_deref(), Some("k=v"));
    assert!(check_url("https://c/m.m3u8").is_ok());
    assert_eq!(
        check_url("c/m.m3u8").err().unwrap().message(),
        "play: not a URL: c/m.m3u8"
    );
    let nginx = b"<title>403 Forbidden</title><center>nginx</center>";
    assert!(should_ask_referer(false, true, "https://c/a.m3u8", nginx, None));
    assert!(!should_ask_referer(true, true, "https://c/a.m3u8", nginx, None));
    assert!(!should_ask_referer(false, false, "https://c/a.m3u8", nginx, None));
}
