use play::assoc::Assoc;
use play::download::{
    after_resolve_error, bin_search_dirs, clamp_workers, decrypt_aes128, download_media,
    download_stream, key_uris, parse_playlist, plan_download, remux_cmd, remux_cmd_opts,
    remux_copy, remux_retry_outcome, segment_payload, seq_iv, valid_bin_name, worker_count, Crypto,
    RemuxStep, StreamRoute, DEFAULT_WORKERS, MAX_WORKERS, MIN_WORKERS,
};
use play::error::Error;
use std::path::Path;

#[test]
fn test_default_workers_is_six() {
    assert_eq!(DEFAULT_WORKERS, 6);
    assert_eq!(worker_count(), 6);
    assert_eq!(clamp_workers(0), 1);
    assert_eq!(clamp_workers(6), 6);
    assert_eq!(clamp_workers(99), 16);
}

#[test]
fn test_explicit_ts_is_not_remuxed() {
    let (sl_out, remux_to) = plan_download("episode.ts", true);
    assert_eq!(sl_out, "episode.ts");
    assert!(remux_to.is_none());
}

#[test]
fn test_mp4_with_ffmpeg_dumps_ts_then_remuxes() {
    let (sl_out, remux_to) = plan_download("episode.mp4", true);
    assert_eq!(Path::new(&sl_out).extension().unwrap(), "ts");
    assert_eq!(remux_to.as_deref(), Some("episode.mp4"));
    assert_ne!(sl_out, remux_to.unwrap());
}

#[test]
fn test_mp4_without_ffmpeg_keeps_ts() {
    let (sl_out, remux_to) = plan_download("episode.mp4", false);
    assert_eq!(sl_out, "episode.ts");
    assert!(remux_to.is_none());
}

#[test]
fn test_explicit_mkv_remuxes_when_ffmpeg_exists() {
    let (sl_out, remux_to) = plan_download("episode.mkv", true);
    assert_eq!(Path::new(&sl_out).extension().unwrap(), "ts");
    assert_eq!(remux_to.as_deref(), Some("episode.mkv"));
}

#[test]
fn test_mp4_copy_uses_faststart() {
    let cmd = remux_cmd("/usr/bin/ffmpeg", "a.ts", "a.mp4");
    assert_eq!(cmd[0], "/usr/bin/ffmpeg");
    assert!(cmd.iter().any(|a| a == "-c"));
    assert!(cmd.iter().any(|a| a == "copy"));
    assert!(cmd.iter().any(|a| a == "+faststart"));
    assert_eq!(cmd.last().unwrap(), "a.mp4");
}

#[test]
fn test_mkv_copy_skips_faststart() {
    let cmd = remux_cmd("/usr/bin/ffmpeg", "a.ts", "a.mkv");
    assert!(!cmd.iter().any(|a| a == "+faststart"));
    assert_eq!(cmd.last().unwrap(), "a.mkv");
}

#[test]
fn test_mp4_retry_cmd_adds_aac_bitstream_filter() {
    let cmd = remux_cmd_opts("/usr/bin/ffmpeg", "a.ts", "a.mp4", true);
    assert!(cmd
        .windows(2)
        .any(|w| w[0] == "-bsf:a" && w[1] == "aac_adtstoasc"));
    assert!(cmd.iter().any(|a| a == "+faststart"));
}

#[test]
fn test_bin_search_includes_homebrew_and_usr_local() {
    let dirs = bin_search_dirs(None, &[]);
    assert!(dirs
        .iter()
        .any(|p| Path::new(p).ends_with("homebrew/bin") || Path::new(p) == Path::new("/usr/local/bin")));
}

#[test]
fn test_cancel_before_fetch_errors() {
    let err = download_media(
        "http://127.0.0.1/pl.m3u8",
        "#EXTM3U\n#EXTINF:1,\nseg.ts\n",
        "out.ts",
        false,
        true,
        worker_count(),
    )
    .err()
    .unwrap();
    assert!(err.message().contains("cancelled"));
}

// ---------------------------------------------------------------------------
// Further cases
// ---------------------------------------------------------------------------

#[test]
fn plan_for_extensionless_target() {
    let (ts, remux) = plan_download("episode", true);
    assert_eq!(ts, "episode.ts");
    assert_eq!(remux.as_deref(), Some("episode.mp4"));
    let (ts, remux) = plan_download("EPISODE.TS", true);
    assert_eq!(ts, "EPISODE.TS");
    assert!(remux.is_none());
}

#[test]
fn remux_target_is_never_the_ts_file() {
    for target in ["episode", "dir/episode.mkv", "Movie.MP4", "clip.m4v", "a.b.mov"] {
        let (ts, remux) = plan_download(target, true);
        let remux = remux.expect("a non-TS target is remuxed when ffmpeg is there");
        assert_ne!(remux, ts);
        assert!(ts.ends_with(".ts"));
    }
}

#[test]
fn remux_decisions() {
    match remux_copy("a.ts", "a.mp4", "ff", Err(Error::msg("play: remux failed: ffmpeg 1"))) {
        RemuxStep::Retry { cmd, first_err } => {
            assert!(cmd.iter().any(|a| a == "aac_adtstoasc"));
            assert_eq!(first_err.message(), "play: remux failed: ffmpeg 1");
        }
        _ => panic!("an mp4 remux is retried"),
    }
    match remux_copy("a.ts", "a.mkv", "ff", Err(Error::msg("boom"))) {
        RemuxStep::Finished(Err(e)) => assert_eq!(e.message(), "boom"),
        _ => panic!("an mkv remux is not retried"),
    }
    match remux_copy("a.ts", "a.mp4", "ff", Err(Error::msg("play: download cancelled"))) {
        RemuxStep::Finished(Err(e)) => assert!(e.message().contains("cancelled")),
        _ => panic!("a cancelled remux stands"),
    }
    assert!(matches!(remux_copy("a.ts", "a.mp4", "ff", Ok(())), RemuxStep::Finished(Ok(()))));
    let e = remux_retry_outcome(Error::msg("first"), Err(Error::msg("second")))
        .err()
        .unwrap();
    assert_eq!(e.message(), "first");
    assert!(remux_retry_outcome(Error::msg("first"), Ok(())).is_ok());
}

#[test]
fn bin_names_and_dirs() {
    assert!(valid_bin_name("ffmpeg"));
    assert!(valid_bin_name("yt-dlp_2"));
    assert!(!valid_bin_name("rm -rf"));
    assert!(!valid_bin_name("a;b"));
    let dirs = bin_search_dirs(Some("/home/u"), &["/x/bin".to_string()]);
    assert_eq!(
        dirs,
        vec![
            "/opt/homebrew/bin",
            "/usr/local/bin",
            "/opt/local/bin",
            "/usr/bin",
            "/home/u/bin",
            "/home/u/.local/bin",
            "/x/bin"
        ]
    );
}

#[test]
fn playlist_for_download() {
    let text = "#EXTM3U\n#EXT-X-MEDIA-SEQUENCE:7\n#EXT-X-MAP:URI=\"init.mp4\"\n#EXTINF:1,\na.ts\n#EXT-X-KEY:METHOD=AES-128,URI=\"k.key\",IV=0x000102030405060708090a0b0c0d0e0f\nb.ts\n#EXT-X-KEY:METHOD=NONE\nc.ts\n";
    let (seq, maps, segs) = parse_playlist("https://c/p/m.m3u8", text).unwrap();
    assert_eq!(seq, 7);
    assert_eq!(maps, vec!["https://c/p/init.mp4"]);
    assert_eq!(segs.len(), 3);
    assert_eq!(segs[0].url, "https://c/p/a.ts");
    assert!(matches!(segs[0].crypto, Crypto::Plain));
    match &segs[1].crypto {
        Crypto::Aes128 { uri, iv } => {
            assert_eq!(uri, "https://c/p/k.key");
            assert_eq!(
                iv.unwrap(),
                [0u8, 1, 2, 3, 4, 5, 6, 7, 8, 9, 10, 11, 12, 13, 14, 15]
            );
        }
        _ => panic!("b.ts is encrypted"),
    }
    assert!(matches!(segs[2].crypto, Crypto::Plain));
    assert_eq!(key_uris(&segs), vec!["https://c/p/k.key"]);
}

#[test]
fn key_tags_refused() {
    let e = parse_playlist("https://c/m.m3u8", "#EXT-X-KEY:METHOD=SAMPLE-AES,URI=\"k\"\na.ts\n")
        .err()
        .unwrap();
    assert_eq!(e.message(), "play: unsupported HLS key method SAMPLE-AES");
    let e = parse_playlist("https://c/m.m3u8", "#EXT-X-KEY:METHOD=aes-128\na.ts\n")
        .err()
        .unwrap();
    assert_eq!(e.message(), "play: AES-128 key missing URI");
}

#[test]
fn download_refusals() {
    let p = download_media("https://c/m.m3u8", "#EXTM3U\na.ts\n", "episode.mp4", false, false, 4).unwrap();
    assert_eq!(p.ts_out, "episode.ts");
    assert_eq!(p.final_path, "episode.ts");
    assert!(p.remux_to.is_none());
    assert_eq!(p.segs.len(), 1);
    assert_eq!(p.outputs(), vec!["episode.ts".to_string()]);
    let p = download_media("https://c/m.m3u8", "#EXTM3U\na.ts\n", "episode.mp4", true, false, 4).unwrap();
    assert_eq!(p.outputs(), vec!["episode.ts".to_string(), "episode.mp4".to_string()]);
    let e = download_media("https://c/m.m3u8", "#EXTM3U\n", "x.ts", false, false, 4)
        .err()
        .unwrap();
    assert_eq!(e.message(), "play: no segments in playlist");
    let p = download_media("https://c/m.m3u8", "#EXTM3U\na.ts\n", "x.mp4", true, false, 40).unwrap();
    assert_eq!(p.ts_out, "x.ts");
    assert_eq!(p.final_path, "x.mp4");
    assert_eq!(p.workers, MAX_WORKERS);
    let p = download_media("https://c/m.m3u8", "#EXTM3U\na.ts\n", "x.ts", false, false, 0).unwrap();
    assert_eq!(p.workers, MIN_WORKERS);
    assert!(p.remux_to.is_none());
}

#[test]
fn sequence_iv_is_big_endian() {
    let iv = seq_iv(0x0102030405060708);
    assert_eq!(iv, [0, 0, 0, 0, 0, 0, 0, 0, 1, 2, 3, 4, 5, 6, 7, 8]);
    assert_eq!(seq_iv(0), [0u8; 16]);
}

#[test]
fn decryption_errors_and_plain_payloads() {
    let e = decrypt_aes128(&[0u8; 5], &[0u8; 16], &[0u8; 16]).err().unwrap();
    assert_eq!(e.message(), "play: bad AES key/iv");
    let e = decrypt_aes128(&[0u8; 16], &[0u8; 16], &[0u8; 15]).err().unwrap();
    assert_eq!(e.message(), "play: AES decrypt failed");
    let keys: Assoc<Vec<u8>> = Assoc::new();
    let mut ts = vec![b'G'];
    ts.extend(std::iter::repeat(0u8).take(20));
    assert_eq!(segment_payload(&ts, &Crypto::Plain, 0, &keys).unwrap(), ts);
    let enc = Crypto::Aes128 {
        uri: "k".into(),
        iv: None,
    };
    let e = segment_payload(&ts, &enc, 0, &keys).err().unwrap();
    assert_eq!(e.message(), "play: missing AES key");
}

#[test]
fn stream_routes() {
    assert!(matches!(download_stream("https://c/a.mp4"), Ok(StreamRoute::Http)));
    match download_stream("hls://https://c/a") {
        Ok(StreamRoute::Hls { playlist_url }) => assert_eq!(playlist_url, "https://c/a"),
        _ => panic!("hls route"),
    }
    assert_eq!(
        download_stream("https://c/a.mpd").err().unwrap().message(),
        "play: DASH download is not supported"
    );
    assert!(matches!(
        after_resolve_error(Error::Progressive { url: "u".into() }),
        Ok(StreamRoute::Http)
    ));
    assert!(after_resolve_error(Error::msg("x")).is_err());
}
