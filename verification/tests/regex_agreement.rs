use play::download::parse_playlist;
use play::hls::stream_inf;
use regex::Regex;

fn by_regex(line: &str) -> (u64, u32) {
    let re = Regex::new(r"(?i)#EXT-X-STREAM-INF:.*?BANDWIDTH=(\d+)(?:.*?RESOLUTION=\d+x(\d+))?").unwrap();
    re.captures(line)
        .map(|c| {
            let bw = c.get(1).and_then(|m| m.as_str().parse().ok()).unwrap_or(0);
            let h = c.get(2).and_then(|m| m.as_str().parse().ok()).unwrap_or(0);
            (bw, h)
        })
        .unwrap_or((0, 0))
}

#[test]
fn stream_inf_reads_digits_as_the_pattern_does() {
    let lines = [
        "#EXT-X-STREAM-INF:BANDWIDTH=5000000,RESOLUTION=1280x720",
        "#EXT-X-STREAM-INF:bandwidth=800000,resolution=640X360",
        "#EXT-X-STREAM-INF:BANDWIDTH=5\u{663}",
        "#EXT-X-STREAM-INF:BANDWIDTH=\u{661}\u{662},RESOLUTION=1280x720",
        "#EXT-X-STREAM-INF:BANDWIDTH=7,RESOLUTION=1x2\u{968}",
        "#EXT-X-STREAM-INF:BANDWIDTH=7,RESOLUTION=\u{FF11}x720",
        "#EXT-X-STREAM-INF:RESOLUTION=1x2,BANDWIDTH=9",
        "#EXT-X-STREAM-INF:BANDWIDTH=99999999999999999999",
        "#EXT-X-STREAM-INF:CODECS=\"a\"",
    ];
    for l in lines {
        let c: Vec<char> = l.chars().collect();
        assert_eq!(stream_inf(&c), by_regex(l), "{l}");
    }
    let c: Vec<char> = lines[2].chars().collect();
    assert_eq!(stream_inf(&c), (0, 0));
}

#[test]
fn media_sequence_reads_digits_as_the_pattern_does() {
    let re = Regex::new(r"#EXT-X-MEDIA-SEQUENCE:(\d+)").unwrap();
    for (line, want) in [("#EXT-X-MEDIA-SEQUENCE:42", 42u64), ("#EXT-X-MEDIA-SEQUENCE:4\u{663}", 0), ("#EXT-X-MEDIA-SEQUENCE:\u{1D7CE}", 0)] {
        let by_re = re
            .captures(line)
            .map(|c| c[1].parse().unwrap_or(0u64))
            .unwrap_or(0);
        assert_eq!(by_re, want);
        let text = format!("#EXTM3U\n{line}\na.ts\n");
        let (seq, _, _) = parse_playlist("https://c/m.m3u8", &text).unwrap();
        assert_eq!(seq, want, "{line}");
    }
}
