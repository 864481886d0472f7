//! Playing through VLC: its command line, subtitle options, which stderr
//! lines matter, when to stop it, and the subtitle files handed to it.
use vstd::prelude::*;
use crate::error::Error;
use crate::hls::{
    playlist_text, subtitle_ext, subtitle_ext_spec, subtitle_url_spec, is_subtitle_url,
    SubtitleTrack, TrackView, track_views,
};
use crate::media::{lossy_chars, subtitle_content_type, subtitle_kind, subtitle_mime, utf8_lossy};
use crate::num::{dec, dec_chars};
use crate::text::{
    ascii_lower, chars_of, contains_str, has_infix, join_pieces, join_with, push_all, push_str,
    same_text, single, starts_with_str, string_of, to_ascii_lower, trim, trim_start_chars,
    trimmed,
};
use crate::weburl::{parse_url, url_parse};

verus! {

/// Where VLC is looked for when `VLC` is not set.
pub const VLC_BIN: &'static str = "/Applications/VLC.app/Contents/MacOS/VLC";

/// VLC's options, before the media arguments: exit after playing, a large
/// network cache, and software decoding (VideoToolbox can deadlock the
/// video decoder on AAC streams).
pub open spec fn vlc_options() -> Seq<Seq<char>> {
    seq!["--play-and-exit"@, "--network-caching=8000"@, "--no-videotoolbox"@, "--avcodec-hw=none"@]
}

/// The VLC command line: the binary, its options, then the media
/// arguments.
pub fn vlc_launch_args(vlc: &str, media_args: &[String]) -> (r: Vec<String>)
    ensures
        crate::curl::string_views(r@) == seq![vlc@] + vlc_options() + crate::curl::string_views(
            media_args@,
        ),
{
    let mut cmd: Vec<String> = Vec::new();
    cmd.push(vlc.to_string());
    cmd.push("--play-and-exit".to_string());
    cmd.push("--network-caching=8000".to_string());
    cmd.push("--no-videotoolbox".to_string());
    cmd.push("--avcodec-hw=none".to_string());
    let ghost head = seq![vlc@] + vlc_options();
    assert(crate::curl::string_views(cmd@) =~= head);
    let mut i: usize = 0;
    while i < media_args.len()
        invariant
            i <= media_args@.len(),
            crate::curl::string_views(cmd@) == head + crate::curl::string_views(
                media_args@.take(i as int),
            ),
        decreases media_args@.len() - i,
    {
        let ghost before = cmd@;
        cmd.push(media_args[i].clone());
        proof {
            assert(crate::curl::string_views(media_args@.take(i + 1)) =~= crate::curl::string_views(
                media_args@.take(i as int),
            ).push(media_args@[i as int]@));
            assert(crate::curl::string_views(cmd@) =~= crate::curl::string_views(before).push(
                media_args@[i as int]@,
            ));
        }
        i += 1;
    }
    assert(media_args@.take(media_args@.len() as int) =~= media_args@);
    cmd
}

/// VLC must exist at `vlc`; the error names the path and the `VLC`
/// variable that overrides it.
pub fn require_vlc(vlc: &str, is_file: bool) -> (r: Result<(), Error>)
    ensures
        is_file ==> r is Ok,
        !is_file ==> (r matches Err(Error::Message(m)) && m@ == "play: VLC not found at "@ + vlc@
            + " (set VLC=...)"@),
{
    if is_file {
        return Ok(());
    }
    let mut m = chars_of("play: VLC not found at ");
    push_str(&mut m, vlc);
    push_str(&mut m, " (set VLC=...)");
    Err(Error::Message(string_of(m.as_slice())))
}

/// The level of a VLC stderr line (`[ptr] module error: ...`): errors and
/// warnings count, other module chatter does not.
pub open spec fn stderr_level(line: Seq<char>) -> Option<Seq<char>> {
    let lower = ascii_lower(line);
    if has_infix(lower, " error:"@) {
        Some("error"@)
    } else if has_infix(lower, " warning:"@) {
        Some("warn"@)
    } else {
        None
    }
}

/// `error`, `warn`, or `None` for a line of VLC's stderr.
pub fn vlc_stderr_level(line: &str) -> (r: Option<&'static str>)
    ensures
        match r {
            Some(s) => stderr_level(line@) == Some(s@),
            None => stderr_level(line@) is None,
        },
{
    let c = chars_of(line);
    let lower = to_ascii_lower(c.as_slice());
    if contains_str(lower.as_slice(), " error:") {
        Some("error")
    } else if contains_str(lower.as_slice(), " warning:") {
        Some("warn")
    } else {
        None
    }
}

/// What to do with a running VLC after counting its windows.
pub enum VlcWatch {
    /// Its process is gone or cannot be inspected: wait for its exit code.
    WaitForExit,
    /// Its window was closed: kill it, then wait.
    Kill,
    /// Keep watching; whether a window has been seen.
    Watch(bool),
}

/// The watch step after counting VLC's windows (`None` when they cannot be
/// counted, negative when the process is gone): a window closed after one
/// was seen means the user is done.
pub fn vlc_window_step(count: Option<i32>, seen_window: bool) -> (r: VlcWatch)
    ensures
        match count {
            None => r is WaitForExit,
            Some(n) => if n < 0 {
                r is WaitForExit
            } else if n > 0 {
                r matches VlcWatch::Watch(s) && s
            } else if seen_window {
                r is Kill
            } else {
                r matches VlcWatch::Watch(s) && !s
            },
        },
{
    match count {
        None => VlcWatch::WaitForExit,
        Some(n) => if n < 0 {
            VlcWatch::WaitForExit
        } else if n > 0 {
            VlcWatch::Watch(true)
        } else if seen_window {
            VlcWatch::Kill
        } else {
            VlcWatch::Watch(false)
        },
    }
}

/// VLC's subtitle options: the first sidecar file as subtitle track 0, or
/// track 0 of the stream's own subtitles when asked; more sidecar files as
/// `#`-joined input slaves.
pub open spec fn sub_options(sidecar: Seq<Seq<char>>, enable_embedded: bool) -> Seq<Seq<char>> {
    let a = if sidecar.len() > 0 {
        seq!["--sub-file="@ + sidecar[0], "--sub-track=0"@]
    } else if enable_embedded {
        seq!["--sub-track=0"@]
    } else {
        seq![]
    };
    if sidecar.len() > 1 {
        a.push("--input-slave="@ + join_with(sidecar.skip(1), seq!['#']))
    } else {
        a
    }
}

/// VLC's subtitle options.
pub fn vlc_sub_options(sidecar: &Vec<String>, enable_embedded: bool) -> (r: Vec<String>)
    ensures
        crate::curl::string_views(r@) == sub_options(crate::curl::string_views(sidecar@), enable_embedded),
{
    let ghost sv = crate::curl::string_views(sidecar@);
    let mut o: Vec<String> = Vec::new();
    if sidecar.len() > 0 {
        let mut f = chars_of("--sub-file=");
        push_str(&mut f, sidecar[0].as_str());
        o.push(string_of(f.as_slice()));
        o.push("--sub-track=0".to_string());
    } else if enable_embedded {
        o.push("--sub-track=0".to_string());
    }
    let ghost a = if sv.len() > 0 {
        seq!["--sub-file="@ + sv[0], "--sub-track=0"@]
    } else if enable_embedded {
        seq!["--sub-track=0"@]
    } else {
        seq![]
    };
    assert(crate::curl::string_views(o@) =~= a);
    if sidecar.len() > 1 {
        let mut rest: Vec<Vec<char>> = Vec::new();
        let mut i: usize = 1;
        while i < sidecar.len()
            invariant
                1 <= i <= sidecar@.len(),
                sv == crate::curl::string_views(sidecar@),
                rest@.map_values(|v: Vec<char>| v@) =~= sv.subrange(1, i as int),
            decreases sidecar@.len() - i,
        {
            let ghost before = rest@;
            rest.push(chars_of(sidecar[i].as_str()));
            proof {
                assert(rest@.map_values(|v: Vec<char>| v@) =~= before.map_values(|v: Vec<char>| v@).push(
                    sv[i as int],
                ));
                assert(sv.subrange(1, i + 1) =~= sv.subrange(1, i as int).push(sv[i as int]));
            }
            i += 1;
        }
        assert(sv.subrange(1, sv.len() as int) =~= sv.skip(1));
        let hash = single('#');
        let j = join_pieces(&rest, hash.as_slice());
        let mut s = chars_of("--input-slave=");
        push_all(&mut s, j.as_slice());
        o.push(string_of(s.as_slice()));
        assert(crate::curl::string_views(o@) =~= a.push("--input-slave="@ + join_with(sv.skip(1), seq!['#'])));
    }
    o
}

/// The name of an extra subtitle URL: its last path segment when that is
/// not empty, else `subtitles`.
pub open spec fn extra_sub_name(u: Seq<char>) -> Seq<char> {
    match url_parse(u) {
        Some(p) => match p.segments {
            Some(segs) => if segs.len() > 0 && segs.last().len() > 0 {
                segs.last()
            } else {
                "subtitles"@
            },
            None => "subtitles"@,
        },
        None => "subtitles"@,
    }
}

/// Extra subtitle URLs (from the browser capture) added as tracks: each
/// trimmed URL that is not empty and not yet a track's, the first added one
/// the default when there were no tracks.
pub open spec fn merged_subs(tracks: Seq<TrackView>, extra: Seq<Seq<char>>) -> Seq<TrackView>
    decreases extra.len(),
{
    if extra.len() == 0 {
        tracks
    } else {
        let before = merged_subs(tracks, extra.drop_last());
        let u = trim(extra.last());
        if u.len() == 0 || crate::hls::has_url(before, u) {
            before
        } else {
            before.push(
                TrackView {
                    name: extra_sub_name(u),
                    language: Seq::<char>::empty(),
                    url: u,
                    default: before.len() == 0,
                },
            )
        }
    }
}

fn extra_sub_name_exec(u: &str) -> (r: String)
    ensures
        r@ == extra_sub_name(u@),
{
    match parse_url(u) {
        Some(p) => match p.segments {
            Some(segs) => {
                if segs.len() > 0 && !segs[segs.len() - 1].as_str().is_empty() {
                    let n = segs.len() - 1;
                    assert(segs@.map_values(|s: String| s@).last() == segs@[n as int]@);
                    segs[n].clone()
                } else {
                    "subtitles".to_string()
                }
            },
            None => "subtitles".to_string(),
        },
        None => "subtitles".to_string(),
    }
}

fn has_track_url(tracks: &Vec<SubtitleTrack>, u: &str) -> (b: bool)
    ensures
        b == crate::hls::has_url(track_views(tracks@), u@),
{
    let mut i: usize = 0;
    while i < tracks.len()
        invariant
            i <= tracks@.len(),
            forall|j: int| 0 <= j < i ==> tracks@[j].url@ != u@,
        decreases tracks@.len() - i,
    {
        if same_text(tracks[i].url.as_str(), u) {
            assert(track_views(tracks@)[i as int].url == u@);
            return true;
        }
        i += 1;
    }
    proof {
        if crate::hls::has_url(track_views(tracks@), u@) {
            let j = choose|j: int|
                0 <= j < tracks@.len() && #[trigger] track_views(tracks@)[j].url == u@;
            assert(tracks@[j].url@ == u@);
        }
    }
    false
}

/// Adds extra subtitle URLs to the tracks of a stream.
pub fn merge_extra_subs(tracks: &mut Vec<SubtitleTrack>, extra: &[String])
    ensures
        track_views(final(tracks)@) == merged_subs(track_views(old(tracks)@), crate::curl::string_views(extra@)),
{
    let ghost t0 = track_views(tracks@);
    let ghost ev = crate::curl::string_views(extra@);
    let mut i: usize = 0;
    while i < extra.len()
        invariant
            i <= extra@.len(),
            ev == crate::curl::string_views(extra@),
            track_views(tracks@) == merged_subs(t0, ev.take(i as int)),
        decreases extra@.len() - i,
    {
        proof {
            assert(ev.take(i + 1).drop_last() =~= ev.take(i as int));
            assert(ev.take(i + 1).last() == extra@[i as int]@);
        }
        let t = trimmed(extra[i].as_str());
        let u = string_of(t.as_slice());
        if !(t.len() == 0 || has_track_url(tracks, u.as_str())) {
            let name = extra_sub_name_exec(u.as_str());
            let default = tracks.len() == 0;
            let ghost before = tracks@;
            tracks.push(SubtitleTrack { name, language: String::new(), url: u, default });
            proof {
                assert(track_views(tracks@) =~= track_views(before).push(tracks@.last()@));
            }
        }
        i += 1;
    }
    proof {
        assert(ev.take(extra@.len() as int) =~= ev);
    }
}

/// What a fetched subtitle becomes for VLC.
pub enum SubtitleUse {
    /// A subtitle playlist: rewritten and served as HLS subtitles.
    Playlist,
    /// A subtitle file: served as a sidecar with this extension.
    Sidecar(&'static str),
    /// Neither: left out.
    Skip,
}

/// How a fetched subtitle (from `url`, with this body) is used: a playlist
/// when the text is one; a sidecar file when the body or the URL looks
/// like subtitles; else it is skipped.
pub fn subtitle_use(url: &str, body: &[u8]) -> (r: SubtitleUse)
    ensures
        ({
            let text = utf8_lossy(body@);
            if playlist_text(text) {
                r is Playlist
            } else if subtitle_mime(subtitle_kind(body@)) is Some || subtitle_url_spec(url@) {
                r matches SubtitleUse::Sidecar(e) && e@ == subtitle_ext_spec(url@)
            } else {
                r is Skip
            }
        }),
{
    let tc = lossy_chars(body);
    let ts = trim_start_chars(tc.as_slice());
    if starts_with_str(ts.as_slice(), "#EXTM3U") {
        return SubtitleUse::Playlist;
    }
    if subtitle_content_type(body).is_some() || is_subtitle_url(url) {
        return SubtitleUse::Sidecar(subtitle_ext(url));
    }
    SubtitleUse::Skip
}

/// Where the proxy serves the `i`-th subtitle: `/sub/{i}.{ext}`.
pub fn sub_path(i: u64, ext: &str) -> (r: String)
    ensures
        r@ == "/sub/"@ + dec(i as nat) + seq!['.'] + ext@,
{
    let mut p = chars_of("/sub/");
    let d = dec_chars(i);
    push_all(&mut p, d.as_slice());
    p.push('.');
    push_str(&mut p, ext);
    assert(p@ =~= "/sub/"@ + dec(i as nat) + seq!['.'] + ext@);
    string_of(p.as_slice())
}

/// The playback hint with the number of subtitle tracks, when there are
/// any.
pub fn hint_with_subs(hint: &str, n: u64) -> (r: String)
    ensures
        n == 0 ==> r@ == hint@,
        n > 0 ==> r@ == hint@ + " subs="@ + dec(n as nat),
{
    if n == 0 {
        return hint.to_string();
    }
    let mut h = chars_of(hint);
    push_str(&mut h, " subs=");
    let d = dec_chars(n);
    push_all(&mut h, d.as_slice());
    string_of(h.as_slice())
}

} // verus!
