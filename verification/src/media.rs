//! Sniffing of downloaded bodies: HLS playlists, media containers, subtitle
//! files, error pages, and segments disguised behind a decoy image header.
use vstd::prelude::*;
use vstd::utf8::{decode_utf8, valid_utf8};
use crate::text::{
    first_match, has_infix, has_prefix, is_digit, lemma_first_match, lemma_first_match_infix,
    occurs_at, trim_start, chars_of, contains_str, starts_with_str, trim_start_chars,
};

verus! {

// ---------------------------------------------------------------------------
// Byte searching
// ---------------------------------------------------------------------------

/// Whether `p` occurs in `s` at index `i`.
pub fn bytes_match_at(s: &[u8], p: &[u8], i: usize) -> (b: bool)
    ensures
        b == occurs_at(s@, p@, i as int),
{
    if i > s.len() || p.len() > s.len() - i {
        return false;
    }
    let mut k: usize = 0;
    while k < p.len()
        invariant
            k <= p@.len(),
            i + p@.len() <= s@.len(),
            i + p.len() <= s.len(),
            forall|j: int| 0 <= j < k ==> s@[i + j] == p@[j],
        decreases p@.len() - k,
    {
        if s[i + k] != p[k] {
            assert(s@.subrange(i as int, i + p@.len())[k as int] != p@[k as int]);
            return false;
        }
        k += 1;
    }
    assert(s@.subrange(i as int, i + p@.len()) =~= p@);
    true
}

/// The first index where `p` occurs in `s`.
pub fn bytes_find(s: &[u8], p: &[u8]) -> (r: Option<usize>)
    ensures
        match r {
            Some(i) => first_match(s@, p@, 0) == Some(i as int),
            None => first_match(s@, p@, 0) is None,
        },
{
    let mut i: usize = 0;
    while i <= s.len() && p.len() <= s.len() - i
        invariant
            first_match(s@, p@, 0) == first_match(s@, p@, i as int),
        decreases s@.len() + 1 - i,
    {
        if bytes_match_at(s, p, i) {
            return Some(i);
        }
        proof {
            if p@.len() == 0 {
                assert(s@.subrange(i as int, i as int) =~= p@);
            }
        }
        i += 1;
    }
    None
}

/// Whether `s` starts with `p`.
pub fn bytes_starts_with(s: &[u8], p: &[u8]) -> (b: bool)
    ensures
        b == has_prefix(s@, p@),
{
    bytes_match_at(s, p, 0)
}

/// Whether `p` occurs in `s`.
pub fn bytes_contains(s: &[u8], p: &[u8]) -> (b: bool)
    ensures
        b == has_infix(s@, p@),
{
    proof {
        lemma_first_match_infix(s@, p@);
    }
    bytes_find(s, p).is_some()
}

// ---------------------------------------------------------------------------
// Signatures
// ---------------------------------------------------------------------------

/// MPEG-TS sync byte `G` (0x47).
pub open spec fn sync_byte() -> u8 {
    0x47
}

/// One MPEG-TS packet is 188 bytes; three packets are checked.
pub open spec fn three_packets() -> int {
    564int
}

pub open spec fn png_sig() -> Seq<u8> {
    seq![0x89u8, 0x50, 0x4e, 0x47, 0x0d, 0x0a, 0x1a, 0x0a]
}

pub open spec fn png_iend() -> Seq<u8> {
    seq![0x49u8, 0x45, 0x4e, 0x44]
}

pub open spec fn jpeg_sig() -> Seq<u8> {
    seq![0xffu8, 0xd8, 0xff]
}

pub open spec fn jpeg_eoi() -> Seq<u8> {
    seq![0xffu8, 0xd9]
}

pub open spec fn gif87a() -> Seq<u8> {
    seq![0x47u8, 0x49, 0x46, 0x38, 0x37, 0x61]
}

pub open spec fn gif89a() -> Seq<u8> {
    seq![0x47u8, 0x49, 0x46, 0x38, 0x39, 0x61]
}

pub open spec fn ftyp() -> Seq<u8> {
    seq![0x66u8, 0x74, 0x79, 0x70]
}

pub open spec fn moof() -> Seq<u8> {
    seq![0x6du8, 0x6f, 0x6f, 0x66]
}

pub open spec fn sidx() -> Seq<u8> {
    seq![0x73u8, 0x69, 0x64, 0x78]
}

pub open spec fn min(a: int, b: int) -> int {
    if a < b {
        a
    } else {
        b
    }
}

/// fMP4/CMAF: a `ftyp`, `moof` or `sidx` box name within the first 64 bytes.
pub open spec fn fmp4_head(buf: Seq<u8>) -> bool {
    let head = buf.take(min(buf.len() as int, 64));
    has_infix(head, ftyp()) || has_infix(head, moof()) || has_infix(head, sidx())
}

/// A sync byte at `off`, repeated 188 and 376 bytes later; when fewer than
/// three packets remain, the first sync byte alone counts.
pub open spec fn ts_at(buf: Seq<u8>, off: int) -> bool {
    if !(0 <= off < buf.len() && buf[off] == sync_byte()) {
        false
    } else if off + three_packets() > buf.len() {
        true
    } else {
        buf[off + 188] == sync_byte() && buf[off + 376] == sync_byte()
    }
}

/// Three whole packets start at `off`, each with its sync byte.
pub open spec fn ts_sync(buf: Seq<u8>, off: int) -> bool {
    0 <= off && off + three_packets() <= buf.len() && buf[off] == sync_byte() && buf[off + 188]
        == sync_byte() && buf[off + 376] == sync_byte()
}

/// The first offset in `i..end` where three packets are in sync.
pub open spec fn first_sync_from(buf: Seq<u8>, i: int, end: int) -> Option<int>
    decreases end - i,
{
    if i < 0 || i >= end {
        None
    } else if ts_sync(buf, i) {
        Some(i)
    } else {
        first_sync_from(buf, i + 1, end)
    }
}

/// The first offset below `end` where three packets are in sync.
pub open spec fn first_sync(buf: Seq<u8>, end: int) -> Option<int> {
    first_sync_from(buf, 0, end)
}

/// `first_sync_from` is the least synced offset in `i..end`.
pub proof fn lemma_first_sync(buf: Seq<u8>, i: int, end: int)
    requires
        0 <= i,
    ensures
        match first_sync_from(buf, i, end) {
            Some(o) => i <= o < end && ts_sync(buf, o) && forall|p: int|
                i <= p < o ==> !ts_sync(buf, p),
            None => forall|p: int| i <= p < end ==> !ts_sync(buf, p),
        },
    decreases end - i,
{
    if i < end && !ts_sync(buf, i) {
        lemma_first_sync(buf, i + 1, end);
    }
}

/// Length of a decoy image header: a PNG up to 8 bytes past `IEND`, a JPEG
/// up to its end-of-image marker, a GIF up to a trailer byte in its first
/// 512 bytes; 0 for anything else.
pub open spec fn image_prefix(buf: Seq<u8>) -> int {
    if has_prefix(buf, png_sig()) {
        match first_match(buf, png_iend(), 0) {
            Some(i) => min(i + 8, buf.len() as int),
            None => 0,
        }
    } else if has_prefix(buf, jpeg_sig()) {
        match first_match(buf, jpeg_eoi(), 0) {
            Some(i) => i + 2,
            None => 0,
        }
    } else if has_prefix(buf, gif87a()) || has_prefix(buf, gif89a()) {
        match first_match(buf, seq![0x3bu8], 0) {
            Some(t) => if 0 < t < 512 {
                t + 1
            } else {
                0
            },
            None => 0,
        }
    } else {
        0
    }
}

/// Where the playable stream starts and whether it is fMP4 (`true`) or
/// MPEG-TS (`false`).
pub open spec fn unwrap_spec(buf: Seq<u8>) -> (int, bool) {
    if fmp4_head(buf) {
        (0, true)
    } else if ts_at(buf, 0) {
        (0, false)
    } else {
        let skip = image_prefix(buf);
        let rest = buf.skip(skip);
        if fmp4_head(rest) {
            (skip, true)
        } else if ts_at(rest, 0) {
            (skip, false)
        } else {
            match first_sync(rest, min(rest.len() as int, 4096)) {
                Some(o) => (skip + o, false),
                None => (skip, false),
            }
        }
    }
}

/// The text of a segment kind.
pub open spec fn kind_text(m4s: bool) -> Seq<char> {
    if m4s {
        "m4s"@
    } else {
        "ts"@
    }
}

// ---------------------------------------------------------------------------
// Implementation
// ---------------------------------------------------------------------------

/// Whether an fMP4 box name appears in the first 64 bytes.
pub fn looks_like_fmp4(buf: &[u8]) -> (b: bool)
    ensures
        b == fmp4_head(buf@),
{
    let n = if buf.len() < 64 {
        buf.len()
    } else {
        64
    };
    let head = &buf[0..n];
    assert(head@ == buf@.take(min(buf@.len() as int, 64)));
    let f: [u8; 4] = [0x66, 0x74, 0x79, 0x70];
    let m: [u8; 4] = [0x6d, 0x6f, 0x6f, 0x66];
    let s: [u8; 4] = [0x73, 0x69, 0x64, 0x78];
    assert(f@ =~= ftyp());
    assert(m@ =~= moof());
    assert(s@ =~= sidx());
    bytes_contains(head, &f) || bytes_contains(head, &m) || bytes_contains(head, &s)
}

/// Whether an MPEG-TS packet starts at `off`.
pub fn is_ts_at(buf: &[u8], off: usize) -> (b: bool)
    ensures
        b == ts_at(buf@, off as int),
{
    if off >= buf.len() || buf[off] != 0x47 {
        return false;
    }
    if buf.len() - off < 564 {
        return true;
    }
    buf[off + 188] == 0x47 && buf[off + 376] == 0x47
}

/// The first offset below `min(buf.len(), limit)` with three packets in sync.
pub fn mpegts_offset(buf: &[u8], limit: usize) -> (r: Option<usize>)
    ensures
        match r {
            Some(o) => first_sync(buf@, min(buf@.len() as int, limit as int)) == Some(o as int),
            None => first_sync(buf@, min(buf@.len() as int, limit as int)) is None,
        },
{
    let end = if buf.len() < limit {
        buf.len()
    } else {
        limit
    };
    let ghost e = min(buf@.len() as int, limit as int);
    let mut off: usize = 0;
    while off < end
        invariant
            end as int == e,
            e == min(buf@.len() as int, limit as int),
            e <= buf@.len(),
            off <= end,
            first_sync(buf@, e) == first_sync_from(buf@, off as int, e),
        decreases end - off,
    {
        if buf[off] == 0x47 {
            if buf.len() - off < 564 {
                proof {
                    lemma_first_sync(buf@, off as int, e);
                    if let Some(o) = first_sync_from(buf@, off as int, e) {
                        assert(ts_sync(buf@, o));
                        assert(false);
                    }
                    assert(first_sync(buf@, e) is None);
                }
                return None;
            }
            if buf[off + 188] == 0x47 && buf[off + 376] == 0x47 {
                assert(ts_sync(buf@, off as int));
                assert(first_sync_from(buf@, off as int, e) == Some(off as int));
                assert(first_sync(buf@, e) == Some(off as int));
                return Some(off);
            }
        }
        off += 1;
    }
    None
}

/// Length of a leading decoy PNG, JPEG or GIF image, or 0.
pub fn image_prefix_len(buf: &[u8]) -> (n: usize)
    ensures
        n as int == image_prefix(buf@),
        n <= buf@.len(),
{
    let png: [u8; 8] = [0x89, 0x50, 0x4e, 0x47, 0x0d, 0x0a, 0x1a, 0x0a];
    let iend: [u8; 4] = [0x49, 0x45, 0x4e, 0x44];
    let jpg: [u8; 3] = [0xff, 0xd8, 0xff];
    let eoi: [u8; 2] = [0xff, 0xd9];
    let g7: [u8; 6] = [0x47, 0x49, 0x46, 0x38, 0x37, 0x61];
    let g9: [u8; 6] = [0x47, 0x49, 0x46, 0x38, 0x39, 0x61];
    let trailer: [u8; 1] = [0x3b];
    assert(png@ =~= png_sig());
    assert(iend@ =~= png_iend());
    assert(jpg@ =~= jpeg_sig());
    assert(eoi@ =~= jpeg_eoi());
    assert(g7@ =~= gif87a());
    assert(g9@ =~= gif89a());
    assert(trailer@ =~= seq![0x3bu8]);
    if bytes_starts_with(buf, &png) {
        match bytes_find(buf, &iend) {
            Some(i) => {
                proof {
                    lemma_first_match(buf@, png_iend(), 0);
                }
                if buf.len() - i < 8 {
                    buf.len()
                } else {
                    i + 8
                }
            },
            None => 0,
        }
    } else if bytes_starts_with(buf, &jpg) {
        match bytes_find(buf, &eoi) {
            Some(i) => {
                proof {
                    lemma_first_match(buf@, jpeg_eoi(), 0);
                }
                assert(i + 2 <= buf.len());
                i + 2
            },
            None => 0,
        }
    } else if bytes_starts_with(buf, &g7) || bytes_starts_with(buf, &g9) {
        match bytes_find(buf, &trailer) {
            Some(t) => {
                proof {
                    lemma_first_match(buf@, seq![0x3bu8], 0);
                }
                if t > 0 && t < 512 {
                    t + 1
                } else {
                    0
                }
            },
            None => 0,
        }
    } else {
        0
    }
}

/// Skip a decoy image header. Returns the offset where the playable stream
/// starts and its kind, `"ts"` or `"m4s"`. fMP4 is checked before MPEG-TS:
/// a `G` every 188 bytes is a common false sync inside an fMP4 segment.
#[verifier::rlimit(30)]
pub fn unwrap_media(buf: &[u8]) -> (r: (usize, &'static str))
    ensures
        r.0 as int == unwrap_spec(buf@).0,
        r.1@ == kind_text(unwrap_spec(buf@).1),
        r.0 <= buf@.len(),
{
    if looks_like_fmp4(buf) {
        return (0, "m4s");
    }
    if is_ts_at(buf, 0) {
        return (0, "ts");
    }
    let skip = image_prefix_len(buf);
    let rest = &buf[skip..buf.len()];
    assert(rest@ == buf@.skip(skip as int));
    if looks_like_fmp4(rest) {
        return (skip, "m4s");
    }
    if is_ts_at(rest, 0) {
        return (skip, "ts");
    }
    match mpegts_offset(rest, 4096) {
        Some(o) => {
            proof {
                lemma_first_sync(rest@, 0, min(rest@.len() as int, 4096));
            }
            (skip + o, "ts")
        },
        None => (skip, "ts"),
    }
}

/// Index of the first byte at or after `i` that is not ASCII whitespace.
pub open spec fn nonwhite_from(buf: Seq<u8>, i: int) -> int
    decreases buf.len() - i,
{
    if 0 <= i < buf.len() && crate::text::is_ascii_white_byte(buf[i]) {
        nonwhite_from(buf, i + 1)
    } else {
        i
    }
}

proof fn lemma_nonwhite_from(buf: Seq<u8>, i: int)
    requires
        0 <= i <= buf.len(),
    ensures
        i <= nonwhite_from(buf, i) <= buf.len(),
        nonwhite_from(buf, i) < buf.len() ==> !crate::text::is_ascii_white_byte(
            buf[nonwhite_from(buf, i)],
        ),
    decreases buf.len() - i,
{
    if i < buf.len() && crate::text::is_ascii_white_byte(buf[i]) {
        lemma_nonwhite_from(buf, i + 1);
    }
}

/// Position of the first non-whitespace byte (`buf.len()` if none).
pub fn skip_ascii_white(buf: &[u8]) -> (k: usize)
    ensures
        k as int == nonwhite_from(buf@, 0),
        k <= buf@.len(),
{
    let mut i: usize = 0;
    while i < buf.len() && (buf[i] == 0x20 || buf[i] == 0x09 || buf[i] == 0x0a || buf[i] == 0x0c
        || buf[i] == 0x0d)
        invariant
            i <= buf@.len(),
            nonwhite_from(buf@, 0) == nonwhite_from(buf@, i as int),
        decreases buf@.len() - i,
    {
        i += 1;
    }
    i
}

/// `#EXTM3U`.
pub open spec fn extm3u() -> Seq<u8> {
    seq![0x23u8, 0x45, 0x58, 0x54, 0x4d, 0x33, 0x55]
}

/// The body starts with `#EXTM3U`, after leading ASCII whitespace.
pub open spec fn hls_body(buf: Seq<u8>) -> bool {
    has_prefix(buf.skip(nonwhite_from(buf, 0)), extm3u())
}

/// Whether the body is an HLS playlist.
pub fn is_hls_body(body: &[u8]) -> (b: bool)
    ensures
        b == hls_body(body@),
{
    let k = skip_ascii_white(body);
    let tag: [u8; 7] = [0x23, 0x45, 0x58, 0x54, 0x4d, 0x33, 0x55];
    assert(tag@ =~= extm3u());
    let rest = &body[k..body.len()];
    assert(rest@ == body@.skip(k as int));
    bytes_starts_with(rest, &tag)
}

/// An error page: its first non-whitespace byte opens HTML or JSON.
pub open spec fn error_body(buf: Seq<u8>) -> bool {
    let k = nonwhite_from(buf, 0);
    k < buf.len() && (buf[k] == 0x3c || buf[k] == 0x7b || buf[k] == 0x5b)
}

/// Whether the body looks like an HTML/JSON error page (`<`, `{` or `[`).
pub fn looks_like_error_body(buf: &[u8]) -> (b: bool)
    ensures
        b == error_body(buf@),
{
    let k = skip_ascii_white(buf);
    k < buf.len() && (buf[k] == 0x3c || buf[k] == 0x7b || buf[k] == 0x5b)
}

/// A progressive media container: MP4 (`ftyp` at byte 4), Matroska/WebM,
/// RIFF, an ID3-tagged stream, or MPEG-TS of at least one packet.
pub open spec fn media_body(b: Seq<u8>) -> bool {
    ||| (b.len() >= 12 && b.subrange(4, 8) == ftyp())
    ||| has_prefix(b, seq![0x1au8, 0x45, 0xdf, 0xa3])
    ||| has_prefix(b, seq![0x52u8, 0x49, 0x46, 0x46])
    ||| has_prefix(b, seq![0x49u8, 0x44, 0x33])
    ||| (b.len() >= 188 && b[0] == 0x47)
}

/// Whether the body is a progressive media file.
pub fn looks_like_media_body(body: &[u8]) -> (r: bool)
    ensures
        r == media_body(body@),
{
    let mkv: [u8; 4] = [0x1a, 0x45, 0xdf, 0xa3];
    let riff: [u8; 4] = [0x52, 0x49, 0x46, 0x46];
    let id3: [u8; 3] = [0x49, 0x44, 0x33];
    assert(mkv@ =~= seq![0x1au8, 0x45, 0xdf, 0xa3]);
    assert(riff@ =~= seq![0x52u8, 0x49, 0x46, 0x46]);
    assert(id3@ =~= seq![0x49u8, 0x44, 0x33]);
    if body.len() >= 12 && body[4] == 0x66 && body[5] == 0x74 && body[6] == 0x79 && body[7]
        == 0x70 {
        assert(body@.subrange(4, 8) =~= ftyp());
        return true;
    }
    proof {
        if body@.len() >= 12 && body@.subrange(4, 8) == ftyp() {
            assert(body@.subrange(4, 8)[0] == body@[4]);
            assert(body@.subrange(4, 8)[1] == body@[5]);
            assert(body@.subrange(4, 8)[2] == body@[6]);
            assert(body@.subrange(4, 8)[3] == body@[7]);
        }
    }
    if bytes_starts_with(body, &mkv) {
        return true;
    }
    if bytes_starts_with(body, &riff) {
        return true;
    }
    if bytes_starts_with(body, &id3) {
        return true;
    }
    body.len() >= 188 && body[0] == 0x47
}

/// The bytes that follow a decoy header, judged on the first 64 KiB.
pub open spec fn unwrapped_body(body: Seq<u8>) -> Seq<u8> {
    let skip = unwrap_spec(body.take(min(body.len() as int, 65536))).0;
    body.skip(min(skip, body.len() as int))
}

/// A segment that already starts as MPEG-TS or fMP4 is passed on
/// unchanged: only a decoy header in front of the stream is removed.
pub proof fn law_plain_segment_unchanged(body: Seq<u8>)
    requires
        ts_at(body, 0) || fmp4_head(body),
    ensures
        unwrap_spec(body).0 == 0,
        unwrapped_body(body) == body,
{
    let h = body.take(min(body.len() as int, 65536));
    assert(h.take(min(h.len() as int, 64)) =~= body.take(min(body.len() as int, 64)));
    if body.len() > 65536 {
        assert(h[0] == body[0]);
        assert(h[188] == body[188]);
        assert(h[376] == body[376]);
    } else {
        assert(h =~= body);
    }
    assert(body.skip(0) =~= body);
}

/// A PNG image wrapped around MPEG-TS: the PNG signature, then image data
/// whose first `IEND` chunk name sits 8 bytes before the image's end (the
/// chunk's CRC follows it), then the stream starting with a sync byte.
pub open spec fn png_wrapped_ts(png: Seq<u8>, ts: Seq<u8>) -> bool {
    &&& has_prefix(png, png_sig())
    &&& occurs_at(png, png_iend(), png.len() - 8)
    &&& forall|j: int| 0 <= j < png.len() - 8 ==> !occurs_at(png, png_iend(), j)
    &&& ts_at(ts, 0)
    &&& !fmp4_head(png + ts)
    &&& !fmp4_head(ts)
}

/// The decoy PNG in front of a PNG-wrapped MPEG-TS stream is skipped
/// exactly: the stream starts right after the image and is MPEG-TS.
pub proof fn law_png_wrapped_ts_unwrapped(png: Seq<u8>, ts: Seq<u8>)
    requires
        png_wrapped_ts(png, ts),
    ensures
        unwrap_spec(png + ts) == (png.len() as int, false),
{
    let body = png + ts;
    let k = png.len() - 8;
    assert(png.subrange(0, 8)[0] == png_sig()[0]);
    assert(body[0] == 0x89u8);
    assert(!ts_at(body, 0));
    assert(body.subrange(0, 8) =~= png.subrange(0, 8));
    assert(body.subrange(k, k + 4) =~= png.subrange(k, k + 4));
    assert(occurs_at(body, png_iend(), k));
    assert forall|j: int| 0 <= j < k implies !occurs_at(body, png_iend(), j) by {
        assert(!occurs_at(png, png_iend(), j));
        assert(body.subrange(j, j + 4) =~= png.subrange(j, j + 4));
    }
    lemma_first_match(body, png_iend(), 0);
    match first_match(body, png_iend(), 0) {
        Some(i) => {
            if i < k {
                assert(!occurs_at(body, png_iend(), i));
            }
        },
        None => {},
    }
    assert(first_match(body, png_iend(), 0) == Some(k));
    assert(image_prefix(body) == png.len());
    assert(body.skip(png.len() as int) =~= ts);
}

/// Decoy prefixes of a body are recognised in its first 64 KiB: when the
/// image and the first three packets lie there, the sniffed head of a
/// PNG-wrapped stream is itself PNG-wrapped.
pub proof fn lemma_png_wrapped_head(png: Seq<u8>, ts: Seq<u8>, n: int)
    requires
        png_wrapped_ts(png, ts),
        png.len() + min(ts.len() as int, 564) <= n <= png.len() + ts.len(),
    ensures
        (png + ts).take(n) == png + ts.take(n - png.len()),
        png_wrapped_ts(png, ts.take(n - png.len())),
{
    let t = ts.take(n - png.len());
    assert((png + ts).take(n) =~= png + t);
    assert(t.take(min(t.len() as int, 64)) =~= ts.take(min(ts.len() as int, 64)));
    assert((png + t).take(min((png + t).len() as int, 64)) =~= (png + ts).take(
        min((png + ts).len() as int, 64),
    ));
    assert(t[0] == ts[0]);
    if t.len() >= 564 {
        assert(t[188] == ts[188]);
        assert(t[376] == ts[376]);
    }
}

/// The body without a decoy image header (judged on its first 64 KiB).
pub fn unwrap_media_body(body: &[u8]) -> (r: Vec<u8>)
    ensures
        r@ == unwrapped_body(body@),
{
    let n = if body.len() < 65536 {
        body.len()
    } else {
        65536
    };
    let (skip, _) = unwrap_media(&body[0..n]);
    let skip = if skip < body.len() {
        skip
    } else {
        body.len()
    };
    let tail = &body[skip..body.len()];
    assert(tail@ == body@.skip(skip as int));
    vstd::slice::slice_to_vec(tail)
}

/// The body without a decoy image header (judged on the whole body).
pub fn unwrap_payload(body: &[u8]) -> (r: Vec<u8>)
    ensures
        r@ == body@.skip(unwrap_spec(body@).0),
{
    let (skip, _) = unwrap_media(body);
    let tail = &body[skip..body.len()];
    vstd::slice::slice_to_vec(tail)
}

// ---------------------------------------------------------------------------
// Subtitles
// ---------------------------------------------------------------------------

/// What `String::from_utf8_lossy` decodes bytes to: invalid sequences
/// become U+FFFD.
pub uninterp spec fn utf8_lossy(b: Seq<u8>) -> Seq<char>;

/// `String::from_utf8_lossy`, as characters. Its documentation says valid
/// UTF-8 comes back unchanged, so that case is stated; otherwise the result
/// is the one `utf8_lossy` names.
#[verifier::external_body]
pub(crate) fn lossy_chars(b: &[u8]) -> (r: Vec<char>)
    ensures
        r@ == utf8_lossy(b@),
        valid_utf8(b@) ==> r@ == decode_utf8(b@),
{
    String::from_utf8_lossy(b).chars().collect()
}

/// `std::str::from_utf8`, as characters: `Some` exactly for valid UTF-8.
#[verifier::external_body]
fn utf8_chars(b: &[u8]) -> (r: Option<Vec<char>>)
    ensures
        r is Some <==> valid_utf8(b@),
        r matches Some(v) ==> v@ == decode_utf8(b@),
{
    std::str::from_utf8(b).ok().map(|s| s.chars().collect())
}

/// Subtitle kinds recognised from the head of a body.
pub enum SubtitleKind {
    Vtt,
    Ssa,
    Subrip,
}

/// The subtitle format of a body, judged on its first 96 bytes: WebVTT,
/// SubStation, or SubRip (a cue number then an arrow); `None` otherwise
/// or when those bytes are not UTF-8.
pub open spec fn subtitle_kind(buf: Seq<u8>) -> Option<SubtitleKind> {
    let head = buf.take(min(buf.len() as int, 96));
    if !valid_utf8(head) {
        None
    } else {
        let s = trim_start(decode_utf8(head));
        if has_prefix(s, "WEBVTT"@) {
            Some(SubtitleKind::Vtt)
        } else if has_prefix(s, "[Script Info]"@) {
            Some(SubtitleKind::Ssa)
        } else if s.len() > 0 && is_digit(s[0]) && has_infix(s, "-->"@) {
            Some(SubtitleKind::Subrip)
        } else {
            None
        }
    }
}

/// The MIME type of each subtitle kind.
pub open spec fn subtitle_mime(k: Option<SubtitleKind>) -> Option<Seq<char>> {
    match k {
        Some(SubtitleKind::Vtt) => Some("text/vtt"@),
        Some(SubtitleKind::Ssa) => Some("text/x-ssa"@),
        Some(SubtitleKind::Subrip) => Some("application/x-subrip"@),
        None => None,
    }
}

/// Content type of a subtitle body, or `None` when it is not one.
pub fn subtitle_content_type(buf: &[u8]) -> (r: Option<&'static str>)
    ensures
        match r {
            Some(t) => subtitle_mime(subtitle_kind(buf@)) == Some(t@),
            None => subtitle_mime(subtitle_kind(buf@)) is None,
        },
{
    let n = if buf.len() < 96 {
        buf.len()
    } else {
        96
    };
    let head = &buf[0..n];
    assert(head@ == buf@.take(min(buf@.len() as int, 96)));
    let decoded = match utf8_chars(head) {
        Some(v) => v,
        None => return None,
    };
    let s = trim_start_chars(decoded.as_slice());
    if starts_with_str(s.as_slice(), "WEBVTT") {
        return Some("text/vtt");
    }
    if starts_with_str(s.as_slice(), "[Script Info]") {
        return Some("text/x-ssa");
    }
    if s.len() > 0 && '0' <= s[0] && s[0] <= '9' && contains_str(s.as_slice(), "-->") {
        return Some("application/x-subrip");
    }
    None
}

} // verus!
