//! Character-level helpers shared by the parsers: prefix/suffix tests,
//! substring search, whitespace trimming and line splitting, each stated
//! over `Seq<char>` (or `Seq<u8>`) and implemented over slices.
use vstd::prelude::*;

verus! {

// ---------------------------------------------------------------------------
// Specifications
// ---------------------------------------------------------------------------

/// `p` occurs in `s` starting at index `i`.
pub open spec fn occurs_at<A>(s: Seq<A>, p: Seq<A>, i: int) -> bool {
    0 <= i && i + p.len() <= s.len() && s.subrange(i, i + p.len()) == p
}

/// `s` starts with `p`.
pub open spec fn has_prefix<A>(s: Seq<A>, p: Seq<A>) -> bool {
    occurs_at(s, p, 0)
}

/// `s` ends with `p`.
pub open spec fn has_suffix<A>(s: Seq<A>, p: Seq<A>) -> bool {
    p.len() <= s.len() && occurs_at(s, p, s.len() - p.len())
}

/// `p` occurs somewhere in `s`.
pub open spec fn has_infix<A>(s: Seq<A>, p: Seq<A>) -> bool {
    exists|i: int| occurs_at(s, p, i)
}

/// The first index `i >= from` at which `p` occurs in `s`.
pub open spec fn first_match<A>(s: Seq<A>, p: Seq<A>, from: int) -> Option<int>
    decreases s.len() + 1 - from,
{
    if from < 0 || from + p.len() > s.len() {
        None
    } else if occurs_at(s, p, from) {
        Some(from)
    } else {
        first_match(s, p, from + 1)
    }
}

/// `first_match` is the least matching index at or after `from`.
pub proof fn lemma_first_match<A>(s: Seq<A>, p: Seq<A>, from: int)
    requires
        0 <= from,
    ensures
        match first_match(s, p, from) {
            Some(i) => from <= i && occurs_at(s, p, i) && forall|j: int|
                from <= j < i ==> !occurs_at(s, p, j),
            None => forall|j: int| from <= j ==> !occurs_at(s, p, j),
        },
    decreases s.len() + 1 - from,
{
    if from + p.len() > s.len() {
    } else if occurs_at(s, p, from) {
    } else {
        lemma_first_match(s, p, from + 1);
    }
}

/// Searching from 0 finds an occurrence exactly when `p` occurs at all.
pub proof fn lemma_first_match_infix<A>(s: Seq<A>, p: Seq<A>)
    ensures
        first_match(s, p, 0) is Some <==> has_infix(s, p),
{
    lemma_first_match(s, p, 0);
    if let Some(i) = first_match(s, p, 0) {
        assert(occurs_at(s, p, i));
    }
}

/// The White_Space characters (`char::is_whitespace`).
pub open spec fn is_white(c: char) -> bool {
    ||| ('\u{9}' <= c && c <= '\u{d}')
    ||| c == ' '
    ||| c == '\u{85}'
    ||| c == '\u{a0}'
    ||| c == '\u{1680}'
    ||| ('\u{2000}' <= c && c <= '\u{200a}')
    ||| c == '\u{2028}'
    ||| c == '\u{2029}'
    ||| c == '\u{202f}'
    ||| c == '\u{205f}'
    ||| c == '\u{3000}'
}

/// ASCII whitespace as `u8::is_ascii_whitespace` defines it.
pub open spec fn is_ascii_white_byte(b: u8) -> bool {
    b == 0x20 || b == 0x09 || b == 0x0a || b == 0x0c || b == 0x0d
}

/// Control characters (`char::is_control`, general category Cc).
pub open spec fn is_control_char(c: char) -> bool {
    (c as u32) <= 0x1f || (0x7f <= (c as u32) && (c as u32) <= 0x9f)
}

/// ASCII decimal digit.
pub open spec fn is_digit(c: char) -> bool {
    '0' <= c && c <= '9'
}

/// A decimal digit in Unicode's sense (general category Nd), the class
/// the regular-expression escape `\d` stands for; by code point.
pub open spec fn dec_digit_code(u: u32) -> bool {
    ||| (0x30 <= u && u <= 0x39)
    ||| (0x660 <= u && u <= 0x669)
    ||| (0x6F0 <= u && u <= 0x6F9)
    ||| (0x7C0 <= u && u <= 0x7C9)
    ||| (0x966 <= u && u <= 0x96F)
    ||| (0x9E6 <= u && u <= 0x9EF)
    ||| (0xA66 <= u && u <= 0xA6F)
    ||| (0xAE6 <= u && u <= 0xAEF)
    ||| (0xB66 <= u && u <= 0xB6F)
    ||| (0xBE6 <= u && u <= 0xBEF)
    ||| (0xC66 <= u && u <= 0xC6F)
    ||| (0xCE6 <= u && u <= 0xCEF)
    ||| (0xD66 <= u && u <= 0xD6F)
    ||| (0xDE6 <= u && u <= 0xDEF)
    ||| (0xE50 <= u && u <= 0xE59)
    ||| (0xED0 <= u && u <= 0xED9)
    ||| (0xF20 <= u && u <= 0xF29)
    ||| (0x1040 <= u && u <= 0x1049)
    ||| (0x1090 <= u && u <= 0x1099)
    ||| (0x17E0 <= u && u <= 0x17E9)
    ||| (0x1810 <= u && u <= 0x1819)
    ||| (0x1946 <= u && u <= 0x194F)
    ||| (0x19D0 <= u && u <= 0x19D9)
    ||| (0x1A80 <= u && u <= 0x1A89)
    ||| (0x1A90 <= u && u <= 0x1A99)
    ||| (0x1B50 <= u && u <= 0x1B59)
    ||| (0x1BB0 <= u && u <= 0x1BB9)
    ||| (0x1C40 <= u && u <= 0x1C49)
    ||| (0x1C50 <= u && u <= 0x1C59)
    ||| (0xA620 <= u && u <= 0xA629)
    ||| (0xA8D0 <= u && u <= 0xA8D9)
    ||| (0xA900 <= u && u <= 0xA909)
    ||| (0xA9D0 <= u && u <= 0xA9D9)
    ||| (0xA9F0 <= u && u <= 0xA9F9)
    ||| (0xAA50 <= u && u <= 0xAA59)
    ||| (0xABF0 <= u && u <= 0xABF9)
    ||| (0xFF10 <= u && u <= 0xFF19)
    ||| (0x104A0 <= u && u <= 0x104A9)
    ||| (0x10D30 <= u && u <= 0x10D39)
    ||| (0x10D40 <= u && u <= 0x10D49)
    ||| (0x11066 <= u && u <= 0x1106F)
    ||| (0x110F0 <= u && u <= 0x110F9)
    ||| (0x11136 <= u && u <= 0x1113F)
    ||| (0x111D0 <= u && u <= 0x111D9)
    ||| (0x112F0 <= u && u <= 0x112F9)
    ||| (0x11450 <= u && u <= 0x11459)
    ||| (0x114D0 <= u && u <= 0x114D9)
    ||| (0x11650 <= u && u <= 0x11659)
    ||| (0x116C0 <= u && u <= 0x116C9)
    ||| (0x116D0 <= u && u <= 0x116E3)
    ||| (0x11730 <= u && u <= 0x11739)
    ||| (0x118E0 <= u && u <= 0x118E9)
    ||| (0x11950 <= u && u <= 0x11959)
    ||| (0x11BF0 <= u && u <= 0x11BF9)
    ||| (0x11C50 <= u && u <= 0x11C59)
    ||| (0x11D50 <= u && u <= 0x11D59)
    ||| (0x11DA0 <= u && u <= 0x11DA9)
    ||| (0x11F50 <= u && u <= 0x11F59)
    ||| (0x16130 <= u && u <= 0x16139)
    ||| (0x16A60 <= u && u <= 0x16A69)
    ||| (0x16AC0 <= u && u <= 0x16AC9)
    ||| (0x16B50 <= u && u <= 0x16B59)
    ||| (0x16D70 <= u && u <= 0x16D79)
    ||| (0x1CCF0 <= u && u <= 0x1CCF9)
    ||| (0x1D7CE <= u && u <= 0x1D7FF)
    ||| (0x1E140 <= u && u <= 0x1E149)
    ||| (0x1E2F0 <= u && u <= 0x1E2F9)
    ||| (0x1E4F0 <= u && u <= 0x1E4F9)
    ||| (0x1E5F1 <= u && u <= 0x1E5FA)
    ||| (0x1E950 <= u && u <= 0x1E959)
    ||| (0x1FBF0 <= u && u <= 0x1FBF9)
}

/// A Unicode decimal digit (`\d`).
pub open spec fn is_dec_digit(c: char) -> bool {
    dec_digit_code(c as u32)
}

/// Whether `c` is a Unicode decimal digit (`\d`).
pub fn dec_digit_char(c: char) -> (b: bool)
    ensures
        b == is_dec_digit(c),
{
    let u = c as u32;
    (0x30 <= u && u <= 0x39) ||
        (0x660 <= u && u <= 0x669) ||
        (0x6F0 <= u && u <= 0x6F9) ||
        (0x7C0 <= u && u <= 0x7C9) ||
        (0x966 <= u && u <= 0x96F) ||
        (0x9E6 <= u && u <= 0x9EF) ||
        (0xA66 <= u && u <= 0xA6F) ||
        (0xAE6 <= u && u <= 0xAEF) ||
        (0xB66 <= u && u <= 0xB6F) ||
        (0xBE6 <= u && u <= 0xBEF) ||
        (0xC66 <= u && u <= 0xC6F) ||
        (0xCE6 <= u && u <= 0xCEF) ||
        (0xD66 <= u && u <= 0xD6F) ||
        (0xDE6 <= u && u <= 0xDEF) ||
        (0xE50 <= u && u <= 0xE59) ||
        (0xED0 <= u && u <= 0xED9) ||
        (0xF20 <= u && u <= 0xF29) ||
        (0x1040 <= u && u <= 0x1049) ||
        (0x1090 <= u && u <= 0x1099) ||
        (0x17E0 <= u && u <= 0x17E9) ||
        (0x1810 <= u && u <= 0x1819) ||
        (0x1946 <= u && u <= 0x194F) ||
        (0x19D0 <= u && u <= 0x19D9) ||
        (0x1A80 <= u && u <= 0x1A89) ||
        (0x1A90 <= u && u <= 0x1A99) ||
        (0x1B50 <= u && u <= 0x1B59) ||
        (0x1BB0 <= u && u <= 0x1BB9) ||
        (0x1C40 <= u && u <= 0x1C49) ||
        (0x1C50 <= u && u <= 0x1C59) ||
        (0xA620 <= u && u <= 0xA629) ||
        (0xA8D0 <= u && u <= 0xA8D9) ||
        (0xA900 <= u && u <= 0xA909) ||
        (0xA9D0 <= u && u <= 0xA9D9) ||
        (0xA9F0 <= u && u <= 0xA9F9) ||
        (0xAA50 <= u && u <= 0xAA59) ||
        (0xABF0 <= u && u <= 0xABF9) ||
        (0xFF10 <= u && u <= 0xFF19) ||
        (0x104A0 <= u && u <= 0x104A9) ||
        (0x10D30 <= u && u <= 0x10D39) ||
        (0x10D40 <= u && u <= 0x10D49) ||
        (0x11066 <= u && u <= 0x1106F) ||
        (0x110F0 <= u && u <= 0x110F9) ||
        (0x11136 <= u && u <= 0x1113F) ||
        (0x111D0 <= u && u <= 0x111D9) ||
        (0x112F0 <= u && u <= 0x112F9) ||
        (0x11450 <= u && u <= 0x11459) ||
        (0x114D0 <= u && u <= 0x114D9) ||
        (0x11650 <= u && u <= 0x11659) ||
        (0x116C0 <= u && u <= 0x116C9) ||
        (0x116D0 <= u && u <= 0x116E3) ||
        (0x11730 <= u && u <= 0x11739) ||
        (0x118E0 <= u && u <= 0x118E9) ||
        (0x11950 <= u && u <= 0x11959) ||
        (0x11BF0 <= u && u <= 0x11BF9) ||
        (0x11C50 <= u && u <= 0x11C59) ||
        (0x11D50 <= u && u <= 0x11D59) ||
        (0x11DA0 <= u && u <= 0x11DA9) ||
        (0x11F50 <= u && u <= 0x11F59) ||
        (0x16130 <= u && u <= 0x16139) ||
        (0x16A60 <= u && u <= 0x16A69) ||
        (0x16AC0 <= u && u <= 0x16AC9) ||
        (0x16B50 <= u && u <= 0x16B59) ||
        (0x16D70 <= u && u <= 0x16D79) ||
        (0x1CCF0 <= u && u <= 0x1CCF9) ||
        (0x1D7CE <= u && u <= 0x1D7FF) ||
        (0x1E140 <= u && u <= 0x1E149) ||
        (0x1E2F0 <= u && u <= 0x1E2F9) ||
        (0x1E4F0 <= u && u <= 0x1E4F9) ||
        (0x1E5F1 <= u && u <= 0x1E5FA) ||
        (0x1E950 <= u && u <= 0x1E959) ||
        (0x1FBF0 <= u && u <= 0x1FBF9)
}

/// `char::to_ascii_lowercase`.
pub open spec fn lower_char(c: char) -> char {
    if 'A' <= c && c <= 'Z' {
        ((c as u32) + 32) as char
    } else {
        c
    }
}

/// `str::to_ascii_lowercase`.
pub open spec fn ascii_lower(s: Seq<char>) -> Seq<char> {
    s.map_values(|c: char| lower_char(c))
}

/// `str::eq_ignore_ascii_case`.
pub open spec fn eq_ignore_case(a: Seq<char>, b: Seq<char>) -> bool {
    ascii_lower(a) == ascii_lower(b)
}

/// Index of the first non-white character at or after `i`.
pub open spec fn white_run_end(s: Seq<char>, i: int) -> int
    decreases s.len() - i,
{
    if 0 <= i < s.len() && is_white(s[i]) {
        white_run_end(s, i + 1)
    } else {
        i
    }
}

/// Index just past the last non-white character at or before `j`.
pub open spec fn white_run_start(s: Seq<char>, j: int) -> int
    decreases j,
{
    if 0 < j <= s.len() && is_white(s[j - 1]) {
        white_run_start(s, j - 1)
    } else {
        j
    }
}

/// `str::trim_start`.
pub open spec fn trim_start(s: Seq<char>) -> Seq<char> {
    s.skip(white_run_end(s, 0))
}

/// `str::trim_end`.
pub open spec fn trim_end(s: Seq<char>) -> Seq<char> {
    s.take(white_run_start(s, s.len() as int))
}

/// `str::trim`.
pub open spec fn trim(s: Seq<char>) -> Seq<char> {
    trim_end(trim_start(s))
}

/// A line as `str::lines` yields it: without its `\n` and one `\r` before it.
pub open spec fn strip_cr(line: Seq<char>) -> Seq<char> {
    if line.len() > 0 && line.last() == '\r' {
        line.drop_last()
    } else {
        line
    }
}

/// `str::lines`: split at `\n`; a `\r` before a `\n` is dropped; a final
/// line ending does not start an empty line.
pub open spec fn lines(s: Seq<char>) -> Seq<Seq<char>>
    decreases s.len(),
{
    if s.len() == 0 {
        seq![]
    } else {
        match first_match(s, seq!['\n'], 0) {
            Some(i) => {
                if 0 <= i < s.len() {
                    seq![strip_cr(s.take(i))] + lines(s.skip(i + 1))
                } else {
                    seq![]
                }
            },
            None => seq![s],
        }
    }
}

/// `str::split_once(c)` on a single character.
pub open spec fn split_once(s: Seq<char>, c: char) -> Option<(Seq<char>, Seq<char>)> {
    match first_match(s, seq![c], 0) {
        Some(i) => Some((s.take(i), s.skip(i + 1))),
        None => None,
    }
}

/// The part of `s` before the first `c` (all of `s` when there is none):
/// `s.split(c).next()`.
pub open spec fn before_first(s: Seq<char>, c: char) -> Seq<char> {
    match split_once(s, c) {
        Some(p) => p.0,
        None => s,
    }
}

/// The pieces of `s` between the occurrences of `c` (`str::split(c)`).
pub open spec fn split_on(s: Seq<char>, c: char) -> Seq<Seq<char>>
    decreases s.len(),
{
    match first_match(s, seq![c], 0) {
        Some(i) => {
            if 0 <= i < s.len() {
                seq![s.take(i)] + split_on(s.skip(i + 1), c)
            } else {
                seq![s]
            }
        },
        None => seq![s],
    }
}

/// `pieces.join(sep)`.
pub open spec fn join_with(pieces: Seq<Seq<char>>, sep: Seq<char>) -> Seq<char>
    decreases pieces.len(),
{
    if pieces.len() == 0 {
        seq![]
    } else if pieces.len() == 1 {
        pieces[0]
    } else {
        join_with(pieces.drop_last(), sep) + sep + pieces.last()
    }
}

/// `s` with each occurrence of `p`, found left to right without overlap,
/// replaced by `r` (`str::replace` with a non-empty pattern).
pub open spec fn replace_all(s: Seq<char>, p: Seq<char>, r: Seq<char>) -> Seq<char>
    decreases s.len(),
{
    if s.len() == 0 || p.len() == 0 {
        s
    } else if has_prefix(s, p) {
        r + replace_all(s.skip(p.len() as int), p, r)
    } else {
        seq![s[0]] + replace_all(s.skip(1), p, r)
    }
}

/// A split has at least one piece.
pub proof fn lemma_split_len(s: Seq<char>, c: char)
    ensures
        split_on(s, c).len() >= 1,
{
    match first_match(s, seq![c], 0) {
        Some(i) => {
            if 0 <= i < s.len() {
                assert(split_on(s, c) == seq![s.take(i)] + split_on(s.skip(i + 1), c));
            }
        },
        None => {},
    }
}

/// Joining a piece onto a non-empty list puts the separator between.
pub proof fn lemma_join_cons(a: Seq<char>, rest: Seq<Seq<char>>, sep: Seq<char>)
    requires
        rest.len() >= 1,
    ensures
        join_with(seq![a] + rest, sep) == a + sep + join_with(rest, sep),
    decreases rest.len(),
{
    let all = seq![a] + rest;
    assert(all.len() >= 2);
    assert(join_with(all, sep) == join_with(all.drop_last(), sep) + sep + all.last());
    assert(all.last() == rest.last());
    if rest.len() == 1 {
        assert(all.drop_last() =~= seq![a]);
        assert(join_with(seq![a], sep) == a);
        assert(join_with(rest, sep) == rest[0]);
        assert(rest[0] == rest.last());
    } else {
        lemma_join_cons(a, rest.drop_last(), sep);
        assert(all.drop_last() =~= seq![a] + rest.drop_last());
        assert(join_with(rest, sep) == join_with(rest.drop_last(), sep) + sep + rest.last());
        assert(join_with(all, sep) =~= a + sep + join_with(rest, sep));
    }
}

/// Joining the pieces of a split with the separator gives the text back.
pub proof fn lemma_join_split(s: Seq<char>, c: char)
    ensures
        join_with(split_on(s, c), seq![c]) == s,
    decreases s.len(),
{
    lemma_first_match(s, seq![c], 0);
    match first_match(s, seq![c], 0) {
        Some(i) => {
            if 0 <= i < s.len() {
                let rest = s.skip(i + 1);
                lemma_join_split(rest, c);
                let pieces = split_on(rest, c);
                lemma_split_len(rest, c);
                lemma_join_cons(s.take(i), pieces, seq![c]);
                assert(occurs_at(s, seq![c], i));
                assert(s.subrange(i, i + 1)[0] == seq![c][0]);
                assert(s[i] == c);
                assert(s.take(i) + seq![c] + rest =~= s);
            }
        },
        None => {},
    }
}

/// Each piece occurs in the joined text.
pub proof fn lemma_join_has_piece(pieces: Seq<Seq<char>>, sep: Seq<char>, i: int)
    requires
        0 <= i < pieces.len(),
    ensures
        has_infix(join_with(pieces, sep), pieces[i]),
    decreases pieces.len(),
{
    let j = join_with(pieces, sep);
    if pieces.len() == 1 {
        assert(j.subrange(0, pieces[0].len() as int) =~= pieces[0]);
        assert(occurs_at(j, pieces[i], 0));
    } else {
        let front = join_with(pieces.drop_last(), sep);
        assert(j == front + sep + pieces.last());
        if i == pieces.len() - 1 {
            let at: int = (front.len() + sep.len()) as int;
            assert(j.subrange(at, at + pieces[i].len()) =~= pieces[i]);
            assert(occurs_at(j, pieces[i], at));
        } else {
            lemma_join_has_piece(pieces.drop_last(), sep, i);
            assert(pieces.drop_last()[i] == pieces[i]);
            let k = choose|k: int| occurs_at(front, pieces[i], k);
            assert(j.subrange(k, k + pieces[i].len()) =~= front.subrange(k, k + pieces[i].len()));
            assert(occurs_at(j, pieces[i], k));
        }
    }
}

/// What occurs at the start of an infix occurs in the whole, and stays
/// there when more text follows.
pub proof fn lemma_infix_of_prefix(s: Seq<char>, x: Seq<char>, p: Seq<char>, tail: Seq<char>)
    requires
        has_infix(s, x),
        has_prefix(x, p),
    ensures
        has_infix(s + tail, p),
{
    let k = choose|k: int| occurs_at(s, x, k);
    assert((s + tail).subrange(k, k + p.len()) =~= x.subrange(0, p.len() as int));
    assert(occurs_at(s + tail, p, k));
}

/// `a` sorts before `b`: compared character by character (by code point,
/// as `str`'s order compares UTF-8 bytes), a proper prefix first.
pub open spec fn text_lt(a: Seq<char>, b: Seq<char>) -> bool
    decreases a.len(),
{
    if b.len() == 0 {
        false
    } else if a.len() == 0 {
        true
    } else if a[0] != b[0] {
        a[0] < b[0]
    } else {
        text_lt(a.drop_first(), b.drop_first())
    }
}

/// No text sorts before itself.
pub proof fn lemma_text_lt_irreflexive(a: Seq<char>)
    ensures
        !text_lt(a, a),
    decreases a.len(),
{
    if a.len() > 0 {
        lemma_text_lt_irreflexive(a.drop_first());
    }
}

/// The order is transitive.
pub proof fn lemma_text_lt_transitive(a: Seq<char>, b: Seq<char>, c: Seq<char>)
    requires
        text_lt(a, b),
        text_lt(b, c),
    ensures
        text_lt(a, c),
    decreases a.len(),
{
    if a.len() > 0 && b.len() > 0 && c.len() > 0 && a[0] == b[0] && b[0] == c[0] {
        lemma_text_lt_transitive(a.drop_first(), b.drop_first(), c.drop_first());
    }
}

/// Two different texts are ordered one way or the other.
pub proof fn lemma_text_lt_total(a: Seq<char>, b: Seq<char>)
    requires
        a != b,
    ensures
        text_lt(a, b) || text_lt(b, a),
    decreases a.len(),
{
    if a.len() > 0 && b.len() > 0 && a[0] == b[0] {
        if a.drop_first() == b.drop_first() {
            assert(a =~= seq![a[0]] + a.drop_first());
            assert(b =~= seq![b[0]] + b.drop_first());
        }
        lemma_text_lt_total(a.drop_first(), b.drop_first());
    } else if a.len() == 0 && b.len() == 0 {
        assert(a =~= b);
    }
}

/// Whether `a` sorts before `b`.
pub fn text_less(a: &[char], b: &[char]) -> (r: bool)
    ensures
        r == text_lt(a@, b@),
{
    let mut i: usize = 0;
    assert(a@.skip(0) =~= a@);
    assert(b@.skip(0) =~= b@);
    while i < a.len() && i < b.len()
        invariant
            i <= a@.len(),
            i <= b@.len(),
            text_lt(a@, b@) == text_lt(a@.skip(i as int), b@.skip(i as int)),
        decreases a@.len() - i,
    {
        if a[i] != b[i] {
            proof {
                assert(a@.skip(i as int)[0] == a@[i as int]);
                assert(b@.skip(i as int)[0] == b@[i as int]);
            }
            return a[i] < b[i];
        }
        proof {
            assert(a@.skip(i as int)[0] == a@[i as int]);
            assert(b@.skip(i as int)[0] == b@[i as int]);
            assert(a@.skip(i as int).drop_first() =~= a@.skip(i + 1));
            assert(b@.skip(i as int).drop_first() =~= b@.skip(i + 1));
        }
        i += 1;
    }
    i < b.len()
}

/// Character `c` does not occur in `s`.
pub open spec fn lacks(s: Seq<char>, c: char) -> bool {
    forall|i: int| 0 <= i < s.len() ==> s[i] != c
}

// ---------------------------------------------------------------------------
// Conversions
// ---------------------------------------------------------------------------

/// A one-character sequence.
pub fn single(c: char) -> (v: Vec<char>)
    ensures
        v@ == seq![c],
{
    let mut v: Vec<char> = Vec::new();
    v.push(c);
    v
}

/// The characters of `s`, in order.
pub fn chars_of(s: &str) -> (v: Vec<char>)
    ensures
        v@ == s@,
{
    let mut v: Vec<char> = Vec::new();
    for c in it: s.chars()
        invariant
            v@ == it.seq().take(it.index() as int),
            it.seq() == s@,
    {
        v.push(c);
    }
    v
}

/// Collects `v` into a `String` (std's `FromIterator<char> for String`).
#[verifier::external_body]
pub(crate) fn string_of(v: &[char]) -> (s: String)
    ensures
        s@ == v@,
{
    v.iter().collect()
}

/// A copy of `v`.
pub fn copy_chars(v: &[char]) -> (r: Vec<char>)
    ensures
        r@ == v@,
{
    let mut r: Vec<char> = Vec::new();
    let mut i: usize = 0;
    while i < v.len()
        invariant
            i <= v@.len(),
            r@ == v@.take(i as int),
        decreases v@.len() - i,
    {
        r.push(v[i]);
        i += 1;
    }
    r
}

/// `v[from..to]` as an owned vector.
pub fn slice_chars(v: &[char], from: usize, to: usize) -> (r: Vec<char>)
    requires
        from <= to <= v@.len(),
    ensures
        r@ == v@.subrange(from as int, to as int),
{
    let mut r: Vec<char> = Vec::new();
    let mut i: usize = from;
    while i < to
        invariant
            from <= i <= to,
            to <= v@.len(),
            r@ == v@.subrange(from as int, i as int),
        decreases to - i,
    {
        r.push(v[i]);
        i += 1;
    }
    r
}

/// Appends all of `src` to `dst`.
pub fn push_all(dst: &mut Vec<char>, src: &[char])
    ensures
        final(dst)@ == old(dst)@ + src@,
{
    let mut i: usize = 0;
    while i < src.len()
        invariant
            i <= src@.len(),
            dst@ == old(dst)@ + src@.take(i as int),
        decreases src@.len() - i,
    {
        dst.push(src[i]);
        i += 1;
    }
}

/// Appends the characters of `s` to `dst`.
pub fn push_str(dst: &mut Vec<char>, s: &str)
    ensures
        final(dst)@ == old(dst)@ + s@,
{
    let v = chars_of(s);
    push_all(dst, v.as_slice());
}

/// `a + b` as a new vector.
pub fn concat(a: &[char], b: &[char]) -> (r: Vec<char>)
    ensures
        r@ == a@ + b@,
{
    let mut r = copy_chars(a);
    push_all(&mut r, b);
    r
}

// ---------------------------------------------------------------------------
// Searching
// ---------------------------------------------------------------------------

/// Whether `p` occurs in `s` at index `i`.
pub fn match_at(s: &[char], p: &[char], i: usize) -> (b: bool)
    ensures
        b == occurs_at(s@, p@, i as int),
{
    if i > s.len() || p.len() > s.len() - i {
        return false;
    }
    let mut k: usize = 0;
    while k < p.len()
        invariant
            k <= p@.len(),
            i + p@.len() <= s@.len(),
            i + p.len() <= s.len(),
            forall|j: int| 0 <= j < k ==> s@[i + j] == p@[j],
        decreases p@.len() - k,
    {
        if s[i + k] != p[k] {
            assert(s@.subrange(i as int, i + p@.len())[k as int] != p@[k as int]);
            return false;
        }
        k += 1;
    }
    assert(s@.subrange(i as int, i + p@.len()) =~= p@);
    true
}

/// The first index at or after `from` where `p` occurs in `s`.
pub fn find_from(s: &[char], p: &[char], from: usize) -> (r: Option<usize>)
    ensures
        match r {
            Some(i) => first_match(s@, p@, from as int) == Some(i as int),
            None => first_match(s@, p@, from as int) is None,
        },
{
    let mut i = from;
    while i <= s.len() && p.len() <= s.len() - i
        invariant
            from <= i,
            first_match(s@, p@, from as int) == first_match(s@, p@, i as int),
        decreases s@.len() + 1 - i,
    {
        if match_at(s, p, i) {
            return Some(i);
        }
        proof {
            if p@.len() == 0 {
                assert(s@.subrange(i as int, i as int) =~= p@);
            }
        }
        i += 1;
    }
    None
}

/// The first index of `p` in `s`.
pub fn find(s: &[char], p: &[char]) -> (r: Option<usize>)
    ensures
        match r {
            Some(i) => first_match(s@, p@, 0) == Some(i as int),
            None => first_match(s@, p@, 0) is None,
        },
{
    find_from(s, p, 0)
}

/// The first index of the character `c` in `s`.
pub fn find_char(s: &[char], c: char) -> (r: Option<usize>)
    ensures
        match r {
            Some(i) => first_match(s@, seq![c], 0) == Some(i as int),
            None => first_match(s@, seq![c], 0) is None,
        },
{
    let cv: Vec<char> = vec![c];
    assert(cv@ =~= seq![c]);
    find(s, cv.as_slice())
}

/// Whether `p` occurs in `s`.
pub fn contains(s: &[char], p: &[char]) -> (b: bool)
    ensures
        b == has_infix(s@, p@),
{
    proof {
        lemma_first_match_infix(s@, p@);
    }
    find(s, p).is_some()
}

/// Whether `p` occurs in `s` (pattern given as a string slice).
pub fn contains_str(s: &[char], p: &str) -> (b: bool)
    ensures
        b == has_infix(s@, p@),
{
    let pv = chars_of(p);
    contains(s, pv.as_slice())
}

/// Whether `s` starts with `p`.
pub fn starts_with(s: &[char], p: &[char]) -> (b: bool)
    ensures
        b == has_prefix(s@, p@),
{
    match_at(s, p, 0)
}

/// Whether `s` starts with the string `p`.
pub fn starts_with_str(s: &[char], p: &str) -> (b: bool)
    ensures
        b == has_prefix(s@, p@),
{
    let pv = chars_of(p);
    starts_with(s, pv.as_slice())
}

/// Whether `s` ends with `p`.
pub fn ends_with(s: &[char], p: &[char]) -> (b: bool)
    ensures
        b == has_suffix(s@, p@),
{
    if p.len() > s.len() {
        false
    } else {
        match_at(s, p, s.len() - p.len())
    }
}

/// Whether `s` ends with the string `p`.
pub fn ends_with_str(s: &[char], p: &str) -> (b: bool)
    ensures
        b == has_suffix(s@, p@),
{
    let pv = chars_of(p);
    ends_with(s, pv.as_slice())
}

/// Whether `a` and `b` are the same sequence.
pub fn chars_eq(a: &[char], b: &[char]) -> (r: bool)
    ensures
        r == (a@ == b@),
{
    if a.len() != b.len() {
        return false;
    }
    let r = match_at(a, b, 0);
    proof {
        if r {
            assert(a@ =~= a@.subrange(0, b@.len() as int));
        } else {
            assert(a@ != b@) by {
                if a@ == b@ {
                    assert(a@.subrange(0, b@.len() as int) =~= b@);
                }
            }
        }
    }
    r
}

/// Whether `a` is the string `b`.
pub fn eq_str(a: &[char], b: &str) -> (r: bool)
    ensures
        r == (a@ == b@),
{
    let bv = chars_of(b);
    chars_eq(a, bv.as_slice())
}

/// Whether two string slices hold the same text.
pub fn same_text(a: &str, b: &str) -> (r: bool)
    ensures
        r == (a@ == b@),
{
    let av = chars_of(a);
    let bv = chars_of(b);
    chars_eq(av.as_slice(), bv.as_slice())
}

// ---------------------------------------------------------------------------
// Character classes
// ---------------------------------------------------------------------------

/// `char::is_whitespace`.
pub fn is_white_char(c: char) -> (b: bool)
    ensures
        b == is_white(c),
{
    ('\u{9}' <= c && c <= '\u{d}') || c == ' ' || c == '\u{85}' || c == '\u{a0}' || c
        == '\u{1680}' || ('\u{2000}' <= c && c <= '\u{200a}') || c == '\u{2028}' || c
        == '\u{2029}' || c == '\u{202f}' || c == '\u{205f}' || c == '\u{3000}'
}

/// `char::to_ascii_lowercase`.
pub fn lower_ascii_char(c: char) -> (r: char)
    ensures
        r == lower_char(c),
{
    if 'A' <= c && c <= 'Z' {
        let b = c as u8;
        ((b + 32) as u8) as char
    } else {
        c
    }
}

/// `str::to_ascii_lowercase` on characters.
pub fn to_ascii_lower(s: &[char]) -> (r: Vec<char>)
    ensures
        r@ == ascii_lower(s@),
{
    let mut r: Vec<char> = Vec::new();
    let mut i: usize = 0;
    while i < s.len()
        invariant
            i <= s@.len(),
            r@ == ascii_lower(s@.take(i as int)),
        decreases s@.len() - i,
    {
        let c = lower_ascii_char(s[i]);
        r.push(c);
        proof {
            assert(ascii_lower(s@.take(i + 1)) =~= ascii_lower(s@.take(i as int)).push(
                lower_char(s@[i as int]),
            ));
        }
        i += 1;
    }
    assert(s@.take(s@.len() as int) =~= s@);
    r
}

/// `str::eq_ignore_ascii_case`.
pub fn eq_ignore_ascii_case(a: &[char], b: &[char]) -> (r: bool)
    ensures
        r == eq_ignore_case(a@, b@),
{
    let la = to_ascii_lower(a);
    let lb = to_ascii_lower(b);
    chars_eq(la.as_slice(), lb.as_slice())
}

/// `eq_ignore_ascii_case` against a string slice.
pub fn eq_ignore_case_str(a: &[char], b: &str) -> (r: bool)
    ensures
        r == eq_ignore_case(a@, b@),
{
    let bv = chars_of(b);
    eq_ignore_ascii_case(a, bv.as_slice())
}

// ---------------------------------------------------------------------------
// Trimming, splitting, lines
// ---------------------------------------------------------------------------

pub proof fn lemma_white_run_end_bounds(s: Seq<char>, i: int)
    requires
        0 <= i <= s.len(),
    ensures
        i <= white_run_end(s, i) <= s.len(),
    decreases s.len() - i,
{
    if i < s.len() && is_white(s[i]) {
        lemma_white_run_end_bounds(s, i + 1);
    }
}

/// `trim(s)` is a run of `s` that neither starts nor ends with white space.
pub proof fn lemma_trim_run(s: Seq<char>)
    ensures
        ({
            let a = white_run_end(s, 0);
            0 <= a <= s.len() && a + trim(s).len() <= s.len() && trim(s) == s.subrange(
                a,
                a + trim(s).len(),
            )
        }),
        trim(s).len() > 0 ==> !is_white(trim(s)[0]) && !is_white(trim(s).last()),
{
    lemma_white_run_end_bounds(s, 0);
    lemma_white_run_end_stops(s, 0);
    let a = white_run_end(s, 0);
    let t = s.skip(a);
    lemma_white_run_start_bounds(t, t.len() as int);
    lemma_white_run_start_stops(t, t.len() as int);
    let b = white_run_start(t, t.len() as int);
    assert(trim(s) =~= s.subrange(a, a + b));
    if b > 0 {
        assert(trim(s)[0] == s[a]);
        assert(trim(s).last() == t[b - 1]);
    }
}

/// Text that neither starts nor ends with white space is its own trim.
pub proof fn lemma_trim_unchanged(s: Seq<char>)
    requires
        s.len() > 0 ==> !is_white(s[0]) && !is_white(s.last()),
    ensures
        trim(s) == s,
{
    assert(s.skip(0) =~= s);
    assert(s.take(s.len() as int) =~= s);
}

proof fn lemma_white_run_end_stops(s: Seq<char>, i: int)
    requires
        0 <= i <= s.len(),
    ensures
        white_run_end(s, i) < s.len() ==> !is_white(s[white_run_end(s, i)]),
    decreases s.len() - i,
{
    if i < s.len() && is_white(s[i]) {
        lemma_white_run_end_stops(s, i + 1);
    }
}

proof fn lemma_white_run_start_stops(s: Seq<char>, j: int)
    requires
        0 <= j <= s.len(),
    ensures
        white_run_start(s, j) > 0 ==> !is_white(s[white_run_start(s, j) - 1]),
    decreases j,
{
    if 0 < j && is_white(s[j - 1]) {
        lemma_white_run_start_stops(s, j - 1);
    }
}

pub proof fn lemma_white_run_start_bounds(s: Seq<char>, j: int)
    requires
        0 <= j <= s.len(),
    ensures
        0 <= white_run_start(s, j) <= j,
    decreases j,
{
    if 0 < j && is_white(s[j - 1]) {
        lemma_white_run_start_bounds(s, j - 1);
    }
}

/// Index of the first non-white character of `s`.
pub fn leading_white_len(s: &[char]) -> (n: usize)
    ensures
        n as int == white_run_end(s@, 0),
        n <= s@.len(),
{
    let mut i: usize = 0;
    while i < s.len() && is_white_char(s[i])
        invariant
            i <= s@.len(),
            white_run_end(s@, 0) == white_run_end(s@, i as int),
        decreases s@.len() - i,
    {
        i += 1;
    }
    i
}

/// `str::trim_start`.
pub fn trim_start_chars(s: &[char]) -> (r: Vec<char>)
    ensures
        r@ == trim_start(s@),
{
    let n = leading_white_len(s);
    slice_chars(s, n, s.len())
}

/// `str::trim_end`.
pub fn trim_end_chars(s: &[char]) -> (r: Vec<char>)
    ensures
        r@ == trim_end(s@),
{
    let mut j: usize = s.len();
    while j > 0 && is_white_char(s[j - 1])
        invariant
            j <= s@.len(),
            white_run_start(s@, s@.len() as int) == white_run_start(s@, j as int),
        decreases j,
    {
        j -= 1;
    }
    slice_chars(s, 0, j)
}

/// `str::trim`.
pub fn trim_chars(s: &[char]) -> (r: Vec<char>)
    ensures
        r@ == trim(s@),
{
    let a = trim_start_chars(s);
    trim_end_chars(a.as_slice())
}

/// `str::trim` applied to a string slice, as characters.
pub fn trimmed(s: &str) -> (r: Vec<char>)
    ensures
        r@ == trim(s@),
{
    let v = chars_of(s);
    trim_chars(v.as_slice())
}

/// `str::replace(p, r)` for a non-empty pattern.
pub fn replace_chars(s: &[char], p: &[char], r: &[char]) -> (out: Vec<char>)
    requires
        p@.len() > 0,
    ensures
        out@ == replace_all(s@, p@, r@),
{
    let mut out: Vec<char> = Vec::new();
    let mut i: usize = 0;
    proof {
        assert(s@.skip(0) =~= s@);
        assert(out@ + replace_all(s@, p@, r@) =~= replace_all(s@, p@, r@));
    }
    while i < s.len()
        invariant
            i <= s@.len(),
            p@.len() > 0,
            out@ + replace_all(s@.skip(i as int), p@, r@) == replace_all(s@, p@, r@),
        decreases s@.len() - i,
    {
        let ghost rest = s@.skip(i as int);
        let ghost before = out@;
        if match_at(s, p, i) {
            proof {
                assert(rest.subrange(0, p@.len() as int) =~= s@.subrange(
                    i as int,
                    i + p@.len(),
                ));
                assert(rest.skip(p@.len() as int) =~= s@.skip(i + p@.len()));
                assert(before + (r@ + replace_all(s@.skip(i + p@.len()), p@, r@)) =~= before
                    + r@ + replace_all(s@.skip(i + p@.len()), p@, r@));
            }
            push_all(&mut out, r);
            i += p.len();
        } else {
            proof {
                if has_prefix(rest, p@) {
                    assert(rest.subrange(0, p@.len() as int) =~= s@.subrange(
                        i as int,
                        i + p@.len(),
                    ));
                }
                assert(rest.skip(1) =~= s@.skip(i + 1));
                assert(before + (seq![s@[i as int]] + replace_all(s@.skip(i + 1), p@, r@))
                    =~= before.push(s@[i as int]) + replace_all(s@.skip(i + 1), p@, r@));
            }
            out.push(s[i]);
            i += 1;
        }
    }
    proof {
        assert(s@.skip(s@.len() as int) =~= Seq::<char>::empty());
        assert(out@ + Seq::<char>::empty() =~= out@);
    }
    out
}

/// `str::split_once(c)`.
pub fn split_once_char(s: &[char], c: char) -> (r: Option<(Vec<char>, Vec<char>)>)
    ensures
        match r {
            Some(p) => split_once(s@, c) == Some((p.0@, p.1@)),
            None => split_once(s@, c) is None,
        },
{
    match find_char(s, c) {
        Some(i) => {
            proof {
                lemma_first_match(s@, seq![c], 0);
            }
            assert(i < s.len());
            let a = slice_chars(s, 0, i);
            let b = slice_chars(s, i + 1, s.len());
            Some((a, b))
        },
        None => None,
    }
}

/// `s.split(c).next()`: everything before the first `c`.
pub fn before_first_char(s: &[char], c: char) -> (r: Vec<char>)
    ensures
        r@ == before_first(s@, c),
{
    match split_once_char(s, c) {
        Some(p) => p.0,
        None => copy_chars(s),
    }
}

/// `str::lines` as vectors of characters.
pub fn split_lines(s: &[char]) -> (r: Vec<Vec<char>>)
    ensures
        r@.len() == lines(s@).len(),
        forall|k: int| 0 <= k < r@.len() ==> #[trigger] r@[k]@ == lines(s@)[k],
{
    let mut out: Vec<Vec<char>> = Vec::new();
    let mut start: usize = 0;
    let ghost tail = s@;
    while start < s.len()
        invariant
            start <= s@.len(),
            tail == s@.skip(start as int),
            lines(s@) == out@.map_values(|v: Vec<char>| v@) + lines(tail),
        decreases s@.len() - start,
    {
        let rest = slice_chars(s, start, s.len());
        assert(rest@ == tail);
        match find_char(rest.as_slice(), '\n') {
            Some(i) => {
                proof {
                    lemma_first_match(rest@, seq!['\n'], 0);
                }
                let mut line = slice_chars(rest.as_slice(), 0, i);
                if i > 0 && line[i - 1] == '\r' {
                    line.pop();
                }
                assert(line@ == strip_cr(tail.take(i as int)));
                let ghost old_out = out@;
                out.push(line);
                proof {
                    assert(tail.skip(i + 1) =~= s@.skip(start + i + 1));
                    assert(out@.map_values(|v: Vec<char>| v@) =~= old_out.map_values(
                        |v: Vec<char>| v@,
                    ).push(line@));
                    assert(lines(tail) == seq![line@] + lines(tail.skip(i + 1)));
                    tail = tail.skip(i + 1);
                }
                start = start + i + 1;
            },
            None => {
                let ghost old_out = out@;
                out.push(rest);
                proof {
                    assert(out@.map_values(|v: Vec<char>| v@) =~= old_out.map_values(
                        |v: Vec<char>| v@,
                    ).push(tail));
                    assert(lines(tail) == seq![tail]);
                    assert(s@.skip(s@.len() as int) =~= Seq::<char>::empty());
                    tail = s@.skip(s@.len() as int);
                }
                start = s.len();
            },
        }
    }
    proof {
        assert(tail =~= Seq::<char>::empty());
        assert(lines(tail) =~= Seq::<Seq<char>>::empty());
        assert(lines(s@) =~= out@.map_values(|v: Vec<char>| v@));
    }
    out
}

/// `s.split(c)` as vectors of characters.
pub fn split_char(s: &[char], c: char) -> (r: Vec<Vec<char>>)
    ensures
        r@.len() == split_on(s@, c).len(),
        forall|k: int| 0 <= k < r@.len() ==> #[trigger] r@[k]@ == split_on(s@, c)[k],
{
    let mut out: Vec<Vec<char>> = Vec::new();
    let mut rest = copy_chars(s);
    loop
        invariant
            split_on(s@, c) == out@.map_values(|v: Vec<char>| v@) + split_on(rest@, c),
        decreases rest@.len(),
    {
        match find_char(rest.as_slice(), c) {
            Some(i) => {
                proof {
                    lemma_first_match(rest@, seq![c], 0);
                }
                assert(i < rest.len());
                let piece = slice_chars(rest.as_slice(), 0, i);
                let next = slice_chars(rest.as_slice(), i + 1, rest.len());
                let ghost old_out = out@;
                let ghost old_rest = rest@;
                out.push(piece);
                proof {
                    assert(out@.map_values(|v: Vec<char>| v@) =~= old_out.map_values(
                        |v: Vec<char>| v@,
                    ).push(piece@));
                    assert(split_on(old_rest, c) == seq![piece@] + split_on(next@, c));
                }
                rest = next;
            },
            None => {
                let ghost old_out = out@;
                let ghost old_rest = rest@;
                out.push(rest);
                proof {
                    assert(out@.map_values(|v: Vec<char>| v@) =~= old_out.map_values(
                        |v: Vec<char>| v@,
                    ).push(old_rest));
                    assert(split_on(old_rest, c) == seq![old_rest]);
                    assert(split_on(s@, c) =~= out@.map_values(|v: Vec<char>| v@));
                }
                return out;
            },
        }
    }
}

/// `pieces.join(sep)`.
pub fn join_pieces(pieces: &Vec<Vec<char>>, sep: &[char]) -> (r: Vec<char>)
    ensures
        r@ == join_with(pieces@.map_values(|v: Vec<char>| v@), sep@),
{
    let ghost views = pieces@.map_values(|v: Vec<char>| v@);
    let mut r: Vec<char> = Vec::new();
    let mut i: usize = 0;
    while i < pieces.len()
        invariant
            i <= pieces@.len(),
            views == pieces@.map_values(|v: Vec<char>| v@),
            r@ == join_with(views.take(i as int), sep@),
        decreases pieces@.len() - i,
    {
        if i > 0 {
            push_all(&mut r, sep);
        }
        push_all(&mut r, pieces[i].as_slice());
        proof {
            let t = views.take(i + 1);
            assert(t.drop_last() =~= views.take(i as int));
            if i == 0 {
                assert(t.len() == 1);
            }
        }
        i += 1;
    }
    assert(views.take(pieces@.len() as int) =~= views);
    r
}

} // verus!

verus! {

// ---------------------------------------------------------------------------
// Unicode case mapping (std)
// ---------------------------------------------------------------------------

/// What `str::to_lowercase` gives for `s` (Unicode case mapping).
pub uninterp spec fn lowercase(s: Seq<char>) -> Seq<char>;

/// Every character is ASCII.
pub open spec fn all_ascii(s: Seq<char>) -> bool {
    forall|i: int| 0 <= i < s.len() ==> (#[trigger] s[i] as u32) < 0x80
}

/// `str::to_lowercase`; the result is the one `lowercase` names. On ASCII
/// text the Unicode lowercase mapping is the ASCII one: `A`..`Z` become
/// `a`..`z` and every other character stays.
#[verifier::external_body]
pub(crate) fn to_lowercase(s: &[char]) -> (r: Vec<char>)
    ensures
        r@ == lowercase(s@),
        all_ascii(s@) ==> r@ == ascii_lower(s@),
{
    s.iter().collect::<String>().to_lowercase().chars().collect()
}

/// What `format!("{:?}", s)` gives for a string: `s` in double quotes with
/// `str::escape_debug` applied.
pub uninterp spec fn debug_quoted(s: Seq<char>) -> Seq<char>;

/// `format!("{:?}", s)` for the string of these characters; the result is
/// the one `debug_quoted` names.
#[verifier::external_body]
pub(crate) fn debug_text(s: &[char]) -> (r: String)
    ensures
        r@ == debug_quoted(s@),
{
    format!("{:?}", s.iter().collect::<String>())
}

/// What `str::to_uppercase` gives for `s` (Unicode case mapping).
pub uninterp spec fn uppercase(s: Seq<char>) -> Seq<char>;

/// `str::to_uppercase`; the result is the one `uppercase` names.
#[verifier::external_body]
pub(crate) fn to_uppercase(s: &[char]) -> (r: Vec<char>)
    ensures
        r@ == uppercase(s@),
{
    s.iter().collect::<String>().to_uppercase().chars().collect()
}

} // verus!
