//! Decimal rendering and parsing of unsigned integers, as `format!("{}")`
//! and `str::parse` do them.
use vstd::prelude::*;
use crate::text::{is_digit, push_all, string_of};

verus! {

/// The ASCII digit for `d < 10`.
pub open spec fn digit_char(d: nat) -> char {
    ((d + 48) as u32) as char
}

/// The numeric value of an ASCII digit.
pub open spec fn digit_value(c: char) -> nat {
    ((c as u32) - 48) as nat
}

/// Decimal rendering of `n` without leading zeros (`format!("{n}")`).
pub open spec fn dec(n: nat) -> Seq<char>
    decreases n,
{
    if n < 10 {
        seq![digit_char(n)]
    } else {
        dec(n / 10).push(digit_char(n % 10))
    }
}

/// `n` rendered with at least `width` digits, zero-padded on the left
/// (`format!("{n:0width$}")`).
pub open spec fn dec_padded(n: nat, width: nat) -> Seq<char> {
    let d = dec(n);
    if d.len() >= width {
        d
    } else {
        Seq::new((width - d.len()) as nat, |i: int| '0') + d
    }
}

/// Value of a run of decimal digits.
pub open spec fn digits_value(s: Seq<char>) -> nat
    decreases s.len(),
{
    if s.len() == 0 {
        0
    } else {
        digits_value(s.drop_last()) * 10 + digit_value(s.last())
    }
}

/// All characters are ASCII digits.
pub open spec fn all_digits(s: Seq<char>) -> bool {
    forall|i: int| 0 <= i < s.len() ==> is_digit(#[trigger] s[i])
}

/// `str::parse` for an unsigned integer type whose largest value is `max`:
/// an optional `+`, then one or more ASCII digits whose value is at most `max`.
pub open spec fn parse_unsigned(s: Seq<char>, max: nat) -> Option<nat> {
    let d = if s.len() > 0 && s[0] == '+' {
        s.drop_first()
    } else {
        s
    };
    if d.len() == 0 || !all_digits(d) || digits_value(d) > max {
        None
    } else {
        Some(digits_value(d))
    }
}

proof fn lemma_digits_value_monotone(s: Seq<char>, k: int)
    requires
        0 <= k <= s.len(),
    ensures
        digits_value(s.take(k)) <= digits_value(s),
    decreases s.len() - k,
{
    if k < s.len() {
        lemma_digits_value_monotone(s, k + 1);
        assert(s.take(k + 1).drop_last() =~= s.take(k));
    } else {
        assert(s.take(k) =~= s);
    }
}

/// A rendered digit reads back as itself.
proof fn lemma_digit_char(d: nat)
    requires
        d < 10,
    ensures
        is_digit(digit_char(d)),
        digit_value(digit_char(d)) == d,
{
    assert((((d + 48) as u32) as char) as u32 == d + 48);
}

/// `dec(n)` is a non-empty run of digits whose value is `n`.
pub proof fn lemma_dec_digits(n: nat)
    ensures
        dec(n).len() > 0,
        all_digits(dec(n)),
        digits_value(dec(n)) == n,
    decreases n,
{
    if n < 10 {
        lemma_digit_char(n);
        assert(dec(n).drop_last() =~= Seq::<char>::empty());
        assert(dec(n).last() == digit_char(n));
        assert(digits_value(dec(n)) == digits_value(dec(n).drop_last()) * 10 + digit_value(dec(n).last()));
    } else {
        lemma_dec_digits(n / 10);
        lemma_digit_char(n % 10);
        let d = dec(n);
        assert(d.drop_last() =~= dec(n / 10));
        assert(d.last() == digit_char(n % 10));
        let q = n / 10;
        assert(q * 10 + n % 10 == n) by (nonlinear_arith)
            requires
                q == n / 10,
        ;
        assert(digits_value(d) == digits_value(dec(q)) * 10 + digit_value(d.last()));
        assert(digits_value(dec(q)) * 10 == q * 10);
        assert forall|i: int| 0 <= i < d.len() implies is_digit(#[trigger] d[i]) by {
            if i < d.len() - 1 {
                assert(d[i] == dec(n / 10)[i]);
            }
        }
    }
}

/// Leading zeros do not change the value of a run of digits.
proof fn lemma_zeros_value(z: Seq<char>, d: Seq<char>)
    requires
        forall|i: int| 0 <= i < z.len() ==> #[trigger] z[i] == '0',
    ensures
        digits_value(z + d) == digits_value(d),
    decreases z.len() + d.len(),
{
    if d.len() == 0 {
        assert(z + d =~= z);
        if z.len() > 0 {
            lemma_zeros_value(z.drop_last(), d);
            assert(z.drop_last() + d =~= z.drop_last());
            assert(digit_value(z.last()) == 0) by {
                assert(z.last() == '0');
            }
        }
    } else {
        lemma_zeros_value(z, d.drop_last());
        assert((z + d).drop_last() =~= z + d.drop_last());
        assert((z + d).last() == d.last());
    }
}

/// The zero-padded rendering of `n` parses back to `n` wherever `n` fits.
pub proof fn lemma_dec_padded_parses(n: nat, width: nat, max: nat)
    requires
        n <= max,
    ensures
        parse_unsigned(dec_padded(n, width), max) == Some(n),
        dec_padded(n, width).len() > 0,
        all_digits(dec_padded(n, width)),
{
    lemma_dec_digits(n);
    let d = dec(n);
    if d.len() < width {
        let z = Seq::new((width - d.len()) as nat, |i: int| '0');
        lemma_zeros_value(z, d);
        let p = z + d;
        assert forall|i: int| 0 <= i < p.len() implies is_digit(#[trigger] p[i]) by {
            if i >= z.len() {
                assert(p[i] == d[i - z.len()]);
            }
        }
        assert(p[0] != '+');
    } else {
        assert(d[0] != '+') by {
            assert(is_digit(d[0]));
        }
    }
}

/// Decimal rendering of a `u64`.
pub fn dec_chars(n: u64) -> (r: Vec<char>)
    ensures
        r@ == dec(n as nat),
    decreases n,
{
    if n < 10 {
        let c = ((n as u8) + 48) as char;
        let mut r: Vec<char> = Vec::new();
        r.push(c);
        assert(r@ =~= seq![digit_char(n as nat)]);
        r
    } else {
        let mut r = dec_chars(n / 10);
        let c = (((n % 10) as u8) + 48) as char;
        r.push(c);
        r
    }
}

/// `format!("{n}")` for a `u64`.
pub fn dec_string(n: u64) -> (r: String)
    ensures
        r@ == dec(n as nat),
{
    let v = dec_chars(n);
    string_of(v.as_slice())
}

/// `n` rendered with at least `width` digits, zero-padded.
pub fn dec_padded_chars(n: u64, width: usize) -> (r: Vec<char>)
    ensures
        r@ == dec_padded(n as nat, width as nat),
{
    let d = dec_chars(n);
    if d.len() >= width {
        d
    } else {
        let mut r: Vec<char> = Vec::new();
        let pad = width - d.len();
        let mut i: usize = 0;
        while i < pad
            invariant
                i <= pad,
                r@ =~= Seq::new(i as nat, |j: int| '0'),
            decreases pad - i,
        {
            r.push('0');
            i += 1;
        }
        push_all(&mut r, d.as_slice());
        r
    }
}

/// `str::parse::<u64>` restricted to values at most `max`; `None` when the
/// text is not an optional `+` and digits, or the value exceeds `max`.
pub fn parse_uint(s: &[char], max: u64) -> (r: Option<u64>)
    ensures
        match r {
            Some(v) => parse_unsigned(s@, max as nat) == Some(v as nat),
            None => parse_unsigned(s@, max as nat) is None,
        },
{
    let start: usize = if s.len() > 0 && s[0] == '+' {
        1
    } else {
        0
    };
    let ghost d = if s@.len() > 0 && s@[0] == '+' {
        s@.drop_first()
    } else {
        s@
    };
    assert(d =~= s@.skip(start as int));
    if start == s.len() {
        return None;
    }
    let mut acc: u64 = 0;
    let mut i: usize = start;
    while i < s.len()
        invariant
            start <= i <= s@.len(),
            d == s@.skip(start as int),
            d == (if s@.len() > 0 && s@[0] == '+' {
                s@.drop_first()
            } else {
                s@
            }),
            d.len() > 0,
            acc as nat == digits_value(d.take(i - start)),
            all_digits(d.take(i - start)),
        decreases s@.len() - i,
    {
        let c = s[i];
        if !('0' <= c && c <= '9') {
            proof {
                assert(d[i - start] == c);
                assert(!is_digit(d[i - start]));
                assert(!all_digits(d));
            }
            return None;
        }
        let dv = (c as u32 - 48) as u64;
        proof {
            assert(d.take(i + 1 - start).drop_last() =~= d.take(i - start));
            assert(d.take(i + 1 - start).last() == c);
        }
        if acc > (u64::MAX - dv) / 10 {
            proof {
                assert(acc * 10 + dv > u64::MAX) by (nonlinear_arith)
                    requires
                        acc > (u64::MAX - dv) / 10,
                        dv <= 9,
                ;
                lemma_digits_value_monotone(d, i + 1 - start);
                assert(digit_value(c) == dv);
                assert(digits_value(d.take(i + 1 - start)) == acc * 10 + dv);
                assert(digits_value(d) > u64::MAX);
            }
            return None;
        }
        acc = acc * 10 + dv;
        i += 1;
        proof {
            assert forall|j: int| 0 <= j < d.take(i - start).len() implies is_digit(
                #[trigger] d.take(i - start)[j],
            ) by {
                if j < i - 1 - start {
                    assert(d.take(i - start)[j] == d.take(i - 1 - start)[j]);
                }
            }
        }
    }
    assert(d.take(i - start) =~= d);
    if acc > max {
        None
    } else {
        Some(acc)
    }
}

} // verus!
