//! HLS variant streams and quality selection: `best`/`worst`, a height such
//! as `720p`, or a number from the quality menu.
use vstd::prelude::*;
use vstd::multiset::Multiset;
use crate::error::Error;
use crate::num::{dec, dec_chars, parse_uint, parse_unsigned};
use crate::text::{
    chars_of, eq_str, has_suffix, join_pieces, join_with, lowercase, push_all, push_str,
    string_of, to_lowercase, trim, trim_chars,
};

verus! {

/// One `#EXT-X-STREAM-INF` entry of a master playlist.
#[derive(Debug, PartialEq, Eq)]
pub struct Variant {
    pub bandwidth: u64,
    pub height: u32,
    pub url: String,
}

/// The mathematical view of a `Variant`.
pub struct VariantView {
    pub bandwidth: u64,
    pub height: u32,
    pub url: Seq<char>,
}

impl View for Variant {
    type V = VariantView;

    open spec fn view(&self) -> VariantView {
        VariantView { bandwidth: self.bandwidth, height: self.height, url: self.url@ }
    }
}

impl Variant {
    /// A copy of this variant.
    pub fn duplicate(&self) -> (r: Variant)
        ensures
            r@ == self@,
    {
        Variant { bandwidth: self.bandwidth, height: self.height, url: self.url.clone() }
    }
}

/// Views of a slice of variants.
pub open spec fn views(vs: Seq<Variant>) -> Seq<VariantView> {
    vs.map_values(|v: Variant| v@)
}

/// `a` ranks above `b`: higher bandwidth, then greater height.
pub open spec fn outranks(a: VariantView, b: VariantView) -> bool {
    a.bandwidth > b.bandwidth || (a.bandwidth == b.bandwidth && a.height > b.height)
}

/// Index of the first highest-ranked variant among the first `n`.
pub open spec fn first_best(s: Seq<VariantView>, n: int) -> int
    decreases n,
{
    if n <= 1 {
        0
    } else {
        let m = first_best(s, n - 1);
        if outranks(s[n - 1], s[m]) {
            n - 1
        } else {
            m
        }
    }
}

/// Index of the last highest-ranked variant among the first `n`
/// (`Iterator::max_by_key` keeps the last of equal maxima).
pub open spec fn last_best(s: Seq<VariantView>, n: int) -> int
    decreases n,
{
    if n <= 1 {
        0
    } else {
        let m = last_best(s, n - 1);
        if outranks(s[m], s[n - 1]) {
            m
        } else {
            n - 1
        }
    }
}

/// The key `worst` minimises: bandwidth (0 counts as unknown, so as
/// largest), then height.
pub open spec fn worse(a: VariantView, b: VariantView) -> bool {
    let ab: int = if a.bandwidth == 0 {
        u64::MAX as int
    } else {
        a.bandwidth as int
    };
    let bb: int = if b.bandwidth == 0 {
        u64::MAX as int
    } else {
        b.bandwidth as int
    };
    ab < bb || (ab == bb && a.height < b.height)
}

/// Index of the first lowest-ranked variant among the first `n`
/// (`Iterator::min_by_key` keeps the first of equal minima).
pub open spec fn first_worst(s: Seq<VariantView>, n: int) -> int
    decreases n,
{
    if n <= 1 {
        0
    } else {
        let m = first_worst(s, n - 1);
        if worse(s[n - 1], s[m]) {
            n - 1
        } else {
            m
        }
    }
}

/// Distance from a variant's height to the wanted one; an unknown height
/// (0) counts as a match.
pub open spec fn height_gap(v: VariantView, want: int) -> int {
    let h: int = if v.height == 0 {
        want
    } else {
        v.height as int
    };
    if h >= want {
        h - want
    } else {
        want - h
    }
}

/// Index of the first variant closest to `want` among the first `n`.
pub open spec fn first_nearest(s: Seq<VariantView>, want: int, n: int) -> int
    decreases n,
{
    if n <= 1 {
        0
    } else {
        let m = first_nearest(s, want, n - 1);
        if height_gap(s[n - 1], want) < height_gap(s[m], want) {
            n - 1
        } else {
            m
        }
    }
}

/// A wanted height, `q` being `<digits>p` with a value that fits a `u32`.
pub open spec fn wanted_height(q: Seq<char>) -> Option<nat> {
    if q.len() > 0 && q.last() == 'p' {
        parse_unsigned(q.drop_last(), u32::MAX as nat)
    } else {
        None
    }
}

/// Index of the variant `pick_variant` chooses for the lowercased quality `q`.
pub open spec fn pick_index(s: Seq<VariantView>, q: Seq<char>) -> int {
    if q == "best"@ || q == "live"@ {
        last_best(s, s.len() as int)
    } else if q == "worst"@ {
        first_worst(s, s.len() as int)
    } else {
        match wanted_height(q) {
            Some(w) => first_nearest(s, w as int, s.len() as int),
            None => last_best(s, s.len() as int),
        }
    }
}

/// The error text when a playlist has no variants.
pub open spec fn no_variants_text() -> Seq<char> {
    "play: no HLS variants in playlist"@
}

proof fn lemma_first_best_range(s: Seq<VariantView>, n: int)
    requires
        1 <= n,
    ensures
        0 <= first_best(s, n) < n,
    decreases n,
{
    if n > 1 {
        lemma_first_best_range(s, n - 1);
    }
}

proof fn lemma_last_best_range(s: Seq<VariantView>, n: int)
    requires
        1 <= n,
    ensures
        0 <= last_best(s, n) < n,
    decreases n,
{
    if n > 1 {
        lemma_last_best_range(s, n - 1);
    }
}

proof fn lemma_first_worst_range(s: Seq<VariantView>, n: int)
    requires
        1 <= n,
    ensures
        0 <= first_worst(s, n) < n,
    decreases n,
{
    if n > 1 {
        lemma_first_worst_range(s, n - 1);
    }
}

proof fn lemma_first_nearest_range(s: Seq<VariantView>, w: int, n: int)
    requires
        1 <= n,
    ensures
        0 <= first_nearest(s, w, n) < n,
    decreases n,
{
    if n > 1 {
        lemma_first_nearest_range(s, w, n - 1);
    }
}

// ---------------------------------------------------------------------------
// Laws
// ---------------------------------------------------------------------------

proof fn lemma_first_best_max(s: Seq<VariantView>, n: int)
    requires
        1 <= n <= s.len(),
    ensures
        0 <= first_best(s, n) < n,
        forall|k: int| 0 <= k < n ==> !outranks(#[trigger] s[k], s[first_best(s, n)]),
    decreases n,
{
    lemma_first_best_range(s, n);
    if n > 1 {
        lemma_first_best_max(s, n - 1);
    }
}

proof fn lemma_last_best_max(s: Seq<VariantView>, n: int)
    requires
        1 <= n <= s.len(),
    ensures
        0 <= last_best(s, n) < n,
        forall|k: int| 0 <= k < n ==> !outranks(#[trigger] s[k], s[last_best(s, n)]),
    decreases n,
{
    lemma_last_best_range(s, n);
    if n > 1 {
        lemma_last_best_max(s, n - 1);
    }
}

/// Ranking reorders the variants without adding or losing any: the ranked
/// list holds each variant as often as the playlist does.
pub proof fn law_ranked_is_permutation(s: Seq<VariantView>)
    ensures
        ranked(s).to_multiset() == s.to_multiset(),
    decreases s.len(),
{
    broadcast use vstd::seq_lib::group_to_multiset_ensures;
    if s.len() > 0 {
        let i = first_best(s, s.len() as int);
        lemma_first_best_range(s, s.len() as int);
        law_ranked_is_permutation(s.remove(i));
        vstd::seq_lib::lemma_multiset_commutative(seq![s[i]], ranked(s.remove(i)));
        vstd::seq_lib::to_multiset_remove(s, i);
        assert(seq![s[i]].to_multiset() =~= Multiset::<VariantView>::empty().insert(s[i])) by {
            assert(seq![s[i]] =~= Seq::<VariantView>::empty().push(s[i]));
            vstd::seq_lib::to_multiset_build(Seq::<VariantView>::empty(), s[i]);
            assert(Seq::<VariantView>::empty().to_multiset() =~= Multiset::<VariantView>::empty()) by {
                vstd::seq_lib::to_multiset_len(Seq::<VariantView>::empty());
            }
        }
        assert(ranked(s).to_multiset() =~= s.to_multiset());
    }
}

proof fn lemma_ranked_members(s: Seq<VariantView>, a: VariantView)
    requires
        ranked(s).contains(a),
    ensures
        s.contains(a),
{
    law_ranked_is_permutation(s);
    vstd::seq_lib::to_multiset_contains(ranked(s), a);
    vstd::seq_lib::to_multiset_contains(s, a);
}

/// The quality menu is best first: no variant in the ranked list outranks
/// one listed before it (higher bandwidth, then greater height, first).
pub proof fn law_ranked_is_sorted(s: Seq<VariantView>)
    ensures
        forall|i: int, j: int|
            0 <= i < j < ranked(s).len() ==> !outranks(#[trigger] ranked(s)[j], #[trigger] ranked(s)[i]),
    decreases s.len(),
{
    if s.len() > 0 {
        let i0 = first_best(s, s.len() as int);
        lemma_first_best_max(s, s.len() as int);
        let t = s.remove(i0);
        law_ranked_is_sorted(t);
        let r = ranked(t);
        assert(ranked(s) == seq![s[i0]] + r);
        assert forall|i: int, j: int| 0 <= i < j < ranked(s).len() implies !outranks(
            #[trigger] ranked(s)[j],
            #[trigger] ranked(s)[i],
        ) by {
            if i == 0 {
                let a = r[j - 1];
                assert(r.contains(a));
                lemma_ranked_members(t, a);
                let k = choose|k: int| 0 <= k < t.len() && t[k] == a;
                if k < i0 {
                    assert(t[k] == s[k]);
                } else {
                    assert(t[k] == s[k + 1]);
                }
            } else {
                assert(ranked(s)[i] == r[i - 1]);
                assert(ranked(s)[j] == r[j - 1]);
            }
        }
    }
}

/// The menu's default (its first entry, taken on Enter) is as good as what
/// `best` picks: same bandwidth and height.
pub proof fn law_default_is_best(s: Seq<VariantView>)
    requires
        s.len() > 0,
    ensures
        ranked(s)[0].bandwidth == s[pick_index(s, "best"@)].bandwidth,
        ranked(s)[0].height == s[pick_index(s, "best"@)].height,
        forall|k: int| 0 <= k < s.len() ==> !outranks(#[trigger] s[k], s[pick_index(s, "best"@)]),
{
    let n = s.len() as int;
    lemma_first_best_max(s, n);
    lemma_last_best_max(s, n);
    let f = first_best(s, n);
    let l = last_best(s, n);
    assert(pick_index(s, "best"@) == l);
    assert(ranked(s)[0] == s[f]);
    assert(!outranks(s[f], s[l]));
    assert(!outranks(s[l], s[f]));
}

proof fn lemma_first_nearest_min(s: Seq<VariantView>, w: int, n: int)
    requires
        1 <= n <= s.len(),
    ensures
        0 <= first_nearest(s, w, n) < n,
        forall|k: int|
            0 <= k < n ==> height_gap(s[first_nearest(s, w, n)], w) <= height_gap(#[trigger] s[k], w),
    decreases n,
{
    lemma_first_nearest_range(s, w, n);
    if n > 1 {
        lemma_first_nearest_min(s, w, n - 1);
    }
}

/// Asking for a height that a variant has (`720p`) picks a variant of that
/// height, or one whose height is unknown (which counts as a match).
pub proof fn law_exact_height_is_picked(s: Seq<VariantView>, q: Seq<char>, k: int)
    requires
        0 <= k < s.len(),
        wanted_height(q) is Some,
        s[k].height == wanted_height(q)->0,
    ensures
        s[pick_index(s, q)].height == wanted_height(q)->0 || s[pick_index(s, q)].height == 0,
{
    reveal_strlit("best");
    reveal_strlit("live");
    reveal_strlit("worst");
    assert(q.last() == 'p');
    assert(q != "best"@) by {
        assert("best"@.last() == 't');
    }
    assert(q != "live"@) by {
        assert("live"@.last() == 'e');
    }
    assert(q != "worst"@) by {
        assert("worst"@.last() == 't');
    }
    let w = wanted_height(q)->0 as int;
    lemma_first_nearest_min(s, w, s.len() as int);
    assert(height_gap(s[k], w) == 0);
}

/// Index of the first highest-ranked variant.
fn first_best_index(vs: &[Variant]) -> (i: usize)
    requires
        vs@.len() > 0,
    ensures
        i as int == first_best(views(vs@), vs@.len() as int),
        i < vs@.len(),
{
    let ghost s = views(vs@);
    let mut m: usize = 0;
    let mut k: usize = 1;
    while k < vs.len()
        invariant
            1 <= k <= vs@.len(),
            s == views(vs@),
            m as int == first_best(s, k as int),
            m < k,
        decreases vs@.len() - k,
    {
        if vs[k].bandwidth > vs[m].bandwidth || (vs[k].bandwidth == vs[m].bandwidth
            && vs[k].height > vs[m].height) {
            m = k;
        }
        k += 1;
    }
    m
}

/// Index of the last highest-ranked variant.
fn last_best_index(vs: &[Variant]) -> (i: usize)
    requires
        vs@.len() > 0,
    ensures
        i as int == last_best(views(vs@), vs@.len() as int),
        i < vs@.len(),
{
    let ghost s = views(vs@);
    let mut m: usize = 0;
    let mut k: usize = 1;
    while k < vs.len()
        invariant
            1 <= k <= vs@.len(),
            s == views(vs@),
            m as int == last_best(s, k as int),
            m < k,
        decreases vs@.len() - k,
    {
        if !(vs[m].bandwidth > vs[k].bandwidth || (vs[m].bandwidth == vs[k].bandwidth
            && vs[m].height > vs[k].height)) {
            m = k;
        }
        k += 1;
    }
    m
}

/// Index of the first lowest-ranked variant.
fn first_worst_index(vs: &[Variant]) -> (i: usize)
    requires
        vs@.len() > 0,
    ensures
        i as int == first_worst(views(vs@), vs@.len() as int),
        i < vs@.len(),
{
    let ghost s = views(vs@);
    let mut m: usize = 0;
    let mut k: usize = 1;
    while k < vs.len()
        invariant
            1 <= k <= vs@.len(),
            s == views(vs@),
            m as int == first_worst(s, k as int),
            m < k,
        decreases vs@.len() - k,
    {
        let kb = if vs[k].bandwidth == 0 {
            u64::MAX
        } else {
            vs[k].bandwidth
        };
        let mb = if vs[m].bandwidth == 0 {
            u64::MAX
        } else {
            vs[m].bandwidth
        };
        if kb < mb || (kb == mb && vs[k].height < vs[m].height) {
            m = k;
        }
        k += 1;
    }
    m
}

/// Index of the first variant nearest to `want`.
fn first_nearest_index(vs: &[Variant], want: u32) -> (i: usize)
    requires
        vs@.len() > 0,
    ensures
        i as int == first_nearest(views(vs@), want as int, vs@.len() as int),
        i < vs@.len(),
{
    let ghost s = views(vs@);
    let mut m: usize = 0;
    let mut k: usize = 1;
    while k < vs.len()
        invariant
            1 <= k <= vs@.len(),
            s == views(vs@),
            m as int == first_nearest(s, want as int, k as int),
            m < k,
        decreases vs@.len() - k,
    {
        let hk = if vs[k].height == 0 {
            want
        } else {
            vs[k].height
        };
        let hm = if vs[m].height == 0 {
            want
        } else {
            vs[m].height
        };
        let dk = if hk >= want {
            hk - want
        } else {
            want - hk
        };
        let dm = if hm >= want {
            hm - want
        } else {
            want - hm
        };
        if dk < dm {
            m = k;
        }
        k += 1;
    }
    m
}

/// Choose a variant for an already lowercased quality.
pub fn pick_variant_lowered(variants: &[Variant], q: &[char]) -> (r: Variant)
    requires
        variants@.len() > 0,
    ensures
        r@ == views(variants@)[pick_index(views(variants@), q@)],
{
    let ghost s = views(variants@);
    if eq_str(q, "best") || eq_str(q, "live") {
        let i = last_best_index(variants);
        return variants[i].duplicate();
    }
    if eq_str(q, "worst") {
        let i = first_worst_index(variants);
        return variants[i].duplicate();
    }
    if q.len() > 0 && q[q.len() - 1] == 'p' {
        let digits = &q[0..q.len() - 1];
        assert(digits@ == q@.drop_last());
        if let Some(want) = parse_uint(digits, u32::MAX as u64) {
            let i = first_nearest_index(variants, want as u32);
            return variants[i].duplicate();
        }
    }
    let i = last_best_index(variants);
    variants[i].duplicate()
}

/// Choose a variant: `best`/`live` (highest bandwidth, then height),
/// `worst`, a height like `720p` (nearest), anything else as `best`.
/// The quality is compared lowercased.
pub fn pick_variant(variants: &[Variant], quality: &str) -> (r: Result<Variant, Error>)
    ensures
        variants@.len() == 0 ==> (r matches Err(Error::Message(m)) && m@ == no_variants_text()),
        variants@.len() > 0 ==> (r matches Ok(v) && v@ == views(variants@)[pick_index(
            views(variants@),
            lowercase(quality@),
        )]),
{
    if variants.len() == 0 {
        return Err(Error::msg("play: no HLS variants in playlist"));
    }
    let qc = chars_of(quality);
    let q = to_lowercase(qc.as_slice());
    Ok(pick_variant_lowered(variants, q.as_slice()))
}

// ---------------------------------------------------------------------------
// Ranking
// ---------------------------------------------------------------------------

/// Variants best first: highest bandwidth, then greatest height; equal
/// ones keep their playlist order (a stable sort).
pub open spec fn ranked(s: Seq<VariantView>) -> Seq<VariantView>
    decreases s.len(),
{
    if s.len() == 0 {
        seq![]
    } else {
        let i = first_best(s, s.len() as int);
        if 0 <= i < s.len() {
            seq![s[i]] + ranked(s.remove(i))
        } else {
            seq![]
        }
    }
}

/// Variants best first (stable).
pub fn ranked_variants(variants: &[Variant]) -> (r: Vec<Variant>)
    ensures
        views(r@) == ranked(views(variants@)),
{
    let mut rem: Vec<Variant> = Vec::new();
    let mut k: usize = 0;
    while k < variants.len()
        invariant
            k <= variants@.len(),
            views(rem@) == views(variants@).take(k as int),
        decreases variants@.len() - k,
    {
        let ghost before = rem@;
        let d = variants[k].duplicate();
        rem.push(d);
        proof {
            assert(rem@ == before.push(d));
            assert(views(rem@) =~= views(before).push(d@));
            assert(views(variants@).take(k + 1) =~= views(variants@).take(k as int).push(
                variants@[k as int]@,
            ));
        }
        k += 1;
    }
    assert(views(variants@).take(variants@.len() as int) =~= views(variants@));
    let mut out: Vec<Variant> = Vec::new();
    while rem.len() > 0
        invariant
            ranked(views(variants@)) == views(out@) + ranked(views(rem@)),
        decreases rem@.len(),
    {
        let i = first_best_index(rem.as_slice());
        let ghost before = views(rem@);
        let ghost out_before = views(out@);
        let v = rem.remove(i);
        out.push(v);
        proof {
            assert(views(rem@) =~= before.remove(i as int));
            assert(views(out@) =~= out_before.push(before[i as int]));
            assert(ranked(before) == seq![before[i as int]] + ranked(before.remove(i as int)));
            assert(views(out@) + ranked(views(rem@)) =~= out_before + ranked(before));
        }
    }
    proof {
        assert(ranked(views(rem@)) =~= Seq::<VariantView>::empty());
        assert(views(out@) + ranked(views(rem@)) =~= views(out@));
    }
    out
}

// ---------------------------------------------------------------------------
// Labels and the quality menu
// ---------------------------------------------------------------------------

/// `720p`, `800000bps` or `unknown`.
pub open spec fn label_text(v: VariantView) -> Seq<char> {
    if v.height > 0 {
        dec(v.height as nat) + "p"@
    } else if v.bandwidth > 0 {
        dec(v.bandwidth as nat) + "bps"@
    } else {
        "unknown"@
    }
}

/// A short label for a variant: its height, else its bandwidth.
pub fn variant_label(v: &Variant) -> (r: String)
    ensures
        r@ == label_text(v@),
{
    let mut out: Vec<char> = Vec::new();
    if v.height > 0 {
        let d = dec_chars(v.height as u64);
        push_all(&mut out, d.as_slice());
        push_str(&mut out, "p");
    } else if v.bandwidth > 0 {
        let d = dec_chars(v.bandwidth);
        push_all(&mut out, d.as_slice());
        push_str(&mut out, "bps");
    } else {
        push_str(&mut out, "unknown");
    }
    string_of(out.as_slice())
}

/// `s` padded with spaces on the right to at least `width` characters
/// (`format!("{s:<width$}")`).
pub open spec fn pad_right(s: Seq<char>, width: nat) -> Seq<char> {
    if s.len() >= width {
        s
    } else {
        s + Seq::new((width - s.len()) as nat, |i: int| ' ')
    }
}

/// One menu line for the variant at 1-based position `n`.
pub open spec fn menu_line(v: VariantView, n: nat) -> Seq<char> {
    let mark = if n == 1 {
        "  [default]"@
    } else {
        ""@
    };
    if v.bandwidth >= 1000 {
        "  "@ + dec(n) + ") "@ + pad_right(label_text(v), 8) + " "@ + dec(
            (v.bandwidth / 1000) as nat,
        ) + " kbps"@ + mark
    } else {
        "  "@ + dec(n) + ") "@ + label_text(v) + mark
    }
}

/// The menu lines for ranked variants.
pub open spec fn menu_lines(r: Seq<VariantView>) -> Seq<Seq<char>> {
    Seq::new(r.len(), |i: int| menu_line(r[i], (i + 1) as nat))
}

fn menu_line_chars(v: &Variant, n: usize) -> (r: Vec<char>)
    ensures
        r@ == menu_line(v@, n as nat),
{
    let mut out: Vec<char> = Vec::new();
    push_str(&mut out, "  ");
    let d = dec_chars(n as u64);
    push_all(&mut out, d.as_slice());
    push_str(&mut out, ") ");
    let label = variant_label(v);
    let lc = chars_of(label.as_str());
    push_all(&mut out, lc.as_slice());
    if v.bandwidth >= 1000 {
        let mut k = lc.len();
        while k < 8
            invariant
                lc@.len() <= k <= 8 || (lc@.len() >= 8 && k == lc@.len()),
                out@ == "  "@ + dec(n as nat) + ") "@ + lc@ + Seq::new(
                    (k - lc@.len()) as nat,
                    |i: int| ' ',
                ),
            decreases 8 - k,
        {
            out.push(' ');
            proof {
                assert(Seq::new((k + 1 - lc@.len()) as nat, |i: int| ' ') =~= Seq::new(
                    (k - lc@.len()) as nat,
                    |i: int| ' ',
                ).push(' '));
            }
            k += 1;
        }
        proof {
            if lc@.len() >= 8 {
                assert(Seq::new(0, |i: int| ' ') =~= Seq::<char>::empty());
                assert(out@ =~= "  "@ + dec(n as nat) + ") "@ + pad_right(lc@, 8));
            } else {
                assert(out@ =~= "  "@ + dec(n as nat) + ") "@ + pad_right(lc@, 8));
            }
        }
        push_str(&mut out, " ");
        let kb = dec_chars(v.bandwidth / 1000);
        push_all(&mut out, kb.as_slice());
        push_str(&mut out, " kbps");
    }
    if n == 1 {
        push_str(&mut out, "  [default]");
    } else {
        push_str(&mut out, "");
    }
    proof {
        assert(out@ =~= menu_line(v@, n as nat));
    }
    out
}

/// The interactive quality menu: one numbered line per variant, best
/// first, the first marked `[default]`.
pub fn format_quality_menu(variants: &[Variant]) -> (r: String)
    ensures
        r@ == join_with(menu_lines(ranked(views(variants@))), "\n"@),
{
    let ranked_v = ranked_variants(variants);
    let ghost rv = views(ranked_v@);
    let mut lines: Vec<Vec<char>> = Vec::new();
    let mut i: usize = 0;
    while i < ranked_v.len()
        invariant
            i <= ranked_v@.len(),
            rv == views(ranked_v@),
            lines@.len() == i,
            forall|k: int| 0 <= k < i ==> #[trigger] lines@[k]@ == menu_line(rv[k], (k + 1) as nat),
        decreases ranked_v@.len() - i,
    {
        let line = menu_line_chars(&ranked_v[i], i + 1);
        lines.push(line);
        i += 1;
    }
    let sep = chars_of("\n");
    let out = join_pieces(&lines, sep.as_slice());
    proof {
        assert(lines@.map_values(|v: Vec<char>| v@) =~= menu_lines(rv));
    }
    string_of(out.as_slice())
}

// ---------------------------------------------------------------------------
// Interactive choice
// ---------------------------------------------------------------------------

/// What `variant_from_choice` does with an answer.
pub enum ChoiceOutcome {
    /// Take the ranked variant at this 0-based position.
    Ranked(int),
    /// The number given is not in the menu.
    OutOfRange(nat),
    /// Treat the answer as a quality name.
    Quality(Seq<char>),
}

/// How an answer (already trimmed and lowercased) is read: empty/`best`/
/// `live` is the first ranked variant, a number picks a menu line, anything
/// else is a quality name.
pub open spec fn choice_outcome(s: Seq<char>, n_variants: nat) -> ChoiceOutcome {
    if s.len() == 0 || s == "best"@ || s == "live"@ {
        ChoiceOutcome::Ranked(0)
    } else {
        match parse_unsigned(s, usize::MAX as nat) {
            Some(n) => if 1 <= n <= n_variants {
                ChoiceOutcome::Ranked(n - 1)
            } else {
                ChoiceOutcome::OutOfRange(n)
            },
            None => ChoiceOutcome::Quality(s),
        }
    }
}

/// The error text for a menu number out of range.
pub open spec fn out_of_range_text(n: nat, len: nat) -> Seq<char> {
    "play: quality "@ + dec(n) + " not in 1.."@ + dec(len)
}

/// Read an answer to the quality menu: Enter (or `best`) takes the
/// default, a number takes that menu line, a quality name is picked as
/// `pick_variant` does.
pub fn variant_from_choice(variants: &[Variant], raw: &str) -> (r: Result<Variant, Error>)
    ensures
        variants@.len() == 0 ==> (r matches Err(Error::Message(m)) && m@ == no_variants_text()),
        variants@.len() > 0 ==> {
            let s = lowercase(trim(raw@));
            let vs = views(variants@);
            match choice_outcome(s, vs.len()) {
                ChoiceOutcome::Ranked(k) => r matches Ok(v) && v@ == ranked(vs)[k],
                ChoiceOutcome::OutOfRange(n) => r matches Err(Error::Message(m)) && m@
                    == out_of_range_text(n, vs.len()),
                ChoiceOutcome::Quality(q) => r matches Ok(v) && v@ == vs[pick_index(
                    vs,
                    lowercase(q),
                )],
            }
        },
{
    if variants.len() == 0 {
        return Err(Error::msg("play: no HLS variants in playlist"));
    }
    let ranked_v = ranked_variants(variants);
    proof {
        lemma_ranked_len(views(variants@));
    }
    let rc = chars_of(raw);
    let t = trim_chars(rc.as_slice());
    let s = to_lowercase(t.as_slice());
    if s.len() == 0 || eq_str(s.as_slice(), "best") || eq_str(s.as_slice(), "live") {
        return Ok(ranked_v[0].duplicate());
    }
    match parse_uint(s.as_slice(), usize::MAX as u64) {
        Some(n) => {
            if 1 <= n && n <= ranked_v.len() as u64 {
                let k = (n - 1) as usize;
                return Ok(ranked_v[k].duplicate());
            }
            let mut m: Vec<char> = Vec::new();
            push_str(&mut m, "play: quality ");
            let d = dec_chars(n);
            push_all(&mut m, d.as_slice());
            push_str(&mut m, " not in 1..");
            let l = dec_chars(ranked_v.len() as u64);
            push_all(&mut m, l.as_slice());
            let text = string_of(m.as_slice());
            Err(Error::msg(text.as_str()))
        },
        None => {
            let s2 = to_lowercase(s.as_slice());
            Ok(pick_variant_lowered(variants, s2.as_slice()))
        },
    }
}

/// `ranked` keeps the number of variants.
pub proof fn lemma_ranked_len(s: Seq<VariantView>)
    ensures
        ranked(s).len() == s.len(),
    decreases s.len(),
{
    if s.len() > 0 {
        let i = first_best(s, s.len() as int);
        lemma_first_best_range(s, s.len() as int);
        lemma_ranked_len(s.remove(i));
    }
}

/// Whether choosing a variant needs an answer from the user: no quality
/// was given, the session is interactive and there is a real choice.
pub open spec fn prompt_needed(n_variants: nat, quality_given: bool, interactive: bool) -> bool {
    n_variants > 0 && !quality_given && n_variants != 1 && interactive
}

/// Whether `choose_variant` would ask the user.
pub fn needs_prompt(variants: &[Variant], quality: Option<&str>, interactive: bool) -> (b: bool)
    ensures
        b == prompt_needed(variants@.len(), quality is Some, interactive),
{
    variants.len() > 0 && quality.is_none() && variants.len() != 1 && interactive
}

/// Choose a variant: a given quality is picked; with one variant or no
/// terminal the best is taken; otherwise `answer` (what the user typed at
/// the quality menu, empty for Enter) is read by `variant_from_choice`.
pub fn choose_variant(
    variants: &[Variant],
    quality: Option<&str>,
    interactive: bool,
    answer: Option<&str>,
) -> (r: Result<Variant, Error>)
    ensures
        variants@.len() == 0 ==> (r matches Err(Error::Message(m)) && m@ == no_variants_text()),
        variants@.len() > 0 ==> match quality {
            Some(q) => r matches Ok(v) && v@ == views(variants@)[pick_index(
                views(variants@),
                lowercase(q@),
            )],
            None => if !prompt_needed(variants@.len(), false, interactive) {
                r matches Ok(v) && v@ == views(variants@)[pick_index(
                    views(variants@),
                    lowercase("best"@),
                )]
            } else {
                let raw = match answer {
                    Some(a) => a@,
                    None => ""@,
                };
                let s = lowercase(trim(raw));
                let vs = views(variants@);
                match choice_outcome(s, vs.len()) {
                    ChoiceOutcome::Ranked(k) => r matches Ok(v) && v@ == ranked(vs)[k],
                    ChoiceOutcome::OutOfRange(n) => r matches Err(Error::Message(m)) && m@
                        == out_of_range_text(n, vs.len()),
                    ChoiceOutcome::Quality(q) => r matches Ok(v) && v@ == vs[pick_index(
                        vs,
                        lowercase(q),
                    )],
                }
            },
        },
{
    if variants.len() == 0 {
        return Err(Error::msg("play: no HLS variants in playlist"));
    }
    if let Some(q) = quality {
        return pick_variant(variants, q);
    }
    if variants.len() == 1 || !interactive {
        return pick_variant(variants, "best");
    }
    let raw = match answer {
        Some(a) => a,
        None => "",
    };
    variant_from_choice(variants, raw)
}

} // verus!
