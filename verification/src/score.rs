//! Ranking names against what was typed: subsequence walks, typo-tolerant
//! similarity, and the scores built from them.

use vstd::multiset::Multiset;
use crate::paths::{components_of, depth};
use crate::rounding::{
    Fraction, SINGLE, lemma_rounded_at_most, lemma_rounded_whole_at_least, round_quotient,
    round_whole, rounded, rounded_whole,
};
use crate::text::{
    ascii_lowered, chars_of, contains, find_char, found_in, is_ascii_text, lemma_until,
    lemma_utf8_size_bounds, lowercase, rsplit_once, same, split_last, starts_with, to_ascii_lower,
    until, utf8_len, utf8_size,
};
use vstd::prelude::*;

verus! {

/// Scores of whole names stay within this bound on either side of zero.
pub const SCORE_BOUND: i128 = 0x4000_0000_0000_0100_0000_0000_0000_0000;

// ----- the subsequence walk ------------------------------------------------------------

/// The characters behind which a new word begins.
pub open spec fn is_boundary(c: char) -> bool {
    c == '/' || c == ' ' || c == '_' || c == '-' || c == '.'
}

/// Whether a new word begins behind `c`.
pub fn is_word_boundary(c: char) -> (r: bool)
    ensures
        r == is_boundary(c),
{
    c == '/' || c == ' ' || c == '_' || c == '-' || c == '.'
}

/// What a match at `pos` is worth when the match before it was at `last`:
/// six for a run, ten for the start of a word, less a quarter of the position.
pub open spec fn step_gain(h: Seq<char>, pos: int, last: int) -> int {
    (if pos == last + 1 {
        6int
    } else {
        0
    }) + (if pos == 0 || is_boundary(h[pos - 1]) {
        10int
    } else {
        0
    }) - pos / 4
}

/// Walks `h` from `from` on, matching each character of `q` at its first place:
/// the gains of the matches, or nothing if some character finds no place.
pub open spec fn walk(q: Seq<char>, h: Seq<char>, from: int, last: int) -> Option<int>
    decreases q.len(),
{
    if q.len() == 0 {
        Some(0)
    } else {
        let pos = from + until(h.skip(from), q[0]);
        if pos >= h.len() {
            None
        } else {
            match walk(q.skip(1), h, pos + 1, pos) {
                Some(gain) => Some(gain + step_gain(h, pos, last)),
                None => None,
            }
        }
    }
}

/// `q` spelled by characters of `h` in order, at the positions `f`, none before
/// `from`.
pub open spec fn spelled_at(q: Seq<char>, h: Seq<char>, from: int, f: Seq<int>) -> bool {
    &&& f.len() == q.len()
    &&& forall|i: int| 0 <= i < f.len() ==> from <= #[trigger] f[i] < h.len() && h[f[i]] == q[i]
    &&& forall|i: int, j: int| 0 <= i < j < f.len() ==> #[trigger] f[i] < #[trigger] f[j]
}

/// Whether `q` is a subsequence of `h`.
pub open spec fn is_subsequence(q: Seq<char>, h: Seq<char>) -> bool {
    exists|f: Seq<int>| spelled_at(q, h, 0, f)
}

/// The walk succeeds for exactly the subsequences.
pub proof fn law_walk_finds_subsequences(q: Seq<char>, h: Seq<char>)
    ensures
        walk(q, h, 0, -2) is Some <==> is_subsequence(q, h),
{
    if is_subsequence(q, h) {
        let f = choose|f: Seq<int>| spelled_at(q, h, 0, f);
        lemma_walk_complete(q, h, 0, -2, f);
    }
    if walk(q, h, 0, -2) is Some {
        lemma_walk_sound(q, h, 0, -2);
    }
}

proof fn lemma_walk_complete(q: Seq<char>, h: Seq<char>, from: int, last: int, f: Seq<int>)
    requires
        0 <= from <= h.len(),
        spelled_at(q, h, from, f),
    ensures
        walk(q, h, from, last) is Some,
    decreases q.len(),
{
    if q.len() > 0 {
        let rest = h.skip(from);
        lemma_until(rest, q[0]);
        let u = until(rest, q[0]) as int;
        let at = f[0] - from;
        assert(rest[at] == q[0]);
        assert(u <= at) by {
            if u > at {
                assert(rest[at] != q[0]);
            }
        }
        let g = f.skip(1);
        assert forall|i: int| 0 <= i < g.len() implies from + u + 1 <= #[trigger] g[i] < h.len()
            && h[g[i]] == q.skip(1)[i] by {
            assert(g[i] == f[i + 1]);
            assert(f[0] < f[i + 1]);
        }
        assert forall|i: int, j: int| 0 <= i < j < g.len() implies #[trigger] g[i]
            < #[trigger] g[j] by {
            assert(f[i + 1] < f[j + 1]);
        }
        lemma_walk_complete(q.skip(1), h, from + u + 1, from + u, g);
    }
}

proof fn lemma_walk_sound(q: Seq<char>, h: Seq<char>, from: int, last: int) -> (f: Seq<int>)
    requires
        0 <= from <= h.len(),
        walk(q, h, from, last) is Some,
    ensures
        spelled_at(q, h, from, f),
    decreases q.len(),
{
    if q.len() == 0 {
        Seq::empty()
    } else {
        let rest = h.skip(from);
        lemma_until(rest, q[0]);
        let pos = from + until(rest, q[0]);
        let g = lemma_walk_sound(q.skip(1), h, pos + 1, pos);
        let f = seq![pos] + g;
        assert(h[pos] == q[0]) by {
            assert(rest[pos - from] == q[0]);
        }
        assert forall|i: int| 0 <= i < f.len() implies from <= #[trigger] f[i] < h.len()
            && h[f[i]] == q[i] by {
            if i > 0 {
                assert(f[i] == g[i - 1]);
                assert(q[i] == q.skip(1)[i - 1]);
            }
        }
        assert forall|i: int, j: int| 0 <= i < j < f.len() implies #[trigger] f[i]
            < #[trigger] f[j] by {
            assert(f[j] == g[j - 1]);
            if i > 0 {
                assert(f[i] == g[i - 1]);
            }
        }
        f
    }
}

/// Walks `h`, matching each character of `q` at its first place.
pub fn walk_matches(q: &Vec<char>, h: &Vec<char>) -> (r: Option<i128>)
    ensures
        opt_score(r) == walk(q@, h@, 0, -2),
        r matches Some(g) ==> -0x4000_0000_0000_0000_0000_0000_0000_0000 <= g
            <= 0x10_0000_0000_0000_0000,
{
    let mut i: usize = 0;
    let mut hi: usize = 0;
    let mut score: i128 = 0;
    let mut last: i128 = -2;
    let quarter: i128 = (h.len() / 4) as i128;
    proof {
        assert(q@.skip(0) == q@);
    }
    while i < q.len()
        invariant
            i <= q.len(),
            hi <= h.len(),
            quarter == h.len() / 4,
            -2 <= last < h.len(),
            -(i * quarter) <= score <= 16 * i,
            walk(q@, h@, 0, -2) == (match walk(q@.skip(i as int), h@, hi as int, last as int) {
                Some(g) => Some(g + score),
                None => None,
            }),
        decreases q.len() - i,
    {
        let pos = find_char(h, hi, q[i]);
        proof {
            assert(q@.skip(i as int)[0] == q@[i as int]);
            assert(q@.skip(i as int).skip(1) == q@.skip(i + 1));
            assert((i + 1) * quarter == i * quarter + quarter) by (nonlinear_arith);
            assert(i * quarter <= 0xffff_ffff_ffff_ffff * 0x3fff_ffff_ffff_ffff)
                by (nonlinear_arith)
                requires
                    0 <= i <= 0xffff_ffff_ffff_ffff,
                    0 <= quarter <= 0x3fff_ffff_ffff_ffff,
            ;
            assert((i + 1) * quarter <= 0x1_0000_0000_0000_0000 * 0x3fff_ffff_ffff_ffff)
                by (nonlinear_arith)
                requires
                    0 <= i <= 0xffff_ffff_ffff_ffff,
                    0 <= quarter <= 0x3fff_ffff_ffff_ffff,
            ;
        }
        if pos >= h.len() {
            return None;
        }
        let mut gain: i128 = 0;
        if pos as i128 == last + 1 {
            gain = gain + 6;
        }
        if pos == 0 || is_word_boundary(h[pos - 1]) {
            gain = gain + 10;
        }
        gain = gain - (pos / 4) as i128;
        proof {
            assert(gain == step_gain(h@, pos as int, last as int));
        }
        score = score + gain;
        last = pos as i128;
        hi = pos + 1;
        i += 1;
    }
    proof {
        assert(i * quarter <= 0xffff_ffff_ffff_ffff * 0x3fff_ffff_ffff_ffff) by (nonlinear_arith)
            requires
                0 <= i <= 0xffff_ffff_ffff_ffff,
                0 <= quarter <= 0x3fff_ffff_ffff_ffff,
        ;
    }
    Some(score)
}

// ----- shared pairs of neighbours ------------------------------------------------------

/// The pairs of neighbouring characters of a text, in order.
pub open spec fn pairs_of(s: Seq<char>) -> Seq<(char, char)> {
    Seq::new(
        (if s.len() == 0 {
            0
        } else {
            s.len() - 1
        }) as nat,
        |i: int| (s[i], s[i + 1]),
    )
}

/// The pairs of neighbouring characters of `cs`.
pub fn char_pairs(cs: &Vec<char>) -> (r: Vec<(char, char)>)
    ensures
        r@ == pairs_of(cs@),
{
    let mut out: Vec<(char, char)> = Vec::new();
    let mut i: usize = 1;
    while i < cs.len()
        invariant
            1 <= i,
            cs.len() == 0 ==> i == 1,
            cs.len() > 0 ==> i <= cs.len(),
            out@ == pairs_of(cs@).take(i - 1),
        decreases cs.len() - i,
    {
        proof {
            assert(pairs_of(cs@).take(i as int) == pairs_of(cs@).take(i - 1).push(
                (cs@[i - 1], cs@[i as int]),
            ));
        }
        out.push((cs[i - 1], cs[i]));
        i += 1;
    }
    proof {
        assert(pairs_of(cs@).take(i - 1) == pairs_of(cs@));
    }
    out
}

/// The pairs of neighbouring characters of a text.
pub fn bigrams(s: &str) -> (r: Vec<(char, char)>)
    ensures
        r@ == pairs_of(s@),
{
    let cs = chars_of(s);
    char_pairs(&cs)
}

/// How many pairs two lists share, counting repeats.
pub open spec fn shared(a: Seq<(char, char)>, b: Seq<(char, char)>) -> nat {
    a.to_multiset().intersection_with(b.to_multiset()).len()
}

proof fn lemma_shared_step(a: Multiset<(char, char)>, b: Multiset<(char, char)>, x: (char, char))
    requires
        a.count(x) > 0,
    ensures
        b.count(x) > 0 ==> a.intersection_with(b).len() == 1 + a.remove(x).intersection_with(
            b.remove(x),
        ).len(),
        b.count(x) == 0 ==> a.intersection_with(b).len() == a.remove(x).intersection_with(b).len(),
{
    broadcast use vstd::multiset::group_multiset_axioms;
    broadcast use vstd::multiset::lemma_intersection_count;

    if b.count(x) > 0 {
        assert(a.intersection_with(b) =~= a.remove(x).intersection_with(b.remove(x)).insert(x));
        assert(a.intersection_with(b).len() == a.remove(x).intersection_with(b.remove(x)).insert(
            x,
        ).len());
    } else {
        assert(a.intersection_with(b) =~= a.remove(x).intersection_with(b));
    }
}

proof fn lemma_shared_bounds(a: Seq<(char, char)>, b: Seq<(char, char)>)
    ensures
        shared(a, b) <= a.len(),
{
    broadcast use vstd::multiset::group_multiset_axioms;
    broadcast use vstd::multiset::lemma_intersection_count;
    broadcast use vstd::seq_lib::group_to_multiset_ensures;

    let m = a.to_multiset();
    let n = b.to_multiset();
    assert(m.intersection_with(n).subset_of(m));
    assert(m.sub(m.intersection_with(n)).len() == m.len() - m.intersection_with(n).len());
    assert(m.len() == a.len());
}

/// How many of the pairs `a` are shared with the first `cap` of the pairs `b`.
pub fn shared_pairs(a: &Vec<(char, char)>, b: &Vec<(char, char)>, cap: usize) -> (r: usize)
    requires
        cap <= b.len(),
    ensures
        r == shared(a@, b@.take(cap as int)),
        r <= a.len(),
{
    let mut rest: Vec<(char, char)> = Vec::new();
    let mut k: usize = 0;
    while k < cap
        invariant
            k <= cap <= b.len(),
            rest@ == b@.take(k as int),
        decreases cap - k,
    {
        rest.push(b[k]);
        k += 1;
    }
    let mut i: usize = 0;
    let mut n: usize = 0;
    proof {
        assert(a@.skip(0) == a@);
    }
    while i < a.len()
        invariant
            i <= a.len(),
            n <= i,
            n + shared(a@.skip(i as int), rest@) == shared(a@, b@.take(cap as int)),
        decreases a.len() - i,
    {
        let g = a[i];
        let ghost m = a@.skip(i as int);
        proof {
            assert(m[0] == g);
            assert(m.remove(0) == a@.skip(i + 1));
            vstd::seq_lib::to_multiset_remove(m, 0);
            vstd::seq_lib::to_multiset_contains(m, g);
            lemma_shared_step(m.to_multiset(), rest@.to_multiset(), g);
            vstd::seq_lib::to_multiset_contains(rest@, g);
        }
        let mut j: usize = 0;
        while j < rest.len() && !(rest[j].0 == g.0 && rest[j].1 == g.1)
            invariant
                j <= rest.len(),
                forall|t: int| 0 <= t < j ==> #[trigger] rest@[t] != g,
            decreases rest.len() - j,
        {
            j += 1;
        }
        if j < rest.len() {
            proof {
                assert(rest@[j as int] == g);
                assert(rest@.contains(g));
                vstd::seq_lib::to_multiset_remove(rest@, j as int);
            }
            rest.remove(j);
            n += 1;
        }
        i += 1;
    }
    proof {
        lemma_shared_bounds(a@.skip(i as int), rest@);
    }
    n
}

/// Twice the shared pairs over all pairs, in single precision.
pub open spec fn similarity(inter: nat, total: nat) -> (nat, nat) {
    rounded(2 * rounded_whole(inter, SINGLE as nat), rounded_whole(total, SINGLE as nat), SINGLE as nat)
}

/// The Sørensen–Dice similarity of two texts over their pairs of neighbours.
pub open spec fn dice_of(a: Seq<char>, b: Seq<char>) -> (nat, nat) {
    let x = pairs_of(a);
    let y = pairs_of(b);
    if x.len() == 0 || y.len() == 0 {
        (
            if a == b {
                1
            } else {
                0
            },
            1,
        )
    } else {
        similarity(shared(x, y), x.len() + y.len())
    }
}

/// A similarity that can be scaled without leaving the range of the arithmetic.
pub open spec fn modest(d: (nat, nat)) -> bool {
    0 < d.1 <= 0x1000_0000_0000_0000_0000_0000 && d.0 <= 16 * d.1
}

fn similarity_of(inter: usize, total: u128) -> (r: Fraction)
    requires
        0 < total < 0x4_0000_0000_0000_0000,
        inter <= total,
    ensures
        r@ == similarity(inter as nat, total as nat),
        modest(r@),
{
    let a: u128 = round_whole(inter as u128, SINGLE);
    let b: u128 = round_whole(total, SINGLE);
    let r = round_quotient(2 * a, b, SINGLE);
    proof {
        assert(2 * (2 * a) * r.den == (4 * a) * r.den) by (nonlinear_arith);
        assert((4 * a) * r.den <= (16 * b) * r.den) by (nonlinear_arith)
            requires
                4 * a <= 16 * b,
                r.den >= 0,
        ;
        assert((16 * b) * r.den == (16 * r.den) * b) by (nonlinear_arith);
        assert(r.num <= 16 * r.den) by (nonlinear_arith)
            requires
                r.num * b <= (16 * r.den) * b,
                b >= 1,
        ;
    }
    r
}

/// The Sørensen–Dice similarity of two texts: one for the same pairs of
/// neighbours, zero for none in common. Tolerates typos and transpositions.
pub fn dice(a: &str, b: &str) -> (r: Fraction)
    ensures
        r@ == dice_of(a@, b@),
        modest(r@),
{
    let x = bigrams(a);
    let y = bigrams(b);
    if x.len() == 0 || y.len() == 0 {
        let one: u128 = if same(a, b) {
            1
        } else {
            0
        };
        return Fraction { num: one, den: 1 };
    }
    let n = shared_pairs(&x, &y, y.len());
    proof {
        assert(y@.take(y.len() as int) == y@);
    }
    similarity_of(n, x.len() as u128 + y.len() as u128)
}

/// Whether a similarity is at least one half.
pub open spec fn at_least_half(d: (nat, nat)) -> bool {
    2 * d.0 >= d.1
}

/// Whether a similarity is at least 0.6 in single precision, which is
/// 10066330 / 2^24.
pub open spec fn at_least_three_fifths(d: (nat, nat)) -> bool {
    0x100_0000 * d.0 >= 10_066_330 * d.1
}

/// A similarity times `k` in single precision, cut to a whole number.
pub open spec fn points(d: (nat, nat), k: nat) -> nat {
    let v = rounded(d.0 * k, d.1, SINGLE as nat);
    v.0 / v.1
}

fn points_of(d: &Fraction, k: u128) -> (r: i128)
    requires
        modest(d@),
        k <= 5000,
    ensures
        r == points(d@, k as nat),
        0 <= r <= 200_000,
{
    proof {
        assert(d.num * k <= (16 * d.den) * 5000) by (nonlinear_arith)
            requires
                d.num <= 16 * d.den,
                k <= 5000,
                d.num >= 0,
                k >= 0,
        ;
    }
    let v = round_quotient(d.num * k, d.den, SINGLE);
    proof {
        let num = d.num * k;
        let den = d.den as int;
        let w = v.den as int;
        assert(2 * num * w <= (160_000 * w) * den) by (nonlinear_arith)
            requires
                num <= 80_000 * den,
                w >= 0,
        ;
        assert(v.num <= 160_000 * w) by (nonlinear_arith)
            requires
                v.num * den <= (160_000 * w) * den,
                den >= 1,
        ;
        vstd::arithmetic::div_mod::lemma_div_is_ordered(v.num as int, 160_000 * w, w);
        vstd::arithmetic::div_mod::lemma_div_multiples_vanish(160_000, w);
        assert(160_000 * w == w * 160_000) by (nonlinear_arith);
        vstd::arithmetic::div_mod::lemma_div_pos_is_pos(v.num as int, w);
    }
    let q: u128 = v.num / v.den;
    q as i128
}

// ----- scores --------------------------------------------------------------------------

/// How well `n` is spelled by `h`: the gains of the walk less an eighth of the
/// length; nothing if it is not spelled by it.
pub open spec fn spelling(n: Seq<char>, h: Seq<char>) -> Option<int> {
    if n.len() == 0 {
        Some(0)
    } else {
        match walk(n, h, 0, -2) {
            Some(gain) => Some(gain - h.len() as int / 8),
            None => None,
        }
    }
}

/// How well `needle` is spelled by `haystack`, case aside.
pub open spec fn fuzzy(needle: Seq<char>, haystack: Seq<char>) -> Option<int> {
    spelling(lowercase(needle), lowercase(haystack))
}

/// An optional score, as a mathematical integer.
pub open spec fn opt_score(r: Option<i128>) -> Option<int> {
    match r {
        Some(v) => Some(v as int),
        None => None,
    }
}

/// Whether a score is within a quarter of the range of its type.
pub open spec fn bounded(r: Option<i128>, slack: int) -> bool {
    r matches Some(v) ==> -SCORE_BOUND - slack <= v <= SCORE_BOUND + slack
}

/// The subsequence score of two texts that are lowercased already.
fn spelling_score(needle: &str, haystack: &str) -> (r: Option<i128>)
    ensures
        opt_score(r) == spelling(needle@, haystack@),
        bounded(r, 0),
{
    let n = chars_of(needle);
    let h = chars_of(haystack);
    if n.len() == 0 {
        return Some(0);
    }
    match walk_matches(&n, &h) {
        Some(gain) => Some(gain - (h.len() / 8) as i128),
        None => None,
    }
}

/// The case-insensitive subsequence score of `needle` against `haystack`.
pub fn fuzzy_score(needle: &str, haystack: &str) -> (r: Option<i128>)
    ensures
        opt_score(r) == fuzzy(needle@, haystack@),
        bounded(r, 0),
{
    let n = needle.to_lowercase();
    let h = haystack.to_lowercase();
    spelling_score(n.as_str(), h.as_str())
}

/// The score of a directory entry against the find query: 100000 for the same
/// name, then prefixes, then subsequences, then close typos, each less a
/// quarter of the name's length in bytes; nothing for anything else.
pub open spec fn find_value(q: Seq<char>, name: Seq<char>) -> Option<int> {
    let ql = lowercase(q);
    let nl = lowercase(name);
    let penalty = utf8_size(nl) as int / 4;
    if nl == ql {
        Some(100_000)
    } else if ql.is_prefix_of(nl) {
        Some(50_000 - penalty)
    } else {
        match spelling(ql, nl) {
            Some(f) => Some(10_000 + f - penalty),
            None => if at_least_half(dice_of(ql, nl)) {
                Some(points(dice_of(ql, nl), 5000) as int - penalty)
            } else {
                None
            },
        }
    }
}

/// Scores one directory entry against the find query.
pub fn find_score(q: &str, name: &str) -> (r: Option<i128>)
    ensures
        opt_score(r) == find_value(q@, name@),
        bounded(r, 0x40_0000_0000_0000_0000),
{
    let ql = q.to_lowercase();
    let nl = name.to_lowercase();
    let bytes: u128 = utf8_len(nl.as_str());
    let penalty: i128 = (bytes / 4) as i128;
    if same(nl.as_str(), ql.as_str()) {
        return Some(100_000);
    }
    if starts_with(nl.as_str(), ql.as_str()) {
        return Some(50_000 - penalty);
    }
    match spelling_score(ql.as_str(), nl.as_str()) {
        Some(f) => {
            return Some(10_000 + f - penalty);
        },
        None => {},
    }
    let d = dice(ql.as_str(), nl.as_str());
    if 2 * d.num >= d.den {
        return Some(points_of(&d, 5000) - penalty);
    }
    None
}

/// What a name gains for being, beginning with, or holding what was typed.
pub open spec fn literal_gain(p: Seq<char>, n: Seq<char>) -> int {
    (if n == p {
        10_000int
    } else {
        0
    }) + (if p.is_prefix_of(n) {
        4_000int
    } else {
        0
    }) + (if found_in(n, p) {
        1_500int
    } else {
        0
    })
}

fn literal_score(p: &str, n: &str) -> (r: i128)
    ensures
        r == literal_gain(p@, n@),
        0 <= r <= 15_500,
{
    let mut score: i128 = 0;
    if same(n, p) {
        score = score + 10_000;
    }
    if starts_with(n, p) {
        score = score + 4_000;
    }
    if contains(n, p) {
        score = score + 1_500;
    }
    score
}

/// The score of a name against the beginning of a name that was typed.
pub open spec fn match_value(partial: Seq<char>, name: Seq<char>) -> int {
    let p = lowercase(partial);
    let n = lowercase(name);
    if p.len() == 0 {
        0
    } else {
        literal_gain(p, n) + (match fuzzy(p, n) {
            Some(f) => 800 + f,
            None => 0,
        }) + points(dice_of(p, n), 2000) - utf8_size(n) as int / 4
    }
}

/// Scores a candidate name against a partial one, tolerating typos.
pub fn match_score(partial: &str, name: &str) -> (r: i128)
    ensures
        r == match_value(partial@, name@),
        -SCORE_BOUND - 0x40_0000_0000_0000_0000 <= r <= SCORE_BOUND + 0x40_0000_0000_0000_0000,
{
    let p = partial.to_lowercase();
    let n = name.to_lowercase();
    if p.as_str().is_empty() {
        return 0;
    }
    let mut score: i128 = literal_score(p.as_str(), n.as_str());
    match fuzzy_score(p.as_str(), n.as_str()) {
        Some(f) => {
            score = score + 800 + f;
        },
        None => {},
    }
    let d = dice(p.as_str(), n.as_str());
    score = score + points_of(&d, 2000);
    let bytes: u128 = utf8_len(n.as_str());
    score - (bytes / 4) as i128
}

/// Whether `q` asks for the settings: it begins one of their names, or nearly
/// spells one.
pub open spec fn asks_for_settings(q: Seq<char>) -> bool {
    let ql = lowercase(q);
    let near = |a: Seq<char>| ql.is_prefix_of(a) || at_least_three_fifths(dice_of(ql, a));
    near("settings"@) || near("preferences"@) || near("config"@)
}

fn near_alias(ql: &str, alias: &str) -> (r: bool)
    ensures
        r == (ql@.is_prefix_of(alias@) || at_least_three_fifths(dice_of(ql@, alias@))),
{
    if starts_with(alias, ql) {
        return true;
    }
    let d = dice(ql, alias);
    0x100_0000 * d.num >= 10_066_330 * d.den
}

/// Whether the palette should offer the settings for `q`.
pub fn settings_match(q: &str) -> (r: bool)
    ensures
        r == asks_for_settings(q@),
{
    let ql = q.to_lowercase();
    near_alias(ql.as_str(), "settings") || near_alias(ql.as_str(), "preferences") || near_alias(
        ql.as_str(),
        "config",
    )
}

// ----- ranking index entries -----------------------------------------------------------

/// How well a name spells the query: the gains of the walk less an eighth of the
/// name's length. Only ASCII letters of the name are lowercased.
pub open spec fn index_value(q: Seq<char>, name: Seq<char>) -> Option<int> {
    match walk(q, ascii_lowered(name), 0, -2) {
        Some(gain) => Some(gain - name.len() as int / 8),
        None => None,
    }
}

/// The subsequence score of an index entry. `query` is lowercased already.
pub fn index_score(query: &Vec<char>, name: &str) -> (r: Option<i128>)
    ensures
        opt_score(r) == index_value(query@, name@),
        bounded(r, 0),
{
    let low = to_ascii_lower(name);
    let h = chars_of(low.as_str());
    match walk_matches(query, &h) {
        Some(gain) => Some(gain - (h.len() / 8) as i128),
        None => None,
    }
}

/// What a name loses for being longer than the query.
pub open spec fn coverage_loss(name_len: nat, query_len: nat) -> int {
    if name_len > query_len {
        (name_len - query_len) * 4
    } else {
        0
    }
}

fn coverage(name: &str, query_len: usize) -> (r: i128)
    ensures
        r == coverage_loss(name@.len(), query_len as nat),
        0 <= r <= 0x4_0000_0000_0000_0000,
{
    let n = chars_of(name);
    if n.len() > query_len {
        ((n.len() - query_len) as i128) * 4
    } else {
        0
    }
}

/// The full rank of one candidate whose name spells the query: exact names and
/// stems first, then prefixes and infixes; long names and deep paths lose;
/// directories gain a little.
pub open spec fn entry_value(
    q: Seq<char>,
    q_str: Seq<char>,
    name: Seq<char>,
    path: Seq<char>,
    is_dir: bool,
) -> Option<int> {
    match index_value(q, name) {
        None => None,
        Some(s) => {
            let low = lowercase(name);
            let stem = match split_last(low, '.') {
                Some((a, _)) => a,
                None => low,
            };
            Some(
                s + (if low == q_str {
                    100_000int
                } else if stem == q_str {
                    60_000
                } else {
                    0
                }) + (if q_str.is_prefix_of(low) {
                    5_000int
                } else if found_in(low, q_str) {
                    1_500
                } else {
                    0
                }) - coverage_loss(name.len(), q.len()) - components_of(path).len() * 8 + (
                if is_dir {
                    40int
                } else {
                    0
                }),
            )
        },
    }
}

/// Ranks one candidate whose name spells the query.
pub fn score_entry(q: &Vec<char>, q_str: &str, name: &str, path: &str, is_dir: bool) -> (r: Option<
    i128,
>)
    ensures
        opt_score(r) == entry_value(q@, q_str@, name@, path@, is_dir),
        bounded(r, 0x40_0000_0000_0000_0000),
{
    let mut score: i128 = match index_score(q, name) {
        Some(s) => s,
        None => {
            return None;
        },
    };
    let low = name.to_lowercase();
    if same(low.as_str(), q_str) {
        score = score + 100_000;
    } else {
        let stem: String = match rsplit_once(low.as_str(), '.') {
            Some((a, _)) => a,
            None => low.clone(),
        };
        if same(stem.as_str(), q_str) {
            score = score + 60_000;
        }
    }
    if starts_with(low.as_str(), q_str) {
        score = score + 5_000;
    } else if contains(low.as_str(), q_str) {
        score = score + 1_500;
    }
    score = score - coverage(name, q.len());
    score = score - (depth(path) as i128) * 8;
    if is_dir {
        score = score + 40;
    }
    Some(score)
}

/// The similarity of a name to the pairs of a query, over the first 64 of them.
pub open spec fn name_similarity(q_pairs: Seq<(char, char)>, name: Seq<char>) -> (nat, nat) {
    let n = pairs_of(ascii_lowered(name));
    let cap = if q_pairs.len() < 64 {
        q_pairs.len() as int
    } else {
        64
    };
    if q_pairs.len() == 0 || n.len() == 0 {
        (0, 1)
    } else {
        similarity(shared(n, q_pairs.take(cap)), q_pairs.len() + n.len())
    }
}

/// The similarity of a name to the pairs of a query.
pub fn name_bigram_dice(q_bigrams: &Vec<(char, char)>, name: &str) -> (r: Fraction)
    ensures
        r@ == name_similarity(q_bigrams@, name@),
        modest(r@),
{
    let qn: usize = q_bigrams.len();
    let low = to_ascii_lower(name);
    let n = bigrams(low.as_str());
    if qn == 0 || n.len() == 0 {
        return Fraction { num: 0, den: 1 };
    }
    let cap: usize = if qn < 64 {
        qn
    } else {
        64
    };
    let inter = shared_pairs(&n, q_bigrams, cap);
    similarity_of(inter, qn as u128 + n.len() as u128)
}

/// The rank of a candidate: that of a name that spells the query, or else one
/// for a name that is similar enough.
pub open spec fn rank_value(
    q: Seq<char>,
    q_str: Seq<char>,
    q_pairs: Seq<(char, char)>,
    name: Seq<char>,
    path: Seq<char>,
    is_dir: bool,
) -> Option<int> {
    match entry_value(q, q_str, name, path, is_dir) {
        Some(s) => Some(s),
        None => {
            let sim = name_similarity(q_pairs, name);
            if at_least_half(sim) {
                Some(
                    points(sim, 1500) - coverage_loss(name.len(), q.len()) - components_of(
                        path,
                    ).len() * 8 + (if is_dir {
                        40int
                    } else {
                        0
                    }),
                )
            } else {
                None
            }
        },
    }
}

/// Ranks one candidate, falling back on similarity for misspelled queries.
pub fn rank_entry(
    q: &Vec<char>,
    q_str: &str,
    q_bigrams: &Vec<(char, char)>,
    name: &str,
    path: &str,
    is_dir: bool,
) -> (r: Option<i128>)
    ensures
        opt_score(r) == rank_value(q@, q_str@, q_bigrams@, name@, path@, is_dir),
{
    match score_entry(q, q_str, name, path, is_dir) {
        Some(s) => {
            return Some(s);
        },
        None => {},
    }
    let sim = name_bigram_dice(q_bigrams, name);
    if 2 * sim.num < sim.den {
        return None;
    }
    let mut score: i128 = points_of(&sim, 1500);
    score = score - coverage(name, q.len());
    score = score - (depth(path) as i128) * 8;
    if is_dir {
        score = score + 40;
    }
    Some(score)
}

/// What a walk can gain or lose.
pub proof fn lemma_walk_bounds(q: Seq<char>, h: Seq<char>, from: int, last: int)
    requires
        0 <= from <= h.len(),
    ensures
        walk(q, h, from, last) matches Some(gain) ==> -(q.len() * h.len()) <= 4 * gain
            && gain <= 16 * q.len(),
    decreases q.len(),
{
    if q.len() > 0 {
        let pos = from + until(h.skip(from), q[0]);
        lemma_until(h.skip(from), q[0]);
        if pos < h.len() {
            lemma_walk_bounds(q.skip(1), h, pos + 1, pos);
            assert(q.len() * h.len() == q.skip(1).len() * h.len() + h.len()) by (nonlinear_arith)
                requires
                    q.skip(1).len() == q.len() - 1,
            ;
        }
    } else {
        assert(q.len() * h.len() == 0) by (nonlinear_arith)
            requires
                q.len() == 0,
        ;
    }
}

/// Sharing is mutual, and shares at most what there is.
pub proof fn lemma_shared_symmetric(a: Seq<(char, char)>, b: Seq<(char, char)>)
    ensures
        shared(a, b) == shared(b, a),
        shared(a, b) <= a.len(),
        shared(a, b) <= b.len(),
{
    broadcast use vstd::multiset::lemma_intersection_count;

    lemma_shared_bounds(a, b);
    lemma_shared_bounds(b, a);
    let m = a.to_multiset();
    let n = b.to_multiset();
    assert(m.intersection_with(n) =~= n.intersection_with(m));
}

/// A similarity is at most one, and its points at most as many as it is times.
pub proof fn lemma_similarity_at_most_one(inter: nat, total: nat, k: nat)
    requires
        2 * inter <= total,
        total > 0,
        2 * inter <= SINGLE,
        k <= 5000,
    ensures
        similarity(inter, total).0 <= similarity(inter, total).1,
        similarity(inter, total).1 >= 1,
        points(similarity(inter, total), k) <= k,
{
    let half = SINGLE as nat;
    lemma_rounded_whole_at_least(total, half);
    lemma_rounded_whole_at_least(inter, half);
    let t = rounded_whole(total, half);
    lemma_rounded_at_most(2 * inter, t, half, 1);
    lemma_points_at_most(similarity(inter, total), k);
}

/// A similarity of at most one gives at most as many points as it is times.
pub proof fn lemma_points_at_most(d: (nat, nat), k: nat)
    requires
        d.0 <= d.1,
        d.1 >= 1,
        k <= 5000,
    ensures
        points(d, k) <= k,
{
    assert(d.0 * k <= k * d.1) by (nonlinear_arith)
        requires
            d.0 <= d.1,
    ;
    lemma_rounded_at_most(d.0 * k, d.1, SINGLE as nat, k);
    let v = rounded(d.0 * k, d.1, SINGLE as nat);
    assert(v.0 <= v.1 * k) by (nonlinear_arith)
        requires
            v.0 <= k * v.1,
    ;
    vstd::arithmetic::div_mod::lemma_div_is_ordered(v.0 as int, (v.1 * k) as int, v.1 as int);
    vstd::arithmetic::div_mod::lemma_div_multiples_vanish(k as int, v.1 as int);
}

proof fn lemma_few_points(q_pairs: Seq<(char, char)>, name: Seq<char>)
    requires
        q_pairs.len() <= 255,
    ensures
        points(name_similarity(q_pairs, name), 1500) <= 1500,
{
    let n = pairs_of(ascii_lowered(name));
    if q_pairs.len() != 0 && n.len() != 0 {
        let cap = if q_pairs.len() < 64 {
            q_pairs.len() as int
        } else {
            64
        };
        lemma_shared_symmetric(n, q_pairs.take(cap));
        lemma_similarity_at_most_one(
            shared(n, q_pairs.take(cap)),
            q_pairs.len() + n.len(),
            1500,
        );
    } else {
        lemma_points_at_most((0, 1), 1500);
    }
}

proof fn lemma_ascii_lowered_spells(q: Seq<char>, name: Seq<char>)
    requires
        is_ascii_text(name),
        lowercase(name) == q,
    ensures
        q == ascii_lowered(name),
        is_subsequence(q, ascii_lowered(name)),
{
    let f = Seq::new(q.len(), |i: int| i);
    assert(spelled_at(q, ascii_lowered(name), 0, f));
}

/// A name that is the query but for case ranks above every name that is not the
/// query, whatever their paths, for names and queries of at most 255 characters
/// and paths of at most 2000 parts. The name is ASCII, or at least spells the
/// query once its ASCII letters are lowered.
pub proof fn law_exact_name_wins(
    q: Seq<char>,
    name: Seq<char>,
    path: Seq<char>,
    is_dir: bool,
    other: Seq<char>,
    other_path: Seq<char>,
    other_dir: bool,
)
    requires
        q.len() <= 255,
        name.len() <= 255,
        components_of(path).len() <= 2000,
        lowercase(name) == q,
        is_ascii_text(name) || is_subsequence(q, ascii_lowered(name)),
    ensures
        entry_value(q, q, name, path, is_dir) is Some,
        rank_value(q, q, pairs_of(q), name, path, is_dir) == entry_value(q, q, name, path, is_dir),
        lowercase(other) != q ==> (entry_value(
            q,
            q,
            other,
            other_path,
            other_dir,
        ) matches Some(r) ==> r < entry_value(q, q, name, path, is_dir)->0),
        lowercase(other) != q ==> (rank_value(
            q,
            q,
            pairs_of(q),
            other,
            other_path,
            other_dir,
        ) matches Some(r) ==> r < entry_value(q, q, name, path, is_dir)->0),
{
    let h = ascii_lowered(name);
    if is_ascii_text(name) {
        lemma_ascii_lowered_spells(q, name);
    }
    law_walk_finds_subsequences(q, h);
    lemma_walk_bounds(q, h, 0, -2);
    lemma_walk_bounds(q, ascii_lowered(other), 0, -2);
    lemma_few_points(pairs_of(q), other);
    assert(q.len() * h.len() <= 255 * 255) by (nonlinear_arith)
        requires
            q.len() <= 255,
            h.len() <= 255,
    ;
}

proof fn lemma_walk_at_start(q: Seq<char>, i: int, h: Seq<char>, g: Seq<char>, last: int)
    requires
        0 <= i <= q.len(),
        q.is_prefix_of(h),
        q.is_prefix_of(g),
    ensures
        walk(q.skip(i), h, i, last) == walk(q.skip(i), g, i, last),
        walk(q.skip(i), h, i, last) is Some,
    decreases q.len() - i,
{
    if i < q.len() {
        let c = q.skip(i)[0];
        assert(c == q[i]);
        assert(h[i] == q[i] && g[i] == q[i]);
        assert(h.skip(i)[0] == c && g.skip(i)[0] == c);
        assert(q.skip(i).skip(1) =~= q.skip(i + 1));
        if i > 0 {
            assert(h[i - 1] == q[i - 1] && g[i - 1] == q[i - 1]);
        }
        lemma_walk_at_start(q, i + 1, h, g, i);
    }
}

/// Of two names that begin with the query, the longer one scores lower: by an
/// eighth of what its length is more.
pub proof fn law_length_is_penalized(q: Seq<char>, short: Seq<char>, long: Seq<char>)
    requires
        q.is_prefix_of(ascii_lowered(short)),
        q.is_prefix_of(ascii_lowered(long)),
    ensures
        index_value(q, short) is Some,
        index_value(q, long) is Some,
        index_value(q, short)->0 - index_value(q, long)->0 == long.len() as int / 8
            - short.len() as int / 8,
{
    lemma_walk_at_start(q, 0, ascii_lowered(short), ascii_lowered(long), -2);
    assert(q.skip(0) =~= q);
}

/// How a name matches the find query, both lowercased: 0 where it is the query, 1
/// where it begins with it, 2 where it spells it, 3 where it is similar to it.
pub open spec fn find_tier(q: Seq<char>, name: Seq<char>) -> Option<int> {
    let ql = lowercase(q);
    let nl = lowercase(name);
    if nl == ql {
        Some(0)
    } else if ql.is_prefix_of(nl) {
        Some(1)
    } else if is_subsequence(ql, nl) {
        Some(2)
    } else if at_least_half(dice_of(ql, nl)) {
        Some(3)
    } else {
        None
    }
}

proof fn lemma_tier_range(q: Seq<char>, name: Seq<char>)
    requires
        lowercase(name).len() <= 100,
    ensures
        find_value(q, name) is Some <==> find_tier(q, name) is Some,
        find_tier(q, name) == Some(0int) ==> find_value(q, name)->0 == 100_000,
        find_tier(q, name) == Some(1int) ==> 49_900 <= find_value(q, name)->0 <= 50_000,
        find_tier(q, name) == Some(2int) ==> 7_300 <= find_value(q, name)->0 <= 11_600,
        find_tier(q, name) == Some(3int) ==> find_value(q, name)->0 <= 5_000,
{
    let ql = lowercase(q);
    let nl = lowercase(name);
    lemma_utf8_size_bounds(nl);
    law_walk_finds_subsequences(ql, nl);
    if is_subsequence(ql, nl) {
        let f = choose|f: Seq<int>| spelled_at(ql, nl, 0, f);
        lemma_spelled_fits(ql, nl, f, ql.len() as int);
        lemma_walk_bounds(ql, nl, 0, -2);
        assert(ql.len() * nl.len() <= 100 * 100) by (nonlinear_arith)
            requires
                ql.len() <= 100,
                nl.len() <= 100,
        ;
    }
    let x = pairs_of(ql);
    let y = pairs_of(nl);
    if x.len() == 0 || y.len() == 0 {
        lemma_points_at_most(dice_of(ql, nl), 5000);
    } else {
        lemma_shared_symmetric(x, y);
        lemma_similarity_at_most_one(shared(x, y), x.len() + y.len(), 5000);
    }
}

/// A text has at least as many characters as it spells.
pub proof fn lemma_spelled_fits(q: Seq<char>, h: Seq<char>, f: Seq<int>, n: int)
    requires
        spelled_at(q, h, 0, f),
        0 <= n <= q.len(),
    ensures
        n > 0 ==> f[n - 1] >= n - 1,
        n <= h.len(),
    decreases n,
{
    if n > 1 {
        lemma_spelled_fits(q, h, f, n - 1);
        assert(f[n - 2] < f[n - 1]);
    }
    if n > 0 {
        assert(f[n - 1] < h.len());
    }
}

/// A name matches the find query if and only if it has a tier.
pub proof fn law_find_matches_have_a_tier(q: Seq<char>, name: Seq<char>)
    ensures
        find_value(q, name) is Some <==> find_tier(q, name) is Some,
{
    law_walk_finds_subsequences(lowercase(q), lowercase(name));
    if lowercase(q).len() == 0 {
        assert(lowercase(q).is_prefix_of(lowercase(name)));
    }
}

/// A name matches the find query if and only if it has a tier, and a name of an
/// earlier tier scores higher than one of a later tier, for names of at most 100
/// characters when lowercased.
pub proof fn law_earlier_tiers_score_higher(q: Seq<char>, a: Seq<char>, b: Seq<char>)
    requires
        lowercase(a).len() <= 100,
        lowercase(b).len() <= 100,
    ensures
        find_value(q, a) is Some <==> find_tier(q, a) is Some,
        find_tier(q, a) is Some && find_tier(q, b) is Some && find_tier(q, a)->0 < find_tier(
            q,
            b,
        )->0 ==> find_value(q, a)->0 > find_value(q, b)->0,
{
    lemma_tier_range(q, a);
    lemma_tier_range(q, b);
}

} // verus!
