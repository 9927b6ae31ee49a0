//! What searching by name amounts to: which names are found, and which of two
//! comes first.

use crate::index::{
    IndexEntryView, falls_in_rank, law_search_is_ranked, lowered_query, misses_none_above, ranks_of,
    search_hits,
};
use crate::paths::components_of;
use crate::rounding::{
    SINGLE, half_even, lemma_rounded_at_most, lemma_rounded_near, lemma_rounded_rises,
    lemma_rounded_whole_at_least, lift, rounded,
};
use crate::score::{
    at_least_half, dice_of, entry_value, find_tier, find_value, fuzzy, index_value, is_subsequence,
    law_find_matches_have_a_tier, law_walk_finds_subsequences, lemma_points_at_most,
    lemma_shared_symmetric, lemma_similarity_at_most_one, lemma_walk_bounds, literal_gain,
    match_value, name_similarity, pairs_of, points, rank_value, shared, similarity, spelled_at,
    spelling, walk,
};
use crate::text::{
    after_last, ascii_lowered, found_in, is_ascii_text, lemma_after_last, lemma_until,
    lemma_utf8_size_bounds, lowercase, occurs_at, split_last, until, utf8_size,
};
use vstd::prelude::*;

verus! {

// ----- names that are alike ------------------------------------------------------------

/// The pairs of neighbours in a text.
pub open spec fn neighbours(s: Seq<char>) -> Seq<(char, char)> {
    Seq::new(
        (if s.len() >= 2 {
            s.len() - 1
        } else {
            0
        }) as nat,
        |i: int| (s[i], s[i + 1]),
    )
}

/// How many pairs of neighbours two texts have in common, counting repeats.
pub open spec fn in_common(a: Seq<char>, b: Seq<char>) -> nat {
    neighbours(a).to_multiset().intersection_with(neighbours(b).to_multiset()).len()
}

/// How many pairs of neighbours two texts have, taken together.
pub open spec fn in_all(a: Seq<char>, b: Seq<char>) -> nat {
    neighbours(a).len() + neighbours(b).len()
}

/// Whether two texts are alike: half of their pairs of neighbours or more are
/// shared, where both have any.
pub open spec fn alike(a: Seq<char>, b: Seq<char>) -> bool {
    a.len() >= 2 && b.len() >= 2 && 4 * in_common(a, b) >= in_all(a, b)
}

/// Whether `a` is at least as similar to `q` as `b` is.
pub open spec fn at_least_as_similar(q: Seq<char>, a: Seq<char>, b: Seq<char>) -> bool {
    in_common(q, a) * in_all(q, b) >= in_common(q, b) * in_all(q, a)
}

/// Whether `a` is more similar to `q` than `b` is, by `part` of a whole or more.
pub open spec fn more_similar_by(q: Seq<char>, a: Seq<char>, b: Seq<char>, part: nat) -> bool {
    2 * part * (in_common(q, a) * in_all(q, b)) >= 2 * part * (in_common(q, b) * in_all(q, a))
        + in_all(q, a) * in_all(q, b)
}

proof fn lemma_neighbours(s: Seq<char>)
    ensures
        pairs_of(s) == neighbours(s),
{
    assert(pairs_of(s) =~= neighbours(s));
}

/// A similarity of `c` shared among `t` pairs is at least one half where it is.
proof fn lemma_half(c: nat, t: nat)
    requires
        2 * c <= t,
        0 < t < 0x40_0000,
    ensures
        at_least_half(similarity(c, t)) <==> 4 * c >= t,
{
    let half = SINGLE as nat;
    lemma_rounded_whole_at_least(c, half);
    lemma_rounded_whole_at_least(t, half);
    let v = rounded(2 * c, t, half);
    if c == 0 {
        assert(v == (0nat, 1nat)) by {
            assert(half_even(0, t) == 0) by {
                vstd::arithmetic::div_mod::lemma_basic_div(0, t as int);
                vstd::arithmetic::div_mod::lemma_small_mod(0, t);
            }
        }
    } else {
        assert(2 * c < 2 * half * t) by (nonlinear_arith)
            requires
                2 * c <= t,
                t > 0,
                half == 0x80_0000,
        ;
        lemma_rounded_near(2 * c, t, half);
        if 4 * c >= t {
            lemma_rounded_rises(1, 2, 2 * c, t, half);
            let h = rounded(1, 2, half);
            lemma_rounded_near(1, 2, half);
            assert(2 * h.0 == h.1) by {
                assert(h.0 == half_even(h.1, 2));
                assert(1 * h.1 == h.1);
                assert(h.1 % 2 == 0) by {
                    assert(h.1 == lift(1, 0x100_0000));
                    assert(h.1 == 2 * lift(2, 0x100_0000));
                }
            }
            let (n, s) = (v.0, v.1);
            assert(h.0 * s <= n * h.1);
            assert(2 * n >= s) by (nonlinear_arith)
                requires
                    h.0 * s <= n * h.1,
                    2 * h.0 == h.1,
                    h.1 >= 1,
            ;
        } else {
            let (n, s) = (v.0, v.1);
            assert(s > t) by (nonlinear_arith)
                requires
                    (2 * c) * s >= half * t,
                    4 * c < t,
                    half == 0x80_0000,
                    t < 0x40_0000,
                    c >= 1,
            ;
            assert(2 * n < s) by (nonlinear_arith)
                requires
                    2 * (n * t) <= 2 * ((2 * c) * s) + t,
                    4 * c + 1 <= t,
                    s > t,
                    t > 0,
            ;
        }
    }
}

/// Two texts are at least half similar if and only if they are alike, or the same
/// where one of them has no pairs.
pub proof fn law_half_similar_is_alike(a: Seq<char>, b: Seq<char>)
    requires
        a.len() <= 0x10_0000,
        b.len() <= 0x10_0000,
    ensures
        at_least_half(dice_of(a, b)) <==> alike(a, b) || (a == b && a.len() < 2),
{
    lemma_neighbours(a);
    lemma_neighbours(b);
    let (x, y) = (pairs_of(a), pairs_of(b));
    if x.len() != 0 && y.len() != 0 {
        lemma_shared_symmetric(x, y);
        lemma_half(shared(x, y), x.len() + y.len());
    }
}

/// The points for a similarity of `c` shared among `t` pairs are `2 k c / t`, give
/// or take two.
proof fn lemma_points_near(c: nat, t: nat, k: nat)
    requires
        2 * c <= t,
        0 < t < 0x40_0000,
        0 < k <= 5000,
    ensures
        points(similarity(c, t), k) * t <= 2 * k * c + t,
        2 * k * c <= (points(similarity(c, t), k) + 2) * t,
{
    let half = SINGLE as nat;
    lemma_rounded_whole_at_least(c, half);
    lemma_rounded_whole_at_least(t, half);
    let v = rounded(2 * c, t, half);
    let (n, s) = (v.0, v.1);
    let p = points(similarity(c, t), k);
    if c == 0 {
        assert(v == (0nat, 1nat)) by {
            assert(half_even(0, t) == 0) by {
                vstd::arithmetic::div_mod::lemma_basic_div(0, t as int);
                vstd::arithmetic::div_mod::lemma_small_mod(0, t);
            }
        }
        assert(0 * k == 0);
        assert(rounded(0, 1, half) == (0nat, 1nat)) by {
            assert(half_even(0, 1) == 0);
        }
        assert(p == 0);
        assert(p * t == 0) by (nonlinear_arith)
            requires
                p == 0,
        ;
        assert(2 * k * c == 0) by (nonlinear_arith)
            requires
                c == 0,
        ;
    } else {
        assert(2 * c < 2 * half * t) by (nonlinear_arith)
            requires
                2 * c <= t,
                t > 0,
                half == 0x80_0000,
        ;
        lemma_rounded_near(2 * c, t, half);
        lemma_rounded_at_most(2 * c, t, half, 1);
        assert(s >= half) by (nonlinear_arith)
            requires
                (2 * c) * s >= half * t,
                2 * c <= t,
                t > 0,
        ;
        assert(n >= 1) by (nonlinear_arith)
            requires
                2 * ((2 * c) * s) <= 2 * (n * t) + t,
                (2 * c) * s >= half * t,
                half == 0x80_0000,
                t > 0,
        ;
        let m = n * k;
        assert(0 < m < 2 * half * s) by (nonlinear_arith)
            requires
                m == n * k,
                1 <= n <= s,
                0 < k <= 5000,
                half == 0x80_0000,
        ;
        lemma_rounded_near(m, s, half);
        let w = rounded(m, s, half);
        let (nn, ss) = (w.0, w.1);
        assert(p == nn / ss);
        vstd::arithmetic::div_mod::lemma_fundamental_div_mod(nn as int, ss as int);
        vstd::arithmetic::div_mod::lemma_mod_bound(nn as int, ss as int);
        assert(p * ss <= nn < (p + 1) * ss) by (nonlinear_arith)
            requires
                nn == ss * p + nn % ss,
                0 <= nn % ss < ss,
        ;
        assert(2 * p * s <= 2 * m + s) by (nonlinear_arith)
            requires
                p * ss <= nn,
                2 * (nn * s) <= 2 * (m * ss) + s,
                ss >= 1,
                s >= 1,
        ;
        assert(2 * (p + 1) * s >= 2 * m - s) by (nonlinear_arith)
            requires
                nn < (p + 1) * ss,
                2 * (m * ss) <= 2 * (nn * s) + s,
                ss >= 1,
                s >= 1,
        ;
        assert(2 * (m * t) <= k * (2 * ((2 * c) * s) + t)) by (nonlinear_arith)
            requires
                m == n * k,
                2 * (n * t) <= 2 * ((2 * c) * s) + t,
        ;
        assert(2 * (m * t) + k * t >= k * (2 * ((2 * c) * s))) by (nonlinear_arith)
            requires
                m == n * k,
                2 * ((2 * c) * s) <= 2 * (n * t) + t,
        ;
        assert(k * t <= s * t) by (nonlinear_arith)
            requires
                k <= s,
        ;
        let kc = k * c;
        assert(k * (2 * ((2 * c) * s)) == 4 * (kc * s)) by (nonlinear_arith)
            requires
                kc == k * c,
        ;
        assert(k * (2 * ((2 * c) * s) + t) == 4 * (kc * s) + k * t) by (nonlinear_arith)
            requires
                kc == k * c,
        ;
        assert(2 * (p * t) * s <= 4 * (kc * s) + 2 * (s * t)) by (nonlinear_arith)
            requires
                2 * p * s <= 2 * m + s,
                2 * (m * t) <= 4 * (kc * s) + k * t,
                k * t <= s * t,
        ;
        assert(p * t <= 2 * kc + t) by (nonlinear_arith)
            requires
                2 * (p * t) * s <= 4 * (kc * s) + 2 * (s * t),
                s >= 1,
        ;
        assert(2 * ((p + 1) * t) * s + 2 * (s * t) >= 4 * (kc * s)) by (nonlinear_arith)
            requires
                2 * (p + 1) * s >= 2 * m - s,
                2 * (m * t) + k * t >= 4 * (kc * s),
                k * t <= s * t,
                t > 0,
        ;
        assert((p + 1) * t + t >= 2 * kc) by (nonlinear_arith)
            requires
                2 * ((p + 1) * t) * s + 2 * (s * t) >= 4 * (kc * s),
                s >= 1,
        ;
        assert((p + 2) * t == (p + 1) * t + t) by (nonlinear_arith);
        assert(2 * k * c == 2 * kc) by (nonlinear_arith)
            requires
                kc == k * c,
        ;
    }
}

/// More points for more similarity, and more of them where it is more by the
/// `part`-th part of a whole or more.
proof fn lemma_points_rise(c: nat, t: nat, d: nat, u: nat, k: nat, part: nat)
    requires
        2 * c <= t,
        0 < t < 0x40_0000,
        2 * d <= u,
        0 < u < 0x40_0000,
        0 < k <= 5000,
        c * u >= d * t,
        0 < part,
        5 * part <= k,
    ensures
        points(similarity(c, t), k) >= points(similarity(d, u), k),
        2 * part * (c * u) >= 2 * part * (d * t) + t * u ==> points(similarity(c, t), k) > points(
            similarity(d, u),
            k,
        ),
{
    let half = SINGLE as nat;
    lemma_rounded_whole_at_least(c, half);
    lemma_rounded_whole_at_least(t, half);
    lemma_rounded_whole_at_least(d, half);
    lemma_rounded_whole_at_least(u, half);
    assert((2 * d) * t <= (2 * c) * u) by (nonlinear_arith)
        requires
            c * u >= d * t,
    ;
    assert(2 * c < 2 * half * t) by (nonlinear_arith)
        requires
            2 * c <= t,
            t > 0,
            half == 0x80_0000,
    ;
    lemma_rounded_rises(2 * d, u, 2 * c, t, half);
    lemma_rounded_at_most(2 * c, t, half, 1);
    let (x, y) = (rounded(2 * c, t, half), rounded(2 * d, u, half));
    let (m, n) = (x.0 * k, y.0 * k);
    assert(n * x.1 <= m * y.1) by (nonlinear_arith)
        requires
            m == x.0 * k,
            n == y.0 * k,
            y.0 * x.1 <= x.0 * y.1,
    ;
    assert(m < 2 * half * x.1) by (nonlinear_arith)
        requires
            m == x.0 * k,
            x.0 <= x.1,
            x.1 >= 1,
            k <= 5000,
            half == 0x80_0000,
    ;
    lemma_rounded_rises(n, y.1, m, x.1, half);
    let (v, w) = (rounded(m, x.1, half), rounded(n, y.1, half));
    let (p, q) = ((v.0 / v.1) as int, (w.0 / w.1) as int);
    assert(p >= q) by {
        vstd::arithmetic::div_mod::lemma_fundamental_div_mod(v.0 as int, v.1 as int);
        vstd::arithmetic::div_mod::lemma_mod_bound(v.0 as int, v.1 as int);
        vstd::arithmetic::div_mod::lemma_fundamental_div_mod(w.0 as int, w.1 as int);
        vstd::arithmetic::div_mod::lemma_mod_bound(w.0 as int, w.1 as int);
        assert(q * w.1 <= w.0) by (nonlinear_arith)
            requires
                w.0 == w.1 * q + w.0 % w.1,
                w.0 % w.1 >= 0,
        ;
        assert(v.0 < (p + 1) * v.1) by (nonlinear_arith)
            requires
                v.0 == v.1 * p + v.0 % v.1,
                v.0 % v.1 < v.1,
        ;
        assert(q < p + 1) by (nonlinear_arith)
            requires
                w.0 * v.1 <= v.0 * w.1,
                q * w.1 <= w.0,
                v.0 < (p + 1) * v.1,
                w.1 >= 1,
                v.1 >= 1,
        ;
    }
    if 2 * part * (c * u) >= 2 * part * (d * t) + t * u {
        lemma_points_near(c, t, k);
        lemma_points_near(d, u, k);
        let (cu, dt, tu) = (c * u, d * t, t * u);
        assert(tu > 0) by (nonlinear_arith)
            requires
                tu == t * u,
                t > 0,
                u > 0,
        ;
        assert(2 * k * cu <= (p + 2) * tu) by (nonlinear_arith)
            requires
                2 * k * c <= (p + 2) * t,
                cu == c * u,
                tu == t * u,
        ;
        assert(q * tu <= 2 * k * dt + tu) by (nonlinear_arith)
            requires
                q * u <= 2 * k * d + u,
                dt == d * t,
                tu == t * u,
        ;
        assert(2 * k * cu >= 2 * k * dt + 5 * tu) by (nonlinear_arith)
            requires
                2 * part * cu >= 2 * part * dt + tu,
                k >= 5 * part,
                part > 0,
                cu >= dt,
        ;
        assert(p > q) by (nonlinear_arith)
            requires
                2 * k * cu <= (p + 2) * tu,
                q * tu <= 2 * k * dt + tu,
                2 * k * cu >= 2 * k * dt + 5 * tu,
                tu > 0,
        ;
    }
}

/// Of two names of one length that match the find query by similarity alone, the
/// more similar one scores at least as high, and higher where it is more similar by
/// a thousandth or more.
pub proof fn law_closer_names_score_higher(q: Seq<char>, a: Seq<char>, b: Seq<char>)
    requires
        lowercase(q).len() <= 0x10_0000,
        lowercase(a).len() <= 0x10_0000,
        lowercase(b).len() <= 0x10_0000,
        utf8_size(lowercase(a)) == utf8_size(lowercase(b)),
        find_tier(q, a) == Some(3int),
        find_tier(q, b) == Some(3int),
        at_least_as_similar(lowercase(q), lowercase(a), lowercase(b)),
    ensures
        find_value(q, a)->0 >= find_value(q, b)->0,
        more_similar_by(lowercase(q), lowercase(a), lowercase(b), 1000) ==> find_value(q, a)->0
            > find_value(q, b)->0,
{
    let (ql, x, y) = (lowercase(q), lowercase(a), lowercase(b));
    law_walk_finds_subsequences(ql, x);
    law_walk_finds_subsequences(ql, y);
    law_half_similar_is_alike(ql, x);
    law_half_similar_is_alike(ql, y);
    lemma_neighbours(ql);
    lemma_neighbours(x);
    lemma_neighbours(y);
    lemma_shared_symmetric(neighbours(ql), neighbours(x));
    lemma_shared_symmetric(neighbours(ql), neighbours(y));
    lemma_points_rise(
        in_common(ql, x),
        in_all(ql, x),
        in_common(ql, y),
        in_all(ql, y),
        5000,
        1000,
    );
}

/// A name matches the find query if and only if it is the query, begins with it,
/// spells it or is alike to it, all lowercased; and so do names without pairs only
/// where they are the query.
pub proof fn law_find_matches(q: Seq<char>, name: Seq<char>)
    requires
        lowercase(q).len() <= 0x10_0000,
        lowercase(name).len() <= 0x10_0000,
    ensures
        find_value(q, name) is Some <==> is_subsequence(lowercase(q), lowercase(name)) || alike(
            lowercase(q),
            lowercase(name),
        ),
{
    let (ql, nl) = (lowercase(q), lowercase(name));
    law_find_matches_have_a_tier(q, name);
    law_half_similar_is_alike(ql, nl);
    if ql.is_prefix_of(nl) {
        let f = Seq::new(ql.len(), |i: int| i);
        assert(spelled_at(ql, nl, 0, f)) by {
            assert forall|i: int| 0 <= i < f.len() implies 0 <= #[trigger] f[i] < nl.len()
                && nl[f[i]] == ql[i] by {
                assert(nl.subrange(0, ql.len() as int)[i] == nl[i]);
            }
        }
    }
    if ql == nl {
        assert(ql.is_prefix_of(nl)) by {
            assert(nl.subrange(0, ql.len() as int) =~= ql);
        }
    }
}

// ----- the index -----------------------------------------------------------------------

/// Whether a search is meant to find a name: it spells the query, or is alike to it.
pub open spec fn findable(q: Seq<char>, name: Seq<char>) -> bool {
    is_subsequence(q, ascii_lowered(name)) || alike(q, ascii_lowered(name))
}

/// An entry has a rank if and only if its name spells the query or is alike to it,
/// be it a file or a folder, wherever it lies; for queries of at most 65 characters.
pub proof fn law_rank_is_for_findable_names(
    q: Seq<char>,
    name: Seq<char>,
    path: Seq<char>,
    is_dir: bool,
)
    requires
        q.len() <= 65,
        name.len() <= 0x10_0000,
    ensures
        rank_value(q, q, pairs_of(q), name, path, is_dir) is Some <==> findable(q, name),
{
    let low = ascii_lowered(name);
    law_walk_finds_subsequences(q, low);
    lemma_neighbours(q);
    lemma_neighbours(low);
    let (p, n) = (pairs_of(q), pairs_of(low));
    assert(p.take(p.len() as int) =~= p);
    if p.len() != 0 && n.len() != 0 {
        lemma_shared_symmetric(n, p);
        lemma_half(shared(n, p), p.len() + n.len());
    }
}

/// A search with room to spare returns every entry whose name spells the query or is
/// alike to it, file or folder, and no search returns any other.
pub proof fn law_search_finds_what_is_findable(
    entries: Seq<IndexEntryView>,
    query: Seq<char>,
    limit: nat,
)
    requires
        0 < lowered_query(query).len() <= 65,
        forall|i: int|
            0 <= i < entries.len() ==> (#[trigger] entries[i]).name.len() <= 0x10_0000,
    ensures
        search_hits(entries, query, limit).len() < limit ==> forall|x: int|
            0 <= x < entries.len() && findable(
                lowered_query(query),
                (#[trigger] entries[x]).name,
            ) ==> search_hits(entries, query, limit).contains(entries[x]),
        forall|k: int|
            0 <= k < search_hits(entries, query, limit).len() ==> findable(
                lowered_query(query),
                (#[trigger] search_hits(entries, query, limit)[k]).name,
            ) && entries.contains(search_hits(entries, query, limit)[k]),
        search_hits(entries, query, limit).len() <= limit,
{
    let q = lowered_query(query);
    let ranks = ranks_of(entries, q);
    let b = search_hits(entries, query, limit);
    law_search_is_ranked(entries, ranks, limit);
    let at = choose|at: Seq<int>|
        falls_in_rank(entries, ranks, b, at) && misses_none_above(ranks, at, b.len() == limit);
    assert forall|x: int| 0 <= x < entries.len() implies (ranks[x] is Some <==> findable(
        q,
        (#[trigger] entries[x]).name,
    )) by {
        let e = entries[x];
        law_rank_is_for_findable_names(q, e.name, e.path, e.is_dir);
    }
    if b.len() < limit {
        assert forall|x: int| 0 <= x < entries.len() && findable(
            q,
            (#[trigger] entries[x]).name,
        ) implies b.contains(entries[x]) by {
            assert(ranks[x] is Some);
            assert(at.contains(x));
            let i = choose|i: int| 0 <= i < at.len() && at[i] == x;
            assert(b[i] == entries[x]);
        }
    }
    assert forall|k: int| 0 <= k < b.len() implies findable(q, (#[trigger] b[k]).name)
        && entries.contains(b[k]) by {
        assert(0 <= at[k] < entries.len());
        assert(b[k] == entries[at[k]]);
    }
}

/// Of two entries with one name the one that lies less deep ranks higher, by eight
/// for each level, and a folder ranks above a file by forty.
pub proof fn law_rank_falls_with_depth(
    q: Seq<char>,
    name: Seq<char>,
    path: Seq<char>,
    is_dir: bool,
    other: Seq<char>,
    other_dir: bool,
)
    requires
        rank_value(q, q, pairs_of(q), name, path, is_dir) is Some,
    ensures
        rank_value(q, q, pairs_of(q), name, other, other_dir) is Some,
        rank_value(q, q, pairs_of(q), name, path, is_dir)->0 - rank_value(
            q,
            q,
            pairs_of(q),
            name,
            other,
            other_dir,
        )->0 == 8 * (components_of(other).len() - components_of(path).len()) + (if is_dir
            && !other_dir {
            40int
        } else if other_dir && !is_dir {
            -40
        } else {
            0
        }),
{
}

/// Of two names of one length that do not spell the query, in folders equally deep,
/// the more similar one ranks at least as high, and higher where it is more similar
/// by a three-hundredth or more.
pub proof fn law_closer_names_rank_higher(
    q: Seq<char>,
    a: Seq<char>,
    b: Seq<char>,
    path: Seq<char>,
    other: Seq<char>,
    is_dir: bool,
)
    requires
        q.len() <= 65,
        a.len() == b.len() <= 0x10_0000,
        components_of(path).len() == components_of(other).len(),
        !is_subsequence(q, ascii_lowered(a)),
        !is_subsequence(q, ascii_lowered(b)),
        alike(q, ascii_lowered(a)),
        alike(q, ascii_lowered(b)),
        at_least_as_similar(q, ascii_lowered(a), ascii_lowered(b)),
    ensures
        rank_value(q, q, pairs_of(q), a, path, is_dir) is Some,
        rank_value(q, q, pairs_of(q), b, other, is_dir) is Some,
        rank_value(q, q, pairs_of(q), a, path, is_dir)->0 >= rank_value(
            q,
            q,
            pairs_of(q),
            b,
            other,
            is_dir,
        )->0,
        more_similar_by(q, ascii_lowered(a), ascii_lowered(b), 300) ==> rank_value(
            q,
            q,
            pairs_of(q),
            a,
            path,
            is_dir,
        )->0 > rank_value(q, q, pairs_of(q), b, other, is_dir)->0,
{
    let (x, y) = (ascii_lowered(a), ascii_lowered(b));
    law_walk_finds_subsequences(q, x);
    law_walk_finds_subsequences(q, y);
    law_rank_is_for_findable_names(q, a, path, is_dir);
    law_rank_is_for_findable_names(q, b, other, is_dir);
    lemma_neighbours(q);
    lemma_neighbours(x);
    lemma_neighbours(y);
    let p = pairs_of(q);
    assert(p.take(p.len() as int) =~= p);
    lemma_shared_symmetric(pairs_of(x), p);
    lemma_shared_symmetric(pairs_of(y), p);
    lemma_points_rise(in_common(q, x), in_all(q, x), in_common(q, y), in_all(q, y), 1500, 300);
}

// ----- what spelling is worth ----------------------------------------------------------

/// Whether each of the positions `f` is the first one there is for its character of
/// `q`, behind the position before it.
pub open spec fn is_leftmost(q: Seq<char>, h: Seq<char>, from: int, f: Seq<int>) -> bool {
    &&& spelled_at(q, h, from, f)
    &&& forall|i: int, k: int|
        0 <= i < f.len() && (if i == 0 {
            from
        } else {
            f[i - 1] + 1
        }) <= k < f[i] ==> #[trigger] h[k] != #[trigger] q[i]
}

/// What the matches at `f` are worth: six for each that stands directly behind the one
/// before it, ten for each at the start of a word, less a quarter of each position.
pub open spec fn worth(h: Seq<char>, f: Seq<int>, last: int) -> int
    decreases f.len(),
{
    if f.len() == 0 {
        0
    } else {
        let p = f[0];
        let starts = p == 0 || (" /_-."@).contains(h[p - 1]);
        (if p == last + 1 {
            6int
        } else {
            0
        }) + (if starts {
            10int
        } else {
            0
        }) - p / 4 + worth(h, f.skip(1), p)
    }
}

proof fn lemma_worth(q: Seq<char>, h: Seq<char>, from: int, last: int) -> (f: Seq<int>)
    requires
        0 <= from <= h.len(),
        walk(q, h, from, last) is Some,
    ensures
        is_leftmost(q, h, from, f),
        walk(q, h, from, last)->0 == worth(h, f, last),
    decreases q.len(),
{
    reveal_strlit(" /_-.");
    if q.len() == 0 {
        Seq::empty()
    } else {
        let rest = h.skip(from);
        lemma_until(rest, q[0]);
        let p = from + until(rest, q[0]);
        let g = lemma_worth(q.skip(1), h, p + 1, p);
        let f = seq![p] + g;
        assert(f.skip(1) =~= g);
        assert(h[p] == rest[p - from]);
        let w = " /_-."@;
        if p > 0 {
            let c = h[p - 1];
            assert(w[0] == ' ' && w[1] == '/' && w[2] == '_' && w[3] == '-' && w[4] == '.');
            assert(w.contains(c) <==> c == '/' || c == ' ' || c == '_' || c == '-' || c == '.');
        }
        assert forall|i: int| 0 <= i < f.len() implies from <= #[trigger] f[i] < h.len()
            && h[f[i]] == q[i] by {
            if i > 0 {
                assert(f[i] == g[i - 1]);
                assert(q[i] == q.skip(1)[i - 1]);
            }
        }
        assert forall|i: int, j: int| 0 <= i < j < f.len() implies #[trigger] f[i]
            < #[trigger] f[j] by {
            assert(f[j] == g[j - 1]);
            if i > 0 {
                assert(f[i] == g[i - 1]);
            }
        }
        assert forall|i: int, k: int|
            0 <= i < f.len() && (if i == 0 {
                from
            } else {
                f[i - 1] + 1
            }) <= k < f[i] implies #[trigger] h[k] != #[trigger] q[i] by {
            if i == 0 {
                assert(rest[k - from] != q[0]);
            } else {
                assert(f[i] == g[i - 1]);
                assert(q[i] == q.skip(1)[i - 1]);
                if i > 1 {
                    assert(f[i - 1] == g[i - 2]);
                }
            }
        }
        f
    }
}

/// A name that spells the query is scored by its first places for it, less an eighth
/// of its length: a run and the start of a word gain, a late place loses.
pub proof fn law_spelling_is_worth(q: Seq<char>, name: Seq<char>)
    requires
        is_subsequence(q, ascii_lowered(name)),
    ensures
        exists|f: Seq<int>|
            #[trigger] is_leftmost(q, ascii_lowered(name), 0, f) && index_value(q, name) == Some(
                worth(ascii_lowered(name), f, -2) - name.len() as int / 8,
            ),
{
    law_walk_finds_subsequences(q, ascii_lowered(name));
    lemma_worth(q, ascii_lowered(name), 0, -2);
}

/// The same holds of texts as the find bar and the palette compare them.
pub proof fn law_fuzzy_is_worth(needle: Seq<char>, haystack: Seq<char>)
    requires
        lowercase(needle).len() > 0,
    ensures
        fuzzy(needle, haystack) is Some <==> is_subsequence(
            lowercase(needle),
            lowercase(haystack),
        ),
        fuzzy(needle, haystack) matches Some(v) ==> exists|f: Seq<int>|
            #[trigger] is_leftmost(lowercase(needle), lowercase(haystack), 0, f) && v == worth(
                lowercase(haystack),
                f,
                -2,
            ) - lowercase(haystack).len() as int / 8,
{
    let (n, h) = (lowercase(needle), lowercase(haystack));
    law_walk_finds_subsequences(n, h);
    if fuzzy(needle, haystack) is Some {
        lemma_worth(n, h, 0, -2);
    }
}

// ----- which match is better -----------------------------------------------------------

/// Whether `low` is `q` with an extension behind it.
pub open spec fn extends(q: Seq<char>, low: Seq<char>) -> bool {
    &&& q.len() < low.len()
    &&& q == low.take(q.len() as int)
    &&& low[q.len() as int] == '.'
    &&& forall|k: int| q.len() < k < low.len() ==> #[trigger] low[k] != '.'
}

/// How well a name that spells the query matches it: 0 where it is the query, 1 where
/// it is the query with an extension, 2 where it begins with it, 3 where it holds it,
/// and 4 otherwise.
pub open spec fn rank_tier(q: Seq<char>, name: Seq<char>) -> int {
    let low = lowercase(name);
    if low == q {
        0
    } else if extends(q, low) {
        1
    } else if q.is_prefix_of(low) {
        2
    } else if exists|k: int|
        0 <= k && k + q.len() <= low.len() && #[trigger] low.subrange(k, k + q.len()) == q {
        3
    } else {
        4
    }
}

proof fn lemma_stem_extends(q: Seq<char>, low: Seq<char>)
    requires
        low != q,
    ensures
        (match split_last(low, '.') {
            Some((a, _)) => a,
            None => low,
        }) == q <==> extends(q, low),
        extends(q, low) ==> q.is_prefix_of(low),
{
    lemma_after_last(low, '.');
    let j = after_last(low, '.') as int;
    if extends(q, low) {
        assert(j == q.len() + 1) by {
            if j > q.len() + 1 {
                assert(low[j - 1] == '.');
            }
            if j < q.len() + 1 {
                assert(low[q.len() as int] != '.');
            }
        }
        assert(low.subrange(0, q.len() as int) =~= q);
    }
    if j > 0 && low.take(j - 1) == q {
        assert(low[q.len() as int] == '.');
    }
}

/// Of two names in folders equally deep that spell the query, and are both files or
/// both folders, the one that matches it better ranks higher; for queries of at most
/// ten characters and names of at most forty.
pub proof fn law_better_matches_rank_higher(
    q: Seq<char>,
    a: Seq<char>,
    b: Seq<char>,
    path: Seq<char>,
    other: Seq<char>,
    is_dir: bool,
)
    requires
        q.len() <= 10,
        a.len() <= 40,
        b.len() <= 40,
        is_subsequence(q, ascii_lowered(a)),
        is_subsequence(q, ascii_lowered(b)),
        components_of(path).len() == components_of(other).len(),
        rank_tier(q, a) < rank_tier(q, b),
    ensures
        entry_value(q, q, a, path, is_dir) is Some,
        entry_value(q, q, b, other, is_dir) is Some,
        entry_value(q, q, a, path, is_dir)->0 > entry_value(q, q, b, other, is_dir)->0,
        rank_value(q, q, pairs_of(q), a, path, is_dir)->0 > rank_value(
            q,
            q,
            pairs_of(q),
            b,
            other,
            is_dir,
        )->0,
{
    lemma_entry_parts(q, a);
    lemma_entry_parts(q, b);
}

proof fn lemma_entry_parts(q: Seq<char>, name: Seq<char>)
    requires
        q.len() <= 10,
        name.len() <= 40,
        is_subsequence(q, ascii_lowered(name)),
    ensures
        index_value(q, name) is Some,
        -105 <= index_value(q, name)->0 <= 160,
        lowercase(name) != q ==> ((match split_last(lowercase(name), '.') {
            Some((a, _)) => a,
            None => lowercase(name),
        }) == q <==> extends(q, lowercase(name))),
        extends(q, lowercase(name)) ==> q.is_prefix_of(lowercase(name)),
        lowercase(name) == q ==> q.is_prefix_of(lowercase(name)),
        found_in(lowercase(name), q) <==> exists|k: int|
            0 <= k && k + q.len() <= lowercase(name).len() && #[trigger] lowercase(name).subrange(
                k,
                k + q.len(),
            ) == q,
{
    let (h, low) = (ascii_lowered(name), lowercase(name));
    law_walk_finds_subsequences(q, h);
    lemma_walk_bounds(q, h, 0, -2);
    assert(q.len() * h.len() <= 400) by (nonlinear_arith)
        requires
            q.len() <= 10,
            h.len() <= 40,
    ;
    if low != q {
        lemma_stem_extends(q, low);
    } else {
        assert(low.subrange(0, q.len() as int) =~= q);
    }
    if found_in(low, q) {
        let k = choose|k: int| occurs_at(low, k, q);
        assert(low.subrange(k, k + q.len()) == q);
    }
    if exists|k: int|
        0 <= k && k + q.len() <= low.len() && #[trigger] low.subrange(k, k + q.len()) == q {
        let k = choose|k: int|
            0 <= k && k + q.len() <= low.len() && #[trigger] low.subrange(k, k + q.len()) == q;
        assert(occurs_at(low, k, q));
    }
}

/// Of two names that begin with the find query, or match it by spelling alike, the
/// longer one scores lower: by a quarter of the bytes that it has more.
pub proof fn law_find_prefers_short_names(q: Seq<char>, a: Seq<char>, b: Seq<char>)
    requires
        find_tier(q, a) == Some(1int),
        find_tier(q, b) == Some(1int),
    ensures
        find_value(q, a)->0 - find_value(q, b)->0 == utf8_size(lowercase(b)) as int / 4 - utf8_size(
            lowercase(a),
        ) as int / 4,
{
}

/// How a name of a folder matches what is typed of it: 0 where it is that, 1 where it
/// begins with it, 2 where it holds it, 3 where it spells it, 4 otherwise.
pub open spec fn partial_tier(partial: Seq<char>, name: Seq<char>) -> int {
    let (p, n) = (lowercase(partial), lowercase(name));
    if n == p {
        0
    } else if p.is_prefix_of(n) {
        1
    } else if exists|k: int|
        0 <= k && k + p.len() <= n.len() && #[trigger] n.subrange(k, k + p.len()) == p {
        2
    } else {
        3
    }
}

proof fn lemma_partial_range(partial: Seq<char>, name: Seq<char>)
    requires
        is_ascii_text(partial),
        is_ascii_text(name),
        0 < partial.len() <= 20,
        name.len() <= 60,
    ensures
        partial_tier(partial, name) == 0 ==> match_value(partial, name) >= 15_000,
        partial_tier(partial, name) == 1 ==> 5_500 <= match_value(partial, name) <= 8_700,
        partial_tier(partial, name) == 2 ==> 1_900 <= match_value(partial, name) <= 4_700,
        partial_tier(partial, name) == 3 ==> match_value(partial, name) <= 3_200,
{
    let (p, n) = (lowercase(partial), lowercase(name));
    assert(p.len() == partial.len() && n.len() == name.len());
    lemma_utf8_size_bounds(n);
    lemma_lower_again(partial);
    lemma_lower_again(name);
    lemma_holding(p, n);
    lemma_spelling_range(p, n);
    lemma_few_dice_points(p, n);
}

proof fn lemma_few_dice_points(p: Seq<char>, n: Seq<char>)
    requires
        p.len() <= 100,
    ensures
        points(dice_of(p, n), 2000) <= 2000,
{
    let (x, y) = (pairs_of(p), pairs_of(n));
    if x.len() == 0 || y.len() == 0 {
        lemma_points_at_most(dice_of(p, n), 2000);
    } else {
        lemma_shared_symmetric(x, y);
        lemma_similarity_at_most_one(shared(x, y), x.len() + y.len(), 2000);
    }
}

proof fn lemma_spelling_range(p: Seq<char>, n: Seq<char>)
    requires
        0 < p.len() <= 20,
        n.len() <= 60,
    ensures
        spelling(p, n) is Some <==> is_subsequence(p, n),
        spelling(p, n) matches Some(v) ==> -308 <= v <= 320,
{
    law_walk_finds_subsequences(p, n);
    lemma_walk_bounds(p, n, 0, -2);
    assert(p.len() * n.len() <= 1200) by (nonlinear_arith)
        requires
            p.len() <= 20,
            n.len() <= 60,
    ;
}

proof fn lemma_holding(p: Seq<char>, n: Seq<char>)
    ensures
        found_in(n, p) <==> exists|k: int|
            0 <= k && k + p.len() <= n.len() && #[trigger] n.subrange(k, k + p.len()) == p,
        found_in(n, p) ==> is_subsequence(p, n),
        p.is_prefix_of(n) ==> found_in(n, p),
        p == n ==> p.is_prefix_of(n),
{
    if p == n {
        assert(n.subrange(0, p.len() as int) =~= p);
    }
    if p.is_prefix_of(n) {
        assert(occurs_at(n, 0, p));
    }
    if exists|k: int|
        0 <= k && k + p.len() <= n.len() && #[trigger] n.subrange(k, k + p.len()) == p {
        let k = choose|k: int|
            0 <= k && k + p.len() <= n.len() && #[trigger] n.subrange(k, k + p.len()) == p;
        assert(occurs_at(n, k, p));
    }
    if found_in(n, p) {
        let k = choose|k: int| occurs_at(n, k, p);
        assert(n.subrange(k, k + p.len()) == p);
        let f = Seq::new(p.len(), |i: int| k + i);
        assert(spelled_at(p, n, 0, f)) by {
            assert forall|i: int| 0 <= i < f.len() implies 0 <= #[trigger] f[i] < n.len()
                && n[f[i]] == p[i] by {
                assert(n.subrange(k, k + p.len())[i] == n[k + i]);
            }
        }
    }
}

proof fn lemma_lower_again(s: Seq<char>)
    requires
        is_ascii_text(s),
    ensures
        lowercase(lowercase(s)) == lowercase(s),
{
    let l = ascii_lowered(s);
    assert forall|i: int| 0 <= i < l.len() implies (#[trigger] l[i]) as u32 <= 127 by {
        assert(s[i] as u32 <= 127);
    }
    assert(ascii_lowered(l) =~= l);
}

/// Of two names of a folder the one that matches better what is typed of it scores
/// higher, where one is that, begins with it or holds it; for ASCII names of at most
/// 60 characters and at most 20 typed.
pub proof fn law_partial_names_score_in_tiers(partial: Seq<char>, a: Seq<char>, b: Seq<char>)
    requires
        is_ascii_text(partial),
        is_ascii_text(a),
        is_ascii_text(b),
        0 < partial.len() <= 20,
        a.len() <= 60,
        b.len() <= 60,
        partial_tier(partial, a) <= 1,
        partial_tier(partial, a) < partial_tier(partial, b),
    ensures
        match_value(partial, a) > match_value(partial, b),
{
    lemma_partial_range(partial, a);
    lemma_partial_range(partial, b);
}

/// Of two names that match alike, at equal depth, the longer one ranks lower: by four for
/// each character more. Names no longer than the query rank alike.
pub proof fn law_longer_names_rank_lower(
    q: Seq<char>,
    q_pairs: Seq<(char, char)>,
    a: Seq<char>,
    b: Seq<char>,
    path: Seq<char>,
    other: Seq<char>,
    is_dir: bool,
)
    requires
        a.len() <= b.len(),
        components_of(path).len() == components_of(other).len(),
        index_value(q, a) is None,
        index_value(q, b) is None,
        name_similarity(q_pairs, a) == name_similarity(q_pairs, b),
        rank_value(q, q, q_pairs, a, path, is_dir) is Some,
    ensures
        q.len() <= a.len() ==> rank_value(q, q, q_pairs, b, other, is_dir) == Some(
            rank_value(q, q, q_pairs, a, path, is_dir)->0 - 4 * (b.len() - a.len()),
        ),
        b.len() <= q.len() ==> rank_value(q, q, q_pairs, b, other, is_dir) == rank_value(
            q,
            q,
            q_pairs,
            a,
            path,
            is_dir,
        ),
{
}

/// The same for names that spell the query, where it neither is nor begins nor stands in
/// either of them, and the spelling is worth the same.
pub proof fn law_longer_spelled_names_rank_lower(
    q: Seq<char>,
    a: Seq<char>,
    b: Seq<char>,
    path: Seq<char>,
    is_dir: bool,
)
    requires
        q.len() <= a.len() <= b.len(),
        index_value(q, a) is Some,
        index_value(q, a) == index_value(q, b),
        !found_in(lowercase(a), q),
        !found_in(lowercase(b), q),
    ensures
        entry_value(q, q, b, path, is_dir) == Some(
            entry_value(q, q, a, path, is_dir)->0 - 4 * (b.len() - a.len()),
        ),
{
    lemma_not_found(lowercase(a), q);
    lemma_not_found(lowercase(b), q);
}

proof fn lemma_not_found(n: Seq<char>, q: Seq<char>)
    requires
        !found_in(n, q),
    ensures
        n != q,
        !q.is_prefix_of(n),
        match split_last(n, '.') {
            Some((s, _)) => s != q,
            None => true,
        },
{
    lemma_after_last(n, '.');
    if q.is_prefix_of(n) {
        assert(n.subrange(0, q.len() as int) =~= q);
        assert(occurs_at(n, 0, q));
    }
    if n == q {
        assert(n.subrange(0, q.len() as int) =~= q);
        assert(occurs_at(n, 0, q));
    }
    let j = after_last(n, '.') as int;
    if j > 0 && n.take(j - 1) == q {
        assert(n.subrange(0, q.len() as int) =~= q);
        assert(occurs_at(n, 0, q));
    }
}

/// Of two names that match a beginning alike, the one that takes fewer bytes scores
/// higher: by one for every four.
pub proof fn law_short_names_complete_first(p: Seq<char>, a: Seq<char>, b: Seq<char>)
    requires
        lowercase(p).len() > 0,
        literal_gain(lowercase(p), lowercase(a)) == literal_gain(lowercase(p), lowercase(b)),
        fuzzy(lowercase(p), lowercase(a)) == fuzzy(lowercase(p), lowercase(b)),
        dice_of(lowercase(p), lowercase(a)) == dice_of(lowercase(p), lowercase(b)),
        utf8_size(lowercase(a)) <= utf8_size(lowercase(b)),
    ensures
        match_value(p, a) >= match_value(p, b),
        utf8_size(lowercase(a)) + 4 <= utf8_size(lowercase(b)) ==> match_value(p, a) > match_value(
            p,
            b,
        ),
{
}

} // verus!
