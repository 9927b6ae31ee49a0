//! What the order of rows, of found rows and of paths amounts to.

use crate::find::{
    filtered_rows, law_filter_ignores_order, match_key, match_keys, matching_rows, row_scores,
};
use crate::index::{lemma_ranked, lemma_ranked_rises};
use crate::kinds::label_for;
use crate::listing::{EntryView, SortKey, Stamp, row_key, row_keys, sorted_rows, stamp_key};
use crate::score::{find_tier, find_value, law_find_matches_have_a_tier};
use crate::sorting::{
    comes_first, key_less, lemma_key_total, lemma_order_exists, order_of, text_key,
};
use crate::text::{lowercase, trimmed};
use vstd::prelude::*;

verus! {

// ----- the order of texts and dates ----------------------------------------------------

/// Whether `a` and `b` agree up to `k`, where `a` ends or has the smaller character.
pub open spec fn parts_at(a: Seq<char>, b: Seq<char>, k: int) -> bool {
    &&& 0 <= k <= a.len()
    &&& k < b.len()
    &&& a.take(k) == b.take(k)
    &&& k == a.len() || (a[k] as u32) < (b[k] as u32)
}

/// Whether `a` stands before `b` in a dictionary.
pub open spec fn precedes(a: Seq<char>, b: Seq<char>) -> bool {
    exists|k: int| parts_at(a, b, k)
}

/// Whether a time is earlier than another one. No time is earlier than any.
pub open spec fn earlier(a: Option<Stamp>, b: Option<Stamp>) -> bool {
    match (a, b) {
        (None, Some(_)) => true,
        (Some(x), Some(y)) => x.secs < y.secs || (x.secs == y.secs && x.nanos < y.nanos),
        _ => false,
    }
}

proof fn lemma_less_behind(p: Seq<int>, x: Seq<int>, y: Seq<int>)
    ensures
        key_less(p + x, p + y) == key_less(x, y),
    decreases p.len(),
{
    if p.len() == 0 {
        assert(p + x =~= x);
        assert(p + y =~= y);
    } else {
        lemma_less_behind(p.skip(1), x, y);
        assert((p + x).skip(1) =~= p.skip(1) + x);
        assert((p + y).skip(1) =~= p.skip(1) + y);
        if x.len() == 0 && y.len() == 0 {
            assert((p + x)[0] == (p + y)[0]);
        }
    }
}

/// Texts in dictionary order have keys in order, whatever follows behind a mark
/// that is smaller than every character.
pub proof fn lemma_precedes_less(a: Seq<char>, b: Seq<char>, x: Seq<int>, y: Seq<int>)
    requires
        precedes(a, b),
    ensures
        key_less(text_key(a), text_key(b)),
        key_less(text_key(a) + seq![-1int] + x, text_key(b) + seq![-1int] + y),
{
    let k = choose|k: int| parts_at(a, b, k);
    let p = text_key(a.take(k));
    let (m, n) = (text_key(a).skip(k), text_key(b).skip(k));
    assert(text_key(a) =~= p + m);
    assert(text_key(b) =~= p + n) by {
        assert(text_key(b.take(k)) =~= p);
    }
    lemma_less_behind(p, m, n);
    assert(n[0] == (b[k] as u32) as int);
    if k < a.len() {
        assert(m[0] == (a[k] as u32) as int);
    }
    let (u, v) = (m + seq![-1int] + x, n + seq![-1int] + y);
    assert(text_key(a) + seq![-1int] + x =~= p + u);
    assert(text_key(b) + seq![-1int] + y =~= p + v);
    lemma_less_behind(p, u, v);
    assert(v[0] == n[0]);
    if k < a.len() {
        assert(u[0] == m[0]);
    } else {
        assert(u[0] == -1);
    }
}

proof fn lemma_earlier_less(a: Option<Stamp>, b: Option<Stamp>)
    requires
        earlier(a, b),
    ensures
        key_less(stamp_key(a), stamp_key(b)),
{
    reveal_with_fuel(key_less, 4);
    match (a, b) {
        (Some(x), Some(y)) => {
            let (k, l) = (stamp_key(a), stamp_key(b));
            assert(k.skip(1) =~= seq![x.secs as int, x.nanos as int]);
            assert(l.skip(1) =~= seq![y.secs as int, y.nanos as int]);
            assert(k.skip(1).skip(1) =~= seq![x.nanos as int]);
            assert(l.skip(1).skip(1) =~= seq![y.nanos as int]);
        },
        _ => {},
    }
}

// ----- rows of a listing ---------------------------------------------------------------

/// Whether two names are in order, case aside.
pub open spec fn names_in_order(a: EntryView, b: EntryView) -> bool {
    !precedes(lowercase(b.name), lowercase(a.name))
}

/// Whether row `a` may stand before row `b` in a listing sorted by a column: what
/// `b` has in that column is not smaller.
pub open spec fn in_column_order(a: EntryView, b: EntryView, by: SortKey) -> bool {
    let (ka, kb) = (
        lowercase(label_for(a.name, a.is_dir)),
        lowercase(label_for(b.name, b.is_dir)),
    );
    &&& by == SortKey::Size ==> a.size <= b.size
    &&& by == SortKey::Modified ==> !earlier(b.modified, a.modified)
    &&& by == SortKey::Created ==> !earlier(b.created, a.created)
    &&& by == SortKey::Name ==> names_in_order(a, b)
    &&& by == SortKey::Kind ==> !precedes(kb, ka) && (ka == kb ==> names_in_order(a, b))
    &&& by == SortKey::Standard ==> (b.is_dir ==> a.is_dir) && (a.is_dir == b.is_dir
        ==> names_in_order(a, b))
}

/// Whether two rows have the same in a column, so that sorting by it leaves them as
/// they stood.
pub open spec fn tied_in_column(a: EntryView, b: EntryView, by: SortKey) -> bool {
    match by {
        SortKey::Size => a.size == b.size,
        SortKey::Modified => a.modified == b.modified,
        SortKey::Created => a.created == b.created,
        SortKey::Name => lowercase(a.name) == lowercase(b.name),
        _ => a.name == b.name && a.is_dir == b.is_dir,
    }
}

proof fn lemma_column_order(a: EntryView, b: EntryView, by: SortKey)
    requires
        !key_less(row_key(b, by), row_key(a, by)),
    ensures
        in_column_order(a, b, by),
{
    let (x, y) = (lowercase(a.name), lowercase(b.name));
    let (ka, kb) = (
        lowercase(label_for(a.name, a.is_dir)),
        lowercase(label_for(b.name, b.is_dir)),
    );
    if precedes(y, x) {
        lemma_precedes_less(y, x, Seq::empty(), Seq::empty());
    }
    if precedes(kb, ka) {
        lemma_precedes_less(kb, ka, text_key(y), text_key(x));
    }
    if by == SortKey::Kind && ka == kb {
        lemma_less_behind(text_key(ka) + seq![-1int], text_key(y), text_key(x));
    }
    if by == SortKey::Standard {
        let (p, q) = (row_key(a, by), row_key(b, by));
        assert(p.skip(1) =~= text_key(x));
        assert(q.skip(1) =~= text_key(y));
    }
    if earlier(b.modified, a.modified) {
        lemma_earlier_less(b.modified, a.modified);
    }
    if earlier(b.created, a.created) {
        lemma_earlier_less(b.created, a.created);
    }
    if by == SortKey::Size {
        assert(row_key(a, by)[0] == a.size);
        assert(row_key(b, by)[0] == b.size);
    }
}

/// Whether `r` are the rows of `s` at the positions `o`, each once, in the order of
/// a column, with tied rows in the order in which they stood.
pub open spec fn follows_column(
    s: Seq<EntryView>,
    r: Seq<EntryView>,
    o: Seq<int>,
    by: SortKey,
) -> bool {
    &&& o.len() == s.len() && r.len() == s.len()
    &&& forall|i: int| 0 <= i < o.len() ==> 0 <= #[trigger] o[i] < s.len() && r[i] == s[o[i]]
    &&& forall|i: int, j: int|
        0 <= i < j < o.len() ==> {
            &&& #[trigger] o[i] != #[trigger] o[j]
            &&& in_column_order(r[i], r[j], by)
            &&& tied_in_column(r[i], r[j], by) ==> o[i] < o[j]
        }
}

/// A sorted listing follows its column: sizes and dates rise, an unknown date
/// counting as the earliest; names and kinds are in dictionary order, case aside;
/// the default order puts folders first. Rows that are tied stay as they stood.
pub proof fn law_rows_follow_their_column(s: Seq<EntryView>, by: SortKey)
    ensures
        exists|o: Seq<int>| follows_column(s, sorted_rows(s, by, true), o, by),
        forall|i: int, j: int|
            0 <= i < j < s.len() ==> in_column_order(
                #[trigger] sorted_rows(s, by, true)[i],
                #[trigger] sorted_rows(s, by, true)[j],
                by,
            ),
        sorted_rows(s, SortKey::Standard, false) == sorted_rows(s, SortKey::Standard, true),
{
    let keys = row_keys(s, by);
    lemma_order_exists(keys);
    let o = order_of(keys);
    let r = sorted_rows(s, by, true);
    assert forall|i: int, j: int| 0 <= i < j < o.len() implies {
        &&& #[trigger] o[i] != #[trigger] o[j]
        &&& in_column_order(r[i], r[j], by)
        &&& tied_in_column(r[i], r[j], by) ==> o[i] < o[j]
    } by {
        assert(comes_first(keys, o[i], o[j]));
        let (a, b) = (s[o[i]], s[o[j]]);
        assert(keys[o[i]] == row_key(a, by) && keys[o[j]] == row_key(b, by));
        lemma_key_total(row_key(a, by), row_key(b, by));
        lemma_key_total(row_key(a, by), row_key(a, by));
        lemma_column_order(a, b, by);
        if tied_in_column(a, b, by) {
            assert(row_key(a, by) == row_key(b, by));
        }
    }
    assert(follows_column(s, r, o, by));
    assert forall|i: int, j: int| 0 <= i < j < s.len() implies in_column_order(
        #[trigger] r[i],
        #[trigger] r[j],
        by,
    ) by {
        assert(o[i] != o[j]);
    }
}

// ----- rows that the find bar leaves ---------------------------------------------------

/// The find bar leaves exactly the rows that match, each once: in the order of the
/// listing where that is sorted by a column, and all of them for a blank query.
pub proof fn law_filter_keeps_what_matches(entries: Seq<EntryView>, query: Seq<char>, by: SortKey)
    ensures
        trimmed(query).len() == 0 ==> filtered_rows(entries, query, by).len() == entries.len()
            && forall|i: int|
            0 <= i < entries.len() ==> #[trigger] filtered_rows(entries, query, by)[i] == i,
        trimmed(query).len() > 0 ==> forall|x: int|
            0 <= x < entries.len() ==> (#[trigger] filtered_rows(entries, query, by).contains(x)
                <==> find_tier(trimmed(query), entries[x].name) is Some),
        trimmed(query).len() > 0 && by != SortKey::Standard ==> forall|i: int, j: int|
            0 <= i < j < filtered_rows(entries, query, by).len() ==> #[trigger] filtered_rows(
                entries,
                query,
                by,
            )[i] < #[trigger] filtered_rows(entries, query, by)[j],
{
    let q = trimmed(query);
    if q.len() > 0 {
        let scores = row_scores(entries, q);
        let m = matching_rows(entries, q);
        lemma_ranked(scores);
        lemma_ranked_rises(scores);
        law_filter_ignores_order(entries, query, by);
        let f = filtered_rows(entries, query, by);
        assert forall|x: int| 0 <= x < entries.len() implies (#[trigger] f.contains(x)
            <==> find_tier(q, entries[x].name) is Some) by {
            law_find_matches_have_a_tier(q, entries[x].name);
            assert(scores[x] == find_value(q, entries[x].name));
            broadcast use vstd::seq_lib::group_to_multiset_ensures;

            assert(f.contains(x) <==> f.to_multiset().count(x) > 0);
            assert(m.contains(x) <==> m.to_multiset().count(x) > 0);
            if m.contains(x) {
                let k = choose|k: int| 0 <= k < m.len() && m[k] == x;
                assert(scores[m[k]] is Some);
            }
        }
    }
}

/// In a listing without a sorted column the find bar puts the best match first;
/// among equals folders come first, then names in dictionary order, case aside.
pub proof fn law_best_match_comes_first(
    entries: Seq<EntryView>,
    query: Seq<char>,
    i: int,
    j: int,
)
    requires
        trimmed(query).len() > 0,
        0 <= i < j < filtered_rows(entries, query, SortKey::Standard).len(),
    ensures
        ({
            let f = filtered_rows(entries, query, SortKey::Standard);
            let (a, b) = (entries[f[i]], entries[f[j]]);
            let (x, y) = (
                find_value(trimmed(query), a.name)->0,
                find_value(trimmed(query), b.name)->0,
            );
            &&& x >= y
            &&& x == y ==> (b.is_dir ==> a.is_dir)
            &&& x == y && a.is_dir == b.is_dir ==> names_in_order(a, b)
        }),
{
    let q = trimmed(query);
    let m = matching_rows(entries, q);
    let keys = match_keys(entries, q);
    lemma_ranked(row_scores(entries, q));
    lemma_order_exists(keys);
    let o = order_of(keys);
    assert(comes_first(keys, o[i], o[j]));
    let f = filtered_rows(entries, query, SortKey::Standard);
    let (p, r) = (m[o[i]], m[o[j]]);
    assert(f[i] == p && f[j] == r);
    let (a, b) = (entries[p], entries[r]);
    let (k, l) = (keys[o[i]], keys[o[j]]);
    assert(k == match_key(a, row_scores(entries, q)[p]));
    assert(l == match_key(b, row_scores(entries, q)[r]));
    assert(k[0] == -1 - find_value(q, a.name)->0);
    assert(l[0] == -1 - find_value(q, b.name)->0);
    lemma_key_total(k, l);
    lemma_key_total(k, k);
    assert(k.skip(1)[0] == k[1] && l.skip(1)[0] == l[1]);
    let (x, y) = (lowercase(a.name), lowercase(b.name));
    assert(k.skip(1).skip(1) =~= text_key(x));
    assert(l.skip(1).skip(1) =~= text_key(y));
    reveal_with_fuel(key_less, 3);
    if precedes(y, x) {
        lemma_precedes_less(y, x, Seq::empty(), Seq::empty());
    }
}

} // verus!
