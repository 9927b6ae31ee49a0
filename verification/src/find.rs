//! Filtering the rows of a folder by what is typed into the find bar.

use crate::index::{lemma_ranked, ranked};
use crate::listing::{Entry, EntryView, SortKey, rows};
use crate::score::{find_score, find_value, opt_score};
use crate::sorting::{
    arranged, key_view, keys_view, lemma_arranged_multiset, lemma_order_exists, order_of, orders,
    positions, push_text, sort_order, text_key,
};
use crate::text::{lowercase, trim, trimmed};
use vstd::prelude::*;

verus! {

/// The score of each row for a query.
pub open spec fn row_scores(entries: Seq<EntryView>, q: Seq<char>) -> Seq<Option<int>> {
    entries.map_values(|e: EntryView| find_value(q, e.name))
}

/// The rows that match a query, in the order of the listing.
pub open spec fn matching_rows(entries: Seq<EntryView>, q: Seq<char>) -> Seq<int> {
    ranked(row_scores(entries, q))
}

/// The key that sorts the best score first, then folders first, then by name.
pub open spec fn match_key(e: EntryView, score: Option<int>) -> Seq<int> {
    seq![
        -1 - score->0,
        if e.is_dir {
            0int
        } else {
            1
        },
    ] + text_key(lowercase(e.name))
}

/// The keys of the matching rows.
pub open spec fn match_keys(entries: Seq<EntryView>, q: Seq<char>) -> Seq<Seq<int>> {
    matching_rows(entries, q).map_values(
        |i: int| match_key(entries[i], row_scores(entries, q)[i]),
    )
}

/// The rows that match a query, best match first.
pub open spec fn best_rows(entries: Seq<EntryView>, q: Seq<char>) -> Seq<int> {
    arranged(matching_rows(entries, q), order_of(match_keys(entries, q)))
}

/// The rows `0..n`.
pub open spec fn every_row(n: nat) -> Seq<int> {
    Seq::new(n, |i: int| i)
}

/// The rows shown for a find query: all of them for a blank one, otherwise those
/// that match, best first unless a column sort is in force.
pub open spec fn filtered_rows(entries: Seq<EntryView>, query: Seq<char>, by: SortKey) -> Seq<int> {
    let q = trimmed(query);
    if q.len() == 0 {
        every_row(entries.len())
    } else if by != SortKey::Standard {
        matching_rows(entries, q)
    } else {
        best_rows(entries, q)
    }
}

/// The rows shown for a query are rows of the listing.
pub proof fn lemma_filtered_in_range(entries: Seq<EntryView>, query: Seq<char>, by: SortKey)
    ensures
        forall|k: int|
            0 <= k < filtered_rows(entries, query, by).len() ==> 0 <= #[trigger] filtered_rows(
                entries,
                query,
                by,
            )[k] < entries.len(),
{
    let q = trimmed(query);
    let scores = row_scores(entries, q);
    lemma_ranked(scores);
    lemma_order_exists(match_keys(entries, q));
    let o = order_of(match_keys(entries, q));
    let f = filtered_rows(entries, query, by);
    assert forall|k: int| 0 <= k < f.len() implies 0 <= #[trigger] f[k] < entries.len() by {
        if q.len() > 0 && by == SortKey::Standard {
            assert(0 <= o[k] < matching_rows(entries, q).len());
            assert(f[k] == matching_rows(entries, q)[o[k]]);
        }
    }
}

/// A query keeps exactly the rows it matches: column sorting changes their order
/// only.
pub proof fn law_filter_ignores_order(entries: Seq<EntryView>, query: Seq<char>, by: SortKey)
    requires
        trimmed(query).len() > 0,
    ensures
        filtered_rows(entries, query, by).to_multiset() == matching_rows(
            entries,
            trimmed(query),
        ).to_multiset(),
{
    let q = trimmed(query);
    lemma_order_exists(match_keys(entries, q));
    lemma_arranged_multiset(matching_rows(entries, q), order_of(match_keys(entries, q)));
}

/// The rows that match `q`: best first if `by_rank`, else in listing order.
pub fn find_rows(entries: &Vec<Entry>, q: &str, by_rank: bool) -> (r: Vec<usize>)
    ensures
        positions(r@) == (if by_rank {
            best_rows(rows(entries@), q@)
        } else {
            matching_rows(rows(entries@), q@)
        }),
        forall|k: int| 0 <= k < r@.len() ==> #[trigger] r@[k] < entries.len(),
{
    let ghost es = rows(entries@);
    let ghost scores = row_scores(es, q@);
    let mut hits: Vec<usize> = Vec::new();
    let mut keys: Vec<Vec<i128>> = Vec::new();
    let mut i: usize = 0;
    while i < entries.len()
        invariant
            i <= entries.len(),
            es == rows(entries@),
            scores == row_scores(es, q@),
            positions(hits@) == ranked(scores.take(i as int)),
            keys_view(keys@) == positions(hits@).map_values(|k: int| match_key(es[k], scores[k])),
            forall|k: int| 0 <= k < hits@.len() ==> #[trigger] hits@[k] < i,
        decreases entries.len() - i,
    {
        let s = find_score(q, entries[i].name.as_str());
        proof {
            assert(scores.take(i + 1).drop_last() == scores.take(i as int));
            assert(scores.take(i + 1).last() == opt_score(s));
        }
        match s {
            Some(v) => {
                let mut k: Vec<i128> = Vec::new();
                k.push(-1 - v);
                k.push(
                    if entries[i].is_dir {
                        0
                    } else {
                        1
                    },
                );
                proof {
                    assert(key_view(k@) == seq![
                        -1 - v as int,
                        if entries@[i as int].is_dir {
                            0int
                        } else {
                            1
                        },
                    ]);
                }
                let low = entries[i].name.to_lowercase();
                push_text(&mut k, low.as_str());
                proof {
                    assert(key_view(k@) == match_key(es[i as int], scores[i as int]));
                    assert(keys_view(keys@.push(k)) == keys_view(keys@).push(key_view(k@)));
                    assert(positions(hits@.push(i)) == positions(hits@).push(i as int));
                }
                keys.push(k);
                hits.push(i);
            },
            None => {},
        }
        i += 1;
    }
    proof {
        assert(scores.take(i as int) == scores);
    }
    if !by_rank {
        return hits;
    }
    proof {
        assert(keys_view(keys@) == match_keys(es, q@));
        assert(keys_view(keys@).len() == keys@.len());
        assert(positions(hits@).len() == hits@.len());
    }
    let order = sort_order(&keys);
    let ghost o = positions(order@);
    let mut out: Vec<usize> = Vec::new();
    let mut j: usize = 0;
    while j < order.len()
        invariant
            j <= order.len(),
            o == positions(order@),
            order.len() == hits.len(),
            orders(match_keys(es, q@), o, 0, hits.len() as int),
            positions(hits@) == matching_rows(es, q@),
            forall|k: int| 0 <= k < hits@.len() ==> #[trigger] hits@[k] < entries.len(),
            forall|k: int| 0 <= k < out@.len() ==> #[trigger] out@[k] < entries.len(),
            positions(out@) == arranged(matching_rows(es, q@), o.take(j as int)),
        decreases order.len() - j,
    {
        proof {
            assert(o[j as int] == order@[j as int]);
            assert(0 <= o[j as int] < hits.len());
        }
        let h: usize = hits[order[j]];
        proof {
            assert(positions(out@.push(h)) == positions(out@).push(h as int));
            assert(arranged(matching_rows(es, q@), o.take(j + 1)) == arranged(
                matching_rows(es, q@),
                o.take(j as int),
            ).push(h as int));
        }
        out.push(h);
        j += 1;
    }
    proof {
        assert(o.take(j as int) == o);
    }
    out
}

/// The rows shown for a find query.
pub fn filter_rows(entries: &Vec<Entry>, query: &str, by: SortKey) -> (r: Vec<usize>)
    ensures
        positions(r@) == filtered_rows(rows(entries@), query@, by),
        forall|k: int| 0 <= k < r@.len() ==> #[trigger] r@[k] < entries.len(),
{
    let q = trim(query);
    if q.as_str().is_empty() {
        let mut out: Vec<usize> = Vec::new();
        let mut i: usize = 0;
        while i < entries.len()
            invariant
                i <= entries.len(),
                positions(out@) == every_row(i as nat),
                forall|k: int| 0 <= k < out@.len() ==> #[trigger] out@[k] < i,
            decreases entries.len() - i,
        {
            proof {
                assert(positions(out@.push(i)) == positions(out@).push(i as int));
                assert(every_row((i + 1) as nat) == every_row(i as nat).push(i as int));
            }
            out.push(i);
            i += 1;
        }
        return out;
    }
    find_rows(entries, q.as_str(), by == SortKey::Standard)
}

} // verus!
