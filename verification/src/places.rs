//! Lists of paths without repeats, where two spellings of one place count as the
//! same: selections, recent folders, bookmarks.

use crate::paths::{components, components_of, same_path, same_place};
use crate::sorting::{
    arranged, key_view, keys_view, lemma_arranged_multiset, lemma_order_exists, order_of, orders,
    positions, push_text, sort_order, text_key,
};
use crate::text::{owned, same, texts};
use vstd::prelude::*;

verus! {

/// The first position from `from` on at which `s` holds the place `p`.
pub open spec fn place_from(s: Seq<Seq<char>>, p: Seq<char>, from: int) -> Option<int>
    decreases s.len() - from,
{
    if from >= s.len() {
        None
    } else if same_place(s[from], p) {
        Some(from)
    } else {
        place_from(s, p, from + 1)
    }
}

/// The first position at which `s` holds the place `p`.
pub open spec fn place_in(s: Seq<Seq<char>>, p: Seq<char>) -> Option<int> {
    place_from(s, p, 0)
}

/// Whether `s` holds the place `p`.
pub open spec fn holds_place(s: Seq<Seq<char>>, p: Seq<char>) -> bool {
    exists|i: int| 0 <= i < s.len() && same_place(#[trigger] s[i], p)
}

/// Whether no place stands in `s` twice.
pub open spec fn no_repeats(s: Seq<Seq<char>>) -> bool {
    forall|i: int, j: int|
        0 <= i < j < s.len() ==> !same_place(#[trigger] s[i], #[trigger] s[j])
}

/// `s` without the place `p`.
pub open spec fn without_place(s: Seq<Seq<char>>, p: Seq<char>) -> Seq<Seq<char>>
    decreases s.len(),
{
    if s.len() == 0 {
        Seq::empty()
    } else {
        let head = without_place(s.drop_last(), p);
        if same_place(s.last(), p) {
            head
        } else {
            head.push(s.last())
        }
    }
}

/// What is left without a place does not hold it, holds every other place as
/// before, and repeats nothing that was not repeated.
pub proof fn lemma_without_place(s: Seq<Seq<char>>, p: Seq<char>)
    ensures
        !holds_place(without_place(s, p), p),
        forall|q: Seq<char>|
            !same_place(q, p) ==> (#[trigger] holds_place(without_place(s, p), q) == holds_place(
                s,
                q,
            )),
        forall|i: int|
            0 <= i < without_place(s, p).len() ==> s.contains(#[trigger] without_place(s, p)[i]),
        no_repeats(s) ==> no_repeats(without_place(s, p)),
        without_place(s, p).len() <= s.len(),
        !holds_place(s, p) ==> without_place(s, p) == s,
    decreases s.len(),
{
    if s.len() > 0 {
        let h = s.drop_last();
        let x = s.last();
        lemma_without_place(h, p);
        let w = without_place(s, p);
        let wh = without_place(h, p);
        assert(s[s.len() - 1] == x);
        if holds_place(w, p) {
            let i = choose|i: int| 0 <= i < w.len() && same_place(#[trigger] w[i], p);
            if i < wh.len() {
                assert(wh[i] == w[i]);
                assert(holds_place(wh, p));
            }
        }
        assert forall|q: Seq<char>| !same_place(q, p) implies (#[trigger] holds_place(w, q)
            == holds_place(s, q)) by {
            if holds_place(w, q) {
                let i = choose|i: int| 0 <= i < w.len() && same_place(#[trigger] w[i], q);
                if i < wh.len() {
                    assert(wh[i] == w[i]);
                    assert(holds_place(wh, q));
                    let k = choose|k: int| 0 <= k < h.len() && same_place(#[trigger] h[k], q);
                    assert(s[k] == h[k]);
                } else {
                    assert(s[s.len() - 1] == w[i]);
                }
            }
            if holds_place(s, q) {
                let k = choose|k: int| 0 <= k < s.len() && same_place(#[trigger] s[k], q);
                if k < h.len() {
                    assert(h[k] == s[k]);
                    assert(holds_place(h, q));
                    assert(holds_place(wh, q));
                    let i = choose|i: int| 0 <= i < wh.len() && same_place(#[trigger] wh[i], q);
                    assert(w[i] == wh[i]);
                } else {
                    assert(!same_place(x, p));
                    assert(w[w.len() - 1] == x);
                }
            }
        }
        assert forall|i: int| 0 <= i < w.len() implies s.contains(#[trigger] w[i]) by {
            if i < wh.len() {
                assert(w[i] == wh[i]);
                assert(h.contains(wh[i]));
                let k = choose|k: int| 0 <= k < h.len() && h[k] == wh[i];
                assert(s[k] == w[i]);
            } else {
                assert(s[s.len() - 1] == w[i]);
            }
        }
        if no_repeats(s) {
            assert forall|i: int, j: int| 0 <= i < j < h.len() implies !same_place(
                #[trigger] h[i],
                #[trigger] h[j],
            ) by {
                assert(h[i] == s[i] && h[j] == s[j]);
            }
            assert forall|i: int, j: int| 0 <= i < j < w.len() implies !same_place(
                #[trigger] w[i],
                #[trigger] w[j],
            ) by {
                assert(w[i] == wh[i]);
                if j < wh.len() {
                    assert(w[j] == wh[j]);
                } else {
                    assert(h.contains(wh[i]));
                    let k = choose|k: int| 0 <= k < h.len() && h[k] == wh[i];
                    assert(s[k] == w[i]);
                    assert(!same_place(s[k], s[s.len() - 1]));
                }
            }
        }
        if !holds_place(s, p) {
            assert(!holds_place(h, p)) by {
                if holds_place(h, p) {
                    let k = choose|k: int| 0 <= k < h.len() && same_place(#[trigger] h[k], p);
                    assert(s[k] == h[k]);
                }
            }
            assert(h.push(x) == s);
        }
    }
}

/// The first position at which `v` holds the place `p`.
pub fn find_place(v: &Vec<String>, p: &str) -> (r: Option<usize>)
    ensures
        match r {
            Some(i) => place_in(texts(v@), p@) == Some(i as int) && i < v.len(),
            None => place_in(texts(v@), p@) is None,
        },
        r is Some == holds_place(texts(v@), p@),
{
    let mut i: usize = 0;
    while i < v.len()
        invariant
            i <= v.len(),
            place_from(texts(v@), p@, i as int) == place_in(texts(v@), p@),
            forall|k: int| 0 <= k < i ==> !same_place(#[trigger] texts(v@)[k], p@),
        decreases v.len() - i,
    {
        if same_path(v[i].as_str(), p) {
            proof {
                assert(same_place(texts(v@)[i as int], p@));
            }
            return Some(i);
        }
        i += 1;
    }
    None
}

/// `v` without the place `p`.
pub fn drop_place(v: &Vec<String>, p: &str) -> (r: Vec<String>)
    ensures
        texts(r@) == without_place(texts(v@), p@),
{
    let mut out: Vec<String> = Vec::new();
    let mut i: usize = 0;
    while i < v.len()
        invariant
            i <= v.len(),
            texts(out@) == without_place(texts(v@).take(i as int), p@),
        decreases v.len() - i,
    {
        proof {
            let t = texts(v@);
            assert(t.take(i + 1).drop_last() == t.take(i as int));
            assert(t.take(i + 1).last() == v@[i as int]@);
        }
        if !same_path(v[i].as_str(), p) {
            let c = v[i].clone();
            proof {
                assert(texts(out@.push(c)) == texts(out@).push(c@));
            }
            out.push(c);
        }
        i += 1;
    }
    proof {
        assert(texts(v@).take(i as int) == texts(v@));
    }
    out
}

/// `s` with `p` taken in, or taken out if it was there.
pub open spec fn toggled(s: Seq<Seq<char>>, p: Seq<char>) -> Seq<Seq<char>> {
    if holds_place(s, p) {
        without_place(s, p)
    } else {
        s.push(p)
    }
}

/// Toggling a place changes whether it is held, leaves every other place alone,
/// and repeats nothing.
pub proof fn law_toggle_flips(s: Seq<Seq<char>>, p: Seq<char>, q: Seq<char>)
    requires
        no_repeats(s),
    ensures
        holds_place(toggled(s, p), p) == !holds_place(s, p),
        !same_place(q, p) ==> holds_place(toggled(s, p), q) == holds_place(s, q),
        no_repeats(toggled(s, p)),
{
    lemma_without_place(s, p);
    let t = toggled(s, p);
    if holds_place(s, p) {
        if !same_place(q, p) {
            assert(holds_place(t, q) == holds_place(s, q));
        }
    } else {
        assert(t[s.len() as int] == p);
        assert(holds_place(t, p));
        if !same_place(q, p) {
            if holds_place(t, q) {
                let k = choose|k: int| 0 <= k < t.len() && same_place(#[trigger] t[k], q);
                assert(k < s.len());
                assert(s[k] == t[k]);
            }
            if holds_place(s, q) {
                let k = choose|k: int| 0 <= k < s.len() && same_place(#[trigger] s[k], q);
                assert(t[k] == s[k]);
            }
        }
        assert forall|i: int, j: int| 0 <= i < j < t.len() implies !same_place(
            #[trigger] t[i],
            #[trigger] t[j],
        ) by {
            assert(t[i] == s[i]);
            if j < s.len() {
                assert(t[j] == s[j]);
            }
        }
    }
}

/// `s` with `p` in front, and no more than `cap` entries.
pub open spec fn moved_to_front(s: Seq<Seq<char>>, p: Seq<char>, cap: int) -> Seq<Seq<char>> {
    let t = seq![p] + without_place(s, p);
    if t.len() > cap {
        t.take(cap)
    } else {
        t
    }
}

/// A list of recent places has its newest place in front, stays within its cap,
/// and repeats nothing.
pub proof fn law_recent_list(s: Seq<Seq<char>>, p: Seq<char>, cap: int)
    requires
        no_repeats(s),
        cap >= 1,
    ensures
        moved_to_front(s, p, cap)[0] == p,
        1 <= moved_to_front(s, p, cap).len() <= cap,
        no_repeats(moved_to_front(s, p, cap)),
{
    lemma_without_place(s, p);
    let w = without_place(s, p);
    let r = moved_to_front(s, p, cap);
    assert forall|i: int, j: int| 0 <= i < j < r.len() implies !same_place(
        #[trigger] r[i],
        #[trigger] r[j],
    ) by {
        assert(r[j] == w[j - 1]);
        if i > 0 {
            assert(r[i] == w[i - 1]);
        } else {
            assert(!same_place(w[j - 1], p));
        }
    }
}

/// Puts `p` in front of a list of recent places.
pub fn push_recent(v: &Vec<String>, p: &str, cap: usize) -> (r: Vec<String>)
    ensures
        texts(r@) == moved_to_front(texts(v@), p@, cap as int),
{
    let mut rest = drop_place(v, p);
    rest.insert(0, owned(p));
    proof {
        assert(texts(rest@) == seq![p@] + without_place(texts(v@), p@));
    }
    if rest.len() > cap {
        let ghost before = texts(rest@);
        rest.truncate(cap);
        proof {
            assert(texts(rest@) == before.take(cap as int));
        }
    }
    rest
}

/// The key of one component: roots first, then `.`, `..` and names.
pub open spec fn component_key(c: Seq<char>) -> Seq<int> {
    seq![
        if c == "/"@ {
            1int
        } else if c == "."@ {
            2
        } else if c == ".."@ {
            3
        } else {
            4
        },
    ] + text_key(c) + seq![-1int]
}

/// The key that sorts paths component by component.
pub open spec fn path_key(cs: Seq<Seq<char>>) -> Seq<int>
    decreases cs.len(),
{
    if cs.len() == 0 {
        Seq::empty()
    } else {
        path_key(cs.drop_last()) + component_key(cs.last())
    }
}

/// Paths in order, component by component.
pub open spec fn sorted_paths(s: Seq<Seq<char>>) -> Seq<Seq<char>> {
    arranged(s, order_of(s.map_values(|p: Seq<char>| path_key(components_of(p)))))
}

fn key_of_path(p: &str) -> (k: Vec<i128>)
    ensures
        key_view(k@) == path_key(components_of(p@)),
{
    let cs = components(p);
    let mut k: Vec<i128> = Vec::new();
    let mut i: usize = 0;
    proof {
        assert(key_view(k@) =~= Seq::<int>::empty());
        assert(texts(cs@).take(0) =~= Seq::<Seq<char>>::empty());
    }
    while i < cs.len()
        invariant
            i <= cs.len(),
            key_view(k@) == path_key(texts(cs@).take(i as int)),
        decreases cs.len() - i,
    {
        let ghost before = key_view(k@);
        let c = cs[i].as_str();
        let rank: i128 = if same(c, "/") {
            1
        } else if same(c, ".") {
            2
        } else if same(c, "..") {
            3
        } else {
            4
        };
        k.push(rank);
        proof {
            assert(key_view(k@) =~= before + seq![rank as int]);
        }
        push_text(&mut k, c);
        let ghost mid = key_view(k@);
        k.push(-1);
        proof {
            assert(key_view(k@) =~= mid + seq![-1int]);
            assert(key_view(k@) =~= before + component_key(c@));
            let t = texts(cs@);
            assert(t.take(i + 1).drop_last() =~= t.take(i as int));
            assert(t.take(i + 1).last() == c@);
        }
        i += 1;
    }
    proof {
        assert(texts(cs@).take(i as int) =~= texts(cs@));
    }
    k
}

/// Sorts paths component by component.
pub fn sort_paths(v: &Vec<String>) -> (r: Vec<String>)
    ensures
        texts(r@) == sorted_paths(texts(v@)),
{
    let ghost s = texts(v@);
    let ghost want = s.map_values(|p: Seq<char>| path_key(components_of(p)));
    let mut keys: Vec<Vec<i128>> = Vec::new();
    let mut i: usize = 0;
    while i < v.len()
        invariant
            i <= v.len(),
            s == texts(v@),
            want == s.map_values(|p: Seq<char>| path_key(components_of(p))),
            keys_view(keys@) == want.take(i as int),
        decreases v.len() - i,
    {
        let k = key_of_path(v[i].as_str());
        proof {
            assert(key_view(k@) == want[i as int]);
            assert(keys_view(keys@.push(k)) == keys_view(keys@).push(key_view(k@)));
            assert(want.take(i + 1) =~= want.take(i as int).push(key_view(k@)));
        }
        keys.push(k);
        i += 1;
    }
    proof {
        assert(want.take(i as int) =~= want);
        assert(keys_view(keys@).len() == keys@.len());
    }
    let order = sort_order(&keys);
    let ghost o = positions(order@);
    let mut out: Vec<String> = Vec::new();
    let mut j: usize = 0;
    while j < order.len()
        invariant
            j <= order.len(),
            s == texts(v@),
            o == positions(order@),
            orders(want, o, 0, v.len() as int),
            texts(out@) == arranged(s, o.take(j as int)),
        decreases order.len() - j,
    {
        proof {
            assert(o[j as int] == order@[j as int]);
            assert(0 <= o[j as int] < v.len());
        }
        let c = v[order[j]].clone();
        proof {
            assert(texts(out@.push(c)) == texts(out@).push(c@));
            assert(arranged(s, o.take(j + 1)) =~= arranged(s, o.take(j as int)).push(c@));
        }
        out.push(c);
        j += 1;
    }
    proof {
        assert(o.take(j as int) =~= o);
    }
    out
}

/// Sorting paths only rearranges them.
pub proof fn law_sorted_paths_keep(s: Seq<Seq<char>>)
    ensures
        sorted_paths(s).to_multiset() == s.to_multiset(),
        sorted_paths(s).len() == s.len(),
{
    let keys = s.map_values(|p: Seq<char>| path_key(components_of(p)));
    lemma_order_exists(keys);
    lemma_arranged_multiset(s, order_of(keys));
}

} // verus!
