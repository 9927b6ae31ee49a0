//! Stable sorting by keys. A key is a sequence of integers, compared like words
//! in a dictionary; whatever is sorted is first given a key.

use crate::text::chars_of;
use vstd::prelude::*;

verus! {

/// Whether key `a` comes before key `b`: at the first difference the smaller
/// number decides, and a key comes before its extensions.
pub open spec fn key_less(a: Seq<int>, b: Seq<int>) -> bool
    decreases a.len(),
{
    if b.len() == 0 {
        false
    } else if a.len() == 0 {
        true
    } else if a[0] != b[0] {
        a[0] < b[0]
    } else {
        key_less(a.skip(1), b.skip(1))
    }
}

/// Keys are totally ordered.
pub proof fn lemma_key_total(a: Seq<int>, b: Seq<int>)
    ensures
        key_less(a, b) || key_less(b, a) || a == b,
        !(key_less(a, b) && key_less(b, a)),
        !key_less(a, a),
    decreases a.len(),
{
    if a.len() > 0 && b.len() > 0 && a[0] == b[0] {
        lemma_key_total(a.skip(1), b.skip(1));
        if a.skip(1) == b.skip(1) {
            assert forall|i: int| 0 <= i < a.len() implies a[i] == b[i] by {
                if i > 0 {
                    assert(a.skip(1)[i - 1] == b.skip(1)[i - 1]);
                }
            }
            assert(a.len() == b.len()) by {
                assert(a.skip(1).len() == b.skip(1).len());
            }
            assert(a == b);
        }
    }
    if a.len() == 0 && b.len() == 0 {
        assert(a == b);
    }
    if a.len() > 0 {
        lemma_key_irreflexive(a);
    }
}

proof fn lemma_key_irreflexive(a: Seq<int>)
    ensures
        !key_less(a, a),
    decreases a.len(),
{
    if a.len() > 0 {
        lemma_key_irreflexive(a.skip(1));
    }
}

proof fn lemma_key_transitive(a: Seq<int>, b: Seq<int>, c: Seq<int>)
    requires
        key_less(a, b),
        key_less(b, c),
    ensures
        key_less(a, c),
    decreases a.len(),
{
    if a.len() > 0 && a[0] == b[0] && b[0] == c[0] {
        lemma_key_transitive(a.skip(1), b.skip(1), c.skip(1));
    }
}

/// The mathematical value of a key.
pub open spec fn key_view(k: Seq<i128>) -> Seq<int> {
    k.map_values(|x: i128| x as int)
}

/// The mathematical values of a list of keys.
pub open spec fn keys_view(ks: Seq<Vec<i128>>) -> Seq<Seq<int>> {
    ks.map_values(|k: Vec<i128>| key_view(k@))
}

/// Whether item `x` comes before item `y` in a stable sort: by key, and by
/// position for equal keys.
pub open spec fn comes_first(keys: Seq<Seq<int>>, x: int, y: int) -> bool {
    key_less(keys[x], keys[y]) || (keys[x] == keys[y] && x < y)
}

proof fn lemma_first_transitive(keys: Seq<Seq<int>>, x: int, y: int, z: int)
    requires
        comes_first(keys, x, y),
        comes_first(keys, y, z),
    ensures
        comes_first(keys, x, z),
{
    if key_less(keys[x], keys[y]) && key_less(keys[y], keys[z]) {
        lemma_key_transitive(keys[x], keys[y], keys[z]);
    }
}

proof fn lemma_first_strict(keys: Seq<Seq<int>>, x: int, y: int)
    ensures
        !(comes_first(keys, x, y) && comes_first(keys, y, x)),
        !comes_first(keys, x, x),
        x != y ==> comes_first(keys, x, y) || comes_first(keys, y, x),
{
    lemma_key_total(keys[x], keys[y]);
    lemma_key_total(keys[x], keys[x]);
}

/// Whether `o` lists the numbers from `lo` up to `hi` in sorted order.
pub open spec fn orders(keys: Seq<Seq<int>>, o: Seq<int>, lo: int, hi: int) -> bool {
    &&& o.len() == hi - lo
    &&& forall|i: int| 0 <= i < o.len() ==> lo <= #[trigger] o[i] < hi
    &&& forall|x: int| lo <= x < hi ==> #[trigger] o.contains(x)
    &&& forall|i: int, j: int|
        0 <= i < j < o.len() ==> comes_first(keys, #[trigger] o[i], #[trigger] o[j])
}

/// The positions of the items in the order of a stable sort by their keys.
pub open spec fn order_of(keys: Seq<Seq<int>>) -> Seq<int> {
    choose|o: Seq<int>| orders(keys, o, 0, keys.len() as int)
}

/// There is only one way to sort: two sorted orders of the same keys agree.
pub proof fn law_order_is_unique(keys: Seq<Seq<int>>, a: Seq<int>, b: Seq<int>)
    requires
        orders(keys, a, 0, keys.len() as int),
        orders(keys, b, 0, keys.len() as int),
    ensures
        a == b,
{
    assert forall|i: int| 0 <= i < a.len() implies a[i] == b[i] by {
        lemma_same_at(keys, a, b, i);
    }
}

proof fn lemma_same_at(keys: Seq<Seq<int>>, a: Seq<int>, b: Seq<int>, i: int)
    requires
        orders(keys, a, 0, keys.len() as int),
        orders(keys, b, 0, keys.len() as int),
        0 <= i < a.len(),
    ensures
        a[i] == b[i],
    decreases i,
{
    assert(b.contains(a[i]));
    let j = choose|j: int| 0 <= j < b.len() && b[j] == a[i];
    assert(a.contains(b[i]));
    let k = choose|k: int| 0 <= k < a.len() && a[k] == b[i];
    if j < i {
        lemma_same_at(keys, a, b, j);
        assert(a[j] == a[i]);
        lemma_first_strict(keys, a[j], a[i]);
    }
    if k < i {
        lemma_same_at(keys, a, b, k);
        assert(b[k] == b[i]);
        lemma_first_strict(keys, b[k], b[i]);
    }
    if j > i && k > i {
        assert(comes_first(keys, b[i], b[j]));
        assert(comes_first(keys, a[i], a[k]));
        lemma_first_strict(keys, a[i], b[i]);
    }
}

/// Whether key `a` comes before key `b`, or `true` for equal keys.
fn key_at_most(a: &Vec<i128>, b: &Vec<i128>) -> (r: bool)
    ensures
        r == !key_less(key_view(b@), key_view(a@)),
{
    let ghost x = key_view(a@);
    let ghost y = key_view(b@);
    let mut i: usize = 0;
    proof {
        assert(x.skip(0) == x);
        assert(y.skip(0) == y);
    }
    while i < a.len() && i < b.len()
        invariant
            x == key_view(a@),
            y == key_view(b@),
            i <= a.len(),
            i <= b.len(),
            key_less(y, x) == key_less(y.skip(i as int), x.skip(i as int)),
        decreases a.len() - i,
    {
        proof {
            assert(x.skip(i as int)[0] == a@[i as int]);
            assert(y.skip(i as int)[0] == b@[i as int]);
            assert(x.skip(i as int).skip(1) == x.skip(i + 1));
            assert(y.skip(i as int).skip(1) == y.skip(i + 1));
        }
        if a[i] != b[i] {
            return a[i] < b[i];
        }
        i += 1;
    }
    i >= a.len()
}

/// The numbers of a list of positions.
pub open spec fn positions(v: Seq<usize>) -> Seq<int> {
    v.map_values(|x: usize| x as int)
}

fn merge(keys: &Vec<Vec<i128>>, a: Vec<usize>, b: Vec<usize>, Ghost(lo): Ghost<int>, Ghost(
    mid,
): Ghost<int>, Ghost(hi): Ghost<int>) -> (r: Vec<usize>)
    requires
        0 <= lo <= mid <= hi <= keys.len(),
        orders(keys_view(keys@), positions(a@), lo, mid),
        orders(keys_view(keys@), positions(b@), mid, hi),
    ensures
        orders(keys_view(keys@), positions(r@), lo, hi),
{
    let ghost ks = keys_view(keys@);
    let ghost pa = positions(a@);
    let ghost pb = positions(b@);
    let mut out: Vec<usize> = Vec::new();
    let mut i: usize = 0;
    let mut j: usize = 0;
    while i < a.len() || j < b.len()
        invariant
            0 <= lo <= mid <= hi <= keys.len(),
            ks == keys_view(keys@),
            pa == positions(a@),
            pb == positions(b@),
            orders(ks, pa, lo, mid),
            orders(ks, pb, mid, hi),
            i <= a.len(),
            j <= b.len(),
            out.len() == i + j,
            forall|t: int| 0 <= t < out.len() ==> lo <= #[trigger] positions(out@)[t] < hi,
            forall|t: int| 0 <= t < i ==> positions(out@).contains(#[trigger] pa[t]),
            forall|t: int| 0 <= t < j ==> positions(out@).contains(#[trigger] pb[t]),
            forall|s: int, t: int|
                0 <= s < t < out.len() ==> comes_first(
                    ks,
                    #[trigger] positions(out@)[s],
                    #[trigger] positions(out@)[t],
                ),
            forall|s: int, t: int|
                0 <= s < out.len() && i <= t < a.len() ==> comes_first(
                    ks,
                    #[trigger] positions(out@)[s],
                    #[trigger] pa[t],
                ),
            forall|s: int, t: int|
                0 <= s < out.len() && j <= t < b.len() ==> comes_first(
                    ks,
                    #[trigger] positions(out@)[s],
                    #[trigger] pb[t],
                ),
        decreases a.len() + b.len() - i - j,
    {
        let ghost before = positions(out@);
        let ghost i0 = i as int;
        let ghost j0 = j as int;
        proof {
            if i < a.len() {
                assert(pa[i as int] == a@[i as int]);
            }
            if j < b.len() {
                assert(pb[j as int] == b@[j as int]);
            }
        }
        let left = if j >= b.len() {
            true
        } else if i >= a.len() {
            false
        } else {
            proof {
                assert(pa[i as int] < mid);
                assert(mid <= pb[j as int]);
            }
            key_at_most(&keys[a[i]], &keys[b[j]])
        };
        let x: usize = if left {
            a[i]
        } else {
            b[j]
        };
        proof {
            if i < a.len() && j < b.len() {
                let p = pa[i as int];
                let q = pb[j as int];
                assert(ks[p] == key_view(keys@[p]@));
                assert(ks[q] == key_view(keys@[q]@));
                lemma_key_total(ks[p], ks[q]);
                assert(left ==> comes_first(ks, p, q));
                assert(!left ==> comes_first(ks, q, p));
            }
            assert forall|t: int| (if left {
                i + 1
            } else {
                i as int
            }) <= t < a.len() implies comes_first(ks, x as int, #[trigger] pa[t]) by {
                if left {
                    assert(comes_first(ks, pa[i as int], pa[t]));
                } else if t > i {
                    lemma_first_transitive(ks, x as int, pa[i as int], pa[t]);
                }
            }
            assert forall|t: int| (if left {
                j as int
            } else {
                j + 1
            }) <= t < b.len() implies comes_first(ks, x as int, #[trigger] pb[t]) by {
                if !left {
                    assert(comes_first(ks, pb[j as int], pb[t]));
                } else if t > j {
                    lemma_first_transitive(ks, x as int, pb[j as int], pb[t]);
                }
            }
        }
        out.push(x);
        proof {
            assert(positions(out@) == before.push(x as int));
            assert(positions(out@)[before.len() as int] == x);
            assert forall|t: int| 0 <= t < i0 implies positions(out@).contains(
                #[trigger] pa[t],
            ) by {
                assert(before.contains(pa[t]));
                let w = choose|w: int| 0 <= w < before.len() && before[w] == pa[t];
                assert(positions(out@)[w] == pa[t]);
            }
            assert forall|t: int| 0 <= t < j0 implies positions(out@).contains(
                #[trigger] pb[t],
            ) by {
                assert(before.contains(pb[t]));
                let w = choose|w: int| 0 <= w < before.len() && before[w] == pb[t];
                assert(positions(out@)[w] == pb[t]);
            }
        }
        if left {
            i += 1;
        } else {
            j += 1;
        }
    }
    proof {
        assert forall|x: int| lo <= x < hi implies #[trigger] positions(out@).contains(x) by {
            if x < mid {
                assert(pa.contains(x));
                let t = choose|t: int| 0 <= t < pa.len() && pa[t] == x;
                assert(positions(out@).contains(pa[t]));
            } else {
                assert(pb.contains(x));
                let t = choose|t: int| 0 <= t < pb.len() && pb[t] == x;
                assert(positions(out@).contains(pb[t]));
            }
        }
    }
    out
}

fn sort_range(keys: &Vec<Vec<i128>>, lo: usize, hi: usize) -> (r: Vec<usize>)
    requires
        lo <= hi <= keys.len(),
    ensures
        orders(keys_view(keys@), positions(r@), lo as int, hi as int),
    decreases hi - lo,
{
    if hi - lo == 0 {
        return Vec::new();
    }
    if hi - lo == 1 {
        let mut one: Vec<usize> = Vec::new();
        one.push(lo);
        proof {
            assert(positions(one@)[0] == lo);
        }
        return one;
    }
    let mid: usize = lo + (hi - lo) / 2;
    let a = sort_range(keys, lo, mid);
    let b = sort_range(keys, mid, hi);
    merge(keys, a, b, Ghost(lo as int), Ghost(mid as int), Ghost(hi as int))
}

/// The positions of the items in the order of a stable sort by their keys.
pub fn sort_order(keys: &Vec<Vec<i128>>) -> (r: Vec<usize>)
    ensures
        positions(r@) == order_of(keys_view(keys@)),
        orders(keys_view(keys@), positions(r@), 0, keys.len() as int),
{
    let r = sort_range(keys, 0, keys.len());
    proof {
        let ks = keys_view(keys@);
        assert(orders(ks, positions(r@), 0, ks.len() as int));
        let o = order_of(ks);
        assert(orders(ks, o, 0, ks.len() as int));
        law_order_is_unique(ks, positions(r@), o);
    }
    r
}

/// Every list of keys has a sorted order, and `order_of` is one.
pub proof fn lemma_order_exists(keys: Seq<Seq<int>>)
    ensures
        orders(keys, order_of(keys), 0, keys.len() as int),
{
    let o = lemma_order_of_prefix(keys, keys.len() as int);
    assert(orders(keys, o, 0, keys.len() as int));
}

proof fn lemma_order_of_prefix(keys: Seq<Seq<int>>, n: int) -> (o: Seq<int>)
    requires
        0 <= n <= keys.len(),
    ensures
        orders(keys, o, 0, n),
    decreases n,
{
    if n == 0 {
        Seq::empty()
    } else {
        let h = lemma_order_of_prefix(keys, n - 1);
        let x = n - 1;
        let at = lemma_place(keys, h, x, 0);
        let o = h.insert(at, x);
        assert forall|i: int, j: int| 0 <= i < j < o.len() implies comes_first(
            keys,
            #[trigger] o[i],
            #[trigger] o[j],
        ) by {
            if i < at && j == at {
                assert(comes_first(keys, h[i], x));
            } else if i == at {
                assert(o[j] == h[j - 1]);
                assert(!comes_first(keys, h[j - 1], x)) by {
                    if j - 1 > at && comes_first(keys, h[j - 1], x) {
                        lemma_first_transitive(keys, h[at], h[j - 1], x);
                    }
                }
                lemma_first_strict(keys, h[j - 1], x);
            } else {
                let a = if i < at {
                    i
                } else {
                    i - 1
                };
                let b = if j < at {
                    j
                } else {
                    j - 1
                };
                assert(o[i] == h[a] && o[j] == h[b]);
            }
        }
        assert forall|y: int| 0 <= y < n implies #[trigger] o.contains(y) by {
            if y == x {
                assert(o[at] == x);
            } else {
                assert(h.contains(y));
                let k = choose|k: int| 0 <= k < h.len() && h[k] == y;
                assert(o[if k < at {
                    k
                } else {
                    k + 1
                }] == y);
            }
        }
        o
    }
}

proof fn lemma_place(keys: Seq<Seq<int>>, h: Seq<int>, x: int, from: int) -> (at: int)
    requires
        0 <= from <= h.len(),
        forall|i: int| 0 <= i < from ==> comes_first(keys, #[trigger] h[i], x),
        forall|i: int, j: int|
            0 <= i < j < h.len() ==> comes_first(keys, #[trigger] h[i], #[trigger] h[j]),
    ensures
        0 <= at <= h.len(),
        forall|i: int| 0 <= i < at ==> comes_first(keys, #[trigger] h[i], x),
        at < h.len() ==> !comes_first(keys, h[at], x),
    decreases h.len() - from,
{
    if from < h.len() && comes_first(keys, h[from], x) {
        lemma_place(keys, h, x, from + 1)
    } else {
        from
    }
}

/// The items of `s` in the given order.
pub open spec fn arranged<T>(s: Seq<T>, o: Seq<int>) -> Seq<T> {
    o.map_values(|i: int| s[i])
}

/// The key that orders texts by their characters.
pub open spec fn text_key(s: Seq<char>) -> Seq<int> {
    s.map_values(|c: char| (c as u32) as int)
}

/// Appends the characters of a text to a key.
pub fn push_text(k: &mut Vec<i128>, s: &str)
    ensures
        key_view(final(k)@) == key_view(old(k)@) + text_key(s@),
{
    let cs = chars_of(s);
    let mut i: usize = 0;
    proof {
        assert(key_view(k@) == key_view(old(k)@) + text_key(cs@.take(0)));
    }
    while i < cs.len()
        invariant
            i <= cs.len(),
            cs@ == s@,
            key_view(k@) == key_view(old(k)@) + text_key(cs@.take(i as int)),
        decreases cs.len() - i,
    {
        let ghost before = k@;
        let c: char = cs[i];
        let n: u32 = c as u32;
        k.push(n as i128);
        proof {
            assert(key_view(k@) == key_view(before).push((cs@[i as int] as u32) as int));
            assert(text_key(cs@.take(i + 1)) == text_key(cs@.take(i as int)).push(
                (cs@[i as int] as u32) as int,
            ));
        }
        i += 1;
    }
    proof {
        assert(cs@.take(i as int) == s@);
    }
}

/// Rearranging along an order keeps every item.
pub proof fn lemma_arranged_multiset<T>(s: Seq<T>, o: Seq<int>)
    requires
        o.len() == s.len(),
        forall|i: int| 0 <= i < o.len() ==> 0 <= #[trigger] o[i] < s.len(),
        forall|x: int| 0 <= x < s.len() ==> #[trigger] o.contains(x),
    ensures
        arranged(s, o).to_multiset() == s.to_multiset(),
    decreases s.len(),
{
    let a = arranged(s, o);
    if s.len() == 0 {
        assert(a == s);
    } else {
        let last = s.len() - 1;
        assert(o.contains(last));
        let k = choose|k: int| 0 <= k < o.len() && o[k] == last;
        let o2 = o.remove(k);
        let s2 = s.drop_last();
        assert forall|i: int| 0 <= i < o2.len() implies 0 <= #[trigger] o2[i] < s2.len() by {
            let w = if i < k {
                i
            } else {
                i + 1
            };
            assert(o2[i] == o[w]);
            if o[w] == last {
                lemma_cover_no_repeat(o, s.len() as int, w, k);
            }
        }
        assert forall|x: int| 0 <= x < s2.len() implies #[trigger] o2.contains(x) by {
            assert(o.contains(x));
            let w = choose|w: int| 0 <= w < o.len() && o[w] == x;
            assert(o2[if w < k {
                w
            } else {
                w - 1
            }] == x);
        }
        lemma_arranged_multiset(s2, o2);
        assert(arranged(s2, o2) == a.remove(k)) by {
            assert forall|i: int| 0 <= i < o2.len() implies arranged(s2, o2)[i] == a.remove(
                k,
            )[i] by {
                assert(0 <= o2[i] < s2.len());
            }
        }
        vstd::seq_lib::to_multiset_remove(a, k);
        assert(s2 == s.remove(last));
        vstd::seq_lib::to_multiset_remove(s, last);
        vstd::seq_lib::to_multiset_contains(a, a[k]);
        vstd::seq_lib::to_multiset_contains(s, s[last]);
        assert(a[k] == s[last]);
        assert(a.contains(a[k]));
        assert(s.contains(s[last]));
        assert(a.to_multiset() =~= a.to_multiset().remove(a[k]).insert(a[k]));
        assert(s.to_multiset() =~= s.to_multiset().remove(a[k]).insert(a[k]));
    }
}

/// A list as long as what it covers holds nothing twice.
proof fn lemma_cover_no_repeat(o: Seq<int>, n: int, i: int, j: int)
    requires
        o.len() == n,
        forall|t: int| 0 <= t < o.len() ==> 0 <= #[trigger] o[t] < n,
        forall|x: int| 0 <= x < n ==> #[trigger] o.contains(x),
        0 <= i < n,
        0 <= j < n,
        i != j,
    ensures
        o[i] != o[j],
{
    if o[i] == o[j] {
        let r = o.remove(i);
        let all = Set::new(|x: int| 0 <= x < n);
        vstd::set_lib::lemma_int_range(0, n);
        assert(all =~= vstd::set_lib::set_int_range(0, n));
        assert(r.to_set() =~= all) by {
            assert forall|x: int| all.contains(x) implies r.to_set().contains(x) by {
                assert(o.contains(x));
                let w = choose|w: int| 0 <= w < o.len() && o[w] == x;
                let v = if w == i {
                    j
                } else {
                    w
                };
                assert(r[if v < i {
                    v
                } else {
                    v - 1
                }] == x);
            }
            assert forall|x: int| r.to_set().contains(x) implies all.contains(x) by {
                let w = choose|w: int| 0 <= w < r.len() && r[w] == x;
                assert(r[w] == o[if w < i {
                    w
                } else {
                    w + 1
                }]);
            }
        }
        vstd::seq_lib::seq_to_set_is_finite(r);
        r.lemma_cardinality_of_set();
    }
}

} // verus!
