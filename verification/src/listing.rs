//! Directory listings: the rows of a folder and the ways to sort them.

use crate::kinds::{kind_label, label_for};
use crate::sorting::{
    arranged, comes_first, key_view, keys_view, lemma_arranged_multiset, lemma_order_exists,
    order_of, orders, positions, push_text, sort_order, text_key,
};
use crate::text::lowercase;
use vstd::prelude::*;

verus! {

/// A moment: seconds since 1970 and nanoseconds within the second.
#[derive(Clone, Copy, PartialEq, Eq, Structural, Debug)]
pub struct Stamp {
    pub secs: i64,
    pub nanos: u32,
}

/// One row of a listing, with the metadata that is shown.
#[derive(Debug)]
pub struct Entry {
    pub name: String,
    pub is_dir: bool,
    pub size: u64,
    pub modified: Option<Stamp>,
    pub created: Option<Stamp>,
    /// Whether size and dates have been read.
    pub loaded: bool,
}

/// One row of a listing, with its name as characters.
#[verifier::ext_equal]
pub struct EntryView {
    pub name: Seq<char>,
    pub is_dir: bool,
    pub size: u64,
    pub modified: Option<Stamp>,
    pub created: Option<Stamp>,
    pub loaded: bool,
}

impl View for Entry {
    type V = EntryView;

    open spec fn view(&self) -> EntryView {
        EntryView {
            name: self.name@,
            is_dir: self.is_dir,
            size: self.size,
            modified: self.modified,
            created: self.created,
            loaded: self.loaded,
        }
    }
}

/// The rows of a listing, as characters and plain values.
pub open spec fn rows(v: Seq<Entry>) -> Seq<EntryView> {
    v.map_values(|e: Entry| e@)
}

impl Entry {
    /// A copy of the row.
    pub fn copy(&self) -> (r: Entry)
        ensures
            r@ == self@,
    {
        Entry {
            name: self.name.clone(),
            is_dir: self.is_dir,
            size: self.size,
            modified: self.modified,
            created: self.created,
            loaded: self.loaded,
        }
    }

    /// A row as the first, quick reading of a directory delivers it.
    pub fn quick(name: String, is_dir: bool) -> (r: Entry)
        ensures
            r@ == (EntryView {
                name: name@,
                is_dir,
                size: 0,
                modified: None,
                created: None,
                loaded: false,
            }),
    {
        Entry { name, is_dir, size: 0, modified: None, created: None, loaded: false }
    }
}

/// How a listing is sorted. `Standard` is folders first, then by name.
#[derive(Clone, Copy, PartialEq, Eq, Structural, Debug)]
pub enum SortKey {
    Standard,
    Name,
    Kind,
    Modified,
    Created,
    Size,
}

/// The label of a sort criterion.
pub open spec fn sort_label(k: SortKey) -> Seq<char> {
    match k {
        SortKey::Standard => "None"@,
        SortKey::Name => "Name"@,
        SortKey::Kind => "Kind"@,
        SortKey::Modified => "Date Modified"@,
        SortKey::Created => "Date Created"@,
        SortKey::Size => "Size"@,
    }
}

impl SortKey {
    /// The label of the criterion.
    pub fn label(self) -> (r: &'static str)
        ensures
            r@ == sort_label(self),
    {
        match self {
            SortKey::Standard => "None",
            SortKey::Name => "Name",
            SortKey::Kind => "Kind",
            SortKey::Modified => "Date Modified",
            SortKey::Created => "Date Created",
            SortKey::Size => "Size",
        }
    }
}

/// The key of an optional moment: no moment comes first.
pub open spec fn stamp_key(t: Option<Stamp>) -> Seq<int> {
    match t {
        None => seq![0int],
        Some(s) => seq![1int, s.secs as int, s.nanos as int],
    }
}

/// The key of two texts, compared one after the other.
pub open spec fn two_text_key(a: Seq<char>, b: Seq<char>) -> Seq<int> {
    text_key(a) + seq![-1int] + text_key(b)
}

/// The sort key of a row under a criterion. Text is compared without case.
pub open spec fn row_key(e: EntryView, by: SortKey) -> Seq<int> {
    match by {
        SortKey::Standard => seq![
            if e.is_dir {
                0int
            } else {
                1
            },
        ] + text_key(lowercase(e.name)),
        SortKey::Name => text_key(lowercase(e.name)),
        SortKey::Kind => two_text_key(
            lowercase(label_for(e.name, e.is_dir)),
            lowercase(e.name),
        ),
        SortKey::Modified => stamp_key(e.modified),
        SortKey::Created => stamp_key(e.created),
        SortKey::Size => seq![e.size as int],
    }
}

/// The sort keys of all rows.
pub open spec fn row_keys(s: Seq<EntryView>, by: SortKey) -> Seq<Seq<int>> {
    s.map_values(|e: EntryView| row_key(e, by))
}

/// The rows in sorted order; descending is the exact reverse, except that the
/// default order has no direction.
pub open spec fn sorted_rows(s: Seq<EntryView>, by: SortKey, asc: bool) -> Seq<EntryView> {
    let up = arranged(s, order_of(row_keys(s, by)));
    if asc || by == SortKey::Standard {
        up
    } else {
        up.reverse()
    }
}

fn push_stamp(k: &mut Vec<i128>, t: Option<Stamp>)
    requires
        old(k)@.len() == 0,
    ensures
        key_view(final(k)@) == stamp_key(t),
{
    match t {
        None => {
            k.push(0);
        },
        Some(s) => {
            k.push(1);
            k.push(s.secs as i128);
            k.push(s.nanos as i128);
        },
    }
    proof {
        assert(key_view(k@) == stamp_key(t));
    }
}

fn key_for(e: &Entry, by: SortKey) -> (k: Vec<i128>)
    ensures
        key_view(k@) == row_key(e@, by),
{
    let mut k: Vec<i128> = Vec::new();
    proof {
        assert(key_view(k@) == Seq::<int>::empty());
    }
    match by {
        SortKey::Standard => {
            k.push(
                if e.is_dir {
                    0
                } else {
                    1
                },
            );
            proof {
                assert(key_view(k@) == seq![
                    if e.is_dir {
                        0int
                    } else {
                        1
                    },
                ]);
            }
            let n = e.name.to_lowercase();
            push_text(&mut k, n.as_str());
        },
        SortKey::Name => {
            let n = e.name.to_lowercase();
            push_text(&mut k, n.as_str());
            proof {
                assert(key_view(k@) == text_key(lowercase(e.name@)));
            }
        },
        SortKey::Kind => {
            let label = kind_label(e.name.as_str(), e.is_dir);
            let l = label.to_lowercase();
            push_text(&mut k, l.as_str());
            k.push(-1);
            proof {
                assert(key_view(k@) == text_key(l@) + seq![-1int]);
            }
            let n = e.name.to_lowercase();
            push_text(&mut k, n.as_str());
        },
        SortKey::Modified => {
            push_stamp(&mut k, e.modified);
        },
        SortKey::Created => {
            push_stamp(&mut k, e.created);
        },
        SortKey::Size => {
            k.push(e.size as i128);
            proof {
                assert(key_view(k@) == seq![e.size as int]);
            }
        },
    }
    k
}

/// Sorts rows by a criterion and a direction.
pub fn sort_entries(entries: &Vec<Entry>, key: SortKey, asc: bool) -> (r: Vec<Entry>)
    ensures
        rows(r@) == sorted_rows(rows(entries@), key, asc),
{
    let mut keys: Vec<Vec<i128>> = Vec::new();
    let mut i: usize = 0;
    while i < entries.len()
        invariant
            i <= entries.len(),
            keys_view(keys@) == row_keys(rows(entries@), key).take(i as int),
        decreases entries.len() - i,
    {
        let k = key_for(&entries[i], key);
        proof {
            assert(keys_view(keys@.push(k)) == keys_view(keys@).push(key_view(k@)));
            assert(row_keys(rows(entries@), key).take(i + 1) == row_keys(rows(entries@), key).take(
                i as int,
            ).push(key_view(k@)));
        }
        keys.push(k);
        i += 1;
    }
    let ghost all = rows(entries@);
    proof {
        assert(row_keys(all, key).take(i as int) == row_keys(all, key));
        assert(keys@.len() == keys_view(keys@).len());
    }
    let order = sort_order(&keys);
    let ghost o = positions(order@);
    let backwards = !asc && key != SortKey::Standard;
    let mut out: Vec<Entry> = Vec::new();
    let mut n: usize = 0;
    let ghost want = sorted_rows(all, key, asc);
    while n < order.len()
        invariant
            n <= order.len(),
            order.len() == entries.len(),
            all == rows(entries@),
            o == positions(order@),
            o == order_of(row_keys(all, key)),
            want == sorted_rows(all, key, asc),
            backwards == (!asc && key != SortKey::Standard),
            orders(row_keys(all, key), o, 0, entries.len() as int),
            rows(out@) == want.take(n as int),
        decreases order.len() - n,
    {
        let at: usize = if backwards {
            order[order.len() - 1 - n]
        } else {
            order[n]
        };
        proof {
            let w: int = if backwards {
                order.len() - 1 - n
            } else {
                n as int
            };
            assert(o[w] == at);
            assert(0 <= o[w] < entries.len());
            assert(want[n as int] == all[at as int]);
        }
        let e = entries[at].copy();
        proof {
            assert(rows(out@.push(e)) == rows(out@).push(e@));
            assert(want.take(n + 1) == want.take(n as int).push(e@));
        }
        out.push(e);
        n += 1;
    }
    proof {
        assert(want.take(n as int) == want);
    }
    out
}

/// Sorts rows folders first, then by name without case.
pub fn sort_default(entries: &Vec<Entry>) -> (r: Vec<Entry>)
    ensures
        rows(r@) == sorted_rows(rows(entries@), SortKey::Standard, true),
{
    sort_entries(entries, SortKey::Standard, true)
}

/// Sorting only rearranges: every row of the listing is there exactly as often
/// as before.
pub proof fn law_sorting_keeps_rows(s: Seq<EntryView>, by: SortKey, asc: bool)
    ensures
        sorted_rows(s, by, asc).to_multiset() == s.to_multiset(),
        sorted_rows(s, by, asc).len() == s.len(),
{
    let keys = row_keys(s, by);
    lemma_order_exists(keys);
    let o = order_of(keys);
    let up = arranged(s, o);
    lemma_arranged_multiset(s, o);
    if !(asc || by == SortKey::Standard) {
        up.lemma_reverse_to_multiset();
    }
}

/// Descending order is ascending order read backwards.
pub proof fn law_descending_reverses(s: Seq<EntryView>, by: SortKey)
    requires
        by != SortKey::Standard,
    ensures
        sorted_rows(s, by, false) == sorted_rows(s, by, true).reverse(),
{
}

/// In the default order no folder stands behind a file.
pub proof fn law_folders_first(s: Seq<EntryView>, i: int, j: int)
    requires
        0 <= i < j < s.len(),
        sorted_rows(s, SortKey::Standard, true)[j].is_dir,
    ensures
        sorted_rows(s, SortKey::Standard, true)[i].is_dir,
{
    let keys = row_keys(s, SortKey::Standard);
    lemma_order_exists(keys);
    let o = order_of(keys);
    assert(comes_first(keys, o[i], o[j]));
    assert(keys[o[i]][0] == if s[o[i]].is_dir {
        0int
    } else {
        1
    });
    assert(keys[o[j]][0] == 0);
    assert(keys[o[i]] == row_key(s[o[i]], SortKey::Standard));
    assert(keys[o[j]] == row_key(s[o[j]], SortKey::Standard));
}

} // verus!
