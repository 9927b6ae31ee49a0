//! The in-memory file index: what a walk keeps, and ranked search over it.

use rayon::iter::{IntoParallelRefIterator, ParallelIterator};
use crate::paths::{components_of, file_name, file_name_of};
use crate::score::{
    char_pairs, entry_value, is_subsequence, law_exact_name_wins, opt_score, pairs_of, rank_entry,
    rank_value, score_entry,
};
use crate::sorting::{
    comes_first, key_less, key_view, keys_view, lemma_key_total, lemma_order_exists, order_of,
    orders, positions, sort_order,
};
use crate::text::{
    ascii_low, ascii_lowered, chars_of, is_ascii_text, lowercase, same, string_of, texts, utf8_len,
    utf8_size,
};
use vstd::prelude::*;

verus! {

/// One entry of the index.
pub struct IndexEntry {
    pub name: String,
    pub path: String,
    pub is_dir: bool,
}

/// One entry of the index, with its texts as characters.
#[verifier::ext_equal]
pub struct IndexEntryView {
    pub name: Seq<char>,
    pub path: Seq<char>,
    pub is_dir: bool,
}

impl View for IndexEntry {
    type V = IndexEntryView;

    open spec fn view(&self) -> IndexEntryView {
        IndexEntryView { name: self.name@, path: self.path@, is_dir: self.is_dir }
    }
}

/// Index entries, with their texts as characters.
pub open spec fn entries_view(v: Seq<IndexEntry>) -> Seq<IndexEntryView> {
    v.map_values(|e: IndexEntry| e@)
}

/// A flat index of everything under a directory.
pub struct FileIndex {
    pub entries: Vec<IndexEntry>,
}

impl View for FileIndex {
    type V = Seq<IndexEntryView>;

    open spec fn view(&self) -> Seq<IndexEntryView> {
        entries_view(self.entries@)
    }
}

/// Something a walk came across: how deep below the root, its path, and whether
/// it is a directory.
pub struct WalkItem {
    pub depth: usize,
    pub name: String,
    pub path: String,
    pub is_dir: bool,
}

/// Directories that are never descended into: build outputs, dependencies and
/// other noise.
pub open spec fn is_noise_dir(name: Seq<char>) -> bool {
    ||| name == "node_modules"@
    ||| name == "Library"@
    ||| name == "target"@
    ||| name == "build"@
    ||| name == "dist"@
    ||| name == "DerivedData"@
    ||| name == "Pods"@
    ||| name == "Carthage"@
    ||| name == "__pycache__"@
    ||| name == "vendor"@
    ||| name == "bower_components"@
}

fn noise_dir(name: &str) -> (r: bool)
    ensures
        r == is_noise_dir(name@),
{
    same(name, "node_modules") || same(name, "Library") || same(name, "target") || same(
        name,
        "build",
    ) || same(name, "dist") || same(name, "DerivedData") || same(name, "Pods") || same(
        name,
        "Carthage",
    ) || same(name, "__pycache__") || same(name, "vendor") || same(name, "bower_components")
}

/// Whether a walk keeps a child of `parent`: every file, and every directory but
/// noise and the module cache `go/pkg`.
pub open spec fn keeps_child(parent: Seq<char>, name: Seq<char>, is_dir: bool) -> bool {
    is_dir ==> !is_noise_dir(name) && !(file_name_of(parent) == Some("go"@) && name == "pkg"@)
}

/// Whether the walk keeps a child of `parent`.
pub fn keep_child(parent: &str, name: &str, is_dir: bool) -> (r: bool)
    ensures
        r == keeps_child(parent@, name@, is_dir),
{
    if !is_dir {
        return true;
    }
    if noise_dir(name) {
        return false;
    }
    if same(name, "pkg") {
        match file_name(parent) {
            Some(p) => {
                return !same(p.as_str(), "go");
            },
            None => {},
        }
    }
    true
}

/// How many threads walk the disk.
pub open spec fn threads_for(cores: Option<usize>) -> int {
    match cores {
        Some(n) if n > 4 => n - 2,
        _ => 2,
    }
}

/// How many threads walk the disk when the machine has `cores` (if known): all
/// but two, and at least two.
pub fn walk_threads(cores: Option<usize>) -> (r: usize)
    ensures
        r == threads_for(cores),
{
    match cores {
        Some(n) => {
            if n > 4 {
                n - 2
            } else {
                2
            }
        },
        None => 2,
    }
}

/// The entries a walk leaves in the index: all items but the root itself.
pub open spec fn indexed(items: Seq<WalkItem>) -> Seq<IndexEntryView>
    decreases items.len(),
{
    if items.len() == 0 {
        Seq::empty()
    } else {
        let head = indexed(items.drop_last());
        let w = items.last();
        if w.depth == 0 {
            head
        } else {
            head.push(IndexEntryView { name: w.name@, path: w.path@, is_dir: w.is_dir })
        }
    }
}

/// The lowercase form of one character beyond ASCII, as `char::to_lowercase` gives
/// it.
pub uninterp spec fn unicode_char_lowercase(c: char) -> Seq<char>;

/// The lowercase form of one character.
pub open spec fn char_lowercase(c: char) -> Seq<char> {
    if c as u32 <= 127 {
        seq![ascii_low(c)]
    } else {
        unicode_char_lowercase(c)
    }
}

/// Lowercases one character: `char::to_lowercase` yields the characters of its
/// lowercase form, a function of the character alone; of the ASCII characters it
/// lowers `A` to `Z` and keeps the rest, as Unicode has it.
#[verifier::external_body]
fn lower_char(c: char) -> (r: Vec<char>)
    ensures
        r@ == char_lowercase(c),
        c as u32 > 127 ==> r@ == unicode_char_lowercase(c),
{
    c.to_lowercase().collect()
}

/// A query lowercased character by character.
pub open spec fn lowered_query(s: Seq<char>) -> Seq<char>
    decreases s.len(),
{
    if s.len() == 0 {
        Seq::empty()
    } else {
        lowered_query(s.drop_last()) + char_lowercase(s.last())
    }
}

/// An ASCII query is lowered as any other ASCII text.
pub proof fn law_ascii_query_is_lowered(s: Seq<char>)
    requires
        is_ascii_text(s),
    ensures
        lowered_query(s) == ascii_lowered(s),
        lowered_query(s) == lowercase(s),
    decreases s.len(),
{
    if s.len() > 0 {
        let h = s.drop_last();
        assert forall|i: int| 0 <= i < h.len() implies (#[trigger] h[i]) as u32 <= 127 by {
            assert(h[i] == s[i]);
        }
        law_ascii_query_is_lowered(h);
        assert(s[s.len() - 1] as u32 <= 127);
        assert(ascii_lowered(s) =~= ascii_lowered(h) + seq![ascii_low(s.last())]);
    } else {
        assert(ascii_lowered(s) =~= Seq::<char>::empty());
    }
}

/// Lowercases a query character by character.
pub fn query_chars(query: &str) -> (r: Vec<char>)
    ensures
        r@ == lowered_query(query@),
{
    let cs = chars_of(query);
    let mut out: Vec<char> = Vec::new();
    let mut i: usize = 0;
    while i < cs.len()
        invariant
            i <= cs.len(),
            out@ == lowered_query(cs@.take(i as int)),
        decreases cs.len() - i,
    {
        let mut low = lower_char(cs[i]);
        proof {
            assert(cs@.take(i + 1).drop_last() == cs@.take(i as int));
        }
        out.append(&mut low);
        i += 1;
    }
    proof {
        assert(cs@.take(i as int) == query@);
    }
    out
}

/// The rank of each entry for a lowercased query.
pub open spec fn ranks_of(entries: Seq<IndexEntryView>, q: Seq<char>) -> Seq<Option<int>> {
    entries.map_values(
        |e: IndexEntryView| rank_value(q, q, pairs_of(q), e.name, e.path, e.is_dir),
    )
}

/// Optional scores, as mathematical integers.
pub open spec fn scores_view(v: Seq<Option<i128>>) -> Seq<Option<int>> {
    v.map_values(|r: Option<i128>| opt_score(r))
}

/// Ranks every entry on all cores. rayon's `par_iter` visits each entry of the
/// slice, `map` applies `rank_entry` to it, and `collect` into a `Vec` keeps the
/// order of the slice, so the result holds the rank of each entry at that
/// entry's position.
#[verifier::external_body]
fn rank_all(
    entries: &Vec<IndexEntry>,
    q: &Vec<char>,
    q_str: &String,
    q_bigrams: &Vec<(char, char)>,
) -> (r: Vec<Option<i128>>)
    ensures
        r@.len() == entries@.len(),
        forall|i: int|
            0 <= i < r@.len() ==> opt_score(#[trigger] r@[i]) == rank_value(
                q@,
                q_str@,
                q_bigrams@,
                entries@[i]@.name,
                entries@[i]@.path,
                entries@[i]@.is_dir,
            ),
{
    entries
        .par_iter()
        .map(|e| rank_entry(q, q_str, q_bigrams, &e.name, &e.path, e.is_dir))
        .collect()
}

/// The positions that have a rank, in order.
pub open spec fn ranked(ranks: Seq<Option<int>>) -> Seq<int>
    decreases ranks.len(),
{
    if ranks.len() == 0 {
        Seq::empty()
    } else {
        let head = ranked(ranks.drop_last());
        if ranks.last() is Some {
            head.push(ranks.len() - 1)
        } else {
            head
        }
    }
}

/// `ranked` lists exactly the positions that have a rank.
pub proof fn lemma_ranked(ranks: Seq<Option<int>>)
    ensures
        forall|k: int|
            0 <= k < ranked(ranks).len() ==> 0 <= #[trigger] ranked(ranks)[k] < ranks.len()
                && ranks[ranked(ranks)[k]] is Some,
        forall|i: int|
            0 <= i < ranks.len() && (#[trigger] ranks[i]) is Some ==> ranked(ranks).contains(i),
        ranked(ranks).len() <= ranks.len(),
    decreases ranks.len(),
{
    if ranks.len() > 0 {
        let h = ranks.drop_last();
        lemma_ranked(h);
        let r = ranked(ranks);
        assert forall|k: int| 0 <= k < r.len() implies 0 <= #[trigger] r[k] < ranks.len()
            && ranks[r[k]] is Some by {
            if k < ranked(h).len() {
                assert(r[k] == ranked(h)[k]);
                assert(h[r[k]] == ranks[r[k]]);
            }
        }
        assert forall|i: int| 0 <= i < ranks.len() && (#[trigger] ranks[i]) is Some implies r.contains(
            i,
        ) by {
            if i < h.len() {
                assert(h[i] == ranks[i]);
                let k = choose|k: int| 0 <= k < ranked(h).len() && ranked(h)[k] == i;
                assert(r[k] == i);
            } else {
                assert(r[r.len() - 1] == i);
            }
        }
    }
}

/// `ranked` lists positions in rising order.
pub proof fn lemma_ranked_rises(ranks: Seq<Option<int>>)
    ensures
        forall|i: int, j: int|
            0 <= i < j < ranked(ranks).len() ==> #[trigger] ranked(ranks)[i] < #[trigger] ranked(
                ranks,
            )[j],
    decreases ranks.len(),
{
    if ranks.len() > 0 {
        lemma_ranked_rises(ranks.drop_last());
        lemma_ranked(ranks.drop_last());
    }
}

/// The key that sorts the best rank first and shorter names first among equals.
pub open spec fn hit_key(rank: Option<int>, name: Seq<char>) -> Seq<int> {
    seq![-1 - rank->0, utf8_size(name) as int]
}

/// The keys of the entries that have a rank.
pub open spec fn hit_keys(entries: Seq<IndexEntryView>, ranks: Seq<Option<int>>) -> Seq<Seq<int>> {
    ranked(ranks).map_values(|i: int| hit_key(ranks[i], entries[i].name))
}

/// The `limit` best entries under the given ranks.
pub open spec fn best_hits(
    entries: Seq<IndexEntryView>,
    ranks: Seq<Option<int>>,
    limit: nat,
) -> Seq<IndexEntryView> {
    let hits = ranked(ranks);
    let order = order_of(hit_keys(entries, ranks));
    let n = if limit < order.len() {
        limit as int
    } else {
        order.len() as int
    };
    order.take(n).map_values(|k: int| entries[hits[k]])
}

/// What a search of the index returns: nothing for a query without letters,
/// otherwise its best entries.
pub open spec fn search_hits(
    entries: Seq<IndexEntryView>,
    query: Seq<char>,
    limit: nat,
) -> Seq<IndexEntryView> {
    let q = lowered_query(query);
    if q.len() == 0 {
        Seq::empty()
    } else {
        best_hits(entries, ranks_of(entries, q), limit)
    }
}

/// A found entry: its name, its path, and whether it is a directory.
pub open spec fn hits_view(v: Seq<(String, String, bool)>) -> Seq<IndexEntryView> {
    v.map_values(
        |t: (String, String, bool)| IndexEntryView { name: t.0@, path: t.1@, is_dir: t.2 },
    )
}

/// Takes the `limit` best entries under the given ranks, best first.
pub fn take_best(entries: &Vec<IndexEntry>, ranks: &Vec<Option<i128>>, limit: usize) -> (r: Vec<
    (String, String, bool),
>)
    requires
        ranks.len() == entries.len(),
    ensures
        hits_view(r@) == best_hits(entries_view(entries@), scores_view(ranks@), limit as nat),
{
    let ghost es = entries_view(entries@);
    let ghost rs = scores_view(ranks@);
    let mut hits: Vec<usize> = Vec::new();
    let mut keys: Vec<Vec<i128>> = Vec::new();
    let mut i: usize = 0;
    while i < entries.len()
        invariant
            i <= entries.len(),
            ranks.len() == entries.len(),
            es == entries_view(entries@),
            rs == scores_view(ranks@),
            positions(hits@) == ranked(rs.take(i as int)),
            keys_view(keys@) == positions(hits@).map_values(
                |k: int| hit_key(rs[k], es[k].name),
            ),
        decreases entries.len() - i,
    {
        proof {
            assert(rs.take(i + 1).drop_last() == rs.take(i as int));
            assert(rs.take(i + 1).last() == opt_score(ranks@[i as int]));
        }
        match ranks[i] {
            Some(s) => {
                let mut k: Vec<i128> = Vec::new();
                k.push(-1 - s);
                let bytes: u128 = utf8_len(entries[i].name.as_str());
                k.push(bytes as i128);
                proof {
                    assert(key_view(k@) == hit_key(rs[i as int], es[i as int].name));
                    assert(keys_view(keys@.push(k)) == keys_view(keys@).push(key_view(k@)));
                    assert(positions(hits@.push(i)) == positions(hits@).push(i as int));
                }
                keys.push(k);
                hits.push(i);
            },
            None => {},
        }
        i += 1;
    }
    proof {
        assert(rs.take(i as int) == rs);
        lemma_ranked(rs);
        assert(keys_view(keys@) == hit_keys(es, rs));
        assert(keys_view(keys@).len() == keys@.len());
    }
    let order = sort_order(&keys);
    let ghost o = order_of(hit_keys(es, rs));
    let n: usize = if limit < order.len() {
        limit
    } else {
        order.len()
    };
    let mut out: Vec<(String, String, bool)> = Vec::new();
    let mut j: usize = 0;
    while j < n
        invariant
            j <= n <= order.len(),
            es == entries_view(entries@),
            rs == scores_view(ranks@),
            rs.len() == entries.len(),
            positions(order@) == o,
            positions(hits@) == ranked(rs),
            hits.len() == ranked(rs).len(),
            order.len() == hits.len(),
            orders(hit_keys(es, rs), o, 0, hits.len() as int),
            forall|k: int|
                0 <= k < ranked(rs).len() ==> 0 <= #[trigger] ranked(rs)[k] < rs.len(),
            hits_view(out@) == o.take(j as int).map_values(|k: int| es[ranked(rs)[k]]),
        decreases n - j,
    {
        proof {
            assert(o[j as int] == order@[j as int]);
            assert(0 <= o[j as int] < hits.len());
            assert(ranked(rs)[o[j as int]] == hits@[o[j as int]]);
        }
        let e = &entries[hits[order[j]]];
        let t = (e.name.clone(), e.path.clone(), e.is_dir);
        proof {
            assert(hits_view(out@.push(t)) == hits_view(out@).push(
                IndexEntryView { name: t.0@, path: t.1@, is_dir: t.2 },
            ));
            assert(o.take(j + 1) == o.take(j as int).push(o[j as int]));
            assert(o.take(j + 1).map_values(|k: int| es[ranked(rs)[k]]) == o.take(
                j as int,
            ).map_values(|k: int| es[ranked(rs)[k]]).push(es[ranked(rs)[o[j as int]]]));
        }
        out.push(t);
        j += 1;
    }
    out
}

impl FileIndex {
    /// Puts what a walk came across into an index.
    pub fn build(items: &Vec<WalkItem>) -> (r: FileIndex)
        ensures
            r@ == indexed(items@),
    {
        let mut entries: Vec<IndexEntry> = Vec::new();
        let mut i: usize = 0;
        while i < items.len()
            invariant
                i <= items.len(),
                entries_view(entries@) == indexed(items@.take(i as int)),
            decreases items.len() - i,
        {
            proof {
                assert(items@.take(i + 1).drop_last() == items@.take(i as int));
                assert(items@.take(i + 1).last() == items@[i as int]);
            }
            if items[i].depth != 0 {
                let e = IndexEntry {
                    name: items[i].name.clone(),
                    path: items[i].path.clone(),
                    is_dir: items[i].is_dir,
                };
                proof {
                    assert(entries_view(entries@.push(e)) == entries_view(entries@).push(e@));
                }
                entries.push(e);
            }
            i += 1;
        }
        proof {
            assert(items@.take(i as int) == items@);
        }
        FileIndex { entries }
    }

    /// Ranks the index against `query` on all cores and returns the best
    /// `limit` entries, best first.
    pub fn search(&self, query: &str, limit: usize) -> (r: Vec<(String, String, bool)>)
        ensures
            hits_view(r@) == search_hits(self@, query@, limit as nat),
    {
        let q = query_chars(query);
        if q.len() == 0 {
            return Vec::new();
        }
        let q_str = string_of(&q);
        let q_bigrams = char_pairs(&q);
        let ranks = rank_all(&self.entries, &q, &q_str, &q_bigrams);
        proof {
            assert(scores_view(ranks@) =~= ranks_of(self@, q@));
        }
        take_best(&self.entries, &ranks, limit)
    }
}

/// Whether `found` are the entries at the positions `at`, each with a rank and each
/// only once, in order of falling rank, shorter names first among equals.
pub open spec fn falls_in_rank(
    entries: Seq<IndexEntryView>,
    ranks: Seq<Option<int>>,
    found: Seq<IndexEntryView>,
    at: Seq<int>,
) -> bool {
    &&& at.len() == found.len()
    &&& forall|i: int|
        0 <= i < at.len() ==> 0 <= #[trigger] at[i] < entries.len() && ranks[at[i]] is Some
            && found[i] == entries[at[i]]
    &&& forall|i: int, j: int|
        0 <= i < j < at.len() ==> {
            &&& #[trigger] at[i] != #[trigger] at[j]
            &&& ranks[at[i]]->0 >= ranks[at[j]]->0
            &&& ranks[at[i]]->0 == ranks[at[j]]->0 ==> utf8_size(entries[at[i]].name) <= utf8_size(
                entries[at[j]].name,
            )
        }
}

/// Whether no entry with a rank is missing from the positions `at`, or else only
/// such as rank no higher than those there are.
pub open spec fn misses_none_above(ranks: Seq<Option<int>>, at: Seq<int>, full: bool) -> bool {
    forall|x: int|
        0 <= x < ranks.len() && (#[trigger] ranks[x]) is Some ==> at.contains(x) || (full
            && forall|i: int| 0 <= i < at.len() ==> ranks[#[trigger] at[i]]->0 >= ranks[x]->0)
}

/// A search returns at most as many entries as asked for, each of them an entry
/// of the index that has a rank, and each once, in order of falling rank and with
/// the shorter name first among equals; what it leaves out ranks no higher, and it
/// leaves out nothing while there is room.
pub proof fn law_search_is_ranked(entries: Seq<IndexEntryView>, ranks: Seq<Option<int>>, limit: nat)
    requires
        ranks.len() == entries.len(),
    ensures
        best_hits(entries, ranks, limit).len() <= limit,
        exists|at: Seq<int>|
            falls_in_rank(entries, ranks, best_hits(entries, ranks, limit), at)
                && misses_none_above(ranks, at, best_hits(entries, ranks, limit).len() == limit),
{
    let hits = ranked(ranks);
    let keys = hit_keys(entries, ranks);
    lemma_ranked(ranks);
    lemma_order_exists(keys);
    let o = order_of(keys);
    let b = best_hits(entries, ranks, limit);
    let at = Seq::new(b.len(), |i: int| hits[o[i]]);
    assert forall|i: int| 0 <= i < at.len() implies 0 <= #[trigger] at[i] < entries.len()
        && ranks[at[i]] is Some && b[i] == entries[at[i]] by {
        assert(0 <= o[i] < hits.len());
    }
    lemma_ranked_rises(ranks);
    assert forall|i: int, j: int| 0 <= i < j < at.len() implies {
        &&& #[trigger] at[i] != #[trigger] at[j]
        &&& ranks[at[i]]->0 >= ranks[at[j]]->0
        &&& ranks[at[i]]->0 == ranks[at[j]]->0 ==> utf8_size(entries[at[i]].name) <= utf8_size(
            entries[at[j]].name,
        )
    } by {
        assert(comes_first(keys, o[i], o[j]));
        let (x, y) = (keys[o[i]], keys[o[j]]);
        assert(x[0] == -1 - ranks[at[i]]->0);
        assert(y[0] == -1 - ranks[at[j]]->0);
        assert(x.skip(1)[0] == utf8_size(entries[at[i]].name));
        assert(y.skip(1)[0] == utf8_size(entries[at[j]].name));
        assert(o[i] != o[j]) by {
            lemma_key_total(x, x);
        }
        reveal_with_fuel(key_less, 3);
    }
    assert forall|x: int| 0 <= x < ranks.len() && (#[trigger] ranks[x]) is Some implies at.contains(
        x,
    ) || (b.len() == limit && forall|i: int|
        0 <= i < at.len() ==> ranks[#[trigger] at[i]]->0 >= ranks[x]->0) by {
        let k = choose|k: int| 0 <= k < hits.len() && hits[k] == x;
        assert(hits.contains(x));
        assert(o.contains(k));
        let j = choose|j: int| 0 <= j < o.len() && o[j] == k;
        if j < b.len() {
            assert(at[j] == x);
        } else {
            assert forall|i: int| 0 <= i < at.len() implies ranks[#[trigger] at[i]]->0
                >= ranks[x]->0 by {
                assert(comes_first(keys, o[i], o[j]));
                assert(keys[o[i]][0] == -1 - ranks[at[i]]->0);
                assert(keys[o[j]][0] == -1 - ranks[x]->0);
            }
        }
    }
    assert(falls_in_rank(entries, ranks, b, at));
    assert(misses_none_above(ranks, at, b.len() == limit));
}

/// Where the index holds an ASCII name that is the query but for case, or another
/// such name that spells the query once its ASCII letters are lowered, the first
/// result is the query but for case, for names and queries of at most 255
/// characters and paths of at most 2000 parts.
pub proof fn law_exact_name_comes_first(
    entries: Seq<IndexEntryView>,
    query: Seq<char>,
    limit: nat,
    x: int,
)
    requires
        limit > 0,
        0 < lowered_query(query).len() <= 255,
        0 <= x < entries.len(),
        entries[x].name.len() <= 255,
        lowercase(entries[x].name) == lowered_query(query),
        is_ascii_text(entries[x].name) || is_subsequence(
            lowered_query(query),
            ascii_lowered(entries[x].name),
        ),
        components_of(entries[x].path).len() <= 2000,
    ensures
        search_hits(entries, query, limit).len() > 0,
        lowercase(search_hits(entries, query, limit)[0].name) == lowered_query(query),
{
    let q = lowered_query(query);
    let ranks = ranks_of(entries, q);
    let b = best_hits(entries, ranks, limit);
    law_search_is_ranked(entries, ranks, limit);
    let at = choose|at: Seq<int>|
        falls_in_rank(entries, ranks, b, at) && misses_none_above(ranks, at, b.len() == limit);
    let e = entries[x];
    law_exact_name_wins(q, e.name, e.path, e.is_dir, e.name, e.path, e.is_dir);
    assert(ranks[x] is Some);
    assert(at.len() > 0);
    let f = entries[at[0]];
    assert(ranks[at[0]]->0 >= ranks[x]->0) by {
        if at.contains(x) {
            let i = choose|i: int| 0 <= i < at.len() && at[i] == x;
            assert(ranks[at[0]]->0 >= ranks[at[i]]->0);
        }
    }
    law_exact_name_wins(q, e.name, e.path, e.is_dir, f.name, f.path, f.is_dir);
}

/// The candidates among the lines of a name search: paths whose names spell the
/// query, with their scores.
pub open spec fn spotted(lines: Seq<Seq<char>>, q: Seq<char>) -> Seq<(int, IndexEntryView)>
    decreases lines.len(),
{
    if lines.len() == 0 {
        Seq::empty()
    } else {
        let head = spotted(lines.drop_last(), q);
        let p = lines.last();
        match file_name_of(p) {
            Some(n) => match entry_value(q, q, n, p, false) {
                Some(s) => head.push((s, IndexEntryView { name: n, path: p, is_dir: false })),
                None => head,
            },
            None => head,
        }
    }
}

/// The best 40 of the first 4000 lines of a name search, best first.
pub open spec fn spotted_best(lines: Seq<Seq<char>>, query: Seq<char>) -> Seq<IndexEntryView> {
    let head = if lines.len() < 4000 {
        lines
    } else {
        lines.take(4000)
    };
    let found = spotted(head, lowered_query(query));
    let order = order_of(found.map_values(|c: (int, IndexEntryView)| seq![-1 - c.0]));
    let n = if order.len() < 40 {
        order.len() as int
    } else {
        40
    };
    order.take(n).map_values(|k: int| found[k].1)
}

/// Ranks the lines that a system-wide name search printed; whether each hit is a
/// directory is left to the caller.
pub fn rank_spotted(lines: &Vec<String>, query: &str) -> (r: Vec<IndexEntry>)
    ensures
        entries_view(r@) == spotted_best(texts(lines@), query@),
{
    let q = query_chars(query);
    let q_str = string_of(&q);
    let ghost head = if texts(lines@).len() < 4000 {
        texts(lines@)
    } else {
        texts(lines@).take(4000)
    };
    let top: usize = if lines.len() < 4000 {
        lines.len()
    } else {
        4000
    };
    let ghost all = spotted(head, q@);
    let mut found: Vec<IndexEntry> = Vec::new();
    let ghost mut scored: Seq<(int, IndexEntryView)> = Seq::empty();
    let mut keys: Vec<Vec<i128>> = Vec::new();
    let mut i: usize = 0;
    while i < top
        invariant
            i <= top <= lines.len(),
            head.len() == top,
            q_str@ == q@,
            forall|k: int| 0 <= k < top ==> #[trigger] head[k] == lines@[k]@,
            scored == spotted(head.take(i as int), q@),
            entries_view(found@) == scored.map_values(|c: (int, IndexEntryView)| c.1),
            keys_view(keys@) == scored.map_values(|c: (int, IndexEntryView)| seq![-1 - c.0]),
        decreases top - i,
    {
        proof {
            assert(head.take(i + 1).drop_last() == head.take(i as int));
            assert(head.take(i + 1).last() == lines@[i as int]@);
        }
        match file_name(lines[i].as_str()) {
            Some(name) => {
                match score_entry(&q, q_str.as_str(), name.as_str(), lines[i].as_str(), false) {
                    Some(s) => {
                        let mut k: Vec<i128> = Vec::new();
                        k.push(-1 - s);
                        let e = IndexEntry { name, path: lines[i].clone(), is_dir: false };
                        proof {
                            let was = scored;
                            scored = scored.push((s as int, e@));
                            assert(key_view(k@) == seq![-1 - s as int]);
                            assert(keys_view(keys@.push(k)) == keys_view(keys@).push(
                                key_view(k@),
                            ));
                            assert(entries_view(found@.push(e)) == entries_view(found@).push(e@));
                            assert(scored.map_values(|c: (int, IndexEntryView)| c.1)
                                == was.map_values(|c: (int, IndexEntryView)| c.1).push(e@));
                            assert(scored.map_values(|c: (int, IndexEntryView)| seq![-1 - c.0])
                                == was.map_values(
                                |c: (int, IndexEntryView)| seq![-1 - c.0],
                            ).push(seq![-1 - s as int]));
                        }
                        keys.push(k);
                        found.push(e);
                    },
                    None => {},
                }
            },
            None => {},
        }
        i += 1;
    }
    proof {
        assert(head.take(i as int) == head);
        assert(keys_view(keys@).len() == keys@.len());
        assert(found@.len() == entries_view(found@).len());
    }
    let order = sort_order(&keys);
    let n: usize = if order.len() < 40 {
        order.len()
    } else {
        40
    };
    let ghost o = positions(order@);
    let ghost fv = entries_view(found@);
    let mut out: Vec<IndexEntry> = Vec::new();
    let mut j: usize = 0;
    while j < n
        invariant
            j <= n <= order.len(),
            o == positions(order@),
            fv == entries_view(found@),
            found@.len() == fv.len(),
            orders(keys_view(keys@), o, 0, found@.len() as int),
            entries_view(out@) == o.take(j as int).map_values(|k: int| fv[k]),
        decreases n - j,
    {
        proof {
            assert(o[j as int] == order@[j as int]);
            assert(0 <= o[j as int] < found.len());
        }
        let e = &found[order[j]];
        let c = IndexEntry { name: e.name.clone(), path: e.path.clone(), is_dir: e.is_dir };
        proof {
            assert(entries_view(out@.push(c)) == entries_view(out@).push(c@));
            assert(o.take(j + 1).map_values(|k: int| fv[k]) == o.take(j as int).map_values(
                |k: int| fv[k],
            ).push(fv[o[j as int]]));
        }
        out.push(c);
        j += 1;
    }
    proof {
        assert(o.take(n as int).map_values(|k: int| fv[k]) == o.take(n as int).map_values(
            |k: int| all[k].1,
        )) by {
            assert forall|t: int| 0 <= t < n implies fv[o[t]] == all[o[t]].1 by {
                assert(0 <= o[t] < found.len());
            }
        }
    }
    out
}

} // verus!
