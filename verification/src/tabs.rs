//! One tab: a folder, its history, its listing, and what is selected in it.

use crate::field::{Field, FieldView, at_most};
use crate::find::{every_row, filter_rows, filtered_rows, lemma_filtered_in_range};
use crate::listing::{Entry, EntryView, SortKey, Stamp, rows, sort_entries, sorted_rows};
use crate::paths::{join_path, joined_path, parent, parent_of, same_place};
use crate::places::{
    drop_place, find_place, holds_place, law_toggle_flips, no_repeats, place_in, toggled,
};
use crate::sorting::positions;
use crate::text::{opt_text, owned, texts};
use vstd::prelude::*;

verus! {

/// How the rows of a folder are displayed.
#[derive(Clone, Copy, PartialEq, Eq, Structural, Debug)]
pub enum ViewMode {
    List,
    Icons,
    Columns,
    Gallery,
}

/// One open tab.
pub struct Tab {
    /// The folder that is shown.
    pub dir: String,
    pub entries: Vec<Entry>,
    /// The folders visited, and which of them is shown.
    pub history: Vec<String>,
    pub hist_pos: usize,
    /// The path bar, while it is edited.
    pub editing: Option<Field>,
    /// The find bar, while it is open, and the rows it leaves.
    pub find: Option<Field>,
    pub find_results: Vec<usize>,
    pub selection: Vec<String>,
    /// The focused item: the last one clicked or moved to.
    pub anchor: Option<String>,
    pub sort_key: SortKey,
    pub sort_asc: bool,
    pub view: ViewMode,
    /// The folders opened in the column view, one for each further column.
    pub col_chain: Vec<String>,
    pub col_active: usize,
    /// The number of the latest load; results of earlier ones are dropped.
    pub load_gen: u64,
    pub dir_mtime: Option<Stamp>,
    /// A number that tells this tab from all others.
    pub tag: u64,
}

/// The mathematical value of a tab.
#[verifier::ext_equal]
pub struct TabView {
    pub dir: Seq<char>,
    pub entries: Seq<EntryView>,
    pub history: Seq<Seq<char>>,
    pub hist_pos: int,
    pub editing: Option<FieldView>,
    pub find: Option<FieldView>,
    pub find_results: Seq<int>,
    pub selection: Seq<Seq<char>>,
    pub anchor: Option<Seq<char>>,
    pub sort_key: SortKey,
    pub sort_asc: bool,
    pub view: ViewMode,
    pub col_chain: Seq<Seq<char>>,
    pub col_active: int,
    pub load_gen: u64,
    pub dir_mtime: Option<Stamp>,
    pub tag: u64,
}

/// An optional field, as its mathematical value.
pub open spec fn opt_field(f: Option<Field>) -> Option<FieldView> {
    match f {
        Some(x) => Some(x@),
        None => None,
    }
}

impl View for Tab {
    type V = TabView;

    open spec fn view(&self) -> TabView {
        TabView {
            dir: self.dir@,
            entries: rows(self.entries@),
            history: texts(self.history@),
            hist_pos: self.hist_pos as int,
            editing: opt_field(self.editing),
            find: opt_field(self.find),
            find_results: positions(self.find_results@),
            selection: texts(self.selection@),
            anchor: opt_text(self.anchor),
            sort_key: self.sort_key,
            sort_asc: self.sort_asc,
            view: self.view,
            col_chain: texts(self.col_chain@),
            col_active: self.col_active as int,
            load_gen: self.load_gen,
            dir_mtime: self.dir_mtime,
            tag: self.tag,
        }
    }
}

/// The places of `s`, each one once, in order of first appearance.
pub open spec fn gathered(s: Seq<Seq<char>>) -> Seq<Seq<char>>
    decreases s.len(),
{
    if s.len() == 0 {
        Seq::empty()
    } else {
        let head = gathered(s.drop_last());
        if holds_place(head, s.last()) {
            head
        } else {
            head.push(s.last())
        }
    }
}

/// Gathering repeats nothing and holds the same places.
pub proof fn lemma_gathered(s: Seq<Seq<char>>)
    ensures
        no_repeats(gathered(s)),
        forall|p: Seq<char>| #[trigger] holds_place(gathered(s), p) == holds_place(s, p),
        gathered(s).len() <= s.len(),
    decreases s.len(),
{
    if s.len() > 0 {
        let h = s.drop_last();
        let x = s.last();
        lemma_gathered(h);
        let gh = gathered(h);
        let g = gathered(s);
        assert(s[s.len() - 1] == x);
        assert forall|i: int, j: int| 0 <= i < j < g.len() implies !same_place(
            #[trigger] g[i],
            #[trigger] g[j],
        ) by {
            assert(g[i] == gh[i]);
            if j < gh.len() {
                assert(g[j] == gh[j]);
            }
        }
        assert forall|p: Seq<char>| #[trigger] holds_place(g, p) == holds_place(s, p) by {
            if holds_place(g, p) {
                let i = choose|i: int| 0 <= i < g.len() && same_place(#[trigger] g[i], p);
                if i < gh.len() {
                    assert(gh[i] == g[i]);
                    assert(holds_place(gh, p));
                    let k = choose|k: int| 0 <= k < h.len() && same_place(#[trigger] h[k], p);
                    assert(s[k] == h[k]);
                } else {
                    assert(s[s.len() - 1] == g[i]);
                }
            }
            if holds_place(s, p) {
                let k = choose|k: int| 0 <= k < s.len() && same_place(#[trigger] s[k], p);
                if k < h.len() {
                    assert(h[k] == s[k]);
                    assert(holds_place(gh, p));
                    let i = choose|i: int| 0 <= i < gh.len() && same_place(#[trigger] gh[i], p);
                    assert(g[i] == gh[i]);
                } else if holds_place(gh, x) {
                    let i = choose|i: int| 0 <= i < gh.len() && same_place(#[trigger] gh[i], x);
                    assert(g[i] == gh[i]);
                    assert(same_place(g[i], p));
                } else {
                    assert(g[gh.len() as int] == x);
                }
            }
        }
    }
}

/// Keeps each place once.
pub fn gather(v: &Vec<String>) -> (r: Vec<String>)
    ensures
        texts(r@) == gathered(texts(v@)),
{
    let mut out: Vec<String> = Vec::new();
    let mut i: usize = 0;
    while i < v.len()
        invariant
            i <= v.len(),
            texts(out@) == gathered(texts(v@).take(i as int)),
        decreases v.len() - i,
    {
        proof {
            let t = texts(v@);
            assert(t.take(i + 1).drop_last() == t.take(i as int));
            assert(t.take(i + 1).last() == v@[i as int]@);
        }
        if find_place(&out, v[i].as_str()).is_none() {
            let c = v[i].clone();
            proof {
                assert(texts(out@.push(c)) == texts(out@).push(c@));
            }
            out.push(c);
        }
        i += 1;
    }
    proof {
        assert(texts(v@).take(i as int) == texts(v@));
    }
    out
}

/// `x` moved into the range `0..n` (which is not empty).
pub open spec fn clamped(x: int, n: int) -> int {
    if x < 0 {
        0
    } else if x >= n {
        n - 1
    } else {
        x
    }
}

impl TabView {
    /// Whether positions stand inside what they point into, the folder shown is
    /// the one the history says, and nothing is selected twice.
    pub open spec fn wf(self) -> bool {
        &&& 0 <= self.hist_pos < self.history.len()
        &&& self.history[self.hist_pos] == self.dir
        &&& self.editing matches Some(f) ==> f.wf()
        &&& self.find matches Some(f) ==> f.wf()
        &&& self.find is Some ==> forall|k: int|
            0 <= k < self.find_results.len() ==> 0 <= #[trigger] self.find_results[k]
                < self.entries.len()
        &&& no_repeats(self.selection)
        &&& self.col_active >= 0
    }

    /// A tab that was just opened on `dir`.
    pub open spec fn fresh(dir: Seq<char>, entries: Seq<EntryView>, tag: u64) -> TabView {
        TabView {
            dir,
            entries,
            history: seq![dir],
            hist_pos: 0,
            editing: None,
            find: None,
            find_results: Seq::empty(),
            selection: Seq::empty(),
            anchor: None,
            sort_key: SortKey::Standard,
            sort_asc: true,
            view: ViewMode::List,
            col_chain: Seq::empty(),
            col_active: 0,
            load_gen: 0,
            dir_mtime: None,
            tag,
        }
    }

    /// With `dir` shown: editing, finding, selection and columns start over.
    pub open spec fn showing(self, dir: Seq<char>) -> TabView {
        TabView {
            dir,
            editing: None,
            find: None,
            find_results: Seq::empty(),
            selection: Seq::empty(),
            anchor: None,
            col_chain: Seq::empty(),
            col_active: 0,
            ..self
        }
    }

    /// After going to `dir`: what lay ahead in the history is dropped, and `dir`
    /// is its new tip.
    pub open spec fn visited(self, dir: Seq<char>) -> TabView {
        TabView {
            history: self.history.take(self.hist_pos + 1).push(dir),
            hist_pos: self.hist_pos + 1,
            ..self.showing(dir)
        }
    }

    /// After going back one folder, if there is one.
    pub open spec fn went_back(self) -> TabView {
        if self.hist_pos == 0 {
            self
        } else {
            TabView {
                hist_pos: self.hist_pos - 1,
                ..self.showing(self.history[self.hist_pos - 1])
            }
        }
    }

    /// After going forward one folder, if there is one.
    pub open spec fn went_forward(self) -> TabView {
        if self.hist_pos + 1 >= self.history.len() {
            self
        } else {
            TabView {
                hist_pos: self.hist_pos + 1,
                ..self.showing(self.history[self.hist_pos + 1])
            }
        }
    }

    /// With the find results brought up to date.
    pub open spec fn refound(self) -> TabView {
        match self.find {
            Some(f) => TabView {
                find_results: filtered_rows(self.entries, f.text, self.sort_key),
                ..self
            },
            None => self,
        }
    }

    /// With the listing replaced, sorted, and searched again.
    pub open spec fn listing(self, entries: Seq<EntryView>) -> TabView {
        TabView {
            entries: sorted_rows(entries, self.sort_key, self.sort_asc),
            ..self
        }.refound()
    }

    /// With the listing sorted by `key`: the same key again turns the direction.
    pub open spec fn sorted_by(self, key: SortKey) -> TabView {
        let turn = self.sort_key == key && key != SortKey::Standard;
        let asc = if turn {
            !self.sort_asc
        } else {
            true
        };
        TabView {
            sort_key: key,
            sort_asc: asc,
            entries: sorted_rows(self.entries, key, asc),
            ..self
        }.refound()
    }

    /// The rows that are shown, in order.
    pub open spec fn shown(self) -> Seq<int> {
        if self.find is Some {
            self.find_results
        } else {
            every_row(self.entries.len())
        }
    }

    /// The paths that are shown, in order.
    pub open spec fn shown_paths(self) -> Seq<Seq<char>> {
        self.shown().map_values(|i: int| joined_path(self.dir, self.entries[i].name))
    }

    /// Whether the row `..` leads the listing.
    pub open spec fn has_parent_row(self, show_parent: bool) -> bool {
        self.find is None && show_parent && parent_of(self.dir) is Some
    }

    /// With one item selected and focused.
    pub open spec fn selecting(self, path: Seq<char>) -> TabView {
        TabView { selection: seq![path], anchor: Some(path), ..self }
    }

    /// With an item taken into the selection and focused, or taken out of it.
    pub open spec fn toggling(self, path: Seq<char>) -> TabView {
        TabView {
            selection: toggled(self.selection, path),
            anchor: if holds_place(self.selection, path) {
                self.anchor
            } else {
                Some(path)
            },
            ..self
        }
    }

    /// The position of the focused item among the shown ones.
    pub open spec fn anchor_row(self) -> Option<int> {
        match self.anchor {
            Some(a) => place_in(self.shown_paths(), a),
            None => None,
        }
    }

    /// With everything from the focused item to `path` selected, and `path`
    /// focused; just `path` if either is not shown.
    pub open spec fn ranging(self, path: Seq<char>) -> TabView {
        let paths = self.shown_paths();
        let sel = match (self.anchor_row(), place_in(paths, path)) {
            (Some(a), Some(b)) => gathered(
                paths.subrange(
                    at_most(a, b),
                    if a < b {
                        b + 1
                    } else {
                        a + 1
                    },
                ),
            ),
            _ => seq![path],
        };
        TabView { selection: sel, anchor: Some(path), ..self }
    }

    /// With every shown item selected.
    pub open spec fn all_selected(self) -> TabView {
        TabView { selection: gathered(self.shown_paths()), ..self }
    }

    /// With the shown rows from `lo` to `hi` selected, counted with the row `..`
    /// where there is one.
    pub open spec fn covering(self, lo: int, hi: int, show_parent: bool) -> TabView {
        let off: int = if self.has_parent_row(show_parent) {
            1
        } else {
            0
        };
        let paths = self.shown_paths();
        let a = if lo - off < 0 {
            0
        } else {
            lo - off
        };
        let b = at_most(hi - off + 1, paths.len() as int);
        TabView {
            selection: if a < b {
                gathered(paths.subrange(a, b))
            } else {
                Seq::empty()
            },
            ..self
        }
    }

    /// The last shown item that is selected.
    pub open spec fn last_selected(self, below: int) -> Option<Seq<char>>
        decreases below,
    {
        if below <= 0 {
            None
        } else if holds_place(self.selection, self.shown_paths()[below - 1]) {
            Some(self.shown_paths()[below - 1])
        } else {
            self.last_selected(below - 1)
        }
    }

    /// The row that an arrow key leads to: `delta` rows on from the focused one,
    /// within the listing; the first row if nothing is focused.
    pub open spec fn arrow_row(self, delta: int) -> Option<int> {
        if self.shown().len() == 0 {
            None
        } else {
            Some(
                match self.anchor_row() {
                    Some(i) => clamped(i + delta, self.shown().len() as int),
                    None => 0,
                },
            )
        }
    }

    /// With the row that an arrow key leads to selected.
    pub open spec fn arrowed(self, delta: int) -> TabView {
        match self.arrow_row(delta) {
            Some(k) => self.selecting(self.shown_paths()[k]),
            None => self,
        }
    }

    /// The folders of the columns: the one shown, then those opened in turn.
    pub open spec fn columns(self) -> Seq<Seq<char>> {
        seq![self.dir] + self.col_chain
    }

    /// The column that has the keyboard.
    pub open spec fn column_at(self) -> int {
        at_most(self.col_active, self.columns().len() - 1)
    }

    /// The column whose rows an arrow key to the side `dx` needs.
    pub open spec fn column_needed(self, dx: int) -> int {
        if dx > 0 && self.column_at() + 1 < self.columns().len() {
            self.column_at() + 1
        } else {
            self.column_at()
        }
    }

    /// With an entry of column `k` selected: further columns close, and a folder
    /// opens the next one.
    pub open spec fn column_selected(self, k: int, e: EntryView) -> TabView {
        let target = joined_path(self.columns()[k], e.name);
        let kept = self.col_chain.take(k);
        TabView {
            col_chain: if e.is_dir {
                kept.push(target)
            } else {
                kept
            },
            col_active: k,
            ..self.selecting(target)
        }
    }

    /// The item of column `k` that is selected.
    pub open spec fn column_choice(self, k: int) -> Option<Seq<char>> {
        if k < self.col_chain.len() {
            Some(self.col_chain[k])
        } else {
            self.anchor
        }
    }

    /// The paths of the rows of column `k`.
    pub open spec fn column_paths(self, k: int, rows: Seq<EntryView>) -> Seq<Seq<char>> {
        rows.map_values(|e: EntryView| joined_path(self.columns()[k], e.name))
    }

    /// After an arrow key in the column view. `rows` are the rows of the column
    /// that the key needs.
    pub open spec fn column_arrowed(self, dx: int, dy: int, rows: Seq<EntryView>) -> TabView {
        let k = self.column_at();
        if dx < 0 {
            if k > 0 {
                TabView { col_active: k - 1, ..self }
            } else {
                self
            }
        } else if dx > 0 {
            if k + 1 < self.columns().len() {
                if rows.len() > 0 {
                    self.column_selected(k + 1, rows[0])
                } else {
                    TabView { col_active: k + 1, ..self }
                }
            } else {
                self
            }
        } else if rows.len() == 0 {
            self
        } else {
            let at = match self.column_choice(k) {
                Some(p) => place_in(self.column_paths(k, rows), p),
                None => None,
            };
            let ni = match at {
                Some(i) => clamped(i + dy, rows.len() as int),
                None => 0,
            };
            self.column_selected(k, rows[ni])
        }
    }

    /// Whether an arrow key in the column view selects a row.
    pub open spec fn column_moves(self, dx: int, rows: Seq<EntryView>) -> bool {
        rows.len() > 0 && (dx == 0 || (dx > 0 && self.column_at() + 1 < self.columns().len()))
    }

    /// After a click in column `k`: further columns close; a folder opens the
    /// next one and loses the focus, a file keeps what was focused.
    pub open spec fn column_clicked(self, k: int, target: Seq<char>, is_dir: bool) -> TabView {
        let kept = if k < self.col_chain.len() {
            self.col_chain.take(k)
        } else {
            self.col_chain
        };
        if is_dir {
            TabView {
                col_chain: kept.push(target),
                selection: seq![target],
                anchor: None,
                ..self
            }
        } else {
            TabView { col_chain: kept, selection: seq![target], ..self }
        }
    }
}

fn copy_opt(b: &Option<String>) -> (r: Option<String>)
    ensures
        opt_text(r) == opt_text(*b),
{
    match b {
        Some(s) => Some(s.clone()),
        None => None,
    }
}

fn only(path: &str) -> (r: Vec<String>)
    ensures
        texts(r@) == seq![path@],
{
    let mut v: Vec<String> = Vec::new();
    v.push(owned(path));
    proof {
        assert(texts(v@) == seq![path@]);
    }
    v
}

impl Tab {
    /// Whether the tab is in order.
    pub open spec fn wf(&self) -> bool {
        self@.wf()
    }

    /// Opens a tab on `dir`.
    pub fn new(dir: &str, entries: Vec<Entry>, tag: u64) -> (r: Tab)
        ensures
            r@ == TabView::fresh(dir@, rows(entries@), tag),
            r.wf(),
    {
        let r = Tab {
            dir: owned(dir),
            entries,
            history: only(dir),
            hist_pos: 0,
            editing: None,
            find: None,
            find_results: Vec::new(),
            selection: Vec::new(),
            anchor: None,
            sort_key: SortKey::Standard,
            sort_asc: true,
            view: ViewMode::List,
            col_chain: Vec::new(),
            col_active: 0,
            load_gen: 0,
            dir_mtime: None,
            tag,
        };
        proof {
            assert(r@ =~= TabView::fresh(dir@, rows(entries@), tag));
        }
        r
    }

    /// Shows `dir` without touching the history.
    fn show(&mut self, dir: String)
        ensures
            final(self)@ == old(self)@.showing(dir@),
    {
        self.dir = dir;
        self.editing = None;
        self.find = None;
        self.find_results = Vec::new();
        self.selection = Vec::new();
        self.anchor = None;
        self.col_chain = Vec::new();
        self.col_active = 0;
        proof {
            assert(self@ =~= old(self)@.showing(dir@));
        }
    }

    /// Goes to `dir`.
    pub fn visit(&mut self, dir: &str)
        requires
            old(self).wf(),
        ensures
            final(self)@ == old(self)@.visited(dir@),
            final(self).wf(),
    {
        proof {
            assert(self.hist_pos < self.history.len());
        }
        let keep: usize = self.hist_pos + 1;
        self.history.truncate(keep);
        self.history.push(owned(dir));
        self.hist_pos = keep;
        proof {
            assert(texts(self.history@) =~= old(self)@.history.take(keep as int).push(dir@));
            assert(self.history@.len() == texts(self.history@).len());
        }
        self.show(owned(dir));
        proof {
            assert(self@ =~= old(self)@.visited(dir@));
        }
    }

    /// Goes back one folder; returns whether there was one.
    pub fn back(&mut self) -> (r: bool)
        requires
            old(self).wf(),
        ensures
            final(self)@ == old(self)@.went_back(),
            r == (old(self)@.hist_pos > 0),
            final(self).wf(),
    {
        if self.hist_pos == 0 {
            return false;
        }
        self.hist_pos = self.hist_pos - 1;
        let dir = self.history[self.hist_pos].clone();
        self.show(dir);
        true
    }

    /// Goes forward one folder; returns whether there was one.
    pub fn forward(&mut self) -> (r: bool)
        requires
            old(self).wf(),
        ensures
            final(self)@ == old(self)@.went_forward(),
            r == (old(self)@.hist_pos + 1 < old(self)@.history.len()),
            final(self).wf(),
    {
        if self.hist_pos >= self.history.len() - 1 {
            return false;
        }
        self.hist_pos = self.hist_pos + 1;
        let dir = self.history[self.hist_pos].clone();
        self.show(dir);
        true
    }

    /// Brings the find results up to date.
    pub fn recompute_find(&mut self)
        requires
            old(self)@.find matches Some(f) ==> f.wf(),
        ensures
            final(self)@ == old(self)@.refound(),
            final(self)@.find is Some ==> forall|k: int|
                0 <= k < final(self)@.find_results.len() ==> 0
                    <= #[trigger] final(self)@.find_results[k] < final(self)@.entries.len(),
    {
        match &self.find {
            Some(f) => {
                let r = filter_rows(&self.entries, f.text.as_str(), self.sort_key);
                self.find_results = r;
                proof {
                    lemma_filtered_in_range(self@.entries, self@.find->0.text, self@.sort_key);
                }
            },
            None => {},
        }
        proof {
            assert(self@ =~= old(self)@.refound());
        }
    }

    /// Replaces the listing; it is sorted and searched as before.
    pub fn set_entries(&mut self, entries: Vec<Entry>)
        requires
            old(self).wf(),
        ensures
            final(self)@ == old(self)@.listing(rows(entries@)),
            final(self).wf(),
    {
        self.entries = sort_entries(&entries, self.sort_key, self.sort_asc);
        self.recompute_find();
    }

    /// Sorts by `key`; the same key again turns the direction.
    pub fn set_sort(&mut self, key: SortKey)
        requires
            old(self).wf(),
        ensures
            final(self)@ == old(self)@.sorted_by(key),
            final(self).wf(),
    {
        if self.sort_key == key && key != SortKey::Standard {
            self.sort_asc = !self.sort_asc;
        } else {
            self.sort_key = key;
            self.sort_asc = true;
        }
        let sorted = sort_entries(&self.entries, self.sort_key, self.sort_asc);
        self.entries = sorted;
        self.recompute_find();
    }

    /// The number of rows that are shown.
    pub fn shown_len(&self) -> (r: usize)
        ensures
            r == self@.shown().len(),
    {
        if self.find.is_some() {
            self.find_results.len()
        } else {
            self.entries.len()
        }
    }

    /// Whether some rows of the listing are known by name only, so that the folder
    /// has yet to be read in full.
    pub fn needs_details(&self) -> (r: bool)
        ensures
            r == exists|i: int|
                0 <= i < self@.entries.len() && !(#[trigger] self@.entries[i]).loaded,
    {
        let mut i: usize = 0;
        while i < self.entries.len()
            invariant
                i <= self.entries.len(),
                forall|k: int| 0 <= k < i ==> (#[trigger] self@.entries[k]).loaded,
            decreases self.entries.len() - i,
        {
            proof {
                assert(self@.entries[i as int] == self.entries@[i as int]@);
            }
            if !self.entries[i].loaded {
                return true;
            }
            i += 1;
        }
        proof {
            assert(self@.entries.len() == self.entries@.len());
        }
        false
    }

    /// The listing row behind a shown row.
    pub fn shown_row(&self, k: usize) -> (r: usize)
        requires
            self.wf(),
            k < self@.shown().len(),
        ensures
            r == self@.shown()[k as int],
            r < self@.entries.len(),
    {
        if self.find.is_some() {
            proof {
                assert(self@.find_results[k as int] == self.find_results@[k as int]);
                assert(0 <= self@.find_results[k as int] < self@.entries.len());
            }
            self.find_results[k]
        } else {
            k
        }
    }

    /// The path of a shown row.
    pub fn shown_path(&self, k: usize) -> (r: String)
        requires
            self.wf(),
            k < self@.shown().len(),
        ensures
            r@ == self@.shown_paths()[k as int],
    {
        let i = self.shown_row(k);
        proof {
            assert(self@.entries[i as int].name == self.entries@[i as int].name@);
        }
        join_path(self.dir.as_str(), self.entries[i].name.as_str())
    }

    /// The paths that are shown, in order.
    pub fn display_paths(&self) -> (r: Vec<String>)
        requires
            self.wf(),
        ensures
            texts(r@) == self@.shown_paths(),
    {
        let n = self.shown_len();
        let mut out: Vec<String> = Vec::new();
        let mut k: usize = 0;
        while k < n
            invariant
                k <= n,
                n == self@.shown().len(),
                self.wf(),
                texts(out@) == self@.shown_paths().take(k as int),
            decreases n - k,
        {
            let p = self.shown_path(k);
            proof {
                assert(texts(out@.push(p)) == texts(out@).push(p@));
                assert(self@.shown_paths().take(k + 1) == self@.shown_paths().take(k as int).push(
                    p@,
                ));
            }
            out.push(p);
            k += 1;
        }
        proof {
            assert(self@.shown_paths().take(k as int) == self@.shown_paths());
        }
        out
    }

    /// Whether the row `..` leads the listing.
    pub fn has_parent(&self, show_parent: bool) -> (r: bool)
        ensures
            r == self@.has_parent_row(show_parent),
    {
        self.find.is_none() && show_parent && parent(self.dir.as_str()).is_some()
    }

    /// Selects and focuses one item.
    pub fn select(&mut self, path: &str)
        requires
            old(self).wf(),
        ensures
            final(self)@ == old(self)@.selecting(path@),
            final(self).wf(),
    {
        self.selection = only(path);
        self.anchor = Some(owned(path));
        proof {
            assert(self@ =~= old(self)@.selecting(path@));
        }
    }

    /// Takes an item into the selection, or out of it; returns whether it is
    /// selected now.
    pub fn toggle(&mut self, path: &str) -> (r: bool)
        requires
            old(self).wf(),
        ensures
            final(self)@ == old(self)@.toggling(path@),
            r == !holds_place(old(self)@.selection, path@),
            final(self).wf(),
    {
        proof {
            law_toggle_flips(self@.selection, path@, path@);
        }
        match find_place(&self.selection, path) {
            Some(_) => {
                let rest = drop_place(&self.selection, path);
                self.selection = rest;
                proof {
                    assert(self@ =~= old(self)@.toggling(path@));
                }
                false
            },
            None => {
                self.selection.push(owned(path));
                self.anchor = Some(owned(path));
                proof {
                    assert(texts(self.selection@) =~= old(self)@.selection.push(path@));
                    assert(self@ =~= old(self)@.toggling(path@));
                }
                true
            },
        }
    }

    fn anchor_row(&self, paths: &Vec<String>) -> (r: Option<usize>)
        requires
            texts(paths@) == self@.shown_paths(),
        ensures
            match r {
                Some(i) => self@.anchor_row() == Some(i as int) && i < paths.len(),
                None => self@.anchor_row() is None,
            },
    {
        match &self.anchor {
            Some(a) => find_place(paths, a.as_str()),
            None => None,
        }
    }

    /// Selects everything from the focused item to `path`.
    pub fn select_range(&mut self, path: &str)
        requires
            old(self).wf(),
        ensures
            final(self)@ == old(self)@.ranging(path@),
            final(self).wf(),
    {
        let paths = self.display_paths();
        let from = self.anchor_row(&paths);
        let to = find_place(&paths, path);
        match (from, to) {
            (Some(a), Some(b)) => {
                let lo: usize = if a < b {
                    a
                } else {
                    b
                };
                let hi: usize = if a < b {
                    b + 1
                } else {
                    a + 1
                };
                let part = slice_texts(&paths, lo, hi);
                proof {
                    lemma_gathered(texts(part@));
                }
                self.selection = gather(&part);
            },
            _ => {
                self.selection = only(path);
            },
        }
        self.anchor = Some(owned(path));
        proof {
            assert(self@ =~= old(self)@.ranging(path@));
        }
    }

    /// Selects every shown item.
    pub fn select_everything(&mut self)
        requires
            old(self).wf(),
        ensures
            final(self)@ == old(self)@.all_selected(),
            final(self).wf(),
    {
        let paths = self.display_paths();
        proof {
            lemma_gathered(texts(paths@));
        }
        self.selection = gather(&paths);
        proof {
            assert(self@ =~= old(self)@.all_selected());
        }
    }

    /// Selects the shown rows from `lo` to `hi`, counted with the row `..`.
    pub fn select_rows(&mut self, lo: i64, hi: i64, show_parent: bool)
        requires
            old(self).wf(),
        ensures
            final(self)@ == old(self)@.covering(lo as int, hi as int, show_parent),
            final(self).wf(),
    {
        let off: i128 = if self.has_parent(show_parent) {
            1
        } else {
            0
        };
        let paths = self.display_paths();
        proof {
            assert(paths@.len() == texts(paths@).len());
        }
        let a: i128 = if (lo as i128) - off < 0 {
            0
        } else {
            (lo as i128) - off
        };
        let end: i128 = (hi as i128) - off + 1;
        let b: i128 = if end < paths.len() as i128 {
            end
        } else {
            paths.len() as i128
        };
        if a < b {
            let part = slice_texts(&paths, a as usize, b as usize);
            proof {
                lemma_gathered(texts(part@));
            }
            self.selection = gather(&part);
        } else {
            self.selection = Vec::new();
        }
        proof {
            assert(self@ =~= old(self)@.covering(lo as int, hi as int, show_parent));
        }
    }

    /// Moves the focus by `delta` rows; returns the row it is on now.
    pub fn arrow_grid(&mut self, delta: i64) -> (r: Option<usize>)
        requires
            old(self).wf(),
        ensures
            final(self)@ == old(self)@.arrowed(delta as int),
            match r {
                Some(k) => old(self)@.arrow_row(delta as int) == Some(k as int),
                None => old(self)@.arrow_row(delta as int) is None,
            },
            final(self).wf(),
    {
        let paths = self.display_paths();
        proof {
            assert(paths@.len() == texts(paths@).len());
        }
        if paths.len() == 0 {
            return None;
        }
        let ni: usize = match self.anchor_row(&paths) {
            Some(i) => clamp_row(i as i128 + delta as i128, paths.len()),
            None => 0,
        };
        let target = paths[ni].clone();
        proof {
            assert(target@ == self@.shown_paths()[ni as int]);
        }
        self.select(target.as_str());
        Some(ni)
    }

    /// The last shown item that is selected.
    pub fn last_selected(&self) -> (r: Option<String>)
        requires
            self.wf(),
        ensures
            opt_text(r) == self@.last_selected(self@.shown().len() as int),
    {
        let paths = self.display_paths();
        proof {
            assert(paths@.len() == texts(paths@).len());
        }
        let mut k: usize = paths.len();
        while k > 0
            invariant
                k <= paths.len(),
                texts(paths@) == self@.shown_paths(),
                self@.last_selected(k as int) == self@.last_selected(self@.shown().len() as int),
            decreases k,
        {
            proof {
                assert(paths@[k - 1]@ == self@.shown_paths()[k - 1]);
            }
            if find_place(&self.selection, paths[k - 1].as_str()).is_some() {
                return Some(paths[k - 1].clone());
            }
            k -= 1;
        }
        None
    }

    /// The column that has the keyboard.
    pub fn column_at(&self) -> (r: usize)
        ensures
            r == self@.column_at(),
            r <= self.col_chain.len(),
    {
        if self.col_active < self.col_chain.len() {
            self.col_active
        } else {
            self.col_chain.len()
        }
    }

    /// The folder of column `k`.
    pub fn column_dir(&self, k: usize) -> (r: String)
        requires
            k < self@.columns().len(),
        ensures
            r@ == self@.columns()[k as int],
    {
        if k == 0 {
            self.dir.clone()
        } else {
            proof {
                assert(self@.columns()[k as int] == self@.col_chain[k - 1]);
            }
            self.col_chain[k - 1].clone()
        }
    }

    /// The folder whose rows an arrow key to the side `dx` needs.
    pub fn column_needed(&self, dx: i8) -> (r: String)
        ensures
            r@ == self@.columns()[self@.column_needed(dx as int)],
    {
        let k = self.column_at();
        if dx > 0 && k < self.col_chain.len() {
            self.column_dir(k + 1)
        } else {
            self.column_dir(k)
        }
    }

    fn column_set(&mut self, k: usize, e: &Entry) -> (r: String)
        requires
            old(self).wf(),
            k < old(self)@.columns().len(),
        ensures
            final(self)@ == old(self)@.column_selected(k as int, e@),
            r@ == joined_path(old(self)@.columns()[k as int], e@.name),
            final(self).wf(),
    {
        let dir = self.column_dir(k);
        let target = join_path(dir.as_str(), e.name.as_str());
        self.col_chain.truncate(k);
        proof {
            assert(texts(self.col_chain@) =~= old(self)@.col_chain.take(k as int));
        }
        if e.is_dir {
            self.col_chain.push(target.clone());
            proof {
                assert(texts(self.col_chain@) =~= old(self)@.col_chain.take(k as int).push(
                    target@,
                ));
            }
        }
        self.col_active = k;
        self.select(target.as_str());
        proof {
            assert(self@ =~= old(self)@.column_selected(k as int, e@));
        }
        target
    }

    /// An arrow key in the column view; `list` holds the rows of the column that
    /// the key needs. Returns the item that was selected.
    pub fn arrow_columns(&mut self, dx: i8, dy: i8, list: &Vec<Entry>) -> (r: Option<String>)
        requires
            old(self).wf(),
        ensures
            final(self)@ == old(self)@.column_arrowed(dx as int, dy as int, rows(list@)),
            final(self).wf(),
            r is Some == old(self)@.column_moves(dx as int, rows(list@)),
            r matches Some(p) ==> final(self)@.anchor == Some(p@),
    {
        let k = self.column_at();
        proof {
            assert(self@.columns().len() == self.col_chain@.len() + 1);
            assert(rows(list@).len() == list@.len());
        }
        if dx < 0 {
            if k > 0 {
                self.col_active = k - 1;
            }
            return None;
        }
        if dx > 0 {
            if k < self.col_chain.len() {
                if list.len() > 0 {
                    let p = self.column_set(k + 1, &list[0]);
                    return Some(p);
                }
                self.col_active = k + 1;
            }
            return None;
        }
        if list.len() == 0 {
            return None;
        }
        let dir = self.column_dir(k);
        let choice: Option<String> = if k < self.col_chain.len() {
            proof {
                assert(self@.col_chain[k as int] == self.col_chain@[k as int]@);
            }
            Some(self.col_chain[k].clone())
        } else {
            copy_opt(&self.anchor)
        };
        let ni: usize = match choice {
            Some(p) => {
                let paths = paths_under(dir.as_str(), list);
                proof {
                    assert(texts(paths@) =~= self@.column_paths(k as int, rows(list@)));
                    assert(paths@.len() == texts(paths@).len());
                }
                match find_place(&paths, p.as_str()) {
                    Some(i) => clamp_row(i as i128 + dy as i128, list.len()),
                    None => 0,
                }
            },
            None => 0,
        };
        let p = self.column_set(k, &list[ni]);
        Some(p)
    }

    /// A click on `target` in column `k`.
    pub fn click_column(&mut self, k: usize, target: &str, is_dir: bool)
        requires
            old(self).wf(),
        ensures
            final(self)@ == old(self)@.column_clicked(k as int, target@, is_dir),
            final(self).wf(),
    {
        let ghost chain = self@.col_chain;
        if k < self.col_chain.len() {
            self.col_chain.truncate(k);
            proof {
                assert(texts(self.col_chain@) =~= chain.take(k as int));
            }
        }
        let ghost kept = texts(self.col_chain@);
        self.selection = only(target);
        if is_dir {
            self.col_chain.push(owned(target));
            self.anchor = None;
            proof {
                assert(texts(self.col_chain@) =~= kept.push(target@));
            }
        }
        proof {
            assert(self@ =~= old(self)@.column_clicked(k as int, target@, is_dir));
        }
    }
}

fn paths_under(dir: &str, list: &Vec<Entry>) -> (r: Vec<String>)
    ensures
        texts(r@) == rows(list@).map_values(|e: EntryView| joined_path(dir@, e.name)),
{
    let ghost want = rows(list@).map_values(|e: EntryView| joined_path(dir@, e.name));
    let mut out: Vec<String> = Vec::new();
    let mut i: usize = 0;
    while i < list.len()
        invariant
            i <= list.len(),
            want == rows(list@).map_values(|e: EntryView| joined_path(dir@, e.name)),
            texts(out@) == want.take(i as int),
        decreases list.len() - i,
    {
        let p = join_path(dir, list[i].name.as_str());
        proof {
            assert(texts(out@.push(p)) == texts(out@).push(p@));
            assert(want.take(i + 1) == want.take(i as int).push(p@));
        }
        out.push(p);
        i += 1;
    }
    proof {
        assert(want.take(i as int) == want);
    }
    out
}

fn clamp_row(x: i128, n: usize) -> (r: usize)
    requires
        n > 0,
    ensures
        r == clamped(x as int, n as int),
        r < n,
{
    if x < 0 {
        0
    } else if x >= n as i128 {
        n - 1
    } else {
        x as usize
    }
}

/// The texts `a..b` of a list.
pub fn slice_texts(v: &Vec<String>, a: usize, b: usize) -> (r: Vec<String>)
    requires
        a <= b <= v.len(),
    ensures
        texts(r@) == texts(v@).subrange(a as int, b as int),
{
    let mut out: Vec<String> = Vec::new();
    let mut i: usize = a;
    while i < b
        invariant
            a <= i <= b <= v.len(),
            texts(out@) == texts(v@).subrange(a as int, i as int),
        decreases b - i,
    {
        let c = v[i].clone();
        proof {
            assert(texts(out@.push(c)) == texts(out@).push(c@));
            assert(texts(v@).subrange(a as int, i + 1) == texts(v@).subrange(
                a as int,
                i as int,
            ).push(c@));
        }
        out.push(c);
        i += 1;
    }
    out
}

// ----- laws ----------------------------------------------------------------------------

/// Going somewhere and back again shows the folder one came from.
pub proof fn law_back_undoes_visit(t: TabView, dir: Seq<char>)
    requires
        t.wf(),
    ensures
        t.visited(dir).went_back().dir == t.dir,
        t.visited(dir).went_back().hist_pos == t.hist_pos,
        t.visited(dir).wf(),
        t.visited(dir).went_back().wf(),
{
    let v = t.visited(dir);
    assert(v.history[t.hist_pos] == t.history[t.hist_pos]);
}

/// Forward undoes back, and back undoes forward.
pub proof fn law_forward_undoes_back(t: TabView)
    requires
        t.wf(),
    ensures
        t.hist_pos > 0 ==> t.went_back().went_forward().dir == t.dir
            && t.went_back().went_forward().history == t.history
            && t.went_back().went_forward().hist_pos == t.hist_pos,
        t.hist_pos + 1 < t.history.len() ==> t.went_forward().went_back().dir == t.dir
            && t.went_forward().went_back().hist_pos == t.hist_pos,
{
}

/// After going somewhere there is nothing ahead to go forward to.
pub proof fn law_visit_drops_what_lay_ahead(t: TabView, dir: Seq<char>)
    requires
        t.wf(),
    ensures
        t.visited(dir).went_forward() == t.visited(dir),
        t.visited(dir).history.last() == dir,
{
}

/// Choosing the same column twice sorts the other way round, and a third time
/// restores the first order, for the order of rows that it leaves.
pub proof fn law_sort_direction_turns(t: TabView, key: SortKey)
    requires
        key != SortKey::Standard,
    ensures
        t.sorted_by(key).sorted_by(key).sort_asc == !t.sorted_by(key).sort_asc,
        t.sorted_by(key).sort_key == key,
{
}

} // verus!
