//! What clicks, drags, keys and loads do to the panes: going from folder to
//! folder, selecting, revealing, dropping, and taking over what was read from
//! disk.

use crate::editing::law_keys_keep_cursor_inside;
use crate::field::{Field, FieldView, at_most};
use crate::keymap::{Key, KeystrokeView, clone_opt, key_named};
use crate::listing::{Entry, EntryView, SortKey, Stamp, rows};
use crate::menus::{MenuView, target_view};
use crate::palette::{PaletteMode, PaletteView, SearchScope, opt_int};
use crate::paths::{join_path, joined_path, parent_of, same_path, same_place};
use crate::places::{
    drop_place, find_place, holds_place, law_sorted_paths_keep, lemma_without_place, no_repeats,
    place_in, sort_paths, sorted_paths, without_place,
};
use crate::prefs::Prefs;
use crate::shuffle::{
    ContextMenu, ContextView, Deed, DeedView, Rename, RenameView, Shuffle, ShuffleView, next_load,
};
use crate::sidebar::SidebarView;
use crate::tabs::{Tab, TabView, ViewMode};
use crate::terminal::TermView;
use crate::text::{opt_text, owned, texts};
use vstd::prelude::*;

verus! {

// ----- tabs ----------------------------------------------------------------------------

/// The rows that the row `..` takes up.
pub open spec fn lead_rows(t: TabView, show_parent: bool) -> int {
    if t.has_parent_row(show_parent) {
        1
    } else {
        0
    }
}

/// The first entry that is a file, if there is one.
pub open spec fn first_file(s: Seq<EntryView>) -> Option<int>
    decreases s.len(),
{
    if s.len() == 0 {
        None
    } else {
        match first_file(s.drop_last()) {
            Some(i) => Some(i),
            None => if !s.last().is_dir {
                Some(s.len() - 1)
            } else {
                None
            },
        }
    }
}

impl TabView {
    /// With the focus on a path.
    pub open spec fn focused(self, path: Seq<char>) -> TabView {
        TabView { anchor: Some(path), ..self }
    }

    /// What the gallery shows when it opens: the focused item, or the first file.
    pub open spec fn gallery_start(self) -> Option<Seq<char>> {
        match self.anchor {
            Some(a) => Some(a),
            None => match first_file(self.entries) {
                Some(i) => Some(joined_path(self.dir, self.entries[i].name)),
                None => None,
            },
        }
    }

    /// With another way of display.
    pub open spec fn viewed(self, mode: ViewMode) -> TabView {
        let t = TabView { view: mode, ..self };
        if mode == ViewMode::Gallery && self.gallery_start() is Some {
            TabView { anchor: self.gallery_start(), ..t }
        } else {
            t
        }
    }

    /// The item of the list view, or the line of the icon view with `cols` icons
    /// on each, in which the shown row `ix` stands.
    pub open spec fn scroll_item(self, ix: int, cols: int, show_parent: bool) -> int {
        if self.view == ViewMode::Icons {
            ix / cols
        } else {
            ix + lead_rows(self, show_parent)
        }
    }

    /// By how many rows an arrow key moves the focus, outside the column view.
    pub open spec fn arrow_delta(self, dx: int, dy: int, cols: int) -> int {
        if self.view == ViewMode::Icons {
            dx + dy * cols
        } else {
            dy
        }
    }

    /// Whether an arrow key selects an item.
    pub open spec fn arrow_moves(self, dx: int, dy: int, rows: Seq<EntryView>) -> bool {
        match self.view {
            ViewMode::Columns => self.column_moves(dx, rows),
            ViewMode::Icons => self.shown().len() > 0,
            _ => dy != 0 && self.shown().len() > 0,
        }
    }

    /// With what was renamed selected and focused under its new path.
    pub open spec fn renamed(self, from: Seq<char>, to: Seq<char>) -> TabView {
        let rest = without_place(self.selection, from);
        TabView {
            selection: if !holds_place(self.selection, from) {
                self.selection
            } else if holds_place(rest, to) {
                rest
            } else {
                rest.push(to)
            },
            anchor: match self.anchor {
                Some(a) => if same_place(a, from) {
                    Some(to)
                } else {
                    Some(a)
                },
                None => None,
            },
            ..self
        }
    }

    /// Whether the row `row` of the list view is a folder that can be dropped on.
    pub open spec fn folder_row(self, row: int, show_parent: bool) -> bool {
        let lead = lead_rows(self, show_parent);
        if row < lead {
            true
        } else {
            row - lead < self.shown().len() && self.entries[self.shown()[row - lead]].is_dir
        }
    }

    /// The row that a drag over `row` would drop on: a folder in the list view,
    /// while the pointer is in the column of names.
    pub open spec fn drop_row(self, row: int, in_name: bool, show_parent: bool) -> Option<int> {
        if self.view == ViewMode::List && in_name && self.folder_row(row, show_parent) {
            Some(row)
        } else {
            None
        }
    }

    /// What is dragged from a press on `path`: the selection if it is part of it,
    /// else it alone; in order.
    pub open spec fn dragged(self, path: Seq<char>) -> Seq<Seq<char>> {
        if holds_place(self.selection, path) {
            sorted_paths(self.selection)
        } else {
            seq![path]
        }
    }
}

fn find_file(v: &Vec<Entry>) -> (r: Option<usize>)
    ensures
        match r {
            Some(i) => first_file(rows(v@)) == Some(i as int) && i < v@.len(),
            None => first_file(rows(v@)) is None,
        },
{
    let mut i: usize = 0;
    proof {
        assert(rows(v@).take(0).len() == 0);
    }
    while i < v.len()
        invariant
            i <= v.len(),
            first_file(rows(v@).take(i as int)) is None,
        decreases v.len() - i,
    {
        proof {
            let t = rows(v@).take(i + 1);
            assert(t.drop_last() =~= rows(v@).take(i as int));
            assert(t.last() == v@[i as int]@);
        }
        if !v[i].is_dir {
            proof {
                lemma_first_file(rows(v@), i as int);
            }
            return Some(i);
        }
        i += 1;
    }
    proof {
        assert(rows(v@).take(i as int) =~= rows(v@));
    }
    None
}

proof fn lemma_first_file(s: Seq<EntryView>, i: int)
    requires
        0 <= i < s.len(),
        first_file(s.take(i + 1)) == Some(i),
    ensures
        first_file(s) == Some(i),
    decreases s.len(),
{
    if s.len() == i + 1 {
        assert(s.take(i + 1) =~= s);
    } else {
        assert(s.drop_last().take(i + 1) =~= s.take(i + 1));
        lemma_first_file(s.drop_last(), i);
    }
}

impl Tab {
    /// The item or line in which a shown row stands.
    pub fn scroll_item(&self, ix: usize, cols: usize, show_parent: bool) -> (r: usize)
        requires
            self.wf(),
            cols > 0,
            ix < self@.shown().len(),
        ensures
            r == self@.scroll_item(ix as int, cols as int, show_parent),
    {
        let shown: usize = self.shown_len();
        if self.view == ViewMode::Icons {
            ix / cols
        } else if self.has_parent(show_parent) {
            assert(ix < shown);
            ix + 1
        } else {
            ix
        }
    }

    /// Takes over that an item was renamed.
    pub fn rename_item(&mut self, from: &str, to: &str)
        requires
            old(self).wf(),
        ensures
            final(self)@ == old(self)@.renamed(from@, to@),
            final(self).wf(),
    {
        let ghost sel = self@.selection;
        if find_place(&self.selection, from).is_some() {
            let mut rest = drop_place(&self.selection, from);
            proof {
                lemma_without_keeps(sel, from@);
            }
            if find_place(&rest, to).is_none() {
                let ghost before = texts(rest@);
                rest.push(owned(to));
                proof {
                    assert(texts(rest@) =~= before.push(to@));
                    assert forall|i: int, j: int| 0 <= i < j < before.push(to@).len() implies !same_place(
                        #[trigger] before.push(to@)[i],
                        #[trigger] before.push(to@)[j],
                    ) by {
                        assert(same_place(before[i], to@) ==> holds_place(before, to@));
                        if j < before.len() {
                            assert(!same_place(before[i], before[j]));
                        }
                    }
                }
            }
            self.selection = rest;
        }
        let hit = match &self.anchor {
            Some(a) => same_path(a.as_str(), from),
            None => false,
        };
        if hit {
            self.anchor = Some(owned(to));
        }
    }

    /// The row that a drag over `row` would drop on.
    pub fn drop_row(&self, row: usize, in_name: bool, show_parent: bool) -> (r: Option<usize>)
        requires
            self.wf(),
        ensures
            opt_int(r) == self@.drop_row(row as int, in_name, show_parent),
    {
        if self.view != ViewMode::List || !in_name {
            return None;
        }
        let lead: usize = if self.has_parent(show_parent) {
            1
        } else {
            0
        };
        if row < lead {
            return Some(row);
        }
        let k: usize = row - lead;
        if k >= self.shown_len() {
            return None;
        }
        let i: usize = self.shown_row(k);
        proof {
            assert(self@.entries[i as int] == self.entries@[i as int]@);
        }
        if self.entries[i].is_dir {
            Some(row)
        } else {
            None
        }
    }

    /// What is dragged from a press on `path`.
    pub fn drag_paths(&self, path: &str) -> (r: Vec<String>)
        ensures
            texts(r@) == self@.dragged(path@),
    {
        if find_place(&self.selection, path).is_some() {
            sort_paths(&self.selection)
        } else {
            let mut v: Vec<String> = Vec::new();
            v.push(owned(path));
            proof {
                assert(texts(v@) =~= seq![path@]);
            }
            v
        }
    }
}

proof fn lemma_without_keeps(s: Seq<Seq<char>>, p: Seq<char>)
    requires
        no_repeats(s),
    ensures
        no_repeats(without_place(s, p)),
    decreases s.len(),
{
    if s.len() > 0 {
        let h = s.drop_last();
        assert forall|i: int, j: int| 0 <= i < j < h.len() implies !same_place(
            #[trigger] h[i],
            #[trigger] h[j],
        ) by {
            assert(h[i] == s[i] && h[j] == s[j]);
        }
        lemma_without_keeps(h, p);
        lemma_without_place(h, p);
        let w = without_place(h, p);
        let r = without_place(s, p);
        assert forall|i: int, j: int| 0 <= i < j < r.len() implies !same_place(
            #[trigger] r[i],
            #[trigger] r[j],
        ) by {
            if !same_place(s.last(), p) && j == w.len() {
                assert(h.contains(w[i]));
                let k = choose|k: int| 0 <= k < h.len() && h[k] == w[i];
                assert(!same_place(s[k], s[s.len() - 1]));
            } else {
                assert(!same_place(w[i], w[j]));
            }
        }
    }
}

/// What was dragged holds the path that was pressed.
pub proof fn law_drag_takes_what_was_pressed(t: TabView, path: Seq<char>)
    ensures
        holds_place(t.dragged(path), path),
{
    if holds_place(t.selection, path) {
        law_sorted_paths_keep(t.selection);
        let i = choose|i: int| 0 <= i < t.selection.len() && same_place(#[trigger] t.selection[i], path);
        let x = t.selection[i];
        let d = sorted_paths(t.selection);
        assert(t.selection.contains(x));
        t.selection.to_multiset_ensures();
        d.to_multiset_ensures();
        assert(t.selection.to_multiset().count(x) > 0);
        assert(d.to_multiset().count(x) > 0);
        assert(d.contains(x));
        let k = choose|k: int| 0 <= k < d.len() && d[k] == x;
        assert(same_place(d[k], path));
    } else {
        assert(same_place(seq![path][0], path));
    }
}

// ----- the window ----------------------------------------------------------------------

impl ShuffleView {
    /// With the keyboard in a pane and no rename in progress.
    pub open spec fn grabbed(self, pane: int) -> ShuffleView {
        ShuffleView { work: self.work.focusing(pane), rename: None, ..self }
    }

    /// With the inspector on a path.
    pub open spec fn inspecting(self, pane: int, path: Seq<char>) -> ShuffleView {
        ShuffleView { page: 0, ..self.with_tab(pane, self.work.tab(pane).focused(path)) }
    }

    /// Whether a pane can go to `dir`: it is a folder, and not the one shown.
    pub open spec fn can_go(self, pane: int, dir: Seq<char>, is_dir: bool) -> bool {
        is_dir && !same_place(dir, self.work.tab(pane).dir)
    }

    /// After going to `dir`: it is the newest of the recent folders.
    pub open spec fn went(self, pane: int, dir: Seq<char>) -> ShuffleView {
        let g = self.grabbed(pane);
        ShuffleView {
            side: self.side.visited(dir),
            ..g.with_tab(pane, self.work.tab(pane).visited(dir))
        }
    }

    /// After going to `dir`, if that can be done.
    pub open spec fn navigated(self, pane: int, dir: Seq<char>, is_dir: bool) -> ShuffleView {
        if self.can_go(pane, dir, is_dir) {
            self.went(pane, dir)
        } else {
            self
        }
    }

    /// After the back arrow.
    pub open spec fn backed(self, pane: int) -> ShuffleView {
        let t = self.work.tab(pane);
        let f = ShuffleView { work: self.work.focusing(pane), ..self };
        if t.hist_pos == 0 {
            f
        } else {
            ShuffleView {
                side: self.side.visited(t.history[t.hist_pos - 1]),
                rename: None,
                ..f.with_tab(pane, t.went_back())
            }
        }
    }

    /// After the forward arrow.
    pub open spec fn forwarded(self, pane: int) -> ShuffleView {
        let t = self.work.tab(pane);
        let f = ShuffleView { work: self.work.focusing(pane), ..self };
        if t.hist_pos + 1 >= t.history.len() {
            f
        } else {
            ShuffleView {
                side: self.side.visited(t.history[t.hist_pos + 1]),
                rename: None,
                ..f.with_tab(pane, t.went_forward())
            }
        }
    }

    /// With the path bar of a pane being edited.
    pub open spec fn editing_path(self, pane: int) -> ShuffleView {
        let t = self.work.tab(pane);
        let f = ShuffleView { work: self.work.focusing(pane), ..self };
        f.with_tab(pane, TabView { editing: Some(FieldView::holding(t.dir)), ..t })
    }

    /// With a first, quick listing of the folder of a pane, and a new number for
    /// the load.
    pub open spec fn loading(
        self,
        pane: int,
        stamp: Option<Stamp>,
        quick: Seq<EntryView>,
    ) -> ShuffleView {
        let n = next_load(self.loads);
        let t = TabView { dir_mtime: stamp, load_gen: n, ..self.work.tab(pane) };
        ShuffleView { loads: n, ..self.with_tab(pane, t.listing(quick)) }
    }

    /// Whether a full listing still belongs to what a pane shows.
    pub open spec fn load_current(self, pane: int, gen: u64, dir: Seq<char>) -> bool {
        pane < self.work.panes.len() && self.work.tab(pane).load_gen == gen && same_place(
            self.work.tab(pane).dir,
            dir,
        )
    }

    /// After a full listing came in; a late one changes nothing.
    pub open spec fn loaded(
        self,
        pane: int,
        gen: u64,
        dir: Seq<char>,
        full: Seq<EntryView>,
    ) -> ShuffleView {
        if self.load_current(pane, gen, dir) {
            self.with_tab(pane, self.work.tab(pane).listing(full))
        } else {
            self
        }
    }

    /// After the time at which a folder changed was looked up: whether the pane
    /// has to be read again. The first time is only noted.
    pub open spec fn watched(self, pane: int, dir: Seq<char>, now: Option<Stamp>) -> (
        ShuffleView,
        bool,
    ) {
        if pane >= self.work.panes.len() || !same_place(self.work.tab(pane).dir, dir) {
            (self, false)
        } else {
            match (self.work.tab(pane).dir_mtime, now) {
                (Some(a), Some(b)) => (self, a != b),
                (None, Some(b)) => (
                    self.with_tab(
                        pane,
                        TabView { dir_mtime: Some(b), ..self.work.tab(pane) },
                    ),
                    false,
                ),
                _ => (self, false),
            }
        }
    }

    /// With a pane displayed in another way.
    pub open spec fn viewed(self, pane: int, mode: ViewMode) -> ShuffleView {
        let f = ShuffleView { work: self.work.focusing(pane), ..self };
        f.with_tab(pane, self.work.tab(pane).viewed(mode))
    }

    /// With a pane sorted by a column.
    pub open spec fn sorted_by(self, pane: int, key: SortKey) -> ShuffleView {
        self.with_tab(pane, self.work.tab(pane).sorted_by(key))
    }

    /// With a path selected and in the inspector.
    pub open spec fn revealed(self, pane: int, path: Seq<char>) -> ShuffleView {
        ShuffleView { page: 0, ..self.with_tab(pane, self.work.tab(pane).selecting(path)) }
    }

    /// After a click that selects one item.
    pub open spec fn picked(self, pane: int, path: Seq<char>) -> ShuffleView {
        self.grabbed(pane).revealed(pane, path)
    }

    /// After a click that takes an item into the selection or out of it.
    pub open spec fn toggled_entry(self, pane: int, path: Seq<char>) -> (ShuffleView, DeedView) {
        let t = self.work.tab(pane);
        let s = self.grabbed(pane).with_tab(pane, t.toggling(path));
        if holds_place(t.selection, path) {
            (s, DeedView::Redraw)
        } else {
            (ShuffleView { page: 0, ..s }, DeedView::Look { pane, path })
        }
    }

    /// After a click that selects a range.
    pub open spec fn ranged(self, pane: int, path: Seq<char>) -> ShuffleView {
        let t = self.work.tab(pane);
        ShuffleView { page: 0, ..self.grabbed(pane).with_tab(pane, t.ranging(path)) }
    }

    /// After a click on an item: with the command key it toggles, with shift it
    /// selects a range; a folder is entered, and a file is opened by the second
    /// click.
    pub open spec fn clicked(
        self,
        pane: int,
        path: Seq<char>,
        is_dir: bool,
        command: bool,
        shift: bool,
        clicks: int,
    ) -> (ShuffleView, DeedView) {
        let s = ShuffleView {
            work: self.work.focusing(pane),
            term: TermView { focused: false, ..self.term },
            ..self
        };
        if command {
            s.toggled_entry(pane, path)
        } else if shift {
            (s.ranged(pane, path), DeedView::Look { pane, path })
        } else if is_dir {
            (s, DeedView::Visit { pane, path })
        } else if clicks >= 2 {
            (s, DeedView::OpenFile(path))
        } else {
            (s.picked(pane, path), DeedView::Look { pane, path })
        }
    }

    /// After a press on empty space: nothing is selected.
    pub open spec fn marquee_begun(self, pane: int) -> ShuffleView {
        let t = self.work.tab(pane);
        ShuffleView {
            term: TermView { focused: false, ..self.term },
            ..self.grabbed(pane).with_tab(
                pane,
                TabView { selection: Seq::empty(), anchor: None, ..t },
            )
        }
    }

    /// After a drag over empty space: what it covered is selected, and the last
    /// of it gets the focus if nothing has it.
    pub open spec fn marquee_ended(self, pane: int) -> (ShuffleView, DeedView) {
        let t = self.work.tab(pane);
        match (t.anchor, t.last_selected(t.shown().len() as int)) {
            (None, Some(p)) => (
                self.inspecting(pane, p),
                DeedView::Look { pane, path: p },
            ),
            _ => (self, DeedView::Redraw),
        }
    }

    /// After a click in the column view.
    pub open spec fn column_clicked(
        self,
        pane: int,
        k: int,
        target: Seq<char>,
        is_dir: bool,
        clicks: int,
    ) -> (ShuffleView, DeedView) {
        let s = ShuffleView {
            work: self.work.focusing(pane),
            term: TermView { focused: false, ..self.term },
            ..self
        };
        let t = self.work.tab(pane);
        if is_dir && clicks >= 2 {
            (s, DeedView::Visit { pane, path: target })
        } else {
            let u = s.with_tab(pane, t.column_clicked(k, target, is_dir));
            if is_dir {
                (u, DeedView::Redraw)
            } else if clicks >= 2 {
                (u, DeedView::OpenFile(target))
            } else {
                (u.inspecting(pane, target), DeedView::Look { pane, path: target })
            }
        }
    }

    /// After an arrow key. The column view moves over `rows`, the icon view by
    /// lines of `cols` icons; in the other views only up and down move.
    pub open spec fn arrow_moved(
        self,
        pane: int,
        dx: int,
        dy: int,
        cols: int,
        rows: Seq<EntryView>,
    ) -> ShuffleView {
        let f = ShuffleView { work: self.work.focusing(pane), ..self };
        let t = self.work.tab(pane);
        let s = if t.view == ViewMode::Columns {
            f.with_tab(pane, t.column_arrowed(dx, dy, rows))
        } else {
            f.with_tab(pane, t.arrowed(t.arrow_delta(dx, dy, cols)))
        };
        if t.arrow_moves(dx, dy, rows) {
            ShuffleView { page: 0, ..s }
        } else if t.view == ViewMode::Columns {
            s
        } else {
            f
        }
    }

    /// With a context menu open on a pane, or on the last one there is.
    pub open spec fn menu_opened(self, pane: int, target: Option<(Seq<char>, bool)>) -> ShuffleView {
        let p = at_most(pane, self.work.panes.len() - 1);
        ShuffleView {
            menu: Some(ContextView { pane: p, target, level: MenuView::Root }),
            ..self.grabbed(p)
        }
    }

    /// With another level of the context menu shown.
    pub open spec fn menu_turned(self, level: MenuView) -> ShuffleView {
        match self.menu {
            Some(m) => ShuffleView { menu: Some(ContextView { level, ..m }), ..self },
            None => self,
        }
    }

    /// With the rename in progress committed, unless its name cannot be used.
    pub open spec fn rename_committed(self, taken: bool) -> (ShuffleView, DeedView) {
        match self.rename {
            Some(r) => if r.fault(taken) is Some {
                (self, DeedView::Redraw)
            } else {
                (ShuffleView { rename: None, ..self }, r.committed(taken))
            },
            None => (self, DeedView::Redraw),
        }
    }

    /// Whether the folder shown has to be indexed for the palette.
    pub open spec fn index_missing(self) -> bool {
        let d = self.tab().dir;
        !(self.indexed matches Some(r) && same_place(r, d)) && !(self.indexing matches Some(r)
            && same_place(r, d))
    }

    /// With the indexing of the folder shown begun, if it is missing.
    pub open spec fn index_begun(self) -> ShuffleView {
        if self.index_missing() {
            ShuffleView { indexing: Some(self.tab().dir), ..self }
        } else {
            self
        }
    }

    /// With another scope searched.
    pub open spec fn scoped(self, scope: SearchScope) -> ShuffleView {
        let s = ShuffleView {
            palette: PaletteView { mode: PaletteMode::Search(scope), ..self.palette },
            ..self
        };
        if scope == SearchScope::Recursive {
            s.index_begun()
        } else {
            s
        }
    }

    /// Whether an index that was built is the one waited for.
    pub open spec fn index_awaited(self, root: Seq<char>) -> bool {
        self.indexing matches Some(r) && same_place(r, root)
    }

    /// After an index was built, if it is the one waited for.
    pub open spec fn index_ready(self, root: Seq<char>) -> ShuffleView {
        if self.index_awaited(root) {
            ShuffleView { indexing: None, indexed: Some(root), ..self }
        } else {
            self
        }
    }

    /// Whether the palette shows what an index that was built would change.
    pub open spec fn index_shown(self, root: Seq<char>) -> bool {
        self.index_awaited(root) && self.palette.open && self.palette.mode
            == PaletteMode::Search(SearchScope::Recursive) && same_place(self.tab().dir, root)
    }
}

impl Shuffle {
    /// Goes to a folder; returns whether the pane now shows it.
    pub fn navigate_in(&mut self, pane: usize, dir: &str, is_dir: bool) -> (r: bool)
        requires
            old(self).wf(),
            pane < old(self)@.work.panes.len(),
        ensures
            final(self)@ == old(self)@.navigated(pane as int, dir@, is_dir),
            r == old(self)@.can_go(pane as int, dir@, is_dir),
            final(self).wf(),
    {
        if !is_dir || same_path(dir, self.work.tab(pane).dir.as_str()) {
            return false;
        }
        self.work.focus(pane);
        self.rename = None;
        self.work.tab_mut(pane).visit(dir);
        self.side.visit(dir);
        true
    }

    /// Goes back one folder; returns the folder that is shown then.
    pub fn go_back(&mut self, pane: usize) -> (r: Option<String>)
        requires
            old(self).wf(),
            pane < old(self)@.work.panes.len(),
        ensures
            final(self)@ == old(self)@.backed(pane as int),
            r is Some == (old(self)@.work.tab(pane as int).hist_pos > 0),
            r matches Some(d) ==> d@ == final(self)@.work.tab(pane as int).dir,
            final(self).wf(),
    {
        self.work.focus(pane);
        if self.work.tab(pane).hist_pos == 0 {
            return None;
        }
        self.rename = None;
        self.work.tab_mut(pane).back();
        let dir = self.work.tab(pane).dir.clone();
        self.side.visit(dir.as_str());
        Some(dir)
    }

    /// Goes forward one folder; returns the folder that is shown then.
    pub fn go_forward(&mut self, pane: usize) -> (r: Option<String>)
        requires
            old(self).wf(),
            pane < old(self)@.work.panes.len(),
        ensures
            final(self)@ == old(self)@.forwarded(pane as int),
            r is Some == (old(self)@.work.tab(pane as int).hist_pos + 1 < old(self)@.work.tab(
                pane as int,
            ).history.len()),
            r matches Some(d) ==> d@ == final(self)@.work.tab(pane as int).dir,
            final(self).wf(),
    {
        self.work.focus(pane);
        let t = self.work.tab(pane);
        proof {
            assert(t.history@.len() == t@.history.len());
        }
        if t.hist_pos >= t.history.len() - 1 {
            return None;
        }
        self.rename = None;
        self.work.tab_mut(pane).forward();
        let dir = self.work.tab(pane).dir.clone();
        self.side.visit(dir.as_str());
        Some(dir)
    }

    /// Makes the path bar of a pane editable.
    pub fn begin_path_edit(&mut self, pane: usize)
        requires
            old(self).wf(),
            pane < old(self)@.work.panes.len(),
        ensures
            final(self)@ == old(self)@.editing_path(pane as int),
            final(self).wf(),
    {
        self.work.focus(pane);
        let t = self.work.tab_mut(pane);
        t.editing = Some(Field::holding(t.dir.clone()));
    }

    /// Takes over a first, quick listing of a pane's folder; returns the number
    /// of the load.
    pub fn begin_load(&mut self, pane: usize, stamp: Option<Stamp>, quick: Vec<Entry>) -> (r: u64)
        requires
            old(self).wf(),
            pane < old(self)@.work.panes.len(),
        ensures
            final(self)@ == old(self)@.loading(pane as int, stamp, rows(quick@)),
            r == next_load(old(self)@.loads),
            final(self).wf(),
    {
        let n: u64 = if self.loads == u64::MAX {
            0
        } else {
            self.loads + 1
        };
        self.loads = n;
        let t = self.work.tab_mut(pane);
        t.dir_mtime = stamp;
        t.load_gen = n;
        t.set_entries(quick);
        n
    }

    /// Takes over a full listing, unless the pane has moved on; returns whether
    /// it did.
    pub fn finish_load(&mut self, pane: usize, gen: u64, dir: &str, full: Vec<Entry>) -> (r: bool)
        requires
            old(self).wf(),
        ensures
            final(self)@ == old(self)@.loaded(pane as int, gen, dir@, rows(full@)),
            r == old(self)@.load_current(pane as int, gen, dir@),
            final(self).wf(),
    {
        if pane >= self.work.panes.len() {
            return false;
        }
        let t = self.work.tab(pane);
        if t.load_gen != gen || !same_path(t.dir.as_str(), dir) {
            return false;
        }
        self.work.tab_mut(pane).set_entries(full);
        true
    }

    /// Takes over the time at which the folder of a pane last changed; returns
    /// whether the pane has to be read again.
    pub fn watch(&mut self, pane: usize, dir: &str, now: Option<Stamp>) -> (r: bool)
        requires
            old(self).wf(),
        ensures
            (final(self)@, r) == old(self)@.watched(pane as int, dir@, now),
            final(self).wf(),
    {
        if pane >= self.work.panes.len() || !same_path(self.work.tab(pane).dir.as_str(), dir) {
            return false;
        }
        let known: Option<Stamp> = self.work.tab(pane).dir_mtime;
        match (known, now) {
            (Some(a), Some(b)) => !(a.secs == b.secs && a.nanos == b.nanos),
            (None, Some(b)) => {
                self.work.tab_mut(pane).dir_mtime = Some(b);
                false
            },
            _ => false,
        }
    }

    /// Displays a pane in another way; returns the item that the gallery shows.
    pub fn set_view(&mut self, pane: usize, mode: ViewMode) -> (r: Option<String>)
        requires
            old(self).wf(),
            pane < old(self)@.work.panes.len(),
        ensures
            final(self)@ == old(self)@.viewed(pane as int, mode),
            opt_text(r) == (if mode == ViewMode::Gallery {
                old(self)@.work.tab(pane as int).gallery_start()
            } else {
                None
            }),
            final(self).wf(),
    {
        self.work.focus(pane);
        let t = self.work.tab_mut(pane);
        t.view = mode;
        if mode != ViewMode::Gallery {
            return None;
        }
        let start: Option<String> = match &t.anchor {
            Some(a) => Some(a.clone()),
            None => match find_file(&t.entries) {
                Some(i) => {
                    proof {
                        assert(t@.entries[i as int] == t.entries@[i as int]@);
                    }
                    Some(join_path(t.dir.as_str(), t.entries[i].name.as_str()))
                },
                None => None,
            },
        };
        if start.is_some() {
            t.anchor = clone_opt(&start);
        }
        start
    }

    /// Sorts a pane by a column.
    pub fn set_sort(&mut self, pane: usize, key: SortKey)
        requires
            old(self).wf(),
            pane < old(self)@.work.panes.len(),
        ensures
            final(self)@ == old(self)@.sorted_by(pane as int, key),
            final(self).wf(),
    {
        self.work.tab_mut(pane).set_sort(key);
    }

    /// Puts a path into the inspector.
    pub fn focus_entry(&mut self, pane: usize, path: &str)
        requires
            old(self).wf(),
            pane < old(self)@.work.panes.len(),
        ensures
            final(self)@ == old(self)@.inspecting(pane as int, path@),
            final(self).wf(),
    {
        self.page = 0;
        self.work.tab_mut(pane).anchor = Some(owned(path));
    }

    /// Selects a path and puts it into the inspector; returns where to scroll to,
    /// if it is shown.
    pub fn reveal_in_pane(&mut self, pane: usize, path: &str, cols: usize, show_parent: bool) -> (r:
        Option<usize>)
        requires
            old(self).wf(),
            pane < old(self)@.work.panes.len(),
            cols > 0,
        ensures
            final(self)@ == old(self)@.revealed(pane as int, path@),
            match place_in(old(self)@.work.tab(pane as int).shown_paths(), path@) {
                Some(ix) => r is Some && r->0 == old(self)@.work.tab(pane as int).scroll_item(
                    ix,
                    cols as int,
                    show_parent,
                ),
                None => r is None,
            },
            final(self).wf(),
    {
        let t = self.work.tab(pane);
        let paths = t.display_paths();
        proof {
            assert(paths@.len() == texts(paths@).len());
        }
        let r: Option<usize> = match find_place(&paths, path) {
            Some(ix) => Some(t.scroll_item(ix, cols, show_parent)),
            None => None,
        };
        self.page = 0;
        self.work.tab_mut(pane).select(path);
        r
    }

    /// Selects just this item.
    pub fn select_entry(&mut self, pane: usize, path: &str)
        requires
            old(self).wf(),
            pane < old(self)@.work.panes.len(),
        ensures
            final(self)@ == old(self)@.picked(pane as int, path@),
            final(self).wf(),
    {
        self.work.focus(pane);
        self.rename = None;
        self.page = 0;
        self.work.tab_mut(pane).select(path);
    }

    /// Takes an item into the selection, or out of it.
    pub fn toggle_entry(&mut self, pane: usize, path: &str) -> (r: Deed)
        requires
            old(self).wf(),
            pane < old(self)@.work.panes.len(),
        ensures
            (final(self)@, r@) == old(self)@.toggled_entry(pane as int, path@),
            final(self).wf(),
    {
        self.work.focus(pane);
        self.rename = None;
        if self.work.tab_mut(pane).toggle(path) {
            self.page = 0;
            Deed::Look { pane, path: owned(path) }
        } else {
            Deed::Redraw
        }
    }

    /// Selects everything from the focused item to this one.
    pub fn range_select(&mut self, pane: usize, path: &str)
        requires
            old(self).wf(),
            pane < old(self)@.work.panes.len(),
        ensures
            final(self)@ == old(self)@.ranged(pane as int, path@),
            final(self).wf(),
    {
        self.work.focus(pane);
        self.rename = None;
        self.page = 0;
        self.work.tab_mut(pane).select_range(path);
    }

    /// A click on an item.
    pub fn click_entry(
        &mut self,
        pane: usize,
        path: &str,
        is_dir: bool,
        command: bool,
        shift: bool,
        clicks: usize,
    ) -> (r: Deed)
        requires
            old(self).wf(),
            pane < old(self)@.work.panes.len(),
        ensures
            (final(self)@, r@) == old(self)@.clicked(
                pane as int,
                path@,
                is_dir,
                command,
                shift,
                clicks as int,
            ),
            final(self).wf(),
    {
        self.work.focus(pane);
        self.term.focused = false;
        if command {
            self.toggle_entry(pane, path)
        } else if shift {
            self.range_select(pane, path);
            Deed::Look { pane, path: owned(path) }
        } else if is_dir {
            Deed::Visit { pane, path: owned(path) }
        } else if clicks >= 2 {
            Deed::OpenFile(owned(path))
        } else {
            self.select_entry(pane, path);
            Deed::Look { pane, path: owned(path) }
        }
    }

    /// A press on empty space.
    pub fn begin_marquee(&mut self, pane: usize)
        requires
            old(self).wf(),
            pane < old(self)@.work.panes.len(),
        ensures
            final(self)@ == old(self)@.marquee_begun(pane as int),
            final(self).wf(),
    {
        self.work.focus(pane);
        self.term.focused = false;
        self.rename = None;
        let t = self.work.tab_mut(pane);
        t.selection = Vec::new();
        t.anchor = None;
        proof {
            assert(texts(t.selection@) =~= Seq::<Seq<char>>::empty());
            assert(no_repeats(t@.selection));
        }
    }

    /// The drag over empty space now covers the rows from `lo` to `hi`.
    pub fn update_marquee(&mut self, pane: usize, lo: i64, hi: i64, show_parent: bool)
        requires
            old(self).wf(),
            pane < old(self)@.work.panes.len(),
            0 <= lo <= hi,
        ensures
            final(self)@ == old(self)@.with_tab(
                pane as int,
                old(self)@.work.tab(pane as int).covering(lo as int, hi as int, show_parent),
            ),
            final(self).wf(),
    {
        self.work.tab_mut(pane).select_rows(lo, hi, show_parent);
    }

    /// The drag over empty space is over.
    pub fn end_marquee(&mut self, pane: usize) -> (r: Deed)
        requires
            old(self).wf(),
            pane < old(self)@.work.panes.len(),
        ensures
            (final(self)@, r@) == old(self)@.marquee_ended(pane as int),
            final(self).wf(),
    {
        let t = self.work.tab(pane);
        if t.anchor.is_some() {
            return Deed::Redraw;
        }
        match t.last_selected() {
            Some(p) => {
                self.focus_entry(pane, p.as_str());
                Deed::Look { pane, path: p }
            },
            None => Deed::Redraw,
        }
    }

    /// A click in column `k` of the column view.
    pub fn column_click(
        &mut self,
        pane: usize,
        k: usize,
        target: &str,
        is_dir: bool,
        clicks: usize,
    ) -> (r: Deed)
        requires
            old(self).wf(),
            pane < old(self)@.work.panes.len(),
        ensures
            (final(self)@, r@) == old(self)@.column_clicked(
                pane as int,
                k as int,
                target@,
                is_dir,
                clicks as int,
            ),
            final(self).wf(),
    {
        self.work.focus(pane);
        self.term.focused = false;
        if is_dir && clicks >= 2 {
            return Deed::Visit { pane, path: owned(target) };
        }
        self.work.tab_mut(pane).click_column(k, target, is_dir);
        if is_dir {
            Deed::Redraw
        } else if clicks >= 2 {
            Deed::OpenFile(owned(target))
        } else {
            self.focus_entry(pane, target);
            Deed::Look { pane, path: owned(target) }
        }
    }

    /// An arrow key; `cols` is the number of icons on a line, and `list` the rows
    /// of the column that the key needs. Returns the item that was selected, and
    /// where to scroll to.
    pub fn arrow_move(
        &mut self,
        pane: usize,
        dx: i8,
        dy: i8,
        cols: u32,
        list: &Vec<Entry>,
        show_parent: bool,
    ) -> (r: (Option<String>, Option<usize>))
        requires
            old(self).wf(),
            pane < old(self)@.work.panes.len(),
            cols > 0,
        ensures
            final(self)@ == old(self)@.arrow_moved(
                pane as int,
                dx as int,
                dy as int,
                cols as int,
                rows(list@),
            ),
            r.0 is Some == old(self)@.work.tab(pane as int).arrow_moves(
                dx as int,
                dy as int,
                rows(list@),
            ),
            r.0 matches Some(p) ==> final(self)@.work.tab(pane as int).anchor == Some(p@),
            r.1 is Some == (r.0 is Some && old(self)@.work.tab(pane as int).view
                != ViewMode::Columns),
            r.1 matches Some(item) ==> {
                let t = old(self)@.work.tab(pane as int);
                let delta = t.arrow_delta(dx as int, dy as int, cols as int);
                item == t.scroll_item(t.arrow_row(delta)->0, cols as int, show_parent)
            },
            final(self).wf(),
    {
        self.work.focus(pane);
        let view = self.work.tab(pane).view;
        if view == ViewMode::Columns {
            let chosen = self.work.tab_mut(pane).arrow_columns(dx, dy, list);
            if chosen.is_some() {
                self.page = 0;
            }
            return (chosen, None);
        }
        let n: usize = self.work.tab(pane).shown_len();
        if n == 0 || (view != ViewMode::Icons && dy == 0) {
            return (None, None);
        }
        proof {
            let (x, y, c) = (dx as int, dy as int, cols as int);
            assert(-128 * c <= y * c <= 127 * c) by (nonlinear_arith)
                requires
                    -128 <= y <= 127,
                    c >= 0,
            ;
        }
        let delta: i64 = if view == ViewMode::Icons {
            dx as i64 + (dy as i64) * (cols as i64)
        } else {
            dy as i64
        };
        let ghost before = self@.work.tab(pane as int);
        let t = self.work.tab_mut(pane);
        match t.arrow_grid(delta) {
            Some(k) => {
                proof {
                    assert(t@.shown() == before.shown());
                }
                let item: usize = t.scroll_item(k, cols as usize, show_parent);
                let path: Option<String> = clone_opt(&t.anchor);
                self.page = 0;
                (path, Some(item))
            },
            None => (None, None),
        }
    }

    /// Opens the context menu.
    pub fn open_context_menu(&mut self, pane: usize, target: Option<(String, bool)>)
        requires
            old(self).wf(),
        ensures
            final(self)@ == old(self)@.menu_opened(pane as int, target_view(target)),
            final(self).wf(),
    {
        let last: usize = self.work.panes.len() - 1;
        let p: usize = if pane < last {
            pane
        } else {
            last
        };
        self.work.focus(p);
        self.rename = None;
        self.menu = Some(ContextMenu { pane: p, target, level: MenuView::Root });
    }

    /// Shows another level of the context menu.
    pub fn set_menu_view(&mut self, level: MenuView)
        requires
            old(self).wf(),
        ensures
            final(self)@ == old(self)@.menu_turned(level),
            final(self).wf(),
    {
        match &mut self.menu {
            Some(m) => {
                m.level = level;
            },
            None => {},
        }
    }

    /// Closes the context menu; returns whether it was open.
    pub fn close_context_menu(&mut self) -> (r: bool)
        requires
            old(self).wf(),
        ensures
            final(self)@ == (ShuffleView { menu: None, ..old(self)@ }),
            r == (old(self)@.menu is Some),
            final(self).wf(),
    {
        let open = self.menu.is_some();
        self.menu = None;
        open
    }

    /// Commits the rename in progress; `taken` says whether something is at its
    /// destination.
    pub fn commit_rename(&mut self, taken: bool) -> (r: Deed)
        requires
            old(self).wf(),
        ensures
            (final(self)@, r@) == old(self)@.rename_committed(taken),
            final(self).wf(),
    {
        let fault = match &self.rename {
            Some(r) => r.rename_error(taken),
            None => None,
        };
        if fault.is_some() {
            return Deed::Redraw;
        }
        let mut asked: Option<Rename> = None;
        core::mem::swap(&mut asked, &mut self.rename);
        match asked {
            Some(r) => {
                let named = !r.name().as_str().is_empty();
                let free = r.keeps_name() || !taken;
                match r.dest() {
                    Some(to) => {
                        if named && free && !same_path(to.as_str(), r.path.as_str()) {
                            Deed::Rename { pane: r.pane, from: r.path, to }
                        } else {
                            Deed::Redraw
                        }
                    },
                    None => Deed::Redraw,
                }
            },
            None => Deed::Redraw,
        }
    }

    /// Takes over that an item was renamed on disk.
    pub fn renamed(&mut self, pane: usize, from: &str, to: &str)
        requires
            old(self).wf(),
            pane < old(self)@.work.panes.len(),
        ensures
            final(self)@ == old(self)@.with_tab(
                pane as int,
                old(self)@.work.tab(pane as int).renamed(from@, to@),
            ),
            final(self).wf(),
    {
        self.work.tab_mut(pane).rename_item(from, to);
    }

    /// Begins to index the folder shown, if that is missing; returns the folder
    /// to index.
    pub fn ensure_recursive_index(&mut self) -> (r: Option<String>)
        requires
            old(self).wf(),
        ensures
            final(self)@ == old(self)@.index_begun(),
            opt_text(r) == (if old(self)@.index_missing() {
                Some(old(self)@.tab().dir)
            } else {
                None
            }),
            final(self).wf(),
    {
        let dir = self.work.active_tab().dir.clone();
        let known = match &self.indexed {
            Some(r) => same_path(r.as_str(), dir.as_str()),
            None => false,
        };
        let coming = match &self.indexing {
            Some(r) => same_path(r.as_str(), dir.as_str()),
            None => false,
        };
        if known || coming {
            return None;
        }
        self.indexing = Some(dir.clone());
        Some(dir)
    }

    /// Searches another scope; returns the folder to index, if one has to be.
    pub fn set_search_scope(&mut self, scope: SearchScope) -> (r: Option<String>)
        requires
            old(self).wf(),
        ensures
            final(self)@ == old(self)@.scoped(scope),
            opt_text(r) == (if scope == SearchScope::Recursive && old(self)@.index_missing() {
                Some(old(self)@.tab().dir)
            } else {
                None
            }),
            final(self).wf(),
    {
        self.palette.mode = PaletteMode::Search(scope);
        if scope == SearchScope::Recursive {
            self.ensure_recursive_index()
        } else {
            None
        }
    }

    /// Takes over that a folder was indexed; returns whether the index is the one
    /// waited for, and whether the palette shows what it changes.
    pub fn index_built(&mut self, root: &str) -> (r: (bool, bool))
        requires
            old(self).wf(),
        ensures
            final(self)@ == old(self)@.index_ready(root@),
            r.0 == old(self)@.index_awaited(root@),
            r.1 == old(self)@.index_shown(root@),
            final(self).wf(),
    {
        let awaited = match &self.indexing {
            Some(r) => same_path(r.as_str(), root),
            None => false,
        };
        if !awaited {
            return (false, false);
        }
        self.indexing = None;
        self.indexed = Some(owned(root));
        let recursive = match self.palette.mode {
            PaletteMode::Search(SearchScope::Recursive) => true,
            _ => false,
        };
        let here = same_path(self.work.active_tab().dir.as_str(), root);
        (true, self.palette.open && recursive && here)
    }
}

// ----- laws ----------------------------------------------------------------------------

/// While the dialog for a server is open, a key changes nothing but that dialog
/// and the list of servers.
pub proof fn law_server_dialog_holds_keys(
    s: ShuffleView,
    ks: KeystrokeView,
    binds: Seq<Option<Seq<char>>>,
    prefs: Prefs,
    home: Seq<char>,
)
    requires
        s.server_dialog is Some,
    ensures
        ({
            let t = s.keyed(ks, binds, prefs, home).0;
            t == ShuffleView { server_dialog: t.server_dialog, side: t.side, ..s } && t.side
                == SidebarView { servers: t.side.servers, ..s.side }
        }),
{
}

/// While the dialog for a group is open, a key changes nothing but that dialog
/// and the groups.
pub proof fn law_group_dialog_holds_keys(
    s: ShuffleView,
    ks: KeystrokeView,
    binds: Seq<Option<Seq<char>>>,
    prefs: Prefs,
    home: Seq<char>,
)
    requires
        s.server_dialog is None,
        s.group_dialog is Some,
    ensures
        ({
            let t = s.keyed(ks, binds, prefs, home).0;
            t == ShuffleView { group_dialog: t.group_dialog, side: t.side, ..s } && t.side
                == SidebarView { groups: t.side.groups, ..s.side }
        }),
{
}

/// While a name is edited, a key changes nothing but that edit, and puts nothing
/// but its text on the clipboard.
pub proof fn law_rename_holds_keys(
    s: ShuffleView,
    ks: KeystrokeView,
    binds: Seq<Option<Seq<char>>>,
    prefs: Prefs,
    home: Seq<char>,
)
    requires
        s.server_dialog is None,
        s.group_dialog is None,
        s.confirm is None,
        s.rename is Some,
    ensures
        ({
            let (t, r) = s.keyed(ks, binds, prefs, home);
            &&& t == ShuffleView { rename: t.rename, ..s }
            &&& t.rename matches Some(e) ==> e.path == s.rename->0.path && e.pane
                == s.rename->0.pane
            &&& r.0 is Idle || r.0 is Redraw || r.0 is CommitRename || r.0 is Clipboard
        }),
{
}

/// A key in the rename field ends the rename or keeps its path, and keeps the
/// cursor and the selection inside the text. Escape ends it with nothing renamed;
/// arrows, selecting all and copying leave the text as it is.
pub proof fn law_rename_keys(s: ShuffleView, r: RenameView, ks: KeystrokeView)
    requires
        r.field.wf(),
    ensures
        s.rename_key(r, ks).0 == (ShuffleView { rename: s.rename_key(r, ks).0.rename, ..s }),
        s.rename == Some(r) ==> (s.rename_key(r, ks).0.rename matches Some(t) ==> t.path == r.path
            && t.pane == r.pane && t.field.wf()),
        key_named(ks.key) == Key::Escape ==> s.rename_key(r, ks).0.rename is None && s.rename_key(
            r,
            ks,
        ).1 == DeedView::Redraw,
        key_named(ks.key) == Key::Left || key_named(ks.key) == Key::Right || (ks.platform && (
        key_named(ks.key) == Key::A || key_named(ks.key) == Key::C)) ==> (s.rename_key(
            r,
            ks,
        ).0.rename matches Some(t) && t.field.text == r.field.text),
        !(s.rename_key(r, ks).1 is Rename),
        s.rename_key(r, ks).1 is CommitRename <==> key_named(ks.key) == Key::Enter,
{
    law_keys_keep_cursor_inside(r.field, ks, true);
}

/// A key moves something to the trash only after it was asked whether to: the
/// question is open, the key is enter, and what it named is what is moved.
pub proof fn law_trash_is_confirmed(
    s: ShuffleView,
    ks: KeystrokeView,
    binds: Seq<Option<Seq<char>>>,
    prefs: Prefs,
    home: Seq<char>,
)
    ensures
        s.keyed(ks, binds, prefs, home).1.0 matches DeedView::Trash { pane, paths } ==> s.confirm
            == Some((pane, paths)) && key_named(ks.key) == Key::Enter,
{
}

/// Whether a path lies directly in the folder that a pane shows.
pub open spec fn lies_in_pane(s: ShuffleView, pane: int, path: Seq<char>) -> bool {
    pane < s.work.panes.len() && (parent_of(path) matches Some(d) && same_place(
        d,
        s.work.tab(pane).dir,
    ))
}

/// A key begins the rename of what the mouse was over only while that lies in the
/// folder that its pane shows: after the pane went elsewhere, it does not.
pub proof fn law_stale_hover_is_not_renamed(
    s: ShuffleView,
    ks: KeystrokeView,
    binds: Seq<Option<Seq<char>>>,
    prefs: Prefs,
    home: Seq<char>,
)
    ensures
        s.keyed(ks, binds, prefs, home).1.0 matches DeedView::RenameHovered { pane, path }
            ==> lies_in_pane(s, pane, path),
{
}

/// While the palette has the keys, none of them changes the panes, the sidebar or
/// the command bar.
pub proof fn law_palette_holds_keys(
    s: ShuffleView,
    ks: KeystrokeView,
    binds: Seq<Option<Seq<char>>>,
    prefs: Prefs,
)
    requires
        s.palette.open,
    ensures
        s.bound_key(ks, binds, prefs).0.work == s.work,
        s.bound_key(ks, binds, prefs).0.side == s.side,
        s.bound_key(ks, binds, prefs).0.term == s.term,
{
}

/// Going to a folder and back shows the folder that was left, and the way forward
/// leads to the folder again.
pub proof fn law_back_returns(s: ShuffleView, pane: int, dir: Seq<char>)
    requires
        s.wf(),
        0 <= pane < s.work.panes.len(),
    ensures
        s.went(pane, dir).work.tab(pane).dir == dir,
        s.went(pane, dir).backed(pane).work.tab(pane).dir == s.work.tab(pane).dir,
        s.went(pane, dir).backed(pane).work.tab(pane).history == s.work.tab(pane).history.take(
            s.work.tab(pane).hist_pos + 1,
        ).push(dir),
{
    let t = s.work.tab(pane);
    assert(s.work.panes[pane].wf());
    assert(t.wf());
    let u = t.visited(dir);
    assert(u.history[u.hist_pos] == dir);
    assert(u.history[u.hist_pos - 1] == t.history[t.hist_pos]);
    let w = s.grabbed(pane).work;
    assert(w.panes[pane] == s.work.panes[pane]);
    assert(w.with_tab(pane, u).tab(pane) == u);
    let w2 = s.went(pane, dir).work;
    assert(w2.panes[pane].active == s.work.panes[pane].active);
    assert(w2.focusing(pane).with_tab(pane, u.went_back()).tab(pane) == u.went_back());
}

/// A listing that was read for an earlier load changes nothing.
pub proof fn law_late_listing_is_dropped(
    s: ShuffleView,
    pane: int,
    stamp: Option<Stamp>,
    quick: Seq<EntryView>,
    gen: u64,
    dir: Seq<char>,
    full: Seq<EntryView>,
)
    requires
        s.wf(),
        0 <= pane < s.work.panes.len(),
        gen != next_load(s.loads),
    ensures
        s.loading(pane, stamp, quick).loaded(pane, gen, dir, full) == s.loading(pane, stamp, quick),
{
    lemma_loading(s, pane, stamp, quick);
}

/// The listing of the latest load is taken over as long as the pane shows the
/// same folder.
pub proof fn law_latest_listing_is_taken(
    s: ShuffleView,
    pane: int,
    stamp: Option<Stamp>,
    quick: Seq<EntryView>,
)
    requires
        s.wf(),
        0 <= pane < s.work.panes.len(),
    ensures
        s.loading(pane, stamp, quick).load_current(
            pane,
            next_load(s.loads),
            s.work.tab(pane).dir,
        ),
{
    lemma_loading(s, pane, stamp, quick);
}

/// A folder that did not change since it was read is not read again.
pub proof fn law_watch_settles(
    s: ShuffleView,
    pane: int,
    stamp: Option<Stamp>,
    quick: Seq<EntryView>,
)
    requires
        s.wf(),
        0 <= pane < s.work.panes.len(),
    ensures
        !s.loading(pane, stamp, quick).watched(pane, s.work.tab(pane).dir, stamp).1,
{
    lemma_loading(s, pane, stamp, quick);
}

proof fn lemma_loading(s: ShuffleView, pane: int, stamp: Option<Stamp>, quick: Seq<EntryView>)
    requires
        s.wf(),
        0 <= pane < s.work.panes.len(),
    ensures
        ({
            let l = s.loading(pane, stamp, quick);
            &&& l.work.panes.len() == s.work.panes.len()
            &&& l.work.tab(pane).load_gen == next_load(s.loads)
            &&& l.work.tab(pane).dir == s.work.tab(pane).dir
            &&& l.work.tab(pane).dir_mtime == stamp
        }),
{
    assert(s.work.panes[pane].wf());
    let t = TabView { dir_mtime: stamp, load_gen: next_load(s.loads), ..s.work.tab(pane) };
    assert(s.work.with_tab(pane, t.listing(quick)).tab(pane) == t.listing(quick));
}

impl Shuffle {
    /// Whether a pane has the focus on a path, so that what the inspector shows of
    /// it has to be looked up anew once it was edited; and whether it is shown in
    /// the gallery.
    pub fn refresh_after_edit(&self, pane: usize, path: &str) -> (r: (bool, bool))
        requires
            self.wf(),
            pane < self@.work.panes.len(),
        ensures
            r.0 == (self@.work.tab(pane as int).anchor matches Some(a) && same_place(a, path@)),
            r.1 == (self@.work.tab(pane as int).view == ViewMode::Gallery),
    {
        let t = self.work.tab(pane);
        let focused = match &t.anchor {
            Some(a) => same_path(a.as_str(), path),
            None => false,
        };
        (focused, t.view == ViewMode::Gallery)
    }

    /// The mouse came over a row or left it.
    pub fn hover_row(&mut self, pane: usize, path: &str, on: bool)
        requires
            old(self).wf(),
        ensures
            final(self)@ == old(self)@.hovering(pane as int, path@, on),
            final(self).wf(),
    {
        if on {
            self.hovered = Some((pane, owned(path)));
            return;
        }
        let left = match &self.hovered {
            Some(h) => h.0 == pane && same_path(h.1.as_str(), path),
            None => false,
        };
        if left {
            self.hovered = None;
        }
    }
}

impl ShuffleView {
    /// With the mouse over a row, or away from it.
    pub open spec fn hovering(self, pane: int, path: Seq<char>, on: bool) -> ShuffleView {
        if on {
            ShuffleView { hovered: Some((pane, path)), ..self }
        } else if self.hovered matches Some(h) && h.0 == pane && same_place(h.1, path) {
            ShuffleView { hovered: None, ..self }
        } else {
            self
        }
    }
}

} // verus!
