//! What tabs, panes and the selection do: what stays in front, where a tab goes,
//! and which items are selected.

use crate::listing::{EntryView, SortKey, law_sorting_keeps_rows};
use crate::order_laws::law_filter_keeps_what_matches;
use crate::paths::{joined_path, parent_of, same_place};
use crate::places::{holds_place, law_toggle_flips, no_repeats, place_from, place_in};
use crate::score::find_tier;
use crate::tabs::{TabView, gathered, lemma_gathered};
use crate::text::trimmed;
use crate::workspace::{PaneView, SplitChange, WorkView};
use vstd::prelude::*;

verus! {

// ----- tabs and panes ------------------------------------------------------------------

/// The tab in front of a pane.
pub open spec fn front(p: PaneView) -> TabView {
    p.tabs[p.active]
}

/// Closing a tab takes out that tab alone. The tab in front stays in front; if it is
/// the one that goes, its right neighbour comes to the front, or else the last tab.
/// The other pane stays as it is, and so does the pane with the keyboard.
pub proof fn law_front_tab_stays(w: WorkView, p: int, t: int)
    requires
        w.wf(),
        0 <= p < w.panes.len(),
        0 <= t < w.panes[p].tabs.len(),
        w.panes[p].tabs.len() > 1,
    ensures
        ({
            let c = w.closed(p, t).0;
            &&& c.panes.len() == w.panes.len()
            &&& c.active == w.active
            &&& c.panes[p].tabs == w.panes[p].tabs.remove(t)
            &&& t != w.panes[p].active ==> front(c.panes[p]) == front(w.panes[p])
            &&& t == w.panes[p].active && t + 1 < w.panes[p].tabs.len() ==> front(c.panes[p])
                == w.panes[p].tabs[t + 1]
            &&& t == w.panes[p].active && t + 1 == w.panes[p].tabs.len() ==> front(c.panes[p])
                == w.panes[p].tabs[t - 1]
            &&& forall|o: int|
                0 <= o < w.panes.len() && o != p ==> #[trigger] c.panes[o] == w.panes[o]
            &&& w.closed(p, t).1 == SplitChange::Same
        }),
{
}

/// Closing the last tab of one of two panes closes the pane: the other one is left as
/// it was, with the keyboard.
pub proof fn law_empty_pane_closes(w: WorkView, p: int)
    requires
        w.wf(),
        w.panes.len() == 2,
        0 <= p < 2,
        w.panes[p].tabs.len() == 1,
    ensures
        w.closed(p, 0).0.panes == seq![w.panes[1 - p]],
        w.closed(p, 0).0.active == 0,
        w.closed(p, 0).1 == (SplitChange::Collapsed { left: p == 0 }),
{
    assert(w.closed(p, 0).0.panes =~= seq![w.panes[1 - p]]);
}

/// A new tab stands behind all others of its pane, in front and with the keyboard;
/// nothing else changes.
pub proof fn law_new_tab_is_in_front(w: WorkView, p: int, t: TabView)
    requires
        w.wf(),
        0 <= p < w.panes.len(),
    ensures
        front(w.opened(p, t).panes[p]) == t,
        w.opened(p, t).panes[p].tabs.drop_last() == w.panes[p].tabs,
        w.opened(p, t).active == p,
        forall|o: int|
            0 <= o < w.panes.len() && o != p ==> #[trigger] w.opened(p, t).panes[o] == w.panes[o],
{
    assert(w.opened(p, t).panes[p].tabs.drop_last() =~= w.panes[p].tabs);
}

/// Choosing a tab brings it to the front and its pane to the keyboard, and moves no
/// tab.
pub proof fn law_chosen_tab_is_in_front(w: WorkView, p: int, t: int)
    requires
        w.wf(),
        0 <= p < w.panes.len(),
        0 <= t < w.panes[p].tabs.len(),
    ensures
        front(w.fronting(p, t).panes[p]) == w.panes[p].tabs[t],
        w.fronting(p, t).active == p,
        w.fronting(p, t).panes[p].tabs == w.panes[p].tabs,
        forall|o: int|
            0 <= o < w.panes.len() && o != p ==> #[trigger] w.fronting(p, t).panes[o]
                == w.panes[o],
{
}

/// A tab that is dragged within its pane ends up in front, directly before the tab
/// that it was dropped on, or last where it was dropped behind all; the others keep
/// their order.
pub proof fn law_dragged_tab_lands_where_dropped(w: WorkView, p: int, t: int, at: int)
    requires
        w.wf(),
        0 <= p < w.panes.len(),
        0 <= t < w.panes[p].tabs.len(),
        0 <= at,
    ensures
        ({
            let (a, c) = (w.panes[p], w.dropped(p, t, p, at).0);
            let b = c.panes[p];
            &&& c.active == p
            &&& c.panes.len() == w.panes.len()
            &&& front(b) == a.tabs[t]
            &&& b.tabs.remove(b.active) == a.tabs.remove(t)
            &&& at < a.tabs.len() && at != t ==> b.active + 1 < b.tabs.len() && b.tabs[b.active + 1]
                == a.tabs[at]
            &&& at >= a.tabs.len() ==> b.active == b.tabs.len() - 1
            &&& at == t ==> b.tabs == a.tabs
        }),
{
    let (a, c) = (w.panes[p], w.dropped(p, t, p, at).0);
    let b = c.panes[p];
    assert(b.tabs.remove(b.active) =~= a.tabs.remove(t));
    if at == t {
        assert(b.tabs =~= a.tabs);
    }
}

/// A tab that is dragged into the other pane comes to its front, at the place where
/// it was dropped; the tabs of both panes keep their order otherwise. What was in
/// front of the pane that it left stays there, unless that was the tab itself.
pub proof fn law_tab_moves_to_other_pane(w: WorkView, p: int, t: int, at: int)
    requires
        w.wf(),
        w.panes.len() == 2,
        0 <= p < 2,
        0 <= t < w.panes[p].tabs.len(),
        0 <= at,
        w.panes[p].tabs.len() > 1,
    ensures
        ({
            let (a, o, c) = (w.panes[p], w.panes[1 - p], w.dropped(p, t, 1 - p, at).0);
            let (b, d) = (c.panes[p], c.panes[1 - p]);
            &&& c.active == 1 - p && c.panes.len() == 2
            &&& front(d) == a.tabs[t]
            &&& d.tabs.remove(d.active) == o.tabs
            &&& at <= o.tabs.len() ==> d.active == at
            &&& at > o.tabs.len() ==> d.active == o.tabs.len()
            &&& b.tabs == a.tabs.remove(t)
            &&& t != a.active ==> front(b) == front(a)
        }),
{
    let (a, o, c) = (w.panes[p], w.panes[1 - p], w.dropped(p, t, 1 - p, at).0);
    let d = c.panes[1 - p];
    assert(d.tabs.remove(d.active) =~= o.tabs);
}

/// A tab that is dragged to the side of a single pane opens a second pane on the
/// right, where it stands alone and with the keyboard; the last tab of a pane cannot.
pub proof fn law_dragged_tab_splits(w: WorkView, t: int, at: int)
    requires
        w.wf(),
        w.panes.len() == 1,
        0 <= t < w.panes[0].tabs.len(),
        0 <= at,
    ensures
        ({
            let (a, c) = (w.panes[0], w.dropped(0, t, 1, at));
            &&& a.tabs.len() == 1 ==> c == (w, SplitChange::Same)
            &&& a.tabs.len() > 1 ==> c.0.panes.len() == 2 && c.0.active == 1 && c.1
                == SplitChange::Opened && c.0.panes[1].tabs == seq![a.tabs[t]]
                && c.0.panes[0].tabs == a.tabs.remove(t) && (t != a.active ==> front(
                c.0.panes[0],
            ) == front(a))
        }),
{
}

/// When the last tab of a pane is dragged into the other pane, that pane alone is
/// left, with the tab in front and the others in their order.
pub proof fn law_last_tab_collapses(w: WorkView, p: int, at: int)
    requires
        w.wf(),
        w.panes.len() == 2,
        0 <= p < 2,
        w.panes[p].tabs.len() == 1,
        0 <= at,
    ensures
        ({
            let (a, o, c) = (w.panes[p], w.panes[1 - p], w.dropped(p, 0, 1 - p, at));
            &&& c.0.panes.len() == 1 && c.0.active == 0
            &&& c.1 == (SplitChange::Collapsed { left: p == 0 })
            &&& front(c.0.panes[0]) == a.tabs[0]
            &&& c.0.panes[0].tabs.remove(c.0.panes[0].active) == o.tabs
            &&& at <= o.tabs.len() ==> c.0.panes[0].active == at
        }),
{
    let (o, c) = (w.panes[1 - p], w.dropped(p, 0, 1 - p, at).0);
    assert(c.panes[0].tabs.remove(c.panes[0].active) =~= o.tabs);
}

// ----- going to folders ----------------------------------------------------------------

/// Whether a tab has nothing selected, focused, edited or opened in columns.
pub open spec fn is_at_rest(t: TabView) -> bool {
    &&& t.selection.len() == 0
    &&& t.anchor is None
    &&& t.editing is None
    &&& t.find is None
    &&& t.find_results.len() == 0
    &&& t.col_chain.len() == 0
    &&& t.col_active == 0
}

/// Whether two tabs show their folders in the same way.
pub open spec fn looks_alike(a: TabView, b: TabView) -> bool {
    &&& a.sort_key == b.sort_key
    &&& a.sort_asc == b.sort_asc
    &&& a.view == b.view
    &&& a.tag == b.tag
}

/// Going to a folder, back or forward leaves nothing selected or open of the folder
/// before, and keeps the view and the order. At the ends of the history nothing
/// changes.
pub proof fn law_going_somewhere_clears(t: TabView, dir: Seq<char>)
    requires
        t.wf(),
    ensures
        is_at_rest(t.visited(dir)) && looks_alike(t.visited(dir), t) && t.visited(dir).dir == dir,
        t.visited(dir).history.take(t.hist_pos + 1) == t.history.take(t.hist_pos + 1),
        t.hist_pos > 0 ==> is_at_rest(t.went_back()) && looks_alike(t.went_back(), t)
            && t.went_back().dir == t.history[t.hist_pos - 1] && t.went_back().history
            == t.history,
        t.hist_pos == 0 ==> t.went_back() == t,
        t.hist_pos + 1 < t.history.len() ==> is_at_rest(t.went_forward()) && looks_alike(
            t.went_forward(),
            t,
        ) && t.went_forward().dir == t.history[t.hist_pos + 1] && t.went_forward().history
            == t.history,
        t.hist_pos + 1 == t.history.len() ==> t.went_forward() == t,
{
    assert(t.visited(dir).history.take(t.hist_pos + 1) =~= t.history.take(t.hist_pos + 1));
}

/// Sorting by another column starts in rising order, and by the same one turns the
/// order round. The rows stay the same ones, and the find bar filters them anew.
pub proof fn law_sorting_a_tab(t: TabView, key: SortKey)
    ensures
        t.sorted_by(key).sort_key == key,
        key != t.sort_key ==> t.sorted_by(key).sort_asc,
        key == t.sort_key && key != SortKey::Standard ==> t.sorted_by(key).sort_asc
            == !t.sort_asc,
        t.sorted_by(key).entries.to_multiset() == t.entries.to_multiset(),
        t.find is None ==> t.sorted_by(key).find_results == t.find_results,
        t.sorted_by(key).selection == t.selection && t.sorted_by(key).anchor == t.anchor,
        t.sorted_by(key).dir == t.dir && t.sorted_by(key).find == t.find,
        t.find matches Some(f) ==> (trimmed(f.text).len() > 0 ==> forall|x: int|
            0 <= x < t.entries.len() ==> (#[trigger] t.sorted_by(key).find_results.contains(x)
                <==> find_tier(trimmed(f.text), t.sorted_by(key).entries[x].name) is Some)),
{
    let asc = t.sorted_by(key).sort_asc;
    law_sorting_keeps_rows(t.entries, key, asc);
    match t.find {
        Some(f) => {
            law_filter_keeps_what_matches(t.sorted_by(key).entries, f.text, key);
        },
        None => {},
    }
}

// ----- selecting -----------------------------------------------------------------------

/// Whether `q` is one of the rows from `a` to before `b` that a tab shows.
pub open spec fn among_rows(t: TabView, q: Seq<char>, a: int, b: int) -> bool {
    exists|i: int|
        a <= i < b && 0 <= i < t.shown().len() && same_place(#[trigger] t.shown_paths()[i], q)
}

/// A click selects the item alone and focuses it; with the command key it takes the
/// item in or out, leaves the others, and focuses it if it came in.
pub proof fn law_clicking_selects(t: TabView, path: Seq<char>, q: Seq<char>)
    requires
        no_repeats(t.selection),
    ensures
        holds_place(t.selecting(path).selection, q) <==> same_place(path, q),
        t.selecting(path).anchor == Some(path),
        holds_place(t.toggling(path).selection, path) <==> !holds_place(t.selection, path),
        !same_place(q, path) ==> (holds_place(t.toggling(path).selection, q) <==> holds_place(
            t.selection,
            q,
        )),
        !holds_place(t.selection, path) ==> t.toggling(path).anchor == Some(path),
        holds_place(t.selection, path) ==> t.toggling(path).anchor == t.anchor,
        t.selecting(path).entries == t.entries && t.toggling(path).entries == t.entries,
{
    law_toggle_flips(t.selection, path, q);
    if same_place(path, q) {
        assert(same_place(t.selecting(path).selection[0], q));
    }
}

/// A click with shift selects exactly the rows from the focused one to the clicked
/// one, and focuses that; without a focused row it selects the clicked one alone.
pub proof fn law_range_runs_to_the_click(t: TabView, path: Seq<char>, q: Seq<char>)
    ensures
        t.ranging(path).anchor == Some(path),
        match (t.anchor_row(), place_in(t.shown_paths(), path)) {
            (Some(a), Some(b)) => holds_place(t.ranging(path).selection, q) <==> among_rows(
                t,
                q,
                if a < b {
                    a
                } else {
                    b
                },
                if a < b {
                    b + 1
                } else {
                    a + 1
                },
            ),
            _ => holds_place(t.ranging(path).selection, q) <==> same_place(path, q),
        },
{
    let paths = t.shown_paths();
    match (t.anchor_row(), place_in(paths, path)) {
        (Some(a), Some(b)) => {
            lemma_place_is_first(paths, path, 0);
            match t.anchor {
                Some(p) => {
                    lemma_place_is_first(paths, p, 0);
                },
                None => {},
            }
            let (lo, hi) = if a < b {
                (a, b + 1)
            } else {
                (b, a + 1)
            };
            lemma_covered(t, q, lo, hi);
        },
        _ => {
            if same_place(path, q) {
                assert(same_place(t.ranging(path).selection[0], q));
            }
        },
    }
}

proof fn lemma_covered(t: TabView, q: Seq<char>, lo: int, hi: int)
    requires
        0 <= lo <= hi <= t.shown().len(),
    ensures
        holds_place(gathered(t.shown_paths().subrange(lo, hi)), q) <==> among_rows(t, q, lo, hi),
{
    let paths = t.shown_paths();
    let s = paths.subrange(lo, hi);
    lemma_gathered(s);
    if holds_place(s, q) {
        let k = choose|k: int| 0 <= k < s.len() && same_place(#[trigger] s[k], q);
        assert(same_place(paths[lo + k], q));
    }
    if among_rows(t, q, lo, hi) {
        let i = choose|i: int|
            lo <= i < hi && 0 <= i < t.shown().len() && same_place(#[trigger] paths[i], q);
        assert(same_place(s[i - lo], q));
    }
}

/// The place that is found is the first one.
pub proof fn lemma_place_is_first(s: Seq<Seq<char>>, p: Seq<char>, from: int)
    requires
        0 <= from <= s.len(),
    ensures
        place_from(s, p, from) matches Some(i) ==> from <= i < s.len() && same_place(s[i], p)
            && forall|k: int| from <= k < i ==> !same_place(#[trigger] s[k], p),
        place_from(s, p, from) is None ==> forall|k: int|
            from <= k < s.len() ==> !same_place(#[trigger] s[k], p),
    decreases s.len() - from,
{
    if from < s.len() && !same_place(s[from], p) {
        lemma_place_is_first(s, p, from + 1);
    }
}

/// Selecting everything selects exactly the rows that are shown.
pub proof fn law_everything_is_selected(t: TabView, q: Seq<char>)
    ensures
        holds_place(t.all_selected().selection, q) <==> among_rows(
            t,
            q,
            0,
            t.shown().len() as int,
        ),
        t.all_selected().anchor == t.anchor,
{
    lemma_covered(t, q, 0, t.shown().len() as int);
    assert(t.shown_paths().subrange(0, t.shown().len() as int) =~= t.shown_paths());
}

/// A box drawn from line `lo` to line `hi` selects exactly the rows on these lines;
/// the line of `..`, where it is shown, is none of them.
pub proof fn law_box_selects_its_lines(
    t: TabView,
    lo: int,
    hi: int,
    show_parent: bool,
    q: Seq<char>,
)
    requires
        lo <= hi,
    ensures
        ({
            let first: int = if t.find is None && show_parent && parent_of(t.dir) is Some {
                1
            } else {
                0
            };
            holds_place(t.covering(lo, hi, show_parent).selection, q) <==> among_rows(
                t,
                q,
                lo - first,
                hi - first + 1,
            )
        }),
        t.covering(lo, hi, show_parent).anchor == t.anchor,
{
    let first: int = if t.has_parent_row(show_parent) {
        1
    } else {
        0
    };
    let n = t.shown().len() as int;
    let a = if lo - first < 0 {
        0
    } else {
        lo - first
    };
    let b = if hi - first + 1 < n {
        hi - first + 1
    } else {
        n
    };
    if a < b {
        lemma_covered(t, q, a, b);
        if among_rows(t, q, lo - first, hi - first + 1) {
            let i = choose|i: int|
                lo - first <= i < hi - first + 1 && 0 <= i < n && same_place(
                    #[trigger] t.shown_paths()[i],
                    q,
                );
            assert(among_rows(t, q, a, b));
        }
    }
}

/// An arrow key moves the focus by as many rows as it says, but not beyond the first
/// or the last one, and selects the row there alone; without a focused row it goes
/// to the first one.
pub proof fn law_arrows_move_the_focus(t: TabView, delta: int, i: int)
    requires
        no_repeats(t.shown_paths()),
        t.shown().len() > 0,
        0 <= i < t.shown().len(),
        t.anchor == Some(t.shown_paths()[i]),
    ensures
        ({
            let n = t.shown().len();
            let j = t.arrowed(delta).anchor_row();
            &&& t.anchor_row() == Some(i)
            &&& 0 <= i + delta < n ==> j == Some(i + delta)
            &&& i + delta < 0 ==> j == Some(0int)
            &&& i + delta >= n ==> j == Some(n - 1)
            &&& j is Some && t.arrowed(delta).selection == seq![t.shown_paths()[j->0]]
            &&& t.arrowed(delta).anchor == Some(t.shown_paths()[j->0])
        }),
{
    let paths = t.shown_paths();
    lemma_place_is_first(paths, paths[i], 0);
    let k = place_in(paths, paths[i]);
    if k is Some && k->0 < i {
        assert(!same_place(paths[k->0], paths[i]));
    }
    let u = t.arrowed(delta);
    assert(u.shown_paths() =~= paths);
    let j = t.arrow_row(delta)->0;
    lemma_place_is_first(paths, paths[j], 0);
    let m = place_in(paths, paths[j]);
    if m is Some && m->0 < j {
        assert(!same_place(paths[m->0], paths[j]));
    }
}

/// Without a focused row an arrow key goes to the first row.
pub proof fn law_arrows_start_at_the_top(t: TabView, delta: int)
    requires
        t.shown().len() > 0,
        t.anchor_row() is None,
    ensures
        t.arrowed(delta).selection == seq![t.shown_paths()[0]],
        t.arrowed(delta).anchor == Some(t.shown_paths()[0]),
{
}

// ----- the column view -----------------------------------------------------------------

/// The arrow to the right goes one column on and to its first row, that to the left
/// one column back, and at the first and the last column they do nothing.
pub proof fn law_arrows_change_columns(t: TabView, rows: Seq<EntryView>)
    requires
        t.wf(),
        t.col_active <= t.col_chain.len(),
    ensures
        ({
            let (l, r) = (t.column_arrowed(-1, 0, rows), t.column_arrowed(1, 0, rows));
            &&& t.col_active > 0 ==> l == TabView { col_active: t.col_active - 1, ..t }
            &&& t.col_active == 0 ==> l == t
            &&& t.col_active == t.col_chain.len() ==> r == t
            &&& t.col_active < t.col_chain.len() ==> r.col_active == t.col_active + 1
            &&& t.col_active < t.col_chain.len() && rows.len() > 0 ==> r.selection == seq![
                joined_path(t.col_chain[t.col_active], rows[0].name),
            ] && r.anchor == Some(joined_path(t.col_chain[t.col_active], rows[0].name))
        }),
{
}

/// The arrow down or up goes to the next row of the column or the one before it;
/// a folder there opens as the next column, and further columns close.
pub proof fn law_arrows_within_a_column(t: TabView, dy: int, rows: Seq<EntryView>, i: int)
    requires
        t.wf(),
        t.col_active <= t.col_chain.len(),
        0 <= i < rows.len(),
        0 <= i + dy < rows.len(),
        no_repeats(t.column_paths(t.col_active, rows)),
        t.column_choice(t.col_active) == Some(t.column_paths(t.col_active, rows)[i]),
    ensures
        ({
            let u = t.column_arrowed(0, dy, rows);
            let (e, folder) = (
                rows[i + dy],
                if t.col_active == 0 {
                    t.dir
                } else {
                    t.col_chain[t.col_active - 1]
                },
            );
            &&& u.col_active == t.col_active
            &&& u.anchor == Some(joined_path(folder, e.name))
            &&& u.selection == seq![joined_path(folder, e.name)]
            &&& e.is_dir ==> u.col_chain == t.col_chain.take(t.col_active).push(
                joined_path(folder, e.name),
            )
            &&& !e.is_dir ==> u.col_chain == t.col_chain.take(t.col_active)
        }),
{
    let paths = t.column_paths(t.col_active, rows);
    lemma_place_is_first(paths, paths[i], 0);
    let k = place_in(paths, paths[i]);
    if k is Some && k->0 < i {
        assert(!same_place(paths[k->0], paths[i]));
    }
}

/// A click on a folder in a column opens it as the column behind that one; a click on
/// a file closes what was open there. Columns to the left stay.
pub proof fn law_click_opens_a_column(t: TabView, k: int, target: Seq<char>)
    requires
        0 <= k <= t.col_chain.len(),
    ensures
        t.column_clicked(k, target, true).columns() == t.columns().take(k + 1).push(target),
        t.column_clicked(k, target, false).columns() == t.columns().take(k + 1),
        t.column_clicked(k, target, true).selection == seq![target],
        t.column_clicked(k, target, false).selection == seq![target],
        t.column_clicked(k, target, true).anchor is None,
        t.column_clicked(k, target, false).anchor == t.anchor,
{
    assert(t.column_clicked(k, target, true).columns() =~= t.columns().take(k + 1).push(target));
    assert(t.column_clicked(k, target, false).columns() =~= t.columns().take(k + 1));
}

} // verus!
