//! What the rows, cells, headers and panels show.

use crate::kinds::label_for;
use crate::listing::{EntryView, SortKey, sort_label};
use crate::palette::{ActionView, PaletteMode, PaletteView};
use crate::panels::enter_text;
use crate::paths::{joined_path, label_of, parent_of, same_place};
use crate::places::holds_place;
use crate::rounding::size_text;
use crate::scenes::{chips, command_text, crumbs, header_cells, header_text, icon_lines};
use crate::shuffle::ShuffleView;
use crate::tabs::TabView;
use crate::terminal::TermView;
use crate::workspace::WorkView;
use vstd::prelude::*;

verus! {

// ----- rows ----------------------------------------------------------------------------

/// A row shows its own entry: its name, kind, size and date, and leads to its path. It is
/// marked where that path is selected, and takes drops where it is a folder. What has not
/// been read yet shows as dashes.
pub proof fn law_rows_show_their_entry(
    s: ShuffleView,
    dir: Seq<char>,
    t: TabView,
    e: EntryView,
    lit: bool,
    taken: bool,
)
    ensures
        ({
            let r = s.entry_row(dir, t, e, lit, taken);
            &&& r.name == e.name && r.path == joined_path(dir, e.name) && r.is_dir == e.is_dir
            &&& r.kind == label_for(e.name, e.is_dir)
            &&& e.loaded ==> r.size == size_text(e.is_dir, e.size as nat) && r.date == e.modified
            &&& !e.loaded ==> r.size == "--"@ && r.date is None
            &&& r.selected <==> exists|i: int|
                0 <= i < t.selection.len() && same_place(#[trigger] t.selection[i], r.path)
            &&& r.drops <==> e.is_dir
            &&& r.edit is Some <==> (s.rename matches Some(n) && same_place(n.path, r.path))
            &&& r.drags <==> r.edit is None
            &&& r.menu <==> (s.menu matches Some(m) && (m.target matches Some(x) && same_place(
                x.0,
                r.path,
            )))
            &&& r.invalid ==> r.edit is Some
            &&& !r.up
        }),
{
}

/// The listing shows the entries in their order. Where the row `..` leads it, that row
/// leads up and every entry stands one row lower.
pub proof fn law_listing_in_order(
    s: ShuffleView,
    pane: int,
    ix: int,
    show_parent: bool,
    over: Option<int>,
    taken: bool,
)
    requires
        0 <= ix < s.list_count(pane, show_parent),
    ensures
        ({
            let t = s.work.tab(pane);
            let r = s.list_row(pane, ix, show_parent, over, taken);
            let leads = t.find is None && show_parent && parent_of(t.dir) is Some;
            &&& leads && ix == 0 ==> r.up && r.name == ".."@ && Some(r.path) == parent_of(t.dir)
                && r.drops && !r.drags
            &&& leads && ix > 0 ==> r.name == t.entries[t.shown()[ix - 1]].name && !r.up
            &&& !leads ==> r.name == t.entries[t.shown()[ix]].name && !r.up
            &&& r.lit <==> over == Some(ix)
            &&& s.list_count(pane, show_parent) == t.shown().len() + if leads {
                1int
            } else {
                0
            }
        }),
{
}

/// The lines of the grid of icons hold the entries in reading order, with none left out
/// and none twice.
pub proof fn law_icons_in_reading_order(s: ShuffleView, pane: int, line: int, cols: int, k: int)
    requires
        0 < cols,
        0 <= line,
        0 <= k < cols,
        line * cols + k < s.work.tab(pane).shown().len(),
    ensures
        k < s.icon_line(pane, line, cols).len(),
        s.icon_line(pane, line, cols)[k].name == s.work.tab(pane).entries[s.work.tab(
            pane,
        ).shown()[line * cols + k]].name,
        line < icon_lines(s.work.tab(pane).shown().len() as int, cols),
        s.icon_line(pane, line, cols).len() <= cols,
{
    let n = s.work.tab(pane).shown().len() as int;
    let m = icon_lines(n, cols);
    assert(line * cols >= 0) by (nonlinear_arith)
        requires
            line >= 0,
            cols > 0,
    ;
    vstd::arithmetic::div_mod::lemma_fundamental_div_mod(n + cols - 1, cols);
    vstd::arithmetic::div_mod::lemma_mod_bound(n + cols - 1, cols);
    assert(line < m) by (nonlinear_arith)
        requires
            line * cols < n,
            n + cols - 1 < cols * m + cols,
            cols > 0,
    ;
}

/// An icon is marked where its path is selected; in columns, where its path is the
/// focused one or the folder that the next column shows.
pub proof fn law_cells_are_marked(s: ShuffleView, pane: int, k: int, rows: Seq<EntryView>, i: int)
    requires
        0 <= i < rows.len(),
        0 <= k < s.work.tab(pane).columns().len(),
    ensures
        ({
            let t = s.work.tab(pane);
            let c = s.column_cells(pane, k, rows)[i];
            &&& c.path == joined_path(t.columns()[k], rows[i].name) && c.name == rows[i].name
            &&& c.is_dir == rows[i].is_dir
            &&& k + 1 < t.columns().len() && t.columns()[k + 1] == c.path ==> c.selected
            &&& t.anchor == Some(c.path) ==> c.selected
            &&& t.anchor is None && k + 1 == t.columns().len() ==> !c.selected
        }),
        s.column_cells(pane, k, rows).len() == rows.len(),
{
    let c = s.column_cells(pane, k, rows)[i];
    assert(same_place(c.path, c.path));
}

/// The film strip shows the first four hundred entries, in order.
pub proof fn law_film_strip(s: ShuffleView, pane: int, i: int)
    ensures
        ({
            let t = s.work.tab(pane);
            let f = s.film(pane);
            &&& f.len() == if t.entries.len() <= 400 {
                t.entries.len()
            } else {
                400
            }
            &&& 0 <= i < f.len() ==> f[i].name == t.entries[i].name && f[i].path == joined_path(
                t.dir,
                t.entries[i].name,
            ) && f[i].selected == holds_place(t.selection, f[i].path)
        }),
{
}

// ----- headers, crumbs and tabs --------------------------------------------------------

/// Only the header of the column sorted by carries an arrow: up while ascending, down
/// while descending.
pub proof fn law_headers_carry_arrows(label: Seq<char>, own: SortKey, key: SortKey, asc: bool)
    ensures
        own == key && asc ==> header_text(label, own, key, asc) == label + " ▲"@,
        own == key && !asc ==> header_text(label, own, key, asc) == label + " ▼"@,
        own != key ==> header_text(label, own, key, asc) == label,
        header_cells(key, asc).len() == 4,
        header_cells(key, asc)[0] == (SortKey::Name, header_text(sort_label(SortKey::Name),
            SortKey::Name, key, asc)),
        header_cells(key, asc)[1] == (SortKey::Kind, header_text(sort_label(SortKey::Kind),
            SortKey::Kind, key, asc)),
        header_cells(key, asc)[2] == (SortKey::Modified, header_text(
            sort_label(SortKey::Modified),
            SortKey::Modified,
            key,
            asc,
        )),
        header_cells(key, asc)[3] == (SortKey::Size, header_text(sort_label(SortKey::Size),
            SortKey::Size, key, asc)),
{
}

/// Each crumb leads to its part of the path, below what the crumb before it leads to.
pub proof fn law_crumbs_lead_down(parts: Seq<Seq<char>>, p: Seq<char>)
    requires
        p != "."@ && p != ".."@,
    ensures
        crumbs(parts.push(p)).len() == crumbs(parts).len() + 1,
        crumbs(parts.push(p)).drop_last() == crumbs(parts),
        p != "/"@ ==> crumbs(parts.push(p)).last().0 == p,
        p == "/"@ ==> crumbs(parts.push(p)).last().0 == "Macintosh HD"@,
        crumbs(parts).len() > 0 ==> crumbs(parts.push(p)).last().1 == joined_path(
            crumbs(parts).last().1,
            p,
        ),
        crumbs(parts).len() == 0 ==> crumbs(parts.push(p)).last().1 == joined_path(
            Seq::empty(),
            p,
        ),
{
    assert(parts.push(p).drop_last() =~= parts);
    let (a, b) = (crumbs(parts), crumbs(parts.push(p)));
    assert(b.drop_last() =~= a);
}

/// Each tab is labelled with its folder, and only the front tab of the front pane is lit.
pub proof fn law_front_tab_is_lit(w: WorkView, pane: int, i: int)
    requires
        0 <= i < w.panes[pane].tabs.len(),
    ensures
        chips(w, pane).len() == w.panes[pane].tabs.len(),
        chips(w, pane)[i].0 == label_of(w.panes[pane].tabs[i].dir),
        chips(w, pane)[i].1 <==> pane == w.active && i == w.panes[pane].active,
{
}

/// The command line shows what is typed, with a caret while it has the focus, and an
/// invitation while it is empty and has not.
pub proof fn law_command_line_shows_input(t: TermView)
    ensures
        t.focused ==> command_text(t) == t.input + "│"@,
        !t.focused && t.input.len() > 0 ==> command_text(t) == t.input,
        !t.focused && t.input.len() == 0 ==> command_text(t)
            == "Type a command… (cd to navigate, Tab to autocomplete)"@,
{
}

// ----- the palette ---------------------------------------------------------------------

/// The palette shows its results in order and marks the selected one; up to seven of them
/// at once. The scope searched is marked, and no other.
pub proof fn law_palette_is_drawn(p: PaletteView, i: int, j: int)
    ensures
        ({
            let d = p.drawn();
            &&& d.results.len() == p.items.len()
            &&& 0 <= i < p.items.len() ==> d.results[i].title == p.items[i].title
                && d.results[i].subtitle == p.items[i].subtitle && (d.results[i].selected <==> i
                == p.selected)
            &&& 0 <= i < p.items.len() && !(p.items[i].action is OpenSettings) && p.items[i].is_dir
                ==> d.results[i].icon is Folder
            &&& 0 <= i < p.items.len() && p.items[i].action is OpenSettings ==> d.results[i].icon
                is Gear
            &&& d.visible == if p.items.len() <= 7 {
                p.items.len() as int
            } else {
                7
            }
            &&& d.query is None <==> p.query.text.len() == 0
            &&& 0 <= j < d.scopes.len() ==> (d.scopes[j].2 <==> p.mode == PaletteMode::Search(
                d.scopes[j].0,
            ))
            &&& p.mode is Search ==> d.scopes.len() == 3
            &&& p.mode is Commands ==> d.scopes.len() == 0
        }),
{
}

/// The further actions are shown while they are open, and one of them is selected.
pub proof fn law_actions_are_drawn(p: PaletteView, sel: int, i: int)
    requires
        p.actions == Some(sel),
        0 <= sel,
        0 <= i < p.action_list().len(),
    ensures
        p.shown_actions().len() == p.action_list().len(),
        p.shown_actions()[i].0 == p.action_list()[i].1,
        sel < p.action_list().len() ==> (p.shown_actions()[i].1 <==> i == sel),
        sel >= p.action_list().len() ==> (p.shown_actions()[i].1 <==> i == p.action_list().len()
            - 1),
{
}

/// The enter key is explained by what it would do, and the further actions are mentioned
/// only where there are any.
pub proof fn law_keys_are_explained(p: PaletteView)
    ensures
        p.key_hints()[0] == ("↩"@, enter_text(p.chosen())),
        p.key_hints().contains(("⌘K"@, "Actions"@)) <==> p.action_list().len() > 0,
        p.chosen() matches Some(i) ==> (i.action matches ActionView::Open(_, dir) ==> enter_text(
            p.chosen(),
        ) == if dir {
            "Open folder"@
        } else {
            "Open file"@
        }),
{
    let k = p.key_hints();
    reveal_strlit("⌘K");
    reveal_strlit("↩");
    reveal_strlit("↑↓");
    reveal_strlit("esc");
    assert("⌘K"@.len() == 2 && "⌘K"@[0] == '⌘');
    assert("↩"@.len() == 1);
    assert("↑↓"@.len() == 2 && "↑↓"@[0] == '↑');
    assert("esc"@.len() == 3);
    assert(k[0].0 == "↩"@);
    if p.action_list().len() > 0 {
        assert(k[1] == ("⌘K"@, "Actions"@));
    } else {
        assert(k.len() == 3);
        assert(k[1].0 == "↑↓"@);
        assert(k[2].0 == "esc"@);
    }
}

} // verus!
