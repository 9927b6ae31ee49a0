//! What clicks, keys and edits in a window lead to.

use crate::browse::first_file;
use crate::field::FieldView;
use crate::find::filtered_rows;
use crate::keymap::{KeyAction, KeystrokeView, bound_action, is_palette_action};
use crate::listing::{EntryView, Stamp};
use crate::menus::MenuView;
use crate::palette::{ActionView, PaletteAction, PaletteMode, SearchScope};
use crate::palette_keys::PaletteStepView;
use crate::palette_laws::lemma_key_names;
use crate::pane_laws::{among_rows, law_everything_is_selected, law_front_tab_stays};
use crate::paths::{
    common_start, components_of, expanded, file_name_of, joined_path, label_of,
    law_join_then_parent, parent_of, resolved_dir, same_place,
};
use crate::places::{holds_place, law_sorted_paths_keep, lemma_without_place, without_place};
use crate::prefs::Prefs;
use crate::shuffle::{
    ContextView, DeedView, NameFault, Rename, RenameView, ShuffleView, law_accepted_names_are_plain,
    palette_run_deed,
};
use crate::tabs::{TabView, ViewMode};
use crate::terminal::{
    SCROLLBACK, StepView, TermView, candidates, echo_line, just_names, names_beginning, token_split,
};
use crate::text::{after_last, ascii_lowered, lemma_after_last, lowercase, trimmed, utf8_size};
use vstd::prelude::*;

verus! {

// ----- renaming and the trash ----------------------------------------------------------

/// A name is refused exactly where it holds a slash or a colon, stands for a folder
/// itself, takes more than 255 bytes, or belongs to something else that is there. A
/// blank name is not refused: it renames nothing.
pub proof fn law_names_are_refused(r: RenameView, taken: bool)
    ensures
        ({
            let n = trimmed(r.field.text);
            let other = !(file_name_of(r.path) matches Some(o) && ascii_lowered(o)
                == ascii_lowered(n));
            &&& r.fault(taken) is None <==> n.len() == 0 || !(n.contains('/') || n.contains(':')
                || n == seq!['.'] || n == seq!['.', '.'] || utf8_size(n) > 255 || (taken && other
                && parent_of(r.path) is Some))
            &&& r.fault(taken) == Some(NameFault::Slash) <==> n.contains('/')
            &&& r.fault(taken) == Some(NameFault::Taken) ==> taken && other
            &&& n.len() == 0 ==> !(r.committed(taken) is Rename)
        }),
{
    reveal_strlit(".");
    reveal_strlit("..");
    assert("."@ =~= seq!['.']);
    assert(".."@ =~= seq!['.', '.']);
}

/// A rename that is carried out goes from the path to the trimmed name in the same
/// folder, and only if that is another place.
pub proof fn law_rename_stays_in_its_folder(r: RenameView, taken: bool)
    requires
        r.fault(taken) is None,
    ensures
        r.committed(taken) matches DeedView::Rename { pane, from, to } ==> {
            &&& pane == r.pane
            &&& from == r.path
            &&& file_name_of(to) == Some(trimmed(r.field.text))
            &&& parent_of(to) matches Some(d) && parent_of(r.path) matches Some(e) && same_place(
                d,
                e,
            )
            &&& !same_place(to, r.path)
            &&& !taken || ascii_lowered(file_name_of(r.path)->0) == ascii_lowered(
                trimmed(r.field.text),
            )
        },
        !taken && parent_of(r.path) is Some && trimmed(r.field.text).len() > 0 && !same_place(
            joined_path(parent_of(r.path)->0, trimmed(r.field.text)),
            r.path,
        ) ==> r.committed(taken) is Rename,
{
    if r.name().len() > 0 {
        law_accepted_names_are_plain(r, taken);
        match parent_of(r.path) {
            Some(e) => {
                law_join_then_parent(e, r.name());
            },
            None => {},
        }
    }
}

/// A rename begins with the whole name in the field, selected, so that typing replaces
/// it; the pane gets the keyboard.
pub proof fn law_rename_begins_selected(s: ShuffleView, pane: int, path: Seq<char>, n: Seq<char>)
    requires
        file_name_of(path) == Some(n),
    ensures
        s.renaming(pane, path).rename matches Some(r) && r.path == path && r.pane == pane
            && r.field.text == n && r.field.copied() == n && (n.len() > 0 ==> r.field.inserted(
            "x"@,
        ).text == "x"@),
        s.renaming(pane, path).work.active == pane,
        s.renaming(pane, path).work.panes == s.work.panes,
{
    let f = s.renaming(pane, path).rename->0.field;
    if n.len() > 0 {
        assert(n.subrange(0, n.len() as int) =~= n);
        assert(f.inserted("x"@).text =~= "x"@);
    }
}

/// A renamed item stays selected and focused under its new path; other items stay
/// selected as they were.
pub proof fn law_renamed_item_stays_selected(
    t: TabView,
    from: Seq<char>,
    to: Seq<char>,
    q: Seq<char>,
)
    ensures
        holds_place(t.selection, from) ==> holds_place(t.renamed(from, to).selection, to),
        holds_place(t.selection, from) && !same_place(from, to) ==> !holds_place(
            t.renamed(from, to).selection,
            from,
        ),
        !same_place(q, from) && !same_place(q, to) ==> (holds_place(
            t.renamed(from, to).selection,
            q,
        ) <==> holds_place(t.selection, q)),
        !holds_place(t.selection, from) ==> t.renamed(from, to).selection == t.selection,
        t.anchor == Some(from) ==> t.renamed(from, to).anchor == Some(to),
        (t.anchor matches Some(a) && !same_place(a, from)) ==> t.renamed(from, to).anchor
            == t.anchor,
{
    lemma_without_place(t.selection, from);
    let rest = without_place(t.selection, from);
    let r = rest.push(to);
    assert(same_place(r[r.len() - 1], to));
    if holds_place(r, q) {
        let i = choose|i: int| 0 <= i < r.len() && same_place(#[trigger] r[i], q);
        if i < rest.len() {
            assert(same_place(rest[i], q));
        }
    }
    if holds_place(rest, q) {
        let i = choose|i: int| 0 <= i < rest.len() && same_place(#[trigger] rest[i], q);
        assert(same_place(r[i], q));
    }
    if holds_place(r, from) {
        let i = choose|i: int| 0 <= i < r.len() && same_place(#[trigger] r[i], from);
        if i < rest.len() {
            assert(same_place(rest[i], from));
        }
    }
}

/// What goes to the trash is what is selected, every item of it, or else the focused
/// item; without either nothing is asked. Confirming moves just that and clears the
/// selection; escape keeps it.
pub proof fn law_trash_takes_the_selection(s: ShuffleView, pane: int)
    requires
        s.wf(),
        0 <= pane < s.work.panes.len(),
    ensures
        ({
            let t = s.work.tab(pane);
            let (a, d) = s.asked_delete(pane);
            &&& t.selection.len() > 0 ==> (a.confirm matches Some((p, paths)) && p == pane
                && paths.to_multiset() == t.selection.to_multiset())
            &&& t.selection.len() == 0 && t.anchor is Some ==> a.confirm == Some(
                (pane, seq![t.anchor->0]),
            )
            &&& t.selection.len() == 0 && t.anchor is None ==> a == s && d is Idle
            &&& a == ShuffleView { confirm: a.confirm, ..s }
            &&& a.confirm matches Some(c) ==> (c.0 == pane ==> a.confirmed().1
                == (DeedView::Trash { pane, paths: c.1 }) && a.confirmed().0.confirm is None
                && a.confirmed().0.work.tab(pane).selection.len() == 0
                && a.confirmed().0.work.tab(pane).anchor is None)
        }),
{
    let t = s.work.tab(pane);
    law_sorted_paths_keep(t.selection);
    assert(s.work.panes[pane].wf());
}

// ----- clicks --------------------------------------------------------------------------

/// A click on a folder goes to it, a double click on a file opens it, and a click on a
/// file selects it and looks it up; with command or shift neither is opened. Every click
/// gives the pane the keyboard and takes it from the command bar.
pub proof fn law_clicks(
    s: ShuffleView,
    pane: int,
    path: Seq<char>,
    is_dir: bool,
    command: bool,
    shift: bool,
    clicks: int,
)
    requires
        s.wf(),
        0 <= pane < s.work.panes.len(),
    ensures
        ({
            let (r, d) = s.clicked(pane, path, is_dir, command, shift, clicks);
            let t = r.work.tab(pane);
            &&& r.work.active == pane
            &&& !r.term.focused
            &&& r.work.panes.len() == s.work.panes.len()
            &&& !command && !shift && is_dir ==> d == (DeedView::Visit { pane, path }) && t
                == s.work.tab(pane)
            &&& !command && !shift && !is_dir && clicks >= 2 ==> d == DeedView::OpenFile(path)
            &&& !command && !shift && !is_dir && clicks < 2 ==> d == (DeedView::Look {
                pane,
                path,
            }) && t.selection == seq![path] && t.anchor == Some(path) && r.page == 0
            &&& command || shift ==> !(d is Visit) && !(d is OpenFile)
            &&& command ==> t.selection == s.work.tab(pane).toggling(path).selection
            &&& !command && shift ==> t.selection == s.work.tab(pane).ranging(path).selection
        }),
{
    assert(s.work.panes[pane].wf());
}

/// A menu opens at its root, on what was clicked, in the pane that was clicked; turning
/// it keeps what it was opened on.
pub proof fn law_menus_open_on_their_target(
    s: ShuffleView,
    pane: int,
    target: Option<(Seq<char>, bool)>,
    level: MenuView,
)
    requires
        0 <= pane < s.work.panes.len(),
    ensures
        s.menu_opened(pane, target).menu == Some(
            ContextView { pane, target, level: MenuView::Root },
        ),
        s.menu_opened(pane, target).work.active == pane,
        s.menu_opened(pane, target).menu_turned(level).menu == Some(
            ContextView { pane, target, level },
        ),
        s.menu is None ==> s.menu_turned(level) == s,
{
}

/// A drag takes the whole selection where it begins on a selected item, and else that
/// item alone.
pub proof fn law_drag_takes_the_selection(t: TabView, path: Seq<char>)
    ensures
        holds_place(t.selection, path) ==> t.dragged(path).to_multiset()
            == t.selection.to_multiset(),
        !holds_place(t.selection, path) ==> t.dragged(path) == seq![path],
{
    law_sorted_paths_keep(t.selection);
}

/// Something can be dropped on a row of the list where that is a folder or the row `..`,
/// and only on its name.
pub proof fn law_drops_need_a_folder(t: TabView, row: int, in_name: bool, show_parent: bool)
    requires
        t.wf(),
        0 <= row,
    ensures
        ({
            let first: int = if t.find is None && show_parent && parent_of(t.dir) is Some {
                1
            } else {
                0
            };
            let r = t.drop_row(row, in_name, show_parent);
            &&& r is Some ==> r == Some(row) && in_name && t.view == ViewMode::List
            &&& in_name && t.view == ViewMode::List && row < first ==> r is Some
            &&& in_name && t.view == ViewMode::List && first <= row < first + t.shown().len()
                ==> (r is Some <==> t.entries[t.shown()[row - first]].is_dir)
            &&& row >= first + t.shown().len() ==> r is None
        }),
{
}

// ----- going places --------------------------------------------------------------------

/// A pane goes to a path only if that is a folder and another one than it shows; the
/// folder then leads the recent ones, and other panes stay where they are.
pub proof fn law_going_to_a_folder(s: ShuffleView, pane: int, dir: Seq<char>, is_dir: bool)
    requires
        s.wf(),
        0 <= pane < s.work.panes.len(),
    ensures
        ({
            let r = s.navigated(pane, dir, is_dir);
            let goes = is_dir && components_of(dir) != components_of(s.work.tab(pane).dir);
            &&& !goes ==> r == s
            &&& goes ==> r.work.tab(pane).dir == dir && r.work.active == pane
                && r.side.recents[0] == dir && r.rename is None
            &&& forall|o: int|
                0 <= o < s.work.panes.len() && o != pane ==> #[trigger] r.work.panes[o]
                    == s.work.panes[o]
        }),
{
    assert(s.work.panes[pane].wf());
}

/// Going back or forward makes the folder that is shown then lead the recent ones.
pub proof fn law_history_counts_as_recent(s: ShuffleView, pane: int)
    requires
        s.wf(),
        0 <= pane < s.work.panes.len(),
    ensures
        ({
            let t = s.work.tab(pane);
            &&& t.hist_pos > 0 ==> s.backed(pane).side.recents[0] == t.history[t.hist_pos - 1]
                && s.backed(pane).work.tab(pane).dir == t.history[t.hist_pos - 1]
            &&& t.hist_pos + 1 < t.history.len() ==> s.forwarded(pane).side.recents[0]
                == t.history[t.hist_pos + 1] && s.forwarded(pane).work.tab(pane).dir
                == t.history[t.hist_pos + 1]
            &&& t.hist_pos == 0 ==> s.backed(pane).work.tab(pane) == t && s.backed(pane).side
                == s.side
            &&& s.backed(pane).work.active == pane && s.forwarded(pane).work.active == pane
        }),
{
    assert(s.work.panes[pane].wf());
}

/// The path bar is edited from the path of the folder, with the cursor behind it.
pub proof fn law_path_bar_starts_with_the_folder(s: ShuffleView, pane: int)
    requires
        s.wf(),
        0 <= pane < s.work.panes.len(),
    ensures
        s.editing_path(pane).work.tab(pane).editing matches Some(f) && f.text == s.work.tab(
            pane,
        ).dir && f.cursor == f.text.len() && f.anchor is None,
        s.editing_path(pane).work.active == pane,
{
    assert(s.work.panes[pane].wf());
}

/// A folder is read again exactly where its time of change is known and has become
/// another one.
pub proof fn law_changed_folders_are_read_again(
    s: ShuffleView,
    pane: int,
    dir: Seq<char>,
    now: Option<Stamp>,
)
    requires
        s.wf(),
        0 <= pane < s.work.panes.len(),
    ensures
        s.watched(pane, dir, now).1 <==> components_of(s.work.tab(pane).dir) == components_of(dir)
            && s.work.tab(pane).dir_mtime is Some && now is Some && s.work.tab(pane).dir_mtime
            != now,
{
}

/// The gallery opens on the focused item, or else on the first file; other views keep
/// the focus.
pub proof fn law_gallery_starts_with_a_file(t: TabView, mode: ViewMode)
    ensures
        t.viewed(mode).view == mode,
        mode != ViewMode::Gallery || t.anchor is Some ==> t.viewed(mode).anchor == t.anchor,
        mode == ViewMode::Gallery && t.anchor is None ==> ((t.viewed(mode).anchor is None <==> forall|
            i: int,
        |
            0 <= i < t.entries.len() ==> (#[trigger] t.entries[i]).is_dir) && (t.viewed(
            mode,
        ).anchor matches Some(a) ==> exists|i: int|
            0 <= i < t.entries.len() && !(#[trigger] t.entries[i]).is_dir && a == joined_path(
                t.dir,
                t.entries[i].name,
            ) && forall|k: int| 0 <= k < i ==> (#[trigger] t.entries[k]).is_dir)),
        t.viewed(mode).selection == t.selection && t.viewed(mode).entries == t.entries,
{
    lemma_first_file(t.entries);
}

proof fn lemma_first_file(s: Seq<EntryView>)
    ensures
        first_file(s) matches Some(i) ==> 0 <= i < s.len() && !s[i].is_dir && forall|k: int|
            0 <= k < i ==> (#[trigger] s[k]).is_dir,
        first_file(s) is None ==> forall|k: int| 0 <= k < s.len() ==> (#[trigger] s[k]).is_dir,
    decreases s.len(),
{
    if s.len() > 0 {
        let h = s.drop_last();
        lemma_first_file(h);
        assert(forall|k: int| 0 <= k < h.len() ==> #[trigger] s[k] == h[k]);
    }
}

/// An arrow key moves by one row in the list, by one icon or one line of icons in the
/// icon view; up and down are opposite, and so are left and right.
pub proof fn law_arrows_by_view(t: TabView, cols: int)
    ensures
        t.view == ViewMode::Icons ==> t.arrow_delta(1, 0, cols) == 1 && t.arrow_delta(0, 1, cols)
            == cols,
        t.view != ViewMode::Icons ==> t.arrow_delta(0, 1, cols) == 1 && t.arrow_delta(1, 0, cols)
            == 0,
        t.arrow_delta(-1, 0, cols) == -t.arrow_delta(1, 0, cols),
        t.arrow_delta(0, -1, cols) == -t.arrow_delta(0, 1, cols),
{
}

/// The index of a folder is built once: not while it is there or being built. What was
/// built is taken over where it is awaited.
pub proof fn law_index_is_built_once(s: ShuffleView, root: Seq<char>)
    ensures
        s.index_begun().index_begun() == s.index_begun(),
        s.index_missing() ==> s.index_begun().indexing == Some(s.tab().dir),
        s.index_missing() ==> !s.index_begun().index_ready(s.tab().dir).index_missing(),
        (s.indexing matches Some(r) && same_place(r, root)) ==> s.index_ready(root).indexed
            == Some(root) && s.index_ready(root).indexing is None,
        !(s.indexing matches Some(r) && same_place(r, root)) ==> s.index_ready(root) == s,
        s.scoped(SearchScope::Global).indexing == s.indexing,
        s.scoped(SearchScope::Recursive).palette.mode == PaletteMode::Search(
            SearchScope::Recursive,
        ),
{
}

// ----- keys ----------------------------------------------------------------------------

/// What is done with the focused item is done with that item, and each action does
/// something of its own; without one nothing happens.
pub proof fn law_actions_take_the_focused_item(s: ShuffleView, p: Seq<char>)
    requires
        s.tab().anchor == Some(p),
    ensures
        s.acted(KeyAction::CopyPath).1 == DeedView::Clipboard(p),
        s.acted(KeyAction::Duplicate).1 == (DeedView::Duplicate { pane: s.work.active, path: p }),
        s.acted(KeyAction::MakeAlias).1 == (DeedView::MakeAlias { pane: s.work.active, path: p }),
        s.acted(KeyAction::Compress).1 == (DeedView::Compress { pane: s.work.active, path: p }),
        s.acted(KeyAction::RevealInFinder).1 == DeedView::Finder(p),
        s.acted(KeyAction::Open).1 == (DeedView::OpenItem { pane: s.work.active, path: p }),
        s.acted(KeyAction::Rename).0.rename matches Some(r) && r.path == p,
        s.acted(KeyAction::NewFile).1 is NewFile && s.acted(KeyAction::NewFolder).1 is NewFolder,
        s.acted(KeyAction::NewTab).1 is NewTab,
        s.acted(KeyAction::CopyPath).0 == s && s.acted(KeyAction::Duplicate).0 == s
            && s.acted(KeyAction::Compress).0 == s && s.acted(KeyAction::Open).0 == s,
{
}

/// Closing a tab by a key closes the one in front of the pane with the keyboard, and
/// selecting everything works on that pane too.
pub proof fn law_actions_work_on_the_front_tab(s: ShuffleView, q: Seq<char>)
    requires
        s.wf(),
        s.work.panes[s.work.active].tabs.len() > 1,
    ensures
        s.acted(KeyAction::CloseTab).0.work.panes[s.work.active].tabs
            == s.work.panes[s.work.active].tabs.remove(s.work.panes[s.work.active].active),
        holds_place(s.acted(KeyAction::SelectAll).0.tab().selection, q) <==> among_rows(
            s.tab(),
            q,
            0,
            s.tab().shown().len() as int,
        ),
{
    law_everything_is_selected(s.tab(), q);
    let p = s.work.active;
    assert(s.work.panes[p].wf());
    law_front_tab_stays(s.work, p, s.work.panes[p].active);
}

/// In the listing the arrow keys move in their directions, enter renames, and backspace
/// and delete ask for the trash; with command they do nothing.
pub proof fn law_listing_keys(s: ShuffleView, ks: KeystrokeView)
    ensures
        ks.platform ==> s.listing_key(ks) == (s, DeedView::Idle),
        !ks.platform && ks.key == "up"@ ==> s.listing_key(ks).1 == (DeedView::Arrow {
            dx: 0,
            dy: -1,
        }),
        !ks.platform && ks.key == "down"@ ==> s.listing_key(ks).1 == (DeedView::Arrow {
            dx: 0,
            dy: 1,
        }),
        !ks.platform && ks.key == "left"@ ==> s.listing_key(ks).1 == (DeedView::Arrow {
            dx: -1,
            dy: 0,
        }),
        !ks.platform && ks.key == "right"@ ==> s.listing_key(ks).1 == (DeedView::Arrow {
            dx: 1,
            dy: 0,
        }),
        !ks.platform && (ks.key == "backspace"@ || ks.key == "delete"@) ==> s.listing_key(ks)
            == s.asked_delete(s.work.active),
        !ks.platform && ks.key == "enter"@ && s.hovered is None ==> (s.tab().anchor matches Some(a)
            ==> (s.listing_key(ks).0.rename matches Some(r) && r.path == a)),
{
    lemma_key_names();
}

/// Enter in the path bar goes to what was typed, trimmed and with `~` for the home
/// directory, and closes the bar; escape closes it and goes nowhere.
pub proof fn law_path_bar_goes_where_typed(
    s: ShuffleView,
    f: FieldView,
    ks: KeystrokeView,
    home: Seq<char>,
)
    requires
        s.wf(),
    ensures
        ks.key == "enter"@ ==> s.path_key(f, ks, home).1 == (DeedView::Visit {
            pane: s.work.active,
            path: expanded(trimmed(f.text), home),
        }) && s.path_key(f, ks, home).0.tab().editing is None,
        ks.key == "escape"@ ==> s.path_key(f, ks, home).1 is Redraw && s.path_key(
            f,
            ks,
            home,
        ).0.tab().editing is None && s.path_key(f, ks, home).0.tab().dir == s.tab().dir,
        !(s.path_key(f, ks, home).1 is OpenFile) && !(s.path_key(f, ks, home).1 is Trash),
{
    lemma_key_names();
    assert(s.work.panes[s.work.active].wf());
}

/// Enter in the find bar opens the best match in the folder, and closes the bar; escape
/// closes it. What is typed filters the rows anew.
pub proof fn law_find_bar_opens_the_best(s: ShuffleView, f: FieldView, ks: KeystrokeView)
    requires
        s.wf(),
        s.tab().find == Some(f),
    ensures
        ({
            let (t, (r, d)) = (s.tab(), s.find_key(f, ks));
            &&& ks.key == "escape"@ ==> r.tab().find is None && d is Redraw
            &&& ks.key == "enter"@ && t.find_results.len() > 0 ==> r.tab().find is None && ({
                let e = t.entries[t.find_results[0]];
                let path = joined_path(t.dir, e.name);
                if e.is_dir {
                    d == DeedView::Visit { pane: s.work.active, path }
                } else {
                    d == DeedView::OpenFile(path)
                }
            })
            &&& ks.key == "enter"@ && t.find_results.len() == 0 ==> r == s
            &&& ks.key == "backspace"@ ==> r.tab().find == Some(f.backspaced())
                && r.tab().find_results == filtered_rows(
                t.entries,
                f.backspaced().text,
                t.sort_key,
            )
        }),
{
    lemma_key_names();
    assert(s.work.panes[s.work.active].wf());
}

/// A key that is bound does its action where the palette is closed; while it is open only
/// the key that toggles it does. A key that no field, dialog or binding takes reaches the
/// listing.
pub proof fn law_bound_keys_act(
    s: ShuffleView,
    ks: KeystrokeView,
    binds: Seq<Option<Seq<char>>>,
    prefs: Prefs,
    a: KeyAction,
)
    requires
        bound_action(binds, ks.canonical()) == Some(a),
        !is_palette_action(a),
    ensures
        !s.palette.open ==> s.bound_key(ks, binds, prefs) == (
            s.acted(a).0,
            (s.acted(a).1, false),
        ),
        s.palette.open && a == KeyAction::CommandPalette ==> !s.bound_key(
            ks,
            binds,
            prefs,
        ).0.palette.open,
{
}

/// What the palette chooses is carried out in the pane with the keyboard: folders are
/// gone to, files opened, and the path of the folder copied.
pub proof fn law_palette_choices_are_carried_out(
    s: ShuffleView,
    path: Seq<char>,
    is_dir: bool,
    saved: bool,
)
    ensures
        s.palette_deed(
            PaletteStepView::Activate { action: ActionView::Open(path, true), saved },
        ) == (DeedView::Visit { pane: s.work.active, path }, saved),
        s.palette_deed(
            PaletteStepView::Activate { action: ActionView::Open(path, false), saved },
        ) == (DeedView::OpenFile(path), saved),
        s.palette_deed(PaletteStepView::Activate { action: ActionView::CopyDir, saved }).0
            == DeedView::Clipboard(s.tab().dir),
        palette_run_deed(s.work.active, PaletteAction::Open, path, is_dir) == s.palette_deed(
            PaletteStepView::Activate { action: ActionView::Open(path, is_dir), saved },
        ).0,
        palette_run_deed(s.work.active, PaletteAction::CopyPath, path, is_dir)
            == DeedView::Clipboard(path),
        palette_run_deed(s.work.active, PaletteAction::RevealFinder, path, is_dir)
            == DeedView::Finder(path),
        parent_of(path) matches Some(d) ==> palette_run_deed(
            s.work.active,
            PaletteAction::RevealShuffle,
            path,
            is_dir,
        ) == (DeedView::ShowIn { pane: s.work.active, dir: d, path }) && palette_run_deed(
            s.work.active,
            PaletteAction::OpenNewTab,
            path,
            false,
        ) == (DeedView::TabAt { pane: s.work.active, dir: d, reveal: Some(path) }),
        palette_run_deed(s.work.active, PaletteAction::OpenNewTab, path, true)
            == (DeedView::TabAt { pane: s.work.active, dir: path, reveal: None }),
{
}

/// The palette opens empty, searches everywhere, and takes the keyboard from the command
/// bar and the find bar; toggling it again closes it.
pub proof fn law_palette_opens_fresh(s: ShuffleView)
    requires
        s.wf(),
        !s.palette.open,
    ensures
        ({
            let r = s.palette_toggled().0;
            &&& r.palette.open && r.palette.query.text.len() == 0 && r.palette.selected == 0
            &&& r.palette.mode == PaletteMode::Search(SearchScope::Global)
            &&& r.palette.hist == s.palette.hist && r.palette.hist_pos is None
            &&& !r.term.focused && r.tab().find is None
            &&& !r.palette_toggled().0.palette.open
            &&& r.tab().dir == s.tab().dir && r.tab().selection == s.tab().selection
        }),
{
    assert(s.work.panes[s.work.active].wf());
}

// ----- the command bar -----------------------------------------------------------------

/// A command is echoed behind the folder's name and then run as it was typed, trimmed;
/// `clear` empties the scrollback, `cd` goes to a folder, a blank line does nothing. The
/// input is empty afterwards.
pub proof fn law_commands_are_sorted_out(t: TermView, cwd: Seq<char>, home: Seq<char>)
    requires
        t.output.len() < SCROLLBACK,
    ensures
        ({
            let (r, step) = t.sent(cwd, home);
            let c = trimmed(t.input);
            let goes = c == "cd"@ || (c.len() >= 3 && c.take(3) == "cd "@);
            &&& r.input.len() == 0
            &&& r.focused == t.focused
            &&& c.len() == 0 ==> step is Idle && r.output == t.output
            &&& c == "clear"@ ==> step is Cleared && r.output.len() == 0
            &&& c.len() > 0 && c != "clear"@ ==> r.output.drop_last() == t.output
                && c.is_suffix_of(r.output.last()) && label_of(cwd).is_prefix_of(r.output.last())
            &&& goes ==> step == (StepView::Cd {
                target: resolved_dir(cwd, trimmed(c.skip(2)), home),
                arg: trimmed(c.skip(2)),
            })
            &&& c.len() > 0 && c != "clear"@ && !goes ==> step == (StepView::Run { command: c })
        }),
{
    reveal_strlit("cd");
    reveal_strlit("cd ");
    reveal_strlit("clear");
    let c = trimmed(t.input);
    let e = echo_line(cwd, c);
    assert(t.output.push(e).drop_last() =~= t.output);
    assert(e.subrange(e.len() - c.len(), e.len() as int) =~= c);
    assert(e.subrange(0, label_of(cwd).len() as int) =~= label_of(cwd));
    assert("cd"@[0] == 'c' && "cd"@[1] == 'd' && "clear"@[1] == 'l' && "cd "@[1] == 'd');
    assert("cd "@.is_prefix_of(c) <==> c.len() >= 3 && c.take(3) == "cd "@) by {
        if c.len() >= 3 {
            assert(c.take(3) =~= c.subrange(0, 3));
        }
    }
    if c == "clear"@ {
        assert(c[1] == 'l');
        if c.len() >= 3 && c.take(3) == "cd "@ {
            assert(c.take(3)[1] == c[1]);
        }
    }
}

/// Completion keeps what was typed up to the last name, and puts in its place what all
/// names that begin with it have in common; a single one whole, with a slash behind it
/// if it is a folder. Without such a name nothing changes.
pub proof fn law_completion_fills_in(
    t: TermView,
    names: Seq<(Seq<char>, bool)>,
    kept: Seq<char>,
    part: Seq<char>,
)
    requires
        t.input == kept + part,
        !part.contains('/'),
        !part.contains(' '),
        kept.len() > 0 && (kept.last() == ' ' || kept.last() == '/'),
    ensures
        ({
            let c = candidates(t.input, names);
            let r = t.completed(names);
            &&& forall|i: int|
                0 <= i < c.len() ==> lowercase(part).is_prefix_of(lowercase((#[trigger] c[i]).0))
                    && names.contains(c[i])
            &&& forall|k: int|
                0 <= k < names.len() && lowercase(part).is_prefix_of(
                    lowercase((#[trigger] names[k]).0),
                ) ==> c.contains(names[k])
            &&& c.len() == 0 ==> r == t
            &&& c.len() == 1 && !c[0].1 ==> r.input == kept + c[0].0
            &&& c.len() == 1 && c[0].1 ==> r.input == kept + c[0].0 + seq!['/']
            &&& c.len() > 1 ==> r.input == t.input || r.input == kept + common_start(
                just_names(c),
            )
        }),
{
    reveal_strlit("/");
    assert("/"@ =~= seq!['/']);
    let i = t.input;
    lemma_after_last(i, ' ');
    let j = after_last(i, ' ') as int;
    assert(j <= kept.len()) by {
        if j > kept.len() {
            assert(i[j - 1] == part[j - 1 - kept.len()]);
            assert(part.contains(part[j - 1 - kept.len()]));
        }
    }
    let (prefix, last) = token_split(i);
    lemma_after_last(last, '/');
    let m = after_last(last, '/') as int;
    assert(last =~= kept.skip(j) + part);
    let n = kept.len() - j;
    assert(m == n) by {
        if m > n {
            assert(last[m - 1] == part[m - 1 - n]);
            assert(part.contains(part[m - 1 - n]));
        }
        if m < n {
            assert(last[n - 1] == kept[kept.len() - 1]);
            assert(i[kept.len() - 1] == kept[kept.len() - 1]);
        }
    }
    assert(last.skip(m) =~= part);
    assert(prefix + last.take(m) =~= kept);
    assert(prefix.len() > 0 || m > 0);
    lemma_names_beginning(names, part);
    assert(names_beginning(names, part) + Seq::<(Seq<char>, bool)>::empty() =~= names_beginning(
        names,
        part,
    ));
    assert(kept + part =~= i);
}

proof fn lemma_names_beginning(names: Seq<(Seq<char>, bool)>, part: Seq<char>)
    ensures
        forall|i: int|
            0 <= i < names_beginning(names, part).len() ==> lowercase(part).is_prefix_of(
                lowercase((#[trigger] names_beginning(names, part)[i]).0),
            ) && names.contains(names_beginning(names, part)[i]),
        forall|k: int|
            0 <= k < names.len() && lowercase(part).is_prefix_of(
                lowercase((#[trigger] names[k]).0),
            ) ==> names_beginning(names, part).contains(names[k]),
    decreases names.len(),
{
    if names.len() > 0 {
        let h = names.drop_last();
        lemma_names_beginning(h, part);
        let (b, r) = (names_beginning(h, part), names_beginning(names, part));
        assert forall|i: int| 0 <= i < r.len() implies lowercase(part).is_prefix_of(
            lowercase((#[trigger] r[i]).0),
        ) && names.contains(r[i]) by {
            if i < b.len() {
                assert(r[i] == b[i]);
                assert(h.contains(b[i]));
                let k = choose|k: int| 0 <= k < h.len() && h[k] == b[i];
                assert(names[k] == r[i]);
            } else {
                assert(names[names.len() - 1] == r[i]);
            }
        }
        assert forall|k: int| 0 <= k < names.len() && lowercase(part).is_prefix_of(
            lowercase((#[trigger] names[k]).0),
        ) implies r.contains(names[k]) by {
            if k < h.len() {
                assert(h[k] == names[k]);
                assert(b.contains(h[k]));
                let i = choose|i: int| 0 <= i < b.len() && b[i] == h[k];
                assert(r[i] == names[k]);
            } else {
                assert(r[r.len() - 1] == names[k]);
            }
        }
    }
}

} // verus!
