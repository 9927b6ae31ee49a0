//! What browsing, dialogs and calls of other programs amount to.

use crate::choice_laws::{offers, offers_at};
use crate::choices::ChoiceView;
use crate::fileops::{
    asking_release, attaching, checking_notarized, checking_signature, detaching, downloading,
    in_shell, previewing, scripted, signature, signature_words, signer, signer_line, spotlight,
    swapping,
};
use crate::keymap::{KeystrokeView, key_named};
use crate::kinds::InvocationView;
use crate::menus::{MenuCommand, SidebarTarget, sidebar_entries};
use crate::palette_laws::lemma_key_names;
use crate::paths::{extension_of, same_place};
use crate::persist::GroupView;
use crate::places::{holds_place, law_toggle_flips, no_repeats};
use crate::shuffle::{DeedView, ShuffleView};
use crate::side_laws::law_servers_are_listed_once;
use crate::sidebar::{has_group, server_url};
use crate::startup::{ModeView, mode_of};
use crate::tabs::{TabView, ViewMode};
use crate::terminal::{StepView, TermView};
use crate::text::{law_decimal_reads_back, lemma_lines_cons, lines_of, one_line, parsed, trimmed};
use crate::update::{EXPECTED_TEAM_ID, names_team, team_line};
use vstd::prelude::*;

verus! {

// ----- items in the listing ------------------------------------------------------------

/// Whether a pane has a front tab.
pub open spec fn has_front(s: ShuffleView, pane: int) -> bool {
    0 <= pane < s.work.panes.len() && 0 <= s.work.panes[pane].active
        < s.work.panes[pane].tabs.len()
}

/// Showing an item selects it alone, focuses it, and starts its preview at the first
/// page. Picking one focuses its pane as well and gives up a rename.
pub proof fn law_shown_item_is_selected(s: ShuffleView, pane: int, path: Seq<char>)
    requires
        has_front(s, pane),
    ensures
        ({
            let (r, p) = (s.revealed(pane, path), s.picked(pane, path));
            &&& r.work.tab(pane).selection == seq![path] && r.work.tab(pane).anchor == Some(path)
            &&& r.page == 0 && r.work.active == s.work.active
            &&& r.work.tab(pane).entries == s.work.tab(pane).entries
            &&& p.work.tab(pane).selection == seq![path] && p.work.active == pane
            &&& p.rename is None && p.page == 0
        }),
{
}

/// Clicking an item with the command key held adds it to the selection, or takes it out
/// where it was in it; the other items stay as they were.
pub proof fn law_toggling_an_item(s: ShuffleView, pane: int, path: Seq<char>, other: Seq<char>)
    requires
        has_front(s, pane),
        no_repeats(s.work.tab(pane).selection),
        !same_place(other, path),
    ensures
        ({
            let (a, b) = (s.work.tab(pane), s.toggled_entry(pane, path).0.work.tab(pane));
            &&& holds_place(b.selection, path) == !holds_place(a.selection, path)
            &&& holds_place(b.selection, other) == holds_place(a.selection, other)
            &&& !holds_place(a.selection, path) ==> b.anchor == Some(path)
                && s.toggled_entry(pane, path).1 == (DeedView::Look { pane, path })
            &&& holds_place(a.selection, path) ==> b.anchor == a.anchor
            &&& s.toggled_entry(pane, path).0.work.active == pane
        }),
{
    law_toggle_flips(s.work.tab(pane).selection, path, other);
}

/// Drawing a box begins with nothing selected, in the pane where it is drawn.
pub proof fn law_box_begins_empty(s: ShuffleView, pane: int)
    requires
        has_front(s, pane),
    ensures
        ({
            let r = s.marquee_begun(pane);
            &&& r.work.tab(pane).selection.len() == 0 && r.work.tab(pane).anchor is None
            &&& r.work.active == pane && r.rename is None && !r.term.focused
            &&& r.work.tab(pane).entries == s.work.tab(pane).entries
        }),
{
}

proof fn lemma_last_selected(t: TabView, n: int)
    requires
        0 <= n <= t.shown_paths().len(),
    ensures
        t.last_selected(n) matches Some(p) ==> holds_place(t.selection, p) && exists|i: int|
            0 <= i < n && #[trigger] t.shown_paths()[i] == p && forall|j: int|
                i < j < n ==> !holds_place(t.selection, #[trigger] t.shown_paths()[j]),
        t.last_selected(n) is None ==> forall|j: int|
            0 <= j < n ==> !holds_place(t.selection, #[trigger] t.shown_paths()[j]),
    decreases n,
{
    if n > 0 {
        lemma_last_selected(t, n - 1);
        if !holds_place(t.selection, t.shown_paths()[n - 1]) && t.last_selected(n - 1) is Some {
            let p = t.last_selected(n - 1)->0;
            let i = choose|i: int|
                0 <= i < n - 1 && #[trigger] t.shown_paths()[i] == p && forall|j: int|
                    i < j < n - 1 ==> !holds_place(t.selection, #[trigger] t.shown_paths()[j]);
            assert forall|j: int| i < j < n implies !holds_place(
                t.selection,
                #[trigger] t.shown_paths()[j],
            ) by {}
            assert(t.shown_paths()[i] == p);
        } else if holds_place(t.selection, t.shown_paths()[n - 1]) {
            assert(t.shown_paths()[n - 1] == t.last_selected(n)->0);
        }
    }
}

/// When the box is let go, the lowest row in it is focused, unless a row was focused.
pub proof fn law_box_focuses_its_last_row(s: ShuffleView, pane: int)
    requires
        has_front(s, pane),
    ensures
        ({
            let t = s.work.tab(pane);
            let (r, deed) = s.marquee_ended(pane);
            &&& t.anchor is Some ==> r == s
            &&& t.selection.len() == 0 ==> r == s
            &&& deed matches DeedView::Look { pane: p, path } ==> p == pane && t.anchor is None
                && holds_place(t.selection, path) && r.page == 0 && exists|i: int|
                0 <= i < t.shown().len() && #[trigger] t.shown_paths()[i] == path && forall|j: int|
                    i < j < t.shown().len() ==> !holds_place(
                        t.selection,
                        #[trigger] t.shown_paths()[j],
                    )
            &&& t.anchor is None && (exists|i: int|
                0 <= i < t.shown().len() && holds_place(t.selection, #[trigger] t.shown_paths()[i]))
                ==> deed is Look
        }),
{
    let t = s.work.tab(pane);
    lemma_last_selected(t, t.shown().len() as int);
}

/// The pane is scrolled to the line of the item: in the grid of icons the one that holds
/// it, else its row, below the row `..` where there is one.
pub proof fn law_scrolls_to_the_item(t: TabView, ix: int, cols: int, show_parent: bool)
    requires
        0 <= ix,
        0 < cols,
    ensures
        t.view == ViewMode::Icons ==> t.scroll_item(ix, cols, show_parent) * cols <= ix
            && ix < t.scroll_item(ix, cols, show_parent) * cols + cols,
        t.view != ViewMode::Icons && !t.has_parent_row(show_parent) ==> t.scroll_item(
            ix,
            cols,
            show_parent,
        ) == ix,
        t.view != ViewMode::Icons && t.has_parent_row(show_parent) ==> t.scroll_item(
            ix,
            cols,
            show_parent,
        ) == ix + 1,
{
    vstd::arithmetic::div_mod::lemma_fundamental_div_mod(ix, cols);
    vstd::arithmetic::div_mod::lemma_mod_bound(ix, cols);
    assert(cols * (ix / cols) == (ix / cols) * cols) by (nonlinear_arith);
}

/// The item under the mouse is remembered until the mouse leaves it; leaving another one
/// changes nothing.
pub proof fn law_hover_follows_the_mouse(
    s: ShuffleView,
    pane: int,
    path: Seq<char>,
    other: Seq<char>,
)
    requires
        !same_place(path, other),
    ensures
        s.hovering(pane, path, true).hovered == Some((pane, path)),
        s.hovering(pane, path, true).hovering(pane, path, false).hovered is None,
        s.hovering(pane, path, true).hovering(pane, other, false).hovered == Some((pane, path)),
        s.hovering(pane, path, true).hovering(pane + 1, path, false).hovered == Some((pane, path)),
{
    assert(same_place(path, path));
}

/// What is renamed by the key is the item under the mouse while it is still there, and
/// else the focused one; without either nothing is.
pub proof fn law_rename_takes_the_item(s: ShuffleView, pane: int, path: Seq<char>)
    ensures
        s.renaming_hovered(pane, path, true).0.rename matches Some(r) && r.path == path && r.pane
            == pane,
        s.tab().anchor matches Some(a) ==> (s.renaming_hovered(pane, path, false).0.rename
            matches Some(r) && r.path == a && r.pane == s.work.active),
        s.tab().anchor is None ==> s.renaming_hovered(pane, path, false) == (s, DeedView::Idle),
{
}

// ----- dialogs -------------------------------------------------------------------------

/// Escape closes a dialog and changes nothing else.
pub proof fn law_escape_closes(s: ShuffleView, text: Seq<char>, ks: KeystrokeView, home: Seq<char>)
    requires
        ks.key == "escape"@,
    ensures
        s.server_key(text, ks).0 == (ShuffleView { server_dialog: None, ..s }),
        s.group_key(text, ks).0 == (ShuffleView { group_dialog: None, ..s }),
        s.confirm_key(ks).0 == (ShuffleView { confirm: None, ..s }),
        s.term_key(ks, home).0 == (ShuffleView {
            term: TermView { focused: false, ..s.term },
            ..s
        }),
        !(s.confirm_key(ks).1 is Trash),
        !(s.server_key(text, ks).1 is OpenUrl),
{
    lemma_key_names();
}

/// Enter in the dialog for a server opens the server and keeps it in the list; with
/// nothing typed nothing happens.
pub proof fn law_enter_connects(s: ShuffleView, text: Seq<char>, ks: KeystrokeView)
    requires
        ks.key == "enter"@,
    ensures
        trimmed(text).len() > 0 ==> s.server_key(text, ks).1 == DeedView::OpenUrl(server_url(text))
            && s.server_key(text, ks).0.server_dialog is None && s.server_key(
            text,
            ks,
        ).0.side.servers[0] == server_url(text),
        trimmed(text).len() == 0 ==> s.server_key(text, ks) == (s, DeedView::Idle),
{
    lemma_key_names();
    if trimmed(text).len() > 0 {
        law_servers_are_listed_once(s.side, text);
    }
}

/// Enter in the dialog for a group makes a group of that name and saves the groups,
/// unless there is one or nothing was typed.
pub proof fn law_enter_makes_the_group(s: ShuffleView, text: Seq<char>, ks: KeystrokeView)
    requires
        ks.key == "enter"@,
    ensures
        s.group_key(text, ks).0.group_dialog is None,
        s.group_key(text, ks).1 is SaveGroups <==> trimmed(text).len() > 0 && !has_group(
            s.side.groups,
            trimmed(text),
        ),
        s.group_key(text, ks).1 is SaveGroups ==> s.group_key(text, ks).0.side.groups
            == s.side.groups.push((GroupView { name: trimmed(text), paths: Seq::empty() })),
        !(s.group_key(text, ks).1 is SaveGroups) ==> s.group_key(text, ks).0.side == s.side,
{
    lemma_key_names();
}

/// Items go to the trash once it is confirmed, in the pane where it was asked: those that
/// were asked about. No other key does it.
pub proof fn law_only_enter_trashes(
    s: ShuffleView,
    ks: KeystrokeView,
    pane: int,
    paths: Seq<Seq<char>>,
)
    requires
        s.confirm == Some((pane, paths)),
    ensures
        s.confirm_key(ks).1 is Trash <==> ks.key == "enter"@,
        ks.key == "enter"@ ==> s.confirm_key(ks).1 == (DeedView::Trash { pane, paths })
            && s.confirm_key(ks).0.confirm is None,
        ks.key != "enter"@ && ks.key != "escape"@ ==> s.confirm_key(ks).0 == s,
{
    lemma_key_names();
    assert(key_named(ks.key) is Enter <==> ks.key == "enter"@);
    assert(key_named(ks.key) is Escape <==> ks.key == "escape"@);
}

/// In the command line enter runs what is typed in the folder of the front tab, and tab
/// asks for a completion.
pub proof fn law_command_line_keys(s: ShuffleView, ks: KeystrokeView, home: Seq<char>)
    ensures
        ks.key == "tab"@ ==> s.term_key(ks, home) == (s, DeedView::Complete),
        ks.key == "enter"@ ==> s.term_key(ks, home).0.term == s.term.sent(s.tab().dir, home).0,
        ks.key == "enter"@ ==> (s.term.sent(s.tab().dir, home).1 matches StepView::Run { command }
            ==> s.term_key(ks, home).1 == (DeedView::RunShell {
            pane: s.work.active,
            command,
        })),
        ks.key == "enter"@ ==> (s.term.sent(s.tab().dir, home).1 matches StepView::Cd {
            target,
            arg,
        } ==> s.term_key(ks, home).1 == (DeedView::Cd { pane: s.work.active, target, arg })),
        ks.key == "backspace"@ && s.term.input.len() > 0 ==> s.term_key(ks, home).0.term.input
            == s.term.input.drop_last(),
{
    lemma_key_names();
}

// ----- menus of the sidebar ------------------------------------------------------------

/// A choice in the menu of the sidebar changes what the menu was opened on, and is saved
/// if it changed something.
pub proof fn law_sidebar_choices(s: ShuffleView, path: String, g: usize)
    ensures
        s.chose_beside(SidebarTarget::Bookmark(path), MenuCommand::RemoveBookmark).0.side
            == s.side.unbookmarked(path@),
        holds_place(s.side.bookmarks, path@) ==> s.chose_beside(
            SidebarTarget::Bookmark(path),
            MenuCommand::RemoveBookmark,
        ).1 is SaveBookmarks,
        g < s.side.groups.len() ==> s.chose_beside(
            SidebarTarget::GroupHeader(g),
            MenuCommand::DeleteGroup(g),
        ).0.side.groups == s.side.groups.remove(g as int),
        g < s.side.groups.len() ==> s.chose_beside(
            SidebarTarget::GroupHeader(g),
            MenuCommand::DeleteGroup(g),
        ).1 == ChoiceView::Act(DeedView::SaveGroups),
        s.chose_beside(SidebarTarget::GroupMember(g, path), MenuCommand::RemoveFromGroup(g)).0.side
            == s.side.left_group(g as int, path@),
        s.chose_beside(SidebarTarget::Empty, MenuCommand::NewGroup).0.group_dialog == Some(
            Seq::<char>::empty(),
        ),
{
}

/// The menu of the sidebar offers to undo what the entry stands for; new groups are
/// offered only while groups are on.
pub proof fn law_sidebar_menus_fit(path: String, g: usize, on: bool)
    ensures
        offers(sidebar_entries(SidebarTarget::Bookmark(path), on), MenuCommand::RemoveBookmark),
        offers(sidebar_entries(SidebarTarget::GroupHeader(g), on), MenuCommand::DeleteGroup(g)),
        offers(
            sidebar_entries(SidebarTarget::GroupMember(g, path), on),
            MenuCommand::RemoveFromGroup(g),
        ),
        offers(sidebar_entries(SidebarTarget::Empty, on), MenuCommand::NewGroup) <==> on,
        offers(sidebar_entries(SidebarTarget::GroupHeader(g), on), MenuCommand::NewGroup) <==> on,
{
    let a = sidebar_entries(SidebarTarget::Bookmark(path), on);
    let b = sidebar_entries(SidebarTarget::GroupHeader(g), on);
    let c = sidebar_entries(SidebarTarget::GroupMember(g, path), on);
    let d = sidebar_entries(SidebarTarget::Empty, on);
    assert(offers_at(a, 0, MenuCommand::RemoveBookmark));
    assert(offers_at(b, b.len() - 1, MenuCommand::DeleteGroup(g)));
    assert(offers_at(c, 0, MenuCommand::RemoveFromGroup(g)));
    if on {
        assert(offers_at(d, 0, MenuCommand::NewGroup));
        assert(offers_at(b, 0, MenuCommand::NewGroup));
    } else {
        assert(b.len() == 1);
        assert(d.len() == 1);
    }
}

// ----- other programs ------------------------------------------------------------------

/// Whether a call hands over a text as one of its arguments.
pub open spec fn hands_over(c: InvocationView, arg: Seq<char>) -> bool {
    c.args.contains(arg)
}

/// Each call hands over what it is about, as its last argument.
pub proof fn law_calls_name_their_object(
    dir: Seq<char>,
    path: Seq<char>,
    url: Seq<char>,
    script: Seq<char>,
)
    ensures
        in_shell(script).args.last() == script && scripted(script).args.last() == script,
        spotlight(path).args.last() == path,
        previewing(dir, path).args.last() == path && hands_over(previewing(dir, path), dir),
        signature(path).args.last() == path && signer(path).args.last() == path,
        attaching(path).args.last() == path && detaching(path).args.last() == path,
        checking_signature(path).args.last() == path,
        checking_notarized(path).args.last() == path,
        asking_release(url).args.last() == url,
        downloading(path, url).args.last() == url && hands_over(downloading(path, url), path),
        attaching(path).program == detaching(path).program && attaching(path).args[0]
            != detaching(path).args[0],
        signature(path).program == checking_signature(path).program,
{
    assert(previewing(dir, path).args[4] == dir);
    assert(downloading(path, url).args[5] == path);
    reveal_strlit("attach");
    reveal_strlit("detach");
    assert("attach"@[0] == 'a' && "detach"@[0] == 'd');
}

/// The exchange of the application is told which application is replaced, by which one,
/// what to unmount and to delete, and which process to wait for, in this order.
pub proof fn law_exchange_is_told_everything(
    script: Seq<char>,
    bundle: Seq<char>,
    app: Seq<char>,
    mount: Seq<char>,
    image: Seq<char>,
    pid: nat,
    url: Seq<char>,
)
    ensures
        swapping(script, bundle, app, mount, image, pid, url).args.take(5) == seq![
            script,
            bundle,
            app,
            mount,
            image,
        ],
        parsed(swapping(script, bundle, app, mount, image, pid, url).args[5], 10, pid) == Some(pid),
        swapping(script, bundle, app, mount, image, pid, url).args.last() == url,
{
    law_decimal_reads_back(pid, pid);
    let a = swapping(script, bundle, app, mount, image, pid, url).args;
    assert(a.take(5) =~= seq![script, bundle, app, mount, image]);
}

/// Who signed a file is shown by name where the signature gives one. An application that
/// is not signed is said not to be; of another file nothing is said.
pub proof fn law_signers_are_named(path: Seq<char>, is_dir: bool, info: Seq<char>)
    ensures
        extension_of(path) == Some("app"@) ==> signature_words(path, is_dir, false, info) == Some(
            "Not signed"@,
        ),
        extension_of(path) != Some("app"@) ==> signature_words(path, is_dir, false, info) is None,
        is_dir && extension_of(path) != Some("app"@) ==> signature_words(path, is_dir, true, info)
            is None,
        !is_dir || extension_of(path) == Some("app"@) ==> signature_words(path, is_dir, true, info)
            == match signer_line(lines_of(info)) {
            Some(a) => Some(a),
            None => Some("Signed"@),
        },
{
}

/// The update is taken for genuine only where a line of its own names the team.
pub proof fn law_team_needs_a_line(line: Seq<char>, rest: Seq<char>)
    requires
        one_line(line),
    ensures
        trimmed(line) == "TeamIdentifier="@ + EXPECTED_TEAM_ID@ ==> names_team(
            line + seq!['\n'] + rest,
        ),
        names_team(line + seq!['\n'] + rest) ==> trimmed(line) == "TeamIdentifier="@
            + EXPECTED_TEAM_ID@ || names_team(rest),
        !names_team(Seq::empty()),
{
    lemma_lines_cons(line, rest);
    let s = line + seq!['\n'] + rest;
    let (a, b) = (lines_of(s), lines_of(rest));
    assert(a[0] == line);
    if trimmed(line) == team_line() {
        assert(trimmed(lines_of(s)[0]) == team_line());
    }
    if names_team(s) {
        let i = choose|i: int|
            0 <= i < lines_of(s).len() && trimmed(#[trigger] lines_of(s)[i]) == team_line();
        if i > 0 {
            assert(lines_of(rest)[i - 1] == lines_of(s)[i]);
        }
    }
    assert(lines_of(Seq::empty()).len() == 0);
}

/// The program runs its window unless told otherwise by its first argument; a benchmark
/// that lacks what it is for is not run.
pub proof fn law_modes_of_running(args: Seq<Seq<char>>)
    ensures
        args.len() <= 1 ==> mode_of(args) is Window,
        args.len() == 2 && args[1] != "--typo-test"@ ==> mode_of(args) is Window,
        mode_of(args) matches ModeView::IndexBench(q) ==> args[1] == "--index-bench"@ && q
            == args[2],
        mode_of(args) matches ModeView::DirBench(q) ==> args[1] == "--dir-bench"@ && q == args[2],
        mode_of(args) matches ModeView::PdfBench { path, page } ==> args[1] == "--pdf-bench"@
            && path == args[2] && (args.len() == 3 ==> page == 0),
        mode_of(args) is TypoTest ==> args[1] == "--typo-test"@,
        args.len() >= 3 && args[1] == "--index-bench"@ ==> mode_of(args) is IndexBench,
{
}

} // verus!
