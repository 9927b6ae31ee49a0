//! What menus, choices in them and settings amount to.

use crate::choices::ChoiceView;
use crate::fileops::opening_with;
use crate::keymap::{
    ACTION_COUNT, Key, KeyAction, KeystrokeView, action_id, action_label, key_named,
    lemma_action_id,
};
use crate::kinds::{archive_kind, names_image, names_pdf};
use crate::listing::{SortKey, sort_label};
use crate::menus::{
    EntryOfMenu, ImageFormat, MenuCommand, MenuView, entry, entry_if, group_entries, group_entry,
    named_apps, open_with_entries, quick_entries, root_entries, service_dir, service_entries,
    sort_entries_of, sort_mark, tag_entries, trash_question,
};
use crate::palette_laws::lemma_key_names;
use crate::paths::{extension_of, label_of, parent_of, same_place, stem_of};
use crate::persist::GroupView;
use crate::places::holds_place;
use crate::prefs::Prefs;
use crate::settings::{
    ColorTarget, GeneralRowView, PrefSwitch, SettingsStepView, SettingsView, general_tab, hex_text,
    is_lone_modifier, keybind_tab, modifier_symbol, modifier_symbols, opacity_stepped, preset_cards,
    pretty, recents_stepped, swatches, switch_on, symbol_of, with_hex,
};
use crate::shuffle::{ContextView, DeedView, ShuffleView};
use crate::sidebar::has_label;
use crate::text::{
    decimal_of, hex6_of, law_hex6_reads_back, lemma_until, lemma_until_at, split_at_each, until,
};
use crate::theme::{Theme, preset_list};
use crate::update::CheckView;
use vstd::prelude::*;

verus! {

// ----- what menus offer ----------------------------------------------------------------

/// Whether a menu offers a command.
pub open spec fn offers(menu: Seq<EntryOfMenu>, c: MenuCommand) -> bool {
    exists|i: int| 0 <= i < menu.len() && offers_at(menu, i, c)
}

/// Whether the entry of a menu at `i` is for a command.
pub open spec fn offers_at(menu: Seq<EntryOfMenu>, i: int, c: MenuCommand) -> bool {
    menu[i] matches EntryOfMenu::Item { command, .. } && command == c
}

/// Whether a menu offers a command by a name.
pub open spec fn offers_as(menu: Seq<EntryOfMenu>, label: Seq<char>, c: MenuCommand) -> bool {
    menu.contains(EntryOfMenu::Item { label, command: c, dot: None })
}

proof fn lemma_offers_joined(a: Seq<EntryOfMenu>, b: Seq<EntryOfMenu>, c: MenuCommand)
    ensures
        offers(a + b, c) <==> offers(a, c) || offers(b, c),
{
    let s = a + b;
    if offers(s, c) {
        let i = choose|i: int| 0 <= i < s.len() && offers_at(s, i, c);
        if i < a.len() {
            assert(offers_at(a, i, c));
        } else {
            assert(offers_at(b, i - a.len(), c));
        }
    }
    if offers(a, c) {
        let i = choose|i: int| 0 <= i < a.len() && offers_at(a, i, c);
        assert(offers_at(s, i, c));
    }
    if offers(b, c) {
        let i = choose|i: int| 0 <= i < b.len() && offers_at(b, i, c);
        assert(offers_at(s, i + a.len(), c));
    }
}

proof fn lemma_offers_if(on: bool, label: Seq<char>, command: MenuCommand, c: MenuCommand)
    ensures
        offers(entry_if(on, entry(label, command)), c) <==> on && command == c,
        on ==> offers_as(entry_if(on, entry(label, command)), label, command),
{
    let s = entry_if(on, entry(label, command));
    if on {
        assert(s[0] == entry(label, command));
        if command == c {
            assert(offers_at(s, 0, c));
        }
    }
}

/// The menu of an item offers to remove its bookmark if it has one and to add one if it
/// has none, to unpack it if it is an archive, to show what is in it if it is an
/// application, and to put it in a group if there are any.
pub proof fn law_menus_fit_their_item(
    path: Seq<char>,
    is_dir: bool,
    bookmarks: Seq<Seq<char>>,
    groups: bool,
)
    ensures
        ({
            let m = root_entries(Some((path, is_dir)), bookmarks, groups);
            let marked = exists|i: int|
                0 <= i < bookmarks.len() && same_place(#[trigger] bookmarks[i], path);
            &&& offers(m, MenuCommand::RemoveBookmark) <==> marked
            &&& offers(m, MenuCommand::AddBookmark) <==> !marked
            &&& offers(m, MenuCommand::Extract) <==> archive_kind(path) is Some
            &&& offers(m, MenuCommand::ShowContents) <==> is_dir && extension_of(path) == Some(
                "app"@,
            )
            &&& offers(m, MenuCommand::Level(MenuView::AddToGroup)) <==> groups
        }),
{
    lemma_root_offers(path, is_dir, bookmarks, groups, MenuCommand::RemoveBookmark);
    lemma_root_offers(path, is_dir, bookmarks, groups, MenuCommand::AddBookmark);
    lemma_root_offers(path, is_dir, bookmarks, groups, MenuCommand::Extract);
    lemma_root_offers(path, is_dir, bookmarks, groups, MenuCommand::ShowContents);
    lemma_root_offers(
        path,
        is_dir,
        bookmarks,
        groups,
        MenuCommand::Level(MenuView::AddToGroup),
    );
}

proof fn lemma_root_offers(
    path: Seq<char>,
    is_dir: bool,
    bookmarks: Seq<Seq<char>>,
    groups: bool,
    c: MenuCommand,
)
    requires
        c == MenuCommand::RemoveBookmark || c == MenuCommand::AddBookmark || c
            == MenuCommand::Extract || c == MenuCommand::ShowContents || c == MenuCommand::Level(
            MenuView::AddToGroup,
        ),
    ensures
        offers(root_entries(Some((path, is_dir)), bookmarks, groups), c) <==> match c {
            MenuCommand::RemoveBookmark => holds_place(bookmarks, path),
            MenuCommand::AddBookmark => !holds_place(bookmarks, path),
            MenuCommand::Extract => archive_kind(path) is Some,
            MenuCommand::ShowContents => is_dir && extension_of(path) == Some("app"@),
            _ => groups,
        },
{
    let marked = holds_place(bookmarks, path);
    let s0 = seq![
        entry("Open"@, MenuCommand::Open),
        entry("Open With"@, MenuCommand::Level(MenuView::OpenWith)),
    ];
    let s1 = entry_if(archive_kind(path) is Some, entry("Extract Here"@, MenuCommand::Extract));
    let s2 = entry_if(
        is_dir && extension_of(path) == Some("app"@),
        entry("Show Package Contents"@, MenuCommand::ShowContents),
    );
    let s3 = seq![
        EntryOfMenu::Separator,
        entry("Rename"@, MenuCommand::Rename),
        entry("Reveal in Finder"@, MenuCommand::Reveal),
        entry("Copy Path"@, MenuCommand::CopyPath),
        if marked {
            entry("Remove Bookmark"@, MenuCommand::RemoveBookmark)
        } else {
            entry("Add to Bookmarks"@, MenuCommand::AddBookmark)
        },
    ];
    let s4 = entry_if(groups, entry("Add to Group"@, MenuCommand::Level(MenuView::AddToGroup)));
    let s5 = seq![
        entry("Duplicate"@, MenuCommand::Duplicate),
        entry("Make Alias"@, MenuCommand::MakeAlias),
        entry("Compress"@, MenuCommand::Compress),
        EntryOfMenu::Separator,
        entry("Move to Trash"@, MenuCommand::Trash),
        EntryOfMenu::Separator,
        entry("Tags"@, MenuCommand::Level(MenuView::Tags)),
        entry("Quick Actions"@, MenuCommand::Level(MenuView::QuickActions)),
        entry("Services"@, MenuCommand::Level(MenuView::Services)),
        EntryOfMenu::Separator,
    ];
    let s6 = seq![
        entry("New Folder"@, MenuCommand::NewFolder),
        entry("New File"@, MenuCommand::NewFile),
    ];
    assert(root_entries(Some((path, is_dir)), bookmarks, groups) == s0 + s1 + s2 + s3 + s4 + s5
        + s6);
    lemma_offers_joined(s0, s1, c);
    lemma_offers_joined(s0 + s1, s2, c);
    lemma_offers_joined(s0 + s1 + s2, s3, c);
    lemma_offers_joined(s0 + s1 + s2 + s3, s4, c);
    lemma_offers_joined(s0 + s1 + s2 + s3 + s4, s5, c);
    lemma_offers_joined(s0 + s1 + s2 + s3 + s4 + s5, s6, c);
    lemma_offers_if(archive_kind(path) is Some, "Extract Here"@, MenuCommand::Extract, c);
    lemma_offers_if(
        is_dir && extension_of(path) == Some("app"@),
        "Show Package Contents"@,
        MenuCommand::ShowContents,
        c,
    );
    lemma_offers_if(groups, "Add to Group"@, MenuCommand::Level(MenuView::AddToGroup), c);
    if c == MenuCommand::RemoveBookmark && marked || c == MenuCommand::AddBookmark && !marked {
        assert(offers_at(s3, 4, c));
    }
}

/// Pictures can be turned and converted, each entry doing what it says; pictures and PDFs
/// can be marked up; other files have no quick actions.
pub proof fn law_quick_actions_fit(path: Seq<char>, can: bool)
    ensures
        ({
            let m = quick_entries(path, can);
            &&& names_image(path) ==> {
                &&& offers_as(m, "Rotate Left"@, MenuCommand::RotateLeft)
                &&& offers_as(m, "Rotate Right"@, MenuCommand::RotateRight)
                &&& offers_as(m, "Create PDF"@, MenuCommand::Convert(ImageFormat::Pdf))
                &&& offers_as(m, "Convert to JPEG"@, MenuCommand::Convert(ImageFormat::Jpeg))
                &&& offers_as(m, "Convert to PNG"@, MenuCommand::Convert(ImageFormat::Png))
                &&& offers_as(m, "Convert to HEIC"@, MenuCommand::Convert(ImageFormat::Heic))
            }
            &&& names_image(path) || names_pdf(path) ==> offers_as(
                m,
                "Markup"@,
                MenuCommand::Markup,
            )
            &&& names_image(path) && can ==> offers_as(
                m,
                "Remove Background"@,
                MenuCommand::RemoveBackground,
            )
            &&& names_pdf(path) && !names_image(path) ==> m.len() == 3
            &&& !names_image(path) && !names_pdf(path) ==> m.len() == 3 && m[2] is Disabled
            &&& names_image(path) && !can ==> m.len() == 9
        }),
{
    let img = names_image(path);
    let pdf = names_pdf(path);
    let m = quick_entries(path, can);
    if img {
        assert(m[2] == entry("Rotate Left"@, MenuCommand::RotateLeft));
        assert(m[3] == entry("Rotate Right"@, MenuCommand::RotateRight));
        assert(m[4] == entry("Markup"@, MenuCommand::Markup));
        assert(m[5] == entry("Create PDF"@, MenuCommand::Convert(ImageFormat::Pdf)));
        assert(m[6] == entry("Convert to JPEG"@, MenuCommand::Convert(ImageFormat::Jpeg)));
        assert(m[7] == entry("Convert to PNG"@, MenuCommand::Convert(ImageFormat::Png)));
        assert(m[8] == entry("Convert to HEIC"@, MenuCommand::Convert(ImageFormat::Heic)));
        if can {
            assert(m[9] == entry("Remove Background"@, MenuCommand::RemoveBackground));
        }
    } else if pdf {
        assert(m[2] == entry("Markup"@, MenuCommand::Markup));
    }
}

/// Each application is offered by its name, with its place in the list; likewise each
/// terminal, and each group, which carries a check mark where the item is in it.
pub proof fn law_lists_are_offered_in_order(
    names: Seq<Seq<char>>,
    groups: Seq<GroupView>,
    path: Seq<char>,
    i: int,
)
    requires
        0 <= i <= usize::MAX,
    ensures
        i < names.len() ==> offers_as(
            open_with_entries(names),
            names[i],
            MenuCommand::OpenWith(i as usize),
        ),
        i < names.len() ==> offers_as(
            service_entries(path, names),
            "Open in "@ + names[i],
            MenuCommand::OpenIn(i as usize),
        ),
        names_image(path) ==> offers_as(
            service_entries(path, names),
            "Set Desktop Picture"@,
            MenuCommand::DesktopPicture,
        ),
        i < groups.len() && groups[i].paths.contains(path) ==> offers_as(
            group_entries(groups, path),
            "✓ "@ + groups[i].name,
            MenuCommand::AddToGroup(i as usize),
        ),
        i < groups.len() && !holds_place(groups[i].paths, path) ==> offers_as(
            group_entries(groups, path),
            groups[i].name,
            MenuCommand::AddToGroup(i as usize),
        ),
        open_with_entries(Seq::empty()).last() is Disabled,
        group_entries(Seq::empty(), path).last() is Disabled,
{
    if i < names.len() {
        assert(open_with_entries(names)[i + 2] == entry(
            names[i],
            MenuCommand::OpenWith(i as usize),
        ));
        let k: int = if names_image(path) {
            1
        } else {
            0
        };
        assert(service_entries(path, names)[i + 2 + k] == entry(
            "Open in "@ + names[i],
            MenuCommand::OpenIn(i as usize),
        ));
    }
    if names_image(path) {
        assert(service_entries(path, names)[2] == entry(
            "Set Desktop Picture"@,
            MenuCommand::DesktopPicture,
        ));
    }
    if i < groups.len() {
        let g = groups[i].paths;
        if g.contains(path) {
            let k = choose|k: int| 0 <= k < g.len() && g[k] == path;
            assert(same_place(g[k], path));
        }
        assert(group_entries(groups, path)[i + 2] == group_entry(groups[i], i, path));
    }
}

/// Each color label is offered once, with a number of its own.
pub proof fn law_tags_are_offered_once(i: int, j: int)
    requires
        2 <= i < j < tag_entries().len(),
    ensures
        tag_entries().len() == 10,
        tag_entries()[i]->command != tag_entries()[j]->command,
        tag_entries()[i]->command matches MenuCommand::Tag(n) && n <= 7,
        tag_entries()[i]->dot is Some && tag_entries()[i]->dot != tag_entries()[j]->dot,
{
}

/// Only the column sorted by is marked: with a triangle that points up while ascending
/// and down while descending, or a bullet for the order that has no direction.
pub proof fn law_sorted_column_is_marked(k: SortKey, cur: SortKey, asc: bool)
    ensures
        k != cur ==> sort_mark(k, cur, asc) == " "@,
        k == cur && k == SortKey::Standard ==> sort_mark(k, cur, asc) == "•"@,
        k == cur && k != SortKey::Standard && asc ==> sort_mark(k, cur, asc) == "▲"@,
        k == cur && k != SortKey::Standard && !asc ==> sort_mark(k, cur, asc) == "▼"@,
        exists|i: int|
            0 <= i < 6 && #[trigger] sort_entries_of(cur, asc)[i] == (
                k,
                sort_mark(k, cur, asc),
                sort_label(k),
            ),
        sort_entries_of(cur, asc).len() == 6,
{
    let s = sort_entries_of(cur, asc);
    assert(s[0].0 == SortKey::Standard);
    assert(s[1].0 == SortKey::Name);
    assert(s[2].0 == SortKey::Kind);
    assert(s[3].0 == SortKey::Modified);
    assert(s[4].0 == SortKey::Created);
    assert(s[5].0 == SortKey::Size);
    let i: int = match k {
        SortKey::Standard => 0,
        SortKey::Name => 1,
        SortKey::Kind => 2,
        SortKey::Modified => 3,
        SortKey::Created => 4,
        SortKey::Size => 5,
    };
    assert(s[i] == (k, sort_mark(k, cur, asc), sort_label(k)));
}

/// At most sixteen applications are offered, no two by the same name, and the first one
/// of a name is the one offered.
pub proof fn law_first_app_of_a_name(paths: Seq<Seq<char>>, p: Seq<char>)
    ensures
        named_apps(paths).len() <= 16,
        forall|i: int, j: int|
            0 <= i < j < named_apps(paths).len() ==> (#[trigger] named_apps(paths)[i]).0 != (
            #[trigger] named_apps(paths)[j]).0,
        forall|i: int|
            0 <= i < named_apps(paths).len() ==> stem_of((#[trigger] named_apps(paths)[i]).1)
                == Some(named_apps(paths)[i].0) && paths.contains(named_apps(paths)[i].1),
        named_apps(paths).is_prefix_of(named_apps(paths.push(p))),
        named_apps(paths).len() < 16 && stem_of(p) is Some && stem_of(p)->0.len() > 0 ==> exists|
            i: int,
        |
            0 <= i < named_apps(paths.push(p)).len() && (#[trigger] named_apps(paths.push(p))[i]).0
                == stem_of(p)->0,
    decreases paths.len(),
{
    let all = paths.push(p);
    assert(all.drop_last() =~= paths);
    let (a, b) = (named_apps(paths), named_apps(all));
    assert(b.subrange(0, a.len() as int) =~= a);
    if a.len() < 16 && stem_of(p) is Some && stem_of(p)->0.len() > 0 {
        if has_label(a, stem_of(p)->0) {
            let i = choose|i: int| 0 <= i < a.len() && (#[trigger] a[i]).0 == stem_of(p)->0;
            assert(b[i].0 == stem_of(p)->0);
        } else {
            assert(b.last().0 == stem_of(p)->0);
        }
    }
    if paths.len() > 0 {
        let t = paths.drop_last();
        law_first_app_of_a_name(t, paths.last());
        let h = named_apps(t);
        assert forall|i: int| 0 <= i < a.len() implies stem_of((#[trigger] a[i]).1) == Some(
            a[i].0,
        ) && paths.contains(a[i].1) by {
            if i < h.len() {
                assert(a[i] == h[i]);
                let k = choose|k: int| 0 <= k < t.len() && t[k] == h[i].1;
                assert(paths[k] == a[i].1);
            } else {
                assert(paths[paths.len() - 1] == a[i].1);
            }
        }
        assert forall|i: int, j: int| 0 <= i < j < a.len() implies (#[trigger] a[i]).0 != (
        #[trigger] a[j]).0 by {
            assert(a[i] == h[i]);
            if j < h.len() {
                assert(a[j] == h[j]);
            }
        }
    }
}

// ----- what a choice does --------------------------------------------------------------

/// A choice acts on the item that the menu was opened for, in the pane where it was
/// opened, and does what it says.
pub proof fn law_choices_act_on_their_item(
    s: ShuffleView,
    m: ContextView,
    path: Seq<char>,
    is_dir: bool,
    apps: Seq<Seq<char>>,
    i: usize,
    format: ImageFormat,
)
    requires
        s.menu == Some(m),
        m.target == Some((path, is_dir)),
    ensures
        s.chose(MenuCommand::Trash, apps).1 == (ChoiceView::Discard { pane: m.pane, path }),
        s.chose(MenuCommand::Extract, apps).1 == (ChoiceView::Extract { pane: m.pane, path }),
        s.chose(MenuCommand::RotateLeft, apps).1 == (ChoiceView::Turn {
            pane: m.pane,
            path,
            left: true,
        }),
        s.chose(MenuCommand::RotateRight, apps).1 == (ChoiceView::Turn {
            pane: m.pane,
            path,
            left: false,
        }),
        s.chose(MenuCommand::Convert(format), apps).1 == (ChoiceView::Convert {
            pane: m.pane,
            path,
            format,
        }),
        s.chose(MenuCommand::RemoveBackground, apps).1 == (ChoiceView::CutOut {
            pane: m.pane,
            path,
        }),
        s.chose(MenuCommand::Duplicate, apps).1 == ChoiceView::Act(
            (DeedView::Duplicate { pane: m.pane, path }),
        ),
        s.chose(MenuCommand::MakeAlias, apps).1 == ChoiceView::Act(
            (DeedView::MakeAlias { pane: m.pane, path }),
        ),
        s.chose(MenuCommand::Compress, apps).1 == ChoiceView::Act(
            (DeedView::Compress { pane: m.pane, path }),
        ),
        s.chose(MenuCommand::Reveal, apps).1 == ChoiceView::Act(DeedView::Finder(path)),
        s.chose(MenuCommand::CopyPath, apps).1 == ChoiceView::Act(DeedView::Clipboard(path)),
        s.chose(MenuCommand::ShowContents, apps).1 == ChoiceView::Act(
            (DeedView::Visit { pane: m.pane, path }),
        ),
        is_dir ==> s.chose(MenuCommand::Open, apps).1 == ChoiceView::Act(
            (DeedView::Visit { pane: m.pane, path }),
        ),
        !is_dir ==> s.chose(MenuCommand::Open, apps).1 == ChoiceView::Act(
            DeedView::OpenFile(path),
        ),
        i < apps.len() ==> s.chose(MenuCommand::OpenWith(i), apps).1 == ChoiceView::Start(
            opening_with(apps[i as int], path),
        ),
        i < apps.len() && is_dir ==> s.chose(MenuCommand::OpenIn(i), apps).1 == ChoiceView::Start(
            opening_with(apps[i as int], path),
        ),
        i < apps.len() && !is_dir && parent_of(path) is Some ==> s.chose(
            MenuCommand::OpenIn(i),
            apps,
        ).1 == ChoiceView::Start(opening_with(apps[i as int], parent_of(path)->0)),
{
}

/// Every choice closes the menu, but for one that turns to another level of it, which
/// keeps what it is for. New folders and files are made in the pane of the menu.
pub proof fn law_choices_close_the_menu(
    s: ShuffleView,
    m: ContextView,
    c: MenuCommand,
    level: MenuView,
    apps: Seq<Seq<char>>,
)
    requires
        s.menu == Some(m),
    ensures
        !(c is Level) ==> s.chose(c, apps).0.menu is None,
        s.chose(MenuCommand::Level(level), apps).0.menu matches Some(n) && n.level == level
            && n.target == m.target && n.pane == m.pane,
        s.chose(MenuCommand::NewFolder, apps).1 == ChoiceView::Act(
            (DeedView::NewFolder { pane: m.pane }),
        ),
        s.chose(MenuCommand::NewFile, apps).1 == ChoiceView::Act(
            (DeedView::NewFile { pane: m.pane }),
        ),
{
}

/// Adding a bookmark marks the item and saves the bookmarks, unless it was marked; taking
/// it away undoes that.
pub proof fn law_bookmark_choices(
    s: ShuffleView,
    m: ContextView,
    path: Seq<char>,
    is_dir: bool,
    apps: Seq<Seq<char>>,
)
    requires
        s.menu == Some(m),
        m.target == Some((path, is_dir)),
    ensures
        !holds_place(s.side.bookmarks, path) ==> s.chose(MenuCommand::AddBookmark, apps).1
            is SaveBookmarks && s.chose(MenuCommand::AddBookmark, apps).0.side.bookmarks
            == s.side.bookmarks.push(path),
        holds_place(s.side.bookmarks, path) ==> s.chose(MenuCommand::AddBookmark, apps).0.side
            == s.side,
        holds_place(s.side.bookmarks, path) ==> s.chose(MenuCommand::RemoveBookmark, apps).1
            is SaveBookmarks,
{
}

// ----- settings ------------------------------------------------------------------------

/// A typed color replaces the one that it was typed for, and no other one.
pub proof fn law_typed_color_is_used(
    s: SettingsView,
    ks: KeystrokeView,
    t: Theme,
    target: ColorTarget,
    c: u32,
)
    requires
        ks.key == "enter"@,
        s.color_edit == Some((target, hex6_of(c as nat))),
        c < 0x100_0000,
    ensures
        s.hex_key(ks, t).0.color_edit is None,
        target is Bg ==> s.hex_key(ks, t).1 == SettingsStepView::UseTheme((Theme { bg: c, ..t })),
        target is Text ==> s.hex_key(ks, t).1 == SettingsStepView::UseTheme(
            (Theme { text: c, ..t }),
        ),
        target is Hover ==> s.hex_key(ks, t).1 == SettingsStepView::UseTheme(
            (Theme { hover: c, ..t }),
        ),
{
    lemma_key_names();
    law_hex6_reads_back(c);
}

/// Of what is typed for a color, the digits of base sixteen count, in lower case, up to
/// six of them.
pub proof fn law_color_digits(s: Seq<char>, c: char)
    ensures
        s.len() < 6 && ('0' <= c <= '9' || 'a' <= c <= 'f') ==> with_hex(s, seq![c]) == s.push(c),
        s.len() < 6 && 'A' <= c <= 'F' ==> with_hex(s, seq![c]) == s.push(
            (c as u32 + 32) as char,
        ),
        s.len() >= 6 || !('0' <= c <= '9' || 'a' <= c <= 'f' || 'A' <= c <= 'F') ==> with_hex(
            s,
            seq![c],
        ) == s,
{
    reveal_with_fuel(with_hex, 2);
    assert(seq![c].drop_last() =~= Seq::empty());
}

/// A recorded key stroke is bound to the action that it was recorded for, and leaves the
/// others as they were. Escape changes nothing, and the delete keys unbind the action.
pub proof fn law_recorded_strokes_are_bound(
    s: SettingsView,
    ks: KeystrokeView,
    binds: Seq<Option<Seq<char>>>,
    a: KeyAction,
    other: KeyAction,
)
    requires
        s.recording == Some(a),
        s.color_edit is None,
        binds.len() == ACTION_COUNT,
    ensures
        ({
            let (r, step) = s.keybind_key(ks, binds);
            &&& ks.key == "escape"@ ==> step is Redraw && r.recording is None
            &&& ks.key == "backspace"@ || ks.key == "delete"@ ==> r.recording is None && (step
                matches SettingsStepView::UseKeymap(m) && m[action_id(a)] is None)
            &&& step matches SettingsStepView::UseKeymap(m) ==> r.recording is None && m.len()
                == binds.len() && (other != a ==> m[action_id(other)] == binds[action_id(other)])
            &&& ks.key == "k"@ ==> (step matches SettingsStepView::UseKeymap(m) && m[action_id(a)]
                == Some(ks.canonical()))
            &&& ks.key == "shift"@ || ks.key == "cmd"@ || ks.key == "alt"@ || ks.key == "ctrl"@
                || ks.key == "function"@ ==> step is Idle && r == s
        }),
{
    lemma_key_names();
    lemma_action_id(a);
    lemma_action_id(other);
    lemma_modifier_names();
}

proof fn lemma_modifier_names()
    ensures
        key_named("cmd"@) == Key::Other,
        key_named("ctrl"@) == Key::Other,
        key_named("alt"@) == Key::Other,
        key_named("shift"@) == Key::Other,
        key_named("function"@) == Key::Other,
        !is_lone_modifier("k"@),
{
    reveal_strlit("cmd");
    reveal_strlit("ctrl");
    reveal_strlit("alt");
    reveal_strlit("shift");
    reveal_strlit("function");
    reveal_strlit("escape");
    reveal_strlit("enter");
    reveal_strlit("left");
    reveal_strlit("right");
    reveal_strlit("up");
    reveal_strlit("down");
    reveal_strlit("tab");
    reveal_strlit("backspace");
    reveal_strlit("delete");
    reveal_strlit("a");
    reveal_strlit("c");
    reveal_strlit("k");
    reveal_strlit("p");
    reveal_strlit("v");
    reveal_strlit("x");
    assert("cmd"@.len() == 3 && "cmd"@[0] == 'c');
    assert("ctrl"@.len() == 4 && "ctrl"@[0] == 'c');
    assert("alt"@.len() == 3 && "alt"@[0] == 'a');
    assert("shift"@.len() == 5 && "shift"@[0] == 's');
    assert("function"@.len() == 8 && "function"@[0] == 'f');
    assert("escape"@.len() == 6);
    assert("enter"@.len() == 5 && "enter"@[0] == 'e');
    assert("left"@.len() == 4 && "left"@[0] == 'l');
    assert("right"@.len() == 5 && "right"@[0] == 'r');
    assert("up"@.len() == 2);
    assert("down"@.len() == 4 && "down"@[0] == 'd');
    assert("tab"@.len() == 3 && "tab"@[0] == 't');
    assert("backspace"@.len() == 9);
    assert("delete"@.len() == 6);
    assert("a"@.len() == 1);
    assert("c"@.len() == 1);
    assert("k"@.len() == 1);
    assert("p"@.len() == 1);
    assert("v"@.len() == 1);
    assert("x"@.len() == 1);
}

/// The number of recent folders goes up and down by one between none and twelve, and the
/// opacity of menus by ten between none and a hundred percent.
pub proof fn law_steps_stay_in_range(p: Prefs, o: u8)
    requires
        p.recent_limit <= 12,
        o <= 100,
    ensures
        p.recent_limit < 12 ==> recents_stepped(p, true) == (Prefs {
            recent_limit: (p.recent_limit + 1) as usize,
            ..p
        }),
        p.recent_limit == 12 ==> recents_stepped(p, true) == p,
        p.recent_limit > 0 ==> recents_stepped(p, false) == (Prefs {
            recent_limit: (p.recent_limit - 1) as usize,
            ..p
        }),
        p.recent_limit == 0 ==> recents_stepped(p, false) == p,
        o <= 90 ==> opacity_stepped(o, true) == o + 10,
        o > 90 ==> opacity_stepped(o, true) == 100,
        o >= 10 ==> opacity_stepped(o, false) == o - 10,
        o < 10 ==> opacity_stepped(o, false) == 0,
{
}

/// The general settings show each switch as it stands, once, and the number of recent
/// folders.
pub proof fn law_switches_are_shown(
    p: Prefs,
    s: PrefSwitch,
    check: CheckView,
    version: Seq<char>,
    i: int,
    j: int,
)
    ensures
        ({
            let v = general_tab(p, check, version);
            &&& exists|k: int|
                0 <= k < v.len() && (#[trigger] v[k] matches GeneralRowView::Switch { switch, .. }
                    && switch == s)
            &&& 0 <= i < v.len() ==> (v[i] matches GeneralRowView::Switch { switch, on, .. } ==> on
                == switch_on(p, switch))
            &&& 0 <= i < j < v.len() && v[i] is Switch && v[j] is Switch ==> v[i]->switch
                != v[j]->switch
            &&& 0 <= i < v.len() ==> (v[i] matches GeneralRowView::Recents { value, .. } ==> value
                == if p.recent_limit == 0 {
                "Off"@
            } else {
                decimal_of(p.recent_limit as nat)
            })
        }),
{
    let v = general_tab(p, check, version);
    let k: int = match s {
        PrefSwitch::Terminal => 1,
        PrefSwitch::TermHistory => 2,
        PrefSwitch::Preview => 3,
        PrefSwitch::PreviewPages => 4,
        PrefSwitch::Info => 5,
        PrefSwitch::ShowParent => 6,
        PrefSwitch::PaletteHistory => 7,
        PrefSwitch::Groups => 8,
        PrefSwitch::ShowFps => 9,
    };
    assert(v[k] matches GeneralRowView::Switch { switch, .. } && switch == s);
}

/// The key bindings are shown one by one, each action with what it is bound to.
pub proof fn law_bindings_are_shown(
    binds: Seq<Option<Seq<char>>>,
    a: KeyAction,
    recording: Option<KeyAction>,
)
    requires
        binds.len() == ACTION_COUNT,
    ensures
        ({
            let r = keybind_tab(binds, recording)[action_id(a)];
            &&& r.action == a && r.label == action_label(a)
            &&& r.recording <==> recording == Some(a)
            &&& recording != Some(a) && binds[action_id(a)] is None ==> r.chip == "Unbound"@
            &&& recording != Some(a) ==> (binds[action_id(a)] matches Some(b) ==> r.chip == pretty(
                b,
            ))
            &&& r.dim <==> recording != Some(a) && binds[action_id(a)] is None
        }),
        keybind_tab(binds, recording).len() == ACTION_COUNT,
{
    lemma_action_id(a);
}

/// A key stroke is shown by its symbols: one for each modifier, and then its key.
pub proof fn law_strokes_are_shown(m: Seq<char>, rest: Seq<char>)
    requires
        !m.contains('-'),
    ensures
        pretty(m + seq!['-'] + rest) == modifier_symbol(m) + pretty(rest),
        pretty(m) == symbol_of(m),
        modifier_symbol("cmd"@) == "⌘"@,
        modifier_symbol("ctrl"@) == "⌃"@,
        modifier_symbol("alt"@) == "⌥"@,
        modifier_symbol("shift"@) == "⇧"@,
{
    let s = m + seq!['-'] + rest;
    let k = m.len() as int;
    assert(s[k] == '-');
    assert forall|j: int| 0 <= j < k implies #[trigger] s[j] != '-' by {
        assert(s[j] == m[j] && m.contains(m[j]));
    }
    lemma_until_at(s, '-', k);
    assert(s.take(k) =~= m);
    assert(s.skip(k + 1) =~= rest);
    let p = split_at_each(rest, '-');
    assert(p.len() > 0) by {
        assert(until(rest, '-') < rest.len() || p == seq![rest]);
    }
    let q = seq![m] + p;
    assert(split_at_each(s, '-') == q);
    assert(q.drop_last() =~= seq![m] + p.drop_last());
    assert(q.last() == p.last());
    lemma_symbols_joined(m, p.drop_last());
    let (a, b, c) = (modifier_symbol(m), modifier_symbols(p.drop_last()), symbol_of(p.last()));
    assert(a + b + c =~= a + (b + c));
    lemma_until(m, '-');
    assert(split_at_each(m, '-') == seq![m]);
    assert(seq![m].drop_last() =~= Seq::empty());
    assert(modifier_symbols(seq![m].drop_last()) + symbol_of(m) =~= symbol_of(m));
    reveal_strlit("cmd");
    reveal_strlit("ctrl");
    reveal_strlit("alt");
    reveal_strlit("shift");
    assert("cmd"@.len() == 3 && "cmd"@[0] == 'c');
    assert("ctrl"@.len() == 4);
    assert("alt"@.len() == 3 && "alt"@[0] == 'a');
    assert("shift"@.len() == 5);
}

proof fn lemma_symbols_joined(m: Seq<char>, ms: Seq<Seq<char>>)
    ensures
        modifier_symbols(seq![m] + ms) == modifier_symbol(m) + modifier_symbols(ms),
    decreases ms.len(),
{
    let all = seq![m] + ms;
    if ms.len() == 0 {
        assert(all.drop_last() =~= Seq::empty());
        assert(modifier_symbols(Seq::empty()) + modifier_symbol(m) =~= modifier_symbol(m)
            + modifier_symbols(ms));
    } else {
        lemma_symbols_joined(m, ms.drop_last());
        assert(all.drop_last() =~= seq![m] + ms.drop_last());
        let (a, b, c) = (
            modifier_symbol(m),
            modifier_symbols(ms.drop_last()),
            modifier_symbol(ms.last()),
        );
        assert(a + b + c =~= a + (b + c));
    }
}

/// Of the colors and themes offered, those are marked that are in use.
pub proof fn law_used_colors_are_marked(palette: Seq<u32>, current: Option<u32>, t: Theme, i: int)
    ensures
        0 <= i < palette.len() ==> swatches(palette, current)[i] == (
            palette[i],
            current == Some(palette[i]),
        ),
        swatches(palette, current).len() == palette.len(),
        preset_cards(t).len() == preset_list().len(),
        0 <= i < preset_list().len() ==> preset_cards(t)[i] == (
            preset_list()[i].0,
            preset_list()[i].1,
            preset_list()[i].1 == t,
        ),
{
}

/// Before one item goes to the trash it is asked for by name, before several by their
/// number.
pub proof fn law_trash_is_asked_for(paths: Seq<Seq<char>>, p: Seq<char>)
    ensures
        trash_question(seq![p]) == "Move “"@ + label_of(p) + "” to the Trash?"@,
        paths.len() > 1 ==> trash_question(paths) == "Move "@ + decimal_of(paths.len())
            + " items to the Trash?"@,
{
}

/// A color is shown as it is typed while it is typed, and else as it is.
pub proof fn law_colors_are_shown(
    edit: Option<(ColorTarget, Seq<char>)>,
    target: ColorTarget,
    c: u32,
    typed: Seq<char>,
)
    ensures
        hex_text(Some((target, typed)), target, c) == "#"@ + typed + "\u{2502}"@,
        hex_text(None, target, c) == "#"@ + hex6_of(c as nat),
        (edit matches Some(e) ==> e.0 != target) ==> hex_text(edit, target, c) == "#"@ + hex6_of(
            c as nat,
        ),
{
}

/// A service gets the folder itself, or the folder that a file lies in.
pub proof fn law_services_get_a_folder(path: Seq<char>)
    ensures
        service_dir(path, true) == path,
        parent_of(path) matches Some(p) ==> service_dir(path, false) == p,
{
}

} // verus!
