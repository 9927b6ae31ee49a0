use shuffle::keymap::{KeyAction, Keymap, Keystroke};
use shuffle::listing::{Entry, SortKey, Stamp};
use shuffle::menus::MenuView;
use shuffle::palette::{PaletteMode, SearchScope};
use shuffle::prefs::{load_prefs, Prefs};
use shuffle::shuffle::{Deed, NameFault, Saved, Shuffle};
use shuffle::tabs::ViewMode;
use shuffle::workspace::SplitChange;

const HOME: &str = "/Users/me";

fn key(name: &str) -> Keystroke {
    Keystroke {
        platform: false,
        control: false,
        alt: false,
        shift: false,
        key: name.to_string(),
        key_char: None,
        clipboard: None,
    }
}

fn typing(c: &str) -> Keystroke {
    Keystroke { key_char: Some(c.to_string()), ..key(c) }
}

fn cmd(name: &str) -> Keystroke {
    Keystroke { platform: true, ..key(name) }
}

fn strings(v: &[&str]) -> Vec<String> {
    v.iter().map(|s| s.to_string()).collect()
}

fn rows() -> Vec<Entry> {
    [("docs", true), ("a.txt", false), ("b.pdf", false)]
        .iter()
        .map(|(n, d)| Entry::quick(n.to_string(), *d))
        .collect()
}

fn window() -> Shuffle {
    let saved = Saved {
        groups: "[Work]\n/w\n".to_string(),
        folded: "Recents\n".to_string(),
        servers: "smb://x\n".to_string(),
        history: "old\n".to_string(),
    };
    Shuffle::new("/a", rows(), strings(&["/r"]), vec![], vec![], &saved)
}

fn press(s: &mut Shuffle, ks: &Keystroke) -> Deed {
    s.on_key(ks, &Keymap::defaults(), &load_prefs(""), HOME).deed
}

fn prefs(text: &str) -> Prefs {
    load_prefs(text)
}

#[test]
fn a_window_opens_with_what_was_saved() {
    let s = window();
    assert_eq!(s.side.groups[0].name, "Work");
    assert_eq!(s.side.folded, strings(&["Recents"]));
    assert_eq!(s.side.servers, strings(&["smb://x"]));
    assert_eq!(s.palette.hist, strings(&["old"]));
    assert_eq!(s.work.active_tab().dir, "/a");
    assert!(!s.palette.open);
}

#[test]
fn going_to_a_folder_and_back() {
    let mut s = window();
    assert!(!s.navigate_in(0, "/a/", true));
    assert!(!s.navigate_in(0, "/x", false));
    assert!(s.navigate_in(0, "/a/docs", true));
    assert_eq!(s.side.recents, strings(&["/a/docs", "/r"]));
    assert_eq!(s.go_back(0), Some("/a".to_string()));
    assert_eq!(s.work.active_tab().dir, "/a");
    assert_eq!(s.go_back(0), None);
    assert_eq!(s.go_forward(0), Some("/a/docs".to_string()));
    assert_eq!(s.go_forward(0), None);
}

#[test]
fn late_listings_are_dropped() {
    let mut s = window();
    let stamp = Some(Stamp { secs: 5, nanos: 0 });
    let first = s.begin_load(0, stamp, rows());
    let second = s.begin_load(0, stamp, rows());
    assert_ne!(first, second);
    assert!(!s.finish_load(0, first, "/a", vec![]));
    assert_eq!(s.work.active_tab().entries.len(), 3);
    assert!(!s.finish_load(0, second, "/b", vec![]));
    assert!(!s.finish_load(7, second, "/a", vec![]));
    assert!(s.finish_load(0, second, "/a/", vec![]));
    assert!(s.work.active_tab().entries.is_empty());
}

#[test]
fn a_changed_folder_is_read_again() {
    let mut s = window();
    let t = |secs| Some(Stamp { secs, nanos: 0 });
    assert!(!s.watch(0, "/a", t(1)));
    assert!(!s.watch(0, "/a", t(1)));
    assert!(s.watch(0, "/a", t(2)));
    assert!(!s.watch(0, "/elsewhere", t(3)));
    assert!(!s.watch(0, "/a", None));
    assert!(!s.watch(3, "/a", t(9)));
}

#[test]
fn clicks_select_and_open() {
    let mut s = window();
    assert!(matches!(s.click_entry(0, "/a/docs", true, false, false, 1), Deed::Visit { .. }));
    assert!(matches!(s.click_entry(0, "/a/a.txt", false, false, false, 1), Deed::Look { .. }));
    assert_eq!(s.work.active_tab().selection, strings(&["/a/a.txt"]));
    assert!(matches!(s.click_entry(0, "/a/a.txt", false, false, false, 2), Deed::OpenFile(_)));
    assert!(matches!(s.click_entry(0, "/a/b.pdf", false, true, false, 1), Deed::Look { .. }));
    assert_eq!(s.work.active_tab().selection.len(), 2);
    assert!(matches!(s.click_entry(0, "/a/b.pdf", false, true, false, 1), Deed::Redraw));
    s.click_entry(0, "/a/docs", true, false, true, 1);
    assert_eq!(s.work.active_tab().selection.len(), 3);
}

#[test]
fn a_box_selects_what_it_covers() {
    let mut s = window();
    s.begin_marquee(0);
    assert!(s.work.active_tab().selection.is_empty());
    s.update_marquee(0, 1, 2, false);
    assert_eq!(s.work.active_tab().selection, strings(&["/a/a.txt", "/a/b.pdf"]));
    assert!(matches!(s.end_marquee(0), Deed::Look { ref path, .. } if path == "/a/b.pdf"));
    assert!(matches!(s.end_marquee(0), Deed::Redraw));
}

#[test]
fn columns_are_clicked() {
    let mut s = window();
    assert!(matches!(s.column_click(0, 0, "/a/docs", true, 1), Deed::Redraw));
    assert_eq!(s.work.active_tab().col_chain, strings(&["/a/docs"]));
    assert!(matches!(s.column_click(0, 0, "/a/docs", true, 2), Deed::Visit { .. }));
    assert!(matches!(s.column_click(0, 0, "/a/a.txt", false, 1), Deed::Look { .. }));
    assert!(s.work.active_tab().col_chain.is_empty());
    assert!(matches!(s.column_click(0, 0, "/a/a.txt", false, 2), Deed::OpenFile(_)));
}

#[test]
fn arrows_scroll_along() {
    let mut s = window();
    let none = vec![];
    assert_eq!(s.arrow_move(0, 0, 1, 4, &none, true), (Some("/a/docs".to_string()), Some(1)));
    assert_eq!(s.arrow_move(0, 0, 1, 4, &none, true), (Some("/a/a.txt".to_string()), Some(2)));
    assert_eq!(s.arrow_move(0, 1, 0, 4, &none, true), (None, None));
    s.set_view(0, ViewMode::Icons);
    assert_eq!(s.arrow_move(0, 1, 0, 2, &none, true), (Some("/a/b.pdf".to_string()), Some(1)));
    s.set_view(0, ViewMode::Columns);
    assert_eq!(s.arrow_move(0, 1, 0, 2, &none, true), (None, None));
}

#[test]
fn the_gallery_starts_with_a_file() {
    let mut s = window();
    assert_eq!(s.set_view(0, ViewMode::Gallery), Some("/a/a.txt".to_string()));
    assert_eq!(s.work.active_tab().anchor, Some("/a/a.txt".to_string()));
    assert_eq!(s.set_view(0, ViewMode::List), None);
}

#[test]
fn revealing_scrolls_to_the_item() {
    let mut s = window();
    assert_eq!(s.reveal_in_pane(0, "/a/b.pdf", 2, true), Some(3));
    assert_eq!(s.work.active_tab().anchor, Some("/a/b.pdf".to_string()));
    assert_eq!(s.reveal_in_pane(0, "/a/new", 2, true), None);
    assert_eq!(s.work.active_tab().selection, strings(&["/a/new"]));
}

#[test]
fn sorting_a_pane() {
    let mut s = window();
    s.set_sort(0, SortKey::Name);
    assert_eq!(s.work.active_tab().entries[0].name, "a.txt");
}

#[test]
fn a_name_is_edited_and_committed() {
    let mut s = window();
    s.begin_rename(0, "/a/a.txt");
    assert!(matches!(press(&mut s, &typing("z")), Deed::Redraw));
    assert_eq!(s.rename.as_ref().unwrap().field.text, "z");
    assert!(matches!(press(&mut s, &key("enter")), Deed::CommitRename));
    match s.commit_rename(false) {
        Deed::Rename { pane, from, to } => {
            assert_eq!((pane, from.as_str(), to.as_str()), (0, "/a/a.txt", "/a/z"));
        }
        _ => panic!("the file is renamed"),
    }
    assert!(s.rename.is_none());
}

#[test]
fn a_taken_name_is_refused() {
    let mut s = window();
    s.begin_rename(0, "/a/a.txt");
    press(&mut s, &typing("z"));
    assert!(matches!(s.commit_rename(true), Deed::Redraw));
    assert!(s.rename.is_some());
    assert_eq!(s.rename.as_ref().unwrap().rename_error(true), Some(NameFault::Taken));
}

#[test]
fn a_change_of_case_is_allowed() {
    let mut s = window();
    s.begin_rename(0, "/a/a.txt");
    for c in ["A", ".", "t", "x", "t"] {
        press(&mut s, &typing(c));
    }
    assert!(matches!(s.commit_rename(true), Deed::Rename { ref to, .. } if to == "/a/A.txt"));
}

#[test]
fn faults_of_names() {
    let mut s = window();
    let long = "x".repeat(256);
    for (name, fault) in [
        ("a/b", Some(NameFault::Slash)),
        ("a:b", Some(NameFault::Colon)),
        ("..", Some(NameFault::Reserved)),
        (".", Some(NameFault::Reserved)),
        (long.as_str(), Some(NameFault::TooLong)),
        ("  ", None),
        ("fine", None),
    ] {
        s.begin_rename(0, "/a/a.txt");
        let r = s.rename.as_mut().unwrap();
        r.field.select_all();
        r.field.insert(name);
        assert_eq!(r.rename_error(false), fault);
    }
    assert_eq!(NameFault::Slash.message(), "Names can’t contain “/”");
    assert_eq!(NameFault::Taken.message(), "Another item here already has this name");
}

#[test]
fn an_empty_name_cancels() {
    let mut s = window();
    s.begin_rename(0, "/a/a.txt");
    press(&mut s, &key("backspace"));
    assert!(matches!(s.commit_rename(false), Deed::Redraw));
    assert!(s.rename.is_none());
}

#[test]
fn a_renamed_item_stays_selected() {
    let mut s = window();
    s.select_entry(0, "/a/a.txt");
    s.renamed(0, "/a/a.txt", "/a/z");
    assert_eq!(s.work.active_tab().selection, strings(&["/a/z"]));
    assert_eq!(s.work.active_tab().anchor, Some("/a/z".to_string()));
    s.renamed(0, "/other", "/new");
    assert_eq!(s.work.active_tab().selection, strings(&["/a/z"]));
}

#[test]
fn the_trash_is_confirmed() {
    let mut s = window();
    assert!(matches!(press(&mut s, &key("delete")), Deed::Idle));
    s.select_entry(0, "/a/b.pdf");
    s.toggle_entry(0, "/a/a.txt");
    assert!(matches!(press(&mut s, &key("backspace")), Deed::Redraw));
    assert!(matches!(press(&mut s, &typing("x")), Deed::Idle));
    match press(&mut s, &key("enter")) {
        Deed::Trash { pane, paths } => {
            assert_eq!(pane, 0);
            assert_eq!(paths, strings(&["/a/a.txt", "/a/b.pdf"]));
        }
        _ => panic!("the files are moved"),
    }
    assert!(s.confirm.is_none());
    assert!(s.work.active_tab().selection.is_empty());
}

#[test]
fn escape_keeps_the_files() {
    let mut s = window();
    s.select_entry(0, "/a/b.pdf");
    press(&mut s, &key("delete"));
    assert!(matches!(press(&mut s, &key("escape")), Deed::Redraw));
    assert!(s.confirm.is_none());
    assert_eq!(s.work.active_tab().selection.len(), 1);
}

#[test]
fn the_path_bar_is_typed_into() {
    let mut s = window();
    s.begin_path_edit(0);
    assert_eq!(s.work.active_tab().editing.as_ref().unwrap().text, "/a");
    press(&mut s, &cmd("a"));
    press(&mut s, &typing("~"));
    assert!(matches!(press(&mut s, &key("enter")), Deed::Visit { ref path, .. } if path == HOME));
    assert!(s.work.active_tab().editing.is_none());
}

#[test]
fn the_find_bar_opens_the_best_match() {
    let mut s = window();
    s.work.tab_mut(0).find = Some(shuffle::field::Field::empty());
    s.work.tab_mut(0).recompute_find();
    press(&mut s, &typing("b"));
    assert!(matches!(press(&mut s, &key("enter")), Deed::OpenFile(ref p) if p == "/a/b.pdf"));
    assert!(s.work.active_tab().find.is_none());
}

#[test]
fn dialogs_have_the_keys_first() {
    let mut s = window();
    s.server_dialog = Some(String::new());
    s.group_dialog = Some(String::new());
    assert!(matches!(press(&mut s, &key("enter")), Deed::Idle));
    press(&mut s, &typing("h"));
    assert_eq!(s.server_dialog.as_deref(), Some("h"));
    assert_eq!(s.group_dialog.as_deref(), Some(""));
    assert!(matches!(press(&mut s, &key("enter")), Deed::OpenUrl(ref u) if u == "smb://h"));
    assert!(s.server_dialog.is_none());
    press(&mut s, &typing("G"));
    assert!(matches!(press(&mut s, &key("enter")), Deed::SaveGroups));
    assert_eq!(s.side.groups[1].name, "G");
}

#[test]
fn the_command_bar_takes_keys_while_it_is_on() {
    let mut s = window();
    s.term.focused = true;
    let km = Keymap::defaults();
    let on = prefs("terminal=true");
    s.on_key(&typing("x"), &km, &on, HOME);
    assert_eq!(s.term.input, "x");
    assert!(matches!(s.on_key(&key("tab"), &km, &on, HOME).deed, Deed::Complete));
    assert!(matches!(s.on_key(&key("enter"), &km, &on, HOME).deed, Deed::RunShell { ref command, .. } if command == "x"));
    assert!(matches!(s.on_key(&cmd("p"), &km, &on, HOME).deed, Deed::RefreshPalette));
    assert!(!s.term.focused);
}

#[test]
fn bound_keys_act() {
    let mut s = window();
    assert!(matches!(press(&mut s, &cmd("t")), Deed::NewTab { pane: 0 }));
    assert!(matches!(press(&mut s, &cmd("w")), Deed::Split(SplitChange::Same)));
    press(&mut s, &cmd("a"));
    assert_eq!(s.work.active_tab().selection.len(), 3);
    assert!(matches!(press(&mut s, &key("/")), Deed::RefreshPalette));
    assert!(s.palette.open);
    assert!(matches!(press(&mut s, &cmd("t")), Deed::Idle));
    assert!(matches!(press(&mut s, &cmd("p")), Deed::Redraw));
    assert!(!s.palette.open);
}

#[test]
fn actions_need_a_focused_item() {
    let mut s = window();
    assert!(matches!(s.run_key_action(KeyAction::Duplicate), Deed::Idle));
    s.select_entry(0, "/a/a.txt");
    assert!(matches!(s.run_key_action(KeyAction::Duplicate), Deed::Duplicate { .. }));
    assert!(matches!(s.run_key_action(KeyAction::MakeAlias), Deed::MakeAlias { .. }));
    assert!(matches!(s.run_key_action(KeyAction::Compress), Deed::Compress { .. }));
    assert!(matches!(s.run_key_action(KeyAction::CopyPath), Deed::Clipboard(ref p) if p == "/a/a.txt"));
    assert!(matches!(s.run_key_action(KeyAction::RevealInFinder), Deed::Finder(_)));
    assert!(matches!(s.run_key_action(KeyAction::Open), Deed::OpenItem { .. }));
    assert!(matches!(s.run_key_action(KeyAction::NewFile), Deed::NewFile { .. }));
    assert!(matches!(s.run_key_action(KeyAction::NewFolder), Deed::NewFolder { .. }));
    assert!(matches!(s.run_key_action(KeyAction::Rename), Deed::Redraw));
    assert!(s.rename.is_some());
}

#[test]
fn enter_renames_what_the_mouse_is_over() {
    let mut s = window();
    s.hover_row(0, "/a/b.pdf", true);
    match press(&mut s, &key("enter")) {
        Deed::RenameHovered { pane, path } => {
            assert_eq!((pane, path.as_str()), (0, "/a/b.pdf"));
            s.rename_hovered(pane, &path, true);
        }
        _ => panic!("the row is renamed"),
    }
    assert_eq!(s.rename.as_ref().unwrap().path, "/a/b.pdf");
    s.rename = None;
    s.hover_row(0, "/elsewhere/x", true);
    assert!(matches!(press(&mut s, &key("enter")), Deed::Idle));
    s.hover_row(0, "/other", false);
    assert!(s.hovered.is_some());
    s.hover_row(0, "/elsewhere/x", false);
    assert!(s.hovered.is_none());
}

#[test]
fn a_stale_hover_renames_the_focused_item() {
    let mut s = window();
    s.select_entry(0, "/a/a.txt");
    s.rename_hovered(0, "/a/gone", false);
    assert_eq!(s.rename.as_ref().unwrap().path, "/a/a.txt");
}

#[test]
fn menus_open_and_close() {
    let mut s = window();
    s.open_context_menu(9, Some(("/a/a.txt".to_string(), false)));
    assert_eq!(s.menu.as_ref().unwrap().pane, 0);
    assert!(s.is_ctx_target("/a/a.txt"));
    s.set_menu_view(MenuView::Tags);
    assert_eq!(s.menu.as_ref().unwrap().level, MenuView::Tags);
    assert!(matches!(press(&mut s, &key("escape")), Deed::Redraw));
    assert!(!s.close_context_menu());
}

#[test]
fn an_index_is_built_once() {
    let mut s = window();
    s.open_palette(PaletteMode::Search(SearchScope::Global));
    assert_eq!(s.set_search_scope(SearchScope::Recursive), Some("/a".to_string()));
    assert_eq!(s.ensure_recursive_index(), None);
    assert_eq!(s.index_built("/other"), (false, false));
    assert_eq!(s.index_built("/a"), (true, true));
    assert_eq!(s.ensure_recursive_index(), None);
    assert_eq!(s.indexed.as_deref(), Some("/a"));
}

#[test]
fn drags_take_the_selection() {
    let mut s = window();
    s.select_entry(0, "/a/b.pdf");
    s.toggle_entry(0, "/a/a.txt");
    let t = s.work.tab(0);
    assert_eq!(t.drag_paths("/a/b.pdf"), strings(&["/a/a.txt", "/a/b.pdf"]));
    assert_eq!(t.drag_paths("/a/docs"), strings(&["/a/docs"]));
    assert_eq!(t.drop_row(0, true, true), Some(0));
    assert_eq!(t.drop_row(1, true, true), Some(1));
    assert_eq!(t.drop_row(2, true, true), None);
    assert_eq!(t.drop_row(1, false, true), None);
    assert_eq!(t.drop_row(99, true, true), None);
}

#[test]
fn edits_refresh_the_focused_item() {
    let mut s = window();
    s.select_entry(0, "/a/b.pdf");
    assert_eq!(s.refresh_after_edit(0, "/a/b.pdf"), (true, false));
    assert_eq!(s.refresh_after_edit(0, "/a/a.txt"), (false, false));
}

#[test]
fn keys_in_the_rename_field() {
    let mut s = window();
    s.begin_rename(0, "/a/a.txt");
    for k in [key("left"), key("right"), cmd("a"), cmd("c"), cmd("left"), cmd("right")] {
        s.handle_rename_key(&k);
        assert_eq!(s.rename.as_ref().unwrap().field.text, "a.txt");
        assert_eq!(s.rename.as_ref().unwrap().path, "/a/a.txt");
    }
    assert!(matches!(s.handle_rename_key(&key("enter")), Deed::CommitRename));
    s.handle_rename_key(&typing("x"));
    assert_eq!(s.rename.as_ref().unwrap().field.text, "a.txtx");
    assert!(matches!(s.handle_rename_key(&key("escape")), Deed::Redraw));
    assert!(s.rename.is_none());
}
