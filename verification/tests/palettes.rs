use shuffle::keymap::{Keymap, Keystroke};
use shuffle::listing::Entry;
use shuffle::palette::{
    default_commands, Action, Palette, PaletteAction, PaletteMode, PalettePlan, SearchScope,
};
use shuffle::palette_keys::PaletteStep;
use shuffle::panels::ResultIcon;

fn key(name: &str) -> Keystroke {
    Keystroke {
        platform: false,
        control: false,
        alt: false,
        shift: false,
        key: name.to_string(),
        key_char: None,
        clipboard: None,
    }
}

fn typing(c: &str) -> Keystroke {
    Keystroke { key_char: Some(c.to_string()), ..key(c) }
}

fn cmd(name: &str) -> Keystroke {
    Keystroke { platform: true, ..key(name) }
}

fn strings(v: &[&str]) -> Vec<String> {
    v.iter().map(|s| s.to_string()).collect()
}

fn rows(names: &[(&str, bool)]) -> Vec<Entry> {
    names.iter().map(|(n, d)| Entry::quick(n.to_string(), *d)).collect()
}

fn open(mode: PaletteMode, query: &str) -> Palette {
    let mut p = Palette::new(vec![]);
    p.open_in(mode);
    p.query.insert(query);
    p
}

fn titles(p: &Palette) -> Vec<&str> {
    p.items.iter().map(|i| i.title.as_str()).collect()
}

#[test]
fn an_empty_query_offers_commands() {
    let mut p = open(PaletteMode::Search(SearchScope::Global), "  ");
    let plan = p.refresh("/a", &vec![], false, "/Users/me");
    assert!(matches!(plan, PalettePlan::Shown));
    assert_eq!(titles(&p), ["Copy current directory"]);
    assert_eq!(p.items[0].subtitle, "/a");
    assert_eq!(default_commands("/a").len(), 1);
}

#[test]
fn a_path_is_listed() {
    let mut p = open(PaletteMode::Commands, "~/Do");
    let plan = p.refresh("/a", &vec![], false, "/Users/me");
    match plan {
        PalettePlan::List { base, partial } => {
            assert_eq!(base, "/Users/me");
            assert_eq!(partial, "Do");
        }
        _ => panic!("a path is listed"),
    }
    let names = vec![("Music".to_string(), true), ("Documents".to_string(), true)];
    p.show_listed("/Users/me", "Do", true, &names);
    assert_eq!(titles(&p), ["Documents", "Music"]);
    assert!(matches!(p.items[0].action, Action::Open(ref q, true) if q == "/Users/me/Documents"));
    p.show_listed("/nowhere", "", false, &vec![]);
    assert_eq!(titles(&p), ["Path not found"]);
}

#[test]
fn the_current_folder_is_searched_at_once() {
    let mut p = open(PaletteMode::Search(SearchScope::CurrentFolder), "alp");
    let entries = rows(&[("beta", true), ("alpha.txt", false)]);
    assert!(matches!(p.refresh("/a", &entries, false, "/h"), PalettePlan::Shown));
    assert_eq!(titles(&p), ["alpha.txt"]);
}

#[test]
fn a_missing_index_is_announced() {
    let mut p = open(PaletteMode::Search(SearchScope::Recursive), "x");
    assert!(matches!(p.refresh("/a", &vec![], false, "/h"), PalettePlan::Shown));
    assert_eq!(titles(&p), ["Indexing current folder…"]);
    assert!(matches!(p.items[0].action, Action::Inert));
}

#[test]
fn late_results_are_dropped() {
    let mut p = open(PaletteMode::Search(SearchScope::Recursive), "x");
    let first = match p.refresh("/a", &vec![], true, "/h") {
        PalettePlan::Recursive { gen, query, root } => {
            assert_eq!((query.as_str(), root.as_str()), ("x", "/a"));
            gen
        }
        _ => panic!("the index is searched"),
    };
    assert!(p.wants_recursive(first, "/a", "/a/"));
    let second = match p.refresh("/a", &vec![], true, "/h") {
        PalettePlan::Recursive { gen, .. } => gen,
        _ => panic!("the index is searched"),
    };
    assert_ne!(first, second);
    let hit = vec![("x.txt".to_string(), "/a/x.txt".to_string(), false)];
    p.show_below(first, "/a", "/a", hit);
    assert!(p.items.is_empty());
    let hit = vec![("x.txt".to_string(), "/a/x.txt".to_string(), false)];
    p.show_below(second, "/a", "/a", hit);
    assert_eq!(titles(&p), ["x.txt"]);
}

#[test]
fn global_results_stand_behind_commands() {
    let mut p = open(PaletteMode::Search(SearchScope::Global), "settings");
    let gen = match p.refresh("/a", &vec![], false, "/h") {
        PalettePlan::Global { gen, query } => {
            assert_eq!(query, "settings");
            gen
        }
        _ => panic!("everything is searched"),
    };
    assert_eq!(titles(&p), ["Settings"]);
    let hit = vec![("settings.json".to_string(), "/s/settings.json".to_string(), false)];
    p.show_anywhere(gen, "settings", hit);
    assert_eq!(titles(&p), ["Settings", "settings.json"]);
}

#[test]
fn the_history_is_walked() {
    let mut p = Palette::new(strings(&["one", "two"]));
    p.open_in(PaletteMode::Search(SearchScope::Global));
    assert!(p.palette_history_prev());
    assert_eq!(p.query.text, "two");
    assert!(p.palette_history_prev());
    assert_eq!(p.query.text, "one");
    assert!(p.palette_history_next());
    assert_eq!(p.query.text, "two");
    assert!(p.palette_history_next());
    assert_eq!(p.query.text, "");
    assert!(!p.palette_history_next());
}

#[test]
fn the_history_is_bounded() {
    let mut p = Palette::new((0..60).map(|i| format!("q{i}")).collect());
    p.open_in(PaletteMode::Search(SearchScope::Global));
    p.query.insert("q7");
    p.record_palette_history(true);
    assert_eq!(p.hist.len(), 50);
    assert_eq!(p.hist.last().unwrap(), "q7");
    let before = p.hist.clone();
    assert!(!p.record_palette_history(false));
    assert_eq!(p.hist, before);
}

#[test]
fn selecting_and_activating() {
    let mut p = open(PaletteMode::Search(SearchScope::CurrentFolder), "a");
    let entries = rows(&[("a", true), ("ab.txt", false)]);
    p.refresh("/d", &entries, false, "/h");
    assert_eq!(titles(&p), ["a", "ab.txt"]);
    p.move_selection(5);
    assert_eq!(p.selected, 1);
    p.move_selection(-9);
    assert_eq!(p.selected, 0);
    match p.activate_selection(false) {
        PaletteStep::Activate { action: Action::Open(path, is_dir), saved } => {
            assert_eq!(path, "/d/a");
            assert!(is_dir);
            assert!(!saved);
        }
        _ => panic!("a folder is opened"),
    }
    assert!(!p.open);
}

#[test]
fn further_actions_depend_on_the_result() {
    let mut p = open(PaletteMode::Search(SearchScope::CurrentFolder), "a");
    p.refresh("/d", &rows(&[("a.txt", false)]), false, "/h");
    let acts = p.palette_action_list();
    assert_eq!(acts.len(), 5);
    assert_eq!(acts[1].0, PaletteAction::RevealShuffle);
    match p.run_palette_action(PaletteAction::CopyPath, false) {
        PaletteStep::Run { act, path, is_dir, .. } => {
            assert_eq!(act, PaletteAction::CopyPath);
            assert_eq!(path, "/d/a.txt");
            assert!(!is_dir);
        }
        _ => panic!("the action runs"),
    }
}

#[test]
fn keys_type_into_the_query() {
    let km = Keymap::defaults();
    let mut p = open(PaletteMode::Search(SearchScope::Global), "");
    assert!(matches!(p.handle_palette_key(&typing("x"), &km, false), PaletteStep::Refresh));
    assert_eq!(p.query.text, "x");
    assert!(matches!(p.handle_palette_key(&key("backspace"), &km, false), PaletteStep::Refresh));
    assert_eq!(p.query.text, "");
    assert!(matches!(p.handle_palette_key(&key("f5"), &km, false), PaletteStep::Idle));
}

#[test]
fn escape_closes_the_panel_before_the_palette() {
    let km = Keymap::defaults();
    let mut p = open(PaletteMode::Search(SearchScope::CurrentFolder), "a");
    p.refresh("/d", &rows(&[("a.txt", false)]), false, "/h");
    p.handle_palette_key(&cmd("k"), &km, false);
    assert_eq!(p.actions, Some(0));
    p.handle_palette_key(&key("down"), &km, false);
    assert_eq!(p.actions, Some(1));
    p.handle_palette_key(&key("escape"), &km, false);
    assert_eq!(p.actions, None);
    assert!(p.open);
    p.handle_palette_key(&key("escape"), &km, false);
    assert!(!p.open);
}

#[test]
fn a_drawn_palette() {
    let mut p = open(PaletteMode::Search(SearchScope::CurrentFolder), "a");
    p.refresh("/d", &rows(&[("a", true), ("ab.txt", false)]), false, "/h");
    let s = p.render_palette();
    assert_eq!(s.glyph, "🔍");
    assert_eq!(s.hint, "Search direct children of the current folder…");
    let q = s.query.unwrap();
    assert_eq!((q.head.as_str(), q.tail.as_str(), q.caret), ("a", "", true));
    assert_eq!(s.scopes.len(), 3);
    assert!(s.scopes[0].2 && !s.scopes[1].2);
    assert_eq!(s.visible, 2);
    assert_eq!(s.results[0].icon, ResultIcon::Folder);
    assert!(s.results[0].selected && !s.results[1].selected);
    assert_eq!(s.results[1].icon, ResultIcon::File);
    assert_eq!(s.keys[0].1, "Open folder");
    assert_eq!(s.keys[1].0, "⌘K");
    assert!(s.actions.is_empty());
    p.actions = Some(9);
    let acts = p.render_palette().actions;
    assert_eq!(acts.len(), 4);
    assert!(acts[3].1 && !acts[0].1);
}

#[test]
fn a_drawn_palette_of_commands() {
    let mut p = open(PaletteMode::Commands, "");
    p.refresh("/d", &vec![], false, "/h");
    let s = p.render_palette();
    assert_eq!(s.glyph, "›");
    assert!(s.query.is_none());
    assert!(s.scopes.is_empty());
    assert_eq!(s.keys.len(), 3);
    assert_eq!(s.keys[0], ("↩".to_string(), "Run".to_string()));
    assert_eq!(s.results[0].icon, ResultIcon::Folder);
}
