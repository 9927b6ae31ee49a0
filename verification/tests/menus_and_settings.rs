use shuffle::keymap::{KeyAction, Keymap, Keystroke};
use shuffle::listing::SortKey;
use shuffle::menus::{
    apps_for_file, confirm_delete_text, menu_add_to_group, menu_open_with, menu_quick_actions,
    menu_root, menu_services, menu_tags, render_context_menu, render_sidebar_menu,
    render_sort_menu, service_folder, MenuCommand, MenuEntry, MenuFacts, MenuView, SidebarTarget,
};
use shuffle::persist::Group;
use shuffle::prefs::{load_prefs, Prefs};
use shuffle::settings::{
    bg_rgba, color_row, hex_field, key_symbol, pretty_keystroke, render_customization,
    render_general, render_keybinds, set_color, step_opacity, step_recents, toggle_pref,
    ColorTarget, GeneralRow, PrefSwitch, Settings, SettingsStep,
};
use shuffle::sidebar::Sidebar;
use shuffle::theme::{dark_theme, presets};
use shuffle::update::UpdateCheck;

fn strings(v: &[&str]) -> Vec<String> {
    v.iter().map(|s| s.to_string()).collect()
}

fn side() -> Sidebar {
    Sidebar {
        recents: vec![],
        bookmarks: strings(&["/marked"]),
        favorites: vec![],
        groups: vec![Group { name: "Work".to_string(), paths: strings(&["/in"]) }],
        folded: vec![],
        servers: vec![],
    }
}

fn prefs() -> Prefs {
    load_prefs("groups_enabled=true")
}

fn labels(v: &[MenuEntry]) -> Vec<String> {
    v.iter()
        .map(|e| match e {
            MenuEntry::Separator => "-".to_string(),
            MenuEntry::Disabled { label } => format!("({label})"),
            MenuEntry::Item { label, .. } => label.clone(),
        })
        .collect()
}

fn key(name: &str) -> Keystroke {
    Keystroke {
        platform: false,
        control: false,
        alt: false,
        shift: false,
        key: name.to_string(),
        key_char: Some(name.to_string()),
        clipboard: None,
    }
}

#[test]
fn the_menu_of_empty_space_makes_things() {
    let m = menu_root(&None, &side(), &prefs());
    assert_eq!(labels(&m), ["New Folder", "New File"]);
}

#[test]
fn the_menu_of_a_target() {
    let m = labels(&menu_root(&Some(("/a/x.zip".to_string(), false)), &side(), &prefs()));
    assert!(m.contains(&"Extract Here".to_string()));
    assert!(m.contains(&"Add to Bookmarks".to_string()));
    assert!(m.contains(&"Add to Group".to_string()));
    assert!(!m.contains(&"Show Package Contents".to_string()));
    let m = labels(&menu_root(&Some(("/marked".to_string(), true)), &side(), &load_prefs("")));
    assert!(m.contains(&"Remove Bookmark".to_string()));
    assert!(!m.contains(&"Add to Group".to_string()));
    let m = labels(&menu_root(&Some(("/A.app".to_string(), true)), &side(), &prefs()));
    assert!(m.contains(&"Show Package Contents".to_string()));
}

#[test]
fn levels_lead_back() {
    let facts = MenuFacts { apps: strings(&["Preview"]), terminals: vec![], can_cut_out: true };
    let target = Some(("/a.png".to_string(), false));
    for level in [
        MenuView::OpenWith,
        MenuView::Tags,
        MenuView::QuickActions,
        MenuView::Services,
        MenuView::AddToGroup,
    ] {
        let m = render_context_menu(level, &target, &side(), &prefs(), &facts);
        assert!(matches!(
            m[0],
            MenuEntry::Item { command: MenuCommand::Level(MenuView::Root), .. }
        ));
    }
}

#[test]
fn levels_of_the_menu() {
    assert_eq!(labels(&menu_open_with(&strings(&["Preview"])))[2], "Preview");
    assert!(labels(&menu_quick_actions("/a.txt", true)).contains(&"(No quick actions)".to_string()));
    let img = labels(&menu_quick_actions("/a.png", false));
    assert!(img.contains(&"Rotate Left".to_string()));
    assert!(!img.contains(&"Remove Background".to_string()));
    assert!(labels(&menu_services("/a.txt", &vec![])).contains(&"(No services)".to_string()));
    assert!(labels(&menu_services("/a.txt", &strings(&["iTerm"]))).contains(&"Open in iTerm".to_string()));
    assert_eq!(menu_tags().len(), 2 + 8);
    assert_eq!(menu_add_to_group(&side(), "/x").len(), 3);
    assert_eq!(service_folder("/a/b.txt", false), "/a");
    assert_eq!(service_folder("/a/b", true), "/a/b");
}

#[test]
fn menus_of_the_sidebar() {
    assert_eq!(labels(&render_sidebar_menu(&SidebarTarget::Empty, true)), ["New Group"]);
    assert_eq!(labels(&render_sidebar_menu(&SidebarTarget::Empty, false)), ["(No actions)"]);
    let m = render_sidebar_menu(&SidebarTarget::GroupHeader(2), true);
    assert!(matches!(m[2], MenuEntry::Item { command: MenuCommand::DeleteGroup(2), .. }));
}

#[test]
fn the_sort_menu_marks_the_criterion() {
    let m = render_sort_menu(SortKey::Name, false);
    assert_eq!(m.len(), 6);
    assert_eq!((m[1].1.as_str(), m[1].2.as_str()), ("▼", "Name"));
    assert_eq!(m[0].1, " ");
    assert_eq!(render_sort_menu(SortKey::Standard, true)[0].1, "•");
}

#[test]
fn the_question_before_the_trash() {
    assert_eq!(confirm_delete_text(&strings(&["/a/b.txt"])), "Move “b.txt” to the Trash?");
    assert_eq!(confirm_delete_text(&strings(&["/a", "/b"])), "Move 2 items to the Trash?");
}

#[test]
fn applications_are_offered_once() {
    let apps = apps_for_file(&strings(&["/X/Zed.app", "/Y/alpha.app", "/Z/Zed.app"]));
    assert_eq!(apps.len(), 2);
    assert_eq!(apps[0], ("alpha".to_string(), "/Y/alpha.app".to_string()));
    assert_eq!(apps[1], ("Zed".to_string(), "/X/Zed.app".to_string()));
}

#[test]
fn colors_are_typed_in_digits() {
    let theme = dark_theme(0x101010, 0xffffff, 0x0a84ff);
    let km = Keymap::defaults();
    let mut s = Settings::new();
    s.edit_color(ColorTarget::Bg);
    for c in ["A", "b", "z", "1", "2", "3", "4", "5"] {
        assert!(!matches!(s.handle_settings_key(&key(c), &theme, &km), SettingsStep::UseTheme(_)));
    }
    match s.handle_settings_key(&key("enter"), &theme, &km) {
        SettingsStep::UseTheme(t) => assert_eq!(t.bg, 0xab1234),
        _ => panic!("the color is used"),
    }
    assert_eq!(set_color(&theme, ColorTarget::Hover, 7).hover, 7);
}

#[test]
fn bindings_are_recorded() {
    let theme = dark_theme(0x101010, 0xffffff, 0x0a84ff);
    let km = Keymap::defaults();
    let mut s = Settings::new();
    s.recording = Some(KeyAction::Rename);
    assert!(matches!(s.handle_settings_key(&key("shift"), &theme, &km), SettingsStep::Idle));
    let ks = Keystroke { platform: true, ..key("r") };
    match s.handle_settings_key(&ks, &theme, &km) {
        SettingsStep::UseKeymap(k) => assert_eq!(k.get(KeyAction::Rename), Some("cmd-r".to_string())),
        _ => panic!("the binding is used"),
    }
    assert_eq!(s.recording, None);
    s.recording = Some(KeyAction::NewTab);
    match s.handle_settings_key(&key("backspace"), &theme, &km) {
        SettingsStep::UseKeymap(k) => assert_eq!(k.get(KeyAction::NewTab), None),
        _ => panic!("the binding is taken away"),
    }
}

#[test]
fn key_strokes_in_symbols() {
    assert_eq!(pretty_keystroke("cmd-shift-p"), "⌘⇧P");
    assert_eq!(pretty_keystroke("ctrl-alt-enter"), "⌃⌥↩");
    assert_eq!(key_symbol("left"), "←");
}

#[test]
fn a_switch_turns_one_preference() {
    let p = load_prefs("");
    let q = toggle_pref(&p, PrefSwitch::Info);
    assert_eq!(q.info, !p.info);
    assert_eq!(toggle_pref(&q, PrefSwitch::Info), p);
    let mut r = p;
    for _ in 0..20 {
        r = step_recents(&r, true);
    }
    assert_eq!(r.recent_limit, 12);
    for _ in 0..20 {
        r = step_recents(&r, false);
    }
    assert_eq!(r.recent_limit, 0);
}

#[test]
fn the_general_tab() {
    let rows = render_general(&load_prefs("recent_limit=0"), &UpdateCheck::Idle, "0.2.0");
    let switches = rows.iter().filter(|r| matches!(r, GeneralRow::Switch { .. })).count();
    assert_eq!(switches, 9);
    assert!(rows.iter().any(|r| matches!(r, GeneralRow::Recents { value, .. } if value == "Off")));
    assert!(rows.iter().any(|r| matches!(r, GeneralRow::Updates { button: Some(b), .. } if b == "Check for Updates")));
}

#[test]
fn the_bindings_tab() {
    let rows = render_keybinds(&Keymap::defaults(), Some(KeyAction::NewTab));
    assert_eq!(rows.len(), 21);
    assert_eq!(rows[0].chip, "⌘P");
    assert!(rows[1].recording);
    assert!(!rows[0].recording);
}

#[test]
fn looks_are_customized() {
    let t = presets()[0].1;
    assert_eq!(step_opacity(100, true), 100);
    assert_eq!(step_opacity(100, false), 90);
    assert_eq!(step_opacity(3, false), 0);
    assert_eq!(step_opacity(95, true), 100);
    assert_eq!(bg_rgba(&t, 100), (t.surface << 8) | 0xff);
    assert_eq!(bg_rgba(&t, 0), t.surface << 8);
    assert_eq!(hex_field(&None, ColorTarget::Bg, 0xabc), "#000abc");
    let typed = Some((ColorTarget::Bg, "12".to_string()));
    assert_eq!(hex_field(&typed, ColorTarget::Text, 0xabc), "#000abc");
    assert_eq!(color_row(&vec![1, 2], Some(2)), vec![(1, false), (2, true)]);
    let c = render_customization(&t, &None, &vec![t.bg], 50, None, &None);
    assert_eq!(c.opacity, "50%");
    assert!(c.bg_swatches[0].1);
}
