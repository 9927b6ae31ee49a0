use shuffle::editing::{handle_field_key, handle_line_key, FieldStep, LineStep};
use shuffle::field::{next_word_boundary, prev_word_boundary, Field};
use shuffle::keymap::{
    canon_keystroke, load_keymap, save_keymap, typable, KeyAction, Keymap, Keystroke,
};

fn key(name: &str) -> Keystroke {
    Keystroke {
        platform: false,
        control: false,
        alt: false,
        shift: false,
        key: name.to_string(),
        key_char: None,
        clipboard: None,
    }
}

fn typing(c: &str) -> Keystroke {
    Keystroke { key_char: Some(c.to_string()), ..key(c) }
}

fn cmd(name: &str) -> Keystroke {
    Keystroke { platform: true, ..key(name) }
}

fn field(text: &str) -> Field {
    Field::holding(text.to_string())
}

#[test]
fn words_are_jumped_over() {
    assert_eq!(prev_word_boundary("foo bar", 7), 4);
    assert_eq!(prev_word_boundary("foo bar", 4), 0);
    assert_eq!(next_word_boundary("foo bar", 0), 3);
    assert_eq!(next_word_boundary("foo bar", 3), 7);
    assert_eq!(prev_word_boundary("", 0), 0);
    assert_eq!(next_word_boundary("añb!", 0), 3);
}

#[test]
fn backspace_undoes_typing() {
    let mut f = field("héllo");
    f.insert("x");
    assert_eq!(f.text, "héllox");
    f.backspace();
    assert_eq!(f.text, "héllo");
    assert_eq!(f.cursor, 5);
}

#[test]
fn insertion_replaces_the_selection() {
    let mut f = field("abc");
    f.select_all();
    assert_eq!(f.sel(), Some((0, 3)));
    f.insert("é");
    assert_eq!(f.text, "é");
    assert_eq!(f.cursor, 1);
    assert_eq!(f.sel(), None);
}

#[test]
fn cut_and_paste_restore_the_text() {
    let mut f = field("hello world");
    f.move_h(true, true, true);
    assert_eq!(f.copy_text(), "world");
    let step = handle_field_key(&mut f, &cmd("x"), true);
    assert!(matches!(step, FieldStep::CutOut(ref t) if t == "world"));
    assert_eq!(f.text, "hello ");
    let paste = Keystroke { clipboard: Some("world".to_string()), ..cmd("v") };
    assert!(matches!(handle_field_key(&mut f, &paste, true), FieldStep::Edited));
    assert_eq!(f.text, "hello world");
}

#[test]
fn left_then_right_returns() {
    let mut f = field("abc");
    f.move_h(true, false, false);
    assert_eq!(f.cursor, 2);
    f.move_h(false, false, false);
    assert_eq!(f.cursor, 3);
    f.move_h(false, false, false);
    assert_eq!(f.cursor, 3);
}

#[test]
fn moving_leaves_a_selection_at_its_side() {
    let mut f = field("abcdef");
    f.jump(true, false);
    f.move_h(false, false, true);
    f.move_h(false, false, true);
    assert_eq!(f.sel(), Some((0, 2)));
    let mut g = f.copy();
    f.move_h(true, false, false);
    assert_eq!(f.cursor, 0);
    g.move_h(false, false, false);
    assert_eq!(g.cursor, 2);
    assert_eq!(g.sel(), None);
}

#[test]
fn deleting_forward_and_before() {
    let mut f = field("abcd");
    f.jump(true, false);
    f.delete_forward();
    assert_eq!(f.text, "bcd");
    f.move_h(false, false, false);
    f.kill_before();
    assert_eq!(f.text, "cd");
    assert_eq!(f.cursor, 0);
}

#[test]
fn field_keys() {
    let mut f = field("ab");
    assert!(matches!(handle_field_key(&mut f, &typing("c"), false), FieldStep::Edited));
    assert_eq!(f.text, "abc");
    assert!(matches!(handle_field_key(&mut f, &key("f5"), false), FieldStep::Idle));
    assert!(matches!(handle_field_key(&mut f, &key("left"), false), FieldStep::Moved));
    assert!(matches!(handle_field_key(&mut f, &cmd("a"), false), FieldStep::Moved));
    assert!(matches!(handle_field_key(&mut f, &cmd("c"), false), FieldStep::Copied(ref t) if t == "abc"));
    assert!(matches!(handle_field_key(&mut f, &key("backspace"), false), FieldStep::Edited));
    assert_eq!(f.text, "");
}

#[test]
fn control_characters_are_not_typed() {
    assert!(typable("a"));
    assert!(!typable(""));
    assert!(!typable("\u{7}"));
    let mut f = field("");
    let bell = Keystroke { key_char: Some("\u{7}".to_string()), ..key("g") };
    assert!(matches!(handle_field_key(&mut f, &bell, true), FieldStep::Idle));
    assert_eq!(f.text, "");
}

#[test]
fn line_keys() {
    let mut s = "ab".to_string();
    assert_eq!(handle_line_key(&mut s, &typing("c"), true), LineStep::Redraw);
    assert_eq!(s, "abc");
    assert_eq!(handle_line_key(&mut s, &key("backspace"), true), LineStep::Redraw);
    assert_eq!(s, "ab");
    assert_eq!(handle_line_key(&mut s, &key("tab"), true), LineStep::Tab);
    assert_eq!(handle_line_key(&mut s, &key("tab"), false), LineStep::Idle);
    assert_eq!(handle_line_key(&mut s, &key("enter"), true), LineStep::Enter);
    assert_eq!(handle_line_key(&mut s, &key("escape"), true), LineStep::Escape);
    assert_eq!(s, "ab");
}

#[test]
fn key_strokes_have_one_name() {
    let ks = Keystroke { platform: true, control: true, alt: true, shift: true, ..key("p") };
    assert_eq!(canon_keystroke(&ks), "cmd-ctrl-alt-shift-p");
    assert_eq!(canon_keystroke(&key("/")), "/");
}

#[test]
fn a_binding_is_found_and_taken_over() {
    let mut km = Keymap::defaults();
    assert_eq!(km.action_for("cmd-p"), Some(KeyAction::CommandPalette));
    assert_eq!(km.action_for("/"), Some(KeyAction::Find));
    assert_eq!(km.action_for("cmd-j"), None);
    km.set(KeyAction::Rename, Some("cmd-r".to_string()));
    assert_eq!(km.get(KeyAction::Rename), Some("cmd-r".to_string()));
    assert_eq!(km.action_for("cmd-r"), Some(KeyAction::Rename));
    km.set(KeyAction::Rename, None);
    assert_eq!(km.get(KeyAction::Rename), None);
    assert_eq!(km.action_for("cmd-r"), None);
}

#[test]
fn bindings_read_back() {
    let mut km = Keymap::defaults();
    km.set(KeyAction::Compress, Some("cmd-shift-z".to_string()));
    km.set(KeyAction::NewTab, None);
    let text = save_keymap(&km);
    let back = load_keymap(&text);
    assert_eq!(back.binds, km.binds);
    assert_eq!(load_keymap("").binds, Keymap::defaults().binds);
    assert_eq!(load_keymap("nonsense\nnothing=x").binds, Keymap::defaults().binds);
}

#[test]
fn every_action_has_a_number() {
    for i in 0..21 {
        assert_eq!(KeyAction::from_id(i).id(), i);
    }
    assert!(KeyAction::PaletteSelectAll.is_palette());
    assert!(!KeyAction::Open.is_palette());
    assert_eq!(KeyAction::CommandPalette.default_binding(), Some("cmd-p"));
}
