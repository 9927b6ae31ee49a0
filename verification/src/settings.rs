//! The settings window: what its tabs show, and what keys and clicks change.

use crate::keymap::{
    ACTION_COUNT, Key, KeyAction, Keymap, Keystroke, KeystrokeView, action_id, action_label,
    all_actions, canon_keystroke, key_named, key_of, lemma_action_at,
};
use crate::paths::{label_of, path_label};
use crate::prefs::{Prefs, RECENTS_CAP};
use crate::terminal::Terminal;
use crate::text::{
    ascii_low, ascii_lower, chars_of, concat, decimal, decimal_of, digit_of, hex6, hex6_of,
    lemma_until, opt_text, owned, parse_number, parsed, piece, same, split, split_at_each,
    string_of, texts, until, uppercase,
};
use crate::theme::{Theme, preset_list, presets, presets_view, with_alpha};
use crate::update::{CheckView, UpdateCheck, check_button, check_label, check_text, check_words};
use vstd::prelude::*;

verus! {

// ----- keys ----------------------------------------------------------------------------

/// The theme color that a hex field edits.
#[derive(Clone, Copy, PartialEq, Eq, Structural, Debug)]
pub enum ColorTarget {
    Bg,
    Text,
    Hover,
}

/// A theme with one color changed.
pub open spec fn with_color(t: Theme, target: ColorTarget, c: u32) -> Theme {
    match target {
        ColorTarget::Bg => Theme { bg: c, ..t },
        ColorTarget::Text => Theme { text: c, ..t },
        ColorTarget::Hover => Theme { hover: c, ..t },
    }
}

/// Changes one color of a theme.
pub fn set_color(t: &Theme, target: ColorTarget, c: u32) -> (r: Theme)
    ensures
        r == with_color(*t, target, c),
{
    let mut n = *t;
    match target {
        ColorTarget::Bg => {
            n.bg = c;
        },
        ColorTarget::Text => {
            n.text = c;
        },
        ColorTarget::Hover => {
            n.hover = c;
        },
    }
    n
}

/// The settings window.
pub struct Settings {
    pub tab: usize,
    /// The action whose key stroke is being recorded.
    pub recording: Option<KeyAction>,
    /// The color being typed, and its digits so far.
    pub color_edit: Option<(ColorTarget, String)>,
}

/// The mathematical value of the settings window.
#[verifier::ext_equal]
pub struct SettingsView {
    pub tab: int,
    pub recording: Option<KeyAction>,
    pub color_edit: Option<(ColorTarget, Seq<char>)>,
}

/// An optional color edit, with its digits as characters.
pub open spec fn opt_edit(e: Option<(ColorTarget, String)>) -> Option<(ColorTarget, Seq<char>)> {
    match e {
        Some(p) => Some((p.0, p.1@)),
        None => None,
    }
}

impl View for Settings {
    type V = SettingsView;

    open spec fn view(&self) -> SettingsView {
        SettingsView {
            tab: self.tab as int,
            recording: self.recording,
            color_edit: opt_edit(self.color_edit),
        }
    }
}

/// What a key in the settings asks for.
pub enum SettingsStep {
    /// Nothing.
    Idle,
    /// Showing the change.
    Redraw,
    /// Putting a theme in force.
    UseTheme(Theme),
    /// Putting a key map in force.
    UseKeymap(Keymap),
}

/// What a key in the settings asks for, as a mathematical value.
#[verifier::ext_equal]
pub enum SettingsStepView {
    Idle,
    Redraw,
    UseTheme(Theme),
    UseKeymap(Seq<Option<Seq<char>>>),
}

impl View for SettingsStep {
    type V = SettingsStepView;

    open spec fn view(&self) -> SettingsStepView {
        match self {
            SettingsStep::Idle => SettingsStepView::Idle,
            SettingsStep::Redraw => SettingsStepView::Redraw,
            SettingsStep::UseTheme(t) => SettingsStepView::UseTheme(*t),
            SettingsStep::UseKeymap(k) => SettingsStepView::UseKeymap(k@),
        }
    }
}

/// Whether a character is a hexadecimal digit.
pub open spec fn is_hex(c: char) -> bool {
    digit_of(c) < 16
}

/// The digits of a color after more text is typed: hexadecimal digits are taken
/// in lowercase, up to six.
pub open spec fn with_hex(s: Seq<char>, typed: Seq<char>) -> Seq<char>
    decreases typed.len(),
{
    if typed.len() == 0 {
        s
    } else {
        let t = with_hex(s, typed.drop_last());
        let c = typed.last();
        if is_hex(c) && t.len() < 6 {
            t.push(ascii_low(c))
        } else {
            t
        }
    }
}

/// Whether a character is a hexadecimal digit in lowercase.
pub open spec fn is_low_hex(c: char) -> bool {
    is_hex(c) && ascii_low(c) == c
}

/// The digits of a color never get more than six, nor anything but lowercase
/// hexadecimal digits.
pub proof fn law_hex_entry_is_clean(s: Seq<char>, typed: Seq<char>)
    requires
        s.len() <= 6,
        forall|i: int| 0 <= i < s.len() ==> is_low_hex(#[trigger] s[i]),
    ensures
        with_hex(s, typed).len() <= 6,
        forall|i: int|
            0 <= i < with_hex(s, typed).len() ==> is_low_hex(#[trigger] with_hex(s, typed)[i]),
    decreases typed.len(),
{
    if typed.len() > 0 {
        law_hex_entry_is_clean(s, typed.drop_last());
        let c = typed.last();
        if is_hex(c) {
            assert(is_low_hex(ascii_low(c)));
        }
    }
}

/// Whether a key name is that of a modifier alone.
pub open spec fn is_lone_modifier(key: Seq<char>) -> bool {
    key == "cmd"@ || key == "ctrl"@ || key == "alt"@ || key == "shift"@ || key == "function"@
}

impl SettingsView {
    /// After a key while a color is typed.
    pub open spec fn hex_key(self, ks: KeystrokeView, t: Theme) -> (SettingsView, SettingsStepView) {
        match self.color_edit {
            None => (self, SettingsStepView::Idle),
            Some((target, s)) => match key_named(ks.key) {
                Key::Escape => (
                    SettingsView { color_edit: None, ..self },
                    SettingsStepView::Redraw,
                ),
                Key::Backspace => (
                    SettingsView {
                        color_edit: Some(
                            (
                                target,
                                if s.len() > 0 {
                                    s.drop_last()
                                } else {
                                    s
                                },
                            ),
                        ),
                        ..self
                    },
                    SettingsStepView::Redraw,
                ),
                Key::Enter => (
                    SettingsView { color_edit: None, ..self },
                    match parsed(s, 16, u32::MAX as nat) {
                        Some(c) => SettingsStepView::UseTheme(with_color(t, target, c as u32)),
                        None => SettingsStepView::Redraw,
                    },
                ),
                _ => match ks.key_char {
                    Some(typed) => (
                        SettingsView { color_edit: Some((target, with_hex(s, typed))), ..self },
                        SettingsStepView::Redraw,
                    ),
                    None => (self, SettingsStepView::Idle),
                },
            },
        }
    }

    /// After a key while a key stroke is recorded: escape leaves the binding,
    /// backspace and delete free the action, a modifier alone is waited out, and
    /// anything else is bound.
    pub open spec fn keybind_key(self, ks: KeystrokeView, binds: Seq<Option<Seq<char>>>) -> (
        SettingsView,
        SettingsStepView,
    ) {
        match self.recording {
            None => (self, SettingsStepView::Idle),
            Some(a) => {
                let done = SettingsView { recording: None, ..self };
                match key_named(ks.key) {
                    Key::Escape => (done, SettingsStepView::Redraw),
                    Key::Backspace | Key::Delete => (
                        done,
                        SettingsStepView::UseKeymap(binds.update(action_id(a), None)),
                    ),
                    _ => if is_lone_modifier(ks.key) {
                        (self, SettingsStepView::Idle)
                    } else {
                        (
                            done,
                            SettingsStepView::UseKeymap(
                                binds.update(action_id(a), Some(ks.canonical())),
                            ),
                        )
                    },
                }
            },
        }
    }

    /// After a key: a color being typed has it first, then a recording.
    pub open spec fn key(
        self,
        ks: KeystrokeView,
        t: Theme,
        binds: Seq<Option<Seq<char>>>,
    ) -> (SettingsView, SettingsStepView) {
        if self.color_edit is Some {
            self.hex_key(ks, t)
        } else {
            self.keybind_key(ks, binds)
        }
    }
}

impl Settings {
    /// The settings window as it opens.
    pub fn new() -> (r: Settings)
        ensures
            r@ == (SettingsView { tab: 0, recording: None, color_edit: None }),
    {
        Settings { tab: 0, recording: None, color_edit: None }
    }

    /// Begins to type a color.
    pub fn edit_color(&mut self, target: ColorTarget)
        ensures
            final(self)@ == (SettingsView {
                color_edit: Some((target, Seq::empty())),
                ..old(self)@
            }),
    {
        self.color_edit = Some((target, String::new()));
        proof {
            let e = self@.color_edit->Some_0;
            assert(e.1 =~= Seq::<char>::empty());
        }
    }

    fn handle_hex_key(&mut self, ks: &Keystroke, t: &Theme) -> (r: SettingsStep)
        ensures
            (final(self)@, r@) == old(self)@.hex_key(ks@, *t),
    {
        let (target, digits) = match &self.color_edit {
            Some((a, b)) => (*a, b.clone()),
            None => {
                return SettingsStep::Idle;
            },
        };
        match key_of(ks.key.as_str()) {
            Key::Escape => {
                self.color_edit = None;
                SettingsStep::Redraw
            },
            Key::Backspace => {
                let cs = chars_of(digits.as_str());
                if cs.len() > 0 {
                    let shorter = piece(&cs, 0, cs.len() - 1);
                    proof {
                        assert(shorter@ =~= digits@.drop_last());
                    }
                    self.color_edit = Some((target, shorter));
                }
                SettingsStep::Redraw
            },
            Key::Enter => {
                self.color_edit = None;
                match parse_number(digits.as_str(), 16, u32::MAX as u64) {
                    Some(c) => SettingsStep::UseTheme(set_color(t, target, c as u32)),
                    None => SettingsStep::Redraw,
                }
            },
            _ => match &ks.key_char {
                Some(typed) => {
                    let d = type_hex(digits, typed.as_str());
                    self.color_edit = Some((target, d));
                    SettingsStep::Redraw
                },
                None => SettingsStep::Idle,
            },
        }
    }

    fn handle_keybind_key(&mut self, ks: &Keystroke, km: &Keymap) -> (r: SettingsStep)
        requires
            km.wf(),
        ensures
            (final(self)@, r@) == old(self)@.keybind_key(ks@, km@),
            r matches SettingsStep::UseKeymap(k) ==> k.wf(),
    {
        let a = match self.recording {
            Some(a) => a,
            None => {
                return SettingsStep::Idle;
            },
        };
        match key_of(ks.key.as_str()) {
            Key::Escape => {
                self.recording = None;
                SettingsStep::Redraw
            },
            Key::Backspace | Key::Delete => {
                self.recording = None;
                let mut k = km.copy();
                k.set(a, None);
                SettingsStep::UseKeymap(k)
            },
            _ => {
                let n = ks.key.as_str();
                if same(n, "cmd") || same(n, "ctrl") || same(n, "alt") || same(n, "shift") || same(
                    n,
                    "function",
                ) {
                    return SettingsStep::Idle;
                }
                self.recording = None;
                let mut k = km.copy();
                k.set(a, Some(canon_keystroke(ks)));
                SettingsStep::UseKeymap(k)
            },
        }
    }

    /// A key press in the settings.
    pub fn handle_settings_key(&mut self, ks: &Keystroke, t: &Theme, km: &Keymap) -> (r:
        SettingsStep)
        requires
            km.wf(),
        ensures
            (final(self)@, r@) == old(self)@.key(ks@, *t, km@),
            r matches SettingsStep::UseKeymap(k) ==> k.wf(),
    {
        if self.color_edit.is_some() {
            self.handle_hex_key(ks, t)
        } else {
            self.handle_keybind_key(ks, km)
        }
    }
}

fn type_hex(s: String, typed: &str) -> (r: String)
    ensures
        r@ == with_hex(s@, typed@),
{
    let cs = chars_of(typed);
    let mut out = chars_of(s.as_str());
    let mut i: usize = 0;
    proof {
        assert(cs@.take(0) =~= Seq::<char>::empty());
    }
    while i < cs.len()
        invariant
            i <= cs.len(),
            cs@ == typed@,
            out@ == with_hex(s@, cs@.take(i as int)),
        decreases cs.len() - i,
    {
        proof {
            assert(cs@.take(i + 1).drop_last() =~= cs@.take(i as int));
        }
        let c: char = cs[i];
        let hex = ('0' <= c && c <= '9') || ('a' <= c && c <= 'f') || ('A' <= c && c <= 'F');
        proof {
            assert(hex == is_hex(c));
        }
        if hex && out.len() < 6 {
            out.push(ascii_lower(c));
        }
        i += 1;
    }
    proof {
        assert(cs@.take(i as int) =~= typed@);
    }
    string_of(&out)
}

// ----- key strokes for display ---------------------------------------------------------

/// The symbol of a key.
pub open spec fn symbol_of(k: Seq<char>) -> Seq<char> {
    if k == "enter"@ {
        "↩"@
    } else if k == "escape"@ {
        "⎋"@
    } else if k == "backspace"@ {
        "⌫"@
    } else if k == "delete"@ {
        "⌦"@
    } else if k == "up"@ {
        "↑"@
    } else if k == "down"@ {
        "↓"@
    } else if k == "left"@ {
        "←"@
    } else if k == "right"@ {
        "→"@
    } else if k == "space"@ {
        "␣"@
    } else if k == "tab"@ {
        "⇥"@
    } else {
        uppercase(k)
    }
}

/// The symbol of a modifier; any other word stands for itself.
pub open spec fn modifier_symbol(m: Seq<char>) -> Seq<char> {
    if m == "cmd"@ {
        "⌘"@
    } else if m == "ctrl"@ {
        "⌃"@
    } else if m == "alt"@ {
        "⌥"@
    } else if m == "shift"@ {
        "⇧"@
    } else {
        m
    }
}

/// The symbols of modifiers, one after the other.
pub open spec fn modifier_symbols(ms: Seq<Seq<char>>) -> Seq<char>
    decreases ms.len(),
{
    if ms.len() == 0 {
        Seq::empty()
    } else {
        modifier_symbols(ms.drop_last()) + modifier_symbol(ms.last())
    }
}

/// A key stroke in symbols: what its name holds between dashes, the last part as
/// a key and the others as modifiers.
pub open spec fn pretty(s: Seq<char>) -> Seq<char> {
    let parts = split_at_each(s, '-');
    modifier_symbols(parts.drop_last()) + symbol_of(parts.last())
}

/// The symbol of a key.
pub fn key_symbol(k: &str) -> (r: String)
    ensures
        r@ == symbol_of(k@),
{
    if same(k, "enter") {
        owned("↩")
    } else if same(k, "escape") {
        owned("⎋")
    } else if same(k, "backspace") {
        owned("⌫")
    } else if same(k, "delete") {
        owned("⌦")
    } else if same(k, "up") {
        owned("↑")
    } else if same(k, "down") {
        owned("↓")
    } else if same(k, "left") {
        owned("←")
    } else if same(k, "right") {
        owned("→")
    } else if same(k, "space") {
        owned("␣")
    } else if same(k, "tab") {
        owned("⇥")
    } else {
        k.to_uppercase()
    }
}

fn modifier_glyph(m: &str) -> (r: String)
    ensures
        r@ == modifier_symbol(m@),
{
    if same(m, "cmd") {
        owned("⌘")
    } else if same(m, "ctrl") {
        owned("⌃")
    } else if same(m, "alt") {
        owned("⌥")
    } else if same(m, "shift") {
        owned("⇧")
    } else {
        owned(m)
    }
}

proof fn lemma_split_nonempty(s: Seq<char>, c: char)
    ensures
        split_at_each(s, c).len() > 0,
    decreases s.len(),
{
    lemma_until(s, c);
    if until(s, c) < s.len() {
        lemma_split_nonempty(s.skip(until(s, c) as int + 1), c);
    }
}

/// A key stroke in symbols.
pub fn pretty_keystroke(s: &str) -> (r: String)
    ensures
        r@ == pretty(s@),
{
    let parts = split(s, '-');
    proof {
        lemma_split_nonempty(s@, '-');
        assert(texts(parts@).len() == parts@.len());
    }
    let last: usize = parts.len() - 1;
    let mut out = String::new();
    let mut i: usize = 0;
    let ghost ms = texts(parts@).drop_last();
    proof {
        assert(ms.take(0) =~= Seq::<Seq<char>>::empty());
    }
    while i < last
        invariant
            i <= last < parts.len(),
            ms == texts(parts@).drop_last(),
            last == ms.len(),
            out@ == modifier_symbols(ms.take(i as int)),
        decreases last - i,
    {
        let g = modifier_glyph(parts[i].as_str());
        proof {
            assert(ms.take(i + 1).drop_last() =~= ms.take(i as int));
            assert(ms.take(i + 1).last() == parts@[i as int]@);
        }
        out.append(g.as_str());
        i += 1;
    }
    proof {
        assert(ms.take(i as int) =~= ms);
    }
    let k = key_symbol(parts[last].as_str());
    out.append(k.as_str());
    out
}

// ----- the general tab -----------------------------------------------------------------

/// A preference that is on or off.
#[derive(Clone, Copy, PartialEq, Eq, Structural, Debug)]
pub enum PrefSwitch {
    Terminal,
    TermHistory,
    Preview,
    PreviewPages,
    Info,
    ShowParent,
    PaletteHistory,
    Groups,
    ShowFps,
}

/// Whether a preference is on.
pub open spec fn switch_on(p: Prefs, s: PrefSwitch) -> bool {
    match s {
        PrefSwitch::Terminal => p.terminal,
        PrefSwitch::TermHistory => p.term_history,
        PrefSwitch::Preview => p.preview,
        PrefSwitch::PreviewPages => p.preview_pages,
        PrefSwitch::Info => p.info,
        PrefSwitch::ShowParent => p.show_parent,
        PrefSwitch::PaletteHistory => p.palette_history,
        PrefSwitch::Groups => p.groups_enabled,
        PrefSwitch::ShowFps => p.show_fps,
    }
}

/// Preferences with one of them turned.
pub open spec fn switched(p: Prefs, s: PrefSwitch) -> Prefs {
    match s {
        PrefSwitch::Terminal => Prefs { terminal: !p.terminal, ..p },
        PrefSwitch::TermHistory => Prefs { term_history: !p.term_history, ..p },
        PrefSwitch::Preview => Prefs { preview: !p.preview, ..p },
        PrefSwitch::PreviewPages => Prefs { preview_pages: !p.preview_pages, ..p },
        PrefSwitch::Info => Prefs { info: !p.info, ..p },
        PrefSwitch::ShowParent => Prefs { show_parent: !p.show_parent, ..p },
        PrefSwitch::PaletteHistory => Prefs { palette_history: !p.palette_history, ..p },
        PrefSwitch::Groups => Prefs { groups_enabled: !p.groups_enabled, ..p },
        PrefSwitch::ShowFps => Prefs { show_fps: !p.show_fps, ..p },
    }
}

/// Turns a preference on or off.
pub fn toggle_pref(p: &Prefs, s: PrefSwitch) -> (r: Prefs)
    ensures
        r == switched(*p, s),
{
    let mut q = *p;
    match s {
        PrefSwitch::Terminal => {
            q.terminal = !q.terminal;
        },
        PrefSwitch::TermHistory => {
            q.term_history = !q.term_history;
        },
        PrefSwitch::Preview => {
            q.preview = !q.preview;
        },
        PrefSwitch::PreviewPages => {
            q.preview_pages = !q.preview_pages;
        },
        PrefSwitch::Info => {
            q.info = !q.info;
        },
        PrefSwitch::ShowParent => {
            q.show_parent = !q.show_parent;
        },
        PrefSwitch::PaletteHistory => {
            q.palette_history = !q.palette_history;
        },
        PrefSwitch::Groups => {
            q.groups_enabled = !q.groups_enabled;
        },
        PrefSwitch::ShowFps => {
            q.show_fps = !q.show_fps;
        },
    }
    q
}

/// Turning a preference twice leaves all preferences as they were, and turning
/// it once changes that one only.
pub proof fn law_switch_turns_one(p: Prefs, s: PrefSwitch, other: PrefSwitch)
    ensures
        switched(switched(p, s), s) == p,
        switch_on(switched(p, s), s) == !switch_on(p, s),
        other != s ==> switch_on(switched(p, s), other) == switch_on(p, other),
{
}

/// Preferences with one recent folder more or less, between none and the most
/// that are kept.
pub open spec fn recents_stepped(p: Prefs, up: bool) -> Prefs {
    Prefs {
        recent_limit: (if up {
            if p.recent_limit < RECENTS_CAP {
                p.recent_limit + 1
            } else {
                RECENTS_CAP as int
            }
        } else if p.recent_limit > 0 {
            p.recent_limit - 1
        } else {
            0
        }) as usize,
        ..p
    }
}

/// Shows one recent folder more or less.
pub fn step_recents(p: &Prefs, up: bool) -> (r: Prefs)
    ensures
        r == recents_stepped(*p, up),
{
    let mut q = *p;
    if up {
        q.recent_limit = if q.recent_limit < RECENTS_CAP {
            q.recent_limit + 1
        } else {
            RECENTS_CAP
        };
    } else if q.recent_limit > 0 {
        q.recent_limit = q.recent_limit - 1;
    }
    q
}

/// A row of the general tab.
pub enum GeneralRow {
    Title { text: String },
    Switch { switch: PrefSwitch, title: String, desc: String, on: bool },
    Recents { title: String, desc: String, value: String },
    Updates { title: String, desc: String, status: Option<String>, button: Option<String>, ready: bool },
    Reset { label: String },
}

/// A row of the general tab, with texts as characters.
#[verifier::ext_equal]
pub enum GeneralRowView {
    Title { text: Seq<char> },
    Switch { switch: PrefSwitch, title: Seq<char>, desc: Seq<char>, on: bool },
    Recents { title: Seq<char>, desc: Seq<char>, value: Seq<char> },
    Updates {
        title: Seq<char>,
        desc: Seq<char>,
        status: Option<Seq<char>>,
        button: Option<Seq<char>>,
        ready: bool,
    },
    Reset { label: Seq<char> },
}

impl View for GeneralRow {
    type V = GeneralRowView;

    open spec fn view(&self) -> GeneralRowView {
        match self {
            GeneralRow::Title { text } => GeneralRowView::Title { text: text@ },
            GeneralRow::Switch { switch, title, desc, on } => GeneralRowView::Switch {
                switch: *switch,
                title: title@,
                desc: desc@,
                on: *on,
            },
            GeneralRow::Recents { title, desc, value } => GeneralRowView::Recents {
                title: title@,
                desc: desc@,
                value: value@,
            },
            GeneralRow::Updates { title, desc, status, button, ready } => GeneralRowView::Updates {
                title: title@,
                desc: desc@,
                status: opt_text(*status),
                button: opt_text(*button),
                ready: *ready,
            },
            GeneralRow::Reset { label } => GeneralRowView::Reset { label: label@ },
        }
    }
}

/// Rows of the general tab, with texts as characters.
pub open spec fn general_rows(v: Seq<GeneralRow>) -> Seq<GeneralRowView> {
    v.map_values(|r: GeneralRow| r@)
}

/// The title of a switch.
pub open spec fn switch_title(s: PrefSwitch) -> Seq<char> {
    match s {
        PrefSwitch::Terminal => "Terminal mode"@,
        PrefSwitch::TermHistory => "Terminal history"@,
        PrefSwitch::Preview => "Preview"@,
        PrefSwitch::PreviewPages => "Preview page controls"@,
        PrefSwitch::Info => "Information"@,
        PrefSwitch::ShowParent => "Show “..” (up one level)"@,
        PrefSwitch::PaletteHistory => "Command palette history"@,
        PrefSwitch::Groups => "Sidebar groups"@,
        PrefSwitch::ShowFps => "Frame rate meter"@,
    }
}

/// What a switch is for.
pub open spec fn switch_desc(s: PrefSwitch) -> Seq<char> {
    match s {
        PrefSwitch::Terminal => "Show a command input at the bottom to move through the explorer like a terminal (with path/command autocomplete)."@,
        PrefSwitch::TermHistory => "Show a scrollback of what you've typed and command output above the input (otherwise it's just the input line)."@,
        PrefSwitch::Preview => "Click a file once to preview it (images, PDFs, documents, …) in the inspector panel."@,
        PrefSwitch::PreviewPages => "Show ‹ › arrows under multi-page PDF previews to flip through the pages without opening the file."@,
        PrefSwitch::Info => "Click a file once to see its details (kind, size, dates, dimensions, color space, and more) in the inspector panel."@,
        PrefSwitch::ShowParent => "Show the leading “..” entry in list view that navigates to the parent folder."@,
        PrefSwitch::PaletteHistory => "Give Cmd+P its own query history: press Up/Down in the palette to cycle through your previous searches."@,
        PrefSwitch::Groups => "Create custom groups of files/folders in the sidebar. Right-click the sidebar to make a group, then right-click any item to add it."@,
        PrefSwitch::ShowFps => "Show a live FPS readout in the top-right of the explorer window. Forces continuous redraws to measure them, so it uses some CPU while on — meant for checking smoothness, not everyday use."@,
    }
}

/// The row of a switch.
pub open spec fn switch_row(p: Prefs, s: PrefSwitch) -> GeneralRowView {
    GeneralRowView::Switch {
        switch: s,
        title: switch_title(s),
        desc: switch_desc(s),
        on: switch_on(p, s),
    }
}

/// How the number of recent folders is shown.
pub open spec fn recents_value(n: usize) -> Seq<char> {
    if n == 0 {
        "Off"@
    } else {
        decimal_of(n as nat)
    }
}

/// All rows of the general tab.
pub open spec fn general_tab(p: Prefs, check: CheckView, version: Seq<char>) -> Seq<GeneralRowView> {
    seq![
        GeneralRowView::Title { text: "Features"@ },
        switch_row(p, PrefSwitch::Terminal),
        switch_row(p, PrefSwitch::TermHistory),
        switch_row(p, PrefSwitch::Preview),
        switch_row(p, PrefSwitch::PreviewPages),
        switch_row(p, PrefSwitch::Info),
        switch_row(p, PrefSwitch::ShowParent),
        switch_row(p, PrefSwitch::PaletteHistory),
        switch_row(p, PrefSwitch::Groups),
        switch_row(p, PrefSwitch::ShowFps),
        GeneralRowView::Title { text: "Sidebar"@ },
        GeneralRowView::Recents {
            title: "Recent folders"@,
            desc: "How many recently-visited folders to show in the sidebar (0 hides the Recents section)."@,
            value: recents_value(p.recent_limit),
        },
        GeneralRowView::Title { text: "Updates"@ },
        GeneralRowView::Updates {
            title: "Version "@ + version,
            desc: "Check GitHub for a newer release and install it in place — the app swaps itself and relaunches."@,
            status: check_words(check),
            button: check_label(check),
            ready: check is Available,
        },
        GeneralRowView::Reset { label: "Reset General to Default"@ },
    ]
}

fn switch_of(p: &Prefs, s: PrefSwitch) -> (r: GeneralRow)
    ensures
        r@ == switch_row(*p, s),
{
    let (title, desc, on): (&str, &str, bool) = match s {
        PrefSwitch::Terminal => (
            "Terminal mode",
            "Show a command input at the bottom to move through the explorer like a terminal (with path/command autocomplete).",
            p.terminal,
        ),
        PrefSwitch::TermHistory => (
            "Terminal history",
            "Show a scrollback of what you've typed and command output above the input (otherwise it's just the input line).",
            p.term_history,
        ),
        PrefSwitch::Preview => (
            "Preview",
            "Click a file once to preview it (images, PDFs, documents, …) in the inspector panel.",
            p.preview,
        ),
        PrefSwitch::PreviewPages => (
            "Preview page controls",
            "Show ‹ › arrows under multi-page PDF previews to flip through the pages without opening the file.",
            p.preview_pages,
        ),
        PrefSwitch::Info => (
            "Information",
            "Click a file once to see its details (kind, size, dates, dimensions, color space, and more) in the inspector panel.",
            p.info,
        ),
        PrefSwitch::ShowParent => (
            "Show “..” (up one level)",
            "Show the leading “..” entry in list view that navigates to the parent folder.",
            p.show_parent,
        ),
        PrefSwitch::PaletteHistory => (
            "Command palette history",
            "Give Cmd+P its own query history: press Up/Down in the palette to cycle through your previous searches.",
            p.palette_history,
        ),
        PrefSwitch::Groups => (
            "Sidebar groups",
            "Create custom groups of files/folders in the sidebar. Right-click the sidebar to make a group, then right-click any item to add it.",
            p.groups_enabled,
        ),
        PrefSwitch::ShowFps => (
            "Frame rate meter",
            "Show a live FPS readout in the top-right of the explorer window. Forces continuous redraws to measure them, so it uses some CPU while on — meant for checking smoothness, not everyday use.",
            p.show_fps,
        ),
    };
    GeneralRow::Switch { switch: s, title: owned(title), desc: owned(desc), on }
}

/// The rows of the general tab, from top to bottom.
pub fn render_general(p: &Prefs, check: &UpdateCheck, version: &str) -> (r: Vec<GeneralRow>)
    ensures
        general_rows(r@) == general_tab(*p, check@, version@),
{
    let mut out: Vec<GeneralRow> = Vec::new();
    out.push(GeneralRow::Title { text: owned("Features") });
    out.push(switch_of(p, PrefSwitch::Terminal));
    out.push(switch_of(p, PrefSwitch::TermHistory));
    out.push(switch_of(p, PrefSwitch::Preview));
    out.push(switch_of(p, PrefSwitch::PreviewPages));
    out.push(switch_of(p, PrefSwitch::Info));
    out.push(switch_of(p, PrefSwitch::ShowParent));
    out.push(switch_of(p, PrefSwitch::PaletteHistory));
    out.push(switch_of(p, PrefSwitch::Groups));
    out.push(switch_of(p, PrefSwitch::ShowFps));
    out.push(GeneralRow::Title { text: owned("Sidebar") });
    let value: String = if p.recent_limit == 0 {
        owned("Off")
    } else {
        decimal(p.recent_limit as u64)
    };
    out.push(
        GeneralRow::Recents {
            title: owned("Recent folders"),
            desc: owned(
                "How many recently-visited folders to show in the sidebar (0 hides the Recents section).",
            ),
            value,
        },
    );
    out.push(GeneralRow::Title { text: owned("Updates") });
    let ready = match check {
        UpdateCheck::Available(_) => true,
        _ => false,
    };
    out.push(
        GeneralRow::Updates {
            title: concat("Version ", version),
            desc: owned(
                "Check GitHub for a newer release and install it in place — the app swaps itself and relaunches.",
            ),
            status: check_text(check),
            button: check_button(check),
            ready,
        },
    );
    out.push(GeneralRow::Reset { label: owned("Reset General to Default") });
    proof {
        assert(general_rows(out@) =~= general_tab(*p, check@, version@));
    }
    out
}

// ----- the key bindings tab ------------------------------------------------------------

/// A row of the key bindings tab.
pub struct KeybindRow {
    pub action: KeyAction,
    pub label: String,
    pub chip: String,
    pub dim: bool,
    pub recording: bool,
}

/// A row of the key bindings tab, with texts as characters.
#[verifier::ext_equal]
pub struct KeybindRowView {
    pub action: KeyAction,
    pub label: Seq<char>,
    pub chip: Seq<char>,
    pub dim: bool,
    pub recording: bool,
}

impl View for KeybindRow {
    type V = KeybindRowView;

    open spec fn view(&self) -> KeybindRowView {
        KeybindRowView {
            action: self.action,
            label: self.label@,
            chip: self.chip@,
            dim: self.dim,
            recording: self.recording,
        }
    }
}

/// Rows of the key bindings tab, with texts as characters.
pub open spec fn keybind_rows(v: Seq<KeybindRow>) -> Seq<KeybindRowView> {
    v.map_values(|r: KeybindRow| r@)
}

/// The row of an action: its key stroke in symbols, a hint while one is recorded,
/// or that it has none.
pub open spec fn keybind_row(
    a: KeyAction,
    b: Option<Seq<char>>,
    recording: Option<KeyAction>,
) -> KeybindRowView {
    let rec = recording == Some(a);
    KeybindRowView {
        action: a,
        label: action_label(a),
        chip: if rec {
            "Press keys… (⌫ clear, esc cancel)"@
        } else {
            match b {
                Some(s) => pretty(s),
                None => "Unbound"@,
            }
        },
        dim: !rec && b is None,
        recording: rec,
    }
}

/// All rows of the key bindings tab.
pub open spec fn keybind_tab(binds: Seq<Option<Seq<char>>>, recording: Option<KeyAction>) -> Seq<
    KeybindRowView,
> {
    Seq::new(
        ACTION_COUNT as nat,
        |i: int| keybind_row(all_actions()[i], binds[i], recording),
    )
}

/// The rows of the key bindings tab, from top to bottom.
pub fn render_keybinds(km: &Keymap, recording: Option<KeyAction>) -> (r: Vec<KeybindRow>)
    requires
        km.wf(),
    ensures
        keybind_rows(r@) == keybind_tab(km@, recording),
{
    let mut out: Vec<KeybindRow> = Vec::new();
    let mut i: usize = 0;
    while i < ACTION_COUNT
        invariant
            i <= ACTION_COUNT,
            km.wf(),
            keybind_rows(out@) == keybind_tab(km@, recording).take(i as int),
        decreases ACTION_COUNT - i,
    {
        let a = KeyAction::from_id(i);
        proof {
            lemma_action_at(i as int);
        }
        let rec = match recording {
            Some(b) => b == a,
            None => false,
        };
        let bind = km.get(a);
        let dim = !rec && bind.is_none();
        let chip: String = if rec {
            owned("Press keys… (⌫ clear, esc cancel)")
        } else {
            match &bind {
                Some(s) => pretty_keystroke(s.as_str()),
                None => owned("Unbound"),
            }
        };
        let row = KeybindRow { action: a, label: owned(a.label()), chip, dim, recording: rec };
        proof {
            assert(keybind_rows(out@.push(row)) =~= keybind_rows(out@).push(row@));
            assert(keybind_tab(km@, recording).take(i + 1) =~= keybind_tab(km@, recording).take(
                i as int,
            ).push(row@));
        }
        out.push(row);
        i += 1;
    }
    proof {
        assert(keybind_tab(km@, recording).take(i as int) =~= keybind_tab(km@, recording));
    }
    out
}

// ----- the customization tab -----------------------------------------------------------

/// The opacity of menus in percent, a step up or down.
pub open spec fn opacity_stepped(o: u8, up: bool) -> u8 {
    (if up {
        if o + 10 < 100 {
            o + 10
        } else {
            100
        }
    } else if o >= 10 {
        o - 10
    } else {
        0
    }) as u8
}

/// Makes menus ten percent more or less opaque, between none and all.
pub fn step_opacity(o: u8, up: bool) -> (r: u8)
    ensures
        r == opacity_stepped(o, up),
{
    if up {
        if o < 90 {
            o + 10
        } else {
            100
        }
    } else if o >= 10 {
        o - 10
    } else {
        0
    }
}

/// The background of menus: the surface of the theme at an opacity in percent.
pub open spec fn menu_color(t: Theme, opacity: u8) -> int {
    with_alpha(
        t.surface as int,
        (if opacity < 100 {
            opacity as int
        } else {
            100
        }) * 255 / 100,
    )
}

/// The background of menus.
pub fn bg_rgba(t: &Theme, opacity: u8) -> (r: u32)
    ensures
        r == menu_color(*t, opacity),
{
    let o: u32 = if opacity < 100 {
        opacity as u32
    } else {
        100
    };
    Theme::alpha(t.surface, o * 255 / 100)
}

/// What a hex field shows: the digits being typed with a caret, or the color.
pub open spec fn hex_text(
    edit: Option<(ColorTarget, Seq<char>)>,
    target: ColorTarget,
    current: u32,
) -> Seq<char> {
    match edit {
        Some((t, s)) if t == target => "#"@ + s + "\u{2502}"@,
        _ => "#"@ + hex6_of(current as nat),
    }
}

/// What a hex field shows.
pub fn hex_field(edit: &Option<(ColorTarget, String)>, target: ColorTarget, current: u32) -> (r:
    String)
    ensures
        r@ == hex_text(opt_edit(*edit), target, current),
{
    match edit {
        Some((t, s)) => {
            if *t == target {
                return concat(concat("#", s.as_str()).as_str(), "\u{2502}");
            }
        },
        None => {},
    }
    concat("#", hex6(current).as_str())
}

/// Colors to choose from, each with whether it is the chosen one.
pub open spec fn swatches(palette: Seq<u32>, current: Option<u32>) -> Seq<(u32, bool)> {
    palette.map_values(|c: u32| (c, current == Some(c)))
}

/// Colors to choose from, each with whether it is the chosen one.
pub fn color_row(palette: &Vec<u32>, current: Option<u32>) -> (r: Vec<(u32, bool)>)
    ensures
        r@ == swatches(palette@, current),
{
    let mut out: Vec<(u32, bool)> = Vec::new();
    let mut i: usize = 0;
    while i < palette.len()
        invariant
            i <= palette.len(),
            out@ == swatches(palette@, current).take(i as int),
        decreases palette.len() - i,
    {
        let c: u32 = palette[i];
        let chosen = match current {
            Some(x) => x == c,
            None => false,
        };
        proof {
            assert(swatches(palette@, current).take(i + 1) =~= swatches(palette@, current).take(
                i as int,
            ).push((c, chosen)));
        }
        out.push((c, chosen));
        i += 1;
    }
    proof {
        assert(swatches(palette@, current).take(i as int) =~= swatches(palette@, current));
    }
    out
}

/// The built-in themes, each with whether it is the one in force.
pub open spec fn preset_cards(t: Theme) -> Seq<(Seq<char>, Theme, bool)> {
    preset_list().map_values(|p: (Seq<char>, Theme)| (p.0, p.1, p.1 == t))
}

/// Theme cards, with names as characters.
pub open spec fn cards_view(v: Seq<(String, Theme, bool)>) -> Seq<(Seq<char>, Theme, bool)> {
    v.map_values(|c: (String, Theme, bool)| (c.0@, c.1, c.2))
}

fn theme_cards(t: &Theme) -> (r: Vec<(String, Theme, bool)>)
    ensures
        cards_view(r@) == preset_cards(*t),
{
    let all = presets();
    let mut out: Vec<(String, Theme, bool)> = Vec::new();
    let mut i: usize = 0;
    while i < all.len()
        invariant
            i <= all.len(),
            presets_view(all@) == preset_list(),
            cards_view(out@) == preset_cards(*t).take(i as int),
        decreases all.len() - i,
    {
        let c = (all[i].0.clone(), all[i].1, all[i].1 == *t);
        proof {
            assert(preset_list()[i as int] == presets_view(all@)[i as int]);
            assert(cards_view(out@.push(c)) =~= cards_view(out@).push((c.0@, c.1, c.2)));
            assert(preset_cards(*t).take(i + 1) =~= preset_cards(*t).take(i as int).push(
                (c.0@, c.1, c.2),
            ));
        }
        out.push(c);
        i += 1;
    }
    proof {
        assert(presets_view(all@).len() == all@.len());
        assert(preset_cards(*t).take(i as int) =~= preset_cards(*t));
    }
    out
}

/// What the customization tab shows.
pub struct Customization {
    pub cards: Vec<(String, Theme, bool)>,
    pub bg_hex: String,
    pub bg_swatches: Vec<(u32, bool)>,
    pub text_hex: String,
    pub text_swatches: Vec<(u32, bool)>,
    pub hover_hex: String,
    pub hover_swatches: Vec<(u32, bool)>,
    pub menu_bg: u32,
    pub opacity: String,
    pub icon_swatches: Vec<(u32, bool)>,
    pub pack: String,
}

/// What the settings say of the icon pack.
pub open spec fn pack_words(pack: Option<Seq<char>>) -> Seq<char> {
    match pack {
        Some(p) => "Current: "@ + label_of(p),
        None => "Using macOS icons"@,
    }
}

/// Puts together what the customization tab shows: `palette` are the colors to
/// choose from, `icon` is the color behind the application icon if it has one.
pub fn render_customization(
    t: &Theme,
    edit: &Option<(ColorTarget, String)>,
    palette: &Vec<u32>,
    opacity: u8,
    icon: Option<u32>,
    pack: &Option<String>,
) -> (r: Customization)
    ensures
        cards_view(r.cards@) == preset_cards(*t),
        r.bg_hex@ == hex_text(opt_edit(*edit), ColorTarget::Bg, t.bg),
        r.bg_swatches@ == swatches(palette@, Some(t.bg)),
        r.text_hex@ == hex_text(opt_edit(*edit), ColorTarget::Text, t.text),
        r.text_swatches@ == swatches(palette@, Some(t.text)),
        r.hover_hex@ == hex_text(opt_edit(*edit), ColorTarget::Hover, t.hover),
        r.hover_swatches@ == swatches(palette@, Some(t.hover)),
        r.menu_bg == menu_color(*t, opacity),
        r.opacity@ == decimal_of(opacity as nat) + "%"@,
        r.icon_swatches@ == swatches(palette@, icon),
        r.pack@ == pack_words(opt_text(*pack)),
{
    let pack_text: String = match pack {
        Some(p) => concat("Current: ", path_label(p.as_str()).as_str()),
        None => owned("Using macOS icons"),
    };
    Customization {
        cards: theme_cards(t),
        bg_hex: hex_field(edit, ColorTarget::Bg, t.bg),
        bg_swatches: color_row(palette, Some(t.bg)),
        text_hex: hex_field(edit, ColorTarget::Text, t.text),
        text_swatches: color_row(palette, Some(t.text)),
        hover_hex: hex_field(edit, ColorTarget::Hover, t.hover),
        hover_swatches: color_row(palette, Some(t.hover)),
        menu_bg: bg_rgba(t, opacity),
        opacity: concat(decimal(opacity as u64).as_str(), "%"),
        icon_swatches: color_row(palette, icon),
        pack: pack_text,
    }
}

} // verus!
