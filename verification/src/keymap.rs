//! Key strokes, the actions that can be bound to them, and the key map with its
//! saved form.

use crate::persist::{lemma_stacked_lines, stack_lines, stacked};
use crate::shuffle::Rename;
use crate::tabs::Tab;
use crate::text::{
    chars_of, concat, control, is_control, is_trimmed, lemma_trimmed_fixpoint, lemma_until_at,
    lines, lines_of, one_line, opt_text, owned, same, split_first, split_once, texts, trim, trimmed,
};
use vstd::prelude::*;

verus! {

// ----- key strokes ---------------------------------------------------------------------

/// A key press: the modifiers, the name of the key, the text it types, and, for
/// a paste, the text on the clipboard.
pub struct Keystroke {
    pub platform: bool,
    pub control: bool,
    pub alt: bool,
    pub shift: bool,
    pub key: String,
    pub key_char: Option<String>,
    pub clipboard: Option<String>,
}

/// The mathematical value of a key press.
#[verifier::ext_equal]
pub struct KeystrokeView {
    pub platform: bool,
    pub control: bool,
    pub alt: bool,
    pub shift: bool,
    pub key: Seq<char>,
    pub key_char: Option<Seq<char>>,
    pub clipboard: Option<Seq<char>>,
}

impl View for Keystroke {
    type V = KeystrokeView;

    open spec fn view(&self) -> KeystrokeView {
        KeystrokeView {
            platform: self.platform,
            control: self.control,
            alt: self.alt,
            shift: self.shift,
            key: self.key@,
            key_char: opt_text(self.key_char),
            clipboard: opt_text(self.clipboard),
        }
    }
}

/// The keys that the library tells apart.
#[derive(Clone, Copy, PartialEq, Eq, Structural, Debug)]
pub enum Key {
    Escape,
    Enter,
    Left,
    Right,
    Up,
    Down,
    Tab,
    Backspace,
    Delete,
    A,
    C,
    K,
    P,
    V,
    X,
    Other,
}

/// The key with the given name.
pub open spec fn key_named(s: Seq<char>) -> Key {
    if s == "escape"@ {
        Key::Escape
    } else if s == "enter"@ {
        Key::Enter
    } else if s == "left"@ {
        Key::Left
    } else if s == "right"@ {
        Key::Right
    } else if s == "up"@ {
        Key::Up
    } else if s == "down"@ {
        Key::Down
    } else if s == "tab"@ {
        Key::Tab
    } else if s == "backspace"@ {
        Key::Backspace
    } else if s == "delete"@ {
        Key::Delete
    } else if s == "a"@ {
        Key::A
    } else if s == "c"@ {
        Key::C
    } else if s == "k"@ {
        Key::K
    } else if s == "p"@ {
        Key::P
    } else if s == "v"@ {
        Key::V
    } else if s == "x"@ {
        Key::X
    } else {
        Key::Other
    }
}

/// Names a key.
pub fn key_of(s: &str) -> (r: Key)
    ensures
        r == key_named(s@),
{
    if same(s, "escape") {
        Key::Escape
    } else if same(s, "enter") {
        Key::Enter
    } else if same(s, "left") {
        Key::Left
    } else if same(s, "right") {
        Key::Right
    } else if same(s, "up") {
        Key::Up
    } else if same(s, "down") {
        Key::Down
    } else if same(s, "tab") {
        Key::Tab
    } else if same(s, "backspace") {
        Key::Backspace
    } else if same(s, "delete") {
        Key::Delete
    } else if same(s, "a") {
        Key::A
    } else if same(s, "c") {
        Key::C
    } else if same(s, "k") {
        Key::K
    } else if same(s, "p") {
        Key::P
    } else if same(s, "v") {
        Key::V
    } else if same(s, "x") {
        Key::X
    } else {
        Key::Other
    }
}

/// Whether a text can be typed into a field: it is not empty and holds no
/// control character.
pub open spec fn is_typable(s: Seq<char>) -> bool {
    s.len() > 0 && forall|i: int| 0 <= i < s.len() ==> !is_control(#[trigger] s[i])
}

/// Whether a text can be typed into a field.
pub fn typable(s: &str) -> (r: bool)
    ensures
        r == is_typable(s@),
{
    let cs = chars_of(s);
    let mut i: usize = 0;
    while i < cs.len()
        invariant
            i <= cs.len(),
            cs@ == s@,
            forall|k: int| 0 <= k < i ==> !is_control(#[trigger] s@[k]),
        decreases cs.len() - i,
    {
        if control(cs[i]) {
            return false;
        }
        i += 1;
    }
    cs.len() > 0
}

impl KeystrokeView {
    /// The text a key press types into a field: none with the command key held.
    pub open spec fn typed(self) -> Option<Seq<char>> {
        match self.key_char {
            Some(c) if !self.platform && is_typable(c) => Some(c),
            _ => None,
        }
    }

    /// The text a paste inserts.
    pub open spec fn pasted(self) -> Option<Seq<char>> {
        match self.clipboard {
            Some(t) => Some(trimmed(t)),
            None => None,
        }
    }

    /// The canonical name of the key press, such as `cmd-shift-p` or `/`.
    pub open spec fn canonical(self) -> Seq<char> {
        (if self.platform {
            "cmd-"@
        } else {
            Seq::empty()
        }) + (if self.control {
            "ctrl-"@
        } else {
            Seq::empty()
        }) + (if self.alt {
            "alt-"@
        } else {
            Seq::empty()
        }) + (if self.shift {
            "shift-"@
        } else {
            Seq::empty()
        }) + self.key
    }
}

impl Keystroke {
    /// The text a key press types into a field.
    pub fn typed(&self) -> (r: Option<String>)
        ensures
            opt_text(r) == self@.typed(),
    {
        if self.platform {
            return None;
        }
        match &self.key_char {
            Some(c) => if typable(c.as_str()) {
                Some(c.clone())
            } else {
                None
            },
            None => None,
        }
    }

    /// The text a paste inserts.
    pub fn pasted(&self) -> (r: Option<String>)
        ensures
            opt_text(r) == self@.pasted(),
    {
        match &self.clipboard {
            Some(t) => Some(trim(t.as_str())),
            None => None,
        }
    }
}

/// The canonical name of a key press, such as `cmd-shift-p` or `/`.
pub fn canon_keystroke(ks: &Keystroke) -> (r: String)
    ensures
        r@ == ks@.canonical(),
{
    let mut s = String::new();
    if ks.platform {
        s.append("cmd-");
    }
    if ks.control {
        s.append("ctrl-");
    }
    if ks.alt {
        s.append("alt-");
    }
    if ks.shift {
        s.append("shift-");
    }
    s.append(ks.key.as_str());
    proof {
        assert(s@ =~= ks@.canonical());
    }
    s
}

// ----- actions -------------------------------------------------------------------------

/// Every action that a key can be bound to.
#[derive(Clone, Copy, PartialEq, Eq, Structural, Debug)]
pub enum KeyAction {
    CommandPalette,
    NewTab,
    CloseTab,
    Find,
    SelectAll,
    NewFile,
    NewFolder,
    Rename,
    CopyPath,
    Duplicate,
    MakeAlias,
    Compress,
    MoveToTrash,
    RevealInFinder,
    Open,
    PaletteCursorStart,
    PaletteCursorEnd,
    PaletteSelectAll,
    PaletteDeleteToStart,
    PaletteHistoryPrev,
    PaletteHistoryNext,
}

/// The number of actions.
pub const ACTION_COUNT: usize = 21;

/// All actions, in the order they are listed and searched.
pub open spec fn all_actions() -> Seq<KeyAction> {
    seq![
        KeyAction::CommandPalette,
        KeyAction::NewTab,
        KeyAction::CloseTab,
        KeyAction::Find,
        KeyAction::SelectAll,
        KeyAction::NewFile,
        KeyAction::NewFolder,
        KeyAction::Rename,
        KeyAction::CopyPath,
        KeyAction::Duplicate,
        KeyAction::MakeAlias,
        KeyAction::Compress,
        KeyAction::MoveToTrash,
        KeyAction::RevealInFinder,
        KeyAction::Open,
        KeyAction::PaletteCursorStart,
        KeyAction::PaletteCursorEnd,
        KeyAction::PaletteSelectAll,
        KeyAction::PaletteDeleteToStart,
        KeyAction::PaletteHistoryPrev,
        KeyAction::PaletteHistoryNext,
    ]
}

/// The place of an action in the list of all actions.
pub open spec fn action_id(a: KeyAction) -> int {
    match a {
        KeyAction::CommandPalette => 0,
        KeyAction::NewTab => 1,
        KeyAction::CloseTab => 2,
        KeyAction::Find => 3,
        KeyAction::SelectAll => 4,
        KeyAction::NewFile => 5,
        KeyAction::NewFolder => 6,
        KeyAction::Rename => 7,
        KeyAction::CopyPath => 8,
        KeyAction::Duplicate => 9,
        KeyAction::MakeAlias => 10,
        KeyAction::Compress => 11,
        KeyAction::MoveToTrash => 12,
        KeyAction::RevealInFinder => 13,
        KeyAction::Open => 14,
        KeyAction::PaletteCursorStart => 15,
        KeyAction::PaletteCursorEnd => 16,
        KeyAction::PaletteSelectAll => 17,
        KeyAction::PaletteDeleteToStart => 18,
        KeyAction::PaletteHistoryPrev => 19,
        KeyAction::PaletteHistoryNext => 20,
    }
}

/// Each action stands at its own place.
pub proof fn lemma_action_id(a: KeyAction)
    ensures
        0 <= action_id(a) < all_actions().len(),
        all_actions()[action_id(a)] == a,
        all_actions().len() == ACTION_COUNT,
{
}

/// Each place holds the action whose place it is.
pub proof fn lemma_action_at(i: int)
    requires
        0 <= i < ACTION_COUNT,
    ensures
        action_id(all_actions()[i]) == i,
{
}

/// The name an action is saved under.
pub open spec fn action_key(a: KeyAction) -> Seq<char> {
    match a {
        KeyAction::CommandPalette => "command_palette"@,
        KeyAction::NewTab => "new_tab"@,
        KeyAction::CloseTab => "close_tab"@,
        KeyAction::Find => "find"@,
        KeyAction::SelectAll => "select_all"@,
        KeyAction::NewFile => "new_file"@,
        KeyAction::NewFolder => "new_folder"@,
        KeyAction::Rename => "rename"@,
        KeyAction::CopyPath => "copy_path"@,
        KeyAction::Duplicate => "duplicate"@,
        KeyAction::MakeAlias => "make_alias"@,
        KeyAction::Compress => "compress"@,
        KeyAction::MoveToTrash => "move_to_trash"@,
        KeyAction::RevealInFinder => "reveal_in_finder"@,
        KeyAction::Open => "open"@,
        KeyAction::PaletteCursorStart => "palette_cursor_start"@,
        KeyAction::PaletteCursorEnd => "palette_cursor_end"@,
        KeyAction::PaletteSelectAll => "palette_select_all"@,
        KeyAction::PaletteDeleteToStart => "palette_delete_to_start"@,
        KeyAction::PaletteHistoryPrev => "palette_history_prev"@,
        KeyAction::PaletteHistoryNext => "palette_history_next"@,
    }
}

/// The label an action is shown with.
pub open spec fn action_label(a: KeyAction) -> Seq<char> {
    match a {
        KeyAction::CommandPalette => "Command palette"@,
        KeyAction::NewTab => "New tab"@,
        KeyAction::CloseTab => "Close tab"@,
        KeyAction::Find => "Search current folder"@,
        KeyAction::SelectAll => "Select all"@,
        KeyAction::NewFile => "New file"@,
        KeyAction::NewFolder => "New folder"@,
        KeyAction::Rename => "Rename"@,
        KeyAction::CopyPath => "Copy path"@,
        KeyAction::Duplicate => "Duplicate"@,
        KeyAction::MakeAlias => "Make alias"@,
        KeyAction::Compress => "Compress"@,
        KeyAction::MoveToTrash => "Move to Trash"@,
        KeyAction::RevealInFinder => "Reveal in Finder"@,
        KeyAction::Open => "Open"@,
        KeyAction::PaletteCursorStart => "Palette: cursor to start"@,
        KeyAction::PaletteCursorEnd => "Palette: cursor to end"@,
        KeyAction::PaletteSelectAll => "Palette: select all"@,
        KeyAction::PaletteDeleteToStart => "Palette: delete to start"@,
        KeyAction::PaletteHistoryPrev => "Palette: previous history"@,
        KeyAction::PaletteHistoryNext => "Palette: next history"@,
    }
}

/// The key stroke an action is bound to at first, if any.
pub open spec fn first_binding(a: KeyAction) -> Option<Seq<char>> {
    match a {
        KeyAction::CommandPalette => Some("cmd-p"@),
        KeyAction::NewTab => Some("cmd-t"@),
        KeyAction::CloseTab => Some("cmd-w"@),
        KeyAction::Find => Some("/"@),
        KeyAction::SelectAll => Some("cmd-a"@),
        KeyAction::PaletteCursorStart => Some("cmd-left"@),
        KeyAction::PaletteCursorEnd => Some("cmd-right"@),
        KeyAction::PaletteSelectAll => Some("cmd-a"@),
        KeyAction::PaletteDeleteToStart => Some("ctrl-u"@),
        KeyAction::PaletteHistoryPrev => Some("up"@),
        KeyAction::PaletteHistoryNext => Some("down"@),
        _ => None,
    }
}

/// Whether an action applies only inside the palette.
pub open spec fn is_palette_action(a: KeyAction) -> bool {
    action_id(a) >= 15
}

impl KeyAction {
    /// The action at a place of the list of all actions.
    pub fn from_id(i: usize) -> (r: KeyAction)
        requires
            i < ACTION_COUNT,
        ensures
            r == all_actions()[i as int],
    {
        if i == 0 {
            KeyAction::CommandPalette
        } else if i == 1 {
            KeyAction::NewTab
        } else if i == 2 {
            KeyAction::CloseTab
        } else if i == 3 {
            KeyAction::Find
        } else if i == 4 {
            KeyAction::SelectAll
        } else if i == 5 {
            KeyAction::NewFile
        } else if i == 6 {
            KeyAction::NewFolder
        } else if i == 7 {
            KeyAction::Rename
        } else if i == 8 {
            KeyAction::CopyPath
        } else if i == 9 {
            KeyAction::Duplicate
        } else if i == 10 {
            KeyAction::MakeAlias
        } else if i == 11 {
            KeyAction::Compress
        } else if i == 12 {
            KeyAction::MoveToTrash
        } else if i == 13 {
            KeyAction::RevealInFinder
        } else if i == 14 {
            KeyAction::Open
        } else if i == 15 {
            KeyAction::PaletteCursorStart
        } else if i == 16 {
            KeyAction::PaletteCursorEnd
        } else if i == 17 {
            KeyAction::PaletteSelectAll
        } else if i == 18 {
            KeyAction::PaletteDeleteToStart
        } else if i == 19 {
            KeyAction::PaletteHistoryPrev
        } else {
            KeyAction::PaletteHistoryNext
        }
    }

    /// The place of the action in the list of all actions.
    pub fn id(self) -> (r: usize)
        ensures
            r == action_id(self),
            r < ACTION_COUNT,
    {
        match self {
            KeyAction::CommandPalette => 0,
            KeyAction::NewTab => 1,
            KeyAction::CloseTab => 2,
            KeyAction::Find => 3,
            KeyAction::SelectAll => 4,
            KeyAction::NewFile => 5,
            KeyAction::NewFolder => 6,
            KeyAction::Rename => 7,
            KeyAction::CopyPath => 8,
            KeyAction::Duplicate => 9,
            KeyAction::MakeAlias => 10,
            KeyAction::Compress => 11,
            KeyAction::MoveToTrash => 12,
            KeyAction::RevealInFinder => 13,
            KeyAction::Open => 14,
            KeyAction::PaletteCursorStart => 15,
            KeyAction::PaletteCursorEnd => 16,
            KeyAction::PaletteSelectAll => 17,
            KeyAction::PaletteDeleteToStart => 18,
            KeyAction::PaletteHistoryPrev => 19,
            KeyAction::PaletteHistoryNext => 20,
        }
    }

    /// Whether the action applies only inside the palette.
    pub fn is_palette(self) -> (r: bool)
        ensures
            r == is_palette_action(self),
    {
        self.id() >= 15
    }

    /// The name the action is saved under.
    pub fn key(self) -> (r: &'static str)
        ensures
            r@ == action_key(self),
    {
        match self {
            KeyAction::CommandPalette => "command_palette",
            KeyAction::NewTab => "new_tab",
            KeyAction::CloseTab => "close_tab",
            KeyAction::Find => "find",
            KeyAction::SelectAll => "select_all",
            KeyAction::NewFile => "new_file",
            KeyAction::NewFolder => "new_folder",
            KeyAction::Rename => "rename",
            KeyAction::CopyPath => "copy_path",
            KeyAction::Duplicate => "duplicate",
            KeyAction::MakeAlias => "make_alias",
            KeyAction::Compress => "compress",
            KeyAction::MoveToTrash => "move_to_trash",
            KeyAction::RevealInFinder => "reveal_in_finder",
            KeyAction::Open => "open",
            KeyAction::PaletteCursorStart => "palette_cursor_start",
            KeyAction::PaletteCursorEnd => "palette_cursor_end",
            KeyAction::PaletteSelectAll => "palette_select_all",
            KeyAction::PaletteDeleteToStart => "palette_delete_to_start",
            KeyAction::PaletteHistoryPrev => "palette_history_prev",
            KeyAction::PaletteHistoryNext => "palette_history_next",
        }
    }

    /// The label the action is shown with.
    pub fn label(self) -> (r: &'static str)
        ensures
            r@ == action_label(self),
    {
        match self {
            KeyAction::CommandPalette => "Command palette",
            KeyAction::NewTab => "New tab",
            KeyAction::CloseTab => "Close tab",
            KeyAction::Find => "Search current folder",
            KeyAction::SelectAll => "Select all",
            KeyAction::NewFile => "New file",
            KeyAction::NewFolder => "New folder",
            KeyAction::Rename => "Rename",
            KeyAction::CopyPath => "Copy path",
            KeyAction::Duplicate => "Duplicate",
            KeyAction::MakeAlias => "Make alias",
            KeyAction::Compress => "Compress",
            KeyAction::MoveToTrash => "Move to Trash",
            KeyAction::RevealInFinder => "Reveal in Finder",
            KeyAction::Open => "Open",
            KeyAction::PaletteCursorStart => "Palette: cursor to start",
            KeyAction::PaletteCursorEnd => "Palette: cursor to end",
            KeyAction::PaletteSelectAll => "Palette: select all",
            KeyAction::PaletteDeleteToStart => "Palette: delete to start",
            KeyAction::PaletteHistoryPrev => "Palette: previous history",
            KeyAction::PaletteHistoryNext => "Palette: next history",
        }
    }

    /// The key stroke the action is bound to at first.
    pub fn default_binding(self) -> (r: Option<&'static str>)
        ensures
            match r {
                Some(s) => first_binding(self) == Some(s@),
                None => first_binding(self) is None,
            },
    {
        match self {
            KeyAction::CommandPalette => Some("cmd-p"),
            KeyAction::NewTab => Some("cmd-t"),
            KeyAction::CloseTab => Some("cmd-w"),
            KeyAction::Find => Some("/"),
            KeyAction::SelectAll => Some("cmd-a"),
            KeyAction::PaletteCursorStart => Some("cmd-left"),
            KeyAction::PaletteCursorEnd => Some("cmd-right"),
            KeyAction::PaletteSelectAll => Some("cmd-a"),
            KeyAction::PaletteDeleteToStart => Some("ctrl-u"),
            KeyAction::PaletteHistoryPrev => Some("up"),
            KeyAction::PaletteHistoryNext => Some("down"),
            _ => None,
        }
    }
}

// ----- the key map ---------------------------------------------------------------------

/// The key bindings: at most one key stroke for each action.
pub struct Keymap {
    pub binds: Vec<Option<String>>,
}

/// Optional texts, as characters.
pub open spec fn opt_texts(v: Seq<Option<String>>) -> Seq<Option<Seq<char>>> {
    v.map_values(|b: Option<String>| opt_text(b))
}

impl View for Keymap {
    type V = Seq<Option<Seq<char>>>;

    open spec fn view(&self) -> Seq<Option<Seq<char>>> {
        opt_texts(self.binds@)
    }
}

/// The bindings before any are changed.
pub open spec fn default_binds() -> Seq<Option<Seq<char>>> {
    all_actions().map_values(|a: KeyAction| first_binding(a))
}

/// The first action, from place `from` on, that is bound to `ks`.
pub open spec fn bound_from(binds: Seq<Option<Seq<char>>>, ks: Seq<char>, from: int) -> Option<
    KeyAction,
>
    decreases ACTION_COUNT - from,
{
    if from >= ACTION_COUNT {
        None
    } else if binds[from] == Some(ks) {
        Some(all_actions()[from])
    } else {
        bound_from(binds, ks, from + 1)
    }
}

/// The action bound to `ks`, the first one in the list if there are several.
pub open spec fn bound_action(binds: Seq<Option<Seq<char>>>, ks: Seq<char>) -> Option<KeyAction> {
    bound_from(binds, ks, 0)
}

/// A copy of an optional text.
pub fn clone_opt(b: &Option<String>) -> (r: Option<String>)
    ensures
        opt_text(r) == opt_text(*b),
{
    match b {
        Some(s) => Some(s.clone()),
        None => None,
    }
}

impl Keymap {
    /// Whether there is a place for the binding of each action.
    pub open spec fn wf(&self) -> bool {
        self.binds@.len() == ACTION_COUNT
    }

    /// The bindings before any are changed.
    pub fn defaults() -> (r: Keymap)
        ensures
            r@ == default_binds(),
            r.wf(),
    {
        let mut binds: Vec<Option<String>> = Vec::new();
        let mut i: usize = 0;
        while i < ACTION_COUNT
            invariant
                i <= ACTION_COUNT,
                binds@.len() == i,
                opt_texts(binds@) == default_binds().take(i as int),
            decreases ACTION_COUNT - i,
        {
            let a = KeyAction::from_id(i);
            let b: Option<String> = match a.default_binding() {
                Some(s) => Some(owned(s)),
                None => None,
            };
            proof {
                assert(opt_texts(binds@.push(b)) == opt_texts(binds@).push(opt_text(b)));
                assert(default_binds().take(i + 1) == default_binds().take(i as int).push(
                    first_binding(a),
                ));
            }
            binds.push(b);
            i += 1;
        }
        proof {
            assert(default_binds().take(i as int) == default_binds());
        }
        Keymap { binds }
    }

    /// A copy of the key map.
    pub fn copy(&self) -> (r: Keymap)
        requires
            self.wf(),
        ensures
            r@ == self@,
            r.wf(),
    {
        let mut binds: Vec<Option<String>> = Vec::new();
        let mut i: usize = 0;
        while i < self.binds.len()
            invariant
                i <= self.binds.len(),
                binds@.len() == i,
                opt_texts(binds@) == self@.take(i as int),
            decreases self.binds.len() - i,
        {
            let b = clone_opt(&self.binds[i]);
            proof {
                assert(opt_texts(binds@.push(b)) == opt_texts(binds@).push(opt_text(b)));
                assert(self@.take(i + 1) == self@.take(i as int).push(opt_text(b)));
            }
            binds.push(b);
            i += 1;
        }
        proof {
            assert(self@.take(i as int) == self@);
        }
        Keymap { binds }
    }

    /// The key stroke an action is bound to.
    pub fn get(&self, a: KeyAction) -> (r: Option<String>)
        requires
            self.wf(),
        ensures
            opt_text(r) == self@[action_id(a)],
    {
        clone_opt(&self.binds[a.id()])
    }

    /// Whether an action is bound to `ks`.
    pub fn is_bound(&self, a: KeyAction, ks: &str) -> (r: bool)
        requires
            self.wf(),
        ensures
            r == (self@[action_id(a)] == Some(ks@)),
    {
        match &self.binds[a.id()] {
            Some(s) => same(s.as_str(), ks),
            None => false,
        }
    }

    /// Binds an action, or frees it.
    pub fn set(&mut self, a: KeyAction, b: Option<String>)
        requires
            old(self).wf(),
        ensures
            final(self)@ == old(self)@.update(action_id(a), opt_text(b)),
            final(self).wf(),
    {
        let i = a.id();
        self.binds.set(i, b);
        proof {
            assert(self@ == old(self)@.update(action_id(a), opt_text(b)));
        }
    }

    /// The action bound to `ks`, if any.
    pub fn action_for(&self, ks: &str) -> (r: Option<KeyAction>)
        requires
            self.wf(),
        ensures
            r == bound_action(self@, ks@),
    {
        let mut i: usize = 0;
        while i < ACTION_COUNT
            invariant
                i <= ACTION_COUNT,
                self.wf(),
                bound_from(self@, ks@, i as int) == bound_action(self@, ks@),
            decreases ACTION_COUNT - i,
        {
            let a = KeyAction::from_id(i);
            proof {
                lemma_action_at(i as int);
            }
            if self.is_bound(a, ks) {
                return Some(a);
            }
            i += 1;
        }
        None
    }
}

/// A binding that was just set is what is read back, and no other action's
/// binding changes.
pub proof fn law_set_then_get(
    binds: Seq<Option<Seq<char>>>,
    a: KeyAction,
    b: Option<Seq<char>>,
    other: KeyAction,
)
    requires
        binds.len() == ACTION_COUNT,
    ensures
        binds.update(action_id(a), b)[action_id(a)] == b,
        other != a ==> binds.update(action_id(a), b)[action_id(other)] == binds[action_id(other)],
{
    lemma_action_id(a);
    lemma_action_id(other);
}

// ----- the saved form ------------------------------------------------------------------

/// One line of the saved key map: an action and its key stroke, nothing behind
/// the equals sign for an action without one.
pub open spec fn bind_line(a: KeyAction, b: Option<Seq<char>>) -> Seq<char> {
    action_key(a) + "="@ + (match b {
        Some(s) => s,
        None => Seq::empty(),
    })
}

/// The lines of the saved key map.
pub open spec fn bind_lines(binds: Seq<Option<Seq<char>>>) -> Seq<Seq<char>> {
    Seq::new(ACTION_COUNT as nat, |i: int| bind_line(all_actions()[i], binds[i]))
}

/// The text a key map is saved as.
pub fn save_keymap(k: &Keymap) -> (r: String)
    requires
        k.wf(),
    ensures
        r@ == stacked(bind_lines(k@)),
{
    let mut lines: Vec<String> = Vec::new();
    let mut i: usize = 0;
    while i < ACTION_COUNT
        invariant
            i <= ACTION_COUNT,
            k.wf(),
            texts(lines@) == bind_lines(k@).take(i as int),
        decreases ACTION_COUNT - i,
    {
        let a = KeyAction::from_id(i);
        proof {
            lemma_action_at(i as int);
        }
        let mut line = concat(a.key(), "=");
        match k.get(a) {
            Some(s) => {
                line.append(s.as_str());
            },
            None => {
                proof {
                    assert(line@ =~= bind_line(a, None));
                }
            },
        }
        proof {
            assert(texts(lines@.push(line)) == texts(lines@).push(line@));
            assert(bind_lines(k@).take(i + 1) == bind_lines(k@).take(i as int).push(line@));
        }
        lines.push(line);
        i += 1;
    }
    proof {
        assert(bind_lines(k@).take(i as int) == bind_lines(k@));
    }
    stack_lines(&lines)
}

/// The first action, from place `from` on, that is saved under `name`.
pub open spec fn saved_from(name: Seq<char>, from: int) -> Option<KeyAction>
    decreases ACTION_COUNT - from,
{
    if from >= ACTION_COUNT {
        None
    } else if action_key(all_actions()[from]) == name {
        Some(all_actions()[from])
    } else {
        saved_from(name, from + 1)
    }
}

/// The bindings after reading one saved line.
pub open spec fn bound_by_line(binds: Seq<Option<Seq<char>>>, line: Seq<char>) -> Seq<
    Option<Seq<char>>,
> {
    match split_first(line, '=') {
        None => binds,
        Some((name, val)) => match saved_from(trimmed(name), 0) {
            None => binds,
            Some(a) => binds.update(
                action_id(a),
                if trimmed(val).len() == 0 {
                    None
                } else {
                    Some(trimmed(val))
                },
            ),
        },
    }
}

/// The bindings after reading saved lines.
pub open spec fn bound_by_lines(binds: Seq<Option<Seq<char>>>, lines: Seq<Seq<char>>) -> Seq<
    Option<Seq<char>>,
>
    decreases lines.len(),
{
    if lines.len() == 0 {
        binds
    } else {
        bound_by_line(bound_by_lines(binds, lines.drop_last()), lines.last())
    }
}

fn action_saved_as(name: &str) -> (r: Option<KeyAction>)
    ensures
        r == saved_from(name@, 0),
{
    let mut i: usize = 0;
    while i < ACTION_COUNT
        invariant
            i <= ACTION_COUNT,
            saved_from(name@, i as int) == saved_from(name@, 0),
        decreases ACTION_COUNT - i,
    {
        let a = KeyAction::from_id(i);
        if same(a.key(), name) {
            return Some(a);
        }
        i += 1;
    }
    None
}

/// The key map that a saved text stands for: the defaults, changed by each line.
pub fn load_keymap(text: &str) -> (r: Keymap)
    ensures
        r@ == bound_by_lines(default_binds(), lines_of(text@)),
        r.wf(),
{
    let mut k = Keymap::defaults();
    let all = lines(text);
    let mut i: usize = 0;
    while i < all.len()
        invariant
            i <= all.len(),
            texts(all@) == lines_of(text@),
            k.wf(),
            k@ == bound_by_lines(default_binds(), texts(all@).take(i as int)),
        decreases all.len() - i,
    {
        proof {
            let t = texts(all@);
            assert(t.take(i + 1).drop_last() == t.take(i as int));
            assert(t.take(i + 1).last() == all@[i as int]@);
        }
        match split_once(all[i].as_str(), '=') {
            Some((name, val)) => {
                match action_saved_as(trim(name.as_str()).as_str()) {
                    Some(a) => {
                        let v = trim(val.as_str());
                        if v.as_str().is_empty() {
                            k.set(a, None);
                        } else {
                            k.set(a, Some(v));
                        }
                    },
                    None => {},
                }
            },
            None => {},
        }
        i += 1;
    }
    proof {
        assert(texts(all@).take(i as int) == texts(all@));
    }
    k
}

/// A binding that survives being saved: on one line, with nothing to trim.
pub open spec fn savable_bind(b: Option<Seq<char>>) -> bool {
    b matches Some(s) ==> s.len() > 0 && is_trimmed(s) && !s.contains('\n')
}

proof fn lemma_action_keys(i: int)
    requires
        0 <= i < ACTION_COUNT,
    ensures
        ({
            let k = action_key(all_actions()[i]);
            &&& is_trimmed(k)
            &&& k.len() > 0
            &&& forall|n: int| 0 <= n < k.len() ==> #[trigger] k[n] != '=' && k[n] != '\n'
        }),
{
    reveal_strlit("command_palette");
    reveal_strlit("new_tab");
    reveal_strlit("close_tab");
    reveal_strlit("find");
    reveal_strlit("select_all");
    reveal_strlit("new_file");
    reveal_strlit("new_folder");
    reveal_strlit("rename");
    reveal_strlit("copy_path");
    reveal_strlit("duplicate");
    reveal_strlit("make_alias");
    reveal_strlit("compress");
    reveal_strlit("move_to_trash");
    reveal_strlit("reveal_in_finder");
    reveal_strlit("open");
    reveal_strlit("palette_cursor_start");
    reveal_strlit("palette_cursor_end");
    reveal_strlit("palette_select_all");
    reveal_strlit("palette_delete_to_start");
    reveal_strlit("palette_history_prev");
    reveal_strlit("palette_history_next");
}

proof fn lemma_action_keys_differ(i: int, j: int)
    requires
        0 <= i < j < ACTION_COUNT,
    ensures
        action_key(all_actions()[i]) != action_key(all_actions()[j]),
{
    reveal_strlit("command_palette");
    reveal_strlit("new_tab");
    reveal_strlit("close_tab");
    reveal_strlit("find");
    reveal_strlit("select_all");
    reveal_strlit("new_file");
    reveal_strlit("new_folder");
    reveal_strlit("rename");
    reveal_strlit("copy_path");
    reveal_strlit("duplicate");
    reveal_strlit("make_alias");
    reveal_strlit("compress");
    reveal_strlit("move_to_trash");
    reveal_strlit("reveal_in_finder");
    reveal_strlit("open");
    reveal_strlit("palette_cursor_start");
    reveal_strlit("palette_cursor_end");
    reveal_strlit("palette_select_all");
    reveal_strlit("palette_delete_to_start");
    reveal_strlit("palette_history_prev");
    reveal_strlit("palette_history_next");
    let a = action_key(all_actions()[i]);
    let b = action_key(all_actions()[j]);
    if a == b {
        assert(a.len() == b.len());
        assert(a[0] == b[0]);
        assert(a[a.len() - 1] == b[b.len() - 1]);
        assert(a.len() > 8 ==> a[8] == b[8]);
    }
}

proof fn lemma_saved_from(i: int, from: int)
    requires
        0 <= from <= i < ACTION_COUNT,
    ensures
        saved_from(action_key(all_actions()[i]), from) == Some(all_actions()[i]),
    decreases i - from,
{
    if from < i {
        lemma_action_keys_differ(from, i);
        lemma_saved_from(i, from + 1);
    }
}

proof fn lemma_bind_line(binds: Seq<Option<Seq<char>>>, i: int, b: Option<Seq<char>>)
    requires
        0 <= i < ACTION_COUNT,
        binds.len() == ACTION_COUNT,
        savable_bind(b),
    ensures
        one_line(bind_line(all_actions()[i], b)),
        bound_by_line(binds, bind_line(all_actions()[i], b)) == binds.update(i, b),
{
    let a = all_actions()[i];
    let k = action_key(a);
    let v = match b {
        Some(s) => s,
        None => Seq::empty(),
    };
    let line = bind_line(a, b);
    lemma_action_keys(i);
    lemma_action_at(i);
    reveal_strlit("=");
    assert(line.len() == k.len() + 1 + v.len());
    assert(line[k.len() as int] == '=');
    assert forall|n: int| 0 <= n < k.len() implies #[trigger] line[n] != '=' by {
        assert(line[n] == k[n]);
    }
    lemma_until_at(line, '=', k.len() as int);
    assert(line.take(k.len() as int) == k);
    assert(line.skip(k.len() as int + 1) == v);
    lemma_trimmed_fixpoint(k);
    lemma_trimmed_fixpoint(v);
    lemma_saved_from(i, 0);
    if line.contains('\n') {
        let n = choose|n: int| 0 <= n < line.len() && line[n] == '\n';
        if n < k.len() {
            assert(line[n] == k[n]);
        } else if n > k.len() {
            assert(v[n - k.len() - 1] == '\n');
            assert(v.contains('\n'));
        }
    }
    if v.len() > 0 {
        assert(line.last() == v.last());
    } else {
        assert(line.last() == '=');
    }
}

/// A key map reads back as it was saved, if its key strokes stand on one line
/// each and have no white space at their ends.
pub proof fn law_keymap_reads_back(binds: Seq<Option<Seq<char>>>)
    requires
        binds.len() == ACTION_COUNT,
        forall|i: int| 0 <= i < binds.len() ==> savable_bind(#[trigger] binds[i]),
    ensures
        bound_by_lines(default_binds(), lines_of(stacked(bind_lines(binds)))) == binds,
{
    let ls = bind_lines(binds);
    assert forall|i: int| 0 <= i < ls.len() implies one_line(#[trigger] ls[i]) by {
        lemma_bind_line(binds, i, binds[i]);
    }
    lemma_stacked_lines(ls);
    lemma_read_prefix(binds, ACTION_COUNT as int);
    assert(ls.take(ACTION_COUNT as int) == ls);
    assert(binds.take(ACTION_COUNT as int) + default_binds().skip(ACTION_COUNT as int) == binds);
}

proof fn lemma_read_prefix(binds: Seq<Option<Seq<char>>>, n: int)
    requires
        0 <= n <= ACTION_COUNT,
        binds.len() == ACTION_COUNT,
        forall|i: int| 0 <= i < binds.len() ==> savable_bind(#[trigger] binds[i]),
    ensures
        bound_by_lines(default_binds(), bind_lines(binds).take(n)) == binds.take(n)
            + default_binds().skip(n),
    decreases n,
{
    let d = default_binds();
    assert(d.len() == ACTION_COUNT);
    if n == 0 {
        assert(bind_lines(binds).take(0) == Seq::<Seq<char>>::empty());
        assert(binds.take(0) + d.skip(0) == d);
    } else {
        lemma_read_prefix(binds, n - 1);
        let t = bind_lines(binds).take(n);
        assert(t.drop_last() == bind_lines(binds).take(n - 1));
        assert(t.last() == bind_line(all_actions()[n - 1], binds[n - 1]));
        let mid = binds.take(n - 1) + d.skip(n - 1);
        lemma_bind_line(mid, n - 1, binds[n - 1]);
        assert(mid.update(n - 1, binds[n - 1]) == binds.take(n) + d.skip(n));
    }
}

/// Each line of the file of key strokes binds the action that it names, and leaves the
/// others alone; a line with nothing behind the name unbinds it.
pub proof fn law_lines_bind_what_they_name(binds: Seq<Option<Seq<char>>>, s: Seq<char>)
    requires
        binds.len() == ACTION_COUNT,
        one_line(s) && is_trimmed(s) && s.len() > 0,
    ensures
        bound_by_line(binds, "command_palette"@ + "="@ + s) == binds.update(
            action_id(KeyAction::CommandPalette),
            Some(s),
        ),
        bound_by_line(binds, "new_tab"@ + "="@ + s) == binds.update(
            action_id(KeyAction::NewTab),
            Some(s),
        ),
        bound_by_line(binds, "close_tab"@ + "="@ + s) == binds.update(
            action_id(KeyAction::CloseTab),
            Some(s),
        ),
        bound_by_line(binds, "find"@ + "="@ + s) == binds.update(
            action_id(KeyAction::Find),
            Some(s),
        ),
        bound_by_line(binds, "select_all"@ + "="@ + s) == binds.update(
            action_id(KeyAction::SelectAll),
            Some(s),
        ),
        bound_by_line(binds, "new_file"@ + "="@ + s) == binds.update(
            action_id(KeyAction::NewFile),
            Some(s),
        ),
        bound_by_line(binds, "new_folder"@ + "="@ + s) == binds.update(
            action_id(KeyAction::NewFolder),
            Some(s),
        ),
        bound_by_line(binds, "rename"@ + "="@ + s) == binds.update(
            action_id(KeyAction::Rename),
            Some(s),
        ),
        bound_by_line(binds, "copy_path"@ + "="@ + s) == binds.update(
            action_id(KeyAction::CopyPath),
            Some(s),
        ),
        bound_by_line(binds, "duplicate"@ + "="@ + s) == binds.update(
            action_id(KeyAction::Duplicate),
            Some(s),
        ),
        bound_by_line(binds, "make_alias"@ + "="@ + s) == binds.update(
            action_id(KeyAction::MakeAlias),
            Some(s),
        ),
        bound_by_line(binds, "compress"@ + "="@ + s) == binds.update(
            action_id(KeyAction::Compress),
            Some(s),
        ),
        bound_by_line(binds, "move_to_trash"@ + "="@ + s) == binds.update(
            action_id(KeyAction::MoveToTrash),
            Some(s),
        ),
        bound_by_line(binds, "reveal_in_finder"@ + "="@ + s) == binds.update(
            action_id(KeyAction::RevealInFinder),
            Some(s),
        ),
        bound_by_line(binds, "open"@ + "="@ + s) == binds.update(
            action_id(KeyAction::Open),
            Some(s),
        ),
        bound_by_line(binds, "palette_cursor_start"@ + "="@ + s) == binds.update(
            action_id(KeyAction::PaletteCursorStart),
            Some(s),
        ),
        bound_by_line(binds, "palette_cursor_end"@ + "="@ + s) == binds.update(
            action_id(KeyAction::PaletteCursorEnd),
            Some(s),
        ),
        bound_by_line(binds, "palette_select_all"@ + "="@ + s) == binds.update(
            action_id(KeyAction::PaletteSelectAll),
            Some(s),
        ),
        bound_by_line(binds, "palette_delete_to_start"@ + "="@ + s) == binds.update(
            action_id(KeyAction::PaletteDeleteToStart),
            Some(s),
        ),
        bound_by_line(binds, "palette_history_prev"@ + "="@ + s) == binds.update(
            action_id(KeyAction::PaletteHistoryPrev),
            Some(s),
        ),
        bound_by_line(binds, "palette_history_next"@ + "="@ + s) == binds.update(
            action_id(KeyAction::PaletteHistoryNext),
            Some(s),
        ),
        bound_by_line(binds, "rename"@ + "="@) == binds.update(action_id(KeyAction::Rename), None),
{
    lemma_action_id(KeyAction::CommandPalette);
    lemma_bind_line(binds, action_id(KeyAction::CommandPalette), Some(s));
    lemma_action_id(KeyAction::NewTab);
    lemma_bind_line(binds, action_id(KeyAction::NewTab), Some(s));
    lemma_action_id(KeyAction::CloseTab);
    lemma_bind_line(binds, action_id(KeyAction::CloseTab), Some(s));
    lemma_action_id(KeyAction::Find);
    lemma_bind_line(binds, action_id(KeyAction::Find), Some(s));
    lemma_action_id(KeyAction::SelectAll);
    lemma_bind_line(binds, action_id(KeyAction::SelectAll), Some(s));
    lemma_action_id(KeyAction::NewFile);
    lemma_bind_line(binds, action_id(KeyAction::NewFile), Some(s));
    lemma_action_id(KeyAction::NewFolder);
    lemma_bind_line(binds, action_id(KeyAction::NewFolder), Some(s));
    lemma_action_id(KeyAction::Rename);
    lemma_bind_line(binds, action_id(KeyAction::Rename), Some(s));
    lemma_action_id(KeyAction::CopyPath);
    lemma_bind_line(binds, action_id(KeyAction::CopyPath), Some(s));
    lemma_action_id(KeyAction::Duplicate);
    lemma_bind_line(binds, action_id(KeyAction::Duplicate), Some(s));
    lemma_action_id(KeyAction::MakeAlias);
    lemma_bind_line(binds, action_id(KeyAction::MakeAlias), Some(s));
    lemma_action_id(KeyAction::Compress);
    lemma_bind_line(binds, action_id(KeyAction::Compress), Some(s));
    lemma_action_id(KeyAction::MoveToTrash);
    lemma_bind_line(binds, action_id(KeyAction::MoveToTrash), Some(s));
    lemma_action_id(KeyAction::RevealInFinder);
    lemma_bind_line(binds, action_id(KeyAction::RevealInFinder), Some(s));
    lemma_action_id(KeyAction::Open);
    lemma_bind_line(binds, action_id(KeyAction::Open), Some(s));
    lemma_action_id(KeyAction::PaletteCursorStart);
    lemma_bind_line(binds, action_id(KeyAction::PaletteCursorStart), Some(s));
    lemma_action_id(KeyAction::PaletteCursorEnd);
    lemma_bind_line(binds, action_id(KeyAction::PaletteCursorEnd), Some(s));
    lemma_action_id(KeyAction::PaletteSelectAll);
    lemma_bind_line(binds, action_id(KeyAction::PaletteSelectAll), Some(s));
    lemma_action_id(KeyAction::PaletteDeleteToStart);
    lemma_bind_line(binds, action_id(KeyAction::PaletteDeleteToStart), Some(s));
    lemma_action_id(KeyAction::PaletteHistoryPrev);
    lemma_bind_line(binds, action_id(KeyAction::PaletteHistoryPrev), Some(s));
    lemma_action_id(KeyAction::PaletteHistoryNext);
    lemma_bind_line(binds, action_id(KeyAction::PaletteHistoryNext), Some(s));
    lemma_bind_line(binds, action_id(KeyAction::Rename), None);
    assert("rename"@ + "="@ =~= "rename"@ + "="@ + Seq::<char>::empty());
}

} // verus!
