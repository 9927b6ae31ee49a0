//! The whole of a window: its panes, sidebar, palette, command bar and dialogs,
//! and how every key finds the one that wants it.

use crate::editing::{
    FieldStep, FieldStepView, LineStep, field_key, handle_field_key, handle_line_key,
    law_keys_keep_cursor_inside, line_key,
};
use crate::field::{Field, FieldView};
use crate::keymap::{
    Key, KeyAction, Keymap, Keystroke, KeystrokeView, bound_action, canon_keystroke, clone_opt,
    is_palette_action, key_named, key_of,
};
use crate::listing::{Entry, rows};
use crate::menus::{MenuView, target_view};
use crate::palette::{
    Action, ActionView, Palette, PaletteAction, PaletteMode, PaletteView, SearchScope, next_gen,
};
use crate::palette_keys::{PaletteStep, PaletteStepView};
use crate::paths::{
    expand_path, expanded, file_name, file_name_of, join_path, joined_path, law_join_then_parent,
    parent, parent_of, plain_name, same_path, same_place,
};
use crate::persist::{groups_of, list_entries, load_groups, read_string_list};
use crate::places::{no_repeats, sort_paths, sorted_paths};
use crate::prefs::Prefs;
use crate::sidebar::{Favorite, Sidebar, SidebarView, favorites_view, server_url};
use crate::sorting::positions;
use crate::tabs::{Tab, TabView};
use crate::terminal::{StepView, TermStep, TermView, Terminal};
use crate::text::{
    ascii_lowered, chars_of, find_char, lemma_until, lines_of, opt_text, owned, same, texts,
    to_ascii_lower, trim, trimmed, utf8_len, utf8_size,
};
use crate::workspace::{PaneView, SplitChange, WorkView, Workspace};
use vstd::prelude::*;

verus! {

/// A rename in progress.
pub struct Rename {
    pub pane: usize,
    pub path: String,
    pub field: Field,
}

/// An open context menu: the pane it acts on, what it was opened on, and the
/// level that is shown.
pub struct ContextMenu {
    pub pane: usize,
    pub target: Option<(String, bool)>,
    pub level: MenuView,
}

/// The state of a window.
pub struct Shuffle {
    pub work: Workspace,
    pub side: Sidebar,
    pub palette: Palette,
    pub term: Terminal,
    pub rename: Option<Rename>,
    /// What is about to be moved to the trash, and the pane it is in.
    pub confirm: Option<(usize, Vec<String>)>,
    pub server_dialog: Option<String>,
    pub group_dialog: Option<String>,
    pub menu: Option<ContextMenu>,
    /// The row under the mouse.
    pub hovered: Option<(usize, String)>,
    /// The page of the PDF that is previewed.
    pub page: usize,
    /// The number of the latest load of a folder.
    pub loads: u64,
    /// The folder that the index of the palette covers.
    pub indexed: Option<String>,
    /// The folder that is being indexed.
    pub indexing: Option<String>,
}

/// The texts of the files that the lists of a window are saved in.
pub struct Saved {
    pub groups: String,
    pub folded: String,
    pub servers: String,
    pub history: String,
}

/// The mathematical value of a rename in progress.
#[verifier::ext_equal]
pub struct RenameView {
    pub pane: int,
    pub path: Seq<char>,
    pub field: FieldView,
}

/// The mathematical value of a context menu.
#[verifier::ext_equal]
pub struct ContextView {
    pub pane: int,
    pub target: Option<(Seq<char>, bool)>,
    pub level: MenuView,
}

/// The mathematical value of a window.
#[verifier::ext_equal]
pub struct ShuffleView {
    pub work: WorkView,
    pub side: SidebarView,
    pub palette: PaletteView,
    pub term: TermView,
    pub rename: Option<RenameView>,
    pub confirm: Option<(int, Seq<Seq<char>>)>,
    pub server_dialog: Option<Seq<char>>,
    pub group_dialog: Option<Seq<char>>,
    pub menu: Option<ContextView>,
    pub hovered: Option<(int, Seq<char>)>,
    pub page: int,
    pub loads: u64,
    pub indexed: Option<Seq<char>>,
    pub indexing: Option<Seq<char>>,
}

impl View for Rename {
    type V = RenameView;

    open spec fn view(&self) -> RenameView {
        RenameView { pane: self.pane as int, path: self.path@, field: self.field@ }
    }
}

impl View for ContextMenu {
    type V = ContextView;

    open spec fn view(&self) -> ContextView {
        ContextView {
            pane: self.pane as int,
            target: target_view(self.target),
            level: self.level,
        }
    }
}

/// An optional rename, as its mathematical value.
pub open spec fn opt_rename(r: Option<Rename>) -> Option<RenameView> {
    match r {
        Some(x) => Some(x@),
        None => None,
    }
}

/// An optional context menu, as its mathematical value.
pub open spec fn opt_menu(m: Option<ContextMenu>) -> Option<ContextView> {
    match m {
        Some(x) => Some(x@),
        None => None,
    }
}

/// What is about to be moved to the trash, with paths as characters.
pub open spec fn opt_confirm(c: Option<(usize, Vec<String>)>) -> Option<(int, Seq<Seq<char>>)> {
    match c {
        Some(x) => Some((x.0 as int, texts(x.1@))),
        None => None,
    }
}

/// An optional item of a pane, with its path as characters.
pub open spec fn opt_item(h: Option<(usize, String)>) -> Option<(int, Seq<char>)> {
    match h {
        Some(x) => Some((x.0 as int, x.1@)),
        None => None,
    }
}

impl View for Shuffle {
    type V = ShuffleView;

    open spec fn view(&self) -> ShuffleView {
        ShuffleView {
            work: self.work@,
            side: self.side@,
            palette: self.palette@,
            term: self.term@,
            rename: opt_rename(self.rename),
            confirm: opt_confirm(self.confirm),
            server_dialog: opt_text(self.server_dialog),
            group_dialog: opt_text(self.group_dialog),
            menu: opt_menu(self.menu),
            hovered: opt_item(self.hovered),
            page: self.page as int,
            loads: self.loads,
            indexed: opt_text(self.indexed),
            indexing: opt_text(self.indexing),
        }
    }
}

/// What has to be done outside the library after a key or a click.
pub enum Deed {
    /// Nothing.
    Idle,
    /// Showing the change.
    Redraw,
    /// Putting text on the clipboard.
    Clipboard(String),
    /// Going to a path, if it is a folder.
    Visit { pane: usize, path: String },
    /// Opening a file with its application.
    OpenFile(String),
    /// Going to a path if it is a folder, opening it otherwise.
    OpenItem { pane: usize, path: String },
    /// Showing a path in the system's file manager.
    Finder(String),
    /// Moving paths to the trash and reading the pane again.
    Trash { pane: usize, paths: Vec<String> },
    /// Committing the rename in progress, once it is known whether its name is
    /// taken.
    CommitRename,
    /// Renaming a path on disk.
    Rename { pane: usize, from: String, to: String },
    /// Renaming the row under the mouse if it is still there, else the focused
    /// one.
    RenameHovered { pane: usize, path: String },
    NewTab { pane: usize },
    NewFile { pane: usize },
    NewFolder { pane: usize },
    Duplicate { pane: usize, path: String },
    MakeAlias { pane: usize, path: String },
    Compress { pane: usize, path: String },
    /// Bringing the results of the palette up to date.
    RefreshPalette,
    /// Opening the address of a server, and saving the list of servers.
    OpenUrl(String),
    /// Saving the groups of the sidebar.
    SaveGroups,
    OpenSettings,
    /// Running a command in a shell, in the folder of a pane.
    RunShell { pane: usize, command: String },
    /// Going to a folder that was typed after `cd`.
    Cd { pane: usize, target: String, arg: String },
    /// Completing the command that is typed.
    Complete,
    /// Moving the selection of the pane with the keyboard.
    Arrow { dx: i8, dy: i8 },
    /// A tab was closed or moved.
    Split(SplitChange),
    /// Going to a folder and selecting a path in it.
    ShowIn { pane: usize, dir: String, path: String },
    /// Looking up what the inspector shows of a path.
    Look { pane: usize, path: String },
    /// Opening a tab on a folder, and selecting a path in it if there is one.
    TabAt { pane: usize, dir: String, reveal: Option<String> },
}

/// What has to be done, with texts as characters.
#[verifier::ext_equal]
pub enum DeedView {
    Idle,
    Redraw,
    Clipboard(Seq<char>),
    Visit { pane: int, path: Seq<char> },
    OpenFile(Seq<char>),
    OpenItem { pane: int, path: Seq<char> },
    Finder(Seq<char>),
    Trash { pane: int, paths: Seq<Seq<char>> },
    CommitRename,
    Rename { pane: int, from: Seq<char>, to: Seq<char> },
    RenameHovered { pane: int, path: Seq<char> },
    NewTab { pane: int },
    NewFile { pane: int },
    NewFolder { pane: int },
    Duplicate { pane: int, path: Seq<char> },
    MakeAlias { pane: int, path: Seq<char> },
    Compress { pane: int, path: Seq<char> },
    RefreshPalette,
    OpenUrl(Seq<char>),
    SaveGroups,
    OpenSettings,
    RunShell { pane: int, command: Seq<char> },
    Cd { pane: int, target: Seq<char>, arg: Seq<char> },
    Complete,
    Arrow { dx: int, dy: int },
    Split(SplitChange),
    ShowIn { pane: int, dir: Seq<char>, path: Seq<char> },
    Look { pane: int, path: Seq<char> },
    TabAt { pane: int, dir: Seq<char>, reveal: Option<Seq<char>> },
}

impl View for Deed {
    type V = DeedView;

    open spec fn view(&self) -> DeedView {
        match self {
            Deed::Idle => DeedView::Idle,
            Deed::Redraw => DeedView::Redraw,
            Deed::Clipboard(t) => DeedView::Clipboard(t@),
            Deed::Visit { pane, path } => DeedView::Visit { pane: *pane as int, path: path@ },
            Deed::OpenFile(p) => DeedView::OpenFile(p@),
            Deed::OpenItem { pane, path } => DeedView::OpenItem {
                pane: *pane as int,
                path: path@,
            },
            Deed::Finder(p) => DeedView::Finder(p@),
            Deed::Trash { pane, paths } => DeedView::Trash {
                pane: *pane as int,
                paths: texts(paths@),
            },
            Deed::CommitRename => DeedView::CommitRename,
            Deed::Rename { pane, from, to } => DeedView::Rename {
                pane: *pane as int,
                from: from@,
                to: to@,
            },
            Deed::RenameHovered { pane, path } => DeedView::RenameHovered {
                pane: *pane as int,
                path: path@,
            },
            Deed::NewTab { pane } => DeedView::NewTab { pane: *pane as int },
            Deed::NewFile { pane } => DeedView::NewFile { pane: *pane as int },
            Deed::NewFolder { pane } => DeedView::NewFolder { pane: *pane as int },
            Deed::Duplicate { pane, path } => DeedView::Duplicate {
                pane: *pane as int,
                path: path@,
            },
            Deed::MakeAlias { pane, path } => DeedView::MakeAlias {
                pane: *pane as int,
                path: path@,
            },
            Deed::Compress { pane, path } => DeedView::Compress {
                pane: *pane as int,
                path: path@,
            },
            Deed::RefreshPalette => DeedView::RefreshPalette,
            Deed::OpenUrl(u) => DeedView::OpenUrl(u@),
            Deed::SaveGroups => DeedView::SaveGroups,
            Deed::OpenSettings => DeedView::OpenSettings,
            Deed::RunShell { pane, command } => DeedView::RunShell {
                pane: *pane as int,
                command: command@,
            },
            Deed::Cd { pane, target, arg } => DeedView::Cd {
                pane: *pane as int,
                target: target@,
                arg: arg@,
            },
            Deed::Complete => DeedView::Complete,
            Deed::Arrow { dx, dy } => DeedView::Arrow { dx: *dx as int, dy: *dy as int },
            Deed::Split(c) => DeedView::Split(*c),
            Deed::ShowIn { pane, dir, path } => DeedView::ShowIn {
                pane: *pane as int,
                dir: dir@,
                path: path@,
            },
            Deed::Look { pane, path } => DeedView::Look { pane: *pane as int, path: path@ },
            Deed::TabAt { pane, dir, reveal } => DeedView::TabAt {
                pane: *pane as int,
                dir: dir@,
                reveal: opt_text(*reveal),
            },
        }
    }
}

/// The answer to a key: what has to be done, and whether the history of the
/// palette has to be saved.
pub struct Reply {
    pub deed: Deed,
    pub save_history: bool,
}

impl View for Reply {
    type V = (DeedView, bool);

    open spec fn view(&self) -> (DeedView, bool) {
        (self.deed@, self.save_history)
    }
}

// ----- rename --------------------------------------------------------------------------

/// Whether two texts are the same but for the case of `A..Z`.
pub open spec fn same_but_case(a: Seq<char>, b: Seq<char>) -> bool {
    ascii_lowered(a) == ascii_lowered(b)
}

/// Why a name cannot be used.
#[derive(Clone, Copy, PartialEq, Eq, Structural, Debug)]
pub enum NameFault {
    Slash,
    Colon,
    Reserved,
    TooLong,
    Taken,
}

/// The reason in words.
pub open spec fn name_fault_text(f: NameFault) -> Seq<char> {
    match f {
        NameFault::Slash => "Names can’t contain “/”"@,
        NameFault::Colon => "Names can’t contain “:”"@,
        NameFault::Reserved => "That name is reserved"@,
        NameFault::TooLong => "That name is too long"@,
        NameFault::Taken => "Another item here already has this name"@,
    }
}

impl NameFault {
    /// The reason in words.
    pub fn message(self) -> (r: &'static str)
        ensures
            r@ == name_fault_text(self),
    {
        match self {
            NameFault::Slash => "Names can’t contain “/”",
            NameFault::Colon => "Names can’t contain “:”",
            NameFault::Reserved => "That name is reserved",
            NameFault::TooLong => "That name is too long",
            NameFault::Taken => "Another item here already has this name",
        }
    }
}

impl RenameView {
    /// The name as it would be used.
    pub open spec fn name(self) -> Seq<char> {
        trimmed(self.field.text)
    }

    /// Whether the new name differs from the old one in case at most.
    pub open spec fn keeps_name(self) -> bool {
        file_name_of(self.path) matches Some(n) && same_but_case(n, self.name())
    }

    /// Where the new name leads, if the old path has a folder.
    pub open spec fn dest(self) -> Option<Seq<char>> {
        match parent_of(self.path) {
            Some(p) => Some(joined_path(p, self.name())),
            None => None,
        }
    }

    /// Why the name cannot be used; an empty name only cancels. `taken` says
    /// whether something is already there.
    pub open spec fn fault(self, taken: bool) -> Option<NameFault> {
        let n = self.name();
        if n.len() == 0 {
            None
        } else if n.contains('/') {
            Some(NameFault::Slash)
        } else if n.contains(':') {
            Some(NameFault::Colon)
        } else if n == "."@ || n == ".."@ {
            Some(NameFault::Reserved)
        } else if utf8_size(n) > 255 {
            Some(NameFault::TooLong)
        } else if !self.keeps_name() && self.dest() is Some && taken {
            Some(NameFault::Taken)
        } else {
            None
        }
    }

    /// The move on disk that commits the rename, if there is one to make.
    pub open spec fn committed(self, taken: bool) -> DeedView {
        match self.dest() {
            Some(d) => if self.name().len() > 0 && !same_place(d, self.path) && (self.keeps_name()
                || !taken) {
                DeedView::Rename { pane: self.pane, from: self.path, to: d }
            } else {
                DeedView::Redraw
            },
            None => DeedView::Redraw,
        }
    }
}

fn has_char(s: &str, c: char) -> (r: bool)
    ensures
        r == s@.contains(c),
{
    let cs = chars_of(s);
    let i = find_char(&cs, 0, c);
    proof {
        assert(cs@.skip(0) =~= cs@);
        lemma_until(cs@, c);
    }
    i < cs.len()
}

fn equal_but_case(a: &str, b: &str) -> (r: bool)
    ensures
        r == same_but_case(a@, b@),
{
    same(to_ascii_lower(a).as_str(), to_ascii_lower(b).as_str())
}

impl Rename {
    /// The name as it would be used.
    pub fn name(&self) -> (r: String)
        ensures
            r@ == self@.name(),
    {
        trim(self.field.text.as_str())
    }

    /// Whether the new name differs from the old one in case at most.
    pub fn keeps_name(&self) -> (r: bool)
        ensures
            r == self@.keeps_name(),
    {
        match file_name(self.path.as_str()) {
            Some(n) => equal_but_case(n.as_str(), self.name().as_str()),
            None => false,
        }
    }

    /// Where the new name leads.
    pub fn dest(&self) -> (r: Option<String>)
        ensures
            opt_text(r) == self@.dest(),
    {
        match parent(self.path.as_str()) {
            Some(p) => Some(join_path(p.as_str(), self.name().as_str())),
            None => None,
        }
    }

    /// Why the name cannot be used.
    pub fn rename_error(&self, taken: bool) -> (r: Option<NameFault>)
        ensures
            r == self@.fault(taken),
    {
        let n = self.name();
        if n.as_str().is_empty() {
            return None;
        }
        if has_char(n.as_str(), '/') {
            return Some(NameFault::Slash);
        }
        if has_char(n.as_str(), ':') {
            return Some(NameFault::Colon);
        }
        if same(n.as_str(), ".") || same(n.as_str(), "..") {
            return Some(NameFault::Reserved);
        }
        if utf8_len(n.as_str()) > 255 {
            return Some(NameFault::TooLong);
        }
        if !self.keeps_name() && self.dest().is_some() && taken {
            return Some(NameFault::Taken);
        }
        None
    }
}

/// A name that is accepted and not empty can stand for an entry of a folder.
pub proof fn law_accepted_names_are_plain(r: RenameView, taken: bool)
    requires
        r.fault(taken) is None,
        r.name().len() > 0,
    ensures
        plain_name(r.name()),
        r.dest() matches Some(d) ==> file_name_of(d) == Some(r.name()),
{
    reveal_strlit(".");
    reveal_strlit("..");
    assert("."@ =~= seq!['.']);
    assert(".."@ =~= seq!['.', '.']);
    match parent_of(r.path) {
        Some(p) => {
            law_join_then_parent(p, r.name());
        },
        None => {},
    }
}

/// A committed rename never overwrites: where something is at the destination,
/// the name changes in case only.
pub proof fn law_rename_never_overwrites(r: RenameView)
    ensures
        r.committed(true) is Rename ==> r.keeps_name(),
{
}

// ----- the window ----------------------------------------------------------------------

/// The number of the load that follows `n`, starting over behind the largest.
pub open spec fn next_load(n: u64) -> u64 {
    next_gen(n)
}

impl ShuffleView {
    /// Whether the parts of the window are in order.
    pub open spec fn wf(self) -> bool {
        &&& self.work.wf()
        &&& self.palette.wf()
        &&& self.rename matches Some(r) ==> r.field.wf()
    }

    /// A window with one tab and nothing open.
    pub open spec fn fresh(tab: TabView, side: SidebarView, hist: Seq<Seq<char>>) -> ShuffleView {
        ShuffleView {
            work: WorkView {
                panes: seq![PaneView { tabs: seq![tab], active: 0 }],
                active: 0,
            },
            side,
            palette: PaletteView {
                open: false,
                mode: PaletteMode::Commands,
                query: FieldView::holding(Seq::empty()),
                hist,
                hist_pos: None,
                items: Seq::empty(),
                selected: 0,
                actions: None,
                gen: 0,
            },
            term: TermView { input: Seq::empty(), output: Seq::empty(), focused: false },
            rename: None,
            confirm: None,
            server_dialog: None,
            group_dialog: None,
            menu: None,
            hovered: None,
            page: 0,
            loads: 0,
            indexed: None,
            indexing: None,
        }
    }

    /// The tab in front of the pane with the keyboard.
    pub open spec fn tab(self) -> TabView {
        self.work.tab(self.work.active)
    }

    /// With the front tab of a pane replaced.
    pub open spec fn with_tab(self, pane: int, t: TabView) -> ShuffleView {
        ShuffleView { work: self.work.with_tab(pane, t), ..self }
    }

    /// With a rename of `path` begun: its whole name is selected.
    pub open spec fn renaming(self, pane: int, path: Seq<char>) -> ShuffleView {
        let name = match file_name_of(path) {
            Some(n) => n,
            None => Seq::empty(),
        };
        ShuffleView {
            work: self.work.focusing(pane),
            rename: Some(
                RenameView { pane, path, field: FieldView::holding(name).all_selected() },
            ),
            ..self
        }
    }

    /// What a delete would move to the trash: the selection, or the focused item.
    pub open spec fn doomed(self, pane: int) -> Seq<Seq<char>> {
        let t = self.work.tab(pane);
        if t.selection.len() > 0 {
            sorted_paths(t.selection)
        } else {
            match t.anchor {
                Some(a) => seq![a],
                None => Seq::empty(),
            }
        }
    }

    /// After a delete is asked for: it has to be confirmed.
    pub open spec fn asked_delete(self, pane: int) -> (ShuffleView, DeedView) {
        if self.doomed(pane).len() == 0 {
            (self, DeedView::Idle)
        } else {
            (ShuffleView { confirm: Some((pane, self.doomed(pane))), ..self }, DeedView::Redraw)
        }
    }

    /// After a delete is confirmed: nothing is selected in its pane any more.
    pub open spec fn confirmed(self) -> (ShuffleView, DeedView) {
        match self.confirm {
            None => (self, DeedView::Redraw),
            Some((pane, paths)) => {
                let done = ShuffleView { confirm: None, ..self };
                if pane < self.work.panes.len() {
                    (
                        done.with_tab(
                            pane,
                            TabView {
                                selection: Seq::empty(),
                                anchor: None,
                                ..self.work.tab(pane)
                            },
                        ),
                        DeedView::Trash { pane, paths },
                    )
                } else {
                    (done, DeedView::Trash { pane, paths })
                }
            },
        }
    }

    /// With the palette open in a mode: the command bar and the find bar let go.
    pub open spec fn palette_opened(self, mode: PaletteMode) -> ShuffleView {
        let t = self.tab();
        ShuffleView {
            palette: self.palette.opened(mode),
            term: TermView { focused: false, ..self.term },
            ..self.with_tab(
                self.work.active,
                TabView { find: None, find_results: Seq::empty(), ..t },
            )
        }
    }

    /// After the key that opens and closes the palette.
    pub open spec fn palette_toggled(self) -> (ShuffleView, DeedView) {
        if self.palette.open {
            (ShuffleView { palette: self.palette.shut(), ..self }, DeedView::Redraw)
        } else {
            (
                self.palette_opened(PaletteMode::Search(SearchScope::Global)),
                DeedView::RefreshPalette,
            )
        }
    }

    /// After a key in the dialog that connects to a server.
    pub open spec fn server_key(self, s: Seq<char>, ks: KeystrokeView) -> (ShuffleView, DeedView) {
        let (line, step) = line_key(s, ks, false);
        match step {
            LineStep::Escape => (ShuffleView { server_dialog: None, ..self }, DeedView::Redraw),
            LineStep::Enter => if trimmed(s).len() == 0 {
                (self, DeedView::Idle)
            } else {
                (
                    ShuffleView {
                        side: self.side.connected(s),
                        server_dialog: None,
                        ..self
                    },
                    DeedView::OpenUrl(server_url(s)),
                )
            },
            LineStep::Redraw => (
                ShuffleView { server_dialog: Some(line), ..self },
                DeedView::Redraw,
            ),
            _ => (self, DeedView::Idle),
        }
    }

    /// After a key in the dialog that names a group.
    pub open spec fn group_key(self, s: Seq<char>, ks: KeystrokeView) -> (ShuffleView, DeedView) {
        let (line, step) = line_key(s, ks, false);
        match step {
            LineStep::Escape => (ShuffleView { group_dialog: None, ..self }, DeedView::Redraw),
            LineStep::Enter => (
                ShuffleView { side: self.side.grouped(s), group_dialog: None, ..self },
                if self.side.grouped(s).groups.len() > self.side.groups.len() {
                    DeedView::SaveGroups
                } else {
                    DeedView::Redraw
                },
            ),
            LineStep::Redraw => (
                ShuffleView { group_dialog: Some(line), ..self },
                DeedView::Redraw,
            ),
            _ => (self, DeedView::Idle),
        }
    }

    /// After a key in the question whether to delete.
    pub open spec fn confirm_key(self, ks: KeystrokeView) -> (ShuffleView, DeedView) {
        match key_named(ks.key) {
            Key::Enter => self.confirmed(),
            Key::Escape => (ShuffleView { confirm: None, ..self }, DeedView::Redraw),
            _ => (self, DeedView::Idle),
        }
    }

    /// After a key in the rename field.
    pub open spec fn rename_key(self, r: RenameView, ks: KeystrokeView) -> (ShuffleView, DeedView) {
        match key_named(ks.key) {
            Key::Escape => (ShuffleView { rename: None, ..self }, DeedView::Redraw),
            Key::Enter => (self, DeedView::CommitRename),
            _ => {
                let (f, step) = field_key(r.field, ks, true);
                (
                    ShuffleView { rename: Some(RenameView { field: f, ..r }), ..self },
                    field_deed(step),
                )
            },
        }
    }

    /// After a key in the path bar.
    pub open spec fn path_key(self, f: FieldView, ks: KeystrokeView, home: Seq<char>) -> (
        ShuffleView,
        DeedView,
    ) {
        let pane = self.work.active;
        let t = self.tab();
        match key_named(ks.key) {
            Key::Escape => (
                self.with_tab(pane, TabView { editing: None, ..t }),
                DeedView::Redraw,
            ),
            Key::Enter => (
                self.with_tab(pane, TabView { editing: None, ..t }),
                DeedView::Visit { pane, path: expanded(trimmed(f.text), home) },
            ),
            _ => {
                let (g, step) = field_key(f, ks, false);
                (
                    self.with_tab(pane, TabView { editing: Some(g), ..t }),
                    field_deed(step),
                )
            },
        }
    }

    /// After a key in the find bar: enter opens the best match, and an edit
    /// searches again.
    pub open spec fn find_key(self, f: FieldView, ks: KeystrokeView) -> (ShuffleView, DeedView) {
        let pane = self.work.active;
        let t = self.tab();
        let closed = TabView { find: None, find_results: Seq::empty(), ..t };
        match key_named(ks.key) {
            Key::Escape => (self.with_tab(pane, closed), DeedView::Redraw),
            Key::Enter => if t.find_results.len() == 0 {
                (self, DeedView::Redraw)
            } else {
                let e = t.entries[t.find_results[0]];
                let path = joined_path(t.dir, e.name);
                (
                    self.with_tab(pane, closed),
                    if e.is_dir {
                        DeedView::Visit { pane, path }
                    } else {
                        DeedView::OpenFile(path)
                    },
                )
            },
            _ => {
                let (g, step) = field_key(f, ks, false);
                let u = TabView { find: Some(g), ..t };
                (
                    self.with_tab(
                        pane,
                        if step is Edited {
                            u.refound()
                        } else {
                            u
                        },
                    ),
                    field_deed(step),
                )
            },
        }
    }

    /// After a key in the command bar.
    pub open spec fn term_key(self, ks: KeystrokeView, home: Seq<char>) -> (ShuffleView, DeedView) {
        let (line, step) = line_key(self.term.input, ks, true);
        match step {
            LineStep::Escape => (
                ShuffleView { term: TermView { focused: false, ..self.term }, ..self },
                DeedView::Redraw,
            ),
            LineStep::Enter => {
                let pane = self.work.active;
                let (t, s) = self.term.sent(self.tab().dir, home);
                (
                    ShuffleView { term: t, ..self },
                    match s {
                        StepView::Idle => DeedView::Idle,
                        StepView::Cleared => DeedView::Redraw,
                        StepView::Cd { target, arg } => DeedView::Cd { pane, target, arg },
                        StepView::Run { command } => DeedView::RunShell { pane, command },
                    },
                )
            },
            LineStep::Tab => (self, DeedView::Complete),
            LineStep::Redraw => (
                ShuffleView { term: TermView { input: line, ..self.term }, ..self },
                DeedView::Redraw,
            ),
            LineStep::Idle => (self, DeedView::Idle),
        }
    }

    /// After an action that a key is bound to.
    pub open spec fn acted(self, a: KeyAction) -> (ShuffleView, DeedView) {
        let pane = self.work.active;
        let t = self.tab();
        match a {
            KeyAction::CommandPalette | KeyAction::Find => self.palette_toggled(),
            KeyAction::NewTab => (self, DeedView::NewTab { pane }),
            KeyAction::CloseTab => {
                let (w, c) = self.work.closed(pane, self.work.panes[pane].active);
                (ShuffleView { work: w, ..self }, DeedView::Split(c))
            },
            KeyAction::SelectAll => (self.with_tab(pane, t.all_selected()), DeedView::Redraw),
            KeyAction::NewFile => (self, DeedView::NewFile { pane }),
            KeyAction::NewFolder => (self, DeedView::NewFolder { pane }),
            KeyAction::MoveToTrash => self.asked_delete(pane),
            _ => match t.anchor {
                None => (self, DeedView::Idle),
                Some(p) => match a {
                    KeyAction::Rename => (self.renaming(pane, p), DeedView::Redraw),
                    KeyAction::CopyPath => (self, DeedView::Clipboard(p)),
                    KeyAction::Duplicate => (self, DeedView::Duplicate { pane, path: p }),
                    KeyAction::MakeAlias => (self, DeedView::MakeAlias { pane, path: p }),
                    KeyAction::Compress => (self, DeedView::Compress { pane, path: p }),
                    KeyAction::RevealInFinder => (self, DeedView::Finder(p)),
                    KeyAction::Open => (self, DeedView::OpenItem { pane, path: p }),
                    _ => (self, DeedView::Idle),
                },
            },
        }
    }

    /// The row under the mouse, if it still belongs to the folder that its pane
    /// shows.
    pub open spec fn live_hover(self) -> Option<(int, Seq<char>)> {
        match self.hovered {
            Some((p, path)) => if p < self.work.panes.len() && (parent_of(path) matches Some(d)
                && same_place(d, self.work.tab(p).dir)) {
                Some((p, path))
            } else {
                None
            },
            None => None,
        }
    }

    /// With the focused item being renamed, if there is one.
    pub open spec fn renaming_focused(self) -> (ShuffleView, DeedView) {
        match self.tab().anchor {
            Some(a) => (self.renaming(self.work.active, a), DeedView::Redraw),
            None => (self, DeedView::Idle),
        }
    }

    /// With a row being renamed that the mouse was over, if it is still there,
    /// else the focused item.
    pub open spec fn renaming_hovered(self, pane: int, path: Seq<char>, there: bool) -> (
        ShuffleView,
        DeedView,
    ) {
        if there {
            (self.renaming(pane, path), DeedView::Redraw)
        } else {
            self.renaming_focused()
        }
    }

    /// After a key in the listing that no binding has taken.
    pub open spec fn listing_key(self, ks: KeystrokeView) -> (ShuffleView, DeedView) {
        if ks.platform {
            (self, DeedView::Idle)
        } else {
            match key_named(ks.key) {
                Key::Up => (self, DeedView::Arrow { dx: 0, dy: -1 }),
                Key::Down => (self, DeedView::Arrow { dx: 0, dy: 1 }),
                Key::Left => (self, DeedView::Arrow { dx: -1, dy: 0 }),
                Key::Right => (self, DeedView::Arrow { dx: 1, dy: 0 }),
                Key::Enter => match self.live_hover() {
                    Some((p, path)) => (self, DeedView::RenameHovered { pane: p, path }),
                    None => self.renaming_focused(),
                },
                Key::Backspace | Key::Delete => self.asked_delete(self.work.active),
                _ => (self, DeedView::Idle),
            }
        }
    }

    /// What a key in the palette leads to.
    pub open spec fn palette_deed(self, step: PaletteStepView) -> (DeedView, bool) {
        let pane = self.work.active;
        match step {
            PaletteStepView::Idle => (DeedView::Idle, false),
            PaletteStepView::Redraw => (DeedView::Redraw, false),
            PaletteStepView::Refresh => (DeedView::RefreshPalette, false),
            PaletteStepView::Activate { action, saved } => (
                match action {
                    ActionView::Open(path, true) => DeedView::Visit { pane, path },
                    ActionView::Open(path, false) => DeedView::OpenFile(path),
                    ActionView::CopyDir => DeedView::Clipboard(self.tab().dir),
                    ActionView::OpenSettings => DeedView::OpenSettings,
                    ActionView::Inert => DeedView::Idle,
                },
                saved,
            ),
            PaletteStepView::Run { act, path, is_dir, saved } => (
                palette_run_deed(pane, act, path, is_dir),
                saved,
            ),
        }
    }

    /// After a key. A dialog that is open has it first; then a rename, the path
    /// bar, the find bar and the command bar; then the key bindings; then an open
    /// context menu, and at last the listing or the palette.
    pub open spec fn keyed(
        self,
        ks: KeystrokeView,
        binds: Seq<Option<Seq<char>>>,
        prefs: Prefs,
        home: Seq<char>,
    ) -> (ShuffleView, (DeedView, bool)) {
        let plain = |r: (ShuffleView, DeedView)| (r.0, (r.1, false));
        match (self.server_dialog, self.group_dialog, self.confirm, self.rename) {
            (Some(s), _, _, _) => plain(self.server_key(s, ks)),
            (_, Some(s), _, _) => plain(self.group_key(s, ks)),
            (_, _, Some(_), _) => plain(self.confirm_key(ks)),
            (_, _, _, Some(r)) => plain(self.rename_key(r, ks)),
            _ => match (self.tab().editing, self.tab().find) {
                (Some(f), _) => plain(self.path_key(f, ks, home)),
                (_, Some(f)) => plain(self.find_key(f, ks)),
                _ => if self.term.focused && prefs.terminal && !(ks.platform && key_named(ks.key)
                    == Key::P) {
                    plain(self.term_key(ks, home))
                } else {
                    self.bound_key(ks, binds, prefs)
                },
            },
        }
    }

    /// After a key that goes to the bindings.
    pub open spec fn bound_key(
        self,
        ks: KeystrokeView,
        binds: Seq<Option<Seq<char>>>,
        prefs: Prefs,
    ) -> (ShuffleView, (DeedView, bool)) {
        let plain = |r: (ShuffleView, DeedView)| (r.0, (r.1, false));
        match bound_action(binds, ks.canonical()) {
            Some(a) if !is_palette_action(a) && (!self.palette.open || a
                == KeyAction::CommandPalette) => plain(self.acted(a)),
            _ => if key_named(ks.key) == Key::Escape && self.menu is Some {
                plain((ShuffleView { menu: None, ..self }, DeedView::Redraw))
            } else if !self.palette.open {
                plain(self.listing_key(ks))
            } else {
                let (p, step) = self.palette.key(ks, binds, prefs.palette_history);
                (ShuffleView { palette: p, ..self }, self.palette_deed(step))
            },
        }
    }
}

/// What a key in a text field leads to.
pub open spec fn field_deed(step: FieldStepView) -> DeedView {
    match step {
        FieldStepView::Idle => DeedView::Idle,
        FieldStepView::Moved | FieldStepView::Edited => DeedView::Redraw,
        FieldStepView::Copied(t) => DeedView::Clipboard(t),
        FieldStepView::CutOut(t) => DeedView::Clipboard(t),
    }
}

/// What a further action of the palette leads to.
pub open spec fn palette_run_deed(
    pane: int,
    act: PaletteAction,
    path: Seq<char>,
    is_dir: bool,
) -> DeedView {
    let up = match parent_of(path) {
        Some(p) => p,
        None => path,
    };
    match act {
        PaletteAction::Open => if is_dir {
            DeedView::Visit { pane, path }
        } else {
            DeedView::OpenFile(path)
        },
        PaletteAction::RevealShuffle => DeedView::ShowIn { pane, dir: up, path },
        PaletteAction::OpenNewTab => DeedView::TabAt {
            pane,
            dir: if is_dir {
                path
            } else {
                up
            },
            reveal: if is_dir {
                None
            } else {
                Some(path)
            },
        },
        PaletteAction::RevealFinder => DeedView::Finder(path),
        PaletteAction::CopyPath => DeedView::Clipboard(path),
    }
}

fn deed_of_field(step: FieldStep) -> (r: Deed)
    ensures
        r@ == field_deed(step@),
{
    match step {
        FieldStep::Idle => Deed::Idle,
        FieldStep::Moved => Deed::Redraw,
        FieldStep::Edited => Deed::Redraw,
        FieldStep::Copied(t) => Deed::Clipboard(t),
        FieldStep::CutOut(t) => Deed::Clipboard(t),
    }
}

fn deed_of_run(pane: usize, act: PaletteAction, path: String, is_dir: bool) -> (r: Deed)
    ensures
        r@ == palette_run_deed(pane as int, act, path@, is_dir),
{
    let up: String = match parent(path.as_str()) {
        Some(p) => p,
        None => path.clone(),
    };
    match act {
        PaletteAction::Open => if is_dir {
            Deed::Visit { pane, path }
        } else {
            Deed::OpenFile(path)
        },
        PaletteAction::RevealShuffle => Deed::ShowIn { pane, dir: up, path },
        PaletteAction::OpenNewTab => if is_dir {
            Deed::TabAt { pane, dir: path, reveal: None }
        } else {
            Deed::TabAt { pane, dir: up, reveal: Some(path) }
        },
        PaletteAction::RevealFinder => Deed::Finder(path),
        PaletteAction::CopyPath => Deed::Clipboard(path),
    }
}

// ----- keys ----------------------------------------------------------------------------

impl Shuffle {
    /// Whether the parts of the window are in order.
    pub open spec fn wf(&self) -> bool {
        self@.wf()
    }

    /// A window with one tab on `dir`. The lists come from their saved files;
    /// `recents` and `bookmarks` hold those of their paths that are on disk.
    pub fn new(
        dir: &str,
        entries: Vec<Entry>,
        recents: Vec<String>,
        bookmarks: Vec<String>,
        favorites: Vec<Favorite>,
        saved: &Saved,
    ) -> (r: Shuffle)
        ensures
            r@ == ShuffleView::fresh(
                TabView::fresh(dir@, rows(entries@), 0),
                (SidebarView {
                    recents: texts(recents@),
                    bookmarks: texts(bookmarks@),
                    favorites: favorites_view(favorites@),
                    groups: groups_of(Seq::empty(), lines_of(saved.groups@)),
                    folded: list_entries(lines_of(saved.folded@)),
                    servers: list_entries(lines_of(saved.servers@)),
                }),
                list_entries(lines_of(saved.history@)),
            ),
            r.wf(),
    {
        let side = Sidebar {
            recents,
            bookmarks,
            favorites,
            groups: load_groups(saved.groups.as_str()),
            folded: read_string_list(saved.folded.as_str()),
            servers: read_string_list(saved.servers.as_str()),
        };
        Shuffle {
            work: Workspace::new(Tab::new(dir, entries, 0)),
            side,
            palette: Palette::new(read_string_list(saved.history.as_str())),
            term: Terminal::new(),
            rename: None,
            confirm: None,
            server_dialog: None,
            group_dialog: None,
            menu: None,
            hovered: None,
            page: 0,
            loads: 0,
            indexed: None,
            indexing: None,
        }
    }

    /// Begins the rename of a path.
    pub fn begin_rename(&mut self, pane: usize, path: &str)
        requires
            old(self).wf(),
            pane < old(self)@.work.panes.len(),
        ensures
            final(self)@ == old(self)@.renaming(pane as int, path@),
            final(self).wf(),
    {
        let name: String = match file_name(path) {
            Some(n) => n,
            None => owned(""),
        };
        proof {
            reveal_strlit("");
            assert(""@ =~= Seq::<char>::empty());
        }
        let mut field = Field::holding(name);
        field.select_all();
        self.work.focus(pane);
        self.rename = Some(Rename { pane, path: owned(path), field });
    }

    /// Begins the rename of the focused item.
    fn rename_focused(&mut self) -> (r: Deed)
        requires
            old(self).wf(),
        ensures
            (final(self)@, r@) == old(self)@.renaming_focused(),
            final(self).wf(),
    {
        let pane: usize = self.work.active;
        let anchor: Option<String> = clone_opt(&self.work.active_tab().anchor);
        match anchor {
            Some(a) => {
                self.begin_rename(pane, a.as_str());
                Deed::Redraw
            },
            None => Deed::Idle,
        }
    }

    /// Begins the rename of the row under the mouse if it is still on disk, else
    /// of the focused item.
    pub fn rename_hovered(&mut self, pane: usize, path: &str, there: bool) -> (r: Deed)
        requires
            old(self).wf(),
            pane < old(self)@.work.panes.len(),
        ensures
            (final(self)@, r@) == old(self)@.renaming_hovered(pane as int, path@, there),
            final(self).wf(),
    {
        if there {
            self.begin_rename(pane, path);
            Deed::Redraw
        } else {
            self.rename_focused()
        }
    }

    /// Asks whether to move the selection to the trash.
    pub fn request_delete(&mut self, pane: usize) -> (r: Deed)
        requires
            old(self).wf(),
            pane < old(self)@.work.panes.len(),
        ensures
            (final(self)@, r@) == old(self)@.asked_delete(pane as int),
            final(self).wf(),
    {
        let t = self.work.tab(pane);
        let mut paths: Vec<String> = Vec::new();
        proof {
            assert(t.selection@.len() == texts(t.selection@).len());
        }
        if t.selection.len() > 0 {
            paths = sort_paths(&t.selection);
        } else {
            match &t.anchor {
                Some(a) => {
                    paths.push(a.clone());
                },
                None => {},
            }
            proof {
                assert(texts(paths@) =~= old(self)@.doomed(pane as int));
            }
        }
        proof {
            assert(paths@.len() == texts(paths@).len());
        }
        if paths.len() == 0 {
            return Deed::Idle;
        }
        self.confirm = Some((pane, paths));
        Deed::Redraw
    }

    /// Carries out the delete that was asked for.
    pub fn perform_delete(&mut self) -> (r: Deed)
        requires
            old(self).wf(),
        ensures
            (final(self)@, r@) == old(self)@.confirmed(),
            final(self).wf(),
    {
        let mut asked: Option<(usize, Vec<String>)> = None;
        core::mem::swap(&mut asked, &mut self.confirm);
        match asked {
            None => Deed::Redraw,
            Some((pane, paths)) => {
                if pane < self.work.panes.len() {
                    let t = self.work.tab_mut(pane);
                    t.selection = Vec::new();
                    t.anchor = None;
                    proof {
                        assert(texts(t.selection@) =~= Seq::<Seq<char>>::empty());
                        assert(no_repeats(t@.selection));
                    }
                }
                Deed::Trash { pane, paths }
            },
        }
    }

    /// Opens the palette.
    pub fn open_palette(&mut self, mode: PaletteMode) -> (r: Deed)
        requires
            old(self).wf(),
        ensures
            final(self)@ == old(self)@.palette_opened(mode),
            r@ == DeedView::RefreshPalette,
            final(self).wf(),
    {
        self.palette.open_in(mode);
        self.term.focused = false;
        let pane: usize = self.work.active;
        let t = self.work.tab_mut(pane);
        t.find = None;
        t.find_results = Vec::new();
        proof {
            assert(positions(t.find_results@) =~= Seq::<int>::empty());
        }
        Deed::RefreshPalette
    }

    /// Opens the palette, or closes it.
    pub fn toggle_search_palette(&mut self) -> (r: Deed)
        requires
            old(self).wf(),
        ensures
            (final(self)@, r@) == old(self)@.palette_toggled(),
            final(self).wf(),
    {
        if self.palette.open {
            self.palette.close();
            Deed::Redraw
        } else {
            self.open_palette(PaletteMode::Search(SearchScope::Global))
        }
    }

    /// A key in the dialog for a server.
    pub fn handle_server_key(&mut self, ks: &Keystroke) -> (r: Deed)
        requires
            old(self).wf(),
            old(self)@.server_dialog is Some,
        ensures
            (final(self)@, r@) == old(self)@.server_key(old(self)@.server_dialog->0, ks@),
            final(self).wf(),
    {
        let mut line: String = match &self.server_dialog {
            Some(s) => s.clone(),
            None => owned(""),
        };
        let before = line.clone();
        match handle_line_key(&mut line, ks, false) {
            LineStep::Escape => {
                self.server_dialog = None;
                Deed::Redraw
            },
            LineStep::Enter => {
                if trim(before.as_str()).as_str().is_empty() {
                    Deed::Idle
                } else {
                    match self.side.connect_to_server(before.as_str()) {
                        Some(url) => {
                            self.server_dialog = None;
                            Deed::OpenUrl(url)
                        },
                        None => Deed::Idle,
                    }
                }
            },
            LineStep::Redraw => {
                self.server_dialog = Some(line);
                Deed::Redraw
            },
            _ => Deed::Idle,
        }
    }

    /// A key in the dialog for a group.
    pub fn handle_group_key(&mut self, ks: &Keystroke) -> (r: Deed)
        requires
            old(self).wf(),
            old(self)@.group_dialog is Some,
        ensures
            (final(self)@, r@) == old(self)@.group_key(old(self)@.group_dialog->0, ks@),
            final(self).wf(),
    {
        let mut line: String = match &self.group_dialog {
            Some(s) => s.clone(),
            None => owned(""),
        };
        let before = line.clone();
        match handle_line_key(&mut line, ks, false) {
            LineStep::Escape => {
                self.group_dialog = None;
                Deed::Redraw
            },
            LineStep::Enter => {
                self.group_dialog = None;
                if self.side.create_group(before.as_str()) {
                    Deed::SaveGroups
                } else {
                    Deed::Redraw
                }
            },
            LineStep::Redraw => {
                self.group_dialog = Some(line);
                Deed::Redraw
            },
            _ => Deed::Idle,
        }
    }

    fn handle_confirm_key(&mut self, ks: &Keystroke) -> (r: Deed)
        requires
            old(self).wf(),
        ensures
            (final(self)@, r@) == old(self)@.confirm_key(ks@),
            final(self).wf(),
    {
        match key_of(ks.key.as_str()) {
            Key::Enter => self.perform_delete(),
            Key::Escape => {
                self.confirm = None;
                Deed::Redraw
            },
            _ => Deed::Idle,
        }
    }

    /// A key in the rename field.
    pub fn handle_rename_key(&mut self, ks: &Keystroke) -> (r: Deed)
        requires
            old(self).wf(),
            old(self)@.rename is Some,
        ensures
            (final(self)@, r@) == old(self)@.rename_key(old(self)@.rename->0, ks@),
            final(self).wf(),
    {
        match key_of(ks.key.as_str()) {
            Key::Escape => {
                self.rename = None;
                Deed::Redraw
            },
            Key::Enter => Deed::CommitRename,
            _ => {
                match &mut self.rename {
                    Some(r) => {
                        proof {
                            law_keys_keep_cursor_inside(r.field@, ks@, true);
                        }
                        deed_of_field(handle_field_key(&mut r.field, ks, true))
                    },
                    None => Deed::Idle,
                }
            },
        }
    }

    /// A key in the path bar while it is edited.
    pub fn handle_path_edit_key(&mut self, ks: &Keystroke, home: &str) -> (r: Deed)
        requires
            old(self).wf(),
            old(self)@.tab().editing is Some,
        ensures
            (final(self)@, r@) == old(self)@.path_key(old(self)@.tab().editing->0, ks@, home@),
            final(self).wf(),
    {
        let pane: usize = self.work.active;
        let t = self.work.tab_mut(pane);
        match key_of(ks.key.as_str()) {
            Key::Escape => {
                t.editing = None;
                Deed::Redraw
            },
            Key::Enter => {
                let path: String = match &t.editing {
                    Some(f) => expand_path(trim(f.text.as_str()).as_str(), home),
                    None => owned(""),
                };
                t.editing = None;
                Deed::Visit { pane, path }
            },
            _ => {
                match &mut t.editing {
                    Some(f) => {
                        proof {
                            law_keys_keep_cursor_inside(f@, ks@, false);
                        }
                        deed_of_field(handle_field_key(f, ks, false))
                    },
                    None => Deed::Idle,
                }
            },
        }
    }

    /// A key in the find bar.
    pub fn handle_find_key(&mut self, ks: &Keystroke) -> (r: Deed)
        requires
            old(self).wf(),
            old(self)@.tab().find is Some,
        ensures
            (final(self)@, r@) == old(self)@.find_key(old(self)@.tab().find->0, ks@),
            final(self).wf(),
    {
        let key = key_of(ks.key.as_str());
        let empty = self.work.active_tab().find_results.len() == 0;
        if key == Key::Enter && empty {
            return Deed::Redraw;
        }
        let pane: usize = self.work.active;
        let t = self.work.tab_mut(pane);
        proof {
            assert(t.find_results@.len() == positions(t.find_results@).len());
        }
        match key {
            Key::Escape => {
                t.find = None;
                t.find_results = Vec::new();
                proof {
                    assert(positions(t.find_results@) =~= Seq::<int>::empty());
                }
                Deed::Redraw
            },
            Key::Enter => {
                let i: usize = t.find_results[0];
                proof {
                    assert(t@.find_results[0] == i as int);
                    assert(0 <= t@.find_results[0] < t@.entries.len());
                    assert(t@.entries[i as int] == t.entries@[i as int]@);
                }
                let path = join_path(t.dir.as_str(), t.entries[i].name.as_str());
                let is_dir = t.entries[i].is_dir;
                t.find = None;
                t.find_results = Vec::new();
                proof {
                    assert(positions(t.find_results@) =~= Seq::<int>::empty());
                }
                if is_dir {
                    Deed::Visit { pane, path }
                } else {
                    Deed::OpenFile(path)
                }
            },
            _ => {
                let step = match &mut t.find {
                    Some(f) => {
                        proof {
                            law_keys_keep_cursor_inside(f@, ks@, false);
                        }
                        handle_field_key(f, ks, false)
                    },
                    None => FieldStep::Idle,
                };
                let edited = match &step {
                    FieldStep::Edited => true,
                    _ => false,
                };
                if edited {
                    t.recompute_find();
                }
                deed_of_field(step)
            },
        }
    }

    /// A key in the command bar.
    pub fn handle_term_key(&mut self, ks: &Keystroke, home: &str) -> (r: Deed)
        requires
            old(self).wf(),
        ensures
            (final(self)@, r@) == old(self)@.term_key(ks@, home@),
            final(self).wf(),
    {
        let mut line = self.term.input.clone();
        match handle_line_key(&mut line, ks, true) {
            LineStep::Escape => {
                self.term.focused = false;
                Deed::Redraw
            },
            LineStep::Enter => {
                let pane: usize = self.work.active;
                let dir = self.work.active_tab().dir.clone();
                match self.term.run_term_command(dir.as_str(), home) {
                    TermStep::Idle => Deed::Idle,
                    TermStep::Cleared => Deed::Redraw,
                    TermStep::Cd { target, arg } => Deed::Cd { pane, target, arg },
                    TermStep::Run { command } => Deed::RunShell { pane, command },
                }
            },
            LineStep::Tab => Deed::Complete,
            LineStep::Redraw => {
                self.term.input = line;
                Deed::Redraw
            },
            LineStep::Idle => Deed::Idle,
        }
    }

    /// Carries out an action that a key is bound to.
    pub fn run_key_action(&mut self, a: KeyAction) -> (r: Deed)
        requires
            old(self).wf(),
        ensures
            (final(self)@, r@) == old(self)@.acted(a),
            final(self).wf(),
    {
        let pane: usize = self.work.active;
        match a {
            KeyAction::CommandPalette | KeyAction::Find => {
                return self.toggle_search_palette();
            },
            KeyAction::NewTab => {
                return Deed::NewTab { pane };
            },
            KeyAction::CloseTab => {
                let at: usize = self.work.panes[pane].active;
                let c = self.work.close_tab(pane, at);
                return Deed::Split(c);
            },
            KeyAction::SelectAll => {
                self.work.tab_mut(pane).select_everything();
                return Deed::Redraw;
            },
            KeyAction::NewFile => {
                return Deed::NewFile { pane };
            },
            KeyAction::NewFolder => {
                return Deed::NewFolder { pane };
            },
            KeyAction::MoveToTrash => {
                return self.request_delete(pane);
            },
            _ => {},
        }
        let anchor: Option<String> = clone_opt(&self.work.active_tab().anchor);
        match anchor {
            None => Deed::Idle,
            Some(path) => match a {
                KeyAction::Rename => {
                    self.begin_rename(pane, path.as_str());
                    Deed::Redraw
                },
                KeyAction::CopyPath => Deed::Clipboard(path),
                KeyAction::Duplicate => Deed::Duplicate { pane, path },
                KeyAction::MakeAlias => Deed::MakeAlias { pane, path },
                KeyAction::Compress => Deed::Compress { pane, path },
                KeyAction::RevealInFinder => Deed::Finder(path),
                KeyAction::Open => Deed::OpenItem { pane, path },
                _ => Deed::Idle,
            },
        }
    }

    fn live_hover(&self) -> (r: Option<(usize, String)>)
        requires
            self.wf(),
        ensures
            opt_item(r) == self@.live_hover(),
    {
        match &self.hovered {
            Some(h) => {
                let p: usize = h.0;
                if p < self.work.panes.len() {
                    match parent(h.1.as_str()) {
                        Some(d) => {
                            if same_path(d.as_str(), self.work.tab(p).dir.as_str()) {
                                return Some((p, h.1.clone()));
                            }
                        },
                        None => {},
                    }
                }
                None
            },
            None => None,
        }
    }

    fn handle_listing_key(&mut self, ks: &Keystroke) -> (r: Deed)
        requires
            old(self).wf(),
        ensures
            (final(self)@, r@) == old(self)@.listing_key(ks@),
            final(self).wf(),
    {
        if ks.platform {
            return Deed::Idle;
        }
        match key_of(ks.key.as_str()) {
            Key::Up => Deed::Arrow { dx: 0, dy: -1 },
            Key::Down => Deed::Arrow { dx: 0, dy: 1 },
            Key::Left => Deed::Arrow { dx: -1, dy: 0 },
            Key::Right => Deed::Arrow { dx: 1, dy: 0 },
            Key::Enter => match self.live_hover() {
                Some((pane, path)) => Deed::RenameHovered { pane, path },
                None => self.rename_focused(),
            },
            Key::Backspace | Key::Delete => self.request_delete(self.work.active),
            _ => Deed::Idle,
        }
    }

    /// What a step of the palette leads to.
    pub fn palette_reply(&self, step: PaletteStep) -> (r: Reply)
        requires
            self.wf(),
        ensures
            r@ == self@.palette_deed(step@),
    {
        let pane: usize = self.work.active;
        match step {
            PaletteStep::Idle => Reply { deed: Deed::Idle, save_history: false },
            PaletteStep::Redraw => Reply { deed: Deed::Redraw, save_history: false },
            PaletteStep::Refresh => Reply { deed: Deed::RefreshPalette, save_history: false },
            PaletteStep::Activate { action, saved } => {
                let deed = match action {
                    Action::Open(path, is_dir) => if is_dir {
                        Deed::Visit { pane, path }
                    } else {
                        Deed::OpenFile(path)
                    },
                    Action::CopyDir => Deed::Clipboard(self.work.active_tab().dir.clone()),
                    Action::OpenSettings => Deed::OpenSettings,
                    Action::Inert => Deed::Idle,
                };
                Reply { deed, save_history: saved }
            },
            PaletteStep::Run { act, path, is_dir, saved } => Reply {
                deed: deed_of_run(pane, act, path, is_dir),
                save_history: saved,
            },
        }
    }

    fn handle_bound_key(&mut self, ks: &Keystroke, km: &Keymap, prefs: &Prefs) -> (r: Reply)
        requires
            old(self).wf(),
            km.wf(),
        ensures
            (final(self)@, r@) == old(self)@.bound_key(ks@, km@, *prefs),
            final(self).wf(),
    {
        let c = canon_keystroke(ks);
        match km.action_for(c.as_str()) {
            Some(a) => {
                if !a.is_palette() && (!self.palette.open || a == KeyAction::CommandPalette) {
                    return Reply { deed: self.run_key_action(a), save_history: false };
                }
            },
            None => {},
        }
        let escape = key_of(ks.key.as_str()) == Key::Escape;
        if escape && self.menu.is_some() {
            self.menu = None;
            Reply { deed: Deed::Redraw, save_history: false }
        } else if !self.palette.open {
            Reply { deed: self.handle_listing_key(ks), save_history: false }
        } else {
            let step = self.palette.handle_palette_key(ks, km, prefs.palette_history);
            self.palette_reply(step)
        }
    }

    /// Hands a key to the part of the window that wants it.
    pub fn on_key(&mut self, ks: &Keystroke, km: &Keymap, prefs: &Prefs, home: &str) -> (r: Reply)
        requires
            old(self).wf(),
            km.wf(),
        ensures
            (final(self)@, r@) == old(self)@.keyed(ks@, km@, *prefs, home@),
            final(self).wf(),
    {
        if self.server_dialog.is_some() {
            return Reply { deed: self.handle_server_key(ks), save_history: false };
        }
        if self.group_dialog.is_some() {
            return Reply { deed: self.handle_group_key(ks), save_history: false };
        }
        if self.confirm.is_some() {
            return Reply { deed: self.handle_confirm_key(ks), save_history: false };
        }
        if self.rename.is_some() {
            return Reply { deed: self.handle_rename_key(ks), save_history: false };
        }
        if self.work.active_tab().editing.is_some() {
            return Reply { deed: self.handle_path_edit_key(ks, home), save_history: false };
        }
        if self.work.active_tab().find.is_some() {
            return Reply { deed: self.handle_find_key(ks), save_history: false };
        }
        let p = key_of(ks.key.as_str()) == Key::P;
        if self.term.focused && prefs.terminal && !(ks.platform && p) {
            return Reply { deed: self.handle_term_key(ks, home), save_history: false };
        }
        self.handle_bound_key(ks, km, prefs)
    }
}

} // verus!
