//! The palette and the inspector as plain values ready to be drawn.

use crate::field::at_most;
use crate::palette::{
    Action, ActionView, ItemView, Palette, PaletteMode, PaletteView, SearchScope, items_view,
    labels_view,
};
use crate::scenes::{FieldParts, FieldScene, chips_view, draw_field, opt_parts, parts_of};
use crate::sidebar::labelled_view;
use crate::text::owned;
use vstd::prelude::*;

verus! {

// ----- the palette ---------------------------------------------------------------------

/// How many results the palette shows without scrolling.
pub const PALETTE_MAX_ROWS: usize = 7;

/// The picture in front of a result: a gear, or that of a file or folder.
#[derive(Clone, Copy, PartialEq, Eq, Structural, Debug)]
pub enum ResultIcon {
    Gear,
    Folder,
    File,
}

/// A result of the palette.
pub struct ResultScene {
    pub title: String,
    pub subtitle: String,
    pub icon: ResultIcon,
    pub selected: bool,
}

/// A result of the palette, as characters.
#[verifier::ext_equal]
pub struct ResultView {
    pub title: Seq<char>,
    pub subtitle: Seq<char>,
    pub icon: ResultIcon,
    pub selected: bool,
}

impl View for ResultScene {
    type V = ResultView;

    open spec fn view(&self) -> ResultView {
        ResultView {
            title: self.title@,
            subtitle: self.subtitle@,
            icon: self.icon,
            selected: self.selected,
        }
    }
}

/// Results of the palette, as characters.
pub open spec fn results_view(v: Seq<ResultScene>) -> Seq<ResultView> {
    v.map_values(|r: ResultScene| r@)
}

/// The palette.
pub struct PaletteScene {
    /// The glyph in front of the query.
    pub glyph: String,
    /// What is asked for while nothing is typed.
    pub hint: String,
    /// The query, if something is typed.
    pub query: Option<FieldScene>,
    /// The scopes to search and whether each is searched; none for commands.
    pub scopes: Vec<(SearchScope, String, bool)>,
    pub results: Vec<ResultScene>,
    /// How many results are shown without scrolling.
    pub visible: usize,
    /// The keys that work, and what each does.
    pub keys: Vec<(String, String)>,
    /// The further actions, and whether each is selected; none while they are
    /// closed.
    pub actions: Vec<(String, bool)>,
}

/// The palette, as characters.
#[verifier::ext_equal]
pub struct PaletteParts {
    pub glyph: Seq<char>,
    pub hint: Seq<char>,
    pub query: Option<FieldParts>,
    pub scopes: Seq<(SearchScope, Seq<char>, bool)>,
    pub results: Seq<ResultView>,
    pub visible: int,
    pub keys: Seq<(Seq<char>, Seq<char>)>,
    pub actions: Seq<(Seq<char>, bool)>,
}

/// Scopes, as characters.
pub open spec fn scopes_view(v: Seq<(SearchScope, String, bool)>) -> Seq<
    (SearchScope, Seq<char>, bool),
> {
    v.map_values(|s: (SearchScope, String, bool)| (s.0, s.1@, s.2))
}

impl View for PaletteScene {
    type V = PaletteParts;

    open spec fn view(&self) -> PaletteParts {
        PaletteParts {
            glyph: self.glyph@,
            hint: self.hint@,
            query: opt_parts(self.query),
            scopes: scopes_view(self.scopes@),
            results: results_view(self.results@),
            visible: self.visible as int,
            keys: labelled_view(self.keys@),
            actions: chips_view(self.actions@),
        }
    }
}

/// What the palette asks for in a mode.
pub open spec fn palette_hint(m: PaletteMode) -> Seq<char> {
    match m {
        PaletteMode::Commands => "Type a path, or a file/folder name…"@,
        PaletteMode::Search(
            SearchScope::CurrentFolder,
        ) => "Search direct children of the current folder…"@,
        PaletteMode::Search(SearchScope::Recursive) => "Search the current folder recursively…"@,
        PaletteMode::Search(
            SearchScope::Global,
        ) => "Search all indexed files, paths, and commands…"@,
    }
}

/// The scopes that can be searched in a mode.
pub open spec fn scope_choices(m: PaletteMode) -> Seq<(SearchScope, Seq<char>, bool)> {
    match m {
        PaletteMode::Commands => Seq::empty(),
        PaletteMode::Search(s) => seq![
            (
                SearchScope::CurrentFolder,
                "Current folder"@,
                s == SearchScope::CurrentFolder,
            ),
            (SearchScope::Recursive, "Recursive"@, s == SearchScope::Recursive),
            (SearchScope::Global, "Global"@, s == SearchScope::Global),
        ],
    }
}

/// A result of the palette.
pub open spec fn result_of(it: ItemView, selected: bool) -> ResultView {
    ResultView {
        title: it.title,
        subtitle: it.subtitle,
        icon: if it.action is OpenSettings {
            ResultIcon::Gear
        } else if it.is_dir || it.action is CopyDir {
            ResultIcon::Folder
        } else {
            ResultIcon::File
        },
        selected,
    }
}

/// What the enter key does to the selected result.
pub open spec fn enter_text(it: Option<ItemView>) -> Seq<char> {
    match it {
        Some(i) => match i.action {
            ActionView::Open(_, true) => "Open folder"@,
            ActionView::Open(_, false) => "Open file"@,
            _ => "Run"@,
        },
        None => "Open"@,
    }
}

impl PaletteView {
    /// The keys that work in the palette.
    pub open spec fn key_hints(self) -> Seq<(Seq<char>, Seq<char>)> {
        let enter = seq![("↩"@, enter_text(self.chosen()))];
        let more = if self.action_list().len() > 0 {
            seq![("⌘K"@, "Actions"@)]
        } else {
            Seq::empty()
        };
        enter + more + seq![("↑↓"@, "Navigate"@), ("esc"@, "Close"@)]
    }

    /// The further actions that are shown, and which is selected.
    pub open spec fn shown_actions(self) -> Seq<(Seq<char>, bool)> {
        let acts = self.action_list();
        match self.actions {
            Some(sel) => Seq::new(
                acts.len(),
                |i: int| (acts[i].1, i == at_most(sel, acts.len() - 1)),
            ),
            None => Seq::empty(),
        }
    }

    /// The palette as it is drawn.
    pub open spec fn drawn(self) -> PaletteParts {
        PaletteParts {
            glyph: if self.mode == PaletteMode::Commands {
                "›"@
            } else {
                "🔍"@
            },
            hint: palette_hint(self.mode),
            query: if self.query.text.len() == 0 {
                None
            } else {
                Some(parts_of(self.query))
            },
            scopes: scope_choices(self.mode),
            results: Seq::new(
                self.items.len(),
                |i: int| result_of(self.items[i], i == self.selected),
            ),
            visible: at_most(self.items.len() as int, PALETTE_MAX_ROWS as int),
            keys: self.key_hints(),
            actions: self.shown_actions(),
        }
    }
}

impl Palette {
    fn hint_line(&self) -> (r: String)
        ensures
            r@ == palette_hint(self@.mode),
    {
        match self.mode {
            PaletteMode::Commands => owned("Type a path, or a file/folder name…"),
            PaletteMode::Search(SearchScope::CurrentFolder) => owned(
                "Search direct children of the current folder…",
            ),
            PaletteMode::Search(SearchScope::Recursive) => owned(
                "Search the current folder recursively…",
            ),
            PaletteMode::Search(SearchScope::Global) => owned(
                "Search all indexed files, paths, and commands…",
            ),
        }
    }

    fn scope_buttons(&self) -> (r: Vec<(SearchScope, String, bool)>)
        ensures
            scopes_view(r@) == scope_choices(self@.mode),
    {
        let mut v: Vec<(SearchScope, String, bool)> = Vec::new();
        match self.mode {
            PaletteMode::Commands => {},
            PaletteMode::Search(s) => {
                v.push(
                    (
                        SearchScope::CurrentFolder,
                        owned("Current folder"),
                        s == SearchScope::CurrentFolder,
                    ),
                );
                v.push((SearchScope::Recursive, owned("Recursive"), s == SearchScope::Recursive));
                v.push((SearchScope::Global, owned("Global"), s == SearchScope::Global));
            },
        }
        proof {
            assert(scopes_view(v@) =~= scope_choices(self@.mode));
        }
        v
    }

    fn key_list(&self) -> (r: Vec<(String, String)>)
        requires
            self.wf(),
        ensures
            labelled_view(r@) == self@.key_hints(),
    {
        let chosen: Option<Action> = self.chosen();
        let enter: &str = match &chosen {
            Some(Action::Open(_, is_dir)) => if *is_dir {
                "Open folder"
            } else {
                "Open file"
            },
            Some(_) => "Run",
            None => "Open",
        };
        let acts = self.palette_action_list();
        proof {
            assert(acts@.len() == labels_view(acts@).len());
        }
        let mut v: Vec<(String, String)> = Vec::new();
        v.push((owned("↩"), owned(enter)));
        if acts.len() > 0 {
            v.push((owned("⌘K"), owned("Actions")));
        }
        v.push((owned("↑↓"), owned("Navigate")));
        v.push((owned("esc"), owned("Close")));
        proof {
            assert(labelled_view(v@) =~= self@.key_hints());
        }
        v
    }

    fn action_rows(&self) -> (r: Vec<(String, bool)>)
        requires
            self.wf(),
        ensures
            chips_view(r@) == self@.shown_actions(),
    {
        let mut out: Vec<(String, bool)> = Vec::new();
        let sel: usize = match self.actions {
            Some(s) => s,
            None => {
                proof {
                    assert(chips_view(out@) =~= self@.shown_actions());
                }
                return out;
            },
        };
        let acts = self.palette_action_list();
        let n: usize = acts.len();
        let ghost all = self@.shown_actions();
        let mut i: usize = 0;
        proof {
            assert(n == labels_view(acts@).len());
            assert(chips_view(out@) =~= all.take(0));
        }
        while i < n
            invariant
                i <= n,
                n == acts@.len(),
                labels_view(acts@) == self@.action_list(),
                self@.actions == Some(sel as int),
                all == self@.shown_actions(),
                all.len() == n,
                chips_view(out@) == all.take(i as int),
            decreases n - i,
        {
            let at: usize = if sel <= n - 1 {
                sel
            } else {
                n - 1
            };
            let label = acts[i].1.clone();
            let on = i == at;
            let ghost cv = (label@, on);
            out.push((label, on));
            proof {
                assert(labels_view(acts@)[i as int] == (acts@[i as int].0, acts@[i as int].1@));
                assert(cv == all[i as int]);
                assert(chips_view(out@) =~= all.take(i as int).push(cv));
                assert(chips_view(out@) =~= all.take(i + 1));
            }
            i += 1;
        }
        proof {
            assert(all.take(i as int) =~= all);
        }
        out
    }

    fn result_rows(&self) -> (r: Vec<ResultScene>)
        ensures
            results_view(r@) == self@.drawn().results,
    {
        let mut out: Vec<ResultScene> = Vec::new();
        let ghost all = self@.drawn().results;
        let n: usize = self.items.len();
        let mut i: usize = 0;
        proof {
            assert(n == items_view(self.items@).len());
            assert(results_view(out@) =~= all.take(0));
        }
        while i < n
            invariant
                i <= n,
                n == self.items@.len(),
                all == self@.drawn().results,
                all.len() == n,
                results_view(out@) == all.take(i as int),
            decreases n - i,
        {
            let it = &self.items[i];
            let icon: ResultIcon = match &it.action {
                Action::OpenSettings => ResultIcon::Gear,
                Action::CopyDir => ResultIcon::Folder,
                _ => if it.is_dir {
                    ResultIcon::Folder
                } else {
                    ResultIcon::File
                },
            };
            let row = ResultScene {
                title: it.title.clone(),
                subtitle: it.subtitle.clone(),
                icon,
                selected: i == self.selected,
            };
            let ghost rv = row@;
            out.push(row);
            proof {
                assert(items_view(self.items@)[i as int] == self.items@[i as int]@);
                assert(rv == all[i as int]);
                assert(results_view(out@) =~= all.take(i as int).push(rv));
                assert(results_view(out@) =~= all.take(i + 1));
            }
            i += 1;
        }
        proof {
            assert(all.take(i as int) =~= all);
        }
        out
    }

    /// The palette as it is drawn.
    pub fn render_palette(&self) -> (r: PaletteScene)
        requires
            self.wf(),
        ensures
            r@ == self@.drawn(),
    {
        let commands = match self.mode {
            PaletteMode::Commands => true,
            _ => false,
        };
        let n: usize = self.items.len();
        let query: Option<FieldScene> = if self.query.text.as_str().is_empty() {
            None
        } else {
            Some(draw_field(&self.query))
        };
        PaletteScene {
            glyph: if commands {
                owned("›")
            } else {
                owned("🔍")
            },
            hint: self.hint_line(),
            query,
            scopes: self.scope_buttons(),
            results: self.result_rows(),
            visible: if n <= PALETTE_MAX_ROWS {
                n
            } else {
                PALETTE_MAX_ROWS
            },
            keys: self.key_list(),
            actions: self.action_rows(),
        }
    }
}

} // verus!
