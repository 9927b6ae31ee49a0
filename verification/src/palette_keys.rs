//! The keys of the open palette.

use crate::field::{FieldView, at_most};
use crate::keymap::{
    ACTION_COUNT, Key, KeyAction, Keymap, Keystroke, KeystrokeView, action_id, canon_keystroke,
    key_named, key_of,
};
use crate::palette::{
    Action, ActionView, Palette, PaletteAction, PaletteMode, PaletteView, SearchScope, labels_view,
};
use crate::text::{opt_text, trimmed};
use vstd::prelude::*;

verus! {

/// What a key in the palette asks for.
pub enum PaletteStep {
    /// Nothing.
    Idle,
    /// Showing the change.
    Redraw,
    /// Bringing the results up to date.
    Refresh,
    /// Doing what a result is for; `saved` says that the history changed.
    Activate { action: Action, saved: bool },
    /// Doing something else with a result.
    Run { act: PaletteAction, path: String, is_dir: bool, saved: bool },
}

/// What a key in the palette asks for, with texts as characters.
#[verifier::ext_equal]
pub enum PaletteStepView {
    Idle,
    Redraw,
    Refresh,
    Activate { action: ActionView, saved: bool },
    Run { act: PaletteAction, path: Seq<char>, is_dir: bool, saved: bool },
}

impl View for PaletteStep {
    type V = PaletteStepView;

    open spec fn view(&self) -> PaletteStepView {
        match self {
            PaletteStep::Idle => PaletteStepView::Idle,
            PaletteStep::Redraw => PaletteStepView::Redraw,
            PaletteStep::Refresh => PaletteStepView::Refresh,
            PaletteStep::Activate { action, saved } => PaletteStepView::Activate {
                action: action@,
                saved: *saved,
            },
            PaletteStep::Run { act, path, is_dir, saved } => PaletteStepView::Run {
                act: *act,
                path: path@,
                is_dir: *is_dir,
                saved: *saved,
            },
        }
    }
}

impl PaletteView {
    /// Whether taking the query into the history changes it.
    pub open spec fn records(self, history_on: bool) -> bool {
        self.keeps_history(history_on) && trimmed(self.query.text).len() > 0
    }

    /// With a changed query.
    pub open spec fn with_query(self, q: FieldView) -> PaletteView {
        PaletteView { query: q, ..self }
    }

    /// With text put into the query; it is no longer one of the history.
    pub open spec fn with_input(self, t: Seq<char>) -> PaletteView {
        PaletteView { query: self.query.inserted(t), hist_pos: None, ..self }
    }

    /// After the selected result is chosen: the query is remembered, and the
    /// palette closes unless the result only informs.
    pub open spec fn activated(self, history_on: bool) -> (PaletteView, PaletteStepView) {
        match self.chosen() {
            None => (self, PaletteStepView::Idle),
            Some(i) => (
                if i.action is Inert {
                    self.recorded(history_on)
                } else {
                    self.recorded(history_on).shut()
                },
                PaletteStepView::Activate { action: i.action, saved: self.records(history_on) },
            ),
        }
    }

    /// After a further action is chosen for the selected result.
    pub open spec fn ran(self, act: PaletteAction, history_on: bool) -> (
        PaletteView,
        PaletteStepView,
    ) {
        match self.chosen() {
            Some(i) => match i.action {
                ActionView::Open(path, is_dir) => (
                    self.recorded(history_on).shut(),
                    PaletteStepView::Run { act, path, is_dir, saved: self.records(history_on) },
                ),
                _ => (self, PaletteStepView::Idle),
            },
            None => (self, PaletteStepView::Idle),
        }
    }

    /// After text is typed, if the key types any.
    pub open spec fn typed(self, more: Option<Seq<char>>) -> (PaletteView, PaletteStepView) {
        match more {
            Some(t) => (self.with_input(t), PaletteStepView::Refresh),
            None => (self, PaletteStepView::Idle),
        }
    }

    /// After a key that no binding has taken.
    pub open spec fn plain_key(self, ks: KeystrokeView, history_on: bool) -> (
        PaletteView,
        PaletteStepView,
    ) {
        match key_named(ks.key) {
            Key::Escape => (self.shut(), PaletteStepView::Redraw),
            Key::Enter => self.activated(history_on),
            Key::Down => (
                self.stepped(1),
                if self.items.len() == 0 {
                    PaletteStepView::Idle
                } else {
                    PaletteStepView::Redraw
                },
            ),
            Key::Up => (
                self.stepped(-1),
                if self.items.len() == 0 {
                    PaletteStepView::Idle
                } else {
                    PaletteStepView::Redraw
                },
            ),
            Key::Left => (
                self.with_query(self.query.moved(true, ks.alt, ks.shift)),
                PaletteStepView::Redraw,
            ),
            Key::Right => (
                self.with_query(self.query.moved(false, ks.alt, ks.shift)),
                PaletteStepView::Redraw,
            ),
            Key::Backspace => (
                self.with_query(self.query.backspaced()),
                PaletteStepView::Refresh,
            ),
            Key::V => self.typed(
                if ks.platform {
                    ks.pasted()
                } else {
                    ks.typed()
                },
            ),
            _ => self.typed(ks.typed()),
        }
    }

    /// After a key while the panel of further actions is open, with `sel` chosen
    /// in it: arrows and enter drive it, anything else closes it first.
    pub open spec fn panel_key(self, ks: KeystrokeView, sel: int, history_on: bool) -> (
        PaletteView,
        PaletteStepView,
    ) {
        let acts = self.action_list();
        let closed = PaletteView { actions: None, ..self };
        match key_named(ks.key) {
            Key::Escape => (closed, PaletteStepView::Redraw),
            Key::Up => (
                PaletteView {
                    actions: Some(
                        if sel > 0 {
                            sel - 1
                        } else {
                            0
                        },
                    ),
                    ..self
                },
                PaletteStepView::Redraw,
            ),
            Key::Down => (
                PaletteView {
                    actions: Some(
                        at_most(
                            sel + 1,
                            if acts.len() > 0 {
                                acts.len() - 1
                            } else {
                                0
                            },
                        ),
                    ),
                    ..self
                },
                PaletteStepView::Redraw,
            ),
            Key::Enter => if sel < acts.len() {
                closed.ran(acts[sel].0, history_on)
            } else {
                (closed, PaletteStepView::Redraw)
            },
            _ => {
                let (p, step) = closed.plain_key(ks, history_on);
                (
                    p,
                    if step is Idle {
                        PaletteStepView::Redraw
                    } else {
                        step
                    },
                )
            },
        }
    }

    /// After a key in the open palette: the bindings for editing the query come
    /// first, then the history where it applies, then the panel of further
    /// actions, then everything else.
    pub open spec fn key(
        self,
        ks: KeystrokeView,
        binds: Seq<Option<Seq<char>>>,
        history_on: bool,
    ) -> (PaletteView, PaletteStepView) {
        let kc = Some(ks.canonical());
        if binds[action_id(KeyAction::PaletteCursorStart)] == kc {
            (self.with_query(self.query.jumped(true, false)), PaletteStepView::Redraw)
        } else if binds[action_id(KeyAction::PaletteCursorEnd)] == kc {
            (self.with_query(self.query.jumped(false, false)), PaletteStepView::Redraw)
        } else if binds[action_id(KeyAction::PaletteSelectAll)] == kc {
            (self.with_query(self.query.all_selected()), PaletteStepView::Redraw)
        } else if binds[action_id(KeyAction::PaletteDeleteToStart)] == kc {
            (self.with_query(self.query.cut_before()), PaletteStepView::Refresh)
        } else if self.keeps_history(history_on) && binds[action_id(
            KeyAction::PaletteHistoryPrev,
        )] == kc {
            (
                self.older(),
                if self.hist.len() > 0 {
                    PaletteStepView::Refresh
                } else {
                    PaletteStepView::Idle
                },
            )
        } else if self.keeps_history(history_on) && binds[action_id(
            KeyAction::PaletteHistoryNext,
        )] == kc {
            (
                self.newer(),
                if self.hist_pos is Some {
                    PaletteStepView::Refresh
                } else {
                    PaletteStepView::Idle
                },
            )
        } else if ks.platform && key_named(ks.key) == Key::K {
            (
                PaletteView {
                    actions: if self.actions is Some || self.action_list().len() == 0 {
                        None
                    } else {
                        Some(0)
                    },
                    ..self
                },
                PaletteStepView::Redraw,
            )
        } else {
            match self.actions {
                Some(sel) => self.panel_key(ks, sel, history_on),
                None => self.plain_key(ks, history_on),
            }
        }
    }
}

impl Palette {
    /// Does what the selected result is for.
    pub fn activate_selection(&mut self, history_on: bool) -> (r: PaletteStep)
        requires
            old(self).wf(),
        ensures
            (final(self)@, r@) == old(self)@.activated(history_on),
            final(self).wf(),
    {
        match self.chosen() {
            None => PaletteStep::Idle,
            Some(action) => {
                let saved = self.record_palette_history(history_on);
                match &action {
                    Action::Inert => {},
                    _ => {
                        self.close();
                    },
                }
                PaletteStep::Activate { action, saved }
            },
        }
    }

    /// Does something else with the selected result.
    pub fn run_palette_action(&mut self, act: PaletteAction, history_on: bool) -> (r: PaletteStep)
        requires
            old(self).wf(),
        ensures
            (final(self)@, r@) == old(self)@.ran(act, history_on),
            final(self).wf(),
    {
        match self.chosen() {
            Some(Action::Open(path, is_dir)) => {
                let saved = self.record_palette_history(history_on);
                self.close();
                PaletteStep::Run { act, path, is_dir, saved }
            },
            _ => PaletteStep::Idle,
        }
    }

    fn type_query(&mut self, more: Option<String>) -> (r: PaletteStep)
        requires
            old(self).wf(),
        ensures
            (final(self)@, r@) == old(self)@.typed(opt_text(more)),
            final(self).wf(),
    {
        match more {
            Some(t) => {
                self.query.insert(t.as_str());
                self.hist_pos = None;
                PaletteStep::Refresh
            },
            None => PaletteStep::Idle,
        }
    }

    fn plain_key(&mut self, ks: &Keystroke, history_on: bool) -> (r: PaletteStep)
        requires
            old(self).wf(),
        ensures
            (final(self)@, r@) == old(self)@.plain_key(ks@, history_on),
            final(self).wf(),
    {
        match key_of(ks.key.as_str()) {
            Key::Escape => {
                self.close();
                PaletteStep::Redraw
            },
            Key::Enter => self.activate_selection(history_on),
            Key::Down => {
                self.move_selection(1);
                if self.items.len() == 0 {
                    PaletteStep::Idle
                } else {
                    PaletteStep::Redraw
                }
            },
            Key::Up => {
                self.move_selection(-1);
                if self.items.len() == 0 {
                    PaletteStep::Idle
                } else {
                    PaletteStep::Redraw
                }
            },
            Key::Left => {
                self.query.move_h(true, ks.alt, ks.shift);
                PaletteStep::Redraw
            },
            Key::Right => {
                self.query.move_h(false, ks.alt, ks.shift);
                PaletteStep::Redraw
            },
            Key::Backspace => {
                self.query.backspace();
                PaletteStep::Refresh
            },
            Key::V => {
                if ks.platform {
                    self.type_query(ks.pasted())
                } else {
                    self.type_query(ks.typed())
                }
            },
            _ => self.type_query(ks.typed()),
        }
    }

    fn panel_key(&mut self, ks: &Keystroke, sel: usize, history_on: bool) -> (r: PaletteStep)
        requires
            old(self).wf(),
        ensures
            (final(self)@, r@) == old(self)@.panel_key(ks@, sel as int, history_on),
            final(self).wf(),
    {
        let acts = self.palette_action_list();
        proof {
            assert(labels_view(acts@).len() == acts@.len());
        }
        match key_of(ks.key.as_str()) {
            Key::Escape => {
                self.actions = None;
                PaletteStep::Redraw
            },
            Key::Up => {
                self.actions = Some(
                    if sel > 0 {
                        sel - 1
                    } else {
                        0
                    },
                );
                PaletteStep::Redraw
            },
            Key::Down => {
                let top: usize = if acts.len() > 0 {
                    acts.len() - 1
                } else {
                    0
                };
                self.actions = Some(
                    if sel < top {
                        sel + 1
                    } else {
                        top
                    },
                );
                PaletteStep::Redraw
            },
            Key::Enter => {
                self.actions = None;
                if sel < acts.len() {
                    let act = acts[sel].0;
                    proof {
                        assert(labels_view(acts@)[sel as int].0 == act);
                    }
                    self.run_palette_action(act, history_on)
                } else {
                    PaletteStep::Redraw
                }
            },
            _ => {
                self.actions = None;
                match self.plain_key(ks, history_on) {
                    PaletteStep::Idle => PaletteStep::Redraw,
                    other => other,
                }
            },
        }
    }

    /// A key press in the open palette.
    pub fn handle_palette_key(&mut self, ks: &Keystroke, km: &Keymap, history_on: bool) -> (r:
        PaletteStep)
        requires
            old(self).wf(),
            km.wf(),
        ensures
            (final(self)@, r@) == old(self)@.key(ks@, km@, history_on),
            final(self).wf(),
    {
        let kc = canon_keystroke(ks);
        if km.is_bound(KeyAction::PaletteCursorStart, kc.as_str()) {
            self.query.jump(true, false);
            return PaletteStep::Redraw;
        }
        if km.is_bound(KeyAction::PaletteCursorEnd, kc.as_str()) {
            self.query.jump(false, false);
            return PaletteStep::Redraw;
        }
        if km.is_bound(KeyAction::PaletteSelectAll, kc.as_str()) {
            self.query.select_all();
            return PaletteStep::Redraw;
        }
        if km.is_bound(KeyAction::PaletteDeleteToStart, kc.as_str()) {
            self.query.kill_before();
            return PaletteStep::Refresh;
        }
        let keeps = history_on && (self.mode == PaletteMode::Commands || self.mode
            == PaletteMode::Search(SearchScope::Global));
        if keeps && km.is_bound(KeyAction::PaletteHistoryPrev, kc.as_str()) {
            return if self.palette_history_prev() {
                PaletteStep::Refresh
            } else {
                PaletteStep::Idle
            };
        }
        if keeps && km.is_bound(KeyAction::PaletteHistoryNext, kc.as_str()) {
            return if self.palette_history_next() {
                PaletteStep::Refresh
            } else {
                PaletteStep::Idle
            };
        }
        if ks.platform && key_of(ks.key.as_str()) == Key::K {
            let acts = self.palette_action_list();
            proof {
                assert(labels_view(acts@).len() == acts@.len());
            }
            self.actions = if self.actions.is_some() || acts.len() == 0 {
                None
            } else {
                Some(0)
            };
            return PaletteStep::Redraw;
        }
        match self.actions {
            Some(sel) => self.panel_key(ks, sel, history_on),
            None => self.plain_key(ks, history_on),
        }
    }
}

/// Escape closes an open panel of further actions first and the palette second,
/// where neither escape nor its chord is bound to something.
pub proof fn law_escape_closes_in_turn(
    p: PaletteView,
    ks: KeystrokeView,
    binds: Seq<Option<Seq<char>>>,
    history_on: bool,
    sel: int,
)
    requires
        ks.key == "escape"@,
        binds.len() == ACTION_COUNT,
        forall|i: int| 0 <= i < binds.len() ==> #[trigger] binds[i] != Some(ks.canonical()),
        p.open,
        p.actions == Some(sel),
    ensures
        p.key(ks, binds, history_on).0.open,
        p.key(ks, binds, history_on).0.actions is None,
        !p.key(ks, binds, history_on).0.key(ks, binds, history_on).0.open,
{
    assert(key_named(ks.key) == Key::Escape);
}

} // verus!
