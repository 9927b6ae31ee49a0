//! Keys in text fields: what they do to the text and the cursor.

use crate::field::{Field, FieldView, law_word_jumps_stay_inside};
use crate::keymap::{Key, Keystroke, KeystrokeView, key_named, key_of};
use crate::tabs::Tab;
use crate::text::{chars_of, opt_text, piece};
use vstd::prelude::*;

verus! {

/// What a key did to a text field.
pub enum FieldStep {
    /// Nothing.
    Idle,
    /// It moved the cursor or the selection.
    Moved,
    /// It changed the text, or would have where there was something to change.
    Edited,
    /// It asks for text to be put on the clipboard.
    Copied(String),
    /// It cut text, which is to be put on the clipboard.
    CutOut(String),
}

/// What a key did to a text field, with texts as characters.
#[verifier::ext_equal]
pub enum FieldStepView {
    Idle,
    Moved,
    Edited,
    Copied(Seq<char>),
    CutOut(Seq<char>),
}

impl View for FieldStep {
    type V = FieldStepView;

    open spec fn view(&self) -> FieldStepView {
        match self {
            FieldStep::Idle => FieldStepView::Idle,
            FieldStep::Moved => FieldStepView::Moved,
            FieldStep::Edited => FieldStepView::Edited,
            FieldStep::Copied(t) => FieldStepView::Copied(t@),
            FieldStep::CutOut(t) => FieldStepView::CutOut(t@),
        }
    }
}

/// A text field after text is typed into it, if the key types any.
pub open spec fn field_typed(f: FieldView, ks: KeystrokeView) -> (FieldView, FieldStepView) {
    match ks.typed() {
        Some(c) => (f.inserted(c), FieldStepView::Edited),
        None => (f, FieldStepView::Idle),
    }
}

/// A text field after a key. Arrows move by a character, with option by a word,
/// with command to the ends; shift selects. Command selects all, copies and
/// pastes. Where the field has `all` keys, it also cuts and deletes forward.
pub open spec fn field_key(f: FieldView, ks: KeystrokeView, all: bool) -> (
    FieldView,
    FieldStepView,
) {
    let cmd = ks.platform;
    match key_named(ks.key) {
        Key::Left => (
            if cmd {
                f.jumped(true, ks.shift)
            } else {
                f.moved(true, ks.alt, ks.shift)
            },
            FieldStepView::Moved,
        ),
        Key::Right => (
            if cmd {
                f.jumped(false, ks.shift)
            } else {
                f.moved(false, ks.alt, ks.shift)
            },
            FieldStepView::Moved,
        ),
        Key::Backspace => (f.backspaced(), FieldStepView::Edited),
        Key::Delete => if all {
            (f.deleted_forward(), FieldStepView::Edited)
        } else {
            field_typed(f, ks)
        },
        Key::A => if cmd {
            (f.all_selected(), FieldStepView::Moved)
        } else {
            field_typed(f, ks)
        },
        Key::C => if cmd {
            (f, FieldStepView::Copied(f.copied()))
        } else {
            field_typed(f, ks)
        },
        Key::X => if cmd && all {
            if f.sel() is Some {
                (f.without_sel(), FieldStepView::CutOut(f.copied()))
            } else {
                (f, FieldStepView::Idle)
            }
        } else {
            field_typed(f, ks)
        },
        Key::V => if cmd {
            match ks.pasted() {
                Some(t) => (f.inserted(t), FieldStepView::Edited),
                None => (f, FieldStepView::Idle),
            }
        } else {
            field_typed(f, ks)
        },
        _ => field_typed(f, ks),
    }
}

fn type_into(f: &mut Field, ks: &Keystroke) -> (r: FieldStep)
    requires
        old(f).wf(),
    ensures
        (final(f)@, r@) == field_typed(old(f)@, ks@),
        final(f).wf(),
{
    match ks.typed() {
        Some(c) => {
            f.insert(c.as_str());
            FieldStep::Edited
        },
        None => FieldStep::Idle,
    }
}

/// A key in a text field.
pub fn handle_field_key(f: &mut Field, ks: &Keystroke, all: bool) -> (r: FieldStep)
    requires
        old(f).wf(),
    ensures
        (final(f)@, r@) == field_key(old(f)@, ks@, all),
        final(f).wf(),
{
    let cmd = ks.platform;
    match key_of(ks.key.as_str()) {
        Key::Left => {
            if cmd {
                f.jump(true, ks.shift);
            } else {
                f.move_h(true, ks.alt, ks.shift);
            }
            FieldStep::Moved
        },
        Key::Right => {
            if cmd {
                f.jump(false, ks.shift);
            } else {
                f.move_h(false, ks.alt, ks.shift);
            }
            FieldStep::Moved
        },
        Key::Backspace => {
            f.backspace();
            FieldStep::Edited
        },
        Key::Delete => {
            if all {
                f.delete_forward();
                return FieldStep::Edited;
            }
            type_into(f, ks)
        },
        Key::A => {
            if cmd {
                f.select_all();
                return FieldStep::Moved;
            }
            type_into(f, ks)
        },
        Key::C => {
            if cmd {
                let t = f.copy_text();
                return FieldStep::Copied(t);
            }
            type_into(f, ks)
        },
        Key::X => {
            if cmd && all {
                if f.sel().is_some() {
                    let t = f.copy_text();
                    f.delete_sel();
                    return FieldStep::CutOut(t);
                }
                return FieldStep::Idle;
            }
            type_into(f, ks)
        },
        Key::V => {
            if cmd {
                return match ks.pasted() {
                    Some(t) => {
                        f.insert(t.as_str());
                        FieldStep::Edited
                    },
                    None => FieldStep::Idle,
                };
            }
            type_into(f, ks)
        },
        _ => type_into(f, ks),
    }
}

proof fn lemma_insert_inside(f: FieldView, t: Seq<char>)
    requires
        f.wf(),
    ensures
        f.inserted(t).wf(),
        f.without_sel().wf(),
{
}

proof fn lemma_move_inside(f: FieldView, left: bool, word: bool, select: bool)
    requires
        f.wf(),
    ensures
        f.moved(left, word, select).wf(),
        f.jumped(left, select).wf(),
        f.all_selected().wf(),
{
    law_word_jumps_stay_inside(f.text, f.cursor);
}

proof fn lemma_delete_inside(f: FieldView)
    requires
        f.wf(),
    ensures
        f.backspaced().wf(),
        f.deleted_forward().wf(),
        f.cut_before().wf(),
{
}

/// Every key keeps the cursor and the selection inside the text.
pub proof fn law_keys_keep_cursor_inside(f: FieldView, ks: KeystrokeView, all: bool)
    requires
        f.wf(),
    ensures
        field_key(f, ks, all).0.wf(),
{
    match key_named(ks.key) {
        Key::Left => {
            lemma_move_inside(f, true, ks.alt, ks.shift);
        },
        Key::Right => {
            lemma_move_inside(f, false, ks.alt, ks.shift);
        },
        Key::A => {
            lemma_move_inside(f, true, ks.alt, ks.shift);
        },
        Key::Backspace => {
            lemma_delete_inside(f);
        },
        Key::Delete => {
            lemma_delete_inside(f);
        },
        Key::X => {
            lemma_insert_inside(f, Seq::empty());
        },
        _ => {},
    }
    match ks.typed() {
        Some(t) => {
            lemma_insert_inside(f, t);
        },
        None => {},
    }
    match ks.pasted() {
        Some(t) => {
            lemma_insert_inside(f, t);
        },
        None => {},
    }
}

/// What a key did to a line that is typed without a cursor.
#[derive(Clone, Copy, PartialEq, Eq, Structural, Debug)]
pub enum LineStep {
    Idle,
    Redraw,
    Enter,
    Escape,
    Tab,
}

/// A line with more text behind it.
pub open spec fn line_typed(s: Seq<char>, more: Option<Seq<char>>) -> (Seq<char>, LineStep) {
    match more {
        Some(t) => (s + t, LineStep::Redraw),
        None => (s, LineStep::Idle),
    }
}

/// A line after a key: text goes behind it, backspace takes its last character.
/// Where `tab` says so, the tab key asks for completion.
pub open spec fn line_key(s: Seq<char>, ks: KeystrokeView, tab: bool) -> (Seq<char>, LineStep) {
    match key_named(ks.key) {
        Key::Escape => (s, LineStep::Escape),
        Key::Enter => (s, LineStep::Enter),
        Key::Tab => if tab {
            (s, LineStep::Tab)
        } else {
            line_typed(s, ks.typed())
        },
        Key::Backspace => (
            if s.len() > 0 {
                s.drop_last()
            } else {
                s
            },
            LineStep::Redraw,
        ),
        Key::V => line_typed(
            s,
            if ks.platform {
                ks.pasted()
            } else {
                ks.typed()
            },
        ),
        _ => line_typed(s, ks.typed()),
    }
}

fn add_to_line(s: &mut String, more: Option<String>) -> (r: LineStep)
    ensures
        (final(s)@, r) == line_typed(old(s)@, opt_text(more)),
{
    match more {
        Some(t) => {
            s.append(t.as_str());
            LineStep::Redraw
        },
        None => LineStep::Idle,
    }
}

/// A key in a line that is typed without a cursor.
pub fn handle_line_key(s: &mut String, ks: &Keystroke, tab: bool) -> (r: LineStep)
    ensures
        (final(s)@, r) == line_key(old(s)@, ks@, tab),
{
    match key_of(ks.key.as_str()) {
        Key::Escape => LineStep::Escape,
        Key::Enter => LineStep::Enter,
        Key::Tab => {
            if tab {
                LineStep::Tab
            } else {
                add_to_line(s, ks.typed())
            }
        },
        Key::Backspace => {
            let cs = chars_of(s.as_str());
            if cs.len() > 0 {
                let t = piece(&cs, 0, cs.len() - 1);
                proof {
                    assert(t@ =~= s@.drop_last());
                }
                *s = t;
            }
            LineStep::Redraw
        },
        Key::V => {
            if ks.platform {
                add_to_line(s, ks.pasted())
            } else {
                add_to_line(s, ks.typed())
            }
        },
        _ => add_to_line(s, ks.typed()),
    }
}

} // verus!
