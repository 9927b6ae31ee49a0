//! A one-line text field with a cursor and a selection, as used for renaming,
//! the path bar, the find bar and the palette query.

use crate::text::{alphanumeric, chars_of, piece, string_of};
use vstd::prelude::*;

verus! {

/// A text field. Positions count characters; the text between `anchor` and
/// `cursor` is selected.
pub struct Field {
    pub text: String,
    pub cursor: usize,
    pub anchor: Option<usize>,
}

/// The mathematical value of a text field.
#[verifier::ext_equal]
pub struct FieldView {
    pub text: Seq<char>,
    pub cursor: int,
    pub anchor: Option<int>,
}

impl View for Field {
    type V = FieldView;

    open spec fn view(&self) -> FieldView {
        FieldView {
            text: self.text@,
            cursor: self.cursor as int,
            anchor: match self.anchor {
                Some(a) => Some(a as int),
                None => None,
            },
        }
    }
}

/// Whether `c` belongs to a word. Only letters and digits do, so a word jump in
/// `helix_vault` stops at `vault`.
pub fn is_word_char(c: char) -> (r: bool)
    ensures
        r == alphanumeric(c),
{
    c.is_alphanumeric()
}

/// Where the run of characters left of `i` that are (or are not) word characters
/// begins.
pub open spec fn run_left(s: Seq<char>, i: int, word: bool) -> int
    decreases i,
{
    if i > 0 && alphanumeric(s[i - 1]) == word {
        run_left(s, i - 1, word)
    } else {
        i
    }
}

/// Where the run of characters from `i` on that are (or are not) word characters
/// ends.
pub open spec fn run_right(s: Seq<char>, i: int, word: bool) -> int
    decreases s.len() - i,
{
    if i < s.len() && alphanumeric(s[i]) == word {
        run_right(s, i + 1, word)
    } else {
        i
    }
}

/// The smaller of two positions.
pub open spec fn at_most(a: int, b: int) -> int {
    if a < b {
        a
    } else {
        b
    }
}

/// The word boundary left of the cursor: past separators, then past a word.
pub open spec fn word_left(s: Seq<char>, cursor: int) -> int {
    run_left(s, run_left(s, at_most(cursor, s.len() as int), false), true)
}

/// The word boundary right of the cursor: past separators, then past a word.
pub open spec fn word_right(s: Seq<char>, cursor: int) -> int {
    run_right(s, run_right(s, at_most(cursor, s.len() as int), false), true)
}

proof fn lemma_run_left(s: Seq<char>, i: int, word: bool)
    requires
        0 <= i <= s.len(),
    ensures
        0 <= run_left(s, i, word) <= i,
    decreases i,
{
    if i > 0 && alphanumeric(s[i - 1]) == word {
        lemma_run_left(s, i - 1, word);
    }
}

proof fn lemma_run_right(s: Seq<char>, i: int, word: bool)
    requires
        0 <= i <= s.len(),
    ensures
        i <= run_right(s, i, word) <= s.len(),
    decreases s.len() - i,
{
    if i < s.len() && alphanumeric(s[i]) == word {
        lemma_run_right(s, i + 1, word);
    }
}

/// A word jump stays in the text and goes the way it should.
pub proof fn law_word_jumps_stay_inside(s: Seq<char>, cursor: int)
    requires
        0 <= cursor <= s.len(),
    ensures
        0 <= word_left(s, cursor) <= cursor <= word_right(s, cursor) <= s.len(),
{
    lemma_run_left(s, cursor, false);
    lemma_run_left(s, run_left(s, cursor, false), true);
    lemma_run_right(s, cursor, false);
    lemma_run_right(s, run_right(s, cursor, false), true);
}

/// The word boundary left of `cursor`.
pub fn prev_word_boundary(s: &str, cursor: usize) -> (r: usize)
    ensures
        r == word_left(s@, cursor as int),
        r <= s@.len(),
        r <= cursor,
{
    let cs = chars_of(s);
    let mut i: usize = if cursor < cs.len() {
        cursor
    } else {
        cs.len()
    };
    let ghost start = i as int;
    while i > 0 && !is_word_char(cs[i - 1])
        invariant
            i <= start <= cs.len(),
            run_left(cs@, i as int, false) == run_left(cs@, start, false),
        decreases i,
    {
        i -= 1;
    }
    let ghost mid = i as int;
    while i > 0 && is_word_char(cs[i - 1])
        invariant
            i <= mid <= cs.len(),
            run_left(cs@, i as int, true) == run_left(cs@, mid, true),
        decreases i,
    {
        i -= 1;
    }
    i
}

/// The word boundary right of `cursor`.
pub fn next_word_boundary(s: &str, cursor: usize) -> (r: usize)
    ensures
        r == word_right(s@, cursor as int),
        r <= s@.len(),
        cursor <= s@.len() ==> r >= cursor,
{
    let cs = chars_of(s);
    let len: usize = cs.len();
    let mut i: usize = if cursor < len {
        cursor
    } else {
        len
    };
    let ghost start = i as int;
    while i < len && !is_word_char(cs[i])
        invariant
            len == cs.len(),
            start <= i <= len,
            run_right(cs@, i as int, false) == run_right(cs@, start, false),
        decreases len - i,
    {
        i += 1;
    }
    let ghost mid = i as int;
    while i < len && is_word_char(cs[i])
        invariant
            len == cs.len(),
            mid <= i <= len,
            run_right(cs@, i as int, true) == run_right(cs@, mid, true),
        decreases len - i,
    {
        i += 1;
    }
    i
}

impl FieldView {
    /// Whether cursor and anchor stand inside the text.
    pub open spec fn wf(self) -> bool {
        &&& 0 <= self.cursor <= self.text.len()
        &&& self.anchor matches Some(a) ==> 0 <= a <= self.text.len()
    }

    /// A field with `text` in it and the cursor at the end.
    pub open spec fn holding(text: Seq<char>) -> FieldView {
        FieldView { text, cursor: text.len() as int, anchor: None }
    }

    /// The selected range, if any.
    pub open spec fn sel(self) -> Option<(int, int)> {
        match self.anchor {
            Some(a) => if a < self.cursor {
                Some((a, self.cursor))
            } else if self.cursor < a {
                Some((self.cursor, a))
            } else {
                None
            },
            None => None,
        }
    }

    /// With the selected text removed.
    pub open spec fn without_sel(self) -> FieldView {
        match self.sel() {
            Some((lo, hi)) => FieldView {
                text: self.text.take(lo) + self.text.skip(hi),
                cursor: lo,
                anchor: None,
            },
            None => FieldView { anchor: None, ..self },
        }
    }

    /// With `s` in place of the selection, or at the cursor.
    pub open spec fn inserted(self, s: Seq<char>) -> FieldView {
        let d = self.without_sel();
        FieldView {
            text: d.text.take(d.cursor) + s + d.text.skip(d.cursor),
            cursor: d.cursor + s.len(),
            anchor: None,
        }
    }

    /// Where a step to the left or right leads.
    pub open spec fn step(self, left: bool, word: bool) -> int {
        if left {
            if word {
                word_left(self.text, self.cursor)
            } else if self.cursor > 0 {
                self.cursor - 1
            } else {
                0
            }
        } else {
            if word {
                word_right(self.text, self.cursor)
            } else {
                at_most(self.cursor + 1, self.text.len() as int)
            }
        }
    }

    /// With the cursor moved a character or a word; `select` extends the
    /// selection, otherwise a selection collapses to its edge.
    pub open spec fn moved(self, left: bool, word: bool, select: bool) -> FieldView {
        let target = self.step(left, word);
        if select {
            let a = match self.anchor {
                Some(a) => a,
                None => self.cursor,
            };
            FieldView {
                cursor: target,
                anchor: if a == target {
                    None
                } else {
                    Some(a)
                },
                ..self
            }
        } else {
            FieldView {
                cursor: match self.sel() {
                    Some((lo, hi)) if !word => if left {
                        lo
                    } else {
                        hi
                    },
                    _ => target,
                },
                anchor: None,
                ..self
            }
        }
    }

    /// With the cursor at an end of the text; `select` extends the selection.
    pub open spec fn jumped(self, left: bool, select: bool) -> FieldView {
        FieldView {
            cursor: if left {
                0
            } else {
                self.text.len() as int
            },
            anchor: if !select {
                None
            } else {
                match self.anchor {
                    Some(a) => Some(a),
                    None => Some(self.cursor),
                }
            },
            ..self
        }
    }

    /// With everything selected.
    pub open spec fn all_selected(self) -> FieldView {
        if self.text.len() == 0 {
            FieldView { anchor: None, ..self }
        } else {
            FieldView { cursor: self.text.len() as int, anchor: Some(0), ..self }
        }
    }

    /// The selected text, or all of it.
    pub open spec fn copied(self) -> Seq<char> {
        match self.sel() {
            Some((lo, hi)) => self.text.subrange(lo, hi),
            None => self.text,
        }
    }

    /// Without the selection, or without the character before the cursor.
    pub open spec fn backspaced(self) -> FieldView {
        if self.sel() is Some || self.cursor == 0 {
            self.without_sel()
        } else {
            FieldView {
                text: self.text.remove(self.cursor - 1),
                cursor: self.cursor - 1,
                anchor: None,
            }
        }
    }

    /// Without the selection, or without the character behind the cursor.
    pub open spec fn deleted_forward(self) -> FieldView {
        if self.sel() is Some || self.cursor >= self.text.len() {
            self.without_sel()
        } else {
            FieldView { text: self.text.remove(self.cursor), anchor: None, ..self }
        }
    }

    /// Without anything before the cursor.
    pub open spec fn cut_before(self) -> FieldView {
        FieldView { text: self.text.skip(self.cursor), cursor: 0, anchor: None }
    }
}

impl Field {
    /// Whether cursor and anchor stand inside the text.
    pub open spec fn wf(&self) -> bool {
        self@.wf()
    }

    /// An empty field.
    pub fn empty() -> (r: Field)
        ensures
            r@ == FieldView::holding(Seq::empty()),
            r.wf(),
    {
        Field { text: String::new(), cursor: 0, anchor: None }
    }

    /// A field holding `text`, with the cursor at its end.
    pub fn holding(text: String) -> (r: Field)
        ensures
            r@ == FieldView::holding(text@),
            r.wf(),
    {
        let n = chars_of(text.as_str()).len();
        Field { text, cursor: n, anchor: None }
    }

    /// A copy of the field.
    pub fn copy(&self) -> (r: Field)
        ensures
            r@ == self@,
    {
        Field { text: self.text.clone(), cursor: self.cursor, anchor: self.anchor }
    }

    /// The selected range, if any.
    pub fn sel(&self) -> (r: Option<(usize, usize)>)
        ensures
            match r {
                Some((lo, hi)) => self@.sel() == Some((lo as int, hi as int)),
                None => self@.sel() is None,
            },
    {
        match self.anchor {
            Some(a) => if a < self.cursor {
                Some((a, self.cursor))
            } else if self.cursor < a {
                Some((self.cursor, a))
            } else {
                None
            },
            None => None,
        }
    }

    /// Removes the selected text; returns whether there was any.
    pub fn delete_sel(&mut self) -> (r: bool)
        requires
            old(self).wf(),
        ensures
            final(self)@ == old(self)@.without_sel(),
            r == (old(self)@.sel() is Some),
            final(self).wf(),
    {
        match self.sel() {
            Some((lo, hi)) => {
                let cs = chars_of(self.text.as_str());
                let mut t = piece(&cs, 0, lo);
                let tail = piece(&cs, hi, cs.len());
                t.append(tail.as_str());
                proof {
                    assert(t@ == self.text@.take(lo as int) + self.text@.skip(hi as int));
                }
                self.text = t;
                self.cursor = lo;
                self.anchor = None;
                true
            },
            None => {
                self.anchor = None;
                false
            },
        }
    }

    /// Inserts `s` at the cursor, replacing any selection.
    pub fn insert(&mut self, s: &str)
        requires
            old(self).wf(),
        ensures
            final(self)@ == old(self)@.inserted(s@),
            final(self).wf(),
    {
        self.delete_sel();
        let ghost d = self@;
        let cs = chars_of(self.text.as_str());
        let mut t = piece(&cs, 0, self.cursor);
        let tail = piece(&cs, self.cursor, cs.len());
        t.append(s);
        let n = chars_of(t.as_str()).len();
        t.append(tail.as_str());
        proof {
            assert(t@ == d.text.take(d.cursor) + s@ + d.text.skip(d.cursor));
        }
        self.text = t;
        self.cursor = n;
    }

    /// Where a step to the left or right leads.
    pub fn step(&self, left: bool, word: bool) -> (r: usize)
        requires
            self.wf(),
        ensures
            r == self@.step(left, word),
            r <= self@.text.len(),
    {
        let end: usize = chars_of(self.text.as_str()).len();
        if left {
            if word {
                prev_word_boundary(self.text.as_str(), self.cursor)
            } else if self.cursor > 0 {
                self.cursor - 1
            } else {
                0
            }
        } else {
            if word {
                next_word_boundary(self.text.as_str(), self.cursor)
            } else if self.cursor < end {
                self.cursor + 1
            } else {
                end
            }
        }
    }

    /// Moves the cursor a character or a word; `select` extends the selection.
    pub fn move_h(&mut self, left: bool, word: bool, select: bool)
        requires
            old(self).wf(),
        ensures
            final(self)@ == old(self)@.moved(left, word, select),
            final(self).wf(),
    {
        let target = self.step(left, word);
        if select {
            let a: usize = match self.anchor {
                Some(a) => a,
                None => self.cursor,
            };
            self.cursor = target;
            self.anchor = if a == target {
                None
            } else {
                Some(a)
            };
        } else {
            let at: usize = match self.sel() {
                Some((lo, hi)) => if word {
                    target
                } else if left {
                    lo
                } else {
                    hi
                },
                None => target,
            };
            self.cursor = at;
            self.anchor = None;
        }
    }

    /// Moves the cursor to an end of the text; `select` extends the selection.
    pub fn jump(&mut self, left: bool, select: bool)
        requires
            old(self).wf(),
        ensures
            final(self)@ == old(self)@.jumped(left, select),
            final(self).wf(),
    {
        if select {
            if self.anchor.is_none() {
                self.anchor = Some(self.cursor);
            }
        } else {
            self.anchor = None;
        }
        self.cursor = if left {
            0
        } else {
            chars_of(self.text.as_str()).len()
        };
    }

    /// Selects everything.
    pub fn select_all(&mut self)
        requires
            old(self).wf(),
        ensures
            final(self)@ == old(self)@.all_selected(),
            final(self).wf(),
    {
        let end: usize = chars_of(self.text.as_str()).len();
        if end == 0 {
            self.anchor = None;
        } else {
            self.anchor = Some(0);
            self.cursor = end;
        }
    }

    /// The selected text, or all of it.
    pub fn copy_text(&self) -> (r: String)
        requires
            self.wf(),
        ensures
            r@ == self@.copied(),
    {
        match self.sel() {
            Some((lo, hi)) => {
                let cs = chars_of(self.text.as_str());
                piece(&cs, lo, hi)
            },
            None => self.text.clone(),
        }
    }

    fn remove_char(&mut self, at: usize)
        requires
            at < old(self)@.text.len(),
        ensures
            final(self)@ == (FieldView { text: old(self)@.text.remove(at as int), ..old(self)@ }),
    {
        let mut cs = chars_of(self.text.as_str());
        cs.remove(at);
        self.text = string_of(&cs);
    }

    /// Removes the selection, or the character before the cursor.
    pub fn backspace(&mut self)
        requires
            old(self).wf(),
        ensures
            final(self)@ == old(self)@.backspaced(),
            final(self).wf(),
    {
        if !self.delete_sel() {
            if self.cursor > 0 {
                let at: usize = self.cursor - 1;
                self.remove_char(at);
                self.cursor = at;
            }
        }
    }

    /// Removes the selection, or the character behind the cursor.
    pub fn delete_forward(&mut self)
        requires
            old(self).wf(),
        ensures
            final(self)@ == old(self)@.deleted_forward(),
            final(self).wf(),
    {
        if !self.delete_sel() {
            let end: usize = chars_of(self.text.as_str()).len();
            if self.cursor < end {
                let at: usize = self.cursor;
                self.remove_char(at);
            }
        }
    }

    /// Removes everything before the cursor.
    pub fn kill_before(&mut self)
        requires
            old(self).wf(),
        ensures
            final(self)@ == old(self)@.cut_before(),
            final(self).wf(),
    {
        let cs = chars_of(self.text.as_str());
        let t = piece(&cs, self.cursor, cs.len());
        proof {
            assert(t@ == self.text@.skip(self.cursor as int));
        }
        self.text = t;
        self.cursor = 0;
        self.anchor = None;
    }
}

/// Typing a character and then deleting backwards restores the text and the
/// cursor, if nothing was selected.
pub proof fn law_backspace_undoes_typing(f: FieldView, c: char)
    requires
        f.wf(),
        f.sel() is None,
    ensures
        f.inserted(seq![c]).backspaced().text == f.text,
        f.inserted(seq![c]).backspaced().cursor == f.cursor,
{
    let g = f.inserted(seq![c]);
    assert(g.text[f.cursor] == c);
    assert(g.text.remove(f.cursor) == f.text);
}

/// Text inserted while everything is selected is all that is left.
pub proof fn law_insert_replaces_all(f: FieldView, s: Seq<char>)
    requires
        f.wf(),
    ensures
        f.all_selected().inserted(s).text == s,
        f.all_selected().inserted(s).cursor == s.len(),
{
    let a = f.all_selected();
    assert(a.without_sel().text == Seq::<char>::empty());
    assert(a.inserted(s).text == s);
}

/// Cutting the selection and pasting it again restores the text.
pub proof fn law_paste_restores_cut(f: FieldView)
    requires
        f.wf(),
        f.sel() is Some,
    ensures
        f.without_sel().inserted(f.copied()).text == f.text,
{
    let (lo, hi) = f.sel()->0;
    let d = f.without_sel();
    assert(d.without_sel().text == d.text);
    assert(d.text.take(lo) == f.text.take(lo));
    assert(d.text.skip(lo) == f.text.skip(hi));
    assert(f.text.take(lo) + f.text.subrange(lo, hi) + f.text.skip(hi) == f.text);
}

/// A plain step left and back right ends where it began, away from the start.
pub proof fn law_left_then_right(f: FieldView)
    requires
        f.wf(),
        f.sel() is None,
        f.cursor > 0,
    ensures
        f.moved(true, false, false).moved(false, false, false).cursor == f.cursor,
{
}

} // verus!
