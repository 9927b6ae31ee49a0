//! What editing, trimming and saving text amounts to.

use crate::editing::{FieldStepView, LineStep, field_key, line_key};
use crate::field::{FieldView, run_left, run_right, word_left, word_right};
use crate::keymap::{
    ACTION_COUNT, KeyAction, KeystrokeView, action_id, all_actions, bound_action, bound_from,
    lemma_action_at, lemma_action_id,
};
use crate::palette_laws::lemma_key_names;
use crate::persist::{GroupView, list_entries, living, savable_entry, with_group_line};
use crate::text::{
    alphanumeric, is_space, lemma_lines_cons, lemma_lines_last, lemma_trimmed_fixpoint,
    lemma_until_at, lines_of, trimmed, trimmed_end, trimmed_start,
};
use vstd::prelude::*;

verus! {

// ----- white space and lines -----------------------------------------------------------

/// Whether a text is nothing but white space.
pub open spec fn is_blank(s: Seq<char>) -> bool {
    forall|i: int| 0 <= i < s.len() ==> is_space(#[trigger] s[i])
}

proof fn lemma_trimmed_start_cut(s: Seq<char>) -> (a: Seq<char>)
    ensures
        s == a + trimmed_start(s),
        is_blank(a),
        trimmed_start(s).len() > 0 ==> !is_space(trimmed_start(s)[0]),
    decreases s.len(),
{
    if s.len() > 0 && is_space(s[0]) {
        let b = lemma_trimmed_start_cut(s.skip(1));
        let a = seq![s[0]] + b;
        assert(s =~= seq![s[0]] + s.skip(1));
        assert(a + trimmed_start(s) =~= seq![s[0]] + (b + trimmed_start(s.skip(1))));
        assert forall|i: int| 0 <= i < a.len() implies is_space(#[trigger] a[i]) by {
            if i > 0 {
                assert(a[i] == b[i - 1]);
            }
        }
        a
    } else {
        assert(s =~= Seq::<char>::empty() + s);
        Seq::empty()
    }
}

proof fn lemma_trimmed_end_cut(s: Seq<char>) -> (a: Seq<char>)
    ensures
        s == trimmed_end(s) + a,
        is_blank(a),
        trimmed_end(s).len() > 0 ==> !is_space(trimmed_end(s).last()),
    decreases s.len(),
{
    if s.len() > 0 && is_space(s.last()) {
        let b = lemma_trimmed_end_cut(s.drop_last());
        let a = b.push(s.last());
        assert(s =~= s.drop_last().push(s.last()));
        assert(trimmed_end(s) + a =~= (trimmed_end(s.drop_last()) + b).push(s.last()));
        assert forall|i: int| 0 <= i < a.len() implies is_space(#[trigger] a[i]) by {
            if i < b.len() {
                assert(a[i] == b[i]);
            }
        }
        a
    } else {
        assert(s =~= s + Seq::<char>::empty());
        Seq::empty()
    }
}

/// Trimming takes white space off both ends and nothing else, as much as there is.
pub proof fn law_trimming(s: Seq<char>)
    ensures
        exists|a: Seq<char>, b: Seq<char>|
            s == #[trigger] (a + trimmed(s) + b) && is_blank(a) && is_blank(b),
        trimmed(s).len() > 0 ==> !is_space(trimmed(s)[0]) && !is_space(trimmed(s).last()),
        trimmed(trimmed(s)) == trimmed(s),
{
    let a = lemma_trimmed_start_cut(s);
    let b = lemma_trimmed_end_cut(trimmed_start(s));
    assert(s =~= a + trimmed(s) + b);
    if trimmed(s).len() > 0 {
        assert(trimmed(s)[0] == trimmed_start(s)[0]);
    }
    lemma_trimmed_fixpoint(trimmed(s));
}

/// A line of a file holds no line break, and a file of whole lines comes apart at its
/// breaks.
pub proof fn law_lines_come_apart(a: Seq<char>, rest: Seq<char>)
    requires
        !a.contains('\n'),
        !(a.len() > 0 && a.last() == '\r'),
    ensures
        lines_of(a + seq!['\n'] + rest) == seq![a] + lines_of(rest),
        lines_of(a + seq!['\r', '\n'] + rest) == seq![a] + lines_of(rest),
        a.len() > 0 ==> lines_of(a) == seq![a],
{
    lemma_lines_cons(a, rest);
    let s = a + seq!['\r', '\n'] + rest;
    let k = a.len() as int + 1;
    assert(s[k] == '\n');
    lemma_until_at(s, '\n', k);
    assert(s.take(k).drop_last() =~= a);
    assert(s.skip(k + 1) =~= rest);
    if a.len() > 0 {
        lemma_lines_last(a);
    }
}

// ----- text fields ---------------------------------------------------------------------

/// Whether `s` is not of words from `a` to `m` and of a word from `m` to `b`.
pub open spec fn gap_then_word(s: Seq<char>, a: int, m: int, b: int) -> bool {
    &&& a <= m <= b
    &&& forall|k: int| a <= k < m ==> !alphanumeric(#[trigger] s[k])
    &&& forall|k: int| m <= k < b ==> alphanumeric(#[trigger] s[k])
}

proof fn lemma_run_right(s: Seq<char>, i: int, word: bool)
    requires
        0 <= i <= s.len(),
    ensures
        i <= run_right(s, i, word) <= s.len(),
        forall|k: int| i <= k < run_right(s, i, word) ==> alphanumeric(#[trigger] s[k]) == word,
        run_right(s, i, word) < s.len() ==> alphanumeric(s[run_right(s, i, word)]) != word,
    decreases s.len() - i,
{
    if i < s.len() && alphanumeric(s[i]) == word {
        lemma_run_right(s, i + 1, word);
    }
}

proof fn lemma_run_left(s: Seq<char>, i: int, word: bool)
    requires
        0 <= i <= s.len(),
    ensures
        0 <= run_left(s, i, word) <= i,
        forall|k: int| run_left(s, i, word) <= k < i ==> alphanumeric(#[trigger] s[k]) == word,
        run_left(s, i, word) > 0 ==> alphanumeric(s[run_left(s, i, word) - 1]) != word,
    decreases i,
{
    if i > 0 && alphanumeric(s[i - 1]) == word {
        lemma_run_left(s, i - 1, word);
    }
}

/// A jump by a word skips what is not of words and then one word whole: to the right to
/// its end, to the left to its start.
pub proof fn law_word_jumps(s: Seq<char>, c: int)
    requires
        0 <= c <= s.len(),
    ensures
        exists|m: int|
            #[trigger] gap_then_word(s, c, m, word_right(s, c)) && (m < s.len() ==> alphanumeric(
                s[m],
            )),
        word_right(s, c) < s.len() ==> !alphanumeric(s[word_right(s, c)]),
        exists|m: int|
            word_left(s, c) <= m <= c && (forall|k: int|
                word_left(s, c) <= k < m ==> alphanumeric(#[trigger] s[k])) && (forall|k: int|
                m <= k < c ==> !alphanumeric(#[trigger] s[k])) && (m > 0 ==> alphanumeric(
                #[trigger] s[m - 1],
            )),
        word_left(s, c) > 0 ==> !alphanumeric(s[word_left(s, c) - 1]),
{
    lemma_run_right(s, c, false);
    let m = run_right(s, c, false);
    lemma_run_right(s, m, true);
    assert(gap_then_word(s, c, m, word_right(s, c)));
    lemma_run_left(s, c, false);
    let n = run_left(s, c, false);
    lemma_run_left(s, n, true);
    if n > 0 {
        assert(alphanumeric(s[n - 1]));
    }
}

/// Moving changes no text. A step goes one character, and stops at the ends. With shift
/// the selection grows or shrinks between where it began and the cursor; without it a
/// selection is left at its side.
pub proof fn law_moving_in_a_field(f: FieldView, left: bool, word: bool)
    requires
        f.wf(),
    ensures
        ({
            let (m, s) = (f.moved(left, word, false), f.moved(left, word, true));
            &&& m.text == f.text && s.text == f.text
            &&& m.anchor is None
            &&& f.sel() is None && !word && left && f.cursor > 0 ==> m.cursor == f.cursor - 1
            &&& f.sel() is None && !word && !left && f.cursor < f.text.len() ==> m.cursor
                == f.cursor + 1
            &&& f.sel() is None && !word && left && f.cursor == 0 ==> m.cursor == 0
            &&& f.sel() is None && !word && !left && f.cursor == f.text.len() ==> m.cursor
                == f.cursor
            &&& !word ==> (f.sel() matches Some((lo, hi)) ==> lo < hi && m.cursor == if left {
                lo
            } else {
                hi
            })
            &&& word && left ==> m.cursor == word_left(f.text, f.cursor)
            &&& word && !left ==> m.cursor == word_right(f.text, f.cursor)
            &&& f.anchor is None && s.cursor != f.cursor ==> s.anchor == Some(f.cursor)
            &&& f.anchor is Some && s.cursor != f.anchor->0 ==> s.anchor == f.anchor
            &&& s.anchor == Some(s.cursor) ==> false
            &&& f.anchor is None ==> s.cursor == m.cursor
        }),
{
}

/// Jumping goes to an end of the text, with shift selecting up to it; selecting all
/// selects the text whole.
pub proof fn law_jumping_in_a_field(f: FieldView)
    requires
        f.wf(),
    ensures
        f.jumped(true, false).cursor == 0 && f.jumped(true, false).anchor is None,
        f.jumped(false, false).cursor == f.text.len() && f.jumped(false, false).anchor is None,
        f.anchor is None ==> f.jumped(true, true).copied() == if f.cursor == 0 {
            f.text
        } else {
            f.text.take(f.cursor)
        },
        f.jumped(true, false).text == f.text && f.jumped(false, true).text == f.text,
        f.all_selected().copied() == f.text,
        f.all_selected().text == f.text,
        f.text.len() > 0 ==> f.all_selected().sel() == Some((0int, f.text.len() as int)),
{
    assert(f.text.subrange(0, f.text.len() as int) =~= f.text);
    assert(f.text.subrange(0, f.cursor) =~= f.text.take(f.cursor));
}

/// Deleting: a selection goes as a whole; else backspace takes the character before the
/// cursor, and delete the one behind it, which is a step to the right and backspace.
/// Cutting before the cursor leaves what stands behind it.
pub proof fn law_deleting_in_a_field(f: FieldView)
    requires
        f.wf(),
    ensures
        f.sel() matches Some((lo, hi)) ==> ({
            let (b, d) = (f.backspaced(), f.deleted_forward());
            &&& b == d && b.text == f.text.take(lo) + f.text.skip(hi) && b.cursor == lo
            &&& b.anchor is None
        }),
        f.sel() is None && f.cursor > 0 ==> f.backspaced().text == f.text.take(f.cursor - 1)
            + f.text.skip(f.cursor) && f.backspaced().cursor == f.cursor - 1,
        f.sel() is None && f.cursor == 0 ==> f.backspaced().text == f.text,
        f.sel() is None && f.cursor < f.text.len() ==> f.deleted_forward() == f.moved(
            false,
            false,
            false,
        ).backspaced(),
        f.sel() is None && f.cursor == f.text.len() ==> f.deleted_forward().text == f.text,
        f.cut_before().text == f.text.skip(f.cursor) && f.cut_before().cursor == 0,
{
    if f.sel() is None && f.cursor > 0 {
        assert(f.backspaced().text =~= f.text.take(f.cursor - 1) + f.text.skip(f.cursor));
    }
    if f.sel() is None && f.cursor < f.text.len() {
        let m = f.moved(false, false, false);
        assert(m.sel() is None);
        assert(f.deleted_forward().text =~= m.backspaced().text);
    }
}

/// Typed text goes in at the cursor, in place of what is selected, with the cursor behind
/// it. The rest stays.
pub proof fn law_typing_in_a_field(f: FieldView, t: Seq<char>)
    requires
        f.wf(),
    ensures
        f.sel() is None ==> f.inserted(t).text == f.text.take(f.cursor) + t + f.text.skip(f.cursor),
        f.sel() matches Some((lo, hi)) ==> f.inserted(t).text == f.text.take(lo) + t + f.text.skip(
            hi,
        ),
        f.inserted(t).anchor is None,
        f.inserted(t).text.subrange(f.inserted(t).cursor - t.len(), f.inserted(t).cursor) == t,
{
    let r = f.inserted(t);
    match f.sel() {
        Some((lo, hi)) => {
            assert(r.text =~= f.text.take(lo) + t + f.text.skip(hi));
            assert(r.text.subrange(lo, lo + t.len()) =~= t);
        },
        None => {
            assert(r.text.subrange(f.cursor, f.cursor + t.len()) =~= t);
        },
    }
}

/// The keys of a field: arrows and shift, option and command, cut, copy and paste, and
/// what each puts on the clipboard.
pub proof fn law_field_keys(f: FieldView, ks: KeystrokeView, all: bool)
    requires
        f.wf(),
    ensures
        ({
            let (r, step) = field_key(f, ks, all);
            &&& ks.key == "left"@ && !ks.platform ==> r == f.moved(true, ks.alt, ks.shift)
            &&& ks.key == "right"@ && !ks.platform ==> r == f.moved(false, ks.alt, ks.shift)
            &&& ks.key == "left"@ && ks.platform ==> r == f.jumped(true, ks.shift)
            &&& ks.key == "right"@ && ks.platform ==> r == f.jumped(false, ks.shift)
            &&& ks.key == "backspace"@ ==> r == f.backspaced() && step is Edited
            &&& ks.key == "delete"@ && all ==> r == f.deleted_forward()
            &&& ks.key == "a"@ && ks.platform ==> r == f.all_selected()
            &&& ks.key == "c"@ && ks.platform ==> r == f && step == FieldStepView::Copied(
                f.copied(),
            )
            &&& ks.key == "x"@ && ks.platform && all && f.sel() is Some ==> r == f.without_sel()
                && step == FieldStepView::CutOut(f.copied())
            &&& ks.key == "v"@ && ks.platform && ks.clipboard is Some ==> r == f.inserted(
                trimmed(ks.clipboard->0),
            )
            &&& ks.key == "k"@ && ks.platform ==> r == f
        }),
{
    lemma_key_names();
}

/// A line that is typed without a cursor grows and shrinks at its end.
pub proof fn law_line_keys(s: Seq<char>, ks: KeystrokeView, tab: bool)
    ensures
        ks.key == "backspace"@ && s.len() > 0 ==> line_key(s, ks, tab).0 == s.drop_last(),
        ks.key == "backspace"@ && s.len() == 0 ==> line_key(s, ks, tab).0 == s,
        ks.key == "v"@ && ks.platform && ks.clipboard is Some ==> line_key(s, ks, tab).0 == s
            + trimmed(ks.clipboard->0),
        ks.key == "enter"@ ==> line_key(s, ks, tab) == (s, LineStep::Enter),
        ks.key == "escape"@ ==> line_key(s, ks, tab) == (s, LineStep::Escape),
        ks.key == "tab"@ && tab ==> line_key(s, ks, tab) == (s, LineStep::Tab),
        s.is_prefix_of(line_key(s, ks, tab).0) || line_key(s, ks, tab).0 == s.drop_last(),
{
    lemma_key_names();
    let r = line_key(s, ks, tab).0;
    if r.len() >= s.len() {
        assert(r.subrange(0, s.len() as int) =~= s);
    }
}

/// What a key types is its text, unless that is empty, holds a control character, or the
/// command key is held.
pub proof fn law_typed_text(ks: KeystrokeView)
    ensures
        ks.typed() is Some <==> !ks.platform && (ks.key_char matches Some(c) && c.len() > 0
            && forall|i: int|
            0 <= i < c.len() ==> !((#[trigger] c[i]) as u32 <= 0x1f || 0x7f <= (c[i] as u32)
                <= 0x9f)),
        ks.typed() is Some ==> ks.typed() == ks.key_char,
{
}

// ----- key bindings --------------------------------------------------------------------

/// The name of a key stroke is its key behind its modifiers, in the order command,
/// control, option, shift.
pub proof fn law_strokes_are_named(ks: KeystrokeView)
    ensures
        !ks.platform && !ks.control && !ks.alt && !ks.shift ==> ks.canonical() == ks.key,
        ks.platform ==> ks.canonical() == "cmd-"@ + (KeystrokeView {
            platform: false,
            ..ks
        }).canonical(),
        !ks.platform && ks.control ==> ks.canonical() == "ctrl-"@ + (KeystrokeView {
            control: false,
            ..ks
        }).canonical(),
        !ks.platform && !ks.control && ks.alt ==> ks.canonical() == "alt-"@ + (KeystrokeView {
            alt: false,
            ..ks
        }).canonical(),
        !ks.platform && !ks.control && !ks.alt && ks.shift ==> ks.canonical() == "shift-"@
            + ks.key,
{
    let e = Seq::<char>::empty();
    assert(e + e + e + e + ks.key =~= ks.key);
    assert(ks.platform ==> ks.canonical() =~= "cmd-"@ + (KeystrokeView {
            platform: false,
            ..ks
        }).canonical());
    assert(!ks.platform && ks.control ==> ks.canonical() =~= "ctrl-"@ + (KeystrokeView {
            control: false,
            ..ks
        }).canonical());
    assert(!ks.platform && !ks.control && ks.alt ==> ks.canonical() =~= "alt-"@ + (KeystrokeView {
            alt: false,
            ..ks
        }).canonical());
    assert(!ks.platform && !ks.control && !ks.alt && ks.shift ==> ks.canonical() =~= "shift-"@
        + ks.key);
}

proof fn lemma_bound_from(binds: Seq<Option<Seq<char>>>, ks: Seq<char>, from: int)
    requires
        binds.len() == ACTION_COUNT,
        0 <= from <= ACTION_COUNT,
    ensures
        bound_from(binds, ks, from) matches Some(a) ==> from <= action_id(a)
            && binds[action_id(a)] == Some(ks) && forall|i: int|
            from <= i < action_id(a) ==> #[trigger] binds[i] != Some(ks),
        bound_from(binds, ks, from) is None ==> forall|i: int|
            from <= i < ACTION_COUNT ==> #[trigger] binds[i] != Some(ks),
    decreases ACTION_COUNT - from,
{
    if from < ACTION_COUNT {
        lemma_action_at(from);
        if binds[from] != Some(ks) {
            lemma_bound_from(binds, ks, from + 1);
        }
    }
}

/// A key stroke does the first action that it is bound to, and none where it is bound to
/// none.
pub proof fn law_strokes_do_what_they_are_bound_to(
    binds: Seq<Option<Seq<char>>>,
    ks: Seq<char>,
    a: KeyAction,
)
    requires
        binds.len() == ACTION_COUNT,
    ensures
        bound_action(binds, ks) == Some(a) ==> binds[action_id(a)] == Some(ks),
        bound_action(binds, ks) is None <==> forall|i: int|
            0 <= i < binds.len() ==> #[trigger] binds[i] != Some(ks),
        binds[action_id(a)] == Some(ks) && (forall|i: int|
            0 <= i < action_id(a) ==> #[trigger] binds[i] != Some(ks)) ==> bound_action(binds, ks)
            == Some(a),
        0 <= action_id(a) < ACTION_COUNT && all_actions()[action_id(a)] == a,
{
    lemma_bound_from(binds, ks, 0);
    lemma_action_id(a);
    match bound_action(binds, ks) {
        Some(b) => {
            lemma_action_id(b);
            if binds[action_id(a)] == Some(ks) && (forall|i: int|
                0 <= i < action_id(a) ==> #[trigger] binds[i] != Some(ks)) {
                assert(action_id(b) >= action_id(a)) by {
                    if action_id(b) < action_id(a) {
                        assert(binds[action_id(b)] != Some(ks));
                    }
                }
                assert(action_id(b) <= action_id(a)) by {
                    if action_id(b) > action_id(a) {
                        assert(binds[action_id(a)] != Some(ks));
                    }
                }
                assert(all_actions()[action_id(a)] == all_actions()[action_id(b)]);
            }
        },
        None => {
            assert(binds[action_id(a)] != Some(ks));
        },
    }
}

// ----- lists and groups in files -------------------------------------------------------

/// A list in a file holds its lines, trimmed, without blank ones; paths that are gone are
/// left out, in order.
pub proof fn law_lists_skip_blanks(ls: Seq<Seq<char>>, l: Seq<char>)
    ensures
        trimmed(l).len() == 0 ==> list_entries(ls.push(l)) == list_entries(ls),
        trimmed(l).len() > 0 ==> list_entries(ls.push(l)) == list_entries(ls).push(trimmed(l)),
{
    assert(ls.push(l).drop_last() =~= ls);
}

/// Of saved paths those stay that are still there, in their order.
pub proof fn law_living_paths_stay(paths: Seq<Seq<char>>, there: Seq<bool>, p: Seq<char>)
    requires
        there.len() == paths.len(),
    ensures
        living(paths.push(p), there.push(true)) == living(paths, there).push(p),
        living(paths.push(p), there.push(false)) == living(paths, there),
{
    assert(paths.push(p).drop_last() =~= paths);
    lemma_living_prefix(paths, there, true);
    lemma_living_prefix(paths, there, false);
}

proof fn lemma_living_prefix(paths: Seq<Seq<char>>, there: Seq<bool>, more: bool)
    requires
        paths.len() <= there.len(),
    ensures
        living(paths, there.push(more)) == living(paths, there),
    decreases paths.len(),
{
    if paths.len() > 0 {
        lemma_living_prefix(paths.drop_last(), there, more);
    }
}

/// In the file of groups a name in brackets begins a group, and each path behind it, up
/// to the next one, belongs to it; paths before the first group are dropped.
pub proof fn law_groups_in_a_file(gs: Seq<GroupView>, name: Seq<char>, path: Seq<char>)
    requires
        savable_entry(path),
        !(path[0] == '[' && path.last() == ']'),
    ensures
        with_group_line(gs, seq!['['] + name + seq![']']) == gs.push(
            (GroupView { name, paths: Seq::empty() }),
        ),
        gs.len() > 0 ==> with_group_line(gs, path).len() == gs.len() && with_group_line(
            gs,
            path,
        ).last().paths == gs.last().paths.push(path) && with_group_line(gs, path).last().name
            == gs.last().name && with_group_line(gs, path).drop_last() == gs.drop_last(),
        gs.len() == 0 ==> with_group_line(gs, path) == gs,
{
    let h = seq!['['] + name + seq![']'];
    assert(h[0] == '[' && h.last() == ']');
    lemma_trimmed_fixpoint(h);
    assert(h.subrange(1, h.len() - 1) =~= name);
    lemma_trimmed_fixpoint(path);
    if gs.len() > 0 {
        assert(with_group_line(gs, path).drop_last() =~= gs.drop_last());
    }
}

} // verus!
