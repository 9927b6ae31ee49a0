//! What the palette offers: which results, in which order, and what choosing one of
//! them does.

use crate::find::best_rows;
use crate::index::IndexEntryView;
use crate::keymap::{ACTION_COUNT, Key, KeyAction, KeystrokeView, action_id, key_named};
use crate::listing::EntryView;
use crate::order_laws::{lemma_precedes_less, precedes};
use crate::palette::{
    ActionView, ItemView, PaletteAction, PaletteMode, PaletteView, PlanView, SearchScope,
    command_items, folder_items, law_history_is_bounded, name_key, path_items, remembered,
    without_text,
};
use crate::palette_keys::PaletteStepView;
use crate::paths::{components_of, joined_path};
use crate::rounding::{
    SINGLE, half_even, lemma_rounded_near, lemma_rounded_rises, lemma_rounded_whole_at_least, lift,
    rounded,
};
use crate::score::{
    at_least_three_fifths, dice_of, lemma_shared_symmetric, match_value, pairs_of, shared,
    similarity,
};
use crate::search_laws::{in_all, in_common, neighbours};
use crate::sorting::{
    comes_first, key_less, lemma_key_total, lemma_order_exists, order_of, text_key,
};
use crate::text::{lowercase, trimmed};
use vstd::prelude::*;

verus! {

// ----- commands ------------------------------------------------------------------------

/// A similarity of `c` shared among `t` pairs is at least three fifths where it is.
proof fn lemma_three_fifths(c: nat, t: nat)
    requires
        2 * c <= t,
        0 < t < 0x20_0000,
    ensures
        at_least_three_fifths(similarity(c, t)) <==> 10 * c >= 3 * t,
{
    let half = SINGLE as nat;
    lemma_rounded_whole_at_least(c, half);
    lemma_rounded_whole_at_least(t, half);
    let v = rounded(2 * c, t, half);
    if c == 0 {
        assert(v == (0nat, 1nat)) by {
            assert(0 < 2 * half * t) by (nonlinear_arith)
                requires
                    half == 0x80_0000,
                    t > 0,
            ;
            assert(lift(0, half * t) == 1);
            assert(half_even(0, t) == 0) by {
                vstd::arithmetic::div_mod::lemma_basic_div(0, t as int);
                vstd::arithmetic::div_mod::lemma_small_mod(0, t);
            }
        }
    } else {
        assert(2 * c < 2 * half * t) by (nonlinear_arith)
            requires
                2 * c <= t,
                t > 0,
                half == 0x80_0000,
        ;
        lemma_rounded_near(2 * c, t, half);
        let (n, s) = (v.0, v.1);
        if 10 * c >= 3 * t {
            lemma_rounded_rises(3, 5, 2 * c, t, half);
            assert(rounded(3, 5, half) == (10_066_330nat, 0x100_0000nat)) by {
                reveal_with_fuel(lift, 26);
                assert(lift(3, 41_943_040) == 0x100_0000);
            }
            assert(10_066_330 * s <= n * 0x100_0000);
            assert(v == similarity(c, t));
            assert(0x100_0000 * n >= 10_066_330 * s);
        } else {
            assert(s >= 3 * t) by (nonlinear_arith)
                requires
                    (2 * c) * s >= half * t,
                    10 * c < 3 * t,
                    half == 0x80_0000,
                    t < 0x20_0000,
                    c >= 1,
            ;
            assert(5 * n <= 3 * s) by (nonlinear_arith)
                requires
                    2 * (n * t) <= 2 * ((2 * c) * s) + t,
                    10 * c + 1 <= 3 * t,
                    s >= 3 * t,
                    t > 0,
            ;
            assert(v == similarity(c, t));
            assert(0x100_0000 * n < 10_066_330 * s);
        }
    }
}

/// Whether a query is near to a word: it begins it, or three fifths of their pairs of
/// neighbours or more are shared.
pub open spec fn near_to(q: Seq<char>, word: Seq<char>) -> bool {
    q.is_prefix_of(word) || (q.len() >= 2 && word.len() >= 2 && 10 * in_common(q, word) >= 3
        * in_all(q, word))
}

proof fn lemma_near_to(q: Seq<char>, word: Seq<char>)
    requires
        q.len() <= 0x8_0000,
        2 <= word.len() <= 0x8_0000,
    ensures
        (q.is_prefix_of(word) || at_least_three_fifths(dice_of(q, word))) <==> near_to(q, word),
{
    let (x, y) = (pairs_of(q), pairs_of(word));
    assert(x =~= neighbours(q));
    assert(y =~= neighbours(word));
    if x.len() != 0 && y.len() != 0 {
        lemma_shared_symmetric(x, y);
        lemma_three_fifths(shared(x, y), x.len() + y.len());
    }
}

/// The settings are offered for a query that is near to `settings`, `preferences` or
/// `config`, and for no other.
pub proof fn law_settings_are_offered(q: Seq<char>)
    requires
        lowercase(q).len() <= 0x8_0000,
    ensures
        command_items(q).len() == 1 || command_items(q).len() == 0,
        command_items(q).len() == 1 <==> near_to(lowercase(q), "settings"@) || near_to(
            lowercase(q),
            "preferences"@,
        ) || near_to(lowercase(q), "config"@),
        command_items(q).len() == 1 ==> command_items(q)[0].action == ActionView::OpenSettings,
{
    reveal_strlit("settings");
    reveal_strlit("preferences");
    reveal_strlit("config");
    lemma_near_to(lowercase(q), "settings"@);
    lemma_near_to(lowercase(q), "preferences"@);
    lemma_near_to(lowercase(q), "config"@);
}

// ----- results -------------------------------------------------------------------------

/// Whether a result opens a path under a name: its path is shown, and opened.
pub open spec fn opens(i: ItemView, name: Seq<char>, path: Seq<char>, is_dir: bool) -> bool {
    &&& i.title == name
    &&& i.subtitle == path
    &&& i.action == ActionView::Open(path, is_dir)
    &&& i.is_dir == is_dir
}

/// What a search found is offered in its order, each to be opened where it lies; the
/// matching commands stand before it.
pub proof fn law_hits_are_offered(p: PaletteView, q: Seq<char>, hits: Seq<IndexEntryView>)
    ensures
        ({
            let r = p.found_anywhere(p.gen, q, hits);
            let n = command_items(q).len();
            &&& r.items.len() == n + hits.len()
            &&& r.selected == 0
            &&& forall|k: int| 0 <= k < n ==> #[trigger] r.items[k] == command_items(q)[k]
            &&& forall|k: int|
                0 <= k < hits.len() ==> opens(
                    #[trigger] r.items[n + k],
                    hits[k].name,
                    hits[k].path,
                    hits[k].is_dir,
                )
        }),
{
}

/// A search below the current folder offers what it found in its order, where it is
/// still wanted: the palette searches there, and the folder is the same.
pub proof fn law_hits_below_are_offered(
    p: PaletteView,
    root: Seq<char>,
    dir: Seq<char>,
    hits: Seq<IndexEntryView>,
)
    ensures
        ({
            let r = p.found_below(p.gen, root, dir, hits);
            let wanted = p.mode == PaletteMode::Search(SearchScope::Recursive)
                && components_of(dir) == components_of(root);
            &&& !wanted ==> r == p
            &&& wanted ==> r.items.len() == hits.len() && r.selected == 0 && forall|k: int|
                0 <= k < hits.len() ==> opens(
                    #[trigger] r.items[k],
                    hits[k].name,
                    hits[k].path,
                    hits[k].is_dir,
                )
        }),
{
}

/// The results in the current folder are its best matches, fifty at most, each to be
/// opened in that folder.
pub proof fn law_folder_results(dir: Seq<char>, entries: Seq<EntryView>, q: Seq<char>)
    ensures
        ({
            let (r, best) = (folder_items(dir, entries, q), best_rows(entries, q));
            &&& best.len() <= 50 ==> r.len() == best.len()
            &&& best.len() > 50 ==> r.len() == 50
            &&& forall|k: int|
                0 <= k < r.len() ==> opens(
                    #[trigger] r[k],
                    entries[best[k]].name,
                    joined_path(dir, entries[best[k]].name),
                    entries[best[k]].is_dir,
                )
        }),
{
}

/// Whether a name of a folder may stand before another one in the results for what is
/// typed of it: it scores higher, or the same and is a folder where the other is not,
/// or is the same in both and not behind it in a dictionary.
pub open spec fn in_result_order(
    a: (Seq<char>, bool),
    b: (Seq<char>, bool),
    partial: Seq<char>,
) -> bool {
    let (x, y) = if partial.len() == 0 {
        (0, 0)
    } else {
        (match_value(partial, a.0), match_value(partial, b.0))
    };
    &&& x >= y
    &&& x == y ==> (b.1 ==> a.1)
    &&& x == y && a.1 == b.1 ==> !precedes(lowercase(b.0), lowercase(a.0))
}

/// Whether results are the names at the positions `o`, each once and each to be opened
/// in its folder, in their order.
pub open spec fn lists_names(
    items: Seq<ItemView>,
    base: Seq<char>,
    partial: Seq<char>,
    names: Seq<(Seq<char>, bool)>,
    o: Seq<int>,
) -> bool {
    &&& o.len() == items.len()
    &&& forall|i: int|
        0 <= i < o.len() ==> 0 <= #[trigger] o[i] < names.len() && opens(
            items[i],
            names[o[i]].0,
            joined_path(base, names[o[i]].0),
            names[o[i]].1,
        )
    &&& forall|i: int, j: int|
        0 <= i < j < o.len() ==> #[trigger] o[i] != #[trigger] o[j] && in_result_order(
            names[o[i]],
            names[o[j]],
            partial,
        )
}

proof fn lemma_result_order(a: (Seq<char>, bool), b: (Seq<char>, bool), partial: Seq<char>)
    requires
        !key_less(name_key(b, partial), name_key(a, partial)),
    ensures
        in_result_order(a, b, partial),
{
    let (k, l) = (name_key(a, partial), name_key(b, partial));
    let (x, y) = (lowercase(a.0), lowercase(b.0));
    reveal_with_fuel(key_less, 3);
    if precedes(y, x) {
        lemma_precedes_less(y, x, Seq::empty(), Seq::empty());
    }
    if partial.len() == 0 {
        assert(k.skip(1) =~= text_key(x));
        assert(l.skip(1) =~= text_key(y));
    } else {
        assert(k[0] == -1 - match_value(partial, a.0));
        assert(l[0] == -1 - match_value(partial, b.0));
        assert(k.skip(1)[0] == k[1] && l.skip(1)[0] == l[1]);
        assert(k.skip(1).skip(1) =~= text_key(x));
        assert(l.skip(1).skip(1) =~= text_key(y));
    }
}

/// The results for a path that is typed are the names of its folder, the best match
/// first, then folders first and in dictionary order: fifty of them, or all.
pub proof fn law_path_results_in_order(
    base: Seq<char>,
    partial: Seq<char>,
    names: Seq<(Seq<char>, bool)>,
)
    ensures
        exists|o: Seq<int>| lists_names(path_items(base, partial, names), base, partial, names, o),
        names.len() <= 50 ==> path_items(base, partial, names).len() == names.len(),
        names.len() > 50 ==> path_items(base, partial, names).len() == 50,
{
    let keys = names.map_values(|n: (Seq<char>, bool)| name_key(n, partial));
    lemma_order_exists(keys);
    let all = order_of(keys);
    let items = path_items(base, partial, names);
    let o = all.take(items.len() as int);
    assert forall|i: int, j: int| 0 <= i < j < o.len() implies #[trigger] o[i] != #[trigger] o[j]
        && in_result_order(names[o[i]], names[o[j]], partial) by {
        assert(comes_first(keys, all[i], all[j]));
        let (a, b) = (names[o[i]], names[o[j]]);
        assert(keys[o[i]] == name_key(a, partial) && keys[o[j]] == name_key(b, partial));
        lemma_key_total(name_key(a, partial), name_key(b, partial));
        lemma_key_total(name_key(a, partial), name_key(a, partial));
        lemma_result_order(a, b, partial);
    }
    assert(lists_names(items, base, partial, names, o));
}

/// What a query leads to: nothing typed offers to copy the folder, or nothing in a
/// search of a folder; a path is looked up in its folder, anything else searched for
/// under the number of this search. A folder that is not indexed yet is announced.
pub proof fn law_query_decides(
    p: PaletteView,
    dir: Seq<char>,
    entries: Seq<EntryView>,
    indexed: bool,
    home: Seq<char>,
)
    ensures
        ({
            let q = trimmed(p.query.text);
            let (r, plan) = p.refreshed(dir, entries, indexed, home);
            let here = p.mode == PaletteMode::Search(SearchScope::CurrentFolder);
            let below = p.mode == PaletteMode::Search(SearchScope::Recursive);
            &&& r.query == p.query && r.mode == p.mode && r.open == p.open && r.hist == p.hist
            &&& r.actions is None
            &&& here ==> plan is Shown
            &&& here && q.len() == 0 ==> r.items.len() == 0
            &&& below && !indexed ==> plan is Shown && r.items.len() == 1 && r.items[0].action
                is Inert && r.items[0].subtitle == dir
            &&& below && indexed ==> r.items.len() == 0 && (q.len() == 0 ==> plan is Shown) && (
            q.len() > 0 ==> plan == PlanView::Recursive { gen: r.gen, query: q, root: dir })
            &&& !here && !below && q.len() == 0 ==> plan is Shown && r.items.len() == 1
                && r.items[0].action is CopyDir && r.items[0].subtitle == dir
            &&& !here && !below && q.len() > 0 ==> (plan is List <==> q[0] == '/' || q[0] == '~')
            &&& !here && !below && q.len() > 0 && !(plan is List) ==> plan == PlanView::Global {
                gen: r.gen,
                query: q,
            } && r.items == command_items(q)
        }),
{
}

/// A path that does not lead to a folder is said not to be found, and cannot be opened.
pub proof fn law_missing_path_is_announced(
    p: PaletteView,
    base: Seq<char>,
    partial: Seq<char>,
    names: Seq<(Seq<char>, bool)>,
)
    ensures
        p.listed(base, partial, false, names).items.len() == 1,
        p.listed(base, partial, false, names).items[0].action is Inert,
        p.listed(base, partial, false, names).items[0].subtitle == base,
        p.listed(base, partial, true, names).items == path_items(base, partial, names),
{
}

// ----- choosing ------------------------------------------------------------------------

/// The arrow keys step through the results and stop at the first and the last one: a
/// step down and one up again lead back, where there is a result below.
pub proof fn law_steps_lead_back(p: PaletteView)
    requires
        0 <= p.selected < p.items.len(),
    ensures
        p.selected + 1 < p.items.len() ==> p.stepped(1).selected == p.selected + 1
            && p.stepped(1).stepped(-1) == p,
        p.selected > 0 ==> p.stepped(-1).selected == p.selected - 1 && p.stepped(-1).stepped(1)
            == p,
        p.selected == 0 ==> p.stepped(-1) == p,
        p.selected + 1 == p.items.len() ==> p.stepped(1) == p,
        p.chosen() == Some(p.items[p.selected]),
{
}

/// Choosing a result does what it is for, and closes the palette, unless it only
/// informs; the query goes to the history where that is kept.
pub proof fn law_choosing_closes(p: PaletteView, history_on: bool)
    requires
        0 <= p.selected < p.items.len(),
    ensures
        ({
            let (r, step) = p.activated(history_on);
            &&& step matches PaletteStepView::Activate { action, saved } && action
                == p.items[p.selected].action && (saved ==> history_on && r.hist.last()
                == trimmed(p.query.text)) && (!saved ==> r.hist == p.hist)
            &&& !(p.items[p.selected].action is Inert) ==> !r.open && r.actions is None
            &&& p.items[p.selected].action is Inert ==> r.open == p.open
            &&& history_on && trimmed(p.query.text).len() > 0 && p.mode == PaletteMode::Search(
                SearchScope::Global,
            ) ==> step == (PaletteStepView::Activate {
                action: p.items[p.selected].action,
                saved: true,
            })
        }),
{
    law_history_is_bounded(p.hist, trimmed(p.query.text));
}

/// A further action is done on the path of the selected result, and closes the
/// palette; what cannot be opened has none.
pub proof fn law_further_actions(p: PaletteView, act: PaletteAction, history_on: bool)
    requires
        0 <= p.selected < p.items.len(),
    ensures
        p.items[p.selected].action matches ActionView::Open(path, is_dir) ==> ({
            let (r, step) = p.ran(act, history_on);
            &&& !r.open
            &&& step == (PaletteStepView::Run {
                act,
                path,
                is_dir,
                saved: p.records(history_on),
            })
        }),
        !(p.items[p.selected].action is Open) ==> p.ran(act, history_on) == (
            p,
            PaletteStepView::Idle,
        ) && p.action_list().len() == 0,
        p.items[p.selected].action is Open ==> p.action_list().len() > 0
            && p.action_list()[0].0 == PaletteAction::Open,
        p.items[p.selected].action matches ActionView::Open(path, is_dir) ==> (exists|k: int|
            0 <= k < p.action_list().len() && (#[trigger] p.action_list()[k]).0
                == PaletteAction::RevealShuffle) == !is_dir,
{
    let l = p.action_list();
    match p.items[p.selected].action {
        ActionView::Open(path, is_dir) => {
            if !is_dir {
                assert(l[1].0 == PaletteAction::RevealShuffle);
            }
        },
        _ => {},
    }
}

// ----- the history ---------------------------------------------------------------------

/// Taking out a text that is not there changes nothing.
pub proof fn lemma_without_absent(s: Seq<Seq<char>>, q: Seq<char>)
    requires
        !s.contains(q),
    ensures
        without_text(s, q) == s,
    decreases s.len(),
{
    if s.len() > 0 {
        let h = s.drop_last();
        assert(!h.contains(q)) by {
            if h.contains(q) {
                let k = choose|k: int| 0 <= k < h.len() && h[k] == q;
                assert(s[k] == q);
            }
        }
        lemma_without_absent(h, q);
        assert(s[s.len() - 1] != q);
        assert(h.push(s.last()) =~= s);
    }
}

/// A text is taken out of both parts of a list.
pub proof fn lemma_without_joined(a: Seq<Seq<char>>, b: Seq<Seq<char>>, q: Seq<char>)
    ensures
        without_text(a + b, q) == without_text(a, q) + without_text(b, q),
    decreases b.len(),
{
    if b.len() == 0 {
        assert(a + b =~= a);
        assert(without_text(a, q) + without_text(b, q) =~= without_text(a, q));
    } else {
        lemma_without_joined(a, b.drop_last(), q);
        assert((a + b).drop_last() =~= a + b.drop_last());
        assert(without_text(a + b, q) =~= without_text(a, q) + without_text(b, q));
    }
}

/// A query that is used moves to the end of the history; the others keep their order,
/// and only the oldest of more than fifty goes.
pub proof fn law_history_keeps_the_others(a: Seq<Seq<char>>, b: Seq<Seq<char>>, q: Seq<char>)
    requires
        !a.contains(q),
        !b.contains(q),
    ensures
        a.len() + b.len() < 50 ==> remembered(a + seq![q] + b, q) == a + b + seq![q],
        a.len() < 50 ==> remembered(a, q) == a + seq![q],
        a.len() == 50 ==> remembered(a, q) == a.skip(1) + seq![q],
{
    lemma_without_absent(a, q);
    lemma_without_absent(b, q);
    lemma_without_joined(a, seq![q], q);
    lemma_without_joined(a + seq![q], b, q);
    let one = seq![q];
    assert(without_text(one, q) =~= Seq::empty()) by {
        assert(one.last() == q);
        assert(one.drop_last().len() == 0);
        reveal_with_fuel(without_text, 2);
    }
    assert(without_text(a, q) + without_text(seq![q], q) + without_text(b, q) =~= a + b);
    assert(remembered(a, q) =~= if a.len() < 50 {
        a + seq![q]
    } else {
        remembered(a, q)
    });
    if a.len() + b.len() < 50 {
        assert(remembered(a + seq![q] + b, q) =~= a + b + seq![q]);
    }
    if a.len() == 50 {
        assert(remembered(a, q) =~= a.skip(1) + seq![q]);
    }
}

/// The history is walked from the newest query back to the oldest one, and forth to an
/// empty query behind the newest.
pub proof fn law_history_is_walked(p: PaletteView, at: int)
    requires
        p.hist.len() > 0,
        0 <= at < p.hist.len(),
    ensures
        ({
            let here = PaletteView { hist_pos: Some(at), ..p };
            let fresh = PaletteView { hist_pos: None, ..p };
            &&& fresh.older().query.text == p.hist.last() && fresh.older().hist_pos == Some(
                p.hist.len() - 1,
            )
            &&& at > 0 ==> here.older().query.text == p.hist[at - 1] && here.older().hist_pos
                == Some(at - 1)
            &&& at == 0 ==> here.older().query.text == p.hist[0] && here.older().hist_pos == Some(
                0int,
            )
            &&& at + 1 < p.hist.len() ==> here.newer().query.text == p.hist[at + 1]
                && here.newer().hist_pos == Some(at + 1)
            &&& at + 1 == p.hist.len() ==> here.newer().query.text.len() == 0
                && here.newer().hist_pos is None
            &&& fresh.newer() == fresh
            &&& here.older().query.cursor == here.older().query.text.len()
            &&& here.newer().hist == p.hist && here.older().hist == p.hist
        }),
{
}

// ----- keys ----------------------------------------------------------------------------

/// The keys go by the names that the system gives them.
pub proof fn lemma_key_names()
    ensures
        key_named("escape"@) == Key::Escape,
        key_named("enter"@) == Key::Enter,
        key_named("left"@) == Key::Left,
        key_named("right"@) == Key::Right,
        key_named("up"@) == Key::Up,
        key_named("down"@) == Key::Down,
        key_named("tab"@) == Key::Tab,
        key_named("backspace"@) == Key::Backspace,
        key_named("delete"@) == Key::Delete,
        key_named("a"@) == Key::A,
        key_named("c"@) == Key::C,
        key_named("k"@) == Key::K,
        key_named("p"@) == Key::P,
        key_named("v"@) == Key::V,
        key_named("x"@) == Key::X,
{
    reveal_strlit("escape");
    reveal_strlit("enter");
    reveal_strlit("left");
    reveal_strlit("right");
    reveal_strlit("up");
    reveal_strlit("down");
    reveal_strlit("tab");
    reveal_strlit("backspace");
    reveal_strlit("delete");
    reveal_strlit("a");
    reveal_strlit("c");
    reveal_strlit("k");
    reveal_strlit("p");
    reveal_strlit("v");
    reveal_strlit("x");
    assert("escape"@.len() == 6 && "enter"@.len() == 5 && "left"@.len() == 4 && "right"@.len() == 5);
    assert("up"@.len() == 2 && "down"@.len() == 4 && "tab"@.len() == 3 && "backspace"@.len() == 9);
    assert("delete"@.len() == 6 && "delete"@[1] == 'e' && "escape"@[1] == 's');
    assert("a"@[0] == 'a' && "c"@[0] == 'c' && "k"@[0] == 'k' && "p"@[0] == 'p' && "v"@[0] == 'v'
        && "x"@[0] == 'x');
    assert("up"@[0] == 'u' && "down"@[0] == 'd' && "left"@[0] == 'l' && "tab"@[0] == 't');
    assert("right"@[0] == 'r' && "enter"@[0] == 'e' && "escape"@[0] == 'e' && "delete"@[0] == 'd');
}

/// With none of the palette's own keys pressed: typing and pasting put text into the
/// query and begin a search; the arrows step; escape closes; enter chooses.
pub proof fn law_palette_keys(
    p: PaletteView,
    ks: KeystrokeView,
    binds: Seq<Option<Seq<char>>>,
    history_on: bool,
)
    requires
        binds.len() == ACTION_COUNT,
        forall|i: int| 0 <= i < binds.len() ==> #[trigger] binds[i] != Some(ks.canonical()),
        p.actions is None,
        !(ks.platform && ks.key == "k"@),
    ensures
        ({
            let (r, step) = p.key(ks, binds, history_on);
            &&& ks.key == "escape"@ ==> !r.open && r.query == p.query
            &&& ks.key == "enter"@ ==> (r, step) == p.activated(history_on)
            &&& ks.key == "down"@ ==> r == p.stepped(1)
            &&& ks.key == "up"@ ==> r == p.stepped(-1)
            &&& ks.key == "backspace"@ ==> r.query == p.query.backspaced() && step is Refresh
            &&& ks.key == "v"@ && ks.platform ==> (ks.clipboard matches Some(t) ==> r.query
                == p.query.inserted(trimmed(t)) && step is Refresh && r.hist_pos is None)
            &&& ks.key == "x"@ && !ks.platform && ks.key_char == Some("x"@) ==> r.query
                == p.query.inserted("x"@) && step is Refresh && r.hist_pos is None
        }),
{
    lemma_key_names();
    reveal_strlit("x");
    assert("x"@[0] == 'x');
    assert(binds[action_id(KeyAction::PaletteCursorStart)] != Some(ks.canonical()));
    assert(binds[action_id(KeyAction::PaletteCursorEnd)] != Some(ks.canonical()));
    assert(binds[action_id(KeyAction::PaletteSelectAll)] != Some(ks.canonical()));
    assert(binds[action_id(KeyAction::PaletteDeleteToStart)] != Some(ks.canonical()));
    assert(binds[action_id(KeyAction::PaletteHistoryPrev)] != Some(ks.canonical()));
    assert(binds[action_id(KeyAction::PaletteHistoryNext)] != Some(ks.canonical()));
}

} // verus!
