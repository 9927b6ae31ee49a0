//! What resolving typed paths, walking the disk and default key strokes amount to.

use crate::index::{
    IndexEntryView, WalkItem, indexed, is_noise_dir, keeps_child, lowered_query, spotted,
    spotted_best,
};
use crate::keymap::{KeyAction, action_id, first_binding};
use crate::paths::{file_name_of, normalized, nth_name, query_split, resolved, resolved_dir};
use crate::score::entry_value;
use crate::sorting::{comes_first, key_less, lemma_order_exists, order_of};
use crate::terminal::{commands_beginning, known_commands, names_beginning};
use crate::text::{
    after_last, decimal_of, is_space, is_trimmed, law_decimal_reads_back, lemma_after_last,
    lemma_trimmed_fixpoint, lowercase, parsed, split_last,
};
use vstd::prelude::*;

verus! {

// ----- typed paths ---------------------------------------------------------------------

/// A name goes one folder down, two dots go back up, one dot stays, and nothing leads
/// above the root.
pub proof fn law_dots_lead_up(parts: Seq<Seq<char>>, name: Seq<char>)
    requires
        name != "."@ && name != ".."@ && name != "/"@,
    ensures
        resolved(parts.push(name)) == resolved(parts).push(name),
        resolved(parts.push(name).push(".."@)) == resolved(parts),
        resolved(parts.push("."@)) == resolved(parts),
        resolved(seq!["/"@].push(".."@)) == seq!["/"@],
        resolved(Seq::<Seq<char>>::empty().push(".."@)) == Seq::<Seq<char>>::empty(),
{
    reveal_strlit(".");
    reveal_strlit("..");
    reveal_strlit("/");
    assert("."@ =~= seq!['.']);
    assert(".."@ =~= seq!['.', '.']);
    assert("/"@ =~= seq!['/']);
    assert("."@.len() == 1 && "."@[0] == '.' && ".."@.len() == 2 && "/"@.len() == 1 && "/"@[0]
        == '/');
    let d = parts.push(name);
    assert(d.drop_last() =~= parts);
    assert(d.push(".."@).drop_last() =~= d);
    assert(parts.push("."@).drop_last() =~= parts);
    assert(resolved(parts).push(name).drop_last() =~= resolved(parts));
    assert(resolved(d) == resolved(parts).push(name));
    assert(resolved(d).last() == name);
    assert(d.push(".."@).last() == seq!['.', '.']);
    assert(resolved(d.push(".."@)) == resolved(d).drop_last());
    let r = seq!["/"@];
    assert(r.push(".."@).drop_last() =~= r);
    assert(r.drop_last() =~= Seq::empty());
    assert(resolved(r) =~= r) by {
        assert(resolved(r.drop_last()) == Seq::<Seq<char>>::empty());
    }
    let e = Seq::<Seq<char>>::empty();
    assert(e.push(".."@).drop_last() =~= e);
}

/// A typed folder starts at the root, at home or in the current folder, by how it begins;
/// with nothing typed it is the current folder.
pub proof fn law_typed_folders(cwd: Seq<char>, rest: Seq<char>, home: Seq<char>)
    requires
        is_trimmed(rest),
    ensures
        resolved_dir(cwd, Seq::empty(), home) == cwd,
        resolved_dir(cwd, "~"@, home) == home,
        rest.len() > 0 && rest[0] == '/' ==> resolved_dir(cwd, rest, home) == normalized(rest),
        rest.len() > 0 && rest[0] != '/' && rest[0] != '~' && cwd.len() > 0 && cwd.last() != '/'
            ==> resolved_dir(cwd, rest, home) == normalized(cwd + seq!['/'] + rest),
        rest.len() > 0 && rest[0] != '/' && !is_space(rest[0]) && home.len() > 0 && home.last()
            != '/' ==> resolved_dir(cwd, seq!['~', '/'] + rest, home) == normalized(
            home + seq!['/'] + rest,
        ),
{
    reveal_strlit("~");
    reveal_strlit("~/");
    assert("~"@ =~= seq!['~']);
    assert("~/"@ =~= seq!['~', '/']);
    assert(!is_space('~')) by {
        reveal(is_space);
    }
    lemma_trimmed_fixpoint(Seq::empty());
    lemma_trimmed_fixpoint("~"@);
    lemma_trimmed_fixpoint(rest);
    if rest.len() > 0 {
        assert("~/"@.is_prefix_of(rest) ==> rest[0] == '~') by {
            if "~/"@.is_prefix_of(rest) {
                assert("~/"@[0] == rest[0]);
            }
        }
        assert(rest == "~"@ ==> rest[0] == '~');
        let a = seq!['~', '/'] + rest;
        assert(a.last() == rest.last());
        assert(a[0] == '~');
        lemma_trimmed_fixpoint(a);
        assert("~/"@.is_prefix_of(a)) by {
            assert(a.subrange(0, 2) =~= "~/"@);
        }
        assert(a.len() != "~"@.len());
        assert(a.skip(2) =~= rest);
    }
}

/// A path in the palette splits at its last slash into the folder to look in and the
/// beginning of a name in it. A tilde stands for home.
pub proof fn law_palette_paths_split(base: Seq<char>, partial: Seq<char>, home: Seq<char>)
    requires
        !partial.contains('/'),
        partial.len() > 0,
    ensures
        base.len() > 0 && base[0] != '~' ==> query_split(base + seq!['/'] + partial, home) == (
            base,
            partial,
        ),
        query_split(seq!['/'] + partial, home) == ("/"@, partial),
        home.len() > 0 && home[0] != '~' ==> query_split(seq!['~', '/'] + partial, home) == (
            home,
            partial,
        ),
{
    reveal_strlit("~");
    reveal_strlit("~/");
    reveal_strlit("/");
    assert("~"@ =~= seq!['~']);
    assert("~/"@ =~= seq!['~', '/']);
    assert("/"@ =~= seq!['/']);
    let q = base + seq!['/'] + partial;
    if base.len() > 0 && base[0] != '~' {
        assert(q[0] == base[0]);
        lemma_plain_query(q);
        lemma_split_behind(base, partial);
    }
    let r = seq!['/'] + partial;
    assert(r[0] == '/');
    lemma_plain_query(r);
    lemma_split_behind(Seq::empty(), partial);
    assert(Seq::<char>::empty() + seq!['/'] + partial =~= r);
    let h = seq!['~', '/'] + partial;
    assert(h.len() != 1);
    assert("~/"@.is_prefix_of(h)) by {
        assert(h.subrange(0, 2) =~= "~/"@);
    }
    assert(h.skip(2) =~= partial);
    if home.len() > 0 {
        lemma_split_behind(home, partial);
    }
}

proof fn lemma_plain_query(q: Seq<char>)
    requires
        q.len() > 0,
        q[0] != '~',
    ensures
        q != "~"@,
        !"~/"@.is_prefix_of(q),
{
    reveal_strlit("~");
    reveal_strlit("~/");
    assert("~"@[0] == '~');
    if "~/"@.is_prefix_of(q) {
        assert("~/"@[0] == q[0]);
    }
}

proof fn lemma_split_behind(base: Seq<char>, partial: Seq<char>)
    requires
        !partial.contains('/'),
        partial.len() > 0,
    ensures
        split_last(base + seq!['/'] + partial, '/') == Some((base, partial)),
        !"/"@.is_suffix_of(base + seq!['/'] + partial),
        base + "/"@ + partial == base + seq!['/'] + partial,
{
    reveal_strlit("/");
    assert("/"@ =~= seq!['/']);
    let s = base + seq!['/'] + partial;
    lemma_after_last(s, '/');
    let j = after_last(s, '/') as int;
    assert(s[base.len() as int] == '/');
    assert(s.contains('/'));
    assert(j >= base.len() + 1);
    if j > base.len() + 1 {
        assert(s[j - 1] == partial[j - base.len() - 2]);
        assert(partial.contains('/'));
    }
    assert(s.take(j - 1) =~= base);
    assert(s.skip(j) =~= partial);
    assert(s.last() == partial.last());
    assert(partial.contains(partial.last())) by {
        assert(partial[partial.len() - 1] == partial.last());
    }
    if "/"@.is_suffix_of(s) {
        assert("/"@.last() == s.last());
    }
}

// ----- the walk of the disk ------------------------------------------------------------

/// The walk goes into every folder but those that programs fill, and keeps every file.
pub proof fn law_walk_skips_noise(parent: Seq<char>, name: Seq<char>)
    ensures
        keeps_child(parent, name, false),
        seq![
            "node_modules"@,
            "Library"@,
            "target"@,
            "build"@,
            "dist"@,
            "DerivedData"@,
            "Pods"@,
            "Carthage"@,
            "__pycache__"@,
            "vendor"@,
            "bower_components"@,
        ].contains(name) ==> !keeps_child(parent, name, true),
        name == "pkg"@ && file_name_of(parent) == Some("go"@) ==> !keeps_child(parent, name, true),
        keeps_child(parent, name, true) || name == "pkg"@ || seq![
            "node_modules"@,
            "Library"@,
            "target"@,
            "build"@,
            "dist"@,
            "DerivedData"@,
            "Pods"@,
            "Carthage"@,
            "__pycache__"@,
            "vendor"@,
            "bower_components"@,
        ].contains(name),
{
    let all = seq![
        "node_modules"@,
        "Library"@,
        "target"@,
        "build"@,
        "dist"@,
        "DerivedData"@,
        "Pods"@,
        "Carthage"@,
        "__pycache__"@,
        "vendor"@,
        "bower_components"@,
    ];
    if is_noise_dir(name) {
        assert(all[0] == name || all[1] == name || all[2] == name || all[3] == name || all[4]
            == name || all[5] == name || all[6] == name || all[7] == name || all[8] == name
            || all[9] == name || all[10] == name);
    }
}

/// The index holds everything that was walked but the folder where the walk began, in
/// order.
pub proof fn law_walk_is_indexed(items: Seq<WalkItem>, w: WalkItem)
    ensures
        w.depth == 0 ==> indexed(items.push(w)) == indexed(items),
        w.depth > 0 ==> indexed(items.push(w)) == indexed(items).push(
            (IndexEntryView { name: w.name@, path: w.path@, is_dir: w.is_dir }),
        ),
{
    assert(items.push(w).drop_last() =~= items);
}

/// Of what the system's own search finds, at most forty results come back: those of the
/// best rank, best first, each one a path that was found.
pub proof fn law_found_paths_are_ranked(lines: Seq<Seq<char>>, query: Seq<char>, i: int, j: int)
    requires
        0 <= i < j < spotted_best(lines, query).len(),
    ensures
        ({
            let (a, b) = (spotted_best(lines, query)[i], spotted_best(lines, query)[j]);
            let q = lowered_query(query);
            let (x, y) = (
                entry_value(q, q, a.name, a.path, false),
                entry_value(q, q, b.name, b.path, false),
            );
            &&& x is Some && y is Some && x->0 >= y->0
            &&& lines.contains(a.path) && lines.contains(b.path)
            &&& file_name_of(a.path) == Some(a.name) && !a.is_dir
        }),
        spotted_best(lines, query).len() <= 40,
{
    let q = lowered_query(query);
    let head = if lines.len() < 4000 {
        lines
    } else {
        lines.take(4000)
    };
    let found = spotted(head, q);
    lemma_spotted(head, q);
    let keys = found.map_values(|c: (int, IndexEntryView)| seq![-1 - c.0]);
    lemma_order_exists(keys);
    let o = order_of(keys);
    assert(comes_first(keys, o[i], o[j]));
    let (a, b) = (found[o[i]], found[o[j]]);
    assert(keys[o[i]] == seq![-1 - a.0] && keys[o[j]] == seq![-1 - b.0]);
    reveal_with_fuel(key_less, 2);
    assert(keys[o[i]][0] == -1 - a.0 && keys[o[j]][0] == -1 - b.0);
    assert(a.0 >= b.0);
    let k = choose|k: int| 0 <= k < head.len() && head[k] == a.1.path;
    assert(lines[k] == a.1.path);
    let m = choose|m: int| 0 <= m < head.len() && head[m] == b.1.path;
    assert(lines[m] == b.1.path);
}

proof fn lemma_spotted(lines: Seq<Seq<char>>, q: Seq<char>)
    ensures
        forall|i: int|
            0 <= i < spotted(lines, q).len() ==> {
                let c = #[trigger] spotted(lines, q)[i];
                &&& entry_value(q, q, c.1.name, c.1.path, false) == Some(c.0)
                &&& lines.contains(c.1.path)
                &&& file_name_of(c.1.path) == Some(c.1.name)
                &&& !c.1.is_dir
            },
    decreases lines.len(),
{
    if lines.len() > 0 {
        let t = lines.drop_last();
        lemma_spotted(t, q);
        let (h, all) = (spotted(t, q), spotted(lines, q));
        assert forall|i: int| 0 <= i < all.len() implies {
            let c = #[trigger] all[i];
            &&& entry_value(q, q, c.1.name, c.1.path, false) == Some(c.0)
            &&& lines.contains(c.1.path)
            &&& file_name_of(c.1.path) == Some(c.1.name)
            &&& !c.1.is_dir
        } by {
            if i < h.len() {
                assert(all[i] == h[i]);
                let k = choose|k: int| 0 <= k < t.len() && t[k] == h[i].1.path;
                assert(lines[k] == all[i].1.path);
            } else {
                assert(lines[lines.len() - 1] == all[i].1.path);
            }
        }
    }
}

// ----- default key strokes -------------------------------------------------------------

/// At first no key stroke stands for two actions of the listing, nor for two of the
/// palette.
pub proof fn law_default_strokes_differ(a: KeyAction, b: KeyAction)
    requires
        a != b,
        first_binding(a) is Some,
        (action_id(a) < 15) == (action_id(b) < 15),
    ensures
        first_binding(a) != first_binding(b),
{
    reveal_strlit("cmd-p");
    reveal_strlit("cmd-t");
    reveal_strlit("cmd-w");
    reveal_strlit("/");
    reveal_strlit("cmd-a");
    reveal_strlit("cmd-left");
    reveal_strlit("cmd-right");
    reveal_strlit("ctrl-u");
    reveal_strlit("up");
    reveal_strlit("down");
    let x = first_binding(a)->0;
    if first_binding(b) is Some {
        let y = first_binding(b)->0;
        if x == y {
            assert(x.len() == y.len() && x[x.len() - 1] == y[y.len() - 1]);
        }
    }
}

// ----- names and completion ------------------------------------------------------------

/// A new item is named as asked, or, where that name is taken, with the number of the
/// attempt behind it, from two on.
pub proof fn law_attempts_are_numbered(base: Seq<char>, n: nat)
    requires
        n >= 1,
    ensures
        nth_name(base, 1) == base,
        n >= 2 ==> nth_name(base, n) == base + seq![' '] + decimal_of(n),
        n >= 2 ==> parsed(nth_name(base, n).skip(base.len() as int + 1), 10, n) == Some(n),
{
    reveal_strlit(" ");
    assert(" "@ =~= seq![' ']);
    law_decimal_reads_back(n, n);
    if n >= 2 {
        assert(nth_name(base, n).skip(base.len() as int + 1) =~= decimal_of(n));
    }
}

/// The commands that complete a word are those that begin with it.
pub proof fn law_commands_complete_words(cmds: Seq<Seq<char>>, word: Seq<char>, c: Seq<char>)
    ensures
        commands_beginning(cmds, word).contains((c, false)) <==> cmds.contains(c)
            && word.is_prefix_of(c),
    decreases cmds.len(),
{
    if cmds.len() > 0 {
        let t = cmds.drop_last();
        law_commands_complete_words(t, word, c);
        let (h, all) = (commands_beginning(t, word), commands_beginning(cmds, word));
        if h.contains((c, false)) {
            let k = choose|k: int| 0 <= k < h.len() && h[k] == (c, false);
            assert(all[k] == (c, false));
        }
        if cmds.contains(c) {
            let k = choose|k: int| 0 <= k < cmds.len() && cmds[k] == c;
            if k < t.len() {
                assert(t[k] == c);
            } else if word.is_prefix_of(c) {
                assert(all.last() == (c, false));
            }
        }
        if all.contains((c, false)) {
            let k = choose|k: int| 0 <= k < all.len() && all[k] == (c, false);
            if k < h.len() {
                assert(h[k] == (c, false));
                let m = choose|m: int| 0 <= m < t.len() && t[m] == c;
                assert(cmds[m] == c);
            } else {
                assert(cmds[cmds.len() - 1] == c);
            }
        }
    }
}

/// The names that complete a word are those that begin with it, whatever their case.
pub proof fn law_names_complete_words(
    names: Seq<(Seq<char>, bool)>,
    word: Seq<char>,
    n: (Seq<char>, bool),
)
    ensures
        names_beginning(names, word).contains(n) <==> names.contains(n) && lowercase(
            word,
        ).is_prefix_of(lowercase(n.0)),
    decreases names.len(),
{
    if names.len() > 0 {
        let t = names.drop_last();
        law_names_complete_words(t, word, n);
        let (h, all) = (names_beginning(t, word), names_beginning(names, word));
        if h.contains(n) {
            let k = choose|k: int| 0 <= k < h.len() && h[k] == n;
            assert(all[k] == n);
        }
        if names.contains(n) {
            let k = choose|k: int| 0 <= k < names.len() && names[k] == n;
            if k < t.len() {
                assert(t[k] == n);
            } else if lowercase(word).is_prefix_of(lowercase(n.0)) {
                assert(all.last() == n);
            }
        }
        if all.contains(n) {
            let k = choose|k: int| 0 <= k < all.len() && all[k] == n;
            if k < h.len() {
                assert(h[k] == n);
                let m = choose|m: int| 0 <= m < t.len() && t[m] == n;
                assert(names[m] == n);
            } else {
                assert(names[names.len() - 1] == n);
            }
        }
    }
}

/// The first word of a command line is completed by these commands too, and by no other.
pub proof fn law_known_commands(c: Seq<char>)
    ensures
        known_commands().contains(c) <==> c == "cd"@ || c == "ls"@ || c == "clear"@ || c
            == "mkdir"@ || c == "rm"@ || c == "cp"@ || c == "mv"@ || c == "open"@ || c == "cat"@
            || c == "grep"@ || c == "git"@,
{
    let k = known_commands();
    assert(k[0] == "cd"@ && k[1] == "ls"@ && k[2] == "clear"@ && k[3] == "mkdir"@);
    assert(k[4] == "rm"@ && k[5] == "cp"@ && k[6] == "mv"@ && k[7] == "open"@);
    assert(k[8] == "cat"@ && k[9] == "grep"@ && k[10] == "git"@);
}

} // verus!
