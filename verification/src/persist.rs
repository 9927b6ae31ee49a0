//! The text formats that lists and choices are saved in.

use crate::text::{
    chars_of, is_trimmed, join, joined, lemma_lines_cons, lemma_lines_last, lemma_trimmed_fixpoint,
    lines, lines_of, one_line, opt_text, piece, texts, trim, trimmed,
};
use vstd::prelude::*;

verus! {

/// Lines of text, each with a line feed behind it.
pub open spec fn stacked(ls: Seq<Seq<char>>) -> Seq<char>
    decreases ls.len(),
{
    if ls.len() == 0 {
        Seq::empty()
    } else {
        ls[0] + seq!['\n'] + stacked(ls.skip(1))
    }
}

/// Stacked lines come apart again.
pub proof fn lemma_stacked_lines(ls: Seq<Seq<char>>)
    requires
        forall|i: int| 0 <= i < ls.len() ==> one_line(#[trigger] ls[i]),
    ensures
        lines_of(stacked(ls)) == ls,
    decreases ls.len(),
{
    if ls.len() > 0 {
        let t = ls.skip(1);
        assert forall|i: int| 0 <= i < t.len() implies one_line(#[trigger] t[i]) by {
            assert(t[i] == ls[i + 1]);
        }
        lemma_stacked_lines(t);
        assert(one_line(ls[0]));
        lemma_lines_cons(ls[0], stacked(t));
        assert(seq![ls[0]] + t == ls);
    }
}

proof fn lemma_stacked_push(ls: Seq<Seq<char>>, l: Seq<char>)
    ensures
        stacked(ls.push(l)) == stacked(ls) + l + seq!['\n'],
    decreases ls.len(),
{
    let p = ls.push(l);
    if ls.len() == 0 {
        assert(p.skip(1) == Seq::<Seq<char>>::empty());
        assert(stacked(p.skip(1)) == Seq::<char>::empty());
        assert(p[0] == l);
        assert(stacked(p) == l + seq!['\n'] + Seq::<char>::empty());
        assert(stacked(ls) + l + seq!['\n'] == l + seq!['\n']);
    } else {
        assert(p.skip(1) == ls.skip(1).push(l));
        lemma_stacked_push(ls.skip(1), l);
        assert(p[0] == ls[0]);
        assert(ls[0] + seq!['\n'] + (stacked(ls.skip(1)) + l + seq!['\n']) == (ls[0] + seq!['\n']
            + stacked(ls.skip(1))) + l + seq!['\n']);
    }
}

/// Puts a line feed behind each line.
pub fn stack_lines(ls: &Vec<String>) -> (r: String)
    ensures
        r@ == stacked(texts(ls@)),
{
    let mut out = String::new();
    let mut i: usize = 0;
    proof {
        assert(texts(ls@).take(0) == Seq::<Seq<char>>::empty());
    }
    while i < ls.len()
        invariant
            i <= ls.len(),
            out@ == stacked(texts(ls@).take(i as int)),
        decreases ls.len() - i,
    {
        out.append(ls[i].as_str());
        out.push('\n');
        proof {
            let t = texts(ls@);
            assert(t.take(i + 1) == t.take(i as int).push(ls@[i as int]@));
            lemma_stacked_push(t.take(i as int), ls@[i as int]@);
            assert(out@ == stacked(t.take(i as int)) + ls@[i as int]@ + seq!['\n']);
        }
        i += 1;
    }
    proof {
        assert(texts(ls@).take(i as int) == texts(ls@));
    }
    out
}

// ----- lists ---------------------------------------------------------------------------

/// The entries of a saved list: its lines, trimmed, without the empty ones.
pub open spec fn list_entries(ls: Seq<Seq<char>>) -> Seq<Seq<char>>
    decreases ls.len(),
{
    if ls.len() == 0 {
        Seq::empty()
    } else {
        let head = list_entries(ls.drop_last());
        let l = trimmed(ls.last());
        if l.len() == 0 {
            head
        } else {
            head.push(l)
        }
    }
}

/// Reads a saved list: one entry on each line that is not blank.
pub fn read_string_list(text: &str) -> (r: Vec<String>)
    ensures
        texts(r@) == list_entries(lines_of(text@)),
{
    let all = lines(text);
    let mut out: Vec<String> = Vec::new();
    let mut i: usize = 0;
    while i < all.len()
        invariant
            i <= all.len(),
            texts(all@) == lines_of(text@),
            texts(out@) == list_entries(texts(all@).take(i as int)),
        decreases all.len() - i,
    {
        let l = trim(all[i].as_str());
        proof {
            let t = texts(all@);
            assert(t.take(i + 1).drop_last() == t.take(i as int));
            assert(t.take(i + 1).last() == all@[i as int]@);
            assert(texts(out@.push(l)) == texts(out@).push(l@));
        }
        if !l.as_str().is_empty() {
            out.push(l);
        }
        i += 1;
    }
    proof {
        assert(texts(all@).take(i as int) == texts(all@));
    }
    out
}

/// The text a list is saved as: its entries with line feeds between them.
pub fn write_string_list(items: &Vec<String>) -> (r: String)
    ensures
        r@ == joined(texts(items@), seq!['\n']),
{
    proof {
        reveal_strlit("\n");
        assert("\n"@ == seq!['\n']);
    }
    join(items, "\n")
}

/// An entry that survives being saved in a list.
pub open spec fn savable_entry(s: Seq<char>) -> bool {
    s.len() > 0 && is_trimmed(s) && !s.contains('\n')
}

proof fn lemma_join_cons(items: Seq<Seq<char>>, sep: Seq<char>)
    requires
        items.len() >= 2,
    ensures
        joined(items, sep) == items[0] + sep + joined(items.skip(1), sep),
    decreases items.len(),
{
    let h = items.drop_last();
    if items.len() == 2 {
        assert(h.len() == 1);
        assert(joined(h, sep) == items[0]);
        assert(items.skip(1).len() == 1);
        assert(joined(items.skip(1), sep) == items[1]);
    } else {
        lemma_join_cons(h, sep);
        assert(h.skip(1) == items.skip(1).drop_last());
        assert(items.skip(1).last() == items.last());
        assert(joined(items.skip(1), sep) == joined(h.skip(1), sep) + sep + items.last());
        assert(items[0] + sep + joined(h.skip(1), sep) + sep + items.last() == items[0] + sep + (
        joined(h.skip(1), sep) + sep + items.last()));
    }
}

proof fn lemma_joined_lines(items: Seq<Seq<char>>)
    requires
        forall|i: int| 0 <= i < items.len() ==> savable_entry(#[trigger] items[i]),
    ensures
        lines_of(joined(items, seq!['\n'])) == items,
    decreases items.len(),
{
    if items.len() == 1 {
        assert(savable_entry(items[0]));
        lemma_lines_last(items[0]);
        assert(seq![items[0]] == items);
    } else if items.len() >= 2 {
        let t = items.skip(1);
        assert forall|i: int| 0 <= i < t.len() implies savable_entry(#[trigger] t[i]) by {
            assert(t[i] == items[i + 1]);
        }
        lemma_joined_lines(t);
        lemma_join_cons(items, seq!['\n']);
        assert(savable_entry(items[0]));
        lemma_lines_cons(items[0], joined(t, seq!['\n']));
        assert(seq![items[0]] + t == items);
    }
}

proof fn lemma_entries_fixpoint(items: Seq<Seq<char>>)
    requires
        forall|i: int| 0 <= i < items.len() ==> savable_entry(#[trigger] items[i]),
    ensures
        list_entries(items) == items,
    decreases items.len(),
{
    if items.len() > 0 {
        let h = items.drop_last();
        assert forall|i: int| 0 <= i < h.len() implies savable_entry(#[trigger] h[i]) by {
            assert(h[i] == items[i]);
        }
        lemma_entries_fixpoint(h);
        assert(savable_entry(items[items.len() - 1]));
        lemma_trimmed_fixpoint(items.last());
        assert(h.push(items.last()) == items);
    }
}

/// A list reads back as it was saved, if its entries are not empty, stand on one
/// line each and have no white space at their ends.
pub proof fn law_list_reads_back(items: Seq<Seq<char>>)
    requires
        forall|i: int| 0 <= i < items.len() ==> savable_entry(#[trigger] items[i]),
    ensures
        list_entries(lines_of(joined(items, seq!['\n']))) == items,
{
    lemma_joined_lines(items);
    lemma_entries_fixpoint(items);
}

/// A value saved on its own: the text trimmed, or nothing if that is empty.
pub open spec fn single_value(text: Seq<char>) -> Option<Seq<char>> {
    if trimmed(text).len() == 0 {
        None
    } else {
        Some(trimmed(text))
    }
}

/// Reads a value that is saved on its own.
pub fn config_string(text: &str) -> (r: Option<String>)
    ensures
        opt_text(r) == single_value(text@),
{
    let s = trim(text);
    if s.as_str().is_empty() {
        None
    } else {
        Some(s)
    }
}

// ----- groups --------------------------------------------------------------------------

/// A named collection of files and folders in the sidebar.
pub struct Group {
    pub name: String,
    pub paths: Vec<String>,
}

/// A group, with its texts as characters.
#[verifier::ext_equal]
pub struct GroupView {
    pub name: Seq<char>,
    pub paths: Seq<Seq<char>>,
}

impl View for Group {
    type V = GroupView;

    open spec fn view(&self) -> GroupView {
        GroupView { name: self.name@, paths: texts(self.paths@) }
    }
}

/// Groups, with their texts as characters.
pub open spec fn groups_view(v: Seq<Group>) -> Seq<GroupView> {
    v.map_values(|g: Group| g@)
}

/// The name in brackets on a line that starts a group.
pub open spec fn group_header(line: Seq<char>) -> Option<Seq<char>> {
    if line.len() >= 2 && line[0] == '[' && line.last() == ']' {
        Some(line.subrange(1, line.len() - 1))
    } else {
        None
    }
}

/// The groups after one more saved line: a name in brackets starts a group, any
/// other line that is not blank belongs to the last group.
pub open spec fn with_group_line(gs: Seq<GroupView>, line: Seq<char>) -> Seq<GroupView> {
    let l = trimmed(line);
    if l.len() == 0 {
        gs
    } else {
        match group_header(l) {
            Some(n) => gs.push(GroupView { name: n, paths: Seq::empty() }),
            None => if gs.len() > 0 {
                gs.update(
                    gs.len() - 1,
                    GroupView { paths: gs.last().paths.push(l), ..gs.last() },
                )
            } else {
                gs
            },
        }
    }
}

/// The groups that saved lines stand for.
pub open spec fn groups_of(gs: Seq<GroupView>, ls: Seq<Seq<char>>) -> Seq<GroupView>
    decreases ls.len(),
{
    if ls.len() == 0 {
        gs
    } else {
        with_group_line(groups_of(gs, ls.drop_last()), ls.last())
    }
}

/// Reads the groups of the sidebar from their saved form.
pub fn load_groups(text: &str) -> (r: Vec<Group>)
    ensures
        groups_view(r@) == groups_of(Seq::empty(), lines_of(text@)),
{
    let all = lines(text);
    let mut out: Vec<Group> = Vec::new();
    let mut i: usize = 0;
    proof {
        assert(groups_view(out@) == Seq::<GroupView>::empty());
    }
    while i < all.len()
        invariant
            i <= all.len(),
            texts(all@) == lines_of(text@),
            groups_view(out@) == groups_of(Seq::empty(), texts(all@).take(i as int)),
        decreases all.len() - i,
    {
        let ghost before = groups_view(out@);
        proof {
            let t = texts(all@);
            assert(t.take(i + 1).drop_last() == t.take(i as int));
            assert(t.take(i + 1).last() == all@[i as int]@);
        }
        let line = trim(all[i].as_str());
        let cs = chars_of(line.as_str());
        if cs.len() > 0 {
            if cs.len() >= 2 && cs[0] == '[' && cs[cs.len() - 1] == ']' {
                let name = piece(&cs, 1, cs.len() - 1);
                let g = Group { name, paths: Vec::new() };
                proof {
                    assert(g@.paths == Seq::<Seq<char>>::empty());
                    assert(groups_view(out@.push(g)) == before.push(g@));
                }
                out.push(g);
            } else if out.len() > 0 {
                let last: usize = out.len() - 1;
                let mut g = out.pop().unwrap();
                let ghost was = g@;
                let ghost p0 = texts(g.paths@);
                g.paths.push(line);
                proof {
                    assert(texts(g.paths@) == p0.push(line@));
                    assert(before[last as int] == was);
                    assert(before.last() == was);
                }
                out.push(g);
                proof {
                    assert(groups_view(out@) == before.update(last as int, g@));
                }
            }
        }
        i += 1;
    }
    proof {
        assert(texts(all@).take(i as int) == texts(all@));
    }
    out
}

/// The line that starts a group.
pub open spec fn header_line(name: Seq<char>) -> Seq<char> {
    seq!['['] + name + seq![']']
}

/// The saved lines of groups: each name in brackets, then the paths.
pub open spec fn group_lines(gs: Seq<GroupView>) -> Seq<Seq<char>>
    decreases gs.len(),
{
    if gs.len() == 0 {
        Seq::empty()
    } else {
        group_lines(gs.drop_last()) + (seq![header_line(gs.last().name)] + gs.last().paths)
    }
}

/// The text that the groups of the sidebar are saved as.
pub fn save_groups(groups: &Vec<Group>) -> (r: String)
    ensures
        r@ == stacked(group_lines(groups_view(groups@))),
{
    let mut ls: Vec<String> = Vec::new();
    let mut i: usize = 0;
    proof {
        assert(groups_view(groups@).take(0) == Seq::<GroupView>::empty());
    }
    while i < groups.len()
        invariant
            i <= groups.len(),
            texts(ls@) == group_lines(groups_view(groups@).take(i as int)),
        decreases groups.len() - i,
    {
        let ghost before = texts(ls@);
        let ghost gv = groups_view(groups@);
        proof {
            assert(gv.take(i + 1).drop_last() == gv.take(i as int));
            assert(gv.take(i + 1).last() == groups@[i as int]@);
        }
        let mut h = String::new();
        h.push('[');
        h.append(groups[i].name.as_str());
        h.push(']');
        proof {
            assert(h@ == header_line(groups@[i as int].name@));
        }
        ls.push(h);
        proof {
            assert(texts(ls@) == before + seq![h@]);
            assert(texts(ls@) == before + (seq![h@] + texts(groups@[i as int].paths@).take(0)));
        }
        let mut j: usize = 0;
        while j < groups[i as usize].paths.len()
            invariant
                i < groups.len(),
                j <= groups@[i as int].paths.len(),
                texts(ls@) == before + (seq![h@] + texts(groups@[i as int].paths@).take(j as int)),
            decreases groups@[i as int].paths.len() - j,
        {
            let p = groups[i].paths[j].clone();
            proof {
                let ps = texts(groups@[i as int].paths@);
                assert(texts(ls@.push(p)) == texts(ls@).push(p@));
                assert(before + (seq![h@] + ps.take(j + 1)) == (before + (seq![h@] + ps.take(
                    j as int,
                ))).push(p@));
            }
            ls.push(p);
            j += 1;
        }
        proof {
            let ps = texts(groups@[i as int].paths@);
            assert(ps.take(j as int) == ps);
        }
        i += 1;
    }
    proof {
        assert(groups_view(groups@).take(i as int) == groups_view(groups@));
    }
    stack_lines(&ls)
}

/// A group that survives being saved: its name is on one line, and its paths
/// are savable and not written in brackets.
pub open spec fn savable_group(g: GroupView) -> bool {
    &&& !g.name.contains('\n')
    &&& forall|i: int|
        0 <= i < g.paths.len() ==> savable_entry(#[trigger] g.paths[i]) && group_header(
            g.paths[i],
        ) is None
}

proof fn lemma_header_line(name: Seq<char>)
    requires
        !name.contains('\n'),
    ensures
        one_line(header_line(name)),
        is_trimmed(header_line(name)),
        group_header(header_line(name)) == Some(name),
{
    let h = header_line(name);
    assert(h[0] == '[');
    assert(h.last() == ']');
    assert(h.subrange(1, h.len() - 1) == name);
    if h.contains('\n') {
        let k = choose|k: int| 0 <= k < h.len() && h[k] == '\n';
        assert(name[k - 1] == '\n');
    }
}

proof fn lemma_group_lines_ok(gs: Seq<GroupView>)
    requires
        forall|i: int| 0 <= i < gs.len() ==> savable_group(#[trigger] gs[i]),
    ensures
        forall|k: int| 0 <= k < group_lines(gs).len() ==> one_line(#[trigger] group_lines(gs)[k]),
        groups_of(Seq::empty(), group_lines(gs)) == gs,
    decreases gs.len(),
{
    if gs.len() > 0 {
        let h = gs.drop_last();
        assert forall|i: int| 0 <= i < h.len() implies savable_group(#[trigger] h[i]) by {
            assert(h[i] == gs[i]);
        }
        lemma_group_lines_ok(h);
        let g = gs.last();
        assert(savable_group(gs[gs.len() - 1]));
        lemma_header_line(g.name);
        let all = group_lines(gs);
        let n = group_lines(h).len() as int;
        assert forall|k: int| 0 <= k < all.len() implies one_line(#[trigger] all[k]) by {
            if k < n {
                assert(all[k] == group_lines(h)[k]);
            } else if k > n {
                assert(all[k] == g.paths[k - n - 1]);
                assert(savable_entry(g.paths[k - n - 1]));
            }
        }
        lemma_group_members(gs, g.paths.len() as int);
        assert(all.take(n + 1 + g.paths.len()) == all);
        assert(g.paths.take(g.paths.len() as int) == g.paths);
        assert(h.push(g) == gs);
    }
}

proof fn lemma_group_members(gs: Seq<GroupView>, m: int)
    requires
        gs.len() > 0,
        savable_group(gs.last()),
        0 <= m <= gs.last().paths.len(),
        groups_of(Seq::empty(), group_lines(gs.drop_last())) == gs.drop_last(),
    ensures
        groups_of(
            Seq::empty(),
            group_lines(gs).take(group_lines(gs.drop_last()).len() + 1 + m),
        ) == gs.drop_last().push(
            GroupView { name: gs.last().name, paths: gs.last().paths.take(m) },
        ),
    decreases m,
{
    let h = gs.drop_last();
    let g = gs.last();
    let all = group_lines(gs);
    let n = group_lines(h).len() as int;
    let t = all.take(n + 1 + m);
    lemma_header_line(g.name);
    lemma_trimmed_fixpoint(header_line(g.name));
    if m == 0 {
        assert(t.drop_last() == group_lines(h));
        assert(t.last() == header_line(g.name));
        assert(g.paths.take(0) == Seq::<Seq<char>>::empty());
    } else {
        lemma_group_members(gs, m - 1);
        assert(t.drop_last() == all.take(n + 1 + (m - 1)));
        let p = g.paths[m - 1];
        assert(t.last() == p);
        assert(savable_entry(p));
        lemma_trimmed_fixpoint(p);
        assert(g.paths.take(m - 1).push(p) == g.paths.take(m));
        let mid = h.push(GroupView { name: g.name, paths: g.paths.take(m - 1) });
        assert(mid.last() == (GroupView { name: g.name, paths: g.paths.take(m - 1) }));
        assert(mid.update(
            mid.len() - 1,
            GroupView { name: g.name, paths: g.paths.take(m) },
        ) == h.push(GroupView { name: g.name, paths: g.paths.take(m) }));
    }
}

/// Groups read back as they were saved, if their names and paths stand on one
/// line each and no path is blank, padded, or written in brackets.
pub proof fn law_groups_read_back(gs: Seq<GroupView>)
    requires
        forall|i: int| 0 <= i < gs.len() ==> savable_group(#[trigger] gs[i]),
    ensures
        groups_of(Seq::empty(), lines_of(stacked(group_lines(gs)))) == gs,
{
    lemma_group_lines_ok(gs);
    lemma_stacked_lines(group_lines(gs));
}

/// The paths of a list that are still on disk, in order.
pub open spec fn living(paths: Seq<Seq<char>>, there: Seq<bool>) -> Seq<Seq<char>>
    decreases paths.len(),
{
    if paths.len() == 0 {
        Seq::empty()
    } else {
        let head = living(paths.drop_last(), there);
        let i = paths.len() - 1;
        if i < there.len() && there[i] {
            head.push(paths[i])
        } else {
            head
        }
    }
}

/// Drops the paths that are gone; `there` says of each whether it is on disk.
pub fn living_paths(paths: &Vec<String>, there: &Vec<bool>) -> (r: Vec<String>)
    ensures
        texts(r@) == living(texts(paths@), there@),
{
    let mut out: Vec<String> = Vec::new();
    let mut i: usize = 0;
    while i < paths.len()
        invariant
            i <= paths.len(),
            texts(out@) == living(texts(paths@).take(i as int), there@),
        decreases paths.len() - i,
    {
        let ghost before = texts(out@);
        proof {
            let t = texts(paths@).take(i + 1);
            assert(t.drop_last() =~= texts(paths@).take(i as int));
            assert(t[i as int] == paths@[i as int]@);
        }
        if i < there.len() && there[i] {
            out.push(paths[i].clone());
            proof {
                assert(texts(out@) =~= before.push(paths@[i as int]@));
            }
        }
        i += 1;
    }
    proof {
        assert(texts(paths@).take(i as int) =~= texts(paths@));
    }
    out
}

} // verus!
