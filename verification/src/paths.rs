//! Unix paths as text: components, parents, joins, and the lexical rules for
//! `~`, `.` and `..`. Two paths are the same place when their components agree.

use crate::text::{
    after_last, chars_of, concat, decimal, decimal_of, digit_char, ends_with, find_last,
    law_decimal_reads_back, lemma_after_last, opt_text, owned, piece, rsplit_once, same, split_last,
    string_of, strip_prefix, texts, trim, trimmed,
};
use vstd::prelude::*;

verus! {

/// The length of the root at the front of a path: one for an absolute path.
pub open spec fn root_len(s: Seq<char>) -> int {
    if s.len() > 0 && s[0] == '/' {
        1
    } else {
        0
    }
}

/// Where the last segment of a path begins.
pub open spec fn last_start(s: Seq<char>) -> int {
    let j = after_last(s, '/') as int;
    if j < root_len(s) {
        root_len(s)
    } else {
        j
    }
}

/// Whether the last segment counts as a component: it is not empty, and not a
/// `.` behind other text.
pub open spec fn last_counts(s: Seq<char>) -> bool {
    let a = last_start(s);
    a < s.len() && !(a > 0 && s.skip(a) == seq!['.'])
}

/// A path without its last segment and the separator in front of it.
pub open spec fn cut_last(s: Seq<char>) -> Seq<char> {
    let a = last_start(s);
    if a > root_len(s) {
        s.take(a - 1)
    } else {
        s.take(root_len(s))
    }
}

/// A path without trailing separators and trailing `.` segments.
pub open spec fn cut_trailing(s: Seq<char>) -> Seq<char>
    decreases s.len(),
    via cut_trailing_shrinks
{
    if s.len() > root_len(s) && !last_counts(s) {
        cut_trailing(cut_last(s))
    } else {
        s
    }
}

proof fn lemma_cut_last_shrinks(s: Seq<char>)
    requires
        s.len() > root_len(s),
    ensures
        cut_last(s).len() < s.len(),
        root_len(cut_last(s)) == root_len(s),
        root_len(s) <= cut_last(s).len(),
        root_len(s) <= last_start(s) <= s.len(),
{
    lemma_after_last(s, '/');
}

#[via_fn]
proof fn cut_trailing_shrinks(s: Seq<char>) {
    if s.len() > root_len(s) {
        lemma_cut_last_shrinks(s);
    }
}

proof fn lemma_cut_trailing(s: Seq<char>)
    ensures
        cut_trailing(s).len() <= s.len(),
        root_len(cut_trailing(s)) == root_len(s),
        cut_trailing(s).len() > root_len(s) ==> last_counts(cut_trailing(s)),
        cut_trailing(s).len() >= root_len(s),
    decreases s.len(),
{
    if s.len() > root_len(s) && !last_counts(s) {
        lemma_cut_last_shrinks(s);
        lemma_cut_trailing(cut_last(s));
    }
}

/// The components of a path: the root `/` where it has one, then its segments.
/// Empty segments and every `.` but a leading one are left out.
pub open spec fn components_of(s: Seq<char>) -> Seq<Seq<char>>
    decreases s.len(),
    via components_shrink
{
    let t = cut_trailing(s);
    if t.len() > root_len(t) {
        components_of(cut_last(t)).push(t.skip(last_start(t)))
    } else if root_len(t) == 1 {
        seq![seq!['/']]
    } else {
        Seq::empty()
    }
}

#[via_fn]
proof fn components_shrink(s: Seq<char>) {
    lemma_cut_trailing(s);
    let t = cut_trailing(s);
    if t.len() > root_len(t) {
        lemma_cut_last_shrinks(t);
    }
}

/// Whether two paths name the same place.
pub open spec fn same_place(a: Seq<char>, b: Seq<char>) -> bool {
    components_of(a) == components_of(b)
}

/// The path one level up, if the path has a level to go up from.
pub open spec fn parent_of(s: Seq<char>) -> Option<Seq<char>> {
    let t = cut_trailing(s);
    if t.len() > root_len(t) {
        Some(cut_trailing(cut_last(t)))
    } else {
        None
    }
}

/// The last component of a path, if it is a name.
pub open spec fn file_name_of(s: Seq<char>) -> Option<Seq<char>> {
    let t = cut_trailing(s);
    let n = t.skip(last_start(t));
    if t.len() > root_len(t) && n != seq!['.'] && n != seq!['.', '.'] {
        Some(n)
    } else {
        None
    }
}

/// Whether a file name has a part before its last dot.
pub open spec fn has_extension(n: Seq<char>) -> bool {
    after_last(n, '.') > 1 && n != seq!['.', '.']
}

/// What stands behind the last dot of a path's file name, if anything stands
/// before that dot.
pub open spec fn extension_of(s: Seq<char>) -> Option<Seq<char>> {
    match file_name_of(s) {
        Some(n) if has_extension(n) => Some(n.skip(after_last(n, '.') as int)),
        _ => None,
    }
}

/// A path's file name without its extension.
pub open spec fn stem_of(s: Seq<char>) -> Option<Seq<char>> {
    match file_name_of(s) {
        Some(n) => Some(
            if has_extension(n) {
                n.take(after_last(n, '.') - 1)
            } else {
                n
            },
        ),
        None => None,
    }
}

/// `p` seen from `base`: an absolute `p` stands for itself.
pub open spec fn joined_path(base: Seq<char>, p: Seq<char>) -> Seq<char> {
    if root_len(p) == 1 || base.len() == 0 {
        p
    } else if base.last() == '/' {
        base + p
    } else {
        base + seq!['/'] + p
    }
}

/// The end of a scan over `cs[..end]` back to where its trailing separators and
/// `.` segments begin.
fn trailing_cut(cs: &Vec<char>, from: usize) -> (r: usize)
    requires
        from <= cs.len(),
    ensures
        r <= from,
        cs@.take(r as int) == cut_trailing(cs@.take(from as int)),
{
    let mut end: usize = from;
    loop
        invariant
            end <= from <= cs.len(),
            cut_trailing(cs@.take(end as int)) == cut_trailing(cs@.take(from as int)),
        decreases end,
    {
        let ghost t = cs@.take(end as int);
        let root: usize = if end > 0 && cs[0] == '/' {
            1
        } else {
            0
        };
        if end <= root {
            return end;
        }
        let a = segment_start(cs, end);
        let dot = a < end && end - a == 1 && cs[a] == '.';
        proof {
            lemma_cut_last_shrinks(t);
            if dot {
                assert(t.skip(a as int) == seq!['.']);
            } else if t.skip(a as int) == seq!['.'] {
                assert(t.skip(a as int).len() == 1);
                assert(t.skip(a as int)[0] == '.');
            }
        }
        if a < end && !(a > 0 && dot) {
            return end;
        }
        let next: usize = if a > root {
            a - 1
        } else {
            root
        };
        proof {
            assert(t.take(next as int) == cs@.take(next as int));
        }
        end = next;
    }
}

/// Where the last segment of `cs[..end]` begins.
fn segment_start(cs: &Vec<char>, end: usize) -> (a: usize)
    requires
        end <= cs.len(),
    ensures
        a == last_start(cs@.take(end as int)),
        end > root_len(cs@.take(end as int)) ==> a <= end,
{
    let ghost t = cs@.take(end as int);
    let mut j: usize = end;
    proof {
        assert(t.take(j as int) == t);
        lemma_after_last(t, '/');
    }
    while j > 0 && cs[j - 1] != '/'
        invariant
            j <= end <= cs.len(),
            t == cs@.take(end as int),
            after_last(t, '/') == after_last(t.take(j as int), '/'),
        decreases j,
    {
        proof {
            assert(t.take(j as int).drop_last() == t.take(j - 1));
        }
        j -= 1;
    }
    if end > 0 && cs[0] == '/' && j == 0 {
        1
    } else {
        j
    }
}

/// The components of a path.
pub fn components(s: &str) -> (r: Vec<String>)
    ensures
        texts(r@) == components_of(s@),
{
    let cs = chars_of(s);
    let mut out: Vec<String> = Vec::new();
    let mut end: usize = cs.len();
    proof {
        assert(cs@.take(end as int) == s@);
        assert(components_of(s@) + texts(out@) == components_of(s@));
    }
    loop
        invariant
            end <= cs.len(),
            components_of(cs@.take(end as int)) + texts(out@) == components_of(s@),
        decreases end,
    {
        let ghost before = texts(out@);
        let ghost whole = cs@.take(end as int);
        let t = trailing_cut(&cs, end);
        let root: usize = if t > 0 && cs[0] == '/' {
            1
        } else {
            0
        };
        proof {
            lemma_cut_trailing(whole);
        }
        if t <= root {
            if root == 1 {
                let mut slash = String::new();
                slash.push('/');
                proof {
                    assert(slash@ == seq!['/']);
                }
                out.insert(0, slash);
                proof {
                    assert(texts(out@) == seq![seq!['/']] + before);
                }
            } else {
                proof {
                    assert(texts(out@) == Seq::<Seq<char>>::empty() + before);
                }
            }
            return out;
        }
        let a = segment_start(&cs, t);
        let seg = piece(&cs, a, t);
        let next: usize = if a > root {
            a - 1
        } else {
            root
        };
        out.insert(0, seg);
        proof {
            let tt = cs@.take(t as int);
            lemma_cut_last_shrinks(tt);
            assert(seg@ == tt.skip(a as int));
            assert(tt.take(next as int) == cs@.take(next as int));
            assert(texts(out@) == seq![seg@] + before);
            assert(components_of(cs@.take(next as int)) + texts(out@) == components_of(
                cs@.take(next as int),
            ).push(seg@) + before);
        }
        end = next;
    }
}

/// The number of components of a path.
pub fn depth(s: &str) -> (r: usize)
    ensures
        r == components_of(s@).len(),
{
    let cs = chars_of(s);
    let mut n: usize = 0;
    let mut end: usize = cs.len();
    proof {
        assert(cs@.take(end as int) == s@);
    }
    loop
        invariant
            end <= cs.len(),
            n + end <= cs.len(),
            components_of(cs@.take(end as int)).len() + n == components_of(s@).len(),
        decreases end,
    {
        let t = trailing_cut(&cs, end);
        let root: usize = if t > 0 && cs[0] == '/' {
            1
        } else {
            0
        };
        proof {
            lemma_cut_trailing(cs@.take(end as int));
        }
        if t <= root {
            return n + root;
        }
        let a = segment_start(&cs, t);
        let next: usize = if a > root {
            a - 1
        } else {
            root
        };
        proof {
            let tt = cs@.take(t as int);
            lemma_cut_last_shrinks(tt);
            assert(tt.take(next as int) == cs@.take(next as int));
        }
        n += 1;
        end = next;
    }
}

fn same_list(a: &Vec<String>, b: &Vec<String>, n: usize) -> (r: bool)
    requires
        n <= a.len(),
        n <= b.len(),
    ensures
        r == (texts(a@).take(n as int) == texts(b@).take(n as int)),
{
    let mut i: usize = 0;
    while i < n
        invariant
            i <= n,
            n <= a.len(),
            n <= b.len(),
            texts(a@).take(i as int) == texts(b@).take(i as int),
        decreases n - i,
    {
        if !same(a[i].as_str(), b[i].as_str()) {
            proof {
                assert(texts(a@).take(n as int)[i as int] != texts(b@).take(n as int)[i as int]);
            }
            return false;
        }
        proof {
            assert(texts(a@).take(i + 1) == texts(a@).take(i as int).push(a@[i as int]@));
            assert(texts(b@).take(i + 1) == texts(b@).take(i as int).push(b@[i as int]@));
        }
        i += 1;
    }
    true
}

/// Whether two paths name the same place.
pub fn same_path(a: &str, b: &str) -> (r: bool)
    ensures
        r == same_place(a@, b@),
{
    let x = components(a);
    let y = components(b);
    if x.len() != y.len() {
        return false;
    }
    proof {
        assert(texts(x@).take(x.len() as int) == texts(x@));
        assert(texts(y@).take(y.len() as int) == texts(y@));
    }
    same_list(&x, &y, x.len())
}

/// Whether `p` lies at or under `base`.
pub open spec fn is_under(p: Seq<char>, base: Seq<char>) -> bool {
    components_of(base).is_prefix_of(components_of(p))
}

/// Whether `p` lies at or under `base`.
pub fn under(p: &str, base: &str) -> (r: bool)
    ensures
        r == is_under(p@, base@),
{
    let x = components(p);
    let y = components(base);
    if y.len() > x.len() {
        return false;
    }
    proof {
        assert(texts(y@).take(y.len() as int) == texts(y@));
        assert(texts(x@).take(y.len() as int) == texts(x@).subrange(0, y.len() as int));
    }
    same_list(&x, &y, y.len())
}

/// The path one level up.
pub fn parent(s: &str) -> (r: Option<String>)
    ensures
        opt_text(r) == parent_of(s@),
{
    let cs = chars_of(s);
    proof {
        assert(cs@.take(cs.len() as int) == s@);
        lemma_cut_trailing(s@);
    }
    let t = trailing_cut(&cs, cs.len());
    let root: usize = if t > 0 && cs[0] == '/' {
        1
    } else {
        0
    };
    if t <= root {
        return None;
    }
    let a = segment_start(&cs, t);
    let next: usize = if a > root {
        a - 1
    } else {
        root
    };
    proof {
        let tt = cs@.take(t as int);
        lemma_cut_last_shrinks(tt);
        assert(tt.take(next as int) == cs@.take(next as int));
    }
    let e = trailing_cut(&cs, next);
    let r = piece(&cs, 0, e);
    proof {
        assert(cs@.subrange(0, e as int) == cs@.take(e as int));
    }
    Some(r)
}

/// The last component of a path, if it is a name.
pub fn file_name(s: &str) -> (r: Option<String>)
    ensures
        opt_text(r) == file_name_of(s@),
{
    let cs = chars_of(s);
    proof {
        assert(cs@.take(cs.len() as int) == s@);
        lemma_cut_trailing(s@);
    }
    let t = trailing_cut(&cs, cs.len());
    let root: usize = if t > 0 && cs[0] == '/' {
        1
    } else {
        0
    };
    if t <= root {
        return None;
    }
    let ghost tt = cs@.take(t as int);
    let a = segment_start(&cs, t);
    let n = piece(&cs, a, t);
    proof {
        assert(n@ == tt.skip(a as int));
        if t == a + 1 && cs@[a as int] == '.' {
            assert(n@ == seq!['.']);
        }
        if t == a + 2 && cs@[a as int] == '.' && cs@[a + 1] == '.' {
            assert(n@ == seq!['.', '.']);
        }
        if n@ == seq!['.'] {
            assert(n@.len() == 1 && n@[0] == '.');
        }
        if n@ == seq!['.', '.'] {
            assert(n@.len() == 2 && n@[0] == '.' && n@[1] == '.');
        }
    }
    if (t - a == 1 && cs[a] == '.') || (t - a == 2 && cs[a] == '.' && cs[a + 1] == '.') {
        return None;
    }
    Some(n)
}

fn dot_of(n: &Vec<char>) -> (r: Option<usize>)
    ensures
        match r {
            Some(j) => has_extension(n@) && j == after_last(n@, '.') && 1 < j <= n.len(),
            None => !has_extension(n@),
        },
{
    let j = find_last(n, '.');
    proof {
        if n.len() == 2 && n@[0] == '.' && n@[1] == '.' {
            assert(n@ == seq!['.', '.']);
        }
        if n@ == seq!['.', '.'] {
            assert(n@.len() == 2 && n@[0] == '.' && n@[1] == '.');
        }
    }
    if j > 1 && !(n.len() == 2 && n[0] == '.' && n[1] == '.') {
        Some(j)
    } else {
        None
    }
}

/// The extension of a path's file name.
pub fn extension(s: &str) -> (r: Option<String>)
    ensures
        opt_text(r) == extension_of(s@),
{
    match file_name(s) {
        Some(name) => {
            let n = chars_of(name.as_str());
            match dot_of(&n) {
                Some(j) => {
                    let e = piece(&n, j, n.len());
                    proof {
                        assert(e@ == name@.skip(j as int));
                    }
                    Some(e)
                },
                None => None,
            }
        },
        None => None,
    }
}

/// A path's file name without its extension.
pub fn file_stem(s: &str) -> (r: Option<String>)
    ensures
        opt_text(r) == stem_of(s@),
{
    match file_name(s) {
        Some(name) => {
            let n = chars_of(name.as_str());
            match dot_of(&n) {
                Some(j) => {
                    let e = piece(&n, 0, j - 1);
                    proof {
                        assert(e@ == name@.take(j - 1));
                    }
                    Some(e)
                },
                None => Some(name),
            }
        },
        None => None,
    }
}

/// `p` seen from `base`.
pub fn join_path(base: &str, p: &str) -> (r: String)
    ensures
        r@ == joined_path(base@, p@),
{
    let b = chars_of(base);
    let q = chars_of(p);
    if (q.len() > 0 && q[0] == '/') || b.len() == 0 {
        return owned(p);
    }
    if b[b.len() - 1] == '/' {
        return concat(base, p);
    }
    let mut out = owned(base);
    out.push('/');
    out.append(p);
    proof {
        assert(out@ == base@ + seq!['/'] + p@);
    }
    out
}

// ----- names under a directory ---------------------------------------------------------

/// A name that can stand for one entry of a directory.
pub open spec fn plain_name(n: Seq<char>) -> bool {
    n.len() > 0 && !n.contains('/') && n != seq!['.'] && n != seq!['.', '.']
}

/// Joining a name to a directory adds that name as the last component; the
/// parent of the result is the directory again, and its file name is the name.
pub proof fn law_join_then_parent(dir: Seq<char>, name: Seq<char>)
    requires
        plain_name(name),
    ensures
        components_of(joined_path(dir, name)) == components_of(dir).push(name),
        file_name_of(joined_path(dir, name)) == Some(name),
        parent_of(joined_path(dir, name)) == Some(cut_trailing(dir)),
        same_place(cut_trailing(dir), dir),
{
    let p = joined_path(dir, name);
    assert(name[0] != '/') by {
        assert(name.contains(name[0]));
    }
    let at: int = p.len() - name.len();
    assert forall|k: int| at <= k < p.len() implies #[trigger] p[k] != '/' by {
        assert(p[k] == name[k - at]);
        assert(name.contains(name[k - at]));
    }
    lemma_after_last(p, '/');
    let j = after_last(p, '/') as int;
    if at > 0 {
        assert(p[at - 1] == '/');
    }
    assert(j == at) by {
        if j > at {
            assert(p[j - 1] == '/');
            assert(p[j - 1] != '/');
        }
        if j < at {
            assert(p[at - 1] == '/');
        }
    }
    assert(last_start(p) == at);
    assert(p.skip(at) == name);
    assert(last_counts(p));
    assert(cut_trailing(p) == p);
    lemma_cut_idempotent(dir);
    if dir.len() == 0 {
        assert(p == name);
        assert(cut_last(p) == dir);
    } else if dir.last() != '/' {
        assert(cut_last(p) == dir);
    } else if dir.len() == 1 {
        assert(p.len() == 1 + name.len());
        assert(cut_last(p) == dir);
    } else {
        assert(cut_last(p) == dir.drop_last());
        assert(last_start(dir) == dir.len()) by {
            lemma_after_last(dir, '/');
            assert(after_last(dir, '/') == dir.len());
        }
        assert(!last_counts(dir));
        assert(cut_last(dir) == dir.drop_last());
        assert(cut_trailing(dir) == cut_trailing(dir.drop_last()));
    }
    assert(components_of(cut_last(p)) == components_of(dir));
}

proof fn lemma_cut_idempotent(s: Seq<char>)
    ensures
        cut_trailing(cut_trailing(s)) == cut_trailing(s),
        components_of(cut_trailing(s)) == components_of(s),
{
    lemma_cut_trailing(s);
}

/// The components of a path are its root, if it has one, and then segments
/// that are not empty and hold no separator.
pub proof fn lemma_components_shape(s: Seq<char>)
    ensures
        forall|i: int|
            0 <= i < components_of(s).len() ==> {
                let c = #[trigger] components_of(s)[i];
                ||| i == 0 && c == seq!['/']
                ||| c.len() > 0 && !c.contains('/')
            },
    decreases s.len(),
{
    lemma_cut_trailing(s);
    let t = cut_trailing(s);
    if t.len() > root_len(t) {
        lemma_cut_last_shrinks(t);
        lemma_components_shape(cut_last(t));
        lemma_after_last(t, '/');
        let seg = t.skip(last_start(t));
        if seg.contains('/') {
            let k = choose|k: int| 0 <= k < seg.len() && seg[k] == '/';
            assert(t[k + last_start(t)] == '/');
        }
        let h = components_of(cut_last(t));
        assert forall|i: int| 0 <= i < components_of(s).len() implies {
            let c = #[trigger] components_of(s)[i];
            ||| i == 0 && c == seq!['/']
            ||| c.len() > 0 && !c.contains('/')
        } by {
            if i < h.len() {
                assert(components_of(s)[i] == h[i]);
            }
        }
    }
}

// ----- `.` and `..` --------------------------------------------------------------------

/// Components with each `.` dropped and each `..` taking back the name before it.
pub open spec fn resolved(parts: Seq<Seq<char>>) -> Seq<Seq<char>>
    decreases parts.len(),
{
    if parts.len() == 0 {
        Seq::empty()
    } else {
        let done = resolved(parts.drop_last());
        let c = parts.last();
        if c == seq!['.', '.'] {
            if done.len() > 0 && done.last() != seq!['/'] {
                done.drop_last()
            } else {
                done
            }
        } else if c == seq!['.'] {
            done
        } else {
            done.push(c)
        }
    }
}

/// The path that has the given components.
pub open spec fn assembled(parts: Seq<Seq<char>>) -> Seq<char>
    decreases parts.len(),
{
    if parts.len() == 0 {
        Seq::empty()
    } else {
        joined_path(assembled(parts.drop_last()), parts.last())
    }
}

/// A path with `.` and `..` resolved lexically.
pub open spec fn normalized(s: Seq<char>) -> Seq<char> {
    assembled(resolved(components_of(s)))
}

/// Components that `..` and `.` have been resolved from.
pub open spec fn settled(parts: Seq<Seq<char>>) -> bool {
    forall|i: int|
        0 <= i < parts.len() ==> {
            let c = #[trigger] parts[i];
            ||| i == 0 && c == seq!['/']
            ||| plain_name(c)
        }
}

proof fn lemma_resolved_settled(parts: Seq<Seq<char>>)
    requires
        forall|i: int|
            0 <= i < parts.len() ==> {
                let c = #[trigger] parts[i];
                ||| i == 0 && c == seq!['/']
                ||| c.len() > 0 && !c.contains('/')
            },
    ensures
        settled(resolved(parts)),
        parts.len() > 0 && parts[0] == seq!['/'] ==> resolved(parts).len() > 0,
    decreases parts.len(),
{
    if parts.len() > 0 {
        let h = parts.drop_last();
        assert forall|i: int| 0 <= i < h.len() implies {
            let c = #[trigger] h[i];
            ||| i == 0 && c == seq!['/']
            ||| c.len() > 0 && !c.contains('/')
        } by {
            assert(h[i] == parts[i]);
        }
        lemma_resolved_settled(h);
        let done = resolved(h);
        let c = parts.last();
        let r = resolved(parts);
        let root = seq!['/'];
        assert(root.contains(root[0]));
        assert(parts[parts.len() - 1] == c);
        assert(root != seq!['.']) by {
            assert(root[0] != seq!['.'][0]);
        }
        assert(root != seq!['.', '.']) by {
            assert(root[0] != seq!['.', '.'][0]);
        }
        assert forall|i: int| 0 <= i < r.len() implies {
            let c = #[trigger] r[i];
            ||| i == 0 && c == seq!['/']
            ||| plain_name(c)
        } by {
            if i < done.len() {
                assert(r[i] == done[i]);
            }
        }
        if parts[0] == root {
            if h.len() > 0 {
                assert(h[0] == root);
                lemma_root_stays(h);
                if done.len() == 1 {
                    assert(done.last() == done[0]);
                }
            }
        }
    }
}

proof fn lemma_root_stays(parts: Seq<Seq<char>>)
    requires
        parts.len() > 0,
        parts[0] == seq!['/'],
    ensures
        resolved(parts).len() > 0,
        resolved(parts)[0] == seq!['/'],
    decreases parts.len(),
{
    let root = seq!['/'];
    assert(root[0] == '/');
    assert(seq!['.'][0] == '.');
    assert(seq!['.', '.'][0] == '.');
    let h = parts.drop_last();
    if h.len() > 0 {
        assert(h[0] == parts[0]);
        lemma_root_stays(h);
        let done = resolved(h);
        if done.len() == 1 {
            assert(done.last() == done[0]);
        }
    } else {
        assert(resolved(h) == Seq::<Seq<char>>::empty());
        assert(parts.last() == parts[0]);
    }
}

/// A path put together from settled components has just those components.
pub proof fn lemma_assembled_components(parts: Seq<Seq<char>>)
    requires
        settled(parts),
    ensures
        components_of(assembled(parts)) == parts,
    decreases parts.len(),
{
    if parts.len() == 0 {
        let e = Seq::<char>::empty();
        assert(cut_trailing(e) == e);
        assert(components_of(e) == Seq::<Seq<char>>::empty());
    } else {
        let h = parts.drop_last();
        let c = parts.last();
        assert(settled(h)) by {
            assert forall|i: int| 0 <= i < h.len() implies {
                let c = #[trigger] h[i];
                ||| i == 0 && c == seq!['/']
                ||| plain_name(c)
            } by {
                assert(h[i] == parts[i]);
            }
        }
        lemma_assembled_components(h);
        assert(parts[parts.len() - 1] == c);
        if plain_name(c) {
            law_join_then_parent(assembled(h), c);
            assert(h.push(c) == parts);
        } else {
            assert(parts.len() == 1);
            assert(c == seq!['/']);
            assert(assembled(h) == Seq::<char>::empty());
            assert(joined_path(assembled(h), c) == c);
            assert(cut_trailing(c) == c);
            assert(components_of(c) == seq![seq!['/']]);
            assert(parts == seq![seq!['/']]);
        }
    }
}

proof fn lemma_resolved_fixpoint(parts: Seq<Seq<char>>)
    requires
        settled(parts),
    ensures
        resolved(parts) == parts,
    decreases parts.len(),
{
    if parts.len() > 0 {
        let h = parts.drop_last();
        assert forall|i: int| 0 <= i < h.len() implies {
            let c = #[trigger] h[i];
            ||| i == 0 && c == seq!['/']
            ||| plain_name(c)
        } by {
            assert(h[i] == parts[i]);
        }
        lemma_resolved_fixpoint(h);
        let c = parts[parts.len() - 1];
        let root = seq!['/'];
        assert(root[0] == '/');
        assert(seq!['.'][0] == '.');
        assert(seq!['.', '.'][0] == '.');
        assert(h.push(c) == parts);
    }
}

/// A normalized path holds no `.` and no `..`, and normalizing it again changes
/// nothing.
pub proof fn law_normalize_settles(s: Seq<char>)
    ensures
        settled(components_of(normalized(s))),
        normalized(normalized(s)) == normalized(s),
{
    lemma_components_shape(s);
    lemma_resolved_settled(components_of(s));
    let r = resolved(components_of(s));
    lemma_assembled_components(r);
    lemma_resolved_fixpoint(r);
}

/// An absolute path stays absolute when it is normalized.
pub proof fn law_normalize_keeps_root(s: Seq<char>)
    requires
        root_len(s) == 1,
    ensures
        root_len(normalized(s)) == 1,
{
    lemma_absolute_root(s);
    let parts = components_of(s);
    lemma_root_stays(parts);
    lemma_assembled_root(resolved(parts));
}

proof fn lemma_absolute_root(s: Seq<char>)
    requires
        root_len(s) == 1,
    ensures
        components_of(s).len() > 0,
        components_of(s)[0] == seq!['/'],
    decreases s.len(),
{
    lemma_cut_trailing(s);
    let t = cut_trailing(s);
    if t.len() > root_len(t) {
        lemma_cut_last_shrinks(t);
        lemma_absolute_root(cut_last(t));
    }
}

proof fn lemma_assembled_root(parts: Seq<Seq<char>>)
    requires
        parts.len() > 0,
        parts[0] == seq!['/'],
    ensures
        root_len(assembled(parts)) == 1,
    decreases parts.len(),
{
    let h = parts.drop_last();
    if h.len() > 0 {
        assert(h[0] == parts[0]);
        lemma_assembled_root(h);
    } else {
        assert(assembled(h) == Seq::<char>::empty());
        assert(parts.last() == parts[0]);
        assert(parts[0][0] == '/');
    }
}

/// Resolves `.` and `..` lexically, without touching the disk.
pub fn normalize_path(p: &str) -> (r: String)
    ensures
        r@ == normalized(p@),
{
    let parts = components(p);
    let mut done: Vec<String> = Vec::new();
    let mut i: usize = 0;
    while i < parts.len()
        invariant
            i <= parts.len(),
            texts(parts@) == components_of(p@),
            texts(done@) == resolved(texts(parts@).take(i as int)),
        decreases parts.len() - i,
    {
        let ghost t = texts(parts@);
        let ghost before = texts(done@);
        proof {
            assert(t.take(i + 1).drop_last() == t.take(i as int));
            assert(t.take(i + 1).last() == parts@[i as int]@);
            reveal_strlit("..");
            reveal_strlit(".");
            reveal_strlit("/");
            assert(".."@ == seq!['.', '.']);
            assert("."@ == seq!['.']);
            assert("/"@ == seq!['/']);
        }
        if same(parts[i].as_str(), "..") {
            if done.len() > 0 && !same(done[done.len() - 1].as_str(), "/") {
                done.pop();
                proof {
                    assert(texts(done@) == before.drop_last());
                }
            }
        } else if !same(parts[i].as_str(), ".") {
            let c = parts[i].clone();
            done.push(c);
            proof {
                assert(texts(done@) == before.push(c@));
            }
        }
        i += 1;
    }
    proof {
        assert(texts(parts@).take(i as int) == texts(parts@));
    }
    let mut out = String::new();
    let mut k: usize = 0;
    while k < done.len()
        invariant
            k <= done.len(),
            out@ == assembled(texts(done@).take(k as int)),
        decreases done.len() - k,
    {
        proof {
            let t = texts(done@);
            assert(t.take(k + 1).drop_last() == t.take(k as int));
            assert(t.take(k + 1).last() == done@[k as int]@);
        }
        out = join_path(out.as_str(), done[k].as_str());
        k += 1;
    }
    proof {
        assert(texts(done@).take(k as int) == texts(done@));
    }
    out
}

// ----- the home directory --------------------------------------------------------------

/// A path as typed, with a leading `~` standing for `home`.
pub open spec fn expanded(s: Seq<char>, home: Seq<char>) -> Seq<char> {
    if s == "~"@ {
        home
    } else if "~/"@.is_prefix_of(s) {
        joined_path(home, s.skip(2))
    } else {
        s
    }
}

proof fn lemma_tilde()
    ensures
        "~/"@ == seq!['~', '/'],
        "~/"@.len() == 2,
{
    reveal_strlit("~/");
}

/// Expands a leading `~` to the home directory.
pub fn expand_path(s: &str, home: &str) -> (r: String)
    ensures
        r@ == expanded(s@, home@),
{
    proof {
        lemma_tilde();
    }
    if same(s, "~") {
        return owned(home);
    }
    match strip_prefix(s, "~/") {
        Some(rest) => join_path(home, rest.as_str()),
        None => owned(s),
    }
}

/// The directory that the argument of `cd` names when it is given in `cwd`.
pub open spec fn resolved_dir(cwd: Seq<char>, arg: Seq<char>, home: Seq<char>) -> Seq<char> {
    let a = trimmed(arg);
    if a.len() == 0 {
        cwd
    } else if a == "~"@ {
        home
    } else if "~/"@.is_prefix_of(a) {
        normalized(joined_path(home, a.skip(2)))
    } else {
        normalized(joined_path(cwd, a))
    }
}

/// Resolves the argument of `cd` against `cwd`.
pub fn resolve_dir(cwd: &str, arg: &str, home: &str) -> (r: String)
    ensures
        r@ == resolved_dir(cwd@, arg@, home@),
{
    proof {
        lemma_tilde();
    }
    let a = trim(arg);
    if a.as_str().is_empty() {
        return owned(cwd);
    }
    if same(a.as_str(), "~") {
        return owned(home);
    }
    match strip_prefix(a.as_str(), "~/") {
        Some(rest) => normalize_path(join_path(home, rest.as_str()).as_str()),
        None => normalize_path(join_path(cwd, a.as_str()).as_str()),
    }
}

/// Where the last `n` components of a path begin.
pub open spec fn tail_start(s: Seq<char>, n: nat) -> int
    decreases n,
{
    let t = cut_trailing(s);
    if t.len() <= root_len(t) {
        0
    } else if n <= 1 {
        last_start(t)
    } else {
        tail_start(cut_last(t), (n - 1) as nat)
    }
}

fn tail_from(cs: &Vec<char>, end: usize, n: usize) -> (r: usize)
    requires
        end <= cs.len(),
    ensures
        r == tail_start(cs@.take(end as int), n as nat),
        cs@.take(end as int) == cut_trailing(cs@.take(end as int)) ==> r <= end,
        r <= cut_trailing(cs@.take(end as int)).len(),
    decreases n,
{
    let t = trailing_cut(cs, end);
    let root: usize = if t > 0 && cs[0] == '/' {
        1
    } else {
        0
    };
    proof {
        lemma_cut_trailing(cs@.take(end as int));
    }
    if t <= root {
        return 0;
    }
    let ghost tt = cs@.take(t as int);
    let a = segment_start(cs, t);
    if n <= 1 {
        return a;
    }
    let next: usize = if a > root {
        a - 1
    } else {
        root
    };
    proof {
        lemma_cut_last_shrinks(tt);
        assert(tt.take(next as int) == cs@.take(next as int));
        lemma_cut_trailing(cs@.take(next as int));
    }
    tail_from(cs, next, n - 1)
}

/// A path for display, with the home directory written `~`.
pub open spec fn shown_path(p: Seq<char>, home: Seq<char>) -> Seq<char> {
    let n = components_of(p).len() - components_of(home).len();
    if is_under(p, home) {
        if n == 0 {
            "~"@
        } else {
            "~/"@ + cut_trailing(p).skip(tail_start(p, n as nat))
        }
    } else {
        p
    }
}

/// A path shown with the home directory abbreviated to `~`.
pub fn display_path(p: &str, home: &str) -> (r: String)
    ensures
        r@ == shown_path(p@, home@),
{
    let x = components(p);
    let y = components(home);
    if y.len() > x.len() || !same_list(&x, &y, y.len()) {
        proof {
            assert(texts(y@).take(y.len() as int) == texts(y@));
            if is_under(p@, home@) {
                assert(texts(x@).take(y.len() as int) == texts(x@).subrange(0, y.len() as int));
            }
        }
        return owned(p);
    }
    proof {
        assert(texts(y@).take(y.len() as int) == texts(y@));
        assert(texts(x@).take(y.len() as int) == texts(x@).subrange(0, y.len() as int));
    }
    let n: usize = x.len() - y.len();
    if n == 0 {
        return owned("~");
    }
    let cs = chars_of(p);
    proof {
        assert(cs@.take(cs.len() as int) == p@);
    }
    let stop = trailing_cut(&cs, cs.len());
    let a = tail_from(&cs, cs.len(), n);
    let rest = piece(&cs, a, stop);
    proof {
        assert(rest@ == cut_trailing(p@).skip(a as int));
    }
    concat("~/", rest.as_str())
}

// ----- labels and queries --------------------------------------------------------------

/// A short label for a path: its last component, "Macintosh HD" for the root.
pub open spec fn label_of(p: Seq<char>) -> Seq<char> {
    if same_place(p, "/"@) {
        "Macintosh HD"@
    } else {
        match file_name_of(p) {
            Some(n) => n,
            None => p,
        }
    }
}

/// A short, human label for a path.
pub fn path_label(p: &str) -> (r: String)
    ensures
        r@ == label_of(p@),
{
    if same_path(p, "/") {
        return owned("Macintosh HD");
    }
    match file_name(p) {
        Some(n) => n,
        None => owned(p),
    }
}

/// `s` without the slashes at its end.
pub open spec fn without_slashes(s: Seq<char>) -> Seq<char>
    decreases s.len(),
{
    if s.len() > 0 && s.last() == '/' {
        without_slashes(s.drop_last())
    } else {
        s
    }
}

/// A directory named by text before a slash: nothing before it is the root.
pub open spec fn or_root(s: Seq<char>) -> Seq<char> {
    if s.len() == 0 {
        "/"@
    } else {
        s
    }
}

/// A typed path split into the directory to list and the name begun in it. A
/// trailing slash lists the directory itself.
pub open spec fn query_split(q: Seq<char>, home: Seq<char>) -> (Seq<char>, Seq<char>) {
    let e = if q == "~"@ {
        home + "/"@
    } else if "~/"@.is_prefix_of(q) {
        home + "/"@ + q.skip(2)
    } else {
        q
    };
    if "/"@.is_suffix_of(e) {
        (or_root(without_slashes(e)), Seq::empty())
    } else {
        match split_last(e, '/') {
            Some((base, partial)) => (or_root(base), partial),
            None => (e, Seq::empty()),
        }
    }
}

fn root_if_empty(s: String) -> (r: String)
    ensures
        r@ == or_root(s@),
{
    if s.as_str().is_empty() {
        owned("/")
    } else {
        s
    }
}

/// Splits a path-like query into a base directory and a partial trailing name.
pub fn split_path_query(q: &str, home: &str) -> (r: (String, String))
    ensures
        (r.0@, r.1@) == query_split(q@, home@),
{
    proof {
        lemma_tilde();
    }
    let e: String = if same(q, "~") {
        concat(home, "/")
    } else {
        match strip_prefix(q, "~/") {
            Some(rest) => concat(concat(home, "/").as_str(), rest.as_str()),
            None => owned(q),
        }
    };
    if ends_with(e.as_str(), "/") {
        let cs = chars_of(e.as_str());
        let mut n: usize = cs.len();
        proof {
            assert(cs@.take(n as int) == e@);
        }
        while n > 0 && cs[n - 1] == '/'
            invariant
                n <= cs.len(),
                without_slashes(cs@.take(n as int)) == without_slashes(e@),
            decreases n,
        {
            proof {
                assert(cs@.take(n as int).drop_last() == cs@.take(n - 1));
            }
            n -= 1;
        }
        let base = piece(&cs, 0, n);
        proof {
            assert(base@ == cs@.take(n as int));
        }
        return (root_if_empty(base), String::new());
    }
    match rsplit_once(e.as_str(), '/') {
        Some((base, partial)) => (root_if_empty(base), partial),
        None => (e, String::new()),
    }
}

/// Whether a relative path begins with a segment that counts wherever it stands.
spec fn begins_with_name(y: Seq<char>) -> bool {
    y.len() == 0 || (y[0] != '/' && !(y[0] == '.' && (y.len() == 1 || y[1] == '/')))
}

/// A slash at the end of a path adds no component.
proof fn lemma_trailing_slash(x: Seq<char>)
    requires
        x.len() > 1,
        x.last() == '/',
    ensures
        components_of(x) == components_of(x.drop_last()),
{
    lemma_after_last(x, '/');
    assert(after_last(x, '/') == x.len());
    assert(cut_last(x) =~= x.drop_last());
    assert(cut_trailing(x) == cut_trailing(x.drop_last()));
    lemma_cut_idempotent(x);
    lemma_cut_idempotent(x.drop_last());
}

/// The components of an absolute folder and a relative path behind it are those of
/// the one, then those of the other.
proof fn lemma_components_join(x: Seq<char>, y: Seq<char>)
    requires
        root_len(x) == 1,
        x.last() == '/',
        begins_with_name(y),
    ensures
        components_of(x + y) == components_of(x) + components_of(y),
    decreases y.len(),
{
    let u = x + y;
    if y.len() == 0 {
        assert(u =~= x);
        assert(components_of(y) =~= Seq::empty());
        assert(components_of(x) + components_of(y) =~= components_of(x));
    } else {
        lemma_after_last(y, '/');
        lemma_after_last(u, '/');
        let a = last_start(y);
        let n = x.len() as int;
        assert(u[n - 1] == '/');
        assert(forall|k: int| 0 <= k < y.len() ==> u[n + k] == #[trigger] y[k]);
        assert(last_start(u) == n + a) by {
            let j = after_last(u, '/') as int;
            if j < n + a {
                if a > 0 {
                    assert(u[n + a - 1] == y[a - 1]);
                }
                assert(u[n + a - 1] == '/');
            }
            if j > n + a {
                assert(u[j - 1] == y[j - 1 - n]);
            }
        }
        let seg = y.skip(a);
        assert(u.skip(n + a) =~= seg);
        if a == 0 {
            assert(seg =~= y);
            assert(y != seq!['.']);
            assert(cut_last(y) =~= Seq::<char>::empty());
            assert(components_of(cut_last(y)) =~= Seq::empty());
            if n > 1 {
                assert(cut_last(u) =~= x.drop_last());
                lemma_trailing_slash(x);
            } else {
                assert(cut_last(u) =~= x);
            }
        } else {
            let c = y.take(a - 1);
            assert(a > 1) by {
                if a == 1 {
                    assert(y[0] == '/');
                }
            }
            assert(y[a - 1] == '/');
            assert(begins_with_name(c)) by {
                if c.len() == 1 {
                    assert(y[1] == '/');
                }
            }
            assert(cut_last(y) == c);
            assert(cut_last(u) =~= x + c);
            lemma_components_join(x, c);
        }
        if last_counts(y) {
            assert(last_counts(u));
            assert(cut_trailing(y) == y);
            assert(cut_trailing(u) == u);
            assert(components_of(u) =~= components_of(x) + components_of(y));
        } else {
            assert(a > 0);
            assert(!last_counts(u));
            let c = y.take(a - 1);
            assert(cut_trailing(y) == cut_trailing(c));
            assert(cut_trailing(u) == cut_trailing(x + c));
            lemma_cut_idempotent(y);
            lemma_cut_idempotent(c);
            lemma_cut_idempotent(u);
            lemma_cut_idempotent(x + c);
        }
    }
}

proof fn lemma_cut_is_prefix(s: Seq<char>)
    ensures
        cut_trailing(s) == s.take(cut_trailing(s).len() as int),
        cut_trailing(s).len() <= s.len(),
    decreases s.len(),
{
    lemma_cut_trailing(s);
    if s.len() > root_len(s) && !last_counts(s) {
        lemma_cut_last_shrinks(s);
        lemma_cut_is_prefix(cut_last(s));
        let n = cut_trailing(s).len() as int;
        assert(cut_last(s).take(n) =~= s.take(n));
    } else {
        assert(s.take(s.len() as int) =~= s);
    }
}

/// The last `n` components of an absolute path stand behind a slash, and all
/// others in front of it.
proof fn lemma_tail_splits(p: Seq<char>, n: nat)
    requires
        root_len(p) == 1,
        1 <= n < components_of(p).len(),
    ensures
        ({
            let t = cut_trailing(p);
            let s = tail_start(p, n);
            &&& 1 <= s < t.len()
            &&& t[s - 1] == '/'
            &&& begins_with_name(t.skip(s))
            &&& components_of(t.take(s)).len() + n == components_of(p).len()
            &&& t[0] == '/'
        }),
    decreases n,
{
    lemma_cut_trailing(p);
    let t = cut_trailing(p);
    let s = tail_start(p, n);
    lemma_after_last(t, '/');
    lemma_cut_last_shrinks(t);
    let c = cut_last(t);
    assert(components_of(p) == components_of(c).push(t.skip(last_start(t))));
    if n == 1 {
        let y = t.skip(s);
        assert(y[0] == t[s]);
        if y.len() > 1 {
            assert(y[1] == t[s + 1]);
        } else {
            assert(y =~= seq![y[0]]);
        }
        let x = t.take(s);
        if s > 1 {
            assert(x.drop_last() =~= c);
            assert(x.last() == '/');
            lemma_trailing_slash(x);
        } else {
            assert(x =~= c);
        }
    } else {
        lemma_tail_splits(c, (n - 1) as nat);
        lemma_cut_is_prefix(c);
        let d = cut_trailing(c);
        assert(d.take(s) =~= t.take(s));
        let y = t.skip(s);
        let z = d.skip(s);
        assert(z[0] == d[s] && d[s] == t[s] && y[0] == t[s]);
        if z.len() > 1 {
            assert(z[1] == d[s + 1] && y[1] == t[s + 1]);
        }
    }
}

/// What a displayed path expands to is the path again, and the display begins with
/// `~` if and only if the path is the home directory or lies below it.
pub proof fn law_display_expands_back(p: Seq<char>, home: Seq<char>)
    requires
        root_len(p) == 1,
        root_len(home) == 1,
    ensures
        same_place(expanded(shown_path(p, home), home), p),
        "~"@.is_prefix_of(shown_path(p, home)) <==> is_under(p, home),
{
    reveal_strlit("~");
    lemma_tilde();
    let d = shown_path(p, home);
    let n = components_of(p).len() - components_of(home).len();
    if !is_under(p, home) {
        assert(d[0] == '/');
        assert(d.subrange(0, 1)[0] != '~');
    } else if n == 0 {
        assert(d.subrange(0, 1) =~= "~"@);
        assert(components_of(home) =~= components_of(p));
    } else {
        lemma_absolute_root(home);
        lemma_tail_splits(p, n as nat);
        let t = cut_trailing(p);
        let s = tail_start(p, n as nat);
        let x = t.take(s);
        let y = t.skip(s);
        assert(d[0] == '~' && d[1] == '/');
        assert(d.skip(2) =~= y);
        assert("~/"@.is_prefix_of(d));
        assert(d.subrange(0, 1) =~= "~"@);
        lemma_components_join(x, y);
        assert(x + y =~= t);
        lemma_cut_idempotent(p);
        assert(components_of(x) =~= components_of(home)) by {
            assert forall|i: int| 0 <= i < components_of(x).len() implies components_of(x)[i]
                == components_of(home)[i] by {
                assert(components_of(p)[i] == components_of(x)[i]);
            }
        }
        if home.last() == '/' {
            lemma_components_join(home, y);
        } else {
            let h = home.push('/');
            assert(h.drop_last() =~= home);
            lemma_trailing_slash(h);
            lemma_components_join(h, y);
            assert(home + seq!['/'] + y =~= h + y);
        }
    }
}

// ----- new entries ---------------------------------------------------------------------

/// The `n`-th name to try for a new entry: `base` itself, then `base 2`, `base 3`, ...
pub open spec fn nth_name(base: Seq<char>, n: nat) -> Seq<char> {
    if n < 2 {
        base
    } else {
        base + " "@ + decimal_of(n)
    }
}

/// The `n`-th path to try for a new entry `base` of `dir`; a caller takes the
/// first one that is free.
pub fn unique_child(dir: &str, base: &str, n: u64) -> (r: String)
    ensures
        r@ == joined_path(dir@, nth_name(base@, n as nat)),
{
    if n < 2 {
        return join_path(dir, base);
    }
    let name = concat(concat(base, " ").as_str(), decimal(n).as_str());
    join_path(dir, name.as_str())
}

/// The `n`-th path to try for a new entry `base` of `dir`.
pub open spec fn try_path(dir: Seq<char>, base: Seq<char>, n: nat) -> Seq<char> {
    joined_path(dir, nth_name(base, n))
}

/// One step of the search for a free path: the `n`-th one where it is free, else
/// the number of the next one to try.
pub open spec fn try_step(dir: Seq<char>, base: Seq<char>, n: nat, taken: bool) -> Result<
    Seq<char>,
    nat,
> {
    if taken {
        Err((n + 1) as nat)
    } else {
        Ok(try_path(dir, base, n))
    }
}

/// One step of the search for a free path: `taken` says whether there is something
/// at the `n`-th one.
pub fn next_try(dir: &str, base: &str, n: u64, taken: bool) -> (r: Result<String, u64>)
    requires
        n < u64::MAX,
    ensures
        match r {
            Ok(p) => try_step(dir@, base@, n as nat, taken) == Ok::<Seq<char>, nat>(p@),
            Err(m) => try_step(dir@, base@, n as nat, taken) == Err::<Seq<char>, nat>(m as nat),
        },
{
    if taken {
        Err(n + 1)
    } else {
        Ok(unique_child(dir, base, n))
    }
}

/// What the search for a free path arrives at when it begins with the `n`-th one
/// and the paths `there` are taken, if it does so within `steps`.
pub open spec fn searched(
    dir: Seq<char>,
    base: Seq<char>,
    n: nat,
    there: Set<Seq<char>>,
    steps: nat,
) -> Option<Seq<char>>
    decreases steps,
{
    if steps == 0 {
        None
    } else {
        match try_step(dir, base, n, there.contains(try_path(dir, base, n))) {
            Ok(p) => Some(p),
            Err(m) => searched(dir, base, m, there, (steps - 1) as nat),
        }
    }
}

/// Whether a path is the first free one of the tries from the `n`-th on.
pub open spec fn is_first_free(
    dir: Seq<char>,
    base: Seq<char>,
    n: nat,
    there: Set<Seq<char>>,
    p: Seq<char>,
) -> bool {
    !there.contains(p) && exists|k: nat|
        n <= k && p == #[trigger] try_path(dir, base, k) && forall|m: nat|
            n <= m < k ==> there.contains(#[trigger] try_path(dir, base, m))
}

/// Different tries for a new entry have different names.
pub proof fn law_tries_differ(base: Seq<char>, m: nat, n: nat)
    requires
        1 <= m < n,
    ensures
        nth_name(base, m) != nth_name(base, n),
{
    law_decimal_reads_back(n, n);
    let x = nth_name(base, m);
    let y = nth_name(base, n);
    if m == 1 {
        assert(y.len() > base.len());
    } else {
        law_decimal_reads_back(m, n);
        let k = (base + " "@).len() as int;
        assert(x.skip(k) == decimal_of(m));
        assert(y.skip(k) == decimal_of(n));
    }
}

proof fn lemma_tries_lie_apart(dir: Seq<char>, base: Seq<char>, m: nat, n: nat)
    requires
        1 <= m < n,
    ensures
        try_path(dir, base, m) != try_path(dir, base, n),
{
    law_tries_differ(base, m, n);
    let (x, y) = (nth_name(base, m), nth_name(base, n));
    let (p, q) = (try_path(dir, base, m), try_path(dir, base, n));
    reveal_strlit(" ");
    assert(root_len(x) == root_len(y)) by {
        if base.len() > 0 {
            assert(x[0] == base[0] && y[0] == base[0]);
        } else {
            assert(y[0] == ' ');
            if m >= 2 {
                assert(x[0] == ' ');
            }
        }
    }
    if p == q {
        let k: int = p.len() - x.len();
        assert(x.len() == y.len());
        assert(p.skip(k) =~= x);
        assert(q.skip(k) =~= y);
    }
}

proof fn lemma_search_ends(dir: Seq<char>, base: Seq<char>, n: nat, there: Set<Seq<char>>)
    requires
        n >= 1,
        there.finite(),
    ensures
        searched(dir, base, n, there, (there.len() + 1) as nat) is Some,
        is_first_free(
            dir,
            base,
            n,
            there,
            searched(dir, base, n, there, (there.len() + 1) as nat)->0,
        ),
    decreases there.len(),
{
    let p = try_path(dir, base, n);
    if there.contains(p) {
        let rest = there.remove(p);
        let m = (n + 1) as nat;
        lemma_search_ends(dir, base, m, rest);
        lemma_same_search(dir, base, m, there, p, n, (rest.len() + 1) as nat);
        let r = searched(dir, base, m, rest, (rest.len() + 1) as nat)->0;
        let k = choose|k: nat|
            m <= k && r == #[trigger] try_path(dir, base, k) && forall|i: nat|
                m <= i < k ==> rest.contains(#[trigger] try_path(dir, base, i));
        lemma_tries_lie_apart(dir, base, n, k);
        assert forall|i: nat| n <= i < k implies there.contains(
            #[trigger] try_path(dir, base, i),
        ) by {
            if i > n {
                assert(rest.contains(try_path(dir, base, i)));
            }
        }
        assert(r == try_path(dir, base, k));
    } else {
        assert(p == try_path(dir, base, n));
    }
}

proof fn lemma_same_search(
    dir: Seq<char>,
    base: Seq<char>,
    m: nat,
    there: Set<Seq<char>>,
    p: Seq<char>,
    n: nat,
    steps: nat,
)
    requires
        1 <= n < m,
        p == try_path(dir, base, n),
    ensures
        searched(dir, base, m, there, steps) == searched(dir, base, m, there.remove(p), steps),
    decreases steps,
{
    if steps > 0 {
        lemma_tries_lie_apart(dir, base, n, m);
        lemma_same_search(dir, base, (m + 1) as nat, there, p, n, (steps - 1) as nat);
    }
}

/// The search for a new entry ends, whatever finitely many paths are taken: with
/// the first free one of `base`, `base 2`, `base 3` and so on, which lies directly
/// in the folder if `base` is a plain name.
pub proof fn law_search_finds_first_free(dir: Seq<char>, base: Seq<char>, there: Set<Seq<char>>)
    requires
        there.finite(),
    ensures
        ({
            let r = searched(dir, base, 1, there, (there.len() + 1) as nat);
            &&& r is Some
            &&& !there.contains(r->0)
            &&& is_first_free(dir, base, 1, there, r->0)
            &&& !there.contains(joined_path(dir, base)) ==> r->0 == joined_path(dir, base)
            &&& plain_name(base) ==> (parent_of(r->0) matches Some(d) && same_place(d, dir))
        }),
{
    lemma_search_ends(dir, base, 1, there);
    let r = searched(dir, base, 1, there, (there.len() + 1) as nat)->0;
    let k = choose|k: nat|
        1 <= k && r == #[trigger] try_path(dir, base, k) && forall|i: nat|
            1 <= i < k ==> there.contains(#[trigger] try_path(dir, base, i));
    assert(try_path(dir, base, 1) == joined_path(dir, base));
    if plain_name(base) {
        lemma_tried_names_are_plain(base, k);
        law_join_then_parent(dir, nth_name(base, k));
    }
}

proof fn lemma_tried_names_are_plain(base: Seq<char>, n: nat)
    requires
        plain_name(base),
    ensures
        plain_name(nth_name(base, n)),
{
    if n >= 2 {
        let x = nth_name(base, n);
        reveal_strlit(" ");
        law_decimal_reads_back(n, n);
        let at = base.len() as int;
        assert(x[at] == ' ');
        assert forall|i: int| 0 <= i < x.len() implies #[trigger] x[i] != '/' by {
            if i < at {
                assert(x[i] == base[i]);
                assert(base.contains(base[i]));
            } else if i > at {
                let c = decimal_of(n)[i - at - 1];
                let d = choose|d: nat| d < 16 && c == #[trigger] digit_char(d);
                assert(x[i] == c && c == digit_char(d));
            }
        }
    }
}

/// Whether `p` begins each of `items`.
pub open spec fn begins_all(p: Seq<char>, items: Seq<Seq<char>>) -> bool {
    forall|i: int| 0 <= i < items.len() ==> p.is_prefix_of(#[trigger] items[i])
}

/// What `a` and `b` have in common at their beginning.
pub open spec fn shared_start(a: Seq<char>, b: Seq<char>) -> Seq<char>
    decreases a.len(),
{
    if a.len() == 0 || b.len() == 0 || a[0] != b[0] {
        Seq::empty()
    } else {
        seq![a[0]] + shared_start(a.skip(1), b.skip(1))
    }
}

/// What all of `items` have in common at their beginning.
pub open spec fn common_start(items: Seq<Seq<char>>) -> Seq<char>
    decreases items.len(),
{
    if items.len() == 0 {
        Seq::empty()
    } else if items.len() == 1 {
        items[0]
    } else {
        shared_start(common_start(items.drop_last()), items.last())
    }
}

proof fn lemma_shared_start(a: Seq<char>, b: Seq<char>, n: int)
    requires
        0 <= n <= a.len(),
        n <= b.len(),
        forall|k: int| 0 <= k < n ==> #[trigger] a[k] == b[k],
        n == a.len() || n == b.len() || a[n] != b[n],
    ensures
        shared_start(a, b) == a.take(n),
    decreases n,
{
    if n > 0 {
        assert(a[0] == b[0]);
        assert forall|k: int| 0 <= k < n - 1 implies #[trigger] a.skip(1)[k] == b.skip(1)[k] by {
            assert(a[k + 1] == b[k + 1]);
        }
        lemma_shared_start(a.skip(1), b.skip(1), n - 1);
        assert(seq![a[0]] + a.skip(1).take(n - 1) == a.take(n));
    } else {
        assert(a.take(0) == Seq::<char>::empty());
    }
}

/// The longest text that begins every one of `items` (nothing for no items).
pub fn longest_common_prefix(items: &Vec<String>) -> (r: String)
    ensures
        begins_all(r@, texts(items@)),
        forall|p: Seq<char>|
            items.len() > 0 && #[trigger] begins_all(p, texts(items@)) ==> p.is_prefix_of(r@),
        r@ == common_start(texts(items@)),
{
    if items.len() == 0 {
        return String::new();
    }
    let ghost t = texts(items@);
    let mut cur: Vec<char> = chars_of(items[0].as_str());
    let mut i: usize = 1;
    proof {
        assert(t[0] == cur@);
        assert(begins_all(cur@, t.take(1))) by {
            assert(cur@.is_prefix_of(cur@));
        }
        assert forall|p: Seq<char>| #[trigger] begins_all(p, t) implies p.is_prefix_of(cur@) by {
            assert(p.is_prefix_of(t[0]));
        }
    }
    while i < items.len()
        invariant
            1 <= i <= items.len(),
            t == texts(items@),
            begins_all(cur@, t.take(i as int)),
            cur@ == common_start(t.take(i as int)),
            forall|p: Seq<char>| #[trigger] begins_all(p, t) ==> p.is_prefix_of(cur@),
        decreases items.len() - i,
    {
        let next = chars_of(items[i].as_str());
        let mut n: usize = 0;
        while n < cur.len() && n < next.len() && cur[n] == next[n]
            invariant
                n <= cur.len(),
                n <= next.len(),
                forall|k: int| 0 <= k < n ==> #[trigger] cur@[k] == next@[k],
            decreases cur.len() - n,
        {
            n += 1;
        }
        let ghost was = cur@;
        cur.truncate(n);
        proof {
            assert(t[i as int] == next@);
            assert(cur@ == was.take(n as int));
            lemma_shared_start(was, next@, n as int);
            assert(t.take(i + 1).drop_last() == t.take(i as int));
            assert(t.take(i + 1).last() == next@);
            assert forall|k: int| 0 <= k < i + 1 implies cur@.is_prefix_of(
                #[trigger] t.take(i + 1)[k],
            ) by {
                if k < i {
                    assert(t.take(i as int)[k] == t.take(i + 1)[k]);
                    assert(was.is_prefix_of(t.take(i as int)[k]));
                } else {
                    assert(cur@ == next@.subrange(0, n as int));
                }
            }
            assert forall|p: Seq<char>| #[trigger] begins_all(p, t) implies p.is_prefix_of(cur@) by {
                assert(p.is_prefix_of(t[i as int]));
                assert(p.is_prefix_of(was));
                if p.len() > n {
                    assert(p[n as int] == was[n as int]);
                    assert(p[n as int] == next@[n as int]);
                }
                assert(p == cur@.subrange(0, p.len() as int));
            }
        }
        i += 1;
    }
    proof {
        assert(t.take(i as int) == t);
    }
    string_of(&cur)
}

} // verus!
