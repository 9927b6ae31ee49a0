//! What the sidebar keeps and shows: recent folders, bookmarks, groups, servers, and
//! which row leads where.

use crate::order_laws::{lemma_precedes_less, precedes};
use crate::palette::without_text;
use crate::palette_laws::{lemma_without_absent, lemma_without_joined};
use crate::paths::{components_of, file_name_of, label_of, same_place, shown_path};
use crate::persist::GroupView;
use crate::places::{holds_place, lemma_without_place, without_place};
use crate::prefs::{Prefs, RECENTS_CAP};
use crate::sidebar::{
    NavKind, RowView, SidebarFacts, SidebarView, bookmarks_section, by_label, cloud_name,
    cloud_section, favorite_rows, favorites_of, favorites_section, group_section, item_row,
    nav_tooltip, recents_section, server_url, servers_section, sidebar_rows,
};
use crate::sorting::{
    comes_first, lemma_arranged_multiset, lemma_key_total, lemma_order_exists, order_of, text_key,
};
use crate::text::{
    found_in, lemma_trimmed_fixpoint, lemma_until, lowercase, occurs_at, trimmed, until, uppercase,
};
use vstd::prelude::*;

verus! {

// ----- recent folders ------------------------------------------------------------------

proof fn lemma_without_absent_place(s: Seq<Seq<char>>, p: Seq<char>)
    requires
        !holds_place(s, p),
    ensures
        without_place(s, p) == s,
    decreases s.len(),
{
    if s.len() > 0 {
        let h = s.drop_last();
        assert(!holds_place(h, p)) by {
            if holds_place(h, p) {
                let i = choose|i: int| 0 <= i < h.len() && same_place(#[trigger] h[i], p);
                assert(same_place(s[i], p));
            }
        }
        lemma_without_absent_place(h, p);
        assert(!same_place(s[s.len() - 1], p));
        assert(h.push(s.last()) =~= s);
    }
}

proof fn lemma_without_place_joined(a: Seq<Seq<char>>, b: Seq<Seq<char>>, p: Seq<char>)
    ensures
        without_place(a + b, p) == without_place(a, p) + without_place(b, p),
    decreases b.len(),
{
    if b.len() == 0 {
        assert(a + b =~= a);
        assert(without_place(a, p) + without_place(b, p) =~= without_place(a, p));
    } else {
        lemma_without_place_joined(a, b.drop_last(), p);
        assert((a + b).drop_last() =~= a + b.drop_last());
        assert(without_place(a + b, p) =~= without_place(a, p) + without_place(b, p));
    }
}

/// A folder that is gone to comes first among the recent ones; the others keep their
/// order, and only the last of too many goes.
pub proof fn law_recents_keep_the_others(
    s: SidebarView,
    a: Seq<Seq<char>>,
    x: Seq<char>,
    b: Seq<Seq<char>>,
    dir: Seq<char>,
)
    requires
        !holds_place(a, dir),
        !holds_place(b, dir),
        same_place(x, dir),
        a.len() + b.len() < RECENTS_CAP,
    ensures
        s.recents == a + seq![x] + b ==> s.visited(dir).recents == seq![dir] + a + b,
        s.recents == a ==> s.visited(dir).recents == seq![dir] + a,
        s.visited(dir).bookmarks == s.bookmarks && s.visited(dir).groups == s.groups,
{
    lemma_without_absent_place(a, dir);
    lemma_without_absent_place(b, dir);
    lemma_without_place_joined(a, seq![x], dir);
    lemma_without_place_joined(a + seq![x], b, dir);
    let one = seq![x];
    assert(without_place(one, dir) =~= Seq::empty()) by {
        assert(one.last() == x);
        assert(one.drop_last().len() == 0);
        reveal_with_fuel(without_place, 2);
    }
    assert(without_place(a + seq![x] + b, dir) =~= a + b);
    assert(seq![dir] + (a + b) =~= seq![dir] + a + b);
}

/// Of a full list of recent folders the last one goes when another folder comes.
pub proof fn law_oldest_recent_goes(s: SidebarView, dir: Seq<char>)
    requires
        !holds_place(s.recents, dir),
        s.recents.len() == RECENTS_CAP,
    ensures
        s.visited(dir).recents == seq![dir] + s.recents.drop_last(),
{
    lemma_without_absent_place(s.recents, dir);
    assert(s.visited(dir).recents =~= seq![dir] + s.recents.drop_last());
}

// ----- bookmarks and groups ------------------------------------------------------------

/// A bookmark is added behind the others, unless it is there; removing it takes out
/// that place alone.
pub proof fn law_bookmarks_come_and_go(s: SidebarView, path: Seq<char>, q: Seq<char>)
    ensures
        !holds_place(s.bookmarks, path) ==> s.bookmarked(path).bookmarks == s.bookmarks.push(path),
        holds_place(s.bookmarks, path) ==> s.bookmarked(path) == s,
        !holds_place(s.unbookmarked(path).bookmarks, path),
        !same_place(q, path) ==> (holds_place(s.unbookmarked(path).bookmarks, q) <==> holds_place(
            s.bookmarks,
            q,
        )),
        !holds_place(s.bookmarks, path) ==> s.unbookmarked(path) == s,
        s.bookmarked(path).groups == s.groups && s.unbookmarked(path).groups == s.groups,
{
    lemma_without_place(s.bookmarks, path);
    if !holds_place(s.bookmarks, path) {
        lemma_without_absent_place(s.bookmarks, path);
    }
}

/// A group is made behind the others under its trimmed name, empty; not where the name
/// is blank or taken.
pub proof fn law_groups_have_names(s: SidebarView, name: Seq<char>)
    ensures
        trimmed(name).len() == 0 ==> s.grouped(name) == s,
        (exists|i: int|
            0 <= i < s.groups.len() && (#[trigger] s.groups[i]).name == trimmed(name))
            ==> s.grouped(name) == s,
        trimmed(name).len() > 0 && (forall|i: int|
            0 <= i < s.groups.len() ==> (#[trigger] s.groups[i]).name != trimmed(name))
            ==> s.grouped(name).groups.len() == s.groups.len() + 1
            && s.grouped(name).groups.drop_last() == s.groups
            && s.grouped(name).groups.last().name == trimmed(name)
            && s.grouped(name).groups.last().paths.len() == 0,
        s.grouped(name).bookmarks == s.bookmarks,
{
    assert(s.groups.push(
        GroupView { name: trimmed(name), paths: Seq::empty() },
    ).drop_last() =~= s.groups);
}

/// A path joins a group behind its members, once; leaving takes it out of that group
/// alone. Deleting a group takes out that group alone.
pub proof fn law_groups_hold_their_members(s: SidebarView, g: int, path: Seq<char>, q: Seq<char>)
    requires
        0 <= g < s.groups.len(),
    ensures
        ({
            let (j, l) = (s.joined_group(g, path), s.left_group(g, path));
            &&& j.groups.len() == s.groups.len() && l.groups.len() == s.groups.len()
            &&& j.groups[g].name == s.groups[g].name && l.groups[g].name == s.groups[g].name
            &&& holds_place(j.groups[g].paths, path)
            &&& !holds_place(s.groups[g].paths, path) ==> j.groups[g].paths
                == s.groups[g].paths.push(path)
            &&& holds_place(s.groups[g].paths, path) ==> j == s
            &&& !holds_place(l.groups[g].paths, path)
            &&& !same_place(q, path) ==> (holds_place(l.groups[g].paths, q) <==> holds_place(
                s.groups[g].paths,
                q,
            ))
            &&& forall|o: int|
                0 <= o < s.groups.len() && o != g ==> #[trigger] j.groups[o] == s.groups[o]
                    && l.groups[o] == s.groups[o]
            &&& s.ungrouped(g).groups == s.groups.remove(g)
            &&& j.bookmarks == s.bookmarks && l.bookmarks == s.bookmarks
        }),
{
    lemma_without_place(s.groups[g].paths, path);
    let j = s.joined_group(g, path);
    if !holds_place(s.groups[g].paths, path) {
        let n = j.groups[g].paths.len();
        assert(same_place(j.groups[g].paths[n - 1], path));
    } else {
        assert(j == s);
    }
}

// ----- servers -------------------------------------------------------------------------

/// The address of a server ends with what was typed, trimmed, and has a scheme: that
/// which was typed, or else that of a Windows share.
pub proof fn law_servers_have_a_scheme(raw: Seq<char>)
    ensures
        exists|k: int|
            0 <= k && k + 3 <= server_url(raw).len() && #[trigger] server_url(raw).subrange(
                k,
                k + 3,
            ) == seq![':', '/', '/'],
        trimmed(raw).is_suffix_of(server_url(raw)),
        (exists|k: int|
            0 <= k && k + 3 <= trimmed(raw).len() && #[trigger] trimmed(raw).subrange(k, k + 3)
                == seq![':', '/', '/']) ==> server_url(raw) == trimmed(raw),
        server_url(raw) != trimmed(raw) ==> server_url(raw) == seq!['s', 'm', 'b', ':', '/', '/']
            + trimmed(raw),
{
    reveal_strlit("://");
    reveal_strlit("smb://");
    let (u, s) = (trimmed(raw), server_url(raw));
    assert("://"@ =~= seq![':', '/', '/']);
    assert("smb://"@ =~= seq!['s', 'm', 'b', ':', '/', '/']);
    if found_in(u, "://"@) {
        let k = choose|k: int| occurs_at(u, k, "://"@);
        assert(u.subrange(k, k + 3) == "://"@);
        assert(u.subrange(0, u.len() as int) =~= u);
    } else {
        assert(s.subrange(3, 6) =~= seq![':', '/', '/']);
        let k = 3int;
        assert(s.subrange(k, k + 3) == seq![':', '/', '/']);
        assert(s.subrange(s.len() - u.len(), s.len() as int) =~= u);
        if exists|k: int|
            0 <= k && k + 3 <= u.len() && #[trigger] u.subrange(k, k + 3) == seq![':', '/', '/'] {
            let k = choose|k: int|
                0 <= k && k + 3 <= u.len() && #[trigger] u.subrange(k, k + 3) == seq![
                    ':',
                    '/',
                    '/',
                ];
            assert(occurs_at(u, k, "://"@));
        }
    }
}

/// A server that is connected to comes first in the list, once; a blank address
/// changes nothing.
pub proof fn law_servers_are_listed_once(s: SidebarView, raw: Seq<char>)
    ensures
        trimmed(raw).len() == 0 ==> s.connected(raw) == s,
        trimmed(raw).len() > 0 && !s.servers.contains(server_url(raw)) && s.servers.len() < 10
            ==> s.connected(raw).servers == seq![server_url(raw)] + s.servers,
        trimmed(raw).len() > 0 && s.servers.len() > 0 && s.servers[0] == server_url(raw)
            && !s.servers.skip(1).contains(server_url(raw)) && s.servers.len() <= 10
            ==> s.connected(raw).servers == s.servers,
{
    let q = server_url(raw);
    if !s.servers.contains(q) {
        lemma_without_absent(s.servers, q);
    }
    if s.servers.len() > 0 && s.servers[0] == q && !s.servers.skip(1).contains(q) {
        let one = seq![q];
        assert(s.servers =~= one + s.servers.skip(1));
        lemma_without_joined(one, s.servers.skip(1), q);
        lemma_without_absent(s.servers.skip(1), q);
        assert(without_text(one, q) =~= Seq::empty()) by {
            assert(one.last() == q);
            assert(one.drop_last().len() == 0);
            reveal_with_fuel(without_text, 2);
        }
        assert(without_text(s.servers, q) =~= s.servers.skip(1));
    }
}

// ----- favorites and clouds ------------------------------------------------------------

/// Whether a favorite stands for an item: for its place, under its label, or under its
/// name where it has none.
pub open spec fn stands_for(f: (Seq<char>, Seq<char>), item: (Seq<char>, Seq<char>)) -> bool {
    &&& f.1 == item.1
    &&& item.0.len() > 0 ==> f.0 == item.0
    &&& item.0.len() == 0 && file_name_of(item.1) is Some ==> Some(f.0) == file_name_of(item.1)
}

/// Whether a favorite stands for one of some items.
pub open spec fn stands_for_one(
    f: (Seq<char>, Seq<char>),
    items: Seq<(Seq<char>, Seq<char>)>,
) -> bool {
    exists|k: int| 0 <= k < items.len() && stands_for(f, #[trigger] items[k])
}

/// Whether a place is among favorites.
pub open spec fn is_listed(favorites: Seq<(Seq<char>, Seq<char>)>, p: Seq<char>) -> bool {
    exists|i: int| 0 <= i < favorites.len() && same_place((#[trigger] favorites[i]).1, p)
}

proof fn lemma_favorites_grow(items: Seq<(Seq<char>, Seq<char>)>)
    requires
        items.len() > 0,
    ensures
        ({
            let (f, g) = (favorites_of(items.drop_last()), favorites_of(items));
            &&& is_listed(f, items.last().1) ==> g == f
            &&& !is_listed(f, items.last().1) ==> g.len() == f.len() + 1 && g.drop_last() == f
                && stands_for(g.last(), items.last())
        }),
{
    let (f, g) = (favorites_of(items.drop_last()), favorites_of(items));
    if !is_listed(f, items.last().1) {
        assert(g.drop_last() =~= f);
    }
}

proof fn lemma_favorites_differ(items: Seq<(Seq<char>, Seq<char>)>, i: int, j: int)
    requires
        0 <= i < j < favorites_of(items).len(),
    ensures
        !same_place(favorites_of(items)[i].1, favorites_of(items)[j].1),
    decreases items.len(),
{
    lemma_favorites_grow(items);
    let (f, g) = (favorites_of(items.drop_last()), favorites_of(items));
    if j < f.len() {
        lemma_favorites_differ(items.drop_last(), i, j);
        assert(g[i] == f[i] && g[j] == f[j]);
    } else {
        assert(g[i] == f[i]);
        assert(g[j] == g.last());
    }
}

proof fn lemma_favorites_list(items: Seq<(Seq<char>, Seq<char>)>, k: int)
    requires
        0 <= k < items.len(),
    ensures
        is_listed(favorites_of(items), items[k].1),
    decreases items.len(),
{
    lemma_favorites_grow(items);
    let (f, g) = (favorites_of(items.drop_last()), favorites_of(items));
    if k < items.len() - 1 {
        lemma_favorites_list(items.drop_last(), k);
        let i = choose|i: int| 0 <= i < f.len() && same_place((#[trigger] f[i]).1, items[k].1);
        assert(g[i] == f[i]);
    } else if !is_listed(f, items.last().1) {
        assert(same_place(g[g.len() - 1].1, items[k].1));
    }
}

proof fn lemma_favorites_stand(items: Seq<(Seq<char>, Seq<char>)>, i: int)
    requires
        0 <= i < favorites_of(items).len(),
    ensures
        stands_for_one(favorites_of(items)[i], items),
    decreases items.len(),
{
    lemma_favorites_grow(items);
    let h = items.drop_last();
    let (f, g) = (favorites_of(h), favorites_of(items));
    if i < f.len() {
        lemma_favorites_stand(h, i);
        assert(g[i] == f[i]);
        let k = choose|k: int| 0 <= k < h.len() && stands_for(f[i], #[trigger] h[k]);
        assert(items[k] == h[k]);
    } else {
        assert(g[i] == g.last());
        assert(stands_for(g[i], items[items.len() - 1]));
    }
}

/// Each favorite is listed once, under its own label, or under its name where it has
/// none.
pub proof fn law_favorites_are_listed_once(items: Seq<(Seq<char>, Seq<char>)>)
    ensures
        forall|i: int, j: int|
            0 <= i < j < favorites_of(items).len() ==> !same_place(
                (#[trigger] favorites_of(items)[i]).1,
                (#[trigger] favorites_of(items)[j]).1,
            ),
        forall|k: int|
            0 <= k < items.len() ==> is_listed(favorites_of(items), (#[trigger] items[k]).1),
        forall|i: int|
            0 <= i < favorites_of(items).len() ==> stands_for_one(
                #[trigger] favorites_of(items)[i],
                items,
            ),
{
    assert forall|i: int, j: int| 0 <= i < j < favorites_of(items).len() implies !same_place(
        (#[trigger] favorites_of(items)[i]).1,
        (#[trigger] favorites_of(items)[j]).1,
    ) by {
        lemma_favorites_differ(items, i, j);
    }
    assert forall|k: int| 0 <= k < items.len() implies is_listed(
        favorites_of(items),
        (#[trigger] items[k]).1,
    ) by {
        lemma_favorites_list(items, k);
    }
    assert forall|i: int| 0 <= i < favorites_of(items).len() implies stands_for_one(
        #[trigger] favorites_of(items)[i],
        items,
    ) by {
        lemma_favorites_stand(items, i);
    }
}

/// Labelled places are sorted by their labels in dictionary order, case aside, and none
/// is lost.
pub proof fn law_labels_are_sorted(s: Seq<(Seq<char>, Seq<char>)>)
    ensures
        by_label(s).to_multiset() == s.to_multiset(),
        forall|i: int, j: int|
            0 <= i < j < by_label(s).len() ==> !precedes(
                lowercase((#[trigger] by_label(s)[j]).0),
                lowercase((#[trigger] by_label(s)[i]).0),
            ),
{
    let keys = s.map_values(|p: (Seq<char>, Seq<char>)| text_key(lowercase(p.0)));
    lemma_order_exists(keys);
    let o = order_of(keys);
    lemma_arranged_multiset(s, o);
    let r = by_label(s);
    assert forall|i: int, j: int| 0 <= i < j < r.len() implies !precedes(
        lowercase((#[trigger] r[j]).0),
        lowercase((#[trigger] r[i]).0),
    ) by {
        assert(comes_first(keys, o[i], o[j]));
        let (x, y) = (lowercase(r[i].0), lowercase(r[j].0));
        assert(keys[o[i]] == text_key(x) && keys[o[j]] == text_key(y));
        lemma_key_total(text_key(x), text_key(y));
        lemma_key_total(text_key(x), text_key(x));
        if precedes(y, x) {
            lemma_precedes_less(y, x, Seq::empty(), Seq::empty());
        }
    }
}

/// A cloud is named by what stands before the first dash of its folder's name, trimmed,
/// with a space put into `GoogleDrive`; a name that begins with the dash stays whole.
pub proof fn law_clouds_lose_their_account(base: Seq<char>, rest: Seq<char>)
    requires
        !base.contains('-'),
        trimmed(base) == base,
        base.len() > 0,
        base != "GoogleDrive"@,
    ensures
        cloud_name(base) == base,
        cloud_name(base + seq!['-'] + rest) == base,
        cloud_name(seq!['-'] + rest) == seq!['-'] + rest,
        cloud_name("GoogleDrive"@ + seq!['-'] + rest) == "Google Drive"@,
{
    reveal_strlit("GoogleDrive");
    let g = "GoogleDrive"@;
    lemma_until(base, '-');
    let raw = base + seq!['-'] + rest;
    lemma_until(raw, '-');
    let i = until(raw, '-') as int;
    assert(raw[base.len() as int] == '-');
    assert(i == base.len()) by {
        if i < base.len() {
            assert(raw[i] == base[i]);
            assert(base.contains(base[i]));
        }
    }
    assert(raw.take(i) =~= base);
    assert(base.take(base.len() as int) =~= base);
    let raw2 = seq!['-'] + rest;
    lemma_until(raw2, '-');
    assert(raw2[0] == '-');
    assert(raw2.take(0) =~= Seq::<char>::empty());
    let raw3 = g + seq!['-'] + rest;
    lemma_until(raw3, '-');
    let j = until(raw3, '-') as int;
    assert(raw3[g.len() as int] == '-');
    assert(g.len() == 11);
    assert(g[0] == 'G' && g[1] == 'o' && g[2] == 'o' && g[3] == 'g' && g[4] == 'l' && g[5] == 'e'
        && g[6] == 'D' && g[7] == 'r' && g[8] == 'i' && g[9] == 'v' && g[10] == 'e');
    assert(j == g.len()) by {
        if j < g.len() {
            assert(raw3[j] == g[j]);
        }
    }
    assert(raw3.take(j) =~= g);
    lemma_trimmed_fixpoint(g);
}

// ----- rows ----------------------------------------------------------------------------

/// A row for a bookmark or a member leads to its path under its label, and is lit where
/// that is the current folder; a file is never lit.
pub proof fn law_rows_lead_to_their_paths(
    path: Seq<char>,
    is_dir: bool,
    kind: NavKind,
    current: Seq<char>,
    home: Seq<char>,
    collapsed: bool,
)
    ensures
        item_row(path, is_dir, kind, current, home, collapsed) matches RowView::Nav {
            label,
            path: p,
            tooltip,
            active,
            icon,
            kind: k,
        } && label == label_of(path) && p == path && k == kind && (active <==> is_dir
            && components_of(path) == components_of(current)) && shown_path(
            path,
            home,
        ).is_suffix_of(tooltip) && (collapsed ==> label_of(path).is_prefix_of(tooltip)),
{
    let (l, s) = (label_of(path), shown_path(path, home));
    let t = nav_tooltip(l, s, collapsed);
    assert(t.subrange(t.len() - s.len(), t.len() as int) =~= s);
    if collapsed {
        assert(t.subrange(0, l.len() as int) =~= l);
    }
}

/// The bookmarks section shows all bookmarks in their order, unless it is folded; the
/// icon rail shows them in any case.
pub proof fn law_bookmarks_are_shown(s: SidebarView, f: SidebarFacts, collapsed: bool)
    requires
        s.bookmarks.len() > 0,
    ensures
        ({
            let r = bookmarks_section(s, f, collapsed);
            let head: int = if collapsed {
                2
            } else {
                1
            };
            &&& !collapsed && s.folded.contains("BOOKMARKS"@) ==> r.len() == 1
            &&& collapsed || !s.folded.contains("BOOKMARKS"@) ==> r.len() == head
                + s.bookmarks.len() && forall|i: int|
                0 <= i < s.bookmarks.len() ==> ((#[trigger] r[head + i]) matches RowView::Nav {
                    label,
                    path,
                    tooltip,
                    active,
                    icon,
                    kind,
                } && path == s.bookmarks[i] && kind == NavKind::Bookmark)
        }),
{
}

/// The recent folders are shown in their order, as many as the settings allow; none of
/// them where that is zero.
pub proof fn law_recents_are_shown(s: SidebarView, f: SidebarFacts, limit: int)
    requires
        s.recents.len() > 0,
        !s.folded.contains("RECENTS"@),
    ensures
        limit <= 0 ==> recents_section(s, f, limit, false).len() == 0,
        limit > 0 ==> ({
            let r = recents_section(s, f, limit, false);
            &&& r.len() - 1 == if s.recents.len() < limit {
                s.recents.len() as int
            } else {
                limit
            }
            &&& forall|i: int|
                0 <= i < r.len() - 1 ==> ((#[trigger] r[1 + i]) matches RowView::Nav {
                    label,
                    path,
                    tooltip,
                    active,
                    icon,
                    kind,
                } && path == s.recents[i] && (active <==> same_place(path, f.current@)))
        }),
{
}

/// Groups are shown only where the settings turn them on.
pub proof fn law_groups_are_optional(s: SidebarView, f: SidebarFacts, p: Prefs)
    ensures
        !p.groups_enabled ==> sidebar_rows(s, f, p) == sidebar_rows(
            SidebarView { groups: Seq::empty(), ..s },
            f,
            p,
        ),
        p.groups_enabled && !p.sidebar_collapsed ==> forall|g: int|
            0 <= g < s.groups.len() ==> ((#[trigger] group_section(s, f, g, false))[0] matches RowView::GroupHeader {
                index,
                title,
                key,
                folded,
            } && index == g && title == uppercase(s.groups[g].name) && (folded
                <==> s.folded.contains(key)) && (folded ==> group_section(s, f, g, false).len()
                == 1) && (!folded && s.groups[g].paths.len() > 0 ==> group_section(
                s,
                f,
                g,
                false,
            ).len() == 1 + s.groups[g].paths.len())),
{
}

/// Whether a row leads to a place by a label.
pub open spec fn leads(r: RowView, label: Seq<char>, to: Seq<char>) -> bool {
    r matches RowView::Nav { label: l, path, .. } && l == label && path == to
}

/// Whether some row leads to a place by a label.
pub open spec fn some_leads(rows: Seq<RowView>, label: Seq<char>, to: Seq<char>) -> bool {
    exists|k: int| 0 <= k < rows.len() && leads(#[trigger] rows[k], label, to)
}

/// Whether a row leads to one of the first `n` favorites that are folders.
pub open spec fn leads_to_one(
    r: RowView,
    favs: Seq<(Seq<char>, Seq<char>)>,
    dirs: Seq<bool>,
    n: int,
) -> bool {
    exists|i: int|
        0 <= i < n && i < dirs.len() && dirs[i] && leads(r, (#[trigger] favs[i]).0, favs[i].1)
}

proof fn lemma_favorite_has_row(
    favs: Seq<(Seq<char>, Seq<char>)>,
    dirs: Seq<bool>,
    n: int,
    f: SidebarFacts,
    collapsed: bool,
    i: int,
)
    requires
        0 <= i < n <= favs.len(),
        i < dirs.len(),
        dirs[i],
    ensures
        some_leads(
            favorite_rows(favs, dirs, n, f.current@, f.home@, collapsed),
            favs[i].0,
            favs[i].1,
        ),
    decreases n,
{
    let h = favorite_rows(favs, dirs, n - 1, f.current@, f.home@, collapsed);
    let r = favorite_rows(favs, dirs, n, f.current@, f.home@, collapsed);
    if i < n - 1 {
        lemma_favorite_has_row(favs, dirs, n - 1, f, collapsed, i);
        let k = choose|k: int| 0 <= k < h.len() && leads(#[trigger] h[k], favs[i].0, favs[i].1);
        assert(r[k] == h[k]);
    } else {
        assert(leads(r[h.len() as int], favs[i].0, favs[i].1));
    }
}

proof fn lemma_row_has_favorite(
    favs: Seq<(Seq<char>, Seq<char>)>,
    dirs: Seq<bool>,
    n: int,
    f: SidebarFacts,
    collapsed: bool,
    k: int,
)
    requires
        0 <= n <= favs.len(),
        0 <= k < favorite_rows(favs, dirs, n, f.current@, f.home@, collapsed).len(),
    ensures
        leads_to_one(
            favorite_rows(favs, dirs, n, f.current@, f.home@, collapsed)[k],
            favs,
            dirs,
            n,
        ),
    decreases n,
{
    let h = favorite_rows(favs, dirs, n - 1, f.current@, f.home@, collapsed);
    let r = favorite_rows(favs, dirs, n, f.current@, f.home@, collapsed);
    if k < h.len() {
        lemma_row_has_favorite(favs, dirs, n - 1, f, collapsed, k);
        assert(r[k] == h[k]);
        let i = choose|i: int|
            0 <= i < n - 1 && i < dirs.len() && dirs[i] && leads(
                h[k],
                (#[trigger] favs[i]).0,
                favs[i].1,
            );
        assert(leads(r[k], favs[i].0, favs[i].1));
    } else {
        assert(leads(r[k], favs[n - 1].0, favs[n - 1].1));
    }
}

/// Each favorite that is still a folder is shown under its label and leads to its place;
/// the others are not shown.
pub proof fn law_living_favorites_are_shown(
    s: SidebarView,
    f: SidebarFacts,
    collapsed: bool,
    i: int,
    k: int,
)
    ensures
        ({
            let r = favorite_rows(
                s.favorites,
                f.favorite_dirs@,
                s.favorites.len() as int,
                f.current@,
                f.home@,
                collapsed,
            );
            &&& 0 <= i < s.favorites.len() && i < f.favorite_dirs@.len() && f.favorite_dirs@[i]
                ==> some_leads(r, s.favorites[i].0, s.favorites[i].1)
            &&& 0 <= k < r.len() ==> leads_to_one(
                r[k],
                s.favorites,
                f.favorite_dirs@,
                s.favorites.len() as int,
            )
            &&& collapsed && s.favorites.len() > 0 ==> favorites_section(s, f, collapsed).skip(1)
                == r
        }),
{
    let n = s.favorites.len() as int;
    let r = favorite_rows(s.favorites, f.favorite_dirs@, n, f.current@, f.home@, collapsed);
    if 0 <= i < n && i < f.favorite_dirs@.len() && f.favorite_dirs@[i] {
        lemma_favorite_has_row(s.favorites, f.favorite_dirs@, n, f, collapsed, i);
    }
    if 0 <= k < r.len() {
        lemma_row_has_favorite(s.favorites, f.favorite_dirs@, n, f, collapsed, k);
    }
    if collapsed && s.favorites.len() > 0 {
        assert(favorites_section(s, f, collapsed).skip(1) =~= r);
    }
}

/// A folded section shows its header alone; in the collapsed sidebar every section is
/// shown, without headers.
pub proof fn law_folded_sections_show_headers(s: SidebarView, f: SidebarFacts, limit: int)
    requires
        limit > 0,
    ensures
        s.folded.contains("FAVORITES"@) ==> favorites_section(s, f, false).len() == 1,
        s.folded.contains("BOOKMARKS"@) ==> bookmarks_section(s, f, false).len() == 1,
        s.folded.contains("RECENTS"@) ==> recents_section(s, f, limit, false).len() == 1,
        s.folded.contains("SERVERS"@) ==> servers_section(s, f, false).len() == 1,
        s.folded.contains("CLOUD"@) && f.cloud@.len() > 0 ==> cloud_section(s, f, false).len() == 1,
        f.cloud@.len() == 0 ==> cloud_section(s, f, false).len() == 0,
        favorites_section(s, f, false)[0] == (RowView::Header {
            title: "FAVORITES"@,
            folded: s.folded.contains("FAVORITES"@),
            plus: false,
        }),
        favorites_section(s, f, true)[0] is Divider,
        servers_section(s, f, true).len() == 4 + f.volumes@.len(),
{
}

/// The section of the computer leads to the root, to the home folder under the name of
/// its owner, and to each volume under its name, and ends with the way to a server.
pub proof fn law_computer_is_shown(s: SidebarView, f: SidebarFacts, i: int)
    requires
        !s.folded.contains("SERVERS"@),
    ensures
        ({
            let r = servers_section(s, f, false);
            &&& r.len() == 4 + f.volumes@.len()
            &&& leads(r[1], "Macintosh HD"@, "/"@)
            &&& leads(r[2], f.user@, f.home@)
            &&& 0 <= i < f.volumes@.len() ==> leads(r[i + 3], f.volumes@[i].0@, f.volumes@[i].1@)
            &&& r.last() is Connect
        }),
{
}

/// In a group only its members are shown, each under its own label; an empty group says
/// how to fill it.
pub proof fn law_groups_show_their_members(s: SidebarView, f: SidebarFacts, g: int, i: int)
    requires
        0 <= g < s.groups.len(),
        !s.folded.contains("group:"@ + s.groups[g].name),
    ensures
        ({
            let r = group_section(s, f, g, false);
            &&& r[0] matches RowView::GroupHeader { index, .. } && index == g
            &&& s.groups[g].paths.len() == 0 ==> r.len() == 2 && r[1] is Hint
            &&& s.groups[g].paths.len() > 0 ==> r.len() == 1 + s.groups[g].paths.len()
            &&& 0 <= i < s.groups[g].paths.len() ==> leads(
                r[i + 1],
                label_of(s.groups[g].paths[i]),
                s.groups[g].paths[i],
            )
        }),
{
}

/// A place is labelled with the last part of its path, and the root as the disk.
pub proof fn law_places_have_labels(p: Seq<char>)
    ensures
        !same_place(p, "/"@) ==> (file_name_of(p) matches Some(n) ==> label_of(p) == n),
        label_of("/"@) == "Macintosh HD"@,
{
    assert(same_place("/"@, "/"@));
}

/// Under the mouse a row shows its path, and its label as well where the label is not on
/// the screen or is the path itself.
pub proof fn law_tooltips_show_the_path(label: Seq<char>, shown: Seq<char>)
    ensures
        nav_tooltip(label, shown, true) == label + "\n"@ + shown,
        label != shown ==> nav_tooltip(label, shown, false) == shown,
        label == shown ==> nav_tooltip(label, shown, false) == label + "\n"@ + shown,
{
}

} // verus!
