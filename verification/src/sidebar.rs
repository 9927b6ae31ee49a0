//! The sidebar: recent folders, bookmarks, groups, servers, and the rows that
//! are shown.

use crate::keymap::Key;
use crate::kinds::{FOLDER_KEY, fav_key};
use crate::palette::{drop_text, up_to, without_text};
use crate::paths::{
    display_path, file_name, file_name_of, join_path, joined_path, label_of, path_label, same_path,
    same_place, shown_path,
};
use crate::persist::{Group, GroupView, groups_view};
use crate::places::{
    drop_place, find_place, holds_place, law_toggle_flips, lemma_without_place, moved_to_front,
    no_repeats, push_recent, without_place,
};
use crate::prefs::{Prefs, RECENTS_CAP};
use crate::sorting::{
    arranged, key_view, keys_view, order_of, orders, positions, push_text, sort_order, text_key,
};
use crate::text::{
    chars_of, concat, contains, find_char, found_in, lowercase, opt_text, owned, piece, same, texts,
    trim, trimmed, until, uppercase,
};
use vstd::prelude::*;

verus! {

/// A place of the system's own sidebar.
pub struct Favorite {
    pub label: String,
    pub path: String,
}

/// A labelled path.
pub open spec fn favorites_view(v: Seq<Favorite>) -> Seq<(Seq<char>, Seq<char>)> {
    v.map_values(|f: Favorite| (f.label@, f.path@))
}

/// The lists behind the sidebar.
pub struct Sidebar {
    pub recents: Vec<String>,
    pub bookmarks: Vec<String>,
    pub favorites: Vec<Favorite>,
    pub groups: Vec<Group>,
    /// The keys of the sections that are folded.
    pub folded: Vec<String>,
    /// Servers that were connected to, newest first.
    pub servers: Vec<String>,
}

/// The mathematical value of the sidebar.
#[verifier::ext_equal]
pub struct SidebarView {
    pub recents: Seq<Seq<char>>,
    pub bookmarks: Seq<Seq<char>>,
    pub favorites: Seq<(Seq<char>, Seq<char>)>,
    pub groups: Seq<GroupView>,
    pub folded: Seq<Seq<char>>,
    pub servers: Seq<Seq<char>>,
}

impl View for Sidebar {
    type V = SidebarView;

    open spec fn view(&self) -> SidebarView {
        SidebarView {
            recents: texts(self.recents@),
            bookmarks: texts(self.bookmarks@),
            favorites: favorites_view(self.favorites@),
            groups: groups_view(self.groups@),
            folded: texts(self.folded@),
            servers: texts(self.servers@),
        }
    }
}

/// Whether a group has the given name.
pub open spec fn has_group(gs: Seq<GroupView>, name: Seq<char>) -> bool {
    exists|i: int| 0 <= i < gs.len() && (#[trigger] gs[i]).name == name
}

/// The address that a server is connected at: SMB unless it names a scheme.
pub open spec fn server_url(raw: Seq<char>) -> Seq<char> {
    let u = trimmed(raw);
    if found_in(u, "://"@) {
        u
    } else {
        "smb://"@ + u
    }
}

/// `s` with `q` in front and nowhere else, and no more than `cap` entries.
pub open spec fn text_to_front(s: Seq<Seq<char>>, q: Seq<char>, cap: int) -> Seq<Seq<char>> {
    up_to(seq![q] + without_text(s, q), cap)
}

impl SidebarView {
    /// With a folder in front of the recent ones.
    pub open spec fn visited(self, dir: Seq<char>) -> SidebarView {
        SidebarView { recents: moved_to_front(self.recents, dir, RECENTS_CAP as int), ..self }
    }

    /// With a path among the bookmarks, once.
    pub open spec fn bookmarked(self, path: Seq<char>) -> SidebarView {
        if holds_place(self.bookmarks, path) {
            self
        } else {
            SidebarView { bookmarks: self.bookmarks.push(path), ..self }
        }
    }

    /// Without a bookmark.
    pub open spec fn unbookmarked(self, path: Seq<char>) -> SidebarView {
        SidebarView { bookmarks: without_place(self.bookmarks, path), ..self }
    }

    /// With a new group, unless its name is blank or taken.
    pub open spec fn grouped(self, name: Seq<char>) -> SidebarView {
        let n = trimmed(name);
        if n.len() == 0 || has_group(self.groups, n) {
            self
        } else {
            SidebarView {
                groups: self.groups.push(GroupView { name: n, paths: Seq::empty() }),
                ..self
            }
        }
    }

    /// Without group `g`.
    pub open spec fn ungrouped(self, g: int) -> SidebarView {
        if g < self.groups.len() {
            SidebarView { groups: self.groups.remove(g), ..self }
        } else {
            self
        }
    }

    /// With the paths of group `g` replaced.
    pub open spec fn with_members(self, g: int, paths: Seq<Seq<char>>) -> SidebarView {
        SidebarView {
            groups: self.groups.update(g, GroupView { paths, ..self.groups[g] }),
            ..self
        }
    }

    /// With a path in group `g`, once.
    pub open spec fn joined_group(self, g: int, path: Seq<char>) -> SidebarView {
        if g < self.groups.len() && !holds_place(self.groups[g].paths, path) {
            self.with_members(g, self.groups[g].paths.push(path))
        } else {
            self
        }
    }

    /// Without a path of group `g`.
    pub open spec fn left_group(self, g: int, path: Seq<char>) -> SidebarView {
        if g < self.groups.len() {
            self.with_members(g, without_place(self.groups[g].paths, path))
        } else {
            self
        }
    }

    /// With a section folded that was not, or unfolded that was.
    pub open spec fn folding(self, key: Seq<char>) -> SidebarView {
        SidebarView {
            folded: if self.folded.contains(key) {
                without_text(self.folded, key)
            } else {
                self.folded.push(key)
            },
            ..self
        }
    }

    /// With a server in front of the ones connected to, unless its address is
    /// blank.
    pub open spec fn connected(self, raw: Seq<char>) -> SidebarView {
        if trimmed(raw).len() == 0 {
            self
        } else {
            SidebarView { servers: text_to_front(self.servers, server_url(raw), 10), ..self }
        }
    }
}

/// The position of a text in a list.
pub fn find_text(v: &Vec<String>, q: &str) -> (r: Option<usize>)
    ensures
        r is Some == texts(v@).contains(q@),
        r matches Some(i) ==> i < v.len() && v@[i as int]@ == q@,
{
    let mut i: usize = 0;
    while i < v.len()
        invariant
            i <= v.len(),
            forall|k: int| 0 <= k < i ==> #[trigger] texts(v@)[k] != q@,
        decreases v.len() - i,
    {
        if same(v[i].as_str(), q) {
            proof {
                assert(texts(v@)[i as int] == q@);
            }
            return Some(i);
        }
        i += 1;
    }
    None
}

impl Sidebar {
    /// Puts a folder in front of the recent ones.
    pub fn visit(&mut self, dir: &str)
        ensures
            final(self)@ == old(self)@.visited(dir@),
    {
        let r = push_recent(&self.recents, dir, RECENTS_CAP);
        self.recents = r;
    }

    /// Pins a path to the bookmarks; returns whether it was not pinned yet.
    pub fn bookmark_path(&mut self, path: &str) -> (r: bool)
        ensures
            final(self)@ == old(self)@.bookmarked(path@),
            r == !holds_place(old(self)@.bookmarks, path@),
    {
        if find_place(&self.bookmarks, path).is_some() {
            return false;
        }
        self.bookmarks.push(owned(path));
        proof {
            assert(texts(self.bookmarks@) =~= old(self)@.bookmarks.push(path@));
        }
        true
    }

    /// Takes a path out of the bookmarks; returns whether it was there.
    pub fn remove_bookmark(&mut self, path: &str) -> (r: bool)
        ensures
            final(self)@ == old(self)@.unbookmarked(path@),
            r == holds_place(old(self)@.bookmarks, path@),
    {
        let there = find_place(&self.bookmarks, path).is_some();
        let rest = drop_place(&self.bookmarks, path);
        self.bookmarks = rest;
        there
    }

    /// Makes a group; returns whether it did.
    pub fn create_group(&mut self, name: &str) -> (r: bool)
        ensures
            final(self)@ == old(self)@.grouped(name@),
            r == (trimmed(name@).len() > 0 && !has_group(old(self)@.groups, trimmed(name@))),
    {
        let n = trim(name);
        if n.as_str().is_empty() {
            return false;
        }
        let mut i: usize = 0;
        while i < self.groups.len()
            invariant
                i <= self.groups.len(),
                self@ == old(self)@,
                n@ == trimmed(name@),
                n@.len() > 0,
                forall|k: int| 0 <= k < i ==> (#[trigger] self@.groups[k]).name != n@,
            decreases self.groups.len() - i,
        {
            if same(self.groups[i].name.as_str(), n.as_str()) {
                proof {
                    assert(self@.groups[i as int].name == n@);
                }
                return false;
            }
            i += 1;
        }
        let g = Group { name: n, paths: Vec::new() };
        proof {
            assert(g@.paths =~= Seq::<Seq<char>>::empty());
            assert(groups_view(self.groups@.push(g)) =~= self@.groups.push(g@));
        }
        self.groups.push(g);
        true
    }

    /// Deletes a group; returns whether there was one.
    pub fn delete_group(&mut self, g: usize) -> (r: bool)
        ensures
            final(self)@ == old(self)@.ungrouped(g as int),
            r == (g < old(self)@.groups.len()),
    {
        if g < self.groups.len() {
            let _ = self.groups.remove(g);
            proof {
                assert(groups_view(self.groups@) =~= old(self)@.groups.remove(g as int));
            }
            true
        } else {
            false
        }
    }

    /// Adds a path to a group; returns whether it was not in it yet.
    pub fn add_to_group(&mut self, g: usize, path: &str) -> (r: bool)
        ensures
            final(self)@ == old(self)@.joined_group(g as int, path@),
            r == (g < old(self)@.groups.len() && !holds_place(
                old(self)@.groups[g as int].paths,
                path@,
            )),
    {
        if g >= self.groups.len() {
            return false;
        }
        proof {
            assert(self@.groups[g as int] == self.groups@[g as int]@);
        }
        if find_place(&self.groups[g].paths, path).is_some() {
            return false;
        }
        self.groups[g].paths.push(owned(path));
        proof {
            let was = old(self)@.groups[g as int];
            assert(texts(self.groups@[g as int].paths@) =~= was.paths.push(path@));
            assert(groups_view(self.groups@) =~= old(self)@.groups.update(
                g as int,
                GroupView { paths: was.paths.push(path@), ..was },
            ));
        }
        true
    }

    /// Takes a path out of a group; returns whether it was in it.
    pub fn remove_from_group(&mut self, g: usize, path: &str) -> (r: bool)
        ensures
            final(self)@ == old(self)@.left_group(g as int, path@),
            r == (g < old(self)@.groups.len() && holds_place(
                old(self)@.groups[g as int].paths,
                path@,
            )),
    {
        if g >= self.groups.len() {
            return false;
        }
        proof {
            assert(self@.groups[g as int] == self.groups@[g as int]@);
        }
        let there = find_place(&self.groups[g].paths, path).is_some();
        let rest = drop_place(&self.groups[g].paths, path);
        self.groups[g].paths = rest;
        proof {
            let was = old(self)@.groups[g as int];
            assert(groups_view(self.groups@) =~= old(self)@.groups.update(
                g as int,
                GroupView { paths: without_place(was.paths, path@), ..was },
            ));
        }
        there
    }

    /// Folds a section, or unfolds it.
    pub fn toggle_section(&mut self, key: &str)
        ensures
            final(self)@ == old(self)@.folding(key@),
    {
        if find_text(&self.folded, key).is_some() {
            let rest = drop_text(&self.folded, key);
            self.folded = rest;
        } else {
            self.folded.push(owned(key));
            proof {
                assert(texts(self.folded@) =~= old(self)@.folded.push(key@));
            }
        }
    }

    /// Whether a section is folded.
    pub fn is_folded(&self, key: &str) -> (r: bool)
        ensures
            r == self@.folded.contains(key@),
    {
        find_text(&self.folded, key).is_some()
    }

    /// Notes a server that is connected to; returns the address to open, unless
    /// what was typed is blank.
    pub fn connect_to_server(&mut self, raw: &str) -> (r: Option<String>)
        ensures
            final(self)@ == old(self)@.connected(raw@),
            opt_text(r) == (if trimmed(raw@).len() == 0 {
                None
            } else {
                Some(server_url(raw@))
            }),
    {
        let u = trim(raw);
        if u.as_str().is_empty() {
            return None;
        }
        let url: String = if contains(u.as_str(), "://") {
            u
        } else {
            concat("smb://", u.as_str())
        };
        let mut list = drop_text(&self.servers, url.as_str());
        list.insert(0, url.clone());
        proof {
            assert(texts(list@) =~= seq![url@] + without_text(self@.servers, url@));
        }
        if list.len() > 10 {
            let ghost before = texts(list@);
            list.truncate(10);
            proof {
                assert(texts(list@) =~= before.take(10));
            }
        }
        self.servers = list;
        Some(url)
    }
}

/// A path that was not bookmarked and is bookmarked and taken out again leaves
/// the bookmarks as they were.
pub proof fn law_bookmark_then_remove(s: SidebarView, path: Seq<char>)
    requires
        !holds_place(s.bookmarks, path),
    ensures
        s.bookmarked(path).unbookmarked(path) == s,
        holds_place(s.bookmarked(path).bookmarks, path),
{
    let b = s.bookmarks.push(path);
    assert(b.drop_last() == s.bookmarks);
    assert(b[s.bookmarks.len() as int] == path);
    lemma_without_place(s.bookmarks, path);
}

/// Bookmarks never hold a place twice.
pub proof fn law_bookmarks_do_not_repeat(s: SidebarView, path: Seq<char>)
    requires
        no_repeats(s.bookmarks),
    ensures
        no_repeats(s.bookmarked(path).bookmarks),
        no_repeats(s.unbookmarked(path).bookmarks),
{
    lemma_without_place(s.bookmarks, path);
    law_toggle_flips(s.bookmarks, path, path);
}

/// Folding a section twice leaves it as it was.
pub proof fn law_fold_twice(s: SidebarView, key: Seq<char>)
    requires
        !s.folded.contains(key),
    ensures
        s.folding(key).folding(key) == s,
        s.folding(key).folded.contains(key),
{
    let f = s.folded.push(key);
    assert(f[s.folded.len() as int] == key);
    assert(f.drop_last() == s.folded);
    lemma_without_text_absent(s.folded, key);
}

proof fn lemma_without_text_absent(s: Seq<Seq<char>>, q: Seq<char>)
    requires
        !s.contains(q),
    ensures
        without_text(s, q) == s,
    decreases s.len(),
{
    if s.len() > 0 {
        let h = s.drop_last();
        if h.contains(q) {
            let k = choose|k: int| 0 <= k < h.len() && h[k] == q;
            assert(s[k] == q);
        }
        lemma_without_text_absent(h, q);
        assert(s[s.len() - 1] != q) by {
            if s[s.len() - 1] == q {
                assert(s.contains(q));
            }
        }
        assert(h.push(s.last()) == s);
    }
}

/// Servers are kept newest first, at most ten of them.
pub proof fn law_servers_are_bounded(s: SidebarView, raw: Seq<char>)
    requires
        trimmed(raw).len() > 0,
    ensures
        s.connected(raw).servers.len() <= 10,
        s.connected(raw).servers[0] == server_url(raw),
{
}

// ----- where the lists come from -------------------------------------------------------

/// The favorites among items of the system's sidebar: each place once, an item
/// without a label named by its path.
pub open spec fn favorites_of(items: Seq<(Seq<char>, Seq<char>)>) -> Seq<(Seq<char>, Seq<char>)>
    decreases items.len(),
{
    if items.len() == 0 {
        Seq::empty()
    } else {
        let head = favorites_of(items.drop_last());
        let (label, path) = items.last();
        if exists|k: int| 0 <= k < head.len() && same_place((#[trigger] head[k]).1, path) {
            head
        } else {
            head.push(
                (
                    if label.len() == 0 {
                        match file_name_of(path) {
                            Some(n) => n,
                            None => path,
                        }
                    } else {
                        label
                    },
                    path,
                ),
            )
        }
    }
}

/// Labelled paths, as characters.
pub open spec fn labelled_view(v: Seq<(String, String)>) -> Seq<(Seq<char>, Seq<char>)> {
    v.map_values(|p: (String, String)| (p.0@, p.1@))
}

/// Picks the favorites among items of the system's sidebar.
pub fn collect_favorites(items: &Vec<(String, String)>) -> (r: Vec<Favorite>)
    ensures
        favorites_view(r@) == favorites_of(labelled_view(items@)),
{
    let mut out: Vec<Favorite> = Vec::new();
    let mut i: usize = 0;
    while i < items.len()
        invariant
            i <= items.len(),
            favorites_view(out@) == favorites_of(labelled_view(items@).take(i as int)),
        decreases items.len() - i,
    {
        let ghost lv = labelled_view(items@);
        proof {
            assert(lv.take(i + 1).drop_last() == lv.take(i as int));
            assert(lv.take(i + 1).last() == (items@[i as int].0@, items@[i as int].1@));
        }
        let ghost head = favorites_view(out@);
        let mut seen = false;
        let mut k: usize = 0;
        while k < out.len()
            invariant
                k <= out.len(),
                i < items.len(),
                head == favorites_view(out@),
                seen == exists|t: int|
                    0 <= t < k && same_place((#[trigger] head[t]).1, items@[i as int].1@),
            decreases out.len() - k,
        {
            if same_path(out[k].path.as_str(), items[i].1.as_str()) {
                proof {
                    assert(same_place(head[k as int].1, items@[i as int].1@));
                }
                seen = true;
            }
            k += 1;
        }
        if !seen {
            let label: String = if items[i].0.as_str().is_empty() {
                match file_name(items[i].1.as_str()) {
                    Some(n) => n,
                    None => items[i].1.clone(),
                }
            } else {
                items[i].0.clone()
            };
            let f = Favorite { label, path: items[i].1.clone() };
            proof {
                assert(favorites_view(out@.push(f)) =~= head.push((f.label@, f.path@)));
            }
            out.push(f);
        }
        i += 1;
    }
    proof {
        assert(labelled_view(items@).take(i as int) == labelled_view(items@));
    }
    out
}

/// A friendly name for a folder of synced cloud storage: what stands before the
/// first dash.
pub open spec fn cloud_name(raw: Seq<char>) -> Seq<char> {
    let base = trimmed(raw.take(until(raw, '-') as int));
    if base == "GoogleDrive"@ {
        "Google Drive"@
    } else if base.len() == 0 {
        raw
    } else {
        base
    }
}

/// A friendly name for a folder of synced cloud storage.
pub fn pretty_cloud_name(raw: &str) -> (r: String)
    ensures
        r@ == cloud_name(raw@),
{
    let cs = chars_of(raw);
    let i = find_char(&cs, 0, '-');
    let head = piece(&cs, 0, i);
    proof {
        assert(cs@.skip(0) == cs@);
        assert(head@ == raw@.take(until(raw@, '-') as int));
    }
    let base = trim(head.as_str());
    if same(base.as_str(), "GoogleDrive") {
        owned("Google Drive")
    } else if base.as_str().is_empty() {
        owned(raw)
    } else {
        base
    }
}

/// Labelled paths sorted by label, case aside.
pub open spec fn by_label(s: Seq<(Seq<char>, Seq<char>)>) -> Seq<(Seq<char>, Seq<char>)> {
    arranged(
        s,
        order_of(s.map_values(|p: (Seq<char>, Seq<char>)| text_key(lowercase(p.0)))),
    )
}

/// Sorts labelled paths by label, case aside.
pub fn sort_labelled(v: &Vec<(String, String)>) -> (r: Vec<(String, String)>)
    ensures
        labelled_view(r@) == by_label(labelled_view(v@)),
{
    let ghost s = labelled_view(v@);
    let ghost want = s.map_values(|p: (Seq<char>, Seq<char>)| text_key(lowercase(p.0)));
    let mut keys: Vec<Vec<i128>> = Vec::new();
    let mut i: usize = 0;
    while i < v.len()
        invariant
            i <= v.len(),
            s == labelled_view(v@),
            want == s.map_values(|p: (Seq<char>, Seq<char>)| text_key(lowercase(p.0))),
            keys_view(keys@) == want.take(i as int),
        decreases v.len() - i,
    {
        let mut k: Vec<i128> = Vec::new();
        let low = v[i].0.to_lowercase();
        push_text(&mut k, low.as_str());
        proof {
            assert(key_view(k@) =~= want[i as int]);
            assert(keys_view(keys@.push(k)) == keys_view(keys@).push(key_view(k@)));
            assert(want.take(i + 1) =~= want.take(i as int).push(key_view(k@)));
        }
        keys.push(k);
        i += 1;
    }
    proof {
        assert(want.take(i as int) =~= want);
        assert(keys_view(keys@).len() == keys@.len());
    }
    let order = sort_order(&keys);
    let ghost o = positions(order@);
    let mut out: Vec<(String, String)> = Vec::new();
    let mut j: usize = 0;
    while j < order.len()
        invariant
            j <= order.len(),
            s == labelled_view(v@),
            o == positions(order@),
            orders(want, o, 0, v.len() as int),
            labelled_view(out@) == arranged(s, o.take(j as int)),
        decreases order.len() - j,
    {
        proof {
            assert(o[j as int] == order@[j as int]);
            assert(0 <= o[j as int] < v.len());
        }
        let at: usize = order[j];
        let c = (v[at].0.clone(), v[at].1.clone());
        proof {
            assert(labelled_view(out@.push(c)) == labelled_view(out@).push((c.0@, c.1@)));
            assert(arranged(s, o.take(j + 1)) =~= arranged(s, o.take(j as int)).push(
                (c.0@, c.1@),
            ));
        }
        out.push(c);
        j += 1;
    }
    proof {
        assert(o.take(j as int) =~= o);
    }
    out
}

/// The folders of the cloud providers, with labels.
pub open spec fn provider_places(providers: Seq<Seq<char>>) -> Seq<(Seq<char>, Seq<char>)> {
    providers.map_values(
        |p: Seq<char>|
            (
                cloud_name(
                    match file_name_of(p) {
                        Some(n) => n,
                        None => Seq::empty(),
                    },
                ),
                p,
            ),
    )
}

/// iCloud, if it is there, and then the providers by name.
pub open spec fn named_clouds(home: Seq<char>, icloud: bool, providers: Seq<Seq<char>>) -> Seq<
    (Seq<char>, Seq<char>),
> {
    (if icloud {
        seq![
            (
                "iCloud Drive"@,
                joined_path(home, "Library/Mobile Documents/com~apple~CloudDocs"@),
            ),
        ]
    } else {
        Seq::empty()
    }) + by_label(provider_places(providers))
}

/// Whether a label is among labelled paths.
pub open spec fn has_label(v: Seq<(Seq<char>, Seq<char>)>, label: Seq<char>) -> bool {
    exists|i: int| 0 <= i < v.len() && (#[trigger] v[i]).0 == label
}

/// The folders that cloud storage is synced to, with labels: iCloud first, then
/// the providers by name, then an old Dropbox folder unless a provider is named
/// so.
pub open spec fn cloud_places(
    home: Seq<char>,
    icloud: bool,
    providers: Seq<Seq<char>>,
    dropbox: bool,
) -> Seq<(Seq<char>, Seq<char>)> {
    let named = named_clouds(home, icloud, providers);
    if dropbox && !has_label(named, "Dropbox"@) {
        named.push(("Dropbox"@, joined_path(home, "Dropbox"@)))
    } else {
        named
    }
}

/// Puts together the cloud folders: `icloud` and `dropbox` say whether those
/// folders exist, `providers` are the folders of cloud storage.
pub fn cloud_locations(home: &str, icloud: bool, providers: &Vec<String>, dropbox: bool) -> (r: Vec<
    (String, String),
>)
    ensures
        labelled_view(r@) == cloud_places(home@, icloud, texts(providers@), dropbox),
{
    let ghost want = provider_places(texts(providers@));
    let mut named: Vec<(String, String)> = Vec::new();
    let mut i: usize = 0;
    while i < providers.len()
        invariant
            i <= providers.len(),
            want == provider_places(texts(providers@)),
            labelled_view(named@) == want.take(i as int),
        decreases providers.len() - i,
    {
        let raw: String = match file_name(providers[i].as_str()) {
            Some(n) => n,
            None => String::new(),
        };
        let c = (pretty_cloud_name(raw.as_str()), providers[i].clone());
        proof {
            assert(raw@ =~= (match file_name_of(providers@[i as int]@) {
                Some(n) => n,
                None => Seq::empty(),
            }));
            assert(want[i as int] == (c.0@, c.1@));
            assert(labelled_view(named@.push(c)) == labelled_view(named@).push((c.0@, c.1@)));
            assert(want.take(i + 1) =~= want.take(i as int).push((c.0@, c.1@)));
        }
        named.push(c);
        i += 1;
    }
    proof {
        assert(want.take(i as int) =~= want);
    }
    let mut sorted = sort_labelled(&named);
    let ghost tail = labelled_view(sorted@);
    if icloud {
        let c = (
            owned("iCloud Drive"),
            join_path(home, "Library/Mobile Documents/com~apple~CloudDocs"),
        );
        sorted.insert(0, c);
        proof {
            assert(labelled_view(sorted@) =~= seq![(c.0@, c.1@)] + tail);
        }
    } else {
        proof {
            assert(labelled_view(sorted@) =~= Seq::<(Seq<char>, Seq<char>)>::empty() + tail);
        }
    }
    if dropbox {
        let ghost all = labelled_view(sorted@);
        let mut taken = false;
        let mut k: usize = 0;
        while k < sorted.len()
            invariant
                k <= sorted.len(),
                all == labelled_view(sorted@),
                taken ==> has_label(all, "Dropbox"@),
                !taken ==> forall|t: int| 0 <= t < k ==> (#[trigger] all[t]).0 != "Dropbox"@,
            decreases sorted.len() - k,
        {
            if same(sorted[k].0.as_str(), "Dropbox") {
                proof {
                    assert(all[k as int].0 == "Dropbox"@);
                }
                taken = true;
            }
            k += 1;
        }
        if !taken {
            let c = (owned("Dropbox"), join_path(home, "Dropbox"));
            proof {
                assert(labelled_view(sorted@.push(c)) =~= all.push((c.0@, c.1@)));
            }
            sorted.push(c);
        }
    }
    sorted
}

// ----- the rows ------------------------------------------------------------------------

/// What a row that leads somewhere stands for.
#[derive(Clone, Copy, PartialEq, Eq, Structural, Debug)]
pub enum NavKind {
    /// A place that is always a folder.
    Place,
    /// A bookmark, a folder or a file.
    Bookmark,
    /// A member of a group.
    Member(usize),
}

/// The icon of a row.
pub enum NavIcon {
    /// A cached icon.
    Key(String),
    /// The icon for the type of the target; the flag says whether it is a folder.
    Target(bool),
}

/// A row of the sidebar.
pub enum SidebarRow {
    /// The switch between the full sidebar and icons only.
    Switch { collapsed: bool },
    /// The title of a section; `plus` adds the button that pins a folder.
    Header { title: String, folded: bool, plus: bool },
    /// The title of a group.
    GroupHeader { index: usize, title: String, key: String, folded: bool },
    /// A line between sections.
    Divider,
    /// The button that pins the current folder.
    Plus,
    /// A hint in place of rows.
    Hint { text: String },
    /// A row that leads somewhere.
    Nav { label: String, path: String, tooltip: String, active: bool, icon: NavIcon, kind: NavKind },
    /// The row that connects to a server.
    Connect,
}

/// The icon of a row, with texts as characters.
#[verifier::ext_equal]
pub enum IconView {
    Key(Seq<char>),
    Target(bool),
}

/// A row of the sidebar, with texts as characters.
#[verifier::ext_equal]
pub enum RowView {
    Switch { collapsed: bool },
    Header { title: Seq<char>, folded: bool, plus: bool },
    GroupHeader { index: int, title: Seq<char>, key: Seq<char>, folded: bool },
    Divider,
    Plus,
    Hint { text: Seq<char> },
    Nav {
        label: Seq<char>,
        path: Seq<char>,
        tooltip: Seq<char>,
        active: bool,
        icon: IconView,
        kind: NavKind,
    },
    Connect,
}

impl View for NavIcon {
    type V = IconView;

    open spec fn view(&self) -> IconView {
        match self {
            NavIcon::Key(k) => IconView::Key(k@),
            NavIcon::Target(d) => IconView::Target(*d),
        }
    }
}

impl View for SidebarRow {
    type V = RowView;

    open spec fn view(&self) -> RowView {
        match self {
            SidebarRow::Switch { collapsed } => RowView::Switch { collapsed: *collapsed },
            SidebarRow::Header { title, folded, plus } => RowView::Header {
                title: title@,
                folded: *folded,
                plus: *plus,
            },
            SidebarRow::GroupHeader { index, title, key, folded } => RowView::GroupHeader {
                index: *index as int,
                title: title@,
                key: key@,
                folded: *folded,
            },
            SidebarRow::Divider => RowView::Divider,
            SidebarRow::Plus => RowView::Plus,
            SidebarRow::Hint { text } => RowView::Hint { text: text@ },
            SidebarRow::Nav { label, path, tooltip, active, icon, kind } => RowView::Nav {
                label: label@,
                path: path@,
                tooltip: tooltip@,
                active: *active,
                icon: icon@,
                kind: *kind,
            },
            SidebarRow::Connect => RowView::Connect,
        }
    }
}

/// Rows of the sidebar, with texts as characters.
pub open spec fn side_rows(v: Seq<SidebarRow>) -> Seq<RowView> {
    v.map_values(|r: SidebarRow| r@)
}

/// What the rows depend on besides the lists: the folder that is shown, the home
/// folder and its owner, which paths are folders, and what is mounted.
pub struct SidebarFacts {
    pub current: String,
    pub home: String,
    pub user: String,
    pub favorite_dirs: Vec<bool>,
    pub bookmark_dirs: Vec<bool>,
    pub member_dirs: Vec<Vec<bool>>,
    pub cloud: Vec<(String, String)>,
    pub volumes: Vec<(String, String)>,
}

/// Whether a list of flags says so for `i`.
pub open spec fn flagged(v: Seq<bool>, i: int) -> bool {
    0 <= i < v.len() && v[i]
}

fn flag(v: &Vec<bool>, i: usize) -> (r: bool)
    ensures
        r == flagged(v@, i as int),
{
    i < v.len() && v[i]
}

/// The text shown for a row under the mouse.
pub open spec fn nav_tooltip(label: Seq<char>, shown: Seq<char>, collapsed: bool) -> Seq<char> {
    if collapsed || shown == label {
        label + "\n"@ + shown
    } else {
        shown
    }
}

/// A row that leads to a place.
pub open spec fn nav_row(
    label: Seq<char>,
    path: Seq<char>,
    icon: IconView,
    kind: NavKind,
    active: bool,
    home: Seq<char>,
    collapsed: bool,
) -> RowView {
    RowView::Nav {
        label,
        path,
        tooltip: nav_tooltip(label, shown_path(path, home), collapsed),
        active,
        icon,
        kind,
    }
}

fn nav(
    label: String,
    path: &str,
    icon: NavIcon,
    kind: NavKind,
    active: bool,
    home: &str,
    collapsed: bool,
) -> (r: SidebarRow)
    ensures
        r@ == nav_row(label@, path@, icon@, kind, active, home@, collapsed),
{
    let shown = display_path(path, home);
    let tooltip: String = if collapsed || same(shown.as_str(), label.as_str()) {
        concat(concat(label.as_str(), "\n").as_str(), shown.as_str())
    } else {
        shown
    };
    SidebarRow::Nav { label, path: owned(path), tooltip, active, icon, kind }
}

/// The row of a place that is always a folder.
pub open spec fn place_row(
    label: Seq<char>,
    path: Seq<char>,
    icon: Seq<char>,
    current: Seq<char>,
    home: Seq<char>,
    collapsed: bool,
) -> RowView {
    nav_row(
        label,
        path,
        IconView::Key(icon),
        NavKind::Place,
        same_place(path, current),
        home,
        collapsed,
    )
}

fn place(label: String, path: &str, icon: String, f: &SidebarFacts, collapsed: bool) -> (r:
    SidebarRow)
    ensures
        r@ == place_row(label@, path@, icon@, f.current@, f.home@, collapsed),
{
    let active = same_path(path, f.current.as_str());
    nav(label, path, NavIcon::Key(icon), NavKind::Place, active, f.home.as_str(), collapsed)
}

/// The row of a bookmark or of a member of a group.
pub open spec fn item_row(
    path: Seq<char>,
    is_dir: bool,
    kind: NavKind,
    current: Seq<char>,
    home: Seq<char>,
    collapsed: bool,
) -> RowView {
    nav_row(
        label_of(path),
        path,
        IconView::Target(is_dir),
        kind,
        is_dir && same_place(path, current),
        home,
        collapsed,
    )
}

fn item(path: &str, is_dir: bool, kind: NavKind, f: &SidebarFacts, collapsed: bool) -> (r:
    SidebarRow)
    ensures
        r@ == item_row(path@, is_dir, kind, f.current@, f.home@, collapsed),
{
    let active = is_dir && same_path(path, f.current.as_str());
    nav(path_label(path), path, NavIcon::Target(is_dir), kind, active, f.home.as_str(), collapsed)
}

/// How a section begins: a line among icons, else its title.
pub open spec fn section_start(title: Seq<char>, collapsed: bool, folded: Seq<Seq<char>>) -> RowView {
    if collapsed {
        RowView::Divider
    } else {
        RowView::Header { title, folded: folded.contains(title), plus: false }
    }
}

/// Whether the rows of a section are shown.
pub open spec fn section_shown(title: Seq<char>, collapsed: bool, folded: Seq<Seq<char>>) -> bool {
    collapsed || !folded.contains(title)
}

fn begin_section(side: &Sidebar, title: &str, collapsed: bool, out: &mut Vec<SidebarRow>) -> (r:
    bool)
    ensures
        side_rows(final(out)@) == side_rows(old(out)@).push(
            section_start(title@, collapsed, side@.folded),
        ),
        r == section_shown(title@, collapsed, side@.folded),
{
    let ghost before = side_rows(out@);
    let folded = side.is_folded(title);
    let row: SidebarRow = if collapsed {
        SidebarRow::Divider
    } else {
        SidebarRow::Header { title: owned(title), folded, plus: false }
    };
    out.push(row);
    proof {
        assert(side_rows(out@) =~= before.push(row@));
    }
    collapsed || !folded
}

fn push_hint(out: &mut Vec<SidebarRow>, text: &str)
    ensures
        side_rows(final(out)@) == side_rows(old(out)@).push(RowView::Hint { text: text@ }),
{
    let ghost before = side_rows(out@);
    let row = SidebarRow::Hint { text: owned(text) };
    out.push(row);
    proof {
        assert(side_rows(out@) =~= before.push(row@));
    }
}

/// The rows of the first `n` favorites that are folders.
pub open spec fn favorite_rows(
    favs: Seq<(Seq<char>, Seq<char>)>,
    dirs: Seq<bool>,
    n: int,
    current: Seq<char>,
    home: Seq<char>,
    collapsed: bool,
) -> Seq<RowView>
    decreases n,
{
    if n <= 0 {
        Seq::empty()
    } else {
        let head = favorite_rows(favs, dirs, n - 1, current, home, collapsed);
        if flagged(dirs, n - 1) {
            let f = favs[n - 1];
            head.push(place_row(f.0, f.1, f.1, current, home, collapsed))
        } else {
            head
        }
    }
}

/// The section of favorites.
pub open spec fn favorites_section(s: SidebarView, f: SidebarFacts, collapsed: bool) -> Seq<RowView> {
    seq![section_start("FAVORITES"@, collapsed, s.folded)] + (if section_shown(
        "FAVORITES"@,
        collapsed,
        s.folded,
    ) {
        (if s.favorites.len() == 0 && !collapsed {
            seq![RowView::Hint { text: "No Finder favorites"@ }]
        } else {
            Seq::empty()
        }) + favorite_rows(
            s.favorites,
            f.favorite_dirs@,
            s.favorites.len() as int,
            f.current@,
            f.home@,
            collapsed,
        )
    } else {
        Seq::empty()
    })
}

/// The rows of the first `n` bookmarks or members.
pub open spec fn item_rows(
    paths: Seq<Seq<char>>,
    dirs: Seq<bool>,
    kind: NavKind,
    current: Seq<char>,
    home: Seq<char>,
    collapsed: bool,
) -> Seq<RowView> {
    Seq::new(
        paths.len(),
        |i: int| item_row(paths[i], flagged(dirs, i), kind, current, home, collapsed),
    )
}

/// The section of bookmarks.
pub open spec fn bookmarks_section(s: SidebarView, f: SidebarFacts, collapsed: bool) -> Seq<RowView> {
    (if collapsed {
        seq![RowView::Divider, RowView::Plus]
    } else {
        seq![
            RowView::Header {
                title: "BOOKMARKS"@,
                folded: s.folded.contains("BOOKMARKS"@),
                plus: true,
            },
        ]
    }) + (if !section_shown("BOOKMARKS"@, collapsed, s.folded) {
        Seq::empty()
    } else if s.bookmarks.len() == 0 {
        if collapsed {
            Seq::empty()
        } else {
            seq![RowView::Hint { text: "Click + to pin a folder"@ }]
        }
    } else {
        item_rows(
            s.bookmarks,
            f.bookmark_dirs@,
            NavKind::Bookmark,
            f.current@,
            f.home@,
            collapsed,
        )
    })
}

/// The flags of the members of group `g`.
pub open spec fn member_flags(f: SidebarFacts, g: int) -> Seq<bool> {
    if 0 <= g < f.member_dirs@.len() {
        f.member_dirs@[g]@
    } else {
        Seq::empty()
    }
}

/// The rows of group `g`.
pub open spec fn group_section(s: SidebarView, f: SidebarFacts, g: int, collapsed: bool) -> Seq<
    RowView,
> {
    let group = s.groups[g];
    let members = item_rows(
        group.paths,
        member_flags(f, g),
        NavKind::Member(g as usize),
        f.current@,
        f.home@,
        collapsed,
    );
    if collapsed {
        seq![RowView::Divider] + members
    } else {
        let key = "group:"@ + group.name;
        let folded = s.folded.contains(key);
        seq![RowView::GroupHeader { index: g, title: uppercase(group.name), key, folded }] + (
        if folded {
            Seq::empty()
        } else if group.paths.len() == 0 {
            seq![RowView::Hint { text: "Right-click a file to add it"@ }]
        } else {
            members
        })
    }
}

/// The rows of the first `n` groups.
pub open spec fn group_sections(s: SidebarView, f: SidebarFacts, n: int, collapsed: bool) -> Seq<
    RowView,
>
    decreases n,
{
    if n <= 0 {
        Seq::empty()
    } else {
        group_sections(s, f, n - 1, collapsed) + group_section(s, f, n - 1, collapsed)
    }
}

/// The section of recent folders; a limit of zero hides it.
pub open spec fn recents_section(
    s: SidebarView,
    f: SidebarFacts,
    limit: int,
    collapsed: bool,
) -> Seq<RowView> {
    if limit <= 0 {
        Seq::empty()
    } else {
        seq![section_start("RECENTS"@, collapsed, s.folded)] + (if !section_shown(
            "RECENTS"@,
            collapsed,
            s.folded,
        ) {
            Seq::empty()
        } else if s.recents.len() == 0 {
            if collapsed {
                Seq::empty()
            } else {
                seq![RowView::Hint { text: "No recent folders"@ }]
            }
        } else {
            up_to(s.recents, limit).map_values(
                |p: Seq<char>|
                    place_row(label_of(p), p, FOLDER_KEY@, f.current@, f.home@, collapsed),
            )
        })
    }
}

/// The rows of labelled places.
pub open spec fn place_rows(
    v: Seq<(Seq<char>, Seq<char>)>,
    current: Seq<char>,
    home: Seq<char>,
    collapsed: bool,
) -> Seq<RowView> {
    v.map_values(
        |p: (Seq<char>, Seq<char>)| place_row(p.0, p.1, p.1, current, home, collapsed),
    )
}

/// The section of cloud storage, if there is any.
pub open spec fn cloud_section(s: SidebarView, f: SidebarFacts, collapsed: bool) -> Seq<RowView> {
    if f.cloud@.len() == 0 {
        Seq::empty()
    } else {
        seq![section_start("CLOUD"@, collapsed, s.folded)] + (if section_shown(
            "CLOUD"@,
            collapsed,
            s.folded,
        ) {
            place_rows(labelled_view(f.cloud@), f.current@, f.home@, collapsed)
        } else {
            Seq::empty()
        })
    }
}

/// The section of the computer, mounted volumes and servers.
pub open spec fn servers_section(s: SidebarView, f: SidebarFacts, collapsed: bool) -> Seq<RowView> {
    seq![section_start("SERVERS"@, collapsed, s.folded)] + (if section_shown(
        "SERVERS"@,
        collapsed,
        s.folded,
    ) {
        seq![
            place_row(
                "Macintosh HD"@,
                "/"@,
                "fav:"@ + "computer"@,
                f.current@,
                f.home@,
                collapsed,
            ),
            place_row(f.user@, f.home@, "fav:"@ + "home"@, f.current@, f.home@, collapsed),
        ] + place_rows(labelled_view(f.volumes@), f.current@, f.home@, collapsed) + seq![
            RowView::Connect,
        ]
    } else {
        Seq::empty()
    })
}

/// All rows of the sidebar.
pub open spec fn sidebar_rows(s: SidebarView, f: SidebarFacts, p: Prefs) -> Seq<RowView> {
    let c = p.sidebar_collapsed;
    seq![RowView::Switch { collapsed: c }] + favorites_section(s, f, c) + bookmarks_section(
        s,
        f,
        c,
    ) + (if p.groups_enabled {
        group_sections(s, f, s.groups.len() as int, c)
    } else {
        Seq::empty()
    }) + recents_section(s, f, p.recent_limit as int, c) + cloud_section(s, f, c)
        + servers_section(s, f, c)
}

fn push_favorites(side: &Sidebar, f: &SidebarFacts, collapsed: bool, out: &mut Vec<SidebarRow>)
    ensures
        side_rows(final(out)@) == side_rows(old(out)@) + favorites_section(side@, *f, collapsed),
{
    let ghost start = side_rows(out@);
    if !begin_section(side, "FAVORITES", collapsed, out) {
        proof {
            assert(side_rows(out@) =~= start + favorites_section(side@, *f, collapsed));
        }
        return;
    }
    if side.favorites.len() == 0 && !collapsed {
        push_hint(out, "No Finder favorites");
    }
    let ghost base = side_rows(out@);
    let ghost favs = side@.favorites;
    let mut i: usize = 0;
    proof {
        assert(base =~= base + favorite_rows(favs, f.favorite_dirs@, 0, f.current@, f.home@, collapsed));
    }
    while i < side.favorites.len()
        invariant
            i <= side.favorites.len(),
            favs == side@.favorites,
            side_rows(out@) == base + favorite_rows(
                favs,
                f.favorite_dirs@,
                i as int,
                f.current@,
                f.home@,
                collapsed,
            ),
        decreases side.favorites.len() - i,
    {
        if flag(&f.favorite_dirs, i) {
            let v = &side.favorites[i];
            let row = place(
                v.label.clone(),
                v.path.as_str(),
                v.path.clone(),
                f,
                collapsed,
            );
            let ghost before = side_rows(out@);
            out.push(row);
            proof {
                assert(favs[i as int] == (v.label@, v.path@));
                assert(side_rows(out@) =~= before.push(row@));
                assert(side_rows(out@) =~= base + favorite_rows(
                    favs,
                    f.favorite_dirs@,
                    i + 1,
                    f.current@,
                    f.home@,
                    collapsed,
                ));
            }
        }
        i += 1;
    }
    proof {
        assert(side_rows(out@) =~= start + favorites_section(side@, *f, collapsed));
    }
}

fn push_items(
    paths: &Vec<String>,
    dirs: &Vec<bool>,
    kind: NavKind,
    f: &SidebarFacts,
    collapsed: bool,
    out: &mut Vec<SidebarRow>,
)
    ensures
        side_rows(final(out)@) == side_rows(old(out)@) + item_rows(
            texts(paths@),
            dirs@,
            kind,
            f.current@,
            f.home@,
            collapsed,
        ),
{
    let ghost base = side_rows(out@);
    let ghost all = item_rows(texts(paths@), dirs@, kind, f.current@, f.home@, collapsed);
    let mut i: usize = 0;
    proof {
        assert(base =~= base + all.take(0));
    }
    while i < paths.len()
        invariant
            i <= paths.len(),
            all == item_rows(texts(paths@), dirs@, kind, f.current@, f.home@, collapsed),
            side_rows(out@) == base + all.take(i as int),
        decreases paths.len() - i,
    {
        let row = item(paths[i].as_str(), flag(dirs, i), kind, f, collapsed);
        let ghost before = side_rows(out@);
        out.push(row);
        proof {
            assert(all[i as int] == row@);
            assert(side_rows(out@) =~= before.push(row@));
            assert(base + all.take(i + 1) =~= (base + all.take(i as int)).push(row@));
        }
        i += 1;
    }
    proof {
        assert(all.take(i as int) =~= all);
    }
}

fn push_bookmarks(side: &Sidebar, f: &SidebarFacts, collapsed: bool, out: &mut Vec<SidebarRow>)
    ensures
        side_rows(final(out)@) == side_rows(old(out)@) + bookmarks_section(side@, *f, collapsed),
{
    let ghost start = side_rows(out@);
    let folded = side.is_folded("BOOKMARKS");
    if collapsed {
        out.push(SidebarRow::Divider);
        out.push(SidebarRow::Plus);
        proof {
            assert(side_rows(out@) =~= start + seq![RowView::Divider, RowView::Plus]);
        }
    } else {
        let row = SidebarRow::Header { title: owned("BOOKMARKS"), folded, plus: true };
        out.push(row);
        proof {
            assert(side_rows(out@) =~= start + seq![row@]);
        }
    }
    if collapsed || !folded {
        if side.bookmarks.len() == 0 {
            if !collapsed {
                push_hint(out, "Click + to pin a folder");
            }
        } else {
            push_items(&side.bookmarks, &f.bookmark_dirs, NavKind::Bookmark, f, collapsed, out);
        }
    }
    proof {
        assert(side_rows(out@) =~= start + bookmarks_section(side@, *f, collapsed));
    }
}

fn push_group(side: &Sidebar, f: &SidebarFacts, g: usize, collapsed: bool, out: &mut Vec<SidebarRow>)
    requires
        g < side.groups.len(),
    ensures
        side_rows(final(out)@) == side_rows(old(out)@) + group_section(
            side@,
            *f,
            g as int,
            collapsed,
        ),
{
    let ghost start = side_rows(out@);
    let none: Vec<bool> = Vec::new();
    let dirs: &Vec<bool> = if g < f.member_dirs.len() {
        &f.member_dirs[g]
    } else {
        &none
    };
    proof {
        assert(dirs@ =~= member_flags(*f, g as int));
        assert(side@.groups[g as int] == side.groups@[g as int]@);
    }
    if collapsed {
        out.push(SidebarRow::Divider);
        proof {
            assert(side_rows(out@) =~= start + seq![RowView::Divider]);
        }
        push_items(&side.groups[g].paths, dirs, NavKind::Member(g), f, true, out);
        proof {
            assert(side_rows(out@) =~= start + group_section(side@, *f, g as int, collapsed));
        }
        return;
    }
    let key = concat("group:", side.groups[g].name.as_str());
    let folded = side.is_folded(key.as_str());
    let title = side.groups[g].name.to_uppercase();
    let row = SidebarRow::GroupHeader { index: g, title, key, folded };
    out.push(row);
    proof {
        assert(side_rows(out@) =~= start + seq![row@]);
    }
    if !folded {
        if side.groups[g].paths.len() == 0 {
            push_hint(out, "Right-click a file to add it");
        } else {
            push_items(&side.groups[g].paths, dirs, NavKind::Member(g), f, false, out);
        }
    }
    proof {
        assert(side_rows(out@) =~= start + group_section(side@, *f, g as int, collapsed));
    }
}

fn push_recents(
    side: &Sidebar,
    f: &SidebarFacts,
    limit: usize,
    collapsed: bool,
    out: &mut Vec<SidebarRow>,
)
    ensures
        side_rows(final(out)@) == side_rows(old(out)@) + recents_section(
            side@,
            *f,
            limit as int,
            collapsed,
        ),
{
    let ghost start = side_rows(out@);
    if limit == 0 {
        proof {
            assert(start =~= start + recents_section(side@, *f, 0, collapsed));
        }
        return;
    }
    if !begin_section(side, "RECENTS", collapsed, out) {
        proof {
            assert(side_rows(out@) =~= start + recents_section(side@, *f, limit as int, collapsed));
        }
        return;
    }
    if side.recents.len() == 0 {
        if !collapsed {
            push_hint(out, "No recent folders");
        }
        proof {
            assert(side_rows(out@) =~= start + recents_section(side@, *f, limit as int, collapsed));
        }
        return;
    }
    let ghost base = side_rows(out@);
    let ghost all = up_to(side@.recents, limit as int).map_values(
        |p: Seq<char>| place_row(label_of(p), p, FOLDER_KEY@, f.current@, f.home@, collapsed),
    );
    let n: usize = if side.recents.len() > limit {
        limit
    } else {
        side.recents.len()
    };
    let mut i: usize = 0;
    proof {
        assert(base =~= base + all.take(0));
    }
    while i < n
        invariant
            i <= n <= side.recents.len(),
            n == all.len(),
            all == up_to(side@.recents, limit as int).map_values(
                |p: Seq<char>|
                    place_row(label_of(p), p, FOLDER_KEY@, f.current@, f.home@, collapsed),
            ),
            side_rows(out@) == base + all.take(i as int),
        decreases n - i,
    {
        let p = &side.recents[i];
        let row = place(path_label(p.as_str()), p.as_str(), owned(FOLDER_KEY), f, collapsed);
        let ghost before = side_rows(out@);
        out.push(row);
        proof {
            assert(up_to(side@.recents, limit as int)[i as int] == p@);
            assert(all[i as int] == row@);
            assert(side_rows(out@) =~= before.push(row@));
            assert(base + all.take(i + 1) =~= (base + all.take(i as int)).push(row@));
        }
        i += 1;
    }
    proof {
        assert(all.take(i as int) =~= all);
        assert(side_rows(out@) =~= start + recents_section(side@, *f, limit as int, collapsed));
    }
}

fn push_places(
    v: &Vec<(String, String)>,
    f: &SidebarFacts,
    collapsed: bool,
    out: &mut Vec<SidebarRow>,
)
    ensures
        side_rows(final(out)@) == side_rows(old(out)@) + place_rows(
            labelled_view(v@),
            f.current@,
            f.home@,
            collapsed,
        ),
{
    let ghost base = side_rows(out@);
    let ghost all = place_rows(labelled_view(v@), f.current@, f.home@, collapsed);
    let mut i: usize = 0;
    proof {
        assert(base =~= base + all.take(0));
    }
    while i < v.len()
        invariant
            i <= v.len(),
            all == place_rows(labelled_view(v@), f.current@, f.home@, collapsed),
            side_rows(out@) == base + all.take(i as int),
        decreases v.len() - i,
    {
        let row = place(v[i].0.clone(), v[i].1.as_str(), v[i].1.clone(), f, collapsed);
        let ghost before = side_rows(out@);
        out.push(row);
        proof {
            assert(labelled_view(v@)[i as int] == (v@[i as int].0@, v@[i as int].1@));
            assert(all[i as int] == row@);
            assert(side_rows(out@) =~= before.push(row@));
            assert(base + all.take(i + 1) =~= (base + all.take(i as int)).push(row@));
        }
        i += 1;
    }
    proof {
        assert(all.take(i as int) =~= all);
    }
}

fn push_servers(side: &Sidebar, f: &SidebarFacts, collapsed: bool, out: &mut Vec<SidebarRow>)
    ensures
        side_rows(final(out)@) == side_rows(old(out)@) + servers_section(side@, *f, collapsed),
{
    let ghost start = side_rows(out@);
    if begin_section(side, "SERVERS", collapsed, out) {
        let ghost base = side_rows(out@);
        let a = place(owned("Macintosh HD"), "/", fav_key("computer"), f, collapsed);
        let b = place(f.user.clone(), f.home.as_str(), fav_key("home"), f, collapsed);
        out.push(a);
        out.push(b);
        proof {
            assert(side_rows(out@) =~= base + seq![a@, b@]);
        }
        push_places(&f.volumes, f, collapsed, out);
        let ghost before = side_rows(out@);
        out.push(SidebarRow::Connect);
        proof {
            assert(side_rows(out@) =~= before.push(RowView::Connect));
        }
    }
    proof {
        assert(side_rows(out@) =~= start + servers_section(side@, *f, collapsed));
    }
}

/// All rows of the sidebar, from top to bottom.
pub fn render_sidebar(side: &Sidebar, f: &SidebarFacts, p: &Prefs) -> (r: Vec<SidebarRow>)
    ensures
        side_rows(r@) == sidebar_rows(side@, *f, *p),
{
    let c = p.sidebar_collapsed;
    let mut out: Vec<SidebarRow> = Vec::new();
    out.push(SidebarRow::Switch { collapsed: c });
    proof {
        assert(side_rows(out@) =~= seq![RowView::Switch { collapsed: c }]);
    }
    push_favorites(side, f, c, &mut out);
    push_bookmarks(side, f, c, &mut out);
    let ghost mid = side_rows(out@);
    if p.groups_enabled {
        let mut g: usize = 0;
        proof {
            assert(mid =~= mid + group_sections(side@, *f, 0, c));
        }
        while g < side.groups.len()
            invariant
                g <= side.groups.len(),
                side_rows(out@) == mid + group_sections(side@, *f, g as int, c),
            decreases side.groups.len() - g,
        {
            push_group(side, f, g, c, &mut out);
            proof {
                assert(side_rows(out@) =~= mid + group_sections(side@, *f, g + 1, c));
            }
            g += 1;
        }
    } else {
        proof {
            assert(mid =~= mid + Seq::<RowView>::empty());
        }
    }
    push_recents(side, f, p.recent_limit, c, &mut out);
    let ghost before = side_rows(out@);
    if f.cloud.len() > 0 {
        if begin_section(side, "CLOUD", c, &mut out) {
            push_places(&f.cloud, f, c, &mut out);
        }
    }
    proof {
        assert(side_rows(out@) =~= before + cloud_section(side@, *f, c));
    }
    push_servers(side, f, c, &mut out);
    proof {
        assert(side_rows(out@) =~= sidebar_rows(side@, *f, *p));
    }
    out
}

/// Whether two lists of favorites show the same labels and places.
pub open spec fn same_favorites(
    a: Seq<(Seq<char>, Seq<char>)>,
    b: Seq<(Seq<char>, Seq<char>)>,
) -> bool {
    a.len() == b.len() && forall|i: int|
        0 <= i < a.len() ==> (#[trigger] a[i]).0 == b[i].0 && same_place(a[i].1, b[i].1)
}

impl Sidebar {
    /// Takes over the favorites of the system; returns whether they changed.
    pub fn refresh_favorites(&mut self, found: Vec<Favorite>) -> (r: bool)
        ensures
            r == !same_favorites(favorites_view(found@), old(self)@.favorites),
            final(self)@ == (if r {
                SidebarView { favorites: favorites_view(found@), ..old(self)@ }
            } else {
                old(self)@
            }),
    {
        let ghost a = favorites_view(found@);
        let ghost b = self@.favorites;
        let n: usize = found.len();
        let mut same_so_far = n == self.favorites.len();
        let mut i: usize = 0;
        while same_so_far && i < n
            invariant
                i <= n,
                n == found@.len(),
                a == favorites_view(found@),
                b == favorites_view(self.favorites@),
                self@ == old(self)@,
                same_so_far ==> a.len() == b.len() && forall|k: int|
                    0 <= k < i ==> (#[trigger] a[k]).0 == b[k].0 && same_place(a[k].1, b[k].1),
                !same_so_far ==> !same_favorites(a, b),
            decreases n - i,
        {
            proof {
                assert(a[i as int] == (found@[i as int].label@, found@[i as int].path@));
                assert(b[i as int] == (
                    self.favorites@[i as int].label@,
                    self.favorites@[i as int].path@,
                ));
            }
            let x = &found[i];
            let y = &self.favorites[i];
            if !same(x.label.as_str(), y.label.as_str()) || !same_path(
                x.path.as_str(),
                y.path.as_str(),
            ) {
                same_so_far = false;
            }
            i += 1;
        }
        if same_so_far {
            return false;
        }
        self.favorites = found;
        true
    }
}

} // verus!
