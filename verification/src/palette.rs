//! The command palette: its query, its results, its history, and the keys that
//! drive it.

use crate::field::{Field, FieldView, at_most};
use crate::find::{best_rows, find_rows};
use crate::index::{IndexEntryView, hits_view};
use crate::listing::{Entry, EntryView, rows};
use crate::paths::{join_path, joined_path, query_split, same_path, same_place, split_path_query};
use crate::score::{asks_for_settings, match_score, match_value, settings_match};
use crate::sorting::{
    key_view, keys_view, order_of, orders, positions, push_text, sort_order, text_key,
};
use crate::tabs::{clamped, slice_texts};
use crate::text::{chars_of, lowercase, owned, same, texts, trim, trimmed};
use vstd::prelude::*;

verus! {

/// Where the palette searches.
#[derive(Clone, Copy, PartialEq, Eq, Structural, Debug)]
pub enum SearchScope {
    CurrentFolder,
    Recursive,
    Global,
}

/// What the palette is for.
#[derive(Clone, Copy, PartialEq, Eq, Structural, Debug)]
pub enum PaletteMode {
    Commands,
    Search(SearchScope),
}

/// What activating a result does.
pub enum Action {
    /// Goes to a folder, or opens a file.
    Open(String, bool),
    /// Copies the path of the current folder.
    CopyDir,
    /// Opens the settings.
    OpenSettings,
    /// Nothing: the result only informs.
    Inert,
}

/// What activating a result does, with texts as characters.
#[verifier::ext_equal]
pub enum ActionView {
    Open(Seq<char>, bool),
    CopyDir,
    OpenSettings,
    Inert,
}

impl View for Action {
    type V = ActionView;

    open spec fn view(&self) -> ActionView {
        match self {
            Action::Open(p, d) => ActionView::Open(p@, *d),
            Action::CopyDir => ActionView::CopyDir,
            Action::OpenSettings => ActionView::OpenSettings,
            Action::Inert => ActionView::Inert,
        }
    }
}

impl Action {
    /// A copy of the action.
    pub fn copy(&self) -> (r: Action)
        ensures
            r@ == self@,
    {
        match self {
            Action::Open(p, d) => Action::Open(p.clone(), *d),
            Action::CopyDir => Action::CopyDir,
            Action::OpenSettings => Action::OpenSettings,
            Action::Inert => Action::Inert,
        }
    }
}

/// One result of the palette.
pub struct PaletteItem {
    pub title: String,
    pub subtitle: String,
    pub action: Action,
    pub is_dir: bool,
}

/// One result of the palette, with texts as characters.
#[verifier::ext_equal]
pub struct ItemView {
    pub title: Seq<char>,
    pub subtitle: Seq<char>,
    pub action: ActionView,
    pub is_dir: bool,
}

impl View for PaletteItem {
    type V = ItemView;

    open spec fn view(&self) -> ItemView {
        ItemView {
            title: self.title@,
            subtitle: self.subtitle@,
            action: self.action@,
            is_dir: self.is_dir,
        }
    }
}

/// Results, with texts as characters.
pub open spec fn items_view(v: Seq<PaletteItem>) -> Seq<ItemView> {
    v.map_values(|i: PaletteItem| i@)
}

/// Something to do with the selected result besides opening it.
#[derive(Clone, Copy, PartialEq, Eq, Structural, Debug)]
pub enum PaletteAction {
    Open,
    RevealShuffle,
    OpenNewTab,
    RevealFinder,
    CopyPath,
}

/// The state of the palette.
pub struct Palette {
    pub open: bool,
    pub mode: PaletteMode,
    pub query: Field,
    /// Queries that were used, newest last, and the one that is shown again.
    pub hist: Vec<String>,
    pub hist_pos: Option<usize>,
    pub items: Vec<PaletteItem>,
    pub selected: usize,
    /// The place in the panel of further actions, while it is open.
    pub actions: Option<usize>,
    /// The number of the latest search; results of earlier ones are dropped.
    pub gen: u64,
}

/// The mathematical value of the palette.
#[verifier::ext_equal]
pub struct PaletteView {
    pub open: bool,
    pub mode: PaletteMode,
    pub query: FieldView,
    pub hist: Seq<Seq<char>>,
    pub hist_pos: Option<int>,
    pub items: Seq<ItemView>,
    pub selected: int,
    pub actions: Option<int>,
    pub gen: u64,
}

/// An optional position, as a mathematical integer.
pub open spec fn opt_int(r: Option<usize>) -> Option<int> {
    match r {
        Some(n) => Some(n as int),
        None => None,
    }
}

impl View for Palette {
    type V = PaletteView;

    open spec fn view(&self) -> PaletteView {
        PaletteView {
            open: self.open,
            mode: self.mode,
            query: self.query@,
            hist: texts(self.hist@),
            hist_pos: opt_int(self.hist_pos),
            items: items_view(self.items@),
            selected: self.selected as int,
            actions: opt_int(self.actions),
            gen: self.gen,
        }
    }
}

// ----- results -------------------------------------------------------------------------

/// A result that opens a path.
pub open spec fn open_item(title: Seq<char>, path: Seq<char>, is_dir: bool) -> ItemView {
    ItemView { title, subtitle: path, action: ActionView::Open(path, is_dir), is_dir }
}

/// A result that only informs.
pub open spec fn notice_item(title: Seq<char>, subtitle: Seq<char>) -> ItemView {
    ItemView { title, subtitle, action: ActionView::Inert, is_dir: false }
}

fn path_item(title: String, path: String, is_dir: bool) -> (r: PaletteItem)
    ensures
        r@ == open_item(title@, path@, is_dir),
{
    PaletteItem { title, subtitle: path.clone(), action: Action::Open(path, is_dir), is_dir }
}

fn notice(title: &str, subtitle: &str) -> (r: PaletteItem)
    ensures
        r@ == notice_item(title@, subtitle@),
{
    PaletteItem {
        title: owned(title),
        subtitle: owned(subtitle),
        action: Action::Inert,
        is_dir: false,
    }
}

fn one_item(i: PaletteItem) -> (r: Vec<PaletteItem>)
    ensures
        items_view(r@) == seq![i@],
{
    let mut v: Vec<PaletteItem> = Vec::new();
    v.push(i);
    proof {
        assert(items_view(v@) =~= seq![i@]);
    }
    v
}

/// What is offered for an empty query.
pub open spec fn standard_items(dir: Seq<char>) -> Seq<ItemView> {
    seq![
        ItemView {
            title: "Copy current directory"@,
            subtitle: dir,
            action: ActionView::CopyDir,
            is_dir: true,
        },
    ]
}

/// What is offered for an empty query: the commands there are.
pub fn default_commands(dir: &str) -> (r: Vec<PaletteItem>)
    ensures
        items_view(r@) == standard_items(dir@),
{
    one_item(
        PaletteItem {
            title: owned("Copy current directory"),
            subtitle: owned(dir),
            action: Action::CopyDir,
            is_dir: true,
        },
    )
}

/// The built-in commands that match a query.
pub open spec fn command_items(q: Seq<char>) -> Seq<ItemView> {
    if asks_for_settings(q) {
        seq![
            ItemView {
                title: "Settings"@,
                subtitle: "Open Shuffle settings"@,
                action: ActionView::OpenSettings,
                is_dir: false,
            },
        ]
    } else {
        Seq::empty()
    }
}

/// The built-in commands that match a query.
pub fn command_matches(q: &str) -> (r: Vec<PaletteItem>)
    ensures
        items_view(r@) == command_items(q@),
{
    if settings_match(q) {
        one_item(
            PaletteItem {
                title: owned("Settings"),
                subtitle: owned("Open Shuffle settings"),
                action: Action::OpenSettings,
                is_dir: false,
            },
        )
    } else {
        let v: Vec<PaletteItem> = Vec::new();
        proof {
            assert(items_view(v@) =~= Seq::<ItemView>::empty());
        }
        v
    }
}

/// The first `n` of `s`, or all of it.
pub open spec fn up_to<T>(s: Seq<T>, n: int) -> Seq<T> {
    if s.len() > n {
        s.take(n)
    } else {
        s
    }
}

/// The results for a query in the current folder: its 50 best rows.
pub open spec fn folder_items(dir: Seq<char>, entries: Seq<EntryView>, q: Seq<char>) -> Seq<
    ItemView,
> {
    up_to(best_rows(entries, q), 50).map_values(
        |i: int|
            open_item(entries[i].name, joined_path(dir, entries[i].name), entries[i].is_dir),
    )
}

fn folder_results(dir: &str, entries: &Vec<Entry>, q: &str) -> (r: Vec<PaletteItem>)
    ensures
        items_view(r@) == folder_items(dir@, rows(entries@), q@),
{
    let order = find_rows(entries, q, true);
    let ghost es = rows(entries@);
    let ghost best = up_to(best_rows(es, q@), 50);
    proof {
        assert(positions(order@).len() == order@.len());
    }
    let n: usize = if order.len() > 50 {
        50
    } else {
        order.len()
    };
    let mut out: Vec<PaletteItem> = Vec::new();
    let mut k: usize = 0;
    while k < n
        invariant
            k <= n <= order.len(),
            n == best.len(),
            es == rows(entries@),
            forall|t: int| 0 <= t < n ==> #[trigger] best[t] == order@[t],
            forall|t: int| 0 <= t < order@.len() ==> #[trigger] order@[t] < entries.len(),
            items_view(out@) == best.take(k as int).map_values(
                |i: int| open_item(es[i].name, joined_path(dir@, es[i].name), es[i].is_dir),
            ),
        decreases n - k,
    {
        let i: usize = order[k];
        let e = &entries[i];
        let path = join_path(dir, e.name.as_str());
        let item = path_item(e.name.clone(), path, e.is_dir);
        proof {
            assert(best[k as int] == i);
            assert(best.take(k + 1) =~= best.take(k as int).push(i as int));
            assert(items_view(out@.push(item)) == items_view(out@).push(item@));
            assert(best.take(k + 1).map_values(
                |i: int| open_item(es[i].name, joined_path(dir@, es[i].name), es[i].is_dir),
            ) =~= best.take(k as int).map_values(
                |i: int| open_item(es[i].name, joined_path(dir@, es[i].name), es[i].is_dir),
            ).push(item@));
        }
        out.push(item);
        k += 1;
    }
    proof {
        assert(best.take(k as int) =~= best);
    }
    out
}

/// The names in a folder and whether each is a folder.
pub open spec fn names_view(v: Seq<(String, bool)>) -> Seq<(Seq<char>, bool)> {
    v.map_values(|t: (String, bool)| (t.0@, t.1))
}

/// The key of a name for a partial name: the best match first, then folders
/// first, then by name; without a partial name only the latter two.
pub open spec fn name_key(n: (Seq<char>, bool), partial: Seq<char>) -> Seq<int> {
    (if partial.len() == 0 {
        Seq::empty()
    } else {
        seq![-1 - match_value(partial, n.0)]
    }) + seq![
        if n.1 {
            0int
        } else {
            1
        },
    ] + text_key(lowercase(n.0))
}

/// The results for a path that is being typed: the 50 best names of its folder.
pub open spec fn path_items(
    base: Seq<char>,
    partial: Seq<char>,
    names: Seq<(Seq<char>, bool)>,
) -> Seq<ItemView> {
    let order = order_of(
        names.map_values(|n: (Seq<char>, bool)| name_key(n, partial)),
    );
    up_to(order, 50).map_values(
        |k: int| open_item(names[k].0, joined_path(base, names[k].0), names[k].1),
    )
}

fn path_results(base: &str, partial: &str, names: &Vec<(String, bool)>) -> (r: Vec<PaletteItem>)
    ensures
        items_view(r@) == path_items(base@, partial@, names_view(names@)),
{
    let ghost ns = names_view(names@);
    let ghost want = ns.map_values(|n: (Seq<char>, bool)| name_key(n, partial@));
    let mut keys: Vec<Vec<i128>> = Vec::new();
    let mut i: usize = 0;
    while i < names.len()
        invariant
            i <= names.len(),
            ns == names_view(names@),
            want == ns.map_values(|n: (Seq<char>, bool)| name_key(n, partial@)),
            keys_view(keys@) == want.take(i as int),
        decreases names.len() - i,
    {
        let mut k: Vec<i128> = Vec::new();
        proof {
            assert(key_view(k@) =~= Seq::<int>::empty());
        }
        if !partial.is_empty() {
            let s = match_score(partial, names[i].0.as_str());
            k.push(-1 - s);
            proof {
                assert(key_view(k@) =~= seq![-1 - s as int]);
            }
        }
        let ghost before = key_view(k@);
        k.push(
            if names[i].1 {
                0
            } else {
                1
            },
        );
        proof {
            assert(key_view(k@) =~= before + seq![
                if names@[i as int].1 {
                    0int
                } else {
                    1
                },
            ]);
        }
        let low = names[i].0.to_lowercase();
        push_text(&mut k, low.as_str());
        proof {
            assert(key_view(k@) =~= want[i as int]);
            assert(keys_view(keys@.push(k)) == keys_view(keys@).push(key_view(k@)));
            assert(want.take(i + 1) =~= want.take(i as int).push(key_view(k@)));
        }
        keys.push(k);
        i += 1;
    }
    proof {
        assert(want.take(i as int) =~= want);
        assert(keys_view(keys@).len() == keys@.len());
    }
    let order = sort_order(&keys);
    let ghost o = order_of(want);
    let ghost best = up_to(o, 50);
    proof {
        assert(positions(order@).len() == order@.len());
    }
    let n: usize = if order.len() > 50 {
        50
    } else {
        order.len()
    };
    let mut out: Vec<PaletteItem> = Vec::new();
    let mut j: usize = 0;
    while j < n
        invariant
            j <= n <= order.len(),
            n == best.len(),
            ns == names_view(names@),
            o == positions(order@),
            orders(want, o, 0, names.len() as int),
            forall|t: int| 0 <= t < n ==> #[trigger] best[t] == o[t],
            items_view(out@) == best.take(j as int).map_values(
                |k: int| open_item(ns[k].0, joined_path(base@, ns[k].0), ns[k].1),
            ),
        decreases n - j,
    {
        proof {
            assert(o[j as int] == order@[j as int]);
            assert(0 <= o[j as int] < names.len());
            assert(best[j as int] == o[j as int]);
        }
        let at: usize = order[j];
        let path = join_path(base, names[at].0.as_str());
        let item = path_item(names[at].0.clone(), path, names[at].1);
        proof {
            assert(best.take(j + 1) =~= best.take(j as int).push(at as int));
            assert(items_view(out@.push(item)) == items_view(out@).push(item@));
            assert(best.take(j + 1).map_values(
                |k: int| open_item(ns[k].0, joined_path(base@, ns[k].0), ns[k].1),
            ) =~= best.take(j as int).map_values(
                |k: int| open_item(ns[k].0, joined_path(base@, ns[k].0), ns[k].1),
            ).push(item@));
        }
        out.push(item);
        j += 1;
    }
    proof {
        assert(best.take(j as int) =~= best);
    }
    out
}

/// Results that open found entries.
pub open spec fn hit_items(hits: Seq<IndexEntryView>) -> Seq<ItemView> {
    hits.map_values(|h: IndexEntryView| open_item(h.name, h.path, h.is_dir))
}

fn push_hits(out: &mut Vec<PaletteItem>, hits: Vec<(String, String, bool)>)
    ensures
        items_view(final(out)@) == items_view(old(out)@) + hit_items(hits_view(hits@)),
{
    let ghost hs = hit_items(hits_view(hits@));
    let mut i: usize = 0;
    proof {
        assert(items_view(out@) =~= items_view(old(out)@) + hs.take(0));
    }
    while i < hits.len()
        invariant
            i <= hits.len(),
            hs == hit_items(hits_view(hits@)),
            items_view(out@) == items_view(old(out)@) + hs.take(i as int),
        decreases hits.len() - i,
    {
        let item = path_item(hits[i].0.clone(), hits[i].1.clone(), hits[i].2);
        proof {
            assert(item@ == hs[i as int]);
            assert(items_view(out@.push(item)) == items_view(out@).push(item@));
            assert(items_view(old(out)@) + hs.take(i + 1) =~= (items_view(old(out)@) + hs.take(
                i as int,
            )).push(item@));
        }
        out.push(item);
        i += 1;
    }
    proof {
        assert(hs.take(i as int) =~= hs);
    }
}

// ----- the query and the results -------------------------------------------------------

/// What has to be looked up for the query, beyond what the palette knows.
pub enum PalettePlan {
    /// Nothing: the results are there.
    Shown,
    /// The names in a folder.
    List { base: String, partial: String },
    /// The index of the current folder.
    Recursive { gen: u64, query: String, root: String },
    /// The index of everything, or a system-wide search.
    Global { gen: u64, query: String },
}

/// What has to be looked up for the query, with texts as characters.
#[verifier::ext_equal]
pub enum PlanView {
    Shown,
    List { base: Seq<char>, partial: Seq<char> },
    Recursive { gen: u64, query: Seq<char>, root: Seq<char> },
    Global { gen: u64, query: Seq<char> },
}

impl View for PalettePlan {
    type V = PlanView;

    open spec fn view(&self) -> PlanView {
        match self {
            PalettePlan::Shown => PlanView::Shown,
            PalettePlan::List { base, partial } => PlanView::List {
                base: base@,
                partial: partial@,
            },
            PalettePlan::Recursive { gen, query, root } => PlanView::Recursive {
                gen: *gen,
                query: query@,
                root: root@,
            },
            PalettePlan::Global { gen, query } => PlanView::Global { gen: *gen, query: query@ },
        }
    }
}

/// The number that follows `g`, starting over behind the largest.
pub open spec fn next_gen(g: u64) -> u64 {
    if g == u64::MAX {
        0
    } else {
        (g + 1) as u64
    }
}

/// Whether a query is a path: it begins with a slash or a tilde.
pub open spec fn is_path_query(q: Seq<char>) -> bool {
    q.len() > 0 && (q[0] == '/' || q[0] == '~')
}

/// The history with a query used once more: it moves to the end, and the oldest
/// beyond 50 go.
pub open spec fn remembered(hist: Seq<Seq<char>>, q: Seq<char>) -> Seq<Seq<char>> {
    let t = without_text(hist, q).push(q);
    if t.len() > 50 {
        t.skip(t.len() - 50)
    } else {
        t
    }
}

/// The texts of `s` that are not `q`.
pub open spec fn without_text(s: Seq<Seq<char>>, q: Seq<char>) -> Seq<Seq<char>>
    decreases s.len(),
{
    if s.len() == 0 {
        Seq::empty()
    } else {
        let head = without_text(s.drop_last(), q);
        if s.last() == q {
            head
        } else {
            head.push(s.last())
        }
    }
}

proof fn lemma_without_text(s: Seq<Seq<char>>, q: Seq<char>)
    ensures
        !without_text(s, q).contains(q),
        without_text(s, q).len() <= s.len(),
        forall|x: Seq<char>| x != q && #[trigger] s.contains(x) ==> without_text(s, q).contains(x),
    decreases s.len(),
{
    if s.len() > 0 {
        let h = s.drop_last();
        lemma_without_text(h, q);
        let w = without_text(s, q);
        let wh = without_text(h, q);
        if w.contains(q) {
            let k = choose|k: int| 0 <= k < w.len() && w[k] == q;
            if k < wh.len() {
                assert(wh[k] == q);
            }
        }
        assert forall|x: Seq<char>| x != q && #[trigger] s.contains(x) implies w.contains(x) by {
            let k = choose|k: int| 0 <= k < s.len() && s[k] == x;
            if k < h.len() {
                assert(h[k] == x);
                assert(h.contains(x));
                let j = choose|j: int| 0 <= j < wh.len() && wh[j] == x;
                assert(w[j] == x);
            } else {
                assert(w[w.len() - 1] == x);
            }
        }
    }
}

/// A history ends with the query that was used last, holds it once, and never
/// grows beyond 50.
pub proof fn law_history_is_bounded(hist: Seq<Seq<char>>, q: Seq<char>)
    ensures
        remembered(hist, q).len() <= 50,
        remembered(hist, q).len() >= 1,
        remembered(hist, q).last() == q,
        !remembered(hist, q).drop_last().contains(q),
{
    lemma_without_text(hist, q);
    let w = without_text(hist, q);
    let r = remembered(hist, q);
    let d = r.drop_last();
    if d.contains(q) {
        let k = choose|k: int| 0 <= k < d.len() && d[k] == q;
        let off = w.len() - d.len();
        assert(w[k + off] == q);
    }
}

/// Takes a text out of a list of texts, wherever it stands.
pub fn drop_text(v: &Vec<String>, q: &str) -> (r: Vec<String>)
    ensures
        texts(r@) == without_text(texts(v@), q@),
{
    let mut out: Vec<String> = Vec::new();
    let mut i: usize = 0;
    while i < v.len()
        invariant
            i <= v.len(),
            texts(out@) == without_text(texts(v@).take(i as int), q@),
        decreases v.len() - i,
    {
        proof {
            let t = texts(v@);
            assert(t.take(i + 1).drop_last() == t.take(i as int));
            assert(t.take(i + 1).last() == v@[i as int]@);
        }
        if !same(v[i].as_str(), q) {
            let c = v[i].clone();
            proof {
                assert(texts(out@.push(c)) == texts(out@).push(c@));
            }
            out.push(c);
        }
        i += 1;
    }
    proof {
        assert(texts(v@).take(i as int) == texts(v@));
    }
    out
}

/// The further actions for a result, with their labels.
pub open spec fn actions_for(a: ActionView) -> Seq<(PaletteAction, Seq<char>)> {
    match a {
        ActionView::Open(_, true) => seq![
            (PaletteAction::Open, "Open folder"@),
            (PaletteAction::OpenNewTab, "Open in new tab"@),
            (PaletteAction::RevealFinder, "Reveal in Finder"@),
            (PaletteAction::CopyPath, "Copy path"@),
        ],
        ActionView::Open(_, false) => seq![
            (PaletteAction::Open, "Open file"@),
            (PaletteAction::RevealShuffle, "Show in enclosing folder"@),
            (PaletteAction::OpenNewTab, "Open folder in new tab"@),
            (PaletteAction::RevealFinder, "Reveal in Finder"@),
            (PaletteAction::CopyPath, "Copy path"@),
        ],
        _ => Seq::empty(),
    }
}

/// Labelled actions, with labels as characters.
pub open spec fn labels_view(v: Seq<(PaletteAction, String)>) -> Seq<(PaletteAction, Seq<char>)> {
    v.map_values(|p: (PaletteAction, String)| (p.0, p.1@))
}

impl PaletteView {
    /// Whether the text field of the query is in order.
    pub open spec fn wf(self) -> bool {
        self.query.wf()
    }

    /// Whether the history of queries applies.
    pub open spec fn keeps_history(self, history_on: bool) -> bool {
        history_on && (self.mode == PaletteMode::Commands || self.mode == PaletteMode::Search(
            SearchScope::Global,
        ))
    }

    /// Just opened, in a mode, with an empty query.
    pub open spec fn opened(self, mode: PaletteMode) -> PaletteView {
        PaletteView {
            open: true,
            mode,
            query: FieldView::holding(Seq::empty()),
            hist_pos: None,
            selected: 0,
            ..self
        }
    }

    /// Closed.
    pub open spec fn shut(self) -> PaletteView {
        PaletteView { open: false, actions: None, ..self }
    }

    /// With a new search begun: its number, the selection and the panel of
    /// further actions start over.
    pub open spec fn searching(self) -> PaletteView {
        PaletteView { gen: next_gen(self.gen), selected: 0, actions: None, ..self }
    }

    /// With the results brought up to date as far as the palette knows them, and
    /// what has to be looked up for the rest.
    pub open spec fn refreshed(
        self,
        dir: Seq<char>,
        entries: Seq<EntryView>,
        indexed: bool,
        home: Seq<char>,
    ) -> (PaletteView, PlanView) {
        let s = self.searching();
        let q = trimmed(self.query.text);
        match self.mode {
            PaletteMode::Search(SearchScope::CurrentFolder) => (
                PaletteView {
                    items: if q.len() == 0 {
                        Seq::empty()
                    } else {
                        folder_items(dir, entries, q)
                    },
                    ..s
                },
                PlanView::Shown,
            ),
            PaletteMode::Search(SearchScope::Recursive) => if !indexed {
                (
                    PaletteView { items: seq![notice_item("Indexing current folder…"@, dir)], ..s },
                    PlanView::Shown,
                )
            } else {
                (
                    PaletteView { items: Seq::empty(), ..s },
                    if q.len() == 0 {
                        PlanView::Shown
                    } else {
                        PlanView::Recursive { gen: s.gen, query: q, root: dir }
                    },
                )
            },
            _ => if q.len() == 0 {
                (PaletteView { items: standard_items(dir), ..s }, PlanView::Shown)
            } else if is_path_query(q) {
                (
                    s,
                    PlanView::List {
                        base: query_split(q, home).0,
                        partial: query_split(q, home).1,
                    },
                )
            } else {
                (
                    PaletteView { items: command_items(q), ..s },
                    PlanView::Global { gen: s.gen, query: q },
                )
            },
        }
    }

    /// With the names of a folder as results; a notice if there is no such folder.
    pub open spec fn listed(
        self,
        base: Seq<char>,
        partial: Seq<char>,
        exists: bool,
        names: Seq<(Seq<char>, bool)>,
    ) -> PaletteView {
        PaletteView {
            items: if exists {
                path_items(base, partial, names)
            } else {
                seq![notice_item("Path not found"@, base)]
            },
            ..self
        }
    }

    /// Whether a search of the current folder's index is still wanted.
    pub open spec fn wants_recursive(self, gen: u64, root: Seq<char>, dir: Seq<char>) -> bool {
        self.gen == gen && self.mode == PaletteMode::Search(SearchScope::Recursive) && same_place(
            dir,
            root,
        )
    }

    /// With what a search of the current folder's index found, if that is still
    /// wanted.
    pub open spec fn found_below(
        self,
        gen: u64,
        root: Seq<char>,
        dir: Seq<char>,
        hits: Seq<IndexEntryView>,
    ) -> PaletteView {
        if self.wants_recursive(gen, root, dir) {
            PaletteView { items: hit_items(hits), selected: 0, ..self }
        } else {
            self
        }
    }

    /// With what a search of everything found behind the matching commands, if
    /// that is still wanted.
    pub open spec fn found_anywhere(
        self,
        gen: u64,
        q: Seq<char>,
        hits: Seq<IndexEntryView>,
    ) -> PaletteView {
        if self.gen == gen {
            PaletteView { items: command_items(q) + hit_items(hits), selected: 0, ..self }
        } else {
            self
        }
    }

    /// With the selection moved by `delta`, within the results.
    pub open spec fn stepped(self, delta: int) -> PaletteView {
        if self.items.len() == 0 {
            self
        } else {
            PaletteView {
                selected: clamped(self.selected + delta, self.items.len() as int),
                ..self
            }
        }
    }

    /// The selected result, if there is one.
    pub open spec fn chosen(self) -> Option<ItemView> {
        if self.selected < self.items.len() {
            Some(self.items[self.selected])
        } else {
            None
        }
    }

    /// The further actions for the selected result.
    pub open spec fn action_list(self) -> Seq<(PaletteAction, Seq<char>)> {
        match self.chosen() {
            Some(i) => actions_for(i.action),
            None => Seq::empty(),
        }
    }

    /// With the query taken into the history, where the history applies and the
    /// query is not blank.
    pub open spec fn recorded(self, history_on: bool) -> PaletteView {
        let q = trimmed(self.query.text);
        if self.keeps_history(history_on) && q.len() > 0 {
            PaletteView { hist: remembered(self.hist, q), ..self }
        } else {
            self
        }
    }

    /// With `text` as the query and the cursor behind it.
    pub open spec fn asking(self, text: Seq<char>) -> PaletteView {
        PaletteView { query: FieldView::holding(text), ..self }
    }

    /// With the next older query of the history; the oldest one stays.
    pub open spec fn older(self) -> PaletteView {
        if self.hist.len() == 0 {
            self
        } else {
            let last = self.hist.len() - 1;
            let pos = match self.hist_pos {
                None => last,
                Some(p) => if p == 0 {
                    0
                } else {
                    at_most(p - 1, last)
                },
            };
            PaletteView { hist_pos: Some(pos), ..self.asking(self.hist[pos]) }
        }
    }

    /// With the next newer query of the history; behind the newest the query is
    /// empty again.
    pub open spec fn newer(self) -> PaletteView {
        match self.hist_pos {
            None => self,
            Some(p) => if p + 1 >= self.hist.len() {
                PaletteView { hist_pos: None, ..self.asking(Seq::empty()) }
            } else {
                PaletteView { hist_pos: Some(p + 1), ..self.asking(self.hist[p + 1]) }
            },
        }
    }
}

impl Palette {
    /// Whether the palette is in order.
    pub open spec fn wf(&self) -> bool {
        self@.wf()
    }

    /// A closed palette that remembers the queries of `hist`.
    pub fn new(hist: Vec<String>) -> (r: Palette)
        ensures
            r@ == (PaletteView {
                open: false,
                mode: PaletteMode::Commands,
                query: FieldView::holding(Seq::empty()),
                hist: texts(hist@),
                hist_pos: None,
                items: Seq::empty(),
                selected: 0,
                actions: None,
                gen: 0,
            }),
            r.wf(),
    {
        let items: Vec<PaletteItem> = Vec::new();
        proof {
            assert(items_view(items@) =~= Seq::<ItemView>::empty());
        }
        Palette {
            open: false,
            mode: PaletteMode::Commands,
            query: Field::empty(),
            hist,
            hist_pos: None,
            items,
            selected: 0,
            actions: None,
            gen: 0,
        }
    }

    /// Opens the palette in a mode, with an empty query.
    pub fn open_in(&mut self, mode: PaletteMode)
        ensures
            final(self)@ == old(self)@.opened(mode),
            final(self).wf(),
    {
        self.open = true;
        self.mode = mode;
        self.query = Field::empty();
        self.hist_pos = None;
        self.selected = 0;
    }

    /// Closes the palette.
    pub fn close(&mut self)
        ensures
            final(self)@ == old(self)@.shut(),
    {
        self.open = false;
        self.actions = None;
    }

    /// Brings the results up to date, and says what has to be looked up for the
    /// rest. `dir` and `entries` are those of the current tab; `indexed` says
    /// whether its folder has an index.
    pub fn refresh(&mut self, dir: &str, entries: &Vec<Entry>, indexed: bool, home: &str) -> (r:
        PalettePlan)
        ensures
            (final(self)@, r@) == old(self)@.refreshed(dir@, rows(entries@), indexed, home@),
    {
        self.gen = if self.gen == u64::MAX {
            0
        } else {
            self.gen + 1
        };
        self.selected = 0;
        self.actions = None;
        let q = trim(self.query.text.as_str());
        let blank = q.as_str().is_empty();
        let none: Vec<PaletteItem> = Vec::new();
        proof {
            assert(items_view(none@) =~= Seq::<ItemView>::empty());
        }
        match self.mode {
            PaletteMode::Search(SearchScope::CurrentFolder) => {
                self.items = if blank {
                    none
                } else {
                    folder_results(dir, entries, q.as_str())
                };
                PalettePlan::Shown
            },
            PaletteMode::Search(SearchScope::Recursive) => {
                if !indexed {
                    self.items = one_item(notice("Indexing current folder…", dir));
                    return PalettePlan::Shown;
                }
                self.items = none;
                if blank {
                    PalettePlan::Shown
                } else {
                    PalettePlan::Recursive { gen: self.gen, query: q, root: owned(dir) }
                }
            },
            _ => {
                if blank {
                    self.items = default_commands(dir);
                    return PalettePlan::Shown;
                }
                let cs = chars_of(q.as_str());
                if cs[0] == '/' || cs[0] == '~' {
                    let (base, partial) = split_path_query(q.as_str(), home);
                    return PalettePlan::List { base, partial };
                }
                self.items = command_matches(q.as_str());
                PalettePlan::Global { gen: self.gen, query: q }
            },
        }
    }

    /// Takes in the names of a folder.
    pub fn show_listed(
        &mut self,
        base: &str,
        partial: &str,
        exists: bool,
        names: &Vec<(String, bool)>,
    )
        ensures
            final(self)@ == old(self)@.listed(base@, partial@, exists, names_view(names@)),
    {
        self.items = if exists {
            path_results(base, partial, names)
        } else {
            one_item(notice("Path not found", base))
        };
    }

    /// Whether a search of the current folder's index is still wanted.
    pub fn wants_recursive(&self, gen: u64, root: &str, dir: &str) -> (r: bool)
        ensures
            r == self@.wants_recursive(gen, root@, dir@),
    {
        self.gen == gen && self.mode == PaletteMode::Search(SearchScope::Recursive) && same_path(
            dir,
            root,
        )
    }

    /// Takes in what a search of the current folder's index found.
    pub fn show_below(
        &mut self,
        gen: u64,
        root: &str,
        dir: &str,
        hits: Vec<(String, String, bool)>,
    )
        ensures
            final(self)@ == old(self)@.found_below(gen, root@, dir@, hits_view(hits@)),
    {
        if self.wants_recursive(gen, root, dir) {
            let mut items: Vec<PaletteItem> = Vec::new();
            let ghost hs = hits_view(hits@);
            push_hits(&mut items, hits);
            proof {
                assert(items_view(items@) =~= hit_items(hs));
            }
            self.items = items;
            self.selected = 0;
        }
    }

    /// Takes in what a search of everything found.
    pub fn show_anywhere(&mut self, gen: u64, q: &str, hits: Vec<(String, String, bool)>)
        ensures
            final(self)@ == old(self)@.found_anywhere(gen, q@, hits_view(hits@)),
    {
        if self.gen == gen {
            let mut items = command_matches(q);
            push_hits(&mut items, hits);
            self.items = items;
            self.selected = 0;
        }
    }

    /// Moves the selection by `delta`, within the results.
    pub fn move_selection(&mut self, delta: i64)
        ensures
            final(self)@ == old(self)@.stepped(delta as int),
    {
        let n: usize = self.items.len();
        if n == 0 {
            return;
        }
        let next: i128 = self.selected as i128 + delta as i128;
        self.selected = if next < 0 {
            0
        } else if next >= n as i128 {
            n - 1
        } else {
            next as usize
        };
    }

    /// What the selected result does, if there is one.
    pub fn chosen(&self) -> (r: Option<Action>)
        ensures
            match r {
                Some(a) => self@.chosen() matches Some(i) && i.action == a@,
                None => self@.chosen() is None,
            },
    {
        if self.selected < self.items.len() {
            proof {
                assert(self@.items[self.selected as int] == self.items@[self.selected as int]@);
            }
            Some(self.items[self.selected].action.copy())
        } else {
            None
        }
    }

    /// The further actions for the selected result, with their labels.
    pub fn palette_action_list(&self) -> (r: Vec<(PaletteAction, String)>)
        ensures
            labels_view(r@) == self@.action_list(),
    {
        let mut v: Vec<(PaletteAction, String)> = Vec::new();
        match self.chosen() {
            Some(Action::Open(_, true)) => {
                v.push((PaletteAction::Open, owned("Open folder")));
                v.push((PaletteAction::OpenNewTab, owned("Open in new tab")));
                v.push((PaletteAction::RevealFinder, owned("Reveal in Finder")));
                v.push((PaletteAction::CopyPath, owned("Copy path")));
            },
            Some(Action::Open(_, false)) => {
                v.push((PaletteAction::Open, owned("Open file")));
                v.push((PaletteAction::RevealShuffle, owned("Show in enclosing folder")));
                v.push((PaletteAction::OpenNewTab, owned("Open folder in new tab")));
                v.push((PaletteAction::RevealFinder, owned("Reveal in Finder")));
                v.push((PaletteAction::CopyPath, owned("Copy path")));
            },
            _ => {},
        }
        proof {
            assert(labels_view(v@) =~= self@.action_list());
        }
        v
    }

    /// Takes the query into the history, where that applies; returns whether it
    /// did, so that the history can be saved.
    pub fn record_palette_history(&mut self, history_on: bool) -> (r: bool)
        ensures
            final(self)@ == old(self)@.recorded(history_on),
            r == (old(self)@.keeps_history(history_on) && trimmed(old(self)@.query.text).len() > 0),
    {
        let applies = history_on && (self.mode == PaletteMode::Commands || self.mode
            == PaletteMode::Search(SearchScope::Global));
        if !applies {
            return false;
        }
        let q = trim(self.query.text.as_str());
        if q.as_str().is_empty() {
            return false;
        }
        let mut h = drop_text(&self.hist, q.as_str());
        h.push(q);
        proof {
            assert(texts(h@) =~= without_text(self@.hist, q@).push(q@));
        }
        if h.len() > 50 {
            let from: usize = h.len() - 50;
            let t = slice_texts(&h, from, h.len());
            proof {
                assert(texts(t@) =~= texts(h@).skip(from as int));
            }
            self.hist = t;
        } else {
            self.hist = h;
        }
        true
    }

    /// Shows the next older query of the history; returns whether there is one.
    pub fn palette_history_prev(&mut self) -> (r: bool)
        requires
            old(self).wf(),
        ensures
            final(self)@ == old(self)@.older(),
            r == (old(self)@.hist.len() > 0),
            final(self).wf(),
    {
        if self.hist.len() == 0 {
            return false;
        }
        let last: usize = self.hist.len() - 1;
        let pos: usize = match self.hist_pos {
            None => last,
            Some(p) => if p == 0 {
                0
            } else if p - 1 < last {
                p - 1
            } else {
                last
            },
        };
        self.hist_pos = Some(pos);
        proof {
            assert(self@.hist[pos as int] == self.hist@[pos as int]@);
        }
        self.query = Field::holding(self.hist[pos].clone());
        true
    }

    /// Shows the next newer query of the history; returns whether one was shown
    /// before.
    pub fn palette_history_next(&mut self) -> (r: bool)
        requires
            old(self).wf(),
        ensures
            final(self)@ == old(self)@.newer(),
            r == (old(self)@.hist_pos is Some),
            final(self).wf(),
    {
        match self.hist_pos {
            None => false,
            Some(p) => {
                if self.hist.len() == 0 || p >= self.hist.len() - 1 {
                    self.hist_pos = None;
                    self.query = Field::empty();
                } else {
                    self.hist_pos = Some(p + 1);
                    proof {
                        assert(self@.hist[p + 1] == self.hist@[p + 1]@);
                    }
                    self.query = Field::holding(self.hist[p + 1].clone());
                }
                true
            },
        }
    }
}

/// Stepping to an older query and on to a newer one shows the same query again,
/// inside the history.
pub proof fn law_older_then_newer(p: PaletteView, at: int)
    requires
        p.hist_pos == Some(at),
        1 <= at < p.hist.len(),
    ensures
        p.older().newer().query.text == p.hist[at],
        p.older().newer().hist_pos == p.hist_pos,
{
}

/// Results of a search that a newer one has overtaken change nothing.
pub proof fn law_late_results_are_dropped(
    p: PaletteView,
    gen: u64,
    q: Seq<char>,
    root: Seq<char>,
    dir: Seq<char>,
    hits: Seq<IndexEntryView>,
)
    requires
        gen != p.gen,
    ensures
        p.found_anywhere(gen, q, hits) == p,
        p.found_below(gen, root, dir, hits) == p,
{
}

/// Every refresh makes results of the search before it late.
pub proof fn law_refresh_overtakes(
    p: PaletteView,
    dir: Seq<char>,
    entries: Seq<EntryView>,
    indexed: bool,
    home: Seq<char>,
)
    ensures
        p.refreshed(dir, entries, indexed, home).0.gen != p.gen,
        p.refreshed(dir, entries, indexed, home).0.selected == 0,
{
}

} // verus!
