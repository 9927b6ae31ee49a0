//! Panes side by side, each a stack of tabs, and the moves between them.

use vstd::multiset::Multiset;
use crate::field::at_most;
use crate::tabs::{Tab, TabView};
use vstd::prelude::*;

verus! {

/// A pane: a stack of tabs, one of them in front.
pub struct Pane {
    pub tabs: Vec<Tab>,
    pub active: usize,
}

/// The mathematical value of a pane.
#[verifier::ext_equal]
pub struct PaneView {
    pub tabs: Seq<TabView>,
    pub active: int,
}

/// Tabs, as their mathematical values.
pub open spec fn tabs_view(v: Seq<Tab>) -> Seq<TabView> {
    v.map_values(|t: Tab| t@)
}

impl View for Pane {
    type V = PaneView;

    open spec fn view(&self) -> PaneView {
        PaneView { tabs: tabs_view(self.tabs@), active: self.active as int }
    }
}

/// The panes of a window, one of them with the keyboard.
pub struct Workspace {
    pub panes: Vec<Pane>,
    pub active: usize,
}

/// The mathematical value of a workspace.
#[verifier::ext_equal]
pub struct WorkView {
    pub panes: Seq<PaneView>,
    pub active: int,
}

/// Panes, as their mathematical values.
pub open spec fn panes_view(v: Seq<Pane>) -> Seq<PaneView> {
    v.map_values(|p: Pane| p@)
}

impl View for Workspace {
    type V = WorkView;

    open spec fn view(&self) -> WorkView {
        WorkView { panes: panes_view(self.panes@), active: self.active as int }
    }
}

/// What a move did to the split of the window.
#[derive(Clone, Copy, PartialEq, Eq, Structural, Debug)]
pub enum SplitChange {
    /// Nothing.
    Same,
    /// A second pane opened on the right.
    Opened,
    /// A pane went away: the left one, or the right one.
    Collapsed { left: bool },
}

impl PaneView {
    /// Whether the pane holds a tab and the one in front is one of its own.
    pub open spec fn wf(self) -> bool {
        &&& 0 <= self.active < self.tabs.len()
        &&& forall|i: int| 0 <= i < self.tabs.len() ==> (#[trigger] self.tabs[i]).wf()
    }

    /// Without tab `t`: the tab in front stays in front, or a neighbour of it
    /// takes its place.
    pub open spec fn without(self, t: int) -> PaneView {
        let rest = self.tabs.remove(t);
        PaneView {
            tabs: rest,
            active: if rest.len() == 0 {
                self.active
            } else if self.active >= rest.len() {
                rest.len() - 1
            } else if t < self.active {
                self.active - 1
            } else {
                self.active
            },
        }
    }

    /// With a tab put in at `at` and brought to the front.
    pub open spec fn with_tab(self, at: int, t: TabView) -> PaneView {
        PaneView { tabs: self.tabs.insert(at, t), active: at }
    }
}

impl WorkView {
    /// Whether there are one or two panes, all in order, and the keyboard is in
    /// one of them.
    pub open spec fn wf(self) -> bool {
        &&& 1 <= self.panes.len() <= 2
        &&& 0 <= self.active < self.panes.len()
        &&& forall|i: int| 0 <= i < self.panes.len() ==> (#[trigger] self.panes[i]).wf()
    }

    /// The tab in front of pane `p`.
    pub open spec fn tab(self, p: int) -> TabView {
        self.panes[p].tabs[self.panes[p].active]
    }

    /// With the tab in front of pane `p` replaced.
    pub open spec fn with_tab(self, p: int, t: TabView) -> WorkView {
        WorkView {
            panes: self.panes.update(
                p,
                PaneView {
                    tabs: self.panes[p].tabs.update(self.panes[p].active, t),
                    ..self.panes[p]
                },
            ),
            ..self
        }
    }

    /// With the keyboard in pane `p`.
    pub open spec fn focusing(self, p: int) -> WorkView {
        WorkView { active: p, ..self }
    }

    /// With a new tab at the end of pane `p`, in front.
    pub open spec fn opened(self, p: int, t: TabView) -> WorkView {
        let q = self.panes[p];
        WorkView {
            panes: self.panes.update(
                p,
                PaneView { tabs: q.tabs.push(t), active: q.tabs.len() as int },
            ),
            active: p,
        }
    }

    /// With tab `t` of pane `p` in front, if there is one.
    pub open spec fn fronting(self, p: int, t: int) -> WorkView {
        let q = self.panes[p];
        WorkView {
            panes: if t < q.tabs.len() {
                self.panes.update(p, PaneView { active: t, ..q })
            } else {
                self.panes
            },
            active: p,
        }
    }

    /// With tab `t` of pane `p` closed. The last tab of a pane takes the pane
    /// with it; the last tab of the last pane stays.
    pub open spec fn closed(self, p: int, t: int) -> (WorkView, SplitChange) {
        if p >= self.panes.len() || t >= self.panes[p].tabs.len() {
            (self, SplitChange::Same)
        } else if self.panes[p].tabs.len() > 1 {
            (
                WorkView { panes: self.panes.update(p, self.panes[p].without(t)), ..self },
                SplitChange::Same,
            )
        } else if self.panes.len() > 1 {
            (
                WorkView {
                    panes: self.panes.remove(p),
                    active: at_most(self.active, self.panes.len() - 2),
                },
                SplitChange::Collapsed { left: p == 0 },
            )
        } else {
            (self, SplitChange::Same)
        }
    }

    /// Where a tab dropped on pane `p` at place `at` goes: beyond the last of two
    /// panes it goes to the end of the right one.
    pub open spec fn drop_target(self, p: int, at: int) -> (int, int) {
        if p >= self.panes.len() && self.panes.len() >= 2 {
            (self.panes.len() - 1, self.panes.last().tabs.len() as int)
        } else {
            (p, at)
        }
    }

    /// With tab `ft` of pane `fp` dropped on pane `to` at place `at`. Beyond the
    /// only pane it opens a second one, unless it is that pane's only tab; a
    /// pane left empty goes away.
    pub open spec fn dropped(self, fp: int, ft: int, to: int, at: int) -> (WorkView, SplitChange) {
        let (dst, place) = self.drop_target(to, at);
        if fp >= self.panes.len() || ft >= self.panes[fp].tabs.len() || (dst >= self.panes.len()
            && self.panes[fp].tabs.len() == 1) {
            (self, SplitChange::Same)
        } else {
            let moved = self.panes[fp].tabs[ft];
            let rest = self.panes.update(fp, self.panes[fp].without(ft));
            if dst >= self.panes.len() {
                (
                    WorkView {
                        panes: rest.push(PaneView { tabs: seq![moved], active: 0 }),
                        active: rest.len() as int,
                    },
                    SplitChange::Opened,
                )
            } else {
                let shifted = if dst == fp && ft < place {
                    place - 1
                } else {
                    place
                };
                let slot = at_most(shifted, rest[dst].tabs.len() as int);
                let full = rest.update(dst, rest[dst].with_tab(slot, moved));
                if rest[fp].tabs.len() == 0 && fp != dst {
                    (
                        WorkView {
                            panes: full.remove(fp),
                            active: if fp < dst {
                                dst - 1
                            } else {
                                dst
                            },
                        },
                        SplitChange::Collapsed { left: fp == 0 },
                    )
                } else {
                    (WorkView { panes: full, active: dst }, SplitChange::Same)
                }
            }
        }
    }
}

/// All tabs of all panes.
pub open spec fn all_tabs(panes: Seq<PaneView>) -> Multiset<TabView>
    decreases panes.len(),
{
    if panes.len() == 0 {
        Multiset::empty()
    } else {
        all_tabs(panes.drop_last()).add(panes.last().tabs.to_multiset())
    }
}

proof fn lemma_all_tabs_update(panes: Seq<PaneView>, i: int, p: PaneView, x: TabView)
    requires
        0 <= i < panes.len(),
    ensures
        all_tabs(panes.update(i, p)).count(x) + panes[i].tabs.to_multiset().count(x) == all_tabs(
            panes,
        ).count(x) + p.tabs.to_multiset().count(x),
    decreases panes.len(),
{
    let u = panes.update(i, p);
    if i == panes.len() - 1 {
        assert(u.drop_last() == panes.drop_last());
        assert(u.last() == p);
    } else {
        lemma_all_tabs_update(panes.drop_last(), i, p, x);
        assert(u.drop_last() == panes.drop_last().update(i, p));
        assert(u.last() == panes.last());
    }
}

proof fn lemma_all_tabs_remove(panes: Seq<PaneView>, i: int, x: TabView)
    requires
        0 <= i < panes.len(),
    ensures
        all_tabs(panes.remove(i)).count(x) + panes[i].tabs.to_multiset().count(x) == all_tabs(
            panes,
        ).count(x),
    decreases panes.len(),
{
    let r = panes.remove(i);
    if i == panes.len() - 1 {
        assert(r == panes.drop_last());
    } else {
        lemma_all_tabs_remove(panes.drop_last(), i, x);
        assert(r.drop_last() == panes.drop_last().remove(i));
        assert(r.last() == panes.last());
    }
}

/// Dropping a tab elsewhere loses no tab and makes none.
pub proof fn law_drop_keeps_tabs(w: WorkView, fp: int, ft: int, to: int, at: int)
    requires
        w.wf(),
        0 <= fp,
        0 <= ft,
        0 <= to,
        0 <= at,
    ensures
        all_tabs(w.dropped(fp, ft, to, at).0.panes) == all_tabs(w.panes),
{
    let (dst, place) = w.drop_target(to, at);
    let d = w.dropped(fp, ft, to, at).0.panes;
    if !(fp >= w.panes.len() || ft >= w.panes[fp].tabs.len() || (dst >= w.panes.len()
        && w.panes[fp].tabs.len() == 1)) {
        let moved = w.panes[fp].tabs[ft];
        let src = w.panes[fp].without(ft);
        let rest = w.panes.update(fp, src);
        vstd::seq_lib::to_multiset_remove(w.panes[fp].tabs, ft);
        vstd::seq_lib::to_multiset_contains(w.panes[fp].tabs, moved);
        assert(w.panes[fp].tabs.contains(moved));
        assert forall|x: TabView| all_tabs(d).count(x) == all_tabs(w.panes).count(x) by {
            lemma_all_tabs_update(w.panes, fp, src, x);
            if dst >= w.panes.len() {
                assert(d.drop_last() == rest);
                assert(d.last().tabs == seq![moved]);
                assert(seq![moved] == Seq::<TabView>::empty().push(moved));
                vstd::seq_lib::to_multiset_build(Seq::<TabView>::empty(), moved);
                vstd::seq_lib::to_multiset_len(Seq::<TabView>::empty());
                assert(Seq::<TabView>::empty().to_multiset() =~= Multiset::<TabView>::empty());
            } else {
                let shifted = if dst == fp && ft < place {
                    place - 1
                } else {
                    place
                };
                let slot = at_most(shifted, rest[dst].tabs.len() as int);
                let target = rest[dst].with_tab(slot, moved);
                let full = rest.update(dst, target);
                lemma_all_tabs_update(rest, dst, target, x);
                vstd::seq_lib::to_multiset_insert(rest[dst].tabs, slot, moved);
                if rest[fp].tabs.len() == 0 && fp != dst {
                    lemma_all_tabs_remove(full, fp, x);
                    vstd::seq_lib::to_multiset_len(full[fp].tabs);
                    assert(full[fp].tabs.to_multiset() =~= Multiset::<TabView>::empty());
                }
            }
        }
        assert(all_tabs(d) =~= all_tabs(w.panes));
    }
}

/// Closing a tab takes away that tab and no other; the last tab of the last
/// pane stays.
pub proof fn law_close_takes_one(w: WorkView, p: int, t: int)
    requires
        w.wf(),
        0 <= p < w.panes.len(),
        0 <= t < w.panes[p].tabs.len(),
    ensures
        w.panes.len() == 1 && w.panes[0].tabs.len() == 1 ==> w.closed(p, t).0 == w,
        w.panes.len() > 1 || w.panes[0].tabs.len() > 1 ==> all_tabs(w.panes) == all_tabs(
            w.closed(p, t).0.panes,
        ).insert(w.panes[p].tabs[t]),
{
    let q = w.panes[p];
    let gone = q.tabs[t];
    let c = w.closed(p, t).0.panes;
    vstd::seq_lib::to_multiset_remove(q.tabs, t);
    vstd::seq_lib::to_multiset_contains(q.tabs, gone);
    assert(q.tabs.contains(gone));
    if w.panes.len() > 1 || w.panes[0].tabs.len() > 1 {
        assert forall|x: TabView| all_tabs(w.panes).count(x) == all_tabs(c).insert(gone).count(
            x,
        ) by {
            if q.tabs.len() > 1 {
                lemma_all_tabs_update(w.panes, p, q.without(t), x);
            } else {
                lemma_all_tabs_remove(w.panes, p, x);
                vstd::seq_lib::to_multiset_len(q.tabs.remove(t));
                assert(q.tabs.remove(t).to_multiset() =~= Multiset::<TabView>::empty());
            }
        }
        assert(all_tabs(w.panes) =~= all_tabs(c).insert(gone));
    }
}

proof fn lemma_without_wf(q: PaneView, t: int)
    requires
        q.wf(),
        0 <= t < q.tabs.len(),
    ensures
        q.tabs.len() > 1 ==> q.without(t).wf(),
{
    let r = q.without(t);
    assert forall|i: int| 0 <= i < r.tabs.len() implies (#[trigger] r.tabs[i]).wf() by {
        let k = if i < t {
            i
        } else {
            i + 1
        };
        assert(r.tabs[i] == q.tabs[k]);
    }
}

proof fn lemma_with_tab_wf(q: PaneView, at: int, t: TabView)
    requires
        forall|i: int| 0 <= i < q.tabs.len() ==> (#[trigger] q.tabs[i]).wf(),
        0 <= at <= q.tabs.len(),
        t.wf(),
    ensures
        q.with_tab(at, t).wf(),
{
    let r = q.with_tab(at, t);
    assert forall|i: int| 0 <= i < r.tabs.len() implies (#[trigger] r.tabs[i]).wf() by {
        if i < at {
            assert(r.tabs[i] == q.tabs[i]);
        } else if i > at {
            assert(r.tabs[i] == q.tabs[i - 1]);
        }
    }
}

/// Closing and dropping tabs keep the workspace in order: one or two panes, none
/// of them empty, the front tab and the keyboard where there is something.
pub proof fn law_moves_keep_order(w: WorkView, fp: int, ft: int, to: int, at: int)
    requires
        w.wf(),
        0 <= fp,
        0 <= ft,
        0 <= to,
        0 <= at,
    ensures
        w.closed(fp, ft).0.wf(),
        w.dropped(fp, ft, to, at).0.wf(),
{
    if fp < w.panes.len() && ft < w.panes[fp].tabs.len() {
        let src = w.panes[fp];
        lemma_without_wf(src, ft);
        let c = w.closed(fp, ft).0;
        assert forall|i: int| 0 <= i < c.panes.len() implies (#[trigger] c.panes[i]).wf() by {
            if src.tabs.len() > 1 || w.panes.len() == 1 {
                if i != fp {
                    assert(c.panes[i] == w.panes[i]);
                }
            } else {
                let k = if i < fp {
                    i
                } else {
                    i + 1
                };
                assert(c.panes[i] == w.panes[k]);
            }
        }
        let (dst, place) = w.drop_target(to, at);
        let d = w.dropped(fp, ft, to, at).0;
        if !(dst >= w.panes.len() && src.tabs.len() == 1) {
            let moved = src.tabs[ft];
            let rest = w.panes.update(fp, src.without(ft));
            if dst >= w.panes.len() {
                let n = PaneView { tabs: seq![moved], active: 0 };
                assert(n.wf()) by {
                    assert forall|i: int| 0 <= i < n.tabs.len() implies (
                    #[trigger] n.tabs[i]).wf() by {
                        assert(n.tabs[i] == moved);
                    }
                }
                assert forall|i: int| 0 <= i < d.panes.len() implies (
                #[trigger] d.panes[i]).wf() by {
                    if i < w.panes.len() && i != fp {
                        assert(d.panes[i] == w.panes[i]);
                    }
                }
            } else {
                let shifted = if dst == fp && ft < place {
                    place - 1
                } else {
                    place
                };
                let slot = at_most(shifted, rest[dst].tabs.len() as int);
                let r = rest[dst];
                assert forall|i: int| 0 <= i < r.tabs.len() implies (#[trigger] r.tabs[i]).wf() by {
                    if dst == fp {
                        let k = if i < ft {
                            i
                        } else {
                            i + 1
                        };
                        assert(r.tabs[i] == src.tabs[k]);
                    } else {
                        assert(w.panes[dst].wf());
                    }
                }
                lemma_with_tab_wf(r, slot, moved);
                let full = rest.update(dst, r.with_tab(slot, moved));
                assert forall|i: int| 0 <= i < d.panes.len() implies (
                #[trigger] d.panes[i]).wf() by {
                    let k = if rest[fp].tabs.len() == 0 && fp != dst && i >= fp {
                        i + 1
                    } else {
                        i
                    };
                    assert(d.panes[i] == full[k]);
                    if k != dst && k != fp {
                        assert(full[k] == w.panes[k]);
                    }
                }
            }
        }
    }
}

impl Pane {
    /// Whether the pane is in order.
    pub open spec fn wf(&self) -> bool {
        self@.wf()
    }

    /// A pane with one tab.
    pub fn new(tab: Tab) -> (r: Pane)
        ensures
            r@ == (PaneView { tabs: seq![tab@], active: 0 }),
    {
        let mut tabs: Vec<Tab> = Vec::new();
        tabs.push(tab);
        proof {
            assert(tabs_view(tabs@) =~= seq![tab@]);
        }
        Pane { tabs, active: 0 }
    }

    /// The tab in front.
    pub fn active_tab(&self) -> (r: &Tab)
        requires
            self.wf(),
        ensures
            r@ == self@.tabs[self@.active],
            r.wf(),
    {
        proof {
            assert(self@.tabs[self@.active].wf());
            assert(self@.tabs[self@.active] == self.tabs@[self.active as int]@);
        }
        &self.tabs[self.active]
    }

    /// Takes tab `t` out of the pane.
    fn take(&mut self, t: usize) -> (r: Tab)
        requires
            t < old(self)@.tabs.len(),
        ensures
            final(self)@ == old(self)@.without(t as int),
            r@ == old(self)@.tabs[t as int],
    {
        let tab = self.tabs.remove(t);
        if self.tabs.len() > 0 {
            if self.active >= self.tabs.len() {
                self.active = self.tabs.len() - 1;
            } else if t < self.active {
                self.active = self.active - 1;
            }
        }
        proof {
            assert(tabs_view(self.tabs@) =~= old(self)@.tabs.remove(t as int));
        }
        tab
    }

    /// Puts a tab in at `at`, in front.
    fn put(&mut self, at: usize, tab: Tab)
        requires
            at <= old(self)@.tabs.len(),
        ensures
            final(self)@ == old(self)@.with_tab(at as int, tab@),
    {
        self.tabs.insert(at, tab);
        self.active = at;
        proof {
            assert(tabs_view(self.tabs@) =~= old(self)@.tabs.insert(at as int, tab@));
        }
    }
}

impl Workspace {
    /// Whether the workspace is in order.
    pub open spec fn wf(&self) -> bool {
        self@.wf()
    }

    /// A workspace of one pane with one tab.
    pub fn new(tab: Tab) -> (r: Workspace)
        requires
            tab.wf(),
        ensures
            r@ == (WorkView {
                panes: seq![PaneView { tabs: seq![tab@], active: 0 }],
                active: 0,
            }),
            r.wf(),
    {
        let mut panes: Vec<Pane> = Vec::new();
        panes.push(Pane::new(tab));
        let r = Workspace { panes, active: 0 };
        proof {
            let one = PaneView { tabs: seq![tab@], active: 0 };
            assert(panes_view(r.panes@) =~= seq![one]);
            assert(one.wf()) by {
                assert forall|i: int| 0 <= i < one.tabs.len() implies (
                #[trigger] one.tabs[i]).wf() by {
                    assert(one.tabs[i] == tab@);
                }
            }
            assert(r@.panes[0] == one);
        }
        r
    }

    /// The tab in front of a pane.
    pub fn tab(&self, pane: usize) -> (r: &Tab)
        requires
            self.wf(),
            pane < self@.panes.len(),
        ensures
            r@ == self@.tab(pane as int),
            r.wf(),
    {
        proof {
            assert(self@.panes[pane as int].wf());
            assert(self@.panes[pane as int] == self.panes@[pane as int]@);
        }
        self.panes[pane].active_tab()
    }

    /// The tab in front of the pane with the keyboard.
    pub fn active_tab(&self) -> (r: &Tab)
        requires
            self.wf(),
        ensures
            r@ == self@.tab(self@.active),
            r.wf(),
    {
        self.tab(self.active)
    }

    /// The tab in front of a pane, to be changed; the workspace stays in order
    /// if the tab does.
    pub fn tab_mut(&mut self, pane: usize) -> (r: &mut Tab)
        requires
            old(self).wf(),
            pane < old(self)@.panes.len(),
        ensures
            (*r)@ == old(self)@.tab(pane as int),
            r.wf(),
            final(self)@ == old(self)@.with_tab(pane as int, final(r)@),
            final(r).wf() ==> final(self).wf(),
    {
        let ghost w = self@;
        let ghost a = self.panes@[pane as int].active as int;
        proof {
            assert(w.panes[pane as int].wf());
            assert(w.panes[pane as int] == self.panes@[pane as int]@);
            assert(w.panes[pane as int].tabs[a] == self.panes@[pane as int].tabs@[a]@);
        }
        let p = &mut self.panes[pane];
        let at: usize = p.active;
        let r = &mut p.tabs[at];
        proof {
            assert forall|n: Tab|
                #![trigger n@]
                tabs_view(old(self).panes@[pane as int].tabs@.update(a, n)) =~= w.panes[
                    pane as int
                ].tabs.update(a, n@) by {}
            assert forall|q: Pane|
                #![trigger q@]
                panes_view(old(self).panes@.update(pane as int, q)) =~= w.panes.update(
                    pane as int,
                    q@,
                ) by {}
            assert forall|t: TabView| t.wf() implies (#[trigger] w.with_tab(
                pane as int,
                t,
            )).wf() by {
                lemma_with_tab_keeps(w, pane as int, t);
            }
        }
        r
    }

    /// Gives the keyboard to a pane.
    pub fn focus(&mut self, pane: usize)
        requires
            old(self).wf(),
            pane < old(self)@.panes.len(),
        ensures
            final(self)@ == old(self)@.focusing(pane as int),
            final(self).wf(),
    {
        self.active = pane;
    }

    /// Opens a tab at the end of a pane.
    pub fn new_tab_in(&mut self, pane: usize, tab: Tab)
        requires
            old(self).wf(),
            pane < old(self)@.panes.len(),
            tab.wf(),
        ensures
            final(self)@ == old(self)@.opened(pane as int, tab@),
            final(self).wf(),
    {
        let ghost w = self@;
        proof {
            assert(w.panes[pane as int].wf());
            assert(w.panes[pane as int] == self.panes@[pane as int]@);
        }
        let n: usize = self.panes[pane].tabs.len();
        self.panes[pane].put(n, tab);
        self.active = pane;
        proof {
            let q = w.panes[pane as int];
            assert(q.tabs.insert(n as int, tab@) =~= q.tabs.push(tab@));
            assert(panes_view(self.panes@) =~= w.panes.update(
                pane as int,
                PaneView { tabs: q.tabs.push(tab@), active: q.tabs.len() as int },
            ));
            lemma_with_tab_wf(q, n as int, tab@);
            assert forall|i: int| 0 <= i < self@.panes.len() implies (
            #[trigger] self@.panes[i]).wf() by {
                if i != pane {
                    assert(self@.panes[i] == w.panes[i]);
                }
            }
        }
    }

    /// Brings a tab to the front, if it exists.
    pub fn select_tab(&mut self, pane: usize, tab: usize)
        requires
            old(self).wf(),
            pane < old(self)@.panes.len(),
        ensures
            final(self)@ == old(self)@.fronting(pane as int, tab as int),
            final(self).wf(),
    {
        let ghost w = self@;
        proof {
            assert(w.panes[pane as int].wf());
            assert(w.panes[pane as int] == self.panes@[pane as int]@);
        }
        self.active = pane;
        if tab < self.panes[pane].tabs.len() {
            self.panes[pane].active = tab;
            proof {
                assert(panes_view(self.panes@) =~= w.panes.update(
                    pane as int,
                    PaneView { active: tab as int, ..w.panes[pane as int] },
                ));
                assert forall|i: int| 0 <= i < self@.panes.len() implies (
                #[trigger] self@.panes[i]).wf() by {
                    if i != pane {
                        assert(self@.panes[i] == w.panes[i]);
                    }
                }
            }
        }
    }

    /// Closes a tab.
    pub fn close_tab(&mut self, pane: usize, tab: usize) -> (r: SplitChange)
        requires
            old(self).wf(),
        ensures
            (final(self)@, r) == old(self)@.closed(pane as int, tab as int),
            final(self).wf(),
    {
        let ghost w = self@;
        proof {
            law_moves_keep_order(w, pane as int, tab as int, 0, 0);
        }
        if pane >= self.panes.len() {
            return SplitChange::Same;
        }
        proof {
            assert(w.panes[pane as int] == self.panes@[pane as int]@);
        }
        if tab >= self.panes[pane].tabs.len() {
            return SplitChange::Same;
        }
        if self.panes[pane].tabs.len() > 1 {
            let _ = self.panes[pane].take(tab);
            proof {
                assert(panes_view(self.panes@) =~= w.panes.update(
                    pane as int,
                    w.panes[pane as int].without(tab as int),
                ));
            }
            SplitChange::Same
        } else if self.panes.len() > 1 {
            let _ = self.panes.remove(pane);
            proof {
                assert(panes_view(self.panes@) =~= w.panes.remove(pane as int));
            }
            if self.active >= self.panes.len() {
                self.active = self.panes.len() - 1;
            }
            SplitChange::Collapsed { left: pane == 0 }
        } else {
            SplitChange::Same
        }
    }

    /// Moves tab `from_tab` of pane `from_pane` to pane `to_pane` at `to_index`;
    /// a pane beyond the last one stands for the edge that splits the window.
    pub fn move_tab(
        &mut self,
        from_pane: usize,
        from_tab: usize,
        to_pane: usize,
        to_index: usize,
    ) -> (r: SplitChange)
        requires
            old(self).wf(),
        ensures
            (final(self)@, r) == old(self)@.dropped(
                from_pane as int,
                from_tab as int,
                to_pane as int,
                to_index as int,
            ),
            final(self).wf(),
    {
        let ghost w = self@;
        proof {
            law_moves_keep_order(
                w,
                from_pane as int,
                from_tab as int,
                to_pane as int,
                to_index as int,
            );
        }
        if from_pane >= self.panes.len() {
            return SplitChange::Same;
        }
        proof {
            assert forall|i: int| 0 <= i < self.panes@.len() implies w.panes[i]
                == #[trigger] self.panes@[i]@ by {}
            assert(w.panes[from_pane as int] == self.panes@[from_pane as int]@);
        }
        if from_tab >= self.panes[from_pane].tabs.len() {
            return SplitChange::Same;
        }
        let count: usize = self.panes.len();
        let (dst, place): (usize, usize) = if to_pane >= count && count >= 2 {
            proof {
                assert(w.panes.last() == self.panes@[count - 1]@);
            }
            (count - 1, self.panes[count - 1].tabs.len())
        } else {
            (to_pane, to_index)
        };
        let splitting = dst >= count;
        if splitting && self.panes[from_pane].tabs.len() == 1 {
            return SplitChange::Same;
        }
        let tab = self.panes[from_pane].take(from_tab);
        let ghost rest = w.panes.update(
            from_pane as int,
            w.panes[from_pane as int].without(from_tab as int),
        );
        proof {
            assert(panes_view(self.panes@) =~= rest);
        }
        if splitting {
            let ghost n = PaneView { tabs: seq![tab@], active: 0 };
            self.panes.push(Pane::new(tab));
            self.active = count;
            proof {
                assert(panes_view(self.panes@) =~= rest.push(n));
            }
            return SplitChange::Opened;
        }
        let shifted: usize = if dst == from_pane && from_tab < place {
            place - 1
        } else {
            place
        };
        proof {
            assert(rest[dst as int] == self.panes@[dst as int]@);
            assert(rest[from_pane as int] == self.panes@[from_pane as int]@);
        }
        let emptied = self.panes[from_pane].tabs.len() == 0;
        let slot: usize = if shifted < self.panes[dst].tabs.len() {
            shifted
        } else {
            self.panes[dst].tabs.len()
        };
        self.panes[dst].put(slot, tab);
        let ghost full = rest.update(
            dst as int,
            rest[dst as int].with_tab(slot as int, tab@),
        );
        proof {
            assert(panes_view(self.panes@) =~= full);
        }
        if emptied && from_pane != dst {
            let _ = self.panes.remove(from_pane);
            proof {
                assert(panes_view(self.panes@) =~= full.remove(from_pane as int));
            }
            self.active = if from_pane < dst {
                dst - 1
            } else {
                dst
            };
            return SplitChange::Collapsed { left: from_pane == 0 };
        }
        self.active = dst;
        SplitChange::Same
    }
}

/// Replacing the front tab of a pane by one in order keeps the workspace in
/// order.
pub proof fn lemma_with_tab_keeps(w: WorkView, p: int, t: TabView)
    requires
        w.wf(),
        0 <= p < w.panes.len(),
        t.wf(),
    ensures
        w.with_tab(p, t).wf(),
        w.with_tab(p, t).tab(p) == t,
        w.with_tab(p, t).panes.len() == w.panes.len(),
        w.with_tab(p, t).active == w.active,
{
    let r = w.with_tab(p, t);
    assert forall|i: int| 0 <= i < r.panes.len() implies (#[trigger] r.panes[i]).wf() by {
        assert(w.panes[i].wf());
        if i == p {
            let q = r.panes[p];
            assert forall|k: int| 0 <= k < q.tabs.len() implies (#[trigger] q.tabs[k]).wf() by {
                if k != w.panes[p].active {
                    assert(q.tabs[k] == w.panes[p].tabs[k]);
                }
            }
        }
    }
}

} // verus!
