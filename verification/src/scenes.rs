//! What the panes show: rows, cells, headers, breadcrumbs, tabs and the command
//! bar, as plain values ready to be drawn.

use crate::browse::lead_rows;
use crate::field::{Field, FieldView, at_most};
use crate::kinds::{kind_label, label_for};
use crate::listing::{Entry, EntryView, SortKey, Stamp, rows};
use crate::palette::{opt_int, up_to};
use crate::paths::{
    components, components_of, join_path, joined_path, label_of, parent, parent_of, path_label,
    same_path, same_place,
};
use crate::places::{find_place, holds_place};
use crate::rounding::{format_size, size_text};
use crate::shuffle::{Shuffle, ShuffleView};
use crate::sidebar::{Sidebar, labelled_view};
use crate::tabs::{Tab, TabView, slice_texts};
use crate::terminal::{TermView, Terminal};
use crate::text::{chars_of, concat, owned, piece, same, texts};
use crate::workspace::{WorkView, Workspace};
use vstd::prelude::*;

verus! {

// ----- text fields ---------------------------------------------------------------------

/// A text field as it is drawn: what stands before the selection, the selection,
/// and what stands behind it; with a caret where nothing is selected.
pub struct FieldScene {
    pub head: String,
    pub marked: String,
    pub tail: String,
    pub caret: bool,
}

/// A drawn text field, as characters.
#[verifier::ext_equal]
pub struct FieldParts {
    pub head: Seq<char>,
    pub marked: Seq<char>,
    pub tail: Seq<char>,
    pub caret: bool,
}

impl View for FieldScene {
    type V = FieldParts;

    open spec fn view(&self) -> FieldParts {
        FieldParts {
            head: self.head@,
            marked: self.marked@,
            tail: self.tail@,
            caret: self.caret,
        }
    }
}

/// How a text field is drawn.
pub open spec fn parts_of(f: FieldView) -> FieldParts {
    match f.sel() {
        Some((lo, hi)) => FieldParts {
            head: f.text.take(lo),
            marked: f.text.subrange(lo, hi),
            tail: f.text.skip(hi),
            caret: false,
        },
        None => FieldParts {
            head: f.text.take(f.cursor),
            marked: Seq::empty(),
            tail: f.text.skip(f.cursor),
            caret: true,
        },
    }
}

/// The parts of a drawn field are its text.
pub proof fn law_parts_are_the_text(f: FieldView)
    requires
        f.wf(),
    ensures
        parts_of(f).head + parts_of(f).marked + parts_of(f).tail == f.text,
{
    let p = parts_of(f);
    assert(p.head + p.marked + p.tail =~= f.text);
}

/// Draws a text field.
pub fn draw_field(f: &Field) -> (r: FieldScene)
    requires
        f.wf(),
    ensures
        r@ == parts_of(f@),
{
    let cs = chars_of(f.text.as_str());
    let n: usize = cs.len();
    match f.sel() {
        Some((lo, hi)) => {
            let r = FieldScene {
                head: piece(&cs, 0, lo),
                marked: piece(&cs, lo, hi),
                tail: piece(&cs, hi, n),
                caret: false,
            };
            proof {
                assert(r@ =~= parts_of(f@));
            }
            r
        },
        None => {
            let at: usize = f.cursor;
            let r = FieldScene {
                head: piece(&cs, 0, at),
                marked: piece(&cs, at, at),
                tail: piece(&cs, at, n),
                caret: true,
            };
            proof {
                assert(r@ =~= parts_of(f@));
            }
            r
        },
    }
}

/// An optional drawn field, as characters.
pub open spec fn opt_parts(r: Option<FieldScene>) -> Option<FieldParts> {
    match r {
        Some(x) => Some(x@),
        None => None,
    }
}

// ----- rows of the list ----------------------------------------------------------------

/// A row of the list view.
pub struct RowScene {
    /// Where a click, a drop or a menu on the row leads.
    pub path: String,
    pub name: String,
    pub is_dir: bool,
    /// Whether the row is `..`.
    pub up: bool,
    pub kind: String,
    pub size: String,
    pub date: Option<Stamp>,
    pub selected: bool,
    /// Whether an open menu was opened on the row.
    pub menu: bool,
    /// Whether files can be dropped on the row.
    pub drops: bool,
    /// Whether a drag is over the row.
    pub lit: bool,
    /// The field in which the name is edited, and whether the name can be used.
    pub edit: Option<FieldScene>,
    pub invalid: bool,
    /// Whether the row can be dragged.
    pub drags: bool,
}

/// A row of the list view, as characters.
#[verifier::ext_equal]
pub struct ListRow {
    pub path: Seq<char>,
    pub name: Seq<char>,
    pub is_dir: bool,
    pub up: bool,
    pub kind: Seq<char>,
    pub size: Seq<char>,
    pub date: Option<Stamp>,
    pub selected: bool,
    pub menu: bool,
    pub drops: bool,
    pub lit: bool,
    pub edit: Option<FieldParts>,
    pub invalid: bool,
    pub drags: bool,
}

impl View for RowScene {
    type V = ListRow;

    open spec fn view(&self) -> ListRow {
        ListRow {
            path: self.path@,
            name: self.name@,
            is_dir: self.is_dir,
            up: self.up,
            kind: self.kind@,
            size: self.size@,
            date: self.date,
            selected: self.selected,
            menu: self.menu,
            drops: self.drops,
            lit: self.lit,
            edit: opt_parts(self.edit),
            invalid: self.invalid,
            drags: self.drags,
        }
    }
}

/// Rows of the list view, as characters.
pub open spec fn list_view(v: Seq<RowScene>) -> Seq<ListRow> {
    v.map_values(|r: RowScene| r@)
}

/// The folder that the row `..` leads to.
pub open spec fn upper(dir: Seq<char>) -> Seq<char> {
    match parent_of(dir) {
        Some(p) => p,
        None => "/"@,
    }
}

/// The row `..`.
pub open spec fn up_row(dir: Seq<char>, lit: bool) -> ListRow {
    ListRow {
        path: upper(dir),
        name: ".."@,
        is_dir: true,
        up: true,
        kind: label_for(".."@, true),
        size: size_text(true, 0),
        date: None,
        selected: false,
        menu: false,
        drops: true,
        lit,
        edit: None,
        invalid: false,
        drags: false,
    }
}

impl ShuffleView {
    /// Whether the open menu was opened on a path.
    pub open spec fn menu_on(self, path: Seq<char>) -> bool {
        self.menu matches Some(m) && (m.target matches Some(t) && same_place(t.0, path))
    }

    /// Whether the name of a path is being edited.
    pub open spec fn edits(self, path: Seq<char>) -> bool {
        self.rename matches Some(r) && same_place(r.path, path)
    }

    /// The row of an entry. What is not read yet shows no size and no date.
    pub open spec fn entry_row(
        self,
        dir: Seq<char>,
        t: TabView,
        e: EntryView,
        lit: bool,
        taken: bool,
    ) -> ListRow {
        let path = joined_path(dir, e.name);
        let edited = self.edits(path);
        ListRow {
            path,
            name: e.name,
            is_dir: e.is_dir,
            up: false,
            kind: label_for(e.name, e.is_dir),
            size: if e.loaded {
                size_text(e.is_dir, e.size as nat)
            } else {
                "--"@
            },
            date: if e.loaded {
                e.modified
            } else {
                None
            },
            selected: holds_place(t.selection, path),
            menu: self.menu_on(path),
            drops: e.is_dir,
            lit,
            edit: if edited {
                Some(parts_of(self.rename->0.field))
            } else {
                None
            },
            invalid: edited && self.rename->0.fault(taken) is Some,
            drags: !edited,
        }
    }

    /// Row `ix` of the list view of a pane. `over` is the row that a drag is over,
    /// and `taken` says whether the name that is edited is taken.
    pub open spec fn list_row(
        self,
        pane: int,
        ix: int,
        show_parent: bool,
        over: Option<int>,
        taken: bool,
    ) -> ListRow {
        let t = self.work.tab(pane);
        let lit = over == Some(ix);
        if ix < lead_rows(t, show_parent) {
            up_row(t.dir, lit)
        } else {
            let e = t.entries[t.shown()[ix - lead_rows(t, show_parent)]];
            self.entry_row(t.dir, t, e, lit, taken)
        }
    }

    /// How many rows the list view of a pane has.
    pub open spec fn list_count(self, pane: int, show_parent: bool) -> int {
        self.work.tab(pane).shown().len() + lead_rows(self.work.tab(pane), show_parent)
    }

    /// The rows from `lo` to before `hi` of the list view of a pane.
    pub open spec fn list_rows(
        self,
        pane: int,
        lo: int,
        hi: int,
        show_parent: bool,
        over: Option<int>,
        taken: bool,
    ) -> Seq<ListRow> {
        Seq::new(
            (hi - lo) as nat,
            |k: int| self.list_row(pane, lo + k, show_parent, over, taken),
        )
    }
}

impl Shuffle {
    /// Whether the open menu was opened on a path.
    pub fn is_ctx_target(&self, path: &str) -> (r: bool)
        ensures
            r == self@.menu_on(path@),
    {
        match &self.menu {
            Some(m) => match &m.target {
                Some(t) => same_path(t.0.as_str(), path),
                None => false,
            },
            None => false,
        }
    }

    fn row_of(&self, t: &Tab, e: &Entry, lit: bool, taken: bool) -> (r: RowScene)
        requires
            self.wf(),
        ensures
            r@ == self@.entry_row(t@.dir, t@, e@, lit, taken),
    {
        let path = join_path(t.dir.as_str(), e.name.as_str());
        let mut edit: Option<FieldScene> = None;
        let mut invalid = false;
        let mut drags = true;
        match &self.rename {
            Some(r) => {
                if same_path(r.path.as_str(), path.as_str()) {
                    edit = Some(draw_field(&r.field));
                    invalid = r.rename_error(taken).is_some();
                    drags = false;
                }
            },
            None => {},
        }
        let size: String = if e.loaded {
            format_size(e.is_dir, e.size)
        } else {
            owned("--")
        };
        let selected = find_place(&t.selection, path.as_str()).is_some();
        let menu = self.is_ctx_target(path.as_str());
        RowScene {
            path,
            name: e.name.clone(),
            is_dir: e.is_dir,
            up: false,
            kind: kind_label(e.name.as_str(), e.is_dir),
            size,
            date: if e.loaded {
                e.modified
            } else {
                None
            },
            selected,
            menu,
            drops: e.is_dir,
            lit,
            edit,
            invalid,
            drags,
        }
    }

    /// How many rows the list view of a pane has.
    pub fn list_len(&self, pane: usize, show_parent: bool) -> (r: u128)
        requires
            self.wf(),
            pane < self@.work.panes.len(),
        ensures
            r == self@.list_count(pane as int, show_parent),
    {
        let t = self.work.tab(pane);
        let n: u128 = t.shown_len() as u128;
        if t.has_parent(show_parent) {
            proof {
                assert(t@.find is None);
                assert(t@.shown().len() == t@.entries.len());
            }
            n + 1
        } else {
            n
        }
    }

    /// The rows from `lo` to before `hi` of the list view of a pane.
    pub fn render_list_body(
        &self,
        pane: usize,
        lo: usize,
        hi: usize,
        show_parent: bool,
        over: Option<usize>,
        taken: bool,
    ) -> (r: Vec<RowScene>)
        requires
            self.wf(),
            pane < self@.work.panes.len(),
            lo <= hi <= self@.list_count(pane as int, show_parent),
        ensures
            list_view(r@) == self@.list_rows(
                pane as int,
                lo as int,
                hi as int,
                show_parent,
                opt_int(over),
                taken,
            ),
    {
        let t = self.work.tab(pane);
        let lead: usize = if t.has_parent(show_parent) {
            1
        } else {
            0
        };
        let mut out: Vec<RowScene> = Vec::new();
        let mut ix: usize = lo;
        while ix < hi
            invariant
                self.wf(),
                pane < self@.work.panes.len(),
                t@ == self@.work.tab(pane as int),
                t.wf(),
                lead == lead_rows(t@, show_parent),
                lo <= ix <= hi <= self@.list_count(pane as int, show_parent),
                list_view(out@) == self@.list_rows(
                    pane as int,
                    lo as int,
                    ix as int,
                    show_parent,
                    opt_int(over),
                    taken,
                ),
            decreases hi - ix,
        {
            let ghost before = list_view(out@);
            let lit = match over {
                Some(o) => o == ix,
                None => false,
            };
            let row: RowScene = if ix < lead {
                let up: String = match parent(t.dir.as_str()) {
                    Some(p) => p,
                    None => owned("/"),
                };
                RowScene {
                    path: up,
                    name: owned(".."),
                    is_dir: true,
                    up: true,
                    kind: kind_label("..", true),
                    size: format_size(true, 0),
                    date: None,
                    selected: false,
                    menu: false,
                    drops: true,
                    lit,
                    edit: None,
                    invalid: false,
                    drags: false,
                }
            } else {
                let i: usize = t.shown_row(ix - lead);
                proof {
                    assert(t@.entries[i as int] == t.entries@[i as int]@);
                }
                self.row_of(t, &t.entries[i], lit, taken)
            };
            let ghost rv = row@;
            out.push(row);
            proof {
                assert(rv == self@.list_row(
                    pane as int,
                    ix as int,
                    show_parent,
                    opt_int(over),
                    taken,
                ));
                assert(list_view(out@) =~= before.push(rv));
                assert(list_view(out@) =~= self@.list_rows(
                    pane as int,
                    lo as int,
                    ix + 1,
                    show_parent,
                    opt_int(over),
                    taken,
                ));
            }
            ix += 1;
        }
        proof {
            assert(list_view(out@) =~= self@.list_rows(
                pane as int,
                lo as int,
                hi as int,
                show_parent,
                opt_int(over),
                taken,
            ));
        }
        out
    }
}

// ----- cells of the other views --------------------------------------------------------

/// An item of the icon view, the column view or the gallery.
pub struct CellScene {
    pub path: String,
    pub name: String,
    pub is_dir: bool,
    pub selected: bool,
    /// Whether an open menu was opened on the item.
    pub menu: bool,
}

/// An item of a view, as characters.
#[verifier::ext_equal]
pub struct Cell {
    pub path: Seq<char>,
    pub name: Seq<char>,
    pub is_dir: bool,
    pub selected: bool,
    pub menu: bool,
}

impl View for CellScene {
    type V = Cell;

    open spec fn view(&self) -> Cell {
        Cell {
            path: self.path@,
            name: self.name@,
            is_dir: self.is_dir,
            selected: self.selected,
            menu: self.menu,
        }
    }
}

/// Items of a view, as characters.
pub open spec fn cells_view(v: Seq<CellScene>) -> Seq<Cell> {
    v.map_values(|c: CellScene| c@)
}

/// The lines that `n` icons take up, `cols` on each.
pub open spec fn icon_lines(n: int, cols: int) -> int {
    (n + cols - 1) / cols
}

/// How many items the gallery shows at most.
pub const FILM_CAP: usize = 400;

impl ShuffleView {
    /// The item of an entry.
    pub open spec fn cell(self, dir: Seq<char>, e: EntryView, selected: bool) -> Cell {
        let path = joined_path(dir, e.name);
        Cell { path, name: e.name, is_dir: e.is_dir, selected, menu: self.menu_on(path) }
    }

    /// The items on line `line` of the icon view, `cols` on each.
    pub open spec fn icon_line(self, pane: int, line: int, cols: int) -> Seq<Cell> {
        let t = self.work.tab(pane);
        let n = t.shown().len() as int;
        let from = line * cols;
        let count = if from >= n {
            0
        } else {
            at_most(cols, n - from)
        };
        Seq::new(
            count as nat,
            |k: int|
                {
                    let e = t.entries[t.shown()[from + k]];
                    self.cell(t.dir, e, holds_place(t.selection, joined_path(t.dir, e.name)))
                },
        )
    }

    /// The items of column `k` of the column view, whose rows are `rows`. The folder
    /// that the next column shows is selected, and so is the focused item.
    pub open spec fn column_cells(self, pane: int, k: int, rows: Seq<EntryView>) -> Seq<Cell> {
        let t = self.work.tab(pane);
        let dir = t.columns()[k];
        rows.map_values(
            |e: EntryView|
                {
                    let path = joined_path(dir, e.name);
                    self.cell(
                        dir,
                        e,
                        (k + 1 < t.columns().len() && same_place(t.columns()[k + 1], path)) || (
                        t.anchor matches Some(a) && same_place(a, path)),
                    )
                },
        )
    }

    /// The items of the gallery.
    pub open spec fn film(self, pane: int) -> Seq<Cell> {
        let t = self.work.tab(pane);
        up_to(t.entries, FILM_CAP as int).map_values(
            |e: EntryView|
                self.cell(t.dir, e, holds_place(t.selection, joined_path(t.dir, e.name))),
        )
    }
}

/// How many lines the icon view has.
pub fn icon_line_count(n: usize, cols: usize) -> (r: usize)
    requires
        cols > 0,
    ensures
        r == icon_lines(n as int, cols as int),
{
    let q: usize = n / cols;
    proof {
        let (a, b) = (n as int, cols as int);
        vstd::arithmetic::div_mod::lemma_fundamental_div_mod(a, b);
        vstd::arithmetic::div_mod::lemma_mod_bound(a, b);
        let (d, m) = (a / b, a % b);
        assert(b * (d + 1) == b * d + b) by (nonlinear_arith);
        if m == 0 {
            vstd::arithmetic::div_mod::lemma_fundamental_div_mod_converse(a + b - 1, b, d, b - 1);
        } else {
            vstd::arithmetic::div_mod::lemma_fundamental_div_mod_converse(a + b - 1, b, d + 1, m - 1);
        }
        if m != 0 {
            assert(d < a) by (nonlinear_arith)
                requires
                    a == b * d + m,
                    b >= 1,
                    m >= 1,
                    d >= 0,
            ;
        }
    }
    if n % cols == 0 {
        q
    } else {
        q + 1
    }
}

impl Shuffle {
    fn cell_of(&self, dir: &str, e: &Entry, selected: bool) -> (r: CellScene)
        ensures
            r@ == self@.cell(dir@, e@, selected),
    {
        let path = join_path(dir, e.name.as_str());
        let menu = self.is_ctx_target(path.as_str());
        CellScene { path, name: e.name.clone(), is_dir: e.is_dir, selected, menu }
    }

    /// The items on a line of the icon view, `cols` on each.
    pub fn render_icons_body(&self, pane: usize, line: usize, cols: usize) -> (r: Vec<CellScene>)
        requires
            self.wf(),
            pane < self@.work.panes.len(),
            line * cols + cols <= usize::MAX,
        ensures
            cells_view(r@) == self@.icon_line(pane as int, line as int, cols as int),
    {
        let t = self.work.tab(pane);
        let n: usize = t.shown_len();
        let from: usize = line * cols;
        let ghost all = self@.icon_line(pane as int, line as int, cols as int);
        let mut out: Vec<CellScene> = Vec::new();
        let mut c: usize = 0;
        proof {
            assert(cells_view(out@) =~= all.take(0));
        }
        while c < cols && from + c < n
            invariant
                self.wf(),
                pane < self@.work.panes.len(),
                t@ == self@.work.tab(pane as int),
                t.wf(),
                n == t@.shown().len(),
                from == line * cols,
                from + cols <= usize::MAX,
                c <= cols,
                all == self@.icon_line(pane as int, line as int, cols as int),
                c <= all.len(),
                cells_view(out@) == all.take(c as int),
            decreases cols - c,
        {
            let i: usize = t.shown_row(from + c);
            proof {
                assert(t@.entries[i as int] == t.entries@[i as int]@);
                assert(i == t@.shown()[from + c]);
            }
            let e = &t.entries[i];
            let path = join_path(t.dir.as_str(), e.name.as_str());
            let selected = find_place(&t.selection, path.as_str()).is_some();
            let cell = self.cell_of(t.dir.as_str(), e, selected);
            let ghost cv = cell@;
            out.push(cell);
            proof {
                assert(cv == all[c as int]);
                assert(cells_view(out@) =~= all.take(c as int).push(cv));
                assert(cells_view(out@) =~= all.take(c + 1));
            }
            c += 1;
        }
        proof {
            assert(all.take(c as int) =~= all);
        }
        out
    }

    /// The items of a column of the column view, whose rows are `list`.
    pub fn render_columns_body(&self, pane: usize, k: usize, list: &Vec<Entry>) -> (r: Vec<CellScene>)
        requires
            self.wf(),
            pane < self@.work.panes.len(),
            k < self@.work.tab(pane as int).columns().len(),
        ensures
            cells_view(r@) == self@.column_cells(pane as int, k as int, rows(list@)),
    {
        let t = self.work.tab(pane);
        proof {
            assert(t@.columns().len() == t.col_chain@.len() + 1);
        }
        let dir = t.column_dir(k);
        let next: Option<String> = if k < t.col_chain.len() {
            Some(t.column_dir(k + 1))
        } else {
            None
        };
        let ghost all = self@.column_cells(pane as int, k as int, rows(list@));
        let mut out: Vec<CellScene> = Vec::new();
        let mut i: usize = 0;
        proof {
            assert(cells_view(out@) =~= all.take(0));
        }
        while i < list.len()
            invariant
                self.wf(),
                t@ == self@.work.tab(pane as int),
                t@.columns().len() == t.col_chain@.len() + 1,
                dir@ == t@.columns()[k as int],
                next is Some == (k + 1 < t@.columns().len()),
                next matches Some(d) ==> d@ == t@.columns()[k + 1],
                i <= list.len(),
                all == self@.column_cells(pane as int, k as int, rows(list@)),
                cells_view(out@) == all.take(i as int),
            decreases list.len() - i,
        {
            let e = &list[i];
            let path = join_path(dir.as_str(), e.name.as_str());
            let opens = match &next {
                Some(d) => same_path(d.as_str(), path.as_str()),
                None => false,
            };
            let focused = match &t.anchor {
                Some(a) => same_path(a.as_str(), path.as_str()),
                None => false,
            };
            let cell = self.cell_of(dir.as_str(), e, opens || focused);
            let ghost cv = cell@;
            out.push(cell);
            proof {
                assert(rows(list@)[i as int] == list@[i as int]@);
                assert(cv == all[i as int]);
                assert(cells_view(out@) =~= all.take(i as int).push(cv));
                assert(cells_view(out@) =~= all.take(i + 1));
            }
            i += 1;
        }
        proof {
            assert(all.take(i as int) =~= all);
        }
        out
    }

    /// The items of the gallery.
    pub fn render_gallery_body(&self, pane: usize) -> (r: Vec<CellScene>)
        requires
            self.wf(),
            pane < self@.work.panes.len(),
        ensures
            cells_view(r@) == self@.film(pane as int),
    {
        let t = self.work.tab(pane);
        let ghost all = self@.film(pane as int);
        let mut out: Vec<CellScene> = Vec::new();
        let mut i: usize = 0;
        proof {
            assert(cells_view(out@) =~= all.take(0));
            assert(t@.entries.len() == t.entries@.len());
        }
        while i < t.entries.len() && i < FILM_CAP
            invariant
                t@ == self@.work.tab(pane as int),
                t@.entries.len() == t.entries@.len(),
                i <= t.entries.len(),
                i <= FILM_CAP,
                all == self@.film(pane as int),
                cells_view(out@) == all.take(i as int),
            decreases FILM_CAP - i,
        {
            let e = &t.entries[i];
            let path = join_path(t.dir.as_str(), e.name.as_str());
            let selected = find_place(&t.selection, path.as_str()).is_some();
            let cell = self.cell_of(t.dir.as_str(), e, selected);
            let ghost cv = cell@;
            out.push(cell);
            proof {
                assert(t@.entries[i as int] == t.entries@[i as int]@);
                assert(up_to(t@.entries, FILM_CAP as int)[i as int] == t@.entries[i as int]);
                assert(cv == all[i as int]);
                assert(cells_view(out@) =~= all.take(i as int).push(cv));
                assert(cells_view(out@) =~= all.take(i + 1));
            }
            i += 1;
        }
        proof {
            assert(all.take(i as int) =~= all);
        }
        out
    }
}

// ----- headers, breadcrumbs and tabs ---------------------------------------------------

/// The title of a column of the list view: an arrow shows the direction of the
/// column that it is sorted by.
pub open spec fn header_text(label: Seq<char>, own: SortKey, key: SortKey, asc: bool) -> Seq<char> {
    if own != key {
        label
    } else if asc {
        label + " ▲"@
    } else {
        label + " ▼"@
    }
}

/// The columns of the list view: what each sorts by, and its title.
pub open spec fn header_cells(key: SortKey, asc: bool) -> Seq<(SortKey, Seq<char>)> {
    seq![
        (SortKey::Name, header_text("Name"@, SortKey::Name, key, asc)),
        (SortKey::Kind, header_text("Kind"@, SortKey::Kind, key, asc)),
        (SortKey::Modified, header_text("Date Modified"@, SortKey::Modified, key, asc)),
        (SortKey::Size, header_text("Size"@, SortKey::Size, key, asc)),
    ]
}

/// Titles of columns, as characters.
pub open spec fn titles_view(v: Seq<(SortKey, String)>) -> Seq<(SortKey, Seq<char>)> {
    v.map_values(|p: (SortKey, String)| (p.0, p.1@))
}

fn header_cell(label: &str, own: SortKey, key: SortKey, asc: bool) -> (r: String)
    ensures
        r@ == header_text(label@, own, key, asc),
{
    if own != key {
        owned(label)
    } else if asc {
        concat(label, " ▲")
    } else {
        concat(label, " ▼")
    }
}

/// The columns of the list view.
pub fn column_header(key: SortKey, asc: bool) -> (r: Vec<(SortKey, String)>)
    ensures
        titles_view(r@) == header_cells(key, asc),
{
    let mut v: Vec<(SortKey, String)> = Vec::new();
    v.push((SortKey::Name, header_cell("Name", SortKey::Name, key, asc)));
    v.push((SortKey::Kind, header_cell("Kind", SortKey::Kind, key, asc)));
    v.push((SortKey::Modified, header_cell("Date Modified", SortKey::Modified, key, asc)));
    v.push((SortKey::Size, header_cell("Size", SortKey::Size, key, asc)));
    proof {
        assert(titles_view(v@) =~= header_cells(key, asc));
    }
    v
}

/// The breadcrumbs of a path with the given components: a label and the path that
/// it leads to; what only points up or stays is passed over.
pub open spec fn crumbs(parts: Seq<Seq<char>>) -> Seq<(Seq<char>, Seq<char>)>
    decreases parts.len(),
{
    if parts.len() == 0 {
        Seq::empty()
    } else {
        let head = crumbs(parts.drop_last());
        let p = parts.last();
        if p == ".."@ || p == "."@ {
            head
        } else {
            let full = joined_path(
                if head.len() == 0 {
                    Seq::empty()
                } else {
                    head.last().1
                },
                p,
            );
            head.push(
                (
                    if p == "/"@ {
                        "Macintosh HD"@
                    } else {
                        p
                    },
                    full,
                ),
            )
        }
    }
}

/// The breadcrumbs of a path.
pub fn render_breadcrumb(dir: &str) -> (r: Vec<(String, String)>)
    ensures
        labelled_view(r@) == crumbs(components_of(dir@)),
{
    let parts = components(dir);
    let mut out: Vec<(String, String)> = Vec::new();
    let mut i: usize = 0;
    proof {
        assert(labelled_view(out@) =~= crumbs(texts(parts@).take(0)));
    }
    while i < parts.len()
        invariant
            i <= parts.len(),
            texts(parts@) == components_of(dir@),
            labelled_view(out@) == crumbs(texts(parts@).take(i as int)),
        decreases parts.len() - i,
    {
        let ghost before = labelled_view(out@);
        proof {
            let t = texts(parts@).take(i + 1);
            assert(t.drop_last() =~= texts(parts@).take(i as int));
            assert(t.last() == parts@[i as int]@);
            assert(before.len() == out@.len());
        }
        let p = parts[i].as_str();
        if !(same(p, "..") || same(p, ".")) {
            let n: usize = out.len();
            let full: String = if n == 0 {
                proof {
                    reveal_strlit("");
                    assert(""@ =~= Seq::<char>::empty());
                }
                join_path("", p)
            } else {
                proof {
                    assert(before[n - 1] == (out@[n - 1].0@, out@[n - 1].1@));
                }
                join_path(out[n - 1].1.as_str(), p)
            };
            let label: String = if same(p, "/") {
                owned("Macintosh HD")
            } else {
                owned(p)
            };
            let ghost pv = (label@, full@);
            out.push((label, full));
            proof {
                assert(labelled_view(out@) =~= before.push(pv));
            }
        }
        i += 1;
    }
    proof {
        assert(texts(parts@).take(i as int) =~= texts(parts@));
    }
    out
}

/// A tab in the strip above a pane: its label, and whether it has the keyboard.
pub open spec fn chips(w: WorkView, pane: int) -> Seq<(Seq<char>, bool)> {
    Seq::new(
        w.panes[pane].tabs.len(),
        |i: int|
            (label_of(w.panes[pane].tabs[i].dir), i == w.panes[pane].active && pane == w.active),
    )
}

/// Tabs of a strip, as characters.
pub open spec fn chips_view(v: Seq<(String, bool)>) -> Seq<(Seq<char>, bool)> {
    v.map_values(|p: (String, bool)| (p.0@, p.1))
}

impl Workspace {
    /// The tabs in the strip above a pane.
    pub fn render_tab_strip(&self, pane: usize) -> (r: Vec<(String, bool)>)
        requires
            self.wf(),
            pane < self@.panes.len(),
        ensures
            chips_view(r@) == chips(self@, pane as int),
    {
        let p = &self.panes[pane];
        let ghost all = chips(self@, pane as int);
        proof {
            assert(self@.panes[pane as int] == p@);
            assert(p@.tabs.len() == p.tabs@.len());
        }
        let mut out: Vec<(String, bool)> = Vec::new();
        let mut i: usize = 0;
        proof {
            assert(chips_view(out@) =~= all.take(0));
        }
        while i < p.tabs.len()
            invariant
                i <= p.tabs.len(),
                self@.panes[pane as int] == p@,
                p@.tabs.len() == p.tabs@.len(),
                all == chips(self@, pane as int),
                chips_view(out@) == all.take(i as int),
            decreases p.tabs.len() - i,
        {
            let label = path_label(p.tabs[i].dir.as_str());
            let on = i == p.active && pane == self.active;
            let ghost cv = (label@, on);
            out.push((label, on));
            proof {
                assert(p@.tabs[i as int] == p.tabs@[i as int]@);
                assert(cv == all[i as int]);
                assert(chips_view(out@) =~= all.take(i as int).push(cv));
                assert(chips_view(out@) =~= all.take(i + 1));
            }
            i += 1;
        }
        proof {
            assert(all.take(i as int) =~= all);
        }
        out
    }
}

impl Tab {
    /// Whether the arrows back and forward lead anywhere.
    pub fn render_path_bar(&self) -> (r: (bool, bool))
        requires
            self.wf(),
        ensures
            r.0 == (self@.hist_pos > 0),
            r.1 == (self@.hist_pos + 1 < self@.history.len()),
    {
        proof {
            assert(self.history@.len() == self@.history.len());
        }
        (self.hist_pos > 0, self.hist_pos < self.history.len() - 1)
    }
}

// ----- the command bar and the dialogs -------------------------------------------------

/// The prompt of the command bar.
pub open spec fn prompt_text(dir: Seq<char>) -> Seq<char> {
    label_of(dir) + " ❯"@
}

/// The line of the command bar: a hint while nothing is typed and it does not have
/// the keyboard, and a caret while it has.
pub open spec fn command_text(t: TermView) -> Seq<char> {
    if t.input.len() == 0 && !t.focused {
        "Type a command… (cd to navigate, Tab to autocomplete)"@
    } else if t.focused {
        t.input + "│"@
    } else {
        t.input
    }
}

impl Terminal {
    /// The prompt, the line, and whether output is shown.
    pub fn render_terminal_bar(&self, dir: &str, history_on: bool) -> (r: (String, String, bool))
        ensures
            r.0@ == prompt_text(dir@),
            r.1@ == command_text(self@),
            r.2 == (history_on && self@.output.len() > 0),
    {
        let prompt = concat(path_label(dir).as_str(), " ❯");
        let empty = self.input.as_str().is_empty();
        let line: String = if empty && !self.focused {
            owned("Type a command… (cd to navigate, Tab to autocomplete)")
        } else if self.focused {
            concat(self.input.as_str(), "│")
        } else {
            self.input.clone()
        };
        proof {
            assert(self.output@.len() == self@.output.len());
        }
        (prompt, line, history_on && self.output.len() > 0)
    }
}

/// What a line of a dialog shows: a hint while it is empty.
pub open spec fn dialog_text(typed: Seq<char>, hint: Seq<char>) -> Seq<char> {
    if typed.len() == 0 {
        hint
    } else {
        typed
    }
}

fn dialog_line(typed: &str, hint: &str) -> (r: String)
    ensures
        r@ == dialog_text(typed@, hint@),
{
    if typed.is_empty() {
        owned(hint)
    } else {
        owned(typed)
    }
}

/// What the dialog for a server shows: its line, and the servers offered.
pub fn render_server_dialog(typed: &str, side: &Sidebar) -> (r: (String, Vec<String>))
    ensures
        r.0@ == dialog_text(typed@, "smb://server/share"@),
        texts(r.1@) == up_to(side@.servers, 6),
{
    let n: usize = side.servers.len();
    let m: usize = if n < 6 {
        n
    } else {
        6
    };
    let offered = slice_texts(&side.servers, 0, m);
    proof {
        assert(side@.servers.len() == n);
        assert(texts(offered@) =~= up_to(side@.servers, 6));
    }
    (dialog_line(typed, "smb://server/share"), offered)
}

/// What the dialog for a group shows.
pub fn render_group_dialog(typed: &str) -> (r: String)
    ensures
        r@ == dialog_text(typed@, "Group name"@),
{
    dialog_line(typed, "Group name")
}

/// The find bar: its field, or none while nothing is typed, and how many items
/// match.
pub struct FindScene {
    pub field: Option<FieldScene>,
    pub count: usize,
}

/// What the find bar shows, if it is open.
pub fn render_find_box(t: &Tab) -> (r: Option<FindScene>)
    requires
        t.wf(),
    ensures
        r is Some == t@.find is Some,
        r matches Some(b) ==> b.count == t@.find_results.len() && opt_parts(b.field) == (if t@.find->0.text.len()
            == 0 {
            None
        } else {
            Some(parts_of(t@.find->0))
        }),
{
    match &t.find {
        Some(f) => {
            let count: usize = t.find_results.len();
            if f.text.as_str().is_empty() {
                Some(FindScene { field: None, count })
            } else {
                Some(FindScene { field: Some(draw_field(f)), count })
            }
        },
        None => None,
    }
}

} // verus!
