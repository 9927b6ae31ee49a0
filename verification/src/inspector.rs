//! The inspector beside the panes, and the icons that the listings need.

use crate::appearance::{ColorKind, color_label, color_words};
use crate::dates::{date_shown, format_date};
use crate::field::at_most;
use crate::keymap::clone_opt;
use crate::kinds::{FOLDER_KEY, icon_key, icon_key_of, is_pdf, kind_label, label_for, names_pdf};
use crate::listing::{EntryView, Stamp};
use crate::palette::opt_int;
use crate::paths::{file_name, file_name_of, join_path, joined_path, label_of, path_label};
use crate::prefs::Prefs;
use crate::rounding::{format_size, size_text};
use crate::shuffle::{Shuffle, ShuffleView};
use crate::sidebar::{find_text, has_label, labelled_view};
use crate::sorting::positions;
use crate::tabs::ViewMode;
use crate::text::{concat, decimal, decimal_of, opt_text, owned, same, texts};
use crate::workspace::{WorkView, Workspace};
use vstd::prelude::*;

verus! {

// ----- information on a file -----------------------------------------------------------

/// What was found out about a file.
pub struct FileFacts {
    /// Whether it is a folder, and its size; none if it could not be read.
    pub measure: Option<(bool, u64)>,
    pub created: Option<Stamp>,
    pub modified: Option<Stamp>,
    pub accessed: Option<Stamp>,
    /// The width and the height of a picture.
    pub picture: Option<(u32, u32)>,
    pub color: Option<ColorKind>,
    pub signed: Option<String>,
}

impl FileFacts {
    /// Whether every time can be given a calendar date.
    pub open spec fn datable(&self) -> bool {
        &&& self.created matches Some(t) ==> t.datable()
        &&& self.modified matches Some(t) ==> t.datable()
        &&& self.accessed matches Some(t) ==> t.datable()
    }
}

/// The information on a file.
pub struct FileInfo {
    pub kind: String,
    pub size: String,
    pub created: String,
    pub modified: String,
    pub accessed: String,
    pub dimensions: Option<String>,
    pub color: Option<String>,
    pub signed: Option<String>,
}

/// The information on a file, as characters.
#[verifier::ext_equal]
pub struct InfoView {
    pub kind: Seq<char>,
    pub size: Seq<char>,
    pub created: Seq<char>,
    pub modified: Seq<char>,
    pub accessed: Seq<char>,
    pub dimensions: Option<Seq<char>>,
    pub color: Option<Seq<char>>,
    pub signed: Option<Seq<char>>,
}

impl View for FileInfo {
    type V = InfoView;

    open spec fn view(&self) -> InfoView {
        InfoView {
            kind: self.kind@,
            size: self.size@,
            created: self.created@,
            modified: self.modified@,
            accessed: self.accessed@,
            dimensions: opt_text(self.dimensions),
            color: opt_text(self.color),
            signed: opt_text(self.signed),
        }
    }
}

/// The size of a picture in words.
pub open spec fn size_words(w: u32, h: u32) -> Seq<char> {
    decimal_of(w as nat) + " × "@ + decimal_of(h as nat)
}

/// Whether a text shows a time, in whatever zone the machine is in.
pub open spec fn shows_date(text: Seq<char>, t: Option<Stamp>) -> bool {
    exists|east: int| -86_400 < east < 86_400 && text == #[trigger] date_shown(t, east)
}

/// Whether information tells of a path what was found out about it.
pub open spec fn tells(i: InfoView, path: Seq<char>, f: FileFacts) -> bool {
    &&& i.kind == label_for(
        match file_name_of(path) {
            Some(n) => n,
            None => Seq::empty(),
        },
        f.measure matches Some(m) && m.0,
    )
    &&& i.size == (match f.measure {
        Some(m) => size_text(m.0, m.1 as nat),
        None => "--"@,
    })
    &&& shows_date(i.created, f.created)
    &&& shows_date(i.modified, f.modified)
    &&& shows_date(i.accessed, f.accessed)
    &&& i.dimensions == (match f.picture {
        Some(p) => Some(size_words(p.0, p.1)),
        None => None,
    })
    &&& i.color == (match (f.picture, f.color) {
        (Some(_), Some(c)) => Some(color_words(c)),
        _ => None,
    })
    &&& i.signed == opt_text(f.signed)
}

/// The information on a file, from what was found out about it. The colors of a
/// picture count only where its size is known.
pub fn gather_info(path: &str, f: &FileFacts) -> (r: FileInfo)
    requires
        f.datable(),
    ensures
        tells(r@, path@, *f),
{
    let name: String = match file_name(path) {
        Some(n) => n,
        None => owned(""),
    };
    proof {
        reveal_strlit("");
        assert(""@ =~= Seq::<char>::empty());
    }
    let is_dir = match f.measure {
        Some(m) => m.0,
        None => false,
    };
    let size: String = match f.measure {
        Some(m) => format_size(m.0, m.1),
        None => owned("--"),
    };
    let dimensions: Option<String> = match f.picture {
        Some(p) => {
            let a = concat(decimal(p.0 as u64).as_str(), " × ");
            Some(concat(a.as_str(), decimal(p.1 as u64).as_str()))
        },
        None => None,
    };
    let color: Option<String> = match (f.picture, f.color) {
        (Some(_), Some(c)) => Some(color_label(c)),
        _ => None,
    };
    FileInfo {
        kind: kind_label(name.as_str(), is_dir),
        size,
        created: format_date(f.created),
        modified: format_date(f.modified),
        accessed: format_date(f.accessed),
        dimensions,
        color,
        signed: clone_opt(&f.signed),
    }
}

/// A row where there is a value.
pub open spec fn row_if(label: Seq<char>, v: Option<Seq<char>>) -> Seq<(Seq<char>, Seq<char>)> {
    match v {
        Some(t) => seq![(label, t)],
        None => Seq::empty(),
    }
}

/// The rows of the information on a file.
pub open spec fn info_rows(i: InfoView) -> Seq<(Seq<char>, Seq<char>)> {
    seq![
        ("Kind"@, i.kind),
        ("Size"@, i.size),
        ("Created"@, i.created),
        ("Modified"@, i.modified),
        ("Last opened"@, i.accessed),
    ] + row_if("Dimensions"@, i.dimensions) + row_if("Color"@, i.color) + row_if(
        "Signature"@,
        i.signed,
    )
}

fn push_row(v: &mut Vec<(String, String)>, label: &str, value: &Option<String>)
    ensures
        labelled_view(final(v)@) == labelled_view(old(v)@) + row_if(label@, opt_text(*value)),
{
    match value {
        Some(t) => {
            v.push((owned(label), t.clone()));
        },
        None => {},
    }
    proof {
        assert(labelled_view(v@) =~= labelled_view(old(v)@) + row_if(label@, opt_text(*value)));
    }
}

fn rows_of_info(i: &FileInfo) -> (r: Vec<(String, String)>)
    ensures
        labelled_view(r@) == info_rows(i@),
{
    let mut v: Vec<(String, String)> = Vec::new();
    v.push((owned("Kind"), i.kind.clone()));
    v.push((owned("Size"), i.size.clone()));
    v.push((owned("Created"), i.created.clone()));
    v.push((owned("Modified"), i.modified.clone()));
    v.push((owned("Last opened"), i.accessed.clone()));
    proof {
        assert(labelled_view(v@) =~= seq![
            ("Kind"@, i@.kind),
            ("Size"@, i@.size),
            ("Created"@, i@.created),
            ("Modified"@, i@.modified),
            ("Last opened"@, i@.accessed),
        ]);
    }
    push_row(&mut v, "Dimensions", &i.dimensions);
    push_row(&mut v, "Color", &i.color);
    push_row(&mut v, "Signature", &i.signed);
    v
}

// ----- the inspector -------------------------------------------------------------------

/// The pager over a preview: where it is, and whether it can be turned.
pub struct PagerScene {
    pub text: String,
    pub back: bool,
    pub forward: bool,
}

/// The preview of a file.
pub struct PreviewScene {
    /// The page of the document to show, if pages are shown.
    pub page: Option<usize>,
    pub pager: Option<PagerScene>,
}

/// The information in the inspector.
pub enum InfoScene {
    Loading,
    Rows(Vec<(String, String)>),
}

/// The inspector.
pub struct InspectorScene {
    pub path: String,
    pub title: String,
    pub preview: Option<PreviewScene>,
    pub info: Option<InfoScene>,
}

/// The pager, as characters.
#[verifier::ext_equal]
pub struct PagerParts {
    pub text: Seq<char>,
    pub back: bool,
    pub forward: bool,
}

/// The preview, as characters.
#[verifier::ext_equal]
pub struct PreviewParts {
    pub page: Option<int>,
    pub pager: Option<PagerParts>,
}

/// The information in the inspector, as characters.
#[verifier::ext_equal]
pub enum InfoParts {
    Loading,
    Rows(Seq<(Seq<char>, Seq<char>)>),
}

/// The inspector, as characters.
#[verifier::ext_equal]
pub struct InspectorParts {
    pub path: Seq<char>,
    pub title: Seq<char>,
    pub preview: Option<PreviewParts>,
    pub info: Option<InfoParts>,
}

impl View for PagerScene {
    type V = PagerParts;

    open spec fn view(&self) -> PagerParts {
        PagerParts { text: self.text@, back: self.back, forward: self.forward }
    }
}

impl View for PreviewScene {
    type V = PreviewParts;

    open spec fn view(&self) -> PreviewParts {
        PreviewParts {
            page: opt_int(self.page),
            pager: match self.pager {
                Some(p) => Some(p@),
                None => None,
            },
        }
    }
}

impl View for InfoScene {
    type V = InfoParts;

    open spec fn view(&self) -> InfoParts {
        match self {
            InfoScene::Loading => InfoParts::Loading,
            InfoScene::Rows(v) => InfoParts::Rows(labelled_view(v@)),
        }
    }
}

impl View for InspectorScene {
    type V = InspectorParts;

    open spec fn view(&self) -> InspectorParts {
        InspectorParts {
            path: self.path@,
            title: self.title@,
            preview: match self.preview {
                Some(p) => Some(p@),
                None => None,
            },
            info: match self.info {
                Some(i) => Some(i@),
                None => None,
            },
        }
    }
}

/// The page that is shown of a document of `count` pages.
pub open spec fn page_shown(page: int, count: Option<int>) -> int {
    match count {
        Some(c) => at_most(
            page,
            if c > 0 {
                c - 1
            } else {
                0
            },
        ),
        None => 0,
    }
}

/// The pager of a document: only where there is more than one page.
pub open spec fn pager(page: int, count: Option<int>) -> Option<PagerParts> {
    match count {
        Some(c) => if c > 1 {
            Some(
                PagerParts {
                    text: decimal_of((page_shown(page, count) + 1) as nat) + " / "@ + decimal_of(
                        c as nat,
                    ),
                    back: page_shown(page, count) > 0,
                    forward: page_shown(page, count) + 1 < c,
                },
            )
        } else {
            None
        },
        None => None,
    }
}

impl ShuffleView {
    /// Whether the inspector shows a preview; the gallery has its own.
    pub open spec fn previews(self, p: Prefs) -> bool {
        p.preview && self.tab().view != ViewMode::Gallery
    }

    /// The preview of a path, `count` being the number of its pages if it is known.
    pub open spec fn preview_of(self, p: Prefs, path: Seq<char>, count: Option<int>) -> PreviewParts {
        if p.preview_pages && names_pdf(path) {
            PreviewParts {
                page: Some(page_shown(self.page, count)),
                pager: pager(self.page, count),
            }
        } else {
            PreviewParts { page: None, pager: None }
        }
    }

    /// The inspector, if it is shown: it needs a focused item and something to show
    /// of it.
    pub open spec fn inspector(self, p: Prefs, count: Option<int>, info: Option<InfoView>) -> Option<
        InspectorParts,
    > {
        match self.tab().anchor {
            Some(path) => if !self.previews(p) && !p.info {
                None
            } else {
                Some(
                    InspectorParts {
                        path,
                        title: label_of(path),
                        preview: if self.previews(p) {
                            Some(self.preview_of(p, path, count))
                        } else {
                            None
                        },
                        info: if p.info {
                            Some(
                                match info {
                                    Some(i) => InfoParts::Rows(info_rows(i)),
                                    None => InfoParts::Loading,
                                },
                            )
                        } else {
                            None
                        },
                    },
                )
            },
            None => None,
        }
    }

    /// With the pager turned back by one page, and the pages to have ready then.
    pub open spec fn turned_back(self) -> (ShuffleView, Seq<int>) {
        if self.page > 0 {
            (
                ShuffleView { page: self.page - 1, ..self },
                if self.page > 1 {
                    seq![self.page - 1, self.page - 2]
                } else {
                    seq![self.page - 1]
                },
            )
        } else {
            (self, Seq::empty())
        }
    }

    /// With the pager turned on by one page of `count`, and the pages to have ready
    /// then.
    pub open spec fn turned_on(self, count: Option<int>) -> (ShuffleView, Seq<int>) {
        let c = match count {
            Some(n) => n,
            None => 1,
        };
        if self.page + 1 < c {
            (
                ShuffleView { page: self.page + 1, ..self },
                if self.page + 2 < c {
                    seq![self.page + 1, self.page + 2]
                } else {
                    seq![self.page + 1]
                },
            )
        } else {
            (self, Seq::empty())
        }
    }
}

/// The inspector, if it is shown, as characters.
pub open spec fn opt_inspector(r: Option<InspectorScene>) -> Option<InspectorParts> {
    match r {
        Some(x) => Some(x@),
        None => None,
    }
}

/// Information, if it is known, as characters.
pub open spec fn opt_info(r: Option<FileInfo>) -> Option<InfoView> {
    match r {
        Some(x) => Some(x@),
        None => None,
    }
}

fn draw_preview(page: usize, pages: bool, count: Option<usize>) -> (r: PreviewScene)
    ensures
        r@ == (if pages {
            PreviewParts {
                page: Some(page_shown(page as int, opt_int(count))),
                pager: pager(page as int, opt_int(count)),
            }
        } else {
            PreviewParts { page: None, pager: None }
        }),
{
    if !pages {
        return PreviewScene { page: None, pager: None };
    }
    let n: usize = match count {
        Some(c) => c,
        None => 1,
    };
    let last: usize = if n > 0 {
        n - 1
    } else {
        0
    };
    let at: usize = if page <= last {
        page
    } else {
        last
    };
    let known = count.is_some();
    if known && n > 1 {
        let a = concat(decimal((at + 1) as u64).as_str(), " / ");
        let text = concat(a.as_str(), decimal(n as u64).as_str());
        PreviewScene {
            page: Some(at),
            pager: Some(PagerScene { text, back: at > 0, forward: at + 1 < n }),
        }
    } else {
        PreviewScene { page: Some(at), pager: None }
    }
}

impl Shuffle {
    /// The inspector, if it is shown. `count` is the number of pages of the focused
    /// document, and `info` the information on it, as far as they are known.
    pub fn render_inspector(&self, p: &Prefs, count: Option<usize>, info: &Option<FileInfo>) -> (r:
        Option<InspectorScene>)
        requires
            self.wf(),
        ensures
            opt_inspector(r) == self@.inspector(*p, opt_int(count), opt_info(*info)),
    {
        let t = self.work.active_tab();
        let previews = p.preview && t.view != ViewMode::Gallery;
        if !previews && !p.info {
            return None;
        }
        let path: String = match &t.anchor {
            Some(a) => a.clone(),
            None => {
                return None;
            },
        };
        let preview: Option<PreviewScene> = if previews {
            let pages = p.preview_pages && is_pdf(path.as_str());
            Some(draw_preview(self.page, pages, count))
        } else {
            None
        };
        let shown: Option<InfoScene> = if p.info {
            match info {
                Some(i) => Some(InfoScene::Rows(rows_of_info(i))),
                None => Some(InfoScene::Loading),
            }
        } else {
            None
        };
        let title = path_label(path.as_str());
        let scene = InspectorScene { path, title, preview, info: shown };
        proof {
            assert(Some(scene@) =~= self@.inspector(*p, opt_int(count), opt_info(*info)));
        }
        Some(scene)
    }

    /// Turns the pager back; returns the pages to have ready.
    pub fn page_back(&mut self) -> (r: Vec<usize>)
        requires
            old(self).wf(),
        ensures
            (final(self)@, positions(r@)) == old(self)@.turned_back(),
            final(self).wf(),
    {
        let mut v: Vec<usize> = Vec::new();
        if self.page > 0 {
            self.page = self.page - 1;
            v.push(self.page);
            if self.page > 0 {
                v.push(self.page - 1);
            }
        }
        proof {
            assert(positions(v@) =~= old(self)@.turned_back().1);
        }
        v
    }

    /// Turns the pager on; returns the pages to have ready.
    pub fn page_forward(&mut self, count: Option<usize>) -> (r: Vec<usize>)
        requires
            old(self).wf(),
        ensures
            (final(self)@, positions(r@)) == old(self)@.turned_on(opt_int(count)),
            final(self).wf(),
    {
        let n: usize = match count {
            Some(c) => c,
            None => 1,
        };
        let mut v: Vec<usize> = Vec::new();
        if n > 0 && self.page < n - 1 {
            self.page = self.page + 1;
            v.push(self.page);
            if self.page < n - 1 {
                v.push(self.page + 1);
            }
        }
        proof {
            assert(positions(v@) =~= old(self)@.turned_on(opt_int(count)).1);
        }
        v
    }
}

/// Turning a page on and back shows the page that was shown.
pub proof fn law_turning_back_returns(s: ShuffleView, count: Option<int>)
    requires
        s.page >= 0,
        s.turned_on(count).1.len() > 0,
    ensures
        s.turned_on(count).0.turned_back().0 == s,
{
}

// ----- icons for the listings ----------------------------------------------------------

/// The files of a listing, as paths.
pub open spec fn file_paths(dir: Seq<char>, entries: Seq<EntryView>) -> Seq<Seq<char>>
    decreases entries.len(),
{
    if entries.len() == 0 {
        Seq::empty()
    } else {
        let head = file_paths(dir, entries.drop_last());
        if entries.last().is_dir {
            head
        } else {
            head.push(joined_path(dir, entries.last().name))
        }
    }
}

/// The files that the first `n` panes show, as paths.
pub open spec fn visible_files(w: WorkView, n: int) -> Seq<Seq<char>>
    decreases n,
{
    if n <= 0 {
        Seq::empty()
    } else {
        visible_files(w, n - 1) + file_paths(w.tab(n - 1).dir, w.tab(n - 1).entries)
    }
}

/// Whether one of the first `n` panes shows a folder.
pub open spec fn shows_folder(w: WorkView, n: int) -> bool {
    exists|p: int, i: int|
        0 <= p < n && 0 <= i < w.tab(p).entries.len() && (#[trigger] w.tab(p).entries[i]).is_dir
}

/// The icons to make for files: one for each type that is not made yet, from the
/// first file of the type.
pub open spec fn missing_icons(files: Seq<Seq<char>>, made: Seq<Seq<char>>) -> Seq<
    (Seq<char>, Seq<char>),
>
    decreases files.len(),
{
    if files.len() == 0 {
        Seq::empty()
    } else {
        let head = missing_icons(files.drop_last(), made);
        match icon_key_of(files.last()) {
            Some(k) => if made.contains(k) || has_label(head, k) {
                head
            } else {
                head.push((k, files.last()))
            },
            None => head,
        }
    }
}

/// The icons to make for what the panes show; `folder` is where the icon that all
/// folders share is taken from.
pub open spec fn icon_jobs(w: WorkView, made: Seq<Seq<char>>, folder: Seq<char>) -> Seq<
    (Seq<char>, Seq<char>),
> {
    let jobs = missing_icons(visible_files(w, w.panes.len() as int), made);
    if shows_folder(w, w.panes.len() as int) && !made.contains(FOLDER_KEY@) {
        jobs.push((FOLDER_KEY@, folder))
    } else {
        jobs
    }
}

proof fn lemma_missing_extend(files: Seq<Seq<char>>, made: Seq<Seq<char>>, f: Seq<char>)
    ensures
        missing_icons(files.push(f), made) == ({
            let head = missing_icons(files, made);
            match icon_key_of(f) {
                Some(k) => if made.contains(k) || has_label(head, k) {
                    head
                } else {
                    head.push((k, f))
                },
                None => head,
            }
        }),
{
    assert(files.push(f).drop_last() =~= files);
}

fn label_in(v: &Vec<(String, String)>, k: &str) -> (r: bool)
    ensures
        r == has_label(labelled_view(v@), k@),
{
    let mut i: usize = 0;
    while i < v.len()
        invariant
            i <= v.len(),
            forall|j: int| 0 <= j < i ==> (#[trigger] labelled_view(v@)[j]).0 != k@,
        decreases v.len() - i,
    {
        proof {
            assert(labelled_view(v@)[i as int] == (v@[i as int].0@, v@[i as int].1@));
        }
        if same(v[i].0.as_str(), k) {
            return true;
        }
        i += 1;
    }
    false
}

impl Workspace {
    /// The icons to make for what the panes show; `made` are the keys of those that
    /// are.
    pub fn prewarm_icons(&self, made: &Vec<String>, folder: &str) -> (r: Vec<(String, String)>)
        requires
            self.wf(),
        ensures
            labelled_view(r@) == icon_jobs(self@, texts(made@), folder@),
    {
        let mut jobs: Vec<(String, String)> = Vec::new();
        let mut folders = false;
        let mut p: usize = 0;
        let ghost keys = texts(made@);
        proof {
            assert(labelled_view(jobs@) =~= missing_icons(visible_files(self@, 0), keys));
        }
        while p < self.panes.len()
            invariant
                self.wf(),
                p <= self.panes.len(),
                keys == texts(made@),
                labelled_view(jobs@) == missing_icons(visible_files(self@, p as int), keys),
                folders == shows_folder(self@, p as int),
            decreases self.panes.len() - p,
        {
            let t = self.tab(p);
            let ghost before = visible_files(self@, p as int);
            let ghost seen = folders;
            let mut i: usize = 0;
            proof {
                assert(t@.entries.len() == t.entries@.len());
                assert(file_paths(t@.dir, t@.entries.take(0)) =~= Seq::<Seq<char>>::empty());
                assert(before + Seq::<Seq<char>>::empty() =~= before);
            }
            while i < t.entries.len()
                invariant
                    i <= t.entries.len(),
                    keys == texts(made@),
                    t@.entries.len() == t.entries@.len(),
                    labelled_view(jobs@) == missing_icons(
                        before + file_paths(t@.dir, t@.entries.take(i as int)),
                        keys,
                    ),
                    folders == (seen || exists|k: int|
                        0 <= k < i && (#[trigger] t@.entries[k]).is_dir),
                decreases t.entries.len() - i,
            {
                let ghost done = file_paths(t@.dir, t@.entries.take(i as int));
                let ghost list = labelled_view(jobs@);
                let e = &t.entries[i];
                proof {
                    let x = t@.entries.take(i + 1);
                    assert(x.drop_last() =~= t@.entries.take(i as int));
                    assert(x.last() == t@.entries[i as int]);
                    assert(t@.entries[i as int] == e@);
                }
                if e.is_dir {
                    folders = true;
                } else {
                    let path = join_path(t.dir.as_str(), e.name.as_str());
                    proof {
                        assert(before + done.push(path@) =~= (before + done).push(path@));
                        lemma_missing_extend(before + done, keys, path@);
                    }
                    match icon_key(path.as_str()) {
                        Some(k) => {
                            let known = find_text(made, k.as_str()).is_some();
                            let queued = label_in(&jobs, k.as_str());
                            if !known && !queued {
                                let ghost jv = (k@, path@);
                                jobs.push((k, path));
                                proof {
                                    assert(labelled_view(jobs@) =~= list.push(jv));
                                }
                            }
                        },
                        None => {},
                    }
                }
                i += 1;
            }
            proof {
                assert(t@.entries.take(i as int) =~= t@.entries);
                lemma_folder_step(self@, p as int);
            }
            p += 1;
        }
        let known = find_text(made, FOLDER_KEY).is_some();
        if folders && !known {
            let ghost list = labelled_view(jobs@);
            jobs.push((owned(FOLDER_KEY), owned(folder)));
            proof {
                assert(labelled_view(jobs@) =~= list.push((FOLDER_KEY@, folder@)));
            }
        }
        jobs
    }
}

proof fn lemma_folder_step(w: WorkView, p: int)
    requires
        p >= 0,
    ensures
        shows_folder(w, p + 1) == (shows_folder(w, p) || exists|k: int|
            0 <= k < w.tab(p).entries.len() && (#[trigger] w.tab(p).entries[k]).is_dir),
{
    if shows_folder(w, p + 1) {
        let (q, i) = choose|q: int, i: int|
            0 <= q < p + 1 && 0 <= i < w.tab(q).entries.len() && (#[trigger] w.tab(q).entries[i]).is_dir;
        if q < p {
            assert(w.tab(q).entries[i].is_dir);
        } else {
            assert(w.tab(p).entries[i].is_dir);
        }
    }
    if shows_folder(w, p) {
        let (q, i) = choose|q: int, i: int|
            0 <= q < p && 0 <= i < w.tab(q).entries.len() && (#[trigger] w.tab(q).entries[i]).is_dir;
        assert(w.tab(q).entries[i].is_dir);
    }
}

} // verus!
