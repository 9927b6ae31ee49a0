//! Choosing entries of the pop-up menus: what each of them changes, and what it
//! leads to outside the library.

use crate::fileops::{
    desktop_script, open_with, opening_with, scripted, set_desktop_picture, set_tag, tag_script,
};
use crate::kinds::{Invocation, InvocationView};
use crate::menus::{ImageFormat, MenuCommand, SidebarTarget, service_dir, service_folder};
use crate::places::holds_place;
use crate::shuffle::{Deed, DeedView, Rename, Shuffle, ShuffleView};
use crate::text::{owned, texts};
use crate::workspace::WorkView;
use vstd::prelude::*;

verus! {

/// What choosing an entry of a menu leads to.
pub enum Choice {
    /// Something that a key leads to as well.
    Act(Deed),
    /// Saving the bookmarks.
    SaveBookmarks,
    /// Starting a program.
    Start(Invocation),
    /// Running a program to its end.
    Run(Invocation),
    /// Running a program to its end and reading the pane again.
    Edit { pane: usize, call: Invocation },
    /// Moving a path to the trash, and reading the pane again if it went.
    Discard { pane: usize, path: String },
    /// Unpacking an archive beside itself.
    Extract { pane: usize, path: String },
    /// Turning a picture by a quarter.
    Turn { pane: usize, path: String, left: bool },
    /// Converting a picture.
    Convert { pane: usize, path: String, format: ImageFormat },
    /// Taking the background out of a picture.
    CutOut { pane: usize, path: String },
}

/// What choosing an entry leads to, with texts as characters.
#[verifier::ext_equal]
pub enum ChoiceView {
    Act(DeedView),
    SaveBookmarks,
    Start(InvocationView),
    Run(InvocationView),
    Edit { pane: int, call: InvocationView },
    Discard { pane: int, path: Seq<char> },
    Extract { pane: int, path: Seq<char> },
    Turn { pane: int, path: Seq<char>, left: bool },
    Convert { pane: int, path: Seq<char>, format: ImageFormat },
    CutOut { pane: int, path: Seq<char> },
}

impl View for Choice {
    type V = ChoiceView;

    open spec fn view(&self) -> ChoiceView {
        match self {
            Choice::Act(d) => ChoiceView::Act(d@),
            Choice::SaveBookmarks => ChoiceView::SaveBookmarks,
            Choice::Start(i) => ChoiceView::Start(i@),
            Choice::Run(i) => ChoiceView::Run(i@),
            Choice::Edit { pane, call } => ChoiceView::Edit { pane: *pane as int, call: call@ },
            Choice::Discard { pane, path } => ChoiceView::Discard {
                pane: *pane as int,
                path: path@,
            },
            Choice::Extract { pane, path } => ChoiceView::Extract {
                pane: *pane as int,
                path: path@,
            },
            Choice::Turn { pane, path, left } => ChoiceView::Turn {
                pane: *pane as int,
                path: path@,
                left: *left,
            },
            Choice::Convert { pane, path, format } => ChoiceView::Convert {
                pane: *pane as int,
                path: path@,
                format: *format,
            },
            Choice::CutOut { pane, path } => ChoiceView::CutOut { pane: *pane as int, path: path@ },
        }
    }
}

/// `c` if there was something to do, else only showing the menu closed.
pub open spec fn if_changed(changed: bool, c: ChoiceView) -> ChoiceView {
    if changed {
        c
    } else {
        ChoiceView::Act(DeedView::Redraw)
    }
}

/// What an entry does with its target, beyond changing the window. `apps` are the
/// applications that the level of the menu lists.
pub open spec fn target_choice(
    pane: int,
    path: Seq<char>,
    is_dir: bool,
    c: MenuCommand,
    apps: Seq<Seq<char>>,
) -> ChoiceView {
    match c {
        MenuCommand::Open => ChoiceView::Act(
            if is_dir {
                DeedView::Visit { pane, path }
            } else {
                DeedView::OpenFile(path)
            },
        ),
        MenuCommand::Extract => ChoiceView::Extract { pane, path },
        MenuCommand::ShowContents => ChoiceView::Act(DeedView::Visit { pane, path }),
        MenuCommand::Reveal => ChoiceView::Act(DeedView::Finder(path)),
        MenuCommand::CopyPath => ChoiceView::Act(DeedView::Clipboard(path)),
        MenuCommand::Duplicate => ChoiceView::Act(DeedView::Duplicate { pane, path }),
        MenuCommand::MakeAlias => ChoiceView::Act(DeedView::MakeAlias { pane, path }),
        MenuCommand::Compress => ChoiceView::Act(DeedView::Compress { pane, path }),
        MenuCommand::Trash => ChoiceView::Discard { pane, path },
        MenuCommand::OpenWith(i) => if i < apps.len() {
            ChoiceView::Start(opening_with(apps[i as int], path))
        } else {
            ChoiceView::Act(DeedView::Redraw)
        },
        MenuCommand::Tag(label) => ChoiceView::Edit {
            pane,
            call: scripted(tag_script(path, label as nat)),
        },
        MenuCommand::RotateLeft => ChoiceView::Turn { pane, path, left: true },
        MenuCommand::RotateRight => ChoiceView::Turn { pane, path, left: false },
        MenuCommand::Markup => ChoiceView::Start(opening_with("Preview"@, path)),
        MenuCommand::Convert(format) => ChoiceView::Convert { pane, path, format },
        MenuCommand::RemoveBackground => ChoiceView::CutOut { pane, path },
        MenuCommand::DesktopPicture => ChoiceView::Run(scripted(desktop_script(path))),
        MenuCommand::OpenIn(i) => if i < apps.len() {
            ChoiceView::Start(opening_with(apps[i as int], service_dir(path, is_dir)))
        } else {
            ChoiceView::Act(DeedView::Redraw)
        },
        _ => ChoiceView::Act(DeedView::Redraw),
    }
}

impl ShuffleView {
    /// After an entry of the context menu is chosen.
    pub open spec fn chose(self, c: MenuCommand, apps: Seq<Seq<char>>) -> (
        ShuffleView,
        ChoiceView,
    ) {
        let shut = ShuffleView { menu: None, ..self };
        match (self.menu, c) {
            (None, _) => (self, ChoiceView::Act(DeedView::Idle)),
            (_, MenuCommand::Level(level)) => (
                self.menu_turned(level),
                ChoiceView::Act(DeedView::Redraw),
            ),
            (Some(m), MenuCommand::NewFolder) => (
                shut,
                ChoiceView::Act(DeedView::NewFolder { pane: m.pane }),
            ),
            (Some(m), MenuCommand::NewFile) => (
                shut,
                ChoiceView::Act(DeedView::NewFile { pane: m.pane }),
            ),
            (Some(m), _) => match m.target {
                None => (shut, ChoiceView::Act(DeedView::Redraw)),
                Some((path, is_dir)) => shut.chose_for(m.pane, path, is_dir, c, apps),
            },
        }
    }

    /// After an entry is chosen for a target, with the menu closed.
    pub open spec fn chose_for(
        self,
        pane: int,
        path: Seq<char>,
        is_dir: bool,
        c: MenuCommand,
        apps: Seq<Seq<char>>,
    ) -> (ShuffleView, ChoiceView) {
        match c {
            MenuCommand::Rename => (
                if pane < self.work.panes.len() {
                    self.renaming(pane, path)
                } else {
                    self
                },
                ChoiceView::Act(DeedView::Redraw),
            ),
            MenuCommand::AddBookmark => (
                ShuffleView { side: self.side.bookmarked(path), ..self },
                if_changed(!holds_place(self.side.bookmarks, path), ChoiceView::SaveBookmarks),
            ),
            MenuCommand::RemoveBookmark => (
                ShuffleView { side: self.side.unbookmarked(path), ..self },
                if_changed(holds_place(self.side.bookmarks, path), ChoiceView::SaveBookmarks),
            ),
            MenuCommand::AddToGroup(g) => (
                ShuffleView { side: self.side.joined_group(g as int, path), ..self },
                if_changed(
                    g < self.side.groups.len() && !holds_place(
                        self.side.groups[g as int].paths,
                        path,
                    ),
                    ChoiceView::Act(DeedView::SaveGroups),
                ),
            ),
            _ => (self, target_choice(pane, path, is_dir, c, apps)),
        }
    }

    /// After an entry of the sidebar's menu is chosen.
    pub open spec fn chose_beside(self, t: SidebarTarget, c: MenuCommand) -> (
        ShuffleView,
        ChoiceView,
    ) {
        match (c, t) {
            (MenuCommand::NewGroup, _) => (
                ShuffleView { group_dialog: Some(Seq::empty()), ..self },
                ChoiceView::Act(DeedView::Redraw),
            ),
            (MenuCommand::RemoveBookmark, SidebarTarget::Bookmark(path)) => (
                ShuffleView { side: self.side.unbookmarked(path@), ..self },
                if_changed(holds_place(self.side.bookmarks, path@), ChoiceView::SaveBookmarks),
            ),
            (MenuCommand::DeleteGroup(g), _) => (
                ShuffleView { side: self.side.ungrouped(g as int), ..self },
                if_changed(
                    g < self.side.groups.len(),
                    ChoiceView::Act(DeedView::SaveGroups),
                ),
            ),
            (MenuCommand::RemoveFromGroup(g), SidebarTarget::GroupMember(_, path)) => (
                ShuffleView { side: self.side.left_group(g as int, path@), ..self },
                if_changed(
                    g < self.side.groups.len() && holds_place(
                        self.side.groups[g as int].paths,
                        path@,
                    ),
                    ChoiceView::Act(DeedView::SaveGroups),
                ),
            ),
            _ => (self, ChoiceView::Act(DeedView::Redraw)),
        }
    }
}

fn start_in(apps: &Vec<String>, i: usize, path: &str) -> (r: Choice)
    ensures
        r@ == (if i < apps@.len() {
            ChoiceView::Start(opening_with(texts(apps@)[i as int], path@))
        } else {
            ChoiceView::Act(DeedView::Redraw)
        }),
{
    if i < apps.len() {
        Choice::Start(open_with(apps[i].as_str(), path))
    } else {
        Choice::Act(Deed::Redraw)
    }
}

fn choose_target(
    pane: usize,
    path: String,
    is_dir: bool,
    c: MenuCommand,
    apps: &Vec<String>,
) -> (r: Choice)
    ensures
        r@ == target_choice(pane as int, path@, is_dir, c, texts(apps@)),
{
    match c {
        MenuCommand::Open => if is_dir {
            Choice::Act(Deed::Visit { pane, path })
        } else {
            Choice::Act(Deed::OpenFile(path))
        },
        MenuCommand::Extract => Choice::Extract { pane, path },
        MenuCommand::ShowContents => Choice::Act(Deed::Visit { pane, path }),
        MenuCommand::Reveal => Choice::Act(Deed::Finder(path)),
        MenuCommand::CopyPath => Choice::Act(Deed::Clipboard(path)),
        MenuCommand::Duplicate => Choice::Act(Deed::Duplicate { pane, path }),
        MenuCommand::MakeAlias => Choice::Act(Deed::MakeAlias { pane, path }),
        MenuCommand::Compress => Choice::Act(Deed::Compress { pane, path }),
        MenuCommand::Trash => Choice::Discard { pane, path },
        MenuCommand::OpenWith(i) => start_in(apps, i, path.as_str()),
        MenuCommand::Tag(label) => Choice::Edit { pane, call: set_tag(path.as_str(), label) },
        MenuCommand::RotateLeft => Choice::Turn { pane, path, left: true },
        MenuCommand::RotateRight => Choice::Turn { pane, path, left: false },
        MenuCommand::Markup => Choice::Start(open_with("Preview", path.as_str())),
        MenuCommand::Convert(format) => Choice::Convert { pane, path, format },
        MenuCommand::RemoveBackground => Choice::CutOut { pane, path },
        MenuCommand::DesktopPicture => Choice::Run(set_desktop_picture(path.as_str())),
        MenuCommand::OpenIn(i) => start_in(
            apps,
            i,
            service_folder(path.as_str(), is_dir).as_str(),
        ),
        _ => Choice::Act(Deed::Redraw),
    }
}

fn groups_saved(changed: bool) -> (r: Choice)
    ensures
        r@ == if_changed(changed, ChoiceView::Act(DeedView::SaveGroups)),
{
    if changed {
        Choice::Act(Deed::SaveGroups)
    } else {
        Choice::Act(Deed::Redraw)
    }
}

fn bookmarks_saved(changed: bool) -> (r: Choice)
    ensures
        r@ == if_changed(changed, ChoiceView::SaveBookmarks),
{
    if changed {
        Choice::SaveBookmarks
    } else {
        Choice::Act(Deed::Redraw)
    }
}

impl Shuffle {
    fn choose_for(
        &mut self,
        pane: usize,
        path: String,
        is_dir: bool,
        c: MenuCommand,
        apps: &Vec<String>,
    ) -> (r: Choice)
        requires
            old(self).wf(),
        ensures
            (final(self)@, r@) == old(self)@.chose_for(
                pane as int,
                path@,
                is_dir,
                c,
                texts(apps@),
            ),
            final(self).wf(),
    {
        match c {
            MenuCommand::Rename => {
                if pane < self.work.panes.len() {
                    self.begin_rename(pane, path.as_str());
                }
                Choice::Act(Deed::Redraw)
            },
            MenuCommand::AddBookmark => bookmarks_saved(self.side.bookmark_path(path.as_str())),
            MenuCommand::RemoveBookmark => bookmarks_saved(
                self.side.remove_bookmark(path.as_str()),
            ),
            MenuCommand::AddToGroup(g) => groups_saved(self.side.add_to_group(g, path.as_str())),
            _ => choose_target(pane, path, is_dir, c, apps),
        }
    }

    /// Chooses an entry of the context menu. `apps` are the paths of the
    /// applications that the level of the menu lists.
    pub fn menu_command(&mut self, c: MenuCommand, apps: &Vec<String>) -> (r: Choice)
        requires
            old(self).wf(),
        ensures
            (final(self)@, r@) == old(self)@.chose(c, texts(apps@)),
            final(self).wf(),
    {
        match c {
            MenuCommand::Level(level) => {
                if self.menu.is_none() {
                    return Choice::Act(Deed::Idle);
                }
                self.set_menu_view(level);
                return Choice::Act(Deed::Redraw);
            },
            _ => {},
        }
        match self.menu.take() {
            None => Choice::Act(Deed::Idle),
            Some(m) => match c {
                MenuCommand::NewFolder => Choice::Act(Deed::NewFolder { pane: m.pane }),
                MenuCommand::NewFile => Choice::Act(Deed::NewFile { pane: m.pane }),
                _ => match m.target {
                    None => Choice::Act(Deed::Redraw),
                    Some((path, is_dir)) => self.choose_for(m.pane, path, is_dir, c, apps),
                },
            },
        }
    }

    /// Chooses an entry of the sidebar's menu.
    pub fn sidebar_command(&mut self, t: &SidebarTarget, c: MenuCommand) -> (r: Choice)
        requires
            old(self).wf(),
        ensures
            (final(self)@, r@) == old(self)@.chose_beside(*t, c),
            final(self).wf(),
    {
        match (c, t) {
            (MenuCommand::NewGroup, _) => {
                proof {
                    reveal_strlit("");
                    assert(""@ =~= Seq::<char>::empty());
                }
                self.group_dialog = Some(owned(""));
                Choice::Act(Deed::Redraw)
            },
            (MenuCommand::RemoveBookmark, SidebarTarget::Bookmark(path)) => bookmarks_saved(
                self.side.remove_bookmark(path.as_str()),
            ),
            (MenuCommand::DeleteGroup(g), _) => groups_saved(self.side.delete_group(g)),
            (MenuCommand::RemoveFromGroup(g), SidebarTarget::GroupMember(_, path)) => groups_saved(
                self.side.remove_from_group(g, path.as_str()),
            ),
            _ => Choice::Act(Deed::Redraw),
        }
    }
}

/// Choosing an entry closes the menu, unless the entry leads to another level of
/// it; nothing is opened but a rename, and nothing else changes but the sidebar.
pub proof fn law_choosing_closes_the_menu(s: ShuffleView, c: MenuCommand, apps: Seq<Seq<char>>)
    ensures
        ({
            let t = s.chose(c, apps).0;
            &&& !(c is Level) ==> t.menu is None
            &&& t == ShuffleView {
                menu: t.menu,
                side: t.side,
                rename: t.rename,
                work: WorkView { active: t.work.active, ..s.work },
                ..s
            }
            &&& !(c is Rename) ==> t.work == s.work && t.rename == s.rename
        }),
{
}

} // verus!
