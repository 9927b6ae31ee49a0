//! The pop-up menus: which entries they have, in which order, and what each one
//! does.

use crate::kinds::{archive_kind, archive_suffix, is_image, is_pdf, names_image, names_pdf};
use crate::listing::{SortKey, sort_label};
use crate::paths::{
    extension, extension_of, file_stem, label_of, parent, parent_of, path_label, stem_of,
};
use crate::persist::GroupView;
use crate::places::{find_place, holds_place};
use crate::prefs::Prefs;
use crate::shuffle::Rename;
use crate::sidebar::{Sidebar, SidebarView, by_label, has_label, labelled_view, sort_labelled};
use crate::text::{concat, decimal, decimal_of, owned, same, texts};
use vstd::prelude::*;

verus! {

/// The level of the context menu that is shown.
#[derive(Clone, Copy, PartialEq, Eq, Structural, Debug)]
pub enum MenuView {
    Root,
    OpenWith,
    Tags,
    QuickActions,
    Services,
    AddToGroup,
}

/// The formats that images are converted to.
#[derive(Clone, Copy, PartialEq, Eq, Structural, Debug)]
pub enum ImageFormat {
    Pdf,
    Jpeg,
    Png,
    Heic,
}

/// What an entry of a menu does.
#[derive(Clone, Copy, PartialEq, Eq, Structural, Debug)]
pub enum MenuCommand {
    Open,
    Level(MenuView),
    Extract,
    ShowContents,
    Rename,
    Reveal,
    CopyPath,
    AddBookmark,
    RemoveBookmark,
    Duplicate,
    MakeAlias,
    Compress,
    Trash,
    NewFolder,
    NewFile,
    /// Opens the target with an application, by its place in the list.
    OpenWith(usize),
    AddToGroup(usize),
    /// Sets the color label with the given number.
    Tag(u8),
    RotateLeft,
    RotateRight,
    Markup,
    Convert(ImageFormat),
    RemoveBackground,
    DesktopPicture,
    /// Opens the folder in a terminal, by its place in the list.
    OpenIn(usize),
    NewGroup,
    DeleteGroup(usize),
    RemoveFromGroup(usize),
}

/// An entry of a menu.
pub enum MenuEntry {
    Separator,
    /// An entry that cannot be chosen.
    Disabled { label: String },
    /// An entry that can; a color shows as a dot in front of it.
    Item { label: String, command: MenuCommand, dot: Option<u32> },
}

/// An entry of a menu, with its label as characters.
#[verifier::ext_equal]
pub enum EntryOfMenu {
    Separator,
    Disabled { label: Seq<char> },
    Item { label: Seq<char>, command: MenuCommand, dot: Option<u32> },
}

impl View for MenuEntry {
    type V = EntryOfMenu;

    open spec fn view(&self) -> EntryOfMenu {
        match self {
            MenuEntry::Separator => EntryOfMenu::Separator,
            MenuEntry::Disabled { label } => EntryOfMenu::Disabled { label: label@ },
            MenuEntry::Item { label, command, dot } => EntryOfMenu::Item {
                label: label@,
                command: *command,
                dot: *dot,
            },
        }
    }
}

/// Entries of a menu, with labels as characters.
pub open spec fn menu_view(v: Seq<MenuEntry>) -> Seq<EntryOfMenu> {
    v.map_values(|e: MenuEntry| e@)
}

/// A plain entry.
pub open spec fn entry(label: Seq<char>, command: MenuCommand) -> EntryOfMenu {
    EntryOfMenu::Item { label, command, dot: None }
}

/// An entry that cannot be chosen.
pub open spec fn disabled(label: Seq<char>) -> EntryOfMenu {
    EntryOfMenu::Disabled { label }
}

/// `e` alone if `c`, else nothing.
pub open spec fn entry_if(c: bool, e: EntryOfMenu) -> Seq<EntryOfMenu> {
    if c {
        seq![e]
    } else {
        Seq::empty()
    }
}

fn push_item(out: &mut Vec<MenuEntry>, label: &str, command: MenuCommand)
    ensures
        menu_view(final(out)@) == menu_view(old(out)@).push(entry(label@, command)),
{
    let ghost before = menu_view(out@);
    let e = MenuEntry::Item { label: owned(label), command, dot: None };
    out.push(e);
    proof {
        assert(menu_view(out@) =~= before.push(e@));
    }
}

fn push_separator(out: &mut Vec<MenuEntry>)
    ensures
        menu_view(final(out)@) == menu_view(old(out)@).push(EntryOfMenu::Separator),
{
    let ghost before = menu_view(out@);
    out.push(MenuEntry::Separator);
    proof {
        assert(menu_view(out@) =~= before.push(EntryOfMenu::Separator));
    }
}

fn push_disabled(out: &mut Vec<MenuEntry>, label: &str)
    ensures
        menu_view(final(out)@) == menu_view(old(out)@).push(disabled(label@)),
{
    let ghost before = menu_view(out@);
    let e = MenuEntry::Disabled { label: owned(label) };
    out.push(e);
    proof {
        assert(menu_view(out@) =~= before.push(e@));
    }
}

/// The entries for a target in the first level of the context menu.
pub open spec fn target_entries(
    path: Seq<char>,
    is_dir: bool,
    bookmarked: bool,
    groups: bool,
) -> Seq<EntryOfMenu> {
    seq![
        entry("Open"@, MenuCommand::Open),
        entry("Open With"@, MenuCommand::Level(MenuView::OpenWith)),
    ] + entry_if(archive_kind(path) is Some, entry("Extract Here"@, MenuCommand::Extract))
        + entry_if(
        is_dir && extension_of(path) == Some("app"@),
        entry("Show Package Contents"@, MenuCommand::ShowContents),
    ) + seq![
        EntryOfMenu::Separator,
        entry("Rename"@, MenuCommand::Rename),
        entry("Reveal in Finder"@, MenuCommand::Reveal),
        entry("Copy Path"@, MenuCommand::CopyPath),
        if bookmarked {
            entry("Remove Bookmark"@, MenuCommand::RemoveBookmark)
        } else {
            entry("Add to Bookmarks"@, MenuCommand::AddBookmark)
        },
    ] + entry_if(groups, entry("Add to Group"@, MenuCommand::Level(MenuView::AddToGroup))) + seq![
        entry("Duplicate"@, MenuCommand::Duplicate),
        entry("Make Alias"@, MenuCommand::MakeAlias),
        entry("Compress"@, MenuCommand::Compress),
        EntryOfMenu::Separator,
        entry("Move to Trash"@, MenuCommand::Trash),
        EntryOfMenu::Separator,
        entry("Tags"@, MenuCommand::Level(MenuView::Tags)),
        entry("Quick Actions"@, MenuCommand::Level(MenuView::QuickActions)),
        entry("Services"@, MenuCommand::Level(MenuView::Services)),
        EntryOfMenu::Separator,
    ]
}

/// The first level of the context menu: what can be done with the target, if
/// there is one, and then what can be made.
pub open spec fn root_entries(
    target: Option<(Seq<char>, bool)>,
    bookmarks: Seq<Seq<char>>,
    groups: bool,
) -> Seq<EntryOfMenu> {
    (match target {
        Some((path, is_dir)) => target_entries(
            path,
            is_dir,
            holds_place(bookmarks, path),
            groups,
        ),
        None => Seq::empty(),
    }) + seq![
        entry("New Folder"@, MenuCommand::NewFolder),
        entry("New File"@, MenuCommand::NewFile),
    ]
}

/// An optional target of a menu, as characters.
pub open spec fn target_view(t: Option<(String, bool)>) -> Option<(Seq<char>, bool)> {
    match t {
        Some(p) => Some((p.0@, p.1)),
        None => None,
    }
}

/// The first level of the context menu.
pub fn menu_root(target: &Option<(String, bool)>, side: &Sidebar, prefs: &Prefs) -> (r: Vec<
    MenuEntry,
>)
    ensures
        menu_view(r@) == root_entries(
            target_view(*target),
            side@.bookmarks,
            prefs.groups_enabled && side@.groups.len() > 0,
        ),
{
    let groups = prefs.groups_enabled && side.groups.len() > 0;
    let mut out: Vec<MenuEntry> = Vec::new();
    match target {
        Some((path, is_dir)) => {
            push_item(&mut out, "Open", MenuCommand::Open);
            push_item(&mut out, "Open With", MenuCommand::Level(MenuView::OpenWith));
            if archive_suffix(path.as_str()).is_some() {
                push_item(&mut out, "Extract Here", MenuCommand::Extract);
            }
            let app = match extension(path.as_str()) {
                Some(e) => same(e.as_str(), "app"),
                None => false,
            };
            if *is_dir && app {
                push_item(&mut out, "Show Package Contents", MenuCommand::ShowContents);
            }
            push_separator(&mut out);
            push_item(&mut out, "Rename", MenuCommand::Rename);
            push_item(&mut out, "Reveal in Finder", MenuCommand::Reveal);
            push_item(&mut out, "Copy Path", MenuCommand::CopyPath);
            if find_place(&side.bookmarks, path.as_str()).is_some() {
                push_item(&mut out, "Remove Bookmark", MenuCommand::RemoveBookmark);
            } else {
                push_item(&mut out, "Add to Bookmarks", MenuCommand::AddBookmark);
            }
            if groups {
                push_item(&mut out, "Add to Group", MenuCommand::Level(MenuView::AddToGroup));
            }
            push_item(&mut out, "Duplicate", MenuCommand::Duplicate);
            push_item(&mut out, "Make Alias", MenuCommand::MakeAlias);
            push_item(&mut out, "Compress", MenuCommand::Compress);
            push_separator(&mut out);
            push_item(&mut out, "Move to Trash", MenuCommand::Trash);
            push_separator(&mut out);
            push_item(&mut out, "Tags", MenuCommand::Level(MenuView::Tags));
            push_item(&mut out, "Quick Actions", MenuCommand::Level(MenuView::QuickActions));
            push_item(&mut out, "Services", MenuCommand::Level(MenuView::Services));
            push_separator(&mut out);
            proof {
                assert(menu_view(out@) =~= target_entries(
                    path@,
                    *is_dir,
                    holds_place(side@.bookmarks, path@),
                    groups,
                ));
            }
        },
        None => {
            proof {
                assert(menu_view(out@) =~= Seq::<EntryOfMenu>::empty());
            }
        },
    }
    push_item(&mut out, "New Folder", MenuCommand::NewFolder);
    push_item(&mut out, "New File", MenuCommand::NewFile);
    proof {
        assert(menu_view(out@) =~= root_entries(
            target_view(*target),
            side@.bookmarks,
            prefs.groups_enabled && side@.groups.len() > 0,
        ));
    }
    out
}

/// How every further level begins.
pub open spec fn level_start() -> Seq<EntryOfMenu> {
    seq![entry("‹ Back"@, MenuCommand::Level(MenuView::Root)), EntryOfMenu::Separator]
}

fn begin_level() -> (r: Vec<MenuEntry>)
    ensures
        menu_view(r@) == level_start(),
{
    let mut out: Vec<MenuEntry> = Vec::new();
    push_item(&mut out, "‹ Back", MenuCommand::Level(MenuView::Root));
    push_separator(&mut out);
    proof {
        assert(menu_view(out@) =~= level_start());
    }
    out
}

/// The level of applications that open the target.
pub open spec fn open_with_entries(apps: Seq<Seq<char>>) -> Seq<EntryOfMenu> {
    level_start() + entry_if(apps.len() == 0, disabled("No applications"@)) + Seq::new(
        apps.len(),
        |i: int| entry(apps[i], MenuCommand::OpenWith(i as usize)),
    )
}

/// The level of applications that open the target.
pub fn menu_open_with(apps: &Vec<String>) -> (r: Vec<MenuEntry>)
    ensures
        menu_view(r@) == open_with_entries(texts(apps@)),
{
    let mut out = begin_level();
    if apps.len() == 0 {
        push_disabled(&mut out, "No applications");
    }
    let ghost base = menu_view(out@);
    let ghost all = Seq::new(
        texts(apps@).len(),
        |i: int| entry(texts(apps@)[i], MenuCommand::OpenWith(i as usize)),
    );
    proof {
        assert(base =~= level_start() + entry_if(apps@.len() == 0, disabled("No applications"@)));
        assert(base =~= base + all.take(0));
    }
    let mut i: usize = 0;
    while i < apps.len()
        invariant
            i <= apps.len(),
            all == Seq::new(
                texts(apps@).len(),
                |i: int| entry(texts(apps@)[i], MenuCommand::OpenWith(i as usize)),
            ),
            menu_view(out@) == base + all.take(i as int),
        decreases apps.len() - i,
    {
        push_item(&mut out, apps[i].as_str(), MenuCommand::OpenWith(i));
        proof {
            assert(base + all.take(i + 1) =~= (base + all.take(i as int)).push(all[i as int]));
        }
        i += 1;
    }
    proof {
        assert(all.take(i as int) =~= all);
    }
    out
}

/// The entry of a group: marked if the path is in it.
pub open spec fn group_entry(g: GroupView, i: int, path: Seq<char>) -> EntryOfMenu {
    entry(
        if holds_place(g.paths, path) {
            "✓ "@ + g.name
        } else {
            g.name
        },
        MenuCommand::AddToGroup(i as usize),
    )
}

/// The level of groups.
pub open spec fn group_entries(groups: Seq<GroupView>, path: Seq<char>) -> Seq<EntryOfMenu> {
    level_start() + entry_if(groups.len() == 0, disabled("No groups"@)) + Seq::new(
        groups.len(),
        |i: int| group_entry(groups[i], i, path),
    )
}

/// The level of groups.
pub fn menu_add_to_group(side: &Sidebar, path: &str) -> (r: Vec<MenuEntry>)
    ensures
        menu_view(r@) == group_entries(side@.groups, path@),
{
    let mut out = begin_level();
    if side.groups.len() == 0 {
        push_disabled(&mut out, "No groups");
    }
    let ghost base = menu_view(out@);
    let ghost gs = side@.groups;
    let ghost all = Seq::new(gs.len(), |i: int| group_entry(gs[i], i, path@));
    proof {
        assert(base =~= level_start() + entry_if(gs.len() == 0, disabled("No groups"@)));
        assert(base =~= base + all.take(0));
    }
    let mut i: usize = 0;
    while i < side.groups.len()
        invariant
            i <= side.groups.len(),
            gs == side@.groups,
            all == Seq::new(gs.len(), |i: int| group_entry(gs[i], i, path@)),
            menu_view(out@) == base + all.take(i as int),
        decreases side.groups.len() - i,
    {
        let g = &side.groups[i];
        proof {
            assert(gs[i as int] == g@);
        }
        let label: String = if find_place(&g.paths, path).is_some() {
            concat("✓ ", g.name.as_str())
        } else {
            g.name.clone()
        };
        push_item(&mut out, label.as_str(), MenuCommand::AddToGroup(i));
        proof {
            assert(base + all.take(i + 1) =~= (base + all.take(i as int)).push(all[i as int]));
        }
        i += 1;
    }
    proof {
        assert(all.take(i as int) =~= all);
    }
    out
}

/// A color label.
pub open spec fn tag_entry(name: Seq<char>, color: u32, label: u8) -> EntryOfMenu {
    EntryOfMenu::Item { label: name, command: MenuCommand::Tag(label), dot: Some(color) }
}

/// The level of color labels.
pub open spec fn tag_entries() -> Seq<EntryOfMenu> {
    level_start() + seq![
        tag_entry("None"@, 0x6b6b73, 0),
        tag_entry("Red"@, 0xff5f57, 6),
        tag_entry("Orange"@, 0xff9f0a, 7),
        tag_entry("Yellow"@, 0xffd60a, 5),
        tag_entry("Green"@, 0x34c759, 2),
        tag_entry("Blue"@, 0x0a84ff, 4),
        tag_entry("Purple"@, 0xbf5af0, 3),
        tag_entry("Gray"@, 0x8e8e93, 1),
    ]
}

fn push_tag(out: &mut Vec<MenuEntry>, name: &str, color: u32, label: u8)
    ensures
        menu_view(final(out)@) == menu_view(old(out)@).push(tag_entry(name@, color, label)),
{
    let ghost before = menu_view(out@);
    let e = MenuEntry::Item {
        label: owned(name),
        command: MenuCommand::Tag(label),
        dot: Some(color),
    };
    out.push(e);
    proof {
        assert(menu_view(out@) =~= before.push(e@));
    }
}

/// The level of color labels.
pub fn menu_tags() -> (r: Vec<MenuEntry>)
    ensures
        menu_view(r@) == tag_entries(),
{
    let mut out = begin_level();
    push_tag(&mut out, "None", 0x6b6b73, 0);
    push_tag(&mut out, "Red", 0xff5f57, 6);
    push_tag(&mut out, "Orange", 0xff9f0a, 7);
    push_tag(&mut out, "Yellow", 0xffd60a, 5);
    push_tag(&mut out, "Green", 0x34c759, 2);
    push_tag(&mut out, "Blue", 0x0a84ff, 4);
    push_tag(&mut out, "Purple", 0xbf5af0, 3);
    push_tag(&mut out, "Gray", 0x8e8e93, 1);
    proof {
        assert(menu_view(out@) =~= tag_entries());
    }
    out
}

/// The level of quick actions: what images and PDFs offer.
pub open spec fn quick_entries(path: Seq<char>, can_cut_out: bool) -> Seq<EntryOfMenu> {
    let img = names_image(path);
    let pdf = names_pdf(path);
    level_start() + (if img {
        seq![
            entry("Rotate Left"@, MenuCommand::RotateLeft),
            entry("Rotate Right"@, MenuCommand::RotateRight),
        ]
    } else {
        Seq::empty()
    }) + entry_if(img || pdf, entry("Markup"@, MenuCommand::Markup)) + (if img {
        seq![
            entry("Create PDF"@, MenuCommand::Convert(ImageFormat::Pdf)),
            entry("Convert to JPEG"@, MenuCommand::Convert(ImageFormat::Jpeg)),
            entry("Convert to PNG"@, MenuCommand::Convert(ImageFormat::Png)),
            entry("Convert to HEIC"@, MenuCommand::Convert(ImageFormat::Heic)),
        ] + entry_if(can_cut_out, entry("Remove Background"@, MenuCommand::RemoveBackground))
    } else {
        Seq::empty()
    }) + entry_if(!img && !pdf, disabled("No quick actions"@))
}

/// The level of quick actions. `can_cut_out` says whether the helper that removes
/// backgrounds is there.
pub fn menu_quick_actions(path: &str, can_cut_out: bool) -> (r: Vec<MenuEntry>)
    ensures
        menu_view(r@) == quick_entries(path@, can_cut_out),
{
    let img = is_image(path);
    let pdf = is_pdf(path);
    let mut out = begin_level();
    if img {
        push_item(&mut out, "Rotate Left", MenuCommand::RotateLeft);
        push_item(&mut out, "Rotate Right", MenuCommand::RotateRight);
    }
    if img || pdf {
        push_item(&mut out, "Markup", MenuCommand::Markup);
    }
    if img {
        push_item(&mut out, "Create PDF", MenuCommand::Convert(ImageFormat::Pdf));
        push_item(&mut out, "Convert to JPEG", MenuCommand::Convert(ImageFormat::Jpeg));
        push_item(&mut out, "Convert to PNG", MenuCommand::Convert(ImageFormat::Png));
        push_item(&mut out, "Convert to HEIC", MenuCommand::Convert(ImageFormat::Heic));
        if can_cut_out {
            push_item(&mut out, "Remove Background", MenuCommand::RemoveBackground);
        }
    }
    if !img && !pdf {
        push_disabled(&mut out, "No quick actions");
    }
    proof {
        assert(menu_view(out@) =~= quick_entries(path@, can_cut_out));
    }
    out
}

/// The folder that services open: the target, or the folder a file is in.
pub open spec fn service_dir(path: Seq<char>, is_dir: bool) -> Seq<char> {
    if is_dir {
        path
    } else {
        match parent_of(path) {
            Some(p) => p,
            None => path,
        }
    }
}

/// The folder that services open.
pub fn service_folder(path: &str, is_dir: bool) -> (r: String)
    ensures
        r@ == service_dir(path@, is_dir),
{
    if is_dir {
        return owned(path);
    }
    match parent(path) {
        Some(p) => p,
        None => owned(path),
    }
}

/// The level of services.
pub open spec fn service_entries(path: Seq<char>, terminals: Seq<Seq<char>>) -> Seq<EntryOfMenu> {
    level_start() + entry_if(
        names_image(path),
        entry("Set Desktop Picture"@, MenuCommand::DesktopPicture),
    ) + Seq::new(
        terminals.len(),
        |i: int| entry("Open in "@ + terminals[i], MenuCommand::OpenIn(i as usize)),
    ) + entry_if(!names_image(path) && terminals.len() == 0, disabled("No services"@))
}

/// The level of services; `terminals` are the terminals that are installed.
pub fn menu_services(path: &str, terminals: &Vec<String>) -> (r: Vec<MenuEntry>)
    ensures
        menu_view(r@) == service_entries(path@, texts(terminals@)),
{
    let img = is_image(path);
    let mut out = begin_level();
    if img {
        push_item(&mut out, "Set Desktop Picture", MenuCommand::DesktopPicture);
    }
    let ghost base = menu_view(out@);
    let ghost ts = texts(terminals@);
    let ghost all = Seq::new(
        ts.len(),
        |i: int| entry("Open in "@ + ts[i], MenuCommand::OpenIn(i as usize)),
    );
    proof {
        assert(base =~= level_start() + entry_if(
            names_image(path@),
            entry("Set Desktop Picture"@, MenuCommand::DesktopPicture),
        ));
        assert(base =~= base + all.take(0));
    }
    let mut i: usize = 0;
    while i < terminals.len()
        invariant
            i <= terminals.len(),
            ts == texts(terminals@),
            all == Seq::new(
                ts.len(),
                |i: int| entry("Open in "@ + ts[i], MenuCommand::OpenIn(i as usize)),
            ),
            menu_view(out@) == base + all.take(i as int),
        decreases terminals.len() - i,
    {
        let label = concat("Open in ", terminals[i].as_str());
        push_item(&mut out, label.as_str(), MenuCommand::OpenIn(i));
        proof {
            assert(base + all.take(i + 1) =~= (base + all.take(i as int)).push(all[i as int]));
        }
        i += 1;
    }
    proof {
        assert(all.take(i as int) =~= all);
    }
    if !img && terminals.len() == 0 {
        push_disabled(&mut out, "No services");
    }
    proof {
        assert(menu_view(out@) =~= service_entries(path@, texts(terminals@)));
    }
    out
}

/// What the levels of the context menu need from the system: the applications
/// that open the target, the terminals, and whether backgrounds can be removed.
pub struct MenuFacts {
    pub apps: Vec<String>,
    pub terminals: Vec<String>,
    pub can_cut_out: bool,
}

/// The entries of the level of the context menu that is shown. Only a target has
/// further levels.
pub open spec fn context_entries(
    view: MenuView,
    target: Option<(Seq<char>, bool)>,
    side: SidebarView,
    prefs: Prefs,
    f: MenuFacts,
) -> Seq<EntryOfMenu> {
    match (view, target) {
        (MenuView::OpenWith, Some(_)) => open_with_entries(texts(f.apps@)),
        (MenuView::AddToGroup, Some((path, _))) => group_entries(side.groups, path),
        (MenuView::Tags, Some(_)) => tag_entries(),
        (MenuView::QuickActions, Some((path, _))) => quick_entries(path, f.can_cut_out),
        (MenuView::Services, Some((path, _))) => service_entries(path, texts(f.terminals@)),
        _ => root_entries(target, side.bookmarks, prefs.groups_enabled && side.groups.len() > 0),
    }
}

/// The entries of the level of the context menu that is shown.
pub fn render_context_menu(
    view: MenuView,
    target: &Option<(String, bool)>,
    side: &Sidebar,
    prefs: &Prefs,
    f: &MenuFacts,
) -> (r: Vec<MenuEntry>)
    ensures
        menu_view(r@) == context_entries(view, target_view(*target), side@, *prefs, *f),
{
    match target {
        Some((path, is_dir)) => match view {
            MenuView::OpenWith => menu_open_with(&f.apps),
            MenuView::AddToGroup => menu_add_to_group(side, path.as_str()),
            MenuView::Tags => menu_tags(),
            MenuView::QuickActions => menu_quick_actions(path.as_str(), f.can_cut_out),
            MenuView::Services => menu_services(path.as_str(), &f.terminals),
            MenuView::Root => menu_root(target, side, prefs),
        },
        None => menu_root(target, side, prefs),
    }
}

// ----- further menus -------------------------------------------------------------------

/// What a right click in the sidebar was on.
pub enum SidebarTarget {
    Empty,
    Bookmark(String),
    GroupHeader(usize),
    GroupMember(usize, String),
}

/// The menu of the sidebar.
pub open spec fn sidebar_entries(t: SidebarTarget, groups_on: bool) -> Seq<EntryOfMenu> {
    match t {
        SidebarTarget::Empty => if groups_on {
            seq![entry("New Group"@, MenuCommand::NewGroup)]
        } else {
            seq![disabled("No actions"@)]
        },
        SidebarTarget::Bookmark(_) => seq![
            entry("Remove Bookmark"@, MenuCommand::RemoveBookmark),
        ],
        SidebarTarget::GroupHeader(g) => (if groups_on {
            seq![entry("New Group"@, MenuCommand::NewGroup), EntryOfMenu::Separator]
        } else {
            Seq::empty()
        }) + seq![entry("Delete Group"@, MenuCommand::DeleteGroup(g))],
        SidebarTarget::GroupMember(g, _) => seq![
            entry("Remove from Group"@, MenuCommand::RemoveFromGroup(g)),
        ],
    }
}

/// The menu of the sidebar.
pub fn render_sidebar_menu(t: &SidebarTarget, groups_on: bool) -> (r: Vec<MenuEntry>)
    ensures
        menu_view(r@) == sidebar_entries(*t, groups_on),
{
    let mut out: Vec<MenuEntry> = Vec::new();
    match t {
        SidebarTarget::Empty => {
            if groups_on {
                push_item(&mut out, "New Group", MenuCommand::NewGroup);
            } else {
                push_disabled(&mut out, "No actions");
            }
        },
        SidebarTarget::Bookmark(_) => {
            push_item(&mut out, "Remove Bookmark", MenuCommand::RemoveBookmark);
        },
        SidebarTarget::GroupHeader(g) => {
            if groups_on {
                push_item(&mut out, "New Group", MenuCommand::NewGroup);
                push_separator(&mut out);
            }
            push_item(&mut out, "Delete Group", MenuCommand::DeleteGroup(*g));
        },
        SidebarTarget::GroupMember(g, _) => {
            push_item(&mut out, "Remove from Group", MenuCommand::RemoveFromGroup(*g));
        },
    }
    proof {
        assert(menu_view(out@) =~= sidebar_entries(*t, groups_on));
    }
    out
}

/// The mark of a sort criterion: a dot for the standard order, an arrow for the
/// direction of the one in force.
pub open spec fn sort_mark(k: SortKey, cur: SortKey, asc: bool) -> Seq<char> {
    if k != cur {
        " "@
    } else if k == SortKey::Standard {
        "•"@
    } else if asc {
        "▲"@
    } else {
        "▼"@
    }
}

/// The menu of sort criteria: each with its mark and its label.
pub open spec fn sort_entries_of(cur: SortKey, asc: bool) -> Seq<(SortKey, Seq<char>, Seq<char>)> {
    seq![
        SortKey::Standard,
        SortKey::Name,
        SortKey::Kind,
        SortKey::Modified,
        SortKey::Created,
        SortKey::Size,
    ].map_values(|k: SortKey| (k, sort_mark(k, cur, asc), sort_label(k)))
}

/// Marked sort criteria, with texts as characters.
pub open spec fn marks_view(v: Seq<(SortKey, String, String)>) -> Seq<
    (SortKey, Seq<char>, Seq<char>),
> {
    v.map_values(|t: (SortKey, String, String)| (t.0, t.1@, t.2@))
}

fn sort_entry(k: SortKey, cur: SortKey, asc: bool) -> (r: (SortKey, String, String))
    ensures
        (r.0, r.1@, r.2@) == (k, sort_mark(k, cur, asc), sort_label(k)),
{
    let mark: String = if k != cur {
        owned(" ")
    } else if k == SortKey::Standard {
        owned("•")
    } else if asc {
        owned("▲")
    } else {
        owned("▼")
    };
    (k, mark, owned(k.label()))
}

/// The menu of sort criteria.
pub fn render_sort_menu(cur: SortKey, asc: bool) -> (r: Vec<(SortKey, String, String)>)
    ensures
        marks_view(r@) == sort_entries_of(cur, asc),
{
    let mut out: Vec<(SortKey, String, String)> = Vec::new();
    out.push(sort_entry(SortKey::Standard, cur, asc));
    out.push(sort_entry(SortKey::Name, cur, asc));
    out.push(sort_entry(SortKey::Kind, cur, asc));
    out.push(sort_entry(SortKey::Modified, cur, asc));
    out.push(sort_entry(SortKey::Created, cur, asc));
    out.push(sort_entry(SortKey::Size, cur, asc));
    proof {
        assert(marks_view(out@) =~= sort_entries_of(cur, asc));
    }
    out
}

/// The question before paths are moved to the trash.
pub open spec fn trash_question(paths: Seq<Seq<char>>) -> Seq<char> {
    if paths.len() == 1 {
        "Move “"@ + label_of(paths[0]) + "” to the Trash?"@
    } else {
        "Move "@ + decimal_of(paths.len()) + " items to the Trash?"@
    }
}

/// The question before paths are moved to the trash.
pub fn confirm_delete_text(paths: &Vec<String>) -> (r: String)
    ensures
        r@ == trash_question(texts(paths@)),
{
    if paths.len() == 1 {
        let mut s = concat("Move “", path_label(paths[0].as_str()).as_str());
        s.append("” to the Trash?");
        s
    } else {
        let mut s = concat("Move ", decimal(paths.len() as u64).as_str());
        s.append(" items to the Trash?");
        s
    }
}

/// Applications by name: each name once, at most sixteen, by the order in which
/// they were found.
pub open spec fn named_apps(paths: Seq<Seq<char>>) -> Seq<(Seq<char>, Seq<char>)>
    decreases paths.len(),
{
    if paths.len() == 0 {
        Seq::empty()
    } else {
        let head = named_apps(paths.drop_last());
        let name = match stem_of(paths.last()) {
            Some(s) => s,
            None => Seq::empty(),
        };
        if head.len() >= 16 || name.len() == 0 || has_label(head, name) {
            head
        } else {
            head.push((name, paths.last()))
        }
    }
}

/// The applications to offer for a file, by name.
pub fn apps_for_file(paths: &Vec<String>) -> (r: Vec<(String, String)>)
    ensures
        labelled_view(r@) == by_label(named_apps(texts(paths@))),
{
    let mut out: Vec<(String, String)> = Vec::new();
    let mut i: usize = 0;
    while i < paths.len()
        invariant
            i <= paths.len(),
            labelled_view(out@) == named_apps(texts(paths@).take(i as int)),
        decreases paths.len() - i,
    {
        let ghost head = labelled_view(out@);
        proof {
            let t = texts(paths@);
            assert(t.take(i + 1).drop_last() =~= t.take(i as int));
            assert(t.take(i + 1).last() == paths@[i as int]@);
        }
        let name: String = match file_stem(paths[i].as_str()) {
            Some(s) => s,
            None => String::new(),
        };
        let mut seen = false;
        let mut k: usize = 0;
        while k < out.len()
            invariant
                k <= out.len(),
                head == labelled_view(out@),
                seen ==> has_label(head, name@),
                !seen ==> forall|t: int| 0 <= t < k ==> (#[trigger] head[t]).0 != name@,
            decreases out.len() - k,
        {
            if same(out[k].0.as_str(), name.as_str()) {
                proof {
                    assert(head[k as int].0 == name@);
                }
                seen = true;
            }
            k += 1;
        }
        if out.len() < 16 && !name.as_str().is_empty() && !seen {
            let c = (name, paths[i].clone());
            proof {
                assert(labelled_view(out@.push(c)) =~= head.push((c.0@, c.1@)));
            }
            out.push(c);
        }
        i += 1;
    }
    proof {
        assert(texts(paths@).take(i as int) =~= texts(paths@));
    }
    sort_labelled(&out)
}

/// Every level of the context menu offers something to choose, and every further
/// level leads back to the first.
pub proof fn law_menus_lead_back(
    view: MenuView,
    target: Option<(Seq<char>, bool)>,
    side: SidebarView,
    prefs: Prefs,
    f: MenuFacts,
)
    ensures
        context_entries(view, target, side, prefs, f).len() >= 2,
        view != MenuView::Root && target is Some ==> context_entries(
            view,
            target,
            side,
            prefs,
            f,
        )[0] == entry("‹ Back"@, MenuCommand::Level(MenuView::Root)),
        context_entries(MenuView::Root, target, side, prefs, f).last() == entry(
            "New File"@,
            MenuCommand::NewFile,
        ),
{
}

} // verus!
