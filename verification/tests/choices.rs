use shuffle::choices::Choice;
use shuffle::fileops::{new_name, wants_pages};
use shuffle::kinds::Invocation;
use shuffle::listing::Entry;
use shuffle::menus::{ImageFormat, MenuCommand, MenuView, SidebarTarget};
use shuffle::prefs::load_prefs;
use shuffle::shuffle::{Deed, Saved, Shuffle};

fn strings(v: &[&str]) -> Vec<String> {
    v.iter().map(|s| s.to_string()).collect()
}

fn window() -> Shuffle {
    let saved = Saved {
        groups: "[Work]\n/w\n".to_string(),
        folded: String::new(),
        servers: String::new(),
        history: String::new(),
    };
    let rows = vec![Entry::quick("docs".to_string(), true)];
    Shuffle::new("/a", rows, vec![], strings(&["/a/pinned"]), vec![], &saved)
}

fn words(i: &Invocation) -> String {
    format!("{} {}", i.program, i.args.join(" "))
}

/// What a command of the menu of `path` leads to.
fn chosen(path: &str, is_dir: bool, c: MenuCommand) -> Choice {
    let mut s = window();
    s.open_context_menu(0, Some((path.to_string(), is_dir)));
    let choice = s.menu_command(c, &strings(&["/Applications/One.app", "/Applications/Two.app"]));
    assert!(s.menu.is_none());
    choice
}

#[test]
fn levels_keep_the_menu_open() {
    let mut s = window();
    assert!(matches!(s.menu_command(MenuCommand::NewFile, &vec![]), Choice::Act(Deed::Idle)));
    s.open_context_menu(0, None);
    let turned = s.menu_command(MenuCommand::Level(MenuView::Tags), &vec![]);
    assert!(matches!(turned, Choice::Act(Deed::Redraw)));
    assert_eq!(s.menu.as_ref().unwrap().level, MenuView::Tags);
    let made = s.menu_command(MenuCommand::NewFolder, &vec![]);
    assert!(matches!(made, Choice::Act(Deed::NewFolder { pane: 0 })));
    assert!(s.menu.is_none());
    s.open_context_menu(0, None);
    assert!(matches!(s.menu_command(MenuCommand::Open, &vec![]), Choice::Act(Deed::Redraw)));
    assert!(s.menu.is_none());
}

#[test]
fn entries_act_on_their_target() {
    assert!(matches!(
        chosen("/a/docs", true, MenuCommand::Open),
        Choice::Act(Deed::Visit { pane: 0, path }) if path == "/a/docs"
    ));
    assert!(matches!(
        chosen("/a/x.txt", false, MenuCommand::Open),
        Choice::Act(Deed::OpenFile(path)) if path == "/a/x.txt"
    ));
    assert!(matches!(
        chosen("/a/x.txt", false, MenuCommand::CopyPath),
        Choice::Act(Deed::Clipboard(path)) if path == "/a/x.txt"
    ));
    assert!(matches!(
        chosen("/a/x.txt", false, MenuCommand::Trash),
        Choice::Discard { pane: 0, path } if path == "/a/x.txt"
    ));
    assert!(matches!(
        chosen("/a/x.zip", false, MenuCommand::Extract),
        Choice::Extract { pane: 0, path } if path == "/a/x.zip"
    ));
    assert!(matches!(
        chosen("/a/x.png", false, MenuCommand::RotateLeft),
        Choice::Turn { pane: 0, left: true, .. }
    ));
    assert!(matches!(
        chosen("/a/x.png", false, MenuCommand::Convert(ImageFormat::Heic)),
        Choice::Convert { format: ImageFormat::Heic, .. }
    ));
    assert!(matches!(
        chosen("/a/x.png", false, MenuCommand::RemoveBackground),
        Choice::CutOut { .. }
    ));
}

#[test]
fn entries_call_programs() {
    match chosen("/a/x.txt", false, MenuCommand::OpenWith(1)) {
        Choice::Start(i) => assert_eq!(words(&i), "open -a /Applications/Two.app /a/x.txt"),
        _ => panic!("an application is started"),
    }
    match chosen("/a/x.txt", false, MenuCommand::OpenIn(0)) {
        Choice::Start(i) => assert_eq!(words(&i), "open -a /Applications/One.app /a"),
        _ => panic!("a terminal is started"),
    }
    match chosen("/a/x.pdf", false, MenuCommand::Markup) {
        Choice::Start(i) => assert_eq!(words(&i), "open -a Preview /a/x.pdf"),
        _ => panic!("the viewer is started"),
    }
    match chosen("/a/x", false, MenuCommand::Tag(6)) {
        Choice::Edit { pane, call } => {
            assert_eq!(pane, 0);
            assert!(words(&call).ends_with("\"/a/x\" as alias) to 6"));
        }
        _ => panic!("a label is set"),
    }
    assert!(matches!(
        chosen("/a/x", false, MenuCommand::OpenWith(2)),
        Choice::Act(Deed::Redraw)
    ));
}

#[test]
fn entries_change_the_sidebar() {
    let mut s = window();
    s.open_context_menu(0, Some(("/a/docs".to_string(), true)));
    assert!(matches!(s.menu_command(MenuCommand::AddBookmark, &vec![]), Choice::SaveBookmarks));
    assert_eq!(s.side.bookmarks, strings(&["/a/pinned", "/a/docs"]));
    s.open_context_menu(0, Some(("/a/docs".to_string(), true)));
    let again = s.menu_command(MenuCommand::AddBookmark, &vec![]);
    assert!(matches!(again, Choice::Act(Deed::Redraw)));
    s.open_context_menu(0, Some(("/a/docs".to_string(), true)));
    assert!(matches!(s.menu_command(MenuCommand::RemoveBookmark, &vec![]), Choice::SaveBookmarks));
    assert_eq!(s.side.bookmarks, strings(&["/a/pinned"]));
    s.open_context_menu(0, Some(("/a/docs".to_string(), true)));
    let grouped = s.menu_command(MenuCommand::AddToGroup(0), &vec![]);
    assert!(matches!(grouped, Choice::Act(Deed::SaveGroups)));
    assert_eq!(s.side.groups[0].paths, strings(&["/w", "/a/docs"]));
    s.open_context_menu(0, Some(("/a/docs".to_string(), true)));
    s.menu_command(MenuCommand::Rename, &vec![]);
    assert_eq!(s.rename.as_ref().unwrap().path, "/a/docs");
}

#[test]
fn the_menu_of_the_sidebar_acts() {
    let mut s = window();
    s.sidebar_command(&SidebarTarget::Empty, MenuCommand::NewGroup);
    assert_eq!(s.group_dialog, Some(String::new()));
    let pinned = SidebarTarget::Bookmark("/a/pinned".to_string());
    let gone = s.sidebar_command(&pinned, MenuCommand::RemoveBookmark);
    assert!(matches!(gone, Choice::SaveBookmarks));
    assert!(s.side.bookmarks.is_empty());
    let member = SidebarTarget::GroupMember(0, "/w".to_string());
    let left = s.sidebar_command(&member, MenuCommand::RemoveFromGroup(0));
    assert!(matches!(left, Choice::Act(Deed::SaveGroups)));
    assert!(s.side.groups[0].paths.is_empty());
    let header = SidebarTarget::GroupHeader(0);
    let dropped = s.sidebar_command(&header, MenuCommand::DeleteGroup(0));
    assert!(matches!(dropped, Choice::Act(Deed::SaveGroups)));
    assert!(s.side.groups.is_empty());
    let nothing = s.sidebar_command(&header, MenuCommand::DeleteGroup(0));
    assert!(matches!(nothing, Choice::Act(Deed::Redraw)));
}

#[test]
fn a_quick_listing_needs_details() {
    let mut s = window();
    assert!(s.work.active_tab().needs_details());
    for e in s.work.tab_mut(0).entries.iter_mut() {
        e.loaded = true;
    }
    assert!(!s.work.active_tab().needs_details());
    assert_eq!(new_name(true), "untitled folder");
    assert_eq!(new_name(false), "untitled file");
    assert!(!wants_pages(&load_prefs("preview_pages=0\n")));
}
