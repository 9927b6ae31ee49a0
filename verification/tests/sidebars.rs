use shuffle::persist::Group;
use shuffle::prefs::load_prefs;
use shuffle::sidebar::{
    cloud_locations, collect_favorites, pretty_cloud_name, render_sidebar, sort_labelled, Favorite,
    Sidebar, SidebarFacts, SidebarRow,
};
use shuffle::terminal::{TermStep, Terminal};

fn strings(v: &[&str]) -> Vec<String> {
    v.iter().map(|s| s.to_string()).collect()
}

fn empty() -> Sidebar {
    Sidebar {
        recents: vec![],
        bookmarks: vec![],
        favorites: vec![],
        groups: vec![],
        folded: vec![],
        servers: vec![],
    }
}

#[test]
fn a_bookmark_comes_and_goes() {
    let mut s = empty();
    assert!(s.bookmark_path("/a"));
    assert!(!s.bookmark_path("/a/"));
    assert_eq!(s.bookmarks, strings(&["/a"]));
    assert!(s.remove_bookmark("/a"));
    assert!(!s.remove_bookmark("/a"));
    assert!(s.bookmarks.is_empty());
}

#[test]
fn visits_are_remembered() {
    let mut s = empty();
    for i in 0..20 {
        s.visit(&format!("/d{i}"));
    }
    assert_eq!(s.recents.len(), 12);
    assert_eq!(s.recents[0], "/d19");
    s.visit("/d15");
    assert_eq!(s.recents[0], "/d15");
    assert_eq!(s.recents.len(), 12);
}

#[test]
fn groups_hold_paths_once() {
    let mut s = empty();
    assert!(s.create_group(" Work "));
    assert!(!s.create_group("Work"));
    assert!(!s.create_group("  "));
    assert!(s.add_to_group(0, "/w"));
    assert!(!s.add_to_group(0, "/w/"));
    assert!(!s.add_to_group(5, "/w"));
    assert_eq!(s.groups[0].paths, strings(&["/w"]));
    assert!(s.remove_from_group(0, "/w"));
    assert!(s.groups[0].paths.is_empty());
    assert!(s.delete_group(0));
    assert!(!s.delete_group(0));
}

#[test]
fn folding_twice_unfolds() {
    let mut s = empty();
    s.toggle_section("Recents");
    assert!(s.is_folded("Recents"));
    s.toggle_section("Recents");
    assert!(!s.is_folded("Recents"));
}

#[test]
fn servers_are_remembered_once() {
    let mut s = empty();
    assert_eq!(s.connect_to_server(" host/share "), Some("smb://host/share".to_string()));
    assert_eq!(s.connect_to_server("afp://x"), Some("afp://x".to_string()));
    assert_eq!(s.connect_to_server("host/share"), Some("smb://host/share".to_string()));
    assert_eq!(s.servers, strings(&["smb://host/share", "afp://x"]));
    assert_eq!(s.connect_to_server("  "), None);
    for i in 0..20 {
        s.connect_to_server(&format!("h{i}"));
    }
    assert_eq!(s.servers.len(), 10);
}

#[test]
fn favorites_change_only_when_they_differ() {
    let mut s = empty();
    let fav = |l: &str, p: &str| Favorite { label: l.to_string(), path: p.to_string() };
    assert!(s.refresh_favorites(vec![fav("Docs", "/d")]));
    assert!(!s.refresh_favorites(vec![fav("Docs", "/d/")]));
    assert!(s.refresh_favorites(vec![fav("Papers", "/d")]));
    assert_eq!(s.favorites[0].label, "Papers");
    let items = vec![
        ("Docs".to_string(), "/d".to_string()),
        ("Again".to_string(), "/d/".to_string()),
    ];
    assert_eq!(collect_favorites(&items).len(), 1);
}

#[test]
fn clouds_have_pretty_names() {
    assert_eq!(pretty_cloud_name("GoogleDrive-me@x.org"), "Google Drive");
    let found = cloud_locations(
        "/Users/me",
        true,
        &strings(&["/Users/me/Library/CloudStorage/Dropbox"]),
        true,
    );
    let labels: Vec<&str> = found.iter().map(|c| c.0.as_str()).collect();
    assert_eq!(labels, ["iCloud Drive", "Dropbox"]);
    let old = cloud_locations("/Users/me", false, &vec![], true);
    assert_eq!(old, vec![("Dropbox".to_string(), "/Users/me/Dropbox".to_string())]);
}

#[test]
fn labels_sort_without_case() {
    let v = vec![
        ("b".to_string(), "/1".to_string()),
        ("A".to_string(), "/2".to_string()),
        ("a".to_string(), "/3".to_string()),
    ];
    let s = sort_labelled(&v);
    assert_eq!(s[0].1, "/2");
    assert_eq!(s[1].1, "/3");
}

#[test]
fn a_drawn_sidebar() {
    let mut s = empty();
    s.bookmark_path("/Users/me/Documents");
    s.groups.push(Group { name: "Work".to_string(), paths: strings(&["/w"]) });
    let facts = SidebarFacts {
        current: "/Users/me/Documents".to_string(),
        home: "/Users/me".to_string(),
        user: "me".to_string(),
        favorite_dirs: vec![],
        bookmark_dirs: vec![true],
        member_dirs: vec![vec![false]],
        cloud: vec![],
        volumes: vec![("Disk".to_string(), "/Volumes/Disk".to_string())],
    };
    let mut prefs = load_prefs("");
    prefs.groups_enabled = true;
    let rows = render_sidebar(&s, &facts, &prefs);
    let marked = rows.iter().any(|r| {
        matches!(r, SidebarRow::Nav { label, active: true, tooltip, .. }
            if label == "Documents" && tooltip == "~/Documents")
    });
    assert!(marked);
    assert!(rows.iter().any(|r| matches!(r, SidebarRow::GroupHeader { title, .. } if title == "WORK")));
    assert!(rows.iter().any(|r| matches!(r, SidebarRow::Nav { label, .. } if label == "Disk")));
    assert!(matches!(rows.last(), Some(SidebarRow::Connect)) || rows.iter().any(|r| matches!(r, SidebarRow::Connect)));
}

#[test]
fn commands_are_echoed_and_sorted_out() {
    let mut t = Terminal::new();
    t.input = " cd .. ".to_string();
    match t.run_term_command("/a/b", "/h") {
        TermStep::Cd { target, arg } => {
            assert_eq!(target, "/a");
            assert_eq!(arg, "..");
        }
        _ => panic!("the folder changes"),
    }
    assert_eq!(t.input, "");
    assert_eq!(t.output.len(), 1);
    t.cd_failed("nowhere");
    assert_eq!(t.output[1], "cd: no such directory: nowhere");
    t.input = "ls -l".to_string();
    assert!(matches!(t.run_term_command("/a", "/h"), TermStep::Run { ref command } if command == "ls -l"));
    t.input = "clear".to_string();
    assert!(matches!(t.run_term_command("/a", "/h"), TermStep::Cleared));
    assert!(t.output.is_empty());
    assert!(matches!(t.run_term_command("/a", "/h"), TermStep::Idle));
}

#[test]
fn the_scrollback_is_bounded() {
    let mut t = Terminal::new();
    let many: Vec<String> = (0..500).map(|i| format!("line {i}")).collect();
    t.term_push_all(&many);
    assert_eq!(t.output.len(), 400);
    assert_eq!(t.output[0], "line 100");
    t.term_push("last");
    assert_eq!(t.output.len(), 400);
    assert_eq!(t.output[399], "last");
}

#[test]
fn completion_fills_in_what_agrees() {
    let mut t = Terminal::new();
    t.input = "cat Doc".to_string();
    let names = vec![("Documents".to_string(), true), ("Music".to_string(), true)];
    assert!(t.term_autocomplete(&names));
    assert_eq!(t.input, "cat Documents/");
    t.input = "cat rep".to_string();
    let names = vec![("report-a".to_string(), false), ("report-b".to_string(), false)];
    assert!(t.term_autocomplete(&names));
    assert_eq!(t.input, "cat report-");
    assert_eq!(t.output.last().unwrap(), "report-a    report-b");
    t.input = "cat zzz".to_string();
    t.term_autocomplete(&names);
    assert_eq!(t.input, "cat zzz");
    t.input = "cat ~/x".to_string();
    assert_eq!(t.completion_base("/a", "/h"), "/h");
}
