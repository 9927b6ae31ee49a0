use shuffle::appearance::ColorKind;
use shuffle::inspector::{gather_info, FileFacts, FileInfo, InfoScene};
use shuffle::listing::{Entry, SortKey, Stamp};
use shuffle::prefs::load_prefs;
use shuffle::scenes::{
    column_header, icon_line_count, render_breadcrumb, render_find_box, render_group_dialog,
    render_server_dialog,
};
use shuffle::shuffle::{Saved, Shuffle};
use shuffle::startup::{
    config_file, fps_overlay, fps_sample, installed_terminals, kept_value, load_last_dir,
    mounted_volumes, run_mode, saved_dir, username, FoundVolume, Lookup, RunMode, PLACES_KEPT,
};
use shuffle::tabs::ViewMode;

fn strings(v: &[&str]) -> Vec<String> {
    v.iter().map(|s| s.to_string()).collect()
}

fn window() -> Shuffle {
    let saved = Saved {
        groups: String::new(),
        folded: String::new(),
        servers: String::new(),
        history: String::new(),
    };
    let mut full = Entry::quick("b.pdf".to_string(), false);
    full.size = 2_000;
    full.loaded = true;
    full.modified = Some(Stamp { secs: 7, nanos: 0 });
    let rows = vec![
        Entry::quick("docs".to_string(), true),
        Entry::quick("a.txt".to_string(), false),
        full,
    ];
    Shuffle::new("/a", rows, vec![], vec![], vec![], &saved)
}

#[test]
fn rows_of_the_list() {
    let mut s = window();
    s.select_entry(0, "/a/b.pdf");
    assert_eq!(s.list_len(0, true), 4);
    assert_eq!(s.list_len(0, false), 3);
    let rows = s.render_list_body(0, 0, 4, true, Some(1), false);
    assert_eq!(rows.len(), 4);
    assert!(rows[0].up && rows[0].name == ".." && rows[0].path == "/");
    assert!(!rows[0].drags && rows[0].drops);
    assert!(rows[1].lit && rows[1].drops && rows[1].kind == "Directory");
    assert_eq!((rows[2].size.as_str(), rows[2].date), ("--", None));
    assert_eq!(rows[3].size, "2.0 KB");
    assert_eq!(rows[3].date, Some(Stamp { secs: 7, nanos: 0 }));
    assert!(rows[3].selected && !rows[2].selected);
    assert_eq!(s.render_list_body(0, 3, 4, true, None, false)[0].path, "/a/b.pdf");
}

#[test]
fn an_edited_row_shows_its_field() {
    let mut s = window();
    s.begin_rename(0, "/a/a.txt");
    let rows = s.render_list_body(0, 0, 3, false, None, false);
    let edit = rows[1].edit.as_ref().unwrap();
    assert_eq!((edit.head.as_str(), edit.marked.as_str(), edit.tail.as_str()), ("", "a.txt", ""));
    assert!(!edit.caret);
    assert!(!rows[1].drags && !rows[1].invalid && rows[0].drags);
    let r = s.rename.as_mut().unwrap();
    r.field.insert("x/y");
    let rows = s.render_list_body(0, 0, 3, false, None, false);
    assert!(rows[1].invalid);
    assert!(rows[1].edit.as_ref().unwrap().caret);
}

#[test]
fn cells_of_the_other_views() {
    let mut s = window();
    s.open_context_menu(0, Some(("/a/a.txt".to_string(), false)));
    assert_eq!(icon_line_count(3, 2), 2);
    assert_eq!(icon_line_count(4, 2), 2);
    assert_eq!(icon_line_count(0, 2), 0);
    let line = s.render_icons_body(0, 0, 2);
    assert_eq!(line.len(), 2);
    assert!(line[1].menu && !line[0].menu);
    assert_eq!(s.render_icons_body(0, 1, 2).len(), 1);
    assert!(s.render_icons_body(0, 2, 2).is_empty());
    assert_eq!(s.render_gallery_body(0).len(), 3);
    s.column_click(0, 0, "/a/docs", true, 1);
    let list = vec![Entry::quick("docs".to_string(), true), Entry::quick("z".to_string(), false)];
    let col = s.render_columns_body(0, 0, &list);
    assert!(col[0].selected && !col[1].selected);
    assert_eq!(s.render_columns_body(0, 1, &list)[1].path, "/a/docs/z");
}

#[test]
fn headers_show_the_direction() {
    let h = column_header(SortKey::Modified, false);
    assert_eq!(h.len(), 4);
    assert_eq!(h[2], (SortKey::Modified, "Date Modified ▼".to_string()));
    assert_eq!(h[0].1, "Name");
    assert_eq!(column_header(SortKey::Name, true)[0].1, "Name ▲");
}

#[test]
fn breadcrumbs_lead_up() {
    let c = render_breadcrumb("/Users/me");
    let labels: Vec<&str> = c.iter().map(|x| x.0.as_str()).collect();
    assert_eq!(labels, ["Macintosh HD", "Users", "me"]);
    let full: Vec<&str> = c.iter().map(|x| x.1.as_str()).collect();
    assert_eq!(full, ["/", "/Users", "/Users/me"]);
}

#[test]
fn tabs_and_arrows() {
    let mut s = window();
    assert_eq!(s.work.tab(0).render_path_bar(), (false, false));
    s.navigate_in(0, "/b", true);
    assert_eq!(s.work.tab(0).render_path_bar(), (true, false));
    assert_eq!(s.work.render_tab_strip(0), vec![("b".to_string(), true)]);
}

#[test]
fn the_command_bar_is_drawn() {
    let mut s = window();
    let (prompt, line, output) = s.term.render_terminal_bar("/a", true);
    assert_eq!(prompt, "a ❯");
    assert_eq!(line, "Type a command… (cd to navigate, Tab to autocomplete)");
    assert!(!output);
    s.term.focused = true;
    s.term.input = "ls".to_string();
    s.term.term_push("x");
    assert_eq!(s.term.render_terminal_bar("/a", true).1, "ls│");
    assert!(s.term.render_terminal_bar("/a", true).2);
    assert!(!s.term.render_terminal_bar("/a", false).2);
}

#[test]
fn dialogs_are_drawn() {
    let mut s = window();
    s.side.servers = (0..9).map(|i| format!("s{i}")).collect();
    let (line, offered) = render_server_dialog("", &s.side);
    assert_eq!(line, "smb://server/share");
    assert_eq!(offered.len(), 6);
    assert_eq!(render_server_dialog("x", &s.side).0, "x");
    assert_eq!(render_group_dialog(""), "Group name");
}

#[test]
fn the_find_bar_is_drawn() {
    let mut s = window();
    assert!(render_find_box(s.work.tab(0)).is_none());
    let t = s.work.tab_mut(0);
    t.find = Some(shuffle::field::Field::holding("txt".to_string()));
    t.recompute_find();
    let b = render_find_box(s.work.tab(0)).unwrap();
    assert_eq!(b.count, 1);
    assert_eq!(b.field.unwrap().head, "txt");
}

#[test]
fn the_inspector_is_drawn() {
    let mut s = window();
    let on = load_prefs("preview=true\npreview_pages=true\ninfo=true");
    assert!(s.render_inspector(&on, None, &None).is_none());
    s.select_entry(0, "/a/b.pdf");
    let i = s.render_inspector(&on, Some(3), &None).unwrap();
    assert_eq!(i.title, "b.pdf");
    let p = i.preview.unwrap();
    assert_eq!(p.page, Some(0));
    let pager = p.pager.unwrap();
    assert_eq!(pager.text, "1 / 3");
    assert!(!pager.back && pager.forward);
    assert!(matches!(i.info, Some(InfoScene::Loading)));
    s.set_view(0, ViewMode::Gallery);
    assert!(s.render_inspector(&on, None, &None).unwrap().preview.is_none());
    assert!(s.render_inspector(&load_prefs("preview=false\ninfo=false"), None, &None).is_none());
}

#[test]
fn pages_turn_and_return() {
    let mut s = window();
    assert_eq!(s.page_forward(Some(3)), vec![1, 2]);
    assert_eq!(s.page_forward(Some(3)), vec![2]);
    assert!(s.page_forward(Some(3)).is_empty());
    assert_eq!(s.page_back(), vec![1, 0]);
    assert_eq!(s.page_back(), vec![0]);
    assert!(s.page_back().is_empty());
    assert!(s.page_forward(None).is_empty());
}

fn facts() -> FileFacts {
    FileFacts {
        measure: Some((false, 1500)),
        created: None,
        modified: None,
        accessed: None,
        picture: Some((640, 480)),
        color: Some(ColorKind::Rgb8),
        signed: Some("Me".to_string()),
    }
}

#[test]
fn information_on_a_file() {
    let i: FileInfo = gather_info("/a/x.png", &facts());
    assert_eq!(i.size, "1.5 KB");
    assert_eq!(i.created, "--");
    assert_eq!(i.dimensions, Some("640 × 480".to_string()));
    assert_eq!(i.color, Some("RGB".to_string()));
    let bare = FileFacts { measure: None, picture: None, signed: None, ..facts() };
    let j = gather_info("/a/x", &bare);
    assert_eq!((j.size.as_str(), j.color.is_none()), ("--", true));
    assert_eq!(j.kind, "Document");
    let mut s = window();
    s.select_entry(0, "/a/a.txt");
    let scene = s.render_inspector(&load_prefs("info=true"), None, &Some(i)).unwrap();
    match scene.info {
        Some(InfoScene::Rows(rows)) => {
            assert_eq!(rows.len(), 8);
            assert_eq!(rows[5].0, "Dimensions");
            assert_eq!(rows[7], ("Signature".to_string(), "Me".to_string()));
        }
        _ => panic!("the rows are shown"),
    }
}

#[test]
fn missing_icons_are_made_once() {
    let saved = Saved {
        groups: String::new(),
        folded: String::new(),
        servers: String::new(),
        history: String::new(),
    };
    let rows = ["a.txt", "b.TXT", "c.rs", "plain"]
        .iter()
        .map(|n| Entry::quick(n.to_string(), false))
        .chain([Entry::quick("dir".to_string(), true)])
        .collect();
    let s = Shuffle::new("/a", rows, vec![], vec![], vec![], &saved);
    let jobs = s.work.prewarm_icons(&strings(&["rs"]), "/tmp/folder");
    assert_eq!(jobs.len(), 2);
    assert_eq!(jobs[0], ("txt".to_string(), "/a/a.txt".to_string()));
    assert_eq!(jobs[1].1, "/tmp/folder");
}

#[test]
fn places_of_the_program() {
    assert_eq!(config_file("/h", "x.txt"), "/h/Library/Application Support/Shuffle/x.txt");
    assert_eq!(saved_dir(" /a \n"), "/a");
    assert_eq!(load_last_dir(&Some("/a\n".to_string()), true, "/h"), "/a");
    assert_eq!(load_last_dir(&Some("/a".to_string()), false, "/h"), "/h");
    assert_eq!(load_last_dir(&None, true, "/h"), "/h");
    assert_eq!(username(&Some("me".to_string()), "/Users/x"), "me");
    assert_eq!(username(&Some("".to_string()), "/Users/x"), "x");
    assert_eq!(username(&None, "/"), "Home");
}

#[test]
fn volumes_and_terminals() {
    let v = |n: &str, is_dir, boot| FoundVolume {
        name: n.to_string(),
        path: format!("/Volumes/{n}"),
        is_dir,
        boot,
    };
    let found = vec![v("zip", true, false), v("Mac", true, true), v("Alpha", true, false), v("f", false, false)];
    let out = mounted_volumes(&found);
    let names: Vec<&str> = out.iter().map(|x| x.0.as_str()).collect();
    assert_eq!(names, ["Alpha", "zip"]);
    let t = installed_terminals(&vec![true, false, true]);
    let names: Vec<&str> = t.iter().map(|x| x.0.as_str()).collect();
    assert_eq!(names, ["Terminal", "Ghostty"]);
}

#[test]
fn modes_of_the_program() {
    assert!(matches!(run_mode(&strings(&["shuffle"])), RunMode::Window));
    assert!(matches!(run_mode(&strings(&["s", "--index-bench", "q"])), RunMode::IndexBench(ref q) if q == "q"));
    assert!(matches!(run_mode(&strings(&["s", "--index-bench"])), RunMode::Window));
    assert!(matches!(run_mode(&strings(&["s", "--pdf-bench", "a", "3"])), RunMode::PdfBench { page: 3, .. }));
    assert!(matches!(run_mode(&strings(&["s", "--pdf-bench", "a", "x"])), RunMode::PdfBench { page: 0, .. }));
    assert!(matches!(run_mode(&strings(&["s", "--typo-test"])), RunMode::TypoTest));
    assert!(matches!(run_mode(&strings(&["s", "--dir-bench", "/a"])), RunMode::DirBench(_)));
}

#[test]
fn frames_of_the_last_second_count() {
    let mut times = vec![];
    assert_eq!(fps_sample(&mut times, 0), 1);
    assert_eq!(fps_sample(&mut times, 900_000_000), 2);
    assert_eq!(fps_sample(&mut times, 1_000_000_000), 3);
    assert_eq!(fps_sample(&mut times, 1_000_000_001), 3);
    assert_eq!(fps_sample(&mut times, 9_000_000_000), 1);
    assert_eq!(fps_overlay(60), ("60 fps".to_string(), 0x4ade80));
    assert_eq!(fps_overlay(30).1, 0xfacc15);
    assert_eq!(fps_overlay(29).1, 0xf87171);
}

#[test]
fn kept_values_age() {
    assert_eq!(kept_value(None, PLACES_KEPT, true), Lookup::Now);
    assert_eq!(kept_value(Some(PLACES_KEPT), PLACES_KEPT, false), Lookup::Keep);
    assert_eq!(kept_value(Some(PLACES_KEPT + 1), PLACES_KEPT, false), Lookup::Later);
    assert_eq!(kept_value(Some(PLACES_KEPT + 1), PLACES_KEPT, true), Lookup::Keep);
}
