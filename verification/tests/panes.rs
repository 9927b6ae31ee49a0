use shuffle::listing::{Entry, SortKey};
use shuffle::tabs::{gather, Tab, ViewMode};
use shuffle::workspace::{SplitChange, Workspace};

fn rows(names: &[(&str, bool)]) -> Vec<Entry> {
    names.iter().map(|(n, d)| Entry::quick(n.to_string(), *d)).collect()
}

fn strings(v: &[&str]) -> Vec<String> {
    v.iter().map(|s| s.to_string()).collect()
}

fn tab(dir: &str) -> Tab {
    Tab::new(dir, rows(&[("docs", true), ("a.txt", false), ("b.txt", false)]), 0)
}

fn dirs(w: &Workspace, pane: usize) -> Vec<&str> {
    w.panes[pane].tabs.iter().map(|t| t.dir.as_str()).collect()
}

#[test]
fn going_back_undoes_a_visit() {
    let mut t = tab("/a");
    t.visit("/a/docs");
    assert_eq!(t.dir, "/a/docs");
    assert!(t.back());
    assert_eq!(t.dir, "/a");
    assert!(!t.back());
    assert!(t.forward());
    assert_eq!(t.dir, "/a/docs");
    assert!(!t.forward());
}

#[test]
fn a_visit_drops_what_lay_ahead() {
    let mut t = tab("/a");
    t.visit("/b");
    t.visit("/c");
    t.back();
    t.back();
    t.visit("/d");
    assert_eq!(t.history, strings(&["/a", "/d"]));
    assert!(!t.forward());
}

#[test]
fn a_visit_clears_the_selection() {
    let mut t = tab("/a");
    t.select("/a/a.txt");
    t.visit("/b");
    assert!(t.selection.is_empty());
    assert_eq!(t.anchor, None);
}

#[test]
fn the_same_column_turns_the_direction() {
    let mut t = tab("/a");
    t.set_sort(SortKey::Name);
    assert!(t.sort_asc);
    t.set_sort(SortKey::Name);
    assert!(!t.sort_asc);
    assert_eq!(t.entries[0].name, "docs");
    t.set_sort(SortKey::Standard);
    t.set_sort(SortKey::Standard);
    assert!(t.sort_asc);
}

#[test]
fn selecting_items() {
    let mut t = tab("/a");
    t.select("/a/a.txt");
    assert_eq!(t.selection, strings(&["/a/a.txt"]));
    assert!(t.toggle("/a/b.txt"));
    assert_eq!(t.anchor, Some("/a/b.txt".to_string()));
    assert!(!t.toggle("/a/b.txt"));
    assert_eq!(t.selection, strings(&["/a/a.txt"]));
    assert_eq!(t.anchor, Some("/a/b.txt".to_string()));
    t.select_everything();
    assert_eq!(t.selection.len(), 3);
}

#[test]
fn ranges_run_between_the_focus_and_the_click() {
    let mut t = tab("/a");
    t.select("/a/b.txt");
    t.select_range("/a/docs");
    assert_eq!(t.selection, strings(&["/a/docs", "/a/a.txt", "/a/b.txt"]));
    assert_eq!(t.anchor, Some("/a/docs".to_string()));
    t.anchor = None;
    t.select_range("/a/a.txt");
    assert_eq!(t.selection, strings(&["/a/a.txt"]));
}

#[test]
fn rows_are_covered_with_the_row_above() {
    let mut t = tab("/a");
    t.select_rows(0, 1, true);
    assert_eq!(t.selection, strings(&["/a/docs"]));
    t.select_rows(0, 1, false);
    assert_eq!(t.selection, strings(&["/a/docs", "/a/a.txt"]));
    t.select_rows(2, 99, true);
    assert_eq!(t.selection, strings(&["/a/a.txt", "/a/b.txt"]));
    assert_eq!(t.last_selected(), Some("/a/b.txt".to_string()));
}

#[test]
fn arrows_move_the_focus() {
    let mut t = tab("/a");
    assert_eq!(t.arrow_grid(1), Some(0));
    assert_eq!(t.arrow_grid(1), Some(1));
    assert_eq!(t.arrow_grid(10), Some(2));
    assert_eq!(t.arrow_grid(-100), Some(0));
    let mut empty = Tab::new("/a", vec![], 0);
    assert_eq!(empty.arrow_grid(1), None);
}

#[test]
fn columns_open_and_close() {
    let mut t = tab("/a");
    t.view = ViewMode::Columns;
    let list = rows(&[("docs", true), ("a.txt", false)]);
    assert_eq!(t.arrow_columns(0, 1, &list), Some("/a/docs".to_string()));
    assert_eq!(t.col_chain, strings(&["/a/docs"]));
    let inner = rows(&[("x", false)]);
    assert_eq!(t.column_needed(1), "/a/docs");
    assert_eq!(t.arrow_columns(1, 0, &inner), Some("/a/docs/x".to_string()));
    assert_eq!(t.col_active, 1);
    assert_eq!(t.arrow_columns(-1, 0, &list), None);
    assert_eq!(t.col_active, 0);
    assert_eq!(t.arrow_columns(0, 1, &list), Some("/a/a.txt".to_string()));
    assert!(t.col_chain.is_empty());
}

#[test]
fn finding_filters_the_rows() {
    let mut t = tab("/a");
    t.find = Some(shuffle::field::Field::holding("txt".to_string()));
    t.recompute_find();
    assert_eq!(t.shown_len(), 2);
    assert_eq!(t.shown_path(0), "/a/a.txt");
    assert!(!t.has_parent(true));
    t.find = None;
    assert_eq!(t.shown_len(), 3);
    assert!(t.has_parent(true));
    assert!(!t.has_parent(false));
}

#[test]
fn places_are_gathered_once() {
    assert_eq!(gather(&strings(&["/a", "/b", "/a/"])), strings(&["/a", "/b"]));
}

#[test]
fn tabs_open_and_close() {
    let mut w = Workspace::new(tab("/a"));
    w.new_tab_in(0, tab("/b"));
    w.new_tab_in(0, tab("/c"));
    assert_eq!(dirs(&w, 0), ["/a", "/b", "/c"]);
    assert_eq!(w.active_tab().dir, "/c");
    w.select_tab(0, 0);
    assert_eq!(w.active_tab().dir, "/a");
    assert_eq!(w.close_tab(0, 1), SplitChange::Same);
    assert_eq!(dirs(&w, 0), ["/a", "/c"]);
    assert_eq!(w.close_tab(0, 0), SplitChange::Same);
    assert_eq!(w.close_tab(0, 0), SplitChange::Same);
    assert_eq!(dirs(&w, 0), ["/c"]);
}

#[test]
fn a_dragged_tab_splits_the_window() {
    let mut w = Workspace::new(tab("/a"));
    assert_eq!(w.move_tab(0, 0, 1, 0), SplitChange::Same);
    w.new_tab_in(0, tab("/b"));
    assert_eq!(w.move_tab(0, 1, 1, 0), SplitChange::Opened);
    assert_eq!(w.panes.len(), 2);
    assert_eq!(dirs(&w, 1), ["/b"]);
    assert_eq!(w.active, 1);
    assert_eq!(w.move_tab(1, 0, 0, 0), SplitChange::Collapsed { left: false });
    assert_eq!(dirs(&w, 0), ["/b", "/a"]);
}

#[test]
fn closing_the_last_tab_of_a_pane_closes_it() {
    let mut w = Workspace::new(tab("/a"));
    w.new_tab_in(0, tab("/b"));
    w.move_tab(0, 1, 1, 0);
    assert_eq!(w.close_tab(0, 0), SplitChange::Collapsed { left: true });
    assert_eq!(dirs(&w, 0), ["/b"]);
    assert_eq!(w.active, 0);
}

#[test]
fn tabs_move_within_a_pane() {
    let mut w = Workspace::new(tab("/a"));
    w.new_tab_in(0, tab("/b"));
    w.new_tab_in(0, tab("/c"));
    assert_eq!(w.move_tab(0, 0, 0, 3), SplitChange::Same);
    assert_eq!(dirs(&w, 0), ["/b", "/c", "/a"]);
}
