use shuffle::kinds::{
    archive_extract_command, archive_suffix, extract_folder, fav_key, fav_path, icon_key, is_image,
    is_pdf, kind_label, pack_icon_path, FOLDER_KEY,
};
use shuffle::listing::{sort_default, sort_entries, Entry, SortKey, Stamp};
use shuffle::places::{drop_place, find_place, push_recent, sort_paths};
use shuffle::sorting::sort_order;

fn row(name: &str, is_dir: bool, size: u64, secs: Option<i64>) -> Entry {
    Entry {
        name: name.to_string(),
        is_dir,
        size,
        modified: secs.map(|s| Stamp { secs: s, nanos: 0 }),
        created: None,
        loaded: true,
    }
}

fn names(v: &[Entry]) -> Vec<&str> {
    v.iter().map(|e| e.name.as_str()).collect()
}

fn strings(v: &[&str]) -> Vec<String> {
    v.iter().map(|s| s.to_string()).collect()
}

fn sample() -> Vec<Entry> {
    vec![
        row("beta.TXT", false, 30, Some(5)),
        row("Zeta", true, 0, Some(9)),
        row("alpha.png", false, 10, None),
        row("delta", true, 0, Some(1)),
    ]
}

#[test]
fn folders_come_first_by_default() {
    assert_eq!(names(&sort_default(&sample())), ["delta", "Zeta", "alpha.png", "beta.TXT"]);
    let down = sort_entries(&sample(), SortKey::Standard, false);
    assert_eq!(names(&down), ["delta", "Zeta", "alpha.png", "beta.TXT"]);
}

#[test]
fn columns_sort_in_both_directions() {
    let up = sort_entries(&sample(), SortKey::Name, true);
    assert_eq!(names(&up), ["alpha.png", "beta.TXT", "delta", "Zeta"]);
    let down = sort_entries(&sample(), SortKey::Name, false);
    assert_eq!(names(&down), ["Zeta", "delta", "beta.TXT", "alpha.png"]);
    let size = sort_entries(&sample(), SortKey::Size, false);
    assert_eq!(names(&size), ["beta.TXT", "alpha.png", "delta", "Zeta"]);
}

#[test]
fn unknown_dates_come_first() {
    let up = sort_entries(&sample(), SortKey::Modified, true);
    assert_eq!(names(&up), ["alpha.png", "delta", "beta.TXT", "Zeta"]);
}

#[test]
fn kinds_sort_by_label_then_name() {
    let up = sort_entries(&sample(), SortKey::Kind, true);
    assert_eq!(up.len(), 4);
    assert_eq!(names(&up)[0], "delta");
    assert_eq!(names(&up)[1], "Zeta");
}

#[test]
fn sorting_is_stable() {
    let keys = vec![vec![2], vec![1, 5], vec![1], vec![2]];
    assert_eq!(sort_order(&keys), vec![2, 1, 0, 3]);
}

#[test]
fn labels_of_criteria() {
    assert_eq!(SortKey::Modified.label(), "Date Modified");
    assert_eq!(SortKey::Size.label(), "Size");
}

#[test]
fn kinds_of_files() {
    assert_eq!(kind_label("x", true), "Directory");
    assert_eq!(kind_label("README", false), "Document");
    assert!(is_image("/a/B.JPG"));
    assert!(!is_image("/a/b.txt"));
    assert!(is_pdf("/a/B.PDF"));
}

#[test]
fn archives_are_unpacked_beside_themselves() {
    assert!(archive_suffix("/a/proj.TAR.GZ").is_some());
    assert!(archive_suffix("/a/proj.rs").is_none());
    assert_eq!(extract_folder("/a/proj.tar.gz"), Some("proj".to_string()));
    let zip = archive_extract_command("/a/x.zip", "/a/x").unwrap();
    assert_eq!(zip.program, "ditto");
    assert_eq!(zip.args, strings(&["-xk", "/a/x.zip", "/a/x"]));
    let tar = archive_extract_command("/a/x.tgz", "/a/x").unwrap();
    assert_eq!(tar.program, "tar");
    assert_eq!(tar.args, strings(&["-xf", "/a/x.tgz", "-C", "/a/x"]));
    assert!(archive_extract_command("/a/x.txt", "/a/x").is_none());
}

#[test]
fn icons_are_shared_by_type() {
    assert_eq!(icon_key("/a/B.PNG"), Some("png".to_string()));
    assert_eq!(icon_key("/a/Makefile"), None);
    assert_eq!(fav_key("home"), "fav:home");
    assert_eq!(fav_path("Documents", "/Users/me"), "/Users/me/Documents");
    let tried = pack_icon_path("/packs/mine", FOLDER_KEY);
    assert_eq!(tried[0], "/packs/mine/folder.png");
    assert_eq!(tried.len(), 7);
    assert_eq!(pack_icon_path("/p", "fav:home")[1], "/p/home.jpg");
    assert_eq!(pack_icon_path("/p", "rs")[6], "/p/rs.webp");
}

#[test]
fn recent_places_move_to_the_front() {
    let v = strings(&["/a", "/b", "/c"]);
    assert_eq!(push_recent(&v, "/b/", 12), strings(&["/b/", "/a", "/c"]));
    assert_eq!(push_recent(&v, "/d", 3), strings(&["/d", "/a", "/b"]));
    assert_eq!(find_place(&v, "/c/"), Some(2));
    assert_eq!(find_place(&v, "/x"), None);
    assert_eq!(drop_place(&v, "/a"), strings(&["/b", "/c"]));
}

#[test]
fn paths_sort_by_components() {
    let v = strings(&["/a/b", "/a!", "/a", "/B"]);
    assert_eq!(sort_paths(&v), strings(&["/B", "/a", "/a/b", "/a!"]));
}
