use shuffle::paths::{
    components, depth, display_path, expand_path, extension, file_name, file_stem, join_path,
    longest_common_prefix, next_try, normalize_path, parent, path_label, resolve_dir, same_path,
    split_path_query, under, unique_child,
};
use shuffle::rounding::{format_size, nearest, round_quotient, round_whole, DOUBLE, SINGLE};
use shuffle::text::{
    decimal, hex6, lines, parse_number, rsplit_once, split, split_once, strip_prefix,
    to_ascii_lower, trim, utf8_len,
};

fn strings(v: &[&str]) -> Vec<String> {
    v.iter().map(|s| s.to_string()).collect()
}

#[test]
fn trimming_takes_unicode_space() {
    assert_eq!(trim("\u{3000} a b\t\n"), "a b");
    assert_eq!(trim(""), "");
    assert_eq!(trim(" \u{a0}"), "");
}

#[test]
fn lines_drop_their_ends() {
    assert_eq!(lines("a\r\nb\n\nc"), strings(&["a", "b", "", "c"]));
    assert_eq!(lines("a\n"), strings(&["a"]));
    assert_eq!(lines(""), strings(&[]));
}

#[test]
fn splitting_at_characters() {
    assert_eq!(split_once("a=b=c", '='), Some(("a".to_string(), "b=c".to_string())));
    assert_eq!(rsplit_once("a=b=c", '='), Some(("a=b".to_string(), "c".to_string())));
    assert_eq!(split_once("abc", '='), None);
    assert_eq!(split("1.2..3", '.'), strings(&["1", "2", "", "3"]));
    assert_eq!(strip_prefix("fav:home", "fav:"), Some("home".to_string()));
    assert_eq!(strip_prefix("home", "fav:"), None);
}

#[test]
fn numbers_read_back() {
    assert_eq!(decimal(0), "0");
    assert_eq!(decimal(18446744073709551615), "18446744073709551615");
    assert_eq!(hex6(0x00ff7a), "00ff7a");
    assert_eq!(hex6(0x1ff00ff7), "1ff00ff7");
    assert_eq!(parse_number("00ff7a", 16, 0xffff_ffff), Some(0xff7a));
    assert_eq!(parse_number("+12", 10, 255), Some(12));
    assert_eq!(parse_number("256", 10, 255), None);
    assert_eq!(parse_number("", 10, 255), None);
    assert_eq!(parse_number("-1", 10, 255), None);
    assert_eq!(parse_number("1x", 10, 255), None);
}

#[test]
fn only_ascii_is_lowered() {
    assert_eq!(to_ascii_lower("ÄBC"), "Äbc");
    assert_eq!(utf8_len("aé€😀"), 10);
}

#[test]
fn components_leave_out_empty_parts() {
    assert_eq!(components("/a//b/./c/"), strings(&["/", "a", "b", "c"]));
    assert_eq!(components("./a"), strings(&[".", "a"]));
    assert_eq!(components("a/../b"), strings(&["a", "..", "b"]));
    assert_eq!(components(""), strings(&[]));
    assert_eq!(depth("/a/b"), 3);
}

#[test]
fn places_are_compared_by_components() {
    assert!(same_path("/a/b/", "/a//b"));
    assert!(!same_path("/a/b", "a/b"));
    assert!(under("/a/b/c", "/a/b"));
    assert!(!under("/a/bc", "/a/b"));
    assert!(under("/a", "/a"));
}

#[test]
fn parts_of_a_path() {
    assert_eq!(parent("/a/b"), Some("/a".to_string()));
    assert_eq!(parent("/a"), Some("/".to_string()));
    assert_eq!(parent("/"), None);
    assert_eq!(file_name("/a/b.txt/"), Some("b.txt".to_string()));
    assert_eq!(file_name("/"), None);
    assert_eq!(file_name("/a/.."), None);
    assert_eq!(extension("a.tar.gz"), Some("gz".to_string()));
    assert_eq!(extension(".bashrc"), None);
    assert_eq!(extension("a."), Some("".to_string()));
    assert_eq!(file_stem("/x/a.tar.gz"), Some("a.tar".to_string()));
    assert_eq!(file_stem(".bashrc"), Some(".bashrc".to_string()));
}

#[test]
fn joining_and_going_up() {
    assert_eq!(join_path("/a", "b"), "/a/b");
    assert_eq!(join_path("/a/", "b"), "/a/b");
    assert_eq!(join_path("/a", "/b"), "/b");
    assert_eq!(join_path("/", "b"), "/b");
    let child = join_path("/home/me", "notes");
    assert_eq!(parent(&child), Some("/home/me".to_string()));
    assert_eq!(file_name(&child), Some("notes".to_string()));
}

#[test]
fn normalizing_settles() {
    assert_eq!(normalize_path("/a/./b/../c"), "/a/c");
    assert_eq!(normalize_path("/../.."), "/");
    let once = normalize_path("/a/b/../../c/./d");
    assert_eq!(once, "/c/d");
    assert_eq!(normalize_path(&once), once);
}

#[test]
fn typed_paths_are_expanded() {
    assert_eq!(expand_path("~", "/Users/me"), "/Users/me");
    assert_eq!(expand_path("~/x", "/Users/me"), "/Users/me/x");
    assert_eq!(expand_path("~x", "/Users/me"), "~x");
    assert_eq!(resolve_dir("/a/b", "..", "/Users/me"), "/a");
    assert_eq!(resolve_dir("/a/b", "", "/Users/me"), "/a/b");
    assert_eq!(resolve_dir("/a/b", "~", "/Users/me"), "/Users/me");
    assert_eq!(resolve_dir("/a/b", "~/c/../d", "/Users/me"), "/Users/me/d");
    assert_eq!(resolve_dir("/a/b", "/etc", "/Users/me"), "/etc");
}

#[test]
fn paths_for_display() {
    assert_eq!(display_path("/Users/me/Documents/x", "/Users/me"), "~/Documents/x");
    assert_eq!(display_path("/Users/me", "/Users/me"), "~");
    assert_eq!(display_path("/etc", "/Users/me"), "/etc");
    assert_eq!(path_label("/"), "Macintosh HD");
    assert_eq!(path_label("/a/b"), "b");
}

#[test]
fn path_queries_are_split() {
    assert_eq!(
        split_path_query("~/Doc", "/Users/me"),
        ("/Users/me".to_string(), "Doc".to_string())
    );
    assert_eq!(split_path_query("/usr/", "/Users/me"), ("/usr".to_string(), "".to_string()));
    assert_eq!(split_path_query("/us", "/Users/me"), ("/".to_string(), "us".to_string()));
}

#[test]
fn free_names_are_tried_in_order() {
    assert_eq!(unique_child("/a", "untitled folder", 1), "/a/untitled folder");
    assert_eq!(unique_child("/a", "untitled folder", 2), "/a/untitled folder 2");
    assert_eq!(unique_child("/a", "untitled folder", 10), "/a/untitled folder 10");
}

#[test]
fn common_prefixes() {
    assert_eq!(longest_common_prefix(&strings(&["Documents", "Document.txt"])), "Document");
    assert_eq!(longest_common_prefix(&strings(&["abc"])), "abc");
    assert_eq!(longest_common_prefix(&strings(&[])), "");
    assert_eq!(longest_common_prefix(&strings(&["x", "y"])), "");
}

#[test]
fn rounding_goes_to_even() {
    assert_eq!(nearest(5, 2), 2);
    assert_eq!(nearest(7, 2), 4);
    assert_eq!(nearest(8, 3), 3);
    let third = round_quotient(1, 3, SINGLE);
    assert_eq!((third.num as f64 / third.den as f64) as f32, 1.0f32 / 3.0f32);
    let tenth = round_quotient(1, 10, DOUBLE);
    assert_eq!(tenth.num as f64 / tenth.den as f64, 0.1f64);
    assert_eq!(round_whole(16_777_217, SINGLE), 16_777_216);
    assert_eq!(round_whole(16_777_219, SINGLE), 16_777_220);
}

#[test]
fn sizes_for_display() {
    assert_eq!(format_size(true, 5), "--");
    assert_eq!(format_size(false, 0), "0 B");
    assert_eq!(format_size(false, 999), "999 B");
    assert_eq!(format_size(false, 1000), "1.0 KB");
    assert_eq!(format_size(false, 1_250), "1.2 KB");
    assert_eq!(format_size(false, 1_350), "1.4 KB");
    assert_eq!(format_size(false, 999_950), "1000.0 KB");
    assert_eq!(format_size(false, 123_456_789), "123.5 MB");
    assert_eq!(format_size(false, 5_000_000_000_000_000), "5000.0 TB");
}

#[test]
fn sizes_agree_with_floating_point() {
    for size in [1u64, 1001, 1049, 1050, 1150, 99_949, 99_950, 1_048_576, u64::MAX] {
        let mut value = size as f64;
        let mut unit = 0;
        while value >= 1000.0 && unit < 4 {
            value /= 1000.0;
            unit += 1;
        }
        let expected = if unit == 0 {
            format!("{size} B")
        } else {
            format!("{value:.1} {}", ["B", "KB", "MB", "GB", "TB"][unit])
        };
        assert_eq!(format_size(false, size), expected);
    }
}

#[test]
fn the_first_free_name_is_taken() {
    let there = ["/a/new", "/a/new 2", "/a/new 4"];
    let mut n = 1u64;
    let found = loop {
        let taken = there.contains(&unique_child("/a", "new", n).as_str());
        match next_try("/a", "new", n, taken) {
            Ok(path) => break path,
            Err(next) => n = next,
        }
    };
    assert_eq!(found, "/a/new 3");
    assert_eq!(next_try("/a", "free", 1, false), Ok("/a/free".to_string()));
    assert_eq!(next_try("/a", "free", 7, true), Err(8));
}

#[test]
fn displayed_paths_expand_back() {
    for (home, path, shown) in [
        ("/Users/me", "/Users/me", "~"),
        ("/Users/me/", "/Users/me/a b/./c/", "~/a b/./c"),
        ("/Users/me", "/Users//me/../x", "~/../x"),
        ("/", "/etc/hosts", "~/etc/hosts"),
        ("/Users/me", "/Users/meg", "/Users/meg"),
    ] {
        let d = display_path(path, home);
        assert_eq!(d, shown);
        assert!(same_path(&expand_path(&d, home), path));
    }
}
