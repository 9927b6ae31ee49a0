use shuffle::find::{filter_rows, find_rows};
use shuffle::index::{keep_child, query_chars, rank_spotted, walk_threads, FileIndex, IndexEntry, WalkItem};
use shuffle::listing::{Entry, SortKey};
use shuffle::score::{
    bigrams, dice, find_score, fuzzy_score, index_score, match_score, settings_match,
};

fn entry(path: &str, is_dir: bool) -> IndexEntry {
    let name = path.rsplit('/').next().unwrap().to_string();
    IndexEntry { name, path: path.to_string(), is_dir }
}

fn sample() -> FileIndex {
    FileIndex {
        entries: vec![
            entry("/Users/guzma/Documents", true),
            entry("/Users/guzma/Downloads", true),
            entry("/Users/guzma/Music", true),
            entry("/Users/guzma/go/pkg/mod/x/spec-example-documents", true),
            entry("/Users/guzma/Documents/foo/DocumentSummaryInformation", false),
            entry("/Users/guzma/Documents/report.docx", false),
        ],
    }
}

fn names(index: &FileIndex, query: &str, limit: usize) -> Vec<String> {
    index.search(query, limit).into_iter().map(|h| h.0).collect()
}

#[test]
fn misspelt_queries_find_their_folder() {
    let index = sample();
    assert_eq!(
        names(&index, "documents", 3),
        ["Documents", "DocumentSummaryInformation", "spec-example-documents"]
    );
    assert_eq!(names(&index, "dcouments", 3), ["Documents"]);
    assert_eq!(names(&index, "documnets", 3), ["Documents"]);
    assert_eq!(names(&index, "dwnloads", 3), ["Downloads"]);
    assert_eq!(names(&index, "musc", 3), ["Music"]);
}

#[test]
fn searches_are_limited_and_ranked() {
    let index = sample();
    assert_eq!(names(&index, "documents", 1), ["Documents"]);
    assert!(names(&index, "documents", 0).is_empty());
    assert!(names(&index, "", 5).is_empty());
    let hits = index.search("documents", 3);
    assert_eq!(hits[0].1, "/Users/guzma/Documents");
    assert!(hits[0].2);
    assert!(!hits[1].2);
}

#[test]
fn upper_case_queries_are_lowered() {
    let index = sample();
    assert_eq!(names(&index, "DOCUMENTS", 1), ["Documents"]);
    assert_eq!(query_chars("ÄB"), vec!['ä', 'b']);
    assert_eq!(query_chars("İ"), vec!['i', '\u{307}']);
}

#[test]
fn walks_leave_out_noise() {
    assert!(!keep_child("/p", "node_modules", true));
    assert!(keep_child("/p", "node_modules", false));
    assert!(!keep_child("/Users/me/go", "pkg", true));
    assert!(keep_child("/Users/me/src", "pkg", true));
    assert_eq!(walk_threads(None), walk_threads(Some(4)));
}

#[test]
fn an_index_leaves_out_its_root() {
    let items = vec![
        WalkItem { depth: 0, name: "me".to_string(), path: "/Users/me".to_string(), is_dir: true },
        WalkItem { depth: 1, name: "a".to_string(), path: "/Users/me/a".to_string(), is_dir: false },
    ];
    let index = FileIndex::build(&items);
    assert_eq!(index.entries.len(), 1);
    assert_eq!(index.entries[0].path, "/Users/me/a");
}

#[test]
fn spotted_lines_are_ranked() {
    let lines = vec![
        "/x/my-documents-list.txt".to_string(),
        "".to_string(),
        "/x/Documents".to_string(),
        "/x/unrelated".to_string(),
    ];
    let found = rank_spotted(&lines, "documents");
    let names: Vec<&str> = found.iter().map(|e| e.name.as_str()).collect();
    assert_eq!(names, ["Documents", "my-documents-list.txt"]);
}

#[test]
fn subsequences_score_by_place() {
    assert_eq!(fuzzy_score("fs", "foo_s.rs"), Some(18));
    assert_eq!(fuzzy_score("xyz", "abc"), None);
    assert_eq!(fuzzy_score("", "abc"), Some(0));
    assert_eq!(fuzzy_score("ABC", "abc"), Some(10 + 6 + 6));
    assert_eq!(index_score(&vec!['a', 'b'], "AB"), Some(16));
    assert_eq!(index_score(&vec!['b', 'a'], "ab"), None);
}

#[test]
fn pairs_measure_similarity() {
    assert_eq!(bigrams("abc"), vec![('a', 'b'), ('b', 'c')]);
    let d = dice("night", "nacht");
    assert_eq!(d.num * 4, d.den);
    let one = dice("a", "a");
    assert_eq!((one.num, one.den), (1, 1));
    let none = dice("a", "b");
    assert_eq!(none.num, 0);
}

#[test]
fn find_scores_order_the_ways_to_match() {
    assert_eq!(find_score("README.md", "readme.MD"), Some(100_000));
    assert_eq!(find_score("read", "README.md"), Some(49_998));
    assert_eq!(find_score("rdm", "README.md"), Some(10_012));
    assert_eq!(find_score("zzz", "readme"), None);
}

#[test]
fn partial_names_score() {
    assert_eq!(match_score("doc", "Documents"), 7119);
    assert_eq!(match_score("", "x"), 0);
    assert_eq!(match_score("dco", "Documents"), -2);
}

#[test]
fn scores_agree_with_single_precision() {
    for (a, b) in [("dcouments", "documents"), ("teh", "the"), ("kitten", "sitting"), ("aab", "aba")] {
        let x = bigrams(a);
        let y = bigrams(b);
        let mut used = vec![false; y.len()];
        let mut shared = 0;
        for p in &x {
            if let Some(j) = (0..y.len()).find(|&j| !used[j] && y[j] == *p) {
                used[j] = true;
                shared += 1;
            }
        }
        let expected = 2.0f32 * shared as f32 / (x.len() + y.len()) as f32;
        let d = dice(a, b);
        assert_eq!((d.num as f64 / d.den as f64) as f32, expected);
    }
}

#[test]
fn settings_are_offered_for_near_names() {
    assert!(settings_match("set"));
    assert!(settings_match("prefer"));
    assert!(settings_match("setings"));
    assert!(!settings_match("documents"));
}

fn row(name: &str, is_dir: bool) -> Entry {
    Entry::quick(name.to_string(), is_dir)
}

#[test]
fn filters_keep_what_matches() {
    let rows = vec![row("alpha.txt", false), row("beta", true), row("alphabet", true)];
    assert_eq!(filter_rows(&rows, "alpha", SortKey::Name), vec![0, 2]);
    assert_eq!(filter_rows(&rows, "alpha", SortKey::Standard), vec![2, 0]);
    assert_eq!(filter_rows(&rows, "", SortKey::Name), vec![0, 1, 2]);
    assert!(filter_rows(&rows, "zzz", SortKey::Name).is_empty());
}

#[test]
fn the_best_match_comes_first_by_rank() {
    let rows = vec![row("a-lph-a.txt", false), row("alpha", false)];
    assert_eq!(find_rows(&rows, "alpha", true), vec![1, 0]);
    assert_eq!(find_rows(&rows, "alpha", false), vec![0, 1]);
}

#[test]
fn an_exact_name_comes_first() {
    let index = FileIndex {
        entries: vec![
            entry("/report.pdf", false),
            entry("/reports", true),
            entry("/a/b/c/d/e/f/g/h/i/j/k/l/Report", false),
            entry("/my-report", true),
        ],
    };
    assert_eq!(names(&index, "REPORT", 2), ["Report", "report.pdf"]);
    assert_eq!(names(&index, "report", 1), ["Report"]);
}

#[test]
fn long_names_score_lower() {
    let long = format!("a{}", "b".repeat(80));
    assert_eq!(index_score(&vec!['a'], "a"), Some(10));
    assert_eq!(index_score(&vec!['a'], &long), Some(0));
    assert_eq!(fuzzy_score("a", &long), Some(0));
}

#[test]
fn earlier_ways_to_match_score_higher() {
    let long = "x".repeat(95);
    let ways = [
        "Note".to_string(),
        format!("note{long}"),
        format!("n-o-t-e{}", &long[..90]),
        "noet".to_string(),
    ];
    let scores: Vec<i128> = ways.iter().map(|n| find_score("note", n).unwrap_or(-1)).collect();
    assert_eq!(scores[0], 100_000);
    assert_eq!(scores[1], 50_000 - 24);
    assert!(scores[1] > scores[2] && scores[2] > 7_000);
    assert_eq!(scores[3], -1);
    let near = find_score("documents", "dcouments").unwrap();
    assert!(near <= 5_000 && near < scores[2]);
}

#[test]
fn equal_ranks_put_the_shorter_name_first() {
    let index = FileIndex {
        entries: vec![entry("/xab__", false), entry("/xab_", false), entry("/xab__", false)],
    };
    let hits = names(&index, "ab", 5);
    assert_eq!(hits[0], "xab_");
    assert_eq!(hits.len(), 3);
}

#[test]
fn lowering_twice_changes_nothing() {
    for c in '\u{0}'..='\u{10ffff}' {
        let low = c.to_string().to_lowercase();
        assert_eq!(low.to_lowercase(), low);
    }
    for word in ["ΟΔΥΣΣΕΥΣ", "ΑΣ", "Σ", "İSTANBUL", "ẞ"] {
        let low = word.to_lowercase();
        assert_eq!(low.to_lowercase(), low);
        assert_eq!(find_score(word, &low), Some(100_000));
    }
    assert_eq!(
        find_score("ΣΑ", "xσyα").map(|s| s - 10_000 + 6 / 4),
        fuzzy_score("ΣΑ", "xσyα")
    );
}
