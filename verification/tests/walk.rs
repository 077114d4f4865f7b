use ubackup::{
    decompose_pattern, filter_pass, glob, FsEntry, FsNode, GlobItem, Match, Segment,
};

fn dir(entries: Vec<FsEntry>) -> FsNode {
    FsNode::Dir { mtime: 0, readable: true, entries }
}

fn unreadable_dir() -> FsNode {
    FsNode::Dir { mtime: 0, readable: false, entries: Vec::new() }
}

fn entry(name: &str, node: FsNode) -> FsEntry {
    FsEntry { name: name.to_string(), node }
}

fn file(mtime: u64) -> FsNode {
    FsNode::File { mtime }
}

fn run_glob(root: &FsNode, pattern: &str, filters: Vec<Match>) -> Vec<GlobItem> {
    let segs = decompose_pattern(pattern).expect("pattern decomposes");
    glob(root, &segs, 0, &filters, 0, &Vec::new(), &Vec::new()).expect("walk starts")
}

fn no_filters() -> Vec<Match> {
    Vec::new()
}

fn only(names: &[&str]) -> Match {
    Match { exclude: Vec::new(), only: names.iter().map(|s| s.to_string()).collect() }
}

fn exclude(names: &[&str]) -> Match {
    Match { exclude: names.iter().map(|s| s.to_string()).collect(), only: Vec::new() }
}

/// The tree of the wildcard-and-filter walk example: two users, one of
/// them excluded.
fn example_tree() -> FsNode {
    dir(vec![entry(
        "root",
        dir(vec![
            entry("alice", dir(vec![entry("Desktop", dir(vec![entry("a.txt", file(5))]))])),
            entry("Public", dir(vec![entry("Desktop", dir(vec![entry("b.txt", file(5))]))])),
        ]),
    )])
}

#[test]
fn wildcard_with_filter_yields_one_match() {
    let root = example_tree();
    let items = run_glob(&root, "/root/*/Desktop", vec![exclude(&["public"])]);
    assert_eq!(items.len(), 1);
    match &items[0] {
        GlobItem::Found(m) => {
            assert_eq!(m.matches, vec!["alice".to_string()]);
            assert_eq!(
                m.path,
                vec!["root".to_string(), "alice".to_string(), "Desktop".to_string()]
            );
        }
        GlobItem::Failed(_) => panic!("expected a match"),
    }
}

#[test]
fn wildcard_without_filter_yields_both() {
    let root = example_tree();
    let items = run_glob(&root, "/root/*/Desktop", no_filters());
    assert_eq!(items.len(), 2);
}

#[test]
fn filter_entries_match_case_insensitively() {
    assert!(filter_pass(&only(&["Desktop"]), "desktop"));
    assert!(filter_pass(&exclude(&["Public"]), "desktop"));
    assert!(!filter_pass(&exclude(&["Public"]), "public"));
    assert!(!filter_pass(&only(&["Desktop"]), "documents"));
    // An absent or empty filter passes everything.
    assert!(filter_pass(&Match::default(), "anything"));
}

#[test]
fn directory_entries_match_case_insensitively() {
    let root = dir(vec![entry("DESKTOP", dir(vec![entry("x.txt", file(1))]))]);
    let items = run_glob(&root, "/desk*", no_filters());
    assert_eq!(items.len(), 1);
    match &items[0] {
        GlobItem::Found(m) => {
            // Captures are recorded case-normalized.
            assert_eq!(m.matches, vec!["top".to_string()]);
            assert_eq!(m.path, vec!["DESKTOP".to_string()]);
        }
        GlobItem::Failed(_) => panic!("expected a match"),
    }
}

#[test]
fn two_stars_consume_two_filters() {
    let root = dir(vec![entry(
        "left_right",
        dir(vec![entry("inner", dir(vec![entry("f", file(1))]))]),
    )]);
    // Both captures pass their own filter.
    let items = run_glob(&root, "/*_*/inner", vec![only(&["left"]), only(&["right"])]);
    assert_eq!(items.len(), 1);
    match &items[0] {
        GlobItem::Found(m) => {
            assert_eq!(m.matches, vec!["left".to_string(), "right".to_string()]);
        }
        GlobItem::Failed(_) => panic!("expected a match"),
    }
    // The second capture fails its filter: the entry is excluded.
    let items = run_glob(&root, "/*_*/inner", vec![only(&["left"]), only(&["other"])]);
    assert_eq!(items.len(), 0);
    // A later wildcard sees the queue advanced by two.
    let items = run_glob(&root, "/*_*/*", vec![only(&["left"]), only(&["right"]), only(&["inner"])]);
    assert_eq!(items.len(), 1);
    let items = run_glob(&root, "/*_*/*", vec![only(&["left"]), only(&["right"]), only(&["other"])]);
    assert_eq!(items.len(), 0);
}

#[test]
fn brace_group_entries_are_trimmed() {
    let root = example_tree();
    let spaced = run_glob(&root, "/root/{ alice , bob , -public }/Desktop", no_filters());
    assert_eq!(spaced.len(), 1);
    match &spaced[0] {
        GlobItem::Found(m) => assert_eq!(m.matches, vec!["alice".to_string()]),
        GlobItem::Failed(_) => panic!("expected a match"),
    }
}

#[test]
fn brace_group_equals_star_with_filter() {
    let root = example_tree();
    let grouped = run_glob(&root, "/root/{alice,bob,-public}/Desktop", no_filters());
    let starred = run_glob(
        &root,
        "/root/*/Desktop",
        vec![Match {
            exclude: vec!["public".to_string()],
            only: vec!["alice".to_string(), "bob".to_string()],
        }],
    );
    assert_eq!(grouped.len(), starred.len());
    assert_eq!(grouped.len(), 1);
    match (&grouped[0], &starred[0]) {
        (GlobItem::Found(a), GlobItem::Found(b)) => {
            assert_eq!(a.path, b.path);
            assert_eq!(a.matches, b.matches);
        }
        _ => panic!("expected matches"),
    }
}

#[test]
fn unreadable_branch_is_one_error_and_siblings_survive() {
    let root = dir(vec![entry(
        "top",
        dir(vec![
            entry("bad", unreadable_dir()),
            entry("good", dir(vec![entry("f.txt", file(1))])),
        ]),
    )]);
    let items = run_glob(&root, "/top/*/*", no_filters());
    let mut errors = 0;
    let mut found = 0;
    for it in &items {
        match it {
            GlobItem::Failed(w) => {
                errors += 1;
                assert_eq!(w.path, vec!["top".to_string(), "bad".to_string()]);
            }
            GlobItem::Found(m) => {
                found += 1;
                assert_eq!(
                    m.path,
                    vec!["top".to_string(), "good".to_string(), "f.txt".to_string()]
                );
                assert_eq!(m.matches, vec!["good".to_string(), "f.txt".to_string()]);
            }
        }
    }
    assert_eq!(errors, 1);
    assert_eq!(found, 1);
}

#[test]
fn absent_literal_is_silent() {
    let root = example_tree();
    let items = run_glob(&root, "/missing/*", no_filters());
    assert_eq!(items.len(), 0);
}

#[test]
fn files_are_not_descended_into() {
    let root = dir(vec![entry("a", file(1))]);
    // Further segments remain, so the plain file cannot match.
    let items = run_glob(&root, "/*/b", no_filters());
    assert_eq!(items.len(), 0);
    // With nothing left, the file itself is the match.
    let items = run_glob(&root, "/*", no_filters());
    assert_eq!(items.len(), 1);
}

#[test]
fn greedy_star_takes_the_longest_run() {
    let root = dir(vec![entry("a.b.sqlite", file(1))]);
    let items = run_glob(&root, "/*.sqlite", no_filters());
    assert_eq!(items.len(), 1);
    match &items[0] {
        GlobItem::Found(m) => assert_eq!(m.matches, vec!["a.b".to_string()]),
        GlobItem::Failed(_) => panic!("expected a match"),
    }
}

#[test]
fn prefix_and_root_segments_stay_at_the_root() {
    let root = dir(vec![entry("Users", dir(vec![entry("x", dir(Vec::new()))]))]);
    let segs = decompose_pattern("C:\\Users\\*").expect("decomposes");
    assert!(matches!(segs[0], Segment::Prefix(_)));
    let items = glob(&root, &segs, 0, &Vec::new(), 0, &Vec::new(), &Vec::new()).unwrap();
    assert_eq!(items.len(), 1);
}

#[test]
fn missing_filters_default_to_allow() {
    let root = dir(vec![entry(
        "left_right",
        dir(vec![entry("inner", dir(vec![entry("f", file(1))]))]),
    )]);
    // Fewer filters than stars: the unmatched captures pass by default.
    let items = run_glob(&root, "/*_*/inner", vec![only(&["left"])]);
    assert_eq!(items.len(), 1);
    let items = run_glob(&root, "/*_*/inner", no_filters());
    assert_eq!(items.len(), 1);
}

#[test]
fn trailing_separator_changes_nothing() {
    let root = dir(vec![entry("Users", dir(vec![entry("x", dir(Vec::new()))]))]);
    let a = run_glob(&root, "/Users/*", no_filters());
    let b = run_glob(&root, "/Users/*/", no_filters());
    assert_eq!(a.len(), 1);
    assert_eq!(b.len(), 1);
    match (&a[0], &b[0]) {
        (GlobItem::Found(x), GlobItem::Found(y)) => {
            assert_eq!(x.path, y.path);
            assert_eq!(x.matches, y.matches);
        }
        _ => panic!("expected matches"),
    }
}

#[test]
fn dot_components_are_rejected() {
    assert!(decompose_pattern("/a/./b").is_err());
    assert!(decompose_pattern("/a/../b").is_err());
}

#[test]
fn counting_stars() {
    assert_eq!(ubackup::count("a*b*", '*'), 2);
    assert_eq!(ubackup::count("", '*'), 0);
    assert_eq!(ubackup::count("abc", '*'), 0);
}
