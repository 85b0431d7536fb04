use fubako::walk::{activity_descent, counts_as_activity, join_rel, later, take_budget, visit_name, NameVisit, SEARCH_MAX_NAMES};

/// A folder tree for the walk: a name, whether it is a folder, and its contents.
struct Node {
    name: &'static str,
    children: Vec<Node>,
    is_dir: bool,
}

fn dir(name: &'static str, children: Vec<Node>) -> Node {
    Node { name, children, is_dir: true }
}

fn file(name: &'static str) -> Node {
    Node { name, children: Vec::new(), is_dir: false }
}

/// Walks `nodes` as the application walks a task folder; returns the entries counted at the top.
fn walk(nodes: &[Node], prefix: &str, depth: u32, names: &mut Vec<String>) -> usize {
    let mut count = 0;
    for n in nodes {
        match visit_name(names, prefix, n.name, n.is_dir, depth) {
            NameVisit::Ignored => continue,
            NameVisit::Counted | NameVisit::Recorded => {}
            NameVisit::Descend(rel) => {
                walk(&n.children, &rel, depth + 1, names);
            }
        }
        count += 1;
    }
    count
}

#[test]
fn search_names_reach_into_subfolders() {
    let tree = vec![
        file("メモ.md"),
        dir("資料", vec![file("仕様書.xlsx"), dir("旧版", vec![file("初稿.docx")])]),
        file(".todo.json"),
    ];
    let mut names = Vec::new();
    let count = walk(&tree, "", 0, &mut names);
    names.sort();
    assert_eq!(
        names,
        vec!["メモ.md", "資料", r"資料\仕様書.xlsx", r"資料\旧版", r"資料\旧版\初稿.docx"]
    );
    // the card counts the top level only
    assert_eq!(count, 2);
}

#[test]
fn search_names_stop_at_the_depth_limit() {
    let tree = vec![dir("a", vec![dir("b", vec![dir("c", vec![file("奥.txt")])])])];
    let mut names = Vec::new();
    walk(&tree, "", 0, &mut names);
    names.sort();
    assert_eq!(names, vec!["a", r"a\b", r"a\b\c"]);
}

#[test]
fn names_beyond_the_limit_are_counted_but_not_kept() {
    let mut names: Vec<String> = (0..SEARCH_MAX_NAMES).map(|i| i.to_string()).collect();
    assert!(matches!(visit_name(&mut names, "", "more.txt", false, 0), NameVisit::Counted));
    assert_eq!(names.len(), SEARCH_MAX_NAMES);
    assert!(matches!(visit_name(&mut names, "", ".todo.json.tmp", false, 0), NameVisit::Ignored));
}

#[test]
fn the_walk_helpers() {
    assert_eq!(join_rel("", "a"), "a");
    assert_eq!(join_rel(r"a\b", "c"), r"a\b\c");
    let mut budget = 1;
    assert!(take_budget(&mut budget));
    assert_eq!(budget, 0);
    assert!(!take_budget(&mut budget));
    assert_eq!(budget, 0);
    assert_eq!(later(None, 5), Some(5));
    assert_eq!(later(Some(7), 5), Some(7));
    assert_eq!(later(Some(3), 5), Some(5));
    assert!(!counts_as_activity(".todo.json"));
    assert!(counts_as_activity("メモ.md"));
}

#[test]
fn the_search_for_activity_goes_into_folders_while_levels_are_left() {
    assert_eq!(activity_descent(true, 2), Some(1));
    assert_eq!(activity_descent(true, 0), None);
    assert_eq!(activity_descent(false, 2), None);
}
