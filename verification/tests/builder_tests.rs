use tree_explorer::builder::{build_forest, Entry};
use tree_explorer::item::TreeError;
use tree_explorer::order::text_lt_exec;
use tree_explorer::paths::PathSet;
use tree_explorer::sortable::SortablePath;

fn path(parts: &[&str]) -> Vec<String> {
    parts.iter().map(|p| p.to_string()).collect()
}

fn entry(parts: &[&str], is_branch: bool) -> Entry {
    Entry { components: path(parts), is_branch }
}

#[test]
fn duplicate_children_fail_the_build() {
    let entries = vec![
        entry(&["dir"], true),
        entry(&["dir", "same.txt"], false),
        entry(&["dir", "same.txt"], false),
    ];
    assert_eq!(build_forest(&entries).unwrap_err(), TreeError::DuplicateIdentifier);
}

#[test]
fn entry_without_components_fails_the_build() {
    let entries = vec![entry(&[], false), entry(&["a.txt"], false)];
    assert_eq!(build_forest(&entries).unwrap_err(), TreeError::InvalidEntry);
}

#[test]
fn directories_come_first_then_files_alphabetically() {
    // three files and one subdirectory holding two files, given out of order
    let entries = vec![
        entry(&["zeta.txt"], false),
        entry(&["sub", "yankee.txt"], false),
        entry(&["alpha.txt"], false),
        entry(&["sub"], true),
        entry(&["mike.txt"], false),
        entry(&["sub", "xray.txt"], false),
    ];
    let forest = build_forest(&entries).unwrap();
    let names: Vec<&str> = forest.iter().map(|n| n.identifier.as_str()).collect();
    assert_eq!(names, ["sub", "alpha.txt", "mike.txt", "zeta.txt"]);
    let sub_names: Vec<&str> = forest[0].children.iter().map(|n| n.identifier.as_str()).collect();
    assert_eq!(sub_names, ["xray.txt", "yankee.txt"]);
    assert!(forest[0].children[0].children.is_empty());
    assert_eq!(forest[1].text, "alpha.txt".to_string());
}

#[test]
fn nested_directories_build_recursively() {
    let entries = vec![
        entry(&["a"], true),
        entry(&["a", "b"], true),
        entry(&["a", "b", "leaf.txt"], false),
        entry(&["top.txt"], false),
    ];
    let forest = build_forest(&entries).unwrap();
    assert_eq!(forest.len(), 2);
    assert_eq!(forest[0].identifier, "a".to_string());
    assert_eq!(forest[0].children[0].identifier, "b".to_string());
    assert_eq!(forest[0].children[0].children[0].identifier, "leaf.txt".to_string());
    assert_eq!(forest[1].identifier, "top.txt".to_string());
}

#[test]
fn orphan_entries_are_ignored() {
    // "lost/deep.txt" has no "lost" entry, so it never becomes a node
    let entries = vec![entry(&["lost", "deep.txt"], false), entry(&["kept.txt"], false)];
    let forest = build_forest(&entries).unwrap();
    assert_eq!(forest.len(), 1);
    assert_eq!(forest[0].identifier, "kept.txt".to_string());
}

#[test]
fn empty_directory_sorts_as_a_leaf() {
    // the sort policy looks at built children, so an empty directory sorts
    // among the files
    let entries = vec![entry(&["empty"], true), entry(&["aaa.txt"], false)];
    let forest = build_forest(&entries).unwrap();
    let names: Vec<&str> = forest.iter().map(|n| n.identifier.as_str()).collect();
    assert_eq!(names, ["aaa.txt", "empty"]);
}

#[test]
fn text_order_is_lexicographic() {
    let a = "alpha".to_string();
    let b = "beta".to_string();
    assert!(text_lt_exec(&a, &b));
    assert!(!text_lt_exec(&b, &a));
    assert!(!text_lt_exec(&a, &a));
    assert!(text_lt_exec(&"ab".to_string(), &"abc".to_string()));
    assert!(!text_lt_exec(&"abc".to_string(), &"ab".to_string()));
}

#[test]
fn sortable_paths_put_directories_first() {
    let dir = SortablePath { components: path(&["zzz"]), dir: true };
    let file = SortablePath { components: path(&["aaa"]), dir: false };
    assert!(dir.precedes(&file));
    assert!(!file.precedes(&dir));
    let other = SortablePath { components: path(&["aab"]), dir: false };
    assert!(file.precedes(&other));
    assert!(!other.precedes(&file));
    assert!(dir.is_dir());
    assert!(!file.is_dir());
}

#[test]
fn path_sets_hold_each_path_once() {
    let mut set = PathSet::new();
    assert!(set.is_empty());
    assert!(set.insert(path(&["a"])));
    assert!(!set.insert(path(&["a"])));
    assert!(set.insert(path(&["a", "b"])));
    assert_eq!(set.len(), 2);
    assert!(set.contains(&path(&["a"])));
    assert!(!set.contains(&path(&["b"])));
    assert!(set.remove(&path(&["a"])));
    assert!(!set.remove(&path(&["a"])));
    assert!(!set.is_empty());
    set.clear();
    assert!(set.is_empty());
}
