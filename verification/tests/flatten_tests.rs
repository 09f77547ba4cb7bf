use tree_explorer::flatten::{flatten, flatten_works};
use tree_explorer::item::example;
use tree_explorer::paths::PathSet;

fn path(parts: &[&str]) -> Vec<String> {
    parts.iter().map(|p| p.to_string()).collect()
}

fn expected_vec(parts: &[&str]) -> Vec<String> {
    parts.iter().map(|p| p.to_string()).collect()
}

#[test]
fn depth_works() {
    let mut open = PathSet::new();
    open.insert(path(&["b"]));
    open.insert(path(&["b", "d"]));
    let items = example();
    let root: Vec<String> = Vec::new();
    let depths: Vec<usize> = flatten(&open, &items, &root)
        .iter()
        .map(|flattened| flattened.depth())
        .collect();
    assert_eq!(depths, [0, 0, 1, 1, 2, 2, 1, 0]);
}

#[test]
fn flatten_nothing_open_is_top_level() {
    let open = PathSet::new();
    assert!(flatten_works(&open, &expected_vec(&["a", "b", "h"])));
}

#[test]
fn flatten_wrong_open_is_only_top_level() {
    let mut open = PathSet::new();
    open.insert(path(&["a"]));
    open.insert(path(&["b", "d"]));
    assert!(flatten_works(&open, &expected_vec(&["a", "b", "h"])));
}

#[test]
fn flatten_one_is_open() {
    let mut open = PathSet::new();
    open.insert(path(&["b"]));
    assert!(flatten_works(&open, &expected_vec(&["a", "b", "c", "d", "g", "h"])));
}

#[test]
fn flatten_all_open() {
    let mut open = PathSet::new();
    open.insert(path(&["b"]));
    open.insert(path(&["b", "d"]));
    assert!(flatten_works(&open, &expected_vec(&["a", "b", "c", "d", "e", "f", "g", "h"])));
}

#[test]
fn flatten_rejects_wrong_expectations() {
    let open = PathSet::new();
    assert!(!flatten_works(&open, &expected_vec(&["a", "b"])));
    assert!(!flatten_works(&open, &expected_vec(&["a", "b", "x"])));
}

#[test]
fn flatten_reports_full_paths() {
    let mut open = PathSet::new();
    open.insert(path(&["b"]));
    let items = example();
    let root: Vec<String> = Vec::new();
    let rows = flatten(&open, &items, &root);
    let ids: Vec<Vec<String>> = rows.iter().map(|r| r.identifier.clone()).collect();
    assert_eq!(
        ids,
        vec![
            path(&["a"]),
            path(&["b"]),
            path(&["b", "c"]),
            path(&["b", "d"]),
            path(&["b", "g"]),
            path(&["h"]),
        ]
    );
    assert_eq!(rows[1].item.text, "Bravo".to_string());
    assert_eq!(rows[2].item.children.len(), 0);
    assert_eq!(rows[3].item.children.len(), 2);
}
