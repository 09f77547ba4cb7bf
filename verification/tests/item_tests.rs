use tree_explorer::item::{TreeError, TreeItem};

fn s(x: &str) -> String {
    x.to_string()
}

#[test]
#[should_panic(expected = "DuplicateIdentifier")]
fn tree_item_new_errors_with_duplicate_identifiers() {
    let item = TreeItem::new_leaf(s("same"), s("text"));
    let another = item.clone();
    TreeItem::new(s("root"), s("Root"), vec![item, another]).unwrap();
}

#[test]
#[should_panic(expected = "DuplicateIdentifier")]
fn tree_item_add_child_errors_with_duplicate_identifiers() {
    let item = TreeItem::new_leaf(s("same"), s("text"));
    let another = item.clone();
    let mut root = TreeItem::new(s("root"), s("Root"), vec![item]).unwrap();
    root.add_child(another).unwrap();
}

#[test]
fn new_accepts_distinct_children() {
    let a = TreeItem::new_leaf(s("a"), s("Alfa"));
    let b = TreeItem::new_leaf(s("b"), s("Bravo"));
    let root = TreeItem::new(s("r"), s("Root"), vec![a, b]).unwrap();
    assert_eq!(root.identifier(), &s("r"));
    assert_eq!(root.children().len(), 2);
    assert_eq!(root.child(0).unwrap().identifier(), &s("a"));
    assert_eq!(root.child(1).unwrap().identifier(), &s("b"));
    assert!(root.child(2).is_none());
}

#[test]
fn add_child_keeps_node_unchanged_on_failure() {
    let mut root = TreeItem::new_leaf(s("r"), s("Root"));
    root.add_child(TreeItem::new_leaf(s("a"), s("Alfa"))).unwrap();
    let err = root.add_child(TreeItem::new_leaf(s("a"), s("Again"))).unwrap_err();
    assert_eq!(err, TreeError::DuplicateIdentifier);
    assert_eq!(root.children().len(), 1);
    assert_eq!(root.child(0).unwrap().text, s("Alfa"));
}

#[test]
fn height_counts_lines() {
    assert_eq!(TreeItem::new_leaf(s("a"), s("one line")).height(), 1);
    assert_eq!(TreeItem::new_leaf(s("b"), s("two\nlines")).height(), 2);
    assert_eq!(TreeItem::new_leaf(s("c"), s("")).height(), 1);
    assert_eq!(TreeItem::new_leaf(s("d"), s("a\nb\nc")).height(), 3);
}

#[test]
fn clone_is_structural() {
    let forest = tree_explorer::item::example();
    let copy = forest[1].clone();
    assert_eq!(copy.identifier, forest[1].identifier);
    assert_eq!(copy.text, forest[1].text);
    assert_eq!(copy.children.len(), forest[1].children.len());
    assert_eq!(copy.children[1].children[0].text, s("Echo"));
}
