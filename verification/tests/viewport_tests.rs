use tree_explorer::item::example;
use tree_explorer::state::ExplorerState;
use tree_explorer::tree::Tree;
use tree_explorer::viewport::{Marker, Rect};

fn path(parts: &[&str]) -> Vec<String> {
    parts.iter().map(|p| p.to_string()).collect()
}

fn area(width: u16, height: u16) -> Rect {
    Rect { x: 0, y: 0, width, height }
}

#[test]
fn zero_sized_viewports_do_not_panic() {
    let tree = Tree::new(example()).unwrap();
    for (w, h) in [(0u16, 0u16), (10, 0), (0, 10), (10, 10)] {
        let mut state = ExplorerState::default();
        let plan = tree.compute_window(area(w, h), &mut state);
        if w == 0 || h == 0 {
            assert!(plan.rows.is_empty());
        }
    }
}

#[test]
fn zero_viewport_leaves_offset_untouched() {
    let tree = Tree::new(example()).unwrap();
    let mut state = ExplorerState::default();
    state.offset = 7;
    let plan = tree.compute_window(area(0, 5), &mut state);
    assert!(plan.rows.is_empty());
    assert_eq!(state.offset, 7);
    assert!(state.last_rendered_identifiers.is_empty());
    let plan = tree.compute_window(area(5, 0), &mut state);
    assert!(plan.rows.is_empty());
    assert_eq!(state.offset, 7);
}

#[test]
fn plan_nothing_open() {
    let tree = Tree::new(example()).unwrap();
    let mut state = ExplorerState::default();
    let plan = tree.compute_window(area(10, 4), &mut state);
    let texts: Vec<&str> = plan.rows.iter().map(|r| r.text.as_str()).collect();
    assert_eq!(texts, ["Alfa", "Bravo", "Hotel"]);
    let markers: Vec<Marker> = plan.rows.iter().map(|r| r.marker).collect();
    assert_eq!(markers, [Marker::NoChildren, Marker::Closed, Marker::NoChildren]);
    let depths: Vec<usize> = plan.rows.iter().map(|r| r.depth).collect();
    assert_eq!(depths, [0, 0, 0]);
    let start_rows: Vec<u16> = plan.rows.iter().map(|r| r.start_row).collect();
    assert_eq!(start_rows, [0, 1, 2]);
    assert_eq!(state.last_biggest_index, 2);
    assert_eq!(state.last_identifiers.len(), 3);
}

#[test]
fn plan_depth_one() {
    let tree = Tree::new(example()).unwrap();
    let mut state = ExplorerState::default();
    state.expand(path(&["b"]));
    let plan = tree.compute_window(area(13, 7), &mut state);
    let texts: Vec<&str> = plan.rows.iter().map(|r| r.text.as_str()).collect();
    assert_eq!(texts, ["Alfa", "Bravo", "Charlie", "Delta", "Golf", "Hotel"]);
    let markers: Vec<Marker> = plan.rows.iter().map(|r| r.marker).collect();
    assert_eq!(
        markers,
        [
            Marker::NoChildren,
            Marker::Open,
            Marker::NoChildren,
            Marker::Closed,
            Marker::NoChildren,
            Marker::NoChildren,
        ]
    );
    let depths: Vec<usize> = plan.rows.iter().map(|r| r.depth).collect();
    assert_eq!(depths, [0, 0, 1, 1, 1, 0]);
}

#[test]
fn plan_depth_two() {
    let tree = Tree::new(example()).unwrap();
    let mut state = ExplorerState::default();
    state.expand(path(&["b"]));
    state.expand(path(&["b", "d"]));
    let plan = tree.compute_window(area(15, 9), &mut state);
    let texts: Vec<&str> = plan.rows.iter().map(|r| r.text.as_str()).collect();
    assert_eq!(
        texts,
        ["Alfa", "Bravo", "Charlie", "Delta", "Echo", "Foxtrot", "Golf", "Hotel"]
    );
    let depths: Vec<usize> = plan.rows.iter().map(|r| r.depth).collect();
    assert_eq!(depths, [0, 0, 1, 1, 2, 2, 1, 0]);
    let start_rows: Vec<u16> = plan.rows.iter().map(|r| r.start_row).collect();
    assert_eq!(start_rows, [0, 1, 2, 3, 4, 5, 6, 7]);
}

#[test]
fn window_scrolls_and_reports_scrollbar() {
    let tree = Tree::new(example()).unwrap();
    let mut state = ExplorerState::default();
    state.expand(path(&["b"]));
    state.expand(path(&["b", "d"]));
    state.offset = 2;
    let plan = tree.compute_window(area(15, 3), &mut state);
    let texts: Vec<&str> = plan.rows.iter().map(|r| r.text.as_str()).collect();
    assert_eq!(texts, ["Charlie", "Delta", "Echo"]);
    assert_eq!(state.offset, 2);
    assert_eq!(plan.scrollbar.position, 2);
    assert_eq!(plan.scrollbar.viewport_content_length, 3);
    assert_eq!(plan.scrollbar.content_length, 5);
}

#[test]
fn pending_selection_is_scrolled_into_view() {
    let tree = Tree::new(example()).unwrap();
    let mut state = ExplorerState::default();
    state.expand(path(&["b"]));
    state.expand(path(&["b", "d"]));
    state.select(path(&["b", "d", "f"]));
    let plan = tree.compute_window(area(15, 3), &mut state);
    // Foxtrot is at index 5 of the 8 visible entries; a window of height 3
    // must end with it
    let texts: Vec<&str> = plan.rows.iter().map(|r| r.text.as_str()).collect();
    assert_eq!(texts, ["Delta", "Echo", "Foxtrot"]);
    assert_eq!(state.offset, 3);
    assert!(plan.rows[2].is_selected);
    assert!(!state.ensure_selected_in_view_on_next_render);
}

#[test]
fn selection_above_the_window_moves_the_start_up() {
    let tree = Tree::new(example()).unwrap();
    let mut state = ExplorerState::default();
    state.expand(path(&["b"]));
    state.offset = 4;
    state.select(path(&["a"]));
    let plan = tree.compute_window(area(15, 2), &mut state);
    let texts: Vec<&str> = plan.rows.iter().map(|r| r.text.as_str()).collect();
    assert_eq!(texts, ["Alfa", "Bravo"]);
    assert_eq!(state.offset, 0);
}

#[test]
fn empty_tree_clears_caches() {
    let tree = Tree::new(Vec::new()).unwrap();
    let mut state = ExplorerState::default();
    state.last_identifiers = vec![path(&["stale"])];
    state.last_rendered_identifiers = vec![(0u16, path(&["stale"]))];
    let plan = tree.compute_window(area(10, 5), &mut state);
    assert!(plan.rows.is_empty());
    assert!(state.last_identifiers.is_empty());
    assert!(state.last_rendered_identifiers.is_empty());
    assert_eq!(state.last_biggest_index, 0);
}

#[test]
fn multi_line_items_take_several_rows() {
    let mut items = example();
    items[0].text = "Alfa\nsecond line".to_string();
    let tree = Tree::new(items).unwrap();
    let mut state = ExplorerState::default();
    let plan = tree.compute_window(area(12, 4), &mut state);
    assert_eq!(plan.rows[0].height, 2);
    let start_rows: Vec<u16> = plan.rows.iter().map(|r| r.start_row).collect();
    assert_eq!(start_rows, [0, 2, 3]);
    assert_eq!(state.last_rendered_identifiers[1], (2u16, path(&["b"])));
}
