use tree_explorer::state::ExplorerState;
use tree_explorer::viewport::Position;

fn path(parts: &[&str]) -> Vec<String> {
    parts.iter().map(|p| p.to_string()).collect()
}

fn state_with_cache() -> ExplorerState {
    let mut state = ExplorerState::default();
    state.last_identifiers = vec![
        path(&["a"]),
        path(&["b"]),
        path(&["b", "c"]),
        path(&["h"]),
    ];
    state.last_biggest_index = 3;
    state
}

#[test]
fn select_sets_pending_and_reports_change() {
    let mut state = ExplorerState::default();
    assert!(state.select(path(&["a"])));
    assert!(state.ensure_selected_in_view_on_next_render);
    assert_eq!(state.selected, path(&["a"]));
    // selecting the same path again changes nothing
    assert!(!state.select(path(&["a"])));
}

#[test]
fn expand_and_collapse_report_changes() {
    let mut state = ExplorerState::default();
    assert!(!state.expand(Vec::new()));
    assert!(state.expand(path(&["b"])));
    assert!(!state.expand(path(&["b"])));
    assert!(state.collapse(&path(&["b"])));
    assert!(!state.collapse(&path(&["b"])));
}

#[test]
fn toggle_flips_membership() {
    let mut state = ExplorerState::default();
    assert!(!state.toggle(Vec::new()));
    assert!(state.toggle(path(&["b"])));
    assert!(state.expanded().contains(&path(&["b"])));
    assert!(state.toggle(path(&["b"])));
    assert!(!state.expanded().contains(&path(&["b"])));
}

#[test]
fn toggle_selected_needs_a_selection() {
    let mut state = ExplorerState::default();
    assert!(!state.toggle_selected());
    state.select(path(&["b"]));
    assert!(state.toggle_selected());
    assert!(state.expanded().contains(&path(&["b"])));
    assert!(state.toggle_selected());
    assert!(!state.expanded().contains(&path(&["b"])));
}

#[test]
fn collapse_all_is_false_when_already_empty() {
    let mut state = ExplorerState::default();
    assert!(!state.collapse_all());
    assert!(!state.collapse_all());
    state.expand(path(&["b"]));
    assert!(state.collapse_all());
    assert!(!state.collapse_all());
}

#[test]
fn select_first_and_last_use_the_cache() {
    let mut state = state_with_cache();
    assert!(state.select_first());
    assert_eq!(state.selected, path(&["a"]));
    assert!(state.select_last());
    assert_eq!(state.selected, path(&["h"]));
    // with an empty cache the empty path is selected
    let mut empty = ExplorerState::default();
    empty.select(path(&["a"]));
    assert!(empty.select_first());
    assert_eq!(empty.selected, Vec::<String>::new());
}

#[test]
fn select_next_steps_forward_and_clamps() {
    let mut state = state_with_cache();
    state.selected = path(&["b"]);
    assert!(state.select_next());
    assert_eq!(state.selected, path(&["b", "c"]));
    assert!(state.select_next());
    assert_eq!(state.selected, path(&["h"]));
    // at the end: clamped, nothing changes
    assert!(!state.select_next());
    assert_eq!(state.selected, path(&["h"]));
}

#[test]
fn select_next_jumps_to_start_when_selection_unknown() {
    let mut state = state_with_cache();
    state.selected = path(&["zzz"]);
    assert!(state.select_next());
    assert_eq!(state.selected, path(&["a"]));
}

#[test]
fn select_prev_steps_backward_and_clamps() {
    let mut state = state_with_cache();
    state.selected = path(&["b", "c"]);
    assert!(state.select_prev());
    assert_eq!(state.selected, path(&["b"]));
    assert!(state.select_prev());
    assert_eq!(state.selected, path(&["a"]));
    assert!(!state.select_prev());
    assert_eq!(state.selected, path(&["a"]));
}

#[test]
fn select_prev_jumps_to_end_when_selection_unknown() {
    let mut state = state_with_cache();
    state.selected = path(&["zzz"]);
    assert!(state.select_prev());
    assert_eq!(state.selected, path(&["h"]));
}

#[test]
fn next_then_prev_returns_to_origin() {
    let mut state = state_with_cache();
    state.selected = path(&["b"]);
    assert!(state.select_next());
    assert!(state.select_prev());
    assert_eq!(state.selected, path(&["b"]));
}

#[test]
fn scroll_stays_inside_bounds() {
    let mut state = state_with_cache();
    assert!(!state.scroll_up(5));
    assert_eq!(state.offset, 0);
    assert!(state.scroll_down(2));
    assert_eq!(state.offset, 2);
    assert!(state.scroll_down(100));
    assert_eq!(state.offset, 3);
    assert!(!state.scroll_down(1));
    assert_eq!(state.offset, 3);
    assert!(state.scroll_up(1));
    assert_eq!(state.offset, 2);
    assert!(state.scroll_up(100));
    assert_eq!(state.offset, 0);
}

#[test]
fn rendered_at_picks_the_row_at_or_before() {
    let mut state = state_with_cache();
    state.last_area = tree_explorer::viewport::Rect { x: 0, y: 0, width: 10, height: 10 };
    state.last_rendered_identifiers = vec![
        (0u16, path(&["a"])),
        (2u16, path(&["b"])),
        (3u16, path(&["b", "c"])),
    ];
    assert_eq!(state.rendered_at(Position { x: 1, y: 0 }), Some(path(&["a"])));
    // row 1 belongs to the two-row item that started at row 0
    assert_eq!(state.rendered_at(Position { x: 1, y: 1 }), Some(path(&["a"])));
    assert_eq!(state.rendered_at(Position { x: 1, y: 2 }), Some(path(&["b"])));
    assert_eq!(state.rendered_at(Position { x: 1, y: 9 }), Some(path(&["b", "c"])));
    // outside the last render area
    assert_eq!(state.rendered_at(Position { x: 11, y: 0 }), None);
    assert_eq!(state.rendered_at(Position { x: 1, y: 10 }), None);
}

#[test]
fn click_at_selects_then_toggles() {
    let mut state = state_with_cache();
    state.last_area = tree_explorer::viewport::Rect { x: 0, y: 0, width: 10, height: 10 };
    state.last_rendered_identifiers = vec![(0u16, path(&["a"])), (1u16, path(&["b"]))];
    assert!(state.click_at(Position { x: 0, y: 1 }));
    assert_eq!(state.selected, path(&["b"]));
    // clicking the selected row toggles it
    assert!(state.click_at(Position { x: 0, y: 1 }));
    assert!(state.expanded().contains(&path(&["b"])));
    // clicking outside does nothing
    assert!(!state.click_at(Position { x: 0, y: 10 }));
}

#[test]
fn scroll_selected_into_view_only_sets_the_flag() {
    let mut state = state_with_cache();
    state.selected = path(&["b"]);
    state.scroll_selected_into_view();
    assert!(state.ensure_selected_in_view_on_next_render);
    assert_eq!(state.selected, path(&["b"]));
}

#[test]
fn states_compare_by_value() {
    let mut a = state_with_cache();
    let mut b = state_with_cache();
    assert!(a == b);
    a.expand(path(&["b"]));
    assert!(a != b);
    b.expand(path(&["b"]));
    assert!(a == b);
    a.offset = 1;
    assert!(a != b);
}
