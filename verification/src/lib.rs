//! A navigable, collapsible tree view: hierarchical items with unique sibling
//! identifiers, an expansion/selection state machine, a visibility flattener,
//! and a variable-height viewport engine that picks the window of rows to
//! draw and keeps the selection visible.

pub mod builder;
pub mod flatten;
pub mod item;
pub mod laws;
pub mod order;
pub mod paths;
pub mod sortable;
pub mod state;
pub mod tree;
pub mod viewport;
