//! Navigation state: the current selection, the set of expanded paths, the
//! scroll offset, and the caches of the last render pass that make relative
//! navigation and hit-testing cheap.

use vstd::prelude::*;

use crate::flatten::{flatten, matches_flat, flat_forest, Flattened};
use crate::item::TreeItem;
use crate::paths::{clone_path, path_eq, path_view, paths_view, PathSet};
use crate::viewport::{rect_contains, Position, Rect};

verus! {

/// State of the explorer: selection, expansion, scrolling, and the layout
/// caches of the most recent render pass.
pub struct ExplorerState {
    /// Path of the selected node; empty when nothing is selected.
    pub selected: Vec<String>,
    /// Paths of the expanded nodes.
    pub expanded: PathSet,
    /// Whether the explorer panel is shown.
    pub is_open: bool,
    /// Index of the first visible entry of the window.
    pub offset: usize,
    /// The screen area of the last render.
    pub last_area: Rect,
    /// Greatest index into the visible list of the last render.
    pub last_biggest_index: usize,
    /// Paths of all entries visible (including by scrolling) on last render.
    pub last_identifiers: Vec<Vec<String>>,
    /// Path rendered starting at each screen row on last render.
    pub last_rendered_identifiers: Vec<(u16, Vec<String>)>,
    /// Whether the next render pass must scroll the selection into view.
    pub ensure_selected_in_view_on_next_render: bool,
}

/// The two states agree on everything but the selection and the
/// scroll-into-view flag.
pub open spec fn same_but_selection(a: ExplorerState, b: ExplorerState) -> bool {
    &&& a.expanded == b.expanded
    &&& a.is_open == b.is_open
    &&& a.offset == b.offset
    &&& a.last_area == b.last_area
    &&& a.last_biggest_index == b.last_biggest_index
    &&& a.last_identifiers == b.last_identifiers
    &&& a.last_rendered_identifiers == b.last_rendered_identifiers
}

/// The two states agree on everything but the expansion set.
pub open spec fn same_but_expanded(a: ExplorerState, b: ExplorerState) -> bool {
    &&& a.selected == b.selected
    &&& a.is_open == b.is_open
    &&& a.offset == b.offset
    &&& a.last_area == b.last_area
    &&& a.last_biggest_index == b.last_biggest_index
    &&& a.last_identifiers == b.last_identifiers
    &&& a.last_rendered_identifiers == b.last_rendered_identifiers
    &&& a.ensure_selected_in_view_on_next_render == b.ensure_selected_in_view_on_next_render
}

/// The two states agree on everything but the scroll offset.
pub open spec fn same_but_offset(a: ExplorerState, b: ExplorerState) -> bool {
    &&& a.selected == b.selected
    &&& a.expanded == b.expanded
    &&& a.is_open == b.is_open
    &&& a.last_area == b.last_area
    &&& a.last_biggest_index == b.last_biggest_index
    &&& a.last_identifiers == b.last_identifiers
    &&& a.last_rendered_identifiers == b.last_rendered_identifiers
    &&& a.ensure_selected_in_view_on_next_render == b.ensure_selected_in_view_on_next_render
}

/// The two states agree on everything but the expansion set, the selection
/// and the scroll-into-view flag.
pub open spec fn same_but_selection_and_expanded(a: ExplorerState, b: ExplorerState) -> bool {
    &&& a.is_open == b.is_open
    &&& a.offset == b.offset
    &&& a.last_area == b.last_area
    &&& a.last_biggest_index == b.last_biggest_index
    &&& a.last_identifiers == b.last_identifiers
    &&& a.last_rendered_identifiers == b.last_rendered_identifiers
}

/// `i` is the first position of `p` in `ids`.
pub open spec fn first_index_of(ids: Seq<Seq<Seq<char>>>, p: Seq<Seq<char>>, i: int) -> bool {
    &&& 0 <= i < ids.len()
    &&& ids[i] == p
    &&& forall|j: int| 0 <= j < i ==> ids[j] != p
}

/// `p` occurs in `ids`.
pub open spec fn has_path(ids: Seq<Seq<Seq<char>>>, p: Seq<Seq<char>>) -> bool {
    exists|i: int| 0 <= i < ids.len() && ids[i] == p
}

/// The first position of `p` in `ids` (meaningful when `has_path` holds).
pub open spec fn the_first_index(ids: Seq<Seq<Seq<char>>>, p: Seq<Seq<char>>) -> int {
    choose|i: int| first_index_of(ids, p, i)
}

/// A first position is unique.
pub proof fn lemma_first_index_unique(
    ids: Seq<Seq<Seq<char>>>,
    p: Seq<Seq<char>>,
    i: int,
    j: int,
)
    requires
        first_index_of(ids, p, i),
        first_index_of(ids, p, j),
    ensures
        i == j,
{
}

/// Wherever a path occurs, it has a first occurrence.
pub proof fn lemma_first_index_exists(ids: Seq<Seq<Seq<char>>>, p: Seq<Seq<char>>, w: int)
    requires
        0 <= w < ids.len(),
        ids[w] == p,
    ensures
        first_index_of(ids, p, the_first_index(ids, p)),
    decreases w,
{
    if forall|j: int| 0 <= j < w ==> ids[j] != p {
        assert(first_index_of(ids, p, w));
    } else {
        let j = choose|j: int| 0 <= j < w && ids[j] == p;
        lemma_first_index_exists(ids, p, j);
    }
}

/// Smaller of two mathematical integers.
pub open spec fn min_int(a: int, b: int) -> int {
    if a <= b {
        a
    } else {
        b
    }
}

/// The index `select_next` moves to: one past the selection's position (or 0
/// when the selection is not in the list), clamped to the last render's
/// biggest index and to the end of the list.
pub open spec fn next_position(ids: Seq<Seq<Seq<char>>>, sel: Seq<Seq<char>>, biggest: int) -> int {
    let base = if has_path(ids, sel) {
        the_first_index(ids, sel) + 1
    } else {
        0
    };
    min_int(min_int(base, biggest), ids.len() - 1)
}

/// The index `select_prev` moves to: one before the selection's position
/// (floored at 0), or the end of the list when the selection is not in it,
/// clamped like `next_position`.
pub open spec fn prev_position(ids: Seq<Seq<Seq<char>>>, sel: Seq<Seq<char>>, biggest: int) -> int {
    if has_path(ids, sel) {
        let f = the_first_index(ids, sel);
        let base = if f > 0 {
            f - 1
        } else {
            0
        };
        min_int(min_int(base, biggest), ids.len() - 1)
    } else {
        min_int(biggest, ids.len() - 1)
    }
}

/// Entry `k` of the row cache is the hit for screen row `y`: it starts at or
/// before `y` and every later entry starts after `y`.
pub open spec fn hit_at(rows: Seq<(u16, Vec<String>)>, y: u16, k: int) -> bool {
    &&& 0 <= k < rows.len()
    &&& rows[k].0 <= y
    &&& forall|j: int| k < j < rows.len() ==> (#[trigger] rows[j]).0 > y
}

/// A hit is unique.
pub proof fn lemma_hit_unique(rows: Seq<(u16, Vec<String>)>, y: u16, i: int, j: int)
    requires
        hit_at(rows, y, i),
        hit_at(rows, y, j),
    ensures
        i == j,
{
}

/// Find the first position of `sel` in `ids`.
fn find_position(ids: &Vec<Vec<String>>, sel: &Vec<String>) -> (r: Option<usize>)
    ensures
        match r {
            Some(i) => first_index_of(paths_view(*ids), path_view(*sel), i as int),
            None => !has_path(paths_view(*ids), path_view(*sel)),
        },
{
    let n = ids.len();
    let mut i: usize = 0;
    while i < n
        invariant
            n == ids@.len(),
            0 <= i <= n,
            forall|j: int| 0 <= j < i ==> paths_view(*ids)[j] != path_view(*sel),
        decreases n - i,
    {
        if path_eq(&ids[i], sel) {
            return Some(i);
        }
        i += 1;
    }
    None
}

impl ExplorerState {
    /// The scroll offset persisted by the last render pass.
    pub fn get_offset(&self) -> (r: usize)
        ensures
            r == self.offset,
    {
        self.offset
    }

    /// The set of expanded paths.
    pub fn expanded(&self) -> (r: &PathSet)
        ensures
            r == &self.expanded,
    {
        &self.expanded
    }

    /// The currently selected path; empty when nothing is selected.
    pub fn selected(&self) -> (r: &Vec<String>)
        ensures
            r == &self.selected,
    {
        &self.selected
    }

    /// All currently viewable items (including by scrolling), flattened.
    pub fn flatten(&self, items: &Vec<TreeItem>) -> (r: Vec<Flattened>)
        ensures
            matches_flat(r@, flat_forest(items@, self.expanded@, Seq::empty())),
    {
        let root: Vec<String> = Vec::new();
        proof {
            assert(path_view(root) =~= Seq::<Seq<char>>::empty());
        }
        flatten(&self.expanded, items, &root)
    }

    /// Select the given path and ask the next render to bring it into view.
    /// Reports whether the selection changed.
    pub fn select(&mut self, identifier: Vec<String>) -> (r: bool)
        ensures
            same_but_selection(*final(self), *old(self)),
            path_view(final(self).selected) == path_view(identifier),
            final(self).ensure_selected_in_view_on_next_render,
            r == (path_view(old(self).selected) != path_view(identifier)),
    {
        self.ensure_selected_in_view_on_next_render = true;
        let changed = !path_eq(&self.selected, &identifier);
        self.selected = identifier;
        changed
    }

    /// Expand a tree node. A no-op for the empty path. Reports whether the
    /// path was newly inserted into the expansion set.
    pub fn expand(&mut self, identifier: Vec<String>) -> (r: bool)
        ensures
            same_but_expanded(*final(self), *old(self)),
            identifier@.len() == 0 ==> final(self).expanded == old(self).expanded && !r,
            identifier@.len() > 0 ==> final(self).expanded@ =~= old(self).expanded@.insert(
                path_view(identifier),
            ) && r == !old(self).expanded@.contains(path_view(identifier)),
    {
        if identifier.is_empty() {
            false
        } else {
            self.expanded.insert(identifier)
        }
    }

    /// Collapse a tree node. Reports whether the path was in the expansion
    /// set.
    pub fn collapse(&mut self, identifier: &Vec<String>) -> (r: bool)
        ensures
            same_but_expanded(*final(self), *old(self)),
            final(self).expanded@ =~= old(self).expanded@.remove(path_view(*identifier)),
            r == old(self).expanded@.contains(path_view(*identifier)),
    {
        self.expanded.remove(identifier)
    }

    /// Collapse the node when it is expanded, expand it otherwise. A no-op
    /// for the empty path; for any other path something always changes.
    pub fn toggle(&mut self, identifier: Vec<String>) -> (r: bool)
        ensures
            same_but_expanded(*final(self), *old(self)),
            identifier@.len() == 0 ==> final(self).expanded == old(self).expanded && !r,
            identifier@.len() > 0 ==> r && final(self).expanded@ =~= (
            if old(self).expanded@.contains(path_view(identifier)) {
                old(self).expanded@.remove(path_view(identifier))
            } else {
                old(self).expanded@.insert(path_view(identifier))
            }),
    {
        if identifier.is_empty() {
            false
        } else if self.expanded.contains(&identifier) {
            self.collapse(&identifier)
        } else {
            self.expand(identifier)
        }
    }

    /// Toggle the selected node's expansion. A no-op when nothing is
    /// selected; otherwise something always changes and the next render is
    /// asked to bring the selection into view.
    pub fn toggle_selected(&mut self) -> (r: bool)
        ensures
            same_but_selection_and_expanded(*final(self), *old(self)),
            final(self).selected == old(self).selected,
            old(self).selected@.len() == 0 ==> *final(self) == *old(self) && !r,
            old(self).selected@.len() > 0 ==> {
                &&& r
                &&& final(self).ensure_selected_in_view_on_next_render
                &&& final(self).expanded@ =~= (
                if old(self).expanded@.contains(path_view(old(self).selected)) {
                    old(self).expanded@.remove(path_view(old(self).selected))
                } else {
                    old(self).expanded@.insert(path_view(old(self).selected))
                })
            },
    {
        if self.selected.is_empty() {
            return false;
        }
        self.ensure_selected_in_view_on_next_render = true;

        let path = clone_path(&self.selected);
        let was_expanded = self.expanded.remove(&path);
        if was_expanded {
            return true;
        }
        let inserted = self.expanded.insert(path);
        assert(inserted);
        true
    }

    /// Collapse every expanded node. Reports whether any node was expanded.
    pub fn collapse_all(&mut self) -> (r: bool)
        ensures
            same_but_expanded(*final(self), *old(self)),
            final(self).expanded@ =~= Set::<Seq<Seq<char>>>::empty(),
            r == !(old(self).expanded@ =~= Set::<Seq<Seq<char>>>::empty()),
    {
        if self.expanded.is_empty() {
            false
        } else {
            self.expanded.clear();
            true
        }
    }

    /// Select the first entry of the last render's visible list (the empty
    /// path when that list is empty). Reports whether the selection changed.
    pub fn select_first(&mut self) -> (r: bool)
        ensures
            same_but_selection(*final(self), *old(self)),
            final(self).ensure_selected_in_view_on_next_render,
            path_view(final(self).selected) == (
            if old(self).last_identifiers@.len() > 0 {
                paths_view(old(self).last_identifiers)[0]
            } else {
                Seq::<Seq<char>>::empty()
            }),
            r == (path_view(old(self).selected) != path_view(final(self).selected)),
    {
        let identifier: Vec<String> = if self.last_identifiers.len() > 0 {
            clone_path(&self.last_identifiers[0])
        } else {
            Vec::new()
        };
        proof {
            if self.last_identifiers@.len() == 0 {
                assert(path_view(identifier) =~= Seq::<Seq<char>>::empty());
            }
        }
        self.select(identifier)
    }

    /// Select the last entry of the last render's visible list (the empty
    /// path when that list is empty). Reports whether the selection changed.
    pub fn select_last(&mut self) -> (r: bool)
        ensures
            same_but_selection(*final(self), *old(self)),
            final(self).ensure_selected_in_view_on_next_render,
            path_view(final(self).selected) == (
            if old(self).last_identifiers@.len() > 0 {
                paths_view(old(self).last_identifiers)[old(self).last_identifiers@.len() - 1]
            } else {
                Seq::<Seq<char>>::empty()
            }),
            r == (path_view(old(self).selected) != path_view(final(self).selected)),
    {
        let n = self.last_identifiers.len();
        let identifier: Vec<String> = if n > 0 {
            clone_path(&self.last_identifiers[n - 1])
        } else {
            Vec::new()
        };
        proof {
            if self.last_identifiers@.len() == 0 {
                assert(path_view(identifier) =~= Seq::<Seq<char>>::empty());
            }
        }
        self.select(identifier)
    }

    /// Move the selection one entry forward in the last render's visible
    /// list, clamped to its end and to the last biggest index; jump to the
    /// first entry when the selection is not in the list. Reports whether
    /// the selection changed.
    pub fn select_next(&mut self) -> (r: bool)
        ensures
            old(self).last_identifiers@.len() == 0 ==> *final(self) == *old(self) && !r,
            old(self).last_identifiers@.len() > 0 ==> {
                let ids = paths_view(old(self).last_identifiers);
                let target = ids[next_position(
                    ids,
                    path_view(old(self).selected),
                    old(self).last_biggest_index as int,
                )];
                &&& same_but_selection(*final(self), *old(self))
                &&& path_view(final(self).selected) == target
                &&& r == (path_view(old(self).selected) != target)
                &&& final(self).ensure_selected_in_view_on_next_render == (
                if r {
                    true
                } else {
                    old(self).ensure_selected_in_view_on_next_render
                })
            },
    {
        let n = self.last_identifiers.len();
        if n == 0 {
            return false;
        }
        let ghost ids = paths_view(self.last_identifiers);
        let ghost sel = path_view(self.selected);
        let current_pos = find_position(&self.last_identifiers, &self.selected);

        let mut new_pos: usize = match current_pos {
            Some(pos) => {
                proof {
                    lemma_first_index_exists(ids, sel, pos as int);
                    lemma_first_index_unique(ids, sel, pos as int, the_first_index(ids, sel));
                }
                if pos < usize::MAX {
                    pos + 1
                } else {
                    pos
                }
            },
            None => 0,
        };
        if new_pos > self.last_biggest_index {
            new_pos = self.last_biggest_index;
        }
        if new_pos > n - 1 {
            new_pos = n - 1;
        }
        proof {
            assert(new_pos as int == next_position(ids, sel, self.last_biggest_index as int));
        }
        let new_identifier = clone_path(&self.last_identifiers[new_pos]);
        let changed = !path_eq(&self.selected, &new_identifier);
        if changed {
            self.select(new_identifier)
        } else {
            false
        }
    }

    /// Move the selection one entry backward in the last render's visible
    /// list, floored at its start and clamped to the last biggest index;
    /// jump to the (clamped) last entry when the selection is not in the
    /// list. Reports whether the selection changed.
    pub fn select_prev(&mut self) -> (r: bool)
        ensures
            old(self).last_identifiers@.len() == 0 ==> *final(self) == *old(self) && !r,
            old(self).last_identifiers@.len() > 0 ==> {
                let ids = paths_view(old(self).last_identifiers);
                let target = ids[prev_position(
                    ids,
                    path_view(old(self).selected),
                    old(self).last_biggest_index as int,
                )];
                &&& same_but_selection(*final(self), *old(self))
                &&& path_view(final(self).selected) == target
                &&& r == (path_view(old(self).selected) != target)
                &&& final(self).ensure_selected_in_view_on_next_render == (
                if r {
                    true
                } else {
                    old(self).ensure_selected_in_view_on_next_render
                })
            },
    {
        let n = self.last_identifiers.len();
        if n == 0 {
            return false;
        }
        let ghost ids = paths_view(self.last_identifiers);
        let ghost sel = path_view(self.selected);
        let current_pos = find_position(&self.last_identifiers, &self.selected);

        let mut new_pos: usize = match current_pos {
            Some(pos) => {
                proof {
                    lemma_first_index_exists(ids, sel, pos as int);
                    lemma_first_index_unique(ids, sel, pos as int, the_first_index(ids, sel));
                }
                if pos > 0 {
                    pos - 1
                } else {
                    0
                }
            },
            None => usize::MAX,
        };
        if new_pos > self.last_biggest_index {
            new_pos = self.last_biggest_index;
        }
        if new_pos > n - 1 {
            new_pos = n - 1;
        }
        proof {
            assert(new_pos as int == prev_position(ids, sel, self.last_biggest_index as int));
        }
        let new_identifier = clone_path(&self.last_identifiers[new_pos]);
        let changed = !path_eq(&self.selected, &new_identifier);
        if changed {
            self.select(new_identifier)
        } else {
            false
        }
    }

    /// The path rendered at the given position on last render: the entry
    /// that starts at or before that row (an item spans several rows when
    /// its height is more than one). `None` outside the last render area or
    /// above the first entry.
    pub fn rendered_at(&self, position: Position) -> (r: Option<Vec<String>>)
        ensures
            match r {
                Some(p) => {
                    &&& rect_contains(self.last_area, position)
                    &&& exists|k: int|
                        hit_at(self.last_rendered_identifiers@, position.y, k) && path_view(p)
                            == path_view(self.last_rendered_identifiers@[k].1)
                },
                None => !rect_contains(self.last_area, position) || forall|k: int|
                    !hit_at(self.last_rendered_identifiers@, position.y, k),
            },
    {
        if !self.last_area.contains(position) {
            return None;
        }
        let n = self.last_rendered_identifiers.len();
        let mut i: usize = n;
        while i > 0
            invariant
                rect_contains(self.last_area, position),
                n == self.last_rendered_identifiers@.len(),
                0 <= i <= n,
                forall|j: int|
                    i <= j < n ==> (#[trigger] self.last_rendered_identifiers@[j]).0 > position.y,
            decreases i,
    {
            i = i - 1;
            if self.last_rendered_identifiers[i].0 <= position.y {
                let p = clone_path(&self.last_rendered_identifiers[i].1);
                proof {
                    assert(hit_at(self.last_rendered_identifiers@, position.y, i as int)
                        && path_view(p) == path_view(
                        self.last_rendered_identifiers@[i as int].1,
                    ));
                }
                return Some(p);
            }
        }
        proof {
            assert forall|k: int| !hit_at(self.last_rendered_identifiers@, position.y, k) by {
                if 0 <= k < n {
                    assert(self.last_rendered_identifiers@[k].0 > position.y);
                }
            }
        }
        None
    }

    /// Select what was rendered at the given position; toggle it when it is
    /// already selected. Reports whether anything changed; nothing changes
    /// when no entry was rendered there.
    pub fn click_at(&mut self, position: Position) -> (r: bool)
        ensures
            same_but_selection_and_expanded(*final(self), *old(self)),
            (!rect_contains(old(self).last_area, position) || forall|k: int|
                !hit_at(old(self).last_rendered_identifiers@, position.y, k)) ==> *final(self)
                == *old(self) && !r,
            (rect_contains(old(self).last_area, position) && exists|k: int|
                hit_at(old(self).last_rendered_identifiers@, position.y, k)) ==> {
                let k = choose|k: int| hit_at(old(self).last_rendered_identifiers@, position.y, k);
                let p = path_view(old(self).last_rendered_identifiers@[k].1);
                if p == path_view(old(self).selected) {
                    &&& final(self).selected == old(self).selected
                    &&& (p.len() == 0 ==> *final(self) == *old(self) && !r)
                    &&& (p.len() > 0 ==> r && final(self).ensure_selected_in_view_on_next_render
                        && final(self).expanded@ =~= (
                    if old(self).expanded@.contains(p) {
                        old(self).expanded@.remove(p)
                    } else {
                        old(self).expanded@.insert(p)
                    }))
                } else {
                    &&& r
                    &&& final(self).expanded == old(self).expanded
                    &&& path_view(final(self).selected) == p
                    &&& final(self).ensure_selected_in_view_on_next_render
                }
            },
    {
        let hit = self.rendered_at(position);
        match hit {
            Some(identifier) => {
                proof {
                    let rows = self.last_rendered_identifiers@;
                    let k0 = choose|k: int|
                        hit_at(rows, position.y, k) && path_view(identifier) == path_view(
                            rows[k].1,
                        );
                    let k1 = choose|k: int| hit_at(rows, position.y, k);
                    lemma_hit_unique(rows, position.y, k0, k1);
                }
                if path_eq(&identifier, &self.selected) {
                    self.toggle_selected()
                } else {
                    self.select(identifier)
                }
            },
            None => false,
        }
    }

    /// Ask the next render pass to bring the selected item into view.
    pub fn scroll_selected_into_view(&mut self)
        ensures
            same_but_selection(*final(self), *old(self)),
            final(self).selected == old(self).selected,
            final(self).ensure_selected_in_view_on_next_render,
    {
        self.ensure_selected_in_view_on_next_render = true;
    }

    /// Scroll up by the given number of entries, saturating at the top.
    /// Reports whether the offset changed. The offset never leaves
    /// `[0, last_biggest_index]` once it is inside.
    pub fn scroll_up(&mut self, lines: usize) -> (r: bool)
        ensures
            same_but_offset(*final(self), *old(self)),
            final(self).offset == (
            if old(self).offset >= lines {
                old(self).offset - lines
            } else {
                0
            }),
            final(self).offset <= old(self).offset,
            r == (final(self).offset != old(self).offset),
    {
        let before = self.offset;
        self.offset = if self.offset >= lines {
            self.offset - lines
        } else {
            0
        };
        before != self.offset
    }

    /// Scroll down by the given number of entries, saturating at the last
    /// biggest index. Reports whether the offset changed. The offset never
    /// leaves `[0, last_biggest_index]` once it is inside.
    pub fn scroll_down(&mut self, lines: usize) -> (r: bool)
        ensures
            same_but_offset(*final(self), *old(self)),
            final(self).offset as int == min_int(
                old(self).offset + lines,
                old(self).last_biggest_index as int,
            ),
            final(self).offset <= old(self).last_biggest_index,
            r == (final(self).offset != old(self).offset),
    {
        let before = self.offset;
        let sum = if self.offset <= usize::MAX - lines {
            self.offset + lines
        } else {
            usize::MAX
        };
        self.offset = if sum <= self.last_biggest_index {
            sum
        } else {
            self.last_biggest_index
        };
        before != self.offset
    }
}

/// The mathematical value of the row cache: start row and path of each entry.
pub open spec fn rendered_view(v: Vec<(u16, Vec<String>)>) -> Seq<(u16, Seq<Seq<char>>)> {
    v@.map_values(|p: (u16, Vec<String>)| (p.0, path_view(p.1)))
}

/// Equality of two explorer states: same selection, expansion set, offset,
/// flag and last-render caches, compared by value.
pub open spec fn state_eq_spec(a: ExplorerState, b: ExplorerState) -> bool {
    &&& a.offset == b.offset
    &&& a.expanded@ == b.expanded@
    &&& path_view(a.selected) == path_view(b.selected)
    &&& a.ensure_selected_in_view_on_next_render == b.ensure_selected_in_view_on_next_render
    &&& a.last_area == b.last_area
    &&& a.last_biggest_index == b.last_biggest_index
    &&& paths_view(a.last_identifiers) == paths_view(b.last_identifiers)
    &&& rendered_view(a.last_rendered_identifiers) == rendered_view(b.last_rendered_identifiers)
    &&& a.is_open == b.is_open
}

/// Whether two path lists hold the same paths in the same order.
fn path_list_eq(a: &Vec<Vec<String>>, b: &Vec<Vec<String>>) -> (r: bool)
    ensures
        r == (paths_view(*a) == paths_view(*b)),
{
    if a.len() != b.len() {
        assert(paths_view(*a).len() != paths_view(*b).len());
        return false;
    }
    let n = a.len();
    let mut i: usize = 0;
    while i < n
        invariant
            n == a@.len() == b@.len(),
            0 <= i <= n,
            forall|j: int| 0 <= j < i ==> path_view(#[trigger] a@[j]) == path_view(b@[j]),
        decreases n - i,
    {
        if !path_eq(&a[i], &b[i]) {
            assert(paths_view(*a)[i as int] != paths_view(*b)[i as int]);
            return false;
        }
        i += 1;
    }
    assert(paths_view(*a) =~= paths_view(*b));
    true
}

/// Whether two row caches agree, row and path alike.
fn rendered_list_eq(a: &Vec<(u16, Vec<String>)>, b: &Vec<(u16, Vec<String>)>) -> (r: bool)
    ensures
        r == (rendered_view(*a) == rendered_view(*b)),
{
    if a.len() != b.len() {
        assert(rendered_view(*a).len() != rendered_view(*b).len());
        return false;
    }
    let n = a.len();
    let mut i: usize = 0;
    while i < n
        invariant
            n == a@.len() == b@.len(),
            0 <= i <= n,
            forall|j: int|
                0 <= j < i ==> (#[trigger] a@[j]).0 == b@[j].0 && path_view(a@[j].1) == path_view(
                    b@[j].1,
                ),
        decreases n - i,
    {
        if a[i].0 != b[i].0 || !path_eq(&a[i].1, &b[i].1) {
            assert(rendered_view(*a)[i as int] != rendered_view(*b)[i as int]);
            return false;
        }
        i += 1;
    }
    assert(rendered_view(*a) =~= rendered_view(*b));
    true
}

impl PartialEq for ExplorerState {
    /// Two states are equal when selection, expansion, scrolling and the
    /// last-render caches agree; the expansion sets are compared as sets.
    fn eq(&self, other: &Self) -> (r: bool)
        ensures
            r == state_eq_spec(*self, *other),
    {
        let r = self.offset == other.offset && self.expanded.set_eq(&other.expanded) && path_eq(
            &self.selected,
            &other.selected,
        ) && self.ensure_selected_in_view_on_next_render
            == other.ensure_selected_in_view_on_next_render && self.last_area == other.last_area
            && self.last_biggest_index == other.last_biggest_index && path_list_eq(
            &self.last_identifiers,
            &other.last_identifiers,
        ) && rendered_list_eq(&self.last_rendered_identifiers, &other.last_rendered_identifiers)
            && self.is_open == other.is_open;
        proof {
            if self.expanded@ =~= other.expanded@ {
                assert(self.expanded@ == other.expanded@);
            }
        }
        r
    }
}

impl vstd::std_specs::cmp::PartialEqSpecImpl for ExplorerState {
    open spec fn obeys_eq_spec() -> bool {
        true
    }

    open spec fn eq_spec(&self, other: &ExplorerState) -> bool {
        state_eq_spec(*self, *other)
    }
}

impl Default for ExplorerState {
    /// Nothing selected, nothing expanded, no render pass seen yet.
    fn default() -> (r: Self)
        ensures
            r.selected@.len() == 0,
            r.expanded@ =~= Set::<Seq<Seq<char>>>::empty(),
            !r.is_open,
            r.offset == 0,
            r.last_area == (Rect { x: 0, y: 0, width: 0, height: 0 }),
            r.last_biggest_index == 0,
            r.last_identifiers@.len() == 0,
            r.last_rendered_identifiers@.len() == 0,
            !r.ensure_selected_in_view_on_next_render,
    {
        ExplorerState {
            selected: Vec::new(),
            expanded: PathSet::new(),
            is_open: false,
            offset: 0,
            last_area: Rect { x: 0, y: 0, width: 0, height: 0 },
            last_biggest_index: 0,
            last_identifiers: Vec::new(),
            last_rendered_identifiers: Vec::new(),
            ensure_selected_in_view_on_next_render: false,
        }
    }
}

} // verus!
