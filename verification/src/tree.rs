//! The tree widget model: the forest of items, and the viewport engine that
//! computes, for one render pass, which slice of the visible list fits on
//! screen, keeping the selection in view when asked to.

use vstd::prelude::*;

use crate::flatten::{
    flat_forest, lemma_flat_forest_paths, matches_flat, FlatEntry, Flattened,
};
use crate::item::{distinct_identifiers, item_height, TreeError, TreeItem};
use crate::paths::{clone_path, path_eq, path_view};
use crate::state::{min_int, ExplorerState};
use crate::viewport::{
    capped, lemma_sum_capped_exact, lemma_sum_nonneg, lemma_sum_snoc, sum_capped, sum_heights,
    Marker, Rect, RenderPlan, RenderRow, ScrollbarInfo,
};

verus! {

/// A tree of items. Top-level identifiers are unique, like any sibling set.
pub struct Tree {
    items: Vec<TreeItem>,
}

impl View for Tree {
    type V = Seq<TreeItem>;

    closed spec fn view(&self) -> Seq<TreeItem> {
        self.items@
    }
}

impl Tree {
    /// Create a new `Tree` that owns its items. Fails with
    /// `DuplicateIdentifier` iff two top-level items share an identifier.
    pub fn new(items: Vec<TreeItem>) -> (r: Result<Tree, TreeError>)
        ensures
            match r {
                Ok(t) => t@ == items@ && distinct_identifiers(items@),
                Err(e) => e == TreeError::DuplicateIdentifier && !distinct_identifiers(items@),
            },
    {
        let n = items.len();
        let mut i: usize = 1;
        while i < n
            invariant
                n == items@.len(),
                1 <= i,
                forall|k: int, l: int|
                    0 <= k < l < i && l < n
                        ==> (#[trigger] items@[k].identifier)@ != (#[trigger] items@[l].identifier)@,
            decreases n - i,
        {
            let mut j: usize = 0;
            while j < i
                invariant
                    i < n == items@.len(),
                    0 <= j <= i,
                    forall|k: int|
                        0 <= k < j
                            ==> (#[trigger] items@[k].identifier)@ != items@[i as int].identifier@,
                decreases i - j,
            {
                if items[j].identifier == items[i].identifier {
                    return Err(TreeError::DuplicateIdentifier);
                }
                j += 1;
            }
            i += 1;
        }
        Ok(Tree { items })
    }

    /// The top-level items.
    pub fn items(&self) -> (r: &Vec<TreeItem>)
        ensures
            r@ == self@,
    {
        &self.items
    }
}

/// `i` is the first index of the visible list whose path is `sel`.
pub open spec fn first_visible_index_of(vis: Seq<FlatEntry>, sel: Seq<Seq<char>>, i: int) -> bool {
    &&& 0 <= i < vis.len()
    &&& vis[i].path == sel
    &&& forall|j: int| 0 <= j < i ==> (#[trigger] vis[j]).path != sel
}

/// The rows describe exactly the visible entries `[start, start + rows.len())`:
/// path, depth, text, height, cumulative start row, selection and marker.
pub open spec fn window_rows_match(
    rows: Seq<RenderRow>,
    vis: Seq<FlatEntry>,
    start: int,
    area: Rect,
    sel: Seq<Seq<char>>,
    open_paths: Set<Seq<Seq<char>>>,
) -> bool {
    forall|k: int|
        0 <= k < rows.len() ==> {
            let e = vis[start + k];
            &&& path_view((#[trigger] rows[k]).identifier) == e.path
            &&& rows[k].depth == e.path.len() - 1
            &&& rows[k].text@ == e.node.text@
            &&& rows[k].height as nat == item_height(e.node)
            &&& rows[k].start_row == area.y + sum_heights(vis, start, start + k)
            &&& rows[k].is_selected == (e.path == sel)
            &&& rows[k].marker == (if e.node.children@.len() == 0 {
                Marker::NoChildren
            } else if open_paths.contains(e.path) {
                Marker::Open
            } else {
                Marker::Closed
            })
        }
}

/// The two per-render caches describe the visible list and the window rows.
pub open spec fn caches_match(
    st: ExplorerState,
    vis: Seq<FlatEntry>,
    rows: Seq<RenderRow>,
    start: int,
) -> bool {
    &&& st.last_identifiers@.len() == vis.len()
    &&& forall|i: int|
        0 <= i < vis.len() ==> path_view(#[trigger] st.last_identifiers@[i]) == vis[i].path
    &&& st.last_rendered_identifiers@.len() == rows.len()
    &&& forall|k: int|
        0 <= k < rows.len() ==> (#[trigger] st.last_rendered_identifiers@[k]).0
            == rows[k].start_row && path_view(st.last_rendered_identifiers@[k].1) == vis[start
            + k].path
}

/// Find the first visible row whose path is the given one.
fn find_first_row(rows: &Vec<Flattened>, sel: &Vec<String>) -> (r: Option<usize>)
    ensures
        match r {
            Some(i) => i < rows@.len() && path_view(rows@[i as int].identifier) == path_view(*sel)
                && forall|j: int|
                0 <= j < i ==> path_view((#[trigger] rows@[j]).identifier) != path_view(*sel),
            None => forall|j: int|
                0 <= j < rows@.len() ==> path_view((#[trigger] rows@[j]).identifier) != path_view(
                    *sel,
                ),
        },
{
    let n = rows.len();
    let mut i: usize = 0;
    while i < n
        invariant
            n == rows@.len(),
            0 <= i <= n,
            forall|j: int|
                0 <= j < i ==> path_view((#[trigger] rows@[j]).identifier) != path_view(*sel),
        decreases n - i,
    {
        if path_eq(&rows[i].identifier, sel) {
            return Some(i);
        }
        i += 1;
    }
    None
}

impl Tree {
    /// One render pass of the viewport engine. Clamps the scroll offset to
    /// the visible list, grows the window to as many entries as fit the
    /// area's height, keeps the selection inside the window when a scroll
    /// into view is pending, persists the window start as the new offset,
    /// refreshes the per-render caches, and emits the render plan.
    ///
    /// A zero-width or zero-height area produces an empty plan, clears the
    /// per-row cache and leaves everything else (the offset included)
    /// untouched. An empty visible list clears all caches.
    pub fn compute_window(&self, area: Rect, state: &mut ExplorerState) -> (plan: RenderPlan)
        requires
            area.y + area.height <= u16::MAX,
        ensures
            ({
                let vis = flat_forest(self@, old(state).expanded@, Seq::<Seq<char>>::empty());
                let avail = area.height as int;
                let start = final(state).offset as int;
                let end = start + plan.rows@.len();
                let sel = path_view(old(state).selected);
                &&& final(state).last_area == area
                &&& final(state).expanded == old(state).expanded
                &&& final(state).selected == old(state).selected
                &&& final(state).is_open == old(state).is_open
                &&& ((area.width == 0 || area.height == 0) ==> {
                    &&& plan.rows@.len() == 0
                    &&& final(state).offset == old(state).offset
                    &&& final(state).last_rendered_identifiers@.len() == 0
                    &&& final(state).last_identifiers == old(state).last_identifiers
                    &&& final(state).last_biggest_index == old(state).last_biggest_index
                    &&& final(state).ensure_selected_in_view_on_next_render == old(
                        state,
                    ).ensure_selected_in_view_on_next_render
                })
                &&& ((area.width > 0 && area.height > 0) ==> {
                    &&& final(state).last_biggest_index as int == (if vis.len() > 0 {
                        vis.len() - 1
                    } else {
                        0int
                    })
                    &&& (vis.len() == 0 ==> {
                        &&& plan.rows@.len() == 0
                        &&& final(state).last_identifiers@.len() == 0
                        &&& final(state).last_rendered_identifiers@.len() == 0
                        &&& final(state).offset == old(state).offset
                        &&& final(state).ensure_selected_in_view_on_next_render == old(
                            state,
                        ).ensure_selected_in_view_on_next_render
                    })
                    &&& (vis.len() > 0 ==> {
                        &&& !final(state).ensure_selected_in_view_on_next_render
                        &&& 0 <= start <= end <= vis.len()
                        &&& sum_heights(vis, start, end) <= avail
                        &&& window_rows_match(
                            plan.rows@,
                            vis,
                            start,
                            area,
                            sel,
                            old(state).expanded@,
                        )
                        &&& caches_match(*final(state), vis, plan.rows@, start)
                        &&& plan.scrollbar.position == start
                        &&& plan.scrollbar.viewport_content_length as int == sum_heights(
                            vis,
                            start,
                            end,
                        )
                        &&& plan.scrollbar.content_length as int == (if vis.len() - sum_heights(
                            vis,
                            start,
                            end,
                        ) >= 0 {
                            vis.len() - sum_heights(vis, start, end)
                        } else {
                            0int
                        })
                        &&& ((old(state).ensure_selected_in_view_on_next_render && sel.len() > 0
                            && (exists|i: int| first_visible_index_of(vis, sel, i))
                            && item_height(
                            vis[choose|i: int| first_visible_index_of(vis, sel, i)].node,
                        ) <= avail) ==> start <= (choose|i: int|
                            first_visible_index_of(vis, sel, i)
                        ) < end)
                        &&& ((!old(state).ensure_selected_in_view_on_next_render || sel.len() == 0
                            || !(exists|i: int| first_visible_index_of(vis, sel, i))) ==> {
                            &&& start == min_int(old(state).offset as int, vis.len() - 1)
                            &&& (end == vis.len() || sum_heights(vis, start, end) + item_height(
                                vis[end].node,
                            ) > avail)
                        })
                    })
                })
            }),
    {
        let ghost sel = path_view(state.selected);
        state.last_area = area;
        state.last_rendered_identifiers = Vec::new();
        if area.width < 1 || area.height < 1 {
            return RenderPlan {
                rows: Vec::new(),
                scrollbar: ScrollbarInfo {
                    content_length: 0,
                    viewport_content_length: 0,
                    position: 0,
                },
            };
        }
        let visible = state.flatten(&self.items);
        let ghost vis = flat_forest(self.items@, state.expanded@, Seq::<Seq<char>>::empty());
        proof {
            lemma_flat_forest_paths(self.items@, state.expanded@, Seq::<Seq<char>>::empty());
        }
        let nvis = visible.len();
        state.last_biggest_index = if nvis > 0 {
            nvis - 1
        } else {
            0
        };
        if nvis == 0 {
            state.last_identifiers = Vec::new();
            return RenderPlan {
                rows: Vec::new(),
                scrollbar: ScrollbarInfo {
                    content_length: 0,
                    viewport_content_length: 0,
                    position: 0,
                },
            };
        }
        let available_height: usize = area.height as usize;
        let ghost avail = area.height as int;

        // Index of the selection in the visible list, when it has to be
        // brought into view.
        let mut ensure_index: Option<usize> = None;
        if state.ensure_selected_in_view_on_next_render && !state.selected.is_empty() {
            ensure_index = find_first_row(&visible, &state.selected);
        }
        proof {
            match ensure_index {
                Some(ix) => {
                    assert(first_visible_index_of(vis, sel, ix as int));
                },
                None => {
                    if state.ensure_selected_in_view_on_next_render && sel.len() > 0 {
                        assert forall|i: int| !first_visible_index_of(vis, sel, i) by {
                            if 0 <= i < vis.len() {
                                assert(path_view(visible@[i].identifier) == vis[i].path);
                            }
                        }
                    }
                },
            }
        }

        // Ensure the last line is still visible.
        let mut start: usize = if state.offset < nvis {
            state.offset
        } else {
            nvis - 1
        };
        if let Some(ix) = ensure_index {
            if ix < start {
                start = ix;
            }
        }
        // Grow the window forward while the next entry still fits.
        let mut end: usize = start;
        let mut height: usize = 0;
        while end < nvis
            invariant
                start <= end <= nvis,
                nvis == vis.len() == visible@.len(),
                matches_flat(visible@, vis),
                available_height == avail,
                avail >= 1,
                available_height <= 65535,
                height as int == sum_capped(vis, start as int, end as int, avail),
                height <= available_height,
            ensures
                start <= end <= nvis,
                height as int == sum_capped(vis, start as int, end as int, avail),
                height <= available_height,
                end == nvis || sum_capped(vis, start as int, end as int, avail) + capped(
                    item_height(vis[end as int].node) as int,
                    avail,
                ) > avail,
            decreases nvis - end,
        {
            let h = visible[end].item.height();
            proof {
                assert(item_height(visible@[end as int].item) == item_height(
                    vis[end as int].node,
                ));
            }
            let hc: usize = if h > available_height {
                available_height + 1
            } else {
                h
            };
            if height + hc > available_height {
                break;
            }
            proof {
                lemma_sum_snoc(vis, start as int, end as int, avail);
            }
            height = height + hc;
            end = end + 1;
        }

        // Bring the selection into view from below: include it, then drop
        // entries from the top until the window fits again.
        if let Some(ix) = ensure_index {
            while ix >= end
                invariant
                    start <= end <= nvis,
                    ix < nvis,
                    nvis == vis.len() == visible@.len(),
                    matches_flat(visible@, vis),
                    available_height == avail,
                    avail >= 1,
                    available_height <= 65535,
                    height as int == sum_capped(vis, start as int, end as int, avail),
                    height <= available_height,
                    item_height(vis[ix as int].node) <= avail ==> start <= ix,
                decreases nvis - end,
            {
                let h = visible[end].item.height();
                proof {
                    assert(item_height(visible@[end as int].item) == item_height(
                        vis[end as int].node,
                    ));
                    lemma_sum_snoc(vis, start as int, end as int, avail);
                }
                let hc: usize = if h > available_height {
                    available_height + 1
                } else {
                    h
                };
                height = height + hc;
                end = end + 1;
                while height > available_height
                    invariant
                        start <= end <= nvis,
                        end <= ix + 1,
                        ix < nvis,
                        nvis == vis.len() == visible@.len(),
                        matches_flat(visible@, vis),
                        available_height == avail,
                        avail >= 1,
                        available_height <= 65535,
                        height as int == sum_capped(vis, start as int, end as int, avail),
                        item_height(vis[ix as int].node) <= avail ==> start <= ix,
                    decreases end - start,
                {
                    proof {
                        if start >= end {
                            assert(sum_capped(vis, start as int, end as int, avail) == 0);
                        }
                        assert(start < end);
                        lemma_sum_nonneg(vis, start as int + 1, end as int, avail);
                        if item_height(vis[ix as int].node) <= avail && start == ix {
                            assert(end == ix + 1);
                            assert(sum_capped(vis, ix as int, ix as int + 1, avail) == capped(
                                item_height(vis[ix as int].node) as int,
                                avail,
                            ) + sum_capped(vis, ix as int + 1, ix as int + 1, avail));
                            assert(false);
                        }
                    }
                    let hs = visible[start].item.height();
                    proof {
                        assert(item_height(visible@[start as int].item) == item_height(
                            vis[start as int].node,
                        ));
                    }
                    let hsc: usize = if hs > available_height {
                        available_height + 1
                    } else {
                        hs
                    };
                    height = height - hsc;
                    start = start + 1;
                }
            }
        }

        proof {
            lemma_sum_capped_exact(vis, start as int, end as int, avail);
            lemma_sum_nonneg(vis, start as int, end as int, avail);
        }

        state.offset = start;
        state.ensure_selected_in_view_on_next_render = false;

        // Emit the rows of the window, with cumulative start rows, and
        // record the row cache.
        let mut rows: Vec<RenderRow> = Vec::new();
        let mut rendered: Vec<(u16, Vec<String>)> = Vec::new();
        let mut current_height: usize = 0;
        let mut idx: usize = start;
        while idx < end
            invariant
                start <= idx <= end <= nvis,
                nvis == vis.len() == visible@.len(),
                matches_flat(visible@, vis),
                available_height == avail,
                area.y + area.height <= u16::MAX,
                available_height == area.height,
                sel == path_view(state.selected),
                sum_heights(vis, start as int, end as int) <= avail,
                forall|k: int|
                    start <= k < end ==> item_height((#[trigger] vis[k]).node) <= avail,
                forall|k: int|
                    0 <= k < vis.len() ==> (#[trigger] vis[k]).path.len() >= 1,
                current_height as int == sum_heights(vis, start as int, idx as int),
                current_height <= available_height,
                rows@.len() == idx - start,
                window_rows_match(rows@, vis, start as int, area, sel, state.expanded@),
                rendered@.len() == rows@.len(),
                forall|k: int|
                    0 <= k < rows@.len() ==> (#[trigger] rendered@[k]).0 == rows@[k].start_row
                        && path_view(rendered@[k].1) == vis[start + k].path,
            decreases end - idx,
        {
            proof {
                lemma_sum_snoc(vis, start as int, idx as int, avail);
                lemma_sum_nonneg(vis, idx as int + 1, end as int, avail);
                lemma_sum_split(vis, start as int, idx as int + 1, end as int);
            }
            let h = visible[idx].item.height();
            proof {
                assert(item_height(visible@[idx as int].item) == item_height(vis[idx as int].node));
            }
            let y_row: u16 = area.y + (current_height as u16);
            let path = clone_path(&visible[idx].identifier);
            let depth = path.len() - 1;
            let is_selected = path_eq(&visible[idx].identifier, &state.selected);
            let marker = if visible[idx].item.children.len() == 0 {
                Marker::NoChildren
            } else if state.expanded.contains(&visible[idx].identifier) {
                Marker::Open
            } else {
                Marker::Closed
            };
            let row_text = visible[idx].item.text.clone();
            rows.push(
                RenderRow {
                    identifier: path,
                    depth,
                    start_row: y_row,
                    height: h as u16,
                    text: row_text,
                    is_selected,
                    marker,
                },
            );
            rendered.push((y_row, clone_path(&visible[idx].identifier)));
            current_height = current_height + h;
            idx += 1;
        }
        state.last_rendered_identifiers = rendered;

        // Record the full visible order for relative navigation.
        let mut order: Vec<Vec<String>> = Vec::new();
        let mut i: usize = 0;
        while i < nvis
            invariant
                0 <= i <= nvis,
                nvis == vis.len() == visible@.len(),
                matches_flat(visible@, vis),
                order@.len() == i,
                forall|j: int| 0 <= j < i ==> path_view(#[trigger] order@[j]) == vis[j].path,
            decreases nvis - i,
        {
            order.push(clone_path(&visible[i].identifier));
            i += 1;
        }
        state.last_identifiers = order;

        let scrollbar = ScrollbarInfo {
            content_length: if nvis > height {
                nvis - height
            } else {
                0
            },
            viewport_content_length: height,
            position: start,
        };
        proof {
            if ensure_index is Some {
                let ix = ensure_index->0;
                let c = choose|i: int| first_visible_index_of(vis, sel, i);
                assert(first_visible_index_of(vis, sel, c));
                assert(c == ix as int);
            }
        }
        RenderPlan { rows, scrollbar }
    }
}

/// Splitting a height sum at a midpoint.
proof fn lemma_sum_split(entries: Seq<FlatEntry>, lo: int, mid: int, hi: int)
    requires
        lo <= mid <= hi,
    ensures
        sum_heights(entries, lo, hi) == sum_heights(entries, lo, mid) + sum_heights(
            entries,
            mid,
            hi,
        ),
    decreases mid - lo,
{
    if lo < mid {
        lemma_sum_split(entries, lo + 1, mid, hi);
    }
}

} // verus!
