//! Geometry and the render plan: the backend-agnostic description of what to
//! draw for one render pass, and the windowing that computes it.

use vstd::prelude::*;

use crate::flatten::FlatEntry;
use crate::item::item_height;

verus! {

/// Total rendered height of the entries in `[lo, hi)`.
pub open spec fn sum_heights(entries: Seq<FlatEntry>, lo: int, hi: int) -> int
    decreases hi - lo,
{
    if lo >= hi {
        0
    } else {
        item_height(entries[lo].node) as int + sum_heights(entries, lo + 1, hi)
    }
}

/// A height capped just above the available height: comparisons against the
/// available height are unchanged, and sums cannot overflow.
pub open spec fn capped(h: int, avail: int) -> int {
    if h > avail {
        avail + 1
    } else {
        h
    }
}

/// Total capped height of the entries in `[lo, hi)`.
pub open spec fn sum_capped(entries: Seq<FlatEntry>, lo: int, hi: int, avail: int) -> int
    decreases hi - lo,
{
    if lo >= hi {
        0
    } else {
        capped(item_height(entries[lo].node) as int, avail) + sum_capped(entries, lo + 1, hi, avail)
    }
}

/// Extending a height sum by one entry at the top end.
pub proof fn lemma_sum_snoc(entries: Seq<FlatEntry>, lo: int, hi: int, avail: int)
    requires
        lo <= hi,
    ensures
        sum_heights(entries, lo, hi + 1) == sum_heights(entries, lo, hi) + item_height(
            entries[hi].node,
        ) as int,
        sum_capped(entries, lo, hi + 1, avail) == sum_capped(entries, lo, hi, avail) + capped(
            item_height(entries[hi].node) as int,
            avail,
        ),
    decreases hi - lo,
{
    if lo < hi {
        lemma_sum_snoc(entries, lo + 1, hi, avail);
        assert(sum_heights(entries, lo, hi + 1) == item_height(entries[lo].node) as int
            + sum_heights(entries, lo + 1, hi + 1));
        assert(sum_heights(entries, lo, hi) == item_height(entries[lo].node) as int + sum_heights(
            entries,
            lo + 1,
            hi,
        ));
        assert(sum_capped(entries, lo, hi + 1, avail) == capped(
            item_height(entries[lo].node) as int,
            avail,
        ) + sum_capped(entries, lo + 1, hi + 1, avail));
        assert(sum_capped(entries, lo, hi, avail) == capped(
            item_height(entries[lo].node) as int,
            avail,
        ) + sum_capped(entries, lo + 1, hi, avail));
    } else {
        assert(sum_heights(entries, hi, hi + 1) == item_height(entries[hi].node) as int
            + sum_heights(entries, hi + 1, hi + 1));
        assert(sum_capped(entries, hi, hi + 1, avail) == capped(
            item_height(entries[hi].node) as int,
            avail,
        ) + sum_capped(entries, hi + 1, hi + 1, avail));
    }
}

/// Height sums are nonnegative.
pub proof fn lemma_sum_nonneg(entries: Seq<FlatEntry>, lo: int, hi: int, avail: int)
    requires
        avail >= 0,
    ensures
        sum_heights(entries, lo, hi) >= 0,
        sum_capped(entries, lo, hi, avail) >= 0,
    decreases hi - lo,
{
    if lo < hi {
        lemma_sum_nonneg(entries, lo + 1, hi, avail);
    }
}

/// A capped sum that fits the available height is the true sum: no capped
/// term can have been capped.
pub proof fn lemma_sum_capped_exact(entries: Seq<FlatEntry>, lo: int, hi: int, avail: int)
    requires
        avail >= 0,
        sum_capped(entries, lo, hi, avail) <= avail,
    ensures
        sum_capped(entries, lo, hi, avail) == sum_heights(entries, lo, hi),
        forall|k: int| lo <= k < hi ==> item_height((#[trigger] entries[k]).node) <= avail,
    decreases hi - lo,
{
    if lo < hi {
        lemma_sum_nonneg(entries, lo + 1, hi, avail);
        lemma_sum_capped_exact(entries, lo + 1, hi, avail);
    }
}

/// A rectangular screen area: its top-left corner, width and height.
#[derive(Clone, Copy, Debug, PartialEq, Eq, Structural)]
pub struct Rect {
    pub x: u16,
    pub y: u16,
    pub width: u16,
    pub height: u16,
}

/// A screen position in absolute coordinates.
#[derive(Clone, Copy, Debug, PartialEq, Eq, Structural)]
pub struct Position {
    pub x: u16,
    pub y: u16,
}

/// Whether a position lies inside a rectangle.
pub open spec fn rect_contains(area: Rect, p: Position) -> bool {
    &&& area.x <= p.x < area.x + area.width
    &&& area.y <= p.y < area.y + area.height
}

impl Rect {
    /// Whether the given position lies inside this area.
    pub fn contains(&self, p: Position) -> (r: bool)
        ensures
            r == rect_contains(*self, p),
    {
        p.x >= self.x && (p.x as u32) < self.x as u32 + self.width as u32 && p.y >= self.y
            && (p.y as u32) < self.y as u32 + self.height as u32
    }
}

impl Default for Rect {
    /// The empty area at the origin.
    fn default() -> (r: Self)
        ensures
            r == (Rect { x: 0, y: 0, width: 0, height: 0 }),
    {
        Rect { x: 0, y: 0, width: 0, height: 0 }
    }
}

/// The marker drawn in front of an item: open branch, closed branch, or leaf.
#[derive(Clone, Copy, Debug, PartialEq, Eq, Structural)]
pub enum Marker {
    Open,
    Closed,
    NoChildren,
}

/// One row group of the render plan: where one visible item starts, how many
/// rows it spans, and what to draw for it.
pub struct RenderRow {
    /// Full path of the item.
    pub identifier: Vec<String>,
    /// Zero based depth, for indentation.
    pub depth: usize,
    /// Absolute screen row the item starts at.
    pub start_row: u16,
    /// Rendered height in rows.
    pub height: u16,
    /// The item's display text.
    pub text: String,
    /// Whether this item is the current selection.
    pub is_selected: bool,
    /// Which branch marker to draw.
    pub marker: Marker,
}

/// The scrollbar summary of one render pass.
#[derive(Clone, Copy, Debug, PartialEq, Eq, Structural)]
pub struct ScrollbarInfo {
    /// Total scrollable content: visible entries beyond the window.
    pub content_length: usize,
    /// Rows taken by the current window.
    pub viewport_content_length: usize,
    /// Index of the first entry in the window.
    pub position: usize,
}

/// The ordered, backend-agnostic description of one render pass.
pub struct RenderPlan {
    pub rows: Vec<RenderRow>,
    pub scrollbar: ScrollbarInfo,
}

} // verus!
