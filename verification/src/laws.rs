//! Properties of the library that relate several functions, stated and
//! proved once: what a collapsed flattening shows, when a path is visible,
//! that a well-formed forest never shows one path twice, and that stepping
//! the selection forward and back returns to its origin.

use vstd::prelude::*;

use crate::flatten::{
    flat_forest, flat_item, lemma_flat_forest_paths, path_prefix_of, FlatEntry,
};
use crate::item::{well_formed_forest, well_formed_item, TreeItem};
use crate::state::{
    first_index_of, has_path, lemma_first_index_unique, next_position, prev_position,
    the_first_index,
};

verus! {

/// The flattened list has an entry with this path.
pub open spec fn flat_contains(entries: Seq<FlatEntry>, q: Seq<Seq<char>>) -> bool {
    exists|k: int| 0 <= k < entries.len() && (#[trigger] entries[k]).path == q
}

/// `q` is reachable below one item: it is the item's own path, or the item
/// is expanded and `q` is reachable below one of its children.
pub open spec fn item_visible(
    item: TreeItem,
    open_paths: Set<Seq<Seq<char>>>,
    prefix: Seq<Seq<char>>,
    q: Seq<Seq<char>>,
) -> bool
    decreases item,
{
    let path = prefix.push(item.identifier@);
    q == path || (open_paths.contains(path) && forest_visible(item.children@, open_paths, path, q))
}

/// `q` is reachable below some item of the sibling list.
pub open spec fn forest_visible(
    items: Seq<TreeItem>,
    open_paths: Set<Seq<Seq<char>>>,
    prefix: Seq<Seq<char>>,
    q: Seq<Seq<char>>,
) -> bool
    decreases items,
{
    exists|i: int| 0 <= i < items.len() && item_visible(#[trigger] items[i], open_paths, prefix, q)
}

/// `q` names a node of the forest below `prefix`: it is reachable when
/// everything counts as expanded.
pub open spec fn forest_has_node(
    items: Seq<TreeItem>,
    prefix: Seq<Seq<char>>,
    q: Seq<Seq<char>>,
) -> bool {
    forest_visible(items, Set::full(), prefix, q)
}

/// Every proper ancestor of `q` strictly below `prefix` is expanded.
pub open spec fn ancestors_open(
    open_paths: Set<Seq<Seq<char>>>,
    prefix: Seq<Seq<char>>,
    q: Seq<Seq<char>>,
) -> bool {
    forall|l: int| prefix.len() < l < q.len() ==> open_paths.contains(#[trigger] q.subrange(0, l))
}

/// The flattened entries of one item are exactly the paths reachable below it.
proof fn lemma_item_flat_visible(
    item: TreeItem,
    open_paths: Set<Seq<Seq<char>>>,
    prefix: Seq<Seq<char>>,
    q: Seq<Seq<char>>,
)
    ensures
        flat_contains(flat_item(item, open_paths, prefix), q) == item_visible(
            item,
            open_paths,
            prefix,
            q,
        ),
    decreases item,
{
    let path = prefix.push(item.identifier@);
    let entries = flat_item(item, open_paths, prefix);
    assert(entries[0].path == path);
    if open_paths.contains(path) {
        lemma_forest_flat_visible(item.children@, open_paths, path, q);
        let sub = flat_forest(item.children@, open_paths, path);
        if flat_contains(entries, q) {
            let k = choose|k: int| 0 <= k < entries.len() && (#[trigger] entries[k]).path == q;
            if k > 0 {
                assert(entries[k] == sub[k - 1]);
                assert(flat_contains(sub, q));
            }
        }
        if q == path {
            assert(flat_contains(entries, q));
        }
        if flat_contains(sub, q) {
            let k = choose|k: int| 0 <= k < sub.len() && (#[trigger] sub[k]).path == q;
            assert(entries[k + 1] == sub[k]);
            assert(flat_contains(entries, q));
        }
    } else {
        assert(entries.len() == 1);
        if q == path {
            assert(flat_contains(entries, q));
        }
        if flat_contains(entries, q) {
            let k = choose|k: int| 0 <= k < entries.len() && (#[trigger] entries[k]).path == q;
            assert(k == 0);
        }
    }
}

/// The flattened entries of a sibling list are exactly the paths reachable
/// below its items.
proof fn lemma_forest_flat_visible(
    items: Seq<TreeItem>,
    open_paths: Set<Seq<Seq<char>>>,
    prefix: Seq<Seq<char>>,
    q: Seq<Seq<char>>,
)
    ensures
        flat_contains(flat_forest(items, open_paths, prefix), q) == forest_visible(
            items,
            open_paths,
            prefix,
            q,
        ),
    decreases items,
{
    if items.len() > 0 {
        let rest = items.subrange(1, items.len() as int);
        lemma_item_flat_visible(items[0], open_paths, prefix, q);
        lemma_forest_flat_visible(rest, open_paths, prefix, q);
        let head = flat_item(items[0], open_paths, prefix);
        let tail = flat_forest(rest, open_paths, prefix);
        let whole = flat_forest(items, open_paths, prefix);
        if flat_contains(whole, q) {
            let k = choose|k: int| 0 <= k < whole.len() && (#[trigger] whole[k]).path == q;
            if k < head.len() {
                assert(whole[k] == head[k]);
                assert(flat_contains(head, q));
            } else {
                assert(whole[k] == tail[k - head.len()]);
                assert(flat_contains(tail, q));
                let i = choose|i: int|
                    0 <= i < rest.len() && item_visible(#[trigger] rest[i], open_paths, prefix, q);
                assert(items[i + 1] == rest[i]);
                assert(forest_visible(items, open_paths, prefix, q));
            }
        }
        if forest_visible(items, open_paths, prefix, q) {
            let i = choose|i: int|
                0 <= i < items.len() && item_visible(#[trigger] items[i], open_paths, prefix, q);
            if i == 0 {
                let k = choose|k: int| 0 <= k < head.len() && (#[trigger] head[k]).path == q;
                assert(whole[k] == head[k]);
                assert(flat_contains(whole, q));
            } else {
                assert(rest[i - 1] == items[i]);
                assert(forest_visible(rest, open_paths, prefix, q));
                let k = choose|k: int| 0 <= k < tail.len() && (#[trigger] tail[k]).path == q;
                assert(whole[head.len() + k] == tail[k]);
                assert(flat_contains(whole, q));
            }
        }
    }
}

/// A reachable path extends the prefix strictly.
proof fn lemma_visible_extends(
    items: Seq<TreeItem>,
    open_paths: Set<Seq<Seq<char>>>,
    prefix: Seq<Seq<char>>,
    q: Seq<Seq<char>>,
)
    requires
        forest_visible(items, open_paths, prefix, q),
    ensures
        q.len() > prefix.len(),
        path_prefix_of(prefix, q),
{
    lemma_forest_flat_visible(items, open_paths, prefix, q);
    lemma_flat_forest_paths(items, open_paths, prefix);
    let fs = flat_forest(items, open_paths, prefix);
    let k = choose|k: int| 0 <= k < fs.len() && (#[trigger] fs[k]).path == q;
    assert(path_prefix_of(prefix, fs[k].path));
}

/// Reachability below one item splits into existence of the node and
/// expansion of every ancestor.
proof fn lemma_item_decompose(
    item: TreeItem,
    open_paths: Set<Seq<Seq<char>>>,
    prefix: Seq<Seq<char>>,
    q: Seq<Seq<char>>,
)
    ensures
        item_visible(item, open_paths, prefix, q) == (item_visible(item, Set::full(), prefix, q)
            && ancestors_open(open_paths, prefix, q)),
    decreases item,
{
    let path = prefix.push(item.identifier@);
    if q == path {
        assert(ancestors_open(open_paths, prefix, q));
    } else {
        lemma_forest_decompose(item.children@, open_paths, path, q);
        if forest_visible(item.children@, Set::full(), path, q) {
            lemma_visible_extends(item.children@, Set::full(), path, q);
            assert(q.subrange(0, path.len() as int) =~= path);
            // split the ancestor range at the item's own path
            if open_paths.contains(path) && ancestors_open(open_paths, path, q) {
                assert forall|l: int| prefix.len() < l < q.len()
                    implies open_paths.contains(#[trigger] q.subrange(0, l)) by {
                    if l == path.len() {
                        assert(q.subrange(0, l) == path);
                    }
                }
                assert(ancestors_open(open_paths, prefix, q));
            }
            if ancestors_open(open_paths, prefix, q) {
                assert(open_paths.contains(q.subrange(0, path.len() as int)));
                assert(ancestors_open(open_paths, path, q));
            }
        } else {
            if item_visible(item, open_paths, prefix, q) {
                lemma_forest_decompose(item.children@, open_paths, path, q);
                assert(false);
            }
        }
    }
}

/// Reachability below a sibling list splits into existence of the node and
/// expansion of every ancestor.
proof fn lemma_forest_decompose(
    items: Seq<TreeItem>,
    open_paths: Set<Seq<Seq<char>>>,
    prefix: Seq<Seq<char>>,
    q: Seq<Seq<char>>,
)
    ensures
        forest_visible(items, open_paths, prefix, q) == (forest_visible(
            items,
            Set::full(),
            prefix,
            q,
        ) && ancestors_open(open_paths, prefix, q)),
    decreases items,
{
    assert forall|i: int| 0 <= i < items.len() implies item_visible(
        #[trigger] items[i],
        open_paths,
        prefix,
        q,
    ) == (item_visible(items[i], Set::full(), prefix, q) && ancestors_open(
        open_paths,
        prefix,
        q,
    )) by {
        lemma_item_decompose(items[i], open_paths, prefix, q);
    }
}

/// Every flattened entry of one well-formed item carries the item's own
/// identifier right after the prefix, and no two entries share a path.
proof fn lemma_item_paths_distinct(
    item: TreeItem,
    open_paths: Set<Seq<Seq<char>>>,
    prefix: Seq<Seq<char>>,
)
    requires
        well_formed_item(item),
    ensures
        forall|k: int|
            0 <= k < flat_item(item, open_paths, prefix).len()
                ==> (#[trigger] flat_item(item, open_paths, prefix)[k]).path[prefix.len() as int]
                == item.identifier@,
        forall|k1: int, k2: int|
            0 <= k1 < k2 < flat_item(item, open_paths, prefix).len()
                ==> (#[trigger] flat_item(item, open_paths, prefix)[k1]).path != (#[trigger]
            flat_item(item, open_paths, prefix)[k2]).path,
    decreases item,
{
    let path = prefix.push(item.identifier@);
    let entries = flat_item(item, open_paths, prefix);
    assert(entries[0].path == path);
    assert(path[prefix.len() as int] == item.identifier@);
    if open_paths.contains(path) {
        let sub = flat_forest(item.children@, open_paths, path);
        lemma_forest_paths_distinct(item.children@, open_paths, path);
        lemma_flat_forest_paths(item.children@, open_paths, path);
        assert forall|k: int| 0 <= k < entries.len()
            implies (#[trigger] entries[k]).path[prefix.len() as int] == item.identifier@ by {
            if k > 0 {
                assert(entries[k] == sub[k - 1]);
                assert(path_prefix_of(path, sub[k - 1].path));
                assert(sub[k - 1].path[prefix.len() as int] == path[prefix.len() as int]);
            }
        }
        assert forall|k1: int, k2: int| 0 <= k1 < k2 < entries.len()
            implies (#[trigger] entries[k1]).path != (#[trigger] entries[k2]).path by {
            if k1 == 0 {
                assert(entries[k2] == sub[k2 - 1]);
                assert(sub[k2 - 1].path.len() > path.len());
            } else {
                assert(entries[k1] == sub[k1 - 1] && entries[k2] == sub[k2 - 1]);
            }
        }
    }
}

/// In a well-formed forest, no two flattened entries share a path.
proof fn lemma_forest_paths_distinct(
    items: Seq<TreeItem>,
    open_paths: Set<Seq<Seq<char>>>,
    prefix: Seq<Seq<char>>,
)
    requires
        well_formed_forest(items),
    ensures
        forall|k: int|
            0 <= k < flat_forest(items, open_paths, prefix).len() ==> exists|i: int|
                0 <= i < items.len() && (#[trigger] flat_forest(items, open_paths, prefix)[k]).path[
                prefix.len() as int] == items[i].identifier@,
        forall|k1: int, k2: int|
            0 <= k1 < k2 < flat_forest(items, open_paths, prefix).len()
                ==> (#[trigger] flat_forest(items, open_paths, prefix)[k1]).path != (#[trigger]
            flat_forest(items, open_paths, prefix)[k2]).path,
    decreases items,
{
    if items.len() > 0 {
        let rest = items.subrange(1, items.len() as int);
        let head = flat_item(items[0], open_paths, prefix);
        let tail = flat_forest(rest, open_paths, prefix);
        let whole = flat_forest(items, open_paths, prefix);
        lemma_item_paths_distinct(items[0], open_paths, prefix);
        lemma_forest_paths_distinct(rest, open_paths, prefix);
        assert forall|k: int| 0 <= k < whole.len() implies exists|i: int|
            0 <= i < items.len() && (#[trigger] whole[k]).path[prefix.len() as int]
                == items[i].identifier@ by {
            if k < head.len() {
                assert(whole[k] == head[k]);
                assert(whole[k].path[prefix.len() as int] == items[0].identifier@);
            } else {
                assert(whole[k] == tail[k - head.len()]);
                let i = choose|i: int|
                    0 <= i < rest.len() && (#[trigger] tail[k - head.len()]).path[
                    prefix.len() as int] == rest[i].identifier@;
                assert(whole[k].path[prefix.len() as int] == items[i + 1].identifier@);
            }
        }
        assert forall|k1: int, k2: int| 0 <= k1 < k2 < whole.len()
            implies (#[trigger] whole[k1]).path != (#[trigger] whole[k2]).path by {
            if k1 < head.len() && k2 >= head.len() {
                assert(whole[k1] == head[k1]);
                assert(whole[k2] == tail[k2 - head.len()]);
                assert(whole[k1].path[prefix.len() as int] == items[0].identifier@);
                let i = choose|i: int|
                    0 <= i < rest.len() && (#[trigger] tail[k2 - head.len()]).path[
                    prefix.len() as int] == rest[i].identifier@;
                assert(items[i + 1].identifier@ != items[0].identifier@);
            } else if k1 >= head.len() {
                assert(whole[k1] == tail[k1 - head.len()] && whole[k2] == tail[k2 - head.len()]);
            } else {
                assert(whole[k1] == head[k1] && whole[k2] == head[k2]);
            }
        }
    }
}

/// Law: flattening a well-formed forest never shows one path twice; the
/// visible paths are pairwise distinct, so they are a valid navigation
/// order.
pub proof fn lemma_flatten_paths_distinct(
    items: Seq<TreeItem>,
    open_paths: Set<Seq<Seq<char>>>,
    prefix: Seq<Seq<char>>,
)
    requires
        well_formed_forest(items),
    ensures
        forall|k1: int, k2: int|
            0 <= k1 < k2 < flat_forest(items, open_paths, prefix).len()
                ==> (#[trigger] flat_forest(items, open_paths, prefix)[k1]).path != (#[trigger]
            flat_forest(items, open_paths, prefix)[k2]).path,
{
    lemma_forest_paths_distinct(items, open_paths, prefix);
}

/// Law: with nothing expanded, flattening yields exactly the top-level
/// items, in order, each with its one-identifier path.
pub proof fn lemma_flatten_collapsed(items: Seq<TreeItem>, prefix: Seq<Seq<char>>)
    ensures
        flat_forest(items, Set::empty(), prefix).len() == items.len(),
        forall|i: int|
            0 <= i < items.len() ==> (#[trigger] flat_forest(items, Set::empty(), prefix)[i]).path
                == prefix.push(items[i].identifier@) && flat_forest(
                items,
                Set::empty(),
                prefix,
            )[i].node == items[i],
    decreases items.len(),
{
    if items.len() > 0 {
        let rest = items.subrange(1, items.len() as int);
        lemma_flatten_collapsed(rest, prefix);
        let head = flat_item(items[0], Set::empty(), prefix);
        assert(head.len() == 1);
        assert(head[0].path == prefix.push(items[0].identifier@) && head[0].node == items[0]);
        let whole = flat_forest(items, Set::empty(), prefix);
        assert forall|i: int| 0 <= i < items.len() implies (#[trigger] whole[i]).path
            == prefix.push(items[i].identifier@) && whole[i].node == items[i] by {
            if i == 0 {
                assert(whole[0] == head[0]);
            } else {
                assert(whole[i] == flat_forest(rest, Set::empty(), prefix)[i - 1]);
                assert(rest[i - 1] == items[i]);
            }
        }
    }
}

/// Law: a path appears in the flattened list iff it names a node of the
/// forest and every proper ancestor is expanded. Expanded paths that name
/// no node are harmless, and a node below a collapsed ancestor stays out.
pub proof fn lemma_flatten_prefix_consistent(
    items: Seq<TreeItem>,
    open_paths: Set<Seq<Seq<char>>>,
    q: Seq<Seq<char>>,
)
    ensures
        flat_contains(flat_forest(items, open_paths, Seq::empty()), q) == (forest_has_node(
            items,
            Seq::empty(),
            q,
        ) && ancestors_open(open_paths, Seq::empty(), q)),
{
    lemma_forest_flat_visible(items, open_paths, Seq::empty(), q);
    lemma_forest_decompose(items, open_paths, Seq::empty(), q);
}

/// Law: moving the selection forward and then backward returns to the
/// original selection, whenever the visible paths are distinct, the
/// selection is present, and neither step hits a clamp boundary.
pub proof fn lemma_select_next_then_prev(
    ids: Seq<Seq<Seq<char>>>,
    sel: Seq<Seq<char>>,
    biggest: int,
    p: int,
)
    requires
        forall|i: int, j: int| 0 <= i < j < ids.len() ==> ids[i] != ids[j],
        first_index_of(ids, sel, p),
        p + 1 < ids.len(),
        p + 1 <= biggest,
    ensures
        next_position(ids, sel, biggest) == p + 1,
        prev_position(ids, ids[p + 1], biggest) == p,
        ids[prev_position(ids, ids[p + 1], biggest)] == sel,
{
    assert(has_path(ids, sel));
    let f = the_first_index(ids, sel);
    assert(first_index_of(ids, sel, f));
    lemma_first_index_unique(ids, sel, f, p);
    assert(next_position(ids, sel, biggest) == p + 1);

    let nsel = ids[p + 1];
    assert(has_path(ids, nsel));
    assert(first_index_of(ids, nsel, p + 1));
    let f2 = the_first_index(ids, nsel);
    assert(first_index_of(ids, nsel, f2));
    lemma_first_index_unique(ids, nsel, f2, p + 1);
    assert(prev_position(ids, nsel, biggest) == p);
}

} // verus!
