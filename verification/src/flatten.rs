//! Flattening: the ordered list of currently visible items, given a forest
//! and the set of expanded paths. A node is visible iff it is top-level or
//! every ancestor's path is expanded; children follow their parent
//! immediately (pre-order, depth-first).

use vstd::prelude::*;

use crate::item::{example, same_item, TreeItem};
use crate::paths::{PathSet, path_view};

verus! {

/// One entry of the visible list, as a mathematical value: the node's full
/// path and the node itself.
pub struct FlatEntry {
    pub path: Seq<Seq<char>>,
    pub node: TreeItem,
}

/// The visible entries contributed by one item under the given prefix:
/// the item itself, then, iff its path is expanded, its flattened children.
pub open spec fn flat_item(
    item: TreeItem,
    open_paths: Set<Seq<Seq<char>>>,
    prefix: Seq<Seq<char>>,
) -> Seq<FlatEntry>
    decreases item,
{
    let path = prefix.push(item.identifier@);
    seq![FlatEntry { path, node: item }] + if open_paths.contains(path) {
        flat_forest(item.children@, open_paths, path)
    } else {
        Seq::empty()
    }
}

/// The visible entries of a sibling list, in order.
pub open spec fn flat_forest(
    items: Seq<TreeItem>,
    open_paths: Set<Seq<Seq<char>>>,
    prefix: Seq<Seq<char>>,
) -> Seq<FlatEntry>
    decreases items,
{
    if items.len() == 0 {
        Seq::empty()
    } else {
        flat_item(items[0], open_paths, prefix) + flat_forest(
            items.subrange(1, items.len() as int),
            open_paths,
            prefix,
        )
    }
}

/// Flattening distributes over concatenation of sibling lists.
pub proof fn lemma_flat_forest_concat(
    a: Seq<TreeItem>,
    b: Seq<TreeItem>,
    open_paths: Set<Seq<Seq<char>>>,
    prefix: Seq<Seq<char>>,
)
    ensures
        flat_forest(a + b, open_paths, prefix) == flat_forest(a, open_paths, prefix)
            + flat_forest(b, open_paths, prefix),
    decreases a.len(),
{
    if a.len() == 0 {
        assert(a + b =~= b);
        assert(flat_forest(a, open_paths, prefix) + flat_forest(b, open_paths, prefix)
            =~= flat_forest(b, open_paths, prefix));
    } else {
        lemma_flat_forest_concat(a.subrange(1, a.len() as int), b, open_paths, prefix);
        assert((a + b)[0] == a[0]);
        assert((a + b).subrange(1, (a + b).len() as int) =~= a.subrange(1, a.len() as int) + b);
        assert(flat_forest(a + b, open_paths, prefix) =~= flat_forest(a, open_paths, prefix)
            + flat_forest(b, open_paths, prefix));
    }
}

/// Peeling one more item off the front of a prefix of a sibling list.
pub proof fn lemma_flat_forest_snoc(
    items: Seq<TreeItem>,
    i: int,
    open_paths: Set<Seq<Seq<char>>>,
    prefix: Seq<Seq<char>>,
)
    requires
        0 <= i < items.len(),
    ensures
        flat_forest(items.subrange(0, i + 1), open_paths, prefix) == flat_forest(
            items.subrange(0, i),
            open_paths,
            prefix,
        ) + flat_item(items[i], open_paths, prefix),
{
    let single = seq![items[i]];
    assert(items.subrange(0, i + 1) =~= items.subrange(0, i) + single);
    lemma_flat_forest_concat(items.subrange(0, i), single, open_paths, prefix);
    assert(single.len() == 1 && single[0] == items[i]);
    assert(single.subrange(1, 1) =~= Seq::<TreeItem>::empty());
    assert(flat_forest(single.subrange(1, 1), open_paths, prefix)
        == flat_forest(Seq::<TreeItem>::empty(), open_paths, prefix));
    assert(flat_forest(single, open_paths, prefix) =~= flat_item(items[i], open_paths, prefix));
}

/// `p` is a prefix of `q` (identifier by identifier, not necessarily proper).
pub open spec fn path_prefix_of(p: Seq<Seq<char>>, q: Seq<Seq<char>>) -> bool {
    p.len() <= q.len() && forall|i: int| 0 <= i < p.len() ==> q[i] == p[i]
}

/// Every visible entry of one item lies strictly below the prefix.
pub proof fn lemma_flat_item_paths(
    item: TreeItem,
    open_paths: Set<Seq<Seq<char>>>,
    prefix: Seq<Seq<char>>,
)
    ensures
        forall|k: int|
            0 <= k < flat_item(item, open_paths, prefix).len() ==> path_prefix_of(
                prefix,
                (#[trigger] flat_item(item, open_paths, prefix)[k]).path,
            ) && flat_item(item, open_paths, prefix)[k].path.len() > prefix.len(),
    decreases item,
{
    let path = prefix.push(item.identifier@);
    let entries = flat_item(item, open_paths, prefix);
    assert(entries[0].path == path);
    assert(path_prefix_of(prefix, path));
    if open_paths.contains(path) {
        lemma_flat_forest_paths(item.children@, open_paths, path);
        assert forall|k: int| 1 <= k < entries.len()
            implies path_prefix_of(prefix, (#[trigger] entries[k]).path) && entries[k].path.len()
                > prefix.len() by {
            let sub = flat_forest(item.children@, open_paths, path);
            assert(entries[k] == sub[k - 1]);
            assert(path_prefix_of(path, sub[k - 1].path));
        }
    }
}

/// Every visible entry of a sibling list lies strictly below the prefix.
pub proof fn lemma_flat_forest_paths(
    items: Seq<TreeItem>,
    open_paths: Set<Seq<Seq<char>>>,
    prefix: Seq<Seq<char>>,
)
    ensures
        forall|k: int|
            0 <= k < flat_forest(items, open_paths, prefix).len() ==> path_prefix_of(
                prefix,
                (#[trigger] flat_forest(items, open_paths, prefix)[k]).path,
            ) && flat_forest(items, open_paths, prefix)[k].path.len() > prefix.len(),
    decreases items,
{
    if items.len() > 0 {
        lemma_flat_item_paths(items[0], open_paths, prefix);
        lemma_flat_forest_paths(items.subrange(1, items.len() as int), open_paths, prefix);
        let head = flat_item(items[0], open_paths, prefix);
        let tail = flat_forest(items.subrange(1, items.len() as int), open_paths, prefix);
        assert forall|k: int| 0 <= k < flat_forest(items, open_paths, prefix).len()
            implies path_prefix_of(
                prefix,
                (#[trigger] flat_forest(items, open_paths, prefix)[k]).path,
            ) && flat_forest(items, open_paths, prefix)[k].path.len() > prefix.len() by {
            if k < head.len() {
                assert(flat_forest(items, open_paths, prefix)[k] == head[k]);
            } else {
                assert(flat_forest(items, open_paths, prefix)[k] == tail[k - head.len()]);
            }
        }
    }
}

/// A visible item of the last flattening: its full path and the item.
pub struct Flattened {
    pub identifier: Vec<String>,
    pub item: TreeItem,
}

impl Flattened {
    /// Zero based depth. Depth 0 means top level with 0 indentation.
    pub fn depth(&self) -> (r: usize)
        requires
            self.identifier@.len() >= 1,
        ensures
            r == self.identifier@.len() - 1,
    {
        self.identifier.len() - 1
    }
}

/// The rows agree with the mathematical visible list: same length, and each
/// row carries the entry's path and node.
pub open spec fn matches_flat(rows: Seq<Flattened>, entries: Seq<FlatEntry>) -> bool {
    &&& rows.len() == entries.len()
    &&& forall|i: int|
        0 <= i < rows.len() ==> path_view((#[trigger] rows[i]).identifier) == entries[i].path
    &&& forall|i: int| 0 <= i < rows.len() ==> same_item((#[trigger] entries[i]).node, rows[i].item)
}

proof fn lemma_matches_concat(r1: Seq<Flattened>, r2: Seq<Flattened>, e1: Seq<FlatEntry>, e2: Seq<FlatEntry>)
    requires
        matches_flat(r1, e1),
        matches_flat(r2, e2),
    ensures
        matches_flat(r1 + r2, e1 + e2),
{
    assert forall|i: int| 0 <= i < (r1 + r2).len()
        implies path_view((#[trigger] (r1 + r2)[i]).identifier) == (e1 + e2)[i].path
            && same_item((e1 + e2)[i].node, (r1 + r2)[i].item) by {
        if i < r1.len() {
            assert((r1 + r2)[i] == r1[i]);
            assert((e1 + e2)[i] == e1[i]);
        } else {
            assert((r1 + r2)[i] == r2[i - r1.len()]);
            assert((e1 + e2)[i] == e2[i - e1.len()]);
        }
    }
}

/// Get a flat list of all visible items of the given sibling list, under the
/// given path prefix. Never mutates the set of expanded paths or the items.
pub fn flatten(
    open_identifiers: &PathSet,
    items: &Vec<TreeItem>,
    current: &Vec<String>,
) -> (r: Vec<Flattened>)
    ensures
        matches_flat(r@, flat_forest(items@, open_identifiers@, path_view(*current))),
    decreases items@,
{
    let ghost prefix = path_view(*current);
    let mut result: Vec<Flattened> = Vec::new();
    let n = items.len();
    let mut i: usize = 0;
    while i < n
        invariant
            n == items@.len(),
            0 <= i <= n,
            matches_flat(
                result@,
                flat_forest(items@.subrange(0, i as int), open_identifiers@, prefix),
            ),
            prefix == path_view(*current),
        decreases n - i,
    {
        let ghost result_before = result@;
        let item = &items[i];
        let mut child_identifier = current.clone();
        proof {
            assert forall|j: int| 0 <= j < current@.len()
                implies (#[trigger] child_identifier@[j])@ == current@[j]@ by {
                assert(vstd::pervasive::cloned::<String>(current@[j], child_identifier@[j]));
            }
            assert(path_view(child_identifier) =~= prefix);
        }
        child_identifier.push(item.identifier.clone());
        let ghost child_path = prefix.push(item.identifier@);
        proof {
            assert(path_view(child_identifier) =~= child_path);
        }
        let is_expanded = open_identifiers.contains(&child_identifier);

        let row_path = child_identifier.clone();
        proof {
            assert forall|j: int| 0 <= j < child_identifier@.len()
                implies (#[trigger] row_path@[j])@ == child_identifier@[j]@ by {
                assert(vstd::pervasive::cloned::<String>(child_identifier@[j], row_path@[j]));
            }
            assert(path_view(row_path) =~= child_path);
        }
        let row = Flattened { identifier: row_path, item: item.clone() };
        result.push(row);

        if is_expanded {
            proof {
                assert(decreases_to!(items@ => items@[i as int]));
                assert(decreases_to!(items@[i as int] => items@[i as int].children));
                assert(decreases_to!(items@[i as int].children => items@[i as int].children@));
            }
            let mut child_rows = flatten(open_identifiers, &item.children, &child_identifier);
            result.append(&mut child_rows);
        }

        proof {
            let o = open_identifiers@;
            let fi = flat_item(items@[i as int], o, prefix);
            if o.contains(child_path) {
                assert(fi =~= seq![FlatEntry { path: child_path, node: items@[i as int] }]
                    + flat_forest(items@[i as int].children@, o, child_path));
            } else {
                assert(fi =~= seq![FlatEntry { path: child_path, node: items@[i as int] }]);
            }
            let head = seq![row];
            let head_e = seq![FlatEntry { path: child_path, node: items@[i as int] }];
            assert(head.len() == 1 && head[0] == row);
            assert(head_e[0].path == child_path && head_e[0].node == items@[i as int]);
            assert(matches_flat(head, head_e));
            if o.contains(child_path) {
                let child_e = flat_forest(items@[i as int].children@, o, child_path);
                lemma_matches_concat(head, result@.subrange(result_before.len() as int + 1, result@.len() as int), head_e, child_e);
                assert(result@.subrange(result_before.len() as int, result@.len() as int)
                    =~= head + result@.subrange(result_before.len() as int + 1, result@.len() as int));
            } else {
                assert(result@.subrange(result_before.len() as int, result@.len() as int) =~= head);
            }
            assert(matches_flat(result@.subrange(result_before.len() as int, result@.len() as int), fi));
            lemma_flat_forest_snoc(items@, i as int, o, prefix);
            lemma_matches_concat(
                result_before,
                result@.subrange(result_before.len() as int, result@.len() as int),
                flat_forest(items@.subrange(0, i as int), o, prefix),
                fi,
            );
            assert(result@ =~= result_before + result@.subrange(result_before.len() as int, result@.len() as int));
        }
        i += 1;
    }
    proof {
        assert(items@.subrange(0, n as int) =~= items@);
    }
    result
}


/// Whether flattening the example forest under the given expansion set
/// yields exactly the given identifiers: one visible row per expected
/// identifier, each row's own (last) identifier equal to it, in order.
pub fn flatten_works(open_identifiers: &PathSet, expected: &Vec<String>) -> (r: bool)
{
    let items = example();
    let root: Vec<String> = Vec::new();
    let result = flatten(open_identifiers, &items, &root);
    if result.len() != expected.len() {
        return false;
    }
    let n = result.len();
    let mut i: usize = 0;
    while i < n
        invariant
            n == result@.len(),
            n == expected@.len(),
            0 <= i <= n,
        decreases n - i,
    {
        let row = &result[i];
        if row.identifier.len() == 0 {
            return false;
        }
        if row.identifier[row.identifier.len() - 1] != expected[i] {
            return false;
        }
        i += 1;
    }
    true
}

} // verus!
