//! The tree builder: turns a flat, ordered, duplicate-free set of
//! hierarchical entries (component paths plus a per-path branch capability)
//! into a forest, sorted at every level: branch nodes first, then leaves,
//! each kind ascending by identifier.

use vstd::prelude::*;

use crate::flatten::path_prefix_of;
use crate::item::{well_formed_forest, well_formed_item, TreeError, TreeItem};
use crate::order::{lemma_text_lt_irrefl, lemma_text_lt_trans, text_lt, text_lt_exec};
use crate::paths::{path_eq, path_view};

verus! {

/// One entry handed to the builder: the path below the root, split into
/// components, and whether the external entry source calls it a branch.
pub struct Entry {
    pub components: Vec<String>,
    pub is_branch: bool,
}

/// The mathematical value of an entry list.
pub open spec fn entry_views(entries: Seq<Entry>) -> Seq<(Seq<Seq<char>>, bool)> {
    entries.map_values(|e: Entry| (path_view(e.components), e.is_branch))
}

/// No two entries name the same path.
pub open spec fn distinct_entries(es: Seq<(Seq<Seq<char>>, bool)>) -> bool {
    forall|j1: int, j2: int| 0 <= j1 < j2 < es.len() ==> (#[trigger] es[j1]).0 != (#[trigger] es[j2]).0
}

/// Some entry names this path.
pub open spec fn has_entry(es: Seq<(Seq<Seq<char>>, bool)>, p: Seq<Seq<char>>) -> bool {
    exists|j: int| 0 <= j < es.len() && (#[trigger] es[j]).0 == p
}

/// Some entry names this path and calls it a branch.
pub open spec fn entry_branch(es: Seq<(Seq<Seq<char>>, bool)>, p: Seq<Seq<char>>) -> bool {
    exists|j: int| 0 <= j < es.len() && (#[trigger] es[j]).0 == p && es[j].1
}

/// Among the first `j` entries, one names `prefix` extended by `id`.
pub open spec fn node_has_entry(
    es: Seq<(Seq<Seq<char>>, bool)>,
    prefix: Seq<Seq<char>>,
    id: Seq<char>,
    j: int,
) -> bool {
    exists|jj: int| 0 <= jj < j && (#[trigger] es[jj]).0 == prefix.push(id)
}

/// Entry `j` is a direct child of `prefix`: one component longer.
pub open spec fn child_entry_at(es: Seq<(Seq<Seq<char>>, bool)>, prefix: Seq<Seq<char>>, j: int) -> bool {
    &&& 0 <= j < es.len()
    &&& es[j].0.len() == prefix.len() + 1
    &&& path_prefix_of(prefix, es[j].0)
}

/// The nodes are exactly the direct child entries of `prefix` among the
/// first `j` entries, labelled by their last component, with children
/// matching recursively wherever the entry is a branch.
pub open spec fn forest_matches_upto(
    nodes: Seq<TreeItem>,
    es: Seq<(Seq<Seq<char>>, bool)>,
    prefix: Seq<Seq<char>>,
    j: int,
) -> bool
    decreases nodes,
{
    &&& forall|i: int|
        0 <= i < nodes.len() ==> node_has_entry(es, prefix, (#[trigger] nodes[i]).identifier@, j)
    &&& forall|jj: int|
        0 <= jj < j && #[trigger] child_entry_at(es, prefix, jj) ==> exists|i: int|
            0 <= i < nodes.len() && (#[trigger] nodes[i]).identifier@ == es[jj].0.last()
    &&& forall|i: int| 0 <= i < nodes.len() ==> (#[trigger] nodes[i]).text@ == nodes[i].identifier@
    &&& forall|i: int|
        0 <= i < nodes.len() ==> (entry_branch(es, prefix.push((#[trigger] nodes[i]).identifier@))
            ==> forest_matches_upto(
            nodes[i].children@,
            es,
            prefix.push(nodes[i].identifier@),
            es.len() as int,
        ))
    &&& forall|i: int|
        0 <= i < nodes.len() ==> (!entry_branch(es, prefix.push((#[trigger] nodes[i]).identifier@))
            ==> nodes[i].children@.len() == 0)
}

/// The nodes are exactly the direct child entries of `prefix`, recursively.
pub open spec fn forest_matches(
    nodes: Seq<TreeItem>,
    es: Seq<(Seq<Seq<char>>, bool)>,
    prefix: Seq<Seq<char>>,
) -> bool {
    forest_matches_upto(nodes, es, prefix, es.len() as int)
}

/// The sort policy: branch nodes come before leaf nodes; within one kind,
/// ascending by identifier.
pub open spec fn node_precedes(a: TreeItem, b: TreeItem) -> bool {
    if a.children@.len() > 0 && b.children@.len() == 0 {
        true
    } else if a.children@.len() == 0 && b.children@.len() > 0 {
        false
    } else {
        text_lt(a.identifier@, b.identifier@)
    }
}

/// One sibling list is sorted by the policy.
pub open spec fn sorted_level(nodes: Seq<TreeItem>) -> bool {
    forall|i: int, j: int|
        0 <= i < j < nodes.len() ==> !node_precedes(#[trigger] nodes[j], #[trigger] nodes[i])
}

/// Every sibling list of the forest is sorted by the policy.
pub open spec fn sorted_forest(nodes: Seq<TreeItem>) -> bool
    decreases nodes,
{
    &&& sorted_level(nodes)
    &&& forall|i: int| 0 <= i < nodes.len() ==> sorted_forest((#[trigger] nodes[i]).children@)
}

/// The sort policy is transitive.
proof fn lemma_precedes_trans(a: TreeItem, b: TreeItem, c: TreeItem)
    requires
        node_precedes(a, b),
        node_precedes(b, c),
    ensures
        node_precedes(a, c),
{
    if a.children@.len() > 0 && b.children@.len() > 0 && c.children@.len() > 0 {
        lemma_text_lt_trans(a.identifier@, b.identifier@, c.identifier@);
    }
    if a.children@.len() == 0 && b.children@.len() == 0 && c.children@.len() == 0 {
        lemma_text_lt_trans(a.identifier@, b.identifier@, c.identifier@);
    }
}

/// The sort policy is irreflexive.
proof fn lemma_precedes_irrefl(a: TreeItem)
    ensures
        !node_precedes(a, a),
{
    lemma_text_lt_irrefl(a.identifier@);
}

/// Decide the sort policy between two built nodes.
fn precedes_exec(a: &TreeItem, b: &TreeItem) -> (r: bool)
    ensures
        r == node_precedes(*a, *b),
{
    let a_branch = a.children.len() > 0;
    let b_branch = b.children.len() > 0;
    if a_branch && !b_branch {
        true
    } else if !a_branch && b_branch {
        false
    } else {
        text_lt_exec(&a.identifier, &b.identifier)
    }
}

/// Whether `p` is a prefix of `q`, component by component.
fn path_is_prefix(p: &Vec<String>, q: &Vec<String>) -> (r: bool)
    ensures
        r == path_prefix_of(path_view(*p), path_view(*q)),
{
    if p.len() > q.len() {
        return false;
    }
    let n = p.len();
    let mut k: usize = 0;
    while k < n
        invariant
            n == p@.len() <= q@.len(),
            0 <= k <= n,
            forall|j: int| 0 <= j < k ==> (#[trigger] p@[j])@ == q@[j]@,
        decreases n - k,
    {
        if p[k] != q[k] {
            assert(path_view(*q)[k as int] != path_view(*p)[k as int]);
            return false;
        }
        k += 1;
    }
    true
}

/// Inserting one more node for entry `j` keeps the level consistent.
proof fn lemma_level_insert(
    nodes: Seq<TreeItem>,
    node: TreeItem,
    pos: int,
    es: Seq<(Seq<Seq<char>>, bool)>,
    prefix: Seq<Seq<char>>,
    j: int,
)
    requires
        0 <= pos <= nodes.len(),
        0 <= j < es.len(),
        distinct_entries(es),
        forest_matches_upto(nodes, es, prefix, j),
        sorted_level(nodes),
        forall|i1: int, i2: int|
            0 <= i1 < i2 < nodes.len() ==> (#[trigger] nodes[i1].identifier)@
                != (#[trigger] nodes[i2].identifier)@,
        child_entry_at(es, prefix, j),
        es[j].0 == prefix.push(node.identifier@),
        node.text@ == node.identifier@,
        entry_branch(es, prefix.push(node.identifier@)) ==> forest_matches_upto(
            node.children@,
            es,
            prefix.push(node.identifier@),
            es.len() as int,
        ),
        !entry_branch(es, prefix.push(node.identifier@)) ==> node.children@.len() == 0,
        forall|k: int| 0 <= k < pos ==> !node_precedes(node, #[trigger] nodes[k]),
        pos == nodes.len() || node_precedes(node, nodes[pos]),
    ensures
        forest_matches_upto(nodes.insert(pos, node), es, prefix, j + 1),
        sorted_level(nodes.insert(pos, node)),
        forall|i1: int, i2: int|
            0 <= i1 < i2 < nodes.insert(pos, node).len() ==> (#[trigger] nodes.insert(
                pos,
                node,
            )[i1].identifier)@ != (#[trigger] nodes.insert(pos, node)[i2].identifier)@,
{
    let n2 = nodes.insert(pos, node);
    assert(n2.len() == nodes.len() + 1);
    assert(n2[pos] == node);
    assert forall|i: int| 0 <= i < n2.len() && i != pos implies n2[i] == nodes[
        if i < pos {
            i
        } else {
            i - 1
        }
    ] by {}

    // distinct identifiers: the new node's entry is distinct from each
    // existing node's entry, so their last components differ too.
    assert forall|i: int| 0 <= i < nodes.len()
        implies (#[trigger] nodes[i]).identifier@ != node.identifier@ by {
        assert(node_has_entry(es, prefix, nodes[i].identifier@, j));
        let jj = choose|jj: int|
            0 <= jj < j && (#[trigger] es[jj]).0 == prefix.push(nodes[i].identifier@);
        if nodes[i].identifier@ == node.identifier@ {
            assert(es[jj].0 == es[j].0);
        }
    }

    // sortedness: elements before `pos` do not come after the new node, and
    // by transitivity nothing at or after `pos` precedes it.
    assert forall|i1: int, i2: int| 0 <= i1 < i2 < n2.len()
        implies !node_precedes(n2[i2], n2[i1]) by {
        if i1 == pos {
            assert(n2[i2] == nodes[i2 - 1]);
            if node_precedes(n2[i2], node) {
                assert(pos < nodes.len());
                lemma_precedes_trans(nodes[i2 - 1], node, nodes[pos]);
                if i2 - 1 == pos {
                    lemma_precedes_irrefl(nodes[pos]);
                } else {
                    assert(!node_precedes(nodes[i2 - 1], nodes[pos]));
                }
                assert(false);
            }
        } else if i2 == pos {
            assert(n2[i1] == nodes[i1]);
            assert(!node_precedes(node, nodes[i1]));
        }
    }

    // the matching clauses, index by index
    assert forall|i: int| 0 <= i < n2.len()
        implies node_has_entry(es, prefix, (#[trigger] n2[i]).identifier@, j + 1) by {
        if i == pos {
            assert(es[j].0 == prefix.push(n2[i].identifier@));
        } else {
            let io = if i < pos { i } else { i - 1 };
            assert(node_has_entry(es, prefix, nodes[io].identifier@, j));
            let jj = choose|jj: int|
                0 <= jj < j && (#[trigger] es[jj]).0 == prefix.push(nodes[io].identifier@);
            assert(es[jj].0 == prefix.push(n2[i].identifier@));
        }
    }
    assert forall|jj: int| 0 <= jj < j + 1 && #[trigger] child_entry_at(es, prefix, jj)
        implies exists|i: int|
        0 <= i < n2.len() && (#[trigger] n2[i]).identifier@ == es[jj].0.last() by {
        if jj == j {
            assert(es[j].0.last() == node.identifier@);
            assert(n2[pos].identifier@ == es[jj].0.last());
        } else {
            let i = choose|i: int|
                0 <= i < nodes.len() && (#[trigger] nodes[i]).identifier@ == es[jj].0.last();
            let i2 = if i < pos { i } else { i + 1 };
            assert(n2[i2].identifier@ == es[jj].0.last());
        }
    }
    assert forall|i: int| 0 <= i < n2.len() implies (#[trigger] n2[i]).text@
        == n2[i].identifier@ by {}
    assert forall|i: int| 0 <= i < n2.len()
        implies (entry_branch(es, prefix.push((#[trigger] n2[i]).identifier@))
            ==> forest_matches_upto(
            n2[i].children@,
            es,
            prefix.push(n2[i].identifier@),
            es.len() as int,
        )) && (!entry_branch(es, prefix.push(n2[i].identifier@)) ==> n2[i].children@.len()
            == 0) by {}
}

/// Build the sibling list below `prefix`, recursively. `fuel` bounds the
/// remaining depth of every entry.
fn build_level(entries: &Vec<Entry>, prefix: &Vec<String>, fuel: usize) -> (r: Vec<TreeItem>)
    requires
        distinct_entries(entry_views(entries@)),
        forall|j: int|
            0 <= j < entries@.len() ==> (#[trigger] entry_views(entries@)[j]).0.len() <= path_view(
                *prefix,
            ).len() + fuel,
    ensures
        forest_matches(r@, entry_views(entries@), path_view(*prefix)),
        sorted_forest(r@),
        well_formed_forest(r@),
    decreases fuel,
{
    let ghost es = entry_views(entries@);
    let ghost pv = path_view(*prefix);
    let mut nodes: Vec<TreeItem> = Vec::new();
    let n = entries.len();
    let mut j: usize = 0;
    while j < n
        invariant
            n == entries@.len(),
            0 <= j <= n,
            es == entry_views(entries@),
            pv == path_view(*prefix),
            distinct_entries(es),
            forall|jj: int|
                0 <= jj < n ==> (#[trigger] es[jj]).0.len() <= pv.len() + fuel,
            forest_matches_upto(nodes@, es, pv, j as int),
            sorted_level(nodes@),
            forall|i1: int, i2: int|
                0 <= i1 < i2 < nodes@.len() ==> (#[trigger] nodes@[i1].identifier)@
                    != (#[trigger] nodes@[i2].identifier)@,
            forall|i: int| 0 <= i < nodes@.len() ==> well_formed_item(#[trigger] nodes@[i]),
            forall|i: int| 0 <= i < nodes@.len() ==> sorted_forest((#[trigger] nodes@[i]).children@),
        decreases n - j,
    {
        let is_child = entries[j].components.len() >= 1 && entries[j].components.len() - 1
            == prefix.len() && path_is_prefix(prefix, &entries[j].components);
        if is_child {
            proof {
                assert(child_entry_at(es, pv, j as int));
            }
            let c: String = entries[j].components[entries[j].components.len() - 1].clone();
            proof {
                assert(c@ == entries@[j as int].components@[entries@[j as int].components@.len()
                    - 1]@);
                assert(es[j as int].0 =~= pv.push(c@));
            }
            let children: Vec<TreeItem> = if entries[j].is_branch {
                let sub_prefix: Vec<String> = crate::paths::clone_path(&entries[j].components);
                proof {
                    assert(path_view(sub_prefix) == es[j as int].0);
                    assert(forall|jj: int|
                        0 <= jj < n ==> (#[trigger] es[jj]).0.len() <= path_view(sub_prefix).len()
                            + (fuel - 1));
                }
                build_level(entries, &sub_prefix, fuel - 1)
            } else {
                Vec::new()
            };
            let text: String = c.clone();
            let node = TreeItem { identifier: c, text, children };
            proof {
                if entries@[j as int].is_branch {
                    assert(entry_branch(es, pv.push(node.identifier@)));
                } else {
                    assert forall|jj: int|
                        0 <= jj < es.len() && (#[trigger] es[jj]).0 == pv.push(node.identifier@)
                        implies !es[jj].1 by {
                        assert(es[jj].0 == es[j as int].0);
                        if jj != j {
                            assert(false);
                        }
                    }
                    assert(!entry_branch(es, pv.push(node.identifier@)));
                    assert(forest_matches_upto(
                        node.children@,
                        es,
                        pv.push(node.identifier@),
                        es.len() as int,
                    ) == forest_matches_upto(
                        Seq::<TreeItem>::empty(),
                        es,
                        pv.push(node.identifier@),
                        es.len() as int,
                    ));
                }
                assert(well_formed_item(node));
                assert(sorted_forest(node.children@));
            }
            // insert at the first position the new node precedes
            let mut pos: usize = 0;
            while pos < nodes.len() && !precedes_exec(&node, &nodes[pos])
                invariant
                    0 <= pos <= nodes@.len(),
                    forall|k: int| 0 <= k < pos ==> !node_precedes(node, #[trigger] nodes@[k]),
                ensures
                    0 <= pos <= nodes@.len(),
                    forall|k: int| 0 <= k < pos ==> !node_precedes(node, #[trigger] nodes@[k]),
                    pos == nodes@.len() || node_precedes(node, nodes@[pos as int]),
                decreases nodes@.len() - pos,
            {
                pos += 1;
            }
            proof {
                lemma_level_insert(nodes@, node, pos as int, es, pv, j as int);
            }
            nodes.insert(pos, node);
        } else {
            proof {
                assert(!child_entry_at(es, pv, j as int));
                assert(forest_matches_upto(nodes@, es, pv, j as int + 1));
            }
        }
        j += 1;
    }
    proof {
        assert(well_formed_forest(nodes@));
        assert(sorted_forest(nodes@));
    }
    nodes
}

/// Build a forest from a set of entries. Fails with `InvalidEntry` iff some
/// entry has no components to derive a label from, else with
/// `DuplicateIdentifier` iff two entries name the same path. Otherwise the
/// forest holds exactly one node per chain of entries, labelled by its last
/// component, sorted at every level: branches first, then leaves, each kind
/// ascending by identifier.
pub fn build_forest(entries: &Vec<Entry>) -> (r: Result<Vec<TreeItem>, TreeError>)
    ensures
        match r {
            Ok(forest) => {
                &&& forall|j: int|
                    0 <= j < entries@.len() ==> (#[trigger] entry_views(entries@)[j]).0.len() >= 1
                &&& distinct_entries(entry_views(entries@))
                &&& forest_matches(forest@, entry_views(entries@), Seq::empty())
                &&& sorted_forest(forest@)
                &&& well_formed_forest(forest@)
            },
            Err(e) => match e {
                TreeError::InvalidEntry => exists|j: int|
                    0 <= j < entries@.len() && (#[trigger] entry_views(entries@)[j]).0.len() == 0,
                TreeError::DuplicateIdentifier => {
                    &&& forall|j: int|
                        0 <= j < entries@.len() ==> (#[trigger] entry_views(entries@)[j]).0.len()
                            >= 1
                    &&& !distinct_entries(entry_views(entries@))
                },
            },
        },
{
    let ghost es = entry_views(entries@);
    let n = entries.len();

    // every entry must have a label to derive
    let mut j: usize = 0;
    while j < n
        invariant
            n == entries@.len(),
            es == entry_views(entries@),
            0 <= j <= n,
            forall|k: int| 0 <= k < j ==> (#[trigger] es[k]).0.len() >= 1,
        decreases n - j,
    {
        if entries[j].components.len() == 0 {
            assert(es[j as int].0.len() == 0);
            return Err(TreeError::InvalidEntry);
        }
        j += 1;
    }

    // no two entries may name the same path
    let mut i: usize = 1;
    while i < n
        invariant
            n == entries@.len(),
            es == entry_views(entries@),
            1 <= i,
            forall|k: int| 0 <= k < n ==> (#[trigger] es[k]).0.len() >= 1,
            forall|k: int, l: int| 0 <= k < l < i && l < n ==> (#[trigger] es[k]).0 != (#[trigger] es[l]).0,
        decreases n - i,
    {
        let mut k: usize = 0;
        while k < i
            invariant
                i < n == entries@.len(),
                es == entry_views(entries@),
                0 <= k <= i,
                forall|l: int| 0 <= l < n ==> (#[trigger] es[l]).0.len() >= 1,
                forall|l: int| 0 <= l < k ==> (#[trigger] es[l]).0 != es[i as int].0,
            decreases i - k,
        {
            if path_eq(&entries[k].components, &entries[i].components) {
                assert(es[k as int].0 == es[i as int].0);
                return Err(TreeError::DuplicateIdentifier);
            }
            k += 1;
        }
        i += 1;
    }

    // depth bound for the recursion
    let mut fuel: usize = 0;
    let mut m: usize = 0;
    while m < n
        invariant
            n == entries@.len(),
            es == entry_views(entries@),
            0 <= m <= n,
            forall|k: int| 0 <= k < m ==> (#[trigger] es[k]).0.len() <= fuel,
        decreases n - m,
    {
        if entries[m].components.len() > fuel {
            fuel = entries[m].components.len();
        }
        m += 1;
    }

    proof {
        assert(forall|k: int| 0 <= k < es.len() ==> (#[trigger] es[k]).0.len() >= 1);
        assert(distinct_entries(es));
        assert(forall|k: int|
            0 <= k < entries@.len() ==> (#[trigger] entry_views(entries@)[k]).0.len() >= 1);
    }
    let root: Vec<String> = Vec::new();
    proof {
        assert(path_view(root) =~= Seq::<Seq<char>>::empty());
    }
    Ok(build_level(entries, &root, fuel))
}

} // verus!
