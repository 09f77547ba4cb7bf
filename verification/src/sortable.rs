//! Sortable paths: a path split into components together with the entry
//! source's answer to "is this a branch", ordered directories-first and then
//! lexicographically by components.

use vstd::prelude::*;

use crate::order::{text_lt, text_lt_exec};
use crate::paths::path_view;

verus! {

/// Strict lexicographic order on component paths.
pub open spec fn path_lt(a: Seq<Seq<char>>, b: Seq<Seq<char>>) -> bool
    decreases a.len(),
{
    if b.len() == 0 {
        false
    } else if a.len() == 0 {
        true
    } else if a[0] != b[0] {
        text_lt(a[0], b[0])
    } else {
        path_lt(a.subrange(1, a.len() as int), b.subrange(1, b.len() as int))
    }
}

/// Skipping a common prefix does not change the comparison.
proof fn lemma_path_lt_skip(a: Seq<Seq<char>>, b: Seq<Seq<char>>, i: int)
    requires
        0 <= i <= a.len(),
        i <= b.len(),
        forall|j: int| 0 <= j < i ==> a[j] == b[j],
    ensures
        path_lt(a, b) == path_lt(a.subrange(i, a.len() as int), b.subrange(i, b.len() as int)),
    decreases i,
{
    if i > 0 {
        let a1 = a.subrange(1, a.len() as int);
        let b1 = b.subrange(1, b.len() as int);
        lemma_path_lt_skip(a1, b1, i - 1);
        assert(a1.subrange(i - 1, a1.len() as int) =~= a.subrange(i, a.len() as int));
        assert(b1.subrange(i - 1, b1.len() as int) =~= b.subrange(i, b.len() as int));
    } else {
        assert(a.subrange(0, a.len() as int) =~= a);
        assert(b.subrange(0, b.len() as int) =~= b);
    }
}

/// A path with the branch answer already looked up, so that ordering is a
/// pure function of the value.
#[derive(Debug)]
pub struct SortablePath {
    pub components: Vec<String>,
    pub dir: bool,
}

/// Directories come before files; within one kind, paths are compared
/// lexicographically.
pub open spec fn sortable_precedes(a: SortablePath, b: SortablePath) -> bool {
    if a.dir && !b.dir {
        true
    } else if !a.dir && b.dir {
        false
    } else {
        path_lt(path_view(a.components), path_view(b.components))
    }
}

impl SortablePath {
    /// Whether the entry source called this path a branch.
    pub fn is_dir(&self) -> (r: bool)
        ensures
            r == self.dir,
    {
        self.dir
    }

    /// Whether this path sorts strictly before the other: directories
    /// first, then lexicographic by components.
    pub fn precedes(&self, other: &SortablePath) -> (r: bool)
        ensures
            r == sortable_precedes(*self, *other),
    {
        if self.dir && !other.dir {
            return true;
        }
        if !self.dir && other.dir {
            return false;
        }
        let a = &self.components;
        let b = &other.components;
        let na = a.len();
        let nb = b.len();
        let mut i: usize = 0;
        while i < na && i < nb
            invariant
                self.dir == other.dir,
                a == &self.components,
                b == &other.components,
                na == a@.len(),
                nb == b@.len(),
                0 <= i <= na,
                i <= nb,
                forall|j: int| 0 <= j < i ==> (#[trigger] a@[j])@ == b@[j]@,
            decreases na - i,
        {
            if a[i] != b[i] {
                proof {
                    lemma_path_lt_skip(path_view(*a), path_view(*b), i as int);
                    let at = path_view(*a).subrange(i as int, a@.len() as int);
                    let bt = path_view(*b).subrange(i as int, b@.len() as int);
                    assert(at[0] == a@[i as int]@ && bt[0] == b@[i as int]@);
                }
                return text_lt_exec(&a[i], &b[i]);
            }
            i += 1;
        }
        proof {
            lemma_path_lt_skip(path_view(*a), path_view(*b), i as int);
            let at = path_view(*a).subrange(i as int, a@.len() as int);
            let bt = path_view(*b).subrange(i as int, b@.len() as int);
            assert(at.len() == 0 || bt.len() == 0);
        }
        na < nb
    }
}

/// What the builder's entry source must answer for a path: whether it is a
/// branch, and how to extend it by one component.
pub trait PathLike: Sized {
    fn is_dir(&self) -> bool;

    fn join(&self, component: &String, dir: bool) -> Self;
}

impl PathLike for SortablePath {
    fn is_dir(&self) -> (r: bool) {
        self.dir
    }

    fn join(&self, component: &String, dir: bool) -> (r: Self) {
        let mut components = crate::paths::clone_path(&self.components);
        components.push(component.clone());
        SortablePath { components, dir }
    }
}

} // verus!
