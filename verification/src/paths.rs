//! Paths: ordered sequences of identifiers from a forest root to a node, and
//! a set of paths used to track which branches are expanded.

use vstd::prelude::*;

verus! {

/// The mathematical value of a path: the sequence of its identifiers' texts.
pub open spec fn path_view(p: Vec<String>) -> Seq<Seq<char>> {
    p@.map_values(|s: String| s@)
}

/// The mathematical value of a list of paths.
pub open spec fn paths_view(v: Vec<Vec<String>>) -> Seq<Seq<Seq<char>>> {
    v@.map_values(|p: Vec<String>| path_view(p))
}

/// Equality of two paths, decided identifier by identifier.
pub fn path_eq(a: &Vec<String>, b: &Vec<String>) -> (r: bool)
    ensures
        r == (path_view(*a) == path_view(*b)),
{
    if a.len() != b.len() {
        assert(path_view(*a).len() != path_view(*b).len());
        return false;
    }
    let n = a.len();
    let mut i: usize = 0;
    while i < n
        invariant
            n == a@.len() == b@.len(),
            0 <= i <= n,
            forall|j: int| 0 <= j < i ==> (#[trigger] a@[j])@ == b@[j]@,
        decreases n - i,
    {
        if a[i] != b[i] {
            assert(path_view(*a)[i as int] != path_view(*b)[i as int]);
            return false;
        }
        i += 1;
    }
    assert(path_view(*a) =~= path_view(*b));
    true
}

/// A copy of a path with the same identifiers.
pub fn clone_path(p: &Vec<String>) -> (r: Vec<String>)
    ensures
        path_view(r) == path_view(*p),
{
    let r = p.clone();
    proof {
        assert forall|j: int| 0 <= j < p@.len() implies (#[trigger] r@[j])@ == p@[j]@ by {
            assert(vstd::pervasive::cloned::<String>(p@[j], r@[j]));
        }
        assert(path_view(r) =~= path_view(*p));
    }
    r
}

/// A finite set of paths, the backing store for the expansion state.
/// Holds each path once.
pub struct PathSet {
    entries: Vec<Vec<String>>,
}

impl View for PathSet {
    type V = Set<Seq<Seq<char>>>;

    closed spec fn view(&self) -> Set<Seq<Seq<char>>> {
        Set::new(|p: Seq<Seq<char>>|
            exists|i: int| 0 <= i < self.entries@.len() && path_view(#[trigger] self.entries@[i]) == p)
    }
}

impl PathSet {
    #[verifier::type_invariant]
    spec fn inv(&self) -> bool {
        forall|i: int, j: int|
            0 <= i < j < self.entries@.len()
                ==> path_view(#[trigger] self.entries@[i]) != path_view(#[trigger] self.entries@[j])
    }

    /// The empty set of paths.
    pub fn new() -> (r: PathSet)
        ensures
            r@ =~= Set::<Seq<Seq<char>>>::empty(),
    {
        PathSet { entries: Vec::new() }
    }

    /// Whether the given path is in the set.
    pub fn contains(&self, p: &Vec<String>) -> (r: bool)
        ensures
            r == self@.contains(path_view(*p)),
    {
        let n = self.entries.len();
        let mut i: usize = 0;
        while i < n
            invariant
                n == self.entries@.len(),
                0 <= i <= n,
                forall|j: int| 0 <= j < i ==> path_view(#[trigger] self.entries@[j]) != path_view(*p),
            decreases n - i,
        {
            if path_eq(&self.entries[i], p) {
                return true;
            }
            i += 1;
        }
        false
    }

    /// Number of paths in the set.
    pub fn len(&self) -> (r: usize)
        ensures
            r == 0 <==> self@ =~= Set::<Seq<Seq<char>>>::empty(),
    {
        proof {
            use_type_invariant(self);
            if self.entries@.len() > 0 {
                assert(self@.contains(path_view(self.entries@[0])));
            }
        }
        self.entries.len()
    }

    /// Whether the set is empty.
    pub fn is_empty(&self) -> (r: bool)
        ensures
            r <==> self@ =~= Set::<Seq<Seq<char>>>::empty(),
    {
        self.len() == 0
    }

    /// Insert a path; reports whether it was newly inserted.
    pub fn insert(&mut self, p: Vec<String>) -> (r: bool)
        ensures
            final(self)@ =~= old(self)@.insert(path_view(p)),
            r == !old(self)@.contains(path_view(p)),
    {
        proof {
            use_type_invariant(&*self);
        }
        if self.contains(&p) {
            assert(self@ =~= old(self)@.insert(path_view(p)));
            false
        } else {
            let ghost pv = path_view(p);
            let mut entries: Vec<Vec<String>> = Vec::new();
            core::mem::swap(&mut entries, &mut self.entries);
            entries.push(p);
            core::mem::swap(&mut entries, &mut self.entries);
            proof {
                assert forall|q: Seq<Seq<char>>| self@.contains(q)
                    implies old(self)@.insert(pv).contains(q) by {
                    let k = choose|k: int|
                        0 <= k < self.entries@.len() && path_view(#[trigger] self.entries@[k]) == q;
                    if k < self.entries@.len() - 1 {
                        assert(path_view(old(self).entries@[k]) == q);
                    }
                }
                assert(path_view(self.entries@[self.entries@.len() - 1]) == pv);
                assert(self@.contains(pv));
                assert forall|q: Seq<Seq<char>>| old(self)@.contains(q)
                    implies self@.contains(q) by {
                    let k = choose|k: int|
                        0 <= k < old(self).entries@.len()
                            && path_view(#[trigger] old(self).entries@[k]) == q;
                    assert(path_view(self.entries@[k]) == q);
                }
                assert(self@ =~= old(self)@.insert(pv));
            }
            true
        }
    }

    /// Remove a path; reports whether it was present.
    pub fn remove(&mut self, p: &Vec<String>) -> (r: bool)
        ensures
            final(self)@ =~= old(self)@.remove(path_view(*p)),
            r == old(self)@.contains(path_view(*p)),
    {
        proof {
            use_type_invariant(&*self);
        }
        let n = self.entries.len();
        let mut i: usize = 0;
        while i < n
            invariant
                n == self.entries@.len(),
                0 <= i <= n,
                *self == *old(self),
                forall|j: int| 0 <= j < i ==> path_view(#[trigger] self.entries@[j]) != path_view(*p),
            decreases n - i,
        {
            if path_eq(&self.entries[i], p) {
                proof {
                    use_type_invariant(&*self);
                }
                let mut entries: Vec<Vec<String>> = Vec::new();
                core::mem::swap(&mut entries, &mut self.entries);
                entries.remove(i);
                core::mem::swap(&mut entries, &mut self.entries);
                proof {
                    let pv = path_view(*p);
                    assert forall|q: Seq<Seq<char>>| self@.contains(q)
                        implies old(self)@.remove(pv).contains(q) by {
                        let k = choose|k: int|
                            0 <= k < self.entries@.len() && path_view(#[trigger] self.entries@[k]) == q;
                        if k < i {
                            assert(path_view(old(self).entries@[k]) == q);
                        } else {
                            assert(path_view(old(self).entries@[k + 1]) == q);
                        }
                    }
                    assert forall|q: Seq<Seq<char>>| old(self)@.remove(pv).contains(q)
                        implies self@.contains(q) by {
                        let k = choose|k: int|
                            0 <= k < old(self).entries@.len()
                                && path_view(#[trigger] old(self).entries@[k]) == q;
                        assert(k != i);
                        if k < i {
                            assert(path_view(self.entries@[k]) == q);
                        } else {
                            assert(path_view(self.entries@[k - 1]) == q);
                        }
                    }
                    assert(self@ =~= old(self)@.remove(pv));
                }
                return true;
            }
            i += 1;
        }
        assert(self@ =~= old(self)@.remove(path_view(*p)));
        false
    }

    /// Whether the two sets hold the same paths.
    pub fn set_eq(&self, other: &PathSet) -> (r: bool)
        ensures
            r == (self@ =~= other@),
    {
        let n = self.entries.len();
        let mut i: usize = 0;
        while i < n
            invariant
                n == self.entries@.len(),
                0 <= i <= n,
                forall|j: int| 0 <= j < i ==> other@.contains(path_view(#[trigger] self.entries@[j])),
            decreases n - i,
        {
            if !other.contains(&self.entries[i]) {
                proof {
                    assert(self@.contains(path_view(self.entries@[i as int])));
                }
                return false;
            }
            i += 1;
        }
        let m = other.entries.len();
        let mut k: usize = 0;
        while k < m
            invariant
                m == other.entries@.len(),
                0 <= k <= m,
                forall|j: int| 0 <= j < k ==> self@.contains(path_view(#[trigger] other.entries@[j])),
            decreases m - k,
        {
            if !self.contains(&other.entries[k]) {
                proof {
                    assert(other@.contains(path_view(other.entries@[k as int])));
                }
                return false;
            }
            k += 1;
        }
        proof {
            assert forall|q: Seq<Seq<char>>| self@.contains(q) implies other@.contains(q) by {
                let j = choose|j: int|
                    0 <= j < self.entries@.len() && path_view(#[trigger] self.entries@[j]) == q;
                assert(other@.contains(path_view(self.entries@[j])));
            }
            assert forall|q: Seq<Seq<char>>| other@.contains(q) implies self@.contains(q) by {
                let j = choose|j: int|
                    0 <= j < other.entries@.len() && path_view(#[trigger] other.entries@[j]) == q;
                assert(self@.contains(path_view(other.entries@[j])));
            }
        }
        true
    }

    /// Remove every path.
    pub fn clear(&mut self)
        ensures
            final(self)@ =~= Set::<Seq<Seq<char>>>::empty(),
    {
        let mut entries: Vec<Vec<String>> = Vec::new();
        core::mem::swap(&mut entries, &mut self.entries);
        assert(self@ =~= Set::<Seq<Seq<char>>>::empty());
    }
}

} // verus!
