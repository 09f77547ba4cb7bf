//! Tree items: an identifier, a display text and an ordered list of children.
//! Sibling identifiers are unique; constructors refuse duplicates.

use vstd::prelude::*;
use vstd::string::StrSliceExecFns;

verus! {

/// Error taxonomy of the crate: construction-time failures only.
/// Every navigation or viewport operation is total and reports changes
/// through a boolean instead.
#[derive(Clone, Copy, Debug, PartialEq, Eq, Structural)]
pub enum TreeError {
    /// Two siblings would share one identifier.
    DuplicateIdentifier,
    /// An entry handed to the builder has no component to derive a label from.
    InvalidEntry,
}

/// One node of the tree: an identifier (unique among its siblings), the text
/// shown for it, and its ordered children. A node with no children is a leaf;
/// having children, not a separate flag, is what makes a node expandable.
#[derive(Debug)]
pub struct TreeItem {
    pub identifier: String,
    pub text: String,
    pub children: Vec<TreeItem>,
}

/// Structural equality of two items: same identifier, text and children.
pub open spec fn same_item(a: TreeItem, b: TreeItem) -> bool
    decreases a,
{
    &&& a.identifier@ == b.identifier@
    &&& a.text@ == b.text@
    &&& a.children@.len() == b.children@.len()
    &&& forall|i: int|
        0 <= i < a.children@.len() ==> same_item(#[trigger] a.children@[i], b.children@[i])
}

/// The identifiers of one sibling list are pairwise distinct.
pub open spec fn distinct_identifiers(items: Seq<TreeItem>) -> bool {
    forall|i: int, j: int|
        0 <= i < j < items.len()
            ==> (#[trigger] items[i].identifier)@ != (#[trigger] items[j].identifier)@
}

/// Well-formed item: every sibling list below it has distinct identifiers.
pub open spec fn well_formed_item(item: TreeItem) -> bool
    decreases item,
{
    &&& distinct_identifiers(item.children@)
    &&& forall|i: int|
        0 <= i < item.children@.len() ==> well_formed_item(#[trigger] item.children@[i])
}

/// Well-formed forest: distinct top-level identifiers, well-formed items.
pub open spec fn well_formed_forest(items: Seq<TreeItem>) -> bool {
    &&& distinct_identifiers(items)
    &&& forall|i: int| 0 <= i < items.len() ==> well_formed_item(#[trigger] items[i])
}

/// Number of line breaks in a text.
pub open spec fn count_newlines(s: Seq<char>) -> nat
    decreases s.len(),
{
    if s.len() == 0 {
        0
    } else {
        count_newlines(s.drop_last()) + if s.last() == '\n' {
            1nat
        } else {
            0nat
        }
    }
}

/// The rendered height of an item: one row per line of its text,
/// saturated at the machine limit.
pub open spec fn item_height(item: TreeItem) -> nat {
    if count_newlines(item.text@) + 1 > usize::MAX {
        usize::MAX as nat
    } else {
        count_newlines(item.text@) + 1
    }
}

impl TreeItem {
    /// Create an item without children; this cannot fail.
    pub fn new_leaf(identifier: String, text: String) -> (r: TreeItem)
        ensures
            r.identifier@ == identifier@,
            r.text@ == text@,
            r.children@.len() == 0,
            well_formed_item(r),
    {
        TreeItem { identifier, text, children: Vec::new() }
    }

    /// Create an item with children. Fails with `DuplicateIdentifier` iff two
    /// of the children share an identifier; nothing else can fail.
    pub fn new(identifier: String, text: String, children: Vec<TreeItem>) -> (r: Result<
        TreeItem,
        TreeError,
    >)
        ensures
            match r {
                Ok(item) => {
                    &&& distinct_identifiers(children@)
                    &&& item.identifier@ == identifier@
                    &&& item.text@ == text@
                    &&& item.children@ == children@
                    &&& well_formed_forest(children@) ==> well_formed_item(item)
                },
                Err(e) => e == TreeError::DuplicateIdentifier && !distinct_identifiers(children@),
            },
    {
        let n = children.len();
        let mut i: usize = 1;
        while i < n
            invariant
                n == children@.len(),
                1 <= i,
                forall|k: int, l: int|
                    0 <= k < l < i && l < n
                        ==> (#[trigger] children@[k].identifier)@
                            != (#[trigger] children@[l].identifier)@,
            decreases n - i,
        {
            let mut j: usize = 0;
            while j < i
                invariant
                    i < n == children@.len(),
                    0 <= j <= i,
                    forall|k: int|
                        0 <= k < j
                            ==> (#[trigger] children@[k].identifier)@ != children@[i as int].identifier@,
                decreases i - j,
            {
                if children[j].identifier == children[i].identifier {
                    return Err(TreeError::DuplicateIdentifier);
                }
                j += 1;
            }
            i += 1;
        }
        Ok(TreeItem { identifier, text, children })
    }

    /// A reference to the identifier.
    pub fn identifier(&self) -> (r: &String)
        ensures
            r@ == self.identifier@,
    {
        &self.identifier
    }

    /// A reference to the ordered children.
    pub fn children(&self) -> (r: &Vec<TreeItem>)
        ensures
            r@ == self.children@,
    {
        &self.children
    }

    /// A reference to a child by index.
    pub fn child(&self, index: usize) -> (r: Option<&TreeItem>)
        ensures
            match r {
                Some(c) => index < self.children@.len() && *c == self.children@[index as int],
                None => index >= self.children@.len(),
            },
    {
        if index < self.children.len() {
            Some(&self.children[index])
        } else {
            None
        }
    }

    /// The number of screen rows this item occupies: one per line of text.
    pub fn height(&self) -> (r: usize)
        ensures
            r as nat == item_height(*self),
    {
        let s = self.text.as_str();
        let n = s.unicode_len();
        let mut count: usize = 0;
        let mut i: usize = 0;
        while i < n
            invariant
                n == s@.len(),
                0 <= i <= n,
                count <= i,
                count as nat == count_newlines(s@.subrange(0, i as int)),
            decreases n - i,
        {
            let c = s.get_char(i);
            proof {
                assert(s@.subrange(0, i + 1).drop_last() =~= s@.subrange(0, i as int));
                assert(s@.subrange(0, i + 1).last() == s@[i as int]);
            }
            if c == '\n' {
                count += 1;
            }
            i += 1;
        }
        proof {
            assert(s@.subrange(0, n as int) =~= s@);
        }
        if count == usize::MAX {
            count
        } else {
            count + 1
        }
    }

    /// Add a child. Fails with `DuplicateIdentifier` iff the child's
    /// identifier already occurs among the children; on failure nothing
    /// is changed.
    pub fn add_child(&mut self, child: TreeItem) -> (r: Result<(), TreeError>)
        ensures
            match r {
                Ok(()) => {
                    &&& forall|k: int|
                        0 <= k < old(self).children@.len()
                            ==> (#[trigger] old(self).children@[k].identifier)@ != child.identifier@
                    &&& final(self).children@ == old(self).children@.push(child)
                    &&& final(self).identifier@ == old(self).identifier@
                    &&& final(self).text@ == old(self).text@
                    &&& (well_formed_item(*old(self)) && well_formed_item(child)
                        ==> well_formed_item(*final(self)))
                },
                Err(e) => {
                    &&& e == TreeError::DuplicateIdentifier
                    &&& exists|k: int|
                        0 <= k < old(self).children@.len()
                            && (#[trigger] old(self).children@[k].identifier)@ == child.identifier@
                    &&& *final(self) == *old(self)
                },
            },
    {
        let n = self.children.len();
        let mut j: usize = 0;
        while j < n
            invariant
                n == self.children@.len(),
                0 <= j <= n,
                *self == *old(self),
                forall|k: int|
                    0 <= k < j
                        ==> (#[trigger] self.children@[k].identifier)@ != child.identifier@,
            decreases n - j,
        {
            if self.children[j].identifier == child.identifier {
                return Err(TreeError::DuplicateIdentifier);
            }
            j += 1;
        }
        self.children.push(child);
        proof {
            if well_formed_item(*old(self)) && well_formed_item(child) {
                assert(self.children@.last() == child);
                assert(forall|k: int|
                    0 <= k < old(self).children@.len()
                        ==> self.children@[k] == old(self).children@[k]);
                assert(distinct_identifiers(self.children@));
            }
        }
        Ok(())
    }
}

/// A structural copy of one item.
fn clone_item(item: &TreeItem) -> (r: TreeItem)
    ensures
        same_item(*item, r),
    decreases *item,
{
    proof {
        assert(decreases_to!(*item => item.children));
        assert(decreases_to!(item.children => item.children@));
    }
    let children = clone_forest(&item.children);
    TreeItem { identifier: item.identifier.clone(), text: item.text.clone(), children }
}

/// A structural copy of a sibling list.
fn clone_forest(items: &Vec<TreeItem>) -> (r: Vec<TreeItem>)
    ensures
        r@.len() == items@.len(),
        forall|i: int| 0 <= i < items@.len() ==> same_item(#[trigger] items@[i], r@[i]),
    decreases items@,
{
    let n = items.len();
    let mut out: Vec<TreeItem> = Vec::new();
    let mut i: usize = 0;
    while i < n
        invariant
            n == items@.len(),
            0 <= i <= n,
            out@.len() == i,
            forall|j: int| 0 <= j < i ==> same_item(#[trigger] items@[j], out@[j]),
        decreases n - i,
    {
        proof {
            assert(decreases_to!(items@ => items@[i as int]));
        }
        let c = clone_item(&items[i]);
        out.push(c);
        i += 1;
    }
    out
}

impl Clone for TreeItem {
    /// A structural copy: the clone has the same identifier, text and
    /// children as the original.
    fn clone(&self) -> (r: Self)
        ensures
            same_item(*self, r),
    {
        clone_item(self)
    }
}

/// The example forest used by the tests: Alfa, Bravo (with Charlie, Delta
/// (with Echo, Foxtrot), Golf) and Hotel.
pub fn example() -> (r: Vec<TreeItem>)
    ensures
        well_formed_forest(r@),
        r@.len() == 3,
        r@[0].identifier@ == "a"@ && r@[0].children@.len() == 0,
        r@[1].identifier@ == "b"@ && r@[1].children@.len() == 3,
        r@[2].identifier@ == "h"@ && r@[2].children@.len() == 0,
        r@[1].children@[0].identifier@ == "c"@ && r@[1].children@[0].children@.len() == 0,
        r@[1].children@[1].identifier@ == "d"@ && r@[1].children@[1].children@.len() == 2,
        r@[1].children@[2].identifier@ == "g"@ && r@[1].children@[2].children@.len() == 0,
        r@[1].children@[1].children@[0].identifier@ == "e"@,
        r@[1].children@[1].children@[1].identifier@ == "f"@,
{
    proof {
        reveal_strlit("a");
        reveal_strlit("b");
        reveal_strlit("c");
        reveal_strlit("d");
        reveal_strlit("e");
        reveal_strlit("f");
        reveal_strlit("g");
        reveal_strlit("h");
    }
    let mut delta_children: Vec<TreeItem> = Vec::new();
    delta_children.push(TreeItem::new_leaf("e".to_owned(), "Echo".to_owned()));
    delta_children.push(TreeItem::new_leaf("f".to_owned(), "Foxtrot".to_owned()));
    let delta = TreeItem {
        identifier: "d".to_owned(),
        text: "Delta".to_owned(),
        children: delta_children,
    };
    let mut bravo_children: Vec<TreeItem> = Vec::new();
    bravo_children.push(TreeItem::new_leaf("c".to_owned(), "Charlie".to_owned()));
    bravo_children.push(delta);
    bravo_children.push(TreeItem::new_leaf("g".to_owned(), "Golf".to_owned()));
    let bravo = TreeItem {
        identifier: "b".to_owned(),
        text: "Bravo".to_owned(),
        children: bravo_children,
    };
    let mut forest: Vec<TreeItem> = Vec::new();
    forest.push(TreeItem::new_leaf("a".to_owned(), "Alfa".to_owned()));
    forest.push(bravo);
    forest.push(TreeItem::new_leaf("h".to_owned(), "Hotel".to_owned()));
    proof {
        reveal_strlit("a");
        reveal_strlit("b");
        reveal_strlit("c");
        reveal_strlit("d");
        reveal_strlit("e");
        reveal_strlit("f");
        reveal_strlit("g");
        reveal_strlit("h");
        assert("e"@.len() == 1);
        assert("e"@[0] == 'e');
        assert("f"@[0] == 'f');
        assert("e"@ != "f"@);
        assert("a"@[0] == 'a' && "b"@[0] == 'b' && "c"@[0] == 'c' && "d"@[0] == 'd');
        assert("g"@[0] == 'g' && "h"@[0] == 'h');
        assert("c"@ != "d"@ && "c"@ != "g"@ && "d"@ != "g"@);
        assert("a"@ != "b"@ && "a"@ != "h"@ && "b"@ != "h"@);
        assert(well_formed_item(forest@[1].children@[1]));
        assert(well_formed_item(forest@[1]));
        assert(well_formed_forest(forest@));
    }
    forest
}

} // verus!
