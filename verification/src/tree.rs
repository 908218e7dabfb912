//! A binary search tree without rebalancing: insertion that ignores duplicates,
//! and membership search.

use crate::order::{lemma_trichotomy, precedes, strict_total_order};
use core::cmp::Ordering;
use vstd::prelude::*;
use vstd::set_lib::lemma_set_disjoint_lens;

verus! {

/// One node of the tree. It owns both of its subtrees.
#[derive(Debug)]
pub struct TreeNode<T>
where
    T: Ord,
{
    pub value: T,
    pub left: Option<Box<TreeNode<T>>>,
    pub right: Option<Box<TreeNode<T>>>,
}

/// A binary search tree: an optional root node.
#[derive(Debug)]
pub struct BinarySearchTree<T>
where
    T: Ord,
{
    pub root: Option<Box<TreeNode<T>>>,
}

/// The values stored in the subtree behind a link.
pub open spec fn link_values<T: Ord>(link: Option<Box<TreeNode<T>>>) -> Set<T> {
    match link {
        Some(node) => node.values(),
        None => Set::empty(),
    }
}

/// The subtree behind a link, if there is one, is a search tree.
pub open spec fn link_ordered<T: Ord>(link: Option<Box<TreeNode<T>>>) -> bool {
    match link {
        Some(node) => node.ordered(),
        None => true,
    }
}

/// The node that holds `value` and has nothing below it.
pub open spec fn leaf<T: Ord>(value: T) -> TreeNode<T> {
    TreeNode { value, left: None, right: None }
}

/// The link to the subtree behind `link` with `value` added.
pub open spec fn link_with_value<T: Ord>(link: Option<Box<TreeNode<T>>>, value: T) -> Option<
    Box<TreeNode<T>>,
> {
    match link {
        Some(node) => Some(Box::new(node.with_value(value))),
        None => Some(Box::new(leaf(value))),
    }
}

/// The values in a tree that held `start` and to which each of `added` was added
/// in turn.
pub open spec fn values_after<T>(start: Set<T>, added: Seq<T>) -> Set<T>
    decreases added.len(),
{
    if added.len() == 0 {
        start
    } else {
        values_after(start, added.drop_last()).insert(added.last())
    }
}

/// After any sequence of insertions a tree holds what it held before and what
/// was added at least once, and nothing else.
pub proof fn lemma_membership_after_insertions<T>(start: Set<T>, added: Seq<T>, v: T)
    ensures
        values_after(start, added).contains(v) <==> start.contains(v) || added.contains(v),
    decreases added.len(),
{
    if added.len() > 0 {
        lemma_membership_after_insertions(start, added.drop_last(), v);
        if added.contains(v) && added.last() != v {
            let i = choose|i: int| 0 <= i < added.len() && added[i] == v;
            assert(added.drop_last()[i] == v);
        }
        if added.drop_last().contains(v) {
            let i = choose|i: int| 0 <= i < added.drop_last().len() && added.drop_last()[i] == v;
            assert(added[i] == v);
        }
    }
}

/// The number of nodes in the subtree behind a link.
pub open spec fn link_node_count<T: Ord>(link: Option<Box<TreeNode<T>>>) -> nat {
    match link {
        Some(node) => node.node_count(),
        None => 0,
    }
}

impl<T> TreeNode<T>
where
    T: Ord,
{
    /// The values stored in this node and below it.
    pub open spec fn values(self) -> Set<T>
        decreases self,
    {
        let below_left = match self.left {
            Some(node) => node.values(),
            None => Set::empty(),
        };
        let below_right = match self.right {
            Some(node) => node.values(),
            None => Set::empty(),
        };
        below_left.union(below_right).insert(self.value)
    }

    /// The search-tree invariant: everything in the left subtree sorts strictly
    /// before this node's value, everything in the right subtree strictly after
    /// it, and both subtrees are search trees themselves.
    pub open spec fn ordered(self) -> bool
        decreases self,
    {
        &&& forall|x: T| #[trigger] link_values(self.left).contains(x) ==> precedes(x, self.value)
        &&& forall|x: T| #[trigger] link_values(self.right).contains(x) ==> precedes(self.value, x)
        &&& match self.left {
            Some(node) => node.ordered(),
            None => true,
        }
        &&& match self.right {
            Some(node) => node.ordered(),
            None => true,
        }
    }

    /// The number of nodes in this subtree.
    pub open spec fn node_count(self) -> nat
        decreases self,
    {
        let below_left: nat = match self.left {
            Some(node) => node.node_count(),
            None => 0,
        };
        let below_right: nat = match self.right {
            Some(node) => node.node_count(),
            None => 0,
        };
        1 + below_left + below_right
    }

    /// This subtree with `value` added: unchanged if `value` is in it, else with a
    /// new leaf at the place to which the way down from this node leads, left
    /// where `value` sorts before a node's value and right where it sorts after.
    pub open spec fn with_value(self, value: T) -> TreeNode<T>
        decreases self,
    {
        if value == self.value {
            self
        } else if precedes(value, self.value) {
            let below = match self.left {
                Some(node) => node.with_value(value),
                None => leaf(value),
            };
            TreeNode { value: self.value, left: Some(Box::new(below)), right: self.right }
        } else {
            let below = match self.right {
                Some(node) => node.with_value(value),
                None => leaf(value),
            };
            TreeNode { value: self.value, left: self.left, right: Some(Box::new(below)) }
        }
    }

    /// A search tree holds each of its values in exactly one node.
    pub proof fn lemma_one_node_per_value(self)
        requires
            strict_total_order::<T>(),
            self.ordered(),
        ensures
            self.values().finite(),
            self.values().len() == self.node_count(),
        decreases self,
    {
        let below_left = link_values(self.left);
        let below_right = link_values(self.right);
        if let Some(node) = self.left {
            node.lemma_one_node_per_value();
        }
        if let Some(node) = self.right {
            node.lemma_one_node_per_value();
        }
        assert(below_left.disjoint(below_right)) by {
            assert forall|x: T| below_left.contains(x) implies !below_right.contains(x) by {
                lemma_trichotomy(x, self.value);
            }
        }
        assert(!below_left.union(below_right).contains(self.value)) by {
            lemma_trichotomy(self.value, self.value);
        }
        lemma_set_disjoint_lens(below_left, below_right);
    }

    /// A leaf holding `value`.
    pub fn new(value: T) -> (node: Self)
        ensures
            node == leaf(value),
    {
        TreeNode { value, left: None, right: None }
    }

    /// Adds `value` to the subtree rooted here. A value that is already present is
    /// dropped and the subtree stays exactly as it was; a new one becomes a leaf
    /// at the place to which the comparisons with the nodes on the way down lead.
    pub fn insert(&mut self, value: T)
        requires
            strict_total_order::<T>(),
            old(self).ordered(),
        ensures
            *final(self) == old(self).with_value(value),
            final(self).ordered(),
            final(self).values() == old(self).values().insert(value),
            old(self).values().contains(value) ==> *final(self) == *old(self),
            !old(self).values().contains(value) ==> final(self).node_count() == old(self).node_count()
                + 1,
        decreases *old(self),
    {
        proof {
            lemma_trichotomy(value, self.value);
        }
        match value.cmp(&self.value) {
            Ordering::Equal => {},
            Ordering::Less => {
                proof {
                    if link_values(self.right).contains(value) {
                        assert(precedes(self.value, value));
                    }
                }
                insert_below(&mut self.left, value);
                assert(final(self).values() =~= old(self).values().insert(value));
            },
            Ordering::Greater => {
                proof {
                    if link_values(self.left).contains(value) {
                        assert(precedes(value, self.value));
                    }
                }
                insert_below(&mut self.right, value);
                assert(final(self).values() =~= old(self).values().insert(value));
            },
        }
    }
}

/// Adds `value` to the subtree behind `link`: into the node there, or as a new
/// leaf where there is none.
fn insert_below<T: Ord>(link: &mut Option<Box<TreeNode<T>>>, value: T)
    requires
        strict_total_order::<T>(),
        link_ordered(*old(link)),
    ensures
        *final(link) == link_with_value(*old(link), value),
        link_ordered(*final(link)),
        link_values(*final(link)) == link_values(*old(link)).insert(value),
        link_values(*old(link)).contains(value) ==> *final(link) == *old(link),
        !link_values(*old(link)).contains(value) ==> link_node_count(*final(link))
            == link_node_count(*old(link)) + 1,
    decreases *old(link),
{
    match link.take() {
        None => {
            *link = Some(Box::new(TreeNode::new(value)));
            assert(link_values(*link) =~= link_values(*old(link)).insert(value));
        },
        Some(mut node) => {
            node.insert(value);
            *link = Some(node);
        },
    }
}

impl<T> BinarySearchTree<T>
where
    T: Ord,
{
    /// The values stored in the tree.
    pub open spec fn values(self) -> Set<T> {
        link_values(self.root)
    }

    /// The tree is a search tree: the ordering invariant holds at every node.
    pub open spec fn ordered(self) -> bool {
        link_ordered(self.root)
    }

    /// The number of nodes in the tree.
    pub open spec fn node_count(self) -> nat {
        link_node_count(self.root)
    }

    /// The empty tree.
    pub fn new() -> (tree: Self)
        ensures
            tree.root is None,
            tree.ordered(),
            tree.values() == Set::<T>::empty(),
            tree.node_count() == 0,
    {
        BinarySearchTree { root: None }
    }

    /// Adds `value` to the tree; a value that is already present is dropped and
    /// the tree stays exactly as it was.
    pub fn insert(&mut self, value: T)
        requires
            strict_total_order::<T>(),
            old(self).ordered(),
        ensures
            final(self).root == link_with_value(old(self).root, value),
            final(self).ordered(),
            final(self).values() == old(self).values().insert(value),
            old(self).values().contains(value) ==> *final(self) == *old(self),
            !old(self).values().contains(value) ==> final(self).node_count() == old(self).node_count()
                + 1,
    {
        insert_below(&mut self.root, value);
    }

    /// Whether `value` is stored in the tree.
    pub fn search(&self, value: T) -> (found: bool)
        requires
            strict_total_order::<T>(),
            self.ordered(),
        ensures
            found == self.values().contains(value),
    {
        let mut current: &Option<Box<TreeNode<T>>> = &self.root;
        loop
            invariant
                strict_total_order::<T>(),
                link_ordered(*current),
                self.values().contains(value) == link_values(*current).contains(value),
            decreases *current,
        {
            match current {
                None => {
                    return false;
                },
                Some(node) => {
                    proof {
                        lemma_trichotomy(value, node.value);
                        if link_values(node.right).contains(value) {
                            assert(precedes(node.value, value));
                        }
                        if link_values(node.left).contains(value) {
                            assert(precedes(value, node.value));
                        }
                    }
                    match value.cmp(&node.value) {
                        Ordering::Equal => {
                            return true;
                        },
                        Ordering::Less => {
                            current = &node.left;
                        },
                        Ordering::Greater => {
                            current = &node.right;
                        },
                    }
                },
            }
        }
    }
}

} // verus!
