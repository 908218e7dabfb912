//! Two ordering-based containers with machine-checked contracts: a binary search
//! tree with insertion and membership search, and a binary heap whose priority
//! policy is chosen at construction and which is consumed by repeated extraction.

pub mod heap;
pub mod order;
pub mod policy;
pub mod tree;

pub use heap::{Heap, Priority};
pub use policy::{Greatest, Least, MaxHeap, MinHeap};
pub use tree::{BinarySearchTree, TreeNode};
