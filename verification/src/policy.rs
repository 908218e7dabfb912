//! The two policies that an element type's own order gives: least first and
//! greatest first.

use crate::heap::{priority_order, Heap, Priority};
use crate::order::{
    lawful_order, lemma_comparisons_agree, lemma_greater_is_reversed_less,
    lemma_precedes_irreflexive, lemma_precedes_negatively_transitive, lemma_precedes_transitive,
    precedes,
};
use vstd::multiset::Multiset;
use vstd::prelude::*;

verus! {

/// The policy of a min-heap: the element that sorts first comes out first.
pub struct Least;

/// The policy of a max-heap: the element that sorts last comes out first.
pub struct Greatest;

impl<T: Ord> Priority<T> for Least {
    open spec fn sound(&self) -> bool {
        lawful_order::<T>()
    }

    open spec fn outranks(&self, a: T, b: T) -> bool {
        precedes(a, b)
    }

    fn better(&self, a: &T, b: &T) -> (r: bool) {
        proof {
            if lawful_order::<T>() {
                lemma_comparisons_agree(*a, *b);
            }
        }
        a < b
    }
}

impl<T: Ord> Priority<T> for Greatest {
    open spec fn sound(&self) -> bool {
        lawful_order::<T>()
    }

    open spec fn outranks(&self, a: T, b: T) -> bool {
        precedes(b, a)
    }

    fn better(&self, a: &T, b: &T) -> (r: bool) {
        proof {
            if lawful_order::<T>() {
                lemma_comparisons_agree(*a, *b);
                lemma_comparisons_agree(*b, *a);
                lemma_greater_is_reversed_less(*a, *b);
            }
        }
        a > b
    }
}

/// With a lawful order on `T`, least-first is a priority order.
pub proof fn lemma_least_is_priority_order<T: Ord>()
    requires
        lawful_order::<T>(),
    ensures
        priority_order::<T, Least>(Least),
{
    assert forall|a: T| !#[trigger] Least.outranks(a, a) by {
        lemma_precedes_irreflexive(a);
    }
    assert forall|a: T, b: T, c: T|
        #![trigger Least.outranks(a, b), Least.outranks(b, c)]
        Least.outranks(a, b) && Least.outranks(b, c) implies Least.outranks(a, c) by {
        lemma_precedes_transitive(a, b, c);
    }
    assert forall|a: T, b: T, c: T|
        #![trigger Least.outranks(a, b), Least.outranks(b, c)]
        !Least.outranks(a, b) && !Least.outranks(b, c) implies !Least.outranks(a, c) by {
        lemma_precedes_negatively_transitive(a, b, c);
    }
}

/// With a lawful order on `T`, greatest-first is a priority order.
pub proof fn lemma_greatest_is_priority_order<T: Ord>()
    requires
        lawful_order::<T>(),
    ensures
        priority_order::<T, Greatest>(Greatest),
{
    assert forall|a: T| !#[trigger] Greatest.outranks(a, a) by {
        lemma_precedes_irreflexive(a);
    }
    assert forall|a: T, b: T, c: T|
        #![trigger Greatest.outranks(a, b), Greatest.outranks(b, c)]
        Greatest.outranks(a, b) && Greatest.outranks(b, c) implies Greatest.outranks(a, c) by {
        lemma_precedes_transitive(c, b, a);
    }
    assert forall|a: T, b: T, c: T|
        #![trigger Greatest.outranks(a, b), Greatest.outranks(b, c)]
        !Greatest.outranks(a, b) && !Greatest.outranks(b, c) implies !Greatest.outranks(a, c) by {
        lemma_precedes_negatively_transitive(c, b, a);
    }
}

impl<T> Heap<T, Least>
where
    T: Default + Ord,
{
    /// An empty heap that hands out the least element first.
    pub fn new_min() -> (heap: Self)
        requires
            lawful_order::<T>(),
        ensures
            heap.wf(),
            heap@ == Multiset::<T>::empty(),
            forall|a: T, b: T| #[trigger] heap.outranks(a, b) == precedes(a, b),
    {
        proof {
            lemma_least_is_priority_order::<T>();
        }
        Self::new(Least)
    }
}

impl<T> Heap<T, Greatest>
where
    T: Default + Ord,
{
    /// An empty heap that hands out the greatest element first.
    pub fn new_max() -> (heap: Self)
        requires
            lawful_order::<T>(),
        ensures
            heap.wf(),
            heap@ == Multiset::<T>::empty(),
            forall|a: T, b: T| #[trigger] heap.outranks(a, b) == precedes(b, a),
    {
        proof {
            lemma_greatest_is_priority_order::<T>();
        }
        Self::new(Greatest)
    }
}

/// Maker of heaps that hand out the least element first.
pub struct MinHeap;

impl MinHeap {
    /// An empty heap that hands out the least element first.
    pub fn new<T>() -> (heap: Heap<T, Least>) where T: Default + Ord
        requires
            lawful_order::<T>(),
        ensures
            heap.wf(),
            heap@ == Multiset::<T>::empty(),
            forall|a: T, b: T| #[trigger] heap.outranks(a, b) == precedes(a, b),
    {
        Heap::new_min()
    }
}

/// Maker of heaps that hand out the greatest element first.
pub struct MaxHeap;

impl MaxHeap {
    /// An empty heap that hands out the greatest element first.
    pub fn new<T>() -> (heap: Heap<T, Greatest>) where T: Default + Ord
        requires
            lawful_order::<T>(),
        ensures
            heap.wf(),
            heap@ == Multiset::<T>::empty(),
            forall|a: T, b: T| #[trigger] heap.outranks(a, b) == precedes(b, a),
    {
        Heap::new_max()
    }
}

} // verus!
