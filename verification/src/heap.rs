//! A binary heap whose priority policy is chosen when the heap is made. The heap
//! is consumed by extraction: each extracted element is the one that no other
//! element in the heap outranks.

use vstd::multiset::Multiset;
use vstd::prelude::*;
use vstd::seq_lib::{to_multiset_build, to_multiset_remove, to_multiset_update};

verus! {

/// A priority policy: the strategy by which a heap decides which of two elements
/// comes out first. A min-heap and a max-heap differ in their policy only.
pub trait Priority<T> {
    /// The condition under which `better` answers as `outranks` says. A policy
    /// that rests on the order of `T` holds it where that order is lawful.
    spec fn sound(&self) -> bool;

    /// `a` has strictly higher priority than `b`.
    spec fn outranks(&self, a: T, b: T) -> bool;

    /// Decides whether `a` has strictly higher priority than `b`.
    fn better(&self, a: &T, b: &T) -> (r: bool)
        ensures
            self.sound() ==> r == self.outranks(*a, *b),
    ;
}

/// What a heap asks of its policy: it is sound, and the relation it decides is a
/// strict order in which being unordered is transitive (for a min-heap `<`, for a
/// max-heap `>`).
pub open spec fn priority_order<T, P: Priority<T>>(policy: P) -> bool {
    &&& policy.sound()
    &&& forall|a: T| !#[trigger] policy.outranks(a, a)
    &&& forall|a: T, b: T, c: T|
        #![trigger policy.outranks(a, b), policy.outranks(b, c)]
        policy.outranks(a, b) && policy.outranks(b, c) ==> policy.outranks(a, c)
    &&& forall|a: T, b: T, c: T|
        #![trigger policy.outranks(a, b), policy.outranks(b, c)]
        !policy.outranks(a, b) && !policy.outranks(b, c) ==> !policy.outranks(a, c)
}

/// A binary heap over `T`, ordered by the comparator it was made with.
pub struct Heap<T, P>
where
    T: Default,
    P: Priority<T>,
{
    count: usize,
    items: Vec<T>,
    comparator: P,
}

/// The position above `j` in the implicit tree, for `j > 0`.
spec fn parent_of(j: int) -> int {
    (j - 1) / 2
}

/// The size of a heap that held `start` elements after a run of calls, `true`
/// standing for an `add` and `false` for a `next`.
pub open spec fn size_after(start: nat, calls: Seq<bool>) -> nat
    decreases calls.len(),
{
    if calls.len() == 0 {
        start
    } else {
        let before = size_after(start, calls.drop_last());
        if calls.last() {
            before + 1
        } else if before > 0 {
            (before - 1) as nat
        } else {
            0
        }
    }
}

/// How many of `calls` are the call `which`.
pub open spec fn calls_of(calls: Seq<bool>, which: bool) -> nat
    decreases calls.len(),
{
    if calls.len() == 0 {
        0
    } else {
        calls_of(calls.drop_last(), which) + if calls.last() == which {
            1nat
        } else {
            0nat
        }
    }
}

/// The size law: where no `next` was made on an empty heap, the size after a run
/// of calls is the size at the start, plus the number of `add`s, less the number
/// of `next`s.
pub proof fn lemma_size_law(start: nat, calls: Seq<bool>)
    requires
        forall|n: int|
            0 <= n <= calls.len() ==> calls_of(#[trigger] calls.take(n), false) <= start + calls_of(
                calls.take(n),
                true,
            ),
    ensures
        size_after(start, calls) == start + calls_of(calls, true) - calls_of(calls, false),
    decreases calls.len(),
{
    if calls.len() > 0 {
        let earlier = calls.drop_last();
        assert forall|n: int| 0 <= n <= earlier.len() implies calls_of(
            #[trigger] earlier.take(n),
            false,
        ) <= start + calls_of(earlier.take(n), true) by {
            assert(earlier.take(n) =~= calls.take(n));
        }
        lemma_size_law(start, earlier);
        assert(calls.take(calls.len() as int) =~= calls);
        assert(earlier.take(earlier.len() as int) =~= earlier);
    }
}

/// A sequence without elements holds nothing.
proof fn lemma_nothing_held<T>(s: Seq<T>)
    requires
        s.len() == 0,
    ensures
        s.to_multiset() == Multiset::<T>::empty(),
{
    broadcast use vstd::multiset::group_multiset_axioms;

    s.to_multiset_ensures();
    assert(s.to_multiset() =~= Multiset::<T>::empty());
}

/// Exchanging two elements of a sequence keeps its multiset.
proof fn lemma_exchange_keeps_multiset<T>(s: Seq<T>, i: int, j: int)
    requires
        0 <= i < s.len(),
        0 <= j < s.len(),
    ensures
        s.update(i, s[j]).update(j, s[i]).to_multiset() == s.to_multiset(),
{
    broadcast use vstd::multiset::group_multiset_axioms;

    let mid = s.update(i, s[j]);
    to_multiset_update(s, i, s[j]);
    to_multiset_update(mid, j, s[i]);
    s.to_multiset_ensures();
    assert(s.contains(s[i]));
    assert(s.contains(s[j]));
    assert(mid.update(j, s[i]).to_multiset() =~= s.to_multiset());
}

/// Exchanges the elements at `i` and `j`.
fn exchange<T: Default>(items: &mut Vec<T>, i: usize, j: usize)
    requires
        i < old(items).len(),
        j < old(items).len(),
    ensures
        final(items)@ == old(items)@.update(i as int, old(items)@[j as int]).update(
            j as int,
            old(items)@[i as int],
        ),
        final(items)@.to_multiset() == old(items)@.to_multiset(),
{
    if i != j {
        let mut carried = T::default();
        items.set_and_swap(i, &mut carried);
        items.set_and_swap(j, &mut carried);
        items.set_and_swap(i, &mut carried);
    }
    proof {
        assert(items@ =~= old(items)@.update(i as int, old(items)@[j as int]).update(
            j as int,
            old(items)@[i as int],
        ));
        lemma_exchange_keeps_multiset(old(items)@, i as int, j as int);
    }
}

impl<T, P> View for Heap<T, P>
where
    T: Default,
    P: Priority<T>,
{
    type V = Multiset<T>;

    /// The elements in the heap, each as often as it was added and not yet
    /// extracted.
    closed spec fn view(&self) -> Multiset<T> {
        self.items@.to_multiset()
    }
}

impl<T, P> Heap<T, P>
where
    T: Default,
    P: Priority<T>,
{
    /// The heap's policy: `a` has strictly higher priority than `b`.
    pub closed spec fn outranks(&self, a: T, b: T) -> bool {
        self.comparator.outranks(a, b)
    }

    /// The policy held by the heap meets `priority_order`.
    spec fn lawful(&self) -> bool {
        priority_order(self.comparator)
    }

    /// The element at `j` does not outrank the one at the position above it.
    spec fn settled(&self, j: int) -> bool {
        !self.outranks(self.items@[j], self.items@[parent_of(j)])
    }

    /// The heap is valid: its comparator is lawful, and no stored element
    /// outranks the one above it in the implicit tree.
    pub closed spec fn wf(&self) -> bool {
        &&& self.lawful()
        &&& self.count == self.items@.len()
        &&& forall|j: int| 0 < j < self.items@.len() ==> #[trigger] self.settled(j)
    }

    /// An empty heap ordered by `comparator`.
    pub fn new(comparator: P) -> (heap: Self)
        requires
            priority_order(comparator),
        ensures
            heap.wf(),
            heap@ == Multiset::<T>::empty(),
            forall|a: T, b: T| #[trigger] heap.outranks(a, b) == comparator.outranks(a, b),
    {
        let heap = Heap { count: 0, items: Vec::new(), comparator };
        proof {
            lemma_nothing_held(heap.items@);
        }
        heap
    }

    /// The number of elements in the heap.
    pub fn len(&self) -> (n: usize)
        requires
            self.wf(),
        ensures
            n == self@.len(),
    {
        proof {
            self.items@.to_multiset_ensures();
        }
        self.count
    }

    /// Whether the heap holds no element.
    pub fn is_empty(&self) -> (empty: bool)
        requires
            self.wf(),
        ensures
            empty == (self@.len() == 0),
    {
        self.len() == 0
    }

    /// Asks the comparator about the elements at two positions.
    fn outranks_at(&self, i: usize, j: usize) -> (r: bool)
        requires
            self.lawful(),
            i < self.items@.len(),
            j < self.items@.len(),
        ensures
            r == self.outranks(self.items@[i as int], self.items@[j as int]),
    {
        self.comparator.better(&self.items[i], &self.items[j])
    }

    /// The position above `idx`.
    fn parent_idx(&self, idx: usize) -> (parent: usize)
        requires
            idx > 0,
        ensures
            parent == parent_of(idx as int),
            parent < idx,
    {
        (idx - 1) / 2
    }

    /// Whether the element at `idx` has an element below it.
    fn children_present(&self, idx: usize) -> (present: bool)
        ensures
            present == (2 * idx + 1 < self.count),
    {
        idx < self.count / 2
    }

    /// The position of the first element below `idx`.
    fn left_child_idx(&self, idx: usize) -> (child: usize)
        requires
            2 * idx + 1 <= usize::MAX,
        ensures
            child == 2 * idx + 1,
    {
        idx * 2 + 1
    }

    /// The position of the second element below `idx`.
    fn right_child_idx(&self, idx: usize) -> (child: usize)
        requires
            2 * idx + 2 <= usize::MAX,
        ensures
            child == 2 * idx + 2,
    {
        self.left_child_idx(idx) + 1
    }

    /// Of the elements below `idx`, the position of one that the other does not
    /// outrank: the only one where there is one, else the first if it outranks
    /// the second, else the second.
    fn smallest_child_idx(&self, idx: usize) -> (child: usize)
        requires
            self.lawful(),
            self.count == self.items@.len(),
            2 * idx + 1 < self.count,
        ensures
            child < self.count,
            child == 2 * idx + 1 || child == 2 * idx + 2,
            2 * idx + 2 >= self.count ==> child == 2 * idx + 1,
            2 * idx + 2 < self.count ==> (child == 2 * idx + 1) == self.outranks(
                self.items@[2 * idx + 1],
                self.items@[2 * idx + 2],
            ),
            forall|j: int|
                (j == 2 * idx + 1 || j == 2 * idx + 2) && j < self.count ==> !self.outranks(
                    #[trigger] self.items@[j],
                    self.items@[child as int],
                ),
    {
        let lchild = self.left_child_idx(idx);
        let rchild = self.right_child_idx(idx);
        if rchild >= self.count {
            return lchild;
        }
        if self.outranks_at(lchild, rchild) {
            lchild
        } else {
            rchild
        }
    }

    /// Adds `value` to the heap: it is stored last and moves up for as long as it
    /// outranks the element above it.
    pub fn add(&mut self, value: T)
        requires
            old(self).wf(),
            old(self)@.len() < usize::MAX,
        ensures
            final(self).wf(),
            final(self)@ == old(self)@.insert(value),
            final(self)@.len() == old(self)@.len() + 1,
            forall|a: T, b: T| #[trigger] final(self).outranks(a, b) == old(self).outranks(a, b),
    {
        proof {
            old(self).items@.to_multiset_ensures();
            to_multiset_build(old(self).items@, value);
        }
        self.count += 1;
        self.items.push(value);
        proof {
            assert forall|j: int| 0 < j < self.items@.len() - 1 implies #[trigger] self.settled(j) by {
                assert(old(self).settled(j));
            }
        }
        let mut idx: usize = self.count - 1;
        while idx > 0
            invariant
                self.lawful(),
                self.count == self.items@.len(),
                idx < self.count,
                self@ == old(self)@.insert(value),
                self.comparator == old(self).comparator,
                forall|j: int| 0 < j < self.items@.len() && j != idx ==> #[trigger] self.settled(j),
                forall|j: int|
                    0 < j < self.items@.len() && parent_of(j) == idx && idx > 0
                        ==> !self.outranks(
                        #[trigger] self.items@[j],
                        self.items@[parent_of(idx as int)],
                    ),
            ensures
                forall|j: int| 0 < j < self.items@.len() ==> #[trigger] self.settled(j),
            decreases idx,
        {
            let parent = self.parent_idx(idx);
            if !self.outranks_at(idx, parent) {
                assert(self.settled(idx as int));
                break;
            }
            let ghost before = *self;
            exchange(&mut self.items, idx, parent);
            proof {
                assert forall|j: int| 0 < j < self.items@.len() && j != parent implies #[trigger] self.settled(j) by {
                    if j != idx {
                        assert(before.settled(j));
                    }
                }
                assert forall|j: int|
                    0 < j < self.items@.len() && parent_of(j) == parent && parent > 0
                        implies !self.outranks(
                    #[trigger] self.items@[j],
                    self.items@[parent_of(parent as int)],
                ) by {
                    assert(before.settled(parent as int));
                    if j != idx {
                        assert(before.settled(j));
                    }
                }
            }
            idx = parent;
        }
    }

    /// In a valid heap no stored element outranks the first one.
    proof fn lemma_front_is_best(&self, j: int)
        requires
            self.wf(),
            0 <= j < self.items@.len(),
        ensures
            !self.outranks(self.items@[j], self.items@[0]),
        decreases j,
    {
        if j > 0 {
            assert(self.settled(j));
            self.lemma_front_is_best(parent_of(j));
        }
    }

    /// Takes out the element of highest priority: one that no element of the heap
    /// outranks. The last element takes its place and moves down for as long as
    /// the better of the elements below outranks it. An empty heap gives `None`
    /// and stays as it is.
    pub fn next(&mut self) -> (top: Option<T>)
        requires
            old(self).wf(),
        ensures
            final(self).wf(),
            forall|a: T, b: T| #[trigger] final(self).outranks(a, b) == old(self).outranks(a, b),
            old(self)@.len() == 0 ==> top is None && final(self)@ == old(self)@,
            old(self)@.len() > 0 ==> top is Some && old(self)@.contains(top->0) && final(self)@
                == old(self)@.remove(top->0) && final(self)@.len() == old(self)@.len() - 1,
            forall|x: T|
                top is Some && old(self)@.contains(x) ==> !#[trigger] old(self).outranks(x, top->0),
    {
        proof {
            old(self).items@.to_multiset_ensures();
        }
        if self.is_empty() {
            return None;
        }
        let top = self.items.swap_remove(0);
        self.count -= 1;
        proof {
            let stored = old(self).items@;
            assert forall|x: T| old(self)@.contains(x) implies !#[trigger] old(self).outranks(
                x,
                top,
            ) by {
                let j = choose|j: int| 0 <= j < stored.len() && stored[j] == x;
                old(self).lemma_front_is_best(j);
            }
            let moved = stored.update(0, stored.last());
            to_multiset_update(stored, 0, stored.last());
            to_multiset_remove(moved, stored.len() - 1);
            assert(moved.drop_last() =~= moved.remove(stored.len() - 1));
            assert(stored.contains(stored.last()));
            assert(stored.contains(stored[0]));
            assert(self@ =~= old(self)@.remove(top)) by {
                broadcast use vstd::multiset::group_multiset_axioms;

            }
            assert forall|j: int| 0 < j < self.items@.len() && parent_of(j) != 0 implies #[trigger] self.settled(
                j,
            ) by {
                assert(old(self).settled(j));
            }
        }
        let mut idx: usize = 0;
        while self.children_present(idx)
            invariant
                self.lawful(),
                self.count == self.items@.len(),
                self@ == old(self)@.remove(top),
                self.comparator == old(self).comparator,
                old(self)@.len() > 0,
                old(self)@.contains(top),
                forall|x: T| old(self)@.contains(x) ==> !#[trigger] old(self).outranks(x, top),
                forall|j: int|
                    0 < j < self.items@.len() && parent_of(j) != idx ==> #[trigger] self.settled(j),
                forall|j: int|
                    0 < j < self.items@.len() && parent_of(j) == idx && idx > 0
                        ==> !self.outranks(
                        #[trigger] self.items@[j],
                        self.items@[parent_of(idx as int)],
                    ),
            decreases self.count - idx,
        {
            let child = self.smallest_child_idx(idx);
            if !self.outranks_at(child, idx) {
                assert forall|j: int| 0 < j < self.items@.len() implies #[trigger] self.settled(j) by {
                    if parent_of(j) == idx {
                        assert(!self.outranks(self.items@[j], self.items@[child as int]));
                    }
                }
                return Some(top);
            }
            let ghost before = *self;
            exchange(&mut self.items, idx, child);
            proof {
                assert forall|j: int|
                    0 < j < self.items@.len() && parent_of(j) != child implies #[trigger] self.settled(
                    j,
                ) by {
                    if parent_of(j) == idx {
                        assert(!before.outranks(before.items@[j], before.items@[child as int]));
                    } else if j == idx {
                        assert(!before.outranks(
                            before.items@[child as int],
                            before.items@[parent_of(idx as int)],
                        ));
                    } else {
                        assert(before.settled(j));
                    }
                }
                assert forall|j: int|
                    0 < j < self.items@.len() && parent_of(j) == child && child > 0
                        implies !self.outranks(
                    #[trigger] self.items@[j],
                    self.items@[parent_of(child as int)],
                ) by {
                    assert(before.settled(j));
                }
            }
            idx = child;
        }
        Some(top)
    }

    /// Empties the heap and returns its elements in the order in which `next`
    /// hands them out: no element is outranked by one that comes after it.
    pub fn drain(&mut self) -> (out: Vec<T>)
        requires
            old(self).wf(),
        ensures
            final(self).wf(),
            final(self)@.len() == 0,
            forall|a: T, b: T| #[trigger] final(self).outranks(a, b) == old(self).outranks(a, b),
            out@.to_multiset() == old(self)@,
            out@.len() == old(self)@.len(),
            forall|i: int, j: int|
                0 <= i < j < out@.len() ==> !old(self).outranks(#[trigger] out@[j], #[trigger] out@[i]),
    {
        let mut out: Vec<T> = Vec::new();
        proof {
            broadcast use vstd::multiset::group_multiset_axioms;

            lemma_nothing_held(out@);
            assert(out@.to_multiset().add(self@) =~= old(self)@);
        }
        loop
            invariant
                self.wf(),
                forall|a: T, b: T| #[trigger] self.outranks(a, b) == old(self).outranks(a, b),
                out@.to_multiset().add(self@) == old(self)@,
                forall|i: int, x: T|
                    0 <= i < out@.len() && self@.contains(x) ==> !#[trigger] old(self).outranks(
                        x,
                        out@[i],
                    ),
                forall|i: int, j: int|
                    0 <= i < j < out@.len() ==> !old(self).outranks(
                        #[trigger] out@[j],
                        #[trigger] out@[i],
                    ),
            ensures
                self@.len() == 0,
            decreases self@.len(),
        {
            let ghost held = self@;
            let ghost taken = out@;
            match self.next() {
                None => {
                    break;
                },
                Some(top) => {
                    out.push(top);
                    proof {
                        broadcast use vstd::multiset::group_multiset_axioms;

                        to_multiset_build(taken, top);
                        assert(out@.to_multiset().add(self@) =~= taken.to_multiset().add(held));
                        assert forall|i: int, x: T|
                            0 <= i < out@.len() && self@.contains(x) implies !#[trigger] old(self).outranks(
                            x,
                            out@[i],
                        ) by {
                            assert(held.contains(x));
                            if i == taken.len() {
                                assert(!self.outranks(x, top));
                            }
                        }
                        assert forall|i: int, j: int| 0 <= i < j < out@.len() implies !old(self).outranks(
                            #[trigger] out@[j],
                            #[trigger] out@[i],
                        ) by {
                            if j == taken.len() {
                                assert(held.contains(top));
                            }
                        }
                    }
                },
            }
        }
        proof {
            broadcast use vstd::multiset::group_multiset_axioms;

            assert(self@ =~= Multiset::<T>::empty());
            assert(out@.to_multiset() =~= old(self)@);
            out@.to_multiset_ensures();
        }
        out
    }
}

} // verus!
