//! What the containers ask of an element type's `Ord`.

use core::cmp::Ordering;
use vstd::laws_cmp::{obeys_cmp, obeys_cmp_ord, obeys_cmp_partial_ord, obeys_partial_cmp_spec_properties};
use vstd::laws_eq::{obeys_concrete_eq, obeys_eq_spec_properties};
use vstd::prelude::*;
use vstd::std_specs::cmp::{OrdSpec, PartialEqSpec, PartialOrdSpec};

verus! {

/// `a` sorts strictly before `b`.
pub open spec fn precedes<T: Ord>(a: T, b: T) -> bool {
    a.cmp_spec(&b) == Ordering::Less
}

/// The comparison of `T` is lawful: `cmp`, `partial_cmp` and `==` agree with each
/// other and form an order in which exactly one of less, equal and greater holds
/// of every pair.
pub open spec fn lawful_order<T: Ord>() -> bool {
    obeys_cmp::<T>()
}

/// A lawful order in which two values compare equal only if they are the same value.
pub open spec fn strict_total_order<T: Ord>() -> bool {
    lawful_order::<T>() && obeys_concrete_eq::<T>()
}

/// In a lawful order `cmp` and `partial_cmp` are specified and agree.
pub proof fn lemma_comparisons_agree<T: Ord>(a: T, b: T)
    requires
        lawful_order::<T>(),
    ensures
        T::obeys_cmp_spec(),
        T::obeys_partial_cmp_spec(),
        a.partial_cmp_spec(&b) == Some(a.cmp_spec(&b)),
{
    reveal(obeys_cmp_partial_ord);
    reveal(obeys_cmp_ord);
}

/// `a` compares greater than `b` exactly if `b` precedes `a`.
pub proof fn lemma_greater_is_reversed_less<T: Ord>(a: T, b: T)
    requires
        lawful_order::<T>(),
    ensures
        a.cmp_spec(&b) == Ordering::Greater <==> precedes(b, a),
{
    reveal(obeys_cmp_partial_ord);
    reveal(obeys_cmp_ord);
    reveal(obeys_partial_cmp_spec_properties);
    assert(a.partial_cmp_spec(&b) == Some(a.cmp_spec(&b)));
    assert(b.partial_cmp_spec(&a) == Some(b.cmp_spec(&a)));
    assert(b.partial_cmp_spec(&a) == Some(Ordering::Less) <==> a.partial_cmp_spec(&b) == Some(
        Ordering::Greater,
    ));
}

/// `precedes` is irreflexive.
pub proof fn lemma_precedes_irreflexive<T: Ord>(a: T)
    requires
        lawful_order::<T>(),
    ensures
        !precedes(a, a),
{
    reveal(obeys_cmp_partial_ord);
    reveal(obeys_cmp_ord);
    reveal(obeys_partial_cmp_spec_properties);
    if precedes(a, a) {
        assert(a.partial_cmp_spec(&a) == Some(Ordering::Less));
        assert(a.partial_cmp_spec(&a) == Some(Ordering::Greater));
    }
}

/// `precedes` is transitive.
pub proof fn lemma_precedes_transitive<T: Ord>(a: T, b: T, c: T)
    requires
        lawful_order::<T>(),
        precedes(a, b),
        precedes(b, c),
    ensures
        precedes(a, c),
{
    reveal(obeys_cmp_partial_ord);
    reveal(obeys_cmp_ord);
    reveal(obeys_partial_cmp_spec_properties);
    assert(a.partial_cmp_spec(&b) == Some(Ordering::Less));
    assert(b.partial_cmp_spec(&c) == Some(Ordering::Less));
    assert(a.partial_cmp_spec(&c) == Some(Ordering::Less));
}

/// If `a` does not precede `b` and `b` does not precede `c`, then `a` does not
/// precede `c`.
pub proof fn lemma_precedes_negatively_transitive<T: Ord>(a: T, b: T, c: T)
    requires
        lawful_order::<T>(),
        !precedes(a, b),
        !precedes(b, c),
    ensures
        !precedes(a, c),
{
    reveal(obeys_cmp_partial_ord);
    reveal(obeys_cmp_ord);
    reveal(obeys_partial_cmp_spec_properties);
    reveal(obeys_eq_spec_properties);
    lemma_comparisons_agree(a, b);
    lemma_comparisons_agree(b, c);
    lemma_comparisons_agree(a, c);
    if precedes(a, c) {
        if a.cmp_spec(&b) == Ordering::Equal {
            assert(a.eq_spec(&b) && b.eq_spec(&a));
            if b.cmp_spec(&c) == Ordering::Equal {
                // all three are equal
                assert(b.eq_spec(&c) && a.eq_spec(&c));
            } else {
                // `b` after `c` after `a`, yet `a` equals `b`
                assert(b.partial_cmp_spec(&a) == Some(Ordering::Greater));
            }
        } else if b.cmp_spec(&c) == Ordering::Equal {
            // `c` after `a` after `b`, yet `b` equals `c`
            assert(c.eq_spec(&b));
            assert(c.partial_cmp_spec(&b) == Some(Ordering::Greater));
        } else {
            // `a` after `b` after `c`, yet `a` before `c`
            assert(a.partial_cmp_spec(&c) == Some(Ordering::Greater));
        }
    }
}

/// In a strict total order exactly one of `a` before `b`, `a == b` and `b` before
/// `a` holds, and `cmp` tells which.
pub proof fn lemma_trichotomy<T: Ord>(a: T, b: T)
    requires
        strict_total_order::<T>(),
    ensures
        T::obeys_cmp_spec(),
        a.cmp_spec(&b) == Ordering::Less <==> precedes(a, b),
        a.cmp_spec(&b) == Ordering::Equal <==> a == b,
        a.cmp_spec(&b) == Ordering::Greater <==> precedes(b, a),
{
    reveal(obeys_cmp_partial_ord);
    reveal(obeys_cmp_ord);
    reveal(obeys_partial_cmp_spec_properties);
    reveal(obeys_concrete_eq);
    assert(a.partial_cmp_spec(&b) == Some(a.cmp_spec(&b)));
    assert(b.partial_cmp_spec(&a) == Some(b.cmp_spec(&a)));
    assert(a.partial_cmp_spec(&b) == Some(Ordering::Equal) <==> a.eq_spec(&b));
    assert(a.partial_cmp_spec(&b) == Some(Ordering::Greater) <==> b.partial_cmp_spec(&a) == Some(Ordering::Less));
}

} // verus!
