//! How two scores compare, and what follows once the comparison of a score
//! type keeps the laws of a total order.

use std::cmp::Ordering;
use vstd::laws_cmp::{obeys_cmp, obeys_cmp_ord, obeys_cmp_partial_ord, obeys_partial_cmp_spec_properties};
use vstd::laws_eq::obeys_eq_spec_properties;
use vstd::prelude::*;
use vstd::std_specs::cmp::PartialOrdSpec;

verus! {

/// `a` ranks strictly above `b`: what `a > b` stands for.
pub open spec fn above<S: Ord>(a: S, b: S) -> bool {
    a.partial_cmp_spec(&b) == Some(Ordering::Greater)
}

/// `a` ranks no higher than `b`.
pub open spec fn at_most<S: Ord>(a: S, b: S) -> bool {
    !above(a, b)
}

/// The comparison of `S` is a total order, and the comparison functions
/// and operators of `S` compute it. The integer types have such an order,
/// and so have tuples, options and references of types that have one:
/// the lemmas of `vstd::laws_cmp::group_laws_cmp` prove it of them.
pub open spec fn is_lawful_order<S: Ord>() -> bool {
    obeys_cmp::<S>()
}

/// Under a lawful order `>` computes `above`.
pub proof fn lemma_lawful_order_is_computed<S: Ord>()
    requires
        is_lawful_order::<S>(),
    ensures
        S::obeys_partial_cmp_spec(),
{
    reveal(obeys_cmp_partial_ord);
}

/// Under a lawful order no score ranks above itself.
pub proof fn lemma_at_most_reflexive<S: Ord>(a: S)
    requires
        is_lawful_order::<S>(),
    ensures
        at_most(a, a),
{
    reveal(obeys_partial_cmp_spec_properties);
}

/// Under a lawful order two scores never rank above each other.
pub proof fn lemma_above_asymmetric<S: Ord>(a: S, b: S)
    requires
        is_lawful_order::<S>(),
        above(a, b),
    ensures
        at_most(b, a),
{
    reveal(obeys_partial_cmp_spec_properties);
}

/// Under a lawful order `at_most` is transitive.
pub proof fn lemma_at_most_transitive<S: Ord>(a: S, b: S, c: S)
    requires
        is_lawful_order::<S>(),
        at_most(a, b),
        at_most(b, c),
    ensures
        at_most(a, c),
{
    reveal(obeys_cmp_ord);
    reveal(obeys_cmp_partial_ord);
    reveal(obeys_partial_cmp_spec_properties);
    reveal(obeys_eq_spec_properties);
}

} // verus!
