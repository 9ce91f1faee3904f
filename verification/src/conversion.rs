use vstd::prelude::*;

verus! {

/// The standard library converts every type to itself: `From::from` of a type for the same type
/// returns its argument unchanged.
pub assume_specification<A>[ <A as core::convert::From<A>>::from ](value: A) -> (same: A)
    ensures
        same == value,
;

} // verus!
