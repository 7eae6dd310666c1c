//! The contracts that are taken on trust: they describe code that lives
//! outside this crate and is not verified here.

use vstd::prelude::*;

verus! {

/// `likely_stable::unlikely` marks a condition as rarely true for the
/// branch predictor. It returns its argument unchanged.
pub assume_specification[ likely_stable::unlikely ](b: bool) -> (hinted: bool)
    ensures
        hinted == b,
;

/// `Vec::capacity`: the number of elements the vector can hold before it
/// has to reallocate. The allocator decides the exact number; it is never
/// below the length.
#[verifier::external_body]
pub(crate) fn vec_capacity<E>(v: &Vec<E>) -> (capacity: usize)
    ensures
        capacity >= v@.len(),
{
    v.capacity()
}

} // verus!
