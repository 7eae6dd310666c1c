//! Comparing a container with a plain array.

use vstd::prelude::*;
use vstd::std_specs::cmp::PartialEqSpec;
use crate::chunked_vec::ChunkedVec;

verus! {

impl<T: PartialEq, const N: usize> ChunkedVec<T, N> {
    /// Whether the container holds the same elements as `other`, in the
    /// same order: the lengths match, and the elements compare equal one
    /// by one.
    pub fn eq<const M: usize>(&self, other: &[T; M]) -> (same: bool)
        requires
            self.wf(),
        ensures
            T::obeys_eq_spec() ==> same == (self@.len() == M && forall|i: int|
                0 <= i < M ==> (#[trigger] self@[i]).eq_spec(&other@[i])),
    {
        if self.len() != M {
            return false;
        }
        let mut it = self.iter();
        let mut k: usize = 0;
        while k < M
            invariant
                k <= M,
                self@.len() == M,
                it@.len() == M - k,
                forall|i: int| 0 <= i < M - k ==> it@[i] == self@[k + i],
                T::obeys_eq_spec() ==> forall|i: int|
                    0 <= i < k ==> (#[trigger] self@[i]).eq_spec(&other@[i]),
            decreases M - k,
        {
            match it.next() {
                Some(elem) => {
                    if !(*elem == other[k]) {
                        return false;
                    }
                },
                None => {
                    return false;
                },
            }
            k += 1;
        }
        true
    }
}

} // verus!
