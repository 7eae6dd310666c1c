//! Walking a container by shared reference.

use vstd::prelude::*;
use vstd::std_specs::iter::IteratorSpecImpl;
use crate::chunked_vec::ChunkedVec;

verus! {

/// A forward walk over the elements of a container, by shared reference.
///
/// The walk keeps the chunk and the offset of the next element and the
/// number of elements still to come.
pub struct Iter<'a, T, const N: usize> {
    pub(crate) vec: &'a ChunkedVec<T, N>,
    pub(crate) chunk_idx: usize,
    pub(crate) offset: usize,
    pub(crate) remaining: usize,
}

impl<'a, T, const N: usize> View for Iter<'a, T, N> {
    type V = Seq<T>;

    /// The elements still to come, in order.
    open(crate) spec fn view(&self) -> Seq<T> {
        self.vec@.skip(self.vec.len - self.remaining)
    }
}

impl<T, const N: usize> ChunkedVec<T, N> {
    /// A walk over all elements, from the first to the last.
    pub fn iter(&self) -> (it: Iter<'_, T, N>)
        requires
            self.wf(),
        ensures
            it@ == self@,
    {
        assert(0 * N == 0) by (nonlinear_arith);
        let it = Iter { vec: self, chunk_idx: 0, offset: 0, remaining: self.len() };
        assert(it@ =~= self@);
        it
    }
}

impl<'a, T, const N: usize> Iter<'a, T, N> {
    /// The invariant of the walk: the container is well-formed, and the
    /// position is the logical index of the first element still to come.
    #[verifier::type_invariant]
    pub open(crate) spec fn wf(&self) -> bool {
        &&& self.vec.wf()
        &&& self.offset < N
        &&& self.chunk_idx * N + self.offset + self.remaining == self.vec.len
    }

    /// Moves the position one slot on, into the next chunk where the
    /// current one ends.
    fn advance_position(&mut self)
        requires
            old(self).remaining > 0,
        ensures
            final(self).vec == old(self).vec,
            final(self).remaining == old(self).remaining - 1,
    {
        proof {
            use_type_invariant(&*self);
        }
        let mut chunk_idx = self.chunk_idx;
        let mut offset = self.offset + 1;
        if likely_stable::unlikely(offset == N) {
            proof {
                let c = chunk_idx as int;
                assert((c + 1) * N == c * N + N) by (nonlinear_arith);
                assert(c + 1 <= (c + 1) * N) by (nonlinear_arith)
                    requires
                        c >= 0,
                        N >= 1,
                ;
            }
            chunk_idx += 1;
            offset = 0;
        }
        *self = Iter { vec: self.vec, chunk_idx, offset, remaining: self.remaining - 1 };
    }

    /// A reference to the element at the position.
    fn current_ptr(&self) -> (elem: &'a T)
        requires
            self.remaining > 0,
        ensures
            *elem == self@[0],
    {
        proof {
            use_type_invariant(self);
        }
        self.vec.get_elem(self.chunk_idx, self.offset)
    }
}

impl<'a, T, const N: usize> Iterator for Iter<'a, T, N> {
    type Item = &'a T;

    /// The next element, or `None` when the walk is over.
    fn next(&mut self) -> (item: Option<&'a T>)
        ensures
            old(self)@.len() == 0 ==> item is None && final(self)@ == old(self)@,
            old(self)@.len() > 0 ==> item == Some(&old(self)@[0]) && final(self)@ == old(self)@.skip(1),
    {
        proof {
            use_type_invariant(&*self);
        }
        if likely_stable::unlikely(self.remaining == 0) {
            return None;
        }
        let value = self.current_ptr();
        self.advance_position();
        proof {
            use_type_invariant(&*self);
            assert(self@ =~= old(self)@.skip(1));
        }
        Some(value)
    }

    /// The number of elements still to come, as a lower and an upper bound.
    fn size_hint(&self) -> (hint: (usize, Option<usize>))
        ensures
            hint.0 == self@.len(),
            hint.1 == Some(hint.0),
    {
        proof {
            use_type_invariant(self);
        }
        let remaining = self.remaining;
        (remaining, Some(remaining))
    }
}

impl<'a, T, const N: usize> IteratorSpecImpl for Iter<'a, T, N> {
    open spec fn obeys_prophetic_iter_laws(&self) -> bool {
        true
    }

    open spec fn remaining(&self) -> Seq<&'a T> {
        self@.map(|k: int, elem: T| &elem)
    }

    open spec fn will_return_none(&self) -> bool {
        true
    }

    open spec fn decrease(&self) -> Option<nat> {
        Some(self@.len())
    }

    open spec fn initial_value_relation(&self, init: &Self) -> bool {
        self@ == init@
    }

    open spec fn peek(&self, index: int) -> Option<&'a T> {
        if 0 <= index < self@.len() {
            Some(&self@[index])
        } else {
            None
        }
    }
}

} // verus!
