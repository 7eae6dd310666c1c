//! Walking a container by exclusive reference.

use vstd::prelude::*;
use crate::chunked_vec::ChunkedVec;

verus! {

/// A forward walk over the elements of a container, by exclusive
/// reference. Each element is visited once.
pub struct IterMut<'a, T, const N: usize> {
    pub(crate) vec: &'a mut ChunkedVec<T, N>,
    pub(crate) chunk_idx: usize,
    pub(crate) offset: usize,
    pub(crate) remaining: usize,
}

impl<T, const N: usize> ChunkedVec<T, N> {
    /// A walk over all elements, from the first to the last, that lets
    /// the caller change each of them.
    pub fn iter_mut(&mut self) -> (it: IterMut<'_, T, N>)
        requires
            old(self).wf(),
        ensures
            it.wf(),
            it.elems() == old(self)@,
            it.chunk_count() == old(self).chunk_count(),
            it.position() == 0,
            *final(it.source()) == *final(self),
    {
        let it = IterMut { remaining: self.len(), vec: self, chunk_idx: 0, offset: 0 };
        assert(it.chunk_idx * N == 0) by (nonlinear_arith)
            requires
                it.chunk_idx == 0,
        ;
        it
    }
}

impl<'a, T, const N: usize> IterMut<'a, T, N> {
    /// All elements of the container as they are now.
    pub open spec fn elems(&self) -> Seq<T> {
        (*self.source())@
    }

    /// The number of chunks that the container has allocated now.
    pub open spec fn chunk_count(&self) -> nat {
        (*self.source()).chunk_count()
    }

    /// The exclusive reference to the container that the walk holds.
    pub open(crate) spec fn source(&self) -> &'a mut ChunkedVec<T, N> {
        self.vec
    }

    /// The logical index of the next element.
    pub open(crate) spec fn position(&self) -> int {
        self.chunk_idx * N + self.offset
    }

    /// The invariant of the walk.
    pub open(crate) spec fn wf(&self) -> bool {
        &&& self.vec.wf()
        &&& self.offset < N
        &&& self.chunk_idx * N + self.offset + self.remaining == self.vec.len
    }

    /// Moves the position one slot on.
    fn advance_position(&mut self)
        requires
            old(self).wf(),
            old(self).remaining > 0,
        ensures
            final(self).wf(),
            *final(self).vec == *old(self).vec,
            *final(final(self).source()) == *final(old(self).source()),
            final(self).position() == old(self).position() + 1,
            final(self).remaining == old(self).remaining - 1,
    {
        self.offset += 1;
        if likely_stable::unlikely(self.offset == N) {
            proof {
                let c = self.chunk_idx as int;
                assert((c + 1) * N == c * N + N) by (nonlinear_arith);
                assert(c + 1 <= (c + 1) * N) by (nonlinear_arith)
                    requires
                        c >= 0,
                        N >= 1,
                ;
            }
            self.chunk_idx += 1;
            self.offset = 0;
        }
        self.remaining -= 1;
    }

    /// The number of elements still to come, as a lower and an upper bound.
    pub fn size_hint(&self) -> (hint: (usize, Option<usize>))
        requires
            self.wf(),
        ensures
            hint.0 == self.elems().len() - self.position(),
            hint.1 == Some(hint.0),
    {
        let remaining = self.remaining;
        (remaining, Some(remaining))
    }

    /// The next element, or `None` when the walk is over.
    pub fn next(&mut self) -> (item: Option<&mut T>)
        requires
            old(self).wf(),
        ensures
            final(self).wf(),
            final(self).chunk_count() == old(self).chunk_count(),
            *final(final(self).source()) == *final(old(self).source()),
            match item {
                Some(e) => {
                    &&& old(self).position() < old(self).elems().len()
                    &&& *e == old(self).elems()[old(self).position()]
                    &&& final(self).elems() == old(self).elems().update(old(self).position(), *final(e))
                    &&& final(self).position() == old(self).position() + 1
                },
                None => {
                    &&& old(self).position() == old(self).elems().len()
                    &&& final(self).elems() == old(self).elems()
                    &&& final(self).position() == old(self).position()
                },
            },
    {
        if likely_stable::unlikely(self.remaining == 0) {
            return None;
        }
        let chunk_idx = self.chunk_idx;
        let offset = self.offset;
        self.advance_position();
        Some(self.vec.get_elem_mut(chunk_idx, offset))
    }
}

} // verus!
