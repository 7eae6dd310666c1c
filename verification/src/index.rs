//! Access to single elements by logical index.

use vstd::prelude::*;
use crate::chunked_vec::ChunkedVec;
use crate::layout::lemma_chunk_of;
use crate::layout::lemma_locate;
use crate::layout::lemma_split;

verus! {

impl<T, const N: usize> ChunkedVec<T, N> {
    /// The chunk that holds the logical index `index`, and the offset of
    /// its slot in that chunk.
    pub fn chunk_and_offset(&self, index: usize) -> (pos: (usize, usize))
        requires
            N > 0,
        ensures
            pos.0 == index / N,
            pos.1 == index % N,
            pos.1 < N,
            index == pos.0 * N + pos.1,
    {
        proof {
            lemma_split(index as int, N as int);
        }
        (index / N, index % N)
    }

    /// The live element in the slot at `offset` of the chunk `chunk_idx`.
    pub(crate) fn get_elem(&self, chunk_idx: usize, offset: usize) -> (elem: &T)
        requires
            self.wf(),
            offset < N,
            chunk_idx * N + offset < self@.len(),
        ensures
            *elem == self@[chunk_idx * N + offset],
    {
        proof {
            lemma_locate(chunk_idx as int, offset as int, N as int);
            lemma_chunk_of(chunk_idx * N + offset, self.data@.len() as int, N as int);
        }
        self.data[chunk_idx].get(offset)
    }

    /// Exclusive access to the live element in the slot at `offset` of the
    /// chunk `chunk_idx`.
    pub(crate) fn get_elem_mut(&mut self, chunk_idx: usize, offset: usize) -> (elem: &mut T)
        requires
            old(self).wf(),
            offset < N,
            chunk_idx * N + offset < old(self)@.len(),
        ensures
            *elem == old(self)@[chunk_idx * N + offset],
            final(self).wf(),
            final(self)@.len() == old(self)@.len(),
            final(self)@ == old(self)@.update(chunk_idx * N + offset, *final(elem)),
            final(self).chunk_count() == old(self).chunk_count(),
    {
        proof {
            lemma_locate(chunk_idx as int, offset as int, N as int);
            lemma_chunk_of(chunk_idx * N + offset, self.data@.len() as int, N as int);
        }
        let ghost before = *old(self);
        let ghost after = *final(self);
        let elem = self.data[chunk_idx].get_mut(offset);
        proof {
            assert forall|i: int| 0 <= i < before.len implies after@[i] == before@.update(
                chunk_idx * N + offset,
                *final(elem),
            )[i] by {
                lemma_split(i, N as int);
                lemma_chunk_of(i, before.data@.len() as int, N as int);
            }
            assert(after@ =~= before@.update(chunk_idx * N + offset, *final(elem)));
        }
        elem
    }

    /// The element at `index`, which the caller knows to be in bounds.
    pub fn get_unchecked(&self, index: usize) -> (elem: &T)
        requires
            self.wf(),
            index < self@.len(),
        ensures
            *elem == self@[index as int],
    {
        let (chunk_idx, offset) = self.chunk_and_offset(index);
        self.get_elem(chunk_idx, offset)
    }

    /// Exclusive access to the element at `index`, which the caller knows
    /// to be in bounds.
    pub fn get_unchecked_mut(&mut self, index: usize) -> (elem: &mut T)
        requires
            old(self).wf(),
            index < old(self)@.len(),
        ensures
            *elem == old(self)@[index as int],
            final(self).wf(),
            final(self)@.len() == old(self)@.len(),
            final(self)@ == old(self)@.update(index as int, *final(elem)),
            final(self).chunk_count() == old(self).chunk_count(),
    {
        let (chunk_idx, offset) = self.chunk_and_offset(index);
        self.get_elem_mut(chunk_idx, offset)
    }

    /// Exclusive access to the element at `index`, or `None` when `index`
    /// is out of bounds.
    pub fn get_mut(&mut self, index: usize) -> (elem: Option<&mut T>)
        requires
            old(self).wf(),
        ensures
            final(self).wf(),
            final(self).chunk_count() == old(self).chunk_count(),
            match elem {
                Some(e) => {
                    &&& index < old(self)@.len()
                    &&& *e == old(self)@[index as int]
                    &&& final(self)@ == old(self)@.update(index as int, *final(e))
                },
                None => index >= old(self)@.len() && final(self)@ == old(self)@,
            },
    {
        if index >= self.len {
            None
        } else {
            Some(self.get_unchecked_mut(index))
        }
    }

    /// The element at `index`, or `None` when `index` is out of bounds.
    pub fn get(&self, index: usize) -> (elem: Option<&T>)
        requires
            self.wf(),
        ensures
            index < self@.len() ==> elem == Some(&self@[index as int]),
            index >= self@.len() ==> elem is None,
    {
        if index >= self.len {
            None
        } else {
            Some(self.get_unchecked(index))
        }
    }
}

impl<T, const N: usize> core::ops::Index<usize> for ChunkedVec<T, N> {
    type Output = T;

    /// The element at `index`, which must be in bounds.
    fn index(&self, index: usize) -> (output: &T)
        ensures
            *output == self@[index as int],
    {
        self.get_unchecked(index)
    }
}

impl<T, const N: usize> vstd::std_specs::core::IndexSpecImpl<usize> for ChunkedVec<T, N> {
    open spec fn index_req(&self, index: &usize) -> bool {
        self.wf() && *index < self@.len()
    }
}

impl<T, const N: usize> core::ops::IndexMut<usize> for ChunkedVec<T, N> {
    /// Exclusive access to the element at `index`, which must be in bounds.
    fn index_mut(&mut self, index: usize) -> (output: &mut T)
        requires
            old(self).wf(),
            index < old(self)@.len(),
        ensures
            *output == old(self)@[index as int],
            final(self).wf(),
            final(self)@ == old(self)@.update(index as int, *final(output)),
            final(self).chunk_count() == old(self).chunk_count(),
    {
        self.get_unchecked_mut(index)
    }
}

} // verus!
