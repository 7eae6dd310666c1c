//! Walking a container by value.

use vstd::prelude::*;
use vstd::std_specs::iter::IteratorSpecImpl;
use crate::chunked_vec::ChunkedVec;
use crate::layout::lemma_chunk_of;
use crate::layout::lemma_locate;

verus! {

/// The state of a walk by value: the chunks, and the position in them.
///
/// A slot is vacant once its element was handed out. The elements still
/// to come are the live ones, from the position on.
pub struct Walk<T, const N: usize> {
    pub(crate) vec: ChunkedVec<T, N>,
    pub(crate) chunk_idx: usize,
    pub(crate) offset: usize,
    pub(crate) remaining: usize,
}

/// A forward walk that owns the container and hands its elements out by
/// value.
pub struct IntoIter<T, const N: usize> {
    pub(crate) walk: Walk<T, N>,
}

impl<T, const N: usize> View for Walk<T, N> {
    type V = Seq<T>;

    /// The elements still to come, in order.
    open(crate) spec fn view(&self) -> Seq<T> {
        Seq::new(self.remaining as nat, |k: int| self.vec.slots()[self.position() + k]->0)
    }
}

impl<T, const N: usize> View for IntoIter<T, N> {
    type V = Seq<T>;

    /// The elements still to come, in order.
    open(crate) spec fn view(&self) -> Seq<T> {
        self.walk@
    }
}

impl<T, const N: usize> Walk<T, N> {
    /// The logical index of the slot at the position.
    pub open(crate) spec fn position(&self) -> int {
        self.chunk_idx * N + self.offset
    }

    /// The invariant of the walk: the chunks are whole, the position is in
    /// its chunk, and the live slots are the `remaining` slots from the
    /// position on.
    pub open(crate) spec fn wf(&self) -> bool {
        &&& self.vec.chunks_wf()
        &&& self.offset < N
        &&& self.position() + self.remaining <= self.vec.data@.len() * N
        &&& forall|j: int|
            0 <= j < self.vec.data@.len() * N ==> ((#[trigger] self.vec.slots()[j]) is Some
                <==> self.position() <= j < self.position() + self.remaining)
    }

    /// Whether nothing is left in the chunks: every slot is vacant, and
    /// the container inside counts no element.
    pub open(crate) spec fn is_spent(&self) -> bool {
        self.vec.wf() && self.vec.len == 0
    }

    /// A walk over nothing.
    pub(crate) fn empty() -> (walk: Self)
        requires
            N > 0,
        ensures
            walk.wf(),
            walk@ == Seq::<T>::empty(),
    {
        assert(0 * N == 0) by (nonlinear_arith);
        let walk = Walk {
            vec: ChunkedVec { data: Vec::new(), len: 0 },
            chunk_idx: 0,
            offset: 0,
            remaining: 0,
        };
        assert(walk@ =~= Seq::<T>::empty());
        walk
    }

    /// A walk over all elements of `vec`, from the first to the last.
    pub(crate) fn start(vec: ChunkedVec<T, N>) -> (walk: Self)
        requires
            vec.wf(),
        ensures
            walk.wf(),
            walk@ == vec@,
    {
        proof {
            vec.lemma_wf_flat();
            assert(0 * N == 0) by (nonlinear_arith);
        }
        let walk = Walk { remaining: vec.len(), vec, chunk_idx: 0, offset: 0 };
        assert(walk@ =~= vec@);
        walk
    }

    /// Moves the position one slot on, into the next chunk where the
    /// current one ends.
    fn advance_position(&mut self)
        requires
            old(self).vec.chunks_wf(),
            old(self).offset < N,
            old(self).remaining > 0,
            old(self).position() + old(self).remaining <= old(self).vec.data@.len() * N,
        ensures
            final(self).vec == old(self).vec,
            final(self).offset < N,
            final(self).position() == old(self).position() + 1,
            final(self).remaining == old(self).remaining - 1,
    {
        self.offset += 1;
        if likely_stable::unlikely(self.offset == N) {
            proof {
                let c = self.chunk_idx as int;
                assert((c + 1) * N == c * N + N) by (nonlinear_arith);
                assert(c + 1 <= (c + 1) * N) by (nonlinear_arith)
                    requires
                        c >= 0,
                        N >= 1,
                ;
            }
            self.chunk_idx += 1;
            self.offset = 0;
        }
        self.remaining -= 1;
    }

    /// Moves the element at the position out of its slot, which is vacant
    /// from then on.
    fn take_current(&mut self) -> (value: T)
        requires
            old(self).wf(),
            old(self).remaining > 0,
        ensures
            value == old(self)@[0],
            final(self).vec.chunks_wf(),
            final(self).vec.data@.len() == old(self).vec.data@.len(),
            final(self).vec.len == old(self).vec.len,
            final(self).chunk_idx == old(self).chunk_idx,
            final(self).offset == old(self).offset,
            final(self).remaining == old(self).remaining,
            final(self).vec.slots() == old(self).vec.slots().update(old(self).position(), None),
    {
        proof {
            lemma_locate(self.chunk_idx as int, self.offset as int, N as int);
            lemma_chunk_of(self.position(), self.vec.data@.len() as int, N as int);
            assert(self.vec.slots()[self.position()] is Some);
        }
        let ghost before = self.vec;
        let value = self.vec.data[self.chunk_idx].take(self.offset);
        proof {
            before.lemma_slots_update(&self.vec, self.chunk_idx as int, self.offset as int, None);
        }
        value
    }

    /// The next element, moved out of the container, or `None` when the
    /// walk is over.
    pub(crate) fn next(&mut self) -> (item: Option<T>)
        requires
            old(self).wf(),
        ensures
            final(self).wf(),
            old(self)@.len() == 0 ==> item is None && final(self)@ == old(self)@,
            old(self)@.len() > 0 ==> item == Some(old(self)@[0]) && final(self)@ == old(self)@.skip(1),
    {
        if likely_stable::unlikely(self.remaining == 0) {
            return None;
        }
        let value = self.take_current();
        self.advance_position();
        assert(self@ =~= old(self)@.skip(1));
        Some(value)
    }

    /// Destroys every element still to come and leaves the container
    /// inside empty.
    pub(crate) fn drop_remaining(&mut self)
        requires
            old(self).wf(),
        ensures
            final(self).wf(),
            final(self)@ == Seq::<T>::empty(),
            final(self).is_spent(),
    {
        while self.remaining > 0
            invariant
                self.wf(),
            decreases self.remaining,
        {
            let _dropped = self.take_current();
            self.advance_position();
        }
        self.vec.len = 0;
        proof {
            self.vec.lemma_wf_flat();
            assert(self@ =~= Seq::<T>::empty());
        }
    }
}

impl<T, const N: usize> IntoIter<T, N> {
    /// The invariant of the walk.
    #[verifier::type_invariant]
    pub open(crate) spec fn wf(&self) -> bool {
        self.walk.wf()
    }

    /// Whether nothing is left in the chunks: every slot is vacant, and
    /// the container inside counts no element.
    pub open(crate) spec fn is_spent(&self) -> bool {
        self.walk.is_spent()
    }

    /// Destroys every element still to come. Nothing is left to hand out
    /// afterwards, and the container inside is empty.
    pub fn drop_remaining(&mut self)
        ensures
            final(self)@ == Seq::<T>::empty(),
            final(self).is_spent(),
    {
        proof {
            use_type_invariant(&*self);
        }
        let mut walk = Walk::empty();
        core::mem::swap(&mut walk, &mut self.walk);
        walk.drop_remaining();
        self.walk = walk;
    }
}

impl<T, const N: usize> Iterator for IntoIter<T, N> {
    type Item = T;

    /// The next element, moved out of the container, or `None` when the
    /// walk is over.
    fn next(&mut self) -> (item: Option<T>)
        ensures
            old(self)@.len() == 0 ==> item is None && final(self)@ == old(self)@,
            old(self)@.len() > 0 ==> item == Some(old(self)@[0]) && final(self)@ == old(self)@.skip(1),
    {
        proof {
            use_type_invariant(&*self);
        }
        let mut walk = Walk::empty();
        core::mem::swap(&mut walk, &mut self.walk);
        let item = walk.next();
        self.walk = walk;
        item
    }

    /// The number of elements still to come, as a lower and an upper bound.
    fn size_hint(&self) -> (hint: (usize, Option<usize>))
        ensures
            hint.0 == self@.len(),
            hint.1 == Some(hint.0),
    {
        let remaining = self.walk.remaining;
        (remaining, Some(remaining))
    }
}

impl<T, const N: usize> IteratorSpecImpl for IntoIter<T, N> {
    open spec fn obeys_prophetic_iter_laws(&self) -> bool {
        true
    }

    open spec fn remaining(&self) -> Seq<T> {
        self@
    }

    open spec fn will_return_none(&self) -> bool {
        true
    }

    open spec fn decrease(&self) -> Option<nat> {
        Some(self@.len())
    }

    open spec fn initial_value_relation(&self, init: &Self) -> bool {
        self@ == init@
    }

    open spec fn peek(&self, index: int) -> Option<T> {
        if 0 <= index < self@.len() {
            Some(self@[index])
        } else {
            None
        }
    }
}

impl<T, const N: usize> IntoIterator for ChunkedVec<T, N> {
    type Item = T;

    type IntoIter = IntoIter<T, N>;

    /// Turns the container into a walk that hands out all its elements,
    /// from the first to the last.
    fn into_iter(self) -> (it: IntoIter<T, N>)
        requires
            self.wf(),
        ensures
            it@ == self@,
    {
        IntoIter { walk: Walk::start(self) }
    }
}

} // verus!
