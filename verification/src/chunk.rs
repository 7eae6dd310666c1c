//! One fixed-capacity block of element slots.

use vstd::prelude::*;

verus! {

/// A block of exactly `N` slots. A slot is either vacant (`None`) or holds
/// one live element (`Some`).
#[derive(Debug)]
pub struct Chunk<T, const N: usize> {
    slots: Vec<Option<T>>,
}

impl<T, const N: usize> View for Chunk<T, N> {
    type V = Seq<Option<T>>;

    closed spec fn view(&self) -> Seq<Option<T>> {
        self.slots@
    }
}

impl<T, const N: usize> Chunk<T, N> {
    /// A chunk always has exactly `N` slots.
    pub open spec fn wf(&self) -> bool {
        self@.len() == N
    }

    /// Whether every slot of the chunk is vacant.
    pub open spec fn is_vacant(&self) -> bool {
        forall|k: int| 0 <= k < self@.len() ==> self@[k] is None
    }

    /// Allocates a chunk whose slots are all vacant.
    pub fn new_uninit() -> (chunk: Self)
        ensures
            chunk.wf(),
            chunk.is_vacant(),
    {
        let mut slots: Vec<Option<T>> = Vec::with_capacity(N);
        let mut k: usize = 0;
        while k < N
            invariant
                k <= N,
                slots@.len() == k,
                forall|j: int| 0 <= j < k ==> slots@[j] is None,
            decreases N - k,
        {
            slots.push(None);
            k += 1;
        }
        Chunk { slots }
    }

    /// Fills the slot at `offset` with `value`.
    pub fn write(&mut self, offset: usize, value: T)
        requires
            old(self).wf(),
            offset < N,
        ensures
            final(self)@ == old(self)@.update(offset as int, Some(value)),
    {
        self.slots[offset] = Some(value);
    }

    /// Moves the element out of the slot at `offset` and leaves the slot
    /// vacant.
    pub fn take(&mut self, offset: usize) -> (value: T)
        requires
            old(self).wf(),
            offset < N,
            old(self)@[offset as int] is Some,
        ensures
            Some(value) == old(self)@[offset as int],
            final(self)@ == old(self)@.update(offset as int, None),
    {
        let slot = &mut self.slots[offset];
        slot.take().unwrap()
    }

    /// Destroys the live element in the slot at `offset` where it lies and
    /// leaves the slot vacant.
    pub fn drop_in_place(&mut self, offset: usize)
        requires
            old(self).wf(),
            offset < N,
            old(self)@[offset as int] is Some,
        ensures
            final(self)@ == old(self)@.update(offset as int, None),
    {
        self.slots[offset] = None;
    }

    /// Closes the vacant slot at `offset`: every later slot moves one place
    /// down, and the last slot becomes vacant.
    pub fn shift_down(&mut self, offset: usize)
        requires
            old(self).wf(),
            offset < N,
            old(self)@[offset as int] is None,
        ensures
            final(self)@ == old(self)@.remove(offset as int).push(None),
    {
        let vacant = self.slots.remove(offset);
        self.slots.push(vacant);
    }

    /// A reference to the live element in the slot at `offset`.
    pub fn get(&self, offset: usize) -> (elem: &T)
        requires
            self.wf(),
            offset < N,
            self@[offset as int] is Some,
        ensures
            Some(*elem) == self@[offset as int],
    {
        self.slots[offset].as_ref().unwrap()
    }

    /// An exclusive reference to the live element in the slot at `offset`.
    pub fn get_mut(&mut self, offset: usize) -> (elem: &mut T)
        requires
            old(self).wf(),
            offset < N,
            old(self)@[offset as int] is Some,
        ensures
            Some(*elem) == old(self)@[offset as int],
            final(self)@ == old(self)@.update(offset as int, Some(*final(elem))),
    {
        self.slots[offset].as_mut().unwrap()
    }
}

} // verus!
