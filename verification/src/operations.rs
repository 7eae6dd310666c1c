//! Growing, shrinking and measuring the container.

use vstd::prelude::*;
use crate::chunk::Chunk;
use crate::chunked_vec::ChunkedVec;
use crate::layout::chunks_after_push;
use crate::layout::capped_slots;
use crate::layout::chunks_for;
use crate::layout::larger;
use crate::layout::lemma_chunks_for;
use crate::layout::lemma_chunks_for_least;
use crate::layout::lemma_chunk_of;
use crate::layout::lemma_locate;
use crate::layout::lemma_split;
use crate::trusted::vec_capacity;

verus! {

/// The slots `s` after the slot at `gap` was closed: the slots behind it
/// moved one place down as far as `end`, where a vacant slot came in.
pub open spec fn gap_moved<T>(s: Seq<Option<T>>, gap: int, end: int) -> Seq<Option<T>> {
    Seq::new(
        s.len(),
        |j: int|
            if j < gap || j > end {
                s[j]
            } else if j < end {
                s[j + 1]
            } else {
                None
            },
    )
}

impl<T, const N: usize> ChunkedVec<T, N> {
    /// Allocates a chunk that holds `value` in its first slot.
    fn create_new_chunk(value: T) -> (chunk: Chunk<T, N>)
        requires
            N > 0,
        ensures
            chunk.wf(),
            chunk@[0] == Some(value),
            forall|o: int| 1 <= o < N ==> chunk@[o] is None,
    {
        let mut chunk = Chunk::new_uninit();
        chunk.write(0, value);
        chunk
    }

    /// Appends `value` behind the last element. A chunk is allocated only
    /// when every allocated slot is taken.
    pub fn push(&mut self, value: T)
        requires
            old(self).wf(),
            old(self)@.len() == old(self).chunk_count() * N ==> old(self)@.len() + N <= usize::MAX,
        ensures
            final(self).wf(),
            final(self)@ == old(self)@.push(value),
            final(self).chunk_count() == chunks_after_push(
                old(self)@.len(),
                old(self).chunk_count(),
                N as nat,
            ),
    {
        let chunk_idx = self.len / N;
        let offset = self.len % N;
        proof {
            lemma_split(self.len as int, N as int);
            lemma_chunk_of(self.len as int, self.data@.len() as int, N as int);
        }
        if chunk_idx >= self.data.len() {
            let chunk = Self::create_new_chunk(value);
            self.data.push(chunk);
        } else {
            self.data[chunk_idx].write(offset, value);
        }
        self.len += 1;
        proof {
            let before = old(self).data@.len() as int;
            assert((before + 1) * N == before * N + N) by (nonlinear_arith);
            assert forall|c: int, o: int|
                0 <= c < self.data@.len() && 0 <= o < N implies ((#[trigger] self.data@[c]@[o]) is Some
                <==> c * N + o < self.len) by {
                lemma_locate(c, o, N as int);
            }
            assert forall|i: int| 0 <= i < self.len implies self@[i] == old(self)@.push(value)[i] by {
                lemma_split(i, N as int);
                lemma_chunk_of(i, old(self).data@.len() as int, N as int);
                if i == old(self).len && i == old(self).data@.len() * N {
                    lemma_locate(old(self).data@.len() as int, 0, N as int);
                }
            }
            assert(self@ =~= old(self)@.push(value));
        }
    }

    /// The least number of chunks that hold `len` elements.
    pub(crate) fn chunks_needed(len: usize) -> (chunks: usize)
        requires
            N > 0,
        ensures
            chunks == chunks_for(len as nat, N as nat),
    {
        if len == 0 {
            0
        } else {
            proof {
                lemma_split(len - 1, N as int);
                assert((len - 1) / (N as int) <= len - 1) by (nonlinear_arith)
                    requires
                        len >= 1,
                        N >= 1,
                ;
            }
            (len - 1) / N + 1
        }
    }

    /// Releases the chunks behind the last one that holds an element.
    fn release_unused_chunks(&mut self)
        requires
            old(self).wf(),
        ensures
            final(self).wf(),
            final(self).len == old(self).len,
            final(self)@ == old(self)@,
            final(self).chunk_count() == chunks_for(old(self)@.len(), N as nat),
    {
        let required_chunks = Self::chunks_needed(self.len);
        proof {
            lemma_chunks_for(self.len as nat, N as nat);
            lemma_chunks_for_least(self.len as nat, N as nat, self.data@.len());
        }
        self.data.truncate(required_chunks);
        proof {
            let before = old(self).data@.len() as int;
            assert(required_chunks * N <= before * N) by (nonlinear_arith)
                requires
                    required_chunks <= before,
                    N > 0,
            ;
            assert forall|i: int| 0 <= i < self.len implies self@[i] == old(self)@[i] by {
                lemma_split(i, N as int);
                lemma_chunk_of(i, required_chunks as int, N as int);
            }
            assert(self@ =~= old(self)@);
        }
    }

    /// Allocates vacant chunks until at least `required_chunks` are there.
    fn reserve_chunks(&mut self, required_chunks: usize)
        requires
            old(self).wf(),
            required_chunks * N <= usize::MAX,
        ensures
            final(self).wf(),
            final(self).len == old(self).len,
            final(self)@ == old(self)@,
            final(self).chunk_count() == larger(old(self).chunk_count(), required_chunks as nat),
    {
        while self.data.len() < required_chunks
            invariant
                self.wf(),
                self.len == old(self).len,
                self@ == old(self)@,
                required_chunks * N <= usize::MAX,
                old(self).data@.len() <= self.data@.len(),
                self.data@.len() <= larger(old(self).data@.len(), required_chunks as nat),
            decreases required_chunks - self.data@.len(),
        {
            let ghost before = *self;
            let chunk = Chunk::new_uninit();
            self.data.push(chunk);
            proof {
                let count = before.data@.len() as int;
                assert((count + 1) * N <= required_chunks * N) by (nonlinear_arith)
                    requires
                        count + 1 <= required_chunks,
                        N > 0,
                ;
                assert((count + 1) * N == count * N + N) by (nonlinear_arith);
                assert forall|c: int| 0 <= c < self.data@.len() implies (#[trigger] self.data@[c]).wf() by {
                    if c < count {
                        assert(self.data@[c] == before.data@[c]);
                    }
                }
                assert forall|c: int, o: int|
                    0 <= c < self.data@.len() && 0 <= o < N implies ((#[trigger] self.data@[c]@[o]) is Some
                    <==> c * N + o < self.len) by {
                    if c < count {
                        assert(self.data@[c] == before.data@[c]);
                    }
                }
                assert forall|i: int| 0 <= i < self.len implies self@[i] == before@[i] by {
                    lemma_split(i, N as int);
                    lemma_chunk_of(i, count, N as int);
                }
                assert(self@ =~= before@);
            }
        }
    }

    /// Sets the length to `new_len`. A longer container ends in clones of
    /// `value`; a shorter one has its last elements destroyed and the
    /// chunks that held only them released.
    pub fn resize(&mut self, new_len: usize, value: T) where T: Clone
        requires
            old(self).wf(),
            new_len > old(self)@.len() ==> chunks_for(new_len as nat, N as nat) * N <= usize::MAX,
        ensures
            final(self).wf(),
            final(self)@.len() == new_len,
            new_len <= old(self)@.len() ==> final(self)@ == old(self)@.take(new_len as int),
            new_len >= old(self)@.len() ==> final(self)@.take(old(self)@.len() as int) == old(self)@,
            forall|i: int| old(self)@.len() <= i < new_len ==> cloned(value, #[trigger] final(self)@[i]),
            final(self).chunk_count() == if new_len > old(self)@.len() {
                larger(old(self).chunk_count(), chunks_for(new_len as nat, N as nat))
            } else if new_len < old(self)@.len() {
                chunks_for(new_len as nat, N as nat)
            } else {
                old(self).chunk_count()
            },
    {
        let old_len = self.len;

        if new_len > old_len {
            let required_chunks = Self::chunks_needed(new_len);
            proof {
                lemma_chunks_for(new_len as nat, N as nat);
            }
            if required_chunks > self.data.len() {
                self.reserve_chunks(required_chunks);
            }
            let ghost chunks = self.data@.len() as int;
            let ghost reserved = *self;
            proof {
                assert(required_chunks * N <= chunks * N) by (nonlinear_arith)
                    requires
                        required_chunks <= chunks,
                        N > 0,
                ;
                self.lemma_wf_flat();
            }

            let mut i = old_len;
            while i < new_len
                invariant
                    N > 0,
                    self.chunks_wf(),
                    self.len == old_len,
                    self.data@.len() == chunks,
                    reserved.data@.len() == chunks,
                    old_len <= i <= new_len <= chunks * N,
                    forall|j: int| 0 <= j < chunks * N ==> ((#[trigger] self.slots()[j]) is Some <==> j < i),
                    forall|j: int| 0 <= j < old_len ==> #[trigger] self.slots()[j] == reserved.slots()[j],
                    forall|j: int| old_len <= j < i ==> cloned(value, (#[trigger] self.slots()[j])->0),
                decreases new_len - i,
            {
                let chunk_idx = i / N;
                let offset = i % N;
                proof {
                    lemma_split(i as int, N as int);
                    lemma_chunk_of(i as int, chunks, N as int);
                }
                let ghost before = *self;
                let copy = value.clone();
                self.data[chunk_idx].write(offset, copy);
                proof {
                    before.lemma_slots_update(&*self, chunk_idx as int, offset as int, Some(copy));
                }
                i += 1;
            }

            self.len = new_len;
            proof {
                self.lemma_wf_flat();
                assert forall|j: int| 0 <= j < old_len implies self@.take(old_len as int)[j] == old(self)@[j] by {
                    assert(self.slots()[j] == reserved.slots()[j]);
                    assert(reserved.slots()[j]->0 == reserved@[j]);
                }
                assert(self@.take(old_len as int) =~= old(self)@);
                assert forall|j: int| old_len <= j < new_len implies cloned(value, #[trigger] self@[j]) by {
                    assert(self@[j] == self.slots()[j]->0);
                }
            }
        } else if new_len < old_len {
            let ghost chunks = self.data@.len() as int;
            let ghost s0 = self.slots();
            proof {
                self.lemma_wf_flat();
            }

            // Destroy the elements between the new and the old length.
            let mut i = new_len;
            while i < old_len
                invariant
                    N > 0,
                    self.chunks_wf(),
                    self.len == old_len,
                    self.data@.len() == chunks,
                    new_len <= i <= old_len <= chunks * N,
                    forall|j: int|
                        0 <= j < chunks * N ==> ((#[trigger] self.slots()[j]) is Some <==> (j < new_len || i
                            <= j < old_len)),
                    forall|j: int| 0 <= j < new_len ==> #[trigger] self.slots()[j] == s0[j],
                decreases old_len - i,
            {
                let chunk_idx = i / N;
                let offset = i % N;
                proof {
                    lemma_split(i as int, N as int);
                    lemma_chunk_of(i as int, chunks, N as int);
                    assert(self.slots()[i as int] is Some);
                }
                let ghost before = *self;
                self.data[chunk_idx].drop_in_place(offset);
                proof {
                    before.lemma_slots_update(&*self, chunk_idx as int, offset as int, None);
                }
                i += 1;
            }

            self.len = new_len;
            proof {
                self.lemma_wf_flat();
                assert forall|j: int| 0 <= j < new_len implies self@[j] == old(self)@.take(new_len as int)[j] by {
                    assert(self.slots()[j] == s0[j]);
                    assert(s0[j] == old(self).slot(j));
                }
                assert(self@ =~= old(self)@.take(new_len as int));
            }
            self.release_unused_chunks();
        } else {
            assert(self@.take(old_len as int) =~= self@);
        }
    }

    /// Removes the element at `index` and returns it. Every later element
    /// moves one position towards the front, across chunk boundaries, and
    /// the chunks that no element needs any more are released.
    pub fn remove(&mut self, index: usize) -> (removed: T)
        requires
            old(self).wf(),
            index < old(self)@.len(),
        ensures
            final(self).wf(),
            removed == old(self)@[index as int],
            final(self)@ == old(self)@.remove(index as int),
            final(self)@.len() == old(self)@.len() - 1,
            forall|j: int| 0 <= j < index ==> #[trigger] final(self)@[j] == old(self)@[j],
            forall|j: int|
                index <= j < final(self)@.len() ==> #[trigger] final(self)@[j] == old(self)@[j + 1],
            final(self).chunk_count() == chunks_for(final(self)@.len(), N as nat),
    {
        let (current_chunk_idx, offset) = self.chunk_and_offset(index);
        let ghost s0 = self.slots();
        let ghost chunks = self.data@.len() as int;
        proof {
            lemma_chunk_of(index as int, chunks, N as int);
            self.lemma_wf_flat();
        }

        // Read the element out of its slot.
        let ghost before = *self;
        let ret = self.data[current_chunk_idx].take(offset);
        proof {
            before.lemma_slots_update(&*self, current_chunk_idx as int, offset as int, None);
        }

        // Shift the rest of its chunk.
        let ghost before = *self;
        self.data[current_chunk_idx].shift_down(offset);
        proof {
            before.lemma_slots_shift(&*self, current_chunk_idx as int, offset as int);
            assert(self.slots() =~= gap_moved(s0, index as int, current_chunk_idx * N + N - 1));
        }

        // Shift the chunks behind it, each handing its first element to
        // the chunk before.
        let until_chunk_idx = (self.len - 1) / N;
        proof {
            lemma_split(self.len - 1, N as int);
            lemma_chunk_of(self.len - 1, chunks, N as int);
            lemma_chunk_of(self.len - 1, current_chunk_idx as int, N as int);
        }
        let mut i = current_chunk_idx;
        while i < until_chunk_idx
            invariant
                N > 0,
                self.chunks_wf(),
                self.len == old(self).len,
                self.data@.len() == chunks,
                s0.len() == chunks * N,
                index < self.len <= chunks * N,
                current_chunk_idx <= i <= until_chunk_idx < chunks,
                until_chunk_idx == (self.len - 1) / (N as int),
                index == current_chunk_idx * N + offset,
                offset < N,
                forall|j: int| 0 <= j < chunks * N ==> ((#[trigger] s0[j]) is Some <==> j < self.len),
                self.slots() == gap_moved(s0, index as int, i * N + N - 1),
            decreases until_chunk_idx - i,
        {
            proof {
                lemma_split(self.len - 1, N as int);
                assert((i + 1) * N == i * N + N) by (nonlinear_arith);
                assert((i + 2) * N == i * N + N + N) by (nonlinear_arith);
                assert((i + 1) * N <= until_chunk_idx * N <= chunks * N - N) by (nonlinear_arith)
                    requires
                        i + 1 <= until_chunk_idx <= chunks - 1,
                        N > 0,
                ;
                assert(current_chunk_idx * N <= i * N) by (nonlinear_arith)
                    requires
                        current_chunk_idx <= i,
                        N > 0,
                ;
                lemma_locate(i + 1, 0, N as int);
                lemma_locate(i as int, N - 1, N as int);
                assert(self.slots()[(i + 1) * N] == s0[(i + 1) * N]);
                assert(self.slots()[i * N + N - 1] is None);
            }
            let ghost before = *self;
            let val_from_next = self.data[i + 1].take(0);
            proof {
                before.lemma_slots_update(&*self, i + 1, 0, None);
            }
            let ghost before = *self;
            self.data[i].write(N - 1, val_from_next);
            proof {
                before.lemma_slots_update(&*self, i as int, N - 1, Some(val_from_next));
            }
            let ghost before = *self;
            self.data[i + 1].shift_down(0);
            proof {
                before.lemma_slots_shift(&*self, i + 1, 0);
                assert(self.slots() =~= gap_moved(s0, index as int, (i + 1) * N + N - 1));
            }
            i += 1;
        }

        let ghost shifted = self.slots();
        self.len -= 1;
        proof {
            let end = until_chunk_idx * N + N - 1;
            assert((until_chunk_idx + 1) * N == end + 1) by (nonlinear_arith)
                requires
                    end == until_chunk_idx * N + N - 1,
            ;
            assert((until_chunk_idx + 1) * N <= chunks * N) by (nonlinear_arith)
                requires
                    until_chunk_idx + 1 <= chunks,
                    N > 0,
            ;
            lemma_split(old(self).len - 1, N as int);
            assert(self.slots() =~= shifted);
            assert forall|j: int| 0 <= j < chunks * N implies ((#[trigger] self.slots()[j]) is Some <==> j
                < self.len) by {
                if j < index {
                    assert(self.slots()[j] == s0[j]);
                } else if j < end {
                    assert(self.slots()[j] == s0[j + 1]);
                } else {
                    assert(self.slots()[j] == if j == end { None } else { s0[j] });
                }
            }
            self.lemma_wf_flat();
            assert forall|j: int| 0 <= j < self.len implies self@[j] == old(self)@.remove(index as int)[j] by {
                assert(self.slots()[j] == self.slot(j));
                if j >= index {
                    assert(s0[j + 1] == old(self).slot(j + 1));
                } else {
                    assert(s0[j] == old(self).slot(j));
                }
            }
            assert(self@ =~= old(self)@.remove(index as int));
        }
        self.release_unused_chunks();
        ret
    }

    /// Removes the element at `index` and returns it. The last element
    /// takes its place; no other element moves, and no chunk is released.
    pub fn swap_remove(&mut self, index: usize) -> (removed: T)
        requires
            old(self).wf(),
            index < old(self)@.len(),
        ensures
            final(self).wf(),
            removed == old(self)@[index as int],
            final(self)@ == old(self)@.update(index as int, old(self)@.last()).drop_last(),
            final(self)@.len() == old(self)@.len() - 1,
            index < final(self)@.len() ==> final(self)@[index as int] == old(self)@.last(),
            forall|j: int|
                0 <= j < final(self)@.len() && j != index ==> #[trigger] final(self)@[j] == old(
                    self,
                )@[j],
            final(self).chunk_count() == old(self).chunk_count(),
    {
        let len = self.len();
        let ghost chunks = self.data@.len() as int;
        let ghost s0 = self.slots();
        proof {
            self.lemma_wf_flat();
        }

        let current_pos = self.chunk_and_offset(index);
        proof {
            lemma_chunk_of(index as int, chunks, N as int);
        }
        let ghost before = *self;
        let ret = self.data[current_pos.0].take(current_pos.1);
        proof {
            before.lemma_slots_update(&*self, current_pos.0 as int, current_pos.1 as int, None);
        }

        // The last element replaces the one that left, unless that was
        // the last element itself.
        if index != len - 1 {
            let last_pos = self.chunk_and_offset(len - 1);
            proof {
                lemma_chunk_of(len - 1, chunks, N as int);
                assert(self.slots()[len - 1] == s0[len - 1]);
            }
            let ghost before = *self;
            let last = self.data[last_pos.0].take(last_pos.1);
            proof {
                before.lemma_slots_update(&*self, last_pos.0 as int, last_pos.1 as int, None);
            }
            let ghost before = *self;
            self.data[current_pos.0].write(current_pos.1, last);
            proof {
                before.lemma_slots_update(
                    &*self,
                    current_pos.0 as int,
                    current_pos.1 as int,
                    Some(last),
                );
            }
        }

        self.len -= 1;
        proof {
            let target = s0.update(index as int, s0[len - 1]).update(len - 1, None);
            assert(self.slots() =~= target);
            self.lemma_wf_flat();
            assert forall|j: int| 0 <= j < self.len implies self@[j] == old(self)@.update(
                index as int,
                old(self)@.last(),
            ).drop_last()[j] by {
                assert(self.slots()[j] == self.slot(j));
                assert(s0[j] == old(self).slot(j));
                assert(s0[len - 1] == old(self).slot(len - 1));
            }
            assert(self@ =~= old(self)@.update(index as int, old(self)@.last()).drop_last());
        }
        ret
    }

    /// The number of elements.
    pub fn len(&self) -> (n: usize)
        ensures
            n == self@.len(),
    {
        self.len
    }

    /// Whether the container holds no element.
    pub fn is_empty(&self) -> (b: bool)
        ensures
            b == (self@.len() == 0),
    {
        self.len == 0
    }

    /// The number of slots in `reserved` chunks. The count stops at
    /// `usize::MAX`.
    pub fn slots_for_room(reserved: usize) -> (cap: usize)
        requires
            N > 0,
        ensures
            cap == capped_slots(reserved as nat, N as nat),
    {
        match reserved.checked_mul(N) {
            Some(slots) => slots,
            None => usize::MAX,
        }
    }

    /// The number of slots in the chunks that the chunk list has room for
    /// before it must grow itself. The room is what the allocator gave the
    /// chunk list, and is counted by `slots_for_room`.
    pub fn capacity(&self) -> (cap: usize)
        requires
            self.wf(),
        ensures
            cap >= self.chunk_count() * N,
            exists|reserved: nat|
                reserved >= self.chunk_count() && cap == #[trigger] capped_slots(reserved, N as nat),
    {
        let reserved = vec_capacity(&self.data);
        proof {
            assert(reserved * N >= self.data@.len() * N) by (nonlinear_arith)
                requires
                    reserved >= self.data@.len(),
                    N > 0,
            ;
        }
        let cap = Self::slots_for_room(reserved);
        assert(reserved as nat >= self.chunk_count() && cap == capped_slots(reserved as nat, N as nat));
        cap
    }

    /// The number of slots in the chunks that are allocated.
    pub fn allocated_capacity(&self) -> (cap: usize)
        requires
            self.wf(),
        ensures
            cap == self.chunk_count() * N,
    {
        self.data.len() * N
    }
}

} // verus!
