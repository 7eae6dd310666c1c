//! The container type, its model and its invariant.

use vstd::prelude::*;
use crate::chunk::Chunk;
use crate::DEFAULT_CHUNK_SIZE;
use crate::layout::lemma_chunk_of;
use crate::layout::lemma_locate;
use crate::layout::lemma_split;

verus! {

/// A growable sequence whose elements live in chunks of `N` slots each.
///
/// The element with logical index `i` is in chunk `i / N` at offset `i % N`.
/// The live elements are the first `len` logical slots; every other slot of
/// an allocated chunk is vacant.
#[derive(Debug)]
pub struct ChunkedVec<T, const N: usize> {
    pub(crate) data: Vec<Chunk<T, N>>,
    pub(crate) len: usize,
}

/// A marker type that fixes the chunk size of the containers it constructs.
pub struct ChunkedVecSized<T, const N: usize>(core::marker::PhantomData<T>);

/// The content of the slot with logical index `i` in the chunks `data`.
pub open spec fn slot_at<T, const N: usize>(data: Seq<Chunk<T, N>>, i: int) -> Option<T> {
    data[i / (N as int)]@[i % (N as int)]
}

/// All slots of the chunks `data`, in the order of their logical indices.
pub open spec fn flatten<T, const N: usize>(data: Seq<Chunk<T, N>>) -> Seq<Option<T>> {
    Seq::new((data.len() * N) as nat, |j: int| slot_at(data, j))
}

impl<T, const N: usize> View for ChunkedVec<T, N> {
    type V = Seq<T>;

    /// The live elements, in order.
    open(crate) spec fn view(&self) -> Seq<T> {
        Seq::new(self.len as nat, |i: int| self.slot(i)->0)
    }
}

impl<T, const N: usize> ChunkedVec<T, N> {
    /// The content of the slot with logical index `i`.
    pub open(crate) spec fn slot(&self, i: int) -> Option<T> {
        slot_at(self.data@, i)
    }

    /// The number of chunks that are allocated.
    pub open(crate) spec fn chunk_count(&self) -> nat {
        self.data@.len()
    }

    /// The invariant of the container: the chunk size is positive, the
    /// allocated slots can be counted in a `usize`, every chunk has `N`
    /// slots, and a slot is live exactly when its logical index is below
    /// the length.
    pub open(crate) spec fn wf(&self) -> bool {
        &&& N > 0
        &&& self.data@.len() * N <= usize::MAX
        &&& self.len <= self.data@.len() * N
        &&& forall|c: int| 0 <= c < self.data@.len() ==> (#[trigger] self.data@[c]).wf()
        &&& forall|c: int, o: int|
            0 <= c < self.data@.len() && 0 <= o < N ==> ((#[trigger] self.data@[c]@[o]) is Some
                <==> c * N + o < self.len)
    }

    /// All slots of the allocated chunks, in the order of their logical
    /// indices.
    pub open(crate) spec fn slots(&self) -> Seq<Option<T>> {
        flatten(self.data@)
    }

    /// Every allocated chunk has `N` slots, and they can be counted in a
    /// `usize`.
    pub open(crate) spec fn chunks_wf(&self) -> bool {
        &&& N > 0
        &&& self.data@.len() * N <= usize::MAX
        &&& forall|c: int| 0 <= c < self.data@.len() ==> (#[trigger] self.data@[c]).wf()
    }

    /// The invariant, stated over logical indices.
    pub(crate) proof fn lemma_wf_flat(&self)
        requires
            self.chunks_wf(),
        ensures
            self.wf() <==> (self.len <= self.data@.len() * N && forall|j: int|
                0 <= j < self.data@.len() * N ==> ((#[trigger] self.slots()[j]) is Some <==> j
                    < self.len)),
    {
        if self.wf() {
            assert forall|j: int| 0 <= j < self.data@.len() * N implies ((
            #[trigger] self.slots()[j]) is Some <==> j < self.len) by {
                lemma_split(j, N as int);
                lemma_chunk_of(j, self.data@.len() as int, N as int);
                assert(self.data@[j / (N as int)]@[j % (N as int)] is Some <==> j < self.len);
            }
        }
        if self.len <= self.data@.len() * N && forall|j: int|
            0 <= j < self.data@.len() * N ==> ((#[trigger] self.slots()[j]) is Some <==> j
                < self.len) {
            assert forall|c: int, o: int| 0 <= c < self.data@.len() && 0 <= o < N implies ((
            #[trigger] self.data@[c]@[o]) is Some <==> c * N + o < self.len) by {
                lemma_locate(c, o, N as int);
                lemma_chunk_of(c * N + o, self.data@.len() as int, N as int);
                assert(self.slots()[c * N + o] == self.data@[c]@[o]);
            }
        }
    }

    /// Writing `x` to the slot at offset `o` of chunk `c` updates the slot
    /// with logical index `c * N + o`, and no other.
    pub(crate) proof fn lemma_slots_update(&self, after: &Self, c: int, o: int, x: Option<T>)
        requires
            self.chunks_wf(),
            0 <= c < self.data@.len(),
            0 <= o < N,
            after.data@.len() == self.data@.len(),
            forall|d: int| 0 <= d < self.data@.len() && d != c ==> after.data@[d] == self.data@[d],
            after.data@[c]@ == self.data@[c]@.update(o, x),
        ensures
            after.chunks_wf(),
            after.slots() == self.slots().update(c * N + o, x),
            0 <= c * N + o < self.slots().len(),
    {
        lemma_locate(c, o, N as int);
        lemma_chunk_of(c * N + o, self.data@.len() as int, N as int);
        assert forall|j: int| 0 <= j < self.data@.len() * N implies after.slots()[j]
            == self.slots().update(c * N + o, x)[j] by {
            lemma_split(j, N as int);
            lemma_chunk_of(j, self.data@.len() as int, N as int);
        }
        assert(after.slots() =~= self.slots().update(c * N + o, x));
    }

    /// Closing the vacant slot at offset `o` of chunk `c` removes the slot
    /// with logical index `c * N + o` and inserts a vacant slot at the end
    /// of that chunk.
    pub(crate) proof fn lemma_slots_shift(&self, after: &Self, c: int, o: int)
        requires
            self.chunks_wf(),
            0 <= c < self.data@.len(),
            0 <= o < N,
            after.data@.len() == self.data@.len(),
            forall|d: int| 0 <= d < self.data@.len() && d != c ==> after.data@[d] == self.data@[d],
            after.data@[c]@ == self.data@[c]@.remove(o).push(None),
        ensures
            after.chunks_wf(),
            after.slots() == self.slots().remove(c * N + o).insert(c * N + N - 1, None),
            0 <= c * N + o <= c * N + N - 1 < self.slots().len(),
    {
        lemma_locate(c, o, N as int);
        lemma_locate(c, N - 1, N as int);
        lemma_chunk_of(c * N + o, self.data@.len() as int, N as int);
        lemma_chunk_of(c * N + N - 1, self.data@.len() as int, N as int);
        let target = self.slots().remove(c * N + o).insert(c * N + N - 1, None);
        assert forall|j: int| 0 <= j < self.data@.len() * N implies after.slots()[j]
            == target[j] by {
            lemma_split(j, N as int);
            lemma_chunk_of(j, self.data@.len() as int, N as int);
            if c * N + o <= j < c * N + N - 1 {
                lemma_locate(c, j - c * N, N as int);
                lemma_locate(c, j + 1 - c * N, N as int);
            }
        }
        assert(after.slots() =~= target);
    }

    /// What the invariant says of the sizes.
    pub proof fn lemma_wf_sizes(&self)
        requires
            self.wf(),
        ensures
            N > 0,
            self@.len() <= self.chunk_count() * N <= usize::MAX,
    {
    }
}

impl<T, const N: usize> ChunkedVecSized<T, N> {
    /// An empty container with chunks of `N` slots. Nothing is allocated.
    pub fn new() -> (vec: ChunkedVec<T, N>)
        requires
            N > 0,
        ensures
            vec.wf(),
            vec@ == Seq::<T>::empty(),
            vec.chunk_count() == 0,
    {
        let vec = ChunkedVec { data: Vec::new(), len: 0 };
        assert(vec@ =~= Seq::<T>::empty());
        vec
    }

    /// An empty container with chunks of `N` slots whose chunk list has
    /// room for the chunks that `capacity` elements need. No chunk is
    /// allocated yet.
    pub fn with_capacity(capacity: usize) -> (vec: ChunkedVec<T, N>)
        requires
            N > 0,
        ensures
            vec.wf(),
            vec@ == Seq::<T>::empty(),
            vec.chunk_count() == 0,
    {
        let chunks = ChunkedVec::<T, N>::chunks_needed(capacity);
        let vec = ChunkedVec { data: Vec::with_capacity(chunks), len: 0 };
        assert(vec@ =~= Seq::<T>::empty());
        vec
    }
}

impl<T> ChunkedVec<T, DEFAULT_CHUNK_SIZE> {
    /// An empty container with chunks of the default size.
    pub fn new() -> (vec: Self)
        ensures
            vec.wf(),
            vec@ == Seq::<T>::empty(),
            vec.chunk_count() == 0,
    {
        ChunkedVecSized::<T, DEFAULT_CHUNK_SIZE>::new()
    }

    /// An empty container with chunks of the default size whose chunk list
    /// has room for the chunks that `capacity` elements need.
    pub fn with_capacity(capacity: usize) -> (vec: Self)
        ensures
            vec.wf(),
            vec@ == Seq::<T>::empty(),
            vec.chunk_count() == 0,
    {
        ChunkedVecSized::<T, DEFAULT_CHUNK_SIZE>::with_capacity(capacity)
    }
}

} // verus!
