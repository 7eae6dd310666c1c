//! Conveniences built on the core operations.

use vstd::prelude::*;
use crate::chunked_vec::ChunkedVec;
use crate::laws::law_push_chunk_count;
use crate::layout::chunks_for;
use crate::layout::larger;
use crate::layout::lemma_chunks_for;
use crate::layout::lemma_chunks_for_least;
use crate::DEFAULT_CHUNK_SIZE;

verus! {

impl<T> Default for ChunkedVec<T, DEFAULT_CHUNK_SIZE> {
    /// An empty container with chunks of the default size.
    fn default() -> (vec: Self)
        ensures
            vec.wf(),
            vec@ == Seq::<T>::empty(),
            vec.chunk_count() == 0,
    {
        Self::new()
    }
}

impl<T, const N: usize> ChunkedVec<T, N> {
    /// Pushes every item of `items`, in order.
    pub fn extend(&mut self, items: Vec<T>)
        requires
            old(self).wf(),
            larger(
                old(self).chunk_count(),
                chunks_for(old(self)@.len() + items@.len(), N as nat),
            ) * N <= usize::MAX,
        ensures
            final(self).wf(),
            final(self)@ == old(self)@ + items@,
            final(self).chunk_count() == larger(
                old(self).chunk_count(),
                chunks_for(final(self)@.len(), N as nat),
            ),
    {
        let ghost all = items@;
        let ghost total = old(self)@.len() + all.len();
        proof {
            lemma_chunks_for(old(self)@.len(), N as nat);
            lemma_chunks_for_least(old(self)@.len(), N as nat, old(self).chunk_count());
            assert(old(self)@ + all.take(0) =~= old(self)@);
        }
        for item in it: items.into_iter()
            invariant
                it.seq() == all,
                total == old(self)@.len() + all.len(),
                self.wf(),
                self@ == old(self)@ + all.take(it.index() as int),
                self.chunk_count() == larger(old(self).chunk_count(), chunks_for(self@.len(), N as nat)),
                larger(old(self).chunk_count(), chunks_for(total, N as nat)) * N <= usize::MAX,
        {
            let ghost before = *self;
            proof {
                let len = self@.len();
                let chunks = self.chunk_count();
                if len == chunks * N {
                    lemma_chunks_for(total, N as nat);
                    let last = chunks_for(total, N as nat);
                    if last <= chunks {
                        assert(last * N <= chunks * N) by (nonlinear_arith)
                            requires
                                last <= chunks,
                                N > 0,
                        ;
                    }
                    assert((chunks + 1) * N <= last * N) by (nonlinear_arith)
                        requires
                            chunks + 1 <= last,
                            N > 0,
                    ;
                    assert((chunks + 1) * N == chunks * N + N) by (nonlinear_arith);
                }
            }
            self.push(item);
            proof {
                law_push_chunk_count(before@.len(), old(self).chunk_count(), N as nat);
                assert(all.take(it.index() + 1) =~= all.take(it.index() as int).push(item));
                assert(self@ =~= old(self)@ + all.take(it.index() + 1));
            }
        }
        assert(all.take(all.len() as int) =~= all);
    }
}

} // verus!
