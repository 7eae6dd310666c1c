//! Chunk and offset arithmetic: how logical indices map to slots.

use vstd::prelude::*;
use vstd::arithmetic::div_mod::lemma_fundamental_div_mod;
use vstd::arithmetic::div_mod::lemma_fundamental_div_mod_converse;

verus! {

/// The least number of chunks of `n` slots that hold `len` elements:
/// `len / n`, rounded up.
pub open spec fn chunks_for(len: nat, n: nat) -> nat {
    if len == 0 {
        0
    } else {
        ((len - 1) / (n as int) + 1) as nat
    }
}

/// The number of chunks after one more element was pushed onto `len`
/// elements held in `chunks` chunks of `n` slots: one more chunk exactly
/// when every allocated slot is taken.
pub open spec fn chunks_after_push(len: nat, chunks: nat, n: nat) -> nat {
    if len == chunks * n {
        chunks + 1
    } else {
        chunks
    }
}

/// The number of slots in `chunks` chunks of `n` slots, as far as a `usize`
/// can count them.
pub open spec fn capped_slots(chunks: nat, n: nat) -> nat {
    if chunks * n <= usize::MAX {
        chunks * n
    } else {
        usize::MAX as nat
    }
}

/// The larger of two counts.
pub open spec fn larger(a: nat, b: nat) -> nat {
    if a >= b {
        a
    } else {
        b
    }
}

/// A logical index splits into a chunk index and an offset below `n`, and
/// is recovered from them.
pub proof fn lemma_split(i: int, n: int)
    requires
        0 <= i,
        0 < n,
    ensures
        0 <= i / n,
        0 <= i % n < n,
        i == (i / n) * n + i % n,
{
    lemma_fundamental_div_mod(i, n);
    assert(0 <= i / n && 0 <= i % n < n && n * (i / n) == (i / n) * n) by (nonlinear_arith)
        requires
            0 <= i,
            0 < n,
    ;
}

/// The slot at offset `o` of chunk `c` has the logical index `c * n + o`,
/// and no other.
pub proof fn lemma_locate(c: int, o: int, n: int)
    requires
        0 <= o < n,
    ensures
        (c * n + o) / n == c,
        (c * n + o) % n == o,
{
    lemma_fundamental_div_mod_converse(c * n + o, n, c, o);
}

/// An index below `chunks * n` lies in one of the first `chunks` chunks,
/// and an index at or above it does not.
pub proof fn lemma_chunk_of(i: int, chunks: int, n: int)
    requires
        0 <= i,
        0 < n,
        0 <= chunks,
    ensures
        i < chunks * n <==> i / n < chunks,
{
    lemma_split(i, n);
    if i / n < chunks {
        assert((i / n) * n + n <= chunks * n) by (nonlinear_arith)
            requires
                i / n + 1 <= chunks,
                0 < n,
        ;
    } else {
        assert((i / n) * n >= chunks * n) by (nonlinear_arith)
            requires
                i / n >= chunks,
                0 < n,
        ;
    }
}

/// `chunks_for(len, n)` chunks have room for `len` elements, with less
/// than one chunk to spare.
pub proof fn lemma_chunks_for(len: nat, n: nat)
    requires
        0 < n,
    ensures
        len <= chunks_for(len, n) * n < len + n,
{
    if len == 0 {
        assert(chunks_for(len, n) * n == 0);
    } else {
        let q = (len - 1) / (n as int);
        lemma_split(len - 1, n as int);
        assert((q + 1) * n == q * n + n) by (nonlinear_arith);
    }
}

/// Any count of chunks with room for `len` elements is at least
/// `chunks_for(len, n)`.
pub proof fn lemma_chunks_for_least(len: nat, n: nat, k: nat)
    requires
        0 < n,
        len <= k * n,
    ensures
        chunks_for(len, n) <= k,
{
    if len > 0 {
        lemma_chunk_of(len - 1, k as int, n as int);
    }
}

} // verus!
