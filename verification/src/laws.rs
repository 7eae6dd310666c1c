//! What holds of whole runs of operations, proved over the models that the
//! contracts of the operations speak of.

use vstd::prelude::*;
use crate::layout::chunks_after_push;
use crate::layout::chunks_for;
use crate::layout::larger;
use crate::layout::lemma_chunks_for;
use crate::layout::lemma_chunks_for_least;

verus! {

/// The elements of a container that held `start` and then took `values`
/// by `push`, one by one and in order.
pub open spec fn pushed<T>(start: Seq<T>, values: Seq<T>) -> Seq<T>
    decreases values.len(),
{
    if values.len() == 0 {
        start
    } else {
        pushed(start, values.drop_last()).push(values.last())
    }
}

/// The number of chunks of `n` slots that a container has after `k` calls
/// of `push`, if it was empty and without chunks before the first.
pub open spec fn chunks_after_pushes(k: nat, n: nat) -> nat
    decreases k,
{
    if k == 0 {
        0
    } else {
        chunks_after_push((k - 1) as nat, chunks_after_pushes((k - 1) as nat, n), n)
    }
}

/// The elements that a walk over `s` has still to hand out after `k`
/// calls of `next`.
pub open spec fn after_nexts<T>(s: Seq<T>, k: nat) -> Seq<T>
    decreases k,
{
    if k == 0 {
        s
    } else {
        after_nexts(s, (k - 1) as nat).skip(1)
    }
}

/// Pushing appends: the elements that were there stay in front, and the
/// pushed values follow in the order of the calls.
pub proof fn law_push_appends<T>(start: Seq<T>, values: Seq<T>)
    ensures
        pushed(start, values) == start + values,
    decreases values.len(),
{
    if values.len() == 0 {
        assert(start + values =~= start);
    } else {
        law_push_appends(start, values.drop_last());
        assert(start + values =~= (start + values.drop_last()).push(values.last()));
    }
}

/// After `k` pushes onto an empty container its length is `k`, and the
/// element at `i` is the value of the `i`-th push.
pub proof fn law_push_len_and_order<T>(values: Seq<T>)
    ensures
        pushed(Seq::<T>::empty(), values).len() == values.len(),
        forall|i: int|
            0 <= i < values.len() ==> #[trigger] pushed(Seq::<T>::empty(), values)[i] == values[i],
{
    law_push_appends(Seq::<T>::empty(), values);
    assert(Seq::<T>::empty() + values =~= values);
}

/// A push allocates a chunk only when the elements need one more: a
/// container that held `spare` chunks or as many as its elements needed,
/// whichever was more, still does so after the push.
pub proof fn law_push_chunk_count(len: nat, spare: nat, n: nat)
    requires
        n > 0,
    ensures
        chunks_after_push(len, larger(spare, chunks_for(len, n)), n) == larger(
            spare,
            chunks_for(len + 1, n),
        ),
{
    lemma_chunks_for(len, n);
    lemma_chunks_for(len + 1, n);
    let needed = chunks_for(len, n);
    let needed_after = chunks_for(len + 1, n);
    let chunks = larger(spare, needed);
    lemma_chunks_for_least(len, n, needed_after);
    if len == chunks * n {
        lemma_chunks_for_least(len, n, chunks);
        assert((chunks + 1) * n == chunks * n + n) by (nonlinear_arith);
        lemma_chunks_for_least(len + 1, n, chunks + 1);
        if needed_after <= chunks {
            assert(needed_after * n <= chunks * n) by (nonlinear_arith)
                requires
                    needed_after <= chunks,
                    n > 0,
            ;
        }
    } else {
        if len > chunks * n {
            assert(needed * n <= chunks * n) by (nonlinear_arith)
                requires
                    needed <= chunks,
                    n > 0,
            ;
        }
        lemma_chunks_for_least(len + 1, n, chunks);
    }
}

/// A push onto a container that holds no more chunks than its elements
/// need leaves it so.
pub proof fn law_push_keeps_least_chunks(len: nat, n: nat)
    requires
        n > 0,
    ensures
        chunks_after_push(len, chunks_for(len, n), n) == chunks_for(len + 1, n),
{
    law_push_chunk_count(len, 0, n);
}

/// After `k` pushes onto an empty container with chunks of `n` slots the
/// allocated slots are `n` times `k / n`, rounded up.
pub proof fn law_push_allocation(k: nat, n: nat)
    requires
        n > 0,
    ensures
        chunks_after_pushes(k, n) == chunks_for(k, n),
        chunks_after_pushes(k, n) * n == n * chunks_for(k, n),
    decreases k,
{
    if k > 0 {
        law_push_allocation((k - 1) as nat, n);
        law_push_keeps_least_chunks((k - 1) as nat, n);
    }
    assert(chunks_for(k, n) * n == n * chunks_for(k, n)) by (nonlinear_arith);
}

/// A walk hands out the elements from the front: after `k` calls of
/// `next` the elements from `k` on are left.
pub proof fn law_walk_skips<T>(s: Seq<T>, k: nat)
    requires
        k <= s.len(),
    ensures
        after_nexts(s, k) == s.skip(k as int),
    decreases k,
{
    if k == 0 {
        assert(s.skip(0) =~= s);
    } else {
        law_walk_skips(s, (k - 1) as nat);
        assert(s.skip(k - 1).skip(1) =~= s.skip(k as int));
    }
}

/// A walk by value over a container that was filled by pushes hands out
/// the pushed values in the order of the pushes, and then nothing is left.
pub proof fn law_round_trip<T>(values: Seq<T>)
    ensures
        forall|k: nat|
            k < values.len() ==> (#[trigger] after_nexts(pushed(Seq::<T>::empty(), values), k))[0]
                == values[k as int],
        after_nexts(pushed(Seq::<T>::empty(), values), values.len()).len() == 0,
{
    law_push_len_and_order(values);
    let filled = pushed(Seq::<T>::empty(), values);
    assert forall|k: nat| k < values.len() implies (#[trigger] after_nexts(filled, k))[0]
        == values[k as int] by {
        law_walk_skips(filled, k);
    }
    law_walk_skips(filled, values.len());
}

} // verus!
