//! First-in-first-out order, abstractly.
//!
//! Two kernel structures drain from the front of a sequence: a resource's
//! waiter queue (a release wakes the front waiter and drops it) and a
//! process's mailbox (a pop returns the front message and drops it).
//! This module gives that draining a name and proves that elements leave
//! in the order they entered.

use vstd::prelude::*;

verus! {

/// The queue after `k` elements have been taken from the front.
pub open spec fn after_takes<T>(q: Seq<T>, k: int) -> Seq<T>
    decreases k,
{
    if k <= 0 {
        q
    } else {
        after_takes(q, k - 1).drop_first()
    }
}

/// The element the take numbered `k` (0-based) returns.
pub open spec fn taken<T>(q: Seq<T>, k: int) -> T {
    after_takes(q, k).first()
}

/// Taking `k` elements from the front leaves the suffix from index `k` on.
pub proof fn lemma_after_takes_is_skip<T>(q: Seq<T>, k: int)
    requires
        0 <= k <= q.len(),
    ensures
        after_takes(q, k) == q.skip(k),
    decreases k,
{
    if k == 0 {
        assert(q.skip(0) =~= q);
    } else {
        lemma_after_takes_is_skip(q, k - 1);
        assert(q.skip(k - 1).drop_first() =~= q.skip(k));
    }
}

/// First in, first out: the take numbered `k` returns the element that
/// entered the queue `k`-th from the front. In particular, of two queued
/// elements the one nearer the front leaves in an earlier take: with
/// `i < j`, `q[i]` leaves at take `i`, before `q[j]` leaves at take `j`.
pub proof fn lemma_fifo_order<T>(q: Seq<T>, i: int, j: int)
    requires
        0 <= i < j < q.len(),
    ensures
        taken(q, i) == q[i],
        taken(q, j) == q[j],
{
    lemma_after_takes_is_skip(q, i);
    lemma_after_takes_is_skip(q, j);
    assert(q.skip(i).first() == q[i]);
    assert(q.skip(j).first() == q[j]);
}

} // verus!
