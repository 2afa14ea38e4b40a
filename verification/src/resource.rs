//! Finite counting resources with FIFO waiter queues.
//!
//! A resource holds a fixed capacity of units. A request takes a unit at
//! once if one is available, else the requester joins the back of the
//! waiter queue. A release hands the unit straight to the front waiter
//! if anybody waits — the unit never returns to the pool, so a requester
//! arriving in the same instant cannot barge ahead — and otherwise puts
//! the unit back.

use vstd::prelude::*;

use crate::effect::ProcessId;
use crate::fifo::{lemma_fifo_order, taken};

verus! {

/// The mathematical model of a resource.
#[verifier::ext_equal]
pub ghost struct ResourceModel {
    pub capacity: nat,
    pub available: nat,
    pub waiters: Seq<ProcessId>,
}

/// Resource conservation: the available count never exceeds the
/// capacity, and nobody waits while a unit is available.
pub open spec fn resource_wf(m: ResourceModel) -> bool {
    &&& m.available <= m.capacity
    &&& m.waiters.len() > 0 ==> m.available == 0
}

/// Whether a request is granted on the spot.
pub open spec fn request_granted(m: ResourceModel) -> bool {
    m.available > 0
}

/// A request by `pid`: take a unit, or join the back of the waiters.
pub open spec fn after_request(m: ResourceModel, pid: ProcessId) -> ResourceModel {
    if m.available > 0 {
        ResourceModel { available: (m.available - 1) as nat, ..m }
    } else {
        ResourceModel { waiters: m.waiters.push(pid), ..m }
    }
}

/// Whether a release is legal: somebody waits, or the pool is not full.
pub open spec fn release_allowed(m: ResourceModel) -> bool {
    m.waiters.len() > 0 || m.available < m.capacity
}

/// Whom a release wakes: the front waiter, if anybody waits.
pub open spec fn release_wakes(m: ResourceModel) -> Option<ProcessId> {
    if m.waiters.len() > 0 {
        Some(m.waiters.first())
    } else {
        None
    }
}

/// A release: hand the unit to the front waiter, or return it to the pool.
pub open spec fn after_release(m: ResourceModel) -> ResourceModel {
    if m.waiters.len() > 0 {
        ResourceModel { waiters: m.waiters.drop_first(), ..m }
    } else {
        ResourceModel { available: m.available + 1, ..m }
    }
}

/// A finite resource: so many units, a FIFO queue of blocked requesters.
pub struct Resource {
    capacity: usize,
    available: usize,
    waiters: Vec<ProcessId>,
}

impl View for Resource {
    type V = ResourceModel;

    closed spec fn view(&self) -> ResourceModel {
        ResourceModel {
            capacity: self.capacity as nat,
            available: self.available as nat,
            waiters: self.waiters@,
        }
    }
}

impl Resource {
    /// A fresh resource: all `capacity` units in the pool, nobody waiting.
    pub fn new(capacity: usize) -> (r: Resource)
        ensures
            r@ == (ResourceModel {
                capacity: capacity as nat,
                available: capacity as nat,
                waiters: Seq::<ProcessId>::empty(),
            }),
            resource_wf(r@),
    {
        Resource { capacity, available: capacity, waiters: Vec::new() }
    }

    /// Units currently in the pool.
    pub fn available(&self) -> (n: usize)
        ensures
            n == self@.available,
    {
        self.available
    }

    /// The fixed number of units.
    pub fn capacity(&self) -> (n: usize)
        ensures
            n == self@.capacity,
    {
        self.capacity
    }

    /// How many processes are blocked on this resource.
    pub fn waiting(&self) -> (n: usize)
        ensures
            n == self@.waiters.len(),
    {
        self.waiters.len()
    }

    /// One unit for `pid`: granted at once, or `pid` joins the waiters.
    pub fn request(&mut self, pid: ProcessId) -> (granted: bool)
        ensures
            granted == request_granted(old(self)@),
            final(self)@ == after_request(old(self)@, pid),
    {
        if self.available > 0 {
            self.available = self.available - 1;
            true
        } else {
            self.waiters.push(pid);
            false
        }
    }

    /// Give one unit back: to the front waiter if anybody waits, else to
    /// the pool. An `Err` means the pool was already full — the scenario
    /// released more than it requested.
    pub fn release(&mut self) -> (r: Result<Option<ProcessId>, ()>)
        ensures
            release_allowed(old(self)@) ==> r == Ok::<Option<ProcessId>, ()>(
                release_wakes(old(self)@),
            ) && final(self)@ == after_release(old(self)@),
            !release_allowed(old(self)@) ==> r is Err && final(self)@ == old(self)@,
    {
        if self.waiters.len() > 0 {
            let w = self.waiters.remove(0);
            proof {
                assert(self.waiters@ =~= old(self)@.waiters.drop_first());
            }
            Ok(Some(w))
        } else if self.available < self.capacity {
            self.available = self.available + 1;
            Ok(None)
        } else {
            Err(())
        }
    }
}

/// Resource conservation is preserved by a request, whether it is
/// granted or blocks.
pub proof fn lemma_request_preserves_wf(m: ResourceModel, pid: ProcessId)
    requires
        resource_wf(m),
    ensures
        resource_wf(after_request(m, pid)),
{
}

/// Resource conservation is preserved by a legal release, whether it
/// hands the unit to a waiter or returns it to the pool.
pub proof fn lemma_release_preserves_wf(m: ResourceModel)
    requires
        resource_wf(m),
        release_allowed(m),
    ensures
        resource_wf(after_release(m)),
{
}

/// A request that is granted at once, followed by a release with no
/// request in between, leaves the resource exactly as it was: the pool
/// count and the waiter queue both return to their old values.
pub proof fn lemma_request_release_roundtrip(m: ResourceModel, pid: ProcessId)
    requires
        resource_wf(m),
        request_granted(m),
    ensures
        after_release(after_request(m, pid)) == m,
{
    assert(after_release(after_request(m, pid)) =~= m);
}

/// FIFO waiters: releases wake blocked requesters in the order their
/// requests blocked. A blocking request pushes at the back of the
/// waiter queue and a contended release wakes the front and drops it,
/// so the wake numbered `k` (0-based) goes to the waiter at index `k`:
/// whoever blocked earlier is woken earlier.
pub proof fn lemma_waiters_woken_fifo(w: Seq<ProcessId>, i: int, j: int)
    requires
        0 <= i < j < w.len(),
    ensures
        taken(w, i) == w[i],
        taken(w, j) == w[j],
{
    lemma_fifo_order(w, i, j);
}

/// The two-waiter case spelled out: on a dry resource, if `a` blocks
/// before `b`, the first release wakes `a` and the next wakes `b`.
pub proof fn lemma_waiters_woken_in_request_order(m: ResourceModel, a: ProcessId, b: ProcessId)
    requires
        resource_wf(m),
        m.available == 0,
        m.waiters.len() == 0,
    ensures
        release_wakes(after_request(after_request(m, a), b)) == Some(a),
        release_wakes(after_release(after_request(after_request(m, a), b))) == Some(b),
{
    let m2 = after_request(after_request(m, a), b);
    assert(m2.waiters =~= seq![a, b]);
    assert(after_release(m2).waiters =~= seq![b]);
}


} // verus!
