//! Process bodies and the process table.
//!
//! A process body is a state machine the kernel resumes one step at a
//! time: each resumption either yields an effect and suspends, or
//! completes for good. The table maps each registered `ProcessId` to its
//! body; when a body completes, the body is dropped but the slot stays
//! as a tombstone, so that a stale event naming that id is caught as an
//! error instead of resuming nothing.

use vstd::prelude::*;

use crate::context::Context;
use crate::effect::{ProcessId, ProcessState, SimError};

verus! {

/// A resumable process body with message type `M`.
///
/// The kernel calls `resume` once per dispatched event that names this
/// process. The body may read the clock, pop its mailbox and query its
/// interrupt flag through the context handle; it returns either a
/// yielded effect or its completion. Implementations are the embedder's
/// and carry no contract: the kernel is verified for every outcome.
pub trait Process<M> {
    /// Run the body until it yields its next effect or completes.
    fn resume(&mut self, ctx: &mut Context<M>) -> ProcessState<M>;
}

/// One slot: a pid and its body, or a tombstone once it completed.
struct ProcessSlot<P> {
    pid: ProcessId,
    body: Option<P>,
}

/// The registered processes.
pub struct ProcessTable<P> {
    slots: Vec<ProcessSlot<P>>,
}

impl<P> ProcessTable<P> {
    /// Whether `pid` was ever registered.
    pub closed spec fn registered(&self, pid: ProcessId) -> bool {
        exists|i: int| 0 <= i < self.slots@.len() && self.slots@[i].pid == pid
    }

    /// Whether `pid` is registered and has not completed.
    pub closed spec fn live(&self, pid: ProcessId) -> bool {
        exists|i: int|
            0 <= i < self.slots@.len() && self.slots@[i].pid == pid && self.slots@[i].body is Some
    }

    /// Each pid owns at most one slot.
    pub closed spec fn wf(&self) -> bool {
        forall|i: int, j: int|
            0 <= i < j < self.slots@.len() ==> self.slots@[i].pid != self.slots@[j].pid
    }

    pub fn new() -> (t: ProcessTable<P>)
        ensures
            t.wf(),
            forall|pid: ProcessId| !(#[trigger] t.registered(pid)),
            forall|pid: ProcessId| !(#[trigger] t.live(pid)),
    {
        ProcessTable { slots: Vec::new() }
    }

    /// Register a new process under a fresh pid.
    #[verifier::loop_isolation(false)]
    pub fn register(&mut self, pid: ProcessId, body: P)
        requires
            old(self).wf(),
            !old(self).registered(pid),
        ensures
            final(self).wf(),
            final(self).registered(pid),
            final(self).live(pid),
            forall|q: ProcessId|
                q != pid ==> #[trigger] final(self).registered(q) == old(self).registered(q),
            forall|q: ProcessId| q != pid ==> #[trigger] final(self).live(q) == old(self).live(q),
    {
        let ghost s = self.slots@;
        self.slots.push(ProcessSlot { pid, body: Some(body) });
        proof {
            let s2 = self.slots@;
            let n = s.len() as int;
            assert(s2[n].pid == pid && s2[n].body is Some);
            assert forall|i: int, j: int| 0 <= i < j < s2.len() implies s2[i].pid != s2[j].pid by {
                if j < n {
                    assert(s2[i] == s[i] && s2[j] == s[j]);
                } else {
                    assert(s2[i] == s[i]);
                    assert(!old(self).registered(pid));
                    assert(s[i].pid != pid);
                }
            }
            assert forall|q: ProcessId| q != pid implies #[trigger] final(self).registered(q)
                == old(self).registered(q) by {
                if self.registered(q) {
                    let i = choose|i: int| 0 <= i < s2.len() && s2[i].pid == q;
                    assert(i < n);
                    assert(s[i].pid == q);
                }
                if old(self).registered(q) {
                    let i = choose|i: int| 0 <= i < s.len() && s[i].pid == q;
                    assert(s2[i].pid == q);
                }
            }
            assert forall|q: ProcessId| q != pid implies #[trigger] final(self).live(q) == old(
                self,
            ).live(q) by {
                if self.live(q) {
                    let i = choose|i: int|
                        0 <= i < s2.len() && s2[i].pid == q && s2[i].body is Some;
                    assert(i < n);
                    assert(s[i].pid == q && s[i].body is Some);
                }
                if old(self).live(q) {
                    let i = choose|i: int| 0 <= i < s.len() && s[i].pid == q && s[i].body is Some;
                    assert(s2[i].pid == q && s2[i].body is Some);
                }
            }
        }
    }

    /// Take `pid`'s body out for a resumption, leaving a tombstone. An
    /// unregistered pid or a tombstone is the corresponding fatal error.
    #[verifier::loop_isolation(false)]
    pub fn take_body(&mut self, pid: ProcessId) -> (r: Result<P, SimError>)
        requires
            old(self).wf(),
        ensures
            final(self).wf(),
            r is Ok <==> old(self).live(pid),
            !old(self).registered(pid) ==> r == Err::<P, SimError>(SimError::UnknownProcess(pid)),
            old(self).registered(pid) && !old(self).live(pid) ==> r == Err::<P, SimError>(
                SimError::CompletedProcess(pid),
            ),
            !final(self).live(pid),
            forall|q: ProcessId|
                #[trigger] final(self).registered(q) == old(self).registered(q),
            forall|q: ProcessId| q != pid ==> #[trigger] final(self).live(q) == old(self).live(q),
    {
        let ghost s = self.slots@;
        let n = self.slots.len();
        let mut i: usize = 0;
        while i < n
            invariant
                n == s.len(),
                self.slots@ == s,
                0 <= i <= n,
                forall|j: int| 0 <= j < i ==> s[j].pid != pid,
            decreases n - i,
        {
            if self.slots[i].pid == pid {
                let mut slot = self.slots.remove(i);
                let taken = slot.body.take();
                self.slots.insert(i, slot);
                proof {
                    let s2 = self.slots@;
                    assert(s2 =~= s.update(i as int, s2[i as int]));
                    assert(s2[i as int].pid == pid && s2[i as int].body is None);
                    assert forall|i2: int, j2: int| 0 <= i2 < j2 < s2.len() implies s2[i2].pid
                        != s2[j2].pid by {
                        assert(s2[i2].pid == s[i2].pid && s2[j2].pid == s[j2].pid);
                    }
                    assert(self.registered(pid));
                    assert(old(self).live(pid) == (s[i as int].body is Some)) by {
                        if old(self).live(pid) {
                            let k = choose|k: int|
                                0 <= k < s.len() && s[k].pid == pid && s[k].body is Some;
                            assert(k == i as int);
                        }
                    }
                    assert forall|q: ProcessId| #[trigger] self.registered(q) == old(
                        self,
                    ).registered(q) by {
                        if self.registered(q) {
                            let k = choose|k: int| 0 <= k < s2.len() && s2[k].pid == q;
                            assert(s[k].pid == q);
                        }
                        if old(self).registered(q) {
                            let k = choose|k: int| 0 <= k < s.len() && s[k].pid == q;
                            assert(s2[k].pid == q);
                        }
                    }
                    assert(!self.live(pid)) by {
                        if self.live(pid) {
                            let k = choose|k: int|
                                0 <= k < s2.len() && s2[k].pid == pid && s2[k].body is Some;
                            assert(k != i as int);
                            assert(s[k].pid == pid && s[i as int].pid == pid);
                        }
                    }
                    assert forall|q: ProcessId| q != pid implies #[trigger] self.live(q) == old(
                        self,
                    ).live(q) by {
                        if self.live(q) {
                            let k = choose|k: int|
                                0 <= k < s2.len() && s2[k].pid == q && s2[k].body is Some;
                            assert(k != i as int);
                            assert(s[k].pid == q && s[k].body is Some);
                        }
                        if old(self).live(q) {
                            let k = choose|k: int|
                                0 <= k < s.len() && s[k].pid == q && s[k].body is Some;
                            assert(k != i as int);
                            assert(s2[k].pid == q && s2[k].body is Some);
                        }
                    }
                }
                return match taken {
                    Some(body) => Ok(body),
                    None => Err(SimError::CompletedProcess(pid)),
                };
            }
            i += 1;
        }
        proof {
            assert(!self.registered(pid)) by {
                if self.registered(pid) {
                    let k = choose|k: int| 0 <= k < s.len() && s[k].pid == pid;
                }
            }
            assert(!self.live(pid)) by {
                if self.live(pid) {
                    let k = choose|k: int| 0 <= k < s.len() && s[k].pid == pid && s[k].body is Some;
                }
            }
        }
        Err(SimError::UnknownProcess(pid))
    }

    /// Put a body back after it yielded, into `pid`'s slot.
    #[verifier::loop_isolation(false)]
    pub fn restore_body(&mut self, pid: ProcessId, body: P)
        requires
            old(self).wf(),
            old(self).registered(pid),
        ensures
            final(self).wf(),
            final(self).registered(pid),
            final(self).live(pid),
            forall|q: ProcessId|
                #[trigger] final(self).registered(q) == old(self).registered(q),
            forall|q: ProcessId| q != pid ==> #[trigger] final(self).live(q) == old(self).live(q),
    {
        let ghost s = self.slots@;
        let n = self.slots.len();
        let mut i: usize = 0;
        while i < n
            invariant
                n == s.len(),
                self.slots@ == s,
                0 <= i <= n,
                forall|j: int| 0 <= j < i ==> s[j].pid != pid,
            decreases n - i,
        {
            if self.slots[i].pid == pid {
                let mut slot = self.slots.remove(i);
                slot.body = Some(body);
                self.slots.insert(i, slot);
                proof {
                    let s2 = self.slots@;
                    assert(s2 =~= s.update(i as int, s2[i as int]));
                    assert(s2[i as int].pid == pid && s2[i as int].body is Some);
                    assert forall|i2: int, j2: int| 0 <= i2 < j2 < s2.len() implies s2[i2].pid
                        != s2[j2].pid by {
                        assert(s2[i2].pid == s[i2].pid && s2[j2].pid == s[j2].pid);
                    }
                    assert(self.registered(pid) && self.live(pid));
                    assert forall|q: ProcessId| #[trigger] self.registered(q) == old(
                        self,
                    ).registered(q) by {
                        if self.registered(q) {
                            let k = choose|k: int| 0 <= k < s2.len() && s2[k].pid == q;
                            assert(s[k].pid == q);
                        }
                        if old(self).registered(q) {
                            let k = choose|k: int| 0 <= k < s.len() && s[k].pid == q;
                            assert(s2[k].pid == q);
                        }
                    }
                    assert forall|q: ProcessId| q != pid implies #[trigger] self.live(q) == old(
                        self,
                    ).live(q) by {
                        if self.live(q) {
                            let k = choose|k: int|
                                0 <= k < s2.len() && s2[k].pid == q && s2[k].body is Some;
                            assert(k != i as int);
                            assert(s[k].pid == q && s[k].body is Some);
                        }
                        if old(self).live(q) {
                            let k = choose|k: int|
                                0 <= k < s.len() && s[k].pid == q && s[k].body is Some;
                            assert(k != i as int);
                            assert(s2[k].pid == q && s2[k].body is Some);
                        }
                    }
                }
                return ;
            }
            i += 1;
        }
        proof {
            let k = choose|k: int| 0 <= k < s.len() && s[k].pid == pid;
            assert(false);
        }
    }
}

} // verus!
