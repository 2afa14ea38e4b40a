//! The simulation kernel: clock, event queue, scheduler, run driver.
//!
//! One step pops the earliest pending event, advances the clock to its
//! time, resumes the process it names, interprets the yielded effect,
//! and appends the event to the processed-events log. The run driver
//! repeats steps until an end condition holds.

use vstd::prelude::*;

use crate::context::{
    context_equiv, interrupt_post, push_message_post, Context,
};
use crate::effect::{Effect, EndCondition, Event, ProcessId, ProcessState, ResourceId, SimError};
use crate::process::{Process, ProcessTable};
use crate::queue::{
    lemma_queue_insert_floor, lemma_sorted_append, queue_insert, sorted_by_time, EventQueue,
};
use crate::resource::{
    after_release, after_request, release_allowed, release_wakes, request_granted, resource_wf,
    lemma_release_preserves_wf, lemma_request_preserves_wf, Resource, ResourceModel,
};

verus! {

/// An event scheduled from outside is clamped to the current clock, so
/// that dispatching it can never move the clock backwards.
pub open spec fn clamp_event(e: Event, now: u64) -> Event {
    if e.time >= now {
        e
    } else {
        Event { time: now, process: e.process }
    }
}

/// What interpreting one yielded effect does, exactly, per variant:
/// which events are pushed on the queue (in which order), how the named
/// resource moves, what reaches the context, and which effects are
/// fatal. `t` is the clock at the dispatch, `pid` the yielding process;
/// `q0`/`rs0`/`c0` are the queue, resource models and context before,
/// `q1`/`rs1`/`c1` after.
pub open spec fn effect_post<M>(
    t: u64,
    pid: ProcessId,
    eff: Effect<M>,
    q0: Seq<Event>,
    rs0: Seq<ResourceModel>,
    c0: Context<M>,
    q1: Seq<Event>,
    rs1: Seq<ResourceModel>,
    c1: Context<M>,
    r: Result<(), SimError>,
) -> bool {
    match eff {
        Effect::TimeOut(d) => {
            &&& r == Ok::<(), SimError>(())
            &&& q1 == queue_insert(q0, Event { time: t.saturating_add(d), process: pid })
            &&& rs1 == rs0
            &&& context_equiv(c0, c1)
        },
        Effect::Event(ev) => {
            &&& r == Ok::<(), SimError>(())
            &&& q1 == queue_insert(
                q0,
                Event { time: t.saturating_add(ev.time), process: ev.process },
            )
            &&& rs1 == rs0
            &&& context_equiv(c0, c1)
        },
        Effect::Request(rid) => {
            if rid < rs0.len() {
                &&& r == Ok::<(), SimError>(())
                &&& rs1 == rs0.update(rid as int, after_request(rs0[rid as int], pid))
                &&& q1 == if request_granted(rs0[rid as int]) {
                    queue_insert(q0, Event { time: t, process: pid })
                } else {
                    q0
                }
                &&& context_equiv(c0, c1)
            } else {
                &&& r == Err::<(), SimError>(SimError::UnknownResource(rid))
                &&& q1 == q0
                &&& rs1 == rs0
                &&& context_equiv(c0, c1)
            }
        },
        Effect::Release(rid) => {
            if rid < rs0.len() {
                if release_allowed(rs0[rid as int]) {
                    &&& r == Ok::<(), SimError>(())
                    &&& rs1 == rs0.update(rid as int, after_release(rs0[rid as int]))
                    &&& q1 == (match release_wakes(rs0[rid as int]) {
                        Some(w) => queue_insert(
                            queue_insert(q0, Event { time: t, process: w }),
                            Event { time: t, process: pid },
                        ),
                        None => queue_insert(q0, Event { time: t, process: pid }),
                    })
                    &&& context_equiv(c0, c1)
                } else {
                    &&& r == Err::<(), SimError>(SimError::ReleaseOverCapacity(rid))
                    &&& q1 == q0
                    &&& rs1 == rs0
                    &&& context_equiv(c0, c1)
                }
            } else {
                &&& r == Err::<(), SimError>(SimError::UnknownResource(rid))
                &&& q1 == q0
                &&& rs1 == rs0
                &&& context_equiv(c0, c1)
            }
        },
        Effect::Wait => {
            &&& r == Ok::<(), SimError>(())
            &&& q1 == q0
            &&& rs1 == rs0
            &&& context_equiv(c0, c1)
        },
        Effect::Interrupt(p) => {
            &&& r == Ok::<(), SimError>(())
            &&& q1 == queue_insert(
                queue_insert(q0, Event { time: t, process: p }),
                Event { time: t, process: pid },
            )
            &&& rs1 == rs0
            &&& interrupt_post(c0, c1, p)
        },
        Effect::SendMessage(p, m, d) => {
            &&& r == Ok::<(), SimError>(())
            &&& q1 == queue_insert(
                queue_insert(q0, Event { time: t.saturating_add(d), process: p }),
                Event { time: t, process: pid },
            )
            &&& rs1 == rs0
            &&& push_message_post(c0, c1, p, m)
        },
    }
}

/// FIFO waiters, at the dispatch level: when a step dispatches
/// `Release(rid)` while processes wait on `rid`, exactly the front
/// waiter is woken — an event at the release's own instant for that
/// waiter enters the queue before the releaser's own resume event —
/// and the remaining waiters move up one place. Together with
/// `resource::lemma_waiters_woken_fifo`, which shows that draining the
/// front hands wakes out in queue order, this is the whole claim: of
/// two processes blocked on one resource, the one whose request
/// blocked in an earlier step is woken by an earlier release.
pub proof fn lemma_release_wakes_front_waiter<M>(
    t: u64,
    pid: ProcessId,
    rid: ResourceId,
    q0: Seq<Event>,
    rs0: Seq<ResourceModel>,
    c0: Context<M>,
    q1: Seq<Event>,
    rs1: Seq<ResourceModel>,
    c1: Context<M>,
    r: Result<(), SimError>,
)
    requires
        effect_post(t, pid, Effect::<M>::Release(rid), q0, rs0, c0, q1, rs1, c1, r),
        rid < rs0.len(),
        rs0[rid as int].waiters.len() > 0,
    ensures
        r is Ok,
        rs1[rid as int].waiters == rs0[rid as int].waiters.drop_first(),
        rs1[rid as int].available == rs0[rid as int].available,
        q1 == queue_insert(
            queue_insert(q0, Event { time: t, process: rs0[rid as int].waiters.first() }),
            Event { time: t, process: pid },
        ),
{
}

/// The matching half: a `Request(rid)` that finds no unit free joins
/// the back of the waiter queue, takes nothing, and — direct hand-off —
/// is not scheduled at all, so it cannot barge ahead of the waiters.
pub proof fn lemma_blocked_request_joins_back<M>(
    t: u64,
    pid: ProcessId,
    rid: ResourceId,
    q0: Seq<Event>,
    rs0: Seq<ResourceModel>,
    c0: Context<M>,
    q1: Seq<Event>,
    rs1: Seq<ResourceModel>,
    c1: Context<M>,
    r: Result<(), SimError>,
)
    requires
        effect_post(t, pid, Effect::<M>::Request(rid), q0, rs0, c0, q1, rs1, c1, r),
        rid < rs0.len(),
        rs0[rid as int].available == 0,
    ensures
        r is Ok,
        rs1[rid as int].waiters == rs0[rid as int].waiters.push(pid),
        rs1[rid as int].available == 0,
        q1 == q0,
{
}

/// Request-then-release round trip, at the dispatch level: a step
/// grants `pid` a unit of `rid` on the spot, and a later step
/// dispatches `pid`'s `Release(rid)` with the resource untouched in
/// between; afterwards the resource stands exactly as it did before
/// the request — same pool count, same waiter queue.
pub proof fn lemma_dispatch_request_release_roundtrip<M>(
    t1: u64,
    t2: u64,
    pid: ProcessId,
    rid: ResourceId,
    qa0: Seq<Event>,
    rsa0: Seq<ResourceModel>,
    ca0: Context<M>,
    qa1: Seq<Event>,
    rsa1: Seq<ResourceModel>,
    ca1: Context<M>,
    ra: Result<(), SimError>,
    qb0: Seq<Event>,
    rsb0: Seq<ResourceModel>,
    cb0: Context<M>,
    qb1: Seq<Event>,
    rsb1: Seq<ResourceModel>,
    cb1: Context<M>,
    rb: Result<(), SimError>,
)
    requires
        effect_post(t1, pid, Effect::<M>::Request(rid), qa0, rsa0, ca0, qa1, rsa1, ca1, ra),
        effect_post(t2, pid, Effect::<M>::Release(rid), qb0, rsb0, cb0, qb1, rsb1, cb1, rb),
        rid < rsa0.len(),
        rid < rsb0.len(),
        resource_wf(rsa0[rid as int]),
        request_granted(rsa0[rid as int]),
        rsb0[rid as int] == rsa1[rid as int],
    ensures
        ra is Ok,
        rb is Ok,
        rsb1[rid as int] == rsa0[rid as int],
{
    crate::resource::lemma_request_release_roundtrip(rsa0[rid as int], pid);
}

/// The simulation kernel. `M` is the message type carried by
/// `SendMessage`; `P` the embedder's process body type.
pub struct Simulation<M, P> {
    clock: u64,
    context: Context<M>,
    processes: ProcessTable<P>,
    future_events: EventQueue,
    processed_events: Vec<Event>,
    resources: Vec<Resource>,
}

impl<M, P: Process<M>> Simulation<M, P> {
    /// The virtual clock: the time of the last dispatched event.
    pub closed spec fn spec_clock(&self) -> u64 {
        self.clock
    }

    /// The pending events, earliest first.
    pub closed spec fn queue(&self) -> Seq<Event> {
        self.future_events@
    }

    /// The processed-events log, in dispatch order.
    pub closed spec fn log(&self) -> Seq<Event> {
        self.processed_events@
    }

    /// The resources, as their models, in creation order.
    pub closed spec fn resources_model(&self) -> Seq<ResourceModel> {
        self.resources@.map_values(|r: Resource| r@)
    }

    /// The context handle the kernel lends to process bodies.
    pub closed spec fn ctx(&self) -> Context<M> {
        self.context
    }

    /// Whether `pid` was ever registered.
    pub closed spec fn proc_registered(&self, pid: ProcessId) -> bool {
        self.processes.registered(pid)
    }

    /// Whether `pid` is registered and has not completed.
    pub closed spec fn proc_live(&self, pid: ProcessId) -> bool {
        self.processes.live(pid)
    }

    /// Each pid owns at most one process slot.
    pub closed spec fn procs_wf(&self) -> bool {
        self.processes.wf()
    }

    /// The kernel invariant: the queue is sorted by time and never holds
    /// an event earlier than the clock; the log is sorted by time and
    /// never runs past the clock; every resource conserves its units
    /// (`available <= capacity`, nobody waits while a unit is free); and
    /// pids are unique.
    pub open spec fn wf(&self) -> bool {
        &&& sorted_by_time(self.queue())
        &&& forall|i: int|
            0 <= i < self.queue().len() ==> #[trigger] self.queue()[i].time >= self.spec_clock()
        &&& sorted_by_time(self.log())
        &&& (self.log().len() > 0 ==> self.log().last().time <= self.spec_clock())
        &&& forall|i: int|
            0 <= i < self.resources_model().len() ==> resource_wf(
                #[trigger] self.resources_model()[i],
            )
        &&& self.procs_wf()
    }

    /// Create a kernel around the given context handle: clock zero, no
    /// events, no processes, no resources, empty log.
    pub fn new(context: Context<M>) -> (s: Simulation<M, P>)
        ensures
            s.wf(),
            s.spec_clock() == 0,
            s.queue() == Seq::<Event>::empty(),
            s.log() == Seq::<Event>::empty(),
            s.resources_model() == Seq::<ResourceModel>::empty(),
            forall|pid: ProcessId| !(#[trigger] s.proc_registered(pid)),
            forall|pid: ProcessId| !(#[trigger] s.proc_live(pid)),
            s.ctx() == context,
    {
        let s = Simulation {
            clock: 0,
            context,
            processes: ProcessTable::new(),
            future_events: EventQueue::new(),
            processed_events: Vec::new(),
            resources: Vec::new(),
        };
        proof {
            assert(s.resources_model() =~= Seq::<ResourceModel>::empty());
        }
        s
    }

    /// The current virtual time.
    pub fn time(&self) -> (t: u64)
        ensures
            t == self.spec_clock(),
    {
        self.clock
    }

    /// The context handle, for inspection from outside the kernel.
    pub fn context(&self) -> (c: &Context<M>)
        ensures
            *c == self.ctx(),
    {
        &self.context
    }

    /// The log of processed events.
    pub fn processed_events(&self) -> (r: &Vec<Event>)
        ensures
            r@ == self.log(),
    {
        &self.processed_events
    }

    /// How many events are pending.
    pub fn pending_events(&self) -> (n: usize)
        ensures
            n == self.queue().len(),
    {
        self.future_events.len()
    }

    /// Register a process under a caller-chosen fresh pid. A duplicate
    /// pid is a fatal configuration error, which the precondition bars.
    pub fn create_process(&mut self, pid: ProcessId, process: P)
        requires
            old(self).wf(),
            !old(self).proc_registered(pid),
        ensures
            final(self).wf(),
            final(self).proc_registered(pid),
            final(self).proc_live(pid),
            forall|q: ProcessId|
                q != pid ==> #[trigger] final(self).proc_registered(q) == old(
                    self,
                ).proc_registered(q),
            forall|q: ProcessId|
                q != pid ==> #[trigger] final(self).proc_live(q) == old(self).proc_live(q),
            final(self).spec_clock() == old(self).spec_clock(),
            final(self).queue() == old(self).queue(),
            final(self).log() == old(self).log(),
            final(self).resources_model() == old(self).resources_model(),
            final(self).ctx() == old(self).ctx(),
    {
        self.processes.register(pid, process);
        proof {
            assert(self.resources_model() =~= old(self).resources_model());
        }
    }

    /// Create a resource with `n` units. Ids are dense, in creation order.
    pub fn create_resource(&mut self, n: usize) -> (rid: ResourceId)
        requires
            old(self).wf(),
        ensures
            final(self).wf(),
            rid == old(self).resources_model().len(),
            final(self).resources_model() == old(self).resources_model().push(
                ResourceModel {
                    capacity: n as nat,
                    available: n as nat,
                    waiters: Seq::<ProcessId>::empty(),
                },
            ),
            final(self).spec_clock() == old(self).spec_clock(),
            final(self).queue() == old(self).queue(),
            final(self).log() == old(self).log(),
            final(self).ctx() == old(self).ctx(),
            forall|q: ProcessId|
                #[trigger] final(self).proc_registered(q) == old(self).proc_registered(q),
            forall|q: ProcessId| #[trigger] final(self).proc_live(q) == old(self).proc_live(q),
    {
        let rid = self.resources.len();
        self.resources.push(Resource::new(n));
        proof {
            assert(final(self).resources_model() =~= old(self).resources_model().push(
                ResourceModel {
                    capacity: n as nat,
                    available: n as nat,
                    waiters: Seq::<ProcessId>::empty(),
                },
            ));
        }
        rid
    }

    /// Units of `rid` currently in the pool, or `None` for an unknown id.
    pub fn resource_available(&self, rid: ResourceId) -> (r: Option<usize>)
        ensures
            rid < self.resources_model().len() ==> r == Some(
                self.resources_model()[rid as int].available as usize,
            ),
            rid >= self.resources_model().len() ==> r is None,
    {
        if rid < self.resources.len() {
            Some(self.resources[rid].available())
        } else {
            None
        }
    }

    /// The capacity of `rid`, or `None` for an unknown id.
    pub fn resource_capacity(&self, rid: ResourceId) -> (r: Option<usize>)
        ensures
            rid < self.resources_model().len() ==> r == Some(
                self.resources_model()[rid as int].capacity as usize,
            ),
            rid >= self.resources_model().len() ==> r is None,
    {
        if rid < self.resources.len() {
            Some(self.resources[rid].capacity())
        } else {
            None
        }
    }

    /// How many processes are blocked on `rid`, or `None` for an unknown id.
    pub fn resource_waiting(&self, rid: ResourceId) -> (r: Option<usize>)
        ensures
            rid < self.resources_model().len() ==> r == Some(
                self.resources_model()[rid as int].waiters.len() as usize,
            ),
            rid >= self.resources_model().len() ==> r is None,
    {
        if rid < self.resources.len() {
            Some(self.resources[rid].waiting())
        } else {
            None
        }
    }

    /// Schedule an event from outside the processes. A time earlier than
    /// the clock is clamped to the clock, so the clock never regresses.
    pub fn schedule_event(&mut self, event: Event)
        requires
            old(self).wf(),
        ensures
            final(self).wf(),
            final(self).queue() == queue_insert(
                old(self).queue(),
                clamp_event(event, old(self).spec_clock()),
            ),
            final(self).spec_clock() == old(self).spec_clock(),
            final(self).log() == old(self).log(),
            final(self).resources_model() == old(self).resources_model(),
            final(self).ctx() == old(self).ctx(),
            forall|q: ProcessId|
                #[trigger] final(self).proc_registered(q) == old(self).proc_registered(q),
            forall|q: ProcessId| #[trigger] final(self).proc_live(q) == old(self).proc_live(q),
    {
        let t = if event.time >= self.clock {
            event.time
        } else {
            self.clock
        };
        let e = Event { time: t, process: event.process };
        proof {
            assert(e == clamp_event(event, old(self).spec_clock()));
            lemma_queue_insert_floor(self.queue(), e, self.clock);
        }
        self.future_events.push(e);
        proof {
            assert(self.resources_model() =~= old(self).resources_model());
        }
    }

    /// Push a follow-up event; the queue invariants come along.
    fn push_queue(&mut self, e: Event)
        requires
            old(self).wf(),
            e.time >= old(self).spec_clock(),
        ensures
            final(self).wf(),
            final(self).queue() == queue_insert(old(self).queue(), e),
            final(self).spec_clock() == old(self).spec_clock(),
            final(self).log() == old(self).log(),
            final(self).resources_model() == old(self).resources_model(),
            final(self).ctx() == old(self).ctx(),
            forall|q: ProcessId|
                #[trigger] final(self).proc_registered(q) == old(self).proc_registered(q),
            forall|q: ProcessId| #[trigger] final(self).proc_live(q) == old(self).proc_live(q),
    {
        proof {
            lemma_queue_insert_floor(self.queue(), e, self.clock);
        }
        self.future_events.push(e);
        proof {
            assert(self.resources_model() =~= old(self).resources_model());
        }
    }

    /// Interpret one yielded effect: the table in `effect_post`.
    fn dispatch(&mut self, t: u64, pid: ProcessId, eff: Effect<M>) -> (r: Result<(), SimError>)
        requires
            old(self).wf(),
            old(self).spec_clock() == t,
        ensures
            final(self).wf(),
            final(self).spec_clock() == t,
            final(self).log() == old(self).log(),
            forall|q: ProcessId|
                #[trigger] final(self).proc_registered(q) == old(self).proc_registered(q),
            forall|q: ProcessId| #[trigger] final(self).proc_live(q) == old(self).proc_live(q),
            final(self).resources_model().len() == old(self).resources_model().len(),
            forall|i: int|
                0 <= i < old(self).resources_model().len()
                    ==> (#[trigger] final(self).resources_model()[i]).capacity
                    == old(self).resources_model()[i].capacity,
            effect_post(
                t,
                pid,
                eff,
                old(self).queue(),
                old(self).resources_model(),
                old(self).ctx(),
                final(self).queue(),
                final(self).resources_model(),
                final(self).ctx(),
                r,
            ),
    {
        match eff {
            Effect::TimeOut(d) => {
                let when = t.saturating_add(d);
                self.push_queue(Event { time: when, process: pid });
                Ok(())
            },
            Effect::Event(ev) => {
                let when = t.saturating_add(ev.time);
                self.push_queue(Event { time: when, process: ev.process });
                Ok(())
            },
            Effect::Request(rid) => {
                if rid >= self.resources.len() {
                    return Err(SimError::UnknownResource(rid));
                }
                let ghost rs0 = self.resources_model();
                let mut res = self.resources.remove(rid);
                let granted = res.request(pid);
                self.resources.insert(rid, res);
                proof {
                    assert(self.resources@ =~= old(self).resources@.update(
                        rid as int,
                        self.resources@[rid as int],
                    ));
                    assert(self.resources_model() =~= rs0.update(
                        rid as int,
                        after_request(rs0[rid as int], pid),
                    ));
                    assert(resource_wf(rs0[rid as int]));
                    lemma_request_preserves_wf(rs0[rid as int], pid);
                    assert forall|i: int|
                        0 <= i < self.resources_model().len() implies resource_wf(
                        self.resources_model()[i],
                    ) by {
                        if i != rid as int {
                            assert(resource_wf(rs0[i]));
                        }
                    }
                }
                if granted {
                    self.push_queue(Event { time: t, process: pid });
                }
                Ok(())
            },
            Effect::Release(rid) => {
                if rid >= self.resources.len() {
                    return Err(SimError::UnknownResource(rid));
                }
                let ghost rs0 = self.resources_model();
                let mut res = self.resources.remove(rid);
                let outcome = res.release();
                self.resources.insert(rid, res);
                proof {
                    assert(resource_wf(rs0[rid as int]));
                    assert(self.resources@ =~= old(self).resources@.update(
                        rid as int,
                        self.resources@[rid as int],
                    ));
                }
                match outcome {
                    Err(()) => {
                        proof {
                            assert(self.resources_model() =~= rs0);
                        }
                        Err(SimError::ReleaseOverCapacity(rid))
                    },
                    Ok(woken) => {
                        proof {
                            assert(self.resources_model() =~= rs0.update(
                                rid as int,
                                after_release(rs0[rid as int]),
                            ));
                            lemma_release_preserves_wf(rs0[rid as int]);
                            assert forall|i: int|
                                0 <= i < self.resources_model().len() implies resource_wf(
                                self.resources_model()[i],
                            ) by {
                                if i != rid as int {
                                    assert(resource_wf(rs0[i]));
                                }
                            }
                        }
                        if let Some(w) = woken {
                            self.push_queue(Event { time: t, process: w });
                        }
                        self.push_queue(Event { time: t, process: pid });
                        Ok(())
                    },
                }
            },
            Effect::Wait => Ok(()),
            Effect::Interrupt(p) => {
                self.context.interrupt(p);
                self.push_queue(Event { time: t, process: p });
                self.push_queue(Event { time: t, process: pid });
                Ok(())
            },
            Effect::SendMessage(p, m, d) => {
                self.context.push_message(p, m);
                let when = t.saturating_add(d);
                self.push_queue(Event { time: when, process: p });
                self.push_queue(Event { time: t, process: pid });
                Ok(())
            },
        }
    }

    /// What a step leaves behind when the popped event names a process
    /// that cannot be resumed: the event is consumed and the clock moved,
    /// but nothing is logged and no state advances.
    pub open spec fn fatal_lookup_post(pre: Self, post: Self, e: Event) -> bool {
        &&& post.spec_clock() == e.time
        &&& post.queue() == pre.queue().drop_first()
        &&& post.log() == pre.log()
        &&& post.resources_model() == pre.resources_model()
        &&& post.ctx().spec_time() == e.time
        &&& forall|q: ProcessId| #[trigger] post.ctx().mailbox(q) == pre.ctx().mailbox(q)
        &&& forall|q: ProcessId|
            #[trigger] post.ctx().is_interrupted(q) == pre.ctx().is_interrupted(q)
        &&& forall|q: ProcessId| #[trigger] post.proc_registered(q) == pre.proc_registered(q)
        &&& forall|q: ProcessId| #[trigger] post.proc_live(q) == pre.proc_live(q)
    }

    /// What a step leaves behind after resuming the live process named
    /// by the front event. `outcome` is what the resumption returned and
    /// `cr` the context the body left behind; both are the body's
    /// choice, so a step only promises that some such pair explains the
    /// transition.
    pub open spec fn resume_step_post(
        pre: Self,
        post: Self,
        r: Result<(), SimError>,
        outcome: ProcessState<M>,
        cr: Context<M>,
    ) -> bool {
        let e = pre.queue().first();
        let pid = e.process;
        match outcome {
            ProcessState::Completed => {
                &&& r == Ok::<(), SimError>(())
                &&& post.queue() == pre.queue().drop_first()
                &&& post.resources_model() == pre.resources_model()
                &&& !post.proc_live(pid)
                &&& post.ctx() == cr
            },
            ProcessState::Yielded(eff) => {
                &&& post.proc_live(pid)
                &&& effect_post(
                    e.time,
                    pid,
                    eff,
                    pre.queue().drop_first(),
                    pre.resources_model(),
                    cr,
                    post.queue(),
                    post.resources_model(),
                    post.ctx(),
                    r,
                )
            },
        }
    }

    /// Nothing observable moved.
    pub open spec fn unchanged_step(pre: Self, post: Self) -> bool {
        &&& post.spec_clock() == pre.spec_clock()
        &&& post.queue() == pre.queue()
        &&& post.log() == pre.log()
        &&& post.resources_model() == pre.resources_model()
        &&& post.ctx() == pre.ctx()
        &&& forall|q: ProcessId| #[trigger] post.proc_registered(q) == pre.proc_registered(q)
        &&& forall|q: ProcessId| #[trigger] post.proc_live(q) == pre.proc_live(q)
    }

    /// What one step with a non-empty queue ensures: the clock moves to
    /// the front event's time; an unresumable process is the matching
    /// fatal error with nothing logged; a live process is resumed, and
    /// some outcome of that resumption explains the rest, with the event
    /// logged exactly when no fatal error arose.
    pub open spec fn consumed_step_post(pre: Self, post: Self, r: Result<(), SimError>) -> bool {
        let e = pre.queue().first();
        let pid = e.process;
        &&& post.spec_clock() == e.time
        &&& (!pre.proc_registered(pid) ==> r == Err::<(), SimError>(SimError::UnknownProcess(pid))
            && Self::fatal_lookup_post(pre, post, e))
        &&& (pre.proc_registered(pid) && !pre.proc_live(pid) ==> r == Err::<(), SimError>(
            SimError::CompletedProcess(pid),
        ) && Self::fatal_lookup_post(pre, post, e))
        &&& (pre.proc_live(pid) ==> {
            &&& (forall|q: ProcessId|
                #[trigger] post.proc_registered(q) == pre.proc_registered(q))
            &&& (forall|q: ProcessId|
                q != pid ==> #[trigger] post.proc_live(q) == pre.proc_live(q))
            &&& (r is Ok ==> post.log() == pre.log().push(e))
            &&& (r is Err ==> post.log() == pre.log())
            &&& exists|o: ProcessState<M>, cr: Context<M>| Self::resume_step_post(pre, post, r, o, cr)
        })
    }

    /// One step. An empty queue is a silent no-op. Otherwise the
    /// earliest event is popped, the clock advances to its time — never
    /// backwards — the named process is resumed once, its effect is
    /// interpreted as `effect_post` says, and the event is appended to
    /// the log, which stays sorted by time. An event naming an
    /// unregistered or completed process, and an effect naming an
    /// unknown resource or releasing into a full pool, is the
    /// corresponding fatal error.
    pub fn step(&mut self) -> (r: Result<(), SimError>)
        requires
            old(self).wf(),
        ensures
            final(self).wf(),
            final(self).spec_clock() >= old(self).spec_clock(),
            forall|q: ProcessId|
                #[trigger] final(self).proc_registered(q) == old(self).proc_registered(q),
            final(self).resources_model().len() == old(self).resources_model().len(),
            forall|i: int|
                0 <= i < old(self).resources_model().len()
                    ==> (#[trigger] final(self).resources_model()[i]).capacity
                    == old(self).resources_model()[i].capacity,
            old(self).queue().len() == 0 ==> r == Ok::<(), SimError>(())
                && Self::unchanged_step(*old(self), *final(self)),
            old(self).queue().len() > 0 ==> Self::consumed_step_post(*old(self), *final(self), r),
    {
        let next = self.future_events.pop();
        match next {
            None => {
                proof {
                    assert(old(self).queue().len() == 0);
                    assert(self.resources_model() =~= old(self).resources_model());
                }
                Ok(())
            },
            Some(e) => {
                let t = e.time;
                let pid = e.process;
                proof {
                    assert(old(self).queue()[0].time >= old(self).spec_clock());
                    assert forall|i: int| 0 <= i < self.queue().len() implies #[trigger] self
                        .queue()[i].time >= t by {
                        assert(old(self).queue()[0].time <= old(self).queue()[i + 1].time);
                    }
                }
                self.clock = t;
                self.context.set_time(t);
                let body_r = self.processes.take_body(pid);
                match body_r {
                    Err(err) => {
                        proof {
                            assert(self.resources_model() =~= old(self).resources_model());
                            assert(Self::fatal_lookup_post(*old(self), *self, e));
                        }
                        Err(err)
                    },
                    Ok(mut body) => {
                        let outcome = body.resume(&mut self.context);
                        let ghost cr = self.context;
                        match outcome {
                            ProcessState::Completed => {
                                proof {
                                    lemma_sorted_append(self.processed_events@, e);
                                    assert(self.resources_model() =~= old(self).resources_model());
                                }
                                self.processed_events.push(e);
                                proof {
                                    assert(self.resources_model() =~= old(self).resources_model());
                                    assert(Self::resume_step_post(
                                        *old(self),
                                        *self,
                                        Ok::<(), SimError>(()),
                                        ProcessState::<M>::Completed,
                                        cr,
                                    ));
                                }
                                Ok(())
                            },
                            ProcessState::Yielded(eff) => {
                                self.processes.restore_body(pid, body);
                                let ghost eff_g = eff;
                                let ghost mid = *self;
                                proof {
                                    assert(mid.queue() == old(self).queue().drop_first());
                                    assert(mid.resources_model() =~= old(self).resources_model());
                                    assert(mid.ctx() == cr);
                                    assert(mid.log() == old(self).log());
                                    assert forall|i: int|
                                        0 <= i < mid.resources_model().len() implies resource_wf(
                                        mid.resources_model()[i],
                                    ) by {
                                        assert(resource_wf(old(self).resources_model()[i]));
                                    }
                                }
                                let r2 = self.dispatch(t, pid, eff);
                                match r2 {
                                    Ok(()) => {
                                        proof {
                                            lemma_sorted_append(self.processed_events@, e);
                                        }
                                        let ghost post_d = *self;
                                        self.processed_events.push(e);
                                        proof {
                                            assert(self.queue() == post_d.queue());
                                            assert(self.resources_model() =~= post_d.resources_model());
                                            assert(self.ctx() == post_d.ctx());
                                            assert(mid.proc_live(pid));
                                            assert(post_d.proc_live(pid) == mid.proc_live(pid));
                                            assert(self.proc_live(pid) == post_d.proc_live(pid));
                                            assert forall|q: ProcessId| #[trigger] self
                                                .proc_registered(q) == old(self).proc_registered(
                                                q,
                                            ) by {
                                                assert(self.proc_registered(q) == post_d
                                                    .proc_registered(q));
                                                assert(post_d.proc_registered(q) == mid
                                                    .proc_registered(q));
                                                assert(mid.proc_registered(q) == old(self)
                                                    .proc_registered(q));
                                            }
                                            assert forall|q: ProcessId|
                                                q != pid implies #[trigger] self.proc_live(q)
                                                == old(self).proc_live(q) by {
                                                assert(self.proc_live(q) == post_d.proc_live(q));
                                                assert(post_d.proc_live(q) == mid.proc_live(q));
                                                assert(mid.proc_live(q) == old(self).proc_live(q));
                                            }
                                            assert(Self::resume_step_post(
                                                *old(self),
                                                *self,
                                                Ok::<(), SimError>(()),
                                                ProcessState::Yielded(eff_g),
                                                cr,
                                            ));
                                        }
                                        Ok(())
                                    },
                                    Err(err2) => {
                                        proof {
                                            assert(Self::resume_step_post(
                                                *old(self),
                                                *self,
                                                Err::<(), SimError>(err2),
                                                ProcessState::Yielded(eff_g),
                                                cr,
                                            ));
                                        }
                                        Err(err2)
                                    },
                                }
                            },
                        }
                    },
                }
            },
        }
    }

    /// Whether the end condition already holds.
    pub open spec fn spec_ended(&self, until: EndCondition) -> bool {
        match until {
            EndCondition::Time(t) => self.spec_clock() >= t,
            EndCondition::NoEvents => self.queue().len() == 0,
            EndCondition::NSteps(n) => self.log().len() == n,
        }
    }

    /// Whether the end condition holds now.
    fn check_ending_condition(&self, until: &EndCondition) -> (b: bool)
        ensures
            b == self.spec_ended(*until),
    {
        match until {
            EndCondition::Time(t) => self.clock >= *t,
            EndCondition::NoEvents => self.future_events.is_empty(),
            EndCondition::NSteps(n) => self.processed_events.len() == *n,
        }
    }

    /// Run until the end condition holds, checking before each step.
    /// The run also returns once the queue is empty (further steps are
    /// no-ops, so no later step could make the condition true), or — a
    /// bound no real scenario reaches — once the log holds `usize::MAX`
    /// events. On the first fatal error the run stops and reports it;
    /// an error can only come out of a step, so if the condition holds
    /// at entry, or no event is pending at entry, the run succeeds and
    /// hands the kernel back untouched. Whatever the process bodies do,
    /// a successful run keeps every registration and every resource,
    /// with its capacity; and if steps were consumed, the clock ends
    /// exactly on the time of the last processed event.
    #[verifier::loop_isolation(false)]
    pub fn run(self, until: EndCondition) -> (r: Result<Simulation<M, P>, SimError>)
        requires
            self.wf(),
        ensures
            self.spec_ended(until) || self.queue().len() == 0 ==> r is Ok,
            match r {
                Ok(s) => {
                    &&& s.wf()
                    &&& s.spec_clock() >= self.spec_clock()
                    &&& self.log().is_prefix_of(s.log())
                    &&& (s.spec_ended(until) || s.queue().len() == 0 || s.log().len()
                        >= usize::MAX)
                    &&& (s.log().len() > self.log().len() ==> s.spec_clock()
                        == s.log().last().time)
                    &&& (s.log().len() == self.log().len() ==> s.spec_clock()
                        == self.spec_clock())
                    &&& (self.spec_ended(until) || self.queue().len() == 0 ==> s == self)
                    &&& (forall|q: ProcessId|
                        #[trigger] s.proc_registered(q) == self.proc_registered(q))
                    &&& s.resources_model().len() == self.resources_model().len()
                    &&& (forall|i: int|
                        0 <= i < self.resources_model().len()
                            ==> (#[trigger] s.resources_model()[i]).capacity
                            == self.resources_model()[i].capacity)
                },
                Err(_) => !self.spec_ended(until) && self.queue().len() > 0,
            },
    {
        let mut sim = self;
        let ghost orig = sim;
        let len0 = sim.processed_events().len();
        proof {
            assert(sim.log().len() == len0);
        }
        loop
            invariant
                sim.wf(),
                sim.spec_clock() >= orig.spec_clock(),
                sim.log().len() <= usize::MAX,
                orig.log().is_prefix_of(sim.log()),
                sim.log().len() > orig.log().len() ==> sim.spec_clock() == sim.log().last().time,
                sim.log().len() == orig.log().len() ==> sim.spec_clock() == orig.spec_clock(),
                orig.spec_ended(until) || orig.queue().len() == 0 ==> sim == orig,
                forall|q: ProcessId| #[trigger] sim.proc_registered(q) == orig.proc_registered(q),
                sim.resources_model().len() == orig.resources_model().len(),
                forall|i: int|
                    0 <= i < orig.resources_model().len()
                        ==> (#[trigger] sim.resources_model()[i]).capacity
                        == orig.resources_model()[i].capacity,
            decreases usize::MAX - sim.log().len(),
        {
            if sim.check_ending_condition(&until) {
                return Ok(sim);
            }
            if sim.pending_events() == 0 {
                return Ok(sim);
            }
            if sim.processed_events().len() == usize::MAX {
                return Ok(sim);
            }
            let ghost pre = sim;
            let stepped = sim.step();
            match stepped {
                Ok(()) => {
                    proof {
                        assert(sim.log() == pre.log().push(pre.queue().first()));
                        assert(orig.log().is_prefix_of(sim.log())) by {
                            assert forall|i: int|
                                0 <= i < orig.log().len() implies orig.log()[i] == sim.log()[i] by {
                                assert(pre.log()[i] == sim.log()[i]);
                            }
                        }
                    }
                },
                Err(err) => {
                    return Err(err);
                },
            }
        }
    }

    /// Event-time ordering: the processed-events log is non-decreasing
    /// in time — an event dispatched earlier never carries a later time
    /// than one dispatched after it.
    pub proof fn lemma_log_time_ordered(&self, i: int, j: int)
        requires
            self.wf(),
            0 <= i <= j < self.log().len(),
        ensures
            self.log()[i].time <= self.log()[j].time,
    {
    }

    /// The provable core of ending on time: when the queue has drained
    /// and the clock stands on the last processed event — as a
    /// non-error `run` with no events left behind leaves it — no
    /// processed event lies past the clock: the simulation stopped
    /// exactly at the latest event it dispatched.
    pub proof fn lemma_drained_run_ends_at_latest_event(&self)
        requires
            self.wf(),
            self.queue().len() == 0,
            self.log().len() > 0,
            self.spec_clock() == self.log().last().time,
        ensures
            forall|i: int|
                0 <= i < self.log().len() ==> #[trigger] self.log()[i].time <= self.spec_clock(),
    {
    }
}

} // verus!
