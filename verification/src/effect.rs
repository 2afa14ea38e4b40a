//! The vocabulary of the kernel: identifiers, events, effects, end
//! conditions, and the fatal errors a simulation can report.

use vstd::prelude::*;

verus! {

/// Identifies a process. Assigned by the embedder when the process is
/// registered; stable for the lifetime of the simulation.
pub type ProcessId = usize;

/// Identifies a resource. Allocated by the kernel in registration order
/// (0, 1, ...); stable.
pub type ResourceId = usize;

/// An event: at absolute virtual time `time`, resume the process `process`.
#[derive(Debug, Clone, Copy, PartialEq, Eq, Structural)]
pub struct Event {
    /// Absolute virtual time at which the event fires.
    pub time: u64,
    /// The process to resume when the event fires.
    pub process: ProcessId,
}

/// Yielded by a process body to tell the kernel why it suspends.
///
/// `M` is the embedder-chosen message type carried by `SendMessage`.
#[derive(Debug, Clone, Copy)]
pub enum Effect<M> {
    /// Resume this process after the given delay.
    TimeOut(u64),
    /// Schedule the given event. Its `time` field is a delay relative to
    /// the current virtual time; the yielding process is not resumed.
    Event(Event),
    /// Acquire one unit of the named resource. The process resumes at the
    /// current instant if a unit is available, else once a unit is handed
    /// to it by a release.
    Request(ResourceId),
    /// Release one unit of the named resource and resume at the current
    /// instant.
    Release(ResourceId),
    /// Suspend indefinitely; only an event aimed at this process (a send,
    /// an interrupt, an explicitly scheduled event) resumes it.
    Wait,
    /// Latch the interrupt flag of the named process and schedule it at
    /// the current instant; this process also resumes at the current
    /// instant.
    Interrupt(ProcessId),
    /// Append the message to the named process's mailbox and schedule
    /// that process after the given delay; this process resumes at the
    /// current instant.
    SendMessage(ProcessId, M, u64),
}

/// What one resumption of a process body produced.
pub enum ProcessState<M> {
    /// The body suspended, yielding an effect for the kernel to interpret.
    Yielded(Effect<M>),
    /// The body ran to completion; it can never be resumed again.
    Completed,
}

/// When `Simulation::run` stops stepping.
pub enum EndCondition {
    /// Stop as soon as the clock has reached the given time. Checked
    /// before each step, so the clock may overshoot within the last step.
    Time(u64),
    /// Stop when the event queue is empty.
    NoEvents,
    /// Stop when the processed-events log holds exactly this many events
    /// in total (not counting from the call site).
    NSteps(usize),
}

/// A fatal scenario-authoring error. The kernel reports it at the point
/// of detection; the simulation should be rebuilt, not resumed.
#[derive(Debug, Clone, Copy, PartialEq, Eq, Structural)]
pub enum SimError {
    /// An event named a process id that was never registered.
    UnknownProcess(ProcessId),
    /// An event named a process that had already completed.
    CompletedProcess(ProcessId),
    /// An effect named a resource id that was never created.
    UnknownResource(ResourceId),
    /// A release would have raised a resource's available count above its
    /// capacity: the scenario released more units than it requested.
    ReleaseOverCapacity(ResourceId),
}

} // verus!
