//! A discrete-event simulation kernel.
//!
//! A simulation advances a virtual clock by dispatching events in time
//! order. Each event names a process; when its event fires, the process
//! is resumed and yields an [`Effect`] telling the kernel why it suspends
//! again: a timeout, a request for or release of a finite resource, an
//! interrupt or a message aimed at another process, or an indefinite wait.
//! The kernel interprets the effect, mutates its state, schedules the
//! follow-up events, and appends the dispatched event to a log.
//!
//! Virtual time is a `u64` tick count; the embedder picks the unit.
//! Process bodies are supplied as implementations of [`Process`]: state
//! machines that the kernel resumes one step at a time, each resumption
//! returning either a yielded [`Effect`] or completion.

pub mod context;
pub mod effect;
pub mod fifo;
pub mod process;
pub mod queue;
pub mod resource;
pub mod simulation;

pub use context::Context;
pub use effect::{Effect, EndCondition, Event, ProcessId, ProcessState, ResourceId, SimError};
pub use process::Process;
pub use simulation::Simulation;
