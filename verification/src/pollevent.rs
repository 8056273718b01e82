//! The events that workers and the reactor send to the loop.
use crate::ioresult::IOResult;
use vstd::prelude::*;

verus! {

/// What reaches the loop over its one inbound channel.
#[derive(Debug, PartialEq, Eq)]
pub enum PollEvent {
    /// A worker has finished: the worker's number, the identity of the
    /// callback that waits, and what the work produced.
    Threadpool(usize, usize, IOResult),
    /// The descriptor registered under this identity is ready.
    Readiness(usize),
    /// The reactor's wait ran out with nothing ready.
    TimeoutTick,
}

} // verus!
