//! The core of a single-threaded event loop in the style of Node: a callback
//! registry keyed by identities, a timer wheel, a queue of work for a fixed
//! pool of workers, a ready list and a pending counter, with the rules by
//! which the loop moves through the phases of an iteration and ends.
//!
//! The library holds the loop's state and makes its decisions. It starts no
//! thread and calls no callback: it hands out what is to be sent to a
//! worker and which callback is to run on which result, and takes in the
//! events that workers and the reactor report.
pub mod clock;
pub mod driver;
pub mod http;
pub mod identity;
pub mod ioresult;
pub mod laws;
pub mod model;
pub mod pollevent;
pub mod preservation;
pub mod reactor;
pub mod registry;
pub mod runtime;
pub mod selector;
pub mod seqs;
pub mod task;
pub mod timers;
