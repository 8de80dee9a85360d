//! A readiness-based I/O event-notification core.
//!
//! Callers register interest in the readiness (readable / writable /
//! hung-up) of I/O resources under caller-chosen tokens, then drain
//! batches of readiness events from a poll instance.  The engine
//! reconciles edge-triggered, level-triggered and oneshot re-delivery
//! policies behind one contract: no event is lost or duplicated, and
//! registration state transitions are atomic.
//!
//! The core performs no I/O itself: the embedding feeds the raw
//! readiness it observes on each resource into the portable backend, and
//! runs the blocking loop around [`poll::Poll::wait`].

pub mod backend;
pub mod errors;
pub mod event;
pub mod interest;
pub mod laws;
pub mod poll;
pub mod registry;
