//! A verified core for asynchronous I/O event loops.
//!
//! Callbacks are registered on descriptors and timers and run when the system reports an event.
//! The modules hold what is decided along the way as functions on plain values: which callback an
//! event runs ([`kqueue`], [`select`]), what a verdict of a callback does to its registration
//! ([`callbacks`], [`event`]), what a message to the loop thread leads to ([`executor`]), and which
//! bytes go out next ([`write_queue`]). A caller makes the system calls, runs the callbacks and
//! hands back what came of them. Callbacks are of any type: the modules only store them.

pub mod callbacks;
pub mod delay;
pub mod event;
pub mod executor;
pub mod fd_set;
pub mod future;
pub mod kqueue;
pub mod sample;
pub mod select;
pub mod write_queue;

pub use event::EventControl;
pub use future::Future;
