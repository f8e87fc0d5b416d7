//! Verified building blocks of a small embedded kernel.
//!
//! - `sync`: the blocking mutex, as the decisions it takes under its lock;
//!   `sync::model` is the mutex as a state machine and `sync::theorems` says
//!   what holds of it whatever the threads do.
//! - `scheduler`: thread identities and the wait-queue lock on which the
//!   mutex is built.
//! - `timer`: points in time of the monotonic clock.
//! - `config`: the kernel's configuration interfaces.
//! - `tokenizer`: format strings and their arguments as compact binary
//!   messages.
//! - `status`: the error codes.
//!
//! Nothing here suspends a thread, reads a clock or writes to a device: the
//! kernel around the library does, and hands the library plain values.

pub mod config;
pub mod scheduler;
pub mod sequences;
pub mod status;
pub mod sync;
pub mod timer;
pub mod tokenizer;
