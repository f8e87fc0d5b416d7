//! What the synchronisation primitives need from the scheduler: the identity
//! of a thread, and the short-hold lock with its queue of blocked threads.

pub mod thread;
pub mod wait_queue;
