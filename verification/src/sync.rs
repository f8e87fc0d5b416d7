//! Synchronisation primitives for kernel and driver code.

pub mod model;
pub mod mutex;
pub mod theorems;
