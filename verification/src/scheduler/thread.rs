//! Thread identities.

use vstd::prelude::*;

verus! {

/// Names a thread without owning it. The id whose number is zero, the null
/// id, names no thread.
#[derive(Clone, Copy, Debug, PartialEq, Eq, PartialOrd, Ord, Hash, Structural)]
pub struct ThreadId {
    /// The number that stands for the thread.
    pub raw: usize,
}

impl ThreadId {
    /// The id that never names a thread.
    pub open spec fn null() -> ThreadId {
        ThreadId { raw: 0 }
    }

    pub open spec fn is_null(&self) -> bool {
        *self == ThreadId::null()
    }

    pub fn new(raw: usize) -> (id: ThreadId)
        ensures
            id.raw == raw,
    {
        ThreadId { raw }
    }

    pub fn null_id() -> (id: ThreadId)
        ensures
            id == ThreadId::null(),
    {
        ThreadId { raw: 0 }
    }

    pub fn is_null_id(&self) -> (null: bool)
        ensures
            null == self.is_null(),
    {
        self.raw == 0
    }
}

} // verus!
