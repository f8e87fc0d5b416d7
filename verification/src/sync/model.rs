//! The mutex as a state machine.
//!
//! Every operation on a mutex is one critical section under its wait-queue
//! lock, so the operations of all threads on one mutex happen one after the
//! other. `MutexView` is the bookkeeping between two critical sections, and
//! each operation is a function from one such state to the next.

use vstd::prelude::*;
use crate::scheduler::thread::ThreadId;
use crate::timer::Instant;

verus! {

/// The bookkeeping of a mutex between two critical sections.
pub struct MutexView {
    /// The number of claims on the mutex: one for its owner, one for each
    /// blocked thread.
    pub count: nat,
    /// The thread that holds the mutex; the null id while no thread does.
    pub holder: ThreadId,
    /// The blocked threads, the one that has waited longest first.
    pub queue: Seq<ThreadId>,
    /// The thread to which the mutex was handed on and which has not run
    /// since: it is no longer queued, and becomes the holder as soon as it
    /// finishes its wait.
    pub handoff: Option<ThreadId>,
}

/// What a critical section tells the thread that ran it.
pub enum Outcome {
    /// The thread holds the mutex now.
    Acquired,
    /// The thread was queued and has to be suspended.
    Blocked,
    /// The deadline came first; the thread has no claim on the mutex left.
    TimedOut,
    /// The thread gave the mutex up; the thread named here, if any, has to be
    /// made runnable.
    Released(Option<ThreadId>),
}

/// One critical section on a mutex, named by the method that a thread runs in
/// it.
pub enum Event {
    /// The thread calls `lock`.
    Lock(ThreadId),
    /// The thread calls `lock_until` with a deadline, at a time that the
    /// clock shows.
    LockUntil(ThreadId, Instant, Instant),
    /// The thread was suspended in `lock`, runs again and finishes it.
    FinishLock(ThreadId),
    /// The thread was suspended in `lock_until`, runs again and finishes it.
    FinishLockUntil(ThreadId),
    /// The thread gives the mutex up.
    Unlock(ThreadId),
}

impl Event {
    /// The thread that runs the critical section.
    pub open spec fn thread(self) -> ThreadId {
        match self {
            Event::Lock(thread) => thread,
            Event::LockUntil(thread, _, _) => thread,
            Event::FinishLock(thread) => thread,
            Event::FinishLockUntil(thread) => thread,
            Event::Unlock(thread) => thread,
        }
    }
}

impl MutexView {
    /// A mutex that no thread holds or waits for.
    pub open spec fn unlocked() -> MutexView {
        MutexView { count: 0, holder: ThreadId::null(), queue: Seq::empty(), handoff: None }
    }

    /// Whether the mutex belongs to a thread: one that holds it, or one to
    /// which it was handed on.
    pub open spec fn is_owned(self) -> bool {
        !self.holder.is_null() || self.handoff is Some
    }

    /// Whether `thread` holds the mutex, is blocked on it, or was handed it.
    pub open spec fn involves(self, thread: ThreadId) -> bool {
        self.holder == thread || self.queue.contains(thread) || self.handoff == Some(thread)
    }

    /// The invariant of the bookkeeping. The count is the number of claims;
    /// no thread has two roles at once; the null id has none; and threads are
    /// blocked only while the mutex belongs to some thread. The holder is the
    /// null id exactly while the mutex is free or on its way to the next
    /// owner.
    pub open spec fn wf(self) -> bool {
        &&& self.queue.no_duplicates()
        &&& !self.queue.contains(ThreadId::null())
        &&& self.handoff != Some(ThreadId::null())
        &&& self.handoff matches Some(next) ==> self.holder.is_null() && !self.queue.contains(next)
        &&& !self.queue.contains(self.holder)
        &&& self.count == self.queue.len() + (if self.is_owned() { 1nat } else { 0nat })
        &&& self.queue.len() > 0 ==> self.is_owned()
    }

    /// Whether `thread` may ask for the mutex. Asking again while holding it
    /// is the programming error that the kernel treats as fatal; a thread
    /// that is blocked on the mutex cannot ask, since it does not run; and
    /// the count must have room for one more claim.
    pub open spec fn can_lock(self, thread: ThreadId) -> bool {
        &&& !thread.is_null()
        &&& !self.involves(thread)
        &&& self.count < u32::MAX
    }

    /// The state after `thread` asked for the mutex with `lock`: the thread
    /// holds a free mutex at once, and joins the tail of the queue of one
    /// that is not free.
    pub open spec fn lock(self, thread: ThreadId) -> MutexView {
        if self.count == 0 {
            MutexView { count: 1, holder: thread, ..self }
        } else {
            MutexView { count: self.count + 1, queue: self.queue.push(thread), ..self }
        }
    }

    pub open spec fn lock_outcome(self, thread: ThreadId) -> Outcome {
        if self.count == 0 {
            Outcome::Acquired
        } else {
            Outcome::Blocked
        }
    }

    /// The state after `thread` asked for the mutex with `lock_until`. It
    /// differs from `lock` where the mutex is not free and the deadline has
    /// been reached already: the claim is withdrawn on the spot, and nothing
    /// has changed.
    pub open spec fn lock_until(self, thread: ThreadId, deadline: Instant, now: Instant)
        -> MutexView {
        if self.count > 0 && deadline.is_reached_at(now) {
            self
        } else {
            self.lock(thread)
        }
    }

    pub open spec fn lock_until_outcome(self, thread: ThreadId, deadline: Instant, now: Instant)
        -> Outcome {
        if self.count > 0 && deadline.is_reached_at(now) {
            Outcome::TimedOut
        } else {
            self.lock_outcome(thread)
        }
    }

    /// Whether `thread` was handed the mutex and may finish its `lock`.
    pub open spec fn can_finish_lock(self, thread: ThreadId) -> bool {
        self.handoff == Some(thread)
    }

    /// The state after the thread that was handed the mutex finished its
    /// wait: it is the holder, without a look at the count.
    pub open spec fn finish_lock(self, thread: ThreadId) -> MutexView {
        MutexView { holder: thread, handoff: None, ..self }
    }

    /// Whether `thread` is in the middle of a `lock_until`: blocked, or
    /// handed the mutex.
    pub open spec fn can_finish_lock_until(self, thread: ThreadId) -> bool {
        self.handoff == Some(thread) || self.queue.contains(thread)
    }

    /// The state after a thread in the middle of a `lock_until` ran again. If
    /// it was handed the mutex it is the holder, whether or not its deadline
    /// has come as well. If not, it runs because its deadline came: it leaves
    /// the queue and its claim is taken back.
    pub open spec fn finish_lock_until(self, thread: ThreadId) -> MutexView {
        if self.handoff == Some(thread) {
            self.finish_lock(thread)
        } else {
            MutexView {
                count: (self.count - 1) as nat,
                queue: self.queue.remove_value(thread),
                ..self
            }
        }
    }

    pub open spec fn finish_lock_until_outcome(self, thread: ThreadId) -> Outcome {
        if self.handoff == Some(thread) {
            Outcome::Acquired
        } else {
            Outcome::TimedOut
        }
    }

    /// Whether `thread` may give the mutex up: it holds it. Anything else is
    /// the programming error that the kernel treats as fatal.
    pub open spec fn can_unlock(self, thread: ThreadId) -> bool {
        &&& !thread.is_null()
        &&& self.holder == thread
        &&& self.count > 0
    }

    /// The state after the holder gave the mutex up. Its claim is gone, and
    /// if another is left the mutex is handed to the thread that has waited
    /// longest.
    pub open spec fn unlock(self, thread: ThreadId) -> MutexView {
        if self.count > 1 && self.queue.len() > 0 {
            MutexView {
                count: (self.count - 1) as nat,
                holder: ThreadId::null(),
                queue: self.queue.drop_first(),
                handoff: Some(self.queue.first()),
            }
        } else {
            MutexView { count: (self.count - 1) as nat, holder: ThreadId::null(), ..self }
        }
    }

    pub open spec fn unlock_outcome(self, thread: ThreadId) -> Outcome {
        Outcome::Released(self.unlock(thread).handoff)
    }

    /// Whether `event` can happen in this state: what the method that it
    /// names requires of its caller.
    pub open spec fn enables(self, event: Event) -> bool {
        match event {
            Event::Lock(thread) => self.can_lock(thread),
            Event::LockUntil(thread, _, _) => self.can_lock(thread),
            Event::FinishLock(thread) => self.can_finish_lock(thread),
            Event::FinishLockUntil(thread) => self.can_finish_lock_until(thread),
            Event::Unlock(thread) => self.can_unlock(thread),
        }
    }

    /// The state after `event`.
    pub open spec fn step(self, event: Event) -> MutexView {
        match event {
            Event::Lock(thread) => self.lock(thread),
            Event::LockUntil(thread, deadline, now) => self.lock_until(thread, deadline, now),
            Event::FinishLock(thread) => self.finish_lock(thread),
            Event::FinishLockUntil(thread) => self.finish_lock_until(thread),
            Event::Unlock(thread) => self.unlock(thread),
        }
    }

    /// What `event` tells the thread that ran it.
    pub open spec fn outcome(self, event: Event) -> Outcome {
        match event {
            Event::Lock(thread) => self.lock_outcome(thread),
            Event::LockUntil(thread, deadline, now) => self.lock_until_outcome(
                thread,
                deadline,
                now,
            ),
            Event::FinishLock(thread) => Outcome::Acquired,
            Event::FinishLockUntil(thread) => self.finish_lock_until_outcome(thread),
            Event::Unlock(thread) => self.unlock_outcome(thread),
        }
    }

    /// Whether the events of `trace` can happen one after the other, the
    /// first of them in this state.
    pub open spec fn enables_all(self, trace: Seq<Event>) -> bool
        decreases trace.len(),
    {
        trace.len() == 0 || (self.enables(trace.first()) && self.step(
            trace.first(),
        ).enables_all(trace.drop_first()))
    }

    /// The state after the events of `trace`.
    pub open spec fn run(self, trace: Seq<Event>) -> MutexView
        decreases trace.len(),
    {
        if trace.len() == 0 {
            self
        } else {
            self.step(trace.first()).run(trace.drop_first())
        }
    }
}

} // verus!
