//! The lock that guards a primitive's bookkeeping, together with the queue of
//! threads blocked on that primitive.
//!
//! Holding a `&mut WaitQueueLock` stands for holding the raw lock: every
//! method is one short critical section. A thread that has to block leaves its
//! id in the queue, gives the lock up and is suspended by the scheduler; once
//! it runs again it takes the lock anew and finishes its wait. The lock is
//! therefore never held across a suspension.

use vstd::prelude::*;
use crate::scheduler::thread::ThreadId;
use crate::sequences::lemma_push_fresh;
use crate::sequences::lemma_remove_nodup;
use crate::sequences::lemma_remove_value_at;
use crate::status::Error;
use crate::timer::Instant;

verus! {

/// The position of `thread` in `threads`, if it occurs there.
pub fn position(threads: &Vec<ThreadId>, thread: ThreadId) -> (found: Option<usize>)
    ensures
        match found {
            Some(i) => i < threads@.len() && threads@[i as int] == thread
                && !threads@.take(i as int).contains(thread),
            None => !threads@.contains(thread),
        },
{
    let mut i: usize = 0;
    while i < threads.len()
        invariant
            i <= threads@.len(),
            !threads@.take(i as int).contains(thread),
        decreases threads@.len() - i,
    {
        if threads[i] == thread {
            return Some(i);
        }
        proof {
            assert(threads@.take(i as int + 1) =~= threads@.take(i as int).push(threads@[i as int]));
        }
        i += 1;
    }
    proof {
        assert(threads@.take(i as int) =~= threads@);
    }
    None
}

/// A value of type `T` behind a short-hold lock, with the threads that wait
/// for the primitive built on it.
pub struct WaitQueueLock<T> {
    protected: T,
    /// The blocked threads, the one that has waited longest first.
    wait_queue: Vec<ThreadId>,
    /// The threads that were woken and have not finished their wait yet.
    woken: Vec<ThreadId>,
}

impl<T> WaitQueueLock<T> {
    /// The guarded value.
    pub closed spec fn protected(&self) -> T {
        self.protected
    }

    /// The blocked threads in the order in which they began to wait.
    pub closed spec fn queue(&self) -> Seq<ThreadId> {
        self.wait_queue@
    }

    /// The threads with a pending wake: taken off the queue by `wake_one`,
    /// not yet back from their wait.
    pub closed spec fn woken(&self) -> Seq<ThreadId> {
        self.woken@
    }

    /// No thread is recorded twice, and the null id is not recorded at all.
    pub open spec fn wf(&self) -> bool {
        &&& self.queue().no_duplicates()
        &&& self.woken().no_duplicates()
        &&& forall|t: ThreadId| !(self.queue().contains(t) && self.woken().contains(t))
        &&& !self.queue().contains(ThreadId::null())
        &&& !self.woken().contains(ThreadId::null())
    }

    /// Whether `thread` is in the middle of a wait: blocked in the queue, or
    /// woken and not yet back.
    pub open spec fn is_waiting(&self, thread: ThreadId) -> bool {
        self.queue().contains(thread) || self.woken().contains(thread)
    }

    /// Whether `thread` may begin a wait: it names a thread, and that thread
    /// is not in the middle of a wait already.
    pub open spec fn may_wait(&self, thread: ThreadId) -> bool {
        !thread.is_null() && !self.is_waiting(thread)
    }

    pub fn new(value: T) -> (lock: Self)
        ensures
            lock.wf(),
            lock.protected() == value,
            lock.queue() == Seq::<ThreadId>::empty(),
            lock.woken() == Seq::<ThreadId>::empty(),
    {
        WaitQueueLock { protected: value, wait_queue: Vec::new(), woken: Vec::new() }
    }

    /// Read access to the guarded value.
    pub fn get(&self) -> (value: &T)
        ensures
            *value == self.protected(),
    {
        &self.protected
    }

    /// Replaces the guarded value and leaves the waiting threads alone.
    pub fn set(&mut self, value: T)
        ensures
            final(self).protected() == value,
            final(self).queue() == old(self).queue(),
            final(self).woken() == old(self).woken(),
    {
        self.protected = value;
    }

    /// Whether `thread` is blocked in the queue.
    pub fn is_queued(&self, thread: ThreadId) -> (queued: bool)
        ensures
            queued == self.queue().contains(thread),
    {
        position(&self.wait_queue, thread).is_some()
    }

    /// Whether a wake is pending for `thread`.
    pub fn is_woken(&self, thread: ThreadId) -> (woken: bool)
        ensures
            woken == self.woken().contains(thread),
    {
        position(&self.woken, thread).is_some()
    }

    /// The number of blocked threads.
    pub fn queue_len(&self) -> (len: usize)
        ensures
            len == self.queue().len(),
    {
        self.wait_queue.len()
    }

    /// Begins a wait without a time limit: `current` joins the tail of the
    /// queue. The caller then gives up the lock and has the scheduler suspend
    /// the thread; only `wake_one` makes it runnable again.
    pub fn wait(&mut self, current: ThreadId)
        requires
            old(self).wf(),
            old(self).may_wait(current),
        ensures
            final(self).wf(),
            final(self).queue() == old(self).queue().push(current),
            final(self).woken() == old(self).woken(),
            final(self).protected() == old(self).protected(),
    {
        proof {
            lemma_push_fresh(self.wait_queue@, current);
        }
        self.wait_queue.push(current);
    }

    /// Begins a wait that ends at `deadline` at the latest. When the clock,
    /// which shows `now`, has reached the deadline already, the wait is over
    /// before it began: `current` is not queued and must not be suspended.
    /// Otherwise `current` joins the tail of the queue as in `wait`.
    pub fn wait_until(&mut self, current: ThreadId, deadline: Instant, now: Instant) -> (began:
        Result<(), Error>)
        requires
            old(self).wf(),
            old(self).may_wait(current),
        ensures
            final(self).wf(),
            final(self).woken() == old(self).woken(),
            final(self).protected() == old(self).protected(),
            deadline.is_reached_at(now) ==> began == Err::<(), Error>(Error::DeadlineExceeded)
                && final(self).queue() == old(self).queue(),
            !deadline.is_reached_at(now) ==> began == Ok::<(), Error>(())
                && final(self).queue() == old(self).queue().push(current),
    {
        if deadline.reached_at(now) {
            return Err(Error::DeadlineExceeded);
        }
        self.wait(current);
        Ok(())
    }

    /// Takes the thread that has waited longest off the queue and records a
    /// pending wake for it; the caller has the scheduler make that thread
    /// runnable. Does nothing when no thread is blocked. Never suspends the
    /// caller.
    pub fn wake_one(&mut self) -> (woken: Option<ThreadId>)
        requires
            old(self).wf(),
        ensures
            final(self).wf(),
            final(self).protected() == old(self).protected(),
            old(self).queue().len() == 0 ==> woken.is_none()
                && final(self).queue() == old(self).queue()
                && final(self).woken() == old(self).woken(),
            old(self).queue().len() > 0 ==> woken == Some(old(self).queue().first())
                && final(self).queue() == old(self).queue().drop_first()
                && final(self).woken() == old(self).woken().push(old(self).queue().first()),
    {
        if self.wait_queue.len() == 0 {
            return None;
        }
        proof {
            lemma_remove_nodup(self.wait_queue@, 0);
            lemma_push_fresh(self.woken@, self.wait_queue@[0]);
            assert(self.wait_queue@.contains(self.wait_queue@[0]));
            assert(self.wait_queue@.remove(0) =~= self.wait_queue@.drop_first());
        }
        let head = self.wait_queue.remove(0);
        self.woken.push(head);
        Some(head)
    }

    /// Ends a wait that was begun with `wait`: consumes the wake that is
    /// pending for `current`.
    pub fn finish_wait(&mut self, current: ThreadId)
        requires
            old(self).wf(),
            old(self).woken().contains(current),
        ensures
            final(self).wf(),
            final(self).protected() == old(self).protected(),
            final(self).queue() == old(self).queue(),
            final(self).woken() == old(self).woken().remove_value(current),
            !final(self).is_waiting(current),
    {
        let found = position(&self.woken, current);
        match found {
            Some(i) => {
                proof {
                    lemma_remove_nodup(self.woken@, i as int);
                    lemma_remove_value_at(self.woken@, i as int);
                }
                self.woken.remove(i);
            },
            None => {},
        }
    }

    /// Ends a wait that was begun with `wait_until`, when `current` runs
    /// again. A wake that is pending for `current` wins over the deadline: it
    /// is consumed and the wait has succeeded. Without one the thread runs
    /// because its deadline came: it leaves the queue, and the wait has
    /// failed.
    pub fn finish_wait_until(&mut self, current: ThreadId) -> (ended: Result<(), Error>)
        requires
            old(self).wf(),
            old(self).is_waiting(current),
        ensures
            final(self).wf(),
            final(self).protected() == old(self).protected(),
            !final(self).is_waiting(current),
            old(self).woken().contains(current) ==> ended == Ok::<(), Error>(())
                && final(self).queue() == old(self).queue()
                && final(self).woken() == old(self).woken().remove_value(current),
            !old(self).woken().contains(current) ==> ended == Err::<(), Error>(
                Error::DeadlineExceeded,
            ) && final(self).queue() == old(self).queue().remove_value(current)
                && final(self).woken() == old(self).woken(),
    {
        if self.is_woken(current) {
            self.finish_wait(current);
            return Ok(());
        }
        let found = position(&self.wait_queue, current);
        match found {
            Some(i) => {
                proof {
                    lemma_remove_nodup(self.wait_queue@, i as int);
                    lemma_remove_value_at(self.wait_queue@, i as int);
                }
                self.wait_queue.remove(i);
            },
            None => {},
        }
        Err(Error::DeadlineExceeded)
    }
}

} // verus!
