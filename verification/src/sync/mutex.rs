//! A mutex for preemptible kernel threads that hands itself from the holder
//! straight to the thread that has waited longest.
//!
//! The mutex itself never suspends a thread: that is the scheduler's work.
//! Each method is one critical section under the wait-queue lock and tells
//! its caller what to do next. A `lock` that finds the mutex taken queues the
//! caller and reports `LockStep::MustWait`; the caller is suspended, and when
//! it runs again it calls `finish_lock`. `unlock` names the thread that the
//! scheduler has to make runnable.

use vstd::prelude::*;
use crate::scheduler::thread::ThreadId;
use crate::scheduler::wait_queue::WaitQueueLock;
use crate::status::Error;
use crate::sync::model::MutexView;
use crate::sync::model::Outcome;
use crate::timer::Instant;

verus! {

#[derive(Clone, Copy)]
struct MutexState {
    count: u32,
    holder_thread_id: ThreadId,
}

/// A value of type `T` that one thread at a time may use.
pub struct Mutex<T> {
    state: WaitQueueLock<MutexState>,
    inner: T,
}

/// The token of a held mutex. Only a successful acquisition makes one, it
/// cannot be copied, and `Mutex::unlock` consumes it.
#[derive(Debug)]
pub struct MutexGuard {
    owner: ThreadId,
}

/// What `lock` and `lock_until` tell their caller.
#[derive(Debug)]
pub enum LockStep {
    /// The caller holds the mutex.
    Acquired(MutexGuard),
    /// The caller was queued: it has to be suspended, and to finish the
    /// acquisition when it runs again.
    MustWait,
}

impl MutexGuard {
    /// The thread to which the mutex was granted.
    pub closed spec fn owner(&self) -> ThreadId {
        self.owner
    }

    pub fn owner_id(&self) -> (owner: ThreadId)
        ensures
            owner == self.owner(),
    {
        self.owner
    }
}

impl LockStep {
    /// The outcome that this step reports, and the thread it reports it to.
    pub open spec fn reports(&self, outcome: Outcome, thread: ThreadId) -> bool {
        match *self {
            LockStep::Acquired(guard) => outcome is Acquired && guard.owner() == thread,
            LockStep::MustWait => outcome is Blocked,
        }
    }
}

impl<T> Mutex<T> {
    /// The bookkeeping of the mutex.
    pub closed spec fn view(&self) -> MutexView {
        MutexView {
            count: self.state.protected().count as nat,
            holder: self.state.protected().holder_thread_id,
            queue: self.state.queue(),
            handoff: if self.state.woken().len() == 0 {
                None
            } else {
                Some(self.state.woken().first())
            },
        }
    }

    /// The protected value.
    pub closed spec fn value(&self) -> T {
        self.inner
    }

    /// The invariant that `new` establishes and every method keeps.
    pub closed spec fn wf(&self) -> bool {
        &&& self.state.wf()
        &&& self.state.woken().len() <= 1
        &&& self@.wf()
    }

    /// What the invariant means for the bookkeeping.
    pub proof fn lemma_wf(&self)
        requires
            self.wf(),
        ensures
            self@.wf(),
            self@.count <= u32::MAX,
    {
    }

    /// Whether `guard` is the token of the current holder.
    pub open spec fn is_held_with(&self, guard: &MutexGuard) -> bool {
        !guard.owner().is_null() && self@.holder == guard.owner()
    }

    /// A mutex around `initial_value` that no thread holds.
    pub fn new(initial_value: T) -> (mutex: Self)
        ensures
            mutex.wf(),
            mutex@ == MutexView::unlocked(),
            mutex.value() == initial_value,
    {
        let mutex = Mutex {
            state: WaitQueueLock::new(
                MutexState { count: 0, holder_thread_id: ThreadId::null_id() },
            ),
            inner: initial_value,
        };
        proof {
            assert(mutex@.queue =~= Seq::<ThreadId>::empty());
        }
        mutex
    }

    /// The thread that holds the mutex; the null id while none does.
    pub fn holder(&self) -> (holder: ThreadId)
        ensures
            holder == self@.holder,
    {
        self.state.get().holder_thread_id
    }

    /// The number of claims on the mutex.
    pub fn count(&self) -> (count: u32)
        ensures
            count == self@.count,
    {
        self.state.get().count
    }

    /// Whether `thread` is blocked on the mutex.
    pub fn is_blocked(&self, thread: ThreadId) -> (blocked: bool)
        ensures
            blocked == self@.queue.contains(thread),
    {
        self.state.is_queued(thread)
    }

    /// Whether the mutex was handed to `thread` and is waiting for it to run.
    pub fn is_handed_to(&self, thread: ThreadId) -> (handed: bool)
        requires
            self.wf(),
        ensures
            handed == (self@.handoff == Some(thread)),
    {
        let handed = self.state.is_woken(thread);
        proof {
            let woken = self.state.woken();
            if handed {
                let i = choose|i: int| 0 <= i < woken.len() && woken[i] == thread;
                assert(woken.first() == thread);
            } else if woken.len() > 0 {
                assert(woken.contains(woken.first()));
            }
        }
        handed
    }

    /// Whether `thread` may call `lock` or `lock_until`.
    pub fn may_lock(&self, thread: ThreadId) -> (may: bool)
        requires
            self.wf(),
        ensures
            may == self@.can_lock(thread),
    {
        !thread.is_null_id() && self.holder() != thread && !self.is_blocked(thread)
            && !self.is_handed_to(thread) && self.count() < u32::MAX
    }

    /// Whether `thread` may call `unlock`.
    pub fn may_unlock(&self, thread: ThreadId) -> (may: bool)
        ensures
            may == self@.can_unlock(thread),
    {
        !thread.is_null_id() && self.holder() == thread && self.count() > 0
    }

    /// Asks for the mutex on behalf of `current`. A free mutex is granted at
    /// once. Otherwise `current` is queued behind the threads that asked
    /// before it and has to be suspended; the mutex is handed to it when its
    /// turn comes.
    pub fn lock(&mut self, current: ThreadId) -> (step: LockStep)
        requires
            old(self).wf(),
            old(self)@.can_lock(current),
        ensures
            final(self).wf(),
            final(self)@ == old(self)@.lock(current),
            final(self).value() == old(self).value(),
            step.reports(old(self)@.lock_outcome(current), current),
    {
        let state = *self.state.get();
        let count = state.count + 1;
        if count > 1 {
            self.state.set(MutexState { count, holder_thread_id: state.holder_thread_id });
            self.state.wait(current);
            LockStep::MustWait
        } else {
            self.state.set(MutexState { count, holder_thread_id: current });
            LockStep::Acquired(MutexGuard { owner: current })
        }
    }

    /// Asks for the mutex as `lock` does, but waits no longer than until
    /// `deadline`; `now` is what the clock shows. Where the mutex is taken
    /// and the deadline has been reached already, the caller is not queued
    /// and must not be suspended: the call fails with `DeadlineExceeded` and
    /// has changed nothing.
    pub fn lock_until(&mut self, current: ThreadId, deadline: Instant, now: Instant) -> (step:
        Result<LockStep, Error>)
        requires
            old(self).wf(),
            old(self)@.can_lock(current),
        ensures
            final(self).wf(),
            final(self)@ == old(self)@.lock_until(current, deadline, now),
            final(self).value() == old(self).value(),
            match step {
                Ok(step) => step.reports(
                    old(self)@.lock_until_outcome(current, deadline, now),
                    current,
                ),
                Err(error) => error == Error::DeadlineExceeded && old(self)@.lock_until_outcome(
                    current,
                    deadline,
                    now,
                ) is TimedOut,
            },
    {
        let state = *self.state.get();
        let count = state.count + 1;
        if count > 1 {
            self.state.set(MutexState { count, holder_thread_id: state.holder_thread_id });
            let began = self.state.wait_until(current, deadline, now);
            if let Err(error) = began {
                self.state.set(
                    MutexState { count: count - 1, holder_thread_id: state.holder_thread_id },
                );
                return Err(error);
            }
            Ok(LockStep::MustWait)
        } else {
            self.state.set(MutexState { count, holder_thread_id: current });
            Ok(LockStep::Acquired(MutexGuard { owner: current }))
        }
    }

    /// Finishes a `lock` that had to wait, when `current` runs again: the
    /// mutex was handed to it, and it becomes the holder without looking at
    /// the count.
    pub fn finish_lock(&mut self, current: ThreadId) -> (guard: MutexGuard)
        requires
            old(self).wf(),
            old(self)@.can_finish_lock(current),
        ensures
            final(self).wf(),
            final(self)@ == old(self)@.finish_lock(current),
            final(self).value() == old(self).value(),
            guard.owner() == current,
    {
        let state = *self.state.get();
        proof {
            assert(self.state.woken().contains(self.state.woken().first()));
            assert(self.state.woken().remove_value(current) =~= Seq::<ThreadId>::empty()) by {
                self.state.woken().index_of_first_ensures(current);
            }
        }
        self.state.finish_wait(current);
        self.state.set(MutexState { count: state.count, holder_thread_id: current });
        MutexGuard { owner: current }
    }

    /// Finishes a `lock_until` that had to wait, when `current` runs again.
    /// If the mutex was handed to it in the meantime it becomes the holder,
    /// even if its deadline has come as well. If not, its deadline has come:
    /// it leaves the queue, its claim is taken back, and the call fails with
    /// `DeadlineExceeded`.
    pub fn finish_lock_until(&mut self, current: ThreadId) -> (guard: Result<MutexGuard, Error>)
        requires
            old(self).wf(),
            old(self)@.can_finish_lock_until(current),
        ensures
            final(self).wf(),
            final(self)@ == old(self)@.finish_lock_until(current),
            final(self).value() == old(self).value(),
            match guard {
                Ok(guard) => old(self)@.finish_lock_until_outcome(current) is Acquired
                    && guard.owner() == current,
                Err(error) => old(self)@.finish_lock_until_outcome(current) is TimedOut && error
                    == Error::DeadlineExceeded,
            },
    {
        let state = *self.state.get();
        proof {
            let woken = self.state.woken();
            if woken.len() > 0 {
                assert(woken.contains(woken.first()));
            }
            if woken.contains(current) {
                let i = choose|i: int| 0 <= i < woken.len() && woken[i] == current;
                assert(woken.first() == current);
                assert(woken.remove_value(current) =~= Seq::<ThreadId>::empty()) by {
                    woken.index_of_first_ensures(current);
                }
            } else {
                let queue = self.state.queue();
                queue.index_of_first_ensures(current);
                crate::sequences::lemma_remove_nodup(queue, queue.index_of(current));
            }
        }
        let ended = self.state.finish_wait_until(current);
        match ended {
            Ok(()) => {
                self.state.set(MutexState { count: state.count, holder_thread_id: current });
                Ok(MutexGuard { owner: current })
            },
            Err(error) => {
                self.state.set(
                    MutexState {
                        count: state.count - 1,
                        holder_thread_id: state.holder_thread_id,
                    },
                );
                Err(error)
            },
        }
    }

    /// Gives the mutex up. If a thread is blocked on it, the mutex is handed
    /// to the one that has waited longest, and that thread is returned for
    /// the scheduler to make runnable.
    pub fn unlock(&mut self, guard: MutexGuard) -> (wake: Option<ThreadId>)
        requires
            old(self).wf(),
            old(self)@.can_unlock(guard.owner()),
        ensures
            final(self).wf(),
            final(self)@ == old(self)@.unlock(guard.owner()),
            final(self).value() == old(self).value(),
            wake == final(self)@.handoff,
    {
        let state = *self.state.get();
        let count = state.count - 1;
        self.state.set(MutexState { count, holder_thread_id: ThreadId::null_id() });
        if count > 0 {
            let wake = self.state.wake_one();
            proof {
                let queue = old(self).state.queue();
                assert(queue.contains(queue.first()));
                crate::sequences::lemma_remove_nodup(queue, 0);
                assert(queue.remove(0) =~= queue.drop_first());
            }
            wake
        } else {
            None
        }
    }

    /// The protected value, for the thread that holds the mutex.
    pub fn get(&self, guard: &MutexGuard) -> (value: &T)
        requires
            self.wf(),
            self.is_held_with(guard),
        ensures
            *value == self.value(),
    {
        &self.inner
    }

    /// The protected value, to be changed by the thread that holds the mutex.
    pub fn get_mut(&mut self, guard: &MutexGuard) -> (value: &mut T)
        requires
            old(self).wf(),
            old(self).is_held_with(guard),
        ensures
            *value == old(self).value(),
            final(self).value() == *final(value),
            final(self)@ == old(self)@,
            final(self).wf(),
    {
        &mut self.inner
    }
}

} // verus!
