//! What holds of every mutex, whatever its threads do and in whatever order.

use vstd::prelude::*;
use crate::scheduler::thread::ThreadId;
use crate::sequences::lemma_index_of_unique;
use crate::sequences::lemma_push_fresh;
use crate::sequences::lemma_remove_nodup;
use crate::sequences::lemma_remove_value_at;
use crate::sync::model::Event;
use crate::sync::model::MutexView;
use crate::sync::model::Outcome;
use crate::timer::Instant;

verus! {

/// A mutex is free exactly while its count is zero, and but for the time in
/// which it is on its way to its next owner, it has no holder exactly while
/// its count is zero.
pub proof fn lemma_free_iff_count_zero(s: MutexView)
    requires
        s.wf(),
    ensures
        s.count == 0 <==> !s.is_owned(),
        s.count == 0 ==> s == MutexView::unlocked(),
        s.handoff is None ==> (s.holder.is_null() <==> s.count == 0),
{
    if s.count == 0 {
        assert(s.queue =~= Seq::<ThreadId>::empty());
    }
}

/// Every critical section keeps the invariant of the bookkeeping.
pub proof fn lemma_step_keeps_invariant(s: MutexView, event: Event)
    requires
        s.wf(),
        s.enables(event),
    ensures
        s.step(event).wf(),
{
    let thread = event.thread();
    match event {
        Event::Lock(_) => {
            lemma_lock_keeps_invariant(s, thread);
        },
        Event::LockUntil(_, deadline, now) => {
            lemma_lock_keeps_invariant(s, thread);
        },
        Event::FinishLock(_) => {},
        Event::FinishLockUntil(_) => {
            if s.handoff != Some(thread) {
                s.queue.index_of_first_ensures(thread);
                let i = s.queue.index_of(thread);
                lemma_remove_nodup(s.queue, i);
                lemma_remove_value_at(s.queue, i);
            }
        },
        Event::Unlock(_) => {
            if s.queue.len() > 0 {
                lemma_remove_nodup(s.queue, 0);
                assert(s.queue.remove(0) =~= s.queue.drop_first());
                assert(s.queue.contains(s.queue.first()));
            }
        },
    }
}

proof fn lemma_lock_keeps_invariant(s: MutexView, thread: ThreadId)
    requires
        s.wf(),
        s.can_lock(thread),
    ensures
        s.lock(thread).wf(),
{
    if s.count > 0 {
        lemma_push_fresh(s.queue, thread);
    }
}

/// The invariant holds after any sequence of critical sections.
pub proof fn lemma_run_keeps_invariant(s: MutexView, trace: Seq<Event>)
    requires
        s.wf(),
        s.enables_all(trace),
    ensures
        s.run(trace).wf(),
    decreases trace.len(),
{
    if trace.len() > 0 {
        lemma_step_keeps_invariant(s, trace.first());
        lemma_run_keeps_invariant(s.step(trace.first()), trace.drop_first());
    }
}

/// The change that a critical section with this outcome makes to the number
/// of guards alive: an acquisition makes a guard, a release consumes one.
pub open spec fn guards_made(outcome: Outcome) -> int {
    match outcome {
        Outcome::Acquired => 1,
        Outcome::Released(_) => -1,
        _ => 0,
    }
}

/// The number of guards that the events of `trace` make, less the number
/// that they consume, the first event happening in state `s`.
pub open spec fn guards_made_by(s: MutexView, trace: Seq<Event>) -> int
    decreases trace.len(),
{
    if trace.len() == 0 {
        0
    } else {
        guards_made(s.outcome(trace.first())) + guards_made_by(
            s.step(trace.first()),
            trace.drop_first(),
        )
    }
}

/// The number of guards alive in state `s`: one while a thread holds the
/// mutex.
pub open spec fn guards_alive(s: MutexView) -> int {
    if s.holder.is_null() {
        0
    } else {
        1
    }
}

/// A guard is made only while none is alive, and it makes its thread the
/// holder; a release consumes the guard of the holder and leaves none.
pub proof fn lemma_guard_accounting(s: MutexView, event: Event)
    requires
        s.wf(),
        s.enables(event),
    ensures
        s.outcome(event) is Acquired ==> s.holder.is_null() && s.step(event).holder
            == event.thread(),
        s.outcome(event) is Released ==> s.holder == event.thread() && s.step(
            event,
        ).holder.is_null(),
        guards_alive(s.step(event)) == guards_alive(s) + guards_made(s.outcome(event)),
{
    lemma_free_iff_count_zero(s);
}

/// Mutual exclusion. Whatever the threads do with a mutex from its creation
/// on, and in whatever order, the guards made and not yet consumed are never
/// more than one, and there is one exactly while the mutex has a holder.
pub proof fn lemma_mutual_exclusion(trace: Seq<Event>)
    requires
        MutexView::unlocked().enables_all(trace),
    ensures
        0 <= guards_made_by(MutexView::unlocked(), trace) <= 1,
        guards_made_by(MutexView::unlocked(), trace) == guards_alive(
            MutexView::unlocked().run(trace),
        ),
{
    lemma_guards_alive_after(MutexView::unlocked(), trace);
}

/// The guards alive after a sequence of critical sections are those alive
/// before it and those that it made.
pub proof fn lemma_guards_alive_after(s: MutexView, trace: Seq<Event>)
    requires
        s.wf(),
        s.enables_all(trace),
    ensures
        guards_alive(s.run(trace)) == guards_alive(s) + guards_made_by(s, trace),
    decreases trace.len(),
{
    if trace.len() > 0 {
        lemma_guard_accounting(s, trace.first());
        lemma_step_keeps_invariant(s, trace.first());
        lemma_guards_alive_after(s.step(trace.first()), trace.drop_first());
    }
}

/// A thread that holds the mutex cannot ask for it again, and neither can one
/// that waits for it: `lock` and `lock_until` are closed to the thread that
/// they have just served.
pub proof fn lemma_no_second_lock(s: MutexView, thread: ThreadId, deadline: Instant, now: Instant)
    requires
        s.wf(),
        s.can_lock(thread),
    ensures
        !s.lock(thread).can_lock(thread),
        !(s.lock_until_outcome(thread, deadline, now) is TimedOut) ==> !s.lock_until(
            thread,
            deadline,
            now,
        ).can_lock(thread),
        forall|other: MutexView| other.holder == thread ==> !other.can_lock(thread),
{
    if s.count > 0 {
        lemma_push_fresh(s.queue, thread);
    }
}

/// A guard releases once: after `unlock` its thread does not hold the mutex,
/// and a second `unlock` is closed to it.
pub proof fn lemma_no_second_unlock(s: MutexView, thread: ThreadId)
    requires
        s.wf(),
        s.can_unlock(thread),
    ensures
        !s.unlock(thread).can_unlock(thread),
        !s.unlock(thread).involves(thread),
{
    if s.queue.len() > 0 {
        lemma_remove_nodup(s.queue, 0);
        assert(s.queue.remove(0) =~= s.queue.drop_first());
    }
}

/// A `lock_until` on a taken mutex whose deadline has been reached fails at
/// once and changes nothing: the caller was never queued, so it is not to be
/// suspended. On a free mutex the deadline plays no part.
pub proof fn lemma_expired_deadline(s: MutexView, thread: ThreadId, deadline: Instant, now: Instant)
    requires
        s.wf(),
        s.can_lock(thread),
        deadline.is_reached_at(now),
    ensures
        s.is_owned() ==> s.lock_until_outcome(thread, deadline, now) is TimedOut && s.lock_until(
            thread,
            deadline,
            now,
        ) == s,
        !s.is_owned() ==> s.lock_until_outcome(thread, deadline, now) is Acquired,
{
    lemma_free_iff_count_zero(s);
}

/// A `lock_until` that was queued and whose thread runs again without having
/// been handed the mutex fails, and leaves the bookkeeping as it was before
/// the call.
pub proof fn lemma_timeout_restores(s: MutexView, thread: ThreadId, deadline: Instant, now: Instant)
    requires
        s.wf(),
        s.can_lock(thread),
        s.lock_until_outcome(thread, deadline, now) is Blocked,
    ensures
        s.lock_until(thread, deadline, now).can_finish_lock_until(thread),
        s.lock_until(thread, deadline, now).finish_lock_until_outcome(thread) is TimedOut,
        s.lock_until(thread, deadline, now).finish_lock_until(thread) == s,
{
    lemma_push_fresh(s.queue, thread);
    let queued = s.queue.push(thread);
    queued.index_of_first_ensures(thread);
    assert(queued.index_of(thread) == s.queue.len()) by {
        let i = queued.index_of(thread);
        if i < s.queue.len() {
            assert(s.queue[i] == thread);
        }
    }
    assert(queued.remove_value(thread) =~= s.queue);
}

/// The thread that has waited longest is handed the mutex when the holder
/// gives it up.
pub proof fn lemma_unlock_hands_over(s: MutexView, holder: ThreadId)
    requires
        s.wf(),
        s.can_unlock(holder),
        s.queue.len() > 0,
    ensures
        s.unlock(holder).handoff == Some(s.queue.first()),
        s.unlock_outcome(holder) == Outcome::Released(Some(s.queue.first())),
{
}

/// The thread that was handed the mutex becomes its holder as soon as it
/// runs, whichever call it was suspended in, and whether or not its deadline
/// has come as well.
pub proof fn lemma_handed_thread_acquires(s: MutexView, thread: ThreadId)
    requires
        s.wf(),
        s.handoff == Some(thread),
    ensures
        s.enables(Event::FinishLock(thread)),
        s.enables(Event::FinishLockUntil(thread)),
        s.finish_lock(thread).holder == thread,
        s.finish_lock_until(thread) == s.finish_lock(thread),
        s.finish_lock_until_outcome(thread) is Acquired,
{
}

/// The number of times that the mutex has to change hands before it is
/// `thread`'s, for a thread that waits for it: none if it was handed the
/// mutex, and one more than the number of threads queued before it if it is
/// blocked.
pub open spec fn turns_ahead(s: MutexView, thread: ThreadId) -> int {
    if s.handoff == Some(thread) {
        0
    } else {
        s.queue.index_of(thread) + 1
    }
}

/// Nothing that another thread does takes a waiting thread's claim away or
/// moves it back, and every release brings it one turn nearer.
pub proof fn lemma_waiter_advances(s: MutexView, event: Event, waiter: ThreadId)
    requires
        s.wf(),
        s.can_finish_lock_until(waiter),
        s.enables(event),
        event.thread() != waiter,
    ensures
        s.step(event).can_finish_lock_until(waiter),
        turns_ahead(s.step(event), waiter) <= turns_ahead(s, waiter),
        event is Unlock ==> turns_ahead(s.step(event), waiter) == turns_ahead(s, waiter) - 1,
        s.handoff == Some(waiter) ==> s.step(event).handoff == Some(waiter),
{
    let after = s.step(event);
    let thread = event.thread();
    if s.handoff == Some(waiter) {
    } else {
        s.queue.index_of_first_ensures(waiter);
        let i = s.queue.index_of(waiter);
        match event {
            Event::Lock(_) => {
                lemma_lock_moves_no_waiter(s, thread, waiter);
            },
            Event::LockUntil(_, deadline, now) => {
                lemma_lock_moves_no_waiter(s, thread, waiter);
            },
            Event::FinishLock(_) => {},
            Event::FinishLockUntil(_) => {
                if s.handoff != Some(thread) {
                    s.queue.index_of_first_ensures(thread);
                    let j = s.queue.index_of(thread);
                    lemma_remove_nodup(s.queue, j);
                    lemma_remove_value_at(s.queue, j);
                    let rest = s.queue.remove(j);
                    if i < j {
                        assert(rest[i] == waiter);
                        lemma_index_of_unique(rest, i);
                    } else {
                        assert(rest[i - 1] == waiter);
                        lemma_index_of_unique(rest, i - 1);
                    }
                }
            },
            Event::Unlock(_) => {
                lemma_remove_nodup(s.queue, 0);
                assert(s.queue.remove(0) =~= s.queue.drop_first());
                if i > 0 {
                    assert(s.queue.drop_first()[i - 1] == waiter);
                    lemma_index_of_unique(s.queue.drop_first(), i - 1);
                }
            },
        }
    }
}

proof fn lemma_lock_moves_no_waiter(s: MutexView, thread: ThreadId, waiter: ThreadId)
    requires
        s.wf(),
        s.can_lock(thread),
        s.queue.contains(waiter),
    ensures
        s.lock(thread).queue.contains(waiter),
        s.lock(thread).queue.index_of(waiter) == s.queue.index_of(waiter),
{
    s.queue.index_of_first_ensures(waiter);
    let i = s.queue.index_of(waiter);
    lemma_push_fresh(s.queue, thread);
    assert(s.queue.push(thread)[i] == waiter);
    lemma_index_of_unique(s.queue.push(thread), i);
}

/// Whether no event of `trace` is run by `thread`.
pub open spec fn runs_without(trace: Seq<Event>, thread: ThreadId) -> bool {
    forall|i: int| 0 <= i < trace.len() ==> (#[trigger] trace[i]).thread() != thread
}

/// A hand-over is not lost: whatever other threads do before the thread that
/// was handed the mutex runs, the mutex stays handed to it.
pub proof fn lemma_handoff_is_kept(s: MutexView, thread: ThreadId, trace: Seq<Event>)
    requires
        s.wf(),
        s.handoff == Some(thread),
        runs_without(trace, thread),
        s.enables_all(trace),
    ensures
        s.run(trace).wf(),
        s.run(trace).handoff == Some(thread),
    decreases trace.len(),
{
    if trace.len() > 0 {
        lemma_step_keeps_invariant(s, trace.first());
        lemma_waiter_advances(s, trace.first(), thread);
        let rest = trace.drop_first();
        assert forall|i: int| 0 <= i < rest.len() implies (#[trigger] rest[i]).thread()
            != thread by {
            assert(rest[i] == trace[i + 1]);
        }
        lemma_handoff_is_kept(s.step(trace.first()), thread, rest);
    }
}

/// No lost wake-up. When the holder gives the mutex up while a thread is
/// blocked on it, the thread that has waited longest becomes the holder once
/// it runs, whatever the other threads do in between, and so also where the
/// release comes before that thread has been suspended.
pub proof fn lemma_no_lost_wakeup(s: MutexView, holder: ThreadId, trace: Seq<Event>)
    requires
        s.wf(),
        s.can_unlock(holder),
        s.queue.len() > 0,
        runs_without(trace, s.queue.first()),
        s.unlock(holder).enables_all(trace),
    ensures
        s.unlock(holder).run(trace).enables(Event::FinishLock(s.queue.first())),
        s.unlock(holder).run(trace).finish_lock(s.queue.first()).holder == s.queue.first(),
        s.unlock(holder).run(trace).enables(Event::FinishLockUntil(s.queue.first())),
        s.unlock(holder).run(trace).finish_lock_until(s.queue.first()).holder == s.queue.first(),
{
    lemma_step_keeps_invariant(s, Event::Unlock(holder));
    lemma_handoff_is_kept(s.unlock(holder), s.queue.first(), trace);
}

/// The number of times that the mutex is given up in the course of `trace`.
pub open spec fn releases(trace: Seq<Event>) -> nat
    decreases trace.len(),
{
    if trace.len() == 0 {
        0
    } else if trace.first() is Unlock {
        1 + releases(trace.drop_first())
    } else {
        releases(trace.drop_first())
    }
}

/// A blocked thread is served after a bounded number of releases. Whatever
/// the other threads do, each release uses up one of the turns that were
/// ahead of the thread, so there are never more releases than turns; and
/// once there have been as many, the mutex has been handed to the thread.
pub proof fn lemma_waiter_is_served(s: MutexView, trace: Seq<Event>, waiter: ThreadId)
    requires
        s.wf(),
        s.can_finish_lock_until(waiter),
        s.enables_all(trace),
        runs_without(trace, waiter),
    ensures
        0 <= turns_ahead(s.run(trace), waiter),
        turns_ahead(s.run(trace), waiter) + releases(trace) <= turns_ahead(s, waiter),
        releases(trace) == turns_ahead(s, waiter) ==> s.run(trace).handoff == Some(waiter),
    decreases trace.len(),
{
    if trace.len() == 0 {
        if s.handoff != Some(waiter) {
            s.queue.index_of_first_ensures(waiter);
        }
    } else {
        let first = trace.first();
        let rest = trace.drop_first();
        assert(first == trace[0]);
        lemma_step_keeps_invariant(s, first);
        lemma_waiter_advances(s, first, waiter);
        assert forall|i: int| 0 <= i < rest.len() implies (#[trigger] rest[i]).thread()
            != waiter by {
            assert(rest[i] == trace[i + 1]);
        }
        lemma_waiter_is_served(s.step(first), rest, waiter);
        if s.run(trace).handoff != Some(waiter) {
            lemma_waiter_keeps_waiting(s, trace, waiter);
            s.run(trace).queue.index_of_first_ensures(waiter);
        }
    }
}

/// The queue keeps the order of arrival. Of two blocked threads, the one that
/// came later is not served by any critical section while the earlier one is
/// still blocked before it: it stays blocked behind it, unless it is its own
/// wait that ends by its deadline.
pub proof fn lemma_queue_keeps_order(
    s: MutexView,
    event: Event,
    earlier: ThreadId,
    later: ThreadId,
)
    requires
        s.wf(),
        s.queue.contains(earlier),
        s.queue.contains(later),
        s.queue.index_of(earlier) < s.queue.index_of(later),
        s.enables(event),
    ensures
        s.step(event).holder != later,
        s.step(event).handoff != Some(later),
        s.step(event).queue.contains(later) || event == Event::FinishLockUntil(later),
        s.step(event).queue.contains(earlier) && s.step(event).queue.contains(later)
            ==> s.step(event).queue.index_of(earlier) < s.step(event).queue.index_of(later),
{
    let after = s.step(event);
    let thread = event.thread();
    s.queue.index_of_first_ensures(earlier);
    s.queue.index_of_first_ensures(later);
    let i = s.queue.index_of(earlier);
    let k = s.queue.index_of(later);
    lemma_free_iff_count_zero(s);
    match event {
        Event::Lock(_) => {
            lemma_lock_moves_no_waiter(s, thread, earlier);
            lemma_lock_moves_no_waiter(s, thread, later);
        },
        Event::LockUntil(_, deadline, now) => {
            lemma_lock_moves_no_waiter(s, thread, earlier);
            lemma_lock_moves_no_waiter(s, thread, later);
        },
        Event::FinishLock(_) => {},
        Event::FinishLockUntil(_) => {
            if s.handoff != Some(thread) {
                s.queue.index_of_first_ensures(thread);
                let j = s.queue.index_of(thread);
                lemma_remove_nodup(s.queue, j);
                lemma_remove_value_at(s.queue, j);
                let rest = s.queue.remove(j);
                if thread != earlier && thread != later {
                    let i2 = if i < j { i } else { i - 1 };
                    let k2 = if k < j { k } else { k - 1 };
                    assert(rest[i2] == earlier);
                    assert(rest[k2] == later);
                    lemma_index_of_unique(rest, i2);
                    lemma_index_of_unique(rest, k2);
                }
            }
        },
        Event::Unlock(_) => {
            lemma_remove_nodup(s.queue, 0);
            assert(s.queue.remove(0) =~= s.queue.drop_first());
            let rest = s.queue.drop_first();
            assert(rest[k - 1] == later);
            lemma_index_of_unique(rest, k - 1);
            if i > 0 {
                assert(rest[i - 1] == earlier);
                lemma_index_of_unique(rest, i - 1);
            }
        },
    }
}

/// The threads that wait for the mutex in state `s`, in the order in which
/// they will be served: the one that was handed the mutex, then the blocked
/// ones.
pub open spec fn waiting(s: MutexView) -> Seq<ThreadId> {
    match s.handoff {
        Some(thread) => seq![thread] + s.queue,
        None => s.queue,
    }
}

/// The thread of `event`, if the event is a call of `lock` or `lock_until`
/// in state `s` that makes a claim on the mutex.
pub open spec fn arrival(s: MutexView, event: Event) -> Seq<ThreadId> {
    match event {
        Event::Lock(thread) => seq![thread],
        Event::LockUntil(thread, deadline, now) => if s.outcome(event) is TimedOut {
            Seq::empty()
        } else {
            seq![thread]
        },
        _ => Seq::empty(),
    }
}

/// The thread of `event`, if the event makes it the holder in state `s`.
pub open spec fn acquisition(s: MutexView, event: Event) -> Seq<ThreadId> {
    if s.outcome(event) is Acquired {
        seq![event.thread()]
    } else {
        Seq::empty()
    }
}

/// The threads that claim the mutex in the course of `trace`, in the order
/// of their calls.
pub open spec fn arrivals(s: MutexView, trace: Seq<Event>) -> Seq<ThreadId>
    decreases trace.len(),
{
    if trace.len() == 0 {
        Seq::empty()
    } else {
        arrival(s, trace.first()) + arrivals(s.step(trace.first()), trace.drop_first())
    }
}

/// The threads that become the holder in the course of `trace`, in the order
/// in which they do.
pub open spec fn acquisitions(s: MutexView, trace: Seq<Event>) -> Seq<ThreadId>
    decreases trace.len(),
{
    if trace.len() == 0 {
        Seq::empty()
    } else {
        acquisition(s, trace.first()) + acquisitions(s.step(trace.first()), trace.drop_first())
    }
}

/// Whether no wait ends by its deadline in the course of `trace`.
pub open spec fn no_wait_times_out(s: MutexView, trace: Seq<Event>) -> bool
    decreases trace.len(),
{
    trace.len() == 0 || (!(trace.first() is FinishLockUntil && s.outcome(trace.first())
        is TimedOut) && no_wait_times_out(s.step(trace.first()), trace.drop_first()))
}

/// One critical section serves the threads in the order of their arrival.
pub proof fn lemma_step_serves_in_order(s: MutexView, event: Event)
    requires
        s.wf(),
        s.enables(event),
        !(event is FinishLockUntil && s.outcome(event) is TimedOut),
    ensures
        waiting(s) + arrival(s, event) == acquisition(s, event) + waiting(s.step(event)),
{
    lemma_free_iff_count_zero(s);
    let after = s.step(event);
    assert(waiting(s) + arrival(s, event) =~= acquisition(s, event) + waiting(after));
}

/// Fairness: first come, first served. As long as no wait ends by its
/// deadline, the threads that waited at the start, followed by those that
/// asked for the mutex since, are the threads that have held it since,
/// followed by those that still wait: the mutex is granted in the order in
/// which it was asked for.
pub proof fn lemma_served_in_order_of_arrival(s: MutexView, trace: Seq<Event>)
    requires
        s.wf(),
        s.enables_all(trace),
        no_wait_times_out(s, trace),
    ensures
        waiting(s) + arrivals(s, trace) == acquisitions(s, trace) + waiting(s.run(trace)),
    decreases trace.len(),
{
    if trace.len() == 0 {
        assert(waiting(s) + arrivals(s, trace) =~= acquisitions(s, trace) + waiting(
            s.run(trace),
        ));
    } else {
        let first = trace.first();
        let next = s.step(first);
        let rest = trace.drop_first();
        lemma_step_keeps_invariant(s, first);
        lemma_step_serves_in_order(s, first);
        lemma_served_in_order_of_arrival(next, rest);
        assert(waiting(s) + arrivals(s, trace) =~= (waiting(s) + arrival(s, first)) + arrivals(
            next,
            rest,
        ));
        assert(acquisitions(s, trace) + waiting(s.run(trace)) =~= acquisition(s, first) + (
        acquisitions(next, rest) + waiting(next.run(rest))));
        assert((acquisition(s, first) + waiting(next)) + arrivals(next, rest) =~= acquisition(
            s,
            first,
        ) + (waiting(next) + arrivals(next, rest)));
    }
}

/// From the creation of a mutex on, and as long as no wait ends by its
/// deadline, the threads have acquired it in the order in which they asked
/// for it.
pub proof fn lemma_first_come_first_served(trace: Seq<Event>)
    requires
        MutexView::unlocked().enables_all(trace),
        no_wait_times_out(MutexView::unlocked(), trace),
    ensures
        acquisitions(MutexView::unlocked(), trace).is_prefix_of(
            arrivals(MutexView::unlocked(), trace),
        ),
        arrivals(MutexView::unlocked(), trace) == acquisitions(MutexView::unlocked(), trace)
            + waiting(MutexView::unlocked().run(trace)),
{
    let s = MutexView::unlocked();
    lemma_served_in_order_of_arrival(s, trace);
    assert(waiting(s) + arrivals(s, trace) =~= arrivals(s, trace));
    let served = acquisitions(s, trace);
    let all = arrivals(s, trace);
    assert(all.subrange(0, served.len() as int) =~= served);
}

/// The state `s` without the claim of `thread`, which is blocked in it: the
/// state that a wait of `thread` that ends by its deadline leaves.
pub open spec fn without_claim(s: MutexView, thread: ThreadId) -> MutexView {
    MutexView { count: (s.count - 1) as nat, queue: s.queue.remove_value(thread), ..s }
}

/// No thread is queued by what another thread does.
pub proof fn lemma_queued_only_by_itself(s: MutexView, trace: Seq<Event>, thread: ThreadId)
    requires
        s.wf(),
        s.enables_all(trace),
        runs_without(trace, thread),
        !s.queue.contains(thread),
    ensures
        !s.run(trace).queue.contains(thread),
    decreases trace.len(),
{
    if trace.len() > 0 {
        let first = trace.first();
        let rest = trace.drop_first();
        assert(first == trace[0]);
        lemma_step_keeps_invariant(s, first);
        let next = s.step(first);
        assert(!next.queue.contains(thread)) by {
            match first {
                Event::Lock(other) => {
                    if s.count > 0 {
                        lemma_push_fresh(s.queue, other);
                    }
                },
                Event::LockUntil(other, _, _) => {
                    if s.count > 0 {
                        lemma_push_fresh(s.queue, other);
                    }
                },
                Event::FinishLock(_) => {},
                Event::FinishLockUntil(other) => {
                    if s.handoff != Some(other) {
                        s.queue.index_of_first_ensures(other);
                        lemma_remove_nodup(s.queue, s.queue.index_of(other));
                        lemma_remove_value_at(s.queue, s.queue.index_of(other));
                    }
                },
                Event::Unlock(_) => {
                    if s.queue.len() > 0 {
                        lemma_remove_nodup(s.queue, 0);
                        assert(s.queue.remove(0) =~= s.queue.drop_first());
                    }
                },
            }
        }
        assert forall|i: int| 0 <= i < rest.len() implies (#[trigger] rest[i]).thread()
            != thread by {
            assert(rest[i] == trace[i + 1]);
        }
        lemma_queued_only_by_itself(next, rest, thread);
    }
}

/// What another thread does in a critical section does not depend on the
/// claim of a thread that stays blocked: without that claim the same event
/// can happen, tells its thread the same, and leads to the same state
/// without the claim.
pub proof fn lemma_step_ignores_blocked_thread(s: MutexView, event: Event, blocked: ThreadId)
    requires
        s.wf(),
        s.queue.contains(blocked),
        s.enables(event),
        event.thread() != blocked,
        s.step(event).queue.contains(blocked),
    ensures
        without_claim(s, blocked).wf(),
        without_claim(s, blocked).enables(event),
        without_claim(s, blocked).outcome(event) == s.outcome(event),
        without_claim(s, blocked).step(event) == without_claim(s.step(event), blocked),
{
    let thread = event.thread();
    lemma_claim_withdrawn(s, blocked);
    match event {
        Event::Lock(_) => {
            lemma_lock_ignores_blocked_thread(s, thread, blocked);
        },
        Event::LockUntil(_, deadline, now) => {
            lemma_lock_ignores_blocked_thread(s, thread, blocked);
        },
        Event::FinishLock(_) => {},
        Event::FinishLockUntil(_) => {
            if s.handoff != Some(thread) {
                lemma_timeout_ignores_blocked_thread(s, thread, blocked);
            }
        },
        Event::Unlock(_) => {
            lemma_unlock_ignores_blocked_thread(s, thread, blocked);
        },
    }
}

/// Without the claim of a blocked thread the bookkeeping is in order still,
/// and the mutex is as taken as before.
proof fn lemma_claim_withdrawn(s: MutexView, blocked: ThreadId)
    requires
        s.wf(),
        s.queue.contains(blocked),
    ensures
        without_claim(s, blocked).wf(),
        without_claim(s, blocked).count == s.count - 1,
        without_claim(s, blocked).count > 0,
        forall|other: ThreadId|
            other != blocked ==> (without_claim(s, blocked).queue.contains(other)
                <==> s.queue.contains(other)),
        !without_claim(s, blocked).queue.contains(blocked),
{
    let q = s.queue;
    q.index_of_first_ensures(blocked);
    let i = q.index_of(blocked);
    lemma_remove_nodup(q, i);
    lemma_remove_value_at(q, i);
}

proof fn lemma_timeout_ignores_blocked_thread(s: MutexView, thread: ThreadId, blocked: ThreadId)
    requires
        s.wf(),
        s.queue.contains(blocked),
        s.queue.contains(thread),
        thread != blocked,
    ensures
        s.queue.remove_value(blocked).remove_value(thread) == s.queue.remove_value(
            thread,
        ).remove_value(blocked),
{
    let q = s.queue;
    q.index_of_first_ensures(blocked);
    q.index_of_first_ensures(thread);
    let i = q.index_of(blocked);
    let j = q.index_of(thread);
    lemma_remove_nodup(q, i);
    lemma_remove_value_at(q, i);
    lemma_remove_nodup(q, j);
    lemma_remove_value_at(q, j);
    let i2 = if i < j { i } else { i - 1 };
    let j2 = if j < i { j } else { j - 1 };
    assert(q.remove(j)[i2] == blocked);
    assert(q.remove(i)[j2] == thread);
    lemma_remove_value_at(q.remove(j), i2);
    lemma_remove_value_at(q.remove(i), j2);
    assert(q.remove(j).remove(i2) =~= q.remove(i).remove(j2));
}

proof fn lemma_unlock_ignores_blocked_thread(s: MutexView, holder: ThreadId, blocked: ThreadId)
    requires
        s.wf(),
        s.queue.contains(blocked),
        s.can_unlock(holder),
        s.unlock(holder).queue.contains(blocked),
    ensures
        s.count > 2,
        s.queue.len() > 1,
        s.queue.remove_value(blocked).len() > 0,
        s.queue.remove_value(blocked).first() == s.queue.first(),
        s.queue.remove_value(blocked).drop_first() == s.queue.drop_first().remove_value(blocked),
{
    let q = s.queue;
    q.index_of_first_ensures(blocked);
    let i = q.index_of(blocked);
    lemma_remove_nodup(q, i);
    lemma_remove_value_at(q, i);
    lemma_remove_nodup(q, 0);
    assert(q.remove(0) =~= q.drop_first());
    assert(i > 0);
    assert(q.drop_first()[i - 1] == blocked);
    lemma_remove_value_at(q.drop_first(), i - 1);
    assert(q.drop_first().remove(i - 1) =~= q.remove(i).drop_first());
    assert(q.remove(i).first() == q.first());
}

proof fn lemma_lock_ignores_blocked_thread(s: MutexView, thread: ThreadId, blocked: ThreadId)
    requires
        s.wf(),
        s.queue.contains(blocked),
        s.can_lock(thread),
        thread != blocked,
    ensures
        without_claim(s, blocked).can_lock(thread),
        without_claim(s, blocked).count > 0,
        s.count > 0,
        without_claim(s, blocked).lock(thread) == without_claim(s.lock(thread), blocked),
{
    let q = s.queue;
    q.index_of_first_ensures(blocked);
    let i = q.index_of(blocked);
    lemma_remove_nodup(q, i);
    lemma_remove_value_at(q, i);
    lemma_push_fresh(q, thread);
    assert(q.push(thread)[i] == blocked);
    lemma_remove_value_at(q.push(thread), i);
    assert(q.push(thread).remove(i) =~= q.remove(i).push(thread));
}

/// What the other threads do does not depend on the claim of a thread that
/// stays blocked throughout.
pub proof fn lemma_run_ignores_blocked_thread(s: MutexView, trace: Seq<Event>, blocked: ThreadId)
    requires
        s.wf(),
        s.queue.contains(blocked),
        s.enables_all(trace),
        runs_without(trace, blocked),
        s.run(trace).queue.contains(blocked),
    ensures
        without_claim(s, blocked).enables_all(trace),
        without_claim(s, blocked).run(trace) == without_claim(s.run(trace), blocked),
    decreases trace.len(),
{
    if trace.len() > 0 {
        let first = trace.first();
        let rest = trace.drop_first();
        let next = s.step(first);
        assert(first == trace[0]);
        lemma_step_keeps_invariant(s, first);
        assert forall|i: int| 0 <= i < rest.len() implies (#[trigger] rest[i]).thread()
            != blocked by {
            assert(rest[i] == trace[i + 1]);
        }
        if !next.queue.contains(blocked) {
            lemma_queued_only_by_itself(next, rest, blocked);
        }
        lemma_step_ignores_blocked_thread(s, first, blocked);
        lemma_run_ignores_blocked_thread(next, rest, blocked);
    }
}

/// A thread that waits keeps waiting whatever the other threads do.
pub proof fn lemma_waiter_keeps_waiting(s: MutexView, trace: Seq<Event>, waiter: ThreadId)
    requires
        s.wf(),
        s.can_finish_lock_until(waiter),
        s.enables_all(trace),
        runs_without(trace, waiter),
    ensures
        s.run(trace).wf(),
        s.run(trace).can_finish_lock_until(waiter),
    decreases trace.len(),
{
    if trace.len() > 0 {
        let first = trace.first();
        let rest = trace.drop_first();
        assert(first == trace[0]);
        lemma_step_keeps_invariant(s, first);
        lemma_waiter_advances(s, first, waiter);
        assert forall|i: int| 0 <= i < rest.len() implies (#[trigger] rest[i]).thread()
            != waiter by {
            assert(rest[i] == trace[i + 1]);
        }
        lemma_waiter_keeps_waiting(s.step(first), rest, waiter);
    }
}

/// A `lock_until` that times out leaves everything as if it had never been
/// called. Let a thread be queued by `lock_until`, let the other threads do
/// what they will, and let the thread then run again without having been
/// handed the mutex. Its call fails, the other threads could have done the
/// same without it, and the bookkeeping is what it would be then.
pub proof fn lemma_timed_out_call_never_happened(
    s: MutexView,
    thread: ThreadId,
    deadline: Instant,
    now: Instant,
    trace: Seq<Event>,
)
    requires
        s.wf(),
        s.can_lock(thread),
        s.lock_until_outcome(thread, deadline, now) is Blocked,
        runs_without(trace, thread),
        s.lock_until(thread, deadline, now).enables_all(trace),
        s.lock_until(thread, deadline, now).run(trace).handoff != Some(thread),
    ensures
        s.lock_until(thread, deadline, now).run(trace).enables(Event::FinishLockUntil(thread)),
        s.lock_until(thread, deadline, now).run(trace).finish_lock_until_outcome(thread)
            is TimedOut,
        s.enables_all(trace),
        s.lock_until(thread, deadline, now).run(trace).finish_lock_until(thread) == s.run(trace),
{
    let queued = s.lock_until(thread, deadline, now);
    lemma_timeout_restores(s, thread, deadline, now);
    lemma_step_keeps_invariant(s, Event::LockUntil(thread, deadline, now));
    lemma_push_fresh(s.queue, thread);
    assert(queued.queue.contains(thread));
    assert(without_claim(queued, thread) == s);
    lemma_waiter_keeps_waiting(queued, trace, thread);
    lemma_run_ignores_blocked_thread(queued, trace, thread);
}

} // verus!
