use pigweed::scheduler::thread::ThreadId;
use pigweed::status::Error;
use pigweed::sync::mutex::{LockStep, Mutex, MutexGuard};
use pigweed::timer::Instant;

fn thread(raw: usize) -> ThreadId {
    ThreadId::new(raw)
}

fn acquired(step: LockStep) -> MutexGuard {
    match step {
        LockStep::Acquired(guard) => guard,
        LockStep::MustWait => panic!("the mutex was expected to be free"),
    }
}

fn must_wait(step: LockStep) {
    assert!(matches!(step, LockStep::MustWait));
}

#[test]
fn new_mutex_is_unlocked() {
    let mutex = Mutex::new(17u32);
    assert_eq!(mutex.count(), 0);
    assert_eq!(mutex.holder(), ThreadId::null_id());
    assert!(mutex.holder().is_null_id());
    assert!(!mutex.is_blocked(thread(1)));
    assert!(!mutex.is_handed_to(thread(1)));
}

#[test]
fn uncontended_lock_is_granted_at_once() {
    let mut mutex = Mutex::new(0u32);
    let guard = acquired(mutex.lock(thread(1)));
    assert_eq!(guard.owner_id(), thread(1));
    assert_eq!(mutex.count(), 1);
    assert_eq!(mutex.holder(), thread(1));
    assert_eq!(mutex.unlock(guard), None);
    assert_eq!(mutex.count(), 0);
    assert!(mutex.holder().is_null_id());
}

#[test]
fn three_threads_hand_the_mutex_on() {
    let (t1, t2, t3) = (thread(1), thread(2), thread(3));
    let mut mutex = Mutex::new(0u32);

    let guard1 = acquired(mutex.lock(t1));
    assert_eq!((mutex.count(), mutex.holder()), (1, t1));

    must_wait(mutex.lock(t2));
    assert_eq!((mutex.count(), mutex.holder()), (2, t1));
    assert!(mutex.is_blocked(t2));

    assert_eq!(mutex.unlock(guard1), Some(t2));
    assert_eq!(mutex.count(), 1);
    assert!(mutex.holder().is_null_id());
    assert!(mutex.is_handed_to(t2));
    assert!(!mutex.is_blocked(t2));

    let guard2 = mutex.finish_lock(t2);
    assert_eq!(guard2.owner_id(), t2);
    assert_eq!((mutex.count(), mutex.holder()), (1, t2));

    let now = Instant::from_ticks(1000);
    let deadline = Instant::from_ticks(1000 + 5);
    must_wait(mutex.lock_until(t3, deadline, now).unwrap());
    assert_eq!((mutex.count(), mutex.holder()), (2, t2));
    // T2 keeps the mutex past the deadline, and T3 runs again.
    assert_eq!(mutex.finish_lock_until(t3).unwrap_err(), Error::DeadlineExceeded);
    assert_eq!((mutex.count(), mutex.holder()), (1, t2));
    assert!(!mutex.is_blocked(t3));

    assert_eq!(mutex.unlock(guard2), None);
    assert_eq!(mutex.count(), 0);
}

#[test]
fn waiters_are_served_in_the_order_of_their_calls() {
    let mut mutex = Mutex::new(());
    let mut guard = acquired(mutex.lock(thread(10)));
    let waiters = [thread(3), thread(1), thread(5), thread(2), thread(4)];
    for waiter in waiters {
        must_wait(mutex.lock(waiter));
    }
    assert_eq!(mutex.count(), 6);
    let mut served = Vec::new();
    for expected_count in (1..=5).rev() {
        let next = mutex.unlock(guard).expect("a thread is blocked");
        assert_eq!(mutex.count(), expected_count);
        guard = mutex.finish_lock(next);
        assert_eq!(mutex.holder(), next);
        served.push(next);
    }
    assert_eq!(served, waiters);
    assert_eq!(mutex.unlock(guard), None);
    assert_eq!(mutex.count(), 0);
}

#[test]
fn no_thread_overtakes_while_the_mutex_is_on_its_way() {
    let (t0, t1, t2) = (thread(7), thread(8), thread(9));
    let mut mutex = Mutex::new(());
    let guard0 = acquired(mutex.lock(t0));
    must_wait(mutex.lock(t1));
    assert_eq!(mutex.unlock(guard0), Some(t1));
    // T1 has not run yet. The holder is the null id, but the mutex is not free.
    assert!(mutex.holder().is_null_id());
    assert!(!mutex.may_unlock(t0));
    must_wait(mutex.lock(t2));
    assert!(mutex.is_handed_to(t1));
    let guard1 = mutex.finish_lock(t1);
    assert_eq!((mutex.count(), mutex.holder()), (2, t1));
    assert_eq!(mutex.unlock(guard1), Some(t2));
    let guard2 = mutex.finish_lock(t2);
    assert_eq!(mutex.unlock(guard2), None);
}

#[test]
fn timeout_leaves_state_as_before_the_call() {
    let (t1, t2, t3, t4) = (thread(1), thread(2), thread(3), thread(4));
    let mut mutex = Mutex::new(());
    let guard1 = acquired(mutex.lock(t1));
    must_wait(mutex.lock(t2));
    let before = (mutex.count(), mutex.holder());

    let now = Instant::from_ticks(50);
    must_wait(mutex.lock_until(t3, Instant::from_ticks(60), now).unwrap());
    must_wait(mutex.lock(t4));
    assert_eq!(mutex.count(), 4);
    assert_eq!(mutex.finish_lock_until(t3).unwrap_err(), Error::DeadlineExceeded);
    assert_eq!(mutex.count(), 3);
    assert_eq!(mutex.holder(), before.1);
    assert!(!mutex.is_blocked(t3));
    assert!(mutex.may_lock(t3));

    // The others are served as if T3 had never called.
    assert_eq!(mutex.unlock(guard1), Some(t2));
    let guard2 = mutex.finish_lock(t2);
    assert_eq!(mutex.unlock(guard2), Some(t4));
    let guard4 = mutex.finish_lock(t4);
    assert_eq!(mutex.unlock(guard4), None);
    assert_eq!(mutex.count(), 0);
}

#[test]
fn expired_deadline_fails_without_queueing() {
    let (t1, t2) = (thread(1), thread(2));
    let mut mutex = Mutex::new(());
    let guard1 = acquired(mutex.lock(t1));
    let now = Instant::from_ticks(100);

    // A deadline in the past.
    let step = mutex.lock_until(t2, Instant::from_ticks(99), now);
    assert_eq!(step.unwrap_err(), Error::DeadlineExceeded);
    assert_eq!((mutex.count(), mutex.holder()), (1, t1));
    assert!(!mutex.is_blocked(t2));

    // A deadline at the present tick has been reached as well.
    let step = mutex.lock_until(t2, Instant::from_ticks(100), now);
    assert_eq!(step.unwrap_err(), Error::DeadlineExceeded);
    assert_eq!((mutex.count(), mutex.holder()), (1, t1));

    // One tick later it has not.
    must_wait(mutex.lock_until(t2, Instant::from_ticks(101), now).unwrap());
    assert_eq!((mutex.count(), mutex.holder()), (2, t1));
    assert!(mutex.is_blocked(t2));
    assert_eq!(mutex.unlock(guard1), Some(t2));
}

#[test]
fn free_mutex_is_granted_whatever_the_deadline() {
    let mut mutex = Mutex::new(());
    let now = Instant::from_ticks(100);
    let guard = acquired(mutex.lock_until(thread(1), Instant::from_ticks(0), now).unwrap());
    assert_eq!((mutex.count(), mutex.holder()), (1, thread(1)));
    assert_eq!(mutex.unlock(guard), None);
}

#[test]
fn hand_over_wins_over_deadline() {
    let (t1, t2) = (thread(1), thread(2));
    let mut mutex = Mutex::new(());
    let guard1 = acquired(mutex.lock(t1));
    must_wait(mutex.lock_until(t2, Instant::from_ticks(5), Instant::from_ticks(0)).unwrap());
    assert_eq!(mutex.unlock(guard1), Some(t2));
    // T2 runs again, whether woken or by its deadline: the mutex is its own.
    let guard2 = mutex.finish_lock_until(t2).unwrap();
    assert_eq!(guard2.owner_id(), t2);
    assert_eq!((mutex.count(), mutex.holder()), (1, t2));
    assert_eq!(mutex.unlock(guard2), None);
}

#[test]
fn second_lock_by_the_holder_is_refused() {
    let (t1, t2, t3) = (thread(1), thread(2), thread(3));
    let mut mutex = Mutex::new(());
    assert!(mutex.may_lock(t1));
    assert!(!mutex.may_lock(ThreadId::null_id()));
    let guard1 = acquired(mutex.lock(t1));
    assert!(!mutex.may_lock(t1));
    assert!(mutex.may_lock(t2));
    must_wait(mutex.lock(t2));
    // A thread that is blocked does not run, and cannot ask again.
    assert!(!mutex.may_lock(t2));
    assert_eq!(mutex.unlock(guard1), Some(t2));
    assert!(!mutex.may_lock(t2));
    assert!(mutex.may_lock(t1));
    assert!(mutex.may_lock(t3));
}

#[test]
fn unlock_is_for_the_holder_alone() {
    let (t1, t2) = (thread(1), thread(2));
    let mut mutex = Mutex::new(());
    assert!(!mutex.may_unlock(t1));
    assert!(!mutex.may_unlock(ThreadId::null_id()));
    let guard1 = acquired(mutex.lock(t1));
    assert!(mutex.may_unlock(t1));
    assert!(!mutex.may_unlock(t2));
    assert_eq!(mutex.unlock(guard1), None);
    // The guard is gone, and a second release would be refused.
    assert!(!mutex.may_unlock(t1));
}

#[test]
fn guard_gives_access_to_the_value() {
    let mut mutex = Mutex::new(vec![1u8, 2]);
    let guard = acquired(mutex.lock(thread(1)));
    assert_eq!(mutex.get(&guard), &vec![1u8, 2]);
    mutex.get_mut(&guard).push(3);
    *mutex.get_mut(&guard) = {
        let mut value = mutex.get(&guard).clone();
        value.push(4);
        value
    };
    assert_eq!(mutex.get(&guard), &vec![1u8, 2, 3, 4]);
    assert_eq!(mutex.unlock(guard), None);
    let guard = acquired(mutex.lock(thread(2)));
    assert_eq!(mutex.get(&guard).len(), 4);
    assert_eq!(mutex.unlock(guard), None);
}

#[test]
fn timeout_of_the_first_waiter_passes_the_turn_on() {
    let (t1, t2, t3) = (thread(1), thread(2), thread(3));
    let mut mutex = Mutex::new(());
    let guard1 = acquired(mutex.lock(t1));
    must_wait(mutex.lock_until(t2, Instant::from_ticks(9), Instant::from_ticks(1)).unwrap());
    must_wait(mutex.lock_until(t3, Instant::from_ticks(9), Instant::from_ticks(2)).unwrap());
    assert_eq!(mutex.finish_lock_until(t2).unwrap_err(), Error::DeadlineExceeded);
    assert_eq!(mutex.count(), 2);
    assert_eq!(mutex.unlock(guard1), Some(t3));
    let guard3 = mutex.finish_lock_until(t3).unwrap();
    assert_eq!(mutex.unlock(guard3), None);
}

#[test]
fn at_most_one_guard_is_alive() {
    // Five threads take ten turns each; a thread that finds the mutex taken
    // waits until it is handed to it. The guards alive are counted.
    let threads: Vec<ThreadId> = (1..=5).map(thread).collect();
    let mut mutex = Mutex::new(0u32);
    let mut guards: Vec<MutexGuard> = Vec::new();
    let mut turns_left = [10u32; 5];
    let mut round = 0usize;
    while turns_left.iter().any(|&left| left > 0) || mutex.count() > 0 {
        let index = round % threads.len();
        let current = threads[index];
        round += 1;
        if mutex.holder() == current {
            let guard = guards.pop().expect("the holder has the guard");
            assert_eq!(guard.owner_id(), current);
            *mutex.get_mut(&guard) += 1;
            if let Some(next) = mutex.unlock(guard) {
                assert!(mutex.is_handed_to(next));
            }
        } else if mutex.is_handed_to(current) {
            guards.push(mutex.finish_lock(current));
        } else if mutex.may_lock(current) && turns_left[index] > 0 {
            turns_left[index] -= 1;
            if let LockStep::Acquired(guard) = mutex.lock(current) {
                guards.push(guard);
            }
        }
        assert!(guards.len() <= 1);
        assert_eq!(guards.len() == 1, !mutex.holder().is_null_id());
        if let Some(guard) = guards.first() {
            assert_eq!(guard.owner_id(), mutex.holder());
        }
    }
    assert_eq!(mutex.count(), 0);
    let guard = acquired(mutex.lock(thread(9)));
    assert_eq!(*mutex.get(&guard), 50);
}

#[test]
fn release_before_the_waiter_is_suspended_is_not_lost() {
    let (holder, waiter, other) = (thread(1), thread(2), thread(3));
    let mut mutex = Mutex::new(());
    let guard = acquired(mutex.lock(holder));
    must_wait(mutex.lock(waiter));
    // The holder releases before the waiter has been suspended, and another
    // thread comes by before the waiter runs.
    assert_eq!(mutex.unlock(guard), Some(waiter));
    must_wait(mutex.lock(other));
    assert!(mutex.is_handed_to(waiter));
    let guard = mutex.finish_lock(waiter);
    assert_eq!(mutex.holder(), waiter);
    assert_eq!(mutex.unlock(guard), Some(other));
}
