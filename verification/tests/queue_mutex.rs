use sync_primitives::lock_memory::{Access, Reply};
use sync_primitives::queue_mutex::{AcquireOp, QueueMutex, ReleaseOp, TryLockOp, SPIN_TURNS};

#[test]
fn test_basic_lock() {
    let mut mutex = QueueMutex::new();

    mutex.lock();
    mutex.unlock();

    assert!(mutex.try_lock());
    mutex.unlock();
}

#[test]
fn test_try_lock_fails_when_locked() {
    let mut mutex = QueueMutex::new();

    mutex.lock();
    assert!(!mutex.try_lock());
    mutex.unlock();
}

/// Runs a thread until it has the mutex or sleeps.
fn run_until_blocked(mutex: &mut QueueMutex, thread: u64, mut op: AcquireOp) -> AcquireOp {
    while !matches!(op, AcquireOp::Held | AcquireOp::Park { .. }) {
        op = mutex.lock_step(thread, op);
    }
    op
}

/// Lets a thread that sleeps wake up, and runs it until it has the mutex or sleeps again.
fn wake_up(mutex: &mut QueueMutex, thread: u64, op: AcquireOp) -> AcquireOp {
    assert!(matches!(op, AcquireOp::Park { .. }));
    let op = mutex.lock_step(thread, op);
    run_until_blocked(mutex, thread, op)
}

/// A number out of a fixed sequence in which there is no order to be seen.
fn scatter(seed: &mut u64) -> usize {
    *seed = seed.wrapping_mul(6364136223846793005).wrapping_add(1442695040888963407);
    (*seed >> 33) as usize
}

/// What a thread does that adds one to a counter under the mutex.
#[derive(Clone, Copy)]
enum Adding {
    Acquiring(AcquireOp),
    Writing(u32),
    Releasing(ReleaseOp),
}

/// Lets threads add one to a counter, each as often as `rounds` says, one step of one thread at
/// a time. Threads that sleep wake up for no reason now and then.
fn add_in_turns(seed: u64, threads: usize, rounds: u32) -> u32 {
    let mut seed = seed;
    let mut mutex = QueueMutex::new();
    let mut counter = 0u32;
    let mut doing = vec![Adding::Acquiring(AcquireOp::Load); threads];
    let mut left = vec![rounds; threads];
    let mut tokens = vec![false; threads];

    while left.iter().any(|&n| n > 0) {
        let t = scatter(&mut seed) % threads;
        if left[t] == 0 {
            continue;
        }
        doing[t] = match doing[t] {
            Adding::Acquiring(AcquireOp::Held) => Adding::Writing(counter),
            Adding::Acquiring(op) => {
                if matches!(op, AcquireOp::Park { .. }) {
                    if !tokens[t] && scatter(&mut seed) % 8 != 0 {
                        continue;
                    }
                    tokens[t] = false;
                }
                Adding::Acquiring(mutex.lock_step(t as u64, op))
            }
            Adding::Writing(seen) => {
                counter = seen + 1;
                Adding::Releasing(ReleaseOp::Load)
            }
            Adding::Releasing(ReleaseOp::Done) => {
                left[t] -= 1;
                Adding::Acquiring(AcquireOp::Load)
            }
            Adding::Releasing(op) => {
                if let ReleaseOp::Wake { thread } = op {
                    tokens[thread as usize] = true;
                }
                Adding::Releasing(mutex.unlock_step(op))
            }
        };
    }

    assert!(mutex.try_lock());
    assert_eq!(mutex.unlock(), None);
    counter
}

#[test]
fn test_concurrent_access() {
    assert_eq!(add_in_turns(1, 10, 1000), 10000);
}

#[test]
fn no_order_of_steps_loses_a_sleeper() {
    for seed in 0..200 {
        assert_eq!(add_in_turns(seed, 4, 10), 40);
    }
}

#[test]
fn the_first_to_wait_is_woken_first() {
    let mut mutex = QueueMutex::default();
    mutex.lock();
    let first = run_until_blocked(&mut mutex, 1, AcquireOp::Load);
    let second = run_until_blocked(&mut mutex, 2, AcquireOp::Load);
    let third = run_until_blocked(&mut mutex, 3, AcquireOp::Load);
    assert!(matches!(first, AcquireOp::Park { .. }));
    assert!(matches!(second, AcquireOp::Park { .. }));
    assert!(matches!(third, AcquireOp::Park { .. }));
    assert!(!mutex.try_lock());
    assert_eq!(mutex.unlock(), Some(1));
    assert!(mutex.try_lock());
    assert_eq!(mutex.unlock(), Some(2));
    assert!(mutex.try_lock());
    assert_eq!(mutex.unlock(), Some(3));
    assert!(mutex.try_lock());
    assert_eq!(mutex.unlock(), None);
}

#[test]
fn entering_the_queue_does_not_free_the_mutex() {
    let mut mutex = QueueMutex::new();
    mutex.lock();
    let mut op = AcquireOp::Load;
    while !matches!(op, AcquireOp::Park { .. }) {
        op = mutex.lock_step(7, op);
        assert!(!mutex.try_lock());
    }
    assert_eq!(mutex.unlock(), Some(7));
    assert_eq!(wake_up(&mut mutex, 7, op), AcquireOp::Held);
    assert!(!mutex.try_lock());
}

#[test]
fn waking_up_for_no_reason_leaves_a_thread_in_the_queue() {
    let mut mutex = QueueMutex::new();
    mutex.lock();
    let mut op = run_until_blocked(&mut mutex, 1, AcquireOp::Load);
    let other = run_until_blocked(&mut mutex, 2, AcquireOp::Load);
    for _ in 0..3 {
        op = wake_up(&mut mutex, 1, op);
        assert!(matches!(op, AcquireOp::Park { .. }));
    }
    assert_eq!(mutex.unlock(), Some(1));
    assert_eq!(wake_up(&mut mutex, 1, op), AcquireOp::Held);
    assert_eq!(mutex.unlock(), Some(2));
    assert_eq!(wake_up(&mut mutex, 2, other), AcquireOp::Held);
    assert_eq!(mutex.unlock(), None);
}

#[test]
fn no_thread_goes_to_sleep_on_a_free_mutex() {
    // The waiting thread has the empty queue for itself while the mutex is freed: it gives the
    // queue and its node back and takes the mutex.
    let mut mutex = QueueMutex::new();
    mutex.lock();
    let mut op = AcquireOp::Load;
    while !matches!(op, AcquireOp::Enter { .. }) {
        op = mutex.lock_step(3, op);
    }
    assert_eq!(mutex.unlock(), None);
    op = mutex.lock_step(3, op);
    assert!(matches!(op, AcquireOp::Retreat { .. }));
    op = mutex.lock_step(3, op);
    assert!(matches!(op.access(3), Access::FreeNode { .. }));
    assert_eq!(run_until_blocked(&mut mutex, 3, op), AcquireOp::Held);
    assert_eq!(mutex.unlock(), None);
    assert!(mutex.try_lock());
}

#[test]
fn a_mutex_that_is_taken_again_is_waited_for() {
    // The mutex is freed and taken by another thread while the waiting thread has the queue.
    let mut mutex = QueueMutex::new();
    mutex.lock();
    let mut op = AcquireOp::Load;
    while !matches!(op, AcquireOp::Enter { .. }) {
        op = mutex.lock_step(3, op);
    }
    assert_eq!(mutex.unlock(), None);
    op = mutex.lock_step(3, op);
    assert!(matches!(op, AcquireOp::Retreat { .. }));
    assert!(mutex.try_lock());
    op = mutex.lock_step(3, op);
    assert!(matches!(op, AcquireOp::Enter { .. }));
    op = mutex.lock_step(3, op);
    assert!(matches!(op, AcquireOp::Park { .. }));
    assert_eq!(mutex.unlock(), Some(3));
    assert_eq!(wake_up(&mut mutex, 3, op), AcquireOp::Held);
}

#[test]
fn a_release_waits_for_a_thread_that_joins_the_queue() {
    let mut mutex = QueueMutex::new();
    mutex.lock();
    let first = run_until_blocked(&mut mutex, 1, AcquireOp::Load);
    let mut second = AcquireOp::Load;
    while !matches!(second, AcquireOp::Append { .. }) {
        second = mutex.lock_step(2, second);
    }
    let mut leaving = ReleaseOp::Load;
    for _ in 0..30 {
        leaving = mutex.unlock_step(leaving);
    }
    assert!(matches!(leaving, ReleaseOp::LoadQueue | ReleaseOp::Spin { .. }));
    second = run_until_blocked(&mut mutex, 2, second);
    assert!(matches!(second, AcquireOp::Park { .. }));
    while !matches!(leaving, ReleaseOp::Wake { .. }) {
        leaving = mutex.unlock_step(leaving);
    }
    assert_eq!(leaving, ReleaseOp::Wake { thread: 1 });
    assert_eq!(wake_up(&mut mutex, 1, first), AcquireOp::Held);
    assert_eq!(mutex.unlock(), Some(2));
}

#[test]
fn a_failed_exchange_goes_by_the_word_seen() {
    let op = TryLockOp::Exchange { state: 0 };
    assert_eq!(op.access(), Access::CompareExchange { expected: 0, new: 1 });
    assert_eq!(op.resume(Reply::Observed { word: 0 }), TryLockOp::Exchange { state: 0 });
    assert_eq!(op.resume(Reply::Observed { word: 9 }), TryLockOp::Done { locked: false });
    assert_eq!(op.resume(Reply::Swapped), TryLockOp::Done { locked: true });
    let op = AcquireOp::Exchange { state: 8 };
    assert_eq!(op.access(1), Access::CompareExchange { expected: 8, new: 9 });
    assert_eq!(op.resume(Reply::Observed { word: 9 }), AcquireOp::Allocate);
}

#[test]
fn a_locked_list_is_waited_for() {
    let mut op = AcquireOp::LoadQueue { node: 4 }.resume(Reply::Value { word: 3 });
    for turn in 0..SPIN_TURNS {
        assert_eq!(op, AcquireOp::Spin { node: 4, turns: 10 - turn });
        assert_eq!(op.access(1), Access::SpinLoop);
        op = op.resume(Reply::Ack);
    }
    assert_eq!(op, AcquireOp::LoadQueue { node: 4 });
    let mut op = ReleaseOp::LoadQueue.resume(Reply::Value { word: 10 });
    for _ in 0..SPIN_TURNS {
        assert_eq!(op.access(), Access::SpinLoop);
        op = op.resume(Reply::Ack);
    }
    assert_eq!(op, ReleaseOp::LoadQueue);
}

#[test]
fn state_words_of_a_thread_that_joins() {
    let op = AcquireOp::LoadQueue { node: 16 }.resume(Reply::Value { word: 9 });
    assert_eq!(op.access(1), Access::CompareExchange { expected: 9, new: 11 });
    let op = op.resume(Reply::Swapped);
    assert_eq!(op.access(1), Access::LoadNext { node: 8 });
    let op = op.resume(Reply::Next { next: 12 });
    assert_eq!(op.access(1), Access::LoadNext { node: 12 });
    let op = op.resume(Reply::Next { next: 0 });
    assert_eq!(op.access(1), Access::StoreNext { node: 12, next: 16 });
    let op = op.resume(Reply::Ack);
    assert_eq!(op.access(1), Access::CompareExchange { expected: 11, new: 9 });
    // Meanwhile the mutex was freed: it stays free.
    let op = op.resume(Reply::Observed { word: 10 });
    assert_eq!(op.access(1), Access::CompareExchange { expected: 10, new: 8 });
    let op = op.resume(Reply::Swapped);
    assert_eq!(op.access(1), Access::Park);
    let op = op.resume(Reply::Ack);
    assert_eq!(op.access(1), Access::ReadMark { node: 16 });
    assert_eq!(op.resume(Reply::Marked { marked: false }), AcquireOp::Park { node: 16 });
    let op = op.resume(Reply::Marked { marked: true });
    assert_eq!(op.access(1), Access::FreeNode { node: 16 });
    assert_eq!(op.resume(Reply::Ack), AcquireOp::Load);
    let op = AcquireOp::Enter { node: 16, state: 3 };
    assert_eq!(op.access(1), Access::CompareExchange { expected: 3, new: 17 });
    let op = AcquireOp::Retreat { node: 16, state: 2 };
    assert_eq!(op.access(1), Access::CompareExchange { expected: 2, new: 0 });
}

#[test]
fn state_words_of_a_release() {
    let op = ReleaseOp::Load.resume(Reply::Value { word: 13 });
    assert_eq!(op.access(), Access::CompareExchange { expected: 13, new: 12 });
    let op = op.resume(Reply::Swapped);
    assert_eq!(op, ReleaseOp::LoadQueue);
    let op = op.resume(Reply::Value { word: 12 });
    assert_eq!(op.access(), Access::CompareExchange { expected: 12, new: 14 });
    let op = op.resume(Reply::Swapped);
    assert_eq!(op.access(), Access::LoadNext { node: 12 });
    let op = op.resume(Reply::Next { next: 8 });
    assert_eq!(op.access(), Access::CompareExchange { expected: 14, new: 8 });
    // Meanwhile another thread took the mutex: its bit stays.
    let op = op.resume(Reply::Observed { word: 15 });
    assert_eq!(op.access(), Access::CompareExchange { expected: 15, new: 9 });
    let op = op.resume(Reply::Swapped);
    assert_eq!(op.access(), Access::ReadThread { node: 12 });
    let op = op.resume(Reply::Thread { thread: 5 });
    assert_eq!(op.access(), Access::Mark { node: 12 });
    let op = op.resume(Reply::Ack);
    assert_eq!(op.access(), Access::Unpark { thread: 5 });
    assert_eq!(op.resume(Reply::Ack), ReleaseOp::Done);
}

#[test]
fn threads_that_wait_stand_in_a_queue() {
    let mut mutex = QueueMutex::new();
    assert_eq!(mutex.enqueue_and_wait(20), None);
    mutex.lock();
    let first = mutex.enqueue_and_wait(21);
    let second = mutex.enqueue_and_wait(22);
    assert!(first.is_some() && second.is_some() && first != second);
    assert!(!mutex.try_lock());
    assert_eq!(mutex.wake_next(), Some(21));
    assert!(!mutex.try_lock());
    assert_eq!(mutex.unlock(), Some(22));
    assert_eq!(mutex.wake_next(), None);
    assert!(mutex.try_lock());
    assert_eq!(mutex.unlock(), None);
}

#[test]
fn an_address_that_was_given_back_is_used_again() {
    let mut mutex = QueueMutex::new();
    mutex.lock();
    let mut nodes = Vec::new();
    for thread in 1..1000 {
        let op = run_until_blocked(&mut mutex, thread, AcquireOp::Load);
        if let AcquireOp::Park { node } = op {
            nodes.push(node);
        }
        assert_eq!(mutex.unlock(), Some(thread));
        assert_eq!(wake_up(&mut mutex, thread, op), AcquireOp::Held);
    }
    assert_eq!(nodes.len(), 999);
    assert!(nodes.iter().all(|&node| node == nodes[0]));
    assert!(mutex.can_allocate());
}
