use sync_primitives::lock_memory::{Access, QueueNode, Reply};
use sync_primitives::queue_lock::{LockOp, QueueBasedLock, UnlockOp};

#[test]
fn test_basic_lock_unlock() {
    let mut lock = QueueBasedLock::new(0);
    {
        let mut guard = lock.lock();
        *guard = 42;
        assert_eq!(*guard, 42);
        lock = guard.unlock().0;
    }
    {
        let guard = lock.lock();
        assert_eq!(*guard, 42);
    }
}

/// Runs a thread until it has the lock or sleeps.
fn run_until_blocked<T>(lock: &mut QueueBasedLock<T>, thread: u64, mut op: LockOp) -> LockOp {
    while !matches!(op, LockOp::Held | LockOp::Park { .. }) {
        op = lock.lock_step(thread, op);
    }
    op
}

/// Lets a thread that sleeps wake up, and runs it until it has the lock or sleeps again.
fn wake_up<T>(lock: &mut QueueBasedLock<T>, thread: u64, op: LockOp) -> LockOp {
    assert!(matches!(op, LockOp::Park { .. }));
    let op = lock.lock_step(thread, op);
    run_until_blocked(lock, thread, op)
}

/// A number out of a fixed sequence in which there is no order to be seen.
fn scatter(seed: &mut u64) -> usize {
    *seed = seed.wrapping_mul(6364136223846793005).wrapping_add(1442695040888963407);
    (*seed >> 33) as usize
}

/// What a thread does that adds one to the value behind the lock.
#[derive(Clone, Copy)]
enum Adding {
    Locking(LockOp),
    Writing(u32),
    Unlocking(UnlockOp),
}

/// Lets threads add one to a value, each as often as `rounds` says, one step of one thread at a
/// time. Threads that sleep wake up for no reason now and then.
fn add_in_turns(seed: u64, threads: usize, rounds: u32) -> u32 {
    let mut seed = seed;
    let mut lock = QueueBasedLock::new(0u32);
    let mut doing = vec![Adding::Locking(LockOp::Begin); threads];
    let mut left = vec![rounds; threads];
    let mut tokens = vec![false; threads];
    let mut arrived = Vec::new();
    let mut served = Vec::new();

    while left.iter().any(|&n| n > 0) {
        let t = scatter(&mut seed) % threads;
        if left[t] == 0 {
            continue;
        }
        doing[t] = match doing[t] {
            Adding::Locking(LockOp::Held) => {
                let guard = lock.into_guard(LockOp::Held);
                let seen = *guard;
                lock = guard.into_lock();
                Adding::Writing(seen)
            }
            Adding::Locking(op) => {
                if matches!(op, LockOp::Park { .. }) {
                    if !tokens[t] && scatter(&mut seed) % 8 != 0 {
                        continue;
                    }
                    tokens[t] = false;
                }
                let next = lock.lock_step(t as u64, op);
                if matches!(next, LockOp::Publish { .. }) {
                    arrived.push(t);
                }
                Adding::Locking(next)
            }
            Adding::Writing(seen) => {
                let mut guard = lock.into_guard(LockOp::Held);
                *guard = seen + 1;
                lock = guard.into_lock();
                Adding::Unlocking(UnlockOp::Load)
            }
            Adding::Unlocking(UnlockOp::Done) => {
                left[t] -= 1;
                Adding::Locking(LockOp::Begin)
            }
            Adding::Unlocking(op) => {
                if let UnlockOp::Publish { thread, .. } = op {
                    served.push(thread as usize);
                }
                if let UnlockOp::Wake { thread } = op {
                    tokens[thread as usize] = true;
                }
                Adding::Unlocking(lock.unlock_step(op))
            }
        };
    }

    assert_eq!(arrived, served);
    assert!(!served.is_empty());
    let guard = lock.lock();
    *guard
}

#[test]
fn test_multiple_threads_contending() {
    assert_eq!(add_in_turns(1, 10, 100), 1000);
}

#[test]
fn no_order_of_steps_loses_an_increment() {
    for seed in 0..200 {
        assert_eq!(add_in_turns(seed, 4, 10), 40);
    }
}

#[test]
fn test_fifo_fairness() {
    let mut lock = QueueBasedLock::new(Vec::new());
    let mut ops = Vec::new();

    for i in 0..5 {
        ops.push(run_until_blocked(&mut lock, i, LockOp::Begin));
    }
    assert_eq!(ops[0], LockOp::Held);
    let mut turn = Some(0);
    while let Some(thread) = turn {
        let mut op = ops[thread as usize];
        if op != LockOp::Held {
            op = wake_up(&mut lock, thread, op);
        }
        let mut guard = lock.into_guard(op);
        guard.push(thread);
        (lock, turn) = guard.unlock();
    }

    let order = lock.lock();
    assert_eq!(*order, vec![0, 1, 2, 3, 4]);
}

#[test]
fn a_guard_sees_what_the_one_before_left() {
    let mut lock = QueueBasedLock::new(String::from("a"));
    let op = run_until_blocked(&mut lock, 0, LockOp::Begin);
    let next = run_until_blocked(&mut lock, 1, LockOp::Begin);
    let mut guard = lock.into_guard(op);
    guard.push('b');
    let (mut lock, woken) = guard.unlock();
    assert_eq!(woken, Some(1));
    let op = wake_up(&mut lock, 1, next);
    let mut guard = lock.into_guard(op);
    assert_eq!(*guard, "ab");
    guard.push('c');
    let (lock, woken) = guard.unlock();
    assert_eq!(woken, None);
    assert_eq!(*lock.lock(), "abc");
}

#[test]
fn a_woken_thread_has_the_lock() {
    let mut lock = QueueBasedLock::new(5u8);
    assert_eq!(run_until_blocked(&mut lock, 0, LockOp::Begin), LockOp::Held);
    let op = run_until_blocked(&mut lock, 1, LockOp::Begin);
    assert_eq!(op.access(1), Access::Park);
    assert_eq!(lock.unlock(), Some(1));
    assert_eq!(wake_up(&mut lock, 1, op), LockOp::Held);
    // The lock was handed over and not freed: another thread waits.
    let other = run_until_blocked(&mut lock, 2, LockOp::Begin);
    assert!(matches!(other, LockOp::Park { .. }));
    assert_eq!(lock.unlock(), Some(2));
    assert_eq!(wake_up(&mut lock, 2, other), LockOp::Held);
    assert_eq!(lock.unlock(), None);
}

#[test]
fn waking_up_for_no_reason_does_not_give_the_lock() {
    let mut lock = QueueBasedLock::new(());
    assert_eq!(run_until_blocked(&mut lock, 0, LockOp::Begin), LockOp::Held);
    let mut op = run_until_blocked(&mut lock, 1, LockOp::Begin);
    for _ in 0..3 {
        op = wake_up(&mut lock, 1, op);
        assert!(matches!(op, LockOp::Park { .. }));
    }
    assert_eq!(lock.unlock(), Some(1));
    assert_eq!(wake_up(&mut lock, 1, op), LockOp::Held);
}

#[test]
fn a_thread_on_its_way_into_the_queue_is_not_passed_over() {
    // The waiting thread stops at every point between locking the queue and unlocking it, and
    // the holder lets go of the lock meanwhile: it waits, and then hands the lock over.
    for stop in 0..2 {
        let mut lock = QueueBasedLock::new(0u8);
        assert_eq!(run_until_blocked(&mut lock, 0, LockOp::Begin), LockOp::Held);
        let mut op = LockOp::Begin;
        while !matches!(op, LockOp::ClearNext { .. }) {
            op = lock.lock_step(1, op);
        }
        for _ in 0..stop {
            op = lock.lock_step(1, op);
        }
        let mut leaving = UnlockOp::Load;
        for _ in 0..10 {
            leaving = lock.unlock_step(leaving);
            assert!(matches!(leaving, UnlockOp::Spin | UnlockOp::Load));
        }
        op = run_until_blocked(&mut lock, 1, op);
        assert!(matches!(op, LockOp::Park { .. }));
        while !matches!(leaving, UnlockOp::Wake { .. }) {
            leaving = lock.unlock_step(leaving);
        }
        assert_eq!(leaving, UnlockOp::Wake { thread: 1 });
        assert_eq!(wake_up(&mut lock, 1, op), LockOp::Held);
        assert_eq!(lock.unlock(), None);
    }
}

#[test]
fn a_thread_that_comes_before_the_exchange_is_not_passed_over() {
    // The holder saw an empty queue; before it frees the lock, a thread enters the queue.
    let mut lock = QueueBasedLock::new(0u8);
    assert_eq!(run_until_blocked(&mut lock, 0, LockOp::Begin), LockOp::Held);
    let mut leaving = lock.unlock_step(UnlockOp::Load);
    assert!(matches!(leaving, UnlockOp::Release { .. }));
    let op = run_until_blocked(&mut lock, 1, LockOp::Begin);
    assert!(matches!(op, LockOp::Park { .. }));
    while !matches!(leaving, UnlockOp::Wake { .. } | UnlockOp::Done) {
        leaving = lock.unlock_step(leaving);
    }
    assert_eq!(leaving, UnlockOp::Wake { thread: 1 });
    assert_eq!(wake_up(&mut lock, 1, op), LockOp::Held);
}

#[test]
fn an_unused_node_is_given_back() {
    let mut lock = QueueBasedLock::new(0u32);
    assert_eq!(run_until_blocked(&mut lock, 0, LockOp::Begin), LockOp::Held);
    let mut op = LockOp::Begin;
    while !matches!(op, LockOp::Load { .. }) {
        op = lock.lock_step(4, op);
    }
    assert_eq!(lock.unlock(), None);
    op = lock.lock_step(4, op);
    assert!(matches!(op, LockOp::Acquire { .. }));
    op = lock.lock_step(4, op);
    assert!(matches!(op.access(4), Access::FreeNode { .. }));
    op = lock.lock_step(4, op);
    assert_eq!(op, LockOp::Held);
}

#[test]
fn the_address_of_a_node_is_used_again() {
    let mut lock = QueueBasedLock::new(());
    assert_eq!(run_until_blocked(&mut lock, 0, LockOp::Begin), LockOp::Held);
    let mut nodes = Vec::new();
    for thread in 1..1000 {
        let op = run_until_blocked(&mut lock, thread, LockOp::Begin);
        if let LockOp::Park { node } = op {
            nodes.push(node);
        }
        assert_eq!(lock.unlock(), Some(thread));
        assert_eq!(wake_up(&mut lock, thread, op), LockOp::Held);
    }
    assert_eq!(nodes.len(), 999);
    assert!(nodes.iter().all(|&node| node == nodes[0]));
    assert!(lock.can_allocate());
}

#[test]
fn a_locked_queue_is_waited_for() {
    let op = LockOp::Load { node: 4 }.resume(Reply::Value { word: 3 });
    assert_eq!(op, LockOp::Spin { node: 4 });
    assert_eq!(op.access(1), Access::SpinLoop);
    assert_eq!(op.resume(Reply::Ack), LockOp::Load { node: 4 });
    let op = UnlockOp::Load.resume(Reply::Value { word: 11 });
    assert_eq!(op, UnlockOp::Spin);
    assert_eq!(op.resume(Reply::Ack), UnlockOp::Load);
}

#[test]
fn only_an_empty_queue_that_nobody_enters_is_freed() {
    assert_eq!(UnlockOp::Load.resume(Reply::Value { word: 3 }), UnlockOp::Spin);
    let op = UnlockOp::Load.resume(Reply::Value { word: 1 });
    assert_eq!(op.access(), Access::CompareExchange { expected: 1, new: 0 });
    assert_eq!(op.resume(Reply::Observed { word: 9 }), UnlockOp::Load);
    assert_eq!(op.resume(Reply::Swapped), UnlockOp::Done);
}

#[test]
fn the_last_node_is_found() {
    let op = LockOp::LockQueue { node: 16, state: 5 };
    assert_eq!(op.access(1), Access::CompareExchange { expected: 5, new: 7 });
    let op = op.resume(Reply::Swapped);
    assert_eq!(op.access(1), Access::LoadNext { node: 4 });
    let op = op.resume(Reply::Next { next: 12 });
    assert_eq!(op.access(1), Access::LoadNext { node: 12 });
    let op = op.resume(Reply::Next { next: 0 });
    assert_eq!(op.access(1), Access::StoreNext { node: 12, next: 16 });
    let op = op.resume(Reply::Ack);
    assert_eq!(op.access(1), Access::StoreState { word: 5 });
    let op = op.resume(Reply::Ack);
    assert_eq!(op, LockOp::Park { node: 16 });
    let op = op.resume(Reply::Ack);
    assert_eq!(op.access(1), Access::ReadMark { node: 16 });
    assert_eq!(op.resume(Reply::Marked { marked: false }), LockOp::Park { node: 16 });
    let op = op.resume(Reply::Marked { marked: true });
    assert_eq!(op.access(1), Access::FreeNode { node: 16 });
    assert_eq!(op.resume(Reply::Ack), LockOp::Held);
}

#[test]
fn parts_of_a_state_word() {
    assert_eq!(QueueBasedLock::<()>::get_ptr(0x1237), 0x1234);
    assert_eq!(QueueBasedLock::<()>::get_flags(0x1237), 3);
    assert_eq!(QueueBasedLock::<()>::get_flags(0x1236), 2);
    assert_eq!(QueueBasedLock::<()>::make_state(0x1234, 1), 0x1235);
    assert_eq!(QueueBasedLock::<()>::make_state(0x1235, 3), 0x1237);
    assert_eq!(QueueNode::new(6), QueueNode { thread: 6, next: 0, marked: false });
}

#[test]
fn threads_line_up_behind_each_other() {
    let mut lock = QueueBasedLock::new(1u8);
    assert_eq!(run_until_blocked(&mut lock, 0, LockOp::Begin), LockOp::Held);
    let first = lock.enqueue(11);
    let second = lock.enqueue(12);
    let third = lock.enqueue(13);
    assert!(first != second && second != third && first != third);
    assert_eq!(lock.unlock(), Some(11));
    assert_eq!(lock.unlock(), Some(12));
    let fourth = lock.enqueue(14);
    assert!(fourth != 0 && fourth % 4 == 0);
    assert_eq!(lock.unlock(), Some(13));
    assert_eq!(lock.unlock(), Some(14));
    assert_eq!(lock.unlock(), None);
    assert_eq!(*lock.lock(), 1);
}
