use sync_primitives::semaphore::{
    CondWaitOp, SemAccess, SemReply, SemaphoreCondVar, SemaphoreSpinLock, SignalOp, SimpleWaitOp,
    SpinWaitOp,
};

#[test]
fn test_signal_and_wait() {
    let mut sem = SemaphoreSpinLock::new(2);
    assert_eq!(sem.value(), 2);

    // decrement twice
    sem.wait();
    assert_eq!(sem.value(), 1);
    sem.wait();
    assert_eq!(sem.value(), 0);

    // increment once
    sem.signal();
    assert_eq!(sem.value(), 1);

    // decrement again
    sem.wait();
    assert_eq!(sem.value(), 0);

    // testing condvar version
    let mut sem = SemaphoreCondVar::new(2);
    assert_eq!(sem.value(), 2);

    // decrement twice
    sem.wait();
    assert_eq!(sem.value(), 1);
    sem.wait();
    assert_eq!(sem.value(), 0);

    // increment once
    sem.signal();
    assert_eq!(sem.value(), 1);

    // decrement again
    sem.wait();
    assert_eq!(sem.value(), 0);
}

/// A number out of a fixed sequence in which there is no order to be seen.
fn scatter(seed: &mut u64) -> usize {
    *seed = seed.wrapping_mul(6364136223846793005).wrapping_add(1442695040888963407);
    (*seed >> 33) as usize
}

/// What a thread does that takes a permit and gives it back.
#[derive(Clone, Copy, PartialEq)]
enum Turn {
    Waiting(CondWaitOp),
    Signalling(SignalOp),
}

/// Lets threads take a permit each and give it back, one step of one thread at a time, and
/// returns the number of permits that are left. A signal wakes the thread that sleeps longest;
/// with `idle_wakes`, threads wake up for no reason too.
fn take_turns(seed: u64, permits: u8, threads: usize, idle_wakes: bool) -> u8 {
    let mut seed = seed;
    let mut sem = SemaphoreCondVar::new(permits);
    let mut turns = vec![Turn::Waiting(CondWaitOp::Lock); threads];
    let mut asleep: Vec<usize> = Vec::new();

    while turns.iter().any(|&turn| turn != Turn::Signalling(SignalOp::Done)) {
        let t = scatter(&mut seed) % threads;
        turns[t] = match turns[t] {
            Turn::Waiting(CondWaitOp::Acquired) => Turn::Signalling(SignalOp::Lock),
            Turn::Waiting(op) => {
                if op == CondWaitOp::Asleep && asleep.contains(&t) {
                    if !idle_wakes || scatter(&mut seed) % 8 != 0 {
                        continue;
                    }
                    asleep.retain(|&sleeper| sleeper != t);
                }
                let next = sem.wait_step(op);
                if op == CondWaitOp::Sleep {
                    asleep.push(t);
                }
                Turn::Waiting(next)
            }
            Turn::Signalling(op) => {
                if op == SignalOp::Notify && !asleep.is_empty() {
                    asleep.remove(0);
                }
                Turn::Signalling(sem.signal_step(op))
            }
        };
        let holders = turns.iter().filter(|&&turn| {
            matches!(
                turn,
                Turn::Waiting(CondWaitOp::Unlock | CondWaitOp::Acquired)
                    | Turn::Signalling(SignalOp::Lock | SignalOp::Increment)
            )
        });
        assert_eq!(holders.count() + sem.value() as usize, permits as usize);
    }
    sem.value()
}

#[test]
fn test_multithread() {
    let mut sem = SemaphoreSpinLock::new(2);
    let mut ops = vec![SpinWaitOp::Load; 4];
    let mut released = vec![false; 4];
    while released.iter().any(|&r| !r) {
        for _ in 0..6 {
            for i in 0..4 {
                ops[i] = sem.wait_step(ops[i]);
            }
        }
        let holders: Vec<usize> = (0..4)
            .filter(|&i| !released[i] && ops[i] == SpinWaitOp::Acquired)
            .collect();
        assert_eq!(holders.len(), 2);
        for i in holders {
            sem.signal();
            released[i] = true;
        }
    }
    assert_eq!(sem.value(), 2);

    assert_eq!(take_turns(1, 2, 4, false), 2);
}

#[test]
fn no_order_of_steps_leaves_a_thread_asleep() {
    for seed in 0..500 {
        assert_eq!(take_turns(seed, 2, 4, false), 2);
        assert_eq!(take_turns(seed, 1, 5, seed % 2 == 0), 1);
    }
}

#[test]
fn a_signal_waits_for_a_thread_about_to_sleep() {
    // The waiting thread saw no permit and stops before it sleeps. It has the mutex, so that no
    // permit is added, and no thread woken, until it sleeps.
    let mut sem = SemaphoreCondVar::new(0);
    let mut op = CondWaitOp::Lock;
    while op != CondWaitOp::Sleep {
        op = sem.wait_step(op);
    }
    let mut adding = SignalOp::Lock;
    for _ in 0..5 {
        adding = sem.signal_step(adding);
        assert_eq!(adding, SignalOp::Lock);
    }
    assert_eq!(sem.value(), 0);
    op = sem.wait_step(op);
    assert_eq!(op, CondWaitOp::Asleep);
    while adding != SignalOp::Done {
        adding = sem.signal_step(adding);
    }
    assert_eq!(sem.value(), 1);
    while op != CondWaitOp::Acquired {
        op = sem.wait_step(op);
    }
    assert_eq!(sem.value(), 0);
}

#[test]
fn waking_up_for_no_reason_gives_no_permit() {
    let mut sem = SemaphoreCondVar::new(0);
    let mut op = SimpleWaitOp::Lock;
    for _ in 0..3 {
        while op != SimpleWaitOp::Asleep {
            op = sem.wait_simple_step(op);
        }
        op = sem.wait_simple_step(op);
        assert_eq!(op, SimpleWaitOp::Load);
        op = sem.wait_simple_step(op);
        assert_eq!(op, SimpleWaitOp::Sleep);
    }
    assert_eq!(sem.value(), 0);
}

#[test]
fn the_count_wraps_around() {
    let mut sem = SemaphoreSpinLock::new(255);
    sem.signal();
    assert_eq!(sem.value(), 0);
    let mut sem = SemaphoreCondVar::new(255);
    sem.signal();
    assert_eq!(sem.value(), 0);
}

#[test]
fn a_simple_wait_takes_one_permit() {
    let mut sem = SemaphoreCondVar::new(4);
    sem.wait_simple();
    assert_eq!(sem.value(), 3);
    sem.signal();
    assert_eq!(sem.value(), 4);
}

#[test]
fn without_a_permit_threads_go_on_waiting() {
    let mut sem = SemaphoreSpinLock::new(0);
    let op = sem.wait_step(SpinWaitOp::Load);
    assert_eq!(op, SpinWaitOp::Load);
    sem.signal();
    let op = sem.wait_step(op);
    assert_eq!(op.access(), SemAccess::CompareExchange { expected: 1, new: 0 });
    // Another thread is faster.
    sem.wait();
    let op = sem.wait_step(op);
    assert_eq!(op, SpinWaitOp::Load);

    let mut sem = SemaphoreCondVar::new(0);
    let mut op = SimpleWaitOp::Lock;
    op = sem.wait_simple_step(op);
    op = sem.wait_simple_step(op);
    assert_eq!(op, SimpleWaitOp::Sleep);
    // The mutex is taken: no other thread gets past it.
    assert_eq!(sem.wait_step(CondWaitOp::Lock), CondWaitOp::Lock);
    op = sem.wait_simple_step(op);
    assert_eq!(op, SimpleWaitOp::Asleep);
    sem.signal();
    op = sem.wait_simple_step(op);
    op = sem.wait_simple_step(op);
    assert_eq!(op.access(), SemAccess::Subtract);
    op = sem.wait_simple_step(op);
    op = sem.wait_simple_step(op);
    assert_eq!(op, SimpleWaitOp::Acquired);
    assert_eq!(sem.value(), 0);
}

#[test]
fn a_failed_exchange_reads_the_count_again() {
    let op = CondWaitOp::Exchange { current: 3 };
    assert_eq!(op.access(), SemAccess::CompareExchange { expected: 3, new: 2 });
    assert_eq!(op.resume(SemReply::Failed), CondWaitOp::Load);
    assert_eq!(op.resume(SemReply::Swapped), CondWaitOp::Unlock);
}

#[test]
fn a_permit_is_there_before_a_sleeper_is_woken() {
    let mut sem = SemaphoreCondVar::new(0);
    let op = sem.signal_step(SignalOp::Lock);
    assert_eq!(op.access(), SemAccess::Increment);
    let op = sem.signal_step(op);
    assert_eq!(sem.value(), 1);
    assert_eq!(op.access(), SemAccess::Unlock);
    let op = sem.signal_step(op);
    assert_eq!(op.access(), SemAccess::NotifyOne);
    let op = sem.signal_step(op);
    assert_eq!(op, SignalOp::Done);
    assert_eq!(op.access(), SemAccess::Finished);
    assert_eq!(sem.value(), 1);
}

#[test]
fn one_thread_takes_several_permits() {
    let mut sem = SemaphoreCondVar::new(3);
    sem.wait();
    sem.wait_simple();
    sem.wait();
    assert_eq!(sem.value(), 0);
    sem.signal();
    sem.signal();
    assert_eq!(sem.value(), 2);
    // More permits are added than were taken: 3 at first, 255 added and 2 taken.
    let mut sem = SemaphoreSpinLock::new(3);
    sem.wait();
    for _ in 0..255 {
        sem.signal();
    }
    sem.wait();
    assert_eq!(sem.value(), 0);
}
