//! What one call on a queue-based mutex does, whatever other threads do meanwhile, and what it
//! comes to when no other thread does anything.

use crate::chain::{after, chain_frame, is_chain, Linked};
use crate::execution::{call_so_far, is_call};
use crate::lock_calls::{
    back, belongs, flags_in_numbers, known, lock_change, lock_fits, made, marks,
    node_words_in_numbers, nodes_kept, own, spins, turns_of_lock, wakes,
};
use crate::lock_memory::{threads_along, Access, MemoryView, QueueNode, Reply};
use crate::queue_mutex::{enqueued, AcquireOp, ReleaseOp, TryLockOp};
use crate::queue_mutex_laws::joining_puts_last;
use crate::word::{address, compose, is_locked};
use vstd::prelude::*;

verus! {

/// One call of [`TryLockOp`].
pub open spec fn is_attempt(ops: Seq<TryLockOp>, log: Seq<(Access, Reply)>) -> bool {
    is_call(
        ops,
        log,
        TryLockOp::Load,
        |op: TryLockOp| op.next_access(),
        |access: Access, reply: Reply| lock_fits(access, reply),
        |op: TryLockOp, reply: Reply| op.after(reply),
    )
}

/// What the last access of an attempt has to do with those before it: it reads the state word once,
/// and from then on tries to set the lock bit of the word that it knows, which is clear there.
pub open spec fn tries_rightly(log: Seq<(Access, Reply)>) -> bool {
    match log.last().0 {
        Access::LoadState => log.len() == 1,
        Access::CompareExchange { expected, new } => known(log.drop_last()) == Some(expected)
            && expected % 2 == 0 && new == expected + 1,
        Access::Finished => true,
        _ => false,
    }
}

/// An attempt gets the mutex exactly when it has made its exchange, which sets the lock bit of a
/// free mutex. It gives up exactly when it has seen the lock bit set; as long as it sees the mutex
/// free it goes on.
pub proof fn attempt_says_what_it_did(ops: Seq<TryLockOp>, log: Seq<(Access, Reply)>)
    requires
        is_attempt(ops, log),
    ensures
        ops.last() == (TryLockOp::Done { locked: true }) <==> made(log) == 1,
        ops.last() == (TryLockOp::Done { locked: false }) <==> made(log) == 0 && known(log) is Some
            && known(log)->0 % 2 == 1,
        made(log) <= 1,
        lock_change(log) == made(log),
        forall|i: int| 0 < i <= log.len() ==> #[trigger] tries_rightly(log.take(i)),
        match ops.last() {
            TryLockOp::Load => log.len() == 0,
            TryLockOp::Exchange { state } => known(log) == Some(state) && state % 2 == 0,
            TryLockOp::Done { locked } => known(log) is Some && known(log)->0 % 2 == 1,
        },
    decreases log.len(),
{
    if log.len() > 0 {
        let before = log.drop_last();
        call_so_far(
            ops,
            log,
            TryLockOp::Load,
            |op: TryLockOp| op.next_access(),
            |access: Access, reply: Reply| lock_fits(access, reply),
            |op: TryLockOp, reply: Reply| op.after(reply),
        );
        attempt_says_what_it_did(ops.drop_last(), before);
        if known(before) is Some {
            flags_in_numbers(known(before)->0);
        }
        assert(tries_rightly(log));
        assert forall|i: int| 0 < i <= log.len() implies #[trigger] tries_rightly(log.take(i)) by {
            if i < log.len() {
                assert(log.take(i) =~= before.take(i));
            } else {
                assert(log.take(i) =~= log);
            }
        }
    }
}

/// The memory and an attempt after some steps of its thread, with no step of another in between.
pub open spec fn attempt_alone(memory: MemoryView, op: TryLockOp, steps: nat) -> (
    MemoryView,
    TryLockOp,
)
    decreases steps,
{
    if steps == 0 {
        (memory, op)
    } else {
        let access = op.next_access();
        attempt_alone(
            memory.effect(access, 0),
            op.after(memory.reply(access, 0)),
            (steps - 1) as nat,
        )
    }
}

/// A thread that tries alone gets the mutex if it is free, and then only the lock bit has changed.
/// If the mutex is taken the thread gives up, and nothing has changed.
pub proof fn trying_alone_takes_a_free_mutex(memory: MemoryView)
    ensures
        memory.state % 2 == 0 ==> exists|n: nat| #[trigger]
            attempt_alone(memory, TryLockOp::Load, n) == (
                MemoryView { state: (memory.state + 1) as usize, ..memory },
                TryLockOp::Done { locked: true },
            ) && memory.state < usize::MAX,
        memory.state % 2 == 1 ==> exists|n: nat| #[trigger]
            attempt_alone(memory, TryLockOp::Load, n) == (
                memory,
                TryLockOp::Done { locked: false },
            ),
{
    flags_in_numbers(memory.state);
    reveal_with_fuel(attempt_alone, 3);
    if memory.state % 2 == 0 {
        assert(attempt_alone(memory, TryLockOp::Load, 2) == (
            MemoryView { state: (memory.state + 1) as usize, ..memory },
            TryLockOp::Done { locked: true },
        ));
    } else {
        assert(attempt_alone(memory, TryLockOp::Load, 1) == (
            memory,
            TryLockOp::Done { locked: false },
        ));
    }
}

/// One call of [`AcquireOp`] by a thread.
pub open spec fn is_acquisition(
    ops: Seq<AcquireOp>,
    log: Seq<(Access, Reply)>,
    thread: u64,
) -> bool {
    is_call(
        ops,
        log,
        AcquireOp::Load,
        |op: AcquireOp| op.next_access(thread),
        |access: Access, reply: Reply| lock_fits(access, reply),
        |op: AcquireOp, reply: Reply| op.after(reply),
    )
}

/// Whether the call has the queue for itself: its exchanges lock and unlock the queue in turn while
/// it has a node.
pub open spec fn has_queue(log: Seq<(Access, Reply)>) -> bool
    decreases log.len(),
{
    if log.len() == 0 {
        false
    } else if log.last().1 is Swapped {
        own(log.drop_last()) is Some && !has_queue(log.drop_last())
    } else {
        has_queue(log.drop_last())
    }
}

/// Whether the call has linked its node to the queue that it has for itself.
pub open spec fn has_appended(log: Seq<(Access, Reply)>) -> bool
    decreases log.len(),
{
    log.len() > 0 && match log.last().0 {
        Access::StoreNext { .. } => true,
        Access::CompareExchange { .. } => log.last().1 !is Swapped && has_appended(log.drop_last()),
        Access::NewNode { .. } => false,
        _ => has_appended(log.drop_last()),
    }
}

/// What the last access of an acquisition has to do with those before it.
///
/// Without a node the thread tries to set the lock bit where it is clear, and gets a node where it
/// is set. With a node it locks the queue; with the queue for itself it puts its node behind the
/// last one or, if the queue is empty, in front while the mutex is taken, and unlocks the queue. It
/// looks at its node after it has slept, sleeps again only if it is not marked, and gives it back
/// only if it is, or if it has found the mutex free.
pub open spec fn acquires_rightly(log: Seq<(Access, Reply)>, thread: u64) -> bool {
    let before = log.drop_last();
    match log.last().0 {
        Access::LoadState => !has_queue(before) && (before.len() == 0 || before.last().0 is NewNode
            || before.last().0 is FreeNode || spins(before) == 10),
        Access::CompareExchange { expected, new } => known(before) == Some(expected) && match own(
            before,
        ) {
            None => expected % 2 == 0 && new == expected + 1,
            Some(node) => if !has_queue(before) {
                expected % 4 < 2 && new == expected + 2
            } else if has_appended(before) || expected % 2 == 0 {
                new == expected - expected % 4 + expected % 2
            } else {
                new == node + 1
            },
        },
        Access::NewNode { thread: t } => t == thread && own(before) is None && known(before) is Some
            && known(before)->0 % 2 == 1,
        Access::LoadNext { node } => has_queue(before) && !has_appended(before) && node != 0
            && before.len() > 0 && match before.last().0 {
            Access::CompareExchange { expected, .. } => node == expected - expected % 4,
            Access::LoadNext { .. } => before.last().1 == (Reply::Next { next: node }),
            _ => false,
        },
        Access::StoreNext { node, next } => has_queue(before) && own(before) == Some(next)
            && before.len() > 0 && before.last() == (
            Access::LoadNext { node },
            Reply::Next { next: 0 },
        ),
        Access::Park => own(before) is Some && !has_queue(before) && before.len() > 0 && (
        before.last().1 is Swapped || before.last().1 == (Reply::Marked { marked: false })),
        Access::ReadMark { node } => own(before) == Some(node) && before.len() > 0
            && before.last().0 is Park,
        Access::FreeNode { node } => own(before) == Some(node) && !has_queue(before) && before.len()
            > 0 && (before.last() == (Access::ReadMark { node }, Reply::Marked { marked: true }) || (
        before.last().1 is Swapped && before.last().0->expected % 2 == 0)),
        Access::SpinLoop => own(before) is Some && !has_queue(before) && known(before) is Some
            && known(before)->0 % 4 >= 2 && spins(before) < 10,
        Access::Finished => true,
        _ => false,
    }
}

/// What is known of an acquisition under way.
spec fn acquisition_stands(op: AcquireOp, log: Seq<(Access, Reply)>) -> bool {
    let alone = !has_queue(log);
    match op {
        AcquireOp::Load => own(log) is None && alone && (log.len() == 0 || log.last().0
            is FreeNode),
        AcquireOp::Exchange { state } => own(log) is None && alone && known(log) == Some(state)
            && state % 2 == 0,
        AcquireOp::Allocate => own(log) is None && alone && known(log) is Some && known(log)->0 % 2
            == 1,
        AcquireOp::LoadQueue { node } => own(log) == Some(node) && alone && !has_appended(log)
            && log.len() > 0 && (log.last().0 is NewNode || spins(log) == 10),
        AcquireOp::Spin { node, turns } => own(log) == Some(node) && alone && !has_appended(log)
            && known(log) is Some && known(log)->0 % 4 >= 2 && 0 < turns && spins(log) + turns
            == 10,
        AcquireOp::LockQueue { node, state } => own(log) == Some(node) && alone && !has_appended(
            log,
        ) && known(log) == Some(state) && state % 4 < 2,
        AcquireOp::Enter { node, state } => own(log) == Some(node) && has_queue(log)
            && !has_appended(log) && known(log) == Some(state) && state % 2 == 1,
        AcquireOp::Retreat { node, state } => own(log) == Some(node) && has_queue(log)
            && !has_appended(log) && known(log) == Some(state) && state % 2 == 0,
        AcquireOp::FindTail { node, state, tail } => own(log) == Some(node) && has_queue(log)
            && !has_appended(log) && known(log) == Some(state) && tail != 0 && log.len() > 0
            && match log.last().0 {
            Access::CompareExchange { expected, .. } => tail == expected - expected % 4,
            Access::LoadNext { .. } => log.last().1 == (Reply::Next { next: tail }),
            _ => false,
        },
        AcquireOp::Append { node, state, tail } => own(log) == Some(node) && has_queue(log)
            && !has_appended(log) && known(log) == Some(state) && log.len() > 0 && log.last() == (
            Access::LoadNext { node: tail },
            Reply::Next { next: 0 },
        ),
        AcquireOp::Publish { node, state } => own(log) == Some(node) && has_queue(log)
            && has_appended(log) && known(log) == Some(state),
        AcquireOp::Park { node } => own(log) == Some(node) && alone && log.len() > 0 && (
        log.last().1 is Swapped || log.last().1 == (Reply::Marked { marked: false })),
        AcquireOp::Look { node } => own(log) == Some(node) && alone && log.len() > 0 && log.last().0
            is Park,
        AcquireOp::Free { node } => own(log) == Some(node) && alone && log.len() > 0 && (log.last()
            == (Access::ReadMark { node }, Reply::Marked { marked: true }) || (log.last().1
            is Swapped && log.last().0->expected % 2 == 0)),
        AcquireOp::Held => own(log) is None && alone,
    }
}

/// The node that a call has leaves the flag bits of a state word free.
proof fn own_node_is_usable(ops: Seq<AcquireOp>, log: Seq<(Access, Reply)>, thread: u64)
    requires
        is_acquisition(ops, log, thread),
    ensures
        own(log) is Some ==> own(log)->0 != 0 && own(log)->0 % 4 == 0,
    decreases log.len(),
{
    if log.len() > 0 {
        call_so_far(
            ops,
            log,
            AcquireOp::Load,
            |op: AcquireOp| op.next_access(thread),
            |access: Access, reply: Reply| lock_fits(access, reply),
            |op: AcquireOp, reply: Reply| op.after(reply),
        );
        own_node_is_usable(ops.drop_last(), log.drop_last(), thread);
    }
}

/// An acquisition gets the mutex exactly when it has set the lock bit, which it does once, and by
/// then has given back every node that it got. None of its other exchanges changes the lock bit.
pub proof fn acquisition_takes_the_mutex_once(
    ops: Seq<AcquireOp>,
    log: Seq<(Access, Reply)>,
    thread: u64,
)
    requires
        is_acquisition(ops, log, thread),
    ensures
        ops.last() is Held <==> lock_change(log) == 1,
        lock_change(log) == turns_of_lock(log) <= 1,
        ops.last() is Held ==> nodes_kept(log) == 0,
        nodes_kept(log) == (if own(log) is Some {
            1int
        } else {
            0
        }),
        wakes(log) == 0,
        marks(log) == 0,
        forall|i: int| 0 < i <= log.len() ==> #[trigger] acquires_rightly(log.take(i), thread),
{
    acquisition_so_far(ops, log, thread);
}

/// What the words are that an acquisition is about to write, in numbers.
proof fn acquisition_in_numbers(op: AcquireOp)
    requires
        op matches AcquireOp::Enter { node, .. } ==> node % 4 == 0,
    ensures
        match op {
            AcquireOp::Exchange { state } => state % 2 == 0 ==> op.next_access(0)
                == (Access::CompareExchange { expected: state, new: (state + 1) as usize }) && state
                < usize::MAX,
            AcquireOp::LockQueue { state, .. } => state % 4 < 2 ==> op.next_access(0)
                == (Access::CompareExchange { expected: state, new: (state + 2) as usize }) && state
                + 2 <= usize::MAX && compose(address(state), is_locked(state), true) == state + 2,
            AcquireOp::Enter { node, state } => op.next_access(0) == (Access::CompareExchange {
                expected: state,
                new: (node + 1) as usize,
            }) && node < usize::MAX,
            AcquireOp::Retreat { state, .. } => op.next_access(0) == (Access::CompareExchange {
                expected: state,
                new: (state - state % 4 + state % 2) as usize,
            }),
            AcquireOp::Publish { state, .. } => op.next_access(0) == (Access::CompareExchange {
                expected: state,
                new: (state - state % 4 + state % 2) as usize,
            }),
            _ => true,
        },
{
    match op {
        AcquireOp::Exchange { state } => {
            flags_in_numbers(state);
        },
        AcquireOp::LockQueue { state, .. } => {
            flags_in_numbers(state);
        },
        AcquireOp::Enter { node, .. } => {
            node_words_in_numbers(node, true);
            flags_in_numbers(node);
        },
        AcquireOp::Retreat { state, .. } => {
            flags_in_numbers(state);
        },
        AcquireOp::Publish { state, .. } => {
            flags_in_numbers(state);
        },
        _ => {},
    }
}

/// An access of an acquisition is right by what is known of it.
proof fn acquisition_is_right(op: AcquireOp, log: Seq<(Access, Reply)>, thread: u64)
    requires
        log.len() > 0,
        acquisition_stands(op, log.drop_last()),
        log.last().0 == op.next_access(thread),
        lock_fits(log.last().0, log.last().1),
        own(log.drop_last()) is Some ==> own(log.drop_last())->0 % 4 == 0,
    ensures
        acquires_rightly(log, thread),
{
    acquisition_in_numbers(op);
}

/// What one access adds to what is known of an acquisition.
proof fn acquisition_goes_on(op: AcquireOp, log: Seq<(Access, Reply)>, thread: u64)
    requires
        log.len() > 0,
        acquisition_stands(op, log.drop_last()),
        log.last().0 == op.next_access(thread),
        lock_fits(log.last().0, log.last().1),
        own(log.drop_last()) is Some ==> own(log.drop_last())->0 % 4 == 0,
    ensures
        acquisition_stands(op.after(log.last().1), log),
{
    acquisition_in_numbers(op);
}

/// What one access adds to the counts of an acquisition.
proof fn acquisition_counts(op: AcquireOp, log: Seq<(Access, Reply)>, thread: u64)
    requires
        log.len() > 0,
        acquisition_stands(op, log.drop_last()),
        log.last().0 == op.next_access(thread),
        lock_fits(log.last().0, log.last().1),
        own(log.drop_last()) is Some ==> own(log.drop_last())->0 % 4 == 0,
    ensures
        lock_change(log) == lock_change(log.drop_last()) + (if op is Exchange && op.after(
            log.last().1,
        ) is Held {
            1int
        } else {
            0
        }),
        turns_of_lock(log) == turns_of_lock(log.drop_last()) + (if op is Exchange && op.after(
            log.last().1,
        ) is Held {
            1int
        } else {
            0
        }),
        wakes(log) == wakes(log.drop_last()),
        marks(log) == marks(log.drop_last()),
        nodes_kept(log) - (if own(log) is Some {
            1int
        } else {
            0
        }) == nodes_kept(log.drop_last()) - (if own(log.drop_last()) is Some {
            1int
        } else {
            0
        }),
{
    acquisition_in_numbers(op);
}

proof fn acquisition_so_far(ops: Seq<AcquireOp>, log: Seq<(Access, Reply)>, thread: u64)
    requires
        is_acquisition(ops, log, thread),
    ensures
        acquisition_stands(ops.last(), log),
        ops.last() is Held <==> lock_change(log) == 1,
        lock_change(log) == turns_of_lock(log) <= 1,
        nodes_kept(log) == (if own(log) is Some {
            1int
        } else {
            0
        }),
        wakes(log) == 0,
        marks(log) == 0,
        forall|i: int| 0 < i <= log.len() ==> #[trigger] acquires_rightly(log.take(i), thread),
    decreases log.len(),
{
    if log.len() > 0 {
        let before = log.drop_last();
        let op = ops.drop_last().last();
        call_so_far(
            ops,
            log,
            AcquireOp::Load,
            |op: AcquireOp| op.next_access(thread),
            |access: Access, reply: Reply| lock_fits(access, reply),
            |op: AcquireOp, reply: Reply| op.after(reply),
        );
        acquisition_so_far(ops.drop_last(), before, thread);
        own_node_is_usable(ops.drop_last(), before, thread);
        acquisition_is_right(op, log, thread);
        acquisition_goes_on(op, log, thread);
        acquisition_counts(op, log, thread);
        assert(op.after(log.last().1) is Held ==> op is Held || op is Exchange);
        assert(op is Held ==> op.after(log.last().1) is Held);
        assert forall|i: int| 0 < i <= log.len() implies #[trigger] acquires_rightly(
            log.take(i),
            thread,
        ) by {
            if i < log.len() {
                assert(log.take(i) =~= before.take(i));
            } else {
                assert(log.take(i) =~= log);
            }
        }
    }
}

/// One call of [`ReleaseOp`].
pub open spec fn is_release(ops: Seq<ReleaseOp>, log: Seq<(Access, Reply)>) -> bool {
    is_call(
        ops,
        log,
        ReleaseOp::Load,
        |op: ReleaseOp| op.next_access(),
        |access: Access, reply: Reply| lock_fits(access, reply),
        |op: ReleaseOp, reply: Reply| op.after(reply),
    )
}

/// The state word that the first exchange of a call has left.
pub open spec fn freed(log: Seq<(Access, Reply)>) -> usize
    decreases log.len(),
{
    if log.len() == 0 {
        0
    } else if made(log.drop_last()) == 0 && log.last().1 is Swapped {
        log.last().0->CompareExchange_new
    } else {
        freed(log.drop_last())
    }
}

/// The node whose link a call has read.
pub open spec fn front(log: Seq<(Access, Reply)>) -> Option<usize>
    decreases log.len(),
{
    if log.len() == 0 {
        None
    } else if log.last().0 is LoadNext {
        Some(log.last().0->LoadNext_node)
    } else {
        front(log.drop_last())
    }
}

/// What the link that a call has read held; zero if it has read none.
pub open spec fn second(log: Seq<(Access, Reply)>) -> usize
    decreases log.len(),
{
    if log.len() == 0 {
        0
    } else if log.last().0 is LoadNext {
        log.last().1->next
    } else {
        second(log.drop_last())
    }
}

/// What the last access of a release has to do with those before it.
///
/// The first exchange that it makes clears the lock bit, the second locks the queue, and the third
/// unlocks it with the node in front that followed the first one. Then it reads the thread of the
/// node that was in front, marks that node, and wakes that thread.
pub open spec fn releases_rightly(log: Seq<(Access, Reply)>) -> bool {
    let before = log.drop_last();
    match log.last().0 {
        Access::LoadState => made(before) <= 1 && (before.len() == 0 || before.last().1 is Swapped
            || spins(before) == 10),
        Access::CompareExchange { expected, new } => known(before) == Some(expected) && if made(
            before,
        ) == 0 {
            new == expected - expected % 2
        } else if made(before) == 1 {
            expected % 4 < 2 && new == expected + 2
        } else {
            made(before) == 2 && new == second(before) + expected % 2
        },
        Access::SpinLoop => made(before) == 1 && known(before) is Some && known(before)->0 % 4 >= 2
            && spins(before) < 10,
        Access::LoadNext { node } => made(before) == 2 && node != 0 && before.len() > 0
            && before.last().1 is Swapped && node == before.last().0->expected
            - before.last().0->expected % 4,
        Access::ReadThread { node } => made(before) == 3 && front(before) == Some(node)
            && before.len() > 0 && before.last().1 is Swapped,
        Access::Mark { node } => before.len() > 0 && before.last().0 == (Access::ReadThread {
            node,
        }),
        Access::Unpark { thread } => log.len() > 2 && back(log, 2).0 is Mark && back(log, 3) == (
            Access::ReadThread { node: back(log, 2).0->Mark_node },
            Reply::Thread { thread },
        ),
        Access::Finished => true,
        _ => false,
    }
}

/// What is known of a release under way.
spec fn release_stands(op: ReleaseOp, log: Seq<(Access, Reply)>) -> bool {
    (front(log) is None ==> second(log) == 0) && match op {
        ReleaseOp::Load => made(log) == 0 && front(log) is None && log.len() == 0,
        ReleaseOp::Exchange { state } => made(log) == 0 && front(log) is None && known(log) == Some(
            state,
        ),
        ReleaseOp::LoadQueue => made(log) == 1 && freed(log) >= 4 && front(log) is None && log.len()
            > 0 && (log.last().1 is Swapped || spins(log) == 10),
        ReleaseOp::Spin { turns } => made(log) == 1 && freed(log) >= 4 && front(log) is None
            && known(log) is Some && known(log)->0 % 4 >= 2 && 0 < turns && spins(log) + turns
            == 10,
        ReleaseOp::LockQueue { state } => made(log) == 1 && freed(log) >= 4 && front(log) is None
            && known(log) == Some(state) && state % 4 < 2,
        ReleaseOp::ReadNext { head, state } => made(log) == 2 && freed(log) >= 4 && front(log)
            is None && known(log) == Some(state) && head != 0 && log.len() > 0 && log.last().1
            is Swapped && head == log.last().0->expected - log.last().0->expected % 4,
        ReleaseOp::Publish { head, next, state } => made(log) == 2 && freed(log) >= 4 && known(log)
            == Some(state) && next % 4 == 0 && next == second(log) && if head == 0 {
            front(log) is None
        } else {
            front(log) == Some(head)
        },
        ReleaseOp::ReadThread { head } => made(log) == 3 && freed(log) >= 4 && front(log) == Some(
            head,
        ) && log.len() > 0 && log.last().1 is Swapped,
        ReleaseOp::Mark { head, thread } => made(log) == 3 && freed(log) >= 4 && front(log) is Some
            && log.len() > 0 && log.last() == (
            Access::ReadThread { node: head },
            Reply::Thread { thread },
        ),
        ReleaseOp::Wake { thread } => made(log) == 3 && freed(log) >= 4 && front(log) is Some
            && log.len() > 1 && log.last().0 is Mark && back(log, 2) == (
            Access::ReadThread { node: log.last().0->Mark_node },
            Reply::Thread { thread },
        ),
        ReleaseOp::Done => if freed(log) < 4 {
            made(log) == 1 && front(log) is None
        } else {
            made(log) == 3
        },
    }
}

/// How many nodes a release has marked, and how many threads it has woken, up to where it stands.
spec fn calls_stand(op: ReleaseOp, log: Seq<(Access, Reply)>) -> bool {
    let called = if front(log) is Some {
        1nat
    } else {
        0
    };
    match op {
        ReleaseOp::Wake { .. } => marks(log) == 1 && wakes(log) == 0,
        ReleaseOp::Done => marks(log) == called && wakes(log) == called,
        _ => marks(log) == 0 && wakes(log) == 0,
    }
}

/// What the words are that a release is about to write, in numbers.
proof fn release_in_numbers(op: ReleaseOp)
    requires
        op.wf(),
    ensures
        match op {
            ReleaseOp::Exchange { state } => op.next_access() == (Access::CompareExchange {
                expected: state,
                new: (state - state % 2) as usize,
            }),
            ReleaseOp::LockQueue { state } => state % 4 < 2 ==> op.next_access()
                == (Access::CompareExchange { expected: state, new: (state + 2) as usize }) && state
                + 2 <= usize::MAX && compose(address(state), is_locked(state), true) == state + 2,
            ReleaseOp::Publish { next, state, .. } => op.next_access() == (
            Access::CompareExchange { expected: state, new: (next + state % 2) as usize }) && next
                + state % 2 <= usize::MAX,
            _ => true,
        },
{
    match op {
        ReleaseOp::Exchange { state } => {
            flags_in_numbers(state);
        },
        ReleaseOp::LockQueue { state } => {
            flags_in_numbers(state);
        },
        ReleaseOp::Publish { next, state, .. } => {
            node_words_in_numbers(next, state % 2 == 1);
            flags_in_numbers(next);
        },
        _ => {},
    }
}

/// An access of a release is right by what is known of it.
proof fn release_is_right(op: ReleaseOp, log: Seq<(Access, Reply)>)
    requires
        log.len() > 0,
        release_stands(op, log.drop_last()),
        log.last().0 == op.next_access(),
        lock_fits(log.last().0, log.last().1),
    ensures
        releases_rightly(log),
{
    let before = log.drop_last();
    assert(before.len() > 0 ==> back(log, 2) == before.last());
    assert(before.len() > 1 ==> back(log, 3) == back(before, 2));
    release_in_numbers(op);
}

/// What one access adds to what is known of a release.
proof fn release_goes_on(op: ReleaseOp, log: Seq<(Access, Reply)>)
    requires
        log.len() > 0,
        release_stands(op, log.drop_last()),
        log.last().0 == op.next_access(),
        lock_fits(log.last().0, log.last().1),
    ensures
        release_stands(op.after(log.last().1), log),
{
    let before = log.drop_last();
    assert(before.len() > 0 ==> back(log, 2) == before.last());
    release_in_numbers(op);
}

/// What one access adds to the counts of a release.
proof fn release_counts(op: ReleaseOp, log: Seq<(Access, Reply)>)
    requires
        log.len() > 0,
        release_stands(op, log.drop_last()),
        log.last().0 == op.next_access(),
        lock_fits(log.last().0, log.last().1),
    ensures
        lock_change(log) == lock_change(log.drop_last()) - (if op is Exchange && log.last().1
            is Swapped {
            log.last().0->expected % 2
        } else {
            0
        }),
        nodes_kept(log) == nodes_kept(log.drop_last()),
{
    release_in_numbers(op);
}

/// A release clears the lock bit with the first exchange that it makes, and changes that bit by no
/// other. It ends there exactly if that exchange left no node in the state word. Otherwise it takes
/// the first node that it then finds out of the queue, marks it and wakes its thread, once; only if
/// it finds none does it wake none.
pub proof fn release_frees_the_mutex(ops: Seq<ReleaseOp>, log: Seq<(Access, Reply)>)
    requires
        is_release(ops, log),
    ensures
        ops.last() is Done ==> made(log) == (if freed(log) < 4 {
            1int
        } else {
            3
        }),
        made(log) == 1 && freed(log) < 4 ==> ops.last() is Done,
        made(log) >= 1 ==> freed(log) % 2 == 0,
        ops.last() is Done ==> marks(log) == wakes(log) && wakes(log) == (if front(log) is Some {
            1nat
        } else {
            0
        }),
        wakes(log) == 1 ==> ops.last() is Done,
        nodes_kept(log) == 0,
        -1 <= lock_change(log) <= 0,
        forall|i: int| 0 < i <= log.len() ==> #[trigger] releases_rightly(log.take(i)),
{
    release_so_far(ops, log);
}

proof fn release_so_far(ops: Seq<ReleaseOp>, log: Seq<(Access, Reply)>)
    requires
        is_release(ops, log),
    ensures
        release_stands(ops.last(), log),
        calls_stand(ops.last(), log),
        nodes_kept(log) == 0,
        -1 <= lock_change(log) <= 0,
        made(log) == 0 ==> lock_change(log) == 0,
        made(log) >= 1 ==> freed(log) % 2 == 0,
        forall|i: int| 0 < i <= log.len() ==> #[trigger] releases_rightly(log.take(i)),
    decreases log.len(),
{
    if log.len() > 0 {
        let before = log.drop_last();
        let op = ops.drop_last().last();
        call_so_far(
            ops,
            log,
            ReleaseOp::Load,
            |op: ReleaseOp| op.next_access(),
            |access: Access, reply: Reply| lock_fits(access, reply),
            |op: ReleaseOp, reply: Reply| op.after(reply),
        );
        release_so_far(ops.drop_last(), before);
        release_is_right(op, log);
        release_goes_on(op, log);
        release_counts(op, log);
        if let ReleaseOp::Exchange { state } = op {
            flags_in_numbers(state);
        }
        assert forall|i: int| 0 < i <= log.len() implies #[trigger] releases_rightly(
            log.take(i),
        ) by {
            if i < log.len() {
                assert(log.take(i) =~= before.take(i));
            } else {
                assert(log.take(i) =~= log);
            }
        }
    }
}

/// The memory and an acquisition after some steps of its thread, with no step of another in
/// between.
pub open spec fn acquisition_alone(
    memory: MemoryView,
    op: AcquireOp,
    thread: u64,
    fresh: usize,
    steps: nat,
) -> (MemoryView, AcquireOp)
    decreases steps,
{
    if steps == 0 {
        (memory, op)
    } else {
        let access = op.next_access(thread);
        acquisition_alone(
            memory.effect(access, fresh),
            op.after(memory.reply(access, fresh)),
            thread,
            fresh,
            (steps - 1) as nat,
        )
    }
}

/// A thread that is alone takes a free mutex without getting a node.
pub proof fn acquiring_alone_takes_a_free_mutex(memory: MemoryView, thread: u64, fresh: usize)
    requires
        memory.state % 2 == 0,
    ensures
        exists|n: nat| #[trigger]
            acquisition_alone(memory, AcquireOp::Load, thread, fresh, n) == (
                MemoryView { state: (memory.state + 1) as usize, ..memory },
                AcquireOp::Held,
            ) && memory.state < usize::MAX,
{
    flags_in_numbers(memory.state);
    reveal_with_fuel(acquisition_alone, 3);
    assert(acquisition_alone(memory, AcquireOp::Load, thread, fresh, 2) == (
        MemoryView { state: (memory.state + 1) as usize, ..memory },
        AcquireOp::Held,
    ));
}

/// Some steps and then some more.
proof fn acquisition_alone_goes_on(
    memory: MemoryView,
    op: AcquireOp,
    thread: u64,
    fresh: usize,
    n: nat,
    m: nat,
)
    ensures
        ({
            let mid = acquisition_alone(memory, op, thread, fresh, n);
            acquisition_alone(memory, op, thread, fresh, n + m) == acquisition_alone(
                mid.0,
                mid.1,
                thread,
                fresh,
                m,
            )
        }),
    decreases n,
{
    if n > 0 {
        let access = op.next_access(thread);
        acquisition_alone_goes_on(
            memory.effect(access, fresh),
            op.after(memory.reply(access, fresh)),
            thread,
            fresh,
            (n - 1) as nat,
            m,
        );
    }
}

/// A thread that has the queue for itself finds the last node.
proof fn last_node_is_found(
    memory: MemoryView,
    path: Seq<usize>,
    k: int,
    thread: u64,
    node: usize,
    state: usize,
) -> (n: nat)
    requires
        is_chain(memory.nodes, path[0], path),
        0 <= k < path.len(),
    ensures
        acquisition_alone(
            memory,
            AcquireOp::FindTail { node, state, tail: path[k] },
            thread,
            node,
            n,
        ) == (memory, AcquireOp::Append { node, state, tail: path.last() }),
    decreases path.len() - k,
{
    let op = AcquireOp::FindTail { node, state, tail: path[k] };
    assert(memory.nodes[path[k]].link() == after(path, k));
    reveal_with_fuel(acquisition_alone, 2);
    if k + 1 < path.len() {
        assert(path[k + 1] != 0);
        let n = last_node_is_found(memory, path, k + 1, thread, node, state);
        n + 1
    } else {
        1
    }
}

/// A thread that finds the mutex taken and is alone comes to have the queue for itself.
proof fn queue_is_locked(memory: MemoryView, path: Seq<usize>, thread: u64, fresh: usize)
    requires
        memory.state % 4 == 1,
        is_chain(memory.nodes, (memory.state - 1) as usize, path),
    ensures
        memory.state + 2 <= usize::MAX,
        acquisition_alone(memory, AcquireOp::Load, thread, fresh, 4) == (
            MemoryView {
                state: (memory.state + 2) as usize,
                nodes: memory.nodes.insert(
                    fresh,
                    QueueNode { thread, next: 0, marked: false },
                ),
            },
            if path.len() == 0 {
                AcquireOp::Enter { node: fresh, state: (memory.state + 2) as usize }
            } else {
                AcquireOp::FindTail {
                    node: fresh,
                    state: (memory.state + 2) as usize,
                    tail: path[0],
                }
            },
        ),
{
    flags_in_numbers(memory.state);
    flags_in_numbers((memory.state + 2) as usize);
    reveal_with_fuel(acquisition_alone, 5);
    if path.len() > 0 {
        assert(path[0] != 0);
    }
}

/// A thread that finds the mutex taken and is alone comes to sleep behind all that wait. The mutex
/// stays taken, and every other node is as it was but for the link of the last one.
pub proof fn acquiring_alone_joins_the_queue(
    memory: MemoryView,
    path: Seq<usize>,
    thread: u64,
    fresh: usize,
)
    requires
        memory.state % 4 == 1,
        is_chain(memory.nodes, (memory.state - 1) as usize, path),
        memory.is_fresh(fresh),
    ensures
        exists|n: nat|
            {
                let end = #[trigger] acquisition_alone(memory, AcquireOp::Load, thread, fresh, n);
                &&& end.1 == (AcquireOp::Park { node: fresh })
                &&& end.0.state % 4 == 1
                &&& is_chain(end.0.nodes, (end.0.state - 1) as usize, path.push(fresh))
                &&& threads_along(end.0.nodes, path.push(fresh)) == threads_along(
                    memory.nodes,
                    path,
                ).push(thread)
                &&& end.0.nodes.dom() == memory.nodes.dom().insert(fresh)
                &&& !end.0.nodes[fresh].marked
                &&& forall|a: usize| #[trigger]
                    memory.nodes.contains_key(a) ==> end.0.nodes[a].marked
                        == memory.nodes[a].marked
            },
{
    let word = memory.state;
    let begin = AcquireOp::Load;
    let nodes = memory.nodes.insert(fresh, QueueNode { thread, next: 0, marked: false });
    let busy = MemoryView { state: (word + 2) as usize, nodes };
    let post = enqueued(memory, path, thread, fresh);
    queue_is_locked(memory, path, thread, fresh);
    joining_puts_last(memory, path, thread, fresh);
    flags_in_numbers(word);
    flags_in_numbers(busy.state);
    if path.len() == 0 {
        node_words_in_numbers(fresh, true);
        let empty = AcquireOp::Enter { node: fresh, state: busy.state };
        assert(acquisition_alone(busy, empty, thread, fresh, 1) == (
            post,
            AcquireOp::Park { node: fresh },
        )) by {
            reveal_with_fuel(acquisition_alone, 4);
            assert(busy.nodes.insert(fresh, busy.nodes[fresh]) =~= post.nodes);
        }
        acquisition_alone_goes_on(memory, begin, thread, fresh, 4, 1);
        let end = acquisition_alone(memory, begin, thread, fresh, 4 + 1);
        assert(end.0.nodes.dom() =~= memory.nodes.dom().insert(fresh));
    } else {
        assert(path[0] != 0);
        node_words_in_numbers(path[0], true);
        assert forall|i: int| 0 <= i < path.len() implies nodes.contains_key(#[trigger] path[i])
            && nodes[path[i]].link() == memory.nodes[path[i]].link() by {
            assert(memory.nodes.contains_key(path[i]));
        }
        chain_frame(memory.nodes, nodes, path[0], path);
        let n = last_node_is_found(busy, path, 0, thread, fresh, busy.state);
        assert(memory.nodes.contains_key(path.last()));
        let found = AcquireOp::Append { node: fresh, state: busy.state, tail: path.last() };
        assert(acquisition_alone(busy, found, thread, fresh, 2) == (
            post,
            AcquireOp::Park { node: fresh },
        )) by {
            reveal_with_fuel(acquisition_alone, 3);
            assert(busy.nodes.insert(
                path.last(),
                QueueNode { next: fresh, ..busy.nodes[path.last()] },
            ) =~= post.nodes);
        }
        acquisition_alone_goes_on(memory, begin, thread, fresh, 4, n);
        acquisition_alone_goes_on(memory, begin, thread, fresh, 4 + n, 2);
        let end = acquisition_alone(memory, begin, thread, fresh, 4 + n + 2);
        assert(end.0.nodes.dom() =~= memory.nodes.dom().insert(fresh));
    }
}

/// The memory and a release after some steps of its thread, with no step of another in between.
pub open spec fn release_alone(memory: MemoryView, op: ReleaseOp, steps: nat) -> (
    MemoryView,
    ReleaseOp,
)
    decreases steps,
{
    if steps == 0 {
        (memory, op)
    } else {
        let access = op.next_access();
        release_alone(
            memory.effect(access, 0),
            op.after(memory.reply(access, 0)),
            (steps - 1) as nat,
        )
    }
}

/// Some steps and then some more.
proof fn release_alone_goes_on(memory: MemoryView, op: ReleaseOp, n: nat, m: nat)
    ensures
        ({
            let mid = release_alone(memory, op, n);
            release_alone(memory, op, n + m) == release_alone(mid.0, mid.1, m)
        }),
    decreases n,
{
    if n > 0 {
        let access = op.next_access();
        release_alone_goes_on(
            memory.effect(access, 0),
            op.after(memory.reply(access, 0)),
            (n - 1) as nat,
            m,
        );
    }
}

/// A thread that has freed the mutex takes the first node out of the queue.
proof fn first_node_is_called(memory: MemoryView)
    requires
        memory.state % 4 == 0,
        memory.state > 0,
        memory.nodes[memory.state].next % 4 == 0,
    ensures
        release_alone(memory, ReleaseOp::LoadQueue, 7) == (
            MemoryView {
                state: memory.nodes[memory.state].next,
                nodes: memory.nodes.insert(
                    memory.state,
                    QueueNode { marked: true, ..memory.nodes[memory.state] },
                ),
            },
            ReleaseOp::Done,
        ),
{
    let head = memory.state;
    let next = memory.nodes[head].next;
    let busy = MemoryView { state: (head + 2) as usize, ..memory };
    flags_in_numbers(head);
    node_words_in_numbers(next, false);
    assert(release_alone(memory, ReleaseOp::LoadQueue, 3) == (
        busy,
        ReleaseOp::Publish { head, next, state: busy.state },
    )) by {
        reveal_with_fuel(release_alone, 4);
    }
    let open = MemoryView { state: next, ..memory };
    assert(release_alone(busy, ReleaseOp::Publish { head, next, state: busy.state }, 1) == (
        open,
        ReleaseOp::ReadThread { head },
    )) by {
        reveal_with_fuel(release_alone, 2);
    }
    assert(release_alone(open, ReleaseOp::ReadThread { head }, 3) == (
        open.effect(Access::Mark { node: head }, 0),
        ReleaseOp::Done,
    )) by {
        reveal_with_fuel(release_alone, 4);
    }
    release_alone_goes_on(memory, ReleaseOp::LoadQueue, 3, 1);
    release_alone_goes_on(memory, ReleaseOp::LoadQueue, 4, 3);
}

/// A thread that lets go alone leaves the mutex free. If nobody waits that is all that changes;
/// otherwise the first node is out of the queue and marked.
pub proof fn releasing_alone_frees_the_mutex(memory: MemoryView)
    requires
        memory.state % 2 == 1,
        memory.state > 3 ==> memory.state % 4 == 1 && memory.nodes[(memory.state
            - 1) as usize].next % 4 == 0,
    ensures
        exists|n: nat|
            {
                let end = #[trigger] release_alone(memory, ReleaseOp::Load, n);
                let head = (memory.state - 1) as usize;
                &&& end.1 is Done
                &&& memory.state <= 3 ==> end.0 == (MemoryView { state: head, ..memory })
                &&& memory.state > 3 ==> end.0 == (MemoryView {
                    state: memory.nodes[head].next,
                    nodes: memory.nodes.insert(
                        head,
                        QueueNode { marked: true, ..memory.nodes[head] },
                    ),
                })
            },
{
    let word = memory.state;
    let head = (word - 1) as usize;
    let free = MemoryView { state: head, ..memory };
    flags_in_numbers(word);
    assert(release_alone(memory, ReleaseOp::Load, 2) == (
        free,
        if word <= 3 {
            ReleaseOp::Done
        } else {
            ReleaseOp::LoadQueue
        },
    )) by {
        reveal_with_fuel(release_alone, 3);
    }
    if word > 3 {
        first_node_is_called(free);
        release_alone_goes_on(memory, ReleaseOp::Load, 2, 7);
    }
}

/// A reply that does not belong to the access leaves a call where it is, and one that has ended
/// stays so whatever comes.
pub proof fn stray_replies_do_nothing(
    attempt: TryLockOp,
    acquisition: AcquireOp,
    release: ReleaseOp,
    thread: u64,
    reply: Reply,
)
    ensures
        attempt is Done || !belongs(attempt.next_access(), reply) ==> attempt.after(reply)
            == attempt,
        acquisition is Held || !belongs(acquisition.next_access(thread), reply)
            ==> acquisition.after(reply) == acquisition,
        release is Done || !belongs(release.next_access(), reply) ==> release.after(reply)
            == release,
{
}

} // verus!
