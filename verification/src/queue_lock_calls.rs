//! What one call on a queue-based lock does, whatever other threads do meanwhile, and what it comes
//! to when no other thread does anything.

use crate::chain::{after, chain_frame, is_chain, Linked};
use crate::execution::{call_so_far, is_call};
use crate::lock_calls::{
    back, belongs, flags_in_numbers, known, lock_change, lock_fits, made, marks,
    node_words_in_numbers, nodes_kept, own, turns_of_lock, wakes,
};
use crate::lock_memory::{threads_along, Access, MemoryView, QueueNode, Reply};
use crate::queue_lock::{enqueued, LockOp, UnlockOp};
use crate::queue_lock_laws::enqueuing_puts_last;
use vstd::prelude::*;

verus! {

/// One call of [`LockOp`] by a thread.
pub open spec fn is_locking(ops: Seq<LockOp>, log: Seq<(Access, Reply)>, thread: u64) -> bool {
    is_call(
        ops,
        log,
        LockOp::Begin,
        |op: LockOp| op.next_access(thread),
        |access: Access, reply: Reply| lock_fits(access, reply),
        |op: LockOp, reply: Reply| op.after(reply),
    )
}

/// Whether a call has found its node marked.
pub open spec fn was_handed_over(log: Seq<(Access, Reply)>) -> bool
    decreases log.len(),
{
    log.len() > 0 && (log.last().1 == (Reply::Marked { marked: true }) || was_handed_over(
        log.drop_last(),
    ))
}

/// The word that the call has found when it locked the queue; none while it has not, or has
/// unlocked it.
pub open spec fn locked_at(log: Seq<(Access, Reply)>) -> Option<usize>
    decreases log.len(),
{
    if log.len() == 0 {
        None
    } else {
        match log.last().0 {
            Access::CompareExchange { expected, .. } => if log.last().1 is Swapped {
                if expected % 2 == 1 {
                    Some(expected)
                } else {
                    None
                }
            } else {
                locked_at(log.drop_last())
            },
            Access::StoreState { .. } => None,
            _ => locked_at(log.drop_last()),
        }
    }
}

/// What the last access of a call to lock has to do with those before it.
///
/// The thread sets the lock bit where it is clear. Where it is set, the thread locks the queue,
/// puts its node behind the last one, and unlocks the queue, with its node in front if the queue
/// was empty. It looks at its node after it has slept, sleeps again only if it is not marked, and
/// gives it back only if it is or if the thread has set the lock bit itself.
pub open spec fn locks_rightly(log: Seq<(Access, Reply)>, thread: u64) -> bool {
    let before = log.drop_last();
    match log.last().0 {
        Access::LoadState => locked_at(before) is None && lock_change(before) == 0 && (before.len()
            == 0 || before.last().0 is NewNode || before.last().0 is SpinLoop || before.last().1
            is Observed),
        Access::CompareExchange { expected, new } => known(before) == Some(expected) && locked_at(
            before,
        ) is None && if expected % 2 == 0 {
            new == expected + 1 || own(before) is None && new == expected - expected % 4 + 1
        } else {
            own(before) is Some && expected % 4 == 1 && new == expected + 2
        },
        Access::NewNode { thread: t } => t == thread && own(before) is None && before.len() > 0
            && known(before) is Some && (known(before)->0 % 2 == 1 || before.last().1 is Observed),
        Access::LoadNext { node } => locked_at(before) is Some && node != 0 && before.len() > 0
            && match before.last().0 {
            Access::CompareExchange { expected, .. } => node == expected - expected % 4,
            Access::LoadNext { .. } => before.last().1 == (Reply::Next { next: node }),
            _ => false,
        },
        Access::StoreNext { node, next } => locked_at(before) is Some && before.len() > 0 && if next
            == 0 {
            own(before) == Some(node) && locked_at(before)->0 < 4
        } else {
            own(before) == Some(next) && before.last() == (
                Access::LoadNext { node },
                Reply::Next { next: 0 },
            )
        },
        Access::StoreState { word } => locked_at(before) is Some && before.len() > 0
            && before.last().0 is StoreNext && word == (if locked_at(before)->0 < 4 {
            own(before)->0 + 1
        } else {
            locked_at(before)->0 as int
        }),
        Access::Park => own(before) is Some && before.len() > 0 && (before.last().0 is StoreState
            || before.last().1 == (Reply::Marked { marked: false })),
        Access::ReadMark { node } => own(before) == Some(node) && before.len() > 0
            && before.last().0 is Park,
        Access::FreeNode { node } => own(before) == Some(node) && before.len() > 0 && (
        before.last() == (Access::ReadMark { node }, Reply::Marked { marked: true }) || (
        before.last().1 is Swapped && before.last().0->expected % 2 == 0)),
        Access::SpinLoop => own(before) is Some && known(before) is Some && known(before)->0 % 4
            == 3,
        Access::Finished => true,
        _ => false,
    }
}

/// What is known of a call to lock under way.
spec fn locking_stands(op: LockOp, log: Seq<(Access, Reply)>) -> bool {
    let waits = lock_change(log) == 0 && !was_handed_over(log);
    let free = locked_at(log) is None;
    match op {
        LockOp::Begin => log.len() == 0 && own(log) is None && waits && free,
        LockOp::TryFast { state } => own(log) is None && waits && free && known(log) == Some(state)
            && state % 2 == 0,
        LockOp::Allocate => own(log) is None && waits && free && log.len() > 0 && known(log) is Some
            && (known(log)->0 % 2 == 1 || log.last().1 is Observed),
        LockOp::Load { node } => own(log) == Some(node) && waits && free && log.len() > 0 && (
        log.last().0 is NewNode || log.last().0 is SpinLoop || log.last().1 is Observed),
        LockOp::Acquire { node, state } => own(log) == Some(node) && waits && free && known(log)
            == Some(state) && state % 2 == 0,
        LockOp::Discard { node } => own(log) == Some(node) && lock_change(log) == 1
            && !was_handed_over(log) && free && log.len() > 0 && log.last().1 is Swapped
            && log.last().0->expected % 2 == 0,
        LockOp::Spin { node } => own(log) == Some(node) && waits && free && known(log) is Some
            && known(log)->0 % 4 == 3,
        LockOp::LockQueue { node, state } => own(log) == Some(node) && waits && free && known(log)
            == Some(state) && state % 4 == 1,
        LockOp::ClearNext { node } => own(log) == Some(node) && waits && locked_at(log) is Some
            && locked_at(log)->0 < 4 && log.len() > 0,
        LockOp::FindTail { node, head, tail } => own(log) == Some(node) && waits && locked_at(log)
            is Some && head == locked_at(log)->0 - 1 && head % 4 == 0 && head != 0 && tail != 0
            && log.len() > 0 && match log.last().0 {
            Access::CompareExchange { expected, .. } => tail == expected - expected % 4,
            Access::LoadNext { .. } => log.last().1 == (Reply::Next { next: tail }),
            _ => false,
        },
        LockOp::Append { node, head, tail } => own(log) == Some(node) && waits && locked_at(log)
            is Some && head == locked_at(log)->0 - 1 && head % 4 == 0 && head != 0 && log.len() > 0
            && log.last() == (Access::LoadNext { node: tail }, Reply::Next { next: 0 }),
        LockOp::Publish { node, head } => own(log) == Some(node) && waits && locked_at(log) is Some
            && head % 4 == 0 && head == (if locked_at(log)->0 < 4 {
            node as int
        } else {
            locked_at(log)->0 - 1
        }) && log.len() > 0 && log.last().0 is StoreNext,
        LockOp::Park { node } => own(log) == Some(node) && waits && free && log.len() > 0 && (
        log.last().0 is StoreState || log.last().1 == (Reply::Marked { marked: false })),
        LockOp::Look { node } => own(log) == Some(node) && waits && free && log.len() > 0
            && log.last().0 is Park,
        LockOp::Leave { node } => own(log) == Some(node) && lock_change(log) == 0
            && was_handed_over(log) && free && log.len() > 0 && log.last() == (
            Access::ReadMark { node },
            Reply::Marked { marked: true },
        ),
        LockOp::Held => own(log) is None && free && (lock_change(log) == 1) != was_handed_over(log)
            && 0 <= lock_change(log) <= 1,
    }
}

/// The node that a call has leaves the flag bits of a state word free.
proof fn own_node_is_usable(ops: Seq<LockOp>, log: Seq<(Access, Reply)>, thread: u64)
    requires
        is_locking(ops, log, thread),
    ensures
        own(log) is Some ==> own(log)->0 != 0 && own(log)->0 % 4 == 0,
    decreases log.len(),
{
    if log.len() > 0 {
        call_so_far(
            ops,
            log,
            LockOp::Begin,
            |op: LockOp| op.next_access(thread),
            |access: Access, reply: Reply| lock_fits(access, reply),
            |op: LockOp, reply: Reply| op.after(reply),
        );
        own_node_is_usable(ops.drop_last(), log.drop_last(), thread);
    }
}

/// What one access adds to what is known of a call to lock.
proof fn locking_goes_on(op: LockOp, log: Seq<(Access, Reply)>, thread: u64)
    requires
        log.len() > 0,
        locking_stands(op, log.drop_last()),
        log.last().0 == op.next_access(thread),
        lock_fits(log.last().0, log.last().1),
        own(log.drop_last()) is Some ==> own(log.drop_last())->0 != 0 && own(log.drop_last())->0 % 4
            == 0,
    ensures
        locking_stands(op.after(log.last().1), log),
        locks_rightly(log, thread),
        turns_of_lock(log) - lock_change(log) == turns_of_lock(log.drop_last()) - lock_change(
            log.drop_last(),
        ),
        wakes(log) == wakes(log.drop_last()),
        marks(log) == marks(log.drop_last()),
        nodes_kept(log) - (if own(log) is Some {
            1int
        } else {
            0
        }) == nodes_kept(log.drop_last()) - (if own(log.drop_last()) is Some {
            1int
        } else {
            0
        }),
{
    match op {
        LockOp::TryFast { state } => {
            flags_in_numbers(state);
        },
        LockOp::Acquire { state, .. } => {
            flags_in_numbers(state);
        },
        LockOp::LockQueue { state, .. } => {
            flags_in_numbers(state);
        },
        LockOp::Publish { head, .. } => {
            node_words_in_numbers(head, true);
        },
        _ => {},
    }
}

/// A call to lock ends with the lock for one of two reasons: it has set the lock bit, or it has
/// found its node marked. It sets that bit once at the most, and by the end has given back every
/// node that it got.
pub proof fn locking_ends_with_the_lock(
    ops: Seq<LockOp>,
    log: Seq<(Access, Reply)>,
    thread: u64,
)
    requires
        is_locking(ops, log, thread),
    ensures
        ops.last() is Held <==> own(log) is None && (lock_change(log) == 1 || was_handed_over(log)),
        !(lock_change(log) == 1 && was_handed_over(log)),
        0 <= lock_change(log) == turns_of_lock(log) <= 1,
        nodes_kept(log) == (if own(log) is Some {
            1int
        } else {
            0
        }),
        wakes(log) == 0,
        marks(log) == 0,
        forall|i: int| 0 < i <= log.len() ==> #[trigger] locks_rightly(log.take(i), thread),
{
    locking_so_far(ops, log, thread);
}

proof fn locking_so_far(ops: Seq<LockOp>, log: Seq<(Access, Reply)>, thread: u64)
    requires
        is_locking(ops, log, thread),
    ensures
        locking_stands(ops.last(), log),
        lock_change(log) == turns_of_lock(log),
        nodes_kept(log) == (if own(log) is Some {
            1int
        } else {
            0
        }),
        wakes(log) == 0,
        marks(log) == 0,
        forall|i: int| 0 < i <= log.len() ==> #[trigger] locks_rightly(log.take(i), thread),
    decreases log.len(),
{
    if log.len() > 0 {
        let before = log.drop_last();
        call_so_far(
            ops,
            log,
            LockOp::Begin,
            |op: LockOp| op.next_access(thread),
            |access: Access, reply: Reply| lock_fits(access, reply),
            |op: LockOp, reply: Reply| op.after(reply),
        );
        locking_so_far(ops.drop_last(), before, thread);
        own_node_is_usable(ops.drop_last(), before, thread);
        locking_goes_on(ops.drop_last().last(), log, thread);
        assert forall|i: int| 0 < i <= log.len() implies #[trigger] locks_rightly(
            log.take(i),
            thread,
        ) by {
            if i < log.len() {
                assert(log.take(i) =~= before.take(i));
            } else {
                assert(log.take(i) =~= log);
            }
        }
    }
}

/// One call of [`UnlockOp`].
pub open spec fn is_unlocking(ops: Seq<UnlockOp>, log: Seq<(Access, Reply)>) -> bool {
    is_call(
        ops,
        log,
        UnlockOp::Load,
        |op: UnlockOp| op.next_access(),
        |access: Access, reply: Reply| lock_fits(access, reply),
        |op: UnlockOp, reply: Reply| op.after(reply),
    )
}

/// The word that the call has exchanged for another.
pub open spec fn exchanged(log: Seq<(Access, Reply)>) -> usize
    decreases log.len(),
{
    if log.len() == 0 {
        0
    } else if log.last().1 is Swapped {
        log.last().0->expected
    } else {
        exchanged(log.drop_last())
    }
}

/// What the last access of a call to unlock has to do with those before it.
///
/// The one exchange that it makes frees the lock if no node is in the state word, and locks the
/// queue otherwise. Then it reads the link and the thread of the first node, unlocks the queue with
/// the next node in front, marks the first node and wakes its thread.
pub open spec fn unlocks_rightly(log: Seq<(Access, Reply)>) -> bool {
    let before = log.drop_last();
    match log.last().0 {
        Access::LoadState => made(before) == 0 && (before.len() == 0 || before.last().0 is SpinLoop
            || before.last().1 is Observed),
        Access::CompareExchange { expected, new } => made(before) == 0 && known(before) == Some(
            expected,
        ) && expected % 4 < 2 && new == (if expected < 4 {
            0
        } else {
            expected + 2
        }),
        Access::SpinLoop => made(before) == 0 && known(before) is Some && known(before)->0 % 4 >= 2,
        Access::LoadNext { node } => before.len() > 0 && before.last().1 is Swapped && node != 0
            && node == exchanged(before) - exchanged(before) % 4,
        Access::ReadThread { node } => before.len() > 0 && before.last().0 == (Access::LoadNext {
            node,
        }),
        Access::StoreState { word } => log.len() > 2 && before.last().0 is ReadThread && back(
            log,
            3,
        ).0 is LoadNext && word == back(log, 3).1->next + 1,
        Access::Mark { node } => log.len() > 2 && before.last().0 is StoreState && back(log, 3).0
            == (Access::ReadThread { node }),
        Access::Unpark { thread } => log.len() > 3 && before.last().0 is Mark && back(log, 4) == (
            Access::ReadThread { node: before.last().0->Mark_node },
            Reply::Thread { thread },
        ),
        Access::Finished => true,
        _ => false,
    }
}

/// What is known of a call to unlock under way.
spec fn unlocking_stands(op: UnlockOp, log: Seq<(Access, Reply)>) -> bool {
    let served = made(log) == 1 && exchanged(log) >= 4;
    let called = marks(log) == 1;
    &&& (op is Wake || op is Done || marks(log) == 0)
    &&& (op is Done || wakes(log) == 0)
    &&& match op {
        UnlockOp::Load => made(log) == 0 && (log.len() == 0 || log.last().0 is SpinLoop
            || log.last().1 is Observed),
        UnlockOp::Release { state } => made(log) == 0 && known(log) == Some(state) && state < 2,
        UnlockOp::Spin => made(log) == 0 && known(log) is Some && known(log)->0 % 4 >= 2,
        UnlockOp::LockQueue { state } => made(log) == 0 && known(log) == Some(state) && state >= 4
            && state % 4 < 2,
        UnlockOp::ReadNext { head } => served && log.len() > 0 && log.last().1 is Swapped && head
            != 0 && head == exchanged(log) - exchanged(log) % 4,
        UnlockOp::ReadThread { head, next } => served && next % 4 == 0 && log.len() > 0
            && log.last() == (Access::LoadNext { node: head }, Reply::Next { next }),
        UnlockOp::Publish { head, next, thread } => served && next % 4 == 0 && log.len() > 1
            && log.last() == (Access::ReadThread { node: head }, Reply::Thread { thread }) && back(
            log,
            2,
        ) == (Access::LoadNext { node: head }, Reply::Next { next }),
        UnlockOp::Mark { head, thread } => served && log.len() > 1 && log.last().0 is StoreState
            && back(log, 2) == (Access::ReadThread { node: head }, Reply::Thread { thread }),
        UnlockOp::Wake { thread } => served && called && log.len() > 2 && log.last().0 is Mark
            && back(log, 3) == (
            Access::ReadThread { node: log.last().0->Mark_node },
            Reply::Thread { thread },
        ),
        UnlockOp::Done => made(log) == 1 && marks(log) == wakes(log) && wakes(log) == (if exchanged(
            log,
        ) < 4 {
            0nat
        } else {
            1
        }),
    }
}

/// What one access adds to what is known of a call to unlock.
proof fn unlocking_goes_on(op: UnlockOp, log: Seq<(Access, Reply)>)
    requires
        log.len() > 0,
        unlocking_stands(op, log.drop_last()),
        log.last().0 == op.next_access(),
        lock_fits(log.last().0, log.last().1),
    ensures
        unlocking_stands(op.after(log.last().1), log),
        unlocks_rightly(log),
        nodes_kept(log) == nodes_kept(log.drop_last()),
{
    let before = log.drop_last();
    assert(before.len() > 0 ==> back(log, 2) == before.last());
    assert(before.len() > 1 ==> back(log, 3) == back(before, 2));
    assert(before.len() > 2 ==> back(log, 4) == back(before, 3));
    match op {
        UnlockOp::LockQueue { state } => {
            flags_in_numbers(state);
        },
        UnlockOp::Publish { next, .. } => {
            node_words_in_numbers(next, true);
        },
        _ => {},
    }
}

/// A call to unlock makes one exchange. If it found no node in the state word, that frees the lock
/// and is all. If it found one, the call ends exactly when it has marked that node and woken its
/// thread, once.
pub proof fn unlocking_frees_or_hands_over(ops: Seq<UnlockOp>, log: Seq<(Access, Reply)>)
    requires
        is_unlocking(ops, log),
    ensures
        made(log) <= 1,
        ops.last() is Done <==> made(log) == 1 && (exchanged(log) < 4 || wakes(log) == 1),
        wakes(log) <= marks(log) <= 1,
        marks(log) == 1 ==> exchanged(log) >= 4,
        nodes_kept(log) == 0,
        forall|i: int| 0 < i <= log.len() ==> #[trigger] unlocks_rightly(log.take(i)),
{
    unlocking_so_far(ops, log);
}

proof fn unlocking_so_far(ops: Seq<UnlockOp>, log: Seq<(Access, Reply)>)
    requires
        is_unlocking(ops, log),
    ensures
        unlocking_stands(ops.last(), log),
        nodes_kept(log) == 0,
        forall|i: int| 0 < i <= log.len() ==> #[trigger] unlocks_rightly(log.take(i)),
    decreases log.len(),
{
    if log.len() > 0 {
        let before = log.drop_last();
        call_so_far(
            ops,
            log,
            UnlockOp::Load,
            |op: UnlockOp| op.next_access(),
            |access: Access, reply: Reply| lock_fits(access, reply),
            |op: UnlockOp, reply: Reply| op.after(reply),
        );
        unlocking_so_far(ops.drop_last(), before);
        unlocking_goes_on(ops.drop_last().last(), log);
        assert forall|i: int| 0 < i <= log.len() implies #[trigger] unlocks_rightly(
            log.take(i),
        ) by {
            if i < log.len() {
                assert(log.take(i) =~= before.take(i));
            } else {
                assert(log.take(i) =~= log);
            }
        }
    }
}

/// The memory and a call to lock after some steps of its thread, with no step of another in
/// between.
pub open spec fn locking_alone(
    memory: MemoryView,
    op: LockOp,
    thread: u64,
    fresh: usize,
    steps: nat,
) -> (MemoryView, LockOp)
    decreases steps,
{
    if steps == 0 {
        (memory, op)
    } else {
        let access = op.next_access(thread);
        locking_alone(
            memory.effect(access, fresh),
            op.after(memory.reply(access, fresh)),
            thread,
            fresh,
            (steps - 1) as nat,
        )
    }
}

/// A thread that is alone takes a free lock without getting a node.
pub proof fn locking_alone_takes_a_free_lock(memory: MemoryView, thread: u64, fresh: usize)
    requires
        memory.state % 4 == 0,
    ensures
        exists|n: nat| #[trigger]
            locking_alone(memory, LockOp::Begin, thread, fresh, n) == (
                MemoryView { state: (memory.state + 1) as usize, ..memory },
                LockOp::Held,
            ) && memory.state < usize::MAX,
{
    flags_in_numbers(memory.state);
    reveal_with_fuel(locking_alone, 3);
    assert(locking_alone(memory, LockOp::Begin, thread, fresh, 2) == (
        MemoryView { state: (memory.state + 1) as usize, ..memory },
        LockOp::Held,
    ));
}

/// Some steps and then some more.
proof fn locking_alone_goes_on(
    memory: MemoryView,
    op: LockOp,
    thread: u64,
    fresh: usize,
    n: nat,
    m: nat,
)
    ensures
        ({
            let mid = locking_alone(memory, op, thread, fresh, n);
            locking_alone(memory, op, thread, fresh, n + m) == locking_alone(
                mid.0,
                mid.1,
                thread,
                fresh,
                m,
            )
        }),
    decreases n,
{
    if n > 0 {
        let access = op.next_access(thread);
        locking_alone_goes_on(
            memory.effect(access, fresh),
            op.after(memory.reply(access, fresh)),
            thread,
            fresh,
            (n - 1) as nat,
            m,
        );
    }
}

/// A thread that has the queue for itself finds the last node.
proof fn last_node_is_found(
    memory: MemoryView,
    path: Seq<usize>,
    k: int,
    thread: u64,
    node: usize,
    head: usize,
) -> (n: nat)
    requires
        is_chain(memory.nodes, path[0], path),
        0 <= k < path.len(),
    ensures
        locking_alone(
            memory,
            LockOp::FindTail { node, head, tail: path[k] },
            thread,
            node,
            n,
        ) == (memory, LockOp::Append { node, head, tail: path.last() }),
    decreases path.len() - k,
{
    assert(memory.nodes[path[k]].link() == after(path, k));
    reveal_with_fuel(locking_alone, 2);
    if k + 1 < path.len() {
        assert(path[k + 1] != 0);
        let n = last_node_is_found(memory, path, k + 1, thread, node, head);
        n + 1
    } else {
        1
    }
}

/// A thread that finds the lock held and is alone comes to have the queue for itself.
proof fn queue_is_locked(memory: MemoryView, path: Seq<usize>, thread: u64, fresh: usize)
    requires
        memory.state % 4 == 1,
        is_chain(memory.nodes, (memory.state - 1) as usize, path),
    ensures
        memory.state + 2 <= usize::MAX,
        locking_alone(memory, LockOp::Begin, thread, fresh, 4) == (
            MemoryView {
                state: (memory.state + 2) as usize,
                nodes: memory.nodes.insert(
                    fresh,
                    QueueNode { thread, next: 0, marked: false },
                ),
            },
            if path.len() == 0 {
                LockOp::ClearNext { node: fresh }
            } else {
                LockOp::FindTail { node: fresh, head: path[0], tail: path[0] }
            },
        ),
{
    flags_in_numbers(memory.state);
    flags_in_numbers((memory.state + 2) as usize);
    reveal_with_fuel(locking_alone, 5);
    if path.len() > 0 {
        assert(path[0] != 0);
    }
}

/// A thread that finds the lock held and is alone comes to sleep behind all that wait. The lock
/// stays held, and no node is marked that was not.
pub proof fn locking_alone_joins_the_queue(
    memory: MemoryView,
    path: Seq<usize>,
    thread: u64,
    fresh: usize,
)
    requires
        memory.state % 4 == 1,
        is_chain(memory.nodes, (memory.state - 1) as usize, path),
        memory.is_fresh(fresh),
    ensures
        exists|n: nat|
            {
                let end = #[trigger] locking_alone(memory, LockOp::Begin, thread, fresh, n);
                &&& end.1 == (LockOp::Park { node: fresh })
                &&& end.0.state % 4 == 1
                &&& is_chain(end.0.nodes, (end.0.state - 1) as usize, path.push(fresh))
                &&& threads_along(end.0.nodes, path.push(fresh)) == threads_along(
                    memory.nodes,
                    path,
                ).push(thread)
                &&& end.0.nodes.dom() == memory.nodes.dom().insert(fresh)
                &&& !end.0.nodes[fresh].marked
                &&& forall|a: usize| #[trigger]
                    memory.nodes.contains_key(a) ==> end.0.nodes[a].marked
                        == memory.nodes[a].marked
            },
{
    let word = memory.state;
    let begin = LockOp::Begin;
    let nodes = memory.nodes.insert(fresh, QueueNode { thread, next: 0, marked: false });
    let busy = MemoryView { state: (word + 2) as usize, nodes };
    let post = enqueued(memory, path, thread, fresh);
    queue_is_locked(memory, path, thread, fresh);
    enqueuing_puts_last(memory, path, thread, fresh);
    flags_in_numbers(word);
    flags_in_numbers(busy.state);
    if path.len() == 0 {
        node_words_in_numbers(fresh, true);
        assert(locking_alone(busy, LockOp::ClearNext { node: fresh }, thread, fresh, 2) == (
            post,
            LockOp::Park { node: fresh },
        )) by {
            reveal_with_fuel(locking_alone, 4);
            assert(busy.nodes.insert(fresh, busy.nodes[fresh]) =~= post.nodes);
        }
        locking_alone_goes_on(memory, begin, thread, fresh, 4, 2);
        let end = locking_alone(memory, begin, thread, fresh, 4 + 2);
        assert(end.0.nodes.dom() =~= memory.nodes.dom().insert(fresh));
    } else {
        assert(path[0] != 0);
        node_words_in_numbers(path[0], true);
        assert forall|i: int| 0 <= i < path.len() implies nodes.contains_key(#[trigger] path[i])
            && nodes[path[i]].link() == memory.nodes[path[i]].link() by {
            assert(memory.nodes.contains_key(path[i]));
        }
        chain_frame(memory.nodes, nodes, path[0], path);
        let n = last_node_is_found(busy, path, 0, thread, fresh, path[0]);
        assert(memory.nodes.contains_key(path.last()));
        let found = LockOp::Append { node: fresh, head: path[0], tail: path.last() };
        assert(locking_alone(busy, found, thread, fresh, 2) == (
            post,
            LockOp::Park { node: fresh },
        )) by {
            reveal_with_fuel(locking_alone, 3);
            assert(busy.nodes.insert(
                path.last(),
                QueueNode { next: fresh, ..busy.nodes[path.last()] },
            ) =~= post.nodes);
        }
        locking_alone_goes_on(memory, begin, thread, fresh, 4, n);
        locking_alone_goes_on(memory, begin, thread, fresh, 4 + n, 2);
        let end = locking_alone(memory, begin, thread, fresh, 4 + n + 2);
        assert(end.0.nodes.dom() =~= memory.nodes.dom().insert(fresh));
    }
}

/// The memory and a call to unlock after some steps of its thread, with no step of another in
/// between.
pub open spec fn unlocking_alone(memory: MemoryView, op: UnlockOp, steps: nat) -> (
    MemoryView,
    UnlockOp,
)
    decreases steps,
{
    if steps == 0 {
        (memory, op)
    } else {
        let access = op.next_access();
        unlocking_alone(
            memory.effect(access, 0),
            op.after(memory.reply(access, 0)),
            (steps - 1) as nat,
        )
    }
}

/// A thread that lets go alone frees the lock if nobody waits. Otherwise the lock stays held, and
/// the first node is out of the queue and marked.
pub proof fn unlocking_alone_frees_or_hands_over(memory: MemoryView)
    requires
        memory.state % 4 == 1,
        memory.state > 3 ==> memory.nodes[(memory.state - 1) as usize].next % 4 == 0,
    ensures
        exists|n: nat|
            {
                let end = #[trigger] unlocking_alone(memory, UnlockOp::Load, n);
                let head = (memory.state - 1) as usize;
                &&& end.1 is Done
                &&& memory.state == 1 ==> end.0 == (MemoryView { state: 0, ..memory })
                &&& memory.state > 3 ==> end.0 == (MemoryView {
                    state: (memory.nodes[head].next + 1) as usize,
                    nodes: memory.nodes.insert(
                        head,
                        QueueNode { marked: true, ..memory.nodes[head] },
                    ),
                }) && memory.nodes[head].next < usize::MAX
            },
{
    let word = memory.state;
    let head = (word - 1) as usize;
    flags_in_numbers(word);
    reveal_with_fuel(unlocking_alone, 9);
    if word == 1 {
        let end = unlocking_alone(memory, UnlockOp::Load, 2);
        assert(end.1 is Done);
    } else {
        node_words_in_numbers(memory.nodes[head].next, true);
        flags_in_numbers(memory.nodes[head].next);
        let end = unlocking_alone(memory, UnlockOp::Load, 7);
        assert(end.1 is Done);
        assert(end.0.state == memory.nodes[head].next + 1);
    }
}

/// A reply that does not belong to the access leaves a call where it is, and one that has ended
/// stays so whatever comes.
pub proof fn stray_replies_do_nothing(
    locking: LockOp,
    unlocking: UnlockOp,
    thread: u64,
    reply: Reply,
)
    ensures
        locking is Held || !belongs(locking.next_access(thread), reply) ==> locking.after(reply)
            == locking,
        unlocking is Done || !belongs(unlocking.next_access(), reply) ==> unlocking.after(reply)
            == unlocking,
{
}

} // verus!
