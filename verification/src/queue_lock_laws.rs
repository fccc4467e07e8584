//! What every interleaving of threads on a queue-based lock keeps, and what calls one after the
//! other do.

use crate::chain::{after, chain_frame, chain_push_back, chain_tail, is_chain, Linked};
use crate::lock_memory::{threads_along, MemoryView, QueueNode};
use crate::queue_lock::{enqueued, released, successor, taken, LockOp};
use crate::queue_lock_steps::{is_lock_execution, order_holds_throughout};
use crate::queue_lock_system::{hands_over, locks_queue, sleep_node, Activity, LockSystem};
use crate::word::{
    address, compose_is_faithful, is_aligned, is_locked, is_queue_locked, word_is_composed,
};
use vstd::prelude::*;

verus! {

/// Mutual exclusion: in no interleaving does the lock belong to two threads at a time.
pub proof fn lock_belongs_to_one_thread(states: Seq<LockSystem>, i: int, t: u64, u: u64)
    requires
        is_lock_execution(states),
        0 <= i < states.len(),
        states[i].owns(t),
        states[i].owns(u),
    ensures
        t == u,
{
    order_holds_throughout(states, i);
}

/// The two flags tell the truth: the lock bit is set exactly while the lock belongs to a thread,
/// and the queue bit exactly while a thread has the queue for itself.
pub proof fn flags_tell_the_truth(states: Seq<LockSystem>, i: int)
    requires
        is_lock_execution(states),
        0 <= i < states.len(),
    ensures
        is_locked(states[i].memory.state) <==> states[i].is_owned(),
        is_queue_locked(states[i].memory.state) <==> exists|t: u64|
            locks_queue(#[trigger] states[i].activity(t)),
{
    order_holds_throughout(states, i);
}

/// First come, first served: the threads that the lock was handed to are the first of those
/// that entered the queue, in the same order, and the others are still in the queue.
pub proof fn first_come_first_served(states: Seq<LockSystem>, i: int)
    requires
        is_lock_execution(states),
        0 <= i < states.len(),
    ensures
        states[i].arrived == states[i].served + states[i].waiting(),
        states[i].served.is_prefix_of(states[i].arrived),
        is_chain(states[i].memory.nodes, address(states[i].memory.state), states[i].path),
{
    order_holds_throughout(states, i);
    let s = states[i];
    assert(s.served =~= s.arrived.subrange(0, s.served.len() as int));
}

/// Threads that have arrived stay so, and in the same order.
proof fn arrivals_stay(states: Seq<LockSystem>, i: int, j: int)
    requires
        is_lock_execution(states),
        0 <= i <= j < states.len(),
    ensures
        states[i].arrived.len() <= states[j].arrived.len(),
        forall|k: int|
            0 <= k < states[i].arrived.len() ==> states[j].arrived[k] == states[i].arrived[k],
    decreases j - i,
{
    if i < j {
        arrivals_stay(states, i, j - 1);
        let next = |s: LockSystem, post: LockSystem| s.next(post);
        assert(next(states[j - 1], states[j]));
    }
}

/// Every thread in the queue has its turn: the one at place `k` is the next to have the lock
/// when the lock has been handed over `k` times since.
pub proof fn every_thread_has_its_turn(states: Seq<LockSystem>, i: int, j: int, k: int)
    requires
        is_lock_execution(states),
        0 <= i <= j < states.len(),
        0 <= k < states[i].waiting().len(),
        states[j].served.len() > states[i].served.len() + k,
    ensures
        states[j].served[states[i].served.len() + k] == states[i].waiting()[k],
{
    order_holds_throughout(states, i);
    order_holds_throughout(states, j);
    arrivals_stay(states, i, j);
    let place = states[i].served.len() + k;
    assert(states[i].arrived[place] == states[i].waiting()[k]);
    assert(states[j].arrived[place] == states[j].served[place]);
}

/// No waiting thread is lost: its node is in the queue, or the lock was handed over to it, or
/// another thread is about to do so.
pub proof fn no_waiting_thread_is_lost(states: Seq<LockSystem>, i: int, t: u64, node: usize)
    requires
        is_lock_execution(states),
        0 <= i < states.len(),
        sleep_node(states[i].activity(t)) == Some(node),
    ensures
        states[i].path.contains(node) || states[i].is_granted(t) || states[i].is_target(node),
        states[i].memory.nodes.contains_key(node),
        states[i].memory.nodes[node].thread == t,
{
    order_holds_throughout(states, i);
    assert(states[i].thread_inv(t));
}

/// No wake-up is lost: a thread that sleeps though the lock was handed over to it was unparked,
/// or another thread is about to unpark it.
pub proof fn no_wake_up_is_lost(states: Seq<LockSystem>, i: int, t: u64, node: usize)
    requires
        is_lock_execution(states),
        0 <= i < states.len(),
        states[i].activity(t) == Activity::Locking(LockOp::Park { node }),
        states[i].is_granted(t),
    ensures
        states[i].tokens.contains(t) || states[i].is_being_woken(t),
{
    order_holds_throughout(states, i);
    assert(states[i].thread_inv(t));
}

/// Nobody waits for a free lock: while a thread sleeps, the lock belongs to a thread, and to one
/// that is awake, was unparked or is about to be.
pub proof fn nobody_waits_for_a_free_lock(
    states: Seq<LockSystem>,
    i: int,
    t: u64,
    node: usize,
)
    requires
        is_lock_execution(states),
        0 <= i < states.len(),
        sleep_node(states[i].activity(t)) == Some(node),
    ensures
        is_locked(states[i].memory.state),
        exists|u: u64| #[trigger]
            states[i].owns(u) && (states[i].activity(u) matches Activity::Locking(
                LockOp::Park { .. },
            ) ==> states[i].tokens.contains(u) || states[i].is_being_woken(u)),
{
    order_holds_throughout(states, i);
    let s = states[i];
    assert(s.thread_inv(t));
    assert(s.is_owned()) by {
        if s.path.contains(node) {
            assert(s.path.len() > 0);
        } else if s.is_target(node) {
            let r = choose|r: u64| #[trigger] hands_over(s.activity(r), node);
            assert(s.owns(r));
        } else {
            assert(s.owns(t));
        }
    }
    let u = choose|u: u64| s.owns(u);
    assert(s.thread_inv(u));
}

/// Every thread finishes: where no thread can go on, because each is idle or sleeps and was not
/// unparked, no thread sleeps.
pub proof fn lock_at_rest_has_no_sleeper(states: Seq<LockSystem>, i: int, t: u64)
    requires
        is_lock_execution(states),
        0 <= i < states.len(),
        forall|u: u64| #[trigger]
            states[i].activity(u) is Idle || (states[i].activity(u) matches Activity::Locking(
                LockOp::Park { .. },
            ) && !states[i].tokens.contains(u)),
    ensures
        states[i].activity(t) is Idle,
{
    let s = states[i];
    if s.activity(t) !is Idle {
        nobody_waits_for_a_free_lock(states, i, t, s.activity(t)->Locking_0->Park_node);
        let u = choose|u: u64| #[trigger]
            s.owns(u) && (s.activity(u) matches Activity::Locking(LockOp::Park { .. })
                ==> s.tokens.contains(u) || s.is_being_woken(u));
        assert(s.activity(u) == s.activity(u));
    }
}

/// No thread touches a node that was given back: every access that comes next is one to a node
/// in use.
pub proof fn accesses_touch_nodes_in_use(states: Seq<LockSystem>, i: int, t: u64)
    requires
        is_lock_execution(states),
        0 <= i < states.len(),
    ensures
        match states[i].activity(t) {
            Activity::Idle => true,
            Activity::Locking(op) => states[i].memory.admits(op.next_access(t)),
            Activity::Unlocking(op) => states[i].memory.admits(op.next_access()),
        },
{
    order_holds_throughout(states, i);
    let s = states[i];
    assert(s.thread_inv(t));
    assert forall|a: usize| #[trigger] s.path.contains(a) implies s.memory.nodes.contains_key(
        a,
    ) by {
        let k = choose|k: int| 0 <= k < s.path.len() && s.path[k] == a;
        assert(s.memory.nodes.contains_key(s.path[k]));
    }
    if s.path.len() > 0 {
        assert(s.path.contains(s.path[0]));
        assert(s.path.contains(s.path.last()));
    }
}

/// Letting go undoes taking: a free lock that nobody waits for is as it was after both, and no
/// thread is woken.
pub proof fn unlocking_undoes_locking(memory: MemoryView)
    requires
        memory.state == 0,
    ensures
        released(taken(memory)) == memory,
        successor(taken(memory)) is None,
{
    word_is_composed(0);
    compose_is_faithful(0, true, false);
}

/// A thread that joins the queue comes to stand behind all others.
pub proof fn enqueuing_puts_last(
    memory: MemoryView,
    path: Seq<usize>,
    thread: u64,
    node: usize,
)
    requires
        is_chain(memory.nodes, address(memory.state), path),
        memory.is_fresh(node),
    ensures
        ({
            let post = enqueued(memory, path, thread, node);
            &&& is_chain(post.nodes, address(post.state), path.push(node))
            &&& threads_along(post.nodes, path.push(node)) == threads_along(
                memory.nodes,
                path,
            ).push(thread)
            &&& is_locked(post.state)
            &&& !is_queue_locked(post.state)
            &&& post.nodes.dom() == memory.nodes.dom().insert(node)
            &&& post.nodes[node] == (QueueNode { thread, next: 0, marked: false })
            &&& forall|a: usize| #[trigger]
                memory.nodes.contains_key(a) ==> post.nodes[a] == if path.len() > 0 && a
                    == path.last() {
                    QueueNode { next: node, ..memory.nodes[a] }
                } else {
                    memory.nodes[a]
                }
        }),
{
    let post = enqueued(memory, path, thread, node);
    if path.len() > 0 {
        assert(memory.nodes.contains_key(path.last()));
    }
    assert(post.nodes.dom() =~= memory.nodes.dom().insert(node));
    let nodes = memory.nodes.insert(node, QueueNode { thread, next: 0, marked: false });
    let whole = path.push(node);
    word_is_composed(memory.state);
    assert(!path.contains(node));
    assert forall|i: int| 0 <= i < path.len() implies nodes.contains_key(#[trigger] path[i])
        && nodes[path[i]] == memory.nodes[path[i]] by {}
    chain_frame(memory.nodes, nodes, address(memory.state), path);
    if path.len() == 0 {
        compose_is_faithful(node, true, false);
        assert(nodes[whole[0]].link() == after(whole, 0));
    } else {
        compose_is_faithful(path[0], true, false);
        chain_push_back(nodes, address(memory.state), path, node, post.nodes[path.last()]);
    }
    assert(threads_along(post.nodes, whole) =~= threads_along(memory.nodes, path).push(thread));
}

/// The thread that the lock is handed to is the one that has waited longest, and the others
/// keep their places. That the link of its node leaves the flag bits free follows from
/// [`QueueBasedLock::nodes_are_usable`](crate::queue_lock::QueueBasedLock::nodes_are_usable).
pub proof fn release_serves_the_first(memory: MemoryView, path: Seq<usize>)
    requires
        is_chain(memory.nodes, address(memory.state), path),
        path.len() > 0,
        is_aligned(memory.nodes[path[0]].next),
    ensures
        successor(memory) == Some(threads_along(memory.nodes, path)[0]),
        is_chain(
            released(memory).nodes,
            address(released(memory).state),
            path.drop_first(),
        ),
        threads_along(released(memory).nodes, path.drop_first()) == threads_along(
            memory.nodes,
            path,
        ).drop_first(),
        is_locked(released(memory).state),
{
    let post = released(memory);
    let rest = path.drop_first();
    assert(path[0] != 0);
    compose_is_faithful(memory.nodes[path[0]].next, true, false);
    chain_tail(memory.nodes, address(memory.state), path);
    assert forall|i: int| 0 <= i < rest.len() implies post.nodes.contains_key(#[trigger] rest[i])
        && post.nodes[rest[i]] == memory.nodes[rest[i]] by {
        assert(rest[i] == path[i + 1]);
        assert(memory.nodes.contains_key(path[i + 1]));
        assert(path[i + 1] != path[0]);
    }
    chain_frame(memory.nodes, post.nodes, memory.nodes[path[0]].next, rest);
    assert(threads_along(post.nodes, rest) =~= threads_along(memory.nodes, path).drop_first());
}

} // verus!
