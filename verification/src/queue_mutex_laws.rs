//! What every interleaving of threads on a queue-based mutex keeps, and what calls one after the
//! other do.

use crate::chain::{after, chain_frame, chain_push_back, chain_tail, is_chain, Linked};
use crate::execution::invariant_holds_throughout;
use crate::lock_calls::flags_in_numbers;
use crate::lock_memory::{threads_along, MemoryView, QueueNode};
use crate::queue_mutex::{
    dequeued, enqueued, released, successor, taken, AcquireOp, ReleaseOp, TryLockOp,
};
use crate::queue_mutex_steps::{
    is_mutex_execution, order_holds_throughout, start_is_in_order, step_keeps_order,
};
use crate::queue_mutex_system::{
    calls, locks_queue, sleep_node, Chance, MutexActivity, MutexSystem,
};
use crate::word::{
    address, compose_is_faithful, is_aligned, is_locked, is_queue_locked, word_is_composed,
};
use vstd::prelude::*;

verus! {

/// Mutual exclusion: in no interleaving do two threads hold the mutex at a time.
pub proof fn mutex_has_one_holder(states: Seq<MutexSystem>, i: int, t: u64, u: u64)
    requires
        is_mutex_execution(states),
        0 <= i < states.len(),
        states[i].holds(t),
        states[i].holds(u),
    ensures
        t == u,
{
    order_holds_throughout(states, i);
}

/// The two flags tell the truth: the lock bit is set exactly while a thread holds the mutex, and
/// the queue bit exactly while a thread has the queue for itself.
pub proof fn mutex_flags_tell_the_truth(states: Seq<MutexSystem>, i: int)
    requires
        is_mutex_execution(states),
        0 <= i < states.len(),
    ensures
        is_locked(states[i].memory.state) <==> states[i].is_held(),
        is_queue_locked(states[i].memory.state) <==> exists|t: u64|
            locks_queue(#[trigger] states[i].activity(t)),
{
    order_holds_throughout(states, i);
}

/// A thread that tries gives up only on a taken mutex: the step with which it does is made while
/// another thread holds the mutex, and changes nothing.
pub proof fn trying_gives_up_only_on_a_taken_mutex(states: Seq<MutexSystem>, i: int, t: u64)
    requires
        is_mutex_execution(states),
        0 <= i < states.len() - 1,
        states[i].activity(t) != MutexActivity::Trying(TryLockOp::Done { locked: false }),
        states[i + 1].activity(t) == MutexActivity::Trying(TryLockOp::Done { locked: false }),
    ensures
        states[i].memory.state % 2 == 1,
        exists|u: u64| u != t && #[trigger] states[i].holds(u),
        states[i + 1].memory == states[i].memory,
{
    order_holds_throughout(states, i);
    let s = states[i];
    let next = |s: MutexSystem, post: MutexSystem| s.next(post);
    assert(next(states[i], states[i + 1]));
    let (u, chance) = choose|u: u64, chance: Chance| #[trigger]
        s.can_step(u, chance) && states[i + 1] == s.step(u, chance);
    assert(u == t);
    assert(s.is_held());
    let holder = choose|u: u64| s.holds(u);
    assert(s.holds(holder));
    assert(s.thread_inv(t));
    flags_in_numbers(s.memory.state);
}

/// A thread that tries alone for a free mutex gets it: with no step of another thread in between,
/// and if its exchange does not fail for no reason, it holds the mutex after two steps, and only
/// the lock bit has changed.
pub proof fn trying_alone_ends_in_holding(
    states: Seq<MutexSystem>,
    i: int,
    t: u64,
    load: Chance,
    exchange: Chance,
)
    requires
        is_mutex_execution(states),
        0 <= i < states.len() - 2,
        states[i].activity(t) == MutexActivity::Trying(TryLockOp::Load),
        states[i + 1] == states[i].step(t, load),
        states[i + 2] == states[i + 1].step(t, exchange),
        !exchange.fails,
        states[i].memory.state % 2 == 0,
    ensures
        states[i + 2].activity(t) == MutexActivity::Trying(TryLockOp::Done { locked: true }),
        states[i + 2].holds(t),
        states[i + 2].memory.state == states[i].memory.state + 1,
        states[i + 2].memory.nodes == states[i].memory.nodes,
{
    flags_in_numbers(states[i].memory.state);
}

/// First come, first woken: the threads that were called are the first of those that entered the
/// queue, in the same order, and the others are still in the queue.
pub proof fn first_come_first_woken(states: Seq<MutexSystem>, i: int)
    requires
        is_mutex_execution(states),
        0 <= i < states.len(),
    ensures
        states[i].arrived == states[i].called + states[i].waiting(),
        states[i].called.is_prefix_of(states[i].arrived),
        is_chain(states[i].memory.nodes, address(states[i].memory.state), states[i].path),
{
    order_holds_throughout(states, i);
    let s = states[i];
    assert(s.called =~= s.arrived.subrange(0, s.called.len() as int));
}

/// Threads that have arrived stay so, and in the same order.
proof fn arrivals_stay(states: Seq<MutexSystem>, i: int, j: int)
    requires
        is_mutex_execution(states),
        0 <= i <= j < states.len(),
    ensures
        states[i].arrived.len() <= states[j].arrived.len(),
        forall|k: int|
            0 <= k < states[i].arrived.len() ==> states[j].arrived[k] == states[i].arrived[k],
    decreases j - i,
{
    if i < j {
        arrivals_stay(states, i, j - 1);
        let next = |s: MutexSystem, post: MutexSystem| s.next(post);
        assert(next(states[j - 1], states[j]));
    }
}

/// Every thread in the queue is called in its turn: the one at place `k` is the next when `k`
/// threads have been called since.
pub proof fn every_thread_is_called_in_turn(
    states: Seq<MutexSystem>,
    i: int,
    j: int,
    k: int,
)
    requires
        is_mutex_execution(states),
        0 <= i <= j < states.len(),
        0 <= k < states[i].waiting().len(),
        states[j].called.len() > states[i].called.len() + k,
    ensures
        states[j].called[states[i].called.len() + k] == states[i].waiting()[k],
{
    order_holds_throughout(states, i);
    order_holds_throughout(states, j);
    arrivals_stay(states, i, j);
    let place = states[i].called.len() + k;
    assert(states[i].arrived[place] == states[i].waiting()[k]);
    assert(states[j].arrived[place] == states[j].called[place]);
}

/// No sleeping thread is lost: its node is in the queue, or is marked so that the thread goes
/// on, or another thread is about to mark it.
pub proof fn no_sleeping_thread_is_lost(
    states: Seq<MutexSystem>,
    i: int,
    t: u64,
    node: usize,
)
    requires
        is_mutex_execution(states),
        0 <= i < states.len(),
        sleep_node(states[i].activity(t)) == Some(node),
    ensures
        states[i].memory.nodes.contains_key(node),
        states[i].memory.nodes[node].thread == t,
        states[i].path.contains(node) || states[i].memory.nodes[node].marked
            || states[i].is_called(node),
{
    order_holds_throughout(states, i);
    assert(states[i].thread_inv(t));
}

/// No wake-up is lost: a thread that sleeps though its node is marked was unparked, or another
/// thread is about to unpark it.
pub proof fn no_call_is_lost(states: Seq<MutexSystem>, i: int, t: u64, node: usize)
    requires
        is_mutex_execution(states),
        0 <= i < states.len(),
        states[i].activity(t) == MutexActivity::Acquiring(AcquireOp::Park { node }),
        states[i].memory.nodes[node].marked,
    ensures
        states[i].tokens.contains(t) || states[i].is_being_woken(t),
{
    order_holds_throughout(states, i);
    assert(states[i].thread_inv(t));
}

impl MutexSystem {
    /// Whether a thread that does not hold the mutex is about to wake a thread or to try for
    /// the mutex.
    pub open spec fn attends(self, t: u64) -> bool {
        match self.activity(t) {
            MutexActivity::Idle => false,
            MutexActivity::Trying(op) => op is Load || op is Exchange,
            MutexActivity::Acquiring(op) => match op {
                AcquireOp::Load => true,
                AcquireOp::Exchange { .. } => true,
                AcquireOp::Free { .. } => true,
                AcquireOp::Park { node } => self.memory.nodes[node].marked,
                AcquireOp::Look { node } => self.memory.nodes[node].marked,
                _ => false,
            },
            MutexActivity::Releasing(op) => op !is Load && op !is Exchange && op !is Wake && op
                !is Done,
        }
    }

    /// While there are nodes in the queue, some thread will see to them: the one that holds the
    /// mutex, when it lets go, or one that is about to wake a thread or to try for the mutex.
    pub open spec fn attended_inv(self) -> bool {
        self.path.len() > 0 ==> is_locked(self.memory.state) || exists|t: u64| self.attends(t)
    }
}

/// A thread that attends does so still after a step of another thread.
proof fn others_attend(pre: MutexSystem, t: u64, chance: Chance, u: u64)
    requires
        pre.inv(),
        pre.can_step(t, chance),
        pre.attends(u),
        u != t,
    ensures
        pre.step(t, chance).attends(u),
{
    assert(pre.step(t, chance).activity(u) == pre.activity(u));
    assert(pre.thread_inv(t));
    assert(pre.thread_inv(u));
}

/// A thread that is about to wake another or to try for a free mutex goes on to do so.
proof fn attending_thread_goes_on(pre: MutexSystem, t: u64, chance: Chance)
    requires
        pre.inv(),
        pre.can_step(t, chance),
        pre.attends(t),
        !is_locked(pre.memory.state),
        pre.step(t, chance).path.len() > 0,
    ensures
        is_locked(pre.step(t, chance).memory.state) || exists|u: u64|
            pre.step(t, chance).attends(u),
{
    let post = pre.step(t, chance);
    let word = pre.memory.state;
    assert(pre.thread_inv(t));
    word_is_composed(word);
    compose_is_faithful(address(word), true, is_queue_locked(word));
    if let MutexActivity::Releasing(ReleaseOp::Mark { head, thread }) = pre.activity(t) {
        assert(thread != t);
        assert(post.activity(thread) == pre.activity(thread));
        assert(post.attends(thread));
    } else if let MutexActivity::Releasing(ReleaseOp::LockQueue { .. }) = pre.activity(t) {
        assert(pre.path[0] != 0);
        assert(post.attends(t));
    } else if !is_locked(post.memory.state) {
        assert(post.attends(t));
    }
}

/// Every step of every thread keeps the threads in the queue attended.
pub proof fn step_keeps_attended(pre: MutexSystem, t: u64, chance: Chance)
    requires
        pre.inv(),
        pre.attended_inv(),
        pre.can_step(t, chance),
    ensures
        pre.step(t, chance).attended_inv(),
{
    let post = pre.step(t, chance);
    let word = pre.memory.state;
    assert(pre.thread_inv(t));
    word_is_composed(word);
    compose_is_faithful(address(word), true, is_queue_locked(word));
    compose_is_faithful(address(word), false, is_queue_locked(word));
    compose_is_faithful(address(word), is_locked(word), true);
    compose_is_faithful(address(word), is_locked(word), false);
    if let MutexActivity::Acquiring(AcquireOp::Enter { node, .. }) = pre.activity(t) {
        compose_is_faithful(node, true, false);
    }
    if let MutexActivity::Releasing(ReleaseOp::Publish { next, .. }) = pre.activity(t) {
        compose_is_faithful(next, is_locked(word), false);
    }
    if post.path.len() > 0 && !is_locked(post.memory.state) {
        if pre.path.len() == 0 {
            assert(false);
        } else if is_locked(word) {
            assert(pre.path[0] != 0);
            assert(post.attends(t));
        } else {
            let u = choose|u: u64| pre.attends(u);
            if u != t {
                others_attend(pre, t, chance, u);
                assert(post.attends(u));
            } else {
                attending_thread_goes_on(pre, t, chance);
            }
        }
    }
}

/// No thread sleeps unattended: while one sleeps, another thread holds the mutex, or some thread
/// is about to wake a thread or to try for the mutex, and is awake, was unparked or is about to
/// be.
pub proof fn no_thread_sleeps_unattended(
    states: Seq<MutexSystem>,
    i: int,
    t: u64,
    node: usize,
)
    requires
        is_mutex_execution(states),
        0 <= i < states.len(),
        sleep_node(states[i].activity(t)) == Some(node),
    ensures
        states[i].is_held() || exists|u: u64| #[trigger]
            states[i].attends(u) && (states[i].activity(u) matches MutexActivity::Acquiring(
                AcquireOp::Park { .. },
            ) ==> states[i].tokens.contains(u) || states[i].is_being_woken(u)),
{
    let init = |s: MutexSystem| s.init();
    let next = |s: MutexSystem, post: MutexSystem| s.next(post);
    let inv = |s: MutexSystem| s.inv() && s.attended_inv();
    assert forall|s: MutexSystem| #[trigger] init(s) implies inv(s) by {
        start_is_in_order(s);
    }
    assert forall|s: MutexSystem, post: MutexSystem| inv(s) && #[trigger] next(
        s,
        post,
    ) implies inv(post) by {
        let (t, chance) = choose|t: u64, chance: Chance| #[trigger]
            s.can_step(t, chance) && post == s.step(t, chance);
        step_keeps_order(s, t, chance);
        step_keeps_attended(s, t, chance);
    }
    invariant_holds_throughout(states, init, next, inv, i);
    let s = states[i];
    assert(s.thread_inv(t));
    if !s.is_held() {
        let u = if s.memory.nodes[node].marked {
            t
        } else if s.is_called(node) {
            choose|r: u64| #[trigger] calls(s.activity(r), node)
        } else {
            choose|u: u64| s.attends(u)
        };
        assert(s.path.contains(node) ==> s.path.len() > 0);
        assert(s.attends(u));
        assert(s.thread_inv(u));
    }
}

/// Every thread finishes: where no thread can go on, because each is idle or sleeps and was not
/// unparked, no thread sleeps.
pub proof fn mutex_at_rest_has_no_sleeper(states: Seq<MutexSystem>, i: int, t: u64)
    requires
        is_mutex_execution(states),
        0 <= i < states.len(),
        forall|u: u64| #[trigger]
            states[i].activity(u) is Idle || (states[i].activity(u) matches
                MutexActivity::Acquiring(AcquireOp::Park { .. }) && !states[i].tokens.contains(u)),
    ensures
        states[i].activity(t) is Idle,
{
    let s = states[i];
    if s.activity(t) !is Idle {
        no_thread_sleeps_unattended(states, i, t, s.activity(t)->Acquiring_0->Park_node);
        if s.is_held() {
            let u = choose|u: u64| s.holds(u);
            assert(s.activity(u) == s.activity(u));
        } else {
            let u = choose|u: u64| #[trigger]
                s.attends(u) && (s.activity(u) matches MutexActivity::Acquiring(
                    AcquireOp::Park { .. },
                ) ==> s.tokens.contains(u) || s.is_being_woken(u));
            assert(s.activity(u) == s.activity(u));
        }
    }
}

/// No thread touches a node that was given back: every access that comes next is one to a node
/// in use.
pub proof fn mutex_accesses_touch_nodes_in_use(states: Seq<MutexSystem>, i: int, t: u64)
    requires
        is_mutex_execution(states),
        0 <= i < states.len(),
    ensures
        match states[i].activity(t) {
            MutexActivity::Idle => true,
            MutexActivity::Trying(op) => states[i].memory.admits(op.next_access()),
            MutexActivity::Acquiring(op) => states[i].memory.admits(op.next_access(t)),
            MutexActivity::Releasing(op) => states[i].memory.admits(op.next_access()),
        },
{
    order_holds_throughout(states, i);
    let s = states[i];
    assert(s.thread_inv(t));
    assert forall|a: usize| #[trigger] s.path.contains(a) implies s.memory.nodes.contains_key(
        a,
    ) by {
        let k = choose|k: int| 0 <= k < s.path.len() && s.path[k] == a;
        assert(s.memory.nodes.contains_key(s.path[k]));
    }
    if s.path.len() > 0 {
        assert(s.path.contains(s.path[0]));
        assert(s.path.contains(s.path.last()));
    }
}

/// Letting go undoes taking: a free mutex that nobody waits for is as it was after both, and no
/// thread is woken.
pub proof fn mutex_unlocking_undoes_locking(memory: MemoryView)
    requires
        !is_locked(memory.state),
        address(memory.state) == 0,
    ensures
        released(taken(memory)) == memory,
        successor(taken(memory)) is None,
{
    word_is_composed(memory.state);
    compose_is_faithful(0, true, is_queue_locked(memory.state));
}

/// A thread that joins the queue comes to stand behind all others.
pub proof fn joining_puts_last(memory: MemoryView, path: Seq<usize>, thread: u64, node: usize)
    requires
        is_chain(memory.nodes, address(memory.state), path),
        memory.is_fresh(node),
    ensures
        ({
            let post = enqueued(memory, path, thread, node);
            &&& is_chain(post.nodes, address(post.state), path.push(node))
            &&& threads_along(post.nodes, path.push(node)) == threads_along(
                memory.nodes,
                path,
            ).push(thread)
            &&& is_locked(post.state) == is_locked(memory.state)
            &&& !is_queue_locked(post.state)
            &&& post.nodes.dom() == memory.nodes.dom().insert(node)
            &&& post.nodes[node] == (QueueNode { thread, next: 0, marked: false })
            &&& forall|a: usize| #[trigger]
                memory.nodes.contains_key(a) ==> post.nodes[a] == if path.len() > 0 && a
                    == path.last() {
                    QueueNode { next: node, ..memory.nodes[a] }
                } else {
                    memory.nodes[a]
                }
        }),
{
    let post = enqueued(memory, path, thread, node);
    if path.len() > 0 {
        assert(memory.nodes.contains_key(path.last()));
    }
    assert(post.nodes.dom() =~= memory.nodes.dom().insert(node));
    let nodes = memory.nodes.insert(node, QueueNode { thread, next: 0, marked: false });
    let whole = path.push(node);
    word_is_composed(memory.state);
    assert(!path.contains(node));
    assert forall|i: int| 0 <= i < path.len() implies nodes.contains_key(#[trigger] path[i])
        && nodes[path[i]] == memory.nodes[path[i]] by {}
    chain_frame(memory.nodes, nodes, address(memory.state), path);
    if path.len() == 0 {
        compose_is_faithful(node, is_locked(memory.state), false);
        assert(nodes[whole[0]].link() == after(whole, 0));
    } else {
        compose_is_faithful(path[0], is_locked(memory.state), false);
        chain_push_back(nodes, address(memory.state), path, node, post.nodes[path.last()]);
    }
    assert(threads_along(post.nodes, whole) =~= threads_along(memory.nodes, path).push(thread));
}

/// The thread that is woken is the one that has waited longest, and the others keep their
/// places. That the link of its node leaves the flag bits free follows from
/// [`QueueMutex::nodes_are_usable`](crate::queue_mutex::QueueMutex::nodes_are_usable).
pub proof fn dequeuing_takes_the_first(memory: MemoryView, path: Seq<usize>)
    requires
        is_chain(memory.nodes, address(memory.state), path),
        path.len() > 0,
        is_aligned(memory.nodes[path[0]].next),
    ensures
        successor(memory) == Some(threads_along(memory.nodes, path)[0]),
        is_chain(
            dequeued(memory).nodes,
            address(dequeued(memory).state),
            path.drop_first(),
        ),
        threads_along(dequeued(memory).nodes, path.drop_first()) == threads_along(
            memory.nodes,
            path,
        ).drop_first(),
        is_locked(dequeued(memory).state) == is_locked(memory.state),
{
    let post = dequeued(memory);
    let rest = path.drop_first();
    assert(path[0] != 0);
    compose_is_faithful(memory.nodes[path[0]].next, is_locked(memory.state), false);
    chain_tail(memory.nodes, address(memory.state), path);
    assert forall|i: int| 0 <= i < rest.len() implies post.nodes.contains_key(#[trigger] rest[i])
        && post.nodes[rest[i]] == memory.nodes[rest[i]] by {
        assert(rest[i] == path[i + 1]);
        assert(memory.nodes.contains_key(path[i + 1]));
        assert(path[i + 1] != path[0]);
    }
    chain_frame(memory.nodes, post.nodes, memory.nodes[path[0]].next, rest);
    assert(threads_along(post.nodes, rest) =~= threads_along(memory.nodes, path).drop_first());
}

} // verus!
