//! Every step of every thread on a queue-based mutex keeps it in order.

use crate::chain::{
    after, chain_frame, chain_push_back, chain_push_front, chain_tail, first, Linked,
};
use crate::execution::{invariant_holds_throughout, is_execution};
use crate::queue_mutex::{AcquireOp, ReleaseOp};
use crate::queue_mutex_system::{
    calls, locks_queue, node_of, sleep_node, Chance, MutexActivity, MutexSystem,
};
use crate::word::{address, compose_is_faithful, is_locked, is_queue_locked, word_is_composed};
use vstd::prelude::*;

verus! {

/// One thread keeps, takes or frees the mutex.
proof fn owner_is_kept(pre: MutexSystem, post: MutexSystem, t: u64)
    requires
        pre.owner_inv(),
        forall|u: u64| u != t ==> #[trigger] post.activity(u) == pre.activity(u),
        ({
            ||| post.holds(t) == pre.holds(t) && is_locked(post.memory.state) == is_locked(
                pre.memory.state,
            )
            ||| !is_locked(pre.memory.state) && is_locked(post.memory.state) && post.holds(t)
            ||| pre.holds(t) && !post.holds(t) && !is_locked(post.memory.state)
        }),
    ensures
        post.owner_inv(),
{
    assert forall|u: u64| u != t implies #[trigger] post.holds(u) == pre.holds(u) by {
        assert(post.activity(u) == pre.activity(u));
    }
    assert forall|u: u64, v: u64| #[trigger] post.holds(u) && #[trigger] post.holds(v) implies u
        == v by {
        assert(u != t ==> pre.holds(u));
        assert(v != t ==> pre.holds(v));
        assert(pre.holds(t) == pre.holds(t));
    }
    if is_locked(post.memory.state) {
        if !post.holds(t) {
            let u = choose|u: u64| pre.holds(u);
            assert(u != t);
            assert(post.holds(u));
        }
        assert(post.is_held());
    } else if post.is_held() {
        let u = choose|u: u64| post.holds(u);
        assert(u != t ==> pre.holds(u));
        assert(pre.holds(t) ==> pre.is_held());
    }
}

/// One thread keeps, takes or gives up the queue for itself, and calls no thread that another
/// calls.
proof fn window_is_kept(pre: MutexSystem, post: MutexSystem, t: u64)
    requires
        pre.window_inv(),
        forall|u: u64| u != t ==> #[trigger] post.activity(u) == pre.activity(u),
        forall|a: usize| #[trigger]
            calls(post.activity(t), a) ==> calls(pre.activity(t), a) || !pre.is_called(a),
        ({
            ||| locks_queue(post.activity(t)) == locks_queue(pre.activity(t)) && is_queue_locked(
                post.memory.state,
            ) == is_queue_locked(pre.memory.state)
            ||| !is_queue_locked(pre.memory.state) && is_queue_locked(post.memory.state)
                && locks_queue(post.activity(t))
            ||| locks_queue(pre.activity(t)) && !locks_queue(post.activity(t)) && !is_queue_locked(
                post.memory.state,
            )
        }),
    ensures
        post.window_inv(),
{
    assert(pre.activity(t) == pre.activity(t));
    assert forall|u: u64, v: u64|
        #![trigger post.activity(u), post.activity(v)]
        locks_queue(post.activity(u)) && locks_queue(post.activity(v)) implies u == v by {
        assert(pre.activity(u) == pre.activity(u));
        assert(pre.activity(v) == pre.activity(v));
    }
    assert forall|u: u64, v: u64, a: usize| #[trigger]
        calls(post.activity(u), a) && #[trigger] calls(post.activity(v), a) implies u == v by {
        if u != t {
            assert(calls(pre.activity(u), a));
            assert(pre.is_called(a));
        }
        if v != t {
            assert(calls(pre.activity(v), a));
            assert(pre.is_called(a));
        }
    }
    if is_queue_locked(post.memory.state) {
        if !locks_queue(post.activity(t)) {
            let u = choose|u: u64| locks_queue(#[trigger] pre.activity(u));
            assert(locks_queue(post.activity(u)));
        }
    } else if exists|u: u64| locks_queue(#[trigger] post.activity(u)) {
        let u = choose|u: u64| locks_queue(#[trigger] post.activity(u));
        assert(locks_queue(pre.activity(u)) || u == t);
    }
}

/// What the path of a mutex holds.
proof fn path_holds_nodes(s: MutexSystem)
    requires
        s.inv(),
    ensures
        forall|i: int| 0 <= i < s.path.len() ==> s.path.contains(#[trigger] s.path[i]),
        forall|a: usize| #[trigger]
            s.path.contains(a) ==> a != 0 && s.memory.nodes.contains_key(a),
{
    assert forall|a: usize| #[trigger] s.path.contains(a) implies a != 0
        && s.memory.nodes.contains_key(a) by {
        let k = choose|k: int| 0 <= k < s.path.len() && s.path[k] == a;
        assert(s.path[k] != 0);
    }
}

/// Where the step of a thread does not change whom it calls, that stays as it is for all.
proof fn calls_are_kept(pre: MutexSystem, post: MutexSystem, t: u64)
    requires
        forall|u: u64| u != t ==> #[trigger] post.activity(u) == pre.activity(u),
        forall|a: usize| #[trigger] calls(post.activity(t), a) == calls(pre.activity(t), a),
    ensures
        forall|a: usize| #[trigger] post.is_called(a) == pre.is_called(a),
{
    assert forall|a: usize| #[trigger] post.is_called(a) == pre.is_called(a) by {
        if pre.is_called(a) {
            let r = choose|r: u64| #[trigger] calls(pre.activity(r), a);
            assert(calls(post.activity(r), a));
        }
        if post.is_called(a) {
            let r = choose|r: u64| #[trigger] calls(post.activity(r), a);
            assert(calls(pre.activity(r), a));
        }
    }
}

/// Where the step of a thread is not the one in which it wakes another, those that are being
/// woken still are.
proof fn wakes_are_kept(pre: MutexSystem, post: MutexSystem, t: u64)
    requires
        forall|u: u64| u != t ==> #[trigger] post.activity(u) == pre.activity(u),
        !(pre.activity(t) matches MutexActivity::Releasing(ReleaseOp::Wake { .. })),
    ensures
        forall|u: u64| pre.is_being_woken(u) ==> #[trigger] post.is_being_woken(u),
{
    assert forall|u: u64| pre.is_being_woken(u) implies #[trigger] post.is_being_woken(u) by {
        let r = choose|r: u64| #[trigger]
            pre.activity(r) == MutexActivity::Releasing(ReleaseOp::Wake { thread: u });
        assert(post.activity(r) == pre.activity(r));
    }
}

/// A step that leaves the nodes and the queue alone, and in which the thread neither comes to
/// sleep nor stops sleeping.
proof fn nodes_are_left_alone(pre: MutexSystem, post: MutexSystem, t: u64)
    requires
        pre.inv(),
        forall|u: u64| u != t ==> #[trigger] post.activity(u) == pre.activity(u),
        post.memory.nodes == pre.memory.nodes,
        post.path == pre.path,
        post.arrived == pre.arrived,
        post.called == pre.called,
        address(post.memory.state) == address(pre.memory.state),
        node_of(post.activity(t)) == node_of(pre.activity(t)),
        sleep_node(post.activity(t)) == sleep_node(pre.activity(t)),
        forall|a: usize| #[trigger] calls(post.activity(t), a) == calls(pre.activity(t), a),
        forall|u: u64| u != t && pre.tokens.contains(u) ==> #[trigger] post.tokens.contains(u),
        pre.activity(t) matches MutexActivity::Releasing(ReleaseOp::Wake { thread })
            ==> post.tokens.contains(thread),
        post.local_inv(t),
        post.thread_inv(t) || (sleep_node(post.activity(t)) is Some && !(post.activity(t) matches
            MutexActivity::Acquiring(AcquireOp::Park { .. }))),
    ensures
        post.nodes_inv(),
        post.queue_inv(),
        forall|u: u64| #[trigger] post.thread_inv(u),
{
    assert(post.waiting() == pre.waiting());
    calls_are_kept(pre, post, t);
    assert forall|u: u64| #[trigger] post.thread_inv(u) by {
        assert(pre.thread_inv(u));
        if u != t {
            assert(post.activity(u) == pre.activity(u));
            if let Some(node) = node_of(pre.activity(u)) {
                assert(post.is_called(node) == pre.is_called(node));
            }
            if let MutexActivity::Acquiring(AcquireOp::Park { node }) = pre.activity(u) {
                if pre.memory.nodes[node].marked && !pre.tokens.contains(u) {
                    let r = choose|r: u64| #[trigger]
                        pre.activity(r) == MutexActivity::Releasing(
                            ReleaseOp::Wake { thread: u },
                        );
                    assert(r != t ==> post.activity(r) == pre.activity(r));
                }
            }
        } else if let Some(node) = node_of(pre.activity(t)) {
            assert(post.is_called(node) == pre.is_called(node));
        }
    }
}

/// The steps of a thread that does not have a node, or has not put it into the queue.
#[verifier::rlimit(30)]
proof fn quiet_acquiring_step(pre: MutexSystem, t: u64, chance: Chance)
    requires
        pre.inv(),
        pre.can_step(t, chance),
        match pre.activity(t) {
            MutexActivity::Idle => true,
            MutexActivity::Trying(_) => true,
            MutexActivity::Acquiring(op) => op is Load || op is Exchange || op is LoadQueue || op
                is Spin || op is LockQueue || op is Retreat || op is FindTail || op is Held,
            MutexActivity::Releasing(_) => false,
        },
    ensures
        pre.step(t, chance).inv(),
{
    let post = pre.step(t, chance);
    let word = pre.memory.state;
    assert(pre.thread_inv(t));
    path_holds_nodes(pre);
    word_is_composed(word);
    compose_is_faithful(address(word), true, is_queue_locked(word));
    compose_is_faithful(address(word), is_locked(word), true);
    compose_is_faithful(address(word), is_locked(word), false);
    assert(locks_queue(pre.activity(t)) ==> is_queue_locked(word));
    assert(pre.holds(t) ==> pre.is_held());
    assert forall|u: u64| u != t implies #[trigger] post.activity(u) == pre.activity(u) by {}
    match pre.activity(t) {
        MutexActivity::Acquiring(AcquireOp::LockQueue { .. }) => {
            if pre.path.len() > 0 {
                assert(pre.path[0] != 0);
                assert(pre.path.contains(pre.path[0]));
            }
        },
        MutexActivity::Acquiring(AcquireOp::FindTail { tail, .. }) => {
            let i = choose|i: int| 0 <= i < pre.path.len() && pre.path[i] == tail;
            assert(pre.memory.nodes[pre.path[i]].link() == after(pre.path, i));
            if i + 1 < pre.path.len() {
                assert(pre.path[i + 1] != 0);
                assert(pre.path.contains(pre.path[i + 1]));
            }
        },
        _ => {},
    }
    assert(post.thread_inv(t));
    nodes_are_left_alone(pre, post, t);
    owner_is_kept(pre, post, t);
    window_is_kept(pre, post, t);
}

/// A thread that sleeps wakes up, or goes to sleep again.
proof fn restless_step(pre: MutexSystem, t: u64, chance: Chance)
    requires
        pre.inv(),
        pre.can_step(t, chance),
        sleep_node(pre.activity(t)) is Some,
        sleep_node(pre.step(t, chance).activity(t)) is Some,
    ensures
        pre.step(t, chance).inv(),
{
    let post = pre.step(t, chance);
    let node = sleep_node(pre.activity(t))->0;
    assert(pre.thread_inv(t));
    assert forall|u: u64| u != t implies #[trigger] post.activity(u) == pre.activity(u) by {}
    assert(post.memory == pre.memory);
    calls_are_kept(pre, post, t);
    if let MutexActivity::Acquiring(AcquireOp::Look { .. }) = pre.activity(t) {
        assert(post.is_called(node) == pre.is_called(node));
        assert(post.thread_inv(t));
    }
    nodes_are_left_alone(pre, post, t);
    owner_is_kept(pre, post, t);
    window_is_kept(pre, post, t);
}

/// The steps of a thread that lets go of the mutex that leave the nodes and the queue alone.
proof fn quiet_releasing_step(pre: MutexSystem, t: u64, chance: Chance)
    requires
        pre.inv(),
        pre.can_step(t, chance),
        pre.activity(t) matches MutexActivity::Releasing(op) && op !is Publish && op !is Mark,
    ensures
        pre.step(t, chance).inv(),
{
    let post = pre.step(t, chance);
    let word = pre.memory.state;
    assert(pre.thread_inv(t));
    path_holds_nodes(pre);
    word_is_composed(word);
    compose_is_faithful(address(word), false, is_queue_locked(word));
    compose_is_faithful(address(word), is_locked(word), true);
    assert(locks_queue(pre.activity(t)) ==> is_queue_locked(word));
    assert(pre.holds(t) ==> pre.is_held());
    assert forall|u: u64| u != t implies #[trigger] post.activity(u) == pre.activity(u) by {}
    if pre.path.len() > 0 {
        assert(pre.path[0] != 0);
        assert(pre.path.contains(pre.path[0]));
    }
    if let MutexActivity::Releasing(ReleaseOp::ReadThread { head }) = pre.activity(t) {
        assert(calls(pre.activity(t), head));
        assert(post.activity(pre.memory.nodes[head].thread) == pre.activity(
            pre.memory.nodes[head].thread,
        ));
    }
    assert(post.thread_inv(t));
    nodes_are_left_alone(pre, post, t);
    owner_is_kept(pre, post, t);
    window_is_kept(pre, post, t);
}

/// No thread calls a thread that does not sleep, or whose node is marked.
proof fn only_sleepers_are_called(s: MutexSystem, t: u64, a: usize)
    requires
        s.inv(),
        s.memory.nodes[a].thread == t,
        sleep_node(s.activity(t)) != Some(a) || s.memory.nodes[a].marked,
    ensures
        !s.is_called(a),
{
    if s.is_called(a) {
        let r = choose|r: u64| #[trigger] calls(s.activity(r), a);
        assert(s.thread_inv(r));
    }
}

proof fn allocating_step(pre: MutexSystem, t: u64, chance: Chance)
    requires
        pre.inv(),
        pre.can_step(t, chance),
        pre.activity(t) == MutexActivity::Acquiring(AcquireOp::Allocate),
    ensures
        pre.step(t, chance).inv(),
{
    let post = pre.step(t, chance);
    let nodes = pre.memory.nodes;
    assert(pre.thread_inv(t));
    path_holds_nodes(pre);
    assert forall|u: u64| u != t implies #[trigger] post.activity(u) == pre.activity(u) by {}
    calls_are_kept(pre, post, t);
    wakes_are_kept(pre, post, t);
    assert(!pre.path.contains(chance.fresh));
    chain_frame(nodes, post.memory.nodes, first(pre.path), pre.path);
    assert(post.waiting() =~= pre.waiting());
    owner_is_kept(pre, post, t);
    window_is_kept(pre, post, t);
    assert forall|u: u64| #[trigger] post.thread_inv(u) by {
        assert(pre.thread_inv(u));
        if u != t {
            assert(post.activity(u) == pre.activity(u));
            if let Some(node) = node_of(pre.activity(u)) {
                assert(post.is_called(node) == pre.is_called(node));
            }
            assert(pre.is_being_woken(u) ==> post.is_being_woken(u));
        }
    }
}

/// A thread gives its node back to try again.
proof fn freeing_step(pre: MutexSystem, t: u64, chance: Chance)
    requires
        pre.inv(),
        pre.can_step(t, chance),
        pre.activity(t) matches MutexActivity::Acquiring(op) && op is Free,
    ensures
        pre.step(t, chance).inv(),
{
    let post = pre.step(t, chance);
    let nodes = pre.memory.nodes;
    let own = node_of(pre.activity(t))->0;
    assert(pre.thread_inv(t));
    path_holds_nodes(pre);
    assert forall|u: u64| u != t implies #[trigger] post.activity(u) == pre.activity(u) by {}
    calls_are_kept(pre, post, t);
    wakes_are_kept(pre, post, t);
    only_sleepers_are_called(pre, t, own);
    chain_frame(nodes, post.memory.nodes, first(pre.path), pre.path);
    assert(post.waiting() =~= pre.waiting());
    owner_is_kept(pre, post, t);
    window_is_kept(pre, post, t);
    assert forall|u: u64| #[trigger] post.thread_inv(u) by {
        assert(pre.thread_inv(u));
        if u != t {
            assert(post.activity(u) == pre.activity(u));
            if let Some(node) = node_of(pre.activity(u)) {
                assert(post.is_called(node) == pre.is_called(node));
            }
            assert(!calls(pre.activity(u), own));
            assert(pre.is_being_woken(u) ==> post.is_being_woken(u));
        }
    }
}

/// A thread finds that it was called.
proof fn receiving_step(pre: MutexSystem, t: u64, chance: Chance)
    requires
        pre.inv(),
        pre.can_step(t, chance),
        pre.activity(t) matches MutexActivity::Acquiring(AcquireOp::Look { node })
            && pre.memory.nodes[node].marked,
    ensures
        pre.step(t, chance).inv(),
{
    let post = pre.step(t, chance);
    let own = sleep_node(pre.activity(t))->0;
    assert(pre.thread_inv(t));
    assert forall|u: u64| u != t implies #[trigger] post.activity(u) == pre.activity(u) by {}
    calls_are_kept(pre, post, t);
    wakes_are_kept(pre, post, t);
    only_sleepers_are_called(pre, t, own);
    assert(post.memory == pre.memory);
    assert(post.waiting() == pre.waiting());
    owner_is_kept(pre, post, t);
    window_is_kept(pre, post, t);
    assert forall|u: u64| #[trigger] post.thread_inv(u) by {
        assert(pre.thread_inv(u));
        if u != t {
            assert(post.activity(u) == pre.activity(u));
            if let Some(node) = node_of(pre.activity(u)) {
                assert(post.is_called(node) == pre.is_called(node));
            }
            assert(!calls(pre.activity(u), own));
            assert(pre.is_being_woken(u) ==> post.is_being_woken(u));
        }
    }
}

/// A thread makes its node the only one in the queue, or finds that it could not.
proof fn entering_step(pre: MutexSystem, t: u64, chance: Chance)
    requires
        pre.inv(),
        pre.can_step(t, chance),
        pre.activity(t) matches MutexActivity::Acquiring(op) && op is Enter,
    ensures
        pre.step(t, chance).inv(),
{
    let post = pre.step(t, chance);
    let nodes = pre.memory.nodes;
    let word = pre.memory.state;
    let own = pre.activity(t)->Acquiring_0->Enter_node;
    assert(pre.thread_inv(t));
    path_holds_nodes(pre);
    word_is_composed(word);
    compose_is_faithful(own, true, false);
    assert(locks_queue(pre.activity(t)));
    assert forall|u: u64| u != t implies #[trigger] post.activity(u) == pre.activity(u) by {}
    calls_are_kept(pre, post, t);
    wakes_are_kept(pre, post, t);
    only_sleepers_are_called(pre, t, own);
    owner_is_kept(pre, post, t);
    window_is_kept(pre, post, t);
    if post.path == pre.path {
        assert(post.thread_inv(t));
        nodes_are_left_alone(pre, post, t);
    } else {
        assert(nodes.contains_key(own));
        chain_push_front(nodes, 0, pre.path, own);
        assert(post.path =~= seq![own] + pre.path);
        assert(post.path[0] == own);
        assert(pre.waiting() =~= Seq::<u64>::empty());
        assert(post.waiting() =~= pre.waiting().push(t));
        assert forall|a: usize| #[trigger] post.path.contains(a) == (a == own) by {
            assert(post.path.len() == 1);
        }
        assert forall|u: u64| #[trigger] post.thread_inv(u) by {
            assert(pre.thread_inv(u));
            if u != t {
                assert(post.activity(u) == pre.activity(u));
                assert(!locks_queue(pre.activity(u)));
                if let Some(node) = node_of(pre.activity(u)) {
                    assert(post.is_called(node) == pre.is_called(node));
                    assert(node != own);
                }
                assert(pre.is_being_woken(u) ==> post.is_being_woken(u));
            } else {
                assert(post.is_called(own) == pre.is_called(own));
            }
        }
    }
}

/// The node of a thread comes to stand behind all others.
proof fn appending_step(pre: MutexSystem, t: u64, chance: Chance)
    requires
        pre.inv(),
        pre.can_step(t, chance),
        pre.activity(t) matches MutexActivity::Acquiring(op) && op is Append,
    ensures
        pre.step(t, chance).inv(),
{
    let post = pre.step(t, chance);
    let nodes = pre.memory.nodes;
    let own = pre.activity(t)->Acquiring_0->Append_node;
    let last = post.memory.nodes[pre.path.last()];
    assert(pre.thread_inv(t));
    path_holds_nodes(pre);
    assert(locks_queue(pre.activity(t)));
    assert forall|u: u64| u != t implies #[trigger] post.activity(u) == pre.activity(u) by {}
    calls_are_kept(pre, post, t);
    wakes_are_kept(pre, post, t);
    assert(pre.path.contains(pre.path.last()));
    chain_push_back(nodes, first(pre.path), pre.path, own, last);
    assert(post.memory.nodes == nodes.insert(pre.path.last(), last));
    assert(post.waiting() =~= pre.waiting().push(t));
    assert forall|a: usize| #[trigger] post.path.contains(a) == (pre.path.contains(a) || a
        == own) by {
        if pre.path.contains(a) {
            let i = choose|i: int| 0 <= i < pre.path.len() && pre.path[i] == a;
            assert(post.path[i] == a);
        }
        assert(post.path[pre.path.len() as int] == own);
    }
    owner_is_kept(pre, post, t);
    window_is_kept(pre, post, t);
    assert(pre.thread_inv(nodes[pre.path.last()].thread));
    assert forall|u: u64| #[trigger] post.thread_inv(u) by {
        assert(pre.thread_inv(u));
        if u != t {
            assert(post.activity(u) == pre.activity(u));
            assert(!locks_queue(pre.activity(u)));
            if let Some(node) = node_of(pre.activity(u)) {
                assert(post.is_called(node) == pre.is_called(node));
                assert(nodes.contains_key(node));
                assert(node != own);
            }
            assert(pre.is_being_woken(u) ==> post.is_being_woken(u));
        }
    }
}

/// A thread unlocks the queue, in which its node is by now.
proof fn publishing_step(pre: MutexSystem, t: u64, chance: Chance)
    requires
        pre.inv(),
        pre.can_step(t, chance),
        pre.activity(t) matches MutexActivity::Acquiring(op) && op is Publish,
    ensures
        pre.step(t, chance).inv(),
{
    let post = pre.step(t, chance);
    let word = pre.memory.state;
    let own = pre.activity(t)->Acquiring_0->Publish_node;
    assert(pre.thread_inv(t));
    path_holds_nodes(pre);
    word_is_composed(word);
    compose_is_faithful(address(word), is_locked(word), false);
    assert(locks_queue(pre.activity(t)));
    assert forall|u: u64| u != t implies #[trigger] post.activity(u) == pre.activity(u) by {}
    calls_are_kept(pre, post, t);
    wakes_are_kept(pre, post, t);
    only_sleepers_are_called(pre, t, own);
    assert(post.waiting() == pre.waiting());
    owner_is_kept(pre, post, t);
    window_is_kept(pre, post, t);
    assert forall|u: u64| #[trigger] post.thread_inv(u) by {
        assert(pre.thread_inv(u));
        if u != t {
            assert(post.activity(u) == pre.activity(u));
            if let Some(node) = node_of(pre.activity(u)) {
                assert(post.is_called(node) == pre.is_called(node));
            }
            assert(!calls(pre.activity(u), own));
            assert(pre.is_being_woken(u) ==> post.is_being_woken(u));
        } else {
            assert(post.is_called(own) == pre.is_called(own));
        }
    }
}

/// A thread that lets go of the mutex takes the first node out of the queue, finds the queue
/// empty, or finds that it has to try again.
proof fn taking_out_step(pre: MutexSystem, t: u64, chance: Chance)
    requires
        pre.inv(),
        pre.can_step(t, chance),
        pre.activity(t) matches MutexActivity::Releasing(op) && op is Publish,
    ensures
        pre.step(t, chance).inv(),
{
    let post = pre.step(t, chance);
    let nodes = pre.memory.nodes;
    let word = pre.memory.state;
    let head = pre.activity(t)->Releasing_0->Publish_head;
    let next = pre.activity(t)->Releasing_0->Publish_next;
    assert(pre.thread_inv(t));
    path_holds_nodes(pre);
    word_is_composed(word);
    compose_is_faithful(next, is_locked(word), false);
    assert(locks_queue(pre.activity(t)));
    assert forall|u: u64| u != t implies #[trigger] post.activity(u) == pre.activity(u) by {}
    wakes_are_kept(pre, post, t);
    owner_is_kept(pre, post, t);
    if post.activity(t) == MutexActivity::Releasing(ReleaseOp::ReadThread { head }) {
        let thread = nodes[head].thread;
        assert(pre.path.contains(head));
        assert(pre.thread_inv(thread));
        assert(thread != t);
        assert(!locks_queue(pre.activity(thread)));
        assert(sleep_node(pre.activity(thread)) == Some(head));
        assert(!pre.is_called(head));
        window_is_kept(pre, post, t);
        chain_tail(nodes, head, pre.path);
        assert(nodes[pre.path[0]].link() == after(pre.path, 0));
        assert(pre.waiting() =~= seq![thread] + post.waiting());
        assert(post.arrived =~= post.called + post.waiting());
        assert forall|a: usize| #[trigger] post.path.contains(a) == (pre.path.contains(a) && a
            != head) by {
            if pre.path.contains(a) && a != head {
                let i = choose|i: int| 0 <= i < pre.path.len() && pre.path[i] == a;
                assert(post.path[i - 1] == a);
            }
            if post.path.contains(a) {
                let i = choose|i: int| 0 <= i < post.path.len() && post.path[i] == a;
                assert(pre.path[i + 1] == a);
            }
        }
        assert(calls(post.activity(t), head));
        assert(post.is_called(head));
        assert forall|a: usize| a != head implies #[trigger] post.is_called(a) == pre.is_called(
            a,
        ) by {
            if pre.is_called(a) {
                let r = choose|r: u64| #[trigger] calls(pre.activity(r), a);
                assert(calls(post.activity(r), a));
            }
            if post.is_called(a) {
                let r = choose|r: u64| #[trigger] calls(post.activity(r), a);
                assert(calls(pre.activity(r), a));
            }
        }
        assert forall|u: u64| #[trigger] post.thread_inv(u) by {
            assert(pre.thread_inv(u));
            if u != t {
                assert(post.activity(u) == pre.activity(u));
                assert(!locks_queue(pre.activity(u)));
                if let Some(node) = node_of(pre.activity(u)) {
                    assert(node != head ==> post.is_called(node) == pre.is_called(node));
                }
                assert(pre.is_being_woken(u) ==> post.is_being_woken(u));
            } else {
                assert(post.activity(thread) == pre.activity(thread));
            }
        }
    } else {
        window_is_kept(pre, post, t);
        assert(post.thread_inv(t));
        nodes_are_left_alone(pre, post, t);
    }
}

/// A thread lets the one that it has called go on.
proof fn marking_step(pre: MutexSystem, t: u64, chance: Chance)
    requires
        pre.inv(),
        pre.can_step(t, chance),
        pre.activity(t) matches MutexActivity::Releasing(op) && op is Mark,
    ensures
        pre.step(t, chance).inv(),
{
    let post = pre.step(t, chance);
    let nodes = pre.memory.nodes;
    let head = pre.activity(t)->Releasing_0->Mark_head;
    let thread = pre.activity(t)->Releasing_0->Mark_thread;
    assert(pre.thread_inv(t));
    assert(pre.thread_inv(thread));
    path_holds_nodes(pre);
    assert(calls(pre.activity(t), head));
    assert(pre.is_called(head));
    assert(!pre.path.contains(head));
    assert forall|u: u64| u != t implies #[trigger] post.activity(u) == pre.activity(u) by {}
    wakes_are_kept(pre, post, t);
    assert(post.activity(t) == MutexActivity::Releasing(ReleaseOp::Wake { thread }));
    assert forall|i: int| 0 <= i < pre.path.len() implies post.memory.nodes.contains_key(
        #[trigger] pre.path[i],
    ) && post.memory.nodes[pre.path[i]] == nodes[pre.path[i]] by {
        assert(pre.path.contains(pre.path[i]));
    }
    chain_frame(nodes, post.memory.nodes, first(pre.path), pre.path);
    assert(post.waiting() =~= pre.waiting());
    assert forall|a: usize| #[trigger] post.is_called(a) == (pre.is_called(a) && a != head) by {
        if pre.is_called(a) && a != head {
            let r = choose|r: u64| #[trigger] calls(pre.activity(r), a);
            assert(calls(post.activity(r), a));
        }
        if post.is_called(a) {
            let r = choose|r: u64| #[trigger] calls(post.activity(r), a);
            assert(calls(pre.activity(r), a));
        }
    }
    owner_is_kept(pre, post, t);
    window_is_kept(pre, post, t);
    assert forall|u: u64| #[trigger] post.thread_inv(u) by {
        assert(pre.thread_inv(u));
        if u != t {
            assert(post.activity(u) == pre.activity(u));
            if let Some(node) = node_of(pre.activity(u)) {
                assert(node == head ==> u == thread);
                assert(post.is_called(node) == (pre.is_called(node) && node != head));
            }
            assert(!calls(pre.activity(u), head));
            if u == thread {
                assert(post.is_being_woken(thread)) by {
                    assert(post.activity(t) == MutexActivity::Releasing(
                        ReleaseOp::Wake { thread },
                    ));
                }
            }
            assert(pre.is_being_woken(u) ==> post.is_being_woken(u));
        }
    }
}

/// Every step of every thread keeps the mutex in order.
pub proof fn step_keeps_order(pre: MutexSystem, t: u64, chance: Chance)
    requires
        pre.inv(),
        pre.can_step(t, chance),
    ensures
        pre.step(t, chance).inv(),
{
    assert(pre.thread_inv(t));
    match pre.activity(t) {
        MutexActivity::Acquiring(op) => match op {
            AcquireOp::Allocate => allocating_step(pre, t, chance),
            AcquireOp::Enter { .. } => entering_step(pre, t, chance),
            AcquireOp::Append { .. } => appending_step(pre, t, chance),
            AcquireOp::Publish { .. } => publishing_step(pre, t, chance),
            AcquireOp::Park { .. } => restless_step(pre, t, chance),
            AcquireOp::Look { node } => if pre.memory.nodes[node].marked {
                receiving_step(pre, t, chance)
            } else {
                restless_step(pre, t, chance)
            },
            AcquireOp::Free { .. } => freeing_step(pre, t, chance),
            _ => quiet_acquiring_step(pre, t, chance),
        },
        MutexActivity::Releasing(op) => match op {
            ReleaseOp::Publish { .. } => taking_out_step(pre, t, chance),
            ReleaseOp::Mark { .. } => marking_step(pre, t, chance),
            _ => quiet_releasing_step(pre, t, chance),
        },
        _ => quiet_acquiring_step(pre, t, chance),
    }
}

/// The executions of a mutex: any number of threads make their steps in any order.
pub open spec fn is_mutex_execution(states: Seq<MutexSystem>) -> bool {
    is_execution(
        states,
        |s: MutexSystem| s.init(),
        |s: MutexSystem, post: MutexSystem| s.next(post),
    )
}

/// In every execution the mutex is in order at every moment.
pub proof fn order_holds_throughout(states: Seq<MutexSystem>, i: int)
    requires
        is_mutex_execution(states),
        0 <= i < states.len(),
    ensures
        states[i].inv(),
{
    let init = |s: MutexSystem| s.init();
    let next = |s: MutexSystem, post: MutexSystem| s.next(post);
    let inv = |s: MutexSystem| s.inv();
    assert forall|s: MutexSystem| #[trigger] init(s) implies inv(s) by {
        start_is_in_order(s);
    }
    assert forall|s: MutexSystem, post: MutexSystem| inv(s) && #[trigger] next(
        s,
        post,
    ) implies inv(post) by {
        let (t, chance) = choose|t: u64, chance: Chance| #[trigger]
            s.can_step(t, chance) && post == s.step(t, chance);
        step_keeps_order(s, t, chance);
    }
    invariant_holds_throughout(states, init, next, inv, i);
}

/// A free mutex that no thread uses is in order.
pub proof fn start_is_in_order(s: MutexSystem)
    requires
        s.init(),
    ensures
        s.inv(),
{
    assert(s.waiting() =~= Seq::<u64>::empty());
    word_is_composed(0);
}

} // verus!
