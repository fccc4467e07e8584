//! Every step of every thread on a queue-based lock keeps it in order.

use crate::chain::{
    after, chain_frame, chain_push_back, chain_push_front, chain_tail, first, Linked,
};
use crate::execution::{invariant_holds_throughout, is_execution};
use crate::queue_lock::{LockOp, UnlockOp};
use crate::queue_lock_system::{
    hands_over, locks_queue, node_of, sleep_node, Activity, LockSystem,
};
use crate::word::{address, compose_is_faithful, is_locked, is_queue_locked, word_is_composed};
use vstd::prelude::*;

verus! {

/// One thread keeps, takes or frees the lock.
proof fn owner_is_kept(pre: LockSystem, post: LockSystem, t: u64)
    requires
        pre.owner_inv(),
        forall|u: u64| u != t ==> #[trigger] post.owns(u) == pre.owns(u),
        ({
            ||| post.owns(t) == pre.owns(t) && is_locked(post.memory.state) == is_locked(
                pre.memory.state,
            )
            ||| !is_locked(pre.memory.state) && is_locked(post.memory.state) && post.owns(t)
            ||| pre.owns(t) && !post.owns(t) && !is_locked(post.memory.state)
        }),
        post.path.len() > 0 ==> is_locked(post.memory.state),
    ensures
        post.owner_inv(),
{
    assert forall|u: u64, v: u64| #[trigger] post.owns(u) && #[trigger] post.owns(v) implies u
        == v by {
        assert(u != t ==> pre.owns(u));
        assert(v != t ==> pre.owns(v));
        assert(pre.owns(t) == pre.owns(t));
    }
    if is_locked(post.memory.state) {
        if !post.owns(t) {
            let u = choose|u: u64| pre.owns(u);
            assert(u != t);
            assert(post.owns(u));
        }
        assert(post.is_owned());
    } else if post.is_owned() {
        let u = choose|u: u64| post.owns(u);
        assert(u != t ==> pre.owns(u));
        assert(pre.owns(t) ==> pre.is_owned());
    }
}

/// One thread keeps, takes or gives up the queue for itself.
proof fn window_is_kept(pre: LockSystem, post: LockSystem, t: u64)
    requires
        pre.window_inv(),
        forall|u: u64| u != t ==> #[trigger] post.activity(u) == pre.activity(u),
        is_queue_locked(post.memory.state) ==> is_locked(post.memory.state),
        ({
            ||| locks_queue(post.activity(t)) == locks_queue(pre.activity(t)) && is_queue_locked(
                post.memory.state,
            ) == is_queue_locked(pre.memory.state)
            ||| !is_queue_locked(pre.memory.state) && is_queue_locked(post.memory.state)
                && locks_queue(post.activity(t))
            ||| locks_queue(pre.activity(t)) && !locks_queue(post.activity(t)) && !is_queue_locked(
                post.memory.state,
            )
        }),
    ensures
        post.window_inv(),
{
    assert(pre.activity(t) == pre.activity(t));
    assert forall|u: u64, v: u64|
        #![trigger post.activity(u), post.activity(v)]
        locks_queue(post.activity(u)) && locks_queue(post.activity(v)) implies u == v by {
        assert(pre.activity(u) == pre.activity(u));
        assert(pre.activity(v) == pre.activity(v));
    }
    if is_queue_locked(post.memory.state) {
        if !locks_queue(post.activity(t)) {
            let u = choose|u: u64| locks_queue(#[trigger] pre.activity(u));
            assert(locks_queue(post.activity(u)));
        }
    } else if exists|u: u64| locks_queue(#[trigger] post.activity(u)) {
        let u = choose|u: u64| locks_queue(#[trigger] post.activity(u));
        assert(locks_queue(pre.activity(u)) || u == t);
    }
}

/// What the path of a lock holds.
proof fn path_holds_nodes(s: LockSystem)
    requires
        s.inv(),
    ensures
        forall|i: int| 0 <= i < s.path.len() ==> s.path.contains(#[trigger] s.path[i]),
        forall|a: usize| #[trigger]
            s.path.contains(a) ==> a != 0 && s.memory.nodes.contains_key(a),
{
    assert forall|a: usize| #[trigger] s.path.contains(a) implies a != 0
        && s.memory.nodes.contains_key(a) by {
        let k = choose|k: int| 0 <= k < s.path.len() && s.path[k] == a;
        assert(s.path[k] != 0);
    }
}

/// A step that leaves the nodes and the queue alone, and in which the thread neither comes to
/// sleep nor stops sleeping.
proof fn nodes_are_left_alone(pre: LockSystem, post: LockSystem, t: u64)
    requires
        pre.inv(),
        forall|u: u64| u != t ==> #[trigger] post.activity(u) == pre.activity(u),
        post.memory.nodes == pre.memory.nodes,
        post.path == pre.path,
        post.arrived == pre.arrived,
        post.served == pre.served,
        address(post.memory.state) == address(pre.memory.state),
        node_of(post.activity(t)) == node_of(pre.activity(t)),
        sleep_node(post.activity(t)) == sleep_node(pre.activity(t)),
        forall|a: usize| !hands_over(pre.activity(t), a) && !hands_over(post.activity(t), a),
        forall|u: u64| u != t && pre.tokens.contains(u) ==> #[trigger] post.tokens.contains(u),
        pre.activity(t) matches Activity::Unlocking(UnlockOp::Wake { thread })
            ==> post.tokens.contains(thread),
        post.local_inv(t),
        post.thread_inv(t) || (sleep_node(post.activity(t)) is Some && !(post.activity(t) matches
            Activity::Locking(LockOp::Park { .. }))),
    ensures
        post.nodes_inv(),
        post.queue_inv(),
        forall|u: u64| #[trigger] post.thread_inv(u),
        forall|u: u64| u != t ==> #[trigger] post.owns(u) == pre.owns(u),
{
    assert(post.waiting() == pre.waiting());
    assert forall|a: usize| #[trigger] post.is_target(a) == pre.is_target(a) by {
        if pre.is_target(a) {
            let r = choose|r: u64| #[trigger] hands_over(pre.activity(r), a);
            assert(hands_over(post.activity(r), a));
        }
        if post.is_target(a) {
            let r = choose|r: u64| #[trigger] hands_over(post.activity(r), a);
            assert(hands_over(pre.activity(r), a));
        }
    }
    assert forall|u: u64| u != t implies #[trigger] post.owns(u) == pre.owns(u) by {
        assert(post.activity(u) == pre.activity(u));
    }
    assert forall|u: u64| #[trigger] post.thread_inv(u) by {
        assert(pre.thread_inv(u));
        if u != t {
            assert(post.activity(u) == pre.activity(u));
            if let Activity::Locking(LockOp::Park { node }) = pre.activity(u) {
                if pre.memory.nodes[node].marked && !pre.tokens.contains(u) {
                    let r = choose|r: u64| #[trigger]
                        pre.activity(r) == Activity::Unlocking(UnlockOp::Wake { thread: u });
                    assert(r != t ==> post.activity(r) == pre.activity(r));
                }
            }
        } else if let Some(node) = node_of(pre.activity(t)) {
            assert(post.is_target(node) == pre.is_target(node));
        }
    }
}

/// The steps of a thread on its way to the lock that leave the nodes and the queue alone.
proof fn quiet_locking_step(pre: LockSystem, t: u64, fresh: usize)
    requires
        pre.inv(),
        pre.can_step(t, fresh),
        match pre.activity(t) {
            Activity::Idle => true,
            Activity::Locking(op) => op is Begin || op is TryFast || op is Load || op is Acquire
                || op is Spin || op is LockQueue || op is ClearNext || op is FindTail || op is Held,
            Activity::Unlocking(_) => false,
        },
    ensures
        pre.step(t, fresh).inv(),
{
    let post = pre.step(t, fresh);
    let word = pre.memory.state;
    assert(pre.thread_inv(t));
    path_holds_nodes(pre);
    word_is_composed(word);
    compose_is_faithful(address(word), true, false);
    compose_is_faithful(address(word), true, is_queue_locked(word));
    compose_is_faithful(address(word), is_locked(word), true);
    assert(locks_queue(pre.activity(t)) ==> is_queue_locked(word));
    assert(pre.owns(t) ==> pre.is_owned());
    assert forall|u: u64| u != t implies #[trigger] post.activity(u) == pre.activity(u) by {}
    assert(post.memory.nodes =~= pre.memory.nodes);
    match pre.activity(t) {
        Activity::Locking(LockOp::LockQueue { .. }) => {
            if pre.path.len() > 0 {
                assert(pre.path[0] != 0);
                assert(pre.path.contains(pre.path[0]));
            }
        },
        Activity::Locking(LockOp::FindTail { tail, .. }) => {
            let i = choose|i: int| 0 <= i < pre.path.len() && pre.path[i] == tail;
            assert(pre.memory.nodes[pre.path[i]].link() == after(pre.path, i));
            if i + 1 < pre.path.len() {
                assert(pre.path[i + 1] != 0);
                assert(pre.path.contains(pre.path[i + 1]));
            }
        },
        _ => {},
    }
    assert(post.thread_inv(t));
    nodes_are_left_alone(pre, post, t);
    owner_is_kept(pre, post, t);
    window_is_kept(pre, post, t);
}

/// A thread that sleeps wakes up, or goes to sleep again.
proof fn restless_step(pre: LockSystem, t: u64, fresh: usize)
    requires
        pre.inv(),
        pre.can_step(t, fresh),
        sleep_node(pre.activity(t)) is Some,
        sleep_node(pre.step(t, fresh).activity(t)) is Some,
    ensures
        pre.step(t, fresh).inv(),
{
    let post = pre.step(t, fresh);
    assert(pre.thread_inv(t));
    assert forall|u: u64| u != t implies #[trigger] post.activity(u) == pre.activity(u) by {}
    assert(post.memory == pre.memory);
    let node = sleep_node(pre.activity(t))->0;
    if let Activity::Locking(LockOp::Look { .. }) = pre.activity(t) {
        assert(post.is_target(node) == pre.is_target(node)) by {
            if pre.is_target(node) {
                let r = choose|r: u64| #[trigger] hands_over(pre.activity(r), node);
                assert(hands_over(post.activity(r), node));
            }
            if post.is_target(node) {
                let r = choose|r: u64| #[trigger] hands_over(post.activity(r), node);
                assert(hands_over(pre.activity(r), node));
            }
        }
        assert(post.thread_inv(t));
    }
    nodes_are_left_alone(pre, post, t);
    owner_is_kept(pre, post, t);
    window_is_kept(pre, post, t);
}

/// The steps of a thread that lets go of the lock that leave the nodes and the queue alone.
proof fn quiet_unlocking_step(pre: LockSystem, t: u64, fresh: usize)
    requires
        pre.inv(),
        pre.can_step(t, fresh),
        pre.activity(t) matches Activity::Unlocking(op) && op !is Publish && op !is Mark,
        !(pre.step(t, fresh).activity(t) matches Activity::Unlocking(UnlockOp::Mark { .. })),
    ensures
        pre.step(t, fresh).inv(),
{
    let post = pre.step(t, fresh);
    let word = pre.memory.state;
    assert(pre.thread_inv(t));
    path_holds_nodes(pre);
    word_is_composed(word);
    compose_is_faithful(address(word), is_locked(word), true);
    compose_is_faithful(0, false, false);
    assert(locks_queue(pre.activity(t)) ==> is_queue_locked(word));
    assert(pre.owns(t) ==> pre.is_owned());
    assert forall|u: u64| u != t implies #[trigger] post.activity(u) == pre.activity(u) by {}
    if pre.path.len() > 0 {
        assert(pre.path[0] != 0);
        assert(pre.path.contains(pre.path[0]));
    }
    assert(post.thread_inv(t));
    nodes_are_left_alone(pre, post, t);
    owner_is_kept(pre, post, t);
    window_is_kept(pre, post, t);
}

/// Where a step does not change who is about to mark a node, or about to wake a thread, that
/// stays as it is.
proof fn handing_over_is_kept(pre: LockSystem, post: LockSystem, t: u64)
    requires
        forall|u: u64| u != t ==> #[trigger] post.activity(u) == pre.activity(u),
        !(pre.activity(t) is Unlocking),
        !(post.activity(t) is Unlocking),
    ensures
        forall|a: usize| #[trigger] post.is_target(a) == pre.is_target(a),
        forall|u: u64| #[trigger] post.is_being_woken(u) == pre.is_being_woken(u),
{
    assert forall|a: usize| #[trigger] post.is_target(a) == pre.is_target(a) by {
        if pre.is_target(a) {
            let r = choose|r: u64| #[trigger] hands_over(pre.activity(r), a);
            assert(hands_over(post.activity(r), a));
        }
        if post.is_target(a) {
            let r = choose|r: u64| #[trigger] hands_over(post.activity(r), a);
            assert(hands_over(pre.activity(r), a));
        }
    }
    assert forall|u: u64| #[trigger] post.is_being_woken(u) == pre.is_being_woken(u) by {
        if pre.is_being_woken(u) {
            let r = choose|r: u64| #[trigger]
                pre.activity(r) == Activity::Unlocking(UnlockOp::Wake { thread: u });
            assert(post.activity(r) == pre.activity(r));
        }
        if post.is_being_woken(u) {
            let r = choose|r: u64| #[trigger]
                post.activity(r) == Activity::Unlocking(UnlockOp::Wake { thread: u });
            assert(post.activity(r) == pre.activity(r));
        }
    }
}

/// No thread is about to mark the node of a thread that does not sleep, or a node that is marked.
proof fn only_sleepers_are_targets(s: LockSystem, t: u64, a: usize)
    requires
        s.inv(),
        s.memory.nodes[a].thread == t,
        sleep_node(s.activity(t)) != Some(a) || s.memory.nodes[a].marked,
    ensures
        !s.is_target(a),
{
    if s.is_target(a) {
        let r = choose|r: u64| #[trigger] hands_over(s.activity(r), a);
        assert(s.thread_inv(r));
    }
}

proof fn allocating_step(pre: LockSystem, t: u64, fresh: usize)
    requires
        pre.inv(),
        pre.can_step(t, fresh),
        pre.activity(t) == Activity::Locking(LockOp::Allocate),
    ensures
        pre.step(t, fresh).inv(),
{
    let post = pre.step(t, fresh);
    let nodes = pre.memory.nodes;
    assert(pre.thread_inv(t));
    path_holds_nodes(pre);
    assert forall|u: u64| u != t implies #[trigger] post.activity(u) == pre.activity(u) by {}
    handing_over_is_kept(pre, post, t);
    assert(!pre.path.contains(fresh));
    chain_frame(nodes, post.memory.nodes, first(pre.path), pre.path);
    assert(post.waiting() =~= pre.waiting());
    assert forall|u: u64| u != t implies #[trigger] post.owns(u) == pre.owns(u) by {
        assert(pre.thread_inv(u));
        assert(post.activity(u) == pre.activity(u));
    }
    owner_is_kept(pre, post, t);
    window_is_kept(pre, post, t);
    assert forall|u: u64| #[trigger] post.thread_inv(u) by {
        assert(pre.thread_inv(u));
        if u != t {
            assert(post.activity(u) == pre.activity(u));
            if let Some(node) = node_of(pre.activity(u)) {
                assert(post.is_target(node) == pre.is_target(node));
            }
            assert(post.is_being_woken(u) == pre.is_being_woken(u));
        }
    }
}

/// A thread that has the lock gives its node back.
proof fn freeing_step(pre: LockSystem, t: u64, fresh: usize)
    requires
        pre.inv(),
        pre.can_step(t, fresh),
        pre.activity(t) matches Activity::Locking(op) && (op is Discard || op is Leave),
    ensures
        pre.step(t, fresh).inv(),
{
    let post = pre.step(t, fresh);
    let nodes = pre.memory.nodes;
    let own = node_of(pre.activity(t))->0;
    assert(pre.thread_inv(t));
    path_holds_nodes(pre);
    assert forall|u: u64| u != t implies #[trigger] post.activity(u) == pre.activity(u) by {}
    handing_over_is_kept(pre, post, t);
    only_sleepers_are_targets(pre, t, own);
    chain_frame(nodes, post.memory.nodes, first(pre.path), pre.path);
    assert(post.waiting() =~= pre.waiting());
    assert forall|u: u64| u != t implies #[trigger] post.owns(u) == pre.owns(u) by {
        assert(pre.thread_inv(u));
        assert(post.activity(u) == pre.activity(u));
    }
    owner_is_kept(pre, post, t);
    window_is_kept(pre, post, t);
    assert forall|u: u64| #[trigger] post.thread_inv(u) by {
        assert(pre.thread_inv(u));
        if u != t {
            assert(post.activity(u) == pre.activity(u));
            if let Some(node) = node_of(pre.activity(u)) {
                assert(post.is_target(node) == pre.is_target(node));
            }
            if let Activity::Unlocking(UnlockOp::Mark { head, .. }) = pre.activity(u) {
                assert(hands_over(pre.activity(u), head));
                assert(head != own);
            }
            assert(post.is_being_woken(u) == pre.is_being_woken(u));
        }
    }
}

/// A thread finds that the lock was handed over to it.
proof fn receiving_step(pre: LockSystem, t: u64, fresh: usize)
    requires
        pre.inv(),
        pre.can_step(t, fresh),
        pre.activity(t) matches Activity::Locking(LockOp::Look { .. }),
        pre.is_granted(t),
    ensures
        pre.step(t, fresh).inv(),
{
    let post = pre.step(t, fresh);
    let own = sleep_node(pre.activity(t))->0;
    assert(pre.thread_inv(t));
    assert forall|u: u64| u != t implies #[trigger] post.activity(u) == pre.activity(u) by {}
    handing_over_is_kept(pre, post, t);
    only_sleepers_are_targets(pre, t, own);
    assert(post.memory == pre.memory);
    assert(post.waiting() == pre.waiting());
    assert forall|u: u64| u != t implies #[trigger] post.owns(u) == pre.owns(u) by {
        assert(post.activity(u) == pre.activity(u));
    }
    assert(post.owns(t));
    owner_is_kept(pre, post, t);
    window_is_kept(pre, post, t);
    assert forall|u: u64| #[trigger] post.thread_inv(u) by {
        assert(pre.thread_inv(u));
        if u != t {
            assert(post.activity(u) == pre.activity(u));
            if let Some(node) = node_of(pre.activity(u)) {
                assert(post.is_target(node) == pre.is_target(node));
            }
            if let Activity::Unlocking(UnlockOp::Mark { head, .. }) = pre.activity(u) {
                assert(hands_over(pre.activity(u), head));
                assert(head != own);
            }
            assert(post.is_being_woken(u) == pre.is_being_woken(u));
        }
    }
}

/// The node of a thread comes to stand behind all others.
proof fn appending_step(pre: LockSystem, t: u64, fresh: usize)
    requires
        pre.inv(),
        pre.can_step(t, fresh),
        pre.activity(t) matches Activity::Locking(op) && op is Append,
    ensures
        pre.step(t, fresh).inv(),
{
    let post = pre.step(t, fresh);
    let nodes = pre.memory.nodes;
    let own = pre.activity(t)->Locking_0->Append_node;
    let last = post.memory.nodes[pre.path.last()];
    assert(pre.thread_inv(t));
    path_holds_nodes(pre);
    assert(locks_queue(pre.activity(t)));
    assert forall|u: u64| u != t implies #[trigger] post.activity(u) == pre.activity(u) by {}
    handing_over_is_kept(pre, post, t);
    assert(pre.path.contains(pre.path.last()));
    chain_push_back(nodes, first(pre.path), pre.path, own, last);
    assert(post.memory.nodes == nodes.insert(pre.path.last(), last));
    assert(post.waiting() =~= pre.waiting().push(t));
    assert forall|a: usize| #[trigger] post.path.contains(a) == (pre.path.contains(a) || a
        == own) by {
        if pre.path.contains(a) {
            let i = choose|i: int| 0 <= i < pre.path.len() && pre.path[i] == a;
            assert(post.path[i] == a);
        }
        assert(post.path[pre.path.len() as int] == own);
    }
    assert forall|u: u64| u != t implies #[trigger] post.owns(u) == pre.owns(u) by {
        assert(pre.thread_inv(u));
        assert(post.activity(u) == pre.activity(u));
    }
    owner_is_kept(pre, post, t);
    window_is_kept(pre, post, t);
    assert(pre.thread_inv(nodes[pre.path.last()].thread));
    assert forall|u: u64| #[trigger] post.thread_inv(u) by {
        assert(pre.thread_inv(u));
        if u != t {
            assert(post.activity(u) == pre.activity(u));
            assert(!locks_queue(pre.activity(u)));
            if let Some(node) = node_of(pre.activity(u)) {
                assert(post.is_target(node) == pre.is_target(node));
                assert(nodes.contains_key(node));
                assert(node != own);
            }
            assert(post.is_being_woken(u) == pre.is_being_woken(u));
        }
    }
}

/// A thread unlocks the queue, in which its node is by now the only one or the last one.
proof fn publishing_step(pre: LockSystem, t: u64, fresh: usize)
    requires
        pre.inv(),
        pre.can_step(t, fresh),
        pre.activity(t) matches Activity::Locking(op) && op is Publish,
    ensures
        pre.step(t, fresh).inv(),
{
    let post = pre.step(t, fresh);
    let nodes = pre.memory.nodes;
    let own = pre.activity(t)->Locking_0->Publish_node;
    let head = pre.activity(t)->Locking_0->Publish_head;
    assert(pre.thread_inv(t));
    path_holds_nodes(pre);
    assert(locks_queue(pre.activity(t)));
    assert forall|u: u64| u != t implies #[trigger] post.activity(u) == pre.activity(u) by {}
    handing_over_is_kept(pre, post, t);
    only_sleepers_are_targets(pre, t, own);
    assert(nodes.contains_key(own));
    compose_is_faithful(head, true, false);
    if own == head {
        chain_push_front(nodes, 0, pre.path, own);
        assert(post.path =~= seq![own] + pre.path);
        assert(post.path[0] == own);
        assert(post.waiting() =~= pre.waiting().push(t));
        assert(pre.waiting() =~= Seq::<u64>::empty());
    } else {
        assert(post.waiting() == pre.waiting());
    }
    assert forall|a: usize| #[trigger] post.path.contains(a) == (pre.path.contains(a) || a
        == own) by {
        if own == head {
            assert(post.path.len() == 1);
        }
    }
    assert forall|u: u64| u != t implies #[trigger] post.owns(u) == pre.owns(u) by {
        assert(post.activity(u) == pre.activity(u));
    }
    owner_is_kept(pre, post, t);
    window_is_kept(pre, post, t);
    assert forall|u: u64| #[trigger] post.thread_inv(u) by {
        assert(pre.thread_inv(u));
        if u != t {
            assert(post.activity(u) == pre.activity(u));
            assert(!locks_queue(pre.activity(u)));
            if let Some(node) = node_of(pre.activity(u)) {
                assert(post.is_target(node) == pre.is_target(node));
                assert(node != own);
            }
            assert(post.is_being_woken(u) == pre.is_being_woken(u));
        } else {
            assert(post.is_target(own) == pre.is_target(own));
        }
    }
}

/// A thread that lets go of the lock takes the first node out of the queue.
proof fn taking_out_step(pre: LockSystem, t: u64, fresh: usize)
    requires
        pre.inv(),
        pre.can_step(t, fresh),
        pre.activity(t) matches Activity::Unlocking(op) && op is Publish,
    ensures
        pre.step(t, fresh).inv(),
{
    let post = pre.step(t, fresh);
    let nodes = pre.memory.nodes;
    let head = pre.path[0];
    let next = pre.activity(t)->Unlocking_0->Publish_next;
    let thread = pre.activity(t)->Unlocking_0->Publish_thread;
    assert(pre.thread_inv(t));
    path_holds_nodes(pre);
    assert(pre.path.contains(head));
    assert(locks_queue(pre.activity(t)));
    assert(pre.owns(t));
    assert forall|u: u64| u != t implies #[trigger] post.activity(u) == pre.activity(u) by {}
    compose_is_faithful(next, true, false);
    chain_tail(nodes, head, pre.path);
    assert(nodes[pre.path[0]].link() == after(pre.path, 0));
    assert(pre.waiting() =~= seq![thread] + post.waiting());
    assert(post.arrived =~= post.served + post.waiting());
    assert forall|a: usize| #[trigger] post.path.contains(a) == (pre.path.contains(a) && a
        != head) by {
        if pre.path.contains(a) && a != head {
            let i = choose|i: int| 0 <= i < pre.path.len() && pre.path[i] == a;
            assert(post.path[i - 1] == a);
        }
        if post.path.contains(a) {
            let i = choose|i: int| 0 <= i < post.path.len() && post.path[i] == a;
            assert(pre.path[i + 1] == a);
        }
    }
    assert(pre.thread_inv(thread));
    assert(thread != t);
    assert(!locks_queue(pre.activity(thread)));
    assert(sleep_node(pre.activity(thread)) == Some(head));
    assert(hands_over(post.activity(t), head));
    assert(post.is_target(head));
    assert forall|a: usize| a != head implies #[trigger] post.is_target(a) == pre.is_target(a) by {
        if pre.is_target(a) {
            let r = choose|r: u64| #[trigger] hands_over(pre.activity(r), a);
            assert(hands_over(post.activity(r), a));
        }
        if post.is_target(a) {
            let r = choose|r: u64| #[trigger] hands_over(post.activity(r), a);
            assert(hands_over(pre.activity(r), a));
        }
    }
    assert forall|u: u64| u != t implies #[trigger] post.owns(u) == pre.owns(u) by {
        assert(post.activity(u) == pre.activity(u));
    }
    owner_is_kept(pre, post, t);
    window_is_kept(pre, post, t);
    assert forall|u: u64| #[trigger] post.thread_inv(u) by {
        assert(pre.thread_inv(u));
        if u != t {
            assert(post.activity(u) == pre.activity(u));
            assert(!locks_queue(pre.activity(u)));
            if let Some(node) = node_of(pre.activity(u)) {
                assert(node != head ==> post.is_target(node) == pre.is_target(node));
            }
            if pre.is_being_woken(u) {
                let r = choose|r: u64| #[trigger]
                    pre.activity(r) == Activity::Unlocking(UnlockOp::Wake { thread: u });
                assert(post.activity(r) == pre.activity(r));
            }
        }
    }
}

/// A thread hands the lock over.
proof fn marking_step(pre: LockSystem, t: u64, fresh: usize)
    requires
        pre.inv(),
        pre.can_step(t, fresh),
        pre.activity(t) matches Activity::Unlocking(op) && op is Mark,
    ensures
        pre.step(t, fresh).inv(),
{
    let post = pre.step(t, fresh);
    let nodes = pre.memory.nodes;
    let head = pre.activity(t)->Unlocking_0->Mark_head;
    let thread = pre.activity(t)->Unlocking_0->Mark_thread;
    assert(pre.thread_inv(t));
    assert(pre.thread_inv(thread));
    path_holds_nodes(pre);
    assert(pre.owns(t));
    assert(hands_over(pre.activity(t), head));
    assert(pre.is_target(head));
    assert(!pre.path.contains(head));
    assert forall|u: u64| u != t implies #[trigger] post.activity(u) == pre.activity(u) by {}
    assert(post.activity(t) == Activity::Unlocking(UnlockOp::Wake { thread }));
    assert forall|i: int| 0 <= i < pre.path.len() implies post.memory.nodes.contains_key(
        #[trigger] pre.path[i],
    ) && post.memory.nodes[pre.path[i]] == nodes[pre.path[i]] by {
        assert(pre.path.contains(pre.path[i]));
    }
    chain_frame(nodes, post.memory.nodes, first(pre.path), pre.path);
    assert(post.waiting() =~= pre.waiting());
    assert forall|a: usize| #[trigger] post.is_target(a) == (pre.is_target(a) && a != head) by {
        if pre.is_target(a) && a != head {
            let r = choose|r: u64| #[trigger] hands_over(pre.activity(r), a);
            assert(hands_over(post.activity(r), a));
        }
        if post.is_target(a) {
            let r = choose|r: u64| #[trigger] hands_over(post.activity(r), a);
            assert(hands_over(pre.activity(r), a));
            assert(pre.owns(r));
        }
    }
    // The lock goes from the one thread to the other.
    assert(post.owns(thread));
    assert(!post.owns(t));
    assert forall|u: u64| u != t && u != thread implies #[trigger] post.owns(u) == pre.owns(u) by {
        assert(pre.thread_inv(u));
        assert(post.activity(u) == pre.activity(u));
    }
    assert forall|u: u64, v: u64| #[trigger] post.owns(u) && #[trigger] post.owns(v) implies u
        == v by {
        assert(u != thread ==> pre.owns(u));
        assert(v != thread ==> pre.owns(v));
    }
    assert(pre.is_owned());
    assert(post.is_owned());
    window_is_kept(pre, post, t);
    assert forall|u: u64| #[trigger] post.thread_inv(u) by {
        assert(pre.thread_inv(u));
        if u != t {
            assert(post.activity(u) == pre.activity(u));
            if let Some(node) = node_of(pre.activity(u)) {
                assert(node == head ==> u == thread);
                assert(post.is_target(node) == (pre.is_target(node) && node != head));
            }
            if let Activity::Unlocking(UnlockOp::Mark { head: other, .. }) = pre.activity(u) {
                assert(pre.owns(u));
            }
            if u == thread {
                assert(post.is_being_woken(thread)) by {
                    assert(post.activity(t) == Activity::Unlocking(UnlockOp::Wake { thread }));
                }
            } else if pre.is_being_woken(u) {
                let r = choose|r: u64| #[trigger]
                    pre.activity(r) == Activity::Unlocking(UnlockOp::Wake { thread: u });
                assert(post.activity(r) == pre.activity(r));
            }
        }
    }
}

/// Every step of every thread keeps the lock in order.
pub proof fn step_keeps_order(pre: LockSystem, t: u64, fresh: usize)
    requires
        pre.inv(),
        pre.can_step(t, fresh),
    ensures
        pre.step(t, fresh).inv(),
{
    match pre.activity(t) {
        Activity::Idle => quiet_locking_step(pre, t, fresh),
        Activity::Locking(op) => match op {
            LockOp::Allocate => allocating_step(pre, t, fresh),
            LockOp::Discard { .. } => freeing_step(pre, t, fresh),
            LockOp::Leave { .. } => freeing_step(pre, t, fresh),
            LockOp::Append { .. } => appending_step(pre, t, fresh),
            LockOp::Publish { .. } => publishing_step(pre, t, fresh),
            LockOp::Park { .. } => restless_step(pre, t, fresh),
            LockOp::Look { .. } => if pre.is_granted(t) {
                receiving_step(pre, t, fresh)
            } else {
                restless_step(pre, t, fresh)
            },
            _ => quiet_locking_step(pre, t, fresh),
        },
        Activity::Unlocking(op) => match op {
            UnlockOp::Publish { .. } => taking_out_step(pre, t, fresh),
            UnlockOp::Mark { .. } => marking_step(pre, t, fresh),
            _ => quiet_unlocking_step(pre, t, fresh),
        },
    }
}

/// The executions of a lock: any number of threads make their steps in any order.
pub open spec fn is_lock_execution(states: Seq<LockSystem>) -> bool {
    is_execution(
        states,
        |s: LockSystem| s.init(),
        |s: LockSystem, post: LockSystem| s.next(post),
    )
}

/// In every execution the lock is in order at every moment.
pub proof fn order_holds_throughout(states: Seq<LockSystem>, i: int)
    requires
        is_lock_execution(states),
        0 <= i < states.len(),
    ensures
        states[i].inv(),
{
    let init = |s: LockSystem| s.init();
    let next = |s: LockSystem, post: LockSystem| s.next(post);
    let inv = |s: LockSystem| s.inv();
    assert forall|s: LockSystem| #[trigger] init(s) implies inv(s) by {
        start_is_in_order(s);
    }
    assert forall|s: LockSystem, post: LockSystem| inv(s) && #[trigger] next(s, post) implies inv(
        post,
    ) by {
        let (t, fresh) = choose|t: u64, fresh: usize| #[trigger]
            s.can_step(t, fresh) && post == s.step(t, fresh);
        step_keeps_order(s, t, fresh);
    }
    invariant_holds_throughout(states, init, next, inv, i);
}

/// A free lock that no thread uses is in order.
pub proof fn start_is_in_order(s: LockSystem)
    requires
        s.init(),
    ensures
        s.inv(),
{
    assert(s.waiting() =~= Seq::<u64>::empty());
    word_is_composed(0);
}

} // verus!
