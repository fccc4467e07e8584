//! What becomes of the nodes of a linked list while threads change it: none is lost, and a call
//! ends only when it has seen to the node that it had for itself.

use crate::execution::invariant_holds_throughout;
use crate::linked_list::{DeleteOp, InsertOp};
use crate::linked_list_laws::{
    is_list_execution, list_holds_throughout, new_node, node_leaves_list, old_node,
    path_holds_its_nodes, private_node, step_keeps_list, ListActivity, ListChance, ListSystem,
};
use vstd::prelude::*;

verus! {

impl<T> ListSystem<T> {
    /// Whether a thread has a node for itself.
    pub open spec fn is_kept(self, a: usize) -> bool {
        exists|u: u64| private_node(#[trigger] self.activity(u)) == Some(a)
    }

    /// Every node in use is in the list, or some thread has it for itself.
    pub open spec fn no_loss_inv(self) -> bool {
        forall|a: usize| #[trigger]
            self.memory.nodes.contains_key(a) ==> self.path.contains(a) || self.is_kept(a)
    }

    /// Every node that was taken out and not given back is one that some thread will give back.
    pub open spec fn retired_is_kept_inv(self) -> bool {
        forall|a: usize| #[trigger]
            self.retired.contains_key(a) ==> exists|u: u64|
                old_node(#[trigger] self.activity(u)) == Some(a)
    }
}

/// A node that is in the list is so after a step, or the thread that made the step has it for
/// itself.
proof fn node_in_list_is_not_lost<T>(
    pre: ListSystem<T>,
    t: u64,
    chance: ListChance<T>,
    a: usize,
)
    requires
        pre.inv(),
        pre.can_step(t, chance),
        pre.path.contains(a),
    ensures
        pre.step(t, chance).path.contains(a) || old_node(pre.step(t, chance).activity(t)) == Some(
            a,
        ),
{
    let post = pre.step(t, chance);
    if pre.takes_out(t, chance) {
        node_leaves_list(pre, t, chance);
    } else if let ListActivity::Inserting(InsertOp::Exchange { node, .. }) = pre.activity(t) {
        let k = choose|k: int| 0 <= k < pre.path.len() && pre.path[k] == a;
        if post.path != pre.path {
            assert(post.path == seq![node] + pre.path);
            assert(post.path[k + 1] == a);
        }
    }
}

/// Every step of every thread keeps track of all nodes.
pub proof fn step_loses_no_node<T>(pre: ListSystem<T>, t: u64, chance: ListChance<T>)
    requires
        pre.inv(),
        pre.no_loss_inv(),
        pre.retired_is_kept_inv(),
        pre.can_step(t, chance),
    ensures
        pre.step(t, chance).no_loss_inv(),
        pre.step(t, chance).retired_is_kept_inv(),
{
    let post = pre.step(t, chance);
    assert(pre.thread_inv(t));
    path_holds_its_nodes(pre);
    assert(forall|u: u64| u != t ==> #[trigger] post.activity(u) == pre.activity(u));
    if pre.takes_out(t, chance) {
        node_leaves_list(pre, t, chance);
    }
    assert forall|a: usize| #[trigger] post.memory.nodes.contains_key(a) implies post.path.contains(
        a,
    ) || post.is_kept(a) by {
        if pre.path.contains(a) {
            node_in_list_is_not_lost(pre, t, chance, a);
            if !post.path.contains(a) {
                assert(private_node(post.activity(t)) == Some(a));
            }
        } else if pre.memory.nodes.contains_key(a) {
            let u = choose|u: u64| private_node(#[trigger] pre.activity(u)) == Some(a);
            if u != t {
                assert(private_node(post.activity(u)) == Some(a));
            } else if private_node(post.activity(t)) != Some(a) {
                if let ListActivity::Inserting(InsertOp::Exchange { node, .. }) = pre.activity(t) {
                    assert(post.path == seq![node] + pre.path);
                    assert(post.path[0] == a);
                }
            }
        } else {
            assert(private_node(post.activity(t)) == Some(a));
        }
    }
    assert forall|a: usize| #[trigger] post.retired.contains_key(a) implies exists|u: u64|
        old_node(#[trigger] post.activity(u)) == Some(a) by {
        if pre.retired.contains_key(a) {
            let u = choose|u: u64| old_node(#[trigger] pre.activity(u)) == Some(a);
            assert(old_node(post.activity(u)) == Some(a));
        } else {
            assert(old_node(post.activity(t)) == Some(a));
        }
    }
}

/// No node is lost: at every moment each node in use is in the list, or is one that a thread is
/// about to put in, or one that a thread has taken out and is about to give back.
pub proof fn no_node_is_lost<T>(states: Seq<ListSystem<T>>, i: int, a: usize)
    requires
        is_list_execution(states),
        0 <= i < states.len(),
    ensures
        states[i].memory.nodes.contains_key(a) ==> states[i].path.contains(a) || exists|u: u64|
            new_node(#[trigger] states[i].activity(u)) == Some(a) || old_node(
                states[i].activity(u),
            ) == Some(a),
        states[i].retired.contains_key(a) ==> exists|u: u64|
            old_node(#[trigger] states[i].activity(u)) == Some(a),
{
    let init = |s: ListSystem<T>| s.init();
    let next = |s: ListSystem<T>, post: ListSystem<T>| s.next(post);
    let inv = |s: ListSystem<T>| s.inv() && s.no_loss_inv() && s.retired_is_kept_inv();
    assert forall|s: ListSystem<T>| #[trigger] init(s) implies inv(s) by {
        assert forall|a: usize| #[trigger] s.retired_inv(a) by {}
    }
    assert forall|s: ListSystem<T>, post: ListSystem<T>| inv(s) && #[trigger] next(
        s,
        post,
    ) implies inv(post) by {
        let (t, chance) = choose|t: u64, chance: ListChance<T>| #[trigger]
            s.can_step(t, chance) && post == s.step(t, chance);
        step_keeps_list(s, t, chance);
        step_loses_no_node(s, t, chance);
    }
    invariant_holds_throughout(states, init, next, inv, i);
    let s = states[i];
    if s.memory.nodes.contains_key(a) && !s.path.contains(a) {
        let u = choose|u: u64| private_node(#[trigger] s.activity(u)) == Some(a);
        assert(new_node(s.activity(u)) == Some(a) || old_node(s.activity(u)) == Some(a));
    }
}

/// While nobody is about to put an item in or to take one out, the nodes in use are those of the
/// list and no others.
pub proof fn list_at_rest_has_no_other_nodes<T>(states: Seq<ListSystem<T>>, i: int, a: usize)
    requires
        is_list_execution(states),
        0 <= i < states.len(),
        forall|u: u64| #[trigger]
            states[i].activity(u) is Idle || states[i].activity(u) is Looking
                || states[i].activity(u) == ListActivity::Inserting(InsertOp::Done) || (
            states[i].activity(u) matches ListActivity::Deleting(DeleteOp::Done { .. })),
    ensures
        states[i].memory.nodes.contains_key(a) <==> states[i].path.contains(a),
{
    no_node_is_lost(states, i, a);
    list_holds_throughout(states, i);
    path_holds_its_nodes(states[i]);
}

/// A deletion says what it did. One that ends with success has just given back the node that it had
/// taken out of the list, and one that ends without has no node for itself and leaves the memory as
/// it was. One that has taken a node out can only go on with it or end with success.
pub proof fn deletion_ends_as_it_went<T>(states: Seq<ListSystem<T>>, i: int, t: u64)
    requires
        is_list_execution(states),
        0 <= i < states.len() - 1,
        states[i].activity(t) is Deleting,
        states[i + 1].activity(t) != states[i].activity(t),
    ensures
        states[i + 1].activity(t) == ListActivity::Deleting(DeleteOp::Done { deleted: true }) ==> {
            let a = old_node(states[i].activity(t));
            &&& a is Some
            &&& states[i].retired.contains_key(a->0)
            &&& states[i].memory.nodes.contains_key(a->0)
            &&& !states[i + 1].memory.nodes.contains_key(a->0)
            &&& states[i + 1].items() == states[i].items()
        },
        states[i + 1].activity(t) == ListActivity::Deleting(DeleteOp::Done { deleted: false }) ==> {
            &&& old_node(states[i].activity(t)) is None
            &&& states[i + 1].memory == states[i].memory
            &&& states[i + 1].items() == states[i].items()
        },
        old_node(states[i].activity(t)) is Some ==> old_node(states[i + 1].activity(t)) == old_node(
            states[i].activity(t),
        ) || states[i + 1].activity(t) == ListActivity::Deleting(DeleteOp::Done { deleted: true }),
        old_node(states[i].activity(t)) is None ==> (old_node(states[i + 1].activity(t)) is Some
            <==> states[i + 1].items() != states[i].items()),
{
    list_holds_throughout(states, i);
    list_holds_throughout(states, i + 1);
    let pre = states[i];
    let next = |s: ListSystem<T>, post: ListSystem<T>| s.next(post);
    assert(next(states[i], states[i + 1]));
    let (u, chance) = choose|u: u64, chance: ListChance<T>| #[trigger]
        pre.can_step(u, chance) && states[i + 1] == pre.step(u, chance);
    assert(u == t);
    assert(pre.thread_inv(t));
    path_holds_its_nodes(pre);
    if pre.takes_out(t, chance) {
        node_leaves_list(pre, t, chance);
        assert(states[i + 1].items().len() != pre.items().len());
    } else {
        assert(states[i + 1].path == pre.path);
        if let ListActivity::Deleting(DeleteOp::Free { node }) = pre.activity(t) {
            assert(pre.retired_inv(node));
        }
        assert(states[i + 1].items() =~= pre.items()) by {
            assert forall|k: int| 0 <= k < pre.path.len() implies pre.path.contains(
                #[trigger] pre.path[k],
            ) by {}
        }
    }
}

/// An insertion ends only by putting its item in front: in the step with which it does, its node
/// has come to stand before all others, and until then it stays with its thread.
pub proof fn insertion_ends_as_it_went<T>(states: Seq<ListSystem<T>>, i: int, t: u64, node: usize)
    requires
        is_list_execution(states),
        0 <= i < states.len() - 1,
        new_node(states[i].activity(t)) == Some(node),
    ensures
        new_node(states[i + 1].activity(t)) == Some(node) || {
            &&& states[i + 1].activity(t) == ListActivity::Inserting(InsertOp::Done)
            &&& states[i + 1].path == seq![node] + states[i].path
            &&& states[i + 1].items() == seq![states[i].memory.nodes[node].data]
                + states[i].items()
        },
{
    list_holds_throughout(states, i);
    let pre = states[i];
    let post = states[i + 1];
    let next = |s: ListSystem<T>, post: ListSystem<T>| s.next(post);
    assert(next(states[i], states[i + 1]));
    let (u, chance) = choose|u: u64, chance: ListChance<T>| #[trigger]
        pre.can_step(u, chance) && post == pre.step(u, chance);
    if u == t && new_node(post.activity(t)) != Some(node) {
        assert(post.path == seq![node] + pre.path);
        path_holds_its_nodes(pre);
        assert(post.items() =~= seq![pre.memory.nodes[node].data] + pre.items()) by {
            assert forall|k: int| 0 < k < post.path.len() implies #[trigger] post.path[k]
                == pre.path[k - 1] by {}
        }
    }
}

} // verus!
