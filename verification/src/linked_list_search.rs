//! A search of a linked list misses no item that is in the list all the while.

use crate::chain::{after, place_is_unique, Linked};
use crate::linked_list::{ContainsOp, DeleteOp, InsertOp};
use crate::linked_list_laws::{
    is_list_execution, list_holds_throughout, node_leaves_list, path_holds_its_nodes,
    step_keeps_list, ListActivity, ListChance, ListSystem,
};
use vstd::prelude::*;

verus! {

impl<T> ListSystem<T> {
    /// How many nodes were taken out since a node was.
    pub open spec fn removals_since(self, x: usize) -> int {
        if self.retired[x] < self.removals {
            self.removals - self.retired[x]
        } else {
            0
        }
    }

    /// Whether the links lead from node `x`, in the list or taken out of it, to node `n` further
    /// on in the list.
    pub open spec fn is_ahead(self, x: usize, n: usize) -> bool
        decreases self.removals_since(x),
    {
        let next = self.memory.nodes[x].next;
        if self.path.contains(x) {
            self.path.index_of(x) < self.path.index_of(n)
        } else if !self.retired.contains_key(x) || self.retired[x] >= self.removals {
            false
        } else if self.path.contains(next) {
            self.path.index_of(next) <= self.path.index_of(n)
        } else {
            &&& self.retired.contains_key(next)
            &&& self.retired[next] > self.retired[x]
            &&& self.is_ahead(next, n)
        }
    }

    /// Whether a thread that looks for an item has node `n` still before it.
    pub open spec fn comes_to(self, t: u64, n: usize) -> bool {
        match self.activity(t) {
            ListActivity::Looking(ContainsOp::LoadHead) => self.path.contains(n),
            ListActivity::Looking(ContainsOp::Examine { node }) => node != n && self.is_ahead(
                node,
                n,
            ),
            ListActivity::Looking(ContainsOp::Advance { node }) => self.is_ahead(node, n),
            _ => false,
        }
    }
}

/// A step that leaves the nodes of the list and those that were taken out alone.
proof fn ahead_is_left_alone<T>(pre: ListSystem<T>, post: ListSystem<T>, x: usize, n: usize)
    requires
        post.path == pre.path,
        post.removals == pre.removals,
        post.retired == pre.retired,
        forall|a: usize| #[trigger]
            pre.retired.contains_key(a) ==> post.memory.nodes[a] == pre.memory.nodes[a],
        pre.is_ahead(x, n),
    ensures
        post.is_ahead(x, n),
    decreases pre.removals_since(x),
{
    let next = pre.memory.nodes[x].next;
    if !pre.path.contains(x) {
        assert(pre.retired.contains_key(x));
        if !pre.path.contains(next) {
            ahead_is_left_alone(pre, post, next, n);
        }
    }
}

/// A new node in front moves all others by one place.
proof fn ahead_when_put_in<T>(pre: ListSystem<T>, post: ListSystem<T>, node: usize, x: usize, n: usize)
    requires
        pre.path.no_duplicates(),
        post.path.no_duplicates(),
        post.path == seq![node] + pre.path,
        post.removals == pre.removals,
        post.retired == pre.retired,
        post.memory.nodes == pre.memory.nodes,
        !pre.path.contains(node),
        !pre.retired.contains_key(node),
        pre.path.contains(n),
        pre.is_ahead(x, n),
    ensures
        post.is_ahead(x, n),
    decreases pre.removals_since(x),
{
    let next = pre.memory.nodes[x].next;
    assert forall|a: usize| #[trigger] pre.path.contains(a) implies post.path.contains(a)
        && post.path.index_of(a) == pre.path.index_of(a) + 1 by {
        let k = choose|k: int| 0 <= k < pre.path.len() && pre.path[k] == a;
        place_is_unique(pre.path, k);
        assert(post.path[k + 1] == a);
        place_is_unique(post.path, k + 1);
    }
    if pre.path.contains(x) {
        assert(post.path.contains(x));
    } else {
        assert(x != node);
        assert(!post.path.contains(x)) by {
            if post.path.contains(x) {
                let k = choose|k: int| 0 <= k < post.path.len() && post.path[k] == x;
                assert(k > 0);
                assert(pre.path[k - 1] == x);
            }
        }
        if pre.path.contains(next) {
            assert(post.path.contains(next));
        } else {
            assert(!post.path.contains(next)) by {
                if post.path.contains(next) {
                    let k = choose|k: int| 0 <= k < post.path.len() && post.path[k] == next;
                    assert(k > 0);
                    assert(pre.path[k - 1] == next);
                }
            }
            ahead_when_put_in(pre, post, node, next, n);
        }
    }
}

/// A node that is taken out leaves the others in order, and leads on to those after it.
proof fn ahead_when_taken_out<T>(
    pre: ListSystem<T>,
    t: u64,
    chance: ListChance<T>,
    x: usize,
    n: usize,
)
    requires
        pre.inv(),
        pre.can_step(t, chance),
        pre.takes_out(t, chance),
        pre.path.contains(n),
        n != pre.activity(t)->Deleting_0->Exchange_node,
        pre.is_ahead(x, n),
    ensures
        pre.step(t, chance).is_ahead(x, n),
    decreases pre.removals_since(x),
{
    let post = pre.step(t, chance);
    let node = pre.activity(t)->Deleting_0->Exchange_node;
    let i = pre.path.index_of(node);
    node_leaves_list(pre, t, chance);
    assert(pre.retired_inv(node));
    assert forall|a: usize| pre.path.contains(a) && a != node implies #[trigger]
        post.path.index_of(a) == (if pre.path.index_of(a) < i {
            pre.path.index_of(a)
        } else {
            pre.path.index_of(a) - 1
        }) by {
        let k = choose|k: int| 0 <= k < pre.path.len() && pre.path[k] == a;
        place_is_unique(pre.path, k);
        let m = if k < i {
            k
        } else {
            k - 1
        };
        assert(post.path[m] == a);
        place_is_unique(post.path, m);
    }
    assert(pre.path.contains(node));
    // What holds of the node that was taken out.
    assert(i < pre.path.index_of(n) ==> post.is_ahead(node, n)) by {
        if i < pre.path.index_of(n) {
            let follower = pre.path[i + 1];
            assert(pre.path.contains(follower));
            place_is_unique(pre.path, i + 1);
            assert(follower != node);
            assert(post.memory.nodes[node].next == follower);
            assert(post.path.index_of(follower) == pre.path.index_of(follower) - 1);
            assert(post.path.index_of(n) == pre.path.index_of(n) - 1);
        }
    }
    assert(post.path.index_of(n) == (if pre.path.index_of(n) < i {
        pre.path.index_of(n)
    } else {
        pre.path.index_of(n) - 1
    }));
    place_is_unique(pre.path, i);
    if pre.path.contains(x) {
        if x != node {
            assert(post.path.contains(x));
            assert(pre.path[pre.path.index_of(x)] == x);
            assert(post.path.index_of(x) == (if pre.path.index_of(x) < i {
                pre.path.index_of(x)
            } else {
                pre.path.index_of(x) - 1
            }));
        }
    } else {
        let next = pre.memory.nodes[x].next;
        assert(pre.retired_inv(x));
        assert(post.memory.nodes[x] == pre.memory.nodes[x]);
        assert(!post.path.contains(x));
        if pre.path.contains(next) {
            assert(pre.path[pre.path.index_of(next)] == next);
            if next == node {
                assert(pre.path[pre.path.index_of(n)] == n);
                assert(post.is_ahead(node, n));
                assert(!post.path.contains(next));
                assert(post.is_ahead(x, n));
            } else {
                assert(post.path.contains(next));
                assert(post.path.index_of(next) == (if pre.path.index_of(next) < i {
                    pre.path.index_of(next)
                } else {
                    pre.path.index_of(next) - 1
                }));
            }
        } else {
            ahead_when_taken_out(pre, t, chance, next, n);
            assert(!post.path.contains(next));
            assert(pre.retired_inv(next));
        }
    }
}

/// A node that is given back is none that a searching thread could come to.
proof fn ahead_when_given_back<T>(
    pre: ListSystem<T>,
    post: ListSystem<T>,
    node: usize,
    x: usize,
    n: usize,
)
    requires
        post.path == pre.path,
        post.removals == pre.removals,
        post.retired == pre.retired.remove(node),
        post.memory.nodes == pre.memory.nodes.remove(node),
        pre.retired.contains_key(node),
        !pre.path.contains(node),
        pre.path.contains(x) || pre.retired[x] > pre.retired[node],
        pre.is_ahead(x, n),
    ensures
        post.is_ahead(x, n),
    decreases pre.removals_since(x),
{
    let next = pre.memory.nodes[x].next;
    if !pre.path.contains(x) {
        assert(x != node);
        assert(pre.retired.contains_key(x));
        assert(post.memory.nodes[x] == pre.memory.nodes[x]);
        if !pre.path.contains(next) {
            ahead_when_given_back(pre, post, node, next, n);
        }
    }
}

/// What is ahead of a thread that looks for an item stays so whatever another thread does,
/// unless it is taken out.
proof fn others_leave_it_ahead<T>(
    pre: ListSystem<T>,
    t: u64,
    x: usize,
    n: usize,
    u: u64,
    chance: ListChance<T>,
)
    requires
        pre.inv(),
        pre.can_step(u, chance),
        pre.activity(t) is Looking,
        pre.is_searching(t),
        pre.visits(t, x),
        pre.path.contains(n),
        pre.step(u, chance).path.contains(n),
        pre.is_ahead(x, n),
        u != t,
    ensures
        pre.step(u, chance).is_ahead(x, n),
{
    let post = pre.step(u, chance);
    assert(pre.thread_inv(t));
    assert(pre.thread_inv(u));
    step_keeps_list(pre, u, chance);
    match pre.activity(u) {
        ListActivity::Inserting(InsertOp::Exchange { node, head }) => {
            if !chance.fails && pre.memory.head == head {
                ahead_when_put_in(pre, post, node, x, n);
            } else {
                ahead_is_left_alone(pre, post, x, n);
            }
        },
        ListActivity::Deleting(DeleteOp::Exchange { node, .. }) => {
            if pre.takes_out(u, chance) {
                node_leaves_list(pre, u, chance);
                ahead_when_taken_out(pre, u, chance, x, n);
            } else {
                ahead_is_left_alone(pre, post, x, n);
            }
        },
        ListActivity::Deleting(DeleteOp::Free { node }) => {
            assert(pre.retired_inv(node));
            assert(pre.began[t] > pre.retired[node]);
            ahead_when_given_back(pre, post, node, x, n);
        },
        _ => {
            assert forall|a: usize| #[trigger] pre.retired.contains_key(
                a,
            ) implies post.memory.nodes[a] == pre.memory.nodes[a] by {
                assert(pre.retired_inv(a));
            }
            ahead_is_left_alone(pre, post, x, n);
        },
    }
}

/// A thread that looks for an item comes nearer to a node ahead of it, and is not at the end of
/// the list.
proof fn search_comes_nearer<T>(pre: ListSystem<T>, t: u64, n: usize, chance: ListChance<T>)
    requires
        pre.inv(),
        pre.path.contains(n),
        pre.comes_to(t, n),
    ensures
        ({
            let post = pre.step(t, chance);
            ||| post.comes_to(t, n)
            ||| post.activity(t) == ListActivity::Looking(ContainsOp::Examine { node: n })
            ||| post.activity(t) == ListActivity::Looking(ContainsOp::Leave { found: true })
        }),
{
    let post = pre.step(t, chance);
    assert(pre.thread_inv(t));
    path_holds_its_nodes(pre);
    let place = pre.path.index_of(n);
    assert(pre.path[place] == n);
    match pre.activity(t)->Looking_0 {
        ContainsOp::LoadHead => {
            let head = pre.path[0];
            place_is_unique(pre.path, 0);
            assert(pre.path.contains(head));
            assert(head != n ==> pre.is_ahead(head, n));
            if head != n {
                ahead_is_left_alone(pre, post, head, n);
            }
        },
        ContainsOp::Examine { node } => {
            ahead_is_left_alone(pre, post, node, n);
        },
        ContainsOp::Advance { node } => {
            let next = pre.memory.nodes[node].next;
            if pre.path.contains(node) {
                let k = pre.path.index_of(node);
                assert(pre.path[k] == node);
                assert(pre.memory.nodes[pre.path[k]].link() == after(pre.path, k));
                assert(pre.path[k + 1] == next);
                place_is_unique(pre.path, k + 1);
                assert(pre.path.contains(next));
            } else if pre.path.contains(next) {
                assert(pre.path[pre.path.index_of(next)] == next);
            } else {
                assert(pre.retired_inv(next));
            }
            if next != n {
                assert(pre.is_ahead(next, n));
                ahead_is_left_alone(pre, post, next, n);
            }
        },
        _ => {},
    }
}

/// Whether a thread is in one search of the list from one moment to another: it has announced
/// itself and does not know the answer yet.
pub open spec fn is_one_search<T>(states: Seq<ListSystem<T>>, i: int, j: int, t: u64) -> bool {
    &&& 0 <= i < j < states.len()
    &&& states[i].activity(t) == ListActivity::Looking(ContainsOp::LoadHead)
    &&& forall|k: int|
        i < k < j ==> ((#[trigger] states[k]).activity(t) matches ListActivity::Looking(op) && (op
            is LoadHead || op is Examine || op is Advance))
}

proof fn search_goes_on<T>(
    states: Seq<ListSystem<T>>,
    i: int,
    j: int,
    k: int,
    t: u64,
    n: usize,
)
    requires
        is_list_execution(states),
        is_one_search(states, i, j, t),
        i <= k < j,
        forall|m: int| i <= m <= j ==> (#[trigger] states[m]).path.contains(n),
        forall|m: int|
            i < m < j ==> (#[trigger] states[m]).activity(t) != ListActivity::Looking(
                ContainsOp::Examine { node: n },
            ),
    ensures
        states[k].comes_to(t, n),
    decreases k - i,
{
    assert(states[k].path.contains(n));
    if k > i {
        search_goes_on(states, i, j, k - 1, t, n);
        list_holds_throughout(states, k - 1);
        let pre = states[k - 1];
        assert(pre.path.contains(n));
        let next = |s: ListSystem<T>, post: ListSystem<T>| s.next(post);
        assert(next(states[k - 1], states[k]));
        let (u, chance) = choose|u: u64, chance: ListChance<T>| #[trigger]
            pre.can_step(u, chance) && states[k] == pre.step(u, chance);
        if u == t {
            search_comes_nearer(pre, t, n, chance);
        } else {
            assert(states[k].activity(t) == pre.activity(t));
            match pre.activity(t)->Looking_0 {
                ContainsOp::Examine { node } => {
                    others_leave_it_ahead(pre, t, node, n, u, chance);
                },
                ContainsOp::Advance { node } => {
                    others_leave_it_ahead(pre, t, node, n, u, chance);
                },
                _ => {},
            }
        }
    }
}

/// A search misses nothing that stays: if it comes to the end of the list without having found
/// its item, it has looked at every node that was in the list all the while.
pub proof fn search_misses_nothing_that_stays<T>(
    states: Seq<ListSystem<T>>,
    i: int,
    j: int,
    t: u64,
    n: usize,
)
    requires
        is_list_execution(states),
        is_one_search(states, i, j, t),
        states[j].activity(t) == ListActivity::Looking(ContainsOp::Leave { found: false }),
        forall|m: int| i <= m <= j ==> (#[trigger] states[m]).path.contains(n),
    ensures
        exists|m: int|
            i < m < j && (#[trigger] states[m]).activity(t) == ListActivity::Looking(
                ContainsOp::Examine { node: n },
            ),
{
    if forall|m: int|
        i < m < j ==> (#[trigger] states[m]).activity(t) != ListActivity::Looking(
            ContainsOp::Examine { node: n },
        ) {
        search_goes_on(states, i, j, j - 1, t, n);
        list_holds_throughout(states, j - 1);
        let pre = states[j - 1];
        assert(pre.path.contains(n));
        let next = |s: ListSystem<T>, post: ListSystem<T>| s.next(post);
        assert(next(states[j - 1], states[j]));
        let (u, chance) = choose|u: u64, chance: ListChance<T>| #[trigger]
            pre.can_step(u, chance) && states[j] == pre.step(u, chance);
        if u == t {
            search_comes_nearer(pre, t, n, chance);
        } else {
            assert(states[j].activity(t) == pre.activity(t));
        }
    }
}

} // verus!
