//! What the interleavings of threads on a linked list keep.
//!
//! Threads that look for an item are counted, and no node is given back under them. Threads that
//! look for an item to take out are not counted, so two things can go wrong among those, and the
//! executions considered here leave them out: that such a thread is at a node, or goes on to one,
//! that is given back, and that two threads take out neighbours in such a way that one of them
//! undoes what the other has done.

use crate::chain::{
    after, chain_frame, chain_push_front, chain_tail, chain_unlink, is_chain,
    remove_keeps_distinct, Linked,
};
use crate::execution::{invariant_holds_throughout, is_execution};
use crate::linked_list::{
    has_match, is_first_match, items_along, ContainsOp, DeleteOp, InsertOp, Link, ListAccess,
    ListReply, ListView, Node,
};
use vstd::prelude::*;
use vstd::std_specs::cmp::PartialEqSpec;

verus! {

/// What a thread is doing with the list.
pub enum ListActivity {
    /// Nothing.
    Idle,
    /// Putting an item in.
    Inserting(InsertOp),
    /// Taking an item out.
    Deleting(DeleteOp),
    /// Looking for an item.
    Looking(ContainsOp),
}

/// What an idle thread may begin.
pub enum ListTask {
    Insert,
    Delete,
    Look,
}

/// What is left open in a step: what an idle thread begins, the item that it puts in and the
/// address that the allocation chooses, whether two items are equal, and whether an exchange
/// that could be made fails.
pub struct ListChance<T> {
    pub task: ListTask,
    pub item: T,
    pub fresh: usize,
    pub equal: bool,
    pub fails: bool,
}

/// A list and the threads that use it, with their history.
pub struct ListSystem<T> {
    pub memory: ListView<T>,
    pub threads: Map<u64, ListActivity>,
    /// The nodes in the list.
    pub path: Seq<usize>,
    /// The threads that are counted as looking for an item.
    pub lookers: Set<u64>,
    /// How many nodes were taken out so far.
    pub removals: nat,
    /// The nodes that were taken out and not given back, each with the number of nodes that
    /// were taken out before it.
    pub retired: Map<usize, nat>,
    /// How many nodes had been taken out when a thread last read the head to search the list.
    pub began: Map<u64, nat>,
}

/// What an access gives back, where an exchange may fail for no reason.
pub open spec fn list_reply<T>(
    memory: ListView<T>,
    access: ListAccess,
    chance: ListChance<T>,
) -> ListReply {
    if access is CompareExchange && chance.fails {
        ListReply::Failed
    } else {
        memory.reply(access, chance.equal)
    }
}

/// The memory after an access, where an exchange may fail for no reason.
pub open spec fn list_effect<T>(
    memory: ListView<T>,
    access: ListAccess,
    chance: ListChance<T>,
) -> ListView<T> {
    if access is CompareExchange && chance.fails {
        memory
    } else {
        memory.effect(access)
    }
}

/// Whether a thread is counted as one that looks for an item.
pub open spec fn is_counted(activity: ListActivity) -> bool {
    activity matches ListActivity::Looking(op) && op !is Enter && op !is Done
}

/// The node that a thread is about to put in.
pub open spec fn new_node(activity: ListActivity) -> Option<usize> {
    match activity {
        ListActivity::Inserting(InsertOp::Load { node }) => Some(node),
        ListActivity::Inserting(InsertOp::Store { node, .. }) => Some(node),
        ListActivity::Inserting(InsertOp::Exchange { node, .. }) => Some(node),
        _ => None,
    }
}

/// The node that a thread has taken out and is about to give back.
pub open spec fn old_node(activity: ListActivity) -> Option<usize> {
    match activity {
        ListActivity::Deleting(DeleteOp::AwaitReaders { node }) => Some(node),
        ListActivity::Deleting(DeleteOp::Spin { node }) => Some(node),
        ListActivity::Deleting(DeleteOp::Free { node }) => Some(node),
        _ => None,
    }
}

/// The node that a thread has for itself: one not in the list yet or not in it any more.
pub open spec fn private_node(activity: ListActivity) -> Option<usize> {
    if new_node(activity) is Some {
        new_node(activity)
    } else {
        old_node(activity)
    }
}

impl<T> ListSystem<T> {
    /// What a thread is doing.
    pub open spec fn activity(self, t: u64) -> ListActivity {
        if self.threads.contains_key(t) {
            self.threads[t]
        } else {
            ListActivity::Idle
        }
    }

    /// An empty list that no thread uses.
    pub open spec fn init(self) -> bool {
        &&& self.memory.head == 0
        &&& self.memory.readers == 0
        &&& self.memory.nodes == Map::<usize, Node<T>>::empty()
        &&& self.threads == Map::<u64, ListActivity>::empty()
        &&& self.path == Seq::<usize>::empty()
        &&& self.lookers == Set::<u64>::empty()
        &&& self.removals == 0
        &&& self.retired == Map::<usize, nat>::empty()
        &&& self.began == Map::<u64, nat>::empty()
    }

    /// The same system with another activity of one thread.
    pub open spec fn with(self, t: u64, activity: ListActivity) -> Self {
        ListSystem { threads: self.threads.insert(t, activity), ..self }
    }

    /// The items in the list, the newest first.
    pub open spec fn items(self) -> Seq<T> {
        items_along(self.memory.nodes, self.path)
    }

    /// Whether a thread is among the nodes, to look for an item or to take one out.
    pub open spec fn is_searching(self, t: u64) -> bool {
        match self.activity(t) {
            ListActivity::Looking(op) => op is Examine || op is Advance,
            ListActivity::Deleting(op) => op is Examine || op is LoadNext || op is Exchange
                || op is Advance,
            _ => false,
        }
    }

    /// Whether a node is one that a searching thread is at, or has just come from.
    pub open spec fn visits(self, t: u64, a: usize) -> bool {
        match self.activity(t) {
            ListActivity::Looking(ContainsOp::Examine { node }) => a == node,
            ListActivity::Looking(ContainsOp::Advance { node }) => a == node,
            ListActivity::Deleting(DeleteOp::Examine { link, node }) => a == node || link
                == (Link::Next { node: a }),
            ListActivity::Deleting(DeleteOp::LoadNext { link, node }) => a == node || link
                == (Link::Next { node: a }),
            ListActivity::Deleting(DeleteOp::Exchange { link, node, .. }) => a == node || link
                == (Link::Next { node: a }),
            ListActivity::Deleting(DeleteOp::Advance { node }) => a == node,
            _ => false,
        }
    }

    /// Whether an exchange of thread `t` would take a node out.
    pub open spec fn takes_out(self, t: u64, chance: ListChance<T>) -> bool {
        &&& self.activity(t) matches ListActivity::Deleting(DeleteOp::Exchange { link, node, .. })
        &&& self.memory.at(link) == node
        &&& !chance.fails
    }

    /// Whether a link is in the list: its head or the link of one of its nodes.
    pub open spec fn is_in_list(self, link: Link) -> bool {
        link matches Link::Next { node } ==> self.path.contains(node)
    }

    /// Whether thread `t` can make a step. The count of those that look does not overflow. A
    /// node is taken out by a link that is still in the list, and together with none after it.
    /// It is not given back under a thread that is there to take an item out, and no such thread
    /// goes on to a node that was given back.
    pub open spec fn can_step(self, t: u64, chance: ListChance<T>) -> bool {
        match self.activity(t) {
            ListActivity::Idle => chance.task is Insert ==> chance.fresh != 0
                && !self.memory.nodes.contains_key(chance.fresh),
            ListActivity::Deleting(DeleteOp::Exchange { link, node, next }) => self.takes_out(
                t,
                chance,
            ) ==> self.is_in_list(link) && next == self.memory.nodes[node].next,
            ListActivity::Deleting(DeleteOp::Free { node }) => forall|u: u64|
                self.activity(u) is Deleting ==> !#[trigger] self.visits(u, node),
            ListActivity::Deleting(DeleteOp::Advance { node }) => self.retired.contains_key(node)
                ==> self.leads_on(node),
            ListActivity::Looking(ContainsOp::Enter) => self.memory.readers < usize::MAX,
            _ => true,
        }
    }

    /// The system after one step of a thread that puts an item in.
    pub open spec fn insert_step(self, t: u64, chance: ListChance<T>, op: InsertOp) -> Self {
        let access = op.next_access();
        let reply = list_reply(self.memory, access, chance);
        ListSystem {
            memory: list_effect(self.memory, access, chance),
            path: match op {
                InsertOp::Exchange { node, .. } => if reply is Swapped {
                    seq![node] + self.path
                } else {
                    self.path
                },
                _ => self.path,
            },
            ..self.with(t, ListActivity::Inserting(op.after(reply)))
        }
    }

    /// The system after one step of a thread that takes an item out.
    pub open spec fn delete_step(self, t: u64, chance: ListChance<T>, op: DeleteOp) -> Self {
        let access = op.next_access();
        let reply = list_reply(self.memory, access, chance);
        let post = ListSystem {
            memory: list_effect(self.memory, access, chance),
            ..self.with(t, ListActivity::Deleting(op.after(reply)))
        };
        match op {
            DeleteOp::LoadHead => ListSystem {
                began: self.began.insert(t, self.removals),
                ..post
            },
            DeleteOp::Exchange { node, .. } => if reply is Swapped {
                ListSystem {
                    path: self.path.remove(self.path.index_of(node)),
                    removals: self.removals + 1,
                    retired: self.retired.insert(node, self.removals),
                    ..post
                }
            } else {
                post
            },
            DeleteOp::Free { node } => ListSystem { retired: self.retired.remove(node), ..post },
            _ => post,
        }
    }

    /// The system after one step of a thread that looks for an item.
    pub open spec fn look_step(self, t: u64, chance: ListChance<T>, op: ContainsOp) -> Self {
        let access = op.next_access();
        let reply = list_reply(self.memory, access, chance);
        let post = ListSystem {
            memory: list_effect(self.memory, access, chance),
            ..self.with(t, ListActivity::Looking(op.after(reply)))
        };
        match op {
            ContainsOp::Enter => ListSystem { lookers: self.lookers.insert(t), ..post },
            ContainsOp::LoadHead => ListSystem {
                began: self.began.insert(t, self.removals),
                ..post
            },
            ContainsOp::Leave { .. } => ListSystem { lookers: self.lookers.remove(t), ..post },
            _ => post,
        }
    }

    /// The system after one step of thread `t`.
    pub open spec fn step(self, t: u64, chance: ListChance<T>) -> Self {
        match self.activity(t) {
            ListActivity::Idle => match chance.task {
                ListTask::Insert => ListSystem {
                    memory: ListView {
                        nodes: self.memory.nodes.insert(
                            chance.fresh,
                            Node { data: chance.item, next: 0, ref_count: 0 },
                        ),
                        ..self.memory
                    },
                    ..self.with(
                        t,
                        ListActivity::Inserting(InsertOp::Load { node: chance.fresh }),
                    )
                },
                ListTask::Delete => self.with(t, ListActivity::Deleting(DeleteOp::LoadHead)),
                ListTask::Look => self.with(t, ListActivity::Looking(ContainsOp::Enter)),
            },
            ListActivity::Inserting(InsertOp::Done) => self.with(t, ListActivity::Idle),
            ListActivity::Inserting(op) => self.insert_step(t, chance, op),
            ListActivity::Deleting(DeleteOp::Done { .. }) => self.with(t, ListActivity::Idle),
            ListActivity::Deleting(op) => self.delete_step(t, chance, op),
            ListActivity::Looking(ContainsOp::Done { .. }) => self.with(t, ListActivity::Idle),
            ListActivity::Looking(op) => self.look_step(t, chance, op),
        }
    }

    /// One step of some thread leads from `self` to `post`.
    pub open spec fn next(self, post: Self) -> bool {
        exists|t: u64, chance: ListChance<T>| #[trigger]
            self.can_step(t, chance) && post == self.step(t, chance)
    }

    /// Whether a node is in the list, or was taken out when `since` others had been before it.
    pub open spec fn in_reach(self, a: usize, since: nat) -> bool {
        self.path.contains(a) || (self.retired.contains_key(a) && self.retired[a] >= since)
    }

    /// Whether the link of a node that was taken out ends there, or leads into the list or to a
    /// node that was taken out later.
    pub open spec fn leads_on(self, a: usize) -> bool {
        self.memory.nodes[a].next == 0 || self.in_reach(
            self.memory.nodes[a].next,
            self.retired[a] + 1,
        )
    }

    /// What holds of the operation of one thread.
    pub open spec fn thread_inv(self, t: u64) -> bool {
        let nodes = self.memory.nodes;
        &&& new_node(self.activity(t)) matches Some(node) ==> {
            &&& node != 0
            &&& nodes.contains_key(node)
            &&& !self.path.contains(node)
            &&& !self.retired.contains_key(node)
        }
        &&& old_node(self.activity(t)) matches Some(node) ==> self.retired.contains_key(node)
        &&& self.is_searching(t) ==> self.began[t] <= self.removals
        &&& forall|a: usize| #[trigger] self.visits(t, a) ==> self.in_reach(a, self.began[t])
        &&& self.lookers.contains(t) == is_counted(self.activity(t))
        &&& match self.activity(t) {
            ListActivity::Inserting(InsertOp::Exchange { node, head }) => nodes[node].next == head,
            ListActivity::Deleting(DeleteOp::Free { node }) => forall|u: u64| #[trigger]
                self.is_searching(u) && self.activity(u) is Looking ==> self.began[u]
                    > self.retired[node],
            _ => true,
        }
    }

    /// What holds of a node that was taken out: it leads on as long as a thread is among the nodes
    /// that began to look for an item before it was taken out.
    pub open spec fn retired_inv(self, a: usize) -> bool {
        self.retired.contains_key(a) ==> {
            &&& a != 0
            &&& self.memory.nodes.contains_key(a)
            &&& !self.path.contains(a)
            &&& self.retired[a] < self.removals
            &&& forall|u: u64| #[trigger]
                self.is_searching(u) && self.activity(u) is Looking && self.began[u]
                    <= self.retired[a] ==> self.leads_on(a)
        }
    }

    /// No two threads have the same node for themselves.
    pub open spec fn pair_inv(self, t: u64, u: u64) -> bool {
        private_node(self.activity(t)) is Some && private_node(self.activity(t)) == private_node(
            self.activity(u),
        ) ==> t == u
    }

    /// All of it together: the nodes of `path` form the list, and the count of those that look
    /// is right.
    pub open spec fn inv(self) -> bool {
        &&& is_chain(self.memory.nodes, self.memory.head, self.path)
        &&& self.lookers.finite()
        &&& self.memory.readers == self.lookers.len()
        &&& forall|t: u64| #[trigger] self.thread_inv(t)
        &&& forall|a: usize| #[trigger] self.retired_inv(a)
        &&& forall|t: u64, u: u64|
            #![trigger self.activity(t), self.activity(u)]
            self.pair_inv(t, u)
    }
}

/// The nodes of a path are in it.
pub proof fn path_holds_its_nodes<T>(s: ListSystem<T>)
    requires
        s.inv(),
    ensures
        forall|i: int| 0 <= i < s.path.len() ==> s.path.contains(#[trigger] s.path[i]),
        forall|a: usize| #[trigger]
            s.path.contains(a) ==> a != 0 && s.memory.nodes.contains_key(a),
{
    assert forall|a: usize| #[trigger] s.path.contains(a) implies a != 0
        && s.memory.nodes.contains_key(a) by {
        let k = choose|k: int| 0 <= k < s.path.len() && s.path[k] == a;
        assert(s.path[k] != 0);
    }
}

/// What two threads have for themselves after a step of one of them.
proof fn pairs_are_kept<T>(pre: ListSystem<T>, post: ListSystem<T>, t: u64)
    requires
        pre.inv(),
        forall|u: u64| u != t ==> #[trigger] post.activity(u) == pre.activity(u),
        forall|u: u64| u != t ==> #[trigger] post.pair_inv(t, u),
    ensures
        forall|u: u64, v: u64|
            #![trigger post.activity(u), post.activity(v)]
            post.pair_inv(u, v),
{
    assert forall|u: u64, v: u64|
        #![trigger post.activity(u), post.activity(v)]
        post.pair_inv(u, v) by {
        assert(pre.activity(u) == pre.activity(u));
        assert(pre.activity(v) == pre.activity(v));
        assert(pre.pair_inv(u, v));
        if u != t {
            assert(post.pair_inv(t, u));
        }
        if v != t {
            assert(post.pair_inv(t, v));
        }
    }
}

/// A step that leaves the nodes of the list and those that were taken out alone.
proof fn list_is_left_alone<T>(pre: ListSystem<T>, post: ListSystem<T>, t: u64)
    requires
        pre.inv(),
        post.path == pre.path,
        post.removals == pre.removals,
        post.retired == pre.retired,
        post.memory.head == pre.memory.head,
        forall|a: usize|
            (pre.path.contains(a) || pre.retired.contains_key(a)) ==> (
            #[trigger] post.memory.nodes.contains_key(a)) && post.memory.nodes[a]
                == pre.memory.nodes[a],
        forall|u: u64, a: usize|
            u != t && private_node(#[trigger] pre.activity(u)) == Some(a) ==> (
            #[trigger] post.memory.nodes.contains_key(a)) && post.memory.nodes[a]
                == pre.memory.nodes[a],
        forall|u: u64| u != t ==> #[trigger] post.activity(u) == pre.activity(u),
        forall|u: u64| u != t ==> #[trigger] post.began[u] == pre.began[u],
        forall|u: u64| u != t ==> post.lookers.contains(u) == pre.lookers.contains(u),
        post.lookers.finite(),
        post.memory.readers == post.lookers.len(),
        post.thread_inv(t),
        forall|u: u64| u != t ==> #[trigger] post.pair_inv(t, u),
        post.is_searching(t) ==> post.began[t] == pre.removals || (pre.is_searching(t)
            && post.began[t] == pre.began[t] && (pre.activity(t) is Looking) == (post.activity(
            t,
        ) is Looking)),
    ensures
        post.inv(),
        post.items() == pre.items(),
{
    path_holds_its_nodes(pre);
    assert forall|i: int| 0 <= i < pre.path.len() implies post.memory.nodes.contains_key(
        #[trigger] pre.path[i],
    ) && post.memory.nodes[pre.path[i]] == pre.memory.nodes[pre.path[i]] by {
        assert(pre.path.contains(pre.path[i]));
    }
    chain_frame(pre.memory.nodes, post.memory.nodes, pre.memory.head, pre.path);
    assert(post.items() =~= pre.items());
    assert forall|u: u64| u != t implies #[trigger] post.is_searching(u) == pre.is_searching(
        u,
    ) by {
        assert(post.activity(u) == pre.activity(u));
    }
    assert forall|a: usize| #[trigger] post.retired_inv(a) by {
        assert(pre.retired_inv(a));
        if pre.retired.contains_key(a) {
            assert(post.memory.nodes.contains_key(a));
            assert forall|u: u64| #[trigger] post.is_searching(u) && post.activity(
                u,
            ) is Looking && post.began[u] <= post.retired[a] implies post.leads_on(a) by {
                assert(u != t ==> post.activity(u) == pre.activity(u));
                assert(pre.is_searching(u));
                assert(u != t ==> post.began[u] == pre.began[u]);
            }
        }
    }
    assert forall|u: u64| #[trigger] post.thread_inv(u) by {
        if u != t {
            assert(pre.thread_inv(u));
            assert(post.activity(u) == pre.activity(u));
            assert(post.began[u] == pre.began[u]);
            assert forall|a: usize| #[trigger] post.visits(u, a) implies post.in_reach(
                a,
                post.began[u],
            ) by {
                assert(pre.visits(u, a));
            }
            if let Some(node) = private_node(pre.activity(u)) {
                assert(post.memory.nodes.contains_key(node));
            }
            if let ListActivity::Deleting(DeleteOp::Free { node }) = pre.activity(u) {
                assert(pre.retired_inv(node));
                assert forall|v: u64| #[trigger] post.is_searching(v) && post.activity(
                    v,
                ) is Looking implies post.began[v] > post.retired[node] by {
                    if v != t {
                        assert(pre.is_searching(v));
                        assert(post.activity(v) == pre.activity(v));
                        assert(post.began[v] == pre.began[v]);
                    } else if pre.is_searching(t) {
                        assert(pre.thread_inv(u));
                    }
                }
            }
        }
    }
    pairs_are_kept(pre, post, t);
}

/// Where the next node is, seen from a node that a searching thread is at.
proof fn next_is_in_reach<T>(s: ListSystem<T>, t: u64, a: usize)
    requires
        s.inv(),
        s.is_searching(t),
        s.visits(t, a),
        s.activity(t) is Deleting && s.retired.contains_key(a) ==> s.leads_on(a),
    ensures
        s.memory.nodes[a].next == 0 || s.in_reach(s.memory.nodes[a].next, s.began[t]),
{
    assert(s.thread_inv(t));
    path_holds_its_nodes(s);
    if s.path.contains(a) {
        let k = choose|k: int| 0 <= k < s.path.len() && s.path[k] == a;
        assert(s.memory.nodes[s.path[k]].link() == after(s.path, k));
    } else {
        assert(s.retired_inv(a));
        assert(s.leads_on(a));
    }
}

proof fn beginning_step<T>(pre: ListSystem<T>, t: u64, chance: ListChance<T>)
    requires
        pre.inv(),
        pre.can_step(t, chance),
        pre.activity(t) is Idle,
    ensures
        pre.step(t, chance).inv(),
        pre.step(t, chance).items() == pre.items(),
{
    let post = pre.step(t, chance);
    assert(pre.thread_inv(t));
    path_holds_its_nodes(pre);
    assert forall|u: u64| u != t implies #[trigger] post.activity(u) == pre.activity(u) by {}
    assert forall|a: usize| pre.retired.contains_key(a) implies (
    #[trigger] post.memory.nodes.contains_key(a)) && post.memory.nodes[a]
        == pre.memory.nodes[a] by {
        assert(pre.retired_inv(a));
    }
    assert(pre.retired_inv(chance.fresh));
    assert forall|u: u64, a: usize|
        u != t && private_node(#[trigger] pre.activity(u)) == Some(a) implies (
    #[trigger] post.memory.nodes.contains_key(a)) && post.memory.nodes[a]
        == pre.memory.nodes[a] by {
        assert(pre.thread_inv(u));
        assert(pre.retired_inv(a));
    }
    assert forall|u: u64| u != t implies #[trigger] post.pair_inv(t, u) by {
        assert(pre.thread_inv(u));
        assert(post.activity(u) == pre.activity(u));
        if let Some(a) = private_node(pre.activity(u)) {
            assert(pre.retired_inv(a));
        }
    }
    list_is_left_alone(pre, post, t);
}

proof fn preparing_step<T>(pre: ListSystem<T>, t: u64, chance: ListChance<T>)
    requires
        pre.inv(),
        pre.can_step(t, chance),
        pre.activity(t) matches ListActivity::Inserting(op) && op !is Exchange,
    ensures
        pre.step(t, chance).inv(),
        pre.step(t, chance).items() == pre.items(),
{
    let post = pre.step(t, chance);
    assert(pre.thread_inv(t));
    path_holds_its_nodes(pre);
    assert forall|u: u64| u != t implies #[trigger] post.activity(u) == pre.activity(u) by {}
    assert forall|a: usize| pre.retired.contains_key(a) implies (
    #[trigger] post.memory.nodes.contains_key(a)) && post.memory.nodes[a]
        == pre.memory.nodes[a] by {
        assert(pre.retired_inv(a));
    }
    assert forall|u: u64, a: usize|
        u != t && private_node(#[trigger] pre.activity(u)) == Some(a) implies (
    #[trigger] post.memory.nodes.contains_key(a)) && post.memory.nodes[a]
        == pre.memory.nodes[a] by {
        assert(pre.thread_inv(u));
        assert(pre.retired_inv(a));
        assert(pre.activity(t) == pre.activity(t));
        assert(pre.pair_inv(t, u));
    }
    assert forall|u: u64| u != t implies #[trigger] post.pair_inv(t, u) by {
        assert(pre.activity(t) == pre.activity(t));
        assert(pre.activity(u) == pre.activity(u));
        assert(pre.pair_inv(t, u));
        assert(post.activity(u) == pre.activity(u));
    }
    list_is_left_alone(pre, post, t);
}

/// A step of a thread that looks for an item.
proof fn looking_step<T>(pre: ListSystem<T>, t: u64, chance: ListChance<T>)
    requires
        pre.inv(),
        pre.can_step(t, chance),
        pre.activity(t) is Looking,
    ensures
        pre.step(t, chance).inv(),
        pre.step(t, chance).items() == pre.items(),
{
    let post = pre.step(t, chance);
    assert(pre.thread_inv(t));
    path_holds_its_nodes(pre);
    assert forall|u: u64| u != t implies #[trigger] post.activity(u) == pre.activity(u) by {}
    assert forall|a: usize| pre.retired.contains_key(a) implies (
    #[trigger] post.memory.nodes.contains_key(a)) by {
        assert(pre.retired_inv(a));
    }
    assert forall|u: u64, a: usize|
        u != t && private_node(#[trigger] pre.activity(u)) == Some(a) implies (
    #[trigger] post.memory.nodes.contains_key(a)) by {
        assert(pre.thread_inv(u));
        assert(pre.retired_inv(a));
    }
    match pre.activity(t)->Looking_0 {
        ContainsOp::LoadHead => {
            if pre.path.len() > 0 {
                assert(pre.path.contains(pre.path[0]));
            }
        },
        ContainsOp::Examine { node } => {
            assert(pre.visits(t, node));
        },
        ContainsOp::Advance { node } => {
            assert(pre.visits(t, node));
            next_is_in_reach(pre, t, node);
        },
        _ => {},
    }
    assert(post.thread_inv(t));
    list_is_left_alone(pre, post, t);
}

/// A step of a thread on its way to an item to take out, or of one that waits before it gives a
/// node back.
proof fn searching_step<T>(pre: ListSystem<T>, t: u64, chance: ListChance<T>)
    requires
        pre.inv(),
        pre.can_step(t, chance),
        pre.activity(t) matches ListActivity::Deleting(op) && op !is Exchange && op !is Free,
    ensures
        pre.step(t, chance).inv(),
        pre.step(t, chance).items() == pre.items(),
{
    let post = pre.step(t, chance);
    assert(pre.thread_inv(t));
    path_holds_its_nodes(pre);
    assert forall|u: u64| u != t implies #[trigger] post.activity(u) == pre.activity(u) by {}
    assert forall|a: usize| pre.retired.contains_key(a) implies (
    #[trigger] post.memory.nodes.contains_key(a)) by {
        assert(pre.retired_inv(a));
    }
    assert forall|u: u64, a: usize|
        u != t && private_node(#[trigger] pre.activity(u)) == Some(a) implies (
    #[trigger] post.memory.nodes.contains_key(a)) by {
        assert(pre.thread_inv(u));
        assert(pre.retired_inv(a));
    }
    assert forall|u: u64| u != t implies #[trigger] post.pair_inv(t, u) by {
        assert(pre.activity(t) == pre.activity(t));
        assert(pre.activity(u) == pre.activity(u));
        assert(pre.pair_inv(t, u));
        assert(post.activity(u) == pre.activity(u));
    }
    match pre.activity(t)->Deleting_0 {
        DeleteOp::LoadHead => {
            if pre.path.len() > 0 {
                assert(pre.path.contains(pre.path[0]));
            }
        },
        DeleteOp::Advance { node } => {
            assert(pre.visits(t, node));
            next_is_in_reach(pre, t, node);
        },
        DeleteOp::AwaitReaders { node } => {
            assert forall|u: u64| #[trigger] post.is_searching(u) && post.activity(
                u,
            ) is Looking && pre.memory.readers == 0 implies post.began[u]
                > post.retired[node] by {
                assert(pre.thread_inv(u));
                assert(pre.lookers.contains(u));
                assert(pre.lookers =~= Set::<u64>::empty());
            }
        },
        _ => {},
    }
    assert forall|a: usize| #[trigger] post.visits(t, a) implies post.in_reach(
        a,
        post.began[t],
    ) by {
        assert(pre.activity(t)->Deleting_0 !is LoadHead ==> pre.visits(t, a) || (
        pre.activity(t)->Deleting_0 is Advance));
    }
    list_is_left_alone(pre, post, t);
}

/// The exchange of a thread that puts an item in.
proof fn inserting_step<T>(pre: ListSystem<T>, t: u64, chance: ListChance<T>)
    requires
        pre.inv(),
        pre.can_step(t, chance),
        pre.activity(t) matches ListActivity::Inserting(op) && op is Exchange,
    ensures
        pre.step(t, chance).inv(),
        pre.step(t, chance).activity(t) == ListActivity::Inserting(InsertOp::Done) ==> pre.step(
            t,
            chance,
        ).items() == seq![
            pre.memory.nodes[pre.activity(t)->Inserting_0->Exchange_node].data,
        ] + pre.items(),
        pre.step(t, chance).activity(t) != ListActivity::Inserting(InsertOp::Done) ==> pre.step(
            t,
            chance,
        ).items() == pre.items(),
{
    let post = pre.step(t, chance);
    let node = pre.activity(t)->Inserting_0->Exchange_node;
    let head = pre.activity(t)->Inserting_0->Exchange_head;
    assert(pre.thread_inv(t));
    path_holds_its_nodes(pre);
    assert forall|u: u64| u != t implies #[trigger] post.activity(u) == pre.activity(u) by {}
    assert forall|u: u64| u != t implies #[trigger] post.pair_inv(t, u) by {
        assert(pre.activity(t) == pre.activity(t));
        assert(pre.activity(u) == pre.activity(u));
        assert(pre.pair_inv(t, u));
        assert(post.activity(u) == pre.activity(u));
    }
    if chance.fails || pre.memory.head != head {
        assert forall|a: usize| pre.retired.contains_key(a) implies (
        #[trigger] post.memory.nodes.contains_key(a)) by {
            assert(pre.retired_inv(a));
        }
        assert forall|u: u64, a: usize|
            u != t && private_node(#[trigger] pre.activity(u)) == Some(a) implies (
        #[trigger] post.memory.nodes.contains_key(a)) by {
            assert(pre.thread_inv(u));
            assert(pre.retired_inv(a));
        }
        list_is_left_alone(pre, post, t);
    } else {
        chain_push_front(pre.memory.nodes, head, pre.path, node);
        assert(post.items() =~= seq![pre.memory.nodes[node].data] + pre.items());
        assert forall|a: usize| #[trigger] post.path.contains(a) == (a == node
            || pre.path.contains(a)) by {
            if pre.path.contains(a) {
                let k = choose|k: int| 0 <= k < pre.path.len() && pre.path[k] == a;
                assert(post.path[k + 1] == a);
            }
            assert(post.path[0] == node);
        }
        assert forall|u: u64| u != t implies #[trigger] post.is_searching(u)
            == pre.is_searching(u) by {
            assert(post.activity(u) == pre.activity(u));
        }
        assert forall|a: usize| #[trigger] post.retired_inv(a) by {
            assert(pre.retired_inv(a));
            if pre.retired.contains_key(a) {
                assert forall|u: u64| #[trigger] post.is_searching(u) && post.activity(
                    u,
                ) is Looking && post.began[u] <= post.retired[a] implies post.leads_on(a) by {
                    assert(u != t ==> post.activity(u) == pre.activity(u));
                    assert(pre.is_searching(u));
                }
            }
        }
        assert forall|u: u64| #[trigger] post.thread_inv(u) by {
            assert(pre.thread_inv(u));
            if u != t {
                assert(post.activity(u) == pre.activity(u));
                assert(pre.activity(t) == pre.activity(t));
                assert(pre.pair_inv(t, u));
                assert forall|a: usize| #[trigger] post.visits(u, a) implies post.in_reach(
                    a,
                    post.began[u],
                ) by {
                    assert(pre.visits(u, a));
                }
                if let ListActivity::Deleting(DeleteOp::Free { node: freed }) = pre.activity(u) {
                    assert forall|v: u64| #[trigger] post.is_searching(v) && post.activity(
                        v,
                    ) is Looking implies post.began[v] > post.retired[freed] by {
                        assert(pre.is_searching(v));
                        assert(post.activity(v) == pre.activity(v));
                    }
                }
            }
        }
        pairs_are_kept(pre, post, t);
    }
}

/// The exchange that takes a node out, seen from the list alone.
pub proof fn node_leaves_list<T>(pre: ListSystem<T>, t: u64, chance: ListChance<T>)
    requires
        pre.inv(),
        pre.can_step(t, chance),
        pre.takes_out(t, chance),
    ensures
        ({
            let post = pre.step(t, chance);
            let node = pre.activity(t)->Deleting_0->Exchange_node;
            let i = pre.path.index_of(node);
            &&& 0 <= i < pre.path.len()
            &&& pre.path[i] == node
            &&& is_chain(post.memory.nodes, post.memory.head, post.path)
            &&& post.path == pre.path.remove(i)
            &&& post.items() == pre.items().remove(i)
            &&& forall|a: usize| #[trigger]
                post.path.contains(a) == (pre.path.contains(a) && a != node)
            &&& pre.memory.nodes[node].next == after(pre.path, i)
            &&& forall|a: usize|
                post.memory.nodes.contains_key(a) == #[trigger] pre.memory.nodes.contains_key(a)
            &&& forall|a: usize|
                !pre.path.contains(a) || a == node ==> #[trigger] post.memory.nodes[a]
                    == pre.memory.nodes[a]
        }),
{
    let post = pre.step(t, chance);
    let nodes = pre.memory.nodes;
    let op = pre.activity(t)->Deleting_0;
    let node = op->Exchange_node;
    let link = op->Exchange_link;
    assert(pre.thread_inv(t));
    path_holds_its_nodes(pre);
    assert(pre.visits(t, node));
    assert(pre.retired_inv(node));
    assert(node != 0);
    match link {
        Link::Head => {
            assert(pre.path[0] == node);
            assert(pre.path.contains(node));
        },
        Link::Next { node: previous } => {
            let k = choose|k: int| 0 <= k < pre.path.len() && pre.path[k] == previous;
            assert(nodes[pre.path[k]].link() == after(pre.path, k));
            assert(pre.path[k + 1] == node);
            assert(pre.path.contains(node));
        },
    }
    let i = pre.path.index_of(node);
    assert(pre.path[i] == node);
    assert(nodes[pre.path[i]].link() == after(pre.path, i));
    remove_keeps_distinct(pre.path, i);
    match link {
        Link::Head => {
            assert(i == 0);
            chain_tail(nodes, pre.memory.head, pre.path);
            assert(pre.path.drop_first() == post.path);
        },
        Link::Next { node: previous } => {
            let k = choose|k: int| 0 <= k < pre.path.len() && pre.path[k] == previous;
            assert(nodes[pre.path[k]].link() == after(pre.path, k));
            assert(i == k + 1);
            chain_unlink(nodes, pre.memory.head, pre.path, i, post.memory.nodes[previous]);
        },
    }
    assert forall|a: usize| #[trigger] post.path.contains(a) == (pre.path.contains(a) && a
        != node) by {
        if pre.path.contains(a) && a != node {
            let k = choose|k: int| 0 <= k < pre.path.len() && pre.path[k] == a;
            assert(post.path[if k < i {
                k
            } else {
                k - 1
            }] == a);
        }
        if post.path.contains(a) {
            let k = choose|k: int| 0 <= k < post.path.len() && post.path[k] == a;
            assert(pre.path[if k < i {
                k
            } else {
                k + 1
            }] == a);
        }
    }
    assert(post.items() =~= pre.items().remove(i)) by {
        assert forall|k: int| 0 <= k < post.path.len() implies post.items()[k]
            == pre.items().remove(i)[k] by {
            assert(post.path[k] == pre.path[if k < i {
                k
            } else {
                k + 1
            }]);
        }
    }
}

/// The exchange of a thread that takes an item out.
proof fn unlinking_step<T>(pre: ListSystem<T>, t: u64, chance: ListChance<T>)
    requires
        pre.inv(),
        pre.can_step(t, chance),
        pre.activity(t) matches ListActivity::Deleting(op) && op is Exchange,
    ensures
        pre.step(t, chance).inv(),
        !pre.takes_out(t, chance) ==> pre.step(t, chance).items() == pre.items(),
{
    let post = pre.step(t, chance);
    let op = pre.activity(t)->Deleting_0;
    let node = op->Exchange_node;
    assert(pre.thread_inv(t));
    path_holds_its_nodes(pre);
    assert forall|u: u64| u != t implies #[trigger] post.activity(u) == pre.activity(u) by {}
    if !pre.takes_out(t, chance) {
        assert forall|a: usize| pre.retired.contains_key(a) implies (
        #[trigger] post.memory.nodes.contains_key(a)) by {
            assert(pre.retired_inv(a));
        }
        assert forall|u: u64, a: usize|
            u != t && private_node(#[trigger] pre.activity(u)) == Some(a) implies (
        #[trigger] post.memory.nodes.contains_key(a)) by {
            assert(pre.thread_inv(u));
            assert(pre.retired_inv(a));
        }
        list_is_left_alone(pre, post, t);
    } else {
        node_leaves_list(pre, t, chance);
        assert forall|u: u64| u != t implies #[trigger] post.pair_inv(t, u) by {
            assert(pre.thread_inv(u));
            assert(post.activity(u) == pre.activity(u));
            assert(pre.retired_inv(node));
        }
        assert forall|u: u64| u != t implies #[trigger] post.is_searching(u)
            == pre.is_searching(u) by {
            assert(post.activity(u) == pre.activity(u));
        }
        assert forall|a: usize| #[trigger] post.retired_inv(a) by {
            assert(pre.retired_inv(a));
            if a == node {
                let i = pre.path.index_of(node);
                if i + 1 < pre.path.len() {
                    assert(pre.path.contains(pre.path[i + 1]));
                    assert(pre.path[i + 1] != node);
                }
                assert(post.leads_on(a));
            } else if pre.retired.contains_key(a) {
                assert(post.memory.nodes[a] == pre.memory.nodes[a]);
                assert forall|u: u64| #[trigger] post.is_searching(u) && post.activity(
                    u,
                ) is Looking && post.began[u] <= post.retired[a] implies post.leads_on(a) by {
                    assert(u != t ==> post.activity(u) == pre.activity(u));
                    assert(pre.is_searching(u));
                    assert(pre.leads_on(a));
                }
            }
        }
        assert forall|u: u64| #[trigger] post.thread_inv(u) by {
            assert(pre.thread_inv(u));
            if u != t {
                assert(post.activity(u) == pre.activity(u));
                assert forall|a: usize| #[trigger] post.visits(u, a) implies post.in_reach(
                    a,
                    post.began[u],
                ) by {
                    assert(pre.visits(u, a));
                }
                if let Some(own) = new_node(pre.activity(u)) {
                    assert(post.memory.nodes[own] == pre.memory.nodes[own]);
                }
                if let ListActivity::Deleting(DeleteOp::Free { node: freed }) = pre.activity(u) {
                    assert(pre.retired_inv(freed));
                    assert forall|v: u64| #[trigger] post.is_searching(v) && post.activity(
                        v,
                    ) is Looking implies post.began[v] > post.retired[freed] by {
                        assert(pre.is_searching(v));
                        assert(post.activity(v) == pre.activity(v));
                    }
                }
            }
        }
        pairs_are_kept(pre, post, t);
    }
}

/// The step in which a node is given back.
proof fn freeing_step<T>(pre: ListSystem<T>, t: u64, chance: ListChance<T>)
    requires
        pre.inv(),
        pre.can_step(t, chance),
        pre.activity(t) matches ListActivity::Deleting(op) && op is Free,
    ensures
        pre.step(t, chance).inv(),
        pre.step(t, chance).items() == pre.items(),
{
    let post = pre.step(t, chance);
    let node = pre.activity(t)->Deleting_0->Free_node;
    assert(pre.thread_inv(t));
    assert(pre.retired_inv(node));
    path_holds_its_nodes(pre);
    assert forall|u: u64| u != t implies #[trigger] post.activity(u) == pre.activity(u) by {}
    assert forall|i: int| 0 <= i < pre.path.len() implies post.memory.nodes.contains_key(
        #[trigger] pre.path[i],
    ) && post.memory.nodes[pre.path[i]] == pre.memory.nodes[pre.path[i]] by {
        assert(pre.path.contains(pre.path[i]));
    }
    chain_frame(pre.memory.nodes, post.memory.nodes, pre.memory.head, pre.path);
    assert(post.items() =~= pre.items());
    assert forall|u: u64| #[trigger] post.is_searching(u) implies pre.is_searching(u)
        && (post.activity(u) is Looking ==> pre.began[u] > pre.retired[node]) && u != t by {
        assert(u != t ==> post.activity(u) == pre.activity(u));
        assert(pre.is_searching(u));
    }
    assert forall|a: usize| #[trigger] post.retired_inv(a) by {
        assert(pre.retired_inv(a));
        if post.retired.contains_key(a) {
            assert(post.memory.nodes[a] == pre.memory.nodes[a]);
            assert forall|u: u64| #[trigger] post.is_searching(u) && post.activity(
                u,
            ) is Looking && post.began[u] <= post.retired[a] implies post.leads_on(a) by {
                assert(u != t ==> post.activity(u) == pre.activity(u));
                assert(pre.is_searching(u));
                assert(pre.leads_on(a));
            }
        }
    }
    assert forall|u: u64| #[trigger] post.thread_inv(u) by {
        assert(pre.thread_inv(u));
        if u != t {
            assert(post.activity(u) == pre.activity(u));
            assert(pre.activity(t) == pre.activity(t));
            assert(pre.pair_inv(t, u));
            assert forall|a: usize| #[trigger] post.visits(u, a) implies post.in_reach(
                a,
                post.began[u],
            ) by {
                assert(pre.visits(u, a));
                assert(post.is_searching(u));
                assert(a != node);
            }
            if let ListActivity::Deleting(DeleteOp::Free { node: freed }) = pre.activity(u) {
                assert forall|v: u64| #[trigger] post.is_searching(v) && post.activity(
                    v,
                ) is Looking implies post.began[v] > post.retired[freed] by {
                    assert(pre.is_searching(v));
                    assert(post.activity(v) == pre.activity(v));
                }
            }
        }
    }
    pairs_are_kept(pre, post, t);
}

/// How one step may change the items: not at all, by one new item in front, or by one item
/// taken out.
pub open spec fn is_one_change<T>(pre: Seq<T>, post: Seq<T>) -> bool {
    ||| post == pre
    ||| exists|item: T| post == #[trigger] seq![item] + pre
    ||| exists|i: int| 0 <= i < pre.len() && post == #[trigger] pre.remove(i)
}

/// Every step of every thread keeps the list in order and changes one item at most.
pub proof fn step_keeps_list<T>(pre: ListSystem<T>, t: u64, chance: ListChance<T>)
    requires
        pre.inv(),
        pre.can_step(t, chance),
    ensures
        pre.step(t, chance).inv(),
        is_one_change(pre.items(), pre.step(t, chance).items()),
{
    match pre.activity(t) {
        ListActivity::Idle => beginning_step(pre, t, chance),
        ListActivity::Inserting(op) => match op {
            InsertOp::Exchange { .. } => inserting_step(pre, t, chance),
            _ => preparing_step(pre, t, chance),
        },
        ListActivity::Deleting(op) => match op {
            DeleteOp::Exchange { .. } => {
                unlinking_step(pre, t, chance);
                if pre.takes_out(t, chance) {
                    node_leaves_list(pre, t, chance);
                }
            },
            DeleteOp::Free { .. } => freeing_step(pre, t, chance),
            _ => searching_step(pre, t, chance),
        },
        ListActivity::Looking(_) => looking_step(pre, t, chance),
    }
}

/// The executions of a list in which threads that take items out do not get in the way of each
/// other.
pub open spec fn is_list_execution<T>(states: Seq<ListSystem<T>>) -> bool {
    is_execution(
        states,
        |s: ListSystem<T>| s.init(),
        |s: ListSystem<T>, post: ListSystem<T>| s.next(post),
    )
}

/// In such an execution the list is in order at every moment.
pub proof fn list_holds_throughout<T>(states: Seq<ListSystem<T>>, i: int)
    requires
        is_list_execution(states),
        0 <= i < states.len(),
    ensures
        states[i].inv(),
{
    let init = |s: ListSystem<T>| s.init();
    let next = |s: ListSystem<T>, post: ListSystem<T>| s.next(post);
    let inv = |s: ListSystem<T>| s.inv();
    assert forall|s: ListSystem<T>, post: ListSystem<T>| inv(s) && #[trigger] next(
        s,
        post,
    ) implies inv(post) by {
        let (t, chance) = choose|t: u64, chance: ListChance<T>| #[trigger]
            s.can_step(t, chance) && post == s.step(t, chance);
        step_keeps_list(s, t, chance);
    }
    invariant_holds_throughout(states, init, next, inv, i);
}

/// No item appears or disappears but by one thread putting it in front or taking it out: from
/// one moment to the next the list changes by one item at most.
pub proof fn items_change_one_at_a_time<T>(states: Seq<ListSystem<T>>, i: int)
    requires
        is_list_execution(states),
        0 < i < states.len(),
    ensures
        is_one_change(states[i - 1].items(), states[i].items()),
{
    list_holds_throughout(states, i - 1);
    let pre = states[i - 1];
    let next = |s: ListSystem<T>, post: ListSystem<T>| s.next(post);
    assert(next(states[i - 1], states[i]));
    let (t, chance) = choose|t: u64, chance: ListChance<T>| #[trigger]
        pre.can_step(t, chance) && states[i] == pre.step(t, chance);
    step_keeps_list(pre, t, chance);
}

/// A thread that puts an item in is done exactly when its item has come to stand in front of
/// all others.
pub proof fn insertion_puts_item_in_front<T>(
    pre: ListSystem<T>,
    t: u64,
    chance: ListChance<T>,
    node: usize,
    head: usize,
)
    requires
        pre.inv(),
        pre.can_step(t, chance),
        pre.activity(t) == ListActivity::Inserting(InsertOp::Exchange { node, head }),
    ensures
        pre.step(t, chance).activity(t) == ListActivity::Inserting(InsertOp::Done) ==> pre.step(
            t,
            chance,
        ).items() == seq![pre.memory.nodes[node].data] + pre.items(),
        pre.step(t, chance).activity(t) != ListActivity::Inserting(InsertOp::Done) ==> pre.step(
            t,
            chance,
        ).items() == pre.items(),
{
    inserting_step(pre, t, chance);
}

/// A thread that takes an item out goes on to give its node back exactly when that item, and
/// no other, has left the list; otherwise it gives up and the list is as it was.
pub proof fn deletion_takes_one_item_out<T>(
    pre: ListSystem<T>,
    t: u64,
    chance: ListChance<T>,
    link: Link,
    node: usize,
    next: usize,
)
    requires
        pre.inv(),
        pre.can_step(t, chance),
        pre.activity(t) == ListActivity::Deleting(DeleteOp::Exchange { link, node, next }),
    ensures
        pre.step(t, chance).activity(t) == ListActivity::Deleting(
            DeleteOp::AwaitReaders { node },
        ) ==> exists|i: int|
            {
                &&& 0 <= i < pre.path.len()
                &&& pre.path[i] == node
                &&& pre.step(t, chance).items() == #[trigger] pre.items().remove(i)
            },
        pre.step(t, chance).activity(t) != ListActivity::Deleting(
            DeleteOp::AwaitReaders { node },
        ) ==> pre.step(t, chance).activity(t) == ListActivity::Deleting(
            DeleteOp::Done { deleted: false },
        ) && pre.step(t, chance).items() == pre.items(),
{
    unlinking_step(pre, t, chance);
    if pre.takes_out(t, chance) {
        node_leaves_list(pre, t, chance);
    }
}

/// A node is given back only when it is not in the list and no thread that looks for an item is
/// at it.
pub proof fn no_node_is_freed_under_a_reader<T>(
    states: Seq<ListSystem<T>>,
    i: int,
    t: u64,
    u: u64,
    node: usize,
)
    requires
        is_list_execution(states),
        0 <= i < states.len(),
        states[i].activity(t) == ListActivity::Deleting(DeleteOp::Free { node }),
        states[i].activity(u) is Looking,
    ensures
        !states[i].path.contains(node),
        !states[i].visits(u, node),
{
    list_holds_throughout(states, i);
    let s = states[i];
    assert(s.thread_inv(t));
    assert(s.thread_inv(u));
    assert(s.retired_inv(node));
    if s.visits(u, node) {
        assert(s.is_searching(u));
    }
}

/// No thread touches a node that was given back: every access that comes next is one to a node
/// in use.
pub proof fn list_accesses_touch_nodes_in_use<T>(states: Seq<ListSystem<T>>, i: int, t: u64)
    requires
        is_list_execution(states),
        0 <= i < states.len(),
    ensures
        match states[i].activity(t) {
            ListActivity::Idle => true,
            ListActivity::Inserting(op) => states[i].memory.admits(op.next_access()),
            ListActivity::Deleting(op) => states[i].memory.admits(op.next_access()),
            ListActivity::Looking(op) => states[i].memory.admits(op.next_access()),
        },
{
    list_holds_throughout(states, i);
    let s = states[i];
    assert(s.thread_inv(t));
    path_holds_its_nodes(s);
    assert forall|a: usize| #[trigger] s.retired.contains_key(a) implies s.memory.nodes.contains_key(
        a,
    ) by {
        assert(s.retired_inv(a));
    }
    match s.activity(t) {
        ListActivity::Looking(ContainsOp::Examine { node }) => assert(s.visits(t, node)),
        ListActivity::Looking(ContainsOp::Advance { node }) => assert(s.visits(t, node)),
        ListActivity::Deleting(DeleteOp::Examine { node, .. }) => assert(s.visits(t, node)),
        ListActivity::Deleting(DeleteOp::LoadNext { node, .. }) => assert(s.visits(t, node)),
        ListActivity::Deleting(DeleteOp::Exchange { link: Link::Next { node }, .. }) => {
            assert(s.visits(t, node));
        },
        ListActivity::Deleting(DeleteOp::Advance { node }) => assert(s.visits(t, node)),
        _ => {},
    }
}

/// A search looks only at items that are in the list or have left it since the search began.
pub proof fn searches_look_at_items_of_the_list<T>(
    states: Seq<ListSystem<T>>,
    i: int,
    t: u64,
    node: usize,
)
    requires
        is_list_execution(states),
        0 <= i < states.len(),
        states[i].visits(t, node),
    ensures
        states[i].path.contains(node) || (states[i].retired.contains_key(node)
            && states[i].retired[node] >= states[i].began[t]),
{
    list_holds_throughout(states, i);
    assert(states[i].thread_inv(t));
}

/// What was just put in is found, and is the first to be taken out, where an item is equal to
/// itself.
pub proof fn inserted_item_is_found_first<T: PartialEq>(items: Seq<T>, item: T)
    requires
        item.eq_spec(&item),
    ensures
        has_match(seq![item] + items, item),
        is_first_match(seq![item] + items, item, 0),
{
    assert((seq![item] + items)[0] == item);
}

/// Taking the first item out undoes putting it in.
pub proof fn deletion_undoes_insertion<T>(items: Seq<T>, item: T)
    ensures
        (seq![item] + items).remove(0) == items,
{
    assert((seq![item] + items).remove(0) =~= items);
}

/// Putting an item in hides no other.
pub proof fn insertion_keeps_matches<T: PartialEq>(items: Seq<T>, item: T, data: T)
    ensures
        has_match(seq![item] + items, data) == (item.eq_spec(&data) || has_match(items, data)),
{
    let all = seq![item] + items;
    assert(all[0] == item);
    if has_match(items, data) {
        let i = choose|i: int| 0 <= i < items.len() && (#[trigger] items[i]).eq_spec(&data);
        assert(all[i + 1] == items[i]);
    }
    if has_match(all, data) {
        let i = choose|i: int| 0 <= i < all.len() && (#[trigger] all[i]).eq_spec(&data);
        if i > 0 {
            assert(all[i] == items[i - 1]);
        }
    }
}

/// Taking an item out hides no item that is not equal to it.
pub proof fn deletion_keeps_other_matches<T: PartialEq>(items: Seq<T>, i: int, data: T)
    requires
        0 <= i < items.len(),
        !items[i].eq_spec(&data),
    ensures
        has_match(items.remove(i), data) == has_match(items, data),
{
    let rest = items.remove(i);
    if has_match(items, data) {
        let k = choose|k: int| 0 <= k < items.len() && (#[trigger] items[k]).eq_spec(&data);
        assert(rest[if k < i {
            k
        } else {
            k - 1
        }] == items[k]);
    }
    if has_match(rest, data) {
        let k = choose|k: int| 0 <= k < rest.len() && (#[trigger] rest[k]).eq_spec(&data);
        assert(rest[k] == items[if k < i {
            k
        } else {
            k + 1
        }]);
    }
}

/// A link holds what was last written to it. An exchange is made exactly if the link is the
/// expected one, and changes nothing otherwise; items do not change.
pub proof fn links_hold_what_was_written<T>(
    memory: ListView<T>,
    node: usize,
    expected: usize,
    new: usize,
)
    ensures
        ({
            let load = ListAccess::LoadLink { link: Link::Head };
            let exchange = ListAccess::CompareExchange { link: Link::Head, expected, new };
            &&& memory.reply(load, false) == (ListReply::Address { node: memory.head })
            &&& memory.effect(load) == memory
            &&& memory.reply(exchange, false) == if memory.head == expected {
                ListReply::Swapped
            } else {
                ListReply::Failed
            }
            &&& memory.effect(exchange) == (ListView {
                head: if memory.head == expected {
                    new
                } else {
                    memory.head
                },
                readers: memory.readers,
                nodes: memory.nodes,
            })
        }),
        ({
            let link = Link::Next { node };
            let load = ListAccess::LoadLink { link };
            let exchange = ListAccess::CompareExchange { link, expected, new };
            let written = ListView {
                head: memory.head,
                readers: memory.readers,
                nodes: memory.nodes.insert(
                    node,
                    Node {
                        data: memory.nodes[node].data,
                        next: new,
                        ref_count: memory.nodes[node].ref_count,
                    },
                ),
            };
            &&& memory.reply(load, false) == (ListReply::Address {
                node: memory.nodes[node].next,
            })
            &&& memory.effect(load) == memory
            &&& memory.nodes[node].next == expected ==> memory.reply(exchange, false)
                == ListReply::Swapped && memory.effect(exchange) == written
            &&& memory.nodes[node].next != expected ==> memory.reply(exchange, false)
                == ListReply::Failed && memory.effect(exchange) == memory
            &&& memory.effect(ListAccess::StoreNext { node, next: new }) == written
        }),
{
}

/// The count of those that look goes up by one when a thread announces itself and down by one when
/// it signs off, and is what a thread that reads it gets. Comparing, reading an item and spinning
/// change nothing, and giving a node back takes that node and no other.
pub proof fn count_of_those_that_look_is_kept<T>(memory: ListView<T>, node: usize, equal: bool)
    ensures
        memory.readers < usize::MAX ==> memory.effect(ListAccess::Enter) == (ListView {
            readers: (memory.readers + 1) as usize,
            ..memory
        }),
        memory.readers == usize::MAX ==> memory.effect(ListAccess::Enter) == (ListView {
            readers: 0,
            ..memory
        }),
        memory.readers > 0 ==> memory.effect(ListAccess::Leave) == (ListView {
            readers: (memory.readers - 1) as usize,
            ..memory
        }),
        memory.readers == 0 ==> memory.effect(ListAccess::Leave) == (ListView {
            readers: usize::MAX,
            ..memory
        }),
        memory.effect(ListAccess::Enter).effect(ListAccess::Leave) == memory,
        memory.reply(ListAccess::LoadReaders, equal) == (ListReply::Readers {
            count: memory.readers,
        }),
        memory.reply(ListAccess::Examine { node }, equal) == (ListReply::Equal { equal }),
        memory.effect(ListAccess::LoadReaders) == memory,
        memory.effect(ListAccess::Examine { node }) == memory,
        memory.effect(ListAccess::Visit { node }) == memory,
        memory.effect(ListAccess::SpinLoop) == memory,
        memory.effect(ListAccess::Finished) == memory,
        memory.effect(ListAccess::Free { node }) == (ListView {
            nodes: memory.nodes.remove(node),
            ..memory
        }),
{
}

} // verus!
