//! Threads that go through the items of a linked list while others change it.

use crate::chain::{after, Linked};
use crate::execution::is_execution;
use crate::linked_list::{items_along, DeleteOp, Link, ListAccess, WalkOp};
use crate::linked_list_laws::{
    path_holds_its_nodes, step_keeps_list, ListActivity, ListChance, ListSystem,
};
use vstd::prelude::*;

verus! {

/// How far a thread has come in going through the items.
pub struct Walk<T> {
    pub op: WalkOp,
    /// The items that it has read since it read the head.
    pub seen: Seq<T>,
    /// The items that the list held when it read the head, and their nodes.
    pub held: Seq<T>,
    pub route: Seq<usize>,
    /// How many nodes had been taken out of the list by then.
    pub removals: nat,
}

/// What is left open in a step: whether a walk goes on or the list is changed, how it is changed,
/// and whether a thread begins its walk anew.
pub struct WalkChance<T> {
    pub walks: bool,
    pub anew: bool,
    pub change: ListChance<T>,
}

/// A list, the threads that change it and the walks through it.
pub struct WalkSystem<T> {
    pub list: ListSystem<T>,
    pub walks: Map<u64, Walk<T>>,
}

impl<T> WalkSystem<T> {
    /// An empty list that no thread uses.
    pub open spec fn init(self) -> bool {
        self.list.init() && self.walks == Map::<u64, Walk<T>>::empty()
    }

    /// Whether thread `t` can do what `chance` has it do.
    pub open spec fn can_step(self, t: u64, chance: WalkChance<T>) -> bool {
        !chance.walks ==> self.list.can_step(t, chance.change)
    }

    /// A walk after its next access.
    pub open spec fn walk_step(self, walk: Walk<T>) -> Walk<T> {
        let access = walk.op.next_access();
        let op = walk.op.after(self.list.memory.reply(access, false));
        match access {
            ListAccess::LoadLink { link: Link::Head } => Walk {
                op,
                seen: Seq::empty(),
                held: self.list.items(),
                route: self.list.path,
                removals: self.list.removals,
            },
            ListAccess::Visit { node } => Walk {
                op,
                seen: walk.seen.push(self.list.memory.nodes[node].data),
                ..walk
            },
            _ => Walk { op, ..walk },
        }
    }

    /// The system after one step of thread `t`.
    pub open spec fn step(self, t: u64, chance: WalkChance<T>) -> Self {
        if !chance.walks {
            WalkSystem { list: self.list.step(t, chance.change), ..self }
        } else if chance.anew || !self.walks.contains_key(t) {
            WalkSystem {
                walks: self.walks.insert(
                    t,
                    Walk {
                        op: WalkOp::LoadHead,
                        seen: Seq::empty(),
                        held: Seq::empty(),
                        route: Seq::empty(),
                        removals: 0,
                    },
                ),
                ..self
            }
        } else {
            WalkSystem { walks: self.walks.insert(t, self.walk_step(self.walks[t])), ..self }
        }
    }

    /// One step of some thread leads from `self` to `post`.
    pub open spec fn next(self, post: Self) -> bool {
        exists|t: u64, chance: WalkChance<T>| #[trigger]
            self.can_step(t, chance) && post == self.step(t, chance)
    }

    /// What holds of a walk as long as no node was taken out since it read the head: the nodes of
    /// that moment are the last ones in the list, and the walk has come by the first of them.
    pub open spec fn walk_inv(self, walk: Walk<T>) -> bool {
        let path = self.list.path;
        let count = walk.seen.len() as int;
        &&& walk.removals <= self.list.removals
        &&& walk.op !is LoadHead && walk.removals == self.list.removals ==> {
            &&& walk.route.len() <= path.len()
            &&& walk.route == path.skip(path.len() - walk.route.len())
            &&& walk.held == items_along(self.list.memory.nodes, walk.route)
            &&& count <= walk.route.len()
            &&& walk.seen == walk.held.take(count)
            &&& match walk.op {
                WalkOp::LoadHead => true,
                WalkOp::Visit { node } => count < walk.route.len() && node == walk.route[count],
                WalkOp::Advance { node } => count > 0 && node == walk.route[count - 1],
                WalkOp::Done => count == walk.route.len(),
            }
        }
    }

    /// All of it together.
    pub open spec fn inv(self) -> bool {
        &&& self.list.inv()
        &&& forall|t: u64| #[trigger] self.walks.contains_key(t) ==> self.walk_inv(self.walks[t])
    }
}

/// A step that takes no node out leaves the nodes of the list as they are, or puts one in front.
proof fn list_grows_in_front<T>(pre: ListSystem<T>, t: u64, chance: ListChance<T>)
    requires
        pre.inv(),
        pre.can_step(t, chance),
        pre.step(t, chance).removals == pre.removals,
    ensures
        pre.step(t, chance).path.len() >= pre.path.len(),
        pre.step(t, chance).path.skip(pre.step(t, chance).path.len() - pre.path.len()) == pre.path,
        forall|a: usize| #[trigger]
            pre.path.contains(a) ==> pre.step(t, chance).memory.nodes[a] == pre.memory.nodes[a],
{
    let post = pre.step(t, chance);
    assert(pre.thread_inv(t));
    path_holds_its_nodes(pre);
    if let ListActivity::Deleting(DeleteOp::Free { node }) = pre.activity(t) {
        assert(pre.retired_inv(node));
    }
    if post.path != pre.path {
        let node = pre.activity(t)->Inserting_0->Exchange_node;
        assert(post.path == seq![node] + pre.path);
        assert(post.path.skip(1) =~= pre.path);
    } else {
        assert(post.path.skip(0) =~= pre.path);
    }
}

/// Every step of every thread keeps all of that.
pub proof fn step_keeps_walks<T>(pre: WalkSystem<T>, t: u64, chance: WalkChance<T>)
    requires
        pre.inv(),
        pre.can_step(t, chance),
    ensures
        pre.step(t, chance).inv(),
{
    let post = pre.step(t, chance);
    if !chance.walks {
        step_keeps_list(pre.list, t, chance.change);
        path_holds_its_nodes(pre.list);
        assert forall|u: u64| #[trigger] post.walks.contains_key(u) implies post.walk_inv(
            post.walks[u],
        ) by {
            let walk = pre.walks[u];
            assert(pre.walk_inv(walk));
            if walk.op !is LoadHead && walk.removals == post.list.removals {
                list_grows_in_front(pre.list, t, chance.change);
                let path = pre.list.path;
                let more = post.list.path.len() - path.len();
                assert(post.list.path.skip(post.list.path.len() - walk.route.len())
                    =~= post.list.path.skip(more).skip(path.len() - walk.route.len()));
                assert forall|k: int| 0 <= k < walk.route.len() implies (
                #[trigger] post.list.memory.nodes[walk.route[k]])
                    == pre.list.memory.nodes[walk.route[k]] by {
                    assert(walk.route[k] == path[path.len() - walk.route.len() + k]);
                    assert(path.contains(walk.route[k]));
                }
                assert(walk.held =~= items_along(post.list.memory.nodes, walk.route));
            }
        }
    } else {
        assert forall|u: u64| #[trigger] post.walks.contains_key(u) implies post.walk_inv(
            post.walks[u],
        ) by {
            if u != t {
                assert(pre.walks.contains_key(u));
            } else if !chance.anew && pre.walks.contains_key(t) {
                walk_goes_on(pre, pre.walks[t]);
            }
        }
    }
}

/// One step of a walk.
proof fn walk_goes_on<T>(s: WalkSystem<T>, walk: Walk<T>)
    requires
        s.list.inv(),
        s.walk_inv(walk),
    ensures
        s.walk_inv(s.walk_step(walk)),
{
    let path = s.list.path;
    let nodes = s.list.memory.nodes;
    let next = s.walk_step(walk);
    path_holds_its_nodes(s.list);
    if walk.op is LoadHead {
        assert(path.skip(0) =~= path);
        assert(next.seen =~= next.held.take(0));
        if path.len() > 0 {
            assert(path.contains(path[0]));
        }
    } else if walk.removals == s.list.removals {
        let count = walk.seen.len() as int;
        let skipped = path.len() - walk.route.len();
        match walk.op {
            WalkOp::Visit { .. } => {
                assert(walk.held.take(count + 1) =~= walk.held.take(count).push(walk.held[count]));
            },
            WalkOp::Advance { .. } => {
                let k = skipped + count - 1;
                assert(walk.route[count - 1] == path[k]);
                assert(nodes[path[k]].link() == after(path, k));
                if count < walk.route.len() {
                    assert(walk.route[count] == path[k + 1]);
                    assert(path.contains(path[k + 1]));
                }
            },
            _ => {},
        }
    }
}

/// The executions of a list with walks through it.
pub open spec fn is_walk_execution<T>(states: Seq<WalkSystem<T>>) -> bool {
    is_execution(
        states,
        |s: WalkSystem<T>| s.init(),
        |s: WalkSystem<T>, post: WalkSystem<T>| s.next(post),
    )
}

/// In such an execution all of that holds at every moment.
pub proof fn walks_hold_throughout<T>(states: Seq<WalkSystem<T>>, i: int)
    requires
        is_walk_execution(states),
        0 <= i < states.len(),
    ensures
        states[i].inv(),
    decreases i,
{
    if i == 0 {
        let init = |s: WalkSystem<T>| s.init();
        assert(init(states[0]));
        let s = states[0].list;
        assert forall|a: usize| #[trigger] s.retired_inv(a) by {}
    } else {
        walks_hold_throughout(states, i - 1);
        let pre = states[i - 1];
        let next = |s: WalkSystem<T>, post: WalkSystem<T>| s.next(post);
        assert(next(pre, states[i]));
        let (t, chance) = choose|t: u64, chance: WalkChance<T>| #[trigger]
            pre.can_step(t, chance) && states[i] == pre.step(t, chance);
        step_keeps_walks(pre, t, chance);
    }
}

/// Whether a thread is in one walk from one moment to another: it reads the head right after the
/// first.
pub open spec fn is_one_walk<T>(states: Seq<WalkSystem<T>>, i: int, j: int, t: u64) -> bool {
    &&& 0 <= i < j < states.len()
    &&& states[i].walks.contains_key(t)
    &&& states[i].walks[t].op is LoadHead
    &&& forall|k: int|
        i < k <= j ==> (#[trigger] states[k]).walks.contains_key(t)
            && states[k].walks[t].op !is LoadHead
}

/// What a walk remembers of the moment at which it read the head.
proof fn walk_remembers<T>(states: Seq<WalkSystem<T>>, i: int, j: int, t: u64)
    requires
        is_walk_execution(states),
        is_one_walk(states, i, j, t),
    ensures
        states[j].walks[t].held == states[i].list.items(),
        states[j].walks[t].removals == states[i].list.removals,
    decreases j - i,
{
    let pre = states[j - 1];
    let next = |s: WalkSystem<T>, post: WalkSystem<T>| s.next(post);
    assert(next(pre, states[j]));
    let (u, chance) = choose|u: u64, chance: WalkChance<T>| #[trigger]
        pre.can_step(u, chance) && states[j] == pre.step(u, chance);
    assert(states[j].walks.contains_key(t));
    if j > i + 1 {
        assert(states[j - 1].walks.contains_key(t));
        walk_remembers(states, i, j - 1, t);
    }
}

/// A walk yields what the list held when the head was read: as long as no item was taken out
/// since, what it has read are the first items of that moment, in order, and at the end all of
/// them. Items that were put in meanwhile do not show, and every access is one to a node in use.
pub proof fn walk_yields_what_the_list_held<T>(
    states: Seq<WalkSystem<T>>,
    i: int,
    j: int,
    t: u64,
)
    requires
        is_walk_execution(states),
        is_one_walk(states, i, j, t),
        states[j].list.removals == states[i].list.removals,
    ensures
        ({
            let walk = states[j].walks[t];
            let items = states[i].list.items();
            &&& walk.seen.len() <= items.len()
            &&& walk.seen == items.take(walk.seen.len() as int)
            &&& walk.op is Done ==> walk.seen == items
            &&& states[j].list.memory.admits(walk.op.next_access())
        }),
{
    walks_hold_throughout(states, j);
    walk_remembers(states, i, j, t);
    let s = states[j];
    assert(s.walks.contains_key(t));
    let walk = s.walks[t];
    assert(s.walk_inv(walk));
    path_holds_its_nodes(s.list);
    if walk.op is Done {
        assert(walk.held.take(walk.held.len() as int) =~= walk.held);
    }
    assert forall|k: int| 0 <= k < walk.route.len() implies s.list.path.contains(
        #[trigger] walk.route[k],
    ) by {
        assert(walk.route[k] == s.list.path[s.list.path.len() - walk.route.len() + k]);
    }
}

} // verus!
