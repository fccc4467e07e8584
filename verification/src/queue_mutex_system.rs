//! A queue-based mutex and any number of threads that use it, one step at a time.

use crate::chain::{first, is_chain};
use crate::lock_memory::{threads_along, tokens_after, Access, MemoryView, Reply};
use crate::queue_mutex::{AcquireOp, ReleaseOp, TryLockOp};
use crate::word::{address, is_aligned, is_locked, is_queue_locked};
use vstd::prelude::*;

verus! {

/// What a thread is doing with the mutex.
pub enum MutexActivity {
    /// Nothing.
    Idle,
    /// Taking the mutex without waiting, or having it.
    Trying(TryLockOp),
    /// Taking the mutex, or having it.
    Acquiring(AcquireOp),
    /// Letting go of it.
    Releasing(ReleaseOp),
}

/// What is left open in a step: the address that an allocation chooses, whether an exchange
/// that could be made fails, and whether an idle thread would rather not wait.
pub struct Chance {
    pub fresh: usize,
    pub fails: bool,
    pub tries: bool,
}

/// A mutex and the threads that use it, with the history of its queue.
pub struct MutexSystem {
    pub memory: MemoryView,
    pub threads: Map<u64, MutexActivity>,
    /// The threads that were unparked and have not slept since.
    pub tokens: Set<u64>,
    /// The nodes in the queue.
    pub path: Seq<usize>,
    /// The threads that entered the queue, in the order in which they did.
    pub arrived: Seq<u64>,
    /// The threads that were taken out of the queue to be woken, in the order in which they were.
    pub called: Seq<u64>,
}

/// What an access gives back, where an exchange may fail for no reason.
pub open spec fn reply_by_chance(memory: MemoryView, access: Access, chance: Chance) -> Reply {
    if access is CompareExchange && chance.fails {
        Reply::Observed { word: memory.state }
    } else {
        memory.reply(access, chance.fresh)
    }
}

/// The memory after an access, where an exchange may fail for no reason.
pub open spec fn effect_by_chance(
    memory: MemoryView,
    access: Access,
    chance: Chance,
) -> MemoryView {
    if access is CompareExchange && chance.fails {
        memory
    } else {
        memory.effect(access, chance.fresh)
    }
}

/// The node that an operation works with.
pub open spec fn node_of(activity: MutexActivity) -> Option<usize> {
    match activity {
        MutexActivity::Acquiring(op) => match op {
            AcquireOp::LoadQueue { node } => Some(node),
            AcquireOp::Spin { node, .. } => Some(node),
            AcquireOp::LockQueue { node, .. } => Some(node),
            AcquireOp::Enter { node, .. } => Some(node),
            AcquireOp::Retreat { node, .. } => Some(node),
            AcquireOp::FindTail { node, .. } => Some(node),
            AcquireOp::Append { node, .. } => Some(node),
            AcquireOp::Publish { node, .. } => Some(node),
            AcquireOp::Park { node } => Some(node),
            AcquireOp::Look { node } => Some(node),
            AcquireOp::Free { node } => Some(node),
            _ => None,
        },
        _ => None,
    }
}

/// The node of a thread that sleeps, or is awake just to see whether to go on.
pub open spec fn sleep_node(activity: MutexActivity) -> Option<usize> {
    match activity {
        MutexActivity::Acquiring(AcquireOp::Park { node }) => Some(node),
        MutexActivity::Acquiring(AcquireOp::Look { node }) => Some(node),
        _ => None,
    }
}

/// Whether an operation has put its node into the queue and has not been told to go on.
pub open spec fn is_queued(activity: MutexActivity) -> bool {
    sleep_node(activity) is Some || activity matches MutexActivity::Acquiring(
        AcquireOp::Publish { .. },
    )
}

/// Whether an operation has the queue for itself.
pub open spec fn locks_queue(activity: MutexActivity) -> bool {
    match activity {
        MutexActivity::Acquiring(op) => op is Enter || op is Retreat || op is FindTail || op
            is Append || op is Publish,
        MutexActivity::Releasing(op) => op is ReadNext || op is Publish,
        _ => false,
    }
}

/// Whether an operation has taken a node out of the queue and is about to mark it.
pub open spec fn calls(activity: MutexActivity, a: usize) -> bool {
    match activity {
        MutexActivity::Releasing(ReleaseOp::ReadThread { head }) => head == a,
        MutexActivity::Releasing(ReleaseOp::Mark { head, .. }) => head == a,
        _ => false,
    }
}

impl MutexSystem {
    /// What a thread is doing.
    pub open spec fn activity(self, t: u64) -> MutexActivity {
        if self.threads.contains_key(t) {
            self.threads[t]
        } else {
            MutexActivity::Idle
        }
    }

    /// A free mutex that no thread uses.
    pub open spec fn init(self) -> bool {
        &&& self.memory == MemoryView::initial()
        &&& self.threads == Map::<u64, MutexActivity>::empty()
        &&& self.tokens == Set::<u64>::empty()
        &&& self.path == Seq::<usize>::empty()
        &&& self.arrived == Seq::<u64>::empty()
        &&& self.called == Seq::<u64>::empty()
    }

    /// The same system with another activity of one thread.
    pub open spec fn with(self, t: u64, activity: MutexActivity) -> Self {
        MutexSystem { threads: self.threads.insert(t, activity), ..self }
    }

    /// Whether an allocation of thread `t` can choose the address that `chance` has.
    pub open spec fn can_step(self, t: u64, chance: Chance) -> bool {
        self.activity(t) == MutexActivity::Acquiring(AcquireOp::Allocate)
            ==> self.memory.is_fresh(chance.fresh)
    }

    /// The system after one step of a thread that does not wait.
    pub open spec fn try_step(self, t: u64, chance: Chance, op: TryLockOp) -> Self {
        let access = op.next_access();
        MutexSystem {
            memory: effect_by_chance(self.memory, access, chance),
            ..self.with(
                t,
                MutexActivity::Trying(op.after(reply_by_chance(self.memory, access, chance))),
            )
        }
    }

    /// The system after one step of a thread on its way to the mutex. A thread that sleeps may
    /// go on at any time.
    pub open spec fn acquire_step(self, t: u64, chance: Chance, op: AcquireOp) -> Self {
        let access = op.next_access(t);
        let reply = reply_by_chance(self.memory, access, chance);
        let post = MutexSystem {
            memory: effect_by_chance(self.memory, access, chance),
            tokens: tokens_after(self.tokens, t, access),
            ..self.with(t, MutexActivity::Acquiring(op.after(reply)))
        };
        match op {
            AcquireOp::Enter { node, .. } => if reply is Swapped {
                MutexSystem { path: self.path.push(node), arrived: self.arrived.push(t), ..post }
            } else {
                post
            },
            AcquireOp::Append { node, .. } => MutexSystem {
                path: self.path.push(node),
                arrived: self.arrived.push(t),
                ..post
            },
            _ => post,
        }
    }

    /// The system after one step of a thread that lets go of the mutex.
    pub open spec fn release_step(self, t: u64, chance: Chance, op: ReleaseOp) -> Self {
        let access = op.next_access();
        let reply = reply_by_chance(self.memory, access, chance);
        let post = MutexSystem {
            memory: effect_by_chance(self.memory, access, chance),
            tokens: tokens_after(self.tokens, t, access),
            ..self.with(t, MutexActivity::Releasing(op.after(reply)))
        };
        match op {
            ReleaseOp::Publish { head, .. } => if reply is Swapped && head != 0 {
                MutexSystem {
                    path: self.path.drop_first(),
                    called: self.called.push(self.memory.nodes[head].thread),
                    ..post
                }
            } else {
                post
            },
            _ => post,
        }
    }

    /// The system after one step of thread `t`.
    pub open spec fn step(self, t: u64, chance: Chance) -> Self {
        match self.activity(t) {
            MutexActivity::Idle => if chance.tries {
                self.with(t, MutexActivity::Trying(TryLockOp::Load))
            } else {
                self.with(t, MutexActivity::Acquiring(AcquireOp::Load))
            },
            MutexActivity::Trying(TryLockOp::Done { locked }) => if locked {
                self.with(t, MutexActivity::Releasing(ReleaseOp::Load))
            } else {
                self.with(t, MutexActivity::Idle)
            },
            MutexActivity::Trying(op) => self.try_step(t, chance, op),
            MutexActivity::Acquiring(AcquireOp::Held) => self.with(
                t,
                MutexActivity::Releasing(ReleaseOp::Load),
            ),
            MutexActivity::Acquiring(op) => self.acquire_step(t, chance, op),
            MutexActivity::Releasing(ReleaseOp::Done) => self.with(t, MutexActivity::Idle),
            MutexActivity::Releasing(op) => self.release_step(t, chance, op),
        }
    }

    /// One step of some thread leads from `self` to `post`.
    pub open spec fn next(self, post: Self) -> bool {
        exists|t: u64, chance: Chance| #[trigger]
            self.can_step(t, chance) && post == self.step(t, chance)
    }

    /// Whether a thread has taken the mutex and not freed it yet.
    pub open spec fn holds(self, t: u64) -> bool {
        match self.activity(t) {
            MutexActivity::Idle => false,
            MutexActivity::Trying(op) => op == TryLockOp::Done { locked: true },
            MutexActivity::Acquiring(op) => op is Held,
            MutexActivity::Releasing(op) => op is Load || op is Exchange,
        }
    }

    /// Whether some thread holds the mutex.
    pub open spec fn is_held(self) -> bool {
        exists|t: u64| self.holds(t)
    }

    /// Whether some thread has taken a node out of the queue and is about to mark it.
    pub open spec fn is_called(self, a: usize) -> bool {
        exists|r: u64| #[trigger] calls(self.activity(r), a)
    }

    /// Whether some thread is about to unpark `t`.
    pub open spec fn is_being_woken(self, t: u64) -> bool {
        exists|r: u64| #[trigger]
            self.activity(r) == MutexActivity::Releasing(ReleaseOp::Wake { thread: t })
    }

    /// The threads in the queue, in order.
    pub open spec fn waiting(self) -> Seq<u64> {
        threads_along(self.memory.nodes, self.path)
    }

    /// What an operation under way says of the state word that it read.
    pub open spec fn local_inv(self, t: u64) -> bool {
        match self.activity(t) {
            MutexActivity::Idle => true,
            MutexActivity::Trying(op) => match op {
                TryLockOp::Exchange { state } => !is_locked(state),
                _ => true,
            },
            MutexActivity::Acquiring(op) => {
                &&& op.wf()
                &&& match op {
                    AcquireOp::Exchange { state } => !is_locked(state),
                    AcquireOp::LockQueue { state, .. } => !is_queue_locked(state),
                    _ => true,
                }
            },
            MutexActivity::Releasing(op) => {
                &&& op.wf()
                &&& op matches ReleaseOp::LockQueue { state } ==> !is_queue_locked(state)
            },
        }
    }

    /// What holds of the node of one thread.
    pub open spec fn node_inv(self, t: u64) -> bool {
        node_of(self.activity(t)) matches Some(node) ==> {
            let cell = self.memory.nodes[node];
            &&& self.memory.nodes.contains_key(node)
            &&& cell.thread == t
            &&& !is_queued(self.activity(t)) ==> !self.path.contains(node)
            &&& sleep_node(self.activity(t)) is None && !(self.activity(t) matches
                MutexActivity::Acquiring(AcquireOp::Free { .. })) ==> cell.next == 0
                && !cell.marked
            &&& sleep_node(self.activity(t)) is Some ==> self.path.contains(node) == !(cell.marked
                || self.is_called(node))
        }
    }

    /// What holds of the operation of one thread.
    pub open spec fn thread_inv(self, t: u64) -> bool {
        let nodes = self.memory.nodes;
        let path = self.path;
        &&& self.local_inv(t)
        &&& self.node_inv(t)
        &&& match self.activity(t) {
            MutexActivity::Acquiring(op) => match op {
                AcquireOp::Enter { .. } => path.len() == 0,
                AcquireOp::Retreat { .. } => path.len() == 0,
                AcquireOp::FindTail { tail, .. } => path.contains(tail),
                AcquireOp::Append { tail, .. } => path.len() > 0 && tail == path.last(),
                AcquireOp::Publish { node, .. } => path.contains(node),
                AcquireOp::Park { node } => nodes[node].marked ==> self.tokens.contains(t)
                    || self.is_being_woken(t),
                _ => true,
            },
            MutexActivity::Releasing(op) => match op {
                ReleaseOp::ReadNext { head, .. } => path.len() > 0 && head == path[0],
                ReleaseOp::Publish { head, next, .. } => if head == 0 {
                    path.len() == 0 && next == 0
                } else {
                    path.len() > 0 && head == path[0] && next == nodes[head].next
                },
                ReleaseOp::ReadThread { head } => {
                    &&& nodes.contains_key(head)
                    &&& !nodes[head].marked
                    &&& sleep_node(self.activity(nodes[head].thread)) == Some(head)
                },
                ReleaseOp::Mark { head, thread } => {
                    &&& nodes.contains_key(head)
                    &&& !nodes[head].marked
                    &&& thread == nodes[head].thread
                    &&& sleep_node(self.activity(thread)) == Some(head)
                },
                _ => true,
            },
            _ => true,
        }
    }

    /// The mutex is held by one thread at most, and its bit says whether it is.
    pub open spec fn owner_inv(self) -> bool {
        &&& forall|t: u64, u: u64| #[trigger] self.holds(t) && #[trigger] self.holds(u) ==> t == u
        &&& is_locked(self.memory.state) <==> self.is_held()
    }

    /// The queue bit says whether a thread has the queue for itself; there is one such thread at
    /// most. No two threads call the same one.
    pub open spec fn window_inv(self) -> bool {
        &&& is_queue_locked(self.memory.state) <==> exists|t: u64|
            locks_queue(#[trigger] self.activity(t))
        &&& forall|t: u64, u: u64|
            #![trigger self.activity(t), self.activity(u)]
            locks_queue(self.activity(t)) && locks_queue(self.activity(u)) ==> t == u
        &&& forall|t: u64, u: u64, a: usize| #[trigger]
            calls(self.activity(t), a) && #[trigger] calls(self.activity(u), a) ==> t == u
    }

    /// The nodes in use are those of the operations under way.
    pub open spec fn nodes_inv(self) -> bool {
        forall|a: usize| #[trigger]
            self.memory.nodes.contains_key(a) ==> {
                &&& a != 0
                &&& is_aligned(a)
                &&& is_aligned(self.memory.nodes[a].next)
                &&& node_of(self.activity(self.memory.nodes[a].thread)) == Some(a)
            }
    }

    /// The queue is a list that starts at the state word, and holds the threads that arrived
    /// and were not called yet.
    pub open spec fn queue_inv(self) -> bool {
        &&& is_chain(self.memory.nodes, first(self.path), self.path)
        &&& address(self.memory.state) == first(self.path)
        &&& self.arrived == self.called + self.waiting()
    }

    /// All of it together.
    pub open spec fn inv(self) -> bool {
        &&& self.owner_inv()
        &&& self.window_inv()
        &&& self.nodes_inv()
        &&& self.queue_inv()
        &&& forall|t: u64| #[trigger] self.thread_inv(t)
    }
}

} // verus!
