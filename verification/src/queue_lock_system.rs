//! A queue-based lock and any number of threads that use it, one step at a time.

use crate::chain::{first, is_chain};
use crate::lock_memory::{threads_along, tokens_after, MemoryView};
use crate::queue_lock::{LockOp, UnlockOp};
use crate::word::{address, is_aligned, is_locked, is_queue_locked};
use vstd::prelude::*;

verus! {

/// What a thread is doing with the lock.
pub enum Activity {
    /// Nothing.
    Idle,
    /// Taking the lock, or having it.
    Locking(LockOp),
    /// Letting go of it.
    Unlocking(UnlockOp),
}

/// A lock and the threads that use it, with the history of its queue.
pub struct LockSystem {
    pub memory: MemoryView,
    pub threads: Map<u64, Activity>,
    /// The threads that were unparked and have not slept since.
    pub tokens: Set<u64>,
    /// The nodes in the queue.
    pub path: Seq<usize>,
    /// The threads that entered the queue, in the order in which they did.
    pub arrived: Seq<u64>,
    /// The threads that were taken out of the queue to have the lock, in the order in which they
    /// were.
    pub served: Seq<u64>,
}

/// The node that an operation works with.
pub open spec fn node_of(activity: Activity) -> Option<usize> {
    match activity {
        Activity::Locking(op) => match op {
            LockOp::Load { node } => Some(node),
            LockOp::Acquire { node, .. } => Some(node),
            LockOp::Discard { node } => Some(node),
            LockOp::Spin { node } => Some(node),
            LockOp::LockQueue { node, .. } => Some(node),
            LockOp::ClearNext { node } => Some(node),
            LockOp::FindTail { node, .. } => Some(node),
            LockOp::Append { node, .. } => Some(node),
            LockOp::Publish { node, .. } => Some(node),
            LockOp::Park { node } => Some(node),
            LockOp::Look { node } => Some(node),
            LockOp::Leave { node } => Some(node),
            _ => None,
        },
        _ => None,
    }
}

/// The node of a thread that sleeps, or is awake just to see whether to go on.
pub open spec fn sleep_node(activity: Activity) -> Option<usize> {
    match activity {
        Activity::Locking(LockOp::Park { node }) => Some(node),
        Activity::Locking(LockOp::Look { node }) => Some(node),
        _ => None,
    }
}

/// Whether an operation has put its node into the queue.
pub open spec fn is_queued(activity: Activity) -> bool {
    sleep_node(activity) is Some || (activity matches Activity::Locking(
        LockOp::Publish { node, head },
    ) && node != head)
}

/// Whether an operation has the queue for itself.
pub open spec fn locks_queue(activity: Activity) -> bool {
    match activity {
        Activity::Idle => false,
        Activity::Locking(op) => op is ClearNext || op is FindTail || op is Append || op is Publish,
        Activity::Unlocking(op) => op is ReadNext || op is ReadThread || op is Publish,
    }
}

/// Whether an operation is about to mark a node.
pub open spec fn hands_over(activity: Activity, a: usize) -> bool {
    activity matches Activity::Unlocking(UnlockOp::Mark { head, .. }) && head == a
}

impl LockSystem {
    /// What a thread is doing.
    pub open spec fn activity(self, t: u64) -> Activity {
        if self.threads.contains_key(t) {
            self.threads[t]
        } else {
            Activity::Idle
        }
    }

    /// A free lock that no thread uses.
    pub open spec fn init(self) -> bool {
        &&& self.memory == MemoryView::initial()
        &&& self.threads == Map::<u64, Activity>::empty()
        &&& self.tokens == Set::<u64>::empty()
        &&& self.path == Seq::<usize>::empty()
        &&& self.arrived == Seq::<u64>::empty()
        &&& self.served == Seq::<u64>::empty()
    }

    /// The same system with another activity of one thread.
    pub open spec fn with(self, t: u64, activity: Activity) -> Self {
        LockSystem { threads: self.threads.insert(t, activity), ..self }
    }

    /// Whether an allocation of thread `t` can choose the address `fresh`.
    pub open spec fn can_step(self, t: u64, fresh: usize) -> bool {
        self.activity(t) == Activity::Locking(LockOp::Allocate) ==> self.memory.is_fresh(fresh)
    }

    /// The system after one step of a thread on its way to the lock. A thread that sleeps may go
    /// on at any time.
    pub open spec fn lock_step(self, t: u64, fresh: usize, op: LockOp) -> Self {
        let access = op.next_access(t);
        let post = LockSystem {
            memory: self.memory.effect(access, fresh),
            tokens: tokens_after(self.tokens, t, access),
            ..self.with(t, Activity::Locking(op.after(self.memory.reply(access, fresh))))
        };
        match op {
            LockOp::Append { node, .. } => LockSystem {
                path: self.path.push(node),
                arrived: self.arrived.push(t),
                ..post
            },
            LockOp::Publish { node, head } => if node == head {
                LockSystem { path: self.path.push(node), arrived: self.arrived.push(t), ..post }
            } else {
                post
            },
            _ => post,
        }
    }

    /// The system after one step of a thread that lets go of the lock.
    pub open spec fn unlock_step(self, t: u64, fresh: usize, op: UnlockOp) -> Self {
        let access = op.next_access();
        let post = LockSystem {
            memory: self.memory.effect(access, fresh),
            tokens: tokens_after(self.tokens, t, access),
            ..self.with(t, Activity::Unlocking(op.after(self.memory.reply(access, fresh))))
        };
        match op {
            UnlockOp::Publish { thread, .. } => LockSystem {
                path: self.path.drop_first(),
                served: self.served.push(thread),
                ..post
            },
            _ => post,
        }
    }

    /// The system after one step of thread `t`.
    pub open spec fn step(self, t: u64, fresh: usize) -> Self {
        match self.activity(t) {
            Activity::Idle => self.with(t, Activity::Locking(LockOp::Begin)),
            Activity::Locking(LockOp::Held) => self.with(
                t,
                Activity::Unlocking(UnlockOp::Load),
            ),
            Activity::Locking(op) => self.lock_step(t, fresh, op),
            Activity::Unlocking(UnlockOp::Done) => self.with(t, Activity::Idle),
            Activity::Unlocking(op) => self.unlock_step(t, fresh, op),
        }
    }

    /// One step of some thread leads from `self` to `post`.
    pub open spec fn next(self, post: Self) -> bool {
        exists|t: u64, fresh: usize| #[trigger]
            self.can_step(t, fresh) && post == self.step(t, fresh)
    }

    /// Whether a thread has taken the lock and not let go of it yet.
    pub open spec fn holds(self, t: u64) -> bool {
        match self.activity(t) {
            Activity::Idle => false,
            Activity::Locking(op) => op is Held || op is Discard || op is Leave,
            Activity::Unlocking(op) => op !is Wake && op !is Done,
        }
    }

    /// Whether the lock was handed over to a thread that does not know it yet.
    pub open spec fn is_granted(self, t: u64) -> bool {
        sleep_node(self.activity(t)) matches Some(node) && self.memory.nodes[node].marked
    }

    /// Whether the lock belongs to a thread.
    pub open spec fn owns(self, t: u64) -> bool {
        self.holds(t) || self.is_granted(t)
    }

    /// Whether the lock belongs to some thread.
    pub open spec fn is_owned(self) -> bool {
        exists|t: u64| self.owns(t)
    }

    /// Whether some thread is about to mark a node.
    pub open spec fn is_target(self, a: usize) -> bool {
        exists|r: u64| #[trigger] hands_over(self.activity(r), a)
    }

    /// Whether some thread is about to unpark `t`.
    pub open spec fn is_being_woken(self, t: u64) -> bool {
        exists|r: u64| #[trigger]
            self.activity(r) == Activity::Unlocking(UnlockOp::Wake { thread: t })
    }

    /// The threads in the queue, in order.
    pub open spec fn waiting(self) -> Seq<u64> {
        threads_along(self.memory.nodes, self.path)
    }

    /// What an operation under way says of the state word that it read.
    pub open spec fn local_inv(self, t: u64) -> bool {
        match self.activity(t) {
            Activity::Idle => true,
            Activity::Locking(op) => {
                &&& op.wf()
                &&& match op {
                    LockOp::TryFast { state } => !is_locked(state),
                    LockOp::Acquire { state, .. } => !is_locked(state),
                    LockOp::LockQueue { state, .. } => is_locked(state) && !is_queue_locked(state),
                    _ => true,
                }
            },
            Activity::Unlocking(op) => {
                &&& op.wf()
                &&& match op {
                    UnlockOp::Release { state } => address(state) == 0 && !is_queue_locked(state),
                    UnlockOp::LockQueue { state } => address(state) != 0 && !is_queue_locked(
                        state,
                    ),
                    _ => true,
                }
            },
        }
    }

    /// What holds of the node of one thread.
    pub open spec fn node_inv(self, t: u64) -> bool {
        node_of(self.activity(t)) matches Some(node) ==> {
            let cell = self.memory.nodes[node];
            &&& self.memory.nodes.contains_key(node)
            &&& cell.thread == t
            &&& !is_queued(self.activity(t)) ==> !self.path.contains(node)
            &&& sleep_node(self.activity(t)) is None && !(self.activity(t) matches Activity::Locking(
                LockOp::Leave { .. },
            )) ==> cell.next == 0 && !cell.marked
            &&& sleep_node(self.activity(t)) is Some ==> self.path.contains(node) == !(cell.marked
                || self.is_target(node))
        }
    }

    /// What holds of the operation of one thread.
    pub open spec fn thread_inv(self, t: u64) -> bool {
        let nodes = self.memory.nodes;
        let path = self.path;
        &&& self.local_inv(t)
        &&& self.node_inv(t)
        &&& match self.activity(t) {
            Activity::Idle => true,
            Activity::Locking(op) => match op {
                LockOp::ClearNext { .. } => path.len() == 0,
                LockOp::FindTail { head, tail, .. } => {
                    &&& path.len() > 0
                    &&& head == path[0]
                    &&& path.contains(tail)
                },
                LockOp::Append { head, tail, .. } => {
                    &&& path.len() > 0
                    &&& head == path[0]
                    &&& tail == path.last()
                },
                LockOp::Publish { node, head } => if node == head {
                    path.len() == 0
                } else {
                    &&& path.len() > 0
                    &&& head == path[0]
                    &&& path.contains(node)
                },
                LockOp::Park { node } => nodes[node].marked ==> self.tokens.contains(t)
                    || self.is_being_woken(t),
                _ => true,
            },
            Activity::Unlocking(op) => match op {
                UnlockOp::ReadNext { head } => path.len() > 0 && head == path[0],
                UnlockOp::ReadThread { head, next } => {
                    &&& path.len() > 0
                    &&& head == path[0]
                    &&& next == nodes[head].next
                },
                UnlockOp::Publish { head, next, thread } => {
                    &&& path.len() > 0
                    &&& head == path[0]
                    &&& next == nodes[head].next
                    &&& thread == nodes[head].thread
                },
                UnlockOp::Mark { head, thread } => {
                    &&& nodes.contains_key(head)
                    &&& thread == nodes[head].thread
                    &&& !nodes[head].marked
                    &&& sleep_node(self.activity(thread)) == Some(head)
                },
                _ => true,
            },
        }
    }

    /// The lock belongs to one thread at most; its bit says whether it does, and it does while
    /// threads wait.
    pub open spec fn owner_inv(self) -> bool {
        &&& forall|t: u64, u: u64| #[trigger] self.owns(t) && #[trigger] self.owns(u) ==> t == u
        &&& is_locked(self.memory.state) <==> self.is_owned()
        &&& self.path.len() > 0 ==> is_locked(self.memory.state)
    }

    /// The queue bit says whether a thread has the queue for itself; there is one such thread at
    /// most, and the lock is held then.
    pub open spec fn window_inv(self) -> bool {
        &&& is_queue_locked(self.memory.state) ==> is_locked(self.memory.state)
        &&& is_queue_locked(self.memory.state) <==> exists|t: u64|
            locks_queue(#[trigger] self.activity(t))
        &&& forall|t: u64, u: u64|
            #![trigger self.activity(t), self.activity(u)]
            locks_queue(self.activity(t)) && locks_queue(self.activity(u)) ==> t == u
    }

    /// The nodes in use are those of the operations under way.
    pub open spec fn nodes_inv(self) -> bool {
        forall|a: usize| #[trigger]
            self.memory.nodes.contains_key(a) ==> {
                &&& a != 0
                &&& is_aligned(a)
                &&& is_aligned(self.memory.nodes[a].next)
                &&& node_of(self.activity(self.memory.nodes[a].thread)) == Some(a)
            }
    }

    /// The queue is a list that starts at the state word, and holds the threads that arrived
    /// and were not served yet.
    pub open spec fn queue_inv(self) -> bool {
        &&& is_chain(self.memory.nodes, first(self.path), self.path)
        &&& address(self.memory.state) == first(self.path)
        &&& self.arrived == self.served + self.waiting()
    }

    /// All of it together.
    pub open spec fn inv(self) -> bool {
        &&& self.owner_inv()
        &&& self.window_inv()
        &&& self.nodes_inv()
        &&& self.queue_inv()
        &&& forall|t: u64| #[trigger] self.thread_inv(t)
    }
}

} // verus!
