//! A mutex whose waiting threads stand in a queue that starts at its state word. The thread that
//! lets go frees the mutex and wakes the first of them, which then tries again.
//!
//! What a thread does is written as three operations, [`TryLockOp`], [`AcquireOp`] and
//! [`ReleaseOp`], that stop before each access to shared memory: `access` says which access
//! comes next and `resume` what follows from its outcome. The same operations run one at a time
//! on a [`QueueMutex`] and concurrently on atomics.

use crate::chain::{after, chain_is_unique, is_chain, Linked};
use crate::heap::MIN_ROOM;
use crate::lock_memory::{room_change, Access, LockMemory, MemoryView, QueueNode, Reply};
use crate::word::{
    address, address_of, clear_locked, clear_queue_locked, compose, compose_is_faithful, has_locked,
    has_queue_locked, is_aligned, is_locked, is_queue_locked, replace_address, set_locked,
    set_queue_locked, word_is_composed,
};
use vstd::prelude::*;

verus! {

/// How often a thread spins before it reads the state word again.
pub const SPIN_TURNS: u8 = 10;

/// How far a thread has come in taking the mutex without waiting.
#[derive(Clone, Copy, PartialEq, Eq, Structural, Debug)]
pub enum TryLockOp {
    /// About to read the state word.
    Load,
    /// Found the mutex free; about to take it.
    Exchange { state: usize },
    /// Has the mutex or has found it taken.
    Done { locked: bool },
}

/// How far a thread has come in taking the mutex.
#[derive(Clone, Copy, PartialEq, Eq, Structural, Debug)]
pub enum AcquireOp {
    /// About to read the state word.
    Load,
    /// Found the mutex free; about to take it.
    Exchange { state: usize },
    /// Found the mutex taken; about to allocate a node.
    Allocate,
    /// About to read the state word for the queue.
    LoadQueue { node: usize },
    /// Found the queue locked; about to spin.
    Spin { node: usize, turns: u8 },
    /// About to lock the queue.
    LockQueue { node: usize, state: usize },
    /// Locked an empty queue; about to make the node the first one and unlock the queue.
    Enter { node: usize, state: usize },
    /// Locked an empty queue, but the mutex is free by now; about to unlock the queue.
    Retreat { node: usize, state: usize },
    /// Locked a queue; about to read the link of `tail`.
    FindTail { node: usize, state: usize, tail: usize },
    /// Found the last node; about to link it to the own node.
    Append { node: usize, state: usize, tail: usize },
    /// In the queue; about to unlock it.
    Publish { node: usize, state: usize },
    /// In the queue; about to sleep.
    Park { node: usize },
    /// Awake; about to see whether to go on.
    Look { node: usize },
    /// About to give the node back and to try again.
    Free { node: usize },
    /// Has the mutex.
    Held,
}

/// How far a thread has come in letting go of the mutex.
#[derive(Clone, Copy, PartialEq, Eq, Structural, Debug)]
pub enum ReleaseOp {
    /// About to read the state word.
    Load,
    /// About to free the mutex.
    Exchange { state: usize },
    /// Freed the mutex; about to read the state word for the queue.
    LoadQueue,
    /// Found the queue locked; about to spin.
    Spin { turns: u8 },
    /// About to lock the queue.
    LockQueue { state: usize },
    /// Locked the queue; about to read the link of the first node.
    ReadNext { head: usize, state: usize },
    /// About to take the first node out and unlock the queue.
    Publish { head: usize, next: usize, state: usize },
    /// About to read the thread of the node that was taken out.
    ReadThread { head: usize },
    /// About to let that thread go on.
    Mark { head: usize, thread: u64 },
    /// About to wake a thread.
    Wake { thread: u64 },
    /// Has let go of the mutex.
    Done,
}

impl TryLockOp {
    /// The access that comes next.
    pub open spec fn next_access(self) -> Access {
        match self {
            TryLockOp::Load => Access::LoadState,
            TryLockOp::Exchange { state } => Access::CompareExchange {
                expected: state,
                new: compose(address(state), true, is_queue_locked(state)),
            },
            TryLockOp::Done { .. } => Access::Finished,
        }
    }

    /// Where the operation stands after it has seen a state word.
    pub open spec fn seeing(word: usize) -> Self {
        if is_locked(word) {
            TryLockOp::Done { locked: false }
        } else {
            TryLockOp::Exchange { state: word }
        }
    }

    /// Where the operation stands after a reply. A reply that does not belong to the access
    /// leaves it where it is.
    pub open spec fn after(self, reply: Reply) -> Self {
        match (self, reply) {
            (TryLockOp::Load, Reply::Value { word }) => TryLockOp::seeing(word),
            (TryLockOp::Exchange { .. }, Reply::Swapped) => TryLockOp::Done { locked: true },
            (TryLockOp::Exchange { .. }, Reply::Observed { word }) => TryLockOp::seeing(word),
            _ => self,
        }
    }

    /// The access that comes next.
    pub fn access(&self) -> (access: Access)
        ensures
            access == self.next_access(),
    {
        match *self {
            TryLockOp::Load => Access::LoadState,
            TryLockOp::Exchange { state } => Access::CompareExchange {
                expected: state,
                new: set_locked(state),
            },
            TryLockOp::Done { locked: _ } => Access::Finished,
        }
    }

    /// Goes on after a reply.
    pub fn resume(self, reply: Reply) -> (op: Self)
        ensures
            op == self.after(reply),
    {
        match (self, reply) {
            (TryLockOp::Load, Reply::Value { word })
            | (TryLockOp::Exchange { state: _ }, Reply::Observed { word }) => {
                if has_locked(word) {
                    TryLockOp::Done { locked: false }
                } else {
                    TryLockOp::Exchange { state: word }
                }
            },
            (TryLockOp::Exchange { state: _ }, Reply::Swapped) => TryLockOp::Done { locked: true },
            _ => self,
        }
    }
}

impl AcquireOp {
    /// The node of the operation, if it has one, leaves the flag bits free, and the operation
    /// enters an empty queue while the mutex is taken, and gives it up while the mutex is free.
    pub open spec fn wf(self) -> bool {
        match self {
            AcquireOp::LoadQueue { node } => is_aligned(node),
            AcquireOp::Spin { node, .. } => is_aligned(node),
            AcquireOp::LockQueue { node, .. } => is_aligned(node),
            AcquireOp::Enter { node, state } => is_aligned(node) && is_locked(state),
            AcquireOp::Retreat { node, state } => is_aligned(node) && !is_locked(state),
            AcquireOp::FindTail { node, .. } => is_aligned(node),
            AcquireOp::Append { node, .. } => is_aligned(node),
            _ => true,
        }
    }

    /// The access that comes next.
    pub open spec fn next_access(self, thread: u64) -> Access {
        match self {
            AcquireOp::Load => Access::LoadState,
            AcquireOp::Exchange { state } => Access::CompareExchange {
                expected: state,
                new: compose(address(state), true, is_queue_locked(state)),
            },
            AcquireOp::Allocate => Access::NewNode { thread },
            AcquireOp::LoadQueue { .. } => Access::LoadState,
            AcquireOp::Spin { .. } => Access::SpinLoop,
            AcquireOp::LockQueue { state, .. } => Access::CompareExchange {
                expected: state,
                new: compose(address(state), is_locked(state), true),
            },
            AcquireOp::Enter { node, state } => Access::CompareExchange {
                expected: state,
                new: compose(node, true, false),
            },
            AcquireOp::Retreat { state, .. } => Access::CompareExchange {
                expected: state,
                new: compose(address(state), is_locked(state), false),
            },
            AcquireOp::FindTail { tail, .. } => Access::LoadNext { node: tail },
            AcquireOp::Append { node, tail, .. } => Access::StoreNext { node: tail, next: node },
            AcquireOp::Publish { state, .. } => Access::CompareExchange {
                expected: state,
                new: compose(address(state), is_locked(state), false),
            },
            AcquireOp::Park { .. } => Access::Park,
            AcquireOp::Look { node } => Access::ReadMark { node },
            AcquireOp::Free { node } => Access::FreeNode { node },
            AcquireOp::Held => Access::Finished,
        }
    }

    /// Where the operation stands after it has seen a state word.
    pub open spec fn seeing(word: usize) -> Self {
        if is_locked(word) {
            AcquireOp::Allocate
        } else {
            AcquireOp::Exchange { state: word }
        }
    }

    /// Where the operation stands after it has seen a state word on its way into the queue.
    pub open spec fn seeing_queue(node: usize, word: usize) -> Self {
        if is_queue_locked(word) {
            AcquireOp::Spin { node, turns: SPIN_TURNS }
        } else {
            AcquireOp::LockQueue { node, state: word }
        }
    }

    /// Where the operation stands when it has locked an empty queue and the state word is `word`.
    pub open spec fn entering(node: usize, word: usize) -> Self {
        if is_locked(word) {
            AcquireOp::Enter { node, state: word }
        } else {
            AcquireOp::Retreat { node, state: word }
        }
    }

    /// Where the operation stands after a reply. A reply that does not belong to the access
    /// leaves it where it is.
    pub open spec fn after(self, reply: Reply) -> Self {
        match (self, reply) {
            (AcquireOp::Load, Reply::Value { word }) => AcquireOp::seeing(word),
            (AcquireOp::Exchange { .. }, Reply::Swapped) => AcquireOp::Held,
            (AcquireOp::Exchange { .. }, Reply::Observed { word }) => AcquireOp::seeing(word),
            (AcquireOp::Allocate, Reply::Node { node }) => AcquireOp::LoadQueue { node },
            (AcquireOp::LoadQueue { node }, Reply::Value { word }) => AcquireOp::seeing_queue(
                node,
                word,
            ),
            (AcquireOp::Spin { node, turns }, Reply::Ack) => if turns > 1 {
                AcquireOp::Spin { node, turns: (turns - 1) as u8 }
            } else {
                AcquireOp::LoadQueue { node }
            },
            (AcquireOp::LockQueue { node, state }, Reply::Swapped) => {
                let locked = compose(address(state), is_locked(state), true);
                if address(state) == 0 {
                    AcquireOp::entering(node, locked)
                } else {
                    AcquireOp::FindTail { node, state: locked, tail: address(state) }
                }
            },
            (AcquireOp::LockQueue { node, .. }, Reply::Observed { word }) => {
                AcquireOp::seeing_queue(node, word)
            },
            (AcquireOp::Enter { node, .. }, Reply::Swapped) => AcquireOp::Park { node },
            (AcquireOp::Enter { node, .. }, Reply::Observed { word }) => AcquireOp::entering(
                node,
                word,
            ),
            (AcquireOp::Retreat { node, .. }, Reply::Swapped) => AcquireOp::Free { node },
            (AcquireOp::Retreat { node, .. }, Reply::Observed { word }) => AcquireOp::entering(
                node,
                word,
            ),
            (AcquireOp::FindTail { node, state, tail }, Reply::Next { next }) => if next == 0 {
                AcquireOp::Append { node, state, tail }
            } else {
                AcquireOp::FindTail { node, state, tail: next }
            },
            (AcquireOp::Append { node, state, .. }, Reply::Ack) => AcquireOp::Publish {
                node,
                state,
            },
            (AcquireOp::Publish { node, .. }, Reply::Swapped) => AcquireOp::Park { node },
            (AcquireOp::Publish { node, .. }, Reply::Observed { word }) => AcquireOp::Publish {
                node,
                state: word,
            },
            (AcquireOp::Park { node }, Reply::Ack) => AcquireOp::Look { node },
            (AcquireOp::Look { node }, Reply::Marked { marked }) => if marked {
                AcquireOp::Free { node }
            } else {
                AcquireOp::Park { node }
            },
            (AcquireOp::Free { .. }, Reply::Ack) => AcquireOp::Load,
            _ => self,
        }
    }

    /// The access that comes next for `thread`.
    pub fn access(&self, thread: u64) -> (access: Access)
        requires
            self.wf(),
        ensures
            access == self.next_access(thread),
    {
        match *self {
            AcquireOp::Load => Access::LoadState,
            AcquireOp::Exchange { state } => Access::CompareExchange {
                expected: state,
                new: set_locked(state),
            },
            AcquireOp::Allocate => Access::NewNode { thread },
            AcquireOp::LoadQueue { node: _ } => Access::LoadState,
            AcquireOp::Spin { node: _, turns: _ } => Access::SpinLoop,
            AcquireOp::LockQueue { node: _, state } => Access::CompareExchange {
                expected: state,
                new: set_queue_locked(state),
            },
            AcquireOp::Enter { node, state } => Access::CompareExchange {
                expected: state,
                new: replace_address(state, node),
            },
            AcquireOp::Retreat { node: _, state } => Access::CompareExchange {
                expected: state,
                new: clear_queue_locked(state),
            },
            AcquireOp::FindTail { node: _, state: _, tail } => Access::LoadNext { node: tail },
            AcquireOp::Append { node, state: _, tail } => {
                Access::StoreNext { node: tail, next: node }
            },
            AcquireOp::Publish { node: _, state } => Access::CompareExchange {
                expected: state,
                new: clear_queue_locked(state),
            },
            AcquireOp::Park { node: _ } => Access::Park,
            AcquireOp::Look { node } => Access::ReadMark { node },
            AcquireOp::Free { node } => Access::FreeNode { node },
            AcquireOp::Held => Access::Finished,
        }
    }

    /// Goes on after a reply.
    pub fn resume(self, reply: Reply) -> (op: Self)
        requires
            self.wf(),
            reply is Node ==> is_aligned(reply->node),
        ensures
            op == self.after(reply),
            op.wf(),
    {
        match (self, reply) {
            (AcquireOp::Load, Reply::Value { word })
            | (AcquireOp::Exchange { state: _ }, Reply::Observed { word }) => {
                if !has_locked(word) {
                    AcquireOp::Exchange { state: word }
                } else {
                    AcquireOp::Allocate
                }
            },
            (AcquireOp::Exchange { state: _ }, Reply::Swapped) => AcquireOp::Held,
            (AcquireOp::Allocate, Reply::Node { node }) => AcquireOp::LoadQueue { node },
            (AcquireOp::LoadQueue { node }, Reply::Value { word })
            | (AcquireOp::LockQueue { node, state: _ }, Reply::Observed { word }) => {
                if has_queue_locked(word) {
                    AcquireOp::Spin { node, turns: SPIN_TURNS }
                } else {
                    AcquireOp::LockQueue { node, state: word }
                }
            },
            (AcquireOp::Spin { node, turns }, Reply::Ack) => {
                if turns > 1 {
                    AcquireOp::Spin { node, turns: turns - 1 }
                } else {
                    AcquireOp::LoadQueue { node }
                }
            },
            (AcquireOp::LockQueue { node, state }, Reply::Swapped) => {
                let locked: usize = set_queue_locked(state);
                let head: usize = address_of(state);
                if head == 0 {
                    AcquireOp::enter_or_retreat(node, locked)
                } else {
                    AcquireOp::FindTail { node, state: locked, tail: head }
                }
            },
            (AcquireOp::Enter { node, state: _ }, Reply::Swapped) => AcquireOp::Park { node },
            (AcquireOp::Retreat { node, state: _ }, Reply::Swapped) => AcquireOp::Free { node },
            (AcquireOp::Enter { node, state: _ }, Reply::Observed { word })
            | (AcquireOp::Retreat { node, state: _ }, Reply::Observed { word }) => {
                AcquireOp::enter_or_retreat(node, word)
            },
            (AcquireOp::FindTail { node, state, tail }, Reply::Next { next }) => {
                if next == 0 {
                    AcquireOp::Append { node, state, tail }
                } else {
                    AcquireOp::FindTail { node, state, tail: next }
                }
            },
            (AcquireOp::Append { node, state, tail: _ }, Reply::Ack) => {
                AcquireOp::Publish { node, state }
            },
            (AcquireOp::Publish { node, state: _ }, Reply::Swapped) => AcquireOp::Park { node },
            (AcquireOp::Publish { node, state: _ }, Reply::Observed { word }) => {
                AcquireOp::Publish { node, state: word }
            },
            (AcquireOp::Park { node }, Reply::Ack) => AcquireOp::Look { node },
            (AcquireOp::Look { node }, Reply::Marked { marked }) => {
                if marked {
                    AcquireOp::Free { node }
                } else {
                    AcquireOp::Park { node }
                }
            },
            (AcquireOp::Free { node: _ }, Reply::Ack) => AcquireOp::Load,
            _ => self,
        }
    }

    /// Goes on with an empty queue locked: into it while the mutex is taken, and back otherwise.
    fn enter_or_retreat(node: usize, word: usize) -> (op: Self)
        requires
            is_aligned(node),
        ensures
            op == AcquireOp::entering(node, word),
            op.wf(),
    {
        if has_locked(word) {
            AcquireOp::Enter { node, state: word }
        } else {
            AcquireOp::Retreat { node, state: word }
        }
    }
}

impl ReleaseOp {
    /// The address of the node that becomes the first one leaves the flag bits free.
    pub open spec fn wf(self) -> bool {
        match self {
            ReleaseOp::Publish { next, .. } => is_aligned(next),
            _ => true,
        }
    }

    /// The access that comes next.
    pub open spec fn next_access(self) -> Access {
        match self {
            ReleaseOp::Load => Access::LoadState,
            ReleaseOp::Exchange { state } => Access::CompareExchange {
                expected: state,
                new: compose(address(state), false, is_queue_locked(state)),
            },
            ReleaseOp::LoadQueue => Access::LoadState,
            ReleaseOp::Spin { .. } => Access::SpinLoop,
            ReleaseOp::LockQueue { state } => Access::CompareExchange {
                expected: state,
                new: compose(address(state), is_locked(state), true),
            },
            ReleaseOp::ReadNext { head, .. } => Access::LoadNext { node: head },
            ReleaseOp::Publish { next, state, .. } => Access::CompareExchange {
                expected: state,
                new: compose(next, is_locked(state), false),
            },
            ReleaseOp::ReadThread { head } => Access::ReadThread { node: head },
            ReleaseOp::Mark { head, thread: _ } => Access::Mark { node: head },
            ReleaseOp::Wake { thread } => Access::Unpark { thread },
            ReleaseOp::Done => Access::Finished,
        }
    }

    /// Where the operation stands after it has seen a state word on its way to the queue.
    pub open spec fn seeing_queue(word: usize) -> Self {
        if is_queue_locked(word) {
            ReleaseOp::Spin { turns: SPIN_TURNS }
        } else {
            ReleaseOp::LockQueue { state: word }
        }
    }

    /// Where the operation stands after a reply. A reply that does not belong to the access
    /// leaves it where it is.
    pub open spec fn after(self, reply: Reply) -> Self {
        match (self, reply) {
            (ReleaseOp::Load, Reply::Value { word }) => ReleaseOp::Exchange { state: word },
            (ReleaseOp::Exchange { state }, Reply::Swapped) => if address(state) != 0 {
                ReleaseOp::LoadQueue
            } else {
                ReleaseOp::Done
            },
            (ReleaseOp::Exchange { .. }, Reply::Observed { word }) => ReleaseOp::Exchange {
                state: word,
            },
            (ReleaseOp::LoadQueue, Reply::Value { word }) => ReleaseOp::seeing_queue(word),
            (ReleaseOp::Spin { turns }, Reply::Ack) => if turns > 1 {
                ReleaseOp::Spin { turns: (turns - 1) as u8 }
            } else {
                ReleaseOp::LoadQueue
            },
            (ReleaseOp::LockQueue { state }, Reply::Swapped) => {
                let locked = compose(address(state), is_locked(state), true);
                if address(state) == 0 {
                    ReleaseOp::Publish { head: 0, next: 0, state: locked }
                } else {
                    ReleaseOp::ReadNext { head: address(state), state: locked }
                }
            },
            (ReleaseOp::LockQueue { .. }, Reply::Observed { word }) => ReleaseOp::seeing_queue(
                word,
            ),
            (ReleaseOp::ReadNext { head, state }, Reply::Next { next }) => ReleaseOp::Publish {
                head,
                next,
                state,
            },
            (ReleaseOp::Publish { head, .. }, Reply::Swapped) => if head == 0 {
                ReleaseOp::Done
            } else {
                ReleaseOp::ReadThread { head }
            },
            (ReleaseOp::Publish { head, next, .. }, Reply::Observed { word }) => {
                ReleaseOp::Publish { head, next, state: word }
            },
            (ReleaseOp::ReadThread { head }, Reply::Thread { thread }) => ReleaseOp::Mark {
                head,
                thread,
            },
            (ReleaseOp::Mark { thread, .. }, Reply::Ack) => ReleaseOp::Wake { thread },
            (ReleaseOp::Wake { .. }, Reply::Ack) => ReleaseOp::Done,
            _ => self,
        }
    }

    /// The access that comes next.
    pub fn access(&self) -> (access: Access)
        requires
            self.wf(),
        ensures
            access == self.next_access(),
    {
        match *self {
            ReleaseOp::Load => Access::LoadState,
            ReleaseOp::Exchange { state } => Access::CompareExchange {
                expected: state,
                new: clear_locked(state),
            },
            ReleaseOp::LoadQueue => Access::LoadState,
            ReleaseOp::Spin { turns: _ } => Access::SpinLoop,
            ReleaseOp::LockQueue { state } => Access::CompareExchange {
                expected: state,
                new: set_queue_locked(state),
            },
            ReleaseOp::ReadNext { head, state: _ } => Access::LoadNext { node: head },
            ReleaseOp::Publish { head: _, next, state } => Access::CompareExchange {
                expected: state,
                new: replace_address(state, next),
            },
            ReleaseOp::ReadThread { head } => Access::ReadThread { node: head },
            ReleaseOp::Mark { head, thread: _ } => Access::Mark { node: head },
            ReleaseOp::Wake { thread } => Access::Unpark { thread },
            ReleaseOp::Done => Access::Finished,
        }
    }

    /// Goes on after a reply.
    pub fn resume(self, reply: Reply) -> (op: Self)
        requires
            self.wf(),
            reply is Next ==> is_aligned(reply->next),
        ensures
            op == self.after(reply),
            op.wf(),
    {
        match (self, reply) {
            (ReleaseOp::Load, Reply::Value { word })
            | (ReleaseOp::Exchange { state: _ }, Reply::Observed { word }) => {
                ReleaseOp::Exchange { state: word }
            },
            (ReleaseOp::Exchange { state }, Reply::Swapped) => {
                if address_of(state) != 0 {
                    ReleaseOp::LoadQueue
                } else {
                    ReleaseOp::Done
                }
            },
            (ReleaseOp::LoadQueue, Reply::Value { word })
            | (ReleaseOp::LockQueue { state: _ }, Reply::Observed { word }) => {
                if has_queue_locked(word) {
                    ReleaseOp::Spin { turns: SPIN_TURNS }
                } else {
                    ReleaseOp::LockQueue { state: word }
                }
            },
            (ReleaseOp::Spin { turns }, Reply::Ack) => {
                if turns > 1 {
                    ReleaseOp::Spin { turns: turns - 1 }
                } else {
                    ReleaseOp::LoadQueue
                }
            },
            (ReleaseOp::LockQueue { state }, Reply::Swapped) => {
                let head: usize = address_of(state);
                let locked: usize = set_queue_locked(state);
                if head == 0 {
                    ReleaseOp::Publish { head: 0, next: 0, state: locked }
                } else {
                    ReleaseOp::ReadNext { head, state: locked }
                }
            },
            (ReleaseOp::ReadNext { head, state }, Reply::Next { next }) => {
                ReleaseOp::Publish { head, next, state }
            },
            (ReleaseOp::Publish { head, next: _, state: _ }, Reply::Swapped) => {
                if head == 0 {
                    ReleaseOp::Done
                } else {
                    ReleaseOp::ReadThread { head }
                }
            },
            (ReleaseOp::Publish { head, next, state: _ }, Reply::Observed { word }) => {
                ReleaseOp::Publish { head, next, state: word }
            },
            (ReleaseOp::ReadThread { head }, Reply::Thread { thread }) => {
                ReleaseOp::Mark { head, thread }
            },
            (ReleaseOp::Mark { head: _, thread }, Reply::Ack) => ReleaseOp::Wake { thread },
            (ReleaseOp::Wake { thread: _ }, Reply::Ack) => ReleaseOp::Done,
            _ => self,
        }
    }
}

/// The memory after a thread has taken the mutex, or has found it taken.
pub open spec fn taken(memory: MemoryView) -> MemoryView {
    MemoryView {
        state: compose(address(memory.state), true, is_queue_locked(memory.state)),
        ..memory
    }
}

/// The memory after the thread that has the mutex has let go of it: the mutex is free and the
/// first node, if there was one, is out of the queue and marked.
pub open spec fn released(memory: MemoryView) -> MemoryView {
    let freed = MemoryView {
        state: compose(address(memory.state), false, is_queue_locked(memory.state)),
        ..memory
    };
    if address(memory.state) == 0 {
        freed
    } else {
        dequeued(freed)
    }
}

/// The thread that is woken: that of the first node, if there is one.
pub open spec fn successor(memory: MemoryView) -> Option<u64> {
    let head = address(memory.state);
    if head == 0 {
        None
    } else {
        Some(memory.nodes[head].thread)
    }
}

/// Whether a thread that lets go of the mutex need not wait: the queue is empty, or its first
/// node is in use and no other thread has the queue for itself.
pub open spec fn can_release(memory: MemoryView) -> bool {
    address(memory.state) != 0 ==> {
        &&& !is_queue_locked(memory.state)
        &&& memory.nodes.contains_key(address(memory.state))
    }
}

/// The memory after `thread` has put its node behind those of `path`.
pub open spec fn enqueued(
    memory: MemoryView,
    path: Seq<usize>,
    thread: u64,
    node: usize,
) -> MemoryView {
    let nodes = memory.nodes.insert(node, QueueNode { thread, next: 0, marked: false });
    if path.len() == 0 {
        MemoryView { state: compose(node, is_locked(memory.state), false), nodes }
    } else {
        MemoryView {
            state: compose(path[0], is_locked(memory.state), false),
            nodes: nodes.insert(
                path.last(),
                QueueNode { next: node, ..memory.nodes[path.last()] },
            ),
        }
    }
}

/// The memory after the first node, if there is one, was taken out of the queue and marked.
pub open spec fn dequeued(memory: MemoryView) -> MemoryView {
    let head = address(memory.state);
    if head == 0 {
        MemoryView { state: compose(0, is_locked(memory.state), false), ..memory }
    } else {
        MemoryView {
            state: compose(memory.nodes[head].next, is_locked(memory.state), false),
            nodes: memory.nodes.insert(head, QueueNode { marked: true, ..memory.nodes[head] }),
        }
    }
}

/// A queue-based mutex.
pub struct QueueMutex {
    memory: LockMemory,
}

impl QueueMutex {
    /// The shared memory of the mutex.
    pub closed spec fn shared(&self) -> MemoryView {
        self.memory@
    }

    /// The nodes of the queue have usable addresses.
    pub closed spec fn wf(&self) -> bool {
        self.memory.wf()
    }

    /// How many more nodes threads can get before the addresses run out.
    pub closed spec fn room(&self) -> nat {
        self.memory.room()
    }

    /// A free mutex.
    pub fn new() -> (mutex: Self)
        ensures
            mutex.wf(),
            mutex.room() >= MIN_ROOM,
            mutex.shared() == MemoryView::initial(),
    {
        QueueMutex { memory: LockMemory::new() }
    }

    /// The links of the nodes leave the flag bits free, and so do their addresses.
    pub proof fn nodes_are_usable(&self, node: usize)
        requires
            self.wf(),
            self.shared().nodes.contains_key(node),
        ensures
            node != 0,
            is_aligned(node),
            is_aligned(self.shared().nodes[node].next),
    {
        self.memory.nodes_are_usable(node);
    }

    /// Whether another thread can get a node.
    pub fn can_allocate(&self) -> (room: bool)
        ensures
            room == (self.room() > 0),
    {
        self.memory.can_allocate()
    }

    /// Lets a thread make one access on its way to the mutex without waiting.
    pub fn try_lock_step(&mut self, op: TryLockOp) -> (next: TryLockOp)
        requires
            old(self).wf(),
        ensures
            final(self).wf(),
            final(self).room() == old(self).room(),
            next == op.after(old(self).shared().reply(op.next_access(), 0)),
            final(self).shared() == old(self).shared().effect(op.next_access(), 0),
    {
        let access: Access = op.access();
        let reply: Reply = self.memory.perform(access);
        op.resume(reply)
    }

    /// Lets `thread` make one access on its way to the mutex. How long a thread sleeps is for the
    /// caller to say.
    pub fn lock_step(&mut self, thread: u64, op: AcquireOp) -> (next: AcquireOp)
        requires
            old(self).wf(),
            op.wf(),
            old(self).shared().admits(op.next_access(thread)),
            op is Allocate ==> old(self).room() > 0,
        ensures
            final(self).wf(),
            next.wf(),
            final(self).room() == old(self).room() + room_change(op.next_access(thread)),
            op !is Allocate ==> {
                let access = op.next_access(thread);
                &&& next == op.after(old(self).shared().reply(access, 0))
                &&& final(self).shared() == old(self).shared().effect(access, 0)
            },
            op is Allocate ==> {
                let access = op.next_access(thread);
                &&& next is LoadQueue
                &&& old(self).shared().is_fresh(next->LoadQueue_node)
                &&& final(self).shared() == old(self).shared().effect(access, next->LoadQueue_node)
            },
    {
        let access: Access = op.access(thread);
        let reply: Reply = self.memory.perform(access);
        op.resume(reply)
    }

    /// Lets a thread make one access on its way out. The thread named by a [`ReleaseOp::Wake`]
    /// is to be woken by the caller.
    pub fn unlock_step(&mut self, op: ReleaseOp) -> (next: ReleaseOp)
        requires
            old(self).wf(),
            op.wf(),
            old(self).shared().admits(op.next_access()),
        ensures
            final(self).wf(),
            next.wf(),
            final(self).room() == old(self).room(),
            next == op.after(old(self).shared().reply(op.next_access(), 0)),
            final(self).shared() == old(self).shared().effect(op.next_access(), 0),
    {
        let access: Access = op.access();
        proof {
            if let Access::LoadNext { node } = access {
                self.memory.nodes_are_usable(node);
            }
        }
        let reply: Reply = self.memory.perform(access);
        op.resume(reply)
    }

    /// Takes the mutex if it is free and says whether it did.
    pub fn try_lock(&mut self) -> (locked: bool)
        requires
            old(self).wf(),
        ensures
            final(self).wf(),
            final(self).room() == old(self).room(),
            locked == !is_locked(old(self).shared().state),
            final(self).shared() == taken(old(self).shared()),
            locked == (old(self).shared().state % 2 == 0),
            final(self).shared().nodes == old(self).shared().nodes,
            final(self).shared().state == old(self).shared().state + (if locked {
                1int
            } else {
                0
            }),
    {
        let mut op: TryLockOp = TryLockOp::Load;
        op = self.try_lock_step(op);
        if let TryLockOp::Exchange { state: _ } = op {
            op = self.try_lock_step(op);
        }
        match op {
            TryLockOp::Done { locked } => locked,
            _ => false,
        }
    }

    /// Takes the mutex, which must be free.
    pub fn lock(&mut self)
        requires
            old(self).wf(),
            !is_locked(old(self).shared().state),
        ensures
            final(self).wf(),
            final(self).room() == old(self).room(),
            final(self).shared() == taken(old(self).shared()),
            final(self).shared().state == old(self).shared().state + 1,
            final(self).shared().nodes == old(self).shared().nodes,
    {
        let mut op: AcquireOp = AcquireOp::Load;
        op = self.lock_step(0, op);
        op = self.lock_step(0, op);
        assert(op is Held);
    }

    /// Puts `thread` at the end of the queue of those that wait, up to the point where it sleeps,
    /// and returns its node. If the mutex is free and nobody waits, `thread` gives its node back
    /// instead, to try again for the mutex. The nodes in the queue form a list that ends, and no
    /// other thread has the queue for itself.
    pub fn enqueue_and_wait(&mut self, thread: u64) -> (waits: Option<usize>)
        requires
            old(self).wf(),
            old(self).room() > 0,
            !is_queue_locked(old(self).shared().state),
            exists|path: Seq<usize>|
                is_chain(old(self).shared().nodes, address(old(self).shared().state), path),
        ensures
            final(self).wf(),
            waits is None <==> old(self).shared().state == 0,
            waits is None ==> final(self).shared() == old(self).shared() && final(self).room()
                == old(self).room(),
            waits is Some ==> {
                &&& final(self).room() == old(self).room() - 1
                &&& old(self).shared().is_fresh(waits->0)
                &&& forall|path: Seq<usize>|
                    is_chain(old(self).shared().nodes, address(old(self).shared().state), path)
                        ==> final(self).shared() == #[trigger] enqueued(
                        old(self).shared(),
                        path,
                        thread,
                        waits->0,
                    )
            },
    {
        let ghost memory = self.shared();
        let ghost head = address(memory.state);
        let ghost path = choose|path: Seq<usize>| is_chain(memory.nodes, head, path);
        proof {
            word_is_composed(memory.state);
            compose_is_faithful(head, is_locked(memory.state), true);
            assert forall|other: Seq<usize>| is_chain(memory.nodes, head, other) implies other
                == path by {
                chain_is_unique(memory.nodes, head, other, path);
            }
            if path.len() > 0 {
                assert(path[0] != 0);
            }
        }
        let mut op: AcquireOp = self.lock_step(thread, AcquireOp::Allocate);
        let ghost node = op->LoadQueue_node;
        let ghost nodes = memory.nodes.insert(
            node,
            QueueNode { thread, next: 0, marked: false },
        );
        let ghost word = compose(head, is_locked(memory.state), true);
        op = self.lock_step(thread, op);
        assert(op is LockQueue);
        op = self.lock_step(thread, op);
        if let AcquireOp::Retreat { node: _, state: _ } = op {
            op = self.lock_step(thread, op);
            assert(op == AcquireOp::Free { node });
            op = self.lock_step(thread, op);
            assert(self.shared().nodes =~= memory.nodes);
            return None;
        }
        let ghost mut k: int = 0;
        while matches!(op, AcquireOp::FindTail { node: _, state: _, tail: _ })
            invariant
                memory == old(self).shared(),
                head == address(memory.state),
                word == compose(head, is_locked(memory.state), true),
                is_chain(memory.nodes, head, path),
                nodes == memory.nodes.insert(node, QueueNode { thread, next: 0, marked: false }),
                memory.is_fresh(node),
                self.wf(),
                self.room() == old(self).room() - 1,
                self.shared() == (MemoryView { state: word, nodes }),
                op.wf(),
                path.len() == 0 ==> op == (AcquireOp::Enter { node, state: word }),
                path.len() > 0 ==> 0 <= k < path.len() && (op == (AcquireOp::FindTail {
                    node,
                    state: word,
                    tail: path[k],
                }) || (op == (AcquireOp::Append { node, state: word, tail: path.last() }))),
            ensures
                path.len() > 0 ==> op == (AcquireOp::Append {
                    node,
                    state: word,
                    tail: path.last(),
                }),
            decreases path.len() - k, (if op is FindTail {
                1int
            } else {
                0
            }),
        {
            proof {
                assert(memory.nodes.contains_key(path[k]));
                assert(path[k] != node);
                assert(memory.nodes[path[k]].link() == after(path, k));
            }
            op = self.lock_step(thread, op);
            proof {
                if k + 1 < path.len() {
                    assert(path[k + 1] != 0);
                    k = k + 1;
                }
            }
        }
        proof {
            compose_is_faithful(head, is_locked(memory.state), true);
            if path.len() > 0 {
                assert(memory.nodes.contains_key(path.last()));
                assert(path.last() != node);
            }
        }
        if let AcquireOp::Append { node: _, state: _, tail: _ } = op {
            op = self.lock_step(thread, op);
        }
        op = self.lock_step(thread, op);
        assert(op == AcquireOp::Park { node });
        assert(self.shared().nodes =~= enqueued(memory, path, thread, node).nodes);
        match op {
            AcquireOp::Park { node } => Some(node),
            _ => None,
        }
    }

    /// Takes the first node, if there is one, out of the queue, marks it and returns its thread,
    /// which is to be woken. No other thread has the queue for itself.
    pub fn wake_next(&mut self) -> (woken: Option<u64>)
        requires
            old(self).wf(),
            !is_queue_locked(old(self).shared().state),
            can_release(old(self).shared()),
        ensures
            final(self).wf(),
            final(self).room() == old(self).room(),
            final(self).shared() == dequeued(old(self).shared()),
            woken == successor(old(self).shared()),
            old(self).shared().state <= 3 ==> woken is None && final(self).shared() == old(
                self,
            ).shared(),
            old(self).shared().state > 3 ==> {
                let head = (old(self).shared().state - old(self).shared().state % 4) as usize;
                let first = old(self).shared().nodes[head];
                &&& woken == Some(first.thread)
                &&& final(self).shared().state == first.next + old(self).shared().state % 2
                &&& final(self).shared().nodes == old(self).shared().nodes.insert(
                    head,
                    QueueNode { marked: true, ..first },
                )
            },
    {
        let ghost memory = self.shared();
        proof {
            if address(memory.state) != 0 {
                let next = memory.nodes[address(memory.state)].next;
                self.memory.nodes_are_usable(address(memory.state));
                compose_is_faithful(next, is_locked(memory.state), false);
            }
            word_is_composed(memory.state);
            compose_is_faithful(address(memory.state), is_locked(memory.state), true);
        }
        let mut op: ReleaseOp = ReleaseOp::LoadQueue;
        op = self.unlock_step(op);
        assert(op is LockQueue);
        op = self.unlock_step(op);
        if let ReleaseOp::ReadNext { head: _, state: _ } = op {
            op = self.unlock_step(op);
        }
        assert(op is Publish);
        op = self.unlock_step(op);
        if let ReleaseOp::Done = op {
            return None;
        }
        assert(op is ReadThread);
        op = self.unlock_step(op);
        assert(op is Mark);
        op = self.unlock_step(op);
        match op {
            ReleaseOp::Wake { thread } => Some(thread),
            _ => None,
        }
    }

    /// Lets go of the mutex, which must be taken. If threads wait, the first of them is taken
    /// out of the queue and returned; it is to be woken.
    pub fn unlock(&mut self) -> (woken: Option<u64>)
        requires
            old(self).wf(),
            is_locked(old(self).shared().state),
            can_release(old(self).shared()),
        ensures
            final(self).wf(),
            final(self).room() == old(self).room(),
            final(self).shared() == released(old(self).shared()),
            woken == successor(old(self).shared()),
            old(self).shared().state <= 3 ==> {
                &&& woken is None
                &&& final(self).shared().state == old(self).shared().state - 1
                &&& final(self).shared().nodes == old(self).shared().nodes
            },
            old(self).shared().state > 3 ==> {
                let head = (old(self).shared().state - 1) as usize;
                let first = old(self).shared().nodes[head];
                &&& woken == Some(first.thread)
                &&& final(self).shared().state == first.next
                &&& final(self).shared().nodes == old(self).shared().nodes.insert(
                    head,
                    QueueNode { marked: true, ..first },
                )
            },
    {
        let ghost memory = self.shared();
        proof {
            if address(memory.state) != 0 {
                self.memory.nodes_are_usable(address(memory.state));
            }
            word_is_composed(memory.state);
            compose_is_faithful(address(memory.state), false, is_queue_locked(memory.state));
        }
        let mut op: ReleaseOp = ReleaseOp::Load;
        op = self.unlock_step(op);
        op = self.unlock_step(op);
        if let ReleaseOp::Done = op {
            return None;
        }
        assert(op is LoadQueue);
        self.wake_next()
    }
}

impl Default for QueueMutex {
    /// A free mutex.
    fn default() -> (mutex: Self)
        ensures
            mutex.wf(),
            mutex.room() >= MIN_ROOM,
            mutex.shared() == MemoryView::initial(),
    {
        QueueMutex::new()
    }
}

} // verus!
