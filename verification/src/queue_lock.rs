//! A lock around a value. Threads that find it held wait in a queue and are served in the
//! order in which they came: the thread that lets go hands the lock to the first of them.
//!
//! What a thread does is written as two operations, [`LockOp`] and [`UnlockOp`], that stop
//! before each access to shared memory. [`LockOp::access`] says which access comes next and
//! [`LockOp::resume`] what follows from its outcome, so the same operations run one at a time
//! on a [`QueueBasedLock`] and concurrently on atomics.

use crate::chain::{after, chain_is_unique, is_chain, Linked};
use crate::heap::MIN_ROOM;
use crate::lock_memory::{room_change, Access, LockMemory, MemoryView, QueueNode, Reply};
use crate::word::{
    address, address_of, compose, compose_is_faithful, flag_bits, flags_of, has_locked,
    has_queue_locked, is_aligned, is_locked, is_queue_locked, join, set_locked,
    set_queue_locked, word_is_composed, LOCKED,
};
use vstd::prelude::*;

verus! {

/// How far a thread has come in taking the lock.
#[derive(Clone, Copy, PartialEq, Eq, Structural, Debug)]
pub enum LockOp {
    /// About to read the state word for the first time.
    Begin,
    /// Found the lock free; about to take it.
    TryFast { state: usize },
    /// About to allocate a node.
    Allocate,
    /// About to read the state word.
    Load { node: usize },
    /// Found the lock free; about to take it.
    Acquire { node: usize, state: usize },
    /// Has the lock; about to give the unused node back.
    Discard { node: usize },
    /// Found the queue locked; about to spin.
    Spin { node: usize },
    /// Found the lock held; about to lock the queue.
    LockQueue { node: usize, state: usize },
    /// Locked an empty queue; about to clear the link of the node.
    ClearNext { node: usize },
    /// Locked a queue; about to read the link of `tail`.
    FindTail { node: usize, head: usize, tail: usize },
    /// Found the last node; about to link it to the own node.
    Append { node: usize, head: usize, tail: usize },
    /// In the queue; about to unlock it.
    Publish { node: usize, head: usize },
    /// In the queue; about to sleep.
    Park { node: usize },
    /// Awake; about to see whether the lock was handed over.
    Look { node: usize },
    /// Has the lock; about to give the node back.
    Leave { node: usize },
    /// Has the lock.
    Held,
}

/// How far a thread has come in letting go of the lock.
#[derive(Clone, Copy, PartialEq, Eq, Structural, Debug)]
pub enum UnlockOp {
    /// About to read the state word.
    Load,
    /// Found nobody waiting; about to free the lock.
    Release { state: usize },
    /// Found the queue locked; about to spin.
    Spin,
    /// Found a waiting thread; about to lock the queue.
    LockQueue { state: usize },
    /// Locked the queue; about to read the link of the first node.
    ReadNext { head: usize },
    /// About to read the thread of the first node.
    ReadThread { head: usize, next: usize },
    /// About to take the first node out and unlock the queue.
    Publish { head: usize, next: usize, thread: u64 },
    /// About to hand the lock over to the thread of that node.
    Mark { head: usize, thread: u64 },
    /// About to wake the thread that has the lock now.
    Wake { thread: u64 },
    /// Has let go of the lock.
    Done,
}

impl LockOp {
    /// The addresses that the operation holds leave the flag bits free.
    pub open spec fn wf(self) -> bool {
        match self {
            LockOp::Load { node } => is_aligned(node),
            LockOp::Acquire { node, .. } => is_aligned(node),
            LockOp::Discard { node } => is_aligned(node),
            LockOp::Spin { node } => is_aligned(node),
            LockOp::LockQueue { node, .. } => is_aligned(node),
            LockOp::ClearNext { node } => is_aligned(node),
            LockOp::FindTail { node, head, .. } => is_aligned(node) && is_aligned(head),
            LockOp::Append { node, head, .. } => is_aligned(node) && is_aligned(head),
            LockOp::Publish { head, .. } => is_aligned(head),
            _ => true,
        }
    }

    /// The access that comes next.
    pub open spec fn next_access(self, thread: u64) -> Access {
        match self {
            LockOp::Begin => Access::LoadState,
            LockOp::TryFast { state } => Access::CompareExchange {
                expected: state,
                new: compose(address(state), true, false),
            },
            LockOp::Allocate => Access::NewNode { thread },
            LockOp::Load { .. } => Access::LoadState,
            LockOp::Acquire { state, .. } => Access::CompareExchange {
                expected: state,
                new: compose(address(state), true, is_queue_locked(state)),
            },
            LockOp::Discard { node } => Access::FreeNode { node },
            LockOp::Spin { .. } => Access::SpinLoop,
            LockOp::LockQueue { state, .. } => Access::CompareExchange {
                expected: state,
                new: compose(address(state), is_locked(state), true),
            },
            LockOp::ClearNext { node } => Access::StoreNext { node, next: 0 },
            LockOp::FindTail { tail, .. } => Access::LoadNext { node: tail },
            LockOp::Append { node, tail, .. } => Access::StoreNext { node: tail, next: node },
            LockOp::Publish { head, .. } => Access::StoreState { word: compose(head, true, false) },
            LockOp::Park { .. } => Access::Park,
            LockOp::Look { node } => Access::ReadMark { node },
            LockOp::Leave { node } => Access::FreeNode { node },
            LockOp::Held => Access::Finished,
        }
    }

    /// Where the operation stands after a reply. A reply that does not belong to the access
    /// leaves it where it is.
    pub open spec fn after(self, reply: Reply) -> Self {
        match (self, reply) {
            (LockOp::Begin, Reply::Value { word }) => if is_locked(word) {
                LockOp::Allocate
            } else {
                LockOp::TryFast { state: word }
            },
            (LockOp::TryFast { .. }, Reply::Swapped) => LockOp::Held,
            (LockOp::TryFast { .. }, Reply::Observed { .. }) => LockOp::Allocate,
            (LockOp::Allocate, Reply::Node { node }) => LockOp::Load { node },
            (LockOp::Load { node }, Reply::Value { word }) => if !is_locked(word) {
                LockOp::Acquire { node, state: word }
            } else if is_queue_locked(word) {
                LockOp::Spin { node }
            } else {
                LockOp::LockQueue { node, state: word }
            },
            (LockOp::Acquire { node, .. }, Reply::Swapped) => LockOp::Discard { node },
            (LockOp::Acquire { node, .. }, Reply::Observed { .. }) => LockOp::Load { node },
            (LockOp::Discard { .. }, Reply::Ack) => LockOp::Held,
            (LockOp::Spin { node }, Reply::Ack) => LockOp::Load { node },
            (LockOp::LockQueue { node, state }, Reply::Swapped) => if address(state) == 0 {
                LockOp::ClearNext { node }
            } else {
                LockOp::FindTail { node, head: address(state), tail: address(state) }
            },
            (LockOp::LockQueue { node, .. }, Reply::Observed { .. }) => LockOp::Load { node },
            (LockOp::ClearNext { node }, Reply::Ack) => LockOp::Publish { node, head: node },
            (LockOp::FindTail { node, head, tail }, Reply::Next { next }) => if next == 0 {
                LockOp::Append { node, head, tail }
            } else {
                LockOp::FindTail { node, head, tail: next }
            },
            (LockOp::Append { node, head, .. }, Reply::Ack) => LockOp::Publish { node, head },
            (LockOp::Publish { node, .. }, Reply::Ack) => LockOp::Park { node },
            (LockOp::Park { node }, Reply::Ack) => LockOp::Look { node },
            (LockOp::Look { node }, Reply::Marked { marked }) => if marked {
                LockOp::Leave { node }
            } else {
                LockOp::Park { node }
            },
            (LockOp::Leave { .. }, Reply::Ack) => LockOp::Held,
            _ => self,
        }
    }

    /// The access that comes next for `thread`.
    pub fn access(&self, thread: u64) -> (access: Access)
        requires
            self.wf(),
        ensures
            access == self.next_access(thread),
    {
        match *self {
            LockOp::Begin => Access::LoadState,
            LockOp::TryFast { state } => {
                let ptr: usize = QueueBasedLock::<()>::get_ptr(state);
                let new: usize = QueueBasedLock::<()>::make_state(ptr, LOCKED);
                Access::CompareExchange { expected: state, new }
            },
            LockOp::Allocate => Access::NewNode { thread },
            LockOp::Load { node: _ } => Access::LoadState,
            LockOp::Acquire { node: _, state } => Access::CompareExchange {
                expected: state,
                new: set_locked(state),
            },
            LockOp::Discard { node } => Access::FreeNode { node },
            LockOp::Spin { node: _ } => Access::SpinLoop,
            LockOp::LockQueue { node: _, state } => Access::CompareExchange {
                expected: state,
                new: set_queue_locked(state),
            },
            LockOp::ClearNext { node } => Access::StoreNext { node, next: 0 },
            LockOp::FindTail { node: _, head: _, tail } => Access::LoadNext { node: tail },
            LockOp::Append { node, head: _, tail } => Access::StoreNext { node: tail, next: node },
            LockOp::Publish { node: _, head } => Access::StoreState {
                word: QueueBasedLock::<()>::make_state(head, LOCKED),
            },
            LockOp::Park { node: _ } => Access::Park,
            LockOp::Look { node } => Access::ReadMark { node },
            LockOp::Leave { node } => Access::FreeNode { node },
            LockOp::Held => Access::Finished,
        }
    }

    /// Goes on after a reply.
    pub fn resume(self, reply: Reply) -> (op: Self)
        requires
            self.wf(),
            reply is Node ==> is_aligned(reply->node),
        ensures
            op == self.after(reply),
            op.wf(),
    {
        match (self, reply) {
            (LockOp::Begin, Reply::Value { word }) => {
                if !has_locked(word) {
                    LockOp::TryFast { state: word }
                } else {
                    LockOp::Allocate
                }
            },
            (LockOp::TryFast { state: _ }, Reply::Swapped) => LockOp::Held,
            (LockOp::TryFast { state: _ }, Reply::Observed { word: _ }) => LockOp::Allocate,
            (LockOp::Allocate, Reply::Node { node }) => LockOp::Load { node },
            (LockOp::Load { node }, Reply::Value { word }) => {
                if !has_locked(word) {
                    LockOp::Acquire { node, state: word }
                } else if has_queue_locked(word) {
                    LockOp::Spin { node }
                } else {
                    LockOp::LockQueue { node, state: word }
                }
            },
            (LockOp::Acquire { node, state: _ }, Reply::Swapped) => LockOp::Discard { node },
            (LockOp::Acquire { node, state: _ }, Reply::Observed { word: _ }) => {
                LockOp::Load { node }
            },
            (LockOp::Discard { node: _ }, Reply::Ack) => LockOp::Held,
            (LockOp::Spin { node }, Reply::Ack) => LockOp::Load { node },
            (LockOp::LockQueue { node, state }, Reply::Swapped) => {
                let ptr: usize = QueueBasedLock::<()>::get_ptr(state);
                if ptr == 0 {
                    LockOp::ClearNext { node }
                } else {
                    LockOp::FindTail { node, head: ptr, tail: ptr }
                }
            },
            (LockOp::LockQueue { node, state: _ }, Reply::Observed { word: _ }) => {
                LockOp::Load { node }
            },
            (LockOp::ClearNext { node }, Reply::Ack) => LockOp::Publish { node, head: node },
            (LockOp::FindTail { node, head, tail }, Reply::Next { next }) => {
                if next == 0 {
                    LockOp::Append { node, head, tail }
                } else {
                    LockOp::FindTail { node, head, tail: next }
                }
            },
            (LockOp::Append { node, head, tail: _ }, Reply::Ack) => LockOp::Publish { node, head },
            (LockOp::Publish { node, head: _ }, Reply::Ack) => LockOp::Park { node },
            (LockOp::Park { node }, Reply::Ack) => LockOp::Look { node },
            (LockOp::Look { node }, Reply::Marked { marked }) => {
                if marked {
                    LockOp::Leave { node }
                } else {
                    LockOp::Park { node }
                }
            },
            (LockOp::Leave { node: _ }, Reply::Ack) => LockOp::Held,
            _ => self,
        }
    }
}

impl UnlockOp {
    /// The addresses that the operation holds leave the flag bits free.
    pub open spec fn wf(self) -> bool {
        match self {
            UnlockOp::ReadThread { next, .. } => is_aligned(next),
            UnlockOp::Publish { next, .. } => is_aligned(next),
            _ => true,
        }
    }

    /// The access that comes next.
    pub open spec fn next_access(self) -> Access {
        match self {
            UnlockOp::Load => Access::LoadState,
            UnlockOp::Release { state } => Access::CompareExchange { expected: state, new: 0 },
            UnlockOp::Spin => Access::SpinLoop,
            UnlockOp::LockQueue { state } => Access::CompareExchange {
                expected: state,
                new: compose(address(state), is_locked(state), true),
            },
            UnlockOp::ReadNext { head } => Access::LoadNext { node: head },
            UnlockOp::ReadThread { head, .. } => Access::ReadThread { node: head },
            UnlockOp::Publish { next, .. } => Access::StoreState {
                word: compose(next, true, false),
            },
            UnlockOp::Mark { head, .. } => Access::Mark { node: head },
            UnlockOp::Wake { thread } => Access::Unpark { thread },
            UnlockOp::Done => Access::Finished,
        }
    }

    /// Where the operation stands after a reply. A reply that does not belong to the access
    /// leaves it where it is.
    pub open spec fn after(self, reply: Reply) -> Self {
        match (self, reply) {
            (UnlockOp::Load, Reply::Value { word }) => if is_queue_locked(word) {
                UnlockOp::Spin
            } else if address(word) == 0 {
                UnlockOp::Release { state: word }
            } else {
                UnlockOp::LockQueue { state: word }
            },
            (UnlockOp::Release { .. }, Reply::Swapped) => UnlockOp::Done,
            (UnlockOp::Release { .. }, Reply::Observed { .. }) => UnlockOp::Load,
            (UnlockOp::Spin, Reply::Ack) => UnlockOp::Load,
            (UnlockOp::LockQueue { state }, Reply::Swapped) => UnlockOp::ReadNext {
                head: address(state),
            },
            (UnlockOp::LockQueue { .. }, Reply::Observed { .. }) => UnlockOp::Load,
            (UnlockOp::ReadNext { head }, Reply::Next { next }) => UnlockOp::ReadThread {
                head,
                next,
            },
            (UnlockOp::ReadThread { head, next }, Reply::Thread { thread }) => UnlockOp::Publish {
                head,
                next,
                thread,
            },
            (UnlockOp::Publish { head, thread, .. }, Reply::Ack) => UnlockOp::Mark { head, thread },
            (UnlockOp::Mark { thread, .. }, Reply::Ack) => UnlockOp::Wake { thread },
            (UnlockOp::Wake { .. }, Reply::Ack) => UnlockOp::Done,
            _ => self,
        }
    }

    /// The access that comes next.
    pub fn access(&self) -> (access: Access)
        requires
            self.wf(),
        ensures
            access == self.next_access(),
    {
        match *self {
            UnlockOp::Load => Access::LoadState,
            UnlockOp::Release { state } => Access::CompareExchange {
                expected: state,
                new: QueueBasedLock::<()>::make_state(0, 0),
            },
            UnlockOp::Spin => Access::SpinLoop,
            UnlockOp::LockQueue { state } => Access::CompareExchange {
                expected: state,
                new: set_queue_locked(state),
            },
            UnlockOp::ReadNext { head } => Access::LoadNext { node: head },
            UnlockOp::ReadThread { head, next: _ } => Access::ReadThread { node: head },
            UnlockOp::Publish { head: _, next, thread: _ } => Access::StoreState {
                word: QueueBasedLock::<()>::make_state(next, LOCKED),
            },
            UnlockOp::Mark { head, thread: _ } => Access::Mark { node: head },
            UnlockOp::Wake { thread } => Access::Unpark { thread },
            UnlockOp::Done => Access::Finished,
        }
    }

    /// Goes on after a reply.
    pub fn resume(self, reply: Reply) -> (op: Self)
        requires
            self.wf(),
            reply is Next ==> is_aligned(reply->next),
        ensures
            op == self.after(reply),
            op.wf(),
    {
        match (self, reply) {
            (UnlockOp::Load, Reply::Value { word }) => {
                if has_queue_locked(word) {
                    UnlockOp::Spin
                } else if QueueBasedLock::<()>::get_ptr(word) == 0 {
                    UnlockOp::Release { state: word }
                } else {
                    UnlockOp::LockQueue { state: word }
                }
            },
            (UnlockOp::Release { state: _ }, Reply::Swapped) => UnlockOp::Done,
            (UnlockOp::Release { state: _ }, Reply::Observed { word: _ }) => UnlockOp::Load,
            (UnlockOp::Spin, Reply::Ack) => UnlockOp::Load,
            (UnlockOp::LockQueue { state }, Reply::Swapped) => UnlockOp::ReadNext {
                head: QueueBasedLock::<()>::get_ptr(state),
            },
            (UnlockOp::LockQueue { state: _ }, Reply::Observed { word: _ }) => UnlockOp::Load,
            (UnlockOp::ReadNext { head }, Reply::Next { next }) => {
                UnlockOp::ReadThread { head, next }
            },
            (UnlockOp::ReadThread { head, next }, Reply::Thread { thread }) => {
                UnlockOp::Publish { head, next, thread }
            },
            (UnlockOp::Publish { head, next: _, thread }, Reply::Ack) => {
                UnlockOp::Mark { head, thread }
            },
            (UnlockOp::Mark { head: _, thread }, Reply::Ack) => UnlockOp::Wake { thread },
            (UnlockOp::Wake { thread: _ }, Reply::Ack) => UnlockOp::Done,
            _ => self,
        }
    }
}

/// The memory after a thread has taken a free lock.
pub open spec fn taken(memory: MemoryView) -> MemoryView {
    MemoryView { state: compose(address(memory.state), true, false), ..memory }
}

/// The memory after the thread that has the lock has let go of it: the lock is free if nobody
/// waited, and otherwise the first node is out of the queue and marked, and the lock stays taken.
pub open spec fn released(memory: MemoryView) -> MemoryView {
    let head = address(memory.state);
    if head == 0 {
        MemoryView { state: 0, ..memory }
    } else {
        MemoryView {
            state: compose(memory.nodes[head].next, true, false),
            nodes: memory.nodes.insert(head, QueueNode { marked: true, ..memory.nodes[head] }),
        }
    }
}

/// The thread that the lock is handed to: that of the first node, if there is one.
pub open spec fn successor(memory: MemoryView) -> Option<u64> {
    let head = address(memory.state);
    if head == 0 {
        None
    } else {
        Some(memory.nodes[head].thread)
    }
}

/// The memory after `thread` has put its node behind those of `path`.
pub open spec fn enqueued(
    memory: MemoryView,
    path: Seq<usize>,
    thread: u64,
    node: usize,
) -> MemoryView {
    let nodes = memory.nodes.insert(node, QueueNode { thread, next: 0, marked: false });
    if path.len() == 0 {
        MemoryView { state: compose(node, true, false), nodes }
    } else {
        MemoryView {
            state: compose(path[0], true, false),
            nodes: nodes.insert(
                path.last(),
                QueueNode { next: node, ..memory.nodes[path.last()] },
            ),
        }
    }
}

/// Whether a thread that lets go of the lock need not wait: no other thread has the queue for
/// itself, and the first node, if there is one, is in use.
pub open spec fn can_release(memory: MemoryView) -> bool {
    &&& !is_queue_locked(memory.state)
    &&& address(memory.state) != 0 ==> memory.nodes.contains_key(address(memory.state))
}

/// A value behind a queue-based lock.
pub struct QueueBasedLock<T> {
    memory: LockMemory,
    data: T,
}

impl<T> QueueBasedLock<T> {
    /// The shared memory of the lock.
    pub closed spec fn shared(&self) -> MemoryView {
        self.memory@
    }

    /// The value behind the lock.
    pub closed spec fn value(&self) -> T {
        self.data
    }

    /// The nodes of the queue have usable addresses.
    pub closed spec fn wf(&self) -> bool {
        self.memory.wf()
    }

    /// How many more nodes threads can get before the addresses run out.
    pub closed spec fn room(&self) -> nat {
        self.memory.room()
    }

    /// A free lock around `data`.
    pub fn new(data: T) -> (lock: Self)
        ensures
            lock.wf(),
            lock.room() >= MIN_ROOM,
            lock.shared() == MemoryView::initial(),
            lock.value() == data,
    {
        QueueBasedLock { memory: LockMemory::new(), data }
    }

    /// The address in a state word.
    pub fn get_ptr(state: usize) -> (ptr: usize)
        ensures
            ptr == address(state),
            ptr == state - state % 4,
    {
        address_of(state)
    }

    /// The flags in a state word.
    pub fn get_flags(state: usize) -> (flags: usize)
        ensures
            flags == flag_bits(is_locked(state), is_queue_locked(state)),
            flags == state % 4,
    {
        flags_of(state)
    }

    /// The state word with the bits of `ptr` and of `flags`.
    pub fn make_state(ptr: usize, flags: usize) -> (state: usize)
        ensures
            state == ptr | flags,
            is_aligned(ptr) && flags < 4 ==> state == ptr + flags,
    {
        join(ptr, flags)
    }

    /// The links of the nodes leave the flag bits free, and so do their addresses.
    pub proof fn nodes_are_usable(&self, node: usize)
        requires
            self.wf(),
            self.shared().nodes.contains_key(node),
        ensures
            node != 0,
            is_aligned(node),
            is_aligned(self.shared().nodes[node].next),
    {
        self.memory.nodes_are_usable(node);
    }

    /// Whether another thread can get a node.
    pub fn can_allocate(&self) -> (room: bool)
        ensures
            room == (self.room() > 0),
    {
        self.memory.can_allocate()
    }

    /// Lets `thread` make one access on its way to the lock. How long a thread sleeps is for the
    /// caller to say.
    pub fn lock_step(&mut self, thread: u64, op: LockOp) -> (next: LockOp)
        requires
            old(self).wf(),
            op.wf(),
            old(self).shared().admits(op.next_access(thread)),
            op is Allocate ==> old(self).room() > 0,
        ensures
            final(self).wf(),
            next.wf(),
            final(self).value() == old(self).value(),
            final(self).room() == old(self).room() + room_change(op.next_access(thread)),
            op !is Allocate ==> {
                let access = op.next_access(thread);
                &&& next == op.after(old(self).shared().reply(access, 0))
                &&& final(self).shared() == old(self).shared().effect(access, 0)
            },
            op is Allocate ==> {
                let access = op.next_access(thread);
                &&& next is Load
                &&& old(self).shared().is_fresh(next->Load_node)
                &&& final(self).shared() == old(self).shared().effect(access, next->Load_node)
            },
    {
        let access: Access = op.access(thread);
        let reply: Reply = self.memory.perform(access);
        op.resume(reply)
    }

    /// Lets the thread that holds the lock make one access on its way out. The thread named by
    /// a [`UnlockOp::Wake`] is to be woken by the caller.
    pub fn unlock_step(&mut self, op: UnlockOp) -> (next: UnlockOp)
        requires
            old(self).wf(),
            op.wf(),
            old(self).shared().admits(op.next_access()),
        ensures
            final(self).wf(),
            next.wf(),
            final(self).value() == old(self).value(),
            final(self).room() == old(self).room(),
            next == op.after(old(self).shared().reply(op.next_access(), 0)),
            final(self).shared() == old(self).shared().effect(op.next_access(), 0),
    {
        let access: Access = op.access();
        proof {
            if let Access::LoadNext { node } = access {
                self.memory.nodes_are_usable(node);
            }
        }
        let reply: Reply = self.memory.perform(access);
        op.resume(reply)
    }

    /// Takes the lock, which must be free, and gives access to the value. The lock stays in the
    /// guard until the guard lets go of it.
    pub fn lock(self) -> (guard: QueueBasedLockGuard<T>)
        requires
            self.wf(),
            !is_locked(self.shared().state),
        ensures
            guard.lock().wf(),
            guard.lock().value() == self.value(),
            guard.lock().room() == self.room(),
            guard.lock().shared() == taken(self.shared()),
            guard.lock().shared().state == self.shared().state - self.shared().state % 4 + 1,
            guard.lock().shared().nodes == self.shared().nodes,
    {
        let mut lock: QueueBasedLock<T> = self;
        let mut op: LockOp = LockOp::Begin;
        op = lock.lock_step(0, op);
        assert(op == LockOp::TryFast { state: self.shared().state });
        op = lock.lock_step(0, op);
        assert(op is Held);
        proof {
            word_is_composed(self.shared().state);
            compose_is_faithful(address(self.shared().state), true, false);
        }
        lock.into_guard(op)
    }

    /// Gives access to the value to a thread whose operation has come to the lock.
    pub fn into_guard(self, op: LockOp) -> (guard: QueueBasedLockGuard<T>)
        requires
            op is Held,
            is_locked(self.shared().state),
        ensures
            guard.lock() == self,
    {
        QueueBasedLockGuard { lock: self }
    }

    /// Puts `thread` at the end of the queue of those that wait for the lock, which must be held,
    /// up to the point where it sleeps, and returns its node. The nodes in the queue form a list
    /// that ends, and no other thread has the queue for itself.
    pub fn enqueue(&mut self, thread: u64) -> (node: usize)
        requires
            old(self).wf(),
            old(self).room() > 0,
            is_locked(old(self).shared().state),
            !is_queue_locked(old(self).shared().state),
            exists|path: Seq<usize>|
                is_chain(old(self).shared().nodes, address(old(self).shared().state), path),
        ensures
            final(self).wf(),
            final(self).value() == old(self).value(),
            final(self).room() == old(self).room() - 1,
            old(self).shared().is_fresh(node),
            forall|path: Seq<usize>|
                is_chain(old(self).shared().nodes, address(old(self).shared().state), path)
                    ==> final(self).shared() == #[trigger] enqueued(
                    old(self).shared(),
                    path,
                    thread,
                    node,
                ),
    {
        let ghost memory = self.shared();
        let ghost head = address(memory.state);
        let ghost path = choose|path: Seq<usize>| is_chain(memory.nodes, head, path);
        proof {
            word_is_composed(memory.state);
            compose_is_faithful(head, true, true);
            assert forall|other: Seq<usize>| is_chain(memory.nodes, head, other) implies other
                == path by {
                chain_is_unique(memory.nodes, head, other, path);
            }
        }
        let mut op: LockOp = self.lock_step(thread, LockOp::Begin);
        op = self.lock_step(thread, op);
        let ghost node = op->Load_node;
        let ghost nodes = memory.nodes.insert(node, QueueNode { thread, next: 0, marked: false });
        assert(self.shared().nodes == nodes);
        op = self.lock_step(thread, op);
        assert(op is LockQueue);
        op = self.lock_step(thread, op);
        let ghost mut k: int = 0;
        proof {
            if path.len() > 0 {
                assert(path[0] != 0);
            }
        }
        while matches!(op, LockOp::FindTail { node: _, head: _, tail: _ })
            invariant
                memory == old(self).shared(),
                head == address(memory.state),
                is_aligned(head),
                is_chain(memory.nodes, head, path),
                nodes == memory.nodes.insert(node, QueueNode { thread, next: 0, marked: false }),
                memory.is_fresh(node),
                self.wf(),
                self.value() == old(self).value(),
                self.room() == old(self).room() - 1,
                self.shared() == (MemoryView { state: compose(head, true, true), nodes }),
                op.wf(),
                path.len() == 0 ==> op == (LockOp::ClearNext { node }),
                path.len() > 0 ==> 0 <= k < path.len() && (op == (LockOp::FindTail {
                    node,
                    head,
                    tail: path[k],
                }) || (op == (LockOp::Append { node, head, tail: path.last() }))),
            ensures
                path.len() > 0 ==> op == (LockOp::Append { node, head, tail: path.last() }),
            decreases path.len() - k, (if op is FindTail {
                1int
            } else {
                0
            }),
        {
            proof {
                assert(memory.nodes.contains_key(path[k]));
                assert(path[k] != node);
                assert(memory.nodes[path[k]].link() == after(path, k));
            }
            op = self.lock_step(thread, op);
            proof {
                if k + 1 < path.len() {
                    assert(path[k + 1] != 0);
                    k = k + 1;
                }
            }
        }
        proof {
            if path.len() > 0 {
                assert(memory.nodes.contains_key(path.last()));
                assert(path.last() != node);
            }
        }
        op = self.lock_step(thread, op);
        assert(op is Publish);
        op = self.lock_step(thread, op);
        assert(op == LockOp::Park { node });
        assert(self.shared().nodes =~= enqueued(memory, path, thread, node).nodes);
        match op {
            LockOp::Park { node } => node,
            _ => 0,
        }
    }

    /// Lets go of the lock: frees it if nobody waits, and otherwise takes the first node out of
    /// the queue and hands the lock to its thread, which is returned and is to be woken.
    pub fn unlock(&mut self) -> (woken: Option<u64>)
        requires
            old(self).wf(),
            can_release(old(self).shared()),
        ensures
            final(self).wf(),
            final(self).value() == old(self).value(),
            final(self).room() == old(self).room(),
            final(self).shared() == released(old(self).shared()),
            woken == successor(old(self).shared()),
            old(self).shared().state <= 3 ==> {
                &&& woken is None
                &&& final(self).shared().state == 0
                &&& final(self).shared().nodes == old(self).shared().nodes
            },
            old(self).shared().state > 3 ==> {
                let head = (old(self).shared().state - old(self).shared().state % 4) as usize;
                let first = old(self).shared().nodes[head];
                &&& woken == Some(first.thread)
                &&& final(self).shared().state == first.next + 1
                &&& final(self).shared().nodes == old(self).shared().nodes.insert(
                    head,
                    QueueNode { marked: true, ..first },
                )
            },
    {
        proof {
            let head = address(self.shared().state);
            if head != 0 {
                self.memory.nodes_are_usable(head);
                compose_is_faithful(self.shared().nodes[head].next, true, false);
            }
        }
        let mut op: UnlockOp = UnlockOp::Load;
        op = self.unlock_step(op);
        op = self.unlock_step(op);
        if let UnlockOp::Done = op {
            return None;
        }
        op = self.unlock_step(op);
        op = self.unlock_step(op);
        op = self.unlock_step(op);
        assert(op is Mark);
        op = self.unlock_step(op);
        if let UnlockOp::Wake { thread } = op {
            Some(thread)
        } else {
            None
        }
    }
}

/// The lock in the hands of one thread.
pub struct QueueBasedLockGuard<T> {
    lock: QueueBasedLock<T>,
}

impl<T> QueueBasedLockGuard<T> {
    /// The lock as it stands.
    pub closed spec fn lock(&self) -> QueueBasedLock<T> {
        self.lock
    }

    /// Gives up access to the value, and the lock with it as it stands: its thread still has to
    /// let go of it.
    pub fn into_lock(self) -> (lock: QueueBasedLock<T>)
        ensures
            lock == self.lock(),
    {
        self.lock
    }

    /// Lets go of the lock and returns it, with the thread to be woken; see
    /// [`QueueBasedLock::unlock`].
    pub fn unlock(self) -> (released_lock: (QueueBasedLock<T>, Option<u64>))
        requires
            self.lock().wf(),
            can_release(self.lock().shared()),
        ensures
            released_lock.0.wf(),
            released_lock.0.value() == self.lock().value(),
            released_lock.0.room() == self.lock().room(),
            released_lock.0.shared() == released(self.lock().shared()),
            released_lock.1 == successor(self.lock().shared()),
    {
        let mut lock: QueueBasedLock<T> = self.lock;
        let woken: Option<u64> = lock.unlock();
        (lock, woken)
    }
}

impl<T> std::ops::Deref for QueueBasedLockGuard<T> {
    type Target = T;

    /// The value behind the lock.
    fn deref(&self) -> (value: &T)
        ensures
            *value == self.lock().value(),
    {
        &self.lock.data
    }
}

impl<T> std::ops::DerefMut for QueueBasedLockGuard<T> {
    /// The value behind the lock, to be changed.
    fn deref_mut(&mut self) -> (value: &mut T)
        ensures
            *value == old(self).lock().value(),
            final(self).lock().value() == *final(value),
            final(self).lock().shared() == old(self).lock().shared(),
            final(self).lock().wf() == old(self).lock().wf(),
            final(self).lock().room() == old(self).lock().room(),
    {
        &mut self.lock.data
    }
}

} // verus!
