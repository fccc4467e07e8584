//! The memory that the threads of a queue-based lock share: one state word and the nodes of
//! the waiting threads. Each access to it is one atomic step.

use crate::chain::Linked;
use crate::heap::{Heap, MIN_ROOM};
use crate::word::is_aligned;
use vstd::prelude::*;

verus! {

/// A node of the waiting queue: the thread that waits, the next node, zero at the end, and
/// whether the thread need not wait any more.
#[derive(Clone, Copy, PartialEq, Eq, Structural, Debug)]
pub struct QueueNode {
    pub thread: u64,
    pub next: usize,
    pub marked: bool,
}

impl QueueNode {
    /// The node of a thread that waits, followed by no other.
    pub fn new(thread: u64) -> (node: Self)
        ensures
            node.thread == thread,
            node.next == 0,
            !node.marked,
    {
        QueueNode { thread, next: 0, marked: false }
    }
}

impl Linked for QueueNode {
    open spec fn link(&self) -> usize {
        self.next
    }
}

/// The threads of the nodes along a path.
pub open spec fn threads_along(nodes: Map<usize, QueueNode>, path: Seq<usize>) -> Seq<u64> {
    Seq::new(path.len(), |i: int| nodes[path[i]].thread)
}

/// What a thread does next to the shared memory or to another thread.
#[derive(Clone, Copy, PartialEq, Eq, Structural, Debug)]
pub enum Access {
    /// Read the state word.
    LoadState,
    /// Write `new` to the state word if it holds `expected`.
    CompareExchange { expected: usize, new: usize },
    /// Write the state word.
    StoreState { word: usize },
    /// Allocate a node for a thread.
    NewNode { thread: u64 },
    /// Give a node back.
    FreeNode { node: usize },
    /// Read the address that a node holds.
    LoadNext { node: usize },
    /// Write the address that a node holds.
    StoreNext { node: usize, next: usize },
    /// Read which thread a node stands for.
    ReadThread { node: usize },
    /// Note in a node that its thread need not wait any more.
    Mark { node: usize },
    /// Read whether that is noted in a node.
    ReadMark { node: usize },
    /// Tell the processor that the thread is spinning.
    SpinLoop,
    /// Sleep until another thread unparks this one, or for no reason not that long.
    Park,
    /// Wake a thread.
    Unpark { thread: u64 },
    /// Nothing: the operation has ended.
    Finished,
}

/// What an access gives back.
#[derive(Clone, Copy, PartialEq, Eq, Structural, Debug)]
pub enum Reply {
    /// The state word that was read.
    Value { word: usize },
    /// The exchange was made.
    Swapped,
    /// The exchange was not made; the state word that was found.
    Observed { word: usize },
    /// The address of the node that was allocated.
    Node { node: usize },
    /// The address that a node holds.
    Next { next: usize },
    /// The thread that a node stands for.
    Thread { thread: u64 },
    /// Whether a node is marked.
    Marked { marked: bool },
    /// The access was made and has no result.
    Ack,
}

/// Who was unparked and has not slept since, after an access of thread `t`.
pub open spec fn tokens_after(tokens: Set<u64>, t: u64, access: Access) -> Set<u64> {
    match access {
        Access::Park => tokens.remove(t),
        Access::Unpark { thread } => tokens.insert(thread),
        _ => tokens,
    }
}

/// By how many nodes an access changes the number of those that can be allocated.
pub open spec fn room_change(access: Access) -> int {
    match access {
        Access::NewNode { .. } => -1,
        Access::FreeNode { .. } => 1,
        _ => 0,
    }
}

/// The contents of the shared memory.
pub struct MemoryView {
    pub state: usize,
    pub nodes: Map<usize, QueueNode>,
}

impl MemoryView {
    /// Memory in which the lock is free and nobody waits.
    pub open spec fn initial() -> Self {
        MemoryView { state: 0, nodes: Map::empty() }
    }

    /// The access touches no node but those in use, and links none to an address that would
    /// cover the flag bits of a state word.
    pub open spec fn admits(self, access: Access) -> bool {
        match access {
            Access::FreeNode { node } => self.nodes.contains_key(node),
            Access::LoadNext { node } => self.nodes.contains_key(node),
            Access::StoreNext { node, next } => self.nodes.contains_key(node) && is_aligned(next),
            Access::ReadThread { node } => self.nodes.contains_key(node),
            Access::Mark { node } => self.nodes.contains_key(node),
            Access::ReadMark { node } => self.nodes.contains_key(node),
            _ => true,
        }
    }

    /// An address that the allocator may hand out.
    pub open spec fn is_fresh(self, node: usize) -> bool {
        &&& node != 0
        &&& is_aligned(node)
        &&& !self.nodes.contains_key(node)
    }

    /// What an access gives back; `fresh` is the address that an allocation chooses.
    pub open spec fn reply(self, access: Access, fresh: usize) -> Reply {
        match access {
            Access::LoadState => Reply::Value { word: self.state },
            Access::CompareExchange { expected, .. } => if self.state == expected {
                Reply::Swapped
            } else {
                Reply::Observed { word: self.state }
            },
            Access::NewNode { .. } => Reply::Node { node: fresh },
            Access::LoadNext { node } => Reply::Next { next: self.nodes[node].next },
            Access::ReadThread { node } => Reply::Thread { thread: self.nodes[node].thread },
            Access::ReadMark { node } => Reply::Marked { marked: self.nodes[node].marked },
            _ => Reply::Ack,
        }
    }

    /// The memory after an access.
    pub open spec fn effect(self, access: Access, fresh: usize) -> Self {
        match access {
            Access::CompareExchange { expected, new } => if self.state == expected {
                MemoryView { state: new, ..self }
            } else {
                self
            },
            Access::StoreState { word } => MemoryView { state: word, ..self },
            Access::NewNode { thread } => MemoryView {
                nodes: self.nodes.insert(fresh, QueueNode { thread, next: 0, marked: false }),
                ..self
            },
            Access::FreeNode { node } => MemoryView { nodes: self.nodes.remove(node), ..self },
            Access::StoreNext { node, next } => MemoryView {
                nodes: self.nodes.insert(node, QueueNode { next, ..self.nodes[node] }),
                ..self
            },
            Access::Mark { node } => MemoryView {
                nodes: self.nodes.insert(node, QueueNode { marked: true, ..self.nodes[node] }),
                ..self
            },
            _ => self,
        }
    }
}

/// The shared memory of one lock.
pub struct LockMemory {
    state: usize,
    nodes: Heap<QueueNode>,
}

impl View for LockMemory {
    type V = MemoryView;

    closed spec fn view(&self) -> MemoryView {
        MemoryView { state: self.state, nodes: self.nodes@ }
    }
}

impl LockMemory {
    /// The nodes have usable addresses and hold usable addresses.
    pub closed spec fn wf(&self) -> bool {
        &&& self.nodes.wf()
        &&& forall|a: usize| #[trigger]
            self.nodes@.contains_key(a) ==> is_aligned(self.nodes@[a].next)
    }

    /// How many more nodes can be allocated before the addresses run out.
    pub closed spec fn room(&self) -> nat {
        self.nodes.room()
    }

    /// Memory in which the lock is free and nobody waits.
    pub fn new() -> (memory: Self)
        ensures
            memory.wf(),
            memory.room() >= MIN_ROOM,
            memory@ == MemoryView::initial(),
    {
        LockMemory { state: 0, nodes: Heap::new() }
    }

    /// The state word.
    pub fn state(&self) -> (word: usize)
        ensures
            word == self@.state,
    {
        self.state
    }

    /// Whether another node can be allocated.
    pub fn can_allocate(&self) -> (room: bool)
        ensures
            room == (self.room() > 0),
    {
        self.nodes.can_allocate()
    }

    /// Makes one access. Waking and sleeping are left to the caller: they do not change the
    /// memory.
    pub fn perform(&mut self, access: Access) -> (reply: Reply)
        requires
            old(self).wf(),
            old(self)@.admits(access),
            access is NewNode ==> old(self).room() > 0,
        ensures
            final(self).wf(),
            final(self).room() == old(self).room() + room_change(access),
            access !is NewNode ==> reply == old(self)@.reply(access, 0),
            access !is NewNode ==> final(self)@ == old(self)@.effect(access, 0),
            access is NewNode ==> reply is Node && old(self)@.is_fresh(reply->node)
                && final(self)@ == old(self)@.effect(access, reply->node),
    {
        match access {
            Access::LoadState => Reply::Value { word: self.state },
            Access::CompareExchange { expected, new } => {
                if self.state == expected {
                    self.state = new;
                    Reply::Swapped
                } else {
                    Reply::Observed { word: self.state }
                }
            },
            Access::StoreState { word } => {
                self.state = word;
                Reply::Ack
            },
            Access::NewNode { thread } => {
                let node: usize = self.nodes.allocate(QueueNode::new(thread));
                Reply::Node { node }
            },
            Access::FreeNode { node } => {
                self.nodes.release(node);
                Reply::Ack
            },
            Access::LoadNext { node } => Reply::Next { next: self.nodes.get(node).next },
            Access::StoreNext { node, next } => {
                let cell: QueueNode = *self.nodes.get(node);
                proof {
                    self.nodes.addresses_are_usable(node);
                }
                self.nodes.put(
                    node,
                    QueueNode { thread: cell.thread, next, marked: cell.marked },
                );
                Reply::Ack
            },
            Access::Mark { node } => {
                let cell: QueueNode = *self.nodes.get(node);
                proof {
                    self.nodes.addresses_are_usable(node);
                }
                self.nodes.put(
                    node,
                    QueueNode { thread: cell.thread, next: cell.next, marked: true },
                );
                Reply::Ack
            },
            Access::ReadMark { node } => Reply::Marked { marked: self.nodes.get(node).marked },
            Access::ReadThread { node } => Reply::Thread { thread: self.nodes.get(node).thread },
            Access::SpinLoop => Reply::Ack,
            Access::Park => Reply::Ack,
            Access::Unpark { thread: _ } => Reply::Ack,
            Access::Finished => Reply::Ack,
        }
    }

    /// No node in use has the null address, and no address in use covers the flag bits.
    pub proof fn nodes_are_usable(&self, node: usize)
        requires
            self.wf(),
            self@.nodes.contains_key(node),
        ensures
            node != 0,
            is_aligned(node),
            is_aligned(self@.nodes[node].next),
    {
        self.nodes.addresses_are_usable(node);
    }
}

/// The state word holds what was last written to it. An exchange is made exactly if the word is the
/// expected one, and reports the word otherwise.
pub proof fn state_word_holds_what_was_written(
    memory: MemoryView,
    expected: usize,
    new: usize,
    fresh: usize,
)
    ensures
        memory.reply(Access::LoadState, fresh) == (Reply::Value { word: memory.state }),
        memory.state == expected ==> {
            let exchange = Access::CompareExchange { expected, new };
            &&& memory.reply(exchange, fresh) == Reply::Swapped
            &&& memory.effect(exchange, fresh).state == new
            &&& memory.effect(exchange, fresh).nodes == memory.nodes
        },
        memory.state != expected ==> {
            let exchange = Access::CompareExchange { expected, new };
            &&& memory.reply(exchange, fresh) == (Reply::Observed { word: memory.state })
            &&& memory.effect(exchange, fresh) == memory
        },
        memory.effect(Access::StoreState { word: new }, fresh).state == new,
        memory.effect(Access::StoreState { word: new }, fresh).nodes == memory.nodes,
{
}

/// A node holds what was last written to it, and a new one its thread, no link and no mark. Writing
/// to a node, getting one and giving one back changes no other node and not the state word, and the
/// other accesses change nothing.
pub proof fn nodes_hold_what_was_written(
    memory: MemoryView,
    node: usize,
    next: usize,
    thread: u64,
    fresh: usize,
)
    ensures
        memory.reply(Access::NewNode { thread }, fresh) == (Reply::Node { node: fresh }),
        memory.reply(Access::LoadNext { node }, fresh) == (Reply::Next {
            next: memory.nodes[node].next,
        }),
        memory.reply(Access::ReadThread { node }, fresh) == (Reply::Thread {
            thread: memory.nodes[node].thread,
        }),
        memory.reply(Access::ReadMark { node }, fresh) == (Reply::Marked {
            marked: memory.nodes[node].marked,
        }),
        memory.effect(Access::StoreNext { node, next }, fresh) == (MemoryView {
            state: memory.state,
            nodes: memory.nodes.insert(
                node,
                QueueNode {
                    thread: memory.nodes[node].thread,
                    next,
                    marked: memory.nodes[node].marked,
                },
            ),
        }),
        memory.effect(Access::Mark { node }, fresh) == (MemoryView {
            state: memory.state,
            nodes: memory.nodes.insert(
                node,
                QueueNode {
                    thread: memory.nodes[node].thread,
                    next: memory.nodes[node].next,
                    marked: true,
                },
            ),
        }),
        memory.effect(Access::NewNode { thread }, fresh) == (MemoryView {
            state: memory.state,
            nodes: memory.nodes.insert(fresh, QueueNode { thread, next: 0, marked: false }),
        }),
        memory.effect(Access::FreeNode { node }, fresh) == (MemoryView {
            state: memory.state,
            nodes: memory.nodes.remove(node),
        }),
        memory.effect(Access::LoadState, fresh) == memory,
        memory.effect(Access::LoadNext { node }, fresh) == memory,
        memory.effect(Access::ReadThread { node }, fresh) == memory,
        memory.effect(Access::ReadMark { node }, fresh) == memory,
        memory.effect(Access::SpinLoop, fresh) == memory,
        memory.effect(Access::Park, fresh) == memory,
        memory.effect(Access::Unpark { thread }, fresh) == memory,
        memory.effect(Access::Finished, fresh) == memory,
{
}

} // verus!
