//! A list that threads change without a lock. New items go to the front; an item is taken out
//! by pointing the link before it to the one after it; its node is given back when no thread is
//! looking for an item any more.
//!
//! What a thread does is written as operations, [`InsertOp`], [`DeleteOp`], [`ContainsOp`] and
//! [`WalkOp`], that stop before each access to shared memory: `access` says which access comes
//! next and `resume` what follows from its outcome. The same operations run one at a time on a
//! [`LinkedList`] and concurrently on atomics.

use crate::chain::{
    after, chain_frame, chain_is_unique, chain_push_front, chain_tail, chain_unlink, is_chain,
    remove_keeps_distinct, Linked,
};
use crate::heap::{Heap, MIN_ROOM};
use crate::word::is_aligned;
use vstd::prelude::*;
use vstd::std_specs::cmp::PartialEqSpec;

verus! {

/// A node of the list: an item and the address of the next node, zero at the end.
pub struct Node<T> {
    pub data: T,
    pub next: usize,
    pub ref_count: usize,
}

impl<T: Clone> Node<T> {
    /// A node that is followed by no other.
    pub fn new(data: T) -> (node: Self)
        ensures
            node.data == data,
            node.next == 0,
            node.ref_count == 0,
    {
        Node { data, next: 0, ref_count: 0 }
    }
}

impl<T> Linked for Node<T> {
    open spec fn link(&self) -> usize {
        self.next
    }
}

/// A place that holds the address of a node.
#[derive(Clone, Copy, PartialEq, Eq, Structural, Debug)]
pub enum Link {
    /// The head of the list.
    Head,
    /// The link of a node.
    Next { node: usize },
}

/// What a thread does next to the shared memory.
#[derive(Clone, Copy, PartialEq, Eq, Structural, Debug)]
pub enum ListAccess {
    /// Read the address in a link.
    LoadLink { link: Link },
    /// Write the link of a node.
    StoreNext { node: usize, next: usize },
    /// Write `new` to a link if it holds `expected`.
    CompareExchange { link: Link, expected: usize, new: usize },
    /// Compare the item of a node with the one looked for.
    Examine { node: usize },
    /// Read the item of a node.
    Visit { node: usize },
    /// Count one more thread that looks for an item.
    Enter,
    /// Count one thread less.
    Leave,
    /// Read how many threads are looking for an item.
    LoadReaders,
    /// Tell the processor that the thread is spinning.
    SpinLoop,
    /// Give a node back.
    Free { node: usize },
    /// Nothing: the operation has ended.
    Finished,
}

/// What an access gives back.
#[derive(Clone, Copy, PartialEq, Eq, Structural, Debug)]
pub enum ListReply {
    /// The address that was read.
    Address { node: usize },
    /// The exchange was made.
    Swapped,
    /// The exchange was not made.
    Failed,
    /// Whether the items are equal.
    Equal { equal: bool },
    /// How many threads are looking for an item.
    Readers { count: usize },
    /// The access was made and has no result.
    Ack,
}

/// How far a thread has come in putting a node into the list.
#[derive(Clone, Copy, PartialEq, Eq, Structural, Debug)]
pub enum InsertOp {
    /// About to read the head.
    Load { node: usize },
    /// About to link the node to the first one.
    Store { node: usize, head: usize },
    /// About to make the node the first one.
    Exchange { node: usize, head: usize },
    /// The node is in the list.
    Done,
}

/// How far a thread has come in taking an item out of the list.
#[derive(Clone, Copy, PartialEq, Eq, Structural, Debug)]
pub enum DeleteOp {
    /// About to read the head.
    LoadHead,
    /// About to compare the item of the node that `link` led to.
    Examine { link: Link, node: usize },
    /// Found the item; about to read which node follows it.
    LoadNext { link: Link, node: usize },
    /// About to point the link before the node to the one after it.
    Exchange { link: Link, node: usize, next: usize },
    /// Took the node out; about to see whether a thread may still look at it.
    AwaitReaders { node: usize },
    /// A thread may; about to spin.
    Spin { node: usize },
    /// No thread can; about to give the node back.
    Free { node: usize },
    /// About to go on to the next node.
    Advance { node: usize },
    /// Has taken the item out or given up.
    Done { deleted: bool },
}

/// How far a thread has come in looking for an item.
#[derive(Clone, Copy, PartialEq, Eq, Structural, Debug)]
pub enum ContainsOp {
    /// About to announce itself.
    Enter,
    /// About to read the head.
    LoadHead,
    /// About to compare the item of a node.
    Examine { node: usize },
    /// About to go on to the next node.
    Advance { node: usize },
    /// Knows the answer; about to sign off.
    Leave { found: bool },
    /// Has found the item or seen the end of the list.
    Done { found: bool },
}

impl InsertOp {
    /// The access that comes next.
    pub open spec fn next_access(self) -> ListAccess {
        match self {
            InsertOp::Load { .. } => ListAccess::LoadLink { link: Link::Head },
            InsertOp::Store { node, head } => ListAccess::StoreNext { node, next: head },
            InsertOp::Exchange { node, head } => ListAccess::CompareExchange {
                link: Link::Head,
                expected: head,
                new: node,
            },
            InsertOp::Done => ListAccess::Finished,
        }
    }

    /// Where the operation stands after a reply. A reply that does not belong to the access
    /// leaves it where it is.
    pub open spec fn after(self, reply: ListReply) -> Self {
        match (self, reply) {
            (InsertOp::Load { node }, ListReply::Address { node: head }) => InsertOp::Store {
                node,
                head,
            },
            (InsertOp::Store { node, head }, ListReply::Ack) => InsertOp::Exchange { node, head },
            (InsertOp::Exchange { .. }, ListReply::Swapped) => InsertOp::Done,
            (InsertOp::Exchange { node, .. }, ListReply::Failed) => InsertOp::Load { node },
            _ => self,
        }
    }

    /// The access that comes next.
    pub fn access(&self) -> (access: ListAccess)
        ensures
            access == self.next_access(),
    {
        match *self {
            InsertOp::Load { node: _ } => ListAccess::LoadLink { link: Link::Head },
            InsertOp::Store { node, head } => ListAccess::StoreNext { node, next: head },
            InsertOp::Exchange { node, head } => ListAccess::CompareExchange {
                link: Link::Head,
                expected: head,
                new: node,
            },
            InsertOp::Done => ListAccess::Finished,
        }
    }

    /// Goes on after a reply.
    pub fn resume(self, reply: ListReply) -> (op: Self)
        ensures
            op == self.after(reply),
    {
        match (self, reply) {
            (InsertOp::Load { node }, ListReply::Address { node: head }) => {
                InsertOp::Store { node, head }
            },
            (InsertOp::Store { node, head }, ListReply::Ack) => InsertOp::Exchange { node, head },
            (InsertOp::Exchange { node: _, head: _ }, ListReply::Swapped) => InsertOp::Done,
            (InsertOp::Exchange { node, head: _ }, ListReply::Failed) => InsertOp::Load { node },
            _ => self,
        }
    }
}

impl DeleteOp {
    /// The access that comes next.
    pub open spec fn next_access(self) -> ListAccess {
        match self {
            DeleteOp::LoadHead => ListAccess::LoadLink { link: Link::Head },
            DeleteOp::Examine { node, .. } => ListAccess::Examine { node },
            DeleteOp::LoadNext { node, .. } => ListAccess::LoadLink { link: Link::Next { node } },
            DeleteOp::Exchange { link, node, next } => ListAccess::CompareExchange {
                link,
                expected: node,
                new: next,
            },
            DeleteOp::AwaitReaders { .. } => ListAccess::LoadReaders,
            DeleteOp::Spin { .. } => ListAccess::SpinLoop,
            DeleteOp::Free { node } => ListAccess::Free { node },
            DeleteOp::Advance { node } => ListAccess::LoadLink { link: Link::Next { node } },
            DeleteOp::Done { .. } => ListAccess::Finished,
        }
    }

    /// Where the operation stands when `link` leads to `node`.
    pub open spec fn arriving(link: Link, node: usize) -> Self {
        if node == 0 {
            DeleteOp::Done { deleted: false }
        } else {
            DeleteOp::Examine { link, node }
        }
    }

    /// Where the operation stands after a reply. A reply that does not belong to the access
    /// leaves it where it is.
    pub open spec fn after(self, reply: ListReply) -> Self {
        match (self, reply) {
            (DeleteOp::LoadHead, ListReply::Address { node }) => DeleteOp::arriving(
                Link::Head,
                node,
            ),
            (DeleteOp::Examine { link, node }, ListReply::Equal { equal }) => if equal {
                DeleteOp::LoadNext { link, node }
            } else {
                DeleteOp::Advance { node }
            },
            (DeleteOp::LoadNext { link, node }, ListReply::Address { node: next }) => {
                DeleteOp::Exchange { link, node, next }
            },
            (DeleteOp::Exchange { node, .. }, ListReply::Swapped) => DeleteOp::AwaitReaders {
                node,
            },
            (DeleteOp::Exchange { .. }, ListReply::Failed) => DeleteOp::Done { deleted: false },
            (DeleteOp::AwaitReaders { node }, ListReply::Readers { count }) => if count > 0 {
                DeleteOp::Spin { node }
            } else {
                DeleteOp::Free { node }
            },
            (DeleteOp::Spin { node }, ListReply::Ack) => DeleteOp::AwaitReaders { node },
            (DeleteOp::Free { .. }, ListReply::Ack) => DeleteOp::Done { deleted: true },
            (DeleteOp::Advance { node: previous }, ListReply::Address { node }) => {
                DeleteOp::arriving(Link::Next { node: previous }, node)
            },
            _ => self,
        }
    }

    /// The access that comes next.
    pub fn access(&self) -> (access: ListAccess)
        ensures
            access == self.next_access(),
    {
        match *self {
            DeleteOp::LoadHead => ListAccess::LoadLink { link: Link::Head },
            DeleteOp::Examine { link: _, node } => ListAccess::Examine { node },
            DeleteOp::LoadNext { link: _, node } => ListAccess::LoadLink {
                link: Link::Next { node },
            },
            DeleteOp::Exchange { link, node, next } => ListAccess::CompareExchange {
                link,
                expected: node,
                new: next,
            },
            DeleteOp::AwaitReaders { node: _ } => ListAccess::LoadReaders,
            DeleteOp::Spin { node: _ } => ListAccess::SpinLoop,
            DeleteOp::Free { node } => ListAccess::Free { node },
            DeleteOp::Advance { node } => ListAccess::LoadLink { link: Link::Next { node } },
            DeleteOp::Done { deleted: _ } => ListAccess::Finished,
        }
    }

    /// Goes on after a reply.
    pub fn resume(self, reply: ListReply) -> (op: Self)
        ensures
            op == self.after(reply),
    {
        match (self, reply) {
            (DeleteOp::LoadHead, ListReply::Address { node }) => {
                if node == 0 {
                    DeleteOp::Done { deleted: false }
                } else {
                    DeleteOp::Examine { link: Link::Head, node }
                }
            },
            (DeleteOp::Examine { link, node }, ListReply::Equal { equal }) => {
                if equal {
                    DeleteOp::LoadNext { link, node }
                } else {
                    DeleteOp::Advance { node }
                }
            },
            (DeleteOp::LoadNext { link, node }, ListReply::Address { node: next }) => {
                DeleteOp::Exchange { link, node, next }
            },
            (DeleteOp::Exchange { link: _, node, next: _ }, ListReply::Swapped) => {
                DeleteOp::AwaitReaders { node }
            },
            (DeleteOp::Exchange { link: _, node: _, next: _ }, ListReply::Failed) => {
                DeleteOp::Done { deleted: false }
            },
            (DeleteOp::AwaitReaders { node }, ListReply::Readers { count }) => {
                if count > 0 {
                    DeleteOp::Spin { node }
                } else {
                    DeleteOp::Free { node }
                }
            },
            (DeleteOp::Spin { node }, ListReply::Ack) => DeleteOp::AwaitReaders { node },
            (DeleteOp::Free { node: _ }, ListReply::Ack) => DeleteOp::Done { deleted: true },
            (DeleteOp::Advance { node: previous }, ListReply::Address { node }) => {
                if node == 0 {
                    DeleteOp::Done { deleted: false }
                } else {
                    DeleteOp::Examine { link: Link::Next { node: previous }, node }
                }
            },
            _ => self,
        }
    }
}

impl ContainsOp {
    /// The access that comes next.
    pub open spec fn next_access(self) -> ListAccess {
        match self {
            ContainsOp::Enter => ListAccess::Enter,
            ContainsOp::LoadHead => ListAccess::LoadLink { link: Link::Head },
            ContainsOp::Examine { node } => ListAccess::Examine { node },
            ContainsOp::Advance { node } => ListAccess::LoadLink { link: Link::Next { node } },
            ContainsOp::Leave { .. } => ListAccess::Leave,
            ContainsOp::Done { .. } => ListAccess::Finished,
        }
    }

    /// Where the operation stands when a link leads to `node`.
    pub open spec fn arriving(node: usize) -> Self {
        if node == 0 {
            ContainsOp::Leave { found: false }
        } else {
            ContainsOp::Examine { node }
        }
    }

    /// Where the operation stands after a reply. A reply that does not belong to the access
    /// leaves it where it is.
    pub open spec fn after(self, reply: ListReply) -> Self {
        match (self, reply) {
            (ContainsOp::Enter, ListReply::Ack) => ContainsOp::LoadHead,
            (ContainsOp::LoadHead, ListReply::Address { node }) => ContainsOp::arriving(node),
            (ContainsOp::Examine { node }, ListReply::Equal { equal }) => if equal {
                ContainsOp::Leave { found: true }
            } else {
                ContainsOp::Advance { node }
            },
            (ContainsOp::Advance { .. }, ListReply::Address { node }) => ContainsOp::arriving(node),
            (ContainsOp::Leave { found }, ListReply::Ack) => ContainsOp::Done { found },
            _ => self,
        }
    }

    /// The access that comes next.
    pub fn access(&self) -> (access: ListAccess)
        ensures
            access == self.next_access(),
    {
        match *self {
            ContainsOp::Enter => ListAccess::Enter,
            ContainsOp::LoadHead => ListAccess::LoadLink { link: Link::Head },
            ContainsOp::Examine { node } => ListAccess::Examine { node },
            ContainsOp::Advance { node } => ListAccess::LoadLink { link: Link::Next { node } },
            ContainsOp::Leave { found: _ } => ListAccess::Leave,
            ContainsOp::Done { found: _ } => ListAccess::Finished,
        }
    }

    /// Goes on after a reply.
    pub fn resume(self, reply: ListReply) -> (op: Self)
        ensures
            op == self.after(reply),
    {
        match (self, reply) {
            (ContainsOp::Enter, ListReply::Ack) => ContainsOp::LoadHead,
            (ContainsOp::LoadHead, ListReply::Address { node })
            | (ContainsOp::Advance { node: _ }, ListReply::Address { node }) => {
                if node == 0 {
                    ContainsOp::Leave { found: false }
                } else {
                    ContainsOp::Examine { node }
                }
            },
            (ContainsOp::Examine { node }, ListReply::Equal { equal }) => {
                if equal {
                    ContainsOp::Leave { found: true }
                } else {
                    ContainsOp::Advance { node }
                }
            },
            (ContainsOp::Leave { found }, ListReply::Ack) => ContainsOp::Done { found },
            _ => self,
        }
    }
}

/// How far a thread has come in going through the items of the list. It is not counted, and may
/// stop at any node.
#[derive(Clone, Copy, PartialEq, Eq, Structural, Debug)]
pub enum WalkOp {
    /// About to read the head.
    LoadHead,
    /// About to read the item of a node.
    Visit { node: usize },
    /// About to go on to the next node.
    Advance { node: usize },
    /// Has seen the end of the list.
    Done,
}

impl WalkOp {
    /// The access that comes next.
    pub open spec fn next_access(self) -> ListAccess {
        match self {
            WalkOp::LoadHead => ListAccess::LoadLink { link: Link::Head },
            WalkOp::Visit { node } => ListAccess::Visit { node },
            WalkOp::Advance { node } => ListAccess::LoadLink { link: Link::Next { node } },
            WalkOp::Done => ListAccess::Finished,
        }
    }

    /// Where the operation stands when a link leads to `node`.
    pub open spec fn arriving(node: usize) -> Self {
        if node == 0 {
            WalkOp::Done
        } else {
            WalkOp::Visit { node }
        }
    }

    /// Where the operation stands after a reply. A reply that does not belong to the access
    /// leaves it where it is.
    pub open spec fn after(self, reply: ListReply) -> Self {
        match (self, reply) {
            (WalkOp::LoadHead, ListReply::Address { node }) => WalkOp::arriving(node),
            (WalkOp::Visit { node }, ListReply::Ack) => WalkOp::Advance { node },
            (WalkOp::Advance { .. }, ListReply::Address { node }) => WalkOp::arriving(node),
            _ => self,
        }
    }

    /// The access that comes next.
    pub fn access(&self) -> (access: ListAccess)
        ensures
            access == self.next_access(),
    {
        match *self {
            WalkOp::LoadHead => ListAccess::LoadLink { link: Link::Head },
            WalkOp::Visit { node } => ListAccess::Visit { node },
            WalkOp::Advance { node } => ListAccess::LoadLink { link: Link::Next { node } },
            WalkOp::Done => ListAccess::Finished,
        }
    }

    /// Goes on after a reply.
    pub fn resume(self, reply: ListReply) -> (op: Self)
        ensures
            op == self.after(reply),
    {
        match (self, reply) {
            (WalkOp::LoadHead, ListReply::Address { node })
            | (WalkOp::Advance { node: _ }, ListReply::Address { node }) => {
                if node == 0 {
                    WalkOp::Done
                } else {
                    WalkOp::Visit { node }
                }
            },
            (WalkOp::Visit { node }, ListReply::Ack) => WalkOp::Advance { node },
            _ => self,
        }
    }
}

/// The contents of the shared memory.
pub struct ListView<T> {
    pub head: usize,
    pub readers: usize,
    pub nodes: Map<usize, Node<T>>,
}

impl<T> ListView<T> {
    /// The access touches no node but those in use.
    pub open spec fn admits(self, access: ListAccess) -> bool {
        match access {
            ListAccess::LoadLink { link: Link::Next { node } } => self.nodes.contains_key(node),
            ListAccess::StoreNext { node, .. } => self.nodes.contains_key(node),
            ListAccess::CompareExchange { link: Link::Next { node }, .. } => {
                self.nodes.contains_key(node)
            },
            ListAccess::Examine { node } => self.nodes.contains_key(node),
            ListAccess::Visit { node } => self.nodes.contains_key(node),
            ListAccess::Free { node } => self.nodes.contains_key(node),
            _ => true,
        }
    }

    /// The address in a link.
    pub open spec fn at(self, link: Link) -> usize {
        match link {
            Link::Head => self.head,
            Link::Next { node } => self.nodes[node].next,
        }
    }

    /// The memory with another address in a link.
    pub open spec fn with_link(self, link: Link, new: usize) -> Self {
        match link {
            Link::Head => ListView { head: new, ..self },
            Link::Next { node } => ListView {
                nodes: self.nodes.insert(node, Node { next: new, ..self.nodes[node] }),
                ..self
            },
        }
    }

    /// What an access gives back; `equal` is the outcome of a comparison.
    pub open spec fn reply(self, access: ListAccess, equal: bool) -> ListReply {
        match access {
            ListAccess::LoadLink { link } => ListReply::Address { node: self.at(link) },
            ListAccess::CompareExchange { link, expected, .. } => if self.at(link) == expected {
                ListReply::Swapped
            } else {
                ListReply::Failed
            },
            ListAccess::Examine { .. } => ListReply::Equal { equal },
            ListAccess::LoadReaders => ListReply::Readers { count: self.readers },
            _ => ListReply::Ack,
        }
    }

    /// The memory after an access. The count of readers wraps around.
    pub open spec fn effect(self, access: ListAccess) -> Self {
        match access {
            ListAccess::StoreNext { node, next } => self.with_link(Link::Next { node }, next),
            ListAccess::CompareExchange { link, expected, new } => if self.at(link) == expected {
                self.with_link(link, new)
            } else {
                self
            },
            ListAccess::Enter => ListView {
                readers: if self.readers == usize::MAX {
                    0
                } else {
                    (self.readers + 1) as usize
                },
                ..self
            },
            ListAccess::Leave => ListView {
                readers: if self.readers == 0 {
                    usize::MAX
                } else {
                    (self.readers - 1) as usize
                },
                ..self
            },
            ListAccess::Free { node } => ListView { nodes: self.nodes.remove(node), ..self },
            _ => self,
        }
    }
}

/// Whether a comparison of `item` with `data` can come out as `equal`: what `==` of the item
/// type says.
pub open spec fn compares<T: PartialEq>(item: T, data: T, equal: bool) -> bool {
    call_ensures(<T as PartialEq>::eq, (&item, &data), equal)
}

/// Whether comparisons of the first `n` items with `data` can all come out as unequal.
pub open spec fn none_compares<T: PartialEq>(items: Seq<T>, data: T, n: int) -> bool {
    forall|j: int| 0 <= j < n ==> compares(#[trigger] items[j], data, false)
}

/// Whether comparisons with `data`, one item after the other, can come to the item at position
/// `i` as the first equal one.
pub open spec fn first_compares<T: PartialEq>(items: Seq<T>, data: T, i: int) -> bool {
    &&& 0 <= i < items.len()
    &&& compares(items[i], data, true)
    &&& none_compares(items, data, i)
}

/// The first position at which `items` holds an item equal to `data`.
pub open spec fn is_first_match<T: PartialEq>(items: Seq<T>, data: T, i: int) -> bool {
    &&& 0 <= i < items.len()
    &&& items[i].eq_spec(&data)
    &&& forall|j: int| 0 <= j < i ==> !(#[trigger] items[j]).eq_spec(&data)
}

/// Whether `items` holds an item equal to `data`.
pub open spec fn has_match<T: PartialEq>(items: Seq<T>, data: T) -> bool {
    exists|i: int| 0 <= i < items.len() && (#[trigger] items[i]).eq_spec(&data)
}

/// Where `==` of the item type goes by its specification, the first item that compares as equal
/// is the first equal one.
pub proof fn first_compared_is_first_match<T: PartialEq>(items: Seq<T>, data: T, i: int)
    requires
        T::obeys_eq_spec(),
        first_compares(items, data, i),
    ensures
        is_first_match(items, data, i),
        has_match(items, data),
{
    assert forall|j: int| 0 <= j < i implies !(#[trigger] items[j]).eq_spec(&data) by {
        assert(compares(items[j], data, false));
    }
}

/// Where `==` of the item type goes by its specification and no item compares as equal, none is.
pub proof fn none_compared_is_no_match<T: PartialEq>(items: Seq<T>, data: T)
    requires
        T::obeys_eq_spec(),
        none_compares(items, data, items.len() as int),
    ensures
        !has_match(items, data),
{
    assert forall|j: int| 0 <= j < items.len() implies !(#[trigger] items[j]).eq_spec(&data) by {
        assert(compares(items[j], data, false));
    }
}

/// A list of items, the newest first.
pub struct LinkedList<T> {
    head: usize,
    ref_count: usize,
    nodes: Heap<Node<T>>,
}

impl<T> View for LinkedList<T> {
    type V = Seq<T>;

    closed spec fn view(&self) -> Seq<T> {
        items_along(self.nodes@, self.chain())
    }
}

/// The items of the nodes along a path.
pub open spec fn items_along<T>(nodes: Map<usize, Node<T>>, path: Seq<usize>) -> Seq<T> {
    Seq::new(path.len(), |i: int| nodes[path[i]].data)
}

impl<T> LinkedList<T> {
    /// The shared memory of the list.
    pub closed spec fn shared(&self) -> ListView<T> {
        ListView { head: self.head, readers: self.ref_count, nodes: self.nodes@ }
    }

    /// The addresses of the nodes in the list, in order.
    pub closed spec fn chain(&self) -> Seq<usize> {
        choose|path: Seq<usize>| is_chain(self.nodes@, self.head, path)
    }

    /// The nodes have usable addresses.
    pub closed spec fn memory_wf(&self) -> bool {
        self.nodes.wf()
    }

    /// The nodes form a list that ends, and there are no others.
    pub closed spec fn wf(&self) -> bool {
        &&& self.memory_wf()
        &&& is_chain(self.nodes@, self.head, self.chain())
        &&& forall|a: usize| #[trigger] self.nodes@.contains_key(a) ==> self.chain().contains(a)
    }

    /// How many more items can be put in before the addresses run out.
    pub closed spec fn room(&self) -> nat {
        self.nodes.room()
    }

    /// How many threads are looking for an item.
    pub open spec fn readers(&self) -> usize {
        self.shared().readers
    }

    /// Whether another item can be put in.
    pub fn can_allocate(&self) -> (room: bool)
        ensures
            room == (self.room() > 0),
    {
        self.nodes.can_allocate()
    }

    /// The address of the first node, zero if there is none.
    pub fn head(&self) -> (head: usize)
        ensures
            head == self.shared().head,
    {
        self.head
    }

    /// The node at an address in use.
    pub fn node(&self, node: usize) -> (cell: &Node<T>)
        requires
            self.shared().nodes.contains_key(node),
        ensures
            *cell == self.shared().nodes[node],
    {
        self.nodes.get(node)
    }

    /// What a well-formed list looks like in memory.
    pub proof fn list_in_memory(&self)
        requires
            self.wf(),
        ensures
            is_chain(self.shared().nodes, self.shared().head, self.chain()),
            self@ == items_along(self.shared().nodes, self.chain()),
    {
    }

    /// A path that the head leads along is the chain of the list.
    proof fn chain_is(&self, path: Seq<usize>)
        requires
            is_chain(self.nodes@, self.head, path),
        ensures
            self.chain() == path,
            is_chain(self.nodes@, self.head, self.chain()),
    {
        chain_is_unique(self.nodes@, self.head, path, self.chain());
    }

    /// Makes one access that compares no items.
    fn perform(&mut self, access: ListAccess) -> (reply: ListReply)
        requires
            old(self).memory_wf(),
            old(self).shared().admits(access),
            access !is Examine,
        ensures
            final(self).memory_wf(),
            final(self).room() == old(self).room() + (if access is Free {
                1int
            } else {
                0
            }),
            reply == old(self).shared().reply(access, false),
            final(self).shared() == old(self).shared().effect(access),
    {
        match access {
            ListAccess::LoadLink { link } => ListReply::Address { node: self.load(link) },
            ListAccess::StoreNext { node, next } => {
                self.store_next(node, next);
                ListReply::Ack
            },
            ListAccess::CompareExchange { link, expected, new } => {
                if self.load(link) == expected {
                    match link {
                        Link::Head => {
                            self.head = new;
                        },
                        Link::Next { node } => {
                            self.store_next(node, new);
                        },
                    }
                    ListReply::Swapped
                } else {
                    ListReply::Failed
                }
            },
            ListAccess::Examine { node: _ } | ListAccess::Visit { node: _ } => ListReply::Ack,
            ListAccess::Enter => {
                self.ref_count = self.ref_count.wrapping_add(1);
                ListReply::Ack
            },
            ListAccess::Leave => {
                self.ref_count = self.ref_count.wrapping_sub(1);
                ListReply::Ack
            },
            ListAccess::LoadReaders => ListReply::Readers { count: self.ref_count },
            ListAccess::SpinLoop => ListReply::Ack,
            ListAccess::Free { node } => {
                self.nodes.release(node);
                ListReply::Ack
            },
            ListAccess::Finished => ListReply::Ack,
        }
    }

    /// The address in a link.
    fn load(&self, link: Link) -> (node: usize)
        requires
            self.shared().admits(ListAccess::LoadLink { link }),
        ensures
            node == self.shared().at(link),
    {
        match link {
            Link::Head => self.head,
            Link::Next { node } => self.nodes.get(node).next,
        }
    }

    /// Puts another address into the link of a node.
    fn store_next(&mut self, node: usize, next: usize)
        requires
            old(self).memory_wf(),
            old(self).shared().nodes.contains_key(node),
        ensures
            final(self).memory_wf(),
            final(self).room() == old(self).room(),
            final(self).shared() == old(self).shared().with_link(Link::Next { node }, next),
    {
        let cell: Node<T> = self.nodes.take(node);
        self.nodes.put(node, Node { data: cell.data, next, ref_count: cell.ref_count });
        assert(self.nodes@ == old(self).nodes@.insert(node, Node { next, ..cell }));
    }

    /// Lets a thread make one access on its way to put a node in.
    pub fn insert_step(&mut self, op: InsertOp) -> (next: InsertOp)
        requires
            old(self).memory_wf(),
            old(self).shared().admits(op.next_access()),
        ensures
            final(self).memory_wf(),
            final(self).room() == old(self).room(),
            next == op.after(old(self).shared().reply(op.next_access(), false)),
            final(self).shared() == old(self).shared().effect(op.next_access()),
    {
        let access: ListAccess = op.access();
        let reply: ListReply = self.perform(access);
        op.resume(reply)
    }

    /// Lets a thread make one access on its way to take `data` out.
    pub fn delete_step(&mut self, op: DeleteOp, data: &T) -> (next: DeleteOp) where T: PartialEq
        requires
            old(self).memory_wf(),
            old(self).shared().admits(op.next_access()),
        ensures
            final(self).memory_wf(),
            final(self).room() == old(self).room() + (if op is Free {
                1int
            } else {
                0
            }),
            final(self).shared() == old(self).shared().effect(op.next_access()),
            exists|equal: bool|
                {
                    &&& next == op.after(
                        #[trigger] old(self).shared().reply(op.next_access(), equal),
                    )
                    &&& op is Examine ==> compares(
                        old(self).shared().nodes[op->Examine_node].data,
                        *data,
                        equal,
                    )
                },
    {
        let access: ListAccess = op.access();
        if let ListAccess::Examine { node } = access {
            let equal: bool = self.nodes.get(node).data == *data;
            assert(self.shared().reply(access, equal) == ListReply::Equal { equal });
            op.resume(ListReply::Equal { equal })
        } else {
            assert(self.shared().reply(access, false) == self.shared().reply(access, true));
            let reply: ListReply = self.perform(access);
            op.resume(reply)
        }
    }

    /// Lets a thread make one access on its way to find `data`.
    pub fn contains_step(
        &mut self,
        op: ContainsOp,
        data: &T,
    ) -> (next: ContainsOp) where T: PartialEq
        requires
            old(self).memory_wf(),
            old(self).shared().admits(op.next_access()),
        ensures
            final(self).memory_wf(),
            final(self).room() == old(self).room(),
            final(self).shared() == old(self).shared().effect(op.next_access()),
            exists|equal: bool|
                {
                    &&& next == op.after(
                        #[trigger] old(self).shared().reply(op.next_access(), equal),
                    )
                    &&& op is Examine ==> compares(
                        old(self).shared().nodes[op->Examine_node].data,
                        *data,
                        equal,
                    )
                },
    {
        let access: ListAccess = op.access();
        if let ListAccess::Examine { node } = access {
            let equal: bool = self.nodes.get(node).data == *data;
            assert(self.shared().reply(access, equal) == ListReply::Equal { equal });
            op.resume(ListReply::Equal { equal })
        } else {
            assert(self.shared().reply(access, false) == self.shared().reply(access, true));
            let reply: ListReply = self.perform(access);
            op.resume(reply)
        }
    }

    /// Lets a thread make one access on its way through the items. The item that was read, if
    /// one was, is returned with the operation.
    pub fn walk_step(&self, op: WalkOp) -> (next: (WalkOp, Option<&T>))
        requires
            self.shared().admits(op.next_access()),
        ensures
            next.0 == op.after(self.shared().reply(op.next_access(), false)),
            next.1 == (match op {
                WalkOp::Visit { node } => Some(&self.shared().nodes[node].data),
                _ => None,
            }),
    {
        match op.access() {
            ListAccess::LoadLink { link } => {
                (op.resume(ListReply::Address { node: self.load(link) }), None)
            },
            ListAccess::Visit { node } => {
                (op.resume(ListReply::Ack), Some(&self.nodes.get(node).data))
            },
            _ => (op.resume(ListReply::Ack), None),
        }
    }

    /// Puts a node for an item into memory, not into the list yet.
    pub fn allocate(&mut self, data: T) -> (node: usize) where T: Clone
        requires
            old(self).memory_wf(),
            old(self).room() > 0,
        ensures
            final(self).memory_wf(),
            final(self).room() == old(self).room() - 1,
            node != 0,
            is_aligned(node),
            !old(self).shared().nodes.contains_key(node),
            final(self).shared() == (ListView {
                nodes: old(self).shared().nodes.insert(
                    node,
                    Node { data, next: 0, ref_count: 0 },
                ),
                ..old(self).shared()
            }),
    {
        self.nodes.allocate(Node::new(data))
    }
}

impl<T: Clone> LinkedList<T> {
    /// A list without items.
    pub fn new() -> (list: Self)
        ensures
            list.wf(),
            list.room() >= MIN_ROOM,
            list.readers() == 0,
            list@ == Seq::<T>::empty(),
    {
        let list: LinkedList<T> = LinkedList { head: 0, ref_count: 0, nodes: Heap::new() };
        proof {
            list.chain_is(Seq::empty());
        }
        list
    }

    /// Puts an item in front of all others.
    pub fn insert(&mut self, data: T)
        requires
            old(self).wf(),
            old(self).room() > 0,
        ensures
            final(self).wf(),
            final(self).room() == old(self).room() - 1,
            final(self).readers() == old(self).readers(),
            final(self)@ == seq![data] + old(self)@,
    {
        let ghost path = self.chain();
        let ghost nodes = self.nodes@;
        let node: usize = self.allocate(data);
        let mut op: InsertOp = InsertOp::Load { node };
        op = self.insert_step(op);
        op = self.insert_step(op);
        op = self.insert_step(op);
        assert(op is Done);
        proof {
            assert(forall|i: int|
                0 <= i < path.len() ==> nodes.contains_key(#[trigger] path[i]));
            assert(!path.contains(node));
            chain_frame(nodes, self.nodes@, old(self).head, path);
            chain_push_front(self.nodes@, old(self).head, path, node);
            self.chain_is(seq![node] + path);
            assert forall|a: usize| #[trigger] self.nodes@.contains_key(a) implies self.chain().contains(
                a,
            ) by {
                if a == node {
                    assert(self.chain()[0] == a);
                } else {
                    assert(path.contains(a));
                    let i = choose|i: int| 0 <= i < path.len() && path[i] == a;
                    assert(self.chain()[i + 1] == a);
                }
            }
            assert(self@ =~= seq![data] + old(self)@) by {
                assert forall|i: int| 0 <= i < self@.len() implies self@[i] == (seq![data] + old(
                    self,
                )@)[i] by {
                    if i > 0 {
                        assert(self.chain()[i] == path[i - 1]);
                    }
                }
            }
        }
    }

    /// Gives back a node that was taken out of the list, once nobody is looking for an item.
    pub fn defer_destroy_node(&mut self, node: usize)
        requires
            old(self).memory_wf(),
            old(self).readers() == 0,
            old(self).shared().nodes.contains_key(node),
        ensures
            final(self).memory_wf(),
            final(self).room() == old(self).room() + 1,
            final(self).shared() == old(self).shared().effect(ListAccess::Free { node }),
    {
        let mut op: DeleteOp = DeleteOp::AwaitReaders { node };
        let readers: ListReply = self.perform(op.access());
        op = op.resume(readers);
        let freed: ListReply = self.perform(op.access());
        op = op.resume(freed);
        assert(op == DeleteOp::Done { deleted: true });
    }

    /// Takes the first item equal to `data` out of the list and says whether there was one.
    /// Which items are equal is for `==` of the item type to say. Where there is one, nobody is
    /// looking for an item.
    pub fn delete(&mut self, data: &T) -> (deleted: bool) where T: PartialEq
        requires
            old(self).wf(),
            old(self).readers() == 0 || forall|j: int|
                0 <= j < old(self)@.len() ==> !compares(#[trigger] old(self)@[j], *data, true),
        ensures
            final(self).wf(),
            final(self).readers() == old(self).readers(),
            final(self).room() == old(self).room() + (if deleted {
                1int
            } else {
                0
            }),
            !deleted ==> final(self)@ == old(self)@ && none_compares(
                old(self)@,
                *data,
                old(self)@.len() as int,
            ),
            deleted ==> exists|i: int|
                first_compares(old(self)@, *data, i) && final(self)@ == #[trigger] old(
                    self,
                )@.remove(i),
            T::obeys_eq_spec() ==> deleted == has_match(old(self)@, *data),
            T::obeys_eq_spec() && deleted ==> exists|i: int|
                is_first_match(old(self)@, *data, i) && final(self)@ == #[trigger] old(
                    self,
                )@.remove(i),
            !deleted ==> forall|j: int|
                0 <= j < old(self)@.len() ==> call_ensures(
                    <T as PartialEq>::eq,
                    (&#[trigger] old(self)@[j], data),
                    false,
                ),
            deleted ==> exists|i: int|
                {
                    &&& 0 <= i < old(self)@.len()
                    &&& final(self)@ == #[trigger] old(self)@.remove(i)
                    &&& call_ensures(<T as PartialEq>::eq, (&old(self)@[i], data), true)
                    &&& forall|j: int|
                        0 <= j < i ==> call_ensures(
                            <T as PartialEq>::eq,
                            (&#[trigger] old(self)@[j], data),
                            false,
                        )
                },
    {
        let ghost path = self.chain();
        let ghost memory = self.shared();
        let ghost mut i: int = 0;
        let mut op: DeleteOp = self.delete_step(DeleteOp::LoadHead, data);
        proof {
            if path.len() > 0 {
                assert(path[0] != 0);
            }
        }
        loop
            invariant
                old(self).wf(),
                path == old(self).chain(),
                memory == old(self).shared(),
                memory.readers == 0 || forall|j: int|
                    0 <= j < old(self)@.len() ==> !compares(#[trigger] old(self)@[j], *data, true),
                self.memory_wf(),
                self.room() == old(self).room(),
                self.shared() == memory,
                0 <= i <= path.len(),
                none_compares(old(self)@, *data, i),
                op == (if i < path.len() {
                    DeleteOp::Examine { link: link_before(path, i), node: path[i] }
                } else {
                    DeleteOp::Done { deleted: false }
                }),
            decreases path.len() - i,
        {
            proof {
                old(self).same_memory_same_list(*self);
                if i < path.len() {
                    assert(memory.nodes.contains_key(path[i]));
                    assert(memory.nodes[path[i]].link() == after(path, i));
                    assert(old(self)@[i] == memory.nodes[path[i]].data);
                    if i + 1 < path.len() {
                        assert(path[i + 1] != 0);
                    }
                }
            }
            if let DeleteOp::Done { deleted } = op {
                proof {
                    if T::obeys_eq_spec() {
                        none_compared_is_no_match(old(self)@, *data);
                    }
                }
                return deleted;
            }
            op = self.delete_step(op, data);
            if let DeleteOp::Advance { node: _ } = op {
                op = self.delete_step(op, data);
                proof {
                    i = i + 1;
                }
            } else {
                op = self.delete_step(op, data);
                proof {
                    if i > 0 {
                        assert(memory.nodes.contains_key(path[i - 1]));
                        assert(memory.nodes[path[i - 1]].link() == after(path, i - 1));
                    }
                }
                op = self.delete_step(op, data);
                assert(op == DeleteOp::AwaitReaders { node: path[i] });
                if let DeleteOp::AwaitReaders { node } = op {
                    self.defer_destroy_node(node);
                }
                proof {
                    self.node_was_taken_out(*old(self), i);
                    assert(first_compares(old(self)@, *data, i));
                    if T::obeys_eq_spec() {
                        first_compared_is_first_match(old(self)@, *data, i);
                    }
                }
                return true;
            }
        }
    }

    /// Says whether the list has an item equal to `data`. Which items are equal is for `==` of
    /// the item type to say. Meanwhile the thread counts as one that looks for an item.
    pub fn contains(&mut self, data: &T) -> (found: bool) where T: PartialEq
        requires
            old(self).wf(),
        ensures
            final(self).wf(),
            final(self).room() == old(self).room(),
            final(self).shared() == old(self).shared(),
            final(self)@ == old(self)@,
            found ==> exists|i: int| #[trigger] first_compares(old(self)@, *data, i),
            !found ==> none_compares(old(self)@, *data, old(self)@.len() as int),
            T::obeys_eq_spec() ==> found == has_match(old(self)@, *data),
            found ==> exists|i: int|
                0 <= i < old(self)@.len() && call_ensures(
                    <T as PartialEq>::eq,
                    (&#[trigger] old(self)@[i], data),
                    true,
                ),
            !found ==> forall|i: int|
                0 <= i < old(self)@.len() ==> call_ensures(
                    <T as PartialEq>::eq,
                    (&#[trigger] old(self)@[i], data),
                    false,
                ),
    {
        let ghost path = self.chain();
        let ghost memory = self.shared().effect(ListAccess::Enter);
        let ghost mut i: int = 0;
        let mut op: ContainsOp = self.contains_step(ContainsOp::Enter, data);
        op = self.contains_step(op, data);
        proof {
            if path.len() > 0 {
                assert(path[0] != 0);
            }
        }
        loop
            invariant
                old(self).wf(),
                path == old(self).chain(),
                memory == old(self).shared().effect(ListAccess::Enter),
                self.memory_wf(),
                self.room() == old(self).room(),
                self.shared() == memory,
                0 <= i <= path.len(),
                none_compares(old(self)@, *data, i),
                op == (if i < path.len() {
                    ContainsOp::Examine { node: path[i] }
                } else {
                    ContainsOp::Leave { found: false }
                }),
            decreases path.len() - i,
        {
            proof {
                if i < path.len() {
                    assert(memory.nodes.contains_key(path[i]));
                    assert(memory.nodes[path[i]].link() == after(path, i));
                    assert(old(self)@[i] == memory.nodes[path[i]].data);
                    if i + 1 < path.len() {
                        assert(path[i + 1] != 0);
                    }
                }
            }
            if let ContainsOp::Examine { node: _ } = op {
                op = self.contains_step(op, data);
            }
            proof {
                if op == (ContainsOp::Leave { found: true }) {
                    assert(first_compares(old(self)@, *data, i));
                    if T::obeys_eq_spec() {
                        first_compared_is_first_match(old(self)@, *data, i);
                    }
                } else if op == (ContainsOp::Leave { found: false }) && T::obeys_eq_spec() {
                    none_compared_is_no_match(old(self)@, *data);
                }
            }
            if let ContainsOp::Advance { node: _ } = op {
                op = self.contains_step(op, data);
                proof {
                    i = i + 1;
                }
            } else {
                op = self.contains_step(op, data);
                proof {
                    old(self).same_memory_same_list(*self);
                }
                if let ContainsOp::Done { found } = op {
                    return found;
                } else {
                    return false;
                }
            }
        }
    }

    /// Gives all nodes back, from the first to the last.
    pub fn clear(&mut self)
        requires
            old(self).wf(),
        ensures
            final(self).wf(),
            final(self).room() == old(self).room() + old(self)@.len(),
            final(self).readers() == old(self).readers(),
            final(self)@ == Seq::<T>::empty(),
            final(self).shared().nodes == Map::<usize, Node<T>>::empty(),
    {
        let ghost path = self.chain();
        let ghost mut i: int = 0;
        let mut curr: usize = self.head;
        proof {
            if path.len() > 0 {
                assert(path[0] != 0);
            }
        }
        while curr != 0
            invariant
                old(self).wf(),
                path == old(self).chain(),
                self.memory_wf(),
                self.room() == old(self).room() + i,
                self.readers() == old(self).readers(),
                0 <= i <= path.len(),
                curr == (if i < path.len() {
                    path[i]
                } else {
                    0
                }),
                forall|k: int| 0 <= k < path.len() ==> #[trigger] path[k] != 0,
                forall|a: usize| #[trigger]
                    self.nodes@.contains_key(a) ==> exists|k: int|
                        i <= k < path.len() && #[trigger] path[k] == a,
                forall|k: int|
                    i <= k < path.len() ==> self.nodes@.contains_key(#[trigger] path[k])
                        && self.nodes@[path[k]] == old(self).nodes@[path[k]],
            decreases path.len() - i,
        {
            assert(old(self).nodes@[path[i]].link() == after(path, i));
            let next: usize = self.nodes.get(curr).next;
            self.perform(ListAccess::Free { node: curr });
            curr = next;
            proof {
                i = i + 1;
            }
        }
        self.head = 0;
        proof {
            assert(self.nodes@ =~= Map::<usize, Node<T>>::empty());
            self.chain_is(Seq::empty());
        }
    }
}

/// The link that leads to position `i` of a path.
pub open spec fn link_before(path: Seq<usize>, i: int) -> Link {
    if i == 0 {
        Link::Head
    } else {
        Link::Next { node: path[i - 1] }
    }
}

impl<T> LinkedList<T> {
    /// Lists with the same memory are the same list.
    proof fn same_memory_same_list(self, other: Self)
        requires
            self.wf(),
            other.memory_wf(),
            other.shared() == self.shared(),
        ensures
            other.wf(),
            other@ == self@,
            other.chain() == self.chain(),
    {
    }

    /// Pointing the link before a node to the one after it, and giving the node back, takes its
    /// item out of the list.
    proof fn node_was_taken_out(self, pre: Self, i: int)
        requires
            pre.wf(),
            self.memory_wf(),
            0 <= i < pre.chain().len(),
            self.shared() == pre.shared().with_link(
                link_before(pre.chain(), i),
                after(pre.chain(), i),
            ).effect(ListAccess::Free { node: pre.chain()[i] }),
        ensures
            self.wf(),
            self@ == pre@.remove(i),
    {
        let path = pre.chain();
        let node = path[i];
        let rest = path.remove(i);
        let unlinked = pre.shared().with_link(link_before(path, i), after(path, i));
        remove_keeps_distinct(path, i);
        if i == 0 {
            chain_tail(pre.nodes@, pre.head, path);
            assert(path.drop_first() == rest);
            assert(pre.nodes@[path[0]].link() == after(path, 0));
            assert(is_chain(unlinked.nodes, unlinked.head, rest));
        } else {
            chain_unlink(pre.nodes@, pre.head, path, i, unlinked.nodes[path[i - 1]]);
        }
        assert(forall|k: int| 0 <= k < rest.len() ==> rest.contains(#[trigger] rest[k]));
        chain_frame(unlinked.nodes, self.nodes@, self.head, rest);
        self.chain_is(rest);
        assert forall|a: usize| #[trigger] self.nodes@.contains_key(a) implies rest.contains(a) by {
            assert(path.contains(a));
            let k = choose|k: int| 0 <= k < path.len() && path[k] == a;
            assert(rest[if k < i {
                k
            } else {
                k - 1
            }] == a);
        }
        assert(self@ =~= pre@.remove(i)) by {
            assert forall|k: int| 0 <= k < rest.len() implies self@[k] == pre@.remove(i)[k] by {
                assert(rest[k] == path[if k < i {
                    k
                } else {
                    k + 1
                }]);
                assert(rest.contains(rest[k]));
            }
        }
    }
}

} // verus!
