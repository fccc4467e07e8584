//! What a call on a linked list comes to when no other thread does anything meanwhile.
//!
//! Which items are equal to the one looked for is up to the item type; here it is any property of
//! items.

use crate::chain::{
    after, chain_frame, chain_push_front, chain_tail, chain_unlink, first, is_chain,
    remove_keeps_distinct, Linked,
};
use crate::linked_list::{
    items_along, link_before, ContainsOp, DeleteOp, InsertOp, ListAccess, ListView, WalkOp,
};
use vstd::prelude::*;

verus! {

/// What a comparison comes out as, if the next access is one.
pub open spec fn outcome<T>(
    memory: ListView<T>,
    access: ListAccess,
    is_equal: spec_fn(T) -> bool,
) -> bool {
    access is Examine && is_equal(memory.nodes[access->Examine_node].data)
}

/// The memory and an insertion after some steps of its thread, with no step of another in between.
pub open spec fn insertion_alone<T>(memory: ListView<T>, op: InsertOp, steps: nat) -> (
    ListView<T>,
    InsertOp,
)
    decreases steps,
{
    if steps == 0 {
        (memory, op)
    } else {
        let access = op.next_access();
        insertion_alone(
            memory.effect(access),
            op.after(memory.reply(access, false)),
            (steps - 1) as nat,
        )
    }
}

/// A thread that inserts alone puts its item in front of all others and ends. The other nodes are
/// as they were.
pub proof fn inserting_alone_puts_in_front<T>(memory: ListView<T>, path: Seq<usize>, node: usize)
    requires
        is_chain(memory.nodes, memory.head, path),
        memory.nodes.contains_key(node),
        node != 0,
        !path.contains(node),
    ensures
        exists|n: nat|
            {
                let end = #[trigger] insertion_alone(memory, InsertOp::Load { node }, n);
                &&& end.1 is Done
                &&& is_chain(end.0.nodes, end.0.head, seq![node] + path)
                &&& items_along(end.0.nodes, seq![node] + path) == seq![memory.nodes[node].data]
                    + items_along(memory.nodes, path)
                &&& end.0.readers == memory.readers
                &&& end.0.nodes.dom() == memory.nodes.dom()
                &&& forall|a: usize| a != node ==> #[trigger] end.0.nodes[a] == memory.nodes[a]
            },
{
    reveal_with_fuel(insertion_alone, 4);
    let end = insertion_alone(memory, InsertOp::Load { node }, 3);
    let whole = seq![node] + path;
    assert(end.1 is Done);
    assert forall|i: int| 0 <= i < path.len() implies end.0.nodes.contains_key(#[trigger] path[i])
        && end.0.nodes[path[i]] == memory.nodes[path[i]] by {
        assert(memory.nodes.contains_key(path[i]));
        assert(path.contains(path[i]));
    }
    chain_frame(memory.nodes, end.0.nodes, memory.head, path);
    chain_push_front(end.0.nodes, memory.head, path, node);
    assert(items_along(end.0.nodes, whole) =~= seq![memory.nodes[node].data] + items_along(
        memory.nodes,
        path,
    )) by {
        assert forall|i: int| 0 < i < whole.len() implies #[trigger] whole[i] == path[i - 1] by {}
    }
    assert(end.0.nodes.dom() =~= memory.nodes.dom());
}

/// The memory and a search after some steps of its thread, with no step of another in between.
pub open spec fn search_alone<T>(
    memory: ListView<T>,
    op: ContainsOp,
    is_equal: spec_fn(T) -> bool,
    steps: nat,
) -> (ListView<T>, ContainsOp)
    decreases steps,
{
    if steps == 0 {
        (memory, op)
    } else {
        let access = op.next_access();
        search_alone(
            memory.effect(access),
            op.after(memory.reply(access, outcome(memory, access, is_equal))),
            is_equal,
            (steps - 1) as nat,
        )
    }
}

/// Whether one of the items from position `k` on is equal.
pub open spec fn has_equal<T>(items: Seq<T>, is_equal: spec_fn(T) -> bool, k: int) -> bool {
    exists|i: int| k <= i < items.len() && is_equal(#[trigger] items[i])
}

/// A search that has come to position `k` ends with what the items from there on give.
proof fn search_goes_on<T>(
    memory: ListView<T>,
    path: Seq<usize>,
    is_equal: spec_fn(T) -> bool,
    k: int,
) -> (n: nat)
    requires
        is_chain(memory.nodes, memory.head, path),
        0 <= k <= path.len(),
        0 < memory.readers,
    ensures
        search_alone(
            memory,
            if k < path.len() {
                ContainsOp::Examine { node: path[k] }
            } else {
                ContainsOp::Leave { found: false }
            },
            is_equal,
            n,
        ) == (
            ListView { readers: (memory.readers - 1) as usize, ..memory },
            ContainsOp::Done { found: has_equal(items_along(memory.nodes, path), is_equal, k) },
        ),
    decreases path.len() - k,
{
    let items = items_along(memory.nodes, path);
    reveal_with_fuel(search_alone, 3);
    if k == path.len() {
        1
    } else {
        assert(items[k] == memory.nodes[path[k]].data);
        assert(memory.nodes[path[k]].link() == after(path, k));
        if is_equal(items[k]) {
            assert(has_equal(items, is_equal, k));
            2
        } else {
            if k + 1 < path.len() {
                assert(path[k + 1] != 0);
            }
            let n = search_goes_on(memory, path, is_equal, k + 1);
            assert(has_equal(items, is_equal, k) == has_equal(items, is_equal, k + 1)) by {
                if has_equal(items, is_equal, k) {
                    let i = choose|i: int| k <= i < items.len() && is_equal(#[trigger] items[i]);
                    assert(i != k);
                }
            }
            n + 2
        }
    }
}

/// A thread that searches alone finds out whether the list has an equal item, and leaves the memory
/// as it was.
pub proof fn searching_alone_finds_what_there_is<T>(
    memory: ListView<T>,
    path: Seq<usize>,
    is_equal: spec_fn(T) -> bool,
)
    requires
        is_chain(memory.nodes, memory.head, path),
        memory.readers < usize::MAX,
    ensures
        exists|n: nat| #[trigger]
            search_alone(memory, ContainsOp::Enter, is_equal, n) == (
                memory,
                ContainsOp::Done {
                    found: exists|i: int|
                        0 <= i < path.len() && is_equal((#[trigger] memory.nodes[path[i]]).data),
                },
            ),
{
    let items = items_along(memory.nodes, path);
    let counted = ListView { readers: (memory.readers + 1) as usize, ..memory };
    let n = search_goes_on(counted, path, is_equal, 0);
    if path.len() > 0 {
        assert(path[0] != 0);
    }
    reveal_with_fuel(search_alone, 3);
    assert(has_equal(items, is_equal, 0) == exists|i: int|
        0 <= i < path.len() && is_equal((#[trigger] memory.nodes[path[i]]).data)) by {
        if has_equal(items, is_equal, 0) {
            let i = choose|i: int| 0 <= i < items.len() && is_equal(#[trigger] items[i]);
            assert(is_equal(memory.nodes[path[i]].data));
        }
        if exists|i: int|
            0 <= i < path.len() && is_equal((#[trigger] memory.nodes[path[i]]).data) {
            let i = choose|i: int|
                0 <= i < path.len() && is_equal((#[trigger] memory.nodes[path[i]]).data);
            assert(is_equal(items[i]));
        }
    }
    assert(search_alone(memory, ContainsOp::Enter, is_equal, n + 2) == (
        memory,
        ContainsOp::Done { found: has_equal(items, is_equal, 0) },
    ));
}

/// The memory and a deletion after some steps of its thread, with no step of another in between.
pub open spec fn deletion_alone<T>(
    memory: ListView<T>,
    op: DeleteOp,
    is_equal: spec_fn(T) -> bool,
    steps: nat,
) -> (ListView<T>, DeleteOp)
    decreases steps,
{
    if steps == 0 {
        (memory, op)
    } else {
        let access = op.next_access();
        deletion_alone(
            memory.effect(access),
            op.after(memory.reply(access, outcome(memory, access, is_equal))),
            is_equal,
            (steps - 1) as nat,
        )
    }
}

/// The memory without the node at position `i` of the list.
spec fn without<T>(memory: ListView<T>, path: Seq<usize>, i: int) -> ListView<T> {
    let unlinked = memory.with_link(link_before(path, i), after(path, i));
    ListView { nodes: unlinked.nodes.remove(path[i]), ..unlinked }
}

/// A deletion that has come to an equal item takes it out.
proof fn deletion_takes_out<T>(
    memory: ListView<T>,
    path: Seq<usize>,
    is_equal: spec_fn(T) -> bool,
    i: int,
)
    requires
        is_chain(memory.nodes, memory.head, path),
        0 <= i < path.len(),
        memory.readers == 0,
        is_equal(memory.nodes[path[i]].data),
    ensures
        deletion_alone(
            memory,
            DeleteOp::Examine { link: link_before(path, i), node: path[i] },
            is_equal,
            5,
        ) == (without(memory, path, i), DeleteOp::Done { deleted: true }),
{
    reveal_with_fuel(deletion_alone, 6);
    assert(memory.nodes[path[i]].link() == after(path, i));
    if i > 0 {
        assert(memory.nodes[path[i - 1]].link() == after(path, i - 1));
    }
    assert(memory.at(link_before(path, i)) == path[i]);
}

/// A deletion that has come to position `k` without having found an equal item takes out the first
/// one from there on, if there is one.
proof fn deletion_goes_on<T>(
    memory: ListView<T>,
    path: Seq<usize>,
    is_equal: spec_fn(T) -> bool,
    k: int,
    i: int,
) -> (n: nat)
    requires
        is_chain(memory.nodes, memory.head, path),
        0 <= k <= i <= path.len(),
        memory.readers == 0,
        forall|j: int| k <= j < i ==> !is_equal((#[trigger] memory.nodes[path[j]]).data),
        i < path.len() ==> is_equal(memory.nodes[path[i]].data),
    ensures
        deletion_alone(
            memory,
            if k < path.len() {
                DeleteOp::Examine { link: link_before(path, k), node: path[k] }
            } else {
                DeleteOp::Done { deleted: false }
            },
            is_equal,
            n,
        ) == if i < path.len() {
            (without(memory, path, i), DeleteOp::Done { deleted: true })
        } else {
            (memory, DeleteOp::Done { deleted: false })
        },
    decreases i - k,
{
    if k == i {
        if i < path.len() {
            deletion_takes_out(memory, path, is_equal, i);
            5
        } else {
            0
        }
    } else {
        assert(!is_equal(memory.nodes[path[k]].data));
        assert(memory.nodes[path[k]].link() == after(path, k));
        if k + 1 < path.len() {
            assert(path[k + 1] != 0);
        }
        reveal_with_fuel(deletion_alone, 3);
        let n = deletion_goes_on(memory, path, is_equal, k + 1, i);
        n + 2
    }
}

/// The list without one of its nodes.
proof fn node_is_gone<T>(memory: ListView<T>, path: Seq<usize>, i: int)
    requires
        is_chain(memory.nodes, memory.head, path),
        0 <= i < path.len(),
    ensures
        is_chain(without(memory, path, i).nodes, without(memory, path, i).head, path.remove(i)),
        items_along(without(memory, path, i).nodes, path.remove(i)) == items_along(
            memory.nodes,
            path,
        ).remove(i),
        without(memory, path, i).nodes.dom() == memory.nodes.dom().remove(path[i]),
{
    let rest = path.remove(i);
    let unlinked = memory.with_link(link_before(path, i), after(path, i));
    let post = without(memory, path, i);
    remove_keeps_distinct(path, i);
    if i == 0 {
        chain_tail(memory.nodes, memory.head, path);
        assert(path.drop_first() =~= rest);
        assert(memory.nodes[path[0]].link() == after(path, 0));
    } else {
        assert(memory.nodes.contains_key(path[i - 1]));
        chain_unlink(memory.nodes, memory.head, path, i, unlinked.nodes[path[i - 1]]);
    }
    assert(forall|k: int| 0 <= k < rest.len() ==> rest.contains(#[trigger] rest[k]));
    chain_frame(unlinked.nodes, post.nodes, post.head, rest);
    assert(items_along(post.nodes, rest) =~= items_along(memory.nodes, path).remove(i)) by {
        assert forall|k: int| 0 <= k < rest.len() implies items_along(post.nodes, rest)[k]
            == items_along(memory.nodes, path).remove(i)[k] by {
            assert(rest[k] == path[if k < i {
                k
            } else {
                k + 1
            }]);
            assert(rest.contains(rest[k]));
        }
    }
    assert(post.nodes.dom() =~= memory.nodes.dom().remove(path[i]));
}

/// A thread that deletes alone takes out the first equal item and gives its node back, and says so;
/// the other items stay. If there is no equal item it says so and changes nothing.
pub proof fn deleting_alone_takes_out_the_first<T>(
    memory: ListView<T>,
    path: Seq<usize>,
    is_equal: spec_fn(T) -> bool,
    i: int,
)
    requires
        is_chain(memory.nodes, memory.head, path),
        memory.readers == 0,
        0 <= i <= path.len(),
        forall|j: int| 0 <= j < i ==> !is_equal((#[trigger] memory.nodes[path[j]]).data),
        i < path.len() ==> is_equal(memory.nodes[path[i]].data),
    ensures
        exists|n: nat|
            {
                let end = #[trigger] deletion_alone(memory, DeleteOp::LoadHead, is_equal, n);
                &&& i == path.len() ==> end == (memory, DeleteOp::Done { deleted: false })
                &&& i < path.len() ==> {
                    &&& end.1 == (DeleteOp::Done { deleted: true })
                    &&& is_chain(end.0.nodes, end.0.head, path.remove(i))
                    &&& items_along(end.0.nodes, path.remove(i)) == items_along(
                        memory.nodes,
                        path,
                    ).remove(i)
                    &&& end.0.nodes.dom() == memory.nodes.dom().remove(path[i])
                    &&& end.0.readers == 0
                }
            },
{
    let n = deletion_goes_on(memory, path, is_equal, 0, i);
    if path.len() > 0 {
        assert(path[0] != 0);
    }
    reveal_with_fuel(deletion_alone, 2);
    let end = deletion_alone(memory, DeleteOp::LoadHead, is_equal, n + 1);
    if i < path.len() {
        node_is_gone(memory, path, i);
        assert(end == (without(memory, path, i), DeleteOp::Done { deleted: true }));
    } else {
        assert(end == (memory, DeleteOp::Done { deleted: false }));
    }
}

/// A walk and the items that it has read after some steps of its thread, with no step of another in
/// between.
pub open spec fn walk_alone<T>(memory: ListView<T>, op: WalkOp, read: Seq<T>, steps: nat) -> (
    WalkOp,
    Seq<T>,
)
    decreases steps,
{
    if steps == 0 {
        (op, read)
    } else {
        let access = op.next_access();
        walk_alone(
            memory.effect(access),
            op.after(memory.reply(access, false)),
            if access is Visit {
                read.push(memory.nodes[access->Visit_node].data)
            } else {
                read
            },
            (steps - 1) as nat,
        )
    }
}

/// A walk that has come to position `k` reads the items from there on.
proof fn walk_goes_on<T>(memory: ListView<T>, path: Seq<usize>, read: Seq<T>, k: int) -> (n: nat)
    requires
        is_chain(memory.nodes, memory.head, path),
        0 <= k <= path.len(),
        read == items_along(memory.nodes, path).take(k),
    ensures
        walk_alone(
            memory,
            if k < path.len() {
                WalkOp::Visit { node: path[k] }
            } else {
                WalkOp::Done
            },
            read,
            n,
        ) == (WalkOp::Done, items_along(memory.nodes, path)),
    decreases path.len() - k,
{
    let items = items_along(memory.nodes, path);
    if k == path.len() {
        assert(read =~= items);
        0
    } else {
        assert(memory.nodes[path[k]].link() == after(path, k));
        if k + 1 < path.len() {
            assert(path[k + 1] != 0);
        }
        let more = read.push(memory.nodes[path[k]].data);
        assert(more =~= items.take(k + 1));
        reveal_with_fuel(walk_alone, 3);
        let n = walk_goes_on(memory, path, more, k + 1);
        n + 2
    }
}

/// A thread that walks alone reads every item of the list once, in order, and ends.
pub proof fn walking_alone_reads_every_item<T>(memory: ListView<T>, path: Seq<usize>)
    requires
        is_chain(memory.nodes, memory.head, path),
    ensures
        exists|n: nat| #[trigger]
            walk_alone(memory, WalkOp::LoadHead, Seq::<T>::empty(), n) == (
                WalkOp::Done,
                items_along(memory.nodes, path),
            ),
{
    let none = Seq::<T>::empty();
    assert(none =~= items_along(memory.nodes, path).take(0));
    let n = walk_goes_on(memory, path, none, 0);
    if path.len() > 0 {
        assert(path[0] != 0);
    }
    reveal_with_fuel(walk_alone, 2);
    assert(walk_alone(memory, WalkOp::LoadHead, none, n + 1) == (
        WalkOp::Done,
        items_along(memory.nodes, path),
    ));
}

} // verus!
