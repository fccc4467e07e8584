//! Singly linked lists laid out in a map from addresses to nodes.

use vstd::prelude::*;

verus! {

/// A node that holds the address of the next one, or zero.
pub trait Linked {
    /// The address of the next node.
    spec fn link(&self) -> usize;
}

/// The address that follows position `i` of a path, zero at its end.
pub open spec fn after(path: Seq<usize>, i: int) -> usize {
    if i + 1 < path.len() {
        path[i + 1]
    } else {
        0
    }
}

/// The first address of a path, zero if it is empty.
pub open spec fn first(path: Seq<usize>) -> usize {
    if path.len() == 0 {
        0
    } else {
        path[0]
    }
}

/// The list that starts at `head` visits exactly the addresses of `path`, in that order, and
/// ends.
pub open spec fn is_chain<N: Linked>(
    cells: Map<usize, N>,
    head: usize,
    path: Seq<usize>,
) -> bool {
    &&& head == first(path)
    &&& path.no_duplicates()
    &&& forall|i: int|
        0 <= i < path.len() ==> #[trigger] path[i] != 0 && cells.contains_key(path[i])
    &&& forall|i: int|
        0 <= i < path.len() ==> #[trigger] cells[path[i]].link() == after(path, i)
}

/// The list that starts at a given address is determined by it.
pub proof fn chain_is_unique<N: Linked>(
    cells: Map<usize, N>,
    head: usize,
    path: Seq<usize>,
    other: Seq<usize>,
)
    requires
        is_chain(cells, head, path),
        is_chain(cells, head, other),
    ensures
        path == other,
    decreases path.len(),
{
    if path.len() == 0 {
        if other.len() > 0 {
            assert(other[0] != 0);
        }
    } else {
        assert(path[0] != 0);
        assert(other.len() > 0);
        chain_tail(cells, head, path);
        chain_tail(cells, head, other);
        assert(cells[path[0]].link() == after(path, 0));
        assert(cells[other[0]].link() == after(other, 0));
        chain_is_unique(cells, after(path, 0), path.drop_first(), other.drop_first());
        assert(path == seq![path[0]] + path.drop_first());
        assert(other == seq![other[0]] + other.drop_first());
    }
}

/// What follows the first node of a list is a list.
pub proof fn chain_tail<N: Linked>(cells: Map<usize, N>, head: usize, path: Seq<usize>)
    requires
        is_chain(cells, head, path),
        path.len() > 0,
    ensures
        is_chain(cells, cells[head].link(), path.drop_first()),
        !path.drop_first().contains(head),
{
    let rest = path.drop_first();
    assert(cells[path[0]].link() == after(path, 0));
    assert forall|i: int| 0 <= i < rest.len() implies {
        &&& #[trigger] rest[i] != 0
        &&& cells.contains_key(rest[i])
    } by {}
    assert forall|i: int| 0 <= i < rest.len() implies #[trigger] cells[rest[i]].link() == after(
        rest,
        i,
    ) by {
        assert(rest[i] == path[i + 1]);
        assert(after(rest, i) == after(path, i + 1));
    }
    if rest.contains(head) {
        let i = choose|i: int| 0 <= i < rest.len() && rest[i] == head;
        assert(path[i + 1] == path[0]);
    }
}

/// A list does not depend on cells that it does not visit.
pub proof fn chain_frame<N: Linked>(
    cells: Map<usize, N>,
    other: Map<usize, N>,
    head: usize,
    path: Seq<usize>,
)
    requires
        is_chain(cells, head, path),
        forall|i: int|
            0 <= i < path.len() ==> other.contains_key(#[trigger] path[i]) && other[path[i]].link()
                == cells[path[i]].link(),
    ensures
        is_chain(other, head, path),
{
}

/// A node that points to the head of a list and is not in it starts the list with that node
/// in front.
pub proof fn chain_push_front<N: Linked>(
    cells: Map<usize, N>,
    head: usize,
    path: Seq<usize>,
    addr: usize,
)
    requires
        is_chain(cells, head, path),
        addr != 0,
        cells.contains_key(addr),
        cells[addr].link() == head,
        !path.contains(addr),
    ensures
        is_chain(cells, addr, seq![addr] + path),
{
    let whole = seq![addr] + path;
    assert forall|i: int| 0 <= i < whole.len() implies {
        &&& #[trigger] whole[i] != 0
        &&& cells.contains_key(whole[i])
    } by {}
    assert forall|i: int| 0 <= i < whole.len() implies #[trigger] cells[whole[i]].link() == after(
        whole,
        i,
    ) by {
        if i > 0 {
            assert(whole[i] == path[i - 1]);
            assert(after(whole, i) == after(path, i - 1));
        }
    }
    assert forall|i: int, j: int|
        0 <= i < whole.len() && 0 <= j < whole.len() && i != j implies whole[i] != whole[j] by {
        if i > 0 {
            assert(whole[i] == path[i - 1]);
        }
        if j > 0 {
            assert(whole[j] == path[j - 1]);
        }
    }
}

/// Pointing the last node of a list to a node that ends there puts that node at the end.
pub proof fn chain_push_back<N: Linked>(
    cells: Map<usize, N>,
    head: usize,
    path: Seq<usize>,
    addr: usize,
    last: N,
)
    requires
        is_chain(cells, head, path),
        path.len() > 0,
        addr != 0,
        cells.contains_key(addr),
        cells[addr].link() == 0,
        !path.contains(addr),
        last.link() == addr,
    ensures
        is_chain(cells.insert(path.last(), last), head, path.push(addr)),
{
    let whole = path.push(addr);
    let new = cells.insert(path.last(), last);
    assert(path.contains(path.last()));
    assert forall|i: int| 0 <= i < whole.len() implies {
        &&& #[trigger] whole[i] != 0
        &&& new.contains_key(whole[i])
    } by {}
    assert forall|i: int| 0 <= i < whole.len() implies #[trigger] new[whole[i]].link() == after(
        whole,
        i,
    ) by {
        if i < path.len() {
            assert(whole[i] == path[i]);
            if i + 1 < path.len() {
                assert(after(whole, i) == after(path, i));
                assert(path[i] != path.last());
            }
        }
    }
    assert forall|i: int, j: int|
        0 <= i < whole.len() && 0 <= j < whole.len() && i != j implies whole[i] != whole[j] by {
        if i < path.len() {
            assert(path.contains(path[i]));
        }
        if j < path.len() {
            assert(path.contains(path[j]));
        }
    }
}

/// Pointing the predecessor of the node at position `i` to its successor takes that node out
/// of the list.
pub proof fn chain_unlink<N: Linked>(
    cells: Map<usize, N>,
    head: usize,
    path: Seq<usize>,
    i: int,
    predecessor: N,
)
    requires
        is_chain(cells, head, path),
        0 < i < path.len(),
        predecessor.link() == after(path, i),
    ensures
        is_chain(cells.insert(path[i - 1], predecessor), head, path.remove(i)),
        !path.remove(i).contains(path[i]),
{
    let rest = path.remove(i);
    let new = cells.insert(path[i - 1], predecessor);
    assert forall|k: int| 0 <= k < rest.len() implies {
        &&& #[trigger] rest[k] != 0
        &&& new.contains_key(rest[k])
    } by {}
    assert forall|k: int| 0 <= k < rest.len() implies #[trigger] new[rest[k]].link() == after(
        rest,
        k,
    ) by {
        if k < i {
            assert(rest[k] == path[k]);
            if k + 1 < i {
                assert(path[k] != path[i - 1]);
                assert(after(rest, k) == after(path, k));
            }
        } else {
            assert(rest[k] == path[k + 1]);
            assert(path[k + 1] != path[i - 1]);
            assert(after(rest, k) == after(path, k + 1));
        }
    }
    remove_keeps_distinct(path, i);
}

/// A path without repetitions stays so when one position is removed, and the address at that
/// position is gone.
pub proof fn remove_keeps_distinct(path: Seq<usize>, i: int)
    requires
        path.no_duplicates(),
        0 <= i < path.len(),
    ensures
        path.remove(i).no_duplicates(),
        !path.remove(i).contains(path[i]),
{
    let rest = path.remove(i);
    assert forall|k: int| 0 <= k < rest.len() implies #[trigger] rest[k] == path[if k < i {
        k
    } else {
        k + 1
    }] by {}
    if rest.contains(path[i]) {
        let k = choose|k: int| 0 <= k < rest.len() && rest[k] == path[i];
        assert(rest[k] == path[if k < i {
            k
        } else {
            k + 1
        }]);
    }
}

/// In a path without repetitions an address has one place.
pub proof fn place_is_unique(path: Seq<usize>, k: int)
    requires
        path.no_duplicates(),
        0 <= k < path.len(),
    ensures
        path.contains(path[k]),
        path.index_of(path[k]) == k,
{
    assert(path.contains(path[k]));
}

} // verus!
