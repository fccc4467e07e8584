//! What one call on a linked list does, whatever other threads do meanwhile.

use crate::execution::{call_so_far, is_call};
use crate::linked_list::{
    ContainsOp, DeleteOp, InsertOp, Link, ListAccess, ListReply, WalkOp,
};
use vstd::prelude::*;

verus! {

/// Whether an access can give back a reply.
pub open spec fn list_fits(access: ListAccess, reply: ListReply) -> bool {
    match access {
        ListAccess::LoadLink { .. } => reply is Address,
        ListAccess::CompareExchange { .. } => reply is Swapped || reply is Failed,
        ListAccess::Examine { .. } => reply is Equal,
        ListAccess::LoadReaders => reply is Readers,
        _ => reply is Ack,
    }
}

/// How many exchanges a call has made.
pub open spec fn exchanges(log: Seq<(ListAccess, ListReply)>) -> nat
    decreases log.len(),
{
    if log.len() == 0 {
        0
    } else {
        exchanges(log.drop_last()) + (if log.last().0 is CompareExchange && log.last().1
            is Swapped {
            1nat
        } else {
            0
        })
    }
}

/// How many exchanges a call could not make.
pub open spec fn failures(log: Seq<(ListAccess, ListReply)>) -> nat
    decreases log.len(),
{
    if log.len() == 0 {
        0
    } else {
        failures(log.drop_last()) + (if log.last().0 is CompareExchange && log.last().1 is Failed {
            1nat
        } else {
            0
        })
    }
}

/// How many nodes a call has given back.
pub open spec fn frees(log: Seq<(ListAccess, ListReply)>) -> nat
    decreases log.len(),
{
    if log.len() == 0 {
        0
    } else {
        frees(log.drop_last()) + (if log.last().0 is Free {
            1nat
        } else {
            0
        })
    }
}

/// How many items were found to be equal to the one looked for.
pub open spec fn hits(log: Seq<(ListAccess, ListReply)>) -> nat
    decreases log.len(),
{
    if log.len() == 0 {
        0
    } else {
        hits(log.drop_last()) + (if log.last().1 == (ListReply::Equal { equal: true }) {
            1nat
        } else {
            0
        })
    }
}

/// Whether a link was found to lead nowhere.
pub open spec fn saw_the_end(log: Seq<(ListAccess, ListReply)>) -> bool
    decreases log.len(),
{
    log.len() > 0 && (log.last().1 == (ListReply::Address { node: 0 }) || saw_the_end(
        log.drop_last(),
    ))
}

/// By how much a call has changed the count of those that look.
pub open spec fn presence(log: Seq<(ListAccess, ListReply)>) -> int
    decreases log.len(),
{
    if log.len() == 0 {
        0
    } else {
        presence(log.drop_last()) + (match log.last().0 {
            ListAccess::Enter => 1int,
            ListAccess::Leave => -1,
            _ => 0,
        })
    }
}

/// The access that was made some accesses before the end of a log, and what it gave back.
pub open spec fn back(log: Seq<(ListAccess, ListReply)>, n: int) -> (ListAccess, ListReply) {
    log[log.len() - n]
}

/// One call of [`InsertOp`] with a node.
pub open spec fn is_insertion(
    ops: Seq<InsertOp>,
    log: Seq<(ListAccess, ListReply)>,
    node: usize,
) -> bool {
    is_call(
        ops,
        log,
        InsertOp::Load { node },
        |op: InsertOp| op.next_access(),
        |access: ListAccess, reply: ListReply| list_fits(access, reply),
        |op: InsertOp, reply: ListReply| op.after(reply),
    )
}

/// One call of [`DeleteOp`].
pub open spec fn is_deletion(ops: Seq<DeleteOp>, log: Seq<(ListAccess, ListReply)>) -> bool {
    is_call(
        ops,
        log,
        DeleteOp::LoadHead,
        |op: DeleteOp| op.next_access(),
        |access: ListAccess, reply: ListReply| list_fits(access, reply),
        |op: DeleteOp, reply: ListReply| op.after(reply),
    )
}

/// One call of [`ContainsOp`].
pub open spec fn is_search(ops: Seq<ContainsOp>, log: Seq<(ListAccess, ListReply)>) -> bool {
    is_call(
        ops,
        log,
        ContainsOp::Enter,
        |op: ContainsOp| op.next_access(),
        |access: ListAccess, reply: ListReply| list_fits(access, reply),
        |op: ContainsOp, reply: ListReply| op.after(reply),
    )
}

/// One call of [`WalkOp`].
pub open spec fn is_walk(ops: Seq<WalkOp>, log: Seq<(ListAccess, ListReply)>) -> bool {
    is_call(
        ops,
        log,
        WalkOp::LoadHead,
        |op: WalkOp| op.next_access(),
        |access: ListAccess, reply: ListReply| list_fits(access, reply),
        |op: WalkOp, reply: ListReply| op.after(reply),
    )
}

/// What the last access of an insertion has to do with those before it: the node is linked to what
/// the head was found to hold, and put in its place.
pub open spec fn inserts_rightly(log: Seq<(ListAccess, ListReply)>, node: usize) -> bool {
    match log.last().0 {
        ListAccess::LoadLink { link } => link is Head && (log.len() == 1 || back(log, 2).0
            is CompareExchange && back(log, 2).1 is Failed),
        ListAccess::StoreNext { node: n, next } => n == node && log.len() > 1 && back(log, 2) == (
            ListAccess::LoadLink { link: Link::Head },
            ListReply::Address { node: next },
        ),
        ListAccess::CompareExchange { link, expected, new } => link is Head && new == node
            && log.len() > 1 && back(log, 2) == (
            ListAccess::StoreNext { node, next: expected },
            ListReply::Ack,
        ),
        ListAccess::Finished => exchanges(log) == 1,
        _ => false,
    }
}

/// An insertion makes one exchange, which puts its node in the place of the one that it has linked
/// it to, and ends exactly when it has made it. After an exchange that could not be made it tries
/// again.
pub proof fn insertion_puts_its_node_in(
    ops: Seq<InsertOp>,
    log: Seq<(ListAccess, ListReply)>,
    node: usize,
)
    requires
        is_insertion(ops, log, node),
    ensures
        ops.last() is Done <==> exchanges(log) == 1,
        exchanges(log) <= 1,
        frees(log) == 0,
        presence(log) == 0,
        forall|i: int| 0 < i <= log.len() ==> #[trigger] inserts_rightly(log.take(i), node),
    decreases log.len(),
{
    insertion_so_far(ops, log, node);
}

proof fn insertion_so_far(
    ops: Seq<InsertOp>,
    log: Seq<(ListAccess, ListReply)>,
    node: usize,
)
    requires
        is_insertion(ops, log, node),
    ensures
        ops.last() is Done <==> exchanges(log) == 1,
        exchanges(log) <= 1,
        frees(log) == 0,
        presence(log) == 0,
        forall|i: int| 0 < i <= log.len() ==> #[trigger] inserts_rightly(log.take(i), node),
        match ops.last() {
            InsertOp::Load { node: n } => n == node && (log.len() == 0 || log.last().0
                is CompareExchange && log.last().1 is Failed),
            InsertOp::Store { node: n, head } => n == node && log.len() > 0 && log.last() == (
                ListAccess::LoadLink { link: Link::Head },
                ListReply::Address { node: head },
            ),
            InsertOp::Exchange { node: n, head } => n == node && log.len() > 0 && log.last() == (
                ListAccess::StoreNext { node, next: head },
                ListReply::Ack,
            ),
            InsertOp::Done => true,
        },
    decreases log.len(),
{
    if log.len() > 0 {
        let before = log.drop_last();
        call_so_far(
            ops,
            log,
            InsertOp::Load { node },
            |op: InsertOp| op.next_access(),
            |access: ListAccess, reply: ListReply| list_fits(access, reply),
            |op: InsertOp, reply: ListReply| op.after(reply),
        );
        insertion_so_far(ops.drop_last(), before, node);
        assert(before.len() > 0 ==> back(log, 2) == before.last());
        assert(inserts_rightly(log, node));
        assert forall|i: int| 0 < i <= log.len() implies #[trigger] inserts_rightly(
            log.take(i),
            node,
        ) by {
            if i < log.len() {
                assert(log.take(i) =~= before.take(i));
            } else {
                assert(log.take(i) =~= log);
            }
        }
    }
}

/// What the last access of a deletion has to do with those before it: it compares the item of a
/// node that a link has led to; it takes out only a node whose item was found equal, by the link
/// that has led to it, in favour of the one that was found to follow; and it gives back only the
/// node that it has taken out, right after it saw that no thread looks for an item.
pub open spec fn deletes_rightly(log: Seq<(ListAccess, ListReply)>) -> bool {
    match log.last().0 {
        ListAccess::LoadLink { link: Link::Head } => log.len() == 1,
        ListAccess::LoadLink { link: Link::Next { node } } => log.len() > 1 && back(log, 2).0 == (
        ListAccess::Examine { node }),
        ListAccess::Examine { node } => node != 0 && log.len() > 1 && back(log, 2).0 is LoadLink
            && back(log, 2).1 == (ListReply::Address { node }),
        ListAccess::CompareExchange { link, expected, new } => log.len() > 3 && back(log, 2) == (
            ListAccess::LoadLink { link: Link::Next { node: expected } },
            ListReply::Address { node: new },
        ) && back(log, 3) == (
            ListAccess::Examine { node: expected },
            ListReply::Equal { equal: true },
        ) && back(log, 4) == (
            ListAccess::LoadLink { link },
            ListReply::Address { node: expected },
        ),
        ListAccess::LoadReaders => exchanges(log) == 1 && frees(log) == 0 && log.len() > 1 && (back(
            log,
            2,
        ).1 is Swapped || back(log, 2).0 is SpinLoop),
        ListAccess::SpinLoop => log.len() > 1 && back(log, 2).0 is LoadReaders && back(
            log,
            2,
        ).1->count > 0,
        ListAccess::Free { node } => log.len() > 1 && back(log, 2) == (
            ListAccess::LoadReaders,
            ListReply::Readers { count: 0 },
        ) && took_out(log, node),
        ListAccess::Finished => true,
        _ => false,
    }
}

/// Whether a call has made an exchange that takes a node out.
pub open spec fn took_out(log: Seq<(ListAccess, ListReply)>, node: usize) -> bool
    decreases log.len(),
{
    log.len() > 0 && (log.last().1 is Swapped && log.last().0 is CompareExchange
        && log.last().0->expected == node || took_out(log.drop_last(), node))
}

/// A deletion takes out one node at the most. It ends as one that has deleted exactly when it has
/// taken a node out and given it back, and as one that has not only when it has taken none out:
/// because it has come to the end of the list without having found its item, or because its
/// exchange could not be made.
pub proof fn deletion_says_what_it_did(ops: Seq<DeleteOp>, log: Seq<(ListAccess, ListReply)>)
    requires
        is_deletion(ops, log),
    ensures
        ops.last() == (DeleteOp::Done { deleted: true }) <==> frees(log) == 1,
        frees(log) <= exchanges(log) <= hits(log) <= 1,
        exchanges(log) + failures(log) <= hits(log),
        ops.last() == (DeleteOp::Done { deleted: true }) ==> exchanges(log) == 1,
        ops.last() == (DeleteOp::Done { deleted: false }) ==> exchanges(log) == 0 && frees(log) == 0
            && (hits(log) == 0 && saw_the_end(log) || failures(log) == 1),
        exchanges(log) == 1 ==> ops.last() != (DeleteOp::Done { deleted: false }),
        presence(log) == 0,
        forall|i: int| 0 < i <= log.len() ==> #[trigger] deletes_rightly(log.take(i)),
{
    deletion_so_far(ops, log);
}

proof fn deletion_so_far(ops: Seq<DeleteOp>, log: Seq<(ListAccess, ListReply)>)
    requires
        is_deletion(ops, log),
    ensures
        presence(log) == 0,
        forall|i: int| 0 < i <= log.len() ==> #[trigger] deletes_rightly(log.take(i)),
        match ops.last() {
            DeleteOp::LoadHead => log.len() == 0 && exchanges(log) == 0 && failures(log) == 0
                && frees(log) == 0 && hits(log) == 0,
            DeleteOp::Examine { link, node } => node != 0 && exchanges(log) == 0 && failures(log)
                == 0 && frees(log) == 0 && hits(log) == 0 && log.len() > 0 && log.last() == (
                ListAccess::LoadLink { link },
                ListReply::Address { node },
            ),
            DeleteOp::LoadNext { link, node } => exchanges(log) == 0 && failures(log) == 0
                && frees(log) == 0 && hits(log) == 1 && log.len() > 1 && log.last() == (
                ListAccess::Examine { node },
                ListReply::Equal { equal: true },
            ) && back(log, 2) == (ListAccess::LoadLink { link }, ListReply::Address { node }),
            DeleteOp::Exchange { link, node, next } => exchanges(log) == 0 && failures(log) == 0
                && frees(log) == 0 && hits(log) == 1 && log.len() > 2 && log.last() == (
                ListAccess::LoadLink { link: Link::Next { node } },
                ListReply::Address { node: next },
            ) && back(log, 2) == (
                ListAccess::Examine { node },
                ListReply::Equal { equal: true },
            ) && back(log, 3) == (ListAccess::LoadLink { link }, ListReply::Address { node }),
            DeleteOp::AwaitReaders { node } => exchanges(log) == 1 && failures(log) == 0 && frees(
                log,
            ) == 0 && hits(log) == 1 && took_out(log, node) && log.len() > 0 && (log.last().1 is Swapped
                || log.last().0 is SpinLoop),
            DeleteOp::Spin { node } => exchanges(log) == 1 && failures(log) == 0 && frees(log) == 0
                && hits(log) == 1 && took_out(log, node) && log.len() > 0 && log.last().0
                is LoadReaders && log.last().1->count > 0,
            DeleteOp::Free { node } => exchanges(log) == 1 && failures(log) == 0 && frees(log) == 0
                && hits(log) == 1 && took_out(log, node) && log.len() > 0 && log.last() == (
                ListAccess::LoadReaders,
                ListReply::Readers { count: 0 },
            ),
            DeleteOp::Advance { node } => exchanges(log) == 0 && failures(log) == 0 && frees(log)
                == 0 && hits(log) == 0 && log.len() > 0 && log.last() == (
                ListAccess::Examine { node },
                ListReply::Equal { equal: false },
            ),
            DeleteOp::Done { deleted: true } => exchanges(log) == 1 && failures(log) == 0 && frees(
                log,
            ) == 1 && hits(log) == 1,
            DeleteOp::Done { deleted: false } => exchanges(log) == 0 && frees(log) == 0 && (hits(
                log,
            ) == 0 && saw_the_end(log) && failures(log) == 0 || hits(log) == 1 && failures(log)
                == 1),
        },
    decreases log.len(),
{
    if log.len() > 0 {
        let before = log.drop_last();
        call_so_far(
            ops,
            log,
            DeleteOp::LoadHead,
            |op: DeleteOp| op.next_access(),
            |access: ListAccess, reply: ListReply| list_fits(access, reply),
            |op: DeleteOp, reply: ListReply| op.after(reply),
        );
        deletion_so_far(ops.drop_last(), before);
        assert(before.len() > 0 ==> back(log, 2) == before.last());
        assert(before.len() > 1 ==> back(log, 3) == back(before, 2));
        assert(before.len() > 2 ==> back(log, 4) == back(before, 3));
        assert(deletes_rightly(log));
        assert forall|i: int| 0 < i <= log.len() implies #[trigger] deletes_rightly(
            log.take(i),
        ) by {
            if i < log.len() {
                assert(log.take(i) =~= before.take(i));
            } else {
                assert(log.take(i) =~= log);
            }
        }
    }
}

/// What the last access of a search has to do with those before it: it compares the item of a node
/// that a link has led to, and goes on from a node whose item was found not to be equal, all while
/// it is counted.
pub open spec fn searches_rightly(log: Seq<(ListAccess, ListReply)>) -> bool {
    match log.last().0 {
        ListAccess::Enter => log.len() == 1,
        ListAccess::LoadLink { link: Link::Head } => presence(log) == 1 && log.len() == 2,
        ListAccess::LoadLink { link: Link::Next { node } } => presence(log) == 1 && log.len() > 1
            && back(log, 2) == (ListAccess::Examine { node }, ListReply::Equal { equal: false }),
        ListAccess::Examine { node } => presence(log) == 1 && node != 0 && log.len() > 1 && back(
            log,
            2,
        ).0 is LoadLink && back(log, 2).1 == (ListReply::Address { node }),
        ListAccess::Leave => presence(log) == 0 && (hits(log) == 1 || saw_the_end(log)),
        ListAccess::Finished => presence(log) == 0,
        _ => false,
    }
}

/// A search is counted from its first access to its last. It ends with success exactly when an item
/// that it has compared was equal, and without only when it has come to the end of the list.
pub proof fn search_says_what_it_saw(ops: Seq<ContainsOp>, log: Seq<(ListAccess, ListReply)>)
    requires
        is_search(ops, log),
    ensures
        ops.last() == (ContainsOp::Done { found: true }) ==> hits(log) == 1 && presence(log) == 0,
        ops.last() == (ContainsOp::Done { found: false }) ==> hits(log) == 0 && saw_the_end(log)
            && presence(log) == 0,
        ops.last() is Done <==> log.len() > 0 && presence(log) == 0,
        hits(log) <= 1,
        exchanges(log) == 0,
        frees(log) == 0,
        forall|i: int| 0 < i <= log.len() ==> #[trigger] searches_rightly(log.take(i)),
{
    search_so_far(ops, log);
}

proof fn search_so_far(ops: Seq<ContainsOp>, log: Seq<(ListAccess, ListReply)>)
    requires
        is_search(ops, log),
    ensures
        exchanges(log) == 0,
        frees(log) == 0,
        forall|i: int| 0 < i <= log.len() ==> #[trigger] searches_rightly(log.take(i)),
        match ops.last() {
            ContainsOp::Enter => log.len() == 0 && presence(log) == 0 && hits(log) == 0,
            ContainsOp::LoadHead => log.len() == 1 && presence(log) == 1 && hits(log) == 0,
            ContainsOp::Examine { node } => node != 0 && presence(log) == 1 && hits(log) == 0
                && log.len() > 0 && log.last().0 is LoadLink && log.last().1
                == (ListReply::Address { node }),
            ContainsOp::Advance { node } => presence(log) == 1 && hits(log) == 0 && log.len() > 0
                && log.last() == (
                ListAccess::Examine { node },
                ListReply::Equal { equal: false },
            ),
            ContainsOp::Leave { found } => log.len() > 0 && presence(log) == 1 && (if found {
                hits(log) == 1
            } else {
                hits(log) == 0 && saw_the_end(log)
            }),
            ContainsOp::Done { found } => log.len() > 0 && presence(log) == 0 && (if found {
                hits(log) == 1
            } else {
                hits(log) == 0 && saw_the_end(log)
            }),
        },
    decreases log.len(),
{
    if log.len() > 0 {
        let before = log.drop_last();
        call_so_far(
            ops,
            log,
            ContainsOp::Enter,
            |op: ContainsOp| op.next_access(),
            |access: ListAccess, reply: ListReply| list_fits(access, reply),
            |op: ContainsOp, reply: ListReply| op.after(reply),
        );
        search_so_far(ops.drop_last(), before);
        assert(before.len() > 0 ==> back(log, 2) == before.last());
        assert(searches_rightly(log));
        assert forall|i: int| 0 < i <= log.len() implies #[trigger] searches_rightly(
            log.take(i),
        ) by {
            if i < log.len() {
                assert(log.take(i) =~= before.take(i));
            } else {
                assert(log.take(i) =~= log);
            }
        }
    }
}

/// What the last access of a walk has to do with the one before it: it reads the item of the node
/// that a link has led to, and goes on from a node whose item it has read.
pub open spec fn walks_rightly(log: Seq<(ListAccess, ListReply)>) -> bool {
    match log.last().0 {
        ListAccess::LoadLink { link: Link::Head } => log.len() == 1,
        ListAccess::LoadLink { link: Link::Next { node } } => log.len() > 1 && back(log, 2).0 == (
        ListAccess::Visit { node }),
        ListAccess::Visit { node } => node != 0 && log.len() > 1 && back(log, 2).0 is LoadLink
            && back(log, 2).1 == (ListReply::Address { node }),
        ListAccess::Finished => saw_the_end(log),
        _ => false,
    }
}

/// A walk reads the item of every node that a link has led it to, changes nothing, and ends exactly
/// when a link leads nowhere.
pub proof fn walk_ends_at_the_end(ops: Seq<WalkOp>, log: Seq<(ListAccess, ListReply)>)
    requires
        is_walk(ops, log),
    ensures
        ops.last() is Done <==> saw_the_end(log),
        exchanges(log) == 0,
        frees(log) == 0,
        presence(log) == 0,
        forall|i: int| 0 < i <= log.len() ==> #[trigger] walks_rightly(log.take(i)),
        match ops.last() {
            WalkOp::LoadHead => log.len() == 0,
            WalkOp::Visit { node } => node != 0 && log.len() > 0 && log.last().0 is LoadLink
                && log.last().1 == (ListReply::Address { node }),
            WalkOp::Advance { node } => log.len() > 0 && log.last() == (
                ListAccess::Visit { node },
                ListReply::Ack,
            ),
            WalkOp::Done => true,
        },
    decreases log.len(),
{
    if log.len() > 0 {
        let before = log.drop_last();
        call_so_far(
            ops,
            log,
            WalkOp::LoadHead,
            |op: WalkOp| op.next_access(),
            |access: ListAccess, reply: ListReply| list_fits(access, reply),
            |op: WalkOp, reply: ListReply| op.after(reply),
        );
        walk_ends_at_the_end(ops.drop_last(), before);
        assert(before.len() > 0 ==> back(log, 2) == before.last());
        assert(walks_rightly(log));
        assert forall|i: int| 0 < i <= log.len() implies #[trigger] walks_rightly(log.take(i)) by {
            if i < log.len() {
                assert(log.take(i) =~= before.take(i));
            } else {
                assert(log.take(i) =~= log);
            }
        }
    }
}

/// A reply that does not belong to the access leaves a call where it is, and one that has ended
/// stays so whatever comes.
pub proof fn stray_replies_do_nothing(
    insertion: InsertOp,
    deletion: DeleteOp,
    search: ContainsOp,
    walk: WalkOp,
    reply: ListReply,
)
    ensures
        insertion is Done || !list_fits(insertion.next_access(), reply) ==> insertion.after(reply)
            == insertion,
        deletion is Done || !list_fits(deletion.next_access(), reply) ==> deletion.after(reply)
            == deletion,
        search is Done || !list_fits(search.next_access(), reply) ==> search.after(reply) == search,
        walk is Done || !list_fits(walk.next_access(), reply) ==> walk.after(reply) == walk,
{
}

} // verus!
