//! What one call of a writer does, whatever other threads do meanwhile.

use crate::execution::{call_so_far, is_call};
use crate::rcu::{WriteAccess, WriteOp, WriteReply};
use vstd::prelude::*;

verus! {

/// Whether an access can give back a reply.
pub open spec fn write_fits(access: WriteAccess, reply: WriteReply) -> bool {
    match access {
        WriteAccess::LockWriters => reply is Ack || reply is Pending,
        WriteAccess::LoadReaders => reply is Readers,
        _ => reply is Ack,
    }
}

/// How often a call made an access, and was not told to wait.
pub open spec fn made(log: Seq<(WriteAccess, WriteReply)>, access: WriteAccess) -> nat
    decreases log.len(),
{
    if log.len() == 0 {
        0
    } else {
        made(log.drop_last(), access) + (if log.last().0 == access && log.last().1 is Ack {
            1nat
        } else {
            0
        })
    }
}

/// One call of [`WriteOp`].
pub open spec fn is_write(ops: Seq<WriteOp>, log: Seq<(WriteAccess, WriteReply)>) -> bool {
    is_call(
        ops,
        log,
        WriteOp::LockWriters,
        |op: WriteOp| op.next_access(),
        |access: WriteAccess, reply: WriteReply| write_fits(access, reply),
        |op: WriteOp, reply: WriteReply| op.after(reply),
    )
}

/// Whether a writer heeds the readers in one access: it puts its copy in place only right after it
/// saw that none is counted, and lets other threads run right after it saw that one is.
pub open spec fn heeds_readers(log: Seq<(WriteAccess, WriteReply)>, i: int) -> bool {
    &&& log[i].0 is Install ==> i > 0 && log[i - 1] == (
        WriteAccess::LoadReaders,
        WriteReply::Readers { count: 0 },
    )
    &&& i > 0 && log[i - 1].0 is LoadReaders && log[i - 1].1->count > 0 ==> log[i].0 is YieldNow
}

/// How many of its five deeds a writer has done.
spec fn deeds(op: WriteOp) -> nat {
    match op {
        WriteOp::LockWriters => 0,
        WriteOp::Copy => 1,
        WriteOp::Update => 2,
        WriteOp::UnlockWriters => 4,
        WriteOp::Done => 5,
        _ => 3,
    }
}

/// What a writer has done so far, by where it stands.
proof fn deeds_are_counted(ops: Seq<WriteOp>, log: Seq<(WriteAccess, WriteReply)>)
    requires
        is_write(ops, log),
    ensures
        made(log, WriteAccess::LockWriters) == (if deeds(ops.last()) >= 1 {
            1nat
        } else {
            0
        }),
        made(log, WriteAccess::Copy) == (if deeds(ops.last()) >= 2 {
            1nat
        } else {
            0
        }),
        made(log, WriteAccess::Update) == (if deeds(ops.last()) >= 3 {
            1nat
        } else {
            0
        }),
        made(log, WriteAccess::Install) == (if deeds(ops.last()) >= 4 {
            1nat
        } else {
            0
        }),
        made(log, WriteAccess::UnlockWriters) == (if deeds(ops.last()) >= 5 {
            1nat
        } else {
            0
        }),
    decreases log.len(),
{
    if log.len() > 0 {
        call_so_far(
            ops,
            log,
            WriteOp::LockWriters,
            |op: WriteOp| op.next_access(),
            |access: WriteAccess, reply: WriteReply| write_fits(access, reply),
            |op: WriteOp, reply: WriteReply| op.after(reply),
        );
        deeds_are_counted(ops.drop_last(), log.drop_last());
    }
}

/// What a writer does next to each other.
proof fn neighbours_fit(ops: Seq<WriteOp>, log: Seq<(WriteAccess, WriteReply)>)
    requires
        is_write(ops, log),
    ensures
        forall|i: int| 0 <= i < log.len() ==> #[trigger] heeds_readers(log, i),
        ops.last() is Install ==> log.len() > 0 && log.last() == (
            WriteAccess::LoadReaders,
            WriteReply::Readers { count: 0 },
        ),
        log.len() > 0 && log.last().0 is LoadReaders && log.last().1->count > 0 ==> ops.last()
            is Yield,
    decreases log.len(),
{
    if log.len() > 0 {
        let before = log.drop_last();
        let k = log.len() - 1;
        call_so_far(
            ops,
            log,
            WriteOp::LockWriters,
            |op: WriteOp| op.next_access(),
            |access: WriteAccess, reply: WriteReply| write_fits(access, reply),
            |op: WriteOp, reply: WriteReply| op.after(reply),
        );
        neighbours_fit(ops.drop_last(), before);
        assert forall|i: int| 0 <= i < log.len() implies #[trigger] heeds_readers(log, i) by {
            if i < k {
                assert(heeds_readers(before, i));
            } else {
                assert(k > 0 ==> before.last() == log[k - 1]);
            }
        }
    }
}

/// A writer waits for its turn, takes one copy, changes it once, puts it in place once, right after
/// it saw that no reader is counted, and gives its turn away, in that order; it has ended exactly
/// when it has done all of that.
pub proof fn write_goes_in_order(ops: Seq<WriteOp>, log: Seq<(WriteAccess, WriteReply)>)
    requires
        is_write(ops, log),
    ensures
        ops.last() is Done <==> made(log, WriteAccess::UnlockWriters) == 1,
        made(log, WriteAccess::UnlockWriters) <= made(log, WriteAccess::Install) <= made(
            log,
            WriteAccess::Update,
        ) <= made(log, WriteAccess::Copy) <= made(log, WriteAccess::LockWriters) <= 1,
        forall|i: int| 0 <= i < log.len() ==> #[trigger] heeds_readers(log, i),
        ops.last() is LockWriters <==> made(log, WriteAccess::LockWriters) == 0,
        ops.last() is Copy <==> made(log, WriteAccess::LockWriters) == 1 && made(
            log,
            WriteAccess::Copy,
        ) == 0,
        ops.last() is Update <==> made(log, WriteAccess::Copy) == 1 && made(
            log,
            WriteAccess::Update,
        ) == 0,
        ops.last() is AwaitReaders || ops.last() is Yield || ops.last() is Install <==> made(
            log,
            WriteAccess::Update,
        ) == 1 && made(log, WriteAccess::Install) == 0,
        ops.last() is UnlockWriters <==> made(log, WriteAccess::Install) == 1 && made(
            log,
            WriteAccess::UnlockWriters,
        ) == 0,
{
    deeds_are_counted(ops, log);
    neighbours_fit(ops, log);
}

/// A reply that does not belong to the access leaves a writer where it is, and so does one that
/// tells it to wait; a writer that has ended stays so whatever comes.
pub proof fn stray_replies_do_nothing(op: WriteOp, reply: WriteReply)
    ensures
        op is Done || reply is Pending || !write_fits(op.next_access(), reply) ==> op.after(reply)
            == op,
{
}

} // verus!
