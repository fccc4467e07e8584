//! What one call on a semaphore does to its permits, whatever other threads do meanwhile, and what
//! it comes to when no other thread does anything.

use crate::execution::{call_so_far, is_call};
use crate::semaphore::{
    CondWaitOp, SemAccess, SemReply, SemView, SignalOp, SimpleWaitOp, SpinWaitOp,
};
use vstd::prelude::*;

verus! {

/// Whether an access can give back a reply.
pub open spec fn sem_fits(access: SemAccess, reply: SemReply) -> bool {
    match access {
        SemAccess::Load => reply is Value,
        SemAccess::CompareExchange { .. } => reply is Swapped || reply is Failed,
        SemAccess::Lock => reply is Ack || reply is Pending,
        SemAccess::Relock => reply is Ack || reply is Pending,
        _ => reply is Ack,
    }
}

/// By how much an access that was made changed the number of permits.
pub open spec fn change(access: SemAccess, reply: SemReply) -> int {
    match access {
        SemAccess::CompareExchange { expected, new } => if reply is Swapped {
            new - expected
        } else {
            0
        },
        SemAccess::Subtract => -1,
        SemAccess::Increment => 1,
        _ => 0,
    }
}

/// By how much the accesses of a call changed the number of permits, taken together.
pub open spec fn balance(log: Seq<(SemAccess, SemReply)>) -> int
    decreases log.len(),
{
    if log.len() == 0 {
        0
    } else {
        balance(log.drop_last()) + change(log.last().0, log.last().1)
    }
}

/// How many accesses of a call changed the number of permits.
pub open spec fn changes(log: Seq<(SemAccess, SemReply)>) -> nat
    decreases log.len(),
{
    if log.len() == 0 {
        0
    } else {
        changes(log.drop_last()) + (if change(log.last().0, log.last().1) != 0 {
            1nat
        } else {
            0
        })
    }
}

/// How often a call woke a sleeping thread.
pub open spec fn wakes(log: Seq<(SemAccess, SemReply)>) -> nat
    decreases log.len(),
{
    if log.len() == 0 {
        0
    } else {
        wakes(log.drop_last()) + (if log.last().0 is NotifyOne {
            1nat
        } else {
            0
        })
    }
}

/// Whether the thread has the mutex after some accesses of a call.
pub open spec fn has_locked_mutex(log: Seq<(SemAccess, SemReply)>) -> bool
    decreases log.len(),
{
    if log.len() == 0 {
        false
    } else {
        match log.last().0 {
            SemAccess::Lock => log.last().1 is Ack,
            SemAccess::Relock => log.last().1 is Ack,
            SemAccess::Unlock => false,
            SemAccess::Sleep => false,
            _ => has_locked_mutex(log.drop_last()),
        }
    }
}

/// Whether permits change and threads go to sleep only under the mutex.
pub open spec fn works_under_mutex(log: Seq<(SemAccess, SemReply)>) -> bool {
    forall|i: int|
        0 <= i < log.len() && (change((#[trigger] log[i]).0, log[i].1) != 0 || log[i].0 is Sleep)
            ==> has_locked_mutex(log.take(i))
}

/// Whether a thread takes a permit only right after it saw one, and sleeps only right after it saw
/// none.
pub open spec fn goes_by_the_count(log: Seq<(SemAccess, SemReply)>) -> bool {
    forall|i: int|
        0 <= i < log.len() ==> match (#[trigger] log[i]).0 {
            SemAccess::CompareExchange { expected, .. } => i > 0 && expected > 0 && log[i - 1] == (
                SemAccess::Load,
                SemReply::Value { value: expected },
            ),
            SemAccess::Subtract => i > 0 && log[i - 1].0 is Load && log[i - 1].1->value > 0,
            SemAccess::Sleep => i > 0 && log[i - 1] == (
                SemAccess::Load,
                SemReply::Value { value: 0 },
            ),
            _ => true,
        }
}

/// One call of [`SpinWaitOp`].
pub open spec fn is_spin_wait(ops: Seq<SpinWaitOp>, log: Seq<(SemAccess, SemReply)>) -> bool {
    is_call(
        ops,
        log,
        SpinWaitOp::Load,
        |op: SpinWaitOp| op.next_access(),
        |access: SemAccess, reply: SemReply| sem_fits(access, reply),
        |op: SpinWaitOp, reply: SemReply| op.after(reply),
    )
}

/// One call of [`CondWaitOp`].
pub open spec fn is_cond_wait(ops: Seq<CondWaitOp>, log: Seq<(SemAccess, SemReply)>) -> bool {
    is_call(
        ops,
        log,
        CondWaitOp::Lock,
        |op: CondWaitOp| op.next_access(),
        |access: SemAccess, reply: SemReply| sem_fits(access, reply),
        |op: CondWaitOp, reply: SemReply| op.after(reply),
    )
}

/// One call of [`SimpleWaitOp`].
pub open spec fn is_simple_wait(ops: Seq<SimpleWaitOp>, log: Seq<(SemAccess, SemReply)>) -> bool {
    is_call(
        ops,
        log,
        SimpleWaitOp::Lock,
        |op: SimpleWaitOp| op.next_access(),
        |access: SemAccess, reply: SemReply| sem_fits(access, reply),
        |op: SimpleWaitOp, reply: SemReply| op.after(reply),
    )
}

/// One call of [`SignalOp`].
pub open spec fn is_signal(ops: Seq<SignalOp>, log: Seq<(SemAccess, SemReply)>) -> bool {
    is_call(
        ops,
        log,
        SignalOp::Lock,
        |op: SignalOp| op.next_access(),
        |access: SemAccess, reply: SemReply| sem_fits(access, reply),
        |op: SignalOp, reply: SemReply| op.after(reply),
    )
}

/// What holds of a longer log if it held of a shorter one.
proof fn log_grows(log: Seq<(SemAccess, SemReply)>)
    requires
        log.len() > 0,
    ensures
        works_under_mutex(log) <==> works_under_mutex(log.drop_last()) && (change(
            log.last().0,
            log.last().1,
        ) != 0 || log.last().0 is Sleep ==> has_locked_mutex(log.drop_last())),
        goes_by_the_count(log) ==> goes_by_the_count(log.drop_last()),
{
    let before = log.drop_last();
    let k = log.len() - 1;
    assert(log.take(k) =~= before);
    assert forall|i: int| 0 <= i < k implies #[trigger] before[i] == log[i] && before.take(i)
        =~= log.take(i) by {}
    if works_under_mutex(log) {
        assert(change(log[k].0, log[k].1) != 0 || log[k].0 is Sleep ==> has_locked_mutex(
            log.take(k),
        ));
        assert forall|i: int|
            0 <= i < before.len() && (change((#[trigger] before[i]).0, before[i].1) != 0
                || before[i].0 is Sleep) implies has_locked_mutex(before.take(i)) by {
            assert(log[i] == before[i]);
        }
    }
    if works_under_mutex(before) && (change(log.last().0, log.last().1) != 0 || log.last().0
        is Sleep ==> has_locked_mutex(before)) {
        assert forall|i: int|
            0 <= i < log.len() && (change((#[trigger] log[i]).0, log[i].1) != 0 || log[i].0
                is Sleep) implies has_locked_mutex(log.take(i)) by {
            if i < k {
                assert(before[i] == log[i]);
            }
        }
    }
    if goes_by_the_count(log) {
        assert forall|i: int| 0 <= i < before.len() implies match (#[trigger] before[i]).0 {
            SemAccess::CompareExchange { expected, .. } => i > 0 && expected > 0 && before[i - 1]
                == (SemAccess::Load, SemReply::Value { value: expected }),
            SemAccess::Subtract => i > 0 && before[i - 1].0 is Load && before[i - 1].1->value > 0,
            SemAccess::Sleep => i > 0 && before[i - 1] == (
                SemAccess::Load,
                SemReply::Value { value: 0 },
            ),
            _ => true,
        } by {
            assert(log[i] == before[i]);
            assert(i > 0 ==> before[i - 1] == log[i - 1]);
        }
    }
}

/// A thread that waits by spinning takes one permit, by one exchange of a count that it has just
/// read for the number below it, and has got through exactly when it has done so.
pub proof fn spin_wait_takes_one_permit(
    ops: Seq<SpinWaitOp>,
    log: Seq<(SemAccess, SemReply)>,
)
    requires
        is_spin_wait(ops, log),
    ensures
        ops.last() is Acquired <==> balance(log) == -1,
        ops.last() is Acquired <==> changes(log) == 1,
        ops.last() !is Acquired ==> balance(log) == 0 && changes(log) == 0,
        goes_by_the_count(log),
        ops.last() matches SpinWaitOp::Exchange { current } ==> log.len() > 0 && current > 0
            && log.last() == (SemAccess::Load, SemReply::Value { value: current }),
    decreases log.len(),
{
    if log.len() > 0 {
        call_so_far(
            ops,
            log,
            SpinWaitOp::Load,
            |op: SpinWaitOp| op.next_access(),
            |access: SemAccess, reply: SemReply| sem_fits(access, reply),
            |op: SpinWaitOp, reply: SemReply| op.after(reply),
        );
        spin_wait_takes_one_permit(ops.drop_last(), log.drop_last());
        assert forall|i: int| 0 <= i < log.len() - 1 implies log.drop_last()[i]
            == #[trigger] log[i] by {}
    }
}

/// A thread that waits, asleep in between, takes one permit, by one exchange of a count that it
/// has just read for the number below it, and has got through exactly when it has done so and has
/// let go of the mutex. It sleeps only when it has just seen that there is no permit.
pub proof fn cond_wait_takes_one_permit(
    ops: Seq<CondWaitOp>,
    log: Seq<(SemAccess, SemReply)>,
)
    requires
        is_cond_wait(ops, log),
    ensures
        ops.last() is Acquired <==> changes(log) == 1 && !has_locked_mutex(log),
        ops.last() is Acquired ==> balance(log) == -1,
        balance(log) == -changes(log),
        changes(log) <= 1,
        goes_by_the_count(log),
        works_under_mutex(log),
        changes(log) == 1 <==> ops.last() is Unlock || ops.last() is Acquired,
        has_locked_mutex(log) <==> ops.last() is Load || ops.last() is Exchange || ops.last()
            is Sleep || ops.last() is Unlock,
        ops.last() matches CondWaitOp::Exchange { current } ==> log.len() > 0 && current > 0
            && log.last() == (SemAccess::Load, SemReply::Value { value: current }),
        ops.last() is Sleep ==> log.len() > 0 && log.last() == (
            SemAccess::Load,
            SemReply::Value { value: 0 },
        ),
    decreases log.len(),
{
    if log.len() > 0 {
        call_so_far(
            ops,
            log,
            CondWaitOp::Lock,
            |op: CondWaitOp| op.next_access(),
            |access: SemAccess, reply: SemReply| sem_fits(access, reply),
            |op: CondWaitOp, reply: SemReply| op.after(reply),
        );
        cond_wait_takes_one_permit(ops.drop_last(), log.drop_last());
        log_grows(log);
        assert forall|i: int| 0 <= i < log.len() - 1 implies log.drop_last()[i]
            == #[trigger] log[i] by {}
    }
}

/// A thread that waits without an exchange takes one permit, by one subtraction right after it saw
/// that there is one, and has got through exactly when it has done so and has let go of the mutex.
/// It sleeps only when it has just seen that there is no permit.
pub proof fn simple_wait_takes_one_permit(
    ops: Seq<SimpleWaitOp>,
    log: Seq<(SemAccess, SemReply)>,
)
    requires
        is_simple_wait(ops, log),
    ensures
        ops.last() is Acquired <==> changes(log) == 1 && !has_locked_mutex(log),
        ops.last() is Acquired ==> balance(log) == -1,
        balance(log) == -changes(log),
        changes(log) <= 1,
        goes_by_the_count(log),
        works_under_mutex(log),
        changes(log) == 1 <==> ops.last() is Unlock || ops.last() is Acquired,
        has_locked_mutex(log) <==> ops.last() is Load || ops.last() is Subtract || ops.last()
            is Sleep || ops.last() is Unlock,
        ops.last() is Subtract ==> log.len() > 0 && log.last().0 is Load && log.last().1->value > 0,
        ops.last() is Sleep ==> log.len() > 0 && log.last() == (
            SemAccess::Load,
            SemReply::Value { value: 0 },
        ),
    decreases log.len(),
{
    if log.len() > 0 {
        call_so_far(
            ops,
            log,
            SimpleWaitOp::Lock,
            |op: SimpleWaitOp| op.next_access(),
            |access: SemAccess, reply: SemReply| sem_fits(access, reply),
            |op: SimpleWaitOp, reply: SemReply| op.after(reply),
        );
        simple_wait_takes_one_permit(ops.drop_last(), log.drop_last());
        log_grows(log);
        assert forall|i: int| 0 <= i < log.len() - 1 implies log.drop_last()[i]
            == #[trigger] log[i] by {}
    }
}

/// A thread that signals adds one permit, under the mutex, and then wakes one thread; it is done
/// exactly when it has.
pub proof fn signal_adds_one_permit(ops: Seq<SignalOp>, log: Seq<(SemAccess, SemReply)>)
    requires
        is_signal(ops, log),
    ensures
        ops.last() is Done <==> wakes(log) == 1,
        ops.last() is Done ==> balance(log) == 1 && changes(log) == 1 && !has_locked_mutex(log),
        wakes(log) <= 1,
        balance(log) == changes(log),
        changes(log) <= 1,
        wakes(log) <= changes(log),
        works_under_mutex(log),
        forall|i: int|
            0 <= i < log.len() && (#[trigger] log[i]).0 is NotifyOne ==> balance(log.take(i)) == 1
                && !has_locked_mutex(log.take(i)),
        changes(log) == 1 <==> ops.last() is Unlock || ops.last() is Notify || ops.last() is Done,
        has_locked_mutex(log) <==> ops.last() is Increment || ops.last() is Unlock,
    decreases log.len(),
{
    if log.len() > 0 {
        let before = log.drop_last();
        call_so_far(
            ops,
            log,
            SignalOp::Lock,
            |op: SignalOp| op.next_access(),
            |access: SemAccess, reply: SemReply| sem_fits(access, reply),
            |op: SignalOp, reply: SemReply| op.after(reply),
        );
        signal_adds_one_permit(ops.drop_last(), before);
        log_grows(log);
        assert forall|i: int|
            0 <= i < log.len() && (#[trigger] log[i]).0 is NotifyOne implies balance(log.take(i))
            == 1 && !has_locked_mutex(log.take(i)) by {
            if i < before.len() {
                assert(before[i] == log[i]);
                assert(before.take(i) =~= log.take(i));
            } else {
                assert(log.take(i) =~= before);
            }
        }
    }
}

/// The memory and a spinning thread after some steps of that thread alone.
pub open spec fn spin_alone(memory: SemView, op: SpinWaitOp, steps: nat) -> (SemView, SpinWaitOp)
    decreases steps,
{
    if steps == 0 {
        (memory, op)
    } else {
        let access = op.next_access();
        spin_alone(memory.effect(access), op.after(memory.reply(access)), (steps - 1) as nat)
    }
}

/// The memory and a waiting thread after some steps of that thread alone.
pub open spec fn cond_alone(memory: SemView, op: CondWaitOp, steps: nat) -> (SemView, CondWaitOp)
    decreases steps,
{
    if steps == 0 {
        (memory, op)
    } else {
        let access = op.next_access();
        cond_alone(memory.effect(access), op.after(memory.reply(access)), (steps - 1) as nat)
    }
}

/// The memory and a thread that waits without an exchange after some steps of that thread alone.
pub open spec fn simple_alone(
    memory: SemView,
    op: SimpleWaitOp,
    steps: nat,
) -> (SemView, SimpleWaitOp)
    decreases steps,
{
    if steps == 0 {
        (memory, op)
    } else {
        let access = op.next_access();
        simple_alone(memory.effect(access), op.after(memory.reply(access)), (steps - 1) as nat)
    }
}

/// The memory and a thread that signals after some steps of that thread alone.
pub open spec fn signal_alone(memory: SemView, op: SignalOp, steps: nat) -> (SemView, SignalOp)
    decreases steps,
{
    if steps == 0 {
        (memory, op)
    } else {
        let access = op.next_access();
        signal_alone(memory.effect(access), op.after(memory.reply(access)), (steps - 1) as nat)
    }
}

/// A thread that waits alone gets through where there is a permit, and leaves one permit less.
pub proof fn waiting_alone_takes_a_permit(memory: SemView)
    requires
        memory.value > 0,
    ensures
        exists|n: nat|
            {
                let end = #[trigger] spin_alone(memory, SpinWaitOp::Load, n);
                &&& end.1 is Acquired
                &&& end.0.value == memory.value - 1
                &&& end.0.locked == memory.locked
            },
        !memory.locked ==> exists|n: nat|
            {
                let end = #[trigger] cond_alone(memory, CondWaitOp::Lock, n);
                &&& end.1 is Acquired
                &&& end.0.value == memory.value - 1
                &&& !end.0.locked
            },
        !memory.locked ==> exists|n: nat|
            {
                let end = #[trigger] simple_alone(memory, SimpleWaitOp::Lock, n);
                &&& end.1 is Acquired
                &&& end.0.value == memory.value - 1
                &&& !end.0.locked
            },
{
    reveal_with_fuel(spin_alone, 3);
    reveal_with_fuel(cond_alone, 5);
    reveal_with_fuel(simple_alone, 5);
    let spun = spin_alone(memory, SpinWaitOp::Load, 2);
    assert(spun.1 is Acquired);
    if !memory.locked {
        let waited = cond_alone(memory, CondWaitOp::Lock, 4);
        assert(waited.1 is Acquired);
        let simply = simple_alone(memory, SimpleWaitOp::Lock, 4);
        assert(simply.1 is Acquired);
    }
}

/// A thread that waits alone does not get through where there is no permit, and changes nothing of
/// the count.
pub proof fn waiting_alone_blocks_without_permit(memory: SemView, n: nat)
    requires
        memory.value == 0,
    ensures
        spin_alone(memory, SpinWaitOp::Load, n) == (memory, SpinWaitOp::Load),
        cond_alone(memory, CondWaitOp::Lock, n).1 !is Acquired,
        cond_alone(memory, CondWaitOp::Lock, n).0.value == 0,
        simple_alone(memory, SimpleWaitOp::Lock, n).1 !is Acquired,
        simple_alone(memory, SimpleWaitOp::Lock, n).0.value == 0,
    decreases n,
{
    if n > 0 {
        waiting_alone_blocks_without_permit(memory, (n - 1) as nat);
    }
    cond_wait_blocks(memory, CondWaitOp::Lock, n);
    simple_wait_blocks(memory, SimpleWaitOp::Lock, n);
}

proof fn cond_wait_blocks(memory: SemView, op: CondWaitOp, n: nat)
    requires
        memory.value == 0,
        op is Lock || op is Load || op is Sleep || op is Asleep,
    ensures
        cond_alone(memory, op, n).1 !is Acquired,
        cond_alone(memory, op, n).0.value == 0,
    decreases n,
{
    if n > 0 {
        let access = op.next_access();
        cond_wait_blocks(memory.effect(access), op.after(memory.reply(access)), (n - 1) as nat);
    }
}

proof fn simple_wait_blocks(memory: SemView, op: SimpleWaitOp, n: nat)
    requires
        memory.value == 0,
        op is Lock || op is Load || op is Sleep || op is Asleep,
    ensures
        simple_alone(memory, op, n).1 !is Acquired,
        simple_alone(memory, op, n).0.value == 0,
    decreases n,
{
    if n > 0 {
        let access = op.next_access();
        simple_wait_blocks(memory.effect(access), op.after(memory.reply(access)), (n - 1) as nat);
    }
}

/// A thread that waits alone where there is no permit comes to sleep without the mutex, so that
/// others can add one; and when one was added, it gets through from there.
pub proof fn waiting_alone_sleeps_until_there_is_a_permit(memory: SemView, later: SemView)
    requires
        memory.value == 0,
        !memory.locked,
        later.value > 0,
        !later.locked,
    ensures
        exists|n: nat|
            {
                let end = #[trigger] cond_alone(memory, CondWaitOp::Lock, n);
                &&& end.1 is Asleep
                &&& !end.0.locked
                &&& exists|m: nat|
                    {
                        let through = #[trigger] cond_alone(later, end.1, m);
                        &&& through.1 is Acquired
                        &&& through.0.value == later.value - 1
                        &&& !through.0.locked
                    }
            },
        exists|n: nat|
            {
                let end = #[trigger] simple_alone(memory, SimpleWaitOp::Lock, n);
                &&& end.1 is Asleep
                &&& !end.0.locked
                &&& exists|m: nat|
                    {
                        let through = #[trigger] simple_alone(later, end.1, m);
                        &&& through.1 is Acquired
                        &&& through.0.value == later.value - 1
                        &&& !through.0.locked
                    }
            },
{
    reveal_with_fuel(cond_alone, 5);
    reveal_with_fuel(simple_alone, 5);
    let waited = cond_alone(memory, CondWaitOp::Lock, 3);
    assert(waited.1 is Asleep);
    let through = cond_alone(later, waited.1, 4);
    assert(through.1 is Acquired);
    let simply = simple_alone(memory, SimpleWaitOp::Lock, 3);
    assert(simply.1 is Asleep);
    let simply_through = simple_alone(later, simply.1, 4);
    assert(simply_through.1 is Acquired);
}

/// A thread that signals alone leaves one permit more, modulo the size of the count.
pub proof fn signalling_alone_adds_a_permit(memory: SemView)
    requires
        !memory.locked,
    ensures
        exists|n: nat|
            {
                let end = #[trigger] signal_alone(memory, SignalOp::Lock, n);
                &&& end.1 is Done
                &&& end.0.value == (memory.value + 1) % 256
                &&& !end.0.locked
            },
{
    reveal_with_fuel(signal_alone, 5);
    let end = signal_alone(memory, SignalOp::Lock, 4);
    assert(end.1 is Done);
}

/// The count holds what was last written to it; adding and subtracting wrap around. An exchange is
/// made exactly if the count is the expected one.
pub proof fn count_holds_what_was_written(memory: SemView, expected: u8, new: u8)
    ensures
        memory.reply(SemAccess::Load) == (SemReply::Value { value: memory.value }),
        memory.effect(SemAccess::Load) == memory,
        memory.effect(SemAccess::Increment).value == (memory.value + 1) % 256,
        memory.effect(SemAccess::Subtract).value == (memory.value + 255) % 256,
        memory.effect(SemAccess::Increment).locked == memory.locked,
        memory.effect(SemAccess::Subtract).locked == memory.locked,
        memory.effect(SemAccess::Increment).effect(SemAccess::Subtract) == memory,
        memory.effect(SemAccess::NotifyOne) == memory,
        memory.effect(SemAccess::Finished) == memory,
        ({
            let exchange = SemAccess::CompareExchange { expected, new };
            &&& memory.value == expected ==> memory.reply(exchange) == SemReply::Swapped
                && memory.effect(exchange) == (SemView { value: new, locked: memory.locked })
            &&& memory.value != expected ==> memory.reply(exchange) == SemReply::Failed
                && memory.effect(exchange) == memory
        }),
{
}

/// The mutex is had by one thread at a time: one that asks for it while another has it waits, and
/// one that lets go of it or goes to sleep leaves it free. None of that changes the count.
pub proof fn mutex_is_had_by_one(memory: SemView)
    ensures
        memory.reply(SemAccess::Lock) == if memory.locked {
            SemReply::Pending
        } else {
            SemReply::Ack
        },
        memory.reply(SemAccess::Relock) == memory.reply(SemAccess::Lock),
        memory.effect(SemAccess::Lock) == (SemView { value: memory.value, locked: true }),
        memory.effect(SemAccess::Relock) == (SemView { value: memory.value, locked: true }),
        memory.effect(SemAccess::Unlock) == (SemView { value: memory.value, locked: false }),
        memory.effect(SemAccess::Sleep) == (SemView { value: memory.value, locked: false }),
{
}

/// A reply that does not belong to the access leaves a call where it is, and so does one that tells
/// it to wait; a call that has ended stays so whatever comes.
pub proof fn stray_replies_do_nothing(
    spin: SpinWaitOp,
    cond: CondWaitOp,
    simple: SimpleWaitOp,
    signal: SignalOp,
    reply: SemReply,
)
    ensures
        spin is Acquired || reply is Pending || !sem_fits(spin.next_access(), reply) ==> spin.after(
            reply,
        ) == spin,
        cond is Acquired || reply is Pending || !sem_fits(cond.next_access(), reply) ==> cond.after(
            reply,
        ) == cond,
        simple is Acquired || reply is Pending || !sem_fits(simple.next_access(), reply)
            ==> simple.after(reply) == simple,
        signal is Done || reply is Pending || !sem_fits(signal.next_access(), reply)
            ==> signal.after(reply) == signal,
{
}

/// Whether an access takes the mutex rightly: for the first time at the beginning, and again only
/// after the thread has slept, in both cases until it gets it.
pub open spec fn locks_rightly(log: Seq<(SemAccess, SemReply)>, i: int) -> bool {
    &&& log[i].0 is Lock <==> i == 0 || log[i - 1] == (SemAccess::Lock, SemReply::Pending)
    &&& log[i].0 is Relock <==> i > 0 && (log[i - 1].0 is Sleep || log[i - 1] == (
        SemAccess::Relock,
        SemReply::Pending,
    ))
}

/// A thread that waits asks for the mutex at the beginning, and again when it has slept and never
/// otherwise.
pub proof fn cond_wait_takes_the_mutex_again(
    ops: Seq<CondWaitOp>,
    log: Seq<(SemAccess, SemReply)>,
)
    requires
        is_cond_wait(ops, log),
    ensures
        forall|i: int| 0 <= i < log.len() ==> #[trigger] locks_rightly(log, i),
        ops.last() is Lock <==> log.len() == 0 || log.last() == (
            SemAccess::Lock,
            SemReply::Pending,
        ),
        ops.last() is Asleep <==> log.len() > 0 && (log.last().0 is Sleep || log.last() == (
            SemAccess::Relock,
            SemReply::Pending,
        )),
    decreases log.len(),
{
    if log.len() > 0 {
        let before = log.drop_last();
        let k = log.len() - 1;
        call_so_far(
            ops,
            log,
            CondWaitOp::Lock,
            |op: CondWaitOp| op.next_access(),
            |access: SemAccess, reply: SemReply| sem_fits(access, reply),
            |op: CondWaitOp, reply: SemReply| op.after(reply),
        );
        cond_wait_takes_the_mutex_again(ops.drop_last(), before);
        assert forall|i: int| 0 <= i < log.len() implies #[trigger] locks_rightly(log, i) by {
            if i < k {
                assert(locks_rightly(before, i));
            } else {
                assert(k > 0 ==> before.last() == log[k - 1]);
            }
        }
    }
}

/// The same of a thread that waits without an exchange.
pub proof fn simple_wait_takes_the_mutex_again(
    ops: Seq<SimpleWaitOp>,
    log: Seq<(SemAccess, SemReply)>,
)
    requires
        is_simple_wait(ops, log),
    ensures
        forall|i: int| 0 <= i < log.len() ==> #[trigger] locks_rightly(log, i),
        ops.last() is Lock <==> log.len() == 0 || log.last() == (
            SemAccess::Lock,
            SemReply::Pending,
        ),
        ops.last() is Asleep <==> log.len() > 0 && (log.last().0 is Sleep || log.last() == (
            SemAccess::Relock,
            SemReply::Pending,
        )),
    decreases log.len(),
{
    if log.len() > 0 {
        let before = log.drop_last();
        let k = log.len() - 1;
        call_so_far(
            ops,
            log,
            SimpleWaitOp::Lock,
            |op: SimpleWaitOp| op.next_access(),
            |access: SemAccess, reply: SemReply| sem_fits(access, reply),
            |op: SimpleWaitOp, reply: SemReply| op.after(reply),
        );
        simple_wait_takes_the_mutex_again(ops.drop_last(), before);
        assert forall|i: int| 0 <= i < log.len() implies #[trigger] locks_rightly(log, i) by {
            if i < k {
                assert(locks_rightly(before, i));
            } else {
                assert(k > 0 ==> before.last() == log[k - 1]);
            }
        }
    }
}

} // verus!
