//! Executions of a system of threads, seen as sequences of states, and what a sequence of changes
//! makes of a value.

use vstd::prelude::*;

verus! {

/// A nonempty sequence of states that starts in an initial one and in which each state follows
/// from the one before it by one step of some thread.
pub open spec fn is_execution<S>(
    states: Seq<S>,
    init: spec_fn(S) -> bool,
    next: spec_fn(S, S) -> bool,
) -> bool {
    &&& states.len() > 0
    &&& init(states[0])
    &&& forall|i: int| 0 < i < states.len() ==> next(states[i - 1], #[trigger] states[i])
}

/// What holds at the start and is kept by every step holds in every state of an execution.
pub proof fn invariant_holds_throughout<S>(
    states: Seq<S>,
    init: spec_fn(S) -> bool,
    next: spec_fn(S, S) -> bool,
    inv: spec_fn(S) -> bool,
    i: int,
)
    requires
        is_execution(states, init, next),
        forall|s: S| #[trigger] init(s) ==> inv(s),
        forall|s: S, t: S| inv(s) && #[trigger] next(s, t) ==> inv(t),
        0 <= i < states.len(),
    ensures
        inv(states[i]),
    decreases i,
{
    if i == 0 {
        assert(init(states[0]));
    } else {
        invariant_holds_throughout(states, init, next, inv, i - 1);
        assert(next(states[i - 1], states[i]));
    }
}

/// One call of an operation, seen from its thread alone: where it stands before and after each
/// access, and what each access was and gave back. What is given back is up to the memory and to
/// the other threads; it only has to fit the access.
pub open spec fn is_call<O, A, R>(
    ops: Seq<O>,
    log: Seq<(A, R)>,
    start: O,
    access: spec_fn(O) -> A,
    fits: spec_fn(A, R) -> bool,
    after: spec_fn(O, R) -> O,
) -> bool {
    &&& ops.len() == log.len() + 1
    &&& ops[0] == start
    &&& forall|i: int|
        0 <= i < log.len() ==> {
            &&& (#[trigger] log[i]).0 == access(ops[i])
            &&& fits(log[i].0, log[i].1)
            &&& ops[i + 1] == after(ops[i], log[i].1)
        }
}

/// A call without its last access.
pub proof fn call_so_far<O, A, R>(
    ops: Seq<O>,
    log: Seq<(A, R)>,
    start: O,
    access: spec_fn(O) -> A,
    fits: spec_fn(A, R) -> bool,
    after: spec_fn(O, R) -> O,
)
    requires
        is_call(ops, log, start, access, fits, after),
        log.len() > 0,
    ensures
        is_call(ops.drop_last(), log.drop_last(), start, access, fits, after),
        log.last().0 == access(ops.drop_last().last()),
        fits(log.last().0, log.last().1),
        ops.last() == after(ops.drop_last().last(), log.last().1),
        forall|i: int| 0 <= i < log.len() - 1 ==> #[trigger] log.drop_last()[i] == log[i],
{
    let k = log.len() - 1;
    assert(log[k].0 == access(ops[k]));
    assert forall|i: int| 0 <= i < log.drop_last().len() implies {
        &&& (#[trigger] log.drop_last()[i]).0 == access(ops.drop_last()[i])
        &&& fits(log.drop_last()[i].0, log.drop_last()[i].1)
        &&& ops.drop_last()[i + 1] == after(ops.drop_last()[i], log.drop_last()[i].1)
    } by {
        assert(log[i].0 == access(ops[i]));
    }
}

/// The value after some changes, one after the other.
pub open spec fn apply_all<T>(initial: T, updates: Seq<spec_fn(T) -> T>) -> T
    decreases updates.len(),
{
    if updates.len() == 0 {
        initial
    } else {
        updates.last()(apply_all(initial, updates.drop_last()))
    }
}

} // verus!
