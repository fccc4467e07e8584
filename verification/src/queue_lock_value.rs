//! The value behind a queue-based lock in every interleaving of threads that use it.

use crate::execution::{apply_all, is_execution};
use crate::queue_lock::LockOp;
use crate::queue_lock_steps::{start_is_in_order, step_keeps_order};
use crate::queue_lock_system::{Activity, LockSystem};
use vstd::prelude::*;

verus! {

/// What a thread does in one step.
pub enum GuardTask {
    /// A step of taking the lock or of letting go of it.
    Step,
    /// Read the value through its guard.
    Read,
    /// Write through its guard what it makes of the value that it has read.
    Write,
}

/// What is left open in a step.
#[verifier::reject_recursive_types(T)]
pub struct GuardChance<T> {
    pub task: GuardTask,
    pub fresh: usize,
    pub update: spec_fn(T) -> T,
}

/// A lock with the value behind it, and the threads that use it.
#[verifier::reject_recursive_types(T)]
pub struct GuardedSystem<T> {
    pub lock: LockSystem,
    /// The value behind the lock.
    pub value: T,
    /// What the thread with the guard has read or written.
    pub seen: Map<u64, T>,
    /// What threads have made of the value, in the order of their writes.
    pub updates: Seq<spec_fn(T) -> T>,
}

impl<T> GuardedSystem<T> {
    /// Whether a thread has a guard.
    pub open spec fn has_guard(self, t: u64) -> bool {
        self.lock.activity(t) == Activity::Locking(LockOp::Held)
    }

    /// A free lock that no thread uses.
    pub open spec fn init(self) -> bool {
        &&& self.lock.init()
        &&& self.seen == Map::<u64, T>::empty()
        &&& self.updates == Seq::<spec_fn(T) -> T>::empty()
    }

    /// Whether thread `t` can do what `chance` has it do.
    pub open spec fn can_step(self, t: u64, chance: GuardChance<T>) -> bool {
        match chance.task {
            GuardTask::Step => self.lock.can_step(t, chance.fresh),
            GuardTask::Read => self.has_guard(t),
            GuardTask::Write => self.has_guard(t) && self.seen.contains_key(t),
        }
    }

    /// The system after one step of thread `t`. A thread that lets go of its guard knows nothing
    /// of the value any more.
    pub open spec fn step(self, t: u64, chance: GuardChance<T>) -> Self {
        match chance.task {
            GuardTask::Step => GuardedSystem {
                lock: self.lock.step(t, chance.fresh),
                seen: self.seen.remove(t),
                ..self
            },
            GuardTask::Read => GuardedSystem { seen: self.seen.insert(t, self.value), ..self },
            GuardTask::Write => {
                let value = (chance.update)(self.seen[t]);
                GuardedSystem {
                    value,
                    seen: self.seen.insert(t, value),
                    updates: self.updates.push(chance.update),
                    ..self
                }
            },
        }
    }

    /// One step of some thread leads from `self` to `post`.
    pub open spec fn next(self, post: Self) -> bool {
        exists|t: u64, chance: GuardChance<T>| #[trigger]
            self.can_step(t, chance) && post == self.step(t, chance)
    }

    /// What a thread has seen is the value still, and the value is what all writes have made of
    /// the first one.
    pub open spec fn inv(self, initial: T) -> bool {
        &&& self.lock.inv()
        &&& self.value == apply_all(initial, self.updates)
        &&& forall|t: u64| #[trigger]
            self.seen.contains_key(t) ==> self.has_guard(t) && self.seen[t] == self.value
    }
}

/// Every step of every thread keeps all of that.
pub proof fn step_keeps_value<T>(
    pre: GuardedSystem<T>,
    initial: T,
    t: u64,
    chance: GuardChance<T>,
)
    requires
        pre.inv(initial),
        pre.can_step(t, chance),
    ensures
        pre.step(t, chance).inv(initial),
{
    let post = pre.step(t, chance);
    match chance.task {
        GuardTask::Step => {
            step_keeps_order(pre.lock, t, chance.fresh);
            assert forall|u: u64| #[trigger] post.seen.contains_key(u) implies post.has_guard(u)
                && post.seen[u] == post.value by {
                assert(pre.seen.contains_key(u));
                assert(post.lock.activity(u) == pre.lock.activity(u));
            }
        },
        GuardTask::Read => {},
        GuardTask::Write => {
            assert(post.updates.drop_last() == pre.updates);
            assert forall|u: u64| #[trigger] post.seen.contains_key(u) implies post.has_guard(u)
                && post.seen[u] == post.value by {
                if u != t {
                    assert(pre.seen.contains_key(u));
                    assert(pre.lock.owns(u));
                    assert(pre.lock.owns(t));
                }
            }
        },
    }
}

/// The executions of a lock with a value behind it: any number of threads make their steps in
/// any order.
pub open spec fn is_guarded_execution<T>(states: Seq<GuardedSystem<T>>) -> bool {
    is_execution(
        states,
        |s: GuardedSystem<T>| s.init(),
        |s: GuardedSystem<T>, post: GuardedSystem<T>| s.next(post),
    )
}

/// In every execution all of that holds at every moment.
pub proof fn value_holds_throughout<T>(states: Seq<GuardedSystem<T>>, i: int)
    requires
        is_guarded_execution(states),
        0 <= i < states.len(),
    ensures
        states[i].inv(states[0].value),
    decreases i,
{
    let initial = states[0].value;
    if i == 0 {
        let init = |s: GuardedSystem<T>| s.init();
        assert(init(states[0]));
        start_is_in_order(states[0].lock);
    } else {
        value_holds_throughout(states, i - 1);
        let pre = states[i - 1];
        let next = |s: GuardedSystem<T>, post: GuardedSystem<T>| s.next(post);
        assert(next(pre, states[i]));
        let (t, chance) = choose|t: u64, chance: GuardChance<T>| #[trigger]
            pre.can_step(t, chance) && states[i] == pre.step(t, chance);
        step_keeps_value(pre, initial, t, chance);
    }
}

/// One guard at a time: in no interleaving do two threads have a guard.
pub proof fn one_guard_at_a_time<T>(states: Seq<GuardedSystem<T>>, i: int, t: u64, u: u64)
    requires
        is_guarded_execution(states),
        0 <= i < states.len(),
        states[i].has_guard(t),
        states[i].has_guard(u),
    ensures
        t == u,
{
    value_holds_throughout(states, i);
    assert(states[i].lock.owns(t));
    assert(states[i].lock.owns(u));
}

/// What a thread has read through its guard stays the value for as long as it has the guard and
/// does not write itself.
pub proof fn guarded_value_stays<T>(states: Seq<GuardedSystem<T>>, i: int, t: u64)
    requires
        is_guarded_execution(states),
        0 <= i < states.len(),
        states[i].seen.contains_key(t),
    ensures
        states[i].has_guard(t),
        states[i].seen[t] == states[i].value,
{
    value_holds_throughout(states, i);
}

/// No write is lost: the value is what the writes of all threads have made of the first one, each
/// of what the one before it left.
pub proof fn no_write_is_lost<T>(states: Seq<GuardedSystem<T>>, i: int)
    requires
        is_guarded_execution(states),
        0 <= i < states.len(),
    ensures
        states[i].value == apply_all(states[0].value, states[i].updates),
{
    value_holds_throughout(states, i);
}

/// A step changes the value only where a thread has a guard.
proof fn value_stays_without_guards<T>(states: Seq<GuardedSystem<T>>, i: int, j: int)
    requires
        is_guarded_execution(states),
        0 <= i <= j < states.len(),
        forall|k: int, t: u64| i <= k < j ==> !(#[trigger] states[k].has_guard(t)),
    ensures
        states[j].value == states[i].value,
    decreases j - i,
{
    if i < j {
        value_stays_without_guards(states, i, j - 1);
        let pre = states[j - 1];
        let next = |s: GuardedSystem<T>, post: GuardedSystem<T>| s.next(post);
        assert(next(pre, states[j]));
        let (t, chance) = choose|t: u64, chance: GuardChance<T>| #[trigger]
            pre.can_step(t, chance) && states[j] == pre.step(t, chance);
        assert(!states[j - 1].has_guard(t));
    }
}

/// The first guard sees the value that the lock was made with.
pub proof fn first_guard_sees_the_first_value<T>(states: Seq<GuardedSystem<T>>, j: int)
    requires
        is_guarded_execution(states),
        0 <= j < states.len(),
        forall|k: int, t: u64| 0 <= k < j ==> !(#[trigger] states[k].has_guard(t)),
    ensures
        states[j].value == states[0].value,
{
    value_stays_without_guards(states, 0, j);
}

/// A guard sees what the previous guard left: from the moment at which a thread lets go of its
/// guard until another has one, the value stays as it is.
pub proof fn guard_sees_what_the_last_one_left<T>(
    states: Seq<GuardedSystem<T>>,
    i: int,
    j: int,
    t: u64,
)
    requires
        is_guarded_execution(states),
        0 <= i < j < states.len(),
        states[i].has_guard(t),
        !states[i + 1].has_guard(t),
        forall|k: int, u: u64| i < k < j ==> !(#[trigger] states[k].has_guard(u)),
    ensures
        states[j].value == states[i].value,
{
    let next = |s: GuardedSystem<T>, post: GuardedSystem<T>| s.next(post);
    assert(next(states[i + 1 - 1], states[i + 1]));
    let (u, chance) = choose|u: u64, chance: GuardChance<T>| #[trigger]
        states[i].can_step(u, chance) && states[i + 1] == states[i].step(u, chance);
    assert(chance.task is Step);
    value_stays_without_guards(states, i + 1, j);
}

/// Increments add up: where every write adds one to what its thread has read, the value has grown
/// by the number of writes.
pub proof fn increments_add_up(states: Seq<GuardedSystem<int>>, i: int)
    requires
        is_guarded_execution(states),
        0 <= i < states.len(),
        forall|k: int, x: int|
            0 <= k < states[i].updates.len() ==> #[trigger] (states[i].updates[k])(x) == x + 1,
    ensures
        states[i].value == states[0].value + states[i].updates.len(),
{
    no_write_is_lost(states, i);
    increments_count(states[0].value, states[i].updates);
}

proof fn increments_count(initial: int, updates: Seq<spec_fn(int) -> int>)
    requires
        forall|k: int, x: int| 0 <= k < updates.len() ==> #[trigger] (updates[k])(x) == x + 1,
    ensures
        apply_all(initial, updates) == initial + updates.len(),
    decreases updates.len(),
{
    if updates.len() > 0 {
        let before = updates.drop_last();
        assert forall|k: int, x: int| 0 <= k < before.len() implies #[trigger] (before[k])(x) == x
            + 1 by {
            assert((updates[k])(x) == x + 1);
        }
        increments_count(initial, before);
        let x = apply_all(initial, before);
        assert((updates[updates.len() - 1])(x) == x + 1);
    }
}

} // verus!
