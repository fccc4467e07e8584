//! What every interleaving of threads on a semaphore keeps.

use crate::execution::{invariant_holds_throughout, is_execution};
use crate::semaphore::{
    one_less, one_more, CondWaitOp, SemAccess, SemReply, SemView, SignalOp, SimpleWaitOp,
    SpinWaitOp,
};
use vstd::multiset::Multiset;
use vstd::prelude::*;

verus! {

/// What a thread is doing with a semaphore.
pub enum SemActivity {
    /// Nothing.
    Idle,
    /// Taking a permit by spinning.
    Spinning(SpinWaitOp),
    /// Taking a permit by an exchange, asleep in between.
    Waiting(CondWaitOp),
    /// Taking a permit by a subtraction, asleep in between.
    Simply(SimpleWaitOp),
    /// Adding a permit for threads that spin.
    Adding,
    /// Adding a permit for threads that sleep.
    Signalling(SignalOp),
}

/// What an idle thread may begin.
pub enum SemTask {
    Wait,
    WaitSimple,
    Signal,
}

/// What is left open in a step: what an idle thread begins, and which thread is woken.
pub struct SemChance {
    pub task: SemTask,
    pub woken: u64,
}

/// A semaphore and the threads that use it. Threads spin on a semaphore or sleep on it, all in
/// the same way. A thread may take any number of permits, and may add one whether it has a
/// permit or not.
pub struct SemSystem {
    pub spinning: bool,
    pub memory: SemView,
    pub threads: Map<u64, SemActivity>,
    /// The thread that has the mutex.
    pub owner: Option<u64>,
    /// The number of permits at the start.
    pub first: nat,
    /// How many permits were added so far.
    pub signals: nat,
    /// How many permits were taken so far.
    pub waits: nat,
    /// How often the count has wrapped around when a permit was added.
    pub wraps: nat,
    /// The threads that have permits, each as often as it has one.
    pub holders: Multiset<u64>,
    /// How many permits each thread had when it began its call.
    pub had: Map<u64, nat>,
    /// The permits there are in all: those at the start and those that threads without one have
    /// added.
    pub permits: nat,
    /// The threads that sleep and were not woken.
    pub sleeping: Set<u64>,
}

/// Whether an access that gives `reply` takes a permit.
pub open spec fn takes_permit(access: SemAccess, reply: SemReply) -> bool {
    (access is CompareExchange && reply is Swapped) || access is Subtract
}

/// Whether a thread has the mutex.
pub open spec fn has_mutex(activity: SemActivity) -> bool {
    match activity {
        SemActivity::Waiting(op) => op is Load || op is Exchange || op is Sleep || op is Unlock,
        SemActivity::Simply(op) => op is Load || op is Sleep || op is Subtract || op is Unlock,
        SemActivity::Signalling(op) => op is Increment || op is Unlock,
        _ => false,
    }
}

/// Whether a thread sleeps on the condition variable, or wakes up and waits for the mutex.
pub open spec fn is_asleep(activity: SemActivity) -> bool {
    activity == SemActivity::Waiting(CondWaitOp::Asleep) || activity == SemActivity::Simply(
        SimpleWaitOp::Asleep,
    )
}

/// Whether a thread has got through its wait for a permit.
pub open spec fn is_through(activity: SemActivity) -> bool {
    match activity {
        SemActivity::Spinning(op) => op is Acquired,
        SemActivity::Waiting(op) => op is Unlock || op is Acquired,
        SemActivity::Simply(op) => op is Unlock || op is Acquired,
        _ => false,
    }
}

/// Who has the mutex after an access of thread `t`.
pub open spec fn owner_after(
    owner: Option<u64>,
    t: u64,
    access: SemAccess,
    reply: SemReply,
) -> Option<u64> {
    match access {
        SemAccess::Lock => if reply is Ack {
            Some(t)
        } else {
            owner
        },
        SemAccess::Relock => if reply is Ack {
            Some(t)
        } else {
            owner
        },
        SemAccess::Unlock => None,
        SemAccess::Sleep => None,
        _ => owner,
    }
}

/// Who sleeps after an access of thread `t`. A thread may also wake up for no reason.
pub open spec fn sleeping_after(
    sleeping: Set<u64>,
    t: u64,
    access: SemAccess,
    woken: u64,
) -> Set<u64> {
    match access {
        SemAccess::Sleep => sleeping.insert(t),
        SemAccess::Relock => sleeping.remove(t),
        SemAccess::NotifyOne => sleeping.remove(woken),
        _ => sleeping,
    }
}

impl SemSystem {
    /// What a thread is doing.
    pub open spec fn activity(self, t: u64) -> SemActivity {
        if self.threads.contains_key(t) {
            self.threads[t]
        } else {
            SemActivity::Idle
        }
    }

    /// Whether a thread has taken a permit and not given it back.
    pub open spec fn has_permit(self, t: u64) -> bool {
        self.holders.count(t) > 0
    }

    /// A semaphore with its first permits, that no thread uses.
    pub open spec fn init(self) -> bool {
        &&& !self.memory.locked
        &&& self.threads == Map::<u64, SemActivity>::empty()
        &&& self.owner is None
        &&& self.first == self.memory.value
        &&& self.signals == 0
        &&& self.waits == 0
        &&& self.wraps == 0
        &&& self.holders == Multiset::<u64>::empty()
        &&& self.had == Map::<u64, nat>::empty()
        &&& self.permits == self.memory.value
        &&& self.sleeping == Set::<u64>::empty()
    }

    /// The system after thread `t` has come to another activity by an access.
    pub open spec fn with(
        self,
        t: u64,
        activity: SemActivity,
        access: SemAccess,
        chance: SemChance,
    ) -> Self {
        let reply = self.memory.reply(access);
        SemSystem {
            memory: self.memory.effect(access),
            threads: self.threads.insert(t, activity),
            owner: owner_after(self.owner, t, access, reply),
            signals: if access is Increment {
                self.signals + 1
            } else {
                self.signals
            },
            waits: if takes_permit(access, reply) {
                self.waits + 1
            } else {
                self.waits
            },
            wraps: if access is Increment && self.memory.value == u8::MAX {
                self.wraps + 1
            } else {
                self.wraps
            },
            holders: if takes_permit(access, reply) {
                self.holders.insert(t)
            } else if access is Increment {
                self.holders.remove(t)
            } else {
                self.holders
            },
            had: if self.activity(t) is Idle {
                self.had.insert(t, self.holders.count(t))
            } else {
                self.had
            },
            permits: if access is Increment && !self.has_permit(t) {
                self.permits + 1
            } else {
                self.permits
            },
            sleeping: sleeping_after(self.sleeping, t, access, chance.woken),
            ..self
        }
    }

    /// Whether thread `t` can make a step as `chance` has it: where threads sleep, it is one of
    /// them that is woken.
    pub open spec fn can_step(self, t: u64, chance: SemChance) -> bool {
        match self.activity(t) {
            SemActivity::Signalling(SignalOp::Notify) => self.sleeping
                != Set::<u64>::empty() ==> self.sleeping.contains(chance.woken),
            _ => true,
        }
    }

    /// What a thread does that has nothing to do.
    pub open spec fn begins(self, task: SemTask) -> SemActivity {
        match task {
            SemTask::Signal => if self.spinning {
                SemActivity::Adding
            } else {
                SemActivity::Signalling(SignalOp::Lock)
            },
            SemTask::Wait => if self.spinning {
                SemActivity::Spinning(SpinWaitOp::Load)
            } else {
                SemActivity::Waiting(CondWaitOp::Lock)
            },
            SemTask::WaitSimple => if self.spinning {
                SemActivity::Spinning(SpinWaitOp::Load)
            } else {
                SemActivity::Simply(SimpleWaitOp::Lock)
            },
        }
    }

    /// The access that thread `t` makes next.
    pub open spec fn next_access(self, t: u64) -> SemAccess {
        match self.activity(t) {
            SemActivity::Spinning(op) => op.next_access(),
            SemActivity::Waiting(op) => op.next_access(),
            SemActivity::Simply(op) => op.next_access(),
            SemActivity::Adding => SemAccess::Increment,
            SemActivity::Signalling(op) => op.next_access(),
            SemActivity::Idle => SemAccess::Finished,
        }
    }

    /// What thread `t` does after its next access.
    pub open spec fn next_activity(self, t: u64, chance: SemChance) -> SemActivity {
        let reply = self.memory.reply(self.next_access(t));
        match self.activity(t) {
            SemActivity::Idle => self.begins(chance.task),
            SemActivity::Spinning(SpinWaitOp::Acquired) => SemActivity::Idle,
            SemActivity::Spinning(op) => SemActivity::Spinning(op.after(reply)),
            SemActivity::Waiting(CondWaitOp::Acquired) => SemActivity::Idle,
            SemActivity::Waiting(op) => SemActivity::Waiting(op.after(reply)),
            SemActivity::Simply(SimpleWaitOp::Acquired) => SemActivity::Idle,
            SemActivity::Simply(op) => SemActivity::Simply(op.after(reply)),
            SemActivity::Adding => SemActivity::Idle,
            SemActivity::Signalling(SignalOp::Done) => SemActivity::Idle,
            SemActivity::Signalling(op) => SemActivity::Signalling(op.after(reply)),
        }
    }

    /// The system after one step of thread `t`.
    pub open spec fn step(self, t: u64, chance: SemChance) -> Self {
        self.with(t, self.next_activity(t, chance), self.next_access(t), chance)
    }

    /// One step of some thread leads from `self` to `post`.
    pub open spec fn next(self, post: Self) -> bool {
        exists|t: u64, chance: SemChance| #[trigger]
            self.can_step(t, chance) && post == self.step(t, chance)
    }

    /// What holds of the operation of one thread.
    pub open spec fn thread_inv(self, t: u64) -> bool {
        &&& has_mutex(self.activity(t)) == (self.owner == Some(t))
        &&& self.sleeping.contains(t) ==> is_asleep(self.activity(t))
        &&& match self.activity(t) {
            SemActivity::Idle => true,
            SemActivity::Adding => self.holders.count(t) == self.had[t],
            SemActivity::Signalling(op) => op is Lock || op is Increment ==> self.holders.count(t)
                == self.had[t],
            activity => self.holders.count(t) == self.had[t] + (if is_through(activity) {
                1int
            } else {
                0
            }),
        }
        &&& match self.activity(t) {
            SemActivity::Spinning(op) => self.spinning && op.wf(),
            SemActivity::Waiting(op) => {
                &&& !self.spinning
                &&& op.wf()
                &&& op is Sleep ==> self.memory.value == 0
            },
            SemActivity::Simply(op) => {
                &&& !self.spinning
                &&& op is Subtract ==> self.memory.value > 0
                &&& op is Sleep ==> self.memory.value == 0
            },
            SemActivity::Adding => self.spinning,
            SemActivity::Signalling(_) => !self.spinning,
            SemActivity::Idle => true,
        }
    }

    /// The count says how many permits were added and not taken, but for those with which it
    /// wrapped around; the permits that were taken and not given back are with their holders.
    pub open spec fn inv(self) -> bool {
        &&& self.memory.value + 256 * self.wraps == self.first + self.signals - self.waits
        &&& self.first + self.signals - self.waits == self.permits - self.holders.len()
        &&& self.memory.locked == (self.owner is Some)
        &&& forall|t: u64| #[trigger] self.thread_inv(t)
    }
}

/// Every step of every thread keeps the number of permits.
pub proof fn step_keeps_permits(pre: SemSystem, t: u64, chance: SemChance)
    requires
        pre.inv(),
        pre.can_step(t, chance),
    ensures
        pre.step(t, chance).inv(),
{
    let post = pre.step(t, chance);
    assert(pre.thread_inv(t));
    assert forall|u: u64| u != t implies #[trigger] post.activity(u) == pre.activity(u) by {}
    assert forall|u: u64| #[trigger] post.thread_inv(u) by {
        assert(pre.thread_inv(u));
        assert(u != t ==> post.activity(u) == pre.activity(u));
    }
    if pre.next_access(t) is Increment {
        removal_takes_one(pre.holders, t);
    }
}

/// Taking an element out of a multiset that has it leaves one less, and otherwise nothing changes.
proof fn removal_takes_one(m: Multiset<u64>, t: u64)
    ensures
        m.count(t) > 0 ==> m.remove(t).len() == m.len() - 1,
        m.count(t) == 0 ==> m.remove(t) == m,
{
    if m.count(t) > 0 {
        assert(Multiset::<u64>::singleton(t).subset_of(m));
    } else {
        assert(m.remove(t) =~= m);
    }
}

/// The executions of a semaphore.
pub open spec fn is_semaphore_execution(states: Seq<SemSystem>) -> bool {
    is_execution(
        states,
        |s: SemSystem| s.init(),
        |s: SemSystem, post: SemSystem| s.next(post),
    )
}

/// In every execution the permits add up at every moment.
pub proof fn permits_hold_throughout(states: Seq<SemSystem>, i: int)
    requires
        is_semaphore_execution(states),
        0 <= i < states.len(),
    ensures
        states[i].inv(),
{
    let init = |s: SemSystem| s.init();
    let next = |s: SemSystem, post: SemSystem| s.next(post);
    let inv = |s: SemSystem| s.inv();
    assert forall|s: SemSystem, post: SemSystem| inv(s) && #[trigger] next(s, post) implies inv(
        post,
    ) by {
        let (t, chance) = choose|t: u64, chance: SemChance| #[trigger]
            s.can_step(t, chance) && post == s.step(t, chance);
        step_keeps_permits(s, t, chance);
    }
    invariant_holds_throughout(states, init, next, inv, i);
}

/// The count of a semaphore is its first count, and one more for every permit that was added, and
/// one less for every permit that was taken: always up to a multiple of 256, and exactly as long
/// as no added permit has made the count wrap around. No taken permit ever does.
pub proof fn count_follows_signals_and_waits(states: Seq<SemSystem>, i: int)
    requires
        is_semaphore_execution(states),
        0 <= i < states.len(),
    ensures
        states[i].memory.value == (states[0].memory.value + states[i].signals - states[i].waits)
            % 256,
        states[i].wraps == 0 ==> states[i].memory.value == states[0].memory.value
            + states[i].signals - states[i].waits,
        states[i].waits <= states[0].memory.value + states[i].signals,
{
    permits_hold_throughout(states, i);
    first_count_stays(states, i);
    let total = states[0].memory.value + states[i].signals - states[i].waits;
    vstd::arithmetic::div_mod::lemma_fundamental_div_mod_converse(
        total,
        256,
        states[i].wraps as int,
        states[i].memory.value as int,
    );
}

proof fn first_count_stays(states: Seq<SemSystem>, i: int)
    requires
        is_semaphore_execution(states),
        0 <= i < states.len(),
    ensures
        states[i].first == states[0].memory.value,
    decreases i,
{
    let init = |s: SemSystem| s.init();
    let next = |s: SemSystem, post: SemSystem| s.next(post);
    if i == 0 {
        assert(init(states[0]));
    } else {
        first_count_stays(states, i - 1);
        assert(next(states[i - 1], states[i]));
    }
}

/// Permits are conserved: as long as the count has not wrapped around, the permits that threads
/// have and those that the semaphore has are all the permits there are. So no more are taken at a
/// time than there are, and when no thread has one the semaphore has them all.
pub proof fn permits_are_conserved(states: Seq<SemSystem>, i: int)
    requires
        is_semaphore_execution(states),
        0 <= i < states.len(),
        states[i].wraps == 0,
    ensures
        states[i].memory.value + states[i].holders.len() == states[i].permits,
        states[i].holders.len() <= states[i].permits,
        states[i].holders.len() == 0 ==> states[i].memory.value == states[i].permits,
{
    permits_hold_throughout(states, i);
}

/// As long as there are no more permits in all than a semaphore can count, the count does not wrap
/// around.
pub proof fn few_permits_do_not_wrap(states: Seq<SemSystem>, i: int)
    requires
        is_semaphore_execution(states),
        0 <= i < states.len(),
        states[i].permits <= u8::MAX,
    ensures
        states[i].wraps == 0,
{
    permits_hold_throughout(states, i);
}

/// Where no thread adds a permit without having taken one, the permits are those there were at
/// the start.
pub proof fn balanced_signals_keep_permits(states: Seq<SemSystem>, i: int)
    requires
        is_semaphore_execution(states),
        0 <= i < states.len(),
        forall|k: int|
            0 < k <= i ==> (#[trigger] states[k]).permits == states[k - 1].permits,
    ensures
        states[i].permits == states[0].memory.value,
    decreases i,
{
    if i > 0 {
        assert(states[i].permits == states[i - 1].permits);
        balanced_signals_keep_permits(states, i - 1);
    }
}

/// A wait takes one permit: in every execution a thread has as many permits as when it began to
/// wait until it gets through, and one more from then on until the call ends.
pub proof fn wait_takes_one_permit(states: Seq<SemSystem>, i: int, t: u64)
    requires
        is_semaphore_execution(states),
        0 <= i < states.len(),
        states[i].activity(t) is Spinning || states[i].activity(t) is Waiting || states[i].activity(
            t,
        ) is Simply,
    ensures
        is_through(states[i].activity(t)) ==> states[i].holders.count(t) == states[i].had[t] + 1,
        !is_through(states[i].activity(t)) ==> states[i].holders.count(t) == states[i].had[t],
{
    permits_hold_throughout(states, i);
    assert(states[i].thread_inv(t));
}

/// No more threads get through than there are permits: in every execution in which the count has
/// not wrapped around, a set of threads that are through their wait has no more members than there
/// are permits.
pub proof fn no_more_get_through_than_permits(
    states: Seq<SemSystem>,
    i: int,
    through: Set<u64>,
)
    requires
        is_semaphore_execution(states),
        0 <= i < states.len(),
        states[i].wraps == 0,
        through.finite(),
        forall|t: u64| #[trigger] through.contains(t) ==> is_through(states[i].activity(t)),
    ensures
        through.len() + states[i].memory.value <= states[i].permits,
{
    permits_hold_throughout(states, i);
    assert forall|t: u64| #[trigger] through.contains(t) implies states[i].holders.count(t) > 0 by {
        assert(states[i].thread_inv(t));
    }
    members_are_counted(through, states[i].holders);
}

/// A set of members of a multiset is no larger than the multiset.
proof fn members_are_counted(members: Set<u64>, m: Multiset<u64>)
    requires
        members.finite(),
        forall|t: u64| #[trigger] members.contains(t) ==> m.count(t) > 0,
    ensures
        members.len() <= m.len(),
    decreases members.len(),
{
    if members.len() > 0 {
        let t = members.choose();
        assert(members.contains(t));
        removal_takes_one(m, t);
        assert forall|u: u64| #[trigger] members.remove(t).contains(u) implies m.remove(t).count(u)
            > 0 by {
            assert(members.contains(u));
        }
        members_are_counted(members.remove(t), m.remove(t));
    }
}

/// A thread that takes a permit by a subtraction finds one: the count does not fall below zero.
pub proof fn subtraction_finds_a_permit(states: Seq<SemSystem>, i: int, t: u64)
    requires
        is_semaphore_execution(states),
        0 <= i < states.len(),
        states[i].activity(t) == SemActivity::Simply(SimpleWaitOp::Subtract),
    ensures
        states[i].memory.value > 0,
{
    permits_hold_throughout(states, i);
    assert(states[i].thread_inv(t));
}

/// The mutex of a semaphore is with one thread at most.
pub proof fn semaphore_mutex_has_one_owner(states: Seq<SemSystem>, i: int, t: u64, u: u64)
    requires
        is_semaphore_execution(states),
        0 <= i < states.len(),
        has_mutex(states[i].activity(t)),
        has_mutex(states[i].activity(u)),
    ensures
        t == u,
        states[i].memory.locked,
{
    permits_hold_throughout(states, i);
    assert(states[i].thread_inv(t));
    assert(states[i].thread_inv(u));
}

/// Adding a permit and taking one undo each other.
pub proof fn signal_and_wait_are_inverse(value: u8)
    ensures
        one_less(one_more(value)) == value,
        one_more(one_less(value)) == value,
{
}

} // verus!
