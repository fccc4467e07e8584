//! Threads sleep on a semaphore only while every permit that it has is about to be seen by
//! another thread.

use crate::execution::{invariant_holds_throughout, is_execution};
use crate::semaphore_laws::{
    is_asleep, step_keeps_permits, SemActivity, SemChance, SemSystem,
};
use vstd::prelude::*;

verus! {

impl SemSystem {
    /// Whether a thread is awake and about to look for a permit or to take one, or about to wake
    /// a thread that sleeps.
    pub open spec fn is_eager(self, t: u64) -> bool {
        match self.activity(t) {
            SemActivity::Waiting(op) => op is Lock || op is Load || op is Exchange || (op is Asleep
                && !self.sleeping.contains(t)),
            SemActivity::Simply(op) => op is Lock || op is Load || op is Subtract || (op is Asleep
                && !self.sleeping.contains(t)),
            SemActivity::Signalling(op) => op is Unlock || op is Notify,
            _ => false,
        }
    }
}

/// A semaphore system together with the threads that are eager.
pub struct SemAttendance {
    pub system: SemSystem,
    pub eager: Set<u64>,
}

impl SemAttendance {
    /// A semaphore that no thread uses.
    pub open spec fn init(self) -> bool {
        self.system.init() && self.eager == Set::<u64>::empty()
    }

    /// The system after one step of thread `t`.
    pub open spec fn step(self, t: u64, chance: SemChance) -> Self {
        let post = self.system.step(t, chance);
        let eager = if self.system.next_access(t) is NotifyOne && self.system.sleeping.contains(
            chance.woken,
        ) {
            self.eager.insert(chance.woken)
        } else {
            self.eager
        };
        SemAttendance {
            system: post,
            eager: if post.is_eager(t) {
                eager.insert(t)
            } else {
                eager.remove(t)
            },
        }
    }

    /// One step of some thread leads from `self` to `post`.
    pub open spec fn next(self, post: Self) -> bool {
        exists|t: u64, chance: SemChance| #[trigger]
            self.system.can_step(t, chance) && post == self.step(t, chance)
    }

    /// While a thread sleeps, there are no more permits than eager threads.
    pub open spec fn inv(self) -> bool {
        &&& self.system.inv()
        &&& self.eager.finite()
        &&& forall|t: u64| #[trigger] self.eager.contains(t) == self.system.is_eager(t)
        &&& self.system.sleeping != Set::<u64>::empty() ==> self.system.memory.value
            <= self.eager.len()
    }
}

/// Every step of every thread keeps all of that.
pub proof fn step_keeps_attendance(pre: SemAttendance, t: u64, chance: SemChance)
    requires
        pre.inv(),
        pre.system.can_step(t, chance),
    ensures
        pre.step(t, chance).inv(),
{
    let post = pre.step(t, chance);
    let woken = chance.woken;
    step_keeps_permits(pre.system, t, chance);
    assert(pre.system.thread_inv(t));
    assert(pre.system.thread_inv(woken));
    assert(pre.eager.contains(t) == pre.system.is_eager(t));
    assert(pre.eager.contains(woken) == pre.system.is_eager(woken));
    assert forall|u: u64| #[trigger] post.eager.contains(u) == post.system.is_eager(u) by {
        assert(pre.eager.contains(u) == pre.system.is_eager(u));
        assert(pre.system.thread_inv(u));
        assert(u != t ==> post.system.activity(u) == pre.system.activity(u));
    }
    if post.system.sleeping != Set::<u64>::empty() {
        let u = choose|u: u64| post.system.sleeping.contains(u);
        assert(post.system.sleeping.contains(u)) by {
            if forall|v: u64| !post.system.sleeping.contains(v) {
                assert(post.system.sleeping =~= Set::<u64>::empty());
            }
        }
        assert(post.system.thread_inv(u));
        assert(!(pre.system.next_access(t) is Sleep) ==> pre.system.sleeping.contains(u));
    }
}

/// The executions of a semaphore, with the threads that are eager.
pub open spec fn is_attended_semaphore(states: Seq<SemAttendance>) -> bool {
    is_execution(
        states,
        |s: SemAttendance| s.init(),
        |s: SemAttendance, post: SemAttendance| s.next(post),
    )
}

/// In every execution there are no more permits than eager threads while a thread sleeps.
pub proof fn attendance_holds_throughout(states: Seq<SemAttendance>, i: int)
    requires
        is_attended_semaphore(states),
        0 <= i < states.len(),
    ensures
        states[i].inv(),
{
    let init = |s: SemAttendance| s.init();
    let next = |s: SemAttendance, post: SemAttendance| s.next(post);
    let inv = |s: SemAttendance| s.inv();
    assert forall|s: SemAttendance, post: SemAttendance| inv(s) && #[trigger] next(
        s,
        post,
    ) implies inv(post) by {
        let (t, chance) = choose|t: u64, chance: SemChance| #[trigger]
            s.system.can_step(t, chance) && post == s.step(t, chance);
        step_keeps_attendance(s, t, chance);
    }
    invariant_holds_throughout(states, init, next, inv, i);
}

/// No permit is left lying beside a sleeper: while a thread sleeps, there is a thread for each
/// permit of the semaphore that is awake and about to look for one, or about to wake a sleeper.
pub proof fn no_permit_lies_beside_a_sleeper(states: Seq<SemAttendance>, i: int, t: u64)
    requires
        is_attended_semaphore(states),
        0 <= i < states.len(),
        states[i].system.sleeping.contains(t),
    ensures
        states[i].system.memory.value <= states[i].eager.len(),
        forall|u: u64| #[trigger] states[i].eager.contains(u) ==> states[i].system.is_eager(u),
{
    attendance_holds_throughout(states, i);
}

/// No thread sleeps for good: as long as there are permits, and their count has not wrapped
/// around, a thread that sleeps is not left alone. Some thread has a permit, or is about to look
/// for one or to wake a sleeper.
pub proof fn no_thread_sleeps_for_good(states: Seq<SemAttendance>, i: int, t: u64)
    requires
        is_attended_semaphore(states),
        0 <= i < states.len(),
        states[i].system.sleeping.contains(t),
        states[i].system.permits > 0,
        states[i].system.wraps == 0,
    ensures
        (exists|u: u64| #[trigger] states[i].system.is_eager(u)) || (exists|u: u64| #[trigger]
            states[i].system.has_permit(u)),
{
    attendance_holds_throughout(states, i);
    let s = states[i];
    if s.system.memory.value > 0 {
        let u = s.eager.choose();
        assert(s.eager.contains(u)) by {
            if s.eager =~= Set::<u64>::empty() {
                assert(s.eager.len() == 0);
            }
        }
        assert(s.system.is_eager(u));
    } else {
        let u = s.system.holders.choose();
        assert(s.system.has_permit(u));
    }
}

/// Threads sleep at rest only for want of permits: where no thread can go on, because each is idle
/// or sleeps and was not woken, and the count has not wrapped around, a thread that sleeps does so
/// while all permits are taken. So where those who took one have given it back, all threads have
/// finished and all permits are there.
pub proof fn semaphore_at_rest_has_no_sleeper(states: Seq<SemAttendance>, i: int, t: u64)
    requires
        is_attended_semaphore(states),
        0 <= i < states.len(),
        states[i].system.wraps == 0,
        forall|u: u64| #[trigger]
            states[i].system.activity(u) is Idle || (is_asleep(states[i].system.activity(u))
                && states[i].system.sleeping.contains(u)),
    ensures
        states[i].system.activity(t) !is Idle ==> states[i].system.memory.value == 0
            && states[i].system.holders.len() == states[i].system.permits,
        states[i].system.holders.len() == 0 ==> states[i].system.memory.value
            == states[i].system.permits,
        states[i].system.holders.len() == 0 && states[i].system.permits > 0
            ==> states[i].system.activity(t) is Idle,
{
    attendance_holds_throughout(states, i);
    let s = states[i];
    if s.system.activity(t) !is Idle {
        assert(s.system.sleeping.contains(t));
        assert forall|u: u64| !s.eager.contains(u) by {
            assert(s.eager.contains(u) == s.system.is_eager(u));
            assert(s.system.activity(u) is Idle || is_asleep(s.system.activity(u)));
        }
        assert(s.eager =~= Set::<u64>::empty());
    }
}

} // verus!
