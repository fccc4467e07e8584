//! Every call on a queue-based lock ends, as long as no thread stops for good and no new calls
//! are made for ever.

use crate::queue_lock::{LockOp, UnlockOp};
use crate::queue_lock_progress::{
    frees, helper_can_go_on, lock_has_owner, others_do_not_hinder, others_leave_owner,
    owner_moves_on, run_is_in_order, some_thread_helps, takes_out, LockRun,
};
use crate::queue_lock_steps::step_keeps_order;
use crate::queue_lock_system::{Activity, LockSystem};
use crate::word::{address, compose_is_faithful, is_locked, is_queue_locked, word_is_composed};
use vstd::prelude::*;
use vstd::set_lib::{lemma_len_subset, FiniteFull};

verus! {

/// Whether a thread wants the lock or has it.
pub open spec fn is_busy(activity: Activity) -> bool {
    match activity {
        Activity::Idle => false,
        Activity::Locking(_) => true,
        Activity::Unlocking(op) => op !is Wake && op !is Done,
    }
}

impl LockRun {
    /// Whether no thread begins a call from some moment on.
    pub open spec fn no_call_begins(self, from: nat) -> bool {
        forall|i: nat| from <= i ==> !(self.state(i).activity(#[trigger] self.turn(i)) is Idle)
    }

    /// Whether a thread is idle from some moment on.
    pub open spec fn is_idle_from(self, t: u64, from: nat) -> bool {
        forall|k: nat| from <= k ==> #[trigger] self.state(k).activity(t) is Idle
    }
}

impl LockSystem {
    /// The threads that want the lock or have it.
    pub open spec fn busy(self) -> Set<u64> {
        Set::new(|u: u64| is_busy(self.activity(u)))
    }

    /// How far a thread is from taking a free lock.
    pub open spec fn way_to_free_lock(self, h: u64) -> nat {
        match self.activity(h) {
            Activity::Locking(op) => match op {
                LockOp::Begin => 7,
                LockOp::TryFast { state } => if state == self.memory.state {
                    1
                } else {
                    6
                },
                LockOp::Allocate => 5,
                LockOp::Load { .. } => 3,
                LockOp::Acquire { state, .. } => if state == self.memory.state {
                    1
                } else {
                    4
                },
                _ => 4,
            },
            _ => 0,
        }
    }

    /// How far the thread that the lock belongs to is from having done with it.
    pub open spec fn way_out(self) -> nat {
        if self.stage() == 10 {
            0
        } else {
            self.stage()
        }
    }

    /// What is still to be done until one thread less wants the lock or has it. It depends on the
    /// next step of `h`.
    pub open spec fn toil(self, h: u64) -> (nat, nat, nat, nat, nat) {
        if self.is_owned() {
            (0, self.way_out(), self.detours().0, self.detours().1, self.detours().2)
        } else {
            (1, self.way_to_free_lock(h), 0, 0, 0)
        }
    }

    /// Whether that depends on the next step of `h`.
    pub open spec fn relies_on(self, h: u64) -> bool {
        if self.is_owned() {
            self.helps(h)
        } else {
            is_busy(self.activity(h))
        }
    }

    /// Whether less is to be done in `post`, by `x`, than here, by `h`.
    pub open spec fn has_less_toil(self, post: Self, h: u64, x: u64) -> bool {
        let a = self.toil(h);
        let b = post.toil(x);
        &&& post.relies_on(x)
        &&& {
            ||| b.0 < a.0
            ||| b.0 == a.0 && b.1 < a.1
            ||| b.0 == a.0 && b.1 == a.1 && b.2 < a.2
            ||| b.0 == a.0 && b.1 == a.1 && b.2 == a.2 && b.3 < a.3
            ||| b.0 == a.0 && b.1 == a.1 && b.2 == a.2 && b.3 == a.3 && b.4 < a.4
        }
    }
}

/// The threads that are busy are finitely many.
proof fn busy_threads_are_finite(s: LockSystem)
    ensures
        s.busy().finite(),
{
    u64::full_properties();
    assert(s.busy().subset_of(Set::full()));
    lemma_len_subset(s.busy(), Set::full());
}

/// The thread that the lock belongs to, where it belongs to one.
proof fn owned_lock_has_owner(s: LockSystem)
    requires
        s.is_owned(),
    ensures
        s.owns(s.owner()),
{
    let u = choose|u: u64| s.owns(u);
    assert(s.owns(u));
}

/// What a free lock looks like.
proof fn free_lock_is_plain(s: LockSystem)
    requires
        s.inv(),
        !s.is_owned(),
    ensures
        !is_locked(s.memory.state),
        !is_queue_locked(s.memory.state),
        address(s.memory.state) == 0,
        forall|u: u64| !#[trigger] s.waits(u),
{
    assert forall|u: u64| !#[trigger] s.waits(u) by {
        if s.waits(u) {
            lock_has_owner(s, u);
        }
    }
}

/// A step that no idle thread makes, on a lock that belongs to a thread.
proof fn step_on_owned_lock(s: LockSystem, h: u64, u: u64, fresh: usize)
    requires
        s.inv(),
        s.is_owned(),
        s.relies_on(h),
        s.can_step(u, fresh),
        s.activity(u) !is Idle,
    ensures
        ({
            let post = s.step(u, fresh);
            ||| post.busy().len() < s.busy().len()
            ||| {
                &&& post.busy() == s.busy()
                &&& {
                    ||| exists|x: u64| #[trigger] s.has_less_toil(post, h, x)
                    ||| u != h && post.relies_on(h) && post.toil(h) == s.toil(h)
                }
            }
        }),
{
    let post = s.step(u, fresh);
    owned_lock_has_owner(s);
    busy_threads_are_finite(s);
    step_keeps_order(s, u, fresh);
    assert(s.thread_inv(u));
    assert forall|v: u64| v != u implies #[trigger] post.busy().contains(v) == s.busy().contains(
        v,
    ) by {
        assert(post.activity(v) == s.activity(v));
    }
    if u != s.owner() {
        others_leave_owner(s, u, fresh);
    }
    if u == s.owner() && (frees(s) || s.stage() == 10) {
        assert(post.busy() =~= s.busy().remove(u));
        assert(s.busy().contains(u));
    } else {
        assert(post.busy() =~= s.busy());
        if u == s.owner() {
            owner_moves_on(s, h, fresh);
            assert(post.is_owned());
            let x = some_thread_helps(post);
            assert(takes_out(s) || s.gets_on(post) ==> s.has_less_toil(post, h, x));
        } else {
            others_do_not_hinder(s, h, u, fresh);
            assert(post.is_owned());
            let x = some_thread_helps(post);
            assert(s.gets_on(post) ==> s.has_less_toil(post, h, x));
        }
    }
}

/// A step that no idle thread makes, on a lock that is free.
proof fn step_on_free_lock(s: LockSystem, h: u64, u: u64, fresh: usize)
    requires
        s.inv(),
        !s.is_owned(),
        s.relies_on(h),
        s.can_step(u, fresh),
        s.activity(u) !is Idle,
    ensures
        ({
            let post = s.step(u, fresh);
            &&& post.busy() == s.busy()
            &&& {
                ||| exists|x: u64| #[trigger] s.has_less_toil(post, h, x)
                ||| u != h && post.relies_on(h) && post.toil(h) == s.toil(h)
            }
        }),
{
    let post = s.step(u, fresh);
    free_lock_is_plain(s);
    step_keeps_order(s, u, fresh);
    assert(s.thread_inv(u));
    assert(s.thread_inv(h));
    assert(!s.owns(u));
    assert(!s.waits(u));
    assert(!s.owns(h));
    assert(!s.waits(h));
    word_is_composed(s.memory.state);
    compose_is_faithful(0, true, false);
    assert forall|v: u64| #[trigger] post.busy().contains(v) == s.busy().contains(v) by {
        assert(v != u ==> post.activity(v) == s.activity(v));
    }
    assert(post.busy() =~= s.busy());
    if post.owns(u) {
        assert(post.is_owned());
        owned_lock_has_owner(post);
        let x = some_thread_helps(post);
        assert(s.has_less_toil(post, h, x));
    } else {
        assert(!post.is_owned()) by {
            if post.is_owned() {
                let v = choose|v: u64| post.owns(v);
                assert(v != u);
                assert(post.activity(v) == s.activity(v));
                assert(s.owns(v));
            }
        }
        assert(post.memory.state == s.memory.state);
        if u == h {
            assert(s.has_less_toil(post, h, h));
        } else {
            assert(post.activity(h) == s.activity(h));
        }
    }
}

/// On a run without new calls one thread less is busy in the end, seen from a moment at which that
/// depends on the step that `h` makes at `j`.
proof fn one_thread_less(run: LockRun, from: nat, i: nat, h: u64, j: nat) -> (end: nat)
    requires
        run.is_fair(),
        run.no_call_begins(from),
        from <= i,
        run.state(i).relies_on(h),
        i <= j,
        run.turn(j) == h,
    ensures
        i <= end,
        run.state(end).busy().len() < run.state(i).busy().len(),
    decreases
            run.state(i).toil(h).0,
            run.state(i).toil(h).1,
            run.state(i).toil(h).2,
            run.state(i).toil(h).3,
            run.state(i).toil(h).4,
            j - i,
{
    let s = run.state(i);
    let post = run.state(i + 1);
    let u = run.turn(i);
    run_is_in_order(run, i);
    run_is_in_order(run, i + 1);
    assert(run.moves(i));
    assert(!(s.activity(run.turn(i)) is Idle));
    if s.is_owned() {
        step_on_owned_lock(s, h, u, (run.fresh)(i));
    } else {
        step_on_free_lock(s, h, u, (run.fresh)(i));
    }
    if post.busy().len() < s.busy().len() {
        i + 1
    } else if exists|x: u64| #[trigger] s.has_less_toil(post, h, x) {
        let x = choose|x: u64| #[trigger] s.has_less_toil(post, h, x);
        reliable_thread_can_go_on(post, x);
        let k = choose|k: nat| i + 1 <= k && #[trigger] run.turn(k) == x;
        one_thread_less(run, from, i + 1, x, k)
    } else {
        one_thread_less(run, from, i + 1, h, j)
    }
}

proof fn reliable_thread_can_go_on(s: LockSystem, h: u64)
    requires
        s.inv(),
        s.relies_on(h),
    ensures
        s.can_go_on(h),
{
    if s.is_owned() {
        owned_lock_has_owner(s);
        helper_can_go_on(s, h);
    } else {
        free_lock_is_plain(s);
        assert(!s.waits(h));
    }
}

/// On a run without new calls no thread is busy in the end.
proof fn all_threads_finish(run: LockRun, from: nat, i: nat) -> (end: nat)
    requires
        run.is_fair(),
        run.no_call_begins(from),
        from <= i,
    ensures
        i <= end,
        forall|u: u64| !is_busy(#[trigger] run.state(end).activity(u)),
    decreases run.state(i).busy().len(),
{
    let s = run.state(i);
    busy_threads_are_finite(s);
    if s.busy().len() == 0 {
        assert forall|u: u64| !is_busy(#[trigger] s.activity(u)) by {
            assert(!s.busy().contains(u));
        }
        i
    } else {
        run_is_in_order(run, i);
        let h = if s.is_owned() {
            owned_lock_has_owner(s);
            some_thread_helps(s)
        } else {
            let u = s.busy().choose();
            assert(s.busy().contains(u));
            u
        };
        reliable_thread_can_go_on(s, h);
        let j = choose|j: nat| i <= j && #[trigger] run.turn(j) == h;
        let end = one_thread_less(run, from, i, h, j);
        all_threads_finish(run, from, end)
    }
}

/// Once no thread is busy, none becomes so again, and one that is idle stays so.
proof fn rest_lasts(run: LockRun, from: nat, i: nat, k: nat, t: u64)
    requires
        run.is_fair(),
        run.no_call_begins(from),
        from <= i <= k,
        !is_busy(run.state(i).activity(t)),
    ensures
        !is_busy(run.state(k).activity(t)),
        run.state(i).activity(t) is Idle ==> run.state(k).activity(t) is Idle,
        run.state(i).activity(t) == Activity::Unlocking(UnlockOp::Done) ==> run.state(k).activity(
            t,
        ) is Idle || run.state(k).activity(t) == Activity::Unlocking(UnlockOp::Done),
    decreases k - i,
{
    if i < k {
        let m = (k - 1) as nat;
        rest_lasts(run, from, i, m, t);
        assert(run.moves(m));
        assert(!(run.state(m).activity(run.turn(m)) is Idle));
        assert(run.turn(m) != t ==> run.state(k).activity(t) == run.state(m).activity(t));
    }
}

/// A thread that has let go of the lock is idle after its next steps.
proof fn call_ends(run: LockRun, from: nat, i: nat, t: u64) -> (end: nat)
    requires
        run.is_fair(),
        run.no_call_begins(from),
        from <= i,
        !is_busy(run.state(i).activity(t)),
    ensures
        i <= end,
        run.state(end).activity(t) is Idle,
    decreases
            (match run.state(i).activity(t) {
                Activity::Idle => 0nat,
                Activity::Unlocking(UnlockOp::Done) => 1,
                _ => 2,
            }),
{
    if run.state(i).activity(t) is Idle {
        i
    } else {
        assert(run.state(i).can_go_on(t));
        let j = choose|j: nat| i <= j && #[trigger] run.turn(j) == t;
        rest_lasts(run, from, i, j, t);
        assert(run.moves(j));
        if run.state(j).activity(t) is Idle {
            j
        } else {
            call_ends(run, from, j + 1, t)
        }
    }
}

/// Every call ends: on a run on which no thread stops for good and no call begins from some moment
/// on, every thread has taken the lock and let go of it in the end, and nobody waits any more.
pub proof fn every_call_returns(run: LockRun, from: nat, t: u64)
    requires
        run.is_fair(),
        run.no_call_begins(from),
    ensures
        exists|j: nat| from <= j && #[trigger] run.is_idle_from(t, j),
{
    let end = all_threads_finish(run, from, from);
    assert(!is_busy(run.state(end).activity(t)));
    let j = call_ends(run, from, end, t);
    assert forall|k: nat| j <= k implies #[trigger] run.state(k).activity(t) is Idle by {
        rest_lasts(run, from, j, k, t);
    }
    assert(run.is_idle_from(t, j));
}

} // verus!
