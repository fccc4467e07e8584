//! Every call on a queue-based mutex ends, as long as no thread stops for good and no new calls
//! are made for ever.

use crate::chain::{after, place_is_unique, Linked};
use crate::queue_mutex::{AcquireOp, ReleaseOp, TryLockOp};
use crate::queue_mutex_progress::{
    is_less, is_releasing, mutex_run_is_in_order, takes_out, MutexRun,
};
use crate::queue_mutex_steps::step_keeps_order;
use crate::queue_mutex_system::{
    calls, locks_queue, node_of, sleep_node, Chance, MutexActivity, MutexSystem,
};
use crate::word::{address, compose_is_faithful, is_locked, is_queue_locked, word_is_composed};
use vstd::prelude::*;
use vstd::set_lib::{lemma_len_subset, FiniteFull};

verus! {

/// Whether a thread wants the mutex and does not have it.
pub open spec fn wants(activity: MutexActivity) -> bool {
    match activity {
        MutexActivity::Trying(op) => op !is Done,
        MutexActivity::Acquiring(op) => op !is Held,
        _ => false,
    }
}

/// Whether an operation is on its way into the queue and may still turn round.
pub open spec fn is_on_way_in(activity: MutexActivity) -> bool {
    activity matches MutexActivity::Acquiring(op) && (op is Allocate || op is LoadQueue || op
        is Spin || op is LockQueue || op is Enter || op is Retreat)
}

impl MutexRun {
    /// Whether no thread begins a call from some moment on.
    pub open spec fn no_call_begins(self, from: nat) -> bool {
        forall|i: nat| from <= i ==> !(self.state(i).activity(#[trigger] self.turn(i)) is Idle)
    }

    /// Whether a thread is idle from some moment on.
    pub open spec fn is_idle_from(self, t: u64, from: nat) -> bool {
        forall|k: nat| from <= k ==> #[trigger] self.state(k).activity(t) is Idle
    }
}

impl MutexSystem {
    /// The threads that want the mutex and do not have it.
    pub open spec fn wanting(self) -> Set<u64> {
        Set::new(|u: u64| wants(self.activity(u)))
    }

    /// The threads that are on their way to wake the first thread in the queue.
    pub open spec fn releasing(self) -> Set<u64> {
        Set::new(|u: u64| is_releasing(self.activity(u)))
    }

    /// Whether a thread may still lock the queue to enter it before the mutex changes hands.
    pub open spec fn may_enter(self, u: u64) -> bool {
        if is_locked(self.memory.state) {
            wants(self.activity(u)) && !self.in_line(u)
        } else {
            is_on_way_in(self.activity(u))
        }
    }

    /// Those threads.
    pub open spec fn entering(self) -> Set<u64> {
        Set::new(|u: u64| self.may_enter(u))
    }

    /// How far a thread that has the queue for itself is from giving it up.
    pub open spec fn burden_of(self, activity: MutexActivity) -> nat {
        match activity {
            MutexActivity::Acquiring(AcquireOp::FindTail { tail, .. }) => {
                (self.path.len() - self.path.index_of(tail) + 5) as nat
            },
            MutexActivity::Acquiring(AcquireOp::Append { .. }) => 5,
            MutexActivity::Acquiring(AcquireOp::Publish { .. }) => 4,
            MutexActivity::Acquiring(_) => 2,
            MutexActivity::Releasing(ReleaseOp::ReadNext { .. }) => 1,
            _ => 0,
        }
    }

    /// The same, where the queue may be free for the next thread.
    pub open spec fn burden(self) -> nat {
        if is_queue_locked(self.memory.state) {
            self.burden_of(self.activity(choose|u: u64| locks_queue(#[trigger] self.activity(u))))
        } else {
            3
        }
    }

    /// What is still to be done until all threads have had the mutex.
    pub open spec fn toil(self) -> (nat, nat, nat, nat, nat) {
        (
            self.wanting().len(),
            if is_locked(self.memory.state) {
                1
            } else {
                0
            },
            self.releasing().len(),
            self.entering().len(),
            self.burden(),
        )
    }

    /// Whether what comes next can be brought about by `h`.
    pub open spec fn relies_on(self, h: u64) -> bool {
        if is_queue_locked(self.memory.state) {
            locks_queue(self.activity(h))
        } else {
            ||| is_releasing(self.activity(h))
            ||| self.holds(h)
            ||| !is_locked(self.memory.state) && (self.tries(h) || is_on_way_in(self.activity(h)))
        }
    }

    /// How far `h` is from bringing that about.
    pub open spec fn way_of(self, h: u64) -> nat {
        match self.activity(h) {
            MutexActivity::Idle => 0,
            MutexActivity::Trying(op) => match op {
                TryLockOp::Load => 2,
                TryLockOp::Exchange { state } => self.stale(state),
                TryLockOp::Done { .. } => 3,
            },
            MutexActivity::Acquiring(op) => match op {
                AcquireOp::Load => 2,
                AcquireOp::Exchange { state } => self.stale(state),
                AcquireOp::Allocate => 3,
                AcquireOp::LoadQueue { .. } => 2,
                AcquireOp::Spin { turns, .. } => (3 + turns) as nat,
                AcquireOp::LockQueue { state, .. } => self.stale(state),
                AcquireOp::Enter { state, .. } => self.stale(state),
                AcquireOp::Retreat { state, .. } => self.stale(state),
                AcquireOp::Publish { state, .. } => self.stale(state),
                AcquireOp::Free { .. } => 3,
                AcquireOp::Look { .. } => 4,
                AcquireOp::Park { .. } => 5,
                AcquireOp::Held => 3,
                _ => 0,
            },
            MutexActivity::Releasing(op) => match op {
                ReleaseOp::Load => 2,
                ReleaseOp::Exchange { state } => self.stale(state),
                ReleaseOp::LoadQueue => 2,
                ReleaseOp::Spin { turns } => (3 + turns) as nat,
                ReleaseOp::LockQueue { state } => self.stale(state),
                ReleaseOp::Publish { state, .. } => self.stale(state),
                ReleaseOp::ReadThread { .. } => 8,
                ReleaseOp::Mark { .. } => 7,
                ReleaseOp::Wake { .. } => 6,
                _ => 0,
            },
        }
    }

    /// Whether less is to be done in `post`, by `x`, than here, by `h`.
    pub open spec fn has_less_toil(self, post: Self, h: u64, x: u64) -> bool {
        &&& post.relies_on(x)
        &&& post.toil() == self.toil() && post.way_of(x) < self.way_of(h)
    }

    /// Whether a step of thread `u` does not add to what is to be done.
    pub open spec fn goes_on(self, post: Self, h: u64, u: u64, chance: Chance) -> bool {
        ||| is_less(post.toil(), self.toil())
        ||| exists|x: u64| #[trigger] self.has_less_toil(post, h, x)
        ||| {
            &&& u != h || chance.fails
            &&& post.relies_on(h)
            &&& post.toil() == self.toil()
            &&& post.way_of(h) == self.way_of(h)
        }
    }
}

/// The sets of threads are finite.
proof fn crowds_are_finite(s: MutexSystem)
    ensures
        s.wanting().finite(),
        s.releasing().finite(),
        s.entering().finite(),
{
    u64::full_properties();
    assert(s.wanting().subset_of(Set::full()));
    assert(s.releasing().subset_of(Set::full()));
    assert(s.entering().subset_of(Set::full()));
    lemma_len_subset(s.wanting(), Set::full());
    lemma_len_subset(s.releasing(), Set::full());
    lemma_len_subset(s.entering(), Set::full());
}

/// Whether a step changes who wants the mutex, has it or is about to wake a thread.
spec fn is_big_step(s: MutexSystem, u: u64, chance: Chance) -> bool {
    let post = s.step(u, chance);
    ||| wants(s.activity(u)) && !wants(post.activity(u))
    ||| s.holds(u) && !post.holds(u)
    ||| is_releasing(s.activity(u)) && !is_releasing(post.activity(u))
}

/// Such a step leaves less to be done.
proof fn big_step_leaves_less(s: MutexSystem, u: u64, chance: Chance)
    requires
        s.inv(),
        s.can_step(u, chance),
        s.activity(u) !is Idle,
        is_big_step(s, u, chance),
    ensures
        is_less(s.step(u, chance).toil(), s.toil()),
{
    let post = s.step(u, chance);
    crowds_are_finite(s);
    crowds_are_finite(post);
    step_keeps_order(s, u, chance);
    assert(s.thread_inv(u));
    word_is_composed(s.memory.state);
    compose_is_faithful(address(s.memory.state), is_locked(s.memory.state), false);
    assert forall|v: u64| v != u implies #[trigger] post.activity(v) == s.activity(v) by {}
    assert forall|v: u64| v != u implies #[trigger] post.wanting().contains(v)
        == s.wanting().contains(v) by {
        assert(post.activity(v) == s.activity(v));
    }
    assert forall|v: u64| v != u implies #[trigger] post.releasing().contains(v)
        == s.releasing().contains(v) by {
        assert(post.activity(v) == s.activity(v));
    }
    if wants(s.activity(u)) && !wants(post.activity(u)) {
        assert(post.wanting() =~= s.wanting().remove(u));
        assert(s.wanting().contains(u));
    } else {
        assert(post.wanting().contains(u) == s.wanting().contains(u));
        assert(post.wanting() =~= s.wanting());
        if s.holds(u) && !post.holds(u) {
            assert(s.is_held());
            assert(!post.is_held()) by {
                if post.is_held() {
                    let v = choose|v: u64| post.holds(v);
                    assert(v != u);
                    assert(post.activity(v) == s.activity(v));
                    assert(s.holds(v));
                }
            }
        } else {
            assert(locks_queue(s.activity(u)));
            if let MutexActivity::Releasing(ReleaseOp::Publish { next, .. }) = s.activity(u) {
                compose_is_faithful(next, is_locked(s.memory.state), false);
            }
            assert(is_locked(post.memory.state) == is_locked(s.memory.state));
            assert(post.releasing() =~= s.releasing().remove(u));
            assert(s.releasing().contains(u));
        }
    }
}

/// Another step leaves it as it is who is in line but the thread that makes it.
proof fn line_is_left_alone(s: MutexSystem, v: u64, u: u64, chance: Chance)
    requires
        s.inv(),
        s.can_step(u, chance),
        !takes_out(s, u, chance),
    ensures
        u != v ==> s.step(u, chance).in_line(v) == s.in_line(v),
        s.in_line(v) ==> s.step(u, chance).in_line(v),
        s.step(u, chance).path == s.path || s.step(u, chance).path == s.path.push(
            node_of(s.activity(u))->0,
        ),
{
    let post = s.step(u, chance);
    assert(s.thread_inv(u));
    assert(s.thread_inv(v));
    assert(u != v ==> post.activity(v) == s.activity(v));
    assert(s.path.len() > 0 ==> s.path[0] != 0);
    if node_of(s.activity(v)) is Some {
        let node = node_of(s.activity(v))->0;
        if s.path.contains(node) {
            let k = choose|k: int| 0 <= k < s.path.len() && s.path[k] == node;
            assert(post.path[k] == node);
            assert(post.path.contains(node));
        } else if post.path.contains(node) && u != v {
            let k = choose|k: int| 0 <= k < post.path.len() && post.path[k] == node;
            assert(k < s.path.len() ==> s.path[k] == node);
            assert(node_of(s.activity(u)) == Some(node));
        }
        if u == v && post.path != s.path {
            assert(post.path[s.path.len() as int] == node);
            assert(post.path.contains(node));
        }
    }
}

/// How the rest changes in a step that changes none of that.
proof fn small_step_keeps_crowds(s: MutexSystem, u: u64, chance: Chance)
    requires
        s.inv(),
        s.can_step(u, chance),
        s.activity(u) !is Idle,
        !is_big_step(s, u, chance),
    ensures
        ({
            let post = s.step(u, chance);
            &&& !takes_out(s, u, chance)
            &&& post.wanting() == s.wanting()
            &&& post.releasing() == s.releasing()
            &&& is_locked(post.memory.state) == is_locked(s.memory.state)
            &&& post.holds(u) == s.holds(u)
            &&& s.may_enter(u) && !post.may_enter(u) ==> post.entering().len() < s.entering().len()
            &&& s.may_enter(u) || !post.may_enter(u)
            &&& s.may_enter(u) == post.may_enter(u) ==> post.entering() == s.entering()
        }),
{
    let post = s.step(u, chance);
    let word = s.memory.state;
    crowds_are_finite(s);
    step_keeps_order(s, u, chance);
    assert(s.thread_inv(u));
    assert(s.path.len() > 0 ==> s.path[0] != 0);
    word_is_composed(word);
    compose_is_faithful(address(word), true, is_queue_locked(word));
    compose_is_faithful(address(word), false, is_queue_locked(word));
    compose_is_faithful(address(word), is_locked(word), true);
    compose_is_faithful(address(word), is_locked(word), false);
    if let MutexActivity::Acquiring(AcquireOp::Enter { node, .. }) = s.activity(u) {
        compose_is_faithful(node, true, false);
    }
    if s.holds(u) {
        assert(s.is_held());
    }
    if post.holds(u) {
        assert(post.is_held());
    }
    assert forall|v: u64| v != u implies #[trigger] post.activity(v) == s.activity(v) by {}
    assert forall|v: u64| #[trigger] post.wanting().contains(v) == s.wanting().contains(v) by {
        assert(v != u ==> post.activity(v) == s.activity(v));
    }
    assert(post.wanting() =~= s.wanting());
    assert forall|v: u64| #[trigger] post.releasing().contains(v) == s.releasing().contains(v) by {
        assert(v != u ==> post.activity(v) == s.activity(v));
    }
    assert(post.releasing() =~= s.releasing());
    assert(is_locked(post.memory.state) == is_locked(word));
    assert forall|v: u64| v != u implies #[trigger] post.entering().contains(v)
        == s.entering().contains(v) by {
        assert(post.activity(v) == s.activity(v));
        line_is_left_alone(s, v, u, chance);
    }
    line_is_left_alone(s, u, u, chance);
    assert(s.may_enter(u) || !post.may_enter(u));
    if s.may_enter(u) && !post.may_enter(u) {
        assert(post.entering() =~= s.entering().remove(u));
        assert(s.entering().contains(u));
    } else {
        assert(post.entering().contains(u) == s.entering().contains(u));
        assert(post.entering() =~= s.entering());
    }
}

/// How the use of the queue changes in a step that changes nothing else.
proof fn burden_shrinks(s: MutexSystem, u: u64, chance: Chance)
    requires
        s.inv(),
        s.can_step(u, chance),
        s.activity(u) !is Idle,
        !is_big_step(s, u, chance),
        s.step(u, chance).may_enter(u) == s.may_enter(u),
    ensures
        ({
            let post = s.step(u, chance);
            &&& post.burden() <= s.burden()
            &&& post.memory.state != s.memory.state ==> post.burden() < s.burden()
            &&& post.burden() == s.burden() ==> locks_queue(post.activity(u)) == locks_queue(
                s.activity(u),
            )
            &&& locks_queue(s.activity(u)) && post.burden() == s.burden() ==> match s.activity(u) {
                MutexActivity::Acquiring(AcquireOp::Enter { .. }) => true,
                MutexActivity::Acquiring(AcquireOp::Retreat { .. }) => true,
                MutexActivity::Acquiring(AcquireOp::Publish { .. }) => true,
                MutexActivity::Releasing(ReleaseOp::Publish { .. }) => true,
                _ => false,
            }
        }),
{
    let post = s.step(u, chance);
    let word = s.memory.state;
    small_step_keeps_crowds(s, u, chance);
    step_keeps_order(s, u, chance);
    line_is_left_alone(s, u, u, chance);
    assert(s.thread_inv(u));
    assert(s.path.len() > 0 ==> s.path[0] != 0);
    word_is_composed(word);
    compose_is_faithful(address(word), true, is_queue_locked(word));
    compose_is_faithful(address(word), false, is_queue_locked(word));
    compose_is_faithful(address(word), is_locked(word), true);
    compose_is_faithful(address(word), is_locked(word), false);
    if let MutexActivity::Acquiring(AcquireOp::Enter { node, .. }) = s.activity(u) {
        compose_is_faithful(node, true, false);
    }
    assert forall|v: u64| v != u implies #[trigger] post.activity(v) == s.activity(v) by {}
    if s.holds(u) {
        assert(s.is_held());
    }
    if is_queue_locked(word) {
        let w = choose|w: u64| locks_queue(#[trigger] s.activity(w));
        assert(locks_queue(s.activity(w)));
        assert(s.thread_inv(w));
        if w != u {
            assert(!locks_queue(s.activity(u)));
            assert(post.activity(w) == s.activity(w));
            assert(locks_queue(post.activity(w)));
            assert(is_queue_locked(post.memory.state));
            let x = choose|x: u64| locks_queue(#[trigger] post.activity(x));
            assert(x == w);
            assert(post.path == s.path);
            assert(!locks_queue(post.activity(u)));
        } else {
            if let MutexActivity::Acquiring(AcquireOp::FindTail { tail, .. }) = s.activity(u) {
                let k = s.path.index_of(tail);
                assert(s.path[k] == tail);
                assert(s.memory.nodes[s.path[k]].link() == after(s.path, k));
                if k + 1 < s.path.len() {
                    assert(s.path[k + 1] != 0);
                    place_is_unique(s.path, k + 1);
                }
            }
            if is_queue_locked(post.memory.state) {
                let x = choose|x: u64| locks_queue(#[trigger] post.activity(x));
                if x != u {
                    assert(post.activity(x) == s.activity(x));
                }
                assert(x == u);
            }
        }
    } else {
        assert(!locks_queue(s.activity(u)));
        if is_queue_locked(post.memory.state) {
            let x = choose|x: u64| locks_queue(#[trigger] post.activity(x));
            if x != u {
                assert(post.activity(x) == s.activity(x));
            }
            assert(x == u);
        }
    }
}

/// A step of the thread that all depends on, where it changes nothing but how far that thread is.
proof fn own_way_shortens(s: MutexSystem, h: u64, chance: Chance)
    requires
        s.inv(),
        s.relies_on(h),
        s.can_step(h, chance),
        s.activity(h) !is Idle,
        !is_big_step(s, h, chance),
        s.step(h, chance).toil() == s.toil(),
        s.step(h, chance).may_enter(h) == s.may_enter(h),
        s.step(h, chance).memory.state == s.memory.state,
    ensures
        s.goes_on(s.step(h, chance), h, h, chance),
{
    let post = s.step(h, chance);
    small_step_keeps_crowds(s, h, chance);
    burden_shrinks(s, h, chance);
    step_keeps_order(s, h, chance);
    assert(s.thread_inv(h));
    word_is_composed(s.memory.state);
    compose_is_faithful(address(s.memory.state), true, is_queue_locked(s.memory.state));
    compose_is_faithful(address(s.memory.state), is_locked(s.memory.state), true);
    if s.holds(h) {
        assert(s.is_held());
    }
    match s.activity(h) {
        MutexActivity::Releasing(ReleaseOp::Mark { head, thread }) => {
            assert(post.activity(thread) == s.activity(thread));
            if post.sleeps_marked(thread) {
                assert(s.has_less_toil(post, h, h));
            } else {
                assert(post.tries(thread));
                assert(s.has_less_toil(post, h, thread));
            }
        },
        MutexActivity::Releasing(ReleaseOp::Wake { thread }) => {
            assert(post.activity(thread) == s.activity(thread));
            assert(post.tries(thread));
            assert(s.has_less_toil(post, h, thread));
        },
        _ => {
            assert(post.relies_on(h));
            assert(post.way_of(h) < s.way_of(h) || (chance.fails && post.way_of(h) <= s.way_of(h)));
            assert(post.way_of(h) < s.way_of(h) ==> s.has_less_toil(post, h, h));
        },
    }
}

/// A step of another thread, where it changes nothing of what is counted.
proof fn others_leave_way(s: MutexSystem, h: u64, u: u64, chance: Chance)
    requires
        s.inv(),
        s.relies_on(h),
        u != h,
        s.can_step(u, chance),
        s.activity(u) !is Idle,
        !is_big_step(s, u, chance),
        s.step(u, chance).toil() == s.toil(),
        s.step(u, chance).may_enter(u) == s.may_enter(u),
        s.step(u, chance).memory.state == s.memory.state,
    ensures
        s.goes_on(s.step(u, chance), h, u, chance),
{
    let post = s.step(u, chance);
    assert(s.thread_inv(u));
    assert(s.thread_inv(h));
    assert(post.activity(h) == s.activity(h));
    if is_queue_locked(s.memory.state) || is_releasing(s.activity(h)) || s.holds(h)
        || is_on_way_in(s.activity(h)) {
        assert(post.relies_on(h));
    } else if let MutexActivity::Releasing(ReleaseOp::Wake { thread }) = s.activity(h) {
        assert(s.thread_inv(thread));
        if !post.sleeps_marked(thread) {
            assert(u != thread ==> post.activity(thread) == s.activity(thread));
            assert(post.tries(thread));
            assert(s.has_less_toil(post, h, thread));
        }
    }
}

/// A step that no idle thread makes.
proof fn step_goes_on(s: MutexSystem, h: u64, u: u64, chance: Chance)
    requires
        s.inv(),
        s.relies_on(h),
        s.can_step(u, chance),
        s.activity(u) !is Idle,
    ensures
        s.goes_on(s.step(u, chance), h, u, chance),
{
    let post = s.step(u, chance);
    if is_big_step(s, u, chance) {
        big_step_leaves_less(s, u, chance);
    } else {
        small_step_keeps_crowds(s, u, chance);
        if s.may_enter(u) == post.may_enter(u) {
            burden_shrinks(s, u, chance);
            if post.burden() == s.burden() {
                if u == h {
                    own_way_shortens(s, h, chance);
                } else {
                    others_leave_way(s, h, u, chance);
                }
            }
        }
    }
}

/// While a thread wants the mutex, has it or is about to wake another, all depends on some thread,
/// and it can go on.
proof fn some_thread_is_relied_on(s: MutexSystem, u: u64) -> (h: u64)
    requires
        s.inv(),
        s.attended_inv(),
        wants(s.activity(u)) || s.holds(u) || is_releasing(s.activity(u)),
    ensures
        s.relies_on(h),
        s.can_go_on(h),
{
    assert(s.thread_inv(u));
    if is_queue_locked(s.memory.state) {
        choose|w: u64| locks_queue(#[trigger] s.activity(w))
    } else if is_locked(s.memory.state) {
        choose|w: u64| s.holds(w)
    } else if is_releasing(s.activity(u)) {
        u
    } else {
        assert(!s.holds(u)) by {
            if s.holds(u) {
                assert(s.is_held());
            }
        }
        // A thread that sleeps is called by another or sees to it that one is.
        let v = if let Some(node) = sleep_node(s.activity(u)) {
            if s.memory.nodes[node].marked {
                u
            } else if s.is_called(node) {
                choose|r: u64| #[trigger] calls(s.activity(r), node)
            } else {
                assert(s.path.len() > 0);
                choose|v: u64| s.attends(v)
            }
        } else {
            u
        };
        assert(s.thread_inv(v));
        if s.sleeps_marked(v) {
            choose|r: u64| #[trigger]
                s.activity(r) == MutexActivity::Releasing(ReleaseOp::Wake { thread: v })
        } else {
            v
        }
    }
}

/// Whether all threads have had the mutex and let go of it.
pub open spec fn all_are_served(s: MutexSystem) -> bool {
    forall|u: u64|
        !wants(#[trigger] s.activity(u)) && !s.holds(u) && !is_releasing(s.activity(u))
}

/// On a run without new calls all threads have had the mutex in the end, seen from a moment at
/// which that depends on the step that `h` makes at `j`.
proof fn all_come_to_be_served(run: MutexRun, from: nat, i: nat, h: u64, j: nat) -> (end: nat)
    requires
        run.is_fair(),
        run.no_call_begins(from),
        from <= i,
        run.state(i).relies_on(h),
        i <= j,
        run.turn(j) == h,
        !run.chance(j).fails,
    ensures
        i <= end,
        all_are_served(run.state(end)),
    decreases
            run.state(i).toil().0,
            run.state(i).toil().1,
            run.state(i).toil().2,
            run.state(i).toil().3,
            run.state(i).toil().4,
            run.state(i).way_of(h),
            j - i,
{
    let s = run.state(i);
    let post = run.state(i + 1);
    let u = run.turn(i);
    mutex_run_is_in_order(run, i);
    mutex_run_is_in_order(run, i + 1);
    assert(run.moves(i));
    assert(!(s.activity(run.turn(i)) is Idle));
    step_goes_on(s, h, u, run.chance(i));
    if all_are_served(post) {
        i + 1
    } else if is_less(post.toil(), s.toil()) {
        let v = choose|v: u64|
            wants(#[trigger] post.activity(v)) || post.holds(v) || is_releasing(post.activity(v));
        let x = some_thread_is_relied_on(post, v);
        let k = choose|k: nat| i + 1 <= k && #[trigger] run.turn(k) == x && !run.chance(k).fails;
        all_come_to_be_served(run, from, i + 1, x, k)
    } else if exists|x: u64| #[trigger] s.has_less_toil(post, h, x) {
        let x = choose|x: u64| #[trigger] s.has_less_toil(post, h, x);
        relied_on_can_go_on(post, x);
        let k = choose|k: nat| i + 1 <= k && #[trigger] run.turn(k) == x && !run.chance(k).fails;
        all_come_to_be_served(run, from, i + 1, x, k)
    } else {
        all_come_to_be_served(run, from, i + 1, h, j)
    }
}

proof fn relied_on_can_go_on(s: MutexSystem, h: u64)
    requires
        s.relies_on(h),
    ensures
        s.can_go_on(h),
{
}

/// Once all threads have had the mutex, none wants it again.
proof fn rest_lasts(run: MutexRun, from: nat, i: nat, k: nat)
    requires
        run.is_fair(),
        run.no_call_begins(from),
        from <= i <= k,
        all_are_served(run.state(i)),
    ensures
        all_are_served(run.state(k)),
    decreases k - i,
{
    if i < k {
        let m = (k - 1) as nat;
        rest_lasts(run, from, i, m);
        assert(run.moves(m));
        assert(!(run.state(m).activity(run.turn(m)) is Idle));
        assert forall|u: u64|
            !wants(#[trigger] run.state(k).activity(u)) && !run.state(k).holds(u) && !is_releasing(
                run.state(k).activity(u),
            ) by {
            assert(!wants(run.state(m).activity(u)));
            assert(u != run.turn(m) ==> run.state(k).activity(u) == run.state(m).activity(u));
        }
    }
}

/// How many steps a thread still makes that does not want the mutex any more.
spec fn steps_left(activity: MutexActivity) -> nat {
    match activity {
        MutexActivity::Idle => 0,
        MutexActivity::Releasing(ReleaseOp::ReadThread { .. }) => 4,
        MutexActivity::Releasing(ReleaseOp::Mark { .. }) => 3,
        MutexActivity::Releasing(ReleaseOp::Wake { .. }) => 2,
        _ => 1,
    }
}

/// Such a thread makes a step only in its turn.
proof fn steps_only_shrink(run: MutexRun, from: nat, i: nat, k: nat, t: u64)
    requires
        run.is_fair(),
        run.no_call_begins(from),
        from <= i <= k,
        all_are_served(run.state(i)),
    ensures
        steps_left(run.state(k).activity(t)) <= steps_left(run.state(i).activity(t)),
    decreases k - i,
{
    if i < k {
        let m = (k - 1) as nat;
        steps_only_shrink(run, from, i, m, t);
        rest_lasts(run, from, i, m);
        assert(run.moves(m));
        assert(!(run.state(m).activity(run.turn(m)) is Idle));
        assert(!wants(run.state(m).activity(t)));
        assert(run.turn(m) != t ==> run.state(k).activity(t) == run.state(m).activity(t));
    }
}

/// A thread that does not want the mutex any more is idle after its next steps.
proof fn call_ends(run: MutexRun, from: nat, i: nat, t: u64) -> (end: nat)
    requires
        run.is_fair(),
        run.no_call_begins(from),
        from <= i,
        all_are_served(run.state(i)),
    ensures
        i <= end,
        run.state(end).activity(t) is Idle,
        all_are_served(run.state(end)),
    decreases steps_left(run.state(i).activity(t)),
{
    assert(!wants(run.state(i).activity(t)));
    if run.state(i).activity(t) is Idle {
        i
    } else {
        assert(run.state(i).can_go_on(t));
        let j = choose|j: nat|
            i <= j && #[trigger] run.turn(j) == t && !run.chance(j).fails;
        rest_lasts(run, from, i, j);
        rest_lasts(run, from, i, j + 1);
        steps_only_shrink(run, from, i, j, t);
        assert(run.moves(j));
        assert(!wants(run.state(j).activity(t)));
        assert(!(run.state(j).activity(run.turn(j)) is Idle));
        call_ends(run, from, j + 1, t)
    }
}

/// Every call ends: on a run on which no thread stops for good and no call begins from some moment
/// on, every thread that wanted the mutex has had it, or was told that it could not, and has let
/// go of it, and nobody waits any more.
pub proof fn every_mutex_call_returns(run: MutexRun, from: nat, t: u64)
    requires
        run.is_fair(),
        run.no_call_begins(from),
    ensures
        exists|j: nat| from <= j && #[trigger] run.is_idle_from(t, j),
{
    let s = run.state(from);
    mutex_run_is_in_order(run, from);
    let end = if all_are_served(s) {
        from
    } else {
        let u = choose|u: u64|
            wants(#[trigger] s.activity(u)) || s.holds(u) || is_releasing(s.activity(u));
        let h = some_thread_is_relied_on(s, u);
        let j = choose|j: nat| from <= j && #[trigger] run.turn(j) == h && !run.chance(j).fails;
        all_come_to_be_served(run, from, from, h, j)
    };
    let j = call_ends(run, from, end, t);
    assert forall|k: nat| j <= k implies #[trigger] run.state(k).activity(t) is Idle by {
        steps_only_shrink(run, from, j, k, t);
    }
    assert(run.is_idle_from(t, j));
}

} // verus!
