//! A thread that waits for a queue-based mutex is called, as long as no thread stops for good.
//! Whether it then gets the mutex is another matter: it tries again, and a thread that has not
//! waited may be faster.

use crate::chain::{after, place_is_unique, Linked};
use crate::queue_mutex::{AcquireOp, ReleaseOp, TryLockOp};
use crate::queue_mutex_laws::step_keeps_attended;
use crate::queue_mutex_steps::{start_is_in_order, step_keeps_order};
use crate::queue_mutex_system::{
    calls, locks_queue, node_of, sleep_node, Chance, MutexActivity, MutexSystem,
};
use crate::word::{address, compose_is_faithful, is_locked, is_queue_locked, word_is_composed};
use vstd::prelude::*;
use vstd::set_lib::{lemma_len_subset, FiniteFull};

verus! {

/// A run that does not end: in each step one thread takes its turn.
pub struct MutexRun {
    pub states: spec_fn(nat) -> MutexSystem,
    pub turns: spec_fn(nat) -> u64,
    pub chances: spec_fn(nat) -> Chance,
}

impl MutexRun {
    /// The state before a step.
    pub open spec fn state(self, i: nat) -> MutexSystem {
        (self.states)(i)
    }

    /// The thread that makes a step.
    pub open spec fn turn(self, i: nat) -> u64 {
        (self.turns)(i)
    }

    /// What chance adds to a step.
    pub open spec fn chance(self, i: nat) -> Chance {
        (self.chances)(i)
    }

    /// One step leads from each state to the next.
    pub open spec fn moves(self, i: nat) -> bool {
        &&& self.state(i).can_step(self.turn(i), self.chance(i))
        &&& self.state(i + 1) == self.state(i).step(self.turn(i), self.chance(i))
    }

    /// The run starts with a free mutex that no thread uses, and no thread stops for good: one
    /// that can go on has its turn again, and not only such turns in which an exchange fails for
    /// no reason. A thread that has the mutex so lets go of it in the end.
    pub open spec fn is_fair(self) -> bool {
        &&& self.state(0).init()
        &&& forall|i: nat| #[trigger] self.moves(i)
        &&& forall|i: nat, t: u64| #[trigger]
            self.state(i).can_go_on(t) ==> exists|j: nat|
                i <= j && #[trigger] self.turn(j) == t && !self.chance(j).fails
    }
}

/// Whether an operation is on its way to wake the first thread in the queue.
pub open spec fn is_releasing(activity: MutexActivity) -> bool {
    activity matches MutexActivity::Releasing(op) && (op is LoadQueue || op is Spin || op
        is LockQueue || op is ReadNext || op is Publish)
}

/// Whether one tuple of numbers comes before another, the first number counting most.
pub open spec fn is_less(a: (nat, nat, nat, nat, nat), b: (nat, nat, nat, nat, nat)) -> bool {
    ||| a.0 < b.0
    ||| a.0 == b.0 && a.1 < b.1
    ||| a.0 == b.0 && a.1 == b.1 && a.2 < b.2
    ||| a.0 == b.0 && a.1 == b.1 && a.2 == b.2 && a.3 < b.3
    ||| a.0 == b.0 && a.1 == b.1 && a.2 == b.2 && a.3 == b.3 && a.4 < b.4
}

impl MutexSystem {
    /// Whether a thread can go on: it uses the mutex, and does not sleep or was unparked.
    pub open spec fn can_go_on(self, t: u64) -> bool {
        match self.activity(t) {
            MutexActivity::Idle => false,
            MutexActivity::Acquiring(AcquireOp::Park { .. }) => self.tokens.contains(t),
            _ => true,
        }
    }

    /// Whether a thread is in the queue, or has it for itself to join others there.
    pub open spec fn in_line(self, t: u64) -> bool {
        ||| self.activity(t) matches MutexActivity::Acquiring(op) && (op is FindTail || op
            is Append)
        ||| node_of(self.activity(t)) matches Some(node) && self.path.contains(node)
    }

    /// Whether a thread is in the queue, or was called and has not tried again for the mutex.
    pub open spec fn waits(self, t: u64) -> bool {
        ||| self.in_line(t)
        ||| sleep_node(self.activity(t)) is Some
        ||| self.activity(t) matches MutexActivity::Acquiring(AcquireOp::Free { .. })
    }

    /// How many threads have to come out of the queue until a thread that waits does.
    pub open spec fn place(self, t: u64) -> nat {
        let node = node_of(self.activity(t))->0;
        if self.path.contains(node) {
            (self.path.index_of(node) + 1) as nat
        } else if locks_queue(self.activity(t)) {
            self.path.len() + 1
        } else {
            0
        }
    }

    /// How far a thread that was called is from trying again.
    pub open spec fn stage(self, t: u64) -> nat {
        match self.activity(t) {
            MutexActivity::Acquiring(AcquireOp::Free { .. }) => 2,
            MutexActivity::Acquiring(op) => {
                let node = node_of(self.activity(t))->0;
                if !self.memory.nodes[node].marked {
                    if exists|r: u64| #[trigger]
                        self.activity(r) == MutexActivity::Releasing(
                            ReleaseOp::ReadThread { head: node },
                        ) {
                        7
                    } else {
                        6
                    }
                } else if op is Look {
                    3
                } else if self.tokens.contains(t) {
                    4
                } else {
                    5
                }
            },
            _ => 0,
        }
    }

    /// The threads that neither have the mutex nor are on their way to wake the first thread.
    pub open spec fn outsiders(self) -> Set<u64> {
        Set::new(|u: u64| !self.holds(u) && !is_releasing(self.activity(u)))
    }

    /// The threads that are not in line.
    pub open spec fn newcomers(self) -> Set<u64> {
        Set::new(|u: u64| !self.in_line(u))
    }

    /// How far a thread that has the queue for itself is from giving it up or from taking a thread
    /// out of it.
    pub open spec fn work_of(self, activity: MutexActivity) -> nat {
        match activity {
            MutexActivity::Acquiring(AcquireOp::FindTail { tail, .. }) => {
                (self.path.len() - self.path.index_of(tail) + 5) as nat
            },
            MutexActivity::Acquiring(AcquireOp::Append { .. }) => 5,
            MutexActivity::Acquiring(_) => 4,
            MutexActivity::Releasing(ReleaseOp::ReadNext { .. }) => 1,
            _ => 0,
        }
    }

    /// The same, where the queue may be free for the next thread.
    pub open spec fn work(self) -> nat {
        if is_queue_locked(self.memory.state) {
            self.work_of(self.activity(choose|u: u64| locks_queue(#[trigger] self.activity(u))))
        } else {
            2
        }
    }

    /// What is still to be done until thread `t` tries again for the mutex.
    pub open spec fn rank(self, t: u64) -> (nat, nat, nat, nat, nat) {
        if self.place(t) == 0 {
            (0, self.stage(t), 0, 0, 0)
        } else {
            (
                self.place(t),
                self.outsiders().len(),
                if self.is_held() {
                    1
                } else {
                    0
                },
                self.newcomers().len(),
                self.work(),
            )
        }
    }

    /// Whether a thread that does not have the mutex is on its way to it, or to call a thread or
    /// to wake one that was called, while the mutex is free.
    pub open spec fn tries(self, h: u64) -> bool {
        match self.activity(h) {
            MutexActivity::Trying(op) => op is Load || op is Exchange,
            MutexActivity::Acquiring(op) => match op {
                AcquireOp::Load => true,
                AcquireOp::Exchange { .. } => true,
                AcquireOp::Free { .. } => true,
                AcquireOp::Look { node } => self.memory.nodes[node].marked,
                AcquireOp::Park { node } => self.memory.nodes[node].marked
                    && self.tokens.contains(h),
                _ => false,
            },
            MutexActivity::Releasing(op) => match op {
                ReleaseOp::ReadThread { .. } => true,
                ReleaseOp::Mark { .. } => true,
                ReleaseOp::Wake { thread } => self.sleeps_marked(thread),
                _ => false,
            },
            MutexActivity::Idle => false,
        }
    }

    /// Whether a thread sleeps though it was called, and was not unparked.
    pub open spec fn sleeps_marked(self, t: u64) -> bool {
        self.activity(t) matches MutexActivity::Acquiring(AcquireOp::Park { node })
            && self.memory.nodes[node].marked && !self.tokens.contains(t)
    }

    /// Whether what comes next for thread `t` can be brought about by `h`.
    pub open spec fn helps(self, t: u64, h: u64) -> bool {
        if self.place(t) == 0 {
            if self.stage(t) == 7 {
                self.activity(h) == MutexActivity::Releasing(
                    ReleaseOp::ReadThread { head: node_of(self.activity(t))->0 },
                )
            } else if self.stage(t) == 6 {
                calls(self.activity(h), node_of(self.activity(t))->0)
            } else if self.stage(t) == 5 {
                self.activity(h) == MutexActivity::Releasing(ReleaseOp::Wake { thread: t })
            } else {
                h == t
            }
        } else if is_queue_locked(self.memory.state) {
            locks_queue(self.activity(h))
        } else {
            ||| is_releasing(self.activity(h))
            ||| self.holds(h)
            ||| !is_locked(self.memory.state) && self.tries(h)
        }
    }

    /// How far an exchange of a state word is from being made.
    pub open spec fn stale(self, state: usize) -> nat {
        if state == self.memory.state {
            0
        } else {
            1
        }
    }

    /// How far `h` is from bringing that about.
    pub open spec fn distance(self, t: u64, h: u64) -> nat {
        if self.place(t) == 0 {
            0
        } else {
            match self.activity(h) {
                MutexActivity::Idle => 0,
                MutexActivity::Trying(op) => match op {
                    TryLockOp::Load => 2,
                    TryLockOp::Exchange { state } => self.stale(state),
                    TryLockOp::Done { .. } => 3,
                },
                MutexActivity::Acquiring(op) => match op {
                    AcquireOp::Load => 2,
                    AcquireOp::Exchange { state } => self.stale(state),
                    AcquireOp::Free { .. } => 3,
                    AcquireOp::Look { .. } => 4,
                    AcquireOp::Park { .. } => 5,
                    AcquireOp::Held => 3,
                    AcquireOp::Publish { state, .. } => self.stale(state),
                    _ => 0,
                },
                MutexActivity::Releasing(op) => match op {
                    ReleaseOp::Load => 2,
                    ReleaseOp::Exchange { state } => self.stale(state),
                    ReleaseOp::LoadQueue => 2,
                    ReleaseOp::Spin { turns } => (3 + turns) as nat,
                    ReleaseOp::LockQueue { state } => self.stale(state),
                    ReleaseOp::Publish { state, .. } => self.stale(state),
                    ReleaseOp::ReadThread { .. } => 8,
                    ReleaseOp::Mark { .. } => 7,
                    ReleaseOp::Wake { .. } => 6,
                    _ => 0,
                },
            }
        }
    }

    /// Whether less is to be done in `post`, by `x`, than here, by `h`.
    pub open spec fn comes_nearer(self, post: Self, t: u64, h: u64, x: u64) -> bool {
        &&& post.helps(t, x)
        &&& is_less(post.rank(t), self.rank(t)) || (post.rank(t) == self.rank(t) && post.distance(
            t,
            x,
        ) < self.distance(t, h))
    }

    /// Whether as much is to be done in `post`, by the same thread.
    pub open spec fn stays_as_near(self, post: Self, t: u64, h: u64) -> bool {
        &&& post.helps(t, h)
        &&& post.rank(t) == self.rank(t)
        &&& post.distance(t, h) == self.distance(t, h)
    }

    /// Whether a step of thread `u` does not take a thread farther from trying again.
    pub open spec fn goes_well(self, post: Self, t: u64, h: u64, u: u64, chance: Chance) -> bool {
        ||| post.activity(t) == MutexActivity::Acquiring(AcquireOp::Load)
        ||| {
            &&& post.waits(t)
            &&& {
                ||| exists|x: u64| #[trigger] self.comes_nearer(post, t, h, x)
                ||| (u != h || chance.fails) && self.stays_as_near(post, t, h)
            }
        }
    }
}

/// What is known of a thread that waits.
proof fn waiting_thread_is_somewhere(s: MutexSystem, t: u64)
    requires
        s.inv(),
        s.waits(t),
    ensures
        node_of(s.activity(t)) is Some,
        s.place(t) > 0 <==> s.in_line(t),
        s.place(t) > 0 ==> s.path.len() > 0 && s.path[0] != 0,
        s.place(t) == 0 && s.stage(t) >= 6 ==> s.is_called(node_of(s.activity(t))->0),
        s.place(t) == 0 ==> s.stage(t) >= 2,
        s.path.contains(node_of(s.activity(t))->0) ==> {
            let k = s.path.index_of(node_of(s.activity(t))->0);
            0 <= k < s.path.len() && s.path[k] == node_of(s.activity(t))->0
        },
{
    assert(s.thread_inv(t));
    if s.in_line(t) {
        assert(s.path.len() > 0);
        assert(s.path[0] != 0);
    }
}

/// Some thread helps.
proof fn some_thread_helps(s: MutexSystem, t: u64) -> (h: u64)
    requires
        s.inv(),
        s.attended_inv(),
        s.waits(t),
    ensures
        s.helps(t, h),
{
    waiting_thread_is_somewhere(s, t);
    assert(s.thread_inv(t));
    let node = node_of(s.activity(t))->0;
    if s.place(t) == 0 {
        if s.stage(t) == 7 {
            choose|r: u64| #[trigger]
                s.activity(r) == MutexActivity::Releasing(ReleaseOp::ReadThread { head: node })
        } else if s.stage(t) == 6 {
            choose|r: u64| #[trigger] calls(s.activity(r), node)
        } else if s.stage(t) == 5 {
            choose|r: u64| #[trigger]
                s.activity(r) == MutexActivity::Releasing(ReleaseOp::Wake { thread: t })
        } else {
            t
        }
    } else if is_queue_locked(s.memory.state) {
        choose|u: u64| locks_queue(#[trigger] s.activity(u))
    } else if is_locked(s.memory.state) {
        choose|u: u64| s.holds(u)
    } else {
        let u = choose|u: u64| s.attends(u);
        assert(s.attends(u));
        assert(s.thread_inv(u));
        if s.sleeps_marked(u) {
            choose|r: u64| #[trigger]
                s.activity(r) == MutexActivity::Releasing(ReleaseOp::Wake { thread: u })
        } else {
            u
        }
    }
}

proof fn helper_can_go_on(s: MutexSystem, t: u64, h: u64)
    requires
        s.inv(),
        s.waits(t),
        s.helps(t, h),
    ensures
        s.can_go_on(h),
{
    waiting_thread_is_somewhere(s, t);
    assert(s.thread_inv(t));
}

/// Whether a step takes the first node out of the queue.
pub open spec fn takes_out(s: MutexSystem, u: u64, chance: Chance) -> bool {
    &&& s.activity(u) matches MutexActivity::Releasing(ReleaseOp::Publish { state, .. })
    &&& state == s.memory.state
    &&& !chance.fails
}

/// A step that takes the first node out brings all others in the queue nearer.
proof fn line_moves_up(s: MutexSystem, t: u64, u: u64, chance: Chance)
    requires
        s.inv(),
        s.waits(t),
        s.place(t) > 0,
        s.can_step(u, chance),
        takes_out(s, u, chance),
    ensures
        s.step(u, chance).waits(t),
        s.step(u, chance).place(t) < s.place(t),
{
    let post = s.step(u, chance);
    waiting_thread_is_somewhere(s, t);
    step_keeps_order(s, u, chance);
    assert(s.thread_inv(u));
    assert(s.thread_inv(t));
    assert(locks_queue(s.activity(u)));
    assert(u != t);
    assert(post.activity(t) == s.activity(t));
    assert(!locks_queue(s.activity(t)));
    let node = node_of(s.activity(t))->0;
    let k = s.path.index_of(node);
    assert(s.path[k] == node);
    assert(post.path == s.path.drop_first());
    if k > 0 {
        assert(post.path[k - 1] == node);
        place_is_unique(post.path, k - 1);
    } else {
        assert(!post.path.contains(node)) by {
            if post.path.contains(node) {
                let m = choose|m: int| 0 <= m < post.path.len() && post.path[m] == node;
                assert(s.path[m + 1] == node);
            }
        }
    }
}

/// A step that takes no node out leaves the threads in line where they are.
proof fn line_stays(s: MutexSystem, t: u64, u: u64, chance: Chance)
    requires
        s.inv(),
        s.in_line(t),
        s.can_step(u, chance),
        !takes_out(s, u, chance),
        s.path.len() > 0,
    ensures
        s.step(u, chance).in_line(t),
        s.step(u, chance).place(t) == s.place(t),
        s.step(u, chance).path == s.path || (s.activity(u) matches MutexActivity::Acquiring(op)
            && op is Append),
        node_of(s.step(u, chance).activity(t)) == node_of(s.activity(t)),
{
    let post = s.step(u, chance);
    step_keeps_order(s, u, chance);
    assert(s.thread_inv(u));
    assert(s.thread_inv(t));
    assert(s.path[0] != 0);
    assert(u != t ==> post.activity(t) == s.activity(t));
    let node = node_of(s.activity(t))->0;
    if post.path != s.path {
        let pushed = post.path.last();
        assert(post.path == s.path.push(pushed));
        assert(node_of(s.activity(u)) == Some(pushed));
        if s.path.contains(node) {
            let k = s.path.index_of(node);
            assert(s.path[k] == node);
            assert(post.path[k] == node);
            place_is_unique(post.path, k);
        } else if u == t {
            place_is_unique(post.path, s.path.len() as int);
        } else {
            assert(locks_queue(s.activity(u)));
            assert(locks_queue(s.activity(t)));
        }
    } else if s.path.contains(node) {
        let k = s.path.index_of(node);
        assert(s.path[k] == node);
    }
}

/// How the sets of threads change in a step that takes no node out.
proof fn crowds_shrink(s: MutexSystem, t: u64, u: u64, chance: Chance)
    requires
        s.inv(),
        s.waits(t),
        s.place(t) > 0,
        s.can_step(u, chance),
        !takes_out(s, u, chance),
    ensures
        ({
            let post = s.step(u, chance);
            &&& post.outsiders().len() <= s.outsiders().len()
            &&& post.newcomers().len() <= s.newcomers().len()
            &&& post.holds(u) && !s.holds(u) ==> post.outsiders().len() < s.outsiders().len()
            &&& post.in_line(u) && !s.in_line(u) ==> post.newcomers().len() < s.newcomers().len()
            &&& s.outsiders() == post.outsiders() || (post.holds(u) && !s.holds(u))
            &&& s.newcomers() == post.newcomers() || (post.in_line(u) && !s.in_line(u))
            &&& s.holds(u) && !post.holds(u) ==> is_releasing(post.activity(u))
            &&& is_releasing(s.activity(u)) ==> is_releasing(post.activity(u))
        }),
{
    let post = s.step(u, chance);
    waiting_thread_is_somewhere(s, t);
    assert(s.thread_inv(u));
    u64::full_properties();
    assert(s.outsiders().subset_of(Set::full()));
    assert(s.newcomers().subset_of(Set::full()));
    lemma_len_subset(s.outsiders(), Set::full());
    lemma_len_subset(s.newcomers(), Set::full());
    assert forall|v: u64| v != u implies #[trigger] post.activity(v) == s.activity(v) by {}
    assert forall|v: u64| v != u implies #[trigger] post.outsiders().contains(v)
        == s.outsiders().contains(v) by {
        assert(post.activity(v) == s.activity(v));
    }
    assert forall|v: u64| v != u implies #[trigger] post.newcomers().contains(v)
        == s.newcomers().contains(v) by {
        assert(post.activity(v) == s.activity(v));
        others_stay_in_line(s, v, u, chance);
    }
    if s.in_line(u) {
        line_stays(s, u, u, chance);
    }
    if post.holds(u) && !s.holds(u) {
        assert(post.outsiders() =~= s.outsiders().remove(u));
        assert(s.outsiders().contains(u));
    } else {
        assert(post.outsiders().contains(u) == s.outsiders().contains(u));
        assert(post.outsiders() =~= s.outsiders());
    }
    if post.in_line(u) && !s.in_line(u) {
        assert(post.newcomers() =~= s.newcomers().remove(u));
        assert(s.newcomers().contains(u));
    } else {
        assert(post.newcomers().contains(u) == s.newcomers().contains(u));
        assert(post.newcomers() =~= s.newcomers());
    }
}

/// Another thread is in line after a step that takes no node out if it was before.
proof fn others_stay_in_line(s: MutexSystem, v: u64, u: u64, chance: Chance)
    requires
        s.inv(),
        s.can_step(u, chance),
        !takes_out(s, u, chance),
        s.path.len() > 0,
        u != v,
    ensures
        s.step(u, chance).in_line(v) == s.in_line(v),
{
    let post = s.step(u, chance);
    assert(s.thread_inv(u));
    assert(s.thread_inv(v));
    assert(s.path[0] != 0);
    assert(post.activity(v) == s.activity(v));
    if s.in_line(v) {
        line_stays(s, v, u, chance);
    } else if post.in_line(v) {
        let node = node_of(s.activity(v))->0;
        let k = choose|k: int| 0 <= k < post.path.len() && post.path[k] == node;
        assert(post.path == s.path || post.path == s.path.push(post.path.last()));
        assert(k < s.path.len() ==> s.path[k] == node);
        assert(node_of(s.activity(u)) == Some(node));
    }
}

/// How the use of the queue changes in a step that takes no node out and changes nothing else.
proof fn work_shrinks(s: MutexSystem, t: u64, u: u64, chance: Chance)
    requires
        s.inv(),
        s.waits(t),
        s.place(t) > 0,
        s.can_step(u, chance),
        !takes_out(s, u, chance),
        s.step(u, chance).holds(u) == s.holds(u),
        s.step(u, chance).in_line(u) == s.in_line(u),
    ensures
        ({
            let post = s.step(u, chance);
            &&& post.work() <= s.work()
            &&& post.work() == s.work() ==> post.memory.state == s.memory.state
            &&& post.work() == s.work() ==> locks_queue(post.activity(u)) == locks_queue(
                s.activity(u),
            )
            &&& locks_queue(s.activity(u)) && !chance.fails && post.work() == s.work()
                ==> match s.activity(u) {
                MutexActivity::Acquiring(AcquireOp::Publish { state, .. }) => state
                    != s.memory.state,
                MutexActivity::Releasing(ReleaseOp::Publish { state, .. }) => state
                    != s.memory.state,
                _ => false,
            }
            &&& post.memory.state != s.memory.state ==> post.work() < s.work()
        }),
{
    let post = s.step(u, chance);
    let word = s.memory.state;
    waiting_thread_is_somewhere(s, t);
    step_keeps_order(s, u, chance);
    assert(s.thread_inv(u));
    word_is_composed(word);
    compose_is_faithful(address(word), true, is_queue_locked(word));
    compose_is_faithful(address(word), false, is_queue_locked(word));
    compose_is_faithful(address(word), is_locked(word), true);
    compose_is_faithful(address(word), is_locked(word), false);
    assert forall|v: u64| v != u implies #[trigger] post.activity(v) == s.activity(v) by {}
    if s.holds(u) {
        assert(s.is_held());
    }
    if is_queue_locked(word) {
        let w = choose|w: u64| locks_queue(#[trigger] s.activity(w));
        assert(locks_queue(s.activity(w)));
        assert(s.thread_inv(w));
        if w != u {
            assert(!locks_queue(s.activity(u)));
            assert(post.activity(w) == s.activity(w));
            assert(locks_queue(post.activity(w)));
            assert(is_queue_locked(post.memory.state));
            let x = choose|x: u64| locks_queue(#[trigger] post.activity(x));
            assert(x == w);
            assert(post.path == s.path);
            assert(!locks_queue(post.activity(u)));
        } else {
            if let MutexActivity::Acquiring(AcquireOp::FindTail { tail, .. }) = s.activity(u) {
                let k = s.path.index_of(tail);
                assert(s.path[k] == tail);
                assert(s.memory.nodes[s.path[k]].link() == after(s.path, k));
                if k + 1 < s.path.len() {
                    assert(s.path[k + 1] != 0);
                    place_is_unique(s.path, k + 1);
                }
            }
            if is_queue_locked(post.memory.state) {
                let x = choose|x: u64| locks_queue(#[trigger] post.activity(x));
                if x != u {
                    assert(post.activity(x) == s.activity(x));
                }
                assert(x == u);
            }
        }
    } else {
        assert(!locks_queue(s.activity(u)));
        if is_queue_locked(post.memory.state) {
            let x = choose|x: u64| locks_queue(#[trigger] post.activity(x));
            if x != u {
                assert(post.activity(x) == s.activity(x));
            }
            assert(x == u);
        }
    }
}

/// A step that changes nothing but how far the helper is.
proof fn helper_moves_on(s: MutexSystem, t: u64, h: u64, u: u64, chance: Chance)
    requires
        s.inv(),
        s.waits(t),
        s.helps(t, h),
        s.place(t) > 0,
        s.can_step(u, chance),
        !takes_out(s, u, chance),
        s.step(u, chance).waits(t),
        s.step(u, chance).rank(t) == s.rank(t),
        s.step(u, chance).memory.state == s.memory.state,
        s.step(u, chance).holds(u) == s.holds(u),
        s.step(u, chance).in_line(u) == s.in_line(u),
    ensures
        s.goes_well(s.step(u, chance), t, h, u, chance),
{
    let post = s.step(u, chance);
    let word = s.memory.state;
    waiting_thread_is_somewhere(s, t);
    step_keeps_order(s, u, chance);
    waiting_thread_is_somewhere(post, t);
    work_shrinks(s, t, u, chance);
    crowds_shrink(s, t, u, chance);
    assert(s.thread_inv(u));
    assert(s.thread_inv(h));
    word_is_composed(word);
    assert(u != h ==> post.activity(h) == s.activity(h));
    if s.holds(h) {
        assert(s.is_held());
    }
    if u == h {
        if is_queue_locked(word) || is_releasing(s.activity(h)) || s.holds(h) {
            assert(post.helps(t, h));
            assert(post.distance(t, h) < s.distance(t, h) || (chance.fails && post.distance(t, h)
                <= s.distance(t, h)));
            assert(post.distance(t, h) < s.distance(t, h) ==> s.comes_nearer(post, t, h, h));
        } else {
            trier_moves_on(s, t, h, chance);
        }
    } else {
        if is_queue_locked(word) || is_releasing(s.activity(h)) || s.holds(h) {
            assert(post.helps(t, h));
        } else {
            triers_are_left_alone(s, t, h, u, chance);
        }
    }
}

/// A step of a thread that is on its way to a free mutex.
proof fn trier_moves_on(s: MutexSystem, t: u64, h: u64, chance: Chance)
    requires
        s.inv(),
        s.waits(t),
        s.tries(h),
        s.place(t) > 0,
        !is_locked(s.memory.state),
        !is_queue_locked(s.memory.state),
        s.can_step(h, chance),
        s.step(h, chance).waits(t),
        s.step(h, chance).rank(t) == s.rank(t),
        s.step(h, chance).memory.state == s.memory.state,
        s.step(h, chance).holds(h) == s.holds(h),
    ensures
        s.goes_well(s.step(h, chance), t, h, h, chance),
{
    let post = s.step(h, chance);
    assert(s.thread_inv(h));
    word_is_composed(s.memory.state);
    compose_is_faithful(address(s.memory.state), true, is_queue_locked(s.memory.state));
    match s.activity(h) {
        MutexActivity::Releasing(ReleaseOp::Mark { head, thread }) => {
            assert(post.activity(thread) == s.activity(thread));
            if post.sleeps_marked(thread) {
                assert(s.comes_nearer(post, t, h, h));
            } else {
                assert(post.tries(thread));
                assert(s.comes_nearer(post, t, h, thread));
            }
        },
        MutexActivity::Releasing(ReleaseOp::Wake { thread }) => {
            assert(post.activity(thread) == s.activity(thread));
            assert(post.tries(thread));
            assert(s.comes_nearer(post, t, h, thread));
        },
        _ => {
            assert(post.helps(t, h));
            assert(post.distance(t, h) < s.distance(t, h) || (chance.fails && post.distance(t, h)
                <= s.distance(t, h)));
            assert(post.distance(t, h) < s.distance(t, h) ==> s.comes_nearer(post, t, h, h));
        },
    }
}

/// A step of another thread while one is on its way to a free mutex.
proof fn triers_are_left_alone(s: MutexSystem, t: u64, h: u64, u: u64, chance: Chance)
    requires
        s.inv(),
        s.waits(t),
        s.tries(h),
        u != h,
        s.place(t) > 0,
        !is_locked(s.memory.state),
        !is_queue_locked(s.memory.state),
        s.can_step(u, chance),
        s.step(u, chance).waits(t),
        s.step(u, chance).rank(t) == s.rank(t),
        s.step(u, chance).memory.state == s.memory.state,
    ensures
        s.goes_well(s.step(u, chance), t, h, u, chance),
{
    let post = s.step(u, chance);
    assert(s.thread_inv(u));
    assert(s.thread_inv(h));
    assert(post.activity(h) == s.activity(h));
    if let MutexActivity::Releasing(ReleaseOp::Wake { thread }) = s.activity(h) {
        assert(s.thread_inv(thread));
        if !post.sleeps_marked(thread) {
            assert(u != thread ==> post.activity(thread) == s.activity(thread));
            assert(post.tries(thread));
            assert(s.comes_nearer(post, t, h, thread));
        }
    }
}

/// A step of any thread while thread `t` is in line.
proof fn step_in_line(s: MutexSystem, t: u64, h: u64, u: u64, chance: Chance)
    requires
        s.inv(),
        s.attended_inv(),
        s.waits(t),
        s.helps(t, h),
        s.place(t) > 0,
        s.can_step(u, chance),
    ensures
        s.goes_well(s.step(u, chance), t, h, u, chance),
{
    let post = s.step(u, chance);
    waiting_thread_is_somewhere(s, t);
    step_keeps_order(s, u, chance);
    step_keeps_attended(s, u, chance);
    if takes_out(s, u, chance) {
        line_moves_up(s, t, u, chance);
        let x = some_thread_helps(post, t);
        assert(s.comes_nearer(post, t, h, x));
    } else {
        line_stays(s, t, u, chance);
        crowds_shrink(s, t, u, chance);
        assert(s.thread_inv(u));
        if post.holds(u) && !s.holds(u) {
            let x = some_thread_helps(post, t);
            assert(s.comes_nearer(post, t, h, x));
        } else if s.holds(u) && !post.holds(u) {
            assert(s.is_held());
            assert(!post.is_held()) by {
                if post.is_held() {
                    let v = choose|v: u64| post.holds(v);
                    assert(v != u);
                    assert(post.activity(v) == s.activity(v));
                    assert(s.holds(v));
                }
            }
            let x = some_thread_helps(post, t);
            assert(s.comes_nearer(post, t, h, x));
        } else {
            assert(post.is_held() == s.is_held()) by {
                if s.is_held() {
                    let v = choose|v: u64| s.holds(v);
                    assert(v != u ==> post.activity(v) == s.activity(v));
                    assert(post.holds(v));
                }
                if post.is_held() {
                    let v = choose|v: u64| post.holds(v);
                    assert(v != u ==> post.activity(v) == s.activity(v));
                    assert(s.holds(v));
                }
            }
            if post.in_line(u) && !s.in_line(u) {
                let x = some_thread_helps(post, t);
                assert(s.comes_nearer(post, t, h, x));
            } else {
                if s.in_line(u) {
                    line_stays(s, u, u, chance);
                }
                work_shrinks(s, t, u, chance);
                if post.work() < s.work() {
                    let x = some_thread_helps(post, t);
                    assert(s.comes_nearer(post, t, h, x));
                } else {
                    helper_moves_on(s, t, h, u, chance);
                }
            }
        }
    }
}

/// A step of any thread when thread `t` was called.
proof fn step_when_called(s: MutexSystem, t: u64, h: u64, u: u64, chance: Chance)
    requires
        s.inv(),
        s.attended_inv(),
        s.waits(t),
        s.helps(t, h),
        s.place(t) == 0,
        s.can_step(u, chance),
    ensures
        s.goes_well(s.step(u, chance), t, h, u, chance),
{
    let post = s.step(u, chance);
    let node = node_of(s.activity(t))->0;
    waiting_thread_is_somewhere(s, t);
    step_keeps_order(s, u, chance);
    step_keeps_attended(s, u, chance);
    assert(s.thread_inv(u));
    assert(s.thread_inv(t));
    assert(u != t ==> post.activity(t) == s.activity(t));
    assert(u != h ==> post.activity(h) == s.activity(h));
    if post.activity(t) != MutexActivity::Acquiring(AcquireOp::Load) {
        assert(post.waits(t));
        assert(node_of(post.activity(t)) == Some(node));
        assert(!s.path.contains(node));
        assert(!post.path.contains(node)) by {
            if post.path.contains(node) {
                let k = choose|k: int| 0 <= k < post.path.len() && post.path[k] == node;
                if takes_out(s, u, chance) {
                    assert(post.path == s.path.drop_first());
                    assert(s.path[k + 1] == node);
                } else {
                    assert(post.path == s.path || post.path == s.path.push(post.path.last()));
                    assert(k < s.path.len() ==> s.path[k] == node);
                    assert(node_of(s.activity(u)) == Some(node));
                }
            }
        }
        assert(post.thread_inv(t));
        waiting_thread_is_somewhere(post, t);
        assert(post.stage(t) <= s.stage(t) && (u == h ==> post.stage(t) < s.stage(t))) by {
            if s.stage(t) == 6 {
                if post.stage(t) == 7 {
                    let r = choose|r: u64| #[trigger]
                        post.activity(r) == MutexActivity::Releasing(
                            ReleaseOp::ReadThread { head: node },
                        );
                    assert(calls(post.activity(r), node));
                    assert(post.activity(h) == s.activity(h) ==> calls(post.activity(h), node));
                    assert(r != u ==> s.activity(r) == post.activity(r));
                }
            } else if s.stage(t) == 7 {
                assert(calls(s.activity(h), node));
                if post.stage(t) == 7 && u == h {
                    let r = choose|r: u64| #[trigger]
                        post.activity(r) == MutexActivity::Releasing(
                            ReleaseOp::ReadThread { head: node },
                        );
                    assert(calls(post.activity(r), node));
                    assert(calls(post.activity(h), node));
                }
            }
        }
        if post.stage(t) < s.stage(t) {
            let x = some_thread_helps(post, t);
            assert(s.comes_nearer(post, t, h, x));
        } else {
            assert(s.stays_as_near(post, t, h));
        }
    }
}

/// In a run the mutex is in order at every moment.
pub proof fn mutex_run_is_in_order(run: MutexRun, i: nat)
    requires
        run.is_fair(),
    ensures
        run.state(i).inv(),
        run.state(i).attended_inv(),
    decreases i,
{
    if i == 0 {
        start_is_in_order(run.state(0));
    } else {
        let k = (i - 1) as nat;
        mutex_run_is_in_order(run, k);
        assert(run.moves(k));
        step_keeps_order(run.state(k), run.turn(k), run.chance(k));
        step_keeps_attended(run.state(k), run.turn(k), run.chance(k));
    }
}

/// The wait of a thread ends, seen from a moment at which it depends on the step that `h` makes
/// at `j`.
proof fn wait_ends(run: MutexRun, i: nat, t: u64, h: u64, j: nat) -> (end: nat)
    requires
        run.is_fair(),
        run.state(i).waits(t),
        run.state(i).helps(t, h),
        i <= j,
        run.turn(j) == h,
        !run.chance(j).fails,
    ensures
        i <= end,
        run.state(end).activity(t) == MutexActivity::Acquiring(AcquireOp::Load),
    decreases
            run.state(i).rank(t).0,
            run.state(i).rank(t).1,
            run.state(i).rank(t).2,
            run.state(i).rank(t).3,
            run.state(i).rank(t).4,
            run.state(i).distance(t, h),
            j - i,
{
    let s = run.state(i);
    let post = run.state(i + 1);
    let u = run.turn(i);
    let chance = run.chance(i);
    mutex_run_is_in_order(run, i);
    mutex_run_is_in_order(run, i + 1);
    assert(run.moves(i));
    if s.place(t) == 0 {
        step_when_called(s, t, h, u, chance);
    } else {
        step_in_line(s, t, h, u, chance);
    }
    if post.activity(t) == MutexActivity::Acquiring(AcquireOp::Load) {
        i + 1
    } else if exists|x: u64| #[trigger] s.comes_nearer(post, t, h, x) {
        let x = choose|x: u64| #[trigger] s.comes_nearer(post, t, h, x);
        helper_can_go_on(post, t, x);
        let k = choose|k: nat| i + 1 <= k && #[trigger] run.turn(k) == x && !run.chance(k).fails;
        wait_ends(run, i + 1, t, x, k)
    } else {
        wait_ends(run, i + 1, t, h, j)
    }
}

/// Every thread that waits is called and tries again: on a run on which no thread stops for good,
/// a thread that is in the queue, or has it for itself to join others there, comes out of it and
/// tries for the mutex again.
pub proof fn every_sleeping_thread_is_called(run: MutexRun, i: nat, t: u64)
    requires
        run.is_fair(),
        run.state(i).waits(t),
    ensures
        exists|j: nat|
            i <= j && #[trigger] run.state(j).activity(t) == MutexActivity::Acquiring(
                AcquireOp::Load,
            ),
{
    mutex_run_is_in_order(run, i);
    let h = some_thread_helps(run.state(i), t);
    helper_can_go_on(run.state(i), t, h);
    let j = choose|j: nat| i <= j && #[trigger] run.turn(j) == h && !run.chance(j).fails;
    let end = wait_ends(run, i, t, h, j);
    assert(run.state(end).activity(t) == MutexActivity::Acquiring(AcquireOp::Load));
}

} // verus!
