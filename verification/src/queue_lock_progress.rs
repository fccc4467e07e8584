//! A thread that waits for a queue-based lock gets it, as long as no thread stops for good.

use crate::chain::{after, place_is_unique, Linked};
use crate::queue_lock::{LockOp, UnlockOp};
use crate::queue_lock_steps::{start_is_in_order, step_keeps_order};
use crate::queue_lock_system::{
    hands_over, locks_queue, node_of, sleep_node, Activity, LockSystem,
};
use crate::word::{address, compose_is_faithful, is_locked, is_queue_locked, word_is_composed};
use vstd::prelude::*;
use vstd::set_lib::{lemma_len_subset, FiniteFull};

verus! {

/// A run that does not end: in each step one thread takes its turn.
pub struct LockRun {
    pub states: spec_fn(nat) -> LockSystem,
    pub turns: spec_fn(nat) -> u64,
    pub fresh: spec_fn(nat) -> usize,
}

impl LockRun {
    /// The state before a step.
    pub open spec fn state(self, i: nat) -> LockSystem {
        (self.states)(i)
    }

    /// The thread that makes a step.
    pub open spec fn turn(self, i: nat) -> u64 {
        (self.turns)(i)
    }

    /// One step leads from each state to the next.
    pub open spec fn moves(self, i: nat) -> bool {
        &&& self.state(i).can_step(self.turn(i), (self.fresh)(i))
        &&& self.state(i + 1) == self.state(i).step(self.turn(i), (self.fresh)(i))
    }

    /// The run starts with a free lock that no thread uses, and no thread stops for good: one
    /// that can go on has its turn again. A thread that has the lock so lets go of it in the end.
    pub open spec fn is_fair(self) -> bool {
        &&& self.state(0).init()
        &&& forall|i: nat| #[trigger] self.moves(i)
        &&& forall|i: nat, t: u64| #[trigger]
            self.state(i).can_go_on(t) ==> exists|j: nat| i <= j && #[trigger] self.turn(j) == t
    }
}

impl LockSystem {
    /// Whether a thread can go on: it uses the lock, and does not sleep or was unparked.
    pub open spec fn can_go_on(self, t: u64) -> bool {
        match self.activity(t) {
            Activity::Idle => false,
            Activity::Locking(LockOp::Park { .. }) => self.tokens.contains(t),
            _ => true,
        }
    }

    /// Whether a thread waits for the lock: it has the queue for itself to enter it, or is in the
    /// queue, or has come out of it and does not know yet that it has the lock.
    pub open spec fn waits(self, t: u64) -> bool {
        self.activity(t) matches Activity::Locking(op) && (op is ClearNext || op is FindTail || op
            is Append || op is Publish || op is Park || op is Look || op is Leave)
    }

    /// How many threads have to come out of the queue until a thread that waits does.
    pub open spec fn place(self, t: u64) -> nat {
        let node = node_of(self.activity(t))->0;
        if self.path.contains(node) {
            (self.path.index_of(node) + 1) as nat
        } else if locks_queue(self.activity(t)) {
            self.path.len() + 1
        } else {
            0
        }
    }

    /// The thread that the lock belongs to.
    pub open spec fn owner(self) -> u64 {
        choose|u: u64| self.owns(u)
    }

    /// How far the thread that the lock belongs to is from taking the next one out of the queue.
    pub open spec fn stage(self) -> nat {
        match self.activity(self.owner()) {
            Activity::Locking(op) => match op {
                LockOp::Park { .. } => if self.tokens.contains(self.owner()) {
                    8
                } else {
                    9
                },
                LockOp::Look { .. } => 7,
                LockOp::Held => 5,
                _ => 6,
            },
            Activity::Unlocking(op) => match op {
                UnlockOp::ReadNext { .. } => 3,
                UnlockOp::ReadThread { .. } => 2,
                UnlockOp::Publish { .. } => 1,
                UnlockOp::Mark { .. } => 10,
                _ => 4,
            },
            Activity::Idle => 0,
        }
    }

    /// The threads that have not entered the queue.
    pub open spec fn newcomers(self) -> Set<u64> {
        Set::new(|u: u64| !has_entered(self.activity(u)))
    }

    /// How many steps an operation still has the queue for itself.
    pub open spec fn work_of(self, activity: Activity) -> nat {
        match activity {
            Activity::Locking(LockOp::FindTail { tail, .. }) => {
                (self.path.len() - self.path.index_of(tail) + 2) as nat
            },
            Activity::Locking(LockOp::ClearNext { .. }) => 2,
            Activity::Locking(LockOp::Append { .. }) => 2,
            Activity::Locking(LockOp::Publish { .. }) => 1,
            _ => 0,
        }
    }

    /// How many steps some thread still has the queue for itself.
    pub open spec fn work(self) -> nat {
        if is_queue_locked(self.memory.state) {
            self.work_of(self.activity(choose|u: u64| locks_queue(#[trigger] self.activity(u))))
        } else {
            0
        }
    }

    /// How far the thread that lets go of the lock is from locking a queue that nobody has.
    pub open spec fn retries(self) -> nat {
        if is_queue_locked(self.memory.state) {
            0
        } else {
            match self.activity(self.owner()) {
                Activity::Unlocking(UnlockOp::Load) => 2,
                Activity::Unlocking(UnlockOp::LockQueue { state }) => if state
                    == self.memory.state {
                    1
                } else {
                    3
                },
                Activity::Unlocking(UnlockOp::Release { state }) => if state
                    == self.memory.state {
                    1
                } else {
                    3
                },
                _ => 3,
            }
        }
    }

    /// The parts of what is still to be done that count only while the lock is being let go of.
    pub open spec fn detours(self) -> (nat, nat, nat) {
        if self.stage() == 4 {
            (self.newcomers().len(), self.work(), self.retries())
        } else {
            (0, 0, 0)
        }
    }

    /// Whether all waiting threads depend on the next step of `h`.
    pub open spec fn helps(self, h: u64) -> bool {
        if self.stage() == 9 {
            self.activity(h) == Activity::Unlocking(UnlockOp::Wake { thread: self.owner() })
        } else if self.stage() == 4 && is_queue_locked(self.memory.state) {
            locks_queue(self.activity(h))
        } else {
            h == self.owner()
        }
    }

    /// Whether the thread that the lock belongs to has come further in `post`, or has less to go
    /// through.
    pub open spec fn gets_on(self, post: Self) -> bool {
        let (a, b, c) = self.detours();
        let (x, y, z) = post.detours();
        ||| post.stage() < self.stage()
        ||| post.stage() == self.stage() && (x < a || x == a && (y < b || y == b && z < c))
    }

    /// Whether it is as far in `post`, and depends on the same thread.
    pub open spec fn stands_still(self, post: Self, h: u64) -> bool {
        &&& post.stage() == self.stage()
        &&& post.detours() == self.detours()
        &&& post.helps(h)
    }

    /// Whether less is to be done in `post` until `t` has the lock.
    pub open spec fn comes_nearer(self, post: Self, t: u64) -> bool {
        ||| post.place(t) < self.place(t)
        ||| post.place(t) == self.place(t) && self.gets_on(post)
    }

    /// Whether as much is to be done in `post` until `t` has the lock, by the same thread.
    pub open spec fn stays_as_near(self, post: Self, t: u64, h: u64) -> bool {
        post.place(t) == self.place(t) && self.stands_still(post, h)
    }
}

/// Whether a thread has entered the queue, or has it for itself to do so.
pub open spec fn has_entered(activity: Activity) -> bool {
    activity matches Activity::Locking(op) && (op is ClearNext || op is FindTail || op is Append
        || op is Publish || op is Park || op is Look)
}

/// While a thread waits, the lock belongs to a thread.
pub proof fn lock_has_owner(s: LockSystem, t: u64)
    requires
        s.inv(),
        s.waits(t),
    ensures
        s.owns(s.owner()),
        is_locked(s.memory.state),
{
    assert(s.thread_inv(t));
    assert(s.is_owned()) by {
        if locks_queue(s.activity(t)) {
        } else if let Some(node) = sleep_node(s.activity(t)) {
            if s.path.contains(node) {
                assert(s.path.len() > 0);
            } else if s.is_target(node) {
                let r = choose|r: u64| #[trigger] hands_over(s.activity(r), node);
                assert(s.owns(r));
            } else {
                assert(s.owns(t));
            }
        } else {
            assert(s.owns(t));
        }
    }
}

/// There is one owner.
pub proof fn owner_is(s: LockSystem, o: u64)
    requires
        s.inv(),
        s.owns(o),
    ensures
        s.owner() == o,
{
    assert(s.owns(s.owner()));
}

/// A thread in line is not the one that the lock belongs to, and the one that is about to take a
/// thread out of the queue finds it there.
proof fn line_is_kept(s: LockSystem, t: u64)
    requires
        s.inv(),
        s.waits(t),
    ensures
        s.place(t) == 0 ==> s.stage() >= 6,
        s.place(t) > 0 ==> s.owner() != t,
        s.path.contains(node_of(s.activity(t))->0) ==> 0 <= s.path.index_of(
            node_of(s.activity(t))->0,
        ) < s.path.len(),
{
    lock_has_owner(s, t);
    assert(s.thread_inv(t));
    let node = node_of(s.activity(t))->0;
    if s.place(t) == 0 {
        if s.owns(t) {
            owner_is(s, t);
        } else {
            assert(s.is_target(node));
            let r = choose|r: u64| #[trigger] hands_over(s.activity(r), node);
            assert(s.owns(r));
            owner_is(s, r);
        }
    } else if s.owns(t) {
        owner_is(s, t);
    } else {
        assert(s.owner() != t);
    }
}

/// Some thread helps.
pub proof fn some_thread_helps(s: LockSystem) -> (h: u64)
    requires
        s.inv(),
        s.owns(s.owner()),
    ensures
        s.helps(h),
{
    let o = s.owner();
    assert(s.thread_inv(o));
    if s.stage() == 9 {
        choose|r: u64| #[trigger]
            s.activity(r) == Activity::Unlocking(UnlockOp::Wake { thread: o })
    } else if s.stage() == 4 && is_queue_locked(s.memory.state) {
        choose|u: u64| locks_queue(#[trigger] s.activity(u))
    } else {
        o
    }
}

/// A thread that helps can go on.
pub proof fn helper_can_go_on(s: LockSystem, h: u64)
    requires
        s.inv(),
        s.owns(s.owner()),
        s.helps(h),
    ensures
        s.can_go_on(h),
{
}

/// What a step of a thread that does not have the lock leaves as it is.
pub proof fn others_leave_owner(s: LockSystem, u: u64, fresh: usize)
    requires
        s.inv(),
        s.owns(s.owner()),
        s.can_step(u, fresh),
        u != s.owner(),
    ensures
        ({
            let post = s.step(u, fresh);
            &&& post.inv()
            &&& !s.owns(u)
            &&& post.owns(s.owner())
            &&& post.owner() == s.owner()
            &&& post.activity(s.owner()) == s.activity(s.owner())
            &&& post.stage() <= s.stage()
            &&& post.stage() == s.stage() || s.stage() == 9
            &&& is_locked(s.memory.state)
            &&& is_locked(post.memory.state)
        }),
{
    let post = s.step(u, fresh);
    let o = s.owner();
    step_keeps_order(s, u, fresh);
    assert(s.thread_inv(u));
    assert(s.thread_inv(o));
    assert(!s.owns(u)) by {
        if s.owns(u) {
            owner_is(s, u);
        }
    }
    assert(s.is_owned());
    assert(post.activity(o) == s.activity(o));
    assert(post.owns(o));
    owner_is(post, o);
    assert(post.is_owned());
}

/// What such a step leaves as it is for a thread that waits.
proof fn others_leave_line(s: LockSystem, t: u64, u: u64, fresh: usize)
    requires
        s.inv(),
        s.waits(t),
        s.can_step(u, fresh),
        u != s.owner(),
    ensures
        s.step(u, fresh).waits(t),
        s.step(u, fresh).place(t) == s.place(t),
{
    let post = s.step(u, fresh);
    lock_has_owner(s, t);
    line_is_kept(s, t);
    others_leave_owner(s, u, fresh);
    assert(s.thread_inv(u));
    assert(s.thread_inv(t));
    word_is_composed(s.memory.state);
    assert(post.waits(t)) by {
        assert(u != t ==> post.activity(t) == s.activity(t));
    }
    // The queue grows at its end.
    let node = node_of(s.activity(t))->0;
    assert(node_of(post.activity(t)) == Some(node));
    if post.path != s.path {
        let pushed = post.path.last();
        assert(post.path == s.path.push(pushed));
        assert(pushed == node_of(s.activity(u))->0);
        if s.path.contains(node) {
            let k = s.path.index_of(node);
            assert(s.path[k] == node);
            assert(post.path[k] == node);
            place_is_unique(post.path, k);
        } else if u == t {
            place_is_unique(post.path, s.path.len() as int);
        } else {
            assert(s.memory.nodes[pushed].thread == u);
            assert(s.memory.nodes[node].thread == t);
            assert(!post.path.contains(node)) by {
                if post.path.contains(node) {
                    let k = choose|k: int| 0 <= k < post.path.len() && post.path[k] == node;
                    assert(k < s.path.len() ==> s.path[k] == node);
                }
            }
            assert(locks_queue(s.activity(t)) ==> u == t);
        }
    } else if u == t && locks_queue(s.activity(t)) && !locks_queue(post.activity(t)) {
        assert(s.path.contains(node));
    }
}

/// A step of a thread that does not have the lock while it is being let go of.
proof fn others_step_aside(s: LockSystem, h: u64, u: u64, fresh: usize)
    requires
        s.inv(),
        s.owns(s.owner()),
        s.helps(h),
        s.can_step(u, fresh),
        u != s.owner(),
        s.stage() == 4,
    ensures
        s.gets_on(s.step(u, fresh)) || (u != h && s.stands_still(s.step(u, fresh), h)),
{
    let post = s.step(u, fresh);
    others_leave_owner(s, u, fresh);
    assert(s.thread_inv(u));
    word_is_composed(s.memory.state);
    compose_is_faithful(address(s.memory.state), true, true);
    u64::full_properties();
    assert(s.newcomers().subset_of(Set::full()));
    lemma_len_subset(s.newcomers(), Set::full());
    assert forall|v: u64| v != u implies #[trigger] post.activity(v) == s.activity(v) by {}
    assert(post.newcomers().subset_of(s.newcomers())) by {
        assert forall|v: u64| #[trigger] post.newcomers().contains(v) implies s.newcomers().contains(
            v,
        ) by {
            assert(v != u ==> post.activity(v) == s.activity(v));
        }
    }
    lemma_len_subset(post.newcomers(), s.newcomers());
    if locks_queue(s.activity(u)) {
        window_moves_on(s, u, fresh);
        assert(post.newcomers() =~= s.newcomers());
    } else if locks_queue(post.activity(u)) {
        assert(s.newcomers().contains(u));
        assert(!post.newcomers().contains(u));
        assert(post.newcomers().subset_of(s.newcomers().remove(u)));
        lemma_len_subset(post.newcomers(), s.newcomers().remove(u));
    } else {
        assert(post.newcomers() =~= s.newcomers());
        assert(post.memory.state == s.memory.state);
        assert(post.path == s.path);
        if is_queue_locked(s.memory.state) {
            let w = choose|w: u64| locks_queue(#[trigger] s.activity(w));
            assert(post.activity(w) == s.activity(w));
            let x = choose|x: u64| locks_queue(#[trigger] post.activity(x));
            assert(locks_queue(post.activity(w)));
            assert(x == w);
            assert(post.activity(h) == s.activity(h));
            assert(h != u);
        }
    }
}

/// A thread that has the queue for itself, to enter it, comes nearer to the end of that.
proof fn window_moves_on(s: LockSystem, u: u64, fresh: usize)
    requires
        s.inv(),
        s.can_step(u, fresh),
        locks_queue(s.activity(u)),
        s.activity(u) is Locking,
    ensures
        s.step(u, fresh).work() < s.work(),
{
    let post = s.step(u, fresh);
    step_keeps_order(s, u, fresh);
    assert(s.thread_inv(u));
    assert(is_queue_locked(s.memory.state));
    let w = choose|w: u64| locks_queue(#[trigger] s.activity(w));
    assert(w == u);
    if let Activity::Locking(LockOp::FindTail { tail, .. }) = s.activity(u) {
        let k = s.path.index_of(tail);
        assert(s.path[k] == tail);
        assert(s.memory.nodes[s.path[k]].link() == after(s.path, k));
        if k + 1 < s.path.len() {
            assert(s.path[k + 1] != 0);
            place_is_unique(s.path, k + 1);
        }
    }
    if is_queue_locked(post.memory.state) {
        let x = choose|x: u64| locks_queue(#[trigger] post.activity(x));
        assert(locks_queue(post.activity(u)) || !locks_queue(post.activity(u)));
        if !locks_queue(post.activity(u)) {
            assert(x != u);
            assert(post.activity(x) == s.activity(x));
        }
        assert(x == u);
    }
}

/// A step of a thread that does not have the lock.
pub proof fn others_do_not_hinder(s: LockSystem, h: u64, u: u64, fresh: usize)
    requires
        s.inv(),
        s.owns(s.owner()),
        s.helps(h),
        s.can_step(u, fresh),
        u != s.owner(),
    ensures
        s.gets_on(s.step(u, fresh)) || (u != h && s.stands_still(s.step(u, fresh), h)),
{
    let post = s.step(u, fresh);
    others_leave_owner(s, u, fresh);
    if s.stage() == 4 {
        others_step_aside(s, h, u, fresh);
    } else {
        assert(u != h ==> post.activity(h) == s.activity(h));
    }
}

/// Whether a step of the thread that has the lock takes a thread out of the queue.
pub open spec fn takes_out(s: LockSystem) -> bool {
    s.activity(s.owner()) matches Activity::Unlocking(UnlockOp::Publish { .. })
}

/// Whether a step of the thread that has the lock frees it, because nobody waits.
pub open spec fn frees(s: LockSystem) -> bool {
    s.activity(s.owner()) matches Activity::Unlocking(UnlockOp::Release { state }) && state
        == s.memory.state
}

/// A step of the thread that has the lock.
pub proof fn owner_moves_on(s: LockSystem, h: u64, fresh: usize)
    requires
        s.inv(),
        s.owns(s.owner()),
        s.helps(h),
        s.can_step(s.owner(), fresh),
        !frees(s),
    ensures
        ({
            let post = s.step(s.owner(), fresh);
            &&& post.owns(post.owner())
            &&& takes_out(s) ==> post.owner() == s.owner() && post.stage() == 10
            &&& !takes_out(s) ==> s.gets_on(post) || (s.owner() != h && s.stands_still(post, h))
        }),
{
    let o = s.owner();
    let post = s.step(o, fresh);
    step_keeps_order(s, o, fresh);
    assert(s.thread_inv(o));
    assert(s.is_owned());
    word_is_composed(s.memory.state);
    compose_is_faithful(address(s.memory.state), true, true);
    match s.activity(o) {
        Activity::Unlocking(UnlockOp::Mark { head, thread }) => {
            assert(post.activity(thread) == s.activity(thread));
            assert(post.owns(thread));
            owner_is(post, thread);
        },
        _ => {
            assert(post.owns(o));
            owner_is(post, o);
            if s.stage() == 4 && is_queue_locked(s.memory.state) {
                releasing_waits(s, h, fresh);
            } else if s.stage() == 4 {
                newcomers_stay(s, o, fresh);
            }
        },
    }
}

/// What a step of the thread that has the lock does to one that waits.
proof fn line_moves_up(s: LockSystem, t: u64, fresh: usize)
    requires
        s.inv(),
        s.waits(t),
        s.can_step(s.owner(), fresh),
    ensures
        ({
            let post = s.step(s.owner(), fresh);
            ||| post.activity(t) == Activity::Locking(LockOp::Held)
            ||| {
                &&& post.waits(t)
                &&& !frees(s)
                &&& takes_out(s) ==> post.place(t) < s.place(t)
                &&& !takes_out(s) ==> post.place(t) == s.place(t)
            }
        }),
{
    let o = s.owner();
    let post = s.step(o, fresh);
    lock_has_owner(s, t);
    line_is_kept(s, t);
    step_keeps_order(s, o, fresh);
    assert(s.thread_inv(o));
    assert(s.thread_inv(t));
    assert(o != t ==> post.activity(t) == s.activity(t));
    assert(!frees(s)) by {
        if frees(s) {
            if s.path.len() > 0 {
                assert(s.path[0] != 0);
            }
            assert(locks_queue(s.activity(t)));
        }
    }
    let node = node_of(s.activity(t))->0;
    if takes_out(s) {
        assert(!locks_queue(s.activity(t))) by {
            assert(locks_queue(s.activity(o)));
        }
        let k = s.path.index_of(node);
        assert(s.path[k] == node);
        if k > 0 {
            assert(post.path[k - 1] == node);
            place_is_unique(post.path, k - 1);
        } else {
            assert(!post.path.contains(node)) by {
                if post.path.contains(node) {
                    let m = choose|m: int| 0 <= m < post.path.len() && post.path[m] == node;
                    assert(s.path[m + 1] == node);
                }
            }
        }
    } else {
        assert(post.path == s.path);
    }
}

/// A thread that lets go of the lock does not change who has entered the queue.
proof fn newcomers_stay(s: LockSystem, o: u64, fresh: usize)
    requires
        s.activity(o) is Unlocking,
    ensures
        s.step(o, fresh).newcomers() == s.newcomers(),
{
    let post = s.step(o, fresh);
    assert forall|v: u64| #[trigger] post.newcomers().contains(v) == s.newcomers().contains(
        v,
    ) by {
        assert(v != o ==> post.activity(v) == s.activity(v));
    }
    assert(post.newcomers() =~= s.newcomers());
}

/// A thread that lets go of the lock waits while another has the queue for itself.
proof fn releasing_waits(s: LockSystem, h: u64, fresh: usize)
    requires
        s.inv(),
        s.owns(s.owner()),
        s.helps(h),
        s.can_step(s.owner(), fresh),
        s.stage() == 4,
        is_queue_locked(s.memory.state),
    ensures
        s.owner() != h,
        s.stands_still(s.step(s.owner(), fresh), h),
{
    let o = s.owner();
    let post = s.step(o, fresh);
    step_keeps_order(s, o, fresh);
    assert(s.thread_inv(o));
    assert(post.memory == s.memory);
    assert(post.owns(o));
    owner_is(post, o);
    assert(post.activity(h) == s.activity(h));
    newcomers_stay(s, o, fresh);
    let w = choose|w: u64| locks_queue(#[trigger] s.activity(w));
    assert(post.activity(w) == s.activity(w));
    let x = choose|x: u64| locks_queue(#[trigger] post.activity(x));
    assert(locks_queue(post.activity(w)));
    assert(x == w);
}

/// A step of any thread: `t` has the lock, or less is to be done until it has, or as much, and the
/// thread on which that depends has not made its step yet.
proof fn step_comes_nearer(s: LockSystem, t: u64, h: u64, u: u64, fresh: usize)
    requires
        s.inv(),
        s.waits(t),
        s.helps(h),
        s.can_step(u, fresh),
    ensures
        ({
            let post = s.step(u, fresh);
            ||| post.activity(t) == Activity::Locking(LockOp::Held)
            ||| {
                &&& post.waits(t)
                &&& s.comes_nearer(post, t) || (u != h && s.stays_as_near(post, t, h))
            }
        }),
{
    lock_has_owner(s, t);
    if u == s.owner() {
        line_moves_up(s, t, fresh);
        if s.step(u, fresh).activity(t) != Activity::Locking(LockOp::Held) {
            owner_moves_on(s, h, fresh);
        }
    } else {
        others_leave_line(s, t, u, fresh);
        others_do_not_hinder(s, h, u, fresh);
    }
}

/// In a run the lock is in order at every moment.
pub proof fn run_is_in_order(run: LockRun, i: nat)
    requires
        run.is_fair(),
    ensures
        run.state(i).inv(),
    decreases i,
{
    if i == 0 {
        start_is_in_order(run.state(0));
    } else {
        let k = (i - 1) as nat;
        run_is_in_order(run, k);
        assert(run.moves(k));
        step_keeps_order(run.state(k), run.turn(k), (run.fresh)(k));
    }
}

/// The wait of a thread ends, seen from a moment at which it depends on the step that `h` makes
/// at `j`.
proof fn wait_ends(run: LockRun, i: nat, t: u64, h: u64, j: nat) -> (end: nat)
    requires
        run.is_fair(),
        run.state(i).waits(t),
        run.state(i).helps(h),
        i <= j,
        run.turn(j) == h,
    ensures
        i <= end,
        run.state(end).activity(t) == Activity::Locking(LockOp::Held),
    decreases
            run.state(i).place(t),
            run.state(i).stage(),
            run.state(i).detours().0,
            run.state(i).detours().1,
            run.state(i).detours().2,
            j - i,
{
    let s = run.state(i);
    let post = run.state(i + 1);
    run_is_in_order(run, i);
    run_is_in_order(run, i + 1);
    assert(run.moves(i));
    step_comes_nearer(s, t, h, run.turn(i), (run.fresh)(i));
    if post.activity(t) == Activity::Locking(LockOp::Held) {
        i + 1
    } else if s.comes_nearer(post, t) {
        lock_has_owner(post, t);
        let next = some_thread_helps(post);
        helper_can_go_on(post, next);
        let k = choose|k: nat| i + 1 <= k && #[trigger] run.turn(k) == next;
        wait_ends(run, i + 1, t, next, k)
    } else {
        wait_ends(run, i + 1, t, h, j)
    }
}

/// Every thread that waits gets the lock: on a run on which no thread stops for good, a thread that
/// is in the queue, or has it for itself to enter it, has the lock in the end.
pub proof fn every_waiting_thread_is_served(run: LockRun, i: nat, t: u64)
    requires
        run.is_fair(),
        run.state(i).waits(t),
    ensures
        exists|j: nat|
            i <= j && #[trigger] run.state(j).activity(t) == Activity::Locking(LockOp::Held),
{
    run_is_in_order(run, i);
    lock_has_owner(run.state(i), t);
    let h = some_thread_helps(run.state(i));
    helper_can_go_on(run.state(i), h);
    let j = choose|j: nat| i <= j && #[trigger] run.turn(j) == h;
    let end = wait_ends(run, i, t, h, j);
    assert(run.state(end).activity(t) == Activity::Locking(LockOp::Held));
}

} // verus!
