//! What every interleaving of readers and writers keeps.

use crate::execution::{apply_all, invariant_holds_throughout, is_execution};
use crate::rcu::{one_more_reader, one_reader_less, RcuView, WriteAccess, WriteOp, WriteReply};
use vstd::prelude::*;

verus! {

/// What a thread is doing with the value.
#[verifier::reject_recursive_types(T)]
pub enum RcuActivity<T> {
    /// Nothing.
    Idle,
    /// Counted as a reader; about to take a share of the value.
    Counted,
    /// Reading the value that was current when it took its share.
    Reading { seen: T },
    /// Replacing the value: `base` is the copy it took and `update` the change to it.
    Writing { op: WriteOp, base: T, update: spec_fn(T) -> T },
}

/// What is left open in a step: whether an idle thread begins to read or to write, which clone a
/// writer gets as its copy, how it changes it, and whether it panics over that.
#[verifier::reject_recursive_types(T)]
pub struct RcuChance<T> {
    pub reads: bool,
    pub copy: T,
    pub update: spec_fn(T) -> T,
    pub panics: bool,
}

/// One replacement of the value: the copy that a writer took and its change to it.
#[verifier::reject_recursive_types(T)]
pub struct Replacement<T> {
    pub copy: T,
    pub update: spec_fn(T) -> T,
}

/// A value and the threads that use it, with their history.
#[verifier::reject_recursive_types(T)]
pub struct RcuSystem<T> {
    pub memory: RcuView<T>,
    pub threads: Map<u64, RcuActivity<T>>,
    /// Whether a writer has its turn.
    pub writing: bool,
    /// The values so far, the current one last.
    pub values: Seq<T>,
    /// How each of them was replaced by the next.
    pub replacements: Seq<Replacement<T>>,
    /// The threads that are counted as readers.
    pub readers: Set<u64>,
    /// The writers that have put their copy in place and not ended.
    pub behind: Set<u64>,
    /// How many writers have ended their call.
    pub ended: nat,
}

/// Each value but the first comes from a clone of the one before it, changed by one update, and
/// there is one value more than there are updates.
pub open spec fn is_history<T: Clone>(
    values: Seq<T>,
    replacements: Seq<Replacement<T>>,
) -> bool {
    &&& values.len() == replacements.len() + 1
    &&& forall|k: int|
        0 <= k < replacements.len() ==> {
            &&& cloned::<T>(values[k], (#[trigger] replacements[k]).copy)
            &&& values[k + 1] == (replacements[k].update)(replacements[k].copy)
        }
}

/// The updates of some replacements.
pub open spec fn updates_of<T>(replacements: Seq<Replacement<T>>) -> Seq<spec_fn(T) -> T> {
    replacements.map_values(|r: Replacement<T>| r.update)
}

impl<T: Clone> RcuSystem<T> {
    /// What a thread is doing.
    pub open spec fn activity(self, t: u64) -> RcuActivity<T> {
        if self.threads.contains_key(t) {
            self.threads[t]
        } else {
            RcuActivity::Idle
        }
    }

    /// A value that no thread uses.
    pub open spec fn init(self) -> bool {
        &&& self.memory.readers == 0
        &&& !self.writing
        &&& self.values == seq![self.memory.data]
        &&& self.threads == Map::<u64, RcuActivity<T>>::empty()
        &&& self.replacements == Seq::<Replacement<T>>::empty()
        &&& self.readers == Set::<u64>::empty()
        &&& self.behind == Set::<u64>::empty()
        &&& self.ended == 0
    }

    /// The same system with another activity of one thread.
    pub open spec fn with(self, t: u64, activity: RcuActivity<T>) -> Self {
        RcuSystem { threads: self.threads.insert(t, activity), ..self }
    }

    /// Whether thread `t` can make a step. The count of readers does not overflow, and a writer
    /// gets a clone of the value.
    pub open spec fn can_step(self, t: u64, chance: RcuChance<T>) -> bool {
        match self.activity(t) {
            RcuActivity::Idle => chance.reads ==> self.memory.readers < usize::MAX,
            RcuActivity::Writing { op: WriteOp::Copy, .. } => cloned::<T>(
                self.memory.data,
                chance.copy,
            ),
            _ => true,
        }
    }

    /// What an access of a writer gives back.
    pub open spec fn reply(self, access: WriteAccess) -> WriteReply {
        match access {
            WriteAccess::LockWriters => if self.writing {
                WriteReply::Pending
            } else {
                WriteReply::Ack
            },
            WriteAccess::LoadReaders => WriteReply::Readers { count: self.memory.readers },
            _ => WriteReply::Ack,
        }
    }

    /// Whether a writer panics in a step: while it changes its copy.
    pub open spec fn panics(self, t: u64, chance: RcuChance<T>) -> bool {
        &&& chance.panics
        &&& self.activity(t) matches RcuActivity::Writing { op, .. } && op.next_access() is Update
    }

    /// Whether a writer is about to put its copy in place.
    pub open spec fn installs(self, t: u64) -> bool {
        self.activity(t) matches RcuActivity::Writing { op: WriteOp::Install, .. }
    }

    /// Whether a thread reads the value, or is counted and about to.
    pub open spec fn reads(self, t: u64) -> bool {
        self.activity(t) is Counted || self.activity(t) is Reading
    }

    /// The system after one step of a writer that does not panic.
    pub open spec fn write_step(
        self,
        t: u64,
        chance: RcuChance<T>,
        op: WriteOp,
        base: T,
        update: spec_fn(T) -> T,
    ) -> Self {
        let access = op.next_access();
        let next = op.after(self.reply(access));
        let post = RcuSystem {
            behind: if next is UnlockWriters || next is Done {
                self.behind.insert(t)
            } else {
                self.behind
            },
            ..self.with(t, RcuActivity::Writing { op: next, base, update })
        };
        match access {
            WriteAccess::LockWriters => RcuSystem { writing: true, ..post },
            WriteAccess::Copy => RcuSystem {
                threads: self.threads.insert(
                    t,
                    RcuActivity::Writing { op: next, base: chance.copy, update },
                ),
                ..post
            },
            WriteAccess::Update => RcuSystem {
                threads: self.threads.insert(
                    t,
                    RcuActivity::Writing { op: next, base, update: chance.update },
                ),
                ..post
            },
            WriteAccess::Install => RcuSystem {
                memory: RcuView { data: update(base), ..self.memory },
                values: self.values.push(update(base)),
                replacements: self.replacements.push(Replacement { copy: base, update }),
                ..post
            },
            WriteAccess::UnlockWriters => RcuSystem { writing: false, ..post },
            WriteAccess::Finished => RcuSystem {
                behind: self.behind.remove(t),
                ended: self.ended + 1,
                ..self.with(t, RcuActivity::Idle)
            },
            _ => post,
        }
    }

    /// The system after one step of thread `t`. A writer that panics gives its turn away.
    pub open spec fn step(self, t: u64, chance: RcuChance<T>) -> Self {
        match self.activity(t) {
            RcuActivity::Writing { .. } if self.panics(t, chance) => RcuSystem {
                writing: false,
                ..self.with(t, RcuActivity::Idle)
            },
            RcuActivity::Idle => if chance.reads {
                RcuSystem {
                    memory: RcuView {
                        readers: one_more_reader(self.memory.readers),
                        ..self.memory
                    },
                    readers: self.readers.insert(t),
                    ..self.with(t, RcuActivity::Counted)
                }
            } else {
                self.with(
                    t,
                    RcuActivity::Writing {
                        op: WriteOp::LockWriters,
                        base: self.memory.data,
                        update: chance.update,
                    },
                )
            },
            RcuActivity::Counted => self.with(t, RcuActivity::Reading { seen: self.memory.data }),
            RcuActivity::Reading { .. } => RcuSystem {
                memory: RcuView { readers: one_reader_less(self.memory.readers), ..self.memory },
                readers: self.readers.remove(t),
                ..self.with(t, RcuActivity::Idle)
            },
            RcuActivity::Writing { op, base, update } => self.write_step(
                t,
                chance,
                op,
                base,
                update,
            ),
        }
    }

    /// One step of some thread leads from `self` to `post`.
    pub open spec fn next(self, post: Self) -> bool {
        exists|t: u64, chance: RcuChance<T>| #[trigger]
            self.can_step(t, chance) && post == self.step(t, chance)
    }

    /// Whether a writer has its turn.
    pub open spec fn has_turn(self, t: u64) -> bool {
        self.activity(t) matches RcuActivity::Writing { op, .. } && op !is LockWriters
            && op !is Done
    }

    /// Whether a writer is past the point where it puts its copy in place.
    pub open spec fn has_installed(self, t: u64) -> bool {
        self.activity(t) matches RcuActivity::Writing { op, .. } && (op is UnlockWriters || op
            is Done)
    }

    /// What holds of one thread: it is counted while it reads, and a writer that has its turn
    /// works on a clone of the current value until it has replaced it.
    pub open spec fn thread_inv(self, t: u64) -> bool {
        &&& self.readers.contains(t) == (self.activity(t) is Counted
            || self.activity(t) is Reading)
        &&& self.has_turn(t) ==> self.writing
        &&& self.behind.contains(t) == self.has_installed(t)
        &&& self.has_installed(t) ==> exists|k: int|
            0 <= k < self.replacements.len() && #[trigger] self.replacements[k] == (Replacement {
                copy: self.activity(t)->base,
                update: self.activity(t)->update,
            })
        &&& self.activity(t) matches RcuActivity::Writing { op, base, .. } ==> (op is Update
            || op is AwaitReaders || op is Yield || op is Install) ==> cloned::<T>(
            self.memory.data,
            base,
        )
    }

    /// The readers are counted right, one writer at most has its turn, and the value is what the
    /// updates have made of the first one.
    pub open spec fn inv(self) -> bool {
        &&& self.behind.finite()
        &&& self.replacements.len() == self.ended + self.behind.len()
        &&& self.readers.finite()
        &&& self.memory.readers == self.readers.len()
        &&& is_history(self.values, self.replacements)
        &&& self.memory.data == self.values.last()
        &&& forall|t: u64| #[trigger] self.thread_inv(t)
        &&& forall|t: u64, u: u64| #[trigger]
            self.has_turn(t) && #[trigger] self.has_turn(u) ==> t == u
        &&& self.writing ==> exists|t: u64| #[trigger] self.has_turn(t)
    }
}

/// Every step of every thread keeps all of that.
pub proof fn step_keeps_value<T: Clone>(pre: RcuSystem<T>, t: u64, chance: RcuChance<T>)
    requires
        pre.inv(),
        pre.can_step(t, chance),
    ensures
        pre.step(t, chance).inv(),
{
    let post = pre.step(t, chance);
    assert(pre.thread_inv(t));
    assert forall|u: u64| u != t implies #[trigger] post.activity(u) == pre.activity(u) by {}
    assert forall|u: u64| u != t implies #[trigger] post.has_turn(u) == pre.has_turn(u) by {
        assert(post.activity(u) == pre.activity(u));
    }
    assert forall|u: u64| #[trigger] post.thread_inv(u) by {
        assert(pre.thread_inv(u));
        if pre.has_installed(u) {
            let k = choose|k: int|
                0 <= k < pre.replacements.len() && #[trigger] pre.replacements[k] == (Replacement {
                    copy: pre.activity(u)->base,
                    update: pre.activity(u)->update,
                });
            assert(post.replacements[k] == pre.replacements[k]);
        }
        if u == t && post.has_installed(t) && !pre.has_installed(t) {
            assert(post.replacements[pre.replacements.len() as int] == (Replacement {
                copy: post.activity(t)->base,
                update: post.activity(t)->update,
            }));
        }
        if u != t {
            assert(post.activity(u) == pre.activity(u));
            assert(post.has_turn(u) == pre.has_turn(u));
            assert(pre.has_turn(u) && pre.has_turn(t) ==> u == t);
        }
    }
    assert forall|u: u64, v: u64| #[trigger] post.has_turn(u) && #[trigger] post.has_turn(
        v,
    ) implies u == v by {
        assert(pre.thread_inv(u));
        assert(pre.thread_inv(v));
        assert(u != t ==> pre.has_turn(u));
        assert(v != t ==> pre.has_turn(v));
        assert(post.has_turn(t) ==> pre.has_turn(t) || !pre.writing);
    }
    if post.writing && !post.has_turn(t) {
        let u = choose|u: u64| #[trigger] pre.has_turn(u);
        assert(u != t ==> post.has_turn(u));
        assert(pre.has_turn(t) ==> u == t);
    }
    if let RcuActivity::Writing { op: WriteOp::Install, base, update } = pre.activity(t) {
        assert forall|k: int| 0 <= k < post.replacements.len() implies {
            &&& cloned::<T>(post.values[k], (#[trigger] post.replacements[k]).copy)
            &&& post.values[k + 1] == (post.replacements[k].update)(post.replacements[k].copy)
        } by {
            if k < pre.replacements.len() {
                assert(post.replacements[k] == pre.replacements[k]);
                assert(post.values[k] == pre.values[k]);
                assert(post.values[k + 1] == pre.values[k + 1]);
            }
        }
    }
}

/// The executions of a value.
pub open spec fn is_rcu_execution<T: Clone>(states: Seq<RcuSystem<T>>) -> bool {
    is_execution(
        states,
        |s: RcuSystem<T>| s.init(),
        |s: RcuSystem<T>, post: RcuSystem<T>| s.next(post),
    )
}

/// In every execution all of that holds at every moment.
pub proof fn value_holds_throughout<T: Clone>(states: Seq<RcuSystem<T>>, i: int)
    requires
        is_rcu_execution(states),
        0 <= i < states.len(),
    ensures
        states[i].inv(),
{
    let init = |s: RcuSystem<T>| s.init();
    let next = |s: RcuSystem<T>, post: RcuSystem<T>| s.next(post);
    let inv = |s: RcuSystem<T>| s.inv();
    assert forall|s: RcuSystem<T>, post: RcuSystem<T>| inv(s) && #[trigger] next(
        s,
        post,
    ) implies inv(post) by {
        let (t, chance) = choose|t: u64, chance: RcuChance<T>| #[trigger]
            s.can_step(t, chance) && post == s.step(t, chance);
        step_keeps_value(s, t, chance);
    }
    invariant_holds_throughout(states, init, next, inv, i);
}

/// Writers are serialized and none is lost: the current value comes from the first one by every
/// update put in place so far, each applied to a clone of what the one before it left.
pub proof fn no_update_is_lost<T: Clone>(states: Seq<RcuSystem<T>>, i: int)
    requires
        is_rcu_execution(states),
        0 <= i < states.len(),
    ensures
        is_history(states[i].values, states[i].replacements),
        states[i].values[0] == states[0].memory.data,
        states[i].memory.data == states[i].values.last(),
{
    value_holds_throughout(states, i);
    first_value_stays(states, i);
}

proof fn first_value_stays<T: Clone>(states: Seq<RcuSystem<T>>, i: int)
    requires
        is_rcu_execution(states),
        0 <= i < states.len(),
    ensures
        states[i].values[0] == states[0].memory.data,
    decreases i,
{
    let init = |s: RcuSystem<T>| s.init();
    assert(init(states[0]));
    if i > 0 {
        first_value_stays(states, i - 1);
        value_holds_throughout(states, i - 1);
        let next = |s: RcuSystem<T>, post: RcuSystem<T>| s.next(post);
        assert(next(states[i - 1], states[i]));
    }
}

proof fn history_applies_all<T: Clone>(values: Seq<T>, replacements: Seq<Replacement<T>>)
    requires
        is_history(values, replacements),
        forall|a: T, b: T| #[trigger] cloned::<T>(a, b) ==> a == b,
    ensures
        values.last() == apply_all(values[0], updates_of(replacements)),
    decreases replacements.len(),
{
    let updates = updates_of(replacements);
    if replacements.len() > 0 {
        let k = replacements.len() - 1;
        let earlier = values.drop_last();
        let before = replacements.drop_last();
        assert forall|m: int| 0 <= m < before.len() implies {
            &&& cloned::<T>(earlier[m], (#[trigger] before[m]).copy)
            &&& earlier[m + 1] == (before[m].update)(before[m].copy)
        } by {
            assert(before[m] == replacements[m]);
        }
        history_applies_all(earlier, before);
        assert(updates.drop_last() == updates_of(before));
        assert(cloned::<T>(values[k], replacements[k].copy));
    }
}

/// For values whose clones are equal to them, the current value is the first one with all
/// updates applied to it, one after the other.
pub proof fn updates_are_all_applied<T: Clone>(states: Seq<RcuSystem<T>>, i: int)
    requires
        is_rcu_execution(states),
        0 <= i < states.len(),
        forall|a: T, b: T| #[trigger] cloned::<T>(a, b) ==> a == b,
    ensures
        states[i].memory.data == apply_all(
            states[0].memory.data,
            updates_of(states[i].replacements),
        ),
{
    value_holds_throughout(states, i);
    first_value_stays(states, i);
    history_applies_all(states[i].values, states[i].replacements);
}

/// The count of readers is the number of threads that read.
pub proof fn readers_are_counted<T: Clone>(states: Seq<RcuSystem<T>>, i: int)
    requires
        is_rcu_execution(states),
        0 <= i < states.len(),
    ensures
        states[i].memory.readers == states[i].readers.len(),
        states[i].readers.finite(),
        forall|t: u64|
            states[i].readers.contains(t) == (#[trigger] states[i].activity(t) is Counted
                || states[i].activity(t) is Reading),
{
    value_holds_throughout(states, i);
    assert forall|t: u64|
        states[i].readers.contains(t) == (#[trigger] states[i].activity(t) is Counted
            || states[i].activity(t) is Reading) by {
        assert(states[i].thread_inv(t));
    }
}

/// A writer waits for the readers: the step that brings it to the point where it puts its copy in
/// place, whichever step that is, is made while no thread reads.
pub proof fn writer_waits_for_readers<T: Clone>(
    states: Seq<RcuSystem<T>>,
    i: int,
    t: u64,
    u: u64,
)
    requires
        is_rcu_execution(states),
        0 <= i < states.len() - 1,
        !states[i].installs(t),
        states[i + 1].installs(t),
    ensures
        !states[i].reads(u),
{
    value_holds_throughout(states, i);
    let s = states[i];
    let next = |s: RcuSystem<T>, post: RcuSystem<T>| s.next(post);
    assert(next(states[i + 1 - 1], states[i + 1]));
    let (v, chance) = choose|v: u64, chance: RcuChance<T>| #[trigger]
        s.can_step(v, chance) && states[i + 1] == s.step(v, chance);
    assert(v != t ==> states[i + 1].activity(t) == s.activity(t));
    assert(s.memory.readers == 0);
    assert(s.readers =~= Set::<u64>::empty());
    assert(s.thread_inv(u));
}

/// A reader keeps writers waiting: while it reads, no writer comes to the point where it puts its
/// copy in place.
pub proof fn readers_keep_writers_waiting<T: Clone>(
    states: Seq<RcuSystem<T>>,
    i: int,
    j: int,
    t: u64,
    u: u64,
)
    requires
        is_rcu_execution(states),
        0 <= i <= j < states.len(),
        !states[i].installs(t),
        forall|k: int| i <= k < j ==> #[trigger] states[k].reads(u),
    ensures
        !states[j].installs(t),
    decreases j - i,
{
    if i < j {
        readers_keep_writers_waiting(states, i, j - 1, t, u);
        if states[j].installs(t) {
            writer_waits_for_readers(states, j - 1, t, u);
            assert(states[j - 1].reads(u));
        }
    }
}

/// Every writer puts its copy in place, once: in every execution the replacements are as many as
/// the writers that have ended or are past the point where they do so, and the update of each of
/// those, applied to the copy that it took, is among them.
pub proof fn every_writer_installs_its_copy<T: Clone>(
    states: Seq<RcuSystem<T>>,
    i: int,
    t: u64,
    op: WriteOp,
    base: T,
    update: spec_fn(T) -> T,
)
    requires
        is_rcu_execution(states),
        0 <= i < states.len(),
    ensures
        states[i].replacements.len() == states[i].ended + states[i].behind.len(),
        forall|u: u64| states[i].behind.contains(u) == #[trigger] states[i].has_installed(u),
        states[i].activity(t) == (RcuActivity::Writing { op, base, update }) && (op is Done || op
            is UnlockWriters) ==> exists|k: int|
            0 <= k < states[i].replacements.len() && (#[trigger] states[i].replacements[k]).copy
                == base && states[i].replacements[k].update == update,
        states[i].activity(t) == (RcuActivity::Writing { op, base, update }) && op !is Done && op
            !is UnlockWriters ==> !states[i].behind.contains(t),
{
    value_holds_throughout(states, i);
    let s = states[i];
    assert(s.thread_inv(t));
    assert forall|u: u64| s.behind.contains(u) == #[trigger] s.has_installed(u) by {
        assert(s.thread_inv(u));
    }
}

/// The system after some steps of one thread alone.
pub open spec fn alone<T: Clone>(
    s: RcuSystem<T>,
    t: u64,
    chance: RcuChance<T>,
    steps: nat,
) -> RcuSystem<T>
    decreases steps,
{
    if steps == 0 {
        s
    } else {
        alone(s.step(t, chance), t, chance, (steps - 1) as nat)
    }
}

/// A writer that is alone ends its call, and leaves its change of the copy as the value for those
/// who come after it.
pub proof fn writing_alone_replaces_the_value<T: Clone>(
    s: RcuSystem<T>,
    t: u64,
    chance: RcuChance<T>,
)
    requires
        s.inv(),
        s.activity(t) matches RcuActivity::Writing { op: WriteOp::LockWriters, .. },
        !s.writing,
        s.memory.readers == 0,
        !chance.panics,
    ensures
        exists|n: nat|
            {
                let end = #[trigger] alone(s, t, chance, n);
                &&& end.activity(t) matches RcuActivity::Writing { op: WriteOp::Done, .. }
                &&& end.memory.data == (chance.update)(chance.copy)
                &&& end.memory.readers == 0
                &&& end.replacements.len() == s.replacements.len() + 1
                &&& !end.writing
            },
{
    reveal_with_fuel(alone, 7);
    let end = alone(s, t, chance, 6);
    let one = s.step(t, chance);
    let two = one.step(t, chance);
    let three = two.step(t, chance);
    let four = three.step(t, chance);
    let five = four.step(t, chance);
    assert(one.activity(t)->op is Copy);
    assert(two.activity(t)->op is Update);
    assert(three.activity(t)->op is AwaitReaders);
    assert(four.activity(t)->op is Install);
    assert(five.activity(t)->op is UnlockWriters);
    assert(end == five.step(t, chance));
    assert(end.activity(t)->op is Done);
}

/// A writer that waits for readers goes on when the last of them has left: alone from there, it
/// leaves its change of the copy as the value.
pub proof fn writer_goes_on_after_the_readers<T: Clone>(
    s: RcuSystem<T>,
    t: u64,
    chance: RcuChance<T>,
    op: WriteOp,
    base: T,
    update: spec_fn(T) -> T,
)
    requires
        s.inv(),
        s.activity(t) == (RcuActivity::Writing { op, base, update }),
        op is Yield || op is AwaitReaders,
        s.memory.readers == 0,
        !chance.panics,
    ensures
        exists|n: nat|
            {
                let end = #[trigger] alone(s, t, chance, n);
                &&& end.activity(t) matches RcuActivity::Writing { op: WriteOp::Done, .. }
                &&& end.memory.data == update(base)
                &&& end.replacements.len() == s.replacements.len() + 1
                &&& !end.writing
            },
{
    reveal_with_fuel(alone, 5);
    let start = if op is Yield {
        s.step(t, chance)
    } else {
        s
    };
    assert(start.activity(t)->op is AwaitReaders);
    let one = start.step(t, chance);
    assert(one.activity(t)->op is Install);
    let two = one.step(t, chance);
    assert(two.activity(t)->op is UnlockWriters);
    let three = two.step(t, chance);
    assert(three.activity(t)->op is Done);
    if op is Yield {
        assert(alone(s, t, chance, 4) == three);
    } else {
        assert(alone(s, t, chance, 3) == three);
    }
}

/// Writers take turns, and no turn is lost: one writer at most has its turn, and a writer waits
/// only while another has it.
pub proof fn writers_take_turns<T: Clone>(states: Seq<RcuSystem<T>>, i: int, t: u64, u: u64)
    requires
        is_rcu_execution(states),
        0 <= i < states.len(),
    ensures
        states[i].has_turn(t) && states[i].has_turn(u) ==> t == u,
        states[i].writing <==> exists|v: u64| #[trigger] states[i].has_turn(v),
{
    value_holds_throughout(states, i);
    let s = states[i];
    if exists|v: u64| #[trigger] s.has_turn(v) {
        let v = choose|v: u64| #[trigger] s.has_turn(v);
        assert(s.thread_inv(v));
    }
}

/// A writer that panics changes nothing, and another can have its turn at once.
pub proof fn panicking_writer_changes_nothing<T: Clone>(
    states: Seq<RcuSystem<T>>,
    i: int,
    t: u64,
    chance: RcuChance<T>,
)
    requires
        is_rcu_execution(states),
        0 <= i < states.len(),
        states[i].can_step(t, chance),
        states[i].panics(t, chance),
    ensures
        states[i].step(t, chance).memory == states[i].memory,
        states[i].step(t, chance).values == states[i].values,
        !states[i].step(t, chance).writing,
        forall|u: u64| !#[trigger] states[i].step(t, chance).has_turn(u),
{
    value_holds_throughout(states, i);
    step_keeps_value(states[i], t, chance);
    let post = states[i].step(t, chance);
    assert forall|u: u64| !#[trigger] post.has_turn(u) by {
        assert(post.thread_inv(u));
    }
}

/// A reader keeps what it has seen for as long as it reads, whatever other threads do.
pub proof fn readers_keep_their_share<T: Clone>(
    pre: RcuSystem<T>,
    t: u64,
    chance: RcuChance<T>,
    u: u64,
    seen: T,
)
    requires
        pre.can_step(t, chance),
        pre.activity(u) == (RcuActivity::Reading { seen }),
        t != u,
    ensures
        pre.step(t, chance).activity(u) == (RcuActivity::Reading { seen }),
{
}

/// A thread that takes a share sees the latest value, with all updates put in place before.
pub proof fn readers_see_the_latest_value<T: Clone>(
    states: Seq<RcuSystem<T>>,
    i: int,
    t: u64,
    chance: RcuChance<T>,
)
    requires
        is_rcu_execution(states),
        0 <= i < states.len(),
        states[i].activity(t) is Counted,
    ensures
        states[i].step(t, chance).activity(t) == (RcuActivity::Reading {
            seen: states[i].values.last(),
        }),
{
    value_holds_throughout(states, i);
}

/// Leaving undoes reading: the count of readers is as it was after both.
pub proof fn leaving_undoes_reading(count: usize)
    ensures
        one_reader_less(one_more_reader(count)) == count,
{
}

} // verus!
