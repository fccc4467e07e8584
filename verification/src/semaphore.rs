//! Counting semaphores. One spins until there is a permit, the other sleeps.
//!
//! What a thread does is written as operations, [`SpinWaitOp`], [`CondWaitOp`],
//! [`SimpleWaitOp`] and [`SignalOp`], that stop before each access to shared memory: `access`
//! says which access comes next and `resume` what follows from its outcome. The same operations
//! run one at a time on a semaphore here and concurrently on atomics.

use vstd::prelude::*;

verus! {

/// What a thread does next to a semaphore.
#[derive(Clone, Copy, PartialEq, Eq, Structural, Debug)]
pub enum SemAccess {
    /// Read the number of permits.
    Load,
    /// Write `new` if the number of permits is `expected`.
    CompareExchange { expected: u8, new: u8 },
    /// Take one from the number of permits, whatever it is.
    Subtract,
    /// Add one to the number of permits.
    Increment,
    /// Wake one thread that sleeps on the condition variable, if there is any.
    NotifyOne,
    /// Take the mutex.
    Lock,
    /// Let go of the mutex.
    Unlock,
    /// Let go of the mutex and sleep on the condition variable.
    Sleep,
    /// Wake up and take the mutex again.
    Relock,
    /// Nothing: the operation has ended.
    Finished,
}

/// What an access gives back.
#[derive(Clone, Copy, PartialEq, Eq, Structural, Debug)]
pub enum SemReply {
    /// The number of permits that was read.
    Value { value: u8 },
    /// The exchange was made.
    Swapped,
    /// The exchange was not made.
    Failed,
    /// The access was made and has no result.
    Ack,
    /// The thread still waits for the mutex.
    Pending,
}

/// The contents of the memory that the threads of a semaphore share.
pub struct SemView {
    /// The number of permits.
    pub value: u8,
    /// Whether a thread has the mutex.
    pub locked: bool,
}

/// One more permit; the count wraps around.
pub open spec fn one_more(value: u8) -> u8 {
    if value == u8::MAX {
        0
    } else {
        (value + 1) as u8
    }
}

/// One permit less; the count wraps around.
pub open spec fn one_less(value: u8) -> u8 {
    if value == 0 {
        u8::MAX
    } else {
        (value - 1) as u8
    }
}

impl SemView {
    /// What an access gives back.
    pub open spec fn reply(self, access: SemAccess) -> SemReply {
        match access {
            SemAccess::Load => SemReply::Value { value: self.value },
            SemAccess::CompareExchange { expected, .. } => if self.value == expected {
                SemReply::Swapped
            } else {
                SemReply::Failed
            },
            SemAccess::Lock => if self.locked {
                SemReply::Pending
            } else {
                SemReply::Ack
            },
            SemAccess::Relock => if self.locked {
                SemReply::Pending
            } else {
                SemReply::Ack
            },
            _ => SemReply::Ack,
        }
    }

    /// The memory after an access.
    pub open spec fn effect(self, access: SemAccess) -> Self {
        match access {
            SemAccess::CompareExchange { expected, new } => if self.value == expected {
                SemView { value: new, ..self }
            } else {
                self
            },
            SemAccess::Subtract => SemView { value: one_less(self.value), ..self },
            SemAccess::Increment => SemView { value: one_more(self.value), ..self },
            SemAccess::Lock => SemView { locked: true, ..self },
            SemAccess::Unlock => SemView { locked: false, ..self },
            SemAccess::Sleep => SemView { locked: false, ..self },
            SemAccess::Relock => SemView { locked: true, ..self },
            _ => self,
        }
    }
}

/// How far a spinning thread has come in taking a permit.
#[derive(Clone, Copy, PartialEq, Eq, Structural, Debug)]
pub enum SpinWaitOp {
    /// About to read the number of permits.
    Load,
    /// Saw a permit; about to take it.
    Exchange { current: u8 },
    /// Has a permit.
    Acquired,
}

impl SpinWaitOp {
    /// No operation tries to take a permit where it saw none.
    pub open spec fn wf(self) -> bool {
        self matches SpinWaitOp::Exchange { current } ==> current > 0
    }

    /// The access that comes next.
    pub open spec fn next_access(self) -> SemAccess {
        match self {
            SpinWaitOp::Load => SemAccess::Load,
            SpinWaitOp::Exchange { current } => SemAccess::CompareExchange {
                expected: current,
                new: (current - 1) as u8,
            },
            SpinWaitOp::Acquired => SemAccess::Finished,
        }
    }

    /// Where the operation stands after a reply. A reply that does not belong to the access
    /// leaves it where it is.
    pub open spec fn after(self, reply: SemReply) -> Self {
        match (self, reply) {
            (SpinWaitOp::Load, SemReply::Value { value }) => if value > 0 {
                SpinWaitOp::Exchange { current: value }
            } else {
                SpinWaitOp::Load
            },
            (SpinWaitOp::Exchange { .. }, SemReply::Swapped) => SpinWaitOp::Acquired,
            (SpinWaitOp::Exchange { .. }, SemReply::Failed) => SpinWaitOp::Load,
            _ => self,
        }
    }

    /// The access that comes next.
    pub fn access(&self) -> (access: SemAccess)
        requires
            self.wf(),
        ensures
            access == self.next_access(),
    {
        match *self {
            SpinWaitOp::Load => SemAccess::Load,
            SpinWaitOp::Exchange { current } => SemAccess::CompareExchange {
                expected: current,
                new: current - 1,
            },
            SpinWaitOp::Acquired => SemAccess::Finished,
        }
    }

    /// Goes on after a reply.
    pub fn resume(self, reply: SemReply) -> (op: Self)
        requires
            self.wf(),
        ensures
            op == self.after(reply),
            op.wf(),
    {
        match (self, reply) {
            (SpinWaitOp::Load, SemReply::Value { value }) => {
                if value > 0 {
                    SpinWaitOp::Exchange { current: value }
                } else {
                    SpinWaitOp::Load
                }
            },
            (SpinWaitOp::Exchange { current: _ }, SemReply::Swapped) => SpinWaitOp::Acquired,
            (SpinWaitOp::Exchange { current: _ }, SemReply::Failed) => SpinWaitOp::Load,
            _ => self,
        }
    }
}

/// How far a thread that sleeps in between has come in taking a permit.
#[derive(Clone, Copy, PartialEq, Eq, Structural, Debug)]
pub enum CondWaitOp {
    /// About to take the mutex.
    Lock,
    /// About to read the number of permits.
    Load,
    /// Saw a permit; about to take it.
    Exchange { current: u8 },
    /// Saw none; about to sleep.
    Sleep,
    /// Asleep; about to wake up with the mutex.
    Asleep,
    /// Took a permit; about to let go of the mutex.
    Unlock,
    /// Has a permit.
    Acquired,
}

impl CondWaitOp {
    /// No operation tries to take a permit where it saw none.
    pub open spec fn wf(self) -> bool {
        self matches CondWaitOp::Exchange { current } ==> current > 0
    }

    /// The access that comes next.
    pub open spec fn next_access(self) -> SemAccess {
        match self {
            CondWaitOp::Lock => SemAccess::Lock,
            CondWaitOp::Load => SemAccess::Load,
            CondWaitOp::Exchange { current } => SemAccess::CompareExchange {
                expected: current,
                new: (current - 1) as u8,
            },
            CondWaitOp::Sleep => SemAccess::Sleep,
            CondWaitOp::Asleep => SemAccess::Relock,
            CondWaitOp::Unlock => SemAccess::Unlock,
            CondWaitOp::Acquired => SemAccess::Finished,
        }
    }

    /// Where the operation stands after a reply. A reply that does not belong to the access
    /// leaves it where it is.
    pub open spec fn after(self, reply: SemReply) -> Self {
        match (self, reply) {
            (CondWaitOp::Lock, SemReply::Ack) => CondWaitOp::Load,
            (CondWaitOp::Load, SemReply::Value { value }) => if value > 0 {
                CondWaitOp::Exchange { current: value }
            } else {
                CondWaitOp::Sleep
            },
            (CondWaitOp::Exchange { .. }, SemReply::Swapped) => CondWaitOp::Unlock,
            (CondWaitOp::Exchange { .. }, SemReply::Failed) => CondWaitOp::Load,
            (CondWaitOp::Sleep, SemReply::Ack) => CondWaitOp::Asleep,
            (CondWaitOp::Asleep, SemReply::Ack) => CondWaitOp::Load,
            (CondWaitOp::Unlock, SemReply::Ack) => CondWaitOp::Acquired,
            _ => self,
        }
    }

    /// The access that comes next.
    pub fn access(&self) -> (access: SemAccess)
        requires
            self.wf(),
        ensures
            access == self.next_access(),
    {
        match *self {
            CondWaitOp::Lock => SemAccess::Lock,
            CondWaitOp::Load => SemAccess::Load,
            CondWaitOp::Exchange { current } => SemAccess::CompareExchange {
                expected: current,
                new: current - 1,
            },
            CondWaitOp::Sleep => SemAccess::Sleep,
            CondWaitOp::Asleep => SemAccess::Relock,
            CondWaitOp::Unlock => SemAccess::Unlock,
            CondWaitOp::Acquired => SemAccess::Finished,
        }
    }

    /// Goes on after a reply.
    pub fn resume(self, reply: SemReply) -> (op: Self)
        requires
            self.wf(),
        ensures
            op == self.after(reply),
            op.wf(),
    {
        match (self, reply) {
            (CondWaitOp::Lock, SemReply::Ack) => CondWaitOp::Load,
            (CondWaitOp::Load, SemReply::Value { value }) => {
                if value > 0 {
                    CondWaitOp::Exchange { current: value }
                } else {
                    CondWaitOp::Sleep
                }
            },
            (CondWaitOp::Exchange { current: _ }, SemReply::Swapped) => CondWaitOp::Unlock,
            (CondWaitOp::Exchange { current: _ }, SemReply::Failed) => CondWaitOp::Load,
            (CondWaitOp::Sleep, SemReply::Ack) => CondWaitOp::Asleep,
            (CondWaitOp::Asleep, SemReply::Ack) => CondWaitOp::Load,
            (CondWaitOp::Unlock, SemReply::Ack) => CondWaitOp::Acquired,
            _ => self,
        }
    }
}

/// How far a thread has come in taking a permit without an exchange.
#[derive(Clone, Copy, PartialEq, Eq, Structural, Debug)]
pub enum SimpleWaitOp {
    /// About to take the mutex.
    Lock,
    /// About to read the number of permits.
    Load,
    /// Saw none; about to sleep.
    Sleep,
    /// Asleep; about to wake up with the mutex.
    Asleep,
    /// Saw a permit; about to take one.
    Subtract,
    /// Took a permit; about to let go of the mutex.
    Unlock,
    /// Has a permit.
    Acquired,
}

impl SimpleWaitOp {
    /// The access that comes next.
    pub open spec fn next_access(self) -> SemAccess {
        match self {
            SimpleWaitOp::Lock => SemAccess::Lock,
            SimpleWaitOp::Load => SemAccess::Load,
            SimpleWaitOp::Sleep => SemAccess::Sleep,
            SimpleWaitOp::Asleep => SemAccess::Relock,
            SimpleWaitOp::Subtract => SemAccess::Subtract,
            SimpleWaitOp::Unlock => SemAccess::Unlock,
            SimpleWaitOp::Acquired => SemAccess::Finished,
        }
    }

    /// Where the operation stands after a reply. A reply that does not belong to the access
    /// leaves it where it is.
    pub open spec fn after(self, reply: SemReply) -> Self {
        match (self, reply) {
            (SimpleWaitOp::Lock, SemReply::Ack) => SimpleWaitOp::Load,
            (SimpleWaitOp::Load, SemReply::Value { value }) => if value == 0 {
                SimpleWaitOp::Sleep
            } else {
                SimpleWaitOp::Subtract
            },
            (SimpleWaitOp::Sleep, SemReply::Ack) => SimpleWaitOp::Asleep,
            (SimpleWaitOp::Asleep, SemReply::Ack) => SimpleWaitOp::Load,
            (SimpleWaitOp::Subtract, SemReply::Ack) => SimpleWaitOp::Unlock,
            (SimpleWaitOp::Unlock, SemReply::Ack) => SimpleWaitOp::Acquired,
            _ => self,
        }
    }

    /// The access that comes next.
    pub fn access(&self) -> (access: SemAccess)
        ensures
            access == self.next_access(),
    {
        match *self {
            SimpleWaitOp::Lock => SemAccess::Lock,
            SimpleWaitOp::Load => SemAccess::Load,
            SimpleWaitOp::Sleep => SemAccess::Sleep,
            SimpleWaitOp::Asleep => SemAccess::Relock,
            SimpleWaitOp::Subtract => SemAccess::Subtract,
            SimpleWaitOp::Unlock => SemAccess::Unlock,
            SimpleWaitOp::Acquired => SemAccess::Finished,
        }
    }

    /// Goes on after a reply.
    pub fn resume(self, reply: SemReply) -> (op: Self)
        ensures
            op == self.after(reply),
    {
        match (self, reply) {
            (SimpleWaitOp::Lock, SemReply::Ack) => SimpleWaitOp::Load,
            (SimpleWaitOp::Load, SemReply::Value { value }) => {
                if value == 0 {
                    SimpleWaitOp::Sleep
                } else {
                    SimpleWaitOp::Subtract
                }
            },
            (SimpleWaitOp::Sleep, SemReply::Ack) => SimpleWaitOp::Asleep,
            (SimpleWaitOp::Asleep, SemReply::Ack) => SimpleWaitOp::Load,
            (SimpleWaitOp::Subtract, SemReply::Ack) => SimpleWaitOp::Unlock,
            (SimpleWaitOp::Unlock, SemReply::Ack) => SimpleWaitOp::Acquired,
            _ => self,
        }
    }
}

/// How far a thread has come in adding a permit for threads that sleep.
#[derive(Clone, Copy, PartialEq, Eq, Structural, Debug)]
pub enum SignalOp {
    /// About to take the mutex.
    Lock,
    /// About to add a permit.
    Increment,
    /// Added one; about to let go of the mutex.
    Unlock,
    /// About to wake a thread that sleeps.
    Notify,
    /// Has added a permit.
    Done,
}

impl SignalOp {
    /// The access that comes next.
    pub open spec fn next_access(self) -> SemAccess {
        match self {
            SignalOp::Lock => SemAccess::Lock,
            SignalOp::Increment => SemAccess::Increment,
            SignalOp::Unlock => SemAccess::Unlock,
            SignalOp::Notify => SemAccess::NotifyOne,
            SignalOp::Done => SemAccess::Finished,
        }
    }

    /// Where the operation stands after a reply. A reply that does not belong to the access
    /// leaves it where it is.
    pub open spec fn after(self, reply: SemReply) -> Self {
        match (self, reply) {
            (SignalOp::Lock, SemReply::Ack) => SignalOp::Increment,
            (SignalOp::Increment, SemReply::Ack) => SignalOp::Unlock,
            (SignalOp::Unlock, SemReply::Ack) => SignalOp::Notify,
            (SignalOp::Notify, SemReply::Ack) => SignalOp::Done,
            _ => self,
        }
    }

    /// The access that comes next.
    pub fn access(&self) -> (access: SemAccess)
        ensures
            access == self.next_access(),
    {
        match *self {
            SignalOp::Lock => SemAccess::Lock,
            SignalOp::Increment => SemAccess::Increment,
            SignalOp::Unlock => SemAccess::Unlock,
            SignalOp::Notify => SemAccess::NotifyOne,
            SignalOp::Done => SemAccess::Finished,
        }
    }

    /// Goes on after a reply.
    pub fn resume(self, reply: SemReply) -> (op: Self)
        ensures
            op == self.after(reply),
    {
        match (self, reply) {
            (SignalOp::Lock, SemReply::Ack) => SignalOp::Increment,
            (SignalOp::Increment, SemReply::Ack) => SignalOp::Unlock,
            (SignalOp::Unlock, SemReply::Ack) => SignalOp::Notify,
            (SignalOp::Notify, SemReply::Ack) => SignalOp::Done,
            _ => self,
        }
    }
}

/// The shared memory of a semaphore.
struct SemMemory {
    value: u8,
    locked: bool,
}

impl View for SemMemory {
    type V = SemView;

    closed spec fn view(&self) -> SemView {
        SemView { value: self.value, locked: self.locked }
    }
}

impl SemMemory {
    /// Makes one access. Waking a thread is left to the caller: it does not change the memory.
    fn perform(&mut self, access: SemAccess) -> (reply: SemReply)
        ensures
            reply == old(self)@.reply(access),
            final(self)@ == old(self)@.effect(access),
    {
        match access {
            SemAccess::Load => SemReply::Value { value: self.value },
            SemAccess::CompareExchange { expected, new } => {
                if self.value == expected {
                    self.value = new;
                    SemReply::Swapped
                } else {
                    SemReply::Failed
                }
            },
            SemAccess::Subtract => {
                self.value = self.value.wrapping_sub(1);
                SemReply::Ack
            },
            SemAccess::Increment => {
                self.value = self.value.wrapping_add(1);
                SemReply::Ack
            },
            SemAccess::Lock | SemAccess::Relock => {
                if self.locked {
                    SemReply::Pending
                } else {
                    self.locked = true;
                    SemReply::Ack
                }
            },
            SemAccess::Unlock | SemAccess::Sleep => {
                self.locked = false;
                SemReply::Ack
            },
            SemAccess::NotifyOne | SemAccess::Finished => SemReply::Ack,
        }
    }
}

/// A semaphore whose waiting threads spin.
pub struct SemaphoreSpinLock {
    memory: SemMemory,
}

impl SemaphoreSpinLock {
    /// The shared memory of the semaphore.
    pub closed spec fn shared(&self) -> SemView {
        self.memory@
    }

    /// A semaphore with a given number of permits.
    pub fn new(initial_value: u8) -> (semaphore: Self)
        ensures
            semaphore.shared() == (SemView { value: initial_value, locked: false }),
    {
        SemaphoreSpinLock { memory: SemMemory { value: initial_value, locked: false } }
    }

    /// Adds a permit; the count wraps around.
    pub fn signal(&mut self)
        ensures
            final(self).shared() == (SemView {
                value: one_more(old(self).shared().value),
                ..old(self).shared()
            }),
            final(self).shared().value == (old(self).shared().value + 1) % 256,
    {
        self.memory.perform(SemAccess::Increment);
    }

    /// The number of permits.
    pub fn value(&self) -> (value: u8)
        ensures
            value == self.shared().value,
    {
        self.memory.value
    }

    /// Lets a thread make one access on its way to a permit.
    pub fn wait_step(&mut self, op: SpinWaitOp) -> (next: SpinWaitOp)
        requires
            op.wf(),
        ensures
            next.wf(),
            next == op.after(old(self).shared().reply(op.next_access())),
            final(self).shared() == old(self).shared().effect(op.next_access()),
    {
        let access: SemAccess = op.access();
        let reply: SemReply = self.memory.perform(access);
        op.resume(reply)
    }

    /// Takes a permit, of which there must be one.
    pub fn wait(&mut self)
        requires
            old(self).shared().value > 0,
        ensures
            final(self).shared() == (SemView {
                value: (old(self).shared().value - 1) as u8,
                ..old(self).shared()
            }),
    {
        let mut op: SpinWaitOp = SpinWaitOp::Load;
        op = self.wait_step(op);
        op = self.wait_step(op);
        assert(op is Acquired);
    }
}

/// A semaphore whose waiting threads sleep on a condition variable.
pub struct SemaphoreCondVar {
    memory: SemMemory,
}

impl SemaphoreCondVar {
    /// The shared memory of the semaphore.
    pub closed spec fn shared(&self) -> SemView {
        self.memory@
    }

    /// A semaphore with a given number of permits.
    pub fn new(initial_value: u8) -> (semaphore: Self)
        ensures
            semaphore.shared() == (SemView { value: initial_value, locked: false }),
    {
        SemaphoreCondVar { memory: SemMemory { value: initial_value, locked: false } }
    }

    /// The number of permits.
    pub fn value(&self) -> (value: u8)
        ensures
            value == self.shared().value,
    {
        self.memory.value
    }

    /// Adds a permit while no other thread has the mutex; the count wraps around. One thread
    /// that sleeps, if there is any, is to be woken by the caller.
    pub fn signal(&mut self)
        requires
            !old(self).shared().locked,
        ensures
            final(self).shared() == (SemView {
                value: one_more(old(self).shared().value),
                locked: false,
            }),
            final(self).shared().value == (old(self).shared().value + 1) % 256,
    {
        let mut op: SignalOp = SignalOp::Lock;
        op = self.signal_step(op);
        op = self.signal_step(op);
        op = self.signal_step(op);
        op = self.signal_step(op);
        assert(op is Done);
    }

    /// Lets a thread make one access on its way to add a permit. A thread that waits for the
    /// mutex stays where it is until the mutex is free. The thread to be woken by a
    /// [`SignalOp::Notify`] is for the caller to choose.
    pub fn signal_step(&mut self, op: SignalOp) -> (next: SignalOp)
        ensures
            next == op.after(old(self).shared().reply(op.next_access())),
            final(self).shared() == old(self).shared().effect(op.next_access()),
    {
        let access: SemAccess = op.access();
        let reply: SemReply = self.memory.perform(access);
        op.resume(reply)
    }

    /// Lets a thread make one access on its way to a permit. A thread that waits for the mutex
    /// stays where it is until the mutex is free.
    pub fn wait_step(&mut self, op: CondWaitOp) -> (next: CondWaitOp)
        requires
            op.wf(),
        ensures
            next.wf(),
            next == op.after(old(self).shared().reply(op.next_access())),
            final(self).shared() == old(self).shared().effect(op.next_access()),
    {
        let access: SemAccess = op.access();
        let reply: SemReply = self.memory.perform(access);
        op.resume(reply)
    }

    /// Lets a thread make one access on its way to a permit without an exchange. A thread that
    /// waits for the mutex stays where it is until the mutex is free.
    pub fn wait_simple_step(&mut self, op: SimpleWaitOp) -> (next: SimpleWaitOp)
        ensures
            next == op.after(old(self).shared().reply(op.next_access())),
            final(self).shared() == old(self).shared().effect(op.next_access()),
    {
        let access: SemAccess = op.access();
        let reply: SemReply = self.memory.perform(access);
        op.resume(reply)
    }

    /// Takes a permit, of which there must be one, while no other thread has the mutex.
    pub fn wait(&mut self)
        requires
            old(self).shared().value > 0,
            !old(self).shared().locked,
        ensures
            final(self).shared() == (SemView {
                value: (old(self).shared().value - 1) as u8,
                locked: false,
            }),
    {
        let mut op: CondWaitOp = CondWaitOp::Lock;
        op = self.wait_step(op);
        op = self.wait_step(op);
        op = self.wait_step(op);
        op = self.wait_step(op);
        assert(op is Acquired);
    }

    /// Takes a permit, of which there must be one, while no other thread has the mutex.
    pub fn wait_simple(&mut self)
        requires
            old(self).shared().value > 0,
            !old(self).shared().locked,
        ensures
            final(self).shared() == (SemView {
                value: (old(self).shared().value - 1) as u8,
                locked: false,
            }),
    {
        let mut op: SimpleWaitOp = SimpleWaitOp::Lock;
        op = self.wait_simple_step(op);
        op = self.wait_simple_step(op);
        op = self.wait_simple_step(op);
        op = self.wait_simple_step(op);
        assert(op is Acquired);
    }
}

} // verus!
