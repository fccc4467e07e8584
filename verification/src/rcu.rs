//! A value that is read without waiting and replaced by changed copies.
//!
//! A reader takes a share of the current value and is counted until it is done. A writer copies
//! the value, changes the copy, waits until no reader is counted and puts the copy in place;
//! writers take turns. What a writer does is written as an operation, [`WriteOp`], that stops
//! before each access to shared memory, so that it runs the same way on an [`RCUData`] and
//! concurrently.

use std::sync::Arc;
use vstd::prelude::*;

verus! {

/// What a writer does next.
#[derive(Clone, Copy, PartialEq, Eq, Structural, Debug)]
pub enum WriteAccess {
    /// Wait for its turn among the writers.
    LockWriters,
    /// Copy the value.
    Copy,
    /// Change the copy.
    Update,
    /// Read how many readers are counted.
    LoadReaders,
    /// Let other threads run.
    YieldNow,
    /// Put the copy in place of the value.
    Install,
    /// Give the turn to another writer.
    UnlockWriters,
    /// Nothing: the operation has ended.
    Finished,
}

/// What an access gives back.
#[derive(Clone, Copy, PartialEq, Eq, Structural, Debug)]
pub enum WriteReply {
    /// How many readers are counted.
    Readers { count: usize },
    /// The access was made and has no result.
    Ack,
    /// Another writer has its turn.
    Pending,
}

/// How far a writer has come.
#[derive(Clone, Copy, PartialEq, Eq, Structural, Debug)]
pub enum WriteOp {
    /// About to wait for its turn.
    LockWriters,
    /// About to copy the value.
    Copy,
    /// About to change the copy.
    Update,
    /// About to see whether a reader is counted.
    AwaitReaders,
    /// Saw one; about to let other threads run.
    Yield,
    /// Saw none; about to put the copy in place.
    Install,
    /// About to give the turn away.
    UnlockWriters,
    /// Has replaced the value.
    Done,
}

impl WriteOp {
    /// The access that comes next.
    pub open spec fn next_access(self) -> WriteAccess {
        match self {
            WriteOp::LockWriters => WriteAccess::LockWriters,
            WriteOp::Copy => WriteAccess::Copy,
            WriteOp::Update => WriteAccess::Update,
            WriteOp::AwaitReaders => WriteAccess::LoadReaders,
            WriteOp::Yield => WriteAccess::YieldNow,
            WriteOp::Install => WriteAccess::Install,
            WriteOp::UnlockWriters => WriteAccess::UnlockWriters,
            WriteOp::Done => WriteAccess::Finished,
        }
    }

    /// Where the operation stands after a reply. A reply that does not belong to the access
    /// leaves it where it is.
    pub open spec fn after(self, reply: WriteReply) -> Self {
        match (self, reply) {
            (WriteOp::LockWriters, WriteReply::Ack) => WriteOp::Copy,
            (WriteOp::Copy, WriteReply::Ack) => WriteOp::Update,
            (WriteOp::Update, WriteReply::Ack) => WriteOp::AwaitReaders,
            (WriteOp::AwaitReaders, WriteReply::Readers { count }) => if count > 0 {
                WriteOp::Yield
            } else {
                WriteOp::Install
            },
            (WriteOp::Yield, WriteReply::Ack) => WriteOp::AwaitReaders,
            (WriteOp::Install, WriteReply::Ack) => WriteOp::UnlockWriters,
            (WriteOp::UnlockWriters, WriteReply::Ack) => WriteOp::Done,
            _ => self,
        }
    }

    /// The access that comes next.
    pub fn access(&self) -> (access: WriteAccess)
        ensures
            access == self.next_access(),
    {
        match *self {
            WriteOp::LockWriters => WriteAccess::LockWriters,
            WriteOp::Copy => WriteAccess::Copy,
            WriteOp::Update => WriteAccess::Update,
            WriteOp::AwaitReaders => WriteAccess::LoadReaders,
            WriteOp::Yield => WriteAccess::YieldNow,
            WriteOp::Install => WriteAccess::Install,
            WriteOp::UnlockWriters => WriteAccess::UnlockWriters,
            WriteOp::Done => WriteAccess::Finished,
        }
    }

    /// Goes on after a reply.
    pub fn resume(self, reply: WriteReply) -> (op: Self)
        ensures
            op == self.after(reply),
    {
        match (self, reply) {
            (WriteOp::LockWriters, WriteReply::Ack) => WriteOp::Copy,
            (WriteOp::Copy, WriteReply::Ack) => WriteOp::Update,
            (WriteOp::Update, WriteReply::Ack) => WriteOp::AwaitReaders,
            (WriteOp::AwaitReaders, WriteReply::Readers { count }) => {
                if count > 0 {
                    WriteOp::Yield
                } else {
                    WriteOp::Install
                }
            },
            (WriteOp::Yield, WriteReply::Ack) => WriteOp::AwaitReaders,
            (WriteOp::Install, WriteReply::Ack) => WriteOp::UnlockWriters,
            (WriteOp::UnlockWriters, WriteReply::Ack) => WriteOp::Done,
            _ => self,
        }
    }
}

/// The contents of the memory that readers and writers share.
pub struct RcuView<T> {
    /// The current value.
    pub data: T,
    /// How many readers are counted.
    pub readers: usize,
}

/// One more reader; the count wraps around.
pub open spec fn one_more_reader(count: usize) -> usize {
    if count == usize::MAX {
        0
    } else {
        (count + 1) as usize
    }
}

/// One reader less; the count wraps around.
pub open spec fn one_reader_less(count: usize) -> usize {
    if count == 0 {
        usize::MAX
    } else {
        (count - 1) as usize
    }
}

/// A value that readers share and writers replace.
pub struct RCUData<T> {
    data: Arc<T>,
    reader_count: usize,
}

/// A share of the value that was current when it was taken.
pub struct RCUReader<T> {
    data: Arc<T>,
}

impl<T> RCUReader<T> {
    /// The value that is read.
    pub closed spec fn seen(&self) -> T {
        *self.data
    }

    /// Ends the reading: the reader is not counted any more.
    pub fn leave(self, rcu: &mut RCUData<T>)
        ensures
            final(rcu).shared() == (RcuView {
                readers: one_reader_less(old(rcu).shared().readers),
                ..old(rcu).shared()
            }),
            old(rcu).shared().readers > 0 ==> final(rcu).shared().readers == old(rcu).shared().readers
                - 1,
            old(rcu).shared().readers == 0 ==> final(rcu).shared().readers == usize::MAX,
            final(rcu).shared().data == old(rcu).shared().data,
    {
        rcu.reader_count = rcu.reader_count.wrapping_sub(1);
    }
}

impl<T> std::ops::Deref for RCUReader<T> {
    type Target = T;

    /// The value that is read.
    fn deref(&self) -> (value: &T)
        ensures
            *value == self.seen(),
    {
        &*self.data
    }
}

impl<T> RCUData<T> {
    /// The shared memory.
    pub closed spec fn shared(&self) -> RcuView<T> {
        RcuView { data: *self.data, readers: self.reader_count }
    }

    /// How many readers are counted.
    pub fn reader_count(&self) -> (count: usize)
        ensures
            count == self.shared().readers,
    {
        self.reader_count
    }
}

impl<T: Clone> RCUData<T> {
    /// A value that nobody reads or replaces yet.
    pub fn new(data: T) -> (rcu: Self)
        ensures
            rcu.shared() == (RcuView { data, readers: 0 }),
    {
        RCUData { data: Arc::new(data), reader_count: 0 }
    }

    /// Begins to read the current value; the reader is counted until it leaves.
    pub fn read(&mut self) -> (reader: RCUReader<T>)
        ensures
            reader.seen() == old(self).shared().data,
            final(self).shared() == (RcuView {
                readers: one_more_reader(old(self).shared().readers),
                ..old(self).shared()
            }),
            old(self).shared().readers < usize::MAX ==> final(self).shared().readers == old(
                self,
            ).shared().readers + 1,
            old(self).shared().readers == usize::MAX ==> final(self).shared().readers == 0,
            final(self).shared().data == old(self).shared().data,
    {
        self.reader_count = self.reader_count.wrapping_add(1);
        RCUReader { data: self.data.clone() }
    }

    /// Replaces the value by a clone of it that `f` has changed, when nobody reads. The turn of
    /// the writer is the exclusive borrow, and until `f` has returned nothing is changed.
    pub fn write<F>(&mut self, f: F) where F: FnOnce(&mut T)
        requires
            old(self).shared().readers == 0,
            forall|copy: &mut T|
                cloned::<T>(old(self).shared().data, *copy) ==> #[trigger] call_requires(
                    f,
                    (copy,),
                ),
        ensures
            final(self).shared().readers == 0,
            exists|copy: &mut T|
                {
                    &&& cloned::<T>(old(self).shared().data, *copy)
                    &&& #[trigger] call_ensures(f, (copy,), ())
                    &&& final(self).shared().data == *final(copy)
                },
    {
        let mut op: WriteOp = WriteOp::LockWriters.resume(WriteReply::Ack);
        let mut new_data: T = (*self.data).clone();
        op = op.resume(WriteReply::Ack);
        f(&mut new_data);
        op = op.resume(WriteReply::Ack);
        op = op.resume(WriteReply::Readers { count: self.reader_count });
        self.data = Arc::new(new_data);
        op = op.resume(WriteReply::Ack);
        op = op.resume(WriteReply::Ack);
        assert(op is Done);
    }

    /// The same as [`RCUData::write`].
    pub fn safer_write<F: FnOnce(&mut T)>(&mut self, f: F)
        requires
            old(self).shared().readers == 0,
            forall|copy: &mut T|
                cloned::<T>(old(self).shared().data, *copy) ==> #[trigger] call_requires(
                    f,
                    (copy,),
                ),
        ensures
            final(self).shared().readers == 0,
            exists|copy: &mut T|
                {
                    &&& cloned::<T>(old(self).shared().data, *copy)
                    &&& #[trigger] call_ensures(f, (copy,), ())
                    &&& final(self).shared().data == *final(copy)
                },
    {
        self.write(f)
    }
}

} // verus!
