//! Locks, semaphores, a list without locks and a read-copy-update cell, and a few trading
//! examples that use them.
//!
//! Threads that share memory are described by operations that stop before each access to it.
//! A verified function says which access comes next and another what follows from its outcome,
//! so an operation runs the same way on plain memory, one step at a time, and on atomics.
//!
//! What one call does is proved in the modules that end in `calls`, whatever its accesses give
//! back, and there and in `linked_list_alone` of a call during which no other thread does anything.
//!
//! What the threads keep together is proved in the modules that end in `laws`, `progress`,
//! `finish`, `nodes`, `search`, `value` and `walk`, over executions: sequences of states in which
//! any number of threads make their steps in any order. One step is one access, and all threads see
//! the accesses in the same order. A thread in an execution makes one call after another; one that
//! makes a call while it still has a lock, a mutex or a share of a value counts as two threads. On
//! a semaphore a thread may have any number of permits.
//!
//! - On the lock and on the mutex no step of such a thread is left out. Threads may wake up for no
//!   reason, and on the mutex an exchange may fail for none. That a waiting thread is served, or
//!   called, and that calls end is stated of runs on which no thread stops for good.
//! - On the semaphores no step is left out. That no permit is lost is stated exactly as long as
//!   the count has not wrapped around, and up to a multiple of 256 after that.
//! - On the read-copy-update cell the step of a reader is left out who would make the count of
//!   readers wrap around.
//! - On the list, deletions that compete are left out, for they can undo one another or come
//!   upon a node that was given back: a node is taken out by a link that is still in the list
//!   while its own link is as it was read; it is not given back under a deletion that is there,
//!   and no deletion goes on to a node that was given back. Left out too is the step of a reader
//!   who would make the count of readers wrap around. What a walk yields is stated as long as no
//!   item is taken out.

pub mod chain;
pub mod execution;
pub mod heap;
pub mod linked_list;
pub mod linked_list_alone;
pub mod linked_list_calls;
pub mod linked_list_laws;
pub mod linked_list_nodes;
pub mod linked_list_search;
pub mod linked_list_walk;
pub mod lock_calls;
pub mod lock_memory;
pub mod market;
pub mod order_book;
pub mod queue_lock;
pub mod queue_lock_calls;
pub mod queue_lock_finish;
pub mod queue_lock_laws;
pub mod queue_lock_progress;
pub mod queue_lock_steps;
pub mod queue_lock_system;
pub mod queue_lock_value;
pub mod queue_mutex;
pub mod queue_mutex_calls;
pub mod queue_mutex_finish;
pub mod queue_mutex_laws;
pub mod queue_mutex_progress;
pub mod queue_mutex_steps;
pub mod queue_mutex_system;
pub mod rcu;
pub mod rcu_calls;
pub mod rcu_laws;
pub mod semaphore;
pub mod semaphore_calls;
pub mod semaphore_laws;
pub mod semaphore_progress;
pub mod trade;
pub mod word;
