# sync_primitives

Concurrency primitives, written in Rust and verified with Verus:

- `semaphore`: counting semaphores that spin or sleep.
- `queue_lock`: a lock around a value that serves waiting threads in the order of their arrival.
- `queue_mutex`: a mutex that wakes waiting threads in the order of their arrival.
- `linked_list`: a list that threads change without a lock.
- `rcu`: a value that is read without waiting and replaced by changed copies.
- `trade`, `order_book`, `market`: small trading examples that use them.

What a thread does is written as an operation that stops before each access to shared memory.
`access` says which access comes next, and `resume` what follows from its outcome. The types in
`src/` run these operations on plain memory, one step or one call at a time. `app/` runs the same
operations between threads, on atomics whose accesses are all sequentially consistent.

The modules that end in `laws`, `progress`, `finish`, `search`, `value` and `walk` consider
executions, in which any number of threads make their steps in any order. They prove, among other things:

- lock and mutex: mutual exclusion, service in order of arrival, that no thread sleeps unless
  another will wake it, that no node is used after it was given back, and for the lock that each
  guard sees the value as the one before left it. On a run on which no thread stops for good, a
  thread that waits for the lock gets it, one that waits for the mutex is called to try again, and
  where calls do not begin for ever, all of them end;
- semaphores: that the count follows the permits added and taken, and that no thread sleeps beside
  a permit;
- read-copy-update: that writers wait for readers, that readers keep what they have seen and that
  no update is lost;
- list: that no insertion is lost, that a search finds what is in the list all along, and that a
  walk yields what the list held when it began.

A thread in an execution makes one call after another. One that makes a call while it still has a
lock, a mutex or a share of a value counts as two threads; on a semaphore a thread may have any
number of permits.

These steps are left out of the executions:

- list: deletions that compete. A node is taken out by a link that is still in the list while its
  own link is as it was read; it is not given back under a deletion that is there, and no deletion
  goes on to a node that was given back. Without that, two threads that delete neighbours can undo
  one another.
- list and read-copy-update: a reader who would make the count of readers wrap around.

On the lock, the mutex and the semaphores no step is left out: threads may even wake up for no
reason. The count of a semaphore wraps around at 256; until then it is exact.
