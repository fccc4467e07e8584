//! What can be read off the accesses that one call on a queue-based lock or mutex has made.

use crate::lock_memory::{Access, Reply};
use crate::word::{address, compose, is_locked, is_queue_locked};
use vstd::prelude::*;

verus! {

/// Whether a reply is one to an access.
pub open spec fn belongs(access: Access, reply: Reply) -> bool {
    match access {
        Access::LoadState => reply is Value,
        Access::CompareExchange { .. } => reply is Swapped || reply is Observed,
        Access::NewNode { .. } => reply is Node,
        Access::LoadNext { .. } => reply is Next,
        Access::ReadThread { .. } => reply is Thread,
        Access::ReadMark { .. } => reply is Marked,
        _ => reply is Ack,
    }
}

/// Whether an access can give back a reply. Nodes have addresses that leave the flag bits of a
/// state word free.
pub open spec fn lock_fits(access: Access, reply: Reply) -> bool {
    &&& belongs(access, reply)
    &&& reply matches Reply::Node { node } ==> node != 0 && node % 4 == 0
    &&& reply matches Reply::Next { next } ==> next % 4 == 0
}

/// The access that was made some accesses before the end of a log, and what it gave back.
pub open spec fn back(log: Seq<(Access, Reply)>, n: int) -> (Access, Reply) {
    log[log.len() - n]
}

/// The state word as the call has last seen or written it.
pub open spec fn known(log: Seq<(Access, Reply)>) -> Option<usize>
    decreases log.len(),
{
    if log.len() == 0 {
        None
    } else {
        match log.last().1 {
            Reply::Value { word } => Some(word),
            Reply::Observed { word } => Some(word),
            Reply::Swapped => Some(log.last().0->CompareExchange_new),
            _ => known(log.drop_last()),
        }
    }
}

/// How many exchanges a call has made.
pub open spec fn made(log: Seq<(Access, Reply)>) -> nat
    decreases log.len(),
{
    if log.len() == 0 {
        0
    } else {
        made(log.drop_last()) + (if log.last().1 is Swapped {
            1nat
        } else {
            0
        })
    }
}

/// By how much a call has changed the lock bit of the state word.
pub open spec fn lock_change(log: Seq<(Access, Reply)>) -> int
    decreases log.len(),
{
    if log.len() == 0 {
        0
    } else {
        lock_change(log.drop_last()) + (match log.last().0 {
            Access::CompareExchange { expected, new } => if log.last().1 is Swapped {
                new % 2 - expected % 2
            } else {
                0
            },
            _ => 0,
        })
    }
}

/// How often a call has made an exchange that changes the lock bit.
pub open spec fn turns_of_lock(log: Seq<(Access, Reply)>) -> nat
    decreases log.len(),
{
    if log.len() == 0 {
        0
    } else {
        turns_of_lock(log.drop_last()) + (match log.last().0 {
            Access::CompareExchange { expected, new } => if log.last().1 is Swapped && new % 2
                != expected % 2 {
                1nat
            } else {
                0
            },
            _ => 0,
        })
    }
}

/// The node that a call has got and not given back.
pub open spec fn own(log: Seq<(Access, Reply)>) -> Option<usize>
    decreases log.len(),
{
    if log.len() == 0 {
        None
    } else {
        match log.last().0 {
            Access::NewNode { .. } => Some(log.last().1->node),
            Access::FreeNode { .. } => None,
            _ => own(log.drop_last()),
        }
    }
}

/// How many nodes a call has got and not given back.
pub open spec fn nodes_kept(log: Seq<(Access, Reply)>) -> int
    decreases log.len(),
{
    if log.len() == 0 {
        0
    } else {
        nodes_kept(log.drop_last()) + (match log.last().0 {
            Access::NewNode { .. } => 1int,
            Access::FreeNode { .. } => -1,
            _ => 0,
        })
    }
}

/// How many threads a call has woken.
pub open spec fn wakes(log: Seq<(Access, Reply)>) -> nat
    decreases log.len(),
{
    if log.len() == 0 {
        0
    } else {
        wakes(log.drop_last()) + (if log.last().0 is Unpark {
            1nat
        } else {
            0
        })
    }
}

/// How many nodes a call has marked.
pub open spec fn marks(log: Seq<(Access, Reply)>) -> nat
    decreases log.len(),
{
    if log.len() == 0 {
        0
    } else {
        marks(log.drop_last()) + (if log.last().0 is Mark {
            1nat
        } else {
            0
        })
    }
}

/// How often a call has spun since its last other access.
pub open spec fn spins(log: Seq<(Access, Reply)>) -> nat
    decreases log.len(),
{
    if log.len() == 0 || log.last().0 !is SpinLoop {
        0
    } else {
        spins(log.drop_last()) + 1
    }
}

/// What setting and clearing a flag makes of a word, in numbers.
pub proof fn flags_in_numbers(word: usize)
    ensures
        compose(address(word), true, is_queue_locked(word)) == word - word % 2 + 1,
        compose(address(word), false, is_queue_locked(word)) == word - word % 2,
        compose(address(word), is_locked(word), true) == word - word % 4 + word % 2 + 2,
        compose(address(word), is_locked(word), false) == word - word % 4 + word % 2,
        compose(address(word), true, false) == word - word % 4 + 1,
        word % 2 == 0 ==> word < usize::MAX,
        word % 4 < 2 ==> word + 2 <= usize::MAX,
{
    assert((word | 3) == word - word % 4 + 3) by (bit_vector);
}

/// What a word made of the address of a node and the lock bit is, in numbers.
pub proof fn node_words_in_numbers(node: usize, locked: bool)
    requires
        node % 4 == 0,
    ensures
        compose(node, locked, false) == node + (if locked {
            1int
        } else {
            0
        }),
{
    assert(node % 4 == 0 ==> (node | 3) == node + 3) by (bit_vector);
}

} // verus!
