//! The state word of a queue-based lock: a pointer whose two low bits are flags.

use vstd::prelude::*;

verus! {

/// Bit 0: the lock is held.
pub const LOCKED: usize = 0b01;

/// Bit 1: the waiting queue is being changed.
pub const QUEUE_LOCKED: usize = 0b10;

/// The bits that hold the address of the first waiter.
pub const PTR_MASK: usize = !0b11;

/// Whether bit 0 of a state word is set.
pub open spec fn is_locked(word: usize) -> bool {
    word % 2 == 1
}

/// Whether bit 1 of a state word is set.
pub open spec fn is_queue_locked(word: usize) -> bool {
    (word / 2) % 2 == 1
}

/// The address that a state word holds.
pub open spec fn address(word: usize) -> usize {
    (word - word % 4) as usize
}

/// An address that leaves the two flag bits of a state word free.
pub open spec fn is_aligned(addr: usize) -> bool {
    addr % 4 == 0
}

/// The state word made of an aligned address and the two flags.
pub open spec fn compose(addr: usize, locked: bool, queue_locked: bool) -> usize {
    (addr + (if locked { 1int } else { 0 }) + (if queue_locked { 2int } else { 0 })) as usize
}

/// Composing a word and taking it apart are inverse to each other.
pub proof fn compose_is_faithful(addr: usize, locked: bool, queue_locked: bool)
    requires
        is_aligned(addr),
    ensures
        is_locked(compose(addr, locked, queue_locked)) == locked,
        is_queue_locked(compose(addr, locked, queue_locked)) == queue_locked,
        address(compose(addr, locked, queue_locked)) == addr,
{
    assert(addr % 4 == 0 ==> (addr | 3) == addr + 3) by (bit_vector);
}

/// A word is the composition of its address and its flags.
pub proof fn word_is_composed(word: usize)
    ensures
        word == compose(address(word), is_locked(word), is_queue_locked(word)),
        is_aligned(address(word)),
{
}

/// The flags of a state word as a number below four.
pub open spec fn flag_bits(locked: bool, queue_locked: bool) -> usize {
    ((if locked { 1int } else { 0 }) + (if queue_locked { 2int } else { 0 })) as usize
}

/// The address that a state word holds.
pub fn address_of(word: usize) -> (addr: usize)
    ensures
        addr == address(word),
        addr == word - word % 4,
{
    assert(word & !0b11usize == word - word % 4) by (bit_vector);
    word & PTR_MASK
}

/// The flags that a state word holds.
pub fn flags_of(word: usize) -> (flags: usize)
    ensures
        flags == flag_bits(is_locked(word), is_queue_locked(word)),
        flags == word % 4,
{
    assert(word & !(!0b11usize) == word % 4) by (bit_vector);
    word & !PTR_MASK
}

/// Whether the lock bit is set.
pub fn has_locked(word: usize) -> (set: bool)
    ensures
        set == is_locked(word),
        set == (word % 2 == 1),
{
    assert(word & 0b01usize == word % 2) by (bit_vector);
    word & LOCKED != 0
}

/// Whether the queue bit is set.
pub fn has_queue_locked(word: usize) -> (set: bool)
    ensures
        set == is_queue_locked(word),
        set == (word % 4 >= 2),
{
    assert(word & 0b10usize == 2 * ((word / 2) % 2)) by (bit_vector);
    word & QUEUE_LOCKED != 0
}

/// The same word with the lock bit set.
pub fn set_locked(word: usize) -> (new: usize)
    ensures
        new == compose(address(word), true, is_queue_locked(word)),
        new == word - word % 2 + 1,
{
    assert(word | 0b01usize == word - word % 2 + 1) by (bit_vector);
    word | LOCKED
}

/// The same word with the lock bit clear.
pub fn clear_locked(word: usize) -> (new: usize)
    ensures
        new == compose(address(word), false, is_queue_locked(word)),
        new == word - word % 2,
{
    assert(word & !0b01usize == word - word % 2) by (bit_vector);
    word & !LOCKED
}

/// The same word with the queue bit set.
pub fn set_queue_locked(word: usize) -> (new: usize)
    ensures
        new == compose(address(word), is_locked(word), true),
        new == word - word % 4 + word % 2 + 2,
{
    assert(word | 0b10usize == word - 2 * ((word / 2) % 2) + 2) by (bit_vector);
    word | QUEUE_LOCKED
}

/// The same word with the queue bit clear.
pub fn clear_queue_locked(word: usize) -> (new: usize)
    ensures
        new == compose(address(word), is_locked(word), false),
        new == word - word % 4 + word % 2,
{
    assert(word & !0b10usize == word - 2 * ((word / 2) % 2)) by (bit_vector);
    word & !QUEUE_LOCKED
}

/// A word with the lock bit of `word`, the queue bit clear, and another address.
pub fn replace_address(word: usize, addr: usize) -> (new: usize)
    requires
        is_aligned(addr),
    ensures
        new == compose(addr, is_locked(word), false),
        new == addr + word % 2,
{
    assert(word & 0b01usize == word % 2) by (bit_vector);
    assert(addr % 4 == 0 ==> (word & 0b01usize) | addr == addr + word % 2) by (bit_vector);
    (word & LOCKED) | addr
}

/// The bitwise union of an address and flags.
pub fn join(addr: usize, flags: usize) -> (word: usize)
    ensures
        word == addr | flags,
        is_aligned(addr) && flags < 4 ==> word == addr + flags,
{
    assert(addr % 4 == 0 && flags < 4 ==> addr | flags == addr + flags) by (bit_vector);
    addr | flags
}

} // verus!
