//! Cells addressed by aligned nonzero addresses, as an allocator hands them out.

use crate::word::is_aligned;
use std::collections::HashMap;
use vstd::prelude::*;
use vstd::std_specs::hash::group_hash_axioms;

verus! {

broadcast use group_hash_axioms;

/// The distance between two neighbouring addresses.
const STRIDE: usize = 4;

/// How many cells a store can allocate at least.
pub const MIN_ROOM: usize = 0x3fff_fffe;

/// A store of cells. An address is nonzero and leaves its two low bits free; one that was given
/// back is handed out again.
pub struct Heap<N> {
    cells: HashMap<usize, N>,
    free: Vec<usize>,
    next: usize,
}

impl<N> View for Heap<N> {
    type V = Map<usize, N>;

    closed spec fn view(&self) -> Map<usize, N> {
        self.cells@
    }
}

impl<N> Heap<N> {
    /// The addresses in use and those given back are among those handed out so far, none is both
    /// or given back twice.
    pub closed spec fn wf(&self) -> bool {
        &&& 0 < self.next
        &&& is_aligned(self.next)
        &&& forall|a: usize| #[trigger]
            self.cells@.contains_key(a) ==> 0 < a < self.next && is_aligned(a)
        &&& forall|i: int|
            0 <= i < self.free@.len() ==> {
                &&& 0 < #[trigger] self.free@[i] < self.next
                &&& is_aligned(self.free@[i])
                &&& !self.cells@.contains_key(self.free@[i])
            }
        &&& self.free@.no_duplicates()
    }

    /// How many more cells can be allocated before the addresses run out.
    pub closed spec fn room(&self) -> nat {
        self.free@.len() + ((usize::MAX - self.next) / STRIDE as int) as nat
    }

    /// Whether an address was handed out and not given back.
    pub closed spec fn is_reserved(&self, addr: usize) -> bool {
        0 < addr < self.next && is_aligned(addr) && !self.free@.contains(addr)
    }

    /// An empty store.
    pub fn new() -> (heap: Self)
        ensures
            heap.wf(),
            heap.room() >= MIN_ROOM,
            heap@ == Map::<usize, N>::empty(),
    {
        Heap { cells: HashMap::new(), free: Vec::new(), next: STRIDE }
    }

    /// Whether another cell can be allocated.
    pub fn can_allocate(&self) -> (room: bool)
        ensures
            room == (self.room() > 0),
    {
        self.free.len() > 0 || self.next <= usize::MAX - STRIDE
    }

    /// Puts a cell at an address that no cell in use has.
    pub fn allocate(&mut self, cell: N) -> (addr: usize)
        requires
            old(self).wf(),
            old(self).room() > 0,
        ensures
            final(self).wf(),
            final(self).room() == old(self).room() - 1,
            addr != 0,
            is_aligned(addr),
            !old(self)@.contains_key(addr),
            final(self)@ == old(self)@.insert(addr, cell),
    {
        match self.free.pop() {
            Some(addr) => {
                self.cells.insert(addr, cell);
                assert forall|i: int| 0 <= i < self.free@.len() implies {
                    &&& 0 < #[trigger] self.free@[i] < self.next
                    &&& is_aligned(self.free@[i])
                    &&& !self.cells@.contains_key(self.free@[i])
                } by {
                    assert(self.free@[i] == old(self).free@[i]);
                }
                addr
            },
            None => {
                let addr: usize = self.next;
                self.cells.insert(addr, cell);
                self.next = self.next + STRIDE;
                addr
            },
        }
    }

    /// The cell at an address in use.
    pub fn get(&self, addr: usize) -> (cell: &N)
        requires
            self@.contains_key(addr),
        ensures
            *cell == self@[addr],
    {
        match self.cells.get(&addr) {
            Some(cell) => cell,
            None => vstd::pervasive::unreached(),
        }
    }

    /// Takes the cell out of an address in use, which stays reserved.
    pub fn take(&mut self, addr: usize) -> (cell: N)
        requires
            old(self).wf(),
            old(self)@.contains_key(addr),
        ensures
            final(self).wf(),
            final(self).room() == old(self).room(),
            final(self).is_reserved(addr),
            cell == old(self)@[addr],
            final(self)@ == old(self)@.remove(addr),
    {
        match self.cells.remove(&addr) {
            Some(cell) => cell,
            None => vstd::pervasive::unreached(),
        }
    }

    /// Takes the cell out of an address in use and gives the address back.
    pub fn release(&mut self, addr: usize) -> (cell: N)
        requires
            old(self).wf(),
            old(self)@.contains_key(addr),
        ensures
            final(self).wf(),
            final(self).room() == old(self).room() + 1,
            cell == old(self)@[addr],
            final(self)@ == old(self)@.remove(addr),
    {
        let cell: N = self.take(addr);
        self.free.push(addr);
        cell
    }

    /// Puts a cell at a reserved address.
    pub fn put(&mut self, addr: usize, cell: N)
        requires
            old(self).wf(),
            old(self).is_reserved(addr),
        ensures
            final(self).wf(),
            final(self).room() == old(self).room(),
            final(self)@ == old(self)@.insert(addr, cell),
    {
        self.cells.insert(addr, cell);
    }

    /// Addresses in use are reserved; none is null, and each leaves the flag bits free.
    pub proof fn addresses_are_usable(&self, addr: usize)
        requires
            self.wf(),
            self@.contains_key(addr),
        ensures
            addr != 0,
            is_aligned(addr),
            self.is_reserved(addr),
    {
    }
}

} // verus!
