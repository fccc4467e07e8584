//! A book of orders and their total volume.

use vstd::prelude::*;

verus! {

/// An order for a quantity of something, at a price of type `P`.
#[derive(Debug)]
pub struct Order<P> {
    pub id: u64,
    pub symbol: String,
    pub quantity: u32,
    pub price: P,
    pub timestamp: u128,
}

impl<P> Order<P> {
    /// An order placed `millis` milliseconds after the start of 1970.
    pub fn new(id: u64, symbol: String, quantity: u32, price: P, millis: u128) -> (order: Self)
        ensures
            order.id == id,
            order.symbol == symbol,
            order.quantity == quantity,
            order.price == price,
            order.timestamp == millis,
    {
        Order { id, symbol, quantity, price, timestamp: millis }
    }
}

impl<P: Clone> Clone for Order<P> {
    /// An equal order, with a clone of the price.
    fn clone(&self) -> (order: Self)
        ensures
            order.id == self.id,
            order.symbol == self.symbol,
            order.quantity == self.quantity,
            cloned::<P>(self.price, order.price),
            order.timestamp == self.timestamp,
    {
        Order {
            id: self.id,
            symbol: self.symbol.clone(),
            quantity: self.quantity,
            price: self.price.clone(),
            timestamp: self.timestamp,
        }
    }
}

/// The sum of the quantities of some orders.
pub open spec fn volume<P>(orders: Seq<Order<P>>) -> nat
    decreases orders.len(),
{
    if orders.len() == 0 {
        0
    } else {
        volume(orders.drop_last()) + orders.last().quantity as nat
    }
}

/// The orders placed so far.
pub struct OrderBook<P> {
    orders: Vec<Order<P>>,
    total_volume: u64,
}

impl<P> View for OrderBook<P> {
    type V = Seq<Order<P>>;

    closed spec fn view(&self) -> Seq<Order<P>> {
        self.orders@
    }
}

impl<P> OrderBook<P> {
    /// The total volume is that of the orders.
    pub closed spec fn wf(&self) -> bool {
        self.total_volume == volume(self.orders@)
    }

    /// A book without orders.
    pub fn new() -> (book: Self)
        ensures
            book.wf(),
            book@ == Seq::<Order<P>>::empty(),
            volume(book@) == 0,
    {
        OrderBook { orders: Vec::new(), total_volume: 0 }
    }

    /// Puts an order behind the others.
    pub fn add_order(&mut self, order: Order<P>)
        requires
            old(self).wf(),
            volume(old(self)@) + order.quantity <= u64::MAX,
        ensures
            final(self).wf(),
            final(self)@ == old(self)@.push(order),
            volume(final(self)@) == volume(old(self)@) + order.quantity,
    {
        self.total_volume = self.total_volume + order.quantity as u64;
        self.orders.push(order);
        assert(self.orders@.drop_last() == old(self).orders@);
    }

    /// How many orders there are, and their total volume.
    pub fn get_stats(&self) -> (stats: (usize, u64))
        requires
            self.wf(),
        ensures
            stats.0 == self@.len(),
            stats.1 == volume(self@),
    {
        (self.orders.len(), self.total_volume)
    }
}

/// The volume of two batches of orders placed one after the other is the sum of theirs.
pub proof fn volume_adds_up<P>(first: Seq<Order<P>>, second: Seq<Order<P>>)
    ensures
        volume(first + second) == volume(first) + volume(second),
    decreases second.len(),
{
    if second.len() == 0 {
        assert(first + second == first);
    } else {
        volume_adds_up(first, second.drop_last());
        assert((first + second).drop_last() == first + second.drop_last());
    }
}

/// The volume of no orders is nothing, that of one order its quantity.
pub proof fn volume_is_of_quantities<P>(order: Order<P>)
    ensures
        volume(Seq::<Order<P>>::empty()) == 0,
        volume(seq![order]) == order.quantity,
{
    assert(seq![order].drop_last() == Seq::<Order<P>>::empty());
    reveal_with_fuel(volume, 2);
}

/// The number of orders and their volume do not depend on the order in which they are placed.
pub proof fn stats_do_not_depend_on_sequence<P>(first: Seq<Order<P>>, second: Seq<Order<P>>)
    requires
        first.to_multiset() == second.to_multiset(),
    ensures
        first.len() == second.len(),
        volume(first) == volume(second),
    decreases first.len(),
{
    broadcast use vstd::seq_lib::group_to_multiset_ensures;

    if first.len() > 0 {
        let order = first.last();
        let rest = first.drop_last();
        assert(first == rest.push(order));
        assert(first.to_multiset() == rest.to_multiset().insert(order));
        assert(first.to_multiset().count(order) > 0);
        assert(second.contains(order));
        let i = choose|i: int| 0 <= i < second.len() && second[i] == order;
        let before = second.subrange(0, i);
        let behind = second.subrange(i + 1, second.len() as int);
        assert(second == before.push(order) + behind);
        assert(second.remove(i) == before + behind);
        assert(second.remove(i).to_multiset() == second.to_multiset().remove(order));
        assert(rest.to_multiset() == second.remove(i).to_multiset());
        stats_do_not_depend_on_sequence(rest, second.remove(i));
        volume_adds_up(before.push(order), behind);
        volume_adds_up(before, behind);
        assert(before.push(order).drop_last() == before);
    } else {
        assert(second.len() == 0) by {
            if second.len() > 0 {
                assert(second.contains(second[0]));
                assert(second.to_multiset().count(second[0]) > 0);
            }
        }
    }
}

} // verus!
