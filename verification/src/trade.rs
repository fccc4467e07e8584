//! Trade events kept in a linked list, the newest first.

use crate::chain::{after, Linked};
use crate::linked_list::{items_along, LinkedList, WalkOp};
use vstd::prelude::*;

verus! {

/// A trade that was made.
#[derive(Debug)]
pub struct TradeEvent {
    pub symbol: String,
    pub price: u64,
    pub quantity: u32,
    pub timestamp: u128,
}

impl Clone for TradeEvent {
    /// An equal event.
    fn clone(&self) -> (event: Self)
        ensures
            event == *self,
    {
        TradeEvent {
            symbol: self.symbol.clone(),
            price: self.price,
            quantity: self.quantity,
            timestamp: self.timestamp,
        }
    }
}

impl TradeEvent {
    /// A trade made `seconds` after the start of 1970.
    pub fn new(symbol: String, price: u64, quantity: u32, seconds: u64) -> (event: Self)
        ensures
            event.symbol == symbol,
            event.price == price,
            event.quantity == quantity,
            event.timestamp == seconds,
    {
        TradeEvent { symbol, price, quantity, timestamp: seconds as u128 }
    }
}

/// Whether an event is at most `window` older than `now`.
pub open spec fn is_recent(event: TradeEvent, now: u128, window: u128) -> bool {
    now - event.timestamp <= window
}

/// Whether the first `count` of the events are all recent.
pub open spec fn are_recent(
    events: Seq<TradeEvent>,
    now: u128,
    window: u128,
    count: int,
) -> bool {
    forall|i: int| 0 <= i < count ==> is_recent(#[trigger] events[i], now, window)
}

/// The events that a thread has come by on its way through the list, up to a limit.
pub struct LastEvents {
    pub events: Vec<TradeEvent>,
    pub limit: usize,
}

impl LastEvents {
    /// None yet.
    pub fn new(limit: usize) -> (last: Self)
        ensures
            last.events@ == Seq::<TradeEvent>::empty(),
            last.limit == limit,
    {
        LastEvents { events: Vec::new(), limit }
    }

    /// Whether there are as many as wanted.
    pub fn is_full(&self) -> (full: bool)
        ensures
            full == (self.events@.len() >= self.limit),
    {
        self.events.len() >= self.limit
    }

    /// One more event.
    pub fn add(&mut self, event: &TradeEvent)
        ensures
            final(self).events@ == old(self).events@.push(*event),
            final(self).limit == old(self).limit,
    {
        self.events.push(event.clone());
    }
}

/// How many events that a thread has come by on its way through the list were made at most
/// `window` before `now`.
pub struct RecentTrades {
    pub count: u32,
    pub now: u128,
    pub window: u128,
}

impl RecentTrades {
    /// None yet.
    pub fn new(now: u128, window: u128) -> (trades: Self)
        ensures
            trades.count == 0,
            trades.now == now,
            trades.window == window,
    {
        RecentTrades { count: 0, now, window }
    }

    /// Counts an event if it is recent, and says whether it was. It does not lie in the future.
    pub fn offer(&mut self, event: &TradeEvent) -> (recent: bool)
        requires
            event.timestamp <= old(self).now,
            old(self).now - event.timestamp <= old(self).window ==> old(self).count < u32::MAX,
        ensures
            recent == is_recent(*event, old(self).now, old(self).window),
            recent <==> old(self).now - event.timestamp <= old(self).window,
            final(self).count == old(self).count + (if recent {
                1int
            } else {
                0
            }),
            final(self).now == old(self).now,
            final(self).window == old(self).window,
    {
        if self.now - event.timestamp <= self.window {
            self.count = self.count + 1;
            true
        } else {
            false
        }
    }
}

/// Where a walk stands that has come by `count` of the nodes of `path`.
spec fn is_at(op: WalkOp, path: Seq<usize>, count: int) -> bool {
    &&& 0 <= count <= path.len()
    &&& match op {
        WalkOp::LoadHead => count == 0,
        WalkOp::Visit { node } => count < path.len() && node == path[count],
        WalkOp::Advance { node } => count > 0 && node == path[count - 1],
        WalkOp::Done => count == path.len(),
    }
}

/// How many accesses a walk still makes, at the most.
spec fn steps_left(op: WalkOp, path: Seq<usize>, count: int) -> int {
    3 * (path.len() - count) + (match op {
        WalkOp::LoadHead => 2int,
        WalkOp::Visit { .. } => 1,
        WalkOp::Advance { .. } => 2,
        WalkOp::Done => 0,
    })
}

/// A step of a walk comes by the node where it stands, and nearer to the end.
proof fn walk_goes_on(list: &LinkedList<TradeEvent>, op: WalkOp, count: int)
    requires
        list.wf(),
        is_at(op, list.chain(), count),
        op !is Done,
    ensures
        list.shared().admits(op.next_access()),
        list@ == items_along(list.shared().nodes, list.chain()),
        ({
            let next = op.after(list.shared().reply(op.next_access(), false));
            let visited = if op is Visit {
                count + 1
            } else {
                count
            };
            &&& is_at(next, list.chain(), visited)
            &&& 0 <= steps_left(next, list.chain(), visited) < steps_left(op, list.chain(), count)
        }),
{
    let path = list.chain();
    list.list_in_memory();
    if path.len() > 0 {
        assert(path[0] != 0);
    }
    if count < path.len() {
        assert(path[count] != 0);
    }
    if count > 0 {
        assert(list.shared().nodes[path[count - 1]].link() == after(path, count - 1));
    }
}

/// The newest `n` events, or all of them if there are fewer, the newest first.
pub fn get_last_n_events(list: &LinkedList<TradeEvent>, n: usize) -> (events: Vec<TradeEvent>)
    requires
        list.wf(),
    ensures
        events@ == list@.take(
            if n < list@.len() {
                n as int
            } else {
                list@.len() as int
            },
        ),
{
    let mut last: LastEvents = LastEvents::new(n);
    let mut op: WalkOp = WalkOp::LoadHead;
    let ghost path = list.chain();
    proof {
        list.list_in_memory();
        assert(list@.take(0) =~= Seq::<TradeEvent>::empty());
    }
    while !last.is_full() && !matches!(op, WalkOp::Done)
        invariant
            list.wf(),
            path == list.chain(),
            list@.len() == path.len(),
            last.limit == n,
            last.events@.len() <= n,
            last.events@ == list@.take(last.events@.len() as int),
            is_at(op, path, last.events@.len() as int),
        decreases steps_left(op, path, last.events@.len() as int),
    {
        let ghost i = last.events@.len() as int;
        proof {
            walk_goes_on(list, op, i);
        }
        let (next, item): (WalkOp, Option<&TradeEvent>) = list.walk_step(op);
        if let Some(event) = item {
            assert(list@.take(i + 1) =~= list@.take(i).push(list@[i]));
            last.add(event);
        }
        op = next;
    }
    last.events
}

/// How many events in front of the first that is not recent are recent. No event that is looked
/// at lies in the future.
pub fn count_recent_trades(
    list: &LinkedList<TradeEvent>,
    now: u128,
    millisecond_time: u128,
) -> (count: u32)
    requires
        list.wf(),
        forall|i: int|
            0 <= i < list@.len() && (forall|j: int|
                0 <= j < i ==> now - (#[trigger] list@[j]).timestamp <= millisecond_time) ==> (
            #[trigger] list@[i]).timestamp <= now,
        list@.len() <= u32::MAX || exists|j: int|
            0 <= j <= u32::MAX && now - (#[trigger] list@[j]).timestamp > millisecond_time,
    ensures
        count <= list@.len(),
        forall|i: int|
            0 <= i < count ==> now - (#[trigger] list@[i]).timestamp <= millisecond_time,
        count < list@.len() ==> now - list@[count as int].timestamp > millisecond_time,
        are_recent(list@, now, millisecond_time, count as int),
        count < list@.len() ==> !is_recent(list@[count as int], now, millisecond_time),
{
    let mut trades: RecentTrades = RecentTrades::new(now, millisecond_time);
    let mut op: WalkOp = WalkOp::LoadHead;
    let ghost path = list.chain();
    proof {
        list.list_in_memory();
    }
    while !matches!(op, WalkOp::Done)
        invariant
            list.wf(),
            path == list.chain(),
            list@.len() == path.len(),
            trades.now == now,
            trades.window == millisecond_time,
            forall|i: int|
                0 <= i < trades.count ==> now - (#[trigger] list@[i]).timestamp
                    <= millisecond_time,
            is_at(op, path, trades.count as int),
            forall|i: int|
                0 <= i < list@.len() && (forall|j: int|
                    0 <= j < i ==> now - (#[trigger] list@[j]).timestamp <= millisecond_time) ==> (
                #[trigger] list@[i]).timestamp <= now,
            list@.len() <= u32::MAX || exists|j: int|
                0 <= j <= u32::MAX && now - (#[trigger] list@[j]).timestamp > millisecond_time,
        decreases steps_left(op, path, trades.count as int),
    {
        let ghost i = trades.count as int;
        proof {
            walk_goes_on(list, op, i);
        }
        let (next, item): (WalkOp, Option<&TradeEvent>) = list.walk_step(op);
        if let Some(event) = item {
            assert(*event == list@[i]);
            if !trades.offer(event) {
                return trades.count;
            }
        }
        op = next;
    }
    trades.count
}

/// An event is recent from the moment at which it was made until its age exceeds the window: with
/// a wider window it still is, later it may not be, and at the very end of the window it is.
pub proof fn window_bounds_the_age(event: TradeEvent, now: u128, window: u128)
    requires
        event.timestamp <= now,
    ensures
        is_recent(event, now, window) <==> now <= event.timestamp + window,
        now - event.timestamp == window ==> is_recent(event, now, window),
        now - event.timestamp == window + 1 ==> !is_recent(event, now, window),
        forall|wider: u128|
            window <= wider && is_recent(event, now, window) ==> #[trigger] is_recent(
                event,
                now,
                wider,
            ),
        forall|then: u128|
            event.timestamp <= then <= now && is_recent(event, now, window) ==> #[trigger]
                is_recent(event, then, window),
{
}

/// What is counted of a list in which all events are within the window is the whole list, and with
/// one that is not, those in front of the first such.
pub proof fn count_goes_up_to_the_first_old_event(
    events: Seq<TradeEvent>,
    now: u128,
    window: u128,
    count: int,
)
    requires
        0 <= count <= events.len(),
        are_recent(events, now, window, count),
        count < events.len() ==> !is_recent(events[count], now, window),
    ensures
        (forall|i: int| 0 <= i < events.len() ==> now - (#[trigger] events[i]).timestamp <= window)
            ==> count == events.len(),
        forall|k: int|
            0 <= k < events.len() && now - (#[trigger] events[k]).timestamp > window && (forall|
                i: int,
            |
                0 <= i < k ==> now - (#[trigger] events[i]).timestamp <= window) ==> count == k,
{
}

} // verus!
