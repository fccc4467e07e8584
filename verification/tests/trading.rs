use sync_primitives::linked_list::LinkedList;
use sync_primitives::market::{MarketData, Side, TradeOrder};
use sync_primitives::order_book::{Order, OrderBook};
use sync_primitives::trade::{
    count_recent_trades, get_last_n_events, LastEvents, RecentTrades, TradeEvent,
};

fn event(timestamp: u64) -> TradeEvent {
    TradeEvent::new("TSLA".to_string(), 225, 50, timestamp)
}

#[test]
fn a_trade_event_keeps_its_fields() {
    let e = event(1_700_000_000);
    assert_eq!(e.symbol, "TSLA");
    assert_eq!(e.price, 225);
    assert_eq!(e.quantity, 50);
    assert_eq!(e.timestamp, 1_700_000_000u128);
    assert_eq!(e.clone().symbol, "TSLA");
}

#[test]
fn the_last_events_are_the_newest() {
    let mut list = LinkedList::new();
    assert_eq!(get_last_n_events(&list, 3).len(), 0);
    for t in 1..=5 {
        list.insert(event(t));
    }
    let last: Vec<u128> = get_last_n_events(&list, 3).iter().map(|e| e.timestamp).collect();
    assert_eq!(last, vec![5, 4, 3]);
    assert_eq!(get_last_n_events(&list, 0).len(), 0);
    assert_eq!(get_last_n_events(&list, 9).len(), 5);
}

#[test]
fn counting_stops_at_the_first_old_trade() {
    let mut list = LinkedList::new();
    for t in [90, 10, 80, 100] {
        list.insert(event(t));
    }
    // Newest first: 100, 80, 10, 90.
    assert_eq!(count_recent_trades(&list, 100, 20), 2);
    assert_eq!(count_recent_trades(&list, 100, 19), 1);
    assert_eq!(count_recent_trades(&list, 100, 90), 4);
    assert_eq!(count_recent_trades(&list, 101, 0), 0);
}

#[test]
fn events_are_taken_one_at_a_time() {
    let mut last = LastEvents::new(2);
    assert!(!last.is_full());
    last.add(&event(7));
    assert!(!last.is_full());
    last.add(&event(6));
    assert!(last.is_full());
    assert_eq!(last.events[0].timestamp, 7);
    assert_eq!(last.events[1].timestamp, 6);
    assert!(LastEvents::new(0).is_full());
    let mut trades = RecentTrades::new(100, 10);
    assert!(trades.offer(&event(100)));
    assert!(trades.offer(&event(90)));
    assert!(!trades.offer(&event(89)));
    assert_eq!(trades.count, 2);
}

#[test]
fn the_session_adds_up() {
    let mut book = OrderBook::new();
    for trader_id in 0..4u64 {
        for order_id in 0..25u64 {
            let order = Order::new(
                trader_id * 100 + order_id,
                "AAPL".to_string(),
                (trader_id as u32 + 1) * 10,
                150.0 + (order_id as f64 * 0.5),
                0,
            );
            book.add_order(order.clone());
        }
    }
    assert_eq!(book.get_stats(), (100, 2500));
}

#[test]
fn traders_sell_high_and_buy_low() {
    assert_eq!(MarketData::new(401, 1).advice(), Some(Side::Sell));
    assert_eq!(MarketData::new(400, 1).advice(), None);
    assert_eq!(MarketData::new(200, 1).advice(), None);
    assert_eq!(MarketData::new(199, 1).advice(), Some(Side::Buy));
    assert_eq!(MarketData::new(300, 7).timestamp, 7);
    let order = TradeOrder { id: 6, symbol: "PAEL".to_string(), quantity: 5, side: Side::Sell };
    assert_eq!(order.side, Side::Sell);
}

#[test]
fn stats_are_the_same_in_any_sequence() {
    let order = |id: u64, quantity: u32| Order::new(id, "MSFT".to_string(), quantity, 1u8, 0);
    let mut first = OrderBook::new();
    let mut second = OrderBook::new();
    for (id, quantity) in [(1, 10), (2, 20), (3, 40)] {
        first.add_order(order(id, quantity));
    }
    for (id, quantity) in [(3, 40), (1, 10), (2, 20)] {
        second.add_order(order(id, quantity));
    }
    assert_eq!(first.get_stats(), (3, 70));
    assert_eq!(second.get_stats(), (3, 70));
    assert_eq!(OrderBook::<u8>::new().get_stats(), (0, 0));
}
