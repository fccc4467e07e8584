//! Market data and what traders make of it.

use vstd::prelude::*;

verus! {

/// The two sides of a trade.
#[derive(Clone, Copy, PartialEq, Eq, Structural, Debug)]
pub enum Side {
    Buy,
    Sell,
}

/// An order that a trading bot places.
#[derive(Debug)]
pub struct TradeOrder {
    pub id: u32,
    pub symbol: String,
    pub quantity: u32,
    pub side: Side,
}

/// Traders sell when the price in cents is above this.
pub const SELL_ABOVE: u64 = 400;

/// Traders buy when the price in cents is below this.
pub const BUY_BELOW: u64 = 200;

/// A price in cents and when it was set.
#[derive(Clone, Copy, PartialEq, Eq, Structural, Debug)]
pub struct MarketData {
    pub current_price: u64,
    pub timestamp: u64,
}

impl MarketData {
    /// A price that was set at a given time.
    pub fn new(price: u64, time: u64) -> (data: Self)
        ensures
            data.current_price == price,
            data.timestamp == time,
    {
        MarketData { current_price: price, timestamp: time }
    }

    /// What a trader does at the current price, if anything.
    pub fn advice(&self) -> (side: Option<Side>)
        ensures
            side == Some(Side::Sell) <==> self.current_price > 400,
            side == Some(Side::Buy) <==> self.current_price < 200,
            side is None <==> 200 <= self.current_price <= 400,
    {
        if self.current_price > SELL_ABOVE {
            Some(Side::Sell)
        } else if self.current_price < BUY_BELOW {
            Some(Side::Buy)
        } else {
            None
        }
    }
}

} // verus!
