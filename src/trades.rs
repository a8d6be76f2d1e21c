//! Trades, their per-client notifications and the aggressor's summary.
use vstd::prelude::*;

use crate::types::{Side, SimError, TradeInfo, TradeNotification, Trades};

verus! {

impl Trades {
    pub fn new(
        seller_id: u64,
        buyer_id: u64,
        quantity: u32,
        price: u32,
        seller_filled: bool,
        buyer_filled: bool,
    ) -> (r: Self)
        ensures
            r == (Trades {
                d_seller: seller_id,
                d_buyer: buyer_id,
                d_quantity: quantity,
                d_price: price,
                d_seller_filled: seller_filled,
                d_buyer_filled: buyer_filled,
                d_error_indication: SimError::NoError,
            }),
    {
        Trades {
            d_seller: seller_id,
            d_buyer: buyer_id,
            d_quantity: quantity,
            d_price: price,
            d_seller_filled: seller_filled,
            d_buyer_filled: buyer_filled,
            d_error_indication: SimError::NoError,
        }
    }

    /// A control record that carries an error: no quantity, no price.
    pub fn error(error_code: SimError) -> (r: Self)
        ensures
            r == (Trades {
                d_seller: 0,
                d_buyer: 0,
                d_quantity: 0,
                d_price: 0,
                d_seller_filled: true,
                d_buyer_filled: true,
                d_error_indication: error_code,
            }),
    {
        Trades {
            d_seller: 0,
            d_buyer: 0,
            d_quantity: 0,
            d_price: 0,
            d_seller_filled: true,
            d_buyer_filled: true,
            d_error_indication: error_code,
        }
    }

    pub fn seller(&self) -> (r: u64)
        ensures
            r == self.d_seller,
    {
        self.d_seller
    }

    pub fn buyer(&self) -> (r: u64)
        ensures
            r == self.d_buyer,
    {
        self.d_buyer
    }

    pub fn quantity(&self) -> (r: u32)
        ensures
            r == self.d_quantity,
    {
        self.d_quantity
    }

    pub fn price(&self) -> (r: u32)
        ensures
            r == self.d_price,
    {
        self.d_price
    }

    pub fn seller_filled(&self) -> (r: bool)
        ensures
            r == self.d_seller_filled,
    {
        self.d_seller_filled
    }

    pub fn buyer_filled(&self) -> (r: bool)
        ensures
            r == self.d_buyer_filled,
    {
        self.d_buyer_filled
    }
}

/// The trade between a resting order and an aggressor, each given as
/// `(id, remaining quantity, price, side)`: it runs at the resting order's
/// price for the smaller of the two quantities, and an order is filled when
/// its quantity is not above the other's.
pub open spec fn trade_between(resting: (u64, u32, u32, Side), aggressor: (u64, u32, u32, Side)) -> Trades {
    let (r_id, r_qty, r_price, r_side) = resting;
    let (a_id, a_qty, _, _) = aggressor;
    let resting_buys = r_side == Side::Buy;
    Trades {
        d_seller: if resting_buys { a_id } else { r_id },
        d_buyer: if resting_buys { r_id } else { a_id },
        d_quantity: if r_qty <= a_qty { r_qty } else { a_qty },
        d_price: r_price,
        d_seller_filled: if resting_buys { a_qty <= r_qty } else { r_qty <= a_qty },
        d_buyer_filled: if resting_buys { r_qty <= a_qty } else { a_qty <= r_qty },
        d_error_indication: SimError::NoError,
    }
}

/// Build the trade between the resting order `current_order` and the
/// aggressor `matching_order`.
pub fn fill_trade(current_order: (u64, u32, u32, Side), matching_order: (u64, u32, u32, Side)) -> (r:
    Trades)
    ensures
        r == trade_between(current_order, matching_order),
{
    let (curr_id, curr_qty, curr_price, curr_side) = current_order;
    let (match_id, match_qty, _, _) = matching_order;

    let (buyer_id, seller_id) = match curr_side {
        Side::Buy => (curr_id, match_id),
        Side::Sell => (match_id, curr_id),
    };
    let trade_quantity = if curr_qty <= match_qty {
        curr_qty
    } else {
        match_qty
    };
    let buyer_filled = match curr_side {
        Side::Buy => curr_qty <= match_qty,
        Side::Sell => match_qty <= curr_qty,
    };
    let seller_filled = match curr_side {
        Side::Sell => curr_qty <= match_qty,
        Side::Buy => match_qty <= curr_qty,
    };
    Trades::new(seller_id, buyer_id, trade_quantity, curr_price, seller_filled, buyer_filled)
}

/// What the owner of one side of `trade` is told.
pub open spec fn notification_of(trade: Trades, buyer: bool) -> TradeNotification {
    if buyer {
        TradeNotification {
            d_order_id: trade.d_buyer,
            d_counter_party: Some(trade.d_seller),
            d_price: trade.d_price,
            d_filled_quantity: trade.d_quantity,
            d_fully_filled: trade.d_buyer_filled,
        }
    } else {
        TradeNotification {
            d_order_id: trade.d_seller,
            d_counter_party: Some(trade.d_buyer),
            d_price: trade.d_price,
            d_filled_quantity: trade.d_quantity,
            d_fully_filled: trade.d_seller_filled,
        }
    }
}

impl TradeNotification {
    /// The notice sent to every client when the server shuts down.
    pub fn shutdown() -> (r: Self)
        ensures
            r == (TradeNotification {
                d_order_id: 0,
                d_counter_party: None,
                d_price: 0,
                d_filled_quantity: 0,
                d_fully_filled: false,
            }),
    {
        TradeNotification {
            d_order_id: 0,
            d_counter_party: None,
            d_price: 0,
            d_filled_quantity: 0,
            d_fully_filled: false,
        }
    }

    /// The notification for the buyer (`buyer == true`) or the seller.
    pub fn from_trade(trade: &Trades, buyer: bool) -> (r: Self)
        ensures
            r == notification_of(*trade, buyer),
    {
        if buyer {
            TradeNotification {
                d_order_id: trade.buyer(),
                d_counter_party: Some(trade.seller()),
                d_price: trade.price(),
                d_filled_quantity: trade.quantity(),
                d_fully_filled: trade.buyer_filled(),
            }
        } else {
            TradeNotification {
                d_order_id: trade.seller(),
                d_counter_party: Some(trade.buyer()),
                d_price: trade.price(),
                d_filled_quantity: trade.quantity(),
                d_fully_filled: trade.seller_filled(),
            }
        }
    }
}

impl TradeInfo {
    pub fn new() -> (r: Self)
        ensures
            r.d_prices@ == Seq::<u32>::empty(),
            r.d_total == 0,
            r.d_quantity == 0,
    {
        TradeInfo { d_prices: Vec::new(), d_total: 0, d_quantity: 0 }
    }

    /// Whether the summary is still in its initial state.
    pub fn is_empty(&self) -> (r: bool)
        ensures
            r == (self.d_prices@.len() == 0 && self.d_total == 0 && self.d_quantity == 0),
    {
        self.d_prices.len() == 0 && self.d_total == 0 && self.d_quantity == 0
    }

    /// Account for `quantity` traded at `price`.
    pub fn record(&mut self, price: u32, quantity: u32)
        requires
            old(self).d_total + quantity * price <= u64::MAX,
            old(self).d_quantity + quantity <= u32::MAX,
        ensures
            final(self).d_prices@ == old(self).d_prices@.push(price),
            final(self).d_total == old(self).d_total + quantity * price,
            final(self).d_quantity == old(self).d_quantity + quantity,
    {
        self.d_prices.push(price);
        assert((quantity as u64) * (price as u64) <= u32::MAX * u32::MAX) by (nonlinear_arith)
            requires
                quantity <= u32::MAX,
                price <= u32::MAX,
        ;
        self.d_total = self.d_total + (quantity as u64) * (price as u64);
        self.d_quantity = self.d_quantity + quantity;
    }
}

impl Default for TradeInfo {
    fn default() -> (r: Self)
        ensures
            r.d_prices@ == Seq::<u32>::empty(),
            r.d_total == 0,
            r.d_quantity == 0,
    {
        TradeInfo::new()
    }
}

} // verus!
