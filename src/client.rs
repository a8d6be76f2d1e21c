//! Random order requests, as a load-generating client sends them.
use vstd::prelude::*;

use crate::order::request_ok;
use crate::types::{OrderRequest, OrderType, Side};

verus! {

/// Relies on rand's `Rng::gen_range` on the thread-local generator: a
/// value drawn from `lo..hi`, which must not be empty.
#[verifier::external_body]
fn draw(lo: u32, hi: u32) -> (r: u32)
    requires
        lo < hi,
    ensures
        lo <= r < hi,
{
    rand::Rng::gen_range(&mut rand::thread_rng(), lo..hi)
}

/// The order type a draw from `0..4` stands for.
pub open spec fn kind_of_draw(d: u32) -> OrderType {
    if d == 0 {
        OrderType::GoodTillCancel
    } else if d == 1 {
        OrderType::FillAndKill
    } else if d == 2 {
        OrderType::FillOrKill
    } else {
        OrderType::Market
    }
}

/// The request that a set of draws stands for: draw 0, 1, 2, 3 for
/// good-till-cancel, fill-and-kill, fill-or-kill and market; side draw 0
/// for a buy; a market request carries price 0.
pub open spec fn request_of_draws(kind: u32, side: u32, quantity: u32, price: u32) -> OrderRequest {
    OrderRequest {
        d_side: if side == 0 {
            Side::Buy
        } else {
            Side::Sell
        },
        d_price: if kind_of_draw(kind) == OrderType::Market {
            0
        } else {
            price
        },
        d_quantity: quantity,
        d_order_type: kind_of_draw(kind),
    }
}

/// Turn draws into a request.
pub fn request_from_draws(kind: u32, side: u32, quantity: u32, price: u32) -> (r: OrderRequest)
    ensures
        r == request_of_draws(kind, side, quantity, price),
{
    let order_type = match kind {
        0 => OrderType::GoodTillCancel,
        1 => OrderType::FillAndKill,
        2 => OrderType::FillOrKill,
        _ => OrderType::Market,
    };
    let side = if side == 0 {
        Side::Buy
    } else {
        Side::Sell
    };
    let price = if order_type == OrderType::Market {
        0
    } else {
        price
    };
    OrderRequest { d_side: side, d_price: price, d_quantity: quantity, d_order_type: order_type }
}

/// A random admissible request: any kind and side, a quantity in `2..20`
/// and, unless it is a market request, a price in `15..25`.
pub fn create_order_request() -> (r: OrderRequest)
    ensures
        request_ok(r),
        2 <= r.d_quantity < 20,
        r.d_order_type != OrderType::Market ==> 15 <= r.d_price < 25,
{
    let kind = draw(0, 4);
    let side = draw(0, 2);
    let quantity = draw(2, 20);
    let price = draw(15, 25);
    request_from_draws(kind, side, quantity, price)
}

} // verus!
