//! Orders, order requests and the allocation of ids.
use vstd::prelude::*;

use crate::types::{Order, OrderRequest, OrderType, Side, SimError};

verus! {

/// A request is admissible when it asks for a positive quantity and, unless
/// it is a market order, names a positive price; a market request carries
/// price 0.
pub open spec fn request_ok(r: OrderRequest) -> bool {
    &&& r.d_quantity > 0
    &&& r.d_order_type == OrderType::Market ==> r.d_price == 0
    &&& r.d_order_type != OrderType::Market ==> r.d_price > 0
}

impl OrderRequest {
    /// A limit request, or a market request when `order_type` is `Market`
    /// (its price is then taken as 0).
    pub fn new(side: Side, price: u32, quantity: u32, order_type: OrderType) -> (r: Result<
        OrderRequest,
        SimError,
    >)
        ensures
            quantity == 0 || (order_type != OrderType::Market && price == 0) ==> r == Err::<
                OrderRequest,
                SimError,
            >(SimError::InvalidOrder),
            quantity > 0 && (order_type == OrderType::Market || price > 0) ==> r == Ok::<
                OrderRequest,
                SimError,
            >(
                (OrderRequest {
                    d_side: side,
                    d_price: if order_type == OrderType::Market {
                        0
                    } else {
                        price
                    },
                    d_quantity: quantity,
                    d_order_type: order_type,
                }),
            ),
    {
        if order_type == OrderType::Market {
            Self::market_order_request(side, quantity)
        } else {
            Self::valid(side, price, quantity, order_type)
        }
    }

    /// A market request: it crosses at any price and never rests.
    pub fn market_order_request(side: Side, quantity: u32) -> (r: Result<OrderRequest, SimError>)
        ensures
            quantity == 0 ==> r == Err::<OrderRequest, SimError>(SimError::InvalidOrder),
            quantity > 0 ==> r == Ok::<OrderRequest, SimError>(
                (OrderRequest {
                    d_side: side,
                    d_price: 0,
                    d_quantity: quantity,
                    d_order_type: OrderType::Market,
                }),
            ),
    {
        if quantity == 0 {
            Err(SimError::InvalidOrder)
        } else {
            Ok(
                OrderRequest {
                    d_side: side,
                    d_price: 0,
                    d_quantity: quantity,
                    d_order_type: OrderType::Market,
                },
            )
        }
    }

    fn valid(side: Side, price: u32, quantity: u32, order_type: OrderType) -> (r: Result<
        OrderRequest,
        SimError,
    >)
        requires
            order_type != OrderType::Market,
        ensures
            quantity == 0 || price == 0 ==> r == Err::<OrderRequest, SimError>(
                SimError::InvalidOrder,
            ),
            quantity > 0 && price > 0 ==> r == Ok::<OrderRequest, SimError>(
                (OrderRequest {
                    d_side: side,
                    d_price: price,
                    d_quantity: quantity,
                    d_order_type: order_type,
                }),
            ),
    {
        if quantity == 0 || price == 0 {
            Err(SimError::InvalidOrder)
        } else {
            Ok(OrderRequest { d_side: side, d_price: price, d_quantity: quantity, d_order_type: order_type })
        }
    }

    pub fn request(&self) -> (r: (Side, u32, u32, OrderType))
        ensures
            r == (self.d_side, self.d_price, self.d_quantity, self.d_order_type),
    {
        (self.d_side, self.d_price, self.d_quantity, self.d_order_type)
    }
}

impl Order {
    /// The order's own invariant: what remains never exceeds what was asked,
    /// and an order with nothing left is no longer valid.
    pub open spec fn wf(&self) -> bool {
        &&& self.d_remaining_quantity <= self.d_initial_quantity
        &&& self.d_remaining_quantity == 0 ==> !self.d_valid
    }

    pub fn new(id: u64, side: Side, price: u32, quantity: u32, order_type: OrderType) -> (r: Self)
        ensures
            r == (Order {
                d_id: id,
                d_side: side,
                d_price: price,
                d_initial_quantity: quantity,
                d_remaining_quantity: quantity,
                d_valid: quantity > 0,
                d_order_type: order_type,
            }),
            r.wf(),
    {
        Order {
            d_id: id,
            d_side: side,
            d_price: price,
            d_initial_quantity: quantity,
            d_remaining_quantity: quantity,
            d_valid: quantity > 0,
            d_order_type: order_type,
        }
    }

    /// A placeholder order: id 0, nothing to fill, not valid.
    pub fn new_invalid() -> (r: Self)
        ensures
            r == (Order {
                d_id: 0,
                d_side: Side::Sell,
                d_price: 0,
                d_initial_quantity: 0,
                d_remaining_quantity: 0,
                d_valid: false,
                d_order_type: OrderType::FillAndKill,
            }),
            r.wf(),
    {
        Order {
            d_id: 0,
            d_side: Side::Sell,
            d_price: 0,
            d_initial_quantity: 0,
            d_remaining_quantity: 0,
            d_valid: false,
            d_order_type: OrderType::FillAndKill,
        }
    }

    pub fn id(&self) -> (r: u64)
        ensures
            r == self.d_id,
    {
        self.d_id
    }

    pub fn side(&self) -> (r: Side)
        ensures
            r == self.d_side,
    {
        self.d_side
    }

    pub fn price(&self) -> (r: u32)
        ensures
            r == self.d_price,
    {
        self.d_price
    }

    pub fn price_and_remaining_quantity(&self) -> (r: (u32, u32))
        ensures
            r == (self.d_price, self.d_remaining_quantity),
    {
        (self.d_price, self.d_remaining_quantity)
    }

    pub fn initial_quantity(&self) -> (r: u32)
        ensures
            r == self.d_initial_quantity,
    {
        self.d_initial_quantity
    }

    pub fn remaining_quantity(&self) -> (r: u32)
        ensures
            r == self.d_remaining_quantity,
    {
        self.d_remaining_quantity
    }

    pub fn valid(&self) -> (r: bool)
        ensures
            r == self.d_valid,
    {
        self.d_valid
    }

    pub fn order_type(&self) -> (r: OrderType)
        ensures
            r == self.d_order_type,
    {
        self.d_order_type
    }

    /// Cancel the order; one that is already invalid stays as it is.
    pub fn invalidate(&mut self) -> (r: Result<(), SimError>)
        ensures
            !old(self).d_valid ==> r == Err::<(), SimError>(SimError::CancelationError)
                && *final(self) == *old(self),
            old(self).d_valid ==> r == Ok::<(), SimError>(()) && *final(self) == (Order {
                d_valid: false,
                ..*old(self)
            }),
    {
        if !self.d_valid {
            Err(SimError::CancelationError)
        } else {
            self.d_valid = false;
            Ok(())
        }
    }

    /// Fill what remains: nothing is left and the order is no longer valid.
    pub fn fill_all(&mut self)
        ensures
            *final(self) == (Order { d_remaining_quantity: 0, d_valid: false, ..*old(self) }),
    {
        self.d_remaining_quantity = 0;
        self.d_valid = false;
    }

    /// Fill `quantity` of what remains; the order turns invalid when nothing
    /// is left.
    pub fn fill(&mut self, quantity: &u32)
        requires
            *quantity <= old(self).d_remaining_quantity,
        ensures
            *final(self) == (Order {
                d_remaining_quantity: (old(self).d_remaining_quantity - *quantity) as u32,
                d_valid: old(self).d_valid && old(self).d_remaining_quantity > *quantity,
                ..*old(self)
            }),
    {
        self.d_remaining_quantity = self.d_remaining_quantity - *quantity;
        if self.d_remaining_quantity == 0 {
            self.d_valid = false;
        }
    }

    pub fn trade_info(&self) -> (r: (u64, u32, u32, Side))
        ensures
            r == (self.d_id, self.d_remaining_quantity, self.d_price, self.d_side),
    {
        (self.d_id, self.d_remaining_quantity, self.d_price, self.d_side)
    }
}

/// A monotonic source of ids; the largest `u64` is never handed out, so
/// running out is reported instead of wrapping round.
pub struct IdCounter {
    next: u64,
}

impl IdCounter {
    /// The id that the next allocation hands out.
    pub closed spec fn upcoming(&self) -> u64 {
        self.next
    }

    pub fn starting_at(first: u64) -> (r: IdCounter)
        ensures
            r.upcoming() == first,
    {
        IdCounter { next: first }
    }

    fn take(&mut self) -> (r: Result<u64, SimError>)
        ensures
            old(self).upcoming() == u64::MAX ==> r == Err::<u64, SimError>(SimError::KeyOverflow)
                && final(self).upcoming() == u64::MAX,
            old(self).upcoming() < u64::MAX ==> r == Ok::<u64, SimError>(old(self).upcoming())
                && final(self).upcoming() == old(self).upcoming() + 1,
    {
        if self.next == u64::MAX {
            Err(SimError::KeyOverflow)
        } else {
            let id = self.next;
            self.next = self.next + 1;
            Ok(id)
        }
    }
}

/// Allocate the next order id.
pub fn order_id(counter: &mut IdCounter) -> (r: Result<u64, SimError>)
    ensures
        old(counter).upcoming() == u64::MAX ==> r == Err::<u64, SimError>(SimError::KeyOverflow)
            && final(counter).upcoming() == u64::MAX,
        old(counter).upcoming() < u64::MAX ==> r == Ok::<u64, SimError>(old(counter).upcoming())
            && final(counter).upcoming() == old(counter).upcoming() + 1,
{
    counter.take()
}

/// Allocate the next client id.
pub fn generate_order_id(counter: &mut IdCounter) -> (r: Result<u64, SimError>)
    ensures
        old(counter).upcoming() == u64::MAX ==> r == Err::<u64, SimError>(SimError::KeyOverflow)
            && final(counter).upcoming() == u64::MAX,
        old(counter).upcoming() < u64::MAX ==> r == Ok::<u64, SimError>(old(counter).upcoming())
            && final(counter).upcoming() == old(counter).upcoming() + 1,
{
    counter.take()
}

/// Give a request a fresh id and turn it into a valid order.
pub fn create_order(counter: &mut IdCounter, order_request: OrderRequest) -> (r: Result<
    Order,
    SimError,
>)
    ensures
        old(counter).upcoming() == u64::MAX ==> r == Err::<Order, SimError>(SimError::KeyOverflow)
            && final(counter).upcoming() == u64::MAX,
        old(counter).upcoming() < u64::MAX ==> final(counter).upcoming() == old(
            counter,
        ).upcoming() + 1 && r == Ok::<Order, SimError>(
            (Order {
                d_id: old(counter).upcoming(),
                d_side: order_request.d_side,
                d_price: order_request.d_price,
                d_initial_quantity: order_request.d_quantity,
                d_remaining_quantity: order_request.d_quantity,
                d_valid: order_request.d_quantity > 0,
                d_order_type: order_request.d_order_type,
            }),
        ),
{
    let id = order_id(counter)?;
    Ok(
        Order::new(
            id,
            order_request.d_side,
            order_request.d_price,
            order_request.d_quantity,
            order_request.d_order_type,
        ),
    )
}

} // verus!
