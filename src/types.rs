use vstd::prelude::*;

verus! {

/// Errors of the order book and of order construction.
#[derive(Clone, Copy, Debug, PartialEq, Eq, Structural)]
pub enum SimError {
    InvalidOrder,
    KeyOverflow,
    OrderNotFound,
    CancelationError,
    NoError,
    NoMatchFound,
}

#[derive(Clone, Copy, Debug, PartialEq, Eq, Structural)]
pub enum Side {
    Buy,
    Sell,
}

#[derive(Clone, Copy, Debug, PartialEq, Eq, Structural)]
pub enum OrderType {
    GoodTillCancel,
    FillAndKill,
    FillOrKill,
    Market,
}

/// What a client asks for before an id is assigned.
#[derive(Clone, Copy, Debug, PartialEq, Eq, Structural)]
pub struct OrderRequest {
    pub d_side: Side,
    pub d_price: u32,
    pub d_quantity: u32,
    pub d_order_type: OrderType,
}

/// An order with its identity and its fill state.
/// `d_remaining_quantity` is what is left to fill; `d_valid` turns false
/// once the order is filled or cancelled and never turns true again.
#[derive(Clone, Copy, Debug, PartialEq, Eq, Structural)]
pub struct Order {
    pub d_id: u64,
    pub d_side: Side,
    pub d_price: u32,
    pub d_initial_quantity: u32,
    pub d_remaining_quantity: u32,
    pub d_valid: bool,
    pub d_order_type: OrderType,
}

/// Summary of what one aggressor traded: the prices it met, the money that
/// changed hands and the quantity it filled.
#[derive(Debug)]
pub struct TradeInfo {
    pub d_prices: Vec<u32>,
    pub d_total: u64,
    pub d_quantity: u32,
}

/// One match between a buy and a sell order.
#[derive(Clone, Copy, Debug, PartialEq, Eq, Structural)]
pub struct Trades {
    pub d_seller: u64,
    pub d_buyer: u64,
    pub d_quantity: u32,
    pub d_price: u32,
    pub d_seller_filled: bool,
    pub d_buyer_filled: bool,
    pub d_error_indication: SimError,
}

/// For each price populated on one side, the number of valid orders
/// waiting there.
pub struct PriceLevelInfo {
    pub(crate) d_level_info: std::collections::HashMap<u32, u64>,
}

pub enum ServerNotification {
    Trade(Trades),
    Error(String),
}

/// A trade as seen by the owner of one of its two orders.
/// `d_counter_party` is `None` only for the shutdown notice.
#[derive(Clone, Copy, Debug, PartialEq, Eq, Structural)]
pub struct TradeNotification {
    pub d_order_id: u64,
    pub d_counter_party: Option<u64>,
    pub d_price: u32,
    pub d_filled_quantity: u32,
    pub d_fully_filled: bool,
}

/// What the session needs to know of a failed socket operation.
#[derive(Clone, Debug, PartialEq, Eq)]
pub enum IoFault {
    /// The operation would have blocked; it can be retried.
    WouldBlock,
    /// Any other failure, with its description.
    Failed(String),
}

/// Errors between the server and one client.
#[derive(Clone, Debug, PartialEq, Eq)]
pub enum ProtocolError {
    Io(IoFault),
    MessageTooLarge(usize),
    ContentError(String),
    ConnectionClosed,
    Timeout,
}

impl ProtocolError {
    /// A fatal error closes the connection: everything but a blocked socket
    /// operation, an oversized message and a header timeout.
    pub open spec fn fatal(&self) -> bool {
        match self {
            ProtocolError::Io(IoFault::WouldBlock) => false,
            ProtocolError::MessageTooLarge(_) => false,
            ProtocolError::Timeout => false,
            _ => true,
        }
    }

    pub fn is_fatal(&self) -> (r: bool)
        ensures
            r == self.fatal(),
    {
        match self {
            ProtocolError::Io(IoFault::WouldBlock) => false,
            ProtocolError::MessageTooLarge(_) => false,
            ProtocolError::Timeout => false,
            _ => true,
        }
    }
}

} // verus!
