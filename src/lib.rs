//! A limit-order matching engine: value types, the binary wire codec with
//! CRC-32C integrity checks, the order book with its price-time priority
//! matching, and the per-connection session and trade-dispatch decisions.

pub mod book;
pub mod client;
pub mod codec;
pub mod crc;
pub mod dispatch;
pub mod level_info;
pub mod matching;
pub mod order;
pub mod session;
pub mod trades;
pub mod types;
pub mod wire;

pub use book::OrderBook;
pub use client::{create_order_request, request_from_draws};
pub use codec::{
    decode_trade_notification, deserialize_stream, deserialize_trade_information,
    envelope_trade_notification, parse_header, parse_order, rejected_indices_text,
    serialize_request, serialize_stream, serialize_trade_notification, MAX_MESSAGE_SIZE,
};
pub use crc::{compute_crc, validate_crc};
pub use dispatch::{plan_dispatch, DispatchPlan, TradeLogger};
pub use matching::match_order_and_price_level;
pub use order::{create_order, generate_order_id, order_id, IdCounter};
pub use session::{session_step, SessionAction, SessionEvent, SessionState};
pub use trades::fill_trade;
pub use types::{
    IoFault, Order, OrderRequest, OrderType, PriceLevelInfo, ProtocolError, ServerNotification,
    Side, SimError, TradeInfo, TradeNotification, Trades,
};
