//! What the trade dispatcher does with each trade: whom to notify, which
//! filled orders to forget, and whether the trade is logged.
use vstd::prelude::*;

use crate::trades::notification_of;
use crate::types::{TradeNotification, Trades};

verus! {

/// A sink for executed trades, such as an append-only trade log.
pub trait TradeLogger {
    fn log(&self, trade: &Trades);
}

pub struct DispatchPlan {
    /// Client and notification, buyer first.
    pub notify: Vec<(u64, TradeNotification)>,
    /// Filled order ids to drop from the book's index and from the
    /// order-to-client map, seller first.
    pub prune: Vec<u64>,
    /// Whether the trade goes to the trade log.
    pub log: bool,
}

/// A trade with no price and no quantity only carries control information.
pub open spec fn is_control(t: Trades) -> bool {
    t.d_price == 0 && t.d_quantity == 0
}

pub open spec fn notify_plan(t: Trades, buyer_client: Option<u64>, seller_client: Option<u64>) -> Seq<
    (u64, TradeNotification),
> {
    (match buyer_client {
        Some(c) => seq![(c, notification_of(t, true))],
        None => Seq::empty(),
    }) + (match seller_client {
        Some(c) => seq![(c, notification_of(t, false))],
        None => Seq::empty(),
    })
}

pub open spec fn prune_plan(t: Trades) -> Seq<u64> {
    (if t.d_seller_filled {
        seq![t.d_seller]
    } else {
        Seq::empty()
    }) + (if t.d_buyer_filled {
        seq![t.d_buyer]
    } else {
        Seq::empty()
    })
}

/// Plan the handling of `trade`, given the clients that own its buyer and
/// seller orders (if known).
pub fn plan_dispatch(trade: &Trades, buyer_client: Option<u64>, seller_client: Option<u64>) -> (r:
    DispatchPlan)
    ensures
        r.notify@ == notify_plan(*trade, buyer_client, seller_client),
        r.prune@ == prune_plan(*trade),
        r.log == !is_control(*trade),
{
    let mut notify: Vec<(u64, TradeNotification)> = Vec::new();
    if let Some(c) = buyer_client {
        notify.push((c, TradeNotification::from_trade(trade, true)));
    }
    if let Some(c) = seller_client {
        notify.push((c, TradeNotification::from_trade(trade, false)));
    }
    assert(notify@ =~= notify_plan(*trade, buyer_client, seller_client));
    let mut prune: Vec<u64> = Vec::new();
    if trade.seller_filled() {
        prune.push(trade.seller());
    }
    if trade.buyer_filled() {
        prune.push(trade.buyer());
    }
    assert(prune@ =~= prune_plan(*trade));
    DispatchPlan { notify, prune, log: !(trade.price() == 0 && trade.quantity() == 0) }
}

} // verus!
