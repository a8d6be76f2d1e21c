use orderbook::{
    create_order, plan_dispatch, IdCounter, Order, OrderBook, OrderRequest, OrderType, Side, SimError, Trades,
};

fn submit(
    book: &mut OrderBook,
    ids: &mut IdCounter,
    side: Side,
    kind: OrderType,
    price: u32,
    qty: u32,
) -> (u64, Vec<Trades>) {
    let request = if kind == OrderType::Market {
        OrderRequest::market_order_request(side, qty).unwrap()
    } else {
        OrderRequest::new(side, price, qty, kind).unwrap()
    };
    let order = create_order(ids, request).unwrap();
    book.add_order(order).unwrap()
}

fn remaining(book: &OrderBook, side: Side) -> Vec<(u64, u32, u32)> {
    book.side_orders(side)
        .iter()
        .map(|o| (o.id(), o.price(), o.remaining_quantity()))
        .collect()
}

#[test]
fn simple_cross() {
    let mut book = OrderBook::new();
    let mut ids = IdCounter::starting_at(1);
    let (buy, t1) = submit(&mut book, &mut ids, Side::Buy, OrderType::GoodTillCancel, 10, 5);
    assert!(t1.is_empty());
    let (sell, t2) = submit(&mut book, &mut ids, Side::Sell, OrderType::GoodTillCancel, 10, 5);
    assert_eq!(t2.len(), 1);
    let t = t2[0];
    assert_eq!((t.buyer(), t.seller(), t.price(), t.quantity()), (buy, sell, 10, 5));
    assert!(t.buyer_filled() && t.seller_filled());
    let plan = plan_dispatch(&t, Some(100), Some(200));
    assert_eq!(plan.notify.len(), 2);
    assert_eq!((plan.notify[0].0, plan.notify[0].1.d_order_id), (100, buy));
    assert_eq!((plan.notify[1].0, plan.notify[1].1.d_order_id), (200, sell));
    assert!(plan.notify.iter().all(|(_, n)| n.d_fully_filled && n.d_filled_quantity == 5));
    assert_eq!(plan.prune, vec![sell, buy]);
    assert!(book.side_orders(Side::Buy).is_empty());
    assert!(book.side_orders(Side::Sell).is_empty());
    assert_eq!(book.best_bid(), None);
    assert_eq!(book.best_ask(), None);
    // the dispatcher prunes both filled orders
    book.remove(&buy);
    book.remove(&sell);
    assert_eq!(book.len(), 0);
}

#[test]
fn partial_fill_residual_rests() {
    let mut book = OrderBook::new();
    let mut ids = IdCounter::starting_at(1);
    let (buy, _) = submit(&mut book, &mut ids, Side::Buy, OrderType::GoodTillCancel, 10, 5);
    let (sell, trades) = submit(&mut book, &mut ids, Side::Sell, OrderType::GoodTillCancel, 10, 3);
    assert_eq!(trades.len(), 1);
    let t = trades[0];
    assert_eq!((t.buyer(), t.seller(), t.price(), t.quantity()), (buy, sell, 10, 3));
    assert!(t.seller_filled());
    assert!(!t.buyer_filled());
    let plan = plan_dispatch(&t, Some(100), Some(200));
    let buyer_view = plan.notify[0].1;
    let seller_view = plan.notify[1].1;
    assert!(!buyer_view.d_fully_filled);
    assert_eq!(buyer_view.d_filled_quantity, 3);
    assert!(seller_view.d_fully_filled);
    assert_eq!(plan.prune, vec![sell]);
    assert_eq!(remaining(&book, Side::Buy), vec![(buy, 10, 2)]);
    assert!(book.side_orders(Side::Sell).is_empty());
}

#[test]
fn price_time_priority() {
    let mut book = OrderBook::new();
    let mut ids = IdCounter::starting_at(1);
    let (first, _) = submit(&mut book, &mut ids, Side::Buy, OrderType::GoodTillCancel, 10, 4);
    let (second, _) = submit(&mut book, &mut ids, Side::Buy, OrderType::GoodTillCancel, 10, 4);
    assert_eq!((first, second), (1, 2));
    let (s, trades) = submit(&mut book, &mut ids, Side::Sell, OrderType::GoodTillCancel, 10, 5);
    assert_eq!(trades.len(), 2);
    assert_eq!((trades[0].buyer(), trades[0].seller(), trades[0].quantity()), (1, s, 4));
    assert_eq!((trades[1].buyer(), trades[1].seller(), trades[1].quantity()), (2, s, 1));
    assert_eq!(remaining(&book, Side::Buy), vec![(2, 10, 3)]);
}

#[test]
fn better_price_first() {
    let mut book = OrderBook::new();
    let mut ids = IdCounter::starting_at(1);
    let (a, _) = submit(&mut book, &mut ids, Side::Sell, OrderType::GoodTillCancel, 12, 2);
    let (b, _) = submit(&mut book, &mut ids, Side::Sell, OrderType::GoodTillCancel, 11, 2);
    let (c, _) = submit(&mut book, &mut ids, Side::Sell, OrderType::GoodTillCancel, 11, 2);
    assert_eq!(remaining(&book, Side::Sell), vec![(b, 11, 2), (c, 11, 2), (a, 12, 2)]);
    assert_eq!(book.best_ask(), Some(11));
    let (_, trades) = submit(&mut book, &mut ids, Side::Buy, OrderType::GoodTillCancel, 12, 5);
    let sellers: Vec<(u64, u32, u32)> =
        trades.iter().map(|t| (t.seller(), t.price(), t.quantity())).collect();
    assert_eq!(sellers, vec![(b, 11, 2), (c, 11, 2), (a, 12, 1)]);
    assert_eq!(remaining(&book, Side::Sell), vec![(a, 12, 1)]);
}

#[test]
fn fill_or_kill_rejected() {
    let mut book = OrderBook::new();
    let mut ids = IdCounter::starting_at(1);
    let (sell, _) = submit(&mut book, &mut ids, Side::Sell, OrderType::GoodTillCancel, 10, 3);
    let request = OrderRequest::new(Side::Buy, 10, 5, OrderType::FillOrKill).unwrap();
    let order = create_order(&mut ids, request).unwrap();
    assert_eq!(book.add_order(order).unwrap_err(), SimError::NoMatchFound);
    assert_eq!(remaining(&book, Side::Sell), vec![(sell, 10, 3)]);
    assert!(book.side_orders(Side::Buy).is_empty());
    assert_eq!(book.len(), 1);
}

#[test]
fn fill_or_kill_filled() {
    let mut book = OrderBook::new();
    let mut ids = IdCounter::starting_at(1);
    submit(&mut book, &mut ids, Side::Sell, OrderType::GoodTillCancel, 10, 3);
    submit(&mut book, &mut ids, Side::Sell, OrderType::GoodTillCancel, 11, 3);
    let (_, trades) = submit(&mut book, &mut ids, Side::Buy, OrderType::FillOrKill, 11, 5);
    assert_eq!(trades.iter().map(|t| t.quantity()).sum::<u32>(), 5);
    assert_eq!(remaining(&book, Side::Sell).len(), 1);
    assert!(book.side_orders(Side::Buy).is_empty());
}

#[test]
fn fill_and_kill_partial() {
    let mut book = OrderBook::new();
    let mut ids = IdCounter::starting_at(1);
    submit(&mut book, &mut ids, Side::Sell, OrderType::GoodTillCancel, 10, 3);
    let (fak, trades) = submit(&mut book, &mut ids, Side::Buy, OrderType::FillAndKill, 10, 5);
    assert_eq!(trades.len(), 1);
    assert_eq!((trades[0].price(), trades[0].quantity()), (10, 3));
    assert!(book.side_orders(Side::Buy).is_empty());
    let (_, later) = submit(&mut book, &mut ids, Side::Sell, OrderType::GoodTillCancel, 10, 5);
    assert!(later.is_empty());
    assert_eq!(book.cancel_order(fak), Err(SimError::CancelationError));
}

#[test]
fn cancel_then_resubmit() {
    let mut book = OrderBook::new();
    let mut ids = IdCounter::starting_at(1);
    let (a, _) = submit(&mut book, &mut ids, Side::Buy, OrderType::GoodTillCancel, 10, 5);
    assert_eq!(book.cancel_order(a), Ok(()));
    let (s, trades) = submit(&mut book, &mut ids, Side::Sell, OrderType::GoodTillCancel, 10, 5);
    assert!(trades.is_empty());
    assert_eq!(remaining(&book, Side::Sell), vec![(s, 10, 5)]);
    assert!(book.side_orders(Side::Buy).is_empty());
}

#[test]
fn cancel_twice() {
    let mut book = OrderBook::new();
    let mut ids = IdCounter::starting_at(1);
    let (a, _) = submit(&mut book, &mut ids, Side::Sell, OrderType::GoodTillCancel, 10, 5);
    assert_eq!(book.cancel_order(a), Ok(()));
    assert_eq!(book.cancel_order(a), Err(SimError::CancelationError));
}

#[test]
fn cancel_unknown_and_filled() {
    let mut book = OrderBook::new();
    let mut ids = IdCounter::starting_at(1);
    assert_eq!(book.cancel_order(77), Err(SimError::OrderNotFound));
    let (a, _) = submit(&mut book, &mut ids, Side::Sell, OrderType::GoodTillCancel, 10, 5);
    submit(&mut book, &mut ids, Side::Buy, OrderType::GoodTillCancel, 10, 5);
    assert_eq!(book.cancel_order(a), Err(SimError::CancelationError));
}

#[test]
fn market_order_on_empty_side() {
    let mut book = OrderBook::new();
    let mut ids = IdCounter::starting_at(1);
    let (_, trades) = submit(&mut book, &mut ids, Side::Buy, OrderType::Market, 0, 5);
    assert!(trades.is_empty());
    assert!(book.side_orders(Side::Buy).is_empty());
    assert_eq!(book.len(), 0);
}

#[test]
fn market_order_crosses_any_price() {
    let mut book = OrderBook::new();
    let mut ids = IdCounter::starting_at(1);
    submit(&mut book, &mut ids, Side::Buy, OrderType::GoodTillCancel, 7, 2);
    submit(&mut book, &mut ids, Side::Buy, OrderType::GoodTillCancel, 3, 2);
    let (_, trades) = submit(&mut book, &mut ids, Side::Sell, OrderType::Market, 0, 10);
    let fills: Vec<(u32, u32)> = trades.iter().map(|t| (t.price(), t.quantity())).collect();
    assert_eq!(fills, vec![(7, 2), (3, 2)]);
    assert!(book.side_orders(Side::Sell).is_empty());
}

#[test]
fn book_stays_uncrossed_without_matches() {
    let mut book = OrderBook::new();
    let mut ids = IdCounter::starting_at(1);
    submit(&mut book, &mut ids, Side::Buy, OrderType::GoodTillCancel, 9, 1);
    submit(&mut book, &mut ids, Side::Sell, OrderType::GoodTillCancel, 11, 1);
    submit(&mut book, &mut ids, Side::Buy, OrderType::GoodTillCancel, 10, 1);
    assert_eq!((book.best_bid(), book.best_ask()), (Some(10), Some(11)));
    assert!(!book.can_match(&Order::new(99, Side::Sell, 11, 1, OrderType::GoodTillCancel)));
    assert!(book.can_match(&Order::new(99, Side::Sell, 10, 1, OrderType::GoodTillCancel)));
    assert!(book.is_in_lowest_asks(11));
    assert!(!book.is_in_lowest_asks(10));
    assert!(book.is_in_highest_bids(10));
    assert!(!book.is_in_highest_bids(11));
}

#[test]
fn traded_quantity_is_bounded() {
    let mut book = OrderBook::new();
    let mut ids = IdCounter::starting_at(1);
    submit(&mut book, &mut ids, Side::Sell, OrderType::GoodTillCancel, 10, 2);
    submit(&mut book, &mut ids, Side::Sell, OrderType::GoodTillCancel, 12, 4);
    let probe = Order::new(50, Side::Buy, 10, 3, OrderType::GoodTillCancel);
    assert!(!book.can_match_fully(&probe));
    let (_, trades) = submit(&mut book, &mut ids, Side::Buy, OrderType::GoodTillCancel, 10, 3);
    assert_eq!(trades.iter().map(|t| t.quantity()).sum::<u32>(), 2);
    assert_eq!(remaining(&book, Side::Buy), vec![(3, 10, 1)]);
}

#[test]
fn stale_or_invalid_orders_are_refused() {
    let mut book = OrderBook::new();
    book.add_order(Order::new(5, Side::Buy, 10, 1, OrderType::GoodTillCancel)).unwrap();
    let again = Order::new(5, Side::Sell, 20, 1, OrderType::GoodTillCancel);
    assert_eq!(book.add_order(again).unwrap_err(), SimError::KeyOverflow);
    let empty = Order::new(6, Side::Sell, 20, 0, OrderType::GoodTillCancel);
    assert_eq!(book.add_order(empty).unwrap_err(), SimError::InvalidOrder);
}

#[test]
fn ids_run_out() {
    let mut ids = IdCounter::starting_at(u64::MAX - 1);
    assert_eq!(orderbook::order_id(&mut ids), Ok(u64::MAX - 1));
    assert_eq!(orderbook::order_id(&mut ids), Err(SimError::KeyOverflow));
    let mut clients = IdCounter::starting_at(1);
    assert_eq!(orderbook::generate_order_id(&mut clients), Ok(1));
    assert_eq!(orderbook::generate_order_id(&mut clients), Ok(2));
}

#[test]
fn requests_are_checked() {
    assert_eq!(
        OrderRequest::new(Side::Buy, 10, 0, OrderType::GoodTillCancel),
        Err(SimError::InvalidOrder)
    );
    assert_eq!(
        OrderRequest::new(Side::Buy, 0, 3, OrderType::FillAndKill),
        Err(SimError::InvalidOrder)
    );
    assert_eq!(
        OrderRequest::new(Side::Buy, 10, 3, OrderType::Market).unwrap().request(),
        (Side::Buy, 0, 3, OrderType::Market)
    );
    assert_eq!(OrderRequest::market_order_request(Side::Sell, 0), Err(SimError::InvalidOrder));
}

#[test]
fn order_fill_and_cancel() {
    let mut o = Order::new(1, Side::Buy, 10, 5, OrderType::GoodTillCancel);
    o.fill(&2);
    assert_eq!(o.price_and_remaining_quantity(), (10, 3));
    assert!(o.valid());
    o.fill(&3);
    assert!(!o.valid());
    let mut p = Order::new(2, Side::Sell, 10, 5, OrderType::GoodTillCancel);
    assert_eq!(p.invalidate(), Ok(()));
    assert_eq!(p.invalidate(), Err(SimError::CancelationError));
    p.fill_all();
    assert_eq!(p.remaining_quantity(), 0);
    assert_eq!(p.trade_info(), (2, 0, 10, Side::Sell));
    assert!(!Order::new_invalid().valid());
}

#[test]
fn sweep_drops_filled_entries_from_index() {
    let mut book = OrderBook::new();
    let mut ids = IdCounter::starting_at(1);
    submit(&mut book, &mut ids, Side::Buy, OrderType::GoodTillCancel, 10, 5);
    submit(&mut book, &mut ids, Side::Sell, OrderType::GoodTillCancel, 10, 5);
    let (rest, _) = submit(&mut book, &mut ids, Side::Sell, OrderType::GoodTillCancel, 12, 1);
    assert_eq!(book.len(), 3);
    book.lazy_deletion();
    assert_eq!(book.len(), 1);
    assert_eq!(remaining(&book, Side::Sell), vec![(rest, 12, 1)]);
    assert_eq!(book.cancel_order(rest), Ok(()));
    assert_eq!(book.len(), 0);
}

#[test]
fn remove_leaves_resting_orders_alone() {
    let mut book = OrderBook::new();
    let mut ids = IdCounter::starting_at(1);
    let (a, _) = submit(&mut book, &mut ids, Side::Buy, OrderType::GoodTillCancel, 10, 5);
    assert_eq!(book.remove(&a), None);
    assert_eq!(book.len(), 1);
    let (b, _) = submit(&mut book, &mut ids, Side::Sell, OrderType::GoodTillCancel, 10, 5);
    assert_eq!(book.remove(&a), Some((Side::Buy, 10)));
    assert_eq!(book.remove(&b), Some((Side::Sell, 10)));
    assert_eq!(book.len(), 0);
}

#[test]
fn refused_fill_or_kill_id_is_unknown() {
    let mut book = OrderBook::new();
    let mut ids = IdCounter::starting_at(0);
    let request = OrderRequest::new(Side::Buy, 10, 5, OrderType::FillOrKill).unwrap();
    let refused = create_order(&mut ids, request).unwrap();
    assert_eq!(refused.id(), 0);
    assert_eq!(book.add_order(refused).unwrap_err(), SimError::NoMatchFound);
    let (kept, _) = submit(&mut book, &mut ids, Side::Buy, OrderType::GoodTillCancel, 10, 1);
    assert_eq!(kept, 1);
    assert_eq!(book.cancel_order(0), Err(SimError::OrderNotFound));
    assert_eq!(book.cancel_order(kept), Ok(()));
    assert_eq!(book.cancel_order(kept), Err(SimError::CancelationError));
}

#[test]
fn pruned_and_swept_ids_stay_known() {
    let mut book = OrderBook::new();
    let mut ids = IdCounter::starting_at(1);
    let (buy, _) = submit(&mut book, &mut ids, Side::Buy, OrderType::GoodTillCancel, 10, 5);
    let (sell, _) = submit(&mut book, &mut ids, Side::Sell, OrderType::GoodTillCancel, 10, 5);
    book.remove(&buy);
    book.lazy_deletion();
    assert_eq!(book.len(), 0);
    assert_eq!(book.cancel_order(buy), Err(SimError::CancelationError));
    assert_eq!(book.cancel_order(sell), Err(SimError::CancelationError));
    let (market, _) = submit(&mut book, &mut ids, Side::Sell, OrderType::Market, 0, 2);
    assert_eq!(book.cancel_order(market), Err(SimError::CancelationError));
    assert_eq!(book.cancel_order(market + 1), Err(SimError::OrderNotFound));
}
