use orderbook::{fill_trade, Side, TradeNotification, Trades};

#[test]
fn test_from_trade() {
    let trade = Trades::new(0, 1, 2, 3, false, true);
    let res = TradeNotification {
        d_order_id: 0,
        d_counter_party: Some(1),
        d_price: 3,
        d_filled_quantity: 2,
        d_fully_filled: false,
    };
    assert_eq!(res, TradeNotification::from_trade(&trade, false));
}

#[test]
fn buyer_notification() {
    let trade = Trades::new(0, 1, 2, 3, false, true);
    let n = TradeNotification::from_trade(&trade, true);
    assert_eq!(n.d_order_id, 1);
    assert_eq!(n.d_counter_party, Some(0));
    assert!(n.d_fully_filled);
}

#[test]
fn shutdown_notification_has_no_counter_party() {
    let n = TradeNotification::shutdown();
    assert_eq!(n.d_counter_party, None);
    assert_eq!(n.d_filled_quantity, 0);
}

#[test]
fn fill_trade_resting_buy() {
    let t = fill_trade((4, 5, 10, Side::Buy), (9, 3, 8, Side::Sell));
    assert_eq!(t.buyer(), 4);
    assert_eq!(t.seller(), 9);
    assert_eq!(t.quantity(), 3);
    assert_eq!(t.price(), 10);
    assert!(!t.buyer_filled());
    assert!(t.seller_filled());
}

#[test]
fn fill_trade_resting_sell_equal() {
    let t = fill_trade((4, 5, 10, Side::Sell), (9, 5, 12, Side::Buy));
    assert_eq!(t.buyer(), 9);
    assert_eq!(t.seller(), 4);
    assert_eq!(t.quantity(), 5);
    assert_eq!(t.price(), 10);
    assert!(t.buyer_filled() && t.seller_filled());
}
