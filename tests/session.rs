use orderbook::{request_from_draws, OrderRequest, Side};
use orderbook::{
    create_order_request, plan_dispatch, session_step, IoFault, OrderType, PriceLevelInfo,
    ProtocolError, SessionAction, SessionEvent, SessionState, TradeInfo, Trades,
};

#[test]
fn rejected_indices_are_reported_after_admission() {
    let (next, actions) = session_step(SessionState::Reading, SessionEvent::Orders(vec![], vec![1]));
    assert_eq!(next, SessionState::Writing);
    assert_eq!(actions.len(), 2);
    assert!(matches!(actions[0], SessionAction::Admit(_)));
    assert!(matches!(&actions[1], SessionAction::ReportRejected(v) if v == &vec![1]));
    let (next, actions) = session_step(next, SessionEvent::Written);
    assert_eq!(next, SessionState::Reading);
    assert!(actions.is_empty());
}

#[test]
fn clean_submission_needs_no_reply() {
    let (next, actions) = session_step(SessionState::Reading, SessionEvent::Orders(vec![], vec![]));
    assert_eq!(next, SessionState::Reading);
    assert_eq!(actions.len(), 1);
}

#[test]
fn fatal_and_recoverable_errors() {
    let (next, actions) = session_step(
        SessionState::Reading,
        SessionEvent::ReadFailed(ProtocolError::ContentError("bad".to_string())),
    );
    assert_eq!(next, SessionState::Closed);
    assert!(matches!(actions[0], SessionAction::ReportError(_)));
    assert!(matches!(actions[1], SessionAction::Close));
    let (next, actions) =
        session_step(SessionState::Reading, SessionEvent::ReadFailed(ProtocolError::Timeout));
    assert_eq!(next, SessionState::Writing);
    assert_eq!(actions.len(), 1);
    let (next, _) = session_step(
        SessionState::Reading,
        SessionEvent::ReadFailed(ProtocolError::MessageTooLarge(2_000_000)),
    );
    assert_eq!(next, SessionState::Writing);
    let (next, actions) = session_step(
        SessionState::Reading,
        SessionEvent::ReadFailed(ProtocolError::ConnectionClosed),
    );
    assert_eq!(next, SessionState::Closed);
    assert_eq!(actions.len(), 1);
    assert!(!ProtocolError::Io(IoFault::WouldBlock).is_fatal());
    assert!(ProtocolError::Io(IoFault::Failed("reset".to_string())).is_fatal());
}

#[test]
fn closed_sessions_stay_closed() {
    let (next, actions) = session_step(SessionState::Reading, SessionEvent::SinkClosed);
    assert_eq!(next, SessionState::Closed);
    assert!(matches!(actions[0], SessionAction::Close));
    let (next, actions) = session_step(next, SessionEvent::Orders(vec![], vec![3]));
    assert_eq!(next, SessionState::Closed);
    assert!(actions.is_empty());
}

#[test]
fn dispatch_plan() {
    let trade = Trades::new(2, 1, 5, 10, true, false);
    let plan = plan_dispatch(&trade, Some(7), Some(8));
    assert_eq!(plan.notify.len(), 2);
    assert_eq!(plan.notify[0].0, 7);
    assert_eq!(plan.notify[0].1.d_order_id, 1);
    assert_eq!(plan.notify[1].0, 8);
    assert_eq!(plan.notify[1].1.d_order_id, 2);
    assert_eq!(plan.prune, vec![2]);
    assert!(plan.log);
    let control = Trades::error(orderbook::SimError::NoMatchFound);
    let plan = plan_dispatch(&control, None, None);
    assert!(plan.notify.is_empty());
    assert!(!plan.log);
}

#[test]
fn level_counts() {
    let mut info = PriceLevelInfo::new();
    assert_eq!(info.get_count(10), 0);
    info.increment(10);
    info.increment(10);
    info.decrement(10);
    assert_eq!(info.get_count(10), 1);
    info.decrement(10);
    info.decrement(10);
    assert_eq!(info.get_count(10), 0);
}

#[test]
fn trade_info_summary() {
    let mut info = TradeInfo::new();
    assert!(info.is_empty());
    info.record(10, 3);
    info.record(12, 2);
    assert_eq!(info.d_prices, vec![10, 12]);
    assert_eq!(info.d_total, 54);
    assert_eq!(info.d_quantity, 5);
    assert!(!info.is_empty());
}

#[test]
fn random_requests_are_admissible() {
    for _ in 0..200 {
        let r = create_order_request();
        let (_, price, quantity, kind) = r.request();
        assert!((2..20).contains(&quantity));
        if kind == OrderType::Market {
            assert_eq!(price, 0);
        } else {
            assert!((15..25).contains(&price));
        }
    }
}

fn wire_record(kind: u8, side: u8, quantity: u32, price: u32) -> Vec<u8> {
    let mut r = vec![kind, side];
    r.extend(quantity.to_le_bytes());
    r.extend(price.to_le_bytes());
    let crc = orderbook::compute_crc(&r);
    r.extend(crc.to_le_bytes());
    r.extend([0u8, 0u8]);
    r
}

#[test]
fn wire_submission_with_corrupt_record() {
    let mut data = Vec::new();
    data.extend(64u32.to_le_bytes());
    data.extend([0xFFu8, 0xFF]);
    data.extend(3u32.to_le_bytes());
    let crc = orderbook::compute_crc(&data);
    data.extend(crc.to_le_bytes());
    data.extend([0u8, 0]);
    let header: [u8; 16] = data[..16].try_into().unwrap();
    assert_eq!(orderbook::parse_header(&header), Ok((64, 3)));
    data.extend(wire_record(1, 1, 5, 10));
    let mut corrupt = wire_record(1, 0, 5, 10);
    corrupt[11] ^= 0x01;
    data.extend(corrupt);
    data.extend(wire_record(2, 0, 1, 9));
    let (valid, invalid) = orderbook::deserialize_stream(&data, 3).unwrap();
    let (_, actions) = session_step(SessionState::Reading, SessionEvent::Orders(valid, invalid));
    assert_eq!(actions.len(), 2);
    match &actions[0] {
        SessionAction::Admit(requests) => assert_eq!(requests.len(), 2),
        _ => panic!("expected admission first"),
    }
    match &actions[1] {
        SessionAction::ReportRejected(indices) => {
            assert_eq!(orderbook::rejected_indices_text(indices), b"1".to_vec())
        }
        _ => panic!("expected a rejection report"),
    }
}

#[test]
fn draws_map_to_requests() {
    assert_eq!(
        request_from_draws(0, 0, 5, 17),
        OrderRequest {
            d_side: Side::Buy,
            d_price: 17,
            d_quantity: 5,
            d_order_type: OrderType::GoodTillCancel
        }
    );
    assert_eq!(request_from_draws(1, 1, 3, 20).request(), (Side::Sell, 20, 3, OrderType::FillAndKill));
    assert_eq!(request_from_draws(2, 0, 4, 15).request(), (Side::Buy, 15, 4, OrderType::FillOrKill));
    assert_eq!(request_from_draws(3, 1, 9, 24).request(), (Side::Sell, 0, 9, OrderType::Market));
}
