use orderbook::codec::{decode_trade_notification, parse_header, serialize_request, serialize_stream};
use orderbook::{
    compute_crc, deserialize_stream, deserialize_trade_information, envelope_trade_notification,
    parse_order, rejected_indices_text, serialize_trade_notification, validate_crc, OrderRequest, OrderType,
    ProtocolError, Side, TradeNotification,
};

fn record(kind: u8, side: u8, quantity: u32, price: u32) -> [u8; 16] {
    let mut r = [0u8; 16];
    r[0] = kind;
    r[1] = side;
    r[2..6].copy_from_slice(&quantity.to_le_bytes());
    r[6..10].copy_from_slice(&price.to_le_bytes());
    let crc = compute_crc(&r[..10]);
    r[10..14].copy_from_slice(&crc.to_le_bytes());
    r
}

fn header(message_len: u32, count: u32) -> [u8; 16] {
    let mut h = [0u8; 16];
    h[0..4].copy_from_slice(&message_len.to_le_bytes());
    h[4] = 0xFF;
    h[5] = 0xFF;
    h[6..10].copy_from_slice(&count.to_le_bytes());
    let crc = compute_crc(&h[..10]);
    h[10..14].copy_from_slice(&crc.to_le_bytes());
    h
}

#[test]
fn test_compute_crc1() {
    let result = 0xE3069283;
    let input = b"123456789";
    assert_eq!(result, compute_crc(input));
}

#[test]
fn test_compute_crc2() {
    let result = 0x00000000;
    let input = b"";
    assert_eq!(result, compute_crc(input));
}

#[test]
fn test_compute_crc3() {
    let result = 0x22620404;
    let input = b"The quick brown fox jumps over the lazy dog";
    assert_eq!(result, compute_crc(input));
}

#[test]
fn test_validate_crc1() {
    let data = b"123456789";
    let crc: [u8; 4] = 0xE3069283u32.to_le_bytes();
    assert!(validate_crc(data, &crc));
}

#[test]
fn test_validate_crc2() {
    let data = b"1212121212";
    let crc: [u8; 4] = 0x12121212u32.to_le_bytes();
    assert!(!validate_crc(data, &crc));
}

#[test]
fn test_serialize_trade_notification() {
    let mut buffer = [0u8; 32];
    let trade = TradeNotification {
        d_order_id: 1,
        d_counter_party: Some(2),
        d_price: 3,
        d_filled_quantity: 4,
        d_fully_filled: true,
    };
    let res: [u8; 27] = [
        1, // Type
        32, // Length
        1, 0, 0, 0, 0, 0, 0, 0, // 1u64.to_le_bytes()
        2, 0, 0, 0, 0, 0, 0, 0, // 2u64.to_le_bytes()
        3, 0, 0, 0, // 3u32.to_le_bytes()
        4, 0, 0, 0, // 4u32.to_le_bytes()
        1, // true -> 0x1
    ];
    assert_eq!(res, serialize_trade_notification(&trade, &mut buffer)[..27]);
}

#[test]
fn notification_frame_carries_its_crc() {
    let mut buffer = [0u8; 32];
    let n = TradeNotification {
        d_order_id: 7,
        d_counter_party: Some(9),
        d_price: 10,
        d_filled_quantity: 5,
        d_fully_filled: false,
    };
    let frame = serialize_trade_notification(&n, &mut buffer);
    assert_eq!(buffer, frame);
    assert_eq!(&frame[27..31], &compute_crc(&frame[..27]).to_le_bytes());
    assert_eq!(frame[31], 0);
}

#[test]
fn notification_round_trip() {
    let n = TradeNotification {
        d_order_id: 123456789012,
        d_counter_party: Some(42),
        d_price: 17,
        d_filled_quantity: 3,
        d_fully_filled: true,
    };
    let mut buffer = [0u8; 32];
    let frame = serialize_trade_notification(&n, &mut buffer);
    assert_eq!(decode_trade_notification(&frame), Some(n));
}

#[test]
fn notification_round_trip_without_counter_party() {
    let n = TradeNotification {
        d_order_id: 0,
        d_counter_party: None,
        d_price: 0,
        d_filled_quantity: 0,
        d_fully_filled: false,
    };
    let mut buffer = [0u8; 32];
    let frame = serialize_trade_notification(&n, &mut buffer);
    assert_eq!(&frame[10..18], &[0xFF; 8]);
    assert_eq!(decode_trade_notification(&frame), Some(n));
}

#[test]
fn corrupt_notification_frame_is_rejected() {
    let n = TradeNotification {
        d_order_id: 5,
        d_counter_party: Some(6),
        d_price: 7,
        d_filled_quantity: 8,
        d_fully_filled: true,
    };
    let mut buffer = [0u8; 32];
    let mut frame = serialize_trade_notification(&n, &mut buffer);
    frame[20] ^= 1;
    assert_eq!(decode_trade_notification(&frame), None);
    assert_eq!(decode_trade_notification(&frame[..31]), None);
}

#[test]
fn envelopes_decode_in_order() {
    let a = TradeNotification {
        d_order_id: 1,
        d_counter_party: Some(2),
        d_price: 10,
        d_filled_quantity: 5,
        d_fully_filled: true,
    };
    let b = TradeNotification {
        d_order_id: 2,
        d_counter_party: Some(1),
        d_price: 10,
        d_filled_quantity: 5,
        d_fully_filled: false,
    };
    let mut bytes = envelope_trade_notification(&a);
    assert_eq!(&bytes[..4], &32u32.to_be_bytes());
    assert_eq!(bytes.len(), 36);
    bytes.extend(envelope_trade_notification(&b));
    bytes.extend([0u8, 0, 0]);
    assert_eq!(deserialize_trade_information(bytes), vec![a, b]);
}

#[test]
fn crc_of_data_validates() {
    let data = b"any bytes at all";
    let crc = compute_crc(data).to_le_bytes();
    assert!(validate_crc(data, &crc));
}

#[test]
fn parse_order_reads_a_limit_record() {
    let r = record(1, 1, 5, 10);
    assert_eq!(
        parse_order(&r),
        Some(OrderRequest {
            d_side: Side::Buy,
            d_price: 10,
            d_quantity: 5,
            d_order_type: OrderType::GoodTillCancel,
        })
    );
    let r = record(4, 0, 3, 12);
    assert_eq!(
        parse_order(&r),
        Some(OrderRequest {
            d_side: Side::Sell,
            d_price: 12,
            d_quantity: 3,
            d_order_type: OrderType::FillOrKill,
        })
    );
}

#[test]
fn parse_order_ignores_market_price() {
    let r = record(8, 0, 4, 99);
    assert_eq!(
        parse_order(&r),
        Some(OrderRequest {
            d_side: Side::Sell,
            d_price: 0,
            d_quantity: 4,
            d_order_type: OrderType::Market,
        })
    );
}

#[test]
fn parse_order_rejects_unknown_kinds() {
    for kind in [0u8, 3, 5, 16, 255] {
        assert_eq!(parse_order(&record(kind, 1, 5, 10)), None);
    }
}

#[test]
fn parse_order_rejects_bad_crc_and_empty_quantity() {
    let mut r = record(1, 1, 5, 10);
    r[10] ^= 0xFF;
    assert_eq!(parse_order(&r), None);
    assert_eq!(parse_order(&record(1, 1, 0, 10)), None);
    assert_eq!(parse_order(&record(2, 1, 5, 0)), None);
}

#[test]
fn request_records_parse_back() {
    let requests = [
        OrderRequest::new(Side::Buy, 10, 5, OrderType::GoodTillCancel).unwrap(),
        OrderRequest::new(Side::Sell, 11, 2, OrderType::FillAndKill).unwrap(),
        OrderRequest::market_order_request(Side::Buy, 7).unwrap(),
    ];
    for req in requests {
        let bytes = serialize_request(&req);
        let arr: [u8; 16] = bytes.as_slice().try_into().unwrap();
        assert_eq!(parse_order(&arr), Some(req));
    }
}

#[test]
fn header_with_no_orders_is_legal() {
    let h = header(16, 0);
    assert_eq!(parse_header(&h).unwrap(), (16, 0));
    let (valid, invalid) = deserialize_stream(&h, 0).unwrap();
    assert!(valid.is_empty());
    assert!(invalid.is_empty());
}

#[test]
fn header_errors() {
    let mut h = header(48, 2);
    h[4] = 0;
    assert!(matches!(parse_header(&h), Err(ProtocolError::ContentError(_))));
    let h = header(2 * 1024 * 1024, 1);
    assert_eq!(parse_header(&h), Err(ProtocolError::MessageTooLarge(2 * 1024 * 1024)));
    let mut h = header(48, 2);
    h[11] ^= 1;
    assert!(matches!(parse_header(&h), Err(ProtocolError::ContentError(_))));
    let h = header(8, 0);
    assert!(matches!(parse_header(&h), Err(ProtocolError::ContentError(_))));
    let h = header(1024 * 1024, 3);
    assert_eq!(parse_header(&h), Ok((1024 * 1024, 3)));
}

#[test]
fn stream_with_one_corrupt_record() {
    let mut data = header(64, 3).to_vec();
    data.extend(record(1, 1, 5, 10));
    let mut bad = record(1, 0, 5, 10);
    bad[12] ^= 0x10;
    data.extend(bad);
    data.extend(record(8, 0, 2, 0));
    let (valid, invalid) = deserialize_stream(&data, 3).unwrap();
    assert_eq!(valid.len(), 2);
    assert_eq!(valid[0].d_side, Side::Buy);
    assert_eq!(valid[1].d_order_type, OrderType::Market);
    assert_eq!(invalid, vec![1]);
}

#[test]
fn stream_cut_short_reports_first_missing_index() {
    let mut data = header(64, 3).to_vec();
    data.extend(record(1, 1, 5, 10));
    data.extend([0u8; 7]);
    let (valid, invalid) = deserialize_stream(&data, 3).unwrap();
    assert_eq!(valid.len(), 1);
    assert_eq!(invalid, vec![1]);
}

#[test]
fn serialized_stream_decodes_to_its_requests() {
    let requests = vec![
        OrderRequest::new(Side::Buy, 10, 5, OrderType::GoodTillCancel).unwrap(),
        OrderRequest::market_order_request(Side::Sell, 3).unwrap(),
    ];
    let bytes = serialize_stream(&requests);
    assert_eq!(bytes.len(), 48);
    let h: [u8; 16] = bytes[..16].try_into().unwrap();
    assert_eq!(parse_header(&h), Ok((48, 2)));
    let (valid, invalid) = deserialize_stream(&bytes, 2).unwrap();
    assert_eq!(valid, requests);
    assert!(invalid.is_empty());
}

#[test]
fn rejected_indices_are_listed() {
    assert_eq!(rejected_indices_text(&vec![1]), b"1".to_vec());
    assert_eq!(rejected_indices_text(&vec![1, 4, 70]), b"1, 4, 70".to_vec());
    assert_eq!(rejected_indices_text(&vec![0, 4294967295]), b"0, 4294967295".to_vec());
    assert!(rejected_indices_text(&vec![]).is_empty());
}
