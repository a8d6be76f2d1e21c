//! The wire format: order records and the submission header from clients,
//! notification frames to clients.
use vstd::prelude::*;

use crate::crc::{compute_crc, crc32c, validate_crc};
use crate::order::request_ok;
use crate::types::{OrderRequest, OrderType, ProtocolError, Side, TradeNotification};
use crate::wire::{
    be_bytes32, be_u32, le_bytes32, le_bytes64, le_u32, le_u64, lemma_le_u32_round_trip,
    lemma_le_u64_round_trip, push_u32_le, push_u64_le, read_u32_be, read_u32_le, read_u64_le,
};

verus! {

/// The largest submission a client may send, header included.
pub const MAX_MESSAGE_SIZE: usize = 1048576;

/// The size of the submission header and of each order record.
pub const RECORD_LEN: usize = 16;

/// The size of a notification frame.
pub const FRAME_LEN: usize = 32;

/// The counter-party field of a notification that has none.
pub const NO_COUNTER_PARTY: u64 = 0xFFFF_FFFF_FFFF_FFFF;

/// The order type that a record's first byte names.
pub open spec fn kind_of_byte(b: u8) -> Option<OrderType> {
    if b == 1 {
        Some(OrderType::GoodTillCancel)
    } else if b == 2 {
        Some(OrderType::FillAndKill)
    } else if b == 4 {
        Some(OrderType::FillOrKill)
    } else if b == 8 {
        Some(OrderType::Market)
    } else {
        None
    }
}

pub open spec fn byte_of_kind(k: OrderType) -> u8 {
    match k {
        OrderType::GoodTillCancel => 1,
        OrderType::FillAndKill => 2,
        OrderType::FillOrKill => 4,
        OrderType::Market => 8,
    }
}

/// What a 16-byte order record stands for: `None` when its CRC is wrong,
/// its kind byte unknown, or the request it spells is not admissible.
/// A market record's price field is ignored.
pub open spec fn decode_record(rec: Seq<u8>) -> Option<OrderRequest> {
    if le_u32(rec.subrange(10, 14)) != crc32c(rec.subrange(0, 10)) {
        None
    } else {
        match kind_of_byte(rec[0]) {
            None => None,
            Some(kind) => {
                let req = OrderRequest {
                    d_side: if rec[1] != 0 {
                        Side::Buy
                    } else {
                        Side::Sell
                    },
                    d_price: if kind == OrderType::Market {
                        0
                    } else {
                        le_u32(rec.subrange(6, 10))
                    },
                    d_quantity: le_u32(rec.subrange(2, 6)),
                    d_order_type: kind,
                };
                if request_ok(req) {
                    Some(req)
                } else {
                    None
                }
            },
        }
    }
}

/// Parse one order record.
pub fn parse_order(data_stream: &[u8; 16]) -> (r: Option<OrderRequest>)
    ensures
        r == decode_record(data_stream@),
{
    let rec: &[u8] = data_stream.as_slice();
    if !validate_crc(&rec[0..10], &rec[10..14]) {
        return None;
    }
    assert(rec@.subrange(10, 14).subrange(0, 4) =~= rec@.subrange(10, 14));
    let order_type = match rec[0] {
        1u8 => OrderType::GoodTillCancel,
        2u8 => OrderType::FillAndKill,
        4u8 => OrderType::FillOrKill,
        8u8 => OrderType::Market,
        _ => return None,
    };
    let side = if rec[1] != 0 {
        Side::Buy
    } else {
        Side::Sell
    };
    let quantity = read_u32_le(rec, 2);
    if order_type == OrderType::Market {
        return OrderRequest::market_order_request(side, quantity).ok();
    }
    let price = read_u32_le(rec, 6);
    OrderRequest::new(side, price, quantity, order_type).ok()
}

/// The `i`-th order record of a submission, which begins with its header.
pub open spec fn record_at(data: Seq<u8>, i: int) -> Seq<u8> {
    data.subrange(16 + 16 * i, 32 + 16 * i)
}

/// The accepted requests and the rejected indices among the first `k`
/// records.
pub open spec fn decode_records(data: Seq<u8>, k: nat) -> (Seq<OrderRequest>, Seq<u32>)
    decreases k,
{
    if k == 0 {
        (Seq::empty(), Seq::empty())
    } else {
        let (ok, bad) = decode_records(data, (k - 1) as nat);
        match decode_record(record_at(data, k - 1)) {
            Some(req) => (ok.push(req), bad),
            None => (ok, bad.push((k - 1) as u32)),
        }
    }
}

/// The number of complete records that follow the header.
pub open spec fn complete_records(data: Seq<u8>) -> nat {
    if data.len() < 16 {
        0
    } else {
        ((data.len() - 16) / 16) as nat
    }
}

/// A submission of `count` records decoded: every complete record up to
/// `count` is accepted or rejected by index; when the data stops short, the
/// index of the first missing record is rejected too.
pub open spec fn decode_submission(data: Seq<u8>, count: nat) -> (Seq<OrderRequest>, Seq<u32>) {
    if count <= complete_records(data) {
        decode_records(data, count)
    } else {
        let (ok, bad) = decode_records(data, complete_records(data));
        (ok, bad.push(complete_records(data) as u32))
    }
}

/// Decode the order records of a submission (header included) into the
/// accepted requests and the indices of the rejected records.
pub fn deserialize_stream(data_stream: &[u8], order_amount: u32) -> (r: Result<
    (Vec<OrderRequest>, Vec<u32>),
    ProtocolError,
>)
    ensures
        r is Ok,
        r is Ok ==> (r->Ok_0.0@, r->Ok_0.1@) == decode_submission(
            data_stream@,
            order_amount as nat,
        ),
{
    let mut invalid_orders: Vec<u32> = Vec::new();
    let mut order_requests: Vec<OrderRequest> = Vec::new();
    let mut index: u32 = 0;
    while index < order_amount
        invariant
            index <= order_amount,
            index <= complete_records(data_stream@),
            (order_requests@, invalid_orders@) == decode_records(data_stream@, index as nat),
        ensures
            (order_requests@, invalid_orders@) == decode_submission(
                data_stream@,
                order_amount as nat,
            ),
        decreases order_amount - index,
    {
        if data_stream.len() < 16 || (data_stream.len() - 16) / 16 <= index as usize {
            assert(index == complete_records(data_stream@));
            invalid_orders.push(index);
            return Ok((order_requests, invalid_orders));
        }
        let offset: usize = 16 + 16 * (index as usize);
        let mut record: [u8; 16] = [0u8; 16];
        let mut j: usize = 0;
        while j < 16
            invariant
                j <= 16,
                offset + 16 <= data_stream@.len(),
                offset == 16 + 16 * index,
                forall|t: int| 0 <= t < j ==> record@[t] == data_stream@[offset + t],
            decreases 16 - j,
        {
            record[j] = data_stream[offset + j];
            j = j + 1;
        }
        assert(record@ =~= record_at(data_stream@, index as int));
        match parse_order(&record) {
            Some(order) => order_requests.push(order),
            None => invalid_orders.push(index),
        }
        index = index + 1;
    }
    Ok((order_requests, invalid_orders))
}

/// The header is refused when its marker bytes are not both `0xFF`.
pub open spec fn header_marker_ok(h: Seq<u8>) -> bool {
    h[4] == 0xFF && h[5] == 0xFF
}

/// Check a submission header and return the submission's total length and
/// its number of order records. The checks run in this order: marker,
/// size limit, CRC, and a length too short to hold the header itself.
pub fn parse_header(header: &[u8; 16]) -> (r: Result<(u32, u32), ProtocolError>)
    ensures
        !header_marker_ok(header@) ==> r matches Err(ProtocolError::ContentError(_)),
        header_marker_ok(header@) && le_u32(header@) > MAX_MESSAGE_SIZE ==> r == Err::<
            (u32, u32),
            ProtocolError,
        >(ProtocolError::MessageTooLarge(le_u32(header@) as usize)),
        header_marker_ok(header@) && le_u32(header@) <= MAX_MESSAGE_SIZE && le_u32(
            header@.subrange(10, 14),
        ) != crc32c(header@.subrange(0, 10)) ==> r matches Err(ProtocolError::ContentError(_)),
        header_marker_ok(header@) && le_u32(header@) <= MAX_MESSAGE_SIZE && le_u32(
            header@.subrange(10, 14),
        ) == crc32c(header@.subrange(0, 10)) && le_u32(header@) < 16 ==> r matches Err(
            ProtocolError::ContentError(_),
        ),
        header_marker_ok(header@) && le_u32(header@) <= MAX_MESSAGE_SIZE && le_u32(
            header@.subrange(10, 14),
        ) == crc32c(header@.subrange(0, 10)) && le_u32(header@) >= 16 ==> r == Ok::<
            (u32, u32),
            ProtocolError,
        >((le_u32(header@), le_u32(header@.subrange(6, 10)))),
{
    let h: &[u8] = header.as_slice();
    if h[4] != 0xFF || h[5] != 0xFF {
        return Err(ProtocolError::ContentError("Missing separator".to_owned()));
    }
    let message_len = read_u32_le(h, 0);
    assert(h@.subrange(0, 4) =~= h@.subrange(0, 4));
    assert(le_u32(h@.subrange(0, 4)) == le_u32(h@));
    let order_amount = read_u32_le(h, 6);
    if message_len as usize > MAX_MESSAGE_SIZE {
        return Err(ProtocolError::MessageTooLarge(message_len as usize));
    }
    if !validate_crc(&h[0..10], &h[10..14]) {
        assert(h@.subrange(10, 14).subrange(0, 4) =~= h@.subrange(10, 14));
        return Err(ProtocolError::ContentError("Invalid CRC for header".to_owned()));
    }
    assert(h@.subrange(10, 14).subrange(0, 4) =~= h@.subrange(10, 14));
    if message_len < 16 {
        return Err(ProtocolError::ContentError("Message shorter than its header".to_owned()));
    }
    assert(h@.subrange(6, 10).subrange(0, 4) =~= h@.subrange(6, 10));
    Ok((message_len, order_amount))
}

/// The counter-party as it goes on the wire.
pub open spec fn counter_party_word(c: Option<u64>) -> u64 {
    match c {
        Some(id) => id,
        None => NO_COUNTER_PARTY,
    }
}

/// The first 27 bytes of a notification frame, which its CRC covers.
pub open spec fn frame_body(n: TradeNotification) -> Seq<u8> {
    seq![1u8, 32u8] + le_bytes64(n.d_order_id) + le_bytes64(counter_party_word(n.d_counter_party))
        + le_bytes32(n.d_price) + le_bytes32(n.d_filled_quantity) + seq![
        if n.d_fully_filled {
            1u8
        } else {
            0u8
        },
    ]
}

/// The 32-byte notification frame: body, CRC of the body, one pad byte.
pub open spec fn notification_frame(n: TradeNotification) -> Seq<u8> {
    frame_body(n) + le_bytes32(crc32c(frame_body(n))) + seq![0u8]
}

/// What a 32-byte frame stands for: `None` unless type and length bytes
/// are 1 and 32, the CRC matches and the filled flag is 0 or 1.
pub open spec fn decode_frame(f: Seq<u8>) -> Option<TradeNotification> {
    if f.len() != 32 || f[0] != 1 || f[1] != 32 || le_u32(f.subrange(27, 31)) != crc32c(
        f.subrange(0, 27),
    ) || f[26] > 1 {
        None
    } else {
        let cp = le_u64(f.subrange(10, 18));
        Some(
            TradeNotification {
                d_order_id: le_u64(f.subrange(2, 10)),
                d_counter_party: if cp == NO_COUNTER_PARTY {
                    None
                } else {
                    Some(cp)
                },
                d_price: le_u32(f.subrange(18, 22)),
                d_filled_quantity: le_u32(f.subrange(22, 26)),
                d_fully_filled: f[26] == 1,
            },
        )
    }
}

fn frame_bytes(trade_notification: &TradeNotification) -> (r: Vec<u8>)
    ensures
        r@ == notification_frame(*trade_notification),
{
    let mut body: Vec<u8> = Vec::new();
    body.push(1u8);
    body.push(32u8);
    push_u64_le(&mut body, trade_notification.d_order_id);
    let counter_party: u64 = match trade_notification.d_counter_party {
        Some(id) => id,
        None => NO_COUNTER_PARTY,
    };
    push_u64_le(&mut body, counter_party);
    push_u32_le(&mut body, trade_notification.d_price);
    push_u32_le(&mut body, trade_notification.d_filled_quantity);
    body.push(if trade_notification.d_fully_filled { 1u8 } else { 0u8 });
    assert(body@ =~= frame_body(*trade_notification));
    let crc = compute_crc(body.as_slice());
    push_u32_le(&mut body, crc);
    body.push(0u8);
    body
}

/// Write the frame of a notification into `buffer` and return a copy.
pub fn serialize_trade_notification(
    trade_notification: &TradeNotification,
    buffer: &mut [u8; 32],
) -> (r: [u8; 32])
    ensures
        final(buffer)@ == notification_frame(*trade_notification),
        r@ == notification_frame(*trade_notification),
{
    let frame = frame_bytes(trade_notification);
    let mut i: usize = 0;
    while i < 32
        invariant
            i <= 32,
            frame@ == notification_frame(*trade_notification),
            frame@.len() == 32,
            buffer@.len() == 32,
            forall|t: int| 0 <= t < i ==> buffer@[t] == frame@[t],
        decreases 32 - i,
    {
        buffer[i] = frame[i];
        i = i + 1;
    }
    assert(buffer@ =~= frame@);
    *buffer
}

/// The notification in a 32-byte frame, or `None` when the frame is
/// malformed.
pub fn decode_trade_notification(frame: &[u8]) -> (r: Option<TradeNotification>)
    ensures
        r == decode_frame(frame@),
{
    if frame.len() != 32 || frame[0] != 1 || frame[1] != 32 {
        return None;
    }
    if !validate_crc(&frame[0..27], &frame[27..31]) {
        assert(frame@.subrange(27, 31).subrange(0, 4) =~= frame@.subrange(27, 31));
        return None;
    }
    assert(frame@.subrange(27, 31).subrange(0, 4) =~= frame@.subrange(27, 31));
    if frame[26] > 1 {
        return None;
    }
    let cp = read_u64_le(frame, 10);
    Some(
        TradeNotification {
            d_order_id: read_u64_le(frame, 2),
            d_counter_party: if cp == NO_COUNTER_PARTY {
                None
            } else {
                Some(cp)
            },
            d_price: read_u32_le(frame, 18),
            d_filled_quantity: read_u32_le(frame, 22),
            d_fully_filled: frame[26] == 1,
        },
    )
}

/// Decoding the frame of a notification gives the notification back, for
/// every notification whose counter-party is not the sentinel value
/// (`None` itself included).
pub proof fn lemma_notification_round_trip(n: TradeNotification)
    requires
        n.d_counter_party != Some(NO_COUNTER_PARTY),
    ensures
        decode_frame(notification_frame(n)) == Some(n),
{
    let f = notification_frame(n);
    let body = frame_body(n);
    assert(f.subrange(0, 27) =~= body);
    assert(f.subrange(27, 31) =~= le_bytes32(crc32c(body)));
    assert(f.subrange(2, 10) =~= le_bytes64(n.d_order_id));
    assert(f.subrange(10, 18) =~= le_bytes64(counter_party_word(n.d_counter_party)));
    assert(f.subrange(18, 22) =~= le_bytes32(n.d_price));
    assert(f.subrange(22, 26) =~= le_bytes32(n.d_filled_quantity));
    lemma_le_u32_round_trip(crc32c(body));
    lemma_le_u64_round_trip(n.d_order_id);
    lemma_le_u64_round_trip(counter_party_word(n.d_counter_party));
    lemma_le_u32_round_trip(n.d_price);
    lemma_le_u32_round_trip(n.d_filled_quantity);
}

/// A notification as it goes on the wire: a big-endian length prefix of
/// 32, then the frame.
pub open spec fn notification_envelope(n: TradeNotification) -> Seq<u8> {
    be_bytes32(32) + notification_frame(n)
}

/// Frame a notification for the wire.
pub fn envelope_trade_notification(trade_notification: &TradeNotification) -> (r: Vec<u8>)
    ensures
        r@ == notification_envelope(*trade_notification),
{
    let mut out: Vec<u8> = Vec::new();
    out.push(0u8);
    out.push(0u8);
    out.push(0u8);
    out.push(32u8);
    assert(out@ =~= be_bytes32(32)) by {
        assert((32u32 >> 24u32) as u8 == 0u8) by (bit_vector);
        assert((32u32 >> 16u32) as u8 == 0u8) by (bit_vector);
        assert((32u32 >> 8u32) as u8 == 0u8) by (bit_vector);
        assert(32u32 as u8 == 32u8) by (bit_vector);
    }
    let mut frame = frame_bytes(trade_notification);
    out.append(&mut frame);
    out
}

/// The notifications in a stream of enveloped frames, up to the first
/// envelope that is cut short, has another length, or holds a malformed
/// frame.
pub open spec fn decode_envelopes(s: Seq<u8>) -> Seq<TradeNotification>
    decreases s.len(),
{
    if s.len() < 36 || be_u32(s.subrange(0, 4)) != 32 {
        Seq::empty()
    } else {
        match decode_frame(s.subrange(4, 36)) {
            Some(n) => seq![n] + decode_envelopes(s.subrange(36, s.len() as int)),
            None => Seq::empty(),
        }
    }
}

/// Decode the notifications a client receives.
pub fn deserialize_trade_information(bytes: Vec<u8>) -> (r: Vec<TradeNotification>)
    ensures
        r@ == decode_envelopes(bytes@),
{
    let mut out: Vec<TradeNotification> = Vec::new();
    let mut offset: usize = 0;
    assert(bytes@.subrange(0, bytes@.len() as int) =~= bytes@);
    while offset <= bytes.len()
        invariant
            offset <= bytes@.len(),
            out@ + decode_envelopes(bytes@.subrange(offset as int, bytes@.len() as int))
                == decode_envelopes(bytes@),
        ensures
            out@ == decode_envelopes(bytes@),
        decreases bytes@.len() - offset,
    {
        let ghost rest = bytes@.subrange(offset as int, bytes@.len() as int);
        if bytes.len() - offset < 36 {
            assert(out@ + decode_envelopes(rest) =~= out@);
            break;
        }
        assert(rest.subrange(0, 4) =~= bytes@.subrange(offset as int, offset + 4));
        assert(rest.subrange(4, 36) =~= bytes@.subrange(offset + 4, offset + 36));
        assert(rest.subrange(36, rest.len() as int) =~= bytes@.subrange(
            offset + 36,
            bytes@.len() as int,
        ));
        if read_u32_be(bytes.as_slice(), offset) != 32 {
            assert(out@ + decode_envelopes(rest) =~= out@);
            break;
        }
        match decode_trade_notification(&bytes.as_slice()[offset + 4..offset + 36]) {
            Some(n) => {
                assert(out@.push(n) + decode_envelopes(rest.subrange(36, rest.len() as int))
                    =~= out@ + decode_envelopes(rest));
                out.push(n);
            },
            None => {
                assert(out@ + decode_envelopes(rest) =~= out@);
                break;
            },
        }
        offset = offset + 36;
    }
    out
}

/// The 16-byte record of an order request.
pub open spec fn record_body(r: OrderRequest) -> Seq<u8> {
    seq![byte_of_kind(r.d_order_type), if r.d_side == Side::Buy {
        1u8
    } else {
        0u8
    }] + le_bytes32(r.d_quantity) + le_bytes32(r.d_price)
}

pub open spec fn request_record(r: OrderRequest) -> Seq<u8> {
    record_body(r) + le_bytes32(crc32c(record_body(r))) + seq![0u8, 0u8]
}

/// Encode an order request as a record.
pub fn serialize_request(request: &OrderRequest) -> (r: Vec<u8>)
    ensures
        r@ == request_record(*request),
{
    let (side, price, quantity, order_type) = request.request();
    let mut buffer: Vec<u8> = Vec::new();
    let kind: u8 = match order_type {
        OrderType::GoodTillCancel => 1,
        OrderType::FillAndKill => 2,
        OrderType::FillOrKill => 4,
        OrderType::Market => 8,
    };
    buffer.push(kind);
    buffer.push(
        match side {
            Side::Buy => 1u8,
            Side::Sell => 0u8,
        },
    );
    push_u32_le(&mut buffer, quantity);
    push_u32_le(&mut buffer, price);
    assert(buffer@ =~= record_body(*request));
    let crc = compute_crc(buffer.as_slice());
    push_u32_le(&mut buffer, crc);
    buffer.push(0u8);
    buffer.push(0u8);
    assert(buffer@ =~= request_record(*request));
    buffer
}

/// The header of a submission.
pub open spec fn header_body(message_len: u32, count: u32) -> Seq<u8> {
    le_bytes32(message_len) + seq![0xFFu8, 0xFFu8] + le_bytes32(count)
}

pub open spec fn header_record(message_len: u32, count: u32) -> Seq<u8> {
    header_body(message_len, count) + le_bytes32(crc32c(header_body(message_len, count))) + seq![
        0u8,
        0u8,
    ]
}

/// The records of a run of requests, one after another.
pub open spec fn records_of(rs: Seq<OrderRequest>) -> Seq<u8>
    decreases rs.len(),
{
    if rs.len() == 0 {
        Seq::empty()
    } else {
        records_of(rs.drop_last()) + request_record(rs.last())
    }
}

/// Encode a whole submission: its header, then one record per request.
pub fn serialize_stream(data: &Vec<OrderRequest>) -> (r: Vec<u8>)
    requires
        16 + 16 * data@.len() <= u32::MAX,
    ensures
        r@ == header_record((16 + 16 * data@.len()) as u32, data@.len() as u32) + records_of(data@),
{
    let message_len: u32 = (16 + 16 * data.len()) as u32;
    let order_amount: u32 = data.len() as u32;
    let mut byte_stream: Vec<u8> = Vec::new();
    push_u32_le(&mut byte_stream, message_len);
    byte_stream.push(0xFFu8);
    byte_stream.push(0xFFu8);
    push_u32_le(&mut byte_stream, order_amount);
    assert(byte_stream@ =~= header_body(message_len, order_amount));
    let crc = compute_crc(byte_stream.as_slice());
    push_u32_le(&mut byte_stream, crc);
    byte_stream.push(0u8);
    byte_stream.push(0u8);
    assert(byte_stream@ =~= header_record(message_len, order_amount));
    let mut i: usize = 0;
    while i < data.len()
        invariant
            i <= data@.len(),
            byte_stream@ == header_record(message_len, order_amount) + records_of(
                data@.subrange(0, i as int),
            ),
        decreases data@.len() - i,
    {
        let mut record = serialize_request(&data[i]);
        assert(data@.subrange(0, i + 1).drop_last() =~= data@.subrange(0, i as int));
        byte_stream.append(&mut record);
        assert(byte_stream@ =~= header_record(message_len, order_amount) + records_of(
            data@.subrange(0, i + 1),
        ));
        i = i + 1;
    }
    assert(data@.subrange(0, i as int) =~= data@);
    byte_stream
}

/// A record whose kind byte is not one of 1, 2, 4, 8 never decodes.
pub proof fn law_unknown_kind_rejected(rec: Seq<u8>)
    requires
        rec.len() == 16,
        rec[0] != 1 && rec[0] != 2 && rec[0] != 4 && rec[0] != 8,
    ensures
        decode_record(rec) == None::<OrderRequest>,
{
}

/// An admissible request, encoded as a record, decodes back to itself.
pub proof fn law_request_round_trip(r: OrderRequest)
    requires
        request_ok(r),
    ensures
        decode_record(request_record(r)) == Some(r),
{
    let rec = request_record(r);
    let body = record_body(r);
    assert(rec.subrange(0, 10) =~= body);
    assert(rec.subrange(10, 14) =~= le_bytes32(crc32c(body)));
    assert(rec.subrange(2, 6) =~= le_bytes32(r.d_quantity));
    assert(rec.subrange(6, 10) =~= le_bytes32(r.d_price));
    lemma_le_u32_round_trip(crc32c(body));
    lemma_le_u32_round_trip(r.d_quantity);
    lemma_le_u32_round_trip(r.d_price);
}

/// A header built for a submission of a legal length passes every check
/// and gives back that length and record count.
pub proof fn law_header_round_trip(message_len: u32, count: u32)
    requires
        16 <= message_len <= MAX_MESSAGE_SIZE,
    ensures
        header_marker_ok(header_record(message_len, count)),
        le_u32(header_record(message_len, count)) == message_len,
        le_u32(header_record(message_len, count).subrange(10, 14)) == crc32c(
            header_record(message_len, count).subrange(0, 10),
        ),
        le_u32(header_record(message_len, count).subrange(6, 10)) == count,
{
    let h = header_record(message_len, count);
    let body = header_body(message_len, count);
    assert(h.subrange(0, 10) =~= body);
    assert(h.subrange(10, 14) =~= le_bytes32(crc32c(body)));
    assert(h.subrange(0, 4) =~= le_bytes32(message_len));
    assert(h.subrange(6, 10) =~= le_bytes32(count));
    assert(le_u32(h) == le_u32(h.subrange(0, 4)));
    lemma_le_u32_round_trip(crc32c(body));
    lemma_le_u32_round_trip(message_len);
    lemma_le_u32_round_trip(count);
}

proof fn lemma_records_of(rs: Seq<OrderRequest>)
    ensures
        records_of(rs).len() == 16 * rs.len(),
        forall|i: int|
            0 <= i < rs.len() ==> records_of(rs).subrange(16 * i, 16 * i + 16) == request_record(
                #[trigger] rs[i],
            ),
    decreases rs.len(),
{
    if rs.len() > 0 {
        let init = rs.drop_last();
        lemma_records_of(init);
        let a = records_of(init);
        let b = request_record(rs.last());
        assert(records_of(rs) == a + b);
        assert forall|i: int| 0 <= i < rs.len() implies records_of(rs).subrange(16 * i, 16 * i + 16)
            == request_record(#[trigger] rs[i]) by {
            if i < rs.len() - 1 {
                assert(rs[i] == init[i]);
                assert((a + b).subrange(16 * i, 16 * i + 16) =~= a.subrange(16 * i, 16 * i + 16));
            } else {
                assert((a + b).subrange(16 * i, 16 * i + 16) =~= b);
            }
        }
    }
}

proof fn lemma_decode_prefix(data: Seq<u8>, rs: Seq<OrderRequest>, k: nat)
    requires
        k <= rs.len(),
        forall|i: int| 0 <= i < rs.len() ==> request_ok(#[trigger] rs[i]),
        forall|i: int| 0 <= i < rs.len() ==> record_at(data, i) == request_record(#[trigger] rs[i]),
    ensures
        decode_records(data, k) == (rs.subrange(0, k as int), Seq::<u32>::empty()),
    decreases k,
{
    if k > 0 {
        lemma_decode_prefix(data, rs, (k - 1) as nat);
        law_request_round_trip(rs[k - 1]);
        assert(rs.subrange(0, k - 1).push(rs[k - 1]) =~= rs.subrange(0, k as int));
    } else {
        assert(rs.subrange(0, 0) =~= Seq::<OrderRequest>::empty());
    }
}

/// A submission encoded from admissible requests decodes to exactly those
/// requests, in order, with nothing rejected.
pub proof fn law_submission_round_trip(rs: Seq<OrderRequest>)
    requires
        forall|i: int| 0 <= i < rs.len() ==> request_ok(#[trigger] rs[i]),
        16 + 16 * rs.len() <= u32::MAX,
    ensures
        decode_submission(
            header_record((16 + 16 * rs.len()) as u32, rs.len() as u32) + records_of(rs),
            rs.len(),
        ) == (rs, Seq::<u32>::empty()),
{
    let h = header_record((16 + 16 * rs.len()) as u32, rs.len() as u32);
    let data = h + records_of(rs);
    lemma_records_of(rs);
    assert(h.len() == 16);
    assert(complete_records(data) == rs.len());
    assert forall|i: int| 0 <= i < rs.len() implies record_at(data, i) == request_record(
        #[trigger] rs[i],
    ) by {
        assert(record_at(data, i) =~= records_of(rs).subrange(16 * i, 16 * i + 16));
    }
    lemma_decode_prefix(data, rs, rs.len());
    assert(rs.subrange(0, rs.len() as int) =~= rs);
}

/// The ASCII decimal digits of `n`, most significant first.
pub open spec fn decimal(n: nat) -> Seq<u8>
    decreases n,
{
    if n < 10 {
        seq![(48 + n) as u8]
    } else {
        decimal(n / 10).push((48 + n % 10) as u8)
    }
}

/// Indices written in decimal and separated by ", ".
pub open spec fn index_list(s: Seq<u32>) -> Seq<u8>
    decreases s.len(),
{
    if s.len() == 0 {
        Seq::empty()
    } else if s.len() == 1 {
        decimal(s[0] as nat)
    } else {
        index_list(s.drop_last()) + seq![44u8, 32u8] + decimal(s.last() as nat)
    }
}

fn push_decimal(out: &mut Vec<u8>, n: u32)
    ensures
        final(out)@ == old(out)@ + decimal(n as nat),
    decreases n,
{
    if n >= 10 {
        push_decimal(out, n / 10);
    }
    out.push((48 + n % 10) as u8);
    assert(final(out)@ =~= old(out)@ + decimal(n as nat));
}

/// The rejected record indices as the report to a client lists them,
/// for example `1, 4, 7`.
pub fn rejected_indices_text(indices: &Vec<u32>) -> (r: Vec<u8>)
    ensures
        r@ == index_list(indices@),
{
    let mut out: Vec<u8> = Vec::new();
    let mut i: usize = 0;
    while i < indices.len()
        invariant
            i <= indices@.len(),
            out@ == index_list(indices@.subrange(0, i as int)),
        decreases indices@.len() - i,
    {
        let ghost before = out@;
        assert(indices@.subrange(0, i + 1).drop_last() =~= indices@.subrange(0, i as int));
        if i > 0 {
            out.push(44u8);
            out.push(32u8);
        }
        push_decimal(&mut out, indices[i]);
        if i > 0 {
            assert(out@ =~= before + seq![44u8, 32u8] + decimal(indices@[i as int] as nat));
        } else {
            assert(out@ =~= decimal(indices@[0] as nat));
        }
        i = i + 1;
    }
    assert(indices@.subrange(0, i as int) =~= indices@);
    out
}

} // verus!
