//! Price-time priority matching of an aggressor against one side of the
//! book, stated as a walk over that side's orders in priority order.
use vstd::prelude::*;

use crate::level_info::count_in;
use crate::trades::{fill_trade, trade_between};
use crate::types::{Order, OrderType, PriceLevelInfo, Side, TradeInfo, Trades};

verus! {

pub open spec fn opposite(s: Side) -> Side {
    match s {
        Side::Buy => Side::Sell,
        Side::Sell => Side::Buy,
    }
}

/// Whether an aggressor on `side` with price limit `limit` crosses a
/// resting price `p`; crossing is inclusive.
pub open spec fn crosses(side: Side, limit: u32, p: u32) -> bool {
    match side {
        Side::Buy => p <= limit,
        Side::Sell => p >= limit,
    }
}

/// The price limit an order matches up to; a market order has none.
pub open spec fn limit_of(o: Order) -> u32 {
    if o.d_order_type == OrderType::Market {
        match o.d_side {
            Side::Buy => u32::MAX,
            Side::Sell => 0,
        }
    } else {
        o.d_price
    }
}

/// `(id, remaining quantity, price, side)`, the part of an order a trade reads.
pub open spec fn order_tuple(o: Order) -> (u64, u32, u32, Side) {
    (o.d_id, o.d_remaining_quantity, o.d_price, o.d_side)
}

/// Whether `a` goes before `b` on a side resting orders of `side`: a
/// better price first (higher for bids, lower for asks), and at one price
/// the earlier (smaller) id.
pub open spec fn ahead(side: Side, a: Order, b: Order) -> bool {
    match side {
        Side::Buy => a.d_price > b.d_price || (a.d_price == b.d_price && a.d_id < b.d_id),
        Side::Sell => a.d_price < b.d_price || (a.d_price == b.d_price && a.d_id < b.d_id),
    }
}

/// The orders of one side stand in strict price-time priority.
pub open spec fn in_priority_order(s: Seq<Order>, side: Side) -> bool {
    forall|i: int, j: int| 0 <= i < j < s.len() ==> #[trigger] ahead(side, s[i], s[j])
}

/// Every order of one side belongs to it, is valid, and has something left.
pub open spec fn resting_ok(s: Seq<Order>, side: Side) -> bool {
    forall|i: int|
        0 <= i < s.len() ==> {
            &&& (#[trigger] s[i]).d_side == side
            &&& s[i].d_valid
            &&& 0 < s[i].d_remaining_quantity <= s[i].d_initial_quantity
        }
}

/// The number of orders at price `p`.
pub open spec fn count_at(s: Seq<Order>, p: u32) -> nat
    decreases s.len(),
{
    if s.len() == 0 {
        0
    } else {
        (if s[0].d_price == p {
            1nat
        } else {
            0nat
        }) + count_at(s.drop_first(), p)
    }
}

/// The level counts agree with the orders of the side.
pub open spec fn counts_match(counts: Map<u32, u64>, s: Seq<Order>) -> bool {
    forall|p: u32| #[trigger] count_in(counts, p) == count_at(s, p)
}

/// The remaining quantity of the orders an aggressor on `side` with
/// limit `limit` crosses.
pub open spec fn crossable_quantity(s: Seq<Order>, side: Side, limit: u32) -> nat
    decreases s.len(),
{
    if s.len() == 0 {
        0
    } else {
        (if crosses(side, limit, s[0].d_price) {
            s[0].d_remaining_quantity as nat
        } else {
            0nat
        }) + crossable_quantity(s.drop_first(), side, limit)
    }
}

/// The walk of an aggressor `agg = (id, remaining, price, side)` over the
/// resting orders `rest`, best first: each crossed order trades the
/// smaller of the two quantities at its own price and leaves when filled.
/// Returns the trades in order, the orders left, and what remains of the
/// aggressor.
pub open spec fn match_walk(rest: Seq<Order>, agg: (u64, u32, u32, Side), limit: u32) -> (
    Seq<Trades>,
    Seq<Order>,
    u32,
)
    decreases rest.len(),
{
    if agg.1 == 0 || rest.len() == 0 || !crosses(agg.3, limit, rest[0].d_price) {
        (Seq::empty(), rest, agg.1)
    } else {
        let r = rest[0];
        let t = trade_between(order_tuple(r), agg);
        if r.d_remaining_quantity <= agg.1 {
            let next = match_walk(
                rest.drop_first(),
                (agg.0, (agg.1 - r.d_remaining_quantity) as u32, agg.2, agg.3),
                limit,
            );
            (seq![t] + next.0, next.1, next.2)
        } else {
            (
                seq![t],
                rest.update(0, Order { d_remaining_quantity: (r.d_remaining_quantity - agg.1) as u32, ..r }),
                0,
            )
        }
    }
}

/// Total quantity of a run of trades.
pub open spec fn traded(ts: Seq<Trades>) -> nat
    decreases ts.len(),
{
    if ts.len() == 0 {
        0
    } else {
        traded(ts.drop_last()) + ts.last().d_quantity as nat
    }
}

/// Total money of a run of trades.
pub open spec fn trade_value(ts: Seq<Trades>) -> nat
    decreases ts.len(),
{
    if ts.len() == 0 {
        0
    } else {
        trade_value(ts.drop_last()) + (ts.last().d_quantity as nat) * (ts.last().d_price as nat)
    }
}

pub open spec fn trade_prices(ts: Seq<Trades>) -> Seq<u32> {
    ts.map_values(|t: Trades| t.d_price)
}

/// Same order, possibly with less left to fill.
pub open spec fn same_order(a: Order, b: Order) -> bool {
    &&& a.d_id == b.d_id
    &&& a.d_price == b.d_price
    &&& a.d_side == b.d_side
    &&& a.d_initial_quantity == b.d_initial_quantity
    &&& a.d_order_type == b.d_order_type
}

/// `after` is what is left of `before` when matching takes from the front:
/// it lines up with the end of `before`.
pub open spec fn suffix_of(after: Seq<Order>, before: Seq<Order>) -> bool {
    &&& after.len() <= before.len()
    &&& forall|i: int|
        0 <= i < after.len() ==> same_order(#[trigger] after[i], before[i + before.len() - after.len()])
}

pub proof fn lemma_traded_push(ts: Seq<Trades>, t: Trades)
    ensures
        traded(ts.push(t)) == traded(ts) + t.d_quantity,
        trade_value(ts.push(t)) == trade_value(ts) + t.d_quantity * t.d_price,
{
    assert(ts.push(t).drop_last() =~= ts);
}

/// What the walk trades and what it leaves of the aggressor add up to the
/// aggressor's quantity, and the walk never trades more than the crossed
/// resting quantity.
pub proof fn lemma_walk_traded(rest: Seq<Order>, agg: (u64, u32, u32, Side), limit: u32)
    ensures
        traded(match_walk(rest, agg, limit).0) + match_walk(rest, agg, limit).2 == agg.1,
        traded(match_walk(rest, agg, limit).0) <= crossable_quantity(rest, agg.3, limit),
    decreases rest.len(),
{
    let w = match_walk(rest, agg, limit);
    if agg.1 == 0 || rest.len() == 0 || !crosses(agg.3, limit, rest[0].d_price) {
        assert(traded(w.0) == 0);
    } else {
        let r = rest[0];
        let t = trade_between(order_tuple(r), agg);
        if r.d_remaining_quantity <= agg.1 {
            let a2 = (agg.0, (agg.1 - r.d_remaining_quantity) as u32, agg.2, agg.3);
            let next = match_walk(rest.drop_first(), a2, limit);
            lemma_walk_traded(rest.drop_first(), a2, limit);
            lemma_traded_prepend(t, next.0);
        } else {
            assert(seq![t] =~= Seq::<Trades>::empty().push(t));
            lemma_traded_push(Seq::<Trades>::empty(), t);
        }
    }
}

pub proof fn lemma_traded_prepend(t: Trades, ts: Seq<Trades>)
    ensures
        traded(seq![t] + ts) == t.d_quantity + traded(ts),
        trade_value(seq![t] + ts) == t.d_quantity * t.d_price + trade_value(ts),
    decreases ts.len(),
{
    if ts.len() == 0 {
        assert(seq![t] + ts =~= Seq::<Trades>::empty().push(t));
        lemma_traded_push(Seq::<Trades>::empty(), t);
    } else {
        lemma_traded_prepend(t, ts.drop_last());
        assert((seq![t] + ts).drop_last() =~= seq![t] + ts.drop_last());
    }
}

/// A walk that leaves something of the aggressor stops where nothing
/// more crosses.
pub proof fn lemma_walk_stops(rest: Seq<Order>, agg: (u64, u32, u32, Side), limit: u32)
    ensures
        match_walk(rest, agg, limit).2 > 0 ==> match_walk(rest, agg, limit).1.len() == 0 || !crosses(
            agg.3,
            limit,
            match_walk(rest, agg, limit).1[0].d_price,
        ),
    decreases rest.len(),
{
    if agg.1 == 0 || rest.len() == 0 || !crosses(agg.3, limit, rest[0].d_price) {
    } else if rest[0].d_remaining_quantity <= agg.1 {
        lemma_walk_stops(
            rest.drop_first(),
            (agg.0, (agg.1 - rest[0].d_remaining_quantity) as u32, agg.2, agg.3),
            limit,
        );
    }
}

/// On a side in priority order, an order that the aggressor does not
/// cross is followed only by orders it does not cross either.
pub proof fn lemma_no_cross_after(s: Seq<Order>, side: Side, limit: u32, i: int, j: int)
    requires
        in_priority_order(s, opposite(side)),
        0 <= i <= j < s.len(),
        !crosses(side, limit, s[i].d_price),
    ensures
        !crosses(side, limit, s[j].d_price),
{
    if i < j {
        assert(ahead(opposite(side), s[i], s[j]));
    }
}

pub proof fn lemma_crossable_zero(s: Seq<Order>, side: Side, limit: u32)
    requires
        in_priority_order(s, opposite(side)),
        s.len() > 0,
        !crosses(side, limit, s[0].d_price),
    ensures
        crossable_quantity(s, side, limit) == 0,
    decreases s.len(),
{
    if s.len() > 1 {
        let t = s.drop_first();
        lemma_no_cross_after(s, side, limit, 0, 1);
        assert(in_priority_order(t, opposite(side))) by {
            assert forall|i: int, j: int| 0 <= i < j < t.len() implies #[trigger] ahead(
                opposite(side),
                t[i],
                t[j],
            ) by {
                assert(ahead(opposite(side), s[i + 1], s[j + 1]));
            }
        }
        lemma_crossable_zero(t, side, limit);
    } else {
        assert(s.drop_first().len() == 0);
        assert(crossable_quantity(s.drop_first(), side, limit) == 0);
    }
}

/// When the crossed resting quantity covers the aggressor, the walk fills
/// it completely.
pub proof fn lemma_walk_fills(rest: Seq<Order>, agg: (u64, u32, u32, Side), limit: u32)
    requires
        in_priority_order(rest, opposite(agg.3)),
        crossable_quantity(rest, agg.3, limit) >= agg.1,
    ensures
        match_walk(rest, agg, limit).2 == 0,
    decreases rest.len(),
{
    if agg.1 == 0 {
    } else if rest.len() == 0 {
    } else if !crosses(agg.3, limit, rest[0].d_price) {
        lemma_crossable_zero(rest, agg.3, limit);
    } else {
        let r = rest[0];
        if r.d_remaining_quantity <= agg.1 {
            let t = rest.drop_first();
            assert(in_priority_order(t, opposite(agg.3))) by {
                assert forall|i: int, j: int| 0 <= i < j < t.len() implies #[trigger] ahead(
                    opposite(agg.3),
                    t[i],
                    t[j],
                ) by {
                    assert(ahead(opposite(agg.3), rest[i + 1], rest[j + 1]));
                }
            }
            lemma_walk_fills(t, (agg.0, (agg.1 - r.d_remaining_quantity) as u32, agg.2, agg.3), limit);
        }
    }
}

/// Whether an aggressor on `side` with limit `limit` crosses price `p`.
pub fn crosses_at(side: Side, limit: u32, p: u32) -> (r: bool)
    ensures
        r == crosses(side, limit, p),
{
    match side {
        Side::Buy => p <= limit,
        Side::Sell => p >= limit,
    }
}

/// Match `order` against the resting orders of the opposite side held in
/// `price_level` (in priority order), best first, for as long as it has
/// quantity left and the next resting price crosses `price`. Filled
/// resting orders leave the side and their level count; the trades come
/// back in the order they happened, and `trade_info` accounts for them.
pub fn match_order_and_price_level(
    price_level_info: &mut PriceLevelInfo,
    trade_info: &mut TradeInfo,
    order: &mut Order,
    price: &u32,
    price_level: &mut Vec<Order>,
) -> (trades: Vec<Trades>)
    requires
        resting_ok(old(price_level)@, opposite(old(order).d_side)),
        in_priority_order(old(price_level)@, opposite(old(order).d_side)),
        counts_match(old(price_level_info)@, old(price_level)@),
        old(order).wf(),
        old(trade_info).d_quantity + old(order).d_remaining_quantity <= u32::MAX,
        old(trade_info).d_total + old(order).d_remaining_quantity * u32::MAX <= u64::MAX,
    ensures
        ({
            let w = match_walk(old(price_level)@, order_tuple(*old(order)), *price);
            &&& trades@ == w.0
            &&& final(price_level)@ == w.1
            &&& *final(order) == (Order {
                d_remaining_quantity: w.2,
                d_valid: old(order).d_valid && w.2 > 0,
                ..*old(order)
            })
        }),
        final(order).wf(),
        resting_ok(final(price_level)@, opposite(old(order).d_side)),
        in_priority_order(final(price_level)@, opposite(old(order).d_side)),
        counts_match(final(price_level_info)@, final(price_level)@),
        suffix_of(final(price_level)@, old(price_level)@),
        final(trade_info).d_prices@ == old(trade_info).d_prices@ + trade_prices(trades@),
        final(trade_info).d_quantity == old(trade_info).d_quantity + traded(trades@),
        final(trade_info).d_total == old(trade_info).d_total + trade_value(trades@),
{
    let ghost rest0 = price_level@;
    let ghost order0 = *order;
    let ghost info0_prices = trade_info.d_prices@;
    let ghost info0_qty = trade_info.d_quantity;
    let ghost info0_total = trade_info.d_total;
    let ghost side = opposite(order.d_side);
    let limit = *price;
    let mut trades: Vec<Trades> = Vec::new();
    loop
        invariant
            match_walk(rest0, order_tuple(order0), limit) == (
                trades@ + match_walk(price_level@, order_tuple(*order), limit).0,
                match_walk(price_level@, order_tuple(*order), limit).1,
                match_walk(price_level@, order_tuple(*order), limit).2,
            ),
            *order == (Order {
                d_remaining_quantity: order.d_remaining_quantity,
                d_valid: order0.d_valid && order.d_remaining_quantity > 0,
                ..order0
            }),
            order0.wf(),
            side == opposite(order0.d_side),
            traded(trades@) + order.d_remaining_quantity == order0.d_remaining_quantity,
            trade_value(trades@) <= traded(trades@) * u32::MAX,
            info0_qty + order0.d_remaining_quantity <= u32::MAX,
            info0_total + order0.d_remaining_quantity * u32::MAX <= u64::MAX,
            trade_info.d_prices@ == info0_prices + trade_prices(trades@),
            trade_info.d_quantity == info0_qty + traded(trades@),
            trade_info.d_total == info0_total + trade_value(trades@),
            resting_ok(price_level@, side),
            in_priority_order(price_level@, side),
            counts_match(price_level_info@, price_level@),
            suffix_of(price_level@, rest0),
        ensures
            order.d_remaining_quantity == 0 || price_level@.len() == 0 || !crosses(
                order.d_side,
                limit,
                price_level@[0].d_price,
            ),
        decreases price_level@.len() + order.d_remaining_quantity,
    {
        if order.d_remaining_quantity == 0 || price_level.len() == 0 {
            break;
        }
        if !crosses_at(order.d_side, limit, price_level[0].d_price) {
            break;
        }
        let ghost s = price_level@;
        let ghost old_trades = trades@;
        let resting = price_level[0];
        let agg_rem = order.d_remaining_quantity;
        let trade = fill_trade(resting.trade_info(), order.trade_info());
        let ghost w = match_walk(s, order_tuple(*order), limit);
        proof {
            lemma_traded_push(trades@, trade);
            let q = trade.d_quantity as int;
            let p = trade.d_price as int;
            let tq = traded(trades@) as int;
            let tv = trade_value(trades@) as int;
            assert(q <= agg_rem);
            assert(tv + q * p <= (tq + q) * u32::MAX) by (nonlinear_arith)
                requires
                    tv <= tq * u32::MAX,
                    0 <= q,
                    0 <= p <= u32::MAX,
            ;
            assert(info0_total + (tq + q) * u32::MAX <= info0_total + order0.d_remaining_quantity
                * u32::MAX) by (nonlinear_arith)
                requires
                    tq + q <= order0.d_remaining_quantity,
            ;
        }
        trade_info.record(trade.d_price, trade.d_quantity);
        trades.push(trade);
        assert(trade_prices(trades@) =~= trade_prices(old_trades).push(trade.d_price));
        assert(trade_info.d_prices@ =~= info0_prices + trade_prices(trades@));
        if resting.d_remaining_quantity <= agg_rem {
            let ghost info_before = price_level_info@;
            assert(count_in(info_before, resting.d_price) == count_at(s, resting.d_price));
            assert(count_at(s, resting.d_price) >= 1);
            price_level.remove(0);
            price_level_info.decrement(resting.d_price);
            order.fill(&resting.d_remaining_quantity);
            assert(price_level@ =~= s.drop_first());
            assert(old_trades.push(trade) + match_walk(price_level@, order_tuple(*order), limit).0
                =~= old_trades + w.0);
            assert forall|p: u32| #[trigger]
                count_in(price_level_info@, p) == count_at(price_level@, p) by {
                assert(count_in(info_before, p) == count_at(s, p));
                assert(count_at(s, p) == (if s[0].d_price == p {
                    1nat
                } else {
                    0nat
                }) + count_at(s.drop_first(), p));
            }
            assert(in_priority_order(price_level@, side)) by {
                assert forall|i: int, j: int| 0 <= i < j < price_level@.len() implies #[trigger] ahead(
                    side,
                    price_level@[i],
                    price_level@[j],
                ) by {
                    assert(ahead(side, s[i + 1], s[j + 1]));
                }
            }
        } else {
            let mut r = resting;
            r.fill(&agg_rem);
            price_level.set(0, r);
            order.fill(&agg_rem);
            assert(price_level@ =~= s.update(0, Order { d_remaining_quantity: (resting.d_remaining_quantity - agg_rem) as u32, ..resting }));
            assert(old_trades.push(trade) + match_walk(price_level@, order_tuple(*order), limit).0
                =~= old_trades + w.0);
            assert forall|p: u32| #[trigger]
                count_in(price_level_info@, p) == count_at(price_level@, p) by {
                assert(price_level@.drop_first() =~= s.drop_first());
                assert(count_at(s, p) == (if s[0].d_price == p {
                    1nat
                } else {
                    0nat
                }) + count_at(s.drop_first(), p));
                assert(count_at(price_level@, p) == (if price_level@[0].d_price == p {
                    1nat
                } else {
                    0nat
                }) + count_at(price_level@.drop_first(), p));
            }
            assert(in_priority_order(price_level@, side)) by {
                assert forall|i: int, j: int| 0 <= i < j < price_level@.len() implies #[trigger] ahead(
                    side,
                    price_level@[i],
                    price_level@[j],
                ) by {
                    assert(ahead(side, s[i], s[j]));
                }
            }
        }
    }
    assert(trades@ + Seq::<Trades>::empty() =~= trades@);
    trades
}

} // verus!
