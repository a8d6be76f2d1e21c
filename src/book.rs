//! The order book: two sides in price-time priority, the flat index of
//! order ids, and the valid-order count of every price level.
use vstd::prelude::*;
use std::collections::{HashMap, HashSet};

use crate::level_info::count_in;
use crate::matching::{
    ahead, count_at, counts_match, crossable_quantity, crosses, crosses_at, in_priority_order,
    lemma_walk_fills, lemma_walk_stops, lemma_walk_traded, limit_of, match_order_and_price_level,
    match_walk, opposite, order_tuple, resting_ok, same_order, trade_prices, trade_value, traded,
};
use crate::types::{Order, OrderType, PriceLevelInfo, Side, SimError, TradeInfo, Trades};

verus! {

broadcast use vstd::std_specs::hash::group_hash_axioms;

/// The book as a mathematical value.
pub struct BookView {
    /// The flat index: order id to the side and price it was admitted at.
    pub orders: Map<u64, (Side, u32)>,
    /// Resting sell orders, lowest price first, then by arrival.
    pub asks: Seq<Order>,
    /// Resting buy orders, highest price first, then by arrival.
    pub bids: Seq<Order>,
    pub ask_counts: Map<u32, u64>,
    pub bid_counts: Map<u32, u64>,
    /// One above the largest id admitted so far.
    pub next_id: u64,
    /// Every id the book has admitted, resting or not.
    pub admitted_ids: Set<u64>,
}

impl BookView {
    pub open spec fn side(&self, s: Side) -> Seq<Order> {
        match s {
            Side::Buy => self.bids,
            Side::Sell => self.asks,
        }
    }

    pub open spec fn counts(&self, s: Side) -> Map<u32, u64> {
        match s {
            Side::Buy => self.bid_counts,
            Side::Sell => self.ask_counts,
        }
    }

    /// One side is well formed: its orders are valid, in priority order,
    /// counted by their level, listed in the flat index under their side
    /// and price, and older than the next id.
    pub open spec fn side_wf(&self, s: Side) -> bool {
        let q = self.side(s);
        &&& resting_ok(q, s)
        &&& in_priority_order(q, s)
        &&& counts_match(self.counts(s), q)
        &&& forall|i: int|
            0 <= i < q.len() ==> {
                &&& self.orders.contains_key((#[trigger] q[i]).d_id)
                &&& self.orders[q[i].d_id] == (s, q[i].d_price)
                &&& q[i].d_id < self.next_id
            }
    }

    /// The best bid is below the best ask: nothing resting crosses.
    pub open spec fn uncrossed(&self) -> bool {
        self.bids.len() > 0 && self.asks.len() > 0 ==> self.bids[0].d_price < self.asks[0].d_price
    }

    /// Every id in the flat index was admitted.
    pub open spec fn index_admitted(&self) -> bool {
        forall|id: u64| #[trigger] self.orders.contains_key(id) ==> self.admitted_ids.contains(id)
    }

    pub open spec fn wf(&self) -> bool {
        self.side_wf(Side::Buy) && self.side_wf(Side::Sell) && self.uncrossed()
            && self.index_admitted()
    }

    /// Whether order `id` rests on its side of the book.
    pub open spec fn resting(&self, id: u64) -> bool {
        self.orders.contains_key(id) && position(self.side(self.orders[id].0), id) >= 0
    }
}

/// The index of the first order with id `id`, or -1.
pub open spec fn position(s: Seq<Order>, id: u64) -> int
    decreases s.len(),
{
    if s.len() == 0 {
        -1
    } else if s[0].d_id == id {
        0
    } else {
        let r = position(s.drop_first(), id);
        if r < 0 {
            -1
        } else {
            r + 1
        }
    }
}

/// Whether price `a` is strictly worse than `p` on a side resting orders of
/// `side`.
pub open spec fn worse(side: Side, a: u32, p: u32) -> bool {
    match side {
        Side::Buy => a < p,
        Side::Sell => a > p,
    }
}

/// Where a new order at price `p` joins its side: after every order at an
/// equal or better price.
pub open spec fn slot(s: Seq<Order>, side: Side, p: u32) -> nat
    decreases s.len(),
{
    if s.len() == 0 || worse(side, s[0].d_price, p) {
        0
    } else {
        1 + slot(s.drop_first(), side, p)
    }
}

/// `s` with `o` joined at the back of its price level.
pub open spec fn insert_resting(s: Seq<Order>, o: Order) -> Seq<Order> {
    s.insert(slot(s, o.d_side, o.d_price) as int, o)
}

/// An order passes the checks on entry when it is valid, its id is newer
/// than every admitted id, and, for a fill-or-kill order, the crossed
/// resting quantity covers it.
pub open spec fn admitted(v: BookView, o: Order) -> bool {
    &&& o.d_valid
    &&& v.next_id <= o.d_id < u64::MAX
    &&& o.d_order_type == OrderType::FillOrKill ==> crossable_quantity(
        v.side(opposite(o.d_side)),
        o.d_side,
        limit_of(o),
    ) >= o.d_remaining_quantity
}

pub proof fn lemma_count_le_len(s: Seq<Order>, p: u32)
    ensures
        count_at(s, p) <= s.len(),
    decreases s.len(),
{
    if s.len() > 0 {
        lemma_count_le_len(s.drop_first(), p);
    }
}

pub proof fn lemma_count_remove(s: Seq<Order>, k: int, p: u32)
    requires
        0 <= k < s.len(),
    ensures
        count_at(s, p) == count_at(s.remove(k), p) + (if s[k].d_price == p {
            1nat
        } else {
            0nat
        }),
    decreases s.len(),
{
    if k == 0 {
        assert(s.remove(0) =~= s.drop_first());
    } else {
        lemma_count_remove(s.drop_first(), k - 1, p);
        assert(s.remove(k).drop_first() =~= s.drop_first().remove(k - 1));
    }
}

pub proof fn lemma_count_insert(s: Seq<Order>, k: int, o: Order, p: u32)
    requires
        0 <= k <= s.len(),
    ensures
        count_at(s.insert(k, o), p) == count_at(s, p) + (if o.d_price == p {
            1nat
        } else {
            0nat
        }),
    decreases s.len(),
{
    if k == 0 {
        assert(s.insert(0, o).drop_first() =~= s);
    } else {
        lemma_count_insert(s.drop_first(), k - 1, o, p);
        assert(s.insert(k, o).drop_first() =~= s.drop_first().insert(k - 1, o));
    }
}

pub proof fn lemma_position(s: Seq<Order>, id: u64)
    ensures
        -1 <= position(s, id) < s.len(),
        position(s, id) >= 0 ==> s[position(s, id)].d_id == id,
        forall|j: int| 0 <= j < s.len() && (position(s, id) < 0 || j < position(s, id)) ==> s[j].d_id != id,
    decreases s.len(),
{
    if s.len() > 0 && s[0].d_id != id {
        lemma_position(s.drop_first(), id);
        assert forall|j: int| 0 <= j < s.len() && (position(s, id) < 0 || j < position(s, id)) implies s[j].d_id != id by {
            if j > 0 {
                assert(s[j] == s.drop_first()[j - 1]);
            }
        }
    }
}

pub proof fn lemma_slot(s: Seq<Order>, side: Side, p: u32)
    requires
        in_priority_order(s, side),
    ensures
        slot(s, side, p) <= s.len(),
        forall|i: int| 0 <= i < slot(s, side, p) ==> !worse(side, #[trigger] s[i].d_price, p),
        forall|i: int| slot(s, side, p) <= i < s.len() ==> worse(side, #[trigger] s[i].d_price, p),
    decreases s.len(),
{
    if s.len() > 0 {
        let t = s.drop_first();
        assert(in_priority_order(t, side)) by {
            assert forall|i: int, j: int| 0 <= i < j < t.len() implies #[trigger] ahead(side, t[i], t[j]) by {
                assert(ahead(side, s[i + 1], s[j + 1]));
            }
        }
        lemma_slot(t, side, p);
        if worse(side, s[0].d_price, p) {
            assert forall|i: int| 0 <= i < s.len() implies worse(side, #[trigger] s[i].d_price, p) by {
                if i > 0 {
                    assert(ahead(side, s[0], s[i]));
                }
            }
        } else {
            assert forall|i: int| 0 <= i < slot(s, side, p) implies !worse(side, #[trigger] s[i].d_price, p) by {
                if i > 0 {
                    assert(s[i] == t[i - 1]);
                }
            }
            assert forall|i: int| slot(s, side, p) <= i < s.len() implies worse(side, #[trigger] s[i].d_price, p) by {
                assert(s[i] == t[i - 1]);
            }
        }
    }
}

/// Joining a newer order at its slot keeps the side in priority order.
pub proof fn lemma_insert_in_order(s: Seq<Order>, o: Order)
    requires
        in_priority_order(s, o.d_side),
        forall|i: int| 0 <= i < s.len() ==> (#[trigger] s[i]).d_id < o.d_id,
    ensures
        in_priority_order(insert_resting(s, o), o.d_side),
{
    let side = o.d_side;
    let k = slot(s, side, o.d_price) as int;
    lemma_slot(s, side, o.d_price);
    let t = insert_resting(s, o);
    assert forall|i: int, j: int| 0 <= i < j < t.len() implies #[trigger] ahead(side, t[i], t[j]) by {
        if j < k {
            assert(ahead(side, s[i], s[j]));
        } else if j == k {
            assert(!worse(side, s[i].d_price, o.d_price));
        } else if i < k {
            assert(ahead(side, s[i], s[j - 1]));
        } else if i == k {
            assert(worse(side, s[j - 1].d_price, o.d_price));
        } else {
            assert(ahead(side, s[i - 1], s[j - 1]));
        }
    }
}

/// The book: the flat index, both sides and their level counts.
pub struct OrderBook {
    d_orders: HashMap<u64, (Side, u32)>,
    d_asks: Vec<Order>,
    d_bids: Vec<Order>,
    d_bids_level_info: PriceLevelInfo,
    d_asks_level_info: PriceLevelInfo,
    d_next_id: u64,
    d_admitted: HashSet<u64>,
}

impl View for OrderBook {
    type V = BookView;

    closed spec fn view(&self) -> BookView {
        BookView {
            orders: self.d_orders@,
            asks: self.d_asks@,
            bids: self.d_bids@,
            ask_counts: self.d_asks_level_info@,
            bid_counts: self.d_bids_level_info@,
            next_id: self.d_next_id,
            admitted_ids: self.d_admitted@,
        }
    }
}

/// The price limit of an order; a market order has none.
pub fn limit_for(order: &Order) -> (r: u32)
    ensures
        r == limit_of(*order),
{
    if order.d_order_type == OrderType::Market {
        match order.d_side {
            Side::Buy => u32::MAX,
            Side::Sell => 0,
        }
    } else {
        order.d_price
    }
}

fn find_position(s: &Vec<Order>, id: u64) -> (r: Option<usize>)
    ensures
        match r {
            Some(k) => k == position(s@, id),
            None => position(s@, id) < 0,
        },
{
    proof {
        lemma_position(s@, id);
    }
    let mut i: usize = 0;
    while i < s.len()
        invariant
            i <= s@.len(),
            forall|j: int| 0 <= j < i ==> s@[j].d_id != id,
            -1 <= position(s@, id) < s@.len(),
            position(s@, id) >= 0 ==> s@[position(s@, id)].d_id == id,
            forall|j: int| 0 <= j < s@.len() && (position(s@, id) < 0 || j < position(s@, id)) ==> s@[j].d_id != id,
        decreases s@.len() - i,
    {
        if s[i].d_id == id {
            return Some(i);
        }
        i = i + 1;
    }
    None
}

fn slot_for(s: &Vec<Order>, side: Side, price: u32) -> (r: usize)
    requires
        in_priority_order(s@, side),
    ensures
        r == slot(s@, side, price),
{
    proof {
        lemma_slot(s@, side, price);
    }
    let mut i: usize = 0;
    while i < s.len()
        invariant
            i <= s@.len(),
            forall|j: int| 0 <= j < i ==> !worse(side, #[trigger] s@[j].d_price, price),
            slot(s@, side, price) <= s@.len(),
            forall|j: int| 0 <= j < slot(s@, side, price) ==> !worse(side, #[trigger] s@[j].d_price, price),
            forall|j: int| slot(s@, side, price) <= j < s@.len() ==> worse(side, #[trigger] s@[j].d_price, price),
        decreases s@.len() - i,
    {
        let p = s[i].d_price;
        let is_worse = match side {
            Side::Buy => p < price,
            Side::Sell => p > price,
        };
        if is_worse {
            proof {
                let k = slot(s@, side, price) as int;
                assert(worse(side, s@[i as int].d_price, price));
                if k > i {
                    assert(!worse(side, s@[i as int].d_price, price));
                }
                if k < i {
                    assert(!worse(side, s@[k].d_price, price));
                    assert(worse(side, s@[k].d_price, price));
                }
            }
            return i;
        }
        i = i + 1;
    }
    proof {
        let k = slot(s@, side, price) as int;
        if k < i {
            assert(!worse(side, s@[k].d_price, price));
            assert(worse(side, s@[k].d_price, price));
        }
    }
    i
}

impl OrderBook {
    pub fn new() -> (r: Self)
        ensures
            r@.orders == Map::<u64, (Side, u32)>::empty(),
            r@.asks == Seq::<Order>::empty(),
            r@.bids == Seq::<Order>::empty(),
            r@.next_id == 0,
            r@.admitted_ids == Set::<u64>::empty(),
            r@.wf(),
    {
        OrderBook {
            d_orders: HashMap::new(),
            d_asks: Vec::new(),
            d_bids: Vec::new(),
            d_bids_level_info: PriceLevelInfo::new(),
            d_asks_level_info: PriceLevelInfo::new(),
            d_next_id: 0,
            d_admitted: HashSet::new(),
        }
    }

    /// The number of entries in the flat index: resting orders, and filled
    /// ones that have not been pruned yet.
    pub fn len(&self) -> (r: usize)
        ensures
            r == self@.orders.len(),
    {
        self.d_orders.len()
    }

    /// The resting orders of one side, in priority order.
    pub fn side_orders(&self, side: Side) -> (r: &Vec<Order>)
        ensures
            r@ == self@.side(side),
    {
        match side {
            Side::Buy => &self.d_bids,
            Side::Sell => &self.d_asks,
        }
    }

    /// The highest resting buy price.
    pub fn best_bid(&self) -> (r: Option<u32>)
        ensures
            self@.bids.len() == 0 ==> r == None::<u32>,
            self@.bids.len() > 0 ==> r == Some(self@.bids[0].d_price),
    {
        if self.d_bids.len() == 0 {
            None
        } else {
            Some(self.d_bids[0].d_price)
        }
    }

    /// The lowest resting sell price.
    pub fn best_ask(&self) -> (r: Option<u32>)
        ensures
            self@.asks.len() == 0 ==> r == None::<u32>,
            self@.asks.len() > 0 ==> r == Some(self@.asks[0].d_price),
    {
        if self.d_asks.len() == 0 {
            None
        } else {
            Some(self.d_asks[0].d_price)
        }
    }

    /// Whether some resting buy order bids `price` or more.
    pub fn is_in_highest_bids(&self, price: u32) -> (r: bool)
        requires
            self@.wf(),
        ensures
            r == exists|i: int| 0 <= i < self@.bids.len() && (#[trigger] self@.bids[i]).d_price >= price,
    {
        if self.d_bids.len() == 0 {
            return false;
        }
        let best = self.d_bids[0].d_price;
        proof {
            if best < price {
                assert forall|i: int| 0 <= i < self@.bids.len() implies !((#[trigger] self@.bids[i]).d_price >= price) by {
                    if i > 0 {
                        assert(ahead(Side::Buy, self@.bids[0], self@.bids[i]));
                    }
                }
            } else {
                assert(self@.bids[0].d_price >= price);
            }
        }
        best >= price
    }

    /// Whether some resting sell order asks `price` or less.
    pub fn is_in_lowest_asks(&self, price: u32) -> (r: bool)
        requires
            self@.wf(),
        ensures
            r == exists|i: int| 0 <= i < self@.asks.len() && (#[trigger] self@.asks[i]).d_price <= price,
    {
        if self.d_asks.len() == 0 {
            return false;
        }
        let best = self.d_asks[0].d_price;
        proof {
            if best > price {
                assert forall|i: int| 0 <= i < self@.asks.len() implies !((#[trigger] self@.asks[i]).d_price <= price) by {
                    if i > 0 {
                        assert(ahead(Side::Sell, self@.asks[0], self@.asks[i]));
                    }
                }
            } else {
                assert(self@.asks[0].d_price <= price);
            }
        }
        best <= price
    }

    /// Whether `order` crosses at least one resting order.
    pub fn can_match(&self, order: &Order) -> (r: bool)
        requires
            self@.wf(),
        ensures
            r == exists|i: int|
                0 <= i < self@.side(opposite(order.d_side)).len() && crosses(
                    order.d_side,
                    limit_of(*order),
                    (#[trigger] self@.side(opposite(order.d_side))[i]).d_price,
                ),
    {
        let limit = limit_for(order);
        match order.d_side {
            Side::Sell => self.is_in_highest_bids(limit),
            Side::Buy => self.is_in_lowest_asks(limit),
        }
    }

    /// Whether the resting quantity that `order` crosses covers what
    /// remains of it.
    pub fn can_match_fully(&self, order: &Order) -> (r: bool)
        ensures
            r == (crossable_quantity(
                self@.side(opposite(order.d_side)),
                order.d_side,
                limit_of(*order),
            ) >= order.d_remaining_quantity),
    {
        let quantity = order.d_remaining_quantity as u64;
        let limit = limit_for(order);
        let orders = match order.d_side {
            Side::Sell => &self.d_bids,
            Side::Buy => &self.d_asks,
        };
        let ghost s = orders@;
        let mut available_quantity: u64 = 0;
        let mut i: usize = 0;
        assert(s.subrange(0, s.len() as int) =~= s);
        while i < orders.len()
            invariant
                i <= s.len(),
                s == orders@,
                s == self@.side(opposite(order.d_side)),
                limit == limit_of(*order),
                quantity == order.d_remaining_quantity,
                available_quantity <= 2 * (u32::MAX as u64),
                available_quantity + crossable_quantity(s.subrange(i as int, s.len() as int), order.d_side, limit)
                    == crossable_quantity(s, order.d_side, limit),
            decreases s.len() - i,
        {
            if available_quantity >= quantity {
                return true;
            }
            let ghost rest = s.subrange(i as int, s.len() as int);
            assert(rest.drop_first() =~= s.subrange(i + 1, s.len() as int));
            if crosses_at(order.d_side, limit, orders[i].d_price) {
                available_quantity = available_quantity + orders[i].d_remaining_quantity as u64;
            }
            i = i + 1;
        }
        assert(s.subrange(s.len() as int, s.len() as int).len() == 0);
        available_quantity >= quantity
    }

    /// Prune a filled order from the flat index; an order that still rests
    /// is left alone.
    pub fn remove(&mut self, order_id: &u64) -> (r: Option<(Side, u32)>)
        requires
            old(self)@.wf(),
        ensures
            final(self)@.wf(),
            old(self)@.orders.contains_key(*order_id) && !old(self)@.resting(*order_id) ==> r
                == Some(old(self)@.orders[*order_id]) && final(self)@ == (BookView {
                orders: old(self)@.orders.remove(*order_id),
                ..old(self)@
            }),
            !(old(self)@.orders.contains_key(*order_id) && !old(self)@.resting(*order_id)) ==> r
                == None::<(Side, u32)> && final(self)@ == old(self)@,
    {
        let entry: (Side, u32) = match self.d_orders.get(order_id) {
            None => return None,
            Some(e) => *e,
        };
        let found = match entry.0 {
            Side::Buy => find_position(&self.d_bids, *order_id),
            Side::Sell => find_position(&self.d_asks, *order_id),
        };
        if found.is_some() {
            return None;
        }
        let ghost v = self@;
        proof {
            lemma_position(v.side(entry.0), *order_id);
        }
        self.d_orders.remove(order_id);
        assert(self@.side_wf(Side::Buy));
        assert(self@.side_wf(Side::Sell));
        Some(entry)
    }

    /// Sweep the flat index: keep the entries of resting orders and drop
    /// those of orders that were filled and not pruned yet.
    pub fn lazy_deletion(&mut self)
        requires
            old(self)@.wf(),
        ensures
            final(self)@.wf(),
            final(self)@.asks == old(self)@.asks,
            final(self)@.bids == old(self)@.bids,
            final(self)@.ask_counts == old(self)@.ask_counts,
            final(self)@.bid_counts == old(self)@.bid_counts,
            final(self)@.next_id == old(self)@.next_id,
            final(self)@.admitted_ids == old(self)@.admitted_ids,
            forall|id: u64| #[trigger] final(self)@.orders.contains_key(id) <==> old(self)@.resting(id),
            forall|id: u64| #[trigger] final(self)@.orders.contains_key(id) ==> final(self)@.orders[id]
                == old(self)@.orders[id],
    {
        let ghost v = self@;
        let mut index: HashMap<u64, (Side, u32)> = HashMap::new();
        let mut i: usize = 0;
        while i < self.d_bids.len()
            invariant
                self@ == v,
                v.wf(),
                i <= v.bids.len(),
                forall|id: u64| #[trigger] index@.contains_key(id) ==> v.orders.contains_key(id)
                    && index@[id] == v.orders[id] && v.resting(id),
                forall|j: int| 0 <= j < i ==> index@.contains_key((#[trigger] v.bids[j]).d_id),
            decreases v.bids.len() - i,
        {
            let o = self.d_bids[i];
            proof {
                assert(v.side_wf(Side::Buy));
                assert(v.orders[o.d_id] == (Side::Buy, o.d_price));
                lemma_position(v.bids, o.d_id);
            }
            index.insert(o.d_id, (Side::Buy, o.d_price));
            i = i + 1;
        }
        let mut i: usize = 0;
        while i < self.d_asks.len()
            invariant
                self@ == v,
                v.wf(),
                i <= v.asks.len(),
                forall|id: u64| #[trigger] index@.contains_key(id) ==> v.orders.contains_key(id)
                    && index@[id] == v.orders[id] && v.resting(id),
                forall|j: int| 0 <= j < v.bids.len() ==> index@.contains_key((#[trigger] v.bids[j]).d_id),
                forall|j: int| 0 <= j < i ==> index@.contains_key((#[trigger] v.asks[j]).d_id),
            decreases v.asks.len() - i,
        {
            let o = self.d_asks[i];
            proof {
                assert(v.side_wf(Side::Sell));
                assert(v.orders[o.d_id] == (Side::Sell, o.d_price));
                lemma_position(v.asks, o.d_id);
            }
            index.insert(o.d_id, (Side::Sell, o.d_price));
            i = i + 1;
        }
        self.d_orders = index;
        proof {
            assert forall|id: u64| v.resting(id) implies #[trigger] self@.orders.contains_key(id) by {
                let q = v.side(v.orders[id].0);
                lemma_position(q, id);
                let k = position(q, id);
                if v.orders[id].0 == Side::Buy {
                    assert(self@.orders.contains_key(v.bids[k].d_id));
                } else {
                    assert(self@.orders.contains_key(v.asks[k].d_id));
                }
            }
            assert(v.side_wf(Side::Buy) && v.side_wf(Side::Sell));
            assert(self@.side_wf(Side::Buy));
            assert(self@.side_wf(Side::Sell));
        }
    }

    /// Take order `order_id` out of one side's queue.
    fn remove_order_from_price_level(price_level: &mut Vec<Order>, order_id: &u64) -> (r: Option<
        Order,
    >)
        ensures
            position(old(price_level)@, *order_id) < 0 ==> r == None::<Order>
                && final(price_level)@ == old(price_level)@,
            position(old(price_level)@, *order_id) >= 0 ==> r == Some(
                old(price_level)@[position(old(price_level)@, *order_id)],
            ) && final(price_level)@ == old(price_level)@.remove(
                position(old(price_level)@, *order_id),
            ),
    {
        proof {
            lemma_position(price_level@, *order_id);
        }
        match find_position(price_level, *order_id) {
            None => None,
            Some(k) => Some(price_level.remove(k)),
        }
    }

    /// Cancel a resting order: it leaves its side, its level count and the
    /// flat index. An order that was admitted but no longer rests (filled,
    /// cancelled, or a fill-and-kill or market order) gives
    /// `CancelationError`; an id the book never admitted gives
    /// `OrderNotFound`. Cancelling never trades.
    pub fn cancel_order(&mut self, id: u64) -> (r: Result<(), SimError>)
        requires
            old(self)@.wf(),
        ensures
            final(self)@.wf(),
            old(self)@.resting(id) ==> ({
                let side = old(self)@.orders[id].0;
                let q = old(self)@.side(side);
                &&& r == Ok::<(), SimError>(())
                &&& final(self)@.orders == old(self)@.orders.remove(id)
                &&& final(self)@.side(side) == q.remove(position(q, id))
                &&& final(self)@.side(opposite(side)) == old(self)@.side(opposite(side))
                &&& final(self)@.counts(opposite(side)) == old(self)@.counts(opposite(side))
                &&& final(self)@.next_id == old(self)@.next_id
                &&& final(self)@.admitted_ids == old(self)@.admitted_ids
            }),
            !old(self)@.resting(id) && old(self)@.admitted_ids.contains(id)
                ==> r == Err::<(), SimError>(SimError::CancelationError) && final(self)@ == old(self)@,
            !old(self)@.admitted_ids.contains(id)
                ==> r == Err::<(), SimError>(SimError::OrderNotFound) && final(self)@ == old(self)@,
    {
        let ghost v = self@;
        let (side, price): (Side, u32) = match self.d_orders.get(&id) {
            None => {
                if self.d_admitted.contains(&id) {
                    return Err(SimError::CancelationError);
                } else {
                    return Err(SimError::OrderNotFound);
                }
            },
            Some(e) => *e,
        };
        let ghost q = v.side(side);
        proof {
            lemma_position(q, id);
        }
        let removed = match side {
            Side::Sell => Self::remove_order_from_price_level(&mut self.d_asks, &id),
            Side::Buy => Self::remove_order_from_price_level(&mut self.d_bids, &id),
        };
        if removed.is_none() {
            return Err(SimError::CancelationError);
        }
        let ghost k = position(q, id);
        proof {
            assert(q[k].d_price == price);
            lemma_count_remove(q, k, price);
            assert forall|p: u32| count_at(q, p) == count_at(q.remove(k), p) + (if q[k].d_price == p {
                1nat
            } else {
                0nat
            }) by {
                lemma_count_remove(q, k, p);
            }
        }
        assert(count_in(v.counts(side), price) == count_at(q, price));
        assert(count_in(v.counts(side), price) > 0);
        match side {
            Side::Sell => self.d_asks_level_info.decrement(price),
            Side::Buy => self.d_bids_level_info.decrement(price),
        }
        self.d_orders.remove(&id);
        proof {
            let t = q.remove(k);
            assert(self@.side(side) == t);
            assert forall|i: int| 0 <= i < t.len() implies (#[trigger] t[i]).d_id != id by {
                let j = if i < k { i } else { i + 1 };
                assert(t[i] == q[j]);
                if q[j].d_id == id {
                    if j < k {
                        assert(ahead(side, q[j], q[k]));
                    } else {
                        assert(ahead(side, q[k], q[j]));
                    }
                }
            }
            assert(in_priority_order(t, side)) by {
                assert forall|i: int, j: int| 0 <= i < j < t.len() implies #[trigger] ahead(side, t[i], t[j]) by {
                    let a = if i < k { i } else { i + 1 };
                    let b = if j < k { j } else { j + 1 };
                    assert(ahead(side, q[a], q[b]));
                }
            }
            assert forall|p: u32| #[trigger] count_in(self@.counts(side), p) == count_at(t, p) by {
                assert(count_in(v.counts(side), p) == count_at(q, p));
                assert(count_at(q, p) == count_at(t, p) + (if q[k].d_price == p {
                    1nat
                } else {
                    0nat
                }));
            }
            let o = self@.side(opposite(side));
            assert forall|i: int| 0 <= i < o.len() implies (#[trigger] o[i]).d_id != id by {
                assert(v.orders[o[i].d_id].0 == opposite(side));
            }
            assert(self@.side_wf(side));
            assert(self@.side_wf(opposite(side)));
            assert(self@.side_wf(Side::Buy));
            if t.len() > 0 {
                if k == 0 {
                    assert(t[0] == q[1]);
                    assert(ahead(side, q[0], q[1]));
                } else {
                    assert(t[0] == q[0]);
                }
            }
            assert(self@.uncrossed());
        }
        Ok(())
    }

    /// Match a buy order against the asks.
    fn immediate_buy_order(&mut self, order: &mut Order) -> (r: (TradeInfo, Vec<Trades>))
        requires
            old(self)@.wf(),
            old(order).wf(),
            old(order).d_side == Side::Buy,
        ensures
            ({
                let w = match_walk(old(self)@.asks, order_tuple(*old(order)), limit_of(*old(order)));
                &&& r.1@ == w.0
                &&& r.0.d_prices@ == trade_prices(w.0)
                &&& r.0.d_quantity == traded(w.0)
                &&& r.0.d_total == trade_value(w.0)
                &&& final(self)@.asks == w.1
                &&& *final(order) == (Order {
                    d_remaining_quantity: w.2,
                    d_valid: old(order).d_valid && w.2 > 0,
                    ..*old(order)
                })
            }),
            final(self)@.wf(),
            final(self)@.bids == old(self)@.bids,
            final(self)@.bid_counts == old(self)@.bid_counts,
            final(self)@.orders == old(self)@.orders,
            final(self)@.next_id == old(self)@.next_id,
            final(self)@.admitted_ids == old(self)@.admitted_ids,
    {
        let ghost v = self@;
        let limit = limit_for(order);
        let mut trade_info = TradeInfo::new();
        assert((order.d_remaining_quantity as int) * (u32::MAX as int) <= u64::MAX) by (nonlinear_arith)
            requires
                order.d_remaining_quantity <= u32::MAX,
        ;
        let trades = match_order_and_price_level(
            &mut self.d_asks_level_info,
            &mut trade_info,
            order,
            &limit,
            &mut self.d_asks,
        );
        proof {
            let q = self@.asks;
            assert forall|i: int| 0 <= i < q.len() implies {
                &&& self@.orders.contains_key((#[trigger] q[i]).d_id)
                &&& self@.orders[q[i].d_id] == (Side::Sell, q[i].d_price)
                &&& q[i].d_id < self@.next_id
            } by {
                assert(same_order(q[i], v.asks[i + v.asks.len() - q.len()]));
            }
            if q.len() > 0 && v.bids.len() > 0 {
                let off = v.asks.len() - q.len();
                assert(same_order(q[0], v.asks[off]));
                if off > 0 {
                    assert(ahead(Side::Sell, v.asks[0], v.asks[off]));
                }
            }
        }
        assert(Seq::<u32>::empty() + trade_prices(trades@) =~= trade_prices(trades@));
        (trade_info, trades)
    }

    /// Match a sell order against the bids.
    fn immediate_sell_order(&mut self, order: &mut Order) -> (r: (TradeInfo, Vec<Trades>))
        requires
            old(self)@.wf(),
            old(order).wf(),
            old(order).d_side == Side::Sell,
        ensures
            ({
                let w = match_walk(old(self)@.bids, order_tuple(*old(order)), limit_of(*old(order)));
                &&& r.1@ == w.0
                &&& r.0.d_prices@ == trade_prices(w.0)
                &&& r.0.d_quantity == traded(w.0)
                &&& r.0.d_total == trade_value(w.0)
                &&& final(self)@.bids == w.1
                &&& *final(order) == (Order {
                    d_remaining_quantity: w.2,
                    d_valid: old(order).d_valid && w.2 > 0,
                    ..*old(order)
                })
            }),
            final(self)@.wf(),
            final(self)@.asks == old(self)@.asks,
            final(self)@.ask_counts == old(self)@.ask_counts,
            final(self)@.orders == old(self)@.orders,
            final(self)@.next_id == old(self)@.next_id,
            final(self)@.admitted_ids == old(self)@.admitted_ids,
    {
        let ghost v = self@;
        let limit = limit_for(order);
        let mut trade_info = TradeInfo::new();
        assert((order.d_remaining_quantity as int) * (u32::MAX as int) <= u64::MAX) by (nonlinear_arith)
            requires
                order.d_remaining_quantity <= u32::MAX,
        ;
        let trades = match_order_and_price_level(
            &mut self.d_bids_level_info,
            &mut trade_info,
            order,
            &limit,
            &mut self.d_bids,
        );
        proof {
            let q = self@.bids;
            assert forall|i: int| 0 <= i < q.len() implies {
                &&& self@.orders.contains_key((#[trigger] q[i]).d_id)
                &&& self@.orders[q[i].d_id] == (Side::Buy, q[i].d_price)
                &&& q[i].d_id < self@.next_id
            } by {
                assert(same_order(q[i], v.bids[i + v.bids.len() - q.len()]));
            }
            if q.len() > 0 && v.asks.len() > 0 {
                let off = v.bids.len() - q.len();
                assert(same_order(q[0], v.bids[off]));
                if off > 0 {
                    assert(ahead(Side::Buy, v.bids[0], v.bids[off]));
                }
            }
        }
        assert(Seq::<u32>::empty() + trade_prices(trades@) =~= trade_prices(trades@));
        (trade_info, trades)
    }

    /// Match `order` against the opposite side, best price first.
    pub fn execute_trade_immediately(&mut self, order: &mut Order) -> (r: (TradeInfo, Vec<Trades>))
        requires
            old(self)@.wf(),
            old(order).wf(),
        ensures
            ({
                let s = old(order).d_side;
                let w = match_walk(
                    old(self)@.side(opposite(s)),
                    order_tuple(*old(order)),
                    limit_of(*old(order)),
                );
                &&& r.1@ == w.0
                &&& r.0.d_prices@ == trade_prices(w.0)
                &&& r.0.d_quantity == traded(w.0)
                &&& r.0.d_total == trade_value(w.0)
                &&& final(self)@.side(opposite(s)) == w.1
                &&& final(self)@.side(s) == old(self)@.side(s)
                &&& final(self)@.counts(s) == old(self)@.counts(s)
                &&& *final(order) == (Order {
                    d_remaining_quantity: w.2,
                    d_valid: old(order).d_valid && w.2 > 0,
                    ..*old(order)
                })
            }),
            final(self)@.wf(),
            final(self)@.orders == old(self)@.orders,
            final(self)@.next_id == old(self)@.next_id,
            final(self)@.admitted_ids == old(self)@.admitted_ids,
    {
        match order.d_side {
            Side::Buy => self.immediate_buy_order(order),
            Side::Sell => self.immediate_sell_order(order),
        }
    }

    /// Admit an order: match it against the opposite side, then rest what
    /// is left of a good-till-cancel order at the back of its price level.
    /// A fill-and-kill or market order drops what is left; a fill-or-kill
    /// order that the book cannot fill completely is refused with
    /// `NoMatchFound` and changes nothing. Returns the order's id and the
    /// trades, in the order they happened.
    pub fn add_order(&mut self, order: Order) -> (r: Result<(u64, Vec<Trades>), SimError>)
        requires
            old(self)@.wf(),
            order.wf(),
            old(self)@.side(order.d_side).len() < u64::MAX,
        ensures
            final(self)@.wf(),
            !order.d_valid ==> r == Err::<(u64, Vec<Trades>), SimError>(SimError::InvalidOrder),
            order.d_valid && !(old(self)@.next_id <= order.d_id < u64::MAX) ==> r == Err::<
                (u64, Vec<Trades>),
                SimError,
            >(SimError::KeyOverflow),
            order.d_valid && old(self)@.next_id <= order.d_id < u64::MAX && !admitted(old(self)@, order)
                ==> r == Err::<(u64, Vec<Trades>), SimError>(SimError::NoMatchFound),
            !admitted(old(self)@, order) ==> final(self)@ == old(self)@,
            admitted(old(self)@, order) ==> ({
                let s = order.d_side;
                let w = match_walk(old(self)@.side(opposite(s)), order_tuple(order), limit_of(order));
                let gtc = order.d_order_type == OrderType::GoodTillCancel;
                &&& r is Ok
                &&& r->Ok_0.0 == order.d_id
                &&& r->Ok_0.1@ == w.0
                &&& final(self)@.side(opposite(s)) == w.1
                &&& final(self)@.side(s) == if gtc && w.2 > 0 {
                    insert_resting(old(self)@.side(s), Order { d_remaining_quantity: w.2, ..order })
                } else {
                    old(self)@.side(s)
                }
                &&& final(self)@.orders == if gtc {
                    old(self)@.orders.insert(order.d_id, (s, order.d_price))
                } else {
                    old(self)@.orders
                }
                &&& final(self)@.next_id == order.d_id + 1
                &&& final(self)@.admitted_ids == old(self)@.admitted_ids.insert(order.d_id)
            }),
    {
        let mut order = order;
        if !order.d_valid {
            return Err(SimError::InvalidOrder);
        }
        if order.d_id < self.d_next_id || order.d_id == u64::MAX {
            return Err(SimError::KeyOverflow);
        }
        let order_type = order.d_order_type;
        if order_type == OrderType::FillOrKill && !self.can_match_fully(&order) {
            return Err(SimError::NoMatchFound);
        }
        let ghost v = self@;
        let ghost order0 = order;
        let order_id = order.d_id;
        let order_price = order.d_price;
        let side = order.d_side;
        let (_trade_info, trades) = self.execute_trade_immediately(&mut order);
        let ghost v1 = self@;
        self.d_next_id = order_id + 1;
        self.d_admitted.insert(order_id);
        proof {
            assert(self@.side_wf(Side::Buy) && self@.side_wf(Side::Sell)) by {
                assert forall|i: int| 0 <= i < v1.bids.len() implies (#[trigger] v1.bids[i]).d_id < self@.next_id by {}
                assert forall|i: int| 0 <= i < v1.asks.len() implies (#[trigger] v1.asks[i]).d_id < self@.next_id by {}
            }
        }
        if order_type != OrderType::GoodTillCancel {
            return Ok((order_id, trades));
        }
        let ghost v2 = self@;
        self.d_orders.insert(order_id, (side, order_price));
        proof {
            assert forall|s: Side| #[trigger] self@.side_wf(s) by {
                let q = self@.side(s);
                assert(v2.side_wf(s));
                assert forall|i: int| 0 <= i < q.len() implies {
                    &&& self@.orders.contains_key((#[trigger] q[i]).d_id)
                    &&& self@.orders[q[i].d_id] == (s, q[i].d_price)
                    &&& q[i].d_id < self@.next_id
                } by {
                    assert(q[i].d_id < v.next_id);
                }
            }
            assert(self@.side_wf(Side::Buy));
            assert(self@.side_wf(Side::Sell));
        }
        let remaining = order.d_remaining_quantity;
        if remaining == 0 {
            return Ok((order_id, trades));
        }
        let residual = order;
        let ghost v3 = self@;
        let ghost own = v3.side(side);
        proof {
            lemma_count_le_len(own, order_price);
            assert(count_in(v3.counts(side), order_price) == count_at(own, order_price));
            assert forall|i: int| 0 <= i < own.len() implies (#[trigger] own[i]).d_id < residual.d_id by {}
            lemma_insert_in_order(own, residual);
            lemma_slot(own, side, order_price);
            assert forall|p: u32| count_at(own.insert(slot(own, side, order_price) as int, residual), p)
                == count_at(own, p) + (if order_price == p {
                1nat
            } else {
                0nat
            }) by {
                lemma_count_insert(own, slot(own, side, order_price) as int, residual, p);
            }
        }
        match side {
            Side::Buy => {
                let k = slot_for(&self.d_bids, side, order_price);
                self.d_bids.insert(k, residual);
                self.d_bids_level_info.increment(order_price);
            },
            Side::Sell => {
                let k = slot_for(&self.d_asks, side, order_price);
                self.d_asks.insert(k, residual);
                self.d_asks_level_info.increment(order_price);
            },
        }
        proof {
            let t = self@.side(side);
            assert(t == insert_resting(own, residual));
            let k = slot(own, side, order_price) as int;
            assert forall|p: u32| #[trigger] count_in(self@.counts(side), p) == count_at(t, p) by {
                assert(count_in(v3.counts(side), p) == count_at(own, p));
            }
            assert forall|i: int| 0 <= i < t.len() implies {
                &&& self@.orders.contains_key((#[trigger] t[i]).d_id)
                &&& self@.orders[t[i].d_id] == (side, t[i].d_price)
                &&& t[i].d_id < self@.next_id
            } by {
                if i < k {
                    assert(t[i] == own[i]);
                } else if i > k {
                    assert(t[i] == own[i - 1]);
                }
            }
            lemma_walk_traded(v.side(opposite(side)), order_tuple(order0), limit_of(order0));
            assert(residual.d_remaining_quantity <= residual.d_initial_quantity);
            assert forall|i: int| 0 <= i < t.len() implies {
                &&& (#[trigger] t[i]).d_side == side
                &&& t[i].d_valid
                &&& 0 < t[i].d_remaining_quantity <= t[i].d_initial_quantity
            } by {
                if i < k {
                    assert(t[i] == own[i]);
                } else if i > k {
                    assert(t[i] == own[i - 1]);
                }
            }
            assert(resting_ok(t, side));
            assert(self@.side_wf(side));
            assert(self@.side(opposite(side)) == v3.side(opposite(side)));
            assert(self@.side_wf(opposite(side)));
            assert(self@.side_wf(Side::Buy));
            lemma_walk_stops(v.side(opposite(side)), order_tuple(order0), limit_of(order0));
            if k > 0 {
                assert(t[0] == own[0]);
            }
            assert(self@.uncrossed());
        }
        Ok((order_id, trades))
    }
}

/// The number of valid orders at price `p`.
pub open spec fn count_valid_at(s: Seq<Order>, p: u32) -> nat
    decreases s.len(),
{
    if s.len() == 0 {
        0
    } else {
        (if s[0].d_price == p && s[0].d_valid {
            1nat
        } else {
            0nat
        }) + count_valid_at(s.drop_first(), p)
    }
}

proof fn lemma_all_valid_counts(s: Seq<Order>, side: Side, p: u32)
    requires
        resting_ok(s, side),
    ensures
        count_valid_at(s, p) == count_at(s, p),
    decreases s.len(),
{
    if s.len() > 0 {
        assert(resting_ok(s.drop_first(), side)) by {
            assert forall|i: int| 0 <= i < s.drop_first().len() implies {
                &&& (#[trigger] s.drop_first()[i]).d_side == side
                &&& s.drop_first()[i].d_valid
                &&& 0 < s.drop_first()[i].d_remaining_quantity <= s.drop_first()[i].d_initial_quantity
            } by {
                assert(s.drop_first()[i] == s[i + 1]);
            }
        }
        lemma_all_valid_counts(s.drop_first(), side, p);
    }
}

/// Every order in a side's queue that is valid is in the flat index, under
/// its side and price; and each level's count is the number of valid
/// orders at that price, so an invalid order is never counted.
pub proof fn law_resting_orders_indexed(v: BookView)
    requires
        v.wf(),
    ensures
        forall|s: Side, i: int|
            0 <= i < v.side(s).len() && (#[trigger] v.side(s)[i]).d_valid ==> v.orders.contains_key(
                v.side(s)[i].d_id,
            ) && v.orders[v.side(s)[i].d_id] == (s, v.side(s)[i].d_price),
        forall|s: Side, p: u32| #[trigger] count_in(v.counts(s), p) == count_valid_at(v.side(s), p),
{
    assert forall|s: Side, p: u32| #[trigger] count_in(v.counts(s), p) == count_valid_at(v.side(s), p) by {
        assert(v.side_wf(s));
        lemma_all_valid_counts(v.side(s), s, p);
    }
    assert forall|s: Side, i: int|
        0 <= i < v.side(s).len() && (#[trigger] v.side(s)[i]).d_valid implies v.orders.contains_key(
            v.side(s)[i].d_id,
        ) && v.orders[v.side(s)[i].d_id] == (s, v.side(s)[i].d_price) by {
        assert(v.side_wf(s));
    }
}

/// The book is crossed (best bid at or above best ask) exactly when some
/// resting bid is at or above some resting ask.
pub proof fn law_crossed_iff_crossing_orders(v: BookView)
    requires
        v.wf(),
    ensures
        (v.bids.len() > 0 && v.asks.len() > 0 && v.bids[0].d_price >= v.asks[0].d_price) <==> exists|
            i: int,
            j: int,
        |
            0 <= i < v.bids.len() && 0 <= j < v.asks.len() && (#[trigger] v.bids[i]).d_price >= (
            #[trigger] v.asks[j]).d_price,
{
    if exists|i: int, j: int|
        0 <= i < v.bids.len() && 0 <= j < v.asks.len() && (#[trigger] v.bids[i]).d_price >= (
        #[trigger] v.asks[j]).d_price {
        let (i, j) = choose|i: int, j: int|
            0 <= i < v.bids.len() && 0 <= j < v.asks.len() && (#[trigger] v.bids[i]).d_price >= (
            #[trigger] v.asks[j]).d_price;
        if i > 0 {
            assert(ahead(Side::Buy, v.bids[0], v.bids[i]));
        }
        if j > 0 {
            assert(ahead(Side::Sell, v.asks[0], v.asks[j]));
        }
    }
    if v.bids.len() > 0 && v.asks.len() > 0 && v.bids[0].d_price >= v.asks[0].d_price {
        assert(v.bids[0].d_price >= v.asks[0].d_price);
    }
}

/// What an admitted aggressor trades is at most its initial quantity and
/// at most the valid resting quantity it crosses before admission.
pub proof fn law_traded_bounded(v: BookView, o: Order)
    requires
        v.wf(),
        o.wf(),
    ensures
        ({
            let w = match_walk(v.side(opposite(o.d_side)), order_tuple(o), limit_of(o));
            &&& traded(w.0) <= o.d_initial_quantity
            &&& traded(w.0) <= crossable_quantity(v.side(opposite(o.d_side)), o.d_side, limit_of(o))
        }),
{
    lemma_walk_traded(v.side(opposite(o.d_side)), order_tuple(o), limit_of(o));
}

/// Once cancelled, an order no longer rests and its id stays admitted,
/// so cancelling it again gives `CancelationError`.
pub proof fn law_cancel_twice(v: BookView, u: BookView, id: u64)
    requires
        v.wf(),
        v.resting(id),
        u.orders == v.orders.remove(id),
        u.admitted_ids == v.admitted_ids,
    ensures
        !u.resting(id),
        u.admitted_ids.contains(id),
{
    let q = v.side(v.orders[id].0);
    lemma_position(q, id);
    assert(v.side_wf(v.orders[id].0));
    assert(q[position(q, id)].d_id == id);
}

/// A market order meeting an empty opposite side trades nothing and keeps
/// its whole quantity.
pub proof fn law_market_on_empty_side(v: BookView, o: Order)
    requires
        o.d_order_type == OrderType::Market,
        v.side(opposite(o.d_side)).len() == 0,
    ensures
        match_walk(v.side(opposite(o.d_side)), order_tuple(o), limit_of(o)) == (
            Seq::<Trades>::empty(),
            v.side(opposite(o.d_side)),
            o.d_remaining_quantity,
        ),
{
}

/// The level counts summed once per price level, walking the side from
/// the front; `prev` is the price of the order before `s`.
pub open spec fn level_sum(c: Map<u32, u64>, s: Seq<Order>, prev: Option<u32>) -> nat
    decreases s.len(),
{
    if s.len() == 0 {
        0
    } else {
        (if prev == Some(s[0].d_price) {
            0nat
        } else {
            count_in(c, s[0].d_price)
        }) + level_sum(c, s.drop_first(), Some(s[0].d_price))
    }
}

/// The sum of the valid counts over all price levels of one side.
pub open spec fn levels_total(c: Map<u32, u64>, s: Seq<Order>) -> nat {
    level_sum(c, s, None)
}

proof fn lemma_count_concat(x: Seq<Order>, y: Seq<Order>, p: u32)
    ensures
        count_at(x + y, p) == count_at(x, p) + count_at(y, p),
    decreases x.len(),
{
    if x.len() == 0 {
        assert(x + y =~= y);
    } else {
        lemma_count_concat(x.drop_first(), y, p);
        assert((x + y).drop_first() =~= x.drop_first() + y);
    }
}

proof fn lemma_count_none(x: Seq<Order>, p: u32)
    requires
        forall|i: int| 0 <= i < x.len() ==> (#[trigger] x[i]).d_price != p,
    ensures
        count_at(x, p) == 0,
    decreases x.len(),
{
    if x.len() > 0 {
        lemma_count_none(x.drop_first(), p);
    }
}

proof fn lemma_level_sum_from(c: Map<u32, u64>, s: Seq<Order>, side: Side, k: int)
    requires
        in_priority_order(s, side),
        counts_match(c, s),
        0 <= k <= s.len(),
    ensures
        level_sum(c, s.subrange(k, s.len() as int), if k > 0 {
            Some(s[k - 1].d_price)
        } else {
            None
        }) + (if k > 0 {
            count_at(s.subrange(k, s.len() as int), s[k - 1].d_price)
        } else {
            0
        }) == s.len() - k,
    decreases s.len() - k,
{
    let n = s.len() as int;
    let t = s.subrange(k, n);
    if k < n {
        let a = s[k].d_price;
        let d = s.subrange(k + 1, n);
        assert(t.drop_first() =~= d);
        assert(t[0] == s[k]);
        lemma_level_sum_from(c, s, side, k + 1);
        if k > 0 && s[k - 1].d_price == a {
        } else {
            assert(count_in(c, a) == count_at(s, a));
            assert(s =~= s.subrange(0, k) + t);
            lemma_count_concat(s.subrange(0, k), t, a);
            if k > 0 {
                let q = s[k - 1].d_price;
                assert(ahead(side, s[k - 1], s[k]));
                assert forall|i: int| 0 <= i < k implies (#[trigger] s.subrange(0, k)[i]).d_price != a by {
                    if i < k - 1 {
                        assert(ahead(side, s[i], s[k - 1]));
                    }
                }
                assert forall|j: int| 0 <= j < t.len() implies (#[trigger] t[j]).d_price != q by {
                    if j > 0 {
                        assert(ahead(side, s[k], s[k + j]));
                    }
                }
                lemma_count_none(t, q);
            }
            lemma_count_none(s.subrange(0, k), a);
        }
    } else {
        assert(t.len() == 0);
    }
}

/// The valid counts of one side's price levels add up to the number of
/// valid orders of that side, each of which is in the flat index.
pub proof fn law_level_counts_total(v: BookView, s: Side)
    requires
        v.wf(),
    ensures
        levels_total(v.counts(s), v.side(s)) == v.side(s).len(),
        forall|i: int|
            0 <= i < v.side(s).len() ==> (#[trigger] v.side(s)[i]).d_valid && v.orders.contains_key(
                v.side(s)[i].d_id,
            ),
{
    assert(v.side_wf(s));
    lemma_level_sum_from(v.counts(s), v.side(s), s, 0);
    assert(v.side(s).subrange(0, v.side(s).len() as int) =~= v.side(s));
}

/// In every book that the operations produce (they all keep `wf`), no
/// resting bid is at or above a resting ask: the best bid stays below the
/// best ask.
pub proof fn law_book_never_crossed(v: BookView)
    requires
        v.wf(),
    ensures
        forall|i: int, j: int|
            0 <= i < v.bids.len() && 0 <= j < v.asks.len() ==> (#[trigger] v.bids[i]).d_price < (
            #[trigger] v.asks[j]).d_price,
{
    law_crossed_iff_crossing_orders(v);
}

/// A fill-or-kill order that passes the check on entry is filled
/// completely: nothing of it is left to rest or to drop.
pub proof fn law_fill_or_kill_fills_completely(v: BookView, o: Order)
    requires
        v.wf(),
        admitted(v, o),
        o.d_order_type == OrderType::FillOrKill,
    ensures
        match_walk(v.side(opposite(o.d_side)), order_tuple(o), limit_of(o)).2 == 0,
{
    assert(v.side_wf(opposite(o.d_side)));
    assert(opposite(opposite(o.d_side)) == o.d_side);
    lemma_walk_fills(v.side(opposite(o.d_side)), order_tuple(o), limit_of(o));
}

} // verus!
