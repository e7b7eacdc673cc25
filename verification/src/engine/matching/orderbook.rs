//! Orders and the order book of one market.
use crate::decimal::{
    checked_add, checked_mul, checked_sub, decimal_difference, decimal_product, decimal_sum, equal,
    less_than, Dec,
};
use crate::engine::matching::error::MatchingEngineErrors;
use crate::engine::matching::limit::{has_open, match_orders, orders_wf, volume_of, Fill, Limit, LimitView};
use crate::decimal::{decimal_parse, parse};
use crate::engine::matching::{Asset, Exchange, OrderSide, OrderStatus, OrderType, RecievedOrder, ScyllaCancelOrder};
use crate::engine::matching::user::{unlocked, Balances, Users};
use crate::decimal::decimal_text;
use vstd::prelude::*;

verus! {

/// An order as the book holds it.
#[derive(Clone, Copy, Debug)]
pub struct Order {
    pub id: u64,
    pub user_id: u64,
    pub initial_quantity: Dec,
    pub filled_quote_quantity: Dec,
    pub quantity: Dec,
    pub order_type: OrderType,
    pub order_side: OrderSide,
    pub order_status: OrderStatus,
    pub timestamp: u64,
}

impl Order {
    /// Every amount of the order is a representable decimal.
    pub open spec fn wf(self) -> bool {
        &&& self.initial_quantity.wf()
        &&& self.filled_quote_quantity.wf()
        &&& self.quantity.wf()
    }

    /// A new order of `quantity`, nothing of it filled yet.
    pub fn new(
        id: u64,
        timestamp: u64,
        order_side: OrderSide,
        quantity: Dec,
        order_type: OrderType,
        user_id: u64,
    ) -> (o: Order)
        requires
            quantity.wf(),
        ensures
            o.wf(),
            o.id == id,
            o.user_id == user_id,
            o.initial_quantity == quantity,
            o.filled_quote_quantity == Dec::zero_spec(),
            o.quantity == quantity,
            o.order_type == order_type,
            o.order_side == order_side,
            o.order_status == OrderStatus::InProgress,
            o.timestamp == timestamp,
    {
        Order {
            id,
            user_id,
            initial_quantity: quantity,
            filled_quote_quantity: Dec::zero(),
            quantity,
            order_type,
            order_side,
            order_status: OrderStatus::InProgress,
            timestamp,
        }
    }

    /// Nothing of the order is left to fill.
    pub fn is_filled(&self) -> (r: bool)
        ensures
            r == (self.quantity.units() == 0),
    {
        self.quantity.is_zero()
    }
}


/// The levels of one side of a book, as values.
pub open spec fn side_view(side: Seq<Limit>) -> Seq<LimitView> {
    Seq::new(side.len(), |i: int| side[i]@)
}

/// On `side`, a level at price `a` is matched before one at price `b`:
/// asks from the lowest price up, bids from the highest price down.
pub open spec fn ahead(a: Dec, b: Dec, side: OrderSide) -> bool {
    match side {
        OrderSide::Ask => a.units() < b.units(),
        OrderSide::Bid => a.units() > b.units(),
    }
}

/// The levels of a side are well formed and stand in the order in which
/// they are matched, each price once.
pub open spec fn side_wf(levels: Seq<LimitView>, side: OrderSide) -> bool {
    &&& forall|i: int| 0 <= i < levels.len() ==> #[trigger] levels[i].wf()
    &&& forall|i: int, j: int|
        0 <= i < j < levels.len() ==> ahead(#[trigger] levels[i].price, #[trigger] levels[j].price, side)
}

/// The position of the first level whose price equals `price`, from
/// position `k` on.
pub open spec fn find_level(levels: Seq<LimitView>, k: int, price: Dec) -> Option<int>
    decreases levels.len() - k,
{
    if k < 0 || k >= levels.len() {
        None
    } else if levels[k].price.units() == price.units() {
        Some(k)
    } else {
        find_level(levels, k + 1, price)
    }
}

/// The position of the first order with id `id`, from position `k` on.
pub open spec fn find_order(orders: Seq<Order>, k: int, id: u64) -> Option<int>
    decreases orders.len() - k,
{
    if k < 0 || k >= orders.len() {
        None
    } else if orders[k].id == id {
        Some(k)
    } else {
        find_order(orders, k + 1, id)
    }
}

/// The side after `order` is added at `price`, scanning the levels from
/// position `k`: it joins the back of the first level at that price, or a
/// new level is opened in front of the first level that `price` comes
/// ahead of, or at the end.
pub open spec fn side_add(levels: Seq<LimitView>, k: int, price: Dec, order: Order, side: OrderSide) -> Seq<LimitView>
    decreases levels.len() - k,
{
    if k < 0 || k >= levels.len() {
        levels.push(LimitView { price, orders: seq![order] })
    } else if levels[k].price.units() == price.units() {
        levels.update(k, LimitView { price: levels[k].price, orders: levels[k].orders.push(order) })
    } else if ahead(price, levels[k].price, side) {
        levels.insert(k, LimitView { price, orders: seq![order] })
    } else {
        side_add(levels, k + 1, price, order, side)
    }
}

/// The book of one market: asks from the lowest price up, bids from the
/// highest price down, each level a queue of orders.
pub struct Orderbook {
    pub trade_id: u64,
    pub order_id: u64,
    pub exchange: Exchange,
    pub asks: Vec<Limit>,
    pub bids: Vec<Limit>,
}

impl Orderbook {
    /// Both sides are well formed and in matching order.
    pub open spec fn wf(&self) -> bool {
        &&& side_wf(side_view(self.asks@), OrderSide::Ask)
        &&& side_wf(side_view(self.bids@), OrderSide::Bid)
    }

    /// The levels of the side on which orders of `side` rest.
    pub open spec fn levels(&self, side: OrderSide) -> Seq<LimitView> {
        match side {
            OrderSide::Ask => side_view(self.asks@),
            OrderSide::Bid => side_view(self.bids@),
        }
    }

    /// An empty book for `exchange`, with no trades and no orders numbered yet.
    pub fn new(exchange: Exchange) -> (b: Orderbook)
        ensures
            b.wf(),
            b.trade_id == 0,
            b.order_id == 0,
            b.exchange == exchange,
            b.asks@.len() == 0,
            b.bids@.len() == 0,
    {
        Orderbook { trade_id: 0, order_id: 0, exchange, asks: Vec::new(), bids: Vec::new() }
    }

    /// Takes the next order id.
    pub fn increment_order_id(&mut self) -> (id: u64)
        requires
            old(self).order_id < u64::MAX,
        ensures
            id == old(self).order_id + 1,
            final(self).order_id == id,
            final(self).trade_id == old(self).trade_id,
            final(self).exchange == old(self).exchange,
            final(self).asks == old(self).asks,
            final(self).bids == old(self).bids,
    {
        self.order_id = self.order_id + 1;
        self.order_id
    }

    /// Adds `order` to the side it belongs to, at `price`: behind the orders
    /// already resting there, or on a new level in its place in the order.
    pub fn add_limit_order(&mut self, price: Dec, order: Order)
        requires
            old(self).wf(),
            price.wf(),
            order.wf(),
        ensures
            final(self).wf(),
            final(self).levels(order.order_side) == side_add(
                old(self).levels(order.order_side),
                0,
                price,
                order,
                order.order_side,
            ),
            final(self).levels(order.order_side.opposite()) == old(self).levels(order.order_side.opposite()),
            final(self).trade_id == old(self).trade_id,
            final(self).order_id == old(self).order_id,
            final(self).exchange == old(self).exchange,
    {
        match order.order_side {
            OrderSide::Bid => add_to_side(&mut self.bids, price, order, OrderSide::Bid),
            OrderSide::Ask => add_to_side(&mut self.asks, price, order, OrderSide::Ask),
        }
    }

    /// Takes the order `order_id` out of the level at `price` on `order_side`.
    pub fn cancel_order(&mut self, order_id: u64, order_side: &OrderSide, price: &Dec) -> (r: Result<Order, MatchingEngineErrors>)
        requires
            old(self).wf(),
            price.wf(),
        ensures
            final(self).wf(),
            final(self).trade_id == old(self).trade_id,
            final(self).order_id == old(self).order_id,
            final(self).exchange == old(self).exchange,
            final(self).levels(order_side.opposite()) == old(self).levels(order_side.opposite()),
            match find_level(old(self).levels(*order_side), 0, *price) {
                None => r == Err::<Order, MatchingEngineErrors>(MatchingEngineErrors::InvalidPriceLimitOrOrderSide)
                    && final(self).levels(*order_side) == old(self).levels(*order_side),
                Some(k) => {
                    let level = old(self).levels(*order_side)[k];
                    match find_order(level.orders, 0, order_id) {
                        None => r == Err::<Order, MatchingEngineErrors>(MatchingEngineErrors::InvalidOrderId)
                            && final(self).levels(*order_side) == old(self).levels(*order_side),
                        Some(j) => r == Ok::<Order, MatchingEngineErrors>(level.orders[j])
                            && final(self).levels(*order_side) == old(self).levels(*order_side).update(
                            k,
                            LimitView { price: level.price, orders: level.orders.remove(j) },
                        ),
                    }
                },
            },
    {
        match order_side {
            OrderSide::Bid => cancel_in_side(&mut self.bids, order_id, price, OrderSide::Bid),
            OrderSide::Ask => cancel_in_side(&mut self.asks, order_id, price, OrderSide::Ask),
        }
    }
}

impl OrderSide {
    /// The other side.
    pub open spec fn opposite(self) -> OrderSide {
        match self {
            OrderSide::Bid => OrderSide::Ask,
            OrderSide::Ask => OrderSide::Bid,
        }
    }
}

/// Whether a level at `a` is matched before one at `b` on `side`.
fn is_ahead(a: Dec, b: Dec, side: OrderSide) -> (r: bool)
    requires
        a.wf(),
        b.wf(),
    ensures
        r == ahead(a, b, side),
{
    match side {
        OrderSide::Ask => less_than(a, b),
        OrderSide::Bid => less_than(b, a),
    }
}

/// Adding to a well-formed side keeps it well formed.
proof fn lemma_side_add_wf(levels: Seq<LimitView>, k: int, price: Dec, order: Order, side: OrderSide)
    requires
        side_wf(levels, side),
        0 <= k <= levels.len(),
        price.wf(),
        order.wf(),
        forall|j: int| 0 <= j < k ==> ahead(#[trigger] levels[j].price, price, side),
    ensures
        side_wf(side_add(levels, k, price, order, side), side),
    decreases levels.len() - k,
{
    let r = side_add(levels, k, price, order, side);
    if k >= levels.len() {
        assert forall|i: int, j: int| 0 <= i < j < r.len() implies ahead(#[trigger] r[i].price, #[trigger] r[j].price, side) by {
            if j == levels.len() as int {
            } else {
                assert(r[i] == levels[i] && r[j] == levels[j]);
            }
        }
        assert forall|i: int| 0 <= i < r.len() implies #[trigger] r[i].wf() by {
            if i < levels.len() {
                assert(r[i] == levels[i]);
            } else {
                let lv = r[i];
                assert(lv.orders[0] == order);
            }
        }
    } else if levels[k].price.units() == price.units() {
        assert forall|i: int| 0 <= i < r.len() implies #[trigger] r[i].wf() by {
            if i != k {
                assert(r[i] == levels[i]);
            } else {
                let lv = r[i];
                assert(levels[k].wf());
                assert forall|t: int| 0 <= t < lv.orders.len() implies #[trigger] lv.orders[t].wf() by {
                    if t < levels[k].orders.len() {
                        assert(lv.orders[t] == levels[k].orders[t]);
                    }
                }
            }
        }
        assert forall|i: int, j: int| 0 <= i < j < r.len() implies ahead(#[trigger] r[i].price, #[trigger] r[j].price, side) by {
            assert(r[i].price == levels[i].price && r[j].price == levels[j].price);
        }
    } else if ahead(price, levels[k].price, side) {
        assert forall|i: int| 0 <= i < r.len() implies #[trigger] r[i].wf() by {
            if i < k {
                assert(r[i] == levels[i]);
            } else if i > k {
                assert(r[i] == levels[i - 1]);
            } else {
                let lv = r[i];
                assert(lv.orders[0] == order);
            }
        }
        assert forall|i: int, j: int| 0 <= i < j < r.len() implies ahead(#[trigger] r[i].price, #[trigger] r[j].price, side) by {
            if i < k {
                assert(r[i] == levels[i]);
                if j > k {
                    assert(r[j] == levels[j - 1]);
                    assert(ahead(levels[k].price, levels[j - 1].price, side) || j - 1 == k);
                }
            } else if i == k {
                assert(r[j] == levels[j - 1]);
                assert(ahead(levels[k].price, levels[j - 1].price, side) || j - 1 == k);
            } else {
                assert(r[i] == levels[i - 1] && r[j] == levels[j - 1]);
            }
        }
    } else {
        assert(ahead(levels[k].price, price, side));
        lemma_side_add_wf(levels, k + 1, price, order, side);
    }
}

/// Adds `order` at `price` to a side whose orders rest on `side`.
fn add_to_side(levels: &mut Vec<Limit>, price: Dec, order: Order, side: OrderSide)
    requires
        side_wf(side_view(old(levels)@), side),
        price.wf(),
        order.wf(),
    ensures
        side_view(final(levels)@) == side_add(side_view(old(levels)@), 0, price, order, side),
        side_wf(side_view(final(levels)@), side),
{
    let ghost start = side_view(levels@);
    proof {
        lemma_side_add_wf(start, 0, price, order, side);
    }
    let mut k: usize = 0;
    while k < levels.len()
        invariant
            start == side_view(old(levels)@),
            side_view(levels@) == start,
            side_wf(start, side),
            price.wf(),
            order.wf(),
            k <= levels@.len(),
            side_add(start, 0, price, order, side) == side_add(start, k as int, price, order, side),
            side_wf(side_add(start, 0, price, order, side), side),
        decreases levels@.len() - k,
    {
        let level_price = levels[k].price;
        proof {
            assert(start[k as int].wf());
        }
        if equal(level_price, price) {
            levels[k].add_order(order);
            proof {
                assert(side_view(levels@) =~~= side_add(start, k as int, price, order, side));
            }
            return;
        }
        if is_ahead(price, level_price, side) {
            levels.insert(k, Limit { price, orders: vec![order] });
            proof {
                assert(side_view(levels@) =~~= side_add(start, k as int, price, order, side));
            }
            return;
        }
        k = k + 1;
    }
    levels.push(Limit { price, orders: vec![order] });
    proof {
        assert(side_view(levels@) =~~= side_add(start, k as int, price, order, side));
    }
}

/// Takes the order `order_id` out of the level at `price` of a side.
fn cancel_in_side(levels: &mut Vec<Limit>, order_id: u64, price: &Dec, side: OrderSide) -> (r: Result<Order, MatchingEngineErrors>)
    requires
        side_wf(side_view(old(levels)@), side),
        price.wf(),
    ensures
        side_wf(side_view(final(levels)@), side),
        match find_level(side_view(old(levels)@), 0, *price) {
            None => r == Err::<Order, MatchingEngineErrors>(MatchingEngineErrors::InvalidPriceLimitOrOrderSide)
                && side_view(final(levels)@) == side_view(old(levels)@),
            Some(k) => {
                let level = side_view(old(levels)@)[k];
                match find_order(level.orders, 0, order_id) {
                    None => r == Err::<Order, MatchingEngineErrors>(MatchingEngineErrors::InvalidOrderId)
                        && side_view(final(levels)@) == side_view(old(levels)@),
                    Some(j) => r == Ok::<Order, MatchingEngineErrors>(level.orders[j])
                        && side_view(final(levels)@) == side_view(old(levels)@).update(
                        k,
                        LimitView { price: level.price, orders: level.orders.remove(j) },
                    ),
                }
            },
        },
{
    let ghost start = side_view(levels@);
    let mut k: usize = 0;
    while k < levels.len()
        invariant
            start == side_view(old(levels)@),
            side_view(levels@) == start,
            side_wf(start, side),
            price.wf(),
            k <= levels@.len(),
            find_level(start, 0, *price) == find_level(start, k as int, *price),
        decreases levels@.len() - k,
    {
        proof {
            assert(start[k as int].wf());
        }
        if equal(levels[k].price, *price) {
            let ghost level = start[k as int];
            let mut j: usize = 0;
            while j < levels[k].orders.len()
                invariant
                    start == side_view(old(levels)@),
                    side_wf(start, side),
                    find_level(start, 0, *price) == Some(k as int),
                    side_view(levels@) == start,
                    k < levels@.len(),
                    level == start[k as int],
                    j <= level.orders.len(),
                    find_order(level.orders, 0, order_id) == find_order(level.orders, j as int, order_id),
                decreases level.orders.len() - j,
            {
                proof {
                    assert(side_view(levels@)[k as int] == levels@[k as int]@);
                }
                if levels[k].orders[j].id == order_id {
                    let order = levels[k].orders.remove(j);
                    proof {
                        assert(side_view(levels@) =~~= start.update(
                            k as int,
                            LimitView { price: level.price, orders: level.orders.remove(j as int) },
                        ));
                        lemma_side_remove_wf(start, k as int, j as int, side);
                    }
                    return Ok(order);
                }
                j = j + 1;
            }
            return Err(MatchingEngineErrors::InvalidOrderId);
        }
        k = k + 1;
    }
    Err(MatchingEngineErrors::InvalidPriceLimitOrOrderSide)
}

/// Taking an order out of a level keeps a side well formed.
proof fn lemma_side_remove_wf(levels: Seq<LimitView>, k: int, j: int, side: OrderSide)
    requires
        side_wf(levels, side),
        0 <= k < levels.len(),
        0 <= j < levels[k].orders.len(),
    ensures
        side_wf(
            levels.update(k, LimitView { price: levels[k].price, orders: levels[k].orders.remove(j) }),
            side,
        ),
{
    let r = levels.update(k, LimitView { price: levels[k].price, orders: levels[k].orders.remove(j) });
    assert forall|i: int| 0 <= i < r.len() implies #[trigger] r[i].wf() by {
        if i != k {
            assert(r[i] == levels[i]);
        } else {
            assert(levels[k].wf());
            let o = levels[k].orders.remove(j);
            assert forall|t: int| 0 <= t < o.len() implies #[trigger] o[t].wf() by {
                if t < j {
                    assert(o[t] == levels[k].orders[t]);
                } else {
                    assert(o[t] == levels[k].orders[t + 1]);
                }
            }
        }
    }
    assert forall|i: int, t: int| 0 <= i < t < r.len() implies ahead(#[trigger] r[i].price, #[trigger] r[t].price, side) by {
        assert(r[i].price == levels[i].price && r[t].price == levels[t].price);
    }
}


/// What the matching of one order against a side produces: the side's
/// levels, the order as it comes out, the last trade id, the quantity and
/// quote amount executed, the order's status and the trade reports.
pub type Outcome = (Seq<LimitView>, Order, int, Dec, Dec, OrderStatus, Seq<Fill>);

/// The running totals after the taker has left a level: the quantity it has
/// executed so far (`initial_quantity - quantity`) is added to `executed`,
/// and that quantity times `price` to `quote`; `None` on overflow.
pub open spec fn add_executed(taker: Order, price: Dec, executed: Dec, quote: Dec) -> Option<(Dec, Dec)> {
    match decimal_difference(taker.initial_quantity, taker.quantity) {
        None => None,
        Some(el) => match (decimal_sum(executed, el), decimal_product(el, price)) {
            (Some(e2), Some(p)) => match decimal_sum(quote, p) {
                Some(q2) => Some((e2, q2)),
                None => None,
            },
            _ => None,
        },
    }
}

/// A market order walking the levels from position `k`, best first: at each
/// level it is matched at the level's price and the running totals grow
/// (see `add_executed`); it stops once it is filled or the levels run out.
/// `None` if anything overflows.
pub open spec fn market_from(
    levels: Seq<LimitView>,
    k: int,
    taker: Order,
    trade_id: int,
    record: bool,
    executed: Dec,
    quote: Dec,
    status: OrderStatus,
    fills: Seq<Fill>,
) -> Option<Outcome>
    decreases levels.len() - k,
{
    if k < 0 || k >= levels.len() {
        Some((levels, taker, trade_id, executed, quote, status, fills))
    } else {
        let price = levels[k].price;
        match match_orders(levels[k].orders, 0, taker, price, trade_id, record, fills) {
            None => None,
            Some((mk, t, tid, f)) => match add_executed(t, price, executed, quote) {
                None => None,
                Some((e2, q2)) => {
                    let lv = levels.update(k, LimitView { price, orders: mk });
                    if t.quantity.units() == 0 {
                        Some((lv, t, tid, e2, q2, t.order_status, f))
                    } else {
                        market_from(lv, k + 1, t, tid, record, e2, q2, t.order_status, f)
                    }
                },
            },
        }
    }
}

/// A limit order at `price` stays out of the level at `level_price`: an ask
/// priced above the bid, a bid priced below the ask.
pub open spec fn stays_out(price: Dec, level_price: Dec, side: OrderSide) -> bool {
    match side {
        OrderSide::Ask => price.units() > level_price.units(),
        OrderSide::Bid => price.units() < level_price.units(),
    }
}

/// The price at which a limit order of `side` at `price` trades with a
/// level at `level_price`: an ask trades at its own price, a bid at the
/// level's.
pub open spec fn limit_fill_price(price: Dec, level_price: Dec, side: OrderSide) -> Dec {
    match side {
        OrderSide::Ask => price,
        OrderSide::Bid => level_price,
    }
}

/// A limit order of `side` at `price` walking the opposite levels from
/// position `k`, best first: at a level it stays out of, it stops and is to
/// rest in the book at `price`; otherwise it is matched (see
/// `limit_fill_price`) and the running totals grow; if quantity is left
/// after the last level, it is to rest in the book at the price it traded
/// at there (a bid at that level's price, an ask at its own).  The last
/// component is the price at which it is to rest, if it is.  `None` if
/// anything overflows.
pub open spec fn limit_from(
    levels: Seq<LimitView>,
    k: int,
    price: Dec,
    side: OrderSide,
    taker: Order,
    trade_id: int,
    record: bool,
    executed: Dec,
    quote: Dec,
    status: OrderStatus,
    fills: Seq<Fill>,
) -> Option<(Outcome, Option<Dec>)>
    decreases levels.len() - k,
{
    if k < 0 || k >= levels.len() {
        Some(((levels, taker, trade_id, executed, quote, status, fills), None))
    } else if stays_out(price, levels[k].price, side) {
        Some(((levels, taker, trade_id, executed, quote, status, fills), Some(price)))
    } else {
        let fill_price = limit_fill_price(price, levels[k].price, side);
        match match_orders(levels[k].orders, 0, taker, fill_price, trade_id, record, fills) {
            None => None,
            Some((mk, t, tid, f)) => match add_executed(t, fill_price, executed, quote) {
                None => None,
                Some((e2, q2)) => {
                    let lv = levels.update(k, LimitView { price: levels[k].price, orders: mk });
                    if t.quantity.units() > 0 && k + 1 >= levels.len() {
                        Some(((lv, t, tid, e2, q2, t.order_status, f), Some(fill_price)))
                    } else {
                        limit_from(lv, k + 1, price, side, t, tid, record, e2, q2, t.order_status, f)
                    }
                },
            },
        }
    }
}

/// The matching of a limit order: with no opposite level at all it rests
/// in the book untouched, at `price`.
pub open spec fn limit_match(levels: Seq<LimitView>, price: Dec, taker: Order, trade_id: int, record: bool) -> Option<(Outcome, Option<Dec>)> {
    if levels.len() == 0 {
        Some(((levels, taker, trade_id, Dec::zero_spec(), Dec::zero_spec(), taker.order_status, seq![]), Some(price)))
    } else {
        limit_from(levels, 0, price, taker.order_side, taker, trade_id, record, Dec::zero_spec(), Dec::zero_spec(), taker.order_status, seq![])
    }
}

/// The matching of a market order.
pub open spec fn market_match(levels: Seq<LimitView>, taker: Order, trade_id: int, record: bool) -> Option<Outcome> {
    market_from(levels, 0, taker, trade_id, record, Dec::zero_spec(), Dec::zero_spec(), taker.order_status, seq![])
}

/// Matching keeps the prices of a side, and a level stays well formed when
/// its orders stay well formed.
proof fn lemma_update_orders_wf(levels: Seq<LimitView>, k: int, mk: Seq<Order>, side: OrderSide)
    requires
        side_wf(levels, side),
        0 <= k < levels.len(),
        orders_wf(mk),
    ensures
        side_wf(levels.update(k, LimitView { price: levels[k].price, orders: mk }), side),
{
    let r = levels.update(k, LimitView { price: levels[k].price, orders: mk });
    assert forall|i: int| 0 <= i < r.len() implies #[trigger] r[i].wf() by {
        if i != k {
            assert(r[i] == levels[i]);
        } else {
            assert(levels[k].wf());
        }
    }
    assert forall|i: int, j: int| 0 <= i < j < r.len() implies ahead(#[trigger] r[i].price, #[trigger] r[j].price, side) by {
        assert(r[i].price == levels[i].price && r[j].price == levels[j].price);
    }
}

/// The running totals, computed with `rust_decimal`; `None` on overflow.
fn try_add_executed(taker: Order, price: Dec, executed: Dec, quote: Dec) -> (r: Option<(Dec, Dec)>)
    requires
        taker.wf(),
        price.wf(),
        executed.wf(),
        quote.wf(),
    ensures
        r == add_executed(taker, price, executed, quote),
        r matches Some((e, q)) ==> e.wf() && q.wf(),
{
    let el = match checked_sub(taker.initial_quantity, taker.quantity) {
        Some(x) => x,
        None => return None,
    };
    let e2 = match checked_add(executed, el) {
        Some(x) => x,
        None => return None,
    };
    let p = match checked_mul(el, price) {
        Some(x) => x,
        None => return None,
    };
    let q2 = match checked_add(quote, p) {
        Some(x) => x,
        None => return None,
    };
    Some((e2, q2))
}

/// Runs a market order against a side (see `market_from`); `None` exactly
/// when the matching overflows, the side then being in an unspecified state.
fn try_market_on_side(
    levels: &mut Vec<Limit>,
    order: Order,
    trade_id: &mut u64,
    record: bool,
    side: OrderSide,
) -> (r: Option<(Dec, Dec, OrderStatus, Vec<Fill>, Order)>)
    requires
        side_wf(side_view(old(levels)@), side),
        order.wf(),
    ensures
        match market_match(side_view(old(levels)@), order, *old(trade_id) as int, record) {
            None => r is None,
            Some((lv, t, tid, e, q, st, f)) => r matches Some((e1, q1, st1, f1, t1)) && e1 == e && q1
                == q && st1 == st && f1@ == f && t1 == t && side_view(final(levels)@) == lv
                && *final(trade_id) == tid && side_wf(lv, side) && e.wf() && q.wf() && t.wf(),
        },
{
    let ghost goal = market_match(side_view(levels@), order, *trade_id as int, record);
    let mut taker = order;
    let mut executed = Dec::zero();
    let mut quote = Dec::zero();
    let mut status = order.order_status;
    let mut fills: Vec<Fill> = Vec::new();
    let mut k: usize = 0;
    while k < levels.len()
        invariant
            goal == market_match(side_view(old(levels)@), order, *old(trade_id) as int, record),
            goal == market_from(
                side_view(levels@),
                k as int,
                taker,
                *trade_id as int,
                record,
                executed,
                quote,
                status,
                fills@,
            ),
            side_wf(side_view(levels@), side),
            k <= levels@.len(),
            taker.wf(),
            executed.wf(),
            quote.wf(),
        decreases levels@.len() - k,
    {
        let ghost before = side_view(levels@);
        let price = levels[k].price;
        proof {
            assert(before[k as int].wf());
            assert(before[k as int] == levels@[k as int]@);
        }
        let t = match levels[k].try_fill_order(taker, price, trade_id, record, &mut fills) {
            Some(t) => t,
            None => return None,
        };
        let (e2, q2) = match try_add_executed(t, price, executed, quote) {
            Some(x) => x,
            None => return None,
        };
        proof {
            assert(side_view(levels@) =~~= before.update(
                k as int,
                LimitView { price, orders: levels@[k as int].orders@ },
            ));
            lemma_update_orders_wf(before, k as int, levels@[k as int].orders@, side);
        }
        taker = t;
        executed = e2;
        quote = q2;
        status = t.order_status;
        if taker.is_filled() {
            return Some((executed, quote, status, fills, taker));
        }
        k = k + 1;
    }
    Some((executed, quote, status, fills, taker))
}

/// What matching a taker of `taker_side` against the levels `before` left
/// of them, `after`: every level at its price, none holding an order with
/// quantity left that held none before, and, when the taker comes out with
/// quantity left and is to rest at `rest`, none holding an order with
/// quantity left at a price that the resting taker would trade with.
pub open spec fn match_leaves_apart(
    before: Seq<LimitView>,
    after: Seq<LimitView>,
    taker: Order,
    rest: Option<Dec>,
    taker_side: OrderSide,
) -> bool {
    &&& after.len() == before.len()
    &&& forall|j: int| 0 <= j < after.len() ==> (#[trigger] after[j]).price == before[j].price
    &&& forall|j: int| 0 <= j < after.len() && has_open((#[trigger] after[j]).orders) ==> has_open(before[j].orders)
    &&& forall|j: int|
        0 <= j < after.len() && has_open((#[trigger] after[j]).orders) && rest is Some && taker.quantity.units() > 0
            ==> stays_out(rest.unwrap(), after[j].price, taker_side)
}

/// Every level of `levels` holding an order with quantity left is priced
/// below `x` (when `below`) or above it.
pub open spec fn open_within(levels: Seq<LimitView>, x: int, below: bool) -> bool {
    forall|i: int|
        0 <= i < levels.len() && has_open((#[trigger] levels[i]).orders)
            ==> if below { levels[i].price.units() < x } else { levels[i].price.units() > x }
}

/// Adding an order to a side keeps every level with quantity left on the
/// same side of `x`, when the order has none left or its price is on that
/// side too.
proof fn lemma_side_add_within(levels: Seq<LimitView>, k: int, price: Dec, order: Order, side: OrderSide, x: int, below: bool)
    requires
        0 <= k,
        open_within(levels, x, below),
        order.quantity.units() > 0 ==> if below { price.units() < x } else { price.units() > x },
    ensures
        open_within(side_add(levels, k, price, order, side), x, below),
    decreases levels.len() - k,
{
    let r = side_add(levels, k, price, order, side);
    if k >= levels.len() {
        assert forall|i: int| 0 <= i < r.len() && has_open((#[trigger] r[i]).orders)
            implies if below { r[i].price.units() < x } else { r[i].price.units() > x } by {
            if i < levels.len() {
                assert(r[i] == levels[i]);
            } else {
                let j = choose|j: int| 0 <= j < r[i].orders.len() && #[trigger] r[i].orders[j].quantity.units() > 0;
                assert(r[i].orders[j] == order);
            }
        }
    } else if levels[k].price.units() == price.units() {
        assert forall|i: int| 0 <= i < r.len() && has_open((#[trigger] r[i]).orders)
            implies if below { r[i].price.units() < x } else { r[i].price.units() > x } by {
            if i != k {
                assert(r[i] == levels[i]);
            } else {
                let j = choose|j: int| 0 <= j < r[i].orders.len() && #[trigger] r[i].orders[j].quantity.units() > 0;
                if j < levels[k].orders.len() {
                    assert(r[i].orders[j] == levels[k].orders[j]);
                    assert(has_open(levels[k].orders));
                } else {
                    assert(r[i].orders[j] == order);
                }
            }
        }
    } else if ahead(price, levels[k].price, side) {
        assert forall|i: int| 0 <= i < r.len() && has_open((#[trigger] r[i]).orders)
            implies if below { r[i].price.units() < x } else { r[i].price.units() > x } by {
            if i < k {
                assert(r[i] == levels[i]);
            } else if i > k {
                assert(r[i] == levels[i - 1]);
            } else {
                let j = choose|j: int| 0 <= j < r[i].orders.len() && #[trigger] r[i].orders[j].quantity.units() > 0;
                assert(r[i].orders[j] == order);
            }
        }
    } else {
        lemma_side_add_within(levels, k + 1, price, order, side, x, below);
    }
}

/// Every bid level holding an order with quantity left is priced below
/// every ask level holding one.
pub open spec fn sides_apart(bids: Seq<LimitView>, asks: Seq<LimitView>) -> bool {
    forall|i: int, j: int|
        #![trigger bids[i], asks[j]]
        0 <= i < bids.len() && 0 <= j < asks.len() && has_open(bids[i].orders) && has_open(asks[j].orders)
            ==> bids[i].price.units() < asks[j].price.units()
}

/// A limit order of `side` whose matching left the opposite levels as
/// `match_leaves_apart` says, and which then rested at `rest` (if at all) on
/// its own side, leaves apart sides apart.
proof fn lemma_limit_keeps_apart(
    bids: Seq<LimitView>,
    asks: Seq<LimitView>,
    new_bids: Seq<LimitView>,
    new_asks: Seq<LimitView>,
    taker: Order,
    rest: Option<Dec>,
    side: OrderSide,
)
    requires
        sides_apart(bids, asks),
        side == OrderSide::Bid ==> match_leaves_apart(asks, new_asks, taker, rest, side) && new_bids == match rest {
            Some(p) => side_add(bids, 0, p, taker, side),
            None => bids,
        },
        side == OrderSide::Ask ==> match_leaves_apart(bids, new_bids, taker, rest, side) && new_asks == match rest {
            Some(p) => side_add(asks, 0, p, taker, side),
            None => asks,
        },
    ensures
        sides_apart(new_bids, new_asks),
{
    assert forall|i: int, j: int|
        #![trigger new_bids[i], new_asks[j]]
        0 <= i < new_bids.len() && 0 <= j < new_asks.len() && has_open(new_bids[i].orders) && has_open(new_asks[j].orders)
        implies new_bids[i].price.units() < new_asks[j].price.units() by {
        match side {
            OrderSide::Bid => {
                let x = new_asks[j].price.units();
                assert(has_open(asks[j].orders) && asks[j].price == new_asks[j].price);
                assert forall|a: int| 0 <= a < bids.len() && has_open((#[trigger] bids[a]).orders)
                    implies bids[a].price.units() < x by {
                    assert(has_open(bids[a].orders) && has_open(asks[j].orders));
                }
                assert(open_within(bids, x, true));
                if let Some(p) = rest {
                    lemma_side_add_within(bids, 0, p, taker, side, x, true);
                }
                assert(open_within(new_bids, x, true));
            },
            OrderSide::Ask => {
                let x = new_bids[i].price.units();
                assert(has_open(bids[i].orders) && bids[i].price == new_bids[i].price);
                assert forall|a: int| 0 <= a < asks.len() && has_open((#[trigger] asks[a]).orders)
                    implies asks[a].price.units() > x by {
                    assert(has_open(bids[i].orders) && has_open(asks[a].orders));
                }
                assert(open_within(asks, x, false));
                if let Some(p) = rest {
                    lemma_side_add_within(asks, 0, p, taker, side, x, false);
                }
                assert(open_within(new_asks, x, false));
            },
        }
    }
}

/// Runs a limit order at `price` against a side (see `limit_match`); `None`
/// exactly when the matching overflows, the side then being in an
/// unspecified state.  The last component is the price at which the order
/// is to rest in the book, if it is.
fn try_limit_on_side(
    levels: &mut Vec<Limit>,
    price: Dec,
    order: Order,
    trade_id: &mut u64,
    record: bool,
    side: OrderSide,
) -> (r: Option<(Dec, Dec, OrderStatus, Vec<Fill>, Order, Option<Dec>)>)
    requires
        side_wf(side_view(old(levels)@), side),
        side == order.order_side.opposite(),
        order.wf(),
        price.wf(),
    ensures
        match limit_match(side_view(old(levels)@), price, order, *old(trade_id) as int, record) {
            None => r is None,
            Some(((lv, t, tid, e, q, st, f), rest)) => r matches Some((e1, q1, st1, f1, t1, rest1))
                && e1 == e && q1 == q && st1 == st && f1@ == f && t1 == t && rest1 == rest
                && side_view(final(levels)@) == lv && *final(trade_id) == tid && side_wf(lv, side)
                && e.wf() && q.wf() && t.wf() && (rest matches Some(p) ==> p.wf())
                && (order.quantity.units() >= 0 ==> match_leaves_apart(
                    side_view(old(levels)@),
                    lv,
                    t,
                    rest,
                    order.order_side,
                )),
        },
{
    let ghost start = side_view(levels@);
    let ghost goal = limit_match(side_view(levels@), price, order, *trade_id as int, record);
    let mut taker = order;
    let mut executed = Dec::zero();
    let mut quote = Dec::zero();
    let mut status = order.order_status;
    let mut fills: Vec<Fill> = Vec::new();
    if levels.len() == 0 {
        return Some((executed, quote, status, fills, taker, Some(price)));
    }
    let mut k: usize = 0;
    while k < levels.len()
        invariant
            goal == limit_match(side_view(old(levels)@), price, order, *old(trade_id) as int, record),
            goal == limit_from(
                side_view(levels@),
                k as int,
                price,
                order.order_side,
                taker,
                *trade_id as int,
                record,
                executed,
                quote,
                status,
                fills@,
            ),
            levels@.len() > 0,
            side_wf(side_view(levels@), side),
            k <= levels@.len(),
            taker.wf(),
            price.wf(),
            executed.wf(),
            quote.wf(),
            start == side_view(old(levels)@),
            side == order.order_side.opposite(),
            side_view(levels@).len() == start.len(),
            forall|j: int| 0 <= j < start.len() ==> (#[trigger] side_view(levels@)[j]).price == start[j].price,
            order.quantity.units() >= 0 ==> taker.quantity.units() >= 0,
            order.quantity.units() >= 0 ==> forall|j: int|
                0 <= j < start.len() && has_open((#[trigger] side_view(levels@)[j]).orders) ==> has_open(start[j].orders),
            taker.quantity.units() != 0 ==> forall|j: int| 0 <= j < k ==> (#[trigger] side_view(levels@)[j]).orders.len() == 0,
        decreases levels@.len() - k,
    {
        let ghost before = side_view(levels@);
        let level_price = levels[k].price;
        proof {
            assert(before[k as int].wf());
            assert(before[k as int] == levels@[k as int]@);
        }
        let out = match order.order_side {
            OrderSide::Ask => less_than(level_price, price),
            OrderSide::Bid => less_than(price, level_price),
        };
        if out {
            proof {
                let cur = side_view(levels@);
                assert(stays_out(price, cur[k as int].price, order.order_side));
                assert forall|j: int|
                    0 <= j < cur.len() && has_open((#[trigger] cur[j]).orders) && taker.quantity.units() > 0
                    implies stays_out(price, cur[j].price, order.order_side) by {
                    if j < k {
                        assert(cur[j].orders.len() == 0);
                    } else if j > k {
                        assert(ahead(cur[k as int].price, cur[j].price, side));
                    }
                }
            }
            return Some((executed, quote, status, fills, taker, Some(price)));
        }
        let fill_price = match order.order_side {
            OrderSide::Ask => price,
            OrderSide::Bid => level_price,
        };
        let t = match levels[k].try_fill_order(taker, fill_price, trade_id, record, &mut fills) {
            Some(t) => t,
            None => return None,
        };
        let (e2, q2) = match try_add_executed(t, fill_price, executed, quote) {
            Some(x) => x,
            None => return None,
        };
        proof {
            assert(side_view(levels@) =~~= before.update(
                k as int,
                LimitView { price: level_price, orders: levels@[k as int].orders@ },
            ));
            lemma_update_orders_wf(before, k as int, levels@[k as int].orders@, side);
        }
        taker = t;
        executed = e2;
        quote = q2;
        status = t.order_status;
        if taker.quantity.is_positive() && k + 1 >= levels.len() {
            proof {
                let cur = side_view(levels@);
                assert forall|j: int| 0 <= j < cur.len() implies (#[trigger] cur[j]).orders.len() == 0 by {
                    if j == k {
                        assert(cur[j].orders == levels@[k as int].orders@);
                    }
                }
            }
            return Some((executed, quote, status, fills, taker, Some(fill_price)));
        }
        k = k + 1;
    }
    Some((executed, quote, status, fills, taker, None))
}


/// An order-for-order copy of a queue.
fn copy_orders(v: &Vec<Order>) -> (c: Vec<Order>)
    ensures
        c@ == v@,
{
    let mut c: Vec<Order> = Vec::new();
    let mut i: usize = 0;
    while i < v.len()
        invariant
            i <= v@.len(),
            c@ == v@.take(i as int),
        decreases v@.len() - i,
    {
        c.push(v[i]);
        i = i + 1;
        proof {
            assert(c@ =~= v@.take(i as int));
        }
    }
    proof {
        assert(v@.take(i as int) =~= v@);
    }
    c
}

/// A level-for-level copy of a side.
fn copy_side(levels: &Vec<Limit>) -> (c: Vec<Limit>)
    ensures
        side_view(c@) == side_view(levels@),
{
    let mut c: Vec<Limit> = Vec::new();
    let mut k: usize = 0;
    while k < levels.len()
        invariant
            k <= levels@.len(),
            side_view(c@) == side_view(levels@).take(k as int),
        decreases levels@.len() - k,
    {
        let orders = copy_orders(&levels[k].orders);
        let ghost before = side_view(c@);
        c.push(Limit { price: levels[k].price, orders });
        proof {
            assert(side_view(c@) =~~= before.push(levels@[k as int]@));
            assert(side_view(levels@).take(k + 1) =~~= side_view(levels@).take(k as int).push(
                levels@[k as int]@,
            ));
        }
        k = k + 1;
    }
    proof {
        assert(side_view(levels@).take(k as int) =~~= side_view(levels@));
    }
    c
}

impl Orderbook {
    /// No bid with quantity left is priced at or above an ask with quantity
    /// left: every bid level holding such an order is priced below every ask
    /// level holding one.
    pub open spec fn uncrossed(&self) -> bool {
        sides_apart(self.levels(OrderSide::Bid), self.levels(OrderSide::Ask))
    }

    /// What matching a market `order` against the opposite side gives.
    pub open spec fn market_outcome(&self, order: Order, record: bool) -> Option<Outcome> {
        market_match(self.levels(order.order_side.opposite()), order, self.trade_id as int, record)
    }

    /// What matching a limit `order` at `price` against the opposite side
    /// gives, and whether it then rests in the book.
    pub open spec fn limit_outcome(&self, price: Dec, order: Order, record: bool) -> Option<(Outcome, Option<Dec>)> {
        limit_match(self.levels(order.order_side.opposite()), price, order, self.trade_id as int, record)
    }

    /// Matches a market order against the opposite side, best price first,
    /// until it is filled or that side runs out (see `market_from`); what is
    /// left of it does not rest.  Gives the quantity and quote amount
    /// executed, the order's last status and, when `should_execute_trade`,
    /// the report of every trade.
    pub fn fill_market_order(&mut self, order: Order, should_execute_trade: bool) -> (r: (
        Dec,
        Dec,
        OrderStatus,
        Vec<Fill>,
    ))
        requires
            old(self).wf(),
            order.wf(),
            old(self).market_outcome(order, should_execute_trade) is Some,
        ensures
            final(self).wf(),
            ({
                let (lv, t, tid, e, q, st, f) = old(self).market_outcome(order, should_execute_trade).unwrap();
                &&& r.0 == e && r.1 == q && r.2 == st && r.3@ == f
                &&& final(self).levels(order.order_side.opposite()) == lv
                &&& final(self).trade_id == tid
            }),
            final(self).levels(order.order_side) == old(self).levels(order.order_side),
            final(self).order_id == old(self).order_id,
            final(self).exchange == old(self).exchange,
            old(self).after_market(final(self), order, should_execute_trade, (r.0, r.1, r.2, r.3@)),
    {
        match self.try_fill_market_order(order, should_execute_trade) {
            Some(r) => r,
            None => (Dec::zero(), Dec::zero(), order.order_status, Vec::new()),
        }
    }

    /// `fill_market_order`, or `None` with the book untouched when the
    /// matching would overflow.
    pub fn try_fill_market_order(&mut self, order: Order, should_execute_trade: bool) -> (r: Option<(
        Dec,
        Dec,
        OrderStatus,
        Vec<Fill>,
    )>)
        requires
            old(self).wf(),
            order.wf(),
        ensures
            final(self).wf(),
            match old(self).market_outcome(order, should_execute_trade) {
                None => r is None && final(self).levels(order.order_side.opposite()) == old(self).levels(
                    order.order_side.opposite(),
                ) && final(self).trade_id == old(self).trade_id,
                Some((lv, t, tid, e, q, st, f)) => r matches Some((e1, q1, st1, f1)) && e1 == e && q1
                    == q && st1 == st && f1@ == f && final(self).levels(order.order_side.opposite())
                    == lv && final(self).trade_id == tid,
            },
            final(self).levels(order.order_side) == old(self).levels(order.order_side),
            final(self).order_id == old(self).order_id,
            final(self).exchange == old(self).exchange,
    {
        let mut tid = self.trade_id;
        match order.order_side {
            OrderSide::Ask => {
                let mut side = copy_side(&self.bids);
                match try_market_on_side(&mut side, order, &mut tid, should_execute_trade, OrderSide::Bid) {
                    None => None,
                    Some((e, q, st, f, _t)) => {
                        self.bids = side;
                        self.trade_id = tid;
                        Some((e, q, st, f))
                    },
                }
            },
            OrderSide::Bid => {
                let mut side = copy_side(&self.asks);
                match try_market_on_side(&mut side, order, &mut tid, should_execute_trade, OrderSide::Ask) {
                    None => None,
                    Some((e, q, st, f, _t)) => {
                        self.asks = side;
                        self.trade_id = tid;
                        Some((e, q, st, f))
                    },
                }
            },
        }
    }

    /// Matches a limit order at `price` against the opposite side, best
    /// price first (see `limit_from`), then rests what is to rest of it on
    /// its own side: at `price` when it stopped at a level it does not
    /// cross or found none, and at the price it last traded at when it
    /// outlasted every level.  Gives the quantity and quote amount
    /// executed, the order's last status and, when `should_execute_trade`,
    /// the report of every trade.  An order whose quantity is not below
    /// zero leaves an uncrossed book uncrossed (see `uncrossed`).
    pub fn fill_limit_order(&mut self, price: Dec, order: Order, should_execute_trade: bool) -> (r: (
        Dec,
        Dec,
        OrderStatus,
        Vec<Fill>,
    ))
        requires
            old(self).wf(),
            order.wf(),
            price.wf(),
            old(self).limit_outcome(price, order, should_execute_trade) is Some,
        ensures
            final(self).wf(),
            ({
                let ((lv, t, tid, e, q, st, f), rest) = old(self).limit_outcome(price, order, should_execute_trade).unwrap();
                &&& r.0 == e && r.1 == q && r.2 == st && r.3@ == f
                &&& final(self).levels(order.order_side.opposite()) == lv
                &&& final(self).trade_id == tid
                &&& final(self).levels(order.order_side) == match rest {
                    Some(p) => side_add(old(self).levels(order.order_side), 0, p, t, order.order_side),
                    None => old(self).levels(order.order_side),
                }
            }),
            final(self).order_id == old(self).order_id,
            final(self).exchange == old(self).exchange,
            old(self).after_limit(final(self), price, order, should_execute_trade, (r.0, r.1, r.2, r.3@)),
            old(self).uncrossed() && order.quantity.units() >= 0 ==> final(self).uncrossed(),
    {
        match self.try_fill_limit_order(price, order, should_execute_trade) {
            Some(r) => r,
            None => (Dec::zero(), Dec::zero(), order.order_status, Vec::new()),
        }
    }

    /// `fill_limit_order`, or `None` with the book untouched when the
    /// matching would overflow.
    pub fn try_fill_limit_order(&mut self, price: Dec, order: Order, should_execute_trade: bool) -> (r: Option<(
        Dec,
        Dec,
        OrderStatus,
        Vec<Fill>,
    )>)
        requires
            old(self).wf(),
            order.wf(),
            price.wf(),
        ensures
            final(self).wf(),
            match old(self).limit_outcome(price, order, should_execute_trade) {
                None => r is None && final(self).levels(order.order_side.opposite()) == old(self).levels(
                    order.order_side.opposite(),
                ) && final(self).levels(order.order_side) == old(self).levels(order.order_side)
                    && final(self).trade_id == old(self).trade_id,
                Some(((lv, t, tid, e, q, st, f), rest)) => r matches Some((e1, q1, st1, f1)) && e1 == e
                    && q1 == q && st1 == st && f1@ == f && final(self).levels(
                    order.order_side.opposite(),
                ) == lv && final(self).trade_id == tid && final(self).levels(order.order_side) == match rest {
                    Some(p) => side_add(old(self).levels(order.order_side), 0, p, t, order.order_side),
                    None => old(self).levels(order.order_side),
                },
            },
            final(self).order_id == old(self).order_id,
            final(self).exchange == old(self).exchange,
            old(self).uncrossed() && order.quantity.units() >= 0 ==> final(self).uncrossed(),
    {
        let mut tid = self.trade_id;
        let outcome = match order.order_side {
            OrderSide::Ask => {
                let mut side = copy_side(&self.bids);
                match try_limit_on_side(&mut side, price, order, &mut tid, should_execute_trade, OrderSide::Bid) {
                    None => None,
                    Some(x) => {
                        self.bids = side;
                        Some(x)
                    },
                }
            },
            OrderSide::Bid => {
                let mut side = copy_side(&self.asks);
                match try_limit_on_side(&mut side, price, order, &mut tid, should_execute_trade, OrderSide::Ask) {
                    None => None,
                    Some(x) => {
                        self.asks = side;
                        Some(x)
                    },
                }
            },
        };
        match outcome {
            None => None,
            Some((e, q, st, f, t, rest)) => {
                proof {
                    lemma_limit_keeps_side(
                        old(self).levels(order.order_side.opposite()),
                        price,
                        order,
                        old(self).trade_id as int,
                        should_execute_trade,
                    );
                }
                self.trade_id = tid;
                if let Some(p) = rest {
                    self.add_limit_order(p, t);
                }
                proof {
                    if old(self).uncrossed() && order.quantity.units() >= 0 {
                        lemma_limit_keeps_apart(
                            old(self).levels(OrderSide::Bid),
                            old(self).levels(OrderSide::Ask),
                            self.levels(OrderSide::Bid),
                            self.levels(OrderSide::Ask),
                            t,
                            rest,
                            order.order_side,
                        );
                    }
                }
                Some((e, q, st, f))
            },
        }
    }
}


/// Matching never changes which side an order is on.
proof fn lemma_match_keeps_side(
    makers: Seq<Order>,
    i: int,
    taker: Order,
    price: Dec,
    trade_id: int,
    record: bool,
    fills: Seq<Fill>,
)
    ensures
        match_orders(makers, i, taker, price, trade_id, record, fills) matches Some((_, t, _, _))
            ==> t.order_side == taker.order_side,
    decreases makers.len() - i,
{
    if i < 0 || i >= makers.len() || taker.quantity.units() == 0 || trade_id >= u64::MAX {
    } else {
        match crate::engine::matching::limit::fill_step(makers[i], taker, price) {
            None => {},
            Some((m, t, q)) => {
                let f = if record {
                    fills.push(crate::engine::matching::limit::fill_record(trade_id + 1, m, t, q, price))
                } else {
                    fills
                };
                if m.quantity.units() == 0 {
                    lemma_match_keeps_side(makers.remove(i), i, t, price, trade_id + 1, record, f);
                } else {
                    lemma_match_keeps_side(makers.update(i, m), i + 1, t, price, trade_id + 1, record, f);
                }
            },
        }
    }
}

/// Walking the levels never changes which side an order is on.
proof fn lemma_limit_from_keeps_side(
    levels: Seq<LimitView>,
    k: int,
    price: Dec,
    side: OrderSide,
    taker: Order,
    trade_id: int,
    record: bool,
    executed: Dec,
    quote: Dec,
    status: OrderStatus,
    fills: Seq<Fill>,
)
    ensures
        limit_from(levels, k, price, side, taker, trade_id, record, executed, quote, status, fills)
            matches Some(((_, t, _, _, _, _, _), _)) ==> t.order_side == taker.order_side,
    decreases levels.len() - k,
{
    if k < 0 || k >= levels.len() || stays_out(price, levels[k].price, side) {
    } else {
        let fill_price = limit_fill_price(price, levels[k].price, side);
        lemma_match_keeps_side(levels[k].orders, 0, taker, fill_price, trade_id, record, fills);
        match match_orders(levels[k].orders, 0, taker, fill_price, trade_id, record, fills) {
            None => {},
            Some((mk, t, tid, f)) => match add_executed(t, fill_price, executed, quote) {
                None => {},
                Some((e2, q2)) => {
                    let lv = levels.update(k, LimitView { price: levels[k].price, orders: mk });
                    lemma_limit_from_keeps_side(lv, k + 1, price, side, t, tid, record, e2, q2, t.order_status, f);
                },
            },
        }
    }
}

/// A limit order comes out of the matching on the side it went in.
proof fn lemma_limit_keeps_side(levels: Seq<LimitView>, price: Dec, order: Order, trade_id: int, record: bool)
    ensures
        limit_match(levels, price, order, trade_id, record) matches Some(((_, t, _, _, _, _, _), _))
            ==> t.order_side == order.order_side,
{
    if levels.len() > 0 {
        lemma_limit_from_keeps_side(
            levels,
            0,
            price,
            order.order_side,
            order,
            trade_id,
            record,
            Dec::zero_spec(),
            Dec::zero_spec(),
            order.order_status,
            seq![],
        );
    }
}


/// The order that the engine builds from a received one, under id `order_id`.
pub open spec fn order_from(r: RecievedOrder, order_id: u64) -> Order {
    Order {
        id: order_id,
        user_id: r.user_id as u64,
        initial_quantity: r.initial_quantity,
        filled_quote_quantity: Dec::zero_spec(),
        quantity: r.initial_quantity,
        order_type: r.order_type,
        order_side: r.order_side,
        order_status: OrderStatus::InProgress,
        timestamp: r.timestamp as u64,
    }
}

/// The quote for `remaining` of the base asset, walking the levels from
/// position `k`, best first, with `acc` quoted so far: a level holding at
/// least what remains quotes the rest at its price; a smaller one is taken
/// whole.  `Err(AskedMoreThanTradeable)` when the levels run out first;
/// `None` if anything overflows.
pub open spec fn quote_from(levels: Seq<LimitView>, k: int, remaining: Dec, acc: Dec) -> Option<Result<Dec, MatchingEngineErrors>>
    decreases levels.len() - k,
{
    if k < 0 || k >= levels.len() {
        Some(Err(MatchingEngineErrors::AskedMoreThanTradeable))
    } else {
        match volume_of(levels[k].orders) {
            None => None,
            Some(total) => if total.units() >= remaining.units() {
                match decimal_product(remaining, levels[k].price) {
                    None => None,
                    Some(p) => match decimal_sum(acc, p) {
                        None => None,
                        Some(q) => Some(Ok(q)),
                    },
                }
            } else {
                match decimal_product(total, levels[k].price) {
                    None => None,
                    Some(p) => match (decimal_sum(acc, p), decimal_difference(remaining, total)) {
                        (Some(a2), Some(r2)) => quote_from(levels, k + 1, r2, a2),
                        _ => None,
                    },
                }
            },
        }
    }
}

/// Every level's price with the quantity resting there, best first;
/// `None` if a sum overflows.
pub open spec fn depth_of(levels: Seq<LimitView>) -> Option<Seq<(Dec, Dec)>>
    decreases levels.len(),
{
    if levels.len() == 0 {
        Some(seq![])
    } else {
        match (depth_of(levels.drop_last()), volume_of(levels.last().orders)) {
            (Some(d), Some(v)) => Some(d.push((levels.last().price, v))),
            _ => None,
        }
    }
}

/// The orders of `user` in a queue, oldest first, each with the price `price`.
pub open spec fn user_orders_in(orders: Seq<Order>, price: Dec, user: u64) -> Seq<(Dec, Order)>
    decreases orders.len(),
{
    if orders.len() == 0 {
        seq![]
    } else {
        let rest = user_orders_in(orders.drop_last(), price, user);
        if orders.last().user_id == user {
            rest.push((price, orders.last()))
        } else {
            rest
        }
    }
}

/// The orders of `user` on a side with their prices, level by level, best first.
pub open spec fn user_orders(levels: Seq<LimitView>, user: u64) -> Seq<(Dec, Order)>
    decreases levels.len(),
{
    if levels.len() == 0 {
        seq![]
    } else {
        user_orders(levels.drop_last(), user) + user_orders_in(levels.last().orders, levels.last().price, user)
    }
}

/// A queue without the orders of `user`.
pub open spec fn without_user(orders: Seq<Order>, user: u64) -> Seq<Order>
    decreases orders.len(),
{
    if orders.len() == 0 {
        seq![]
    } else {
        let rest = without_user(orders.drop_last(), user);
        if orders.last().user_id == user {
            rest
        } else {
            rest.push(orders.last())
        }
    }
}

/// A side without the orders of `user`; its levels stay, even when empty.
pub open spec fn side_without_user(levels: Seq<LimitView>, user: u64) -> Seq<LimitView> {
    Seq::new(levels.len(), |i: int| LimitView { price: levels[i].price, orders: without_user(levels[i].orders, user) })
}

/// Dropping orders keeps a queue well formed.
proof fn lemma_without_user_wf(orders: Seq<Order>, user: u64)
    requires
        orders_wf(orders),
    ensures
        orders_wf(without_user(orders, user)),
    decreases orders.len(),
{
    if orders.len() > 0 {
        let p = orders.drop_last();
        assert(orders_wf(p)) by {
            assert forall|i: int| 0 <= i < p.len() implies #[trigger] p[i].wf() by {
                assert(p[i] == orders[i]);
            }
        }
        lemma_without_user_wf(p, user);
        assert(orders[orders.len() - 1].wf());
    }
}

/// The quote for `remaining` from a side, walked best first.
fn try_quote_side(levels: &Vec<Limit>, order_quantity: Dec, side: OrderSide) -> (r: Option<Result<Dec, MatchingEngineErrors>>)
    requires
        side_wf(side_view(levels@), side),
        order_quantity.wf(),
    ensures
        r == quote_from(side_view(levels@), 0, order_quantity, Dec::zero_spec()),
{
    let mut remaining = order_quantity;
    let mut quote = Dec::zero();
    let mut k: usize = 0;
    while k < levels.len()
        invariant
            side_wf(side_view(levels@), side),
            k <= levels@.len(),
            remaining.wf(),
            quote.wf(),
            quote_from(side_view(levels@), 0, order_quantity, Dec::zero_spec()) == quote_from(side_view(levels@), k as int, remaining, quote),
        decreases levels@.len() - k,
    {
        proof {
            assert(side_view(levels@)[k as int].wf());
            assert(side_view(levels@)[k as int] == levels@[k as int]@);
        }
        let total = match levels[k].try_total_volume() {
            Some(t) => t,
            None => return None,
        };
        let price = levels[k].price;
        if !less_than(total, remaining) {
            let p = match checked_mul(remaining, price) {
                Some(x) => x,
                None => return None,
            };
            return match checked_add(quote, p) {
                Some(q) => Some(Ok(q)),
                None => None,
            };
        }
        let p = match checked_mul(total, price) {
            Some(x) => x,
            None => return None,
        };
        quote = match checked_add(quote, p) {
            Some(x) => x,
            None => return None,
        };
        remaining = match checked_sub(remaining, total) {
            Some(x) => x,
            None => return None,
        };
        k = k + 1;
    }
    Some(Err(MatchingEngineErrors::AskedMoreThanTradeable))
}


/// Every level's price with the quantity resting there, best first.
fn try_depth_side(levels: &Vec<Limit>, side: OrderSide) -> (r: Option<Vec<(Dec, Dec)>>)
    requires
        side_wf(side_view(levels@), side),
    ensures
        match depth_of(side_view(levels@)) {
            None => r is None,
            Some(d) => r matches Some(v) && v@ == d,
        },
{
    let mut out: Vec<(Dec, Dec)> = Vec::new();
    let mut k: usize = 0;
    while k < levels.len()
        invariant
            side_wf(side_view(levels@), side),
            k <= levels@.len(),
            depth_of(side_view(levels@).take(k as int)) == Some(out@),
        decreases levels@.len() - k,
    {
        proof {
            assert(side_view(levels@)[k as int].wf());
            assert(side_view(levels@)[k as int] == levels@[k as int]@);
            assert(side_view(levels@).take(k + 1).drop_last() =~~= side_view(levels@).take(k as int));
        }
        let v = match levels[k].try_total_volume() {
            Some(v) => v,
            None => {
                proof {
                    lemma_depth_none_extends(side_view(levels@), k + 1);
                }
                return None;
            },
        };
        out.push((levels[k].price, v));
        k = k + 1;
    }
    proof {
        assert(side_view(levels@).take(k as int) =~~= side_view(levels@));
    }
    Some(out)
}

/// Once a level's volume overflows, so does the depth of every longer run.
proof fn lemma_depth_none_extends(levels: Seq<LimitView>, n: int)
    requires
        0 <= n <= levels.len(),
        depth_of(levels.take(n)) is None,
    ensures
        depth_of(levels) is None,
    decreases levels.len() - n,
{
    if n < levels.len() {
        assert(levels.take(n + 1).drop_last() =~~= levels.take(n));
        lemma_depth_none_extends(levels, n + 1);
    } else {
        assert(levels.take(n) =~~= levels);
    }
}

impl Orderbook {
    /// The orders of `user` on a side with their prices, level by level.
    pub fn users_orders(levels: &Vec<Limit>, user_id: u64) -> (r: Vec<(Dec, Order)>)
        ensures
            r@ == user_orders(side_view(levels@), user_id),
    {
        let mut out: Vec<(Dec, Order)> = Vec::new();
        let mut k: usize = 0;
        while k < levels.len()
            invariant
                k <= levels@.len(),
                out@ == user_orders(side_view(levels@).take(k as int), user_id),
            decreases levels@.len() - k,
        {
            let ghost before = out@;
            let price = levels[k].price;
            let mut j: usize = 0;
            while j < levels[k].orders.len()
                invariant
                    k < levels@.len(),
                    price == levels@[k as int].price,
                    j <= levels@[k as int].orders@.len(),
                    out@ == before + user_orders_in(levels@[k as int].orders@.take(j as int), price, user_id),
                decreases levels@[k as int].orders@.len() - j,
            {
                let o = levels[k].orders[j];
                proof {
                    assert(levels@[k as int].orders@.take(j + 1).drop_last() =~= levels@[k as int].orders@.take(j as int));
                }
                if o.user_id == user_id {
                    out.push((price, o));
                }
                j = j + 1;
            }
            proof {
                assert(levels@[k as int].orders@.take(j as int) =~= levels@[k as int].orders@);
                let t = side_view(levels@).take(k + 1);
                assert(t.drop_last() =~~= side_view(levels@).take(k as int));
                assert(t.last() == levels@[k as int]@);
            }
            k = k + 1;
        }
        proof {
            assert(side_view(levels@).take(k as int) =~~= side_view(levels@));
        }
        out
    }
}

/// Drops the orders of `user` from every level of a side.
fn drop_user(levels: &mut Vec<Limit>, user_id: u64, side: OrderSide)
    requires
        side_wf(side_view(old(levels)@), side),
    ensures
        side_view(final(levels)@) == side_without_user(side_view(old(levels)@), user_id),
        side_wf(side_view(final(levels)@), side),
{
    let ghost start = side_view(levels@);
    let mut k: usize = 0;
    while k < levels.len()
        invariant
            start == side_view(old(levels)@),
            side_wf(start, side),
            k <= levels@.len(),
            levels@.len() == start.len(),
            forall|i: int| 0 <= i < k ==> #[trigger] side_view(levels@)[i] == side_without_user(start, user_id)[i],
            forall|i: int| k <= i < levels@.len() ==> #[trigger] side_view(levels@)[i] == start[i],
        decreases levels@.len() - k,
    {
        let ghost lv = start[k as int];
        proof {
            assert(side_view(levels@)[k as int] == levels@[k as int]@);
        }
        let mut kept: Vec<Order> = Vec::new();
        let mut j: usize = 0;
        while j < levels[k].orders.len()
            invariant
                k < levels@.len(),
                levels@[k as int]@ == lv,
                j <= lv.orders.len(),
                kept@ == without_user(lv.orders.take(j as int), user_id),
            decreases lv.orders.len() - j,
        {
            let o = levels[k].orders[j];
            proof {
                assert(lv.orders.take(j + 1).drop_last() =~= lv.orders.take(j as int));
            }
            if o.user_id != user_id {
                kept.push(o);
            }
            j = j + 1;
        }
        proof {
            assert(lv.orders.take(j as int) =~= lv.orders);
        }
        let price = levels[k].price;
        let ghost before = side_view(levels@);
        levels.set(k, Limit { price, orders: kept });
        proof {
            assert forall|i: int| 0 <= i < k + 1 implies #[trigger] side_view(levels@)[i] == side_without_user(start, user_id)[i] by {
                if i < k {
                    assert(side_view(levels@)[i] == before[i]);
                }
            }
            assert forall|i: int| k + 1 <= i < levels@.len() implies #[trigger] side_view(levels@)[i] == start[i] by {
                assert(side_view(levels@)[i] == before[i]);
            }
        }
        k = k + 1;
    }
    proof {
        assert(side_view(levels@) =~~= side_without_user(start, user_id));
        let r = side_without_user(start, user_id);
        assert forall|i: int| 0 <= i < r.len() implies #[trigger] r[i].wf() by {
            assert(start[i].wf());
            lemma_without_user_wf(start[i].orders, user_id);
        }
        assert forall|i: int, j: int| 0 <= i < j < r.len() implies ahead(#[trigger] r[i].price, #[trigger] r[j].price, side) by {
            assert(r[i].price == start[i].price && r[j].price == start[j].price);
        }
    }
}


/// The orders of a side's levels, with their prices, are well formed.
proof fn lemma_user_orders_wf(levels: Seq<LimitView>, user: u64)
    requires
        forall|i: int| 0 <= i < levels.len() ==> #[trigger] levels[i].wf(),
    ensures
        forall|i: int| 0 <= i < user_orders(levels, user).len() ==> (#[trigger] user_orders(levels, user)[i]).0.wf()
            && user_orders(levels, user)[i].1.wf(),
    decreases levels.len(),
{
    if levels.len() > 0 {
        let p = levels.drop_last();
        assert forall|i: int| 0 <= i < p.len() implies #[trigger] p[i].wf() by {
            assert(p[i] == levels[i]);
        }
        lemma_user_orders_wf(p, user);
        let lv = levels.last();
        assert(levels[levels.len() - 1].wf());
        lemma_user_orders_in_wf(lv.orders, lv.price, user);
        let a = user_orders(p, user);
        let b = user_orders_in(lv.orders, lv.price, user);
        assert forall|i: int| 0 <= i < (a + b).len() implies (#[trigger] (a + b)[i]).0.wf() && (a + b)[i].1.wf() by {
            if i < a.len() {
                assert((a + b)[i] == a[i]);
            } else {
                assert((a + b)[i] == b[i - a.len()]);
            }
        }
    }
}

/// The orders of a queue, with the level's price, are well formed.
proof fn lemma_user_orders_in_wf(orders: Seq<Order>, price: Dec, user: u64)
    requires
        orders_wf(orders),
        price.wf(),
    ensures
        forall|i: int| 0 <= i < user_orders_in(orders, price, user).len() ==> (#[trigger] user_orders_in(orders, price, user)[i]).0.wf()
            && user_orders_in(orders, price, user)[i].1.wf(),
    decreases orders.len(),
{
    if orders.len() > 0 {
        let p = orders.drop_last();
        assert forall|i: int| 0 <= i < p.len() implies #[trigger] p[i].wf() by {
            assert(p[i] == orders[i]);
        }
        lemma_user_orders_in_wf(p, price, user);
        assert(orders[orders.len() - 1].wf());
        let rest = user_orders_in(p, price, user);
        if orders.last().user_id == user {
            let r = rest.push((price, orders.last()));
            assert forall|i: int| 0 <= i < r.len() implies (#[trigger] r[i]).0.wf() && r[i].1.wf() by {
                if i < rest.len() {
                    assert(r[i] == rest[i]);
                }
            }
        }
    }
}

/// What cancelling the order `o` resting at `price` involves: the amount it
/// had locked (for a bid its quantity left times the price, in the quote
/// asset; for an ask its quantity left, in the base asset), the quantity
/// filled (`initial_quantity - quantity`) and the quote amount of the whole
/// order (`initial_quantity * price`); `None` on overflow.
pub open spec fn cancel_amounts(price: Dec, o: Order) -> Option<(Dec, Dec, Dec)> {
    let unlock = match o.order_side {
        OrderSide::Bid => decimal_product(o.quantity, price),
        OrderSide::Ask => Some(o.quantity),
    };
    match (unlock, decimal_difference(o.initial_quantity, o.quantity), decimal_product(o.initial_quantity, price)) {
        (Some(u), Some(f), Some(q)) => Some((u, f, q)),
        _ => None,
    }
}

/// Every one of the orders can be cancelled without overflow.
pub open spec fn cancel_all_ok(open: Seq<(Dec, Order)>) -> bool {
    forall|i: int| 0 <= i < open.len() ==> (#[trigger] cancel_amounts(open[i].0, open[i].1)) is Some
}

/// `r` reports the cancellation of the order `o` that rested at `price` in
/// the market `symbol`.
pub open spec fn cancel_record(r: RecievedOrder, price: Dec, o: Order, symbol: Seq<char>) -> bool {
    &&& cancel_amounts(price, o) matches Some((_, f, q))
    &&& r.filled_quantity == f
    &&& r.quote_quantity == q
    &&& r.id == o.id as i64
    &&& r.user_id == o.user_id as i64
    &&& r.symbol@ == symbol
    &&& r.price == price
    &&& r.initial_quantity == o.initial_quantity
    &&& r.filled_quote_quantity == o.filled_quote_quantity
    &&& r.order_type == o.order_type
    &&& r.order_side == o.order_side
    &&& r.order_status == OrderStatus::Cancelled
    &&& r.timestamp == o.timestamp as i64
}

/// What cancelling `o` at `price` unlocks, in a market of `base` against
/// `quote`: the asset and the amount.
pub open spec fn cancel_unlock(price: Dec, o: Order, base: Asset, quote: Asset) -> (Asset, Dec) {
    let amount = cancel_amounts(price, o).unwrap().0;
    match o.order_side {
        OrderSide::Bid => (quote, amount),
        OrderSide::Ask => (base, amount),
    }
}

impl Orderbook {
    /// The orders of `user`, with their prices: those on the ask side, then
    /// those on the bid side, each side level by level, best first.
    pub open spec fn open_orders(&self, user: u64) -> Seq<(Dec, Order)> {
        user_orders(side_view(self.asks@), user) + user_orders(side_view(self.bids@), user)
    }

    /// The orders of `user`, with their prices (see `open_orders`).
    pub fn get_open_orders(&self, user_id: u64) -> (r: Vec<(Dec, Order)>)
        ensures
            r@ == self.open_orders(user_id),
    {
        let mut open_orders = Orderbook::users_orders(&self.asks, user_id);
        let mut bids = Orderbook::users_orders(&self.bids, user_id);
        open_orders.append(&mut bids);
        open_orders
    }

    /// Every level's price with the quantity resting there: bids from the
    /// highest price, asks from the lowest.
    pub fn get_depth(&self) -> (r: (Vec<(Dec, Dec)>, Vec<(Dec, Dec)>))
        requires
            self.wf(),
            depth_of(side_view(self.bids@)) is Some,
            depth_of(side_view(self.asks@)) is Some,
        ensures
            Some(r.0@) == depth_of(side_view(self.bids@)),
            Some(r.1@) == depth_of(side_view(self.asks@)),
    {
        match self.try_get_depth() {
            Some(r) => r,
            None => (Vec::new(), Vec::new()),
        }
    }

    /// `get_depth`, or `None` when a level's volume overflows.
    pub fn try_get_depth(&self) -> (r: Option<(Vec<(Dec, Dec)>, Vec<(Dec, Dec)>)>)
        requires
            self.wf(),
        ensures
            match (depth_of(side_view(self.bids@)), depth_of(side_view(self.asks@))) {
                (Some(b), Some(a)) => r matches Some((rb, ra)) && rb@ == b && ra@ == a,
                _ => r is None,
            },
    {
        let bids = match try_depth_side(&self.bids, OrderSide::Bid) {
            Some(b) => b,
            None => return None,
        };
        let asks = match try_depth_side(&self.asks, OrderSide::Ask) {
            Some(a) => a,
            None => return None,
        };
        Some((bids, asks))
    }

    /// The quote amount that taking `order_quantity` with an order of
    /// `order_side` would cost or bring, from the opposite side's levels,
    /// best first (see `quote_from`).
    pub fn get_quote(&self, order_side: &OrderSide, order_quantity: Dec) -> (r: Result<Dec, MatchingEngineErrors>)
        requires
            self.wf(),
            order_quantity.wf(),
            quote_from(self.levels(order_side.opposite()), 0, order_quantity, Dec::zero_spec()) is Some,
        ensures
            Some(r) == quote_from(self.levels(order_side.opposite()), 0, order_quantity, Dec::zero_spec()),
    {
        match self.try_get_quote(order_side, order_quantity) {
            Some(r) => r,
            None => Err(MatchingEngineErrors::AskedMoreThanTradeable),
        }
    }

    /// `get_quote`, or `None` when the computation overflows.
    pub fn try_get_quote(&self, order_side: &OrderSide, order_quantity: Dec) -> (r: Option<Result<Dec, MatchingEngineErrors>>)
        requires
            self.wf(),
            order_quantity.wf(),
        ensures
            r == quote_from(self.levels(order_side.opposite()), 0, order_quantity, Dec::zero_spec()),
    {
        match order_side {
            OrderSide::Ask => try_quote_side(&self.bids, order_quantity, OrderSide::Bid),
            OrderSide::Bid => try_quote_side(&self.asks, order_quantity, OrderSide::Ask),
        }
    }

    /// Builds the order for `recieved_order` under id `order_id` and matches
    /// it, reporting every trade: a market order as `fill_market_order`
    /// does, a limit order as `fill_limit_order` does at its price.
    pub fn process_order(&mut self, recieved_order: &RecievedOrder, order_id: u64) -> (r: (
        Dec,
        Dec,
        OrderStatus,
        Vec<Fill>,
    ))
        requires
            old(self).wf(),
            recieved_order.wf(),
            old(self).process_ok(*recieved_order, order_id),
        ensures
            final(self).wf(),
            old(self).after_process(final(self), *recieved_order, order_id, (r.0, r.1, r.2, r.3@)),
            final(self).order_id == old(self).order_id,
            final(self).exchange == old(self).exchange,
    {
        match self.try_process_order(recieved_order, order_id) {
            Some(r) => r,
            None => (Dec::zero(), Dec::zero(), OrderStatus::InProgress, Vec::new()),
        }
    }

    /// `next` is this book after a market order was matched against it,
    /// and `r` is what the matching reported.
    pub open spec fn after_market(&self, next: &Orderbook, order: Order, record: bool, r: (Dec, Dec, OrderStatus, Seq<Fill>)) -> bool {
        match self.market_outcome(order, record) {
            None => false,
            Some((lv, t, tid, e, q, st, f)) => {
                &&& r == (e, q, st, f)
                &&& next.levels(order.order_side.opposite()) == lv
                &&& next.levels(order.order_side) == self.levels(order.order_side)
                &&& next.trade_id == tid
            },
        }
    }

    /// `next` is this book after a limit order at `price` was matched
    /// against it and rested where it was to rest, and `r` is what the
    /// matching reported.
    pub open spec fn after_limit(&self, next: &Orderbook, price: Dec, order: Order, record: bool, r: (Dec, Dec, OrderStatus, Seq<Fill>)) -> bool {
        match self.limit_outcome(price, order, record) {
            None => false,
            Some(((lv, t, tid, e, q, st, f), rest)) => {
                &&& r == (e, q, st, f)
                &&& next.levels(order.order_side.opposite()) == lv
                &&& next.levels(order.order_side) == match rest {
                    Some(p) => side_add(self.levels(order.order_side), 0, p, t, order.order_side),
                    None => self.levels(order.order_side),
                }
                &&& next.trade_id == tid
            },
        }
    }

    /// Whether processing `recieved_order` under id `order_id` can be done
    /// without overflow.
    pub open spec fn process_ok(&self, recieved_order: RecievedOrder, order_id: u64) -> bool {
        match recieved_order.order_type {
            OrderType::Market => self.market_outcome(order_from(recieved_order, order_id), true) is Some,
            OrderType::Limit => self.limit_outcome(recieved_order.price, order_from(recieved_order, order_id), true) is Some,
        }
    }

    /// `next` is this book after `recieved_order` was processed under id
    /// `order_id`, and `r` is what the matching reported.
    pub open spec fn after_process(&self, next: &Orderbook, recieved_order: RecievedOrder, order_id: u64, r: (Dec, Dec, OrderStatus, Seq<Fill>)) -> bool {
        match recieved_order.order_type {
            OrderType::Market => self.after_market(next, order_from(recieved_order, order_id), true, r),
            OrderType::Limit => self.after_limit(next, recieved_order.price, order_from(recieved_order, order_id), true, r),
        }
    }

    /// `process_order`, or `None` with the book untouched when the matching
    /// would overflow.
    pub fn try_process_order(&mut self, recieved_order: &RecievedOrder, order_id: u64) -> (r: Option<(
        Dec,
        Dec,
        OrderStatus,
        Vec<Fill>,
    )>)
        requires
            old(self).wf(),
            recieved_order.wf(),
        ensures
            final(self).wf(),
            match r {
                None => !old(self).process_ok(*recieved_order, order_id)
                    && final(self).levels(OrderSide::Ask) == old(self).levels(OrderSide::Ask)
                    && final(self).levels(OrderSide::Bid) == old(self).levels(OrderSide::Bid)
                    && final(self).trade_id == old(self).trade_id,
                Some(x) => old(self).after_process(final(self), *recieved_order, order_id, (x.0, x.1, x.2, x.3@)),
            },
            final(self).order_id == old(self).order_id,
            final(self).exchange == old(self).exchange,
    {
        let order = Order::new(
            order_id,
            recieved_order.timestamp as u64,
            recieved_order.order_side,
            recieved_order.initial_quantity,
            recieved_order.order_type,
            recieved_order.user_id as u64,
        );
        match recieved_order.order_type {
            OrderType::Market => self.try_fill_market_order(order, true),
            OrderType::Limit => self.try_fill_limit_order(recieved_order.price, order, true),
        }
    }
}


impl Orderbook {
    /// `next` is this book with every order of `user` taken out, and
    /// `records` and `unlocks` report those orders (see `cancel_record`,
    /// `cancel_unlock`), one entry per order in the order of `open_orders`.
    pub open spec fn after_cancel_all(&self, next: &Orderbook, user: u64, records: Seq<RecievedOrder>, unlocks: Seq<(Asset, Dec)>) -> bool {
        let open = self.open_orders(user);
        &&& records.len() == open.len()
        &&& unlocks.len() == open.len()
        &&& forall|i: int| 0 <= i < open.len() ==> cancel_record(#[trigger] records[i], open[i].0, open[i].1, self.exchange.symbol@)
        &&& forall|i: int| 0 <= i < open.len() ==> #[trigger] unlocks[i] == cancel_unlock(open[i].0, open[i].1, self.exchange.base, self.exchange.quote)
        &&& next.levels(OrderSide::Ask) == side_without_user(self.levels(OrderSide::Ask), user)
        &&& next.levels(OrderSide::Bid) == side_without_user(self.levels(OrderSide::Bid), user)
        &&& next.trade_id == self.trade_id
        &&& next.order_id == self.order_id
        &&& next.exchange == self.exchange
    }

    /// What cancelling every order of `user` unlocks, in the order of
    /// `open_orders`: for each, the asset and the amount that its owner had
    /// locked (see `cancel_unlock`).
    pub open spec fn cancel_unlocks(&self, user: u64) -> Seq<(Asset, Dec)> {
        let open = self.open_orders(user);
        Seq::new(open.len(), |i: int| cancel_unlock(open[i].0, open[i].1, self.exchange.base, self.exchange.quote))
    }

    /// Whether cancelling every order of `user` can be done: no amount
    /// overflows, `users` holds the user and every unlock succeeds.
    pub open spec fn cancel_all_feasible(&self, users: &Users, user: u64) -> bool {
        &&& cancel_all_ok(self.open_orders(user))
        &&& users.users@.contains_key(user)
        &&& unlocked(users.users@[user].locked_balance@, self.cancel_unlocks(user)) is Some
    }

    /// `next` and `users_after` are the book and the users after every
    /// order of `user` was cancelled: the book as `after_cancel_all` says,
    /// the user's locked balances lowered by `cancel_unlocks` (every other
    /// balance and user as they were, and the user untouched when there is
    /// nothing to unlock), and `locked` the entries of the
    /// user's locked balances after it, amounts as `rust_decimal` prints
    /// them.
    pub open spec fn after_cancel_all_users(
        &self,
        next: &Orderbook,
        users: &Users,
        users_after: &Users,
        user: u64,
        records: Seq<RecievedOrder>,
        locked: Seq<(String, String)>,
    ) -> bool {
        &&& self.after_cancel_all(next, user, records, self.cancel_unlocks(user))
        &&& users_after.users@.dom() == users.users@.dom()
        &&& forall|k: u64| k != user && #[trigger] users.users@.contains_key(k) ==> users_after.users@[k] == users.users@[k]
        &&& users_after.users@[user].balance@ == users.users@[user].balance@
        &&& users_after.users@[user].locked_balance@ == unlocked(users.users@[user].locked_balance@, self.cancel_unlocks(user)).unwrap()
        &&& self.cancel_unlocks(user).len() == 0 ==> users_after.users@[user] == users.users@[user]
        &&& locked.len() == users_after.users@[user].locked_balance.entries@.len()
        &&& forall|i: int| 0 <= i < locked.len() ==> (#[trigger] locked[i]).0@ == users_after.users@[user].locked_balance.entries@[i].0.name()
            && locked[i].1@ == decimal_text(users_after.users@[user].locked_balance.entries@[i].1)
        &&& Balances::parse_entries(locked) == Some(users_after.users@[user].locked_balance@)
    }

    /// What `try_cancel_all_orders` leaves: when cancelling every order of
    /// `user` cannot be done (see `cancel_all_feasible`), no answer and the
    /// book and the users as they were; else the answer that
    /// `after_cancel_all_users` describes.
    pub open spec fn after_try_cancel_all(
        &self,
        next: &Orderbook,
        users: &Users,
        users_after: &Users,
        user: u64,
        r: Option<(Seq<RecievedOrder>, Seq<(String, String)>)>,
    ) -> bool {
        match r {
            None => {
                &&& !self.cancel_all_feasible(users, user)
                &&& next.levels(OrderSide::Ask) == self.levels(OrderSide::Ask)
                &&& next.levels(OrderSide::Bid) == self.levels(OrderSide::Bid)
                &&& next.trade_id == self.trade_id
                &&& next.order_id == self.order_id
                &&& next.exchange == self.exchange
                &&& users_after.users@ == users.users@
            },
            Some((records, locked)) => {
                &&& self.cancel_all_feasible(users, user)
                &&& self.after_cancel_all_users(next, users, users_after, user, records, locked)
            },
        }
    }

    /// Takes every order of `user` out of the book and unlocks what its
    /// owner had locked for each: the quote amount of a bid (its quantity
    /// times its price), the base amount of an ask.  Gives a record of each
    /// order (as cancelled, with what it had filled), in the order of
    /// `open_orders`, and the user's locked balances after it.
    pub fn cancel_all_orders(&mut self, users: &mut Users, user_id: u64) -> (r: (Vec<RecievedOrder>, Vec<(String, String)>))
        requires
            old(self).wf(),
            old(users).wf(),
            old(self).cancel_all_feasible(old(users), user_id),
        ensures
            final(self).wf(),
            final(users).wf(),
            old(self).after_cancel_all_users(final(self), old(users), final(users), user_id, r.0@, r.1@),
    {
        match self.try_cancel_all_orders(users, user_id) {
            Some(r) => r,
            None => (Vec::new(), Vec::new()),
        }
    }

    /// `cancel_all_orders`, or `None` with the book and the users untouched
    /// when it cannot be done (see `cancel_all_feasible`).
    pub fn try_cancel_all_orders(&mut self, users: &mut Users, user_id: u64) -> (r: Option<(Vec<RecievedOrder>, Vec<(String, String)>)>)
        requires
            old(self).wf(),
            old(users).wf(),
        ensures
            final(self).wf(),
            final(users).wf(),
            old(self).after_try_cancel_all(
                final(self),
                old(users),
                final(users),
                user_id,
                match r {
                    Some((records, locked)) => Some((records@, locked@)),
                    None => None,
                },
            ),
    {
        broadcast use vstd::std_specs::hash::group_hash_axioms;

        let (records, unlocks) = match self.cancel_records(user_id) {
            Some(x) => x,
            None => return None,
        };
        proof {
            assert(unlocks@ =~= self.cancel_unlocks(user_id));
        }
        if !users.try_unlock(user_id, &unlocks) {
            return None;
        }
        drop_user(&mut self.asks, user_id, OrderSide::Ask);
        drop_user(&mut self.bids, user_id, OrderSide::Bid);
        let locked = match users.users.get(&user_id) {
            Some(u) => u.locked_balance.to_texts(),
            None => Vec::new(),
        };
        Some((records, locked))
    }

    /// The records and unlocks of cancelling every order of `user` (see
    /// `after_cancel_all`), the book left as it is; `None` when an amount
    /// overflows.
    fn cancel_records(&self, user_id: u64) -> (r: Option<(Vec<RecievedOrder>, Vec<(Asset, Dec)>)>)
        requires
            self.wf(),
        ensures
            match r {
                None => !cancel_all_ok(self.open_orders(user_id)),
                Some((records, unlocks)) => {
                    let open = self.open_orders(user_id);
                    &&& cancel_all_ok(open)
                    &&& records@.len() == open.len()
                    &&& unlocks@.len() == open.len()
                    &&& forall|i: int| 0 <= i < open.len() ==> cancel_record(#[trigger] records@[i], open[i].0, open[i].1, self.exchange.symbol@)
                    &&& forall|i: int| 0 <= i < open.len() ==> #[trigger] unlocks@[i] == cancel_unlock(open[i].0, open[i].1, self.exchange.base, self.exchange.quote)
                    &&& forall|i: int| 0 <= i < unlocks@.len() ==> (#[trigger] unlocks@[i]).1.wf()
                },
            },
    {
        let open = self.get_open_orders(user_id);
        proof {
            lemma_user_orders_wf(side_view(self.asks@), user_id);
            lemma_user_orders_wf(side_view(self.bids@), user_id);
            let a = user_orders(side_view(self.asks@), user_id);
            let b = user_orders(side_view(self.bids@), user_id);
            assert forall|i: int| 0 <= i < open@.len() implies (#[trigger] open@[i]).0.wf() && open@[i].1.wf() by {
                if i < a.len() {
                    assert(open@[i] == a[i]);
                } else {
                    assert(open@[i] == b[i - a.len()]);
                }
            }
        }
        let mut records: Vec<RecievedOrder> = Vec::new();
        let mut unlocks: Vec<(Asset, Dec)> = Vec::new();
        let mut i: usize = 0;
        while i < open.len()
            invariant
                self.wf(),
                open@ == self.open_orders(user_id),
                forall|j: int| 0 <= j < open@.len() ==> (#[trigger] open@[j]).0.wf() && open@[j].1.wf(),
                i <= open@.len(),
                records@.len() == i,
                unlocks@.len() == i,
                forall|j: int| 0 <= j < i ==> (#[trigger] cancel_amounts(open@[j].0, open@[j].1)) is Some,
                forall|j: int| 0 <= j < i ==> cancel_record(#[trigger] records@[j], open@[j].0, open@[j].1, self.exchange.symbol@),
                forall|j: int| 0 <= j < i ==> #[trigger] unlocks@[j] == cancel_unlock(open@[j].0, open@[j].1, self.exchange.base, self.exchange.quote),
                forall|j: int| 0 <= j < i ==> (#[trigger] unlocks@[j]).1.wf(),
            decreases open@.len() - i,
        {
            let (price, o) = open[i];
            proof {
                assert(open@[i as int].0.wf() && open@[i as int].1.wf());
            }
            let (unlock, filled, quote_quantity) = match try_cancel_amounts(price, o) {
                Some(x) => x,
                None => {
                    proof {
                        assert(cancel_amounts(open@[i as int].0, open@[i as int].1) is None);
                    }
                    return None;
                },
            };
            let asset = match o.order_side {
                OrderSide::Bid => self.exchange.quote,
                OrderSide::Ask => self.exchange.base,
            };
            unlocks.push((asset, unlock));
            records.push(
                RecievedOrder {
                    id: o.id as i64,
                    user_id: o.user_id as i64,
                    symbol: self.exchange.symbol.clone(),
                    price,
                    initial_quantity: o.initial_quantity,
                    filled_quantity: filled,
                    quote_quantity,
                    filled_quote_quantity: o.filled_quote_quantity,
                    order_type: o.order_type,
                    order_side: o.order_side,
                    order_status: OrderStatus::Cancelled,
                    timestamp: o.timestamp as i64,
                },
            );
            i = i + 1;
        }
        Some((records, unlocks))
    }
}



/// The amounts of `cancel_amounts`, computed with `rust_decimal`.
fn try_cancel_amounts(price: Dec, o: Order) -> (r: Option<(Dec, Dec, Dec)>)
    requires
        price.wf(),
        o.wf(),
    ensures
        r == cancel_amounts(price, o),
        r matches Some((u, f, q)) ==> u.wf() && f.wf() && q.wf(),
{
    let unlock = match o.order_side {
        OrderSide::Bid => match checked_mul(o.quantity, price) {
            Some(x) => x,
            None => return None,
        },
        OrderSide::Ask => o.quantity,
    };
    let filled = match checked_sub(o.initial_quantity, o.quantity) {
        Some(x) => x,
        None => return None,
    };
    let quote_quantity = match checked_mul(o.initial_quantity, price) {
        Some(x) => x,
        None => return None,
    };
    Some((unlock, filled, quote_quantity))
}


/// The levels stand in the order in which `side` matches them, equal
/// prices allowed.
pub open spec fn sorted_for(levels: Seq<LimitView>, side: OrderSide) -> bool {
    forall|i: int, j: int| 0 <= i < j < levels.len() ==> !ahead(#[trigger] levels[j].price, #[trigger] levels[i].price, side)
}

/// Copies of the levels, in the order in which `side` matches them; levels
/// of equal price keep their order.
fn sort_levels(levels: &Vec<Limit>, side: OrderSide) -> (r: Vec<Limit>)
    requires
        forall|i: int| 0 <= i < levels@.len() ==> (#[trigger] levels@[i]).price.wf(),
    ensures
        side_view(r@).to_multiset() == side_view(levels@).to_multiset(),
        sorted_for(side_view(r@), side),
{
    let mut out: Vec<Limit> = Vec::new();
    let mut k: usize = 0;
    proof {
        assert(side_view(out@) =~~= Seq::<LimitView>::empty());
        assert(side_view(levels@).take(0) =~~= Seq::<LimitView>::empty());
    }
    while k < levels.len()
        invariant
            forall|i: int| 0 <= i < levels@.len() ==> (#[trigger] levels@[i]).price.wf(),
            k <= levels@.len(),
            side_view(out@).to_multiset() == side_view(levels@).take(k as int).to_multiset(),
            sorted_for(side_view(out@), side),
            forall|i: int| 0 <= i < out@.len() ==> (#[trigger] out@[i]).price.wf(),
        decreases levels@.len() - k,
    {
        let price = levels[k].price;
        proof {
            assert(levels@[k as int].price.wf());
        }
        let mut p: usize = 0;
        while p < out.len() && !is_ahead(price, out[p].price, side)
            invariant
                forall|i: int| 0 <= i < out@.len() ==> (#[trigger] out@[i]).price.wf(),
                price.wf(),
                p <= out@.len(),
                forall|i: int| 0 <= i < p ==> !ahead(price, #[trigger] out@[i].price, side),
            decreases out@.len() - p,
        {
            proof {
                assert(out@[p as int].price.wf());
            }
            p = p + 1;
        }
        let ghost before = side_view(out@);
        let ghost old_out = out@;
        let level = Limit { price, orders: copy_orders(&levels[k].orders) };
        out.insert(p, level);
        proof {
            assert(side_view(out@) =~~= before.insert(p as int, levels@[k as int]@));
            assert(side_view(levels@).take(k + 1) =~~= side_view(levels@).take(k as int).push(levels@[k as int]@));
            vstd::seq_lib::to_multiset_insert(before, p as int, levels@[k as int]@);
            vstd::seq_lib::to_multiset_build(side_view(levels@).take(k as int), levels@[k as int]@);
            assert(before.insert(p as int, levels@[k as int]@).to_multiset() == before.to_multiset().insert(levels@[k as int]@));
            assert(side_view(levels@).take(k as int).push(levels@[k as int]@).to_multiset()
                == side_view(levels@).take(k as int).to_multiset().insert(levels@[k as int]@));
            let v = side_view(out@);
            assert forall|i: int, j: int| 0 <= i < j < v.len() implies !ahead(#[trigger] v[j].price, #[trigger] v[i].price, side) by {
                if j < p {
                    assert(v[i] == before[i] && v[j] == before[j]);
                    assert(before[i] == old_out[i]@ && before[j] == old_out[j]@);
                } else if j == p {
                    assert(v[i] == before[i]);
                } else if i == p {
                    assert(v[j] == before[j - 1]);
                    if j - 1 > p {
                        assert(!ahead(before[j - 1].price, before[p as int].price, side));
                    }
                } else if i < p {
                    assert(v[i] == before[i] && v[j] == before[j - 1]);
                } else {
                    assert(v[i] == before[i - 1] && v[j] == before[j - 1]);
                }
            }
            assert forall|i: int| 0 <= i < out@.len() implies (#[trigger] out@[i]).price.wf() by {
                if i < p {
                    assert(out@[i] == old_out[i]);
                } else if i > p {
                    assert(out@[i] == old_out[i - 1]);
                }
            }
        }
        k = k + 1;
    }
    proof {
        assert(side_view(levels@).take(k as int) =~~= side_view(levels@));
    }
    out
}


impl Orderbook {
    /// Copies of the bid levels, highest price first.
    pub fn bid_limits(bids: &Vec<Limit>) -> (r: Vec<Limit>)
        requires
            forall|i: int| 0 <= i < bids@.len() ==> (#[trigger] bids@[i]).price.wf(),
        ensures
            side_view(r@).to_multiset() == side_view(bids@).to_multiset(),
            sorted_for(side_view(r@), OrderSide::Bid),
    {
        sort_levels(bids, OrderSide::Bid)
    }

    /// Copies of the ask levels, lowest price first.
    pub fn ask_limits(asks: &Vec<Limit>) -> (r: Vec<Limit>)
        requires
            forall|i: int| 0 <= i < asks@.len() ==> (#[trigger] asks@[i]).price.wf(),
        ensures
            side_view(r@).to_multiset() == side_view(asks@).to_multiset(),
            sorted_for(side_view(r@), OrderSide::Ask),
    {
        sort_levels(asks, OrderSide::Ask)
    }
}


/// The two sides of a book and its last trade id, as values.
pub struct BookView {
    pub asks: Seq<LimitView>,
    pub bids: Seq<LimitView>,
    pub trade_id: int,
}

impl BookView {
    /// The levels of the side on which orders of `side` rest.
    pub open spec fn levels(self, side: OrderSide) -> Seq<LimitView> {
        match side {
            OrderSide::Ask => self.asks,
            OrderSide::Bid => self.bids,
        }
    }

    /// This view with the levels of `side` replaced.
    pub open spec fn with_levels(self, side: OrderSide, levels: Seq<LimitView>) -> BookView {
        match side {
            OrderSide::Ask => BookView { asks: levels, ..self },
            OrderSide::Bid => BookView { bids: levels, ..self },
        }
    }

    /// The view after cancelling order `id` at `price` on `side` (see
    /// `Orderbook::cancel_order`).
    pub open spec fn cancel_step(self, id: u64, side: OrderSide, price: Dec) -> Result<BookView, MatchingEngineErrors> {
        match find_level(self.levels(side), 0, price) {
            None => Err(MatchingEngineErrors::InvalidPriceLimitOrOrderSide),
            Some(k) => {
                let level = self.levels(side)[k];
                match find_order(level.orders, 0, id) {
                    None => Err(MatchingEngineErrors::InvalidOrderId),
                    Some(j) => Ok(self.with_levels(side, self.levels(side).update(k, LimitView { price: level.price, orders: level.orders.remove(j) }))),
                }
            },
        }
    }

    /// The view after matching a market order without reporting trades
    /// (see `Orderbook::fill_market_order`); `None` on overflow.
    pub open spec fn market_step(self, order: Order) -> Option<BookView> {
        match market_match(self.levels(order.order_side.opposite()), order, self.trade_id, false) {
            None => None,
            Some((lv, t, tid, e, q, st, f)) => Some(BookView { trade_id: tid, ..self.with_levels(order.order_side.opposite(), lv) }),
        }
    }

    /// The view after matching a limit order at `price` without reporting
    /// trades and resting what is to rest of it (see
    /// `Orderbook::fill_limit_order`); `None` on overflow.
    pub open spec fn limit_step(self, price: Dec, order: Order) -> Option<BookView> {
        match limit_match(self.levels(order.order_side.opposite()), price, order, self.trade_id, false) {
            None => None,
            Some(((lv, t, tid, e, q, st, f), rest)) => {
                let v = BookView { trade_id: tid, ..self.with_levels(order.order_side.opposite(), lv) };
                Some(match rest {
                    Some(p) => v.with_levels(order.order_side, side_add(self.levels(order.order_side), 0, p, t, order.order_side)),
                    None => v,
                })
            },
        }
    }
}

/// How far back the stored requests are replayed on a restart: a day, in
/// milliseconds.
pub const REPLAY_WINDOW_MS: i64 = 86400000i64;

/// The time (milliseconds since the Unix epoch) after which the stored
/// requests are replayed, when the clock reads `now_ms`.
pub fn replay_since(now_ms: u64) -> (t: i64)
    requires
        now_ms as i64 >= i64::MIN + REPLAY_WINDOW_MS,
    ensures
        t == now_ms as i64 - REPLAY_WINDOW_MS,
{
    let now: i64 = now_ms as i64;
    now - REPLAY_WINDOW_MS
}

/// A stored request to replay: a cancellation or an order.
pub enum OrderRequest {
    Cancel(ScyllaCancelOrder),
    Normal(RecievedOrder),
}

impl OrderRequest {
    /// When the request was made.
    pub open spec fn timestamp(&self) -> i64 {
        match self {
            OrderRequest::Cancel(c) => c.timestamp,
            OrderRequest::Normal(n) => n.timestamp,
        }
    }

    /// The amounts of an order request are representable decimals.
    pub open spec fn wf(&self) -> bool {
        match self {
            OrderRequest::Cancel(_) => true,
            OrderRequest::Normal(n) => n.wf(),
        }
    }
}

/// Why replaying stopped.
#[derive(Clone, Copy, Debug, PartialEq, Eq, Structural)]
pub enum ReplayError {
    /// A cancellation names no order side.
    InvalidOrderSide,
    /// A cancellation's price does not parse.
    InvalidPrice,
    /// A cancellation was refused.
    Cancel(MatchingEngineErrors),
    /// Matching an order overflowed.
    Overflow,
    /// A stored user row does not parse.
    UnreadableUser,
}

/// `x` placed into `s` behind every request made no later than it: the
/// step of a stable sort by time.
pub open spec fn insert_by_time(s: Seq<OrderRequest>, x: OrderRequest) -> Seq<OrderRequest>
    decreases s.len(),
{
    if s.len() == 0 {
        seq![x]
    } else if s.last().timestamp() <= x.timestamp() {
        s.push(x)
    } else {
        insert_by_time(s.drop_last(), x).push(s.last())
    }
}

/// The requests sorted by time, requests made at the same time keeping
/// their order.
pub open spec fn sort_by_time(s: Seq<OrderRequest>) -> Seq<OrderRequest>
    decreases s.len(),
{
    if s.len() == 0 {
        seq![]
    } else {
        insert_by_time(sort_by_time(s.drop_last()), s.last())
    }
}

/// The view after one request: a cancellation parses its side and price
/// and cancels; an order is matched under its own id without reporting
/// trades.
pub open spec fn replay_step(v: BookView, r: OrderRequest) -> Result<BookView, ReplayError> {
    match r {
        OrderRequest::Cancel(c) => match OrderSide::parse(c.order_side@) {
            None => Err(ReplayError::InvalidOrderSide),
            Some(side) => match decimal_parse(c.price@) {
                None => Err(ReplayError::InvalidPrice),
                Some(price) => match v.cancel_step(c.id as u64, side, price) {
                    Ok(v2) => Ok(v2),
                    Err(e) => Err(ReplayError::Cancel(e)),
                },
            },
        },
        OrderRequest::Normal(n) => {
            let order = order_from(n, n.id as u64);
            let next = match n.order_type {
                OrderType::Market => v.market_step(order),
                OrderType::Limit => v.limit_step(n.price, order),
            };
            match next {
                Some(v2) => Ok(v2),
                None => Err(ReplayError::Overflow),
            }
        },
    }
}

/// Replaying the requests from position `i` on, in order: the view after
/// the last request, or the view before the first that fails, with its
/// error.
pub open spec fn replay_from(v: BookView, reqs: Seq<OrderRequest>, i: int) -> (BookView, Result<(), ReplayError>)
    decreases reqs.len() - i,
{
    if i < 0 || i >= reqs.len() {
        (v, Ok(()))
    } else {
        match replay_step(v, reqs[i]) {
            Ok(v2) => replay_from(v2, reqs, i + 1),
            Err(e) => (v, Err(e)),
        }
    }
}

/// Inserting by scanning from the back gives `insert_by_time`.
proof fn lemma_insert_by_time_at(s: Seq<OrderRequest>, x: OrderRequest, p: int)
    requires
        0 <= p <= s.len(),
        forall|j: int| p <= j < s.len() ==> (#[trigger] s[j]).timestamp() > x.timestamp(),
        p == 0 || s[p - 1].timestamp() <= x.timestamp(),
    ensures
        insert_by_time(s, x) == s.insert(p, x),
    decreases s.len(),
{
    if s.len() == 0 {
        assert(s.insert(p, x) =~= seq![x]);
    } else if p == s.len() {
        assert(s.insert(p, x) =~= s.push(x));
    } else {
        assert(s.last().timestamp() > x.timestamp());
        lemma_insert_by_time_at(s.drop_last(), x, p);
        assert(s.drop_last().insert(p, x).push(s.last()) =~= s.insert(p, x));
    }
}

/// Sorts the requests by time, stably (see `sort_by_time`).
pub fn sort_requests(requests: Vec<OrderRequest>) -> (r: Vec<OrderRequest>)
    ensures
        r@ == sort_by_time(requests@),
{
    let ghost all = requests@;
    let n = requests.len();
    let mut input = requests;
    let mut out: Vec<OrderRequest> = Vec::new();
    let mut k: usize = 0;
    while input.len() > 0
        invariant
            all.len() == n,
            k + input@.len() == all.len(),
            input@ == all.subrange(k as int, all.len() as int),
            out@ == sort_by_time(all.take(k as int)),
        decreases input@.len(),
    {
        let x = input.remove(0);
        let t = match &x {
            OrderRequest::Cancel(c) => c.timestamp,
            OrderRequest::Normal(n) => n.timestamp,
        };
        let mut p = out.len();
        while p > 0 && request_time(&out[p - 1]) > t
            invariant
                p <= out@.len(),
                t == x.timestamp(),
                forall|j: int| p <= j < out@.len() ==> (#[trigger] out@[j]).timestamp() > t,
            decreases p,
        {
            p = p - 1;
        }
        proof {
            lemma_insert_by_time_at(out@, x, p as int);
            assert(all.take(k + 1).drop_last() =~= all.take(k as int));
            assert(all.take(k + 1).last() == x);
        }
        out.insert(p, x);
        k = k + 1;
        proof {
            assert(input@ =~= all.subrange(k as int, all.len() as int));
        }
    }
    proof {
        assert(all.take(k as int) =~= all);
    }
    out
}

/// When the request was made.
fn request_time(r: &OrderRequest) -> (t: i64)
    ensures
        t == r.timestamp(),
{
    match r {
        OrderRequest::Cancel(c) => c.timestamp,
        OrderRequest::Normal(n) => n.timestamp,
    }
}

impl Orderbook {
    /// The two sides and the last trade id, as values.
    pub open spec fn book_view(&self) -> BookView {
        BookView { asks: side_view(self.asks@), bids: side_view(self.bids@), trade_id: self.trade_id as int }
    }

    /// Replays stored requests, sorted by time (see `sort_requests`), one
    /// after the other (see `replay_from`), stopping at the first that
    /// fails.
    pub fn replay_orders(&mut self, requests: Vec<OrderRequest>) -> (r: Result<(), ReplayError>)
        requires
            old(self).wf(),
            forall|i: int| 0 <= i < requests@.len() ==> (#[trigger] requests@[i]).wf(),
        ensures
            final(self).wf(),
            (final(self).book_view(), r) == replay_from(old(self).book_view(), sort_by_time(requests@), 0),
            final(self).order_id == old(self).order_id,
            final(self).exchange == old(self).exchange,
    {
        proof {
            lemma_sort_keeps_wf(requests@);
        }
        let ghost reqs = requests@;
        let sorted = sort_requests(requests);
        let mut i: usize = 0;
        while i < sorted.len()
            invariant
                sorted@ == sort_by_time(reqs),
                reqs == requests@,
                self.wf(),
                forall|j: int| 0 <= j < sorted@.len() ==> (#[trigger] sorted@[j]).wf(),
                i <= sorted@.len(),
                replay_from(old(self).book_view(), sorted@, 0) == replay_from(self.book_view(), sorted@, i as int),
                self.order_id == old(self).order_id,
                self.exchange == old(self).exchange,
            decreases sorted@.len() - i,
        {
            let ghost v0 = self.book_view();
            let ghost req = sorted@[i as int];
            proof {
                assert(req.wf());
            }
            match &sorted[i] {
                OrderRequest::Cancel(c) => {
                    let side = match OrderSide::from_str(c.order_side.as_str()) {
                        Ok(s) => s,
                        Err(_) => return Err(ReplayError::InvalidOrderSide),
                    };
                    let price = match parse(c.price.as_str()) {
                        Some(p) => p,
                        None => return Err(ReplayError::InvalidPrice),
                    };
                    match self.cancel_order(c.id as u64, &side, &price) {
                        Ok(_) => {
                            proof {
                                assert(replay_step(v0, req) == Ok::<BookView, ReplayError>(self.book_view())) by {
                                    match side {
                                        OrderSide::Ask => assert(self.book_view() =~~= v0.cancel_step(c.id as u64, side, price).unwrap()),
                                        OrderSide::Bid => assert(self.book_view() =~~= v0.cancel_step(c.id as u64, side, price).unwrap()),
                                    }
                                }
                            }
                        },
                        Err(e) => {
                            proof {
                                assert(self.book_view() =~~= v0);
                            }
                            return Err(ReplayError::Cancel(e));
                        },
                    }
                },
                OrderRequest::Normal(n) => {
                    let order = Order::new(
                        n.id as u64,
                        n.timestamp as u64,
                        n.order_side,
                        n.initial_quantity,
                        n.order_type,
                        n.user_id as u64,
                    );
                    proof {
                        assert(order == order_from(*n, n.id as u64));
                    }
                    let outcome = match n.order_type {
                        OrderType::Market => self.try_fill_market_order(order, false),
                        OrderType::Limit => self.try_fill_limit_order(n.price, order, false),
                    };
                    if outcome.is_none() {
                        proof {
                            assert(self.book_view() =~~= v0) by {
                                match n.order_side {
                                    OrderSide::Ask => {},
                                    OrderSide::Bid => {},
                                }
                            }
                        }
                        return Err(ReplayError::Overflow);
                    }
                    proof {
                        assert(replay_step(v0, req) == Ok::<BookView, ReplayError>(self.book_view())) by {
                            match n.order_side {
                                OrderSide::Ask => {},
                                OrderSide::Bid => {},
                            }
                            match n.order_type {
                                OrderType::Market => assert(self.book_view() =~~= v0.market_step(order).unwrap()),
                                OrderType::Limit => assert(self.book_view() =~~= v0.limit_step(n.price, order).unwrap()),
                            }
                        }
                    }
                },
            }
            i = i + 1;
        }
        Ok(())
    }
    /// Rebuilds the book after a restart: the trade and order counters are
    /// the numbers of trades and orders stored so far, and the stored
    /// requests are replayed (see `replay_orders`).
    pub fn recover_orderbook(&mut self, trade_count: i64, order_count: i64, requests: Vec<OrderRequest>) -> (r: Result<(), ReplayError>)
        requires
            old(self).wf(),
            forall|i: int| 0 <= i < requests@.len() ==> (#[trigger] requests@[i]).wf(),
        ensures
            final(self).wf(),
            (final(self).book_view(), r) == replay_from(
                BookView { trade_id: trade_count as u64 as int, ..old(self).book_view() },
                sort_by_time(requests@),
                0,
            ),
            final(self).order_id == order_count as u64,
            final(self).exchange == old(self).exchange,
    {
        self.trade_id = trade_count as u64;
        self.order_id = order_count as u64;
        proof {
            assert(self.book_view() == BookView { trade_id: trade_count as u64 as int, ..old(self).book_view() });
        }
        self.replay_orders(requests)
    }
}

/// Sorting keeps every request, so keeps them all well formed.
proof fn lemma_sort_keeps_wf(s: Seq<OrderRequest>)
    requires
        forall|i: int| 0 <= i < s.len() ==> (#[trigger] s[i]).wf(),
    ensures
        forall|i: int| 0 <= i < sort_by_time(s).len() ==> (#[trigger] sort_by_time(s)[i]).wf(),
    decreases s.len(),
{
    if s.len() > 0 {
        let p = s.drop_last();
        assert forall|i: int| 0 <= i < p.len() implies (#[trigger] p[i]).wf() by {
            assert(p[i] == s[i]);
        }
        lemma_sort_keeps_wf(p);
        assert(s[s.len() - 1].wf());
        lemma_insert_keeps_wf(sort_by_time(p), s.last());
    }
}

/// Inserting a well-formed request keeps every request well formed.
proof fn lemma_insert_keeps_wf(s: Seq<OrderRequest>, x: OrderRequest)
    requires
        forall|i: int| 0 <= i < s.len() ==> (#[trigger] s[i]).wf(),
        x.wf(),
    ensures
        forall|i: int| 0 <= i < insert_by_time(s, x).len() ==> (#[trigger] insert_by_time(s, x)[i]).wf(),
    decreases s.len(),
{
    if s.len() > 0 && s.last().timestamp() > x.timestamp() {
        let p = s.drop_last();
        assert forall|i: int| 0 <= i < p.len() implies (#[trigger] p[i]).wf() by {
            assert(p[i] == s[i]);
        }
        lemma_insert_keeps_wf(p, x);
        assert(s[s.len() - 1].wf());
        let r = insert_by_time(p, x).push(s.last());
        assert forall|i: int| 0 <= i < r.len() implies (#[trigger] r[i]).wf() by {
            if i < r.len() - 1 {
                assert(r[i] == insert_by_time(p, x)[i]);
            }
        }
    } else if s.len() > 0 {
        let r = s.push(x);
        assert forall|i: int| 0 <= i < r.len() implies (#[trigger] r[i]).wf() by {
            if i < s.len() {
                assert(r[i] == s[i]);
            }
        }
    }
}

} // verus!
