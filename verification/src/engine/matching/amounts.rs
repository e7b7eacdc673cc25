//! What the amounts that the order book reports are made of: the volume of
//! a level, the cost of a quote, what a cancellation unlocks, where a market
//! order stops and how a stored market order is replayed.
use crate::decimal::{decimal_difference, decimal_product, decimal_sum, Dec};
use crate::engine::matching::limit::{volume_of, LimitView};
use crate::engine::matching::orderbook::{
    cancel_all_ok, limit_match, market_from, market_match, order_from, quote_from, replay_step, side_add, BookView,
    Order, OrderRequest, Orderbook,
};
use crate::engine::matching::error::MatchingEngineErrors;
use crate::engine::matching::{Asset, OrderSide, OrderType};
use vstd::prelude::*;

verus! {

/// The amounts added up in order, from zero, with `rust_decimal`'s
/// addition; `None` if a sum overflows.
pub open spec fn decimal_total(amounts: Seq<Dec>) -> Option<Dec>
    decreases amounts.len(),
{
    if amounts.len() == 0 {
        Some(Dec::zero_spec())
    } else {
        match decimal_total(amounts.drop_last()) {
            Some(t) => decimal_sum(t, amounts.last()),
            None => None,
        }
    }
}

/// The quantities still to fill of the orders, in order.
pub open spec fn remaining_quantities(orders: Seq<Order>) -> Seq<Dec> {
    Seq::new(orders.len(), |i: int| orders[i].quantity)
}

/// The volume of a level is the sum of the quantities still to fill of the
/// orders resting there, oldest first: neither what they were placed with
/// nor what they have filled counts.
pub proof fn law_volume_is_remaining_quantity(orders: Seq<Order>)
    ensures
        volume_of(orders) == decimal_total(remaining_quantities(orders)),
    decreases orders.len(),
{
    if orders.len() > 0 {
        law_volume_is_remaining_quantity(orders.drop_last());
        assert(remaining_quantities(orders).drop_last() =~= remaining_quantities(orders.drop_last()));
    }
}

/// Two queues whose orders have the same quantities still to fill, in the
/// same order, have the same volume, whatever else the orders hold.
pub proof fn law_volume_ignores_filled(a: Seq<Order>, b: Seq<Order>)
    requires
        a.len() == b.len(),
        forall|i: int| 0 <= i < a.len() ==> (#[trigger] a[i]).quantity == b[i].quantity,
    ensures
        volume_of(a) == volume_of(b),
{
    law_volume_is_remaining_quantity(a);
    law_volume_is_remaining_quantity(b);
    assert(remaining_quantities(a) =~= remaining_quantities(b));
}

/// A quote of `quantity` against `levels` that came to `q`, as a walk over
/// the levels, best first: `takes[j]` is what is taken at level `j`,
/// `left[j]` what was still to quote on reaching it, `costs[j]` the take
/// times the level's price.  Every level but the last is taken whole (its
/// whole volume, less than what was left), the last takes what was left
/// (no more than its volume), what is left drops by each take, and `q` is
/// the sum of the costs in order.
pub open spec fn quote_walk(
    levels: Seq<LimitView>,
    quantity: Dec,
    takes: Seq<Dec>,
    left: Seq<Dec>,
    costs: Seq<Dec>,
    q: Dec,
) -> bool {
    let last = takes.len() - 1;
    &&& 0 < takes.len() <= levels.len()
    &&& left.len() == takes.len()
    &&& costs.len() == takes.len()
    &&& left[0] == quantity
    &&& forall|j: int|
        0 <= j < last ==> {
            &&& volume_of((#[trigger] levels[j]).orders) == Some(takes[j])
            &&& takes[j].units() < left[j].units()
            &&& decimal_difference(left[j], takes[j]) == Some(left[j + 1])
        }
    &&& takes[last] == left[last]
    &&& volume_of(levels[last].orders) matches Some(v) && v.units() >= left[last].units()
    &&& forall|j: int| 0 <= j < takes.len() ==> decimal_product(takes[j], (#[trigger] levels[j]).price) == Some(costs[j])
    &&& decimal_total(costs) == Some(q)
}

/// The walk of `quote_from` from level `k`, given the walk up to it.
proof fn lemma_quote_walk(
    levels: Seq<LimitView>,
    quantity: Dec,
    k: int,
    takes: Seq<Dec>,
    left: Seq<Dec>,
    costs: Seq<Dec>,
    acc: Dec,
    q: Dec,
) -> (w: (Seq<Dec>, Seq<Dec>, Seq<Dec>))
    requires
        0 <= k,
        takes.len() == k,
        costs.len() == k,
        left.len() == k + 1,
        left[0] == quantity,
        forall|j: int|
            0 <= j < k ==> {
                &&& volume_of((#[trigger] levels[j]).orders) == Some(takes[j])
                &&& takes[j].units() < left[j].units()
                &&& decimal_difference(left[j], takes[j]) == Some(left[j + 1])
            },
        forall|j: int| 0 <= j < k ==> decimal_product(takes[j], (#[trigger] levels[j]).price) == Some(costs[j]),
        decimal_total(costs) == Some(acc),
        quote_from(levels, k, left[k], acc) == Some(Ok::<Dec, MatchingEngineErrors>(q)),
    ensures
        quote_walk(levels, quantity, w.0, w.1, w.2, q),
    decreases levels.len() - k,
{
    let rem = left[k];
    let total = volume_of(levels[k].orders).unwrap();
    if total.units() >= rem.units() {
        let p = decimal_product(rem, levels[k].price).unwrap();
        let t2 = takes.push(rem);
        let c2 = costs.push(p);
        assert(c2.drop_last() =~= costs);
        assert forall|j: int| 0 <= j < t2.len() - 1 implies {
            &&& volume_of((#[trigger] levels[j]).orders) == Some(t2[j])
            &&& t2[j].units() < left[j].units()
            &&& decimal_difference(left[j], t2[j]) == Some(left[j + 1])
        } by {
            assert(t2[j] == takes[j]);
        }
        assert forall|j: int| 0 <= j < t2.len() implies decimal_product(t2[j], (#[trigger] levels[j]).price) == Some(c2[j]) by {
            if j < k {
                assert(t2[j] == takes[j] && c2[j] == costs[j]);
            }
        }
        (t2, left, c2)
    } else {
        let p = decimal_product(total, levels[k].price).unwrap();
        let a2 = decimal_sum(acc, p).unwrap();
        let r2 = decimal_difference(rem, total).unwrap();
        let t2 = takes.push(total);
        let c2 = costs.push(p);
        let l2 = left.push(r2);
        assert(c2.drop_last() =~= costs);
        assert forall|j: int| 0 <= j < k + 1 implies {
            &&& volume_of((#[trigger] levels[j]).orders) == Some(t2[j])
            &&& t2[j].units() < l2[j].units()
            &&& decimal_difference(l2[j], t2[j]) == Some(l2[j + 1])
        } by {
            if j < k {
                assert(t2[j] == takes[j] && l2[j] == left[j] && l2[j + 1] == left[j + 1]);
            }
        }
        assert forall|j: int| 0 <= j < k + 1 implies decimal_product(t2[j], (#[trigger] levels[j]).price) == Some(c2[j]) by {
            if j < k {
                assert(t2[j] == takes[j] && c2[j] == costs[j]);
            }
        }
        lemma_quote_walk(levels, quantity, k + 1, t2, l2, c2, a2, q)
    }
}

/// A quote that comes to `q` is the sum, over the levels walked best first,
/// of the quantity taken at each level times its price: every level but
/// the last is taken whole, the last takes what is left, and the takes use
/// up the quantity asked for (see `quote_walk`).
pub proof fn law_quote_is_sum_of_takes(levels: Seq<LimitView>, quantity: Dec, q: Dec)
    requires
        quote_from(levels, 0, quantity, Dec::zero_spec()) == Some(Ok::<Dec, MatchingEngineErrors>(q)),
    ensures
        exists|takes: Seq<Dec>, left: Seq<Dec>, costs: Seq<Dec>| quote_walk(levels, quantity, takes, left, costs, q),
{
    let w = lemma_quote_walk(levels, quantity, 0, seq![], seq![quantity], seq![], Dec::zero_spec(), q);
    assert(quote_walk(levels, quantity, w.0, w.1, w.2, q));
}

/// What cancelling an order resting at `price` frees of its owner's locked
/// balance: a bid its quantity still to fill times its price, in the quote
/// asset; an ask its quantity still to fill, in the base asset.
pub open spec fn still_locked(price: Dec, o: Order, base: Asset, quote: Asset) -> Option<(Asset, Dec)> {
    match o.order_side {
        OrderSide::Bid => match decimal_product(o.quantity, price) {
            Some(a) => Some((quote, a)),
            None => None,
        },
        OrderSide::Ask => Some((base, o.quantity)),
    }
}

/// Cancelling every order of a user unlocks, for each open order in turn,
/// exactly what it still holds locked: its remaining quantity (times its
/// price, for a bid), not what it was placed with.
pub proof fn law_cancel_unlocks_what_remains(book: Orderbook, user: u64)
    requires
        cancel_all_ok(book.open_orders(user)),
    ensures
        book.cancel_unlocks(user).len() == book.open_orders(user).len(),
        forall|i: int|
            0 <= i < book.open_orders(user).len() ==> Some(#[trigger] book.cancel_unlocks(user)[i]) == still_locked(
                book.open_orders(user)[i].0,
                book.open_orders(user)[i].1,
                book.exchange.base,
                book.exchange.quote,
            ),
{
}

/// Once a market order is filled it stops: levels beyond the one that
/// filled it play no part, so adding levels after them changes neither the
/// trades, nor the amounts executed and quoted, nor the status, nor the
/// levels it walked.
pub proof fn law_market_stops_when_filled(
    levels: Seq<LimitView>,
    more: Seq<LimitView>,
    taker: Order,
    trade_id: int,
    record: bool,
)
    requires
        levels.len() > 0,
        market_match(levels, taker, trade_id, record) matches Some((_, t, _, _, _, _, _)) && t.quantity.units() == 0,
    ensures
        market_match(levels + more, taker, trade_id, record) == (match market_match(levels, taker, trade_id, record) {
            Some((lv, t, tid, e, q, st, f)) => Some((lv + more, t, tid, e, q, st, f)),
            None => None,
        }),
{
    lemma_market_stops(levels, more, 0, taker, trade_id, record, Dec::zero_spec(), Dec::zero_spec(), taker.order_status, seq![]);
}

proof fn lemma_market_stops(
    levels: Seq<LimitView>,
    more: Seq<LimitView>,
    k: int,
    taker: Order,
    trade_id: int,
    record: bool,
    executed: Dec,
    quote: Dec,
    status: crate::engine::matching::OrderStatus,
    fills: Seq<crate::engine::matching::limit::Fill>,
)
    requires
        0 <= k < levels.len(),
        market_from(levels, k, taker, trade_id, record, executed, quote, status, fills) matches Some((_, t, _, _, _, _, _))
            && t.quantity.units() == 0,
    ensures
        market_from(levels + more, k, taker, trade_id, record, executed, quote, status, fills) == (match market_from(
            levels,
            k,
            taker,
            trade_id,
            record,
            executed,
            quote,
            status,
            fills,
        ) {
            Some((lv, t, tid, e, q, st, f)) => Some((lv + more, t, tid, e, q, st, f)),
            None => None,
        }),
    decreases levels.len() - k,
{
    let all = levels + more;
    assert(all[k] == levels[k]);
    let price = levels[k].price;
    match crate::engine::matching::limit::match_orders(levels[k].orders, 0, taker, price, trade_id, record, fills) {
        None => {},
        Some((mk, t, tid, f)) => match crate::engine::matching::orderbook::add_executed(t, price, executed, quote) {
            None => {},
            Some((e2, q2)) => {
                let lv = levels.update(k, LimitView { price, orders: mk });
                let lva = all.update(k, LimitView { price, orders: mk });
                assert(lva =~= lv + more);
                if t.quantity.units() != 0 {
                    if k + 1 >= levels.len() {
                        assert(market_from(lv, k + 1, t, tid, record, e2, q2, t.order_status, f)
                            == Some((lv, t, tid, e2, q2, t.order_status, f)));
                    }
                    lemma_market_stops(lv, more, k + 1, t, tid, record, e2, q2, t.order_status, f);
                }
            },
        },
    }
}

/// Replaying a stored market order changes the book as filling it as a
/// market order does: the opposite side becomes what the matching leaves of
/// it, the trade id moves on as the matching numbers its trades, and
/// nothing rests on the order's own side, whatever price is stored with it.
pub proof fn law_replayed_market_order_is_market_fill(v: BookView, n: crate::engine::matching::RecievedOrder)
    requires
        n.order_type == OrderType::Market,
        replay_step(v, OrderRequest::Normal(n)) is Ok,
    ensures
        ({
            let order = order_from(n, n.id as u64);
            let v2 = replay_step(v, OrderRequest::Normal(n)).unwrap();
            &&& market_match(v.levels(n.order_side.opposite()), order, v.trade_id, false) matches Some(
                (lv, _, tid, _, _, _, _),
            ) && v2.levels(n.order_side.opposite()) == lv && v2.trade_id == tid
            &&& v2.levels(n.order_side) == v.levels(n.order_side)
        }),
{
    match n.order_side {
        OrderSide::Bid => {},
        OrderSide::Ask => {},
    }
}

/// Replaying a stored limit order changes the book as filling it as a limit
/// order at its stored price does: the opposite side becomes what the
/// matching leaves of it, the trade id moves on as the matching numbers its
/// trades, and what is to rest of the order is added to its own side.
pub proof fn law_replayed_limit_order_is_limit_fill(v: BookView, n: crate::engine::matching::RecievedOrder)
    requires
        n.order_type == OrderType::Limit,
        replay_step(v, OrderRequest::Normal(n)) is Ok,
    ensures
        ({
            let order = order_from(n, n.id as u64);
            let v2 = replay_step(v, OrderRequest::Normal(n)).unwrap();
            &&& limit_match(v.levels(n.order_side.opposite()), n.price, order, v.trade_id, false) matches Some(
                ((lv, t, tid, _, _, _, _), rest),
            ) && v2.levels(n.order_side.opposite()) == lv && v2.trade_id == tid && v2.levels(n.order_side) == match rest {
                Some(p) => side_add(v.levels(n.order_side), 0, p, t, n.order_side),
                None => v.levels(n.order_side),
            }
        }),
{
    match n.order_side {
        OrderSide::Bid => {},
        OrderSide::Ask => {},
    }
}

} // verus!
