//! Properties of the order book that hold across its operations.
use crate::decimal::Dec;
use crate::engine::matching::limit::{match_orders, Fill, LimitView};
use crate::engine::matching::orderbook::{
    ahead, find_level, find_order, side_add, side_wf, side_without_user, user_orders, user_orders_in,
    without_user, Order,
};
use crate::engine::matching::orderbook::{
    insert_by_time, limit_match, limit_from, market_from, market_match, add_executed, limit_fill_price,
    sort_by_time, stays_out, OrderRequest,
};
use crate::engine::matching::orderbook::{order_from, replay_step, BookView, Orderbook, ReplayError};
use crate::engine::matching::OrderType;
use crate::engine::matching::Asset;
use crate::engine::matching::user::Users;
use crate::engine::matching::{lemma_order_side_parse_name, OrderSide, OrderStatus, RecievedOrder, ScyllaCancelOrder, ScyllaOrder};
use crate::decimal::decimal_parse;
use vstd::prelude::*;

verus! {

/// Appending an order whose id the queue does not hold makes it the one
/// that a search by that id finds, at the back.
proof fn lemma_find_pushed(s: Seq<Order>, k: int, x: Order)
    requires
        0 <= k <= s.len(),
        find_order(s, k, x.id) is None,
    ensures
        find_order(s.push(x), k, x.id) == Some(s.len() as int),
    decreases s.len() - k,
{
    if k < s.len() {
        assert(s.push(x)[k] == s[k]);
        lemma_find_pushed(s, k + 1, x);
    }
}

/// A level is found at the position where it is: no level before it has
/// its price.
proof fn lemma_find_level_at(levels: Seq<LimitView>, k: int, j: int, price: Dec)
    requires
        0 <= k <= j < levels.len(),
        levels[j].price.units() == price.units(),
        forall|i: int| k <= i < j ==> (#[trigger] levels[i]).price.units() != price.units(),
    ensures
        find_level(levels, k, price) == Some(j),
    decreases j - k,
{
    if k < j {
        lemma_find_level_at(levels, k + 1, j, price);
    }
}

/// No level from position `k` on has the price: the search finds none.
proof fn lemma_find_level_none(levels: Seq<LimitView>, k: int, price: Dec)
    requires
        0 <= k <= levels.len(),
        forall|i: int| k <= i < levels.len() ==> (#[trigger] levels[i]).price.units() != price.units(),
    ensures
        find_level(levels, k, price) is None,
    decreases levels.len() - k,
{
    if k < levels.len() {
        lemma_find_level_none(levels, k + 1, price);
    }
}

/// The id `id` is not resting at the level priced `price` of a side.
pub open spec fn id_free_at(levels: Seq<LimitView>, price: Dec, id: u64) -> bool {
    find_level(levels, 0, price) matches Some(k) ==> find_order(levels[k].orders, 0, id) is None
}

/// The side that cancelling an order added at `price` leaves: the side as
/// it was, except that a level the order opened stays, empty.
pub open spec fn restored(levels: Seq<LimitView>, added: Seq<LimitView>, price: Dec) -> Seq<LimitView> {
    if find_level(levels, 0, price) is Some {
        levels
    } else {
        levels.insert(find_level(added, 0, price).unwrap(), LimitView { price, orders: seq![] })
    }
}

/// Adding from position `k0` on, then looking the order up by price and id.
proof fn lemma_add_cancel_from(levels: Seq<LimitView>, k0: int, price: Dec, order: Order, side: OrderSide)
    requires
        side_wf(levels, side),
        0 <= k0 <= levels.len(),
        forall|i: int| 0 <= i < k0 ==> ahead(#[trigger] levels[i].price, price, side),
        id_free_at(levels, price, order.id),
    ensures
        ({
            let added = side_add(levels, k0, price, order, side);
            &&& find_level(added, 0, price) matches Some(k)
            &&& find_order(added[k].orders, 0, order.id) matches Some(j)
            &&& added[k].orders[j] == order
            &&& added.update(k, LimitView { price: added[k].price, orders: added[k].orders.remove(j) })
                == restored(levels, added, price)
        }),
    decreases levels.len() - k0,
{
    let added = side_add(levels, k0, price, order, side);
    let new_level = LimitView { price, orders: seq![order] };
    if k0 >= levels.len() {
        assert(added == levels.push(new_level));
        lemma_find_level_at(added, 0, k0, price);
        lemma_find_level_none(levels, 0, price);
        assert(find_order(seq![order], 0, order.id) == Some(0int));
        assert(seq![order].remove(0) =~= Seq::<Order>::empty());
        assert(added.update(k0, LimitView { price: added[k0].price, orders: added[k0].orders.remove(0) })
            =~~= levels.insert(k0, LimitView { price, orders: seq![] }));
    } else if levels[k0].price.units() == price.units() {
        let lv = levels[k0];
        assert(added == levels.update(k0, LimitView { price: lv.price, orders: lv.orders.push(order) }));
        lemma_find_level_at(levels, 0, k0, price);
        lemma_find_level_at(added, 0, k0, price);
        lemma_find_pushed(lv.orders, 0, order);
        assert(lv.orders.push(order).remove(lv.orders.len() as int) =~= lv.orders);
        assert(added.update(k0, LimitView { price: added[k0].price, orders: added[k0].orders.remove(lv.orders.len() as int) })
            =~~= levels);
    } else if ahead(price, levels[k0].price, side) {
        assert(added == levels.insert(k0, new_level));
        lemma_find_level_at(added, 0, k0, price);
        assert forall|i: int| 0 <= i < levels.len() implies (#[trigger] levels[i]).price.units() != price.units() by {
            if i > k0 {
                assert(ahead(levels[k0].price, levels[i].price, side));
            }
        }
        lemma_find_level_none(levels, 0, price);
        assert(find_order(seq![order], 0, order.id) == Some(0int));
        assert(added.update(k0, LimitView { price: added[k0].price, orders: added[k0].orders.remove(0) })
            =~~= levels.insert(k0, LimitView { price, orders: seq![] }));
    } else {
        lemma_add_cancel_from(levels, k0 + 1, price, order, side);
    }
}

/// An order added to a side at `price`, whose id no order at that price
/// holds, is what cancelling by that price, side and id takes out again;
/// and the cancellation leaves the side as it was, but for an empty level
/// at `price` if the order had opened it.
pub proof fn law_add_then_cancel(levels: Seq<LimitView>, price: Dec, order: Order, side: OrderSide)
    requires
        side_wf(levels, side),
        id_free_at(levels, price, order.id),
    ensures
        ({
            let added = side_add(levels, 0, price, order, side);
            &&& find_level(added, 0, price) matches Some(k)
            &&& find_order(added[k].orders, 0, order.id) matches Some(j)
            &&& added[k].orders[j] == order
            &&& added.update(k, LimitView { price: added[k].price, orders: added[k].orders.remove(j) })
                == restored(levels, added, price)
        }),
{
    lemma_add_cancel_from(levels, 0, price, order, side);
}


/// A queue without the orders of `user` holds none of them; the orders of
/// anyone else are those it held, in order.
proof fn lemma_without_user_in(orders: Seq<Order>, price: Dec, user: u64, other: u64)
    ensures
        user_orders_in(without_user(orders, user), price, user) == Seq::<(Dec, Order)>::empty(),
        other != user ==> user_orders_in(without_user(orders, user), price, other) == user_orders_in(orders, price, other),
    decreases orders.len(),
{
    if orders.len() > 0 {
        let p = orders.drop_last();
        lemma_without_user_in(p, price, user, other);
        let w = without_user(orders, user);
        if orders.last().user_id != user {
            assert(w.drop_last() =~= without_user(p, user));
        }
    }
}

/// Cancelling every order of `user` on a side leaves none of theirs and
/// every other user's orders as they were.
pub proof fn law_cancel_all_removes_only_user(levels: Seq<LimitView>, user: u64, other: u64)
    ensures
        user_orders(side_without_user(levels, user), user) == Seq::<(Dec, Order)>::empty(),
        other != user ==> user_orders(side_without_user(levels, user), other) == user_orders(levels, other),
    decreases levels.len(),
{
    if levels.len() > 0 {
        let p = levels.drop_last();
        law_cancel_all_removes_only_user(p, user, other);
        let w = side_without_user(levels, user);
        assert(w.drop_last() =~~= side_without_user(p, user));
        lemma_without_user_in(levels.last().orders, levels.last().price, user, other);
        assert(w.last() == LimitView { price: levels.last().price, orders: without_user(levels.last().orders, user) });
        assert(user_orders(w, user) =~= Seq::<(Dec, Order)>::empty());
    }
}

/// Every order listed for a user in a queue is that user's.
proof fn lemma_user_orders_in_belong(orders: Seq<Order>, price: Dec, user: u64)
    ensures
        forall|i: int| 0 <= i < user_orders_in(orders, price, user).len() ==> (#[trigger] user_orders_in(orders, price, user)[i]).1.user_id == user,
    decreases orders.len(),
{
    if orders.len() > 0 {
        lemma_user_orders_in_belong(orders.drop_last(), price, user);
    }
}

/// The open orders listed for a user are all that user's.
pub proof fn law_open_orders_belong(levels: Seq<LimitView>, user: u64)
    ensures
        forall|i: int| 0 <= i < user_orders(levels, user).len() ==> (#[trigger] user_orders(levels, user)[i]).1.user_id == user,
    decreases levels.len(),
{
    if levels.len() > 0 {
        let p = levels.drop_last();
        law_open_orders_belong(p, user);
        lemma_user_orders_in_belong(levels.last().orders, levels.last().price, user);
        let a = user_orders(p, user);
        let b = user_orders_in(levels.last().orders, levels.last().price, user);
        assert forall|i: int| 0 <= i < (a + b).len() implies (#[trigger] (a + b)[i]).1.user_id == user by {
            if i < a.len() {
                assert((a + b)[i] == a[i]);
            } else {
                assert((a + b)[i] == b[i - a.len()]);
            }
        }
    }
}

/// `after` is `before` followed by one report per trade id from `tid + 1`
/// to `tid2`, in order.
pub open spec fn numbered_after(before: Seq<Fill>, after: Seq<Fill>, tid: int, tid2: int) -> bool {
    &&& tid <= tid2
    &&& after.len() == before.len() + (tid2 - tid)
    &&& after.take(before.len() as int) == before
    &&& forall|j: int| before.len() <= j < after.len() ==> (#[trigger] after[j]).trade_id == tid + (j - before.len()) + 1
}

/// Two runs of numbered reports make one.
proof fn lemma_numbered_trans(a: Seq<Fill>, b: Seq<Fill>, c: Seq<Fill>, t1: int, t2: int, t3: int)
    requires
        numbered_after(a, b, t1, t2),
        numbered_after(b, c, t2, t3),
    ensures
        numbered_after(a, c, t1, t3),
{
    assert(c.take(a.len() as int) =~= b.take(a.len() as int)) by {
        assert forall|j: int| 0 <= j < a.len() implies c[j] == b[j] by {
            assert(c.take(b.len() as int)[j] == c[j]);
        }
    }
    assert forall|j: int| a.len() <= j < c.len() implies (#[trigger] c[j]).trade_id == t1 + (j - a.len()) + 1 by {
        if j < b.len() {
            assert(c.take(b.len() as int)[j] == c[j]);
        }
    }
}

/// Matching against a level reports one trade per trade id it takes, in
/// order, when it reports trades.
proof fn lemma_match_numbered(makers: Seq<Order>, i: int, taker: Order, price: Dec, tid: int, fills: Seq<Fill>)
    requires
        0 <= tid,
    ensures
        match_orders(makers, i, taker, price, tid, true, fills) matches Some((_, _, tid2, f2)) ==> numbered_after(fills, f2, tid, tid2),
    decreases makers.len() - i,
{
    if i < 0 || i >= makers.len() || taker.quantity.units() == 0 {
        assert(fills.take(fills.len() as int) =~= fills);
    } else if tid >= u64::MAX {
    } else {
        match crate::engine::matching::limit::fill_step(makers[i], taker, price) {
            None => {},
            Some((m, t, q)) => {
                let f = fills.push(crate::engine::matching::limit::fill_record(tid + 1, m, t, q, price));
                assert(numbered_after(fills, f, tid, tid + 1)) by {
                    assert(f.take(fills.len() as int) =~= fills);
                }
                if m.quantity.units() == 0 {
                    lemma_match_numbered(makers.remove(i), i, t, price, tid + 1, f);
                    if let Some((_, _, tid2, f2)) = match_orders(makers.remove(i), i, t, price, tid + 1, true, f) {
                        lemma_numbered_trans(fills, f, f2, tid, tid + 1, tid2);
                    }
                } else {
                    lemma_match_numbered(makers.update(i, m), i + 1, t, price, tid + 1, f);
                    if let Some((_, _, tid2, f2)) = match_orders(makers.update(i, m), i + 1, t, price, tid + 1, true, f) {
                        lemma_numbered_trans(fills, f, f2, tid, tid + 1, tid2);
                    }
                }
            },
        }
    }
}

/// A market order walking the levels reports one trade per trade id.
proof fn lemma_market_numbered(
    levels: Seq<LimitView>,
    k: int,
    taker: Order,
    tid: int,
    executed: Dec,
    quote: Dec,
    status: OrderStatus,
    fills: Seq<Fill>,
)
    requires
        0 <= tid,
    ensures
        market_from(levels, k, taker, tid, true, executed, quote, status, fills) matches Some((_, _, tid2, _, _, _, f2))
            ==> numbered_after(fills, f2, tid, tid2),
    decreases levels.len() - k,
{
    if k < 0 || k >= levels.len() {
        assert(fills.take(fills.len() as int) =~= fills);
    } else {
        let price = levels[k].price;
        lemma_match_numbered(levels[k].orders, 0, taker, price, tid, fills);
        match match_orders(levels[k].orders, 0, taker, price, tid, true, fills) {
            None => {},
            Some((mk, t, tid1, f1)) => match add_executed(t, price, executed, quote) {
                None => {},
                Some((e2, q2)) => {
                    if t.quantity.units() != 0 {
                        let lv = levels.update(k, LimitView { price, orders: mk });
                        lemma_market_numbered(lv, k + 1, t, tid1, e2, q2, t.order_status, f1);
                        if let Some((_, _, tid2, _, _, _, f2)) = market_from(lv, k + 1, t, tid1, true, e2, q2, t.order_status, f1) {
                            lemma_numbered_trans(fills, f1, f2, tid, tid1, tid2);
                        }
                    }
                },
            },
        }
    }
}

/// A limit order walking the levels reports one trade per trade id.
proof fn lemma_limit_numbered(
    levels: Seq<LimitView>,
    k: int,
    price: Dec,
    side: OrderSide,
    taker: Order,
    tid: int,
    executed: Dec,
    quote: Dec,
    status: OrderStatus,
    fills: Seq<Fill>,
)
    requires
        0 <= tid,
    ensures
        limit_from(levels, k, price, side, taker, tid, true, executed, quote, status, fills) matches Some(((_, _, tid2, _, _, _, f2), _))
            ==> numbered_after(fills, f2, tid, tid2),
    decreases levels.len() - k,
{
    if k < 0 || k >= levels.len() || stays_out(price, levels[k].price, side) {
        assert(fills.take(fills.len() as int) =~= fills);
    } else {
        let fp = limit_fill_price(price, levels[k].price, side);
        lemma_match_numbered(levels[k].orders, 0, taker, fp, tid, fills);
        match match_orders(levels[k].orders, 0, taker, fp, tid, true, fills) {
            None => {},
            Some((mk, t, tid1, f1)) => match add_executed(t, fp, executed, quote) {
                None => {},
                Some((e2, q2)) => {
                    let lv = levels.update(k, LimitView { price: levels[k].price, orders: mk });
                    if !(t.quantity.units() > 0 && k + 1 >= levels.len()) {
                        lemma_limit_numbered(lv, k + 1, price, side, t, tid1, e2, q2, t.order_status, f1);
                        if let Some(((_, _, tid2, _, _, _, f2), _)) = limit_from(lv, k + 1, price, side, t, tid1, true, e2, q2, t.order_status, f1) {
                            lemma_numbered_trans(fills, f1, f2, tid, tid1, tid2);
                        }
                    }
                },
            },
        }
    }
}

/// Every trade of a matched order is reported, and the reports carry the
/// trade ids that follow the book's last one, one by one: with `n` reports
/// the book's trade id grows by `n`, and the `j`-th report carries the old
/// id plus `j + 1`.  This holds for market and for limit orders.
pub proof fn law_trade_ids_consecutive(levels: Seq<LimitView>, price: Dec, taker: Order, tid: int)
    requires
        0 <= tid,
    ensures
        market_match(levels, taker, tid, true) matches Some((_, _, tid2, _, _, _, f)) ==> f.len() == tid2 - tid
            && forall|j: int| 0 <= j < f.len() ==> (#[trigger] f[j]).trade_id == tid + j + 1,
        limit_match(levels, price, taker, tid, true) matches Some(((_, _, tid2, _, _, _, f), _)) ==> f.len() == tid2
            - tid && forall|j: int| 0 <= j < f.len() ==> (#[trigger] f[j]).trade_id == tid + j + 1,
{
    lemma_market_numbered(levels, 0, taker, tid, Dec::zero_spec(), Dec::zero_spec(), taker.order_status, seq![]);
    if levels.len() > 0 {
        lemma_limit_numbered(levels, 0, price, taker.order_side, taker, tid, Dec::zero_spec(), Dec::zero_spec(), taker.order_status, seq![]);
    }
}

/// A limit order that the best opposite level is out of reach of (an ask
/// priced above the best bid, a bid priced below the best ask), or that
/// meets an empty opposite side, trades nothing and rests whole.
pub proof fn law_uncrossed_limit_rests(levels: Seq<LimitView>, price: Dec, taker: Order, tid: int, record: bool)
    requires
        levels.len() == 0 || stays_out(price, levels[0].price, taker.order_side),
    ensures
        limit_match(levels, price, taker, tid, record) == Some(((levels, taker, tid, Dec::zero_spec(), Dec::zero_spec(), taker.order_status, Seq::<Fill>::empty()), Some(price))),
{
}

/// Requests sorted by time stand in time order.
pub open spec fn time_ordered(s: Seq<OrderRequest>) -> bool {
    forall|i: int, j: int| 0 <= i < j < s.len() ==> (#[trigger] s[i]).timestamp() <= (#[trigger] s[j]).timestamp()
}

/// Placing a request into time-ordered requests keeps them time-ordered and
/// adds exactly that request.
proof fn lemma_insert_by_time(s: Seq<OrderRequest>, x: OrderRequest)
    requires
        time_ordered(s),
    ensures
        time_ordered(insert_by_time(s, x)),
        insert_by_time(s, x).to_multiset() == s.to_multiset().insert(x),
        insert_by_time(s, x).len() == s.len() + 1,
        forall|i: int| 0 <= i < insert_by_time(s, x).len() ==> (#[trigger] insert_by_time(s, x)[i]).timestamp() <= x.timestamp()
            || exists|j: int| 0 <= j < s.len() && s[j] == insert_by_time(s, x)[i],
    decreases s.len(),
{
    vstd::seq_lib::to_multiset_build(s, x);
    if s.len() == 0 {
        assert(insert_by_time(s, x) =~= seq![x]);
        assert(s.push(x) =~= seq![x]);
    } else if s.last().timestamp() <= x.timestamp() {
        let r = s.push(x);
        assert forall|i: int, j: int| 0 <= i < j < r.len() implies (#[trigger] r[i]).timestamp() <= (#[trigger] r[j]).timestamp() by {
            if j == s.len() {
                if i < s.len() - 1 {
                    assert(s[i].timestamp() <= s[s.len() - 1].timestamp());
                }
            }
        }
        assert forall|i: int| 0 <= i < r.len() implies (#[trigger] r[i]).timestamp() <= x.timestamp()
            || exists|j: int| 0 <= j < s.len() && s[j] == r[i] by {
            if i < s.len() {
                assert(s[i] == r[i]);
            }
        }
    } else {
        let p = s.drop_last();
        assert(time_ordered(p)) by {
            assert forall|i: int, j: int| 0 <= i < j < p.len() implies (#[trigger] p[i]).timestamp() <= (#[trigger] p[j]).timestamp() by {
                assert(p[i] == s[i] && p[j] == s[j]);
            }
        }
        lemma_insert_by_time(p, x);
        let q = insert_by_time(p, x);
        let r = q.push(s.last());
        vstd::seq_lib::to_multiset_build(q, s.last());
        vstd::seq_lib::to_multiset_build(p, s.last());
        vstd::seq_lib::to_multiset_build(p, x);
        assert(p.push(s.last()) =~= s);
        assert(r.to_multiset() =~= s.to_multiset().insert(x));
        assert forall|i: int| 0 <= i < r.len() implies (#[trigger] r[i]).timestamp() <= x.timestamp()
            || exists|j: int| 0 <= j < s.len() && s[j] == r[i] by {
            if i < q.len() {
                assert(r[i] == q[i]);
                if !(q[i].timestamp() <= x.timestamp()) {
                    let j = choose|j: int| 0 <= j < p.len() && p[j] == q[i];
                    assert(s[j] == p[j]);
                }
            } else {
                assert(s[s.len() - 1] == r[i]);
            }
        }
        assert forall|i: int, j: int| 0 <= i < j < r.len() implies (#[trigger] r[i]).timestamp() <= (#[trigger] r[j]).timestamp() by {
            if j == q.len() {
                assert(r[i] == q[i]);
                if q[i].timestamp() > x.timestamp() {
                    let k = choose|k: int| 0 <= k < p.len() && p[k] == q[i];
                    assert(s[k] == p[k]);
                    assert(s[k].timestamp() <= s[s.len() - 1].timestamp());
                }
            } else {
                assert(r[i] == q[i] && r[j] == q[j]);
            }
        }
    }
}

/// Sorting requests by time puts them in time order and keeps exactly the
/// requests that were given, each as often as it was given.
pub proof fn law_sort_by_time(s: Seq<OrderRequest>)
    ensures
        time_ordered(sort_by_time(s)),
        sort_by_time(s).to_multiset() == s.to_multiset(),
    decreases s.len(),
{
    if s.len() == 0 {
        assert(sort_by_time(s) =~= Seq::<OrderRequest>::empty());
        assert(s =~= Seq::<OrderRequest>::empty());
    } else {
        let p = s.drop_last();
        law_sort_by_time(p);
        lemma_insert_by_time(sort_by_time(p), s.last());
        vstd::seq_lib::to_multiset_build(p, s.last());
        assert(p.push(s.last()) =~= s);
    }
}

/// Whether a request was made at time `t`.
pub open spec fn made_at(t: i64) -> spec_fn(OrderRequest) -> bool {
    |r: OrderRequest| r.timestamp() == t
}

/// Placing `x` by time keeps the requests made at any one time in their
/// order, `x` behind those made at its own time.
proof fn lemma_insert_keeps_ties(q: Seq<OrderRequest>, x: OrderRequest, t: i64)
    ensures
        insert_by_time(q, x).filter(made_at(t)) == if x.timestamp() == t {
            q.filter(made_at(t)).push(x)
        } else {
            q.filter(made_at(t))
        },
    decreases q.len(),
{
    broadcast use Seq::lemma_filter_push;

    if q.len() == 0 {
        assert(q.push(x) =~= seq![x]);
        assert(q.filter(made_at(t)) =~= q) by {
            reveal(Seq::filter);
        }
    } else if q.last().timestamp() <= x.timestamp() {
    } else {
        let p = q.drop_last();
        lemma_insert_keeps_ties(p, x, t);
        assert(p.push(q.last()) =~= q);
    }
}

/// Sorting by time is stable: the requests made at any one time come out in
/// the order in which they were given.
pub proof fn law_sort_by_time_stable(s: Seq<OrderRequest>, t: i64)
    ensures
        sort_by_time(s).filter(made_at(t)) == s.filter(made_at(t)),
    decreases s.len(),
{
    broadcast use Seq::lemma_filter_push;

    if s.len() == 0 {
        assert(sort_by_time(s) =~= s);
    } else {
        let p = s.drop_last();
        law_sort_by_time_stable(p, t);
        lemma_insert_keeps_ties(sort_by_time(p), s.last(), t);
        assert(p.push(s.last()) =~= s);
    }
}

/// A stored cancellation replays as the cancellation it records: the row
/// that `cancel_row` writes for order `id` at `price` on `side` takes that
/// order out of that level, as `Orderbook::cancel_order` does.
pub proof fn law_stored_cancel_replays(v: BookView, row: ScyllaCancelOrder, id: u64, side: OrderSide, price: Dec)
    requires
        row.id == id as i64,
        row.order_side@ == side.name(),
        decimal_parse(row.price@) == Some(price),
    ensures
        replay_step(v, OrderRequest::Cancel(row)) == match v.cancel_step(id, side, price) {
            Ok(v2) => Ok::<BookView, ReplayError>(v2),
            Err(e) => Err(ReplayError::Cancel(e)),
        },
{
    lemma_order_side_parse_name(side);
    assert((id as i64) as u64 == id) by (bit_vector);
}

/// A stored order replays as the order it records: an order read back from
/// the row that `RecievedOrder::to_scylla_order` writes for `order` is
/// matched exactly as `order` itself.
pub proof fn law_stored_order_replays(v: BookView, row: ScyllaOrder, order: RecievedOrder, read: RecievedOrder)
    requires
        row.decodes_to(order),
        row.decodes_to(read),
    ensures
        replay_step(v, OrderRequest::Normal(read)) == replay_step(v, OrderRequest::Normal(order)),
{
}

/// Processing a received order is filling the engine's order for it: the
/// order numbered `order_id`, with the received order's time, side,
/// quantity, type and user, matched as a market order, or as a limit order
/// at the received price, with every trade reported.  It goes through
/// exactly when that fill does (neither overflows), and the received
/// order's own id plays no part.
pub proof fn law_process_is_fill(
    book: Orderbook,
    next: Orderbook,
    received: RecievedOrder,
    order_id: u64,
    r: (Dec, Dec, OrderStatus, Seq<Fill>),
)
    ensures
        order_from(received, order_id) == (Order {
            id: order_id,
            user_id: received.user_id as u64,
            initial_quantity: received.initial_quantity,
            filled_quote_quantity: Dec::zero_spec(),
            quantity: received.initial_quantity,
            order_type: received.order_type,
            order_side: received.order_side,
            order_status: OrderStatus::InProgress,
            timestamp: received.timestamp as u64,
        }),
        book.process_ok(received, order_id) == match received.order_type {
            OrderType::Market => book.market_outcome(order_from(received, order_id), true) is Some,
            OrderType::Limit => book.limit_outcome(received.price, order_from(received, order_id), true) is Some,
        },
        book.after_process(&next, received, order_id, r) == match received.order_type {
            OrderType::Market => book.after_market(&next, order_from(received, order_id), true, r),
            OrderType::Limit => book.after_limit(&next, received.price, order_from(received, order_id), true, r),
        },
        forall|other_id: i64| #[trigger] order_from(RecievedOrder { id: other_id, ..received }, order_id) == order_from(received, order_id),
{
}

/// Dropping a user's orders twice drops nothing more.
proof fn lemma_without_user_twice(orders: Seq<Order>, user: u64)
    ensures
        without_user(without_user(orders, user), user) == without_user(orders, user),
    decreases orders.len(),
{
    if orders.len() > 0 {
        let p = orders.drop_last();
        lemma_without_user_twice(p, user);
        let w = without_user(orders, user);
        if orders.last().user_id != user {
            assert(w.drop_last() =~= without_user(p, user));
        }
    }
}

/// Cancelling every order of a user a second time cancels nothing: the
/// user has no open order left, so there is no record and nothing to
/// unlock; the users, the user's locked balances as reported and the book
/// stay as the first call left them.
pub proof fn law_cancel_all_twice(
    book: Orderbook,
    next: Orderbook,
    again: Orderbook,
    users: Users,
    users1: Users,
    users2: Users,
    user: u64,
    records: Seq<RecievedOrder>,
    locked1: Seq<(String, String)>,
    records2: Seq<RecievedOrder>,
    locked2: Seq<(String, String)>,
)
    requires
        book.after_cancel_all_users(&next, &users, &users1, user, records, locked1),
        next.after_cancel_all_users(&again, &users1, &users2, user, records2, locked2),
    ensures
        next.open_orders(user).len() == 0,
        records2.len() == 0,
        next.cancel_unlocks(user).len() == 0,
        users2.users@ == users1.users@,
        locked2.len() == locked1.len(),
        forall|i: int| 0 <= i < locked2.len() ==> (#[trigger] locked2[i]).0@ == locked1[i].0@ && locked2[i].1@ == locked1[i].1@,
        again.levels(OrderSide::Ask) == next.levels(OrderSide::Ask),
        again.levels(OrderSide::Bid) == next.levels(OrderSide::Bid),
        again.trade_id == next.trade_id,
        again.order_id == next.order_id,
{
    law_cancel_all_removes_only_user(book.levels(OrderSide::Ask), user, user);
    law_cancel_all_removes_only_user(book.levels(OrderSide::Bid), user, user);
    assert(next.open_orders(user) =~= Seq::<(Dec, Order)>::empty());
    assert(next.cancel_unlocks(user) =~= Seq::<(Asset, Dec)>::empty());
    assert(users2.users@ =~= users1.users@);
    let a = book.levels(OrderSide::Ask);
    let b = book.levels(OrderSide::Bid);
    assert forall|i: int| 0 <= i < a.len() implies without_user(#[trigger] side_without_user(a, user)[i].orders, user) == side_without_user(a, user)[i].orders by {
        lemma_without_user_twice(a[i].orders, user);
    }
    assert forall|i: int| 0 <= i < b.len() implies without_user(#[trigger] side_without_user(b, user)[i].orders, user) == side_without_user(b, user)[i].orders by {
        lemma_without_user_twice(b[i].orders, user);
    }
    assert(side_without_user(side_without_user(a, user), user) =~~= side_without_user(a, user));
    assert(side_without_user(side_without_user(b, user), user) =~~= side_without_user(b, user));
}


/// Cancelling every order of a user twice in a row, whatever the book and
/// the users: when the first call cannot be done (no such user, an amount
/// that overflows, a locked balance that cannot be lowered), the second
/// cannot either and nothing changes; when it can, the second call cancels
/// nothing, reports the same locked balances, and leaves the users and the
/// book as the first call left them.
pub proof fn law_try_cancel_all_twice(
    book: Orderbook,
    next: Orderbook,
    again: Orderbook,
    users: Users,
    users1: Users,
    users2: Users,
    user: u64,
    r1: Option<(Seq<RecievedOrder>, Seq<(String, String)>)>,
    r2: Option<(Seq<RecievedOrder>, Seq<(String, String)>)>,
)
    requires
        book.after_try_cancel_all(&next, &users, &users1, user, r1),
        next.after_try_cancel_all(&again, &users1, &users2, user, r2),
    ensures
        r1 is None ==> r2 is None,
        r1 is Some ==> r2 is Some && r2.unwrap().0.len() == 0 && r2.unwrap().1.len() == r1.unwrap().1.len(),
        r1 is Some ==> forall|i: int|
            0 <= i < r1.unwrap().1.len() ==> (#[trigger] r2.unwrap().1[i]).0@ == r1.unwrap().1[i].0@
                && r2.unwrap().1[i].1@ == r1.unwrap().1[i].1@,
        users2.users@ == users1.users@,
        again.levels(OrderSide::Ask) == next.levels(OrderSide::Ask),
        again.levels(OrderSide::Bid) == next.levels(OrderSide::Bid),
        again.trade_id == next.trade_id,
        again.order_id == next.order_id,
{
    match r1 {
        None => {
            assert(next.open_orders(user) == book.open_orders(user));
            assert(next.cancel_unlocks(user) == book.cancel_unlocks(user));
            assert(!next.cancel_all_feasible(&users1, user));
            assert(r2 is None);
        },
        Some((records, locked1)) => {
            law_cancel_all_removes_only_user(book.levels(OrderSide::Ask), user, user);
            law_cancel_all_removes_only_user(book.levels(OrderSide::Bid), user, user);
            assert(next.open_orders(user) =~= Seq::<(Dec, Order)>::empty());
            assert(next.cancel_unlocks(user) =~= Seq::<(Asset, Dec)>::empty());
            assert(users1.users@.contains_key(user));
            assert(next.cancel_all_feasible(&users1, user));
            let (records2, locked2) = r2.unwrap();
            law_cancel_all_twice(book, next, again, users, users1, users2, user, records, locked1, records2, locked2);
        },
    }
}

} // verus!
