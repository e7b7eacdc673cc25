//! A price level of the book: the orders resting at one price, first come
//! first served.
use crate::decimal::{
    checked_add, checked_mul, checked_sub, decimal_difference, decimal_product, decimal_sum,
    less_than, Dec,
};
use crate::engine::matching::orderbook::Order;
use crate::engine::matching::{OrderSide, OrderStatus};
use vstd::prelude::*;

verus! {

/// The orders resting at one price, oldest first.
pub struct Limit {
    pub price: Dec,
    pub orders: Vec<Order>,
}

/// What a price level holds, as a value.
#[verifier::ext_equal]
pub struct LimitView {
    pub price: Dec,
    pub orders: Seq<Order>,
}

impl View for Limit {
    type V = LimitView;

    open spec fn view(&self) -> LimitView {
        LimitView { price: self.price, orders: self.orders@ }
    }
}

/// One trade between a resting order (the maker) and an incoming one (the
/// taker), as the matching reports it.
#[derive(Clone, Copy, Debug)]
pub struct Fill {
    pub trade_id: u64,
    pub quantity: Dec,
    pub price: Dec,
    pub maker_order_id: u64,
    pub maker_user_id: u64,
    pub maker_side: OrderSide,
    pub maker_status: OrderStatus,
    pub taker_order_id: u64,
    pub taker_user_id: u64,
    pub taker_status: OrderStatus,
}

/// Every order's amounts are representable decimals.
/// Some order of `orders` has quantity left.
pub open spec fn has_open(orders: Seq<Order>) -> bool {
    exists|i: int| 0 <= i < orders.len() && #[trigger] orders[i].quantity.units() > 0
}

pub open spec fn orders_wf(s: Seq<Order>) -> bool {
    forall|i: int| 0 <= i < s.len() ==> #[trigger] s[i].wf()
}

impl LimitView {
    /// The price and every order's amounts are representable decimals.
    pub open spec fn wf(self) -> bool {
        self.price.wf() && orders_wf(self.orders)
    }
}

/// The quantity left on the orders, added up from the oldest with
/// `rust_decimal`'s addition, starting from zero; `None` if it overflows.
pub open spec fn volume_of(orders: Seq<Order>) -> Option<Dec>
    decreases orders.len(),
{
    if orders.len() == 0 {
        Some(Dec::zero_spec())
    } else {
        match volume_of(orders.drop_last()) {
            Some(v) => decimal_sum(v, orders.last().quantity),
            None => None,
        }
    }
}

/// The smaller of two amounts; the second when they are equal.
pub open spec fn smaller(a: Dec, b: Dec) -> Dec {
    if a.units() < b.units() {
        a
    } else {
        b
    }
}

/// The status of an order with `left` still to fill, after a trade.
pub open spec fn status_after(left: Dec) -> OrderStatus {
    if left.units() == 0 {
        OrderStatus::Filled
    } else {
        OrderStatus::PartiallyFilled
    }
}

/// One trade of `taker` against `maker` at `price`: the smaller of the two
/// quantities changes hands, each side's quantity drops by it and each
/// side's filled quote amount grows by it times the price.  Gives the new
/// maker, the new taker and the traded quantity; `None` if `rust_decimal`
/// overflows.
pub open spec fn fill_step(maker: Order, taker: Order, price: Dec) -> Option<(Order, Order, Dec)> {
    let q = smaller(taker.quantity, maker.quantity);
    match (
        decimal_difference(taker.quantity, q),
        decimal_difference(maker.quantity, q),
        decimal_product(q, price),
    ) {
        (Some(tq), Some(mq), Some(value)) => match (
            decimal_sum(taker.filled_quote_quantity, value),
            decimal_sum(maker.filled_quote_quantity, value),
        ) {
            (Some(tv), Some(mv)) => Some(
                (
                    Order {
                        quantity: mq,
                        filled_quote_quantity: mv,
                        order_status: status_after(mq),
                        ..maker
                    },
                    Order {
                        quantity: tq,
                        filled_quote_quantity: tv,
                        order_status: status_after(tq),
                        ..taker
                    },
                    q,
                ),
            ),
            _ => None,
        },
        _ => None,
    }
}

/// The report of the trade numbered `trade_id`.
pub open spec fn fill_record(trade_id: int, maker: Order, taker: Order, q: Dec, price: Dec) -> Fill {
    Fill {
        trade_id: trade_id as u64,
        quantity: q,
        price,
        maker_order_id: maker.id,
        maker_user_id: maker.user_id,
        maker_side: maker.order_side,
        maker_status: maker.order_status,
        taker_order_id: taker.id,
        taker_user_id: taker.user_id,
        taker_status: taker.order_status,
    }
}

/// Matching `taker` against the resting orders from position `i` on, at
/// `price`: while the taker has quantity left and a resting order remains,
/// it trades with the oldest; a resting order that is filled leaves the
/// level, one that is not stays in place with its new quantity.  Each trade
/// takes the next trade id; with `record`, each trade's report is appended
/// to `fills`.  Gives the resting orders, the taker, the last trade id and
/// the reports; `None` if a trade id would pass `u64::MAX` or `rust_decimal`
/// overflows.
pub open spec fn match_orders(
    makers: Seq<Order>,
    i: int,
    taker: Order,
    price: Dec,
    trade_id: int,
    record: bool,
    fills: Seq<Fill>,
) -> Option<(Seq<Order>, Order, int, Seq<Fill>)>
    decreases makers.len() - i,
{
    if i < 0 || i >= makers.len() || taker.quantity.units() == 0 {
        Some((makers, taker, trade_id, fills))
    } else if trade_id >= u64::MAX {
        None
    } else {
        match fill_step(makers[i], taker, price) {
            None => None,
            Some((m, t, q)) => {
                let f = if record {
                    fills.push(fill_record(trade_id + 1, m, t, q, price))
                } else {
                    fills
                };
                if m.quantity.units() == 0 {
                    match_orders(makers.remove(i), i, t, price, trade_id + 1, record, f)
                } else {
                    match_orders(makers.update(i, m), i + 1, t, price, trade_id + 1, record, f)
                }
            },
        }
    }
}

impl Limit {
    /// The price and every order's amounts are representable decimals.
    pub open spec fn wf(&self) -> bool {
        self@.wf()
    }

    /// An empty level at `price`.
    pub fn new(price: Dec) -> (l: Limit)
        requires
            price.wf(),
        ensures
            l.wf(),
            l.price == price,
            l.orders@ == Seq::<Order>::empty(),
    {
        Limit { price, orders: Vec::new() }
    }

    /// Puts `order` at the back of the queue.
    pub fn add_order(&mut self, order: Order)
        ensures
            final(self).price == old(self).price,
            final(self).orders@ == old(self).orders@.push(order),
    {
        self.orders.push(order);
    }

    /// The quantity left on the level's orders; `None` if the sum overflows.
    pub fn try_total_volume(&self) -> (r: Option<Dec>)
        requires
            orders_wf(self.orders@),
        ensures
            r == volume_of(self.orders@),
            r matches Some(v) ==> v.wf(),
    {
        let mut total = Dec::zero();
        let mut i: usize = 0;
        while i < self.orders.len()
            invariant
                i <= self.orders@.len(),
                orders_wf(self.orders@),
                volume_of(self.orders@.take(i as int)) == Some(total),
                total.wf(),
            decreases self.orders@.len() - i,
        {
            proof {
                assert(self.orders@.take(i + 1).drop_last() =~= self.orders@.take(i as int));
                assert(self.orders@[i as int].wf());
            }
            match checked_add(total, self.orders[i].quantity) {
                Some(t) => {
                    total = t;
                },
                None => {
                    proof {
                        lemma_volume_none_extends(self.orders@, i as int + 1);
                    }
                    return None;
                },
            }
            i = i + 1;
        }
        proof {
            assert(self.orders@.take(i as int) =~= self.orders@);
        }
        Some(total)
    }

    /// The quantity left on the level's orders.
    pub fn total_volume(&self) -> (v: Dec)
        requires
            orders_wf(self.orders@),
            volume_of(self.orders@) is Some,
        ensures
            Some(v) == volume_of(self.orders@),
            v.wf(),
    {
        match self.try_total_volume() {
            Some(v) => v,
            None => Dec::zero(),
        }
    }

    /// Matches `order` against the level (see `match_orders`), starting at
    /// the oldest resting order.  `None` exactly when the matching would
    /// overflow; the level is then left in an unspecified state.
    pub fn try_fill_order(
        &mut self,
        order: Order,
        price: Dec,
        trade_id: &mut u64,
        should_execute_trade: bool,
        fills: &mut Vec<Fill>,
    ) -> (r: Option<Order>)
        requires
            orders_wf(old(self).orders@),
            order.wf(),
            price.wf(),
        ensures
            final(self).price == old(self).price,
            match match_orders(
                old(self).orders@,
                0,
                order,
                price,
                *old(trade_id) as int,
                should_execute_trade,
                old(fills)@,
            ) {
                None => r is None,
                Some((mk, tk, tid, fl)) => r == Some(tk) && final(self).orders@ == mk
                    && *final(trade_id) == tid && final(fills)@ == fl && orders_wf(mk) && tk.wf(),
            },
            r matches Some(tk) ==> (tk.quantity.units() != 0 ==> final(self).orders@.len() == 0),
            r matches Some(tk) ==> (order.quantity.units() >= 0 ==> {
                &&& tk.quantity.units() >= 0
                &&& has_open(final(self).orders@) ==> has_open(old(self).orders@)
            }),
    {
        let ghost goal = match_orders(
            self.orders@,
            0,
            order,
            price,
            *trade_id as int,
            should_execute_trade,
            fills@,
        );
        let mut taker = order;
        let mut i: usize = 0;
        while i < self.orders.len() && !taker.is_filled()
            invariant
                goal == match_orders(
                    old(self).orders@,
                    0,
                    order,
                    price,
                    *old(trade_id) as int,
                    should_execute_trade,
                    old(fills)@,
                ),
                goal == match_orders(
                    self.orders@,
                    i as int,
                    taker,
                    price,
                    *trade_id as int,
                    should_execute_trade,
                    fills@,
                ),
                orders_wf(self.orders@),
                taker.wf(),
                price.wf(),
                i <= self.orders@.len(),
                self.price == old(self).price,
                i > 0 ==> taker.quantity.units() == 0,
                order.quantity.units() >= 0 ==> {
                    &&& taker.quantity.units() >= 0
                    &&& has_open(self.orders@) ==> has_open(old(self).orders@)
                },
            decreases self.orders@.len() - i,
        {
            if *trade_id == u64::MAX {
                return None;
            }
            let maker = self.orders[i];
            proof {
                assert(self.orders@[i as int].wf());
            }
            let q = if less_than(taker.quantity, maker.quantity) {
                taker.quantity
            } else {
                maker.quantity
            };
            let tq = match checked_sub(taker.quantity, q) {
                Some(x) => x,
                None => return None,
            };
            let mq = match checked_sub(maker.quantity, q) {
                Some(x) => x,
                None => return None,
            };
            let value = match checked_mul(q, price) {
                Some(x) => x,
                None => return None,
            };
            let tv = match checked_add(taker.filled_quote_quantity, value) {
                Some(x) => x,
                None => return None,
            };
            let mv = match checked_add(maker.filled_quote_quantity, value) {
                Some(x) => x,
                None => return None,
            };
            let maker_status = if mq.is_zero() {
                OrderStatus::Filled
            } else {
                OrderStatus::PartiallyFilled
            };
            let taker_status = if tq.is_zero() {
                OrderStatus::Filled
            } else {
                OrderStatus::PartiallyFilled
            };
            let new_maker = Order {
                quantity: mq,
                filled_quote_quantity: mv,
                order_status: maker_status,
                ..maker
            };
            taker = Order { quantity: tq, filled_quote_quantity: tv, order_status: taker_status, ..taker };
            *trade_id = *trade_id + 1;
            if should_execute_trade {
                fills.push(
                    Fill {
                        trade_id: *trade_id,
                        quantity: q,
                        price,
                        maker_order_id: new_maker.id,
                        maker_user_id: new_maker.user_id,
                        maker_side: new_maker.order_side,
                        maker_status: new_maker.order_status,
                        taker_order_id: taker.id,
                        taker_user_id: taker.user_id,
                        taker_status: taker.order_status,
                    },
                );
            }
            let ghost before = self.orders@;
            if new_maker.is_filled() {
                self.orders.remove(i);
                proof {
                    if has_open(self.orders@) {
                        let j = choose|j: int| 0 <= j < self.orders@.len() && #[trigger] self.orders@[j].quantity.units() > 0;
                        if j < i {
                            assert(before[j] == self.orders@[j]);
                        } else {
                            assert(before[j + 1] == self.orders@[j]);
                        }
                        assert(has_open(before));
                    }
                }
            } else {
                self.orders.set(i, new_maker);
                proof {
                    if has_open(self.orders@) {
                        let j = choose|j: int| 0 <= j < self.orders@.len() && #[trigger] self.orders@[j].quantity.units() > 0;
                        if j == i {
                            assert(maker.quantity.units() > 0 || order.quantity.units() < 0);
                            assert(before[i as int] == maker);
                        } else {
                            assert(before[j] == self.orders@[j]);
                        }
                        assert(has_open(before) || order.quantity.units() < 0);
                    }
                }
                i = i + 1;
            }
        }
        Some(taker)
    }

    /// Matches `order` against the level, oldest resting order first (see
    /// `match_orders`): gives the taker as it leaves the level and, when
    /// `should_execute_trade`, appends the report of every trade to `fills`.
    pub fn fill_order(
        &mut self,
        order: Order,
        price: Dec,
        trade_id: &mut u64,
        should_execute_trade: bool,
        fills: &mut Vec<Fill>,
    ) -> (r: Order)
        requires
            orders_wf(old(self).orders@),
            order.wf(),
            price.wf(),
            match_orders(
                old(self).orders@,
                0,
                order,
                price,
                *old(trade_id) as int,
                should_execute_trade,
                old(fills)@,
            ) is Some,
        ensures
            final(self).price == old(self).price,
            match_orders(
                old(self).orders@,
                0,
                order,
                price,
                *old(trade_id) as int,
                should_execute_trade,
                old(fills)@,
            ) == Some((final(self).orders@, r, *final(trade_id) as int, final(fills)@)),
            orders_wf(final(self).orders@),
            r.wf(),
    {
        match self.try_fill_order(order, price, trade_id, should_execute_trade, fills) {
            Some(r) => r,
            None => order,
        }
    }
}

/// Once the running sum overflows, so does every longer one.
pub proof fn lemma_volume_none_extends(s: Seq<Order>, n: int)
    requires
        0 <= n <= s.len(),
        volume_of(s.take(n)) is None,
    ensures
        volume_of(s) is None,
    decreases s.len() - n,
{
    if n < s.len() {
        assert(s.take(n + 1).drop_last() =~= s.take(n));
        lemma_volume_none_extends(s, n + 1);
    } else {
        assert(s.take(n) =~= s);
    }
}

} // verus!
