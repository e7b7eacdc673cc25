//! The rows in which the archiver stores users, orders and trades.
use crate::archiever::state::order::{Order, OrderSide, OrderStatus, OrderType};
use crate::archiever::state::trade::Trade;
use crate::decimal::{decimal_parse, parse, Dec};
use vstd::prelude::*;

verus! {

/// A stored user: the entries of its balance maps, each an asset name with
/// the amount as text.
pub struct ScyllaUser {
    pub id: i64,
    pub balance: Vec<(String, String)>,
    pub locked_balance: Vec<(String, String)>,
}

/// A stored order: every amount and attribute as text.
pub struct ScyllaOrder {
    pub id: i64,
    pub user_id: i64,
    pub symbol: String,
    pub price: String,
    pub initial_quantity: String,
    pub filled_quantity: String,
    pub quote_quantity: String,
    pub filled_quote_quantity: String,
    pub order_type: String,
    pub order_side: String,
    pub order_status: String,
    pub timestamp: i64,
}

impl ScyllaOrder {
    /// Every text of the row parses: the amounts as decimals, the
    /// attributes as names of their variants.
    pub open spec fn parses(&self) -> bool {
        &&& decimal_parse(self.price@) is Some
        &&& decimal_parse(self.initial_quantity@) is Some
        &&& decimal_parse(self.filled_quantity@) is Some
        &&& decimal_parse(self.quote_quantity@) is Some
        &&& decimal_parse(self.filled_quote_quantity@) is Some
        &&& OrderType::parse(self.order_type@) is Some
        &&& OrderSide::parse(self.order_side@) is Some
        &&& OrderStatus::parse(self.order_status@) is Some
    }

    /// `r` is the order that this row stores.
    pub open spec fn decodes_to(&self, r: Order) -> bool {
        &&& r.id == self.id
        &&& r.user_id == self.user_id
        &&& r.symbol@ == self.symbol@
        &&& Some(r.price) == decimal_parse(self.price@)
        &&& Some(r.initial_quantity) == decimal_parse(self.initial_quantity@)
        &&& Some(r.filled_quantity) == decimal_parse(self.filled_quantity@)
        &&& Some(r.quote_quantity) == decimal_parse(self.quote_quantity@)
        &&& Some(r.filled_quote_quantity) == decimal_parse(self.filled_quote_quantity@)
        &&& Some(r.order_type) == OrderType::parse(self.order_type@)
        &&& Some(r.order_side) == OrderSide::parse(self.order_side@)
        &&& Some(r.order_status) == OrderStatus::parse(self.order_status@)
        &&& r.timestamp == self.timestamp
    }

    /// The order that this row stores.
    pub fn from_scylla_order(&self) -> (r: Order)
        requires
            self.parses(),
        ensures
            self.decodes_to(r),
            r.wf(),
    {
        match self.try_from_scylla_order() {
            Some(r) => r,
            None => Order {
                id: self.id,
                user_id: self.user_id,
                symbol: self.symbol.clone(),
                price: Dec::zero(),
                initial_quantity: Dec::zero(),
                filled_quantity: Dec::zero(),
                quote_quantity: Dec::zero(),
                filled_quote_quantity: Dec::zero(),
                order_type: OrderType::Market,
                order_side: OrderSide::Bid,
                order_status: OrderStatus::InProgress,
                timestamp: self.timestamp,
            },
        }
    }

    /// The order that this row stores, or `None` when a text of it does not
    /// parse.
    pub fn try_from_scylla_order(&self) -> (r: Option<Order>)
        ensures
            match r {
                None => !self.parses(),
                Some(o) => self.parses() && self.decodes_to(o) && o.wf(),
            },
    {
        let filled_quantity = match parse(self.filled_quantity.as_str()) {
            Some(x) => x,
            None => return None,
        };
        let filled_quote_quantity = match parse(self.filled_quote_quantity.as_str()) {
            Some(x) => x,
            None => return None,
        };
        let quote_quantity = match parse(self.quote_quantity.as_str()) {
            Some(x) => x,
            None => return None,
        };
        let price = match parse(self.price.as_str()) {
            Some(x) => x,
            None => return None,
        };
        let initial_quantity = match parse(self.initial_quantity.as_str()) {
            Some(x) => x,
            None => return None,
        };
        let order_side = match OrderSide::from_str(self.order_side.as_str()) {
            Ok(x) => x,
            Err(_) => return None,
        };
        let order_status = match OrderStatus::from_str(self.order_status.as_str()) {
            Ok(x) => x,
            Err(_) => return None,
        };
        let order_type = match OrderType::from_str(self.order_type.as_str()) {
            Ok(x) => x,
            Err(_) => return None,
        };
        Some(
            Order {
                id: self.id,
                timestamp: self.timestamp,
                user_id: self.user_id,
                symbol: self.symbol.clone(),
                filled_quantity,
                filled_quote_quantity,
                quote_quantity,
                price,
                initial_quantity,
                order_side,
                order_status,
                order_type,
            },
        )
    }
}

/// A stored trade: amounts as text.
pub struct ScyllaTrade {
    pub id: i64,
    pub symbol: String,
    pub quantity: String,
    pub quote_quantity: String,
    pub is_buyer_maker: bool,
    pub price: String,
    pub timestamp: i64,
}

impl ScyllaTrade {
    /// Every amount of the row parses as a decimal.
    pub open spec fn parses(&self) -> bool {
        &&& decimal_parse(self.price@) is Some
        &&& decimal_parse(self.quantity@) is Some
        &&& decimal_parse(self.quote_quantity@) is Some
    }

    /// `t` is the trade that this row stores.
    pub open spec fn decodes_to(&self, t: Trade) -> bool {
        &&& t.id == self.id
        &&& t.symbol@ == self.symbol@
        &&& t.is_buyer_maker == self.is_buyer_maker
        &&& Some(t.price) == decimal_parse(self.price@)
        &&& Some(t.quantity) == decimal_parse(self.quantity@)
        &&& Some(t.quote_quantity) == decimal_parse(self.quote_quantity@)
        &&& t.timestamp == self.timestamp
    }

    /// The trade that this row stores.
    pub fn from_scylla_trade(&self) -> (t: Trade)
        requires
            self.parses(),
        ensures
            self.decodes_to(t),
    {
        match self.try_from_scylla_trade() {
            Some(t) => t,
            None => Trade {
                id: self.id,
                symbol: self.symbol.clone(),
                is_buyer_maker: self.is_buyer_maker,
                price: Dec::zero(),
                quantity: Dec::zero(),
                quote_quantity: Dec::zero(),
                timestamp: self.timestamp,
            },
        }
    }

    /// The trade that this row stores, or `None` when an amount does not
    /// parse.
    pub fn try_from_scylla_trade(&self) -> (r: Option<Trade>)
        ensures
            match r {
                None => !self.parses(),
                Some(t) => self.parses() && self.decodes_to(t),
            },
    {
        let price = match parse(self.price.as_str()) {
            Some(x) => x,
            None => return None,
        };
        let quantity = match parse(self.quantity.as_str()) {
            Some(x) => x,
            None => return None,
        };
        let quote_quantity = match parse(self.quote_quantity.as_str()) {
            Some(x) => x,
            None => return None,
        };
        Some(
            Trade {
                id: self.id,
                symbol: self.symbol.clone(),
                is_buyer_maker: self.is_buyer_maker,
                price,
                quantity,
                quote_quantity,
                timestamp: self.timestamp,
            },
        )
    }
}

} // verus!
