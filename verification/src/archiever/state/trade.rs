//! Trades, as the archiver stores them.
use crate::archiever::state::scylla_state::ScyllaTrade;
use crate::decimal::{checked_mul, decimal_product, decimal_text, to_text, Dec};
use vstd::prelude::*;

verus! {

/// A trade of `quantity` at `price`, worth `quote_quantity`.
pub struct Trade {
    pub id: i64,
    pub symbol: String,
    pub quantity: Dec,
    pub quote_quantity: Dec,
    pub is_buyer_maker: bool,
    pub price: Dec,
    pub timestamp: i64,
}

impl Trade {
    /// The trade of `quantity` at `price`, worth `price * quantity`, with
    /// its time cut to 64 bits.
    pub fn new(id: i64, is_buyer_maker: bool, price: Dec, quantity: Dec, symbol: String, timestamp: u128) -> (t: Trade)
        requires
            price.wf(),
            quantity.wf(),
            decimal_product(price, quantity) is Some,
        ensures
            t.id == id,
            t.symbol@ == symbol@,
            t.quantity == quantity,
            Some(t.quote_quantity) == decimal_product(price, quantity),
            t.is_buyer_maker == is_buyer_maker,
            t.price == price,
            t.timestamp == timestamp as i64,
    {
        let quote_quantity = match checked_mul(price, quantity) {
            Some(q) => q,
            None => Dec::zero(),
        };
        Trade { id, symbol, quantity, quote_quantity, is_buyer_maker, price, timestamp: timestamp as i64 }
    }

    /// `Trade::new`, or `None` when `price * quantity` overflows.
    pub fn try_new(id: i64, is_buyer_maker: bool, price: Dec, quantity: Dec, symbol: String, timestamp: u128) -> (r: Option<Trade>)
        requires
            price.wf(),
            quantity.wf(),
        ensures
            match r {
                None => decimal_product(price, quantity) is None,
                Some(t) => t.id == id && t.symbol@ == symbol@ && t.quantity == quantity && Some(t.quote_quantity)
                    == decimal_product(price, quantity) && t.is_buyer_maker == is_buyer_maker && t.price == price
                    && t.timestamp == timestamp as i64,
            },
    {
        match checked_mul(price, quantity) {
            Some(_) => Some(Trade::new(id, is_buyer_maker, price, quantity, symbol, timestamp)),
            None => None,
        }
    }

    /// The row that stores this trade, amounts as `rust_decimal` prints them.
    pub fn to_scylla_trade(&self) -> (r: ScyllaTrade)
        requires
            self.price.wf(),
            self.quantity.wf(),
            self.quote_quantity.wf(),
        ensures
            r.id == self.id,
            r.symbol@ == self.symbol@,
            r.is_buyer_maker == self.is_buyer_maker,
            r.price@ == decimal_text(self.price),
            r.quantity@ == decimal_text(self.quantity),
            r.quote_quantity@ == decimal_text(self.quote_quantity),
            r.timestamp == self.timestamp,
            r.parses(),
            r.decodes_to(*self),
    {
        ScyllaTrade {
            id: self.id,
            symbol: self.symbol.clone(),
            is_buyer_maker: self.is_buyer_maker,
            price: to_text(self.price),
            quantity: to_text(self.quantity),
            quote_quantity: to_text(self.quote_quantity),
            timestamp: self.timestamp,
        }
    }
}

} // verus!
