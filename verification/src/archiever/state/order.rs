//! Orders, as the archiver stores them.
use crate::archiever::state::scylla_state::ScyllaOrder;
use crate::decimal::{decimal_parse, decimal_text, to_text, Dec};
use vstd::prelude::*;

verus! {

/// An order with everything it has filled.
pub struct Order {
    pub id: i64,
    pub user_id: i64,
    pub symbol: String,
    pub price: Dec,
    pub initial_quantity: Dec,
    pub filled_quantity: Dec,
    pub quote_quantity: Dec,
    pub filled_quote_quantity: Dec,
    pub order_type: OrderType,
    pub order_side: OrderSide,
    pub order_status: OrderStatus,
    pub timestamp: i64,
}

impl Order {
    /// Every amount is a representable decimal.
    pub open spec fn wf(&self) -> bool {
        &&& self.price.wf()
        &&& self.initial_quantity.wf()
        &&& self.filled_quantity.wf()
        &&& self.quote_quantity.wf()
        &&& self.filled_quote_quantity.wf()
    }

    /// The row that stores this order: every amount as `rust_decimal`
    /// prints it and every attribute by its name.
    pub fn to_scylla_order(&self) -> (r: ScyllaOrder)
        requires
            self.wf(),
        ensures
            r.id == self.id,
            r.user_id == self.user_id,
            r.symbol@ == self.symbol@,
            r.price@ == decimal_text(self.price),
            r.initial_quantity@ == decimal_text(self.initial_quantity),
            r.filled_quantity@ == decimal_text(self.filled_quantity),
            r.quote_quantity@ == decimal_text(self.quote_quantity),
            r.filled_quote_quantity@ == decimal_text(self.filled_quote_quantity),
            r.order_type@ == self.order_type.name(),
            r.order_side@ == self.order_side.name(),
            r.order_status@ == self.order_status.name(),
            r.timestamp == self.timestamp,
            r.parses(),
            r.decodes_to(*self),
    {
        proof {
            lemma_order_type_parse_name(self.order_type);
            lemma_order_side_parse_name(self.order_side);
            lemma_order_status_parse_name(self.order_status);
        }
        ScyllaOrder {
            id: self.id,
            timestamp: self.timestamp,
            user_id: self.user_id,
            symbol: self.symbol.clone(),
            filled_quantity: to_text(self.filled_quantity),
            quote_quantity: to_text(self.quote_quantity),
            filled_quote_quantity: to_text(self.filled_quote_quantity),
            price: to_text(self.price),
            initial_quantity: to_text(self.initial_quantity),
            order_side: self.order_side.to_string(),
            order_status: self.order_status.to_string(),
            order_type: self.order_type.to_string(),
        }
    }
}

/// Where an order stands.
#[derive(Clone, Copy, Debug, PartialEq, Eq, Hash, Structural)]
#[allow(non_camel_case_types)]
pub enum OrderStatus {
    InProgress,
    Filled,
    PartiallyFilled,
    Cancelled,
}

impl OrderStatus {
    /// The variant's name, which is also the text it is printed as.
    pub open spec fn name(self) -> Seq<char> {
        match self {
            OrderStatus::InProgress => seq!['I', 'n', 'P', 'r', 'o', 'g', 'r', 'e', 's', 's'],
            OrderStatus::Filled => seq!['F', 'i', 'l', 'l', 'e', 'd'],
            OrderStatus::PartiallyFilled => seq!['P', 'a', 'r', 't', 'i', 'a', 'l', 'l', 'y', 'F', 'i', 'l', 'l', 'e', 'd'],
            OrderStatus::Cancelled => seq!['C', 'a', 'n', 'c', 'e', 'l', 'l', 'e', 'd'],
        }
    }

    /// The variant whose name is `s`, if there is one.
    pub open spec fn parse(s: Seq<char>) -> Option<OrderStatus> {
        if s == OrderStatus::InProgress.name() {
            Some(OrderStatus::InProgress)
        } else if s == OrderStatus::Filled.name() {
            Some(OrderStatus::Filled)
        } else if s == OrderStatus::PartiallyFilled.name() {
            Some(OrderStatus::PartiallyFilled)
        } else if s == OrderStatus::Cancelled.name() {
            Some(OrderStatus::Cancelled)
        } else {
            None
        }
    }

    /// Every variant, in declaration order.
    pub open spec fn variants() -> Seq<OrderStatus> {
        seq![OrderStatus::InProgress, OrderStatus::Filled, OrderStatus::PartiallyFilled, OrderStatus::Cancelled]
    }

    /// Every variant, in declaration order.
    pub fn all() -> (v: Vec<OrderStatus>)
        ensures
            v@ == Self::variants(),
    {
        let mut v: Vec<OrderStatus> = Vec::new();
        v.push(OrderStatus::InProgress);
        v.push(OrderStatus::Filled);
        v.push(OrderStatus::PartiallyFilled);
        v.push(OrderStatus::Cancelled);
        proof {
            assert(v@ =~= Self::variants());
        }
        v
    }

    /// The variant's name.
    pub fn to_string(&self) -> (s: String)
        ensures
            s@ == self.name(),
    {
        match self {
            OrderStatus::InProgress => {
                let s = String::from_str("InProgress");
                proof {
                    reveal_strlit("InProgress");
                    assert(s@ =~= self.name());
                }
                s
            },
            OrderStatus::Filled => {
                let s = String::from_str("Filled");
                proof {
                    reveal_strlit("Filled");
                    assert(s@ =~= self.name());
                }
                s
            },
            OrderStatus::PartiallyFilled => {
                let s = String::from_str("PartiallyFilled");
                proof {
                    reveal_strlit("PartiallyFilled");
                    assert(s@ =~= self.name());
                }
                s
            },
            OrderStatus::Cancelled => {
                let s = String::from_str("Cancelled");
                proof {
                    reveal_strlit("Cancelled");
                    assert(s@ =~= self.name());
                }
                s
            },
        }
    }

    /// The variant whose name equals `text`, found by comparing `text`
    /// with the name of each variant in turn.
    pub fn from_str(text: &str) -> (r: Result<OrderStatus, ()>)
        ensures
            r == (match Self::parse(text@) { Some(x) => Ok(x), None => Err(()) }),
    {
        let target = String::from_str(text);
        let variants = Self::all();
        let mut i: usize = 0;
        while i < variants.len()
            invariant
                variants@ == Self::variants(),
                target@ == text@,
                i <= variants@.len(),
                forall|j: int| 0 <= j < i ==> #[trigger] variants@[j].name() != text@,
            decreases variants.len() - i,
        {
            let current = variants[i].to_string();
            if target == current {
                proof {
                    if i == 0 {
                    } else if i == 1 {
                        assert(variants@[0].name() != text@);
                    } else if i == 2 {
                        assert(variants@[0].name() != text@);
                        assert(variants@[1].name() != text@);
                    } else if i == 3 {
                        assert(variants@[0].name() != text@);
                        assert(variants@[1].name() != text@);
                        assert(variants@[2].name() != text@);
                    }
                }
                return Ok(variants[i]);
            }
            i += 1;
        }
        proof {
            assert(variants@[0].name() != text@);
            assert(variants@[1].name() != text@);
            assert(variants@[2].name() != text@);
            assert(variants@[3].name() != text@);
        }
        Err(())
    }
}

/// Parsing a variant's name gives the variant back.
pub proof fn lemma_order_status_parse_name(v: OrderStatus)
    ensures
        OrderStatus::parse(v.name()) == Some(v),
{
    assert(OrderStatus::Filled.name() != OrderStatus::InProgress.name()) by {
        assert(OrderStatus::Filled.name().len() != OrderStatus::InProgress.name().len());
    }
    assert(OrderStatus::PartiallyFilled.name() != OrderStatus::InProgress.name()) by {
        assert(OrderStatus::PartiallyFilled.name().len() != OrderStatus::InProgress.name().len());
    }
    assert(OrderStatus::PartiallyFilled.name() != OrderStatus::Filled.name()) by {
        assert(OrderStatus::PartiallyFilled.name().len() != OrderStatus::Filled.name().len());
    }
    assert(OrderStatus::Cancelled.name() != OrderStatus::InProgress.name()) by {
        assert(OrderStatus::Cancelled.name().len() != OrderStatus::InProgress.name().len());
    }
    assert(OrderStatus::Cancelled.name() != OrderStatus::Filled.name()) by {
        assert(OrderStatus::Cancelled.name().len() != OrderStatus::Filled.name().len());
    }
    assert(OrderStatus::Cancelled.name() != OrderStatus::PartiallyFilled.name()) by {
        assert(OrderStatus::Cancelled.name().len() != OrderStatus::PartiallyFilled.name().len());
    }
}
/// The side of an order: `Bid` buys the base asset, `Ask` sells it.
#[derive(Clone, Copy, Debug, PartialEq, Eq, Hash, Structural)]
#[allow(non_camel_case_types)]
pub enum OrderSide {
    Bid,
    Ask,
}

impl OrderSide {
    /// The variant's name, which is also the text it is printed as.
    pub open spec fn name(self) -> Seq<char> {
        match self {
            OrderSide::Bid => seq!['B', 'i', 'd'],
            OrderSide::Ask => seq!['A', 's', 'k'],
        }
    }

    /// The variant whose name is `s`, if there is one.
    pub open spec fn parse(s: Seq<char>) -> Option<OrderSide> {
        if s == OrderSide::Bid.name() {
            Some(OrderSide::Bid)
        } else if s == OrderSide::Ask.name() {
            Some(OrderSide::Ask)
        } else {
            None
        }
    }

    /// Every variant, in declaration order.
    pub open spec fn variants() -> Seq<OrderSide> {
        seq![OrderSide::Bid, OrderSide::Ask]
    }

    /// Every variant, in declaration order.
    pub fn all() -> (v: Vec<OrderSide>)
        ensures
            v@ == Self::variants(),
    {
        let mut v: Vec<OrderSide> = Vec::new();
        v.push(OrderSide::Bid);
        v.push(OrderSide::Ask);
        proof {
            assert(v@ =~= Self::variants());
        }
        v
    }

    /// The variant's name.
    pub fn to_string(&self) -> (s: String)
        ensures
            s@ == self.name(),
    {
        match self {
            OrderSide::Bid => {
                let s = String::from_str("Bid");
                proof {
                    reveal_strlit("Bid");
                    assert(s@ =~= self.name());
                }
                s
            },
            OrderSide::Ask => {
                let s = String::from_str("Ask");
                proof {
                    reveal_strlit("Ask");
                    assert(s@ =~= self.name());
                }
                s
            },
        }
    }

    /// The variant whose name equals `text`, found by comparing `text`
    /// with the name of each variant in turn.
    pub fn from_str(text: &str) -> (r: Result<OrderSide, ()>)
        ensures
            r == (match Self::parse(text@) { Some(x) => Ok(x), None => Err(()) }),
    {
        let target = String::from_str(text);
        let variants = Self::all();
        let mut i: usize = 0;
        while i < variants.len()
            invariant
                variants@ == Self::variants(),
                target@ == text@,
                i <= variants@.len(),
                forall|j: int| 0 <= j < i ==> #[trigger] variants@[j].name() != text@,
            decreases variants.len() - i,
        {
            let current = variants[i].to_string();
            if target == current {
                proof {
                    if i == 0 {
                    } else if i == 1 {
                        assert(variants@[0].name() != text@);
                    }
                }
                return Ok(variants[i]);
            }
            i += 1;
        }
        proof {
            assert(variants@[0].name() != text@);
            assert(variants@[1].name() != text@);
        }
        Err(())
    }
}

/// Parsing a variant's name gives the variant back.
pub proof fn lemma_order_side_parse_name(v: OrderSide)
    ensures
        OrderSide::parse(v.name()) == Some(v),
{
    assert(OrderSide::Ask.name() != OrderSide::Bid.name()) by {
        assert(OrderSide::Ask.name()[0] != OrderSide::Bid.name()[0]);
    }
}
/// Whether an order takes what the book offers or rests at a price.
#[derive(Clone, Copy, Debug, PartialEq, Eq, Hash, Structural)]
#[allow(non_camel_case_types)]
pub enum OrderType {
    Market,
    Limit,
}

impl OrderType {
    /// The variant's name, which is also the text it is printed as.
    pub open spec fn name(self) -> Seq<char> {
        match self {
            OrderType::Market => seq!['M', 'a', 'r', 'k', 'e', 't'],
            OrderType::Limit => seq!['L', 'i', 'm', 'i', 't'],
        }
    }

    /// The variant whose name is `s`, if there is one.
    pub open spec fn parse(s: Seq<char>) -> Option<OrderType> {
        if s == OrderType::Market.name() {
            Some(OrderType::Market)
        } else if s == OrderType::Limit.name() {
            Some(OrderType::Limit)
        } else {
            None
        }
    }

    /// Every variant, in declaration order.
    pub open spec fn variants() -> Seq<OrderType> {
        seq![OrderType::Market, OrderType::Limit]
    }

    /// Every variant, in declaration order.
    pub fn all() -> (v: Vec<OrderType>)
        ensures
            v@ == Self::variants(),
    {
        let mut v: Vec<OrderType> = Vec::new();
        v.push(OrderType::Market);
        v.push(OrderType::Limit);
        proof {
            assert(v@ =~= Self::variants());
        }
        v
    }

    /// The variant's name.
    pub fn to_string(&self) -> (s: String)
        ensures
            s@ == self.name(),
    {
        match self {
            OrderType::Market => {
                let s = String::from_str("Market");
                proof {
                    reveal_strlit("Market");
                    assert(s@ =~= self.name());
                }
                s
            },
            OrderType::Limit => {
                let s = String::from_str("Limit");
                proof {
                    reveal_strlit("Limit");
                    assert(s@ =~= self.name());
                }
                s
            },
        }
    }

    /// The variant whose name equals `text`, found by comparing `text`
    /// with the name of each variant in turn.
    pub fn from_str(text: &str) -> (r: Result<OrderType, ()>)
        ensures
            r == (match Self::parse(text@) { Some(x) => Ok(x), None => Err(()) }),
    {
        let target = String::from_str(text);
        let variants = Self::all();
        let mut i: usize = 0;
        while i < variants.len()
            invariant
                variants@ == Self::variants(),
                target@ == text@,
                i <= variants@.len(),
                forall|j: int| 0 <= j < i ==> #[trigger] variants@[j].name() != text@,
            decreases variants.len() - i,
        {
            let current = variants[i].to_string();
            if target == current {
                proof {
                    if i == 0 {
                    } else if i == 1 {
                        assert(variants@[0].name() != text@);
                    }
                }
                return Ok(variants[i]);
            }
            i += 1;
        }
        proof {
            assert(variants@[0].name() != text@);
            assert(variants@[1].name() != text@);
        }
        Err(())
    }
}

/// Parsing a variant's name gives the variant back.
pub proof fn lemma_order_type_parse_name(v: OrderType)
    ensures
        OrderType::parse(v.name()) == Some(v),
{
    assert(OrderType::Limit.name() != OrderType::Market.name()) by {
        assert(OrderType::Limit.name().len() != OrderType::Market.name().len());
    }
}
} // verus!
