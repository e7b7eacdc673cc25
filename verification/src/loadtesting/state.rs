//! The load tester's request bodies and enumerations.
use crate::decimal::Dec;
use std::collections::HashMap;
use vstd::prelude::*;

verus! {

/// The body of an order request.
pub struct OrderParams {
    pub price: Dec,
    pub order_side: String,
    pub order_type: String,
    pub quantity: Dec,
    pub user_id: i64,
    pub symbol: String,
}

/// The body of a deposit request.
pub struct Deposit {
    pub user_id: i64,
    pub asset: String,
    pub quantity: Dec,
}

/// The body of a withdrawal request.
pub struct Withdraw {
    pub user_id: i64,
    pub asset: String,
    pub quantity: Dec,
}

/// The body of a request to cancel all of a user's orders in a market.
pub struct CancelAll {
    pub user_id: i64,
    pub symbol: String,
}

/// The body of a request to cancel one order.
pub struct CancelOrder {
    pub id: i64,
    pub user_id: i64,
    pub symbol: String,
    pub price: Dec,
    pub order_side: String,
}

/// The body of a request for one open order.
pub struct OpenOrder {
    pub user_id: i64,
    pub order_id: i64,
    pub symbol: String,
}

/// The body of a request for a user's open orders in a market.
pub struct OpenOrders {
    pub user_id: i64,
    pub symbol: String,
}

/// The body of a request for a user's order history.
pub struct UserOrders {
    pub user_id: i64,
}

/// A user's balances, as the backend answers them.
pub struct User {
    pub id: i64,
    pub balance: HashMap<Asset, Dec>,
    pub locked_balance: HashMap<Asset, Dec>,
}

/// An asset that can be held and traded.
#[derive(Clone, Copy, Debug, PartialEq, Eq, Hash, Structural)]
#[allow(non_camel_case_types)]
pub enum Asset {
    USDT,
    BTC,
    SOL,
    ETH,
}

impl Asset {
    /// The variant's name, which is also the text it is printed as.
    pub open spec fn name(self) -> Seq<char> {
        match self {
            Asset::USDT => seq!['U', 'S', 'D', 'T'],
            Asset::BTC => seq!['B', 'T', 'C'],
            Asset::SOL => seq!['S', 'O', 'L'],
            Asset::ETH => seq!['E', 'T', 'H'],
        }
    }

    /// The variant whose name is `s`, if there is one.
    pub open spec fn parse(s: Seq<char>) -> Option<Asset> {
        if s == Asset::USDT.name() {
            Some(Asset::USDT)
        } else if s == Asset::BTC.name() {
            Some(Asset::BTC)
        } else if s == Asset::SOL.name() {
            Some(Asset::SOL)
        } else if s == Asset::ETH.name() {
            Some(Asset::ETH)
        } else {
            None
        }
    }

    /// Every variant, in declaration order.
    pub open spec fn variants() -> Seq<Asset> {
        seq![Asset::USDT, Asset::BTC, Asset::SOL, Asset::ETH]
    }

    /// Every variant, in declaration order.
    pub fn all() -> (v: Vec<Asset>)
        ensures
            v@ == Self::variants(),
    {
        let mut v: Vec<Asset> = Vec::new();
        v.push(Asset::USDT);
        v.push(Asset::BTC);
        v.push(Asset::SOL);
        v.push(Asset::ETH);
        proof {
            assert(v@ =~= Self::variants());
        }
        v
    }

    /// The variant's name.
    pub fn to_string(&self) -> (s: String)
        ensures
            s@ == self.name(),
    {
        match self {
            Asset::USDT => {
                let s = String::from_str("USDT");
                proof {
                    reveal_strlit("USDT");
                    assert(s@ =~= self.name());
                }
                s
            },
            Asset::BTC => {
                let s = String::from_str("BTC");
                proof {
                    reveal_strlit("BTC");
                    assert(s@ =~= self.name());
                }
                s
            },
            Asset::SOL => {
                let s = String::from_str("SOL");
                proof {
                    reveal_strlit("SOL");
                    assert(s@ =~= self.name());
                }
                s
            },
            Asset::ETH => {
                let s = String::from_str("ETH");
                proof {
                    reveal_strlit("ETH");
                    assert(s@ =~= self.name());
                }
                s
            },
        }
    }

    /// The variant whose name equals `text`, found by comparing `text`
    /// with the name of each variant in turn.
    pub fn from_str(text: &str) -> (r: Option<Asset>)
        ensures
            r == Self::parse(text@),
    {
        let target = String::from_str(text);
        let variants = Self::all();
        let mut i: usize = 0;
        while i < variants.len()
            invariant
                variants@ == Self::variants(),
                target@ == text@,
                i <= variants@.len(),
                forall|j: int| 0 <= j < i ==> #[trigger] variants@[j].name() != text@,
            decreases variants.len() - i,
        {
            let current = variants[i].to_string();
            if target == current {
                proof {
                    if i == 0 {
                    } else if i == 1 {
                        assert(variants@[0].name() != text@);
                    } else if i == 2 {
                        assert(variants@[0].name() != text@);
                        assert(variants@[1].name() != text@);
                    } else if i == 3 {
                        assert(variants@[0].name() != text@);
                        assert(variants@[1].name() != text@);
                        assert(variants@[2].name() != text@);
                    }
                }
                return Some(variants[i]);
            }
            i += 1;
        }
        proof {
            assert(variants@[0].name() != text@);
            assert(variants@[1].name() != text@);
            assert(variants@[2].name() != text@);
            assert(variants@[3].name() != text@);
        }
        None
    }
}

/// Parsing a variant's name gives the variant back.
pub proof fn lemma_asset_parse_name(v: Asset)
    ensures
        Asset::parse(v.name()) == Some(v),
{
    assert(Asset::BTC.name() != Asset::USDT.name()) by {
        assert(Asset::BTC.name().len() != Asset::USDT.name().len());
    }
    assert(Asset::SOL.name() != Asset::USDT.name()) by {
        assert(Asset::SOL.name().len() != Asset::USDT.name().len());
    }
    assert(Asset::SOL.name() != Asset::BTC.name()) by {
        assert(Asset::SOL.name()[0] != Asset::BTC.name()[0]);
    }
    assert(Asset::ETH.name() != Asset::USDT.name()) by {
        assert(Asset::ETH.name().len() != Asset::USDT.name().len());
    }
    assert(Asset::ETH.name() != Asset::BTC.name()) by {
        assert(Asset::ETH.name()[0] != Asset::BTC.name()[0]);
    }
    assert(Asset::ETH.name() != Asset::SOL.name()) by {
        assert(Asset::ETH.name()[0] != Asset::SOL.name()[0]);
    }
}
/// Where an order stands.
#[derive(Clone, Copy, Debug, PartialEq, Eq, Hash, Structural)]
#[allow(non_camel_case_types)]
pub enum OrderStatus {
    InProgress,
    Filled,
    PartiallyFilled,
    Cancelled,
}

impl OrderStatus {
    /// The variant's name, which is also the text it is printed as.
    pub open spec fn name(self) -> Seq<char> {
        match self {
            OrderStatus::InProgress => seq!['I', 'n', 'P', 'r', 'o', 'g', 'r', 'e', 's', 's'],
            OrderStatus::Filled => seq!['F', 'i', 'l', 'l', 'e', 'd'],
            OrderStatus::PartiallyFilled => seq!['P', 'a', 'r', 't', 'i', 'a', 'l', 'l', 'y', 'F', 'i', 'l', 'l', 'e', 'd'],
            OrderStatus::Cancelled => seq!['C', 'a', 'n', 'c', 'e', 'l', 'l', 'e', 'd'],
        }
    }

    /// The variant whose name is `s`, if there is one.
    pub open spec fn parse(s: Seq<char>) -> Option<OrderStatus> {
        if s == OrderStatus::InProgress.name() {
            Some(OrderStatus::InProgress)
        } else if s == OrderStatus::Filled.name() {
            Some(OrderStatus::Filled)
        } else if s == OrderStatus::PartiallyFilled.name() {
            Some(OrderStatus::PartiallyFilled)
        } else if s == OrderStatus::Cancelled.name() {
            Some(OrderStatus::Cancelled)
        } else {
            None
        }
    }

    /// Every variant, in declaration order.
    pub open spec fn variants() -> Seq<OrderStatus> {
        seq![OrderStatus::InProgress, OrderStatus::Filled, OrderStatus::PartiallyFilled, OrderStatus::Cancelled]
    }

    /// Every variant, in declaration order.
    pub fn all() -> (v: Vec<OrderStatus>)
        ensures
            v@ == Self::variants(),
    {
        let mut v: Vec<OrderStatus> = Vec::new();
        v.push(OrderStatus::InProgress);
        v.push(OrderStatus::Filled);
        v.push(OrderStatus::PartiallyFilled);
        v.push(OrderStatus::Cancelled);
        proof {
            assert(v@ =~= Self::variants());
        }
        v
    }

    /// The variant's name.
    pub fn to_string(&self) -> (s: String)
        ensures
            s@ == self.name(),
    {
        match self {
            OrderStatus::InProgress => {
                let s = String::from_str("InProgress");
                proof {
                    reveal_strlit("InProgress");
                    assert(s@ =~= self.name());
                }
                s
            },
            OrderStatus::Filled => {
                let s = String::from_str("Filled");
                proof {
                    reveal_strlit("Filled");
                    assert(s@ =~= self.name());
                }
                s
            },
            OrderStatus::PartiallyFilled => {
                let s = String::from_str("PartiallyFilled");
                proof {
                    reveal_strlit("PartiallyFilled");
                    assert(s@ =~= self.name());
                }
                s
            },
            OrderStatus::Cancelled => {
                let s = String::from_str("Cancelled");
                proof {
                    reveal_strlit("Cancelled");
                    assert(s@ =~= self.name());
                }
                s
            },
        }
    }

    /// The variant whose name equals `text`, found by comparing `text`
    /// with the name of each variant in turn.
    pub fn from_str(text: &str) -> (r: Result<OrderStatus, ()>)
        ensures
            r == (match Self::parse(text@) { Some(x) => Ok(x), None => Err(()) }),
    {
        let target = String::from_str(text);
        let variants = Self::all();
        let mut i: usize = 0;
        while i < variants.len()
            invariant
                variants@ == Self::variants(),
                target@ == text@,
                i <= variants@.len(),
                forall|j: int| 0 <= j < i ==> #[trigger] variants@[j].name() != text@,
            decreases variants.len() - i,
        {
            let current = variants[i].to_string();
            if target == current {
                proof {
                    if i == 0 {
                    } else if i == 1 {
                        assert(variants@[0].name() != text@);
                    } else if i == 2 {
                        assert(variants@[0].name() != text@);
                        assert(variants@[1].name() != text@);
                    } else if i == 3 {
                        assert(variants@[0].name() != text@);
                        assert(variants@[1].name() != text@);
                        assert(variants@[2].name() != text@);
                    }
                }
                return Ok(variants[i]);
            }
            i += 1;
        }
        proof {
            assert(variants@[0].name() != text@);
            assert(variants@[1].name() != text@);
            assert(variants@[2].name() != text@);
            assert(variants@[3].name() != text@);
        }
        Err(())
    }
}

/// Parsing a variant's name gives the variant back.
pub proof fn lemma_order_status_parse_name(v: OrderStatus)
    ensures
        OrderStatus::parse(v.name()) == Some(v),
{
    assert(OrderStatus::Filled.name() != OrderStatus::InProgress.name()) by {
        assert(OrderStatus::Filled.name().len() != OrderStatus::InProgress.name().len());
    }
    assert(OrderStatus::PartiallyFilled.name() != OrderStatus::InProgress.name()) by {
        assert(OrderStatus::PartiallyFilled.name().len() != OrderStatus::InProgress.name().len());
    }
    assert(OrderStatus::PartiallyFilled.name() != OrderStatus::Filled.name()) by {
        assert(OrderStatus::PartiallyFilled.name().len() != OrderStatus::Filled.name().len());
    }
    assert(OrderStatus::Cancelled.name() != OrderStatus::InProgress.name()) by {
        assert(OrderStatus::Cancelled.name().len() != OrderStatus::InProgress.name().len());
    }
    assert(OrderStatus::Cancelled.name() != OrderStatus::Filled.name()) by {
        assert(OrderStatus::Cancelled.name().len() != OrderStatus::Filled.name().len());
    }
    assert(OrderStatus::Cancelled.name() != OrderStatus::PartiallyFilled.name()) by {
        assert(OrderStatus::Cancelled.name().len() != OrderStatus::PartiallyFilled.name().len());
    }
}
/// The side of an order: `Bid` buys the base asset, `Ask` sells it.
#[derive(Clone, Copy, Debug, PartialEq, Eq, Hash, Structural)]
#[allow(non_camel_case_types)]
pub enum OrderSide {
    Bid,
    Ask,
}

impl OrderSide {
    /// The variant's name, which is also the text it is printed as.
    pub open spec fn name(self) -> Seq<char> {
        match self {
            OrderSide::Bid => seq!['B', 'i', 'd'],
            OrderSide::Ask => seq!['A', 's', 'k'],
        }
    }

    /// The variant whose name is `s`, if there is one.
    pub open spec fn parse(s: Seq<char>) -> Option<OrderSide> {
        if s == OrderSide::Bid.name() {
            Some(OrderSide::Bid)
        } else if s == OrderSide::Ask.name() {
            Some(OrderSide::Ask)
        } else {
            None
        }
    }

    /// Every variant, in declaration order.
    pub open spec fn variants() -> Seq<OrderSide> {
        seq![OrderSide::Bid, OrderSide::Ask]
    }

    /// Every variant, in declaration order.
    pub fn all() -> (v: Vec<OrderSide>)
        ensures
            v@ == Self::variants(),
    {
        let mut v: Vec<OrderSide> = Vec::new();
        v.push(OrderSide::Bid);
        v.push(OrderSide::Ask);
        proof {
            assert(v@ =~= Self::variants());
        }
        v
    }

    /// The variant's name.
    pub fn to_string(&self) -> (s: String)
        ensures
            s@ == self.name(),
    {
        match self {
            OrderSide::Bid => {
                let s = String::from_str("Bid");
                proof {
                    reveal_strlit("Bid");
                    assert(s@ =~= self.name());
                }
                s
            },
            OrderSide::Ask => {
                let s = String::from_str("Ask");
                proof {
                    reveal_strlit("Ask");
                    assert(s@ =~= self.name());
                }
                s
            },
        }
    }

    /// The variant whose name equals `text`, found by comparing `text`
    /// with the name of each variant in turn.
    pub fn from_str(text: &str) -> (r: Result<OrderSide, ()>)
        ensures
            r == (match Self::parse(text@) { Some(x) => Ok(x), None => Err(()) }),
    {
        let target = String::from_str(text);
        let variants = Self::all();
        let mut i: usize = 0;
        while i < variants.len()
            invariant
                variants@ == Self::variants(),
                target@ == text@,
                i <= variants@.len(),
                forall|j: int| 0 <= j < i ==> #[trigger] variants@[j].name() != text@,
            decreases variants.len() - i,
        {
            let current = variants[i].to_string();
            if target == current {
                proof {
                    if i == 0 {
                    } else if i == 1 {
                        assert(variants@[0].name() != text@);
                    }
                }
                return Ok(variants[i]);
            }
            i += 1;
        }
        proof {
            assert(variants@[0].name() != text@);
            assert(variants@[1].name() != text@);
        }
        Err(())
    }
}

/// Parsing a variant's name gives the variant back.
pub proof fn lemma_order_side_parse_name(v: OrderSide)
    ensures
        OrderSide::parse(v.name()) == Some(v),
{
    assert(OrderSide::Ask.name() != OrderSide::Bid.name()) by {
        assert(OrderSide::Ask.name()[0] != OrderSide::Bid.name()[0]);
    }
}
/// Whether an order takes what the book offers or rests at a price.
#[derive(Clone, Copy, Debug, PartialEq, Eq, Hash, Structural)]
#[allow(non_camel_case_types)]
pub enum OrderType {
    Market,
    Limit,
}

impl OrderType {
    /// The variant's name, which is also the text it is printed as.
    pub open spec fn name(self) -> Seq<char> {
        match self {
            OrderType::Market => seq!['M', 'a', 'r', 'k', 'e', 't'],
            OrderType::Limit => seq!['L', 'i', 'm', 'i', 't'],
        }
    }

    /// The variant whose name is `s`, if there is one.
    pub open spec fn parse(s: Seq<char>) -> Option<OrderType> {
        if s == OrderType::Market.name() {
            Some(OrderType::Market)
        } else if s == OrderType::Limit.name() {
            Some(OrderType::Limit)
        } else {
            None
        }
    }

    /// Every variant, in declaration order.
    pub open spec fn variants() -> Seq<OrderType> {
        seq![OrderType::Market, OrderType::Limit]
    }

    /// Every variant, in declaration order.
    pub fn all() -> (v: Vec<OrderType>)
        ensures
            v@ == Self::variants(),
    {
        let mut v: Vec<OrderType> = Vec::new();
        v.push(OrderType::Market);
        v.push(OrderType::Limit);
        proof {
            assert(v@ =~= Self::variants());
        }
        v
    }

    /// The variant's name.
    pub fn to_string(&self) -> (s: String)
        ensures
            s@ == self.name(),
    {
        match self {
            OrderType::Market => {
                let s = String::from_str("Market");
                proof {
                    reveal_strlit("Market");
                    assert(s@ =~= self.name());
                }
                s
            },
            OrderType::Limit => {
                let s = String::from_str("Limit");
                proof {
                    reveal_strlit("Limit");
                    assert(s@ =~= self.name());
                }
                s
            },
        }
    }

    /// The variant whose name equals `text`, found by comparing `text`
    /// with the name of each variant in turn.
    pub fn from_str(text: &str) -> (r: Result<OrderType, ()>)
        ensures
            r == (match Self::parse(text@) { Some(x) => Ok(x), None => Err(()) }),
    {
        let target = String::from_str(text);
        let variants = Self::all();
        let mut i: usize = 0;
        while i < variants.len()
            invariant
                variants@ == Self::variants(),
                target@ == text@,
                i <= variants@.len(),
                forall|j: int| 0 <= j < i ==> #[trigger] variants@[j].name() != text@,
            decreases variants.len() - i,
        {
            let current = variants[i].to_string();
            if target == current {
                proof {
                    if i == 0 {
                    } else if i == 1 {
                        assert(variants@[0].name() != text@);
                    }
                }
                return Ok(variants[i]);
            }
            i += 1;
        }
        proof {
            assert(variants@[0].name() != text@);
            assert(variants@[1].name() != text@);
        }
        Err(())
    }
}

/// Parsing a variant's name gives the variant back.
pub proof fn lemma_order_type_parse_name(v: OrderType)
    ensures
        OrderType::parse(v.name()) == Some(v),
{
    assert(OrderType::Limit.name() != OrderType::Market.name()) by {
        assert(OrderType::Limit.name().len() != OrderType::Market.name().len());
    }
}
} // verus!
