//! Types shared by the matching engine: assets, order attributes, market
//! symbols and the records it stores and replays.
use crate::clock::{micros_of, millis_of, since_epoch};
use crate::decimal::{decimal_parse, decimal_text, parse, to_text, Dec};
use crate::engine::matching::user::User;
use crate::text::{join_seq, lacks, lemma_split_join, lemma_split_pair, split, split_seq};
use vstd::prelude::*;

pub mod error;
pub mod engine;
pub mod amounts;
pub mod laws;
pub mod limit;
pub mod orderbook;
pub mod user;

verus! {

/// An asset that can be held and traded.
#[derive(Clone, Copy, Debug, PartialEq, Eq, Hash, Structural)]
#[allow(non_camel_case_types)]
pub enum Asset {
    USDT,
    BTC,
    SOL,
    ETH,
}

impl Asset {
    /// The variant's name, which is also the text it is printed as.
    pub open spec fn name(self) -> Seq<char> {
        match self {
            Asset::USDT => seq!['U', 'S', 'D', 'T'],
            Asset::BTC => seq!['B', 'T', 'C'],
            Asset::SOL => seq!['S', 'O', 'L'],
            Asset::ETH => seq!['E', 'T', 'H'],
        }
    }

    /// The variant whose name is `s`, if there is one.
    pub open spec fn parse(s: Seq<char>) -> Option<Asset> {
        if s == Asset::USDT.name() {
            Some(Asset::USDT)
        } else if s == Asset::BTC.name() {
            Some(Asset::BTC)
        } else if s == Asset::SOL.name() {
            Some(Asset::SOL)
        } else if s == Asset::ETH.name() {
            Some(Asset::ETH)
        } else {
            None
        }
    }

    /// Every variant, in declaration order.
    pub open spec fn variants() -> Seq<Asset> {
        seq![Asset::USDT, Asset::BTC, Asset::SOL, Asset::ETH]
    }

    /// Every variant, in declaration order.
    pub fn all() -> (v: Vec<Asset>)
        ensures
            v@ == Self::variants(),
    {
        let mut v: Vec<Asset> = Vec::new();
        v.push(Asset::USDT);
        v.push(Asset::BTC);
        v.push(Asset::SOL);
        v.push(Asset::ETH);
        proof {
            assert(v@ =~= Self::variants());
        }
        v
    }

    /// The variant's name.
    pub fn to_string(&self) -> (s: String)
        ensures
            s@ == self.name(),
    {
        match self {
            Asset::USDT => {
                let s = String::from_str("USDT");
                proof {
                    reveal_strlit("USDT");
                    assert(s@ =~= self.name());
                }
                s
            },
            Asset::BTC => {
                let s = String::from_str("BTC");
                proof {
                    reveal_strlit("BTC");
                    assert(s@ =~= self.name());
                }
                s
            },
            Asset::SOL => {
                let s = String::from_str("SOL");
                proof {
                    reveal_strlit("SOL");
                    assert(s@ =~= self.name());
                }
                s
            },
            Asset::ETH => {
                let s = String::from_str("ETH");
                proof {
                    reveal_strlit("ETH");
                    assert(s@ =~= self.name());
                }
                s
            },
        }
    }

    /// The variant whose name equals `text`, found by comparing `text`
    /// with the name of each variant in turn.
    pub fn from_str(text: &str) -> (r: Option<Asset>)
        ensures
            r == Self::parse(text@),
    {
        let target = String::from_str(text);
        let variants = Self::all();
        let mut i: usize = 0;
        while i < variants.len()
            invariant
                variants@ == Self::variants(),
                target@ == text@,
                i <= variants@.len(),
                forall|j: int| 0 <= j < i ==> #[trigger] variants@[j].name() != text@,
            decreases variants.len() - i,
        {
            let current = variants[i].to_string();
            if target == current {
                proof {
                    if i == 0 {
                    } else if i == 1 {
                        assert(variants@[0].name() != text@);
                    } else if i == 2 {
                        assert(variants@[0].name() != text@);
                        assert(variants@[1].name() != text@);
                    } else if i == 3 {
                        assert(variants@[0].name() != text@);
                        assert(variants@[1].name() != text@);
                        assert(variants@[2].name() != text@);
                    }
                }
                return Some(variants[i]);
            }
            i += 1;
        }
        proof {
            assert(variants@[0].name() != text@);
            assert(variants@[1].name() != text@);
            assert(variants@[2].name() != text@);
            assert(variants@[3].name() != text@);
        }
        None
    }
}

/// Parsing a variant's name gives the variant back.
pub proof fn lemma_asset_parse_name(v: Asset)
    ensures
        Asset::parse(v.name()) == Some(v),
{
    assert(Asset::BTC.name() != Asset::USDT.name()) by {
        assert(Asset::BTC.name().len() != Asset::USDT.name().len());
    }
    assert(Asset::SOL.name() != Asset::USDT.name()) by {
        assert(Asset::SOL.name().len() != Asset::USDT.name().len());
    }
    assert(Asset::SOL.name() != Asset::BTC.name()) by {
        assert(Asset::SOL.name()[0] != Asset::BTC.name()[0]);
    }
    assert(Asset::ETH.name() != Asset::USDT.name()) by {
        assert(Asset::ETH.name().len() != Asset::USDT.name().len());
    }
    assert(Asset::ETH.name() != Asset::BTC.name()) by {
        assert(Asset::ETH.name()[0] != Asset::BTC.name()[0]);
    }
    assert(Asset::ETH.name() != Asset::SOL.name()) by {
        assert(Asset::ETH.name()[0] != Asset::SOL.name()[0]);
    }
}
/// Whether an order takes what the book offers or rests at a price.
#[derive(Clone, Copy, Debug, PartialEq, Eq, Hash, Structural)]
#[allow(non_camel_case_types)]
pub enum OrderType {
    Market,
    Limit,
}

impl OrderType {
    /// The variant's name, which is also the text it is printed as.
    pub open spec fn name(self) -> Seq<char> {
        match self {
            OrderType::Market => seq!['M', 'a', 'r', 'k', 'e', 't'],
            OrderType::Limit => seq!['L', 'i', 'm', 'i', 't'],
        }
    }

    /// The variant whose name is `s`, if there is one.
    pub open spec fn parse(s: Seq<char>) -> Option<OrderType> {
        if s == OrderType::Market.name() {
            Some(OrderType::Market)
        } else if s == OrderType::Limit.name() {
            Some(OrderType::Limit)
        } else {
            None
        }
    }

    /// Every variant, in declaration order.
    pub open spec fn variants() -> Seq<OrderType> {
        seq![OrderType::Market, OrderType::Limit]
    }

    /// Every variant, in declaration order.
    pub fn all() -> (v: Vec<OrderType>)
        ensures
            v@ == Self::variants(),
    {
        let mut v: Vec<OrderType> = Vec::new();
        v.push(OrderType::Market);
        v.push(OrderType::Limit);
        proof {
            assert(v@ =~= Self::variants());
        }
        v
    }

    /// The variant's name.
    pub fn to_string(&self) -> (s: String)
        ensures
            s@ == self.name(),
    {
        match self {
            OrderType::Market => {
                let s = String::from_str("Market");
                proof {
                    reveal_strlit("Market");
                    assert(s@ =~= self.name());
                }
                s
            },
            OrderType::Limit => {
                let s = String::from_str("Limit");
                proof {
                    reveal_strlit("Limit");
                    assert(s@ =~= self.name());
                }
                s
            },
        }
    }

    /// The variant whose name equals `text`, found by comparing `text`
    /// with the name of each variant in turn.
    pub fn from_str(text: &str) -> (r: Result<OrderType, ()>)
        ensures
            r == (match Self::parse(text@) { Some(x) => Ok(x), None => Err(()) }),
    {
        let target = String::from_str(text);
        let variants = Self::all();
        let mut i: usize = 0;
        while i < variants.len()
            invariant
                variants@ == Self::variants(),
                target@ == text@,
                i <= variants@.len(),
                forall|j: int| 0 <= j < i ==> #[trigger] variants@[j].name() != text@,
            decreases variants.len() - i,
        {
            let current = variants[i].to_string();
            if target == current {
                proof {
                    if i == 0 {
                    } else if i == 1 {
                        assert(variants@[0].name() != text@);
                    }
                }
                return Ok(variants[i]);
            }
            i += 1;
        }
        proof {
            assert(variants@[0].name() != text@);
            assert(variants@[1].name() != text@);
        }
        Err(())
    }
}

/// Parsing a variant's name gives the variant back.
pub proof fn lemma_order_type_parse_name(v: OrderType)
    ensures
        OrderType::parse(v.name()) == Some(v),
{
    assert(OrderType::Limit.name() != OrderType::Market.name()) by {
        assert(OrderType::Limit.name().len() != OrderType::Market.name().len());
    }
}
/// The side of an order: `Bid` buys the base asset, `Ask` sells it.
#[derive(Clone, Copy, Debug, PartialEq, Eq, Hash, Structural)]
#[allow(non_camel_case_types)]
pub enum OrderSide {
    Bid,
    Ask,
}

impl OrderSide {
    /// The variant's name, which is also the text it is printed as.
    pub open spec fn name(self) -> Seq<char> {
        match self {
            OrderSide::Bid => seq!['B', 'i', 'd'],
            OrderSide::Ask => seq!['A', 's', 'k'],
        }
    }

    /// The variant whose name is `s`, if there is one.
    pub open spec fn parse(s: Seq<char>) -> Option<OrderSide> {
        if s == OrderSide::Bid.name() {
            Some(OrderSide::Bid)
        } else if s == OrderSide::Ask.name() {
            Some(OrderSide::Ask)
        } else {
            None
        }
    }

    /// Every variant, in declaration order.
    pub open spec fn variants() -> Seq<OrderSide> {
        seq![OrderSide::Bid, OrderSide::Ask]
    }

    /// Every variant, in declaration order.
    pub fn all() -> (v: Vec<OrderSide>)
        ensures
            v@ == Self::variants(),
    {
        let mut v: Vec<OrderSide> = Vec::new();
        v.push(OrderSide::Bid);
        v.push(OrderSide::Ask);
        proof {
            assert(v@ =~= Self::variants());
        }
        v
    }

    /// The variant's name.
    pub fn to_string(&self) -> (s: String)
        ensures
            s@ == self.name(),
    {
        match self {
            OrderSide::Bid => {
                let s = String::from_str("Bid");
                proof {
                    reveal_strlit("Bid");
                    assert(s@ =~= self.name());
                }
                s
            },
            OrderSide::Ask => {
                let s = String::from_str("Ask");
                proof {
                    reveal_strlit("Ask");
                    assert(s@ =~= self.name());
                }
                s
            },
        }
    }

    /// The variant whose name equals `text`, found by comparing `text`
    /// with the name of each variant in turn.
    pub fn from_str(text: &str) -> (r: Result<OrderSide, ()>)
        ensures
            r == (match Self::parse(text@) { Some(x) => Ok(x), None => Err(()) }),
    {
        let target = String::from_str(text);
        let variants = Self::all();
        let mut i: usize = 0;
        while i < variants.len()
            invariant
                variants@ == Self::variants(),
                target@ == text@,
                i <= variants@.len(),
                forall|j: int| 0 <= j < i ==> #[trigger] variants@[j].name() != text@,
            decreases variants.len() - i,
        {
            let current = variants[i].to_string();
            if target == current {
                proof {
                    if i == 0 {
                    } else if i == 1 {
                        assert(variants@[0].name() != text@);
                    }
                }
                return Ok(variants[i]);
            }
            i += 1;
        }
        proof {
            assert(variants@[0].name() != text@);
            assert(variants@[1].name() != text@);
        }
        Err(())
    }
}

/// Parsing a variant's name gives the variant back.
pub proof fn lemma_order_side_parse_name(v: OrderSide)
    ensures
        OrderSide::parse(v.name()) == Some(v),
{
    assert(OrderSide::Ask.name() != OrderSide::Bid.name()) by {
        assert(OrderSide::Ask.name()[0] != OrderSide::Bid.name()[0]);
    }
}
/// The markets that the engine runs.
#[derive(Clone, Copy, Debug, PartialEq, Eq, Hash, Structural)]
#[allow(non_camel_case_types)]
pub enum RegisteredSymbols {
    SOL_USDT,
    BTC_USDT,
    ETH_USDT,
}

impl RegisteredSymbols {
    /// The variant's name, which is also the text it is printed as.
    pub open spec fn name(self) -> Seq<char> {
        match self {
            RegisteredSymbols::SOL_USDT => seq!['S', 'O', 'L', '_', 'U', 'S', 'D', 'T'],
            RegisteredSymbols::BTC_USDT => seq!['B', 'T', 'C', '_', 'U', 'S', 'D', 'T'],
            RegisteredSymbols::ETH_USDT => seq!['E', 'T', 'H', '_', 'U', 'S', 'D', 'T'],
        }
    }

    /// The variant whose name is `s`, if there is one.
    pub open spec fn parse(s: Seq<char>) -> Option<RegisteredSymbols> {
        if s == RegisteredSymbols::SOL_USDT.name() {
            Some(RegisteredSymbols::SOL_USDT)
        } else if s == RegisteredSymbols::BTC_USDT.name() {
            Some(RegisteredSymbols::BTC_USDT)
        } else if s == RegisteredSymbols::ETH_USDT.name() {
            Some(RegisteredSymbols::ETH_USDT)
        } else {
            None
        }
    }

    /// Every variant, in declaration order.
    pub open spec fn variants() -> Seq<RegisteredSymbols> {
        seq![RegisteredSymbols::SOL_USDT, RegisteredSymbols::BTC_USDT, RegisteredSymbols::ETH_USDT]
    }

    /// Every variant, in declaration order.
    pub fn all() -> (v: Vec<RegisteredSymbols>)
        ensures
            v@ == Self::variants(),
    {
        let mut v: Vec<RegisteredSymbols> = Vec::new();
        v.push(RegisteredSymbols::SOL_USDT);
        v.push(RegisteredSymbols::BTC_USDT);
        v.push(RegisteredSymbols::ETH_USDT);
        proof {
            assert(v@ =~= Self::variants());
        }
        v
    }

    /// The variant's name.
    pub fn to_string(&self) -> (s: String)
        ensures
            s@ == self.name(),
    {
        match self {
            RegisteredSymbols::SOL_USDT => {
                let s = String::from_str("SOL_USDT");
                proof {
                    reveal_strlit("SOL_USDT");
                    assert(s@ =~= self.name());
                }
                s
            },
            RegisteredSymbols::BTC_USDT => {
                let s = String::from_str("BTC_USDT");
                proof {
                    reveal_strlit("BTC_USDT");
                    assert(s@ =~= self.name());
                }
                s
            },
            RegisteredSymbols::ETH_USDT => {
                let s = String::from_str("ETH_USDT");
                proof {
                    reveal_strlit("ETH_USDT");
                    assert(s@ =~= self.name());
                }
                s
            },
        }
    }
}

/// Parsing a variant's name gives the variant back.
pub proof fn lemma_registered_symbols_parse_name(v: RegisteredSymbols)
    ensures
        RegisteredSymbols::parse(v.name()) == Some(v),
{
    assert(RegisteredSymbols::BTC_USDT.name() != RegisteredSymbols::SOL_USDT.name()) by {
        assert(RegisteredSymbols::BTC_USDT.name()[0] != RegisteredSymbols::SOL_USDT.name()[0]);
    }
    assert(RegisteredSymbols::ETH_USDT.name() != RegisteredSymbols::SOL_USDT.name()) by {
        assert(RegisteredSymbols::ETH_USDT.name()[0] != RegisteredSymbols::SOL_USDT.name()[0]);
    }
    assert(RegisteredSymbols::ETH_USDT.name() != RegisteredSymbols::BTC_USDT.name()) by {
        assert(RegisteredSymbols::ETH_USDT.name()[0] != RegisteredSymbols::BTC_USDT.name()[0]);
    }
}
/// Where an order stands.
#[derive(Clone, Copy, Debug, PartialEq, Eq, Hash, Structural)]
#[allow(non_camel_case_types)]
pub enum OrderStatus {
    InProgress,
    Filled,
    PartiallyFilled,
    Cancelled,
}

impl OrderStatus {
    /// The variant's name, which is also the text it is printed as.
    pub open spec fn name(self) -> Seq<char> {
        match self {
            OrderStatus::InProgress => seq!['I', 'n', 'P', 'r', 'o', 'g', 'r', 'e', 's', 's'],
            OrderStatus::Filled => seq!['F', 'i', 'l', 'l', 'e', 'd'],
            OrderStatus::PartiallyFilled => seq!['P', 'a', 'r', 't', 'i', 'a', 'l', 'l', 'y', 'F', 'i', 'l', 'l', 'e', 'd'],
            OrderStatus::Cancelled => seq!['C', 'a', 'n', 'c', 'e', 'l', 'l', 'e', 'd'],
        }
    }

    /// The variant whose name is `s`, if there is one.
    pub open spec fn parse(s: Seq<char>) -> Option<OrderStatus> {
        if s == OrderStatus::InProgress.name() {
            Some(OrderStatus::InProgress)
        } else if s == OrderStatus::Filled.name() {
            Some(OrderStatus::Filled)
        } else if s == OrderStatus::PartiallyFilled.name() {
            Some(OrderStatus::PartiallyFilled)
        } else if s == OrderStatus::Cancelled.name() {
            Some(OrderStatus::Cancelled)
        } else {
            None
        }
    }

    /// Every variant, in declaration order.
    pub open spec fn variants() -> Seq<OrderStatus> {
        seq![OrderStatus::InProgress, OrderStatus::Filled, OrderStatus::PartiallyFilled, OrderStatus::Cancelled]
    }

    /// Every variant, in declaration order.
    pub fn all() -> (v: Vec<OrderStatus>)
        ensures
            v@ == Self::variants(),
    {
        let mut v: Vec<OrderStatus> = Vec::new();
        v.push(OrderStatus::InProgress);
        v.push(OrderStatus::Filled);
        v.push(OrderStatus::PartiallyFilled);
        v.push(OrderStatus::Cancelled);
        proof {
            assert(v@ =~= Self::variants());
        }
        v
    }

    /// The variant's name.
    pub fn to_string(&self) -> (s: String)
        ensures
            s@ == self.name(),
    {
        match self {
            OrderStatus::InProgress => {
                let s = String::from_str("InProgress");
                proof {
                    reveal_strlit("InProgress");
                    assert(s@ =~= self.name());
                }
                s
            },
            OrderStatus::Filled => {
                let s = String::from_str("Filled");
                proof {
                    reveal_strlit("Filled");
                    assert(s@ =~= self.name());
                }
                s
            },
            OrderStatus::PartiallyFilled => {
                let s = String::from_str("PartiallyFilled");
                proof {
                    reveal_strlit("PartiallyFilled");
                    assert(s@ =~= self.name());
                }
                s
            },
            OrderStatus::Cancelled => {
                let s = String::from_str("Cancelled");
                proof {
                    reveal_strlit("Cancelled");
                    assert(s@ =~= self.name());
                }
                s
            },
        }
    }

    /// The variant whose name equals `text`, found by comparing `text`
    /// with the name of each variant in turn.
    pub fn from_str(text: &str) -> (r: Result<OrderStatus, ()>)
        ensures
            r == (match Self::parse(text@) { Some(x) => Ok(x), None => Err(()) }),
    {
        let target = String::from_str(text);
        let variants = Self::all();
        let mut i: usize = 0;
        while i < variants.len()
            invariant
                variants@ == Self::variants(),
                target@ == text@,
                i <= variants@.len(),
                forall|j: int| 0 <= j < i ==> #[trigger] variants@[j].name() != text@,
            decreases variants.len() - i,
        {
            let current = variants[i].to_string();
            if target == current {
                proof {
                    if i == 0 {
                    } else if i == 1 {
                        assert(variants@[0].name() != text@);
                    } else if i == 2 {
                        assert(variants@[0].name() != text@);
                        assert(variants@[1].name() != text@);
                    } else if i == 3 {
                        assert(variants@[0].name() != text@);
                        assert(variants@[1].name() != text@);
                        assert(variants@[2].name() != text@);
                    }
                }
                return Ok(variants[i]);
            }
            i += 1;
        }
        proof {
            assert(variants@[0].name() != text@);
            assert(variants@[1].name() != text@);
            assert(variants@[2].name() != text@);
            assert(variants@[3].name() != text@);
        }
        Err(())
    }
}

/// Parsing a variant's name gives the variant back.
pub proof fn lemma_order_status_parse_name(v: OrderStatus)
    ensures
        OrderStatus::parse(v.name()) == Some(v),
{
    assert(OrderStatus::Filled.name() != OrderStatus::InProgress.name()) by {
        assert(OrderStatus::Filled.name().len() != OrderStatus::InProgress.name().len());
    }
    assert(OrderStatus::PartiallyFilled.name() != OrderStatus::InProgress.name()) by {
        assert(OrderStatus::PartiallyFilled.name().len() != OrderStatus::InProgress.name().len());
    }
    assert(OrderStatus::PartiallyFilled.name() != OrderStatus::Filled.name()) by {
        assert(OrderStatus::PartiallyFilled.name().len() != OrderStatus::Filled.name().len());
    }
    assert(OrderStatus::Cancelled.name() != OrderStatus::InProgress.name()) by {
        assert(OrderStatus::Cancelled.name().len() != OrderStatus::InProgress.name().len());
    }
    assert(OrderStatus::Cancelled.name() != OrderStatus::Filled.name()) by {
        assert(OrderStatus::Cancelled.name().len() != OrderStatus::Filled.name().len());
    }
    assert(OrderStatus::Cancelled.name() != OrderStatus::PartiallyFilled.name()) by {
        assert(OrderStatus::Cancelled.name().len() != OrderStatus::PartiallyFilled.name().len());
    }
}

/// No asset's name holds the separator `_`.
pub proof fn lemma_asset_name_lacks_separator(a: Asset)
    ensures
        lacks(a.name(), '_'),
{
}

/// The symbol of the market that trades `base` against `quote`: `BASE_QUOTE`.
pub open spec fn symbol_of(base: Asset, quote: Asset) -> Seq<char> {
    base.name().push('_') + quote.name()
}

/// A market: a base asset traded against a quote asset, and its symbol.
#[derive(Clone, Debug)]
pub struct Exchange {
    pub base: Asset,
    pub quote: Asset,
    pub symbol: String,
}

/// A symbol that names no market.
#[derive(Clone, Copy, Debug, PartialEq, Eq, Structural)]
pub enum SymbolError {
    InvalidSymbol,
}

impl Exchange {
    /// The symbol is the one that the two assets give.
    pub open spec fn wf(&self) -> bool {
        self.symbol@ == symbol_of(self.base, self.quote)
    }

    /// The two assets that a symbol names: it splits at `_` into exactly two
    /// pieces, each of which is the name of an asset.
    pub open spec fn parse_symbol(s: Seq<char>) -> Option<(Asset, Asset)> {
        let parts = split_seq(s, '_');
        if parts.len() == 2 {
            match (Asset::parse(parts[0]), Asset::parse(parts[1])) {
                (Some(b), Some(q)) => Some((b, q)),
                _ => None,
            }
        } else {
            None
        }
    }

    /// The market of `base` against `quote`, with symbol `BASE_QUOTE`.
    pub fn new(base: Asset, quote: Asset) -> (e: Exchange)
        ensures
            e.base == base,
            e.quote == quote,
            e.wf(),
    {
        let base_str = base.to_string();
        let quote_str = quote.to_string();
        let symbol = base_str.concat("_").concat(quote_str.as_str());
        proof {
            reveal_strlit("_");
            assert(symbol@ =~= symbol_of(base, quote));
        }
        Exchange { base, quote, symbol }
    }

    /// The market that `symbol` names.
    pub fn from_str(symbol: &str) -> (r: Result<Exchange, SymbolError>)
        ensures
            match r {
                Ok(e) => Self::parse_symbol(symbol@) == Some((e.base, e.quote)) && e.wf(),
                Err(err) => Self::parse_symbol(symbol@) is None && err == SymbolError::InvalidSymbol,
            },
    {
        let parts = split(symbol, '_');
        if parts.len() != 2 {
            return Err(SymbolError::InvalidSymbol);
        }
        let base = match Asset::from_str(parts[0].as_str()) {
            Some(a) => a,
            None => return Err(SymbolError::InvalidSymbol),
        };
        let quote = match Asset::from_str(parts[1].as_str()) {
            Some(a) => a,
            None => return Err(SymbolError::InvalidSymbol),
        };
        Ok(Exchange::new(base, quote))
    }

    /// A copy of the market.
    pub fn duplicate(&self) -> (e: Exchange)
        ensures
            e.base == self.base,
            e.quote == self.quote,
            e.symbol@ == self.symbol@,
    {
        Exchange { base: self.base, quote: self.quote, symbol: self.symbol.clone() }
    }
}

/// An order as it reaches the engine and as the engine reports it back.
pub struct RecievedOrder {
    pub id: i64,
    pub user_id: i64,
    pub symbol: String,
    pub price: Dec,
    pub initial_quantity: Dec,
    pub filled_quantity: Dec,
    pub quote_quantity: Dec,
    pub filled_quote_quantity: Dec,
    pub order_type: OrderType,
    pub order_side: OrderSide,
    pub order_status: OrderStatus,
    pub timestamp: i64,
}

impl RecievedOrder {
    /// Every amount is a representable decimal.
    pub open spec fn wf(&self) -> bool {
        &&& self.price.wf()
        &&& self.initial_quantity.wf()
        &&& self.filled_quantity.wf()
        &&& self.quote_quantity.wf()
        &&& self.filled_quote_quantity.wf()
    }
}

impl RecievedOrder {
    /// The row that stores this order: every amount as `rust_decimal` prints
    /// it and every attribute by its name.
    pub fn to_scylla_order(&self) -> (r: ScyllaOrder)
        requires
            self.wf(),
        ensures
            r.id == self.id,
            r.user_id == self.user_id,
            r.symbol@ == self.symbol@,
            r.price@ == decimal_text(self.price),
            r.initial_quantity@ == decimal_text(self.initial_quantity),
            r.filled_quantity@ == decimal_text(self.filled_quantity),
            r.quote_quantity@ == decimal_text(self.quote_quantity),
            r.filled_quote_quantity@ == decimal_text(self.filled_quote_quantity),
            r.order_type@ == self.order_type.name(),
            r.order_side@ == self.order_side.name(),
            r.order_status@ == self.order_status.name(),
            r.timestamp == self.timestamp,
            r.parses(),
            r.decodes_to(*self),
    {
        proof {
            lemma_order_type_parse_name(self.order_type);
            lemma_order_side_parse_name(self.order_side);
            lemma_order_status_parse_name(self.order_status);
        }
        ScyllaOrder {
            id: self.id,
            user_id: self.user_id,
            symbol: self.symbol.clone(),
            price: to_text(self.price),
            initial_quantity: to_text(self.initial_quantity),
            filled_quantity: to_text(self.filled_quantity),
            quote_quantity: to_text(self.quote_quantity),
            filled_quote_quantity: to_text(self.filled_quote_quantity),
            order_type: self.order_type.to_string(),
            order_side: self.order_side.to_string(),
            order_status: self.order_status.to_string(),
            timestamp: self.timestamp,
        }
    }
}

/// A stored order: every amount and attribute as text.
pub struct ScyllaOrder {
    pub id: i64,
    pub user_id: i64,
    pub symbol: String,
    pub price: String,
    pub initial_quantity: String,
    pub filled_quantity: String,
    pub quote_quantity: String,
    pub filled_quote_quantity: String,
    pub order_type: String,
    pub order_side: String,
    pub order_status: String,
    pub timestamp: i64,
}

impl ScyllaOrder {
    /// Every text of the row parses: the amounts as decimals, the
    /// attributes as names of their variants.
    pub open spec fn parses(&self) -> bool {
        &&& decimal_parse(self.price@) is Some
        &&& decimal_parse(self.initial_quantity@) is Some
        &&& decimal_parse(self.filled_quantity@) is Some
        &&& decimal_parse(self.quote_quantity@) is Some
        &&& decimal_parse(self.filled_quote_quantity@) is Some
        &&& OrderType::parse(self.order_type@) is Some
        &&& OrderSide::parse(self.order_side@) is Some
        &&& OrderStatus::parse(self.order_status@) is Some
    }

    /// `r` is the order that this row stores.
    pub open spec fn decodes_to(&self, r: RecievedOrder) -> bool {
        &&& r.id == self.id
        &&& r.user_id == self.user_id
        &&& r.symbol@ == self.symbol@
        &&& Some(r.price) == decimal_parse(self.price@)
        &&& Some(r.initial_quantity) == decimal_parse(self.initial_quantity@)
        &&& Some(r.filled_quantity) == decimal_parse(self.filled_quantity@)
        &&& Some(r.quote_quantity) == decimal_parse(self.quote_quantity@)
        &&& Some(r.filled_quote_quantity) == decimal_parse(self.filled_quote_quantity@)
        &&& Some(r.order_type) == OrderType::parse(self.order_type@)
        &&& Some(r.order_side) == OrderSide::parse(self.order_side@)
        &&& Some(r.order_status) == OrderStatus::parse(self.order_status@)
        &&& r.timestamp == self.timestamp
    }

    /// The order that this row stores.
    pub fn from_scylla_order(&self) -> (r: RecievedOrder)
        requires
            self.parses(),
        ensures
            self.decodes_to(r),
            r.wf(),
    {
        match self.try_from_scylla_order() {
            Some(r) => r,
            None => RecievedOrder {
                id: self.id,
                user_id: self.user_id,
                symbol: self.symbol.clone(),
                price: Dec::zero(),
                initial_quantity: Dec::zero(),
                filled_quantity: Dec::zero(),
                quote_quantity: Dec::zero(),
                filled_quote_quantity: Dec::zero(),
                order_type: OrderType::Market,
                order_side: OrderSide::Bid,
                order_status: OrderStatus::InProgress,
                timestamp: self.timestamp,
            },
        }
    }

    /// The order that this row stores, or `None` when a text of it does not
    /// parse.
    pub fn try_from_scylla_order(&self) -> (r: Option<RecievedOrder>)
        ensures
            match r {
                None => !self.parses(),
                Some(o) => self.parses() && self.decodes_to(o) && o.wf(),
            },
    {
        let price = match parse(self.price.as_str()) {
            Some(x) => x,
            None => return None,
        };
        let initial_quantity = match parse(self.initial_quantity.as_str()) {
            Some(x) => x,
            None => return None,
        };
        let filled_quantity = match parse(self.filled_quantity.as_str()) {
            Some(x) => x,
            None => return None,
        };
        let quote_quantity = match parse(self.quote_quantity.as_str()) {
            Some(x) => x,
            None => return None,
        };
        let filled_quote_quantity = match parse(self.filled_quote_quantity.as_str()) {
            Some(x) => x,
            None => return None,
        };
        let order_type = match OrderType::from_str(self.order_type.as_str()) {
            Ok(x) => x,
            Err(_) => return None,
        };
        let order_side = match OrderSide::from_str(self.order_side.as_str()) {
            Ok(x) => x,
            Err(_) => return None,
        };
        let order_status = match OrderStatus::from_str(self.order_status.as_str()) {
            Ok(x) => x,
            Err(_) => return None,
        };
        Some(
            RecievedOrder {
                id: self.id,
                user_id: self.user_id,
                symbol: self.symbol.clone(),
                price,
                initial_quantity,
                filled_quantity,
                quote_quantity,
                filled_quote_quantity,
                order_type,
                order_side,
                order_status,
                timestamp: self.timestamp,
            },
        )
    }
}

/// A stored cancellation.
pub struct ScyllaCancelOrder {
    pub id: i64,
    pub user_id: i64,
    pub order_side: String,
    pub symbol: String,
    pub price: String,
    pub timestamp: i64,
}

/// The stored record of the cancellation of order `id` of `user_id`, which
/// rested at `price` on `order_side` in the market `symbol`, cancelled at
/// `timestamp`: the row that replaying reads back.
pub fn cancel_row(id: u64, user_id: u64, order_side: OrderSide, symbol: &str, price: Dec, timestamp: i64) -> (r: ScyllaCancelOrder)
    requires
        price.wf(),
    ensures
        r.id == id as i64,
        r.user_id == user_id as i64,
        r.order_side@ == order_side.name(),
        r.symbol@ == symbol@,
        r.price@ == decimal_text(price),
        r.timestamp == timestamp,
        OrderSide::parse(r.order_side@) == Some(order_side),
        decimal_parse(r.price@) == Some(price),
{
    proof {
        lemma_order_side_parse_name(order_side);
    }
    ScyllaCancelOrder {
        id: id as i64,
        user_id: user_id as i64,
        order_side: order_side.to_string(),
        symbol: String::from_str(symbol),
        price: to_text(price),
        timestamp,
    }
}

/// An update on an order, as it is published to a user.
pub struct OrderUpdate {
    order_id: u64,
    client_order_id: u64,
    trade_id: u64,
    user_id: u64,
    trade_timestamp: u128,
    order_side: OrderSide,
    order_status: OrderStatus,
    symbol: String,
    price: Dec,
    executed_quantity: Dec,
    executed_quote_quantity: Dec,
}

/// A trade as it is published.
pub struct Trade {
    id: u64,
    quantity: Dec,
    quote_quantity: Dec,
    is_buyer_maker: bool,
    timestamp: u128,
    price: Dec,
}

/// The two users of a trade after it: the buyer and the seller.
pub struct PostUsers {
    pub user: User,
    pub client: User,
}

/// A trade with everything the rest of the exchange needs to settle it.
pub struct Filler {
    trade_id: u64,
    exchange: Exchange,
    quantity: Dec,
    exchange_price: Dec,
    is_buyer_maker: bool,
    post_users: PostUsers,
    order_status: OrderStatus,
    client_order_status: OrderStatus,
    order_id: u64,
    client_order_id: u64,
    timestamp: u128,
}

/// The milliseconds since the Unix epoch, cut to 64 bits (`millis_of` of
/// the clock's reading); `None` when the clock reads a time before 1970.
pub fn get_epoch_ms() -> Option<u64> {
    match since_epoch() {
        Some((secs, nanos)) => Some(millis_of(secs, nanos)),
        None => None,
    }
}

/// The microseconds since the Unix epoch (`micros_of` of the clock's
/// reading, so never more than the microseconds in `u64::MAX` seconds);
/// `None` when the clock reads a time before 1970.
pub fn get_epoch_micro() -> (r: Option<u128>)
    ensures
        r matches Some(us) ==> us <= 18_446_744_073_709_551_615 * 1_000_000 + 999_999,
{
    match since_epoch() {
        Some((secs, nanos)) => Some(micros_of(secs, nanos)),
        None => None,
    }
}

/// A market's symbol names that market again.
pub proof fn lemma_symbol_round_trip(base: Asset, quote: Asset)
    ensures
        Exchange::parse_symbol(symbol_of(base, quote)) == Some((base, quote)),
{
    lemma_asset_name_lacks_separator(base);
    lemma_asset_name_lacks_separator(quote);
    lemma_split_pair(base.name(), quote.name(), '_');
    lemma_asset_parse_name(base);
    lemma_asset_parse_name(quote);
}

/// The symbols that name a market are exactly the `BASE_QUOTE` symbols:
/// a symbol that parses is the symbol of the two assets it names, and the
/// symbol of any two assets parses as them.
pub proof fn law_symbols_are_base_quote(s: Seq<char>, base: Asset, quote: Asset)
    ensures
        Exchange::parse_symbol(s) matches Some((b, q)) ==> s == symbol_of(b, q),
        Exchange::parse_symbol(symbol_of(base, quote)) == Some((base, quote)),
{
    lemma_symbol_round_trip(base, quote);
    if let Some((b, q)) = Exchange::parse_symbol(s) {
        let parts = split_seq(s, '_');
        lemma_split_join(s, '_');
        assert(parts[0] == b.name());
        assert(parts[1] == q.name());
        assert(parts.drop_last() =~= seq![parts[0]]);
        assert(join_seq(parts.drop_last(), '_') == parts[0]);
    }
}

} // verus!
