//! Markets, as the websocket server knows them.
use crate::text::{lemma_split_pair, split, split_seq};
use crate::wss::enums::asset::{lemma_asset_name_lacks_separator, lemma_asset_parse_name, Asset};
use vstd::prelude::*;

verus! {

/// The symbol of the market that trades `base` against `quote`: `BASE_QUOTE`.
pub open spec fn symbol_of(base: Asset, quote: Asset) -> Seq<char> {
    base.name().push('_') + quote.name()
}

/// A market: a base asset traded against a quote asset, and its symbol.
#[derive(Clone, Debug)]
pub struct Exchange {
    pub base: Asset,
    pub quote: Asset,
    pub symbol: String,
}

/// A symbol that names no market.
#[derive(Clone, Copy, Debug, PartialEq, Eq, Structural)]
pub enum SymbolError {
    InvalidSymbol,
}

impl Exchange {
    /// The symbol is the one that the two assets give.
    pub open spec fn wf(&self) -> bool {
        self.symbol@ == symbol_of(self.base, self.quote)
    }

    /// The two assets that a symbol starts with: the first two pieces
    /// between `_`, when there are at least two and both name assets.
    pub open spec fn symbol_assets(s: Seq<char>) -> Option<(Asset, Asset)> {
        let parts = split_seq(s, '_');
        if parts.len() >= 2 {
            match (Asset::parse(parts[0]), Asset::parse(parts[1])) {
                (Some(b), Some(q)) => Some((b, q)),
                _ => None,
            }
        } else {
            None
        }
    }

    /// The market of `base` against `quote`, with symbol `BASE_QUOTE`.
    pub fn new(base: Asset, quote: Asset) -> (e: Exchange)
        ensures
            e.base == base,
            e.quote == quote,
            e.wf(),
    {
        let base_string = base.to_string();
        let quote_string = quote.to_string();
        let symbol = base_string.concat("_").concat(quote_string.as_str());
        proof {
            reveal_strlit("_");
            assert(symbol@ =~= symbol_of(base, quote));
        }
        Exchange { base, quote, symbol }
    }

    /// The market whose assets the symbol starts with (see `symbol_assets`).
    pub fn from_symbol(symbol: String) -> (r: Result<Exchange, SymbolError>)
        ensures
            match r {
                Ok(e) => Self::symbol_assets(symbol@) == Some((e.base, e.quote)) && e.wf(),
                Err(err) => Self::symbol_assets(symbol@) is None && err == SymbolError::InvalidSymbol,
            },
    {
        let symbols = split(symbol.as_str(), '_');
        if symbols.len() < 1 {
            return Err(SymbolError::InvalidSymbol);
        }
        if symbols.len() < 2 {
            return Err(SymbolError::InvalidSymbol);
        }
        let base = match Asset::from_str(symbols[0].as_str()) {
            Some(a) => a,
            None => return Err(SymbolError::InvalidSymbol),
        };
        let quote = match Asset::from_str(symbols[1].as_str()) {
            Some(a) => a,
            None => return Err(SymbolError::InvalidSymbol),
        };
        let exchange = Exchange::new(base, quote);
        Ok(exchange)
    }
}

/// A market's symbol starts with that market's assets.
pub proof fn lemma_symbol_round_trip(base: Asset, quote: Asset)
    ensures
        Exchange::symbol_assets(symbol_of(base, quote)) == Some((base, quote)),
{
    lemma_asset_name_lacks_separator(base);
    lemma_asset_name_lacks_separator(quote);
    lemma_split_pair(base.name(), quote.name(), '_');
    lemma_asset_parse_name(base);
    lemma_asset_parse_name(quote);
}

} // verus!
