//! Markets, as the archiver knows them.
use crate::archiever::state::asset::{lemma_asset_name_lacks_separator, lemma_asset_parse_name, Asset};
use crate::text::{lemma_split_pair, split, split_seq};
use vstd::prelude::*;

verus! {

/// The symbol of the market that trades `base` against `quote`: `BASE_QUOTE`.
pub open spec fn symbol_of(base: Asset, quote: Asset) -> Seq<char> {
    base.name().push('_') + quote.name()
}

/// A market: a base asset traded against a quote asset, and its symbol.
pub struct Exchange {
    pub base: Asset,
    pub quote: Asset,
    pub symbol: String,
}

impl Exchange {
    /// The symbol is the one that the two assets give.
    pub open spec fn wf(&self) -> bool {
        self.symbol@ == symbol_of(self.base, self.quote)
    }

    /// The two assets that a symbol starts with: the first two pieces
    /// between `_`, when there are at least two and both name assets.
    pub open spec fn symbol_assets(s: Seq<char>) -> Option<(Asset, Asset)> {
        let parts = split_seq(s, '_');
        if parts.len() >= 2 {
            match (Asset::parse(parts[0]), Asset::parse(parts[1])) {
                (Some(b), Some(q)) => Some((b, q)),
                _ => None,
            }
        } else {
            None
        }
    }

    /// The market of `base` against `quote`, with symbol `BASE_QUOTE`.
    pub fn new(base: Asset, quote: Asset) -> (e: Exchange)
        ensures
            e.base == base,
            e.quote == quote,
            e.wf(),
    {
        let base_string = base.to_string();
        let quote_string = quote.to_string();
        let symbol = base_string.concat("_").concat(quote_string.as_str());
        proof {
            reveal_strlit("_");
            assert(symbol@ =~= symbol_of(base, quote));
        }
        Exchange { base, quote, symbol }
    }

    /// The market whose assets the symbol starts with (see `symbol_assets`).
    pub fn from_symbol(symbol: String) -> (e: Exchange)
        requires
            Self::symbol_assets(symbol@) is Some,
        ensures
            Self::symbol_assets(symbol@) == Some((e.base, e.quote)),
            e.wf(),
    {
        let symbols = split(symbol.as_str(), '_');
        let base = match Asset::from_str(symbols[0].as_str()) {
            Ok(a) => a,
            Err(_) => Asset::USDT,
        };
        let quote = match Asset::from_str(symbols[1].as_str()) {
            Ok(a) => a,
            Err(_) => Asset::USDT,
        };
        Exchange::new(base, quote)
    }
}

/// A market's symbol starts with that market's assets.
pub proof fn lemma_symbol_round_trip(base: Asset, quote: Asset)
    ensures
        Exchange::symbol_assets(symbol_of(base, quote)) == Some((base, quote)),
{
    lemma_asset_name_lacks_separator(base);
    lemma_asset_name_lacks_separator(quote);
    lemma_split_pair(base.name(), quote.name(), '_');
    lemma_asset_parse_name(base);
    lemma_asset_parse_name(quote);
}

} // verus!
