//! The publish/subscribe channels that the broadcasters listen on: one per
//! topic and registered market, named `topic:SYMBOL`.
use crate::decimal::Dec;
use crate::text::{lacks, lemma_split_append, lemma_split_nonempty, split, split_seq};
use crate::wss::enums::registered_symbols::{lemma_registered_symbols_parse_name, RegisteredSymbols};
use vstd::prelude::*;

verus! {

/// An update on an order, as the engine publishes it to the order's user.
pub struct OrderUpdate {
    pub order_id: i64,
    pub client_order_id: i64,
    pub trade_id: u64,
    pub user_id: u64,
    pub trade_timestamp: u128,
    pub order_side: String,
    pub order_status: String,
    pub symbol: String,
    pub price: Dec,
    pub executed_quantity: Dec,
    pub executed_quote_quantity: Dec,
}

/// The channel on which `topic` news of the market `symbol` is published.
pub open spec fn channel_of(topic: Seq<char>, symbol: RegisteredSymbols) -> Seq<char> {
    topic.push(':') + symbol.name()
}

/// The market that a channel is about: the text after its last `:`, read
/// as a registered symbol.
pub open spec fn channel_market(channel: Seq<char>) -> Option<RegisteredSymbols> {
    RegisteredSymbols::parse(split_seq(channel, ':').last())
}

/// The channels of `topic`, one per registered market, in declaration
/// order.
pub fn channels(topic: &str) -> (r: Vec<String>)
    ensures
        r@.len() == RegisteredSymbols::variants().len(),
        forall|i: int| 0 <= i < r@.len() ==> #[trigger] r@[i]@ == channel_of(topic@, RegisteredSymbols::variants()[i]),
{
    let symbols = RegisteredSymbols::all();
    let mut out: Vec<String> = Vec::new();
    let mut i: usize = 0;
    while i < symbols.len()
        invariant
            symbols@ == RegisteredSymbols::variants(),
            i <= symbols@.len(),
            out@.len() == i,
            forall|j: int| 0 <= j < i ==> #[trigger] out@[j]@ == channel_of(topic@, symbols@[j]),
        decreases symbols@.len() - i,
    {
        let name = symbols[i].to_string();
        let channel = String::from_str(topic).concat(":").concat(name.as_str());
        proof {
            reveal_strlit(":");
            assert(channel@ =~= channel_of(topic@, symbols@[i as int]));
        }
        out.push(channel);
        i = i + 1;
    }
    out
}

/// The market of the channel named `channel` (see `channel_market`).
pub fn channel_symbol(channel: &str) -> (r: Result<RegisteredSymbols, ()>)
    ensures
        r == (match channel_market(channel@) {
            Some(s) => Ok(s),
            None => Err(()),
        }),
{
    let parts = split(channel, ':');
    proof {
        lemma_split_nonempty(channel@, ':');
    }
    let last = parts.len() - 1;
    RegisteredSymbols::from_str(parts[last].as_str())
}

/// A channel names its market again, whatever the topic.
pub proof fn law_channel_names_its_market(topic: Seq<char>, symbol: RegisteredSymbols)
    ensures
        channel_market(channel_of(topic, symbol)) == Some(symbol),
{
    assert(lacks(symbol.name(), ':'));
    lemma_split_append(topic, symbol.name(), ':');
    lemma_registered_symbols_parse_name(symbol);
}

} // verus!
