//! What a client sends: subscribe to, or unsubscribe from, a stream.
use crate::wss::enums::registered_symbols::RegisteredSymbols;
use vstd::prelude::*;

verus! {

/// A client's request.
pub struct Payload {
    pub user_id: Option<u64>,
    pub method: Method,
    pub event: Event,
    pub symbol: RegisteredSymbols,
}

/// A stream that a client can follow.
#[derive(Clone, Copy, Debug, PartialEq, Eq, Hash, Structural)]
#[allow(non_camel_case_types)]
pub enum Event {
    ORDER_UPDATE,
    TRADE,
    TICKER,
    DEPTH,
}

impl Event {
    /// The variant's name, which is also the text it is printed as.
    pub open spec fn name(self) -> Seq<char> {
        match self {
            Event::ORDER_UPDATE => seq!['O', 'R', 'D', 'E', 'R', '_', 'U', 'P', 'D', 'A', 'T', 'E'],
            Event::TRADE => seq!['T', 'R', 'A', 'D', 'E'],
            Event::TICKER => seq!['T', 'I', 'C', 'K', 'E', 'R'],
            Event::DEPTH => seq!['D', 'E', 'P', 'T', 'H'],
        }
    }

    /// The variant whose name is `s`, if there is one.
    pub open spec fn parse(s: Seq<char>) -> Option<Event> {
        if s == Event::ORDER_UPDATE.name() {
            Some(Event::ORDER_UPDATE)
        } else if s == Event::TRADE.name() {
            Some(Event::TRADE)
        } else if s == Event::TICKER.name() {
            Some(Event::TICKER)
        } else if s == Event::DEPTH.name() {
            Some(Event::DEPTH)
        } else {
            None
        }
    }

    /// Every variant, in declaration order.
    pub open spec fn variants() -> Seq<Event> {
        seq![Event::ORDER_UPDATE, Event::TRADE, Event::TICKER, Event::DEPTH]
    }

    /// Every variant, in declaration order.
    pub fn all() -> (v: Vec<Event>)
        ensures
            v@ == Self::variants(),
    {
        let mut v: Vec<Event> = Vec::new();
        v.push(Event::ORDER_UPDATE);
        v.push(Event::TRADE);
        v.push(Event::TICKER);
        v.push(Event::DEPTH);
        proof {
            assert(v@ =~= Self::variants());
        }
        v
    }

    /// The variant's name.
    pub fn to_string(&self) -> (s: String)
        ensures
            s@ == self.name(),
    {
        match self {
            Event::ORDER_UPDATE => {
                let s = String::from_str("ORDER_UPDATE");
                proof {
                    reveal_strlit("ORDER_UPDATE");
                    assert(s@ =~= self.name());
                }
                s
            },
            Event::TRADE => {
                let s = String::from_str("TRADE");
                proof {
                    reveal_strlit("TRADE");
                    assert(s@ =~= self.name());
                }
                s
            },
            Event::TICKER => {
                let s = String::from_str("TICKER");
                proof {
                    reveal_strlit("TICKER");
                    assert(s@ =~= self.name());
                }
                s
            },
            Event::DEPTH => {
                let s = String::from_str("DEPTH");
                proof {
                    reveal_strlit("DEPTH");
                    assert(s@ =~= self.name());
                }
                s
            },
        }
    }
}

/// Parsing a variant's name gives the variant back.
pub proof fn lemma_event_parse_name(v: Event)
    ensures
        Event::parse(v.name()) == Some(v),
{
    assert(Event::TRADE.name() != Event::ORDER_UPDATE.name()) by {
        assert(Event::TRADE.name().len() != Event::ORDER_UPDATE.name().len());
    }
    assert(Event::TICKER.name() != Event::ORDER_UPDATE.name()) by {
        assert(Event::TICKER.name().len() != Event::ORDER_UPDATE.name().len());
    }
    assert(Event::TICKER.name() != Event::TRADE.name()) by {
        assert(Event::TICKER.name().len() != Event::TRADE.name().len());
    }
    assert(Event::DEPTH.name() != Event::ORDER_UPDATE.name()) by {
        assert(Event::DEPTH.name().len() != Event::ORDER_UPDATE.name().len());
    }
    assert(Event::DEPTH.name() != Event::TRADE.name()) by {
        assert(Event::DEPTH.name()[0] != Event::TRADE.name()[0]);
    }
    assert(Event::DEPTH.name() != Event::TICKER.name()) by {
        assert(Event::DEPTH.name().len() != Event::TICKER.name().len());
    }
}
/// Whether a client starts or stops following a stream.
#[derive(Clone, Copy, Debug, PartialEq, Eq, Structural)]
pub enum Method {
    SUBSCRIBE,
    UNSUBSCRIBE,
}

} // verus!
