//! The markets whose streams a client can subscribe to.
use vstd::prelude::*;

verus! {

/// A market that the exchange runs.
#[derive(Clone, Copy, Debug, PartialEq, Eq, Hash, Structural)]
#[allow(non_camel_case_types)]
pub enum RegisteredSymbols {
    SOL_USDT,
    BTC_USDT,
    ETH_USDT,
}

impl RegisteredSymbols {
    /// The variant's name, which is also the text it is printed as.
    pub open spec fn name(self) -> Seq<char> {
        match self {
            RegisteredSymbols::SOL_USDT => seq!['S', 'O', 'L', '_', 'U', 'S', 'D', 'T'],
            RegisteredSymbols::BTC_USDT => seq!['B', 'T', 'C', '_', 'U', 'S', 'D', 'T'],
            RegisteredSymbols::ETH_USDT => seq!['E', 'T', 'H', '_', 'U', 'S', 'D', 'T'],
        }
    }

    /// The variant whose name is `s`, if there is one.
    pub open spec fn parse(s: Seq<char>) -> Option<RegisteredSymbols> {
        if s == RegisteredSymbols::SOL_USDT.name() {
            Some(RegisteredSymbols::SOL_USDT)
        } else if s == RegisteredSymbols::BTC_USDT.name() {
            Some(RegisteredSymbols::BTC_USDT)
        } else if s == RegisteredSymbols::ETH_USDT.name() {
            Some(RegisteredSymbols::ETH_USDT)
        } else {
            None
        }
    }

    /// Every variant, in declaration order.
    pub open spec fn variants() -> Seq<RegisteredSymbols> {
        seq![RegisteredSymbols::SOL_USDT, RegisteredSymbols::BTC_USDT, RegisteredSymbols::ETH_USDT]
    }

    /// Every variant, in declaration order.
    pub fn all() -> (v: Vec<RegisteredSymbols>)
        ensures
            v@ == Self::variants(),
    {
        let mut v: Vec<RegisteredSymbols> = Vec::new();
        v.push(RegisteredSymbols::SOL_USDT);
        v.push(RegisteredSymbols::BTC_USDT);
        v.push(RegisteredSymbols::ETH_USDT);
        proof {
            assert(v@ =~= Self::variants());
        }
        v
    }

    /// The variant's name.
    pub fn to_string(&self) -> (s: String)
        ensures
            s@ == self.name(),
    {
        match self {
            RegisteredSymbols::SOL_USDT => {
                let s = String::from_str("SOL_USDT");
                proof {
                    reveal_strlit("SOL_USDT");
                    assert(s@ =~= self.name());
                }
                s
            },
            RegisteredSymbols::BTC_USDT => {
                let s = String::from_str("BTC_USDT");
                proof {
                    reveal_strlit("BTC_USDT");
                    assert(s@ =~= self.name());
                }
                s
            },
            RegisteredSymbols::ETH_USDT => {
                let s = String::from_str("ETH_USDT");
                proof {
                    reveal_strlit("ETH_USDT");
                    assert(s@ =~= self.name());
                }
                s
            },
        }
    }

    /// The variant whose name equals `text`, found by comparing `text`
    /// with the name of each variant in turn.
    pub fn from_str(text: &str) -> (r: Result<RegisteredSymbols, ()>)
        ensures
            r == (match Self::parse(text@) { Some(x) => Ok(x), None => Err(()) }),
    {
        let target = String::from_str(text);
        let variants = Self::all();
        let mut i: usize = 0;
        while i < variants.len()
            invariant
                variants@ == Self::variants(),
                target@ == text@,
                i <= variants@.len(),
                forall|j: int| 0 <= j < i ==> #[trigger] variants@[j].name() != text@,
            decreases variants.len() - i,
        {
            let current = variants[i].to_string();
            if target == current {
                proof {
                    if i == 0 {
                    } else if i == 1 {
                        assert(variants@[0].name() != text@);
                    } else if i == 2 {
                        assert(variants@[0].name() != text@);
                        assert(variants@[1].name() != text@);
                    }
                }
                return Ok(variants[i]);
            }
            i += 1;
        }
        proof {
            assert(variants@[0].name() != text@);
            assert(variants@[1].name() != text@);
            assert(variants@[2].name() != text@);
        }
        Err(())
    }
}

/// Parsing a variant's name gives the variant back.
pub proof fn lemma_registered_symbols_parse_name(v: RegisteredSymbols)
    ensures
        RegisteredSymbols::parse(v.name()) == Some(v),
{
    assert(RegisteredSymbols::BTC_USDT.name() != RegisteredSymbols::SOL_USDT.name()) by {
        assert(RegisteredSymbols::BTC_USDT.name()[0] != RegisteredSymbols::SOL_USDT.name()[0]);
    }
    assert(RegisteredSymbols::ETH_USDT.name() != RegisteredSymbols::SOL_USDT.name()) by {
        assert(RegisteredSymbols::ETH_USDT.name()[0] != RegisteredSymbols::SOL_USDT.name()[0]);
    }
    assert(RegisteredSymbols::ETH_USDT.name() != RegisteredSymbols::BTC_USDT.name()) by {
        assert(RegisteredSymbols::ETH_USDT.name()[0] != RegisteredSymbols::BTC_USDT.name()[0]);
    }
}
} // verus!
