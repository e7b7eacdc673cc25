//! Assets, as the archiver knows them.
use crate::text::lacks;
use vstd::prelude::*;

verus! {

/// An asset that can be held and traded.
#[derive(Clone, Copy, Debug, PartialEq, Eq, Hash, Structural)]
#[allow(non_camel_case_types)]
pub enum Asset {
    USDT,
    BTC,
    SOL,
    ETH,
}

impl Asset {
    /// The variant's name, which is also the text it is printed as.
    pub open spec fn name(self) -> Seq<char> {
        match self {
            Asset::USDT => seq!['U', 'S', 'D', 'T'],
            Asset::BTC => seq!['B', 'T', 'C'],
            Asset::SOL => seq!['S', 'O', 'L'],
            Asset::ETH => seq!['E', 'T', 'H'],
        }
    }

    /// The variant whose name is `s`, if there is one.
    pub open spec fn parse(s: Seq<char>) -> Option<Asset> {
        if s == Asset::USDT.name() {
            Some(Asset::USDT)
        } else if s == Asset::BTC.name() {
            Some(Asset::BTC)
        } else if s == Asset::SOL.name() {
            Some(Asset::SOL)
        } else if s == Asset::ETH.name() {
            Some(Asset::ETH)
        } else {
            None
        }
    }

    /// Every variant, in declaration order.
    pub open spec fn variants() -> Seq<Asset> {
        seq![Asset::USDT, Asset::BTC, Asset::SOL, Asset::ETH]
    }

    /// Every variant, in declaration order.
    pub fn all() -> (v: Vec<Asset>)
        ensures
            v@ == Self::variants(),
    {
        let mut v: Vec<Asset> = Vec::new();
        v.push(Asset::USDT);
        v.push(Asset::BTC);
        v.push(Asset::SOL);
        v.push(Asset::ETH);
        proof {
            assert(v@ =~= Self::variants());
        }
        v
    }

    /// The variant's name.
    pub fn to_string(&self) -> (s: String)
        ensures
            s@ == self.name(),
    {
        match self {
            Asset::USDT => {
                let s = String::from_str("USDT");
                proof {
                    reveal_strlit("USDT");
                    assert(s@ =~= self.name());
                }
                s
            },
            Asset::BTC => {
                let s = String::from_str("BTC");
                proof {
                    reveal_strlit("BTC");
                    assert(s@ =~= self.name());
                }
                s
            },
            Asset::SOL => {
                let s = String::from_str("SOL");
                proof {
                    reveal_strlit("SOL");
                    assert(s@ =~= self.name());
                }
                s
            },
            Asset::ETH => {
                let s = String::from_str("ETH");
                proof {
                    reveal_strlit("ETH");
                    assert(s@ =~= self.name());
                }
                s
            },
        }
    }

    /// The variant whose name equals `text`, found by comparing `text`
    /// with the name of each variant in turn.
    pub fn from_str(text: &str) -> (r: Result<Asset, ()>)
        ensures
            r == (match Self::parse(text@) { Some(x) => Ok(x), None => Err(()) }),
    {
        let target = String::from_str(text);
        let variants = Self::all();
        let mut i: usize = 0;
        while i < variants.len()
            invariant
                variants@ == Self::variants(),
                target@ == text@,
                i <= variants@.len(),
                forall|j: int| 0 <= j < i ==> #[trigger] variants@[j].name() != text@,
            decreases variants.len() - i,
        {
            let current = variants[i].to_string();
            if target == current {
                proof {
                    if i == 0 {
                    } else if i == 1 {
                        assert(variants@[0].name() != text@);
                    } else if i == 2 {
                        assert(variants@[0].name() != text@);
                        assert(variants@[1].name() != text@);
                    } else if i == 3 {
                        assert(variants@[0].name() != text@);
                        assert(variants@[1].name() != text@);
                        assert(variants@[2].name() != text@);
                    }
                }
                return Ok(variants[i]);
            }
            i += 1;
        }
        proof {
            assert(variants@[0].name() != text@);
            assert(variants@[1].name() != text@);
            assert(variants@[2].name() != text@);
            assert(variants@[3].name() != text@);
        }
        Err(())
    }
}

/// Parsing a variant's name gives the variant back.
pub proof fn lemma_asset_parse_name(v: Asset)
    ensures
        Asset::parse(v.name()) == Some(v),
{
    assert(Asset::BTC.name() != Asset::USDT.name()) by {
        assert(Asset::BTC.name().len() != Asset::USDT.name().len());
    }
    assert(Asset::SOL.name() != Asset::USDT.name()) by {
        assert(Asset::SOL.name().len() != Asset::USDT.name().len());
    }
    assert(Asset::SOL.name() != Asset::BTC.name()) by {
        assert(Asset::SOL.name()[0] != Asset::BTC.name()[0]);
    }
    assert(Asset::ETH.name() != Asset::USDT.name()) by {
        assert(Asset::ETH.name().len() != Asset::USDT.name().len());
    }
    assert(Asset::ETH.name() != Asset::BTC.name()) by {
        assert(Asset::ETH.name()[0] != Asset::BTC.name()[0]);
    }
    assert(Asset::ETH.name() != Asset::SOL.name()) by {
        assert(Asset::ETH.name()[0] != Asset::SOL.name()[0]);
    }
}

/// No asset's name holds the separator `_`.
pub proof fn lemma_asset_name_lacks_separator(a: Asset)
    ensures
        lacks(a.name(), '_'),
{
}

} // verus!
