//! Order statuses, as the websocket server relays them.
use vstd::prelude::*;

verus! {

/// Where an order stands.
#[derive(Clone, Copy, Debug, PartialEq, Eq, Hash, Structural)]
#[allow(non_camel_case_types)]
pub enum OrderStatus {
    InProgress,
    Filled,
    PartiallyFilled,
    Cancelled,
}

impl OrderStatus {
    /// The variant's name, which is also the text it is printed as.
    pub open spec fn name(self) -> Seq<char> {
        match self {
            OrderStatus::InProgress => seq!['I', 'n', 'P', 'r', 'o', 'g', 'r', 'e', 's', 's'],
            OrderStatus::Filled => seq!['F', 'i', 'l', 'l', 'e', 'd'],
            OrderStatus::PartiallyFilled => seq!['P', 'a', 'r', 't', 'i', 'a', 'l', 'l', 'y', 'F', 'i', 'l', 'l', 'e', 'd'],
            OrderStatus::Cancelled => seq!['C', 'a', 'n', 'c', 'e', 'l', 'l', 'e', 'd'],
        }
    }

    /// The variant whose name is `s`, if there is one.
    pub open spec fn parse(s: Seq<char>) -> Option<OrderStatus> {
        if s == OrderStatus::InProgress.name() {
            Some(OrderStatus::InProgress)
        } else if s == OrderStatus::Filled.name() {
            Some(OrderStatus::Filled)
        } else if s == OrderStatus::PartiallyFilled.name() {
            Some(OrderStatus::PartiallyFilled)
        } else if s == OrderStatus::Cancelled.name() {
            Some(OrderStatus::Cancelled)
        } else {
            None
        }
    }

    /// Every variant, in declaration order.
    pub open spec fn variants() -> Seq<OrderStatus> {
        seq![OrderStatus::InProgress, OrderStatus::Filled, OrderStatus::PartiallyFilled, OrderStatus::Cancelled]
    }

    /// Every variant, in declaration order.
    pub fn all() -> (v: Vec<OrderStatus>)
        ensures
            v@ == Self::variants(),
    {
        let mut v: Vec<OrderStatus> = Vec::new();
        v.push(OrderStatus::InProgress);
        v.push(OrderStatus::Filled);
        v.push(OrderStatus::PartiallyFilled);
        v.push(OrderStatus::Cancelled);
        proof {
            assert(v@ =~= Self::variants());
        }
        v
    }

    /// The variant's name.
    pub fn to_string(&self) -> (s: String)
        ensures
            s@ == self.name(),
    {
        match self {
            OrderStatus::InProgress => {
                let s = String::from_str("InProgress");
                proof {
                    reveal_strlit("InProgress");
                    assert(s@ =~= self.name());
                }
                s
            },
            OrderStatus::Filled => {
                let s = String::from_str("Filled");
                proof {
                    reveal_strlit("Filled");
                    assert(s@ =~= self.name());
                }
                s
            },
            OrderStatus::PartiallyFilled => {
                let s = String::from_str("PartiallyFilled");
                proof {
                    reveal_strlit("PartiallyFilled");
                    assert(s@ =~= self.name());
                }
                s
            },
            OrderStatus::Cancelled => {
                let s = String::from_str("Cancelled");
                proof {
                    reveal_strlit("Cancelled");
                    assert(s@ =~= self.name());
                }
                s
            },
        }
    }

    /// The variant whose name equals `text`, found by comparing `text`
    /// with the name of each variant in turn.
    pub fn from_str(text: &str) -> (r: Result<OrderStatus, ()>)
        ensures
            r == (match Self::parse(text@) { Some(x) => Ok(x), None => Err(()) }),
    {
        let target = String::from_str(text);
        let variants = Self::all();
        let mut i: usize = 0;
        while i < variants.len()
            invariant
                variants@ == Self::variants(),
                target@ == text@,
                i <= variants@.len(),
                forall|j: int| 0 <= j < i ==> #[trigger] variants@[j].name() != text@,
            decreases variants.len() - i,
        {
            let current = variants[i].to_string();
            if target == current {
                proof {
                    if i == 0 {
                    } else if i == 1 {
                        assert(variants@[0].name() != text@);
                    } else if i == 2 {
                        assert(variants@[0].name() != text@);
                        assert(variants@[1].name() != text@);
                    } else if i == 3 {
                        assert(variants@[0].name() != text@);
                        assert(variants@[1].name() != text@);
                        assert(variants@[2].name() != text@);
                    }
                }
                return Ok(variants[i]);
            }
            i += 1;
        }
        proof {
            assert(variants@[0].name() != text@);
            assert(variants@[1].name() != text@);
            assert(variants@[2].name() != text@);
            assert(variants@[3].name() != text@);
        }
        Err(())
    }
}

/// Parsing a variant's name gives the variant back.
pub proof fn lemma_order_status_parse_name(v: OrderStatus)
    ensures
        OrderStatus::parse(v.name()) == Some(v),
{
    assert(OrderStatus::Filled.name() != OrderStatus::InProgress.name()) by {
        assert(OrderStatus::Filled.name().len() != OrderStatus::InProgress.name().len());
    }
    assert(OrderStatus::PartiallyFilled.name() != OrderStatus::InProgress.name()) by {
        assert(OrderStatus::PartiallyFilled.name().len() != OrderStatus::InProgress.name().len());
    }
    assert(OrderStatus::PartiallyFilled.name() != OrderStatus::Filled.name()) by {
        assert(OrderStatus::PartiallyFilled.name().len() != OrderStatus::Filled.name().len());
    }
    assert(OrderStatus::Cancelled.name() != OrderStatus::InProgress.name()) by {
        assert(OrderStatus::Cancelled.name().len() != OrderStatus::InProgress.name().len());
    }
    assert(OrderStatus::Cancelled.name() != OrderStatus::Filled.name()) by {
        assert(OrderStatus::Cancelled.name().len() != OrderStatus::Filled.name().len());
    }
    assert(OrderStatus::Cancelled.name() != OrderStatus::PartiallyFilled.name()) by {
        assert(OrderStatus::Cancelled.name().len() != OrderStatus::PartiallyFilled.name().len());
    }
}
} // verus!
