//! Users and their balances, as the archiver keeps them.
use crate::archiever::state::asset::{lemma_asset_parse_name, Asset};
use crate::archiever::state::scylla_state::ScyllaUser;
use crate::decimal::{
    checked_add, checked_sub, decimal_difference, decimal_parse, decimal_sum, decimal_text, less_than,
    parse, to_text, Dec,
};
use vstd::prelude::*;

verus! {

/// Why a change to a user's balance was refused.
#[derive(Clone, Copy, Debug, PartialEq, Eq, Structural)]
pub enum UserError {
    OverWithdrawl,
    AssetNotFound,
    UserNotFound,
}

/// The map that a list of (asset, amount) entries gives: each entry sets
/// its asset, a later entry overriding an earlier one.
pub open spec fn balances_map(s: Seq<(Asset, Dec)>) -> Map<Asset, Dec>
    decreases s.len(),
{
    if s.len() == 0 {
        Map::empty()
    } else {
        balances_map(s.drop_last()).insert(s.last().0, s.last().1)
    }
}

/// No asset has two entries.
pub open spec fn unique_assets(s: Seq<(Asset, Dec)>) -> bool {
    forall|i: int, j: int| 0 <= i < j < s.len() ==> (#[trigger] s[i]).0 != (#[trigger] s[j]).0
}

/// An asset is in the map exactly when it has an entry, and then maps to
/// that entry's amount.
pub proof fn lemma_balances_lookup(s: Seq<(Asset, Dec)>)
    requires
        unique_assets(s),
    ensures
        forall|i: int| 0 <= i < s.len() ==> balances_map(s).contains_key((#[trigger] s[i]).0) && balances_map(s)[s[i].0] == s[i].1,
        forall|a: Asset| balances_map(s).contains_key(a) ==> exists|i: int| 0 <= i < s.len() && (#[trigger] s[i]).0 == a,
    decreases s.len(),
{
    if s.len() > 0 {
        let p = s.drop_last();
        assert(unique_assets(p)) by {
            assert forall|i: int, j: int| 0 <= i < j < p.len() implies (#[trigger] p[i]).0 != (#[trigger] p[j]).0 by {
                assert(p[i] == s[i] && p[j] == s[j]);
            }
        }
        lemma_balances_lookup(p);
        assert forall|i: int| 0 <= i < s.len() implies balances_map(s).contains_key((#[trigger] s[i]).0) && balances_map(s)[s[i].0] == s[i].1 by {
            if i < s.len() - 1 {
                assert(p[i] == s[i]);
                assert(s[i].0 != s[s.len() - 1].0);
                assert(balances_map(p).contains_key(p[i].0) && balances_map(p)[p[i].0] == p[i].1);
            } else {
                assert(s[i] == s.last());
            }
        }
        assert forall|a: Asset| balances_map(s).contains_key(a) implies exists|i: int| 0 <= i < s.len() && (#[trigger] s[i]).0 == a by {
            if a == s.last().0 {
                assert(s[s.len() - 1].0 == a);
            } else {
                assert(balances_map(p).contains_key(a));
                let i = choose|i: int| 0 <= i < p.len() && (#[trigger] p[i]).0 == a;
                assert(s[i] == p[i]);
            }
        }
    }
}

/// Changing the amount of an entry changes the map at that asset only.
pub proof fn lemma_balances_update(s: Seq<(Asset, Dec)>, i: int, v: Dec)
    requires
        unique_assets(s),
        0 <= i < s.len(),
    ensures
        balances_map(s.update(i, (s[i].0, v))) == balances_map(s).insert(s[i].0, v),
        unique_assets(s.update(i, (s[i].0, v))),
    decreases s.len(),
{
    let k = s[i].0;
    let u = s.update(i, (k, v));
    assert forall|a: int, b: int| 0 <= a < b < u.len() implies (#[trigger] u[a]).0 != (#[trigger] u[b]).0 by {
        assert(u[a].0 == s[a].0 && u[b].0 == s[b].0);
    }
    let p = s.drop_last();
    if i == s.len() - 1 {
        assert(u.drop_last() =~= p);
        assert(balances_map(u) =~= balances_map(s).insert(k, v));
    } else {
        assert(unique_assets(p)) by {
            assert forall|a: int, b: int| 0 <= a < b < p.len() implies (#[trigger] p[a]).0 != (#[trigger] p[b]).0 by {
                assert(p[a] == s[a] && p[b] == s[b]);
            }
        }
        lemma_balances_update(p, i, v);
        assert(u.drop_last() =~= p.update(i, (k, v)));
        assert(s.last().0 != k);
        assert(balances_map(u) =~= balances_map(s).insert(k, v));
    }
}

/// A user's amounts by asset, each asset at most once.
pub struct Balances {
    pub entries: Vec<(Asset, Dec)>,
}

impl View for Balances {
    type V = Map<Asset, Dec>;

    open spec fn view(&self) -> Map<Asset, Dec> {
        balances_map(self.entries@)
    }
}

impl Balances {
    /// No asset twice, every amount representable.
    pub open spec fn wf(&self) -> bool {
        &&& unique_assets(self.entries@)
        &&& forall|i: int| 0 <= i < self.entries@.len() ==> (#[trigger] self.entries@[i]).1.wf()
    }

    /// No balance at all.
    pub fn new() -> (b: Balances)
        ensures
            b.wf(),
            b@ == Map::<Asset, Dec>::empty(),
    {
        Balances { entries: Vec::new() }
    }

    /// The position of the entry of `asset`.
    fn position(&self, asset: Asset) -> (r: Option<usize>)
        requires
            self.wf(),
        ensures
            match r {
                None => !self@.contains_key(asset),
                Some(i) => i < self.entries@.len() && self.entries@[i as int].0 == asset && self@.contains_key(asset)
                    && self@[asset] == self.entries@[i as int].1,
            },
    {
        proof {
            lemma_balances_lookup(self.entries@);
        }
        let mut i: usize = 0;
        while i < self.entries.len()
            invariant
                self.wf(),
                i <= self.entries@.len(),
                forall|j: int| 0 <= j < i ==> (#[trigger] self.entries@[j]).0 != asset,
            decreases self.entries@.len() - i,
        {
            if self.entries[i].0 == asset {
                proof {
                    lemma_balances_lookup(self.entries@);
                }
                return Some(i);
            }
            i = i + 1;
        }
        proof {
            lemma_balances_lookup(self.entries@);
        }
        None
    }

    /// The amount of `asset`, if the user has an entry for it.
    pub fn get(&self, asset: &Asset) -> (r: Option<Dec>)
        requires
            self.wf(),
        ensures
            r == (if self@.contains_key(*asset) { Some(self@[*asset]) } else { None::<Dec> }),
            r matches Some(x) ==> x.wf(),
    {
        match self.position(*asset) {
            Some(i) => {
                proof {
                    assert(self.entries@[i as int].1.wf());
                }
                Some(self.entries[i].1)
            },
            None => None,
        }
    }

    /// Sets the amount of `asset`.
    pub fn insert(&mut self, asset: Asset, amount: Dec)
        requires
            old(self).wf(),
            amount.wf(),
        ensures
            final(self).wf(),
            final(self)@ == old(self)@.insert(asset, amount),
    {
        match self.position(asset) {
            Some(i) => {
                let ghost before = self.entries@;
                self.entries.set(i, (asset, amount));
                proof {
                    lemma_balances_update(before, i as int, amount);
                    assert(self.entries@ == before.update(i as int, (before[i as int].0, amount)));
                    assert forall|j: int| 0 <= j < self.entries@.len() implies (#[trigger] self.entries@[j]).1.wf() by {
                        if j != i {
                            assert(self.entries@[j] == before[j]);
                        }
                    }
                }
            },
            None => {
                let ghost before = self.entries@;
                self.entries.push((asset, amount));
                proof {
                    lemma_balances_lookup(before);
                    assert(self.entries@.drop_last() =~= before);
                    assert forall|a: int, b: int| 0 <= a < b < self.entries@.len() implies (#[trigger] self.entries@[a]).0 != (#[trigger] self.entries@[b]).0 by {
                        if b == before.len() {
                            assert(self.entries@[a] == before[a]);
                            assert(balances_map(before).contains_key(before[a].0));
                        } else {
                            assert(self.entries@[a] == before[a] && self.entries@[b] == before[b]);
                        }
                    }
                    assert forall|j: int| 0 <= j < self.entries@.len() implies (#[trigger] self.entries@[j]).1.wf() by {
                        if j < before.len() {
                            assert(self.entries@[j] == before[j]);
                        }
                    }
                }
            },
        }
    }

    /// The balances that a list of (asset name, amount text) entries gives,
    /// each entry setting its asset in turn; `None` when a name is not an
    /// asset's or an amount does not parse.
    pub open spec fn parse_entries(s: Seq<(String, String)>) -> Option<Map<Asset, Dec>>
        decreases s.len(),
    {
        if s.len() == 0 {
            Some(Map::empty())
        } else {
            match (Self::parse_entries(s.drop_last()), Asset::parse(s.last().0@), decimal_parse(s.last().1@)) {
                (Some(m), Some(a), Some(d)) => Some(m.insert(a, d)),
                _ => None,
            }
        }
    }

    /// The balances that stored (asset name, amount text) entries give (see
    /// `parse_entries`).
    pub fn from_texts(entries: &Vec<(String, String)>) -> (r: Option<Balances>)
        ensures
            match Self::parse_entries(entries@) {
                None => r is None,
                Some(m) => r matches Some(b) && b.wf() && b@ == m,
            },
    {
        let mut b = Balances::new();
        let mut i: usize = 0;
        while i < entries.len()
            invariant
                i <= entries@.len(),
                b.wf(),
                Self::parse_entries(entries@.take(i as int)) == Some(b@),
            decreases entries@.len() - i,
        {
            proof {
                assert(entries@.take(i + 1).drop_last() =~= entries@.take(i as int));
            }
            let asset = match Asset::from_str(entries[i].0.as_str()) {
                Ok(a) => a,
                Err(_) => {
                    proof {
                        lemma_parse_entries_none_extends(entries@, i + 1);
                    }
                    return None;
                },
            };
            let amount = match parse(entries[i].1.as_str()) {
                Some(d) => d,
                None => {
                    proof {
                        lemma_parse_entries_none_extends(entries@, i + 1);
                    }
                    return None;
                },
            };
            b.insert(asset, amount);
            i = i + 1;
        }
        proof {
            assert(entries@.take(i as int) =~= entries@);
        }
        Some(b)
    }

    /// The entries as (asset name, amount as `rust_decimal` prints it).
    pub fn to_texts(&self) -> (r: Vec<(String, String)>)
        requires
            self.wf(),
        ensures
            r@.len() == self.entries@.len(),
            forall|i: int| 0 <= i < r@.len() ==> (#[trigger] r@[i]).0@ == self.entries@[i].0.name()
                && r@[i].1@ == decimal_text(self.entries@[i].1),
            Self::parse_entries(r@) == Some(self@),
    {
        let mut out: Vec<(String, String)> = Vec::new();
        let mut i: usize = 0;
        proof {
            assert(self.entries@.take(0) =~= Seq::<(Asset, Dec)>::empty());
        }
        while i < self.entries.len()
            invariant
                self.wf(),
                i <= self.entries@.len(),
                out@.len() == i,
                forall|j: int| 0 <= j < i ==> (#[trigger] out@[j]).0@ == self.entries@[j].0.name()
                    && out@[j].1@ == decimal_text(self.entries@[j].1),
                Self::parse_entries(out@) == Some(balances_map(self.entries@.take(i as int))),
            decreases self.entries@.len() - i,
        {
            proof {
                assert(self.entries@[i as int].1.wf());
            }
            let (asset, amount) = self.entries[i];
            let name = asset.to_string();
            let text = to_text(amount);
            let ghost before = out@;
            out.push((name, text));
            proof {
                lemma_asset_parse_name(asset);
                assert(out@.drop_last() =~= before);
                assert(self.entries@.take(i + 1).drop_last() =~= self.entries@.take(i as int));
            }
            i = i + 1;
        }
        proof {
            assert(self.entries@.take(i as int) =~= self.entries@);
        }
        out
    }
}

/// Once an entry fails to parse, the whole list does.
proof fn lemma_parse_entries_none_extends(s: Seq<(String, String)>, n: int)
    requires
        0 <= n <= s.len(),
        Balances::parse_entries(s.take(n)) is None,
    ensures
        Balances::parse_entries(s) is None,
    decreases s.len() - n,
{
    if n < s.len() {
        assert(s.take(n + 1).drop_last() =~= s.take(n));
        lemma_parse_entries_none_extends(s, n + 1);
    } else {
        assert(s.take(n) =~= s);
    }
}

/// A user's balances and the part of them locked by open orders.
pub struct User {
    pub id: i64,
    pub balance: Balances,
    pub locked_balance: Balances,
}

impl User {
    /// Both balance lists are well formed.
    pub open spec fn wf(&self) -> bool {
        self.balance.wf() && self.locked_balance.wf()
    }

    /// The balance of `asset` after depositing `quantity`: the old balance
    /// plus `quantity`, or `quantity` when there was none; `None` on
    /// overflow.
    pub open spec fn deposited(&self, asset: Asset, quantity: Dec) -> Option<Dec> {
        if self.balance@.contains_key(asset) {
            decimal_sum(self.balance@[asset], quantity)
        } else {
            Some(quantity)
        }
    }

    /// Adds `quantity` to the balance of `asset`, opening it if needed.
    pub fn deposit(&mut self, asset: &Asset, quantity: Dec)
        requires
            old(self).wf(),
            quantity.wf(),
            old(self).deposited(*asset, quantity) is Some,
        ensures
            final(self).wf(),
            final(self).balance@ == old(self).balance@.insert(*asset, old(self).deposited(*asset, quantity).unwrap()),
            final(self).locked_balance@ == old(self).locked_balance@,
            final(self).id == old(self).id,
    {
        let _ = self.try_deposit(asset, quantity);
    }

    /// `deposit`, or `false` with the user untouched when the sum overflows.
    pub fn try_deposit(&mut self, asset: &Asset, quantity: Dec) -> (ok: bool)
        requires
            old(self).wf(),
            quantity.wf(),
        ensures
            final(self).wf(),
            ok == old(self).deposited(*asset, quantity) is Some,
            ok ==> final(self).balance@ == old(self).balance@.insert(*asset, old(self).deposited(*asset, quantity).unwrap()),
            !ok ==> final(self).balance@ == old(self).balance@,
            final(self).locked_balance@ == old(self).locked_balance@,
            final(self).id == old(self).id,
    {
        match self.balance.get(asset) {
            None => {
                self.balance.insert(*asset, quantity);
                true
            },
            Some(balance) => match checked_add(balance, quantity) {
                Some(sum) => {
                    self.balance.insert(*asset, sum);
                    true
                },
                None => false,
            },
        }
    }

    /// Takes `quantity` off the locked balance of `asset`.
    pub fn unlock_amount(&mut self, asset: &Asset, quantity: Dec)
        requires
            old(self).wf(),
            quantity.wf(),
            old(self).locked_balance@.contains_key(*asset),
            decimal_difference(old(self).locked_balance@[*asset], quantity) is Some,
        ensures
            final(self).wf(),
            final(self).locked_balance@ == old(self).locked_balance@.insert(
                *asset,
                decimal_difference(old(self).locked_balance@[*asset], quantity).unwrap(),
            ),
            final(self).balance@ == old(self).balance@,
            final(self).id == old(self).id,
    {
        let _ = self.try_unlock_amount(asset, quantity);
    }

    /// `unlock_amount`, or `false` with the user untouched when the asset
    /// has no locked balance or the difference overflows.
    pub fn try_unlock_amount(&mut self, asset: &Asset, quantity: Dec) -> (ok: bool)
        requires
            old(self).wf(),
            quantity.wf(),
        ensures
            final(self).wf(),
            ok == (old(self).locked_balance@.contains_key(*asset) && decimal_difference(
                old(self).locked_balance@[*asset],
                quantity,
            ) is Some),
            ok ==> final(self).locked_balance@ == old(self).locked_balance@.insert(
                *asset,
                decimal_difference(old(self).locked_balance@[*asset], quantity).unwrap(),
            ),
            !ok ==> final(self).locked_balance@ == old(self).locked_balance@,
            final(self).balance@ == old(self).balance@,
            final(self).id == old(self).id,
    {
        match self.locked_balance.get(asset) {
            None => false,
            Some(locked) => match checked_sub(locked, quantity) {
                Some(d) => {
                    self.locked_balance.insert(*asset, d);
                    true
                },
                None => false,
            },
        }
    }

    /// Whether a withdrawal of `quantity` of `asset` can be computed: either
    /// it is refused, or the new balance does not overflow.
    pub open spec fn withdraw_ok(&self, asset: Asset, quantity: Dec) -> bool {
        self.balance@.contains_key(asset) && quantity.units() <= self.balance@[asset].units()
            ==> decimal_difference(self.balance@[asset], quantity) is Some
    }

    /// Takes `quantity` off the balance of `asset`: refused with
    /// `AssetNotFound` when the user holds no balance of it, and with
    /// `OverWithdrawl` when `quantity` exceeds the balance.
    pub fn withdraw(&mut self, asset: &Asset, quantity: Dec) -> (r: Result<(), UserError>)
        requires
            old(self).wf(),
            quantity.wf(),
            old(self).withdraw_ok(*asset, quantity),
        ensures
            final(self).wf(),
            final(self).locked_balance@ == old(self).locked_balance@,
            final(self).id == old(self).id,
            !old(self).balance@.contains_key(*asset) ==> r == Err::<(), UserError>(UserError::AssetNotFound)
                && final(self).balance@ == old(self).balance@,
            old(self).balance@.contains_key(*asset) && quantity.units() > old(self).balance@[*asset].units()
                ==> r == Err::<(), UserError>(UserError::OverWithdrawl) && final(self).balance@ == old(self).balance@,
            old(self).balance@.contains_key(*asset) && quantity.units() <= old(self).balance@[*asset].units()
                ==> r is Ok && final(self).balance@ == old(self).balance@.insert(
                *asset,
                decimal_difference(old(self).balance@[*asset], quantity).unwrap(),
            ),
    {
        match self.try_withdraw(asset, quantity) {
            Some(r) => r,
            None => Ok(()),
        }
    }

    /// `withdraw`, or `None` with the user untouched when the new balance
    /// overflows.
    pub fn try_withdraw(&mut self, asset: &Asset, quantity: Dec) -> (r: Option<Result<(), UserError>>)
        requires
            old(self).wf(),
            quantity.wf(),
        ensures
            final(self).wf(),
            final(self).locked_balance@ == old(self).locked_balance@,
            final(self).id == old(self).id,
            r is None <==> !old(self).withdraw_ok(*asset, quantity),
            r is None ==> final(self).balance@ == old(self).balance@,
            !old(self).balance@.contains_key(*asset) ==> r == Some(Err::<(), UserError>(UserError::AssetNotFound))
                && final(self).balance@ == old(self).balance@,
            old(self).balance@.contains_key(*asset) && quantity.units() > old(self).balance@[*asset].units()
                ==> r == Some(Err::<(), UserError>(UserError::OverWithdrawl)) && final(self).balance@ == old(self).balance@,
            old(self).withdraw_ok(*asset, quantity) && old(self).balance@.contains_key(*asset) && quantity.units()
                <= old(self).balance@[*asset].units() ==> r == Some(Ok::<(), UserError>(())) && final(self).balance@
                == old(self).balance@.insert(*asset, decimal_difference(old(self).balance@[*asset], quantity).unwrap()),
    {
        let balance = match self.balance.get(asset) {
            Some(b) => b,
            None => return Some(Err(UserError::AssetNotFound)),
        };
        if less_than(balance, quantity) {
            return Some(Err(UserError::OverWithdrawl));
        }
        match checked_sub(balance, quantity) {
            Some(d) => {
                self.balance.insert(*asset, d);
                Some(Ok(()))
            },
            None => None,
        }
    }
}

impl ScyllaUser {
    /// Both balance lists of the row parse (see `Balances::parse_entries`).
    pub open spec fn parses(&self) -> bool {
        &&& Balances::parse_entries(self.balance@) is Some
        &&& Balances::parse_entries(self.locked_balance@) is Some
    }

    /// `u` is the user that this row stores.
    pub open spec fn decodes_to(&self, u: User) -> bool {
        &&& u.wf()
        &&& u.id == self.id
        &&& Balances::parse_entries(self.balance@) == Some(u.balance@)
        &&& Balances::parse_entries(self.locked_balance@) == Some(u.locked_balance@)
    }

    /// The user that this row stores.
    pub fn from_scylla_user(&self) -> (u: User)
        requires
            self.parses(),
        ensures
            self.decodes_to(u),
    {
        match self.try_from_scylla_user() {
            Some(u) => u,
            None => User { id: self.id, balance: Balances::new(), locked_balance: Balances::new() },
        }
    }

    /// The user that this row stores, or `None` when an entry does not
    /// parse.
    pub fn try_from_scylla_user(&self) -> (r: Option<User>)
        ensures
            match r {
                None => !self.parses(),
                Some(u) => self.parses() && self.decodes_to(u),
            },
    {
        let balance = match Balances::from_texts(&self.balance) {
            Some(b) => b,
            None => return None,
        };
        let locked_balance = match Balances::from_texts(&self.locked_balance) {
            Some(b) => b,
            None => return None,
        };
        Some(User { id: self.id, balance, locked_balance })
    }
}

impl User {
    /// The row that stores this user: each balance entry as the asset's
    /// name and the amount as `rust_decimal` prints it.
    pub fn to_scylla_user(&self) -> (r: ScyllaUser)
        requires
            self.wf(),
        ensures
            r.id == self.id,
            r.balance@.len() == self.balance.entries@.len(),
            forall|i: int| 0 <= i < r.balance@.len() ==> (#[trigger] r.balance@[i]).0@ == self.balance.entries@[i].0.name()
                && r.balance@[i].1@ == decimal_text(self.balance.entries@[i].1),
            r.locked_balance@.len() == self.locked_balance.entries@.len(),
            forall|i: int| 0 <= i < r.locked_balance@.len() ==> (#[trigger] r.locked_balance@[i]).0@
                == self.locked_balance.entries@[i].0.name() && r.locked_balance@[i].1@ == decimal_text(
                self.locked_balance.entries@[i].1,
            ),
            r.parses(),
            r.decodes_to(*self),
    {
        ScyllaUser { id: self.id, balance: self.balance.to_texts(), locked_balance: self.locked_balance.to_texts() }
    }
}

/// The two users of a trade after it.
pub struct PostUsers {
    pub user: User,
    pub client: User,
}

} // verus!
