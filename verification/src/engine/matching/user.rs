//! The engine's users: balances, the part of them locked by open orders,
//! and the stored rows they are read from.
use crate::decimal::{checked_sub, decimal_difference, decimal_parse, decimal_text, parse, to_text, Dec};
use crate::engine::matching::{lemma_asset_parse_name, Asset};
use std::collections::HashMap;
use vstd::prelude::*;

verus! {

/// The map that a list of (asset, amount) entries gives: each entry sets
/// its asset, a later entry overriding an earlier one.
pub open spec fn balances_map(s: Seq<(Asset, Dec)>) -> Map<Asset, Dec>
    decreases s.len(),
{
    if s.len() == 0 {
        Map::empty()
    } else {
        balances_map(s.drop_last()).insert(s.last().0, s.last().1)
    }
}

/// No asset has two entries.
pub open spec fn unique_assets(s: Seq<(Asset, Dec)>) -> bool {
    forall|i: int, j: int| 0 <= i < j < s.len() ==> (#[trigger] s[i]).0 != (#[trigger] s[j]).0
}

/// An asset is in the map exactly when it has an entry, and then maps to
/// that entry's amount.
pub proof fn lemma_balances_lookup(s: Seq<(Asset, Dec)>)
    requires
        unique_assets(s),
    ensures
        forall|i: int| 0 <= i < s.len() ==> balances_map(s).contains_key((#[trigger] s[i]).0) && balances_map(s)[s[i].0] == s[i].1,
        forall|a: Asset| balances_map(s).contains_key(a) ==> exists|i: int| 0 <= i < s.len() && (#[trigger] s[i]).0 == a,
    decreases s.len(),
{
    if s.len() > 0 {
        let p = s.drop_last();
        assert(unique_assets(p)) by {
            assert forall|i: int, j: int| 0 <= i < j < p.len() implies (#[trigger] p[i]).0 != (#[trigger] p[j]).0 by {
                assert(p[i] == s[i] && p[j] == s[j]);
            }
        }
        lemma_balances_lookup(p);
        assert forall|i: int| 0 <= i < s.len() implies balances_map(s).contains_key((#[trigger] s[i]).0) && balances_map(s)[s[i].0] == s[i].1 by {
            if i < s.len() - 1 {
                assert(p[i] == s[i]);
                assert(s[i].0 != s[s.len() - 1].0);
                assert(balances_map(p).contains_key(p[i].0) && balances_map(p)[p[i].0] == p[i].1);
            } else {
                assert(s[i] == s.last());
            }
        }
        assert forall|a: Asset| balances_map(s).contains_key(a) implies exists|i: int| 0 <= i < s.len() && (#[trigger] s[i]).0 == a by {
            if a == s.last().0 {
                assert(s[s.len() - 1].0 == a);
            } else {
                assert(balances_map(p).contains_key(a));
                let i = choose|i: int| 0 <= i < p.len() && (#[trigger] p[i]).0 == a;
                assert(s[i] == p[i]);
            }
        }
    }
}

/// Changing the amount of an entry changes the map at that asset only.
pub proof fn lemma_balances_update(s: Seq<(Asset, Dec)>, i: int, v: Dec)
    requires
        unique_assets(s),
        0 <= i < s.len(),
    ensures
        balances_map(s.update(i, (s[i].0, v))) == balances_map(s).insert(s[i].0, v),
        unique_assets(s.update(i, (s[i].0, v))),
    decreases s.len(),
{
    let k = s[i].0;
    let u = s.update(i, (k, v));
    assert forall|a: int, b: int| 0 <= a < b < u.len() implies (#[trigger] u[a]).0 != (#[trigger] u[b]).0 by {
        assert(u[a].0 == s[a].0 && u[b].0 == s[b].0);
    }
    let p = s.drop_last();
    if i == s.len() - 1 {
        assert(u.drop_last() =~= p);
        assert(balances_map(u) =~= balances_map(s).insert(k, v));
    } else {
        assert(unique_assets(p)) by {
            assert forall|a: int, b: int| 0 <= a < b < p.len() implies (#[trigger] p[a]).0 != (#[trigger] p[b]).0 by {
                assert(p[a] == s[a] && p[b] == s[b]);
            }
        }
        lemma_balances_update(p, i, v);
        assert(u.drop_last() =~= p.update(i, (k, v)));
        assert(s.last().0 != k);
        assert(balances_map(u) =~= balances_map(s).insert(k, v));
    }
}

/// A user's amounts by asset, each asset at most once.
pub struct Balances {
    pub entries: Vec<(Asset, Dec)>,
}

impl View for Balances {
    type V = Map<Asset, Dec>;

    open spec fn view(&self) -> Map<Asset, Dec> {
        balances_map(self.entries@)
    }
}

impl Balances {
    /// No asset twice, every amount representable.
    pub open spec fn wf(&self) -> bool {
        &&& unique_assets(self.entries@)
        &&& forall|i: int| 0 <= i < self.entries@.len() ==> (#[trigger] self.entries@[i]).1.wf()
    }

    /// An entry-for-entry copy.
    pub fn copy(&self) -> (c: Balances)
        ensures
            c.entries@ == self.entries@,
    {
        let mut entries: Vec<(Asset, Dec)> = Vec::new();
        let mut i: usize = 0;
        while i < self.entries.len()
            invariant
                i <= self.entries@.len(),
                entries@ == self.entries@.take(i as int),
            decreases self.entries@.len() - i,
        {
            entries.push(self.entries[i]);
            i = i + 1;
            proof {
                assert(entries@ =~= self.entries@.take(i as int));
            }
        }
        proof {
            assert(self.entries@.take(i as int) =~= self.entries@);
        }
        Balances { entries }
    }

    /// No balance at all.
    pub fn new() -> (b: Balances)
        ensures
            b.wf(),
            b@ == Map::<Asset, Dec>::empty(),
    {
        Balances { entries: Vec::new() }
    }

    /// The position of the entry of `asset`.
    fn position(&self, asset: Asset) -> (r: Option<usize>)
        requires
            self.wf(),
        ensures
            match r {
                None => !self@.contains_key(asset),
                Some(i) => i < self.entries@.len() && self.entries@[i as int].0 == asset && self@.contains_key(asset)
                    && self@[asset] == self.entries@[i as int].1,
            },
    {
        proof {
            lemma_balances_lookup(self.entries@);
        }
        let mut i: usize = 0;
        while i < self.entries.len()
            invariant
                self.wf(),
                i <= self.entries@.len(),
                forall|j: int| 0 <= j < i ==> (#[trigger] self.entries@[j]).0 != asset,
            decreases self.entries@.len() - i,
        {
            if self.entries[i].0 == asset {
                proof {
                    lemma_balances_lookup(self.entries@);
                }
                return Some(i);
            }
            i = i + 1;
        }
        proof {
            lemma_balances_lookup(self.entries@);
        }
        None
    }

    /// The amount of `asset`, if the user has an entry for it.
    pub fn get(&self, asset: &Asset) -> (r: Option<Dec>)
        requires
            self.wf(),
        ensures
            r == (if self@.contains_key(*asset) { Some(self@[*asset]) } else { None::<Dec> }),
            r matches Some(x) ==> x.wf(),
    {
        match self.position(*asset) {
            Some(i) => {
                proof {
                    assert(self.entries@[i as int].1.wf());
                }
                Some(self.entries[i].1)
            },
            None => None,
        }
    }

    /// Sets the amount of `asset`.
    pub fn insert(&mut self, asset: Asset, amount: Dec)
        requires
            old(self).wf(),
            amount.wf(),
        ensures
            final(self).wf(),
            final(self)@ == old(self)@.insert(asset, amount),
    {
        match self.position(asset) {
            Some(i) => {
                let ghost before = self.entries@;
                self.entries.set(i, (asset, amount));
                proof {
                    lemma_balances_update(before, i as int, amount);
                    assert(self.entries@ == before.update(i as int, (before[i as int].0, amount)));
                    assert forall|j: int| 0 <= j < self.entries@.len() implies (#[trigger] self.entries@[j]).1.wf() by {
                        if j != i {
                            assert(self.entries@[j] == before[j]);
                        }
                    }
                }
            },
            None => {
                let ghost before = self.entries@;
                self.entries.push((asset, amount));
                proof {
                    lemma_balances_lookup(before);
                    assert(self.entries@.drop_last() =~= before);
                    assert forall|a: int, b: int| 0 <= a < b < self.entries@.len() implies (#[trigger] self.entries@[a]).0 != (#[trigger] self.entries@[b]).0 by {
                        if b == before.len() {
                            assert(self.entries@[a] == before[a]);
                            assert(balances_map(before).contains_key(before[a].0));
                        } else {
                            assert(self.entries@[a] == before[a] && self.entries@[b] == before[b]);
                        }
                    }
                    assert forall|j: int| 0 <= j < self.entries@.len() implies (#[trigger] self.entries@[j]).1.wf() by {
                        if j < before.len() {
                            assert(self.entries@[j] == before[j]);
                        }
                    }
                }
            },
        }
    }

    /// The balances that a list of (asset name, amount text) entries gives,
    /// each entry setting its asset in turn; `None` when a name is not an
    /// asset's or an amount does not parse.
    pub open spec fn parse_entries(s: Seq<(String, String)>) -> Option<Map<Asset, Dec>>
        decreases s.len(),
    {
        if s.len() == 0 {
            Some(Map::empty())
        } else {
            match (Self::parse_entries(s.drop_last()), Asset::parse(s.last().0@), decimal_parse(s.last().1@)) {
                (Some(m), Some(a), Some(d)) => Some(m.insert(a, d)),
                _ => None,
            }
        }
    }

    /// The balances that stored (asset name, amount text) entries give (see
    /// `parse_entries`).
    pub fn from_texts(entries: &Vec<(String, String)>) -> (r: Option<Balances>)
        ensures
            match Self::parse_entries(entries@) {
                None => r is None,
                Some(m) => r matches Some(b) && b.wf() && b@ == m,
            },
    {
        let mut b = Balances::new();
        let mut i: usize = 0;
        while i < entries.len()
            invariant
                i <= entries@.len(),
                b.wf(),
                Self::parse_entries(entries@.take(i as int)) == Some(b@),
            decreases entries@.len() - i,
        {
            proof {
                assert(entries@.take(i + 1).drop_last() =~= entries@.take(i as int));
            }
            let asset = match Asset::from_str(entries[i].0.as_str()) {
                Some(a) => a,
                None => {
                    proof {
                        lemma_parse_entries_none_extends(entries@, i + 1);
                    }
                    return None;
                },
            };
            let amount = match parse(entries[i].1.as_str()) {
                Some(d) => d,
                None => {
                    proof {
                        lemma_parse_entries_none_extends(entries@, i + 1);
                    }
                    return None;
                },
            };
            b.insert(asset, amount);
            i = i + 1;
        }
        proof {
            assert(entries@.take(i as int) =~= entries@);
        }
        Some(b)
    }

    /// The entries as (asset name, amount as `rust_decimal` prints it).
    pub fn to_texts(&self) -> (r: Vec<(String, String)>)
        requires
            self.wf(),
        ensures
            r@.len() == self.entries@.len(),
            forall|i: int| 0 <= i < r@.len() ==> (#[trigger] r@[i]).0@ == self.entries@[i].0.name()
                && r@[i].1@ == decimal_text(self.entries@[i].1),
            Self::parse_entries(r@) == Some(self@),
    {
        let mut out: Vec<(String, String)> = Vec::new();
        let mut i: usize = 0;
        proof {
            assert(self.entries@.take(0) =~= Seq::<(Asset, Dec)>::empty());
        }
        while i < self.entries.len()
            invariant
                self.wf(),
                i <= self.entries@.len(),
                out@.len() == i,
                forall|j: int| 0 <= j < i ==> (#[trigger] out@[j]).0@ == self.entries@[j].0.name()
                    && out@[j].1@ == decimal_text(self.entries@[j].1),
                Self::parse_entries(out@) == Some(balances_map(self.entries@.take(i as int))),
            decreases self.entries@.len() - i,
        {
            proof {
                assert(self.entries@[i as int].1.wf());
            }
            let (asset, amount) = self.entries[i];
            let name = asset.to_string();
            let text = to_text(amount);
            let ghost before = out@;
            out.push((name, text));
            proof {
                lemma_asset_parse_name(asset);
                assert(out@.drop_last() =~= before);
                assert(self.entries@.take(i + 1).drop_last() =~= self.entries@.take(i as int));
            }
            i = i + 1;
        }
        proof {
            assert(self.entries@.take(i as int) =~= self.entries@);
        }
        out
    }
}

/// Once an entry fails to parse, the whole list does.
proof fn lemma_parse_entries_none_extends(s: Seq<(String, String)>, n: int)
    requires
        0 <= n <= s.len(),
        Balances::parse_entries(s.take(n)) is None,
    ensures
        Balances::parse_entries(s) is None,
    decreases s.len() - n,
{
    if n < s.len() {
        assert(s.take(n + 1).drop_last() =~= s.take(n));
        lemma_parse_entries_none_extends(s, n + 1);
    } else {
        assert(s.take(n) =~= s);
    }
}


/// A user's balances and the part of them locked by open orders.
pub struct User {
    pub id: u64,
    pub balance: Balances,
    pub locked_balance: Balances,
}

impl User {
    /// Both balance lists are well formed.
    pub open spec fn wf(&self) -> bool {
        self.balance.wf() && self.locked_balance.wf()
    }
}

/// The locked balances after taking each amount of `unlocks` in turn off
/// the locked balance of its asset; `None` when an asset has no locked
/// balance or a difference overflows.
pub open spec fn unlocked(locked: Map<Asset, Dec>, unlocks: Seq<(Asset, Dec)>) -> Option<Map<Asset, Dec>>
    decreases unlocks.len(),
{
    if unlocks.len() == 0 {
        Some(locked)
    } else {
        match unlocked(locked, unlocks.drop_last()) {
            None => None,
            Some(m) => {
                let (a, q) = unlocks.last();
                if m.contains_key(a) {
                    match decimal_difference(m[a], q) {
                        Some(d) => Some(m.insert(a, d)),
                        None => None,
                    }
                } else {
                    None
                }
            },
        }
    }
}

/// Every user, by id.
pub struct Users {
    pub users: HashMap<u64, User>,
}

impl Users {
    /// Every user's balances are well formed and kept under its own id.
    pub open spec fn wf(&self) -> bool {
        forall|k: u64| #[trigger] self.users@.contains_key(k) ==> self.users@[k].wf() && self.users@[k].id == k
    }

    /// Takes the user `user_id` out, to be put back with `put`.
    fn take(&mut self, user_id: u64) -> (r: Option<User>)
        requires
            old(self).wf(),
        ensures
            match r {
                None => !old(self).users@.contains_key(user_id) && final(self).users@ == old(self).users@,
                Some(u) => old(self).users@.contains_key(user_id) && u == old(self).users@[user_id]
                    && final(self).users@ == old(self).users@.remove(user_id),
            },
            final(self).wf(),
    {
        broadcast use vstd::std_specs::hash::group_hash_axioms;

        let r = self.users.remove(&user_id);
        proof {
            if r is None {
                assert(self.users@ =~= old(self).users@);
            }
        }
        r
    }

    /// Puts `user` under its id, in place of any user held there.
    pub fn insert(&mut self, user: User)
        requires
            old(self).wf(),
            user.wf(),
        ensures
            final(self).users@ == old(self).users@.insert(user.id, user),
            final(self).wf(),
    {
        broadcast use vstd::std_specs::hash::group_hash_axioms;

        let id = user.id;
        self.users.insert(id, user);
    }

    /// Takes `quantity` off the locked balance of `asset` of the user
    /// `user_id`.
    pub fn unlock_amount(&mut self, asset: &Asset, user_id: u64, quantity: Dec)
        requires
            old(self).wf(),
            quantity.wf(),
            old(self).users@.contains_key(user_id),
            unlocked(old(self).users@[user_id].locked_balance@, seq![(*asset, quantity)]) is Some,
        ensures
            final(self).wf(),
            final(self).users@.dom() == old(self).users@.dom(),
            forall|k: u64| k != user_id && #[trigger] old(self).users@.contains_key(k) ==> final(self).users@[k] == old(self).users@[k],
            final(self).users@[user_id].balance@ == old(self).users@[user_id].balance@,
            final(self).users@[user_id].locked_balance@ == unlocked(
                old(self).users@[user_id].locked_balance@,
                seq![(*asset, quantity)],
            ).unwrap(),
    {
        let unlocks = vec![(*asset, quantity)];
        proof {
            assert(unlocks@ =~= seq![(*asset, quantity)]);
        }
        let _ = self.try_unlock(user_id, &unlocks);
    }

    /// Takes each amount of `unlocks` off the locked balance of its asset
    /// of the user `user_id` (see `unlocked`), or gives `false` and leaves
    /// the users as they were when there is no such user or that fails.
    pub fn try_unlock(&mut self, user_id: u64, unlocks: &Vec<(Asset, Dec)>) -> (ok: bool)
        requires
            old(self).wf(),
            forall|i: int| 0 <= i < unlocks@.len() ==> (#[trigger] unlocks@[i]).1.wf(),
        ensures
            final(self).wf(),
            ok == (old(self).users@.contains_key(user_id) && unlocked(
                old(self).users@[user_id].locked_balance@,
                unlocks@,
            ) is Some),
            !ok ==> final(self).users@ == old(self).users@,
            ok ==> {
                &&& final(self).users@.dom() == old(self).users@.dom()
                &&& forall|k: u64| k != user_id && #[trigger] old(self).users@.contains_key(k) ==> final(self).users@[k]
                    == old(self).users@[k]
                &&& final(self).users@[user_id].balance@ == old(self).users@[user_id].balance@
                &&& final(self).users@[user_id].locked_balance@ == unlocked(
                    old(self).users@[user_id].locked_balance@,
                    unlocks@,
                ).unwrap()
                &&& unlocks@.len() == 0 ==> final(self).users@[user_id] == old(self).users@[user_id]
            },
    {
        broadcast use vstd::std_specs::hash::group_hash_axioms;

        let user = match self.take(user_id) {
            Some(u) => u,
            None => return false,
        };
        let ghost start = user.locked_balance@;
        let mut locked = user.locked_balance.copy();
        proof {
            assert(unlocks@.take(0) =~= Seq::<(Asset, Dec)>::empty());
        }
        let mut i: usize = 0;
        while i < unlocks.len()
            invariant
                locked.wf(),
                self.wf(),
                old(self).users@.contains_key(user_id),
                user == old(self).users@[user_id],
                user.wf(),
                user.id == user_id,
                start == user.locked_balance@,
                self.users@ == old(self).users@.remove(user_id),
                i <= unlocks@.len(),
                forall|j: int| 0 <= j < unlocks@.len() ==> (#[trigger] unlocks@[j]).1.wf(),
                unlocked(start, unlocks@.take(i as int)) == Some(locked@),
            decreases unlocks@.len() - i,
        {
            let (asset, quantity) = unlocks[i];
            proof {
                assert(unlocks@.take(i + 1).drop_last() =~= unlocks@.take(i as int));
                assert(unlocks@[i as int].1.wf());
            }
            let current = match locked.get(&asset) {
                Some(c) => c,
                None => {
                    proof {
                        lemma_unlocked_none_extends(start, unlocks@, i + 1);
                    }
                    self.insert(user);
                    proof {
                        assert(self.users@ =~= old(self).users@);
                    }
                    return false;
                },
            };
            match checked_sub(current, quantity) {
                Some(d) => {
                    locked.insert(asset, d);
                },
                None => {
                    proof {
                        lemma_unlocked_none_extends(start, unlocks@, i + 1);
                    }
                    self.insert(user);
                    proof {
                        assert(self.users@ =~= old(self).users@);
                    }
                    return false;
                },
            }
            i = i + 1;
        }
        proof {
            assert(unlocks@.take(i as int) =~= unlocks@);
        }
        if unlocks.len() == 0 {
            self.insert(user);
            proof {
                assert(self.users@ =~= old(self).users@);
            }
            return true;
        }
        let updated = User { id: user.id, balance: user.balance, locked_balance: locked };
        self.insert(updated);
        proof {
            assert(self.users@.dom() =~= old(self).users@.dom());
        }
        true
    }
}

/// Once unlocking fails, unlocking more fails too.
proof fn lemma_unlocked_none_extends(locked: Map<Asset, Dec>, s: Seq<(Asset, Dec)>, n: int)
    requires
        0 <= n <= s.len(),
        unlocked(locked, s.take(n)) is None,
    ensures
        unlocked(locked, s) is None,
    decreases s.len() - n,
{
    if n < s.len() {
        assert(s.take(n + 1).drop_last() =~= s.take(n));
        lemma_unlocked_none_extends(locked, s, n + 1);
    } else {
        assert(s.take(n) =~= s);
    }
}

/// A stored user: the entries of its balance maps, each an asset name with
/// the amount as text.
pub struct ScyllaUser {
    pub id: i64,
    pub balance: Vec<(String, String)>,
    pub locked_balance: Vec<(String, String)>,
}

impl ScyllaUser {
    /// Both balance lists of the row parse (see `Balances::parse_entries`).
    pub open spec fn parses(&self) -> bool {
        &&& Balances::parse_entries(self.balance@) is Some
        &&& Balances::parse_entries(self.locked_balance@) is Some
    }

    /// `u` is the user that this row stores.
    pub open spec fn decodes_to(&self, u: User) -> bool {
        &&& u.wf()
        &&& u.id == self.id as u64
        &&& Balances::parse_entries(self.balance@) == Some(u.balance@)
        &&& Balances::parse_entries(self.locked_balance@) == Some(u.locked_balance@)
    }

    /// The user that this row stores.
    pub fn from_scylla_user(&self) -> (u: User)
        requires
            self.parses(),
        ensures
            self.decodes_to(u),
    {
        match self.try_from_scylla_user() {
            Some(u) => u,
            None => User { id: self.id as u64, balance: Balances::new(), locked_balance: Balances::new() },
        }
    }

    /// The user that this row stores, or `None` when an entry does not
    /// parse.
    pub fn try_from_scylla_user(&self) -> (r: Option<User>)
        ensures
            match r {
                None => !self.parses(),
                Some(u) => self.parses() && self.decodes_to(u),
            },
    {
        let balance = match Balances::from_texts(&self.balance) {
            Some(b) => b,
            None => return None,
        };
        let locked_balance = match Balances::from_texts(&self.locked_balance) {
            Some(b) => b,
            None => return None,
        };
        Some(User { id: self.id as u64, balance, locked_balance })
    }
}

} // verus!
