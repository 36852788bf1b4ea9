use vstd::prelude::*;
use crate::error::TokenError;

verus! {

/// A registered account as the contracts see it: its identifier and its balance.
pub type Entry = (Seq<char>, nat);

/// No identifier is registered twice.
pub open spec fn keys_unique(s: Seq<Entry>) -> bool {
    forall|i: int, j: int|
        #![trigger s[i], s[j]]
        0 <= i < s.len() && 0 <= j < s.len() && i != j ==> s[i].0 != s[j].0
}

/// The sum of all balances held in `s`.
pub open spec fn sum_balances(s: Seq<Entry>) -> nat
    decreases s.len(),
{
    if s.len() == 0 {
        0
    } else {
        sum_balances(s.drop_last()) + s.last().1
    }
}

pub open spec fn registered_in(s: Seq<Entry>, k: Seq<char>) -> bool {
    exists|i: int| 0 <= i < s.len() && #[trigger] s[i].0 == k
}

/// The balance of `k`; an account that is not registered holds nothing.
pub open spec fn balance_in(s: Seq<Entry>, k: Seq<char>) -> nat {
    if registered_in(s, k) {
        s[choose|i: int| 0 <= i < s.len() && #[trigger] s[i].0 == k].1
    } else {
        0
    }
}

/// The registered accounts and their balances.
pub open spec fn balance_map(s: Seq<Entry>) -> Map<Seq<char>, nat> {
    Map::new(|k: Seq<char>| registered_in(s, k), |k: Seq<char>| balance_in(s, k))
}

proof fn lemma_balance_at(s: Seq<Entry>, i: int)
    requires
        keys_unique(s),
        0 <= i < s.len(),
    ensures
        registered_in(s, s[i].0),
        balance_in(s, s[i].0) == s[i].1,
{
    assert(s[i].0 == s[i].0);
    let j = choose|j: int| 0 <= j < s.len() && #[trigger] s[j].0 == s[i].0;
    assert(j == i);
}

proof fn lemma_sum_update(s: Seq<Entry>, i: int, e: Entry)
    requires
        0 <= i < s.len(),
    ensures
        sum_balances(s.update(i, e)) == sum_balances(s) - s[i].1 + e.1,
    decreases s.len(),
{
    let t = s.update(i, e);
    if i == s.len() - 1 {
        assert(t.drop_last() =~= s.drop_last());
    } else {
        assert(t.drop_last() =~= s.drop_last().update(i, e));
        lemma_sum_update(s.drop_last(), i, e);
    }
}

proof fn lemma_pair_le_sum(s: Seq<Entry>, i: int, j: int)
    requires
        0 <= i < s.len(),
        0 <= j < s.len(),
        i != j,
    ensures
        s[i].1 + s[j].1 <= sum_balances(s),
    decreases s.len(),
{
    let n = s.len() - 1;
    if i == n {
        lemma_entry_le_sum(s.drop_last(), j);
    } else if j == n {
        lemma_entry_le_sum(s.drop_last(), i);
    } else {
        lemma_pair_le_sum(s.drop_last(), i, j);
    }
}

proof fn lemma_entry_le_sum(s: Seq<Entry>, i: int)
    requires
        0 <= i < s.len(),
    ensures
        s[i].1 <= sum_balances(s),
    decreases s.len(),
{
    if i < s.len() - 1 {
        lemma_entry_le_sum(s.drop_last(), i);
    }
}

proof fn lemma_update_balance(s: Seq<Entry>, i: int, v: nat)
    requires
        keys_unique(s),
        0 <= i < s.len(),
    ensures
        keys_unique(s.update(i, (s[i].0, v))),
        sum_balances(s.update(i, (s[i].0, v))) == sum_balances(s) - s[i].1 + v,
        balance_map(s.update(i, (s[i].0, v))) == balance_map(s).insert(s[i].0, v),
{
    let k0 = s[i].0;
    let t = s.update(i, (k0, v));
    lemma_sum_update(s, i, (k0, v));
    assert forall|x: int| 0 <= x < t.len() implies #[trigger] t[x].0 == s[x].0 by {}
    assert(keys_unique(t)) by {
        assert forall|a: int, b: int|
            #![trigger t[a], t[b]]
            0 <= a < t.len() && 0 <= b < t.len() && a != b implies t[a].0 != t[b].0 by {
            assert(s[a].0 != s[b].0);
        }
    }
    assert forall|k: Seq<char>| #[trigger] registered_in(t, k) == registered_in(s, k) by {
        if registered_in(s, k) {
            let j = choose|j: int| 0 <= j < s.len() && #[trigger] s[j].0 == k;
            assert(t[j].0 == k);
        }
        if registered_in(t, k) {
            let j = choose|j: int| 0 <= j < t.len() && #[trigger] t[j].0 == k;
            assert(s[j].0 == k);
        }
    }
    assert forall|k: Seq<char>| k != k0 implies #[trigger] balance_in(t, k) == balance_in(s, k) by {
        if registered_in(s, k) {
            let j = choose|j: int| 0 <= j < s.len() && #[trigger] s[j].0 == k;
            lemma_balance_at(s, j);
            lemma_balance_at(t, j);
        }
    }
    lemma_balance_at(t, i);
    lemma_balance_at(s, i);
    assert(balance_map(t) =~= balance_map(s).insert(k0, v));
}

proof fn lemma_push_entry(s: Seq<Entry>, k: Seq<char>, v: nat)
    requires
        keys_unique(s),
        !registered_in(s, k),
    ensures
        keys_unique(s.push((k, v))),
        sum_balances(s.push((k, v))) == sum_balances(s) + v,
        balance_map(s.push((k, v))) == balance_map(s).insert(k, v),
{
    let t = s.push((k, v));
    assert(t.drop_last() =~= s);
    assert(keys_unique(t)) by {
        assert forall|a: int, b: int|
            #![trigger t[a], t[b]]
            0 <= a < t.len() && 0 <= b < t.len() && a != b implies t[a].0 != t[b].0 by {
            if a == s.len() {
                assert(s[b].0 != k);
            } else if b == s.len() {
                assert(s[a].0 != k);
            } else {
                assert(s[a].0 != s[b].0);
            }
        }
    }
    assert forall|k2: Seq<char>| #[trigger] registered_in(t, k2) == (registered_in(s, k2) || k2 == k) by {
        if registered_in(s, k2) {
            let j = choose|j: int| 0 <= j < s.len() && #[trigger] s[j].0 == k2;
            assert(t[j].0 == k2);
        }
        if k2 == k {
            assert(t[s.len() as int].0 == k2);
        }
        if registered_in(t, k2) && k2 != k {
            let j = choose|j: int| 0 <= j < t.len() && #[trigger] t[j].0 == k2;
            assert(s[j].0 == k2);
        }
    }
    assert forall|k2: Seq<char>| k2 != k implies #[trigger] balance_in(t, k2) == balance_in(s, k2) by {
        if registered_in(s, k2) {
            let j = choose|j: int| 0 <= j < s.len() && #[trigger] s[j].0 == k2;
            lemma_balance_at(s, j);
            lemma_balance_at(t, j);
        }
    }
    lemma_balance_at(t, s.len() as int);
    assert(balance_map(t) =~= balance_map(s).insert(k, v));
}

proof fn lemma_swap_remove_entry(s: Seq<Entry>, i: int)
    requires
        keys_unique(s),
        0 <= i < s.len(),
    ensures
        keys_unique(s.update(i, s.last()).drop_last()),
        sum_balances(s.update(i, s.last()).drop_last()) == sum_balances(s) - s[i].1,
        balance_map(s.update(i, s.last()).drop_last()) == balance_map(s).remove(s[i].0),
{
    let n = s.len() - 1;
    let u = s.update(i, s.last());
    let t = u.drop_last();
    let k0 = s[i].0;
    lemma_sum_update(s, i, s.last());
    assert(u.last() == s.last());
    // where each remaining entry came from
    assert forall|x: int| 0 <= x < t.len() implies #[trigger] t[x] == s[if x == i { n } else { x }] by {}
    assert(keys_unique(t)) by {
        assert forall|a: int, b: int|
            #![trigger t[a], t[b]]
            0 <= a < t.len() && 0 <= b < t.len() && a != b implies t[a].0 != t[b].0 by {
            let sa = if a == i { n } else { a };
            let sb = if b == i { n } else { b };
            assert(s[sa].0 != s[sb].0);
        }
    }
    assert forall|k: Seq<char>| #[trigger] registered_in(t, k) == (registered_in(s, k) && k != k0) by {
        if registered_in(t, k) {
            let j = choose|j: int| 0 <= j < t.len() && #[trigger] t[j].0 == k;
            let sj = if j == i { n } else { j };
            assert(s[sj].0 == k);
            assert(s[sj].0 != s[i].0);
        }
        if registered_in(s, k) && k != k0 {
            let j = choose|j: int| 0 <= j < s.len() && #[trigger] s[j].0 == k;
            if j == n {
                assert(t[i].0 == k);
            } else {
                assert(t[j].0 == k);
            }
        }
    }
    assert forall|k: Seq<char>| k != k0 && registered_in(s, k) implies #[trigger] balance_in(t, k)
        == balance_in(s, k) by {
        let j = choose|j: int| 0 <= j < s.len() && #[trigger] s[j].0 == k;
        lemma_balance_at(s, j);
        if j == n {
            lemma_balance_at(t, i);
        } else {
            lemma_balance_at(t, j);
        }
    }
    assert(balance_map(t) =~= balance_map(s).remove(k0));
}

/// The balances of all registered accounts, and the total supply.
pub struct Ledger {
    accounts: Vec<(String, u128)>,
    total_supply: u128,
}

impl Ledger {
    /// The registered accounts in the order they were kept, with their balances.
    pub closed spec fn entries(&self) -> Seq<Entry> {
        self.accounts@.map_values(|e: (String, u128)| (e.0@, e.1 as nat))
    }

    pub closed spec fn supply(&self) -> nat {
        self.total_supply as nat
    }

    pub open spec fn balances(&self) -> Map<Seq<char>, nat> {
        balance_map(self.entries())
    }

    pub open spec fn registered(&self, k: Seq<char>) -> bool {
        registered_in(self.entries(), k)
    }

    pub open spec fn balance(&self, k: Seq<char>) -> nat {
        balance_in(self.entries(), k)
    }

    /// Identifiers are unique and the total supply is the sum of all balances.
    pub open spec fn wf(&self) -> bool {
        &&& keys_unique(self.entries())
        &&& self.supply() == sum_balances(self.entries())
        &&& self.supply() <= u128::MAX
    }

    /// An account is registered exactly when it is in the map of balances, and holds what the
    /// map gives it; one that is not registered holds nothing.
    pub proof fn lemma_balances(&self, k: Seq<char>)
        ensures
            self.registered(k) == self.balances().dom().contains(k),
            self.registered(k) ==> self.balance(k) == self.balances()[k],
            !self.registered(k) ==> self.balance(k) == 0,
    {
    }

    /// In every well-formed ledger, and so after every operation, the total supply is the sum
    /// of the balances of the registered accounts, each counted once.
    pub proof fn lemma_supply_is_sum(&self)
        requires
            self.wf(),
        ensures
            self.supply() == sum_balances(self.entries()),
            keys_unique(self.entries()),
            self.balances() == balance_map(self.entries()),
    {
    }

    proof fn lemma_entry_view(&self, i: int)
        requires
            0 <= i < self.accounts.len(),
        ensures
            self.entries().len() == self.accounts.len(),
            self.entries()[i] == (self.accounts@[i].0@, self.accounts@[i].1 as nat),
    {
    }

    /// An empty ledger.
    pub fn new() -> (r: Ledger)
        ensures
            r.wf(),
            r.balances() == Map::<Seq<char>, nat>::empty(),
            r.supply() == 0,
    {
        let r = Ledger { accounts: Vec::new(), total_supply: 0 };
        assert(r.entries() =~= Seq::<Entry>::empty());
        assert(balance_map(r.entries()) =~= Map::<Seq<char>, nat>::empty());
        r
    }

    fn find(&self, account: &String) -> (r: Option<usize>)
        ensures
            match r {
                Some(i) => i < self.accounts.len() && self.entries()[i as int].0 == account@,
                None => !self.registered(account@),
            },
    {
        let mut i: usize = 0;
        while i < self.accounts.len()
            invariant
                i <= self.accounts.len(),
                forall|j: int| 0 <= j < i ==> #[trigger] self.entries()[j].0 != account@,
            decreases self.accounts.len() - i,
        {
            proof {
                self.lemma_entry_view(i as int);
            }
            if self.accounts[i].0 == *account {
                return Some(i);
            }
            i += 1;
        }
        proof {
            if self.registered(account@) {
                let j = choose|j: int|
                    0 <= j < self.entries().len() && #[trigger] self.entries()[j].0 == account@;
                self.lemma_entry_view(j);
            }
        }
        None
    }

    /// Whether `account` is registered.
    pub fn is_registered(&self, account: &String) -> (r: bool)
        ensures
            r == self.registered(account@),
    {
        self.find(account).is_some()
    }

    /// The balance of `account`: zero where it is not registered.
    pub fn balance_of(&self, account: &String) -> (r: u128)
        requires
            self.wf(),
        ensures
            r == self.balance(account@),
            !self.registered(account@) ==> r == 0,
    {
        match self.find(account) {
            Some(i) => {
                proof {
                    self.lemma_entry_view(i as int);
                    lemma_balance_at(self.entries(), i as int);
                }
                self.accounts[i].1
            },
            None => 0,
        }
    }

    /// The sum of all balances.
    pub fn total_supply(&self) -> (r: u128)
        ensures
            r == self.supply(),
    {
        self.total_supply
    }

    /// Sets the balance kept at index `i`, and the total supply, to new values.
    fn set_balance(&mut self, i: usize, balance: u128, total_supply: u128)
        requires
            old(self).wf(),
            i < old(self).accounts.len(),
            total_supply == old(self).supply() - old(self).entries()[i as int].1 + balance,
        ensures
            final(self).wf(),
            final(self).balances() == old(self).balances().insert(
                old(self).entries()[i as int].0,
                balance as nat,
            ),
            final(self).supply() == total_supply,
            final(self).accounts.len() == old(self).accounts.len(),
            final(self).entries()[i as int].0 == old(self).entries()[i as int].0,
            final(self).entries()[i as int].1 == balance,
            forall|j: int|
                0 <= j < old(self).accounts.len() && j != i ==> #[trigger] final(self).entries()[j]
                    == old(self).entries()[j],
    {
        proof {
            self.lemma_entry_view(i as int);
            lemma_update_balance(self.entries(), i as int, balance as nat);
        }
        let ghost before = self.entries();
        let name = self.accounts[i].0.clone();
        self.accounts.set(i, (name, balance));
        self.total_supply = total_supply;
        assert(self.entries() =~= before.update(i as int, (before[i as int].0, balance as nat)));
    }

    /// Registers `account` with a zero balance.
    pub fn register(&mut self, account: &String) -> (r: Result<(), TokenError>)
        requires
            old(self).wf(),
        ensures
            final(self).wf(),
            match r {
                Ok(()) => {
                    &&& !old(self).registered(account@)
                    &&& final(self).balances() == old(self).balances().insert(account@, 0)
                    &&& final(self).supply() == old(self).supply()
                },
                Err(e) => {
                    &&& e == TokenError::AlreadyRegistered
                    &&& old(self).registered(account@)
                    &&& *final(self) == *old(self)
                },
            },
    {
        if self.is_registered(account) {
            return Err(TokenError::AlreadyRegistered);
        }
        proof {
            lemma_push_entry(self.entries(), account@, 0);
        }
        let ghost before = self.entries();
        self.accounts.push((account.clone(), 0));
        assert(self.entries() =~= before.push((account@, 0nat)));
        Ok(())
    }

    /// Adds `amount` to the balance of `account` and to the total supply.
    pub fn deposit(&mut self, account: &String, amount: u128) -> (r: Result<(), TokenError>)
        requires
            old(self).wf(),
        ensures
            final(self).wf(),
            match r {
                Ok(()) => {
                    &&& old(self).registered(account@)
                    &&& old(self).supply() + amount <= u128::MAX
                    &&& final(self).balances() == old(self).balances().insert(
                        account@,
                        (old(self).balance(account@) + amount) as nat,
                    )
                    &&& final(self).supply() == old(self).supply() + amount
                },
                Err(e) => {
                    &&& *final(self) == *old(self)
                    &&& e == TokenError::NotRegistered ==> !old(self).registered(account@)
                    &&& e == TokenError::Overflow ==> old(self).registered(account@)
                        && old(self).supply() + amount > u128::MAX
                    &&& (e == TokenError::NotRegistered || e == TokenError::Overflow)
                },
            },
    {
        match self.find(account) {
            None => Err(TokenError::NotRegistered),
            Some(i) => {
                proof {
                    self.lemma_entry_view(i as int);
                    lemma_balance_at(self.entries(), i as int);
                    lemma_entry_le_sum(self.entries(), i as int);
                }
                match self.total_supply.checked_add(amount) {
                    None => Err(TokenError::Overflow),
                    Some(total) => {
                        let balance = self.accounts[i].1 + amount;
                        self.set_balance(i, balance, total);
                        Ok(())
                    },
                }
            },
        }
    }

    /// Takes `amount` from the balance of `account` and from the total supply.
    pub fn withdraw(&mut self, account: &String, amount: u128) -> (r: Result<(), TokenError>)
        requires
            old(self).wf(),
        ensures
            final(self).wf(),
            match r {
                Ok(()) => {
                    &&& old(self).registered(account@)
                    &&& amount <= old(self).balance(account@)
                    &&& final(self).balances() == old(self).balances().insert(
                        account@,
                        (old(self).balance(account@) - amount) as nat,
                    )
                    &&& final(self).supply() == old(self).supply() - amount
                },
                Err(e) => {
                    &&& e == TokenError::InsufficientBalance
                    &&& !old(self).registered(account@) || old(self).balance(account@) < amount
                    &&& *final(self) == *old(self)
                },
            },
    {
        match self.find(account) {
            None => Err(TokenError::InsufficientBalance),
            Some(i) => {
                proof {
                    self.lemma_entry_view(i as int);
                    lemma_balance_at(self.entries(), i as int);
                    lemma_entry_le_sum(self.entries(), i as int);
                }
                let balance = self.accounts[i].1;
                if balance < amount {
                    return Err(TokenError::InsufficientBalance);
                }
                let total = self.total_supply - amount;
                self.set_balance(i, balance - amount, total);
                Ok(())
            },
        }
    }

    /// Why a transfer of `amount` from `sender` to `receiver` is refused, if it is.
    pub open spec fn transfer_refusal(&self, sender: Seq<char>, receiver: Seq<char>, amount: nat) -> Option<
        TokenError,
    > {
        if amount == 0 || sender == receiver {
            Some(TokenError::InvalidTransfer)
        } else if !self.registered(sender) || self.balance(sender) < amount {
            Some(TokenError::InsufficientBalance)
        } else if !self.registered(receiver) {
            Some(TokenError::UnregisteredReceiver)
        } else {
            None
        }
    }

    /// Moves `amount` from `sender` to `receiver`; the total supply does not change.
    pub fn transfer(&mut self, sender: &String, receiver: &String, amount: u128) -> (r: Result<
        (),
        TokenError,
    >)
        requires
            old(self).wf(),
        ensures
            final(self).wf(),
            match r {
                Ok(()) => {
                    &&& old(self).transfer_refusal(sender@, receiver@, amount as nat) is None
                    &&& final(self).balances() == old(self).balances().insert(
                        sender@,
                        (old(self).balance(sender@) - amount) as nat,
                    ).insert(receiver@, (old(self).balance(receiver@) + amount) as nat)
                    &&& final(self).supply() == old(self).supply()
                    &&& final(self).balance(sender@) == old(self).balance(sender@) - amount
                    &&& final(self).balance(sender@) + final(self).balance(receiver@) == old(
                        self,
                    ).balance(sender@) + old(self).balance(receiver@)
                },
                Err(e) => {
                    &&& old(self).transfer_refusal(sender@, receiver@, amount as nat) == Some(e)
                    &&& *final(self) == *old(self)
                },
            },
    {
        if amount == 0 || *sender == *receiver {
            return Err(TokenError::InvalidTransfer);
        }
        let si = match self.find(sender) {
            None => {
                return Err(TokenError::InsufficientBalance);
            },
            Some(i) => i,
        };
        proof {
            self.lemma_entry_view(si as int);
            lemma_balance_at(self.entries(), si as int);
        }
        let sb = self.accounts[si].1;
        if sb < amount {
            return Err(TokenError::InsufficientBalance);
        }
        let ri = match self.find(receiver) {
            None => {
                return Err(TokenError::UnregisteredReceiver);
            },
            Some(i) => i,
        };
        proof {
            self.lemma_entry_view(ri as int);
            lemma_balance_at(self.entries(), ri as int);
            lemma_pair_le_sum(self.entries(), si as int, ri as int);
        }
        let rb = self.accounts[ri].1;
        let total = self.total_supply;
        self.set_balance(si, sb - amount, total - amount);
        self.set_balance(ri, rb + amount, total);
        assert(self.balances().dom().contains(sender@));
        assert(self.balances().dom().contains(receiver@));
        assert(self.balance(sender@) == self.balances()[sender@]);
        assert(self.balance(receiver@) == self.balances()[receiver@]);
        Ok(())
    }

    /// Removes `account` from the ledger; what it held leaves the total supply.
    pub fn remove(&mut self, account: &String) -> (r: Option<u128>)
        requires
            old(self).wf(),
        ensures
            final(self).wf(),
            match r {
                Some(b) => {
                    &&& old(self).registered(account@)
                    &&& b == old(self).balance(account@)
                    &&& final(self).balances() == old(self).balances().remove(account@)
                    &&& final(self).supply() == old(self).supply() - b
                },
                None => !old(self).registered(account@) && *final(self) == *old(self),
            },
    {
        match self.find(account) {
            None => None,
            Some(i) => {
                proof {
                    self.lemma_entry_view(i as int);
                    lemma_balance_at(self.entries(), i as int);
                    lemma_entry_le_sum(self.entries(), i as int);
                    lemma_swap_remove_entry(self.entries(), i as int);
                }
                let ghost before = self.entries();
                let removed = self.accounts.swap_remove(i);
                let b = removed.1;
                self.total_supply = self.total_supply - b;
                assert(self.entries() =~= before.update(i as int, before.last()).drop_last());
                Some(b)
            },
        }
    }
}

} // verus!
