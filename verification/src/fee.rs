use crate::error::RegistryError;
use vstd::prelude::*;

verus! {

/// Mathematical model of the fee ledger: the minimum-existence threshold and
/// the balances of every account that has ever been funded.
pub ghost struct LedgerView {
    pub min_balance: u64,
    pub balances: Map<u64, u64>,
}

impl LedgerView {
    /// Balance of an account; an account never funded holds zero.
    pub open spec fn balance_of(self, account: u64) -> u64 {
        if self.balances.contains_key(account) {
            self.balances[account]
        } else {
            0
        }
    }

    /// A withdrawal succeeds exactly when the debited balance would stay at
    /// or above the minimum-existence threshold.
    pub open spec fn can_withdraw(self, account: u64, amount: int) -> bool {
        self.balance_of(account) - amount >= self.min_balance
    }

    /// The ledger after a successful withdrawal of `amount` from `account`.
    pub open spec fn withdrawn(self, account: u64, amount: int) -> LedgerView {
        LedgerView {
            min_balance: self.min_balance,
            balances: self.balances.insert(account, (self.balance_of(account) - amount) as u64),
        }
    }

    /// The ledger after a deposit of `amount` into `account`.
    pub open spec fn deposited(self, account: u64, amount: u64) -> LedgerView {
        LedgerView {
            min_balance: self.min_balance,
            balances: self.balances.insert(account, (self.balance_of(account) + amount) as u64),
        }
    }
}

/// The balances held by a sequence of (account, balance) entries, later
/// entries taking precedence.
pub open spec fn balances_of(s: Seq<(u64, u64)>) -> Map<u64, u64>
    decreases s.len(),
{
    if s.len() == 0 {
        Map::empty()
    } else {
        balances_of(s.drop_last()).insert(s.last().0, s.last().1)
    }
}

/// Some entry of `s` carries account `k`.
pub open spec fn has_account(s: Seq<(u64, u64)>, k: u64) -> bool {
    exists|i: int| 0 <= i < s.len() && s[i].0 == k
}

/// Entries carry pairwise distinct accounts.
pub open spec fn distinct_accounts(s: Seq<(u64, u64)>) -> bool {
    forall|i: int, j: int| 0 <= i < j < s.len() ==> s[i].0 != s[j].0
}

proof fn lemma_balances_contains(s: Seq<(u64, u64)>)
    ensures
        forall|k: u64| #[trigger] balances_of(s).contains_key(k) <==> has_account(s, k),
    decreases s.len(),
{
    if s.len() > 0 {
        lemma_balances_contains(s.drop_last());
        assert forall|k: u64| #[trigger] balances_of(s).contains_key(k) implies has_account(s, k) by {
            if k == s.last().0 {
                assert(s[s.len() - 1].0 == k);
            } else {
                assert(balances_of(s.drop_last()).contains_key(k));
                assert(has_account(s.drop_last(), k));
                let i = choose|i: int| 0 <= i < s.drop_last().len() && s.drop_last()[i].0 == k;
                assert(s[i].0 == k);
            }
        }
        assert forall|k: u64| has_account(s, k) implies #[trigger] balances_of(s).contains_key(k) by {
            let i = choose|i: int| 0 <= i < s.len() && s[i].0 == k;
            if i < s.len() - 1 {
                assert(s.drop_last()[i].0 == k);
                assert(has_account(s.drop_last(), k));
                assert(balances_of(s.drop_last()).contains_key(k));
            } else {
                assert(k == s.last().0);
            }
        }
    }
}

proof fn lemma_balances_index(s: Seq<(u64, u64)>, i: int)
    requires
        distinct_accounts(s),
        0 <= i < s.len(),
    ensures
        balances_of(s).contains_key(s[i].0),
        balances_of(s)[s[i].0] == s[i].1,
    decreases s.len(),
{
    if i < s.len() - 1 {
        lemma_balances_index(s.drop_last(), i);
        assert(s.drop_last()[i] == s[i]);
    }
}

proof fn lemma_balances_update(s: Seq<(u64, u64)>, i: int, v: u64)
    requires
        distinct_accounts(s),
        0 <= i < s.len(),
    ensures
        balances_of(s.update(i, (s[i].0, v))) == balances_of(s).insert(s[i].0, v),
        distinct_accounts(s.update(i, (s[i].0, v))),
    decreases s.len(),
{
    let t = s.update(i, (s[i].0, v));
    if i == s.len() - 1 {
        assert(t.drop_last() =~= s.drop_last());
        assert(balances_of(t) =~= balances_of(s).insert(s[i].0, v));
    } else {
        lemma_balances_update(s.drop_last(), i, v);
        assert(t.drop_last() =~= s.drop_last().update(i, (s[i].0, v)));
        assert(t.last() == s.last());
        assert(s[i].0 != s.last().0);
        assert(balances_of(t) =~= balances_of(s).insert(s[i].0, v));
    }
}

proof fn lemma_balances_push(s: Seq<(u64, u64)>, k: u64, v: u64)
    requires
        distinct_accounts(s),
        !has_account(s, k),
    ensures
        balances_of(s.push((k, v))) == balances_of(s).insert(k, v),
        distinct_accounts(s.push((k, v))),
{
    assert(s.push((k, v)).drop_last() =~= s);
    assert forall|i: int, j: int|
        0 <= i < j < s.push((k, v)).len() implies s.push((k, v))[i].0 != s.push((k, v))[j].0 by {
        if j == s.len() {
            assert(s[i].0 != k);
        }
    }
}

/// The fee ledger: account balances with an all-or-nothing `withdraw` that
/// keeps every debited account at or above a minimum-existence threshold.
pub struct FeeLedger {
    min_balance: u64,
    accounts: Vec<(u64, u64)>,
}

impl View for FeeLedger {
    type V = LedgerView;

    closed spec fn view(&self) -> LedgerView {
        LedgerView { min_balance: self.min_balance, balances: balances_of(self.accounts@) }
    }
}

impl FeeLedger {
    /// Internal invariant: one entry per account.
    pub closed spec fn wf(&self) -> bool {
        distinct_accounts(self.accounts@)
    }

    /// An empty ledger with the given minimum-existence threshold.
    pub fn new(min_balance: u64) -> (r: Self)
        ensures
            r.wf(),
            r@ == (LedgerView { min_balance, balances: Map::<u64, u64>::empty() }),
    {
        FeeLedger { min_balance, accounts: Vec::new() }
    }

    /// Index of the entry for `account`, if one exists.
    fn find(&self, account: u64) -> (r: Option<usize>)
        ensures
            match r {
                Some(i) => i < self.accounts@.len() && self.accounts@[i as int].0 == account,
                None => !has_account(self.accounts@, account),
            },
    {
        let mut i: usize = 0;
        while i < self.accounts.len()
            invariant
                i <= self.accounts@.len(),
                forall|j: int| 0 <= j < i ==> self.accounts@[j].0 != account,
            decreases self.accounts@.len() - i,
        {
            if self.accounts[i].0 == account {
                return Some(i);
            }
            i = i + 1;
        }
        None
    }

    /// The balance currently held by `account`.
    pub fn balance_of(&self, account: u64) -> (r: u64)
        requires
            self.wf(),
        ensures
            r == self@.balance_of(account),
    {
        proof {
            lemma_balances_contains(self.accounts@);
        }
        match self.find(account) {
            Some(i) => {
                proof {
                    lemma_balances_index(self.accounts@, i as int);
                }
                self.accounts[i].1
            },
            None => 0,
        }
    }

    /// Credits `amount` to `account`, creating the account if needed.
    pub fn deposit(&mut self, account: u64, amount: u64)
        requires
            old(self).wf(),
            old(self)@.balance_of(account) + amount <= u64::MAX,
        ensures
            final(self).wf(),
            final(self)@ == old(self)@.deposited(account, amount),
    {
        proof {
            lemma_balances_contains(self.accounts@);
        }
        match self.find(account) {
            Some(i) => {
                proof {
                    lemma_balances_index(self.accounts@, i as int);
                    lemma_balances_update(self.accounts@, i as int, (self.accounts@[i as int].1 + amount) as u64);
                }
                let cur = self.accounts[i].1;
                self.accounts[i] = (account, cur + amount);
            },
            None => {
                proof {
                    lemma_balances_push(self.accounts@, account, amount);
                }
                self.accounts.push((account, amount));
            },
        }
    }

    /// Debits `amount` from `account` if the remaining balance stays at or
    /// above the minimum-existence threshold; otherwise debits nothing.
    pub fn withdraw(&mut self, account: u64, amount: u64) -> (r: Result<(), RegistryError>)
        requires
            old(self).wf(),
        ensures
            final(self).wf(),
            r is Ok <==> old(self)@.can_withdraw(account, amount as int),
            r is Ok ==> final(self)@ == old(self)@.withdrawn(account, amount as int),
            r is Err ==> final(self)@ == old(self)@ && r == Err::<(), RegistryError>(
                RegistryError::InsufficientFunds,
            ),
    {
        proof {
            lemma_balances_contains(self.accounts@);
        }
        match self.find(account) {
            Some(i) => {
                proof {
                    lemma_balances_index(self.accounts@, i as int);
                }
                let cur = self.accounts[i].1;
                if cur >= amount && cur - amount >= self.min_balance {
                    proof {
                        lemma_balances_update(self.accounts@, i as int, (cur - amount) as u64);
                    }
                    self.accounts[i] = (account, cur - amount);
                    Ok(())
                } else {
                    Err(RegistryError::InsufficientFunds)
                }
            },
            None => {
                if amount == 0 && self.min_balance == 0 {
                    proof {
                        lemma_balances_push(self.accounts@, account, 0);
                    }
                    self.accounts.push((account, 0));
                    Ok(())
                } else {
                    Err(RegistryError::InsufficientFunds)
                }
            },
        }
    }
}

} // verus!
