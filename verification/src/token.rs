//! A minimal token ledger: balances by account, minting and transfers.
//! Accounts are named by their address text; an account never credited has
//! balance zero.
use vstd::prelude::*;

verus! {

/// Some entry of the ledger belongs to account `k`.
pub open spec fn has_account(entries: Seq<(String, i128)>, k: Seq<char>) -> bool {
    exists|i: int| #![trigger entries[i]] 0 <= i < entries.len() && entries[i].0@ == k
}

/// The position of the entry of account `k`.
pub open spec fn account_index(entries: Seq<(String, i128)>, k: Seq<char>) -> int {
    choose|i: int| #![trigger entries[i]] 0 <= i < entries.len() && entries[i].0@ == k
}

/// No account has two entries.
pub open spec fn unique_accounts(entries: Seq<(String, i128)>) -> bool {
    forall|i: int, j: int|
        #![trigger entries[i], entries[j]]
        0 <= i < entries.len() && 0 <= j < entries.len() && i != j ==> entries[i].0@
            != entries[j].0@
}

/// The ledger's entries as a map from account to balance.
pub open spec fn balance_map(entries: Seq<(String, i128)>) -> Map<Seq<char>, i128> {
    Map::new(
        |k: Seq<char>| has_account(entries, k),
        |k: Seq<char>| entries[account_index(entries, k)].1,
    )
}

/// The balance of account `id`: zero for an account never credited.
pub open spec fn balance_of(m: Map<Seq<char>, i128>, id: Seq<char>) -> int {
    if m.contains_key(id) {
        m[id] as int
    } else {
        0
    }
}

/// Minting `amount` to `to`; `None` when the balance would overflow.
pub open spec fn mint_step(m: Map<Seq<char>, i128>, to: Seq<char>, amount: i128) -> Option<
    Map<Seq<char>, i128>,
> {
    let b = balance_of(m, to) + amount;
    if b < i128::MIN || b > i128::MAX {
        None
    } else {
        Some(m.insert(to, b as i128))
    }
}

/// Transferring `amount` from `from` to `to`: both balances are read first,
/// then `from` is written and then `to`, so a transfer to oneself credits
/// `amount`. `None` when a balance would overflow.
pub open spec fn transfer_step(
    m: Map<Seq<char>, i128>,
    from: Seq<char>,
    to: Seq<char>,
    amount: i128,
) -> Option<Map<Seq<char>, i128>> {
    let fb = balance_of(m, from) - amount;
    let tb = balance_of(m, to) + amount;
    if fb < i128::MIN || fb > i128::MAX || tb < i128::MIN || tb > i128::MAX {
        None
    } else {
        Some(m.insert(from, fb as i128).insert(to, tb as i128))
    }
}

proof fn lemma_ledger_lookup(entries: Seq<(String, i128)>, i: int)
    requires
        unique_accounts(entries),
        0 <= i < entries.len(),
    ensures
        balance_map(entries).contains_key(entries[i].0@),
        balance_map(entries)[entries[i].0@] == entries[i].1,
{
    let k = entries[i].0@;
    assert(has_account(entries, k));
    let j = account_index(entries, k);
    assert(entries[j].0@ == k);
    assert(j == i);
}

proof fn lemma_ledger_update(entries: Seq<(String, i128)>, i: int, e: (String, i128))
    requires
        unique_accounts(entries),
        0 <= i < entries.len(),
        e.0@ == entries[i].0@,
    ensures
        unique_accounts(entries.update(i, e)),
        balance_map(entries.update(i, e)) == balance_map(entries).insert(e.0@, e.1),
{
    let n = entries.update(i, e);
    let key = e.0@;
    assert forall|a: int, b: int|
        #![trigger n[a], n[b]]
        0 <= a < n.len() && 0 <= b < n.len() && a != b implies n[a].0@ != n[b].0@ by {
        assert(entries[a].0@ == n[a].0@);
        assert(entries[b].0@ == n[b].0@);
    }
    lemma_ledger_lookup(n, i);
    assert forall|k: Seq<char>| k != key implies #[trigger] has_account(n, k) == has_account(
        entries,
        k,
    ) by {
        if has_account(n, k) {
            let j = choose|j: int| #![trigger n[j]] 0 <= j < n.len() && n[j].0@ == k;
            assert(entries[j] == n[j]);
        }
        if has_account(entries, k) {
            let j = choose|j: int| #![trigger entries[j]] 0 <= j < entries.len() && entries[j].0@ == k;
            assert(entries[j] == n[j]);
        }
    }
    assert forall|k: Seq<char>| k != key && has_account(n, k) implies #[trigger] balance_map(n)[k]
        == balance_map(entries)[k] by {
        let j = account_index(n, k);
        assert(n[j].0@ == k);
        assert(entries[j] == n[j]);
        lemma_ledger_lookup(n, j);
        lemma_ledger_lookup(entries, j);
    }
    assert(balance_map(n) =~= balance_map(entries).insert(key, e.1));
}

proof fn lemma_ledger_push(entries: Seq<(String, i128)>, e: (String, i128))
    requires
        unique_accounts(entries),
        !has_account(entries, e.0@),
    ensures
        unique_accounts(entries.push(e)),
        balance_map(entries.push(e)) == balance_map(entries).insert(e.0@, e.1),
{
    let n = entries.push(e);
    let key = e.0@;
    assert forall|a: int, b: int|
        #![trigger n[a], n[b]]
        0 <= a < n.len() && 0 <= b < n.len() && a != b implies n[a].0@ != n[b].0@ by {
        if a < entries.len() {
            assert(n[a] == entries[a]);
        }
        if b < entries.len() {
            assert(n[b] == entries[b]);
        }
    }
    lemma_ledger_lookup(n, entries.len() as int);
    assert forall|k: Seq<char>| k != key implies #[trigger] has_account(n, k) == has_account(
        entries,
        k,
    ) by {
        if has_account(n, k) {
            let j = choose|j: int| #![trigger n[j]] 0 <= j < n.len() && n[j].0@ == k;
            assert(j < entries.len());
            assert(entries[j] == n[j]);
        }
        if has_account(entries, k) {
            let j = choose|j: int| #![trigger entries[j]] 0 <= j < entries.len() && entries[j].0@ == k;
            assert(entries[j] == n[j]);
        }
    }
    assert forall|k: Seq<char>| k != key && has_account(n, k) implies #[trigger] balance_map(n)[k]
        == balance_map(entries)[k] by {
        let j = account_index(n, k);
        assert(n[j].0@ == k);
        assert(j < entries.len());
        assert(entries[j] == n[j]);
        lemma_ledger_lookup(n, j);
        lemma_ledger_lookup(entries, j);
    }
    assert(balance_map(n) =~= balance_map(entries).insert(key, e.1));
}

/// A token ledger with a fixed name, symbol and precision, and an unlimited
/// allowance for everyone.
pub struct TestToken {
    pub balances: Vec<(String, i128)>,
}

impl View for TestToken {
    type V = Map<Seq<char>, i128>;

    open spec fn view(&self) -> Map<Seq<char>, i128> {
        balance_map(self.balances@)
    }
}

impl TestToken {
    /// No account has two entries.
    pub open spec fn wf(&self) -> bool {
        unique_accounts(self.balances@)
    }

    /// A ledger where every balance is zero.
    pub fn new() -> (t: Self)
        ensures
            t.wf(),
            t@ == Map::<Seq<char>, i128>::empty(),
    {
        let t = TestToken { balances: Vec::new() };
        assert(t@ =~= Map::<Seq<char>, i128>::empty());
        t
    }

    /// The entry of account `id`, if it has one.
    fn find(&self, id: &String) -> (r: Option<usize>)
        ensures
            match r {
                Some(i) => i < self.balances@.len() && self.balances@[i as int].0@ == id@,
                None => !has_account(self.balances@, id@),
            },
    {
        let n = self.balances.len();
        let mut i: usize = 0;
        while i < n
            invariant
                n == self.balances@.len(),
                i <= n,
                forall|j: int| 0 <= j < i ==> self.balances@[j].0@ != id@,
            decreases n - i,
        {
            if self.balances[i].0 == *id {
                return Some(i);
            }
            i = i + 1;
        }
        None
    }

    /// The balance of account `id`.
    pub fn balance(&self, id: &String) -> (b: i128)
        requires
            self.wf(),
        ensures
            b == balance_of(self@, id@),
    {
        match self.find(id) {
            Some(i) => {
                proof {
                    lemma_ledger_lookup(self.balances@, i as int);
                }
                self.balances[i].1
            },
            None => 0,
        }
    }

    /// Sets the balance of account `id`.
    fn set_balance(&mut self, id: &String, value: i128)
        requires
            old(self).wf(),
        ensures
            final(self).wf(),
            final(self)@ == old(self)@.insert(id@, value),
    {
        let entry = (id.clone(), value);
        match self.find(id) {
            Some(i) => {
                proof {
                    lemma_ledger_update(self.balances@, i as int, entry);
                }
                self.balances.set(i, entry);
            },
            None => {
                proof {
                    lemma_ledger_push(self.balances@, entry);
                }
                self.balances.push(entry);
            },
        }
    }

    /// Credits `amount` to `to`; refused (`false`, ledger unchanged) when
    /// the balance would overflow.
    pub fn mint(&mut self, to: &String, amount: i128) -> (ok: bool)
        requires
            old(self).wf(),
        ensures
            final(self).wf(),
            match mint_step(old(self)@, to@, amount) {
                Some(m) => ok && final(self)@ == m,
                None => !ok && final(self)@ == old(self)@,
            },
    {
        let b = self.balance(to);
        match b.checked_add(amount) {
            Some(nb) => {
                self.set_balance(to, nb);
                true
            },
            None => false,
        }
    }

    /// Moves `amount` from `from` to `to`; refused (`false`, ledger
    /// unchanged) when a balance would overflow.
    pub fn transfer(&mut self, from: &String, to: &String, amount: i128) -> (ok: bool)
        requires
            old(self).wf(),
        ensures
            final(self).wf(),
            match transfer_step(old(self)@, from@, to@, amount) {
                Some(m) => ok && final(self)@ == m,
                None => !ok && final(self)@ == old(self)@,
            },
    {
        let fb = self.balance(from);
        let tb = self.balance(to);
        let new_fb = match fb.checked_sub(amount) {
            Some(v) => v,
            None => return false,
        };
        let new_tb = match tb.checked_add(amount) {
            Some(v) => v,
            None => return false,
        };
        self.set_balance(from, new_fb);
        self.set_balance(to, new_tb);
        true
    }

    /// The token's precision: 7 decimal places.
    pub fn decimals(&self) -> (d: u32)
        ensures
            d == 7,
    {
        7
    }

    /// The token's name.
    pub fn name(&self) -> (n: &'static str)
        ensures
            n@ == "TestToken"@,
    {
        "TestToken"
    }

    /// The token's symbol.
    pub fn symbol(&self) -> (s: &'static str)
        ensures
            s@ == "TEST"@,
    {
        "TEST"
    }

    /// Every spender may spend any amount of every account.
    pub fn allowance(&self, _from: &String, _spender: &String) -> (a: i128)
        ensures
            a == i128::MAX,
    {
        i128::MAX
    }

    /// Approvals are accepted and have no effect: the allowance is always
    /// unlimited.
    pub fn approve(&self, _from: &String, _spender: &String, _amount: i128, _expiration_ledger: u32) {
    }
}

} // verus!
