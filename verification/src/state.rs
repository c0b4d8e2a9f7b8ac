//! The world state: accounts (balance and nonce) and contracts (bytecode,
//! storage, owner), each held as an association list with unique keys and
//! viewed as a map keyed by the address characters.

use vstd::prelude::*;

use crate::storage::Storage;
use crate::text::str_eq;

verus! {

/// The map described by an association list keyed by strings, later
/// entries taking precedence.
pub open spec fn assoc_map_of<V>(s: Seq<(String, V)>) -> Map<Seq<char>, V>
    decreases s.len(),
{
    if s.len() == 0 {
        Map::empty()
    } else {
        assoc_map_of(s.drop_last()).insert(s.last().0@, s.last().1)
    }
}

/// No address occurs twice in the list.
pub open spec fn assoc_keys_unique<V>(s: Seq<(String, V)>) -> bool {
    forall|i: int, j: int| 0 <= i < j < s.len() ==> s[i].0@ != s[j].0@
}

proof fn lemma_assoc_contains<V>(s: Seq<(String, V)>, k: Seq<char>)
    ensures
        assoc_map_of(s).dom().contains(k) <==> exists|i: int| 0 <= i < s.len() && s[i].0@ == k,
    decreases s.len(),
{
    if s.len() > 0 {
        lemma_assoc_contains(s.drop_last(), k);
        if s.last().0@ == k {
            assert(s[s.len() - 1].0@ == k);
        } else {
            if exists|i: int| 0 <= i < s.len() && s[i].0@ == k {
                let i = choose|i: int| 0 <= i < s.len() && s[i].0@ == k;
                assert(s.drop_last()[i].0@ == k);
            }
        }
    }
}

proof fn lemma_assoc_get<V>(s: Seq<(String, V)>, i: int)
    requires
        assoc_keys_unique(s),
        0 <= i < s.len(),
    ensures
        assoc_map_of(s).dom().contains(s[i].0@),
        assoc_map_of(s)[s[i].0@] == s[i].1,
    decreases s.len(),
{
    if i < s.len() - 1 {
        assert(s.drop_last()[i] == s[i]);
        lemma_assoc_get(s.drop_last(), i);
        assert(s[i].0@ != s.last().0@);
    }
}

proof fn lemma_assoc_update<V>(s: Seq<(String, V)>, j: int, p: (String, V))
    requires
        assoc_keys_unique(s),
        0 <= j < s.len(),
        p.0@ == s[j].0@,
    ensures
        assoc_map_of(s.update(j, p)) == assoc_map_of(s).insert(s[j].0@, p.1),
        assoc_keys_unique(s.update(j, p)),
    decreases s.len(),
{
    let t = s.update(j, p);
    if j == s.len() - 1 {
        assert(t.drop_last() =~= s.drop_last());
        assert(assoc_map_of(t) =~= assoc_map_of(s).insert(s[j].0@, p.1));
    } else {
        assert(s.drop_last().update(j, p) =~= t.drop_last());
        lemma_assoc_update(s.drop_last(), j, p);
        assert(s[j].0@ != s.last().0@);
        assert(assoc_map_of(t) =~= assoc_map_of(s).insert(s[j].0@, p.1));
    }
}

proof fn lemma_assoc_map_congruent<V>(a: Seq<(String, V)>, b: Seq<(String, V)>)
    requires
        a.len() == b.len(),
        forall|k: int| 0 <= k < a.len() ==> (#[trigger] a[k]).0@ == b[k].0@ && a[k].1 == b[k].1,
    ensures
        assoc_map_of(a) == assoc_map_of(b),
        assoc_keys_unique(a) == assoc_keys_unique(b),
    decreases a.len(),
{
    if a.len() > 0 {
        assert(forall|k: int|
            0 <= k < a.drop_last().len() ==> (#[trigger] a.drop_last()[k]).0@
                == b.drop_last()[k].0@ && a.drop_last()[k].1 == b.drop_last()[k].1);
        lemma_assoc_map_congruent(a.drop_last(), b.drop_last());
    }
    if assoc_keys_unique(a) {
        assert forall|i: int, j: int| 0 <= i < j < b.len() implies b[i].0@ != b[j].0@ by {
            assert(a[i].0@ != a[j].0@);
        }
    }
    if assoc_keys_unique(b) {
        assert forall|i: int, j: int| 0 <= i < j < a.len() implies a[i].0@ != a[j].0@ by {
            assert(b[i].0@ != b[j].0@);
        }
    }
}

/// One account: its balance and the count of debits it has signed off.
#[derive(Debug, Clone, Copy, PartialEq, Eq, Structural)]
pub struct AccountState {
    pub balance: u64,
    pub nonce: u64,
}

impl AccountState {
    pub fn new(balance: u64) -> (a: AccountState)
        ensures
            a.balance == balance,
            a.nonce == 0,
    {
        AccountState { balance, nonce: 0 }
    }
}

/// One deployed contract: its code, its persistent storage and its owner.
#[derive(Debug)]
pub struct ContractState {
    pub bytecode: Vec<u8>,
    pub storage: Storage,
    pub owner: String,
}

/// The balance under an address, zero when the account is absent.
pub open spec fn balance_in(m: Map<Seq<char>, AccountState>, k: Seq<char>) -> u64 {
    if m.dom().contains(k) {
        m[k].balance
    } else {
        0
    }
}

/// The nonce under an address, zero when the account is absent.
pub open spec fn nonce_in(m: Map<Seq<char>, AccountState>, k: Seq<char>) -> u64 {
    if m.dom().contains(k) {
        m[k].nonce
    } else {
        0
    }
}

/// The sum of all balances in an account list.
pub open spec fn sum_balances(s: Seq<(String, AccountState)>) -> int
    decreases s.len(),
{
    if s.len() == 0 {
        0
    } else {
        sum_balances(s.drop_last()) + s.last().1.balance
    }
}

proof fn lemma_sum_update(s: Seq<(String, AccountState)>, j: int, p: (String, AccountState))
    requires
        0 <= j < s.len(),
    ensures
        sum_balances(s.update(j, p)) == sum_balances(s) - s[j].1.balance + p.1.balance,
    decreases s.len(),
{
    let t = s.update(j, p);
    if j == s.len() - 1 {
        assert(t.drop_last() =~= s.drop_last());
    } else {
        assert(s.drop_last().update(j, p) =~= t.drop_last());
        lemma_sum_update(s.drop_last(), j, p);
    }
}

/// In-memory accounts and contracts, rebuilt wholesale on chain replay.
#[derive(Debug)]
pub struct WorldState {
    accounts: Vec<(String, AccountState)>,
    contracts: Vec<(String, ContractState)>,
}

impl WorldState {
    /// The account list, in insertion order.
    pub closed spec fn accounts_seq(&self) -> Seq<(String, AccountState)> {
        self.accounts@
    }

    /// The contract list, in insertion order.
    pub closed spec fn contracts_seq(&self) -> Seq<(String, ContractState)> {
        self.contracts@
    }

    /// The accounts as a map from address characters to account.
    pub open spec fn accounts_m(&self) -> Map<Seq<char>, AccountState> {
        assoc_map_of(self.accounts_seq())
    }

    /// The contracts as a map from address characters to contract.
    pub open spec fn contracts_m(&self) -> Map<Seq<char>, ContractState> {
        assoc_map_of(self.contracts_seq())
    }

    /// Addresses are unique and every contract's storage keeps its keys
    /// unique.
    pub open spec fn wf(&self) -> bool {
        &&& assoc_keys_unique(self.accounts_seq())
        &&& assoc_keys_unique(self.contracts_seq())
        &&& forall|i: int|
            0 <= i < self.contracts_seq().len() ==> (#[trigger] self.contracts_seq()[i].1).storage.wf()
    }

    /// The sum of all balances.
    pub open spec fn total_supply(&self) -> int {
        sum_balances(self.accounts_seq())
    }

    pub fn new() -> (s: WorldState)
        ensures
            s.wf(),
            s.accounts_m() == Map::<Seq<char>, AccountState>::empty(),
            s.contracts_m() == Map::<Seq<char>, ContractState>::empty(),
            s.total_supply() == 0,
    {
        WorldState { accounts: Vec::new(), contracts: Vec::new() }
    }

    /// The account under an address, if any.
    #[verifier::loop_isolation(false)]
    pub fn get_account(&self, address: &str) -> (r: Option<&AccountState>)
        requires
            self.wf(),
        ensures
            match r {
                Some(a) => self.accounts_m().dom().contains(address@) && *a == self.accounts_m()[
                    address@
                ],
                None => !self.accounts_m().dom().contains(address@),
            },
    {
        let n = self.accounts.len();
        let mut i: usize = 0;
        while i < n
            invariant
                self.wf(),
                n == self.accounts_seq().len(),
                i <= n,
                forall|m: int| 0 <= m < i ==> self.accounts_seq()[m].0@ != address@,
            decreases n - i,
        {
            if str_eq(self.accounts[i].0.as_str(), address) {
                proof {
                    lemma_assoc_get(self.accounts_seq(), i as int);
                }
                return Some(&self.accounts[i].1);
            }
            i += 1;
        }
        proof {
            lemma_assoc_contains(self.accounts_seq(), address@);
        }
        None
    }

    /// The balance under an address; zero when the account is absent.
    pub fn get_balance(&self, address: &str) -> (r: u64)
        requires
            self.wf(),
        ensures
            r == balance_in(self.accounts_m(), address@),
    {
        match self.get_account(address) {
            Some(a) => a.balance,
            None => 0,
        }
    }

    /// Finds the account under an address, creating an empty one first
    /// when it is absent; hands back a copy of it.
    #[verifier::loop_isolation(false)]
    pub fn get_or_create_account(&mut self, address: &str) -> (r: AccountState)
        requires
            old(self).wf(),
        ensures
            final(self).wf(),
            final(self).contracts_seq() == old(self).contracts_seq(),
            final(self).accounts_m() == old(self).accounts_m().insert(address@, r),
            r == if old(self).accounts_m().dom().contains(address@) {
                old(self).accounts_m()[address@]
            } else {
                AccountState { balance: 0, nonce: 0 }
            },
            final(self).total_supply() == old(self).total_supply() + r.balance - balance_in(
                old(self).accounts_m(),
                address@,
            ),
    {
        let n = self.accounts.len();
        let mut i: usize = 0;
        while i < n
            invariant
                self.wf(),
                *self == *old(self),
                n == self.accounts_seq().len(),
                i <= n,
                forall|m: int| 0 <= m < i ==> self.accounts_seq()[m].0@ != address@,
            decreases n - i,
        {
            if str_eq(self.accounts[i].0.as_str(), address) {
                proof {
                    lemma_assoc_get(self.accounts_seq(), i as int);
                    let s = self.accounts_seq();
                    lemma_assoc_update(s, i as int, (s[i as int].0, s[i as int].1));
                    assert(s.update(i as int, (s[i as int].0, s[i as int].1)) =~= s);
                }
                return self.accounts[i].1;
            }
            i += 1;
        }
        proof {
            lemma_assoc_contains(self.accounts_seq(), address@);
        }
        let account = AccountState::new(0);
        let key = copy_str(address);
        proof {
            assert(self.accounts_seq().push((key, account)).drop_last() =~= self.accounts_seq());
        }
        self.accounts.push((key, account));
        account
    }

    /// Adds to the balance under an address, creating the account first
    /// when it is absent. The caller keeps the balance within range.
    #[verifier::loop_isolation(false)]
    pub fn credit(&mut self, address: &str, amount: u64)
        requires
            old(self).wf(),
            balance_in(old(self).accounts_m(), address@) + amount <= u64::MAX,
        ensures
            final(self).wf(),
            final(self).contracts_seq() == old(self).contracts_seq(),
            final(self).accounts_m() == old(self).accounts_m().insert(
                address@,
                AccountState {
                    balance: (balance_in(old(self).accounts_m(), address@) + amount) as u64,
                    nonce: nonce_in(old(self).accounts_m(), address@),
                },
            ),
            final(self).total_supply() == old(self).total_supply() + amount,
    {
        let n = self.accounts.len();
        let mut i: usize = 0;
        while i < n
            invariant
                self.wf(),
                *self == *old(self),
                n == self.accounts_seq().len(),
                i <= n,
                forall|m: int| 0 <= m < i ==> self.accounts_seq()[m].0@ != address@,
            decreases n - i,
        {
            if str_eq(self.accounts[i].0.as_str(), address) {
                proof {
                    lemma_assoc_get(self.accounts_seq(), i as int);
                }
                let acc = self.accounts[i].1;
                let updated = AccountState { balance: acc.balance + amount, nonce: acc.nonce };
                let key = self.accounts[i].0.clone();
                proof {
                    lemma_assoc_update(self.accounts_seq(), i as int, (key, updated));
                    lemma_sum_update(self.accounts_seq(), i as int, (key, updated));
                }
                self.accounts[i] = (key, updated);
                return ;
            }
            i += 1;
        }
        proof {
            lemma_assoc_contains(self.accounts_seq(), address@);
        }
        let key = copy_str(address);
        let account = AccountState::new(amount);
        proof {
            assert(self.accounts_seq().push((key, account)).drop_last() =~= self.accounts_seq());
        }
        self.accounts.push((key, account));
    }

    /// Takes from the balance under an address if it suffices, counting
    /// the debit in the nonce; reports whether it did. The caller keeps
    /// the nonce within range.
    #[verifier::loop_isolation(false)]
    pub fn debit(&mut self, address: &str, amount: u64) -> (r: bool)
        requires
            old(self).wf(),
            balance_in(old(self).accounts_m(), address@) >= amount ==> nonce_in(
                old(self).accounts_m(),
                address@,
            ) < u64::MAX,
        ensures
            final(self).wf(),
            final(self).contracts_seq() == old(self).contracts_seq(),
            r == (balance_in(old(self).accounts_m(), address@) >= amount),
            r ==> final(self).accounts_m() == old(self).accounts_m().insert(
                address@,
                AccountState {
                    balance: (balance_in(old(self).accounts_m(), address@) - amount) as u64,
                    nonce: (nonce_in(old(self).accounts_m(), address@) + 1) as u64,
                },
            ) && final(self).total_supply() == old(self).total_supply() - amount,
            !r ==> final(self).accounts_m() == old(self).accounts_m().insert(
                address@,
                AccountState {
                    balance: balance_in(old(self).accounts_m(), address@),
                    nonce: nonce_in(old(self).accounts_m(), address@),
                },
            ) && final(self).total_supply() == old(self).total_supply(),
    {
        let n = self.accounts.len();
        let mut i: usize = 0;
        while i < n
            invariant
                self.wf(),
                *self == *old(self),
                n == self.accounts_seq().len(),
                i <= n,
                forall|m: int| 0 <= m < i ==> self.accounts_seq()[m].0@ != address@,
            decreases n - i,
        {
            if str_eq(self.accounts[i].0.as_str(), address) {
                proof {
                    lemma_assoc_get(self.accounts_seq(), i as int);
                }
                let acc = self.accounts[i].1;
                let key = self.accounts[i].0.clone();
                if acc.balance >= amount {
                    let updated = AccountState {
                        balance: acc.balance - amount,
                        nonce: acc.nonce + 1,
                    };
                    proof {
                        lemma_assoc_update(self.accounts_seq(), i as int, (key, updated));
                        lemma_sum_update(self.accounts_seq(), i as int, (key, updated));
                    }
                    self.accounts[i] = (key, updated);
                    return true;
                } else {
                    proof {
                        lemma_assoc_update(self.accounts_seq(), i as int, (key, acc));
                        lemma_sum_update(self.accounts_seq(), i as int, (key, acc));
                    }
                    self.accounts[i] = (key, acc);
                    return false;
                }
            }
            i += 1;
        }
        proof {
            lemma_assoc_contains(self.accounts_seq(), address@);
        }
        let key = copy_str(address);
        if amount == 0 {
            let account = AccountState { balance: 0, nonce: 1 };
            proof {
                assert(self.accounts_seq().push((key, account)).drop_last()
                    =~= self.accounts_seq());
            }
            self.accounts.push((key, account));
            true
        } else {
            let account = AccountState { balance: 0, nonce: 0 };
            proof {
                assert(self.accounts_seq().push((key, account)).drop_last()
                    =~= self.accounts_seq());
            }
            self.accounts.push((key, account));
            false
        }
    }

    /// Moves an amount between balances when the source suffices; reports
    /// whether it did. The caller keeps balances and nonce within range.
    pub fn transfer(&mut self, from: &str, to: &str, amount: u64) -> (r: bool)
        requires
            old(self).wf(),
            balance_in(old(self).accounts_m(), from@) >= amount ==> nonce_in(
                old(self).accounts_m(),
                from@,
            ) < u64::MAX,
            balance_in(old(self).accounts_m(), from@) >= amount && from@ != to@ ==> balance_in(
                old(self).accounts_m(),
                to@,
            ) + amount <= u64::MAX,
        ensures
            final(self).wf(),
            final(self).contracts_seq() == old(self).contracts_seq(),
            r == (balance_in(old(self).accounts_m(), from@) >= amount),
            final(self).accounts_m() == transfer_applied(old(self).accounts_m(), from@, to@, amount),
            final(self).total_supply() == old(self).total_supply(),
    {
        let from_balance = self.get_balance(from);
        if from_balance < amount {
            return false;
        }
        let ok = self.debit(from, amount);
        proof {
            assert(ok);
        }
        self.credit(to, amount);
        proof {
            assert(self.accounts_m() =~= transfer_applied(
                old(self).accounts_m(),
                from@,
                to@,
                amount,
            ));
        }
        true
    }

    /// Records a contract under an address with empty storage, replacing
    /// any contract already there.
    #[verifier::loop_isolation(false)]
    pub fn deploy_contract(&mut self, address: String, bytecode: Vec<u8>, owner: String)
        requires
            old(self).wf(),
        ensures
            final(self).wf(),
            final(self).accounts_seq() == old(self).accounts_seq(),
            final(self).contracts_m().dom() == old(self).contracts_m().dom().insert(address@),
            final(self).contracts_m()[address@].bytecode@ == bytecode@,
            final(self).contracts_m()[address@].storage@ == Map::<u64, i64>::empty(),
            final(self).contracts_m()[address@].owner@ == owner@,
            forall|k: Seq<char>|
                k != address@ && old(self).contracts_m().dom().contains(k)
                    ==> final(self).contracts_m()[k] == old(self).contracts_m()[k],
    {
        let entry = ContractState { bytecode, storage: Storage::new(), owner };
        let n = self.contracts.len();
        let mut i: usize = 0;
        while i < n
            invariant
                self.wf(),
                *self == *old(self),
                n == self.contracts_seq().len(),
                i <= n,
                forall|m: int| 0 <= m < i ==> self.contracts_seq()[m].0@ != address@,
                entry.bytecode@ == bytecode@,
                entry.storage@ == Map::<u64, i64>::empty(),
                entry.storage.wf(),
                entry.owner@ == owner@,
            decreases n - i,
        {
            if str_eq(self.contracts[i].0.as_str(), address.as_str()) {
                proof {
                    lemma_assoc_get(self.contracts_seq(), i as int);
                    lemma_assoc_update(self.contracts_seq(), i as int, (address, entry));
                }
                self.contracts[i] = (address, entry);
                proof {
                    assert(self.contracts_m().dom() =~= old(self).contracts_m().dom().insert(
                        address@,
                    ));
                }
                return ;
            }
            i += 1;
        }
        proof {
            lemma_assoc_contains(self.contracts_seq(), address@);
            assert(self.contracts_seq().push((address, entry)).drop_last()
                =~= self.contracts_seq());
        }
        self.contracts.push((address, entry));
        proof {
            assert(self.contracts_m().dom() =~= old(self).contracts_m().dom().insert(
                address@,
            ));
        }
    }

    /// The contract under an address, if any.
    #[verifier::loop_isolation(false)]
    pub fn get_contract(&self, address: &str) -> (r: Option<&ContractState>)
        requires
            self.wf(),
        ensures
            match r {
                Some(c) => self.contracts_m().dom().contains(address@) && *c == self.contracts_m()[
                    address@
                ] && c.storage.wf(),
                None => !self.contracts_m().dom().contains(address@),
            },
    {
        let n = self.contracts.len();
        let mut i: usize = 0;
        while i < n
            invariant
                self.wf(),
                n == self.contracts_seq().len(),
                i <= n,
                forall|m: int| 0 <= m < i ==> self.contracts_seq()[m].0@ != address@,
            decreases n - i,
        {
            if str_eq(self.contracts[i].0.as_str(), address) {
                proof {
                    lemma_assoc_get(self.contracts_seq(), i as int);
                }
                return Some(&self.contracts[i].1);
            }
            i += 1;
        }
        proof {
            lemma_assoc_contains(self.contracts_seq(), address@);
        }
        None
    }

    /// Replaces the storage of the contract under an address, if one is
    /// there; reports whether it was.
    #[verifier::loop_isolation(false)]
    pub fn set_contract_storage(&mut self, address: &str, storage: Storage) -> (r: bool)
        requires
            old(self).wf(),
            storage.wf(),
        ensures
            final(self).wf(),
            final(self).accounts_seq() == old(self).accounts_seq(),
            r == old(self).contracts_m().dom().contains(address@),
            r ==> final(self).contracts_m().dom() == old(self).contracts_m().dom() && final(self).contracts_m()[address@].bytecode@ == old(self).contracts_m()[address@].bytecode@
                && final(self).contracts_m()[address@].storage@ == storage@ && final(self).contracts_m()[address@].owner@ == old(self).contracts_m()[address@].owner@ && forall|k: Seq<char>|
                k != address@ && old(self).contracts_m().dom().contains(k) ==> final(self).contracts_m()[k] == old(self).contracts_m()[k],
            !r ==> final(self).contracts_seq() == old(self).contracts_seq(),
    {
        let n = self.contracts.len();
        let mut i: usize = 0;
        while i < n
            invariant
                self.wf(),
                *self == *old(self),
                n == self.contracts_seq().len(),
                i <= n,
                forall|m: int| 0 <= m < i ==> self.contracts_seq()[m].0@ != address@,
                storage.wf(),
            decreases n - i,
        {
            if str_eq(self.contracts[i].0.as_str(), address) {
                proof {
                    lemma_assoc_get(self.contracts_seq(), i as int);
                }
                let key = self.contracts[i].0.clone();
                let bytecode = crate::transaction::copy_bytes(&self.contracts[i].1.bytecode);
                let owner = self.contracts[i].1.owner.clone();
                let entry = ContractState { bytecode, storage, owner };
                proof {
                    lemma_assoc_update(self.contracts_seq(), i as int, (key, entry));
                }
                self.contracts[i] = (key, entry);
                proof {
                    assert(self.contracts_m().dom() =~= old(self).contracts_m().dom());
                }
                return true;
            }
            i += 1;
        }
        proof {
            lemma_assoc_contains(self.contracts_seq(), address@);
        }
        false
    }

    /// Copies the accounts into a fresh state with no contracts.
    pub fn duplicate_accounts(&self) -> (r: WorldState)
        requires
            self.wf(),
        ensures
            r.wf(),
            r.accounts_m() == self.accounts_m(),
            r.contracts_seq() == Seq::<(String, ContractState)>::empty(),
    {
        let n = self.accounts.len();
        let mut accounts: Vec<(String, AccountState)> = Vec::new();
        let mut i: usize = 0;
        while i < n
            invariant
                n == self.accounts_seq().len(),
                i <= n,
                accounts@.len() == i,
                forall|k: int|
                    0 <= k < i ==> (#[trigger] accounts@[k]).0@ == self.accounts_seq()[k].0@
                        && accounts@[k].1 == self.accounts_seq()[k].1,
            decreases n - i,
        {
            let key = self.accounts[i].0.clone();
            let val = self.accounts[i].1;
            accounts.push((key, val));
            i += 1;
        }
        let r = WorldState { accounts, contracts: Vec::new() };
        proof {
            lemma_assoc_map_congruent(r.accounts_seq(), self.accounts_seq());
        }
        r
    }

    /// The accounts, address by address.
    pub fn accounts(&self) -> (r: &Vec<(String, AccountState)>)
        ensures
            r@ == self.accounts_seq(),
    {
        &self.accounts
    }

    /// The contracts, address by address.
    pub fn contracts(&self) -> (r: &Vec<(String, ContractState)>)
        ensures
            r@ == self.contracts_seq(),
    {
        &self.contracts
    }
}

/// What a successful transfer leaves of the account map; an insufficient
/// source leaves it unchanged.
pub open spec fn transfer_applied(
    m: Map<Seq<char>, AccountState>,
    from: Seq<char>,
    to: Seq<char>,
    amount: u64,
) -> Map<Seq<char>, AccountState> {
    if balance_in(m, from) < amount {
        m
    } else {
        let debited = m.insert(
            from,
            AccountState {
                balance: (balance_in(m, from) - amount) as u64,
                nonce: (nonce_in(m, from) + 1) as u64,
            },
        );
        debited.insert(
            to,
            AccountState {
                balance: (balance_in(debited, to) + amount) as u64,
                nonce: nonce_in(debited, to),
            },
        )
    }
}

impl Default for WorldState {
    fn default() -> (s: WorldState)
        ensures
            s.wf(),
            s.accounts_m() == Map::<Seq<char>, AccountState>::empty(),
            s.contracts_m() == Map::<Seq<char>, ContractState>::empty(),
    {
        WorldState::new()
    }
}

/// Copies a string slice into an owned string.
fn copy_str(s: &str) -> (r: String)
    ensures
        r@ == s@,
{
    s.to_owned()
}

} // verus!
