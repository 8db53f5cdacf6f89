//! Account balances and the rules by which signed transactions move value
//! between them.
use vstd::prelude::*;
use crate::transaction::{tx_hash, SignedTransaction, SignedView, TransactionView, Verification};

verus! {

/// One account as mathematical values.
pub struct AccountView {
    pub key: Seq<char>,
    pub balance: u64,
    /// The hashes of the transactions applied to this account, oldest first.
    pub history: Seq<Seq<char>>,
}

/// The whole ledger state as mathematical values.
pub struct WorldView {
    pub accounts: Seq<AccountView>,
    /// The hashes of all applied transactions, oldest first.
    pub applied: Seq<Seq<char>>,
}

/// Why a transaction was not applied.
#[derive(PartialEq, Eq, Structural, Clone, Copy, Debug)]
pub enum ApplyError {
    /// The signature was malformed or did not verify.
    InvalidSignature,
    /// The sender's or the receiver's history already holds the transaction.
    DuplicateTransaction,
    /// The sender has no account, or less than the amount.
    InsufficientFunds,
    /// A parent is not the hash of an applied transaction.
    UnknownParent,
    /// The receiver's balance would not fit in a `u64`.
    BalanceOverflow,
}

/// No two accounts share a key.
pub open spec fn keys_unique(a: Seq<AccountView>) -> bool {
    forall|i: int, j: int|
        0 <= i < a.len() && 0 <= j < a.len() && i != j ==> #[trigger] a[i].key != #[trigger] a[j].key
}

/// Whether some account has the given key.
pub open spec fn has_key(a: Seq<AccountView>, key: Seq<char>) -> bool {
    exists|i: int| 0 <= i < a.len() && (#[trigger] a[i]).key == key
}

/// The position of the account with the given key, where there is one.
pub open spec fn key_index(a: Seq<AccountView>, key: Seq<char>) -> int {
    choose|i: int| 0 <= i < a.len() && (#[trigger] a[i]).key == key
}

/// Whether the account with the given key has the hash in its history.
pub open spec fn in_history(a: Seq<AccountView>, key: Seq<char>, h: Seq<char>) -> bool {
    has_key(a, key) && a[key_index(a, key)].history.contains(h)
}

/// The sum of all balances.
pub open spec fn total(a: Seq<AccountView>) -> int
    decreases a.len(),
{
    if a.len() == 0 {
        0
    } else {
        total(a.drop_last()) + a.last().balance
    }
}

/// The accounts after moving `t.amount` from sender to receiver, with the
/// hash `h` recorded in both histories; a new receiver starts from zero.
pub open spec fn transfer(a: Seq<AccountView>, t: TransactionView, h: Seq<char>) -> Seq<AccountView> {
    let si = key_index(a, t.sender);
    let s = a[si];
    if t.receiver == t.sender {
        a.update(si, AccountView { history: s.history.push(h), ..s })
    } else {
        let debited = a.update(
            si,
            AccountView { balance: (s.balance - t.amount) as u64, history: s.history.push(h), ..s },
        );
        if has_key(a, t.receiver) {
            let ri = key_index(a, t.receiver);
            let r = a[ri];
            debited.update(
                ri,
                AccountView {
                    balance: (r.balance + t.amount) as u64,
                    history: r.history.push(h),
                    ..r
                },
            )
        } else {
            debited.push(AccountView { key: t.receiver, balance: t.amount, history: seq![h] })
        }
    }
}

/// Whether every parent is the hash of an applied transaction. A payload
/// without parents starts a new root of the graph and is always allowed.
pub open spec fn parents_known(applied: Seq<Seq<char>>, t: TransactionView) -> bool {
    forall|i: int| 0 <= i < t.parents.len() ==> applied.contains(#[trigger] t.parents[i])
}

/// What applying a signed transaction, with the given outcome of its
/// signature check, does to a state: the checks in order, then the transfer.
pub open spec fn apply_outcome(w: WorldView, s: SignedView, verdict: Verification) -> Result<
    WorldView,
    ApplyError,
> {
    let t = s.transaction;
    let h = tx_hash(s);
    let a = w.accounts;
    if verdict != Verification::Valid {
        Err(ApplyError::InvalidSignature)
    } else if in_history(a, t.sender, h) || in_history(a, t.receiver, h) {
        Err(ApplyError::DuplicateTransaction)
    } else if !has_key(a, t.sender) || a[key_index(a, t.sender)].balance < t.amount {
        Err(ApplyError::InsufficientFunds)
    } else if !parents_known(w.applied, t) {
        Err(ApplyError::UnknownParent)
    } else if t.receiver != t.sender && has_key(a, t.receiver) && a[key_index(
        a,
        t.receiver,
    )].balance + t.amount > u64::MAX {
        Err(ApplyError::BalanceOverflow)
    } else {
        Ok(WorldView { accounts: transfer(a, t, h), applied: w.applied.push(h) })
    }
}

/// The state after a run of attempted applications, each with the outcome of
/// its signature check; a rejected one leaves the state as it was.
pub open spec fn run(w: WorldView, steps: Seq<(SignedView, Verification)>) -> WorldView
    decreases steps.len(),
{
    if steps.len() == 0 {
        w
    } else {
        let before = run(w, steps.drop_last());
        match apply_outcome(before, steps.last().0, steps.last().1) {
            Ok(after) => after,
            Err(_) => before,
        }
    }
}

proof fn lemma_total_update(a: Seq<AccountView>, i: int, v: AccountView)
    requires
        0 <= i < a.len(),
    ensures
        total(a.update(i, v)) == total(a) - a[i].balance + v.balance,
    decreases a.len(),
{
    if i == a.len() - 1 {
        assert(a.update(i, v).drop_last() =~= a.drop_last());
    } else {
        lemma_total_update(a.drop_last(), i, v);
        assert(a.update(i, v).drop_last() =~= a.drop_last().update(i, v));
    }
}

proof fn lemma_total_push(a: Seq<AccountView>, v: AccountView)
    ensures
        total(a.push(v)) == total(a) + v.balance,
{
    assert(a.push(v).drop_last() =~= a);
}

proof fn lemma_key_index(a: Seq<AccountView>, i: int)
    requires
        keys_unique(a),
        0 <= i < a.len(),
    ensures
        has_key(a, a[i].key),
        key_index(a, a[i].key) == i,
{
    assert(a[i].key == a[i].key);
    let j = key_index(a, a[i].key);
    assert(a[j].key == a[i].key);
}

/// A transfer keeps every key where it was, and adds the receiver's key
/// only where no account had it.
proof fn lemma_transfer_keys(w: WorldView, s: SignedView, verdict: Verification)
    requires
        keys_unique(w.accounts),
        apply_outcome(w, s, verdict) is Ok,
    ensures
        keys_unique(transfer(w.accounts, s.transaction, tx_hash(s))),
        total(transfer(w.accounts, s.transaction, tx_hash(s))) == total(w.accounts),
        transfer(w.accounts, s.transaction, tx_hash(s)).len() >= w.accounts.len(),
        forall|x: int| 0 <= x < w.accounts.len() ==> #[trigger] transfer(w.accounts, s.transaction, tx_hash(s))[x].key
            == w.accounts[x].key,
        transfer(w.accounts, s.transaction, tx_hash(s))[key_index(w.accounts, s.transaction.sender)].history.contains(tx_hash(s)),
{
    let a = w.accounts;
    let t = s.transaction;
    let h = tx_hash(s);
    let si = key_index(a, t.sender);
    let sa = a[si];
    let r = transfer(a, t, h);
    assert(sa.history.push(h).last() == h);
    if t.receiver == t.sender {
        lemma_total_update(a, si, AccountView { history: sa.history.push(h), ..sa });
    } else {
        let debited = AccountView {
            balance: (sa.balance - t.amount) as u64,
            history: sa.history.push(h),
            ..sa
        };
        lemma_total_update(a, si, debited);
        if has_key(a, t.receiver) {
            let ri = key_index(a, t.receiver);
            let ra = a[ri];
            assert(ri != si);
            lemma_total_update(
                a.update(si, debited),
                ri,
                AccountView {
                    balance: (ra.balance + t.amount) as u64,
                    history: ra.history.push(h),
                    ..ra
                },
            );
        } else {
            lemma_total_push(
                a.update(si, debited),
                AccountView { key: t.receiver, balance: t.amount, history: seq![h] },
            );
            assert forall|x: int, y: int|
                0 <= x < r.len() && 0 <= y < r.len() && x != y implies #[trigger] r[x].key
                != #[trigger] r[y].key by {
                if x == a.len() as int {
                    assert(a[y].key == r[y].key);
                } else if y == a.len() as int {
                    assert(a[x].key == r[x].key);
                }
            }
        }
    }
}

/// Every successful application conserves the sum of all balances, and
/// keeps the account keys unique.
pub proof fn lemma_apply_conserves(w: WorldView, s: SignedView, verdict: Verification)
    requires
        keys_unique(w.accounts),
    ensures
        match apply_outcome(w, s, verdict) {
            Ok(after) => total(after.accounts) == total(w.accounts) && keys_unique(after.accounts),
            Err(_) => true,
        },
{
    if apply_outcome(w, s, verdict) is Ok {
        lemma_transfer_keys(w, s, verdict);
    }
}

/// Over any run of attempted applications the sum of all balances stays
/// what it was.
pub proof fn lemma_run_conserves(w: WorldView, steps: Seq<(SignedView, Verification)>)
    requires
        keys_unique(w.accounts),
    ensures
        total(run(w, steps).accounts) == total(w.accounts),
        keys_unique(run(w, steps).accounts),
    decreases steps.len(),
{
    if steps.len() > 0 {
        lemma_run_conserves(w, steps.drop_last());
        lemma_apply_conserves(run(w, steps.drop_last()), steps.last().0, steps.last().1);
    }
}

/// Once a signed transaction has been applied, applying it again with the
/// same outcome of its signature check is rejected as a duplicate.
pub proof fn lemma_apply_twice(w: WorldView, s: SignedView, verdict: Verification)
    requires
        keys_unique(w.accounts),
        apply_outcome(w, s, verdict) is Ok,
    ensures
        match apply_outcome(w, s, verdict) {
            Ok(after) => apply_outcome(after, s, verdict) == Err::<WorldView, ApplyError>(
                ApplyError::DuplicateTransaction,
            ),
            Err(_) => false,
        },
{
    lemma_transfer_keys(w, s, verdict);
    let a = w.accounts;
    let si = key_index(a, s.transaction.sender);
    let r = transfer(a, s.transaction, tx_hash(s));
    assert(a[si].key == s.transaction.sender);
    lemma_key_index(r, si);
}

struct Account {
    key: String,
    balance: u64,
    history: Vec<String>,
}

spec fn account_view(a: Account) -> AccountView {
    AccountView { key: a.key@, balance: a.balance, history: a.history@.map_values(|h: String| h@) }
}

/// Balances and histories by account key, and the hashes of every applied
/// transaction.
pub struct WorldState {
    accounts: Vec<Account>,
    applied: Vec<String>,
}

impl View for WorldState {
    type V = WorldView;

    closed spec fn view(&self) -> WorldView {
        WorldView {
            accounts: self.accounts@.map_values(|a: Account| account_view(a)),
            applied: self.applied@.map_values(|h: String| h@),
        }
    }
}

/// Whether a list of strings holds one equal to `s`.
fn holds(v: &Vec<String>, s: &String) -> (r: bool)
    ensures
        r == v@.map_values(|x: String| x@).contains(s@),
{
    let ghost m = v@.map_values(|x: String| x@);
    let mut i: usize = 0;
    while i < v.len()
        invariant
            i <= v@.len(),
            m == v@.map_values(|x: String| x@),
            forall|j: int| 0 <= j < i ==> m[j] != s@,
        decreases v@.len() - i,
    {
        if v[i] == *s {
            assert(m[i as int] == s@);
            return true;
        }
        i = i + 1;
    }
    false
}

impl WorldState {
    /// The state's internal consistency: account keys are unique.
    pub open spec fn wf(&self) -> bool {
        keys_unique(self@.accounts)
    }

    /// An empty state.
    pub fn new() -> (r: WorldState)
        ensures
            r.wf(),
            r@.accounts.len() == 0,
            r@.applied.len() == 0,
    {
        let r = WorldState { accounts: Vec::new(), applied: Vec::new() };
        assert(r@.accounts =~= Seq::empty());
        r
    }

    fn find(&self, key: &String) -> (r: Option<usize>)
        requires
            self.wf(),
        ensures
            match r {
                Some(i) => i < self@.accounts.len() && key_index(self@.accounts, key@) == i
                    && has_key(self@.accounts, key@),
                None => !has_key(self@.accounts, key@),
            },
    {
        let mut i: usize = 0;
        while i < self.accounts.len()
            invariant
                i <= self@.accounts.len(),
                self.wf(),
                forall|j: int| 0 <= j < i ==> self@.accounts[j].key != key@,
            decreases self.accounts@.len() - i,
        {
            if self.accounts[i].key == *key {
                proof {
                    lemma_key_index(self@.accounts, i as int);
                }
                return Some(i);
            }
            i = i + 1;
        }
        None
    }

    /// Applies a signed transaction: all of it, or nothing with the reason.
    /// `verdict` is the outcome of checking its signature (see
    /// `Verification::decide`); anything but `Valid` rejects it.
    pub fn apply(&mut self, tx: &SignedTransaction, verdict: Verification) -> (r: Result<(), ApplyError>)
        requires
            old(self).wf(),
        ensures
            final(self).wf(),
            match apply_outcome(old(self)@, tx@, verdict) {
                Ok(w) => r is Ok && final(self)@ == w,
                Err(e) => r == Err::<(), ApplyError>(e) && final(self)@ == old(self)@,
            },
    {
        let ghost w = self@;
        match verdict {
            Verification::Valid => {},
            _ => return Err(ApplyError::InvalidSignature),
        }
        let h = tx.hash();
        let t = tx.transaction();
        let si = self.find(t.sender());
        let ri = self.find(t.receiver());
        if let Some(i) = si {
            if holds(&self.accounts[i].history, &h) {
                return Err(ApplyError::DuplicateTransaction);
            }
        }
        if let Some(j) = ri {
            if holds(&self.accounts[j].history, &h) {
                return Err(ApplyError::DuplicateTransaction);
            }
        }
        let i = match si {
            Some(i) => i,
            None => return Err(ApplyError::InsufficientFunds),
        };
        let amount = t.amount();
        if self.accounts[i].balance < amount {
            return Err(ApplyError::InsufficientFunds);
        }
        let parents = t.parents();
        let mut k: usize = 0;
        #[verifier::loop_isolation(false)]
        while k < parents.len()
            invariant
                k <= parents@.len(),
                self@ == w,
                parents@.map_values(|p: String| p@) == tx@.transaction.parents,
                forall|m: int| 0 <= m < k ==> w.applied.contains(#[trigger] tx@.transaction.parents[m]),
            decreases parents@.len() - k,
        {
            if !holds(&self.applied, &parents[k]) {
                assert(tx@.transaction.parents[k as int] == parents@[k as int]@);
                return Err(ApplyError::UnknownParent);
            }
            k = k + 1;
        }
        if let Some(j) = ri {
            if j != i && self.accounts[j].balance > u64::MAX - amount {
                return Err(ApplyError::BalanceOverflow);
            }
        }
        let ghost a = w.accounts;
        let ghost tv = tx@.transaction;
        let ghost hv = h@;
        self.applied.push(h.clone());
        proof {
            lemma_key_index(a, i as int);
        }
        let ghost va = self.accounts@;
        let ghost si_acc = a[i as int];
        let ghost debited = AccountView {
            balance: (si_acc.balance - amount) as u64,
            history: si_acc.history.push(hv),
            ..si_acc
        };
        match ri {
            Some(j) => {
                proof {
                    lemma_key_index(a, j as int);
                }
                if j == i {
                    self.accounts[i].history.push(h);
                    assert(self.accounts@[i as int].history@.map_values(|x: String| x@) =~= si_acc.history.push(hv));
                    assert(self@.accounts =~= a.update(
                        i as int,
                        AccountView { history: si_acc.history.push(hv), ..si_acc },
                    ));
                } else {
                    let ghost rj_acc = a[j as int];
                    let b = self.accounts[i].balance;
                    self.accounts[i].balance = b - amount;
                    self.accounts[i].history.push(h.clone());
                    assert(self.accounts@[i as int].history@.map_values(|x: String| x@) =~= si_acc.history.push(hv));
                    let c = self.accounts[j].balance;
                    self.accounts[j].balance = c + amount;
                    self.accounts[j].history.push(h);
                    assert(self.accounts@[j as int].history@.map_values(|x: String| x@) =~= rj_acc.history.push(hv));
                    assert(self@.accounts =~= a.update(i as int, debited).update(
                        j as int,
                        AccountView {
                            balance: (rj_acc.balance + amount) as u64,
                            history: rj_acc.history.push(hv),
                            ..rj_acc
                        },
                    ));
                }
            },
            None => {
                let b = self.accounts[i].balance;
                self.accounts[i].balance = b - amount;
                self.accounts[i].history.push(h.clone());
                assert(self.accounts@[i as int].history@.map_values(|x: String| x@) =~= si_acc.history.push(hv));
                let mut history: Vec<String> = Vec::new();
                history.push(h);
                assert(history@.map_values(|x: String| x@) =~= seq![hv]);
                self.accounts.push(Account { key: t.receiver().clone(), balance: amount, history });
                assert(self@.accounts =~= a.update(i as int, debited).push(
                    AccountView { key: tv.receiver, balance: amount, history: seq![hv] },
                ));
            },
        }
        assert(self@.applied =~= w.applied.push(hv));
        assert(self@.accounts == transfer(a, tv, hv));
        Ok(())
    }

    /// Sets the balance of an account, as when loading a snapshot: an
    /// existing account keeps its history, a new one starts with none.
    pub fn set_balance(&mut self, key: &String, balance: u64)
        requires
            old(self).wf(),
        ensures
            final(self).wf(),
            final(self)@.applied == old(self)@.applied,
            final(self)@.accounts == if has_key(old(self)@.accounts, key@) {
                let i = key_index(old(self)@.accounts, key@);
                old(self)@.accounts.update(i, AccountView { balance, ..old(self)@.accounts[i] })
            } else {
                old(self)@.accounts.push(AccountView { key: key@, balance, history: Seq::empty() })
            },
    {
        let ghost a = self@.accounts;
        match self.find(key) {
            Some(i) => {
                self.accounts[i].balance = balance;
                assert(self@.accounts =~= a.update(i as int, AccountView { balance, ..a[i as int] }));
            },
            None => {
                let history: Vec<String> = Vec::new();
                self.accounts.push(Account { key: key.clone(), balance, history });
                assert(self@.accounts[a.len() as int].history =~= Seq::empty());
                assert(self@.accounts =~= a.push(AccountView { key: key@, balance, history: Seq::empty() }));
                assert forall|x: int, y: int|
                    0 <= x < self@.accounts.len() && 0 <= y < self@.accounts.len() && x != y
                        implies #[trigger] self@.accounts[x].key != #[trigger] self@.accounts[y].key by {
                    if x == a.len() as int {
                        assert(a[y].key == self@.accounts[y].key);
                    } else if y == a.len() as int {
                        assert(a[x].key == self@.accounts[x].key);
                    }
                }
            },
        }
    }

    /// The balance of an account, if there is one with that key.
    pub fn balance(&self, key: &String) -> (r: Option<u64>)
        requires
            self.wf(),
        ensures
            r == if has_key(self@.accounts, key@) {
                Some(self@.accounts[key_index(self@.accounts, key@)].balance)
            } else {
                None::<u64>
            },
    {
        match self.find(key) {
            Some(i) => Some(self.accounts[i].balance),
            None => None,
        }
    }

    /// Whether the account with the given key has the hash in its history.
    pub fn history_contains(&self, key: &String, hash: &String) -> (r: bool)
        requires
            self.wf(),
        ensures
            r == in_history(self@.accounts, key@, hash@),
    {
        match self.find(key) {
            Some(i) => holds(&self.accounts[i].history, hash),
            None => false,
        }
    }

    /// Whether a hash is that of an applied transaction.
    pub fn is_applied(&self, hash: &String) -> (r: bool)
        ensures
            r == self@.applied.contains(hash@),
    {
        holds(&self.applied, hash)
    }
}

} // verus!
