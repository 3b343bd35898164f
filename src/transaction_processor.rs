//! The ledger: all accounts, the stored deposits and withdrawals, and the
//! dispute protocol that spans them.
use std::collections::HashMap;
use vstd::prelude::*;

use crate::account::{Account, AccountModel};
use crate::transaction::{Transaction, TransactionType};

verus! {

broadcast use vstd::std_specs::hash::group_hash_axioms;

/// What became of one event. Only `Applied` changes balances; every other
/// outcome leaves them as they were.
#[derive(Debug, Clone, Copy, PartialEq, Eq, Structural)]
pub enum Outcome {
    Applied,
    /// The client's account is locked. A dispute or resolve still sets or
    /// clears the stored record's flag, and a deposit or withdrawal is
    /// still stored.
    AccountLocked,
    /// A withdrawal exceeded the available funds; the record is stored.
    InsufficientFunds,
    /// No deposit or withdrawal with the referenced id is stored.
    UnknownTransaction,
    /// The referenced record belongs to another client.
    ClientMismatch,
    /// A chargeback referenced a record that is not disputed.
    NotDisputed,
    /// A balance would leave the range of an `i64`; no balance changes. A
    /// deposit or withdrawal is still stored and still opens the client's
    /// account; a dispute or resolve leaves the record's flag as it was.
    OutOfRange,
}

/// The ledger as maps: accounts by client id, stored records by
/// transaction id.
pub struct Ledger {
    pub accounts: Map<u16, AccountModel>,
    pub transactions: Map<u32, Transaction>,
}

pub open spec fn new_account(client: u16) -> AccountModel {
    AccountModel { client, available: 0, held: 0, total: 0, locked: false }
}

impl Ledger {
    /// Every account is kept under its client's id with balances that fit
    /// in an `i64`; every stored record is a deposit or withdrawal with an
    /// amount, kept under its own id, and its client has an account.
    pub open spec fn consistent(self) -> bool {
        &&& forall|c: u16| #[trigger]
            self.accounts.contains_key(c) ==> self.accounts[c].fits() && self.accounts[c].client
                == c
        &&& forall|id: u32| #[trigger]
            self.transactions.contains_key(id) ==> {
                let t = self.transactions[id];
                &&& t.transaction_type.moves_funds()
                &&& t.amount is Some
                &&& t.tx == id
                &&& self.accounts.contains_key(t.client)
            }
    }

    pub open spec fn account_or_new(self, client: u16) -> AccountModel {
        if self.accounts.contains_key(client) {
            self.accounts[client]
        } else {
            new_account(client)
        }
    }

    /// The account of the record that a dispute, resolve or chargeback
    /// `t` refers to, after the operation, where the reference holds.
    pub open spec fn claimed(self, t: Transaction) -> AccountModel {
        let s = self.transactions[t.tx];
        self.account_or_new(t.client).apply(t.transaction_type, s.amount->0 as int)
    }

    /// What becomes of event `t`. A dispute does not ask that the record be
    /// undisputed, so disputing it twice moves its amount twice; a resolve
    /// does not ask that it be disputed, so resolving a record never
    /// disputed moves its amount from held to available. Only a chargeback
    /// asks for a disputed record.
    pub open spec fn outcome(self, t: Transaction) -> Outcome {
        let acct = self.account_or_new(t.client);
        if t.transaction_type.moves_funds() {
            let a = t.amount->0 as int;
            if !acct.apply(t.transaction_type, a).fits() {
                Outcome::OutOfRange
            } else if acct.locked {
                Outcome::AccountLocked
            } else if t.transaction_type is Withdrawal && acct.available < a {
                Outcome::InsufficientFunds
            } else {
                Outcome::Applied
            }
        } else if !self.transactions.contains_key(t.tx) {
            Outcome::UnknownTransaction
        } else if t.transaction_type is Chargeback && !self.transactions[t.tx].disputed {
            Outcome::NotDisputed
        } else if self.transactions[t.tx].client != t.client {
            Outcome::ClientMismatch
        } else if !self.claimed(t).fits() {
            Outcome::OutOfRange
        } else if acct.locked {
            Outcome::AccountLocked
        } else {
            Outcome::Applied
        }
    }

    /// The ledger after event `t`.
    pub open spec fn apply(self, t: Transaction) -> Ledger {
        let o = self.outcome(t);
        if o == Outcome::OutOfRange && t.transaction_type.moves_funds() {
            Ledger {
                accounts: self.accounts.insert(t.client, self.account_or_new(t.client)),
                transactions: self.transactions.insert(t.tx, t),
            }
        } else if o == Outcome::OutOfRange || o == Outcome::UnknownTransaction || o
            == Outcome::ClientMismatch || o == Outcome::NotDisputed {
            self
        } else if t.transaction_type.moves_funds() {
            Ledger {
                accounts: self.accounts.insert(
                    t.client,
                    self.account_or_new(t.client).apply(t.transaction_type, t.amount->0 as int),
                ),
                transactions: self.transactions.insert(t.tx, t),
            }
        } else if t.transaction_type is Chargeback {
            Ledger { accounts: self.accounts.insert(t.client, self.claimed(t)), ..self }
        } else {
            Ledger {
                accounts: self.accounts.insert(t.client, self.claimed(t)),
                transactions: self.transactions.insert(
                    t.tx,
                    Transaction {
                        disputed: t.transaction_type is Dispute,
                        ..self.transactions[t.tx]
                    },
                ),
            }
        }
    }

    /// The ledger after the events `ts`, in order.
    pub open spec fn apply_all(self, ts: Seq<Transaction>) -> Ledger
        decreases ts.len(),
    {
        if ts.len() == 0 {
            self
        } else {
            self.apply_all(ts.drop_last()).apply(ts.last())
        }
    }
}

/// Owns every account and every stored deposit and withdrawal.
pub struct TransactionProcessor {
    accounts: HashMap<u16, Account>,
    transactions: HashMap<u32, Transaction>,
    /// Client ids in the order their accounts were opened.
    clients: Vec<u16>,
}

impl View for TransactionProcessor {
    type V = Ledger;

    closed spec fn view(&self) -> Ledger {
        Ledger {
            accounts: self.accounts@.map_values(|a: Account| a@),
            transactions: self.transactions@,
        }
    }
}

impl TransactionProcessor {
    pub closed spec fn wf(self) -> bool {
        &&& self@.consistent()
        &&& forall|c: u16| #[trigger]
            self.accounts@.contains_key(c) ==> self.accounts@[c].client == c
        &&& self.clients@.no_duplicates()
        &&& forall|c: u16| #[trigger]
            self.clients@.contains(c) <==> self.accounts@.contains_key(c)
    }

    /// An empty ledger.
    pub fn new() -> (r: TransactionProcessor)
        ensures
            r.wf(),
            r@.accounts == Map::<u16, AccountModel>::empty(),
            r@.transactions == Map::<u32, Transaction>::empty(),
    {
        let r = TransactionProcessor {
            accounts: HashMap::new(),
            transactions: HashMap::new(),
            clients: Vec::new(),
        };
        assert(r@.accounts =~= Map::<u16, AccountModel>::empty());
        r
    }

    /// A copy of the client's account, which is opened where the client
    /// has none yet.
    pub fn get_or_create_account(&mut self, client: u16) -> (r: Account)
        requires
            old(self).wf(),
        ensures
            final(self).wf(),
            r@ == old(self)@.account_or_new(client),
            final(self)@.accounts == old(self)@.accounts.insert(client, r@),
            final(self)@.transactions == old(self)@.transactions,
    {
        match self.accounts.get(&client) {
            Some(a) => {
                let a = *a;
                assert(self@.accounts =~= self@.accounts.insert(client, a@));
                a
            },
            None => {
                let a = Account::new(client);
                self.put_account(a);
                a
            },
        }
    }

    /// Writes an account back, opening it where it is new.
    fn put_account(&mut self, account: Account)
        requires
            old(self).wf(),
        ensures
            final(self).wf(),
            final(self)@.accounts == old(self)@.accounts.insert(account.client, account@),
            final(self)@.transactions == old(self)@.transactions,
    {
        let ghost old_clients = self.clients@;
        let is_new = !self.accounts.contains_key(&account.client);
        if is_new {
            self.clients.push(account.client);
        }
        self.accounts.insert(account.client, account);
        assert(self@.accounts =~= old(self)@.accounts.insert(account.client, account@));
        proof {
            if is_new {
                assert(!old_clients.contains(account.client));
                assert(self.clients@ == old_clients.push(account.client));
                assert forall|c: u16| #[trigger]
                    self.clients@.contains(c) <==> (old_clients.contains(c) || c
                        == account.client) by {
                    if old_clients.contains(c) {
                        let i = choose|i: int| 0 <= i < old_clients.len() && old_clients[i] == c;
                        assert(self.clients@[i] == c);
                    }
                    if c == account.client {
                        assert(self.clients@[old_clients.len() as int] == c);
                    }
                    if self.clients@.contains(c) {
                        let i = choose|i: int|
                            0 <= i < self.clients@.len() && self.clients@[i] == c;
                        if i < old_clients.len() {
                            assert(old_clients[i] == c);
                        }
                    }
                }
                assert forall|c: u16| #[trigger]
                    self.clients@.contains(c) <==> self.accounts@.contains_key(c) by {
                    assert(old_clients.contains(c) <==> old(self).accounts@.contains_key(c));
                }
            }
        }
    }

    /// Applies one event and says what became of it. Deposits and
    /// withdrawals are stored for later disputes; disputes, resolves and
    /// chargebacks act on the stored record they reference.
    pub fn process_transaction(&mut self, transaction: Transaction) -> (r: Outcome)
        requires
            old(self).wf(),
            transaction.valid(),
        ensures
            final(self).wf(),
            final(self)@ == old(self)@.apply(transaction),
            r == old(self)@.outcome(transaction),
    {
        match transaction.transaction_type {
            TransactionType::Deposit => self.process_deposit(transaction),
            TransactionType::Withdrawal => self.process_withdrawal(transaction),
            TransactionType::Dispute => self.process_dispute(transaction),
            TransactionType::Resolve => self.process_resolve(transaction),
            TransactionType::Chargeback => self.process_chargeback(transaction),
        }
    }

    fn process_funds(&mut self, transaction: Transaction, amount: i64) -> (r: Outcome)
        requires
            old(self).wf(),
            transaction.transaction_type.moves_funds(),
            transaction.amount == Some(amount),
        ensures
            final(self).wf(),
            final(self)@ == old(self)@.apply(transaction),
            r == old(self)@.outcome(transaction),
    {
        let mut account = self.get_or_create_account(transaction.client);
        if !account.fits_after(transaction.transaction_type, amount) {
            self.transactions.insert(transaction.tx, transaction);
            assert(self@.transactions =~= old(self)@.transactions.insert(transaction.tx, transaction));
            assert(self@.accounts.dom() =~= old(self)@.accounts.dom().insert(transaction.client));
            return Outcome::OutOfRange;
        }
        let r = if account.locked {
            Outcome::AccountLocked
        } else if transaction.transaction_type == TransactionType::Withdrawal && account.available
            < amount {
            Outcome::InsufficientFunds
        } else {
            Outcome::Applied
        };
        if transaction.transaction_type == TransactionType::Deposit {
            account.deposit(amount);
        } else {
            account.withdraw(amount);
        }
        self.put_account(account);
        assert(self@.accounts =~= old(self)@.accounts.insert(transaction.client, account@));
        self.transactions.insert(transaction.tx, transaction);
        assert(self@.transactions =~= old(self)@.transactions.insert(transaction.tx, transaction));
        assert(self@.accounts.dom() =~= old(self)@.accounts.dom().insert(transaction.client));
        r
    }

    fn process_deposit(&mut self, transaction: Transaction) -> (r: Outcome)
        requires
            old(self).wf(),
            transaction.transaction_type is Deposit,
            transaction.valid(),
        ensures
            final(self).wf(),
            final(self)@ == old(self)@.apply(transaction),
            r == old(self)@.outcome(transaction),
    {
        self.process_funds(transaction, transaction.amount.unwrap())
    }

    fn process_withdrawal(&mut self, transaction: Transaction) -> (r: Outcome)
        requires
            old(self).wf(),
            transaction.transaction_type is Withdrawal,
            transaction.valid(),
        ensures
            final(self).wf(),
            final(self)@ == old(self)@.apply(transaction),
            r == old(self)@.outcome(transaction),
    {
        self.process_funds(transaction, transaction.amount.unwrap())
    }

    /// Dispute or resolve: checks the reference and the client, applies the
    /// operation with the stored record's amount and sets or clears the
    /// record's flag.
    fn process_claim(&mut self, tx: Transaction) -> (r: Outcome)
        requires
            old(self).wf(),
            tx.transaction_type is Dispute || tx.transaction_type is Resolve,
        ensures
            final(self).wf(),
            final(self)@ == old(self)@.apply(tx),
            r == old(self)@.outcome(tx),
    {
        let mut stored = match self.transactions.get(&tx.tx) {
            Some(s) => *s,
            None => {
                return Outcome::UnknownTransaction;
            },
        };
        if stored.client != tx.client {
            return Outcome::ClientMismatch;
        }
        let amount = stored.amount.unwrap();
        assert(old(self)@.accounts.contains_key(tx.client));
        let mut account = self.get_or_create_account(tx.client);
        assert(self@.accounts =~= old(self)@.accounts);
        if !account.fits_after(tx.transaction_type, amount) {
            return Outcome::OutOfRange;
        }
        let r = if account.locked {
            Outcome::AccountLocked
        } else {
            Outcome::Applied
        };
        if tx.transaction_type == TransactionType::Dispute {
            account.dispute(amount);
            stored.set_disputed();
        } else {
            account.resolve(amount);
            stored.remove_disputed();
        }
        self.put_account(account);
        self.transactions.insert(stored.tx, stored);
        assert(self@.transactions =~= old(self)@.transactions.insert(tx.tx, stored));
        assert(self@.accounts.dom() =~= old(self)@.accounts.dom().insert(tx.client));
        r
    }

    fn process_dispute(&mut self, tx: Transaction) -> (r: Outcome)
        requires
            old(self).wf(),
            tx.transaction_type is Dispute,
        ensures
            final(self).wf(),
            final(self)@ == old(self)@.apply(tx),
            r == old(self)@.outcome(tx),
    {
        self.process_claim(tx)
    }

    fn process_resolve(&mut self, tx: Transaction) -> (r: Outcome)
        requires
            old(self).wf(),
            tx.transaction_type is Resolve,
        ensures
            final(self).wf(),
            final(self)@ == old(self)@.apply(tx),
            r == old(self)@.outcome(tx),
    {
        self.process_claim(tx)
    }

    /// Applies a chargeback to a disputed record of the same client, which
    /// locks the account.
    fn process_chargeback(&mut self, tx: Transaction) -> (r: Outcome)
        requires
            old(self).wf(),
            tx.transaction_type is Chargeback,
        ensures
            final(self).wf(),
            final(self)@ == old(self)@.apply(tx),
            r == old(self)@.outcome(tx),
    {
        let stored = match self.transactions.get(&tx.tx) {
            Some(s) => *s,
            None => {
                return Outcome::UnknownTransaction;
            },
        };
        if !stored.disputed {
            return Outcome::NotDisputed;
        }
        if stored.client != tx.client {
            return Outcome::ClientMismatch;
        }
        let amount = stored.amount.unwrap();
        assert(old(self)@.accounts.contains_key(tx.client));
        let mut account = self.get_or_create_account(tx.client);
        assert(self@.accounts =~= old(self)@.accounts);
        if !account.fits_after(tx.transaction_type, amount) {
            return Outcome::OutOfRange;
        }
        let r = if account.locked {
            Outcome::AccountLocked
        } else {
            Outcome::Applied
        };
        account.chargeback(amount);
        self.put_account(account);
        assert(self@.accounts.dom() =~= old(self)@.accounts.dom().insert(tx.client));
        r
    }

    /// The client's account, if it has one.
    pub fn get_account(&self, client: u16) -> (r: Option<Account>)
        ensures
            r is Some <==> self@.accounts.contains_key(client),
            r matches Some(a) ==> a@ == self@.accounts[client],
    {
        match self.accounts.get(&client) {
            Some(a) => Some(*a),
            None => None,
        }
    }

    /// The number of accounts.
    pub fn account_count(&self) -> (r: usize)
        requires
            self.wf(),
        ensures
            r == self@.accounts.len(),
    {
        assert(self@.accounts.dom() =~= self.accounts@.dom());
        self.accounts.len()
    }

    /// The number of stored deposits and withdrawals.
    pub fn transaction_count(&self) -> (r: usize)
        requires
            self.wf(),
        ensures
            r == self@.transactions.len(),
    {
        self.transactions.len()
    }

    /// A well-formed processor's ledger is consistent.
    pub proof fn lemma_consistent(&self)
        requires
            self.wf(),
        ensures
            self@.consistent(),
    {
    }

    /// The stored deposit or withdrawal with id `tx`.
    pub fn get_transaction(&mut self, tx: &u32) -> (r: Transaction)
        requires
            old(self)@.transactions.contains_key(*tx),
        ensures
            *final(self) == *old(self),
            r == old(self)@.transactions[*tx],
    {
        *self.transactions.get(tx).unwrap()
    }

    /// Every account, once each, in no contracted order.
    pub fn get_account_states(self) -> (r: Vec<Account>)
        requires
            self.wf(),
        ensures
            forall|i: int|
                0 <= i < r@.len() ==> self@.accounts.contains_key(#[trigger] r@[i].client)
                    && r@[i]@ == self@.accounts[r@[i].client],
            forall|c: u16| #[trigger]
                self@.accounts.contains_key(c) ==> exists|i: int|
                    0 <= i < r@.len() && #[trigger] r@[i].client == c,
            forall|i: int, j: int|
                0 <= i < j < r@.len() ==> #[trigger] r@[i].client != #[trigger] r@[j].client,
    {
        let mut r: Vec<Account> = Vec::new();
        let mut k: usize = 0;
        while k < self.clients.len()
            invariant
                self.wf(),
                k <= self.clients@.len(),
                r@.len() == k,
                forall|i: int|
                    0 <= i < k ==> #[trigger] r@[i].client == self.clients@[i]
                        && self.accounts@.contains_key(r@[i].client) && r@[i] == self.accounts@[r@[i].client],
            decreases self.clients@.len() - k,
        {
            let c = self.clients[k];
            assert(self.clients@.contains(c));
            r.push(*self.accounts.get(&c).unwrap());
            k = k + 1;
        }
        assert forall|c: u16| #[trigger] self@.accounts.contains_key(c) implies exists|i: int|
            0 <= i < r@.len() && #[trigger] r@[i].client == c by {
            assert(self.clients@.contains(c));
            let i = choose|i: int| 0 <= i < self.clients@.len() && self.clients@[i] == c;
            assert(r@[i].client == c);
        }
        r
    }
}

/// Every account has nothing held and a total equal to its available funds.
pub open spec fn settled(l: Ledger) -> bool {
    forall|c: u16| #[trigger]
        l.accounts.contains_key(c) ==> l.accounts[c].held == 0 && l.accounts[c].balanced()
}

proof fn lemma_funds_event_keeps_settled(l: Ledger, t: Transaction)
    requires
        settled(l),
        t.transaction_type.moves_funds(),
    ensures
        settled(l.apply(t)),
{
    let n = l.apply(t);
    assert forall|c: u16| #[trigger] n.accounts.contains_key(c) implies n.accounts[c].held == 0
        && n.accounts[c].balanced() by {
        if c != t.client {
            assert(l.accounts.contains_key(c));
        }
    }
}

/// Over deposits and withdrawals alone, no funds are ever held and every
/// total equals the available funds, after every event.
pub proof fn lemma_funds_events_keep_balance(l: Ledger, ts: Seq<Transaction>)
    requires
        settled(l),
        forall|i: int| 0 <= i < ts.len() ==> (#[trigger] ts[i]).transaction_type.moves_funds(),
    ensures
        forall|k: int| 0 <= k <= ts.len() ==> settled(#[trigger] l.apply_all(ts.take(k))),
    decreases ts.len(),
{
    if ts.len() > 0 {
        let p = ts.drop_last();
        lemma_funds_events_keep_balance(l, p);
        assert forall|k: int| 0 <= k <= ts.len() implies settled(#[trigger] l.apply_all(ts.take(k))) by {
            if k < ts.len() {
                assert(ts.take(k) =~= p.take(k));
            } else {
                assert(ts.take(k) =~= ts);
                assert(p.take(p.len() as int) =~= p);
                assert(ts.drop_last() == p);
                lemma_funds_event_keeps_settled(l.apply_all(p), ts.last());
            }
        }
    }
}

/// A dispute, resolve or chargeback that cites an id never stored changes
/// nothing.
pub proof fn lemma_unknown_reference_ignored(l: Ledger, t: Transaction)
    requires
        !t.transaction_type.moves_funds(),
        !l.transactions.contains_key(t.tx),
    ensures
        l.apply(t) == l,
        l.outcome(t) == Outcome::UnknownTransaction,
{
}

/// A dispute or resolve that cites another client's record changes nothing.
pub proof fn lemma_other_client_ignored(l: Ledger, t: Transaction)
    requires
        t.transaction_type is Dispute || t.transaction_type is Resolve,
        l.transactions.contains_key(t.tx),
        l.transactions[t.tx].client != t.client,
    ensures
        l.apply(t) == l,
        l.outcome(t) == Outcome::ClientMismatch,
{
}

/// Whatever event comes, a locked account keeps every field.
pub proof fn lemma_locked_account_unchanged(l: Ledger, t: Transaction, c: u16)
    requires
        l.accounts.contains_key(c),
        l.accounts[c].locked,
    ensures
        l.apply(t).accounts.contains_key(c),
        l.apply(t).accounts[c] == l.accounts[c],
{
}

/// A chargeback that applies locks the client's account.
pub proof fn lemma_chargeback_locks_account(l: Ledger, t: Transaction)
    requires
        t.transaction_type is Chargeback,
        l.outcome(t) == Outcome::Applied,
    ensures
        l.apply(t).accounts[t.client].locked,
{
}

/// A dispute moves the stored amount from the available to the held funds,
/// and a resolve of the same record that follows it restores every account.
pub proof fn lemma_dispute_then_resolve_restores(l: Ledger, d: Transaction, r: Transaction)
    requires
        l.consistent(),
        d.transaction_type is Dispute,
        r.transaction_type is Resolve,
        d.client == r.client,
        d.tx == r.tx,
        l.outcome(d) != Outcome::OutOfRange,
    ensures
        l.outcome(d) == Outcome::Applied ==> {
            let amount = l.transactions[d.tx].amount->0 as int;
            &&& l.apply(d).accounts[d.client].available == l.accounts[d.client].available - amount
            &&& l.apply(d).accounts[d.client].held == l.accounts[d.client].held + amount
            &&& l.apply(d).accounts[d.client].total == l.accounts[d.client].total
        },
        l.apply(d).apply(r).accounts == l.accounts,
{
    let l1 = l.apply(d);
    if l.transactions.contains_key(d.tx) && l.transactions[d.tx].client == d.client {
        let acct = l.accounts[d.client];
        assert(l1.accounts.contains_key(d.client));
        assert(l1.transactions.contains_key(d.tx));
        assert(l1.account_or_new(r.client) == l1.accounts[d.client]);
        assert(l1.claimed(r) == acct);
        assert(l1.apply(r).accounts =~= l.accounts);
    }
}

} // verus!
