//! One client's balances and the five operations that change them.
use vstd::prelude::*;

use crate::transaction::TransactionType;

verus! {

/// One client's balances, in units of 1/10000.
#[derive(Debug, Clone, Copy)]
pub struct Account {
    pub client: u16,
    pub available: i64,
    pub held: i64,
    pub total: i64,
    pub locked: bool,
}

/// An account's balances as unbounded integers.
pub struct AccountModel {
    pub client: u16,
    pub available: int,
    pub held: int,
    pub total: int,
    pub locked: bool,
}

pub open spec fn in_i64(v: int) -> bool {
    i64::MIN <= v <= i64::MAX
}

impl AccountModel {
    /// Whether every balance can be held in an `i64`.
    pub open spec fn fits(self) -> bool {
        in_i64(self.available) && in_i64(self.held) && in_i64(self.total)
    }

    /// Whether `total == available + held`.
    pub open spec fn balanced(self) -> bool {
        self.total == self.available + self.held
    }

    pub open spec fn deposit(self, amount: int) -> AccountModel {
        if self.locked {
            self
        } else {
            AccountModel {
                available: self.available + amount,
                total: self.total + amount,
                ..self
            }
        }
    }

    /// A withdrawal is ignored where it exceeds the available funds.
    pub open spec fn withdraw(self, amount: int) -> AccountModel {
        if self.locked || self.available < amount {
            self
        } else {
            AccountModel {
                available: self.available - amount,
                total: self.total - amount,
                ..self
            }
        }
    }

    pub open spec fn dispute(self, amount: int) -> AccountModel {
        if self.locked {
            self
        } else {
            AccountModel {
                available: self.available - amount,
                held: self.held + amount,
                ..self
            }
        }
    }

    pub open spec fn resolve(self, amount: int) -> AccountModel {
        if self.locked {
            self
        } else {
            AccountModel {
                available: self.available + amount,
                held: self.held - amount,
                ..self
            }
        }
    }

    pub open spec fn chargeback(self, amount: int) -> AccountModel {
        if self.locked {
            self
        } else {
            AccountModel { locked: true, total: self.total - amount, held: self.held - amount, ..self }
        }
    }

    /// The operation that a transaction of kind `kind` applies.
    pub open spec fn apply(self, kind: TransactionType, amount: int) -> AccountModel {
        match kind {
            TransactionType::Deposit => self.deposit(amount),
            TransactionType::Withdrawal => self.withdraw(amount),
            TransactionType::Dispute => self.dispute(amount),
            TransactionType::Resolve => self.resolve(amount),
            TransactionType::Chargeback => self.chargeback(amount),
        }
    }
}

impl View for Account {
    type V = AccountModel;

    open spec fn view(&self) -> AccountModel {
        AccountModel {
            client: self.client,
            available: self.available as int,
            held: self.held as int,
            total: self.total as int,
            locked: self.locked,
        }
    }
}

/// The sum, where it can be held in an `i64`.
fn checked_sum(a: i64, b: i64) -> (r: Option<i64>)
    ensures
        r is Some <==> in_i64(a + b),
        r matches Some(v) ==> v == a + b,
{
    let s: i128 = a as i128 + b as i128;
    if s < -9_223_372_036_854_775_808 || s > 9_223_372_036_854_775_807 {
        None
    } else {
        Some(s as i64)
    }
}

/// The difference, where it can be held in an `i64`.
fn checked_difference(a: i64, b: i64) -> (r: Option<i64>)
    ensures
        r is Some <==> in_i64(a - b),
        r matches Some(v) ==> v == a - b,
{
    let s: i128 = a as i128 - b as i128;
    if s < -9_223_372_036_854_775_808 || s > 9_223_372_036_854_775_807 {
        None
    } else {
        Some(s as i64)
    }
}

impl Account {
    /// A new account of `client`: all balances zero, not locked.
    pub fn new(client: u16) -> (r: Account)
        ensures
            r@ == (AccountModel { client, available: 0, held: 0, total: 0, locked: false }),
    {
        Account { client, available: 0, held: 0, total: 0, locked: false }
    }

    /// Whether the operation of kind `kind` with `amount` leaves every
    /// balance within the range of an `i64`.
    pub fn fits_after(&self, kind: TransactionType, amount: i64) -> (r: bool)
        ensures
            r == self@.apply(kind, amount as int).fits(),
    {
        if self.locked {
            return true;
        }
        match kind {
            TransactionType::Deposit => checked_sum(self.available, amount).is_some()
                && checked_sum(self.total, amount).is_some(),
            TransactionType::Withdrawal => self.available < amount || (checked_difference(
                self.available,
                amount,
            ).is_some() && checked_difference(self.total, amount).is_some()),
            TransactionType::Dispute => checked_difference(self.available, amount).is_some()
                && checked_sum(self.held, amount).is_some(),
            TransactionType::Resolve => checked_sum(self.available, amount).is_some()
                && checked_difference(self.held, amount).is_some(),
            TransactionType::Chargeback => checked_difference(self.total, amount).is_some()
                && checked_difference(self.held, amount).is_some(),
        }
    }

    /// Adds `amount` to the available and total funds; a locked account is
    /// left as it is.
    pub fn deposit(&mut self, amount: i64)
        requires
            old(self)@.deposit(amount as int).fits(),
        ensures
            final(self)@ == old(self)@.deposit(amount as int),
    {
        if self.locked {
            return;
        }
        self.available = self.available + amount;
        self.total = self.total + amount;
    }

    /// Takes `amount` from the available and total funds where the available
    /// funds cover it; otherwise, or on a locked account, nothing changes.
    pub fn withdraw(&mut self, amount: i64)
        requires
            old(self)@.withdraw(amount as int).fits(),
        ensures
            final(self)@ == old(self)@.withdraw(amount as int),
            old(self).available >= 0 ==> final(self).available >= 0,
    {
        if self.locked {
            return;
        }
        if self.available >= amount {
            self.available = self.available - amount;
            self.total = self.total - amount;
        }
    }

    /// Moves `amount` from the available to the held funds; the available
    /// funds may become negative.
    pub fn dispute(&mut self, amount: i64)
        requires
            old(self)@.dispute(amount as int).fits(),
        ensures
            final(self)@ == old(self)@.dispute(amount as int),
    {
        if self.locked {
            return;
        }
        self.available = self.available - amount;
        self.held = self.held + amount;
    }

    /// Moves `amount` from the held back to the available funds.
    pub fn resolve(&mut self, amount: i64)
        requires
            old(self)@.resolve(amount as int).fits(),
        ensures
            final(self)@ == old(self)@.resolve(amount as int),
    {
        if self.locked {
            return;
        }
        self.available = self.available + amount;
        self.held = self.held - amount;
    }

    /// Locks the account for good and takes `amount` from the held and total
    /// funds.
    pub fn chargeback(&mut self, amount: i64)
        requires
            old(self)@.chargeback(amount as int).fits(),
        ensures
            final(self)@ == old(self)@.chargeback(amount as int),
    {
        if self.locked {
            return;
        }
        self.locked = true;
        self.total = self.total - amount;
        self.held = self.held - amount;
    }
}

/// A withdrawal never leaves the available funds negative when it applies,
/// and never makes non-negative available funds negative.
pub proof fn lemma_withdraw_keeps_available_nonneg(a: AccountModel, amount: int)
    ensures
        a.withdraw(amount) != a ==> a.withdraw(amount).available >= 0,
        a.available >= 0 ==> a.withdraw(amount).available >= 0,
{
}

/// A dispute moves exactly `amount` from the available to the held funds,
/// and resolving the same amount restores the account exactly.
pub proof fn lemma_dispute_then_resolve(a: AccountModel, amount: int)
    ensures
        !a.locked ==> a.dispute(amount).available == a.available - amount,
        !a.locked ==> a.dispute(amount).held == a.held + amount,
        a.dispute(amount).total == a.total,
        !a.locked ==> a.dispute(amount).resolve(amount).available == a.dispute(amount).available
            + amount,
        !a.locked ==> a.dispute(amount).resolve(amount).held == a.dispute(amount).held - amount,
        a.dispute(amount).resolve(amount) == a,
{
}

/// A chargeback locks the account.
pub proof fn lemma_chargeback_locks(a: AccountModel, amount: int)
    ensures
        a.chargeback(amount).locked,
{
}

/// On a locked account every operation leaves every field as it is.
pub proof fn lemma_locked_account_frozen(a: AccountModel, kind: TransactionType, amount: int)
    requires
        a.locked,
    ensures
        a.apply(kind, amount) == a,
        a.deposit(amount) == a,
        a.withdraw(amount) == a,
        a.dispute(amount) == a,
        a.resolve(amount) == a,
        a.chargeback(amount) == a,
{
}

/// A second chargeback has no effect.
pub proof fn lemma_second_chargeback_ignored(a: AccountModel, first: int, second: int)
    ensures
        a.chargeback(first).chargeback(second) == a.chargeback(first),
{
}

} // verus!
