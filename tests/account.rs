use ledger::account::Account;

// Amounts are in units of 1/10000.
const UNIT: i64 = 10000;

#[test]
fn should_increment_funds_after_deposit() {
    let mut account = Account::new(100);
    let amount = 250 * UNIT;
    account.deposit(amount);
    assert!(account.available == amount);
    assert!(account.held == 0);
    assert!(account.total == amount);
}

#[test]
fn withdraw_should_fail_if_insufficient_funds() {
    let mut account = Account::new(100);
    let amount = 250 * UNIT;
    account.deposit(100 * UNIT);
    account.withdraw(amount);
    assert!(account.available == 100 * UNIT);
    assert!(account.total == 100 * UNIT);
}

#[test]
fn withdraw_should_succeed_if_sufficient_funds() {
    let mut account = Account::new(100);
    let amount = 250 * UNIT;
    account.deposit(1000 * UNIT);
    account.withdraw(amount);
    assert!(account.available == (1000 * UNIT - amount));
    assert!(account.total == (1000 * UNIT - amount));
}

#[test]
fn dispute_should_increase_held_and_decrease_available_funds() {
    let mut account = Account::new(100);
    let amount = 250 * UNIT;
    let total = 1000 * UNIT;
    account.deposit(total);
    account.dispute(amount);

    assert!(account.available == total - amount);
    assert!(account.total == total);
    assert!(account.held == amount);
    assert!(account.total == account.available + account.held);
}

#[test]
fn resolve_should_decrease_held_and_increase_available_funds() {
    let mut account = Account::new(100);
    let disputed_amount = 250 * UNIT;
    let resolved_amount = 50 * UNIT;
    let total = 1000 * UNIT;

    account.deposit(total);
    account.dispute(disputed_amount);
    account.resolve(resolved_amount);

    assert!(account.held == disputed_amount - resolved_amount);
    assert!(account.available == total - disputed_amount + resolved_amount);

    assert!(account.total == total);
    assert!(account.total == account.available + account.held);
}

#[test]
fn chargeback_should_freeze_account() {
    let mut account = Account::new(100);
    let total = 1000 * UNIT;
    let chargeback_amount = 250 * UNIT;
    account.deposit(total);

    account.chargeback(chargeback_amount);

    assert!(account.locked);
}

#[test]
fn chargeback_should_decrease_held_and_total_funds() {
    let mut account = Account::new(100);
    let total = 1000 * UNIT;
    let chargeback_amount = 250 * UNIT;
    account.deposit(total);
    account.dispute(chargeback_amount);

    account.chargeback(chargeback_amount);

    assert!(account.total == total - chargeback_amount);
    assert!(account.held == 0);
}

#[test]
fn deposit_is_ignored_if_account_is_locked() {
    let mut account = Account::new(100);
    account.locked = true;
    account.deposit(100 * UNIT);

    assert!(account.held == 0);
    assert!(account.total == 0);
    assert!(account.available == 0);
}

#[test]
fn withdraw_is_ignored_if_account_is_locked() {
    let mut account = Account::new(100);
    let amount = 100 * UNIT;
    account.deposit(amount);

    account.locked = true;
    account.withdraw(amount);
    assert!(account.held == 0);
    assert!(account.total == amount);
    assert!(account.available == amount);
}

#[test]
fn dispute_is_ignored_if_account_is_locked() {
    let mut account = Account::new(100);
    let amount = 100 * UNIT;
    account.deposit(amount);

    account.locked = true;
    account.dispute(amount);
    assert!(account.held == 0);
    assert!(account.total == amount);
    assert!(account.available == amount);
}

#[test]
fn resolve_is_ignored_if_account_is_locked() {
    let mut account = Account::new(100);
    let amount = 100 * UNIT;
    account.deposit(amount);
    account.dispute(amount);

    account.locked = true;
    account.resolve(amount);
    assert!(account.held == amount);
    assert!(account.total == amount);
    assert!(account.available == 0);
}

#[test]
fn chargeback_is_ignored_if_account_is_locked() {
    let mut account = Account::new(100);
    let amount = 100 * UNIT;
    account.deposit(amount);
    account.dispute(amount);

    account.locked = true;
    account.chargeback(amount);
    assert!(account.held == amount);
    assert!(account.total == amount);
    assert!(account.available == 0);
}

#[test]
fn dispute_may_drive_available_negative() {
    let mut account = Account::new(1);
    account.deposit(100 * UNIT);
    account.withdraw(80 * UNIT);
    account.dispute(100 * UNIT);
    assert_eq!(account.available, -80 * UNIT);
    assert_eq!(account.held, 100 * UNIT);
    assert_eq!(account.total, 20 * UNIT);
}

#[test]
fn withdraw_never_leaves_available_negative() {
    let mut account = Account::new(1);
    account.deposit(10 * UNIT);
    account.withdraw(10 * UNIT);
    assert_eq!(account.available, 0);
    account.withdraw(1);
    assert_eq!(account.available, 0);
    assert_eq!(account.total, 0);
}

#[test]
fn dispute_then_resolve_restores_split() {
    let mut account = Account::new(1);
    account.deposit(300 * UNIT);
    account.dispute(120 * UNIT);
    assert_eq!(account.available, 180 * UNIT);
    assert_eq!(account.held, 120 * UNIT);
    account.resolve(120 * UNIT);
    assert_eq!(account.available, 300 * UNIT);
    assert_eq!(account.held, 0);
    assert_eq!(account.total, 300 * UNIT);
}

#[test]
fn second_chargeback_has_no_effect() {
    let mut account = Account::new(1);
    account.deposit(100 * UNIT);
    account.dispute(40 * UNIT);
    account.chargeback(40 * UNIT);
    let (available, held, total) = (account.available, account.held, account.total);
    account.chargeback(40 * UNIT);
    assert!(account.locked);
    assert_eq!((account.available, account.held, account.total), (available, held, total));
    assert_eq!((available, held, total), (60 * UNIT, 0, 60 * UNIT));
}

#[test]
fn fits_after_detects_overflow() {
    let mut account = Account::new(1);
    account.deposit(i64::MAX);
    assert!(!account.fits_after(ledger::transaction::TransactionType::Deposit, 1));
    assert!(account.fits_after(ledger::transaction::TransactionType::Withdrawal, 1));
    assert!(!account.fits_after(ledger::transaction::TransactionType::Dispute, i64::MIN));
}
