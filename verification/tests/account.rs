use ledger::amount::Amount;
use ledger::csv::parse_amount;
use ledger::model::{Account, TransactionError};

fn amt(s: &str) -> Amount {
    parse_amount(s.as_bytes()).unwrap()
}

#[test]
fn test_rounding() {
    let mut account = Account::new(1);
    account.deposit(amt("140.12344"), 2).unwrap();
    assert_eq!(account.total(), amt("140.1234"));
    assert_eq!(account.held(), amt("0"));
    assert_eq!(account.available(), amt("140.1234"));
    account.deposit(amt("100.00002"), 1).unwrap();
    assert_eq!(account.total(), amt("240.1234"));
    assert_eq!(account.held(), amt("0"));
    assert_eq!(account.available(), amt("240.1234"));
}

#[test]
fn test_deposit() {
    let mut account = Account::new(1);
    account.deposit(amt("100.12"), 1).unwrap();
    account.deposit(amt("140.14"), 2).unwrap();
    assert_eq!(account.total(), amt("240.26"));
    assert_eq!(account.held(), amt("0"));
    assert_eq!(account.available(), amt("240.26"));
}

#[test]
fn test_deposit_locked() {
    let mut account = Account::new(1);
    account.deposit(amt("100.12"), 1).unwrap();
    account.dispute(1).unwrap();
    account.chargeback(1).unwrap();
    let err = account.deposit(amt("140.14"), 2).unwrap_err();
    assert!(matches!(err, TransactionError::AccountLocked));
    assert_eq!(account.total(), amt("0"));
    assert_eq!(account.held(), amt("0"));
    assert_eq!(account.available(), amt("0"));
}

#[test]
fn test_withdrawal() {
    let mut account = Account::new(1);
    account.deposit(amt("100.12"), 1).unwrap();
    account.deposit(amt("140.14"), 2).unwrap();
    account.withdraw(amt("40"), 3).unwrap();
    assert_eq!(account.total(), amt("200.26"));
    assert_eq!(account.held(), amt("0"));
    assert_eq!(account.available(), amt("200.26"));
}

#[test]
fn test_withdrawal_locked() {
    let mut account = Account::new(1);
    account.deposit(amt("100.12"), 1).unwrap();
    account.dispute(1).unwrap();
    account.chargeback(1).unwrap();
    let err = account.withdraw(amt("140.14"), 2).unwrap_err();
    assert!(matches!(err, TransactionError::AccountLocked));
    assert_eq!(account.total(), amt("0"));
    assert_eq!(account.held(), amt("0"));
    assert_eq!(account.available(), amt("0"));
}

#[test]
fn test_withdrawal_no_funds() {
    let mut account = Account::new(1);
    account.deposit(amt("100.12"), 1).unwrap();
    account.deposit(amt("140.14"), 2).unwrap();
    let err = account.withdraw(amt("340.14"), 2).unwrap_err();
    assert!(matches!(err, TransactionError::InsufficientFunds));
    assert_eq!(account.total(), amt("240.26"));
    assert_eq!(account.held(), amt("0"));
    assert_eq!(account.available(), amt("240.26"));
}

#[test]
fn test_dispute() {
    let mut account = Account::new(1);
    account.deposit(amt("100.12"), 1).unwrap();
    account.deposit(amt("140.14"), 2).unwrap();
    account.dispute(2).unwrap();
    account.withdraw(amt("40.04"), 3).unwrap();
    assert_eq!(account.total(), amt("200.22"));
    assert_eq!(account.held(), amt("140.14"));
    assert_eq!(account.available(), amt("60.08"));
}

#[test]
fn test_dispute_locked() {
    let mut account = Account::new(1);
    account.deposit(amt("100.12"), 1).unwrap();
    account.deposit(amt("200"), 2).unwrap();
    account.dispute(1).unwrap();
    account.chargeback(1).unwrap();
    let err = account.dispute(2).unwrap_err();
    assert!(matches!(err, TransactionError::AccountLocked));
    assert_eq!(account.total(), amt("200"));
    assert_eq!(account.held(), amt("0"));
    assert_eq!(account.available(), amt("200"));
}

#[test]
fn test_dispute_already_in_dispute() {
    let mut account = Account::new(1);
    account.deposit(amt("100.12"), 1).unwrap();
    account.deposit(amt("140.14"), 2).unwrap();
    account.withdraw(amt("40.04"), 3).unwrap();
    account.dispute(2).unwrap();
    let err = account.dispute(2).unwrap_err();
    assert!(matches!(err, TransactionError::TransactionAlreadyInDispute));
    assert_eq!(account.total(), amt("200.22"));
    assert_eq!(account.held(), amt("140.14"));
    assert_eq!(account.available(), amt("60.08"));
}

#[test]
fn test_dispute_tx_not_found() {
    let mut account = Account::new(1);
    account.deposit(amt("100.12"), 1).unwrap();
    account.deposit(amt("140.14"), 2).unwrap();
    let err = account.dispute(3).unwrap_err();
    assert!(matches!(err, TransactionError::TransactionNotFound));
    assert_eq!(account.total(), amt("240.26"));
    assert_eq!(account.held(), amt("0"));
    assert_eq!(account.available(), amt("240.26"));
}

#[test]
fn test_dispute_insufficient_funds() {
    let mut account = Account::new(1);
    account.deposit(amt("100.12"), 1).unwrap();
    account.deposit(amt("140.14"), 2).unwrap();
    account.withdraw(amt("200"), 3).unwrap();
    let err = account.dispute(1).unwrap_err();
    assert!(matches!(err, TransactionError::InsufficientFunds));
    assert_eq!(account.total(), amt("40.26"));
    assert_eq!(account.held(), amt("0"));
    assert_eq!(account.available(), amt("40.26"));
}

#[test]
fn test_dispute_invalid_operation() {
    let mut account = Account::new(1);
    account.deposit(amt("100.12"), 1).unwrap();
    account.deposit(amt("140.14"), 2).unwrap();
    account.withdraw(amt("200"), 3).unwrap();
    let err = account.dispute(3).unwrap_err();
    assert!(matches!(err, TransactionError::InvalidOperation));
    assert_eq!(account.total(), amt("40.26"));
    assert_eq!(account.held(), amt("0"));
    assert_eq!(account.available(), amt("40.26"));
}

#[test]
fn test_resolve() {
    let mut account = Account::new(1);
    account.deposit(amt("100.12"), 1).unwrap();
    account.deposit(amt("140.14"), 2).unwrap();
    account.dispute(2).unwrap();
    account.withdraw(amt("40.04"), 3).unwrap();
    account.resolve(2).unwrap();
    assert_eq!(account.total(), amt("200.22"));
    assert_eq!(account.held(), amt("0"));
    assert_eq!(account.available(), amt("200.22"));
}

#[test]
fn test_resolve_locked() {
    let mut account = Account::new(1);
    account.deposit(amt("100.12"), 1).unwrap();
    account.deposit(amt("200"), 2).unwrap();
    account.dispute(1).unwrap();
    account.dispute(2).unwrap();
    account.chargeback(1).unwrap();
    let err = account.resolve(2).unwrap_err();
    assert!(matches!(err, TransactionError::AccountLocked));
    assert_eq!(account.total(), amt("200"));
    assert_eq!(account.held(), amt("200"));
    assert_eq!(account.available(), amt("0"));
}

#[test]
fn test_resolve_not_in_dispute() {
    let mut account = Account::new(1);
    account.deposit(amt("100.12"), 1).unwrap();
    account.deposit(amt("200"), 2).unwrap();
    account.dispute(1).unwrap();
    let err = account.resolve(2).unwrap_err();
    assert!(matches!(err, TransactionError::TransactionNotInDispute));
    assert_eq!(account.total(), amt("300.12"));
    assert_eq!(account.held(), amt("100.12"));
    assert_eq!(account.available(), amt("200"));
}

#[test]
fn test_resolve_not_found() {
    let mut account = Account::new(1);
    account.deposit(amt("100.12"), 1).unwrap();
    account.deposit(amt("200"), 2).unwrap();
    account.dispute(1).unwrap();
    let err = account.resolve(4).unwrap_err();
    assert!(matches!(err, TransactionError::TransactionNotFound));
    assert_eq!(account.total(), amt("300.12"));
    assert_eq!(account.held(), amt("100.12"));
    assert_eq!(account.available(), amt("200"));
}

#[test]
fn test_chargeback() {
    let mut account = Account::new(1);
    account.deposit(amt("100.12"), 1).unwrap();
    account.deposit(amt("140.14"), 2).unwrap();
    account.dispute(2).unwrap();
    account.withdraw(amt("40.04"), 3).unwrap();
    account.chargeback(2).unwrap();
    assert_eq!(account.total(), amt("60.08"));
    assert_eq!(account.held(), amt("0"));
    assert_eq!(account.available(), amt("60.08"));
    assert!(account.locked());
}

#[test]
fn test_chargeback_locked() {
    let mut account = Account::new(1);
    account.deposit(amt("100.12"), 1).unwrap();
    account.deposit(amt("200"), 2).unwrap();
    account.dispute(1).unwrap();
    account.dispute(2).unwrap();
    account.chargeback(1).unwrap();
    let err = account.chargeback(2).unwrap_err();
    assert!(matches!(err, TransactionError::AccountLocked));
    assert_eq!(account.total(), amt("200"));
    assert_eq!(account.held(), amt("200"));
    assert_eq!(account.available(), amt("0"));
    assert!(account.locked());
}

#[test]
fn test_chargeback_not_in_dispute() {
    let mut account = Account::new(1);
    account.deposit(amt("100.12"), 1).unwrap();
    account.deposit(amt("200"), 2).unwrap();
    account.dispute(1).unwrap();
    let err = account.chargeback(2).unwrap_err();
    assert!(matches!(err, TransactionError::TransactionNotInDispute));
    assert_eq!(account.total(), amt("300.12"));
    assert_eq!(account.held(), amt("100.12"));
    assert_eq!(account.available(), amt("200"));
    assert!(!account.locked());
}

#[test]
fn test_chargeback_not_found() {
    let mut account = Account::new(1);
    account.deposit(amt("100.12"), 1).unwrap();
    account.deposit(amt("200"), 2).unwrap();
    account.dispute(1).unwrap();
    let err = account.chargeback(4).unwrap_err();
    assert!(matches!(err, TransactionError::TransactionNotFound));
    assert_eq!(account.total(), amt("300.12"));
    assert_eq!(account.held(), amt("100.12"));
    assert_eq!(account.available(), amt("200"));
    assert!(!account.locked());
}

#[test]
fn test_chargeback_without_dispute() {
    let mut account = Account::new(1);
    account.deposit(amt("100.12"), 1).unwrap();
    let err = account.chargeback(1).unwrap_err();
    assert!(matches!(err, TransactionError::TransactionNotInDispute));
    assert_eq!(account.total(), amt("100.12"));
    assert_eq!(account.available(), amt("100.12"));
}

#[test]
fn test_total_is_available_plus_held() {
    let mut account = Account::new(1);
    account.deposit(amt("100.12"), 1).unwrap();
    account.deposit(amt("140.12344"), 2).unwrap();
    account.dispute(1).unwrap();
    account.withdraw(amt("40"), 3).unwrap();
    account.resolve(1).unwrap();
    let sum = account.available().add(account.held());
    assert_eq!(account.total(), sum);
}

#[test]
fn test_checked_resolve_reports_uncovered_held() {
    let mut account = Account::new(1);
    account.deposit(amt("1"), 2).unwrap();
    // rounding leaves nothing in held for this sub-grain deposit
    account.deposit(amt("0.00004"), 1).unwrap();
    account.dispute(1).unwrap();
    assert_eq!(account.held(), amt("0"));
    assert!(account.checked_resolve(1).is_none());
    // nothing was applied
    assert_eq!(account.available(), amt("1"));
}

#[test]
fn test_checked_deposit_reports_out_of_range() {
    let mut account = Account::new(1);
    let huge = amt("99999999999999999999");
    assert!(matches!(account.checked_deposit(huge, 1), Some(Ok(()))));
    assert!(account.checked_deposit(huge, 2).is_none());
    assert_eq!(account.total(), huge);
}
