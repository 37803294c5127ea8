use std::str::FromStr;

use rust_decimal::Decimal;
use tx_processor::amount::Amount;
use tx_processor::model::{format_amount, Account, AccountArithmeticError, AccountRecord, ClientId};

fn amount(d: Decimal) -> Amount {
    Amount::new(d.mantissa(), d.scale()).unwrap()
}

fn dec(text: &str) -> Amount {
    amount(Decimal::from_str(text).unwrap())
}

#[test]
fn formats_keep_one_decimal_place() {
    assert_eq!(format_amount(dec("0")), "0.0");
    assert_eq!(format_amount(dec("2.0")), "2.0");
    assert_eq!(format_amount(dec("1.5")), "1.5");
    assert_eq!(format_amount(dec("-60.0")), "-60.0");
    assert_eq!(format_amount(dec("3.2344")), "3.2344");
}

#[test]
fn formats_round_to_four_places() {
    assert_eq!(format_amount(dec("1.23456")), "1.2346");
}

#[test]
fn account_deposit_overflow_is_fallible_and_atomic() {
    let mut account = Account::default();

    account.deposit(amount(Decimal::MAX)).unwrap();
    let err = account.deposit(dec("1.0")).unwrap_err();

    assert_eq!(err, AccountArithmeticError);
    assert_eq!(account.available(), amount(Decimal::MAX));
    assert_eq!(account.held(), amount(Decimal::ZERO));
}

#[test]
fn account_dispute_overflow_is_fallible_and_atomic() {
    let mut account = Account::default();
    account.deposit(amount(Decimal::MAX)).unwrap();
    account.dispute(amount(Decimal::MAX)).unwrap();

    let err = account.dispute(dec("1.0")).unwrap_err();

    assert_eq!(err, AccountArithmeticError);
    assert_eq!(account.available(), amount(Decimal::ZERO));
    assert_eq!(account.held(), amount(Decimal::MAX));
    assert!(!account.is_locked());
}

#[test]
fn account_chargeback_locks_in_the_same_atomic_update() {
    let mut account = Account::new(amount(Decimal::ZERO), amount(Decimal::MIN), false);

    let err = account.chargeback(dec("1.0")).unwrap_err();

    assert_eq!(err, AccountArithmeticError);
    assert_eq!(account.held(), amount(Decimal::MIN));
    assert!(!account.is_locked());
}

#[test]
fn account_total_overflow_is_fallible() {
    let account = Account::new(amount(Decimal::MAX), dec("1.0"), false);

    assert_eq!(account.total(), Err(AccountArithmeticError));
    assert!(AccountRecord::new(ClientId(1), &account).is_err());
}
