use std::str::FromStr;

use rust_decimal::Decimal;
use tx_processor::amount::Amount;
use tx_processor::model::{format_amount, Account, AccountArithmeticError};

fn amount(d: Decimal) -> Amount {
    Amount::new(d.mantissa(), d.scale()).unwrap()
}

fn dec(text: &str) -> Amount {
    amount(Decimal::from_str(text).unwrap())
}

#[test]
fn amount_new_checks_range() {
    let max = 79228162514264337593543950335i128;
    assert!(Amount::new(max, 0).is_some());
    assert!(Amount::new(-max, 28).is_some());
    assert!(Amount::new(max + 1, 0).is_none());
    assert!(Amount::new(-max - 1, 0).is_none());
    assert!(Amount::new(1, 29).is_none());
    let a = Amount::new(-12345, 3).unwrap();
    assert_eq!(a.mantissa(), -12345);
    assert_eq!(a.scale(), 3);
    assert_eq!(Amount::zero().mantissa(), 0);
    assert_eq!(Amount::zero().scale(), 0);
}

#[test]
fn amount_equality_is_by_value() {
    assert_eq!(dec("10"), dec("10.000"));
    assert_eq!(dec("0"), dec("-0.00"));
    assert_ne!(dec("10"), dec("10.0001"));
    assert_ne!(dec("-1"), dec("1"));
}

#[test]
fn format_rounds_half_to_even() {
    assert_eq!(format_amount(dec("0.00015")), "0.0002");
    assert_eq!(format_amount(dec("0.00025")), "0.0002");
    assert_eq!(format_amount(dec("-1.23455")), "-1.2346");
    assert_eq!(format_amount(dec("0.00005")), "0.0");
    assert_eq!(format_amount(dec("-0.00004")), "0.0");
}

#[test]
fn format_strips_trailing_zeros() {
    assert_eq!(format_amount(dec("2.50000")), "2.5");
    assert_eq!(format_amount(dec("100")), "100.0");
    assert_eq!(format_amount(dec("-0.0500")), "-0.05");
    assert_eq!(format_amount(dec("12.3400")), "12.34");
}

#[test]
fn deposit_adds_across_scales() {
    let mut account = Account::default();
    account.deposit(dec("1.5")).unwrap();
    account.deposit(dec("2.25")).unwrap();
    account.deposit(dec("3")).unwrap();
    assert_eq!(account.available(), dec("6.75"));
    assert_eq!(account.available().scale(), 2);
    assert_eq!(account.total().unwrap(), dec("6.75"));
}

#[test]
fn withdrawal_subtracts_across_scales() {
    let mut account = Account::new(dec("10"), dec("0"), false);
    account.withdrawal(dec("0.0001")).unwrap();
    assert_eq!(account.available(), dec("9.9999"));
    assert_eq!(account.held(), dec("0"));
}

#[test]
fn dispute_resolve_chargeback_move_funds() {
    let mut account = Account::new(dec("7.5"), dec("0"), false);
    account.dispute(dec("2.5")).unwrap();
    assert_eq!(account.available(), dec("5"));
    assert_eq!(account.held(), dec("2.5"));
    assert_eq!(account.total().unwrap(), dec("7.5"));
    account.resolve(dec("1")).unwrap();
    assert_eq!(account.available(), dec("6"));
    assert_eq!(account.held(), dec("1.5"));
    account.chargeback(dec("1.5")).unwrap();
    assert_eq!(account.available(), dec("6"));
    assert_eq!(account.held(), dec("0"));
    assert!(account.is_locked());
}

#[test]
fn withdrawal_overflow_below_minimum_is_atomic() {
    let mut account = Account::new(amount(Decimal::MIN), dec("0"), false);
    assert_eq!(account.withdrawal(dec("1")), Err(AccountArithmeticError));
    assert_eq!(account.available(), amount(Decimal::MIN));
}

#[test]
fn dispute_of_tiny_amount_rounds_available() {
    // Ten minus 10^-28 needs 29 significant digits: the difference is rounded.
    let mut account = Account::new(dec("10"), dec("0"), false);
    let tiny = dec("0.0000000000000000000000000001");
    account.dispute(tiny).unwrap();
    assert_eq!(account.available(), dec("10"));
    assert_eq!(account.held(), tiny);
}
