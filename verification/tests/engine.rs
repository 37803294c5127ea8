use std::str::FromStr;

use rust_decimal::Decimal;
use tx_processor::amount::Amount;
use tx_processor::engine::{EngineError, PaymentsEngine};
use tx_processor::model::{Account, ClientId, Operation, Transaction, TxId};

fn amount(d: Decimal) -> Amount {
    Amount::new(d.mantissa(), d.scale()).unwrap()
}

fn dec(text: &str) -> Amount {
    amount(Decimal::from_str(text).unwrap())
}

fn raw(operation: Operation, client: u16, tx: u32) -> Transaction {
    Transaction {
        client: ClientId(client),
        id: TxId(tx),
        operation,
    }
}

fn deposit(engine: &mut PaymentsEngine, client: u16, tx: u32, amount: Amount) {
    engine
        .process(raw(Operation::Deposit { amount }, client, tx))
        .unwrap();
}

fn account(engine: &PaymentsEngine, client: u16) -> &Account {
    &engine.accounts()[&client]
}

#[test]
fn deposit_credits_available() {
    let mut engine = PaymentsEngine::new();
    deposit(&mut engine, 1, 1, dec("10.0"));
    let acct = account(&engine, 1);
    assert_eq!(acct.available(), dec("10.0"));
    assert_eq!(acct.total().unwrap(), dec("10.0"));
}

#[test]
fn withdrawal_over_balance_fails() {
    let mut engine = PaymentsEngine::new();
    deposit(&mut engine, 1, 1, dec("5.0"));
    let err = engine
        .process(raw(Operation::Withdrawal { amount: dec("10.0") }, 1, 2))
        .unwrap_err();
    assert!(matches!(err, EngineError::InsufficientFunds { .. }));
    assert_eq!(account(&engine, 1).available(), dec("5.0"));
}

#[test]
fn dispute_holds_then_resolve_releases() {
    let mut engine = PaymentsEngine::new();
    deposit(&mut engine, 1, 1, dec("10.0"));
    engine.process(raw(Operation::Dispute, 1, 1)).unwrap();
    let acct = account(&engine, 1);
    assert_eq!(acct.available(), dec("0.0"));
    assert_eq!(acct.held(), dec("10.0"));
    engine.process(raw(Operation::Resolve, 1, 1)).unwrap();
    let acct = account(&engine, 1);
    assert_eq!(acct.available(), dec("10.0"));
    assert_eq!(acct.held(), dec("0.0"));
}

#[test]
fn chargeback_locks_and_rejects_further_tx() {
    let mut engine = PaymentsEngine::new();
    deposit(&mut engine, 1, 1, dec("10.0"));
    engine.process(raw(Operation::Dispute, 1, 1)).unwrap();
    engine.process(raw(Operation::Chargeback, 1, 1)).unwrap();
    assert!(account(&engine, 1).is_locked());
    let err = engine
        .process(raw(Operation::Deposit { amount: dec("5.0") }, 1, 2))
        .unwrap_err();
    assert!(matches!(err, EngineError::AccountLocked { .. }));
}

#[test]
fn dispute_of_withdrawal_is_ignored() {
    let mut engine = PaymentsEngine::new();
    deposit(&mut engine, 1, 1, dec("10.0"));
    engine
        .process(raw(Operation::Withdrawal { amount: dec("4.0") }, 1, 2))
        .unwrap();
    let err = engine.process(raw(Operation::Dispute, 1, 2)).unwrap_err();
    assert!(matches!(err, EngineError::NotDisputable { .. }));
    let acct = account(&engine, 1);
    assert_eq!(acct.available(), dec("6.0"));
    assert_eq!(acct.held(), dec("0.0"));
    assert_eq!(acct.total().unwrap(), dec("6.0"));
}

#[test]
fn cross_client_dispute_is_ignored() {
    let mut engine = PaymentsEngine::new();
    deposit(&mut engine, 1, 1, dec("5.0"));
    let err = engine.process(raw(Operation::Dispute, 2, 1)).unwrap_err();
    assert!(matches!(err, EngineError::ClientMismatch { .. }));
    assert_eq!(account(&engine, 1).available(), dec("5.0"));
}

#[test]
fn duplicate_tx_id_is_ignored() {
    let mut engine = PaymentsEngine::new();
    deposit(&mut engine, 1, 1, dec("5.0"));
    let err = engine
        .process(raw(
            Operation::Deposit {
                amount: dec("100.0"),
            },
            1,
            1,
        ))
        .unwrap_err();
    assert!(matches!(err, EngineError::DuplicateTx { .. }));
    assert_eq!(account(&engine, 1).available(), dec("5.0"));
}

#[test]
fn redispute_allowed_after_resolve() {
    let mut engine = PaymentsEngine::new();
    deposit(&mut engine, 1, 1, dec("10.0"));
    engine.process(raw(Operation::Dispute, 1, 1)).unwrap();
    engine.process(raw(Operation::Resolve, 1, 1)).unwrap();
    engine.process(raw(Operation::Dispute, 1, 1)).unwrap();
    assert_eq!(account(&engine, 1).held(), dec("10.0"));
}

#[test]
fn no_dispute_after_chargeback() {
    let mut engine = PaymentsEngine::new();
    deposit(&mut engine, 1, 1, dec("10.0"));
    engine.process(raw(Operation::Dispute, 1, 1)).unwrap();
    engine.process(raw(Operation::Chargeback, 1, 1)).unwrap();
    let err = engine.process(raw(Operation::Dispute, 1, 1)).unwrap_err();
    assert!(matches!(err, EngineError::InvalidDisputeState { .. }));
}

#[test]
fn locked_account_rejects_new_dispute() {
    let mut engine = PaymentsEngine::new();
    deposit(&mut engine, 1, 1, dec("10.0"));
    deposit(&mut engine, 1, 2, dec("20.0"));
    engine.process(raw(Operation::Dispute, 1, 1)).unwrap();
    engine.process(raw(Operation::Chargeback, 1, 1)).unwrap();

    let err = engine.process(raw(Operation::Dispute, 1, 2)).unwrap_err();

    assert!(matches!(err, EngineError::AccountLocked { .. }));
    let acct = account(&engine, 1);
    assert_eq!(acct.available(), dec("20.0"));
    assert_eq!(acct.held(), dec("0.0"));
    assert_eq!(acct.total().unwrap(), dec("20.0"));
    assert!(acct.is_locked());
}

#[test]
fn negative_amount_is_rejected() {
    let mut engine = PaymentsEngine::new();
    let err = engine
        .process(raw(Operation::Deposit { amount: dec("-1.0") }, 1, 1))
        .unwrap_err();
    assert!(matches!(err, EngineError::NegativeAmount { .. }));
    assert!(engine.accounts().get(&1).is_none());
}

#[test]
fn deposit_overflowing_total_is_rejected_atomically() {
    let mut engine = PaymentsEngine::new();
    deposit(&mut engine, 1, 1, amount(Decimal::MAX));
    engine.process(raw(Operation::Dispute, 1, 1)).unwrap();

    let err = engine
        .process(raw(Operation::Deposit { amount: dec("1.0") }, 1, 2))
        .unwrap_err();

    assert!(matches!(err, EngineError::AccountArithmetic { .. }));
    let acct = account(&engine, 1);
    assert_eq!(acct.available(), amount(Decimal::ZERO));
    assert_eq!(acct.held(), amount(Decimal::MAX));
    assert_eq!(acct.total().unwrap(), amount(Decimal::MAX));

    engine
        .process(raw(Operation::Deposit { amount: dec("0.0") }, 1, 2))
        .unwrap();
}
