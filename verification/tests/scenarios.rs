use std::collections::HashMap;
use std::str::FromStr;

use rust_decimal::Decimal;
use tx_processor::amount::Amount;
use tx_processor::engine::{EngineError, PaymentsEngine};
use tx_processor::io::{account_headers, account_records};
use tx_processor::model::{Account, AccountArithmeticError, ClientId, Operation, Transaction, TxId};

fn amount(d: Decimal) -> Amount {
    Amount::new(d.mantissa(), d.scale()).unwrap()
}

fn dec(text: &str) -> Amount {
    amount(Decimal::from_str(text).unwrap())
}

fn row(kind: &str, client: u16, tx: u32, value: &str) -> Transaction {
    let operation = match kind {
        "deposit" => Operation::Deposit { amount: dec(value) },
        "withdrawal" => Operation::Withdrawal { amount: dec(value) },
        "dispute" => Operation::Dispute,
        "resolve" => Operation::Resolve,
        "chargeback" => Operation::Chargeback,
        _ => panic!("unknown kind"),
    };
    Transaction {
        client: ClientId(client),
        id: TxId(tx),
        operation,
    }
}

/// Runs the rows through a fresh engine and renders the account report.
fn run(rows: &[(&str, u16, u32, &str)]) -> (PaymentsEngine, Vec<String>) {
    let mut engine = PaymentsEngine::new();
    for (kind, client, tx, value) in rows {
        let _ = engine.process(row(kind, *client, *tx, value));
    }
    let lines = report(engine.accounts());
    (engine, lines)
}

fn report(accounts: &HashMap<u16, Account>) -> Vec<String> {
    let mut lines = vec![account_headers().join(",")];
    let (records, failure) = account_records(accounts);
    assert!(failure.is_none());
    for r in records {
        lines.push(format!(
            "{},{},{},{},{}",
            r.client.0, r.available, r.held, r.total, r.locked
        ));
    }
    lines
}

#[test]
fn basic_deposits_and_withdrawals() {
    let (_, lines) = run(&[
        ("deposit", 1, 1, "1.0"),
        ("deposit", 2, 2, "2.0"),
        ("deposit", 1, 3, "2.0"),
        ("withdrawal", 1, 4, "1.5"),
        ("withdrawal", 2, 5, "3.0"),
    ]);
    assert_eq!(
        lines,
        vec![
            "client,available,held,total,locked",
            "1,1.5,0.0,1.5,false",
            "2,2.0,0.0,2.0,false",
        ]
    );
}

#[test]
fn header_only_for_no_accounts() {
    let (_, lines) = run(&[]);
    assert_eq!(lines, vec!["client,available,held,total,locked"]);
}

#[test]
fn precision_is_exact() {
    let (_, lines) = run(&[
        ("deposit", 1, 1, "1.2345"),
        ("deposit", 1, 2, "2.0001"),
        ("withdrawal", 1, 3, "0.0002"),
    ]);
    assert_eq!(lines[1], "1,3.2344,0.0,3.2344,false");
}

#[test]
fn fraud_chargeback_leaves_negative_balance() {
    let (_, lines) = run(&[
        ("deposit", 1, 1, "100.0"),
        ("withdrawal", 1, 2, "60.0"),
        ("dispute", 1, 1, ""),
        ("chargeback", 1, 1, ""),
        ("deposit", 1, 3, "5.0"),
    ]);
    assert_eq!(lines[1], "1,-60.0,0.0,-60.0,true");
}

#[test]
fn dispute_of_spent_deposit_makes_available_negative() {
    let (_, lines) = run(&[
        ("deposit", 1, 1, "10.0"),
        ("withdrawal", 1, 2, "5.0"),
        ("withdrawal", 1, 3, "10.0"),
        ("dispute", 1, 1, ""),
    ]);
    assert_eq!(lines[1], "1,-5.0,10.0,5.0,false");
}

#[test]
fn interleaved_clients_are_independent() {
    let (_, lines) = run(&[
        ("deposit", 3, 30, "7.5"),
        ("deposit", 1, 5, "10.0"),
        ("deposit", 2, 1, "20.0"),
        ("deposit", 1, 2, "5.0"),
        ("dispute", 2, 1, ""),
        ("withdrawal", 2, 9, "5.0"),
        ("resolve", 2, 1, ""),
        ("withdrawal", 2, 10, "5.0"),
    ]);
    assert_eq!(
        lines,
        vec![
            "client,available,held,total,locked",
            "1,15.0,0.0,15.0,false",
            "2,15.0,0.0,15.0,false",
            "3,7.5,0.0,7.5,false",
        ]
    );
}

#[test]
fn locked_account_can_still_resolve_existing_dispute() {
    let (engine, lines) = run(&[
        ("deposit", 1, 1, "10.0"),
        ("deposit", 1, 2, "20.0"),
        ("dispute", 1, 1, ""),
        ("dispute", 1, 2, ""),
        ("chargeback", 1, 1, ""),
        ("resolve", 1, 2, ""),
    ]);
    assert_eq!(lines[1], "1,20.0,0.0,20.0,true");
    assert!(engine.accounts()[&1].is_locked());
}

#[test]
fn unknown_references_are_refused() {
    let mut engine = PaymentsEngine::new();
    engine.process(row("deposit", 1, 1, "5.0")).unwrap();
    for kind in ["dispute", "resolve", "chargeback"] {
        let err = engine.process(row(kind, 1, 99, "")).unwrap_err();
        assert_eq!(err, EngineError::UnknownTx { tx: TxId(99) });
    }
    assert_eq!(engine.accounts()[&1].available(), dec("5.0"));
    assert!(!engine.accounts()[&1].is_locked());
}

#[test]
fn resolve_and_chargeback_need_an_open_dispute() {
    let mut engine = PaymentsEngine::new();
    engine.process(row("deposit", 1, 1, "5.0")).unwrap();
    let err = engine.process(row("resolve", 1, 1, "")).unwrap_err();
    assert_eq!(err, EngineError::InvalidDisputeState { tx: TxId(1), kind: "resolve" });
    let err = engine.process(row("chargeback", 1, 1, "")).unwrap_err();
    assert_eq!(err, EngineError::InvalidDisputeState { tx: TxId(1), kind: "chargeback" });
    engine.process(row("dispute", 1, 1, "")).unwrap();
    let err = engine.process(row("dispute", 1, 1, "")).unwrap_err();
    assert_eq!(err, EngineError::InvalidDisputeState { tx: TxId(1), kind: "dispute" });
    let acct = &engine.accounts()[&1];
    assert_eq!(acct.available(), dec("0"));
    assert_eq!(acct.held(), dec("5.0"));
}

#[test]
fn cross_client_resolve_and_chargeback_are_refused() {
    let mut engine = PaymentsEngine::new();
    engine.process(row("deposit", 1, 1, "5.0")).unwrap();
    engine.process(row("deposit", 2, 2, "5.0")).unwrap();
    engine.process(row("dispute", 1, 1, "")).unwrap();
    let err = engine.process(row("resolve", 2, 1, "")).unwrap_err();
    assert_eq!(err, EngineError::ClientMismatch { tx: TxId(1), client: ClientId(2) });
    let err = engine.process(row("chargeback", 2, 1, "")).unwrap_err();
    assert_eq!(err, EngineError::ClientMismatch { tx: TxId(1), client: ClientId(2) });
    engine.process(row("resolve", 1, 1, "")).unwrap();
    assert_eq!(engine.accounts()[&1].available(), dec("5.0"));
    assert_eq!(engine.accounts()[&2].available(), dec("5.0"));
}

#[test]
fn refused_row_does_not_reserve_its_id() {
    let mut engine = PaymentsEngine::new();
    engine.process(row("deposit", 1, 1, "5.0")).unwrap();
    let err = engine.process(row("withdrawal", 1, 2, "10.0")).unwrap_err();
    assert_eq!(err, EngineError::InsufficientFunds { tx: TxId(2), amount: dec("10.0") });
    engine.process(row("deposit", 1, 2, "1.0")).unwrap();
    assert_eq!(engine.accounts()[&1].available(), dec("6.0"));
}

#[test]
fn failed_first_withdrawal_opens_an_empty_account() {
    let (engine, lines) = run(&[("withdrawal", 7, 1, "3.0")]);
    assert_eq!(lines[1], "7,0.0,0.0,0.0,false");
    assert_eq!(engine.accounts().len(), 1);
}

#[test]
fn negative_withdrawal_is_refused_before_anything_else() {
    let mut engine = PaymentsEngine::new();
    let err = engine.process(row("withdrawal", 1, 1, "-2.0")).unwrap_err();
    assert_eq!(err, EngineError::NegativeAmount { tx: TxId(1) });
    assert!(engine.accounts().is_empty());
}

#[test]
fn zero_amounts_change_nothing() {
    let (_, lines) = run(&[
        ("deposit", 1, 1, "5.0"),
        ("deposit", 1, 2, "0.0"),
        ("withdrawal", 1, 3, "0"),
    ]);
    assert_eq!(lines[1], "1,5.0,0.0,5.0,false");
}

#[test]
fn resolve_gives_back_the_balances() {
    let mut engine = PaymentsEngine::new();
    engine.process(row("deposit", 4, 1, "12.345")).unwrap();
    engine.process(row("withdrawal", 4, 2, "0.3")).unwrap();
    let before = engine.accounts()[&4];
    engine.process(row("dispute", 4, 1, "")).unwrap();
    let during = engine.accounts()[&4];
    assert_eq!(during.total().unwrap(), before.total().unwrap());
    assert_eq!(during.held(), dec("12.345"));
    engine.process(row("resolve", 4, 1, "")).unwrap();
    let after = engine.accounts()[&4];
    assert_eq!(after.available(), before.available());
    assert_eq!(after.held(), before.held());
    assert_eq!(after.is_locked(), before.is_locked());
}

#[test]
fn charged_back_deposit_stays_final() {
    let mut engine = PaymentsEngine::new();
    engine.process(row("deposit", 1, 1, "10.0")).unwrap();
    engine.process(row("dispute", 1, 1, "")).unwrap();
    engine.process(row("chargeback", 1, 1, "")).unwrap();
    for kind in ["dispute", "resolve", "chargeback"] {
        assert!(engine.process(row(kind, 1, 1, "")).is_err());
    }
    let acct = &engine.accounts()[&1];
    assert_eq!(acct.total().unwrap(), dec("0"));
    assert!(acct.is_locked());
}

#[test]
fn locked_account_refuses_withdrawal() {
    let mut engine = PaymentsEngine::new();
    engine.process(row("deposit", 1, 1, "10.0")).unwrap();
    engine.process(row("deposit", 1, 2, "10.0")).unwrap();
    engine.process(row("dispute", 1, 1, "")).unwrap();
    engine.process(row("chargeback", 1, 1, "")).unwrap();
    let err = engine.process(row("withdrawal", 1, 3, "1.0")).unwrap_err();
    assert_eq!(err, EngineError::AccountLocked { client: ClientId(1), kind: "withdrawal" });
    assert_eq!(engine.accounts()[&1].available(), dec("10.0"));
}

#[test]
fn records_come_out_sorted_and_complete() {
    let mut accounts = HashMap::new();
    for client in [500u16, 3, 65535, 0, 42] {
        accounts.insert(client, Account::new(dec("1.25"), dec("0.5"), client == 42));
    }
    let (records, failure) = account_records(&accounts);
    assert!(failure.is_none());
    let ids: Vec<u16> = records.iter().map(|r| r.client.0).collect();
    assert_eq!(ids, vec![0, 3, 42, 500, 65535]);
    assert_eq!(records[2].available, "1.25");
    assert_eq!(records[2].held, "0.5");
    assert_eq!(records[2].total, "1.75");
    assert!(records[2].locked);
    assert!(!records[0].locked);
}

#[test]
fn records_stop_at_unrepresentable_total() {
    let mut accounts = HashMap::new();
    accounts.insert(1u16, Account::new(dec("1.0"), dec("0"), false));
    accounts.insert(2u16, Account::new(amount(Decimal::MAX), dec("1.0"), false));
    accounts.insert(3u16, Account::new(dec("3.0"), dec("0"), false));
    let (records, failure) = account_records(&accounts);
    assert_eq!(records.len(), 1);
    assert_eq!(records[0].client, ClientId(1));
    assert_eq!(failure, Some((ClientId(2), AccountArithmeticError)));
}

#[test]
fn operation_names_match_type_column() {
    assert_eq!(Operation::Deposit { amount: dec("1") }.name(), "deposit");
    assert_eq!(Operation::Withdrawal { amount: dec("1") }.name(), "withdrawal");
    assert_eq!(Operation::Dispute.name(), "dispute");
    assert_eq!(Operation::Resolve.name(), "resolve");
    assert_eq!(Operation::Chargeback.name(), "chargeback");
}

#[test]
fn balances_agree_with_the_ledger() {
    // Client 1: deposits 10 (charged back), 20 (disputed), 5.5; withdrawal 3.25.
    let (engine, _) = run(&[
        ("deposit", 1, 1, "10"),
        ("deposit", 1, 2, "20"),
        ("deposit", 2, 3, "4"),
        ("deposit", 1, 4, "5.5"),
        ("withdrawal", 1, 5, "3.25"),
        ("withdrawal", 1, 6, "1000"),
        ("dispute", 1, 1, ""),
        ("dispute", 1, 2, ""),
        ("chargeback", 1, 1, ""),
        ("dispute", 2, 3, ""),
        ("resolve", 2, 3, ""),
    ]);
    let one = engine.accounts()[&1];
    assert_eq!(one.total().unwrap(), dec("22.25"));
    assert_eq!(one.held(), dec("20"));
    assert_eq!(one.available(), dec("2.25"));
    let two = engine.accounts()[&2];
    assert_eq!(two.total().unwrap(), dec("4"));
    assert_eq!(two.held(), dec("0"));
}

#[test]
fn withdrawal_undoes_deposit() {
    let mut account = Account::new(dec("3.5"), dec("1.25"), false);
    account.deposit(dec("0.125")).unwrap();
    account.withdrawal(dec("0.125")).unwrap();
    assert_eq!(account.available(), dec("3.5"));
    assert_eq!(account.held(), dec("1.25"));
    assert!(!account.is_locked());
}

#[test]
fn chargeback_of_disputed_deposit_on_locked_account_is_accepted() {
    let mut engine = PaymentsEngine::new();
    engine.process(row("deposit", 1, 1, "10.0")).unwrap();
    engine.process(row("deposit", 1, 2, "4.0")).unwrap();
    engine.process(row("dispute", 1, 1, "")).unwrap();
    engine.process(row("dispute", 1, 2, "")).unwrap();
    engine.process(row("chargeback", 1, 1, "")).unwrap();
    engine.process(row("chargeback", 1, 2, "")).unwrap();
    let acct = &engine.accounts()[&1];
    assert_eq!(acct.available(), dec("0"));
    assert_eq!(acct.held(), dec("0"));
    assert!(acct.is_locked());
}

#[test]
fn funded_withdrawal_is_accepted_to_zero() {
    let mut engine = PaymentsEngine::new();
    engine.process(row("deposit", 1, 1, "2.5")).unwrap();
    engine.process(row("withdrawal", 1, 2, "2.50")).unwrap();
    assert_eq!(engine.accounts()[&1].available(), dec("0"));
}
