//! The account state machine: applies one transaction at a time to the
//! per-client accounts and the store of accepted deposits and withdrawals.

use std::collections::HashMap;

use vstd::prelude::*;

use crate::amount::{decimal_lt, exact_difference, exact_sum, fits, units, valid_parts, Amount};
use crate::model::{
    balances_valid, dispute_round_trip_exact, lemma_chargeback_removes_held, lemma_deposit_credits,
    lemma_dispute_holds, lemma_resolve_releases,
    lemma_resolve_undoes_dispute, lemma_withdrawal_debits, Account,
    AccountArithmeticError, ClientId, Operation, StoredTransaction, Transaction, TxId,
};

verus! {

broadcast use {
    vstd::std_specs::hash::group_hash_axioms,
    crate::amount::Amount::group_amount_parts,
    crate::model::Account::group_account_parts,
};

/// Reasons a single row was skipped.
#[derive(Clone, Copy, Debug, PartialEq, Eq)]
pub enum EngineError {
    NegativeAmount { tx: TxId },
    DuplicateTx { tx: TxId },
    AccountLocked { client: ClientId, kind: &'static str },
    InsufficientFunds { tx: TxId, amount: Amount },
    AccountArithmetic { tx: TxId, source: AccountArithmeticError },
    UnknownTx { tx: TxId },
    ClientMismatch { tx: TxId, client: ClientId },
    NotDisputable { tx: TxId },
    InvalidDisputeState { tx: TxId, kind: &'static str },
}

/// The engine's state: accounts by client id, accepted transactions by tx id.
#[verifier::ext_equal]
pub struct EngineView {
    pub accounts: Map<u16, Account>,
    pub transactions: Map<u32, StoredTransaction>,
}

/// The client's account, or a fresh one if the client has none yet.
pub open spec fn account_or_default(accounts: Map<u16, Account>, client: u16) -> Account {
    if accounts.contains_key(client) {
        accounts[client]
    } else {
        Account::spec_default()
    }
}

/// `a < b` by value.
pub open spec fn less_than(a: Amount, b: Amount) -> bool {
    units(a@) < units(b@)
}

/// The state with the client's account looked up (and created if missing).
pub open spec fn touch_account(s: EngineView, client: u16) -> EngineView {
    EngineView {
        accounts: s.accounts.insert(client, account_or_default(s.accounts, client)),
        transactions: s.transactions,
    }
}

/// A deposit (`is_deposit`) or a withdrawal of `amount`.
pub open spec fn money_movement_spec(
    s: EngineView,
    tx: Transaction,
    amount: Amount,
    is_deposit: bool,
) -> (Result<(), EngineError>, EngineView) {
    let client = tx.client.0;
    let id = tx.id.0;
    if less_than(amount, Amount::from_parts_spec((0, 0))) {
        (Err(EngineError::NegativeAmount { tx: tx.id }), s)
    } else if s.transactions.contains_key(id) {
        (Err(EngineError::DuplicateTx { tx: tx.id }), s)
    } else {
        let account = account_or_default(s.accounts, client);
        let touched = touch_account(s, client);
        if account.spec_locked() {
            (Err(EngineError::AccountLocked { client: tx.client, kind: tx.operation.spec_name() }), touched)
        } else if !is_deposit && less_than(account.spec_available(), amount) {
            (Err(EngineError::InsufficientFunds { tx: tx.id, amount }), touched)
        } else {
            let result = if is_deposit {
                account.spec_deposit(amount)
            } else {
                account.spec_withdrawal(amount)
            };
            match result {
                Err(source) => (Err(EngineError::AccountArithmetic { tx: tx.id, source }), touched),
                Ok(next) => (
                    Ok(()),
                    EngineView {
                        accounts: s.accounts.insert(client, next),
                        transactions: s.transactions.insert(id, StoredTransaction::Undisputed(tx)),
                    },
                ),
            }
        }
    }
}

/// Which step of the dispute lifecycle a row asks for.
pub enum DisputeStep {
    Dispute,
    Resolve,
    Chargeback,
}

/// The stored transaction after `step`, with the amount it moves; or the
/// reason the step does not apply to it.
pub open spec fn lifecycle_step(
    stored: StoredTransaction,
    step: DisputeStep,
    id: TxId,
    kind: &'static str,
) -> Result<(Amount, StoredTransaction), EngineError> {
    match step {
        DisputeStep::Dispute => match stored {
            StoredTransaction::Undisputed(t) => match t.operation {
                Operation::Deposit { amount } => Ok((amount, StoredTransaction::Disputed(t))),
                Operation::Withdrawal { .. } => Err(EngineError::NotDisputable { tx: id }),
                _ => Err(EngineError::InvalidDisputeState { tx: id, kind }),
            },
            _ => match stored.spec_transaction().operation {
                Operation::Withdrawal { .. } => Err(EngineError::NotDisputable { tx: id }),
                _ => Err(EngineError::InvalidDisputeState { tx: id, kind }),
            },
        },
        DisputeStep::Resolve => match stored {
            StoredTransaction::Disputed(t) => match t.operation {
                Operation::Deposit { amount } => Ok((amount, StoredTransaction::Undisputed(t))),
                _ => Err(EngineError::InvalidDisputeState { tx: id, kind }),
            },
            _ => Err(EngineError::InvalidDisputeState { tx: id, kind }),
        },
        DisputeStep::Chargeback => match stored {
            StoredTransaction::Disputed(t) => match t.operation {
                Operation::Deposit { amount } => Ok((amount, StoredTransaction::ChargedBack(t))),
                _ => Err(EngineError::InvalidDisputeState { tx: id, kind }),
            },
            _ => Err(EngineError::InvalidDisputeState { tx: id, kind }),
        },
    }
}

/// A dispute, resolve or chargeback row referring to transaction `id`.
pub open spec fn dispute_lifecycle_spec(
    s: EngineView,
    client: ClientId,
    id: TxId,
    step: DisputeStep,
    kind: &'static str,
) -> (Result<(), EngineError>, EngineView) {
    if !s.transactions.contains_key(id.0) {
        (Err(EngineError::UnknownTx { tx: id }), s)
    } else if s.transactions[id.0].spec_transaction().client != client {
        (Err(EngineError::ClientMismatch { tx: id, client }), s)
    } else {
        match lifecycle_step(s.transactions[id.0], step, id, kind) {
            Err(e) => (Err(e), s),
            Ok((amount, next)) => {
                let account = account_or_default(s.accounts, client.0);
                let touched = touch_account(s, client.0);
                if step is Dispute && account.spec_locked() {
                    (Err(EngineError::AccountLocked { client, kind }), touched)
                } else {
                    let result = match step {
                        DisputeStep::Dispute => account.spec_dispute(amount),
                        DisputeStep::Resolve => account.spec_resolve(amount),
                        DisputeStep::Chargeback => account.spec_chargeback(amount),
                    };
                    match result {
                        Err(source) => (Err(EngineError::AccountArithmetic { tx: id, source }), touched),
                        Ok(updated) => (
                            Ok(()),
                            EngineView {
                                accounts: s.accounts.insert(client.0, updated),
                                transactions: s.transactions.insert(id.0, next),
                            },
                        ),
                    }
                }
            },
        }
    }
}

/// The outcome of applying `tx` to the state `s`, and the state after it.
pub open spec fn process_spec(s: EngineView, tx: Transaction) -> (Result<(), EngineError>, EngineView) {
    let kind = tx.operation.spec_name();
    match tx.operation {
        Operation::Deposit { amount } => money_movement_spec(s, tx, amount, true),
        Operation::Withdrawal { amount } => money_movement_spec(s, tx, amount, false),
        Operation::Dispute => dispute_lifecycle_spec(s, tx.client, tx.id, DisputeStep::Dispute, kind),
        Operation::Resolve => dispute_lifecycle_spec(s, tx.client, tx.id, DisputeStep::Resolve, kind),
        Operation::Chargeback => dispute_lifecycle_spec(s, tx.client, tx.id, DisputeStep::Chargeback, kind),
    }
}

/// Every account's derived total is representable.
pub open spec fn totals_representable(accounts: Map<u16, Account>) -> bool {
    forall|c: u16| #[trigger] accounts.contains_key(c) ==> accounts[c].spec_total() is Ok
}

/// Per-client accounts plus accepted deposits and withdrawals.
pub struct PaymentsEngine {
    accounts: HashMap<u16, Account>,
    transactions: HashMap<u32, StoredTransaction>,
}

impl View for PaymentsEngine {
    type V = EngineView;

    closed spec fn view(&self) -> EngineView {
        EngineView { accounts: self.accounts@, transactions: self.transactions@ }
    }
}

impl PaymentsEngine {
    #[verifier::type_invariant]
    spec fn well_formed(self) -> bool {
        totals_representable(self.accounts@)
    }

    pub fn new() -> (r: PaymentsEngine)
        ensures
            r@.accounts == Map::<u16, Account>::empty(),
            r@.transactions == Map::<u32, StoredTransaction>::empty(),
    {
        PaymentsEngine { accounts: HashMap::new(), transactions: HashMap::new() }
    }

    /// All accounts by client id; every total is representable.
    pub fn accounts(&self) -> (r: &HashMap<u16, Account>)
        ensures
            r@ == self@.accounts,
            totals_representable(r@),
    {
        proof {
            use_type_invariant(self);
        }
        &self.accounts
    }

    /// Apply one transaction. On `Err`, balances and stored transactions are
    /// not updated, though a first row of a new client still opens its account.
    pub fn process(&mut self, tx: Transaction) -> (r: Result<(), EngineError>)
        ensures
            (r, final(self)@) == process_spec(old(self)@, tx),
    {
        // The operation names itself, so messages stay in step with the `type` column.
        let kind = tx.operation.name();
        match tx.operation {
            Operation::Deposit { amount } => self.deposit(tx, amount, kind),
            Operation::Withdrawal { amount } => self.withdrawal(tx, amount, kind),
            Operation::Dispute => self.dispute(tx.client, tx.id, kind),
            Operation::Resolve => self.resolve(tx.client, tx.id, kind),
            Operation::Chargeback => self.chargeback(tx.client, tx.id, kind),
        }
    }

    fn deposit(&mut self, tx: Transaction, amount: Amount, kind: &'static str) -> (r: Result<(), EngineError>)
        requires
            kind == tx.operation.spec_name(),
        ensures
            (r, final(self)@) == money_movement_spec(old(self)@, tx, amount, true),
    {
        let mut account = self.begin_transaction(tx.client, tx.id, amount, kind)?;
        match account.deposit(amount) {
            Err(source) => Err(EngineError::AccountArithmetic { tx: tx.id, source }),
            Ok(()) => {
                self.put_account(tx.client.0, account);
                self.put_transaction(tx.id.0, StoredTransaction::Undisputed(tx));
                Ok(())
            },
        }
    }

    fn withdrawal(&mut self, tx: Transaction, amount: Amount, kind: &'static str) -> (r: Result<(), EngineError>)
        requires
            kind == tx.operation.spec_name(),
        ensures
            (r, final(self)@) == money_movement_spec(old(self)@, tx, amount, false),
    {
        let mut account = self.begin_transaction(tx.client, tx.id, amount, kind)?;
        if decimal_lt(account.available(), amount) {
            return Err(EngineError::InsufficientFunds { tx: tx.id, amount });
        }
        match account.withdrawal(amount) {
            Err(source) => Err(EngineError::AccountArithmetic { tx: tx.id, source }),
            Ok(()) => {
                self.put_account(tx.client.0, account);
                self.put_transaction(tx.id.0, StoredTransaction::Undisputed(tx));
                Ok(())
            },
        }
    }

    fn dispute(&mut self, client: ClientId, id: TxId, kind: &'static str) -> (r: Result<(), EngineError>)
        ensures
            (r, final(self)@) == dispute_lifecycle_spec(old(self)@, client, id, DisputeStep::Dispute, kind),
    {
        let stored = self.referenced_tx(id, client)?;
        // Only deposits are disputable: charging back a withdrawal would remove
        // funds the client already received.
        let (amount, next) = match stored {
            StoredTransaction::Undisputed(t) => match t.operation {
                Operation::Deposit { amount } => (amount, StoredTransaction::Disputed(t)),
                Operation::Withdrawal { .. } => return Err(EngineError::NotDisputable { tx: id }),
                _ => return Err(EngineError::InvalidDisputeState { tx: id, kind }),
            },
            _ => match stored.transaction().operation {
                Operation::Withdrawal { .. } => return Err(EngineError::NotDisputable { tx: id }),
                _ => return Err(EngineError::InvalidDisputeState { tx: id, kind }),
            },
        };
        let mut account = self.touch_account(client.0);
        if account.is_locked() {
            return Err(EngineError::AccountLocked { client, kind });
        }
        match account.dispute(amount) {
            Err(source) => Err(EngineError::AccountArithmetic { tx: id, source }),
            Ok(()) => {
                self.put_account(client.0, account);
                self.put_transaction(id.0, next);
                Ok(())
            },
        }
    }

    fn resolve(&mut self, client: ClientId, id: TxId, kind: &'static str) -> (r: Result<(), EngineError>)
        ensures
            (r, final(self)@) == dispute_lifecycle_spec(old(self)@, client, id, DisputeStep::Resolve, kind),
    {
        let stored = self.referenced_tx(id, client)?;
        let (amount, next) = match stored {
            StoredTransaction::Disputed(t) => match t.operation {
                Operation::Deposit { amount } => (amount, StoredTransaction::Undisputed(t)),
                _ => return Err(EngineError::InvalidDisputeState { tx: id, kind }),
            },
            _ => return Err(EngineError::InvalidDisputeState { tx: id, kind }),
        };
        let mut account = self.touch_account(client.0);
        match account.resolve(amount) {
            Err(source) => Err(EngineError::AccountArithmetic { tx: id, source }),
            Ok(()) => {
                self.put_account(client.0, account);
                self.put_transaction(id.0, next);
                Ok(())
            },
        }
    }

    fn chargeback(&mut self, client: ClientId, id: TxId, kind: &'static str) -> (r: Result<(), EngineError>)
        ensures
            (r, final(self)@) == dispute_lifecycle_spec(old(self)@, client, id, DisputeStep::Chargeback, kind),
    {
        let stored = self.referenced_tx(id, client)?;
        let (amount, next) = match stored {
            StoredTransaction::Disputed(t) => match t.operation {
                Operation::Deposit { amount } => (amount, StoredTransaction::ChargedBack(t)),
                _ => return Err(EngineError::InvalidDisputeState { tx: id, kind }),
            },
            _ => return Err(EngineError::InvalidDisputeState { tx: id, kind }),
        };
        let mut account = self.touch_account(client.0);
        match account.chargeback(amount) {
            Err(source) => Err(EngineError::AccountArithmetic { tx: id, source }),
            Ok(()) => {
                self.put_account(client.0, account);
                self.put_transaction(id.0, next);
                Ok(())
            },
        }
    }

    /// The checks every deposit and withdrawal passes first; on success, the
    /// client's account (opened if missing).
    fn begin_transaction(
        &mut self,
        client: ClientId,
        id: TxId,
        amount: Amount,
        kind: &'static str,
    ) -> (r: Result<Account, EngineError>)
        ensures
            ({
                let s = old(self)@;
                if less_than(amount, Amount::from_parts_spec((0, 0))) {
                    r == Err::<Account, EngineError>(EngineError::NegativeAmount { tx: id }) && final(self)@ == s
                } else if s.transactions.contains_key(id.0) {
                    r == Err::<Account, EngineError>(EngineError::DuplicateTx { tx: id }) && final(self)@ == s
                } else {
                    let account = account_or_default(s.accounts, client.0);
                    &&& final(self)@ == touch_account(s, client.0)
                    &&& if account.spec_locked() {
                        r == Err::<Account, EngineError>(EngineError::AccountLocked { client, kind })
                    } else {
                        r == Ok::<Account, EngineError>(account)
                    }
                }
            }),
    {
        if decimal_lt(amount, Amount::zero()) {
            return Err(EngineError::NegativeAmount { tx: id });
        }
        if self.transactions.contains_key(&id.0) {
            return Err(EngineError::DuplicateTx { tx: id });
        }
        let account = self.touch_account(client.0);
        if account.is_locked() {
            return Err(EngineError::AccountLocked { client, kind });
        }
        Ok(account)
    }

    /// Looks up the client's account, creating a fresh one if needed.
    fn touch_account(&mut self, client: u16) -> (r: Account)
        ensures
            r == account_or_default(old(self)@.accounts, client),
            final(self)@ == touch_account(old(self)@, client),
    {
        proof {
            use_type_invariant(&*self);
        }
        let account = match self.accounts.get(&client) {
            Some(a) => *a,
            None => Account::default(),
        };
        assert(account.spec_total() is Ok) by {
            assert(Account::spec_default().spec_total() is Ok) by {
                reveal_with_fuel(crate::amount::pow10, 1);
            }
        }
        self.put_account(client, account);
        account
    }

    /// Stores `account` as the client's account.
    fn put_account(&mut self, client: u16, account: Account)
        requires
            account.spec_total() is Ok,
        ensures
            final(self)@.accounts == old(self)@.accounts.insert(client, account),
            final(self)@.transactions == old(self)@.transactions,
    {
        proof {
            use_type_invariant(&*self);
        }
        let mut accounts = HashMap::new();
        std::mem::swap(&mut accounts, &mut self.accounts);
        accounts.insert(client, account);
        self.accounts = accounts;
    }

    /// Stores `stored` under the transaction id `id`.
    fn put_transaction(&mut self, id: u32, stored: StoredTransaction)
        ensures
            final(self)@.accounts == old(self)@.accounts,
            final(self)@.transactions == old(self)@.transactions.insert(id, stored),
    {
        proof {
            use_type_invariant(&*self);
        }
        let mut transactions = HashMap::new();
        std::mem::swap(&mut transactions, &mut self.transactions);
        transactions.insert(id, stored);
        self.transactions = transactions;
    }

    /// The stored transaction `tx`, which must belong to `client`.
    fn referenced_tx(&self, tx: TxId, client: ClientId) -> (r: Result<StoredTransaction, EngineError>)
        ensures
            match r {
                Ok(stored) => self@.transactions.contains_key(tx.0)
                    && stored == self@.transactions[tx.0]
                    && stored.spec_transaction().client == client,
                Err(e) => if !self@.transactions.contains_key(tx.0) {
                    e == EngineError::UnknownTx { tx }
                } else {
                    self@.transactions[tx.0].spec_transaction().client != client
                        && e == EngineError::ClientMismatch { tx, client }
                },
            },
    {
        let stored = match self.transactions.get(&tx.0) {
            Some(s) => *s,
            None => return Err(EngineError::UnknownTx { tx }),
        };
        if stored.transaction().client != client {
            return Err(EngineError::ClientMismatch { tx, client });
        }
        Ok(stored)
    }
}

impl Default for PaymentsEngine {
    fn default() -> (r: PaymentsEngine)
        ensures
            r@.accounts == Map::<u16, Account>::empty(),
            r@.transactions == Map::<u32, StoredTransaction>::empty(),
    {
        PaymentsEngine::new()
    }
}


/// A lock flag only ever goes from unlocked to locked: every account operation
/// keeps it, a chargeback sets it.
pub proof fn lemma_account_operations_keep_lock(a: Account, x: Amount)
    ensures
        a.spec_deposit(x) matches Ok(b) ==> b.spec_locked() == a.spec_locked(),
        a.spec_withdrawal(x) matches Ok(b) ==> b.spec_locked() == a.spec_locked(),
        a.spec_dispute(x) matches Ok(b) ==> b.spec_locked() == a.spec_locked(),
        a.spec_resolve(x) matches Ok(b) ==> b.spec_locked() == a.spec_locked(),
        a.spec_chargeback(x) matches Ok(b) ==> b.spec_locked(),
{
}

/// A row that is refused leaves the stored transactions as they were and every
/// existing account as it was; the only trace it may leave is a fresh account
/// for a client that had none.
pub proof fn lemma_refused_row_changes_nothing(s: EngineView, tx: Transaction)
    requires
        process_spec(s, tx).0 is Err,
    ensures
        ({
            let after = process_spec(s, tx).1;
            &&& after.transactions == s.transactions
            &&& forall|c: u16| #[trigger] s.accounts.contains_key(c) ==>
                after.accounts.contains_key(c) && after.accounts[c] == s.accounts[c]
            &&& forall|c: u16| #[trigger] after.accounts.contains_key(c) && !s.accounts.contains_key(c) ==>
                c == tx.client.0 && after.accounts[c] == Account::spec_default()
        }),
{
}

/// No row unlocks an account or removes one.
pub proof fn lemma_lock_is_permanent(s: EngineView, tx: Transaction)
    ensures
        forall|c: u16| #[trigger] s.accounts.contains_key(c) ==> {
            let after = process_spec(s, tx).1;
            &&& after.accounts.contains_key(c)
            &&& s.accounts[c].spec_locked() ==> after.accounts[c].spec_locked()
        },
{
    match tx.operation {
        Operation::Deposit { amount } => lemma_account_operations_keep_lock(account_or_default(s.accounts, tx.client.0), amount),
        Operation::Withdrawal { amount } => lemma_account_operations_keep_lock(account_or_default(s.accounts, tx.client.0), amount),
        _ => {
            if s.transactions.contains_key(tx.id.0) {
                let step = match tx.operation {
                    Operation::Dispute => DisputeStep::Dispute,
                    Operation::Resolve => DisputeStep::Resolve,
                    _ => DisputeStep::Chargeback,
                };
                if let Ok((amount, next)) = lifecycle_step(s.transactions[tx.id.0], step, tx.id, tx.operation.spec_name()) {
                    lemma_account_operations_keep_lock(account_or_default(s.accounts, tx.client.0), amount);
                }
            }
        },
    }
}

/// An accepted chargeback locks the client's account.
pub proof fn lemma_chargeback_locks(s: EngineView, tx: Transaction)
    requires
        tx.operation is Chargeback,
        process_spec(s, tx).0 is Ok,
    ensures
        process_spec(s, tx).1.accounts.contains_key(tx.client.0),
        process_spec(s, tx).1.accounts[tx.client.0].spec_locked(),
{
    if let Ok((amount, next)) = lifecycle_step(s.transactions[tx.id.0], DisputeStep::Chargeback, tx.id, tx.operation.spec_name()) {
        lemma_account_operations_keep_lock(account_or_default(s.accounts, tx.client.0), amount);
    }
}

/// A locked account refuses deposits, withdrawals and new disputes, and the row
/// changes nothing.
pub proof fn lemma_locked_account_refuses(s: EngineView, tx: Transaction)
    requires
        s.accounts.contains_key(tx.client.0),
        s.accounts[tx.client.0].spec_locked(),
        tx.operation is Deposit || tx.operation is Withdrawal || tx.operation is Dispute,
    ensures
        process_spec(s, tx).0 is Err,
        process_spec(s, tx).1 == s,
        (tx.operation is Deposit || tx.operation is Withdrawal) && units(row_amount(tx.operation)@) >= 0
            && !s.transactions.contains_key(tx.id.0) ==> process_spec(s, tx).0 == Err::<(), EngineError>(
            EngineError::AccountLocked { client: tx.client, kind: tx.operation.spec_name() },
        ),
        tx.operation is Dispute && s.transactions.contains_key(tx.id.0)
            && s.transactions[tx.id.0] is Undisputed
            && s.transactions[tx.id.0].spec_transaction().operation is Deposit
            && s.transactions[tx.id.0].spec_transaction().client == tx.client
            ==> process_spec(s, tx).0 == Err::<(), EngineError>(
            EngineError::AccountLocked { client: tx.client, kind: tx.operation.spec_name() },
        ),
{
    vstd::arithmetic::mul::lemma_mul_basics(crate::amount::pow10(28));
    assert(Amount::from_parts_spec((0, 0))@ == (0int, 0nat));
    assert(s.accounts.insert(tx.client.0, s.accounts[tx.client.0]) =~= s.accounts);
}

/// A deposit or withdrawal reusing an accepted transaction id is refused and
/// changes nothing.
pub proof fn lemma_duplicate_id_refused(s: EngineView, tx: Transaction)
    requires
        tx.operation is Deposit || tx.operation is Withdrawal,
        s.transactions.contains_key(tx.id.0),
    ensures
        process_spec(s, tx).0 is Err,
        process_spec(s, tx).1 == s,
        units(row_amount(tx.operation)@) >= 0 ==> process_spec(s, tx).0 == Err::<(), EngineError>(
            EngineError::DuplicateTx { tx: tx.id },
        ),
{
    vstd::arithmetic::mul::lemma_mul_basics(crate::amount::pow10(28));
    assert(Amount::from_parts_spec((0, 0))@ == (0int, 0nat));
}

/// A deposit or withdrawal of a non-negative amount under a new id leaves the
/// client with an account, whatever the outcome; a refused one opens it empty.
pub proof fn lemma_money_row_opens_account(s: EngineView, tx: Transaction)
    requires
        tx.operation is Deposit || tx.operation is Withdrawal,
        units(row_amount(tx.operation)@) >= 0,
        !s.transactions.contains_key(tx.id.0),
    ensures
        process_spec(s, tx).1.accounts.contains_key(tx.client.0),
        process_spec(s, tx).0 is Err && !s.accounts.contains_key(tx.client.0)
            ==> process_spec(s, tx).1.accounts[tx.client.0] == Account::spec_default(),
{
    vstd::arithmetic::mul::lemma_mul_basics(crate::amount::pow10(28));
    assert(Amount::from_parts_spec((0, 0))@ == (0int, 0nat));
}

/// Negative deposits and withdrawals are refused and change nothing.
pub proof fn lemma_negative_amount_refused(s: EngineView, tx: Transaction, amount: Amount)
    requires
        tx.operation == (Operation::Deposit { amount }) || tx.operation == (Operation::Withdrawal { amount }),
        units(amount@) < 0,
    ensures
        process_spec(s, tx).0 == Err::<(), EngineError>(EngineError::NegativeAmount { tx: tx.id }),
        process_spec(s, tx).1 == s,
{
    reveal_with_fuel(crate::amount::pow10, 1);
    assert(Amount::from_parts_spec((0, 0))@ == (0int, 0nat));
}

/// Only deposits can be disputed: a dispute of the client's own withdrawal is
/// refused and changes nothing.
pub proof fn lemma_withdrawal_not_disputable(s: EngineView, tx: Transaction)
    requires
        tx.operation is Dispute,
        s.transactions.contains_key(tx.id.0),
        s.transactions[tx.id.0].spec_transaction().client == tx.client,
        s.transactions[tx.id.0].spec_transaction().operation is Withdrawal,
    ensures
        process_spec(s, tx).0 == Err::<(), EngineError>(EngineError::NotDisputable { tx: tx.id }),
        process_spec(s, tx).1 == s,
{
}

/// A dispute, resolve or chargeback must name a stored transaction of the same
/// client; otherwise it is refused and changes nothing.
pub proof fn lemma_foreign_or_unknown_reference_refused(s: EngineView, tx: Transaction)
    requires
        tx.operation is Dispute || tx.operation is Resolve || tx.operation is Chargeback,
        !s.transactions.contains_key(tx.id.0)
            || s.transactions[tx.id.0].spec_transaction().client != tx.client,
    ensures
        process_spec(s, tx).0 == Err::<(), EngineError>(
            if !s.transactions.contains_key(tx.id.0) {
                EngineError::UnknownTx { tx: tx.id }
            } else {
                EngineError::ClientMismatch { tx: tx.id, client: tx.client }
            },
        ),
        process_spec(s, tx).1 == s,
{
}

/// Stored transactions are never forgotten and never change what they record;
/// their lifecycle moves only as the row asks: a dispute takes an undisputed
/// deposit to disputed, a resolve takes it back, a chargeback ends it for good.
/// A new entry is the accepted deposit or withdrawal itself.
pub proof fn lemma_transaction_lifecycle(s: EngineView, tx: Transaction)
    ensures
        ({
            let after = process_spec(s, tx).1.transactions;
            &&& forall|id: u32| #[trigger] s.transactions.contains_key(id) ==> {
                &&& after.contains_key(id)
                &&& after[id].spec_transaction() == s.transactions[id].spec_transaction()
                &&& s.transactions[id] is ChargedBack ==> after[id] == s.transactions[id]
                &&& after[id] != s.transactions[id] ==> id == tx.id.0 && {
                    ||| tx.operation is Dispute && s.transactions[id] is Undisputed && after[id] is Disputed
                    ||| tx.operation is Resolve && s.transactions[id] is Disputed && after[id] is Undisputed
                    ||| tx.operation is Chargeback && s.transactions[id] is Disputed && after[id] is ChargedBack
                }
            }
            &&& forall|id: u32| #[trigger] after.contains_key(id) && !s.transactions.contains_key(id) ==> {
                &&& id == tx.id.0
                &&& tx.operation is Deposit || tx.operation is Withdrawal
                &&& after[id] == StoredTransaction::Undisputed(tx)
            }
        }),
{
}

/// An accepted withdrawal never takes more than was available.
pub proof fn lemma_withdrawal_needs_funds(s: EngineView, tx: Transaction, amount: Amount)
    requires
        tx.operation == (Operation::Withdrawal { amount }),
        process_spec(s, tx).0 is Ok,
    ensures
        0 <= units(amount@) <= units(account_or_default(s.accounts, tx.client.0).spec_available()@),
{
    reveal_with_fuel(crate::amount::pow10, 1);
    assert(Amount::from_parts_spec((0, 0))@ == (0int, 0nat));
}

/// Disputing an undisputed deposit of an unlocked client and then resolving it
/// are both accepted wherever their arithmetic is exact, and give the client's
/// balances back their values and the deposit back its undisputed state, so it
/// can be disputed again.
pub proof fn lemma_resolve_undoes_dispute_in_engine(s: EngineView, client: ClientId, id: TxId, amount: Amount)
    requires
        s.transactions.contains_key(id.0),
        s.transactions[id.0] is Undisputed,
        s.transactions[id.0].spec_transaction().client == client,
        s.transactions[id.0].spec_transaction().operation == (Operation::Deposit { amount }),
        !account_or_default(s.accounts, client.0).spec_locked(),
        valid_parts(amount@),
        balances_valid(account_or_default(s.accounts, client.0)),
        dispute_round_trip_exact(account_or_default(s.accounts, client.0), amount),
    ensures
        process_spec(s, Transaction { client, id, operation: Operation::Dispute }).0 is Ok,
        process_spec(
            process_spec(s, Transaction { client, id, operation: Operation::Dispute }).1,
            Transaction { client, id, operation: Operation::Resolve },
        ).0 is Ok,
        ({
            let before = account_or_default(s.accounts, client.0);
            let after = process_spec(
                process_spec(s, Transaction { client, id, operation: Operation::Dispute }).1,
                Transaction { client, id, operation: Operation::Resolve },
            ).1;
            &&& after.transactions == s.transactions
            &&& after.accounts.contains_key(client.0)
            &&& units(after.accounts[client.0].spec_available()@) == units(before.spec_available()@)
            &&& units(after.accounts[client.0].spec_held()@) == units(before.spec_held()@)
            &&& after.accounts[client.0].spec_locked() == before.spec_locked()
        }),
{
    let a = account_or_default(s.accounts, client.0);
    lemma_resolve_undoes_dispute(a, amount);
    let s1 = process_spec(s, Transaction { client, id, operation: Operation::Dispute }).1;
    let s2 = process_spec(s1, Transaction { client, id, operation: Operation::Resolve }).1;
    assert(s2.transactions =~= s.transactions);
}

/// A withdrawal that the client's available funds cover, of a new id, by an
/// unlocked client, is accepted wherever its arithmetic is exact: `available`
/// drops by the amount and the withdrawal is stored.
pub proof fn lemma_funded_withdrawal_accepted(s: EngineView, tx: Transaction, amount: Amount)
    requires
        tx.operation == (Operation::Withdrawal { amount }),
        valid_parts(amount@),
        0 <= units(amount@) <= units(account_or_default(s.accounts, tx.client.0).spec_available()@),
        !s.transactions.contains_key(tx.id.0),
        !account_or_default(s.accounts, tx.client.0).spec_locked(),
        balances_valid(account_or_default(s.accounts, tx.client.0)),
        fits(exact_difference(account_or_default(s.accounts, tx.client.0).spec_available()@, amount@).0),
        fits(
            exact_sum(
                exact_difference(account_or_default(s.accounts, tx.client.0).spec_available()@, amount@),
                account_or_default(s.accounts, tx.client.0).spec_held()@,
            ).0,
        ),
    ensures
        process_spec(s, tx).0 is Ok,
        ({
            let before = account_or_default(s.accounts, tx.client.0);
            let after = process_spec(s, tx).1;
            &&& after.accounts.contains_key(tx.client.0)
            &&& units(after.accounts[tx.client.0].spec_available()@) == units(before.spec_available()@) - units(amount@)
            &&& after.accounts[tx.client.0].spec_held() == before.spec_held()
            &&& after.accounts[tx.client.0].spec_locked() == before.spec_locked()
            &&& after.transactions == s.transactions.insert(tx.id.0, StoredTransaction::Undisputed(tx))
        }),
{
    reveal_with_fuel(crate::amount::pow10, 1);
    assert(Amount::from_parts_spec((0, 0))@ == (0int, 0nat));
    lemma_withdrawal_debits(account_or_default(s.accounts, tx.client.0), amount);
}

/// A chargeback of the client's disputed deposit is accepted wherever its
/// arithmetic is exact, even on a locked account: `held` drops by the amount,
/// `available` stays, the account is locked and the deposit is charged back.
pub proof fn lemma_disputed_chargeback_accepted(s: EngineView, tx: Transaction, amount: Amount)
    requires
        tx.operation is Chargeback,
        s.transactions.contains_key(tx.id.0),
        s.transactions[tx.id.0] is Disputed,
        s.transactions[tx.id.0].spec_transaction().client == tx.client,
        s.transactions[tx.id.0].spec_transaction().operation == (Operation::Deposit { amount }),
        valid_parts(amount@),
        balances_valid(account_or_default(s.accounts, tx.client.0)),
        fits(exact_difference(account_or_default(s.accounts, tx.client.0).spec_held()@, amount@).0),
        fits(
            exact_sum(
                account_or_default(s.accounts, tx.client.0).spec_available()@,
                exact_difference(account_or_default(s.accounts, tx.client.0).spec_held()@, amount@),
            ).0,
        ),
    ensures
        process_spec(s, tx).0 is Ok,
        ({
            let before = account_or_default(s.accounts, tx.client.0);
            let after = process_spec(s, tx).1;
            &&& after.accounts.contains_key(tx.client.0)
            &&& units(after.accounts[tx.client.0].spec_held()@) == units(before.spec_held()@) - units(amount@)
            &&& after.accounts[tx.client.0].spec_available() == before.spec_available()
            &&& after.accounts[tx.client.0].spec_locked()
            &&& after.transactions == s.transactions.insert(
                tx.id.0,
                StoredTransaction::ChargedBack(s.transactions[tx.id.0].spec_transaction()),
            )
        }),
{
    lemma_chargeback_removes_held(account_or_default(s.accounts, tx.client.0), amount);
}

/// A row touches no account but its own client's: every other account keeps
/// its balances and lock, and no other account is opened.
pub proof fn lemma_row_touches_only_its_client(s: EngineView, tx: Transaction)
    ensures
        forall|c: u16| #![trigger process_spec(s, tx).1.accounts.contains_key(c)] c != tx.client.0 ==> {
            &&& process_spec(s, tx).1.accounts.contains_key(c) == s.accounts.contains_key(c)
            &&& s.accounts.contains_key(c) ==> process_spec(s, tx).1.accounts[c] == s.accounts[c]
        },
{
}

/// Every account the engine keeps has a representable total, after any row.
pub proof fn lemma_totals_stay_representable(s: EngineView, tx: Transaction)
    requires
        totals_representable(s.accounts),
    ensures
        totals_representable(process_spec(s, tx).1.accounts),
{
    assert(Account::spec_default().spec_total() is Ok) by {
        reveal_with_fuel(crate::amount::pow10, 1);
    }
}

/// What an accepted row required: a deposit a non-negative amount, a new id
/// and an unlocked account; a withdrawal also funds that cover it; a dispute
/// the client's own undisputed deposit and an unlocked account; a resolve or a
/// chargeback the client's own disputed deposit. Any other row is refused.
pub proof fn lemma_accepted_row_requirements(s: EngineView, tx: Transaction)
    ensures
        tx.operation matches Operation::Deposit { amount } ==> process_spec(s, tx).0 is Ok ==> {
            &&& units(amount@) >= 0
            &&& !s.transactions.contains_key(tx.id.0)
            &&& !account_or_default(s.accounts, tx.client.0).spec_locked()
        },
        tx.operation matches Operation::Withdrawal { amount } ==> process_spec(s, tx).0 is Ok ==> {
            &&& 0 <= units(amount@) <= units(account_or_default(s.accounts, tx.client.0).spec_available()@)
            &&& !s.transactions.contains_key(tx.id.0)
            &&& !account_or_default(s.accounts, tx.client.0).spec_locked()
        },
        process_spec(s, tx).0 is Ok && tx.operation is Dispute ==> {
            &&& s.transactions.contains_key(tx.id.0)
            &&& s.transactions[tx.id.0] is Undisputed
            &&& s.transactions[tx.id.0].spec_transaction().operation is Deposit
            &&& s.transactions[tx.id.0].spec_transaction().client == tx.client
            &&& !account_or_default(s.accounts, tx.client.0).spec_locked()
        },
        process_spec(s, tx).0 is Ok && (tx.operation is Resolve || tx.operation is Chargeback) ==> {
            &&& s.transactions.contains_key(tx.id.0)
            &&& s.transactions[tx.id.0] is Disputed
            &&& s.transactions[tx.id.0].spec_transaction().operation is Deposit
            &&& s.transactions[tx.id.0].spec_transaction().client == tx.client
        },
{
    reveal_with_fuel(crate::amount::pow10, 1);
    assert(Amount::from_parts_spec((0, 0))@ == (0int, 0nat));
    vstd::arithmetic::mul::lemma_mul_basics(crate::amount::pow10(28));
    if process_spec(s, tx).0 is Ok {
        match tx.operation {
            Operation::Dispute => {
                assert(lifecycle_step(s.transactions[tx.id.0], DisputeStep::Dispute, tx.id, tx.operation.spec_name()) is Ok);
            },
            Operation::Resolve => {
                assert(lifecycle_step(s.transactions[tx.id.0], DisputeStep::Resolve, tx.id, tx.operation.spec_name()) is Ok);
            },
            Operation::Chargeback => {
                assert(lifecycle_step(s.transactions[tx.id.0], DisputeStep::Chargeback, tx.id, tx.operation.spec_name()) is Ok);
            },
            _ => {},
        }
    }
}

/// Only an accepted chargeback changes a lock flag, and only its own client's,
/// which it sets; every other row, accepted or not, leaves every lock as it was.
pub proof fn lemma_lock_changes_only_by_chargeback(s: EngineView, tx: Transaction)
    ensures
        forall|c: u16| #![trigger account_or_default(process_spec(s, tx).1.accounts, c)]
            account_or_default(process_spec(s, tx).1.accounts, c).spec_locked()
                != account_or_default(s.accounts, c).spec_locked() ==> {
                &&& c == tx.client.0
                &&& tx.operation is Chargeback
                &&& process_spec(s, tx).0 is Ok
                &&& account_or_default(process_spec(s, tx).1.accounts, c).spec_locked()
            },
{
    match tx.operation {
        Operation::Deposit { amount } => lemma_account_operations_keep_lock(account_or_default(s.accounts, tx.client.0), amount),
        Operation::Withdrawal { amount } => lemma_account_operations_keep_lock(account_or_default(s.accounts, tx.client.0), amount),
        _ => {
            if s.transactions.contains_key(tx.id.0) {
                let step = match tx.operation {
                    Operation::Dispute => DisputeStep::Dispute,
                    Operation::Resolve => DisputeStep::Resolve,
                    _ => DisputeStep::Chargeback,
                };
                if let Ok((amount, next)) = lifecycle_step(s.transactions[tx.id.0], step, tx.id, tx.operation.spec_name()) {
                    lemma_account_operations_keep_lock(account_or_default(s.accounts, tx.client.0), amount);
                }
            }
        },
    }
}

/// A deposit of a non-negative amount under a new id by an unlocked client is
/// accepted wherever its arithmetic is exact, whatever the balances (negative
/// `available` and held funds included): `available` rises by the amount,
/// `held` and the lock stay, and the deposit is stored undisputed.
pub proof fn lemma_deposit_accepted(s: EngineView, tx: Transaction, amount: Amount)
    requires
        tx.operation == (Operation::Deposit { amount }),
        valid_parts(amount@),
        units(amount@) >= 0,
        !s.transactions.contains_key(tx.id.0),
        !account_or_default(s.accounts, tx.client.0).spec_locked(),
        balances_valid(account_or_default(s.accounts, tx.client.0)),
        fits(exact_sum(account_or_default(s.accounts, tx.client.0).spec_available()@, amount@).0),
        fits(
            exact_sum(
                exact_sum(account_or_default(s.accounts, tx.client.0).spec_available()@, amount@),
                account_or_default(s.accounts, tx.client.0).spec_held()@,
            ).0,
        ),
    ensures
        process_spec(s, tx).0 is Ok,
        ({
            let before = account_or_default(s.accounts, tx.client.0);
            let after = process_spec(s, tx).1;
            &&& after.accounts.contains_key(tx.client.0)
            &&& units(after.accounts[tx.client.0].spec_available()@) == units(before.spec_available()@) + units(amount@)
            &&& after.accounts[tx.client.0].spec_held() == before.spec_held()
            &&& after.accounts[tx.client.0].spec_locked() == before.spec_locked()
            &&& after.transactions == s.transactions.insert(tx.id.0, StoredTransaction::Undisputed(tx))
        }),
{
    reveal_with_fuel(crate::amount::pow10, 1);
    assert(Amount::from_parts_spec((0, 0))@ == (0int, 0nat));
    lemma_deposit_credits(account_or_default(s.accounts, tx.client.0), amount);
}

/// A dispute of the client's own undisputed deposit, on an unlocked account,
/// is accepted wherever its arithmetic is exact: the amount moves from
/// `available` to `held` (even if `available` goes negative), the lock stays,
/// and the deposit becomes disputed.
pub proof fn lemma_dispute_accepted(s: EngineView, tx: Transaction, amount: Amount)
    requires
        tx.operation is Dispute,
        s.transactions.contains_key(tx.id.0),
        s.transactions[tx.id.0] is Undisputed,
        s.transactions[tx.id.0].spec_transaction().client == tx.client,
        s.transactions[tx.id.0].spec_transaction().operation == (Operation::Deposit { amount }),
        !account_or_default(s.accounts, tx.client.0).spec_locked(),
        valid_parts(amount@),
        balances_valid(account_or_default(s.accounts, tx.client.0)),
        fits(exact_difference(account_or_default(s.accounts, tx.client.0).spec_available()@, amount@).0),
        fits(exact_sum(account_or_default(s.accounts, tx.client.0).spec_held()@, amount@).0),
        fits(
            exact_sum(
                exact_difference(account_or_default(s.accounts, tx.client.0).spec_available()@, amount@),
                exact_sum(account_or_default(s.accounts, tx.client.0).spec_held()@, amount@),
            ).0,
        ),
    ensures
        process_spec(s, tx).0 is Ok,
        ({
            let before = account_or_default(s.accounts, tx.client.0);
            let after = process_spec(s, tx).1;
            &&& after.accounts.contains_key(tx.client.0)
            &&& units(after.accounts[tx.client.0].spec_available()@) == units(before.spec_available()@) - units(amount@)
            &&& units(after.accounts[tx.client.0].spec_held()@) == units(before.spec_held()@) + units(amount@)
            &&& after.accounts[tx.client.0].spec_locked() == before.spec_locked()
            &&& after.transactions == s.transactions.insert(
                tx.id.0,
                StoredTransaction::Disputed(s.transactions[tx.id.0].spec_transaction()),
            )
        }),
{
    lemma_dispute_holds(account_or_default(s.accounts, tx.client.0), amount);
}

/// A resolve of the client's own disputed deposit is accepted wherever its
/// arithmetic is exact, whether or not the account is locked: the amount moves
/// from `held` back to `available`, the lock stays, and the deposit is
/// undisputed again.
pub proof fn lemma_resolve_accepted(s: EngineView, tx: Transaction, amount: Amount)
    requires
        tx.operation is Resolve,
        s.transactions.contains_key(tx.id.0),
        s.transactions[tx.id.0] is Disputed,
        s.transactions[tx.id.0].spec_transaction().client == tx.client,
        s.transactions[tx.id.0].spec_transaction().operation == (Operation::Deposit { amount }),
        valid_parts(amount@),
        balances_valid(account_or_default(s.accounts, tx.client.0)),
        fits(exact_difference(account_or_default(s.accounts, tx.client.0).spec_held()@, amount@).0),
        fits(exact_sum(account_or_default(s.accounts, tx.client.0).spec_available()@, amount@).0),
        fits(
            exact_sum(
                exact_sum(account_or_default(s.accounts, tx.client.0).spec_available()@, amount@),
                exact_difference(account_or_default(s.accounts, tx.client.0).spec_held()@, amount@),
            ).0,
        ),
    ensures
        process_spec(s, tx).0 is Ok,
        ({
            let before = account_or_default(s.accounts, tx.client.0);
            let after = process_spec(s, tx).1;
            &&& after.accounts.contains_key(tx.client.0)
            &&& units(after.accounts[tx.client.0].spec_available()@) == units(before.spec_available()@) + units(amount@)
            &&& units(after.accounts[tx.client.0].spec_held()@) == units(before.spec_held()@) - units(amount@)
            &&& after.accounts[tx.client.0].spec_locked() == before.spec_locked()
            &&& after.transactions == s.transactions.insert(
                tx.id.0,
                StoredTransaction::Undisputed(s.transactions[tx.id.0].spec_transaction()),
            )
        }),
{
    lemma_resolve_releases(account_or_default(s.accounts, tx.client.0), amount);
}

/// The amount a deposit or withdrawal row moves.
pub open spec fn row_amount(op: Operation) -> Amount {
    match op {
        Operation::Deposit { amount } => amount,
        Operation::Withdrawal { amount } => amount,
        _ => Amount::from_parts_spec((0, 0)),
    }
}

/// Every refusal names the row's own id (and client and kind where it carries
/// them) and a reason that holds of the state the row met.
pub proof fn lemma_refusal_reasons(s: EngineView, tx: Transaction)
    ensures
        process_spec(s, tx).0 matches Err(e) ==> {
            let account = account_or_default(s.accounts, tx.client.0);
            let stored = s.transactions[tx.id.0];
            let moves_money = tx.operation is Deposit || tx.operation is Withdrawal;
            match e {
                EngineError::NegativeAmount { tx: t } => t == tx.id && moves_money
                    && units(row_amount(tx.operation)@) < 0,
                EngineError::DuplicateTx { tx: t } => t == tx.id && moves_money
                    && s.transactions.contains_key(tx.id.0),
                EngineError::AccountLocked { client, kind } => client == tx.client
                    && kind == tx.operation.spec_name() && account.spec_locked()
                    && (moves_money || tx.operation is Dispute),
                EngineError::InsufficientFunds { tx: t, amount } => t == tx.id
                    && tx.operation == (Operation::Withdrawal { amount })
                    && units(account.spec_available()@) < units(amount@),
                EngineError::AccountArithmetic { tx: t, .. } => t == tx.id,
                EngineError::UnknownTx { tx: t } => t == tx.id && !moves_money
                    && !s.transactions.contains_key(tx.id.0),
                EngineError::ClientMismatch { tx: t, client } => t == tx.id && client == tx.client
                    && !moves_money && s.transactions.contains_key(tx.id.0)
                    && stored.spec_transaction().client != tx.client,
                EngineError::NotDisputable { tx: t } => t == tx.id && tx.operation is Dispute
                    && s.transactions.contains_key(tx.id.0)
                    && stored.spec_transaction().client == tx.client
                    && stored.spec_transaction().operation is Withdrawal,
                EngineError::InvalidDisputeState { tx: t, kind } => t == tx.id
                    && kind == tx.operation.spec_name() && !moves_money
                    && s.transactions.contains_key(tx.id.0)
                    && stored.spec_transaction().client == tx.client
                    && if tx.operation is Dispute {
                        !(stored is Undisputed && stored.spec_transaction().operation is Deposit)
                    } else {
                        !(stored is Disputed && stored.spec_transaction().operation is Deposit)
                    },
            }
        },
{
    vstd::arithmetic::mul::lemma_mul_basics(crate::amount::pow10(28));
    assert(Amount::from_parts_spec((0, 0))@ == (0int, 0nat));
}

/// A resolve or a chargeback of the client's own stored transaction that is
/// not a disputed deposit (an undisputed or charged-back deposit, or any
/// withdrawal) is refused as an invalid dispute state and changes nothing:
/// every balance, every lock flag and every stored transaction stay.
pub proof fn lemma_undisputed_settlement_refused(s: EngineView, tx: Transaction)
    requires
        tx.operation is Resolve || tx.operation is Chargeback,
        s.transactions.contains_key(tx.id.0),
        s.transactions[tx.id.0].spec_transaction().client == tx.client,
        !(s.transactions[tx.id.0] is Disputed && s.transactions[tx.id.0].spec_transaction().operation is Deposit),
    ensures
        process_spec(s, tx).0 == Err::<(), EngineError>(
            EngineError::InvalidDisputeState { tx: tx.id, kind: tx.operation.spec_name() },
        ),
        process_spec(s, tx).1 == s,
        account_or_default(process_spec(s, tx).1.accounts, tx.client.0).spec_locked()
            == account_or_default(s.accounts, tx.client.0).spec_locked(),
{
}

} // verus!
