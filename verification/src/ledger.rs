//! The ledger law: every client's balances agree with the transactions the
//! engine has accepted. The total is the client's deposits that were not
//! charged back minus its withdrawals; `held` is its deposits under dispute.
//! It holds after every row whose arithmetic is exact.

use vstd::prelude::*;

use crate::amount::{exact_difference, exact_sum, fits, units, valid_parts, Amount};
use crate::engine::{
    account_or_default, lemma_refused_row_changes_nothing, lifecycle_step, process_spec, DisputeStep,
    EngineView,
};
use crate::model::{
    balances_valid, lemma_chargeback_removes_held, lemma_deposit_credits, lemma_dispute_holds,
    lemma_resolve_releases, lemma_withdrawal_debits, Account, Operation, StoredTransaction, Transaction,
};

verus! {

broadcast use {
    crate::amount::Amount::group_amount_parts,
    crate::model::Account::group_account_parts,
};

/// The number of transaction ids.
pub open spec fn id_space() -> nat {
    0x1_0000_0000
}

/// What a stored transaction adds to its client's total: a deposit its amount
/// unless it was charged back, a withdrawal minus its amount.
pub open spec fn balance_effect(stored: StoredTransaction) -> int {
    match stored.spec_transaction().operation {
        Operation::Deposit { amount } => if stored is ChargedBack {
            0
        } else {
            units(amount@)
        },
        Operation::Withdrawal { amount } => -units(amount@),
        _ => 0,
    }
}

/// What a stored transaction holds: a disputed deposit its amount.
pub open spec fn held_effect(stored: StoredTransaction) -> int {
    match stored {
        StoredTransaction::Disputed(t) => match t.operation {
            Operation::Deposit { amount } => units(amount@),
            _ => 0,
        },
        _ => 0,
    }
}

/// The effect of transaction `id` on `client`: nothing unless it is stored and
/// the client's own.
pub open spec fn effect_of(txs: Map<u32, StoredTransaction>, client: u16, id: u32, held: bool) -> int {
    if txs.contains_key(id) && txs[id].spec_transaction().client.0 == client {
        if held {
            held_effect(txs[id])
        } else {
            balance_effect(txs[id])
        }
    } else {
        0
    }
}

/// The sum of the effects of the ids below `n`.
pub open spec fn effects_below(txs: Map<u32, StoredTransaction>, client: u16, held: bool, n: nat) -> int
    decreases n,
{
    if n == 0 {
        0
    } else {
        effects_below(txs, client, held, (n - 1) as nat) + effect_of(txs, client, (n - 1) as u32, held)
    }
}

/// The client's total according to its stored transactions.
pub open spec fn ledger_total(txs: Map<u32, StoredTransaction>, client: u16) -> int {
    effects_below(txs, client, false, id_space())
}

/// The client's held funds according to its stored transactions.
pub open spec fn ledger_held(txs: Map<u32, StoredTransaction>, client: u16) -> int {
    effects_below(txs, client, true, id_space())
}

/// A stored deposit or withdrawal has a valid, non-negative amount.
pub open spec fn stored_amount_ok(stored: StoredTransaction) -> bool {
    match stored.spec_transaction().operation {
        Operation::Deposit { amount } => valid_parts(amount@) && units(amount@) >= 0,
        Operation::Withdrawal { amount } => valid_parts(amount@) && units(amount@) >= 0,
        _ => true,
    }
}

/// Every client's balances are what its stored transactions say.
pub open spec fn ledger_consistent(s: EngineView) -> bool {
    &&& forall|c: u16| #![trigger account_or_default(s.accounts, c)] {
        let a = account_or_default(s.accounts, c);
        &&& units(a.spec_available()@) + units(a.spec_held()@) == ledger_total(s.transactions, c)
        &&& units(a.spec_held()@) == ledger_held(s.transactions, c)
    }
    &&& forall|c: u16| #[trigger] s.accounts.contains_key(c) ==> balances_valid(s.accounts[c])
    &&& forall|id: u32| #[trigger] s.transactions.contains_key(id) ==> stored_amount_ok(s.transactions[id])
}

/// The arithmetic that row `tx` asks of its client's account is exact.
pub open spec fn row_exact(s: EngineView, tx: Transaction) -> bool {
    let a = account_or_default(s.accounts, tx.client.0);
    let available = a.spec_available()@;
    let held = a.spec_held()@;
    match tx.operation {
        Operation::Deposit { amount } => valid_parts(amount@) && fits(exact_sum(available, amount@).0),
        Operation::Withdrawal { amount } => valid_parts(amount@) && fits(
            exact_difference(available, amount@).0,
        ),
        _ => s.transactions.contains_key(tx.id.0) ==> match s.transactions[tx.id.0].spec_transaction().operation {
            Operation::Deposit { amount } => match tx.operation {
                Operation::Dispute => fits(exact_difference(available, amount@).0) && fits(
                    exact_sum(held, amount@).0,
                ),
                Operation::Resolve => fits(exact_difference(held, amount@).0) && fits(
                    exact_sum(available, amount@).0,
                ),
                _ => fits(exact_difference(held, amount@).0),
            },
            _ => true,
        },
    }
}

proof fn lemma_effects_update(
    before: Map<u32, StoredTransaction>,
    after: Map<u32, StoredTransaction>,
    client: u16,
    held: bool,
    id: u32,
    n: nat,
)
    requires
        n <= id_space(),
        forall|k: u32| k != id ==> #[trigger] effect_of(after, client, k, held) == effect_of(before, client, k, held),
    ensures
        effects_below(after, client, held, n) == effects_below(before, client, held, n) + if (id as nat) < n {
            effect_of(after, client, id, held) - effect_of(before, client, id, held)
        } else {
            0
        },
    decreases n,
{
    if n > 0 {
        lemma_effects_update(before, after, client, held, id, (n - 1) as nat);
        let k = (n - 1) as u32;
        assert(effect_of(after, client, k, held) == effect_of(before, client, k, held) || k == id);
    }
}

proof fn lemma_effects_of_empty(client: u16, held: bool, n: nat)
    ensures
        effects_below(Map::<u32, StoredTransaction>::empty(), client, held, n) == 0,
    decreases n,
{
    if n > 0 {
        lemma_effects_of_empty(client, held, (n - 1) as nat);
    }
}

proof fn lemma_held_effects_nonnegative(txs: Map<u32, StoredTransaction>, client: u16, n: nat)
    requires
        forall|id: u32| #[trigger] txs.contains_key(id) ==> stored_amount_ok(txs[id]),
    ensures
        effects_below(txs, client, true, n) >= 0,
    decreases n,
{
    if n > 0 {
        lemma_held_effects_nonnegative(txs, client, (n - 1) as nat);
        let k = (n - 1) as u32;
        if txs.contains_key(k) {
            assert(stored_amount_ok(txs[k]));
        }
    }
}

proof fn lemma_default_account_valid()
    ensures
        balances_valid(Account::spec_default()),
        units(Account::spec_default().spec_available()@) == 0,
        units(Account::spec_default().spec_held()@) == 0,
{
    assert(Amount::from_parts_spec((0, 0))@ == (0int, 0nat));
}

/// Storing `stored` under `id` and `next` as client `c`'s account keeps the
/// ledger, when the balances move by what the stored entry's effects move.
proof fn lemma_ledger_after_update(
    s: EngineView,
    c: u16,
    next: Account,
    id: u32,
    stored: StoredTransaction,
)
    requires
        ledger_consistent(s),
        balances_valid(next),
        stored_amount_ok(stored),
        stored.spec_transaction().client.0 == c,
        s.transactions.contains_key(id) ==> s.transactions[id].spec_transaction().client.0 == c,
        units(next.spec_available()@) + units(next.spec_held()@) == units(
            account_or_default(s.accounts, c).spec_available()@,
        ) + units(account_or_default(s.accounts, c).spec_held()@) + balance_effect(stored)
            - effect_of(s.transactions, c, id, false),
        units(next.spec_held()@) == units(account_or_default(s.accounts, c).spec_held()@) + held_effect(stored)
            - effect_of(s.transactions, c, id, true),
    ensures
        ledger_consistent(
            EngineView {
                accounts: s.accounts.insert(c, next),
                transactions: s.transactions.insert(id, stored),
            },
        ),
{
    let after = EngineView {
        accounts: s.accounts.insert(c, next),
        transactions: s.transactions.insert(id, stored),
    };
    assert forall|c2: u16| #![trigger account_or_default(after.accounts, c2)] {
        let a = account_or_default(after.accounts, c2);
        &&& units(a.spec_available()@) + units(a.spec_held()@) == ledger_total(after.transactions, c2)
        &&& units(a.spec_held()@) == ledger_held(after.transactions, c2)
    } by {
        let a0 = account_or_default(s.accounts, c2);
        assert(units(a0.spec_available()@) + units(a0.spec_held()@) == ledger_total(s.transactions, c2));
        lemma_effects_update(s.transactions, after.transactions, c2, false, id, id_space());
        lemma_effects_update(s.transactions, after.transactions, c2, true, id, id_space());
    }
}

/// Every row whose arithmetic is exact keeps each client's balances equal to
/// what its stored transactions say: the total is the deposits not charged
/// back minus the withdrawals, and `held` is the deposits under dispute.
pub proof fn lemma_row_keeps_ledger(s: EngineView, tx: Transaction)
    requires
        ledger_consistent(s),
        row_exact(s, tx),
    ensures
        ledger_consistent(process_spec(s, tx).1),
{
    let c = tx.client.0;
    let id = tx.id.0;
    let a = account_or_default(s.accounts, c);
    let after = process_spec(s, tx).1;
    lemma_default_account_valid();
    assert(balances_valid(a));
    if process_spec(s, tx).0 is Err {
        lemma_refused_row_changes_nothing(s, tx);
        assert forall|c2: u16| #![trigger account_or_default(after.accounts, c2)]
            account_or_default(after.accounts, c2) == account_or_default(s.accounts, c2) by {}
        assert forall|c2: u16| #[trigger] after.accounts.contains_key(c2) implies balances_valid(after.accounts[c2]) by {
            assert(account_or_default(after.accounts, c2) == account_or_default(s.accounts, c2));
        }
    } else {
        match tx.operation {
            Operation::Deposit { amount } => {
                lemma_deposit_credits(a, amount);
                let next = a.spec_deposit(amount)->Ok_0;
                lemma_ledger_after_update(s, c, next, id, StoredTransaction::Undisputed(tx));
            },
            Operation::Withdrawal { amount } => {
                lemma_withdrawal_debits(a, amount);
                let next = a.spec_withdrawal(amount)->Ok_0;
                lemma_ledger_after_update(s, c, next, id, StoredTransaction::Undisputed(tx));
            },
            _ => {
                let step = match tx.operation {
                    Operation::Dispute => DisputeStep::Dispute,
                    Operation::Resolve => DisputeStep::Resolve,
                    _ => DisputeStep::Chargeback,
                };
                let stored = s.transactions[id];
                assert(stored_amount_ok(stored));
                let (amount, next_stored) = lifecycle_step(stored, step, tx.id, tx.operation.spec_name())->Ok_0;
                match tx.operation {
                    Operation::Dispute => {
                        lemma_dispute_holds(a, amount);
                        lemma_ledger_after_update(s, c, a.spec_dispute(amount)->Ok_0, id, next_stored);
                    },
                    Operation::Resolve => {
                        lemma_resolve_releases(a, amount);
                        lemma_ledger_after_update(s, c, a.spec_resolve(amount)->Ok_0, id, next_stored);
                    },
                    _ => {
                        lemma_chargeback_removes_held(a, amount);
                        lemma_ledger_after_update(s, c, a.spec_chargeback(amount)->Ok_0, id, next_stored);
                    },
                }
            },
        }
    }
}

/// The engine's state after the rows `rows`, from `s`.
pub open spec fn run_rows(s: EngineView, rows: Seq<Transaction>) -> EngineView
    decreases rows.len(),
{
    if rows.len() == 0 {
        s
    } else {
        process_spec(run_rows(s, rows.drop_last()), rows.last()).1
    }
}

/// A new engine: no accounts, no transactions.
pub open spec fn new_engine() -> EngineView {
    EngineView {
        accounts: Map::<u16, Account>::empty(),
        transactions: Map::<u32, StoredTransaction>::empty(),
    }
}

/// From a new engine, after any rows whose arithmetic was each exact (whatever
/// each row returned), every client's total is its deposits not charged back
/// minus its withdrawals, and its held funds are its disputed deposits, which
/// are never negative.
pub proof fn lemma_ledger_holds(rows: Seq<Transaction>)
    requires
        forall|i: int| 0 <= i < rows.len() ==> row_exact(#[trigger] run_rows(new_engine(), rows.take(i)), rows[i]),
    ensures
        ledger_consistent(run_rows(new_engine(), rows)),
        forall|c: u16| #![trigger account_or_default(run_rows(new_engine(), rows).accounts, c)]
            units(account_or_default(run_rows(new_engine(), rows).accounts, c).spec_held()@) >= 0,
    decreases rows.len(),
{
    let end = run_rows(new_engine(), rows);
    if rows.len() == 0 {
        lemma_default_account_valid();
        assert forall|c: u16| #![trigger account_or_default(new_engine().accounts, c)] {
            let a = account_or_default(new_engine().accounts, c);
            &&& units(a.spec_available()@) + units(a.spec_held()@) == ledger_total(new_engine().transactions, c)
            &&& units(a.spec_held()@) == ledger_held(new_engine().transactions, c)
        } by {
            lemma_effects_of_empty(c, false, id_space());
            lemma_effects_of_empty(c, true, id_space());
        }
    } else {
        let prefix = rows.drop_last();
        assert forall|i: int| 0 <= i < prefix.len() implies row_exact(
            #[trigger] run_rows(new_engine(), prefix.take(i)),
            prefix[i],
        ) by {
            assert(prefix.take(i) =~= rows.take(i));
            assert(row_exact(run_rows(new_engine(), rows.take(i)), rows[i]));
        }
        lemma_ledger_holds(prefix);
        assert(rows.take(rows.len() - 1) =~= prefix);
        assert(row_exact(run_rows(new_engine(), rows.take(rows.len() - 1)), rows[rows.len() - 1]));
        lemma_row_keeps_ledger(run_rows(new_engine(), prefix), rows.last());
    }
    assert forall|c: u16| #![trigger account_or_default(end.accounts, c)]
        units(account_or_default(end.accounts, c).spec_held()@) >= 0 by {
        lemma_held_effects_nonnegative(end.transactions, c, id_space());
    }
}

} // verus!
