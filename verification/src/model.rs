//! Core data types for the payments engine: identifiers, transactions, the
//! lifecycle of a stored transaction, and client accounts.

use vstd::prelude::*;

use crate::amount::{
    abs, digit_char, digits, lemma_pow10_add, pow10, zeros,
    lemma_exact_difference, lemma_exact_sum, exact_difference, exact_sum, fits, units, valid_parts,
    amount_difference, amount_sum, decimal_add, decimal_normalize, decimal_round_dp, decimal_sub,
    decimal_text, decimal_to_string, normalize_parts, round_dp_parts, Amount,
};

verus! {

broadcast use crate::amount::Amount::group_amount_parts;

/// A client identifier.
#[derive(Clone, Copy, Debug, PartialEq, Eq, Hash, Structural)]
pub struct ClientId(pub u16);

/// A globally unique transaction identifier.
#[derive(Clone, Copy, Debug, PartialEq, Eq, Hash, Structural)]
pub struct TxId(pub u32);

/// What a transaction does. Deposits and withdrawals carry their amount; the
/// dispute lifecycle rows refer to an earlier transaction and carry none.
#[derive(Clone, Copy, Debug, PartialEq, Eq)]
pub enum Operation {
    Deposit { amount: Amount },
    Withdrawal { amount: Amount },
    Dispute,
    Resolve,
    Chargeback,
}

impl Operation {
    /// The operation's name as it appears in the `type` column.
    pub open spec fn spec_name(self) -> &'static str {
        match self {
            Operation::Deposit { .. } => "deposit",
            Operation::Withdrawal { .. } => "withdrawal",
            Operation::Dispute => "dispute",
            Operation::Resolve => "resolve",
            Operation::Chargeback => "chargeback",
        }
    }

    pub fn name(&self) -> (r: &'static str)
        ensures
            r == self.spec_name(),
    {
        match self {
            Operation::Deposit { .. } => "deposit",
            Operation::Withdrawal { .. } => "withdrawal",
            Operation::Dispute => "dispute",
            Operation::Resolve => "resolve",
            Operation::Chargeback => "chargeback",
        }
    }
}

/// A single transaction: who, which id, and what to do.
#[derive(Clone, Copy, Debug)]
pub struct Transaction {
    pub client: ClientId,
    pub id: TxId,
    pub operation: Operation,
}

/// An accepted deposit or withdrawal, tagged with its dispute lifecycle state.
/// Only deposits move beyond `Undisputed`.
#[derive(Clone, Copy, Debug)]
pub enum StoredTransaction {
    /// Not under dispute (initially, or again after a resolve).
    Undisputed(Transaction),
    /// Under dispute: its amount is held.
    Disputed(Transaction),
    /// Terminal: charged back, never disputed again.
    ChargedBack(Transaction),
}

impl StoredTransaction {
    pub open spec fn spec_transaction(self) -> Transaction {
        match self {
            StoredTransaction::Undisputed(tx) => tx,
            StoredTransaction::Disputed(tx) => tx,
            StoredTransaction::ChargedBack(tx) => tx,
        }
    }

    /// The original accepted transaction, whatever its lifecycle state.
    pub fn transaction(&self) -> (r: &Transaction)
        ensures
            *r == self.spec_transaction(),
    {
        match self {
            StoredTransaction::Undisputed(tx) => tx,
            StoredTransaction::Disputed(tx) => tx,
            StoredTransaction::ChargedBack(tx) => tx,
        }
    }
}

/// Balance arithmetic overflowed.
#[derive(Clone, Copy, Debug, PartialEq, Eq, Structural)]
pub struct AccountArithmeticError;

/// Checked addition of two amounts, as the account arithmetic reports it.
pub open spec fn sum_result(a: Amount, b: Amount) -> Result<Amount, AccountArithmeticError> {
    match amount_sum(a, b) {
        Some(v) => Ok(v),
        None => Err(AccountArithmeticError),
    }
}

/// Checked subtraction of two amounts, as the account arithmetic reports it.
pub open spec fn difference_result(a: Amount, b: Amount) -> Result<Amount, AccountArithmeticError> {
    match amount_difference(a, b) {
        Some(v) => Ok(v),
        None => Err(AccountArithmeticError),
    }
}

fn checked_add(lhs: Amount, rhs: Amount) -> (r: Result<Amount, AccountArithmeticError>)
    ensures
        r == sum_result(lhs, rhs),
{
    match decimal_add(lhs, rhs) {
        Some(v) => Ok(v),
        None => Err(AccountArithmeticError),
    }
}

fn checked_sub(lhs: Amount, rhs: Amount) -> (r: Result<Amount, AccountArithmeticError>)
    ensures
        r == difference_result(lhs, rhs),
{
    match decimal_sub(lhs, rhs) {
        Some(v) => Ok(v),
        None => Err(AccountArithmeticError),
    }
}

/// A client's account. The total is not stored: it is `available + held`.
#[derive(Clone, Copy, Debug)]
pub struct Account {
    available: Amount,
    held: Amount,
    locked: bool,
}

/// An account operation took effect as `expected` says: on `Ok` the account
/// is the new one, on `Err` it is untouched.
pub open spec fn applied(
    before: Account,
    after: Account,
    r: Result<(), AccountArithmeticError>,
    expected: Result<Account, AccountArithmeticError>,
) -> bool {
    match expected {
        Ok(next) => r is Ok && after == next,
        Err(e) => r == Err::<(), AccountArithmeticError>(e) && after == before,
    }
}

impl Account {
    pub closed spec fn spec_available(self) -> Amount {
        self.available
    }

    pub closed spec fn spec_held(self) -> Amount {
        self.held
    }

    pub closed spec fn spec_locked(self) -> bool {
        self.locked
    }

    /// The account with the given balances and lock flag.
    pub closed spec fn spec_new(available: Amount, held: Amount, locked: bool) -> Account {
        Account { available, held, locked }
    }

    pub broadcast proof fn lemma_new_parts(available: Amount, held: Amount, locked: bool)
        ensures
            #[trigger] Account::spec_new(available, held, locked).spec_available() == available,
            Account::spec_new(available, held, locked).spec_held() == held,
            Account::spec_new(available, held, locked).spec_locked() == locked,
    {
    }

    pub broadcast proof fn lemma_new_of_parts(a: Account)
        ensures
            #[trigger] Account::spec_new(a.spec_available(), a.spec_held(), a.spec_locked()) == a,
    {
    }

    pub broadcast group group_account_parts {
        Account::lemma_new_parts,
        Account::lemma_new_of_parts,
    }

    /// A fresh account: nothing available, nothing held, not locked.
    pub open spec fn spec_default() -> Account {
        Account::spec_new(
            Amount::from_parts_spec((0, 0)),
            Amount::from_parts_spec((0, 0)),
            false,
        )
    }

    /// The derived total `available + held`.
    pub open spec fn spec_total(self) -> Result<Amount, AccountArithmeticError> {
        sum_result(self.spec_available(), self.spec_held())
    }

    /// An update is kept only if the new total is representable.
    pub open spec fn spec_commit(next: Account) -> Result<Account, AccountArithmeticError> {
        match next.spec_total() {
            Ok(_) => Ok(next),
            Err(e) => Err(e),
        }
    }

    pub open spec fn spec_deposit(self, amount: Amount) -> Result<Account, AccountArithmeticError> {
        match sum_result(self.spec_available(), amount) {
            Ok(available) => Account::spec_commit(
                Account::spec_new(available, self.spec_held(), self.spec_locked()),
            ),
            Err(e) => Err(e),
        }
    }

    pub open spec fn spec_withdrawal(self, amount: Amount) -> Result<Account, AccountArithmeticError> {
        match difference_result(self.spec_available(), amount) {
            Ok(available) => Account::spec_commit(
                Account::spec_new(available, self.spec_held(), self.spec_locked()),
            ),
            Err(e) => Err(e),
        }
    }

    pub open spec fn spec_dispute(self, amount: Amount) -> Result<Account, AccountArithmeticError> {
        match difference_result(self.spec_available(), amount) {
            Ok(available) => match sum_result(self.spec_held(), amount) {
                Ok(held) => Account::spec_commit(Account::spec_new(available, held, self.spec_locked())),
                Err(e) => Err(e),
            },
            Err(e) => Err(e),
        }
    }

    pub open spec fn spec_resolve(self, amount: Amount) -> Result<Account, AccountArithmeticError> {
        match difference_result(self.spec_held(), amount) {
            Ok(held) => match sum_result(self.spec_available(), amount) {
                Ok(available) => Account::spec_commit(Account::spec_new(available, held, self.spec_locked())),
                Err(e) => Err(e),
            },
            Err(e) => Err(e),
        }
    }

    pub open spec fn spec_chargeback(self, amount: Amount) -> Result<Account, AccountArithmeticError> {
        match difference_result(self.spec_held(), amount) {
            Ok(held) => Account::spec_commit(Account::spec_new(self.spec_available(), held, true)),
            Err(e) => Err(e),
        }
    }

    /// An account with the given balances and lock flag.
    pub fn new(available: Amount, held: Amount, locked: bool) -> (r: Account)
        ensures
            r == Account::spec_new(available, held, locked),
    {
        Account { available, held, locked }
    }

    pub fn available(&self) -> (r: Amount)
        ensures
            r == self.spec_available(),
    {
        self.available
    }

    pub fn held(&self) -> (r: Amount)
        ensures
            r == self.spec_held(),
    {
        self.held
    }

    pub fn is_locked(&self) -> (r: bool)
        ensures
            r == self.spec_locked(),
    {
        self.locked
    }

    /// Derived total: available funds plus funds held for disputes.
    pub fn total(&self) -> (r: Result<Amount, AccountArithmeticError>)
        ensures
            r == self.spec_total(),
    {
        checked_add(self.available, self.held)
    }

    pub fn deposit(&mut self, amount: Amount) -> (r: Result<(), AccountArithmeticError>)
        ensures
            applied(*old(self), *final(self), r, old(self).spec_deposit(amount)),
    {
        let available = checked_add(self.available, amount)?;
        self.commit(Account { available, held: self.held, locked: self.locked })
    }

    pub fn withdrawal(&mut self, amount: Amount) -> (r: Result<(), AccountArithmeticError>)
        ensures
            applied(*old(self), *final(self), r, old(self).spec_withdrawal(amount)),
    {
        let available = checked_sub(self.available, amount)?;
        self.commit(Account { available, held: self.held, locked: self.locked })
    }

    pub fn dispute(&mut self, amount: Amount) -> (r: Result<(), AccountArithmeticError>)
        ensures
            applied(*old(self), *final(self), r, old(self).spec_dispute(amount)),
    {
        let available = checked_sub(self.available, amount)?;
        let held = checked_add(self.held, amount)?;
        self.commit(Account { available, held, locked: self.locked })
    }

    pub fn resolve(&mut self, amount: Amount) -> (r: Result<(), AccountArithmeticError>)
        ensures
            applied(*old(self), *final(self), r, old(self).spec_resolve(amount)),
    {
        let held = checked_sub(self.held, amount)?;
        let available = checked_add(self.available, amount)?;
        self.commit(Account { available, held, locked: self.locked })
    }

    pub fn chargeback(&mut self, amount: Amount) -> (r: Result<(), AccountArithmeticError>)
        ensures
            applied(*old(self), *final(self), r, old(self).spec_chargeback(amount)),
    {
        let held = checked_sub(self.held, amount)?;
        self.commit(Account { available: self.available, held, locked: true })
    }

    /// Replaces the account by `next`, but only if its total is representable.
    fn commit(&mut self, next: Account) -> (r: Result<(), AccountArithmeticError>)
        ensures
            applied(*old(self), *final(self), r, Account::spec_commit(next)),
    {
        next.total()?;
        *self = next;
        Ok(())
    }
}

impl Default for Account {
    fn default() -> (r: Account)
        ensures
            r == Account::spec_default(),
    {
        Account { available: Amount::zero(), held: Amount::zero(), locked: false }
    }
}

/// The account's balances are amounts that a decimal can hold.
pub open spec fn balances_valid(a: Account) -> bool {
    valid_parts(a.spec_available()@) && valid_parts(a.spec_held()@)
}

/// A deposit whose exact sum fits credits exactly the amount to `available`;
/// it goes through whenever the new total fits too.
pub proof fn lemma_deposit_credits(a: Account, x: Amount)
    requires
        balances_valid(a),
        valid_parts(x@),
        fits(exact_sum(a.spec_available()@, x@).0),
    ensures
        a.spec_deposit(x) matches Ok(b) ==> {
            &&& units(b.spec_available()@) == units(a.spec_available()@) + units(x@)
            &&& b.spec_held() == a.spec_held()
            &&& b.spec_locked() == a.spec_locked()

            &&& balances_valid(b)
        },
        fits(exact_sum(exact_sum(a.spec_available()@, x@), a.spec_held()@).0) ==> a.spec_deposit(x) is Ok,
{
    lemma_exact_sum(a.spec_available(), x);
    let available = Amount::from_parts_spec(exact_sum(a.spec_available()@, x@));
    if fits(exact_sum(exact_sum(a.spec_available()@, x@), a.spec_held()@).0) {
        lemma_exact_sum(available, a.spec_held());
    }
}

/// A withdrawal whose exact difference fits debits exactly the amount from
/// `available`; it goes through whenever the new total fits too.
pub proof fn lemma_withdrawal_debits(a: Account, x: Amount)
    requires
        balances_valid(a),
        valid_parts(x@),
        fits(exact_difference(a.spec_available()@, x@).0),
    ensures
        a.spec_withdrawal(x) matches Ok(b) ==> {
            &&& units(b.spec_available()@) == units(a.spec_available()@) - units(x@)
            &&& b.spec_held() == a.spec_held()
            &&& b.spec_locked() == a.spec_locked()

            &&& balances_valid(b)
        },
        fits(exact_sum(exact_difference(a.spec_available()@, x@), a.spec_held()@).0) ==> a.spec_withdrawal(x) is Ok,
{
    lemma_exact_difference(a.spec_available(), x);
    let available = Amount::from_parts_spec(exact_difference(a.spec_available()@, x@));
    if fits(exact_sum(exact_difference(a.spec_available()@, x@), a.spec_held()@).0) {
        lemma_exact_sum(available, a.spec_held());
    }
}

/// A deposit or withdrawal of zero is accepted and changes no balance's value.
pub proof fn lemma_zero_amount_is_no_op(a: Account, x: Amount)
    requires
        balances_valid(a),
        valid_parts(x@),
        x@.0 == 0,
        a.spec_total() is Ok,
    ensures
        a.spec_deposit(x) matches Ok(b) && units(b.spec_available()@) == units(a.spec_available()@)
            && b.spec_held() == a.spec_held() && b.spec_locked() == a.spec_locked(),
        a.spec_withdrawal(x) matches Ok(b) && units(b.spec_available()@) == units(a.spec_available()@)
            && b.spec_held() == a.spec_held() && b.spec_locked() == a.spec_locked(),
{
    lemma_deposit_credits(a, x);
    lemma_withdrawal_debits(a, x);
    assert(units(x@) == 0);
    if a.spec_available()@.0 == 0 {
        assert(fits(exact_sum(exact_sum(a.spec_available()@, x@), a.spec_held()@).0));
        assert(fits(exact_sum(exact_difference(a.spec_available()@, x@), a.spec_held()@).0));
    } else {
        assert(exact_sum(a.spec_available()@, x@) == a.spec_available()@);
        assert(exact_difference(a.spec_available()@, x@) == a.spec_available()@);
        assert(Account::spec_new(a.spec_available(), a.spec_held(), a.spec_locked()) == a);
    }
}

/// A dispute whose arithmetic is exact moves the amount from `available` to
/// `held` and leaves the total unchanged; it goes through whenever the new
/// total fits too.
pub proof fn lemma_dispute_holds(a: Account, x: Amount)
    requires
        balances_valid(a),
        valid_parts(x@),
        fits(exact_difference(a.spec_available()@, x@).0),
        fits(exact_sum(a.spec_held()@, x@).0),
    ensures
        a.spec_dispute(x) matches Ok(b) ==> {
            &&& units(b.spec_available()@) == units(a.spec_available()@) - units(x@)
            &&& units(b.spec_held()@) == units(a.spec_held()@) + units(x@)
            &&& units(b.spec_available()@) + units(b.spec_held()@)
                == units(a.spec_available()@) + units(a.spec_held()@)
            &&& b.spec_locked() == a.spec_locked()
            &&& balances_valid(b)
        },
        fits(exact_sum(exact_difference(a.spec_available()@, x@), exact_sum(a.spec_held()@, x@)).0)
            ==> a.spec_dispute(x) is Ok,
{
    lemma_exact_difference(a.spec_available(), x);
    lemma_exact_sum(a.spec_held(), x);
    let available = Amount::from_parts_spec(exact_difference(a.spec_available()@, x@));
    let held = Amount::from_parts_spec(exact_sum(a.spec_held()@, x@));
    if fits(exact_sum(exact_difference(a.spec_available()@, x@), exact_sum(a.spec_held()@, x@)).0) {
        lemma_exact_sum(available, held);
    }
}

/// A resolve whose arithmetic is exact moves the amount from `held` back to
/// `available` and leaves the total unchanged; it goes through whenever the new
/// total fits too.
pub proof fn lemma_resolve_releases(a: Account, x: Amount)
    requires
        balances_valid(a),
        valid_parts(x@),
        fits(exact_difference(a.spec_held()@, x@).0),
        fits(exact_sum(a.spec_available()@, x@).0),
    ensures
        a.spec_resolve(x) matches Ok(b) ==> {
            &&& units(b.spec_available()@) == units(a.spec_available()@) + units(x@)
            &&& units(b.spec_held()@) == units(a.spec_held()@) - units(x@)
            &&& units(b.spec_available()@) + units(b.spec_held()@)
                == units(a.spec_available()@) + units(a.spec_held()@)
            &&& b.spec_locked() == a.spec_locked()
            &&& balances_valid(b)
        },
        fits(exact_sum(exact_sum(a.spec_available()@, x@), exact_difference(a.spec_held()@, x@)).0)
            ==> a.spec_resolve(x) is Ok,
{
    lemma_exact_difference(a.spec_held(), x);
    lemma_exact_sum(a.spec_available(), x);
    let available = Amount::from_parts_spec(exact_sum(a.spec_available()@, x@));
    let held = Amount::from_parts_spec(exact_difference(a.spec_held()@, x@));
    if fits(exact_sum(exact_sum(a.spec_available()@, x@), exact_difference(a.spec_held()@, x@)).0) {
        lemma_exact_sum(available, held);
    }
}

/// A chargeback whose arithmetic is exact removes the amount from `held`,
/// leaves `available` as it is, and locks the account.
pub proof fn lemma_chargeback_removes_held(a: Account, x: Amount)
    requires
        balances_valid(a),
        valid_parts(x@),
        fits(exact_difference(a.spec_held()@, x@).0),
    ensures
        a.spec_chargeback(x) matches Ok(b) ==> {
            &&& units(b.spec_held()@) == units(a.spec_held()@) - units(x@)
            &&& b.spec_available() == a.spec_available()
            &&& b.spec_locked()

            &&& balances_valid(b)
        },
        fits(exact_sum(a.spec_available()@, exact_difference(a.spec_held()@, x@)).0) ==> a.spec_chargeback(x) is Ok,
{
    lemma_exact_difference(a.spec_held(), x);
    let held = Amount::from_parts_spec(exact_difference(a.spec_held()@, x@));
    if fits(exact_sum(a.spec_available()@, exact_difference(a.spec_held()@, x@)).0) {
        lemma_exact_sum(a.spec_available(), held);
    }
}

/// The arithmetic of disputing `x` and then resolving it is exact, the new
/// totals included.
pub open spec fn dispute_round_trip_exact(a: Account, x: Amount) -> bool {
    let available = a.spec_available()@;
    let held = a.spec_held()@;
    let disputed_available = exact_difference(available, x@);
    let disputed_held = exact_sum(held, x@);
    &&& fits(disputed_available.0)
    &&& fits(disputed_held.0)
    &&& fits(exact_sum(disputed_available, disputed_held).0)
    &&& fits(exact_difference(disputed_held, x@).0)
    &&& fits(exact_sum(disputed_available, x@).0)
    &&& fits(exact_sum(exact_sum(disputed_available, x@), exact_difference(disputed_held, x@)).0)
}

/// Where its arithmetic is exact, a dispute of `x` and then a resolve of `x`
/// both go through, and give back the balances' values from before.
pub proof fn lemma_resolve_undoes_dispute(a: Account, x: Amount)
    requires
        balances_valid(a),
        valid_parts(x@),
        dispute_round_trip_exact(a, x),
    ensures
        a.spec_dispute(x) is Ok,
        a.spec_dispute(x)->Ok_0.spec_resolve(x) is Ok,
        ({
            let c = a.spec_dispute(x)->Ok_0.spec_resolve(x)->Ok_0;
            &&& units(c.spec_available()@) == units(a.spec_available()@)
            &&& units(c.spec_held()@) == units(a.spec_held()@)
            &&& c.spec_locked() == a.spec_locked()
        }),
{
    lemma_dispute_holds(a, x);
    let b = a.spec_dispute(x)->Ok_0;
    lemma_exact_difference(a.spec_available(), x);
    lemma_exact_sum(a.spec_held(), x);
    lemma_resolve_releases(b, x);
}

/// The arithmetic of depositing `x` and then withdrawing it is exact, the new
/// totals included.
pub open spec fn deposit_round_trip_exact(a: Account, x: Amount) -> bool {
    let available = a.spec_available()@;
    let held = a.spec_held()@;
    let deposited = exact_sum(available, x@);
    &&& fits(deposited.0)
    &&& fits(exact_sum(deposited, held).0)
    &&& fits(exact_difference(deposited, x@).0)
    &&& fits(exact_sum(exact_difference(deposited, x@), held).0)
}

/// Where its arithmetic is exact, a deposit of `x` and then a withdrawal of
/// `x` both go through, and give back the balances' values from before.
pub proof fn lemma_withdrawal_undoes_deposit(a: Account, x: Amount)
    requires
        balances_valid(a),
        valid_parts(x@),
        deposit_round_trip_exact(a, x),
    ensures
        a.spec_deposit(x) is Ok,
        a.spec_deposit(x)->Ok_0.spec_withdrawal(x) is Ok,
        ({
            let c = a.spec_deposit(x)->Ok_0.spec_withdrawal(x)->Ok_0;
            &&& units(c.spec_available()@) == units(a.spec_available()@)
            &&& c.spec_held() == a.spec_held()
            &&& c.spec_locked() == a.spec_locked()
        }),
{
    lemma_deposit_credits(a, x);
    let b = a.spec_deposit(x)->Ok_0;
    lemma_exact_sum(a.spec_available(), x);
    lemma_withdrawal_debits(b, x);
}

/// The output text of a monetary value: rounded to at most 4 decimal places,
/// trailing zeros dropped, but always at least one decimal place.
pub open spec fn amount_text(v: (int, nat)) -> Seq<char> {
    let rounded = normalize_parts(round_dp_parts(v, 4));
    if rounded.1 == 0 {
        decimal_text(rounded) + seq!['.', '0']
    } else {
        decimal_text(rounded)
    }
}

/// Render a monetary value to at most 4 decimal places, dropping trailing zeros
/// but always keeping at least one (e.g. `0.0`, `1.5`, `3.2344`).
pub fn format_amount(value: Amount) -> (r: String)
    ensures
        r@ == amount_text(value@),
{
    let rounded = decimal_normalize(decimal_round_dp(value, 4));
    let mut text = decimal_to_string(rounded);
    if rounded.scale() == 0 {
        text.append(".0");
        proof {
            reveal_strlit(".0");
        }
    }
    text
}

/// One row of the output: an account rendered for the result CSV. The
/// monetary values are already formatted; `total` is `available + held`.
#[derive(Debug)]
pub struct AccountRecord {
    pub client: ClientId,
    pub available: String,
    pub held: String,
    pub total: String,
    pub locked: bool,
}

impl AccountRecord {
    /// This record is `account`, owned by `client`, rendered.
    pub open spec fn renders(self, client: ClientId, account: Account) -> bool {
        &&& self.client == client
        &&& self.available@ == amount_text(account.spec_available()@)
        &&& self.held@ == amount_text(account.spec_held()@)
        &&& account.spec_total() matches Ok(total) && self.total@ == amount_text(total@)
        &&& self.locked == account.spec_locked()
    }

    /// Render `account` (owned by `client`) into its output form; fails only
    /// where its total is not representable.
    pub fn new(client: ClientId, account: &Account) -> (r: Result<Self, AccountArithmeticError>)
        ensures
            match account.spec_total() {
                Ok(_) => r matches Ok(record) && record.renders(client, *account),
                Err(e) => r matches Err(e2) && e2 == e,
            },
    {
        Ok(Self {
            client,
            available: format_amount(account.available()),
            held: format_amount(account.held()),
            total: format_amount(account.total()?),
            locked: account.is_locked(),
        })
    }
}

pub open spec fn is_digit(c: char) -> bool {
    '0' <= c <= '9'
}

pub open spec fn all_digits(text: Seq<char>) -> bool {
    forall|i: int| 0 <= i < text.len() ==> is_digit(#[trigger] text[i])
}

proof fn lemma_digits_are_digits(n: nat)
    ensures
        all_digits(digits(n)),
    decreases n,
{
    if n > 0 {
        lemma_digits_are_digits(n / 10);
        assert(is_digit(digit_char((n % 10) as int)));
    }
}

proof fn lemma_normalize_keeps_scale_bound(v: (int, nat))
    ensures
        normalize_parts(v).1 <= v.1,
    decreases v.1,
{
    if v.0 != 0 && v.1 > 0 && v.0 % 10 == 0 {
        lemma_normalize_keeps_scale_bound((v.0 / 10, (v.1 - 1) as nat));
    }
}

/// Every rendered amount is an optional `-`, then digits, one `.`, and between
/// one and four digits after it.
pub proof fn lemma_amount_text_shape(v: (int, nat))
    ensures
        ({
            let text = amount_text(v);
            exists|k: int| {
                &&& 0 <= k < text.len()
                &&& text[k] == '.'
                &&& 1 <= text.len() - 1 - k <= 4
                &&& forall|j: int| #![trigger text[j]] 0 <= j < text.len() && j != k ==>
                    is_digit(text[j]) || (j == 0 && text[j] == '-')
            }
        }),
{
    let n = normalize_parts(round_dp_parts(v, 4));
    lemma_normalize_keeps_scale_bound(round_dp_parts(v, 4));
    assert(n.1 <= 4);
    let d = digits(abs(n.0) as nat);
    lemma_digits_are_digits(abs(n.0) as nat);
    let padded = if d.len() < n.1 {
        zeros((n.1 - d.len()) as nat) + d
    } else {
        d
    };
    assert(all_digits(padded)) by {
        assert forall|i: int| 0 <= i < padded.len() implies is_digit(#[trigger] padded[i]) by {
            if d.len() < n.1 && i < n.1 - d.len() {
                assert(padded[i] == '0');
            } else if d.len() < n.1 {
                assert(padded[i] == d[i - (n.1 - d.len())]);
            }
        }
    }
    let whole = padded.take(padded.len() - n.1);
    let frac = padded.skip(padded.len() - n.1);
    let sign: Seq<char> = if n.0 < 0 {
        seq!['-']
    } else {
        Seq::empty()
    };
    let text = amount_text(v);
    if n.1 == 0 {
        let body = if d.len() == 0 {
            seq!['0']
        } else {
            d
        };
        assert(decimal_text(n) =~= sign + body);
        assert(text =~= sign + body + seq!['.', '0']);
        let k: int = text.len() - 2;
        assert forall|j: int| #![trigger text[j]] 0 <= j < text.len() && j != k implies
            is_digit(text[j]) || (j == 0 && text[j] == '-') by {
            if j < sign.len() {
            } else if j < sign.len() + body.len() {
                assert(text[j] == body[j - sign.len()]);
            }
        }
        assert(text[k] == '.');
    } else {
        let w = if whole.len() == 0 {
            seq!['0']
        } else {
            whole
        };
        assert(all_digits(w));
        assert(frac.len() == n.1);
        assert(text =~= sign + w + seq!['.'] + frac);
        let k: int = sign.len() as int + w.len() as int;
        assert forall|j: int| #![trigger text[j]] 0 <= j < text.len() && j != k implies
            is_digit(text[j]) || (j == 0 && text[j] == '-') by {
            if j < sign.len() {
            } else if j < k {
                assert(text[j] == w[j - sign.len()]);
            } else {
                assert(text[j] == frac[j - k - 1]);
            }
        }
        assert(text[k] == '.');
    }
}

proof fn lemma_pow10_positive(n: nat)
    ensures
        pow10(n) > 0,
    decreases n,
{
    if n > 0 {
        lemma_pow10_positive((n - 1) as nat);
    }
}

/// Stripping trailing zeros keeps the value, does not raise the scale, and
/// leaves no trailing zero.
proof fn lemma_normalize_value(v: (int, nat))
    requires
        v.1 <= 28,
    ensures
        units(normalize_parts(v)) == units(v),
        normalize_parts(v).1 <= v.1,
        normalize_parts(v).1 == 0 || normalize_parts(v).0 % 10 != 0,
    decreases v.1,
{
    if v.0 == 0 {
        assert(units(v) == 0) by {
            vstd::arithmetic::mul::lemma_mul_basics(pow10((28 - v.1) as nat));
        }
        assert(units((0int, 0nat)) == 0) by {
            vstd::arithmetic::mul::lemma_mul_basics(pow10(28));
        }
    } else if v.1 > 0 && v.0 % 10 == 0 {
        let w = (v.0 / 10, (v.1 - 1) as nat);
        lemma_normalize_value(w);
        let e = pow10((28 - v.1) as nat);
        assert(pow10((28 - w.1) as nat) == 10 * e);
        assert(w.0 * 10 == v.0);
        vstd::arithmetic::mul::lemma_mul_is_associative(w.0, 10, e);
    }
}

/// Rounding to 4 places leaves a value with at most 4 places that is within
/// half of `10^-4` of the original, and exactly the original where that had
/// at most 4 places.
proof fn lemma_round_value(v: (int, nat))
    requires
        valid_parts(v),
    ensures
        round_dp_parts(v, 4).1 <= 4,
        abs(units(round_dp_parts(v, 4)) - units(v)) <= 5 * pow10(23),
        v.1 <= 4 ==> round_dp_parts(v, 4) == v,
{
    lemma_pow10_positive(23);
    if v.1 > 4 {
        let k = (v.1 - 4) as nat;
        let p = pow10(k);
        let ph = pow10((k - 1) as nat);
        let e = pow10((24 - k) as nat);
        lemma_pow10_positive(k);
        lemma_pow10_positive((k - 1) as nat);
        lemma_pow10_positive((24 - k) as nat);
        assert(p == 10 * ph);
        let m = abs(v.0);
        let q = m / p;
        let r = m % p;
        vstd::arithmetic::div_mod::lemma_fundamental_div_mod(m, p);
        assert(m == p * q + r);
        assert(0 <= r < p);
        let half = 5 * ph;
        let q2 = if r > half || (r == half && q % 2 == 1) {
            q + 1
        } else {
            q
        };
        assert(round_dp_parts(v, 4) == (if v.0 < 0 { -q2 } else { q2 }, 4nat));
        let gap = q2 * p - m;
        assert(-half <= gap <= half) by (nonlinear_arith)
            requires
                m == p * q + r,
                0 <= r < p,
                p == 2 * half,
                q2 == q || q2 == q + 1,
                q2 == q + 1 ==> r >= half,
                q2 == q ==> r <= half,
                gap == q2 * p - m;
        lemma_pow10_add(k, (24 - k) as nat);
        assert(pow10(24) == p * e);
        lemma_pow10_add((k - 1) as nat, (24 - k) as nat);
        assert(pow10(23) == ph * e);
        assert(units(v) == v.0 * e);
        let rounded_units = (if v.0 < 0 { -q2 } else { q2 }) * pow10(24);
        assert(units(round_dp_parts(v, 4)) == rounded_units);
        assert(abs(rounded_units - units(v)) <= 5 * pow10(23)) by (nonlinear_arith)
            requires
                rounded_units == (if v.0 < 0 { -q2 } else { q2 }) * (p * e),
                units(v) == v.0 * e,
                m == (if v.0 < 0 { -v.0 } else { v.0 }),
                gap == q2 * p - m,
                -half <= gap <= half,
                half == 5 * ph,
                pow10(23) == ph * e,
                e > 0,
                abs(rounded_units - units(v)) == (if rounded_units - units(v) < 0 {
                    -(rounded_units - units(v))
                } else {
                    rounded_units - units(v)
                });
    } else {
        assert(abs(units(v) - units(v)) == 0);
    }
}

/// The rendered text of an amount is the decimal display of a value with at
/// most 4 places and no trailing zero, within half of `10^-4` of the amount
/// (the amount itself where it had at most 4 places), with `.0` appended where
/// that value is whole.
pub proof fn lemma_amount_text_value(v: (int, nat))
    requires
        valid_parts(v),
    ensures
        exists|n: (int, nat)| {
            &&& n.1 <= 4
            &&& (n.1 == 0 || n.0 % 10 != 0)
            &&& abs(units(n) - units(v)) <= 5 * pow10(23)
            &&& (v.1 <= 4 ==> units(n) == units(v))
            &&& amount_text(v) == decimal_text(n) + if n.1 == 0 {
                seq!['.', '0']
            } else {
                Seq::<char>::empty()
            }
        },
{
    lemma_round_value(v);
    let r = round_dp_parts(v, 4);
    lemma_normalize_value(r);
    let n = normalize_parts(r);
    if n.1 != 0 {
        assert(decimal_text(n) + Seq::<char>::empty() =~= decimal_text(n));
    }
    assert(amount_text(v) == decimal_text(n) + if n.1 == 0 {
        seq!['.', '0']
    } else {
        Seq::<char>::empty()
    });
}

} // verus!
