//! Exact decimal money amounts.
//!
//! An [`Amount`] holds the two plain values that make up a decimal number: a
//! signed 96-bit mantissa and a scale of at most 28 decimal places, so that its
//! value is `mantissa / 10^scale`. The arithmetic on amounts is carried out by
//! `rust_decimal`, which the trusted items at the end of this file call.

use vstd::prelude::*;

verus! {

/// The largest magnitude of a mantissa: `2^96 - 1`.
pub open spec fn max_mantissa() -> int {
    79228162514264337593543950335
}

/// The largest number of decimal places.
pub open spec fn max_scale() -> nat {
    28
}

pub open spec fn pow10(n: nat) -> int
    decreases n,
{
    if n == 0 {
        1
    } else {
        10 * pow10((n - 1) as nat)
    }
}

/// A pair `(mantissa, scale)` that a decimal can hold.
pub open spec fn valid_parts(v: (int, nat)) -> bool {
    -max_mantissa() <= v.0 <= max_mantissa() && v.1 <= max_scale()
}

/// The value of `(mantissa, scale)` counted in units of `10^-28`.
pub open spec fn units(v: (int, nat)) -> int {
    v.0 * pow10((max_scale() - v.1) as nat)
}

/// The larger of the two scales: the scale at which two decimals are added.
pub open spec fn common_scale(a: (int, nat), b: (int, nat)) -> nat {
    if a.1 >= b.1 {
        a.1
    } else {
        b.1
    }
}

/// The mantissa of `a` written with `scale` decimal places.
pub open spec fn aligned(a: (int, nat), scale: nat) -> int {
    a.0 * pow10((scale - a.1) as nat)
}

/// The exact sum as `rust_decimal` lays it out: an operand that is zero gives
/// back the other one; otherwise the sum at the common scale.
pub open spec fn exact_sum(a: (int, nat), b: (int, nat)) -> (int, nat) {
    if a.0 == 0 {
        b
    } else if b.0 == 0 {
        a
    } else {
        let s = common_scale(a, b);
        (aligned(a, s) + aligned(b, s), s)
    }
}

/// The exact difference `a - b`, laid out as [`exact_sum`] is.
pub open spec fn exact_difference(a: (int, nat), b: (int, nat)) -> (int, nat) {
    if a.0 == 0 {
        (-b.0, b.1)
    } else if b.0 == 0 {
        a
    } else {
        let s = common_scale(a, b);
        (aligned(a, s) - aligned(b, s), s)
    }
}

/// A mantissa that a decimal can hold.
pub open spec fn fits(m: int) -> bool {
    -max_mantissa() <= m <= max_mantissa()
}

/// What `rust_decimal::Decimal::checked_add` returns for the parts `a` and `b`.
pub uninterp spec fn decimal_checked_add(a: (int, nat), b: (int, nat)) -> Option<(int, nat)>;

/// What `rust_decimal::Decimal::checked_sub` returns for the parts `a` and `b`.
pub uninterp spec fn decimal_checked_sub(a: (int, nat), b: (int, nat)) -> Option<(int, nat)>;

/// A value, in units of `10^-28`, of magnitude at least `2^96`: no decimal
/// holds it, at any scale.
pub open spec fn out_of_range(value: int) -> bool {
    abs(value) >= (max_mantissa() + 1) * pow10(max_scale())
}

/// Checked addition: exact wherever the exact sum fits, `None` where the value
/// is out of range, otherwise whatever the decimal library makes of it (a
/// rounded sum, or `None`).
pub open spec fn checked_sum(a: (int, nat), b: (int, nat)) -> Option<(int, nat)> {
    if fits(exact_sum(a, b).0) {
        Some(exact_sum(a, b))
    } else if out_of_range(units(a) + units(b)) {
        None
    } else {
        decimal_checked_add(a, b)
    }
}

/// Checked subtraction, as [`checked_sum`].
pub open spec fn checked_difference(a: (int, nat), b: (int, nat)) -> Option<(int, nat)> {
    if fits(exact_difference(a, b).0) {
        Some(exact_difference(a, b))
    } else if out_of_range(units(a) - units(b)) {
        None
    } else {
        decimal_checked_sub(a, b)
    }
}

pub open spec fn option_parts(r: Option<Amount>) -> Option<(int, nat)> {
    match r {
        Some(a) => Some(a@),
        None => None,
    }
}

/// The sum of two amounts, `None` on overflow.
pub open spec fn amount_sum(a: Amount, b: Amount) -> Option<Amount> {
    match checked_sum(a@, b@) {
        Some(v) => Some(Amount::from_parts_spec(v)),
        None => None,
    }
}

/// The difference of two amounts, `None` on overflow.
pub open spec fn amount_difference(a: Amount, b: Amount) -> Option<Amount> {
    match checked_difference(a@, b@) {
        Some(v) => Some(Amount::from_parts_spec(v)),
        None => None,
    }
}

pub open spec fn abs(m: int) -> int {
    if m < 0 {
        -m
    } else {
        m
    }
}

/// `v` rounded to `dp` decimal places, ties to even ("banker's rounding"),
/// as `rust_decimal::Decimal::round_dp` lays it out: unchanged where it has at
/// most `dp` places, otherwise with exactly `dp` places.
pub open spec fn round_dp_parts(v: (int, nat), dp: nat) -> (int, nat) {
    if v.1 <= dp {
        v
    } else {
        let k = (v.1 - dp) as nat;
        let q = abs(v.0) / pow10(k);
        let rem = abs(v.0) % pow10(k);
        let half = 5 * pow10((k - 1) as nat);
        let q2 = if rem > half || (rem == half && q % 2 == 1) {
            q + 1
        } else {
            q
        };
        (if v.0 < 0 {
            -q2
        } else {
            q2
        }, dp)
    }
}

/// `v` with its trailing zero decimal places stripped; zero becomes `(0, 0)`.
pub open spec fn normalize_parts(v: (int, nat)) -> (int, nat)
    decreases v.1,
{
    if v.0 == 0 {
        (0, 0)
    } else if v.1 > 0 && v.0 % 10 == 0 {
        normalize_parts((v.0 / 10, (v.1 - 1) as nat))
    } else {
        v
    }
}

pub open spec fn digit_char(d: int) -> char {
    (d + 48) as char
}

/// The decimal digits of `n`, most significant first; none for zero.
pub open spec fn digits(n: nat) -> Seq<char>
    decreases n,
{
    if n == 0 {
        Seq::empty()
    } else {
        digits(n / 10).push(digit_char((n % 10) as int))
    }
}

pub open spec fn zeros(n: nat) -> Seq<char> {
    Seq::new(n, |i: int| '0')
}

/// How `rust_decimal` displays `(mantissa, scale)`: a `-` for a negative
/// value, the integral digits (`0` if there are none), and, where the scale is
/// positive, a `.` followed by exactly `scale` digits.
pub open spec fn decimal_text(v: (int, nat)) -> Seq<char> {
    let d = digits(abs(v.0) as nat);
    let padded = if d.len() < v.1 {
        zeros((v.1 - d.len()) as nat) + d
    } else {
        d
    };
    let whole = padded.take(padded.len() - v.1);
    let frac = padded.skip(padded.len() - v.1);
    let body = if v.1 == 0 {
        if d.len() == 0 {
            seq!['0']
        } else {
            d
        }
    } else {
        (if whole.len() == 0 {
            seq!['0']
        } else {
            whole
        }) + seq!['.'] + frac
    };
    if v.0 < 0 {
        seq!['-'] + body
    } else {
        body
    }
}

pub proof fn lemma_pow10_add(x: nat, y: nat)
    ensures
        pow10(x + y) == pow10(x) * pow10(y),
    decreases x,
{
    if x > 0 {
        lemma_pow10_add((x - 1) as nat, y);
        assert(pow10(x + y) == 10 * pow10((x - 1 + y) as nat));
        vstd::arithmetic::mul::lemma_mul_is_associative(10, pow10((x - 1) as nat), pow10(y));
    }
}

/// Writing a decimal with more places does not change its value.
pub proof fn lemma_units_of_aligned(a: (int, nat), scale: nat)
    requires
        a.1 <= scale <= max_scale(),
    ensures
        units((aligned(a, scale), scale)) == units(a),
{
    lemma_pow10_add((scale - a.1) as nat, (max_scale() - scale) as nat);
    assert((scale - a.1) + (max_scale() - scale) == max_scale() - a.1);
    vstd::arithmetic::mul::lemma_mul_is_associative(
        a.0,
        pow10((scale - a.1) as nat),
        pow10((max_scale() - scale) as nat),
    );
}

/// The exact sum and difference have the value of the sum and difference.
pub proof fn lemma_exact_units(a: (int, nat), b: (int, nat))
    requires
        valid_parts(a),
        valid_parts(b),
    ensures
        units(exact_sum(a, b)) == units(a) + units(b),
        units(exact_difference(a, b)) == units(a) - units(b),
        exact_sum(a, b).1 <= max_scale(),
        exact_difference(a, b).1 <= max_scale(),
{
    let s = common_scale(a, b);
    let p = pow10((max_scale() - s) as nat);
    lemma_units_of_aligned(a, s);
    lemma_units_of_aligned(b, s);
    vstd::arithmetic::mul::lemma_mul_is_distributive_add_other_way(p, aligned(a, s), aligned(b, s));
    vstd::arithmetic::mul::lemma_mul_is_distributive_sub_other_way(p, aligned(a, s), aligned(b, s));
    vstd::arithmetic::mul::lemma_mul_unary_negation(b.0, pow10((max_scale() - b.1) as nat));
}

/// Where the exact sum fits, checked addition is exact.
pub proof fn lemma_exact_sum(a: Amount, b: Amount)
    requires
        valid_parts(a@),
        valid_parts(b@),
        fits(exact_sum(a@, b@).0),
    ensures
        amount_sum(a, b) == Some(Amount::from_parts_spec(exact_sum(a@, b@))),
        Amount::from_parts_spec(exact_sum(a@, b@))@ == exact_sum(a@, b@),
        units(exact_sum(a@, b@)) == units(a@) + units(b@),
        valid_parts(exact_sum(a@, b@)),
{
    lemma_exact_units(a@, b@);
}

/// Where the exact difference fits, checked subtraction is exact.
pub proof fn lemma_exact_difference(a: Amount, b: Amount)
    requires
        valid_parts(a@),
        valid_parts(b@),
        fits(exact_difference(a@, b@).0),
    ensures
        amount_difference(a, b) == Some(Amount::from_parts_spec(exact_difference(a@, b@))),
        Amount::from_parts_spec(exact_difference(a@, b@))@ == exact_difference(a@, b@),
        units(exact_difference(a@, b@)) == units(a@) - units(b@),
        valid_parts(exact_difference(a@, b@)),
{
    lemma_exact_units(a@, b@);
}

/// A decimal amount of money: `mantissa / 10^scale`.
#[derive(Clone, Copy, Debug)]
pub struct Amount {
    mantissa: i128,
    scale: u32,
}

impl View for Amount {
    type V = (int, nat);

    closed spec fn view(&self) -> (int, nat) {
        (self.mantissa as int, self.scale as nat)
    }
}

impl Amount {
    #[verifier::type_invariant]
    spec fn well_formed(self) -> bool {
        valid_parts(self@)
    }

    /// The amount whose parts are `v`.
    pub closed spec fn from_parts_spec(v: (int, nat)) -> Amount {
        Amount { mantissa: v.0 as i128, scale: v.1 as u32 }
    }

    pub broadcast proof fn lemma_from_parts_of_view(a: Amount)
        ensures
            #[trigger] Amount::from_parts_spec(a@) == a,
    {
    }

    pub broadcast proof fn lemma_view_of_from_parts(v: (int, nat))
        requires
            valid_parts(v),
        ensures
            #[trigger] Amount::from_parts_spec(v)@ == v,
    {
    }

    pub broadcast group group_amount_parts {
        Amount::lemma_from_parts_of_view,
        Amount::lemma_view_of_from_parts,
    }

    /// Builds `mantissa / 10^scale`; `None` where the parts are out of range.
    pub fn new(mantissa: i128, scale: u32) -> (r: Option<Amount>)
        ensures
            r is Some <==> valid_parts((mantissa as int, scale as nat)),
            r matches Some(a) ==> a@ == (mantissa as int, scale as nat),
    {
        if -79228162514264337593543950335i128 <= mantissa && mantissa <= 79228162514264337593543950335i128
            && scale <= 28 {
            Some(Amount { mantissa, scale })
        } else {
            None
        }
    }

    /// Zero, with no decimal places.
    pub fn zero() -> (r: Amount)
        ensures
            r@ == (0int, 0nat),
    {
        Amount { mantissa: 0, scale: 0 }
    }

    pub fn mantissa(&self) -> (r: i128)
        ensures
            r == self@.0,
    {
        self.mantissa
    }

    pub fn scale(&self) -> (r: u32)
        ensures
            r == self@.1,
    {
        self.scale
    }
}

/// Calls `rust_decimal::Decimal::checked_add`. Claimed: where the exact sum
/// (an operand that is zero gives back the other, else the sum at the larger
/// scale) fits in 96 bits, the call returns exactly it; where the value has a
/// magnitude of `2^96` or more it returns `None` (rounding never brings such a
/// value back into range, and the library fails once scale 0 does not fit);
/// elsewhere the result is the name `decimal_checked_add` of the two operands'
/// parts. The library's source rescales the smaller-scale operand exactly and
/// only rounds or fails when the exact sum overflows 96 bits.
#[verifier::external_body]
pub(crate) fn decimal_add(lhs: Amount, rhs: Amount) -> (r: Option<Amount>)
    ensures
        option_parts(r) == checked_sum(lhs@, rhs@),
        !fits(exact_sum(lhs@, rhs@).0) && !out_of_range(units(lhs@) + units(rhs@))
            ==> option_parts(r) == decimal_checked_add(lhs@, rhs@),
{
    let l = rust_decimal::Decimal::from_i128_with_scale(lhs.mantissa, lhs.scale);
    let r = rust_decimal::Decimal::from_i128_with_scale(rhs.mantissa, rhs.scale);
    match l.checked_add(r) {
        Some(d) => Some(Amount { mantissa: d.mantissa(), scale: d.scale() }),
        None => None,
    }
}

/// Calls `rust_decimal::Decimal::checked_sub`. Claimed as for `decimal_add`,
/// with the exact difference in place of the exact sum.
#[verifier::external_body]
pub(crate) fn decimal_sub(lhs: Amount, rhs: Amount) -> (r: Option<Amount>)
    ensures
        option_parts(r) == checked_difference(lhs@, rhs@),
        !fits(exact_difference(lhs@, rhs@).0) && !out_of_range(units(lhs@) - units(rhs@))
            ==> option_parts(r) == decimal_checked_sub(lhs@, rhs@),
{
    let l = rust_decimal::Decimal::from_i128_with_scale(lhs.mantissa, lhs.scale);
    let r = rust_decimal::Decimal::from_i128_with_scale(rhs.mantissa, rhs.scale);
    match l.checked_sub(r) {
        Some(d) => Some(Amount { mantissa: d.mantissa(), scale: d.scale() }),
        None => None,
    }
}

/// Calls `<rust_decimal::Decimal as PartialOrd>::lt`. Claimed: it compares the
/// two values exactly (the library rescales to a common scale before comparing).
#[verifier::external_body]
pub(crate) fn decimal_lt(lhs: Amount, rhs: Amount) -> (r: bool)
    ensures
        r == (units(lhs@) < units(rhs@)),
{
    let l = rust_decimal::Decimal::from_i128_with_scale(lhs.mantissa, lhs.scale);
    let r = rust_decimal::Decimal::from_i128_with_scale(rhs.mantissa, rhs.scale);
    l < r
}

/// Calls `<rust_decimal::Decimal as PartialEq>::eq`. Claimed: it compares the
/// two values exactly, whatever their scales.
#[verifier::external_body]
pub(crate) fn decimal_eq(lhs: Amount, rhs: Amount) -> (r: bool)
    ensures
        r == (units(lhs@) == units(rhs@)),
{
    let l = rust_decimal::Decimal::from_i128_with_scale(lhs.mantissa, lhs.scale);
    let r = rust_decimal::Decimal::from_i128_with_scale(rhs.mantissa, rhs.scale);
    l == r
}

/// Amounts are equal when their values are, whatever their scales.
impl PartialEq for Amount {
    fn eq(&self, other: &Amount) -> (r: bool) {
        decimal_eq(*self, *other)
    }
}

impl vstd::std_specs::cmp::PartialEqSpecImpl for Amount {
    open spec fn obeys_eq_spec() -> bool {
        true
    }

    open spec fn eq_spec(&self, other: &Amount) -> bool {
        units(self@) == units(other@)
    }
}

impl Eq for Amount {
}

/// Calls `rust_decimal::Decimal::round_dp`. Claimed: the result is the value
/// rounded to `dp` places with ties to even, laid out as `round_dp_parts` says.
#[verifier::external_body]
pub(crate) fn decimal_round_dp(value: Amount, dp: u32) -> (r: Amount)
    ensures
        r@ == round_dp_parts(value@, dp as nat),
{
    let d = rust_decimal::Decimal::from_i128_with_scale(value.mantissa, value.scale).round_dp(dp);
    Amount { mantissa: d.mantissa(), scale: d.scale() }
}

/// Calls `rust_decimal::Decimal::normalize`. Claimed: trailing zero decimal
/// places are stripped and zero becomes `0` with no places.
#[verifier::external_body]
pub(crate) fn decimal_normalize(value: Amount) -> (r: Amount)
    ensures
        r@ == normalize_parts(value@),
{
    let d = rust_decimal::Decimal::from_i128_with_scale(value.mantissa, value.scale).normalize();
    Amount { mantissa: d.mantissa(), scale: d.scale() }
}

/// Calls `<rust_decimal::Decimal as ToString>::to_string` (its `Display`).
/// Claimed: the text is as `decimal_text` describes.
#[verifier::external_body]
pub(crate) fn decimal_to_string(value: Amount) -> (r: String)
    ensures
        r@ == decimal_text(value@),
{
    rust_decimal::Decimal::from_i128_with_scale(value.mantissa, value.scale).to_string()
}

} // verus!
