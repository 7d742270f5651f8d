//! Money amounts.
//!
//! An [`Amount`] holds exactly what a `rust_decimal::Decimal` holds: a signed
//! 96-bit mantissa and a decimal scale of at most 28.  Its value is
//! `mantissa / 10^scale`; in contracts it is measured in units of `10^-28`
//! (see [`Amount::units`]), which makes every amount an integer.  The
//! arithmetic itself is done by `rust_decimal` through the trusted items at the
//! bottom of this file.

use rust_decimal::Decimal;
use std::str::FromStr;
use vstd::prelude::*;

verus! {

/// Largest mantissa magnitude of a decimal: `2^96 - 1`.
pub const MAX_MANTISSA: i128 = 79228162514264337593543950335;

/// Largest decimal scale.
pub const MAX_SCALE: u32 = 28;

pub open spec fn pow10(k: nat) -> int
    decreases k,
{
    if k == 0 {
        1
    } else {
        10 * pow10((k - 1) as nat)
    }
}

pub open spec fn abs_int(x: int) -> int {
    if x < 0 { -x } else { x }
}

/// The sum of two decimals where it fits the mantissa at their common scale.
pub open spec fn checked_sum(a: Amount, b: Amount) -> Option<Amount> {
    if sum_fits(a, b) {
        decimal_sum(a, b)
    } else {
        None
    }
}

/// The difference of two decimals where it fits the mantissa at their common scale.
pub open spec fn checked_difference(a: Amount, b: Amount) -> Option<Amount> {
    if difference_fits(a, b) {
        decimal_difference(a, b)
    } else {
        None
    }
}

/// A decimal amount of money.
#[derive(Clone, Copy, Debug, Hash)]
pub struct Amount {
    pub mantissa: i128,
    pub scale: u32,
}

/// The mantissa of `a` rescaled to scale `s` (at least `a.scale`).
pub open spec fn aligned(a: Amount, s: int) -> int {
    a.mantissa * pow10((s - a.scale) as nat)
}

pub open spec fn max_scale(a: Amount, b: Amount) -> int {
    if a.scale >= b.scale { a.scale as int } else { b.scale as int }
}

/// Adding `a` and `b` at their common scale stays within the 96-bit mantissa.
pub open spec fn sum_fits(a: Amount, b: Amount) -> bool {
    let s = max_scale(a, b);
    &&& abs_int(aligned(a, s)) <= MAX_MANTISSA
    &&& abs_int(aligned(b, s)) <= MAX_MANTISSA
    &&& abs_int(aligned(a, s) + aligned(b, s)) <= MAX_MANTISSA
}

/// Subtracting `b` from `a` at their common scale stays within the 96-bit mantissa.
pub open spec fn difference_fits(a: Amount, b: Amount) -> bool {
    let s = max_scale(a, b);
    &&& abs_int(aligned(a, s)) <= MAX_MANTISSA
    &&& abs_int(aligned(b, s)) <= MAX_MANTISSA
    &&& abs_int(aligned(a, s) - aligned(b, s)) <= MAX_MANTISSA
}

impl Amount {
    /// A representable decimal.
    pub open spec fn wf(self) -> bool {
        -MAX_MANTISSA <= self.mantissa <= MAX_MANTISSA && self.scale <= MAX_SCALE
    }

    /// The value in units of `10^-28`.
    pub open spec fn units(self) -> int {
        self.mantissa * pow10((MAX_SCALE - self.scale) as nat)
    }

    /// The amount `num / 10^scale` (as `Decimal::new`).
    pub fn new(num: i64, scale: u32) -> (r: Amount)
        requires
            scale <= MAX_SCALE,
        ensures
            r.wf(),
            r.mantissa == num,
            r.scale == scale,
    {
        Amount { mantissa: num as i128, scale }
    }

    /// Zero.
    pub fn zero() -> (r: Amount)
        ensures
            r.wf(),
            r.units() == 0,
            r.mantissa == 0,
            r.scale == 0,
    {
        Amount { mantissa: 0, scale: 0 }
    }

    /// The whole number `n` (as `Decimal::from`).
    pub fn from_int(n: i64) -> (r: Amount)
        ensures
            r.wf(),
            r.mantissa == n,
            r.scale == 0,
            r.units() == n * pow10(28),
    {
        Amount { mantissa: n as i128, scale: 0 }
    }

    pub fn mantissa(&self) -> (r: i128)
        ensures
            r == self.mantissa,
    {
        self.mantissa
    }

    pub fn scale(&self) -> (r: u32)
        ensures
            r == self.scale,
    {
        self.scale
    }

    pub fn is_zero(&self) -> (r: bool)
        ensures
            r == (self.mantissa == 0),
    {
        self.mantissa == 0
    }

    /// Strictly below zero.
    pub fn is_negative(&self) -> (r: bool)
        ensures
            r == (self.mantissa < 0),
    {
        self.mantissa < 0
    }

    /// Strictly above zero.
    pub fn is_positive(&self) -> (r: bool)
        ensures
            r == (self.mantissa > 0),
    {
        self.mantissa > 0
    }

    /// The negated amount.
    pub fn neg(&self) -> (r: Amount)
        requires
            self.wf(),
        ensures
            r.wf(),
            r.mantissa == -self.mantissa,
            r.scale == self.scale,
            r.units() == -self.units(),
    {
        proof {
            vstd::arithmetic::mul::lemma_mul_unary_negation(
                self.mantissa as int,
                pow10((MAX_SCALE - self.scale) as nat),
            );
        }
        Amount { mantissa: -self.mantissa, scale: self.scale }
    }

    /// The absolute value.
    pub fn abs(&self) -> (r: Amount)
        requires
            self.wf(),
        ensures
            r.wf(),
            r.mantissa == abs_int(self.mantissa as int),
            r.scale == self.scale,
            r.units() == abs_int(self.units()),
    {
        proof {
            lemma_pow10_positive((MAX_SCALE - self.scale) as nat);
            vstd::arithmetic::mul::lemma_mul_unary_negation(
                self.mantissa as int,
                pow10((MAX_SCALE - self.scale) as nat),
            );
            if self.mantissa >= 0 {
                vstd::arithmetic::mul::lemma_mul_nonnegative(
                    self.mantissa as int,
                    pow10((MAX_SCALE - self.scale) as nat),
                );
            } else {
                vstd::arithmetic::mul::lemma_mul_strictly_positive(
                    -self.mantissa as int,
                    pow10((MAX_SCALE - self.scale) as nat),
                );
            }
        }
        if self.mantissa < 0 {
            self.neg()
        } else {
            *self
        }
    }

    /// `self + other`, exactly; `None` when the exact sum cannot be held at the
    /// common scale of the two operands.
    pub fn checked_add(&self, other: &Amount) -> (r: Option<Amount>)
        requires
            self.wf(),
            other.wf(),
        ensures
            r == checked_sum(*self, *other),
            r is Some <==> sum_fits(*self, *other),
            r matches Some(x) ==> x.wf() && x.units() == self.units() + other.units() && x.scale
                <= max_scale(*self, *other),
    {
        let s = if self.scale >= other.scale { self.scale } else { other.scale };
        let a = aligned_mantissa(self, s);
        let b = aligned_mantissa(other, s);
        match (a, b) {
            (Some(x), Some(y)) => {
                let sum = x + y;
                if -MAX_MANTISSA <= sum && sum <= MAX_MANTISSA {
                    decimal_checked_add(*self, *other)
                } else {
                    None
                }
            },
            _ => None,
        }
    }

    /// `self - other`, exactly; `None` when the exact difference cannot be held at
    /// the common scale of the two operands.
    pub fn checked_sub(&self, other: &Amount) -> (r: Option<Amount>)
        requires
            self.wf(),
            other.wf(),
        ensures
            r == checked_difference(*self, *other),
            r is Some <==> difference_fits(*self, *other),
            r matches Some(x) ==> x.wf() && x.units() == self.units() - other.units() && x.scale
                <= max_scale(*self, *other),
    {
        let s = if self.scale >= other.scale { self.scale } else { other.scale };
        let a = aligned_mantissa(self, s);
        let b = aligned_mantissa(other, s);
        match (a, b) {
            (Some(x), Some(y)) => {
                let d = x - y;
                if -MAX_MANTISSA <= d && d <= MAX_MANTISSA {
                    decimal_checked_sub(*self, *other)
                } else {
                    None
                }
            },
            _ => None,
        }
    }

    /// `self + other` as `rust_decimal` adds: exact when the sum fits the mantissa
    /// at the common scale of the operands, otherwise rounded to a smaller
    /// scale; `None` when even that overflows.
    pub fn add_rounded(&self, other: &Amount) -> (r: Option<Amount>)
        requires
            self.wf(),
            other.wf(),
        ensures
            r == decimal_sum(*self, *other),
            sum_fits(*self, *other) ==> r is Some && r.unwrap().units() == self.units() + other.units(),
            r matches Some(x) ==> x.wf() && x.scale <= max_scale(*self, *other),
    {
        decimal_checked_add(*self, *other)
    }

    /// `self - other` as `rust_decimal` subtracts (see [`Amount::add_rounded`]).
    pub fn sub_rounded(&self, other: &Amount) -> (r: Option<Amount>)
        requires
            self.wf(),
            other.wf(),
        ensures
            r == decimal_difference(*self, *other),
            difference_fits(*self, *other) ==> r is Some && r.unwrap().units() == self.units()
                - other.units(),
            r matches Some(x) ==> x.wf(),
    {
        decimal_checked_sub(*self, *other)
    }

    /// `self < other` by value.
    pub fn lt(&self, other: &Amount) -> (r: bool)
        requires
            self.wf(),
            other.wf(),
        ensures
            r == (self.units() < other.units()),
    {
        decimal_less_than(*self, *other)
    }

    /// `self == other` by value.
    pub fn same_value(&self, other: &Amount) -> (r: bool)
        requires
            self.wf(),
            other.wf(),
        ensures
            r == (self.units() == other.units()),
    {
        decimal_same_value(*self, *other)
    }

    /// `self * other` as computed by `rust_decimal`; `None` on overflow.
    pub fn checked_mul(&self, other: &Amount) -> (r: Option<Amount>)
        requires
            self.wf(),
            other.wf(),
        ensures
            r == decimal_product(*self, *other),
            r matches Some(x) ==> x.wf(),
            self.scale + other.scale <= MAX_SCALE && abs_int(self.mantissa * other.mantissa) <= MAX_MANTISSA
                ==> r is Some && r.unwrap().mantissa == self.mantissa * other.mantissa && (self.mantissa
                * other.mantissa != 0 ==> r.unwrap().scale == self.scale + other.scale),
    {
        decimal_checked_mul(*self, *other)
    }

    /// `self / other` as computed by `rust_decimal`; `None` when `other` is zero or
    /// on overflow.
    pub fn checked_div(&self, other: &Amount) -> (r: Option<Amount>)
        requires
            self.wf(),
            other.wf(),
        ensures
            r == decimal_quotient(*self, *other),
            other.mantissa == 0 ==> r is None,
            r matches Some(x) ==> x.wf(),
    {
        decimal_checked_div(*self, *other)
    }

    /// The decimal text of the amount.
    pub fn to_text(&self) -> (r: String)
        requires
            self.wf(),
        ensures
            r@ == decimal_text(*self),
    {
        decimal_to_string(*self)
    }

    /// Parses decimal text; the text of an amount ([`Amount::to_text`]) gives
    /// the amount back.
    pub fn parse(text: &str) -> (r: Option<Amount>)
        ensures
            r == decimal_parsed(text@),
            r matches Some(x) ==> x.wf(),
            forall|a: Amount| a.wf() && #[trigger] decimal_text(a) == text@ ==> r == Some(a),
    {
        decimal_from_str(text)
    }
}

pub proof fn lemma_pow10_positive(k: nat)
    ensures
        pow10(k) >= 1,
    decreases k,
{
    if k > 0 {
        lemma_pow10_positive((k - 1) as nat);
    }
}

/// `10^(a + b) = 10^a * 10^b`.
pub proof fn lemma_pow10_add(a: nat, b: nat)
    ensures
        pow10(a + b) == pow10(a) * pow10(b),
    decreases b,
{
    if b > 0 {
        lemma_pow10_add(a, (b - 1) as nat);
        let x = pow10(a);
        let y = pow10((b - 1) as nat);
        assert(pow10(a + b) == 10 * pow10((a + b - 1) as nat));
        assert(10 * (x * y) == x * (10 * y)) by (nonlinear_arith);
    }
}

/// Rescaling a mantissa from scale `s` up to scale `t` multiplies it by `10^(t - s)`.
pub proof fn lemma_aligned_rescale(a: Amount, s: int, t: int)
    requires
        a.scale <= s <= t,
    ensures
        aligned(a, t) == aligned(a, s) * pow10((t - s) as nat),
{
    lemma_pow10_add((s - a.scale) as nat, (t - s) as nat);
    assert((s - a.scale) as nat + (t - s) as nat == (t - a.scale) as nat);
    vstd::arithmetic::mul::lemma_mul_is_associative(
        a.mantissa as int,
        pow10((s - a.scale) as nat),
        pow10((t - s) as nat),
    );
}

/// The value of an amount is its mantissa at any scale `s` at least its own,
/// times `10^(28 - s)`.
pub proof fn lemma_units_at_scale(a: Amount, s: int)
    requires
        a.scale <= s <= MAX_SCALE,
    ensures
        a.units() == aligned(a, s) * pow10((MAX_SCALE - s) as nat),
{
    lemma_aligned_rescale(a, s, MAX_SCALE as int);
}

/// A factor of at least one does not shrink a magnitude.
pub proof fn lemma_abs_scaled(x: int, q: int)
    requires
        q >= 1,
    ensures
        abs_int(x) <= abs_int(x * q),
{
    if x >= 0 {
        assert(x * q >= x) by (nonlinear_arith)
            requires
                x >= 0,
                q >= 1,
        ;
    } else {
        assert(x * q <= x) by (nonlinear_arith)
            requires
                x < 0,
                q >= 1,
        ;
    }
}

// ---------------------------------------------------------------------------
// Exact sums of sequences of amounts
// ---------------------------------------------------------------------------

/// The exact sum of the amounts' values, in units of `10^-28`.
pub open spec fn units_sum(s: Seq<Amount>) -> int
    decreases s.len(),
{
    if s.len() == 0 {
        0
    } else {
        units_sum(s.drop_last()) + s.last().units()
    }
}

/// The sum of the amounts' mantissas at scale `scale`.
pub open spec fn aligned_sum(s: Seq<Amount>, scale: int) -> int
    decreases s.len(),
{
    if s.len() == 0 {
        0
    } else {
        aligned_sum(s.drop_last(), scale) + aligned(s.last(), scale)
    }
}

/// The sum of the magnitudes of the amounts' mantissas at scale `scale`.
pub open spec fn magnitude_at(s: Seq<Amount>, scale: int) -> int
    decreases s.len(),
{
    if s.len() == 0 {
        0
    } else {
        magnitude_at(s.drop_last(), scale) + abs_int(aligned(s.last(), scale))
    }
}

/// Adding the amounts in order never needs rounding: each has a scale of at
/// most `scale`, and their mantissas at that scale add up, in magnitude, within
/// the 96-bit mantissa.
pub open spec fn sums_exactly_at(s: Seq<Amount>, scale: int) -> bool {
    &&& 0 <= scale <= MAX_SCALE
    &&& forall|i: int| 0 <= i < s.len() ==> (#[trigger] s[i]).scale <= scale
    &&& magnitude_at(s, scale) <= MAX_MANTISSA
}

pub proof fn lemma_magnitude_nonneg(s: Seq<Amount>, scale: int)
    ensures
        magnitude_at(s, scale) >= 0,
    decreases s.len(),
{
    if s.len() > 0 {
        lemma_magnitude_nonneg(s.drop_last(), scale);
    }
}

pub proof fn lemma_magnitude_prefix(s: Seq<Amount>, k: int, scale: int)
    requires
        0 <= k <= s.len(),
    ensures
        magnitude_at(s.take(k), scale) <= magnitude_at(s, scale),
    decreases s.len(),
{
    if k < s.len() {
        lemma_magnitude_prefix(s.drop_last(), k, scale);
        assert(s.drop_last().take(k) == s.take(k));
    } else {
        assert(s.take(k) == s);
    }
}

pub proof fn lemma_aligned_sum_bound(s: Seq<Amount>, scale: int)
    ensures
        abs_int(aligned_sum(s, scale)) <= magnitude_at(s, scale),
    decreases s.len(),
{
    if s.len() > 0 {
        lemma_aligned_sum_bound(s.drop_last(), scale);
    }
}

/// Where every scale is at most `scale`, the exact sum is the sum of the
/// mantissas at that scale, times `10^(28 - scale)`.
pub proof fn lemma_units_sum_aligned(s: Seq<Amount>, scale: int)
    requires
        0 <= scale <= MAX_SCALE,
        forall|i: int| 0 <= i < s.len() ==> (#[trigger] s[i]).scale <= scale,
    ensures
        units_sum(s) == aligned_sum(s, scale) * pow10((MAX_SCALE - scale) as nat),
    decreases s.len(),
{
    if s.len() > 0 {
        let init = s.drop_last();
        assert forall|i: int| 0 <= i < init.len() implies (#[trigger] init[i]).scale <= scale by {
            assert(init[i] == s[i]);
        }
        lemma_units_sum_aligned(init, scale);
        assert(s.last() == s[s.len() - 1]);
        lemma_units_at_scale(s.last(), scale);
        vstd::arithmetic::mul::lemma_mul_is_distributive_add_other_way(
            pow10((MAX_SCALE - scale) as nat),
            aligned_sum(init, scale),
            aligned(s.last(), scale),
        );
    }
}

/// A running sum that is still exact can take the next amount without
/// rounding.
pub proof fn lemma_exact_step(values: Seq<Amount>, i: int, sum: Amount, scale: int)
    requires
        0 <= i < values.len(),
        sums_exactly_at(values, scale),
        sum.wf(),
        sum.scale <= scale,
        sum.units() == units_sum(values.take(i)),
    ensures
        sum_fits(sum, values[i]),
{
    let prefix = values.take(i);
    let v = values[i];
    let p = pow10((MAX_SCALE - scale) as nat);
    lemma_pow10_positive((MAX_SCALE - scale) as nat);
    assert forall|q: int| 0 <= q < prefix.len() implies (#[trigger] prefix[q]).scale <= scale by {
        assert(prefix[q] == values[q]);
    }
    lemma_units_sum_aligned(prefix, scale);
    lemma_units_at_scale(sum, scale);
    let x = aligned(sum, scale);
    let y = aligned_sum(prefix, scale);
    assert(x == y) by (nonlinear_arith)
        requires
            x * p == y * p,
            p >= 1,
    ;
    lemma_aligned_sum_bound(prefix, scale);
    assert(values.take(i + 1) == prefix.push(v));
    assert(prefix.push(v).drop_last() == prefix);
    lemma_magnitude_prefix(values, i + 1, scale);
    lemma_magnitude_nonneg(prefix, scale);
    assert(v.scale <= scale);
    lemma_fits_within(sum, v, scale);
}

/// Two amounts whose mantissas at a common scale `scale` add up, in magnitude,
/// within the 96-bit mantissa can be added without rounding.
pub proof fn lemma_fits_within(a: Amount, b: Amount, scale: int)
    requires
        0 <= scale <= MAX_SCALE,
        a.scale <= scale,
        b.scale <= scale,
        abs_int(aligned(a, scale)) + abs_int(aligned(b, scale)) <= MAX_MANTISSA,
    ensures
        sum_fits(a, b),
{
    let s2 = max_scale(a, b);
    let q = pow10((scale - s2) as nat);
    lemma_pow10_positive((scale - s2) as nat);
    lemma_aligned_rescale(a, s2, scale);
    lemma_aligned_rescale(b, s2, scale);
    let x = aligned(a, s2);
    let y = aligned(b, s2);
    lemma_abs_scaled(x, q);
    lemma_abs_scaled(y, q);
    lemma_abs_scaled(x + y, q);
    vstd::arithmetic::mul::lemma_mul_is_distributive_add_other_way(q, x, y);
}

/// Two amounts whose mantissas at a common scale `scale` add up, in magnitude,
/// within the 96-bit mantissa can be subtracted without rounding.
pub proof fn lemma_difference_fits_within(a: Amount, b: Amount, scale: int)
    requires
        0 <= scale <= MAX_SCALE,
        a.scale <= scale,
        b.scale <= scale,
        abs_int(aligned(a, scale)) + abs_int(aligned(b, scale)) <= MAX_MANTISSA,
    ensures
        difference_fits(a, b),
{
    let s2 = max_scale(a, b);
    let q = pow10((scale - s2) as nat);
    lemma_pow10_positive((scale - s2) as nat);
    lemma_aligned_rescale(a, s2, scale);
    lemma_aligned_rescale(b, s2, scale);
    let x = aligned(a, s2);
    let y = aligned(b, s2);
    lemma_abs_scaled(x, q);
    lemma_abs_scaled(y, q);
    lemma_abs_scaled(x - y, q);
    vstd::arithmetic::mul::lemma_mul_is_distributive_sub_other_way(q, x, y);
}

/// An exact difference at a scale at most `scale` has, at `scale`, the
/// difference of the operands' mantissas.
pub proof fn lemma_difference_aligned(a: Amount, b: Amount, x: Amount, scale: int)
    requires
        0 <= scale <= MAX_SCALE,
        a.scale <= scale,
        b.scale <= scale,
        x.scale <= scale,
        x.units() == a.units() - b.units(),
    ensures
        aligned(x, scale) == aligned(a, scale) - aligned(b, scale),
{
    let p = pow10((MAX_SCALE - scale) as nat);
    lemma_pow10_positive((MAX_SCALE - scale) as nat);
    lemma_units_at_scale(a, scale);
    lemma_units_at_scale(b, scale);
    lemma_units_at_scale(x, scale);
    let u = aligned(x, scale);
    let v = aligned(a, scale) - aligned(b, scale);
    vstd::arithmetic::mul::lemma_mul_is_distributive_sub_other_way(p, aligned(a, scale), aligned(b, scale));
    assert(u == v) by (nonlinear_arith)
        requires
            u * p == v * p,
            p >= 1,
    ;
}

/// An exact sum at a scale at most `scale` has, at `scale`, the sum of the
/// operands' mantissas.
pub proof fn lemma_sum_aligned(a: Amount, b: Amount, x: Amount, scale: int)
    requires
        0 <= scale <= MAX_SCALE,
        a.scale <= scale,
        b.scale <= scale,
        x.scale <= scale,
        x.units() == a.units() + b.units(),
    ensures
        aligned(x, scale) == aligned(a, scale) + aligned(b, scale),
{
    let p = pow10((MAX_SCALE - scale) as nat);
    lemma_pow10_positive((MAX_SCALE - scale) as nat);
    lemma_units_at_scale(a, scale);
    lemma_units_at_scale(b, scale);
    lemma_units_at_scale(x, scale);
    let u = aligned(x, scale);
    let v = aligned(a, scale) + aligned(b, scale);
    vstd::arithmetic::mul::lemma_mul_is_distributive_add_other_way(p, aligned(a, scale), aligned(b, scale));
    assert(u == v) by (nonlinear_arith)
        requires
            u * p == v * p,
            p >= 1,
    ;
}

/// Replacing one amount changes the magnitude by the difference of the two
/// amounts' magnitudes.
pub proof fn lemma_magnitude_update(s: Seq<Amount>, i: int, x: Amount, scale: int)
    requires
        0 <= i < s.len(),
    ensures
        magnitude_at(s.update(i, x), scale) == magnitude_at(s, scale) - abs_int(aligned(s[i], scale)) + abs_int(
            aligned(x, scale),
        ),
    decreases s.len(),
{
    let u = s.update(i, x);
    if i == s.len() - 1 {
        assert(u.drop_last() == s.drop_last());
    } else {
        lemma_magnitude_update(s.drop_last(), i, x, scale);
        assert(u.drop_last() == s.drop_last().update(i, x));
    }
}

/// The largest magnitude, in units, of a value that has a mantissa of at most
/// 96 bits at scale `scale`.
pub open spec fn units_bound(scale: int) -> int {
    MAX_MANTISSA * pow10((MAX_SCALE - scale) as nat)
}

/// Two amounts whose scales are within `scale` add up without rounding when
/// they and their sum are within [`units_bound`] at that scale.
pub proof fn lemma_fits_by_units(a: Amount, b: Amount, scale: int)
    requires
        0 <= scale <= MAX_SCALE,
        a.scale <= scale,
        b.scale <= scale,
        abs_int(a.units()) <= units_bound(scale),
        abs_int(b.units()) <= units_bound(scale),
        abs_int(a.units() + b.units()) <= units_bound(scale),
    ensures
        sum_fits(a, b),
{
    let s2 = max_scale(a, b);
    let p = pow10((MAX_SCALE - scale) as nat);
    let r = pow10((scale - s2) as nat);
    let q = pow10((MAX_SCALE - s2) as nat);
    lemma_pow10_add((MAX_SCALE - scale) as nat, (scale - s2) as nat);
    assert((MAX_SCALE - scale) as nat + (scale - s2) as nat == (MAX_SCALE - s2) as nat);
    lemma_pow10_positive((MAX_SCALE - scale) as nat);
    lemma_pow10_positive((scale - s2) as nat);
    lemma_units_at_scale(a, s2);
    lemma_units_at_scale(b, s2);
    let x = aligned(a, s2);
    let y = aligned(b, s2);
    assert(q == p * r);
    assert(abs_int(x) <= MAX_MANTISSA) by (nonlinear_arith)
        requires
            abs_int(x * q) <= MAX_MANTISSA * p,
            q == p * r,
            p >= 1,
            r >= 1,
            abs_int(x) == (if x >= 0 { x } else { -x }),
            abs_int(x * q) == (if x * q >= 0 { x * q } else { -(x * q) }),
    ;
    assert(abs_int(y) <= MAX_MANTISSA) by (nonlinear_arith)
        requires
            abs_int(y * q) <= MAX_MANTISSA * p,
            q == p * r,
            p >= 1,
            r >= 1,
            abs_int(y) == (if y >= 0 { y } else { -y }),
            abs_int(y * q) == (if y * q >= 0 { y * q } else { -(y * q) }),
    ;
    assert((x + y) * q == x * q + y * q) by (nonlinear_arith);
    assert(abs_int(x + y) <= MAX_MANTISSA) by (nonlinear_arith)
        requires
            abs_int((x + y) * q) <= MAX_MANTISSA * p,
            q == p * r,
            p >= 1,
            r >= 1,
            abs_int(x + y) == (if x + y >= 0 { x + y } else { -(x + y) }),
            abs_int((x + y) * q) == (if (x + y) * q >= 0 { (x + y) * q } else { -((x + y) * q) }),
    ;
}

/// Inserting an amount adds its magnitude.
pub proof fn lemma_magnitude_insert(s: Seq<Amount>, i: int, x: Amount, scale: int)
    requires
        0 <= i <= s.len(),
    ensures
        magnitude_at(s.insert(i, x), scale) == magnitude_at(s, scale) + abs_int(aligned(x, scale)),
    decreases s.len(),
{
    let u = s.insert(i, x);
    if i == s.len() {
        assert(u.drop_last() == s);
        assert(u.last() == x);
    } else {
        lemma_magnitude_insert(s.drop_last(), i, x, scale);
        assert(u.drop_last() == s.drop_last().insert(i, x));
        assert(u.last() == s.last());
    }
}

/// The magnitude of a sequence bounds that of each of its amounts.
pub proof fn lemma_magnitude_member(s: Seq<Amount>, i: int, scale: int)
    requires
        0 <= i < s.len(),
    ensures
        abs_int(aligned(s[i], scale)) <= magnitude_at(s, scale),
    decreases s.len(),
{
    lemma_magnitude_nonneg(s.drop_last(), scale);
    if i < s.len() - 1 {
        lemma_magnitude_member(s.drop_last(), i, scale);
    }
}

/// Amounts with zero mantissas have no magnitude.
pub proof fn lemma_magnitude_zeros(s: Seq<Amount>, scale: int)
    requires
        forall|i: int| 0 <= i < s.len() ==> (#[trigger] s[i]).mantissa == 0,
    ensures
        magnitude_at(s, scale) == 0,
    decreases s.len(),
{
    if s.len() > 0 {
        let init = s.drop_last();
        assert forall|i: int| 0 <= i < init.len() implies (#[trigger] init[i]).mantissa == 0 by {
            assert(init[i] == s[i]);
        }
        lemma_magnitude_zeros(init, scale);
        assert(s.last().mantissa == s[s.len() - 1].mantissa);
        vstd::arithmetic::mul::lemma_mul_basics(pow10((scale - s.last().scale) as nat));
    }
}

/// Adding an amount to one entry of a sequence grows its magnitude by at most
/// that of the amount.
pub proof fn lemma_add_to_entry(s: Seq<Amount>, i: int, v: Amount, x: Amount, scale: int)
    requires
        0 <= i < s.len(),
        0 <= scale <= MAX_SCALE,
        s[i].scale <= scale,
        v.scale <= scale,
        x.scale <= scale,
        x.units() == s[i].units() + v.units(),
    ensures
        magnitude_at(s.update(i, x), scale) <= magnitude_at(s, scale) + abs_int(aligned(v, scale)),
{
    lemma_sum_aligned(s[i], v, x, scale);
    lemma_magnitude_update(s, i, x, scale);
}

/// `10^k` for `k <= 28`.
fn pow10_exec(k: u32) -> (r: i128)
    requires
        k <= 28,
    ensures
        r == pow10(k as nat),
{
    let mut r: i128 = 1;
    let mut i: u32 = 0;
    while i < k
        invariant
            i <= k <= 28,
            r == pow10(i as nat),
            1 <= r <= 10000000000000000000000000000,
        decreases k - i,
    {
        proof {
            assert(pow10((i + 1) as nat) == 10 * pow10(i as nat));
            if i < 28 {
                assert(r <= 1000000000000000000000000000) by {
                    lemma_pow10_le(i as nat, 27);
                    reveal_with_fuel(pow10, 28);
                }
            }
        }
        r = r * 10;
        i = i + 1;
    }
    r
}

proof fn lemma_pow10_le(i: nat, j: nat)
    requires
        i <= j,
    ensures
        pow10(i) <= pow10(j),
    decreases j - i,
{
    if i < j {
        lemma_pow10_le(i, (j - 1) as nat);
        lemma_pow10_positive((j - 1) as nat);
    }
}

/// The mantissa of `a` rescaled to scale `s`, if it fits in an `i128`.
fn aligned_mantissa(a: &Amount, s: u32) -> (r: Option<i128>)
    requires
        a.wf(),
        a.scale <= s <= MAX_SCALE,
    ensures
        r matches Some(x) ==> x == aligned(*a, s as int) && abs_int(x as int) <= MAX_MANTISSA,
        r is None ==> abs_int(aligned(*a, s as int)) > MAX_MANTISSA,
{
    let p = pow10_exec(s - a.scale);
    match a.mantissa.checked_mul(p) {
        Some(x) => {
            if -MAX_MANTISSA <= x && x <= MAX_MANTISSA {
                Some(x)
            } else {
                None
            }
        },
        None => None,
    }
}

// ---------------------------------------------------------------------------
// Trusted items: rust_decimal
// ---------------------------------------------------------------------------

/// What `Decimal::checked_add` returns for the two amounts.
pub uninterp spec fn decimal_sum(a: Amount, b: Amount) -> Option<Amount>;

/// What `Decimal::checked_sub` returns for the two amounts.
pub uninterp spec fn decimal_difference(a: Amount, b: Amount) -> Option<Amount>;

/// What `Decimal::checked_mul` returns for the two amounts.
pub uninterp spec fn decimal_product(a: Amount, b: Amount) -> Option<Amount>;

/// What `Decimal::checked_div` returns for the two amounts.
pub uninterp spec fn decimal_quotient(a: Amount, b: Amount) -> Option<Amount>;

/// The decimal digit `d` (below ten) as a character.
pub open spec fn digit_char(d: nat) -> char {
    (48 + d) as char
}

/// The decimal digits of `n`, most significant first; none for zero.
pub open spec fn digits_of(n: nat) -> Seq<char>
    decreases n,
{
    if n == 0 {
        seq![]
    } else {
        digits_of(n / 10) + seq![digit_char(n % 10)]
    }
}

/// The text that `Decimal`'s `Display` writes for the amount: a minus sign for
/// a negative amount, then the digits of the mantissa, padded with leading
/// zeros to at least `scale` digits, with a point before the last `scale` of
/// them and "0" before the point when no digit is left there; without a
/// scale, just the digits, and "0" for zero.
pub open spec fn decimal_text(a: Amount) -> Seq<char> {
    let digits = digits_of(abs_int(a.mantissa as int) as nat);
    let sign = if a.mantissa < 0 {
        seq!['-']
    } else {
        seq![]
    };
    let body = if a.scale == 0 {
        if digits.len() == 0 {
            seq!['0']
        } else {
            digits
        }
    } else {
        let padded = if digits.len() < a.scale {
            Seq::new((a.scale - digits.len()) as nat, |i: int| '0') + digits
        } else {
            digits
        };
        let whole = padded.take(padded.len() - a.scale);
        let frac = padded.skip(padded.len() - a.scale);
        (if whole.len() == 0 {
            seq!['0']
        } else {
            whole
        }) + seq!['.'] + frac
    };
    sign + body
}

/// What `Decimal::from_str` parses from the text (`None` on a parse error).
pub uninterp spec fn decimal_parsed(text: Seq<char>) -> Option<Amount>;

/// Calls `Decimal::checked_add`, whose result is named [`decimal_sum`].  When
/// both operands and their exact sum fit the 96-bit mantissa at the larger of
/// the two scales, the source computes the sum exactly (rounding only happens
/// when the mantissa would overflow); the result's scale is never above the
/// larger operand scale.  Which rounded sum, or `None`, comes back otherwise is
/// left unsaid.
#[verifier::external_body]
fn decimal_checked_add(a: Amount, b: Amount) -> (r: Option<Amount>)
    requires
        a.wf(),
        b.wf(),
    ensures
        r == decimal_sum(a, b),
        sum_fits(a, b) ==> r is Some && r.unwrap().units() == a.units() + b.units(),
        r matches Some(x) ==> x.wf() && x.scale <= max_scale(a, b),
{
    Decimal::from_i128_with_scale(a.mantissa, a.scale).checked_add(
        Decimal::from_i128_with_scale(b.mantissa, b.scale),
    ).map(|d| Amount { mantissa: d.mantissa(), scale: d.scale() })
}

/// Calls `Decimal::checked_sub`; exact under the same condition as the sum.
#[verifier::external_body]
fn decimal_checked_sub(a: Amount, b: Amount) -> (r: Option<Amount>)
    requires
        a.wf(),
        b.wf(),
    ensures
        r == decimal_difference(a, b),
        difference_fits(a, b) ==> r is Some && r.unwrap().units() == a.units() - b.units(),
        r matches Some(x) ==> x.wf() && x.scale <= max_scale(a, b),
{
    Decimal::from_i128_with_scale(a.mantissa, a.scale).checked_sub(
        Decimal::from_i128_with_scale(b.mantissa, b.scale),
    ).map(|d| Amount { mantissa: d.mantissa(), scale: d.scale() })
}

/// Calls `<` on two decimals, which compares their numeric values.
#[verifier::external_body]
fn decimal_less_than(a: Amount, b: Amount) -> (r: bool)
    requires
        a.wf(),
        b.wf(),
    ensures
        r == (a.units() < b.units()),
{
    Decimal::from_i128_with_scale(a.mantissa, a.scale) < Decimal::from_i128_with_scale(
        b.mantissa,
        b.scale,
    )
}

/// Calls `==` on two decimals, which compares their numeric values.
#[verifier::external_body]
fn decimal_same_value(a: Amount, b: Amount) -> (r: bool)
    requires
        a.wf(),
        b.wf(),
    ensures
        r == (a.units() == b.units()),
{
    Decimal::from_i128_with_scale(a.mantissa, a.scale) == Decimal::from_i128_with_scale(
        b.mantissa,
        b.scale,
    )
}

/// Calls `Decimal::checked_mul`, which returns `None` on overflow.  When the
/// product of the mantissas fits the 96-bit mantissa and the scales add up to
/// at most 28, the source computes the product exactly: its mantissa is the
/// product of the mantissas and, unless it is zero, its scale the sum of the
/// scales.
#[verifier::external_body]
fn decimal_checked_mul(a: Amount, b: Amount) -> (r: Option<Amount>)
    requires
        a.wf(),
        b.wf(),
    ensures
        r == decimal_product(a, b),
        r matches Some(x) ==> x.wf(),
        a.scale + b.scale <= MAX_SCALE && abs_int(a.mantissa * b.mantissa) <= MAX_MANTISSA ==> r is Some
            && r.unwrap().mantissa == a.mantissa * b.mantissa,
        a.scale + b.scale <= MAX_SCALE && abs_int(a.mantissa * b.mantissa) <= MAX_MANTISSA && a.mantissa
            * b.mantissa != 0 ==> r is Some && r.unwrap().scale == a.scale + b.scale,
{
    Decimal::from_i128_with_scale(a.mantissa, a.scale).checked_mul(
        Decimal::from_i128_with_scale(b.mantissa, b.scale),
    ).map(|d| Amount { mantissa: d.mantissa(), scale: d.scale() })
}

/// Calls `Decimal::checked_div`, which returns `None` when the divisor is zero or
/// on overflow.
#[verifier::external_body]
fn decimal_checked_div(a: Amount, b: Amount) -> (r: Option<Amount>)
    requires
        a.wf(),
        b.wf(),
    ensures
        r == decimal_quotient(a, b),
        b.mantissa == 0 ==> r is None,
        r matches Some(x) ==> x.wf(),
{
    Decimal::from_i128_with_scale(a.mantissa, a.scale).checked_div(
        Decimal::from_i128_with_scale(b.mantissa, b.scale),
    ).map(|d| Amount { mantissa: d.mantissa(), scale: d.scale() })
}

/// Calls `Decimal::to_string`: its `Display` writes the digits of the
/// mantissa with the point placed by the scale, as [`decimal_text`] states.
#[verifier::external_body]
fn decimal_to_string(a: Amount) -> (r: String)
    requires
        a.wf(),
    ensures
        r@ == decimal_text(a),
{
    Decimal::from_i128_with_scale(a.mantissa, a.scale).to_string()
}

/// Calls `Decimal::from_str`; a parse error becomes `None`.  The text that
/// `Display` writes for a representable decimal ([`decimal_text`]) parses back
/// to that decimal: the parser reads the digits into the 96-bit mantissa and
/// counts those after the point as the scale, and rounds only past 96 bits or
/// past 28 digits after the point, which such a text never reaches.  What
/// other texts parse to is left unsaid.
#[verifier::external_body]
fn decimal_from_str(text: &str) -> (r: Option<Amount>)
    ensures
        r == decimal_parsed(text@),
        r matches Some(x) ==> x.wf(),
        forall|a: Amount| a.wf() && #[trigger] decimal_text(a) == text@ ==> r == Some(a),
{
    Decimal::from_str(text).ok().map(|d| Amount { mantissa: d.mantissa(), scale: d.scale() })
}

} // verus!
