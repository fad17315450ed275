//! Exact decimal amounts with two decimal places.
//!
//! Amounts and rates are held as a signed count of hundredths ("cents"), so
//! banking arithmetic is exact integer arithmetic.  The two rounding modes
//! the accrual engine needs — round half away from zero, and truncation
//! toward zero — are defined here as exact integer divisions.

use vstd::prelude::*;

use vstd::arithmetic::div_mod::{
    lemma_div_is_ordered, lemma_div_pos_is_pos, lemma_fundamental_div_mod_converse,
    lemma_hoist_over_denominator,
};

verus! {

/// Largest magnitude, in hundredths, that the representation admits
/// (amounts up to one hundred trillion).
pub const MAX_ABS_CENTS: i64 = 10_000_000_000_000_000;

/// An exact decimal amount with two decimal places, held as a signed count
/// of hundredths.
#[derive(Clone, Copy, PartialEq, Eq, Structural, Debug, Hash)]
pub struct Dec2 {
    pub cents: i64,
}

impl Dec2 {
    /// The amount fits the representation.
    pub open spec fn is_representable(self) -> bool {
        -MAX_ABS_CENTS <= self.cents <= MAX_ABS_CENTS
    }

    /// The zero amount.
    pub open spec fn zero_spec() -> Dec2 {
        Dec2 { cents: 0 }
    }

    /// The zero amount, as executable code.
    pub fn zero() -> (r: Dec2)
        ensures
            r == Dec2::zero_spec(),
    {
        Dec2 { cents: 0 }
    }

    /// An amount given as whole hundredths.
    pub fn from_cents(cents: i64) -> (r: Dec2)
        ensures
            r.cents == cents,
    {
        Dec2 { cents }
    }
}

/// `num / den` rounded to the nearest integer, ties away from zero.
pub open spec fn div_round_half_away(num: int, den: int) -> int
    recommends
        den > 0,
{
    if num >= 0 {
        (2 * num + den) / (2 * den)
    } else {
        -((2 * -num + den) / (2 * den))
    }
}

/// `num / den` truncated toward zero.
pub open spec fn div_trunc(num: int, den: int) -> int
    recommends
        den > 0,
{
    if num >= 0 {
        num / den
    } else {
        -(-num / den)
    }
}

/// Rounding half away from zero never decreases when the numerator grows.
pub proof fn lemma_round_monotone(n1: int, n2: int, den: int)
    requires
        n1 <= n2,
        0 < den,
    ensures
        div_round_half_away(n1, den) <= div_round_half_away(n2, den),
{
    if n1 >= 0 {
        lemma_div_is_ordered(2 * n1 + den, 2 * n2 + den, 2 * den);
    } else if n2 < 0 {
        lemma_div_is_ordered(2 * -n2 + den, 2 * -n1 + den, 2 * den);
    } else {
        lemma_div_pos_is_pos(2 * -n1 + den, 2 * den);
        lemma_div_pos_is_pos(2 * n2 + den, 2 * den);
    }
}

/// Adding whole units to a nonnegative numerator shifts the rounded
/// quotient by exactly those units.
pub proof fn lemma_round_shift_whole(num: int, k: int, den: int)
    requires
        0 <= num,
        0 <= k,
        0 < den,
    ensures
        div_round_half_away(num + k * den, den) == div_round_half_away(num, den) + k,
{
    lemma_hoist_over_denominator(2 * num + den, k, (2 * den) as nat);
    assert(2 * (num + k * den) + den == 2 * num + den + k * (2 * den)) by (nonlinear_arith);
    assert(num + k * den >= 0) by (nonlinear_arith)
        requires num >= 0 && k >= 0 && den > 0;
}

/// An amount that lands exactly on a half after the second decimal: the
/// interest rounding moves it away from zero, the bonus truncation drops
/// it.  `q * den + den / 2` is the numerator of `q` units and one exact
/// half.
pub proof fn lemma_half_rounds_away_trunc_drops(q: int, den: int)
    requires
        0 <= q,
        0 < den,
        den % 2 == 0,
    ensures
        div_round_half_away(q * den + den / 2, den) == q + 1,
        div_trunc(q * den + den / 2, den) == q,
{
    let h = den / 2;
    assert(den == 2 * h);
    let num = q * den + h;
    assert(num >= 0) by (nonlinear_arith)
        requires q >= 0 && den > 0 && h >= 0 && num == q * den + h;
    assert(2 * num + den == (q + 1) * (2 * den)) by (nonlinear_arith)
        requires num == q * den + h && den == 2 * h;
    lemma_fundamental_div_mod_converse(2 * num + den, 2 * den, q + 1, 0);
    lemma_fundamental_div_mod_converse(num, den, q, h);
}

/// `num / den` rounded half away from zero, as executable code.
pub fn div_round_half_away_exec(num: i128, den: i128) -> (r: i128)
    requires
        0 < den <= 100_000_000,
        -50_000_000_000_000_000_000_000_000_000_000_000_000 <= num
            <= 50_000_000_000_000_000_000_000_000_000_000_000_000,
    ensures
        r == div_round_half_away(num as int, den as int),
{
    if num >= 0 {
        (2 * num + den) / (2 * den)
    } else {
        -((2 * -num + den) / (2 * den))
    }
}

/// `num / den` truncated toward zero, as executable code.
pub fn div_trunc_exec(num: i128, den: i128) -> (r: i128)
    requires
        0 < den,
        -50_000_000_000_000_000_000_000_000_000_000_000_000 <= num
            <= 50_000_000_000_000_000_000_000_000_000_000_000_000,
    ensures
        r == div_trunc(num as int, den as int),
{
    if num >= 0 {
        num / den
    } else {
        -(-num / den)
    }
}

} // verus!
