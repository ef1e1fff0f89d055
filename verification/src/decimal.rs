//! Fixed-point decimals with 18 fractional digits, as used by the staking
//! contracts, and the integer helpers built on them.
use vstd::prelude::*;

verus! {

/// Number of atomic units in `1.0`.
pub const DECIMAL_FRACTIONAL: u128 = 1_000_000_000_000_000_000u128;

/// The value `floor(x * d / 10^18)` for an amount `x` and a decimal with atomics `d`.
pub open spec fn spec_mul_floor(x: int, d: int) -> int {
    (x * d) / (DECIMAL_FRACTIONAL as int)
}

/// The atomics of `numerator / denominator` rounded down.
pub open spec fn spec_ratio(numerator: int, denominator: int) -> int {
    (numerator * (DECIMAL_FRACTIONAL as int)) / denominator
}

/// A non-negative fixed-point number: `atomics / 10^18`.
#[derive(Clone, Copy, Debug, PartialEq, Eq, Structural)]
pub struct Decimal {
    pub atomics: u128,
}

impl Decimal {
    /// The decimal with the given number of atomic units.
    pub fn new(atomics: u128) -> (r: Decimal)
        ensures
            r.atomics == atomics,
    {
        Decimal { atomics }
    }

    pub fn zero() -> (r: Decimal)
        ensures
            r.atomics == 0,
    {
        Decimal { atomics: 0 }
    }

    pub fn one() -> (r: Decimal)
        ensures
            r.atomics == DECIMAL_FRACTIONAL,
    {
        Decimal { atomics: DECIMAL_FRACTIONAL }
    }

    /// The atomics of `x` percent.
    pub open spec fn spec_percent(x: int) -> int {
        x * 10_000_000_000_000_000
    }

    /// `x` percent.
    pub fn percent(x: u64) -> (r: Decimal)
        ensures
            r.atomics == Decimal::spec_percent(x as int),
    {
        assert(x * 10_000_000_000_000_000 <= u128::MAX) by (nonlinear_arith)
            requires
                x <= u64::MAX,
        ;
        Decimal { atomics: (x as u128) * 10_000_000_000_000_000u128 }
    }

    /// `x` per mille.
    pub fn permille(x: u64) -> (r: Decimal)
        ensures
            r.atomics == x * 1_000_000_000_000_000,
    {
        assert(x * 1_000_000_000_000_000 <= u128::MAX) by (nonlinear_arith)
            requires
                x <= u64::MAX,
        ;
        Decimal { atomics: (x as u128) * 1_000_000_000_000_000u128 }
    }

    pub fn atomics(&self) -> (r: u128)
        ensures
            r == self.atomics,
    {
        self.atomics
    }

    pub fn is_zero(&self) -> (r: bool)
        ensures
            r == (self.atomics == 0),
    {
        self.atomics == 0
    }

    /// `numerator / denominator` rounded down to 18 digits.
    pub fn from_ratio(numerator: u128, denominator: u128) -> (r: Decimal)
        requires
            denominator != 0,
            spec_ratio(numerator as int, denominator as int) <= u128::MAX,
        ensures
            r.atomics == spec_ratio(numerator as int, denominator as int),
    {
        cw_decimal_from_ratio(numerator, denominator)
    }

    /// The product of two decimals, rounded down to 18 digits.
    pub fn mul_decimal(self, other: Decimal) -> (r: Decimal)
        requires
            spec_mul_floor(self.atomics as int, other.atomics as int) <= u128::MAX,
        ensures
            r.atomics == spec_mul_floor(self.atomics as int, other.atomics as int),
    {
        cw_decimal_mul(self, other)
    }

    /// The difference of two decimals.
    pub fn minus(self, other: Decimal) -> (r: Decimal)
        requires
            other.atomics <= self.atomics,
        ensures
            r.atomics == self.atomics - other.atomics,
    {
        Decimal { atomics: self.atomics - other.atomics }
    }
}

/// Calls `cosmwasm_std::Decimal::from_ratio`. Claimed: for a nonzero denominator
/// whose rounded-down ratio `numerator * 10^18 / denominator` fits in 128 bits, the
/// result has exactly those atomics (the source computes it with
/// `Uint128::checked_multiply_ratio` and panics only on a zero denominator or overflow).
#[verifier::external_body]
fn cw_decimal_from_ratio(numerator: u128, denominator: u128) -> (r: Decimal)
    requires
        denominator != 0,
        spec_ratio(numerator as int, denominator as int) <= u128::MAX,
    ensures
        r.atomics == spec_ratio(numerator as int, denominator as int),
{
    let d = cosmwasm_std::Decimal::from_ratio(numerator, denominator);
    Decimal { atomics: d.atomics().u128() }
}

/// Calls `<cosmwasm_std::Decimal as Mul>::mul`. Claimed: the result has atomics
/// `a * b / 10^18` rounded down, whenever that fits in 128 bits (the source computes
/// the full 256-bit product and panics only when the quotient does not fit).
#[verifier::external_body]
fn cw_decimal_mul(a: Decimal, b: Decimal) -> (r: Decimal)
    requires
        spec_mul_floor(a.atomics as int, b.atomics as int) <= u128::MAX,
    ensures
        r.atomics == spec_mul_floor(a.atomics as int, b.atomics as int),
{
    let x = cosmwasm_std::Decimal::new(cosmwasm_std::Uint128::new(a.atomics));
    let y = cosmwasm_std::Decimal::new(cosmwasm_std::Uint128::new(b.atomics));
    Decimal { atomics: (x * y).atomics().u128() }
}

/// Calls `cosmwasm_std::Uint128::mul_floor` with a decimal. Claimed: the result is
/// `x * d / 10^18` rounded down, whenever that fits in 128 bits (the source computes
/// the full 256-bit product, divides by the denominator `10^18` and panics only when
/// the quotient does not fit).
#[verifier::external_body]
fn cw_mul_floor(x: u128, d: Decimal) -> (r: u128)
    requires
        spec_mul_floor(x as int, d.atomics as int) <= u128::MAX,
    ensures
        r == spec_mul_floor(x as int, d.atomics as int),
{
    let dec = cosmwasm_std::Decimal::new(cosmwasm_std::Uint128::new(d.atomics));
    cosmwasm_std::Uint128::new(x).mul_floor(dec).u128()
}

/// `x * d` rounded down, for an amount `x` and a decimal `d`.
pub fn mul_floor(x: u128, d: Decimal) -> (r: u128)
    requires
        spec_mul_floor(x as int, d.atomics as int) <= u128::MAX,
    ensures
        r == spec_mul_floor(x as int, d.atomics as int),
{
    cw_mul_floor(x, d)
}

/// Multiplying by a decimal no larger than one never increases an amount.
pub proof fn lemma_mul_floor_le(x: int, d: int)
    requires
        0 <= x,
        0 <= d <= DECIMAL_FRACTIONAL,
    ensures
        0 <= spec_mul_floor(x, d) <= x,
{
    assert(0 <= x * d <= x * (DECIMAL_FRACTIONAL as int)) by (nonlinear_arith)
        requires
            0 <= x,
            0 <= d <= DECIMAL_FRACTIONAL,
    ;
    assert((x * d) / (DECIMAL_FRACTIONAL as int) <= x) by (nonlinear_arith)
        requires
            0 <= x * d <= x * (DECIMAL_FRACTIONAL as int),
            DECIMAL_FRACTIONAL > 0,
    ;
    assert(0 <= (x * d) / (DECIMAL_FRACTIONAL as int)) by (nonlinear_arith)
        requires
            0 <= x * d,
            DECIMAL_FRACTIONAL > 0,
    ;
}

} // verus!
