//! Decimal amounts of money.
//!
//! An [`Amount`] holds the two integers of a 96-bit decimal number: a signed
//! mantissa and the number of fraction digits. The arithmetic on amounts is the
//! one of `rust_decimal`.

use vstd::prelude::*;

verus! {

/// The largest number of fraction digits of an amount.
pub const MAX_SCALE: u32 = 28;

/// The largest mantissa of an amount: 96 bits, all set.
pub const MAX_MANTISSA: i128 = 79_228_162_514_264_337_593_543_950_335;

/// The mantissa and the scale that `Decimal::checked_add` gives for two
/// decimals of the given mantissas and scales, `None` where it gives none.
pub uninterp spec fn decimal_sum(m1: int, s1: int, m2: int, s2: int) -> Option<(int, int)>;

/// The mantissa and the scale that `Decimal::checked_sub` gives for two
/// decimals of the given mantissas and scales, `None` where it gives none.
pub uninterp spec fn decimal_difference(m1: int, s1: int, m2: int, s2: int) -> Option<(int, int)>;

/// Ten to the power `n`.
pub open spec fn pow10(n: nat) -> int
    decreases n,
{
    if n == 0 {
        1
    } else {
        10 * pow10((n - 1) as nat)
    }
}

/// Whether `v` is a mantissa that an amount can hold.
pub open spec fn fits(v: int) -> bool {
    -(MAX_MANTISSA as int) <= v <= MAX_MANTISSA as int
}

/// A decimal number: `mantissa / 10^scale`.
#[derive(Clone, Copy, Debug)]
pub struct Amount {
    mantissa: i128,
    scale: u32,
}

impl Amount {
    #[verifier::type_invariant]
    spec fn in_range(self) -> bool {
        fits(self.mantissa as int) && self.scale <= MAX_SCALE
    }

    /// The mantissa, as a mathematical integer.
    pub closed spec fn spec_mantissa(self) -> int {
        self.mantissa as int
    }

    /// The number of fraction digits.
    pub closed spec fn spec_scale(self) -> nat {
        self.scale as nat
    }

    /// The amount in units of `10^-28`, the finest that any amount resolves.
    pub open spec fn value(self) -> int {
        self.spec_mantissa() * pow10((MAX_SCALE - self.spec_scale()) as nat)
    }

    /// The mantissa that the amount has when written with `scale` fraction
    /// digits, for a `scale` that is not below its own.
    pub open spec fn aligned(self, scale: nat) -> int {
        self.spec_mantissa() * pow10((scale - self.spec_scale()) as nat)
    }

    /// Zero, with no fraction digits.
    pub closed spec fn spec_zero() -> Amount {
        Amount { mantissa: 0, scale: 0 }
    }

    /// The amount of the given mantissa and scale.
    pub closed spec fn of_parts(mantissa: int, scale: int) -> Amount {
        Amount { mantissa: mantissa as i128, scale: scale as u32 }
    }

    /// The amount that is named by an optional pair of mantissa and scale.
    pub open spec fn of_named(parts: Option<(int, int)>) -> Option<Amount> {
        match parts {
            Some((m, s)) => Some(Amount::of_parts(m, s)),
            None => None,
        }
    }

    /// The sum as the decimal arithmetic gives it; `None` where the sum is too
    /// large to hold.
    pub open spec fn plus(self, other: Amount) -> Option<Amount> {
        Amount::of_named(
            decimal_sum(
                self.spec_mantissa(),
                self.spec_scale() as int,
                other.spec_mantissa(),
                other.spec_scale() as int,
            ),
        )
    }

    /// The difference as the decimal arithmetic gives it; `None` where it is
    /// too large to hold.
    pub open spec fn minus(self, other: Amount) -> Option<Amount> {
        Amount::of_named(
            decimal_difference(
                self.spec_mantissa(),
                self.spec_scale() as int,
                other.spec_mantissa(),
                other.spec_scale() as int,
            ),
        )
    }

    /// The larger of the two scales.
    pub open spec fn common_scale(self, other: Amount) -> nat {
        if self.spec_scale() >= other.spec_scale() {
            self.spec_scale()
        } else {
            other.spec_scale()
        }
    }

    /// Whether both amounts and their sum can be written with the larger of
    /// the two scales.
    pub open spec fn sum_fits(self, other: Amount) -> bool {
        let s = self.common_scale(other);
        fits(self.aligned(s)) && fits(other.aligned(s)) && fits(self.aligned(s) + other.aligned(s))
    }

    /// Whether both amounts and their difference can be written with the
    /// larger of the two scales.
    pub open spec fn difference_fits(self, other: Amount) -> bool {
        let s = self.common_scale(other);
        fits(self.aligned(s)) && fits(other.aligned(s)) && fits(self.aligned(s) - other.aligned(s))
    }

    /// Whether the decimal arithmetic gives the sum of the two amounts and
    /// gives it without rounding.
    pub open spec fn exact_sum(self, other: Amount) -> bool {
        self.plus(other) matches Some(r) && r.value() == self.value() + other.value()
    }

    /// Whether the decimal arithmetic gives the difference of the two amounts
    /// and gives it without rounding.
    pub open spec fn exact_difference(self, other: Amount) -> bool {
        self.minus(other) matches Some(r) && r.value() == self.value() - other.value()
    }

    /// Zero stands for the number zero.
    pub proof fn lemma_zero_is_nothing()
        ensures
            Amount::spec_zero().value() == 0,
            Amount::spec_zero().spec_mantissa() == 0,
            Amount::spec_zero().spec_scale() == 0,
    {
    }

    /// The amount `mantissa / 10^scale`, where a decimal can hold it.
    pub fn new(mantissa: i128, scale: u32) -> (r: Option<Amount>)
        ensures
            r is Some <==> fits(mantissa as int) && scale <= MAX_SCALE,
            r matches Some(a) ==> a.spec_mantissa() == mantissa && a.spec_scale() == scale,
    {
        if scale <= MAX_SCALE && -MAX_MANTISSA <= mantissa && mantissa <= MAX_MANTISSA {
            Some(Amount { mantissa, scale })
        } else {
            None
        }
    }

    /// Zero, with no fraction digits.
    pub fn zero() -> (r: Amount)
        ensures
            r == Amount::spec_zero(),
            r.spec_mantissa() == 0,
            r.spec_scale() == 0,
            r.value() == 0,
    {
        Amount { mantissa: 0, scale: 0 }
    }

    /// The mantissa.
    pub fn mantissa(&self) -> (r: i128)
        ensures
            r == self.spec_mantissa(),
            fits(r as int),
    {
        proof {
            use_type_invariant(self);
        }
        self.mantissa
    }

    /// The number of fraction digits.
    pub fn scale(&self) -> (r: u32)
        ensures
            r == self.spec_scale(),
            r <= MAX_SCALE,
    {
        proof {
            use_type_invariant(self);
        }
        self.scale
    }
}

/// Calls `Decimal::checked_add` of `rust_decimal` on the two amounts. The
/// result is the named sum. The contract claims further that the sum is exact
/// wherever both amounts and their sum can be written with the larger of the
/// two scales in 96 bits; elsewhere the decimal arithmetic rounds or gives
/// nothing, and nothing is claimed. What comes back holds the mantissa and the
/// scale of a `Decimal`, which are in the range of an amount.
#[verifier::external_body]
pub(crate) fn checked_sum(a: Amount, b: Amount) -> (r: Option<Amount>)
    ensures
        r == Amount::of_named(
            decimal_sum(a.spec_mantissa(), a.spec_scale() as int, b.spec_mantissa(), b.spec_scale() as int),
        ),
        a.sum_fits(b) ==> r is Some && r.unwrap().value() == a.value() + b.value(),
{
    let x = rust_decimal::Decimal::from_i128_with_scale(a.mantissa, a.scale);
    let y = rust_decimal::Decimal::from_i128_with_scale(b.mantissa, b.scale);
    match x.checked_add(y) {
        Some(z) => Some(Amount { mantissa: z.mantissa(), scale: z.scale() }),
        None => None,
    }
}

/// Calls `Decimal::checked_sub` of `rust_decimal` on the two amounts. The
/// result is the named difference. The contract claims further that the
/// difference is exact wherever both amounts and their difference can be
/// written with the larger of the two scales in 96 bits; elsewhere the decimal
/// arithmetic rounds or gives nothing, and nothing is claimed. What comes back
/// holds the mantissa and the scale of a `Decimal`, which are in the range of
/// an amount.
#[verifier::external_body]
pub(crate) fn checked_difference(a: Amount, b: Amount) -> (r: Option<Amount>)
    ensures
        r == Amount::of_named(
            decimal_difference(
                a.spec_mantissa(),
                a.spec_scale() as int,
                b.spec_mantissa(),
                b.spec_scale() as int,
            ),
        ),
        a.difference_fits(b) ==> r is Some && r.unwrap().value() == a.value() - b.value(),
{
    let x = rust_decimal::Decimal::from_i128_with_scale(a.mantissa, a.scale);
    let y = rust_decimal::Decimal::from_i128_with_scale(b.mantissa, b.scale);
    match x.checked_sub(y) {
        Some(z) => Some(Amount { mantissa: z.mantissa(), scale: z.scale() }),
        None => None,
    }
}

/// Compares two amounts with the `<` of `rust_decimal`, which orders decimals
/// by the numbers they stand for, whatever their scales.
#[verifier::external_body]
pub(crate) fn less_than(a: Amount, b: Amount) -> (r: bool)
    ensures
        r == (a.value() < b.value()),
{
    let x = rust_decimal::Decimal::from_i128_with_scale(a.mantissa, a.scale);
    let y = rust_decimal::Decimal::from_i128_with_scale(b.mantissa, b.scale);
    x < y
}

} // verus!
