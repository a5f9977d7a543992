//! Currency and exact minor-unit money arithmetic.
//!
//! Money is never represented as a float. All amounts are signed 64-bit
//! integers in the currency's minor unit (cents for `USD`, yen for `JPY`,
//! fils for `KWD`). Every operation that can lose precision requires an
//! explicit [`Rounding`] mode, and every operation that distributes an amount
//! across several recipients uses [`allocate`] so that the parts always sum
//! back to the whole.

pub mod allocation;
pub mod currency;
pub mod decimal;

pub use allocation::{allocate, allocate_by_weights, allocate_evenly, allocate_widely};
pub use currency::{Currency, OtherCurrency};

use std::cmp::Ordering;
use vstd::arithmetic::div_mod::{lemma_fundamental_div_mod, lemma_fundamental_div_mod_converse};
use vstd::prelude::*;

use crate::error::{outcome, Error, ErrorView};
use crate::folds::lemma_prefix_error_stays;
use crate::sums::{lemma_sum_non_negative, sum};
use crate::wide::Integer;

verus! {

/// Rounding strategy used whenever an exact minor-unit result is impossible.
#[derive(Debug, Clone, Copy, PartialEq, Eq, Hash, Structural)]
pub enum Rounding {
    /// Round half away from zero (`0.5 -> 1`, `-0.5 -> -1`). Common for tax.
    HalfUp,
    /// Round half to the nearest even value ("banker's rounding").
    HalfEven,
    /// Round toward zero.
    Down,
    /// Round away from zero.
    Up,
    /// Round toward negative infinity.
    Floor,
    /// Round toward positive infinity.
    Ceil,
}

impl Default for Rounding {
    fn default() -> (rounding: Self)
        ensures
            rounding == Rounding::HalfUp,
    {
        Rounding::HalfUp
    }
}

/// A divisor and dividend small enough that doubling a remainder stays in range.
pub open spec fn divisible(numerator: int, denominator: int) -> bool {
    &&& -i128::MAX <= numerator <= i128::MAX
    &&& -(i128::MAX / 2) <= denominator <= i128::MAX / 2
}

impl Rounding {
    /// Whether the floor of a fraction that is not whole is stepped up by one. The
    /// fraction has the given sign and floor, and `remainder / denominator` is left.
    pub open spec fn steps_up(
        self,
        positive: bool,
        floor: int,
        remainder: int,
        denominator: int,
    ) -> bool {
        match self {
            Rounding::Floor => false,
            Rounding::Ceil => true,
            Rounding::Down => !positive,
            Rounding::Up => positive,
            Rounding::HalfUp => remainder * 2 > denominator || (remainder * 2 == denominator
                && positive),
            Rounding::HalfEven => remainder * 2 > denominator || (remainder * 2 == denominator
                && floor % 2 != 0),
        }
    }

    /// `numerator / denominator`, rounded to an integer, for a positive denominator.
    pub open spec fn nearest(self, numerator: int, denominator: int) -> int {
        let floor = numerator / denominator;
        let remainder = numerator % denominator;
        if remainder != 0 && self.steps_up(numerator > 0, floor, remainder, denominator) {
            floor + 1
        } else {
            floor
        }
    }

    /// `numerator / denominator`, rounded to an integer.
    pub open spec fn rounded(self, numerator: int, denominator: int) -> int {
        if denominator < 0 {
            self.nearest(-numerator, -denominator)
        } else {
            self.nearest(numerator, denominator)
        }
    }

    /// Divide `numerator` by `denominator` applying this rounding mode.
    pub fn divide(self, numerator: i128, denominator: i128) -> (quotient: Result<i128, Error>)
        requires
            divisible(numerator as int, denominator as int),
        ensures
            outcome(quotient) == if denominator == 0 {
                Err::<i128, ErrorView>(ErrorView::Money("division by zero"@))
            } else {
                Ok(self.rounded(numerator as int, denominator as int) as i128)
            },
            denominator != 0 ==> quotient is Ok && quotient->Ok_0 == self.rounded(
                numerator as int,
                denominator as int,
            ),
    {
        if denominator == 0 {
            return Err(Error::money("division by zero"));
        }
        // Normalise so the denominator is positive; keeps sign logic in one place.
        let top: i128 = if denominator < 0 {
            -numerator
        } else {
            numerator
        };
        let bottom: i128 = if denominator < 0 {
            -denominator
        } else {
            denominator
        };
        proof {
            lemma_quotient_bounds(top as int, bottom as int);
        }
        let quotient: i128 = top.checked_div_euclid(bottom).unwrap();
        let remainder: i128 = top.checked_rem_euclid(bottom).unwrap();
        if remainder == 0 {
            return Ok(quotient);
        }
        let twice: i128 = remainder * 2;
        let step_up = match self {
            Rounding::Floor => false,
            Rounding::Ceil => true,
            Rounding::Down => top < 0,
            Rounding::Up => top > 0,
            Rounding::HalfUp => twice > bottom || (twice == bottom && top > 0),
            Rounding::HalfEven => twice > bottom || (twice == bottom
                && quotient.checked_rem_euclid(2).unwrap() != 0),
        };
        Ok(
            if step_up {
                quotient + 1
            } else {
                quotient
            },
        )
    }
}

proof fn lemma_quotient_bounds(top: int, bottom: int)
    requires
        -i128::MAX <= top <= i128::MAX,
        0 < bottom <= i128::MAX / 2,
    ensures
        i128::MIN <= top / bottom <= i128::MAX,
        0 <= top % bottom < bottom,
        top % bottom != 0 ==> top / bottom < i128::MAX,
        top % bottom != 0 ==> top != 0,
{
    lemma_fundamental_div_mod(top, bottom);
    let q = top / bottom;
    let r = top % bottom;
    assert(0 <= r < bottom);
    assert(-i128::MAX <= q <= i128::MAX) by (nonlinear_arith)
        requires
            top == bottom * q + r,
            0 <= r < bottom,
            -i128::MAX <= top <= i128::MAX,
            bottom > 0,
    ;
    if r != 0 {
        assert(q < i128::MAX) by (nonlinear_arith)
            requires
                top == bottom * q + r,
                0 < r < bottom,
                top <= i128::MAX,
                bottom > 0,
        ;
        if top == 0 {
            lemma_fundamental_div_mod_converse(0, bottom, 0, 0);
        }
    }
}

proof fn lemma_signed_division(size: int, bottom: int)
    requires
        size >= 0,
        bottom > 0,
    ensures
        0 <= size % bottom < bottom,
        size % bottom == 0 ==> (-size) / bottom == -(size / bottom) && (-size) % bottom == 0,
        size % bottom != 0 ==> (-size) / bottom == -(size / bottom) - 1 && (-size) % bottom
            == bottom - size % bottom,
{
    lemma_fundamental_div_mod(size, bottom);
    let q = size / bottom;
    let r = size % bottom;
    if r == 0 {
        assert(-size == (-q) * bottom + 0) by (nonlinear_arith)
            requires
                size == bottom * q + 0,
        ;
        lemma_fundamental_div_mod_converse(-size, bottom, -q, 0);
    } else {
        assert(-size == (-q - 1) * bottom + (bottom - r)) by (nonlinear_arith)
            requires
                size == bottom * q + r,
        ;
        lemma_fundamental_div_mod_converse(-size, bottom, -q - 1, bottom - r);
    }
}

proof fn lemma_far_quotient(top: int, bottom: int)
    requires
        bottom > 0,
        top >= 0x1_0000_0000_0000_0000 * bottom || -top >= 0x1_0000_0000_0000_0000 * bottom,
    ensures
        top / bottom > 0x7fff_ffff_ffff_ffff || top / bottom + 1 < -0x8000_0000_0000_0000,
{
    lemma_fundamental_div_mod(top, bottom);
    let q = top / bottom;
    let r = top % bottom;
    assert(0 <= r < bottom);
    if top >= 0x1_0000_0000_0000_0000 * bottom {
        assert(q > 0x7fff_ffff_ffff_ffff) by (nonlinear_arith)
            requires
                top == bottom * q + r,
                0 <= r < bottom,
                top >= 0x1_0000_0000_0000_0000 * bottom,
        ;
    } else {
        assert(q <= -0x1_0000_0000_0000_0000) by (nonlinear_arith)
            requires
                top == bottom * q + r,
                0 <= r < bottom,
                -top >= 0x1_0000_0000_0000_0000 * bottom,
        ;
    }
}

/// Rounding is off by less than one unit, by at most half a unit for the half
/// modes, and not at all for a whole quotient.
pub proof fn law_rounding_is_close(mode: Rounding, numerator: int, denominator: int)
    requires
        denominator > 0,
    ensures
        ({
            let error = mode.rounded(numerator, denominator) * denominator - numerator;
            &&& -denominator < error < denominator
            &&& numerator % denominator == 0 ==> error == 0
            &&& (mode is HalfUp || mode is HalfEven) ==> -denominator <= 2 * error <= denominator
            &&& mode is Floor ==> error <= 0
            &&& mode is Ceil ==> error >= 0
            &&& mode is Down && numerator > 0 ==> error <= 0
            &&& mode is Up && numerator > 0 ==> error >= 0
            &&& mode is Down && numerator < 0 ==> error >= 0
            &&& mode is Up && numerator < 0 ==> error <= 0
            &&& mode is HalfUp && numerator > 0 ==> 2 * error != -denominator
            &&& mode is HalfUp && numerator < 0 ==> 2 * error != denominator
            &&& mode is HalfEven && (2 * error == denominator || 2 * error == -denominator)
                ==> mode.rounded(numerator, denominator) % 2 == 0
        }),
        mode.rounded(-numerator, -denominator) == mode.rounded(numerator, denominator),
{
    lemma_fundamental_div_mod(numerator, denominator);
    let q = numerator / denominator;
    let r = numerator % denominator;
    assert(denominator * q == q * denominator) by (nonlinear_arith);
    assert((q + 1) * denominator == q * denominator + denominator) by (nonlinear_arith);
}

/// The modes that do not favour a direction treat credits and debits alike.
pub proof fn law_rounding_is_symmetric(mode: Rounding, numerator: int, denominator: int)
    requires
        denominator > 0,
        !(mode is Floor),
        !(mode is Ceil),
    ensures
        mode.rounded(-numerator, denominator) == -mode.rounded(numerator, denominator),
{
    lemma_fundamental_div_mod(numerator, denominator);
    let q = numerator / denominator;
    let r = numerator % denominator;
    if r == 0 {
        assert(-numerator == (-q) * denominator + 0) by (nonlinear_arith)
            requires
                numerator == denominator * q + 0,
        ;
        lemma_fundamental_div_mod_converse(-numerator, denominator, -q, 0);
    } else {
        assert(-numerator == (-q - 1) * denominator + (denominator - r)) by (nonlinear_arith)
            requires
                numerator == denominator * q + r,
        ;
        lemma_fundamental_div_mod_converse(-numerator, denominator, -q - 1, denominator - r);
        if numerator == 0 {
            lemma_fundamental_div_mod_converse(0, denominator, 0, 0);
        }
        assert((-q - 1) % 2 != 0 <==> q % 2 == 0);
    }
}

/// An exact monetary amount expressed in the minor units of its [`Currency`].
#[derive(Debug, Clone, Copy, PartialEq, Eq, Hash, Structural)]
pub struct Money {
    /// Amount in minor units (e.g. cents).
    pub minor: i64,
    /// Currency of the amount.
    pub currency: Currency,
}

/// An amount of `minor` units, or the money error `message` when that does not fit.
pub open spec fn fitted(minor: int, currency: Currency, message: Seq<char>) -> Result<
    Money,
    ErrorView,
> {
    if i64::MIN <= minor <= i64::MAX {
        Ok(Money { minor: minor as i64, currency })
    } else {
        Err(ErrorView::Money(message))
    }
}

/// The sum of a sequence of amounts, added from the left.
pub open spec fn total(amounts: Seq<Money>, currency: Currency) -> Result<Money, ErrorView>
    decreases amounts.len(),
{
    if amounts.len() == 0 {
        Ok(Money { minor: 0, currency })
    } else {
        match total(amounts.drop_last(), currency) {
            Ok(subtotal) => subtotal.plus(amounts.last()),
            Err(error) => Err(error),
        }
    }
}

/// The minor units of a sequence of amounts.
pub open spec fn minors(amounts: Seq<Money>) -> Seq<int> {
    amounts.map_values(|amount: Money| amount.minor as int)
}

/// Amounts that all are in one currency.
pub open spec fn all_in(amounts: Seq<Money>, currency: Currency) -> bool {
    forall|i: int| 0 <= i < amounts.len() ==> (#[trigger] amounts[i]).currency == currency
}

impl Money {
    /// The sum of two amounts.
    pub open spec fn plus(self, other: Self) -> Result<Self, ErrorView> {
        if self.currency != other.currency {
            Err(ErrorView::CurrencyMismatch { expected: self.currency, actual: other.currency })
        } else {
            fitted(self.minor + other.minor, self.currency, "addition overflow"@)
        }
    }

    /// The difference of two amounts.
    pub open spec fn minus(self, other: Self) -> Result<Self, ErrorView> {
        if self.currency != other.currency {
            Err(ErrorView::CurrencyMismatch { expected: self.currency, actual: other.currency })
        } else {
            fitted(self.minor - other.minor, self.currency, "subtraction overflow"@)
        }
    }

    /// The amount times an integer.
    pub open spec fn times(self, factor: int) -> Result<Self, ErrorView> {
        fitted(self.minor * factor, self.currency, "multiplication overflow"@)
    }

    /// The amount times a fraction.
    pub open spec fn scaled(self, numerator: int, denominator: int, rounding: Rounding) -> Result<
        Self,
        ErrorView,
    > {
        if denominator == 0 {
            Err(ErrorView::Money("division by zero"@))
        } else {
            fitted(
                rounding.rounded(self.minor * numerator, denominator),
                self.currency,
                "amount out of range"@,
            )
        }
    }

    /// A portion of the amount, in basis points.
    pub open spec fn portion(self, basis_points: int, rounding: Rounding) -> Result<
        Self,
        ErrorView,
    > {
        self.scaled(basis_points, 10_000, rounding)
    }

    /// The tax at a rate in basis points that the amount contains.
    pub open spec fn contained_tax(self, basis_points: int, rounding: Rounding) -> Result<
        Self,
        ErrorView,
    > {
        self.scaled(basis_points, 10_000 + basis_points, rounding)
    }

    /// A number of major units.
    pub open spec fn of_major(major: int, currency: Currency) -> Result<Self, ErrorView> {
        fitted(major * currency.factor(), currency, "overflow converting major units"@)
    }

    /// Whether `self` is more than `other`, in the same currency.
    pub open spec fn more_than(self, other: Self) -> bool {
        self.currency == other.currency && self.minor > other.minor
    }

    /// The decimal text and the currency code, as in `19.99 USD`.
    pub open spec fn text(self) -> Seq<char> {
        decimal::decimal_text(self) + " "@ + self.currency.letters()
    }

    /// Build an amount from minor units (cents).
    pub fn from_minor(minor: i64, currency: Currency) -> (amount: Self)
        ensures
            amount == (Money { minor, currency }),
    {
        Money { minor, currency }
    }

    /// A zero amount in `currency`.
    pub fn zero(currency: Currency) -> (amount: Self)
        ensures
            amount == (Money { minor: 0, currency }),
    {
        Money { minor: 0, currency }
    }

    /// Build an amount from major units, so that `from_major(12, Currency::USD)` is `$12.00`.
    pub fn from_major(major: i64, currency: Currency) -> (amount: Result<Self, Error>)
        ensures
            outcome(amount) == Money::of_major(major as int, currency),
    {
        let factor: i64 = currency.minor_units_per_major() as i64;
        match major.checked_mul(factor) {
            Some(minor) => Ok(Money { minor, currency }),
            None => Err(Error::money("overflow converting major units")),
        }
    }

    /// The raw minor-unit amount.
    pub fn minor(self) -> (minor: i64)
        ensures
            minor == self.minor,
    {
        self.minor
    }

    /// The currency of this amount.
    pub fn currency(self) -> (currency: Currency)
        ensures
            currency == self.currency,
    {
        self.currency
    }

    /// `true` when the amount is exactly zero.
    pub fn is_zero(self) -> (zero: bool)
        ensures
            zero == (self.minor == 0),
    {
        self.minor == 0
    }

    /// `true` when the amount is strictly greater than zero.
    pub fn is_positive(self) -> (positive: bool)
        ensures
            positive == (self.minor > 0),
    {
        self.minor > 0
    }

    /// `true` when the amount is strictly less than zero.
    pub fn is_negative(self) -> (negative: bool)
        ensures
            negative == (self.minor < 0),
    {
        self.minor < 0
    }

    /// Absolute value.
    pub fn abs(self) -> (amount: Self)
        requires
            self.minor > i64::MIN,
        ensures
            amount.currency == self.currency,
            amount.minor == if self.minor < 0 {
                -self.minor
            } else {
                self.minor as int
            },
    {
        if self.minor < 0 {
            Money { minor: -self.minor, currency: self.currency }
        } else {
            self
        }
    }

    /// Negated amount.
    pub fn negate(self) -> (amount: Self)
        requires
            self.minor > i64::MIN,
        ensures
            amount.minor == -self.minor,
            amount.currency == self.currency,
    {
        Money { minor: -self.minor, currency: self.currency }
    }

    /// Clamp negative amounts to zero. Useful after subtracting discounts.
    pub fn clamp_non_negative(self) -> (amount: Self)
        ensures
            amount.currency == self.currency,
            amount.minor == if self.minor < 0 {
                0
            } else {
                self.minor
            },
    {
        if self.minor < 0 {
            Money { minor: 0, currency: self.currency }
        } else {
            self
        }
    }

    /// Smaller of two amounts. Errors on currency mismatch.
    pub fn try_min(self, other: Self) -> (amount: Result<Self, Error>)
        ensures
            outcome(amount) == self.smaller(other),
    {
        match self.assert_same_currency(other) {
            Ok(_) => Ok(
                if self.minor <= other.minor {
                    self
                } else {
                    other
                },
            ),
            Err(error) => Err(error),
        }
    }

    /// The smaller of two amounts.
    pub open spec fn smaller(self, other: Self) -> Result<Self, ErrorView> {
        if self.currency != other.currency {
            Err(ErrorView::CurrencyMismatch { expected: self.currency, actual: other.currency })
        } else if self.minor <= other.minor {
            Ok(self)
        } else {
            Ok(other)
        }
    }

    /// The larger of two amounts.
    pub open spec fn larger(self, other: Self) -> Result<Self, ErrorView> {
        if self.currency != other.currency {
            Err(ErrorView::CurrencyMismatch { expected: self.currency, actual: other.currency })
        } else if self.minor >= other.minor {
            Ok(self)
        } else {
            Ok(other)
        }
    }

    /// Larger of two amounts. Errors on currency mismatch.
    pub fn try_max(self, other: Self) -> (amount: Result<Self, Error>)
        ensures
            outcome(amount) == self.larger(other),
    {
        match self.assert_same_currency(other) {
            Ok(_) => Ok(
                if self.minor >= other.minor {
                    self
                } else {
                    other
                },
            ),
            Err(error) => Err(error),
        }
    }

    /// Checked addition; fails on currency mismatch or overflow.
    pub fn try_add(self, other: Self) -> (amount: Result<Self, Error>)
        ensures
            outcome(amount) == self.plus(other),
    {
        match self.assert_same_currency(other) {
            Ok(_) => match self.minor.checked_add(other.minor) {
                Some(minor) => Ok(Money { minor, currency: self.currency }),
                None => Err(Error::money("addition overflow")),
            },
            Err(error) => Err(error),
        }
    }

    /// Checked subtraction; fails on currency mismatch or overflow.
    pub fn try_sub(self, other: Self) -> (amount: Result<Self, Error>)
        ensures
            outcome(amount) == self.minus(other),
    {
        match self.assert_same_currency(other) {
            Ok(_) => match self.minor.checked_sub(other.minor) {
                Some(minor) => Ok(Money { minor, currency: self.currency }),
                None => Err(Error::money("subtraction overflow")),
            },
            Err(error) => Err(error),
        }
    }

    /// Multiply by an integer quantity.
    pub fn try_mul(self, factor: i64) -> (amount: Result<Self, Error>)
        ensures
            outcome(amount) == self.times(factor as int),
    {
        match self.minor.checked_mul(factor) {
            Some(minor) => Ok(Money { minor, currency: self.currency }),
            None => Err(Error::money("multiplication overflow")),
        }
    }

    /// Multiply by the rational `numerator / denominator` with explicit rounding.
    pub fn mul_ratio(self, numerator: i64, denominator: i64, rounding: Rounding) -> (amount: Result<
        Self,
        Error,
    >)
        ensures
            outcome(amount) == self.scaled(numerator as int, denominator as int, rounding),
    {
        assert(-0x4000_0000_0000_0000_0000_0000_0000_0000 <= self.minor * numerator
            <= 0x4000_0000_0000_0000_0000_0000_0000_0000) by (nonlinear_arith)
            requires
                i64::MIN <= self.minor <= i64::MAX,
                i64::MIN <= numerator <= i64::MAX,
        ;
        let product: i128 = self.minor as i128 * numerator as i128;
        match rounding.divide(product, denominator as i128) {
            Ok(value) => Self::from_i128(value, self.currency),
            Err(error) => Err(error),
        }
    }

    /// Multiply by a fraction of numbers of any size.
    pub fn mul_wide_ratio(
        self,
        numerator: &Integer,
        denominator: &Integer,
        rounding: Rounding,
    ) -> (amount: Result<Self, Error>)
        ensures
            outcome(amount) == self.scaled(numerator@, denominator@, rounding),
    {
        let bottom = denominator.size();
        if bottom.is_zero() {
            return Err(Error::money("division by zero"));
        }
        let product = numerator.times(self.minor);
        let size = product.size();
        let negative = !size.is_zero() && product.is_negative() != denominator.is_negative();
        let ghost top = if denominator@ < 0 {
            -product@
        } else {
            product@
        };
        proof {
            assert(numerator@ * self.minor == self.minor * numerator@) by (nonlinear_arith);
            assert(rounding.rounded(self.minor * numerator@, denominator@) == rounding.nearest(
                top,
                bottom@,
            ));
            assert(size@ == if negative {
                -top
            } else {
                top
            });
        }
        let (quotient, remainder) = match size.divided_by(bottom) {
            Some(parts) => parts,
            None => {
                proof {
                    lemma_far_quotient(top, bottom@);
                }
                return Err(Error::money("amount out of range"));
            },
        };
        let exact = remainder.is_zero();
        proof {
            lemma_signed_division(size@, bottom@);
        }
        let floor: i128 = if !negative {
            quotient as i128
        } else if exact {
            -(quotient as i128)
        } else {
            -(quotient as i128) - 1
        };
        let twice = remainder.times(2);
        let below = twice.less(bottom);
        let above = bottom.less(&twice);
        let past_half = if negative {
            below
        } else {
            above
        };
        let half = !below && !above;
        let step_up = !exact && match rounding {
            Rounding::Floor => false,
            Rounding::Ceil => true,
            Rounding::Down => negative,
            Rounding::Up => !negative,
            Rounding::HalfUp => past_half || (half && !negative),
            Rounding::HalfEven => past_half || (half && floor.checked_rem_euclid(2).unwrap() != 0),
        };
        let value: i128 = if step_up {
            floor + 1
        } else {
            floor
        };
        assert(value == rounding.nearest(top, bottom@));
        Self::from_i128(value, self.currency)
    }

    /// Multiply by a rate expressed in basis points (1 bp = 0.01 %).
    pub fn mul_basis_points(self, basis_points: i64, rounding: Rounding) -> (amount: Result<
        Self,
        Error,
    >)
        ensures
            outcome(amount) == self.portion(basis_points as int, rounding),
    {
        self.mul_ratio(basis_points, 10_000, rounding)
    }

    /// Extract the tax contained in a tax-inclusive amount at `basis_points`.
    ///
    /// For a gross of 120 at 20 % this yields 20, not 24.
    pub fn tax_from_inclusive(self, basis_points: i64, rounding: Rounding) -> (amount: Result<
        Self,
        Error,
    >)
        requires
            10_000 + basis_points <= i64::MAX,
        ensures
            outcome(amount) == self.contained_tax(basis_points as int, rounding),
    {
        self.mul_ratio(basis_points, 10_000 + basis_points, rounding)
    }

    /// Sum a list of amounts, validating that they share `currency`.
    pub fn sum(amounts: &[Money], currency: Currency) -> (amount: Result<Self, Error>)
        ensures
            outcome(amount) == total(amounts@, currency),
    {
        let mut subtotal = Money::zero(currency);
        let mut i: usize = 0;
        assert(amounts@.take(0) =~= Seq::<Money>::empty());
        while i < amounts.len()
            invariant
                i <= amounts@.len(),
                total(amounts@.take(i as int), currency) == Ok::<Money, ErrorView>(subtotal),
            decreases amounts@.len() - i,
        {
            assert(amounts@.take(i + 1).drop_last() =~= amounts@.take(i as int));
            match subtotal.try_add(amounts[i]) {
                Ok(next) => {
                    subtotal = next;
                },
                Err(error) => {
                    proof {
                        lemma_prefix_error_stays(
                            |part: Seq<Money>| total(part, currency),
                            amounts@,
                            i + 1,
                        );
                    }
                    return Err(error);
                },
            }
            i += 1;
        }
        assert(amounts@.take(i as int) =~= amounts@);
        Ok(subtotal)
    }

    /// Ratio of `self` to `other` in basis points, for reporting.
    pub fn ratio_basis_points(self, other: Self) -> (ratio: Result<i64, Error>)
        ensures
            outcome(ratio) == self.ratio_to(other),
    {
        match self.assert_same_currency(other) {
            Ok(_) => {},
            Err(error) => return Err(error),
        }
        if other.minor == 0 {
            return Ok(0);
        }
        let scaled: i128 = self.minor as i128 * 10_000;
        match Rounding::HalfUp.divide(scaled, other.minor as i128) {
            Ok(value) => if i64::MIN as i128 <= value && value <= i64::MAX as i128 {
                Ok(value as i64)
            } else {
                Err(Error::money("ratio out of range"))
            },
            Err(error) => Err(error),
        }
    }

    /// The ratio of two amounts in basis points; a ratio to nothing is zero.
    pub open spec fn ratio_to(self, other: Self) -> Result<i64, ErrorView> {
        if self.currency != other.currency {
            Err(ErrorView::CurrencyMismatch { expected: self.currency, actual: other.currency })
        } else if other.minor == 0 {
            Ok(0)
        } else {
            let value = Rounding::HalfUp.rounded(self.minor * 10_000, other.minor as int);
            if i64::MIN <= value <= i64::MAX {
                Ok(value as i64)
            } else {
                Err(ErrorView::Money("ratio out of range"@))
            }
        }
    }

    fn from_i128(value: i128, currency: Currency) -> (amount: Result<Self, Error>)
        ensures
            outcome(amount) == fitted(value as int, currency, "amount out of range"@),
    {
        if i64::MIN as i128 <= value && value <= i64::MAX as i128 {
            Ok(Money { minor: value as i64, currency })
        } else {
            Err(Error::money("amount out of range"))
        }
    }

    /// An error when the two amounts are in different currencies.
    pub fn assert_same_currency(self, other: Self) -> (same: Result<(), Error>)
        ensures
            outcome(same) == if self.currency == other.currency {
                Ok::<(), ErrorView>(())
            } else {
                Err(
                    ErrorView::CurrencyMismatch {
                        expected: self.currency,
                        actual: other.currency,
                    },
                )
            },
    {
        if self.currency == other.currency {
            Ok(())
        } else {
            Err(Error::CurrencyMismatch { expected: self.currency, actual: other.currency })
        }
    }

    /// Whether `self` is more than `other`, in the same currency.
    pub fn exceeds(self, other: Self) -> (more: bool)
        ensures
            more == self.more_than(other),
    {
        self.currency == other.currency && self.minor > other.minor
    }

    /// Render with the currency code (`"19.99 USD"`).
    pub fn to_text(self) -> (text: String)
        ensures
            text@ == self.text(),
    {
        let mut text = self.to_decimal_string();
        text.append(" ");
        text.append(self.currency.code().as_str());
        text
    }
}

/// A sum that succeeds is the sum of the minor units, and every amount was in
/// the currency of the sum.
pub proof fn law_total_is_the_sum(amounts: Seq<Money>, currency: Currency)
    ensures
        total(amounts, currency) matches Ok(amount) ==> {
            &&& amount.currency == currency
            &&& amount.minor == sum(minors(amounts))
            &&& all_in(amounts, currency)
        },
    decreases amounts.len(),
{
    if amounts.len() > 0 {
        let rest = amounts.drop_last();
        law_total_is_the_sum(rest, currency);
        assert(minors(amounts).drop_last() =~= minors(rest));
        if total(amounts, currency) is Ok {
            assert forall|i: int| 0 <= i < amounts.len() implies (
            #[trigger] amounts[i]).currency == currency by {
                if i < rest.len() {
                    assert(rest[i] == amounts[i]);
                }
            }
        }
    }
}

/// Amounts of one currency, none of them negative, add up whenever their sum fits.
pub proof fn law_total_succeeds(amounts: Seq<Money>, currency: Currency)
    requires
        all_in(amounts, currency),
        forall|i: int| 0 <= i < amounts.len() ==> (#[trigger] amounts[i]).minor >= 0,
        sum(minors(amounts)) <= i64::MAX,
    ensures
        total(amounts, currency) == Ok::<Money, ErrorView>(
            Money { minor: sum(minors(amounts)) as i64, currency },
        ),
    decreases amounts.len(),
{
    if amounts.len() > 0 {
        let rest = amounts.drop_last();
        assert forall|i: int| 0 <= i < rest.len() implies (#[trigger] rest[i]).currency == currency
            && rest[i].minor >= 0 by {
            assert(rest[i] == amounts[i]);
        }
        assert(minors(amounts).drop_last() =~= minors(rest));
        let last = amounts[amounts.len() - 1];
        assert(last.currency == currency && last.minor >= 0);
        lemma_sum_non_negative(minors(rest));
        law_total_succeeds(rest, currency);
    }
}

impl PartialOrd for Money {
    /// Only defined for identical currencies; returns `None` otherwise.
    fn partial_cmp(&self, other: &Self) -> (order: Option<Ordering>) {
        if self.currency == other.currency {
            if self.minor < other.minor {
                Some(Ordering::Less)
            } else if self.minor > other.minor {
                Some(Ordering::Greater)
            } else {
                Some(Ordering::Equal)
            }
        } else {
            None
        }
    }
}

impl vstd::std_specs::cmp::PartialOrdSpecImpl for Money {
    open spec fn obeys_partial_cmp_spec() -> bool {
        true
    }

    open spec fn partial_cmp_spec(&self, other: &Self) -> Option<Ordering> {
        if self.currency == other.currency {
            if self.minor < other.minor {
                Some(Ordering::Less)
            } else if self.minor > other.minor {
                Some(Ordering::Greater)
            } else {
                Some(Ordering::Equal)
            }
        } else {
            None
        }
    }
}

/// Scaling an amount by a fraction is off by less than one minor unit, by at most half of
/// one for the half modes, and not at all where the fraction of the amount is whole. It
/// fails only where the amount it should give is out of range.
pub proof fn law_scaling_is_proportional(
    amount: Money,
    numerator: int,
    denominator: int,
    rounding: Rounding,
)
    requires
        denominator > 0,
    ensures
        amount.scaled(numerator, denominator, rounding) matches Ok(part) ==> {
            let off = part.minor * denominator - amount.minor * numerator;
            &&& part.currency == amount.currency
            &&& -denominator < off < denominator
            &&& (rounding is HalfUp || rounding is HalfEven) ==> -denominator <= 2 * off
                <= denominator
            &&& (amount.minor * numerator) % denominator == 0 ==> off == 0
        },
        i64::MIN * denominator <= amount.minor * numerator <= i64::MAX * denominator
            ==> amount.scaled(numerator, denominator, rounding) is Ok,
        amount.scaled(numerator, denominator, rounding) is Err ==> amount.minor * numerator
            > (i64::MAX - 1) * denominator || amount.minor * numerator < (i64::MIN + 1)
            * denominator,
        amount.scaled(numerator, 0, rounding) is Err,
{
    let top = amount.minor * numerator;
    let value = rounding.rounded(top, denominator);
    law_rounding_is_close(rounding, top, denominator);
    lemma_fundamental_div_mod(top, denominator);
    let q = top / denominator;
    let r = top % denominator;
    assert(denominator * q == q * denominator) by (nonlinear_arith);
    if i64::MIN * denominator <= top <= i64::MAX * denominator {
        assert(i64::MIN <= q && (q < i64::MAX || r == 0)) by (nonlinear_arith)
            requires
                top == q * denominator + r,
                0 <= r < denominator,
                i64::MIN * denominator <= top <= i64::MAX * denominator,
        ;
        assert(q <= i64::MAX) by (nonlinear_arith)
            requires
                top == q * denominator + r,
                0 <= r,
                denominator > 0,
                top <= i64::MAX * denominator,
        ;
    }
    if value > i64::MAX {
        assert(top > (i64::MAX - 1) * denominator) by (nonlinear_arith)
            requires
                value * denominator - top < denominator,
                value >= i64::MAX + 1,
                denominator > 0,
        ;
    }
    if value < i64::MIN {
        assert(top < (i64::MIN + 1) * denominator) by (nonlinear_arith)
            requires
                value * denominator - top > -denominator,
                value <= i64::MIN - 1,
                denominator > 0,
        ;
    }
}

/// Amounts add and subtract to the minor unit, and subtracting undoes adding.
pub proof fn law_subtraction_undoes_addition(a: Money, b: Money)
    ensures
        a.plus(b) matches Ok(sum) ==> {
            &&& sum.minor == a.minor + b.minor
            &&& sum.currency == a.currency
            &&& sum.minus(b) == Ok::<Money, ErrorView>(a)
            &&& sum.minus(a) == Ok::<Money, ErrorView>(b)
        },
        a.minus(b) matches Ok(rest) ==> {
            &&& rest.minor == a.minor - b.minor
            &&& rest.plus(b) == Ok::<Money, ErrorView>(a)
        },
        a.plus(b) is Ok <==> a.currency == b.currency && i64::MIN <= a.minor + b.minor <= i64::MAX,
        a.minus(b) is Ok <==> a.currency == b.currency && i64::MIN <= a.minor - b.minor <= i64::MAX,
{
}

/// The smaller and the larger of two amounts are the two amounts, in order.
pub proof fn law_smaller_and_larger(a: Money, b: Money)
    requires
        a.currency == b.currency,
    ensures
        a.smaller(b) matches Ok(low) && a.larger(b) matches Ok(high) && low.minor <= high.minor && (
        (low == a && high == b) || (low == b && high == a)),
{
}

/// A ratio in basis points is the ratio of the two amounts times ten thousand, rounded half
/// up.
pub proof fn law_ratios_are_in_basis_points(part: Money, whole: Money)
    requires
        whole.minor > 0,
    ensures
        part.currency != whole.currency ==> part.ratio_to(whole) is Err,
        part.currency == whole.currency && i64::MIN * whole.minor <= part.minor * 10_000
            <= i64::MAX * whole.minor ==> part.ratio_to(whole) is Ok,
        part.ratio_to(whole) matches Ok(ratio) ==> {
            let off = ratio * whole.minor - part.minor * 10_000;
            -whole.minor <= 2 * off <= whole.minor
        },
{
    law_rounding_is_close(Rounding::HalfUp, part.minor * 10_000, whole.minor as int);
    law_scaling_is_proportional(part, 10_000, whole.minor as int, Rounding::HalfUp);
}

/// Amounts add, subtract and multiply exactly, in one currency, and are refused exactly
/// when the result cannot be told.
pub proof fn law_arithmetic_is_exact(a: Money, b: Money, factor: int)
    ensures
        a.plus(b) is Ok <==> a.currency == b.currency && i64::MIN <= a.minor + b.minor
            <= i64::MAX,
        a.plus(b) is Ok ==> a.plus(b)->Ok_0.minor == a.minor + b.minor && a.plus(
            b,
        )->Ok_0.currency == a.currency,
        a.minus(b) is Ok <==> a.currency == b.currency && i64::MIN <= a.minor - b.minor
            <= i64::MAX,
        a.minus(b) is Ok ==> a.minus(b)->Ok_0.minor == a.minor - b.minor && a.minus(
            b,
        )->Ok_0.currency == a.currency,
        a.times(factor) is Ok <==> i64::MIN <= a.minor * factor <= i64::MAX,
        a.times(factor) is Ok ==> a.times(factor)->Ok_0.minor == a.minor * factor && a.times(
            factor,
        )->Ok_0.currency == a.currency,
        a.more_than(b) <==> a.currency == b.currency && a.minor > b.minor,
{
}

/// A basis point is the ten thousandth part, and the tax within a price is to the price as
/// the rate is to the whole and the rate.
pub proof fn law_basis_points_are_ten_thousandths(
    amount: Money,
    basis_points: int,
    rounding: Rounding,
)
    requires
        basis_points >= 0,
    ensures
        amount.portion(basis_points, rounding) matches Ok(part) ==> {
            &&& part.currency == amount.currency
            &&& -10_000 < part.minor * 10_000 - amount.minor * basis_points < 10_000
        },
        amount.contained_tax(basis_points, rounding) matches Ok(tax) ==> {
            let off = tax.minor * 10_000 - (amount.minor - tax.minor) * basis_points;
            &&& tax.currency == amount.currency
            &&& -(10_000 + basis_points) < off < 10_000 + basis_points
            &&& (rounding is HalfUp || rounding is HalfEven) ==> -(10_000 + basis_points) <= 2
                * off <= 10_000 + basis_points
        },
{
    law_scaling_is_proportional(amount, basis_points, 10_000, rounding);
    law_scaling_is_proportional(amount, basis_points, 10_000 + basis_points, rounding);
    if amount.contained_tax(basis_points, rounding) is Ok {
        let tax = amount.contained_tax(basis_points, rounding)->Ok_0.minor as int;
        let price = amount.minor as int;
        assert(tax * (10_000 + basis_points) - price * basis_points == tax * 10_000 - (price - tax)
            * basis_points) by (nonlinear_arith);
    }
}

/// A major unit is worth its minor units: one, ten, a hundred, a thousand or ten thousand,
/// by the digits that the currency has.
pub proof fn law_major_units_are_worth_their_minor_units(major: int, currency: Currency)
    requires
        currency.digits() <= 4,
    ensures
        Money::of_major(major, currency) matches Ok(amount) ==> {
            &&& amount.currency == currency
            &&& currency.digits() == 0 ==> amount.minor == major
            &&& currency.digits() == 1 ==> amount.minor == major * 10
            &&& currency.digits() == 2 ==> amount.minor == major * 100
            &&& currency.digits() == 3 ==> amount.minor == major * 1_000
            &&& currency.digits() == 4 ==> amount.minor == major * 10_000
        },
        Money::of_major(major, currency) is Ok <==> i64::MIN <= major * currency.factor()
            <= i64::MAX,
{
    reveal_with_fuel(currency::power_of_ten, 5);
    let factor = currency.factor() as int;
    if currency.digits() == 0 {
        assert(major * factor == major * 1) by (nonlinear_arith)
            requires
                factor == 1,
        ;
    } else if currency.digits() == 1 {
        assert(major * factor == major * 10) by (nonlinear_arith)
            requires
                factor == 10,
        ;
    } else if currency.digits() == 2 {
        assert(major * factor == major * 100) by (nonlinear_arith)
            requires
                factor == 100,
        ;
    } else if currency.digits() == 3 {
        assert(major * factor == major * 1_000) by (nonlinear_arith)
            requires
                factor == 1_000,
        ;
    } else {
        assert(major * factor == major * 10_000) by (nonlinear_arith)
            requires
                factor == 10_000,
        ;
    }
}

} // verus!
