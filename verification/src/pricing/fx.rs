//! Currency conversion.
//!
//! Conversion is a pluggable trait so that rates can come from your treasury
//! system, an FX provider or the payment gateway itself. Rates are quoted as
//! integer numerator/denominator pairs rather than floats so that a quote can
//! be persisted, replayed and audited to the cent.

use vstd::prelude::*;
use vstd::utf8::{encode_utf8, is_ascii_chars, is_ascii_chars_encode_utf8};

use crate::collections::OrderedMap;
use crate::error::{outcome, Error, ErrorView};
use crate::money::currency::{law_minor_units_per_major, power_of_ten};
use crate::money::{law_scaling_is_proportional, Currency, Money, Rounding};
use crate::text::{
    all_digits, chars_of, find_char, first_index, is_ascii_digit, join3, lemma_first_index,
    lemma_first_index_is, number_of, parse_signed, signed_of, text_of,
};
use crate::time::Timestamp;

verus! {

/// An exact exchange rate: `to = from * numerator / denominator`.
#[derive(Debug, Clone, Copy, PartialEq, Eq, Structural)]
pub struct ExchangeRate {
    /// Source currency.
    pub from: Currency,
    /// Target currency.
    pub to: Currency,
    /// Rate numerator.
    pub numerator: i64,
    /// Rate denominator.
    pub denominator: i64,
    /// When the rate was quoted, for audit and staleness checks.
    pub quoted_at: Timestamp,
    /// Markup applied over the mid-market rate, in basis points.
    pub markup_basis_points: i64,
}

/// The part of a decimal before its point and the part after it.
pub open spec fn decimal_parts(rate: Seq<char>) -> (Seq<char>, Seq<char>) {
    let point = first_index(rate, '.');
    if point < rate.len() {
        (rate.take(point), rate.skip(point + 1))
    } else {
        (rate, Seq::empty())
    }
}

/// The exact ratio that a decimal stands for.
pub open spec fn decimal_ratio(rate: Seq<char>) -> Result<(int, int), ErrorView> {
    let (whole, fraction) = decimal_parts(rate);
    if encode_utf8(fraction).len() > 12 {
        Err(ErrorView::Validation("exchange rate has too many digits"@))
    } else {
        match signed_of(whole + fraction) {
            None => Err(ErrorView::Validation("invalid rate '"@ + rate + "'"@)),
            Some(numerator) => if numerator <= 0 {
                Err(ErrorView::Validation("exchange rate must be positive"@))
            } else {
                Ok((numerator as int, power_of_ten(encode_utf8(fraction).len()) as int))
            },
        }
    }
}

fn ten_to_the(exponent: usize) -> (power: i64)
    requires
        exponent <= 12,
    ensures
        power == power_of_ten(exponent as nat),
        power > 0,
{
    let mut power: i64 = 1;
    let mut n: usize = 0;
    proof {
        reveal_with_fuel(power_of_ten, 13);
    }
    while n < exponent
        invariant
            n <= exponent <= 12,
            power == power_of_ten(n as nat),
            power_of_ten(12) == 1_000_000_000_000,
            power > 0,
        decreases exponent - n,
    {
        proof {
            lemma_power_grows((n + 1) as nat, 12);
        }
        power = power * 10;
        n += 1;
    }
    power
}

proof fn lemma_power_grows(n: nat, m: nat)
    requires
        n <= m,
    ensures
        0 < power_of_ten(n) <= power_of_ten(m),
    decreases m,
{
    if n < m {
        lemma_power_grows(n, (m - 1) as nat);
    } else if n > 0 {
        lemma_power_grows((n - 1) as nat, (n - 1) as nat);
    }
}

impl ExchangeRate {
    /// What an amount is worth in the target currency, adjusted for the currencies'
    /// differing exponents and with the markup on top.
    pub open spec fn converted(self, amount: Money, rounding: Rounding) -> Result<
        Money,
        ErrorView,
    > {
        let numerator = self.numerator * self.to.factor();
        let denominator = self.denominator * self.from.factor();
        if amount.currency != self.from {
            Err(ErrorView::CurrencyMismatch { expected: self.from, actual: amount.currency })
        } else if !(i64::MIN <= numerator <= i64::MAX) || !(i64::MIN <= denominator <= i64::MAX) {
            Err(ErrorView::Money("rate scaling overflow"@))
        } else {
            match (Money { minor: amount.minor, currency: self.to }).scaled(
                numerator,
                denominator,
                rounding,
            ) {
                Err(error) => Err(error),
                Ok(mid) => if self.markup_basis_points == 0 {
                    Ok(mid)
                } else {
                    match mid.scaled(self.markup_basis_points as int, 10_000, rounding) {
                        Err(error) => Err(error),
                        Ok(markup) => mid.plus(markup),
                    }
                },
            }
        }
    }

    /// The rate in the other direction.
    pub open spec fn reversed(self) -> ExchangeRate {
        ExchangeRate {
            from: self.to,
            to: self.from,
            numerator: self.denominator,
            denominator: self.numerator,
            ..self
        }
    }

    /// Build a rate from an exact ratio.
    pub fn new(from: Currency, to: Currency, numerator: i64, denominator: i64) -> (rate: Result<
        Self,
        Error,
    >)
        ensures
            match rate {
                Ok(made) => numerator > 0 && denominator > 0 && made == (ExchangeRate {
                    from,
                    to,
                    numerator,
                    denominator,
                    quoted_at: made.quoted_at,
                    markup_basis_points: 0,
                }),
                Err(error) => (numerator <= 0 || denominator <= 0) && error@
                    == ErrorView::Validation("exchange rate must be positive"@),
            },
    {
        if denominator <= 0 || numerator <= 0 {
            return Err(Error::validation("exchange rate must be positive"));
        }
        Ok(
            ExchangeRate {
                from,
                to,
                numerator,
                denominator,
                quoted_at: Timestamp::now(),
                markup_basis_points: 0,
            },
        )
    }

    /// Build a rate from a decimal string such as `"1.0873"`.
    pub fn from_decimal(from: Currency, to: Currency, rate: &str) -> (made: Result<Self, Error>)
        ensures
            match made {
                Ok(exact) => decimal_ratio(rate@) == Ok::<(int, int), ErrorView>(
                    (exact.numerator as int, exact.denominator as int),
                ) && exact == (ExchangeRate {
                    from,
                    to,
                    numerator: exact.numerator,
                    denominator: exact.denominator,
                    quoted_at: exact.quoted_at,
                    markup_basis_points: 0,
                }),
                Err(error) => decimal_ratio(rate@) == Err::<(int, int), ErrorView>(error@),
            },
    {
        let chars = chars_of(rate);
        proof {
            lemma_first_index(rate@, '.');
        }
        let point = find_char(&chars, '.');
        let (whole, fraction) = if point < chars.len() {
            (text_of(&chars, 0, point), text_of(&chars, point + 1, chars.len()))
        } else {
            (text_of(&chars, 0, chars.len()), String::new())
        };
        assert(whole@ =~= decimal_parts(rate@).0);
        assert(fraction@ =~= decimal_parts(rate@).1);
        let scale = fraction.as_str().as_bytes().len();
        if scale > 12 {
            return Err(Error::validation("exchange rate has too many digits"));
        }
        let mut digits = whole;
        digits.append(fraction.as_str());
        let numerator = match parse_signed(&chars_of(digits.as_str())) {
            Some(numerator) => numerator,
            None => return Err(Error::validation(join3("invalid rate '", rate, "'").as_str())),
        };
        ExchangeRate::new(from, to, numerator, ten_to_the(scale))
    }

    /// Builder: add a markup (spread) in basis points.
    pub fn with_markup(self, basis_points: i64) -> (rate: Self)
        ensures
            rate == (ExchangeRate { markup_basis_points: basis_points, ..self }),
    {
        ExchangeRate { markup_basis_points: basis_points, ..self }
    }

    /// Convert `amount`, adjusting for the currencies' differing exponents.
    pub fn convert(&self, amount: Money, rounding: Rounding) -> (converted: Result<Money, Error>)
        ensures
            outcome(converted) == self.converted(amount, rounding),
    {
        if amount.currency() != self.from {
            return Err(
                Error::CurrencyMismatch { expected: self.from, actual: amount.currency() },
            );
        }
        // Scale between minor-unit exponents, e.g. USD (2) -> JPY (0).
        let from_scale: i64 = self.from.minor_units_per_major() as i64;
        let to_scale: i64 = self.to.minor_units_per_major() as i64;
        let numerator = match self.numerator.checked_mul(to_scale) {
            Some(numerator) => numerator,
            None => return Err(Error::money("rate scaling overflow")),
        };
        let denominator = match self.denominator.checked_mul(from_scale) {
            Some(denominator) => denominator,
            None => return Err(Error::money("rate scaling overflow")),
        };
        let base = Money::from_minor(amount.minor(), self.to);
        let converted = match base.mul_ratio(numerator, denominator, rounding) {
            Ok(converted) => converted,
            Err(error) => return Err(error),
        };
        if self.markup_basis_points == 0 {
            return Ok(converted);
        }
        match converted.mul_basis_points(self.markup_basis_points, rounding) {
            Ok(markup) => converted.try_add(markup),
            Err(error) => Err(error),
        }
    }

    /// The inverse rate, useful for displaying prices in a buyer's currency.
    pub fn inverse(&self) -> (rate: Result<ExchangeRate, Error>)
        ensures
            rate == Ok::<ExchangeRate, Error>(self.reversed()),
    {
        Ok(
            ExchangeRate {
                from: self.to,
                to: self.from,
                numerator: self.denominator,
                denominator: self.numerator,
                quoted_at: self.quoted_at,
                markup_basis_points: self.markup_basis_points,
            },
        )
    }
}

/// Reversing a rate twice gives the rate back.
pub proof fn law_inverse_of_the_inverse(rate: ExchangeRate)
    ensures
        rate.reversed().reversed() == rate,
{
}

/// What a conversion returns, given the rate that was fetched for it.
pub open spec fn conversion(
    amount: Money,
    to: Currency,
    rate: Result<ExchangeRate, Error>,
) -> Result<Money, ErrorView> {
    if amount.currency == to {
        Ok(amount)
    } else {
        match rate {
            Ok(found) => found.converted(amount, Rounding::HalfEven),
            Err(error) => Err(error@),
        }
    }
}

/// Source of exchange rates.
pub trait CurrencyConverter {
    /// Fetch the rate to convert `from` into `to`.
    fn rate(&self, from: Currency, to: Currency) -> Result<ExchangeRate, Error>;

    /// Convert an amount, fetching the rate first. Identity conversions are free.
    fn convert(&self, amount: Money, to: Currency) -> (converted: Result<Money, Error>)
        default_ensures
            amount.currency == to ==> outcome(converted) == Ok::<Money, ErrorView>(amount),
            amount.currency != to ==> exists|rate: Result<ExchangeRate, Error>| #[trigger]
                call_ensures(Self::rate, (self, amount.currency, to), rate) && outcome(converted)
                    == conversion(amount, to, rate),
    {
        if amount.currency() == to {
            return Ok(amount);
        }
        let rate = self.rate(amount.currency(), to);
        assert(call_ensures(Self::rate, (self, amount.currency, to), rate));
        match rate {
            Ok(found) => found.convert(amount, Rounding::HalfEven),
            Err(error) => Err(error),
        }
    }
}

/// What a pair of currencies is listed under.
pub open spec fn pair(from: Currency, to: Currency) -> Seq<char> {
    from.letters() + "/"@ + to.letters()
}

fn pair_text(from: Currency, to: Currency) -> (text: String)
    ensures
        text@ == pair(from, to),
{
    join3(from.code().as_str(), "/", to.code().as_str())
}

/// A converter backed by a static rate table. Rates can be registered in one
/// direction only; the inverse is derived automatically.
#[derive(Debug, Clone)]
pub struct StaticCurrencyConverter {
    rates: OrderedMap<ExchangeRate>,
}

impl View for StaticCurrencyConverter {
    type V = Map<Seq<char>, ExchangeRate>;

    closed spec fn view(&self) -> Map<Seq<char>, ExchangeRate> {
        self.rates@
    }
}

impl Default for StaticCurrencyConverter {
    fn default() -> (converter: Self)
        ensures
            converter@ == Map::<Seq<char>, ExchangeRate>::empty(),
    {
        StaticCurrencyConverter { rates: OrderedMap::new() }
    }
}

impl StaticCurrencyConverter {
    /// An empty table.
    pub fn new() -> (converter: Self)
        ensures
            converter@ == Map::<Seq<char>, ExchangeRate>::empty(),
    {
        Self::default()
    }

    /// Register a rate (and implicitly its inverse).
    pub fn insert(&mut self, rate: ExchangeRate)
        ensures
            final(self)@ == old(self)@.insert(pair(rate.from, rate.to), rate),
    {
        self.rates.insert(pair_text(rate.from, rate.to), rate);
    }

    /// Builder form of [`Self::insert`].
    pub fn with(self, rate: ExchangeRate) -> (converter: Self)
        ensures
            converter@ == self@.insert(pair(rate.from, rate.to), rate),
    {
        let mut converter = self;
        converter.insert(rate);
        converter
    }

    /// What looking a rate up returns; a currency is worth itself.
    pub open spec fn lookup(
        self,
        from: Currency,
        to: Currency,
        rate: Result<ExchangeRate, Error>,
    ) -> bool {
        if from == to {
            rate is Ok && rate->Ok_0 == (ExchangeRate {
                from,
                to,
                numerator: 1,
                denominator: 1,
                quoted_at: rate->Ok_0.quoted_at,
                markup_basis_points: 0,
            })
        } else if self@.contains_key(pair(from, to)) {
            rate == Ok::<ExchangeRate, Error>(self@[pair(from, to)])
        } else if self@.contains_key(pair(to, from)) {
            rate == Ok::<ExchangeRate, Error>(self@[pair(to, from)].reversed())
        } else {
            outcome(rate) == Err::<ExchangeRate, ErrorView>(
                ErrorView::Configuration(
                    "no exchange rate configured for "@ + from.letters() + " -> "@ + to.letters(),
                ),
            )
        }
    }
}

impl CurrencyConverter for StaticCurrencyConverter {
    fn rate(&self, from: Currency, to: Currency) -> (rate: Result<ExchangeRate, Error>)
        ensures
            self.lookup(from, to, rate),
    {
        if from == to {
            return ExchangeRate::new(from, to, 1, 1);
        }
        if let Some(rate) = self.rates.get(pair_text(from, to).as_str()) {
            return Ok(*rate);
        }
        if let Some(rate) = self.rates.get(pair_text(to, from).as_str()) {
            return rate.inverse();
        }
        let mut message = join3(
            "no exchange rate configured for ",
            from.code().as_str(),
            " -> ",
        );
        message.append(to.code().as_str());
        Err(Error::configuration(message.as_str()))
    }
}

/// A registered rate is found as it was registered, and the other way round as its
/// inverse where no rate was registered for that direction.
pub proof fn law_registered_rates_are_found(
    before: StaticCurrencyConverter,
    after: StaticCurrencyConverter,
    rate: ExchangeRate,
)
    requires
        after@ == before@.insert(pair(rate.from, rate.to), rate),
        rate.from != rate.to,
    ensures
        after.lookup(rate.from, rate.to, Ok(rate)),
        !after@.contains_key(pair(rate.to, rate.from)) ==> after.lookup(
            rate.to,
            rate.from,
            Ok(rate.reversed()),
        ),
{
}

/// A conversion without a markup follows the rate between major units, whatever the
/// exponents of the two currencies: what comes out is less than one minor unit away from
/// the exact worth, and at most half of one for the half modes.
pub proof fn law_conversions_follow_the_rate(rate: ExchangeRate, amount: Money, rounding: Rounding)
    requires
        rate.denominator > 0,
        rate.markup_basis_points == 0,
    ensures
        rate.converted(amount, rounding) matches Ok(made) ==> {
            let unit = rate.denominator * rate.from.factor();
            let off = made.minor * rate.denominator * rate.from.factor() - amount.minor
                * rate.numerator * rate.to.factor();
            &&& amount.currency == rate.from
            &&& made.currency == rate.to
            &&& -unit < off < unit
            &&& (rounding is HalfUp || rounding is HalfEven) ==> -unit <= 2 * off <= unit
            &&& (amount.minor * rate.numerator * rate.to.factor()) % unit == 0 ==> off == 0
        },
{
    if let Ok(made) = rate.converted(amount, rounding) {
        let top = rate.numerator * rate.to.factor();
        let unit = rate.denominator * rate.from.factor();
        law_minor_units_per_major(rate.from);
        assert(unit > 0) by (nonlinear_arith)
            requires
                unit == rate.denominator * rate.from.factor(),
                rate.denominator > 0,
                rate.from.factor() >= 1,
        ;
        law_scaling_is_proportional(
            Money { minor: amount.minor, currency: rate.to },
            top,
            unit,
            rounding,
        );
        assert(made.minor * unit == made.minor * rate.denominator * rate.from.factor())
            by (nonlinear_arith)
            requires
                unit == rate.denominator * rate.from.factor(),
        ;
        assert(amount.minor * top == amount.minor * rate.numerator * rate.to.factor())
            by (nonlinear_arith)
            requires
                top == rate.numerator * rate.to.factor(),
        ;
    }
}

/// A conversion is refused for an amount in another currency than the rate is for, and
/// otherwise only where the rate or the worth of the amount is out of range.
pub proof fn law_conversions_succeed(rate: ExchangeRate, amount: Money, rounding: Rounding)
    requires
        rate.numerator > 0,
        rate.denominator > 0,
        rate.markup_basis_points == 0,
        rate.numerator * rate.to.factor() <= i64::MAX,
        rate.denominator * rate.from.factor() <= i64::MAX,
        i64::MIN * (rate.denominator * rate.from.factor()) <= amount.minor * (rate.numerator
            * rate.to.factor()) <= i64::MAX * (rate.denominator * rate.from.factor()),
    ensures
        rate.converted(amount, rounding) is Ok <==> amount.currency == rate.from,
        amount.currency != rate.from ==> rate.converted(amount, rounding) == Err::<
            Money,
            ErrorView,
        >(ErrorView::CurrencyMismatch { expected: rate.from, actual: amount.currency }),
{
    let top = rate.numerator * rate.to.factor();
    let unit = rate.denominator * rate.from.factor();
    law_minor_units_per_major(rate.from);
    law_minor_units_per_major(rate.to);
    assert(unit > 0 && top > 0) by (nonlinear_arith)
        requires
            unit == rate.denominator * rate.from.factor(),
            top == rate.numerator * rate.to.factor(),
            rate.denominator > 0,
            rate.numerator > 0,
            rate.from.factor() >= 1,
            rate.to.factor() >= 1,
    ;
    law_scaling_is_proportional(
        Money { minor: amount.minor, currency: rate.to },
        top,
        unit,
        rounding,
    );
}

/// A markup is charged on top of the plain conversion: it is that many basis points of what
/// the conversion gives without it, less than one minor unit off.
pub proof fn law_markups_are_charged_on_top(rate: ExchangeRate, amount: Money, rounding: Rounding)
    ensures
        rate.converted(amount, rounding) matches Ok(dear) ==> {
            let plain = ExchangeRate { markup_basis_points: 0, ..rate };
            plain.converted(amount, rounding) matches Ok(made) && {
                let off = (dear.minor - made.minor) * 10_000 - made.minor
                    * rate.markup_basis_points;
                &&& dear.currency == made.currency
                &&& -10_000 < off < 10_000
                &&& (rounding is HalfUp || rounding is HalfEven) ==> -10_000 <= 2 * off <= 10_000
            }
        },
{
    if let Ok(dear) = rate.converted(amount, rounding) {
        let plain = ExchangeRate { markup_basis_points: 0, ..rate };
        let made = plain.converted(amount, rounding)->Ok_0;
        law_scaling_is_proportional(made, rate.markup_basis_points as int, 10_000, rounding);
    }
}

/// The inverse of a rate goes the other way at the reciprocal.
pub proof fn law_inverse_rates_are_reciprocal(rate: ExchangeRate)
    ensures
        rate.reversed().from == rate.to,
        rate.reversed().to == rate.from,
        rate.reversed().numerator * rate.numerator == rate.denominator
            * rate.reversed().denominator,
        rate.reversed().numerator == rate.denominator,
        rate.reversed().markup_basis_points == rate.markup_basis_points,
        rate.reversed().quoted_at == rate.quoted_at,
{
    assert(rate.denominator * rate.numerator == rate.denominator * rate.numerator);
}

proof fn lemma_digits_concat(whole: Seq<char>, fraction: Seq<char>)
    ensures
        number_of(whole + fraction) == number_of(whole) * power_of_ten(fraction.len())
            + number_of(fraction),
    decreases fraction.len(),
{
    if fraction.len() == 0 {
        assert(whole + fraction =~= whole);
        assert(number_of(whole) * 1 == number_of(whole)) by (nonlinear_arith);
    } else {
        let rest = fraction.drop_last();
        lemma_digits_concat(whole, rest);
        assert((whole + fraction).drop_last() =~= whole + rest);
        assert((whole + fraction).last() == fraction.last());
        let n = number_of(whole);
        let p = power_of_ten(rest.len());
        assert(n * (10 * p) == 10 * (n * p)) by (nonlinear_arith);
    }
}

/// A rate written as a decimal is the number that is written: what stands before the point,
/// and what stands after it as so many tenths, hundredths and so on.
pub proof fn law_decimal_rates_are_exact(whole: Seq<char>, fraction: Seq<char>)
    requires
        whole.len() > 0,
        all_digits(whole),
        all_digits(fraction),
        fraction.len() <= 12,
        0 < number_of(whole) * power_of_ten(fraction.len()) + number_of(fraction) <= i64::MAX,
    ensures
        decimal_ratio(whole + seq!['.'] + fraction) == Ok::<(int, int), ErrorView>(
            (
                (number_of(whole) * power_of_ten(fraction.len()) + number_of(fraction)) as int,
                power_of_ten(fraction.len()) as int,
            ),
        ),
        fraction.len() == 0 ==> decimal_ratio(whole) == Ok::<(int, int), ErrorView>(
            (number_of(whole) as int, 1),
        ),
{
    let rate = whole + seq!['.'] + fraction;
    let point = whole.len() as int;
    assert(rate[point] == '.');
    assert forall|i: int| 0 <= i < point implies #[trigger] rate[i] != '.' by {
        assert(is_ascii_digit(whole[i]));
        assert(rate[i] == whole[i]);
    }
    lemma_first_index_is(rate, '.', point);
    assert(rate.take(point) =~= whole);
    assert(rate.skip(point + 1) =~= fraction);
    assert(is_ascii_chars(fraction)) by {
        assert forall|i: int| 0 <= i < fraction.len() implies '\0' <= #[trigger] fraction[i]
            <= '\u{7f}' by {
            assert(is_ascii_digit(fraction[i]));
        }
    }
    is_ascii_chars_encode_utf8(fraction);
    let all = whole + fraction;
    assert forall|i: int| 0 <= i < all.len() implies is_ascii_digit(#[trigger] all[i]) by {
        if i < whole.len() {
            assert(all[i] == whole[i]);
        } else {
            assert(all[i] == fraction[i - whole.len()]);
        }
    }
    assert(is_ascii_digit(all[0]));
    lemma_digits_concat(whole, fraction);
    if fraction.len() == 0 {
        assert forall|i: int| 0 <= i < whole.len() implies #[trigger] whole[i] != '.' by {
            assert(is_ascii_digit(whole[i]));
        }
        lemma_first_index_is(whole, '.', point);
        assert(whole + Seq::<char>::empty() =~= whole);
        assert(fraction =~= Seq::<char>::empty());
        assert(number_of(whole) * 1 == number_of(whole)) by (nonlinear_arith);
    }
}

/// Rates between different pairs of currencies do not get in each other's way: registering
/// one leaves what is found for another pair as it was.
pub proof fn law_rates_do_not_collide(
    before: StaticCurrencyConverter,
    after: StaticCurrencyConverter,
    rate: ExchangeRate,
    from: Currency,
    to: Currency,
    found: Result<ExchangeRate, Error>,
)
    requires
        after@ == before@.insert(pair(rate.from, rate.to), rate),
        rate.from.letters().len() == 3,
        rate.to.letters().len() == 3,
        from.letters().len() == 3,
        to.letters().len() == 3,
        from.letters() != rate.from.letters() || to.letters() != rate.to.letters(),
        to.letters() != rate.from.letters() || from.letters() != rate.to.letters(),
    ensures
        after.lookup(from, to, found) == before.lookup(from, to, found),
{
    lemma_pairs_differ(from, to, rate.from, rate.to);
    lemma_pairs_differ(to, from, rate.from, rate.to);
}

proof fn lemma_pairs_differ(a: Currency, b: Currency, c: Currency, d: Currency)
    requires
        a.letters().len() == 3,
        b.letters().len() == 3,
        c.letters().len() == 3,
        d.letters().len() == 3,
        a.letters() != c.letters() || b.letters() != d.letters(),
    ensures
        pair(a, b) != pair(c, d),
{
    reveal_strlit("/");
    if pair(a, b) == pair(c, d) {
        assert(pair(a, b).take(3) =~= a.letters());
        assert(pair(c, d).take(3) =~= c.letters());
        assert(pair(a, b).skip(4) =~= b.letters());
        assert(pair(c, d).skip(4) =~= d.letters());
    }
}

/// Converting into the currency an amount is already in gives the amount back, and a rate
/// that cannot be had is the error of the conversion.
pub proof fn law_identity_conversions_are_free(
    amount: Money,
    to: Currency,
    rate: Result<ExchangeRate, Error>,
)
    ensures
        amount.currency == to ==> conversion(amount, to, rate) == Ok::<Money, ErrorView>(amount),
        amount.currency != to && rate is Err ==> conversion(amount, to, rate) == Err::<
            Money,
            ErrorView,
        >(rate->Err_0@),
        amount.currency != to && rate is Ok ==> conversion(amount, to, rate)
            == rate->Ok_0.converted(amount, Rounding::HalfEven),
{
}

} // verus!
