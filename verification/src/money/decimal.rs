//! Decimal text of an amount: rendering and parsing.

use vstd::arithmetic::div_mod::lemma_fundamental_div_mod;
use vstd::prelude::*;
use vstd::utf8::{encode_utf8, is_ascii_chars, is_ascii_chars_encode_utf8};

use crate::error::{outcome, Error, ErrorView};
use crate::money::currency::power_of_ten;
use crate::money::{Currency, Money};
use crate::text::{
    all_digits, chars_of, digit_char, digits, find_char, first_index, integer_text, is_ascii_digit,
    is_white, join3, lemma_digits, lemma_first_index_is, lemma_trimmed_is_identity, magnitude,
    number_of, parse_digits, push_digits, signed_to_text, text_of, trim, trimmed,
};

verus! {

/// The last `width` decimal digits of a number.
pub open spec fn padded(n: nat, width: nat) -> Seq<char>
    decreases width,
{
    if width == 0 {
        Seq::empty()
    } else {
        padded(n / 10, (width - 1) as nat).push(digit_char(n % 10))
    }
}

/// The magnitude of an integer.
pub open spec fn size(n: int) -> nat {
    if n < 0 {
        (-n) as nat
    } else {
        n as nat
    }
}

/// An amount in decimal without its currency code, as in `-19.99`.
pub open spec fn decimal_text(amount: Money) -> Seq<char> {
    let factor = amount.currency.factor();
    if amount.currency.digits() == 0 {
        integer_text(amount.minor as int)
    } else {
        (if amount.minor < 0 {
            seq!['-']
        } else {
            Seq::empty()
        }) + digits(size(amount.minor as int) / factor) + seq!['.'] + padded(
            size(amount.minor as int) % factor,
            amount.currency.digits() as nat,
        )
    }
}

/// A decimal text without its sign.
pub open spec fn unsigned_part(text: Seq<char>) -> Seq<char> {
    if text.len() > 0 && (text[0] == '-' || text[0] == '+') {
        text.skip(1)
    } else {
        text
    }
}

/// What stands before the decimal point.
pub open spec fn whole_part(body: Seq<char>) -> Seq<char> {
    body.take(first_index(body, '.'))
}

/// What stands after the decimal point.
pub open spec fn fraction_part(body: Seq<char>) -> Seq<char> {
    let point = first_index(body, '.');
    if point < body.len() {
        body.skip(point + 1)
    } else {
        Seq::empty()
    }
}

/// The minor units that a whole part and a fraction stand for.
pub open spec fn decimal_magnitude(whole: Seq<char>, fraction: Seq<char>, currency: Currency) -> nat {
    number_of(whole) * currency.factor() + number_of(fraction) * power_of_ten(
        (currency.digits() - fraction.len()) as nat,
    )
}

/// The amount that a decimal text stands for in a currency.
pub open spec fn parsed(input: Seq<char>, currency: Currency) -> Result<Money, ErrorView> {
    let text = trimmed(input);
    let body = unsigned_part(text);
    let whole = whole_part(body);
    let fraction = fraction_part(body);
    let size = decimal_magnitude(whole, fraction, currency);
    if body.len() == 0 {
        Err(ErrorView::Money("empty amount"@))
    } else if encode_utf8(fraction).len() > currency.digits() {
        Err(
            ErrorView::Money(
                currency.letters() + " supports at most "@ + digits(currency.digits() as nat)
                    + " fractional digits, got '"@ + text + "'"@,
            ),
        )
    } else if !all_digits(whole) || !all_digits(fraction) {
        Err(ErrorView::Money("invalid decimal amount '"@ + text + "'"@))
    } else if number_of(whole) > i64::MAX {
        Err(ErrorView::Money("amount out of range: '"@ + text + "'"@))
    } else if size > i64::MAX {
        Err(ErrorView::Money("amount out of range"@))
    } else {
        Ok(
            Money {
                minor: (if text[0] == '-' {
                    -size
                } else {
                    size as int
                }) as i64,
                currency,
            },
        )
    }
}

fn push_padded(text: &mut String, n: u64, width: u8)
    ensures
        final(text)@ == old(text)@ + padded(n as nat, width as nat),
    decreases width,
{
    if width > 0 {
        push_padded(text, n / 10, width - 1);
        let digit: u8 = (n % 10) as u8;
        text.push((digit + 48) as char);
        assert(text@ =~= old(text)@ + padded(n as nat, width as nat));
    } else {
        assert(text@ =~= old(text)@ + padded(n as nat, width as nat));
    }
}

fn check_digits(chars: &Vec<char>) -> (all: bool)
    ensures
        all == all_digits(chars@),
{
    let mut i: usize = 0;
    while i < chars.len()
        invariant
            i <= chars@.len(),
            forall|j: int| 0 <= j < i ==> is_ascii_digit(#[trigger] chars@[j]),
        decreases chars@.len() - i,
    {
        if !('0' <= chars[i] && chars[i] <= '9') {
            assert(!is_ascii_digit(chars@[i as int]));
            return false;
        }
        i += 1;
    }
    true
}

fn part(chars: &Vec<char>, from: usize, to: usize) -> (piece: Vec<char>)
    requires
        from <= to <= chars@.len(),
    ensures
        piece@ == chars@.subrange(from as int, to as int),
{
    chars_of(text_of(chars, from, to).as_str())
}

proof fn lemma_digits_are_bytes(text: Seq<char>)
    requires
        all_digits(text),
    ensures
        encode_utf8(text).len() == text.len(),
{
    assert(is_ascii_chars(text)) by {
        assert forall|i: int| 0 <= i < text.len() implies '\0' <= #[trigger] text[i]
            <= '\u{7f}' by {
            assert(is_ascii_digit(text[i]));
        }
    }
    is_ascii_chars_encode_utf8(text);
}

impl Money {
    /// Render as a plain decimal string without the currency code (`"19.99"`).
    pub fn to_decimal_string(self) -> (text: String)
        ensures
            text@ == decimal_text(self),
    {
        let exponent: u8 = self.currency.exponent();
        if exponent == 0 {
            return signed_to_text(self.minor);
        }
        let factor: u64 = self.currency.minor_units_per_major() as u64;
        let mut text = String::new();
        if self.minor < 0 {
            text.push('-');
        }
        let size: u64 = magnitude(self.minor);
        push_digits(&mut text, size / factor);
        text.push('.');
        push_padded(&mut text, size % factor, exponent);
        assert(text@ =~= decimal_text(self));
        text
    }

    /// Parse a decimal string such as `"19.99"` in the given currency.
    ///
    /// Rejects values with more fractional digits than the currency supports,
    /// which prevents silent truncation of user input.
    pub fn parse_decimal(input: &str, currency: Currency) -> (amount: Result<Self, Error>)
        ensures
            outcome(amount) == parsed(input@, currency),
    {
        let text = trim(input);
        let chars = chars_of(text.as_str());
        let signed = chars.len() > 0 && (chars[0] == '-' || chars[0] == '+');
        let negative = chars.len() > 0 && chars[0] == '-';
        let start: usize = if signed {
            1
        } else {
            0
        };
        let body = part(&chars, start, chars.len());
        assert(body@ =~= unsigned_part(text@));
        if body.len() == 0 {
            return Err(Error::money("empty amount"));
        }
        let point = find_char(&body, '.');
        let whole = part(&body, 0, point);
        assert(whole@ =~= whole_part(body@));
        let after: usize = if point < body.len() {
            point + 1
        } else {
            point
        };
        let fraction = part(&body, after, body.len());
        assert(fraction@ =~= fraction_part(body@));
        let exponent: u8 = currency.exponent();
        let fraction_text = text_of(&fraction, 0, fraction.len());
        assert(fraction_text@ =~= fraction@);
        let fraction_bytes: usize = fraction_text.as_str().as_bytes().len();
        if fraction_bytes > exponent as usize {
            let mut message = currency.code();
            message.append(" supports at most ");
            push_digits(&mut message, exponent as u64);
            message.append(" fractional digits, got '");
            message.append(text.as_str());
            message.append("'");
            return Err(Error::money(message.as_str()));
        }
        if !check_digits(&whole) || !check_digits(&fraction) {
            return Err(Error::money(join3("invalid decimal amount '", text.as_str(), "'").as_str()));
        }
        proof {
            lemma_digits_are_bytes(fraction@);
        }
        let whole_value: u64 = match parse_digits(&whole, i64::MAX as u64) {
            Some(value) => value,
            None => return Err(
                Error::money(join3("amount out of range: '", text.as_str(), "'").as_str()),
            ),
        };
        proof {
            lemma_number_bound(fraction@);
            reveal_with_fuel(power_of_ten, 5);
        }
        let mut fraction_value: i64 = parse_digits(&fraction, i64::MAX as u64).unwrap() as i64;
        let ghost read = fraction_value;
        let mut missing: usize = exponent as usize - fraction.len();
        proof {
            assert(fraction_value * power_of_ten(0) == fraction_value) by (nonlinear_arith)
                requires
                    power_of_ten(0) == 1,
            ;
        }
        let ghost mut appended: nat = 0;
        while missing > 0
            invariant
                0 <= read < power_of_ten(fraction@.len()),
                fraction_value == read * power_of_ten(appended),
                missing + appended + fraction@.len() == exponent,
                exponent <= 4,
            decreases missing,
        {
            proof {
                reveal_with_fuel(power_of_ten, 5);
                lemma_power_product(fraction@.len(), appended);
                assert(fraction_value < 10_000) by (nonlinear_arith)
                    requires
                        fraction_value == read * power_of_ten(appended),
                        0 <= read < power_of_ten(fraction@.len()),
                        power_of_ten(fraction@.len()) * power_of_ten(appended) <= 10_000,
                        power_of_ten(appended) >= 1,
                ;
                assert(fraction_value >= 0) by (nonlinear_arith)
                    requires
                        fraction_value == read * power_of_ten(appended),
                        0 <= read,
                ;
                assert((read * power_of_ten(appended)) * 10 == read * power_of_ten(
                    appended + 1,
                )) by (nonlinear_arith)
                    requires
                        power_of_ten(appended + 1) == 10 * power_of_ten(appended),
                ;
                appended = appended + 1;
            }
            fraction_value = fraction_value * 10;
            missing -= 1;
        }
        let factor: i64 = currency.minor_units_per_major() as i64;
        proof {
            assert(fraction_value >= 0) by (nonlinear_arith)
                requires
                    fraction_value == read * power_of_ten(appended),
                    0 <= read,
            ;
            assert(whole_value as i64 * factor >= 0) by (nonlinear_arith)
                requires
                    whole_value <= i64::MAX,
                    factor >= 0,
            ;
            assert(text@.len() > 0);
        }
        let scaled = (whole_value as i64).checked_mul(factor);
        let size: i64 = match scaled {
            Some(value) => match value.checked_add(fraction_value) {
                Some(sum) => sum,
                None => return Err(Error::money("amount out of range")),
            },
            None => return Err(Error::money("amount out of range")),
        };
        Ok(
            Money {
                minor: if negative {
                    -size
                } else {
                    size
                },
                currency,
            },
        )
    }
}

proof fn lemma_power_product(a: nat, b: nat)
    requires
        a + b <= 4,
    ensures
        power_of_ten(a) * power_of_ten(b) <= 10_000,
{
    reveal_with_fuel(power_of_ten, 5);
    let x = power_of_ten(a);
    let y = power_of_ten(b);
    assert(x * y <= 10_000) by (nonlinear_arith)
        requires
            (x == 1 && y <= 10_000) || (x == 10 && y <= 1_000) || (x == 100 && y <= 100) || (x
                == 1_000 && y <= 10) || (x == 10_000 && y == 1),
    ;
}

proof fn lemma_number_bound(text: Seq<char>)
    requires
        all_digits(text),
        text.len() <= 4,
    ensures
        number_of(text) < power_of_ten(text.len()),
        power_of_ten(text.len()) <= 10_000,
{
    reveal_with_fuel(power_of_ten, 5);
    reveal_with_fuel(number_of, 5);
    assert forall|i: int| 0 <= i < text.len() implies 48 <= #[trigger] text[i] as int <= 57 by {
        assert(is_ascii_digit(text[i]));
    }
    if text.len() > 0 {
        let a = text.drop_last();
        if a.len() > 0 {
            let b = a.drop_last();
            if b.len() > 0 {
                let c = b.drop_last();
                assert(c.len() > 0 ==> c.last() == text[0]);
            }
        }
    }
}

/// A padded number has its width, is made of digits, and stands for the number
/// whenever the width has room for it.
proof fn lemma_padded(n: nat, width: nat)
    requires
        n < power_of_ten(width),
    ensures
        padded(n, width).len() == width,
        all_digits(padded(n, width)),
        number_of(padded(n, width)) == n,
    decreases width,
{
    if width > 0 {
        let rest = (width - 1) as nat;
        lemma_padded(n / 10, rest);
        let text = padded(n, width);
        assert(text.drop_last() =~= padded(n / 10, rest));
        assert((n % 10 + 48) as char as int == n % 10 + 48);
        assert forall|i: int| 0 <= i < text.len() implies is_ascii_digit(#[trigger] text[i]) by {
            if i < rest {
                assert(text[i] == padded(n / 10, rest)[i]);
            }
        }
    }
}

proof fn lemma_factor(currency: Currency)
    requires
        currency.digits() <= 4,
    ensures
        1 <= currency.factor() <= 10_000,
{
    reveal_with_fuel(power_of_ten, 5);
}

/// Reading a rendered amount gives it back, except for the one amount whose
/// magnitude does not fit a signed 64-bit integer.
pub proof fn law_decimal_round_trip(amount: Money)
    requires
        amount.currency.digits() <= 4,
        amount.minor > i64::MIN,
    ensures
        parsed(decimal_text(amount), amount.currency) == Ok::<Money, ErrorView>(amount),
{
    let text = decimal_text(amount);
    let n = size(amount.minor as int);
    let factor = amount.currency.factor();
    let width = amount.currency.digits() as nat;
    let negative = amount.minor < 0;
    lemma_factor(amount.currency);
    let whole = if width == 0 {
        digits(n)
    } else {
        digits(n / factor)
    };
    lemma_digits(n);
    lemma_digits(n / factor);
    lemma_fundamental_div_mod(n as int, factor as int);
    let fraction = if width == 0 {
        Seq::<char>::empty()
    } else {
        padded(n % factor, width)
    };
    if width > 0 {
        lemma_padded(n % factor, width);
    }
    let tail = if width == 0 {
        Seq::<char>::empty()
    } else {
        seq!['.'] + fraction
    };
    let body = whole + tail;
    assert(text =~= (if negative {
        seq!['-']
    } else {
        Seq::<char>::empty()
    }) + body);
    assert(is_ascii_digit(whole[0]));
    assert(text[0] == if negative {
        '-'
    } else {
        whole[0]
    });
    assert(!is_white(text[0]));
    assert(!is_white(text.last())) by {
        if width == 0 {
            assert(text.last() == whole.last());
            assert(is_ascii_digit(whole[whole.len() - 1]));
        } else {
            assert(text.last() == fraction.last());
            assert(is_ascii_digit(fraction[fraction.len() - 1]));
        }
    }
    lemma_trimmed_is_identity(text);
    assert(unsigned_part(text) =~= body);
    assert forall|i: int| 0 <= i < whole.len() implies body[i] != '.' by {
        assert(is_ascii_digit(whole[i]));
    }
    lemma_first_index_is(body, '.', whole.len() as int);
    assert(whole_part(body) =~= whole);
    assert(fraction_part(body) =~= fraction);
    lemma_digits_are_bytes(fraction);
    reveal_with_fuel(power_of_ten, 1);
    if width == 0 {
        assert(decimal_magnitude(whole, fraction, amount.currency) == n) by {
            assert(number_of(fraction) == 0);
            assert(n * 1 == n);
            assert(0 * power_of_ten(0) == 0);
        }
    } else {
        assert(decimal_magnitude(whole, fraction, amount.currency) == n) by {
            assert((n / factor) * factor == factor * (n / factor)) by (nonlinear_arith);
            assert((n % factor) * 1 == n % factor);
        }
        assert(n / factor <= n) by (nonlinear_arith)
            requires
                n == factor * (n / factor) + n % factor,
                n % factor >= 0,
                factor >= 1,
                n / factor >= 0,
        ;
    }
}

proof fn lemma_powers_multiply(a: nat, b: nat)
    ensures
        power_of_ten(a + b) == power_of_ten(a) * power_of_ten(b),
        power_of_ten(a) > 0,
    decreases a,
{
    if a > 0 {
        lemma_powers_multiply((a - 1) as nat, b);
        let less = power_of_ten((a - 1) as nat);
        let other = power_of_ten(b);
        assert((a + b - 1) as nat == (a - 1) as nat + b);
        assert((10 * less) * other == 10 * (less * other)) by (nonlinear_arith);
    } else {
        assert(1 * power_of_ten(b) == power_of_ten(b));
    }
}

/// A decimal text is worth its digits: with `n` digits behind the point it is read as that
/// many ten to the `n`ths of the major unit, exactly, and as the opposite behind a minus
/// sign. It is refused exactly when the amount does not fit.
pub proof fn law_decimals_are_read_by_place(
    whole: Seq<char>,
    fraction: Seq<char>,
    currency: Currency,
)
    requires
        currency.digits() <= 4,
        whole.len() > 0,
        all_digits(whole),
        all_digits(fraction),
        0 < fraction.len() <= currency.digits(),
    ensures
        ({
            let text = whole + seq!['.'] + fraction;
            let read = parsed(text, currency);
            let opposite = parsed(seq!['-'] + text, currency);
            let parts = power_of_ten(fraction.len());
            let worth = (number_of(whole) * parts + number_of(fraction))
                * currency.factor();
            &&& read is Ok <==> worth <= i64::MAX * parts
            &&& read is Ok ==> read->Ok_0.currency == currency
            &&& read is Ok ==> read->Ok_0.minor * parts == worth
            &&& opposite is Ok <==> read is Ok
            &&& read is Ok ==> opposite->Ok_0.minor == -read->Ok_0.minor
        }),
{
    let text = whole + seq!['.'] + fraction;
    let negative = seq!['-'] + text;
    let count = fraction.len();
    let rest = (currency.digits() - count) as nat;
    let parts = power_of_ten(count);
    let scale = power_of_ten(rest);
    let factor = currency.factor();
    let w = number_of(whole);
    let f = number_of(fraction);
    let size = decimal_magnitude(whole, fraction, currency);
    lemma_factor(currency);
    lemma_powers_multiply(rest, count);
    lemma_powers_multiply(count, rest);
    assert(rest + count == currency.digits());
    assert(size * parts == (w * parts + f) * factor) by (nonlinear_arith)
        requires
            size == w * factor + f * scale,
            factor == scale * parts,
    ;
    assert(size <= i64::MAX <==> size * parts <= i64::MAX * parts) by (nonlinear_arith)
        requires
            parts > 0,
    ;
    assert(w <= size) by (nonlinear_arith)
        requires
            size == w * factor + f * scale,
            factor >= 1,
            f >= 0,
            scale >= 0,
            w >= 0,
    ;
    assert(is_ascii_digit(whole[0]));
    assert(is_ascii_digit(fraction[count - 1]));
    assert(text[0] == whole[0]);
    assert(text.last() == fraction[count - 1]);
    assert(negative[0] == '-');
    assert(negative.last() == fraction[count - 1]);
    lemma_trimmed_is_identity(text);
    lemma_trimmed_is_identity(negative);
    assert(unsigned_part(text) =~= text);
    assert(unsigned_part(negative) =~= text);
    assert forall|i: int| 0 <= i < whole.len() implies text[i] != '.' by {
        assert(is_ascii_digit(whole[i]));
    }
    lemma_first_index_is(text, '.', whole.len() as int);
    assert(whole_part(text) =~= whole);
    assert(fraction_part(text) =~= fraction);
    lemma_digits_are_bytes(fraction);
}

} // verus!
