//! ISO-4217 currency codes with their minor-unit exponents.

use vstd::prelude::*;

use crate::error::{Error, ErrorView, outcome};
use crate::text::{
    chars_of, is_ascii_letter, is_ascii_upper, same_text, to_upper, upper, upper_char,
};

verus! {

/// A currency outside the named ones: a three-letter code and its exponent.
///
/// Only [`Currency::new`] and [`Currency::from_code`] make one, and never for a
/// code and exponent that a named variant stands for.
#[derive(Debug, Clone, Copy, PartialEq, Eq, Hash, Structural)]
pub struct OtherCurrency {
    first: char,
    second: char,
    third: char,
    exponent: u8,
}

impl OtherCurrency {
    /// The three letters.
    pub closed spec fn letters(self) -> Seq<char> {
        seq![self.first, self.second, self.third]
    }

    /// Decimal digits in the minor unit.
    pub closed spec fn digits(self) -> u8 {
        self.exponent
    }

    #[verifier::type_invariant]
    spec fn valid(self) -> bool {
        self.exponent <= 4
    }
}

/// An ISO-4217 currency: a three-letter code plus the number of decimal places.
#[derive(Debug, Clone, Copy, PartialEq, Eq, Hash, Structural)]
pub enum Currency {
    /// The USD currency.
    USD,
    /// The EUR currency.
    EUR,
    /// The GBP currency.
    GBP,
    /// The JPY currency.
    JPY,
    /// The CAD currency.
    CAD,
    /// The AUD currency.
    AUD,
    /// The CHF currency.
    CHF,
    /// The SEK currency.
    SEK,
    /// The NOK currency.
    NOK,
    /// The DKK currency.
    DKK,
    /// Any other currency.
    Other(OtherCurrency),
}

/// The minor-unit exponent of the currencies in the built-in table.
pub open spec fn known_exponent(code: Seq<char>) -> Option<u8> {
    if code == "BHD"@ || code == "JOD"@ || code == "KWD"@ || code == "OMR"@ || code == "TND"@ {
        Some(3)
    } else if code == "CLP"@ || code == "ISK"@ || code == "JPY"@ || code == "KRW"@ || code
        == "VND"@ {
        Some(0)
    } else if code == "AED"@ || code == "AUD"@ || code == "BRL"@ || code == "CAD"@ || code
        == "CHF"@ || code == "CNY"@ || code == "COP"@ || code == "CZK"@ || code == "DKK"@ || code
        == "EUR"@ || code == "GBP"@ || code == "HKD"@ || code == "HUF"@ || code == "IDR"@ || code
        == "ILS"@ || code == "INR"@ || code == "MXN"@ || code == "MYR"@ || code == "NOK"@ || code
        == "NZD"@ || code == "PHP"@ || code == "PLN"@ || code == "RON"@ || code == "SAR"@ || code
        == "SEK"@ || code == "SGD"@ || code == "THB"@ || code == "TRY"@ || code == "TWD"@ || code
        == "USD"@ || code == "ZAR"@ {
        Some(2)
    } else {
        None
    }
}

fn lookup_exponent(code: &str) -> (exponent: Option<u8>)
    ensures
        exponent == known_exponent(code@),
{
    if same_text(code, "BHD") || same_text(code, "JOD") || same_text(code, "KWD") || same_text(
        code,
        "OMR",
    ) || same_text(code, "TND") {
        Some(3)
    } else if same_text(code, "CLP") || same_text(code, "ISK") || same_text(code, "JPY")
        || same_text(code, "KRW") || same_text(code, "VND") {
        Some(0)
    } else if same_text(code, "AED") || same_text(code, "AUD") || same_text(code, "BRL")
        || same_text(code, "CAD") || same_text(code, "CHF") || same_text(code, "CNY") || same_text(
        code,
        "COP",
    ) || same_text(code, "CZK") || same_text(code, "DKK") || same_text(code, "EUR") || same_text(
        code,
        "GBP",
    ) || same_text(code, "HKD") || same_text(code, "HUF") || same_text(code, "IDR") || same_text(
        code,
        "ILS",
    ) || same_text(code, "INR") || same_text(code, "MXN") || same_text(code, "MYR") || same_text(
        code,
        "NOK",
    ) || same_text(code, "NZD") || same_text(code, "PHP") || same_text(code, "PLN") || same_text(
        code,
        "RON",
    ) || same_text(code, "SAR") || same_text(code, "SEK") || same_text(code, "SGD") || same_text(
        code,
        "THB",
    ) || same_text(code, "TRY") || same_text(code, "TWD") || same_text(code, "USD") || same_text(
        code,
        "ZAR",
    ) {
        Some(2)
    } else {
        None
    }
}

/// Three ASCII letters.
pub open spec fn is_code(code: Seq<char>) -> bool {
    code.len() == 3 && forall|i: int| 0 <= i < 3 ==> is_ascii_letter(#[trigger] code[i])
}

/// Ten to a small power.
pub open spec fn power_of_ten(exponent: nat) -> nat
    decreases exponent,
{
    if exponent == 0 {
        1
    } else {
        10 * power_of_ten((exponent - 1) as nat)
    }
}

impl Currency {
    /// The three-letter alphabetic code.
    pub open spec fn letters(self) -> Seq<char> {
        match self {
            Currency::USD => "USD"@,
            Currency::EUR => "EUR"@,
            Currency::GBP => "GBP"@,
            Currency::JPY => "JPY"@,
            Currency::CAD => "CAD"@,
            Currency::AUD => "AUD"@,
            Currency::CHF => "CHF"@,
            Currency::SEK => "SEK"@,
            Currency::NOK => "NOK"@,
            Currency::DKK => "DKK"@,
            Currency::Other(other) => other.letters(),
        }
    }

    /// Decimal digits in the minor unit.
    pub open spec fn digits(self) -> u8 {
        match self {
            Currency::JPY => 0,
            Currency::Other(other) => other.digits(),
            _ => 2,
        }
    }

    /// Minor units in one major unit.
    pub open spec fn factor(self) -> nat {
        power_of_ten(self.digits() as nat)
    }

    /// A named variant stands for its code and exponent: no other value does.
    pub open spec fn canonical(self) -> bool {
        self matches Currency::Other(other) ==> {
            let code = other.letters();
            &&& is_code(code)
            &&& forall|i: int| 0 <= i < 3 ==> is_ascii_upper(#[trigger] code[i])
            &&& other.digits() <= 4
            &&& !(other.digits() == 0 && code == "JPY"@)
            &&& !(other.digits() == 2 && (code == "USD"@ || code == "EUR"@ || code == "GBP"@
                || code == "CAD"@ || code == "AUD"@ || code == "CHF"@ || code == "SEK"@ || code
                == "NOK"@ || code == "DKK"@))
        }
    }

    fn make(code: &String, exponent: u8) -> (currency: Self)
        requires
            is_code(code@),
            forall|i: int| 0 <= i < 3 ==> is_ascii_upper(#[trigger] code@[i]),
            exponent <= 4,
        ensures
            currency.letters() == code@,
            currency.digits() == exponent,
            currency.canonical(),
    {
        if exponent == 0 && same_text(code, "JPY") {
            return Currency::JPY;
        }
        if exponent == 2 {
            if same_text(code, "USD") {
                return Currency::USD;
            }
            if same_text(code, "EUR") {
                return Currency::EUR;
            }
            if same_text(code, "GBP") {
                return Currency::GBP;
            }
            if same_text(code, "CAD") {
                return Currency::CAD;
            }
            if same_text(code, "AUD") {
                return Currency::AUD;
            }
            if same_text(code, "CHF") {
                return Currency::CHF;
            }
            if same_text(code, "SEK") {
                return Currency::SEK;
            }
            if same_text(code, "NOK") {
                return Currency::NOK;
            }
            if same_text(code, "DKK") {
                return Currency::DKK;
            }
        }
        let chars = chars_of(code);
        let other = OtherCurrency {
            first: chars[0],
            second: chars[1],
            third: chars[2],
            exponent,
        };
        assert(other.letters() =~= code@);
        Currency::Other(other)
    }

    /// What [`Currency::from_code`] returns.
    pub open spec fn lookup(code: Seq<char>) -> Result<(Seq<char>, u8), ErrorView> {
        if !is_code(code) {
            Err(ErrorView::UnknownCurrency(code))
        } else {
            match known_exponent(upper(code)) {
                Some(exponent) => Ok((upper(code), exponent)),
                None => Err(ErrorView::UnknownCurrency(upper(code))),
            }
        }
    }

    /// Whether a currency has a code and an exponent.
    pub open spec fn is_named(self, letters: Seq<char>, digits: u8) -> bool {
        self.canonical() && self.letters() == letters && self.digits() == digits
    }

    /// The currency with a code, or why there is none.
    pub open spec fn of_code(code: Seq<char>) -> Result<Currency, ErrorView> {
        match Currency::lookup(code) {
            Ok((letters, digits)) => Ok(
                choose|currency: Currency| #[trigger] currency.is_named(letters, digits),
            ),
            Err(error) => Err(error),
        }
    }

    /// Look up a currency by its alphabetic code, using the built-in exponent table.
    pub fn from_code(code: &str) -> (currency: Result<Self, Error>)
        ensures
            outcome(currency) == Currency::of_code(code@),
            match currency {
                Ok(found) => Currency::lookup(code@) == Ok::<(Seq<char>, u8), ErrorView>(
                    (found.letters(), found.digits()),
                ) && found.canonical(),
                Err(error) => Currency::lookup(code@) == Err::<(Seq<char>, u8), ErrorView>(error@),
            },
    {
        let folded = match normalise(code) {
            Ok(folded) => folded,
            Err(error) => return Err(error),
        };
        match lookup_exponent(&folded) {
            Some(exponent) => {
                let currency = Currency::make(&folded, exponent);
                proof {
                    assert(currency.is_named(folded@, exponent));
                    let chosen = Currency::of_code(code@)->Ok_0;
                    assert(chosen.is_named(folded@, exponent));
                    law_currency_is_its_code_and_exponent(currency, chosen);
                }
                Ok(currency)
            },
            None => Err(Error::UnknownCurrency(folded)),
        }
    }

    /// Construct a currency with an explicit exponent, for codes outside the table.
    pub fn new(code: &str, exponent: u8) -> (currency: Result<Self, Error>)
        ensures
            match currency {
                Ok(made) => {
                    &&& exponent <= 4
                    &&& is_code(code@)
                    &&& made.letters() == upper(code@)
                    &&& made.digits() == exponent
                    &&& made.canonical()
                },
                Err(error) => if exponent > 4 {
                    error@ == ErrorView::Money("currency exponent must be <= 4"@)
                } else {
                    !is_code(code@) && error@ == ErrorView::UnknownCurrency(code@)
                },
            },
    {
        if exponent > 4 {
            return Err(Error::money("currency exponent must be <= 4"));
        }
        match normalise(code) {
            Ok(code) => Ok(Currency::make(&code, exponent)),
            Err(error) => Err(error),
        }
    }

    /// The three-letter alphabetic code.
    pub fn code(&self) -> (code: String)
        ensures
            code@ == self.letters(),
    {
        match self {
            Currency::USD => "USD".to_owned(),
            Currency::EUR => "EUR".to_owned(),
            Currency::GBP => "GBP".to_owned(),
            Currency::JPY => "JPY".to_owned(),
            Currency::CAD => "CAD".to_owned(),
            Currency::AUD => "AUD".to_owned(),
            Currency::CHF => "CHF".to_owned(),
            Currency::SEK => "SEK".to_owned(),
            Currency::NOK => "NOK".to_owned(),
            Currency::DKK => "DKK".to_owned(),
            Currency::Other(other) => {
                let mut code = String::new();
                code.push(other.first);
                code.push(other.second);
                code.push(other.third);
                assert(code@ =~= other.letters());
                code
            },
        }
    }

    /// Number of decimal digits in the minor unit (2 for `USD`, 0 for `JPY`).
    pub fn exponent(&self) -> (exponent: u8)
        ensures
            exponent == self.digits(),
            exponent <= 4,
    {
        match self {
            Currency::JPY => 0,
            Currency::Other(other) => {
                proof {
                    use_type_invariant(other);
                }
                other.exponent
            },
            _ => 2,
        }
    }

    /// Minor units in one major unit (100 for `USD`, 1 for `JPY`).
    pub fn minor_units_per_major(&self) -> (units: u32)
        ensures
            units == self.factor(),
            1 <= units <= 10_000,
    {
        let exponent = self.exponent();
        proof {
            reveal_with_fuel(power_of_ten, 5);
        }
        if exponent == 0 {
            1
        } else if exponent == 1 {
            10
        } else if exponent == 2 {
            100
        } else if exponent == 3 {
            1_000
        } else {
            10_000
        }
    }
}

/// Capital letters of a code, or an error when it is not three ASCII letters.
fn normalise(code: &str) -> (letters: Result<String, Error>)
    ensures
        match letters {
            Ok(text) => is_code(code@) && text@ == upper(code@) && is_code(text@) && (forall|
                i: int,
            |
                0 <= i < 3 ==> is_ascii_upper(#[trigger] text@[i])),
            Err(error) => !is_code(code@) && error@ == ErrorView::UnknownCurrency(code@),
        },
{
    let chars = chars_of(code);
    if chars.len() != 3 {
        return Err(Error::UnknownCurrency(code.to_owned()));
    }
    let mut i: usize = 0;
    while i < 3
        invariant
            i <= 3,
            chars@ == code@,
            chars@.len() == 3,
            forall|j: int| 0 <= j < i ==> is_ascii_letter(#[trigger] chars@[j]),
        decreases 3 - i,
    {
        let c = chars[i];
        if !(('A' <= c && c <= 'Z') || ('a' <= c && c <= 'z')) {
            assert(!is_ascii_letter(code@[i as int]));
            return Err(Error::UnknownCurrency(code.to_owned()));
        }
        i += 1;
    }
    let text = to_upper(code);
    proof {
        assert forall|i: int| 0 <= i < 3 implies is_ascii_upper(#[trigger] text@[i]) by {
            assert(is_ascii_letter(code@[i]));
            assert(text@[i] == upper_char(code@[i]));
        }
    }
    Ok(text)
}

/// Currencies with the same code and exponent are the same currency.
pub proof fn law_currency_is_its_code_and_exponent(a: Currency, b: Currency)
    requires
        a.canonical(),
        b.canonical(),
        a.letters() == b.letters(),
        a.digits() == b.digits(),
    ensures
        a == b,
{
    lemma_named_codes();
    if a is Other && b is Other {
        let x = a->Other_0;
        let y = b->Other_0;
        assert(x.letters()[0] == y.letters()[0]);
        assert(x.letters()[1] == y.letters()[1]);
        assert(x.letters()[2] == y.letters()[2]);
    }
}

proof fn lemma_named_codes()
    ensures
        "USD"@ =~= seq!['U', 'S', 'D'],
        "EUR"@ =~= seq!['E', 'U', 'R'],
        "GBP"@ =~= seq!['G', 'B', 'P'],
        "JPY"@ =~= seq!['J', 'P', 'Y'],
        "CAD"@ =~= seq!['C', 'A', 'D'],
        "AUD"@ =~= seq!['A', 'U', 'D'],
        "CHF"@ =~= seq!['C', 'H', 'F'],
        "SEK"@ =~= seq!['S', 'E', 'K'],
        "NOK"@ =~= seq!['N', 'O', 'K'],
        "DKK"@ =~= seq!['D', 'K', 'K'],
        "USD"@[0] == 'U',
        "EUR"@[0] == 'E',
        "GBP"@[0] == 'G',
        "JPY"@[0] == 'J',
        "CAD"@[1] == 'A',
        "AUD"@[0] == 'A',
        "CHF"@[1] == 'H',
        "CAD"@[0] == 'C',
        "CHF"@[0] == 'C',
        "SEK"@[0] == 'S',
        "NOK"@[0] == 'N',
        "DKK"@[0] == 'D',
{
    reveal_strlit("USD");
    reveal_strlit("EUR");
    reveal_strlit("GBP");
    reveal_strlit("JPY");
    reveal_strlit("CAD");
    reveal_strlit("AUD");
    reveal_strlit("CHF");
    reveal_strlit("SEK");
    reveal_strlit("NOK");
    reveal_strlit("DKK");
}

/// A currency's code is case-insensitive: small and capital letters look up the same.
pub proof fn law_lookup_ignores_case(code: Seq<char>)
    ensures
        is_code(code) ==> Currency::lookup(upper(code)) == Currency::lookup(code),
{
    if is_code(code) {
        let folded = upper(code);
        assert forall|i: int| 0 <= i < 3 implies is_ascii_letter(#[trigger] folded[i]) by {
            assert(is_ascii_letter(code[i]));
        }
        assert(upper(folded) =~= folded) by {
            assert forall|i: int| 0 <= i < 3 implies upper_char(#[trigger] folded[i])
                == folded[i] by {
                assert(is_ascii_letter(code[i]));
            }
        }
    }
}

/// A major unit is ten minor units for each decimal place of the currency.
pub proof fn law_minor_units_per_major(currency: Currency)
    ensures
        currency.digits() == 0 ==> currency.factor() == 1,
        currency.digits() == 1 ==> currency.factor() == 10,
        currency.digits() == 2 ==> currency.factor() == 100,
        currency.digits() == 3 ==> currency.factor() == 1_000,
        currency.digits() == 4 ==> currency.factor() == 10_000,
        currency.factor() >= 1,
{
    reveal_with_fuel(power_of_ten, 5);
    lemma_power_is_positive(currency.digits() as nat);
}

proof fn lemma_power_is_positive(exponent: nat)
    ensures
        power_of_ten(exponent) >= 1,
    decreases exponent,
{
    if exponent > 0 {
        lemma_power_is_positive((exponent - 1) as nat);
    }
}

/// Of the currencies with a name of their own the yen has no minor unit, and each other has
/// a hundred to the major one.
pub proof fn law_named_currencies_have_cents(currency: Currency)
    ensures
        !(currency is Other) ==> (currency.digits() == 0 <==> currency is JPY),
        !(currency is Other) && !(currency is JPY) ==> currency.factor() == 100,
        currency is JPY ==> currency.factor() == 1,
{
    reveal_with_fuel(power_of_ten, 3);
}

/// Of the codes that are known, the dinars and the rial have thousandths, five more have no
/// minor unit, and all others have hundredths.
pub proof fn law_known_codes_have_their_minor_units(code: Seq<char>)
    ensures
        known_exponent(code) == Some(3u8) <==> (code == "BHD"@ || code == "JOD"@ || code == "KWD"@
            || code == "OMR"@ || code == "TND"@),
        known_exponent(code) == Some(0u8) <==> (code == "CLP"@ || code == "ISK"@ || code == "JPY"@
            || code == "KRW"@ || code == "VND"@),
        known_exponent(code) is Some ==> known_exponent(code)->Some_0 == 0 || known_exponent(
            code,
        )->Some_0 == 2 || known_exponent(code)->Some_0 == 3,
{
    reveal_strlit("BHD");
    reveal_strlit("JOD");
    reveal_strlit("KWD");
    reveal_strlit("OMR");
    reveal_strlit("TND");
    reveal_strlit("CLP");
    reveal_strlit("ISK");
    reveal_strlit("JPY");
    reveal_strlit("KRW");
    reveal_strlit("VND");
    assert("BHD"@[0] == 'B' && "JOD"@[0] == 'J' && "KWD"@[0] == 'K' && "OMR"@[0] == 'O'
        && "TND"@[0] == 'T');
    assert("CLP"@[0] == 'C' && "ISK"@[0] == 'I' && "JPY"@[0] == 'J' && "KRW"@[0] == 'K'
        && "VND"@[0] == 'V');
    assert("JOD"@[1] == 'O' && "JPY"@[1] == 'P' && "KWD"@[1] == 'W' && "KRW"@[1] == 'R');
}

} // verus!
