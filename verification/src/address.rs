//! Postal addresses and tax jurisdictions.

use vstd::prelude::*;

use crate::error::{Error, ErrorView};
use crate::text::{
    chars_of, equal_ignoring_case, is_ascii_letter, is_ascii_upper, join3, optional_text,
    same_ignoring_case, same_optional_text, same_text, to_upper, upper, upper_char,
};

verus! {

/// A country outside the named ones.
///
/// Only [`CountryCode::new`] makes one, and never for a code that a named variant
/// stands for.
#[derive(Debug, Clone, Copy, PartialEq, Eq, Hash, Structural)]
pub struct OtherCountry {
    first: char,
    second: char,
}

impl OtherCountry {
    /// The two letters.
    pub closed spec fn letters(self) -> Seq<char> {
        seq![self.first, self.second]
    }
}

/// An ISO-3166-1 alpha-2 country code.
#[derive(Debug, Clone, Copy, PartialEq, Eq, Hash, Structural)]
pub enum CountryCode {
    /// The United States.
    US,
    /// Germany.
    DE,
    /// The United Kingdom.
    GB,
    /// Japan.
    JP,
    /// Any other country.
    Other(OtherCountry),
}

/// Two ASCII letters.
pub open spec fn is_country_code(code: Seq<char>) -> bool {
    code.len() == 2 && is_ascii_letter(code[0]) && is_ascii_letter(code[1])
}

impl CountryCode {
    /// The two capital letters.
    pub open spec fn letters(self) -> Seq<char> {
        match self {
            CountryCode::US => "US"@,
            CountryCode::DE => "DE"@,
            CountryCode::GB => "GB"@,
            CountryCode::JP => "JP"@,
            CountryCode::Other(other) => other.letters(),
        }
    }

    /// A named variant stands for its code: no other value does.
    pub open spec fn canonical(self) -> bool {
        self matches CountryCode::Other(other) ==> {
            let code = other.letters();
            &&& code.len() == 2
            &&& is_ascii_upper(code[0])
            &&& is_ascii_upper(code[1])
            &&& code != "US"@
            &&& code != "DE"@
            &&& code != "GB"@
            &&& code != "JP"@
        }
    }

    /// Parse and normalise a country code.
    pub fn new(code: &str) -> (country: Result<Self, Error>)
        ensures
            match country {
                Ok(made) => is_country_code(code@) && made.letters() == upper(code@)
                    && made.canonical(),
                Err(error) => !is_country_code(code@) && error@ == ErrorView::Validation(
                    "invalid country code '"@ + code@ + "'"@,
                ),
            },
    {
        let chars = chars_of(code);
        if chars.len() != 2 || !is_letter(chars[0]) || !is_letter(chars[1]) {
            return Err(Error::validation(join3("invalid country code '", code, "'").as_str()));
        }
        let letters = to_upper(code);
        let folded = chars_of(letters.as_str());
        assert(folded@[0] == upper_char(code@[0]));
        assert(folded@[1] == upper_char(code@[1]));
        if same_text(letters.as_str(), "US") {
            return Ok(CountryCode::US);
        }
        if same_text(letters.as_str(), "DE") {
            return Ok(CountryCode::DE);
        }
        if same_text(letters.as_str(), "GB") {
            return Ok(CountryCode::GB);
        }
        if same_text(letters.as_str(), "JP") {
            return Ok(CountryCode::JP);
        }
        let other = OtherCountry { first: folded[0], second: folded[1] };
        assert(other.letters() =~= letters@);
        Ok(CountryCode::Other(other))
    }

    /// The code as text.
    pub fn as_str(&self) -> (code: String)
        ensures
            code@ == self.letters(),
    {
        match self {
            CountryCode::US => "US".to_owned(),
            CountryCode::DE => "DE".to_owned(),
            CountryCode::GB => "GB".to_owned(),
            CountryCode::JP => "JP".to_owned(),
            CountryCode::Other(other) => {
                let mut code = String::new();
                code.push(other.first);
                code.push(other.second);
                assert(code@ =~= other.letters());
                code
            },
        }
    }
}

impl Default for CountryCode {
    fn default() -> (country: Self)
        ensures
            country == CountryCode::US,
    {
        CountryCode::US
    }
}

fn is_letter(c: char) -> (letter: bool)
    ensures
        letter == is_ascii_letter(c),
{
    ('A' <= c && c <= 'Z') || ('a' <= c && c <= 'z')
}

/// Countries with the same code are the same country.
pub proof fn law_country_is_its_code(a: CountryCode, b: CountryCode)
    requires
        a.canonical(),
        b.canonical(),
        a.letters() == b.letters(),
    ensures
        a == b,
{
    reveal_strlit("US");
    reveal_strlit("DE");
    reveal_strlit("GB");
    reveal_strlit("JP");
    assert("US"@[0] == 'U' && "DE"@[0] == 'D' && "GB"@[0] == 'G' && "JP"@[0] == 'J');
    if a is Other && b is Other {
        assert(a->Other_0.letters()[0] == b->Other_0.letters()[0]);
        assert(a->Other_0.letters()[1] == b->Other_0.letters()[1]);
    }
}

/// A postal address. Only the fields that matter for tax and shipping are
/// modelled; anything else belongs in `metadata` on the owning entity.
#[derive(Debug, PartialEq, Eq, Hash)]
pub struct Address {
    /// Recipient or business name.
    pub name: Option<String>,
    /// First address line.
    pub line1: Option<String>,
    /// Second address line.
    pub line2: Option<String>,
    /// City / locality.
    pub city: Option<String>,
    /// State, province or region code (e.g. `"CA"`, `"NSW"`).
    pub region: Option<String>,
    /// Postal or ZIP code.
    pub postal_code: Option<String>,
    /// ISO-3166-1 alpha-2 country code, uppercase.
    pub country: CountryCode,
}

/// An address, its texts as characters.
pub ghost struct AddressView {
    /// Recipient or business name.
    pub name: Option<Seq<char>>,
    /// First address line.
    pub line1: Option<Seq<char>>,
    /// Second address line.
    pub line2: Option<Seq<char>>,
    /// City / locality.
    pub city: Option<Seq<char>>,
    /// State, province or region code.
    pub region: Option<Seq<char>>,
    /// Postal or ZIP code.
    pub postal_code: Option<Seq<char>>,
    /// Country code.
    pub country: CountryCode,
}

impl View for Address {
    type V = AddressView;

    open spec fn view(&self) -> AddressView {
        AddressView {
            name: optional_text(self.name),
            line1: optional_text(self.line1),
            line2: optional_text(self.line2),
            city: optional_text(self.city),
            region: optional_text(self.region),
            postal_code: optional_text(self.postal_code),
            country: self.country,
        }
    }
}

/// An optional address, its texts as characters.
pub open spec fn optional_address(address: Option<Address>) -> Option<AddressView> {
    match address {
        Some(value) => Some(value@),
        None => None,
    }
}

/// Whether two optional addresses are both absent, or present with the same texts.
pub fn same_optional_address(a: &Option<Address>, b: &Option<Address>) -> (same: bool)
    ensures
        same == (optional_address(*a) == optional_address(*b)),
{
    match (a, b) {
        (Some(left), Some(right)) => left.same(right),
        (None, None) => true,
        _ => false,
    }
}

impl Clone for Address {
    fn clone(&self) -> (address: Self)
        ensures
            address == *self,
    {
        Address {
            name: self.name.clone(),
            line1: self.line1.clone(),
            line2: self.line2.clone(),
            city: self.city.clone(),
            region: self.region.clone(),
            postal_code: self.postal_code.clone(),
            country: self.country,
        }
    }
}

impl Default for Address {
    fn default() -> (address: Self)
        ensures
            address == (Address {
                name: None,
                line1: None,
                line2: None,
                city: None,
                region: None,
                postal_code: None,
                country: CountryCode::US,
            }),
    {
        Self::new(CountryCode::default())
    }
}

impl Address {
    /// Whether two addresses have the same texts and country.
    pub fn same(&self, other: &Self) -> (same: bool)
        ensures
            same == (self@ == other@),
    {
        same_optional_text(&self.name, &other.name) && same_optional_text(
            &self.line1,
            &other.line1,
        ) && same_optional_text(&self.line2, &other.line2) && same_optional_text(
            &self.city,
            &other.city,
        ) && same_optional_text(&self.region, &other.region) && same_optional_text(
            &self.postal_code,
            &other.postal_code,
        ) && self.country == other.country
    }

    /// Minimal constructor for the fields tax calculation needs.
    pub fn new(country: CountryCode) -> (address: Self)
        ensures
            address == (Address {
                name: None,
                line1: None,
                line2: None,
                city: None,
                region: None,
                postal_code: None,
                country,
            }),
    {
        Address {
            name: None,
            line1: None,
            line2: None,
            city: None,
            region: None,
            postal_code: None,
            country,
        }
    }

    /// Builder: set the region.
    pub fn with_region(self, region: &str) -> (address: Self)
        ensures
            optional_text(address.region) == Some(region@),
            address == (Address { region: address.region, ..self }),
    {
        Address { region: Some(region.to_owned()), ..self }
    }

    /// Builder: set the postal code.
    pub fn with_postal_code(self, postal_code: &str) -> (address: Self)
        ensures
            optional_text(address.postal_code) == Some(postal_code@),
            address == (Address { postal_code: address.postal_code, ..self }),
    {
        Address { postal_code: Some(postal_code.to_owned()), ..self }
    }

    /// Builder: set the city.
    pub fn with_city(self, city: &str) -> (address: Self)
        ensures
            optional_text(address.city) == Some(city@),
            address == (Address { city: address.city, ..self }),
    {
        Address { city: Some(city.to_owned()), ..self }
    }

    /// Builder: set the first address line.
    pub fn with_line1(self, line1: &str) -> (address: Self)
        ensures
            optional_text(address.line1) == Some(line1@),
            address == (Address { line1: address.line1, ..self }),
    {
        Address { line1: Some(line1.to_owned()), ..self }
    }

    /// The tax jurisdiction implied by this address.
    pub open spec fn place(self) -> Jurisdiction {
        Jurisdiction {
            country: self.country,
            region: self.region,
            postal_code: self.postal_code,
        }
    }

    /// The tax jurisdiction implied by this address.
    pub fn jurisdiction(&self) -> (jurisdiction: Jurisdiction)
        ensures
            jurisdiction == self.place(),
    {
        Jurisdiction {
            country: self.country,
            region: self.region.clone(),
            postal_code: self.postal_code.clone(),
        }
    }
}

/// Where a taxable supply takes place.
#[derive(Debug, PartialEq, Eq, Hash)]
pub struct Jurisdiction {
    /// Country of supply.
    pub country: CountryCode,
    /// State / province, when the country has sub-national tax.
    pub region: Option<String>,
    /// Postal code, for local district taxes.
    pub postal_code: Option<String>,
}

impl Clone for Jurisdiction {
    fn clone(&self) -> (jurisdiction: Self)
        ensures
            jurisdiction == *self,
    {
        Jurisdiction {
            country: self.country,
            region: self.region.clone(),
            postal_code: self.postal_code.clone(),
        }
    }
}

/// Whether a field that a rule may leave open admits what an address holds.
pub open spec fn admits(rule: Option<String>, target: Option<String>) -> bool {
    match rule {
        Some(wanted) => target matches Some(actual) && same_ignoring_case(actual@, wanted@),
        None => true,
    }
}

fn check_admits(rule: &Option<String>, target: &Option<String>) -> (admitted: bool)
    ensures
        admitted == admits(*rule, *target),
{
    match rule {
        Some(wanted) => match target {
            Some(actual) => equal_ignoring_case(actual.as_str(), wanted.as_str()),
            None => false,
        },
        None => true,
    }
}

impl Jurisdiction {
    /// Whether `self` (a rule) applies to `target` (an address): every field that the
    /// rule specifies matches, whatever the case of its letters.
    pub open spec fn covers(self, target: Jurisdiction) -> bool {
        &&& self.country == target.country
        &&& admits(self.region, target.region)
        &&& admits(self.postal_code, target.postal_code)
    }

    /// How deep the jurisdiction reaches: a country, a region of it, or a postal code
    /// there, whether or not its region is named too.
    pub open spec fn depth(self) -> u8 {
        if self.postal_code is Some {
            3
        } else if self.region is Some {
            2
        } else {
            1
        }
    }

    /// The jurisdiction as text, as in `US-CA/94107`.
    pub open spec fn text(self) -> Seq<char> {
        self.country.letters() + (match self.region {
            Some(region) => "-"@ + region@,
            None => Seq::<char>::empty(),
        }) + (match self.postal_code {
            Some(postal) => "/"@ + postal@,
            None => Seq::<char>::empty(),
        })
    }

    /// A country-level jurisdiction.
    pub fn country(country: CountryCode) -> (jurisdiction: Self)
        ensures
            jurisdiction == (Jurisdiction { country, region: None, postal_code: None }),
    {
        Jurisdiction { country, region: None, postal_code: None }
    }

    /// A country + region jurisdiction.
    pub fn region(country: CountryCode, region: &str) -> (jurisdiction: Self)
        ensures
            jurisdiction.country == country,
            optional_text(jurisdiction.region) == Some(region@),
            jurisdiction.postal_code is None,
    {
        Jurisdiction { country, region: Some(region.to_owned()), postal_code: None }
    }

    /// How specific this jurisdiction is: higher wins when matching rules.
    pub fn specificity(&self) -> (depth: u8)
        ensures
            depth == self.depth(),
    {
        if self.postal_code.is_some() {
            3
        } else if self.region.is_some() {
            2
        } else {
            1
        }
    }

    /// Whether `self` (a rule) applies to `target` (an address).
    pub fn matches(&self, target: &Jurisdiction) -> (matched: bool)
        ensures
            matched == self.covers(*target),
    {
        self.country == target.country && check_admits(&self.region, &target.region)
            && check_admits(&self.postal_code, &target.postal_code)
    }

    /// The jurisdiction as text, as in `US-CA/94107`.
    pub fn to_text(&self) -> (text: String)
        ensures
            text@ == self.text(),
    {
        let mut text = self.country.as_str();
        match &self.region {
            Some(region) => {
                text.append("-");
                text.append(region.as_str());
            },
            None => {},
        }
        match &self.postal_code {
            Some(postal) => {
                text.append("/");
                text.append(postal.as_str());
            },
            None => {},
        }
        assert(text@ =~= self.text());
        text
    }
}

/// Matching is hierarchical: a rule that drops a field of one that applies still
/// applies, a country alone applies to every address in it, and an address lies in
/// its own jurisdiction.
pub proof fn law_matching_is_hierarchical(rule: Jurisdiction, target: Jurisdiction)
    ensures
        rule.covers(target) ==> (Jurisdiction { postal_code: None, ..rule }).covers(target),
        rule.covers(target) ==> (Jurisdiction { region: None, ..rule }).covers(target),
        (Jurisdiction { country: target.country, region: None, postal_code: None }).covers(target),
        target.covers(target),
        rule.country != target.country ==> !rule.covers(target),
{
}

/// A postal code is more specific than a region, and a region than a country, whether
/// or not the jurisdiction with the postal code names a region too.
pub proof fn law_deeper_jurisdictions_are_more_specific(
    postal: Jurisdiction,
    region: Jurisdiction,
    country: Jurisdiction,
)
    requires
        postal.postal_code is Some,
        region.postal_code is None,
        region.region is Some,
        country.postal_code is None,
        country.region is None,
    ensures
        postal.depth() > region.depth(),
        region.depth() > country.depth(),
{
}

/// A jurisdiction covers another exactly when the country is the same and each part that it
/// names is named there too, whatever the case of the letters.
pub proof fn law_jurisdictions_cover_what_they_name(rule: Jurisdiction, target: Jurisdiction)
    ensures
        rule.covers(target) <==> {
            &&& rule.country == target.country
            &&& rule.region is Some ==> target.region is Some && same_ignoring_case(
                rule.region->Some_0@,
                target.region->Some_0@,
            )
            &&& rule.postal_code is Some ==> target.postal_code is Some && same_ignoring_case(
                rule.postal_code->Some_0@,
                target.postal_code->Some_0@,
            )
        },
{
}

/// An address lies in its own country, region and postal code.
pub proof fn law_addresses_lie_where_they_say(address: Address)
    ensures
        address.place().country == address.country,
        address.place().region == address.region,
        address.place().postal_code == address.postal_code,
        address.place().covers(address.place()),
{
}

} // verus!
