//! Stored payment instruments — tokens only, never card data.
//!
//! A [`PaymentMethodRef`] is a *reference* to an instrument that lives inside
//! the gateway's vault. The only card-derived data kept here is what a shopper
//! needs to recognise the card in a list (brand, last four digits, expiry) —
//! none of which is cardholder data under PCI DSS.

use vstd::prelude::*;

use crate::address::Address;
use crate::error::{outcome, DeclineCode, Error, ErrorView};
use crate::gateway::GatewayId;
use crate::ids::{is_generated, CustomerId, PaymentMethodId};
use crate::text::{
    all_digits, chars_of, digits, integer_text, is_ascii_digit, join, join3, optional_text,
    push_digits, signed_to_text,
};
use crate::time::Timestamp;
use crate::Metadata;

verus! {

/// The family of instrument behind a token.
#[derive(Debug, Clone, PartialEq, Eq)]
pub enum PaymentMethodKind {
    /// A credit or debit card.
    Card(CardSummary),
    /// A bank debit / transfer scheme (SEPA, ACH, BACS…).
    BankAccount {
        /// Scheme name, e.g. `"sepa_debit"`.
        scheme: String,
        /// Last digits of the account number, for display only.
        last4: String,
        /// Account holder's country.
        country: Option<String>,
    },
    /// A wallet such as Apple Pay, Google Pay or PayPal.
    Wallet {
        /// Wallet provider identifier.
        provider: String,
    },
    /// Buy-now-pay-later.
    BuyNowPayLater {
        /// Provider identifier.
        provider: String,
    },
    /// Anything the adapter cannot classify.
    Other {
        /// Provider's own type string.
        provider_type: String,
    },
}

impl PaymentMethodKind {
    /// A short label for receipts, e.g. `"Visa •••• 4242"`.
    pub open spec fn label(self) -> Seq<char> {
        match self {
            PaymentMethodKind::Card(card) => card.brand@ + " •••• "@ + card.last4@,
            PaymentMethodKind::BankAccount { scheme, last4, .. } => scheme@ + " •••• "@ + last4@,
            PaymentMethodKind::Wallet { provider } => provider@,
            PaymentMethodKind::BuyNowPayLater { provider } => provider@,
            PaymentMethodKind::Other { provider_type } => provider_type@,
        }
    }

    /// A short label for receipts, e.g. `"Visa •••• 4242"`.
    pub fn display_label(&self) -> (label: String)
        ensures
            label@ == self.label(),
    {
        match self {
            PaymentMethodKind::Card(card) => join3(
                card.brand.as_str(),
                " •••• ",
                card.last4.as_str(),
            ),
            PaymentMethodKind::BankAccount { scheme, last4, .. } => join3(
                scheme.as_str(),
                " •••• ",
                last4.as_str(),
            ),
            PaymentMethodKind::Wallet { provider } => provider.clone(),
            PaymentMethodKind::BuyNowPayLater { provider } => provider.clone(),
            PaymentMethodKind::Other { provider_type } => provider_type.clone(),
        }
    }
}

/// Whether a year of the proleptic Gregorian calendar has a 29th of February.
pub open spec fn is_leap(year: int) -> bool {
    year % 4 == 0 && (year % 100 != 0 || year % 400 == 0)
}

/// The days from the start of 1970 to the start of a year.
pub open spec fn days_to_year(year: int) -> int {
    let past = year - 1;
    365 * past + past / 4 - past / 100 + past / 400 - 719_162
}

/// The days from the start of a year to the start of one of its months; the thirteenth
/// stands for the start of the next year.
pub open spec fn days_to_month(year: int, month: int) -> int {
    let common = seq![0int, 31, 59, 90, 120, 151, 181, 212, 243, 273, 304, 334, 365];
    common[month - 1] + if month > 2 && is_leap(year) {
        1int
    } else {
        0int
    }
}

/// The second since the Unix epoch at which a month begins, in UTC.
pub open spec fn month_start(year: int, month: int) -> int {
    (days_to_year(year) + days_to_month(year, month)) * 86_400
}

/// Whether a second since the Unix epoch lies in a month of a year, in UTC.
pub open spec fn in_month(second: int, year: int, month: int) -> bool {
    &&& 1 <= month <= 12
    &&& month_start(year, month) <= second < month_start(year, month + 1)
}

/// The year and the month of a second since the Unix epoch, in UTC.
pub open spec fn civil_month(second: int) -> (int, int) {
    choose|year: int, month: int| in_month(second, year, month)
}

proof fn lemma_year_length(year: int)
    ensures
        days_to_year(year + 1) == days_to_year(year) + days_to_month(year, 13),
{
}

proof fn lemma_years_are_ordered(earlier: int, later: int)
    requires
        earlier <= later,
    ensures
        days_to_year(earlier) <= days_to_year(later),
    decreases later - earlier,
{
    if earlier < later {
        lemma_years_are_ordered(earlier, later - 1);
        lemma_year_length(later - 1);
    }
}

proof fn lemma_months_are_ordered(year: int, earlier: int, later: int)
    requires
        1 <= earlier <= later <= 13,
    ensures
        days_to_month(year, earlier) <= days_to_month(year, later),
        earlier < later ==> days_to_month(year, earlier) < days_to_month(year, later),
{
}

proof fn lemma_in_year(second: int, year: int, month: int)
    requires
        in_month(second, year, month),
    ensures
        days_to_year(year) * 86_400 <= second < days_to_year(year + 1) * 86_400,
{
    lemma_months_are_ordered(year, 1, month);
    lemma_months_are_ordered(year, month + 1, 13);
    lemma_year_length(year);
}

/// A second lies in one month only.
pub proof fn law_months_do_not_overlap(
    second: int,
    year: int,
    month: int,
    other_year: int,
    other_month: int,
)
    requires
        in_month(second, year, month),
        in_month(second, other_year, other_month),
    ensures
        year == other_year,
        month == other_month,
        civil_month(second) == (year, month),
{
    let (chosen_year, chosen_month) = civil_month(second);
    lemma_same_month(second, year, month, other_year, other_month);
    lemma_same_month(second, year, month, chosen_year, chosen_month);
}

proof fn lemma_civil_month(second: int, year: int, month: int)
    requires
        in_month(second, year, month),
    ensures
        civil_month(second) == (year, month),
{
    law_months_do_not_overlap(second, year, month, year, month);
}

proof fn lemma_same_month(
    second: int,
    year: int,
    month: int,
    other_year: int,
    other_month: int,
)
    requires
        in_month(second, year, month),
        in_month(second, other_year, other_month),
    ensures
        year == other_year,
        month == other_month,
{
    lemma_in_year(second, year, month);
    lemma_in_year(second, other_year, other_month);
    if year < other_year {
        lemma_years_are_ordered(year + 1, other_year);
    } else if other_year < year {
        lemma_years_are_ordered(other_year + 1, year);
    } else if month < other_month {
        lemma_months_are_ordered(year, month + 1, other_month);
    } else if other_month < month {
        lemma_months_are_ordered(year, other_month + 1, month);
    }
}

/// A card is good through the last second of its expiry month, and expired from the next
/// one on.
pub proof fn law_cards_last_through_their_month(
    card: CardSummary,
    second: int,
    year: int,
    month: int,
)
    requires
        1 <= card.exp_month <= 12,
        in_month(second, year, month),
    ensures
        card.lapsed(civil_month(second).0, civil_month(second).1) <==> month_start(
            card.exp_year as int,
            card.exp_month + 1,
        ) <= second,
{
    law_months_do_not_overlap(second, year, month, year, month);
    lemma_in_year(second, year, month);
    let end = card.exp_month + 1;
    let expiry = card.exp_year as int;
    lemma_months_are_ordered(expiry, 1, end);
    lemma_months_are_ordered(expiry, end, 13);
    lemma_year_length(expiry);
    if expiry < year {
        lemma_years_are_ordered(expiry + 1, year);
    } else if year < expiry {
        lemma_years_are_ordered(year + 1, expiry);
    } else if card.exp_month < month {
        lemma_months_are_ordered(year, end, month);
    } else {
        lemma_months_are_ordered(year, month + 1, end);
    }
}

/// The calendar year and month of an instant in UTC, by `chrono::DateTime::from_timestamp`
/// and `chrono::Datelike`: the instant lies in that month of the proleptic Gregorian
/// calendar. The second must lie within chrono's calendar; months count from one.
#[verifier::external_body]
pub(crate) fn year_and_month(second: i64) -> (date: (i32, u32))
    requires
        crate::time::FIRST_SECOND <= second <= crate::time::LAST_SECOND,
    ensures
        in_month(second as int, date.0 as int, date.1 as int),
{
    let at = chrono::DateTime::from_timestamp(second, 0).expect("a second of the calendar");
    (chrono::Datelike::year(&at), chrono::Datelike::month(&at))
}

/// The non-sensitive summary of a card.
#[derive(Debug, Clone, PartialEq, Eq)]
pub struct CardSummary {
    /// Network brand, e.g. `"visa"`.
    pub brand: String,
    /// Last four digits. Not cardholder data on its own.
    pub last4: String,
    /// Expiry month, 1-12.
    pub exp_month: u32,
    /// Four-digit expiry year.
    pub exp_year: i32,
    /// Issuing country, when the gateway reports it.
    pub country: Option<String>,
    /// `credit`, `debit` or `prepaid`, when known.
    pub funding: Option<String>,
    /// Network fingerprint: lets you spot the same card added twice without
    /// ever seeing the number.
    pub fingerprint: Option<String>,
}

/// A month in two digits.
pub open spec fn two_digits(n: nat) -> Seq<char> {
    if n < 10 {
        "0"@ + digits(n)
    } else {
        digits(n)
    }
}

impl CardSummary {
    /// Why a summary may not be made of some values, when it may not.
    pub open spec fn refused(last4: Seq<char>, exp_month: u32, exp_year: i32) -> Option<
        ErrorView,
    > {
        if last4.len() != 4 || !all_digits(last4) {
            Some(
                ErrorView::Validation(
                    "last4 must be exactly four digits — never pass a full card number"@,
                ),
            )
        } else if !(1 <= exp_month <= 12) {
            Some(ErrorView::Validation("expiry month must be between 1 and 12"@))
        } else if !(2000 <= exp_year <= 2100) {
            Some(ErrorView::Validation("expiry year must be a four-digit year"@))
        } else {
            None
        }
    }

    /// Build a summary, rejecting values that look like real card data.
    pub fn new(brand: &str, last4: &str, exp_month: u32, exp_year: i32) -> (card: Result<
        Self,
        Error,
    >)
        ensures
            match card {
                Ok(made) => {
                    &&& Self::refused(last4@, exp_month, exp_year) is None
                    &&& made.brand@ == brand@
                    &&& made.last4@ == last4@
                    &&& made.exp_month == exp_month
                    &&& made.exp_year == exp_year
                    &&& made.country is None
                    &&& made.funding is None
                    &&& made.fingerprint is None
                },
                Err(error) => Self::refused(last4@, exp_month, exp_year) == Some(error@),
            },
    {
        let chars = chars_of(last4);
        let mut plain = chars.len() == 4;
        let mut i: usize = 0;
        while i < chars.len()
            invariant
                i <= chars@.len(),
                plain == (chars@.len() == 4 && forall|j: int|
                    0 <= j < i ==> is_ascii_digit(#[trigger] chars@[j])),
            decreases chars@.len() - i,
        {
            if !('0' <= chars[i] && chars[i] <= '9') {
                assert(!is_ascii_digit(chars@[i as int]));
                plain = false;
            }
            i += 1;
        }
        if !plain {
            return Err(
                Error::validation(
                    "last4 must be exactly four digits — never pass a full card number",
                ),
            );
        }
        if exp_month < 1 || exp_month > 12 {
            return Err(Error::validation("expiry month must be between 1 and 12"));
        }
        if exp_year < 2000 || exp_year > 2100 {
            return Err(Error::validation("expiry year must be a four-digit year"));
        }
        Ok(
            CardSummary {
                brand: brand.to_owned(),
                last4: last4.to_owned(),
                exp_month,
                exp_year,
                country: None,
                funding: None,
                fingerprint: None,
            },
        )
    }

    /// Whether the expiry month lies before a month of a year.
    pub open spec fn lapsed(self, year: int, month: int) -> bool {
        self.exp_year < year || (self.exp_year == year && self.exp_month < month)
    }

    /// Whether the card is expired in a month of a year.
    pub fn is_expired_in(&self, year: i32, month: u32) -> (expired: bool)
        ensures
            expired == self.lapsed(year as int, month as int),
    {
        self.exp_year < year || (self.exp_year == year && self.exp_month < month)
    }

    /// Whether the card is expired at `now`.
    pub fn is_expired(&self, now: Timestamp) -> (expired: bool)
        requires
            now.in_calendar(),
        ensures
            expired == self.lapsed(
                civil_month(now.seconds as int).0,
                civil_month(now.seconds as int).1,
            ),
    {
        let (year, month) = year_and_month(now.seconds);
        proof {
            lemma_civil_month(now.seconds as int, year as int, month as int);
        }
        self.is_expired_in(year, month)
    }

    /// The card as text, as in `visa •••• 4242 (12/2030)`.
    pub fn to_text(&self) -> (text: String)
        ensures
            text@ == self.brand@ + " •••• "@ + self.last4@ + " ("@ + two_digits(
                self.exp_month as nat,
            ) + "/"@ + integer_text(self.exp_year as int) + ")"@,
    {
        let mut text = join3(self.brand.as_str(), " •••• ", self.last4.as_str());
        text.append(" (");
        let ghost head = text@;
        if self.exp_month < 10 {
            text.append("0");
        }
        push_digits(&mut text, self.exp_month as u64);
        assert(text@ =~= head + two_digits(self.exp_month as nat));
        text.append("/");
        text.append(signed_to_text(self.exp_year as i64).as_str());
        text.append(")");
        text
    }
}

/// A tokenised instrument stored against a customer ("card on file").
#[derive(Debug, Clone, PartialEq)]
pub struct PaymentMethodRef {
    /// Our identifier.
    pub id: PaymentMethodId,
    /// Owning customer.
    pub customer_id: CustomerId,
    /// Gateway that holds the vaulted instrument.
    pub gateway: GatewayId,
    /// The gateway's token. This is *not* cardholder data, but it is
    /// bearer-ish, so treat it as confidential.
    pub gateway_token: String,
    /// The gateway's customer identifier, when the token is customer-scoped.
    pub gateway_customer_id: Option<String>,
    /// What kind of instrument this is.
    pub kind: PaymentMethodKind,
    /// Billing address captured at vaulting time, used for AVS and tax.
    pub billing_address: Option<Address>,
    /// Whether the shopper marked this as their default instrument.
    pub is_default: bool,
    /// Whether the shopper agreed to future merchant-initiated charges.
    /// Required for card-on-file/recurring under card-scheme rules.
    pub reusable: bool,
    /// Free-form data.
    pub metadata: Metadata,
    /// When the instrument was vaulted.
    pub created_at: Timestamp,
}

impl PaymentMethodRef {
    /// Create a reference to a freshly vaulted instrument.
    pub fn new(
        customer_id: CustomerId,
        gateway: GatewayId,
        gateway_token: &str,
        kind: PaymentMethodKind,
    ) -> (method: Self)
        ensures
            is_generated(method.id@, "pm"@),
            method.customer_id == customer_id,
            method.gateway == gateway,
            method.gateway_token@ == gateway_token@,
            method.gateway_customer_id is None,
            method.kind == kind,
            method.billing_address is None,
            !method.is_default,
            !method.reusable,
            method.metadata@ == Map::<Seq<char>, String>::empty(),
    {
        PaymentMethodRef {
            id: PaymentMethodId::new(),
            customer_id,
            gateway,
            gateway_token: gateway_token.to_owned(),
            gateway_customer_id: None,
            kind,
            billing_address: None,
            is_default: false,
            reusable: false,
            metadata: Metadata::new(),
            created_at: Timestamp::now(),
        }
    }

    /// Builder: mark the instrument as usable for future off-session charges.
    pub fn reusable(self) -> (method: Self)
        ensures
            method == (PaymentMethodRef { reusable: true, ..self }),
    {
        PaymentMethodRef { reusable: true, ..self }
    }

    /// Builder: set the gateway customer id.
    pub fn with_gateway_customer(self, id: &str) -> (method: Self)
        ensures
            method == (PaymentMethodRef {
                gateway_customer_id: method.gateway_customer_id,
                ..self
            }),
            optional_text(method.gateway_customer_id) == Some(id@),
    {
        PaymentMethodRef { gateway_customer_id: Some(id.to_owned()), ..self }
    }

    /// Builder: set the billing address.
    pub fn with_billing_address(self, address: Address) -> (method: Self)
        ensures
            method == (PaymentMethodRef { billing_address: Some(address), ..self }),
    {
        PaymentMethodRef { billing_address: Some(address), ..self }
    }

    /// Label for receipts and instrument pickers.
    pub fn display_label(&self) -> (label: String)
        ensures
            label@ == self.kind.label(),
    {
        self.kind.display_label()
    }

    /// Whether the instrument can be charged in a month of a year.
    pub open spec fn usable(self, year: int, month: int) -> bool {
        match self.kind {
            PaymentMethodKind::Card(card) => !card.lapsed(year, month),
            _ => true,
        }
    }

    /// What checking an instrument in a month of a year returns.
    pub open spec fn usability(self, year: int, month: int) -> Result<(), ErrorView> {
        if self.usable(year, month) {
            Ok(())
        } else {
            Err(
                ErrorView::Declined {
                    code: DeclineCode::ExpiredCard,
                    message: self.kind.label() + " has expired"@,
                },
            )
        }
    }

    /// Whether this instrument can be charged in a month of a year.
    pub fn is_usable_in(&self, year: i32, month: u32) -> (usable: bool)
        ensures
            usable == self.usable(year as int, month as int),
    {
        match &self.kind {
            PaymentMethodKind::Card(card) => !card.is_expired_in(year, month),
            _ => true,
        }
    }

    /// Whether this instrument can be charged at `now`.
    pub fn is_usable(&self, now: Timestamp) -> (usable: bool)
        requires
            now.in_calendar(),
        ensures
            usable == self.usable(
                civil_month(now.seconds as int).0,
                civil_month(now.seconds as int).1,
            ),
    {
        let (year, month) = year_and_month(now.seconds);
        proof {
            lemma_civil_month(now.seconds as int, year as int, month as int);
        }
        self.is_usable_in(year, month)
    }

    /// Reject an instrument that cannot be charged in a month of a year.
    pub fn ensure_usable_in(&self, year: i32, month: u32) -> (usable: Result<(), Error>)
        ensures
            outcome(usable) == self.usability(year as int, month as int),
    {
        if self.is_usable_in(year, month) {
            Ok(())
        } else {
            Err(
                Error::Declined {
                    code: DeclineCode::ExpiredCard,
                    message: join(self.display_label().as_str(), " has expired"),
                },
            )
        }
    }

    /// Reject an unusable instrument with a helpful message.
    pub fn ensure_usable(&self, now: Timestamp) -> (usable: Result<(), Error>)
        requires
            now.in_calendar(),
        ensures
            outcome(usable) == self.usability(
                civil_month(now.seconds as int).0,
                civil_month(now.seconds as int).1,
            ),
    {
        let (year, month) = year_and_month(now.seconds);
        proof {
            lemma_civil_month(now.seconds as int, year as int, month as int);
        }
        self.ensure_usable_in(year, month)
    }
}

/// Who initiated a charge. Card schemes require this to be reported
/// correctly; off-session charges without stored consent are chargeback bait.
#[derive(Debug, Clone, Copy, PartialEq, Eq, Structural)]
pub enum ChargeInitiator {
    /// The shopper is present and interacting with the checkout.
    CustomerOnSession,
    /// The shopper set this up earlier; the merchant is charging now.
    MerchantOffSession,
}

impl Default for ChargeInitiator {
    fn default() -> (initiator: Self)
        ensures
            initiator == ChargeInitiator::CustomerOnSession,
    {
        ChargeInitiator::CustomerOnSession
    }
}

impl ChargeInitiator {
    /// Whether stored-credential consent ([`PaymentMethodRef::reusable`]) is required.
    pub fn requires_stored_consent(self) -> (required: bool)
        ensures
            required == (self is MerchantOffSession),
    {
        match self {
            ChargeInitiator::CustomerOnSession => false,
            ChargeInitiator::MerchantOffSession => true,
        }
    }
}

/// A card that is usable in some month was usable in every earlier month.
pub proof fn law_cards_do_not_revive(
    method: PaymentMethodRef,
    year: int,
    month: int,
    earlier_year: int,
    earlier_month: int,
)
    requires
        method.usable(year, month),
        earlier_year < year || (earlier_year == year && earlier_month <= month),
    ensures
        method.usable(earlier_year, earlier_month),
{
}

/// Months have their days, years follow each other without a gap, and time counts from the
/// start of 1970.
pub proof fn law_months_have_their_days(year: int, month: int)
    requires
        1 <= month <= 12,
    ensures
        ({
            let days = (month_start(year, month + 1) - month_start(year, month)) / 86_400;
            let leap = year % 4 == 0 && (year % 100 != 0 || year % 400 == 0);
            &&& month == 4 || month == 6 || month == 9 || month == 11 ==> days == 30
            &&& month == 2 && leap ==> days == 29
            &&& month == 2 && !leap ==> days == 28
            &&& month != 2 && month != 4 && month != 6 && month != 9 && month != 11 ==> days == 31
        }),
        month_start(year, 13) == month_start(year + 1, 1),
        month_start(1970, 1) == 0,
{
    lemma_year_length(year);
}

/// A card summary is made exactly of four last digits, a month of the year and a year of
/// this century or its last.
pub proof fn law_summaries_hold_no_card_number(last4: Seq<char>, month: u32, year: i32)
    ensures
        CardSummary::refused(last4, month, year) is None <==> {
            &&& last4.len() == 4
            &&& forall|i: int| 0 <= i < 4 ==> '0' <= #[trigger] last4[i] <= '9'
            &&& 1 <= month <= 12
            &&& 2000 <= year <= 2100
        },
{
}

/// Only cards expire: in the months after the one on the card it cannot be charged, up to
/// that month it can, and any other instrument always can.
pub proof fn law_only_cards_expire(method: PaymentMethodRef, year: int, month: int)
    ensures
        method.usability(year, month) is Ok <==> method.usable(year, month),
        !(method.kind is Card) ==> method.usable(year, month),
        method.kind matches PaymentMethodKind::Card(card) ==> (1 <= month <= 12 && 1
            <= card.exp_month <= 12 ==> (method.usable(year, month) <==> year * 12 + month
            <= card.exp_year * 12 + card.exp_month)),
{
}

} // verus!
