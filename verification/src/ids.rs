//! Typed identifiers.
//!
//! Every entity has its own identifier type, so that an order identifier can
//! never be passed where a cart identifier is expected. Each is a text: either
//! one generated here (a conventional prefix and a random UUID) or one owned by
//! another system.

use vstd::prelude::*;

use crate::text::{join3, same_text};

verus! {

/// A small hexadecimal digit.
pub open spec fn is_hex_digit(c: char) -> bool {
    ('0' <= c && c <= '9') || ('a' <= c && c <= 'f')
}

/// Draws a version 4 UUID with `uuid::Uuid::new_v4` and renders it in its simple
/// form: thirty-two small hexadecimal digits. Which digits they are is random.
#[verifier::external_body]
fn random_uuid() -> (digits: String)
    ensures
        digits@.len() == 32,
        forall|i: int| 0 <= i < digits@.len() ==> is_hex_digit(#[trigger] digits@[i]),
{
    uuid::Uuid::new_v4().simple().to_string()
}

/// An identifier freshly generated under `prefix`.
pub open spec fn is_generated(id: Seq<char>, prefix: Seq<char>) -> bool {
    &&& id.len() == prefix.len() + 33
    &&& id.take(prefix.len() as int) == prefix
    &&& id[prefix.len() as int] == '_'
    &&& forall|i: int| prefix.len() < i < id.len() ==> is_hex_digit(#[trigger] id[i])
}

fn generate(prefix: &str) -> (id: String)
    ensures
        is_generated(id@, prefix@),
{
    let digits = random_uuid();
    let id = join3(prefix, "_", &digits);
    proof {
        reveal_strlit("_");
        let text = prefix@ + "_"@ + digits@;
        assert(text.take(prefix@.len() as int) =~= prefix@);
        assert forall|i: int| prefix@.len() < i < text.len() implies is_hex_digit(
            #[trigger] text[i],
        ) by {
            assert(text[i] == digits@[i - prefix@.len() - 1]);
        }
    }
    id
}

/// Identifies a shopping cart.
#[derive(Debug, PartialEq, Eq, Hash, PartialOrd, Ord)]
pub struct CartId(String);

impl View for CartId {
    type V = Seq<char>;

    closed spec fn view(&self) -> Seq<char> {
        self.0@
    }
}

impl CartId {
    /// Generate a new random identifier with the conventional prefix.
    pub fn new() -> (id: Self)
        ensures
            is_generated(id@, "cart"@),
    {
        CartId(generate("cart"))
    }

    /// Wrap an existing identifier.
    pub fn from_string(value: &str) -> (id: Self)
        ensures
            id@ == value@,
    {
        CartId(value.to_owned())
    }

    /// The identifier as a string slice.
    pub fn as_str(&self) -> (text: &str)
        ensures
            text@ == self@,
    {
        self.0.as_str()
    }

    /// The entity kind, used in error messages.
    pub fn kind() -> (kind: &'static str)
        ensures
            kind@ == "cart"@,
    {
        "cart"
    }

    /// The identifier as an owned text.
    pub fn to_text(&self) -> (text: String)
        ensures
            text@ == self@,
    {
        self.0.clone()
    }

    /// Whether two identifiers hold the same text.
    pub fn same(&self, other: &Self) -> (same: bool)
        ensures
            same == (self@ == other@),
    {
        same_text(self.0.as_str(), other.0.as_str())
    }
}

impl Clone for CartId {
    fn clone(&self) -> (id: Self)
        ensures
            id == *self,
    {
        CartId(self.0.clone())
    }
}

/// Identifies a line item inside a cart or order.
#[derive(Debug, PartialEq, Eq, Hash, PartialOrd, Ord)]
pub struct LineItemId(String);

impl View for LineItemId {
    type V = Seq<char>;

    closed spec fn view(&self) -> Seq<char> {
        self.0@
    }
}

impl LineItemId {
    /// Generate a new random identifier with the conventional prefix.
    pub fn new() -> (id: Self)
        ensures
            is_generated(id@, "li"@),
    {
        LineItemId(generate("li"))
    }

    /// Wrap an existing identifier.
    pub fn from_string(value: &str) -> (id: Self)
        ensures
            id@ == value@,
    {
        LineItemId(value.to_owned())
    }

    /// The identifier as a string slice.
    pub fn as_str(&self) -> (text: &str)
        ensures
            text@ == self@,
    {
        self.0.as_str()
    }

    /// The entity kind, used in error messages.
    pub fn kind() -> (kind: &'static str)
        ensures
            kind@ == "line item"@,
    {
        "line item"
    }

    /// The identifier as an owned text.
    pub fn to_text(&self) -> (text: String)
        ensures
            text@ == self@,
    {
        self.0.clone()
    }

    /// Whether two identifiers hold the same text.
    pub fn same(&self, other: &Self) -> (same: bool)
        ensures
            same == (self@ == other@),
    {
        same_text(self.0.as_str(), other.0.as_str())
    }
}

impl Clone for LineItemId {
    fn clone(&self) -> (id: Self)
        ensures
            id == *self,
    {
        LineItemId(self.0.clone())
    }
}

/// Identifies an order.
#[derive(Debug, PartialEq, Eq, Hash, PartialOrd, Ord)]
pub struct OrderId(String);

impl View for OrderId {
    type V = Seq<char>;

    closed spec fn view(&self) -> Seq<char> {
        self.0@
    }
}

impl OrderId {
    /// Generate a new random identifier with the conventional prefix.
    pub fn new() -> (id: Self)
        ensures
            is_generated(id@, "ord"@),
    {
        OrderId(generate("ord"))
    }

    /// Wrap an existing identifier.
    pub fn from_string(value: &str) -> (id: Self)
        ensures
            id@ == value@,
    {
        OrderId(value.to_owned())
    }

    /// The identifier as a string slice.
    pub fn as_str(&self) -> (text: &str)
        ensures
            text@ == self@,
    {
        self.0.as_str()
    }

    /// The entity kind, used in error messages.
    pub fn kind() -> (kind: &'static str)
        ensures
            kind@ == "order"@,
    {
        "order"
    }

    /// The identifier as an owned text.
    pub fn to_text(&self) -> (text: String)
        ensures
            text@ == self@,
    {
        self.0.clone()
    }

    /// Whether two identifiers hold the same text.
    pub fn same(&self, other: &Self) -> (same: bool)
        ensures
            same == (self@ == other@),
    {
        same_text(self.0.as_str(), other.0.as_str())
    }
}

impl Clone for OrderId {
    fn clone(&self) -> (id: Self)
        ensures
            id == *self,
    {
        OrderId(self.0.clone())
    }
}

/// Identifies a buyer.
#[derive(Debug, PartialEq, Eq, Hash, PartialOrd, Ord)]
pub struct CustomerId(String);

impl View for CustomerId {
    type V = Seq<char>;

    closed spec fn view(&self) -> Seq<char> {
        self.0@
    }
}

impl CustomerId {
    /// Generate a new random identifier with the conventional prefix.
    pub fn new() -> (id: Self)
        ensures
            is_generated(id@, "cus"@),
    {
        CustomerId(generate("cus"))
    }

    /// Wrap an existing identifier.
    pub fn from_string(value: &str) -> (id: Self)
        ensures
            id@ == value@,
    {
        CustomerId(value.to_owned())
    }

    /// The identifier as a string slice.
    pub fn as_str(&self) -> (text: &str)
        ensures
            text@ == self@,
    {
        self.0.as_str()
    }

    /// The entity kind, used in error messages.
    pub fn kind() -> (kind: &'static str)
        ensures
            kind@ == "customer"@,
    {
        "customer"
    }

    /// The identifier as an owned text.
    pub fn to_text(&self) -> (text: String)
        ensures
            text@ == self@,
    {
        self.0.clone()
    }

    /// Whether two identifiers hold the same text.
    pub fn same(&self, other: &Self) -> (same: bool)
        ensures
            same == (self@ == other@),
    {
        same_text(self.0.as_str(), other.0.as_str())
    }
}

impl Clone for CustomerId {
    fn clone(&self) -> (id: Self)
        ensures
            id == *self,
    {
        CustomerId(self.0.clone())
    }
}

/// Identifies a shop selling through the platform.
#[derive(Debug, PartialEq, Eq, Hash, PartialOrd, Ord)]
pub struct ShopId(String);

impl View for ShopId {
    type V = Seq<char>;

    closed spec fn view(&self) -> Seq<char> {
        self.0@
    }
}

impl ShopId {
    /// Generate a new random identifier with the conventional prefix.
    pub fn new() -> (id: Self)
        ensures
            is_generated(id@, "shop"@),
    {
        ShopId(generate("shop"))
    }

    /// Wrap an existing identifier.
    pub fn from_string(value: &str) -> (id: Self)
        ensures
            id@ == value@,
    {
        ShopId(value.to_owned())
    }

    /// The identifier as a string slice.
    pub fn as_str(&self) -> (text: &str)
        ensures
            text@ == self@,
    {
        self.0.as_str()
    }

    /// The entity kind, used in error messages.
    pub fn kind() -> (kind: &'static str)
        ensures
            kind@ == "shop"@,
    {
        "shop"
    }

    /// The identifier as an owned text.
    pub fn to_text(&self) -> (text: String)
        ensures
            text@ == self@,
    {
        self.0.clone()
    }

    /// Whether two identifiers hold the same text.
    pub fn same(&self, other: &Self) -> (same: bool)
        ensures
            same == (self@ == other@),
    {
        same_text(self.0.as_str(), other.0.as_str())
    }
}

impl Clone for ShopId {
    fn clone(&self) -> (id: Self)
        ensures
            id == *self,
    {
        ShopId(self.0.clone())
    }
}

/// Identifies an account that can receive money: a shop, the platform, a funder.
#[derive(Debug, PartialEq, Eq, Hash, PartialOrd, Ord)]
pub struct AccountId(String);

impl View for AccountId {
    type V = Seq<char>;

    closed spec fn view(&self) -> Seq<char> {
        self.0@
    }
}

impl AccountId {
    /// Generate a new random identifier with the conventional prefix.
    pub fn new() -> (id: Self)
        ensures
            is_generated(id@, "acct"@),
    {
        AccountId(generate("acct"))
    }

    /// Wrap an existing identifier.
    pub fn from_string(value: &str) -> (id: Self)
        ensures
            id@ == value@,
    {
        AccountId(value.to_owned())
    }

    /// The identifier as a string slice.
    pub fn as_str(&self) -> (text: &str)
        ensures
            text@ == self@,
    {
        self.0.as_str()
    }

    /// The entity kind, used in error messages.
    pub fn kind() -> (kind: &'static str)
        ensures
            kind@ == "account"@,
    {
        "account"
    }

    /// The identifier as an owned text.
    pub fn to_text(&self) -> (text: String)
        ensures
            text@ == self@,
    {
        self.0.clone()
    }

    /// Whether two identifiers hold the same text.
    pub fn same(&self, other: &Self) -> (same: bool)
        ensures
            same == (self@ == other@),
    {
        same_text(self.0.as_str(), other.0.as_str())
    }
}

impl Clone for AccountId {
    fn clone(&self) -> (id: Self)
        ensures
            id == *self,
    {
        AccountId(self.0.clone())
    }
}

/// Identifies a payment attempt.
#[derive(Debug, PartialEq, Eq, Hash, PartialOrd, Ord)]
pub struct PaymentId(String);

impl View for PaymentId {
    type V = Seq<char>;

    closed spec fn view(&self) -> Seq<char> {
        self.0@
    }
}

impl PaymentId {
    /// Generate a new random identifier with the conventional prefix.
    pub fn new() -> (id: Self)
        ensures
            is_generated(id@, "pay"@),
    {
        PaymentId(generate("pay"))
    }

    /// Wrap an existing identifier.
    pub fn from_string(value: &str) -> (id: Self)
        ensures
            id@ == value@,
    {
        PaymentId(value.to_owned())
    }

    /// The identifier as a string slice.
    pub fn as_str(&self) -> (text: &str)
        ensures
            text@ == self@,
    {
        self.0.as_str()
    }

    /// The entity kind, used in error messages.
    pub fn kind() -> (kind: &'static str)
        ensures
            kind@ == "payment"@,
    {
        "payment"
    }

    /// The identifier as an owned text.
    pub fn to_text(&self) -> (text: String)
        ensures
            text@ == self@,
    {
        self.0.clone()
    }

    /// Whether two identifiers hold the same text.
    pub fn same(&self, other: &Self) -> (same: bool)
        ensures
            same == (self@ == other@),
    {
        same_text(self.0.as_str(), other.0.as_str())
    }
}

impl Clone for PaymentId {
    fn clone(&self) -> (id: Self)
        ensures
            id == *self,
    {
        PaymentId(self.0.clone())
    }
}

/// Identifies a single capture of an authorisation.
#[derive(Debug, PartialEq, Eq, Hash, PartialOrd, Ord)]
pub struct CaptureId(String);

impl View for CaptureId {
    type V = Seq<char>;

    closed spec fn view(&self) -> Seq<char> {
        self.0@
    }
}

impl CaptureId {
    /// Generate a new random identifier with the conventional prefix.
    pub fn new() -> (id: Self)
        ensures
            is_generated(id@, "cap"@),
    {
        CaptureId(generate("cap"))
    }

    /// Wrap an existing identifier.
    pub fn from_string(value: &str) -> (id: Self)
        ensures
            id@ == value@,
    {
        CaptureId(value.to_owned())
    }

    /// The identifier as a string slice.
    pub fn as_str(&self) -> (text: &str)
        ensures
            text@ == self@,
    {
        self.0.as_str()
    }

    /// The entity kind, used in error messages.
    pub fn kind() -> (kind: &'static str)
        ensures
            kind@ == "capture"@,
    {
        "capture"
    }

    /// The identifier as an owned text.
    pub fn to_text(&self) -> (text: String)
        ensures
            text@ == self@,
    {
        self.0.clone()
    }

    /// Whether two identifiers hold the same text.
    pub fn same(&self, other: &Self) -> (same: bool)
        ensures
            same == (self@ == other@),
    {
        same_text(self.0.as_str(), other.0.as_str())
    }
}

impl Clone for CaptureId {
    fn clone(&self) -> (id: Self)
        ensures
            id == *self,
    {
        CaptureId(self.0.clone())
    }
}

/// Identifies a refund.
#[derive(Debug, PartialEq, Eq, Hash, PartialOrd, Ord)]
pub struct RefundId(String);

impl View for RefundId {
    type V = Seq<char>;

    closed spec fn view(&self) -> Seq<char> {
        self.0@
    }
}

impl RefundId {
    /// Generate a new random identifier with the conventional prefix.
    pub fn new() -> (id: Self)
        ensures
            is_generated(id@, "re"@),
    {
        RefundId(generate("re"))
    }

    /// Wrap an existing identifier.
    pub fn from_string(value: &str) -> (id: Self)
        ensures
            id@ == value@,
    {
        RefundId(value.to_owned())
    }

    /// The identifier as a string slice.
    pub fn as_str(&self) -> (text: &str)
        ensures
            text@ == self@,
    {
        self.0.as_str()
    }

    /// The entity kind, used in error messages.
    pub fn kind() -> (kind: &'static str)
        ensures
            kind@ == "refund"@,
    {
        "refund"
    }

    /// The identifier as an owned text.
    pub fn to_text(&self) -> (text: String)
        ensures
            text@ == self@,
    {
        self.0.clone()
    }

    /// Whether two identifiers hold the same text.
    pub fn same(&self, other: &Self) -> (same: bool)
        ensures
            same == (self@ == other@),
    {
        same_text(self.0.as_str(), other.0.as_str())
    }
}

impl Clone for RefundId {
    fn clone(&self) -> (id: Self)
        ensures
            id == *self,
    {
        RefundId(self.0.clone())
    }
}

/// Identifies a dispute or chargeback.
#[derive(Debug, PartialEq, Eq, Hash, PartialOrd, Ord)]
pub struct DisputeId(String);

impl View for DisputeId {
    type V = Seq<char>;

    closed spec fn view(&self) -> Seq<char> {
        self.0@
    }
}

impl DisputeId {
    /// Generate a new random identifier with the conventional prefix.
    pub fn new() -> (id: Self)
        ensures
            is_generated(id@, "dp"@),
    {
        DisputeId(generate("dp"))
    }

    /// Wrap an existing identifier.
    pub fn from_string(value: &str) -> (id: Self)
        ensures
            id@ == value@,
    {
        DisputeId(value.to_owned())
    }

    /// The identifier as a string slice.
    pub fn as_str(&self) -> (text: &str)
        ensures
            text@ == self@,
    {
        self.0.as_str()
    }

    /// The entity kind, used in error messages.
    pub fn kind() -> (kind: &'static str)
        ensures
            kind@ == "dispute"@,
    {
        "dispute"
    }

    /// The identifier as an owned text.
    pub fn to_text(&self) -> (text: String)
        ensures
            text@ == self@,
    {
        self.0.clone()
    }

    /// Whether two identifiers hold the same text.
    pub fn same(&self, other: &Self) -> (same: bool)
        ensures
            same == (self@ == other@),
    {
        same_text(self.0.as_str(), other.0.as_str())
    }
}

impl Clone for DisputeId {
    fn clone(&self) -> (id: Self)
        ensures
            id == *self,
    {
        DisputeId(self.0.clone())
    }
}

/// Identifies a stored payment instrument token, never card data itself.
#[derive(Debug, PartialEq, Eq, Hash, PartialOrd, Ord)]
pub struct PaymentMethodId(String);

impl View for PaymentMethodId {
    type V = Seq<char>;

    closed spec fn view(&self) -> Seq<char> {
        self.0@
    }
}

impl PaymentMethodId {
    /// Generate a new random identifier with the conventional prefix.
    pub fn new() -> (id: Self)
        ensures
            is_generated(id@, "pm"@),
    {
        PaymentMethodId(generate("pm"))
    }

    /// Wrap an existing identifier.
    pub fn from_string(value: &str) -> (id: Self)
        ensures
            id@ == value@,
    {
        PaymentMethodId(value.to_owned())
    }

    /// The identifier as a string slice.
    pub fn as_str(&self) -> (text: &str)
        ensures
            text@ == self@,
    {
        self.0.as_str()
    }

    /// The entity kind, used in error messages.
    pub fn kind() -> (kind: &'static str)
        ensures
            kind@ == "payment method"@,
    {
        "payment method"
    }

    /// The identifier as an owned text.
    pub fn to_text(&self) -> (text: String)
        ensures
            text@ == self@,
    {
        self.0.clone()
    }

    /// Whether two identifiers hold the same text.
    pub fn same(&self, other: &Self) -> (same: bool)
        ensures
            same == (self@ == other@),
    {
        same_text(self.0.as_str(), other.0.as_str())
    }
}

impl Clone for PaymentMethodId {
    fn clone(&self) -> (id: Self)
        ensures
            id == *self,
    {
        PaymentMethodId(self.0.clone())
    }
}

/// Identifies a discount or promotion definition.
#[derive(Debug, PartialEq, Eq, Hash, PartialOrd, Ord)]
pub struct DiscountId(String);

impl View for DiscountId {
    type V = Seq<char>;

    closed spec fn view(&self) -> Seq<char> {
        self.0@
    }
}

impl DiscountId {
    /// Generate a new random identifier with the conventional prefix.
    pub fn new() -> (id: Self)
        ensures
            is_generated(id@, "disc"@),
    {
        DiscountId(generate("disc"))
    }

    /// Wrap an existing identifier.
    pub fn from_string(value: &str) -> (id: Self)
        ensures
            id@ == value@,
    {
        DiscountId(value.to_owned())
    }

    /// The identifier as a string slice.
    pub fn as_str(&self) -> (text: &str)
        ensures
            text@ == self@,
    {
        self.0.as_str()
    }

    /// The entity kind, used in error messages.
    pub fn kind() -> (kind: &'static str)
        ensures
            kind@ == "discount"@,
    {
        "discount"
    }

    /// The identifier as an owned text.
    pub fn to_text(&self) -> (text: String)
        ensures
            text@ == self@,
    {
        self.0.clone()
    }

    /// Whether two identifiers hold the same text.
    pub fn same(&self, other: &Self) -> (same: bool)
        ensures
            same == (self@ == other@),
    {
        same_text(self.0.as_str(), other.0.as_str())
    }
}

impl Clone for DiscountId {
    fn clone(&self) -> (id: Self)
        ensures
            id == *self,
    {
        DiscountId(self.0.clone())
    }
}

/// Identifies a gift card.
#[derive(Debug, PartialEq, Eq, Hash, PartialOrd, Ord)]
pub struct GiftCardId(String);

impl View for GiftCardId {
    type V = Seq<char>;

    closed spec fn view(&self) -> Seq<char> {
        self.0@
    }
}

impl GiftCardId {
    /// Generate a new random identifier with the conventional prefix.
    pub fn new() -> (id: Self)
        ensures
            is_generated(id@, "gc"@),
    {
        GiftCardId(generate("gc"))
    }

    /// Wrap an existing identifier.
    pub fn from_string(value: &str) -> (id: Self)
        ensures
            id@ == value@,
    {
        GiftCardId(value.to_owned())
    }

    /// The identifier as a string slice.
    pub fn as_str(&self) -> (text: &str)
        ensures
            text@ == self@,
    {
        self.0.as_str()
    }

    /// The entity kind, used in error messages.
    pub fn kind() -> (kind: &'static str)
        ensures
            kind@ == "gift card"@,
    {
        "gift card"
    }

    /// The identifier as an owned text.
    pub fn to_text(&self) -> (text: String)
        ensures
            text@ == self@,
    {
        self.0.clone()
    }

    /// Whether two identifiers hold the same text.
    pub fn same(&self, other: &Self) -> (same: bool)
        ensures
            same == (self@ == other@),
    {
        same_text(self.0.as_str(), other.0.as_str())
    }
}

impl Clone for GiftCardId {
    fn clone(&self) -> (id: Self)
        ensures
            id == *self,
    {
        GiftCardId(self.0.clone())
    }
}

/// Identifies a fulfilment group: one shipment or delivery slot.
#[derive(Debug, PartialEq, Eq, Hash, PartialOrd, Ord)]
pub struct FulfillmentGroupId(String);

impl View for FulfillmentGroupId {
    type V = Seq<char>;

    closed spec fn view(&self) -> Seq<char> {
        self.0@
    }
}

impl FulfillmentGroupId {
    /// Generate a new random identifier with the conventional prefix.
    pub fn new() -> (id: Self)
        ensures
            is_generated(id@, "ful"@),
    {
        FulfillmentGroupId(generate("ful"))
    }

    /// Wrap an existing identifier.
    pub fn from_string(value: &str) -> (id: Self)
        ensures
            id@ == value@,
    {
        FulfillmentGroupId(value.to_owned())
    }

    /// The identifier as a string slice.
    pub fn as_str(&self) -> (text: &str)
        ensures
            text@ == self@,
    {
        self.0.as_str()
    }

    /// The entity kind, used in error messages.
    pub fn kind() -> (kind: &'static str)
        ensures
            kind@ == "fulfillment group"@,
    {
        "fulfillment group"
    }

    /// The identifier as an owned text.
    pub fn to_text(&self) -> (text: String)
        ensures
            text@ == self@,
    {
        self.0.clone()
    }

    /// Whether two identifiers hold the same text.
    pub fn same(&self, other: &Self) -> (same: bool)
        ensures
            same == (self@ == other@),
    {
        same_text(self.0.as_str(), other.0.as_str())
    }
}

impl Clone for FulfillmentGroupId {
    fn clone(&self) -> (id: Self)
        ensures
            id == *self,
    {
        FulfillmentGroupId(self.0.clone())
    }
}

/// Identifies a webhook or domain event.
#[derive(Debug, PartialEq, Eq, Hash, PartialOrd, Ord)]
pub struct EventId(String);

impl View for EventId {
    type V = Seq<char>;

    closed spec fn view(&self) -> Seq<char> {
        self.0@
    }
}

impl EventId {
    /// Generate a new random identifier with the conventional prefix.
    pub fn new() -> (id: Self)
        ensures
            is_generated(id@, "evt"@),
    {
        EventId(generate("evt"))
    }

    /// Wrap an existing identifier.
    pub fn from_string(value: &str) -> (id: Self)
        ensures
            id@ == value@,
    {
        EventId(value.to_owned())
    }

    /// The identifier as a string slice.
    pub fn as_str(&self) -> (text: &str)
        ensures
            text@ == self@,
    {
        self.0.as_str()
    }

    /// The entity kind, used in error messages.
    pub fn kind() -> (kind: &'static str)
        ensures
            kind@ == "event"@,
    {
        "event"
    }

    /// The identifier as an owned text.
    pub fn to_text(&self) -> (text: String)
        ensures
            text@ == self@,
    {
        self.0.clone()
    }

    /// Whether two identifiers hold the same text.
    pub fn same(&self, other: &Self) -> (same: bool)
        ensures
            same == (self@ == other@),
    {
        same_text(self.0.as_str(), other.0.as_str())
    }
}

impl Clone for EventId {
    fn clone(&self) -> (id: Self)
        ensures
            id == *self,
    {
        EventId(self.0.clone())
    }
}

/// Identifies an entry in the shop-credit ledger.
#[derive(Debug, PartialEq, Eq, Hash, PartialOrd, Ord)]
pub struct LedgerEntryId(String);

impl View for LedgerEntryId {
    type V = Seq<char>;

    closed spec fn view(&self) -> Seq<char> {
        self.0@
    }
}

impl LedgerEntryId {
    /// Generate a new random identifier with the conventional prefix.
    pub fn new() -> (id: Self)
        ensures
            is_generated(id@, "led"@),
    {
        LedgerEntryId(generate("led"))
    }

    /// Wrap an existing identifier.
    pub fn from_string(value: &str) -> (id: Self)
        ensures
            id@ == value@,
    {
        LedgerEntryId(value.to_owned())
    }

    /// The identifier as a string slice.
    pub fn as_str(&self) -> (text: &str)
        ensures
            text@ == self@,
    {
        self.0.as_str()
    }

    /// The entity kind, used in error messages.
    pub fn kind() -> (kind: &'static str)
        ensures
            kind@ == "ledger entry"@,
    {
        "ledger entry"
    }

    /// The identifier as an owned text.
    pub fn to_text(&self) -> (text: String)
        ensures
            text@ == self@,
    {
        self.0.clone()
    }

    /// Whether two identifiers hold the same text.
    pub fn same(&self, other: &Self) -> (same: bool)
        ensures
            same == (self@ == other@),
    {
        same_text(self.0.as_str(), other.0.as_str())
    }
}

impl Clone for LedgerEntryId {
    fn clone(&self) -> (id: Self)
        ensures
            id == *self,
    {
        LedgerEntryId(self.0.clone())
    }
}

} // verus!
