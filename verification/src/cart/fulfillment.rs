//! Fulfilment groups: how the items of one cart are physically delivered.
//!
//! A single cart routinely needs several shipments: items from different shops,
//! shipped from different warehouses, or scheduled for different delivery
//! windows. Each such shipment is a [`FulfillmentGroup`], and shipping charges,
//! shipping tax and delivery-time capture all operate per group rather than per
//! order.

use std::collections::hash_map::DefaultHasher;
use std::hash::{BuildHasher, BuildHasherDefault};
use vstd::prelude::*;

use crate::address::{optional_address, same_optional_address, Address};
use crate::ids::{FulfillmentGroupId, LineItemId, ShopId};
use crate::money::Money;
use crate::pricing::TaxCode;
use crate::text::{
    digits, hex_char, integer_text, is_ascii_digit, join, lemma_digits, optional_text, push_digits,
    same_optional_text, same_text, signed_to_text,
};
use crate::time::Timestamp;

verus! {

/// How an item reaches the customer.
#[derive(Debug, PartialEq, Eq, Hash)]
pub enum FulfillmentMethod {
    /// Parcel shipping through a carrier.
    Shipping {
        /// Carrier name, e.g. `"ups"`.
        carrier: String,
        /// Service level, e.g. `"ground"`.
        service: String,
    },
    /// Courier delivery, typically same-day, within a time window.
    LocalDelivery {
        /// Free-form window label, e.g. `"18:00-20:00"`.
        window: Option<String>,
    },
    /// Customer collects the goods.
    Pickup {
        /// Identifier of the pickup location.
        location: Option<String>,
    },
    /// No physical delivery (downloads, licences, services).
    Digital,
}

/// A [`FulfillmentMethod`] with its texts as character sequences.
pub enum MethodView {
    /// Parcel shipping.
    Shipping {
        /// Carrier name.
        carrier: Seq<char>,
        /// Service level.
        service: Seq<char>,
    },
    /// Courier delivery.
    LocalDelivery {
        /// Window label.
        window: Option<Seq<char>>,
    },
    /// Customer collects the goods.
    Pickup {
        /// Pickup location.
        location: Option<Seq<char>>,
    },
    /// No physical delivery.
    Digital,
}

impl View for FulfillmentMethod {
    type V = MethodView;

    open spec fn view(&self) -> MethodView {
        match *self {
            FulfillmentMethod::Shipping { carrier, service } => MethodView::Shipping {
                carrier: carrier@,
                service: service@,
            },
            FulfillmentMethod::LocalDelivery { window } => MethodView::LocalDelivery {
                window: optional_text(window),
            },
            FulfillmentMethod::Pickup { location } => MethodView::Pickup {
                location: optional_text(location),
            },
            FulfillmentMethod::Digital => MethodView::Digital,
        }
    }
}

impl Clone for FulfillmentMethod {
    fn clone(&self) -> (method: Self)
        ensures
            method == *self,
    {
        match self {
            FulfillmentMethod::Shipping { carrier, service } => FulfillmentMethod::Shipping {
                carrier: carrier.clone(),
                service: service.clone(),
            },
            FulfillmentMethod::LocalDelivery { window } => FulfillmentMethod::LocalDelivery {
                window: window.clone(),
            },
            FulfillmentMethod::Pickup { location } => FulfillmentMethod::Pickup {
                location: location.clone(),
            },
            FulfillmentMethod::Digital => FulfillmentMethod::Digital,
        }
    }
}

impl MethodView {
    /// The discriminant used when grouping items.
    pub open spec fn kind(self) -> Seq<char> {
        match self {
            MethodView::Shipping { .. } => "shipping"@,
            MethodView::LocalDelivery { .. } => "local_delivery"@,
            MethodView::Pickup { .. } => "pickup"@,
            MethodView::Digital => "digital"@,
        }
    }

    /// The method as text.
    pub open spec fn text(self) -> Seq<char> {
        match self {
            MethodView::Shipping { carrier, service } => "shipping:"@ + carrier + "/"@ + service,
            MethodView::LocalDelivery { window } => "local_delivery:"@ + match window {
                Some(label) => label,
                None => "any"@,
            },
            MethodView::Pickup { location } => "pickup:"@ + match location {
                Some(place) => place,
                None => "default"@,
            },
            MethodView::Digital => "digital"@,
        }
    }

    /// A text that tells any two methods apart: see [`law_codes_tell_methods_apart`].
    pub open spec fn code(self) -> Seq<char> {
        match self {
            MethodView::Shipping { carrier, service } => "S"@ + counted(carrier) + counted(
                service,
            ),
            MethodView::LocalDelivery { window } => "L"@ + optional_counted(window),
            MethodView::Pickup { location } => "P"@ + optional_counted(location),
            MethodView::Digital => "D"@,
        }
    }
}

impl FulfillmentMethod {
    /// Stable discriminant used when grouping items.
    pub fn kind(&self) -> (kind: &'static str)
        ensures
            kind@ == self@.kind(),
    {
        match self {
            FulfillmentMethod::Shipping { .. } => "shipping",
            FulfillmentMethod::LocalDelivery { .. } => "local_delivery",
            FulfillmentMethod::Pickup { .. } => "pickup",
            FulfillmentMethod::Digital => "digital",
        }
    }

    /// Whether funds should normally only be captured once the goods move.
    ///
    /// Delivery-style fulfilment is the canonical case for authorise-now /
    /// capture-on-delivery, whereas digital goods can be captured immediately.
    pub fn prefers_delayed_capture(&self) -> (delayed: bool)
        ensures
            delayed == !(self is Digital),
    {
        !matches!(self, FulfillmentMethod::Digital)
    }

    /// The method as text.
    pub fn to_text(&self) -> (text: String)
        ensures
            text@ == self@.text(),
    {
        match self {
            FulfillmentMethod::Shipping { carrier, service } => {
                let mut text = join("shipping:", carrier.as_str());
                text.append("/");
                text.append(service.as_str());
                text
            },
            FulfillmentMethod::LocalDelivery { window } => match window {
                Some(label) => join("local_delivery:", label.as_str()),
                None => join("local_delivery:", "any"),
            },
            FulfillmentMethod::Pickup { location } => match location {
                Some(place) => join("pickup:", place.as_str()),
                None => join("pickup:", "default"),
            },
            FulfillmentMethod::Digital => "digital".to_owned(),
        }
    }

    /// Whether two methods are the same.
    pub fn same(&self, other: &Self) -> (same: bool)
        ensures
            same == (self@ == other@),
    {
        match (self, other) {
            (
                FulfillmentMethod::Shipping { carrier: a, service: b },
                FulfillmentMethod::Shipping { carrier: c, service: d },
            ) => same_text(a.as_str(), c.as_str()) && same_text(b.as_str(), d.as_str()),
            (
                FulfillmentMethod::LocalDelivery { window: a },
                FulfillmentMethod::LocalDelivery { window: b },
            ) => same_optional_text(a, b),
            (
                FulfillmentMethod::Pickup { location: a },
                FulfillmentMethod::Pickup { location: b },
            ) => same_optional_text(a, b),
            (FulfillmentMethod::Digital, FulfillmentMethod::Digital) => true,
            _ => false,
        }
    }

    fn push_code(&self, text: &mut String)
        ensures
            final(text)@ == old(text)@ + self@.code(),
    {
        match self {
            FulfillmentMethod::Shipping { carrier, service } => {
                text.append("S");
                push_counted(text, carrier.as_str());
                push_counted(text, service.as_str());
            },
            FulfillmentMethod::LocalDelivery { window } => {
                text.append("L");
                push_optional(text, window);
            },
            FulfillmentMethod::Pickup { location } => {
                text.append("P");
                push_optional(text, location);
            },
            FulfillmentMethod::Digital => {
                text.append("D");
            },
        }
        assert(text@ =~= old(text)@ + self@.code());
    }
}

/// A text preceded by its length.
pub open spec fn counted(text: Seq<char>) -> Seq<char> {
    digits(text.len()) + ":"@ + text
}

/// A text preceded by its length, or a mark that it is absent.
pub open spec fn optional_counted(text: Option<Seq<char>>) -> Seq<char> {
    match text {
        Some(value) => "+"@ + counted(value),
        None => "-"@,
    }
}

/// An instant as text, or a mark that it is absent.
pub open spec fn optional_instant(at: Option<Timestamp>) -> Seq<char> {
    match at {
        Some(value) => "@"@ + integer_text(value.seconds as int) + "."@ + digits(
            value.nanos as nat,
        ),
        None => "-"@,
    }
}

fn push_counted(text: &mut String, part: &str)
    ensures
        final(text)@ == old(text)@ + counted(part@),
{
    push_digits(text, part.unicode_len() as u64);
    text.append(":");
    text.append(part);
    assert(text@ =~= old(text)@ + counted(part@));
}

fn push_optional(text: &mut String, part: &Option<String>)
    ensures
        final(text)@ == old(text)@ + optional_counted(optional_text(*part)),
{
    match part {
        Some(value) => {
            text.append("+");
            push_counted(text, value.as_str());
        },
        None => {
            text.append("-");
        },
    }
    assert(text@ =~= old(text)@ + optional_counted(optional_text(*part)));
}

fn push_instant(text: &mut String, at: Option<Timestamp>)
    ensures
        final(text)@ == old(text)@ + optional_instant(at),
{
    match at {
        Some(value) => {
            text.append("@");
            text.append(signed_to_text(value.seconds).as_str());
            text.append(".");
            push_digits(text, value.nanos as u64);
        },
        None => {
            text.append("-");
        },
    }
    assert(text@ =~= old(text)@ + optional_instant(at));
}

/// What a buyer chose for a particular line item.
#[derive(Debug, PartialEq, Eq, Hash)]
pub struct FulfillmentSelection {
    /// Delivery mechanism.
    pub method: FulfillmentMethod,
    /// Origin location / warehouse. Items shipping from different origins are
    /// never merged into one shipment.
    pub origin: Option<String>,
    /// Requested delivery or pickup time.
    pub scheduled_for: Option<Timestamp>,
}

/// What decides how an item is delivered.
pub struct SelectionView {
    /// Delivery mechanism.
    pub method: MethodView,
    /// Origin location.
    pub origin: Option<Seq<char>>,
    /// Requested time.
    pub scheduled_for: Option<Timestamp>,
}

impl View for FulfillmentSelection {
    type V = SelectionView;

    open spec fn view(&self) -> SelectionView {
        SelectionView {
            method: self.method@,
            origin: optional_text(self.origin),
            scheduled_for: self.scheduled_for,
        }
    }
}

impl Clone for FulfillmentSelection {
    fn clone(&self) -> (selection: Self)
        ensures
            selection == *self,
    {
        FulfillmentSelection {
            method: self.method.clone(),
            origin: self.origin.clone(),
            scheduled_for: self.scheduled_for,
        }
    }
}

/// The selection of an item for which none was made.
pub open spec fn standard_selection() -> SelectionView {
    SelectionView {
        method: MethodView::Shipping { carrier: "standard"@, service: "ground"@ },
        origin: None,
        scheduled_for: None,
    }
}

impl Default for FulfillmentSelection {
    fn default() -> (selection: Self)
        ensures
            selection@ == standard_selection(),
    {
        FulfillmentSelection::new(
            FulfillmentMethod::Shipping {
                carrier: "standard".to_owned(),
                service: "ground".to_owned(),
            },
        )
    }
}

impl FulfillmentSelection {
    /// A selection with only a method.
    pub fn new(method: FulfillmentMethod) -> (selection: Self)
        ensures
            selection == (FulfillmentSelection { method, origin: None, scheduled_for: None }),
    {
        FulfillmentSelection { method, origin: None, scheduled_for: None }
    }

    /// Builder: set the origin location.
    pub fn with_origin(self, origin: &str) -> (selection: Self)
        ensures
            optional_text(selection.origin) == Some(origin@),
            selection == (FulfillmentSelection { origin: selection.origin, ..self }),
    {
        FulfillmentSelection { origin: Some(origin.to_owned()), ..self }
    }

    /// Builder: set the requested delivery time.
    pub fn with_schedule(self, at: Timestamp) -> (selection: Self)
        ensures
            selection == (FulfillmentSelection { scheduled_for: Some(at), ..self }),
    {
        FulfillmentSelection { scheduled_for: Some(at), ..self }
    }

    /// The grouping key for a selection made by `shop`.
    pub fn key(&self, shop: &ShopId) -> (key: FulfillmentKey)
        ensures
            key@ == (KeyView { shop: shop@, selection: self@ }),
    {
        FulfillmentKey {
            shop_id: shop.clone(),
            method: self.method.clone(),
            origin: self.origin.clone(),
            scheduled_for: self.scheduled_for,
        }
    }

    /// Whether two selections are the same.
    pub fn same(&self, other: &Self) -> (same: bool)
        ensures
            same == (self@ == other@),
    {
        self.method.same(&other.method) && same_optional_text(&self.origin, &other.origin)
            && same_instant(self.scheduled_for, other.scheduled_for)
    }
}

fn same_instant(a: Option<Timestamp>, b: Option<Timestamp>) -> (same: bool)
    ensures
        same == (a == b),
{
    match (a, b) {
        (Some(x), Some(y)) => x == y,
        (None, None) => true,
        _ => false,
    }
}

/// The identity of a shipment: same shop, same method, same origin, same slot.
#[derive(Debug, Clone, PartialEq, Eq, Hash)]
pub struct FulfillmentKey {
    /// Shop that ships the goods.
    pub shop_id: ShopId,
    /// Delivery mechanism.
    pub method: FulfillmentMethod,
    /// Origin location.
    pub origin: Option<String>,
    /// Scheduled time.
    pub scheduled_for: Option<Timestamp>,
}

/// What makes two shipments one.
pub struct KeyView {
    /// Shop that ships the goods.
    pub shop: Seq<char>,
    /// What the buyer chose.
    pub selection: SelectionView,
}

impl View for FulfillmentKey {
    type V = KeyView;

    open spec fn view(&self) -> KeyView {
        KeyView {
            shop: self.shop_id@,
            selection: SelectionView {
                method: self.method@,
                origin: optional_text(self.origin),
                scheduled_for: self.scheduled_for,
            },
        }
    }
}

/// The hash of a text.
pub uninterp spec fn text_digest(text: Seq<char>) -> u64;

/// Hashes a text with `BuildHasher::hash_one` over the standard library's default
/// hasher, unseeded: equal texts have equal hashes. The algorithm is that of the
/// release of the standard library the crate is built with. That different texts
/// have different hashes is likely, and not stated.
#[verifier::external_body]
fn hash_text(text: &str) -> (digest: u64)
    ensures
        digest == text_digest(text@),
{
    BuildHasherDefault::<DefaultHasher>::default().hash_one(text)
}

/// The last `width` hexadecimal digits of a number.
pub open spec fn hex_text(n: nat, width: nat) -> Seq<char>
    decreases width,
{
    if width == 0 {
        Seq::empty()
    } else {
        hex_text(n / 16, (width - 1) as nat).push(hex_char(n % 16))
    }
}

fn push_hex(text: &mut String, n: u64, width: u8)
    ensures
        final(text)@ == old(text)@ + hex_text(n as nat, width as nat),
    decreases width,
{
    if width > 0 {
        push_hex(text, n / 16, width - 1);
        let digit: u8 = (n % 16) as u8;
        if digit < 10 {
            text.push((digit + 48) as char);
        } else {
            text.push((digit + 87) as char);
        }
    }
    assert(text@ =~= old(text)@ + hex_text(n as nat, width as nat));
}

impl KeyView {
    /// A text that tells any two keys apart: see [`law_codes_tell_keys_apart`].
    pub open spec fn code(self) -> Seq<char> {
        counted(self.shop) + self.selection.method.code() + optional_counted(self.selection.origin)
            + optional_instant(self.selection.scheduled_for)
    }

    /// The identifier of the group of items with this key.
    pub open spec fn group_id(self) -> Seq<char> {
        "ful_"@ + hex_text(text_digest(self.code()) as nat, 16)
    }
}

impl FulfillmentKey {
    /// A deterministic group id, so that repeated pricing of an unchanged cart
    /// produces identical quotes (important for idempotency and caching).
    pub fn deterministic_id(&self) -> (id: FulfillmentGroupId)
        ensures
            id@ == self@.group_id(),
    {
        let mut code = String::new();
        push_counted(&mut code, self.shop_id.as_str());
        self.method.push_code(&mut code);
        push_optional(&mut code, &self.origin);
        push_instant(&mut code, self.scheduled_for);
        assert(code@ =~= self@.code());
        let digest: u64 = hash_text(code.as_str());
        let mut text = "ful_".to_owned();
        push_hex(&mut text, digest, 16);
        FulfillmentGroupId::from_string(text.as_str())
    }
}

proof fn lemma_marked_parts(
    a: Seq<char>,
    after_a: Seq<char>,
    b: Seq<char>,
    after_b: Seq<char>,
    mark: char,
)
    requires
        a.push(mark) + after_a == b.push(mark) + after_b,
        !a.contains(mark),
        !b.contains(mark),
    ensures
        a == b,
        after_a == after_b,
{
    let left = a.push(mark) + after_a;
    let right = b.push(mark) + after_b;
    if a.len() < b.len() {
        assert(left[a.len() as int] == mark);
        assert(right[a.len() as int] == b[a.len() as int]);
    } else if b.len() < a.len() {
        assert(right[b.len() as int] == mark);
        assert(left[b.len() as int] == a[b.len() as int]);
    }
    assert forall|i: int| 0 <= i < a.len() implies a[i] == b[i] by {
        assert(left[i] == a[i]);
        assert(right[i] == b[i]);
    }
    assert(a =~= b);
    assert(after_a =~= left.skip(a.len() as int + 1));
    assert(after_b =~= right.skip(b.len() as int + 1));
}

proof fn lemma_digits_hold_no_mark(n: nat, mark: char)
    requires
        !is_ascii_digit(mark),
    ensures
        !digits(n).contains(mark),
{
    lemma_digits(n);
}

proof fn lemma_counted_parts(
    a: Seq<char>,
    after_a: Seq<char>,
    b: Seq<char>,
    after_b: Seq<char>,
)
    requires
        counted(a) + after_a == counted(b) + after_b,
    ensures
        a == b,
        after_a == after_b,
{
    reveal_strlit(":");
    let left = digits(a.len());
    let right = digits(b.len());
    lemma_digits(a.len());
    lemma_digits(b.len());
    lemma_digits_hold_no_mark(a.len(), ':');
    lemma_digits_hold_no_mark(b.len(), ':');
    assert(counted(a) + after_a =~= left.push(':') + (a + after_a));
    assert(counted(b) + after_b =~= right.push(':') + (b + after_b));
    lemma_marked_parts(left, a + after_a, right, b + after_b, ':');
    assert(a.len() == b.len());
    assert(a =~= (a + after_a).take(a.len() as int));
    assert(b =~= (b + after_b).take(b.len() as int));
    assert(after_a =~= (a + after_a).skip(a.len() as int));
    assert(after_b =~= (b + after_b).skip(b.len() as int));
}

proof fn lemma_optional_parts(
    a: Option<Seq<char>>,
    after_a: Seq<char>,
    b: Option<Seq<char>>,
    after_b: Seq<char>,
)
    requires
        optional_counted(a) + after_a == optional_counted(b) + after_b,
    ensures
        a == b,
        after_a == after_b,
{
    reveal_strlit("+");
    reveal_strlit("-");
    let left = optional_counted(a) + after_a;
    let right = optional_counted(b) + after_b;
    assert(left[0] == optional_counted(a)[0]);
    assert(right[0] == optional_counted(b)[0]);
    assert(a is Some <==> b is Some);
    if let (Some(x), Some(y)) = (a, b) {
        assert(counted(x) + after_a =~= left.skip(1));
        assert(counted(y) + after_b =~= right.skip(1));
        lemma_counted_parts(x, after_a, y, after_b);
    } else {
        assert(after_a =~= left.skip(1));
        assert(after_b =~= right.skip(1));
    }
}

proof fn lemma_method_parts(
    a: MethodView,
    after_a: Seq<char>,
    b: MethodView,
    after_b: Seq<char>,
)
    requires
        a.code() + after_a == b.code() + after_b,
    ensures
        a == b,
        after_a == after_b,
{
    reveal_strlit("S");
    reveal_strlit("L");
    reveal_strlit("P");
    reveal_strlit("D");
    let left = a.code() + after_a;
    let right = b.code() + after_b;
    assert(left[0] == a.code()[0]);
    assert(right[0] == b.code()[0]);
    match (a, b) {
        (
            MethodView::Shipping { carrier: first, service: second },
            MethodView::Shipping { carrier: third, service: fourth },
        ) => {
            assert(counted(first) + (counted(second) + after_a) =~= left.skip(1));
            assert(counted(third) + (counted(fourth) + after_b) =~= right.skip(1));
            lemma_counted_parts(
                first,
                counted(second) + after_a,
                third,
                counted(fourth) + after_b,
            );
            lemma_counted_parts(second, after_a, fourth, after_b);
        },
        (MethodView::LocalDelivery { window: first }, MethodView::LocalDelivery { window: second })
        => {
            assert(optional_counted(first) + after_a =~= left.skip(1));
            assert(optional_counted(second) + after_b =~= right.skip(1));
            lemma_optional_parts(first, after_a, second, after_b);
        },
        (MethodView::Pickup { location: first }, MethodView::Pickup { location: second }) => {
            assert(optional_counted(first) + after_a =~= left.skip(1));
            assert(optional_counted(second) + after_b =~= right.skip(1));
            lemma_optional_parts(first, after_a, second, after_b);
        },
        (MethodView::Digital, MethodView::Digital) => {
            assert(after_a =~= left.skip(1));
            assert(after_b =~= right.skip(1));
        },
        _ => {},
    }
}

proof fn lemma_integer_text(n: int)
    ensures
        integer_text(n).len() > 0,
        !integer_text(n).contains('.'),
        n >= 0 ==> integer_text(n)[0] != '-',
{
    let size = if n < 0 {
        (-n) as nat
    } else {
        n as nat
    };
    lemma_digits(size);
    lemma_digits_hold_no_mark(size, '.');
    if n < 0 {
        assert forall|i: int| 0 <= i < integer_text(n).len() implies #[trigger] integer_text(n)[i]
            != '.' by {
            if i > 0 {
                assert(integer_text(n)[i] == digits(size)[i - 1]);
            }
        }
    }
}

proof fn lemma_same_integer(a: int, b: int)
    requires
        integer_text(a) == integer_text(b),
    ensures
        a == b,
{
    lemma_integer_text(a);
    lemma_integer_text(b);
    let first = if a < 0 {
        (-a) as nat
    } else {
        a as nat
    };
    let second = if b < 0 {
        (-b) as nat
    } else {
        b as nat
    };
    lemma_digits(first);
    lemma_digits(second);
    if a < 0 && b < 0 {
        assert(digits(first) =~= integer_text(a).skip(1));
        assert(digits(second) =~= integer_text(b).skip(1));
    } else if a < 0 {
        assert(integer_text(a)[0] == '-');
    } else if b < 0 {
        assert(integer_text(b)[0] == '-');
    }
}

proof fn lemma_same_instant(a: Option<Timestamp>, b: Option<Timestamp>)
    requires
        optional_instant(a) == optional_instant(b),
    ensures
        a == b,
{
    reveal_strlit("@");
    reveal_strlit("-");
    reveal_strlit(".");
    assert(a is Some <==> b is Some) by {
        assert(optional_instant(a)[0] == optional_instant(b)[0]);
    }
    if let (Some(x), Some(y)) = (a, b) {
        let left = integer_text(x.seconds as int);
        let right = integer_text(y.seconds as int);
        assert(optional_instant(a).skip(1) =~= left.push('.') + digits(x.nanos as nat));
        assert(optional_instant(b).skip(1) =~= right.push('.') + digits(y.nanos as nat));
        lemma_integer_text(x.seconds as int);
        lemma_integer_text(y.seconds as int);
        lemma_marked_parts(left, digits(x.nanos as nat), right, digits(y.nanos as nat), '.');
        lemma_same_integer(x.seconds as int, y.seconds as int);
        lemma_digits(x.nanos as nat);
        lemma_digits(y.nanos as nat);
    }
}

/// Different methods have different codes.
pub proof fn law_codes_tell_methods_apart(a: MethodView, b: MethodView)
    requires
        a.code() == b.code(),
    ensures
        a == b,
{
    lemma_method_parts(a, Seq::empty(), b, Seq::empty());
}

/// Different keys have different codes: only a collision of the hash can put items of
/// different shops, methods, origins or slots into one group.
pub proof fn law_codes_tell_keys_apart(a: KeyView, b: KeyView)
    requires
        a.code() == b.code(),
    ensures
        a == b,
{
    let end_a = optional_instant(a.selection.scheduled_for);
    let end_b = optional_instant(b.selection.scheduled_for);
    let tail_a = optional_counted(a.selection.origin) + end_a;
    let tail_b = optional_counted(b.selection.origin) + end_b;
    assert(a.code() =~= counted(a.shop) + (a.selection.method.code() + tail_a));
    assert(b.code() =~= counted(b.shop) + (b.selection.method.code() + tail_b));
    lemma_counted_parts(
        a.shop,
        a.selection.method.code() + tail_a,
        b.shop,
        b.selection.method.code() + tail_b,
    );
    lemma_method_parts(a.selection.method, tail_a, b.selection.method, tail_b);
    lemma_optional_parts(a.selection.origin, end_a, b.selection.origin, end_b);
    lemma_same_instant(a.selection.scheduled_for, b.selection.scheduled_for);
}

/// Keys with the same shop, method, origin and slot have the same group.
pub proof fn law_equal_keys_share_a_group(a: KeyView, b: KeyView)
    requires
        a.shop == b.shop,
        a.selection == b.selection,
    ensures
        a.group_id() == b.group_id(),
{
}

/// One shipment within a cart or order.
#[derive(Debug, Clone, PartialEq)]
pub struct FulfillmentGroup {
    /// Identifier, usually derived from [`FulfillmentKey::deterministic_id`].
    pub id: FulfillmentGroupId,
    /// Shop responsible for the shipment.
    pub shop_id: ShopId,
    /// Delivery mechanism.
    pub method: FulfillmentMethod,
    /// Origin location.
    pub origin: Option<String>,
    /// Scheduled delivery or pickup time.
    pub scheduled_for: Option<Timestamp>,
    /// Destination address; falls back to the cart's shipping address.
    pub destination: Option<Address>,
    /// Shipping charge for the whole group.
    pub shipping_price: Money,
    /// Tax code applied to the shipping charge.
    pub shipping_tax_code: TaxCode,
    /// Items included in this shipment.
    pub items: Vec<LineItemId>,
    /// Current progress of the shipment.
    pub status: FulfillmentStatus,
}

/// The identifiers of a list of lines.
pub open spec fn line_texts(lines: Seq<LineItemId>) -> Seq<Seq<char>> {
    lines.map_values(|line: LineItemId| line@)
}

fn same_lines(a: &Vec<LineItemId>, b: &Vec<LineItemId>) -> (same: bool)
    ensures
        same == (line_texts(a@) == line_texts(b@)),
{
    if a.len() != b.len() {
        assert(line_texts(a@).len() != line_texts(b@).len());
        return false;
    }
    let mut i: usize = 0;
    while i < a.len()
        invariant
            a@.len() == b@.len(),
            i <= a@.len(),
            forall|j: int| 0 <= j < i ==> #[trigger] a@[j]@ == b@[j]@,
        decreases a@.len() - i,
    {
        if !a[i].same(&b[i]) {
            assert(line_texts(a@)[i as int] != line_texts(b@)[i as int]);
            return false;
        }
        i += 1;
    }
    assert(line_texts(a@) =~= line_texts(b@));
    true
}

impl FulfillmentGroup {
    /// Whether two groups are the same shipment, to the same place, with the same charge,
    /// progress and lines.
    pub open spec fn alike(self, other: FulfillmentGroup) -> bool {
        &&& self.id@ == other.id@
        &&& self.key() == other.key()
        &&& self.shipping_price == other.shipping_price
        &&& optional_address(self.destination) == optional_address(other.destination)
        &&& self.shipping_tax_code@ == other.shipping_tax_code@
        &&& self.status == other.status
        &&& line_texts(self.items@) == line_texts(other.items@)
    }

    /// Whether two groups are the same shipment, to the same place, with the same charge,
    /// progress and lines.
    pub fn same(&self, other: &Self) -> (same: bool)
        ensures
            same == self.alike(*other),
    {
        self.id.same(&other.id) && self.shop_id.same(&other.shop_id) && self.method.same(
            &other.method,
        ) && same_optional_text(&self.origin, &other.origin) && same_instant(
            self.scheduled_for,
            other.scheduled_for,
        ) && self.shipping_price == other.shipping_price && same_optional_address(
            &self.destination,
            &other.destination,
        ) && self.shipping_tax_code.same(&other.shipping_tax_code) && self.status == other.status
            && same_lines(&self.items, &other.items)
    }

    /// What makes the group one shipment.
    pub open spec fn key(self) -> KeyView {
        KeyView {
            shop: self.shop_id@,
            selection: SelectionView {
                method: self.method@,
                origin: optional_text(self.origin),
                scheduled_for: self.scheduled_for,
            },
        }
    }

    /// Build an empty group from a key and a shipping charge.
    pub fn from_key(key: FulfillmentKey, shipping_price: Money) -> (group: Self)
        ensures
            group.id@ == key@.group_id(),
            group.key() == key@,
            group.destination is None,
            group.shipping_price == shipping_price,
            group.shipping_tax_code@ == "shipping"@,
            group.items@.len() == 0,
            group.status == FulfillmentStatus::Pending,
    {
        FulfillmentGroup {
            id: key.deterministic_id(),
            shop_id: key.shop_id,
            method: key.method,
            origin: key.origin,
            scheduled_for: key.scheduled_for,
            destination: None,
            shipping_price,
            shipping_tax_code: TaxCode::shipping(),
            items: Vec::new(),
            status: FulfillmentStatus::Pending,
        }
    }

    /// Whether the group holds a line.
    pub open spec fn holds(self, line: Seq<char>) -> bool {
        exists|i: int| 0 <= i < self.items@.len() && (#[trigger] self.items@[i])@ == line
    }

    /// Whether the group holds a line.
    pub fn contains_line(&self, line: &LineItemId) -> (held: bool)
        ensures
            held == self.holds(line@),
    {
        let mut i: usize = 0;
        while i < self.items.len()
            invariant
                i <= self.items@.len(),
                forall|j: int| 0 <= j < i ==> (#[trigger] self.items@[j])@ != line@,
            decreases self.items@.len() - i,
        {
            if self.items[i].same(line) {
                return true;
            }
            i += 1;
        }
        false
    }
}

/// Lifecycle of a shipment. Capture of funds is typically tied to `Delivered`
/// (or `Shipped`, depending on the merchant's policy).
#[derive(Debug, Clone, Copy, PartialEq, Eq, Hash, Structural)]
pub enum FulfillmentStatus {
    /// Not yet handed to the carrier.
    Pending,
    /// Being picked and packed.
    Processing,
    /// Handed over to the carrier / courier.
    Shipped,
    /// Received by the customer. Usual trigger for capture.
    Delivered,
    /// Could not be delivered and came back.
    Returned,
    /// Cancelled before dispatch.
    Canceled,
}

impl Default for FulfillmentStatus {
    fn default() -> (status: Self)
        ensures
            status == FulfillmentStatus::Pending,
    {
        FulfillmentStatus::Pending
    }
}

impl FulfillmentStatus {
    /// Whether a group may go from this state to `next`.
    pub open spec fn may_become(self, next: FulfillmentStatus) -> bool {
        match self {
            FulfillmentStatus::Pending => next is Processing || next is Canceled,
            FulfillmentStatus::Processing => next is Shipped || next is Canceled,
            FulfillmentStatus::Shipped => next is Delivered || next is Returned,
            FulfillmentStatus::Delivered => next is Returned,
            FulfillmentStatus::Returned => false,
            FulfillmentStatus::Canceled => false,
        }
    }

    /// The name of the state.
    pub open spec fn name(self) -> Seq<char> {
        match self {
            FulfillmentStatus::Pending => "Pending"@,
            FulfillmentStatus::Processing => "Processing"@,
            FulfillmentStatus::Shipped => "Shipped"@,
            FulfillmentStatus::Delivered => "Delivered"@,
            FulfillmentStatus::Returned => "Returned"@,
            FulfillmentStatus::Canceled => "Canceled"@,
        }
    }

    /// Whether the group can still transition to `next`.
    pub fn can_transition_to(self, next: FulfillmentStatus) -> (allowed: bool)
        ensures
            allowed == self.may_become(next),
    {
        matches!(
            (self, next),
            (FulfillmentStatus::Pending, FulfillmentStatus::Processing)
                | (FulfillmentStatus::Pending, FulfillmentStatus::Canceled)
                | (FulfillmentStatus::Processing, FulfillmentStatus::Shipped)
                | (FulfillmentStatus::Processing, FulfillmentStatus::Canceled)
                | (FulfillmentStatus::Shipped, FulfillmentStatus::Delivered)
                | (FulfillmentStatus::Shipped, FulfillmentStatus::Returned)
                | (FulfillmentStatus::Delivered, FulfillmentStatus::Returned)
        )
    }

    /// Terminal states no longer change.
    pub fn is_terminal(self) -> (terminal: bool)
        ensures
            terminal == (self is Returned || self is Canceled),
    {
        matches!(self, FulfillmentStatus::Returned | FulfillmentStatus::Canceled)
    }

    /// The name of the state.
    pub fn as_str(self) -> (name: &'static str)
        ensures
            name@ == self.name(),
    {
        match self {
            FulfillmentStatus::Pending => "Pending",
            FulfillmentStatus::Processing => "Processing",
            FulfillmentStatus::Shipped => "Shipped",
            FulfillmentStatus::Delivered => "Delivered",
            FulfillmentStatus::Returned => "Returned",
            FulfillmentStatus::Canceled => "Canceled",
        }
    }
}

/// A terminal state never changes, no state becomes itself, every other state can
/// still change, and goods are never delivered without being shipped.
pub proof fn law_shipment_lifecycle(from: FulfillmentStatus, to: FulfillmentStatus)
    ensures
        from is Returned || from is Canceled ==> !from.may_become(to),
        !(from is Returned || from is Canceled) ==> exists|next: FulfillmentStatus|
            from.may_become(next),
        !from.may_become(from),
        from.may_become(to) && to is Delivered ==> from is Shipped,
        from.may_become(to) ==> !to.may_become(from),
{
    if !(from is Returned || from is Canceled) {
        assert(from.may_become(FulfillmentStatus::Canceled) || from.may_become(
            FulfillmentStatus::Returned,
        ));
    }
}

/// From where each state of a shipment can be reached: goods are processed, shipped and
/// delivered in turn, are cancelled only before they are shipped and come back only after.
pub proof fn law_shipments_go_in_turn(from: FulfillmentStatus, to: FulfillmentStatus)
    ensures
        to is Pending ==> !from.may_become(to),
        to is Processing ==> (from.may_become(to) <==> from is Pending),
        to is Shipped ==> (from.may_become(to) <==> from is Processing),
        to is Delivered ==> (from.may_become(to) <==> from is Shipped),
        to is Returned ==> (from.may_become(to) <==> from is Shipped || from is Delivered),
        to is Canceled ==> (from.may_become(to) <==> from is Pending || from is Processing),
{
}

} // verus!
