//! Shopping cart modelling and mutation.
//!
//! A [`Cart`] is a mutable, versioned aggregate. All mutations go through
//! methods that keep the invariants intact (single currency, positive
//! quantities, no orphaned fulfilment groups) and bump [`Cart::version`], which
//! the repositories use for optimistic concurrency control.

pub mod fulfillment;
pub mod service;

pub use fulfillment::{
    FulfillmentGroup, FulfillmentKey, FulfillmentMethod, FulfillmentSelection, FulfillmentStatus,
};
pub use service::{CartService, FlatShippingRate, FreeShipping, ShippingRates};

use vstd::prelude::*;

use crate::address::{optional_address, Address};
use crate::cart::fulfillment::{line_texts, standard_selection, KeyView, SelectionView};
use crate::error::{outcome, Error, ErrorView};
use crate::folds::{lemma_error_stays, lemma_finding_stays};
use crate::ids::{is_generated, CartId, CustomerId, FulfillmentGroupId, LineItemId, ShopId};
use crate::money::{Currency, Money};
use crate::pricing::TaxCode;
use crate::text::{
    digits, equal_ignoring_case, join3, push_digits, same_ignoring_case, same_text,
};
use crate::time::Timestamp;
use crate::Metadata;

verus! {

/// A line in a shopping cart.
#[derive(Debug, Clone, PartialEq)]
pub struct CartItem {
    /// Stable identifier for this line.
    pub id: LineItemId,
    /// Shop that sells the item; drives split payments and fulfilment grouping.
    pub shop_id: ShopId,
    /// Merchant SKU.
    pub sku: String,
    /// Display name.
    pub name: String,
    /// Price of one unit, exclusive or inclusive of tax depending on the
    /// [`TaxMode`](crate::pricing::TaxMode) used at pricing time.
    pub unit_price: Money,
    /// Number of units. Always `>= 1`.
    pub quantity: u32,
    /// Product tax classification.
    pub tax_code: TaxCode,
    /// How the buyer wants this item delivered.
    pub fulfillment: Option<FulfillmentSelection>,
    /// Resolved fulfilment group; set by [`Cart::regroup_fulfillment`].
    pub fulfillment_group_id: Option<FulfillmentGroupId>,
    /// Arbitrary merchant data carried through to the order.
    pub metadata: Metadata,
}

/// What a buyer chose, when they did.
pub open spec fn optional_selection(selection: Option<FulfillmentSelection>) -> Option<
    SelectionView,
> {
    match selection {
        Some(chosen) => Some(chosen@),
        None => None,
    }
}

/// The text of an optional group identifier.
pub open spec fn optional_group(id: Option<FulfillmentGroupId>) -> Option<Seq<char>> {
    match id {
        Some(value) => Some(value@),
        None => None,
    }
}

fn same_selection(
    a: &Option<FulfillmentSelection>,
    b: &Option<FulfillmentSelection>,
) -> (same: bool)
    ensures
        same == (optional_selection(*a) == optional_selection(*b)),
{
    match (a, b) {
        (Some(x), Some(y)) => x.same(y),
        (None, None) => true,
        _ => false,
    }
}

impl CartItem {
    /// What decides which shipment the item goes in.
    pub open spec fn shipment(self) -> KeyView {
        KeyView {
            shop: self.shop_id@,
            selection: match self.fulfillment {
                Some(selection) => selection@,
                None => standard_selection(),
            },
        }
    }

    /// Whether two lines may become one.
    pub open spec fn mergeable(self, other: CartItem) -> bool {
        &&& self.shop_id@ == other.shop_id@
        &&& self.sku@ == other.sku@
        &&& self.unit_price == other.unit_price
        &&& self.tax_code@ == other.tax_code@
        &&& optional_selection(self.fulfillment) == optional_selection(other.fulfillment)
    }

    /// Create a line item with a generated id.
    pub fn new(
        shop_id: &str,
        sku: &str,
        name: &str,
        unit_price: Money,
        quantity: u32,
    ) -> (item: Result<Self, Error>)
        ensures
            match item {
                Ok(made) => {
                    &&& quantity >= 1
                    &&& unit_price.minor >= 0
                    &&& is_generated(made.id@, "li"@)
                    &&& made.shop_id@ == shop_id@
                    &&& made.sku@ == sku@
                    &&& made.name@ == name@
                    &&& made.unit_price == unit_price
                    &&& made.quantity == quantity
                    &&& made.tax_code == TaxCode::STANDARD
                    &&& made.fulfillment is None
                    &&& made.fulfillment_group_id is None
                    &&& made.metadata@ == Map::<Seq<char>, String>::empty()
                },
                Err(error) => if quantity == 0 {
                    error@ == ErrorView::Validation("quantity must be at least 1"@)
                } else {
                    unit_price.minor < 0 && error@ == ErrorView::Validation(
                        "unit price cannot be negative"@,
                    )
                },
            },
    {
        if quantity == 0 {
            return Err(Error::validation("quantity must be at least 1"));
        }
        if unit_price.is_negative() {
            return Err(Error::validation("unit price cannot be negative"));
        }
        Ok(
            CartItem {
                id: LineItemId::new(),
                shop_id: ShopId::from_string(shop_id),
                sku: sku.to_owned(),
                name: name.to_owned(),
                unit_price,
                quantity,
                tax_code: TaxCode::STANDARD,
                fulfillment: None,
                fulfillment_group_id: None,
                metadata: Metadata::new(),
            },
        )
    }

    /// Builder: set the tax code.
    pub fn with_tax_code(self, tax_code: TaxCode) -> (item: Self)
        ensures
            item == (CartItem { tax_code, ..self }),
    {
        CartItem { tax_code, ..self }
    }

    /// Builder: set the fulfilment selection.
    pub fn with_fulfillment(self, selection: FulfillmentSelection) -> (item: Self)
        ensures
            item == (CartItem { fulfillment: Some(selection), ..self }),
    {
        CartItem { fulfillment: Some(selection), ..self }
    }

    /// Builder: attach metadata.
    pub fn with_metadata(self, key: &str, value: &str) -> (item: Self)
        ensures
            item == (CartItem { metadata: item.metadata, ..self }),
            exists|stored: String|
                stored@ == value@ && item.metadata@ == #[trigger] self.metadata@.insert(
                    key@,
                    stored,
                ),
    {
        let mut metadata = self.metadata;
        let stored = value.to_owned();
        let ghost kept = stored;
        metadata.insert(key.to_owned(), stored);
        let item = CartItem { metadata, ..self };
        assert(item.metadata@ == self.metadata@.insert(key@, kept));
        item
    }

    /// Builder: override the generated id (useful for deterministic tests).
    pub fn with_id(self, id: LineItemId) -> (item: Self)
        ensures
            item == (CartItem { id, ..self }),
    {
        CartItem { id, ..self }
    }

    /// `unit_price * quantity`.
    pub fn subtotal(&self) -> (amount: Result<Money, Error>)
        ensures
            outcome(amount) == self.unit_price.times(self.quantity as int),
    {
        self.unit_price.try_mul(self.quantity as i64)
    }
}

/// A versioned shopping cart.
#[derive(Debug, Clone, PartialEq)]
pub struct Cart {
    /// Identifier.
    pub id: CartId,
    /// Owner of the cart, if the shopper is known.
    pub customer_id: Option<CustomerId>,
    /// The single currency all amounts in this cart are denominated in.
    pub currency: Currency,
    /// Line items.
    pub items: Vec<CartItem>,
    /// Shipments derived from the items' fulfilment selections.
    pub fulfillment_groups: Vec<FulfillmentGroup>,
    /// Promotion codes entered by the shopper. Resolved at pricing time.
    pub discount_codes: Vec<String>,
    /// Gift cards the shopper wants to redeem, by code.
    pub gift_card_codes: Vec<String>,
    /// Whether shop credit should be applied automatically at checkout.
    pub apply_shop_credit: bool,
    /// Where the goods go. Drives destination-based tax.
    pub shipping_address: Option<Address>,
    /// Billing address of the payment instrument.
    pub billing_address: Option<Address>,
    /// Arbitrary merchant data.
    pub metadata: Metadata,
    /// Optimistic concurrency token; incremented by every mutation.
    pub version: u64,
    /// Creation timestamp.
    pub created_at: Timestamp,
    /// Last mutation timestamp.
    pub updated_at: Timestamp,
}

/// The version after one more mutation.
pub open spec fn next_version(version: u64) -> u64 {
    if version < u64::MAX {
        (version + 1) as u64
    } else {
        version
    }
}

/// The position of the first item that satisfies `test`, or the length.
pub open spec fn first_item(items: Seq<CartItem>, test: spec_fn(CartItem) -> bool) -> int
    decreases items.len(),
{
    if items.len() == 0 || test(items[0]) {
        0
    } else {
        1 + first_item(items.drop_first(), test)
    }
}

proof fn lemma_first_item(items: Seq<CartItem>, test: spec_fn(CartItem) -> bool, at: int)
    requires
        0 <= at <= items.len(),
        at < items.len() ==> test(items[at]),
        forall|i: int| 0 <= i < at ==> !test(#[trigger] items[i]),
    ensures
        first_item(items, test) == at,
    decreases items.len(),
{
    if at > 0 {
        assert(!test(items[0]));
        let rest = items.drop_first();
        assert forall|i: int| 0 <= i < at - 1 implies !test(#[trigger] rest[i]) by {
            assert(rest[i] == items[i + 1]);
        }
        lemma_first_item(rest, test, at - 1);
    }
}

/// The first item lies in the list, satisfies the test, and none before it does.
proof fn lemma_first_item_holds(items: Seq<CartItem>, test: spec_fn(CartItem) -> bool)
    ensures
        0 <= first_item(items, test) <= items.len(),
        first_item(items, test) < items.len() ==> test(items[first_item(items, test)]),
        forall|i: int| 0 <= i < first_item(items, test) ==> !test(#[trigger] items[i]),
    decreases items.len(),
{
    if items.len() > 0 && !test(items[0]) {
        let rest = items.drop_first();
        lemma_first_item_holds(rest, test);
        assert forall|i: int| 0 <= i < first_item(items, test) implies !test(
            #[trigger] items[i],
        ) by {
            if i > 0 {
                assert(rest[i - 1] == items[i]);
            }
        }
    }
}

/// The position of the line with an identifier.
pub open spec fn line_index(items: Seq<CartItem>, line: Seq<char>) -> int {
    first_item(items, |item: CartItem| item.id@ == line)
}

/// The position of the line that another one merges into.
pub open spec fn merge_index(items: Seq<CartItem>, added: CartItem) -> int {
    first_item(items, |item: CartItem| item.mergeable(added))
}

/// The items without the lines of an identifier.
pub open spec fn without_line(items: Seq<CartItem>, line: Seq<char>) -> Seq<CartItem>
    decreases items.len(),
{
    if items.len() == 0 {
        Seq::empty()
    } else if items.last().id@ == line {
        without_line(items.drop_last(), line)
    } else {
        without_line(items.drop_last(), line).push(items.last())
    }
}

/// The identifiers in a list other than one.
pub open spec fn without_id(ids: Seq<LineItemId>, line: Seq<char>) -> Seq<LineItemId>
    decreases ids.len(),
{
    if ids.len() == 0 {
        Seq::empty()
    } else if ids.last()@ == line {
        without_id(ids.drop_last(), line)
    } else {
        without_id(ids.drop_last(), line).push(ids.last())
    }
}

/// Whether `after` is `before` with a line detached from its groups and the groups
/// left empty removed.
pub open spec fn pruned(
    before: Seq<FulfillmentGroup>,
    after: Seq<FulfillmentGroup>,
    line: Seq<char>,
) -> bool
    decreases before.len(),
{
    if before.len() == 0 {
        after.len() == 0
    } else {
        let kept = without_id(before.last().items@, line);
        if kept.len() == 0 {
            pruned(before.drop_last(), after, line)
        } else {
            &&& after.len() > 0
            &&& after.last().items@ == kept
            &&& after.last() == (FulfillmentGroup { items: after.last().items, ..before.last() })
            &&& pruned(before.drop_last(), after.drop_last(), line)
        }
    }
}

/// Whether a list of codes holds a code, whatever the case of its letters.
pub open spec fn has_code(codes: Seq<String>, code: Seq<char>) -> bool {
    exists|i: int| 0 <= i < codes.len() && same_ignoring_case((#[trigger] codes[i])@, code)
}

/// The codes that differ from one in more than the case of their letters.
pub open spec fn without_code(codes: Seq<String>, code: Seq<char>) -> Seq<String>
    decreases codes.len(),
{
    if codes.len() == 0 {
        Seq::empty()
    } else if same_ignoring_case(codes.last()@, code) {
        without_code(codes.drop_last(), code)
    } else {
        without_code(codes.drop_last(), code).push(codes.last())
    }
}

/// Whether `after` is `before` with a code at the end.
pub open spec fn code_appended(before: Seq<String>, code: Seq<char>, after: Seq<String>) -> bool {
    &&& after.len() == before.len() + 1
    &&& after.drop_last() == before
    &&& after.last()@ == code
}

fn contains_code(codes: &Vec<String>, code: &str) -> (found: bool)
    ensures
        found == has_code(codes@, code@),
{
    let mut i: usize = 0;
    while i < codes.len()
        invariant
            i <= codes@.len(),
            forall|j: int| 0 <= j < i ==> !same_ignoring_case((#[trigger] codes@[j])@, code@),
        decreases codes@.len() - i,
    {
        if equal_ignoring_case(codes[i].as_str(), code) {
            return true;
        }
        i += 1;
    }
    false
}

fn drop_code(codes: &Vec<String>, code: &str) -> (kept: Vec<String>)
    ensures
        kept@ == without_code(codes@, code@),
{
    let mut kept: Vec<String> = Vec::new();
    let mut i: usize = 0;
    assert(codes@.take(0) =~= Seq::<String>::empty());
    while i < codes.len()
        invariant
            i <= codes@.len(),
            kept@ == without_code(codes@.take(i as int), code@),
        decreases codes@.len() - i,
    {
        assert(codes@.take(i + 1).drop_last() =~= codes@.take(i as int));
        if !equal_ignoring_case(codes[i].as_str(), code) {
            kept.push(codes[i].clone());
        }
        i += 1;
    }
    assert(codes@.take(i as int) =~= codes@);
    kept
}

fn drop_id(ids: &Vec<LineItemId>, line: &LineItemId) -> (kept: Vec<LineItemId>)
    ensures
        kept@ == without_id(ids@, line@),
{
    let mut kept: Vec<LineItemId> = Vec::new();
    let mut i: usize = 0;
    assert(ids@.take(0) =~= Seq::<LineItemId>::empty());
    while i < ids.len()
        invariant
            i <= ids@.len(),
            kept@ == without_id(ids@.take(i as int), line@),
        decreases ids@.len() - i,
    {
        assert(ids@.take(i + 1).drop_last() =~= ids@.take(i as int));
        if !ids[i].same(line) {
            kept.push(ids[i].clone());
        }
        i += 1;
    }
    assert(ids@.take(i as int) =~= ids@);
    kept
}

/// Whether an item keeps the rules of a cart in `currency`.
pub open spec fn sound_item(item: CartItem, currency: Currency) -> bool {
    item.quantity >= 1 && item.unit_price.currency == currency
}

/// The group that an item goes in.
pub open spec fn item_group(item: CartItem) -> Seq<char> {
    item.shipment().group_id()
}

/// The groups of a list of items, in the order they are first needed.
pub open spec fn group_ids(items: Seq<CartItem>) -> Seq<Seq<char>>
    decreases items.len(),
{
    if items.len() == 0 {
        Seq::empty()
    } else {
        let before = group_ids(items.drop_last());
        if before.contains(item_group(items.last())) {
            before
        } else {
            before.push(item_group(items.last()))
        }
    }
}

/// The shipments of a list of items, in the order they are first needed.
pub open spec fn group_keys(items: Seq<CartItem>) -> Seq<KeyView>
    decreases items.len(),
{
    if items.len() == 0 {
        Seq::empty()
    } else {
        let before = group_keys(items.drop_last());
        if group_ids(items.drop_last()).contains(item_group(items.last())) {
            before
        } else {
            before.push(items.last().shipment())
        }
    }
}

/// The lines that go in a group, in order.
pub open spec fn group_lines(items: Seq<CartItem>, group: Seq<char>) -> Seq<Seq<char>>
    decreases items.len(),
{
    if items.len() == 0 {
        Seq::empty()
    } else {
        let before = group_lines(items.drop_last(), group);
        if item_group(items.last()) == group {
            before.push(items.last().id@)
        } else {
            before
        }
    }
}

/// The group recorded on each line once the first `n` lines have been assigned. A
/// line is found by its identifier.
pub open spec fn assigned(items: Seq<CartItem>, n: int) -> Seq<Option<Seq<char>>>
    decreases n,
{
    if n <= 0 {
        items.map_values(|item: CartItem| optional_group(item.fulfillment_group_id))
    } else {
        assigned(items, n - 1).update(
            line_index(items, items[n - 1].id@),
            Some(item_group(items[n - 1])),
        )
    }
}

proof fn lemma_assigned_len(items: Seq<CartItem>, n: int)
    requires
        0 <= n <= items.len(),
    ensures
        assigned(items, n).len() == items.len(),
    decreases n,
{
    if n > 0 {
        let test = |item: CartItem| item.id@ == items[n - 1].id@;
        lemma_first_item_holds(items, test);
        assert(test(items[n - 1]));
        lemma_assigned_len(items, n - 1);
    }
}

proof fn lemma_groups(items: Seq<CartItem>)
    ensures
        group_ids(items).len() == group_keys(items).len(),
        forall|k: int|
            0 <= k < group_ids(items).len() ==> (#[trigger] group_keys(items)[k]).group_id()
                == group_ids(items)[k],
        forall|i: int|
            0 <= i < items.len() ==> group_ids(items).contains(item_group(#[trigger] items[i])),
        forall|j: int, k: int|
            0 <= j < k < group_ids(items).len() ==> group_ids(items)[j] != group_ids(items)[k],
    decreases items.len(),
{
    if items.len() > 0 {
        let rest = items.drop_last();
        lemma_groups(rest);
        let before = group_ids(rest);
        let after = group_ids(items);
        let last = item_group(items.last());
        assert forall|i: int| 0 <= i < items.len() implies after.contains(
            item_group(#[trigger] items[i]),
        ) by {
            if i < rest.len() {
                assert(rest[i] == items[i]);
                let k = before.index_of(item_group(rest[i]));
                assert(before[k] == item_group(rest[i]));
                assert(after[k] == before[k]);
            } else if !before.contains(last) {
                assert(after[before.len() as int] == last);
            }
        }
        assert forall|j: int, k: int| 0 <= j < k < after.len() implies after[j] != after[k] by {
            if k == before.len() {
                assert(before[j] != last);
            }
        }
        assert forall|k: int| 0 <= k < after.len() implies (#[trigger] group_keys(
            items,
        )[k]).group_id() == after[k] by {
            if k < before.len() {
                assert(group_keys(rest)[k].group_id() == before[k]);
            }
        }
    }
}

/// Whether a group is the one that regrouping makes for a shipment.
pub open spec fn is_group(
    group: FulfillmentGroup,
    key: KeyView,
    price: Money,
    destination: Option<Address>,
    lines: Seq<Seq<char>>,
) -> bool {
    &&& group.id@ == key.group_id()
    &&& group.key() == key
    &&& group.shipping_price == price
    &&& optional_address(group.destination) == optional_address(destination)
    &&& group.shipping_tax_code@ == "shipping"@
    &&& group.status == FulfillmentStatus::Pending
    &&& line_texts(group.items@) == lines
}

/// Whether `groups` are the shipments of `items` at the given prices.
pub open spec fn are_groups(
    groups: Seq<FulfillmentGroup>,
    items: Seq<CartItem>,
    prices: Seq<Money>,
    destination: Option<Address>,
) -> bool {
    &&& groups.len() == group_ids(items).len()
    &&& forall|k: int|
        0 <= k < groups.len() ==> is_group(
            #[trigger] groups[k],
            group_keys(items)[k],
            prices[k],
            destination,
            group_lines(items, group_ids(items)[k]),
        )
}

/// Whether a cart's groups are its shipments at the given prices, and its items are
/// assigned to them.
pub open spec fn grouped(cart: Cart, prices: Seq<Money>) -> bool {
    &&& are_groups(cart.fulfillment_groups@, cart.items@, prices, cart.shipping_address)
    &&& forall|i: int|
        0 <= i < cart.items@.len() ==> optional_group(
            (#[trigger] cart.items@[i]).fulfillment_group_id,
        ) == assigned(cart.items@, cart.items@.len() as int)[i]
}

/// What regrouping a cart leads to, given a price for each shipment: nothing where the
/// cart is grouped so already.
pub open spec fn regrouped(before: Cart, after: Cart, prices: Seq<Money>) -> bool {
    if grouped(before, prices) {
        after == before
    } else {
        &&& (Cart {
            items: after.items,
            fulfillment_groups: after.fulfillment_groups,
            ..before
        }).touched(after)
        &&& are_groups(
            after.fulfillment_groups@,
            before.items@,
            prices,
            before.shipping_address,
        )
        &&& reassigned(before.items@, after.items@)
    }
}

/// Whether items differ at most in the groups they are assigned to, which are those of
/// their shipments.
pub open spec fn reassigned(before: Seq<CartItem>, after: Seq<CartItem>) -> bool {
    &&& after.len() == before.len()
    &&& forall|i: int|
        0 <= i < before.len() ==> {
            &&& (#[trigger] after[i]) == (CartItem {
                fulfillment_group_id: after[i].fulfillment_group_id,
                ..before[i]
            })
            &&& optional_group(after[i].fulfillment_group_id) == assigned(
                before,
                before.len() as int,
            )[i]
        }
}

proof fn lemma_regrouped(before: Cart, after: Cart, prices: Seq<Money>)
    requires
        regrouped(before, after, prices),
    ensures
        are_groups(after.fulfillment_groups@, before.items@, prices, before.shipping_address),
        reassigned(before.items@, after.items@),
        after.shipping_address == before.shipping_address,
        after.currency == before.currency,
{
    if grouped(before, prices) {
        assert forall|i: int| 0 <= i < before.items@.len() implies {
            &&& (#[trigger] after.items@[i]) == (CartItem {
                fulfillment_group_id: after.items@[i].fulfillment_group_id,
                ..before.items@[i]
            })
            &&& optional_group(after.items@[i].fulfillment_group_id) == assigned(
                before.items@,
                before.items@.len() as int,
            )[i]
        } by {
            let item = before.items@[i];
        }
    }
}

/// The error of the first of the first `n` items that breaks a rule of the cart.
pub open spec fn item_failure(items: Seq<CartItem>, currency: Currency, n: int) -> Option<ErrorView>
    decreases n,
{
    if n <= 0 {
        None
    } else {
        match item_failure(items, currency, n - 1) {
            Some(error) => Some(error),
            None => {
                let item = items[n - 1];
                if item.quantity == 0 {
                    Some(ErrorView::Validation("line "@ + item.id@ + " has quantity 0"@))
                } else if item.unit_price.currency != currency {
                    Some(
                        ErrorView::CurrencyMismatch {
                            expected: currency,
                            actual: item.unit_price.currency,
                        },
                    )
                } else if item.unit_price.minor < 0 {
                    Some(ErrorView::Validation("line "@ + item.id@ + " has a negative price"@))
                } else {
                    None
                }
            },
        }
    }
}

/// Whether some item has an identifier.
pub open spec fn has_line(items: Seq<CartItem>, line: Seq<char>) -> bool {
    exists|i: int| 0 <= i < items.len() && (#[trigger] items[i]).id@ == line
}

/// The error of the first of the first `n` lines of a group that no item has.
pub open spec fn orphan_failure(items: Seq<CartItem>, group: FulfillmentGroup, n: int) -> Option<
    ErrorView,
>
    decreases n,
{
    if n <= 0 {
        None
    } else {
        match orphan_failure(items, group, n - 1) {
            Some(error) => Some(error),
            None => if has_line(items, group.items@[n - 1]@) {
                None
            } else {
                Some(
                    ErrorView::Validation(
                        "fulfillment group "@ + group.id@ + " references unknown line "@
                            + group.items@[n - 1]@,
                    ),
                )
            },
        }
    }
}

/// The error of the first of the first `n` groups that breaks a rule of the cart.
pub open spec fn group_failure(
    items: Seq<CartItem>,
    groups: Seq<FulfillmentGroup>,
    n: int,
) -> Option<ErrorView>
    decreases n,
{
    if n <= 0 {
        None
    } else {
        match group_failure(items, groups, n - 1) {
            Some(error) => Some(error),
            None => if groups[n - 1].shipping_price.minor < 0 {
                Some(
                    ErrorView::Validation(
                        "fulfillment group "@ + groups[n - 1].id@
                            + " has a negative shipping price"@,
                    ),
                )
            } else {
                orphan_failure(items, groups[n - 1], groups[n - 1].items@.len() as int)
            },
        }
    }
}

/// How many of the first `n` groups hold a line.
pub open spec fn holders(groups: Seq<FulfillmentGroup>, line: Seq<char>, n: int) -> nat
    decreases n,
{
    if n <= 0 {
        0
    } else {
        holders(groups, line, n - 1) + if groups[n - 1].holds(line) {
            1nat
        } else {
            0nat
        }
    }
}

/// The error of the first of the first `n` items that is not in exactly one group.
pub open spec fn membership_failure(
    items: Seq<CartItem>,
    groups: Seq<FulfillmentGroup>,
    n: int,
) -> Option<ErrorView>
    decreases n,
{
    if n <= 0 {
        None
    } else {
        match membership_failure(items, groups, n - 1) {
            Some(error) => Some(error),
            None => {
                let count = holders(groups, items[n - 1].id@, groups.len() as int);
                if count != 1 {
                    Some(
                        ErrorView::Validation(
                            "line "@ + items[n - 1].id@ + " belongs to "@ + digits(count)
                                + " fulfillment groups, expected exactly 1"@,
                        ),
                    )
                } else {
                    None
                }
            },
        }
    }
}

/// The sum of the subtotals of the first `n` items.
pub open spec fn items_subtotal(items: Seq<CartItem>, currency: Currency, n: int) -> Result<
    Money,
    ErrorView,
>
    decreases n,
{
    if n <= 0 {
        Ok(Money { minor: 0, currency })
    } else {
        match items_subtotal(items, currency, n - 1) {
            Err(error) => Err(error),
            Ok(sum) => match items[n - 1].unit_price.times(items[n - 1].quantity as int) {
                Err(error) => Err(error),
                Ok(subtotal) => sum.plus(subtotal),
            },
        }
    }
}

/// The number of units in the first `n` items.
pub open spec fn units(items: Seq<CartItem>, n: int) -> nat
    decreases n,
{
    if n <= 0 {
        0
    } else {
        units(items, n - 1) + items[n - 1].quantity as nat
    }
}

proof fn lemma_units_grow(items: Seq<CartItem>, n: int, m: int)
    requires
        0 <= n <= m,
    ensures
        units(items, n) <= units(items, m),
    decreases m - n,
{
    if n < m {
        lemma_units_grow(items, n, m - 1);
    }
}

/// The shops of a list of items, in first-seen order.
pub open spec fn distinct_shops(items: Seq<CartItem>) -> Seq<Seq<char>>
    decreases items.len(),
{
    if items.len() == 0 {
        Seq::empty()
    } else {
        let before = distinct_shops(items.drop_last());
        if before.contains(items.last().shop_id@) {
            before
        } else {
            before.push(items.last().shop_id@)
        }
    }
}

/// Whether a shipment has lines, and all of them are among `items`.
pub open spec fn holds_lines(group: FulfillmentGroup, items: Seq<CartItem>) -> bool {
    &&& group.items@.len() > 0
    &&& forall|i: int|
        0 <= i < group.items@.len() ==> has_line(items, (#[trigger] group.items@[i])@)
}

impl Cart {
    /// Every line is in the cart's currency and has at least one unit.
    pub open spec fn sound(self) -> bool {
        forall|i: int|
            0 <= i < self.items@.len() ==> sound_item(#[trigger] self.items@[i], self.currency)
    }

    /// Every shipment has lines, and all of them are in the cart.
    pub open spec fn no_orphans(self) -> bool {
        forall|k: int|
            0 <= k < self.fulfillment_groups@.len() ==> holds_lines(
                #[trigger] self.fulfillment_groups@[k],
                self.items@,
            )
    }

    /// What [`Cart::validate`] returns.
    pub open spec fn check(self) -> Result<(), ErrorView> {
        let items = self.items@;
        let groups = self.fulfillment_groups@;
        if items.len() == 0 {
            Err(ErrorView::Validation("cart is empty"@))
        } else {
            match item_failure(items, self.currency, items.len() as int) {
                Some(error) => Err(error),
                None => match group_failure(items, groups, groups.len() as int) {
                    Some(error) => Err(error),
                    None => if groups.len() == 0 {
                        Ok(())
                    } else {
                        match membership_failure(items, groups, items.len() as int) {
                            Some(error) => Err(error),
                            None => Ok(()),
                        }
                    },
                },
            }
        }
    }

    /// The cart after a change that recorded itself as a mutation.
    pub open spec fn touched(self, after: Cart) -> bool {
        after == (Cart {
            version: next_version(self.version),
            updated_at: after.updated_at,
            ..self
        })
    }

    /// What adding an item leads to.
    pub open spec fn addition(
        self,
        item: CartItem,
        after: Cart,
        index: Result<usize, Error>,
    ) -> bool {
        let before = self.items@;
        let at = merge_index(before, item);
        if item.unit_price.currency != self.currency {
            outcome(index) == Err::<usize, ErrorView>(
                ErrorView::CurrencyMismatch {
                    expected: self.currency,
                    actual: item.unit_price.currency,
                },
            ) && after == self
        } else if item.quantity == 0 {
            outcome(index) == Err::<usize, ErrorView>(
                ErrorView::Validation("quantity must be at least 1"@),
            ) && after == self
        } else if at < before.len() && before[at].quantity + item.quantity > u32::MAX {
            outcome(index) == Err::<usize, ErrorView>(
                ErrorView::Validation("quantity overflow"@),
            ) && after == self
        } else {
            &&& index is Ok
            &&& index->Ok_0 == at
            &&& (Cart { items: after.items, ..self }).touched(after)
            &&& after.items@ == if at < before.len() {
                before.update(
                    at,
                    CartItem {
                        quantity: (before[at].quantity + item.quantity) as u32,
                        ..before[at]
                    },
                )
            } else {
                before.push(item)
            }
        }
    }

    /// What changing the quantity of a line leads to.
    pub open spec fn requantified(
        self,
        line: LineItemId,
        quantity: u32,
        after: Cart,
        done: Result<(), Error>,
    ) -> bool {
        let before = self.items@;
        let at = line_index(before, line@);
        if quantity == 0 {
            self.removal(after, line, done)
        } else if at < before.len() {
            &&& done is Ok
            &&& (Cart { items: after.items, ..self }).touched(after)
            &&& after.items@ == before.update(at, CartItem { quantity, ..before[at] })
        } else {
            &&& outcome(done) == Err::<(), ErrorView>(
                ErrorView::NotFound { kind: "line item"@, id: line@ },
            )
            &&& after == self
        }
    }

    /// What emptying the cart leads to.
    pub open spec fn cleared(self, after: Cart) -> bool {
        &&& (Cart {
            items: after.items,
            fulfillment_groups: after.fulfillment_groups,
            ..self
        }).touched(after)
        &&& after.items@.len() == 0
        &&& after.fulfillment_groups@.len() == 0
    }

    /// What entering a promotion code leads to.
    pub open spec fn code_applied(self, code: Seq<char>, after: Cart) -> bool {
        if has_code(self.discount_codes@, code) {
            after == self
        } else {
            &&& (Cart { discount_codes: after.discount_codes, ..self }).touched(after)
            &&& code_appended(self.discount_codes@, code, after.discount_codes@)
        }
    }

    /// What withdrawing a promotion code leads to.
    pub open spec fn code_removed(self, code: Seq<char>, after: Cart) -> bool {
        &&& (Cart { discount_codes: after.discount_codes, ..self }).touched(after)
        &&& after.discount_codes@ == without_code(self.discount_codes@, code)
    }

    /// What staging a gift card leads to.
    pub open spec fn gift_card_added(self, code: Seq<char>, after: Cart) -> bool {
        if has_code(self.gift_card_codes@, code) {
            after == self
        } else {
            &&& (Cart { gift_card_codes: after.gift_card_codes, ..self }).touched(after)
            &&& code_appended(self.gift_card_codes@, code, after.gift_card_codes@)
        }
    }

    /// What choosing to spend shop credit, or not to, leads to.
    pub open spec fn credit_chosen(self, apply: bool, after: Cart) -> bool {
        if self.apply_shop_credit == apply {
            after == self
        } else {
            (Cart { apply_shop_credit: apply, ..self }).touched(after)
        }
    }

    /// Create an empty cart in `currency`.
    pub fn new(currency: Currency) -> (cart: Self)
        ensures
            is_generated(cart.id@, "cart"@),
            cart.customer_id is None,
            cart.currency == currency,
            cart.items@.len() == 0,
            cart.fulfillment_groups@.len() == 0,
            cart.discount_codes@.len() == 0,
            cart.gift_card_codes@.len() == 0,
            !cart.apply_shop_credit,
            cart.shipping_address is None,
            cart.billing_address is None,
            cart.metadata@ == Map::<Seq<char>, String>::empty(),
            cart.version == 0,
            cart.created_at == cart.updated_at,
            cart.sound(),
    {
        let now = Timestamp::now();
        Cart {
            id: CartId::new(),
            customer_id: None,
            currency,
            items: Vec::new(),
            fulfillment_groups: Vec::new(),
            discount_codes: Vec::new(),
            gift_card_codes: Vec::new(),
            apply_shop_credit: false,
            shipping_address: None,
            billing_address: None,
            metadata: Metadata::new(),
            version: 0,
            created_at: now,
            updated_at: now,
        }
    }

    /// Create an empty cart owned by `customer`.
    pub fn for_customer(customer: CustomerId, currency: Currency) -> (cart: Self)
        ensures
            is_generated(cart.id@, "cart"@),
            cart.customer_id == Some(customer),
            cart.currency == currency,
            cart.items@.len() == 0,
            cart.fulfillment_groups@.len() == 0,
            cart.discount_codes@.len() == 0,
            cart.gift_card_codes@.len() == 0,
            !cart.apply_shop_credit,
            cart.shipping_address is None,
            cart.billing_address is None,
            cart.metadata@ == Map::<Seq<char>, String>::empty(),
            cart.version == 0,
            cart.created_at == cart.updated_at,
            cart.sound(),
    {
        let mut cart = Cart::new(currency);
        cart.customer_id = Some(customer);
        cart
    }

    /// Add an item, merging with an existing identical line when possible, and return
    /// the position of its line.
    ///
    /// Two lines merge when they share shop, SKU, unit price, tax code and
    /// fulfilment selection; otherwise a new line is appended. This matches
    /// shopper expectations ("add to cart" twice shows quantity 2) without
    /// silently merging items that must ship separately.
    pub fn add_item(&mut self, item: CartItem) -> (index: Result<usize, Error>)
        ensures
            old(self).addition(item, *final(self), index),
            old(self).sound() ==> final(self).sound(),
    {
        match self.assert_currency(item.unit_price) {
            Ok(_) => {},
            Err(error) => return Err(error),
        }
        if item.quantity == 0 {
            return Err(Error::validation("quantity must be at least 1"));
        }
        let ghost before = self.items@;
        let ghost test = |candidate: CartItem| candidate.mergeable(item);
        let mut at: usize = 0;
        while at < self.items.len() && !self.can_merge(at, &item)
            invariant
                at <= self.items@.len(),
                self.items@ == before,
                test == (|candidate: CartItem| candidate.mergeable(item)),
                forall|i: int| 0 <= i < at ==> !test(#[trigger] before[i]),
            ensures
                at < before.len() ==> test(before[at as int]),
            decreases self.items@.len() - at,
        {
            at += 1;
        }
        proof {
            lemma_first_item(before, test, at as int);
        }
        if at < self.items.len() {
            let quantity = match self.items[at].quantity.checked_add(item.quantity) {
                Some(quantity) => quantity,
                None => return Err(Error::validation("quantity overflow")),
            };
            self.items[at].quantity = quantity;
        } else {
            self.items.push(item);
        }
        self.touch();
        Ok(at)
    }

    fn can_merge(&self, at: usize, item: &CartItem) -> (mergeable: bool)
        requires
            at < self.items@.len(),
        ensures
            mergeable == self.items@[at as int].mergeable(*item),
    {
        let candidate = &self.items[at];
        candidate.shop_id.same(&item.shop_id) && same_text(
            candidate.sku.as_str(),
            item.sku.as_str(),
        ) && candidate.unit_price == item.unit_price && candidate.tax_code.same(&item.tax_code)
            && same_selection(&candidate.fulfillment, &item.fulfillment)
    }

    fn find_line(&self, line: &LineItemId) -> (at: usize)
        ensures
            at == line_index(self.items@, line@),
            at <= self.items@.len(),
            at < self.items@.len() ==> self.items@[at as int].id@ == line@,
    {
        let ghost test = |item: CartItem| item.id@ == line@;
        let mut at: usize = 0;
        while at < self.items.len() && !self.items[at].id.same(line)
            invariant
                at <= self.items@.len(),
                test == (|item: CartItem| item.id@ == line@),
                forall|i: int| 0 <= i < at ==> !test(#[trigger] self.items@[i]),
            ensures
                at < self.items@.len() ==> test(self.items@[at as int]),
            decreases self.items@.len() - at,
        {
            at += 1;
        }
        proof {
            lemma_first_item(self.items@, test, at as int);
        }
        at
    }

    /// Change the quantity of a line. A quantity of zero removes it.
    pub fn set_quantity(&mut self, line: &LineItemId, quantity: u32) -> (done: Result<(), Error>)
        ensures
            old(self).requantified(*line, quantity, *final(self), done),
            old(self).sound() ==> final(self).sound(),
    {
        if quantity == 0 {
            return self.remove_item(line);
        }
        let at = self.find_line(line);
        if at == self.items.len() {
            return Err(Error::not_found(LineItemId::kind(), line.as_str()));
        }
        self.items[at].quantity = quantity;
        self.touch();
        Ok(())
    }

    /// What removing a line leads to.
    pub open spec fn removal(
        self,
        after: Cart,
        line: LineItemId,
        done: Result<(), Error>,
    ) -> bool {
        if has_line(self.items@, line@) {
            &&& done is Ok
            &&& (Cart {
                items: after.items,
                fulfillment_groups: after.fulfillment_groups,
                ..self
            }).touched(after)
            &&& after.items@ == without_line(self.items@, line@)
            &&& pruned(self.fulfillment_groups@, after.fulfillment_groups@, line@)
        } else {
            &&& outcome(done) == Err::<(), ErrorView>(
                ErrorView::NotFound { kind: "line item"@, id: line@ },
            )
            &&& after == self
        }
    }

    /// Remove a line item and detach it from its fulfilment group.
    pub fn remove_item(&mut self, line: &LineItemId) -> (done: Result<(), Error>)
        ensures
            old(self).removal(*final(self), *line, done),
            old(self).sound() ==> final(self).sound(),
    {
        let at = self.find_line(line);
        proof {
            lemma_first_item_holds(self.items@, |item: CartItem| item.id@ == line@);
        }
        if at == self.items.len() {
            assert forall|i: int| 0 <= i < self.items@.len() implies (
            #[trigger] self.items@[i]).id@ != line@ by {
                let test = |item: CartItem| item.id@ == line@;
                assert(!test(self.items@[i]));
            }
            return Err(Error::not_found(LineItemId::kind(), line.as_str()));
        }
        assert(self.items@[at as int].id@ == line@);
        let ghost before = self.items@;
        let ghost sound = self.sound();
        let ghost currency = self.currency;
        let mut rest: Vec<CartItem> = Vec::new();
        std::mem::swap(&mut rest, &mut self.items);
        let ghost mut n: int = 0;
        assert(before.skip(0) =~= before);
        assert(before.take(0) =~= Seq::<CartItem>::empty());
        let mut kept: Vec<CartItem> = Vec::new();
        while rest.len() > 0
            invariant
                0 <= n <= before.len(),
                rest@ == before.skip(n),
                kept@ == without_line(before.take(n), line@),
                sound ==> (forall|i: int|
                    0 <= i < before.len() ==> sound_item(#[trigger] before[i], currency)),
                sound ==> (forall|i: int|
                    0 <= i < kept@.len() ==> sound_item(#[trigger] kept@[i], currency)),
            decreases rest@.len(),
        {
            let item = rest.remove(0);
            assert(item == before[n]);
            assert(before.take(n + 1).drop_last() =~= before.take(n));
            if !item.id.same(line) {
                kept.push(item);
            }
            proof {
                n = n + 1;
            }
            assert(rest@ =~= before.skip(n));
        }
        assert(before.take(n) =~= before);
        self.items = kept;
        let mut groups: Vec<FulfillmentGroup> = Vec::new();
        std::mem::swap(&mut groups, &mut self.fulfillment_groups);
        self.fulfillment_groups = prune(groups, line);
        self.touch();
        Ok(())
    }

    /// Remove every line and group.
    pub fn clear(&mut self)
        ensures
            old(self).cleared(*final(self)),
            final(self).sound(),
    {
        self.items.clear();
        self.fulfillment_groups.clear();
        self.touch();
    }

    /// Look up a line item.
    pub fn item(&self, line: &LineItemId) -> (item: Result<&CartItem, Error>)
        ensures
            ({
                let at = line_index(self.items@, line@);
                match item {
                    Ok(found) => 0 <= at < self.items@.len() && *found == self.items@[at],
                    Err(error) => !has_line(self.items@, line@) && error@ == (
                    ErrorView::NotFound { kind: "line item"@, id: line@ }),
                }
            }),
    {
        let at = self.find_line(line);
        if at < self.items.len() {
            Ok(&self.items[at])
        } else {
            proof {
                let test = |item: CartItem| item.id@ == line@;
                lemma_first_item_holds(self.items@, test);
                assert forall|i: int| 0 <= i < self.items@.len() implies (
                #[trigger] self.items@[i]).id@ != line@ by {
                    assert(!test(self.items@[i]));
                }
            }
            Err(Error::not_found(LineItemId::kind(), line.as_str()))
        }
    }

    /// Mutable access to a line item.
    pub fn item_mut(&mut self, line: &LineItemId) -> (item: Result<&mut CartItem, Error>)
        ensures
            ({
                let before = old(self).items@;
                let at = line_index(before, line@);
                match item {
                    Ok(found) => {
                        &&& 0 <= at < before.len()
                        &&& *found == before[at]
                        &&& *final(self) == (Cart { items: final(self).items, ..*old(self) })
                        &&& final(self).items@ == before.update(at, *final(found))
                    },
                    Err(error) => {
                        &&& at == before.len()
                        &&& error@ == (ErrorView::NotFound { kind: "line item"@, id: line@ })
                        &&& *final(self) == *old(self)
                    },
                }
            }),
    {
        let at = self.find_line(line);
        if at < self.items.len() {
            Ok(&mut self.items[at])
        } else {
            Err(Error::not_found(LineItemId::kind(), line.as_str()))
        }
    }

    /// Add a promotion code (idempotent, case-insensitive).
    pub fn apply_discount_code(&mut self, code: &str)
        ensures
            old(self).code_applied(code@, *final(self)),
    {
        if !contains_code(&self.discount_codes, code) {
            self.discount_codes.push(code.to_owned());
            assert(self.discount_codes@.drop_last() =~= old(self).discount_codes@);
            self.touch();
        }
    }

    /// Remove a promotion code.
    pub fn remove_discount_code(&mut self, code: &str)
        ensures
            old(self).code_removed(code@, *final(self)),
    {
        self.discount_codes = drop_code(&self.discount_codes, code);
        self.touch();
    }

    /// Stage a gift card for redemption at checkout (idempotent).
    pub fn add_gift_card(&mut self, code: &str)
        ensures
            old(self).gift_card_added(code@, *final(self)),
    {
        if !contains_code(&self.gift_card_codes, code) {
            self.gift_card_codes.push(code.to_owned());
            assert(self.gift_card_codes@.drop_last() =~= old(self).gift_card_codes@);
            self.touch();
        }
    }

    /// Remove a staged gift card.
    pub fn remove_gift_card(&mut self, code: &str)
        ensures
            (Cart { gift_card_codes: final(self).gift_card_codes, ..*old(self) }).touched(
                *final(self),
            ),
            final(self).gift_card_codes@ == without_code(old(self).gift_card_codes@, code@),
    {
        self.gift_card_codes = drop_code(&self.gift_card_codes, code);
        self.touch();
    }

    /// Choose whether the shopper's shop credit is spent at checkout.
    ///
    /// Use this rather than assigning [`Cart::apply_shop_credit`] directly: it
    /// bumps [`Cart::version`], without which the repository would reject the
    /// save as a stale write.
    pub fn set_apply_shop_credit(&mut self, apply: bool)
        ensures
            old(self).credit_chosen(apply, *final(self)),
    {
        if self.apply_shop_credit != apply {
            self.apply_shop_credit = apply;
            self.touch();
        }
    }

    /// Set the destination address.
    pub fn set_shipping_address(&mut self, address: Address)
        ensures
            (Cart { shipping_address: Some(address), ..*old(self) }).touched(*final(self)),
    {
        self.shipping_address = Some(address);
        self.touch();
    }

    /// Set the billing address.
    pub fn set_billing_address(&mut self, address: Address)
        ensures
            (Cart { billing_address: Some(address), ..*old(self) }).touched(*final(self)),
    {
        self.billing_address = Some(address);
        self.touch();
    }

    /// Sum of `unit_price * quantity` over all lines, before discounts and tax.
    pub fn subtotal(&self) -> (amount: Result<Money, Error>)
        ensures
            outcome(amount) == items_subtotal(
                self.items@,
                self.currency,
                self.items@.len() as int,
            ),
    {
        let mut total = Money::zero(self.currency);
        let mut n: usize = 0;
        while n < self.items.len()
            invariant
                n <= self.items@.len(),
                items_subtotal(self.items@, self.currency, n as int) == Ok::<Money, ErrorView>(
                    total,
                ),
            decreases self.items@.len() - n,
        {
            proof {
                if items_subtotal(self.items@, self.currency, n + 1) is Err {
                    lemma_error_stays(
                        |k: int| items_subtotal(self.items@, self.currency, k),
                        n + 1,
                        self.items@.len() as int,
                    );
                }
            }
            let subtotal = match self.items[n].subtotal() {
                Ok(subtotal) => subtotal,
                Err(error) => return Err(error),
            };
            total = match total.try_add(subtotal) {
                Ok(sum) => sum,
                Err(error) => return Err(error),
            };
            n += 1;
        }
        Ok(total)
    }

    /// Total number of units in the cart.
    pub fn unit_count(&self) -> (count: u64)
        requires
            units(self.items@, self.items@.len() as int) <= u64::MAX,
        ensures
            count == units(self.items@, self.items@.len() as int),
    {
        let mut count: u64 = 0;
        let mut n: usize = 0;
        while n < self.items.len()
            invariant
                n <= self.items@.len(),
                units(self.items@, self.items@.len() as int) <= u64::MAX,
                count == units(self.items@, n as int),
            decreases self.items@.len() - n,
        {
            proof {
                lemma_units_grow(self.items@, n + 1, self.items@.len() as int);
            }
            count = count + self.items[n].quantity as u64;
            n += 1;
        }
        count
    }

    /// Distinct shops represented in the cart, in first-seen order.
    pub fn shops(&self) -> (shops: Vec<ShopId>)
        ensures
            shops@.map_values(|shop: ShopId| shop@) == distinct_shops(self.items@),
    {
        let mut shops: Vec<ShopId> = Vec::new();
        let mut n: usize = 0;
        assert(self.items@.take(0) =~= Seq::<CartItem>::empty());
        assert(shops@.map_values(|shop: ShopId| shop@) =~= Seq::<Seq<char>>::empty());
        while n < self.items.len()
            invariant
                n <= self.items@.len(),
                shops@.map_values(|shop: ShopId| shop@) == distinct_shops(
                    self.items@.take(n as int),
                ),
            decreases self.items@.len() - n,
        {
            let ghost before = shops@.map_values(|shop: ShopId| shop@);
            assert(self.items@.take(n + 1).drop_last() =~= self.items@.take(n as int));
            let shop = &self.items[n].shop_id;
            let mut seen = false;
            let mut i: usize = 0;
            while i < shops.len()
                invariant
                    i <= shops@.len(),
                    before == shops@.map_values(|shop: ShopId| shop@),
                    seen == (exists|j: int| 0 <= j < i && #[trigger] before[j] == shop@),
                decreases shops@.len() - i,
            {
                assert(before[i as int] == shops@[i as int]@);
                if shops[i].same(shop) {
                    seen = true;
                }
                i += 1;
            }
            if !seen {
                shops.push(shop.clone());
                assert(shops@.map_values(|shop: ShopId| shop@) =~= before.push(shop@));
            }
            n += 1;
        }
        assert(self.items@.take(n as int) =~= self.items@);
        shops
    }

    /// `true` when items from more than one shop are present, i.e. the order
    /// will need a split settlement.
    pub fn is_multi_shop(&self) -> (several: bool)
        ensures
            several == (distinct_shops(self.items@).len() > 1),
    {
        self.shops().len() > 1
    }

    /// The distinct shipments the items need, in the order they are first needed.
    pub fn shipments(&self) -> (keys: Vec<FulfillmentKey>)
        ensures
            keys@.map_values(|key: FulfillmentKey| key@) == group_keys(self.items@),
    {
        let mut keys: Vec<FulfillmentKey> = Vec::new();
        let mut ids: Vec<FulfillmentGroupId> = Vec::new();
        let mut n: usize = 0;
        assert(self.items@.take(0) =~= Seq::<CartItem>::empty());
        assert(keys@.map_values(|key: FulfillmentKey| key@) =~= Seq::<KeyView>::empty());
        assert(ids@.map_values(|id: FulfillmentGroupId| id@) =~= Seq::<Seq<char>>::empty());
        while n < self.items.len()
            invariant
                n <= self.items@.len(),
                keys@.map_values(|key: FulfillmentKey| key@) == group_keys(
                    self.items@.take(n as int),
                ),
                ids@.map_values(|id: FulfillmentGroupId| id@) == group_ids(
                    self.items@.take(n as int),
                ),
            decreases self.items@.len() - n,
        {
            let ghost known = ids@.map_values(|id: FulfillmentGroupId| id@);
            let ghost before = keys@.map_values(|key: FulfillmentKey| key@);
            assert(self.items@.take(n + 1).drop_last() =~= self.items@.take(n as int));
            let key = shipment_key(&self.items[n]);
            let id = key.deterministic_id();
            let mut seen = false;
            let mut i: usize = 0;
            while i < ids.len()
                invariant
                    i <= ids@.len(),
                    known == ids@.map_values(|id: FulfillmentGroupId| id@),
                    seen == (exists|j: int| 0 <= j < i && #[trigger] known[j] == id@),
                decreases ids@.len() - i,
            {
                assert(known[i as int] == ids@[i as int]@);
                if ids[i].same(&id) {
                    seen = true;
                }
                i += 1;
            }
            if !seen {
                let ghost view = key@;
                let ghost text = id@;
                keys.push(key);
                ids.push(id);
                assert(keys@.map_values(|key: FulfillmentKey| key@) =~= before.push(view));
                assert(ids@.map_values(|id: FulfillmentGroupId| id@) =~= known.push(text));
            }
            n += 1;
        }
        assert(self.items@.take(n as int) =~= self.items@);
        keys
    }

    /// Rebuild [`Cart::fulfillment_groups`] from the items' selections, given the
    /// shipping charge of each of the cart's [`shipments`](Cart::shipments). A cart that
    /// is grouped so already stays as it is.
    pub fn regroup_with(&mut self, prices: &Vec<Money>)
        requires
            prices@.len() == group_keys(old(self).items@).len(),
        ensures
            regrouped(*old(self), *final(self), prices@),
    {
        let ghost items = self.items@;
        let mut groups: Vec<FulfillmentGroup> = Vec::new();
        let mut assignments: Vec<FulfillmentGroupId> = Vec::new();
        let mut n: usize = 0;
        assert(items.take(0) =~= Seq::<CartItem>::empty());
        while n < self.items.len()
            invariant
                items == self.items@,
                *self == *old(self),
                prices@.len() == group_keys(items).len(),
                n <= items.len(),
                are_groups(
                    groups@,
                    items.take(n as int),
                    prices@,
                    self.shipping_address,
                ),
                assignments@.len() == n,
                forall|i: int|
                    0 <= i < n ==> (#[trigger] assignments@[i])@ == item_group(items[i]),
            decreases items.len() - n,
        {
            let ghost done = items.take(n as int);
            let ghost next = items.take(n + 1);
            assert(next.drop_last() =~= done);
            assert(next.last() == items[n as int]);
            proof {
                lemma_groups(done);
                lemma_groups(next);
                lemma_group_count(items, n + 1);
            }
            let item = &self.items[n];
            let key = shipment_key(item);
            let id = key.deterministic_id();
            let mut at: usize = 0;
            while at < groups.len() && !groups[at].id.same(&id)
                invariant
                    at <= groups@.len(),
                    forall|j: int| 0 <= j < at ==> (#[trigger] groups@[j]).id@ != id@,
                ensures
                    at < groups@.len() ==> groups@[at as int].id@ == id@,
                decreases groups@.len() - at,
            {
                at += 1;
            }
            let ghost known = group_ids(done);
            proof {
                assert forall|j: int| 0 <= j < known.len() implies groups@[j].id@ == #[trigger]
                known[j] by {
                    assert(is_group(
                        groups@[j],
                        group_keys(done)[j],
                        prices@[j],
                        self.shipping_address,
                        group_lines(done, known[j]),
                    ));
                    assert(group_keys(done)[j].group_id() == known[j]);
                }
            }
            let ghost old_groups = groups@;
            if at == groups.len() {
                assert(!known.contains(id@));
                let mut group = FulfillmentGroup::from_key(key, prices[groups.len()]);
                group.destination = self.shipping_address.clone();
                assert(line_texts(group.items@) =~= Seq::<Seq<char>>::empty());
                proof {
                    lemma_no_lines(done, id@);
                }
                groups.push(group);
            } else {
                assert(known[at as int] == id@);
                assert(known.contains(id@));
            }
            let ghost mid = groups@;
            let ghost line = item.id@;
            groups[at].items.push(item.id.clone());
            assignments.push(id);
            proof {
                assert(groups@[at as int].items@ =~= mid[at as int].items@.push(item.id));
                assert(line_texts(groups@[at as int].items@) =~= line_texts(
                    mid[at as int].items@,
                ).push(line));
                let ids = group_ids(next);
                assert forall|k: int| 0 <= k < groups@.len() implies is_group(
                    #[trigger] groups@[k],
                    group_keys(next)[k],
                    prices@[k],
                    self.shipping_address,
                    group_lines(next, ids[k]),
                ) by {
                    if k < old_groups.len() {
                        assert(is_group(
                            old_groups[k],
                            group_keys(done)[k],
                            prices@[k],
                            self.shipping_address,
                            group_lines(done, known[k]),
                        ));
                        assert(ids[k] == known[k]);
                        if k != at {
                            assert(known[k] != id@);
                            assert(groups@[k] == old_groups[k]);
                        }
                    }
                }
            }
            n += 1;
        }
        assert(items.take(n as int) =~= items);
        let targets = self.assign(&assignments);
        if same_groups(&self.fulfillment_groups, &groups) && self.is_assigned(&targets) {
            proof {
                lemma_alike_groups(
                    self.fulfillment_groups@,
                    groups@,
                    items,
                    prices@,
                    self.shipping_address,
                );
            }
            return;
        }
        assert(!grouped(*self, prices@)) by {
            if grouped(*self, prices@) {
                lemma_groups_are_alike(
                    self.fulfillment_groups@,
                    groups@,
                    items,
                    prices@,
                    self.shipping_address,
                );
            }
        }
        let mut k: usize = 0;
        while k < self.items.len()
            invariant
                k <= items.len(),
                targets@.len() == items.len(),
                *self == (Cart { items: self.items, ..*old(self) }),
                items == old(self).items@,
                self.items@.len() == items.len(),
                forall|i: int|
                    0 <= i < items.len() ==> (#[trigger] self.items@[i]) == (CartItem {
                        fulfillment_group_id: self.items@[i].fulfillment_group_id,
                        ..items[i]
                    }),
                forall|i: int|
                    0 <= i < k ==> (#[trigger] self.items@[i]).fulfillment_group_id == targets@[i],
            decreases items.len() - k,
        {
            let target = targets[k].clone();
            assert(target == targets@[k as int]);
            self.items[k].fulfillment_group_id = target;
            k += 1;
        }
        self.fulfillment_groups = groups;
        self.touch();
        assert forall|i: int| 0 <= i < items.len() implies {
            &&& (#[trigger] self.items@[i]) == (CartItem {
                fulfillment_group_id: self.items@[i].fulfillment_group_id,
                ..items[i]
            })
            &&& optional_group(self.items@[i].fulfillment_group_id) == assigned(
                items,
                items.len() as int,
            )[i]
        } by {
            assert(self.items@[i].fulfillment_group_id == targets@[i]);
        }
    }

    /// The group that each item is assigned to, given the group of each item's shipment.
    /// An item is found by its identifier.
    fn assign(&self, assignments: &Vec<FulfillmentGroupId>) -> (targets: Vec<
        Option<FulfillmentGroupId>,
    >)
        requires
            assignments@.len() == self.items@.len(),
            forall|i: int|
                0 <= i < self.items@.len() ==> (#[trigger] assignments@[i])@ == item_group(
                    self.items@[i],
                ),
        ensures
            targets@.len() == self.items@.len(),
            forall|i: int|
                0 <= i < targets@.len() ==> optional_group(#[trigger] targets@[i]) == assigned(
                    self.items@,
                    self.items@.len() as int,
                )[i],
    {
        let ghost items = self.items@;
        let mut targets: Vec<Option<FulfillmentGroupId>> = Vec::new();
        let mut n: usize = 0;
        while n < self.items.len()
            invariant
                items == self.items@,
                n <= items.len(),
                targets@.len() == n,
                forall|i: int|
                    0 <= i < n ==> #[trigger] targets@[i] == items[i].fulfillment_group_id,
            decreases items.len() - n,
        {
            let held = self.items[n].fulfillment_group_id.clone();
            assert(held == items[n as int].fulfillment_group_id);
            targets.push(held);
            n += 1;
        }
        let mut k: usize = 0;
        while k < assignments.len()
            invariant
                items == self.items@,
                k <= assignments@.len(),
                assignments@.len() == items.len(),
                targets@.len() == items.len(),
                forall|i: int|
                    0 <= i < items.len() ==> (#[trigger] assignments@[i])@ == item_group(items[i]),
                forall|i: int|
                    0 <= i < items.len() ==> optional_group(#[trigger] targets@[i]) == assigned(
                        items,
                        k as int,
                    )[i],
            decreases assignments@.len() - k,
        {
            let at = self.find_line(&self.items[k].id);
            proof {
                let test = |item: CartItem| item.id@ == items[k as int].id@;
                lemma_first_item_holds(items, test);
                assert(test(items[k as int]));
                assert(at <= k);
                lemma_assigned_len(items, k as int);
            }
            targets[at] = Some(assignments[k].clone());
            k += 1;
        }
        targets
    }

    /// Whether each item is assigned to the group that it is to be assigned to.
    fn is_assigned(&self, targets: &Vec<Option<FulfillmentGroupId>>) -> (settled: bool)
        requires
            targets@.len() == self.items@.len(),
        ensures
            settled == (forall|i: int|
                0 <= i < self.items@.len() ==> optional_group(
                    (#[trigger] self.items@[i]).fulfillment_group_id,
                ) == optional_group(targets@[i])),
    {
        let mut n: usize = 0;
        while n < self.items.len()
            invariant
                targets@.len() == self.items@.len(),
                n <= self.items@.len(),
                forall|i: int|
                    0 <= i < n ==> optional_group(
                        (#[trigger] self.items@[i]).fulfillment_group_id,
                    ) == optional_group(targets@[i]),
            decreases self.items@.len() - n,
        {
            let item = &self.items[n];
            let same = match (&item.fulfillment_group_id, &targets[n]) {
                (Some(held), Some(wanted)) => held.same(wanted),
                (None, None) => true,
                _ => false,
            };
            if !same {
                return false;
            }
            n += 1;
        }
        true
    }

    /// Rebuild [`Cart::fulfillment_groups`] from the items' selections.
    ///
    /// `rates` is asked for the shipping charge of each distinct shipment; return
    /// zero for free shipping. Groups are deterministic: re-running this on an
    /// unchanged cart with the same charges is a no-op.
    pub fn regroup_fulfillment<R: ShippingRates>(&mut self, rates: &R) -> (done: Result<(), Error>)
        requires
            answers_all(rates, old(self).currency),
        ensures
            match done {
                Ok(_) => regroups(rates, *old(self), *final(self)),
                Err(error) => *final(self) == *old(self) && rate_failure(
                    rates,
                    *old(self),
                    error,
                ),
            },
    {
        let keys = self.shipments();
        let mut prices: Vec<Money> = Vec::new();
        let mut n: usize = 0;
        while n < keys.len()
            invariant
                *self == *old(self),
                answers_all(rates, self.currency),
                keys@.map_values(|key: FulfillmentKey| key@) == group_keys(self.items@),
                n <= keys@.len(),
                prices@.len() == n,
                forall|k: int|
                    0 <= k < n ==> (#[trigger] prices@[k]).currency == self.currency
                        && call_ensures(
                        R::rate_for,
                        (rates, &keys@[k], self.currency),
                        Ok(prices@[k]),
                    ),
            decreases keys@.len() - n,
        {
            assert(group_keys(self.items@)[n as int] == keys@[n as int]@);
            assert(rates.answers(keys@[n as int], self.currency));
            let answer = rates.rate_for(&keys[n], self.currency);
            let ghost kept = answer;
            match answer {
                Ok(price) => {
                    if price.currency() != self.currency {
                        assert(call_ensures(
                            R::rate_for,
                            (rates, &keys@[n as int], self.currency),
                            kept,
                        ));
                        return Err(
                            Error::CurrencyMismatch {
                                expected: self.currency,
                                actual: price.currency(),
                            },
                        );
                    }
                    prices.push(price);
                },
                Err(error) => {
                    assert(call_ensures(
                        R::rate_for,
                        (rates, &keys@[n as int], self.currency),
                        kept,
                    ));
                    return Err(error);
                },
            }
            n += 1;
        }
        assert(keys@.map_values(|key: FulfillmentKey| key@).len() == keys@.len());
        self.regroup_with(&prices);
        assert(quoted(rates, keys@, prices@, old(self).currency));
        Ok(())
    }

    /// Validate every cart invariant. Called before checkout.
    pub fn validate(&self) -> (valid: Result<(), Error>)
        ensures
            outcome(valid) == self.check(),
    {
        if self.items.len() == 0 {
            return Err(Error::validation("cart is empty"));
        }
        let ghost items = self.items@;
        let ghost groups = self.fulfillment_groups@;
        let mut n: usize = 0;
        while n < self.items.len()
            invariant
                items == self.items@,
                n <= items.len(),
                item_failure(items, self.currency, n as int) is None,
            decreases items.len() - n,
        {
            let item = &self.items[n];
            proof {
                if item_failure(items, self.currency, n + 1) is Some {
                    lemma_finding_stays(
                        |k: int| item_failure(items, self.currency, k),
                        n + 1,
                        items.len() as int,
                    );
                }
            }
            if item.quantity == 0 {
                return Err(
                    Error::validation(
                        join3("line ", item.id.as_str(), " has quantity 0").as_str(),
                    ),
                );
            }
            if item.unit_price.currency() != self.currency {
                return Err(
                    Error::CurrencyMismatch {
                        expected: self.currency,
                        actual: item.unit_price.currency(),
                    },
                );
            }
            if item.unit_price.is_negative() {
                return Err(
                    Error::validation(
                        join3("line ", item.id.as_str(), " has a negative price").as_str(),
                    ),
                );
            }
            n += 1;
        }
        let mut g: usize = 0;
        while g < self.fulfillment_groups.len()
            invariant
                items == self.items@,
                groups == self.fulfillment_groups@,
                items.len() > 0,
                item_failure(items, self.currency, items.len() as int) is None,
                g <= groups.len(),
                group_failure(items, groups, g as int) is None,
            decreases groups.len() - g,
        {
            let group = &self.fulfillment_groups[g];
            proof {
                if group_failure(items, groups, g + 1) is Some {
                    lemma_finding_stays(
                        |k: int| group_failure(items, groups, k),
                        g + 1,
                        groups.len() as int,
                    );
                }
            }
            if group.shipping_price.is_negative() {
                return Err(
                    Error::validation(
                        join3(
                            "fulfillment group ",
                            group.id.as_str(),
                            " has a negative shipping price",
                        ).as_str(),
                    ),
                );
            }
            let mut k: usize = 0;
            while k < group.items.len()
                invariant
                    items == self.items@,
                    groups == self.fulfillment_groups@,
                    items.len() > 0,
                    item_failure(items, self.currency, items.len() as int) is None,
                    g < groups.len(),
                    *group == groups[g as int],
                    group.shipping_price.minor >= 0,
                    group_failure(items, groups, g as int) is None,
                    k <= group.items@.len(),
                    orphan_failure(items, *group, k as int) is None,
                decreases group.items@.len() - k,
            {
                let line = &group.items[k];
                if !self.has(line) {
                    proof {
                        lemma_finding_stays(
                            |k: int| orphan_failure(items, *group, k),
                            k + 1,
                            group.items@.len() as int,
                        );
                        lemma_finding_stays(
                            |k: int| group_failure(items, groups, k),
                            g + 1,
                            groups.len() as int,
                        );
                    }
                    let mut message = join3(
                        "fulfillment group ",
                        group.id.as_str(),
                        " references unknown line ",
                    );
                    message.append(line.as_str());
                    return Err(Error::validation(message.as_str()));
                }
                k += 1;
            }
            g += 1;
        }
        // Every item must belong to exactly one group once grouped.
        if self.fulfillment_groups.len() > 0 {
            let mut i: usize = 0;
            while i < self.items.len()
                invariant
                    items == self.items@,
                    groups == self.fulfillment_groups@,
                    items.len() > 0,
                    groups.len() > 0,
                    item_failure(items, self.currency, items.len() as int) is None,
                    group_failure(items, groups, groups.len() as int) is None,
                    i <= items.len(),
                    membership_failure(items, groups, i as int) is None,
                decreases items.len() - i,
            {
                let line = &self.items[i].id;
                let count = self.count_holders(line);
                if count != 1 {
                    proof {
                        lemma_finding_stays(
                            |k: int| membership_failure(items, groups, k),
                            i + 1,
                            items.len() as int,
                        );
                    }
                    let mut message = join3("line ", line.as_str(), " belongs to ");
                    push_digits(&mut message, count as u64);
                    message.append(" fulfillment groups, expected exactly 1");
                    return Err(Error::validation(message.as_str()));
                }
                i += 1;
            }
        }
        Ok(())
    }

    fn has(&self, line: &LineItemId) -> (found: bool)
        ensures
            found == has_line(self.items@, line@),
    {
        let mut i: usize = 0;
        while i < self.items.len()
            invariant
                i <= self.items@.len(),
                forall|j: int| 0 <= j < i ==> (#[trigger] self.items@[j]).id@ != line@,
            decreases self.items@.len() - i,
        {
            if self.items[i].id.same(line) {
                return true;
            }
            i += 1;
        }
        false
    }

    fn count_holders(&self, line: &LineItemId) -> (count: usize)
        ensures
            count == holders(
                self.fulfillment_groups@,
                line@,
                self.fulfillment_groups@.len() as int,
            ),
    {
        let mut count: usize = 0;
        let mut n: usize = 0;
        while n < self.fulfillment_groups.len()
            invariant
                n <= self.fulfillment_groups@.len(),
                count <= n,
                count == holders(self.fulfillment_groups@, line@, n as int),
            decreases self.fulfillment_groups@.len() - n,
        {
            if self.fulfillment_groups[n].contains_line(line) {
                count += 1;
            }
            n += 1;
        }
        count
    }

    fn assert_currency(&self, amount: Money) -> (same: Result<(), Error>)
        ensures
            outcome(same) == if amount.currency == self.currency {
                Ok::<(), ErrorView>(())
            } else {
                Err(
                    ErrorView::CurrencyMismatch {
                        expected: self.currency,
                        actual: amount.currency,
                    },
                )
            },
    {
        if amount.currency() == self.currency {
            Ok(())
        } else {
            Err(Error::CurrencyMismatch { expected: self.currency, actual: amount.currency() })
        }
    }

    fn touch(&mut self)
        ensures
            old(self).touched(*final(self)),
    {
        self.touch_at(Timestamp::now());
    }

    /// Record a mutation made at `now`.
    pub fn touch_at(&mut self, now: Timestamp)
        ensures
            *final(self) == (Cart {
                version: next_version(old(self).version),
                updated_at: now,
                ..*old(self)
            }),
    {
        self.version = self.version.saturating_add(1);
        self.updated_at = now;
    }
}

/// Whether a source of rates answered each key with a price in `currency`.
pub open spec fn quoted<R: ShippingRates>(
    rates: &R,
    keys: Seq<FulfillmentKey>,
    prices: Seq<Money>,
    currency: Currency,
) -> bool {
    &&& prices.len() == keys.len()
    &&& forall|k: int|
        0 <= k < keys.len() ==> (#[trigger] prices[k]).currency == currency && call_ensures(
            R::rate_for,
            (rates, &keys[k], currency),
            Ok(prices[k]),
        )
}

/// Whether a source of rates may be asked about any shipment.
pub open spec fn answers_all<R: ShippingRates>(rates: &R, currency: Currency) -> bool {
    forall|key: FulfillmentKey| #[trigger] rates.answers(key, currency)
}

/// Whether `after` is `before` regrouped at prices that the source of rates gave.
pub open spec fn regroups<R: ShippingRates>(rates: &R, before: Cart, after: Cart) -> bool {
    exists|keys: Seq<FulfillmentKey>, prices: Seq<Money>| #[trigger]
        quoted(rates, keys, prices, before.currency) && keys.map_values(
            |key: FulfillmentKey| key@,
        ) == group_keys(before.items@) && regrouped(before, after, prices)
}

/// Whether `error` comes of an answer about one of the cart's shipments: a refusal, or
/// a price in another currency.
pub open spec fn rate_failure<R: ShippingRates>(rates: &R, cart: Cart, error: Error) -> bool {
    exists|key: FulfillmentKey, answer: Result<Money, Error>| #[trigger]
        call_ensures(R::rate_for, (rates, &key, cart.currency), answer) && group_keys(
            cart.items@,
        ).contains(key@) && match answer {
            Ok(price) => price.currency != cart.currency && error@ == (
            ErrorView::CurrencyMismatch { expected: cart.currency, actual: price.currency }),
            Err(refusal) => error == refusal,
        }
}

fn shipment_key(item: &CartItem) -> (key: FulfillmentKey)
    ensures
        key@ == item.shipment(),
{
    match &item.fulfillment {
        Some(selection) => selection.key(&item.shop_id),
        None => FulfillmentSelection::default().key(&item.shop_id),
    }
}

fn prune(groups: Vec<FulfillmentGroup>, line: &LineItemId) -> (kept: Vec<FulfillmentGroup>)
    ensures
        pruned(groups@, kept@, line@),
{
    let ghost before = groups@;
    let mut rest = groups;
    let mut kept: Vec<FulfillmentGroup> = Vec::new();
    let ghost mut n: int = 0;
    assert(before.skip(0) =~= before);
    assert(before.take(0) =~= Seq::<FulfillmentGroup>::empty());
    while rest.len() > 0
        invariant
            0 <= n <= before.len(),
            rest@ == before.skip(n),
            pruned(before.take(n), kept@, line@),
        decreases rest@.len(),
    {
        let mut group = rest.remove(0);
        assert(before.take(n + 1).drop_last() =~= before.take(n));
        assert(before.take(n + 1).last() == group);
        group.items = drop_id(&group.items, line);
        if group.items.len() > 0 {
            let ghost list = kept@;
            kept.push(group);
            assert(kept@.drop_last() =~= list);
        }
        proof {
            n = n + 1;
        }
        assert(rest@ =~= before.skip(n));
    }
    assert(before.take(n) =~= before);
    kept
}

proof fn lemma_no_lines(items: Seq<CartItem>, group: Seq<char>)
    requires
        !group_ids(items).contains(group),
    ensures
        group_lines(items, group) == Seq::<Seq<char>>::empty(),
    decreases items.len(),
{
    if items.len() > 0 {
        lemma_groups(items);
        assert(group_ids(items).contains(item_group(items[items.len() - 1])));
        let before = group_ids(items.drop_last());
        assert(!before.contains(group)) by {
            if before.contains(group) {
                let k = before.index_of(group);
                assert(group_ids(items)[k] == group);
            }
        }
        lemma_no_lines(items.drop_last(), group);
    }
}

proof fn lemma_group_count(items: Seq<CartItem>, n: int)
    requires
        0 <= n <= items.len(),
    ensures
        group_ids(items.take(n)).len() <= group_keys(items).len(),
    decreases items.len() - n,
{
    lemma_groups(items);
    if n == items.len() {
        assert(items.take(n) =~= items);
    } else {
        lemma_group_count(items, n + 1);
        assert(items.take(n + 1).drop_last() =~= items.take(n));
    }
}

fn same_groups(a: &Vec<FulfillmentGroup>, b: &Vec<FulfillmentGroup>) -> (same: bool)
    ensures
        same == alike_groups(a@, b@),
{
    if a.len() != b.len() {
        return false;
    }
    let mut n: usize = 0;
    while n < a.len()
        invariant
            a@.len() == b@.len(),
            n <= a@.len(),
            forall|k: int| 0 <= k < n ==> (#[trigger] a@[k]).alike(b@[k]),
        decreases a@.len() - n,
    {
        if !a[n].same(&b[n]) {
            return false;
        }
        n += 1;
    }
    true
}

/// Whether two lists hold the same groups.
spec fn alike_groups(a: Seq<FulfillmentGroup>, b: Seq<FulfillmentGroup>) -> bool {
    &&& a.len() == b.len()
    &&& forall|k: int| 0 <= k < a.len() ==> (#[trigger] a[k]).alike(b[k])
}

proof fn lemma_alike_groups(
    a: Seq<FulfillmentGroup>,
    b: Seq<FulfillmentGroup>,
    items: Seq<CartItem>,
    prices: Seq<Money>,
    destination: Option<Address>,
)
    requires
        alike_groups(a, b),
        are_groups(b, items, prices, destination),
    ensures
        are_groups(a, items, prices, destination),
{
    assert forall|k: int| 0 <= k < a.len() implies is_group(
        #[trigger] a[k],
        group_keys(items)[k],
        prices[k],
        destination,
        group_lines(items, group_ids(items)[k]),
    ) by {
        assert(a[k].alike(b[k]));
        assert(is_group(
            b[k],
            group_keys(items)[k],
            prices[k],
            destination,
            group_lines(items, group_ids(items)[k]),
        ));
    }
}

proof fn lemma_groups_are_alike(
    a: Seq<FulfillmentGroup>,
    b: Seq<FulfillmentGroup>,
    items: Seq<CartItem>,
    prices: Seq<Money>,
    destination: Option<Address>,
)
    requires
        are_groups(a, items, prices, destination),
        are_groups(b, items, prices, destination),
    ensures
        alike_groups(a, b),
{
    assert forall|k: int| 0 <= k < a.len() implies (#[trigger] a[k]).alike(b[k]) by {
        let key = group_keys(items)[k];
        let lines = group_lines(items, group_ids(items)[k]);
        assert(is_group(a[k], key, prices[k], destination, lines));
        assert(is_group(b[k], key, prices[k], destination, lines));
    }
}

/// Regrouping is idempotent: doing it again at the same prices changes nothing, not even
/// the version.
pub proof fn law_regrouping_is_idempotent(
    first: Cart,
    second: Cart,
    third: Cart,
    prices: Seq<Money>,
)
    requires
        regrouped(first, second, prices),
        regrouped(second, third, prices),
    ensures
        third == second,
{
    let a = first.items@;
    let b = second.items@;
    lemma_regrouped(first, second, prices);
    lemma_same_groups(first, second, prices);
    assert forall|i: int| 0 <= i < b.len() implies optional_group(
        (#[trigger] b[i]).fulfillment_group_id,
    ) == assigned(b, b.len() as int)[i] by {
        lemma_assigned_again(a, b, a.len() as int, i);
    }
}

proof fn lemma_same_groups(first: Cart, second: Cart, prices: Seq<Money>)
    requires
        regrouped(first, second, prices),
    ensures
        are_groups(
            second.fulfillment_groups@,
            second.items@,
            prices,
            second.shipping_address,
        ),
{
    let groups = second.fulfillment_groups@;
    lemma_regrouped(first, second, prices);
    lemma_same_shipments(first.items@, second.items@);
    assert forall|k: int| 0 <= k < groups.len() implies is_group(
        #[trigger] groups[k],
        group_keys(second.items@)[k],
        prices[k],
        second.shipping_address,
        group_lines(second.items@, group_ids(second.items@)[k]),
    ) by {
        lemma_same_lines(first.items@, second.items@, group_ids(first.items@)[k]);
        assert(is_group(
            groups[k],
            group_keys(first.items@)[k],
            prices[k],
            first.shipping_address,
            group_lines(first.items@, group_ids(first.items@)[k]),
        ));
    }
}

proof fn lemma_assigned_again(a: Seq<CartItem>, b: Seq<CartItem>, n: int, i: int)
    requires
        alike(a, b),
        0 <= n <= a.len(),
        0 <= i < a.len(),
    ensures
        assigned(b, n)[i] == assigned(a, n)[i] || assigned(b, n)[i] == optional_group(
            b[i].fulfillment_group_id,
        ),
    decreases n,
{
    if n > 0 {
        lemma_assigned_again(a, b, n - 1, i);
        lemma_assigned_len(a, n - 1);
        lemma_assigned_len(b, n - 1);
        assert(b[n - 1].shipment() == a[n - 1].shipment());
        assert(b[n - 1].id == a[n - 1].id);
        let test = |item: CartItem| item.id@ == a[n - 1].id@;
        lemma_first_item_holds(a, test);
        assert(test(a[n - 1]));
        let at = line_index(a, a[n - 1].id@);
        assert forall|j: int| 0 <= j < at implies !test(#[trigger] b[j]) by {
            assert(!test(a[j]));
            assert(b[j].id == a[j].id);
        }
        assert(b[at].id == a[at].id);
        lemma_first_item(b, test, at);
    }
}

spec fn alike(a: Seq<CartItem>, b: Seq<CartItem>) -> bool {
    &&& a.len() == b.len()
    &&& forall|i: int|
        0 <= i < a.len() ==> (#[trigger] b[i]) == (CartItem {
            fulfillment_group_id: b[i].fulfillment_group_id,
            ..a[i]
        })
}

proof fn lemma_same_shipments(a: Seq<CartItem>, b: Seq<CartItem>)
    requires
        alike(a, b),
    ensures
        group_keys(a) == group_keys(b),
        group_ids(a) == group_ids(b),
    decreases a.len(),
{
    if a.len() > 0 {
        assert(b[b.len() - 1].shipment() == a[a.len() - 1].shipment());
        assert forall|i: int| 0 <= i < a.drop_last().len() implies (#[trigger] b.drop_last()[i])
            == (CartItem {
            fulfillment_group_id: b.drop_last()[i].fulfillment_group_id,
            ..a.drop_last()[i]
        }) by {
            assert(b[i] == b.drop_last()[i]);
        }
        lemma_same_shipments(a.drop_last(), b.drop_last());
    } else {
        assert(a =~= b);
    }
}

proof fn lemma_same_lines(a: Seq<CartItem>, b: Seq<CartItem>, group: Seq<char>)
    requires
        alike(a, b),
    ensures
        group_lines(a, group) == group_lines(b, group),
    decreases a.len(),
{
    if a.len() > 0 {
        assert(b[b.len() - 1].id == a[a.len() - 1].id);
        assert(b[b.len() - 1].shipment() == a[a.len() - 1].shipment());
        assert forall|i: int| 0 <= i < a.drop_last().len() implies (#[trigger] b.drop_last()[i])
            == (CartItem {
            fulfillment_group_id: b.drop_last()[i].fulfillment_group_id,
            ..a.drop_last()[i]
        }) by {
            assert(b[i] == b.drop_last()[i]);
        }
        lemma_same_lines(a.drop_last(), b.drop_last(), group);
    } else {
        assert(a =~= b);
    }
}

/// A valid cart keeps the rules that its mutations keep: one currency, positive
/// quantities, prices and shipping charges that are not negative.
pub proof fn law_valid_carts_are_sound(cart: Cart, i: int)
    requires
        cart.check() is Ok,
        0 <= i < cart.items@.len(),
    ensures
        sound_item(cart.items@[i], cart.currency),
        cart.items@[i].unit_price.minor >= 0,
{
    lemma_no_item_failure(cart.items@, cart.currency, cart.items@.len() as int, i);
}

proof fn lemma_no_item_failure(items: Seq<CartItem>, currency: Currency, n: int, i: int)
    requires
        item_failure(items, currency, n) is None,
        0 <= i < n,
    ensures
        sound_item(items[i], currency),
        items[i].unit_price.minor >= 0,
    decreases n,
{
    if i < n - 1 {
        lemma_no_item_failure(items, currency, n - 1, i);
    }
}

/// A removed line leaves no trace in the shipments, and no shipment is left empty.
pub proof fn law_removal_leaves_no_orphans(
    before: Seq<FulfillmentGroup>,
    after: Seq<FulfillmentGroup>,
    line: Seq<char>,
    k: int,
)
    requires
        pruned(before, after, line),
        0 <= k < after.len(),
    ensures
        after[k].items@.len() > 0,
        !after[k].holds(line),
    decreases before.len(),
{
    let kept = without_id(before.last().items@, line);
    if kept.len() == 0 {
        law_removal_leaves_no_orphans(before.drop_last(), after, line, k);
    } else if k == after.len() - 1 {
        lemma_without_id(before.last().items@, line);
    } else {
        assert(after[k] == after.drop_last()[k]);
        law_removal_leaves_no_orphans(before.drop_last(), after.drop_last(), line, k);
    }
}

proof fn lemma_without_id(ids: Seq<LineItemId>, line: Seq<char>)
    ensures
        forall|i: int|
            0 <= i < without_id(ids, line).len() ==> (#[trigger] without_id(ids, line)[i])@
                != line,
    decreases ids.len(),
{
    if ids.len() > 0 {
        let rest = ids.drop_last();
        lemma_without_id(rest, line);
        assert forall|i: int| 0 <= i < without_id(ids, line).len() implies (
        #[trigger] without_id(ids, line)[i])@ != line by {
            if i < without_id(rest, line).len() {
                assert(without_id(rest, line)[i]@ != line);
            }
        }
    }
}

proof fn lemma_group_lines(items: Seq<CartItem>, group: Seq<char>, line: Seq<char>)
    ensures
        group_lines(items, group).contains(line) <==> exists|i: int|
            0 <= i < items.len() && (#[trigger] items[i]).id@ == line && item_group(items[i])
                == group,
    decreases items.len(),
{
    let lines = group_lines(items, group);
    if items.len() > 0 {
        let rest = items.drop_last();
        let before = group_lines(rest, group);
        lemma_group_lines(rest, group, line);
        if lines.contains(line) {
            let k = lines.index_of(line);
            if k < before.len() {
                assert(before[k] == line);
                assert(before.contains(line));
                let i = choose|i: int|
                    0 <= i < rest.len() && (#[trigger] rest[i]).id@ == line && item_group(rest[i])
                        == group;
                assert(items[i] == rest[i]);
            } else {
                assert(items[items.len() - 1].id@ == line);
            }
        }
        if exists|i: int|
            0 <= i < items.len() && (#[trigger] items[i]).id@ == line && item_group(items[i])
                == group {
            let i = choose|i: int|
                0 <= i < items.len() && (#[trigger] items[i]).id@ == line && item_group(items[i])
                    == group;
            if i < rest.len() {
                assert(rest[i] == items[i]);
                let k = before.index_of(line);
                assert(lines[k] == line);
            } else {
                assert(lines.last() == line);
                assert(lines[lines.len() - 1] == line);
            }
        }
    }
}

/// Whether no two lines of a cart share an identifier.
pub open spec fn distinct_lines(items: Seq<CartItem>) -> bool {
    forall|i: int, j: int|
        0 <= i < j < items.len() ==> (#[trigger] items[i]).id@ != (#[trigger] items[j]).id@
}

proof fn lemma_holds(
    items: Seq<CartItem>,
    groups: Seq<FulfillmentGroup>,
    prices: Seq<Money>,
    destination: Option<Address>,
    i: int,
    k: int,
)
    requires
        distinct_lines(items),
        are_groups(groups, items, prices, destination),
        0 <= i < items.len(),
        0 <= k < groups.len(),
    ensures
        groups[k].holds(items[i].id@) <==> group_ids(items)[k] == item_group(items[i]),
{
    let line = items[i].id@;
    let group = group_ids(items)[k];
    let lines = group_lines(items, group);
    lemma_groups(items);
    assert(is_group(groups[k], group_keys(items)[k], prices[k], destination, lines));
    assert(line_texts(groups[k].items@) == lines);
    lemma_group_lines(items, group, line);
    if groups[k].holds(line) {
        let at = choose|at: int|
            0 <= at < groups[k].items@.len() && (#[trigger] groups[k].items@[at])@ == line;
        assert(lines[at] == line);
        let j = choose|j: int|
            0 <= j < items.len() && (#[trigger] items[j]).id@ == line && item_group(items[j])
                == group;
        assert(items[i].id@ == items[j].id@);
        assert(i == j);
    }
    if group == item_group(items[i]) {
        assert(lines.contains(line));
        let at = lines.index_of(line);
        assert(groups[k].items@[at]@ == line);
    }
}

proof fn lemma_one_holder(
    items: Seq<CartItem>,
    groups: Seq<FulfillmentGroup>,
    prices: Seq<Money>,
    destination: Option<Address>,
    i: int,
    n: int,
)
    requires
        distinct_lines(items),
        are_groups(groups, items, prices, destination),
        0 <= i < items.len(),
        0 <= n <= groups.len(),
    ensures
        holders(groups, items[i].id@, n) == if group_ids(items).take(n).contains(
            item_group(items[i]),
        ) {
            1nat
        } else {
            0nat
        },
    decreases n,
{
    lemma_groups(items);
    let ids = group_ids(items);
    let wanted = item_group(items[i]);
    if n > 0 {
        lemma_one_holder(items, groups, prices, destination, i, n - 1);
        lemma_holds(items, groups, prices, destination, i, n - 1);
        if ids.take(n - 1).contains(wanted) {
            let k = ids.take(n - 1).index_of(wanted);
            assert(ids[k] == wanted);
            assert(ids.take(n)[k] == wanted);
        } else if ids[n - 1] == wanted {
            assert(ids.take(n)[n - 1] == wanted);
        } else if ids.take(n).contains(wanted) {
            let k = ids.take(n).index_of(wanted);
            assert(ids.take(n - 1)[k] == wanted);
        }
    }
}

proof fn lemma_no_orphan(
    items: Seq<CartItem>,
    groups: Seq<FulfillmentGroup>,
    prices: Seq<Money>,
    destination: Option<Address>,
    k: int,
    n: int,
)
    requires
        are_groups(groups, items, prices, destination),
        0 <= k < groups.len(),
        0 <= n <= groups[k].items@.len(),
    ensures
        orphan_failure(items, groups[k], n) is None,
    decreases n,
{
    if n > 0 {
        lemma_no_orphan(items, groups, prices, destination, k, n - 1);
        let group = group_ids(items)[k];
        let lines = group_lines(items, group);
        assert(is_group(groups[k], group_keys(items)[k], prices[k], destination, lines));
        let line = groups[k].items@[n - 1]@;
        assert(lines[n - 1] == line);
        lemma_group_lines(items, group, line);
        let i = choose|i: int|
            0 <= i < items.len() && (#[trigger] items[i]).id@ == line && item_group(items[i])
                == group;
        assert(items[i].id@ == line);
    }
}

proof fn lemma_no_group_failure(
    items: Seq<CartItem>,
    groups: Seq<FulfillmentGroup>,
    prices: Seq<Money>,
    destination: Option<Address>,
    n: int,
)
    requires
        are_groups(groups, items, prices, destination),
        forall|k: int| 0 <= k < groups.len() ==> (#[trigger] prices[k]).minor >= 0,
        0 <= n <= groups.len(),
    ensures
        group_failure(items, groups, n) is None,
    decreases n,
{
    if n > 0 {
        lemma_no_group_failure(items, groups, prices, destination, n - 1);
        assert(is_group(
            groups[n - 1],
            group_keys(items)[n - 1],
            prices[n - 1],
            destination,
            group_lines(items, group_ids(items)[n - 1]),
        ));
        assert(prices[n - 1].minor >= 0);
        lemma_no_orphan(
            items,
            groups,
            prices,
            destination,
            n - 1,
            groups[n - 1].items@.len() as int,
        );
    }
}

proof fn lemma_no_membership_failure(
    items: Seq<CartItem>,
    groups: Seq<FulfillmentGroup>,
    prices: Seq<Money>,
    destination: Option<Address>,
    n: int,
)
    requires
        distinct_lines(items),
        are_groups(groups, items, prices, destination),
        0 <= n <= items.len(),
    ensures
        membership_failure(items, groups, n) is None,
    decreases n,
{
    if n > 0 {
        lemma_no_membership_failure(items, groups, prices, destination, n - 1);
        lemma_groups(items);
        lemma_one_holder(items, groups, prices, destination, n - 1, groups.len() as int);
        assert(group_ids(items).take(groups.len() as int) =~= group_ids(items));
        assert(group_ids(items).contains(item_group(items[n - 1])));
    }
}

proof fn lemma_sound_items(items: Seq<CartItem>, currency: Currency, n: int)
    requires
        0 <= n <= items.len(),
        forall|i: int|
            0 <= i < items.len() ==> sound_item(#[trigger] items[i], currency)
                && items[i].unit_price.minor >= 0,
    ensures
        item_failure(items, currency, n) is None,
    decreases n,
{
    if n > 0 {
        lemma_sound_items(items, currency, n - 1);
        assert(sound_item(items[n - 1], currency));
    }
}

/// Regrouping puts every line in exactly one shipment: a cart that keeps its rules is
/// valid once it has been regrouped at charges that are not negative.
pub proof fn law_regrouped_carts_are_valid(before: Cart, after: Cart, prices: Seq<Money>)
    requires
        regrouped(before, after, prices),
        before.sound(),
        distinct_lines(before.items@),
        before.items@.len() > 0,
        forall|i: int|
            0 <= i < before.items@.len() ==> (#[trigger] before.items@[i]).unit_price.minor >= 0,
        forall|k: int|
            0 <= k < group_keys(before.items@).len() ==> (#[trigger] prices[k]).minor >= 0,
    ensures
        after.check() is Ok,
{
    let first = before.items@;
    let items = after.items@;
    let groups = after.fulfillment_groups@;
    lemma_regrouped(before, after, prices);
    lemma_same_groups(before, after, prices);
    lemma_same_shipments(first, items);
    lemma_groups(first);
    assert forall|i: int| 0 <= i < items.len() implies sound_item(
        #[trigger] items[i],
        before.currency,
    ) && items[i].unit_price.minor >= 0 by {
        assert(sound_item(first[i], before.currency));
        assert(first[i].unit_price.minor >= 0);
    }
    assert(distinct_lines(items)) by {
        assert forall|i: int, j: int| 0 <= i < j < items.len() implies (#[trigger] items[i]).id@
            != (#[trigger] items[j]).id@ by {
            assert(first[i].id@ != first[j].id@);
        }
    }
    lemma_sound_items(items, before.currency, items.len() as int);
    lemma_no_group_failure(items, groups, prices, before.shipping_address, groups.len() as int);
    lemma_no_membership_failure(
        items,
        groups,
        prices,
        before.shipping_address,
        items.len() as int,
    );
}

proof fn lemma_still_listed(items: Seq<CartItem>, line: Seq<char>, other: Seq<char>)
    requires
        has_line(items, other),
        other != line,
    ensures
        has_line(without_line(items, line), other),
    decreases items.len(),
{
    let i = choose|i: int| 0 <= i < items.len() && (#[trigger] items[i]).id@ == other;
    let rest = items.drop_last();
    let kept = without_line(rest, line);
    if i < rest.len() {
        assert(rest[i].id@ == other);
        lemma_still_listed(rest, line, other);
        let j = choose|j: int| 0 <= j < kept.len() && (#[trigger] kept[j]).id@ == other;
        assert(without_line(items, line)[j].id@ == other);
    } else {
        assert(without_line(items, line)[kept.len() as int].id@ == other);
    }
}

proof fn lemma_kept_ids(ids: Seq<LineItemId>, line: Seq<char>, items: Seq<CartItem>)
    requires
        forall|i: int| 0 <= i < ids.len() ==> has_line(items, (#[trigger] ids[i])@),
    ensures
        forall|i: int|
            0 <= i < without_id(ids, line).len() ==> has_line(
                without_line(items, line),
                (#[trigger] without_id(ids, line)[i])@,
            ),
    decreases ids.len(),
{
    if ids.len() > 0 {
        let rest = ids.drop_last();
        assert forall|i: int| 0 <= i < rest.len() implies has_line(
            items,
            (#[trigger] rest[i])@,
        ) by {
            assert(rest[i] == ids[i]);
        }
        lemma_kept_ids(rest, line, items);
        let last = ids[ids.len() - 1]@;
        if last != line {
            lemma_still_listed(items, line, last);
        }
        assert forall|i: int| 0 <= i < without_id(ids, line).len() implies has_line(
            without_line(items, line),
            (#[trigger] without_id(ids, line)[i])@,
        ) by {
            if i < without_id(rest, line).len() {
                assert(has_line(without_line(items, line), without_id(rest, line)[i]@));
            }
        }
    }
}

proof fn lemma_pruned_groups(
    before: Seq<FulfillmentGroup>,
    after: Seq<FulfillmentGroup>,
    line: Seq<char>,
    items: Seq<CartItem>,
)
    requires
        pruned(before, after, line),
        forall|k: int| 0 <= k < before.len() ==> holds_lines(#[trigger] before[k], items),
    ensures
        forall|k: int|
            0 <= k < after.len() ==> holds_lines(
                #[trigger] after[k],
                without_line(items, line),
            ),
    decreases before.len(),
{
    if before.len() > 0 {
        let rest = before.drop_last();
        let kept = without_id(before.last().items@, line);
        assert(holds_lines(before[before.len() - 1], items));
        lemma_kept_ids(before.last().items@, line, items);
        assert forall|k: int| 0 <= k < rest.len() implies holds_lines(
            #[trigger] rest[k],
            items,
        ) by {
            assert(rest[k] == before[k]);
        }
        if kept.len() == 0 {
            lemma_pruned_groups(rest, after, line, items);
        } else {
            lemma_pruned_groups(rest, after.drop_last(), line, items);
            assert forall|k: int| 0 <= k < after.len() implies holds_lines(
                #[trigger] after[k],
                without_line(items, line),
            ) by {
                if k < after.len() - 1 {
                    assert(after[k] == after.drop_last()[k]);
                    assert(holds_lines(after.drop_last()[k], without_line(items, line)));
                }
            }
        }
    }
}

proof fn lemma_lines_stay(
    before: Seq<CartItem>,
    after: Seq<CartItem>,
    groups: Seq<FulfillmentGroup>,
)
    requires
        before.len() <= after.len(),
        forall|i: int|
            0 <= i < before.len() ==> (#[trigger] after[i]).id@ == before[i].id@,
        forall|k: int| 0 <= k < groups.len() ==> holds_lines(#[trigger] groups[k], before),
    ensures
        forall|k: int| 0 <= k < groups.len() ==> holds_lines(#[trigger] groups[k], after),
{
    assert forall|k: int| 0 <= k < groups.len() implies holds_lines(
        #[trigger] groups[k],
        after,
    ) by {
        assert(holds_lines(groups[k], before));
        assert forall|i: int| 0 <= i < groups[k].items@.len() implies has_line(
            after,
            (#[trigger] groups[k].items@[i])@,
        ) by {
            let line = groups[k].items@[i]@;
            assert(has_line(before, line));
            let j = choose|j: int| 0 <= j < before.len() && (#[trigger] before[j]).id@ == line;
            assert(after[j].id@ == line);
        }
    }
}

/// No mutation leaves a shipment behind that lacks its lines: adding an item, changing a
/// quantity, removing a line and emptying the cart keep every shipment filled with lines
/// that are in the cart.
pub proof fn law_mutations_leave_no_orphans(
    before: Cart,
    item: CartItem,
    index: Result<usize, Error>,
    line: LineItemId,
    quantity: u32,
    done: Result<(), Error>,
    after: Cart,
)
    requires
        before.no_orphans(),
        ({
            ||| before.addition(item, after, index)
            ||| before.requantified(line, quantity, after, done)
            ||| before.removal(after, line, done)
            ||| before.cleared(after)
        }),
    ensures
        after.no_orphans(),
{
    let groups = before.fulfillment_groups@;
    if before.removal(after, line, done) {
        if has_line(before.items@, line@) {
            lemma_pruned_groups(groups, after.fulfillment_groups@, line@, before.items@);
        }
    } else if before.cleared(after) {
    } else if after != before {
        lemma_first_item_holds(before.items@, |listed: CartItem| listed.mergeable(item));
        lemma_first_item_holds(before.items@, |listed: CartItem| listed.id@ == line@);
        lemma_lines_stay(before.items@, after.items@, groups);
    }
}

/// A regrouped cart has no orphans: every shipment has lines, and all of them are in the
/// cart.
pub proof fn law_regrouping_leaves_no_orphans(before: Cart, after: Cart, prices: Seq<Money>)
    requires
        regrouped(before, after, prices),
    ensures
        after.no_orphans(),
{
    let items = before.items@;
    lemma_regrouped(before, after, prices);
    lemma_groups(items);
    assert forall|k: int| 0 <= k < after.fulfillment_groups@.len() implies holds_lines(
        #[trigger] after.fulfillment_groups@[k],
        after.items@,
    ) by {
        let group = after.fulfillment_groups@[k];
        let id = group_ids(items)[k];
        let lines = group_lines(items, id);
        assert(is_group(
            group,
            group_keys(items)[k],
            prices[k],
            before.shipping_address,
            lines,
        ));
        assert forall|i: int| 0 <= i < group.items@.len() implies has_line(
            after.items@,
            (#[trigger] group.items@[i])@,
        ) by {
            let line = group.items@[i]@;
            assert(line_texts(group.items@)[i] == line);
            assert(lines[i] == line);
            assert(lines.contains(line));
            lemma_group_lines(items, id, line);
            let j = choose|j: int|
                0 <= j < items.len() && (#[trigger] items[j]).id@ == line && item_group(items[j])
                    == id;
            assert(after.items@[j].id == items[j].id);
        }
        lemma_group_has_lines(items, k);
    }
}

proof fn lemma_group_has_lines(items: Seq<CartItem>, k: int)
    requires
        0 <= k < group_ids(items).len(),
    ensures
        group_lines(items, group_ids(items)[k]).len() > 0,
    decreases items.len(),
{
    let id = group_ids(items)[k];
    let rest = items.drop_last();
    if k < group_ids(rest).len() {
        lemma_groups(items);
        assert(group_ids(rest)[k] == id);
        lemma_group_has_lines(rest, k);
    } else {
        assert(item_group(items.last()) == id);
    }
}

/// Two lines are the same goods exactly when shop, article, price, tax code and delivery
/// agree.
pub proof fn law_equal_goods_can_merge(a: CartItem, b: CartItem)
    ensures
        a.mergeable(b) <==> b.mergeable(a),
        a.mergeable(b) ==> a.shop_id@ == b.shop_id@ && a.sku@ == b.sku@ && a.unit_price
            == b.unit_price && a.tax_code@ == b.tax_code@ && a.shipment() == b.shipment(),
        a.shop_id@ == b.shop_id@ && a.sku@ == b.sku@ && a.unit_price == b.unit_price
            && a.tax_code@ == b.tax_code@ && a.fulfillment is None && b.fulfillment is None
            ==> a.mergeable(b),
        a.shop_id@ == b.shop_id@ && a.sku@ == b.sku@ && a.unit_price == b.unit_price
            && a.tax_code@ == b.tax_code@ && a.fulfillment is Some && b.fulfillment is Some
            && a.fulfillment->Some_0@ == b.fulfillment->Some_0@ ==> a.mergeable(b),
{
}

/// Goods go in one shipment exactly when they come from one shop by the same delivery,
/// the standard one where none is chosen.
pub proof fn law_shipments_go_by_shop_and_delivery(a: CartItem, b: CartItem)
    ensures
        a.fulfillment is Some && b.fulfillment is Some ==> (a.shipment() == b.shipment()
            <==> a.shop_id@ == b.shop_id@ && a.fulfillment->Some_0@ == b.fulfillment->Some_0@),
        a.fulfillment is None && b.fulfillment is None ==> (a.shipment() == b.shipment()
            <==> a.shop_id@ == b.shop_id@),
        a.fulfillment is None && b.fulfillment is Some ==> (a.shipment() == b.shipment()
            <==> a.shop_id@ == b.shop_id@ && b.fulfillment->Some_0@ == standard_selection()),
{
}

/// Adding goods that a line already holds adds to its units; any others become a line of
/// their own at the end. All other lines stay as they are.
pub proof fn law_added_goods_are_in_the_cart(
    cart: Cart,
    item: CartItem,
    after: Cart,
    index: Result<usize, Error>,
    at: int,
)
    requires
        cart.addition(item, after, index),
        0 <= at <= cart.items@.len(),
        at < cart.items@.len() ==> cart.items@[at].mergeable(item),
        forall|i: int| 0 <= i < at ==> !(#[trigger] cart.items@[i]).mergeable(item),
    ensures
        index is Ok <==> item.unit_price.currency == cart.currency && item.quantity > 0 && (at
            < cart.items@.len() ==> cart.items@[at].quantity + item.quantity <= u32::MAX),
        index is Ok ==> {
            &&& index->Ok_0 == at
            &&& at < cart.items@.len() ==> after.items@.len() == cart.items@.len()
                && after.items@[at].quantity == cart.items@[at].quantity + item.quantity
                && after.items@[at].unit_price == cart.items@[at].unit_price
                && after.items@[at].id == cart.items@[at].id
            &&& at == cart.items@.len() ==> after.items@.len() == cart.items@.len() + 1
                && after.items@[at] == item
            &&& forall|i: int|
                0 <= i < cart.items@.len() && i != at ==> #[trigger] after.items@[i]
                    == cart.items@[i]
        },
        index is Err ==> after == cart,
{
    lemma_first_item(cart.items@, |other: CartItem| other.mergeable(item), at);
}

/// Changing the units of a line sets them and leaves the other lines alone; a line of no
/// units is removed, and a line that is not there cannot be changed.
pub proof fn law_quantities_are_set(
    cart: Cart,
    line: LineItemId,
    quantity: u32,
    after: Cart,
    done: Result<(), Error>,
    at: int,
)
    requires
        cart.requantified(line, quantity, after, done),
        0 <= at <= cart.items@.len(),
        at < cart.items@.len() ==> cart.items@[at].id@ == line@,
        forall|i: int| 0 <= i < at ==> (#[trigger] cart.items@[i]).id@ != line@,
    ensures
        done is Ok <==> at < cart.items@.len(),
        done is Ok && quantity > 0 ==> {
            &&& after.items@.len() == cart.items@.len()
            &&& after.items@[at].quantity == quantity
            &&& after.items@[at].unit_price == cart.items@[at].unit_price
            &&& forall|i: int|
                0 <= i < cart.items@.len() && i != at ==> #[trigger] after.items@[i]
                    == cart.items@[i]
        },
        done is Ok && quantity == 0 ==> !has_line(after.items@, line@),
        done is Err ==> after == cart,
{
    let test = |item: CartItem| item.id@ == line@;
    lemma_first_item(cart.items@, test, at);
    if at < cart.items@.len() {
        assert(cart.items@[at].id@ == line@);
    } else if has_line(cart.items@, line@) {
        let i = choose|i: int|
            0 <= i < cart.items@.len() && (#[trigger] cart.items@[i]).id@ == line@;
        assert(cart.items@[i].id@ == line@);
    }
    if quantity == 0 && done is Ok {
        law_removed_lines_are_gone(cart.items@, line@);
    }
}

/// Removing a line removes it and nothing else.
pub proof fn law_removed_lines_are_gone(items: Seq<CartItem>, line: Seq<char>)
    ensures
        !has_line(without_line(items, line), line),
        forall|i: int|
            0 <= i < items.len() && (#[trigger] items[i]).id@ != line ==> without_line(
                items,
                line,
            ).contains(items[i]),
        forall|i: int|
            0 <= i < without_line(items, line).len() ==> items.contains(
                #[trigger] without_line(items, line)[i],
            ),
        !has_line(items, line) ==> without_line(items, line) == items,
    decreases items.len(),
{
    if items.len() > 0 {
        let rest = items.drop_last();
        let left = without_line(rest, line);
        let kept = without_line(items, line);
        law_removed_lines_are_gone(rest, line);
        assert forall|i: int| 0 <= i < items.len() && (#[trigger] items[i]).id@
            != line implies kept.contains(items[i]) by {
            if i < rest.len() {
                assert(rest[i] == items[i]);
                let k = choose|k: int| 0 <= k < left.len() && left[k] == items[i];
                assert(kept[k] == items[i]);
            } else {
                assert(kept[kept.len() - 1] == items[i]);
            }
        }
        assert forall|i: int| 0 <= i < kept.len() implies items.contains(#[trigger] kept[i]) by {
            if i < left.len() {
                assert(rest.contains(left[i]));
                let k = choose|k: int| 0 <= k < rest.len() && rest[k] == left[i];
                assert(items[k] == kept[i]);
            } else {
                assert(items[items.len() - 1] == kept[i]);
            }
        }
        if has_line(kept, line) {
            let k = choose|k: int| 0 <= k < kept.len() && (#[trigger] kept[k]).id@ == line;
            if k < left.len() {
                assert(left[k].id@ == line);
            }
        }
        if !has_line(items, line) {
            assert(items[items.len() - 1].id@ != line);
            if has_line(rest, line) {
                let k = choose|k: int| 0 <= k < rest.len() && (#[trigger] rest[k]).id@ == line;
                assert(items[k].id@ == line);
            }
            assert(kept =~= items);
        }
    } else {
        assert(without_line(items, line) =~= items);
    }
}

/// A promotion code is in the cart once it was entered, once, whatever the case of its
/// letters; withdrawing it takes it out and leaves the others.
pub proof fn law_codes_are_entered_once(cart: Cart, code: Seq<char>, after: Cart)
    ensures
        cart.code_applied(code, after) ==> has_code(after.discount_codes@, code),
        cart.code_applied(code, after) && has_code(cart.discount_codes@, code) ==> after == cart,
        cart.code_applied(code, after) && !has_code(cart.discount_codes@, code) ==> {
            &&& after.discount_codes@.len() == cart.discount_codes@.len() + 1
            &&& after.discount_codes@.last()@ == code
            &&& forall|i: int|
                0 <= i < cart.discount_codes@.len() ==> #[trigger] after.discount_codes@[i]
                    == cart.discount_codes@[i]
        },
        cart.gift_card_added(code, after) && !has_code(cart.gift_card_codes@, code) ==> {
            &&& after.gift_card_codes@.len() == cart.gift_card_codes@.len() + 1
            &&& after.gift_card_codes@.last()@ == code
        },
        cart.gift_card_added(code, after) && has_code(cart.gift_card_codes@, code) ==> after
            == cart,
        cart.code_removed(code, after) ==> !has_code(after.discount_codes@, code),
        cart.code_removed(code, after) ==> forall|i: int|
            0 <= i < cart.discount_codes@.len() && !same_ignoring_case(
                (#[trigger] cart.discount_codes@[i])@,
                code,
            ) ==> after.discount_codes@.contains(cart.discount_codes@[i]),
{
    if cart.code_applied(code, after) && !has_code(cart.discount_codes@, code) {
        let last = after.discount_codes@.len() - 1;
        assert(same_ignoring_case(after.discount_codes@[last]@, code));
        assert forall|i: int| 0 <= i < cart.discount_codes@.len() implies
            #[trigger] after.discount_codes@[i] == cart.discount_codes@[i] by {
            assert(after.discount_codes@.drop_last()[i] == after.discount_codes@[i]);
        }
    }
    lemma_without_code(cart.discount_codes@, code);
}

proof fn lemma_without_code(codes: Seq<String>, code: Seq<char>)
    ensures
        !has_code(without_code(codes, code), code),
        forall|i: int|
            0 <= i < codes.len() && !same_ignoring_case((#[trigger] codes[i])@, code)
                ==> without_code(codes, code).contains(codes[i]),
    decreases codes.len(),
{
    if codes.len() > 0 {
        let rest = codes.drop_last();
        let left = without_code(rest, code);
        let kept = without_code(codes, code);
        lemma_without_code(rest, code);
        assert forall|i: int| 0 <= i < codes.len() && !same_ignoring_case(
            (#[trigger] codes[i])@,
            code,
        ) implies kept.contains(codes[i]) by {
            if i < rest.len() {
                assert(rest[i] == codes[i]);
                let k = choose|k: int| 0 <= k < left.len() && left[k] == codes[i];
                assert(kept[k] == codes[i]);
            } else {
                assert(kept[kept.len() - 1] == codes[i]);
            }
        }
        if has_code(kept, code) {
            let k = choose|k: int|
                0 <= k < kept.len() && same_ignoring_case((#[trigger] kept[k])@, code);
            if k < left.len() {
                assert(same_ignoring_case(left[k]@, code));
            }
        }
    }
}

/// The goods of a cart cost the price of each line times its units, and nothing else.
pub proof fn law_subtotals_are_prices_times_units(
    items: Seq<CartItem>,
    currency: Currency,
    n: int,
)
    requires
        0 <= n < items.len(),
        items_subtotal(items, currency, n + 1) is Ok,
    ensures
        items_subtotal(items, currency, n) is Ok,
        items_subtotal(items, currency, n + 1)->Ok_0.minor == items_subtotal(
            items,
            currency,
            n,
        )->Ok_0.minor + items[n].unit_price.minor * items[n].quantity,
        items_subtotal(items, currency, n + 1)->Ok_0.currency == items_subtotal(
            items,
            currency,
            n,
        )->Ok_0.currency,
        items_subtotal(items, currency, 0) == Ok::<Money, ErrorView>(Money { minor: 0, currency }),
        units(items, n + 1) == units(items, n) + items[n].quantity,
        units(items, 0) == 0,
{
}

/// The shops of a cart are those of its lines, each once.
pub proof fn law_shops_are_named_once(items: Seq<CartItem>)
    ensures
        forall|i: int|
            0 <= i < items.len() ==> distinct_shops(items).contains(
                (#[trigger] items[i]).shop_id@,
            ),
        forall|k: int|
            0 <= k < distinct_shops(items).len() ==> exists|i: int|
                0 <= i < items.len() && (#[trigger] items[i]).shop_id@
                    == #[trigger] distinct_shops(items)[k],
        distinct_shops(items).no_duplicates(),
    decreases items.len(),
{
    if items.len() > 0 {
        let rest = items.drop_last();
        let before = distinct_shops(rest);
        let shops = distinct_shops(items);
        law_shops_are_named_once(rest);
        assert forall|i: int| 0 <= i < items.len() implies shops.contains(
            (#[trigger] items[i]).shop_id@,
        ) by {
            if i < rest.len() {
                assert(rest[i] == items[i]);
                let k = choose|k: int| 0 <= k < before.len() && before[k] == items[i].shop_id@;
                assert(shops[k] == items[i].shop_id@);
            } else if !before.contains(items[i].shop_id@) {
                assert(shops[shops.len() - 1] == items[i].shop_id@);
            }
        }
        assert forall|k: int| 0 <= k < shops.len() implies exists|i: int|
            0 <= i < items.len() && (#[trigger] items[i]).shop_id@ == #[trigger] shops[k] by {
            if k < before.len() {
                let i = choose|i: int|
                    0 <= i < rest.len() && (#[trigger] rest[i]).shop_id@ == before[k];
                assert(items[i].shop_id@ == shops[k]);
            } else {
                assert(items[items.len() - 1].shop_id@ == shops[k]);
            }
        }
    }
}

proof fn lemma_item_failures(items: Seq<CartItem>, currency: Currency, n: int)
    requires
        0 <= n <= items.len(),
    ensures
        item_failure(items, currency, n) is None <==> forall|i: int|
            0 <= i < n ==> (#[trigger] items[i]).quantity >= 1 && items[i].unit_price.currency
                == currency && items[i].unit_price.minor >= 0,
    decreases n,
{
    if n > 0 {
        lemma_item_failures(items, currency, n - 1);
        if item_failure(items, currency, n) is None {
            assert forall|i: int| 0 <= i < n implies (#[trigger] items[i]).quantity >= 1
                && items[i].unit_price.currency == currency && items[i].unit_price.minor
                >= 0 by {
                if i < n - 1 {
                    assert(item_failure(items, currency, n - 1) is None);
                }
            }
        } else if item_failure(items, currency, n - 1) is None {
            let item = items[n - 1];
        }
    }
}

proof fn lemma_orphan_failures(items: Seq<CartItem>, group: FulfillmentGroup, n: int)
    requires
        0 <= n <= group.items@.len(),
    ensures
        orphan_failure(items, group, n) is None <==> forall|i: int|
            0 <= i < n ==> has_line(items, (#[trigger] group.items@[i])@),
    decreases n,
{
    if n > 0 {
        lemma_orphan_failures(items, group, n - 1);
        if orphan_failure(items, group, n) is None {
            assert forall|i: int| 0 <= i < n implies has_line(
                items,
                (#[trigger] group.items@[i])@,
            ) by {
                if i < n - 1 {
                    assert(orphan_failure(items, group, n - 1) is None);
                }
            }
        } else if orphan_failure(items, group, n - 1) is None {
            assert(!has_line(items, group.items@[n - 1]@));
        }
    }
}

/// Whether a shipment costs nothing below zero and holds only lines of the cart.
pub open spec fn sound_group(group: FulfillmentGroup, items: Seq<CartItem>) -> bool {
    &&& group.shipping_price.minor >= 0
    &&& forall|i: int|
        0 <= i < group.items@.len() ==> has_line(items, (#[trigger] group.items@[i])@)
}

proof fn lemma_group_failures(items: Seq<CartItem>, groups: Seq<FulfillmentGroup>, n: int)
    requires
        0 <= n <= groups.len(),
    ensures
        group_failure(items, groups, n) is None <==> forall|k: int|
            0 <= k < n ==> sound_group(#[trigger] groups[k], items),
    decreases n,
{
    if n > 0 {
        lemma_group_failures(items, groups, n - 1);
        let group = groups[n - 1];
        lemma_orphan_failures(items, group, group.items@.len() as int);
        if group_failure(items, groups, n) is None {
            assert forall|k: int| 0 <= k < n implies sound_group(#[trigger] groups[k], items) by {
                if k < n - 1 {
                    assert(group_failure(items, groups, n - 1) is None);
                }
            }
        } else if group_failure(items, groups, n - 1) is None {
            assert(!sound_group(group, items));
        }
    }
}

proof fn lemma_membership_failures(items: Seq<CartItem>, groups: Seq<FulfillmentGroup>, n: int)
    requires
        0 <= n <= items.len(),
    ensures
        membership_failure(items, groups, n) is None <==> forall|i: int|
            0 <= i < n ==> holders(groups, (#[trigger] items[i]).id@, groups.len() as int) == 1,
    decreases n,
{
    if n > 0 {
        lemma_membership_failures(items, groups, n - 1);
        if membership_failure(items, groups, n) is None {
            assert forall|i: int| 0 <= i < n implies holders(
                groups,
                (#[trigger] items[i]).id@,
                groups.len() as int,
            ) == 1 by {
                if i < n - 1 {
                    assert(membership_failure(items, groups, n - 1) is None);
                }
            }
        } else if membership_failure(items, groups, n - 1) is None {
            assert(holders(groups, items[n - 1].id@, groups.len() as int) != 1);
        }
    }
}

/// A cart can be checked out exactly when it holds something, every line has units and a
/// price in the currency of the cart, no shipment has a negative price or a line that the
/// cart does not have, and every line is in exactly one shipment once there are any.
pub proof fn law_carts_are_valid_by_line_and_shipment(cart: Cart)
    ensures
        cart.check() is Ok <==> {
            &&& cart.items@.len() > 0
            &&& forall|i: int|
                0 <= i < cart.items@.len() ==> (#[trigger] cart.items@[i]).quantity >= 1
                    && cart.items@[i].unit_price.currency == cart.currency
                    && cart.items@[i].unit_price.minor >= 0
            &&& forall|k: int|
                0 <= k < cart.fulfillment_groups@.len() ==> sound_group(
                    #[trigger] cart.fulfillment_groups@[k],
                    cart.items@,
                )
            &&& cart.fulfillment_groups@.len() == 0 || forall|i: int|
                0 <= i < cart.items@.len() ==> holders(
                    cart.fulfillment_groups@,
                    (#[trigger] cart.items@[i]).id@,
                    cart.fulfillment_groups@.len() as int,
                ) == 1
        },
{
    let items = cart.items@;
    let groups = cart.fulfillment_groups@;
    lemma_item_failures(items, cart.currency, items.len() as int);
    lemma_group_failures(items, groups, groups.len() as int);
    lemma_membership_failures(items, groups, items.len() as int);
}

/// A line is listed in a group exactly when its goods go there.
pub proof fn law_lines_are_listed_in_their_group(items: Seq<CartItem>, group: Seq<char>)
    ensures
        forall|i: int|
            0 <= i < items.len() && item_group(#[trigger] items[i]) == group ==> group_lines(
                items,
                group,
            ).contains(items[i].id@),
        forall|k: int|
            0 <= k < group_lines(items, group).len() ==> exists|i: int|
                0 <= i < items.len() && item_group(#[trigger] items[i]) == group && items[i].id@
                    == #[trigger] group_lines(items, group)[k],
    decreases items.len(),
{
    if items.len() > 0 {
        let rest = items.drop_last();
        let before = group_lines(rest, group);
        let lines = group_lines(items, group);
        law_lines_are_listed_in_their_group(rest, group);
        assert forall|i: int| 0 <= i < items.len() && item_group(#[trigger] items[i])
            == group implies lines.contains(items[i].id@) by {
            if i < rest.len() {
                assert(rest[i] == items[i]);
                let k = choose|k: int| 0 <= k < before.len() && before[k] == items[i].id@;
                assert(lines[k] == items[i].id@);
            } else {
                assert(lines[lines.len() - 1] == items[i].id@);
            }
        }
        assert forall|k: int| 0 <= k < lines.len() implies exists|i: int|
            0 <= i < items.len() && item_group(#[trigger] items[i]) == group && items[i].id@
                == #[trigger] lines[k] by {
            if k < before.len() {
                let i = choose|i: int|
                    0 <= i < rest.len() && item_group(#[trigger] rest[i]) == group && rest[i].id@
                        == before[k];
                assert(item_group(items[i]) == group);
            } else {
                assert(item_group(items[items.len() - 1]) == group);
            }
        }
    }
}

/// The choice to use store credit is kept and changes nothing else; the version moves exactly
/// when the choice does.
pub proof fn law_the_choice_of_credit_is_kept(cart: Cart, apply: bool, after: Cart)
    requires
        cart.credit_chosen(apply, after),
    ensures
        after.apply_shop_credit == apply,
        after.items == cart.items,
        after.fulfillment_groups == cart.fulfillment_groups,
        cart.apply_shop_credit == apply ==> after == cart,
        cart.apply_shop_credit != apply && cart.version < u64::MAX ==> after.version
            == cart.version + 1,
{
}

} // verus!
