//! In-memory reference stores.
//!
//! These are complete and correct — with the optimistic-concurrency
//! checks — but they are not durable. They exist so that tests, examples and
//! local development need no database, and so that a new backend has a working
//! specification to compare against.

use vstd::prelude::*;

use crate::cart::Cart;
use crate::collections::{is_listing, lemma_same_keys_same_listing, listed, OrderedMap};
use crate::error::{Error, ErrorView};
use crate::ids::{
    CartId, CustomerId, DiscountId, DisputeId, GiftCardId, OrderId, PaymentId, PaymentMethodId,
    ShopId,
};
use crate::ledger::giftcard::code_hash;
use crate::ledger::{hash_gift_card_code, GiftCard, ShopCreditAccount};
use crate::money::Currency;
use crate::order::Order;
use crate::payment::dispute::Dispute;
use crate::payment::method::PaymentMethodRef;
use crate::payment::Payment;
use crate::pricing::{Discount, DiscountConditions};
use crate::sorting::{is_sorted_by, is_sorting, sort_positions, Rank};
use crate::storage::{check_version, stale, IdempotencyOutcome};
use crate::text::{equal_ignoring_case, join3, optional_text, same_ignoring_case, same_text};
use crate::time::Timestamp;

verus! {

/// The values behind a list of references.
pub open spec fn values_of<V>(list: Seq<&V>) -> Seq<V> {
    list.map_values(|value: &V| *value)
}

/// The values under the first `n` keys of a map that satisfy a condition, in key order.
pub open spec fn selected<V>(map: Map<Seq<char>, V>, keep: spec_fn(V) -> bool, n: int) -> Seq<V>
    decreases n,
{
    if n <= 0 {
        Seq::empty()
    } else {
        let before = selected(map, keep, n - 1);
        let value = map[listed(map)[n - 1]];
        if keep(value) {
            before.push(value)
        } else {
            before
        }
    }
}

/// All values of a map that satisfy a condition, in key order.
pub open spec fn all_selected<V>(map: Map<Seq<char>, V>, keep: spec_fn(V) -> bool) -> Seq<V> {
    selected(map, keep, listed(map).len() as int)
}

/// The later instant first.
pub open spec fn newest_first(at: Timestamp) -> Rank {
    Rank { first: -(at.seconds as i128) as i128, second: -(at.nanos as i128) as i128, third: 0 }
}

/// The earlier instant first.
pub open spec fn oldest_first(at: Timestamp) -> Rank {
    Rank { first: at.seconds as i128, second: at.nanos as i128, third: 0 }
}

fn arrange<'a, V>(list: Vec<&'a V>, ranks: &Vec<Rank>) -> (sorted: Vec<&'a V>)
    requires
        list@.len() == ranks@.len(),
    ensures
        is_sorted_by(values_of(sorted@), values_of(list@), ranks@),
{
    let order = sort_positions(ranks);
    let ghost wanted = Seq::new(order@.len(), |i: int| values_of(list@)[order@[i] as int]);
    let mut sorted: Vec<&'a V> = Vec::new();
    let mut n: usize = 0;
    assert(values_of(sorted@) =~= wanted.take(0));
    while n < order.len()
        invariant
            n <= order@.len(),
            is_sorting(order@, ranks@),
            list@.len() == ranks@.len(),
            wanted == Seq::new(order@.len(), |i: int| values_of(list@)[order@[i] as int]),
            values_of(sorted@) == wanted.take(n as int),
        decreases order@.len() - n,
    {
        assert(order@[n as int] < ranks@.len());
        let ghost before = values_of(sorted@);
        sorted.push(list[order[n]]);
        assert(values_of(sorted@) =~= before.push(wanted[n as int]));
        n += 1;
        assert(values_of(sorted@) =~= wanted.take(n as int));
    }
    assert(wanted.take(n as int) =~= wanted);
    sorted
}

/// Whether an optional customer is a given one.
pub open spec fn is_customer(customer: Option<CustomerId>, wanted: Seq<char>) -> bool {
    match customer {
        Some(id) => id@ == wanted,
        None => false,
    }
}

fn same_customer(customer: &Option<CustomerId>, wanted: &CustomerId) -> (same: bool)
    ensures
        same == is_customer(*customer, wanted@),
{
    match customer {
        Some(id) => id.same(wanted),
        None => false,
    }
}

/// Carts of a customer.
pub open spec fn cart_of_customer(customer: Seq<char>) -> spec_fn(Cart) -> bool {
    |cart: Cart| is_customer(cart.customer_id, customer)
}

/// In-memory store of carts.
#[derive(Debug)]
pub struct InMemoryCartRepository {
    items: OrderedMap<Cart>,
}

impl View for InMemoryCartRepository {
    type V = Map<Seq<char>, Cart>;

    closed spec fn view(&self) -> Map<Seq<char>, Cart> {
        self.items@
    }
}

impl Default for InMemoryCartRepository {
    fn default() -> (store: Self)
        ensures
            store@ == Map::<Seq<char>, Cart>::empty(),
    {
        Self::new()
    }
}

impl InMemoryCartRepository {
    /// An empty store.
    pub fn new() -> (store: Self)
        ensures
            store@ == Map::<Seq<char>, Cart>::empty(),
    {
        InMemoryCartRepository { items: OrderedMap::new() }
    }

    /// Number of stored entities.
    pub fn len(&self) -> (count: usize)
        ensures
            count == listed(self@).len(),
            is_listing(listed(self@), self@),
    {
        self.items.len()
    }

    /// Whether the store is empty.
    pub fn is_empty(&self) -> (empty: bool)
        ensures
            empty == (listed(self@).len() == 0),
    {
        self.items.len() == 0
    }

    /// Load by identifier.
    pub fn get(&self, id: &CartId) -> (found: Option<&Cart>)
        ensures
            match found {
                Some(value) => self@.contains_key(id@) && *value == self@[id@],
                None => !self@.contains_key(id@),
            },
    {
        self.items.get(id.as_str())
    }

    /// The version that is stored under an identifier.
    pub open spec fn stored_version(self, id: Seq<char>) -> Option<u64> {
        if self@.contains_key(id) {
            Some(self@[id].version)
        } else {
            None
        }
    }

    /// Insert or update, enforcing the version check.
    pub fn save(&mut self, cart: Cart) -> (saved: Result<(), Error>)
        ensures
            match saved {
                Ok(_) => {
                    &&& stale(
                        "cart"@,
                        cart.id@,
                        old(self).stored_version(cart.id@),
                        cart.version,
                    ) is None
                    &&& final(self)@ == old(self)@.insert(cart.id@, cart)
                },
                Err(error) => {
                    &&& stale(
                        "cart"@,
                        cart.id@,
                        old(self).stored_version(cart.id@),
                        cart.version,
                    ) == Some(error@)
                    &&& final(self)@ == old(self)@
                },
            },
    {
        let stored = match self.items.get(cart.id.as_str()) {
            Some(existing) => Some(existing.version),
            None => None,
        };
        match check_version(CartId::kind(), cart.id.as_str(), stored, cart.version) {
            Ok(_) => {},
            Err(error) => return Err(error),
        }
        self.items.insert(cart.id.to_text(), cart);
        Ok(())
    }

    /// Delete a cart.
    pub fn delete(&mut self, id: &CartId)
        ensures
            final(self)@ == old(self)@.remove(id@),
    {
        self.items.remove(id.as_str());
    }

    /// All carts belonging to a customer.
    pub fn list_for_customer(&self, customer_id: &CustomerId) -> (list: Vec<&Cart>)
        ensures
            values_of(list@) == all_selected(self@, cart_of_customer(customer_id@)),
    {
        let count = self.items.len();
        let mut list: Vec<&Cart> = Vec::new();
        let mut n: usize = 0;
        assert(values_of(list@) =~= Seq::<Cart>::empty());
        while n < count
            invariant
                n <= count,
                count == self.items.keys().len(),
                self.items.keys() == listed(self@),
                values_of(list@) == selected(self@, cart_of_customer(customer_id@), n as int),
            decreases count - n,
        {
            let value = self.items.value_at(n);
            let ghost seen = values_of(list@);
            if same_customer(&value.customer_id, customer_id) {
                list.push(value);
                assert(values_of(list@) =~= seen.push(*value));
            }
            n += 1;
        }
        list
    }
}

/// Orders of a customer.
pub open spec fn order_of_customer(customer: Seq<char>) -> spec_fn(Order) -> bool {
    |order: Order| is_customer(order.customer_id, customer)
}

/// Whether an order holds items from a shop.
pub open spec fn sells_for(order: Order, shop: Seq<char>) -> bool {
    exists|i: int|
        0 <= i < order.quote.shop_totals@.len() && (
        #[trigger] order.quote.shop_totals@[i]).shop_id@ == shop
}

fn has_shop(order: &Order, shop_id: &ShopId) -> (found: bool)
    ensures
        found == sells_for(*order, shop_id@),
{
    let mut i: usize = 0;
    while i < order.quote.shop_totals.len()
        invariant
            i <= order.quote.shop_totals@.len(),
            forall|j: int|
                0 <= j < i ==> (#[trigger] order.quote.shop_totals@[j]).shop_id@ != shop_id@,
        decreases order.quote.shop_totals@.len() - i,
    {
        if order.quote.shop_totals[i].shop_id.same(shop_id) {
            return true;
        }
        i += 1;
    }
    false
}

/// Orders that hold items from a shop.
pub open spec fn order_of_shop(shop: Seq<char>) -> spec_fn(Order) -> bool {
    |order: Order| sells_for(order, shop)
}

/// Every order.
pub open spec fn any_order() -> spec_fn(Order) -> bool {
    |order: Order| true
}

/// The ranks of orders, newest first.
pub open spec fn newest_orders_first(list: Seq<Order>) -> Seq<Rank> {
    list.map_values(|value: Order| newest_first(value.created_at))
}

fn newest_orders_first_exec(list: &Vec<&Order>) -> (ranks: Vec<Rank>)
    ensures
        ranks@ == newest_orders_first(values_of(list@)),
{
    let ghost all = newest_orders_first(values_of(list@));
    let mut ranks: Vec<Rank> = Vec::new();
    let mut n: usize = 0;
    while n < list.len()
        invariant
            n <= list@.len(),
            all == newest_orders_first(values_of(list@)),
            ranks@ == all.take(n as int),
        decreases list@.len() - n,
    {
        let value = list[n];
        assert(values_of(list@)[n as int] == *value);
        ranks.push(Rank { first: -(value.created_at.seconds as i128), second: -(value.created_at.nanos as i128), third: 0 });
        n += 1;
        assert(ranks@ =~= all.take(n as int));
    }
    assert(ranks@ =~= all);
    ranks
}

/// In-memory store of orders.
#[derive(Debug)]
pub struct InMemoryOrderRepository {
    items: OrderedMap<Order>,
}

impl View for InMemoryOrderRepository {
    type V = Map<Seq<char>, Order>;

    closed spec fn view(&self) -> Map<Seq<char>, Order> {
        self.items@
    }
}

impl Default for InMemoryOrderRepository {
    fn default() -> (store: Self)
        ensures
            store@ == Map::<Seq<char>, Order>::empty(),
    {
        Self::new()
    }
}

impl InMemoryOrderRepository {
    /// An empty store.
    pub fn new() -> (store: Self)
        ensures
            store@ == Map::<Seq<char>, Order>::empty(),
    {
        InMemoryOrderRepository { items: OrderedMap::new() }
    }

    /// Number of stored entities.
    pub fn len(&self) -> (count: usize)
        ensures
            count == listed(self@).len(),
            is_listing(listed(self@), self@),
    {
        self.items.len()
    }

    /// Whether the store is empty.
    pub fn is_empty(&self) -> (empty: bool)
        ensures
            empty == (listed(self@).len() == 0),
    {
        self.items.len() == 0
    }

    /// Load by identifier.
    pub fn get(&self, id: &OrderId) -> (found: Option<&Order>)
        ensures
            match found {
                Some(value) => self@.contains_key(id@) && *value == self@[id@],
                None => !self@.contains_key(id@),
            },
    {
        self.items.get(id.as_str())
    }

    /// The version that is stored under an identifier.
    pub open spec fn stored_version(self, id: Seq<char>) -> Option<u64> {
        if self@.contains_key(id) {
            Some(self@[id].version)
        } else {
            None
        }
    }

    /// Insert or update, enforcing the version check.
    pub fn save(&mut self, order: Order) -> (saved: Result<(), Error>)
        ensures
            match saved {
                Ok(_) => {
                    &&& stale(
                        "order"@,
                        order.id@,
                        old(self).stored_version(order.id@),
                        order.version,
                    ) is None
                    &&& final(self)@ == old(self)@.insert(order.id@, order)
                },
                Err(error) => {
                    &&& stale(
                        "order"@,
                        order.id@,
                        old(self).stored_version(order.id@),
                        order.version,
                    ) == Some(error@)
                    &&& final(self)@ == old(self)@
                },
            },
    {
        let stored = match self.items.get(order.id.as_str()) {
            Some(existing) => Some(existing.version),
            None => None,
        };
        match check_version(OrderId::kind(), order.id.as_str(), stored, order.version) {
            Ok(_) => {},
            Err(error) => return Err(error),
        }
        self.items.insert(order.id.to_text(), order);
        Ok(())
    }

    /// Those a listing is about, in key order.
    fn select_for_customer(&self, customer_id: &CustomerId) -> (list: Vec<&Order>)
        ensures
            values_of(list@) == all_selected(self@, order_of_customer(customer_id@)),
    {
        let count = self.items.len();
        let mut list: Vec<&Order> = Vec::new();
        let mut n: usize = 0;
        assert(values_of(list@) =~= Seq::<Order>::empty());
        while n < count
            invariant
                n <= count,
                count == self.items.keys().len(),
                self.items.keys() == listed(self@),
                values_of(list@) == selected(self@, order_of_customer(customer_id@), n as int),
            decreases count - n,
        {
            let value = self.items.value_at(n);
            let ghost seen = values_of(list@);
            if same_customer(&value.customer_id, customer_id) {
                list.push(value);
                assert(values_of(list@) =~= seen.push(*value));
            }
            n += 1;
        }
        list
    }

    /// All orders belonging to a customer, newest first.
    pub fn list_for_customer(&self, customer_id: &CustomerId) -> (list: Vec<&Order>)
        ensures
            is_sorted_by(
                values_of(list@),
                all_selected(self@, order_of_customer(customer_id@)),
                newest_orders_first(all_selected(self@, order_of_customer(customer_id@))),
            ),
    {
        let found = self.select_for_customer(customer_id);
        let ranks = newest_orders_first_exec(&found);
        arrange(found, &ranks)
    }

    /// Those a listing is about, in key order.
    fn select_for_shop(&self, shop_id: &ShopId) -> (list: Vec<&Order>)
        ensures
            values_of(list@) == all_selected(self@, order_of_shop(shop_id@)),
    {
        let count = self.items.len();
        let mut list: Vec<&Order> = Vec::new();
        let mut n: usize = 0;
        assert(values_of(list@) =~= Seq::<Order>::empty());
        while n < count
            invariant
                n <= count,
                count == self.items.keys().len(),
                self.items.keys() == listed(self@),
                values_of(list@) == selected(self@, order_of_shop(shop_id@), n as int),
            decreases count - n,
        {
            let value = self.items.value_at(n);
            let ghost seen = values_of(list@);
            if has_shop(value, shop_id) {
                list.push(value);
                assert(values_of(list@) =~= seen.push(*value));
            }
            n += 1;
        }
        list
    }

    /// All orders containing items from a shop, newest first.
    pub fn list_for_shop(&self, shop_id: &ShopId) -> (list: Vec<&Order>)
        ensures
            is_sorted_by(
                values_of(list@),
                all_selected(self@, order_of_shop(shop_id@)),
                newest_orders_first(all_selected(self@, order_of_shop(shop_id@))),
            ),
    {
        let found = self.select_for_shop(shop_id);
        let ranks = newest_orders_first_exec(&found);
        arrange(found, &ranks)
    }

    /// Those a listing is about, in key order.
    fn select_all(&self) -> (list: Vec<&Order>)
        ensures
            values_of(list@) == all_selected(self@, any_order()),
    {
        let count = self.items.len();
        let mut list: Vec<&Order> = Vec::new();
        let mut n: usize = 0;
        assert(values_of(list@) =~= Seq::<Order>::empty());
        while n < count
            invariant
                n <= count,
                count == self.items.keys().len(),
                self.items.keys() == listed(self@),
                values_of(list@) == selected(self@, any_order(), n as int),
            decreases count - n,
        {
            let value = self.items.value_at(n);
            let ghost seen = values_of(list@);
            if true {
                list.push(value);
                assert(values_of(list@) =~= seen.push(*value));
            }
            n += 1;
        }
        list
    }

    /// Every order, for reporting, newest first.
    pub fn list_all(&self) -> (list: Vec<&Order>)
        ensures
            is_sorted_by(
                values_of(list@),
                all_selected(self@, any_order()),
                newest_orders_first(all_selected(self@, any_order())),
            ),
    {
        let found = self.select_all();
        let ranks = newest_orders_first_exec(&found);
        arrange(found, &ranks)
    }
}

/// Payments of an order.
pub open spec fn payment_of_order(order: Seq<char>) -> spec_fn(Payment) -> bool {
    |payment: Payment| payment.order_id@ == order
}

/// Payments with a gateway transaction.
pub open spec fn payment_of_transaction(transaction: Seq<char>) -> spec_fn(Payment) -> bool {
    |payment: Payment| optional_text(payment.transaction_id) == Some(transaction)
}

/// Whether a hold can still be captured and lapses no later than an instant.
pub open spec fn lapsing(payment: Payment, before: Timestamp) -> bool {
    payment.status.capturable() && match payment.authorization_expires_at {
        Some(at) => !before.before(at),
        None => false,
    }
}

/// Holds that lapse no later than an instant.
pub open spec fn payment_lapsing(before: Timestamp) -> spec_fn(Payment) -> bool {
    |payment: Payment| lapsing(payment, before)
}

fn is_lapsing(payment: &Payment, before: Timestamp) -> (lapses: bool)
    ensures
        lapses == lapsing(*payment, before),
{
    if !payment.status.is_capturable() {
        return false;
    }
    match payment.authorization_expires_at {
        Some(at) => !before.is_before(at),
        None => false,
    }
}

fn has_transaction(payment: &Payment, transaction_id: &str) -> (found: bool)
    ensures
        found == (optional_text(payment.transaction_id) == Some(transaction_id@)),
{
    match &payment.transaction_id {
        Some(id) => same_text(id.as_str(), transaction_id),
        None => false,
    }
}

/// The ranks of payments, oldest first.
pub open spec fn oldest_payments_first(list: Seq<Payment>) -> Seq<Rank> {
    list.map_values(|value: Payment| oldest_first(value.created_at))
}

fn oldest_payments_first_exec(list: &Vec<&Payment>) -> (ranks: Vec<Rank>)
    ensures
        ranks@ == oldest_payments_first(values_of(list@)),
{
    let ghost all = oldest_payments_first(values_of(list@));
    let mut ranks: Vec<Rank> = Vec::new();
    let mut n: usize = 0;
    while n < list.len()
        invariant
            n <= list@.len(),
            all == oldest_payments_first(values_of(list@)),
            ranks@ == all.take(n as int),
        decreases list@.len() - n,
    {
        let value = list[n];
        assert(values_of(list@)[n as int] == *value);
        ranks.push(Rank { first: value.created_at.seconds as i128, second: value.created_at.nanos as i128, third: 0 });
        n += 1;
        assert(ranks@ =~= all.take(n as int));
    }
    assert(ranks@ =~= all);
    ranks
}

/// In-memory store of payment attempts.
#[derive(Debug)]
pub struct InMemoryPaymentRepository {
    items: OrderedMap<Payment>,
}

impl View for InMemoryPaymentRepository {
    type V = Map<Seq<char>, Payment>;

    closed spec fn view(&self) -> Map<Seq<char>, Payment> {
        self.items@
    }
}

impl Default for InMemoryPaymentRepository {
    fn default() -> (store: Self)
        ensures
            store@ == Map::<Seq<char>, Payment>::empty(),
    {
        Self::new()
    }
}

impl InMemoryPaymentRepository {
    /// An empty store.
    pub fn new() -> (store: Self)
        ensures
            store@ == Map::<Seq<char>, Payment>::empty(),
    {
        InMemoryPaymentRepository { items: OrderedMap::new() }
    }

    /// Number of stored entities.
    pub fn len(&self) -> (count: usize)
        ensures
            count == listed(self@).len(),
            is_listing(listed(self@), self@),
    {
        self.items.len()
    }

    /// Whether the store is empty.
    pub fn is_empty(&self) -> (empty: bool)
        ensures
            empty == (listed(self@).len() == 0),
    {
        self.items.len() == 0
    }

    /// Load by identifier.
    pub fn get(&self, id: &PaymentId) -> (found: Option<&Payment>)
        ensures
            match found {
                Some(value) => self@.contains_key(id@) && *value == self@[id@],
                None => !self@.contains_key(id@),
            },
    {
        self.items.get(id.as_str())
    }

    /// The version that is stored under an identifier.
    pub open spec fn stored_version(self, id: Seq<char>) -> Option<u64> {
        if self@.contains_key(id) {
            Some(self@[id].version)
        } else {
            None
        }
    }

    /// Insert or update, enforcing the version check.
    pub fn save(&mut self, payment: Payment) -> (saved: Result<(), Error>)
        ensures
            match saved {
                Ok(_) => {
                    &&& stale(
                        "payment"@,
                        payment.id@,
                        old(self).stored_version(payment.id@),
                        payment.version,
                    ) is None
                    &&& final(self)@ == old(self)@.insert(payment.id@, payment)
                },
                Err(error) => {
                    &&& stale(
                        "payment"@,
                        payment.id@,
                        old(self).stored_version(payment.id@),
                        payment.version,
                    ) == Some(error@)
                    &&& final(self)@ == old(self)@
                },
            },
    {
        let stored = match self.items.get(payment.id.as_str()) {
            Some(existing) => Some(existing.version),
            None => None,
        };
        match check_version(PaymentId::kind(), payment.id.as_str(), stored, payment.version) {
            Ok(_) => {},
            Err(error) => return Err(error),
        }
        self.items.insert(payment.id.to_text(), payment);
        Ok(())
    }

    /// Those a listing is about, in key order.
    fn select_for_order(&self, order_id: &OrderId) -> (list: Vec<&Payment>)
        ensures
            values_of(list@) == all_selected(self@, payment_of_order(order_id@)),
    {
        let count = self.items.len();
        let mut list: Vec<&Payment> = Vec::new();
        let mut n: usize = 0;
        assert(values_of(list@) =~= Seq::<Payment>::empty());
        while n < count
            invariant
                n <= count,
                count == self.items.keys().len(),
                self.items.keys() == listed(self@),
                values_of(list@) == selected(self@, payment_of_order(order_id@), n as int),
            decreases count - n,
        {
            let value = self.items.value_at(n);
            let ghost seen = values_of(list@);
            if value.order_id.same(order_id) {
                list.push(value);
                assert(values_of(list@) =~= seen.push(*value));
            }
            n += 1;
        }
        list
    }

    /// All payments for an order, oldest first.
    pub fn list_for_order(&self, order_id: &OrderId) -> (list: Vec<&Payment>)
        ensures
            is_sorted_by(
                values_of(list@),
                all_selected(self@, payment_of_order(order_id@)),
                oldest_payments_first(all_selected(self@, payment_of_order(order_id@))),
            ),
    {
        let found = self.select_for_order(order_id);
        let ranks = oldest_payments_first_exec(&found);
        arrange(found, &ranks)
    }

    /// Those a listing is about, in key order.
    fn select_by_transaction(&self, transaction_id: &str) -> (list: Vec<&Payment>)
        ensures
            values_of(list@) == all_selected(self@, payment_of_transaction(transaction_id@)),
    {
        let count = self.items.len();
        let mut list: Vec<&Payment> = Vec::new();
        let mut n: usize = 0;
        assert(values_of(list@) =~= Seq::<Payment>::empty());
        while n < count
            invariant
                n <= count,
                count == self.items.keys().len(),
                self.items.keys() == listed(self@),
                values_of(list@) == selected(self@, payment_of_transaction(transaction_id@), n as int),
            decreases count - n,
        {
            let value = self.items.value_at(n);
            let ghost seen = values_of(list@);
            if has_transaction(value, transaction_id) {
                list.push(value);
                assert(values_of(list@) =~= seen.push(*value));
            }
            n += 1;
        }
        list
    }

    /// Find a payment by the gateway's transaction id. Used by webhooks.
    pub fn find_by_transaction(&self, transaction_id: &str) -> (found: Option<&Payment>)
        ensures
            match found {
                Some(value) => {
                    let all = all_selected(self@, payment_of_transaction(transaction_id@));
                    all.len() > 0 && *value == all[0]
                },
                None => all_selected(self@, payment_of_transaction(transaction_id@)).len() == 0,
            },
    {
        let found = self.select_by_transaction(transaction_id);
        if found.len() > 0 {
            assert(values_of(found@)[0] == *found@[0]);
            Some(found[0])
        } else {
            None
        }
    }

    /// Authorisations that lapse before `before`, so they can be captured or released.
    pub fn list_expiring(&self, before: Timestamp) -> (list: Vec<&Payment>)
        ensures
            values_of(list@) == all_selected(self@, payment_lapsing(before)),
    {
        let count = self.items.len();
        let mut list: Vec<&Payment> = Vec::new();
        let mut n: usize = 0;
        assert(values_of(list@) =~= Seq::<Payment>::empty());
        while n < count
            invariant
                n <= count,
                count == self.items.keys().len(),
                self.items.keys() == listed(self@),
                values_of(list@) == selected(self@, payment_lapsing(before), n as int),
            decreases count - n,
        {
            let value = self.items.value_at(n);
            let ghost seen = values_of(list@);
            if is_lapsing(value, before) {
                list.push(value);
                assert(values_of(list@) =~= seen.push(*value));
            }
            n += 1;
        }
        list
    }
}

/// Instruments of a customer.
pub open spec fn method_of_customer(customer: Seq<char>) -> spec_fn(PaymentMethodRef) -> bool {
    |method: PaymentMethodRef| method.customer_id@ == customer
}

/// A stored instrument once another one of its customer became the default.
pub open spec fn demoted(stored: PaymentMethodRef, method: PaymentMethodRef) -> PaymentMethodRef {
    if stored.customer_id@ == method.customer_id@ && stored.id@ != method.id@ {
        PaymentMethodRef { is_default: false, ..stored }
    } else {
        stored
    }
}

/// What a store holds once an instrument is saved: where that one is the default, no
/// other instrument of its customer is.
pub open spec fn with_method(
    items: Map<Seq<char>, PaymentMethodRef>,
    method: PaymentMethodRef,
) -> Map<Seq<char>, PaymentMethodRef> {
    let others = if method.is_default {
        items.map_values(|stored: PaymentMethodRef| demoted(stored, method))
    } else {
        items
    };
    others.insert(method.id@, method)
}

/// Whether every customer has at most one default instrument, and instruments are stored
/// under their identifiers.
pub open spec fn one_default_each(items: Map<Seq<char>, PaymentMethodRef>) -> bool {
    &&& forall|key: Seq<char>| #[trigger] items.contains_key(key) ==> items[key].id@ == key
    &&& forall|a: Seq<char>, b: Seq<char>| #[trigger]
        items.contains_key(a) && #[trigger] items.contains_key(b) && items[a].is_default
            && items[b].is_default && items[a].customer_id@ == items[b].customer_id@ ==> a == b
}

/// Saving keeps it that every customer has at most one default instrument, and where the
/// saved one is the default, it is that one.
pub proof fn law_one_default_per_customer(
    items: Map<Seq<char>, PaymentMethodRef>,
    method: PaymentMethodRef,
)
    requires
        one_default_each(items),
    ensures
        one_default_each(with_method(items, method)),
        with_method(items, method)[method.id@] == method,
{
    let after = with_method(items, method);
    assert forall|key: Seq<char>| #[trigger] after.contains_key(key) implies after[key].id@
        == key by {
        if key != method.id@ {
            assert(items.contains_key(key));
        }
    }
    assert forall|a: Seq<char>, b: Seq<char>| #[trigger]
        after.contains_key(a) && #[trigger] after.contains_key(b) && after[a].is_default
            && after[b].is_default && after[a].customer_id@ == after[b].customer_id@ implies a
        == b by {
        if a != method.id@ {
            assert(items.contains_key(a));
            assert(items[a].id@ == a);
        }
        if b != method.id@ {
            assert(items.contains_key(b));
            assert(items[b].id@ == b);
        }
    }
}

/// The first default instrument of a list.
pub open spec fn first_default(list: Seq<PaymentMethodRef>) -> Option<PaymentMethodRef>
    decreases list.len(),
{
    if list.len() == 0 {
        None
    } else if list[0].is_default {
        Some(list[0])
    } else {
        first_default(list.drop_first())
    }
}

/// The rank of an instrument: the default first, then the oldest.
pub open spec fn default_then_oldest(method: PaymentMethodRef) -> Rank {
    Rank {
        first: if method.is_default {
            0
        } else {
            1
        },
        second: method.created_at.seconds as i128,
        third: method.created_at.nanos as i128,
    }
}

/// The ranks of instruments, the default first, then the oldest.
pub open spec fn methods_ranked(list: Seq<PaymentMethodRef>) -> Seq<Rank> {
    list.map_values(|value: PaymentMethodRef| default_then_oldest(value))
}

fn methods_ranked_exec(list: &Vec<&PaymentMethodRef>) -> (ranks: Vec<Rank>)
    ensures
        ranks@ == methods_ranked(values_of(list@)),
{
    let ghost all = methods_ranked(values_of(list@));
    let mut ranks: Vec<Rank> = Vec::new();
    let mut n: usize = 0;
    while n < list.len()
        invariant
            n <= list@.len(),
            all == methods_ranked(values_of(list@)),
            ranks@ == all.take(n as int),
        decreases list@.len() - n,
    {
        let value = list[n];
        assert(values_of(list@)[n as int] == *value);
        ranks.push(Rank {
                first: if value.is_default {
                    0
                } else {
                    1
                },
                second: value.created_at.seconds as i128,
                third: value.created_at.nanos as i128,
            });
        n += 1;
        assert(ranks@ =~= all.take(n as int));
    }
    assert(ranks@ =~= all);
    ranks
}

/// In-memory store of vaulted instruments.
#[derive(Debug)]
pub struct InMemoryPaymentMethodRepository {
    items: OrderedMap<PaymentMethodRef>,
}

impl View for InMemoryPaymentMethodRepository {
    type V = Map<Seq<char>, PaymentMethodRef>;

    closed spec fn view(&self) -> Map<Seq<char>, PaymentMethodRef> {
        self.items@
    }
}

impl Default for InMemoryPaymentMethodRepository {
    fn default() -> (store: Self)
        ensures
            store@ == Map::<Seq<char>, PaymentMethodRef>::empty(),
    {
        Self::new()
    }
}

impl InMemoryPaymentMethodRepository {
    /// An empty store.
    pub fn new() -> (store: Self)
        ensures
            store@ == Map::<Seq<char>, PaymentMethodRef>::empty(),
    {
        InMemoryPaymentMethodRepository { items: OrderedMap::new() }
    }

    /// Number of stored entities.
    pub fn len(&self) -> (count: usize)
        ensures
            count == listed(self@).len(),
            is_listing(listed(self@), self@),
    {
        self.items.len()
    }

    /// Whether the store is empty.
    pub fn is_empty(&self) -> (empty: bool)
        ensures
            empty == (listed(self@).len() == 0),
    {
        self.items.len() == 0
    }

    /// Load by identifier.
    pub fn get(&self, id: &PaymentMethodId) -> (found: Option<&PaymentMethodRef>)
        ensures
            match found {
                Some(value) => self@.contains_key(id@) && *value == self@[id@],
                None => !self@.contains_key(id@),
            },
    {
        self.items.get(id.as_str())
    }

    /// Store an instrument. A customer has at most one default: saving a default makes the
    /// customer's other instruments ordinary ones.
    pub fn save(&mut self, method: PaymentMethodRef)
        ensures
            final(self)@ == with_method(old(self)@, method),
    {
        if method.is_default {
            let ghost start = self.items@;
            let ghost changed = start.map_values(
                |stored: PaymentMethodRef| demoted(stored, method),
            );
            let count = self.items.len();
            let ghost keys = listed(start);
            let mut n: usize = 0;
            while n < count
                invariant
                    n <= count,
                    count == keys.len(),
                    keys == listed(start),
                    is_listing(keys, start),
                    changed == start.map_values(
                        |stored: PaymentMethodRef| demoted(stored, method),
                    ),
                    self.items@.dom() == start.dom(),
                    forall|i: int|
                        0 <= i < n ==> self.items@[#[trigger] keys[i]] == changed[keys[i]],
                    forall|i: int|
                        n <= i < keys.len() ==> self.items@[#[trigger] keys[i]] == start[keys[i]],
                decreases count - n,
            {
                proof {
                    lemma_same_keys_same_listing(start, self.items@);
                    assert(keys.contains(keys[n as int]));
                    assert(start.contains_key(keys[n as int]));
                }
                let _count = self.items.len();
                let ghost before = self.items@;
                let ghost key = keys[n as int];
                let id = self.items.key_at(n).to_owned();
                let value = self.items.value_at(n);
                assert(before[key] == start[key]);
                if value.customer_id.same(&method.customer_id) && !value.id.same(&method.id) {
                    if let Some(mut stored) = self.items.remove(id.as_str()) {
                        stored.is_default = false;
                        self.items.insert(id, stored);
                    }
                    assert(self.items@ =~= before.insert(key, changed[key]));
                }
                assert(self.items@.dom() =~= start.dom());
                assert forall|i: int| 0 <= i < keys.len() implies self.items@[
                    #[trigger] keys[i]
                ] == if i <= n {
                    changed[keys[i]]
                } else {
                    start[keys[i]]
                } by {
                    if i != n {
                        assert(keys[i] != key) by {
                            crate::collections::lemma_ascending_distinct(keys, i, n as int);
                        }
                    }
                }
                n += 1;
            }
            assert forall|key: Seq<char>| start.contains_key(key) implies #[trigger] self.items@[key]
                == changed[key] by {
                let i = keys.index_of(key);
                assert(keys.contains(key));
                assert(keys[i] == key);
            }
            assert(self.items@ =~= changed);
        }
        self.items.insert(method.id.to_text(), method);
    }

    /// Forget an instrument.
    pub fn delete(&mut self, id: &PaymentMethodId)
        ensures
            final(self)@ == old(self)@.remove(id@),
    {
        self.items.remove(id.as_str());
    }

    /// Those a listing is about, in key order.
    fn select_for_customer(&self, customer_id: &CustomerId) -> (list: Vec<&PaymentMethodRef>)
        ensures
            values_of(list@) == all_selected(self@, method_of_customer(customer_id@)),
    {
        let count = self.items.len();
        let mut list: Vec<&PaymentMethodRef> = Vec::new();
        let mut n: usize = 0;
        assert(values_of(list@) =~= Seq::<PaymentMethodRef>::empty());
        while n < count
            invariant
                n <= count,
                count == self.items.keys().len(),
                self.items.keys() == listed(self@),
                values_of(list@) == selected(self@, method_of_customer(customer_id@), n as int),
            decreases count - n,
        {
            let value = self.items.value_at(n);
            let ghost seen = values_of(list@);
            if value.customer_id.same(customer_id) {
                list.push(value);
                assert(values_of(list@) =~= seen.push(*value));
            }
            n += 1;
        }
        list
    }

    /// A customer's instruments, the default first, then the oldest.
    pub fn list_for_customer(&self, customer_id: &CustomerId) -> (list: Vec<&PaymentMethodRef>)
        ensures
            is_sorted_by(
                values_of(list@),
                all_selected(self@, method_of_customer(customer_id@)),
                methods_ranked(all_selected(self@, method_of_customer(customer_id@))),
            ),
    {
        let found = self.select_for_customer(customer_id);
        let ranks = methods_ranked_exec(&found);
        arrange(found, &ranks)
    }

    /// The customer's default instrument, if they have one: the first default of their
    /// listing.
    pub fn default_for_customer(&self, customer_id: &CustomerId) -> (found: Option<
        &PaymentMethodRef,
    >)
        ensures
            exists|list: Seq<PaymentMethodRef>| #[trigger]
                is_sorted_by(
                    list,
                    all_selected(self@, method_of_customer(customer_id@)),
                    methods_ranked(all_selected(self@, method_of_customer(customer_id@))),
                ) && first_default(list) == match found {
                    Some(method) => Some(*method),
                    None => None,
                },
    {
        let list = self.list_for_customer(customer_id);
        let ghost all = values_of(list@);
        let mut n: usize = 0;
        assert(all.skip(0) =~= all);
        while n < list.len()
            invariant
                n <= list@.len(),
                all == values_of(list@),
                is_sorted_by(
                    all,
                    all_selected(self@, method_of_customer(customer_id@)),
                    methods_ranked(all_selected(self@, method_of_customer(customer_id@))),
                ),
                first_default(all) == first_default(all.skip(n as int)),
            decreases list@.len() - n,
        {
            assert(all.skip(n as int)[0] == *list@[n as int]);
            assert(all.skip(n as int).drop_first() =~= all.skip(n + 1));
            if list[n].is_default {
                return Some(list[n]);
            }
            n += 1;
        }
        None
    }
}

/// Disputes of an order.
pub open spec fn dispute_of_order(order: Seq<char>) -> spec_fn(Dispute) -> bool {
    |dispute: Dispute| dispute.order_id@ == order
}

/// Every dispute.
pub open spec fn any_dispute() -> spec_fn(Dispute) -> bool {
    |dispute: Dispute| true
}

/// In-memory store of disputes.
#[derive(Debug)]
pub struct InMemoryDisputeRepository {
    items: OrderedMap<Dispute>,
}

impl View for InMemoryDisputeRepository {
    type V = Map<Seq<char>, Dispute>;

    closed spec fn view(&self) -> Map<Seq<char>, Dispute> {
        self.items@
    }
}

impl Default for InMemoryDisputeRepository {
    fn default() -> (store: Self)
        ensures
            store@ == Map::<Seq<char>, Dispute>::empty(),
    {
        Self::new()
    }
}

impl InMemoryDisputeRepository {
    /// An empty store.
    pub fn new() -> (store: Self)
        ensures
            store@ == Map::<Seq<char>, Dispute>::empty(),
    {
        InMemoryDisputeRepository { items: OrderedMap::new() }
    }

    /// Number of stored entities.
    pub fn len(&self) -> (count: usize)
        ensures
            count == listed(self@).len(),
            is_listing(listed(self@), self@),
    {
        self.items.len()
    }

    /// Whether the store is empty.
    pub fn is_empty(&self) -> (empty: bool)
        ensures
            empty == (listed(self@).len() == 0),
    {
        self.items.len() == 0
    }

    /// Load by identifier.
    pub fn get(&self, id: &DisputeId) -> (found: Option<&Dispute>)
        ensures
            match found {
                Some(value) => self@.contains_key(id@) && *value == self@[id@],
                None => !self@.contains_key(id@),
            },
    {
        self.items.get(id.as_str())
    }

    /// The version that is stored under an identifier.
    pub open spec fn stored_version(self, id: Seq<char>) -> Option<u64> {
        if self@.contains_key(id) {
            Some(self@[id].version)
        } else {
            None
        }
    }

    /// Insert or update, enforcing the version check.
    pub fn save(&mut self, dispute: Dispute) -> (saved: Result<(), Error>)
        ensures
            match saved {
                Ok(_) => {
                    &&& stale(
                        "dispute"@,
                        dispute.id@,
                        old(self).stored_version(dispute.id@),
                        dispute.version,
                    ) is None
                    &&& final(self)@ == old(self)@.insert(dispute.id@, dispute)
                },
                Err(error) => {
                    &&& stale(
                        "dispute"@,
                        dispute.id@,
                        old(self).stored_version(dispute.id@),
                        dispute.version,
                    ) == Some(error@)
                    &&& final(self)@ == old(self)@
                },
            },
    {
        let stored = match self.items.get(dispute.id.as_str()) {
            Some(existing) => Some(existing.version),
            None => None,
        };
        match check_version(DisputeId::kind(), dispute.id.as_str(), stored, dispute.version) {
            Ok(_) => {},
            Err(error) => return Err(error),
        }
        self.items.insert(dispute.id.to_text(), dispute);
        Ok(())
    }

    /// Disputes raised against an order.
    pub fn list_for_order(&self, order_id: &OrderId) -> (list: Vec<&Dispute>)
        ensures
            values_of(list@) == all_selected(self@, dispute_of_order(order_id@)),
    {
        let count = self.items.len();
        let mut list: Vec<&Dispute> = Vec::new();
        let mut n: usize = 0;
        assert(values_of(list@) =~= Seq::<Dispute>::empty());
        while n < count
            invariant
                n <= count,
                count == self.items.keys().len(),
                self.items.keys() == listed(self@),
                values_of(list@) == selected(self@, dispute_of_order(order_id@), n as int),
            decreases count - n,
        {
            let value = self.items.value_at(n);
            let ghost seen = values_of(list@);
            if value.order_id.same(order_id) {
                list.push(value);
                assert(values_of(list@) =~= seen.push(*value));
            }
            n += 1;
        }
        list
    }

    /// Every dispute, for reporting.
    pub fn list_all(&self) -> (list: Vec<&Dispute>)
        ensures
            values_of(list@) == all_selected(self@, any_dispute()),
    {
        let count = self.items.len();
        let mut list: Vec<&Dispute> = Vec::new();
        let mut n: usize = 0;
        assert(values_of(list@) =~= Seq::<Dispute>::empty());
        while n < count
            invariant
                n <= count,
                count == self.items.keys().len(),
                self.items.keys() == listed(self@),
                values_of(list@) == selected(self@, any_dispute(), n as int),
            decreases count - n,
        {
            let value = self.items.value_at(n);
            let ghost seen = values_of(list@);
            if true {
                list.push(value);
                assert(values_of(list@) =~= seen.push(*value));
            }
            n += 1;
        }
        list
    }
}

/// Cards with a hash.
pub open spec fn card_with_hash(hash: Seq<char>) -> spec_fn(GiftCard) -> bool {
    |card: GiftCard| card.code_hash@ == hash
}

/// In-memory store of gift cards.
#[derive(Debug)]
pub struct InMemoryGiftCardRepository {
    items: OrderedMap<GiftCard>,
}

impl View for InMemoryGiftCardRepository {
    type V = Map<Seq<char>, GiftCard>;

    closed spec fn view(&self) -> Map<Seq<char>, GiftCard> {
        self.items@
    }
}

impl Default for InMemoryGiftCardRepository {
    fn default() -> (store: Self)
        ensures
            store@ == Map::<Seq<char>, GiftCard>::empty(),
    {
        Self::new()
    }
}

impl InMemoryGiftCardRepository {
    /// An empty store.
    pub fn new() -> (store: Self)
        ensures
            store@ == Map::<Seq<char>, GiftCard>::empty(),
    {
        InMemoryGiftCardRepository { items: OrderedMap::new() }
    }

    /// Number of stored entities.
    pub fn len(&self) -> (count: usize)
        ensures
            count == listed(self@).len(),
            is_listing(listed(self@), self@),
    {
        self.items.len()
    }

    /// Whether the store is empty.
    pub fn is_empty(&self) -> (empty: bool)
        ensures
            empty == (listed(self@).len() == 0),
    {
        self.items.len() == 0
    }

    /// Load by identifier.
    pub fn get(&self, id: &GiftCardId) -> (found: Option<&GiftCard>)
        ensures
            match found {
                Some(value) => self@.contains_key(id@) && *value == self@[id@],
                None => !self@.contains_key(id@),
            },
    {
        self.items.get(id.as_str())
    }

    /// The version that is stored under an identifier.
    pub open spec fn stored_version(self, id: Seq<char>) -> Option<u64> {
        if self@.contains_key(id) {
            Some(self@[id].version)
        } else {
            None
        }
    }

    /// Insert or update, enforcing the version check.
    pub fn save(&mut self, card: GiftCard) -> (saved: Result<(), Error>)
        ensures
            match saved {
                Ok(_) => {
                    &&& stale(
                        "gift card"@,
                        card.id@,
                        old(self).stored_version(card.id@),
                        card.version,
                    ) is None
                    &&& final(self)@ == old(self)@.insert(card.id@, card)
                },
                Err(error) => {
                    &&& stale(
                        "gift card"@,
                        card.id@,
                        old(self).stored_version(card.id@),
                        card.version,
                    ) == Some(error@)
                    &&& final(self)@ == old(self)@
                },
            },
    {
        let stored = match self.items.get(card.id.as_str()) {
            Some(existing) => Some(existing.version),
            None => None,
        };
        match check_version(GiftCardId::kind(), card.id.as_str(), stored, card.version) {
            Ok(_) => {},
            Err(error) => return Err(error),
        }
        self.items.insert(card.id.to_text(), card);
        Ok(())
    }

    /// Those a listing is about, in key order.
    fn select_by_hash(&self, hash: &str) -> (list: Vec<&GiftCard>)
        ensures
            values_of(list@) == all_selected(self@, card_with_hash(hash@)),
    {
        let count = self.items.len();
        let mut list: Vec<&GiftCard> = Vec::new();
        let mut n: usize = 0;
        assert(values_of(list@) =~= Seq::<GiftCard>::empty());
        while n < count
            invariant
                n <= count,
                count == self.items.keys().len(),
                self.items.keys() == listed(self@),
                values_of(list@) == selected(self@, card_with_hash(hash@), n as int),
            decreases count - n,
        {
            let value = self.items.value_at(n);
            let ghost seen = values_of(list@);
            if same_text(value.code_hash.as_str(), hash) {
                list.push(value);
                assert(values_of(list@) =~= seen.push(*value));
            }
            n += 1;
        }
        list
    }

    /// Resolve a code the shopper typed. The card is looked up by *hash*; the plaintext
    /// code is never stored.
    pub fn find_by_code(&self, code: &str) -> (found: Option<&GiftCard>)
        ensures
            match found {
                Some(value) => {
                    let all = all_selected(self@, card_with_hash(code_hash(code@)));
                    all.len() > 0 && *value == all[0]
                },
                None => all_selected(self@, card_with_hash(code_hash(code@))).len() == 0,
            },
    {
        let hash = hash_gift_card_code(code);
        let found = self.select_by_hash(hash.as_str());
        if found.len() > 0 {
            assert(values_of(found@)[0] == *found@[0]);
            Some(found[0])
        } else {
            None
        }
    }
}

/// The key of a customer's balance at a shop.
pub open spec fn credit_key_of(customer: Seq<char>, shop: Seq<char>, currency: Currency) -> Seq<char> {
    customer + "|"@ + shop + "|"@ + currency.letters()
}

fn credit_key(customer_id: &CustomerId, shop_id: &ShopId, currency: Currency) -> (key: String)
    ensures
        key@ == credit_key_of(customer_id@, shop_id@, currency),
{
    let mut key = join3(customer_id.as_str(), "|", shop_id.as_str());
    key.append("|");
    key.append(currency.code().as_str());
    key
}

/// Accounts of a customer.
pub open spec fn account_of_customer(customer: Seq<char>) -> spec_fn(ShopCreditAccount) -> bool {
    |account: ShopCreditAccount| account.customer_id@ == customer
}

/// In-memory store of shop credit balances.
#[derive(Debug)]
pub struct InMemoryShopCreditRepository {
    items: OrderedMap<ShopCreditAccount>,
}

impl View for InMemoryShopCreditRepository {
    type V = Map<Seq<char>, ShopCreditAccount>;

    closed spec fn view(&self) -> Map<Seq<char>, ShopCreditAccount> {
        self.items@
    }
}

impl Default for InMemoryShopCreditRepository {
    fn default() -> (store: Self)
        ensures
            store@ == Map::<Seq<char>, ShopCreditAccount>::empty(),
    {
        Self::new()
    }
}

impl InMemoryShopCreditRepository {
    /// An empty store.
    pub fn new() -> (store: Self)
        ensures
            store@ == Map::<Seq<char>, ShopCreditAccount>::empty(),
    {
        InMemoryShopCreditRepository { items: OrderedMap::new() }
    }

    /// Number of stored entities.
    pub fn len(&self) -> (count: usize)
        ensures
            count == listed(self@).len(),
            is_listing(listed(self@), self@),
    {
        self.items.len()
    }

    /// Whether the store is empty.
    pub fn is_empty(&self) -> (empty: bool)
        ensures
            empty == (listed(self@).len() == 0),
    {
        self.items.len() == 0
    }

    /// Load a customer's balance at a shop.
    pub fn get(&self, customer_id: &CustomerId, shop_id: &ShopId, currency: Currency) -> (
    found: Option<&ShopCreditAccount>)
        ensures
            ({
                let key = credit_key_of(customer_id@, shop_id@, currency);
                match found {
                    Some(value) => self@.contains_key(key) && *value == self@[key],
                    None => !self@.contains_key(key),
                }
            }),
    {
        let key = credit_key(customer_id, shop_id, currency);
        self.items.get(key.as_str())
    }

    /// The version that is stored under a key.
    pub open spec fn stored_version(self, key: Seq<char>) -> Option<u64> {
        if self@.contains_key(key) {
            Some(self@[key].version)
        } else {
            None
        }
    }

    /// Store a balance, enforcing the version check.
    pub fn save(&mut self, account: ShopCreditAccount) -> (saved: Result<(), Error>)
        ensures
            ({
                let key = credit_key_of(
                    account.customer_id@,
                    account.shop_id@,
                    account.currency,
                );
                let refused = stale(
                    "shop credit"@,
                    key,
                    old(self).stored_version(key),
                    account.version,
                );
                match saved {
                    Ok(_) => refused is None && final(self)@ == old(self)@.insert(key, account),
                    Err(error) => refused == Some(error@) && final(self)@ == old(self)@,
                }
            }),
    {
        let key = credit_key(&account.customer_id, &account.shop_id, account.currency);
        let stored = match self.items.get(key.as_str()) {
            Some(existing) => Some(existing.version),
            None => None,
        };
        match check_version("shop credit", key.as_str(), stored, account.version) {
            Ok(_) => {},
            Err(error) => return Err(error),
        }
        self.items.insert(key, account);
        Ok(())
    }

    /// Every shop where a customer has credit.
    pub fn list_for_customer(&self, customer_id: &CustomerId) -> (list: Vec<&ShopCreditAccount>)
        ensures
            values_of(list@) == all_selected(self@, account_of_customer(customer_id@)),
    {
        let count = self.items.len();
        let mut list: Vec<&ShopCreditAccount> = Vec::new();
        let mut n: usize = 0;
        assert(values_of(list@) =~= Seq::<ShopCreditAccount>::empty());
        while n < count
            invariant
                n <= count,
                count == self.items.keys().len(),
                self.items.keys() == listed(self@),
                values_of(list@) == selected(self@, account_of_customer(customer_id@), n as int),
            decreases count - n,
        {
            let value = self.items.value_at(n);
            let ghost seen = values_of(list@);
            if value.customer_id.same(customer_id) {
                list.push(value);
                assert(values_of(list@) =~= seen.push(*value));
            }
            n += 1;
        }
        list
    }
}

/// Whether a promotion has a code, ignoring case.
pub open spec fn answers_to(discount: Discount, code: Seq<char>) -> bool {
    match discount.code {
        Some(stored) => same_ignoring_case(stored@, code),
        None => false,
    }
}

fn has_code(discount: &Discount, code: &str) -> (found: bool)
    ensures
        found == answers_to(*discount, code@),
{
    match &discount.code {
        Some(stored) => equal_ignoring_case(stored.as_str(), code),
        None => false,
    }
}

/// Promotions with a code.
pub open spec fn discount_with_code(code: Seq<char>) -> spec_fn(Discount) -> bool {
    |discount: Discount| answers_to(discount, code)
}

/// Promotions that apply without a code.
pub open spec fn automatic_discount() -> spec_fn(Discount) -> bool {
    |discount: Discount| discount.code is None
}

/// A promotion that was used once more.
pub open spec fn used_once_more(discount: Discount) -> Discount {
    Discount {
        conditions: DiscountConditions {
            redemptions: if discount.conditions.redemptions < u64::MAX {
                (discount.conditions.redemptions + 1) as u64
            } else {
                u64::MAX
            },
            ..discount.conditions
        },
        ..discount
    }
}

/// In-memory store of promotions.
#[derive(Debug)]
pub struct InMemoryDiscountRepository {
    items: OrderedMap<Discount>,
}

impl View for InMemoryDiscountRepository {
    type V = Map<Seq<char>, Discount>;

    closed spec fn view(&self) -> Map<Seq<char>, Discount> {
        self.items@
    }
}

impl Default for InMemoryDiscountRepository {
    fn default() -> (store: Self)
        ensures
            store@ == Map::<Seq<char>, Discount>::empty(),
    {
        Self::new()
    }
}

impl InMemoryDiscountRepository {
    /// An empty store.
    pub fn new() -> (store: Self)
        ensures
            store@ == Map::<Seq<char>, Discount>::empty(),
    {
        InMemoryDiscountRepository { items: OrderedMap::new() }
    }

    /// Number of stored entities.
    pub fn len(&self) -> (count: usize)
        ensures
            count == listed(self@).len(),
            is_listing(listed(self@), self@),
    {
        self.items.len()
    }

    /// Whether the store is empty.
    pub fn is_empty(&self) -> (empty: bool)
        ensures
            empty == (listed(self@).len() == 0),
    {
        self.items.len() == 0
    }

    /// Store a promotion.
    pub fn save(&mut self, discount: Discount)
        ensures
            final(self)@ == old(self)@.insert(discount.id@, discount),
    {
        self.items.insert(discount.id.to_text(), discount);
    }

    /// Those a listing is about, in key order.
    fn select_by_code(&self, code: &str) -> (list: Vec<&Discount>)
        ensures
            values_of(list@) == all_selected(self@, discount_with_code(code@)),
    {
        let count = self.items.len();
        let mut list: Vec<&Discount> = Vec::new();
        let mut n: usize = 0;
        assert(values_of(list@) =~= Seq::<Discount>::empty());
        while n < count
            invariant
                n <= count,
                count == self.items.keys().len(),
                self.items.keys() == listed(self@),
                values_of(list@) == selected(self@, discount_with_code(code@), n as int),
            decreases count - n,
        {
            let value = self.items.value_at(n);
            let ghost seen = values_of(list@);
            if has_code(value, code) {
                list.push(value);
                assert(values_of(list@) =~= seen.push(*value));
            }
            n += 1;
        }
        list
    }

    /// Resolve a promotion code the shopper typed. Case-insensitive.
    pub fn find_by_code(&self, code: &str) -> (found: Option<&Discount>)
        ensures
            match found {
                Some(value) => {
                    let all = all_selected(self@, discount_with_code(code@));
                    all.len() > 0 && *value == all[0]
                },
                None => all_selected(self@, discount_with_code(code@)).len() == 0,
            },
    {
        let found = self.select_by_code(code);
        if found.len() > 0 {
            assert(values_of(found@)[0] == *found@[0]);
            Some(found[0])
        } else {
            None
        }
    }

    /// Promotions that apply without a code.
    pub fn list_automatic(&self) -> (list: Vec<&Discount>)
        ensures
            values_of(list@) == all_selected(self@, automatic_discount()),
    {
        let count = self.items.len();
        let mut list: Vec<&Discount> = Vec::new();
        let mut n: usize = 0;
        assert(values_of(list@) =~= Seq::<Discount>::empty());
        while n < count
            invariant
                n <= count,
                count == self.items.keys().len(),
                self.items.keys() == listed(self@),
                values_of(list@) == selected(self@, automatic_discount(), n as int),
            decreases count - n,
        {
            let value = self.items.value_at(n);
            let ghost seen = values_of(list@);
            if value.code.is_none() {
                list.push(value);
                assert(values_of(list@) =~= seen.push(*value));
            }
            n += 1;
        }
        list
    }

    /// Record that a promotion was used, for redemption caps.
    pub fn increment_redemptions(&mut self, id: &DiscountId) -> (done: Result<(), Error>)
        ensures
            match done {
                Ok(_) => old(self)@.contains_key(id@) && final(self)@ == old(self)@.insert(
                    id@,
                    used_once_more(old(self)@[id@]),
                ),
                Err(error) => {
                    &&& !old(self)@.contains_key(id@)
                    &&& error@ == (ErrorView::NotFound { kind: "discount"@, id: id@ })
                    &&& final(self)@ == old(self)@
                },
            },
    {
        let ghost before = self.items@;
        match self.items.remove(id.as_str()) {
            Some(stored) => {
                let mut discount = stored;
                discount.conditions.redemptions =
                discount.conditions.redemptions.saturating_add(1);
                self.items.insert(id.to_text(), discount);
                assert(self.items@ =~= before.insert(id@, used_once_more(before[id@])));
                Ok(())
            },
            None => {
                assert(self.items@ =~= before);
                Err(Error::not_found("discount", id.as_str()))
            },
        }
    }
}

/// What is known of an idempotent operation.
#[derive(Debug)]
pub struct IdempotencyEntry {
    /// A hash of the request body.
    pub fingerprint: String,
    /// What the operation returned, once it finished.
    pub response: Option<String>,
}

/// What is known of an idempotent operation, as text.
pub ghost struct EntryView {
    /// A hash of the request body.
    pub fingerprint: Seq<char>,
    /// What the operation returned, once it finished.
    pub response: Option<Seq<char>>,
}

/// What claiming a key gives.
pub ghost enum ClaimView {
    /// No previous attempt.
    Started,
    /// A previous attempt is still running.
    InFlight,
    /// A previous attempt finished with this response.
    Completed(Seq<char>),
    /// The key belongs to another request.
    Conflict,
}

/// What claiming a key for a request gives.
pub open spec fn claim(
    entries: Map<Seq<char>, EntryView>,
    key: Seq<char>,
    fingerprint: Seq<char>,
) -> ClaimView {
    if !entries.contains_key(key) {
        ClaimView::Started
    } else if entries[key].fingerprint != fingerprint {
        ClaimView::Conflict
    } else {
        match entries[key].response {
            Some(response) => ClaimView::Completed(response),
            None => ClaimView::InFlight,
        }
    }
}

/// Whether an answer to a claim says what claiming the key gives.
pub open spec fn tells(
    given: ClaimView,
    key: Seq<char>,
    claimed: Result<IdempotencyOutcome, Error>,
) -> bool {
    match given {
        ClaimView::Started => claimed == Ok::<IdempotencyOutcome, Error>(
            IdempotencyOutcome::Started,
        ),
        ClaimView::InFlight => claimed == Ok::<IdempotencyOutcome, Error>(
            IdempotencyOutcome::InFlight,
        ),
        ClaimView::Completed(response) => claimed matches Ok(
            IdempotencyOutcome::Completed(text),
        ) && text@ == response,
        ClaimView::Conflict => claimed matches Err(error) && error@ == (
        ErrorView::IdempotencyConflict { key }),
    }
}

/// What is stored once a key was claimed for a request.
pub open spec fn after_claim(
    entries: Map<Seq<char>, EntryView>,
    key: Seq<char>,
    fingerprint: Seq<char>,
) -> Map<Seq<char>, EntryView> {
    if entries.contains_key(key) {
        entries
    } else {
        entries.insert(key, EntryView { fingerprint, response: None })
    }
}

/// What is stored once the operation of a key finished.
pub open spec fn after_completion(
    entries: Map<Seq<char>, EntryView>,
    key: Seq<char>,
    response: Seq<char>,
) -> Map<Seq<char>, EntryView> {
    entries.insert(key, EntryView { response: Some(response), ..entries[key] })
}

/// In-memory idempotency store.
#[derive(Debug)]
pub struct InMemoryIdempotencyStore {
    entries: OrderedMap<IdempotencyEntry>,
}

impl View for InMemoryIdempotencyStore {
    type V = Map<Seq<char>, EntryView>;

    closed spec fn view(&self) -> Map<Seq<char>, EntryView> {
        self.entries@.map_values(
            |entry: IdempotencyEntry|
                EntryView {
                    fingerprint: entry.fingerprint@,
                    response: optional_text(entry.response),
                },
        )
    }
}

impl Default for InMemoryIdempotencyStore {
    fn default() -> (store: Self)
        ensures
            store@ == Map::<Seq<char>, EntryView>::empty(),
    {
        Self::new()
    }
}

impl InMemoryIdempotencyStore {
    /// An empty store.
    pub fn new() -> (store: Self)
        ensures
            store@ == Map::<Seq<char>, EntryView>::empty(),
    {
        let store = InMemoryIdempotencyStore { entries: OrderedMap::new() };
        assert(store@ =~= Map::<Seq<char>, EntryView>::empty());
        store
    }

    /// Claim a key.
    ///
    /// The `fingerprint` is a hash of the request body. Reusing a key with a
    /// different fingerprint is a client bug and fails loudly rather than
    /// replaying an unrelated response.
    pub fn begin(&mut self, key: &str, fingerprint: &str) -> (claimed: Result<
        IdempotencyOutcome,
        Error,
    >)
        ensures
            tells(claim(old(self)@, key@, fingerprint@), key@, claimed),
            final(self)@ == after_claim(old(self)@, key@, fingerprint@),
    {
        let ghost before = self@;
        if let Some(entry) = self.entries.get(key) {
            if !same_text(entry.fingerprint.as_str(), fingerprint) {
                return Err(Error::IdempotencyConflict { key: key.to_owned() });
            }
            return match &entry.response {
                Some(response) => Ok(IdempotencyOutcome::Completed(response.clone())),
                None => Ok(IdempotencyOutcome::InFlight),
            };
        }
        self.entries.insert(
            key.to_owned(),
            IdempotencyEntry { fingerprint: fingerprint.to_owned(), response: None },
        );
        assert(self@ =~= before.insert(
            key@,
            EntryView { fingerprint: fingerprint@, response: None },
        ));
        Ok(IdempotencyOutcome::Started)
    }

    /// Record the successful result for a key.
    pub fn complete(&mut self, key: &str, response: &str) -> (done: Result<(), Error>)
        ensures
            match done {
                Ok(_) => old(self)@.contains_key(key@) && final(self)@ == after_completion(
                    old(self)@,
                    key@,
                    response@,
                ),
                Err(error) => {
                    &&& !old(self)@.contains_key(key@)
                    &&& error@ == (ErrorView::NotFound { kind: "idempotency key"@, id: key@ })
                    &&& final(self)@ == old(self)@
                },
            },
    {
        let ghost before = self@;
        match self.entries.remove(key) {
            Some(stored) => {
                let entry = IdempotencyEntry {
                    fingerprint: stored.fingerprint,
                    response: Some(response.to_owned()),
                };
                self.entries.insert(key.to_owned(), entry);
                assert(self@ =~= before.insert(
                    key@,
                    EntryView { response: Some(response@), ..before[key@] },
                ));
                Ok(())
            },
            None => {
                assert(self@ =~= before);
                Err(Error::not_found("idempotency key", key))
            },
        }
    }

    /// Release a key after a failure so the operation can be retried.
    pub fn abort(&mut self, key: &str)
        ensures
            final(self)@ == old(self)@.remove(key@),
    {
        let ghost before = self@;
        self.entries.remove(key);
        assert(self@ =~= before.remove(key@));
    }
}

/// In-memory webhook deduplication store.
#[derive(Debug)]
pub struct InMemoryProcessedEventStore {
    seen: OrderedMap<()>,
}

impl View for InMemoryProcessedEventStore {
    type V = Set<Seq<char>>;

    closed spec fn view(&self) -> Set<Seq<char>> {
        self.seen@.dom()
    }
}

impl Default for InMemoryProcessedEventStore {
    fn default() -> (store: Self)
        ensures
            store@ == Set::<Seq<char>>::empty(),
    {
        Self::new()
    }
}

impl InMemoryProcessedEventStore {
    /// An empty store.
    pub fn new() -> (store: Self)
        ensures
            store@ == Set::<Seq<char>>::empty(),
    {
        let store = InMemoryProcessedEventStore { seen: OrderedMap::new() };
        assert(store@ =~= Set::<Seq<char>>::empty());
        store
    }

    /// Record an event id. Returns `true` if this is the first time it is seen.
    pub fn mark_processed(&mut self, key: &str) -> (first: bool)
        ensures
            first == !old(self)@.contains(key@),
            final(self)@ == old(self)@.insert(key@),
    {
        let ghost before = self@;
        let first = !self.seen.contains_key(key);
        self.seen.insert(key.to_owned(), ());
        assert(self@ =~= before.insert(key@));
        first
    }

    /// Forget an event id so a failed delivery can be retried.
    pub fn unmark(&mut self, key: &str)
        ensures
            final(self)@ == old(self)@.remove(key@),
    {
        let ghost before = self@;
        self.seen.remove(key);
        assert(self@ =~= before.remove(key@));
    }
}

/// A write is accepted exactly when nothing is stored or the write is newer; after it, the
/// same version is refused, so of two writers that read the same version only the first
/// succeeds.
pub proof fn law_second_writer_is_refused(
    kind: Seq<char>,
    id: Seq<char>,
    stored: Option<u64>,
    incoming: u64,
)
    ensures
        stale(kind, id, stored, incoming) is None <==> (stored is None || stored->0 < incoming),
        stale(kind, id, Some(incoming), incoming) is Some,
{
}

/// An operation runs once under its key: a claimed key is not handed out again while the
/// operation runs, replays the response once it finished, and is refused to any other
/// request; released after a failure, it can be claimed anew.
pub proof fn law_keys_run_their_operation_once(
    entries: Map<Seq<char>, EntryView>,
    key: Seq<char>,
    fingerprint: Seq<char>,
    response: Seq<char>,
    other: Seq<char>,
)
    requires
        claim(entries, key, fingerprint) is Started,
        other != fingerprint,
    ensures
        ({
            let claimed = after_claim(entries, key, fingerprint);
            let finished = after_completion(claimed, key, response);
            &&& claim(claimed, key, fingerprint) is InFlight
            &&& claim(claimed, key, other) is Conflict
            &&& claim(finished, key, fingerprint) == ClaimView::Completed(response)
            &&& claim(finished, key, other) is Conflict
            &&& claim(claimed.remove(key), key, fingerprint) is Started
        }),
{
}

/// What was read and then changed can be saved over what was read, as long as versions last.
pub proof fn law_changes_can_be_saved(before: Cart, after: Cart)
    requires
        before.touched(after),
        before.version < u64::MAX,
    ensures
        stale("cart"@, before.id@, Some(before.version), after.version) is None,
{
}

/// A search gives the values that it asks for, all of them and no others.
pub proof fn law_searches_give_what_they_ask_for<V>(
    map: Map<Seq<char>, V>,
    keep: spec_fn(V) -> bool,
    n: int,
)
    requires
        0 <= n <= listed(map).len(),
    ensures
        forall|k: int|
            0 <= k < n && keep(map[#[trigger] listed(map)[k]]) ==> selected(
                map,
                keep,
                n,
            ).contains(map[listed(map)[k]]),
        forall|i: int|
            0 <= i < selected(map, keep, n).len() ==> keep(#[trigger] selected(map, keep, n)[i]),
        forall|i: int|
            0 <= i < selected(map, keep, n).len() ==> exists|k: int|
                0 <= k < n && map[#[trigger] listed(map)[k]] == #[trigger] selected(
                    map,
                    keep,
                    n,
                )[i],
    decreases n,
{
    if n > 0 {
        law_searches_give_what_they_ask_for(map, keep, n - 1);
        let before = selected(map, keep, n - 1);
        let found = selected(map, keep, n);
        let value = map[listed(map)[n - 1]];
        assert forall|k: int| 0 <= k < n && keep(
            map[#[trigger] listed(map)[k]],
        ) implies found.contains(map[listed(map)[k]]) by {
            if k < n - 1 {
                let i = choose|i: int|
                    0 <= i < before.len() && before[i] == map[listed(map)[k]];
                assert(found[i] == before[i]);
            } else {
                assert(found[found.len() - 1] == value);
            }
        }
        assert forall|i: int| 0 <= i < found.len() implies exists|k: int|
            0 <= k < n && map[#[trigger] listed(map)[k]] == #[trigger] found[i] by {
            if i < before.len() {
                let k = choose|k: int|
                    0 <= k < n - 1 && map[#[trigger] listed(map)[k]] == before[i];
                assert(map[listed(map)[k]] == found[i]);
            } else {
                assert(map[listed(map)[n - 1]] == found[i]);
            }
        }
    }
}

/// What each search asks for.
pub proof fn law_searches_ask_for_what_they_name(
    text: Seq<char>,
    cart: Cart,
    order: Order,
    payment: Payment,
    method: PaymentMethodRef,
    dispute: Dispute,
    card: GiftCard,
)
    ensures
        cart_of_customer(text)(cart) <==> cart.customer_id is Some
            && cart.customer_id->Some_0@ == text,
        order_of_customer(text)(order) <==> order.customer_id is Some
            && order.customer_id->Some_0@ == text,
        order_of_shop(text)(order) <==> exists|i: int|
            0 <= i < order.quote.shop_totals@.len() && (
            #[trigger] order.quote.shop_totals@[i]).shop_id@ == text,
        any_order()(order),
        payment_of_order(text)(payment) <==> payment.order_id@ == text,
        payment_of_transaction(text)(payment) <==> payment.transaction_id is Some
            && payment.transaction_id->Some_0@ == text,
        method_of_customer(text)(method) <==> method.customer_id@ == text,
        dispute_of_order(text)(dispute) <==> dispute.order_id@ == text,
        any_dispute()(dispute),
        card_with_hash(text)(card) <==> card.code_hash@ == text,
{
}

/// A hold is about to lapse exactly when it is open and its expiry is not after the instant.
pub proof fn law_lapsing_holds_are_found(payment: Payment, until: Timestamp)
    requires
        until.normal(),
        payment.authorization_expires_at is Some
            ==> payment.authorization_expires_at->Some_0.normal(),
    ensures
        payment_lapsing(until)(payment) <==> (payment.status is Authorized
            || payment.status is PartiallyCaptured) && payment.authorization_expires_at is Some
            && payment.authorization_expires_at->Some_0.instant() <= until.instant(),
{
}

/// Orders are listed newest first, payments oldest first, and instruments with the default
/// first and then oldest first.
pub proof fn law_lists_go_by_time(
    a: Timestamp,
    b: Timestamp,
    first: PaymentMethodRef,
    second: PaymentMethodRef,
)
    ensures
        newest_first(a).before(newest_first(b)) <==> b.before(a),
        oldest_first(a).before(oldest_first(b)) <==> a.before(b),
        first.is_default && !second.is_default ==> default_then_oldest(first).before(
            default_then_oldest(second),
        ),
        first.is_default == second.is_default ==> (default_then_oldest(first).before(
            default_then_oldest(second),
        ) <==> first.created_at.before(second.created_at)),
{
}

/// Saving an instrument changes no other: only where it becomes the default are the other
/// instruments of its customer no longer it.
pub proof fn law_saving_leaves_other_instruments(
    items: Map<Seq<char>, PaymentMethodRef>,
    method: PaymentMethodRef,
    key: Seq<char>,
)
    requires
        items.contains_key(key),
        key != method.id@,
        items[key].id@ == key,
    ensures
        with_method(items, method).contains_key(key),
        !method.is_default || items[key].customer_id@ != method.customer_id@ ==> with_method(
            items,
            method,
        )[key] == items[key],
        method.is_default && items[key].customer_id@ == method.customer_id@ ==> with_method(
            items,
            method,
        )[key] == (PaymentMethodRef { is_default: false, ..items[key] }),
{
}

/// The default of a list is the first instrument that is one.
pub proof fn law_the_default_is_found(list: Seq<PaymentMethodRef>, at: int)
    requires
        0 <= at <= list.len(),
        at < list.len() ==> list[at].is_default,
        forall|i: int| 0 <= i < at ==> !(#[trigger] list[i]).is_default,
    ensures
        at < list.len() ==> first_default(list) == Some(list[at]),
        at == list.len() ==> first_default(list) is None,
    decreases list.len(),
{
    if at > 0 {
        assert(!list[0].is_default);
        let rest = list.drop_first();
        assert forall|i: int| 0 <= i < at - 1 implies !(#[trigger] rest[i]).is_default by {
            assert(rest[i] == list[i + 1]);
        }
        law_the_default_is_found(rest, at - 1);
    }
}

/// Using a promotion counts it once more and changes nothing else; a promotion is found by
/// its code, whatever the case of the letters, or applies by itself where it has none.
pub proof fn law_promotions_count_their_uses(discount: Discount, code: Seq<char>)
    ensures
        discount.conditions.redemptions < u64::MAX ==> used_once_more(
            discount,
        ).conditions.redemptions == discount.conditions.redemptions + 1,
        used_once_more(discount).id == discount.id,
        used_once_more(discount).code == discount.code,
        used_once_more(discount).conditions.max_redemptions
            == discount.conditions.max_redemptions,
        discount_with_code(code)(discount) <==> discount.code is Some && same_ignoring_case(
            discount.code->Some_0@,
            code,
        ),
        automatic_discount()(discount) <==> discount.code is None,
{
}

} // verus!
