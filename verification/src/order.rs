//! Orders: the immutable record of what was bought, at what price, paid how.
//!
//! An order is created from a [`Quote`] and never re-prices itself. If a price
//! changes after the order exists, that is a new order or an amendment — a
//! captured payment must always be explainable by the numbers stored here.

use vstd::prelude::*;

use crate::address::Address;
use crate::amounts::copy_amounts;
use crate::cart::{next_version, Cart, FulfillmentGroup, FulfillmentStatus};
use crate::collections::copy_texts;
use crate::error::{outcome, Error, ErrorView};
use crate::folds::lemma_error_stays;
use crate::ids::{
    is_generated, CartId, CustomerId, FulfillmentGroupId, LineItemId, OrderId, PaymentId, ShopId,
};
use crate::money::{total, Currency, Money};
use crate::payment::refund::{RefundRecord, RefundedLine, TenderRefund};
use crate::payment::split::SettlementPlan;
use crate::payment::tender::{planned_views, PlannedTender, TenderPlan};
use crate::pricing::{charge_totals, line_totals, PricedLine, PricedShipping, Quote};
use crate::sums::{lemma_sum_add, lemma_sum_take, lemma_sum_update, sum};
use crate::text::join3;
use crate::time::Timestamp;
use crate::Metadata;

verus! {

/// Lifecycle of an order.
#[derive(Debug, Clone, Copy, PartialEq, Eq, Hash, Structural)]
pub enum OrderStatus {
    /// Created, no payment attempted yet.
    Draft,
    /// Payment is in flight (3-D Secure, redirect, async method).
    PendingPayment,
    /// Funds are held but not captured.
    Authorized,
    /// Part of the order has been captured, typically after partial delivery.
    PartiallyCaptured,
    /// Fully paid.
    Paid,
    /// Fully paid and fully delivered.
    Fulfilled,
    /// Some money has been returned.
    PartiallyRefunded,
    /// Everything has been returned.
    Refunded,
    /// Cancelled before capture.
    Canceled,
    /// Payment failed and the order was abandoned.
    Failed,
}

impl OrderStatus {
    /// The name of the status.
    pub open spec fn name(self) -> Seq<char> {
        match self {
            OrderStatus::Draft => "Draft"@,
            OrderStatus::PendingPayment => "PendingPayment"@,
            OrderStatus::Authorized => "Authorized"@,
            OrderStatus::PartiallyCaptured => "PartiallyCaptured"@,
            OrderStatus::Paid => "Paid"@,
            OrderStatus::Fulfilled => "Fulfilled"@,
            OrderStatus::PartiallyRefunded => "PartiallyRefunded"@,
            OrderStatus::Refunded => "Refunded"@,
            OrderStatus::Canceled => "Canceled"@,
            OrderStatus::Failed => "Failed"@,
        }
    }

    /// Whether the order may go from this status to `next`.
    pub open spec fn may_become(self, next: OrderStatus) -> bool {
        match self {
            OrderStatus::Draft => next is PendingPayment || next is Authorized || next is Paid
                || next is Canceled || next is Failed,
            OrderStatus::PendingPayment => next is Authorized || next is Paid || next is Failed
                || next is Canceled,
            OrderStatus::Authorized => next is PartiallyCaptured || next is Paid
                || next is Canceled || next is Failed,
            OrderStatus::PartiallyCaptured => next is PartiallyCaptured || next is Paid
                || next is PartiallyRefunded || next is Canceled,
            OrderStatus::Paid => next is Fulfilled || next is PartiallyRefunded
                || next is Refunded,
            OrderStatus::Fulfilled => next is PartiallyRefunded || next is Refunded,
            OrderStatus::PartiallyRefunded => next is PartiallyRefunded || next is Refunded
                || next is Fulfilled,
            OrderStatus::Refunded => false,
            OrderStatus::Canceled => false,
            OrderStatus::Failed => false,
        }
    }

    /// Whether the order is finished and will not change again.
    pub open spec fn final_state(self) -> bool {
        self is Refunded || self is Canceled || self is Failed
    }

    /// The name of the status.
    pub fn as_str(self) -> (name: &'static str)
        ensures
            name@ == self.name(),
    {
        match self {
            OrderStatus::Draft => "Draft",
            OrderStatus::PendingPayment => "PendingPayment",
            OrderStatus::Authorized => "Authorized",
            OrderStatus::PartiallyCaptured => "PartiallyCaptured",
            OrderStatus::Paid => "Paid",
            OrderStatus::Fulfilled => "Fulfilled",
            OrderStatus::PartiallyRefunded => "PartiallyRefunded",
            OrderStatus::Refunded => "Refunded",
            OrderStatus::Canceled => "Canceled",
            OrderStatus::Failed => "Failed",
        }
    }

    /// Whether the order can still transition to `next`.
    pub fn can_transition_to(self, next: OrderStatus) -> (allowed: bool)
        ensures
            allowed == self.may_become(next),
    {
        matches!(
            (self, next),
            (OrderStatus::Draft, OrderStatus::PendingPayment)
                | (OrderStatus::Draft, OrderStatus::Authorized)
                | (OrderStatus::Draft, OrderStatus::Paid)
                | (OrderStatus::Draft, OrderStatus::Canceled)
                | (OrderStatus::Draft, OrderStatus::Failed)
                | (OrderStatus::PendingPayment, OrderStatus::Authorized)
                | (OrderStatus::PendingPayment, OrderStatus::Paid)
                | (OrderStatus::PendingPayment, OrderStatus::Failed)
                | (OrderStatus::PendingPayment, OrderStatus::Canceled)
                | (OrderStatus::Authorized, OrderStatus::PartiallyCaptured)
                | (OrderStatus::Authorized, OrderStatus::Paid)
                | (OrderStatus::Authorized, OrderStatus::Canceled)
                | (OrderStatus::Authorized, OrderStatus::Failed)
                | (OrderStatus::PartiallyCaptured, OrderStatus::PartiallyCaptured)
                | (OrderStatus::PartiallyCaptured, OrderStatus::Paid)
                | (OrderStatus::PartiallyCaptured, OrderStatus::PartiallyRefunded)
                | (OrderStatus::PartiallyCaptured, OrderStatus::Canceled)
                | (OrderStatus::Paid, OrderStatus::Fulfilled)
                | (OrderStatus::Paid, OrderStatus::PartiallyRefunded)
                | (OrderStatus::Paid, OrderStatus::Refunded)
                | (OrderStatus::Fulfilled, OrderStatus::PartiallyRefunded)
                | (OrderStatus::Fulfilled, OrderStatus::Refunded)
                | (OrderStatus::PartiallyRefunded, OrderStatus::PartiallyRefunded)
                | (OrderStatus::PartiallyRefunded, OrderStatus::Refunded)
                | (OrderStatus::PartiallyRefunded, OrderStatus::Fulfilled)
        )
    }

    /// Whether the order is finished and will not change again.
    pub fn is_terminal(self) -> (terminal: bool)
        ensures
            terminal == self.final_state(),
    {
        matches!(self, OrderStatus::Refunded | OrderStatus::Canceled | OrderStatus::Failed)
    }

    /// Whether money has been collected.
    pub fn has_funds(self) -> (funds: bool)
        ensures
            funds == (self is PartiallyCaptured || self is Paid || self is Fulfilled
                || self is PartiallyRefunded),
    {
        matches!(
            self,
            OrderStatus::PartiallyCaptured | OrderStatus::Paid | OrderStatus::Fulfilled
                | OrderStatus::PartiallyRefunded
        )
    }
}

/// A finished order never changes, every other order can still change, and goods are never
/// marked as fulfilled before they are paid for.
pub proof fn law_order_lifecycle(from: OrderStatus, to: OrderStatus)
    ensures
        from.final_state() ==> !from.may_become(to),
        !from.final_state() ==> exists|next: OrderStatus| from.may_become(next),
        from.may_become(to) && to is Fulfilled ==> from is Paid || from is PartiallyRefunded,
        from.may_become(to) ==> !(to is Draft),
{
    if !from.final_state() {
        assert(from.may_become(OrderStatus::Paid) || from.may_become(OrderStatus::Refunded));
    }
}

/// A placed order.
#[derive(Debug, Clone, PartialEq)]
pub struct Order {
    /// Identifier.
    pub id: OrderId,
    /// Cart the order was created from.
    pub cart_id: Option<CartId>,
    /// Buyer.
    pub customer_id: Option<CustomerId>,
    /// Currency of every amount.
    pub currency: Currency,
    /// Lifecycle state.
    pub status: OrderStatus,
    /// The frozen pricing result.
    pub quote: Quote,
    /// Who gets paid what.
    pub settlement: SettlementPlan,
    /// Instruments used and their amounts.
    pub tenders: Vec<PlannedTender>,
    /// Shipments.
    pub fulfillment_groups: Vec<FulfillmentGroup>,
    /// Payment attempts belonging to this order.
    pub payments: Vec<PaymentId>,
    /// Refunds issued against this order.
    pub refunds: Vec<RefundRecord>,
    /// Amount captured from the shopper so far.
    pub amount_captured: Money,
    /// Amount returned to the shopper so far.
    pub amount_refunded: Money,
    /// Destination address.
    pub shipping_address: Option<Address>,
    /// Billing address.
    pub billing_address: Option<Address>,
    /// Free-form data.
    pub metadata: Metadata,
    /// Creation time.
    pub created_at: Timestamp,
    /// Last update.
    pub updated_at: Timestamp,
    /// Optimistic concurrency token.
    pub version: u64,
}

/// Whether two shipments are the same.
pub open spec fn same_group(a: FulfillmentGroup, b: FulfillmentGroup) -> bool {
    a == (FulfillmentGroup { items: a.items, ..b }) && a.items@ == b.items@
}

/// Units of a line in a list of refunded lines.
pub open spec fn line_units(lines: Seq<RefundedLine>, line: Seq<char>) -> nat
    decreases lines.len(),
{
    if lines.len() == 0 {
        0
    } else {
        line_units(lines.drop_last(), line) + if lines.last().line_id@ == line {
            lines.last().quantity as nat
        } else {
            0nat
        }
    }
}

/// Units of a line that a list of refunds has already returned.
pub open spec fn refunded_units(refunds: Seq<RefundRecord>, line: Seq<char>) -> nat
    decreases refunds.len(),
{
    if refunds.len() == 0 {
        0
    } else {
        refunded_units(refunds.drop_last(), line) + line_units(
            refunds.last().plan.lines@,
            line,
        )
    }
}

/// A count, as far as 64 bits can hold it.
pub open spec fn saturated(count: nat) -> u64 {
    if count <= u64::MAX {
        count as u64
    } else {
        u64::MAX
    }
}

/// Count the units of a line in a list of refunded lines.
pub fn count_units(lines: &Vec<RefundedLine>, line: &LineItemId, from: u64) -> (count: u64)
    ensures
        forall|before: nat|
            from == #[trigger] saturated(before) ==> count == saturated(
                before + line_units(lines@, line@),
            ),
{
    let mut count: u64 = from;
    let mut n: usize = 0;
    assert(lines@.take(0) =~= Seq::<RefundedLine>::empty());
    while n < lines.len()
        invariant
            n <= lines@.len(),
            forall|before: nat|
                from == #[trigger] saturated(before) ==> count == saturated(
                    before + line_units(lines@.take(n as int), line@),
                ),
        decreases lines@.len() - n,
    {
        assert(lines@.take(n + 1).drop_last() =~= lines@.take(n as int));
        if lines[n].line_id.same(line) {
            count = count.saturating_add(lines[n].quantity as u64);
        }
        n += 1;
    }
    assert(lines@.take(n as int) =~= lines@);
    count
}

/// What the refunded tenders of one record gave back of a tender to a shop, added to a sum.
pub open spec fn given_back(
    tenders: Seq<TenderRefund>,
    index: int,
    shop: Seq<char>,
    from: Money,
    n: int,
) -> Result<Money, ErrorView>
    decreases n,
{
    if n <= 0 {
        Ok(from)
    } else {
        match given_back(tenders, index, shop, from, n - 1) {
            Err(error) => Err(error),
            Ok(before) => {
                let tender = tenders[n - 1];
                if tender.tender_index == index && tender.shop_allocation@.contains_key(shop) {
                    before.plus(tender.shop_allocation@[shop])
                } else {
                    Ok(before)
                }
            },
        }
    }
}

/// What the first `n` refunds gave back of a tender to a shop.
pub open spec fn returned_to(
    refunds: Seq<RefundRecord>,
    index: int,
    shop: Seq<char>,
    currency: Currency,
    n: int,
) -> Result<Money, ErrorView>
    decreases n,
{
    if n <= 0 {
        Ok(Money { minor: 0, currency })
    } else {
        match returned_to(refunds, index, shop, currency, n - 1) {
            Err(error) => Err(error),
            Ok(before) => given_back(
                refunds[n - 1].plan.tenders@,
                index,
                shop,
                before,
                refunds[n - 1].plan.tenders@.len() as int,
            ),
        }
    }
}

/// Whether an optional group is a given one.
pub open spec fn in_group(group: Option<FulfillmentGroupId>, wanted: Seq<char>) -> bool {
    match group {
        Some(id) => id@ == wanted,
        None => false,
    }
}

/// Whether an optional group is a given one.
pub fn is_in_group(group: &Option<FulfillmentGroupId>, wanted: &FulfillmentGroupId) -> (
inside: bool)
    ensures
        inside == in_group(*group, wanted@),
{
    match group {
        Some(id) => id.same(wanted),
        None => false,
    }
}

/// What the shopper pays for the first `n` lines as far as they are in a shipment.
pub open spec fn lines_in_group(
    lines: Seq<PricedLine>,
    group: Seq<char>,
    currency: Currency,
    n: int,
) -> Result<Money, ErrorView>
    decreases n,
{
    if n <= 0 {
        Ok(Money { minor: 0, currency })
    } else {
        match lines_in_group(lines, group, currency, n - 1) {
            Err(error) => Err(error),
            Ok(before) => if in_group(lines[n - 1].fulfillment_group_id, group) {
                before.plus(lines[n - 1].customer_total)
            } else {
                Ok(before)
            },
        }
    }
}

/// What the shopper pays for the first `n` shipping charges of a shipment, added to a sum.
pub open spec fn charges_in_group(
    shipping: Seq<PricedShipping>,
    group: Seq<char>,
    from: Money,
    n: int,
) -> Result<Money, ErrorView>
    decreases n,
{
    if n <= 0 {
        Ok(from)
    } else {
        match charges_in_group(shipping, group, from, n - 1) {
            Err(error) => Err(error),
            Ok(before) => if shipping[n - 1].group_id@ == group {
                before.plus(shipping[n - 1].customer_total)
            } else {
                Ok(before)
            },
        }
    }
}

/// The amounts of the tenders that draw on stored value.
pub open spec fn stored_amounts(tenders: Seq<PlannedTender>) -> Seq<Money>
    decreases tenders.len(),
{
    if tenders.len() == 0 {
        Seq::empty()
    } else {
        let before = stored_amounts(tenders.drop_last());
        if tenders.last().kind.stored_value() {
            before.push(tenders.last().amount)
        } else {
            before
        }
    }
}

/// The position of a shipment in a list, or the length when it is not there.
pub open spec fn group_index(groups: Seq<FulfillmentGroup>, group: Seq<char>) -> int
    decreases groups.len(),
{
    if groups.len() == 0 || groups[0].id@ == group {
        0
    } else {
        1 + group_index(groups.drop_first(), group)
    }
}

proof fn lemma_group_index(groups: Seq<FulfillmentGroup>, group: Seq<char>, at: int)
    requires
        0 <= at <= groups.len(),
        at < groups.len() ==> groups[at].id@ == group,
        forall|i: int| 0 <= i < at ==> (#[trigger] groups[i]).id@ != group,
    ensures
        group_index(groups, group) == at,
    decreases groups.len(),
{
    if at > 0 {
        assert(groups[0].id@ != group);
        let rest = groups.drop_first();
        assert forall|i: int| 0 <= i < at - 1 implies (#[trigger] rest[i]).id@ != group by {
            assert(rest[i] == groups[i + 1]);
        }
        lemma_group_index(rest, group, at - 1);
    }
}

fn copy_tenders(tenders: &Vec<PlannedTender>) -> (copy: Vec<PlannedTender>)
    ensures
        planned_views(copy@) == planned_views(tenders@),
{
    let ghost views = planned_views(tenders@);
    let mut copy: Vec<PlannedTender> = Vec::new();
    let mut i: usize = 0;
    while i < tenders.len()
        invariant
            i <= tenders@.len(),
            views == planned_views(tenders@),
            copy@.len() == i,
            forall|j: int| 0 <= j < i ==> (#[trigger] copy@[j])@ == views[j],
        decreases tenders@.len() - i,
    {
        let tender = &tenders[i];
        assert(views[i as int] == tender@);
        copy.push(
            PlannedTender {
                kind: tender.kind.clone(),
                amount: tender.amount,
                shop_allocation: copy_amounts(&tender.shop_allocation),
            },
        );
        i += 1;
    }
    assert(planned_views(copy@) =~= views);
    copy
}

fn copy_group(group: &FulfillmentGroup) -> (copy: FulfillmentGroup)
    ensures
        same_group(copy, *group),
{
    let mut items: Vec<LineItemId> = Vec::new();
    let mut i: usize = 0;
    while i < group.items.len()
        invariant
            i <= group.items@.len(),
            items@ == group.items@.take(i as int),
        decreases group.items@.len() - i,
    {
        items.push(group.items[i].clone());
        i += 1;
        assert(items@ =~= group.items@.take(i as int));
    }
    assert(items@ =~= group.items@);
    FulfillmentGroup {
        id: group.id.clone(),
        shop_id: group.shop_id.clone(),
        method: group.method.clone(),
        origin: group.origin.clone(),
        scheduled_for: group.scheduled_for,
        destination: group.destination.clone(),
        shipping_price: group.shipping_price,
        shipping_tax_code: group.shipping_tax_code.clone(),
        items,
        status: group.status,
    }
}

fn copy_groups(groups: &Vec<FulfillmentGroup>) -> (copy: Vec<FulfillmentGroup>)
    ensures
        copy@.len() == groups@.len(),
        forall|i: int| 0 <= i < groups@.len() ==> same_group(#[trigger] copy@[i], groups@[i]),
{
    let mut copy: Vec<FulfillmentGroup> = Vec::new();
    let mut i: usize = 0;
    while i < groups.len()
        invariant
            i <= groups@.len(),
            copy@.len() == i,
            forall|j: int| 0 <= j < i ==> same_group(#[trigger] copy@[j], groups@[j]),
        decreases groups@.len() - i,
    {
        copy.push(copy_group(&groups[i]));
        i += 1;
    }
    copy
}

impl Order {
    /// Why an order may not be made of a cart, a quote and tenders, when it may not.
    pub open spec fn refused(cart: Cart, quote: Quote, tenders: TenderPlan) -> Option<ErrorView> {
        if quote.currency != cart.currency {
            Some(
                ErrorView::CurrencyMismatch {
                    expected: cart.currency,
                    actual: quote.currency,
                },
            )
        } else if tenders.total_due != quote.totals.total {
            Some(
                ErrorView::Validation(
                    "tender plan covers "@ + tenders.total_due.text()
                        + " but the order total is "@ + quote.totals.total.text(),
                ),
            )
        } else {
            None
        }
    }

    /// Create a draft order from a priced cart, a settlement plan and tenders.
    pub fn from_quote(
        cart: &Cart,
        quote: Quote,
        settlement: SettlementPlan,
        tenders: &TenderPlan,
    ) -> (order: Result<Self, Error>)
        ensures
            match order {
                Ok(made) => {
                    &&& Self::refused(*cart, quote, *tenders) is None
                    &&& is_generated(made.id@, "ord"@)
                    &&& made.cart_id == Some(cart.id)
                    &&& made.customer_id == cart.customer_id
                    &&& made.currency == cart.currency
                    &&& made.status == OrderStatus::Draft
                    &&& made.quote == quote
                    &&& made.settlement == settlement
                    &&& planned_views(made.tenders@) == planned_views(tenders.tenders@)
                    &&& made.fulfillment_groups@.len() == cart.fulfillment_groups@.len()
                    &&& forall|i: int|
                        0 <= i < cart.fulfillment_groups@.len() ==> same_group(
                            #[trigger] made.fulfillment_groups@[i],
                            cart.fulfillment_groups@[i],
                        )
                    &&& made.payments@.len() == 0
                    &&& made.refunds@.len() == 0
                    &&& made.amount_captured == (Money { minor: 0, currency: cart.currency })
                    &&& made.amount_refunded == (Money { minor: 0, currency: cart.currency })
                    &&& made.shipping_address == cart.shipping_address
                    &&& made.billing_address == cart.billing_address
                    &&& made.metadata@ == cart.metadata@
                    &&& made.created_at == made.updated_at
                    &&& made.version == 0
                },
                Err(error) => Self::refused(*cart, quote, *tenders) == Some(error@),
            },
    {
        if quote.currency != cart.currency {
            return Err(
                Error::CurrencyMismatch { expected: cart.currency, actual: quote.currency },
            );
        }
        if tenders.total_due != quote.totals.total {
            let mut message = join3(
                "tender plan covers ",
                tenders.total_due.to_text().as_str(),
                " but the order total is ",
            );
            message.append(quote.totals.total.to_text().as_str());
            return Err(Error::validation(message.as_str()));
        }
        let now = Timestamp::now();
        let zero = Money::zero(quote.currency);
        Ok(
            Order {
                id: OrderId::new(),
                cart_id: Some(cart.id.clone()),
                customer_id: cart.customer_id.clone(),
                currency: cart.currency,
                status: OrderStatus::Draft,
                quote,
                settlement,
                tenders: copy_tenders(&tenders.tenders),
                fulfillment_groups: copy_groups(&cart.fulfillment_groups),
                payments: Vec::new(),
                refunds: Vec::new(),
                amount_captured: zero,
                amount_refunded: zero,
                shipping_address: cart.shipping_address.clone(),
                billing_address: cart.billing_address.clone(),
                metadata: copy_texts(&cart.metadata),
                created_at: now,
                updated_at: now,
                version: 0,
            },
        )
    }

    /// The order after a change that recorded itself.
    pub open spec fn touched(self, after: Order) -> bool {
        after == (Order {
            updated_at: after.updated_at,
            version: next_version(self.version),
            ..self
        })
    }

    /// Total the shopper owes.
    pub fn total(&self) -> (amount: Money)
        ensures
            amount == self.quote.totals.total,
    {
        self.quote.totals.total
    }

    /// What moving to another status returns and leaves.
    pub open spec fn moved(
        self,
        next: OrderStatus,
        after: Order,
        done: Result<(), Error>,
    ) -> bool {
        if self.status == next {
            done is Ok && after == self
        } else if !self.status.may_become(next) {
            outcome(done) == Err::<(), ErrorView>(
                ErrorView::InvalidTransition {
                    kind: "order"@,
                    id: self.id@,
                    from: self.status.name(),
                    to: next.name(),
                },
            ) && after == self
        } else {
            done is Ok && (Order { status: next, ..self }).touched(after)
        }
    }

    /// Move to a new status, rejecting illegal transitions.
    pub fn transition_to(&mut self, next: OrderStatus) -> (done: Result<(), Error>)
        ensures
            old(self).moved(next, *final(self), done),
    {
        if self.status == next {
            return Ok(());
        }
        if !self.status.can_transition_to(next) {
            return Err(
                Error::invalid_transition(
                    "order",
                    self.id.as_str(),
                    self.status.as_str(),
                    next.as_str(),
                ),
            );
        }
        self.status = next;
        self.touch();
        Ok(())
    }

    /// Whether a payment attempt is registered.
    pub open spec fn has_payment(self, payment: Seq<char>) -> bool {
        exists|i: int| 0 <= i < self.payments@.len() && (#[trigger] self.payments@[i])@ == payment
    }

    /// Register a payment attempt.
    pub fn attach_payment(&mut self, payment_id: PaymentId)
        ensures
            old(self).has_payment(payment_id@) ==> *final(self) == *old(self),
            !old(self).has_payment(payment_id@) ==> {
                &&& (Order { payments: final(self).payments, ..*old(self) }).touched(*final(self))
                &&& final(self).payments@ == old(self).payments@.push(payment_id)
            },
    {
        let mut i: usize = 0;
        while i < self.payments.len()
            invariant
                *self == *old(self),
                i <= self.payments@.len(),
                forall|j: int| 0 <= j < i ==> (#[trigger] self.payments@[j])@ != payment_id@,
            decreases self.payments@.len() - i,
        {
            if self.payments[i].same(&payment_id) {
                return ;
            }
            i += 1;
        }
        self.payments.push(payment_id);
        self.touch();
    }

    /// What recording captured funds returns and leaves.
    pub open spec fn capture_recorded(
        self,
        amount: Money,
        after: Order,
        done: Result<(), Error>,
    ) -> bool {
        let due = self.quote.totals.total;
        let sum = self.amount_captured.plus(amount);
        if amount.currency != self.currency {
            outcome(done) == Err::<(), ErrorView>(
                ErrorView::CurrencyMismatch { expected: self.currency, actual: amount.currency },
            ) && after == self
        } else if amount.minor <= 0 {
            outcome(done) == Err::<(), ErrorView>(
                ErrorView::Validation("captured amount must be positive"@),
            ) && after == self
        } else if sum is Err {
            outcome(done) == Err::<(), ErrorView>(sum->Err_0) && after == self
        } else if sum->Ok_0.more_than(due) {
            outcome(done) == Err::<(), ErrorView>(
                ErrorView::Validation(
                    "capturing "@ + amount.text() + " would take "@ + sum->Ok_0.text()
                        + ", more than the order total "@ + due.text(),
                ),
            ) && after == self
        } else {
            let next = if sum->Ok_0 == due {
                OrderStatus::Paid
            } else {
                OrderStatus::PartiallyCaptured
            };
            done is Ok && (Order {
                amount_captured: sum->Ok_0,
                status: if self.status.may_become(next) {
                    next
                } else {
                    self.status
                },
                ..self
            }).touched(after)
        }
    }

    /// Record captured funds and advance the status accordingly.
    pub fn record_capture(&mut self, amount: Money) -> (done: Result<(), Error>)
        ensures
            old(self).capture_recorded(amount, *final(self), done),
            old(self).sound() ==> final(self).sound(),
    {
        match self.currency_check(amount) {
            Ok(_) => {},
            Err(error) => return Err(error),
        }
        if !amount.is_positive() {
            return Err(Error::validation("captured amount must be positive"));
        }
        let sum = match self.amount_captured.try_add(amount) {
            Ok(sum) => sum,
            Err(error) => return Err(error),
        };
        if sum.exceeds(self.total()) {
            let mut message = join3("capturing ", amount.to_text().as_str(), " would take ");
            message.append(sum.to_text().as_str());
            message.append(", more than the order total ");
            message.append(self.total().to_text().as_str());
            return Err(Error::validation(message.as_str()));
        }
        self.amount_captured = sum;
        let next = if sum == self.total() {
            OrderStatus::Paid
        } else {
            OrderStatus::PartiallyCaptured
        };
        if self.status.can_transition_to(next) {
            self.status = next;
        }
        self.touch();
        Ok(())
    }

    /// What could still be returned to the shopper.
    pub open spec fn refundable(self) -> Result<Money, ErrorView> {
        self.amount_captured.minus(self.amount_refunded)
    }

    /// Amount that could still be returned to the shopper.
    pub fn refundable_amount(&self) -> (amount: Result<Money, Error>)
        ensures
            outcome(amount) == self.refundable(),
    {
        self.amount_captured.try_sub(self.amount_refunded)
    }

    /// What undoing a capture returns and leaves.
    pub open spec fn capture_reversed(
        self,
        amount: Money,
        after: Order,
        done: Result<(), Error>,
    ) -> bool {
        let rest = self.amount_captured.minus(amount);
        if amount.currency != self.currency {
            outcome(done) == Err::<(), ErrorView>(
                ErrorView::CurrencyMismatch { expected: self.currency, actual: amount.currency },
            ) && after == self
        } else if amount.more_than(self.amount_captured) {
            outcome(done) == Err::<(), ErrorView>(
                ErrorView::Validation(
                    "cannot reverse "@ + amount.text() + ": only "@
                        + self.amount_captured.text() + " was captured"@,
                ),
            ) && after == self
        } else if rest is Err {
            outcome(done) == Err::<(), ErrorView>(rest->Err_0) && after == self
        } else {
            done is Ok && (Order { amount_captured: rest->Ok_0, ..self }).touched(after)
        }
    }

    /// Undo a recorded capture.
    ///
    /// Used when reversible funding — gift cards, shop credit — is handed back
    /// on cancellation. Gateway captures are never undone this way; they are
    /// refunded.
    pub fn reverse_capture(&mut self, amount: Money) -> (done: Result<(), Error>)
        ensures
            old(self).capture_reversed(amount, *final(self), done),
    {
        match self.currency_check(amount) {
            Ok(_) => {},
            Err(error) => return Err(error),
        }
        if amount.exceeds(self.amount_captured) {
            let mut message = join3("cannot reverse ", amount.to_text().as_str(), ": only ");
            message.append(self.amount_captured.to_text().as_str());
            message.append(" was captured");
            return Err(Error::validation(message.as_str()));
        }
        self.amount_captured =
        match self.amount_captured.try_sub(amount) {
            Ok(rest) => rest,
            Err(error) => return Err(error),
        };
        self.touch();
        Ok(())
    }

    /// Total funded by gift cards and shop credit rather than by a gateway.
    ///
    /// This part of an order is reversible in our own ledgers, which is why it
    /// does not prevent cancellation the way a captured card charge does.
    pub fn stored_value_total(&self) -> (amount: Result<Money, Error>)
        ensures
            outcome(amount) == total(stored_amounts(self.tenders@), self.currency),
    {
        let mut amounts: Vec<Money> = Vec::new();
        let mut n: usize = 0;
        assert(self.tenders@.take(0) =~= Seq::<PlannedTender>::empty());
        while n < self.tenders.len()
            invariant
                n <= self.tenders@.len(),
                amounts@ == stored_amounts(self.tenders@.take(n as int)),
            decreases self.tenders@.len() - n,
        {
            assert(self.tenders@.take(n + 1).drop_last() =~= self.tenders@.take(n as int));
            if self.tenders[n].kind.is_stored_value() {
                amounts.push(self.tenders[n].amount);
            }
            n += 1;
        }
        assert(self.tenders@.take(n as int) =~= self.tenders@);
        Money::sum(amounts.as_slice(), self.currency)
    }

    /// What recording a refund returns and leaves.
    pub open spec fn refund_recorded(
        self,
        record: RefundRecord,
        after: Order,
        done: Result<(), Error>,
    ) -> bool {
        let amount = record.plan.total;
        let left = self.refundable();
        let sum = self.amount_refunded.plus(amount);
        if amount.currency != self.currency {
            outcome(done) == Err::<(), ErrorView>(
                ErrorView::CurrencyMismatch { expected: self.currency, actual: amount.currency },
            ) && after == self
        } else if left is Err {
            outcome(done) == Err::<(), ErrorView>(left->Err_0) && after == self
        } else if amount.more_than(left->Ok_0) {
            outcome(done) == Err::<(), ErrorView>(
                ErrorView::Validation(
                    "cannot refund "@ + amount.text() + ": only "@ + left->Ok_0.text()
                        + " remains refundable"@,
                ),
            ) && after == self
        } else if sum is Err {
            outcome(done) == Err::<(), ErrorView>(sum->Err_0) && after == self
        } else {
            let next = if sum->Ok_0 == self.amount_captured && self.amount_captured.minor > 0 {
                OrderStatus::Refunded
            } else {
                OrderStatus::PartiallyRefunded
            };
            &&& done is Ok
            &&& (Order {
                amount_refunded: sum->Ok_0,
                refunds: after.refunds,
                status: if self.status.may_become(next) {
                    next
                } else {
                    self.status
                },
                ..self
            }).touched(after)
            &&& after.refunds@ == self.refunds@.push(record)
        }
    }

    /// Record a refund and advance the status.
    pub fn record_refund(&mut self, record: RefundRecord) -> (done: Result<(), Error>)
        ensures
            old(self).refund_recorded(record, *final(self), done),
            old(self).sound() && record.plan.total.minor >= 0 ==> final(self).sound(),
    {
        let amount = record.plan.total;
        match self.currency_check(amount) {
            Ok(_) => {},
            Err(error) => return Err(error),
        }
        let left = match self.refundable_amount() {
            Ok(left) => left,
            Err(error) => return Err(error),
        };
        if amount.exceeds(left) {
            let mut message = join3("cannot refund ", amount.to_text().as_str(), ": only ");
            message.append(left.to_text().as_str());
            message.append(" remains refundable");
            return Err(Error::validation(message.as_str()));
        }
        self.amount_refunded =
        match self.amount_refunded.try_add(amount) {
            Ok(sum) => sum,
            Err(error) => return Err(error),
        };
        self.refunds.push(record);
        let next = if self.amount_refunded == self.amount_captured
            && self.amount_captured.is_positive() {
            OrderStatus::Refunded
        } else {
            OrderStatus::PartiallyRefunded
        };
        if self.status.can_transition_to(next) {
            self.status = next;
        }
        self.touch();
        Ok(())
    }

    /// Whether the amounts of an order agree: one currency, no more captured than is due,
    /// no more refunded than was captured.
    pub open spec fn sound(self) -> bool {
        &&& self.quote.totals.total.currency == self.currency
        &&& self.amount_captured.currency == self.currency
        &&& self.amount_refunded.currency == self.currency
        &&& 0 <= self.amount_refunded.minor <= self.amount_captured.minor
            <= self.quote.totals.total.minor
    }

    /// How much of `tender` has already been refunded for `shop`.
    pub fn refunded_from_tender(&self, tender_index: usize, shop: &ShopId) -> (amount: Result<
        Money,
        Error,
    >)
        ensures
            outcome(amount) == returned_to(
                self.refunds@,
                tender_index as int,
                shop@,
                self.currency,
                self.refunds@.len() as int,
            ),
    {
        let ghost refunds = self.refunds@;
        let ghost index = tender_index as int;
        let mut sum = Money::zero(self.currency);
        let mut n: usize = 0;
        while n < self.refunds.len()
            invariant
                refunds == self.refunds@,
                index == tender_index,
                n <= refunds.len(),
                returned_to(refunds, index, shop@, self.currency, n as int) == Ok::<
                    Money,
                    ErrorView,
                >(sum),
            decreases refunds.len() - n,
        {
            let tenders = &self.refunds[n].plan.tenders;
            let ghost from = sum;
            let mut k: usize = 0;
            while k < tenders.len()
                invariant
                    refunds == self.refunds@,
                    index == tender_index,
                    n < refunds.len(),
                    *tenders == refunds[n as int].plan.tenders,
                    returned_to(refunds, index, shop@, self.currency, n as int) == Ok::<
                        Money,
                        ErrorView,
                    >(from),
                    k <= tenders@.len(),
                    given_back(tenders@, index, shop@, from, k as int) == Ok::<Money, ErrorView>(
                        sum,
                    ),
                decreases tenders@.len() - k,
            {
                let tender = &tenders[k];
                if tender.tender_index == tender_index {
                    if let Some(amount) = tender.shop_allocation.get(shop.as_str()) {
                        sum = match sum.try_add(*amount) {
                            Ok(sum) => sum,
                            Err(error) => {
                                proof {
                                    lemma_error_stays(
                                        |k: int| given_back(tenders@, index, shop@, from, k),
                                        k + 1,
                                        tenders@.len() as int,
                                    );
                                    lemma_error_stays(
                                        |k: int| returned_to(refunds, index, shop@, self.currency, k),
                                        n + 1,
                                        refunds.len() as int,
                                    );
                                }
                                return Err(error);
                            },
                        };
                    }
                }
                k += 1;
            }
            n += 1;
        }
        Ok(sum)
    }

    /// Count the units of a line that have already been refunded, as far as 64 bits can
    /// hold them.
    pub fn refunded_so_far(&self, line_id: &LineItemId) -> (count: u64)
        ensures
            count == saturated(refunded_units(self.refunds@, line_id@)),
    {
        let mut count: u64 = 0;
        let mut n: usize = 0;
        assert(self.refunds@.take(0) =~= Seq::<RefundRecord>::empty());
        while n < self.refunds.len()
            invariant
                n <= self.refunds@.len(),
                count == saturated(refunded_units(self.refunds@.take(n as int), line_id@)),
            decreases self.refunds@.len() - n,
        {
            assert(self.refunds@.take(n + 1).drop_last() =~= self.refunds@.take(n as int));
            count = count_units(&self.refunds[n].plan.lines, line_id, count);
            n += 1;
        }
        assert(self.refunds@.take(n as int) =~= self.refunds@);
        count
    }

    /// Net quantity of a line that has already been refunded.
    pub fn refunded_quantity(&self, line_id: &LineItemId) -> (quantity: u32)
        requires
            refunded_units(self.refunds@, line_id@) <= u32::MAX,
        ensures
            quantity == refunded_units(self.refunds@, line_id@),
    {
        self.refunded_so_far(line_id) as u32
    }

    /// What changing the status of a shipment returns and leaves.
    pub open spec fn shipment_moved(
        self,
        group_id: FulfillmentGroupId,
        next: FulfillmentStatus,
        after: Order,
        done: Result<(), Error>,
    ) -> bool {
        let groups = self.fulfillment_groups@;
        let at = group_index(groups, group_id@);
        if at == groups.len() {
            outcome(done) == Err::<(), ErrorView>(
                ErrorView::NotFound { kind: "fulfillment group"@, id: group_id@ },
            ) && after == self
        } else if groups[at].status == next {
            done is Ok && after == self
        } else if !groups[at].status.may_become(next) {
            outcome(done) == Err::<(), ErrorView>(
                ErrorView::InvalidTransition {
                    kind: "fulfillment group"@,
                    id: group_id@,
                    from: groups[at].status.name(),
                    to: next.name(),
                },
            ) && after == self
        } else {
            &&& done is Ok
            &&& (Order { fulfillment_groups: after.fulfillment_groups, ..self }).touched(after)
            &&& after.fulfillment_groups@ == groups.update(
                at,
                FulfillmentGroup { status: next, ..groups[at] },
            )
        }
    }

    /// Update a shipment's status, enforcing the fulfilment state machine.
    pub fn set_fulfillment_status(
        &mut self,
        group_id: &FulfillmentGroupId,
        next: FulfillmentStatus,
    ) -> (done: Result<(), Error>)
        ensures
            old(self).shipment_moved(*group_id, next, *final(self), done),
    {
        let mut at: usize = 0;
        while at < self.fulfillment_groups.len() && !self.fulfillment_groups[at].id.same(group_id)
            invariant
                *self == *old(self),
                at <= self.fulfillment_groups@.len(),
                forall|i: int|
                    0 <= i < at ==> (#[trigger] self.fulfillment_groups@[i]).id@ != group_id@,
            ensures
                at < self.fulfillment_groups@.len() ==> self.fulfillment_groups@[at as int].id@
                    == group_id@,
            decreases self.fulfillment_groups@.len() - at,
        {
            at += 1;
        }
        proof {
            lemma_group_index(self.fulfillment_groups@, group_id@, at as int);
        }
        if at == self.fulfillment_groups.len() {
            return Err(Error::not_found(FulfillmentGroupId::kind(), group_id.as_str()));
        }
        let status = self.fulfillment_groups[at].status;
        if status == next {
            return Ok(());
        }
        if !status.can_transition_to(next) {
            return Err(
                Error::invalid_transition(
                    "fulfillment group",
                    group_id.as_str(),
                    status.as_str(),
                    next.as_str(),
                ),
            );
        }
        self.fulfillment_groups[at].status = next;
        self.touch();
        Ok(())
    }

    /// The shopper-paid amount attributable to one shipment: its lines and its shipping
    /// charges.
    pub open spec fn group_amount(self, group: Seq<char>) -> Result<Money, ErrorView> {
        match lines_in_group(
            self.quote.lines@,
            group,
            self.currency,
            self.quote.lines@.len() as int,
        ) {
            Err(error) => Err(error),
            Ok(lines) => charges_in_group(
                self.quote.shipping@,
                group,
                lines,
                self.quote.shipping@.len() as int,
            ),
        }
    }

    /// The shopper-paid amount attributable to one shipment.
    ///
    /// This is what you capture when a delivery completes and the merchant
    /// only takes money for goods that actually arrived.
    pub fn amount_for_fulfillment_group(&self, group_id: &FulfillmentGroupId) -> (amount: Result<
        Money,
        Error,
    >)
        ensures
            outcome(amount) == self.group_amount(group_id@),
    {
        let ghost lines = self.quote.lines@;
        let ghost shipping = self.quote.shipping@;
        let mut sum = Money::zero(self.currency);
        let mut n: usize = 0;
        while n < self.quote.lines.len()
            invariant
                lines == self.quote.lines@,
                n <= lines.len(),
                lines_in_group(lines, group_id@, self.currency, n as int) == Ok::<
                    Money,
                    ErrorView,
                >(sum),
            decreases lines.len() - n,
        {
            let line = &self.quote.lines[n];
            if is_in_group(&line.fulfillment_group_id, group_id) {
                sum = match sum.try_add(line.customer_total) {
                    Ok(sum) => sum,
                    Err(error) => {
                        proof {
                            lemma_error_stays(
                                |k: int| lines_in_group(lines, group_id@, self.currency, k),
                                n + 1,
                                lines.len() as int,
                            );
                        }
                        return Err(error);
                    },
                };
            }
            n += 1;
        }
        let ghost from = sum;
        let mut k: usize = 0;
        while k < self.quote.shipping.len()
            invariant
                shipping == self.quote.shipping@,
                lines == self.quote.lines@,
                lines_in_group(lines, group_id@, self.currency, lines.len() as int) == Ok::<
                    Money,
                    ErrorView,
                >(from),
                k <= shipping.len(),
                charges_in_group(shipping, group_id@, from, k as int) == Ok::<Money, ErrorView>(
                    sum,
                ),
            decreases shipping.len() - k,
        {
            let charge = &self.quote.shipping[k];
            if charge.group_id.same(group_id) {
                sum = match sum.try_add(charge.customer_total) {
                    Ok(sum) => sum,
                    Err(error) => {
                        proof {
                            lemma_error_stays(
                                |k: int| charges_in_group(shipping, group_id@, from, k),
                                k + 1,
                                shipping.len() as int,
                            );
                        }
                        return Err(error);
                    },
                };
            }
            k += 1;
        }
        Ok(sum)
    }

    /// Whether a shipment has reached a delivered or terminal state.
    pub open spec fn arrived(status: FulfillmentStatus) -> bool {
        status is Delivered || status is Returned || status is Canceled
    }

    /// Whether there are shipments and all of them have arrived.
    pub open spec fn all_arrived(self) -> bool {
        self.fulfillment_groups@.len() > 0 && forall|i: int|
            0 <= i < self.fulfillment_groups@.len() ==> Order::arrived(
                (#[trigger] self.fulfillment_groups@[i]).status,
            )
    }

    /// Whether every shipment has reached a delivered/terminal state.
    pub fn is_fully_fulfilled(&self) -> (fulfilled: bool)
        ensures
            fulfilled == self.all_arrived(),
    {
        let mut i: usize = 0;
        while i < self.fulfillment_groups.len()
            invariant
                i <= self.fulfillment_groups@.len(),
                forall|j: int|
                    0 <= j < i ==> Order::arrived((#[trigger] self.fulfillment_groups@[j]).status),
            decreases self.fulfillment_groups@.len() - i,
        {
            let status = self.fulfillment_groups[i].status;
            if !(status == FulfillmentStatus::Delivered || status.is_terminal()) {
                assert(!Order::arrived(self.fulfillment_groups@[i as int].status));
                return false;
            }
            i += 1;
        }
        self.fulfillment_groups.len() > 0
    }

    fn currency_check(&self, amount: Money) -> (same: Result<(), Error>)
        ensures
            outcome(same) == if amount.currency == self.currency {
                Ok::<(), ErrorView>(())
            } else {
                Err(
                    ErrorView::CurrencyMismatch {
                        expected: self.currency,
                        actual: amount.currency,
                    },
                )
            },
    {
        if amount.currency() == self.currency {
            Ok(())
        } else {
            Err(Error::CurrencyMismatch { expected: self.currency, actual: amount.currency() })
        }
    }

    fn touch(&mut self)
        ensures
            old(self).touched(*final(self)),
    {
        self.updated_at = Timestamp::now();
        self.version = self.version.saturating_add(1);
    }
}

/// Reversing a capture undoes it: the amounts are what they were.
pub proof fn law_reversal_undoes_a_capture(
    order: Order,
    amount: Money,
    captured: Order,
    first: Result<(), Error>,
    reversed: Order,
    second: Result<(), Error>,
)
    requires
        order.sound(),
        order.capture_recorded(amount, captured, first),
        first is Ok,
        captured.capture_reversed(amount, reversed, second),
    ensures
        second is Ok,
        reversed.amount_captured == order.amount_captured,
        reversed.amount_refunded == order.amount_refunded,
{
}

/// An order never re-prices itself: whatever is recorded on it, what was bought, at what
/// price and how it is funded stay as they were when it was placed.
pub proof fn law_orders_never_reprice(
    order: Order,
    next: OrderStatus,
    amount: Money,
    record: RefundRecord,
    group: FulfillmentGroupId,
    status: FulfillmentStatus,
    after: Order,
    done: Result<(), Error>,
)
    requires
        ({
            ||| order.moved(next, after, done)
            ||| order.capture_recorded(amount, after, done)
            ||| order.capture_reversed(amount, after, done)
            ||| order.refund_recorded(record, after, done)
            ||| order.shipment_moved(group, status, after, done)
        }),
    ensures
        after.id == order.id,
        after.currency == order.currency,
        after.quote == order.quote,
        after.settlement == order.settlement,
        after.tenders == order.tenders,
        done is Err ==> after == order,
{
}

/// What the shopper pays for the first `n` lines as far as they are in a shipment, in
/// minor units.
spec fn line_part(lines: Seq<PricedLine>, group: Seq<char>, n: int) -> int
    decreases n,
{
    if n <= 0 {
        0
    } else {
        line_part(lines, group, n - 1) + if in_group(lines[n - 1].fulfillment_group_id, group) {
            lines[n - 1].customer_total.minor as int
        } else {
            0
        }
    }
}

/// What the shopper pays for the first `n` charges of a shipment, in minor units.
spec fn charge_part(shipping: Seq<PricedShipping>, group: Seq<char>, n: int) -> int
    decreases n,
{
    if n <= 0 {
        0
    } else {
        charge_part(shipping, group, n - 1) + if shipping[n - 1].group_id@ == group {
            shipping[n - 1].customer_total.minor as int
        } else {
            0
        }
    }
}

proof fn lemma_line_part(lines: Seq<PricedLine>, group: Seq<char>, currency: Currency, n: int)
    requires
        lines_in_group(lines, group, currency, n) is Ok,
        0 <= n,
    ensures
        lines_in_group(lines, group, currency, n)->Ok_0.minor == line_part(lines, group, n),
    decreases n,
{
    if n > 0 {
        lemma_line_part(lines, group, currency, n - 1);
    }
}

proof fn lemma_charge_part(shipping: Seq<PricedShipping>, group: Seq<char>, from: Money, n: int)
    requires
        charges_in_group(shipping, group, from, n) is Ok,
        0 <= n,
    ensures
        charges_in_group(shipping, group, from, n)->Ok_0.minor == from.minor + charge_part(
            shipping,
            group,
            n,
        ),
    decreases n,
{
    if n > 0 {
        lemma_charge_part(shipping, group, from, n - 1);
    }
}

/// Whether no shipment is listed twice.
pub open spec fn distinct_groups(groups: Seq<Seq<char>>) -> bool {
    forall|i: int, j: int|
        0 <= i < j < groups.len() ==> (#[trigger] groups[i]) != (#[trigger] groups[j])
}

proof fn lemma_lines_shared(lines: Seq<PricedLine>, groups: Seq<Seq<char>>, n: int)
    requires
        distinct_groups(groups),
        0 <= n <= lines.len(),
        forall|i: int|
            0 <= i < lines.len() ==> is_grouped((#[trigger] lines[i]).fulfillment_group_id, groups),
    ensures
        sum(groups.map_values(|group: Seq<char>| line_part(lines, group, n))) == sum(
            line_totals(lines).take(n),
        ),
    decreases n,
{
    let parts = groups.map_values(|group: Seq<char>| line_part(lines, group, n));
    if n == 0 {
        assert(line_totals(lines).take(0) =~= Seq::<int>::empty());
        lemma_no_parts(parts);
    } else {
        lemma_lines_shared(lines, groups, n - 1);
        let before = groups.map_values(|group: Seq<char>| line_part(lines, group, n - 1));
        let id = lines[n - 1].fulfillment_group_id;
        assert(is_grouped(id, groups));
        let k = choose|k: int| 0 <= k < groups.len() && in_group(id, #[trigger] groups[k]);
        let paid = lines[n - 1].customer_total.minor as int;
        assert forall|j: int| 0 <= j < groups.len() && j != k implies !in_group(
            id,
            #[trigger] groups[j],
        ) by {
            assert(groups[j] != groups[k]);
        }
        assert(parts =~= before.update(k, before[k] + paid));
        lemma_sum_update(before, k, before[k] + paid);
        lemma_sum_take(line_totals(lines), n - 1);
    }
}

proof fn lemma_charges_shared(shipping: Seq<PricedShipping>, groups: Seq<Seq<char>>, n: int)
    requires
        distinct_groups(groups),
        0 <= n <= shipping.len(),
        forall|i: int|
            0 <= i < shipping.len() ==> groups.contains((#[trigger] shipping[i]).group_id@),
    ensures
        sum(groups.map_values(|group: Seq<char>| charge_part(shipping, group, n))) == sum(
            charge_totals(shipping).take(n),
        ),
    decreases n,
{
    let parts = groups.map_values(|group: Seq<char>| charge_part(shipping, group, n));
    if n == 0 {
        assert(charge_totals(shipping).take(0) =~= Seq::<int>::empty());
        lemma_no_parts(parts);
    } else {
        lemma_charges_shared(shipping, groups, n - 1);
        let before = groups.map_values(|group: Seq<char>| charge_part(shipping, group, n - 1));
        let id = shipping[n - 1].group_id@;
        assert(groups.contains(id));
        let k = groups.index_of(id);
        let paid = shipping[n - 1].customer_total.minor as int;
        assert forall|j: int| 0 <= j < groups.len() && j != k implies #[trigger] groups[j] != id by {
            assert(groups[k] == id);
        }
        assert(parts =~= before.update(k, before[k] + paid));
        lemma_sum_update(before, k, before[k] + paid);
        lemma_sum_take(charge_totals(shipping), n - 1);
    }
}

proof fn lemma_no_parts(parts: Seq<int>)
    requires
        forall|i: int| 0 <= i < parts.len() ==> #[trigger] parts[i] == 0,
    ensures
        sum(parts) == 0,
    decreases parts.len(),
{
    if parts.len() > 0 {
        let rest = parts.drop_last();
        assert forall|i: int| 0 <= i < rest.len() implies #[trigger] rest[i] == 0 by {
            assert(rest[i] == parts[i]);
        }
        lemma_no_parts(rest);
        assert(parts[parts.len() - 1] == 0);
    }
}

/// Whether a line is in one of a list of shipments.
pub open spec fn is_grouped(group: Option<FulfillmentGroupId>, groups: Seq<Seq<char>>) -> bool {
    exists|k: int| 0 <= k < groups.len() && in_group(group, #[trigger] groups[k])
}

/// The amounts of a list of shipments, in minor units.
pub open spec fn shipment_amounts(order: Order, groups: Seq<Seq<char>>) -> Seq<int> {
    groups.map_values(|group: Seq<char>| order.group_amount(group)->Ok_0.minor as int)
}

/// Capturing each shipment as it is delivered collects everything once: where every line
/// and every charge belongs to a shipment, the amounts of the shipments add up to what the
/// shopper pays for all of them.
pub proof fn law_shipments_share_the_whole(order: Order, groups: Seq<Seq<char>>)
    requires
        distinct_groups(groups),
        forall|i: int|
            0 <= i < order.quote.lines@.len() ==> is_grouped(
                (#[trigger] order.quote.lines@[i]).fulfillment_group_id,
                groups,
            ),
        forall|i: int|
            0 <= i < order.quote.shipping@.len() ==> groups.contains(
                (#[trigger] order.quote.shipping@[i]).group_id@,
            ),
        forall|k: int|
            0 <= k < groups.len() ==> order.group_amount(#[trigger] groups[k]) is Ok,
    ensures
        sum(shipment_amounts(order, groups)) == sum(line_totals(order.quote.lines@)) + sum(
            charge_totals(order.quote.shipping@),
        ),
{
    let lines = order.quote.lines@;
    let shipping = order.quote.shipping@;
    let n = lines.len() as int;
    let m = shipping.len() as int;
    let first = groups.map_values(|group: Seq<char>| line_part(lines, group, n));
    let second = groups.map_values(|group: Seq<char>| charge_part(shipping, group, m));
    let whole = shipment_amounts(order, groups);
    assert forall|k: int| 0 <= k < groups.len() implies #[trigger] whole[k] == first[k]
        + second[k] by {
        assert(order.group_amount(groups[k]) is Ok);
        lemma_line_part(lines, groups[k], order.currency, n);
        let from = lines_in_group(lines, groups[k], order.currency, n)->Ok_0;
        lemma_charge_part(shipping, groups[k], from, m);
    }
    lemma_sum_add(first, second, whole);
    lemma_lines_shared(lines, groups, n);
    lemma_charges_shared(shipping, groups, m);
    assert(line_totals(lines).take(n) =~= line_totals(lines));
    assert(charge_totals(shipping).take(m) =~= charge_totals(shipping));
}

/// From where each status can be reached. Funds are held and taken before they are given
/// back, an order is fulfilled only once it is paid, and one that was paid in full is
/// neither cancelled nor failed.
pub proof fn law_statuses_are_reached_in_turn(from: OrderStatus, to: OrderStatus)
    ensures
        to is Draft ==> !from.may_become(to),
        to is PendingPayment ==> (from.may_become(to) <==> from is Draft),
        to is Authorized ==> (from.may_become(to) <==> from is Draft || from is PendingPayment),
        to is PartiallyCaptured ==> (from.may_become(to) <==> from is Authorized
            || from is PartiallyCaptured),
        to is Paid ==> (from.may_become(to) <==> from is Draft || from is PendingPayment
            || from is Authorized || from is PartiallyCaptured),
        to is Fulfilled ==> (from.may_become(to) <==> from is Paid || from is PartiallyRefunded),
        to is PartiallyRefunded ==> (from.may_become(to) <==> from is PartiallyCaptured
            || from is Paid || from is Fulfilled || from is PartiallyRefunded),
        to is Refunded ==> (from.may_become(to) <==> from is Paid || from is Fulfilled
            || from is PartiallyRefunded),
        to is Canceled ==> (from.may_become(to) <==> from is Draft || from is PendingPayment
            || from is Authorized || from is PartiallyCaptured),
        to is Failed ==> (from.may_become(to) <==> from is Draft || from is PendingPayment
            || from is Authorized),
        from.final_state() <==> forall|next: OrderStatus| !from.may_become(next),
{
    if !from.final_state() {
        assert(from.may_become(OrderStatus::Canceled) || from.may_become(OrderStatus::Refunded)
            || from.may_become(OrderStatus::Fulfilled));
    }
}

/// A status change is recorded exactly when it is none or an allowed one; a refused one
/// leaves the order as it was.
pub proof fn law_allowed_moves_are_made(
    order: Order,
    next: OrderStatus,
    after: Order,
    done: Result<(), Error>,
)
    requires
        order.moved(next, after, done),
    ensures
        done is Ok <==> order.status == next || order.status.may_become(next),
        done is Ok ==> after.status == next,
        done is Err ==> after == order,
        after.amount_captured == order.amount_captured,
        after.amount_refunded == order.amount_refunded,
{
}

/// A capture is recorded exactly when it takes something, in the currency of the order and
/// no more than is still due. It adds its amount to what was captured; the order is paid
/// once everything is captured and partially captured before that, where its status allows.
pub proof fn law_captures_add_up(
    order: Order,
    amount: Money,
    after: Order,
    done: Result<(), Error>,
)
    requires
        order.sound(),
        order.capture_recorded(amount, after, done),
    ensures
        done is Ok <==> amount.currency == order.currency && 0 < amount.minor
            <= order.quote.totals.total.minor - order.amount_captured.minor,
        done is Ok ==> after.sound() && after.amount_captured.minor == order.amount_captured.minor
            + amount.minor && after.amount_refunded == order.amount_refunded,
        done is Ok && after.amount_captured.minor == order.quote.totals.total.minor ==> (
        after.status is Paid || (after.status == order.status && !(order.status is Draft
            || order.status is PendingPayment || order.status is Authorized
            || order.status is PartiallyCaptured))),
        done is Ok && after.amount_captured.minor < order.quote.totals.total.minor ==> (
        after.status is PartiallyCaptured || (after.status == order.status && !(
        order.status is Authorized || order.status is PartiallyCaptured))),
        done is Err ==> after == order,
{
}

/// A capture is reversed exactly when it is in the currency of the order and no more than
/// was captured; its amount is taken off again and nothing else changes hands.
pub proof fn law_reversals_take_off_their_amount(
    order: Order,
    amount: Money,
    after: Order,
    done: Result<(), Error>,
)
    requires
        order.sound(),
        amount.minor >= 0,
        order.capture_reversed(amount, after, done),
    ensures
        done is Ok <==> amount.currency == order.currency && amount.minor
            <= order.amount_captured.minor,
        done is Ok ==> after.amount_captured.minor == order.amount_captured.minor - amount.minor
            && after.amount_captured.currency == order.currency && after.amount_refunded
            == order.amount_refunded && after.status == order.status,
        done is Err ==> after == order,
{
}

/// A refund is recorded exactly when it is in the currency of the order and no more than
/// was captured and not yet given back. It adds its amount to what was refunded; the order
/// is refunded once all that was captured has been given back, and partially refunded
/// before that, where its status allows.
pub proof fn law_refunds_add_up(
    order: Order,
    record: RefundRecord,
    after: Order,
    done: Result<(), Error>,
)
    requires
        order.sound(),
        record.plan.total.minor >= 0,
        order.refund_recorded(record, after, done),
    ensures
        ({
            let amount = record.plan.total;
            let all = after.amount_refunded.minor == order.amount_captured.minor
                && order.amount_captured.minor > 0;
            &&& done is Ok <==> amount.currency == order.currency && amount.minor
                <= order.amount_captured.minor - order.amount_refunded.minor
            &&& done is Ok ==> {
                &&& after.sound()
                &&& after.amount_refunded.minor == order.amount_refunded.minor + amount.minor
                &&& after.amount_captured == order.amount_captured
                &&& after.refunds@ == order.refunds@.push(record)
                &&& all && (order.status is Paid || order.status is Fulfilled
                    || order.status is PartiallyRefunded) ==> after.status is Refunded
                &&& !all && (order.status is PartiallyCaptured || order.status is Paid
                    || order.status is Fulfilled || order.status is PartiallyRefunded)
                    ==> after.status is PartiallyRefunded
                &&& after.status is Refunded && !(order.status is Refunded) ==> all
                &&& after.status == order.status || after.status is Refunded
                    || after.status is PartiallyRefunded
            }
            &&& done is Err ==> after == order
        }),
{
}

/// What can still be given back is what was captured less what was given back.
pub proof fn law_the_rest_can_be_refunded(order: Order)
    requires
        order.sound(),
    ensures
        order.refundable() == Ok::<Money, ErrorView>(
            Money {
                minor: (order.amount_captured.minor - order.amount_refunded.minor) as i64,
                currency: order.currency,
            },
        ),
{
}

/// Moving a shipment on changes its status and no other shipment. It is refused for a
/// shipment that the order does not have and for a step that the shipment cannot take.
pub proof fn law_shipments_move_alone(
    order: Order,
    group: FulfillmentGroupId,
    next: FulfillmentStatus,
    after: Order,
    done: Result<(), Error>,
    at: int,
)
    requires
        order.shipment_moved(group, next, after, done),
        0 <= at < order.fulfillment_groups@.len(),
        order.fulfillment_groups@[at].id@ == group@,
        forall|i: int|
            0 <= i < at ==> (#[trigger] order.fulfillment_groups@[i]).id@ != group@,
    ensures
        done is Ok <==> order.fulfillment_groups@[at].status == next
            || order.fulfillment_groups@[at].status.may_become(next),
        done is Ok ==> after.fulfillment_groups@[at].status == next,
        after.fulfillment_groups@.len() == order.fulfillment_groups@.len(),
        forall|i: int|
            0 <= i < order.fulfillment_groups@.len() && i != at
                ==> #[trigger] after.fulfillment_groups@[i] == order.fulfillment_groups@[i],
        after.status == order.status,
        after.amount_captured == order.amount_captured,
        after.amount_refunded == order.amount_refunded,
{
    lemma_group_index(order.fulfillment_groups@, group@, at);
}

/// A shipment that the order does not have cannot be moved on.
pub proof fn law_unknown_shipments_stay_put(
    order: Order,
    group: FulfillmentGroupId,
    next: FulfillmentStatus,
    after: Order,
    done: Result<(), Error>,
)
    requires
        order.shipment_moved(group, next, after, done),
        forall|i: int|
            0 <= i < order.fulfillment_groups@.len() ==> (
            #[trigger] order.fulfillment_groups@[i]).id@ != group@,
    ensures
        done is Err,
        after == order,
{
    lemma_group_index(
        order.fulfillment_groups@,
        group@,
        order.fulfillment_groups@.len() as int,
    );
}

/// What the shopper pays for a shipment is what they pay for the lines in it and for its
/// charges; a line in another shipment, or in none, adds nothing.
pub proof fn law_a_shipment_costs_its_lines_and_charges(order: Order, group: Seq<char>)
    requires
        order.group_amount(group) is Ok,
    ensures
        order.group_amount(group)->Ok_0.minor == minors_where(
            order.quote.lines@.map_values(|line: PricedLine| line.customer_total.minor as int),
            order.quote.lines@.map_values(
                |line: PricedLine| line.fulfillment_group_id matches Some(id) && id@ == group,
            ),
        ) + minors_where(
            order.quote.shipping@.map_values(
                |charge: PricedShipping| charge.customer_total.minor as int,
            ),
            order.quote.shipping@.map_values(|charge: PricedShipping| charge.group_id@ == group),
        ),
{
    let lines = order.quote.lines@;
    let charges = order.quote.shipping@;
    let from = lines_in_group(lines, group, order.currency, lines.len() as int)->Ok_0;
    lemma_line_part(lines, group, order.currency, lines.len() as int);
    lemma_charge_part(charges, group, from, charges.len() as int);
    lemma_line_part_is_a_sum(lines, group, lines.len() as int);
    lemma_charge_part_is_a_sum(charges, group, charges.len() as int);
    assert(lines.take(lines.len() as int) =~= lines);
    assert(charges.take(charges.len() as int) =~= charges);
}

/// The sum of the numbers that are marked.
pub open spec fn minors_where(minors: Seq<int>, marks: Seq<bool>) -> int
    decreases minors.len(),
{
    if minors.len() == 0 {
        0
    } else {
        minors_where(minors.drop_last(), marks) + if marks[minors.len() - 1] {
            minors.last()
        } else {
            0
        }
    }
}

proof fn lemma_line_part_is_a_sum(lines: Seq<PricedLine>, group: Seq<char>, n: int)
    requires
        0 <= n <= lines.len(),
    ensures
        line_part(lines, group, n) == minors_where(
            lines.take(n).map_values(|line: PricedLine| line.customer_total.minor as int),
            lines.map_values(
                |line: PricedLine| line.fulfillment_group_id matches Some(id) && id@ == group,
            ),
        ),
    decreases n,
{
    let minors = |line: PricedLine| line.customer_total.minor as int;
    if n > 0 {
        lemma_line_part_is_a_sum(lines, group, n - 1);
        assert(lines.take(n).map_values(minors).drop_last() =~= lines.take(n - 1).map_values(
            minors,
        ));
    }
}

proof fn lemma_charge_part_is_a_sum(charges: Seq<PricedShipping>, group: Seq<char>, n: int)
    requires
        0 <= n <= charges.len(),
    ensures
        charge_part(charges, group, n) == minors_where(
            charges.take(n).map_values(
                |charge: PricedShipping| charge.customer_total.minor as int,
            ),
            charges.map_values(|charge: PricedShipping| charge.group_id@ == group),
        ),
    decreases n,
{
    let minors = |charge: PricedShipping| charge.customer_total.minor as int;
    if n > 0 {
        lemma_charge_part_is_a_sum(charges, group, n - 1);
        assert(charges.take(n).map_values(minors).drop_last() =~= charges.take(n - 1).map_values(
            minors,
        ));
    }
}

/// What gift cards and credit cover is the sum of their tenders: adding a gateway tender
/// changes nothing, adding another adds its amount.
pub proof fn law_stored_value_is_what_cards_and_credit_pay(
    tenders: Seq<PlannedTender>,
    more: PlannedTender,
)
    ensures
        more.kind is Gateway ==> stored_amounts(tenders.push(more)) == stored_amounts(tenders),
        !(more.kind is Gateway) ==> stored_amounts(tenders.push(more)) == stored_amounts(
            tenders,
        ).push(more.amount),
        stored_amounts(Seq::empty()) == Seq::<Money>::empty(),
{
    assert(tenders.push(more).drop_last() =~= tenders);
}

/// A quote becomes an order exactly when it is in the currency of the cart and the tenders
/// cover its total, no more and no less.
pub proof fn law_orders_are_covered(cart: Cart, quote: Quote, tenders: TenderPlan)
    ensures
        Order::refused(cart, quote, tenders) is None <==> quote.currency == cart.currency
            && tenders.total_due.minor == quote.totals.total.minor && tenders.total_due.currency
            == quote.totals.total.currency,
{
}

/// A refund that returns a line adds its units to those already returned, and changes the
/// count of no other line.
pub proof fn law_returned_units_add_up(
    refunds: Seq<RefundRecord>,
    record: RefundRecord,
    line: Seq<char>,
)
    ensures
        refunded_units(Seq::empty(), line) == 0,
        (forall|i: int|
            0 <= i < record.plan.lines@.len() ==> (#[trigger] record.plan.lines@[i]).line_id@
                != line) ==> refunded_units(refunds.push(record), line) == refunded_units(
            refunds,
            line,
        ),
        record.plan.lines@.len() == 1 && record.plan.lines@[0].line_id@ == line
            ==> refunded_units(refunds.push(record), line) == refunded_units(refunds, line)
            + record.plan.lines@[0].quantity,
{
    assert(refunds.push(record).drop_last() =~= refunds);
    let lines = record.plan.lines@;
    if forall|i: int| 0 <= i < lines.len() ==> (#[trigger] lines[i]).line_id@ != line {
        lemma_other_lines_have_no_units(lines, line);
    }
    if lines.len() == 1 {
        assert(lines.drop_last() =~= Seq::<RefundedLine>::empty());
        reveal_with_fuel(line_units, 2);
    }
}

proof fn lemma_other_lines_have_no_units(lines: Seq<RefundedLine>, line: Seq<char>)
    requires
        forall|i: int| 0 <= i < lines.len() ==> (#[trigger] lines[i]).line_id@ != line,
    ensures
        line_units(lines, line) == 0,
    decreases lines.len(),
{
    if lines.len() > 0 {
        assert(lines[lines.len() - 1].line_id@ != line);
        lemma_other_lines_have_no_units(lines.drop_last(), line);
    }
}

/// The minor units that the first `n` refunded tenders gave back of one tender to a shop.
pub open spec fn given_minors(
    tenders: Seq<TenderRefund>,
    index: int,
    shop: Seq<char>,
    n: int,
) -> int
    decreases n,
{
    if n <= 0 {
        0
    } else {
        given_minors(tenders, index, shop, n - 1) + if tenders[n - 1].tender_index == index
            && tenders[n - 1].shop_allocation@.contains_key(shop) {
            tenders[n - 1].shop_allocation@[shop].minor as int
        } else {
            0
        }
    }
}

proof fn lemma_given_back(
    tenders: Seq<TenderRefund>,
    index: int,
    shop: Seq<char>,
    from: Money,
    n: int,
)
    requires
        given_back(tenders, index, shop, from, n) is Ok,
    ensures
        given_back(tenders, index, shop, from, n)->Ok_0.minor == from.minor + given_minors(
            tenders,
            index,
            shop,
            n,
        ),
        given_back(tenders, index, shop, from, n)->Ok_0.currency == from.currency,
    decreases n,
{
    if n > 0 {
        lemma_given_back(tenders, index, shop, from, n - 1);
    }
}

proof fn lemma_returned_to_prefix(
    refunds: Seq<RefundRecord>,
    record: RefundRecord,
    index: int,
    shop: Seq<char>,
    currency: Currency,
    n: int,
)
    requires
        0 <= n <= refunds.len(),
    ensures
        returned_to(refunds.push(record), index, shop, currency, n) == returned_to(
            refunds,
            index,
            shop,
            currency,
            n,
        ),
    decreases n,
{
    if n > 0 {
        lemma_returned_to_prefix(refunds, record, index, shop, currency, n - 1);
        assert(refunds.push(record)[n - 1] == refunds[n - 1]);
    }
}

/// A refund adds to what a tender has given back at a shop exactly what its own parts of
/// that tender allocate to that shop.
pub proof fn law_tenders_give_back_what_was_refunded(
    refunds: Seq<RefundRecord>,
    record: RefundRecord,
    index: int,
    shop: Seq<char>,
    currency: Currency,
)
    requires
        returned_to(refunds.push(record), index, shop, currency, refunds.len() as int + 1) is Ok,
    ensures
        ({
            let before = returned_to(refunds, index, shop, currency, refunds.len() as int);
            let after = returned_to(
                refunds.push(record),
                index,
                shop,
                currency,
                refunds.len() as int + 1,
            );
            &&& before is Ok
            &&& after->Ok_0.currency == before->Ok_0.currency
            &&& after->Ok_0.minor == before->Ok_0.minor + given_minors(
                record.plan.tenders@,
                index,
                shop,
                record.plan.tenders@.len() as int,
            )
        }),
        returned_to(Seq::empty(), index, shop, currency, 0) == Ok::<Money, ErrorView>(
            Money { minor: 0, currency },
        ),
{
    lemma_returned_to_prefix(refunds, record, index, shop, currency, refunds.len() as int);
    assert(refunds.push(record)[refunds.len() as int] == record);
    let before = returned_to(refunds, index, shop, currency, refunds.len() as int);
    assert(before is Ok);
    lemma_given_back(
        record.plan.tenders@,
        index,
        shop,
        before->Ok_0,
        record.plan.tenders@.len() as int,
    );
}

/// An order is fulfilled once it has shipments and none of them is still on its way: each
/// was delivered, came back or was cancelled.
pub proof fn law_fulfilled_orders_have_nothing_under_way(order: Order, i: int)
    ensures
        order.all_arrived() && 0 <= i < order.fulfillment_groups@.len() ==> !(
        order.fulfillment_groups@[i].status is Pending
            || order.fulfillment_groups@[i].status is Processing
            || order.fulfillment_groups@[i].status is Shipped),
        order.all_arrived() ==> order.fulfillment_groups@.len() > 0,
        order.fulfillment_groups@.len() > 0 && (forall|k: int|
            0 <= k < order.fulfillment_groups@.len() ==> (
            #[trigger] order.fulfillment_groups@[k]).status is Delivered || (
            order.fulfillment_groups@[k]).status is Returned || (
            order.fulfillment_groups@[k]).status is Canceled) ==> order.all_arrived(),
{
}

} // verus!
