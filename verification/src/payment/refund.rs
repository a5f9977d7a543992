//! Refunds: giving money back, correctly, to everyone involved.
//!
//! Refunding a marketplace order is not "send `n` back to the card". The same
//! amount has to be unwound across three dimensions at once:
//!
//! * **Shops** — each shop's share, and the tax it no longer has to remit.
//! * **Funders** — a subsidy that paid for a returned item must be reclaimed,
//!   otherwise the platform has funded a product the shopper does not have.
//! * **Tenders** — the shopper paid with a gift card *and* a card; each has to
//!   get back exactly what it put in, or the balances drift.
//!
//! [`RefundPlan::build`] computes all three from the order's stored quote,
//! settlement and tender plans, and checks that the result balances before anything
//! is sent to a gateway.

use vstd::prelude::*;

use crate::amounts::{amount_under, amounts_listed, bump, bumped, get_amount, sum_amounts};
use crate::collections::{listed, OrderedMap};
use crate::error::{outcome, Error, ErrorView};
use crate::folds::lemma_error_stays;
use crate::gateway::RefundReason;
use crate::ids::{is_generated, AccountId, FulfillmentGroupId, LineItemId, RefundId, ShopId};
use crate::money::allocation::{
    amounts_of, even_weights, law_allocation_succeeds, law_good_weights,
    law_parts_stay_within_their_weights, law_parts_sum_to_the_whole, list_outcome, parts_of,
    weighted_allocation,
};
use crate::money::{
    allocate_by_weights, allocate_evenly, law_total_is_the_sum, minors, total, Currency, Money,
    Rounding,
};
use crate::order::{
    count_units, in_group, is_in_group, line_units, refunded_units, returned_to, saturated, Order,
};
use crate::payment::split::{at_least_nothing, settlement_index, ShopSettlement};
use crate::payment::tender::{PlannedTender, TenderKind};
use crate::pricing::{AppliedDiscount, PricedLine, PricedShipping};
use crate::sums::{lemma_sum_concat, sum};
use crate::text::{digits, join3, push_digits};
use crate::time::Timestamp;

verus! {

/// Which units of a line to refund.
#[derive(Debug, Clone, PartialEq, Eq)]
pub struct RefundLineRequest {
    /// Line to refund.
    pub line_id: LineItemId,
    /// How many units.
    pub quantity: u32,
}

/// What to refund.
#[derive(Debug, Clone, PartialEq)]
pub enum RefundScope {
    /// Everything that has not already been refunded, with shipping and
    /// any subsidies.
    Full,
    /// Specific units of specific lines.
    Lines {
        /// Lines and quantities.
        lines: Vec<RefundLineRequest>,
    },
    /// A flat amount, prorated across shops by what each is still owed.
    ///
    /// Subsidies are **not** reclaimed for flat-amount refunds: there is no
    /// principled way to decide whose subsidy a goodwill gesture consumes, so
    /// the platform absorbs it. Use [`RefundScope::Lines`] when a specific item
    /// is being returned.
    Amount {
        /// How much to return to the shopper.
        amount: Money,
    },
}

/// A refund instruction.
#[derive(Debug, Clone, PartialEq)]
pub struct RefundRequest {
    /// What to refund.
    pub scope: RefundScope,
    /// Why.
    pub reason: RefundReason,
    /// Also refund shipping charges for fully-refunded shipments.
    pub refund_shipping: bool,
    /// Give the platform commission back to the shop proportionally.
    pub refund_platform_fee: bool,
    /// Makes retries safe.
    pub idempotency_key: String,
    /// Operator note for the audit trail.
    pub note: Option<String>,
}

impl RefundRequest {
    /// Refund everything left on the order.
    pub fn full(idempotency_key: &str) -> (request: Self)
        ensures
            request.scope == RefundScope::Full,
            request.reason == RefundReason::RequestedByCustomer,
            request.refund_shipping,
            request.refund_platform_fee,
            request.idempotency_key@ == idempotency_key@,
            request.note is None,
    {
        RefundRequest {
            scope: RefundScope::Full,
            reason: RefundReason::RequestedByCustomer,
            refund_shipping: true,
            refund_platform_fee: true,
            idempotency_key: idempotency_key.to_owned(),
            note: None,
        }
    }

    /// Refund specific units.
    pub fn lines(idempotency_key: &str, lines: Vec<RefundLineRequest>) -> (request: Self)
        ensures
            request.scope == (RefundScope::Lines { lines }),
            request.reason == RefundReason::RequestedByCustomer,
            !request.refund_shipping,
            request.refund_platform_fee,
            request.idempotency_key@ == idempotency_key@,
            request.note is None,
    {
        RefundRequest {
            scope: RefundScope::Lines { lines },
            reason: RefundReason::RequestedByCustomer,
            refund_shipping: false,
            refund_platform_fee: true,
            idempotency_key: idempotency_key.to_owned(),
            note: None,
        }
    }

    /// Refund a flat amount.
    pub fn amount(idempotency_key: &str, amount: Money) -> (request: Self)
        ensures
            request.scope == (RefundScope::Amount { amount }),
            request.reason == RefundReason::RequestedByCustomer,
            !request.refund_shipping,
            request.refund_platform_fee,
            request.idempotency_key@ == idempotency_key@,
            request.note is None,
    {
        RefundRequest {
            scope: RefundScope::Amount { amount },
            reason: RefundReason::RequestedByCustomer,
            refund_shipping: false,
            refund_platform_fee: true,
            idempotency_key: idempotency_key.to_owned(),
            note: None,
        }
    }

    /// Builder: set the reason.
    pub fn because(self, reason: RefundReason) -> (request: Self)
        ensures
            request == (RefundRequest { reason, ..self }),
    {
        RefundRequest { reason, ..self }
    }

    /// Builder: refund shipping, or not.
    pub fn with_shipping(self, refund_shipping: bool) -> (request: Self)
        ensures
            request == (RefundRequest { refund_shipping, ..self }),
    {
        RefundRequest { refund_shipping, ..self }
    }
}

/// The refunded portion of one line.
#[derive(Debug, Clone, PartialEq)]
pub struct RefundedLine {
    /// The line.
    pub line_id: LineItemId,
    /// Shop that sold it.
    pub shop_id: ShopId,
    /// Units refunded.
    pub quantity: u32,
    /// Amount returned to the shopper.
    pub customer_amount: Money,
    /// Subsidy reclaimed from funders.
    pub subsidy_amount: Money,
    /// Tax no longer due.
    pub tax_amount: Money,
    /// Amount clawed back from the shop.
    pub merchant_amount: Money,
}

/// What one shop gives back.
#[derive(Debug, Clone, PartialEq)]
pub struct ShopRefund {
    /// The shop.
    pub shop_id: ShopId,
    /// Its connected account.
    pub account_id: AccountId,
    /// Total clawed back from the shop, with tax.
    pub gross: Money,
    /// Tax component of `gross`.
    pub tax: Money,
    /// Platform commission returned to the shop.
    pub platform_fee_returned: Money,
    /// Net debit against the shop's balance.
    pub net: Money,
    /// Portion returned to the shopper.
    pub customer_funded: Money,
    /// Portion returned to funders.
    pub subsidy_funded: Money,
}

/// What one tender gets back.
#[derive(Debug, Clone, PartialEq)]
pub struct TenderRefund {
    /// Index of the tender in [`Order::tenders`].
    pub tender_index: usize,
    /// The instrument.
    pub kind: TenderKind,
    /// Amount returned to it.
    pub amount: Money,
    /// Per-shop attribution of that amount.
    pub shop_allocation: OrderedMap<Money>,
}

/// What one tender gets back, its attribution as a map.
pub ghost struct ReturnView {
    /// Index of the tender.
    pub tender_index: usize,
    /// The instrument.
    pub kind: TenderKind,
    /// Amount returned to it.
    pub amount: Money,
    /// Per-shop attribution of that amount.
    pub shop_allocation: Map<Seq<char>, Money>,
}

impl View for TenderRefund {
    type V = ReturnView;

    open spec fn view(&self) -> ReturnView {
        ReturnView {
            tender_index: self.tender_index,
            kind: self.kind,
            amount: self.amount,
            shop_allocation: self.shop_allocation@,
        }
    }
}

/// What one funder gets back.
#[derive(Debug, Clone, PartialEq)]
pub struct FunderRefund {
    /// The funder.
    pub funder: AccountId,
    /// Amount reclaimed.
    pub amount: Money,
}

/// What one funder gets back, its account as text.
pub ghost struct ReclaimView {
    /// The funder.
    pub funder: Seq<char>,
    /// Amount reclaimed.
    pub amount: Money,
}

impl View for FunderRefund {
    type V = ReclaimView;

    open spec fn view(&self) -> ReclaimView {
        ReclaimView { funder: self.funder@, amount: self.amount }
    }
}

/// A complete, balanced refund.
#[derive(Debug, Clone, PartialEq)]
pub struct RefundPlan {
    /// Currency.
    pub currency: Currency,
    /// Total returned to the shopper.
    pub total: Money,
    /// Tax contained in `total` plus subsidy reclaims.
    pub tax_refunded: Money,
    /// Total reclaimed from funders.
    pub subsidy_reclaimed: Money,
    /// Refunded units.
    pub lines: Vec<RefundedLine>,
    /// Shipments whose charges were refunded.
    pub shipping_groups: Vec<FulfillmentGroupId>,
    /// Per-shop clawbacks.
    pub shops: Vec<ShopRefund>,
    /// Per-tender returns.
    pub tenders: Vec<TenderRefund>,
    /// Per-funder reclaims.
    pub funders: Vec<FunderRefund>,
}

/// A refund, with its lists as sequences.
pub ghost struct RefundView {
    /// Currency.
    pub currency: Currency,
    /// Total returned to the shopper.
    pub total: Money,
    /// Tax contained in the total plus subsidy reclaims.
    pub tax_refunded: Money,
    /// Total reclaimed from funders.
    pub subsidy_reclaimed: Money,
    /// Refunded units.
    pub lines: Seq<RefundedLine>,
    /// Shipments whose charges were refunded.
    pub shipping_groups: Seq<FulfillmentGroupId>,
    /// Per-shop clawbacks.
    pub shops: Seq<ShopRefund>,
    /// Per-tender returns.
    pub tenders: Seq<ReturnView>,
    /// Per-funder reclaims.
    pub funders: Seq<ReclaimView>,
}

/// The views of a list of tender returns.
pub open spec fn return_views(list: Seq<TenderRefund>) -> Seq<ReturnView> {
    list.map_values(|tender: TenderRefund| tender@)
}

/// The views of a list of reclaims.
pub open spec fn reclaim_views(list: Seq<FunderRefund>) -> Seq<ReclaimView> {
    list.map_values(|funder: FunderRefund| funder@)
}

impl View for RefundPlan {
    type V = RefundView;

    open spec fn view(&self) -> RefundView {
        RefundView {
            currency: self.currency,
            total: self.total,
            tax_refunded: self.tax_refunded,
            subsidy_reclaimed: self.subsidy_reclaimed,
            lines: self.lines@,
            shipping_groups: self.shipping_groups@,
            shops: self.shops@,
            tenders: return_views(self.tenders@),
            funders: reclaim_views(self.funders@),
        }
    }
}

/// A plan, or the error in its place.
pub open spec fn refund_outcome(plan: Result<RefundPlan, Error>) -> Result<RefundView, ErrorView> {
    match plan {
        Ok(made) => Ok(made@),
        Err(error) => Err(error@),
    }
}

// Exact shares per unit.

/// The shares of an amount per unit.
pub open spec fn unit_shares(amount: Money, units: nat) -> Seq<Money> {
    amounts_of(parts_of(amount.minor as int, even_weights(units)), amount.currency)
}

/// What units `from` up to `to` of a line are worth of an amount.
pub open spec fn units_worth(
    amount: Money,
    units: nat,
    from: int,
    to: int,
    currency: Currency,
) -> Result<Money, ErrorView> {
    total(unit_shares(amount, units).subrange(from, to), currency)
}

fn sum_units(amount: Money, units: usize, from: usize, to: usize, currency: Currency) -> (
worth: Result<Money, Error>)
    requires
        units > 0,
        from <= to <= units,
    ensures
        outcome(worth) == units_worth(amount, units as nat, from as int, to as int, currency),
{
    proof {
        law_allocation_succeeds(amount, even_weights(units as nat));
    }
    let shares = match allocate_evenly(amount, units) {
        Ok(shares) => shares,
        Err(error) => return Err(error),
    };
    let ghost wanted = shares@.subrange(from as int, to as int);
    let mut slice: Vec<Money> = Vec::new();
    let mut i: usize = from;
    while i < to
        invariant
            from <= i <= to <= shares@.len(),
            wanted == shares@.subrange(from as int, to as int),
            slice@ == wanted.take(i - from),
        decreases to - i,
    {
        slice.push(shares[i]);
        i += 1;
        assert(slice@ =~= wanted.take(i - from));
    }
    assert(slice@ =~= wanted);
    Money::sum(slice.as_slice(), currency)
}

/// What units `from` up to `to` of an even split come to, in minor units.
pub open spec fn unit_sum(amount: int, units: nat, from: int, to: int) -> int {
    sum(parts_of(amount, even_weights(units)).subrange(from, to))
}

/// What consecutive units are worth adds up, and all units together are worth the whole
/// amount.
pub proof fn law_partial_refunds_sum_to_the_whole(
    amount: int,
    units: nat,
    from: int,
    middle: int,
    to: int,
)
    requires
        units > 0,
        0 <= from <= middle <= to <= units,
    ensures
        unit_sum(amount, units, from, middle) + unit_sum(amount, units, middle, to) == unit_sum(
            amount,
            units,
            from,
            to,
        ),
        unit_sum(amount, units, 0, units as int) == amount,
{
    let parts = parts_of(amount, even_weights(units));
    law_parts_sum_to_the_whole(amount, even_weights(units));
    lemma_sum_concat(parts.subrange(from, middle), parts.subrange(middle, to));
    assert(parts.subrange(from, middle) + parts.subrange(middle, to) =~= parts.subrange(from, to));
    assert(parts.subrange(0, units as int) =~= parts);
}

/// What units of a line are worth is the sum of their shares.
pub proof fn law_units_are_worth_their_shares(
    amount: Money,
    units: nat,
    from: int,
    to: int,
    currency: Currency,
)
    requires
        units > 0,
        0 <= from <= to <= units,
    ensures
        units_worth(amount, units, from, to, currency) matches Ok(worth) ==> worth.minor
            == unit_sum(amount.minor as int, units, from, to) && worth.currency == currency,
{
    let parts = parts_of(amount.minor as int, even_weights(units));
    let shares = unit_shares(amount, units);
    law_total_is_the_sum(shares.subrange(from, to), currency);
    law_parts_sum_to_the_whole(amount.minor as int, even_weights(units));
    assert forall|i: int| 0 <= i < to - from implies #[trigger] minors(
        shares.subrange(from, to),
    )[i] == parts.subrange(from, to)[i] by {
        assert(i64::MIN <= parts[from + i] <= i64::MAX);
    }
    assert(minors(shares.subrange(from, to)) =~= parts.subrange(from, to));
}

// What a refund takes back, gathered line by line.

/// What a refund takes back so far.
pub ghost struct Tally {
    /// Returned to the shopper, per shop.
    pub customer: Map<Seq<char>, Money>,
    /// Reclaimed subsidies, per shop.
    pub subsidy: Map<Seq<char>, Money>,
    /// Tax no longer due, per shop.
    pub tax: Map<Seq<char>, Money>,
    /// Clawed back, per shop.
    pub gross: Map<Seq<char>, Money>,
    /// Reclaimed subsidies, per funder.
    pub funders: Map<Seq<char>, Money>,
    /// Refunded units.
    pub lines: Seq<RefundedLine>,
    /// Shipments whose charges are refunded.
    pub shipping: Seq<FulfillmentGroupId>,
}

struct TallyState {
    customer: OrderedMap<Money>,
    subsidy: OrderedMap<Money>,
    tax: OrderedMap<Money>,
    gross: OrderedMap<Money>,
    funders: OrderedMap<Money>,
    lines: Vec<RefundedLine>,
    shipping: Vec<FulfillmentGroupId>,
}

impl View for TallyState {
    type V = Tally;

    closed spec fn view(&self) -> Tally {
        Tally {
            customer: self.customer@,
            subsidy: self.subsidy@,
            tax: self.tax@,
            gross: self.gross@,
            funders: self.funders@,
            lines: self.lines@,
            shipping: self.shipping@,
        }
    }
}

/// Nothing taken back yet.
pub open spec fn empty_tally() -> Tally {
    Tally {
        customer: Map::empty(),
        subsidy: Map::empty(),
        tax: Map::empty(),
        gross: Map::empty(),
        funders: Map::empty(),
        lines: Seq::empty(),
        shipping: Seq::empty(),
    }
}

/// A tally with amounts taken back from a shop.
pub open spec fn with_shop_amounts(
    tally: Tally,
    shop: Seq<char>,
    customer: Money,
    subsidy: Money,
    tax: Money,
    gross: Money,
    currency: Currency,
) -> Result<Tally, ErrorView> {
    let customers = bumped(tally.customer, shop, customer, currency);
    let subsidies = bumped(tally.subsidy, shop, subsidy, currency);
    let taxes = bumped(tally.tax, shop, tax, currency);
    let grosses = bumped(tally.gross, shop, gross, currency);
    if customers is Err {
        Err(customers->Err_0)
    } else if subsidies is Err {
        Err(subsidies->Err_0)
    } else if taxes is Err {
        Err(taxes->Err_0)
    } else if grosses is Err {
        Err(grosses->Err_0)
    } else {
        Ok(
            Tally {
                customer: customers->Ok_0,
                subsidy: subsidies->Ok_0,
                tax: taxes->Ok_0,
                gross: grosses->Ok_0,
                ..tally
            },
        )
    }
}

/// The discounts of a list that third parties fund.
pub open spec fn subsidised(discounts: Seq<AppliedDiscount>) -> Seq<AppliedDiscount>
    decreases discounts.len(),
{
    if discounts.len() == 0 {
        Seq::empty()
    } else {
        let before = subsidised(discounts.drop_last());
        if discounts.last().funding is Subsidy {
            before.push(discounts.last())
        } else {
            before
        }
    }
}

/// The amounts of a list of discounts.
pub open spec fn discounted_by(discounts: Seq<AppliedDiscount>) -> Seq<Money> {
    discounts.map_values(|applied: AppliedDiscount| applied.amount)
}

/// What funders get back once the first `n` of them are credited with their shares.
pub open spec fn credited(
    funders: Map<Seq<char>, Money>,
    discounts: Seq<AppliedDiscount>,
    shares: Seq<Money>,
    currency: Currency,
    n: int,
) -> Result<Map<Seq<char>, Money>, ErrorView>
    decreases n,
{
    if n <= 0 {
        Ok(funders)
    } else {
        match credited(funders, discounts, shares, currency, n - 1) {
            Err(error) => Err(error),
            Ok(before) => bumped(
                before,
                discounts[n - 1].funding.payer()->0@,
                shares[n - 1],
                currency,
            ),
        }
    }
}

/// What funders get back once a reclaimed subsidy is attributed to those that paid.
pub open spec fn reclaimed(
    funders: Map<Seq<char>, Money>,
    discounts: Seq<AppliedDiscount>,
    subsidy: Money,
    currency: Currency,
) -> Result<Map<Seq<char>, Money>, ErrorView> {
    let paid = subsidised(discounts);
    if subsidy.minor <= 0 {
        Ok(funders)
    } else {
        match weighted_allocation(subsidy, discounted_by(paid)) {
            Err(error) => Err(error),
            Ok(shares) => credited(funders, paid, shares, currency, paid.len() as int),
        }
    }
}

/// A tally with units of a line taken back. What is clawed back from the shop is what
/// the shopper and the funders get back for those units.
pub open spec fn with_line(
    tally: Tally,
    line: PricedLine,
    already: int,
    wanted: u32,
    currency: Currency,
) -> Result<Tally, ErrorView> {
    let units = line.quantity as nat;
    let to = already + wanted;
    let customer = units_worth(line.customer_total, units, already, to, currency);
    let subsidy = units_worth(line.subsidy_discount, units, already, to, currency);
    let tax = units_worth(line.tax, units, already, to, currency);
    let merchant = customer->Ok_0.plus(subsidy->Ok_0);
    if customer is Err {
        Err(customer->Err_0)
    } else if subsidy is Err {
        Err(subsidy->Err_0)
    } else if tax is Err {
        Err(tax->Err_0)
    } else if merchant is Err {
        Err(merchant->Err_0)
    } else {
        match with_shop_amounts(
            tally,
            line.shop_id@,
            customer->Ok_0,
            subsidy->Ok_0,
            tax->Ok_0,
            merchant->Ok_0,
            currency,
        ) {
            Err(error) => Err(error),
            Ok(shops) => match reclaimed(
                tally.funders,
                line.discounts@,
                subsidy->Ok_0,
                currency,
            ) {
                Err(error) => Err(error),
                Ok(funders) => Ok(
                    Tally {
                        funders,
                        lines: tally.lines.push(
                            RefundedLine {
                                line_id: line.line_id,
                                shop_id: line.shop_id,
                                quantity: wanted,
                                customer_amount: customer->Ok_0,
                                subsidy_amount: subsidy->Ok_0,
                                tax_amount: tax->Ok_0,
                                merchant_amount: merchant->Ok_0,
                            },
                        ),
                        ..shops
                    },
                ),
            },
        }
    }
}

/// How many units of a line have not been refunded yet.
pub open spec fn units_left(refunds: nat, quantity: u32) -> u32 {
    if refunds >= quantity {
        0
    } else {
        (quantity - refunds) as u32
    }
}

/// How many units of a line are to be refunded: those requested, or all that are left.
pub open spec fn units_wanted(
    requested: Option<Map<Seq<char>, u32>>,
    line: Seq<char>,
    left: u32,
) -> u32 {
    match requested {
        Some(map) => if map.contains_key(line) {
            map[line]
        } else {
            0
        },
        None => left,
    }
}

/// The tally after considering a line.
pub open spec fn line_step(
    order: Order,
    tally: Tally,
    line: PricedLine,
    requested: Option<Map<Seq<char>, u32>>,
) -> Result<Tally, ErrorView> {
    let already = refunded_units(order.refunds@, line.line_id@);
    let left = units_left(already, line.quantity);
    let wanted = units_wanted(requested, line.line_id@, left);
    if wanted == 0 {
        Ok(tally)
    } else if wanted > left {
        Err(
            ErrorView::Validation(
                "cannot refund "@ + digits(wanted as nat) + " units of "@ + line.line_id@
                    + ": only "@ + digits(left as nat) + " remain"@,
            ),
        )
    } else {
        with_line(tally, line, already as int, wanted, order.currency)
    }
}

/// The tally after the first `n` lines of an order.
pub open spec fn after_lines(
    order: Order,
    requested: Option<Map<Seq<char>, u32>>,
    n: int,
) -> Result<Tally, ErrorView>
    decreases n,
{
    if n <= 0 {
        Ok(empty_tally())
    } else {
        match after_lines(order, requested, n - 1) {
            Err(error) => Err(error),
            Ok(before) => line_step(order, before, order.quote.lines@[n - 1], requested),
        }
    }
}

/// The units requested per line; the last request for a line counts.
pub open spec fn requested_units(lines: Seq<RefundLineRequest>, n: int) -> Map<Seq<char>, u32>
    decreases n,
{
    if n <= 0 {
        Map::empty()
    } else {
        requested_units(lines, n - 1).insert(lines[n - 1].line_id@, lines[n - 1].quantity)
    }
}

/// Whether a list of shipments holds one.
pub open spec fn lists_group(groups: Seq<FulfillmentGroupId>, group: Seq<char>) -> bool {
    exists|i: int| 0 <= i < groups.len() && (#[trigger] groups[i])@ == group
}

/// Whether the shipping charge of a shipment has already been refunded.
pub open spec fn charge_refunded(order: Order, group: Seq<char>) -> bool {
    exists|i: int|
        0 <= i < order.refunds@.len() && lists_group(
            (#[trigger] order.refunds@[i]).plan.shipping_groups@,
            group,
        )
}

/// Whether a line counts as fully returned together with the lines refunded now.
pub open spec fn line_returned(order: Order, line: PricedLine, now: Seq<RefundedLine>) -> bool {
    refunded_units(order.refunds@, line.line_id@) + line_units(now, line.line_id@)
        >= line.quantity
}

/// Whether every item of a shipment has been returned together with the lines refunded
/// now.
pub open spec fn shipment_returned(order: Order, group: Seq<char>, now: Seq<RefundedLine>) -> bool {
    forall|i: int|
        0 <= i < order.quote.lines@.len() && in_group(
            (#[trigger] order.quote.lines@[i]).fulfillment_group_id,
            group,
        ) ==> line_returned(order, order.quote.lines@[i], now)
}

/// Whether the charge of a shipment is refunded.
pub open spec fn charge_due_back(order: Order, charge: PricedShipping, now: Seq<RefundedLine>) -> bool {
    &&& !charge_refunded(order, charge.group_id@)
    &&& shipment_returned(order, charge.group_id@, now)
    &&& charge.customer_total.minor != 0 || charge.merchant_gross.minor != 0
}

/// What funders get back once they are credited with the first `n` discounts.
pub open spec fn credited_whole(
    funders: Map<Seq<char>, Money>,
    discounts: Seq<AppliedDiscount>,
    currency: Currency,
    n: int,
) -> Result<Map<Seq<char>, Money>, ErrorView>
    decreases n,
{
    if n <= 0 {
        Ok(funders)
    } else {
        match credited_whole(funders, discounts, currency, n - 1) {
            Err(error) => Err(error),
            Ok(before) => match discounts[n - 1].funding.payer() {
                None => Ok(before),
                Some(funder) => bumped(before, funder@, discounts[n - 1].amount, currency),
            },
        }
    }
}

/// The tally after considering the charge of a shipment.
pub open spec fn charge_step(order: Order, tally: Tally, charge: PricedShipping) -> Result<
    Tally,
    ErrorView,
> {
    if !charge_due_back(order, charge, tally.lines) {
        Ok(tally)
    } else {
        match with_shop_amounts(
            tally,
            charge.shop_id@,
            charge.customer_total,
            charge.subsidy_discount,
            charge.tax,
            charge.merchant_gross,
            order.currency,
        ) {
            Err(error) => Err(error),
            Ok(shops) => match credited_whole(
                tally.funders,
                charge.discounts@,
                order.currency,
                charge.discounts@.len() as int,
            ) {
                Err(error) => Err(error),
                Ok(funders) => Ok(
                    Tally { funders, shipping: tally.shipping.push(charge.group_id), ..shops },
                ),
            },
        }
    }
}

/// The tally after the first `n` shipping charges of an order.
pub open spec fn after_charges(order: Order, from: Tally, n: int) -> Result<Tally, ErrorView>
    decreases n,
{
    if n <= 0 {
        Ok(from)
    } else {
        match after_charges(order, from, n - 1) {
            Err(error) => Err(error),
            Ok(before) => charge_step(order, before, order.quote.shipping@[n - 1]),
        }
    }
}

/// The tally of a refund of units.
pub open spec fn units_tally(
    order: Order,
    requested: Option<Map<Seq<char>, u32>>,
    refund_shipping: bool,
) -> Result<Tally, ErrorView> {
    match after_lines(order, requested, order.quote.lines@.len() as int) {
        Err(error) => Err(error),
        Ok(tally) => if refund_shipping {
            after_charges(order, tally, order.quote.shipping@.len() as int)
        } else {
            Ok(tally)
        },
    }
}

/// What the shopper got back of a shop in the first `n` shops of a refund, added to a sum.
pub open spec fn shop_returned(shops: Seq<ShopRefund>, shop: Seq<char>, from: Money, n: int) -> Result<
    Money,
    ErrorView,
>
    decreases n,
{
    if n <= 0 {
        Ok(from)
    } else {
        match shop_returned(shops, shop, from, n - 1) {
            Err(error) => Err(error),
            Ok(before) => if shops[n - 1].shop_id@ == shop {
                before.plus(shops[n - 1].customer_funded)
            } else {
                Ok(before)
            },
        }
    }
}

/// What the shopper got back of a shop in the first `n` refunds.
pub open spec fn returned_by_shop(
    refunds: Seq<RefundRecord>,
    shop: Seq<char>,
    currency: Currency,
    n: int,
) -> Result<Money, ErrorView>
    decreases n,
{
    if n <= 0 {
        Ok(Money { minor: 0, currency })
    } else {
        match returned_by_shop(refunds, shop, currency, n - 1) {
            Err(error) => Err(error),
            Ok(before) => shop_returned(
                refunds[n - 1].plan.shops@,
                shop,
                before,
                refunds[n - 1].plan.shops@.len() as int,
            ),
        }
    }
}

/// What the shopper paid a shop.
pub open spec fn paid_to_shop(order: Order, shop: Seq<char>) -> Money {
    let at = settlement_index(order.settlement.shops@, shop);
    if 0 <= at < order.settlement.shops@.len() {
        order.settlement.shops@[at].funded_by_customer
    } else {
        Money { minor: 0, currency: order.currency }
    }
}

/// What a shop still holds of what the shopper paid it; never negative.
pub open spec fn still_paid(order: Order, shop: Seq<char>) -> Result<Money, ErrorView> {
    match returned_by_shop(order.refunds@, shop, order.currency, order.refunds@.len() as int) {
        Err(error) => Err(error),
        Ok(returned) => match paid_to_shop(order, shop).minus(returned) {
            Err(error) => Err(error),
            Ok(left) => Ok(at_least_nothing(left)),
        },
    }
}

/// What each shop still holds; nothing where that cannot be told.
pub open spec fn shop_weights(order: Order) -> Seq<Money> {
    order.settlement.shops@.map_values(
        |shop: ShopSettlement|
            match still_paid(order, shop.shop_id@) {
                Ok(left) => left,
                Err(_) => Money { minor: 0, currency: order.currency },
            },
    )
}

/// The tax in a share of what a shop is owed, at the shop's own effective rate.
pub open spec fn tax_share(shop: ShopSettlement, share: Money, currency: Currency) -> Result<
    Money,
    ErrorView,
> {
    if shop.gross.minor == 0 {
        Ok(Money { minor: 0, currency })
    } else {
        share.scaled(shop.tax.minor as int, shop.gross.minor as int, Rounding::HalfUp)
    }
}

/// The tally after a share of a flat amount is taken back from a shop.
pub open spec fn share_step(
    tally: Tally,
    shop: ShopSettlement,
    share: Money,
    currency: Currency,
) -> Result<Tally, ErrorView> {
    if share.minor == 0 {
        Ok(tally)
    } else {
        match bumped(tally.customer, shop.shop_id@, share, currency) {
            Err(error) => Err(error),
            Ok(customer) => match bumped(tally.gross, shop.shop_id@, share, currency) {
                Err(error) => Err(error),
                Ok(gross) => match tax_share(shop, share, currency) {
                    Err(error) => Err(error),
                    Ok(amount) => match bumped(tally.tax, shop.shop_id@, amount, currency) {
                        Err(error) => Err(error),
                        Ok(tax) => Ok(Tally { customer, gross, tax, ..tally }),
                    },
                },
            },
        }
    }
}

/// The tally after the first `n` shops gave their shares of a flat amount.
pub open spec fn after_shares(
    shops: Seq<ShopSettlement>,
    shares: Seq<Money>,
    currency: Currency,
    n: int,
) -> Result<Tally, ErrorView>
    decreases n,
{
    if n <= 0 {
        Ok(empty_tally())
    } else {
        match after_shares(shops, shares, currency, n - 1) {
            Err(error) => Err(error),
            Ok(before) => share_step(before, shops[n - 1], shares[n - 1], currency),
        }
    }
}

/// The refusal of a refund of more than is left.
pub open spec fn over_refund(amount: Money, left: Money) -> ErrorView {
    ErrorView::Validation(
        "cannot refund "@ + amount.text() + ": only "@ + left.text() + " remains refundable"@,
    )
}

/// The tally of a refund of a flat amount.
pub open spec fn amount_tally(order: Order, amount: Money) -> Result<Tally, ErrorView> {
    if amount.minor <= 0 {
        Err(ErrorView::Validation("refund amount must be positive"@))
    } else {
        match order.refundable() {
            Err(error) => Err(error),
            Ok(left) => if amount.more_than(left) {
                Err(over_refund(amount, left))
            } else {
                match weighted_allocation(amount, shop_weights(order)) {
                    Err(error) => Err(error),
                    Ok(shares) => after_shares(
                        order.settlement.shops@,
                        shares,
                        order.currency,
                        order.settlement.shops@.len() as int,
                    ),
                }
            },
        }
    }
}

/// The tally of a refund.
pub open spec fn tallied(order: Order, request: RefundRequest) -> Result<Tally, ErrorView> {
    match request.scope {
        RefundScope::Full => units_tally(order, None, request.refund_shipping),
        RefundScope::Lines { lines } => units_tally(
            order,
            Some(requested_units(lines@, lines@.len() as int)),
            request.refund_shipping,
        ),
        RefundScope::Amount { amount } => amount_tally(order, amount),
    }
}

// From a tally to a plan.

/// The platform commission that goes back to a shop.
pub open spec fn fee_returned(
    shop: ShopSettlement,
    gross: Money,
    refund_fee: bool,
    currency: Currency,
) -> Result<Money, ErrorView> {
    if refund_fee && shop.platform_fee.minor > 0 && shop.gross.minor > 0 {
        shop.platform_fee.scaled(gross.minor as int, shop.gross.minor as int, Rounding::HalfUp)
    } else {
        Ok(Money { minor: 0, currency })
    }
}

/// What a shop gives back, if anything.
pub open spec fn shop_refund(
    shop: ShopSettlement,
    tally: Tally,
    refund_fee: bool,
    currency: Currency,
) -> Result<Option<ShopRefund>, ErrorView> {
    let key = shop.shop_id@;
    let customer = amount_under(tally.customer, key, currency);
    let subsidy = amount_under(tally.subsidy, key, currency);
    match customer.plus(subsidy) {
        Err(error) => Err(error),
        Ok(funded) => match amount_under(tally.gross, key, currency).larger(funded) {
            Err(error) => Err(error),
            Ok(gross) => if gross.minor == 0 {
                Ok(None)
            } else {
                match fee_returned(shop, gross, refund_fee, currency) {
                    Err(error) => Err(error),
                    Ok(fee) => match gross.minus(fee) {
                        Err(error) => Err(error),
                        Ok(net) => Ok(
                            Some(
                                ShopRefund {
                                    shop_id: shop.shop_id,
                                    account_id: shop.account_id,
                                    gross,
                                    tax: amount_under(tally.tax, key, currency),
                                    platform_fee_returned: fee,
                                    net,
                                    customer_funded: customer,
                                    subsidy_funded: subsidy,
                                },
                            ),
                        ),
                    },
                }
            },
        },
    }
}

/// What the first `n` shops give back.
pub open spec fn shop_refunds(
    shops: Seq<ShopSettlement>,
    tally: Tally,
    refund_fee: bool,
    currency: Currency,
    n: int,
) -> Result<Seq<ShopRefund>, ErrorView>
    decreases n,
{
    if n <= 0 {
        Ok(Seq::empty())
    } else {
        match shop_refunds(shops, tally, refund_fee, currency, n - 1) {
            Err(error) => Err(error),
            Ok(before) => match shop_refund(shops[n - 1], tally, refund_fee, currency) {
                Err(error) => Err(error),
                Ok(None) => Ok(before),
                Ok(Some(refund)) => Ok(before.push(refund)),
            },
        }
    }
}

/// What a tender still holds of what it paid a shop; never negative.
pub open spec fn holding(order: Order, index: int, shop: Seq<char>) -> Result<Money, ErrorView> {
    let paid = amount_under(order.tenders@[index].shop_allocation@, shop, order.currency);
    match returned_to(
        order.refunds@,
        index,
        shop,
        order.currency,
        order.refunds@.len() as int,
    ) {
        Err(error) => Err(error),
        Ok(returned) => match paid.minus(returned) {
            Err(error) => Err(error),
            Ok(left) => Ok(at_least_nothing(left)),
        },
    }
}

/// The first `n` tenders that still hold something of what they paid a shop, each with
/// what it holds.
pub open spec fn holders(order: Order, shop: Seq<char>, n: int) -> Result<
    Seq<(usize, Money)>,
    ErrorView,
>
    decreases n,
{
    if n <= 0 {
        Ok(Seq::empty())
    } else {
        match holders(order, shop, n - 1) {
            Err(error) => Err(error),
            Ok(before) => match holding(order, n - 1, shop) {
                Err(error) => Err(error),
                Ok(left) => if left.minor > 0 {
                    Ok(before.push(((n - 1) as usize, left)))
                } else {
                    Ok(before)
                },
            },
        }
    }
}

/// What each holder holds.
pub open spec fn held(list: Seq<(usize, Money)>) -> Seq<Money> {
    list.map_values(|holder: (usize, Money)| holder.1)
}

/// What a tender gets back so far.
pub ghost struct Returned {
    /// Amount returned to it.
    pub amount: Money,
    /// Per-shop attribution of that amount.
    pub shops: Map<Seq<char>, Money>,
}

/// What a tender gets back once a share is added.
pub open spec fn with_return(
    before: Option<Returned>,
    shop: Seq<char>,
    share: Money,
    currency: Currency,
) -> Result<Returned, ErrorView> {
    let start = match before {
        Some(returned) => returned,
        None => Returned { amount: Money { minor: 0, currency }, shops: Map::empty() },
    };
    match start.amount.plus(share) {
        Err(error) => Err(error),
        Ok(amount) => match bumped(start.shops, shop, share, currency) {
            Err(error) => Err(error),
            Ok(shops) => Ok(Returned { amount, shops }),
        },
    }
}

/// What the tenders get back once the first `n` holders got their shares.
pub open spec fn after_holders(
    slots: Seq<Option<Returned>>,
    list: Seq<(usize, Money)>,
    shares: Seq<Money>,
    shop: Seq<char>,
    currency: Currency,
    n: int,
) -> Result<Seq<Option<Returned>>, ErrorView>
    decreases n,
{
    if n <= 0 {
        Ok(slots)
    } else {
        match after_holders(slots, list, shares, shop, currency, n - 1) {
            Err(error) => Err(error),
            Ok(before) => if shares[n - 1].minor == 0 {
                Ok(before)
            } else {
                let at = list[n - 1].0 as int;
                match with_return(before[at], shop, shares[n - 1], currency) {
                    Err(error) => Err(error),
                    Ok(returned) => Ok(before.update(at, Some(returned))),
                }
            },
        }
    }
}

/// What the tenders get back once a shop's share is split across those that still hold
/// something of what they paid it.
pub open spec fn shop_returns(
    order: Order,
    slots: Seq<Option<Returned>>,
    shop: ShopRefund,
) -> Result<Seq<Option<Returned>>, ErrorView> {
    if shop.customer_funded.minor <= 0 {
        Ok(slots)
    } else {
        match holders(order, shop.shop_id@, order.tenders@.len() as int) {
            Err(error) => Err(error),
            Ok(list) => match total(held(list), order.currency) {
                Err(error) => Err(error),
                Ok(available) => if shop.customer_funded.more_than(available) {
                    Err(
                        ErrorView::Internal(
                            "shop "@ + shop.shop_id@ + " needs "@ + shop.customer_funded.text()
                                + " refunded but its tenders only hold "@ + available.text(),
                        ),
                    )
                } else {
                    match weighted_allocation(shop.customer_funded, held(list)) {
                        Err(error) => Err(error),
                        Ok(shares) => after_holders(
                            slots,
                            list,
                            shares,
                            shop.shop_id@,
                            order.currency,
                            list.len() as int,
                        ),
                    }
                },
            },
        }
    }
}

/// What the tenders get back once the first `n` shops are settled.
pub open spec fn all_returns(order: Order, shops: Seq<ShopRefund>, n: int) -> Result<
    Seq<Option<Returned>>,
    ErrorView,
>
    decreases n,
{
    if n <= 0 {
        Ok(Seq::new(order.tenders@.len(), |i: int| None::<Returned>))
    } else {
        match all_returns(order, shops, n - 1) {
            Err(error) => Err(error),
            Ok(before) => shop_returns(order, before, shops[n - 1]),
        }
    }
}

/// The first `n` tenders that get something back, in order.
pub open spec fn return_list(
    tenders: Seq<PlannedTender>,
    slots: Seq<Option<Returned>>,
    n: int,
) -> Seq<ReturnView>
    decreases n,
{
    if n <= 0 {
        Seq::empty()
    } else {
        let before = return_list(tenders, slots, n - 1);
        match slots[n - 1] {
            None => before,
            Some(returned) => before.push(
                ReturnView {
                    tender_index: (n - 1) as usize,
                    kind: tenders[n - 1].kind,
                    amount: returned.amount,
                    shop_allocation: returned.shops,
                },
            ),
        }
    }
}

/// The first `n` funders that get something back, in the order of their accounts.
pub open spec fn reclaim_list(funders: Map<Seq<char>, Money>, n: int) -> Seq<ReclaimView>
    decreases n,
{
    if n <= 0 {
        Seq::empty()
    } else {
        let before = reclaim_list(funders, n - 1);
        let funder = listed(funders)[n - 1];
        if funders[funder].minor > 0 {
            before.push(ReclaimView { funder, amount: funders[funder] })
        } else {
            before
        }
    }
}

/// The tax that each shop no longer has to remit.
pub open spec fn refunded_taxes(shops: Seq<ShopRefund>) -> Seq<Money> {
    shops.map_values(|shop: ShopRefund| shop.tax)
}

/// What the shopper gets back of each shop.
pub open spec fn refunded_amounts(shops: Seq<ShopRefund>) -> Seq<Money> {
    shops.map_values(|shop: ShopRefund| shop.customer_funded)
}

/// What each funder gets back.
pub open spec fn reclaim_amounts(funders: Seq<ReclaimView>) -> Seq<Money> {
    funders.map_values(|funder: ReclaimView| funder.amount)
}

/// What each tender gets back.
pub open spec fn return_amounts(tenders: Seq<ReturnView>) -> Seq<Money> {
    tenders.map_values(|tender: ReturnView| tender.amount)
}

/// Whether what a shop gives back is what goes to the shopper and to funders.
pub open spec fn shop_refund_check(shop: ShopRefund) -> Result<(), ErrorView> {
    match shop.customer_funded.plus(shop.subsidy_funded) {
        Err(error) => Err(error),
        Ok(funded) => if funded != shop.gross {
            Err(
                ErrorView::Internal(
                    "shop "@ + shop.shop_id@ + " refund funding "@ + funded.text()
                        + " does not match gross "@ + shop.gross.text(),
                ),
            )
        } else {
            Ok(())
        },
    }
}

/// The check of the first `n` shops.
pub open spec fn shop_refunds_check(shops: Seq<ShopRefund>, n: int) -> Result<(), ErrorView>
    decreases n,
{
    if n <= 0 {
        Ok(())
    } else {
        match shop_refunds_check(shops, n - 1) {
            Err(error) => Err(error),
            Ok(_) => shop_refund_check(shops[n - 1]),
        }
    }
}

/// Whether a refund balances, and otherwise why not.
pub open spec fn refund_check(plan: RefundView) -> Result<(), ErrorView> {
    match total(refunded_amounts(plan.shops), plan.currency) {
        Err(error) => Err(error),
        Ok(customer) => if customer != plan.total {
            Err(
                ErrorView::Internal(
                    "refund shop shares "@ + customer.text() + " do not sum to the total "@
                        + plan.total.text(),
                ),
            )
        } else {
            match total(return_amounts(plan.tenders), plan.currency) {
                Err(error) => Err(error),
                Ok(tendered) => if tendered != plan.total {
                    Err(
                        ErrorView::Internal(
                            "refund tenders return "@ + tendered.text() + " but "@
                                + plan.total.text() + " is being refunded"@,
                        ),
                    )
                } else {
                    shop_refunds_check(plan.shops, plan.shops.len() as int)
                },
            }
        },
    }
}

/// The plan that a tally leads to.
pub open spec fn planned(order: Order, tally: Tally, refund_fee: bool) -> Result<
    RefundView,
    ErrorView,
> {
    let currency = order.currency;
    match total(amounts_listed(tally.customer), currency) {
        Err(error) => Err(error),
        Ok(amount) => if amount.minor <= 0 {
            Err(ErrorView::Validation("this refund would return nothing"@))
        } else {
            match order.refundable() {
                Err(error) => Err(error),
                Ok(left) => if amount.more_than(left) {
                    Err(over_refund(amount, left))
                } else {
                    match shop_refunds(
                        order.settlement.shops@,
                        tally,
                        refund_fee,
                        currency,
                        order.settlement.shops@.len() as int,
                    ) {
                        Err(error) => Err(error),
                        Ok(shops) => match all_returns(order, shops, shops.len() as int) {
                            Err(error) => Err(error),
                            Ok(slots) => assembled(order, tally, amount, shops, slots),
                        },
                    }
                },
            }
        },
    }
}

/// The plan that is put together of its parts, checked.
pub open spec fn assembled(
    order: Order,
    tally: Tally,
    amount: Money,
    shops: Seq<ShopRefund>,
    slots: Seq<Option<Returned>>,
) -> Result<RefundView, ErrorView> {
    let currency = order.currency;
    let funders = reclaim_list(tally.funders, listed(tally.funders).len() as int);
    match total(refunded_taxes(shops), currency) {
        Err(error) => Err(error),
        Ok(tax_refunded) => match total(reclaim_amounts(funders), currency) {
            Err(error) => Err(error),
            Ok(subsidy_reclaimed) => {
                let plan = RefundView {
                    currency,
                    total: amount,
                    tax_refunded,
                    subsidy_reclaimed,
                    lines: tally.lines,
                    shipping_groups: tally.shipping,
                    shops,
                    tenders: return_list(order.tenders@, slots, slots.len() as int),
                    funders,
                };
                match refund_check(plan) {
                    Err(error) => Err(error),
                    Ok(_) => Ok(plan),
                }
            },
        },
    }
}

/// The refund of an order.
pub open spec fn refund(order: Order, request: RefundRequest) -> Result<RefundView, ErrorView> {
    match tallied(order, request) {
        Err(error) => Err(error),
        Ok(tally) => planned(order, tally, request.refund_platform_fee),
    }
}

impl TallyState {
    fn new() -> (state: Self)
        ensures
            state@ == empty_tally(),
    {
        let state = TallyState {
            customer: OrderedMap::new(),
            subsidy: OrderedMap::new(),
            tax: OrderedMap::new(),
            gross: OrderedMap::new(),
            funders: OrderedMap::new(),
            lines: Vec::new(),
            shipping: Vec::new(),
        };
        assert(state@.lines =~= Seq::<RefundedLine>::empty());
        assert(state@.shipping =~= Seq::<FulfillmentGroupId>::empty());
        state
    }

    fn add_shop(
        &mut self,
        shop: &ShopId,
        customer: Money,
        subsidy: Money,
        tax: Money,
        gross: Money,
        currency: Currency,
    ) -> (done: Result<(), Error>)
        ensures
            match done {
                Ok(_) => with_shop_amounts(
                    old(self)@,
                    shop@,
                    customer,
                    subsidy,
                    tax,
                    gross,
                    currency,
                ) == Ok::<Tally, ErrorView>(final(self)@),
                Err(error) => with_shop_amounts(
                    old(self)@,
                    shop@,
                    customer,
                    subsidy,
                    tax,
                    gross,
                    currency,
                ) == Err::<Tally, ErrorView>(error@),
            },
    {
        let key = shop.as_str();
        match bump(&mut self.customer, key, customer, currency) {
            Ok(_) => {},
            Err(error) => return Err(error),
        }
        match bump(&mut self.subsidy, key, subsidy, currency) {
            Ok(_) => {},
            Err(error) => return Err(error),
        }
        match bump(&mut self.tax, key, tax, currency) {
            Ok(_) => {},
            Err(error) => return Err(error),
        }
        match bump(&mut self.gross, key, gross, currency) {
            Ok(_) => {},
            Err(error) => return Err(error),
        }
        Ok(())
    }

    fn reclaim(&mut self, discounts: &Vec<AppliedDiscount>, subsidy: Money, currency: Currency) -> (
    done: Result<(), Error>)
        ensures
            match done {
                Ok(_) => reclaimed(old(self)@.funders, discounts@, subsidy, currency) == Ok::<
                    Map<Seq<char>, Money>,
                    ErrorView,
                >(final(self)@.funders) && final(self)@ == (Tally {
                    funders: final(self)@.funders,
                    ..old(self)@
                }),
                Err(error) => reclaimed(old(self)@.funders, discounts@, subsidy, currency) == Err::<
                    Map<Seq<char>, Money>,
                    ErrorView,
                >(error@),
            },
    {
        if !subsidy.is_positive() {
            return Ok(());
        }
        let ghost list = subsidised(discounts@);
        let mut weights: Vec<Money> = Vec::new();
        let mut funders: Vec<&AccountId> = Vec::new();
        let mut n: usize = 0;
        assert(discounts@.take(0) =~= Seq::<AppliedDiscount>::empty());
        assert(weights@ =~= discounted_by(subsidised(discounts@.take(0))));
        while n < discounts.len()
            invariant
                *self == *old(self),
                n <= discounts@.len(),
                weights@ == discounted_by(subsidised(discounts@.take(n as int))),
                funders@.len() == weights@.len(),
                forall|k: int|
                    0 <= k < funders@.len() ==> subsidised(
                        discounts@.take(n as int),
                    )[k].funding.payer() == Some(*(#[trigger] funders@[k])),
            decreases discounts@.len() - n,
        {
            assert(discounts@.take(n + 1).drop_last() =~= discounts@.take(n as int));
            let ghost before = subsidised(discounts@.take(n as int));
            let ghost seen = funders@;
            if let Some(funder) = discounts[n].funding.funder() {
                weights.push(discounts[n].amount);
                funders.push(funder);
                assert(subsidised(discounts@.take(n + 1)) == before.push(discounts@[n as int]));
                assert forall|k: int| 0 <= k < funders@.len() implies subsidised(
                    discounts@.take(n + 1),
                )[k].funding.payer() == Some(*(#[trigger] funders@[k])) by {
                    if k < seen.len() {
                        assert(funders@[k] == seen[k]);
                    }
                }
            }
            assert(weights@ =~= discounted_by(subsidised(discounts@.take(n + 1))));
            n += 1;
        }
        assert(discounts@.take(n as int) =~= discounts@);
        let shares = match allocate_by_weights(subsidy, weights.as_slice()) {
            Ok(shares) => shares,
            Err(error) => return Err(error),
        };
        proof {
            law_good_weights(subsidy, weights@);
            law_allocation_succeeds(subsidy, minors(weights@));
        }
        let ghost start = self.funders@;
        let mut k: usize = 0;
        while k < funders.len()
            invariant
                k <= funders@.len(),
                list == subsidised(discounts@),
                funders@.len() == list.len(),
                shares@.len() == list.len(),
                forall|i: int|
                    0 <= i < funders@.len() ==> list[i].funding.payer() == Some(
                        *(#[trigger] funders@[i]),
                    ),
                start == old(self)@.funders,
                subsidy.minor > 0,
                weighted_allocation(subsidy, discounted_by(list)) == Ok::<Seq<Money>, ErrorView>(
                    shares@,
                ),
                self@ == (Tally { funders: self@.funders, ..old(self)@ }),
                credited(start, list, shares@, currency, k as int) == Ok::<
                    Map<Seq<char>, Money>,
                    ErrorView,
                >(self@.funders),
            decreases funders@.len() - k,
        {
            assert(list[k as int].funding.payer() == Some(*funders@[k as int]));
            match bump(&mut self.funders, funders[k].as_str(), shares[k], currency) {
                Ok(_) => {},
                Err(error) => {
                    proof {
                        lemma_error_stays(
                            |k: int| credited(start, list, shares@, currency, k),
                            k + 1,
                            list.len() as int,
                        );
                    }
                    return Err(error);
                },
            }
            k += 1;
        }
        Ok(())
    }

    fn add_line(
        &mut self,
        line: &PricedLine,
        already: usize,
        wanted: u32,
        currency: Currency,
    ) -> (done: Result<(), Error>)
        requires
            wanted > 0,
            already + wanted <= line.quantity,
        ensures
            match done {
                Ok(_) => with_line(old(self)@, *line, already as int, wanted, currency) == Ok::<
                    Tally,
                    ErrorView,
                >(final(self)@),
                Err(error) => with_line(old(self)@, *line, already as int, wanted, currency)
                    == Err::<Tally, ErrorView>(error@),
            },
    {
        // Split each line total into exact per-unit shares so that
        // repeated partial refunds always sum back to the whole.
        let units: usize = line.quantity as usize;
        let to: usize = already + wanted as usize;
        let customer = match sum_units(line.customer_total, units, already, to, currency) {
            Ok(amount) => amount,
            Err(error) => return Err(error),
        };
        let subsidy = match sum_units(line.subsidy_discount, units, already, to, currency) {
            Ok(amount) => amount,
            Err(error) => return Err(error),
        };
        let tax = match sum_units(line.tax, units, already, to, currency) {
            Ok(amount) => amount,
            Err(error) => return Err(error),
        };
        // What the shopper and the funders get back is what the shop gives back; a split
        // of its own could round another way.
        let merchant = match customer.try_add(subsidy) {
            Ok(amount) => amount,
            Err(error) => return Err(error),
        };
        match self.add_shop(&line.shop_id, customer, subsidy, tax, merchant, currency) {
            Ok(_) => {},
            Err(error) => return Err(error),
        }
        // Attribute the reclaimed subsidy to the funders that paid.
        match self.reclaim(&line.discounts, subsidy, currency) {
            Ok(_) => {},
            Err(error) => return Err(error),
        }
        self.lines.push(
            RefundedLine {
                line_id: line.line_id.clone(),
                shop_id: line.shop_id.clone(),
                quantity: wanted,
                customer_amount: customer,
                subsidy_amount: subsidy,
                tax_amount: tax,
                merchant_amount: merchant,
            },
        );
        Ok(())
    }

    fn add_charge(&mut self, charge: &PricedShipping, currency: Currency) -> (done: Result<
        (),
        Error,
    >)
        ensures
            ({
                let shops = with_shop_amounts(
                    old(self)@,
                    charge.shop_id@,
                    charge.customer_total,
                    charge.subsidy_discount,
                    charge.tax,
                    charge.merchant_gross,
                    currency,
                );
                let funders = credited_whole(
                    old(self)@.funders,
                    charge.discounts@,
                    currency,
                    charge.discounts@.len() as int,
                );
                match done {
                    Ok(_) => shops is Ok && funders is Ok && final(self)@ == (Tally {
                        funders: funders->Ok_0,
                        shipping: old(self)@.shipping.push(charge.group_id),
                        ..shops->Ok_0
                    }),
                    Err(error) => (shops is Err && shops->Err_0 == error@) || (shops is Ok
                        && funders is Err && funders->Err_0 == error@),
                }
            }),
    {
        match self.add_shop(
            &charge.shop_id,
            charge.customer_total,
            charge.subsidy_discount,
            charge.tax,
            charge.merchant_gross,
            currency,
        ) {
            Ok(_) => {},
            Err(error) => return Err(error),
        }
        let ghost middle = self@;
        let ghost start = self.funders@;
        let ghost list = charge.discounts@;
        let mut n: usize = 0;
        while n < charge.discounts.len()
            invariant
                list == charge.discounts@,
                n <= list.len(),
                start == old(self)@.funders,
                with_shop_amounts(
                    old(self)@,
                    charge.shop_id@,
                    charge.customer_total,
                    charge.subsidy_discount,
                    charge.tax,
                    charge.merchant_gross,
                    currency,
                ) == Ok::<Tally, ErrorView>(middle),
                self@ == (Tally { funders: self@.funders, ..middle }),
                credited_whole(start, list, currency, n as int) == Ok::<
                    Map<Seq<char>, Money>,
                    ErrorView,
                >(self@.funders),
            decreases list.len() - n,
        {
            if let Some(funder) = charge.discounts[n].funding.funder() {
                match bump(
                    &mut self.funders,
                    funder.as_str(),
                    charge.discounts[n].amount,
                    currency,
                ) {
                    Ok(_) => {},
                    Err(error) => {
                        proof {
                            lemma_error_stays(
                                |k: int| credited_whole(start, list, currency, k),
                                n + 1,
                                list.len() as int,
                            );
                        }
                        return Err(error);
                    },
                }
            }
            n += 1;
        }
        self.shipping.push(charge.group_id.clone());
        Ok(())
    }
}

fn has_group(groups: &Vec<FulfillmentGroupId>, group: &FulfillmentGroupId) -> (found: bool)
    ensures
        found == lists_group(groups@, group@),
{
    let mut i: usize = 0;
    while i < groups.len()
        invariant
            i <= groups@.len(),
            forall|j: int| 0 <= j < i ==> (#[trigger] groups@[j])@ != group@,
        decreases groups@.len() - i,
    {
        if groups[i].same(group) {
            return true;
        }
        i += 1;
    }
    false
}

fn is_charge_refunded(order: &Order, group: &FulfillmentGroupId) -> (refunded: bool)
    ensures
        refunded == charge_refunded(*order, group@),
{
    let mut i: usize = 0;
    while i < order.refunds.len()
        invariant
            i <= order.refunds@.len(),
            forall|j: int|
                0 <= j < i ==> !lists_group(
                    (#[trigger] order.refunds@[j]).plan.shipping_groups@,
                    group@,
                ),
        decreases order.refunds@.len() - i,
    {
        if has_group(&order.refunds[i].plan.shipping_groups, group) {
            return true;
        }
        i += 1;
    }
    false
}

fn is_shipment_returned(
    order: &Order,
    group: &FulfillmentGroupId,
    now: &Vec<RefundedLine>,
) -> (returned: bool)
    ensures
        returned == shipment_returned(*order, group@, now@),
{
    let mut i: usize = 0;
    while i < order.quote.lines.len()
        invariant
            i <= order.quote.lines@.len(),
            forall|j: int|
                0 <= j < i && in_group(
                    (#[trigger] order.quote.lines@[j]).fulfillment_group_id,
                    group@,
                ) ==> line_returned(*order, order.quote.lines@[j], now@),
        decreases order.quote.lines@.len() - i,
    {
        let line = &order.quote.lines[i];
        if is_in_group(&line.fulfillment_group_id, group) {
            let before = order.refunded_so_far(&line.line_id);
            let count = count_units(now, &line.line_id, before);
            assert(before == saturated(refunded_units(order.refunds@, line.line_id@)));
            assert(count == saturated(
                refunded_units(order.refunds@, line.line_id@) + line_units(now@, line.line_id@),
            ));
            if count < line.quantity as u64 {
                assert(!line_returned(*order, order.quote.lines@[i as int], now@));
                return false;
            }
        }
        i += 1;
    }
    true
}

/// The view of optional requested units.
spec fn requested_view(requested: Option<OrderedMap<u32>>) -> Option<Map<Seq<char>, u32>> {
    match requested {
        Some(map) => Some(map@),
        None => None,
    }
}

fn gather_units(
    order: &Order,
    requested: &Option<OrderedMap<u32>>,
    refund_shipping: bool,
) -> (state: Result<TallyState, Error>)
    ensures
        ({
            let wanted = requested_view(*requested);
            match state {
                Ok(made) => units_tally(*order, wanted, refund_shipping) == Ok::<
                    Tally,
                    ErrorView,
                >(made@),
                Err(error) => units_tally(*order, wanted, refund_shipping) == Err::<
                    Tally,
                    ErrorView,
                >(error@),
            }
        }),
{
    let ghost wanted = requested_view(*requested);
    let ghost lines = order.quote.lines@;
    let mut state = TallyState::new();
    let mut n: usize = 0;
    while n < order.quote.lines.len()
        invariant
            lines == order.quote.lines@,
            wanted == requested_view(*requested),
            n <= lines.len(),
            after_lines(*order, wanted, n as int) == Ok::<Tally, ErrorView>(state@),
        decreases lines.len() - n,
    {
        proof {
            if after_lines(*order, wanted, n + 1) is Err {
                lemma_error_stays(
                    |k: int| after_lines(*order, wanted, k),
                    n + 1,
                    lines.len() as int,
                );
            }
        }
        let line = &order.quote.lines[n];
        let already = order.refunded_so_far(&line.line_id);
        let left: u32 = if already >= line.quantity as u64 {
            0
        } else {
            line.quantity - already as u32
        };
        let units: u32 = match requested {
            Some(map) => match map.get(line.line_id.as_str()) {
                Some(quantity) => *quantity,
                None => 0,
            },
            None => left,
        };
        if units > 0 {
            if units > left {
                let mut message = "cannot refund ".to_owned();
                push_digits(&mut message, units as u64);
                message.append(" units of ");
                message.append(line.line_id.as_str());
                message.append(": only ");
                push_digits(&mut message, left as u64);
                message.append(" remain");
                return Err(Error::validation(message.as_str()));
            }
            match state.add_line(line, already as usize, units, order.currency) {
                Ok(_) => {},
                Err(error) => return Err(error),
            }
        }
        n += 1;
    }
    if refund_shipping {
        let ghost from = state@;
        let ghost charges = order.quote.shipping@;
        let mut k: usize = 0;
        while k < order.quote.shipping.len()
            invariant
                charges == order.quote.shipping@,
                refund_shipping,
                wanted == requested_view(*requested),
                after_lines(*order, wanted, order.quote.lines@.len() as int) == Ok::<
                    Tally,
                    ErrorView,
                >(from),
                k <= charges.len(),
                after_charges(*order, from, k as int) == Ok::<Tally, ErrorView>(state@),
            decreases charges.len() - k,
        {
            proof {
                if after_charges(*order, from, k + 1) is Err {
                    lemma_error_stays(
                        |k: int| after_charges(*order, from, k),
                        k + 1,
                        charges.len() as int,
                    );
                }
            }
            let charge = &order.quote.shipping[k];
            if !is_charge_refunded(order, &charge.group_id) {
                // Only refund shipping once every item in the shipment
                // has been returned.
                if is_shipment_returned(order, &charge.group_id, &state.lines) {
                    if !charge.customer_total.is_zero() || !charge.merchant_gross.is_zero() {
                        match state.add_charge(charge, order.currency) {
                            Ok(_) => {},
                            Err(error) => return Err(error),
                        }
                    }
                }
            }
            k += 1;
        }
    }
    Ok(state)
}

fn remaining_customer_for_shop(order: &Order, shop_id: &ShopId) -> (left: Result<Money, Error>)
    ensures
        outcome(left) == still_paid(*order, shop_id@),
{
    let paid = match order.settlement.shop(shop_id) {
        Some(shop) => shop.funded_by_customer,
        None => Money::zero(order.currency),
    };
    let ghost refunds = order.refunds@;
    let mut returned = Money::zero(order.currency);
    let mut n: usize = 0;
    while n < order.refunds.len()
        invariant
            refunds == order.refunds@,
            n <= refunds.len(),
            returned_by_shop(refunds, shop_id@, order.currency, n as int) == Ok::<
                Money,
                ErrorView,
            >(returned),
        decreases refunds.len() - n,
    {
        let shops = &order.refunds[n].plan.shops;
        let ghost from = returned;
        let mut k: usize = 0;
        while k < shops.len()
            invariant
                refunds == order.refunds@,
                n < refunds.len(),
                *shops == refunds[n as int].plan.shops,
                returned_by_shop(refunds, shop_id@, order.currency, n as int) == Ok::<
                    Money,
                    ErrorView,
                >(from),
                k <= shops@.len(),
                shop_returned(shops@, shop_id@, from, k as int) == Ok::<Money, ErrorView>(
                    returned,
                ),
            decreases shops@.len() - k,
        {
            if shops[k].shop_id.same(shop_id) {
                returned = match returned.try_add(shops[k].customer_funded) {
                    Ok(sum) => sum,
                    Err(error) => {
                        proof {
                            lemma_error_stays(
                                |k: int| shop_returned(shops@, shop_id@, from, k),
                                k + 1,
                                shops@.len() as int,
                            );
                            lemma_error_stays(
                                |k: int| returned_by_shop(refunds, shop_id@, order.currency, k),
                                n + 1,
                                refunds.len() as int,
                            );
                        }
                        return Err(error);
                    },
                };
            }
            k += 1;
        }
        n += 1;
    }
    match paid.try_sub(returned) {
        Ok(left) => Ok(left.clamp_non_negative()),
        Err(error) => Err(error),
    }
}

fn refuse_over_refund(amount: Money, left: Money) -> (error: Error)
    ensures
        error@ == over_refund(amount, left),
{
    let mut message = join3("cannot refund ", amount.to_text().as_str(), ": only ");
    message.append(left.to_text().as_str());
    message.append(" remains refundable");
    Error::validation(message.as_str())
}

fn gather_amount(order: &Order, amount: Money) -> (state: Result<TallyState, Error>)
    ensures
        match state {
            Ok(made) => amount_tally(*order, amount) == Ok::<Tally, ErrorView>(made@),
            Err(error) => amount_tally(*order, amount) == Err::<Tally, ErrorView>(error@),
        },
{
    let currency = order.currency;
    if !amount.is_positive() {
        return Err(Error::validation("refund amount must be positive"));
    }
    let left = match order.refundable_amount() {
        Ok(left) => left,
        Err(error) => return Err(error),
    };
    if amount.exceeds(left) {
        return Err(refuse_over_refund(amount, left));
    }
    let ghost shops = order.settlement.shops@;
    let ghost all = shop_weights(*order);
    let mut weights: Vec<Money> = Vec::new();
    let mut i: usize = 0;
    while i < order.settlement.shops.len()
        invariant
            shops == order.settlement.shops@,
            all == shop_weights(*order),
            currency == order.currency,
            i <= shops.len(),
            weights@ == all.take(i as int),
        decreases shops.len() - i,
    {
        let weight = match remaining_customer_for_shop(
            order,
            &order.settlement.shops[i].shop_id,
        ) {
            Ok(left) => left,
            Err(_) => Money::zero(currency),
        };
        assert(all[i as int] == weight);
        weights.push(weight);
        i += 1;
        assert(weights@ =~= all.take(i as int));
    }
    assert(weights@ =~= all);
    let shares = match allocate_by_weights(amount, weights.as_slice()) {
        Ok(shares) => shares,
        Err(error) => return Err(error),
    };
    proof {
        law_good_weights(amount, weights@);
        law_allocation_succeeds(amount, minors(weights@));
    }
    let mut state = TallyState::new();
    let mut n: usize = 0;
    while n < order.settlement.shops.len()
        invariant
            shops == order.settlement.shops@,
            currency == order.currency,
            shares@.len() == shops.len(),
            amount.minor > 0,
            order.refundable() == Ok::<Money, ErrorView>(left),
            !amount.more_than(left),
            weighted_allocation(amount, shop_weights(*order)) == Ok::<Seq<Money>, ErrorView>(
                shares@,
            ),
            n <= shops.len(),
            after_shares(shops, shares@, currency, n as int) == Ok::<Tally, ErrorView>(state@),
        decreases shops.len() - n,
    {
        proof {
            if after_shares(shops, shares@, currency, n + 1) is Err {
                lemma_error_stays(
                    |k: int| after_shares(shops, shares@, currency, k),
                    n + 1,
                    shops.len() as int,
                );
            }
        }
        let shop = &order.settlement.shops[n];
        let share = shares[n];
        if !share.is_zero() {
            let key = shop.shop_id.as_str();
            match bump(&mut state.customer, key, share, currency) {
                Ok(_) => {},
                Err(error) => return Err(error),
            }
            match bump(&mut state.gross, key, share, currency) {
                Ok(_) => {},
                Err(error) => return Err(error),
            }
            // Tax is prorated out of the shop's own effective tax rate.
            let tax = if shop.gross.is_zero() {
                Money::zero(currency)
            } else {
                match share.mul_ratio(shop.tax.minor(), shop.gross.minor(), Rounding::HalfUp) {
                    Ok(tax) => tax,
                    Err(error) => return Err(error),
                }
            };
            match bump(&mut state.tax, key, tax, currency) {
                Ok(_) => {},
                Err(error) => return Err(error),
            }
        }
        n += 1;
    }
    Ok(state)
}

fn gather(order: &Order, request: &RefundRequest) -> (state: Result<TallyState, Error>)
    ensures
        match state {
            Ok(made) => tallied(*order, *request) == Ok::<Tally, ErrorView>(made@),
            Err(error) => tallied(*order, *request) == Err::<Tally, ErrorView>(error@),
        },
{
    match &request.scope {
        RefundScope::Full => gather_units(order, &None, request.refund_shipping),
        RefundScope::Lines { lines } => {
            let mut map: OrderedMap<u32> = OrderedMap::new();
            let mut n: usize = 0;
            while n < lines.len()
                invariant
                    n <= lines@.len(),
                    map@ == requested_units(lines@, n as int),
                decreases lines@.len() - n,
            {
                map.insert(lines[n].line_id.to_text(), lines[n].quantity);
                n += 1;
            }
            gather_units(order, &Some(map), request.refund_shipping)
        },
        RefundScope::Amount { amount } => gather_amount(order, *amount),
    }
}

fn refund_of_shop(
    shop: &ShopSettlement,
    state: &TallyState,
    refund_fee: bool,
    currency: Currency,
) -> (refund: Result<Option<ShopRefund>, Error>)
    ensures
        outcome(refund) == shop_refund(*shop, state@, refund_fee, currency),
{
    let key = shop.shop_id.as_str();
    let customer = get_amount(&state.customer, key, currency);
    let subsidy = get_amount(&state.subsidy, key, currency);
    let funded = match customer.try_add(subsidy) {
        Ok(funded) => funded,
        Err(error) => return Err(error),
    };
    let gross = match get_amount(&state.gross, key, currency).try_max(funded) {
        Ok(gross) => gross,
        Err(error) => return Err(error),
    };
    if gross.is_zero() {
        return Ok(None);
    }
    let fee = if refund_fee && shop.platform_fee.is_positive() && shop.gross.is_positive() {
        match shop.platform_fee.mul_ratio(gross.minor(), shop.gross.minor(), Rounding::HalfUp) {
            Ok(fee) => fee,
            Err(error) => return Err(error),
        }
    } else {
        Money::zero(currency)
    };
    let net = match gross.try_sub(fee) {
        Ok(net) => net,
        Err(error) => return Err(error),
    };
    Ok(
        Some(
            ShopRefund {
                shop_id: shop.shop_id.clone(),
                account_id: shop.account_id.clone(),
                gross,
                tax: get_amount(&state.tax, key, currency),
                platform_fee_returned: fee,
                net,
                customer_funded: customer,
                subsidy_funded: subsidy,
            },
        ),
    )
}

struct ReturnState {
    amount: Money,
    shops: OrderedMap<Money>,
}

spec fn returned_view(state: Option<ReturnState>) -> Option<Returned> {
    match state {
        Some(returned) => Some(Returned { amount: returned.amount, shops: returned.shops@ }),
        None => None,
    }
}

spec fn returned_views(list: Seq<Option<ReturnState>>) -> Seq<Option<Returned>> {
    list.map_values(|state: Option<ReturnState>| returned_view(state))
}

fn add_return(
    before: Option<ReturnState>,
    shop: &ShopId,
    share: Money,
    currency: Currency,
) -> (after: Result<ReturnState, Error>)
    ensures
        match after {
            Ok(state) => with_return(returned_view(before), shop@, share, currency) == Ok::<
                Returned,
                ErrorView,
            >(Returned { amount: state.amount, shops: state.shops@ }),
            Err(error) => with_return(returned_view(before), shop@, share, currency) == Err::<
                Returned,
                ErrorView,
            >(error@),
        },
{
    let start = match before {
        Some(state) => state,
        None => ReturnState { amount: Money::zero(currency), shops: OrderedMap::new() },
    };
    let amount = match start.amount.try_add(share) {
        Ok(amount) => amount,
        Err(error) => return Err(error),
    };
    let mut shops = start.shops;
    match bump(&mut shops, shop.as_str(), share, currency) {
        Ok(_) => {},
        Err(error) => return Err(error),
    }
    Ok(ReturnState { amount, shops })
}

fn list_holders(order: &Order, shop: &ShopId) -> (list: Result<Vec<(usize, Money)>, Error>)
    ensures
        list_outcome(list) == holders(*order, shop@, order.tenders@.len() as int),
        list matches Ok(found) ==> forall|i: int|
            0 <= i < found@.len() ==> (#[trigger] found@[i]).0 < order.tenders@.len(),
{
    let mut list: Vec<(usize, Money)> = Vec::new();
    let mut n: usize = 0;
    while n < order.tenders.len()
        invariant
            n <= order.tenders@.len(),
            holders(*order, shop@, n as int) == Ok::<Seq<(usize, Money)>, ErrorView>(list@),
            forall|i: int| 0 <= i < list@.len() ==> (#[trigger] list@[i]).0 < order.tenders@.len(),
        decreases order.tenders@.len() - n,
    {
        proof {
            if holders(*order, shop@, n + 1) is Err {
                lemma_error_stays(
                    |k: int| holders(*order, shop@, k),
                    n + 1,
                    order.tenders@.len() as int,
                );
            }
        }
        let paid = order.tenders[n].amount_for_shop(shop, order.currency);
        let already = match order.refunded_from_tender(n, shop) {
            Ok(already) => already,
            Err(error) => return Err(error),
        };
        let left = match paid.try_sub(already) {
            Ok(left) => left.clamp_non_negative(),
            Err(error) => return Err(error),
        };
        let ghost seen = list@;
        if left.is_positive() {
            list.push((n, left));
            assert forall|i: int| 0 <= i < list@.len() implies (#[trigger] list@[i]).0
                < order.tenders@.len() by {
                if i < seen.len() {
                    assert(list@[i] == seen[i]);
                }
            }
        }
        n += 1;
    }
    Ok(list)
}

fn return_shop(order: &Order, slots: &mut Vec<Option<ReturnState>>, shop: &ShopRefund) -> (
done: Result<(), Error>)
    requires
        old(slots)@.len() == order.tenders@.len(),
    ensures
        final(slots)@.len() == old(slots)@.len(),
        match done {
            Ok(_) => shop_returns(*order, returned_views(old(slots)@), *shop) == Ok::<
                Seq<Option<Returned>>,
                ErrorView,
            >(returned_views(final(slots)@)),
            Err(error) => shop_returns(*order, returned_views(old(slots)@), *shop) == Err::<
                Seq<Option<Returned>>,
                ErrorView,
            >(error@),
        },
{
    if !shop.customer_funded.is_positive() {
        return Ok(());
    }
    let currency = order.currency;
    let ghost start = returned_views(slots@);
    let list = match list_holders(order, &shop.shop_id) {
        Ok(list) => list,
        Err(error) => return Err(error),
    };
    let ghost weights_held = held(list@);
    let mut weights: Vec<Money> = Vec::new();
    let mut i: usize = 0;
    while i < list.len()
        invariant
            *slots == *old(slots),
            i <= list@.len(),
            weights_held == held(list@),
            weights@ == weights_held.take(i as int),
        decreases list@.len() - i,
    {
        weights.push(list[i].1);
        i += 1;
        assert(weights@ =~= weights_held.take(i as int));
    }
    assert(weights@ =~= weights_held);
    let available = match Money::sum(weights.as_slice(), currency) {
        Ok(available) => available,
        Err(error) => return Err(error),
    };
    if shop.customer_funded.exceeds(available) {
        let mut message = join3("shop ", shop.shop_id.as_str(), " needs ");
        message.append(shop.customer_funded.to_text().as_str());
        message.append(" refunded but its tenders only hold ");
        message.append(available.to_text().as_str());
        return Err(Error::internal(message.as_str()));
    }
    let shares = match allocate_by_weights(shop.customer_funded, weights.as_slice()) {
        Ok(shares) => shares,
        Err(error) => return Err(error),
    };
    proof {
        law_good_weights(shop.customer_funded, weights@);
        law_allocation_succeeds(shop.customer_funded, minors(weights@));
    }
    let ghost target = shop_returns(*order, start, *shop);
    let mut n: usize = 0;
    while n < list.len()
        invariant
            slots@.len() == order.tenders@.len(),
            old(slots)@.len() == order.tenders@.len(),
            currency == order.currency,
            shares@.len() == list@.len(),
            forall|k: int| 0 <= k < list@.len() ==> (#[trigger] list@[k]).0 < order.tenders@.len(),
            start == returned_views(old(slots)@),
            target == shop_returns(*order, start, *shop),
            target == after_holders(
                start,
                list@,
                shares@,
                shop.shop_id@,
                currency,
                list@.len() as int,
            ),
            n <= list@.len(),
            after_holders(start, list@, shares@, shop.shop_id@, currency, n as int) == Ok::<
                Seq<Option<Returned>>,
                ErrorView,
            >(returned_views(slots@)),
        decreases list@.len() - n,
    {
        proof {
            if after_holders(start, list@, shares@, shop.shop_id@, currency, n + 1) is Err {
                lemma_error_stays(
                    |k: int| after_holders(start, list@, shares@, shop.shop_id@, currency, k),
                    n + 1,
                    list@.len() as int,
                );
            }
        }
        if !shares[n].is_zero() {
            let at = list[n].0;
            assert(list@[n as int].0 < order.tenders@.len());
            let ghost before = slots@;
            let mut slot: Option<ReturnState> = None;
            std::mem::swap(&mut slot, &mut slots[at]);
            assert(returned_views(before)[at as int] == returned_view(before[at as int]));
            let state = match add_return(slot, &shop.shop_id, shares[n], currency) {
                Ok(state) => state,
                Err(error) => return Err(error),
            };
            slots.set(at, Some(state));
            assert(returned_views(slots@) =~= returned_views(before).update(
                at as int,
                Some(Returned { amount: state.amount, shops: state.shops@ }),
            ));
        }
        n += 1;
    }
    Ok(())
}

fn list_returns(order: &Order, slots: Vec<Option<ReturnState>>) -> (list: Vec<TenderRefund>)
    requires
        slots@.len() == order.tenders@.len(),
    ensures
        return_views(list@) == return_list(
            order.tenders@,
            returned_views(slots@),
            slots@.len() as int,
        ),
{
    let ghost views = returned_views(slots@);
    let ghost all = slots@;
    let count = slots.len();
    let mut rest = slots;
    let mut list: Vec<TenderRefund> = Vec::new();
    let mut n: usize = 0;
    assert(return_views(list@) =~= Seq::<ReturnView>::empty());
    while n < count
        invariant
            n <= count,
            count == order.tenders@.len(),
            all.len() == count,
            rest@.len() == count,
            views == returned_views(all),
            forall|i: int| n <= i < count ==> #[trigger] rest@[i] == all[i],
            return_views(list@) == return_list(order.tenders@, views, n as int),
        decreases count - n,
    {
        let ghost before = return_views(list@);
        let mut slot: Option<ReturnState> = None;
        assert(rest@[n as int] == all[n as int]);
        std::mem::swap(&mut slot, &mut rest[n]);
        assert(views[n as int] == returned_view(slot));
        if let Some(state) = slot {
            let refund = TenderRefund {
                tender_index: n,
                kind: order.tenders[n].kind.clone(),
                amount: state.amount,
                shop_allocation: state.shops,
            };
            let ghost view = refund@;
            list.push(refund);
            assert(return_views(list@) =~= before.push(view));
        }
        n += 1;
    }
    list
}

fn list_reclaims(funders: &OrderedMap<Money>) -> (list: Vec<FunderRefund>)
    ensures
        reclaim_views(list@) == reclaim_list(funders@, listed(funders@).len() as int),
{
    let count = funders.len();
    let mut list: Vec<FunderRefund> = Vec::new();
    let mut n: usize = 0;
    assert(reclaim_views(list@) =~= Seq::<ReclaimView>::empty());
    while n < count
        invariant
            n <= count,
            count == funders.keys().len(),
            funders.keys() == listed(funders@),
            reclaim_views(list@) == reclaim_list(funders@, n as int),
        decreases count - n,
    {
        let ghost before = reclaim_views(list@);
        let amount = *funders.value_at(n);
        if amount.is_positive() {
            let refund = FunderRefund {
                funder: AccountId::from_string(funders.key_at(n)),
                amount,
            };
            let ghost view = refund@;
            list.push(refund);
            assert(reclaim_views(list@) =~= before.push(view));
        }
        n += 1;
    }
    list
}

impl RefundPlan {
    /// Compute a balanced refund for `order`.
    pub fn build(order: &Order, request: &RefundRequest) -> (plan: Result<Self, Error>)
        ensures
            refund_outcome(plan) == refund(*order, *request),
    {
        let currency = order.currency;
        let state = match gather(order, request) {
            Ok(state) => state,
            Err(error) => return Err(error),
        };
        let amount = match sum_amounts(&state.customer, currency) {
            Ok(amount) => amount,
            Err(error) => return Err(error),
        };
        if !amount.is_positive() {
            return Err(Error::validation("this refund would return nothing"));
        }
        let left = match order.refundable_amount() {
            Ok(left) => left,
            Err(error) => return Err(error),
        };
        if amount.exceeds(left) {
            return Err(refuse_over_refund(amount, left));
        }
        // Per-shop aggregation, with the returned platform commission.
        let shops = match Self::build_shops(order, &state, request.refund_platform_fee) {
            Ok(shops) => shops,
            Err(error) => return Err(error),
        };
        // Split what goes back to the shopper across the tenders that paid,
        // proportionally to what each tender still has outstanding per shop.
        let slots = match Self::build_returns(order, &shops) {
            Ok(slots) => slots,
            Err(error) => return Err(error),
        };
        Self::assemble(order, state, amount, shops, slots)
    }

    fn build_shops(order: &Order, state: &TallyState, refund_fee: bool) -> (shops: Result<
        Vec<ShopRefund>,
        Error,
    >)
        ensures
            list_outcome(shops) == shop_refunds(
                order.settlement.shops@,
                state@,
                refund_fee,
                order.currency,
                order.settlement.shops@.len() as int,
            ),
    {
        let currency = order.currency;
        let ghost list = order.settlement.shops@;
        let mut shops: Vec<ShopRefund> = Vec::new();
        let mut n: usize = 0;
        while n < order.settlement.shops.len()
            invariant
                list == order.settlement.shops@,
                currency == order.currency,
                n <= list.len(),
                shop_refunds(list, state@, refund_fee, currency, n as int) == Ok::<
                    Seq<ShopRefund>,
                    ErrorView,
                >(shops@),
            decreases list.len() - n,
        {
            proof {
                if shop_refunds(list, state@, refund_fee, currency, n + 1) is Err {
                    lemma_error_stays(
                        |k: int| shop_refunds(list, state@, refund_fee, currency, k),
                        n + 1,
                        list.len() as int,
                    );
                }
            }
            match refund_of_shop(&order.settlement.shops[n], state, refund_fee, currency) {
                Ok(refund) => match refund {
                    Some(refund) => {
                        shops.push(refund);
                    },
                    None => {},
                },
                Err(error) => return Err(error),
            }
            n += 1;
        }
        Ok(shops)
    }

    fn build_returns(order: &Order, shops: &Vec<ShopRefund>) -> (slots: Result<
        Vec<Option<ReturnState>>,
        Error,
    >)
        ensures
            match slots {
                Ok(list) => list@.len() == order.tenders@.len() && all_returns(
                    *order,
                    shops@,
                    shops@.len() as int,
                ) == Ok::<Seq<Option<Returned>>, ErrorView>(returned_views(list@)),
                Err(error) => all_returns(*order, shops@, shops@.len() as int) == Err::<
                    Seq<Option<Returned>>,
                    ErrorView,
                >(error@),
            },
    {
        let mut slots: Vec<Option<ReturnState>> = Vec::new();
        let mut i: usize = 0;
        while i < order.tenders.len()
            invariant
                i <= order.tenders@.len(),
                slots@.len() == i,
                forall|j: int| 0 <= j < i ==> #[trigger] slots@[j] is None,
            decreases order.tenders@.len() - i,
        {
            slots.push(None);
            i += 1;
        }
        assert(returned_views(slots@) =~= Seq::new(
            order.tenders@.len(),
            |i: int| None::<Returned>,
        ));
        let mut n: usize = 0;
        while n < shops.len()
            invariant
                n <= shops@.len(),
                slots@.len() == order.tenders@.len(),
                all_returns(*order, shops@, n as int) == Ok::<Seq<Option<Returned>>, ErrorView>(
                    returned_views(slots@),
                ),
            decreases shops@.len() - n,
        {
            proof {
                if all_returns(*order, shops@, n + 1) is Err {
                    lemma_error_stays(
                        |k: int| all_returns(*order, shops@, k),
                        n + 1,
                        shops@.len() as int,
                    );
                }
            }
            match return_shop(order, &mut slots, &shops[n]) {
                Ok(_) => {},
                Err(error) => return Err(error),
            }
            n += 1;
        }
        Ok(slots)
    }

    fn assemble(
        order: &Order,
        state: TallyState,
        amount: Money,
        shops: Vec<ShopRefund>,
        slots: Vec<Option<ReturnState>>,
    ) -> (plan: Result<Self, Error>)
        requires
            slots@.len() == order.tenders@.len(),
        ensures
            refund_outcome(plan) == assembled(
                *order,
                state@,
                amount,
                shops@,
                returned_views(slots@),
            ),
    {
        let currency = order.currency;
        let funders = list_reclaims(&state.funders);
        let ghost all_taxes = refunded_taxes(shops@);
        let mut taxes: Vec<Money> = Vec::new();
        let mut i: usize = 0;
        while i < shops.len()
            invariant
                i <= shops@.len(),
                all_taxes == refunded_taxes(shops@),
                taxes@ == all_taxes.take(i as int),
            decreases shops@.len() - i,
        {
            taxes.push(shops[i].tax);
            i += 1;
            assert(taxes@ =~= all_taxes.take(i as int));
        }
        assert(taxes@ =~= all_taxes);
        let tax_refunded = match Money::sum(taxes.as_slice(), currency) {
            Ok(tax) => tax,
            Err(error) => return Err(error),
        };
        let ghost all_reclaims = reclaim_amounts(reclaim_views(funders@));
        let mut reclaims: Vec<Money> = Vec::new();
        let mut k: usize = 0;
        while k < funders.len()
            invariant
                k <= funders@.len(),
                all_reclaims == reclaim_amounts(reclaim_views(funders@)),
                reclaims@ == all_reclaims.take(k as int),
            decreases funders@.len() - k,
        {
            reclaims.push(funders[k].amount);
            k += 1;
            assert(reclaims@ =~= all_reclaims.take(k as int));
        }
        assert(reclaims@ =~= all_reclaims);
        let subsidy_reclaimed = match Money::sum(reclaims.as_slice(), currency) {
            Ok(subsidy) => subsidy,
            Err(error) => return Err(error),
        };
        let plan = RefundPlan {
            currency,
            total: amount,
            tax_refunded,
            subsidy_reclaimed,
            lines: state.lines,
            shipping_groups: state.shipping,
            shops,
            tenders: list_returns(order, slots),
            funders,
        };
        match plan.verify() {
            Ok(_) => Ok(plan),
            Err(error) => Err(error),
        }
    }

    /// Check that the refund balances.
    pub fn verify(&self) -> (verified: Result<(), Error>)
        ensures
            outcome(verified) == refund_check(self@),
    {
        let ghost all = refunded_amounts(self.shops@);
        let mut amounts: Vec<Money> = Vec::new();
        let mut i: usize = 0;
        while i < self.shops.len()
            invariant
                i <= self.shops@.len(),
                all == refunded_amounts(self.shops@),
                amounts@ == all.take(i as int),
            decreases self.shops@.len() - i,
        {
            amounts.push(self.shops[i].customer_funded);
            i += 1;
            assert(amounts@ =~= all.take(i as int));
        }
        assert(amounts@ =~= all);
        let customer = match Money::sum(amounts.as_slice(), self.currency) {
            Ok(customer) => customer,
            Err(error) => return Err(error),
        };
        if customer != self.total {
            let mut message = join3(
                "refund shop shares ",
                customer.to_text().as_str(),
                " do not sum to the total ",
            );
            message.append(self.total.to_text().as_str());
            return Err(Error::internal(message.as_str()));
        }
        let ghost returned = return_amounts(return_views(self.tenders@));
        let mut slots: Vec<Money> = Vec::new();
        let mut k: usize = 0;
        while k < self.tenders.len()
            invariant
                k <= self.tenders@.len(),
                returned == return_amounts(return_views(self.tenders@)),
                slots@ == returned.take(k as int),
            decreases self.tenders@.len() - k,
        {
            slots.push(self.tenders[k].amount);
            k += 1;
            assert(slots@ =~= returned.take(k as int));
        }
        assert(slots@ =~= returned);
        let tendered = match Money::sum(slots.as_slice(), self.currency) {
            Ok(tendered) => tendered,
            Err(error) => return Err(error),
        };
        if tendered != self.total {
            let mut message = join3(
                "refund tenders return ",
                tendered.to_text().as_str(),
                " but ",
            );
            message.append(self.total.to_text().as_str());
            message.append(" is being refunded");
            return Err(Error::internal(message.as_str()));
        }
        let ghost shops = self.shops@;
        let mut n: usize = 0;
        while n < self.shops.len()
            invariant
                shops == self.shops@,
                n <= shops.len(),
                shop_refunds_check(shops, n as int) is Ok,
                refund_check(self@) == shop_refunds_check(shops, shops.len() as int),
            decreases shops.len() - n,
        {
            proof {
                if shop_refunds_check(shops, n + 1) is Err {
                    lemma_error_stays(
                        |k: int| shop_refunds_check(shops, k),
                        n + 1,
                        shops.len() as int,
                    );
                }
            }
            let shop = &self.shops[n];
            let funded = match shop.customer_funded.try_add(shop.subsidy_funded) {
                Ok(funded) => funded,
                Err(error) => return Err(error),
            };
            if funded != shop.gross {
                let mut message = join3("shop ", shop.shop_id.as_str(), " refund funding ");
                message.append(funded.to_text().as_str());
                message.append(" does not match gross ");
                message.append(shop.gross.to_text().as_str());
                return Err(Error::internal(message.as_str()));
            }
            n += 1;
        }
        Ok(())
    }

    /// The amount to return through a specific tender.
    pub fn amount_for_tender(&self, tender_index: usize) -> (amount: Money)
        ensures
            amount == amount_returned(self.tenders@, tender_index, self.currency),
    {
        assert(self.tenders@.skip(0) =~= self.tenders@);
        let mut i: usize = 0;
        while i < self.tenders.len()
            invariant
                i <= self.tenders@.len(),
                amount_returned(self.tenders@, tender_index, self.currency) == amount_returned(
                    self.tenders@.skip(i as int),
                    tender_index,
                    self.currency,
                ),
            decreases self.tenders@.len() - i,
        {
            assert(self.tenders@.skip(i as int)[0] == self.tenders@[i as int]);
            assert(self.tenders@.skip(i as int).drop_first() =~= self.tenders@.skip(i + 1));
            if self.tenders[i].tender_index == tender_index {
                return self.tenders[i].amount;
            }
            i += 1;
        }
        Money::zero(self.currency)
    }
}

/// The amount of the first return through a tender, or nothing.
pub open spec fn amount_returned(
    tenders: Seq<TenderRefund>,
    index: usize,
    currency: Currency,
) -> Money
    decreases tenders.len(),
{
    if tenders.len() == 0 {
        Money { minor: 0, currency }
    } else if tenders[0].tender_index == index {
        tenders[0].amount
    } else {
        amount_returned(tenders.drop_first(), index, currency)
    }
}

/// A refund as stored on an order.
#[derive(Debug, Clone, PartialEq)]
pub struct RefundRecord {
    /// Identifier.
    pub id: RefundId,
    /// The computed plan.
    pub plan: RefundPlan,
    /// Why it happened.
    pub reason: RefundReason,
    /// Idempotency key of the request that produced it.
    pub idempotency_key: String,
    /// Gateway refund identifiers, one per gateway tender that was refunded.
    pub gateway_references: Vec<String>,
    /// Operator note.
    pub note: Option<String>,
    /// When it was issued.
    pub created_at: Timestamp,
}

impl RefundRecord {
    /// Wrap a plan into a stored record.
    pub fn new(plan: RefundPlan, request: &RefundRequest) -> (record: Self)
        ensures
            is_generated(record.id@, "re"@),
            record.plan == plan,
            record.reason == request.reason,
            record.idempotency_key == request.idempotency_key,
            record.gateway_references@.len() == 0,
            record.note == request.note,
    {
        RefundRecord {
            id: RefundId::new(),
            plan,
            reason: request.reason,
            idempotency_key: request.idempotency_key.clone(),
            gateway_references: Vec::new(),
            note: request.note.clone(),
            created_at: Timestamp::now(),
        }
    }
}

// What successive refunds of a line come to.

/// A figure of a refunded line.
pub ghost enum RefundedFigure {
    /// What the shopper gets back.
    Customer,
    /// What the funders get back.
    Subsidy,
    /// The tax that is no longer due.
    Tax,
    /// What the shop gives back.
    Merchant,
}

/// A figure of one refunded line, in minor units.
pub open spec fn figure_of(line: RefundedLine, figure: RefundedFigure) -> int {
    match figure {
        RefundedFigure::Customer => line.customer_amount.minor as int,
        RefundedFigure::Subsidy => line.subsidy_amount.minor as int,
        RefundedFigure::Tax => line.tax_amount.minor as int,
        RefundedFigure::Merchant => line.merchant_amount.minor as int,
    }
}

/// A figure of a line, summed over a list of refunded lines.
pub open spec fn listed_figure(
    lines: Seq<RefundedLine>,
    line: Seq<char>,
    figure: RefundedFigure,
) -> int
    decreases lines.len(),
{
    if lines.len() == 0 {
        0
    } else {
        listed_figure(lines.drop_last(), line, figure) + if lines.last().line_id@ == line {
            figure_of(lines.last(), figure)
        } else {
            0int
        }
    }
}

/// A figure of a line, summed over the refunds of an order.
pub open spec fn recorded_figure(
    refunds: Seq<RefundRecord>,
    line: Seq<char>,
    figure: RefundedFigure,
) -> int
    decreases refunds.len(),
{
    if refunds.len() == 0 {
        0
    } else {
        recorded_figure(refunds.drop_last(), line, figure) + listed_figure(
            refunds.last().plan.lines@,
            line,
            figure,
        )
    }
}

/// What the first units of a line come to.
pub open spec fn first_units(line: PricedLine, count: int, figure: RefundedFigure) -> int {
    let units = line.quantity as nat;
    let customer = unit_sum(line.customer_total.minor as int, units, 0, count);
    let subsidy = unit_sum(line.subsidy_discount.minor as int, units, 0, count);
    match figure {
        RefundedFigure::Customer => customer,
        RefundedFigure::Subsidy => subsidy,
        RefundedFigure::Tax => unit_sum(line.tax.minor as int, units, 0, count),
        RefundedFigure::Merchant => customer + subsidy,
    }
}

/// Whether a line's refunds so far are those of its first units.
pub open spec fn line_in_step(refunds: Seq<RefundRecord>, line: PricedLine) -> bool {
    let count = refunded_units(refunds, line.line_id@);
    &&& count <= line.quantity
    &&& forall|figure: RefundedFigure| #[trigger]
        recorded_figure(refunds, line.line_id@, figure) == first_units(line, count as int, figure)
}

/// Whether the refunds of every line so far are those of its first units.
pub open spec fn in_step(order: Order) -> bool {
    forall|k: int|
        0 <= k < order.quote.lines@.len() ==> line_in_step(
            order.refunds@,
            #[trigger] order.quote.lines@[k],
        )
}

/// Whether no two lines of an order share an identifier.
pub open spec fn distinct_lines(order: Order) -> bool {
    forall|j: int, k: int|
        0 <= j < k < order.quote.lines@.len() ==> #[trigger] order.quote.lines@[j].line_id@
            != #[trigger] order.quote.lines@[k].line_id@
}

proof fn lemma_units_of_nothing(amount: int, units: nat)
    ensures
        unit_sum(amount, units, 0, 0) == 0,
{
    assert(parts_of(amount, even_weights(units)).subrange(0, 0) =~= Seq::<int>::empty());
}

proof fn lemma_further_units(
    line: PricedLine,
    from: int,
    to: int,
    refunded: RefundedLine,
    currency: Currency,
    figure: RefundedFigure,
)
    requires
        0 <= from <= to <= line.quantity,
        line.quantity > 0,
        ({
            let units = line.quantity as nat;
            &&& units_worth(line.customer_total, units, from, to, currency) == Ok::<
                Money,
                ErrorView,
            >(refunded.customer_amount)
            &&& units_worth(line.subsidy_discount, units, from, to, currency) == Ok::<
                Money,
                ErrorView,
            >(refunded.subsidy_amount)
            &&& units_worth(line.tax, units, from, to, currency) == Ok::<Money, ErrorView>(
                refunded.tax_amount,
            )
            &&& refunded.customer_amount.plus(refunded.subsidy_amount) == Ok::<Money, ErrorView>(
                refunded.merchant_amount,
            )
        }),
    ensures
        first_units(line, from, figure) + figure_of(refunded, figure) == first_units(
            line,
            to,
            figure,
        ),
{
    let units = line.quantity as nat;
    law_units_are_worth_their_shares(line.customer_total, units, from, to, currency);
    law_units_are_worth_their_shares(line.subsidy_discount, units, from, to, currency);
    law_units_are_worth_their_shares(line.tax, units, from, to, currency);
    law_partial_refunds_sum_to_the_whole(line.customer_total.minor as int, units, 0, from, to);
    law_partial_refunds_sum_to_the_whole(line.subsidy_discount.minor as int, units, 0, from, to);
    law_partial_refunds_sum_to_the_whole(line.tax.minor as int, units, 0, from, to);
}

/// Whether the lines that a refund lists continue, for each of the first `n` lines of
/// an order, where its refunds so far end, and list none of the others.
spec fn continues(order: Order, lines: Seq<RefundedLine>, n: int) -> bool {
    forall|k: int|
        0 <= k < order.quote.lines@.len() ==> continues_line(
            order.refunds@,
            lines,
            #[trigger] order.quote.lines@[k],
            k < n,
        )
}

spec fn continues_line(
    refunds: Seq<RefundRecord>,
    lines: Seq<RefundedLine>,
    line: PricedLine,
    considered: bool,
) -> bool {
    let id = line.line_id@;
    let before = refunded_units(refunds, id);
    let more = line_units(lines, id);
    &&& before + more <= line.quantity
    &&& !considered ==> more == 0
    &&& forall|figure: RefundedFigure| #[trigger]
        listed_figure(lines, id, figure) == first_units(line, (before + more) as int, figure)
            - first_units(line, before as int, figure)
}

proof fn lemma_lines_continue(order: Order, requested: Option<Map<Seq<char>, u32>>, n: int)
    requires
        in_step(order),
        distinct_lines(order),
        0 <= n <= order.quote.lines@.len(),
        after_lines(order, requested, n) is Ok,
    ensures
        continues(order, after_lines(order, requested, n)->Ok_0.lines, n),
    decreases n,
{
    let lines = after_lines(order, requested, n)->Ok_0.lines;
    if n > 0 {
        lemma_lines_continue(order, requested, n - 1);
        let before = after_lines(order, requested, n - 1)->Ok_0.lines;
        let current = order.quote.lines@[n - 1];
        assert(line_in_step(order.refunds@, current));
        assert(continues_line(order.refunds@, before, current, false));
        if lines != before {
            assert(lines.drop_last() =~= before);
            let added = lines.last();
            let from = refunded_units(order.refunds@, current.line_id@) as int;
            let to = from + added.quantity;
            assert forall|k: int| 0 <= k < order.quote.lines@.len() implies continues_line(
                order.refunds@,
                lines,
                #[trigger] order.quote.lines@[k],
                k < n,
            ) by {
                let line = order.quote.lines@[k];
                assert(continues_line(order.refunds@, before, line, k < n - 1));
                if k == n - 1 {
                    assert forall|figure: RefundedFigure| #[trigger]
                        listed_figure(lines, line.line_id@, figure) == first_units(line, to, figure)
                        - first_units(line, from, figure) by {
                        assert(listed_figure(before, line.line_id@, figure) == 0);
                        lemma_further_units(line, from, to, added, order.currency, figure);
                    }
                } else {
                    assert(line.line_id@ != current.line_id@) by {
                        if k < n - 1 {
                            assert(order.quote.lines@[k].line_id@ != order.quote.lines@[n
                                - 1].line_id@);
                        } else {
                            assert(order.quote.lines@[n - 1].line_id@
                                != order.quote.lines@[k].line_id@);
                        }
                    }
                    assert forall|figure: RefundedFigure| #[trigger]
                        listed_figure(lines, line.line_id@, figure) == listed_figure(
                        before,
                        line.line_id@,
                        figure,
                    ) by {}
                }
            }
        } else {
            assert forall|k: int| 0 <= k < order.quote.lines@.len() implies continues_line(
                order.refunds@,
                lines,
                #[trigger] order.quote.lines@[k],
                k < n,
            ) by {
                assert(continues_line(order.refunds@, before, order.quote.lines@[k], k < n - 1));
            }
        }
    } else {
        lemma_nothing_continues(order, n);
    }
}

proof fn lemma_nothing_continues(order: Order, n: int)
    requires
        in_step(order),
    ensures
        continues(order, Seq::empty(), n),
{
    assert forall|k: int| 0 <= k < order.quote.lines@.len() implies continues_line(
        order.refunds@,
        Seq::<RefundedLine>::empty(),
        #[trigger] order.quote.lines@[k],
        k < n,
    ) by {
        assert(line_in_step(order.refunds@, order.quote.lines@[k]));
    }
}

proof fn lemma_charges_keep_lines(order: Order, from: Tally, n: int)
    ensures
        after_charges(order, from, n) matches Ok(tally) ==> tally.lines == from.lines,
    decreases n,
{
    if n > 0 {
        lemma_charges_keep_lines(order, from, n - 1);
    }
}

proof fn lemma_shares_list_no_lines(
    shops: Seq<ShopSettlement>,
    shares: Seq<Money>,
    currency: Currency,
    n: int,
)
    ensures
        after_shares(shops, shares, currency, n) matches Ok(tally) ==> tally.lines.len() == 0,
    decreases n,
{
    if n > 0 {
        lemma_shares_list_no_lines(shops, shares, currency, n - 1);
    }
}

/// An order that has no refunds yet is in step.
pub proof fn law_fresh_orders_are_in_step(order: Order)
    requires
        order.refunds@.len() == 0,
    ensures
        in_step(order),
{
    assert forall|k: int| 0 <= k < order.quote.lines@.len() implies line_in_step(
        order.refunds@,
        #[trigger] order.quote.lines@[k],
    ) by {
        let line = order.quote.lines@[k];
        let units = line.quantity as nat;
        lemma_units_of_nothing(line.customer_total.minor as int, units);
        lemma_units_of_nothing(line.subsidy_discount.minor as int, units);
        lemma_units_of_nothing(line.tax.minor as int, units);
        assert forall|figure: RefundedFigure| #[trigger]
            recorded_figure(order.refunds@, line.line_id@, figure) == first_units(
            line,
            0,
            figure,
        ) by {}
    }
}

/// Every refund that is planned and recorded continues where the refunds before it end,
/// whatever its scope: what the refunds of a line come to stays what its first units are
/// worth.
pub proof fn law_recorded_refunds_stay_in_step(
    order: Order,
    request: RefundRequest,
    record: RefundRecord,
    after: Order,
    done: Result<(), Error>,
)
    requires
        in_step(order),
        distinct_lines(order),
        refund(order, request) == Ok::<RefundView, ErrorView>(record.plan@),
        order.refund_recorded(record, after, done),
    ensures
        in_step(after),
        distinct_lines(after),
{
    let lines = record.plan.lines@;
    let n = order.quote.lines@.len() as int;
    let tally = tallied(order, request)->Ok_0;
    match request.scope {
        RefundScope::Full => {
            lemma_lines_continue(order, None, n);
            lemma_charges_keep_lines(
                order,
                after_lines(order, None, n)->Ok_0,
                order.quote.shipping@.len() as int,
            );
        },
        RefundScope::Lines { lines } => {
            let wanted = Some(requested_units(lines@, lines@.len() as int));
            lemma_lines_continue(order, wanted, n);
            lemma_charges_keep_lines(
                order,
                after_lines(order, wanted, n)->Ok_0,
                order.quote.shipping@.len() as int,
            );
        },
        RefundScope::Amount { amount } => {
            lemma_shares_list_no_lines(
                order.settlement.shops@,
                weighted_allocation(amount, shop_weights(order))->Ok_0,
                order.currency,
                order.settlement.shops@.len() as int,
            );
            lemma_nothing_continues(order, n);
            assert(lines =~= Seq::<RefundedLine>::empty());
        },
    }
    assert(continues(order, lines, n));
    if done is Ok {
        let refunds = order.refunds@;
        assert(after.refunds@.drop_last() =~= refunds);
        assert(after.refunds@.last() == record);
        assert forall|k: int| 0 <= k < after.quote.lines@.len() implies line_in_step(
            after.refunds@,
            #[trigger] after.quote.lines@[k],
        ) by {
            let line = order.quote.lines@[k];
            assert(line_in_step(refunds, line));
            assert(continues_line(refunds, lines, line, k < n));
            assert forall|figure: RefundedFigure| #[trigger]
                recorded_figure(after.refunds@, line.line_id@, figure) == first_units(
                line,
                refunded_units(after.refunds@, line.line_id@) as int,
                figure,
            ) by {
                assert(recorded_figure(refunds, line.line_id@, figure) == first_units(
                    line,
                    refunded_units(refunds, line.line_id@) as int,
                    figure,
                ));
                assert(listed_figure(lines, line.line_id@, figure) == listed_figure(
                    record.plan.lines@,
                    line.line_id@,
                    figure,
                ));
            }
        }
    }
}

/// Repeated partial refunds always sum back to the whole: once every unit of a line has
/// been refunded, the recorded refunds have returned all that was paid for the line, by
/// the shopper and by funders, and all of its tax.
pub proof fn law_returned_lines_are_returned_whole(order: Order, k: int)
    requires
        in_step(order),
        0 <= k < order.quote.lines@.len(),
        order.quote.lines@[k].quantity > 0,
        refunded_units(order.refunds@, order.quote.lines@[k].line_id@)
            == order.quote.lines@[k].quantity,
    ensures
        ({
            let line = order.quote.lines@[k];
            let refunds = order.refunds@;
            let id = line.line_id@;
            &&& recorded_figure(refunds, id, RefundedFigure::Customer)
                == line.customer_total.minor
            &&& recorded_figure(refunds, id, RefundedFigure::Subsidy)
                == line.subsidy_discount.minor
            &&& recorded_figure(refunds, id, RefundedFigure::Tax) == line.tax.minor
            &&& recorded_figure(refunds, id, RefundedFigure::Merchant)
                == line.customer_total.minor + line.subsidy_discount.minor
        }),
{
    let line = order.quote.lines@[k];
    let units = line.quantity as nat;
    let all = units as int;
    assert(line_in_step(order.refunds@, line));
    law_partial_refunds_sum_to_the_whole(line.customer_total.minor as int, units, 0, 0, all);
    law_partial_refunds_sum_to_the_whole(line.subsidy_discount.minor as int, units, 0, 0, all);
    law_partial_refunds_sum_to_the_whole(line.tax.minor as int, units, 0, 0, all);
}

/// Whether each shop gives back what the shopper and the funders get back of it.
pub open spec fn funded(tally: Tally, currency: Currency) -> bool {
    forall|shop: Seq<char>|
        ({
            let customer = amount_under(tally.customer, shop, currency);
            let subsidy = amount_under(tally.subsidy, shop, currency);
            let gross = #[trigger] amount_under(tally.gross, shop, currency);
            &&& customer.currency == currency
            &&& subsidy.currency == currency
            &&& gross.currency == currency
            &&& gross.minor == customer.minor + subsidy.minor
        })
}

proof fn lemma_shop_amounts_stay_funded(
    tally: Tally,
    shop: Seq<char>,
    customer: Money,
    subsidy: Money,
    tax: Money,
    gross: Money,
    currency: Currency,
)
    requires
        funded(tally, currency),
        customer.plus(subsidy) == Ok::<Money, ErrorView>(gross),
    ensures
        with_shop_amounts(tally, shop, customer, subsidy, tax, gross, currency) matches Ok(next)
            ==> funded(next, currency),
{
    if let Ok(next) = with_shop_amounts(tally, shop, customer, subsidy, tax, gross, currency) {
        assert forall|other: Seq<char>|
            ({
                let customer = amount_under(next.customer, other, currency);
                let subsidy = amount_under(next.subsidy, other, currency);
                let gross = #[trigger] amount_under(next.gross, other, currency);
                &&& customer.currency == currency
                &&& subsidy.currency == currency
                &&& gross.currency == currency
                &&& gross.minor == customer.minor + subsidy.minor
            }) by {
            let before = amount_under(tally.gross, other, currency);
            assert(before.currency == currency);
        }
    }
}

proof fn lemma_units_stay_funded(order: Order, requested: Option<Map<Seq<char>, u32>>, n: int)
    requires
        0 <= n,
        after_lines(order, requested, n) is Ok,
    ensures
        funded(after_lines(order, requested, n)->Ok_0, order.currency),
    decreases n,
{
    if n > 0 {
        lemma_units_stay_funded(order, requested, n - 1);
        let before = after_lines(order, requested, n - 1)->Ok_0;
        let after = after_lines(order, requested, n)->Ok_0;
        if after.lines != before.lines {
            let line = order.quote.lines@[n - 1];
            let added = after.lines.last();
            lemma_shop_amounts_stay_funded(
                before,
                line.shop_id@,
                added.customer_amount,
                added.subsidy_amount,
                added.tax_amount,
                added.merchant_amount,
                order.currency,
            );
        }
    }
}

proof fn lemma_charges_stay_funded(order: Order, from: Tally, n: int)
    requires
        0 <= n <= order.quote.shipping@.len(),
        funded(from, order.currency),
        forall|k: int|
            0 <= k < order.quote.shipping@.len() ==> (#[trigger] order.quote.shipping@[k])
                .customer_total.plus(order.quote.shipping@[k].subsidy_discount) == Ok::<
                Money,
                ErrorView,
            >(order.quote.shipping@[k].merchant_gross),
        after_charges(order, from, n) is Ok,
    ensures
        funded(after_charges(order, from, n)->Ok_0, order.currency),
    decreases n,
{
    if n > 0 {
        lemma_charges_stay_funded(order, from, n - 1);
        let before = after_charges(order, from, n - 1)->Ok_0;
        let charge = order.quote.shipping@[n - 1];
        lemma_shop_amounts_stay_funded(
            before,
            charge.shop_id@,
            charge.customer_total,
            charge.subsidy_discount,
            charge.tax,
            charge.merchant_gross,
            order.currency,
        );
    }
}

/// A refund of units never fails its own balance check at a shop, whichever units were
/// refunded before: each shop gives back exactly what the shopper and the funders get
/// back of it.
pub proof fn law_unit_refunds_are_funded(
    order: Order,
    requested: Option<Map<Seq<char>, u32>>,
    refund_shipping: bool,
    refund_fee: bool,
    shop: ShopSettlement,
)
    requires
        forall|k: int|
            0 <= k < order.quote.shipping@.len() ==> (#[trigger] order.quote.shipping@[k])
                .customer_total.plus(order.quote.shipping@[k].subsidy_discount) == Ok::<
                Money,
                ErrorView,
            >(order.quote.shipping@[k].merchant_gross),
        units_tally(order, requested, refund_shipping) is Ok,
    ensures
        shop_refund(
            shop,
            units_tally(order, requested, refund_shipping)->Ok_0,
            refund_fee,
            order.currency,
        ) matches Ok(Some(refund)) ==> shop_refund_check(refund) is Ok,
{
    let n = order.quote.lines@.len() as int;
    let lines = after_lines(order, requested, n)->Ok_0;
    lemma_units_stay_funded(order, requested, n);
    if refund_shipping {
        lemma_charges_stay_funded(order, lines, order.quote.shipping@.len() as int);
    }
    let tally = units_tally(order, requested, refund_shipping)->Ok_0;
    assert(funded(tally, order.currency));
    let gross = amount_under(tally.gross, shop.shop_id@, order.currency);
    assert(gross.currency == order.currency);
}

/// A refund that was computed balances: what goes back to the shopper is what the shops
/// give back for them and what the tenders return, it is more than nothing, and it is no
/// more than what could still be refunded.
pub proof fn law_refunds_balance(order: Order, request: RefundRequest)
    ensures
        refund(order, request) matches Ok(plan) ==> {
            &&& refund_check(plan) is Ok
            &&& total(refunded_amounts(plan.shops), plan.currency) == Ok::<Money, ErrorView>(
                plan.total,
            )
            &&& total(return_amounts(plan.tenders), plan.currency) == Ok::<Money, ErrorView>(
                plan.total,
            )
            &&& plan.total.minor > 0
            &&& order.refundable() matches Ok(left) && !plan.total.more_than(left)
        },
{
}

/// No tender gets back more of a shop than it still holds of what it paid that shop.
pub proof fn law_tenders_get_back_what_they_paid(
    list: Seq<(usize, Money)>,
    amount: Money,
    currency: Currency,
    i: int,
)
    requires
        total(held(list), currency) is Ok,
        amount.minor > 0,
        amount.currency == currency,
        !amount.more_than(total(held(list), currency)->Ok_0),
        0 <= i < list.len(),
    ensures
        weighted_allocation(amount, held(list)) matches Ok(shares) ==> 0 <= shares[i].minor
            <= list[i].1.minor,
{
    if weighted_allocation(amount, held(list)) is Ok {
        let weights = held(list);
        law_total_is_the_sum(weights, currency);
        law_good_weights(amount, weights);
        law_parts_sum_to_the_whole(amount.minor as int, minors(weights));
        law_parts_stay_within_their_weights(amount.minor as int, minors(weights), i);
        assert(minors(weights)[i] == list[i].1.minor);
        let part = parts_of(amount.minor as int, minors(weights))[i];
        assert(0 <= part <= list[i].1.minor);
    }
}

} // verus!
