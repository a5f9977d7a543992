//! Reporting and analytics.
//!
//! Figures are derived from the orders themselves rather than from a separate
//! counter, so a report can always be recomputed and reconciled against the
//! underlying records. Every report is scoped to a time range and reports in a
//! single currency; mixed-currency estates should run one report per currency
//! or convert with a [`CurrencyConverter`](crate::pricing::CurrencyConverter).

use vstd::prelude::*;

use crate::collections::{listed, OrderedMap};
use crate::error::{outcome, Error, ErrorView};
use crate::folds::lemma_error_stays;
use crate::ids::{AccountId, ShopId};
use crate::money::allocation::list_outcome;
use crate::money::{
    law_ratios_are_in_basis_points, law_scaling_is_proportional, Currency, Money, Rounding,
};
use crate::order::{Order, OrderStatus};
use crate::payment::refund::{FunderRefund, RefundRecord, ShopRefund};
use crate::payment::split::{FunderCharge, ShopSettlement};
use crate::sorting::{is_sorted_by, is_sorting, sort_positions, Rank};
use crate::storage::memory::values_of;
use crate::text::{lower, to_lower};
use crate::time::{Timestamp, FIRST_SECOND, LAST_SECOND};

verus! {

/// An inclusive-exclusive time window.
#[derive(Debug, Clone, Copy, PartialEq, Eq, Structural)]
pub struct DateRange {
    /// Start, inclusive.
    pub from: Timestamp,
    /// End, exclusive.
    pub to: Timestamp,
}

impl DateRange {
    /// Whether an instant falls inside the range.
    pub open spec fn holds(self, at: Timestamp) -> bool {
        !at.before(self.from) && at.before(self.to)
    }

    /// A range covering everything.
    pub fn all_time() -> (range: Self)
        ensures
            range.from == (Timestamp { seconds: FIRST_SECOND, nanos: 0 }),
            range.to == (Timestamp { seconds: LAST_SECOND, nanos: 999_999_999 }),
    {
        DateRange {
            from: Timestamp { seconds: FIRST_SECOND, nanos: 0 },
            to: Timestamp { seconds: LAST_SECOND, nanos: 999_999_999 },
        }
    }

    /// A custom range.
    pub fn new(from: Timestamp, to: Timestamp) -> (range: Self)
        ensures
            range == (DateRange { from, to }),
    {
        DateRange { from, to }
    }

    /// Whether an instant falls inside the range.
    pub fn contains(&self, at: Timestamp) -> (inside: bool)
        ensures
            inside == self.holds(at),
    {
        !at.is_before(self.from) && at.is_before(self.to)
    }
}

/// Headline figures for a period.
#[derive(Debug, Clone, PartialEq)]
pub struct SalesReport {
    /// Currency of every amount.
    pub currency: Currency,
    /// Period covered.
    pub range: DateRange,
    /// Number of orders that collected money.
    pub order_count: u64,
    /// Total the shoppers were charged.
    pub gross_volume: Money,
    /// Total returned to shoppers.
    pub refunded: Money,
    /// `gross_volume - refunded`.
    pub net_volume: Money,
    /// Tax collected on behalf of shops.
    pub tax_collected: Money,
    /// Commission the platform earned.
    pub platform_fees: Money,
    /// Amount paid by third-party funders.
    pub subsidies: Money,
    /// Discounts absorbed by shops.
    pub merchant_discounts: Money,
    /// Shipping charged.
    pub shipping: Money,
    /// Orders by status.
    pub by_status: OrderedMap<u64>,
}

/// Headline figures, with the orders by status as a map.
pub ghost struct SalesView {
    /// Currency of every amount.
    pub currency: Currency,
    /// Period covered.
    pub range: DateRange,
    /// Number of orders that collected money.
    pub order_count: u64,
    /// Total the shoppers were charged.
    pub gross_volume: Money,
    /// Total returned to shoppers.
    pub refunded: Money,
    /// What remains of the one after the other.
    pub net_volume: Money,
    /// Tax collected on behalf of shops.
    pub tax_collected: Money,
    /// Commission the platform earned.
    pub platform_fees: Money,
    /// Amount paid by third-party funders.
    pub subsidies: Money,
    /// Discounts absorbed by shops.
    pub merchant_discounts: Money,
    /// Shipping charged.
    pub shipping: Money,
    /// Orders by status.
    pub by_status: Map<Seq<char>, u64>,
}

impl View for SalesReport {
    type V = SalesView;

    open spec fn view(&self) -> SalesView {
        SalesView {
            currency: self.currency,
            range: self.range,
            order_count: self.order_count,
            gross_volume: self.gross_volume,
            refunded: self.refunded,
            net_volume: self.net_volume,
            tax_collected: self.tax_collected,
            platform_fees: self.platform_fees,
            subsidies: self.subsidies,
            merchant_discounts: self.merchant_discounts,
            shipping: self.shipping,
            by_status: self.by_status@,
        }
    }
}

impl SalesReport {
    /// The mean value of the orders in the period.
    pub open spec fn mean(self) -> Money {
        let zero = Money { minor: 0, currency: self.currency };
        if self.order_count == 0 {
            zero
        } else {
            match self.gross_volume.scaled(1, self.order_count as i64 as int, Rounding::HalfEven) {
                Ok(amount) => amount,
                Err(_) => zero,
            }
        }
    }

    /// Mean value of the orders in the period.
    pub fn average_order_value(&self) -> (amount: Money)
        ensures
            amount == self.mean(),
    {
        if self.order_count == 0 {
            return Money::zero(self.currency);
        }
        match self.gross_volume.mul_ratio(1, self.order_count as i64, Rounding::HalfEven) {
            Ok(amount) => amount,
            Err(_) => Money::zero(self.currency),
        }
    }

    /// What was refunded as a share of the gross volume, in basis points.
    pub open spec fn refund_rate(self) -> i64 {
        match self.refunded.ratio_to(self.gross_volume) {
            Ok(ratio) => ratio,
            Err(_) => 0,
        }
    }

    /// Refunds as a share of gross volume, in basis points.
    pub fn refund_rate_basis_points(&self) -> (rate: i64)
        ensures
            rate == self.refund_rate(),
    {
        match self.refunded.ratio_basis_points(self.gross_volume) {
            Ok(ratio) => ratio,
            Err(_) => 0,
        }
    }
}

/// Per-shop figures for a period.
#[derive(Debug, PartialEq)]
pub struct ShopReport {
    /// The shop.
    pub shop_id: ShopId,
    /// Orders containing this shop's items.
    pub order_count: u64,
    /// Everything the shop was owed, tax included.
    pub gross: Money,
    /// Commission deducted.
    pub platform_fees: Money,
    /// Amount clawed back by refunds.
    pub refunded: Money,
    /// `gross - platform_fees - refunded`.
    pub net: Money,
    /// Tax the shop must remit.
    pub tax: Money,
    /// Part of `gross` paid by third-party funders.
    pub subsidised: Money,
}

impl Clone for ShopReport {
    fn clone(&self) -> (copy: Self)
        ensures
            copy == *self,
    {
        ShopReport {
            shop_id: self.shop_id.clone(),
            order_count: self.order_count,
            gross: self.gross,
            platform_fees: self.platform_fees,
            refunded: self.refunded,
            net: self.net,
            tax: self.tax,
            subsidised: self.subsidised,
        }
    }
}

/// What each funder owes for a period.
#[derive(Debug, PartialEq)]
pub struct FunderReport {
    /// The funding account.
    pub funder: AccountId,
    /// Amount funded.
    pub funded: Money,
    /// Amount reclaimed through refunds.
    pub reclaimed: Money,
    /// `funded - reclaimed`.
    pub net: Money,
}

impl Clone for FunderReport {
    fn clone(&self) -> (copy: Self)
        ensures
            copy == *self,
    {
        FunderReport {
            funder: self.funder.clone(),
            funded: self.funded,
            reclaimed: self.reclaimed,
            net: self.net,
        }
    }
}

/// Whether an order belongs in a report.
pub open spec fn reported(order: Order, currency: Currency, range: DateRange) -> bool {
    order.currency == currency && range.holds(order.created_at)
}

/// Whether an order collected money, also where all of it went back.
pub open spec fn collected(order: Order) -> bool {
    order.status is PartiallyCaptured || order.status is Paid || order.status is Fulfilled
        || order.status is PartiallyRefunded || order.status is Refunded
}

fn has_collected(order: &Order) -> (found: bool)
    ensures
        found == collected(*order),
{
    order.status.has_funds() || order.status == OrderStatus::Refunded
}

// Headline figures.

/// A report on no orders.
pub open spec fn no_sales(currency: Currency, range: DateRange) -> SalesView {
    let zero = Money { minor: 0, currency };
    SalesView {
        currency,
        range,
        order_count: 0,
        gross_volume: zero,
        refunded: zero,
        net_volume: zero,
        tax_collected: zero,
        platform_fees: zero,
        subsidies: zero,
        merchant_discounts: zero,
        shipping: zero,
        by_status: Map::empty(),
    }
}

/// How many are counted under a label.
pub open spec fn count_under(map: Map<Seq<char>, u64>, label: Seq<char>) -> u64 {
    if map.contains_key(label) {
        map[label]
    } else {
        0
    }
}

/// A report with the money of an order added.
pub open spec fn with_money(report: SalesView, order: Order) -> Result<SalesView, ErrorView> {
    let gross = report.gross_volume.plus(order.amount_captured);
    let refunded = report.refunded.plus(order.amount_refunded);
    let tax = report.tax_collected.plus(order.quote.totals.tax);
    let fees = report.platform_fees.plus(order.settlement.platform_fee_total);
    let subsidies = report.subsidies.plus(order.quote.totals.subsidy_discount);
    let discounts = report.merchant_discounts.plus(order.quote.totals.merchant_discount);
    let shipping = report.shipping.plus(order.quote.totals.shipping);
    if gross is Err {
        Err(gross->Err_0)
    } else if refunded is Err {
        Err(refunded->Err_0)
    } else if tax is Err {
        Err(tax->Err_0)
    } else if fees is Err {
        Err(fees->Err_0)
    } else if subsidies is Err {
        Err(subsidies->Err_0)
    } else if discounts is Err {
        Err(discounts->Err_0)
    } else if shipping is Err {
        Err(shipping->Err_0)
    } else {
        Ok(
            SalesView {
                order_count: (report.order_count + 1) as u64,
                gross_volume: gross->Ok_0,
                refunded: refunded->Ok_0,
                tax_collected: tax->Ok_0,
                platform_fees: fees->Ok_0,
                subsidies: subsidies->Ok_0,
                merchant_discounts: discounts->Ok_0,
                shipping: shipping->Ok_0,
                ..report
            },
        )
    }
}

/// A report with an order added.
pub open spec fn with_order(report: SalesView, order: Order) -> Result<SalesView, ErrorView> {
    if !reported(order, report.currency, report.range) {
        Ok(report)
    } else {
        let label = lower(order.status.name());
        let counted = SalesView {
            by_status: report.by_status.insert(
                label,
                (count_under(report.by_status, label) + 1) as u64,
            ),
            ..report
        };
        if collected(order) {
            with_money(counted, order)
        } else {
            Ok(counted)
        }
    }
}

/// The report on the first `n` orders, before the net volume is known.
pub open spec fn sales_so_far(orders: Seq<Order>, currency: Currency, range: DateRange, n: int) -> Result<
    SalesView,
    ErrorView,
>
    decreases n,
{
    if n <= 0 {
        Ok(no_sales(currency, range))
    } else {
        match sales_so_far(orders, currency, range, n - 1) {
            Err(error) => Err(error),
            Ok(before) => with_order(before, orders[n - 1]),
        }
    }
}

/// The headline figures of a list of orders.
pub open spec fn sales_of(orders: Seq<Order>, currency: Currency, range: DateRange) -> Result<
    SalesView,
    ErrorView,
> {
    match sales_so_far(orders, currency, range, orders.len() as int) {
        Err(error) => Err(error),
        Ok(report) => match report.gross_volume.minus(report.refunded) {
            Err(error) => Err(error),
            Ok(net_volume) => Ok(SalesView { net_volume, ..report }),
        },
    }
}

// Figures per shop.

/// A shop's figures with what it gave back in one refund.
pub open spec fn with_refund(report: ShopReport, refund: ShopRefund, shop: Seq<char>) -> Result<
    ShopReport,
    ErrorView,
> {
    if refund.shop_id@ != shop {
        Ok(report)
    } else {
        match report.refunded.plus(refund.gross) {
            Err(error) => Err(error),
            Ok(refunded) => match report.platform_fees.minus(refund.platform_fee_returned) {
                Err(error) => Err(error),
                Ok(platform_fees) => Ok(ShopReport { refunded, platform_fees, ..report }),
            },
        }
    }
}

/// A shop's figures with what it gave back in the first `n` entries of a refund.
pub open spec fn with_refunds(report: ShopReport, list: Seq<ShopRefund>, shop: Seq<char>, n: int) -> Result<
    ShopReport,
    ErrorView,
>
    decreases n,
{
    if n <= 0 {
        Ok(report)
    } else {
        match with_refunds(report, list, shop, n - 1) {
            Err(error) => Err(error),
            Ok(before) => with_refund(before, list[n - 1], shop),
        }
    }
}

/// A shop's figures with what it gave back in the first `n` refunds of an order.
pub open spec fn with_records(
    report: ShopReport,
    records: Seq<RefundRecord>,
    shop: Seq<char>,
    n: int,
) -> Result<ShopReport, ErrorView>
    decreases n,
{
    if n <= 0 {
        Ok(report)
    } else {
        match with_records(report, records, shop, n - 1) {
            Err(error) => Err(error),
            Ok(before) => with_refunds(
                before,
                records[n - 1].plan.shops@,
                shop,
                records[n - 1].plan.shops@.len() as int,
            ),
        }
    }
}

/// A shop's figures with what an order settles.
pub open spec fn with_settlement(report: ShopReport, shop: ShopSettlement) -> Result<
    ShopReport,
    ErrorView,
> {
    match report.gross.plus(shop.gross) {
        Err(error) => Err(error),
        Ok(gross) => match report.platform_fees.plus(shop.platform_fee) {
            Err(error) => Err(error),
            Ok(platform_fees) => match report.tax.plus(shop.tax) {
                Err(error) => Err(error),
                Ok(tax) => match report.subsidised.plus(shop.funded_by_subsidy) {
                    Err(error) => Err(error),
                    Ok(subsidised) => Ok(
                        ShopReport {
                            order_count: if report.order_count < u64::MAX {
                                (report.order_count + 1) as u64
                            } else {
                                u64::MAX
                            },
                            gross,
                            platform_fees,
                            tax,
                            subsidised,
                            ..report
                        },
                    ),
                },
            },
        },
    }
}

/// Figures of a shop that nothing is known of yet.
pub open spec fn no_figures(shop_id: ShopId, currency: Currency) -> ShopReport {
    let zero = Money { minor: 0, currency };
    ShopReport {
        shop_id,
        order_count: 0,
        gross: zero,
        platform_fees: zero,
        refunded: zero,
        net: zero,
        tax: zero,
        subsidised: zero,
    }
}

/// Figures per shop with the settlement of one shop of an order.
pub open spec fn with_shop(
    reports: Map<Seq<char>, ShopReport>,
    order: Order,
    shop: ShopSettlement,
    currency: Currency,
) -> Result<Map<Seq<char>, ShopReport>, ErrorView> {
    let key = shop.shop_id@;
    let start = if reports.contains_key(key) {
        reports[key]
    } else {
        no_figures(shop.shop_id, currency)
    };
    match with_settlement(start, shop) {
        Err(error) => Err(error),
        Ok(settled) => match with_records(
            settled,
            order.refunds@,
            key,
            order.refunds@.len() as int,
        ) {
            Err(error) => Err(error),
            Ok(done) => Ok(reports.insert(key, done)),
        },
    }
}

/// Figures per shop with the first `n` shops of an order.
pub open spec fn with_shops(
    reports: Map<Seq<char>, ShopReport>,
    order: Order,
    currency: Currency,
    n: int,
) -> Result<Map<Seq<char>, ShopReport>, ErrorView>
    decreases n,
{
    if n <= 0 {
        Ok(reports)
    } else {
        match with_shops(reports, order, currency, n - 1) {
            Err(error) => Err(error),
            Ok(before) => with_shop(before, order, order.settlement.shops@[n - 1], currency),
        }
    }
}

/// Figures per shop for the first `n` orders.
pub open spec fn shops_so_far(orders: Seq<Order>, currency: Currency, range: DateRange, n: int) -> Result<
    Map<Seq<char>, ShopReport>,
    ErrorView,
>
    decreases n,
{
    if n <= 0 {
        Ok(Map::empty())
    } else {
        match shops_so_far(orders, currency, range, n - 1) {
            Err(error) => Err(error),
            Ok(before) => {
                let order = orders[n - 1];
                if reported(order, currency, range) && collected(order) {
                    with_shops(before, order, currency, order.settlement.shops@.len() as int)
                } else {
                    Ok(before)
                }
            },
        }
    }
}

/// A shop's figures with the net amount.
pub open spec fn netted(report: ShopReport) -> Result<ShopReport, ErrorView> {
    match report.gross.minus(report.platform_fees) {
        Err(error) => Err(error),
        Ok(rest) => match rest.minus(report.refunded) {
            Err(error) => Err(error),
            Ok(net) => Ok(ShopReport { net, ..report }),
        },
    }
}

/// The figures of the first `n` shops with their net amounts, in the order of their
/// identifiers.
pub open spec fn netted_list(reports: Map<Seq<char>, ShopReport>, n: int) -> Result<
    Seq<ShopReport>,
    ErrorView,
>
    decreases n,
{
    if n <= 0 {
        Ok(Seq::empty())
    } else {
        match netted_list(reports, n - 1) {
            Err(error) => Err(error),
            Ok(before) => match netted(reports[listed(reports)[n - 1]]) {
                Err(error) => Err(error),
                Ok(report) => Ok(before.push(report)),
            },
        }
    }
}

/// The figures per shop of a list of orders, in the order of the shops' identifiers.
pub open spec fn shop_figures(orders: Seq<Order>, currency: Currency, range: DateRange) -> Result<
    Seq<ShopReport>,
    ErrorView,
> {
    match shops_so_far(orders, currency, range, orders.len() as int) {
        Err(error) => Err(error),
        Ok(reports) => netted_list(reports, listed(reports).len() as int),
    }
}

/// The ranks of shops, the largest net amount first.
pub open spec fn largest_net_first(list: Seq<ShopReport>) -> Seq<Rank> {
    list.map_values(
        |report: ShopReport|
            Rank { first: -(report.net.minor as i128) as i128, second: 0, third: 0 },
    )
}

// Figures per funder.

/// Figures of a funder that nothing is known of yet.
pub open spec fn no_charges(funder: AccountId, currency: Currency) -> FunderReport {
    let zero = Money { minor: 0, currency };
    FunderReport { funder, funded: zero, reclaimed: zero, net: zero }
}

/// The figures of a funder, or those of one that nothing is known of yet.
pub open spec fn funder_figures(
    reports: Map<Seq<char>, FunderReport>,
    funder: AccountId,
    currency: Currency,
) -> FunderReport {
    if reports.contains_key(funder@) {
        reports[funder@]
    } else {
        no_charges(funder, currency)
    }
}

/// Figures per funder with the first `n` charges of an order.
pub open spec fn with_charges(
    reports: Map<Seq<char>, FunderReport>,
    charges: Seq<FunderCharge>,
    currency: Currency,
    n: int,
) -> Result<Map<Seq<char>, FunderReport>, ErrorView>
    decreases n,
{
    if n <= 0 {
        Ok(reports)
    } else {
        match with_charges(reports, charges, currency, n - 1) {
            Err(error) => Err(error),
            Ok(before) => {
                let charge = charges[n - 1];
                let start = funder_figures(before, charge.funder, currency);
                match start.funded.plus(charge.amount) {
                    Err(error) => Err(error),
                    Ok(funded) => Ok(
                        before.insert(charge.funder@, FunderReport { funded, ..start }),
                    ),
                }
            },
        }
    }
}

/// Figures per funder with the first `n` reclaims of a refund.
pub open spec fn with_reclaims(
    reports: Map<Seq<char>, FunderReport>,
    list: Seq<FunderRefund>,
    currency: Currency,
    n: int,
) -> Result<Map<Seq<char>, FunderReport>, ErrorView>
    decreases n,
{
    if n <= 0 {
        Ok(reports)
    } else {
        match with_reclaims(reports, list, currency, n - 1) {
            Err(error) => Err(error),
            Ok(before) => {
                let refund = list[n - 1];
                let start = funder_figures(before, refund.funder, currency);
                match start.reclaimed.plus(refund.amount) {
                    Err(error) => Err(error),
                    Ok(reclaimed) => Ok(
                        before.insert(refund.funder@, FunderReport { reclaimed, ..start }),
                    ),
                }
            },
        }
    }
}

/// Figures per funder with the first `n` refunds of an order.
pub open spec fn with_reclaim_records(
    reports: Map<Seq<char>, FunderReport>,
    records: Seq<RefundRecord>,
    currency: Currency,
    n: int,
) -> Result<Map<Seq<char>, FunderReport>, ErrorView>
    decreases n,
{
    if n <= 0 {
        Ok(reports)
    } else {
        match with_reclaim_records(reports, records, currency, n - 1) {
            Err(error) => Err(error),
            Ok(before) => with_reclaims(
                before,
                records[n - 1].plan.funders@,
                currency,
                records[n - 1].plan.funders@.len() as int,
            ),
        }
    }
}

/// Figures per funder with an order.
pub open spec fn with_funded_order(
    reports: Map<Seq<char>, FunderReport>,
    order: Order,
    currency: Currency,
) -> Result<Map<Seq<char>, FunderReport>, ErrorView> {
    match with_charges(
        reports,
        order.settlement.funders@,
        currency,
        order.settlement.funders@.len() as int,
    ) {
        Err(error) => Err(error),
        Ok(charged) => with_reclaim_records(
            charged,
            order.refunds@,
            currency,
            order.refunds@.len() as int,
        ),
    }
}

/// Figures per funder for the first `n` orders.
pub open spec fn funders_so_far(orders: Seq<Order>, currency: Currency, range: DateRange, n: int) -> Result<
    Map<Seq<char>, FunderReport>,
    ErrorView,
>
    decreases n,
{
    if n <= 0 {
        Ok(Map::empty())
    } else {
        match funders_so_far(orders, currency, range, n - 1) {
            Err(error) => Err(error),
            Ok(before) => if reported(orders[n - 1], currency, range) {
                with_funded_order(before, orders[n - 1], currency)
            } else {
                Ok(before)
            },
        }
    }
}

/// The figures of the first `n` funders with their net amounts, in the order of their
/// accounts.
pub open spec fn charged_list(reports: Map<Seq<char>, FunderReport>, n: int) -> Result<
    Seq<FunderReport>,
    ErrorView,
>
    decreases n,
{
    if n <= 0 {
        Ok(Seq::empty())
    } else {
        match charged_list(reports, n - 1) {
            Err(error) => Err(error),
            Ok(before) => {
                let report = reports[listed(reports)[n - 1]];
                match report.funded.minus(report.reclaimed) {
                    Err(error) => Err(error),
                    Ok(net) => Ok(before.push(FunderReport { net, ..report })),
                }
            },
        }
    }
}

/// The figures per funder of a list of orders.
pub open spec fn funder_report(orders: Seq<Order>, currency: Currency, range: DateRange) -> Result<
    Seq<FunderReport>,
    ErrorView,
> {
    match funders_so_far(orders, currency, range, orders.len() as int) {
        Err(error) => Err(error),
        Ok(reports) => charged_list(reports, listed(reports).len() as int),
    }
}

/// The label of a status.
pub fn status_label(status: OrderStatus) -> (label: String)
    ensures
        label@ == lower(status.name()),
{
    to_lower(status.as_str())
}

fn add_refunds(report: ShopReport, order: &Order, shop_id: &ShopId) -> (done: Result<
    ShopReport,
    Error,
>)
    ensures
        outcome(done) == with_records(
            report,
            order.refunds@,
            shop_id@,
            order.refunds@.len() as int,
        ),
{
    let ghost records = order.refunds@;
    let ghost start = report;
    let mut current = report;
    let mut n: usize = 0;
    while n < order.refunds.len()
        invariant
            start == report,
            records == order.refunds@,
            n <= records.len(),
            with_records(start, records, shop_id@, n as int) == Ok::<ShopReport, ErrorView>(
                current,
            ),
        decreases records.len() - n,
    {
        proof {
            if with_records(start, records, shop_id@, n + 1) is Err {
                lemma_error_stays(
                    |k: int| with_records(start, records, shop_id@, k),
                    n + 1,
                    records.len() as int,
                );
            }
        }
        let list = &order.refunds[n].plan.shops;
        let ghost from = current;
        let mut k: usize = 0;
        while k < list.len()
            invariant
                start == report,
                records == order.refunds@,
                n < records.len(),
                *list == records[n as int].plan.shops,
                with_records(start, records, shop_id@, n as int) == Ok::<ShopReport, ErrorView>(
                    from,
                ),
                with_records(start, records, shop_id@, n + 1) is Err ==> with_records(
                    start,
                    records,
                    shop_id@,
                    records.len() as int,
                ) == with_records(start, records, shop_id@, n + 1),
                k <= list@.len(),
                with_refunds(from, list@, shop_id@, k as int) == Ok::<ShopReport, ErrorView>(
                    current,
                ),
            decreases list@.len() - k,
        {
            proof {
                if with_refunds(from, list@, shop_id@, k + 1) is Err {
                    lemma_error_stays(
                        |k: int| with_refunds(from, list@, shop_id@, k),
                        k + 1,
                        list@.len() as int,
                    );
                }
            }
            let refund = &list[k];
            if refund.shop_id.same(shop_id) {
                let refunded = match current.refunded.try_add(refund.gross) {
                    Ok(sum) => sum,
                    Err(error) => return Err(error),
                };
                let platform_fees = match current.platform_fees.try_sub(
                    refund.platform_fee_returned,
                ) {
                    Ok(rest) => rest,
                    Err(error) => return Err(error),
                };
                current.refunded = refunded;
                current.platform_fees = platform_fees;
            }
            k += 1;
        }
        n += 1;
    }
    Ok(current)
}

fn add_settlement(report: ShopReport, shop: &ShopSettlement) -> (done: Result<ShopReport, Error>)
    ensures
        outcome(done) == with_settlement(report, *shop),
{
    let gross = match report.gross.try_add(shop.gross) {
        Ok(sum) => sum,
        Err(error) => return Err(error),
    };
    let platform_fees = match report.platform_fees.try_add(shop.platform_fee) {
        Ok(sum) => sum,
        Err(error) => return Err(error),
    };
    let tax = match report.tax.try_add(shop.tax) {
        Ok(sum) => sum,
        Err(error) => return Err(error),
    };
    let subsidised = match report.subsidised.try_add(shop.funded_by_subsidy) {
        Ok(sum) => sum,
        Err(error) => return Err(error),
    };
    Ok(
        ShopReport {
            order_count: report.order_count.saturating_add(1),
            gross,
            platform_fees,
            tax,
            subsidised,
            ..report
        },
    )
}

fn add_shop_settlement(
    reports: &mut OrderedMap<ShopReport>,
    order: &Order,
    shop: &ShopSettlement,
    currency: Currency,
) -> (done: Result<(), Error>)
    ensures
        match done {
            Ok(_) => with_shop(old(reports)@, *order, *shop, currency) == Ok::<
                Map<Seq<char>, ShopReport>,
                ErrorView,
            >(final(reports)@),
            Err(error) => with_shop(old(reports)@, *order, *shop, currency) == Err::<
                Map<Seq<char>, ShopReport>,
                ErrorView,
            >(error@),
        },
{
    let zero = Money::zero(currency);
    let start = match reports.get(shop.shop_id.as_str()) {
        Some(report) => report.clone(),
        None => ShopReport {
            shop_id: shop.shop_id.clone(),
            order_count: 0,
            gross: zero,
            platform_fees: zero,
            refunded: zero,
            net: zero,
            tax: zero,
            subsidised: zero,
        },
    };
    let settled = match add_settlement(start, shop) {
        Ok(report) => report,
        Err(error) => return Err(error),
    };
    let done = match add_refunds(settled, order, &shop.shop_id) {
        Ok(report) => report,
        Err(error) => return Err(error),
    };
    reports.insert(shop.shop_id.to_text(), done);
    Ok(())
}

fn find_funder(reports: &OrderedMap<FunderReport>, funder: &AccountId, currency: Currency) -> (
report: FunderReport)
    ensures
        report == funder_figures(reports@, *funder, currency),
{
    let zero = Money::zero(currency);
    match reports.get(funder.as_str()) {
        Some(report) => report.clone(),
        None => FunderReport {
            funder: funder.clone(),
            funded: zero,
            reclaimed: zero,
            net: zero,
        },
    }
}

fn add_funded_order(reports: &mut OrderedMap<FunderReport>, order: &Order, currency: Currency) -> (
done: Result<(), Error>)
    ensures
        match done {
            Ok(_) => with_funded_order(old(reports)@, *order, currency) == Ok::<
                Map<Seq<char>, FunderReport>,
                ErrorView,
            >(final(reports)@),
            Err(error) => with_funded_order(old(reports)@, *order, currency) == Err::<
                Map<Seq<char>, FunderReport>,
                ErrorView,
            >(error@),
        },
{
    let ghost start = reports@;
    let ghost charges = order.settlement.funders@;
    let mut n: usize = 0;
    while n < order.settlement.funders.len()
        invariant
            start == old(reports)@,
            charges == order.settlement.funders@,
            n <= charges.len(),
            with_charges(start, charges, currency, n as int) == Ok::<
                Map<Seq<char>, FunderReport>,
                ErrorView,
            >(reports@),
        decreases charges.len() - n,
    {
        proof {
            if with_charges(start, charges, currency, n + 1) is Err {
                lemma_error_stays(
                    |k: int| with_charges(start, charges, currency, k),
                    n + 1,
                    charges.len() as int,
                );
            }
        }
        let charge = &order.settlement.funders[n];
        let mut report = find_funder(reports, &charge.funder, currency);
        report.funded =
        match report.funded.try_add(charge.amount) {
            Ok(sum) => sum,
            Err(error) => return Err(error),
        };
        reports.insert(charge.funder.to_text(), report);
        n += 1;
    }
    let ghost charged = reports@;
    let ghost records = order.refunds@;
    let mut k: usize = 0;
    while k < order.refunds.len()
        invariant
            start == old(reports)@,
            charges == order.settlement.funders@,
            with_charges(start, charges, currency, charges.len() as int) == Ok::<
                Map<Seq<char>, FunderReport>,
                ErrorView,
            >(charged),
            records == order.refunds@,
            k <= records.len(),
            with_reclaim_records(charged, records, currency, k as int) == Ok::<
                Map<Seq<char>, FunderReport>,
                ErrorView,
            >(reports@),
        decreases records.len() - k,
    {
        proof {
            if with_reclaim_records(charged, records, currency, k + 1) is Err {
                lemma_error_stays(
                    |k: int| with_reclaim_records(charged, records, currency, k),
                    k + 1,
                    records.len() as int,
                );
            }
        }
        let list = &order.refunds[k].plan.funders;
        let ghost from = reports@;
        let mut m: usize = 0;
        while m < list.len()
            invariant
                start == old(reports)@,
                charges == order.settlement.funders@,
                with_charges(start, charges, currency, charges.len() as int) == Ok::<
                    Map<Seq<char>, FunderReport>,
                    ErrorView,
                >(charged),
                records == order.refunds@,
                k < records.len(),
                *list == records[k as int].plan.funders,
                with_reclaim_records(charged, records, currency, k as int) == Ok::<
                    Map<Seq<char>, FunderReport>,
                    ErrorView,
                >(from),
                with_reclaim_records(charged, records, currency, k + 1) is Err
                    ==> with_reclaim_records(charged, records, currency, records.len() as int)
                    == with_reclaim_records(charged, records, currency, k + 1),
                m <= list@.len(),
                with_reclaims(from, list@, currency, m as int) == Ok::<
                    Map<Seq<char>, FunderReport>,
                    ErrorView,
                >(reports@),
            decreases list@.len() - m,
        {
            proof {
                if with_reclaims(from, list@, currency, m + 1) is Err {
                    lemma_error_stays(
                        |k: int| with_reclaims(from, list@, currency, k),
                        m + 1,
                        list@.len() as int,
                    );
                }
            }
            let mut report = find_funder(reports, &list[m].funder, currency);
            report.reclaimed =
            match report.reclaimed.try_add(list[m].amount) {
                Ok(sum) => sum,
                Err(error) => return Err(error),
            };
            reports.insert(list[m].funder.to_text(), report);
            m += 1;
        }
        k += 1;
    }
    Ok(())
}

/// Computes reports from a listing of the order store.
#[derive(Clone)]
pub struct Reporting<'a> {
    orders: Vec<&'a Order>,
}

impl<'a> Reporting<'a> {
    /// The orders to report on.
    pub closed spec fn listing(self) -> Seq<Order> {
        values_of(self.orders@)
    }

    /// Build a reporting service over every order.
    pub fn new(orders: Vec<&'a Order>) -> (reporting: Self)
        ensures
            reporting.listing() == values_of(orders@),
    {
        Reporting { orders }
    }

    /// Headline sales figures.
    pub fn sales(&self, currency: Currency, range: DateRange) -> (report: Result<SalesReport, Error>)
        ensures
            match report {
                Ok(made) => sales_of(self.listing(), currency, range) == Ok::<
                    SalesView,
                    ErrorView,
                >(made@),
                Err(error) => sales_of(self.listing(), currency, range) == Err::<
                    SalesView,
                    ErrorView,
                >(error@),
            },
    {
        let ghost orders = self.listing();
        let zero = Money::zero(currency);
        let mut report = SalesReport {
            currency,
            range,
            order_count: 0,
            gross_volume: zero,
            refunded: zero,
            net_volume: zero,
            tax_collected: zero,
            platform_fees: zero,
            subsidies: zero,
            merchant_discounts: zero,
            shipping: zero,
            by_status: OrderedMap::new(),
        };
        let mut n: usize = 0;
        while n < self.orders.len()
            invariant
                orders == self.listing(),
                n <= self.orders@.len(),
                report.currency == currency,
                report.range == range,
                report.order_count <= n,
                forall|key: Seq<char>| #[trigger] report.by_status@.contains_key(key) ==> report.by_status@[key] <= n,
                sales_so_far(orders, currency, range, n as int) == Ok::<SalesView, ErrorView>(
                    report@,
                ),
            decreases self.orders@.len() - n,
        {
            proof {
                if sales_so_far(orders, currency, range, n + 1) is Err {
                    lemma_error_stays(
                        |k: int| sales_so_far(orders, currency, range, k),
                        n + 1,
                        orders.len() as int,
                    );
                }
            }
            let order = self.orders[n];
            assert(orders[n as int] == *order);
            if order.currency == currency && range.contains(order.created_at) {
                let label = status_label(order.status);
                let count: u64 = match report.by_status.get(label.as_str()) {
                    Some(count) => *count,
                    None => 0,
                };
                report.by_status.insert(label, count + 1);
                if has_collected(order) {
                    report.order_count = report.order_count + 1;
                    report.gross_volume =
                    match report.gross_volume.try_add(order.amount_captured) {
                        Ok(sum) => sum,
                        Err(error) => return Err(error),
                    };
                    report.refunded =
                    match report.refunded.try_add(order.amount_refunded) {
                        Ok(sum) => sum,
                        Err(error) => return Err(error),
                    };
                    report.tax_collected =
                    match report.tax_collected.try_add(order.quote.totals.tax) {
                        Ok(sum) => sum,
                        Err(error) => return Err(error),
                    };
                    report.platform_fees =
                    match report.platform_fees.try_add(order.settlement.platform_fee_total) {
                        Ok(sum) => sum,
                        Err(error) => return Err(error),
                    };
                    report.subsidies =
                    match report.subsidies.try_add(order.quote.totals.subsidy_discount) {
                        Ok(sum) => sum,
                        Err(error) => return Err(error),
                    };
                    report.merchant_discounts =
                    match report.merchant_discounts.try_add(order.quote.totals.merchant_discount) {
                        Ok(sum) => sum,
                        Err(error) => return Err(error),
                    };
                    report.shipping =
                    match report.shipping.try_add(order.quote.totals.shipping) {
                        Ok(sum) => sum,
                        Err(error) => return Err(error),
                    };
                }
            }
            n += 1;
        }
        report.net_volume =
        match report.gross_volume.try_sub(report.refunded) {
            Ok(net) => net,
            Err(error) => return Err(error),
        };
        Ok(report)
    }

    /// Per-shop settlement figures, sorted by net descending; shops with equal net amounts
    /// stand in the order of their identifiers.
    pub fn by_shop(&self, currency: Currency, range: DateRange) -> (reports: Result<
        Vec<ShopReport>,
        Error,
    >)
        ensures
            match reports {
                Ok(list) => {
                    let figures = shop_figures(self.listing(), currency, range);
                    figures is Ok && is_sorted_by(
                        list@,
                        figures->Ok_0,
                        largest_net_first(figures->Ok_0),
                    )
                },
                Err(error) => shop_figures(self.listing(), currency, range) == Err::<
                    Seq<ShopReport>,
                    ErrorView,
                >(error@),
            },
    {
        let ghost orders = self.listing();
        let mut reports: OrderedMap<ShopReport> = OrderedMap::new();
        let mut n: usize = 0;
        while n < self.orders.len()
            invariant
                orders == self.listing(),
                n <= self.orders@.len(),
                shops_so_far(orders, currency, range, n as int) == Ok::<
                    Map<Seq<char>, ShopReport>,
                    ErrorView,
                >(reports@),
            decreases self.orders@.len() - n,
        {
            proof {
                if shops_so_far(orders, currency, range, n + 1) is Err {
                    lemma_error_stays(
                        |k: int| shops_so_far(orders, currency, range, k),
                        n + 1,
                        orders.len() as int,
                    );
                }
            }
            let order = self.orders[n];
            assert(orders[n as int] == *order);
            if order.currency == currency && range.contains(order.created_at) && has_collected(
                order,
            ) {
                match Self::add_shops(&mut reports, order, currency) {
                    Ok(_) => {},
                    Err(error) => return Err(error),
                }
            }
            n += 1;
        }
        let list = match Self::net_list(&reports) {
            Ok(list) => list,
            Err(error) => return Err(error),
        };
        Ok(Self::sort_by_net(list))
    }

    fn add_shops(reports: &mut OrderedMap<ShopReport>, order: &Order, currency: Currency) -> (
    done: Result<(), Error>)
        ensures
            match done {
                Ok(_) => with_shops(
                    old(reports)@,
                    *order,
                    currency,
                    order.settlement.shops@.len() as int,
                ) == Ok::<Map<Seq<char>, ShopReport>, ErrorView>(final(reports)@),
                Err(error) => with_shops(
                    old(reports)@,
                    *order,
                    currency,
                    order.settlement.shops@.len() as int,
                ) == Err::<Map<Seq<char>, ShopReport>, ErrorView>(error@),
            },
    {
        let ghost start = reports@;
        let ghost count = order.settlement.shops@.len() as int;
        let mut n: usize = 0;
        while n < order.settlement.shops.len()
            invariant
                start == old(reports)@,
                count == order.settlement.shops@.len(),
                n <= count,
                with_shops(start, *order, currency, n as int) == Ok::<
                    Map<Seq<char>, ShopReport>,
                    ErrorView,
                >(reports@),
            decreases count - n,
        {
            proof {
                if with_shops(start, *order, currency, n + 1) is Err {
                    lemma_error_stays(
                        |k: int| with_shops(start, *order, currency, k),
                        n + 1,
                        count,
                    );
                }
            }
            match add_shop_settlement(reports, order, &order.settlement.shops[n], currency) {
                Ok(_) => {},
                Err(error) => return Err(error),
            }
            n += 1;
        }
        Ok(())
    }

    fn net_list(reports: &OrderedMap<ShopReport>) -> (list: Result<Vec<ShopReport>, Error>)
        ensures
            list_outcome(list) == netted_list(reports@, listed(reports@).len() as int),
    {
        let count = reports.len();
        let mut list: Vec<ShopReport> = Vec::new();
        let mut n: usize = 0;
        while n < count
            invariant
                n <= count,
                count == reports.keys().len(),
                reports.keys() == listed(reports@),
                netted_list(reports@, n as int) == Ok::<Seq<ShopReport>, ErrorView>(list@),
            decreases count - n,
        {
            proof {
                if netted_list(reports@, n + 1) is Err {
                    lemma_error_stays(|k: int| netted_list(reports@, k), n + 1, count as int);
                }
            }
            let mut report = reports.value_at(n).clone();
            let rest = match report.gross.try_sub(report.platform_fees) {
                Ok(rest) => rest,
                Err(error) => return Err(error),
            };
            report.net =
            match rest.try_sub(report.refunded) {
                Ok(net) => net,
                Err(error) => return Err(error),
            };
            list.push(report);
            n += 1;
        }
        Ok(list)
    }

    fn sort_by_net(list: Vec<ShopReport>) -> (sorted: Vec<ShopReport>)
        ensures
            is_sorted_by(sorted@, list@, largest_net_first(list@)),
    {
        let ghost all = largest_net_first(list@);
        let mut ranks: Vec<Rank> = Vec::new();
        let mut i: usize = 0;
        while i < list.len()
            invariant
                i <= list@.len(),
                all == largest_net_first(list@),
                ranks@ == all.take(i as int),
            decreases list@.len() - i,
        {
            ranks.push(Rank { first: -(list[i].net.minor() as i128), second: 0, third: 0 });
            i += 1;
            assert(ranks@ =~= all.take(i as int));
        }
        assert(ranks@ =~= all);
        let order = sort_positions(&ranks);
        let ghost wanted = Seq::new(order@.len(), |k: int| list@[order@[k] as int]);
        let mut sorted: Vec<ShopReport> = Vec::new();
        let mut n: usize = 0;
        assert(sorted@ =~= wanted.take(0));
        while n < order.len()
            invariant
                n <= order@.len(),
                is_sorting(order@, ranks@),
                list@.len() == ranks@.len(),
                wanted == Seq::new(order@.len(), |k: int| list@[order@[k] as int]),
                sorted@ == wanted.take(n as int),
            decreases order@.len() - n,
        {
            assert(order@[n as int] < ranks@.len());
            sorted.push(list[order[n]].clone());
            n += 1;
            assert(sorted@ =~= wanted.take(n as int));
        }
        assert(wanted.take(n as int) =~= wanted);
        sorted
    }

    /// What each third-party funder owes, net of reclaims, in the order of the funders'
    /// accounts.
    pub fn by_funder(&self, currency: Currency, range: DateRange) -> (reports: Result<
        Vec<FunderReport>,
        Error,
    >)
        ensures
            list_outcome(reports) == funder_report(self.listing(), currency, range),
    {
        let ghost orders = self.listing();
        let mut reports: OrderedMap<FunderReport> = OrderedMap::new();
        let mut n: usize = 0;
        while n < self.orders.len()
            invariant
                orders == self.listing(),
                n <= self.orders@.len(),
                funders_so_far(orders, currency, range, n as int) == Ok::<
                    Map<Seq<char>, FunderReport>,
                    ErrorView,
                >(reports@),
            decreases self.orders@.len() - n,
        {
            proof {
                if funders_so_far(orders, currency, range, n + 1) is Err {
                    lemma_error_stays(
                        |k: int| funders_so_far(orders, currency, range, k),
                        n + 1,
                        orders.len() as int,
                    );
                }
            }
            let order = self.orders[n];
            assert(orders[n as int] == *order);
            if order.currency == currency && range.contains(order.created_at) {
                match add_funded_order(&mut reports, order, currency) {
                    Ok(_) => {},
                    Err(error) => return Err(error),
                }
            }
            n += 1;
        }
        let count = reports.len();
        let mut list: Vec<FunderReport> = Vec::new();
        let mut k: usize = 0;
        while k < count
            invariant
                orders == self.listing(),
                funders_so_far(orders, currency, range, orders.len() as int) == Ok::<
                    Map<Seq<char>, FunderReport>,
                    ErrorView,
                >(reports@),
                k <= count,
                count == reports.keys().len(),
                reports.keys() == listed(reports@),
                charged_list(reports@, k as int) == Ok::<Seq<FunderReport>, ErrorView>(list@),
            decreases count - k,
        {
            proof {
                if charged_list(reports@, k + 1) is Err {
                    lemma_error_stays(|k: int| charged_list(reports@, k), k + 1, count as int);
                }
            }
            let mut report = reports.value_at(k).clone();
            report.net =
            match report.funded.try_sub(report.reclaimed) {
                Ok(net) => net,
                Err(error) => return Err(error),
            };
            list.push(report);
            k += 1;
        }
        Ok(list)
    }
}

/// The headline figures agree with each other: what shoppers paid, less what went back, is
/// the net volume.
pub proof fn law_net_volume_agrees(orders: Seq<Order>, currency: Currency, range: DateRange)
    ensures
        sales_of(orders, currency, range) matches Ok(report) ==> {
            &&& report.net_volume.minor == report.gross_volume.minor - report.refunded.minor
            &&& report.currency == currency
            &&& report.range == range
        },
{
    lemma_sales_scope(orders, currency, range, orders.len() as int);
}

proof fn lemma_sales_scope(orders: Seq<Order>, currency: Currency, range: DateRange, n: int)
    ensures
        sales_so_far(orders, currency, range, n) matches Ok(report) ==> report.currency == currency
            && report.range == range,
    decreases n,
{
    if n > 0 {
        lemma_sales_scope(orders, currency, range, n - 1);
    }
}

/// Orders outside the range or in another currency change no report.
pub proof fn law_ranges_and_currencies_filter(
    orders: Seq<Order>,
    other: Order,
    currency: Currency,
    range: DateRange,
)
    requires
        !reported(other, currency, range),
    ensures
        sales_of(orders.push(other), currency, range) == sales_of(orders, currency, range),
        shop_figures(orders.push(other), currency, range) == shop_figures(orders, currency, range),
        funder_report(orders.push(other), currency, range) == funder_report(
            orders,
            currency,
            range,
        ),
{
    let more = orders.push(other);
    let count = orders.len() as int;
    lemma_prefix_figures(orders, more, currency, range, count);
    lemma_sales_scope(orders, currency, range, count);
}

proof fn lemma_prefix_figures(
    orders: Seq<Order>,
    more: Seq<Order>,
    currency: Currency,
    range: DateRange,
    n: int,
)
    requires
        0 <= n <= orders.len() <= more.len(),
        forall|i: int| 0 <= i < orders.len() ==> orders[i] == #[trigger] more[i],
    ensures
        sales_so_far(orders, currency, range, n) == sales_so_far(more, currency, range, n),
        shops_so_far(orders, currency, range, n) == shops_so_far(more, currency, range, n),
        funders_so_far(orders, currency, range, n) == funders_so_far(more, currency, range, n),
    decreases n,
{
    if n > 0 {
        lemma_prefix_figures(orders, more, currency, range, n - 1);
        assert(orders[n - 1] == more[n - 1]);
    }
}

/// A range holds an instant from its start on and before its end.
pub proof fn law_ranges_end_before_their_end(range: DateRange, at: Timestamp)
    requires
        at.normal(),
        range.from.normal(),
        range.to.normal(),
    ensures
        range.holds(at) <==> range.from.instant() <= at.instant() < range.to.instant(),
{
}

/// An order collected money exactly when something of it was captured, whether or not it
/// went back; one that is drafted, pending, only authorised, cancelled or failed did not.
pub proof fn law_captured_orders_count(order: Order)
    ensures
        collected(order) <==> !(order.status is Draft || order.status is PendingPayment
            || order.status is Authorized || order.status is Canceled || order.status is Failed),
{
}

/// An order in the range and the currency of a report that collected money adds each of its
/// own figures to the report, and one to the number of orders.
pub proof fn law_sales_add_up(
    orders: Seq<Order>,
    order: Order,
    currency: Currency,
    range: DateRange,
)
    requires
        order.currency == currency,
        range.holds(order.created_at),
        orders.len() < u64::MAX,
        sales_of(orders, currency, range) is Ok,
        sales_of(orders.push(order), currency, range) is Ok,
    ensures
        ({
            let before = sales_of(orders, currency, range)->Ok_0;
            let after = sales_of(orders.push(order), currency, range)->Ok_0;
            let label = lower(order.status.name());
            &&& after.by_status.contains_key(label)
            &&& after.by_status[label] == count_under(before.by_status, label) + 1
            &&& forall|other: Seq<char>|
                other != label ==> #[trigger] count_under(after.by_status, other) == count_under(
                    before.by_status,
                    other,
                )
            &&& collected(order) ==> {
                &&& after.order_count == before.order_count + 1
                &&& after.gross_volume.minor == before.gross_volume.minor
                    + order.amount_captured.minor
                &&& after.refunded.minor == before.refunded.minor + order.amount_refunded.minor
                &&& after.net_volume.minor == before.net_volume.minor + order.amount_captured.minor
                    - order.amount_refunded.minor
                &&& after.tax_collected.minor == before.tax_collected.minor
                    + order.quote.totals.tax.minor
                &&& after.platform_fees.minor == before.platform_fees.minor
                    + order.settlement.platform_fee_total.minor
                &&& after.subsidies.minor == before.subsidies.minor
                    + order.quote.totals.subsidy_discount.minor
                &&& after.merchant_discounts.minor == before.merchant_discounts.minor
                    + order.quote.totals.merchant_discount.minor
                &&& after.shipping.minor == before.shipping.minor
                    + order.quote.totals.shipping.minor
            }
            &&& !collected(order) ==> {
                &&& after.order_count == before.order_count
                &&& after.gross_volume == before.gross_volume
                &&& after.refunded == before.refunded
                &&& after.net_volume == before.net_volume
                &&& after.tax_collected == before.tax_collected
                &&& after.platform_fees == before.platform_fees
                &&& after.shipping == before.shipping
            }
        }),
        sales_of(Seq::empty(), currency, range)->Ok_0.gross_volume.minor == 0,
        sales_of(Seq::empty(), currency, range)->Ok_0.order_count == 0,
{
    let more = orders.push(order);
    let count = orders.len() as int;
    lemma_prefix_figures(orders, more, currency, range, count);
    lemma_sales_scope(orders, currency, range, count);
    lemma_orders_are_counted(orders, currency, range, count);
    assert(more[count] == order);
}

proof fn lemma_orders_are_counted(
    orders: Seq<Order>,
    currency: Currency,
    range: DateRange,
    n: int,
)
    requires
        0 <= n < u64::MAX,
        sales_so_far(orders, currency, range, n) is Ok,
    ensures
        sales_so_far(orders, currency, range, n)->Ok_0.order_count <= n,
        forall|label: Seq<char>| #[trigger]
            count_under(sales_so_far(orders, currency, range, n)->Ok_0.by_status, label) <= n,
    decreases n,
{
    if n > 0 {
        lemma_orders_are_counted(orders, currency, range, n - 1);
        let before = sales_so_far(orders, currency, range, n - 1)->Ok_0;
        let order = orders[n - 1];
        let label = lower(order.status.name());
        assert(count_under(before.by_status, label) <= n - 1);
        assert forall|other: Seq<char>| #[trigger]
            count_under(
                sales_so_far(orders, currency, range, n)->Ok_0.by_status,
                other,
            ) <= n by {
            assert(count_under(before.by_status, other) <= n - 1);
        }
    }
}

/// The mean order is worth the gross volume over the number of orders, to the nearest minor
/// unit.
pub proof fn law_the_mean_times_the_count_is_the_volume(report: SalesReport)
    requires
        0 < report.order_count <= i64::MAX,
    ensures
        -report.order_count <= 2 * (report.mean().minor * report.order_count
            - report.gross_volume.minor) <= report.order_count,
{
    let count = report.order_count as int;
    let volume = report.gross_volume.minor as int;
    law_scaling_is_proportional(report.gross_volume, 1, count, Rounding::HalfEven);
    assert(volume * 1 == volume);
    assert(i64::MIN * count <= volume <= i64::MAX * count) by (nonlinear_arith)
        requires
            i64::MIN <= volume <= i64::MAX,
            count >= 1,
    ;
}

/// What an order settles with a shop adds to each figure of the shop, and what it gave back
/// to the shopper, with the commission that went back, is taken into account.
pub proof fn law_settlements_add_to_their_shop(
    report: ShopReport,
    shop: ShopSettlement,
    refund: ShopRefund,
)
    ensures
        with_settlement(report, shop) matches Ok(after) ==> {
            &&& after.gross.minor == report.gross.minor + shop.gross.minor
            &&& after.platform_fees.minor == report.platform_fees.minor + shop.platform_fee.minor
            &&& after.tax.minor == report.tax.minor + shop.tax.minor
            &&& after.subsidised.minor == report.subsidised.minor + shop.funded_by_subsidy.minor
            &&& after.refunded == report.refunded
            &&& report.order_count < u64::MAX ==> after.order_count == report.order_count + 1
            &&& after.shop_id == report.shop_id
        },
        refund.shop_id@ == report.shop_id@ ==> (with_refund(report, refund, report.shop_id@)
            matches Ok(after) ==> {
            &&& after.refunded.minor == report.refunded.minor + refund.gross.minor
            &&& after.platform_fees.minor == report.platform_fees.minor
                - refund.platform_fee_returned.minor
            &&& after.gross == report.gross
            &&& after.tax == report.tax
            &&& after.subsidised == report.subsidised
            &&& after.order_count == report.order_count
        }),
        refund.shop_id@ != report.shop_id@ ==> with_refund(report, refund, report.shop_id@)
            == Ok::<ShopReport, ErrorView>(report),
{
}

/// A shop nets its gross less the commission it paid and what went back to shoppers.
pub proof fn law_shops_net_what_they_keep(
    orders: Seq<Order>,
    currency: Currency,
    range: DateRange,
    i: int,
)
    requires
        shop_figures(orders, currency, range) is Ok,
        0 <= i < shop_figures(orders, currency, range)->Ok_0.len(),
    ensures
        ({
            let shop = shop_figures(orders, currency, range)->Ok_0[i];
            shop.net.minor == shop.gross.minor - shop.platform_fees.minor - shop.refunded.minor
        }),
{
    let reports = shops_so_far(orders, currency, range, orders.len() as int)->Ok_0;
    lemma_netted_list(reports, listed(reports).len() as int, i);
}

proof fn lemma_netted_list(reports: Map<Seq<char>, ShopReport>, n: int, i: int)
    requires
        0 <= n,
        netted_list(reports, n) is Ok,
    ensures
        netted_list(reports, n)->Ok_0.len() == n,
        0 <= i < n ==> ({
            let shop = netted_list(reports, n)->Ok_0[i];
            let figures = reports[listed(reports)[i]];
            &&& shop.net.minor == shop.gross.minor - shop.platform_fees.minor
                - shop.refunded.minor
            &&& shop == (ShopReport { net: shop.net, ..figures })
        }),
    decreases n,
{
    if n > 0 {
        lemma_netted_list(reports, n - 1, i);
    }
}

/// A new order touches the figures of its own shops and of no other: a shop that it does
/// not settle with keeps its figures.
pub proof fn law_other_shops_keep_their_figures(
    orders: Seq<Order>,
    order: Order,
    currency: Currency,
    range: DateRange,
    shop: Seq<char>,
)
    requires
        shops_so_far(orders, currency, range, orders.len() as int) is Ok,
        shops_so_far(orders.push(order), currency, range, orders.len() as int + 1) is Ok,
        forall|i: int|
            0 <= i < order.settlement.shops@.len() ==> (
            #[trigger] order.settlement.shops@[i]).shop_id@ != shop,
    ensures
        ({
            let before = shops_so_far(orders, currency, range, orders.len() as int)->Ok_0;
            let after = shops_so_far(
                orders.push(order),
                currency,
                range,
                orders.len() as int + 1,
            )->Ok_0;
            &&& after.contains_key(shop) == before.contains_key(shop)
            &&& before.contains_key(shop) ==> after[shop] == before[shop]
        }),
{
    let more = orders.push(order);
    let count = orders.len() as int;
    lemma_prefix_figures(orders, more, currency, range, count);
    assert(more[count] == order);
    let before = shops_so_far(orders, currency, range, count)->Ok_0;
    if reported(order, currency, range) && collected(order) {
        lemma_other_shops(before, order, currency, order.settlement.shops@.len() as int, shop);
    }
}

proof fn lemma_other_shops(
    reports: Map<Seq<char>, ShopReport>,
    order: Order,
    currency: Currency,
    n: int,
    shop: Seq<char>,
)
    requires
        0 <= n <= order.settlement.shops@.len(),
        with_shops(reports, order, currency, n) is Ok,
        forall|i: int|
            0 <= i < n ==> (#[trigger] order.settlement.shops@[i]).shop_id@ != shop,
    ensures
        with_shops(reports, order, currency, n)->Ok_0.contains_key(shop) == reports.contains_key(
            shop,
        ),
        reports.contains_key(shop) ==> with_shops(reports, order, currency, n)->Ok_0[shop]
            == reports[shop],
    decreases n,
{
    if n > 0 {
        lemma_other_shops(reports, order, currency, n - 1, shop);
        assert(order.settlement.shops@[n - 1].shop_id@ != shop);
    }
}

/// The gross figures of a shop go up by what a new order settles with it, whatever the order
/// gave back since, as long as the order collected money and is reported.
pub proof fn law_orders_add_to_their_shops(
    orders: Seq<Order>,
    order: Order,
    currency: Currency,
    range: DateRange,
    at: int,
)
    requires
        reported(order, currency, range),
        collected(order),
        shops_so_far(orders, currency, range, orders.len() as int) is Ok,
        shops_so_far(orders.push(order), currency, range, orders.len() as int + 1) is Ok,
        0 <= at < order.settlement.shops@.len(),
        forall|i: int|
            0 <= i < order.settlement.shops@.len() && i != at ==> (
            #[trigger] order.settlement.shops@[i]).shop_id@
                != order.settlement.shops@[at].shop_id@,
    ensures
        ({
            let settled = order.settlement.shops@[at];
            let shop = settled.shop_id@;
            let before = shops_so_far(orders, currency, range, orders.len() as int)->Ok_0;
            let after = shops_so_far(
                orders.push(order),
                currency,
                range,
                orders.len() as int + 1,
            )->Ok_0;
            &&& after.contains_key(shop)
            &&& before.contains_key(shop) ==> {
                &&& after[shop].gross.minor == before[shop].gross.minor + settled.gross.minor
                &&& after[shop].tax.minor == before[shop].tax.minor + settled.tax.minor
                &&& after[shop].subsidised.minor == before[shop].subsidised.minor
                    + settled.funded_by_subsidy.minor
                &&& order.refunds@.len() == 0 ==> after[shop].platform_fees.minor
                    == before[shop].platform_fees.minor + settled.platform_fee.minor
                    && after[shop].refunded == before[shop].refunded
            }
            &&& !before.contains_key(shop) ==> {
                &&& after[shop].gross.minor == settled.gross.minor
                &&& after[shop].tax.minor == settled.tax.minor
                &&& after[shop].order_count == 1
            }
        }),
{
    let more = orders.push(order);
    let count = orders.len() as int;
    lemma_prefix_figures(orders, more, currency, range, count);
    assert(more[count] == order);
    let shops = order.settlement.shops@;
    let shop = shops[at].shop_id@;
    let before = shops_so_far(orders, currency, range, count)->Ok_0;
    lemma_shops_step(before, order, currency, shops.len() as int, at);
    lemma_other_shops(before, order, currency, at, shop);
    let here = with_shops(before, order, currency, at)->Ok_0;
    let start = if here.contains_key(shop) {
        here[shop]
    } else {
        no_figures(shops[at].shop_id, currency)
    };
    let settled = with_settlement(start, shops[at])->Ok_0;
    lemma_records_keep_the_gross(settled, order.refunds@, shop, order.refunds@.len() as int);
}

proof fn lemma_shops_step(
    reports: Map<Seq<char>, ShopReport>,
    order: Order,
    currency: Currency,
    n: int,
    at: int,
)
    requires
        0 <= at < n <= order.settlement.shops@.len(),
        with_shops(reports, order, currency, n) is Ok,
        forall|i: int|
            0 <= i < order.settlement.shops@.len() && i != at ==> (
            #[trigger] order.settlement.shops@[i]).shop_id@
                != order.settlement.shops@[at].shop_id@,
    ensures
        ({
            let shop = order.settlement.shops@[at].shop_id@;
            let here = with_shops(reports, order, currency, at + 1);
            &&& with_shops(reports, order, currency, at) is Ok
            &&& here is Ok
            &&& here->Ok_0.contains_key(shop)
            &&& with_shops(reports, order, currency, n)->Ok_0.contains_key(shop)
            &&& with_shops(reports, order, currency, n)->Ok_0[shop] == here->Ok_0[shop]
        }),
    decreases n,
{
    if n > at + 1 {
        lemma_shops_step(reports, order, currency, n - 1, at);
        assert(order.settlement.shops@[n - 1].shop_id@ != order.settlement.shops@[at].shop_id@);
    }
}

proof fn lemma_refunds_keep_the_gross(
    report: ShopReport,
    list: Seq<ShopRefund>,
    shop: Seq<char>,
    n: int,
)
    requires
        with_refunds(report, list, shop, n) is Ok,
    ensures
        with_refunds(report, list, shop, n)->Ok_0.gross == report.gross,
        with_refunds(report, list, shop, n)->Ok_0.tax == report.tax,
        with_refunds(report, list, shop, n)->Ok_0.subsidised == report.subsidised,
        with_refunds(report, list, shop, n)->Ok_0.order_count == report.order_count,
    decreases n,
{
    if n > 0 {
        lemma_refunds_keep_the_gross(report, list, shop, n - 1);
    }
}

proof fn lemma_records_keep_the_gross(
    report: ShopReport,
    records: Seq<RefundRecord>,
    shop: Seq<char>,
    n: int,
)
    requires
        with_records(report, records, shop, n) is Ok,
    ensures
        with_records(report, records, shop, n)->Ok_0.gross == report.gross,
        with_records(report, records, shop, n)->Ok_0.tax == report.tax,
        with_records(report, records, shop, n)->Ok_0.subsidised == report.subsidised,
        with_records(report, records, shop, n)->Ok_0.order_count == report.order_count,
        n <= 0 ==> with_records(report, records, shop, n)->Ok_0 == report,
    decreases n,
{
    if n > 0 {
        lemma_records_keep_the_gross(report, records, shop, n - 1);
        let before = with_records(report, records, shop, n - 1)->Ok_0;
        let list = records[n - 1].plan.shops@;
        lemma_refunds_keep_the_gross(before, list, shop, list.len() as int);
    }
}

/// Shops are ranked by what they net, the one that nets most first.
pub proof fn law_best_shops_come_first(list: Seq<ShopReport>, i: int, j: int)
    requires
        0 <= i < list.len(),
        0 <= j < list.len(),
    ensures
        largest_net_first(list)[i].before(largest_net_first(list)[j]) <==> list[i].net.minor
            > list[j].net.minor,
{
}

/// One more charge adds to what its funder paid for and to nothing else; one more reclaim
/// adds to what its funder got back and to nothing else.
pub proof fn law_funders_are_billed_by_charge(
    reports: Map<Seq<char>, FunderReport>,
    charges: Seq<FunderCharge>,
    refunds: Seq<FunderRefund>,
    currency: Currency,
    n: int,
    other: Seq<char>,
)
    requires
        n >= 0,
    ensures
        with_charges(reports, charges, currency, n + 1) is Ok ==> ({
            let before = with_charges(reports, charges, currency, n)->Ok_0;
            let after = with_charges(reports, charges, currency, n + 1)->Ok_0;
            let charge = charges[n];
            let funder = charge.funder@;
            &&& after.contains_key(funder)
            &&& after[funder].funded.minor == charge.amount.minor + if before.contains_key(
                funder,
            ) {
                before[funder].funded.minor as int
            } else {
                0
            }
            &&& before.contains_key(funder) ==> after[funder].reclaimed
                == before[funder].reclaimed
            &&& other != funder ==> after.contains_key(other) == before.contains_key(other)
                && after[other] == before[other]
        }),
        with_reclaims(reports, refunds, currency, n + 1) is Ok ==> ({
            let before = with_reclaims(reports, refunds, currency, n)->Ok_0;
            let after = with_reclaims(reports, refunds, currency, n + 1)->Ok_0;
            let refund = refunds[n];
            let funder = refund.funder@;
            &&& after.contains_key(funder)
            &&& after[funder].reclaimed.minor == refund.amount.minor + if before.contains_key(
                funder,
            ) {
                before[funder].reclaimed.minor as int
            } else {
                0
            }
            &&& before.contains_key(funder) ==> after[funder].funded == before[funder].funded
            &&& other != funder ==> after.contains_key(other) == before.contains_key(other)
                && after[other] == before[other]
        }),
{
}

/// Every reported order is charged to its funders, whatever its status: the first charge of
/// an order with nothing refunded adds its amount.
pub proof fn law_reported_orders_are_charged(
    orders: Seq<Order>,
    order: Order,
    currency: Currency,
    range: DateRange,
)
    requires
        reported(order, currency, range),
        order.settlement.funders@.len() == 1,
        order.refunds@.len() == 0,
        funders_so_far(orders, currency, range, orders.len() as int) is Ok,
        funders_so_far(orders.push(order), currency, range, orders.len() as int + 1) is Ok,
    ensures
        ({
            let before = funders_so_far(orders, currency, range, orders.len() as int)->Ok_0;
            let after = funders_so_far(
                orders.push(order),
                currency,
                range,
                orders.len() as int + 1,
            )->Ok_0;
            let charge = order.settlement.funders@[0];
            &&& after.contains_key(charge.funder@)
            &&& after[charge.funder@].funded.minor == charge.amount.minor
                + if before.contains_key(charge.funder@) {
                before[charge.funder@].funded.minor as int
            } else {
                0
            }
        }),
{
    let more = orders.push(order);
    let count = orders.len() as int;
    lemma_prefix_figures(orders, more, currency, range, count);
    assert(more[count] == order);
    let before = funders_so_far(orders, currency, range, count)->Ok_0;
    reveal_with_fuel(with_charges, 2);
}

/// A funder is out of pocket by what it paid for less what it got back.
pub proof fn law_funders_net_what_they_paid(
    orders: Seq<Order>,
    currency: Currency,
    range: DateRange,
    i: int,
)
    requires
        funder_report(orders, currency, range) is Ok,
        0 <= i < funder_report(orders, currency, range)->Ok_0.len(),
    ensures
        ({
            let funder = funder_report(orders, currency, range)->Ok_0[i];
            funder.net.minor == funder.funded.minor - funder.reclaimed.minor
        }),
{
    let reports = funders_so_far(orders, currency, range, orders.len() as int)->Ok_0;
    lemma_charged_list(reports, listed(reports).len() as int, i);
}

proof fn lemma_charged_list(reports: Map<Seq<char>, FunderReport>, n: int, i: int)
    requires
        0 <= n,
        charged_list(reports, n) is Ok,
    ensures
        charged_list(reports, n)->Ok_0.len() == n,
        0 <= i < n ==> ({
            let funder = charged_list(reports, n)->Ok_0[i];
            funder.net.minor == funder.funded.minor - funder.reclaimed.minor
        }),
    decreases n,
{
    if n > 0 {
        lemma_charged_list(reports, n - 1, i);
    }
}

/// The refund rate is to the whole as what was refunded is to the gross volume, to the
/// nearest basis point.
pub proof fn law_refund_rates_are_shares_of_the_volume(report: SalesReport)
    requires
        report.gross_volume.minor > 0,
        0 <= report.refunded.minor <= report.gross_volume.minor,
        report.refunded.currency == report.gross_volume.currency,
    ensures
        ({
            let off = report.refund_rate() * report.gross_volume.minor - report.refunded.minor
                * 10_000;
            -report.gross_volume.minor <= 2 * off <= report.gross_volume.minor
        }),
{
    let part = report.refunded.minor as int;
    let whole = report.gross_volume.minor as int;
    assert(i64::MIN * whole <= part * 10_000 <= i64::MAX * whole) by (nonlinear_arith)
        requires
            0 <= part <= whole,
            whole > 0,
    ;
    law_ratios_are_in_basis_points(report.refunded, report.gross_volume);
}

} // verus!
