//! The pricing engine: turns a [`Cart`] into a fully-costed [`Quote`].
//!
//! The engine is pure apart from the call into the [`TaxCalculator`], which makes it
//! cheap enough to run on every keystroke for the live totals a checkout page needs.
//!
//! # The money identity
//!
//! Every quote satisfies, for each line and in aggregate:
//!
//! ```text
//! merchant_gross = customer_total + subsidy_total
//! ```
//!
//! In words: what a shop is owed equals what the shopper pays plus what
//! third-party funders pay on the shopper's behalf. [`Quote::verify`] checks
//! this and is called automatically at the end of [`PricingEngine::quote`], so a
//! rounding regression can never silently reach settlement.

pub mod discount;
pub mod quote_laws;
pub mod fx;
pub mod state;
pub mod tax;
pub mod totals;

pub use discount::{
    order_for_application, Discount, DiscountConditions, DiscountFunding, DiscountScope,
    DiscountValue,
};
pub use fx::{CurrencyConverter, ExchangeRate, StaticCurrencyConverter};
pub use tax::{
    NoTaxCalculator, RateTableTaxCalculator, TaxCalculator, TaxCode, TaxComponent, TaxLineRequest,
    TaxLineResult, TaxMode, TaxQuote, TaxRequest, TaxRule,
};

use vstd::prelude::*;

use crate::address::{CountryCode, Jurisdiction};
use crate::cart::Cart;
use crate::collections::OrderedMap;
use crate::error::{outcome, Error, ErrorView};
use crate::folds::lemma_prefix_error_stays;
use crate::ids::{AccountId, DiscountId, FulfillmentGroupId, LineItemId, ShopId};
use crate::money::{law_total_is_the_sum, minors, Currency, Money, Rounding};
use crate::pricing::discount::{
    application_order, check_combination, is_application_order, ordering_result, positions,
};
use crate::pricing::state::{
    applied, fresh, line_views, request_views, shipping_views, taxables, LineView, PricingState,
    ShippingView, StateView, TaxableView,
};
use crate::pricing::tax::result_index;
use crate::pricing::totals::{
    balance, check_balance, collect_charges, column, finished, lemma_line_entries_balance,
    lemma_shipping_entries_balance, line_charges, line_entries, per_shop, price_figures,
    quote_totals, shipping_charges, shipping_entries, shop_totals, subsidy_totals, subsidy_views,
    Charge, Column, Entry, Figures, FinishedView,
};
use crate::sums::{lemma_sum_concat, sum};
use crate::time::Timestamp;

verus! {

/// A discount as it landed on one specific line or shipment.
#[derive(Debug, PartialEq)]
pub struct AppliedDiscount {
    /// The promotion that produced this amount.
    pub discount_id: DiscountId,
    /// Promotion code, if it had one.
    pub code: Option<String>,
    /// Receipt description.
    pub description: String,
    /// Who pays for it.
    pub funding: DiscountFunding,
    /// The amount taken off here.
    pub amount: Money,
    /// Whether this amount lowered the taxable base.
    pub reduced_taxable_base: bool,
}

impl Clone for AppliedDiscount {
    fn clone(&self) -> (applied: Self)
        ensures
            applied == *self,
    {
        AppliedDiscount {
            discount_id: self.discount_id.clone(),
            code: self.code.clone(),
            description: self.description.clone(),
            funding: self.funding.clone(),
            amount: self.amount,
            reduced_taxable_base: self.reduced_taxable_base,
        }
    }
}

impl AppliedDiscount {
    /// The subsidising account, if this discount is third-party funded.
    pub fn funder(&self) -> (funder: Option<&AccountId>)
        ensures
            match funder {
                Some(account) => self.funding.payer() == Some(*account),
                None => self.funding.payer() is None,
            },
    {
        self.funding.funder()
    }
}

/// A fully priced cart line.
#[derive(Debug, Clone, PartialEq)]
pub struct PricedLine {
    /// The cart line this came from.
    pub line_id: LineItemId,
    /// Selling shop.
    pub shop_id: ShopId,
    /// Merchant SKU.
    pub sku: String,
    /// Display name.
    pub name: String,
    /// Units purchased.
    pub quantity: u32,
    /// Price per unit.
    pub unit_price: Money,
    /// `unit_price * quantity`.
    pub subtotal: Money,
    /// Discounts that landed on this line.
    pub discounts: Vec<AppliedDiscount>,
    /// Portion of the discounts funded by the shop itself.
    pub merchant_discount: Money,
    /// Portion of the discounts funded by third parties.
    pub subsidy_discount: Money,
    /// Amount tax was computed on.
    pub taxable_base: Money,
    /// Tax for this line.
    pub tax: Money,
    /// Per-jurisdiction tax breakdown.
    pub tax_components: Vec<TaxComponent>,
    /// What the shopper pays for this line.
    pub customer_total: Money,
    /// What the shop is owed for this line, before platform fees.
    pub merchant_gross: Money,
    /// The fulfilment group this line ships in.
    pub fulfillment_group_id: Option<FulfillmentGroupId>,
}

/// A fully priced shipment charge.
#[derive(Debug, Clone, PartialEq)]
pub struct PricedShipping {
    /// The shipment.
    pub group_id: FulfillmentGroupId,
    /// Shop responsible for it.
    pub shop_id: ShopId,
    /// List price of the shipment.
    pub price: Money,
    /// Discounts applied (e.g. free-shipping promotions).
    pub discounts: Vec<AppliedDiscount>,
    /// Shop-funded portion of the discounts.
    pub merchant_discount: Money,
    /// Third-party-funded portion of the discounts.
    pub subsidy_discount: Money,
    /// Amount tax was computed on.
    pub taxable_base: Money,
    /// Tax on the shipping charge.
    pub tax: Money,
    /// What the shopper pays for shipping.
    pub customer_total: Money,
    /// What the shop is owed for shipping.
    pub merchant_gross: Money,
}

/// Aggregate figures for a whole quote.
#[derive(Debug, Clone, Copy, PartialEq, Structural)]
pub struct QuoteTotals {
    /// Sum of all line subtotals before any discount.
    pub subtotal: Money,
    /// Sum of all shipping list prices.
    pub shipping: Money,
    /// Discounts funded by shops.
    pub merchant_discount: Money,
    /// Discounts funded by third parties.
    pub subsidy_discount: Money,
    /// Total tax.
    pub tax: Money,
    /// What the shopper owes: this is the amount to collect with tenders.
    pub total: Money,
    /// What all shops are owed in aggregate, before platform fees.
    pub merchant_gross: Money,
}

/// Per-shop aggregation, the basis for split settlement.
#[derive(Debug, Clone, PartialEq)]
pub struct ShopTotals {
    /// The shop.
    pub shop_id: ShopId,
    /// Items subtotal before discounts.
    pub subtotal: Money,
    /// Shipping list price.
    pub shipping: Money,
    /// Shop-funded discounts.
    pub merchant_discount: Money,
    /// Third-party-funded discounts on this shop's items.
    pub subsidy_discount: Money,
    /// Tax collected on this shop's supply.
    pub tax: Money,
    /// Shopper-paid amount attributable to this shop.
    pub customer_total: Money,
    /// Amount owed to the shop before platform fees.
    pub merchant_gross: Money,
}

/// How much one funder owes, and for what.
#[derive(Debug, Clone, PartialEq)]
pub struct SubsidyTotals {
    /// Account that will be billed.
    pub funder: AccountId,
    /// Total subsidised, across all shops.
    pub amount: Money,
    /// Breakdown per shop, so each shop can be reimbursed correctly.
    pub per_shop: OrderedMap<Money>,
}

/// A complete, immutable pricing result.
#[derive(Debug, Clone, PartialEq)]
pub struct Quote {
    /// Currency of every amount in the quote.
    pub currency: Currency,
    /// Tax treatment used.
    pub tax_mode: TaxMode,
    /// Priced lines, in cart order.
    pub lines: Vec<PricedLine>,
    /// Priced shipments.
    pub shipping: Vec<PricedShipping>,
    /// Aggregates.
    pub totals: QuoteTotals,
    /// Per-shop aggregates.
    pub shop_totals: Vec<ShopTotals>,
    /// Per-funder aggregates.
    pub subsidies: Vec<SubsidyTotals>,
    /// Promotion codes that were rejected, with the reason, so the UI can
    /// explain why a code the shopper typed did nothing.
    pub rejected_discounts: Vec<RejectedDiscount>,
    /// When this quote was produced.
    pub priced_at: Timestamp,
}

/// A promotion that could not be applied.
#[derive(Debug, Clone, PartialEq)]
pub struct RejectedDiscount {
    /// The code the shopper entered, or the promotion description.
    pub code: String,
    /// Why it was rejected, safe to show to the shopper.
    pub reason: String,
}

/// The position of a shop's totals in a list, or the length when there are none.
pub open spec fn shop_position(list: Seq<ShopTotals>, shop: Seq<char>) -> int {
    totals::shop_index(list, shop)
}

impl Quote {
    /// The amount the shopper must pay.
    pub fn amount_due(&self) -> (due: Money)
        ensures
            due == self.totals.total,
    {
        self.totals.total
    }

    /// Totals for one shop.
    pub fn shop(&self, shop_id: &ShopId) -> (totals: Option<&ShopTotals>)
        ensures
            ({
                let at = shop_position(self.shop_totals@, shop_id@);
                match totals {
                    Some(found) => 0 <= at < self.shop_totals@.len() && *found
                        == self.shop_totals@[at] && found.shop_id@ == shop_id@,
                    None => at == self.shop_totals@.len() && forall|i: int|
                        0 <= i < self.shop_totals@.len() ==> (
                        #[trigger] self.shop_totals@[i]).shop_id@ != shop_id@,
                }
            }),
    {
        let mut i: usize = 0;
        while i < self.shop_totals.len()
            invariant
                i <= self.shop_totals@.len(),
                forall|j: int|
                    0 <= j < i ==> (#[trigger] self.shop_totals@[j]).shop_id@ != shop_id@,
            decreases self.shop_totals@.len() - i,
        {
            if self.shop_totals[i].shop_id.same(shop_id) {
                proof {
                    totals::lemma_shop_index(self.shop_totals@, shop_id@, i as int);
                }
                return Some(&self.shop_totals[i]);
            }
            i += 1;
        }
        proof {
            totals::lemma_shop_index(self.shop_totals@, shop_id@, i as int);
        }
        None
    }

    /// Check the core money identity. Called automatically after pricing.
    pub fn verify(&self) -> (verified: Result<(), Error>)
        ensures
            outcome(verified) == balance(
                self.totals,
                self.shop_totals@,
                subsidy_views(self.subsidies@),
                self.currency,
            ),
    {
        check_balance(&self.totals, &self.shop_totals, &self.subsidies, self.currency)
    }
}

/// Configuration for [`PricingEngine`].
#[derive(Debug, Clone)]
pub struct PricingConfig {
    /// Whether catalogue prices contain tax.
    pub tax_mode: TaxMode,
    /// Rounding used for percentages and prorations.
    pub rounding: Rounding,
    /// Jurisdiction used when the cart has no address yet, so that a checkout
    /// page can still show plausible live totals.
    pub fallback_jurisdiction: Jurisdiction,
}

impl Default for PricingConfig {
    fn default() -> (config: Self)
        ensures
            config == (PricingConfig {
                tax_mode: TaxMode::Exclusive,
                rounding: Rounding::HalfUp,
                fallback_jurisdiction: Jurisdiction {
                    country: CountryCode::US,
                    region: None,
                    postal_code: None,
                },
            }),
    {
        PricingConfig {
            tax_mode: TaxMode::Exclusive,
            rounding: Rounding::HalfUp,
            fallback_jurisdiction: Jurisdiction::country(CountryCode::US),
        }
    }
}

/// A promotion that could not be applied, with its texts.
pub ghost struct RejectedView {
    /// The code the shopper entered, or the promotion description.
    pub code: Seq<char>,
    /// Why it was rejected.
    pub reason: Seq<char>,
}

impl View for RejectedDiscount {
    type V = RejectedView;

    open spec fn view(&self) -> RejectedView {
        RejectedView { code: self.code@, reason: self.reason@ }
    }
}

/// The views of a list of rejected promotions.
pub open spec fn rejected_views(list: Seq<RejectedDiscount>) -> Seq<RejectedView> {
    list.map_values(|rejected: RejectedDiscount| rejected@)
}

/// The working set and the rejected promotions after the first `n` of the promotions
/// listed in `order`. A promotion that cannot be applied changes nothing.
pub open spec fn after_discounts(
    state: StateView,
    discounts: Seq<Discount>,
    order: Seq<int>,
    n: int,
    rounding: Rounding,
    now: Timestamp,
    currency: Currency,
) -> (StateView, Seq<RejectedView>)
    decreases n,
{
    if n <= 0 {
        (state, Seq::empty())
    } else {
        let (before, rejected) = after_discounts(
            state,
            discounts,
            order,
            n - 1,
            rounding,
            now,
            currency,
        );
        let discount = discounts[order[n - 1]];
        match applied(before, discount, rounding, now, currency) {
            Ok(after) => (after, rejected),
            Err(error) => (
                before,
                rejected.push(
                    RejectedView { code: discount.label(), reason: error.shopper_text() },
                ),
            ),
        }
    }
}

/// The working set and the rejected promotions once all promotions were considered. When
/// they cannot be combined, none is applied.
pub open spec fn considered(
    state: StateView,
    discounts: Seq<Discount>,
    order: Seq<int>,
    combined: Result<(), ErrorView>,
    rounding: Rounding,
    now: Timestamp,
    currency: Currency,
) -> (StateView, Seq<RejectedView>) {
    match combined {
        Ok(_) => after_discounts(
            state,
            discounts,
            order,
            order.len() as int,
            rounding,
            now,
            currency,
        ),
        Err(error) => (
            state,
            seq![RejectedView { code: "*"@, reason: error.shopper_text() }],
        ),
    }
}

/// The working set of a cart with its promotions, and those that were rejected.
pub open spec fn begun(
    cart: Cart,
    discounts: Seq<Discount>,
    order: Seq<int>,
    combined: Result<(), ErrorView>,
    rounding: Rounding,
    now: Timestamp,
) -> Result<(StateView, Seq<RejectedView>), ErrorView> {
    match cart.check() {
        Err(error) => Err(error),
        Ok(_) => match fresh(cart) {
            Err(error) => Err(error),
            Ok(state) => Ok(
                considered(state, discounts, order, combined, rounding, now, cart.currency),
            ),
        },
    }
}

/// Whether `result` is what a cart comes to before tax, its promotions considered in
/// their order of application.
pub open spec fn begins(
    cart: Cart,
    discounts: Seq<Discount>,
    rounding: Rounding,
    now: Timestamp,
    result: Result<(StateView, Seq<RejectedView>), ErrorView>,
) -> bool {
    exists|order: Seq<int>, combined: Result<(), ErrorView>| #[trigger]
        ordering_result(discounts, order, combined) && is_application_order(discounts, order)
            && result == begun(cart, discounts, order, combined, rounding, now)
}

/// Where the supply of a cart is consumed.
pub open spec fn destination(cart: Cart, fallback: Jurisdiction) -> Jurisdiction {
    match cart.shipping_address {
        Some(address) => address.place(),
        None => match cart.billing_address {
            Some(address) => address.place(),
            None => fallback,
        },
    }
}

/// Whether a priced line is a line with its figures and the tax computed for it.
pub open spec fn is_priced_line(
    priced: PricedLine,
    line: LineView,
    made: Figures,
    results: Seq<TaxLineResult>,
) -> bool {
    &&& priced.line_id == line.line_id
    &&& priced.shop_id == line.shop_id
    &&& priced.sku == line.sku
    &&& priced.name == line.name
    &&& priced.quantity == line.quantity
    &&& priced.unit_price == line.unit_price
    &&& priced.subtotal == line.subtotal
    &&& priced.discounts@ == line.discounts
    &&& priced.merchant_discount == made.merchant_discount
    &&& priced.subsidy_discount == made.subsidy_discount
    &&& priced.taxable_base == made.taxable_base
    &&& priced.tax == made.tax
    &&& priced.tax_components@ == results[result_index(results, line.line_id@)].components@
    &&& priced.customer_total == made.customer_total
    &&& priced.merchant_gross == made.merchant_gross
    &&& priced.fulfillment_group_id == line.fulfillment_group_id
}

/// Whether a priced shipment is a shipment with its figures.
pub open spec fn is_priced_shipping(
    priced: PricedShipping,
    group: ShippingView,
    made: Figures,
) -> bool {
    &&& priced.group_id == group.group_id
    &&& priced.shop_id == group.shop_id
    &&& priced.price == group.price
    &&& priced.discounts@ == group.discounts
    &&& priced.merchant_discount == made.merchant_discount
    &&& priced.subsidy_discount == made.subsidy_discount
    &&& priced.taxable_base == made.taxable_base
    &&& priced.tax == made.tax
    &&& priced.customer_total == made.customer_total
    &&& priced.merchant_gross == made.merchant_gross
}

/// Whether a quote is a working set with everything it adds up to.
pub open spec fn is_quote(
    quote: Quote,
    state: StateView,
    results: Seq<TaxLineResult>,
    made: FinishedView,
    currency: Currency,
    mode: TaxMode,
) -> bool {
    &&& quote.currency == currency
    &&& quote.tax_mode == mode
    &&& quote.lines@.len() == state.lines.len()
    &&& forall|i: int|
        0 <= i < state.lines.len() ==> is_priced_line(
            #[trigger] quote.lines@[i],
            state.lines[i],
            made.entries[i].figures,
            results,
        )
    &&& quote.shipping@.len() == state.shipping.len()
    &&& forall|i: int|
        0 <= i < state.shipping.len() ==> is_priced_shipping(
            #[trigger] quote.shipping@[i],
            state.shipping[i],
            made.entries[state.lines.len() + i].figures,
        )
    &&& quote.totals == made.totals
    &&& quote.shop_totals@ == made.shops
    &&& subsidy_views(quote.subsidies@) == made.subsidies
}

/// What finishing a quote returns.
pub open spec fn quote_result(
    state: StateView,
    results: Seq<TaxLineResult>,
    currency: Currency,
    mode: TaxMode,
    priced_at: Timestamp,
    rejected: Seq<RejectedView>,
    quote: Result<Quote, Error>,
) -> bool {
    match finished(state, results, currency, mode) {
        Err(error) => quote is Err && quote->Err_0@ == error,
        Ok(made) => {
            &&& quote is Ok
            &&& is_quote(quote->Ok_0, state, results, made, currency, mode)
            &&& rejected_views(quote->Ok_0.rejected_discounts@) == rejected
            &&& quote->Ok_0.priced_at == priced_at
        },
    }
}

fn copy_discounts(discounts: &Vec<AppliedDiscount>) -> (copy: Vec<AppliedDiscount>)
    ensures
        copy@ == discounts@,
{
    let mut copy: Vec<AppliedDiscount> = Vec::new();
    let mut i: usize = 0;
    while i < discounts.len()
        invariant
            i <= discounts@.len(),
            copy@ == discounts@.take(i as int),
        decreases discounts@.len() - i,
    {
        copy.push(discounts[i].clone());
        i += 1;
        assert(copy@ =~= discounts@.take(i as int));
    }
    assert(copy@ =~= discounts@);
    copy
}

fn copy_components(components: &Vec<TaxComponent>) -> (copy: Vec<TaxComponent>)
    ensures
        copy@ == components@,
{
    let mut copy: Vec<TaxComponent> = Vec::new();
    let mut i: usize = 0;
    while i < components.len()
        invariant
            i <= components@.len(),
            copy@ == components@.take(i as int),
        decreases components@.len() - i,
    {
        copy.push(components[i].clone());
        i += 1;
        assert(copy@ =~= components@.take(i as int));
    }
    assert(copy@ =~= components@);
    copy
}

impl PricingState {
    fn price_lines(
        &self,
        tax_quote: &TaxQuote,
        currency: Currency,
        mode: TaxMode,
    ) -> (priced: Result<(Vec<PricedLine>, Vec<Entry>), Error>)
        ensures
            match priced {
                Ok((lines, entries)) => {
                    &&& line_entries(self@.lines, tax_quote.lines@, currency, mode) == Ok::<
                        Seq<Entry>,
                        ErrorView,
                    >(entries@)
                    &&& lines@.len() == self@.lines.len()
                    &&& entries@.len() == self@.lines.len()
                    &&& forall|i: int|
                        0 <= i < lines@.len() ==> is_priced_line(
                            #[trigger] lines@[i],
                            self@.lines[i],
                            entries@[i].figures,
                            tax_quote.lines@,
                        )
                },
                Err(error) => line_entries(self@.lines, tax_quote.lines@, currency, mode) == Err::<
                    Seq<Entry>,
                    ErrorView,
                >(error@),
            },
    {
        let ghost views = line_views(self.lines@);
        let ghost results = tax_quote.lines@;
        let mut lines: Vec<PricedLine> = Vec::new();
        let mut entries: Vec<Entry> = Vec::new();
        let mut n: usize = 0;
        assert(views.take(0) =~= Seq::<LineView>::empty());
        while n < self.lines.len()
            invariant
                views == line_views(self.lines@),
                results == tax_quote.lines@,
                n <= views.len(),
                line_entries(views.take(n as int), results, currency, mode) == Ok::<
                    Seq<Entry>,
                    ErrorView,
                >(entries@),
                lines@.len() == n,
                entries@.len() == n,
                forall|i: int|
                    0 <= i < n ==> is_priced_line(
                        #[trigger] lines@[i],
                        views[i],
                        entries@[i].figures,
                        results,
                    ),
            decreases views.len() - n,
        {
            assert(views.take(n + 1).drop_last() =~= views.take(n as int));
            assert(views[n as int] == self.lines@[n as int]@);
            let line = &self.lines[n];
            let made = match price_figures(
                line.subtotal,
                &line.discounts,
                tax_quote,
                line.line_id.as_str(),
                currency,
                mode,
            ) {
                Ok(made) => made,
                Err(error) => {
                    proof {
                        lemma_prefix_error_stays(
                            |part: Seq<LineView>| line_entries(part, results, currency, mode),
                            views,
                            n + 1,
                        );
                    }
                    return Err(error);
                },
            };
            let tax_components = match tax_quote.line(line.line_id.as_str()) {
                Some(result) => copy_components(&result.components),
                None => Vec::new(),
            };
            lines.push(
                PricedLine {
                    line_id: line.line_id.clone(),
                    shop_id: line.shop_id.clone(),
                    sku: line.sku.clone(),
                    name: line.name.clone(),
                    quantity: line.quantity,
                    unit_price: line.unit_price,
                    subtotal: line.subtotal,
                    discounts: copy_discounts(&line.discounts),
                    merchant_discount: made.merchant_discount,
                    subsidy_discount: made.subsidy_discount,
                    taxable_base: made.taxable_base,
                    tax: made.tax,
                    tax_components,
                    customer_total: made.customer_total,
                    merchant_gross: made.merchant_gross,
                    fulfillment_group_id: line.fulfillment_group_id.clone(),
                },
            );
            let ghost before = entries@;
            entries.push(
                Entry {
                    shop_id: line.shop_id.clone(),
                    subtotal: line.subtotal,
                    shipping: Money::zero(currency),
                    figures: made,
                },
            );
            assert(is_priced_line(
                lines@[n as int],
                views[n as int],
                entries@[n as int].figures,
                results,
            ));
            assert forall|i: int| 0 <= i < n implies is_priced_line(
                #[trigger] lines@[i],
                views[i],
                entries@[i].figures,
                results,
            ) by {
                assert(entries@[i] == before[i]);
            }
            n += 1;
        }
        assert(views.take(n as int) =~= views);
        Ok((lines, entries))
    }

    fn price_shipping(
        &self,
        tax_quote: &TaxQuote,
        currency: Currency,
        mode: TaxMode,
    ) -> (priced: Result<(Vec<PricedShipping>, Vec<Entry>), Error>)
        ensures
            match priced {
                Ok((shipping, entries)) => {
                    &&& shipping_entries(self@.shipping, tax_quote.lines@, currency, mode) == Ok::<
                        Seq<Entry>,
                        ErrorView,
                    >(entries@)
                    &&& shipping@.len() == self@.shipping.len()
                    &&& entries@.len() == self@.shipping.len()
                    &&& forall|i: int|
                        0 <= i < shipping@.len() ==> is_priced_shipping(
                            #[trigger] shipping@[i],
                            self@.shipping[i],
                            entries@[i].figures,
                        )
                },
                Err(error) => shipping_entries(self@.shipping, tax_quote.lines@, currency, mode)
                    == Err::<Seq<Entry>, ErrorView>(error@),
            },
    {
        let ghost views = shipping_views(self.shipping@);
        let ghost results = tax_quote.lines@;
        let mut shipping: Vec<PricedShipping> = Vec::new();
        let mut entries: Vec<Entry> = Vec::new();
        let mut n: usize = 0;
        assert(views.take(0) =~= Seq::<ShippingView>::empty());
        while n < self.shipping.len()
            invariant
                views == shipping_views(self.shipping@),
                results == tax_quote.lines@,
                n <= views.len(),
                shipping_entries(views.take(n as int), results, currency, mode) == Ok::<
                    Seq<Entry>,
                    ErrorView,
                >(entries@),
                shipping@.len() == n,
                entries@.len() == n,
                forall|i: int|
                    0 <= i < n ==> is_priced_shipping(
                        #[trigger] shipping@[i],
                        views[i],
                        entries@[i].figures,
                    ),
            decreases views.len() - n,
        {
            assert(views.take(n + 1).drop_last() =~= views.take(n as int));
            assert(views[n as int] == self.shipping@[n as int]@);
            let group = &self.shipping[n];
            let made = match price_figures(
                group.price,
                &group.discounts,
                tax_quote,
                group.group_id.as_str(),
                currency,
                mode,
            ) {
                Ok(made) => made,
                Err(error) => {
                    proof {
                        lemma_prefix_error_stays(
                            |part: Seq<ShippingView>|
                                shipping_entries(part, results, currency, mode),
                            views,
                            n + 1,
                        );
                    }
                    return Err(error);
                },
            };
            shipping.push(
                PricedShipping {
                    group_id: group.group_id.clone(),
                    shop_id: group.shop_id.clone(),
                    price: group.price,
                    discounts: copy_discounts(&group.discounts),
                    merchant_discount: made.merchant_discount,
                    subsidy_discount: made.subsidy_discount,
                    taxable_base: made.taxable_base,
                    tax: made.tax,
                    customer_total: made.customer_total,
                    merchant_gross: made.merchant_gross,
                },
            );
            let ghost before = entries@;
            entries.push(
                Entry {
                    shop_id: group.shop_id.clone(),
                    subtotal: Money::zero(currency),
                    shipping: group.price,
                    figures: made,
                },
            );
            assert(is_priced_shipping(
                shipping@[n as int],
                views[n as int],
                entries@[n as int].figures,
            ));
            assert forall|i: int| 0 <= i < n implies is_priced_shipping(
                #[trigger] shipping@[i],
                views[i],
                entries@[i].figures,
            ) by {
                assert(entries@[i] == before[i]);
            }
            n += 1;
        }
        assert(views.take(n as int) =~= views);
        Ok((shipping, entries))
    }

    fn collect_all_charges(&self) -> (list: Vec<Charge>)
        ensures
            list@ == line_charges(self@.lines) + shipping_charges(self@.shipping),
    {
        let ghost views = line_views(self.lines@);
        let ghost groups = shipping_views(self.shipping@);
        let mut list: Vec<Charge> = Vec::new();
        let mut n: usize = 0;
        assert(views.take(0) =~= Seq::<LineView>::empty());
        while n < self.lines.len()
            invariant
                views == line_views(self.lines@),
                n <= views.len(),
                list@ == line_charges(views.take(n as int)),
            decreases views.len() - n,
        {
            assert(views.take(n + 1).drop_last() =~= views.take(n as int));
            assert(views[n as int] == self.lines@[n as int]@);
            collect_charges(&mut list, &self.lines[n].discounts, &self.lines[n].shop_id);
            n += 1;
        }
        assert(views.take(n as int) =~= views);
        let ghost first = list@;
        let mut g: usize = 0;
        assert(groups.take(0) =~= Seq::<ShippingView>::empty());
        assert(list@ =~= first + shipping_charges(groups.take(0)));
        while g < self.shipping.len()
            invariant
                groups == shipping_views(self.shipping@),
                g <= groups.len(),
                list@ == first + shipping_charges(groups.take(g as int)),
            decreases groups.len() - g,
        {
            assert(groups.take(g + 1).drop_last() =~= groups.take(g as int));
            assert(groups[g as int] == self.shipping@[g as int]@);
            collect_charges(&mut list, &self.shipping[g].discounts, &self.shipping[g].shop_id);
            g += 1;
            assert(list@ =~= first + shipping_charges(groups.take(g as int)));
        }
        assert(groups.take(g as int) =~= groups);
        list
    }

    /// Turn the working set into a quote, given the tax on each line and shipment.
    pub fn finish(
        &self,
        tax_quote: &TaxQuote,
        currency: Currency,
        tax_mode: TaxMode,
        priced_at: Timestamp,
        rejected_discounts: Vec<RejectedDiscount>,
    ) -> (quote: Result<Quote, Error>)
        ensures
            quote_result(
                self@,
                tax_quote.lines@,
                currency,
                tax_mode,
                priced_at,
                rejected_views(rejected_discounts@),
                quote,
            ),
    {
        let (lines, first) = match self.price_lines(tax_quote, currency, tax_mode) {
            Ok(priced) => priced,
            Err(error) => return Err(error),
        };
        let (shipping, second) = match self.price_shipping(tax_quote, currency, tax_mode) {
            Ok(priced) => priced,
            Err(error) => return Err(error),
        };
        let ghost line_list = first@;
        let ghost shipping_list = second@;
        let mut entries = first;
        let mut rest = second;
        entries.append(&mut rest);
        assert(entries@ =~= line_list + shipping_list);
        let shop_totals = match shop_totals(&entries, currency) {
            Ok(list) => list,
            Err(error) => return Err(error),
        };
        let list = self.collect_all_charges();
        let subsidies = match subsidy_totals(&list, currency) {
            Ok(list) => list,
            Err(error) => return Err(error),
        };
        let totals = match quote_totals(&entries, currency) {
            Ok(totals) => totals,
            Err(error) => return Err(error),
        };
        let quote = Quote {
            currency,
            tax_mode,
            lines,
            shipping,
            totals,
            shop_totals,
            subsidies,
            rejected_discounts,
            priced_at,
        };
        match quote.verify() {
            Ok(_) => {},
            Err(error) => return Err(error),
        }
        proof {
            let made = finished(self@, tax_quote.lines@, currency, tax_mode)->Ok_0;
            assert(made.entries == entries@);
            assert forall|i: int| 0 <= i < self@.lines.len() implies is_priced_line(
                #[trigger] quote.lines@[i],
                self@.lines[i],
                made.entries[i].figures,
                tax_quote.lines@,
            ) by {
                assert(entries@[i] == line_list[i]);
            }
            assert forall|i: int| 0 <= i < self@.shipping.len() implies is_priced_shipping(
                #[trigger] quote.shipping@[i],
                self@.shipping[i],
                made.entries[self@.lines.len() + i].figures,
            ) by {
                assert(entries@[line_list.len() + i] == shipping_list[i]);
            }
        }
        Ok(quote)
    }
}

/// Whether a request asks a tax calculator about a working set.
pub open spec fn is_tax_request(
    request: TaxRequest,
    lines: Seq<TaxableView>,
    currency: Currency,
    mode: TaxMode,
    place: Jurisdiction,
) -> bool {
    &&& request_views(request.lines@) == lines
    &&& request.currency == currency
    &&& request.mode == mode
    &&& request.destination == place
    &&& request.origin is None
    &&& request.customer_tax_id is None
}

/// What pricing a working set returns: whatever the tax calculator answers to the request
/// about it decides.
pub open spec fn taxed<T: TaxCalculator>(
    engine: PricingEngine<T>,
    cart: Cart,
    state: StateView,
    rejected: Seq<RejectedView>,
    now: Timestamp,
    quote: Result<Quote, Error>,
) -> bool {
    match taxables(state) {
        Err(error) => quote is Err && quote->Err_0@ == error,
        Ok(lines) => exists|request: TaxRequest, answer: Result<TaxQuote, Error>| #[trigger]
            call_ensures(T::quote, (&engine.tax, &request), answer) && is_tax_request(
                request,
                lines,
                cart.currency,
                engine.config.tax_mode,
                destination(cart, engine.config.fallback_jurisdiction),
            ) && match answer {
                Err(error) => quote == Err::<Quote, Error>(error),
                Ok(taxes) => quote_result(
                    state,
                    taxes.lines@,
                    cart.currency,
                    engine.config.tax_mode,
                    now,
                    rejected,
                    quote,
                ),
            },
    }
}

/// What pricing a cart at `now` returns.
pub open spec fn priced<T: TaxCalculator>(
    engine: PricingEngine<T>,
    cart: Cart,
    discounts: Seq<Discount>,
    now: Timestamp,
    quote: Result<Quote, Error>,
) -> bool {
    exists|result: Result<(StateView, Seq<RejectedView>), ErrorView>| #[trigger]
        begins(cart, discounts, engine.config.rounding, now, result) && match result {
            Err(error) => quote is Err && quote->Err_0@ == error,
            Ok((state, rejected)) => taxed(engine, cart, state, rejected, now, quote),
        }
}

/// Prices carts.
#[derive(Clone)]
pub struct PricingEngine<T: TaxCalculator> {
    /// Where taxes come from.
    pub tax: T,
    /// The configuration in use.
    pub config: PricingConfig,
}

impl<T: TaxCalculator> PricingEngine<T> {
    /// Build an engine with default configuration.
    pub fn new(tax: T) -> (engine: Self)
        ensures
            engine.tax == tax,
            engine.config == (PricingConfig {
                tax_mode: TaxMode::Exclusive,
                rounding: Rounding::HalfUp,
                fallback_jurisdiction: Jurisdiction {
                    country: CountryCode::US,
                    region: None,
                    postal_code: None,
                },
            }),
    {
        PricingEngine { tax, config: PricingConfig::default() }
    }

    /// Build an engine with explicit configuration.
    pub fn with_config(tax: T, config: PricingConfig) -> (engine: Self)
        ensures
            engine == (PricingEngine { tax, config }),
    {
        PricingEngine { tax, config }
    }

    /// The configuration in use.
    pub fn config(&self) -> (config: &PricingConfig)
        ensures
            *config == self.config,
    {
        &self.config
    }

    /// Apply the promotions to a cart, as they apply at `now`.
    ///
    /// Promotions that fail their eligibility conditions are skipped and reported
    /// rather than failing the whole quote — a shopper mistyping a promo code must
    /// not break checkout. A conflicting stack is reported too, and the cart is priced
    /// without any promotion rather than refusing to render a checkout page.
    pub fn begin(&self, cart: &Cart, discounts: &[Discount], now: Timestamp) -> (state: Result<
        (PricingState, Vec<RejectedDiscount>),
        Error,
    >)
        ensures
            begins(
                *cart,
                discounts@,
                self.config.rounding,
                now,
                match state {
                    Ok((set, rejected)) => Ok((set@, rejected_views(rejected@))),
                    Err(error) => Err(error@),
                },
            ),
    {
        let rounding = self.config.rounding;
        let currency = cart.currency;
        let order = application_order(discounts);
        let ghost places = positions(order@);
        let combined = check_combination(discounts, &order);
        let ghost combination = outcome(combined);
        assert(ordering_result(discounts@, places, combination));
        match cart.validate() {
            Ok(_) => {},
            Err(error) => return Err(error),
        }
        let mut state = match PricingState::new(cart) {
            Ok(state) => state,
            Err(error) => return Err(error),
        };
        let ghost start = state@;
        let mut rejected: Vec<RejectedDiscount> = Vec::new();
        match combined {
            Err(error) => {
                rejected.push(
                    RejectedDiscount {
                        code: "*".to_owned(),
                        reason: error.customer_message(),
                    },
                );
                assert(rejected_views(rejected@) =~= seq![
                    RejectedView { code: "*"@, reason: error@.shopper_text() },
                ]);
            },
            Ok(_) => {
                let mut n: usize = 0;
                assert(rejected_views(rejected@) =~= Seq::<RejectedView>::empty());
                while n < order.len()
                    invariant
                        n <= order@.len(),
                        places == positions(order@),
                        is_application_order(discounts@, places),
                        (state@, rejected_views(rejected@)) == after_discounts(
                            start,
                            discounts@,
                            places,
                            n as int,
                            rounding,
                            now,
                            currency,
                        ),
                    decreases order@.len() - n,
                {
                    assert(places[n as int] == order@[n as int] as int);
                    let ghost before = rejected_views(rejected@);
                    let discount = &discounts[order[n]];
                    match state.apply(discount, rounding, now, currency) {
                        Ok(_) => {},
                        Err(error) => {
                            rejected.push(
                                RejectedDiscount {
                                    code: discount.shown_as(),
                                    reason: error.customer_message(),
                                },
                            );
                            assert(rejected_views(rejected@) =~= before.push(
                                RejectedView {
                                    code: discount.label(),
                                    reason: error@.shopper_text(),
                                },
                            ));
                        },
                    }
                    n += 1;
                }
            },
        }
        Ok((state, rejected))
    }

    /// Where the supply of a cart is taxed.
    pub fn place_of_supply(&self, cart: &Cart) -> (place: Jurisdiction)
        ensures
            place == destination(*cart, self.config.fallback_jurisdiction),
    {
        match &cart.shipping_address {
            Some(address) => address.jurisdiction(),
            None => match &cart.billing_address {
                Some(address) => address.jurisdiction(),
                None => self.config.fallback_jurisdiction.clone(),
            },
        }
    }

    /// Price `cart` with `discounts` applied, as of `now`.
    pub fn quote_at(&self, cart: &Cart, discounts: &[Discount], now: Timestamp) -> (quote: Result<
        Quote,
        Error,
    >)
        ensures
            priced(*self, *cart, discounts@, now, quote),
    {
        let (state, rejected) = match self.begin(cart, discounts, now) {
            Ok(begun) => begun,
            Err(error) => return Err(error),
        };
        let ghost list = rejected_views(rejected@);
        let place = self.place_of_supply(cart);
        let request = match state.tax_request(cart.currency, self.config.tax_mode, place) {
            Ok(request) => request,
            Err(error) => {
                assert(taxed(*self, *cart, state@, list, now, Err(error)));
                return Err(error);
            },
        };
        let answer = self.tax.quote(&request);
        assert(call_ensures(T::quote, (&self.tax, &request), answer));
        let quote = match answer {
            Ok(taxes) => state.finish(
                &taxes,
                cart.currency,
                self.config.tax_mode,
                now,
                rejected,
            ),
            Err(error) => Err(error),
        };
        assert(taxed(*self, *cart, state@, list, now, quote));
        quote
    }

    /// Price `cart` with `discounts` applied.
    pub fn quote(&self, cart: &Cart, discounts: &[Discount]) -> (quote: Result<Quote, Error>)
        ensures
            exists|now: Timestamp| #[trigger] priced(*self, *cart, discounts@, now, quote),
    {
        let now = Timestamp::now();
        let quote = self.quote_at(cart, discounts, now);
        assert(priced(*self, *cart, discounts@, now, quote));
        quote
    }
}

/// What the shopper pays for each line, in minor units.
pub open spec fn line_totals(lines: Seq<PricedLine>) -> Seq<int> {
    lines.map_values(|line: PricedLine| line.customer_total.minor as int)
}

/// What the shopper pays for each shipping charge, in minor units.
pub open spec fn charge_totals(shipping: Seq<PricedShipping>) -> Seq<int> {
    shipping.map_values(|charge: PricedShipping| charge.customer_total.minor as int)
}

/// A quote adds up: its total is what the shopper pays for every line and every shipping
/// charge.
pub proof fn law_quotes_add_up(
    state: StateView,
    results: Seq<TaxLineResult>,
    currency: Currency,
    mode: TaxMode,
    priced_at: Timestamp,
    rejected: Seq<RejectedView>,
    quote: Result<Quote, Error>,
)
    requires
        quote_result(state, results, currency, mode, priced_at, rejected, quote),
    ensures
        quote matches Ok(made) ==> made.totals.total.minor == sum(line_totals(made.lines@)) + sum(
            charge_totals(made.shipping@),
        ),
{
    if quote is Ok {
        let made = quote->Ok_0;
        let entries = finished(state, results, currency, mode)->Ok_0.entries;
        let paid = column(entries, Column::CustomerTotal);
        let lines = line_totals(made.lines@);
        let charges = charge_totals(made.shipping@);
        law_total_is_the_sum(paid, currency);
        lemma_line_entries_balance(state.lines, results, currency, mode);
        lemma_shipping_entries_balance(state.shipping, results, currency, mode);
        assert forall|i: int| 0 <= i < entries.len() implies #[trigger] minors(paid)[i] == (lines
            + charges)[i] by {
            if i < lines.len() {
                assert(is_priced_line(made.lines@[i], state.lines[i], entries[i].figures, results));
            } else {
                let k = i - lines.len();
                assert(is_priced_shipping(
                    made.shipping@[k],
                    state.shipping[k],
                    entries[state.lines.len() + k].figures,
                ));
            }
        }
        assert(minors(paid) =~= lines + charges);
        lemma_sum_concat(lines, charges);
    }
}

} // verus!
