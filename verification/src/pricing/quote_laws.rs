//! What the figures of a quote are made of.

use vstd::prelude::*;

use crate::address::Jurisdiction;
use crate::cart::Cart;
use crate::error::ErrorView;
use crate::ids::ShopId;
use crate::money::{law_total_is_the_sum, minors, Currency, Money, Rounding};
use crate::pricing::discount::Discount;
use crate::pricing::state::{
    applied, fresh, request_views, taxable, LineView, ShippingView, StateView, TaxableView,
};
use crate::pricing::tax::{result_index, TaxLineResult, TaxMode, TaxRequest};
use crate::pricing::totals::{
    charges, column, figures, finished, funded, funder_index, lemma_line_entries_balance,
    lemma_shipping_entries_balance, lemma_shop_index, lemma_shop_index_bounds,
    lemma_shop_index_names, line_charges, per_funder, per_shop, shipping_charges, shop_index,
    subsidy_views, Charge, Column, Entry, SubsidyView,
};
use crate::pricing::{
    after_discounts, begun, destination, is_priced_line, is_priced_shipping, is_tax_request,
    quote_result,
    AppliedDiscount, PricedLine, PricedShipping, Quote, RejectedView, ShopTotals,
};
use crate::sums::{lemma_sum_concat, sum};
use crate::time::Timestamp;

verus! {

// One line or one shipping charge.

/// The discounts that the shop funds, or those that third parties fund, amount by amount.
pub open spec fn amounts_funded(discounts: Seq<AppliedDiscount>, by_third_parties: bool) -> Seq<
    int,
> {
    discounts.map_values(
        |discount: AppliedDiscount|
            if (discount.funding is Subsidy) == by_third_parties {
                discount.amount.minor as int
            } else {
                0
            },
    )
}

proof fn lemma_funded(discounts: Seq<AppliedDiscount>, currency: Currency)
    ensures
        funded(discounts, currency) matches Ok(split) ==> {
            &&& split.0.minor == sum(amounts_funded(discounts, false))
            &&& split.1.minor == sum(amounts_funded(discounts, true))
            &&& split.0.currency == currency
            &&& split.1.currency == currency
        },
    decreases discounts.len(),
{
    if discounts.len() > 0 {
        let rest = discounts.drop_last();
        lemma_funded(rest, currency);
        assert(amounts_funded(discounts, false).drop_last() =~= amounts_funded(rest, false));
        assert(amounts_funded(discounts, true).drop_last() =~= amounts_funded(rest, true));
    }
}

proof fn lemma_result_found(results: Seq<TaxLineResult>, reference: Seq<char>)
    ensures
        0 <= result_index(results, reference) <= results.len(),
        result_index(results, reference) < results.len() ==> results[result_index(
            results,
            reference,
        )].reference@ == reference,
        forall|k: int|
            0 <= k < result_index(results, reference) ==> (#[trigger] results[k]).reference@
                != reference,
    decreases results.len(),
{
    if results.len() > 0 && results[0].reference@ != reference {
        let rest = results.drop_first();
        lemma_result_found(rest, reference);
        assert forall|k: int| 0 <= k < result_index(results, reference) implies (
        #[trigger] results[k]).reference@ != reference by {
            if k > 0 {
                assert(rest[k - 1] == results[k]);
            }
        }
    }
}

/// The shopper pays the price less every discount, and the shop is owed the price less the
/// discounts it funds itself; where prices do not contain tax, both with the tax on top.
/// The tax is the one that was computed under the reference of the line or shipment.
pub proof fn law_prices_less_discounts_plus_tax(
    price: Money,
    discounts: Seq<AppliedDiscount>,
    results: Seq<TaxLineResult>,
    reference: Seq<char>,
    currency: Currency,
    mode: TaxMode,
)
    ensures
        figures(price, discounts, results, reference, currency, mode) matches Ok(made) ==> {
            let own = sum(amounts_funded(discounts, false));
            let others = sum(amounts_funded(discounts, true));
            let tax = if mode is Exclusive {
                made.tax.minor as int
            } else {
                0
            };
            &&& made.merchant_discount.minor == own
            &&& made.subsidy_discount.minor == others
            &&& made.customer_total.minor == price.minor - own - others + tax
            &&& made.merchant_gross.minor == price.minor - own + tax
            &&& taxable(price, discounts) == Ok::<Money, ErrorView>(made.taxable_base)
            &&& exists|r: int|
                0 <= r < results.len() && (#[trigger] results[r]).reference@ == reference
                    && made.tax == results[r].tax && forall|k: int|
                    0 <= k < r ==> (#[trigger] results[k]).reference@ != reference
        },
        (forall|k: int| 0 <= k < results.len() ==> (#[trigger] results[k]).reference@ != reference)
            ==> figures(price, discounts, results, reference, currency, mode) is Err,
{
    lemma_funded(discounts, currency);
    lemma_result_found(results, reference);
    let r = result_index(results, reference);
    if r < results.len() {
        assert(results[r].reference@ == reference);
    }
}

// A whole quote.

/// Every line of a quote is the line of the cart it was priced from, at its list price less
/// its discounts plus its tax.
pub proof fn law_quotes_price_every_line(
    state: StateView,
    results: Seq<TaxLineResult>,
    currency: Currency,
    mode: TaxMode,
    priced_at: Timestamp,
    rejected: Seq<RejectedView>,
    quote: Quote,
    i: int,
)
    requires
        quote_result(state, results, currency, mode, priced_at, rejected, Ok(quote)),
        0 <= i < state.lines.len(),
    ensures
        quote.lines@.len() == state.lines.len(),
        ({
            let line = state.lines[i];
            let priced = quote.lines@[i];
            let own = sum(amounts_funded(line.discounts, false));
            let others = sum(amounts_funded(line.discounts, true));
            let tax = if mode is Exclusive {
                priced.tax.minor as int
            } else {
                0
            };
            &&& priced.line_id == line.line_id
            &&& priced.shop_id == line.shop_id
            &&& priced.quantity == line.quantity
            &&& priced.subtotal == line.subtotal
            &&& priced.discounts@ == line.discounts
            &&& priced.fulfillment_group_id == line.fulfillment_group_id
            &&& priced.merchant_discount.minor == own
            &&& priced.subsidy_discount.minor == others
            &&& priced.customer_total.minor == line.subtotal.minor - own - others + tax
            &&& priced.merchant_gross.minor == line.subtotal.minor - own + tax
            &&& exists|r: int|
                0 <= r < results.len() && (#[trigger] results[r]).reference@ == line.line_id@
                    && priced.tax == results[r].tax
        }),
{
    let made = finished(state, results, currency, mode)->Ok_0;
    let line = state.lines[i];
    lemma_line_entries_balance(state.lines, results, currency, mode);
    assert(is_priced_line(quote.lines@[i], line, made.entries[i].figures, results));
    law_prices_less_discounts_plus_tax(
        line.subtotal,
        line.discounts,
        results,
        line.line_id@,
        currency,
        mode,
    );
}

/// Every shipping charge of a quote is the charge of the shipment it was priced from, at
/// its list price less its discounts plus its tax.
pub proof fn law_quotes_price_every_shipment(
    state: StateView,
    results: Seq<TaxLineResult>,
    currency: Currency,
    mode: TaxMode,
    priced_at: Timestamp,
    rejected: Seq<RejectedView>,
    quote: Quote,
    g: int,
)
    requires
        quote_result(state, results, currency, mode, priced_at, rejected, Ok(quote)),
        0 <= g < state.shipping.len(),
    ensures
        quote.shipping@.len() == state.shipping.len(),
        ({
            let group = state.shipping[g];
            let priced = quote.shipping@[g];
            let own = sum(amounts_funded(group.discounts, false));
            let others = sum(amounts_funded(group.discounts, true));
            let tax = if mode is Exclusive {
                priced.tax.minor as int
            } else {
                0
            };
            &&& priced.group_id == group.group_id
            &&& priced.shop_id == group.shop_id
            &&& priced.price == group.price
            &&& priced.discounts@ == group.discounts
            &&& priced.merchant_discount.minor == own
            &&& priced.subsidy_discount.minor == others
            &&& priced.customer_total.minor == group.price.minor - own - others + tax
            &&& priced.merchant_gross.minor == group.price.minor - own + tax
            &&& exists|r: int|
                0 <= r < results.len() && (#[trigger] results[r]).reference@ == group.group_id@
                    && priced.tax == results[r].tax
        }),
{
    let made = finished(state, results, currency, mode)->Ok_0;
    let group = state.shipping[g];
    lemma_line_entries_balance(state.lines, results, currency, mode);
    lemma_shipping_entries_balance(state.shipping, results, currency, mode);
    assert(is_priced_shipping(
        quote.shipping@[g],
        group,
        made.entries[state.lines.len() + g].figures,
    ));
    law_prices_less_discounts_plus_tax(
        group.price,
        group.discounts,
        results,
        group.group_id@,
        currency,
        mode,
    );
}

/// An amount of a priced line.
pub open spec fn line_amount(line: PricedLine, which: Column) -> int {
    match which {
        Column::Subtotal => line.subtotal.minor as int,
        Column::Shipping => 0,
        Column::MerchantDiscount => line.merchant_discount.minor as int,
        Column::SubsidyDiscount => line.subsidy_discount.minor as int,
        Column::Tax => line.tax.minor as int,
        Column::CustomerTotal => line.customer_total.minor as int,
        Column::MerchantGross => line.merchant_gross.minor as int,
    }
}

/// An amount of a priced shipping charge.
pub open spec fn charge_amount(charge: PricedShipping, which: Column) -> int {
    match which {
        Column::Subtotal => 0,
        Column::Shipping => charge.price.minor as int,
        Column::MerchantDiscount => charge.merchant_discount.minor as int,
        Column::SubsidyDiscount => charge.subsidy_discount.minor as int,
        Column::Tax => charge.tax.minor as int,
        Column::CustomerTotal => charge.customer_total.minor as int,
        Column::MerchantGross => charge.merchant_gross.minor as int,
    }
}

/// An amount of the totals of a shop.
pub open spec fn shop_amount(totals: ShopTotals, which: Column) -> int {
    match which {
        Column::Subtotal => totals.subtotal.minor as int,
        Column::Shipping => totals.shipping.minor as int,
        Column::MerchantDiscount => totals.merchant_discount.minor as int,
        Column::SubsidyDiscount => totals.subsidy_discount.minor as int,
        Column::Tax => totals.tax.minor as int,
        Column::CustomerTotal => totals.customer_total.minor as int,
        Column::MerchantGross => totals.merchant_gross.minor as int,
    }
}

/// An amount of the totals of a quote.
pub open spec fn quote_amount(quote: Quote, which: Column) -> int {
    match which {
        Column::Subtotal => quote.totals.subtotal.minor as int,
        Column::Shipping => quote.totals.shipping.minor as int,
        Column::MerchantDiscount => quote.totals.merchant_discount.minor as int,
        Column::SubsidyDiscount => quote.totals.subsidy_discount.minor as int,
        Column::Tax => quote.totals.tax.minor as int,
        Column::CustomerTotal => quote.totals.total.minor as int,
        Column::MerchantGross => quote.totals.merchant_gross.minor as int,
    }
}

/// An amount of every line, with nothing in place of other shops' lines where one is given.
pub open spec fn line_amounts(
    lines: Seq<PricedLine>,
    which: Column,
    shop: Option<Seq<char>>,
) -> Seq<int> {
    lines.map_values(
        |line: PricedLine|
            if shop is None || shop->0 == line.shop_id@ {
                line_amount(line, which)
            } else {
                0
            },
    )
}

/// An amount of every shipping charge, with nothing in place of other shops' charges where
/// one is given.
pub open spec fn charge_amounts(
    shipping: Seq<PricedShipping>,
    which: Column,
    shop: Option<Seq<char>>,
) -> Seq<int> {
    shipping.map_values(
        |charge: PricedShipping|
            if shop is None || shop->0 == charge.shop_id@ {
                charge_amount(charge, which)
            } else {
                0
            },
    )
}

spec fn entry_amounts(entries: Seq<Entry>, which: Column, shop: Option<Seq<char>>) -> Seq<int> {
    entries.map_values(
        |entry: Entry|
            if shop is None || shop->0 == entry.shop_id@ {
                entry.amount(which).minor as int
            } else {
                0
            },
    )
}

proof fn lemma_entries_are_lines_and_charges(
    state: StateView,
    results: Seq<TaxLineResult>,
    currency: Currency,
    mode: TaxMode,
    priced_at: Timestamp,
    rejected: Seq<RejectedView>,
    quote: Quote,
    which: Column,
    shop: Option<Seq<char>>,
)
    requires
        quote_result(state, results, currency, mode, priced_at, rejected, Ok(quote)),
    ensures
        sum(
            entry_amounts(finished(state, results, currency, mode)->Ok_0.entries, which, shop),
        ) == sum(line_amounts(quote.lines@, which, shop)) + sum(
            charge_amounts(quote.shipping@, which, shop),
        ),
{
    let made = finished(state, results, currency, mode)->Ok_0;
    let lines = line_amounts(quote.lines@, which, shop);
    let charged = charge_amounts(quote.shipping@, which, shop);
    let all = entry_amounts(made.entries, which, shop);
    lemma_line_entries_balance(state.lines, results, currency, mode);
    lemma_shipping_entries_balance(state.shipping, results, currency, mode);
    assert forall|i: int| 0 <= i < all.len() implies #[trigger] all[i] == (lines + charged)[i] by {
        if i < lines.len() {
            assert(is_priced_line(
                quote.lines@[i],
                state.lines[i],
                made.entries[i].figures,
                results,
            ));
            assert(state.lines[i].shop_id == made.entries[i].shop_id);
        } else {
            let g = i - lines.len();
            assert(is_priced_shipping(
                quote.shipping@[g],
                state.shipping[g],
                made.entries[state.lines.len() + g].figures,
            ));
            assert(state.shipping[g].shop_id == made.entries[i].shop_id);
        }
    }
    assert(all =~= lines + charged);
    lemma_sum_concat(lines, charged);
}

/// Every total of a quote is the sum of that amount over its lines and its shipping
/// charges: list prices, shipping prices, discounts by shops, discounts by third parties,
/// tax, what the shopper pays and what the shops are owed.
pub proof fn law_quote_totals_are_sums(
    state: StateView,
    results: Seq<TaxLineResult>,
    currency: Currency,
    mode: TaxMode,
    priced_at: Timestamp,
    rejected: Seq<RejectedView>,
    quote: Quote,
    which: Column,
)
    requires
        quote_result(state, results, currency, mode, priced_at, rejected, Ok(quote)),
    ensures
        quote_amount(quote, which) == sum(line_amounts(quote.lines@, which, None)) + sum(
            charge_amounts(quote.shipping@, which, None),
        ),
{
    let made = finished(state, results, currency, mode)->Ok_0;
    lemma_entries_are_lines_and_charges(
        state,
        results,
        currency,
        mode,
        priced_at,
        rejected,
        quote,
        which,
        None,
    );
    law_total_is_the_sum(column(made.entries, which), currency);
    assert(minors(column(made.entries, which)) =~= entry_amounts(made.entries, which, None));
}

proof fn lemma_per_shop(entries: Seq<Entry>, currency: Currency, which: Column, shop: Seq<char>)
    requires
        per_shop(entries, currency) is Ok,
    ensures
        ({
            let list = per_shop(entries, currency)->Ok_0;
            let at = shop_index(list, shop);
            &&& 0 <= at <= list.len()
            &&& at < list.len() ==> shop_amount(list[at], which) == sum(
                entry_amounts(entries, which, Some(shop)),
            )
            &&& at == list.len() ==> forall|k: int|
                0 <= k < entries.len() ==> (#[trigger] entries[k]).shop_id@ != shop
            &&& (forall|k: int| 0 <= k < entries.len() ==> (#[trigger] entries[k]).shop_id@ != shop)
                ==> sum(entry_amounts(entries, which, Some(shop))) == 0
        }),
    decreases entries.len(),
{
    let list = per_shop(entries, currency)->Ok_0;
    let all = entry_amounts(entries, which, Some(shop));
    lemma_shop_index_bounds(list, shop);
    if entries.len() > 0 {
        let rest = entries.drop_last();
        let last = entries.last();
        lemma_per_shop(rest, currency, which, shop);
        let before = per_shop(rest, currency)->Ok_0;
        let spot = shop_index(before, last.shop_id@);
        lemma_shop_index_bounds(before, last.shop_id@);
        lemma_shop_index_names(before, last.shop_id@);
        lemma_shop_index_names(before, shop);
        lemma_shop_index_names(list, shop);
        assert(all.drop_last() =~= entry_amounts(rest, which, Some(shop)));
        let at = shop_index(before, shop);
        lemma_shop_index_bounds(before, shop);
        assert forall|k: int| 0 <= k < before.len() implies (#[trigger] list[k]).shop_id@
            == before[k].shop_id@ by {}
        if at < before.len() {
            lemma_shop_index(list, shop, at);
        } else if last.shop_id@ == shop {
            lemma_shop_index(list, shop, before.len() as int);
        } else {
            lemma_shop_index(list, shop, list.len() as int);
        }
        assert forall|k: int| 0 <= k < rest.len() implies #[trigger] rest[k] == entries[k] by {}
        if forall|k: int| 0 <= k < entries.len() ==> (#[trigger] entries[k]).shop_id@ != shop {
            assert(entries[entries.len() - 1].shop_id@ != shop);
            assert forall|k: int| 0 <= k < rest.len() implies (#[trigger] rest[k]).shop_id@
                != shop by {
                assert(entries[k].shop_id@ != shop);
            }
        }
        if shop_index(list, shop) == list.len() {
            assert forall|k: int| 0 <= k < entries.len() implies (#[trigger] entries[k]).shop_id@
                != shop by {
                if k < rest.len() {
                    assert(rest[k].shop_id@ != shop);
                }
            }
        }
    }
}

/// Every total of a shop is the sum of that amount over the shop's own lines and shipping
/// charges, and a shop with a line or a charge in the quote has totals there.
pub proof fn law_shop_totals_are_sums(
    state: StateView,
    results: Seq<TaxLineResult>,
    currency: Currency,
    mode: TaxMode,
    priced_at: Timestamp,
    rejected: Seq<RejectedView>,
    quote: Quote,
    which: Column,
    i: int,
)
    requires
        quote_result(state, results, currency, mode, priced_at, rejected, Ok(quote)),
        0 <= i < quote.shop_totals@.len(),
        forall|j: int|
            0 <= j < i ==> (#[trigger] quote.shop_totals@[j]).shop_id@
                != quote.shop_totals@[i].shop_id@,
    ensures
        ({
            let shop = Some(quote.shop_totals@[i].shop_id@);
            shop_amount(quote.shop_totals@[i], which) == sum(
                line_amounts(quote.lines@, which, shop),
            ) + sum(charge_amounts(quote.shipping@, which, shop))
        }),
{
    let made = finished(state, results, currency, mode)->Ok_0;
    let shop = quote.shop_totals@[i].shop_id@;
    lemma_entries_are_lines_and_charges(
        state,
        results,
        currency,
        mode,
        priced_at,
        rejected,
        quote,
        which,
        Some(shop),
    );
    lemma_per_shop(made.entries, currency, which, shop);
    lemma_shop_index(made.shops, shop, i);
}

/// Every shop that sells a line of a quote has totals in it.
pub proof fn law_every_seller_has_totals(
    state: StateView,
    results: Seq<TaxLineResult>,
    currency: Currency,
    mode: TaxMode,
    priced_at: Timestamp,
    rejected: Seq<RejectedView>,
    quote: Quote,
    k: int,
)
    requires
        quote_result(state, results, currency, mode, priced_at, rejected, Ok(quote)),
        0 <= k < quote.lines@.len(),
    ensures
        exists|i: int|
            0 <= i < quote.shop_totals@.len() && (#[trigger] quote.shop_totals@[i]).shop_id@
                == quote.lines@[k].shop_id@,
{
    let made = finished(state, results, currency, mode)->Ok_0;
    let shop = quote.lines@[k].shop_id@;
    lemma_line_entries_balance(state.lines, results, currency, mode);
    assert(is_priced_line(quote.lines@[k], state.lines[k], made.entries[k].figures, results));
    assert(made.entries[k].shop_id@ == shop);
    lemma_per_shop(made.entries, currency, Column::Tax, shop);
    lemma_shop_index_names(made.shops, shop);
    let i = shop_index(made.shops, shop);
    assert(quote.shop_totals@[i].shop_id@ == shop);
}

// Funders.

/// What a list of charges bills a funder, for one shop where one is given.
pub open spec fn billed(list: Seq<Charge>, funder: Seq<char>, shop: Option<Seq<char>>) -> Seq<int> {
    list.map_values(
        |charge: Charge|
            if charge.funder@ == funder && (shop is None || shop->0 == charge.shop_id@) {
                charge.amount.minor as int
            } else {
                0
            },
    )
}

proof fn lemma_funder_index_names(list: Seq<SubsidyView>, funder: Seq<char>)
    ensures
        0 <= funder_index(list, funder) <= list.len(),
        funder_index(list, funder) < list.len() ==> list[funder_index(list, funder)].funder@
            == funder,
        forall|i: int|
            0 <= i < funder_index(list, funder) ==> (#[trigger] list[i]).funder@ != funder,
    decreases list.len(),
{
    if list.len() > 0 && list[0].funder@ != funder {
        let rest = list.drop_first();
        lemma_funder_index_names(rest, funder);
        assert forall|i: int| 0 <= i < funder_index(list, funder) implies (
        #[trigger] list[i]).funder@ != funder by {
            if i > 0 {
                assert(rest[i - 1] == list[i]);
            }
        }
    }
}

proof fn lemma_funder_index_is(list: Seq<SubsidyView>, funder: Seq<char>, at: int)
    requires
        0 <= at <= list.len(),
        at < list.len() ==> list[at].funder@ == funder,
        forall|i: int| 0 <= i < at ==> (#[trigger] list[i]).funder@ != funder,
    ensures
        funder_index(list, funder) == at,
{
    lemma_funder_index_names(list, funder);
    let n = funder_index(list, funder);
    if n < at {
        assert(list[n].funder@ != funder);
    } else if at < n {
        assert(list[at].funder@ != funder);
    }
}

/// What a funder owes is the sum of what it is billed, altogether and for each shop, and
/// everyone who is billed is listed.
pub proof fn law_funders_owe_what_they_are_billed(
    list: Seq<Charge>,
    currency: Currency,
    funder: Seq<char>,
    shop: Seq<char>,
)
    ensures
        per_funder(list, currency) matches Ok(owed) ==> {
            let at = funder_index(owed, funder);
            &&& 0 <= at <= owed.len()
            &&& at < owed.len() ==> {
                &&& owed[at].funder@ == funder
                &&& owed[at].amount.minor == sum(billed(list, funder, None))
                &&& owed[at].per_shop.contains_key(shop) ==> owed[at].per_shop[shop].minor == sum(
                    billed(list, funder, Some(shop)),
                )
                &&& !owed[at].per_shop.contains_key(shop) ==> sum(
                    billed(list, funder, Some(shop)),
                ) == 0
            }
            &&& at == owed.len() ==> sum(billed(list, funder, None)) == 0 && sum(
                billed(list, funder, Some(shop)),
            ) == 0 && forall|k: int| 0 <= k < list.len() ==> (#[trigger] list[k]).funder@ != funder
        },
    decreases list.len(),
{
    if per_funder(list, currency) is Ok {
        let owed = per_funder(list, currency)->Ok_0;
        lemma_funder_index_names(owed, funder);
        if list.len() > 0 {
            let rest = list.drop_last();
            let last = list.last();
            law_funders_owe_what_they_are_billed(rest, currency, funder, shop);
            let before = per_funder(rest, currency)->Ok_0;
            lemma_funder_index_names(before, last.funder@);
            lemma_funder_index_names(before, funder);
            assert(billed(list, funder, None).drop_last() =~= billed(rest, funder, None));
            assert(billed(list, funder, Some(shop)).drop_last() =~= billed(
                rest,
                funder,
                Some(shop),
            ));
            let at = funder_index(before, funder);
            assert forall|k: int| 0 <= k < before.len() implies (#[trigger] owed[k]).funder@
                == before[k].funder@ by {}
            if at < before.len() {
                lemma_funder_index_is(owed, funder, at);
            } else if last.funder@ == funder {
                lemma_funder_index_is(owed, funder, before.len() as int);
            } else {
                lemma_funder_index_is(owed, funder, owed.len() as int);
                assert forall|k: int| 0 <= k < list.len() implies (#[trigger] list[k]).funder@
                    != funder by {
                    if k < rest.len() {
                        assert(rest[k].funder@ != funder);
                    }
                }
            }
        }
    }
}

/// What the discounts of one line or shipment bill a funder, discount by discount.
pub open spec fn discounts_billed(discounts: Seq<AppliedDiscount>, funder: Seq<char>) -> Seq<int> {
    discounts.map_values(
        |discount: AppliedDiscount|
            if discount.funding is Subsidy && discount.funding->funder@ == funder {
                discount.amount.minor as int
            } else {
                0
            },
    )
}

proof fn lemma_charges_billed(
    discounts: Seq<AppliedDiscount>,
    shop_id: ShopId,
    funder: Seq<char>,
    shop: Option<Seq<char>>,
)
    ensures
        sum(billed(charges(discounts, shop_id), funder, shop)) == if shop is None || shop->0
            == shop_id@ {
            sum(discounts_billed(discounts, funder))
        } else {
            0
        },
    decreases discounts.len(),
{
    let list = charges(discounts, shop_id);
    if discounts.len() == 0 {
        assert(billed(list, funder, shop) =~= Seq::<int>::empty());
    } else {
        let rest = discounts.drop_last();
        lemma_charges_billed(rest, shop_id, funder, shop);
        assert(discounts_billed(discounts, funder).drop_last() =~= discounts_billed(rest, funder));
        if discounts.last().funding is Subsidy {
            assert(billed(list, funder, shop).drop_last() =~= billed(
                charges(rest, shop_id),
                funder,
                shop,
            ));
        }
    }
}

/// What the discounts on the lines bill a funder, line by line, for one shop where one is
/// given.
pub open spec fn lines_billed(
    lines: Seq<LineView>,
    funder: Seq<char>,
    shop: Option<Seq<char>>,
) -> Seq<int> {
    lines.map_values(
        |line: LineView|
            if shop is None || shop->0 == line.shop_id@ {
                sum(discounts_billed(line.discounts, funder))
            } else {
                0
            },
    )
}

/// What the discounts on the shipments bill a funder, shipment by shipment, for one shop
/// where one is given.
pub open spec fn shipping_billed(
    shipping: Seq<ShippingView>,
    funder: Seq<char>,
    shop: Option<Seq<char>>,
) -> Seq<int> {
    shipping.map_values(
        |group: ShippingView|
            if shop is None || shop->0 == group.shop_id@ {
                sum(discounts_billed(group.discounts, funder))
            } else {
                0
            },
    )
}

proof fn lemma_line_charges_billed(
    lines: Seq<LineView>,
    funder: Seq<char>,
    shop: Option<Seq<char>>,
)
    ensures
        sum(billed(line_charges(lines), funder, shop)) == sum(lines_billed(lines, funder, shop)),
    decreases lines.len(),
{
    if lines.len() == 0 {
        assert(billed(line_charges(lines), funder, shop) =~= Seq::<int>::empty());
    } else {
        let rest = lines.drop_last();
        let last = lines.last();
        let mine = charges(last.discounts, last.shop_id);
        lemma_line_charges_billed(rest, funder, shop);
        lemma_charges_billed(last.discounts, last.shop_id, funder, shop);
        assert(lines_billed(lines, funder, shop).drop_last() =~= lines_billed(rest, funder, shop));
        assert(billed(line_charges(lines), funder, shop) =~= billed(
            line_charges(rest),
            funder,
            shop,
        ) + billed(mine, funder, shop));
        lemma_sum_concat(billed(line_charges(rest), funder, shop), billed(mine, funder, shop));
    }
}

proof fn lemma_shipping_charges_billed(
    shipping: Seq<ShippingView>,
    funder: Seq<char>,
    shop: Option<Seq<char>>,
)
    ensures
        sum(billed(shipping_charges(shipping), funder, shop)) == sum(
            shipping_billed(shipping, funder, shop),
        ),
    decreases shipping.len(),
{
    if shipping.len() == 0 {
        assert(billed(shipping_charges(shipping), funder, shop) =~= Seq::<int>::empty());
    } else {
        let rest = shipping.drop_last();
        let last = shipping.last();
        let mine = charges(last.discounts, last.shop_id);
        lemma_shipping_charges_billed(rest, funder, shop);
        lemma_charges_billed(last.discounts, last.shop_id, funder, shop);
        assert(shipping_billed(shipping, funder, shop).drop_last() =~= shipping_billed(
            rest,
            funder,
            shop,
        ));
        assert(billed(shipping_charges(shipping), funder, shop) =~= billed(
            shipping_charges(rest),
            funder,
            shop,
        ) + billed(mine, funder, shop));
        lemma_sum_concat(billed(shipping_charges(rest), funder, shop), billed(mine, funder, shop));
    }
}

/// A funder of a quote owes what the discounts it funds took off the lines and the shipping
/// charges, altogether and for each shop.
pub proof fn law_funders_owe_their_discounts(
    state: StateView,
    results: Seq<TaxLineResult>,
    currency: Currency,
    mode: TaxMode,
    priced_at: Timestamp,
    rejected: Seq<RejectedView>,
    quote: Quote,
    k: int,
    shop: Seq<char>,
)
    requires
        quote_result(state, results, currency, mode, priced_at, rejected, Ok(quote)),
        0 <= k < quote.subsidies@.len(),
        forall|j: int|
            0 <= j < k ==> (#[trigger] quote.subsidies@[j]).funder@ != quote.subsidies@[k].funder@,
    ensures
        ({
            let owed = quote.subsidies@[k];
            let funder = owed.funder@;
            let part = sum(lines_billed(state.lines, funder, Some(shop))) + sum(
                shipping_billed(state.shipping, funder, Some(shop)),
            );
            &&& owed.amount.minor == sum(lines_billed(state.lines, funder, None)) + sum(
                shipping_billed(state.shipping, funder, None),
            )
            &&& owed.per_shop@.contains_key(shop) ==> owed.per_shop@[shop].minor == part
            &&& !owed.per_shop@.contains_key(shop) ==> part == 0
        }),
{
    let made = finished(state, results, currency, mode)->Ok_0;
    let views = subsidy_views(quote.subsidies@);
    let funder = quote.subsidies@[k].funder@;
    let lines = line_charges(state.lines);
    let shipping = shipping_charges(state.shipping);
    assert(made.subsidies == views);
    assert(views[k] == quote.subsidies@[k]@);
    assert forall|j: int| 0 <= j < k implies (#[trigger] views[j]).funder@ != funder by {
        assert(quote.subsidies@[j].funder@ != funder);
    }
    lemma_funder_index_is(views, funder, k);
    law_funders_owe_what_they_are_billed(lines + shipping, currency, funder, shop);
    lemma_line_charges_billed(state.lines, funder, None);
    lemma_line_charges_billed(state.lines, funder, Some(shop));
    lemma_shipping_charges_billed(state.shipping, funder, None);
    lemma_shipping_charges_billed(state.shipping, funder, Some(shop));
    assert(billed(lines + shipping, funder, None) =~= billed(lines, funder, None) + billed(
        shipping,
        funder,
        None,
    ));
    assert(billed(lines + shipping, funder, Some(shop)) =~= billed(lines, funder, Some(shop))
        + billed(shipping, funder, Some(shop)));
    lemma_sum_concat(billed(lines, funder, None), billed(shipping, funder, None));
    lemma_sum_concat(billed(lines, funder, Some(shop)), billed(shipping, funder, Some(shop)));
}

// Promotions.

/// Promotions are applied one after the other, each to what those before it left. One that
/// cannot be applied changes nothing and is reported under its code, or under its
/// description where it has none.
pub proof fn law_promotions_apply_in_turn(
    state: StateView,
    discounts: Seq<Discount>,
    order: Seq<int>,
    n: int,
    rounding: Rounding,
    now: Timestamp,
    currency: Currency,
)
    requires
        0 <= n < order.len(),
    ensures
        ({
            let (before, told) = after_discounts(
                state,
                discounts,
                order,
                n,
                rounding,
                now,
                currency,
            );
            let (after, rejected) = after_discounts(
                state,
                discounts,
                order,
                n + 1,
                rounding,
                now,
                currency,
            );
            let discount = discounts[order[n]];
            match applied(before, discount, rounding, now, currency) {
                Ok(next) => after == next && rejected == told,
                Err(_) => {
                    &&& after == before
                    &&& rejected.len() == told.len() + 1
                    &&& rejected.drop_last() =~= told
                    &&& discount.code matches Some(code) ==> rejected.last().code == code@
                    &&& discount.code is None ==> rejected.last().code == discount.description@
                },
            }
        }),
        after_discounts(state, discounts, order, 0, rounding, now, currency) == (
            state,
            Seq::<RejectedView>::empty(),
        ),
{
}

/// A cart with promotions that may not be combined is priced without any of them, and that
/// is reported once; an unsound cart is not priced at all.
pub proof fn law_conflicting_promotions_are_dropped(
    cart: Cart,
    discounts: Seq<Discount>,
    order: Seq<int>,
    combined: Result<(), ErrorView>,
    rounding: Rounding,
    now: Timestamp,
)
    ensures
        cart.check() is Err ==> begun(cart, discounts, order, combined, rounding, now) is Err,
        cart.check() is Ok && fresh(cart) is Ok ==> {
            let (state, rejected) = begun(
                cart,
                discounts,
                order,
                combined,
                rounding,
                now,
            )->Ok_0;
            &&& begun(cart, discounts, order, combined, rounding, now) is Ok
            &&& combined is Err ==> state == fresh(cart)->Ok_0 && rejected.len() == 1
            &&& combined is Ok && order.len() == 0 ==> state == fresh(cart)->Ok_0
                && rejected.len() == 0
        },
{
}

/// Tax is due where the goods go: at the shipping address, or else at the billing address,
/// or else at the place that is configured.
pub proof fn law_tax_is_due_where_the_goods_go(cart: Cart, fallback: Jurisdiction)
    ensures
        cart.shipping_address matches Some(address) ==> {
            let place = destination(cart, fallback);
            &&& place.country == address.country
            &&& place.region == address.region
            &&& place.postal_code == address.postal_code
        },
        cart.shipping_address is None && cart.billing_address is Some ==> {
            let place = destination(cart, fallback);
            &&& place.country == cart.billing_address->0.country
            &&& place.region == cart.billing_address->0.region
            &&& place.postal_code == cart.billing_address->0.postal_code
        },
        cart.shipping_address is None && cart.billing_address is None ==> destination(
            cart,
            fallback,
        ) == fallback,
{
}

/// Tax is asked for on what is taxable, in the currency of the cart, at the place that the
/// tax is due in, by the mode that prices are kept in.
pub proof fn law_tax_is_asked_for_where_it_is_due(
    request: TaxRequest,
    lines: Seq<TaxableView>,
    currency: Currency,
    mode: TaxMode,
    place: Jurisdiction,
)
    requires
        is_tax_request(request, lines, currency, mode, place),
    ensures
        request.destination == place,
        request.currency == currency,
        request.mode == mode,
        request.lines@.len() == lines.len(),
        request_views(request.lines@) == lines,
        request.origin is None,
        request.customer_tax_id is None,
{
}

} // verus!
