//! From discounted and taxed lines to the figures of a quote.

use vstd::prelude::*;

use crate::collections::OrderedMap;
use crate::error::{outcome, Error, ErrorView};
use crate::folds::lemma_prefix_error_stays;
use crate::ids::{AccountId, ShopId};
use crate::money::{
    all_in, law_total_is_the_sum, law_total_succeeds, minors, total, Currency, Money,
};
use crate::pricing::discount::Discount;
use crate::pricing::state::{
    discount_amounts, exact, landed, split_exactly, taxable, taxable_base, LineView, ShippingView,
    StateView,
};
use crate::pricing::tax::{result_index, TaxLineResult, TaxMode, TaxQuote};
use crate::pricing::{AppliedDiscount, QuoteTotals, ShopTotals, SubsidyTotals};
use crate::sums::{
    lemma_sum_add, lemma_sum_concat, lemma_sum_non_negative, lemma_sum_push, lemma_sum_update, sum,
};
use crate::text::{join, join3};

verus! {

/// What one line or shipment comes to.
#[derive(Debug, Clone, Copy, PartialEq, Structural)]
pub struct Figures {
    /// Portion of the discounts funded by the shop itself.
    pub merchant_discount: Money,
    /// Portion of the discounts funded by third parties.
    pub subsidy_discount: Money,
    /// Amount tax was computed on.
    pub taxable_base: Money,
    /// Tax.
    pub tax: Money,
    /// What the shopper pays.
    pub customer_total: Money,
    /// What the shop is owed, before platform fees.
    pub merchant_gross: Money,
}

/// What the shop and what third parties fund of a list of discounts.
pub open spec fn funded(discounts: Seq<AppliedDiscount>, currency: Currency) -> Result<
    (Money, Money),
    ErrorView,
>
    decreases discounts.len(),
{
    if discounts.len() == 0 {
        Ok((Money { minor: 0, currency }, Money { minor: 0, currency }))
    } else {
        let last = discounts.last();
        match funded(discounts.drop_last(), currency) {
            Err(error) => Err(error),
            Ok((merchant, subsidy)) => if last.funding is Subsidy {
                match subsidy.plus(last.amount) {
                    Err(error) => Err(error),
                    Ok(sum) => Ok((merchant, sum)),
                }
            } else {
                match merchant.plus(last.amount) {
                    Err(error) => Err(error),
                    Ok(sum) => Ok((sum, subsidy)),
                }
            },
        }
    }
}

fn split_funding(discounts: &Vec<AppliedDiscount>, currency: Currency) -> (split: Result<
    (Money, Money),
    Error,
>)
    ensures
        outcome(split) == funded(discounts@, currency),
{
    let mut merchant = Money::zero(currency);
    let mut subsidy = Money::zero(currency);
    let mut n: usize = 0;
    assert(discounts@.take(0) =~= Seq::<AppliedDiscount>::empty());
    while n < discounts.len()
        invariant
            n <= discounts@.len(),
            funded(discounts@.take(n as int), currency) == Ok::<(Money, Money), ErrorView>(
                (merchant, subsidy),
            ),
        decreases discounts@.len() - n,
    {
        assert(discounts@.take(n + 1).drop_last() =~= discounts@.take(n as int));
        proof {
            if funded(discounts@.take(n + 1), currency) is Err {
                lemma_prefix_error_stays(
                    |part: Seq<AppliedDiscount>| funded(part, currency),
                    discounts@,
                    n + 1,
                );
            }
        }
        let applied = &discounts[n];
        if applied.funding.is_subsidy() {
            match subsidy.try_add(applied.amount) {
                Ok(sum) => {
                    subsidy = sum;
                },
                Err(error) => return Err(error),
            }
        } else {
            match merchant.try_add(applied.amount) {
                Ok(sum) => {
                    merchant = sum;
                },
                Err(error) => return Err(error),
            }
        }
        n += 1;
    }
    assert(discounts@.take(n as int) =~= discounts@);
    Ok((merchant, subsidy))
}

/// The tax that was computed for a reference.
pub open spec fn tax_for(results: Seq<TaxLineResult>, reference: Seq<char>) -> Option<Money> {
    let at = result_index(results, reference);
    if 0 <= at < results.len() {
        Some(results[at].tax)
    } else {
        None
    }
}

/// What a price comes to with its discounts and its tax.
pub open spec fn figures(
    price: Money,
    discounts: Seq<AppliedDiscount>,
    results: Seq<TaxLineResult>,
    reference: Seq<char>,
    currency: Currency,
    mode: TaxMode,
) -> Result<Figures, ErrorView> {
    match funded(discounts, currency) {
        Err(error) => Err(error),
        Ok((merchant, subsidy)) => match taxable(price, discounts) {
            Err(error) => Err(error),
            Ok(base) => match tax_for(results, reference) {
                None => Err(ErrorView::Internal("tax result missing for "@ + reference)),
                Some(tax) => with_tax(price, merchant, subsidy, base, tax, mode),
            },
        },
    }
}

/// What a price comes to, given who funds its discounts and its tax.
pub open spec fn with_tax(
    price: Money,
    merchant: Money,
    subsidy: Money,
    base: Money,
    tax: Money,
    mode: TaxMode,
) -> Result<Figures, ErrorView> {
    match price.minus(merchant) {
        Err(error) => Err(error),
        Ok(owed) => match owed.minus(subsidy) {
            Err(error) => Err(error),
            Ok(net) => match mode {
                TaxMode::Exclusive => match net.plus(tax) {
                    Err(error) => Err(error),
                    Ok(customer_total) => match owed.plus(tax) {
                        Err(error) => Err(error),
                        Ok(merchant_gross) => Ok(
                            Figures {
                                merchant_discount: merchant,
                                subsidy_discount: subsidy,
                                taxable_base: base,
                                tax,
                                customer_total,
                                merchant_gross,
                            },
                        ),
                    },
                },
                TaxMode::Inclusive => Ok(
                    Figures {
                        merchant_discount: merchant,
                        subsidy_discount: subsidy,
                        taxable_base: base,
                        tax,
                        customer_total: net,
                        merchant_gross: owed,
                    },
                ),
            },
        },
    }
}

/// What a price comes to with its discounts and its tax.
pub fn price_figures(
    price: Money,
    discounts: &Vec<AppliedDiscount>,
    tax_quote: &TaxQuote,
    reference: &str,
    currency: Currency,
    mode: TaxMode,
) -> (priced: Result<Figures, Error>)
    ensures
        outcome(priced) == figures(
            price,
            discounts@,
            tax_quote.lines@,
            reference@,
            currency,
            mode,
        ),
{
    let (merchant, subsidy) = match split_funding(discounts, currency) {
        Ok(split) => split,
        Err(error) => return Err(error),
    };
    let base = match taxable_base(price, discounts) {
        Ok(base) => base,
        Err(error) => return Err(error),
    };
    let tax = match tax_quote.line(reference) {
        Some(result) => result.tax,
        None => return Err(
            Error::internal(join("tax result missing for ", reference).as_str()),
        ),
    };
    let owed = match price.try_sub(merchant) {
        Ok(owed) => owed,
        Err(error) => return Err(error),
    };
    let net = match owed.try_sub(subsidy) {
        Ok(net) => net,
        Err(error) => return Err(error),
    };
    let (customer_total, merchant_gross) = match mode {
        TaxMode::Exclusive => {
            let customer_total = match net.try_add(tax) {
                Ok(sum) => sum,
                Err(error) => return Err(error),
            };
            let merchant_gross = match owed.try_add(tax) {
                Ok(sum) => sum,
                Err(error) => return Err(error),
            };
            (customer_total, merchant_gross)
        },
        TaxMode::Inclusive => (net, owed),
    };
    Ok(
        Figures {
            merchant_discount: merchant,
            subsidy_discount: subsidy,
            taxable_base: base,
            tax,
            customer_total,
            merchant_gross,
        },
    )
}

/// The money identity of one line or shipment: what the shop is owed equals what the
/// shopper pays plus what third parties pay on the shopper's behalf.
pub proof fn law_figures_balance(
    price: Money,
    discounts: Seq<AppliedDiscount>,
    results: Seq<TaxLineResult>,
    reference: Seq<char>,
    currency: Currency,
    mode: TaxMode,
)
    ensures
        figures(price, discounts, results, reference, currency, mode) matches Ok(made) ==> {
            &&& made.merchant_gross.minor == made.customer_total.minor
                + made.subsidy_discount.minor
            &&& made.merchant_gross.currency == made.customer_total.currency
            &&& made.subsidy_discount.currency == currency
            &&& made.customer_total.currency == currency
        },
{
    lemma_funded_currency(discounts, currency);
}

proof fn lemma_funded_currency(discounts: Seq<AppliedDiscount>, currency: Currency)
    ensures
        funded(discounts, currency) matches Ok(split) ==> split.0.currency == currency
            && split.1.currency == currency,
    decreases discounts.len(),
{
    if discounts.len() > 0 {
        lemma_funded_currency(discounts.drop_last(), currency);
    }
}

/// A priced line or shipment: the shop it belongs to, its list price and its figures.
pub struct Entry {
    /// The shop.
    pub shop_id: ShopId,
    /// List price of a line; zero for a shipment.
    pub subtotal: Money,
    /// List price of a shipment; zero for a line.
    pub shipping: Money,
    /// What it comes to.
    pub figures: Figures,
}

/// The entry of a line.
pub open spec fn line_entry(line: LineView, made: Figures, currency: Currency) -> Entry {
    Entry {
        shop_id: line.shop_id,
        subtotal: line.subtotal,
        shipping: Money { minor: 0, currency },
        figures: made,
    }
}

/// The entry of a shipment.
pub open spec fn shipping_entry(group: ShippingView, made: Figures, currency: Currency) -> Entry {
    Entry {
        shop_id: group.shop_id,
        subtotal: Money { minor: 0, currency },
        shipping: group.price,
        figures: made,
    }
}

/// The figures of a line.
pub open spec fn line_figures(
    line: LineView,
    results: Seq<TaxLineResult>,
    currency: Currency,
    mode: TaxMode,
) -> Result<Figures, ErrorView> {
    figures(line.subtotal, line.discounts, results, line.line_id@, currency, mode)
}

/// The figures of a shipment.
pub open spec fn shipping_figures(
    group: ShippingView,
    results: Seq<TaxLineResult>,
    currency: Currency,
    mode: TaxMode,
) -> Result<Figures, ErrorView> {
    figures(group.price, group.discounts, results, group.group_id@, currency, mode)
}

/// The entries of the lines.
pub open spec fn line_entries(
    lines: Seq<LineView>,
    results: Seq<TaxLineResult>,
    currency: Currency,
    mode: TaxMode,
) -> Result<Seq<Entry>, ErrorView>
    decreases lines.len(),
{
    if lines.len() == 0 {
        Ok(Seq::empty())
    } else {
        match line_entries(lines.drop_last(), results, currency, mode) {
            Err(error) => Err(error),
            Ok(before) => match line_figures(lines.last(), results, currency, mode) {
                Err(error) => Err(error),
                Ok(made) => Ok(before.push(line_entry(lines.last(), made, currency))),
            },
        }
    }
}

/// The entries of the shipments.
pub open spec fn shipping_entries(
    shipping: Seq<ShippingView>,
    results: Seq<TaxLineResult>,
    currency: Currency,
    mode: TaxMode,
) -> Result<Seq<Entry>, ErrorView>
    decreases shipping.len(),
{
    if shipping.len() == 0 {
        Ok(Seq::empty())
    } else {
        match shipping_entries(shipping.drop_last(), results, currency, mode) {
            Err(error) => Err(error),
            Ok(before) => match shipping_figures(shipping.last(), results, currency, mode) {
                Err(error) => Err(error),
                Ok(made) => Ok(before.push(shipping_entry(shipping.last(), made, currency))),
            },
        }
    }
}

/// The totals of a shop with nothing sold.
pub open spec fn empty_shop(shop_id: ShopId, currency: Currency) -> ShopTotals {
    let zero = Money { minor: 0, currency };
    ShopTotals {
        shop_id,
        subtotal: zero,
        shipping: zero,
        merchant_discount: zero,
        subsidy_discount: zero,
        tax: zero,
        customer_total: zero,
        merchant_gross: zero,
    }
}

/// The totals of a shop with one more entry.
pub open spec fn with_entry(totals: ShopTotals, entry: Entry) -> Result<ShopTotals, ErrorView> {
    let subtotal = totals.subtotal.plus(entry.subtotal);
    let shipping = totals.shipping.plus(entry.shipping);
    let merchant = totals.merchant_discount.plus(entry.figures.merchant_discount);
    let subsidy = totals.subsidy_discount.plus(entry.figures.subsidy_discount);
    let tax = totals.tax.plus(entry.figures.tax);
    let customer = totals.customer_total.plus(entry.figures.customer_total);
    let gross = totals.merchant_gross.plus(entry.figures.merchant_gross);
    if subtotal is Err {
        Err(subtotal->Err_0)
    } else if shipping is Err {
        Err(shipping->Err_0)
    } else if merchant is Err {
        Err(merchant->Err_0)
    } else if subsidy is Err {
        Err(subsidy->Err_0)
    } else if tax is Err {
        Err(tax->Err_0)
    } else if customer is Err {
        Err(customer->Err_0)
    } else if gross is Err {
        Err(gross->Err_0)
    } else {
        Ok(
            ShopTotals {
                shop_id: totals.shop_id,
                subtotal: subtotal->Ok_0,
                shipping: shipping->Ok_0,
                merchant_discount: merchant->Ok_0,
                subsidy_discount: subsidy->Ok_0,
                tax: tax->Ok_0,
                customer_total: customer->Ok_0,
                merchant_gross: gross->Ok_0,
            },
        )
    }
}

/// The position of a shop in a list of totals, or the length when it is not there.
pub open spec fn shop_index(list: Seq<ShopTotals>, shop: Seq<char>) -> int
    decreases list.len(),
{
    if list.len() == 0 || list[0].shop_id@ == shop {
        0
    } else {
        1 + shop_index(list.drop_first(), shop)
    }
}

pub proof fn lemma_shop_index(list: Seq<ShopTotals>, shop: Seq<char>, at: int)
    requires
        0 <= at <= list.len(),
        at < list.len() ==> list[at].shop_id@ == shop,
        forall|i: int| 0 <= i < at ==> (#[trigger] list[i]).shop_id@ != shop,
    ensures
        shop_index(list, shop) == at,
    decreases list.len(),
{
    if at > 0 {
        assert(list[0].shop_id@ != shop);
        let rest = list.drop_first();
        assert forall|i: int| 0 <= i < at - 1 implies (#[trigger] rest[i]).shop_id@ != shop by {
            assert(rest[i] == list[i + 1]);
        }
        lemma_shop_index(rest, shop, at - 1);
    }
}

pub proof fn lemma_shop_index_bounds(list: Seq<ShopTotals>, shop: Seq<char>)
    ensures
        0 <= shop_index(list, shop) <= list.len(),
    decreases list.len(),
{
    if list.len() > 0 && list[0].shop_id@ != shop {
        lemma_shop_index_bounds(list.drop_first(), shop);
    }
}

pub proof fn lemma_shop_index_names(list: Seq<ShopTotals>, shop: Seq<char>)
    ensures
        shop_index(list, shop) < list.len() ==> list[shop_index(list, shop)].shop_id@ == shop,
        forall|i: int|
            0 <= i < shop_index(list, shop) ==> (#[trigger] list[i]).shop_id@ != shop,
    decreases list.len(),
{
    if list.len() > 0 && list[0].shop_id@ != shop {
        let rest = list.drop_first();
        lemma_shop_index_names(rest, shop);
        lemma_shop_index_bounds(rest, shop);
        assert forall|i: int| 0 <= i < shop_index(list, shop) implies (
        #[trigger] list[i]).shop_id@ != shop by {
            if i > 0 {
                assert(rest[i - 1] == list[i]);
            }
        }
    }
}

/// Whether a list of totals names each shop once.
pub open spec fn each_shop_once(shops: Seq<ShopTotals>) -> bool {
    forall|i: int, j: int|
        0 <= i < j < shops.len() ==> (#[trigger] shops[i]).shop_id@ != (
        #[trigger] shops[j]).shop_id@
}

/// A list of totals with one more entry.
pub open spec fn shop_step(list: Seq<ShopTotals>, entry: Entry, currency: Currency) -> Result<
    Seq<ShopTotals>,
    ErrorView,
> {
    let at = shop_index(list, entry.shop_id@);
    if at < list.len() {
        match with_entry(list[at], entry) {
            Err(error) => Err(error),
            Ok(totals) => Ok(list.update(at, totals)),
        }
    } else {
        match with_entry(empty_shop(entry.shop_id, currency), entry) {
            Err(error) => Err(error),
            Ok(totals) => Ok(list.push(totals)),
        }
    }
}

/// The entries, totalled per shop in the order the shops first appear.
pub open spec fn per_shop(entries: Seq<Entry>, currency: Currency) -> Result<
    Seq<ShopTotals>,
    ErrorView,
>
    decreases entries.len(),
{
    if entries.len() == 0 {
        Ok(Seq::empty())
    } else {
        match per_shop(entries.drop_last(), currency) {
            Err(error) => Err(error),
            Ok(list) => shop_step(list, entries.last(), currency),
        }
    }
}

/// A quote names each shop once.
pub proof fn law_totals_name_each_shop_once(entries: Seq<Entry>, currency: Currency)
    ensures
        per_shop(entries, currency) matches Ok(list) ==> each_shop_once(list),
    decreases entries.len(),
{
    if entries.len() > 0 && per_shop(entries, currency) is Ok {
        law_totals_name_each_shop_once(entries.drop_last(), currency);
        let before = per_shop(entries.drop_last(), currency)->Ok_0;
        let shop = entries.last().shop_id@;
        lemma_shop_index_names(before, shop);
        lemma_shop_index_bounds(before, shop);
        let after = per_shop(entries, currency)->Ok_0;
        assert forall|i: int, j: int| 0 <= i < j < after.len() implies (
        #[trigger] after[i]).shop_id@ != (#[trigger] after[j]).shop_id@ by {
            assert(before[i].shop_id@ == after[i].shop_id@);
            if j < before.len() {
                assert(before[j].shop_id@ == after[j].shop_id@);
            }
        }
    }
}

fn add_entry(totals: &ShopTotals, entry: &Entry) -> (sum: Result<ShopTotals, Error>)
    ensures
        outcome(sum) == with_entry(*totals, *entry),
{
    let subtotal = match totals.subtotal.try_add(entry.subtotal) {
        Ok(amount) => amount,
        Err(error) => return Err(error),
    };
    let shipping = match totals.shipping.try_add(entry.shipping) {
        Ok(amount) => amount,
        Err(error) => return Err(error),
    };
    let merchant_discount = match totals.merchant_discount.try_add(
        entry.figures.merchant_discount,
    ) {
        Ok(amount) => amount,
        Err(error) => return Err(error),
    };
    let subsidy_discount = match totals.subsidy_discount.try_add(entry.figures.subsidy_discount) {
        Ok(amount) => amount,
        Err(error) => return Err(error),
    };
    let tax = match totals.tax.try_add(entry.figures.tax) {
        Ok(amount) => amount,
        Err(error) => return Err(error),
    };
    let customer_total = match totals.customer_total.try_add(entry.figures.customer_total) {
        Ok(amount) => amount,
        Err(error) => return Err(error),
    };
    let merchant_gross = match totals.merchant_gross.try_add(entry.figures.merchant_gross) {
        Ok(amount) => amount,
        Err(error) => return Err(error),
    };
    Ok(
        ShopTotals {
            shop_id: totals.shop_id.clone(),
            subtotal,
            shipping,
            merchant_discount,
            subsidy_discount,
            tax,
            customer_total,
            merchant_gross,
        },
    )
}

/// Aggregate per shop.
pub fn shop_totals(entries: &Vec<Entry>, currency: Currency) -> (list: Result<
    Vec<ShopTotals>,
    Error,
>)
    ensures
        match list {
            Ok(made) => per_shop(entries@, currency) == Ok::<Seq<ShopTotals>, ErrorView>(made@),
            Err(error) => per_shop(entries@, currency) == Err::<Seq<ShopTotals>, ErrorView>(
                error@,
            ),
        },
{
    let mut list: Vec<ShopTotals> = Vec::new();
    let mut n: usize = 0;
    assert(entries@.take(0) =~= Seq::<Entry>::empty());
    while n < entries.len()
        invariant
            n <= entries@.len(),
            per_shop(entries@.take(n as int), currency) == Ok::<Seq<ShopTotals>, ErrorView>(
                list@,
            ),
        decreases entries@.len() - n,
    {
        assert(entries@.take(n + 1).drop_last() =~= entries@.take(n as int));
        proof {
            if per_shop(entries@.take(n + 1), currency) is Err {
                lemma_prefix_error_stays(
                    |part: Seq<Entry>| per_shop(part, currency),
                    entries@,
                    n + 1,
                );
            }
        }
        let entry = &entries[n];
        let mut at: usize = 0;
        while at < list.len() && !list[at].shop_id.same(&entry.shop_id)
            invariant
                at <= list@.len(),
                forall|i: int| 0 <= i < at ==> (#[trigger] list@[i]).shop_id@ != entry.shop_id@,
            ensures
                at < list@.len() ==> list@[at as int].shop_id@ == entry.shop_id@,
            decreases list@.len() - at,
        {
            at += 1;
        }
        proof {
            lemma_shop_index(list@, entry.shop_id@, at as int);
        }
        if at < list.len() {
            let totals = match add_entry(&list[at], entry) {
                Ok(totals) => totals,
                Err(error) => return Err(error),
            };
            list.set(at, totals);
        } else {
            let zero = Money::zero(currency);
            let fresh = ShopTotals {
                shop_id: entry.shop_id.clone(),
                subtotal: zero,
                shipping: zero,
                merchant_discount: zero,
                subsidy_discount: zero,
                tax: zero,
                customer_total: zero,
                merchant_gross: zero,
            };
            let totals = match add_entry(&fresh, entry) {
                Ok(totals) => totals,
                Err(error) => return Err(error),
            };
            list.push(totals);
        }
        n += 1;
    }
    assert(entries@.take(n as int) =~= entries@);
    Ok(list)
}

/// An amount that a third party pays towards what a shop is owed.
pub struct Charge {
    /// Account that will be billed.
    pub funder: AccountId,
    /// Shop that is reimbursed.
    pub shop_id: ShopId,
    /// The amount.
    pub amount: Money,
}

/// What third parties pay of the discounts on one line or shipment of a shop.
pub open spec fn charges(discounts: Seq<AppliedDiscount>, shop_id: ShopId) -> Seq<Charge>
    decreases discounts.len(),
{
    if discounts.len() == 0 {
        Seq::empty()
    } else {
        let before = charges(discounts.drop_last(), shop_id);
        match discounts.last().funding.payer() {
            None => before,
            Some(funder) => before.push(
                Charge { funder, shop_id, amount: discounts.last().amount },
            ),
        }
    }
}

/// What third parties pay of the discounts on the lines.
pub open spec fn line_charges(lines: Seq<LineView>) -> Seq<Charge>
    decreases lines.len(),
{
    if lines.len() == 0 {
        Seq::empty()
    } else {
        line_charges(lines.drop_last()) + charges(lines.last().discounts, lines.last().shop_id)
    }
}

/// What third parties pay of the discounts on the shipments.
pub open spec fn shipping_charges(shipping: Seq<ShippingView>) -> Seq<Charge>
    decreases shipping.len(),
{
    if shipping.len() == 0 {
        Seq::empty()
    } else {
        shipping_charges(shipping.drop_last()) + charges(
            shipping.last().discounts,
            shipping.last().shop_id,
        )
    }
}

/// Add what third parties pay of a list of discounts.
pub fn collect_charges(
    list: &mut Vec<Charge>,
    discounts: &Vec<AppliedDiscount>,
    shop_id: &ShopId,
)
    ensures
        final(list)@ == old(list)@ + charges(discounts@, *shop_id),
{
    let ghost before = list@;
    let mut n: usize = 0;
    assert(discounts@.take(0) =~= Seq::<AppliedDiscount>::empty());
    assert(list@ =~= before + Seq::<Charge>::empty());
    while n < discounts.len()
        invariant
            n <= discounts@.len(),
            list@ == before + charges(discounts@.take(n as int), *shop_id),
        decreases discounts@.len() - n,
    {
        assert(discounts@.take(n + 1).drop_last() =~= discounts@.take(n as int));
        if let Some(funder) = discounts[n].funding.funder() {
            list.push(
                Charge {
                    funder: funder.clone(),
                    shop_id: shop_id.clone(),
                    amount: discounts[n].amount,
                },
            );
        }
        n += 1;
        assert(list@ =~= before + charges(discounts@.take(n as int), *shop_id));
    }
    assert(discounts@.take(n as int) =~= discounts@);
}

/// What one funder owes, with the breakdown per shop as a map.
pub ghost struct SubsidyView {
    /// Account that will be billed.
    pub funder: AccountId,
    /// Total subsidised, across all shops.
    pub amount: Money,
    /// Breakdown per shop.
    pub per_shop: Map<Seq<char>, Money>,
}

impl View for SubsidyTotals {
    type V = SubsidyView;

    open spec fn view(&self) -> SubsidyView {
        SubsidyView { funder: self.funder, amount: self.amount, per_shop: self.per_shop@ }
    }
}

/// The views of a list of subsidies.
pub open spec fn subsidy_views(list: Seq<SubsidyTotals>) -> Seq<SubsidyView> {
    list.map_values(|totals: SubsidyTotals| totals@)
}

/// The position of a funder in a list, or the length when it is not there.
pub open spec fn funder_index(list: Seq<SubsidyView>, funder: Seq<char>) -> int
    decreases list.len(),
{
    if list.len() == 0 || list[0].funder@ == funder {
        0
    } else {
        1 + funder_index(list.drop_first(), funder)
    }
}

proof fn lemma_funder_index(list: Seq<SubsidyView>, funder: Seq<char>, at: int)
    requires
        0 <= at <= list.len(),
        at < list.len() ==> list[at].funder@ == funder,
        forall|i: int| 0 <= i < at ==> (#[trigger] list[i]).funder@ != funder,
    ensures
        funder_index(list, funder) == at,
    decreases list.len(),
{
    if at > 0 {
        assert(list[0].funder@ != funder);
        let rest = list.drop_first();
        assert forall|i: int| 0 <= i < at - 1 implies (#[trigger] rest[i]).funder@ != funder by {
            assert(rest[i] == list[i + 1]);
        }
        lemma_funder_index(rest, funder, at - 1);
    }
}

proof fn lemma_funder_index_bounds(list: Seq<SubsidyView>, funder: Seq<char>)
    ensures
        0 <= funder_index(list, funder) <= list.len(),
    decreases list.len(),
{
    if list.len() > 0 && list[0].funder@ != funder {
        lemma_funder_index_bounds(list.drop_first(), funder);
    }
}

/// What a funder owes with one more charge.
pub open spec fn with_charge(totals: SubsidyView, charge: Charge, currency: Currency) -> Result<
    SubsidyView,
    ErrorView,
> {
    let shop = charge.shop_id@;
    let before = if totals.per_shop.contains_key(shop) {
        totals.per_shop[shop]
    } else {
        Money { minor: 0, currency }
    };
    match totals.amount.plus(charge.amount) {
        Err(error) => Err(error),
        Ok(amount) => match before.plus(charge.amount) {
            Err(error) => Err(error),
            Ok(part) => Ok(
                SubsidyView {
                    amount,
                    per_shop: totals.per_shop.insert(shop, part),
                    ..totals
                },
            ),
        },
    }
}

/// A list of subsidies with one more charge.
pub open spec fn subsidy_step(
    list: Seq<SubsidyView>,
    charge: Charge,
    currency: Currency,
) -> Result<Seq<SubsidyView>, ErrorView> {
    let at = funder_index(list, charge.funder@);
    if at < list.len() {
        match with_charge(list[at], charge, currency) {
            Err(error) => Err(error),
            Ok(totals) => Ok(list.update(at, totals)),
        }
    } else {
        let fresh = SubsidyView {
            funder: charge.funder,
            amount: Money { minor: 0, currency },
            per_shop: Map::empty(),
        };
        match with_charge(fresh, charge, currency) {
            Err(error) => Err(error),
            Ok(totals) => Ok(list.push(totals)),
        }
    }
}

/// The charges, totalled per funder in the order the funders first appear.
pub open spec fn per_funder(list: Seq<Charge>, currency: Currency) -> Result<
    Seq<SubsidyView>,
    ErrorView,
>
    decreases list.len(),
{
    if list.len() == 0 {
        Ok(Seq::empty())
    } else {
        match per_funder(list.drop_last(), currency) {
            Err(error) => Err(error),
            Ok(before) => subsidy_step(before, list.last(), currency),
        }
    }
}

fn record_subsidy(list: &mut Vec<SubsidyTotals>, charge: &Charge, currency: Currency) -> (
done: Result<(), Error>)
    ensures
        match done {
            Ok(_) => subsidy_step(subsidy_views(old(list)@), *charge, currency) == Ok::<
                Seq<SubsidyView>,
                ErrorView,
            >(subsidy_views(final(list)@)),
            Err(error) => subsidy_step(subsidy_views(old(list)@), *charge, currency) == Err::<
                Seq<SubsidyView>,
                ErrorView,
            >(error@),
        },
{
    let ghost views = subsidy_views(list@);
    let mut at: usize = 0;
    while at < list.len() && !list[at].funder.same(&charge.funder)
        invariant
            views == subsidy_views(list@),
            *list == *old(list),
            at <= list@.len(),
            forall|i: int| 0 <= i < at ==> (#[trigger] views[i]).funder@ != charge.funder@,
        ensures
            at < list@.len() ==> list@[at as int].funder@ == charge.funder@,
        decreases list@.len() - at,
    {
        assert(views[at as int] == list@[at as int]@);
        at += 1;
    }
    assert(at < views.len() ==> views[at as int] == list@[at as int]@);
    proof {
        lemma_funder_index(views, charge.funder@, at as int);
    }
    let zero = Money::zero(currency);
    if at < list.len() {
        let amount = match list[at].amount.try_add(charge.amount) {
            Ok(amount) => amount,
            Err(error) => return Err(error),
        };
        let before = match list[at].per_shop.get(charge.shop_id.as_str()) {
            Some(part) => *part,
            None => zero,
        };
        let part = match before.try_add(charge.amount) {
            Ok(part) => part,
            Err(error) => return Err(error),
        };
        list[at].amount = amount;
        list[at].per_shop.insert(charge.shop_id.to_text(), part);
        assert(subsidy_views(list@) =~= views.update(at as int, list@[at as int]@));
    } else {
        let amount = match zero.try_add(charge.amount) {
            Ok(amount) => amount,
            Err(error) => return Err(error),
        };
        let part = match zero.try_add(charge.amount) {
            Ok(part) => part,
            Err(error) => return Err(error),
        };
        let mut per_shop: OrderedMap<Money> = OrderedMap::new();
        per_shop.insert(charge.shop_id.to_text(), part);
        let fresh = SubsidyTotals { funder: charge.funder.clone(), amount, per_shop };
        let ghost view = fresh@;
        list.push(fresh);
        assert(subsidy_views(list@) =~= views.push(view));
    }
    Ok(())
}

/// Aggregate per funder.
pub fn subsidy_totals(list: &Vec<Charge>, currency: Currency) -> (totals: Result<
    Vec<SubsidyTotals>,
    Error,
>)
    ensures
        match totals {
            Ok(made) => per_funder(list@, currency) == Ok::<Seq<SubsidyView>, ErrorView>(
                subsidy_views(made@),
            ),
            Err(error) => per_funder(list@, currency) == Err::<Seq<SubsidyView>, ErrorView>(
                error@,
            ),
        },
{
    let mut totals: Vec<SubsidyTotals> = Vec::new();
    let mut n: usize = 0;
    assert(list@.take(0) =~= Seq::<Charge>::empty());
    assert(subsidy_views(totals@) =~= Seq::<SubsidyView>::empty());
    while n < list.len()
        invariant
            n <= list@.len(),
            per_funder(list@.take(n as int), currency) == Ok::<Seq<SubsidyView>, ErrorView>(
                subsidy_views(totals@),
            ),
        decreases list@.len() - n,
    {
        assert(list@.take(n + 1).drop_last() =~= list@.take(n as int));
        proof {
            if per_funder(list@.take(n + 1), currency) is Err {
                lemma_prefix_error_stays(
                    |part: Seq<Charge>| per_funder(part, currency),
                    list@,
                    n + 1,
                );
            }
        }
        match record_subsidy(&mut totals, &list[n], currency) {
            Ok(_) => {},
            Err(error) => return Err(error),
        }
        n += 1;
    }
    assert(list@.take(n as int) =~= list@);
    Ok(totals)
}

/// One of the amounts of an entry.
#[derive(Debug, Clone, Copy, PartialEq, Eq, Structural)]
pub enum Column {
    /// List price of lines.
    Subtotal,
    /// List price of shipments.
    Shipping,
    /// Discounts funded by shops.
    MerchantDiscount,
    /// Discounts funded by third parties.
    SubsidyDiscount,
    /// Tax.
    Tax,
    /// What the shopper pays.
    CustomerTotal,
    /// What the shop is owed.
    MerchantGross,
}

impl Entry {
    /// The amount in a column.
    pub open spec fn amount(self, column: Column) -> Money {
        match column {
            Column::Subtotal => self.subtotal,
            Column::Shipping => self.shipping,
            Column::MerchantDiscount => self.figures.merchant_discount,
            Column::SubsidyDiscount => self.figures.subsidy_discount,
            Column::Tax => self.figures.tax,
            Column::CustomerTotal => self.figures.customer_total,
            Column::MerchantGross => self.figures.merchant_gross,
        }
    }
}

/// The amounts of all entries in a column.
pub open spec fn column(entries: Seq<Entry>, which: Column) -> Seq<Money> {
    entries.map_values(|entry: Entry| entry.amount(which))
}

fn column_total(entries: &Vec<Entry>, which: Column, currency: Currency) -> (amount: Result<
    Money,
    Error,
>)
    ensures
        outcome(amount) == total(column(entries@, which), currency),
{
    let mut amounts: Vec<Money> = Vec::new();
    let mut n: usize = 0;
    while n < entries.len()
        invariant
            n <= entries@.len(),
            amounts@ == column(entries@, which).take(n as int),
        decreases entries@.len() - n,
    {
        let entry = &entries[n];
        amounts.push(
            match which {
                Column::Subtotal => entry.subtotal,
                Column::Shipping => entry.shipping,
                Column::MerchantDiscount => entry.figures.merchant_discount,
                Column::SubsidyDiscount => entry.figures.subsidy_discount,
                Column::Tax => entry.figures.tax,
                Column::CustomerTotal => entry.figures.customer_total,
                Column::MerchantGross => entry.figures.merchant_gross,
            },
        );
        n += 1;
        assert(amounts@ =~= column(entries@, which).take(n as int));
    }
    assert(amounts@ =~= column(entries@, which));
    Money::sum(amounts.as_slice(), currency)
}

/// The aggregates of all entries.
pub open spec fn overall(entries: Seq<Entry>, currency: Currency) -> Result<
    QuoteTotals,
    ErrorView,
> {
    let subtotal = total(column(entries, Column::Subtotal), currency);
    let shipping = total(column(entries, Column::Shipping), currency);
    let merchant = total(column(entries, Column::MerchantDiscount), currency);
    let subsidy = total(column(entries, Column::SubsidyDiscount), currency);
    let tax = total(column(entries, Column::Tax), currency);
    let due = total(column(entries, Column::CustomerTotal), currency);
    let gross = total(column(entries, Column::MerchantGross), currency);
    if subtotal is Err {
        Err(subtotal->Err_0)
    } else if shipping is Err {
        Err(shipping->Err_0)
    } else if merchant is Err {
        Err(merchant->Err_0)
    } else if subsidy is Err {
        Err(subsidy->Err_0)
    } else if tax is Err {
        Err(tax->Err_0)
    } else if due is Err {
        Err(due->Err_0)
    } else if gross is Err {
        Err(gross->Err_0)
    } else {
        Ok(
            QuoteTotals {
                subtotal: subtotal->Ok_0,
                shipping: shipping->Ok_0,
                merchant_discount: merchant->Ok_0,
                subsidy_discount: subsidy->Ok_0,
                tax: tax->Ok_0,
                total: due->Ok_0,
                merchant_gross: gross->Ok_0,
            },
        )
    }
}

/// The aggregates of all entries.
pub fn quote_totals(entries: &Vec<Entry>, currency: Currency) -> (totals: Result<
    QuoteTotals,
    Error,
>)
    ensures
        outcome(totals) == overall(entries@, currency),
{
    let subtotal = match column_total(entries, Column::Subtotal, currency) {
        Ok(amount) => amount,
        Err(error) => return Err(error),
    };
    let shipping = match column_total(entries, Column::Shipping, currency) {
        Ok(amount) => amount,
        Err(error) => return Err(error),
    };
    let merchant_discount = match column_total(entries, Column::MerchantDiscount, currency) {
        Ok(amount) => amount,
        Err(error) => return Err(error),
    };
    let subsidy_discount = match column_total(entries, Column::SubsidyDiscount, currency) {
        Ok(amount) => amount,
        Err(error) => return Err(error),
    };
    let tax = match column_total(entries, Column::Tax, currency) {
        Ok(amount) => amount,
        Err(error) => return Err(error),
    };
    let due = match column_total(entries, Column::CustomerTotal, currency) {
        Ok(amount) => amount,
        Err(error) => return Err(error),
    };
    let merchant_gross = match column_total(entries, Column::MerchantGross, currency) {
        Ok(amount) => amount,
        Err(error) => return Err(error),
    };
    Ok(
        QuoteTotals {
            subtotal,
            shipping,
            merchant_discount,
            subsidy_discount,
            tax,
            total: due,
            merchant_gross,
        },
    )
}

/// The amounts that the shopper pays towards each shop.
pub open spec fn shop_customer_totals(shops: Seq<ShopTotals>) -> Seq<Money> {
    shops.map_values(|totals: ShopTotals| totals.customer_total)
}

/// The amounts that each funder owes.
pub open spec fn subsidy_amounts(subsidies: Seq<SubsidyView>) -> Seq<Money> {
    subsidies.map_values(|totals: SubsidyView| totals.amount)
}

/// Whether the aggregates of a quote agree with each other, and otherwise which first
/// does not.
pub open spec fn balance(
    totals: QuoteTotals,
    shops: Seq<ShopTotals>,
    subsidies: Seq<SubsidyView>,
    currency: Currency,
) -> Result<(), ErrorView> {
    match totals.total.plus(totals.subsidy_discount) {
        Err(error) => Err(error),
        Ok(expected) => if expected != totals.merchant_gross {
            Err(
                ErrorView::Internal(
                    "quote imbalance: customer "@ + totals.total.text() + " + subsidy "@
                        + totals.subsidy_discount.text() + " != merchant gross "@
                        + totals.merchant_gross.text(),
                ),
            )
        } else {
            match total(shop_customer_totals(shops), currency) {
                Err(error) => Err(error),
                Ok(customer) => if customer != totals.total {
                    Err(
                        ErrorView::Internal(
                            "shop customer totals "@ + customer.text()
                                + " do not sum to order total "@ + totals.total.text(),
                        ),
                    )
                } else {
                    match total(subsidy_amounts(subsidies), currency) {
                        Err(error) => Err(error),
                        Ok(subsidy) => if subsidy != totals.subsidy_discount {
                            Err(
                                ErrorView::Internal(
                                    "subsidy totals "@ + subsidy.text() + " do not sum to "@
                                        + totals.subsidy_discount.text(),
                                ),
                            )
                        } else if totals.total.minor < 0 {
                            Err(ErrorView::Internal("quote total is negative"@))
                        } else {
                            Ok(())
                        },
                    }
                },
            }
        },
    }
}

/// Check the aggregates of a quote against each other.
pub fn check_balance(
    totals: &QuoteTotals,
    shops: &Vec<ShopTotals>,
    subsidies: &Vec<SubsidyTotals>,
    currency: Currency,
) -> (balanced: Result<(), Error>)
    ensures
        outcome(balanced) == balance(*totals, shops@, subsidy_views(subsidies@), currency),
{
    let expected = match totals.total.try_add(totals.subsidy_discount) {
        Ok(expected) => expected,
        Err(error) => return Err(error),
    };
    if expected != totals.merchant_gross {
        let mut message = join3(
            "quote imbalance: customer ",
            totals.total.to_text().as_str(),
            " + subsidy ",
        );
        message.append(totals.subsidy_discount.to_text().as_str());
        message.append(" != merchant gross ");
        message.append(totals.merchant_gross.to_text().as_str());
        return Err(Error::internal(message.as_str()));
    }
    let mut customers: Vec<Money> = Vec::new();
    let mut i: usize = 0;
    while i < shops.len()
        invariant
            i <= shops@.len(),
            customers@ == shop_customer_totals(shops@).take(i as int),
        decreases shops@.len() - i,
    {
        customers.push(shops[i].customer_total);
        i += 1;
        assert(customers@ =~= shop_customer_totals(shops@).take(i as int));
    }
    assert(customers@ =~= shop_customer_totals(shops@));
    let customer = match Money::sum(customers.as_slice(), currency) {
        Ok(customer) => customer,
        Err(error) => return Err(error),
    };
    if customer != totals.total {
        let mut message = join3(
            "shop customer totals ",
            customer.to_text().as_str(),
            " do not sum to order total ",
        );
        message.append(totals.total.to_text().as_str());
        return Err(Error::internal(message.as_str()));
    }
    let ghost amounts = subsidy_amounts(subsidy_views(subsidies@));
    let mut owed: Vec<Money> = Vec::new();
    let mut k: usize = 0;
    while k < subsidies.len()
        invariant
            k <= subsidies@.len(),
            amounts == subsidy_amounts(subsidy_views(subsidies@)),
            owed@ == amounts.take(k as int),
        decreases subsidies@.len() - k,
    {
        owed.push(subsidies[k].amount);
        k += 1;
        assert(owed@ =~= amounts.take(k as int));
    }
    assert(owed@ =~= amounts);
    let subsidy = match Money::sum(owed.as_slice(), currency) {
        Ok(subsidy) => subsidy,
        Err(error) => return Err(error),
    };
    if subsidy != totals.subsidy_discount {
        let mut message = join3(
            "subsidy totals ",
            subsidy.to_text().as_str(),
            " do not sum to ",
        );
        message.append(totals.subsidy_discount.to_text().as_str());
        return Err(Error::internal(message.as_str()));
    }
    if totals.total.is_negative() {
        return Err(Error::internal("quote total is negative"));
    }
    Ok(())
}

/// Everything a quote adds up to.
pub ghost struct FinishedView {
    /// The priced lines, then the priced shipments.
    pub entries: Seq<Entry>,
    /// Per-shop aggregates.
    pub shops: Seq<ShopTotals>,
    /// Per-funder aggregates.
    pub subsidies: Seq<SubsidyView>,
    /// Aggregates.
    pub totals: QuoteTotals,
}

/// Everything a quote adds up to, before it is checked.
pub open spec fn added_up(
    state: StateView,
    results: Seq<TaxLineResult>,
    currency: Currency,
    mode: TaxMode,
) -> Result<FinishedView, ErrorView> {
    match line_entries(state.lines, results, currency, mode) {
        Err(error) => Err(error),
        Ok(lines) => match shipping_entries(state.shipping, results, currency, mode) {
            Err(error) => Err(error),
            Ok(shipping) => {
                let entries = lines + shipping;
                match per_shop(entries, currency) {
                    Err(error) => Err(error),
                    Ok(shops) => match per_funder(
                        line_charges(state.lines) + shipping_charges(state.shipping),
                        currency,
                    ) {
                        Err(error) => Err(error),
                        Ok(subsidies) => match overall(entries, currency) {
                            Err(error) => Err(error),
                            Ok(totals) => Ok(
                                FinishedView { entries, shops, subsidies, totals },
                            ),
                        },
                    },
                }
            },
        },
    }
}

/// Everything a quote adds up to, checked.
pub open spec fn finished(
    state: StateView,
    results: Seq<TaxLineResult>,
    currency: Currency,
    mode: TaxMode,
) -> Result<FinishedView, ErrorView> {
    match added_up(state, results, currency, mode) {
        Err(error) => Err(error),
        Ok(made) => match balance(made.totals, made.shops, made.subsidies, currency) {
            Err(error) => Err(error),
            Ok(_) => Ok(made),
        },
    }
}

/// Whether every entry keeps the money identity in one currency.
pub open spec fn entries_balance(entries: Seq<Entry>, currency: Currency) -> bool {
    forall|i: int|
        0 <= i < entries.len() ==> {
            let made = (#[trigger] entries[i]).figures;
            &&& made.merchant_gross.minor == made.customer_total.minor
                + made.subsidy_discount.minor
            &&& made.customer_total.currency == currency
            &&& made.subsidy_discount.currency == currency
        }
}

pub proof fn lemma_line_entries_balance(
    lines: Seq<LineView>,
    results: Seq<TaxLineResult>,
    currency: Currency,
    mode: TaxMode,
)
    requires
        line_entries(lines, results, currency, mode) is Ok,
    ensures
        entries_balance(line_entries(lines, results, currency, mode)->Ok_0, currency),
        line_entries(lines, results, currency, mode)->Ok_0.len() == lines.len(),
        forall|i: int|
            0 <= i < lines.len() ==> line_figures(
                #[trigger] lines[i],
                results,
                currency,
                mode,
            ) is Ok && line_entries(lines, results, currency, mode)->Ok_0[i] == line_entry(
                lines[i],
                line_figures(lines[i], results, currency, mode)->Ok_0,
                currency,
            ),
    decreases lines.len(),
{
    if lines.len() > 0 {
        let rest = lines.drop_last();
        lemma_line_entries_balance(rest, results, currency, mode);
        let before = line_entries(rest, results, currency, mode)->Ok_0;
        let entries = line_entries(lines, results, currency, mode)->Ok_0;
        let last = lines.last();
        law_figures_balance(
            last.subtotal,
            last.discounts,
            results,
            last.line_id@,
            currency,
            mode,
        );
        assert forall|i: int| 0 <= i < entries.len() implies {
            let made = (#[trigger] entries[i]).figures;
            &&& made.merchant_gross.minor == made.customer_total.minor
                + made.subsidy_discount.minor
            &&& made.customer_total.currency == currency
            &&& made.subsidy_discount.currency == currency
        } by {
            if i < before.len() {
                assert(entries[i] == before[i]);
            }
        }
        assert forall|i: int| 0 <= i < lines.len() implies line_figures(
            #[trigger] lines[i],
            results,
            currency,
            mode,
        ) is Ok && entries[i] == line_entry(
            lines[i],
            line_figures(lines[i], results, currency, mode)->Ok_0,
            currency,
        ) by {
            if i < rest.len() {
                assert(rest[i] == lines[i]);
                assert(entries[i] == before[i]);
            }
        }
    }
}

pub proof fn lemma_shipping_entries_balance(
    shipping: Seq<ShippingView>,
    results: Seq<TaxLineResult>,
    currency: Currency,
    mode: TaxMode,
)
    requires
        shipping_entries(shipping, results, currency, mode) is Ok,
    ensures
        entries_balance(shipping_entries(shipping, results, currency, mode)->Ok_0, currency),
        shipping_entries(shipping, results, currency, mode)->Ok_0.len() == shipping.len(),
        forall|i: int|
            0 <= i < shipping.len() ==> shipping_figures(
                #[trigger] shipping[i],
                results,
                currency,
                mode,
            ) is Ok && shipping_entries(shipping, results, currency, mode)->Ok_0[i]
                == shipping_entry(
                shipping[i],
                shipping_figures(shipping[i], results, currency, mode)->Ok_0,
                currency,
            ),
    decreases shipping.len(),
{
    if shipping.len() > 0 {
        let rest = shipping.drop_last();
        lemma_shipping_entries_balance(rest, results, currency, mode);
        let before = shipping_entries(rest, results, currency, mode)->Ok_0;
        let entries = shipping_entries(shipping, results, currency, mode)->Ok_0;
        let last = shipping.last();
        law_figures_balance(
            last.price,
            last.discounts,
            results,
            last.group_id@,
            currency,
            mode,
        );
        assert forall|i: int| 0 <= i < entries.len() implies {
            let made = (#[trigger] entries[i]).figures;
            &&& made.merchant_gross.minor == made.customer_total.minor
                + made.subsidy_discount.minor
            &&& made.customer_total.currency == currency
            &&& made.subsidy_discount.currency == currency
        } by {
            if i < before.len() {
                assert(entries[i] == before[i]);
            }
        }
        assert forall|i: int| 0 <= i < shipping.len() implies shipping_figures(
            #[trigger] shipping[i],
            results,
            currency,
            mode,
        ) is Ok && entries[i] == shipping_entry(
            shipping[i],
            shipping_figures(shipping[i], results, currency, mode)->Ok_0,
            currency,
        ) by {
            if i < rest.len() {
                assert(rest[i] == shipping[i]);
                assert(entries[i] == before[i]);
            }
        }
    }
}

proof fn lemma_column_identity(entries: Seq<Entry>, currency: Currency)
    requires
        entries_balance(entries, currency),
    ensures
        sum(minors(column(entries, Column::MerchantGross))) == sum(
            minors(column(entries, Column::CustomerTotal)),
        ) + sum(minors(column(entries, Column::SubsidyDiscount))),
{
    let gross = minors(column(entries, Column::MerchantGross));
    let customer = minors(column(entries, Column::CustomerTotal));
    let subsidy = minors(column(entries, Column::SubsidyDiscount));
    assert forall|i: int| 0 <= i < gross.len() implies #[trigger] gross[i] == customer[i]
        + subsidy[i] by {
        assert(entries[i].figures.merchant_gross.minor == entries[i].figures.customer_total.minor
            + entries[i].figures.subsidy_discount.minor);
    }
    lemma_sum_add(customer, subsidy, gross);
}

proof fn lemma_entries_balance(
    state: StateView,
    results: Seq<TaxLineResult>,
    currency: Currency,
    mode: TaxMode,
)
    requires
        added_up(state, results, currency, mode) is Ok,
    ensures
        entries_balance(added_up(state, results, currency, mode)->Ok_0.entries, currency),
{
    let lines = line_entries(state.lines, results, currency, mode)->Ok_0;
    let shipping = shipping_entries(state.shipping, results, currency, mode)->Ok_0;
    lemma_line_entries_balance(state.lines, results, currency, mode);
    lemma_shipping_entries_balance(state.shipping, results, currency, mode);
    let entries = lines + shipping;
    assert forall|i: int| 0 <= i < entries.len() implies {
        let made = (#[trigger] entries[i]).figures;
        &&& made.merchant_gross.minor == made.customer_total.minor + made.subsidy_discount.minor
        &&& made.customer_total.currency == currency
        &&& made.subsidy_discount.currency == currency
    } by {
        if i < lines.len() {
            assert(entries[i] == lines[i]);
        } else {
            assert(entries[i] == shipping[i - lines.len()]);
        }
    }
}

/// The money identity in aggregate: what all shops are owed equals what the shopper pays
/// plus what third parties pay on the shopper's behalf.
pub proof fn law_totals_balance(
    state: StateView,
    results: Seq<TaxLineResult>,
    currency: Currency,
    mode: TaxMode,
)
    ensures
        added_up(state, results, currency, mode) matches Ok(made) ==> {
            &&& made.totals.merchant_gross.minor == made.totals.total.minor
                + made.totals.subsidy_discount.minor
            &&& made.totals.total.currency == currency
            &&& made.totals.subsidy_discount.currency == currency
            &&& made.totals.merchant_gross.currency == currency
        },
{
    if added_up(state, results, currency, mode) is Ok {
        let entries = added_up(state, results, currency, mode)->Ok_0.entries;
        lemma_entries_balance(state, results, currency, mode);
        lemma_column_identity(entries, currency);
        law_total_is_the_sum(column(entries, Column::MerchantGross), currency);
        law_total_is_the_sum(column(entries, Column::CustomerTotal), currency);
        law_total_is_the_sum(column(entries, Column::SubsidyDiscount), currency);
    }
}

/// What the shopper pays towards each shop adds up to what the shopper pays for all
/// entries.
pub proof fn law_shops_share_the_total(entries: Seq<Entry>, currency: Currency)
    ensures
        per_shop(entries, currency) matches Ok(shops) ==> {
            &&& sum(minors(shop_customer_totals(shops))) == sum(
                minors(column(entries, Column::CustomerTotal)),
            )
            &&& all_in(shop_customer_totals(shops), currency)
        },
    decreases entries.len(),
{
    if entries.len() == 0 {
        assert(minors(shop_customer_totals(Seq::<ShopTotals>::empty())) =~= Seq::<int>::empty());
        assert(minors(column(entries, Column::CustomerTotal)) =~= Seq::<int>::empty());
    } else if per_shop(entries, currency) is Ok {
        let rest = entries.drop_last();
        let entry = entries.last();
        law_shops_share_the_total(rest, currency);
        let before = per_shop(rest, currency)->Ok_0;
        let after = per_shop(entries, currency)->Ok_0;
        let at = shop_index(before, entry.shop_id@);
        lemma_shop_index_bounds(before, entry.shop_id@);
        let old_minors = minors(shop_customer_totals(before));
        let new_minors = minors(shop_customer_totals(after));
        let paid = entry.figures.customer_total.minor as int;
        let columns = minors(column(rest, Column::CustomerTotal));
        lemma_sum_push(columns, paid);
        assert(minors(column(entries, Column::CustomerTotal)) =~= columns.push(paid));
        if at < before.len() {
            assert(shop_customer_totals(before)[at].currency == currency);
            assert(new_minors =~= old_minors.update(at, old_minors[at] + paid));
            lemma_sum_update(old_minors, at, old_minors[at] + paid);
        } else {
            assert(new_minors =~= old_minors.push(paid));
            lemma_sum_push(old_minors, paid);
        }
        assert forall|i: int| 0 <= i < after.len() implies (#[trigger] shop_customer_totals(
            after,
        )[i]).currency == currency by {
            if i < before.len() {
                assert(shop_customer_totals(before)[i].currency == currency);
            }
        }
    }
}

/// The amounts of a list of charges.
pub open spec fn charge_amounts(list: Seq<Charge>) -> Seq<int> {
    list.map_values(|charge: Charge| charge.amount.minor as int)
}

/// What each funder owes adds up to all charges.
pub proof fn law_funders_share_the_charges(list: Seq<Charge>, currency: Currency)
    ensures
        per_funder(list, currency) matches Ok(subsidies) ==> {
            &&& sum(minors(subsidy_amounts(subsidies))) == sum(charge_amounts(list))
            &&& all_in(subsidy_amounts(subsidies), currency)
        },
    decreases list.len(),
{
    if list.len() == 0 {
        assert(minors(subsidy_amounts(Seq::<SubsidyView>::empty())) =~= Seq::<int>::empty());
        assert(charge_amounts(list) =~= Seq::<int>::empty());
    } else if per_funder(list, currency) is Ok {
        let rest = list.drop_last();
        let charge = list.last();
        law_funders_share_the_charges(rest, currency);
        let before = per_funder(rest, currency)->Ok_0;
        let after = per_funder(list, currency)->Ok_0;
        let at = funder_index(before, charge.funder@);
        lemma_funder_index_bounds(before, charge.funder@);
        let old_minors = minors(subsidy_amounts(before));
        let new_minors = minors(subsidy_amounts(after));
        let paid = charge.amount.minor as int;
        lemma_sum_push(charge_amounts(rest), paid);
        assert(charge_amounts(list) =~= charge_amounts(rest).push(paid));
        if at < before.len() {
            assert(subsidy_amounts(before)[at].currency == currency);
            assert(new_minors =~= old_minors.update(at, old_minors[at] + paid));
            lemma_sum_update(old_minors, at, old_minors[at] + paid);
        } else {
            assert(new_minors =~= old_minors.push(paid));
            lemma_sum_push(old_minors, paid);
        }
        assert forall|i: int| 0 <= i < after.len() implies (#[trigger] subsidy_amounts(
            after,
        )[i]).currency == currency by {
            if i < before.len() {
                assert(subsidy_amounts(before)[i].currency == currency);
            }
        }
    }
}

proof fn lemma_charges_are_subsidies(
    discounts: Seq<AppliedDiscount>,
    shop_id: ShopId,
    currency: Currency,
)
    ensures
        funded(discounts, currency) matches Ok(split) ==> sum(
            charge_amounts(charges(discounts, shop_id)),
        ) == split.1.minor,
    decreases discounts.len(),
{
    if discounts.len() == 0 {
        assert(charge_amounts(charges(discounts, shop_id)) =~= Seq::<int>::empty());
    } else {
        let rest = discounts.drop_last();
        lemma_charges_are_subsidies(rest, shop_id, currency);
        let amount = discounts.last().amount.minor as int;
        lemma_sum_push(charge_amounts(charges(rest, shop_id)), amount);
        if discounts.last().funding is Subsidy {
            assert(charge_amounts(charges(discounts, shop_id)) =~= charge_amounts(
                charges(rest, shop_id),
            ).push(amount));
        }
    }
}

proof fn lemma_line_charges(
    lines: Seq<LineView>,
    results: Seq<TaxLineResult>,
    currency: Currency,
    mode: TaxMode,
)
    ensures
        line_entries(lines, results, currency, mode) matches Ok(entries) ==> sum(
            charge_amounts(line_charges(lines)),
        ) == sum(minors(column(entries, Column::SubsidyDiscount))),
    decreases lines.len(),
{
    if line_entries(lines, results, currency, mode) is Ok {
        let entries = line_entries(lines, results, currency, mode)->Ok_0;
        if lines.len() == 0 {
            assert(charge_amounts(line_charges(lines)) =~= Seq::<int>::empty());
            assert(minors(column(entries, Column::SubsidyDiscount)) =~= Seq::<int>::empty());
        } else {
            let rest = lines.drop_last();
            let last = lines.last();
            lemma_line_charges(rest, results, currency, mode);
            lemma_charges_are_subsidies(last.discounts, last.shop_id, currency);
            let before = line_entries(rest, results, currency, mode)->Ok_0;
            let old_column = minors(column(before, Column::SubsidyDiscount));
            let paid = entries.last().figures.subsidy_discount.minor as int;
            lemma_sum_push(old_column, paid);
            assert(minors(column(entries, Column::SubsidyDiscount)) =~= old_column.push(paid));
            let first = charge_amounts(line_charges(rest));
            let second = charge_amounts(charges(last.discounts, last.shop_id));
            lemma_sum_concat(first, second);
            assert(charge_amounts(line_charges(lines)) =~= first + second);
        }
    }
}

proof fn lemma_shipping_charges(
    shipping: Seq<ShippingView>,
    results: Seq<TaxLineResult>,
    currency: Currency,
    mode: TaxMode,
)
    ensures
        shipping_entries(shipping, results, currency, mode) matches Ok(entries) ==> sum(
            charge_amounts(shipping_charges(shipping)),
        ) == sum(minors(column(entries, Column::SubsidyDiscount))),
    decreases shipping.len(),
{
    if shipping_entries(shipping, results, currency, mode) is Ok {
        let entries = shipping_entries(shipping, results, currency, mode)->Ok_0;
        if shipping.len() == 0 {
            assert(charge_amounts(shipping_charges(shipping)) =~= Seq::<int>::empty());
            assert(minors(column(entries, Column::SubsidyDiscount)) =~= Seq::<int>::empty());
        } else {
            let rest = shipping.drop_last();
            let last = shipping.last();
            lemma_shipping_charges(rest, results, currency, mode);
            lemma_charges_are_subsidies(last.discounts, last.shop_id, currency);
            let before = shipping_entries(rest, results, currency, mode)->Ok_0;
            let old_column = minors(column(before, Column::SubsidyDiscount));
            let paid = entries.last().figures.subsidy_discount.minor as int;
            lemma_sum_push(old_column, paid);
            assert(minors(column(entries, Column::SubsidyDiscount)) =~= old_column.push(paid));
            let first = charge_amounts(shipping_charges(rest));
            let second = charge_amounts(charges(last.discounts, last.shop_id));
            lemma_sum_concat(first, second);
            assert(charge_amounts(shipping_charges(shipping)) =~= first + second);
        }
    }
}

/// The aggregates of a quote agree with each other however it was priced: the shares of
/// the shops add up to what the shopper pays, and those of the funders to the subsidies.
pub proof fn law_aggregates_agree(
    state: StateView,
    results: Seq<TaxLineResult>,
    currency: Currency,
    mode: TaxMode,
)
    ensures
        added_up(state, results, currency, mode) matches Ok(made) ==> {
            &&& sum(minors(shop_customer_totals(made.shops))) == made.totals.total.minor
            &&& sum(minors(subsidy_amounts(made.subsidies)))
                == made.totals.subsidy_discount.minor
        },
{
    if added_up(state, results, currency, mode) is Ok {
        let made = added_up(state, results, currency, mode)->Ok_0;
        law_shops_share_the_total(made.entries, currency);
        law_total_is_the_sum(column(made.entries, Column::CustomerTotal), currency);
        law_total_is_the_sum(column(made.entries, Column::SubsidyDiscount), currency);
        let lines = line_entries(state.lines, results, currency, mode)->Ok_0;
        let shipping = shipping_entries(state.shipping, results, currency, mode)->Ok_0;
        lemma_line_charges(state.lines, results, currency, mode);
        lemma_shipping_charges(state.shipping, results, currency, mode);
        let all = line_charges(state.lines) + shipping_charges(state.shipping);
        law_funders_share_the_charges(all, currency);
        let first = charge_amounts(line_charges(state.lines));
        let second = charge_amounts(shipping_charges(state.shipping));
        lemma_sum_concat(first, second);
        assert(charge_amounts(all) =~= first + second);
        let left = minors(column(lines, Column::SubsidyDiscount));
        let right = minors(column(shipping, Column::SubsidyDiscount));
        lemma_sum_concat(left, right);
        assert(minors(column(made.entries, Column::SubsidyDiscount)) =~= left + right);
    }
}

proof fn lemma_funded_is_everything(discounts: Seq<AppliedDiscount>, currency: Currency)
    ensures
        funded(discounts, currency) matches Ok(split) ==> split.0.minor + split.1.minor == sum(
            discount_amounts(discounts),
        ),
    decreases discounts.len(),
{
    if discounts.len() == 0 {
        assert(discount_amounts(discounts) =~= Seq::<int>::empty());
    } else {
        let rest = discounts.drop_last();
        lemma_funded_is_everything(rest, currency);
        assert(discount_amounts(discounts).drop_last() =~= discount_amounts(rest));
    }
}

/// Whether no tax that was computed is negative.
pub open spec fn taxes_owed(results: Seq<TaxLineResult>) -> bool {
    forall|i: int| 0 <= i < results.len() ==> (#[trigger] results[i]).tax.minor >= 0
}

/// The shopper never pays less than nothing: what the discounts leave of an exactly split
/// price, plus a tax that is not negative.
pub proof fn law_nobody_is_paid_to_shop(
    price: Money,
    remaining: Money,
    discounts: Seq<AppliedDiscount>,
    results: Seq<TaxLineResult>,
    reference: Seq<char>,
    currency: Currency,
    mode: TaxMode,
)
    requires
        split_exactly(price, remaining, discounts, currency),
        taxes_owed(results),
    ensures
        figures(price, discounts, results, reference, currency, mode) matches Ok(made)
            ==> made.customer_total.minor >= remaining.minor && made.customer_total.minor >= 0,
{
    lemma_funded_is_everything(discounts, currency);
    lemma_funded_currency(discounts, currency);
}

spec fn paid_for(entries: Seq<Entry>) -> bool {
    forall|i: int|
        0 <= i < entries.len() ==> (#[trigger] entries[i]).figures.customer_total.minor >= 0
}

proof fn lemma_paid_for(
    state: StateView,
    results: Seq<TaxLineResult>,
    currency: Currency,
    mode: TaxMode,
)
    requires
        exact(state, currency),
        taxes_owed(results),
        added_up(state, results, currency, mode) is Ok,
    ensures
        paid_for(added_up(state, results, currency, mode)->Ok_0.entries),
{
    let lines = line_entries(state.lines, results, currency, mode)->Ok_0;
    let shipping = shipping_entries(state.shipping, results, currency, mode)->Ok_0;
    lemma_line_entries_balance(state.lines, results, currency, mode);
    lemma_shipping_entries_balance(state.shipping, results, currency, mode);
    let entries = lines + shipping;
    assert forall|i: int| 0 <= i < entries.len() implies (
    #[trigger] entries[i]).figures.customer_total.minor >= 0 by {
        if i < lines.len() {
            let line = state.lines[i];
            assert(entries[i] == lines[i]);
            law_nobody_is_paid_to_shop(
                line.subtotal,
                line.remaining,
                line.discounts,
                results,
                line.line_id@,
                currency,
                mode,
            );
        } else {
            let group = state.shipping[i - lines.len()];
            assert(entries[i] == shipping[i - lines.len()]);
            law_nobody_is_paid_to_shop(
                group.price,
                group.remaining,
                group.discounts,
                results,
                group.group_id@,
                currency,
                mode,
            );
        }
    }
}

proof fn lemma_shops_are_paid(entries: Seq<Entry>, currency: Currency)
    requires
        paid_for(entries),
        per_shop(entries, currency) is Ok,
    ensures
        forall|i: int|
            0 <= i < per_shop(entries, currency)->Ok_0.len() ==> (#[trigger] per_shop(
                entries,
                currency,
            )->Ok_0[i]).customer_total.minor >= 0,
    decreases entries.len(),
{
    if entries.len() > 0 {
        let rest = entries.drop_last();
        assert forall|i: int| 0 <= i < rest.len() implies (
        #[trigger] rest[i]).figures.customer_total.minor >= 0 by {
            assert(rest[i] == entries[i]);
        }
        lemma_shops_are_paid(rest, currency);
        let before = per_shop(rest, currency)->Ok_0;
        let after = per_shop(entries, currency)->Ok_0;
        let entry = entries[entries.len() - 1];
        assert(entry.figures.customer_total.minor >= 0);
        lemma_shop_index_bounds(before, entry.shop_id@);
        assert forall|i: int| 0 <= i < after.len() implies (
        #[trigger] after[i]).customer_total.minor >= 0 by {
            if i < before.len() {
                assert(before[i].customer_total.minor >= 0);
            }
        }
    }
}

spec fn charged(list: Seq<Charge>) -> bool {
    forall|i: int| 0 <= i < list.len() ==> (#[trigger] list[i]).amount.minor >= 0
}

proof fn lemma_charged(discounts: Seq<AppliedDiscount>, shop_id: ShopId)
    requires
        forall|i: int| 0 <= i < discounts.len() ==> (#[trigger] discounts[i]).amount.minor >= 0,
    ensures
        charged(charges(discounts, shop_id)),
    decreases discounts.len(),
{
    if discounts.len() > 0 {
        let rest = discounts.drop_last();
        assert forall|i: int| 0 <= i < rest.len() implies (#[trigger] rest[i]).amount.minor
            >= 0 by {
            assert(rest[i] == discounts[i]);
        }
        lemma_charged(rest, shop_id);
        assert(discounts[discounts.len() - 1].amount.minor >= 0);
        let before = charges(rest, shop_id);
        let after = charges(discounts, shop_id);
        assert forall|i: int| 0 <= i < after.len() implies (#[trigger] after[i]).amount.minor
            >= 0 by {
            if i < before.len() {
                assert(before[i].amount.minor >= 0);
            }
        }
    }
}

proof fn lemma_lines_charged(lines: Seq<LineView>, currency: Currency)
    requires
        forall|i: int|
            0 <= i < lines.len() ==> split_exactly(
                (#[trigger] lines[i]).subtotal,
                lines[i].remaining,
                lines[i].discounts,
                currency,
            ),
    ensures
        charged(line_charges(lines)),
    decreases lines.len(),
{
    if lines.len() > 0 {
        let rest = lines.drop_last();
        assert forall|i: int| 0 <= i < rest.len() implies split_exactly(
            (#[trigger] rest[i]).subtotal,
            rest[i].remaining,
            rest[i].discounts,
            currency,
        ) by {
            assert(rest[i] == lines[i]);
        }
        lemma_lines_charged(rest, currency);
        let last = lines[lines.len() - 1];
        assert(split_exactly(last.subtotal, last.remaining, last.discounts, currency));
        lemma_charged(last.discounts, last.shop_id);
        let before = line_charges(rest);
        let after = line_charges(lines);
        assert forall|i: int| 0 <= i < after.len() implies (#[trigger] after[i]).amount.minor
            >= 0 by {
            if i < before.len() {
                assert(before[i].amount.minor >= 0);
            } else {
                assert(charges(last.discounts, last.shop_id)[i - before.len()].amount.minor >= 0);
            }
        }
    }
}

proof fn lemma_shipping_charged(shipping: Seq<ShippingView>, currency: Currency)
    requires
        forall|i: int|
            0 <= i < shipping.len() ==> split_exactly(
                (#[trigger] shipping[i]).price,
                shipping[i].remaining,
                shipping[i].discounts,
                currency,
            ),
    ensures
        charged(shipping_charges(shipping)),
    decreases shipping.len(),
{
    if shipping.len() > 0 {
        let rest = shipping.drop_last();
        assert forall|i: int| 0 <= i < rest.len() implies split_exactly(
            (#[trigger] rest[i]).price,
            rest[i].remaining,
            rest[i].discounts,
            currency,
        ) by {
            assert(rest[i] == shipping[i]);
        }
        lemma_shipping_charged(rest, currency);
        let last = shipping[shipping.len() - 1];
        assert(split_exactly(last.price, last.remaining, last.discounts, currency));
        lemma_charged(last.discounts, last.shop_id);
        let before = shipping_charges(rest);
        let after = shipping_charges(shipping);
        assert forall|i: int| 0 <= i < after.len() implies (#[trigger] after[i]).amount.minor
            >= 0 by {
            if i < before.len() {
                assert(before[i].amount.minor >= 0);
            } else {
                assert(charges(last.discounts, last.shop_id)[i - before.len()].amount.minor >= 0);
            }
        }
    }
}

proof fn lemma_funders_pay(list: Seq<Charge>, currency: Currency)
    requires
        charged(list),
        per_funder(list, currency) is Ok,
    ensures
        forall|i: int|
            0 <= i < per_funder(list, currency)->Ok_0.len() ==> (#[trigger] per_funder(
                list,
                currency,
            )->Ok_0[i]).amount.minor >= 0,
    decreases list.len(),
{
    if list.len() > 0 {
        let rest = list.drop_last();
        assert forall|i: int| 0 <= i < rest.len() implies (#[trigger] rest[i]).amount.minor
            >= 0 by {
            assert(rest[i] == list[i]);
        }
        lemma_funders_pay(rest, currency);
        let before = per_funder(rest, currency)->Ok_0;
        let after = per_funder(list, currency)->Ok_0;
        let charge = list[list.len() - 1];
        assert(charge.amount.minor >= 0);
        lemma_funder_index_bounds(before, charge.funder@);
        assert forall|i: int| 0 <= i < after.len() implies (#[trigger] after[i]).amount.minor
            >= 0 by {
            if i < before.len() {
                assert(before[i].amount.minor >= 0);
            }
        }
    }
}

/// A quote always passes its own check: when every price is split exactly and no tax is
/// negative, what adds up balances.
pub proof fn law_quotes_pass_their_check(
    state: StateView,
    results: Seq<TaxLineResult>,
    currency: Currency,
    mode: TaxMode,
)
    requires
        exact(state, currency),
        taxes_owed(results),
    ensures
        finished(state, results, currency, mode) == added_up(state, results, currency, mode),
{
    if added_up(state, results, currency, mode) is Ok {
        let made = added_up(state, results, currency, mode)->Ok_0;
        law_totals_balance(state, results, currency, mode);
        law_aggregates_agree(state, results, currency, mode);
        lemma_paid_for(state, results, currency, mode);
        lemma_shops_are_paid(made.entries, currency);
        law_shops_share_the_total(made.entries, currency);
        let customers = shop_customer_totals(made.shops);
        assert forall|i: int| 0 <= i < customers.len() implies (#[trigger] customers[i]).minor
            >= 0 by {
            assert(made.shops[i].customer_total.minor >= 0);
        }
        law_total_succeeds(customers, currency);
        let lines = line_charges(state.lines);
        let shipping = shipping_charges(state.shipping);
        lemma_lines_charged(state.lines, currency);
        lemma_shipping_charged(state.shipping, currency);
        let all = lines + shipping;
        assert forall|i: int| 0 <= i < all.len() implies (#[trigger] all[i]).amount.minor >= 0 by {
            if i < lines.len() {
                assert(lines[i].amount.minor >= 0);
            } else {
                assert(shipping[i - lines.len()].amount.minor >= 0);
            }
        }
        lemma_funders_pay(all, currency);
        law_funders_share_the_charges(all, currency);
        let owed = subsidy_amounts(made.subsidies);
        assert forall|i: int| 0 <= i < owed.len() implies (#[trigger] owed[i]).minor >= 0 by {
            assert(made.subsidies[i].amount.minor >= 0);
        }
        law_total_succeeds(owed, currency);
        lemma_sum_non_negative(minors(customers));
    }
}

/// A subsidy keeps the shop whole: a promotion that a third party pays for leaves what the
/// shop is owed and the amount it is taxed on as they were; the shopper pays less by
/// exactly what the funder pays more.
pub proof fn law_subsidies_keep_shops_whole(
    price: Money,
    discounts: Seq<AppliedDiscount>,
    discount: Discount,
    share: Money,
    results: Seq<TaxLineResult>,
    reference: Seq<char>,
    currency: Currency,
    mode: TaxMode,
)
    requires
        discount.funding is Subsidy,
        discount.reduces_taxable_base_override is None,
        figures(price, discounts, results, reference, currency, mode) is Ok,
        figures(
            price,
            discounts.push(landed(discount, share)),
            results,
            reference,
            currency,
            mode,
        ) is Ok,
    ensures
        ({
            let before = figures(price, discounts, results, reference, currency, mode)->Ok_0;
            let after = figures(
                price,
                discounts.push(landed(discount, share)),
                results,
                reference,
                currency,
                mode,
            )->Ok_0;
            &&& after.merchant_gross == before.merchant_gross
            &&& after.merchant_discount == before.merchant_discount
            &&& after.taxable_base == before.taxable_base
            &&& after.subsidy_discount.minor == before.subsidy_discount.minor + share.minor
            &&& after.customer_total.minor == before.customer_total.minor - share.minor
        }),
{
    let list = discounts.push(landed(discount, share));
    assert(list.drop_last() =~= discounts);
}

/// A merchant's promotion is a price reduction: the shop is owed less by exactly what the
/// shopper saves, before any change in tax, and nobody else pays for it.
pub proof fn law_merchants_fund_their_promotions(
    price: Money,
    discounts: Seq<AppliedDiscount>,
    discount: Discount,
    share: Money,
    results: Seq<TaxLineResult>,
    reference: Seq<char>,
    currency: Currency,
    mode: TaxMode,
)
    requires
        !(discount.funding is Subsidy),
        figures(price, discounts, results, reference, currency, mode) is Ok,
        figures(
            price,
            discounts.push(landed(discount, share)),
            results,
            reference,
            currency,
            mode,
        ) is Ok,
    ensures
        ({
            let before = figures(price, discounts, results, reference, currency, mode)->Ok_0;
            let after = figures(
                price,
                discounts.push(landed(discount, share)),
                results,
                reference,
                currency,
                mode,
            )->Ok_0;
            &&& after.subsidy_discount == before.subsidy_discount
            &&& after.merchant_discount.minor == before.merchant_discount.minor + share.minor
            &&& after.merchant_gross.minor == before.merchant_gross.minor - share.minor
            &&& after.customer_total.minor == before.customer_total.minor - share.minor
        }),
{
    let list = discounts.push(landed(discount, share));
    assert(list.drop_last() =~= discounts);
}

/// The aggregates of a quote are accepted exactly when they agree: what the shopper and
/// funders pay is what the shops get, the shops' parts add up to what the shopper pays, the
/// funders' parts to what funders pay, and the shopper is not paid to shop.
pub proof fn law_accepted_totals_agree(
    totals: QuoteTotals,
    shops: Seq<ShopTotals>,
    subsidies: Seq<SubsidyView>,
    currency: Currency,
)
    requires
        total(shop_customer_totals(shops), currency) is Ok,
        total(subsidy_amounts(subsidies), currency) is Ok,
        totals.total.currency == currency,
        totals.subsidy_discount.currency == currency,
        totals.merchant_gross.currency == currency,
        i64::MIN <= totals.total.minor + totals.subsidy_discount.minor <= i64::MAX,
    ensures
        balance(totals, shops, subsidies, currency) is Ok <==> {
            &&& totals.total.minor + totals.subsidy_discount.minor == totals.merchant_gross.minor
            &&& totals.total.minor == sum(
                shops.map_values(|shop: ShopTotals| shop.customer_total.minor as int),
            )
            &&& totals.subsidy_discount.minor == sum(
                subsidies.map_values(|subsidy: SubsidyView| subsidy.amount.minor as int),
            )
            &&& totals.total.minor >= 0
        },
{
    law_total_is_the_sum(shop_customer_totals(shops), currency);
    law_total_is_the_sum(subsidy_amounts(subsidies), currency);
    assert(minors(shop_customer_totals(shops)) =~= shops.map_values(
        |shop: ShopTotals| shop.customer_total.minor as int,
    ));
    assert(minors(subsidy_amounts(subsidies)) =~= subsidies.map_values(
        |subsidy: SubsidyView| subsidy.amount.minor as int,
    ));
}

} // verus!
