//! The working set of the pricing engine: what is left of each line and shipment while
//! discounts are applied.

use vstd::prelude::*;

use crate::address::Jurisdiction;
use crate::cart::{Cart, CartItem, FulfillmentGroup};
use crate::error::{outcome, Error, ErrorView};
use crate::folds::lemma_prefix_error_stays;
use crate::ids::{FulfillmentGroupId, LineItemId, ShopId};
use crate::money::allocation::{
    law_allocation_succeeds, law_good_weights, law_parts_are_proportional,
    law_parts_stay_within_their_weights, law_parts_sum_to_the_whole, parts_of,
    weighted_allocation,
};
use crate::money::{
    allocate_by_weights, law_total_is_the_sum, minors, total, Currency, Money, Rounding,
};
use crate::pricing::discount::{
    has_line_id, has_sku, law_discounts_are_capped, lists_line, lists_sku, Discount,
    DiscountScope,
};
use crate::pricing::tax::{TaxCode, TaxLineRequest, TaxMode, TaxRequest};
use crate::pricing::AppliedDiscount;
use crate::sums::{lemma_sum_non_negative, lemma_sum_push, lemma_sum_take, sum};
use crate::time::Timestamp;

verus! {

/// A cart line while it is being priced.
pub struct LineState {
    /// The cart line.
    pub line_id: LineItemId,
    /// Selling shop.
    pub shop_id: ShopId,
    /// Merchant SKU.
    pub sku: String,
    /// Display name.
    pub name: String,
    /// Units purchased.
    pub quantity: u32,
    /// Price per unit.
    pub unit_price: Money,
    /// Price of all units.
    pub subtotal: Money,
    /// What the discounts so far leave of the subtotal.
    pub remaining: Money,
    /// Discounts so far.
    pub discounts: Vec<AppliedDiscount>,
    /// The shipment the line is in.
    pub fulfillment_group_id: Option<FulfillmentGroupId>,
    /// Product tax classification.
    pub tax_code: TaxCode,
}

/// A cart line while it is being priced, with its discounts as a sequence.
pub ghost struct LineView {
    /// The cart line.
    pub line_id: LineItemId,
    /// Selling shop.
    pub shop_id: ShopId,
    /// Merchant SKU.
    pub sku: String,
    /// Display name.
    pub name: String,
    /// Units purchased.
    pub quantity: u32,
    /// Price per unit.
    pub unit_price: Money,
    /// Price of all units.
    pub subtotal: Money,
    /// What the discounts so far leave of the subtotal.
    pub remaining: Money,
    /// Discounts so far.
    pub discounts: Seq<AppliedDiscount>,
    /// The shipment the line is in.
    pub fulfillment_group_id: Option<FulfillmentGroupId>,
    /// Product tax classification.
    pub tax_code: TaxCode,
}

impl View for LineState {
    type V = LineView;

    open spec fn view(&self) -> LineView {
        LineView {
            line_id: self.line_id,
            shop_id: self.shop_id,
            sku: self.sku,
            name: self.name,
            quantity: self.quantity,
            unit_price: self.unit_price,
            subtotal: self.subtotal,
            remaining: self.remaining,
            discounts: self.discounts@,
            fulfillment_group_id: self.fulfillment_group_id,
            tax_code: self.tax_code,
        }
    }
}

/// A shipment while it is being priced.
pub struct ShippingState {
    /// The shipment.
    pub group_id: FulfillmentGroupId,
    /// Shop responsible for it.
    pub shop_id: ShopId,
    /// List price.
    pub price: Money,
    /// What the discounts so far leave of the price.
    pub remaining: Money,
    /// Discounts so far.
    pub discounts: Vec<AppliedDiscount>,
    /// Tax classification of the charge.
    pub tax_code: TaxCode,
    /// Lines in the shipment.
    pub items: Vec<LineItemId>,
}

/// A shipment while it is being priced, with its lists as sequences.
pub ghost struct ShippingView {
    /// The shipment.
    pub group_id: FulfillmentGroupId,
    /// Shop responsible for it.
    pub shop_id: ShopId,
    /// List price.
    pub price: Money,
    /// What the discounts so far leave of the price.
    pub remaining: Money,
    /// Discounts so far.
    pub discounts: Seq<AppliedDiscount>,
    /// Tax classification of the charge.
    pub tax_code: TaxCode,
    /// Lines in the shipment.
    pub items: Seq<LineItemId>,
}

impl View for ShippingState {
    type V = ShippingView;

    open spec fn view(&self) -> ShippingView {
        ShippingView {
            group_id: self.group_id,
            shop_id: self.shop_id,
            price: self.price,
            remaining: self.remaining,
            discounts: self.discounts@,
            tax_code: self.tax_code,
            items: self.items@,
        }
    }
}

/// Mutable working set used while discounts are applied.
pub struct PricingState {
    /// The lines, in cart order.
    pub lines: Vec<LineState>,
    /// The shipments.
    pub shipping: Vec<ShippingState>,
}

/// The working set, with its lists as sequences.
pub ghost struct StateView {
    /// The lines, in cart order.
    pub lines: Seq<LineView>,
    /// The shipments.
    pub shipping: Seq<ShippingView>,
}

/// The views of a list of lines.
pub open spec fn line_views(lines: Seq<LineState>) -> Seq<LineView> {
    lines.map_values(|line: LineState| line@)
}

/// The views of a list of shipments.
pub open spec fn shipping_views(shipping: Seq<ShippingState>) -> Seq<ShippingView> {
    shipping.map_values(|group: ShippingState| group@)
}

impl View for PricingState {
    type V = StateView;

    open spec fn view(&self) -> StateView {
        StateView { lines: line_views(self.lines@), shipping: shipping_views(self.shipping@) }
    }
}

/// A cart line before any discount.
pub open spec fn fresh_line(item: CartItem, subtotal: Money) -> LineView {
    LineView {
        line_id: item.id,
        shop_id: item.shop_id,
        sku: item.sku,
        name: item.name,
        quantity: item.quantity,
        unit_price: item.unit_price,
        subtotal,
        remaining: subtotal,
        discounts: Seq::empty(),
        fulfillment_group_id: item.fulfillment_group_id,
        tax_code: item.tax_code,
    }
}

/// The lines of a cart before any discount.
pub open spec fn fresh_lines(items: Seq<CartItem>) -> Result<Seq<LineView>, ErrorView>
    decreases items.len(),
{
    if items.len() == 0 {
        Ok(Seq::empty())
    } else {
        match fresh_lines(items.drop_last()) {
            Err(error) => Err(error),
            Ok(before) => match items.last().unit_price.times(items.last().quantity as int) {
                Err(error) => Err(error),
                Ok(subtotal) => Ok(before.push(fresh_line(items.last(), subtotal))),
            },
        }
    }
}

/// A shipment before any discount.
pub open spec fn fresh_shipment(group: FulfillmentGroup) -> ShippingView {
    ShippingView {
        group_id: group.id,
        shop_id: group.shop_id,
        price: group.shipping_price,
        remaining: group.shipping_price,
        discounts: Seq::empty(),
        tax_code: group.shipping_tax_code,
        items: group.items@,
    }
}

/// The working set of a cart before any discount.
pub open spec fn fresh(cart: Cart) -> Result<StateView, ErrorView> {
    match fresh_lines(cart.items@) {
        Err(error) => Err(error),
        Ok(lines) => Ok(
            StateView {
                lines,
                shipping: cart.fulfillment_groups@.map_values(
                    |group: FulfillmentGroup| fresh_shipment(group),
                ),
            },
        ),
    }
}

/// The views that a state result holds.
pub open spec fn state_outcome(state: Result<PricingState, Error>) -> Result<
    StateView,
    ErrorView,
> {
    match state {
        Ok(state) => Ok(state@),
        Err(error) => Err(error@),
    }
}

/// Whether a line is in a scope.
pub open spec fn in_scope(scope: DiscountScope, line: LineView) -> bool {
    scope.covers(line.shop_id@, line.line_id@, line.sku@)
}

/// The lines that are in a scope, in order.
pub open spec fn matching(lines: Seq<LineView>, scope: DiscountScope) -> Seq<LineView>
    decreases lines.len(),
{
    if lines.len() == 0 {
        Seq::empty()
    } else if in_scope(scope, lines.last()) {
        matching(lines.drop_last(), scope).push(lines.last())
    } else {
        matching(lines.drop_last(), scope)
    }
}

/// The subtotals of a list of lines.
pub open spec fn subtotals(lines: Seq<LineView>) -> Seq<Money> {
    lines.map_values(|line: LineView| line.subtotal)
}

/// What is left of each of a list of lines.
pub open spec fn remainings(lines: Seq<LineView>) -> Seq<Money> {
    lines.map_values(|line: LineView| line.remaining)
}

/// A discount as it lands on one line or shipment.
pub open spec fn landed(discount: Discount, amount: Money) -> AppliedDiscount {
    AppliedDiscount {
        discount_id: discount.id,
        code: discount.code,
        description: discount.description,
        funding: discount.funding,
        amount,
        reduced_taxable_base: discount.lowers_base(),
    }
}

/// What each line in the scope of a discount is discounted by.
pub open spec fn discount_shares(
    lines: Seq<LineView>,
    discount: Discount,
    rounding: Rounding,
    now: Timestamp,
    currency: Currency,
) -> Result<Seq<Money>, ErrorView> {
    let matched = matching(lines, discount.scope);
    if matched.len() == 0 {
        Err(
            ErrorView::Validation(
                "this promotion does not apply to anything in your cart"@,
            ),
        )
    } else {
        match total(subtotals(matched), currency) {
            Err(error) => Err(error),
            Ok(subtotal) => match discount.conditions.met(now, subtotal) {
                Err(error) => Err(error),
                Ok(_) => match total(remainings(matched), currency) {
                    Err(error) => Err(error),
                    Ok(left) => if left.minor == 0 {
                        Err(
                            ErrorView::Validation("nothing left to discount on these items"@),
                        )
                    } else {
                        match discount.worth(left, rounding) {
                            Err(error) => Err(error),
                            Ok(amount) => if amount.minor == 0 {
                                Err(
                                    ErrorView::Validation(
                                        "this promotion is worth nothing on this cart"@,
                                    ),
                                )
                            } else {
                                weighted_allocation(amount, remainings(matched))
                            },
                        }
                    },
                },
            },
        }
    }
}

/// A line after a share of a discount.
pub open spec fn reduced(line: LineView, share: Money, discount: Discount) -> LineView {
    if share.minor == 0 {
        line
    } else {
        LineView {
            remaining: Money {
                minor: (line.remaining.minor - share.minor) as i64,
                currency: line.remaining.currency,
            },
            discounts: line.discounts.push(landed(discount, share)),
            ..line
        }
    }
}

/// The lines after a discount, given the share of each line in its scope.
pub open spec fn discounted(
    lines: Seq<LineView>,
    discount: Discount,
    shares: Seq<Money>,
) -> Seq<LineView> {
    Seq::new(
        lines.len(),
        |i: int|
            if in_scope(discount.scope, lines[i]) {
                reduced(
                    lines[i],
                    shares[matching(lines.take(i), discount.scope).len() as int],
                    discount,
                )
            } else {
                lines[i]
            },
    )
}

/// Whether a shipment is in a scope.
pub open spec fn ships_in_scope(
    scope: DiscountScope,
    group: ShippingView,
    lines: Seq<LineView>,
) -> bool {
    match scope {
        DiscountScope::Order => true,
        DiscountScope::Shop { shop_id } => shop_id@ == group.shop_id@,
        DiscountScope::LineItems { line_ids } => exists|k: int|
            0 <= k < group.items.len() && lists_line(line_ids@, (#[trigger] group.items[k])@),
        DiscountScope::Skus { skus } => exists|k: int, i: int|
            0 <= k < group.items.len() && 0 <= i < lines.len() && (#[trigger] lines[i]).line_id@
                == (#[trigger] group.items[k])@ && lists_sku(skus@, lines[i].sku@),
    }
}

/// Whether a discount waives the charge of a shipment.
pub open spec fn waives(discount: Discount, group: ShippingView, lines: Seq<LineView>) -> bool {
    ships_in_scope(discount.scope, group, lines) && group.remaining.minor != 0
}

/// A shipment whose charge is waived.
pub open spec fn waived(
    group: ShippingView,
    discount: Discount,
    currency: Currency,
) -> ShippingView {
    ShippingView {
        remaining: Money { minor: 0, currency },
        discounts: group.discounts.push(landed(discount, group.remaining)),
        ..group
    }
}

/// The shipments after a free-shipping discount.
pub open spec fn shipping_after(
    state: StateView,
    discount: Discount,
    currency: Currency,
) -> Seq<ShippingView> {
    Seq::new(
        state.shipping.len(),
        |i: int|
            if waives(discount, state.shipping[i], state.lines) {
                waived(state.shipping[i], discount, currency)
            } else {
                state.shipping[i]
            },
    )
}

/// The working set after a discount, or why it could not be applied.
pub open spec fn applied(
    state: StateView,
    discount: Discount,
    rounding: Rounding,
    now: Timestamp,
    currency: Currency,
) -> Result<StateView, ErrorView> {
    if discount.value is FreeShipping {
        match total(subtotals(state.lines), currency) {
            Err(error) => Err(error),
            Ok(subtotal) => match discount.conditions.met(now, subtotal) {
                Err(error) => Err(error),
                Ok(_) => if exists|i: int|
                    0 <= i < state.shipping.len() && waives(
                        discount,
                        #[trigger] state.shipping[i],
                        state.lines,
                    ) {
                    Ok(
                        StateView {
                            shipping: shipping_after(state, discount, currency),
                            ..state
                        },
                    )
                } else {
                    Err(ErrorView::Validation("there is no shipping charge to waive"@))
                },
            },
        }
    } else {
        match discount_shares(state.lines, discount, rounding, now, currency) {
            Err(error) => Err(error),
            Ok(shares) => Ok(
                StateView { lines: discounted(state.lines, discount, shares), ..state },
            ),
        }
    }
}

/// What is left of a price after the discounts that lower the taxable base.
pub open spec fn taxed_price(base: Money, discounts: Seq<AppliedDiscount>) -> Result<
    Money,
    ErrorView,
>
    decreases discounts.len(),
{
    if discounts.len() == 0 {
        Ok(base)
    } else {
        match taxed_price(base, discounts.drop_last()) {
            Err(error) => Err(error),
            Ok(before) => if discounts.last().reduced_taxable_base {
                before.minus(discounts.last().amount)
            } else {
                Ok(before)
            },
        }
    }
}

/// The amount tax is computed on; never negative.
pub open spec fn taxable(base: Money, discounts: Seq<AppliedDiscount>) -> Result<
    Money,
    ErrorView,
> {
    match taxed_price(base, discounts) {
        Err(error) => Err(error),
        Ok(price) => Ok(
            if price.minor < 0 {
                Money { minor: 0, currency: price.currency }
            } else {
                price
            },
        ),
    }
}

/// What a tax calculator is asked about one line or shipment.
pub ghost struct TaxableView {
    /// Identifier of the line or shipment.
    pub reference: Seq<char>,
    /// Tax classification.
    pub tax_code: TaxCode,
    /// The amount tax is computed on.
    pub base: Money,
}

/// What a tax calculator is asked about the lines.
pub open spec fn line_taxables(lines: Seq<LineView>) -> Result<Seq<TaxableView>, ErrorView>
    decreases lines.len(),
{
    if lines.len() == 0 {
        Ok(Seq::empty())
    } else {
        let line = lines.last();
        match line_taxables(lines.drop_last()) {
            Err(error) => Err(error),
            Ok(before) => match taxable(line.subtotal, line.discounts) {
                Err(error) => Err(error),
                Ok(base) => Ok(
                    before.push(
                        TaxableView { reference: line.line_id@, tax_code: line.tax_code, base },
                    ),
                ),
            },
        }
    }
}

/// What a tax calculator is asked about the shipments.
pub open spec fn shipping_taxables(shipping: Seq<ShippingView>) -> Result<
    Seq<TaxableView>,
    ErrorView,
>
    decreases shipping.len(),
{
    if shipping.len() == 0 {
        Ok(Seq::empty())
    } else {
        let group = shipping.last();
        match shipping_taxables(shipping.drop_last()) {
            Err(error) => Err(error),
            Ok(before) => match taxable(group.price, group.discounts) {
                Err(error) => Err(error),
                Ok(base) => Ok(
                    before.push(
                        TaxableView { reference: group.group_id@, tax_code: group.tax_code, base },
                    ),
                ),
            },
        }
    }
}

/// What a tax calculator is asked about the whole working set: the lines, then the
/// shipments.
pub open spec fn taxables(state: StateView) -> Result<Seq<TaxableView>, ErrorView> {
    match line_taxables(state.lines) {
        Err(error) => Err(error),
        Ok(lines) => match shipping_taxables(state.shipping) {
            Err(error) => Err(error),
            Ok(shipping) => Ok(lines + shipping),
        },
    }
}

/// The views of the lines of a tax request.
pub open spec fn request_views(lines: Seq<TaxLineRequest>) -> Seq<TaxableView> {
    lines.map_values(
        |line: TaxLineRequest|
            TaxableView {
                reference: line.reference@,
                tax_code: line.tax_code,
                base: line.taxable_base,
            },
    )
}

/// The amount tax is computed on; never negative.
pub fn taxable_base(base: Money, discounts: &Vec<AppliedDiscount>) -> (amount: Result<Money, Error>)
    ensures
        outcome(amount) == taxable(base, discounts@),
{
    let mut result = base;
    let mut n: usize = 0;
    assert(discounts@.take(0) =~= Seq::<AppliedDiscount>::empty());
    while n < discounts.len()
        invariant
            n <= discounts@.len(),
            taxed_price(base, discounts@.take(n as int)) == Ok::<Money, ErrorView>(result),
        decreases discounts@.len() - n,
    {
        assert(discounts@.take(n + 1).drop_last() =~= discounts@.take(n as int));
        if discounts[n].reduced_taxable_base {
            match result.try_sub(discounts[n].amount) {
                Ok(rest) => {
                    result = rest;
                },
                Err(error) => {
                    proof {
                        lemma_prefix_error_stays(
                            |part: Seq<AppliedDiscount>| taxed_price(base, part),
                            discounts@,
                            n + 1,
                        );
                    }
                    return Err(error);
                },
            }
        }
        n += 1;
    }
    assert(discounts@.take(n as int) =~= discounts@);
    Ok(result.clamp_non_negative())
}

fn land(discount: &Discount, amount: Money) -> (applied: AppliedDiscount)
    ensures
        applied == landed(*discount, amount),
{
    AppliedDiscount {
        discount_id: discount.id.clone(),
        code: discount.code.clone(),
        description: discount.description.clone(),
        funding: discount.funding.clone(),
        amount,
        reduced_taxable_base: discount.reduces_taxable_base(),
    }
}

/// How many lines before position `i` are in a scope.
spec fn rank(lines: Seq<LineView>, scope: DiscountScope, i: int) -> int {
    matching(lines.take(i), scope).len() as int
}

/// The line at a position in scope is found among the lines in scope at its rank.
proof fn lemma_rank(lines: Seq<LineView>, scope: DiscountScope, i: int)
    requires
        0 <= i < lines.len(),
        in_scope(scope, lines[i]),
    ensures
        0 <= rank(lines, scope, i) < matching(lines, scope).len(),
        matching(lines, scope)[rank(lines, scope, i)] == lines[i],
    decreases lines.len(),
{
    if i == lines.len() - 1 {
        assert(lines.take(i) =~= lines.drop_last());
    } else {
        lemma_rank(lines.drop_last(), scope, i);
        assert(lines.drop_last().take(i) =~= lines.take(i));
        assert(lines.drop_last()[i] == lines[i]);
    }
}

/// Each share of a discount is in the currency of the cart, is not negative and is no
/// more than what is left of the line.
proof fn lemma_shares(
    lines: Seq<LineView>,
    discount: Discount,
    rounding: Rounding,
    now: Timestamp,
    currency: Currency,
    k: int,
)
    requires
        discount_shares(lines, discount, rounding, now, currency) is Ok,
        0 <= k < matching(lines, discount.scope).len(),
    ensures
        ({
            let shares = discount_shares(lines, discount, rounding, now, currency)->Ok_0;
            let line = matching(lines, discount.scope)[k];
            &&& shares.len() == matching(lines, discount.scope).len()
            &&& shares[k].currency == currency
            &&& line.remaining.currency == currency
            &&& 0 <= shares[k].minor <= line.remaining.minor
        }),
{
    let matched = matching(lines, discount.scope);
    let weights = remainings(matched);
    let left = total(weights, currency)->Ok_0;
    let amount = discount.worth(left, rounding)->Ok_0;
    law_total_is_the_sum(weights, currency);
    law_good_weights(amount, weights);
    lemma_sum_non_negative(minors(weights));
    law_discounts_are_capped(discount, left, rounding);
    law_parts_sum_to_the_whole(amount.minor as int, minors(weights));
    law_parts_stay_within_their_weights(amount.minor as int, minors(weights), k);
    assert(weights[k] == matched[k].remaining);
    assert(minors(weights)[k] == weights[k].minor);
    let part = parts_of(amount.minor as int, minors(weights))[k];
    assert(0 <= part <= weights[k].minor);
}

impl PricingState {
    /// The working set of a cart before any discount.
    pub fn new(cart: &Cart) -> (state: Result<Self, Error>)
        ensures
            state_outcome(state) == fresh(*cart),
    {
        let mut lines: Vec<LineState> = Vec::new();
        let mut n: usize = 0;
        assert(cart.items@.take(0) =~= Seq::<CartItem>::empty());
        assert(line_views(lines@) =~= Seq::<LineView>::empty());
        while n < cart.items.len()
            invariant
                n <= cart.items@.len(),
                fresh_lines(cart.items@.take(n as int)) == Ok::<Seq<LineView>, ErrorView>(
                    line_views(lines@),
                ),
            decreases cart.items@.len() - n,
        {
            assert(cart.items@.take(n + 1).drop_last() =~= cart.items@.take(n as int));
            let ghost before = line_views(lines@);
            let item = &cart.items[n];
            let subtotal = match item.subtotal() {
                Ok(subtotal) => subtotal,
                Err(error) => {
                    proof {
                        lemma_prefix_error_stays(
                            |part: Seq<CartItem>| fresh_lines(part),
                            cart.items@,
                            n + 1,
                        );
                    }
                    return Err(error);
                },
            };
            let line = LineState {
                line_id: item.id.clone(),
                shop_id: item.shop_id.clone(),
                sku: item.sku.clone(),
                name: item.name.clone(),
                quantity: item.quantity,
                unit_price: item.unit_price,
                subtotal,
                remaining: subtotal,
                discounts: Vec::new(),
                fulfillment_group_id: item.fulfillment_group_id.clone(),
                tax_code: item.tax_code.clone(),
            };
            let ghost view = line@;
            assert(view.discounts =~= Seq::<AppliedDiscount>::empty());
            assert(view == fresh_line(*item, subtotal));
            lines.push(line);
            assert(line_views(lines@) =~= before.push(view));
            n += 1;
        }
        assert(cart.items@.take(n as int) =~= cart.items@);
        let ghost groups = cart.fulfillment_groups@;
        let mut shipping: Vec<ShippingState> = Vec::new();
        let mut g: usize = 0;
        while g < cart.fulfillment_groups.len()
            invariant
                groups == cart.fulfillment_groups@,
                g <= groups.len(),
                shipping@.len() == g,
                forall|k: int| 0 <= k < g ==> (#[trigger] shipping@[k])@ == fresh_shipment(groups[k]),
            decreases groups.len() - g,
        {
            let group = &cart.fulfillment_groups[g];
            let state = ShippingState {
                group_id: group.id.clone(),
                shop_id: group.shop_id.clone(),
                price: group.shipping_price,
                remaining: group.shipping_price,
                discounts: Vec::new(),
                tax_code: group.shipping_tax_code.clone(),
                items: copy_lines(&group.items),
            };
            assert(state@.discounts =~= Seq::<AppliedDiscount>::empty());
            shipping.push(state);
            g += 1;
        }
        let state = PricingState { lines, shipping };
        assert(state@.shipping =~= groups.map_values(
            |group: FulfillmentGroup| fresh_shipment(group),
        ));
        Ok(state)
    }

    /// Apply a discount, or say why it cannot be applied and leave the set unchanged.
    pub fn apply(
        &mut self,
        discount: &Discount,
        rounding: Rounding,
        now: Timestamp,
        currency: Currency,
    ) -> (done: Result<(), Error>)
        ensures
            match done {
                Ok(_) => applied(old(self)@, *discount, rounding, now, currency) == Ok::<
                    StateView,
                    ErrorView,
                >(final(self)@),
                Err(error) => applied(old(self)@, *discount, rounding, now, currency) == Err::<
                    StateView,
                    ErrorView,
                >(error@) && final(self)@ == old(self)@,
            },
    {
        if discount.is_free_shipping() {
            return self.apply_free_shipping(discount, now, currency);
        }
        let ghost views = line_views(self.lines@);
        let ghost scope = discount.scope;
        let mut prices: Vec<Money> = Vec::new();
        let mut weights: Vec<Money> = Vec::new();
        let mut n: usize = 0;
        assert(views.take(0) =~= Seq::<LineView>::empty());
        assert(prices@ =~= subtotals(matching(views.take(0), scope)));
        assert(weights@ =~= remainings(matching(views.take(0), scope)));
        while n < self.lines.len()
            invariant
                *self == *old(self),
                views == line_views(self.lines@),
                scope == discount.scope,
                n <= self.lines@.len(),
                prices@ == subtotals(matching(views.take(n as int), scope)),
                weights@ == remainings(matching(views.take(n as int), scope)),
            decreases self.lines@.len() - n,
        {
            assert(views.take(n + 1).drop_last() =~= views.take(n as int));
            assert(views[n as int] == self.lines@[n as int]@);
            let line = &self.lines[n];
            if discount.matches_line(&line.shop_id, &line.line_id, line.sku.as_str()) {
                prices.push(line.subtotal);
                weights.push(line.remaining);
            }
            assert(prices@ =~= subtotals(matching(views.take(n + 1), scope)));
            assert(weights@ =~= remainings(matching(views.take(n + 1), scope)));
            n += 1;
        }
        assert(views.take(n as int) =~= views);
        if prices.len() == 0 {
            return Err(
                Error::validation("this promotion does not apply to anything in your cart"),
            );
        }
        let subtotal = match Money::sum(prices.as_slice(), currency) {
            Ok(subtotal) => subtotal,
            Err(error) => return Err(error),
        };
        match discount.check_eligibility(now, subtotal) {
            Ok(_) => {},
            Err(error) => return Err(error),
        }
        let left = match Money::sum(weights.as_slice(), currency) {
            Ok(left) => left,
            Err(error) => return Err(error),
        };
        if left.is_zero() {
            return Err(Error::validation("nothing left to discount on these items"));
        }
        let amount = match discount.amount_for(left, rounding) {
            Ok(amount) => amount,
            Err(error) => return Err(error),
        };
        if amount.is_zero() {
            return Err(Error::validation("this promotion is worth nothing on this cart"));
        }
        let shares = match allocate_by_weights(amount, weights.as_slice()) {
            Ok(shares) => shares,
            Err(error) => return Err(error),
        };
        assert(discount_shares(views, *discount, rounding, now, currency) == Ok::<
            Seq<Money>,
            ErrorView,
        >(shares@));
        let ghost target = discounted(views, *discount, shares@);
        let mut i: usize = 0;
        let mut k: usize = 0;
        while i < self.lines.len()
            invariant
                self.shipping == old(self).shipping,
                views == line_views(old(self).lines@),
                scope == discount.scope,
                discount_shares(views, *discount, rounding, now, currency) == Ok::<
                    Seq<Money>,
                    ErrorView,
                >(shares@),
                target == discounted(views, *discount, shares@),
                i <= self.lines@.len(),
                self.lines@.len() == views.len(),
                k == rank(views, scope, i as int),
                forall|j: int| 0 <= j < i ==> (#[trigger] self.lines@[j])@ == target[j],
                forall|j: int| i <= j < views.len() ==> (#[trigger] self.lines@[j])@ == views[j],
            decreases self.lines@.len() - i,
        {
            assert(views.take(i + 1).drop_last() =~= views.take(i as int));
            let ghost before = self.lines@;
            assert(before[i as int]@ == views[i as int]);
            let line = &self.lines[i];
            if discount.matches_line(&line.shop_id, &line.line_id, line.sku.as_str()) {
                proof {
                    lemma_rank(views, scope, i as int);
                    lemma_shares(views, *discount, rounding, now, currency, k as int);
                }
                let share = shares[k];
                if !share.is_zero() {
                    let rest = match line.remaining.try_sub(share) {
                        Ok(rest) => rest,
                        Err(error) => return Err(error),
                    };
                    self.lines[i].remaining = rest;
                    self.lines[i].discounts.push(land(discount, share));
                    assert(self.lines@[i as int]@.discounts =~= views[i as int].discounts.push(
                        landed(*discount, share),
                    ));
                }
                k += 1;
            }
            assert(self.lines@[i as int]@ == target[i as int]);
            assert forall|j: int| 0 <= j < views.len() && j != i implies (
            #[trigger] self.lines@[j]) == before[j] by {}
            i += 1;
        }
        assert(line_views(self.lines@) =~= target);
        Ok(())
    }

    fn apply_free_shipping(
        &mut self,
        discount: &Discount,
        now: Timestamp,
        currency: Currency,
    ) -> (done: Result<(), Error>)
        requires
            discount.value is FreeShipping,
        ensures
            forall|rounding: Rounding|
                match done {
                    Ok(_) => #[trigger] applied(old(self)@, *discount, rounding, now, currency)
                        == Ok::<StateView, ErrorView>(final(self)@),
                    Err(error) => applied(old(self)@, *discount, rounding, now, currency) == Err::<
                        StateView,
                        ErrorView,
                    >(error@) && final(self)@ == old(self)@,
                },
    {
        let ghost views = line_views(self.lines@);
        let ghost groups = shipping_views(self.shipping@);
        let mut prices: Vec<Money> = Vec::new();
        let mut n: usize = 0;
        while n < self.lines.len()
            invariant
                *self == *old(self),
                views == line_views(self.lines@),
                n <= self.lines@.len(),
                prices@ == subtotals(views).take(n as int),
            decreases self.lines@.len() - n,
        {
            assert(views[n as int] == self.lines@[n as int]@);
            prices.push(self.lines[n].subtotal);
            n += 1;
            assert(prices@ =~= subtotals(views).take(n as int));
        }
        assert(prices@ =~= subtotals(views));
        let subtotal = match Money::sum(prices.as_slice(), currency) {
            Ok(subtotal) => subtotal,
            Err(error) => return Err(error),
        };
        match discount.check_eligibility(now, subtotal) {
            Ok(_) => {},
            Err(error) => return Err(error),
        }
        let ghost target = shipping_after(old(self)@, *discount, currency);
        let mut any = false;
        let mut i: usize = 0;
        while i < self.shipping.len()
            invariant
                self.lines == old(self).lines,
                views == line_views(self.lines@),
                groups == shipping_views(old(self).shipping@),
                target == shipping_after(old(self)@, *discount, currency),
                i <= self.shipping@.len(),
                self.shipping@.len() == groups.len(),
                any == (exists|j: int|
                    0 <= j < i && waives(*discount, #[trigger] groups[j], views)),
                forall|j: int| 0 <= j < i ==> (#[trigger] self.shipping@[j])@ == target[j],
                forall|j: int| i <= j < groups.len() ==> (#[trigger] self.shipping@[j])@ == groups[j],
            decreases self.shipping@.len() - i,
        {
            let ghost before = self.shipping@;
            assert(before[i as int]@ == groups[i as int]);
            if self.shipping_matches(discount, i) {
                if !self.shipping[i].remaining.is_zero() {
                    assert(waives(*discount, groups[i as int], views));
                    let amount = self.shipping[i].remaining;
                    self.shipping[i].remaining = Money::zero(currency);
                    self.shipping[i].discounts.push(land(discount, amount));
                    assert(self.shipping@[i as int]@.discounts =~= groups[i as int].discounts.push(
                        landed(*discount, amount),
                    ));
                    any = true;
                }
            }
            assert(self.shipping@[i as int]@ == target[i as int]);
            assert forall|j: int| 0 <= j < groups.len() && j != i implies (
            #[trigger] self.shipping@[j]) == before[j] by {}
            i += 1;
        }
        assert(shipping_views(self.shipping@) =~= target);
        if any {
            assert(exists|j: int|
                0 <= j < groups.len() && waives(*discount, #[trigger] groups[j], views));
            Ok(())
        } else {
            assert(target =~= groups) by {
                assert forall|j: int| 0 <= j < groups.len() implies target[j] == groups[j] by {
                    assert(!waives(*discount, groups[j], views));
                }
            }
            Err(Error::validation("there is no shipping charge to waive"))
        }
    }

    fn shipping_matches(&self, discount: &Discount, at: usize) -> (matched: bool)
        requires
            at < self.shipping@.len(),
        ensures
            matched == ships_in_scope(
                discount.scope,
                self.shipping@[at as int]@,
                line_views(self.lines@),
            ),
    {
        let group = &self.shipping[at];
        match &discount.scope {
            DiscountScope::Order => true,
            DiscountScope::Shop { shop_id } => shop_id.same(&group.shop_id),
            DiscountScope::LineItems { line_ids } => {
                let mut k: usize = 0;
                while k < group.items.len()
                    invariant
                        at < self.shipping@.len(),
                        *group == self.shipping@[at as int],
                        *line_ids == discount.scope->line_ids,
                        discount.scope is LineItems,
                        k <= group.items@.len(),
                        forall|j: int|
                            0 <= j < k ==> !lists_line(line_ids@, (#[trigger] group.items@[j])@),
                    decreases group.items@.len() - k,
                {
                    if has_line_id(line_ids, &group.items[k]) {
                        assert(lists_line(line_ids@, group@.items[k as int]@));
                        return true;
                    }
                    k += 1;
                }
                false
            },
            DiscountScope::Skus { skus } => {
                let ghost views = line_views(self.lines@);
                let mut k: usize = 0;
                while k < group.items.len()
                    invariant
                        views == line_views(self.lines@),
                        at < self.shipping@.len(),
                        *group == self.shipping@[at as int],
                        *skus == discount.scope->skus,
                        discount.scope is Skus,
                        k <= group.items@.len(),
                        forall|j: int, i: int|
                            0 <= j < k && 0 <= i < views.len() && (#[trigger] views[i]).line_id@
                                == (#[trigger] group.items@[j])@ ==> !lists_sku(
                                skus@,
                                views[i].sku@,
                            ),
                    decreases group.items@.len() - k,
                {
                    let mut i: usize = 0;
                    while i < self.lines.len()
                        invariant
                            views == line_views(self.lines@),
                            at < self.shipping@.len(),
                            *group == self.shipping@[at as int],
                            *skus == discount.scope->skus,
                            discount.scope is Skus,
                            k < group.items@.len(),
                            i <= self.lines@.len(),
                            forall|h: int|
                                0 <= h < i && (#[trigger] views[h]).line_id@
                                    == group.items@[k as int]@ ==> !lists_sku(
                                    skus@,
                                    views[h].sku@,
                                ),
                        decreases self.lines@.len() - i,
                    {
                        assert(views[i as int] == self.lines@[i as int]@);
                        let line = &self.lines[i];
                        if line.line_id.same(&group.items[k]) && has_sku(
                            skus,
                            line.sku.as_str(),
                        ) {
                            assert(views[i as int].line_id@ == group@.items[k as int]@);
                            return true;
                        }
                        i += 1;
                    }
                    k += 1;
                }
                false
            },
        }
    }

    /// What to ask the tax calculator.
    pub fn tax_request(
        &self,
        currency: Currency,
        mode: TaxMode,
        destination: Jurisdiction,
    ) -> (request: Result<TaxRequest, Error>)
        ensures
            match request {
                Ok(made) => {
                    &&& taxables(self@) == Ok::<Seq<TaxableView>, ErrorView>(
                        request_views(made.lines@),
                    )
                    &&& made.currency == currency
                    &&& made.mode == mode
                    &&& made.destination == destination
                    &&& made.origin is None
                    &&& made.customer_tax_id is None
                },
                Err(error) => taxables(self@) == Err::<Seq<TaxableView>, ErrorView>(error@),
            },
    {
        let ghost views = line_views(self.lines@);
        let ghost groups = shipping_views(self.shipping@);
        let mut lines: Vec<TaxLineRequest> = Vec::new();
        let mut n: usize = 0;
        assert(views.take(0) =~= Seq::<LineView>::empty());
        assert(request_views(lines@) =~= Seq::<TaxableView>::empty());
        while n < self.lines.len()
            invariant
                views == line_views(self.lines@),
                n <= views.len(),
                line_taxables(views.take(n as int)) == Ok::<Seq<TaxableView>, ErrorView>(
                    request_views(lines@),
                ),
            decreases views.len() - n,
        {
            assert(views.take(n + 1).drop_last() =~= views.take(n as int));
            assert(views[n as int] == self.lines@[n as int]@);
            let ghost before = request_views(lines@);
            let line = &self.lines[n];
            let base = match taxable_base(line.subtotal, &line.discounts) {
                Ok(base) => base,
                Err(error) => {
                    proof {
                        lemma_prefix_error_stays(
                            |part: Seq<LineView>| line_taxables(part),
                            views,
                            n + 1,
                        );
                    }
                    return Err(error);
                },
            };
            lines.push(
                TaxLineRequest {
                    reference: line.line_id.to_text(),
                    tax_code: line.tax_code.clone(),
                    taxable_base: base,
                },
            );
            assert(request_views(lines@) =~= before.push(
                TaxableView { reference: line.line_id@, tax_code: line.tax_code, base },
            ));
            n += 1;
        }
        assert(views.take(n as int) =~= views);
        let ghost first = request_views(lines@);
        let mut g: usize = 0;
        assert(groups.take(0) =~= Seq::<ShippingView>::empty());
        assert(first =~= first + Seq::<TaxableView>::empty());
        while g < self.shipping.len()
            invariant
                views == line_views(self.lines@),
                groups == shipping_views(self.shipping@),
                g <= groups.len(),
                line_taxables(views) == Ok::<Seq<TaxableView>, ErrorView>(first),
                shipping_taxables(groups.take(g as int)) is Ok,
                request_views(lines@) == first + shipping_taxables(groups.take(g as int))->Ok_0,
            decreases groups.len() - g,
        {
            assert(groups.take(g + 1).drop_last() =~= groups.take(g as int));
            assert(groups[g as int] == self.shipping@[g as int]@);
            let ghost before = request_views(lines@);
            let ghost second = shipping_taxables(groups.take(g as int))->Ok_0;
            let group = &self.shipping[g];
            let base = match taxable_base(group.price, &group.discounts) {
                Ok(base) => base,
                Err(error) => {
                    proof {
                        lemma_prefix_error_stays(
                            |part: Seq<ShippingView>| shipping_taxables(part),
                            groups,
                            g + 1,
                        );
                    }
                    return Err(error);
                },
            };
            lines.push(
                TaxLineRequest {
                    reference: group.group_id.to_text(),
                    tax_code: group.tax_code.clone(),
                    taxable_base: base,
                },
            );
            let ghost added = TaxableView {
                reference: group.group_id@,
                tax_code: group.tax_code,
                base,
            };
            assert(request_views(lines@) =~= before.push(added));
            assert(before.push(added) =~= first + second.push(added));
            g += 1;
        }
        assert(groups.take(g as int) =~= groups);
        Ok(
            TaxRequest {
                currency,
                mode,
                destination,
                origin: None,
                customer_tax_id: None,
                lines,
            },
        )
    }
}

fn copy_lines(lines: &Vec<LineItemId>) -> (copy: Vec<LineItemId>)
    ensures
        copy@ == lines@,
{
    let mut copy: Vec<LineItemId> = Vec::new();
    let mut i: usize = 0;
    while i < lines.len()
        invariant
            i <= lines@.len(),
            copy@ == lines@.take(i as int),
        decreases lines@.len() - i,
    {
        copy.push(lines[i].clone());
        i += 1;
        assert(copy@ =~= lines@.take(i as int));
    }
    assert(copy@ =~= lines@);
    copy
}

/// The amounts of a list of discounts.
pub open spec fn discount_amounts(discounts: Seq<AppliedDiscount>) -> Seq<int> {
    discounts.map_values(|applied: AppliedDiscount| applied.amount.minor as int)
}

/// Whether a price is split exactly into its discounts and what is left, none of them
/// negative, all in one currency.
pub open spec fn split_exactly(
    price: Money,
    remaining: Money,
    discounts: Seq<AppliedDiscount>,
    currency: Currency,
) -> bool {
    &&& price.currency == currency
    &&& remaining.currency == currency
    &&& remaining.minor >= 0
    &&& price.minor == remaining.minor + sum(discount_amounts(discounts))
    &&& forall|i: int|
        0 <= i < discounts.len() ==> (#[trigger] discounts[i]).amount.currency == currency
            && discounts[i].amount.minor >= 0
}

/// Whether every line and shipment of a working set is split exactly.
pub open spec fn exact(state: StateView, currency: Currency) -> bool {
    &&& forall|i: int|
        0 <= i < state.lines.len() ==> split_exactly(
            (#[trigger] state.lines[i]).subtotal,
            state.lines[i].remaining,
            state.lines[i].discounts,
            currency,
        )
    &&& forall|i: int|
        0 <= i < state.shipping.len() ==> split_exactly(
            (#[trigger] state.shipping[i]).price,
            state.shipping[i].remaining,
            state.shipping[i].discounts,
            currency,
        )
}

proof fn lemma_split_push(
    price: Money,
    before: Money,
    after: Money,
    discounts: Seq<AppliedDiscount>,
    added: AppliedDiscount,
    currency: Currency,
)
    requires
        split_exactly(price, before, discounts, currency),
        added.amount.currency == currency,
        added.amount.minor >= 0,
        after.currency == currency,
        after.minor >= 0,
        before.minor == after.minor + added.amount.minor,
    ensures
        split_exactly(price, after, discounts.push(added), currency),
{
    lemma_sum_push(discount_amounts(discounts), added.amount.minor as int);
    assert(discount_amounts(discounts.push(added)) =~= discount_amounts(discounts).push(
        added.amount.minor as int,
    ));
    let list = discounts.push(added);
    assert forall|i: int| 0 <= i < list.len() implies (#[trigger] list[i]).amount.currency
        == currency && list[i].amount.minor >= 0 by {
        if i < discounts.len() {
            assert(list[i] == discounts[i]);
        }
    }
}

/// A discount can never exceed what is left: applying one keeps every price split
/// exactly into its discounts and what remains, and nothing becomes negative.
pub proof fn law_discounts_never_exceed_the_price(
    state: StateView,
    discount: Discount,
    rounding: Rounding,
    now: Timestamp,
    currency: Currency,
)
    requires
        exact(state, currency),
        applied(state, discount, rounding, now, currency) is Ok,
    ensures
        exact(applied(state, discount, rounding, now, currency)->Ok_0, currency),
{
    let after = applied(state, discount, rounding, now, currency)->Ok_0;
    if discount.value is FreeShipping {
        assert forall|i: int| 0 <= i < after.shipping.len() implies split_exactly(
            (#[trigger] after.shipping[i]).price,
            after.shipping[i].remaining,
            after.shipping[i].discounts,
            currency,
        ) by {
            let group = state.shipping[i];
            assert(split_exactly(group.price, group.remaining, group.discounts, currency));
            if waives(discount, group, state.lines) {
                lemma_split_push(
                    group.price,
                    group.remaining,
                    Money { minor: 0, currency },
                    group.discounts,
                    landed(discount, group.remaining),
                    currency,
                );
            }
        }
    } else {
        let shares = discount_shares(state.lines, discount, rounding, now, currency)->Ok_0;
        assert forall|i: int| 0 <= i < after.lines.len() implies split_exactly(
            (#[trigger] after.lines[i]).subtotal,
            after.lines[i].remaining,
            after.lines[i].discounts,
            currency,
        ) by {
            let line = state.lines[i];
            assert(split_exactly(line.subtotal, line.remaining, line.discounts, currency));
            if in_scope(discount.scope, line) {
                let k = rank(state.lines, discount.scope, i);
                lemma_rank(state.lines, discount.scope, i);
                lemma_shares(state.lines, discount, rounding, now, currency, k);
                if shares[k].minor != 0 {
                    lemma_split_push(
                        line.subtotal,
                        line.remaining,
                        reduced(line, shares[k], discount).remaining,
                        line.discounts,
                        landed(discount, shares[k]),
                        currency,
                    );
                }
            }
        }
    }
}

/// A fresh working set is split exactly: nothing is discounted yet.
pub proof fn law_fresh_prices_are_exact(cart: Cart, i: int)
    requires
        fresh_lines(cart.items@) is Ok,
        0 <= i < cart.items@.len(),
        cart.items@[i].unit_price.minor >= 0,
        cart.items@[i].unit_price.currency == cart.currency,
    ensures
        fresh_lines(cart.items@)->Ok_0.len() == cart.items@.len(),
        ({
            let line = fresh_lines(cart.items@)->Ok_0[i];
            split_exactly(line.subtotal, line.remaining, line.discounts, cart.currency)
        }),
{
    lemma_fresh_line(cart.items@, i);
    let item = cart.items@[i];
    assert(item.unit_price.minor * item.quantity >= 0) by (nonlinear_arith)
        requires
            item.unit_price.minor >= 0,
            item.quantity >= 0,
    ;
    assert(discount_amounts(Seq::<AppliedDiscount>::empty()) =~= Seq::<int>::empty());
}

proof fn lemma_fresh_line(items: Seq<CartItem>, i: int)
    requires
        fresh_lines(items) is Ok,
        0 <= i < items.len(),
    ensures
        fresh_lines(items)->Ok_0.len() == items.len(),
        items[i].unit_price.times(items[i].quantity as int) is Ok,
        fresh_lines(items)->Ok_0[i] == fresh_line(
            items[i],
            items[i].unit_price.times(items[i].quantity as int)->Ok_0,
        ),
    decreases items.len(),
{
    let rest = items.drop_last();
    if i < rest.len() {
        lemma_fresh_line(rest, i);
        assert(rest[i] == items[i]);
    } else if rest.len() > 0 {
        lemma_fresh_line(rest, 0);
    }
}

proof fn lemma_discounted_prefix(
    lines: Seq<LineView>,
    discount: Discount,
    rounding: Rounding,
    now: Timestamp,
    currency: Currency,
    n: int,
)
    requires
        discount_shares(lines, discount, rounding, now, currency) is Ok,
        0 <= n <= lines.len(),
    ensures
        ({
            let shares = discount_shares(lines, discount, rounding, now, currency)->Ok_0;
            let after = discounted(lines, discount, shares);
            let found = rank(lines, discount.scope, n);
            &&& 0 <= found <= shares.len()
            &&& sum(minors(remainings(after)).take(n)) == sum(minors(remainings(lines)).take(n))
                - sum(minors(shares).take(found))
        }),
    decreases n,
{
    let scope = discount.scope;
    let shares = discount_shares(lines, discount, rounding, now, currency)->Ok_0;
    let after = discounted(lines, discount, shares);
    let first = minors(remainings(lines));
    let second = minors(remainings(after));
    if n == 0 {
        assert(first.take(0) =~= Seq::<int>::empty());
        assert(second.take(0) =~= Seq::<int>::empty());
        assert(lines.take(0) =~= Seq::<LineView>::empty());
        assert(minors(shares).take(0) =~= Seq::<int>::empty());
    } else {
        lemma_discounted_prefix(lines, discount, rounding, now, currency, n - 1);
        lemma_sum_take(first, n - 1);
        lemma_sum_take(second, n - 1);
        assert(lines.take(n).drop_last() =~= lines.take(n - 1));
        assert(lines.take(n).last() == lines[n - 1]);
        if in_scope(scope, lines[n - 1]) {
            let k = rank(lines, scope, n - 1);
            lemma_rank(lines, scope, n - 1);
            lemma_shares(lines, discount, rounding, now, currency, k);
            lemma_sum_take(minors(shares), k);
            assert(second[n - 1] == first[n - 1] - minors(shares)[k]);
        }
    }
}

/// A promotion is spread over the lines without losing a cent: what is left of all lines
/// falls by exactly what the promotion is worth on the lines in its scope.
pub proof fn law_promotions_lose_no_cent(
    state: StateView,
    discount: Discount,
    rounding: Rounding,
    now: Timestamp,
    currency: Currency,
)
    requires
        !(discount.value is FreeShipping),
        applied(state, discount, rounding, now, currency) is Ok,
    ensures
        ({
            let after = applied(state, discount, rounding, now, currency)->Ok_0;
            let left = total(remainings(matching(state.lines, discount.scope)), currency);
            let worth = discount.worth(left->Ok_0, rounding);
            &&& left is Ok
            &&& worth is Ok
            &&& sum(minors(remainings(state.lines))) - sum(minors(remainings(after.lines)))
                == worth->Ok_0.minor
        }),
{
    let lines = state.lines;
    let shares = discount_shares(lines, discount, rounding, now, currency)->Ok_0;
    let after = discounted(lines, discount, shares);
    let n = lines.len() as int;
    let matched = matching(lines, discount.scope);
    let weights = remainings(matched);
    let left = total(weights, currency)->Ok_0;
    let amount = discount.worth(left, rounding)->Ok_0;
    lemma_discounted_prefix(lines, discount, rounding, now, currency, n);
    lemma_shares(lines, discount, rounding, now, currency, 0);
    assert(lines.take(n) =~= lines);
    assert(minors(remainings(lines)).take(n) =~= minors(remainings(lines)));
    assert(minors(remainings(after)).take(n) =~= minors(remainings(after)));
    assert(minors(shares).take(shares.len() as int) =~= minors(shares));
    law_good_weights(amount, weights);
    law_allocation_succeeds(amount, minors(weights));
}

/// Free shipping over the whole order waives every charge: no shipment has anything left to
/// pay, what was left is discounted in full, and the lines stay as they are. It is refused
/// only where its conditions are not met or where no shipment had a charge.
pub proof fn law_free_shipping_waives_every_charge(
    state: StateView,
    discount: Discount,
    rounding: Rounding,
    now: Timestamp,
    currency: Currency,
    i: int,
)
    requires
        discount.value is FreeShipping,
        discount.scope is Order,
        0 <= i < state.shipping.len(),
    ensures
        applied(state, discount, rounding, now, currency) matches Ok(after) ==> {
            let before = state.shipping[i];
            let group = after.shipping[i];
            &&& after.lines == state.lines
            &&& after.shipping.len() == state.shipping.len()
            &&& group.remaining.minor == 0
            &&& group.price == before.price
            &&& before.remaining.minor == 0 ==> group == before
            &&& before.remaining.minor != 0 ==> group.discounts.len() == before.discounts.len() + 1
                && group.discounts.last().amount == before.remaining
        },
        ({
            let subtotal = total(subtotals(state.lines), currency);
            state.shipping[i].remaining.minor != 0 && subtotal is Ok && discount.conditions.met(
                now,
                subtotal->Ok_0,
            ) is Ok ==> applied(state, discount, rounding, now, currency) is Ok
        }),
{
    if state.shipping[i].remaining.minor != 0 {
        assert(waives(discount, state.shipping[i], state.lines));
    }
}

/// Free shipping for part of an order waives the charges of that part and no others: those
/// of one shop's shipments, or of the shipments that carry one of the listed lines or a
/// line with one of the listed SKUs.
pub proof fn law_free_shipping_stays_in_its_scope(
    state: StateView,
    discount: Discount,
    rounding: Rounding,
    now: Timestamp,
    currency: Currency,
    i: int,
)
    requires
        discount.value is FreeShipping,
        0 <= i < state.shipping.len(),
        applied(state, discount, rounding, now, currency) is Ok,
    ensures
        ({
            let before = state.shipping[i];
            let group = applied(state, discount, rounding, now, currency)->Ok_0.shipping[i];
            match discount.scope {
                DiscountScope::Order => group.remaining.minor == 0,
                DiscountScope::Shop { shop_id } => if before.shop_id@ == shop_id@ {
                    group.remaining.minor == 0
                } else {
                    group == before
                },
                DiscountScope::LineItems { line_ids } => if exists|k: int, j: int|
                    0 <= k < before.items.len() && 0 <= j < line_ids@.len() && (
                    #[trigger] before.items[k])@ == (#[trigger] line_ids@[j])@ {
                    group.remaining.minor == 0
                } else {
                    group == before
                },
                DiscountScope::Skus { skus } => if exists|k: int, l: int, j: int|
                    0 <= k < before.items.len() && 0 <= l < state.lines.len() && 0 <= j
                        < skus@.len() && (#[trigger] before.items[k])@ == (
                    #[trigger] state.lines[l]).line_id@ && state.lines[l].sku@ == (
                    #[trigger] skus@[j])@ {
                    group.remaining.minor == 0
                } else {
                    group == before
                },
            }
        }),
{
    let before = state.shipping[i];
    match discount.scope {
        DiscountScope::LineItems { line_ids } => {
            if exists|k: int, j: int|
                0 <= k < before.items.len() && 0 <= j < line_ids@.len() && (
                #[trigger] before.items[k])@ == (#[trigger] line_ids@[j])@ {
                let (k, j) = choose|k: int, j: int|
                    0 <= k < before.items.len() && 0 <= j < line_ids@.len() && (
                    #[trigger] before.items[k])@ == (#[trigger] line_ids@[j])@;
                assert(lists_line(line_ids@, before.items[k]@));
                assert(ships_in_scope(discount.scope, before, state.lines));
            }
        },
        DiscountScope::Skus { skus } => {
            if exists|k: int, l: int, j: int|
                0 <= k < before.items.len() && 0 <= l < state.lines.len() && 0 <= j < skus@.len()
                    && (#[trigger] before.items[k])@ == (#[trigger] state.lines[l]).line_id@
                    && state.lines[l].sku@ == (#[trigger] skus@[j])@ {
                let (k, l, j) = choose|k: int, l: int, j: int|
                    0 <= k < before.items.len() && 0 <= l < state.lines.len() && 0 <= j
                        < skus@.len() && (#[trigger] before.items[k])@ == (
                    #[trigger] state.lines[l]).line_id@ && state.lines[l].sku@ == (
                    #[trigger] skus@[j])@;
                assert(lists_sku(skus@, state.lines[l].sku@));
                assert(ships_in_scope(discount.scope, before, state.lines));
            }
        },
        _ => {},
    }
}

/// What is left of the lines in a scope, with nothing in place of the others.
pub open spec fn left_in_scope(lines: Seq<LineView>, scope: DiscountScope) -> Seq<int> {
    lines.map_values(
        |line: LineView|
            if scope.covers(line.shop_id@, line.line_id@, line.sku@) {
                line.remaining.minor as int
            } else {
                0
            },
    )
}

proof fn lemma_left_in_scope(lines: Seq<LineView>, scope: DiscountScope)
    ensures
        sum(left_in_scope(lines, scope)) == sum(minors(remainings(matching(lines, scope)))),
    decreases lines.len(),
{
    let left = left_in_scope(lines, scope);
    let found = minors(remainings(matching(lines, scope)));
    if lines.len() == 0 {
        assert(found =~= Seq::<int>::empty());
    } else {
        let rest = lines.drop_last();
        lemma_left_in_scope(rest, scope);
        assert(left.drop_last() =~= left_in_scope(rest, scope));
        if in_scope(scope, lines.last()) {
            let before = minors(remainings(matching(rest, scope)));
            lemma_sum_push(before, lines.last().remaining.minor as int);
            assert(found =~= before.push(lines.last().remaining.minor as int));
        }
    }
}

/// A promotion on goods touches the lines in its scope and nothing else, each in proportion
/// to what was left of it: a line's part of what the promotion takes off altogether is less
/// than one minor unit away from the exact proportion, and it is recorded on the line with
/// the promotion it came from.
pub proof fn law_promotions_are_spread_by_what_is_left(
    state: StateView,
    discount: Discount,
    rounding: Rounding,
    now: Timestamp,
    currency: Currency,
    i: int,
)
    requires
        !(discount.value is FreeShipping),
        applied(state, discount, rounding, now, currency) is Ok,
        0 <= i < state.lines.len(),
    ensures
        ({
            let after = applied(state, discount, rounding, now, currency)->Ok_0;
            let before = state.lines[i];
            let line = after.lines[i];
            let off = before.remaining.minor - line.remaining.minor;
            let whole = sum(left_in_scope(state.lines, discount.scope));
            let taken = sum(minors(remainings(state.lines))) - sum(
                minors(remainings(after.lines)),
            );
            &&& after.shipping == state.shipping
            &&& after.lines.len() == state.lines.len()
            &&& line.subtotal == before.subtotal
            &&& line.line_id == before.line_id
            &&& !discount.scope.covers(before.shop_id@, before.line_id@, before.sku@) ==> line
                == before
            &&& discount.scope.covers(before.shop_id@, before.line_id@, before.sku@) ==> -whole
                < off * whole - taken * before.remaining.minor < whole
            &&& 0 <= off <= before.remaining.minor || line == before
            &&& off == 0 ==> line == before
            &&& off != 0 ==> {
                &&& line.discounts.len() == before.discounts.len() + 1
                &&& line.discounts.drop_last() =~= before.discounts
                &&& line.discounts.last().amount == (Money { minor: off as i64, currency })
                &&& line.discounts.last().discount_id == discount.id
                &&& line.discounts.last().funding == discount.funding
                &&& line.discounts.last().code == discount.code
                &&& discount.reduces_taxable_base_override matches Some(reduces)
                    ==> line.discounts.last().reduced_taxable_base == reduces
                &&& discount.reduces_taxable_base_override is None
                    ==> line.discounts.last().reduced_taxable_base == !(
                discount.funding is Subsidy)
            }
        }),
{
    let lines = state.lines;
    let scope = discount.scope;
    let shares = discount_shares(lines, discount, rounding, now, currency)->Ok_0;
    let matched = matching(lines, scope);
    let weights = remainings(matched);
    let left = total(weights, currency)->Ok_0;
    let amount = discount.worth(left, rounding)->Ok_0;
    law_promotions_lose_no_cent(state, discount, rounding, now, currency);
    lemma_left_in_scope(lines, scope);
    law_total_is_the_sum(weights, currency);
    law_good_weights(amount, weights);
    lemma_sum_non_negative(minors(weights));
    law_discounts_are_capped(discount, left, rounding);
    if in_scope(scope, lines[i]) {
        let k = rank(lines, scope, i);
        lemma_rank(lines, scope, i);
        lemma_shares(lines, discount, rounding, now, currency, k);
        law_parts_sum_to_the_whole(amount.minor as int, minors(weights));
        law_parts_are_proportional(amount.minor as int, minors(weights), k);
        let part = parts_of(amount.minor as int, minors(weights))[k];
        assert(0 <= part <= amount.minor);
        assert(shares[k].minor == part);
        assert(minors(weights)[k] == weights[k].minor);
        assert(weights[k] == lines[i].remaining);
        let line = discounted(lines, discount, shares)[i];
        assert(line == reduced(lines[i], shares[k], discount));
    }
}

/// A promotion on goods applies wherever something in its scope is left to discount: its
/// conditions are met by the subtotal of the lines in its scope, they are in the currency
/// of the cart, and the promotion is worth something on what is left of them.
pub proof fn law_promotions_apply_where_they_are_worth_something(
    state: StateView,
    discount: Discount,
    rounding: Rounding,
    now: Timestamp,
    currency: Currency,
    i: int,
)
    requires
        !(discount.value is FreeShipping),
        exact(state, currency),
        0 <= i < state.lines.len(),
        discount.scope.covers(
            state.lines[i].shop_id@,
            state.lines[i].line_id@,
            state.lines[i].sku@,
        ),
        total(subtotals(matching(state.lines, discount.scope)), currency) matches Ok(subtotal)
            && discount.conditions.met(now, subtotal) is Ok,
        ({
            let left = total(remainings(matching(state.lines, discount.scope)), currency);
            &&& left is Ok
            &&& left->Ok_0.minor > 0
            &&& discount.worth(left->Ok_0, rounding) is Ok
            &&& discount.worth(left->Ok_0, rounding)->Ok_0.minor > 0
        }),
    ensures
        applied(state, discount, rounding, now, currency) is Ok,
{
    let matched = matching(state.lines, discount.scope);
    let weights = remainings(matched);
    lemma_rank(state.lines, discount.scope, i);
    let left = total(weights, currency)->Ok_0;
    let amount = discount.worth(left, rounding)->Ok_0;
    law_discounts_are_capped(discount, left, rounding);
    law_total_is_the_sum(weights, currency);
    assert forall|k: int| 0 <= k < weights.len() implies #[trigger] minors(weights)[k] >= 0 by {
        lemma_matching_is_part(state.lines, discount.scope, k);
    }
    law_good_weights(amount, weights);
    law_allocation_succeeds(amount, minors(weights));
}

proof fn lemma_matching_is_part(lines: Seq<LineView>, scope: DiscountScope, k: int)
    requires
        0 <= k < matching(lines, scope).len(),
    ensures
        exists|i: int| 0 <= i < lines.len() && #[trigger] lines[i] == matching(lines, scope)[k],
    decreases lines.len(),
{
    let rest = lines.drop_last();
    if k < matching(rest, scope).len() {
        lemma_matching_is_part(rest, scope, k);
        let i = choose|i: int|
            0 <= i < rest.len() && #[trigger] rest[i] == matching(rest, scope)[k];
        assert(lines[i] == matching(lines, scope)[k]);
    } else {
        assert(lines[lines.len() - 1] == matching(lines, scope)[k]);
    }
}

/// Tax is computed on the price less the discounts that lower the taxable base, and on no
/// less than nothing; other discounts leave it alone.
pub proof fn law_taxable_base_is_the_price_less_its_discounts(
    base: Money,
    discounts: Seq<AppliedDiscount>,
)
    ensures
        taxable(base, discounts) matches Ok(amount) ==> {
            let lowered = sum(
                discounts.map_values(
                    |applied: AppliedDiscount|
                        if applied.reduced_taxable_base {
                            applied.amount.minor as int
                        } else {
                            0
                        },
                ),
            );
            &&& amount.currency == base.currency
            &&& base.minor >= lowered ==> amount.minor == base.minor - lowered
            &&& base.minor <= lowered ==> amount.minor == 0
        },
{
    lemma_taxed_price(base, discounts);
}

proof fn lemma_taxed_price(base: Money, discounts: Seq<AppliedDiscount>)
    ensures
        taxed_price(base, discounts) matches Ok(price) ==> {
            &&& price.currency == base.currency
            &&& price.minor == base.minor - sum(
                discounts.map_values(
                    |applied: AppliedDiscount|
                        if applied.reduced_taxable_base {
                            applied.amount.minor as int
                        } else {
                            0
                        },
                ),
            )
        },
    decreases discounts.len(),
{
    let lowered = discounts.map_values(
        |applied: AppliedDiscount|
            if applied.reduced_taxable_base {
                applied.amount.minor as int
            } else {
                0
            },
    );
    if discounts.len() > 0 {
        let rest = discounts.drop_last();
        lemma_taxed_price(base, rest);
        assert(lowered.drop_last() =~= rest.map_values(
            |applied: AppliedDiscount|
                if applied.reduced_taxable_base {
                    applied.amount.minor as int
                } else {
                    0
                },
        ));
    }
}

/// A tax calculator is asked about every line and then about every shipment, each under its
/// own identifier and tax code, with the list price less its discounts that lower the base.
pub proof fn law_every_line_and_shipment_is_taxed(state: StateView, i: int)
    requires
        taxables(state) is Ok,
        0 <= i < state.lines.len() + state.shipping.len(),
    ensures
        ({
            let asked = taxables(state)->Ok_0;
            let n = state.lines.len() as int;
            &&& asked.len() == state.lines.len() + state.shipping.len()
            &&& i < n ==> {
                &&& asked[i].reference == state.lines[i].line_id@
                &&& asked[i].tax_code == state.lines[i].tax_code
                &&& taxable(state.lines[i].subtotal, state.lines[i].discounts) == Ok::<
                    Money,
                    ErrorView,
                >(asked[i].base)
            }
            &&& i >= n ==> {
                let group = state.shipping[i - n];
                &&& asked[i].reference == group.group_id@
                &&& asked[i].tax_code == group.tax_code
                &&& taxable(group.price, group.discounts) == Ok::<Money, ErrorView>(asked[i].base)
            }
        }),
{
    lemma_line_taxables(state.lines);
    lemma_shipping_taxables(state.shipping);
}

proof fn lemma_line_taxables(lines: Seq<LineView>)
    requires
        line_taxables(lines) is Ok,
    ensures
        line_taxables(lines)->Ok_0.len() == lines.len(),
        forall|i: int|
            0 <= i < lines.len() ==> {
                let asked = #[trigger] line_taxables(lines)->Ok_0[i];
                &&& asked.reference == lines[i].line_id@
                &&& asked.tax_code == lines[i].tax_code
                &&& taxable(lines[i].subtotal, lines[i].discounts) == Ok::<Money, ErrorView>(
                    asked.base,
                )
            },
    decreases lines.len(),
{
    if lines.len() > 0 {
        let rest = lines.drop_last();
        lemma_line_taxables(rest);
        assert forall|i: int| 0 <= i < rest.len() implies #[trigger] line_taxables(lines)->Ok_0[i]
            == line_taxables(rest)->Ok_0[i] && rest[i] == lines[i] by {}
    }
}

proof fn lemma_shipping_taxables(shipping: Seq<ShippingView>)
    requires
        shipping_taxables(shipping) is Ok,
    ensures
        shipping_taxables(shipping)->Ok_0.len() == shipping.len(),
        forall|i: int|
            0 <= i < shipping.len() ==> {
                let asked = #[trigger] shipping_taxables(shipping)->Ok_0[i];
                &&& asked.reference == shipping[i].group_id@
                &&& asked.tax_code == shipping[i].tax_code
                &&& taxable(shipping[i].price, shipping[i].discounts) == Ok::<Money, ErrorView>(
                    asked.base,
                )
            },
    decreases shipping.len(),
{
    if shipping.len() > 0 {
        let rest = shipping.drop_last();
        lemma_shipping_taxables(rest);
        assert forall|i: int| 0 <= i < rest.len() implies #[trigger] shipping_taxables(
            shipping,
        )->Ok_0[i] == shipping_taxables(rest)->Ok_0[i] && rest[i] == shipping[i] by {}
    }
}

/// Before any discount a line costs its unit price times its quantity and a shipment its
/// shipping price, and all of it is left.
pub proof fn law_fresh_prices_are_list_prices(cart: Cart, i: int, g: int)
    requires
        fresh(cart) is Ok,
    ensures
        0 <= i < cart.items@.len() ==> {
            let item = cart.items@[i];
            let line = fresh(cart)->Ok_0.lines[i];
            &&& fresh(cart)->Ok_0.lines.len() == cart.items@.len()
            &&& line.line_id == item.id
            &&& line.shop_id == item.shop_id
            &&& line.sku == item.sku
            &&& line.quantity == item.quantity
            &&& line.tax_code == item.tax_code
            &&& line.unit_price == item.unit_price
            &&& line.subtotal.minor == item.unit_price.minor * item.quantity
            &&& line.subtotal.currency == item.unit_price.currency
            &&& line.remaining == line.subtotal
            &&& line.discounts.len() == 0
        },
        0 <= g < cart.fulfillment_groups@.len() ==> {
            let group = cart.fulfillment_groups@[g];
            let shipment = fresh(cart)->Ok_0.shipping[g];
            &&& fresh(cart)->Ok_0.shipping.len() == cart.fulfillment_groups@.len()
            &&& shipment.group_id == group.id
            &&& shipment.shop_id == group.shop_id
            &&& shipment.tax_code == group.shipping_tax_code
            &&& shipment.price == group.shipping_price
            &&& shipment.remaining == group.shipping_price
            &&& shipment.discounts.len() == 0
            &&& shipment.items == group.items@
        },
{
    if 0 <= i < cart.items@.len() {
        lemma_fresh_line(cart.items@, i);
    }
}

} // verus!
