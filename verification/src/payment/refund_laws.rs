//! What refunds are worth to shops, to funders and to the tenders that paid.

use vstd::prelude::*;

use crate::amounts::amount_under;
use crate::checkout::transfers::distinct_shops;
use crate::collections::{lemma_listing_is_unique, listed};
use crate::error::ErrorView;
use crate::money::allocation::{
    even_weights, law_allocation_succeeds, law_equal_weights_differ_by_at_most_one,
    law_good_weights, law_parts_are_proportional, law_parts_stay_within_their_weights,
    law_parts_sum_to_the_whole, non_negative, parts_of, weighted_allocation,
};
use crate::money::{
    law_scaling_is_proportional, law_total_is_the_sum, minors, total, Currency, Money, Rounding,
};
use crate::order::{given_back, in_group, line_units, refunded_units, returned_to, Order};
use crate::payment::refund::{
    after_charges, after_holders, after_lines, after_shares, all_returns, charge_due_back,
    charge_refunded, credited, credited_whole, discounted_by, distinct_lines, figure_of, held,
    holders, holding, line_returned, lists_group, reclaim_amounts, reclaim_list, reclaimed, refund,
    refunded_amounts, refunded_taxes, requested_units, return_amounts, return_list,
    returned_by_shop, shipment_returned, shop_refund, shop_refund_check, shop_refunds,
    shop_refunds_check, shop_returned, shop_returns, shop_weights, still_paid, subsidised, tallied,
    tax_share, unit_sum, units_tally, ReclaimView, RefundLineRequest, RefundRecord, RefundRequest,
    RefundScope, RefundView, RefundedFigure, RefundedLine, ReturnView, Returned, ShopRefund, Tally,
    TenderRefund,
};
use crate::payment::split::{lemma_settlement_index, ShopSettlement};
use crate::payment::tender::PlannedTender;
use crate::pricing::{AppliedDiscount, PricedShipping};
use crate::sums::{lemma_sum_non_negative, lemma_sum_prefix, lemma_sum_push, lemma_sum_take, sum};

verus! {

// What a shop still holds.

/// What a list of shop refunds returns to the shopper of each shop, with nothing in place
/// of the shops that are not meant.
pub open spec fn shopper_parts(shops: Seq<ShopRefund>, shop: Seq<char>) -> Seq<int> {
    shops.map_values(
        |refund: ShopRefund|
            if refund.shop_id@ == shop {
                refund.customer_funded.minor as int
            } else {
                0
            },
    )
}

/// What earlier refunds returned to the shopper of a shop, refund by refund.
pub open spec fn earlier_parts(refunds: Seq<RefundRecord>, shop: Seq<char>) -> Seq<int> {
    refunds.map_values(|record: RefundRecord| sum(shopper_parts(record.plan.shops@, shop)))
}

/// What a shop holds of what the shopper paid it, less what it already gave back.
pub open spec fn left_with_shop(order: Order, i: int) -> int {
    let shop = order.settlement.shops@[i];
    let left = shop.funded_by_customer.minor - sum(earlier_parts(order.refunds@, shop.shop_id@));
    if left > 0 {
        left
    } else {
        0
    }
}

/// What each shop holds.
pub open spec fn left_with_shops(order: Order) -> Seq<int> {
    Seq::new(order.settlement.shops@.len(), |i: int| left_with_shop(order, i))
}

proof fn lemma_shop_returned(shops: Seq<ShopRefund>, shop: Seq<char>, from: Money, n: int)
    requires
        0 <= n <= shops.len(),
    ensures
        shop_returned(shops, shop, from, n) matches Ok(sum_of) ==> sum_of.currency
            == from.currency && sum_of.minor == from.minor + sum(
            shopper_parts(shops, shop).take(n),
        ),
    decreases n,
{
    let parts = shopper_parts(shops, shop);
    if n == 0 {
        assert(parts.take(0) =~= Seq::<int>::empty());
    } else {
        lemma_shop_returned(shops, shop, from, n - 1);
        lemma_sum_take(parts, n - 1);
    }
}

proof fn lemma_returned_by_shop(
    refunds: Seq<RefundRecord>,
    shop: Seq<char>,
    currency: Currency,
    n: int,
)
    requires
        0 <= n <= refunds.len(),
    ensures
        returned_by_shop(refunds, shop, currency, n) matches Ok(sum_of) ==> sum_of.currency
            == currency && sum_of.minor == sum(earlier_parts(refunds, shop).take(n)),
    decreases n,
{
    let parts = earlier_parts(refunds, shop);
    if n == 0 {
        assert(parts.take(0) =~= Seq::<int>::empty());
    } else {
        lemma_returned_by_shop(refunds, shop, currency, n - 1);
        lemma_sum_take(parts, n - 1);
        if let Ok(before) = returned_by_shop(refunds, shop, currency, n - 1) {
            let shops = refunds[n - 1].plan.shops@;
            lemma_shop_returned(shops, shop, before, shops.len() as int);
            assert(shopper_parts(shops, shop).take(shops.len() as int) =~= shopper_parts(
                shops,
                shop,
            ));
        }
    }
}

/// What a shop still holds is what the shopper paid it less what it already gave back, and
/// never less than nothing.
pub proof fn law_shops_hold_what_they_did_not_return(order: Order, i: int)
    requires
        distinct_shops(order),
        0 <= i < order.settlement.shops@.len(),
    ensures
        still_paid(order, order.settlement.shops@[i].shop_id@) matches Ok(left) ==> left.minor
            == left_with_shop(order, i) && left.currency == order.currency,
{
    let shops = order.settlement.shops@;
    let shop = shops[i].shop_id@;
    let n = order.refunds@.len() as int;
    lemma_settlement_index(shops, shop, i);
    lemma_returned_by_shop(order.refunds@, shop, order.currency, n);
    assert(earlier_parts(order.refunds@, shop).take(n) =~= earlier_parts(order.refunds@, shop));
}

proof fn lemma_shop_returned_fits(shops: Seq<ShopRefund>, shop: Seq<char>, from: Money, n: int)
    requires
        0 <= n <= shops.len(),
        from.minor >= 0,
        forall|k: int|
            0 <= k < shops.len() ==> (#[trigger] shops[k]).customer_funded.currency
                == from.currency && shops[k].customer_funded.minor >= 0,
        from.minor + sum(shopper_parts(shops, shop)) <= i64::MAX,
    ensures
        shop_returned(shops, shop, from, n) is Ok,
    decreases n,
{
    if n > 0 {
        lemma_shop_returned_fits(shops, shop, from, n - 1);
        lemma_shop_returned(shops, shop, from, n - 1);
        let parts = shopper_parts(shops, shop);
        assert forall|k: int| 0 <= k < parts.len() implies #[trigger] parts[k] >= 0 by {
            assert(shops[k].customer_funded.minor >= 0);
        }
        lemma_sum_prefix(parts, n);
        lemma_sum_take(parts, n - 1);
        lemma_sum_prefix(parts, n - 1);
        assert(shops[n - 1].customer_funded.currency == from.currency);
    }
}

proof fn lemma_returned_by_shop_fits(order: Order, shop: Seq<char>, n: int)
    requires
        0 <= n <= order.refunds@.len(),
        forall|r: int, k: int|
            0 <= r < order.refunds@.len() && 0 <= k < order.refunds@[r].plan.shops@.len() ==> (
            #[trigger] order.refunds@[r].plan.shops@[k]).customer_funded.currency
                == order.currency && order.refunds@[r].plan.shops@[k].customer_funded.minor >= 0,
        sum(earlier_parts(order.refunds@, shop)) <= i64::MAX,
    ensures
        returned_by_shop(order.refunds@, shop, order.currency, n) is Ok,
        forall|r: int|
            0 <= r < order.refunds@.len() ==> #[trigger] earlier_parts(order.refunds@, shop)[r]
                >= 0,
    decreases n,
{
    let parts = earlier_parts(order.refunds@, shop);
    assert forall|r: int| 0 <= r < order.refunds@.len() implies #[trigger] parts[r] >= 0 by {
        let shops = order.refunds@[r].plan.shops@;
        let given = shopper_parts(shops, shop);
        assert forall|k: int| 0 <= k < given.len() implies #[trigger] given[k] >= 0 by {
            assert(order.refunds@[r].plan.shops@[k].customer_funded.minor >= 0);
        }
        lemma_sum_non_negative(given);
    }
    if n > 0 {
        lemma_returned_by_shop_fits(order, shop, n - 1);
        lemma_returned_by_shop(order.refunds@, shop, order.currency, n - 1);
        lemma_sum_take(parts, n - 1);
        lemma_sum_prefix(parts, n);
        lemma_sum_prefix(parts, n - 1);
        let shops = order.refunds@[n - 1].plan.shops@;
        let before = returned_by_shop(order.refunds@, shop, order.currency, n - 1)->Ok_0;
        assert(parts[n - 1] == sum(shopper_parts(shops, shop)));
        assert forall|k: int| 0 <= k < shops.len() implies (
        #[trigger] shops[k]).customer_funded.currency == order.currency
            && shops[k].customer_funded.minor >= 0 by {
            assert(order.refunds@[n - 1].plan.shops@[k].customer_funded.minor >= 0);
        }
        lemma_shop_returned_fits(shops, shop, before, shops.len() as int);
    }
}

/// What a shop still holds can be told wherever the refunds so far are in the currency of
/// the order, return no less than nothing and add up to what fits an amount.
pub proof fn law_holdings_can_be_told(order: Order, i: int)
    requires
        distinct_shops(order),
        0 <= i < order.settlement.shops@.len(),
        order.settlement.shops@[i].funded_by_customer.currency == order.currency,
        order.settlement.shops@[i].funded_by_customer.minor >= 0,
        forall|r: int, k: int|
            0 <= r < order.refunds@.len() && 0 <= k < order.refunds@[r].plan.shops@.len() ==> (
            #[trigger] order.refunds@[r].plan.shops@[k]).customer_funded.currency
                == order.currency && order.refunds@[r].plan.shops@[k].customer_funded.minor >= 0,
        sum(earlier_parts(order.refunds@, order.settlement.shops@[i].shop_id@)) <= i64::MAX,
    ensures
        still_paid(order, order.settlement.shops@[i].shop_id@) is Ok,
{
    let shops = order.settlement.shops@;
    let shop = shops[i].shop_id@;
    let n = order.refunds@.len() as int;
    let parts = earlier_parts(order.refunds@, shop);
    lemma_settlement_index(shops, shop, i);
    lemma_returned_by_shop_fits(order, shop, n);
    lemma_returned_by_shop(order.refunds@, shop, order.currency, n);
    assert(parts.take(n) =~= parts);
    lemma_sum_non_negative(parts);
}

// From a tally to what the shops give back.

proof fn lemma_parts_push(list: Seq<ShopRefund>, refund: ShopRefund, shop: Seq<char>)
    ensures
        sum(shopper_parts(list.push(refund), shop)) == sum(shopper_parts(list, shop)) + if refund.shop_id@
            == shop {
            refund.customer_funded.minor as int
        } else {
            0
        },
        sum(minors(refunded_amounts(list.push(refund)))) == sum(minors(refunded_amounts(list)))
            + refund.customer_funded.minor,
{
    let part = if refund.shop_id@ == shop {
        refund.customer_funded.minor as int
    } else {
        0
    };
    assert(shopper_parts(list.push(refund), shop) =~= shopper_parts(list, shop).push(part));
    lemma_sum_push(shopper_parts(list, shop), part);
    assert(minors(refunded_amounts(list.push(refund))) =~= minors(refunded_amounts(list)).push(
        refund.customer_funded.minor as int,
    ));
    lemma_sum_push(minors(refunded_amounts(list)), refund.customer_funded.minor as int);
}

/// What a tally returns to the shopper of each shop.
pub open spec fn tallied_parts(shops: Seq<ShopSettlement>, tally: Tally, currency: Currency) -> Seq<
    int,
> {
    shops.map_values(
        |shop: ShopSettlement|
            amount_under(tally.customer, shop.shop_id@, currency).minor as int,
    )
}

spec fn once_each(shops: Seq<ShopSettlement>) -> bool {
    forall|i: int, j: int|
        0 <= i < j < shops.len() ==> (#[trigger] shops[i]).shop_id@ != (
        #[trigger] shops[j]).shop_id@
}

proof fn lemma_shop_refunds(
    shops: Seq<ShopSettlement>,
    tally: Tally,
    refund_fee: bool,
    currency: Currency,
    n: int,
    i: int,
)
    requires
        0 <= n <= shops.len(),
        0 <= i < shops.len(),
        once_each(shops),
        forall|k: int|
            0 <= k < shops.len() ==> amount_under(
                tally.customer,
                (#[trigger] shops[k]).shop_id@,
                currency,
            ).minor >= 0 && amount_under(tally.subsidy, shops[k].shop_id@, currency).minor >= 0,
        shop_refunds(shops, tally, refund_fee, currency, n) is Ok,
    ensures
        ({
            let list = shop_refunds(shops, tally, refund_fee, currency, n)->Ok_0;
            &&& sum(shopper_parts(list, shops[i].shop_id@)) == if i < n {
                amount_under(tally.customer, shops[i].shop_id@, currency).minor as int
            } else {
                0
            }
            &&& sum(minors(refunded_amounts(list))) == sum(
                tallied_parts(shops, tally, currency).take(n),
            )
        }),
    decreases n,
{
    let parts = tallied_parts(shops, tally, currency);
    if n == 0 {
        assert(shopper_parts(Seq::<ShopRefund>::empty(), shops[i].shop_id@) =~= Seq::<
            int,
        >::empty());
        assert(minors(refunded_amounts(Seq::<ShopRefund>::empty())) =~= Seq::<int>::empty());
        assert(parts.take(0) =~= Seq::<int>::empty());
    } else {
        lemma_shop_refunds(shops, tally, refund_fee, currency, n - 1, i);
        lemma_sum_take(parts, n - 1);
        let before = shop_refunds(shops, tally, refund_fee, currency, n - 1)->Ok_0;
        assert(amount_under(tally.customer, shops[n - 1].shop_id@, currency).minor >= 0);
        assert(parts[n - 1] == amount_under(tally.customer, shops[n - 1].shop_id@, currency).minor);
        if i != n - 1 {
            assert(shops[i].shop_id@ != shops[n - 1].shop_id@);
        }
        if let Ok(Some(refund)) = shop_refund(shops[n - 1], tally, refund_fee, currency) {
            lemma_parts_push(before, refund, shops[i].shop_id@);
        }
    }
}

proof fn lemma_refund_entry(
    shops: Seq<ShopSettlement>,
    tally: Tally,
    refund_fee: bool,
    currency: Currency,
    n: int,
    k: int,
) -> (i: int)
    requires
        0 <= n <= shops.len(),
        shop_refunds(shops, tally, refund_fee, currency, n) is Ok,
        0 <= k < shop_refunds(shops, tally, refund_fee, currency, n)->Ok_0.len(),
    ensures
        0 <= i < n,
        shop_refund(shops[i], tally, refund_fee, currency) == Ok::<Option<ShopRefund>, ErrorView>(
            Some(shop_refunds(shops, tally, refund_fee, currency, n)->Ok_0[k]),
        ),
        k > 0 ==> i > 0,
    decreases n,
{
    if n == 0 {
        0
    } else {
        let before = shop_refunds(shops, tally, refund_fee, currency, n - 1)->Ok_0;
        if k < before.len() {
            lemma_refund_entry(shops, tally, refund_fee, currency, n - 1, k)
        } else {
            if n == 1 {
                assert(before.len() == 0);
            }
            n - 1
        }
    }
}

proof fn lemma_shop_checked(shops: Seq<ShopRefund>, n: int, k: int)
    requires
        0 <= k < n,
        shop_refunds_check(shops, n) is Ok,
    ensures
        shop_refund_check(shops[k]) is Ok,
    decreases n,
{
    if k < n - 1 {
        lemma_shop_checked(shops, n - 1, k);
    }
}

/// What a shop gives back in any refund goes to the shopper and to funders, is debited from
/// the account the shop was paid to less the commission it gets back, and that commission
/// is the settlement fee times what it gives back over what it was owed, rounded half up.
/// Without the request for it, no commission goes back.
pub proof fn law_shops_get_their_commission_back(
    order: Order,
    request: RefundRequest,
    plan: RefundView,
    k: int,
)
    requires
        refund(order, request) == Ok::<RefundView, ErrorView>(plan),
        0 <= k < plan.shops.len(),
    ensures
        exists|i: int|
            0 <= i < order.settlement.shops@.len() && {
                let shop = #[trigger] order.settlement.shops@[i];
                let back = plan.shops[k];
                let fee = back.platform_fee_returned.minor;
                let off = fee * shop.gross.minor - shop.platform_fee.minor * back.gross.minor;
                &&& back.shop_id == shop.shop_id
                &&& back.account_id == shop.account_id
                &&& back.gross.minor == back.customer_funded.minor + back.subsidy_funded.minor
                &&& back.net.minor == back.gross.minor - fee
                &&& back.gross.minor != 0
                &&& !request.refund_platform_fee || shop.platform_fee.minor <= 0
                    || shop.gross.minor <= 0 ==> fee == 0
                &&& request.refund_platform_fee && shop.platform_fee.minor > 0 && shop.gross.minor
                    > 0 ==> {
                    &&& -shop.gross.minor <= 2 * off <= shop.gross.minor
                    &&& back.gross.minor == shop.gross.minor ==> fee == shop.platform_fee.minor
                }
            },
{
    let shops = order.settlement.shops@;
    let tally = tallied(order, request)->Ok_0;
    let n = shops.len() as int;
    let i = lemma_refund_entry(shops, tally, request.refund_platform_fee, order.currency, n, k);
    lemma_shop_checked(plan.shops, plan.shops.len() as int, k);
    let shop = shops[i];
    let back = plan.shops[k];
    if request.refund_platform_fee && shop.platform_fee.minor > 0 && shop.gross.minor > 0 {
        let g = shop.gross.minor as int;
        law_scaling_is_proportional(
            shop.platform_fee,
            back.gross.minor as int,
            g,
            Rounding::HalfUp,
        );
        let fee = back.platform_fee_returned.minor as int;
        let whole = shop.platform_fee.minor as int;
        if back.gross.minor == g {
            assert(fee == whole) by (nonlinear_arith)
                requires
                    -g <= 2 * (fee * g - whole * g) <= g,
                    g > 0,
            ;
        }
    }
    assert(order.settlement.shops@[i] == shop);
}

// Flat refunds.

proof fn lemma_after_shares(
    shops: Seq<ShopSettlement>,
    shares: Seq<Money>,
    currency: Currency,
    n: int,
)
    requires
        0 <= n <= shops.len(),
        shares.len() == shops.len(),
        once_each(shops),
        forall|k: int| 0 <= k < shares.len() ==> (#[trigger] shares[k]).currency == currency,
        after_shares(shops, shares, currency, n) is Ok,
    ensures
        ({
            let tally = after_shares(shops, shares, currency, n)->Ok_0;
            &&& tally.subsidy == Map::<Seq<char>, Money>::empty()
            &&& tally.funders == Map::<Seq<char>, Money>::empty()
            &&& tally.lines.len() == 0
            &&& tally.shipping.len() == 0
            &&& forall|k: int|
                0 <= k < shops.len() ==> {
                    let key = (#[trigger] shops[k]).shop_id@;
                    &&& k < n ==> amount_under(tally.customer, key, currency).minor
                        == shares[k].minor
                    &&& k < n ==> amount_under(tally.gross, key, currency).minor == shares[k].minor
                    &&& k < n && shares[k].minor != 0 ==> tax_share(shops[k], shares[k], currency)
                        is Ok && amount_under(tally.tax, key, currency).minor == tax_share(
                        shops[k],
                        shares[k],
                        currency,
                    )->Ok_0.minor
                    &&& k >= n ==> !tally.customer.contains_key(key) && !tally.gross.contains_key(
                        key,
                    ) && !tally.tax.contains_key(key)
                }
        }),
    decreases n,
{
    if n > 0 {
        lemma_after_shares(shops, shares, currency, n - 1);
        let before = after_shares(shops, shares, currency, n - 1)->Ok_0;
        let tally = after_shares(shops, shares, currency, n)->Ok_0;
        let mine = shops[n - 1].shop_id@;
        assert(shares[n - 1].currency == currency);
        assert(!before.customer.contains_key(mine));
        assert forall|k: int| 0 <= k < shops.len() implies {
            let key = (#[trigger] shops[k]).shop_id@;
            &&& k < n ==> amount_under(tally.customer, key, currency).minor == shares[k].minor
            &&& k < n ==> amount_under(tally.gross, key, currency).minor == shares[k].minor
            &&& k < n && shares[k].minor != 0 ==> tax_share(shops[k], shares[k], currency) is Ok
                && amount_under(tally.tax, key, currency).minor == tax_share(
                shops[k],
                shares[k],
                currency,
            )->Ok_0.minor
            &&& k >= n ==> !tally.customer.contains_key(key) && !tally.gross.contains_key(key)
                && !tally.tax.contains_key(key)
        } by {
            if k < n - 1 {
                assert(shops[k].shop_id@ != shops[n - 1].shop_id@);
            } else if k > n - 1 {
                assert(shops[n - 1].shop_id@ != shops[k].shop_id@);
            }
        }
    }
}

/// Whether it can be told what each shop of an order still holds, and that is something.
pub open spec fn holdings_told(order: Order) -> bool {
    &&& sum(left_with_shops(order)) > 0
    &&& forall|k: int|
        0 <= k < order.settlement.shops@.len() ==> still_paid(
            order,
            (#[trigger] order.settlement.shops@[k]).shop_id@,
        ) is Ok
}

proof fn lemma_weights_are_holdings(order: Order)
    requires
        distinct_shops(order),
        holdings_told(order),
    ensures
        minors(shop_weights(order)) == left_with_shops(order),
        non_negative(left_with_shops(order)),
        forall|k: int|
            0 <= k < shop_weights(order).len() ==> (#[trigger] shop_weights(order)[k]).currency
                == order.currency,
{
    let shops = order.settlement.shops@;
    let weights = shop_weights(order);
    assert forall|k: int| 0 <= k < shops.len() implies #[trigger] minors(weights)[k]
        == left_with_shop(order, k) && weights[k].currency == order.currency by {
        assert(still_paid(order, shops[k].shop_id@) is Ok);
        law_shops_hold_what_they_did_not_return(order, k);
    }
    assert(minors(weights) =~= left_with_shops(order));
    assert forall|k: int| 0 <= k < weights.len() implies (#[trigger] weights[k]).currency
        == order.currency by {
        assert(minors(weights)[k] == left_with_shop(order, k));
    }
}

/// A flat refund is taken from the shops in proportion to what each still holds of what the
/// shopper paid it: each shop's part is less than one minor unit away from the exact
/// proportion and no more than the shop holds, and the parts come to the amount.
pub proof fn law_flat_refunds_are_prorated(
    order: Order,
    request: RefundRequest,
    amount: Money,
    plan: RefundView,
    i: int,
)
    requires
        refund(order, request) == Ok::<RefundView, ErrorView>(plan),
        request.scope == (RefundScope::Amount { amount }),
        distinct_shops(order),
        holdings_told(order),
        0 <= i < order.settlement.shops@.len(),
    ensures
        ({
            let part = sum(shopper_parts(plan.shops, order.settlement.shops@[i].shop_id@));
            let held_by_shop = left_with_shop(order, i);
            let all = sum(left_with_shops(order));
            &&& -all < part * all - amount.minor * held_by_shop < all
            &&& amount.minor <= all ==> 0 <= part <= held_by_shop
            &&& plan.total == amount
            &&& plan.lines.len() == 0
            &&& plan.shipping_groups.len() == 0
        }),
{
    let shops = order.settlement.shops@;
    let n = shops.len() as int;
    let currency = order.currency;
    let weights = shop_weights(order);
    let plain = left_with_shops(order);
    lemma_weights_are_holdings(order);
    law_good_weights(amount, weights);
    assert(weights[i].currency == currency);
    law_allocation_succeeds(amount, plain);
    law_parts_are_proportional(amount.minor as int, plain, i);
    law_parts_sum_to_the_whole(amount.minor as int, plain);
    if amount.minor <= sum(plain) {
        law_parts_stay_within_their_weights(amount.minor as int, plain, i);
    }
    let shares = weighted_allocation(amount, weights)->Ok_0;
    let tally = tallied(order, request)->Ok_0;
    assert forall|k: int| 0 <= k < shares.len() implies (#[trigger] shares[k]).currency
        == currency by {}
    lemma_after_shares(shops, shares, currency, n);
    assert forall|k: int| 0 <= k < shops.len() implies amount_under(
        tally.customer,
        (#[trigger] shops[k]).shop_id@,
        currency,
    ).minor >= 0 && amount_under(tally.subsidy, shops[k].shop_id@, currency).minor >= 0 by {
        let part = parts_of(amount.minor as int, plain)[k];
        assert(0 <= part <= amount.minor);
        assert(shares[k].minor == part);
    }
    lemma_shop_refunds(shops, tally, request.refund_platform_fee, currency, n, i);
    assert(tallied_parts(shops, tally, currency).take(n) =~= minors(shares));
    law_total_is_the_sum(refunded_amounts(plan.shops), currency);
    let part = parts_of(amount.minor as int, plain)[i];
    assert(0 <= part <= amount.minor);
    assert(shares[i].minor == part);
}

/// A flat refund returns tax at each shop's own rate: the tax in what a shop gives back is
/// that times its tax over what it was owed, rounded half up. No subsidy is reclaimed.
pub proof fn law_flat_refunds_return_tax_at_the_shops_rate(
    order: Order,
    request: RefundRequest,
    amount: Money,
    plan: RefundView,
    k: int,
)
    requires
        refund(order, request) == Ok::<RefundView, ErrorView>(plan),
        request.scope == (RefundScope::Amount { amount }),
        distinct_shops(order),
        holdings_told(order),
        0 <= k < plan.shops.len(),
    ensures
        exists|i: int|
            0 <= i < order.settlement.shops@.len() && {
                let shop = #[trigger] order.settlement.shops@[i];
                let back = plan.shops[k];
                let off = back.tax.minor * shop.gross.minor - back.customer_funded.minor
                    * shop.tax.minor;
                &&& back.shop_id == shop.shop_id
                &&& back.subsidy_funded.minor == 0
                &&& back.gross.minor == back.customer_funded.minor
                &&& shop.gross.minor == 0 ==> back.tax.minor == 0
                &&& shop.gross.minor > 0 ==> -shop.gross.minor <= 2 * off <= shop.gross.minor
            },
        plan.funders.len() == 0,
        plan.subsidy_reclaimed.minor == 0,
{
    let shops = order.settlement.shops@;
    let n = shops.len() as int;
    let currency = order.currency;
    let weights = shop_weights(order);
    let plain = left_with_shops(order);
    lemma_weights_are_holdings(order);
    law_good_weights(amount, weights);
    let tally = tallied(order, request)->Ok_0;
    let i = lemma_refund_entry(shops, tally, request.refund_platform_fee, currency, n, k);
    assert(weights[i].currency == currency);
    law_allocation_succeeds(amount, plain);
    law_parts_sum_to_the_whole(amount.minor as int, plain);
    let shares = weighted_allocation(amount, weights)->Ok_0;
    assert forall|j: int| 0 <= j < shares.len() implies (#[trigger] shares[j]).currency
        == currency by {}
    lemma_after_shares(shops, shares, currency, n);
    let shop = shops[i];
    let back = plan.shops[k];
    assert(amount_under(tally.customer, shop.shop_id@, currency).minor == shares[i].minor);
    let part = parts_of(amount.minor as int, plain)[i];
    assert(0 <= part <= amount.minor);
    assert(shares[i].minor == part);
    assert(back.customer_funded.minor == shares[i].minor);
    assert(back.gross.minor == shares[i].minor);
    if shop.gross.minor > 0 {
        law_scaling_is_proportional(
            shares[i],
            shop.tax.minor as int,
            shop.gross.minor as int,
            Rounding::HalfUp,
        );
    }
    assert(order.settlement.shops@[i] == shop);
    lemma_listing_is_unique(Seq::<Seq<char>>::empty(), tally.funders);
    law_total_is_the_sum(reclaim_amounts(plan.funders), currency);
    assert(minors(reclaim_amounts(plan.funders)) =~= Seq::<int>::empty());
}

/// A flat refund of more than nothing and of no more than can still be refunded is never
/// turned away for its amount, and any other is.
pub proof fn law_flat_refunds_stay_within_the_rest(
    order: Order,
    request: RefundRequest,
    amount: Money,
    left: Money,
)
    requires
        request.scope == (RefundScope::Amount { amount }),
        order.amount_captured.minus(order.amount_refunded) == Ok::<Money, ErrorView>(left),
        left.currency == order.currency,
        amount.currency == order.currency,
        distinct_shops(order),
        holdings_told(order),
        forall|k: int|
            0 <= k < order.settlement.shops@.len() ==> 0 <= (
            #[trigger] order.settlement.shops@[k]).tax.minor
                <= order.settlement.shops@[k].gross.minor,
    ensures
        tallied(order, request) is Ok <==> 0 < amount.minor <= left.minor,
        refund(order, request) is Ok ==> 0 < amount.minor <= left.minor,
{
    let shops = order.settlement.shops@;
    let currency = order.currency;
    let weights = shop_weights(order);
    let plain = left_with_shops(order);
    lemma_weights_are_holdings(order);
    if 0 < amount.minor <= left.minor {
        assert forall|k: int| 0 <= k < weights.len() implies (#[trigger] weights[k]).currency
            == amount.currency by {}
        law_good_weights(amount, weights);
        law_allocation_succeeds(amount, plain);
        law_parts_sum_to_the_whole(amount.minor as int, plain);
        let shares = weighted_allocation(amount, weights)->Ok_0;
        assert forall|k: int| 0 <= k < shares.len() implies (#[trigger] shares[k]).currency
            == currency && 0 <= shares[k].minor by {
            let part = parts_of(amount.minor as int, plain)[k];
            assert(0 <= part <= amount.minor);
        }
        lemma_shares_are_taken(shops, shares, currency, shops.len() as int);
    }
}

proof fn lemma_shares_are_taken(
    shops: Seq<ShopSettlement>,
    shares: Seq<Money>,
    currency: Currency,
    n: int,
)
    requires
        0 <= n <= shops.len(),
        shares.len() == shops.len(),
        once_each(shops),
        forall|k: int|
            0 <= k < shares.len() ==> (#[trigger] shares[k]).currency == currency && 0
                <= shares[k].minor,
        forall|k: int|
            0 <= k < shops.len() ==> 0 <= (#[trigger] shops[k]).tax.minor <= shops[k].gross.minor,
    ensures
        after_shares(shops, shares, currency, n) is Ok,
    decreases n,
{
    if n > 0 {
        lemma_shares_are_taken(shops, shares, currency, n - 1);
        lemma_after_shares(shops, shares, currency, n - 1);
        let shop = shops[n - 1];
        let share = shares[n - 1];
        assert(share.currency == currency && 0 <= share.minor);
        assert(0 <= shop.tax.minor <= shop.gross.minor);
        let before = after_shares(shops, shares, currency, n - 1)->Ok_0;
        assert(!before.customer.contains_key(shop.shop_id@));
        let g = shop.gross.minor as int;
        if g > 0 {
            let t = shop.tax.minor as int;
            let s = share.minor as int;
            assert(i64::MIN * g <= s * t <= i64::MAX * g) by (nonlinear_arith)
                requires
                    0 <= s <= i64::MAX,
                    0 <= t <= g,
            ;
            law_scaling_is_proportional(share, t, g, Rounding::HalfUp);
        }
    }
}

// What the tenders get back.

/// What a list of tender refunds returns of one shop to one tender, entry by entry.
pub open spec fn returns_of(tenders: Seq<TenderRefund>, tender: int, shop: Seq<char>) -> Seq<int> {
    tenders.map_values(
        |refund: TenderRefund|
            if refund.tender_index == tender && refund.shop_allocation@.contains_key(shop) {
                refund.shop_allocation@[shop].minor as int
            } else {
                0
            },
    )
}

/// What earlier refunds returned of one shop to one tender, refund by refund.
pub open spec fn earlier_returns(refunds: Seq<RefundRecord>, tender: int, shop: Seq<char>) -> Seq<
    int,
> {
    refunds.map_values(
        |record: RefundRecord| sum(returns_of(record.plan.tenders@, tender, shop)),
    )
}

/// What a tender paid a shop, less what it already got back of it.
pub open spec fn left_of_tender(order: Order, tender: int, shop: Seq<char>) -> int {
    let paid = order.tenders@[tender].shop_allocation@;
    let left = (if paid.contains_key(shop) {
        paid[shop].minor as int
    } else {
        0
    }) - sum(earlier_returns(order.refunds@, tender, shop));
    if left > 0 {
        left
    } else {
        0
    }
}

/// What each tender paid a shop, less what it already got back of it.
pub open spec fn left_of_tenders(order: Order, shop: Seq<char>) -> Seq<int> {
    Seq::new(order.tenders@.len(), |tender: int| left_of_tender(order, tender, shop))
}

/// What a refund returns of one shop to one tender, entry by entry.
pub open spec fn tender_parts(tenders: Seq<ReturnView>, tender: int, shop: Seq<char>) -> Seq<int> {
    tenders.map_values(
        |refund: ReturnView|
            if refund.tender_index == tender && refund.shop_allocation.contains_key(shop) {
                refund.shop_allocation[shop].minor as int
            } else {
                0
            },
    )
}

proof fn lemma_given_back(
    tenders: Seq<TenderRefund>,
    index: int,
    shop: Seq<char>,
    from: Money,
    n: int,
)
    requires
        0 <= n <= tenders.len(),
    ensures
        given_back(tenders, index, shop, from, n) matches Ok(sum_of) ==> sum_of.currency
            == from.currency && sum_of.minor == from.minor + sum(
            returns_of(tenders, index, shop).take(n),
        ),
    decreases n,
{
    let parts = returns_of(tenders, index, shop);
    if n == 0 {
        assert(parts.take(0) =~= Seq::<int>::empty());
    } else {
        lemma_given_back(tenders, index, shop, from, n - 1);
        lemma_sum_take(parts, n - 1);
    }
}

proof fn lemma_returned_to(
    refunds: Seq<RefundRecord>,
    index: int,
    shop: Seq<char>,
    currency: Currency,
    n: int,
)
    requires
        0 <= n <= refunds.len(),
    ensures
        returned_to(refunds, index, shop, currency, n) matches Ok(sum_of) ==> sum_of.currency
            == currency && sum_of.minor == sum(earlier_returns(refunds, index, shop).take(n)),
    decreases n,
{
    let parts = earlier_returns(refunds, index, shop);
    if n == 0 {
        assert(parts.take(0) =~= Seq::<int>::empty());
    } else {
        lemma_returned_to(refunds, index, shop, currency, n - 1);
        lemma_sum_take(parts, n - 1);
        if let Ok(before) = returned_to(refunds, index, shop, currency, n - 1) {
            let tenders = refunds[n - 1].plan.tenders@;
            lemma_given_back(tenders, index, shop, before, tenders.len() as int);
            assert(returns_of(tenders, index, shop).take(tenders.len() as int) =~= returns_of(
                tenders,
                index,
                shop,
            ));
        }
    }
}

proof fn lemma_holding(order: Order, tender: int, shop: Seq<char>)
    requires
        0 <= tender < order.tenders@.len(),
    ensures
        holding(order, tender, shop) matches Ok(left) ==> left.minor == left_of_tender(
            order,
            tender,
            shop,
        ) && left.currency == order.currency,
{
    let n = order.refunds@.len() as int;
    lemma_returned_to(order.refunds@, tender, shop, order.currency, n);
    assert(earlier_returns(order.refunds@, tender, shop).take(n) =~= earlier_returns(
        order.refunds@,
        tender,
        shop,
    ));
}

proof fn lemma_holders(order: Order, shop: Seq<char>, n: int)
    requires
        0 <= n <= order.tenders@.len(),
        order.tenders@.len() <= usize::MAX,
        holders(order, shop, n) is Ok,
    ensures
        ({
            let list = holders(order, shop, n)->Ok_0;
            &&& sum(minors(held(list))) == sum(left_of_tenders(order, shop).take(n))
            &&& forall|h: int|
                0 <= h < list.len() ==> {
                    let holder = #[trigger] list[h];
                    &&& 0 <= holder.0 < n
                    &&& holder.1.minor == left_of_tender(order, holder.0 as int, shop)
                    &&& holder.1.minor > 0
                    &&& holder.1.currency == order.currency
                }
            &&& forall|g: int, h: int|
                0 <= g < h < list.len() ==> (#[trigger] list[g]).0 < (#[trigger] list[h]).0
            &&& forall|t: int|
                0 <= t < n && #[trigger] left_of_tender(order, t, shop) > 0 ==> exists|h: int|
                    0 <= h < list.len() && (#[trigger] list[h]).0 == t
        }),
    decreases n,
{
    let parts = left_of_tenders(order, shop);
    let list = holders(order, shop, n)->Ok_0;
    if n == 0 {
        assert(minors(held(list)) =~= Seq::<int>::empty());
        assert(parts.take(0) =~= Seq::<int>::empty());
    } else {
        lemma_holders(order, shop, n - 1);
        lemma_holding(order, n - 1, shop);
        lemma_sum_take(parts, n - 1);
        let before = holders(order, shop, n - 1)->Ok_0;
        let left = holding(order, n - 1, shop)->Ok_0;
        if left.minor > 0 {
            assert(minors(held(list)) =~= minors(held(before)).push(left.minor as int));
            lemma_sum_push(minors(held(before)), left.minor as int);
            assert forall|t: int|
                0 <= t < n && #[trigger] left_of_tender(order, t, shop) > 0 implies exists|h: int|
                0 <= h < list.len() && (#[trigger] list[h]).0 == t by {
                if t < n - 1 {
                    let h = choose|h: int| 0 <= h < before.len() && (#[trigger] before[h]).0 == t;
                    assert(list[h] == before[h]);
                } else {
                    assert(list[before.len() as int].0 == t);
                }
            }
        } else {
            assert(list == before);
        }
    }
}

spec fn slot_part(slot: Option<Returned>, shop: Seq<char>) -> int {
    match slot {
        Some(returned) => if returned.shops.contains_key(shop) {
            returned.shops[shop].minor as int
        } else {
            0
        },
        None => 0,
    }
}

spec fn slot_bare(slot: Option<Returned>, shop: Seq<char>) -> bool {
    slot matches Some(returned) ==> !returned.shops.contains_key(shop)
}

proof fn lemma_after_holders(
    slots: Seq<Option<Returned>>,
    list: Seq<(usize, Money)>,
    shares: Seq<Money>,
    shop: Seq<char>,
    currency: Currency,
    n: int,
)
    requires
        0 <= n <= list.len(),
        shares.len() == list.len(),
        forall|h: int| 0 <= h < list.len() ==> 0 <= (#[trigger] list[h]).0 < slots.len(),
        forall|g: int, h: int|
            0 <= g < h < list.len() ==> (#[trigger] list[g]).0 < (#[trigger] list[h]).0,
        forall|h: int| 0 <= h < shares.len() ==> (#[trigger] shares[h]).currency == currency,
        forall|t: int| 0 <= t < slots.len() ==> slot_bare(#[trigger] slots[t], shop),
        after_holders(slots, list, shares, shop, currency, n) is Ok,
    ensures
        ({
            let after = after_holders(slots, list, shares, shop, currency, n)->Ok_0;
            &&& after.len() == slots.len()
            &&& forall|h: int|
                0 <= h < n ==> slot_part(after[(#[trigger] list[h]).0 as int], shop)
                    == shares[h].minor
            &&& forall|t: int|
                0 <= t < slots.len() && (forall|h: int|
                    0 <= h < n ==> (#[trigger] list[h]).0 != t) ==> #[trigger] after[t] == slots[t]
            &&& forall|t: int, other: Seq<char>|
                0 <= t < slots.len() && other != shop ==> #[trigger] slot_part(after[t], other)
                    == slot_part(slots[t], other) && slot_bare(after[t], other) == slot_bare(
                    slots[t],
                    other,
                )
        }),
    decreases n,
{
    if n > 0 {
        lemma_after_holders(slots, list, shares, shop, currency, n - 1);
        let before = after_holders(slots, list, shares, shop, currency, n - 1)->Ok_0;
        let after = after_holders(slots, list, shares, shop, currency, n)->Ok_0;
        let at = list[n - 1].0 as int;
        assert forall|h: int| 0 <= h < n - 1 implies (#[trigger] list[h]).0 != at by {}
        assert(before[at] == slots[at]);
        assert(slot_bare(slots[at], shop));
        assert(shares[n - 1].currency == currency);
        assert(slot_part(slots[at], shop) == 0);
        assert(slot_part(after[at], shop) == shares[n - 1].minor);
        assert forall|h: int| 0 <= h < n implies slot_part(
            after[(#[trigger] list[h]).0 as int],
            shop,
        ) == shares[h].minor by {
            if h < n - 1 {
                assert(list[h].0 != at);
                assert(after[list[h].0 as int] == before[list[h].0 as int]);
            }
        }
        assert forall|t: int|
            0 <= t < slots.len() && (forall|h: int|
                0 <= h < n ==> (#[trigger] list[h]).0 != t) implies #[trigger] after[t]
            == slots[t] by {
            assert(list[n - 1].0 != t);
            assert(forall|h: int| 0 <= h < n - 1 ==> (#[trigger] list[h]).0 != t);
            assert(before[t] == slots[t]);
        }
        assert forall|t: int, other: Seq<char>|
            0 <= t < slots.len() && other != shop implies #[trigger] slot_part(after[t], other)
            == slot_part(slots[t], other) && slot_bare(after[t], other) == slot_bare(
            slots[t],
            other,
        ) by {
            assert(slot_part(before[t], other) == slot_part(slots[t], other));
        }
    }
}

spec fn fair_return(order: Order, back: ShopRefund, tender: int, part: int) -> bool {
    let left = left_of_tender(order, tender, back.shop_id@);
    let all = sum(left_of_tenders(order, back.shop_id@));
    let amount = back.customer_funded.minor as int;
    if amount <= 0 {
        part == 0
    } else {
        0 <= part <= left && -all < part * all - amount * left < all
    }
}

proof fn lemma_shop_returns(order: Order, slots: Seq<Option<Returned>>, back: ShopRefund)
    requires
        slots.len() == order.tenders@.len(),
        order.tenders@.len() <= usize::MAX,
        forall|t: int| 0 <= t < slots.len() ==> slot_bare(#[trigger] slots[t], back.shop_id@),
        shop_returns(order, slots, back) is Ok,
    ensures
        ({
            let after = shop_returns(order, slots, back)->Ok_0;
            &&& after.len() == slots.len()
            &&& forall|t: int|
                0 <= t < slots.len() ==> fair_return(
                    order,
                    back,
                    t,
                    slot_part(#[trigger] after[t], back.shop_id@),
                )
            &&& forall|t: int, other: Seq<char>|
                0 <= t < slots.len() && other != back.shop_id@ ==> #[trigger] slot_part(
                    after[t],
                    other,
                ) == slot_part(slots[t], other) && slot_bare(after[t], other) == slot_bare(
                    slots[t],
                    other,
                )
        }),
{
    let shop = back.shop_id@;
    let after = shop_returns(order, slots, back)->Ok_0;
    if back.customer_funded.minor > 0 {
        let n = order.tenders@.len() as int;
        let list = holders(order, shop, n)->Ok_0;
        let weights = held(list);
        let amount = back.customer_funded;
        let parts = left_of_tenders(order, shop);
        lemma_holders(order, shop, n);
        assert(parts.take(n) =~= parts);
        law_total_is_the_sum(weights, order.currency);
        law_good_weights(amount, weights);
        let shares = weighted_allocation(amount, weights)->Ok_0;
        if weights.len() == 0 {
            assert(minors(weights) =~= Seq::<int>::empty());
        }
        law_allocation_succeeds(amount, minors(weights));
        assert(weights[0] == list[0].1);
        assert(minors(weights)[0] > 0);
        lemma_sum_non_negative(minors(weights));
        law_parts_sum_to_the_whole(amount.minor as int, minors(weights));
        lemma_after_holders(slots, list, shares, shop, order.currency, list.len() as int);
        assert forall|t: int| 0 <= t < slots.len() implies fair_return(
            order,
            back,
            t,
            slot_part(#[trigger] after[t], shop),
        ) by {
            let left = left_of_tender(order, t, shop);
            let all = sum(parts);
            if left > 0 {
                let h = choose|h: int| 0 <= h < list.len() && (#[trigger] list[h]).0 == t;
                law_parts_are_proportional(amount.minor as int, minors(weights), h);
                law_parts_stay_within_their_weights(amount.minor as int, minors(weights), h);
                let part = parts_of(amount.minor as int, minors(weights))[h];
                assert(0 <= part <= amount.minor);
                assert(shares[h].minor == part);
                assert(minors(weights)[h] == list[h].1.minor);
            } else {
                assert forall|h: int| 0 <= h < list.len() implies (#[trigger] list[h]).0 != t by {}
                assert(after[t] == slots[t]);
                assert(slot_bare(slots[t], shop));
                assert(0 * all == 0 && amount.minor * 0 == 0) by (nonlinear_arith);
            }
        }
    } else {
        assert forall|t: int| 0 <= t < slots.len() implies slot_part(#[trigger] after[t], shop)
            == 0 by {
            assert(slot_bare(slots[t], shop));
        }
    }
}

proof fn lemma_all_returns(order: Order, shops: Seq<ShopRefund>, n: int)
    requires
        0 <= n <= shops.len(),
        order.tenders@.len() <= usize::MAX,
        forall|i: int, j: int|
            0 <= i < j < shops.len() ==> (#[trigger] shops[i]).shop_id@ != (
            #[trigger] shops[j]).shop_id@,
        all_returns(order, shops, n) is Ok,
    ensures
        ({
            let slots = all_returns(order, shops, n)->Ok_0;
            &&& slots.len() == order.tenders@.len()
            &&& forall|t: int, k: int|
                #![trigger slots[t], shops[k]]
                0 <= t < slots.len() && 0 <= k < n ==> fair_return(
                    order,
                    shops[k],
                    t,
                    slot_part(slots[t], shops[k].shop_id@),
                )
            &&& forall|t: int, k: int|
                #![trigger slots[t], shops[k]]
                0 <= t < slots.len() && n <= k < shops.len() ==> slot_bare(
                    slots[t],
                    shops[k].shop_id@,
                )
        }),
    decreases n,
{
    if n > 0 {
        lemma_all_returns(order, shops, n - 1);
        let before = all_returns(order, shops, n - 1)->Ok_0;
        let slots = all_returns(order, shops, n)->Ok_0;
        let back = shops[n - 1];
        assert forall|t: int| 0 <= t < before.len() implies slot_bare(
            #[trigger] before[t],
            back.shop_id@,
        ) by {}
        lemma_shop_returns(order, before, back);
        assert forall|t: int, k: int|
            #![trigger slots[t], shops[k]]
            0 <= t < slots.len() && 0 <= k < n implies fair_return(
            order,
            shops[k],
            t,
            slot_part(slots[t], shops[k].shop_id@),
        ) by {
            if k < n - 1 {
                assert(shops[k].shop_id@ != back.shop_id@);
                assert(slot_part(slots[t], shops[k].shop_id@) == slot_part(
                    before[t],
                    shops[k].shop_id@,
                ));
                assert(fair_return(
                    order,
                    shops[k],
                    t,
                    slot_part(before[t], shops[k].shop_id@),
                ));
            }
        }
        assert forall|t: int, k: int|
            #![trigger slots[t], shops[k]]
            0 <= t < slots.len() && n <= k < shops.len() implies slot_bare(
            slots[t],
            shops[k].shop_id@,
        ) by {
            assert(shops[k].shop_id@ != back.shop_id@);
            assert(slot_bare(before[t], shops[k].shop_id@));
            assert(slot_part(slots[t], shops[k].shop_id@) == slot_part(
                before[t],
                shops[k].shop_id@,
            ));
        }
    }
}

proof fn lemma_return_list(
    tenders: Seq<PlannedTender>,
    slots: Seq<Option<Returned>>,
    n: int,
    t: int,
    shop: Seq<char>,
)
    requires
        0 <= n <= slots.len(),
        slots.len() <= usize::MAX,
        0 <= t < slots.len(),
    ensures
        sum(tender_parts(return_list(tenders, slots, n), t, shop)) == if t < n {
            slot_part(slots[t], shop)
        } else {
            0
        },
    decreases n,
{
    let list = return_list(tenders, slots, n);
    if n == 0 {
        assert(tender_parts(list, t, shop) =~= Seq::<int>::empty());
    } else {
        lemma_return_list(tenders, slots, n - 1, t, shop);
        let before = return_list(tenders, slots, n - 1);
        if let Some(returned) = slots[n - 1] {
            let part = if t == n - 1 && returned.shops.contains_key(shop) {
                returned.shops[shop].minor as int
            } else {
                0
            };
            assert(tender_parts(list, t, shop) =~= tender_parts(before, t, shop).push(part));
            lemma_sum_push(tender_parts(before, t, shop), part);
        }
    }
}

proof fn lemma_plan_names_shops_once(
    shops: Seq<ShopSettlement>,
    tally: Tally,
    refund_fee: bool,
    currency: Currency,
    n: int,
)
    requires
        0 <= n <= shops.len(),
        once_each(shops),
        shop_refunds(shops, tally, refund_fee, currency, n) is Ok,
    ensures
        ({
            let list = shop_refunds(shops, tally, refund_fee, currency, n)->Ok_0;
            &&& forall|i: int, j: int|
                0 <= i < j < list.len() ==> (#[trigger] list[i]).shop_id@ != (
                #[trigger] list[j]).shop_id@
            &&& forall|i: int, k: int|
                #![trigger list[i], shops[k]]
                0 <= i < list.len() && n <= k < shops.len() ==> list[i].shop_id@
                    != shops[k].shop_id@
        }),
    decreases n,
{
    if n > 0 {
        lemma_plan_names_shops_once(shops, tally, refund_fee, currency, n - 1);
        let before = shop_refunds(shops, tally, refund_fee, currency, n - 1)->Ok_0;
        let list = shop_refunds(shops, tally, refund_fee, currency, n)->Ok_0;
        assert forall|i: int, j: int| 0 <= i < j < list.len() implies (
        #[trigger] list[i]).shop_id@ != (#[trigger] list[j]).shop_id@ by {
            assert(list[i] == before[i]);
            if j < before.len() {
                assert(list[j] == before[j]);
            } else {
                assert(before[i].shop_id@ != shops[n - 1].shop_id@);
            }
        }
        assert forall|i: int, k: int|
            #![trigger list[i], shops[k]]
            0 <= i < list.len() && n <= k < shops.len() implies list[i].shop_id@
            != shops[k].shop_id@ by {
            if i < before.len() {
                assert(list[i] == before[i]);
            } else {
                assert(shops[n - 1].shop_id@ != shops[k].shop_id@);
            }
        }
    }
}

/// What a shop gives back to the shopper goes to the tenders that paid the shop, in
/// proportion to what each paid it and has not got back: each tender's part is less than
/// one minor unit away from the exact proportion and no more than the tender has left.
pub proof fn law_tenders_share_what_a_shop_gives_back(
    order: Order,
    request: RefundRequest,
    plan: RefundView,
    k: int,
    tender: int,
)
    requires
        refund(order, request) == Ok::<RefundView, ErrorView>(plan),
        distinct_shops(order),
        order.tenders@.len() <= usize::MAX,
        0 <= k < plan.shops.len(),
        plan.shops[k].customer_funded.minor > 0,
        0 <= tender < order.tenders@.len(),
    ensures
        ({
            let shop = plan.shops[k].shop_id@;
            let amount = plan.shops[k].customer_funded.minor;
            let part = sum(tender_parts(plan.tenders, tender, shop));
            let left = left_of_tender(order, tender, shop);
            let all = sum(left_of_tenders(order, shop));
            &&& 0 <= part <= left
            &&& -all < part * all - amount * left < all
        }),
{
    let shops = order.settlement.shops@;
    let tally = tallied(order, request)->Ok_0;
    lemma_plan_names_shops_once(
        shops,
        tally,
        request.refund_platform_fee,
        order.currency,
        shops.len() as int,
    );
    lemma_all_returns(order, plan.shops, plan.shops.len() as int);
    let slots = all_returns(order, plan.shops, plan.shops.len() as int)->Ok_0;
    lemma_return_list(
        order.tenders@,
        slots,
        slots.len() as int,
        tender,
        plan.shops[k].shop_id@,
    );
    assert(fair_return(
        order,
        plan.shops[k],
        tender,
        slot_part(slots[tender], plan.shops[k].shop_id@),
    ));
}

// Refunds of units.

/// What refunded lines return to the shopper, to funders, in tax and from the shop, for one
/// shop, line by line.
pub open spec fn line_parts(lines: Seq<RefundedLine>, shop: Seq<char>, figure: RefundedFigure) -> Seq<
    int,
> {
    lines.map_values(
        |line: RefundedLine|
            if line.shop_id@ == shop {
                figure_of(line, figure)
            } else {
                0
            },
    )
}

/// A figure of a shipping charge, in minor units.
pub open spec fn charge_figure(charge: PricedShipping, figure: RefundedFigure) -> int {
    match figure {
        RefundedFigure::Customer => charge.customer_total.minor as int,
        RefundedFigure::Subsidy => charge.subsidy_discount.minor as int,
        RefundedFigure::Tax => charge.tax.minor as int,
        RefundedFigure::Merchant => charge.merchant_gross.minor as int,
    }
}

/// What the shipping charges of a shop that are refunded come to, charge by charge.
pub open spec fn charge_parts(
    order: Order,
    lines: Seq<RefundedLine>,
    shop: Seq<char>,
    figure: RefundedFigure,
) -> Seq<int> {
    order.quote.shipping@.map_values(
        |charge: PricedShipping|
            if charge.shop_id@ == shop && charge_due_back(order, charge, lines) {
                charge_figure(charge, figure)
            } else {
                0
            },
    )
}

/// What a tally holds for a shop.
pub open spec fn tallied_figure(
    tally: Tally,
    shop: Seq<char>,
    figure: RefundedFigure,
    currency: Currency,
) -> int {
    amount_under(
        match figure {
            RefundedFigure::Customer => tally.customer,
            RefundedFigure::Subsidy => tally.subsidy,
            RefundedFigure::Tax => tally.tax,
            RefundedFigure::Merchant => tally.gross,
        },
        shop,
        currency,
    ).minor as int
}

proof fn lemma_after_lines(
    order: Order,
    requested: Option<Map<Seq<char>, u32>>,
    n: int,
    shop: Seq<char>,
    figure: RefundedFigure,
)
    requires
        0 <= n <= order.quote.lines@.len(),
        after_lines(order, requested, n) is Ok,
    ensures
        ({
            let tally = after_lines(order, requested, n)->Ok_0;
            &&& tallied_figure(tally, shop, figure, order.currency) == sum(
                line_parts(tally.lines, shop, figure),
            )
            &&& tally.shipping.len() == 0
        }),
    decreases n,
{
    let tally = after_lines(order, requested, n)->Ok_0;
    if n == 0 {
        assert(line_parts(tally.lines, shop, figure) =~= Seq::<int>::empty());
    } else {
        lemma_after_lines(order, requested, n - 1, shop, figure);
        let before = after_lines(order, requested, n - 1)->Ok_0;
        let line = order.quote.lines@[n - 1];
        if tally.lines.len() != before.lines.len() {
            let added = tally.lines.last();
            let part = if added.shop_id@ == shop {
                figure_of(added, figure)
            } else {
                0
            };
            assert(tally.lines == before.lines.push(added));
            assert(line_parts(tally.lines, shop, figure) =~= line_parts(
                before.lines,
                shop,
                figure,
            ).push(part));
            lemma_sum_push(line_parts(before.lines, shop, figure), part);
        } else {
            assert(tally == before);
        }
    }
}

proof fn lemma_after_charges(
    order: Order,
    from: Tally,
    n: int,
    shop: Seq<char>,
    figure: RefundedFigure,
)
    requires
        0 <= n <= order.quote.shipping@.len(),
        after_charges(order, from, n) is Ok,
    ensures
        ({
            let tally = after_charges(order, from, n)->Ok_0;
            &&& tally.lines == from.lines
            &&& tallied_figure(tally, shop, figure, order.currency) == tallied_figure(
                from,
                shop,
                figure,
                order.currency,
            ) + sum(charge_parts(order, from.lines, shop, figure).take(n))
        }),
    decreases n,
{
    let parts = charge_parts(order, from.lines, shop, figure);
    if n == 0 {
        assert(parts.take(0) =~= Seq::<int>::empty());
    } else {
        lemma_after_charges(order, from, n - 1, shop, figure);
        lemma_sum_take(parts, n - 1);
    }
}

/// What a refund of units takes back for a shop is what its refunded lines and its refunded
/// shipping charges come to: for the shopper, for the funders, in tax, and from the shop.
pub proof fn law_unit_refunds_are_their_lines_and_charges(
    order: Order,
    requested: Option<Map<Seq<char>, u32>>,
    refund_shipping: bool,
    shop: Seq<char>,
    figure: RefundedFigure,
)
    ensures
        units_tally(order, requested, refund_shipping) matches Ok(tally) ==> tallied_figure(
            tally,
            shop,
            figure,
            order.currency,
        ) == sum(line_parts(tally.lines, shop, figure)) + if refund_shipping {
            sum(charge_parts(order, tally.lines, shop, figure))
        } else {
            0
        },
{
    let n = order.quote.lines@.len() as int;
    let m = order.quote.shipping@.len() as int;
    if units_tally(order, requested, refund_shipping) is Ok {
        lemma_after_lines(order, requested, n, shop, figure);
        let from = after_lines(order, requested, n)->Ok_0;
        if refund_shipping {
            lemma_after_charges(order, from, m, shop, figure);
            let parts = charge_parts(order, from.lines, shop, figure);
            assert(parts.take(m) =~= parts);
        }
    }
}

/// What a refund of units returns to the shopper of a shop is what its refunded lines and
/// its refunded shipping charges come to.
pub proof fn law_shops_return_their_lines_and_charges(
    order: Order,
    request: RefundRequest,
    plan: RefundView,
    i: int,
)
    requires
        refund(order, request) == Ok::<RefundView, ErrorView>(plan),
        !(request.scope is Amount),
        distinct_shops(order),
        0 <= i < order.settlement.shops@.len(),
        forall|k: int|
            0 <= k < order.settlement.shops@.len() ==> tallied_figure(
                tallied(order, request)->Ok_0,
                (#[trigger] order.settlement.shops@[k]).shop_id@,
                RefundedFigure::Customer,
                order.currency,
            ) >= 0 && tallied_figure(
                tallied(order, request)->Ok_0,
                order.settlement.shops@[k].shop_id@,
                RefundedFigure::Subsidy,
                order.currency,
            ) >= 0,
    ensures
        ({
            let shop = order.settlement.shops@[i].shop_id@;
            sum(shopper_parts(plan.shops, shop)) == sum(
                line_parts(plan.lines, shop, RefundedFigure::Customer),
            ) + if request.refund_shipping {
                sum(charge_parts(order, plan.lines, shop, RefundedFigure::Customer))
            } else {
                0
            }
        }),
{
    let shops = order.settlement.shops@;
    let tally = tallied(order, request)->Ok_0;
    let requested = match request.scope {
        RefundScope::Lines { lines } => Some(requested_units(lines@, lines@.len() as int)),
        _ => None,
    };
    law_unit_refunds_are_their_lines_and_charges(
        order,
        requested,
        request.refund_shipping,
        shops[i].shop_id@,
        RefundedFigure::Customer,
    );
    assert forall|k: int| 0 <= k < shops.len() implies amount_under(
        tally.customer,
        (#[trigger] shops[k]).shop_id@,
        order.currency,
    ).minor >= 0 && amount_under(tally.subsidy, shops[k].shop_id@, order.currency).minor >= 0 by {
        assert(tallied_figure(
            tally,
            shops[k].shop_id@,
            RefundedFigure::Customer,
            order.currency,
        ) >= 0);
    }
    lemma_shop_refunds(
        shops,
        tally,
        request.refund_platform_fee,
        order.currency,
        shops.len() as int,
        i,
    );
}

/// A shipping charge is given back exactly once everything it shipped is back: it is more
/// than nothing, no earlier refund gave it back, and every line of the shipment is refunded
/// in full by earlier refunds and this one together.
pub proof fn law_charges_go_back_with_the_last_item(
    order: Order,
    charge: PricedShipping,
    now: Seq<RefundedLine>,
)
    ensures
        charge_due_back(order, charge, now) <==> {
            &&& charge.customer_total.minor != 0 || charge.merchant_gross.minor != 0
            &&& forall|r: int, g: int|
                0 <= r < order.refunds@.len() && 0 <= g
                    < order.refunds@[r].plan.shipping_groups@.len() ==> (
                #[trigger] order.refunds@[r].plan.shipping_groups@[g])@ != charge.group_id@
            &&& forall|k: int|
                0 <= k < order.quote.lines@.len() && (
                #[trigger] order.quote.lines@[k]).fulfillment_group_id is Some
                    && order.quote.lines@[k].fulfillment_group_id->0@ == charge.group_id@
                    ==> refunded_units(order.refunds@, order.quote.lines@[k].line_id@)
                    + line_units(now, order.quote.lines@[k].line_id@)
                    >= order.quote.lines@[k].quantity
        },
{
    let earlier = exists|i: int|
        0 <= i < order.refunds@.len() && lists_group(
            (#[trigger] order.refunds@[i]).plan.shipping_groups@,
            charge.group_id@,
        );
    if earlier {
        let r = choose|i: int|
            0 <= i < order.refunds@.len() && lists_group(
                (#[trigger] order.refunds@[i]).plan.shipping_groups@,
                charge.group_id@,
            );
        let groups = order.refunds@[r].plan.shipping_groups@;
        let g = choose|g: int| 0 <= g < groups.len() && (#[trigger] groups[g])@ == charge.group_id@;
        assert(order.refunds@[r].plan.shipping_groups@[g]@ == charge.group_id@);
    } else {
        assert forall|r: int, g: int|
            0 <= r < order.refunds@.len() && 0 <= g
                < order.refunds@[r].plan.shipping_groups@.len() implies (
        #[trigger] order.refunds@[r].plan.shipping_groups@[g])@ != charge.group_id@ by {
            if order.refunds@[r].plan.shipping_groups@[g]@ == charge.group_id@ {
                assert(lists_group(order.refunds@[r].plan.shipping_groups@, charge.group_id@));
            }
        }
    }
    assert(charge_refunded(order, charge.group_id@) == earlier);
    if shipment_returned(order, charge.group_id@, now) {
        assert forall|k: int|
            0 <= k < order.quote.lines@.len() && (
            #[trigger] order.quote.lines@[k]).fulfillment_group_id is Some
                && order.quote.lines@[k].fulfillment_group_id->0@ == charge.group_id@ implies refunded_units(
        order.refunds@, order.quote.lines@[k].line_id@) + line_units(
            now,
            order.quote.lines@[k].line_id@,
        ) >= order.quote.lines@[k].quantity by {
            assert(in_group(order.quote.lines@[k].fulfillment_group_id, charge.group_id@));
        }
    } else {
        let k = choose|k: int|
            0 <= k < order.quote.lines@.len() && in_group(
                (#[trigger] order.quote.lines@[k]).fulfillment_group_id,
                charge.group_id@,
            ) && !line_returned(order, order.quote.lines@[k], now);
        assert(order.quote.lines@[k].fulfillment_group_id is Some);
    }
}

proof fn lemma_wanted_units(
    order: Order,
    requested: Option<Map<Seq<char>, u32>>,
    n: int,
    k: int,
)
    requires
        0 <= n <= order.quote.lines@.len(),
        0 <= k < order.quote.lines@.len(),
        distinct_lines(order),
        after_lines(order, requested, n) is Ok,
    ensures
        ({
            let line = order.quote.lines@[k];
            let already = refunded_units(order.refunds@, line.line_id@);
            let left = if already >= line.quantity {
                0
            } else {
                line.quantity - already
            };
            let wanted = match requested {
                None => left,
                Some(map) => if map.contains_key(line.line_id@) {
                    map[line.line_id@] as int
                } else {
                    0
                },
            };
            let units = line_units(after_lines(order, requested, n)->Ok_0.lines, line.line_id@);
            &&& k < n ==> units == wanted && wanted <= left
            &&& k >= n ==> units == 0
        }),
    decreases n,
{
    if n > 0 {
        lemma_wanted_units(order, requested, n - 1, k);
        let before = after_lines(order, requested, n - 1)->Ok_0;
        let tally = after_lines(order, requested, n)->Ok_0;
        let last = order.quote.lines@[n - 1];
        if k < n - 1 {
            assert(order.quote.lines@[k].line_id@ != order.quote.lines@[n - 1].line_id@);
        } else if k > n - 1 {
            assert(order.quote.lines@[n - 1].line_id@ != order.quote.lines@[k].line_id@);
        }
        if tally.lines.len() != before.lines.len() {
            assert(tally.lines.drop_last() =~= before.lines);
        } else {
            assert(tally == before);
        }
    }
}

/// A full refund takes back every unit that is left of every line; a refund of lines takes
/// back the units that are asked for, and is refused where more are asked for than are left.
pub proof fn law_refunds_take_back_the_units_asked_for(
    order: Order,
    requested: Option<Map<Seq<char>, u32>>,
    refund_shipping: bool,
    k: int,
)
    requires
        0 <= k < order.quote.lines@.len(),
        distinct_lines(order),
        units_tally(order, requested, refund_shipping) is Ok,
    ensures
        ({
            let line = order.quote.lines@[k];
            let already = refunded_units(order.refunds@, line.line_id@);
            let now = line_units(
                units_tally(order, requested, refund_shipping)->Ok_0.lines,
                line.line_id@,
            );
            &&& requested is None && already <= line.quantity ==> already + now == line.quantity
            &&& requested matches Some(map) ==> {
                &&& map.contains_key(line.line_id@) ==> now == map[line.line_id@]
                &&& !map.contains_key(line.line_id@) ==> now == 0
            }
            &&& now > 0 ==> already + now <= line.quantity
        }),
{
    let n = order.quote.lines@.len() as int;
    lemma_wanted_units(order, requested, n, k);
    if refund_shipping {
        lemma_after_charges(
            order,
            after_lines(order, requested, n)->Ok_0,
            order.quote.shipping@.len() as int,
            order.quote.lines@[k].shop_id@,
            RefundedFigure::Customer,
        );
    }
}

/// A request for lines asks for the units it names; where it names a line twice the last
/// word counts.
pub proof fn law_requests_name_their_units(lines: Seq<RefundLineRequest>, k: int)
    requires
        0 <= k < lines.len(),
        forall|j: int| k < j < lines.len() ==> (#[trigger] lines[j]).line_id@ != lines[k].line_id@,
    ensures
        requested_units(lines, lines.len() as int).contains_key(lines[k].line_id@),
        requested_units(lines, lines.len() as int)[lines[k].line_id@] == lines[k].quantity,
{
    lemma_requested(lines, lines.len() as int, k);
}

proof fn lemma_requested(lines: Seq<RefundLineRequest>, n: int, k: int)
    requires
        0 <= k < n <= lines.len(),
        forall|j: int| k < j < lines.len() ==> (#[trigger] lines[j]).line_id@ != lines[k].line_id@,
    ensures
        requested_units(lines, n).contains_key(lines[k].line_id@),
        requested_units(lines, n)[lines[k].line_id@] == lines[k].quantity,
    decreases n,
{
    if k < n - 1 {
        lemma_requested(lines, n - 1, k);
        assert(lines[n - 1].line_id@ != lines[k].line_id@);
    }
}

// What funders get back.

/// What the discounts of a line that one funder pays for come to, discount by discount.
pub open spec fn paid_by(discounts: Seq<AppliedDiscount>, funder: Seq<char>) -> Seq<int> {
    discounts.map_values(
        |applied: AppliedDiscount|
            if applied.funding is Subsidy && applied.funding->funder@ == funder {
                applied.amount.minor as int
            } else {
                0
            },
    )
}

/// What the discounts of a line that anybody but the shop pays for come to.
pub open spec fn subsidy_amounts(discounts: Seq<AppliedDiscount>) -> Seq<int> {
    discounts.map_values(
        |applied: AppliedDiscount|
            if applied.funding is Subsidy {
                applied.amount.minor as int
            } else {
                0
            },
    )
}

/// How often a funder pays for a discount of a line.
pub open spec fn times_paid(discounts: Seq<AppliedDiscount>, funder: Seq<char>) -> Seq<int> {
    discounts.map_values(
        |applied: AppliedDiscount|
            if applied.funding is Subsidy && applied.funding->funder@ == funder {
                1
            } else {
                0
            },
    )
}

proof fn lemma_subsidised(discounts: Seq<AppliedDiscount>, funder: Seq<char>)
    ensures
        ({
            let paid = subsidised(discounts);
            &&& sum(minors(discounted_by(paid))) == sum(subsidy_amounts(discounts))
            &&& sum(paid_by(paid, funder)) == sum(paid_by(discounts, funder))
            &&& sum(times_paid(paid, funder)) == sum(times_paid(discounts, funder))
            &&& forall|k: int|
                0 <= k < paid.len() ==> (#[trigger] paid[k]).funding is Subsidy
        }),
    decreases discounts.len(),
{
    let paid = subsidised(discounts);
    if discounts.len() == 0 {
        assert(minors(discounted_by(paid)) =~= Seq::<int>::empty());
        assert(paid =~= discounts);
    } else {
        let rest = discounts.drop_last();
        let last = discounts.last();
        let before = subsidised(rest);
        lemma_subsidised(rest, funder);
        assert(subsidy_amounts(discounts).drop_last() =~= subsidy_amounts(rest));
        assert(paid_by(discounts, funder).drop_last() =~= paid_by(rest, funder));
        assert(times_paid(discounts, funder).drop_last() =~= times_paid(rest, funder));
        if last.funding is Subsidy {
            assert(minors(discounted_by(paid)) =~= minors(discounted_by(before)).push(
                last.amount.minor as int,
            ));
            lemma_sum_push(minors(discounted_by(before)), last.amount.minor as int);
            assert(paid_by(paid, funder).drop_last() =~= paid_by(before, funder));
            assert(times_paid(paid, funder).drop_last() =~= times_paid(before, funder));
        }
    }
}

proof fn lemma_credited(
    funders: Map<Seq<char>, Money>,
    paid: Seq<AppliedDiscount>,
    shares: Seq<Money>,
    currency: Currency,
    n: int,
    funder: Seq<char>,
    amount: int,
    all: int,
)
    requires
        0 <= n <= paid.len(),
        shares.len() == paid.len(),
        all > 0,
        forall|k: int| 0 <= k < paid.len() ==> (#[trigger] paid[k]).funding is Subsidy,
        forall|k: int|
            0 <= k < paid.len() ==> -all < (#[trigger] shares[k]).minor * all - amount
                * paid[k].amount.minor < all,
        credited(funders, paid, shares, currency, n) is Ok,
    ensures
        ({
            let after = credited(funders, paid, shares, currency, n)->Ok_0;
            let got = amount_under(after, funder, currency).minor - amount_under(
                funders,
                funder,
                currency,
            ).minor;
            let owed = sum(paid_by(paid, funder).take(n));
            let times = sum(times_paid(paid, funder).take(n));
            &&& -times * all <= got * all - amount * owed <= times * all
            &&& times == 0 ==> got == 0
            &&& times >= 0
        }),
    decreases n,
{
    let due = paid_by(paid, funder);
    let count = times_paid(paid, funder);
    if n == 0 {
        assert(due.take(0) =~= Seq::<int>::empty());
        assert(count.take(0) =~= Seq::<int>::empty());
        assert(0 * all == 0 && amount * 0 == 0) by (nonlinear_arith);
    } else {
        lemma_credited(funders, paid, shares, currency, n - 1, funder, amount, all);
        lemma_sum_take(due, n - 1);
        lemma_sum_take(count, n - 1);
        let before = credited(funders, paid, shares, currency, n - 1)->Ok_0;
        let got = amount_under(before, funder, currency).minor - amount_under(
            funders,
            funder,
            currency,
        ).minor;
        let owed = sum(due.take(n - 1));
        let times = sum(count.take(n - 1));
        let share = shares[n - 1].minor as int;
        let mine = paid[n - 1].amount.minor as int;
        assert(-all < shares[n - 1].minor * all - amount * paid[n - 1].amount.minor < all);
        if paid[n - 1].funding->funder@ == funder {
            assert(-(times + 1) * all <= (got + share) * all - amount * (owed + mine) <= (times + 1)
                * all) by (nonlinear_arith)
                requires
                    -times * all <= got * all - amount * owed <= times * all,
                    -all < share * all - amount * mine < all,
            ;
        } else {
            assert(owed + 0 == owed);
        }
    }
}

/// A reclaimed subsidy goes back to the funders that paid for it, in proportion to what
/// each paid: a funder's part is less than one minor unit away from the exact proportion
/// for each of its discounts, and a funder that paid nothing gets nothing.
pub proof fn law_subsidies_go_back_to_their_funders(
    funders: Map<Seq<char>, Money>,
    discounts: Seq<AppliedDiscount>,
    subsidy: Money,
    currency: Currency,
    funder: Seq<char>,
)
    requires
        subsidy.minor > 0,
        sum(subsidy_amounts(discounts)) > 0,
    ensures
        reclaimed(funders, discounts, subsidy, currency) matches Ok(after) ==> {
            let got = amount_under(after, funder, currency).minor - amount_under(
                funders,
                funder,
                currency,
            ).minor;
            let all = sum(subsidy_amounts(discounts));
            let times = sum(times_paid(discounts, funder));
            &&& -times * all <= got * all - subsidy.minor * sum(paid_by(discounts, funder))
                <= times * all
            &&& times == 0 ==> got == 0
        },
{
    if reclaimed(funders, discounts, subsidy, currency) is Ok {
        let paid = subsidised(discounts);
        let weights = discounted_by(paid);
        let all = sum(subsidy_amounts(discounts));
        lemma_subsidised(discounts, funder);
        law_good_weights(subsidy, weights);
        if weights.len() == 0 {
            assert(minors(weights) =~= Seq::<int>::empty());
        }
        law_allocation_succeeds(subsidy, minors(weights));
        law_parts_sum_to_the_whole(subsidy.minor as int, minors(weights));
        let shares = weighted_allocation(subsidy, weights)->Ok_0;
        assert forall|k: int| 0 <= k < paid.len() implies -all < (#[trigger] shares[k]).minor * all
            - subsidy.minor * paid[k].amount.minor < all by {
            law_parts_are_proportional(subsidy.minor as int, minors(weights), k);
            let part = parts_of(subsidy.minor as int, minors(weights))[k];
            assert(0 <= part <= subsidy.minor);
            assert(shares[k].minor == part);
            assert(minors(weights)[k] == weights[k].minor);
        }
        lemma_credited(
            funders,
            paid,
            shares,
            currency,
            paid.len() as int,
            funder,
            subsidy.minor as int,
            all,
        );
        assert(paid_by(paid, funder).take(paid.len() as int) =~= paid_by(paid, funder));
        assert(times_paid(paid, funder).take(paid.len() as int) =~= times_paid(paid, funder));
    }
}

/// When a shipping charge goes back, each funder gets back all it paid towards it: one more
/// promotion adds its amount to its funder, and one that the shop gave adds nothing.
pub proof fn law_charges_go_back_to_their_funders(
    funders: Map<Seq<char>, Money>,
    discounts: Seq<AppliedDiscount>,
    currency: Currency,
    n: int,
    other: Seq<char>,
)
    requires
        0 <= n < discounts.len(),
        credited_whole(funders, discounts, currency, n + 1) is Ok,
    ensures
        ({
            let before = credited_whole(funders, discounts, currency, n);
            let after = credited_whole(funders, discounts, currency, n + 1);
            let payer = discounts[n].funding.payer();
            &&& before is Ok
            &&& payer is None ==> after == before
            &&& payer is Some ==> {
                let funder = payer->Some_0@;
                &&& after->Ok_0.contains_key(funder)
                &&& after->Ok_0[funder].minor == discounts[n].amount.minor
                    + if before->Ok_0.contains_key(funder) {
                    before->Ok_0[funder].minor as int
                } else {
                    0
                }
                &&& other != funder ==> after->Ok_0.contains_key(other)
                    == before->Ok_0.contains_key(other) && after->Ok_0[other]
                    == before->Ok_0[other]
            }
        }),
        credited_whole(funders, discounts, currency, 0) == Ok::<
            Map<Seq<char>, Money>,
            ErrorView,
        >(funders),
{
}

/// Any two units of a line are worth the same, to a minor unit.
pub proof fn law_units_of_a_line_are_worth_the_same(amount: int, units: nat, i: int, j: int)
    requires
        0 <= i < units,
        0 <= j < units,
    ensures
        -1 <= unit_sum(amount, units, i, i + 1) - unit_sum(amount, units, j, j + 1) <= 1,
{
    let parts = parts_of(amount, even_weights(units));
    law_equal_weights_differ_by_at_most_one(amount, even_weights(units), i, j);
    lemma_one_unit(parts, i);
    lemma_one_unit(parts, j);
}

proof fn lemma_one_unit(parts: Seq<int>, i: int)
    requires
        0 <= i < parts.len(),
    ensures
        sum(parts.subrange(i, i + 1)) == parts[i],
{
    let one = parts.subrange(i, i + 1);
    assert(one.drop_last() =~= Seq::<int>::empty());
    reveal_with_fuel(sum, 2);
}

/// The totals of a refund are the sums of its parts: what goes back to the shopper of all
/// shops and to all tenders, the tax of all shops, and what all funders get back.
pub proof fn law_refund_totals_are_sums(order: Order, request: RefundRequest)
    requires
        refund(order, request) is Ok,
    ensures
        ({
            let plan = refund(order, request)->Ok_0;
            &&& plan.total.minor == sum(
                plan.shops.map_values(|shop: ShopRefund| shop.customer_funded.minor as int),
            )
            &&& plan.total.minor == sum(
                plan.tenders.map_values(|tender: ReturnView| tender.amount.minor as int),
            )
            &&& plan.tax_refunded.minor == sum(
                plan.shops.map_values(|shop: ShopRefund| shop.tax.minor as int),
            )
            &&& plan.subsidy_reclaimed.minor == sum(
                plan.funders.map_values(|funder: ReclaimView| funder.amount.minor as int),
            )
            &&& 0 < plan.total.minor
            &&& plan.currency == order.currency
        }),
{
    let plan = refund(order, request)->Ok_0;
    let currency = order.currency;
    law_total_is_the_sum(refunded_amounts(plan.shops), currency);
    law_total_is_the_sum(return_amounts(plan.tenders), currency);
    law_total_is_the_sum(refunded_taxes(plan.shops), currency);
    law_total_is_the_sum(reclaim_amounts(plan.funders), currency);
    assert(minors(refunded_amounts(plan.shops)) =~= plan.shops.map_values(
        |shop: ShopRefund| shop.customer_funded.minor as int,
    ));
    assert(minors(return_amounts(plan.tenders)) =~= plan.tenders.map_values(
        |tender: ReturnView| tender.amount.minor as int,
    ));
    assert(minors(refunded_taxes(plan.shops)) =~= plan.shops.map_values(
        |shop: ShopRefund| shop.tax.minor as int,
    ));
    assert(minors(reclaim_amounts(plan.funders)) =~= plan.funders.map_values(
        |funder: ReclaimView| funder.amount.minor as int,
    ));
}

/// Every funder that is owed something is listed with what it is owed, and no other is.
pub proof fn law_owed_funders_are_listed(funders: Map<Seq<char>, Money>, n: int)
    requires
        0 <= n < listed(funders).len(),
    ensures
        ({
            let funder = listed(funders)[n];
            &&& funders[funder].minor > 0 ==> reclaim_list(funders, n + 1) == reclaim_list(
                funders,
                n,
            ).push(ReclaimView { funder, amount: funders[funder] })
            &&& funders[funder].minor <= 0 ==> reclaim_list(funders, n + 1) == reclaim_list(
                funders,
                n,
            )
        }),
        reclaim_list(funders, 0) == Seq::<ReclaimView>::empty(),
{
}

/// Every tender that gives something back is listed with what it gives back, to whom, and
/// no other is.
pub proof fn law_returning_tenders_are_listed(
    tenders: Seq<PlannedTender>,
    slots: Seq<Option<Returned>>,
    n: int,
)
    requires
        0 <= n < slots.len(),
        n <= usize::MAX,
    ensures
        slots[n] is None ==> return_list(tenders, slots, n + 1) == return_list(tenders, slots, n),
        slots[n] is Some ==> ({
            let list = return_list(tenders, slots, n + 1);
            &&& list.drop_last() == return_list(tenders, slots, n)
            &&& list.len() > 0
            &&& list.last().tender_index == n
            &&& list.last().kind == tenders[n].kind
            &&& list.last().amount == slots[n]->Some_0.amount
            &&& list.last().shop_allocation == slots[n]->Some_0.shops
        }),
        return_list(tenders, slots, 0) == Seq::<ReturnView>::empty(),
{
    if slots[n] is Some {
        assert(return_list(tenders, slots, n + 1).drop_last() =~= return_list(tenders, slots, n));
    }
}

proof fn lemma_lines_refund_no_charges(
    order: Order,
    requested: Option<Map<Seq<char>, u32>>,
    n: int,
)
    requires
        0 <= n <= order.quote.lines@.len(),
        after_lines(order, requested, n) is Ok,
    ensures
        after_lines(order, requested, n)->Ok_0.shipping.len() == 0,
    decreases n,
{
    if n > 0 {
        lemma_lines_refund_no_charges(order, requested, n - 1);
    }
}

/// Shipping charges go back only where that is asked for, and never with a flat amount.
pub proof fn law_charges_go_back_only_when_asked_for(order: Order, request: RefundRequest)
    requires
        refund(order, request) is Ok,
        !request.refund_shipping || request.scope is Amount,
    ensures
        refund(order, request)->Ok_0.shipping_groups.len() == 0,
{
    let n = order.quote.lines@.len() as int;
    match request.scope {
        RefundScope::Full => {
            lemma_lines_refund_no_charges(order, None, n);
        },
        RefundScope::Lines { lines } => {
            let wanted = requested_units(lines@, lines@.len() as int);
            lemma_lines_refund_no_charges(order, Some(wanted), n);
        },
        RefundScope::Amount { amount } => {
            lemma_shares_refund_no_charges(
                order.settlement.shops@,
                weighted_allocation(amount, shop_weights(order))->Ok_0,
                order.currency,
                order.settlement.shops@.len() as int,
            );
        },
    }
}

proof fn lemma_shares_refund_no_charges(
    shops: Seq<ShopSettlement>,
    shares: Seq<Money>,
    currency: Currency,
    n: int,
)
    requires
        after_shares(shops, shares, currency, n) is Ok,
    ensures
        after_shares(shops, shares, currency, n)->Ok_0.shipping.len() == 0,
        after_shares(shops, shares, currency, n)->Ok_0.lines.len() == 0,
    decreases n,
{
    if n > 0 {
        lemma_shares_refund_no_charges(shops, shares, currency, n - 1);
    }
}

} // verus!
