//! How one gateway charge is split between the shops it pays and the platform.

use vstd::prelude::*;

use crate::error::{outcome, Error, ErrorView};
use crate::folds::lemma_error_stays;
use crate::gateway::TransferInstruction;
use crate::ids::ShopId;
use crate::money::allocation::{
    law_allocation_succeeds, law_good_weights, law_parts_are_proportional,
    law_parts_stay_within_their_weights, law_parts_sum_to_the_whole, parts_of,
    weighted_allocation,
};
use crate::money::{
    allocate_by_weights, law_scaling_is_proportional, minors, Money, Rounding,
};
use crate::order::Order;
use crate::payment::split::{lemma_settlement_index, settlement_index, ShopSettlement};
use crate::sums::{lemma_sum_push, lemma_sum_take, sum};
use crate::text::{join, join3, optional_text};

verus! {

/// What the shopper pays for each shop.
pub open spec fn funded_weights(shops: Seq<ShopSettlement>) -> Seq<Money> {
    shops.map_values(|shop: ShopSettlement| shop.funded_by_customer)
}

/// A shop's share of a charge: in proportion to what the shopper pays for each shop.
pub open spec fn share_of(order: Order, shop: Seq<char>, amount: Money) -> Result<Money, ErrorView> {
    let shops = order.settlement.shops@;
    match weighted_allocation(amount, funded_weights(shops)) {
        Err(error) => Err(error),
        Ok(shares) => {
            let at = settlement_index(shops, shop);
            if 0 <= at < shops.len() && at < shares.len() {
                Ok(shares[at])
            } else {
                Ok(Money { minor: 0, currency: order.currency })
            }
        },
    }
}

/// The platform's fee on a shop's share of a charge.
pub open spec fn fee_of(order: Order, shop: Seq<char>, amount: Money) -> Result<Money, ErrorView> {
    let shops = order.settlement.shops@;
    let at = settlement_index(shops, shop);
    let nothing = Money { minor: 0, currency: order.currency };
    if at >= shops.len() || shops[at].gross.minor <= 0 || shops[at].platform_fee.minor <= 0 {
        Ok(nothing)
    } else {
        match share_of(order, shop, amount) {
            Err(error) => Err(error),
            Ok(share) => shops[at].platform_fee.scaled(
                share.minor as int,
                if shops[at].funded_by_customer.minor > 1 {
                    shops[at].funded_by_customer.minor as int
                } else {
                    1
                },
                Rounding::HalfUp,
            ),
        }
    }
}

/// The platform's fee on the first `n` shops' shares of a charge.
pub open spec fn fees_of(order: Order, amount: Money, n: int) -> Result<Money, ErrorView>
    decreases n,
{
    if n <= 0 {
        Ok(Money { minor: 0, currency: order.currency })
    } else {
        match fees_of(order, amount, n - 1) {
            Err(error) => Err(error),
            Ok(before) => match fee_of(
                order,
                order.settlement.shops@[n - 1].shop_id@,
                amount,
            ) {
                Err(error) => Err(error),
                Ok(fee) => before.plus(fee),
            },
        }
    }
}

/// An instruction to route part of a charge, its texts as sequences.
pub ghost struct TransferView {
    /// Destination connected account.
    pub destination: Seq<char>,
    /// Amount to route.
    pub amount: Money,
    /// Appears on the recipient's statement.
    pub description: Option<Seq<char>>,
    /// Groups related transfers.
    pub transfer_group: Option<Seq<char>>,
}

impl View for TransferInstruction {
    type V = TransferView;

    open spec fn view(&self) -> TransferView {
        TransferView {
            destination: self.destination@,
            amount: self.amount,
            description: optional_text(self.description),
            transfer_group: optional_text(self.transfer_group),
        }
    }
}

/// The views of a list of instructions.
pub open spec fn transfer_views(list: Seq<TransferInstruction>) -> Seq<TransferView> {
    list.map_values(|transfer: TransferInstruction| transfer@)
}

/// Instructions, or the error in their place.
pub open spec fn transfers_outcome(list: Result<Vec<TransferInstruction>, Error>) -> Result<
    Seq<TransferView>,
    ErrorView,
> {
    match list {
        Ok(made) => Ok(transfer_views(made@)),
        Err(error) => Err(error@),
    }
}

/// What a shop is left of its share of a charge after the platform's fee.
pub open spec fn net_of(order: Order, shop: Seq<char>, amount: Money) -> Result<Money, ErrorView> {
    match share_of(order, shop, amount) {
        Err(error) => Err(error),
        Ok(share) => match fee_of(order, shop, amount) {
            Err(error) => Err(error),
            Ok(fee) => share.minus(fee),
        },
    }
}

/// The instruction that routes an amount to a shop.
pub open spec fn transfer_to(order: Order, shop: ShopSettlement, net: Money) -> TransferView {
    TransferView {
        destination: shop.account_id@,
        amount: net,
        description: Some("Order "@ + order.id@ + " — "@ + shop.shop_id@),
        transfer_group: Some(order.id@),
    }
}

/// The instructions that route the first `n` shops' parts of a charge.
pub open spec fn transfers_of(order: Order, amount: Money, n: int) -> Result<
    Seq<TransferView>,
    ErrorView,
>
    decreases n,
{
    if n <= 0 {
        Ok(Seq::empty())
    } else {
        let shop = order.settlement.shops@[n - 1];
        match transfers_of(order, amount, n - 1) {
            Err(error) => Err(error),
            Ok(before) => match net_of(order, shop.shop_id@, amount) {
                Err(error) => Err(error),
                Ok(net) => if net.minor > 0 {
                    Ok(before.push(transfer_to(order, shop, net)))
                } else {
                    Ok(before)
                },
            },
        }
    }
}

/// A shop's share of a charge.
pub fn shop_share(order: &Order, shop_id: &ShopId, amount: Money) -> (share: Result<Money, Error>)
    ensures
        outcome(share) == share_of(*order, shop_id@, amount),
{
    let ghost shops = order.settlement.shops@;
    let mut weights: Vec<Money> = Vec::new();
    let mut n: usize = 0;
    while n < order.settlement.shops.len()
        invariant
            shops == order.settlement.shops@,
            n <= shops.len(),
            weights@ == funded_weights(shops).take(n as int),
        decreases shops.len() - n,
    {
        weights.push(order.settlement.shops[n].funded_by_customer);
        n += 1;
        assert(weights@ =~= funded_weights(shops).take(n as int));
    }
    assert(weights@ =~= funded_weights(shops));
    let shares = match allocate_by_weights(amount, weights.as_slice()) {
        Ok(shares) => shares,
        Err(error) => return Err(error),
    };
    let mut at: usize = 0;
    while at < order.settlement.shops.len() && !order.settlement.shops[at].shop_id.same(shop_id)
        invariant
            shops == order.settlement.shops@,
            at <= shops.len(),
            forall|i: int| 0 <= i < at ==> (#[trigger] shops[i]).shop_id@ != shop_id@,
        ensures
            at < shops.len() ==> shops[at as int].shop_id@ == shop_id@,
        decreases shops.len() - at,
    {
        at += 1;
    }
    proof {
        lemma_settlement_index(shops, shop_id@, at as int);
    }
    if at < order.settlement.shops.len() && at < shares.len() {
        Ok(shares[at])
    } else {
        Ok(Money::zero(order.currency))
    }
}

/// The platform's fee on a shop's share of a charge.
pub fn fee_share(order: &Order, shop_id: &ShopId, amount: Money) -> (fee: Result<Money, Error>)
    ensures
        outcome(fee) == fee_of(*order, shop_id@, amount),
{
    let settlement = match order.settlement.shop(shop_id) {
        Some(settlement) => settlement,
        None => return Ok(Money::zero(order.currency)),
    };
    if !settlement.gross.is_positive() || !settlement.platform_fee.is_positive() {
        return Ok(Money::zero(order.currency));
    }
    let share = match shop_share(order, shop_id, amount) {
        Ok(share) => share,
        Err(error) => return Err(error),
    };
    let funded: i64 = settlement.funded_by_customer.minor();
    let base: i64 = if funded > 1 {
        funded
    } else {
        1
    };
    settlement.platform_fee.mul_ratio(share.minor(), base, Rounding::HalfUp)
}

/// The platform's fee on a charge.
pub fn fee_for(order: &Order, amount: Money) -> (fee: Result<Money, Error>)
    ensures
        outcome(fee) == fees_of(*order, amount, order.settlement.shops@.len() as int),
{
    let mut sum = Money::zero(order.currency);
    let mut n: usize = 0;
    while n < order.settlement.shops.len()
        invariant
            n <= order.settlement.shops@.len(),
            fees_of(*order, amount, n as int) == Ok::<Money, ErrorView>(sum),
        decreases order.settlement.shops@.len() - n,
    {
        proof {
            if fees_of(*order, amount, n + 1) is Err {
                lemma_error_stays(
                    |k: int| fees_of(*order, amount, k),
                    n + 1,
                    order.settlement.shops@.len() as int,
                );
            }
        }
        let fee = match fee_share(order, &order.settlement.shops[n].shop_id, amount) {
            Ok(fee) => fee,
            Err(error) => return Err(error),
        };
        sum = match sum.try_add(fee) {
            Ok(sum) => sum,
            Err(error) => return Err(error),
        };
        n += 1;
    }
    Ok(sum)
}

/// Split one gateway charge across the connected accounts of the shops it
/// funds, proportionally to what each shop is owed.
pub fn transfers_for(order: &Order, amount: Money) -> (transfers: Result<
    Vec<TransferInstruction>,
    Error,
>)
    ensures
        transfers_outcome(transfers) == transfers_of(
            *order,
            amount,
            order.settlement.shops@.len() as int,
        ),
{
    let mut transfers: Vec<TransferInstruction> = Vec::new();
    let mut n: usize = 0;
    assert(transfer_views(transfers@) =~= Seq::<TransferView>::empty());
    while n < order.settlement.shops.len()
        invariant
            n <= order.settlement.shops@.len(),
            transfers_of(*order, amount, n as int) == Ok::<Seq<TransferView>, ErrorView>(
                transfer_views(transfers@),
            ),
        decreases order.settlement.shops@.len() - n,
    {
        proof {
            if transfers_of(*order, amount, n + 1) is Err {
                lemma_error_stays(
                    |k: int| transfers_of(*order, amount, k),
                    n + 1,
                    order.settlement.shops@.len() as int,
                );
            }
        }
        let shop = &order.settlement.shops[n];
        let share = match shop_share(order, &shop.shop_id, amount) {
            Ok(share) => share,
            Err(error) => return Err(error),
        };
        let fee = match fee_share(order, &shop.shop_id, amount) {
            Ok(fee) => fee,
            Err(error) => return Err(error),
        };
        let net = match share.try_sub(fee) {
            Ok(net) => net,
            Err(error) => return Err(error),
        };
        if net.is_positive() {
            let ghost before = transfer_views(transfers@);
            let heading = join3("Order ", order.id.as_str(), " — ");
            let transfer = TransferInstruction {
                destination: shop.account_id.clone(),
                amount: net,
                description: Some(join(heading.as_str(), shop.shop_id.as_str())),
                transfer_group: Some(order.id.to_text()),
            };
            let ghost view = transfer@;
            transfers.push(transfer);
            assert(transfer_views(transfers@) =~= before.push(view));
        }
        n += 1;
    }
    Ok(transfers)
}

/// Whether no shop is settled twice.
pub open spec fn distinct_shops(order: Order) -> bool {
    let shops = order.settlement.shops@;
    forall|i: int, j: int|
        0 <= i < j < shops.len() ==> (#[trigger] shops[i]).shop_id@ != (
        #[trigger] shops[j]).shop_id@
}

/// The shops' shares of a charge add up to the charge, to the last minor unit.
pub proof fn law_shares_sum_to_the_charge(order: Order, amount: Money)
    requires
        distinct_shops(order),
        order.settlement.shops@.len() > 0,
        weighted_allocation(amount, funded_weights(order.settlement.shops@)) is Ok,
    ensures
        ({
            let shops = order.settlement.shops@;
            let shares = weighted_allocation(amount, funded_weights(shops))->Ok_0;
            &&& shares.len() == shops.len()
            &&& sum(minors(shares)) == amount.minor
            &&& forall|i: int|
                0 <= i < shops.len() ==> share_of(order, (#[trigger] shops[i]).shop_id@, amount)
                    == Ok::<Money, ErrorView>(shares[i])
        }),
{
    let shops = order.settlement.shops@;
    let weights = funded_weights(shops);
    law_good_weights(amount, weights);
    law_allocation_succeeds(amount, minors(weights));
    let shares = weighted_allocation(amount, weights)->Ok_0;
    assert forall|i: int| 0 <= i < shops.len() implies share_of(
        order,
        (#[trigger] shops[i]).shop_id@,
        amount,
    ) == Ok::<Money, ErrorView>(shares[i]) by {
        lemma_settlement_index(shops, shops[i].shop_id@, i);
    }
}

/// The amounts of a list of instructions, in minor units.
pub open spec fn transfer_minors(list: Seq<TransferView>) -> Seq<int> {
    list.map_values(|transfer: TransferView| transfer.amount.minor as int)
}

proof fn lemma_parts_add_up(order: Order, amount: Money, shares: Seq<Money>, n: int)
    requires
        0 <= n <= order.settlement.shops@.len(),
        shares.len() == order.settlement.shops@.len(),
        forall|i: int|
            0 <= i < shares.len() ==> share_of(
                order,
                (#[trigger] order.settlement.shops@[i]).shop_id@,
                amount,
            ) == Ok::<Money, ErrorView>(shares[i]),
        forall|i: int|
            0 <= i < shares.len() ==> (fee_of(
                order,
                (#[trigger] order.settlement.shops@[i]).shop_id@,
                amount,
            ) matches Ok(fee) && fee.minor <= shares[i].minor),
        transfers_of(order, amount, n) is Ok,
        fees_of(order, amount, n) is Ok,
    ensures
        sum(transfer_minors(transfers_of(order, amount, n)->Ok_0)) + fees_of(
            order,
            amount,
            n,
        )->Ok_0.minor == sum(minors(shares).take(n)),
    decreases n,
{
    if n == 0 {
        assert(transfer_minors(Seq::<TransferView>::empty()) =~= Seq::<int>::empty());
        assert(minors(shares).take(0) =~= Seq::<int>::empty());
    } else {
        lemma_parts_add_up(order, amount, shares, n - 1);
        lemma_sum_take(minors(shares), n - 1);
        let shop = order.settlement.shops@[n - 1];
        let before = transfers_of(order, amount, n - 1)->Ok_0;
        let net = net_of(order, shop.shop_id@, amount)->Ok_0;
        assert(share_of(order, shop.shop_id@, amount) == Ok::<Money, ErrorView>(shares[n - 1]));
        if net.minor > 0 {
            assert(transfer_minors(before.push(transfer_to(order, shop, net)))
                =~= transfer_minors(before).push(net.minor as int));
            lemma_sum_push(transfer_minors(before), net.minor as int);
        }
    }
}

/// What is routed to the shops and what the platform keeps add up to the charge, when no
/// fee is more than the share it is taken from.
pub proof fn law_transfers_and_fees_add_up(order: Order, amount: Money)
    requires
        distinct_shops(order),
        order.settlement.shops@.len() > 0,
        transfers_of(order, amount, order.settlement.shops@.len() as int) is Ok,
        fees_of(order, amount, order.settlement.shops@.len() as int) is Ok,
        forall|i: int|
            0 <= i < order.settlement.shops@.len() ==> (net_of(
                order,
                (#[trigger] order.settlement.shops@[i]).shop_id@,
                amount,
            ) matches Ok(net) && net.minor >= 0),
    ensures
        sum(
            transfer_minors(
                transfers_of(order, amount, order.settlement.shops@.len() as int)->Ok_0,
            ),
        ) + fees_of(order, amount, order.settlement.shops@.len() as int)->Ok_0.minor
            == amount.minor,
{
    let shops = order.settlement.shops@;
    assert(net_of(order, shops[0].shop_id@, amount) is Ok);
    law_shares_sum_to_the_charge(order, amount);
    let shares = weighted_allocation(amount, funded_weights(shops))->Ok_0;
    assert forall|i: int| 0 <= i < shares.len() implies fee_of(
        order,
        (#[trigger] shops[i]).shop_id@,
        amount,
    ) matches Ok(fee) && fee.minor <= shares[i].minor by {
        assert(net_of(order, shops[i].shop_id@, amount) is Ok);
    }
    lemma_parts_add_up(order, amount, shares, shops.len() as int);
    assert(minors(shares).take(shops.len() as int) =~= minors(shares));
}

/// What the shopper funds for each shop of an order, in minor units.
pub open spec fn funded_minors(order: Order) -> Seq<int> {
    order.settlement.shops@.map_values(
        |shop: ShopSettlement| shop.funded_by_customer.minor as int,
    )
}

/// Whether what the shopper funds for the shops of an order is something, nowhere less than
/// nothing, and all in one currency.
pub open spec fn funds_shops(order: Order, amount: Money) -> bool {
    let shops = order.settlement.shops@;
    &&& sum(funded_minors(order)) > 0
    &&& forall|k: int|
        0 <= k < shops.len() ==> (#[trigger] shops[k]).funded_by_customer.currency
            == amount.currency && shops[k].funded_by_customer.minor >= 0
}

/// A charge is shared in proportion to what the shopper funds for each shop: a share is
/// less than one minor unit away from the exact proportion, a charge of no more than the
/// shopper funds takes from no shop more than its part of that, and a charge of everything
/// gives each shop all that is funded for it.
pub proof fn law_charges_are_shared_by_funding(order: Order, amount: Money, i: int)
    requires
        distinct_shops(order),
        funds_shops(order, amount),
        0 <= i < order.settlement.shops@.len(),
    ensures
        ({
            let shop = order.settlement.shops@[i];
            let funded = shop.funded_by_customer.minor;
            let all = sum(funded_minors(order));
            share_of(order, shop.shop_id@, amount) matches Ok(share) && {
                &&& share.currency == amount.currency
                &&& -all < share.minor * all - amount.minor * funded < all
                &&& 0 <= amount.minor <= all ==> 0 <= share.minor <= funded
                &&& amount.minor == all ==> share.minor == funded
                &&& order.settlement.shops@.len() == 1 ==> share == amount
            }
        }),
{
    let shops = order.settlement.shops@;
    let weights = funded_weights(shops);
    let plain = funded_minors(order);
    assert(minors(weights) =~= plain);
    assert forall|k: int| 0 <= k < weights.len() implies (#[trigger] weights[k]).currency
        == amount.currency by {
        assert(weights[k] == shops[k].funded_by_customer);
    }
    assert forall|k: int| 0 <= k < plain.len() implies #[trigger] plain[k] >= 0 by {
        assert(shops[k].funded_by_customer.minor >= 0);
    }
    law_good_weights(amount, weights);
    law_allocation_succeeds(amount, plain);
    law_shares_sum_to_the_charge(order, amount);
    law_parts_are_proportional(amount.minor as int, plain, i);
    law_parts_sum_to_the_whole(amount.minor as int, plain);
    let part = parts_of(amount.minor as int, plain)[i];
    assert(i64::MIN <= part <= i64::MAX);
    let shares = weighted_allocation(amount, weights)->Ok_0;
    assert(share_of(order, shops[i].shop_id@, amount) == Ok::<Money, ErrorView>(shares[i]));
    assert(shares[i].minor == part);
    let all = sum(plain);
    let funded = shops[i].funded_by_customer.minor as int;
    if 0 <= amount.minor <= all {
        law_parts_stay_within_their_weights(amount.minor as int, plain, i);
    }
    if amount.minor == all {
        assert(part == funded) by (nonlinear_arith)
            requires
                -all < part * all - all * funded < all,
                all > 0,
        ;
    }
    if shops.len() == 1 {
        assert(minors(shares).drop_last() =~= Seq::<int>::empty());
        assert(sum(minors(shares).drop_last()) == 0);
        assert(minors(shares)[0] == shares[0].minor);
    }
}

/// The fee on a charge is the settlement fee times the shop's share of the charge over what
/// the shopper funds for the shop, rounded half up. A shop that is owed nothing, or that is
/// charged no fee, pays none.
pub proof fn law_fees_follow_the_share(order: Order, amount: Money, i: int)
    requires
        distinct_shops(order),
        funds_shops(order, amount),
        0 <= i < order.settlement.shops@.len(),
        0 <= amount.minor <= sum(funded_minors(order)),
    ensures
        ({
            let shop = order.settlement.shops@[i];
            let funded = shop.funded_by_customer.minor;
            let share = share_of(order, shop.shop_id@, amount)->Ok_0;
            fee_of(order, shop.shop_id@, amount) matches Ok(fee) && {
                &&& shop.gross.minor <= 0 || shop.platform_fee.minor <= 0 ==> fee.minor == 0
                &&& shop.gross.minor > 0 && shop.platform_fee.minor > 0 && funded > 0 ==> {
                    let off = fee.minor * funded - shop.platform_fee.minor * share.minor;
                    &&& fee.currency == shop.platform_fee.currency
                    &&& -funded <= 2 * off <= funded
                    &&& 0 <= fee.minor <= shop.platform_fee.minor
                    &&& share.minor == funded ==> fee == shop.platform_fee
                    &&& share.minor == 0 ==> fee.minor == 0
                }
            }
        }),
{
    let shops = order.settlement.shops@;
    let shop = shops[i];
    lemma_settlement_index(shops, shop.shop_id@, i);
    law_charges_are_shared_by_funding(order, amount, i);
    let funded = shop.funded_by_customer.minor as int;
    let share = share_of(order, shop.shop_id@, amount)->Ok_0;
    let base = if funded > 1 {
        funded
    } else {
        1
    };
    let fee = shop.platform_fee.minor as int;
    law_scaling_is_proportional(shop.platform_fee, share.minor as int, base, Rounding::HalfUp);
    if fee > 0 {
        let part = share.minor as int;
        assert(i64::MIN * base <= fee * part <= fee * base && 0 <= fee * part && fee * base
            <= i64::MAX * base) by (nonlinear_arith)
            requires
                0 < fee <= i64::MAX,
                0 <= part <= base,
                base > 0,
        ;
        if funded > 0 {
            let taken = shop.platform_fee.scaled(part, base, Rounding::HalfUp)->Ok_0.minor as int;
            assert(0 <= taken <= fee) by (nonlinear_arith)
                requires
                    -base <= 2 * (taken * base - fee * part) <= base,
                    0 <= fee * part <= fee * base,
                    base > 0,
            ;
            if part == funded {
                assert(taken == fee) by (nonlinear_arith)
                    requires
                        -base <= 2 * (taken * base - fee * base) <= base,
                        base > 0,
                ;
            }
            if part == 0 {
                assert(taken == 0) by (nonlinear_arith)
                    requires
                        -base <= 2 * (taken * base - fee * 0) <= base,
                        base > 0,
                ;
            }
        }
    }
}

/// The fees of two charges that together cover the order come to the settlement fee of each
/// shop, within a minor unit each.
pub proof fn law_part_charges_pay_the_fee_once(order: Order, first: Money, second: Money, i: int)
    requires
        distinct_shops(order),
        funds_shops(order, first),
        second.currency == first.currency,
        first.minor >= 0,
        second.minor >= 0,
        first.minor + second.minor == sum(funded_minors(order)),
        0 <= i < order.settlement.shops@.len(),
        order.settlement.shops@[i].gross.minor > 0,
        0 < order.settlement.shops@[i].platform_fee.minor
            <= order.settlement.shops@[i].funded_by_customer.minor,
    ensures
        ({
            let shop = order.settlement.shops@[i];
            let one = fee_of(order, shop.shop_id@, first)->Ok_0;
            let two = fee_of(order, shop.shop_id@, second)->Ok_0;
            &&& fee_of(order, shop.shop_id@, first) is Ok
            &&& fee_of(order, shop.shop_id@, second) is Ok
            &&& -2 <= one.minor + two.minor - shop.platform_fee.minor <= 2
            &&& order.settlement.shops@.len() == 1 ==> -1 <= one.minor + two.minor
                - shop.platform_fee.minor <= 1
        }),
{
    let shop = order.settlement.shops@[i];
    let all = sum(funded_minors(order));
    law_charges_are_shared_by_funding(order, first, i);
    law_charges_are_shared_by_funding(order, second, i);
    law_fees_follow_the_share(order, first, i);
    law_fees_follow_the_share(order, second, i);
    let a = share_of(order, shop.shop_id@, first)->Ok_0.minor as int;
    let b = share_of(order, shop.shop_id@, second)->Ok_0.minor as int;
    let f = shop.funded_by_customer.minor as int;
    let x = first.minor as int;
    let y = second.minor as int;
    assert(-2 * all < (a + b) * all - all * f < 2 * all) by (nonlinear_arith)
        requires
            -all < a * all - x * f < all,
            -all < b * all - y * f < all,
            x + y == all,
    ;
    assert(-1 <= a + b - f <= 1) by (nonlinear_arith)
        requires
            -2 * all < (a + b) * all - all * f < 2 * all,
            all > 0,
    ;
    let fee = shop.platform_fee.minor as int;
    let one = fee_of(order, shop.shop_id@, first)->Ok_0.minor as int;
    let two = fee_of(order, shop.shop_id@, second)->Ok_0.minor as int;
    let d = a + b - f;
    assert(-2 <= one + two - fee <= 2) by (nonlinear_arith)
        requires
            -f <= 2 * (one * f - fee * a) <= f,
            -f <= 2 * (two * f - fee * b) <= f,
            d == a + b - f,
            -1 <= d <= 1,
            0 < fee <= f,
    {
        assert(fee * a + fee * b == fee * f + fee * d);
        assert(-f <= fee * d <= f);
        assert(-2 * f <= (one + two - fee) * f <= 2 * f);
    }
    if order.settlement.shops@.len() == 1 {
        let plain = funded_minors(order);
        assert(plain.drop_last() =~= Seq::<int>::empty());
        assert(sum(plain.drop_last()) == 0);
        assert(plain[0] == f);
        assert(-1 <= one + two - fee <= 1) by (nonlinear_arith)
            requires
                -f <= 2 * (one * f - fee * a) <= f,
                -f <= 2 * (two * f - fee * b) <= f,
                a + b == f,
                0 < f,
        {
            assert(fee * a + fee * b == fee * f);
            assert(-f <= (one + two - fee) * f <= f);
        }
    }
}

proof fn lemma_fees_sum(order: Order, amount: Money, n: int)
    requires
        0 <= n <= order.settlement.shops@.len(),
        fees_of(order, amount, n) is Ok,
    ensures
        fees_of(order, amount, n)->Ok_0.currency == order.currency,
        fees_of(order, amount, n)->Ok_0.minor == sum(
            order.settlement.shops@.map_values(
                |shop: ShopSettlement| fee_of(order, shop.shop_id@, amount)->Ok_0.minor as int,
            ).take(n),
        ),
        forall|k: int|
            0 <= k < n ==> fee_of(
                order,
                (#[trigger] order.settlement.shops@[k]).shop_id@,
                amount,
            ) is Ok,
    decreases n,
{
    let fees = order.settlement.shops@.map_values(
        |shop: ShopSettlement| fee_of(order, shop.shop_id@, amount)->Ok_0.minor as int,
    );
    if n == 0 {
        assert(fees.take(0) =~= Seq::<int>::empty());
    } else {
        lemma_fees_sum(order, amount, n - 1);
        lemma_sum_take(fees, n - 1);
    }
}

/// The platform's fee on a charge is the sum of the fees on the shops' shares of it.
pub proof fn law_charge_fees_add_up(order: Order, amount: Money)
    ensures
        fees_of(order, amount, order.settlement.shops@.len() as int) matches Ok(fee) ==> {
            &&& fee.currency == order.currency
            &&& fee.minor == sum(
                order.settlement.shops@.map_values(
                    |shop: ShopSettlement| fee_of(order, shop.shop_id@, amount)->Ok_0.minor as int,
                ),
            )
        },
{
    let shops = order.settlement.shops@;
    let n = shops.len() as int;
    if fees_of(order, amount, n) is Ok {
        lemma_fees_sum(order, amount, n);
        let fees = shops.map_values(
            |shop: ShopSettlement| fee_of(order, shop.shop_id@, amount)->Ok_0.minor as int,
        );
        assert(fees.take(n) =~= fees);
    }
}

proof fn lemma_transfers_reach(order: Order, amount: Money, n: int, i: int)
    requires
        0 <= i < n <= order.settlement.shops@.len(),
        transfers_of(order, amount, n) is Ok,
    ensures
        ({
            let shop = order.settlement.shops@[i];
            let net = net_of(order, shop.shop_id@, amount);
            let list = transfers_of(order, amount, n)->Ok_0;
            &&& net is Ok
            &&& net->Ok_0.minor > 0 ==> list.contains(transfer_to(order, shop, net->Ok_0))
        }),
    decreases n,
{
    let before = transfers_of(order, amount, n - 1)->Ok_0;
    let list = transfers_of(order, amount, n)->Ok_0;
    if i < n - 1 {
        lemma_transfers_reach(order, amount, n - 1, i);
        let shop = order.settlement.shops@[i];
        let net = net_of(order, shop.shop_id@, amount)->Ok_0;
        if net.minor > 0 {
            let k = choose|k: int|
                0 <= k < before.len() && before[k] == transfer_to(order, shop, net);
            assert(list[k] == before[k]);
        }
    } else {
        let shop = order.settlement.shops@[i];
        let net = net_of(order, shop.shop_id@, amount)->Ok_0;
        if net.minor > 0 {
            assert(list[list.len() - 1] == transfer_to(order, shop, net));
        }
    }
}

/// Each shop that a charge leaves something is sent its share of the charge less the fee on
/// that share, to its own account and under the order it belongs to.
pub proof fn law_shops_are_sent_their_share_less_the_fee(order: Order, amount: Money, i: int)
    requires
        0 <= i < order.settlement.shops@.len(),
        transfers_of(order, amount, order.settlement.shops@.len() as int) is Ok,
    ensures
        ({
            let shop = order.settlement.shops@[i];
            let list = transfers_of(order, amount, order.settlement.shops@.len() as int)->Ok_0;
            let share = share_of(order, shop.shop_id@, amount);
            let fee = fee_of(order, shop.shop_id@, amount);
            &&& share is Ok
            &&& fee is Ok
            &&& share->Ok_0.minor > fee->Ok_0.minor ==> exists|k: int|
                0 <= k < list.len() && {
                    &&& (#[trigger] list[k]).destination == shop.account_id@
                    &&& list[k].amount.minor == share->Ok_0.minor - fee->Ok_0.minor
                    &&& list[k].amount.currency == share->Ok_0.currency
                    &&& list[k].transfer_group == Some(order.id@)
                }
        }),
{
    let n = order.settlement.shops@.len() as int;
    let shop = order.settlement.shops@[i];
    lemma_transfers_reach(order, amount, n, i);
    let net = net_of(order, shop.shop_id@, amount)->Ok_0;
    let list = transfers_of(order, amount, n)->Ok_0;
    if net.minor > 0 {
        let k = choose|k: int| 0 <= k < list.len() && list[k] == transfer_to(order, shop, net);
        assert(list[k].destination == shop.account_id@);
    }
}

/// Nothing is sent but that: every transfer of a charge goes to the account of a shop of
/// the order, is more than nothing and is what the shop is left of its share.
pub proof fn law_transfers_go_to_shops_of_the_order(order: Order, amount: Money, n: int, k: int)
    requires
        0 <= n <= order.settlement.shops@.len(),
        transfers_of(order, amount, n) is Ok,
        0 <= k < transfers_of(order, amount, n)->Ok_0.len(),
    ensures
        ({
            let transfer = transfers_of(order, amount, n)->Ok_0[k];
            &&& transfer.amount.minor > 0
            &&& exists|i: int|
                0 <= i < n && {
                    let shop = #[trigger] order.settlement.shops@[i];
                    let share = share_of(order, shop.shop_id@, amount)->Ok_0;
                    let fee = fee_of(order, shop.shop_id@, amount)->Ok_0;
                    &&& transfer.destination == shop.account_id@
                    &&& transfer.amount.minor == share.minor - fee.minor
                }
        }),
    decreases n,
{
    if n > 0 {
        let before = transfers_of(order, amount, n - 1)->Ok_0;
        if k < before.len() {
            law_transfers_go_to_shops_of_the_order(order, amount, n - 1, k);
            assert(transfers_of(order, amount, n)->Ok_0[k] == before[k]);
        } else {
            let shop = order.settlement.shops@[n - 1];
            assert(transfers_of(order, amount, n)->Ok_0[k].destination == shop.account_id@);
        }
    }
}

} // verus!
