//! Split settlement: deciding who gets what out of a single charge.
//!
//! A marketplace charge is one payment from the shopper that has to become
//! several payouts: one per shop, minus the platform's fee, plus whatever
//! third-party funders owe. This module turns a [`Quote`] into a
//! [`SettlementPlan`] and checks that the result balances before any money moves.

use vstd::prelude::*;

use crate::amounts::copy_amounts;
use crate::collections::OrderedMap;
use crate::error::{outcome, Error, ErrorView};
use crate::folds::{lemma_error_stays, lemma_prefix_error_stays};
use crate::ids::{AccountId, ShopId};
use crate::money::allocation::{
    law_allocation_succeeds, law_good_weights, law_parts_are_proportional,
    law_parts_stay_within_their_weights, law_parts_sum_to_the_whole, parts_of,
    weighted_allocation,
};
use crate::money::{
    allocate_by_weights, law_scaling_is_proportional, law_total_is_the_sum, minors, total,
    Currency, Money, Rounding,
};
use crate::pricing::totals::{subsidy_views, SubsidyView};
use crate::pricing::{Quote, ShopTotals};
use crate::sums::{lemma_sum_push, sum};
use crate::text::join3;

verus! {

/// What the platform charges for running the marketplace.
#[derive(Debug, Clone, Copy, PartialEq, Structural)]
pub struct PlatformFeePolicy {
    /// Commission in basis points of the fee base.
    pub percentage_basis_points: i64,
    /// Flat fee per shop per order.
    pub fixed_per_shop: Option<Money>,
    /// Whether commission is charged on tax as well as goods.
    ///
    /// Charging commission on tax is unusual and often not permitted, so the
    /// default excludes it.
    pub include_tax_in_base: bool,
    /// Rounding for the percentage component.
    pub rounding: Rounding,
}

/// An amount, or nothing when it is negative.
pub open spec fn at_least_nothing(amount: Money) -> Money {
    if amount.minor < 0 {
        Money { minor: 0, currency: amount.currency }
    } else {
        amount
    }
}

impl PlatformFeePolicy {
    /// The fee for a shop that is owed `gross`, of which `tax` is tax; never more than
    /// what the shop is owed.
    pub open spec fn fee(self, gross: Money, tax: Money) -> Result<Money, ErrorView> {
        let base = if self.include_tax_in_base {
            Ok(gross)
        } else {
            match gross.minus(tax) {
                Ok(net) => Ok(at_least_nothing(net)),
                Err(error) => Err(error),
            }
        };
        match base {
            Err(error) => Err(error),
            Ok(amount) => match amount.scaled(
                self.percentage_basis_points as int,
                10_000,
                self.rounding,
            ) {
                Err(error) => Err(error),
                Ok(commission) => {
                    let all = match self.fixed_per_shop {
                        Some(fixed) => commission.plus(fixed),
                        None => Ok(commission),
                    };
                    match all {
                        Err(error) => Err(error),
                        Ok(fee) => fee.smaller(at_least_nothing(gross)),
                    }
                },
            },
        }
    }

    /// No platform fee at all.
    pub fn none() -> (policy: Self)
        ensures
            policy == (PlatformFeePolicy {
                percentage_basis_points: 0,
                fixed_per_shop: None,
                include_tax_in_base: false,
                rounding: Rounding::HalfUp,
            }),
    {
        PlatformFeePolicy {
            percentage_basis_points: 0,
            fixed_per_shop: None,
            include_tax_in_base: false,
            rounding: Rounding::HalfUp,
        }
    }

    /// A simple percentage commission.
    pub fn percentage(basis_points: i64) -> (policy: Self)
        ensures
            policy == (PlatformFeePolicy {
                percentage_basis_points: basis_points,
                fixed_per_shop: None,
                include_tax_in_base: false,
                rounding: Rounding::HalfUp,
            }),
    {
        PlatformFeePolicy {
            percentage_basis_points: basis_points,
            fixed_per_shop: None,
            include_tax_in_base: false,
            rounding: Rounding::HalfUp,
        }
    }

    /// Builder: add a flat per-shop component.
    pub fn plus_fixed(self, fixed: Money) -> (policy: Self)
        ensures
            policy == (PlatformFeePolicy { fixed_per_shop: Some(fixed), ..self }),
    {
        PlatformFeePolicy { fixed_per_shop: Some(fixed), ..self }
    }

    /// Compute the fee for one shop, never exceeding what the shop is owed.
    pub fn fee_for(&self, gross: Money, tax: Money) -> (fee: Result<Money, Error>)
        ensures
            outcome(fee) == self.fee(gross, tax),
    {
        let base = if self.include_tax_in_base {
            gross
        } else {
            match gross.try_sub(tax) {
                Ok(net) => net.clamp_non_negative(),
                Err(error) => return Err(error),
            }
        };
        let mut fee = match base.mul_basis_points(self.percentage_basis_points, self.rounding) {
            Ok(fee) => fee,
            Err(error) => return Err(error),
        };
        if let Some(fixed) = self.fixed_per_shop {
            fee = match fee.try_add(fixed) {
                Ok(sum) => sum,
                Err(error) => return Err(error),
            };
        }
        fee.try_min(gross.clamp_non_negative())
    }
}

impl Default for PlatformFeePolicy {
    fn default() -> (policy: Self)
        ensures
            policy == (PlatformFeePolicy {
                percentage_basis_points: 0,
                fixed_per_shop: None,
                include_tax_in_base: false,
                rounding: Rounding::HalfUp,
            }),
    {
        Self::none()
    }
}

/// The platform never takes more than what a shop is owed.
pub proof fn law_fees_never_exceed_the_gross(
    policy: PlatformFeePolicy,
    gross: Money,
    tax: Money,
)
    requires
        gross.minor >= 0,
    ensures
        policy.fee(gross, tax) matches Ok(fee) ==> fee.minor <= gross.minor && fee.currency
            == gross.currency,
{
}

/// Where a shop's money should be sent.
#[derive(Debug, Clone)]
pub struct ShopAccounts(OrderedMap<AccountId>);

impl View for ShopAccounts {
    type V = Map<Seq<char>, AccountId>;

    closed spec fn view(&self) -> Map<Seq<char>, AccountId> {
        self.0@
    }
}

impl Default for ShopAccounts {
    fn default() -> (accounts: Self)
        ensures
            accounts@ == Map::<Seq<char>, AccountId>::empty(),
    {
        ShopAccounts(OrderedMap::new())
    }
}

/// The account a shop settles to: the one it is mapped onto, or one named after the shop.
pub open spec fn settles_to(accounts: Map<Seq<char>, AccountId>, shop: Seq<char>) -> Seq<char> {
    if accounts.contains_key(shop) {
        accounts[shop]@
    } else {
        shop
    }
}

impl ShopAccounts {
    /// An empty mapping: every shop settles to an account named after its id.
    pub fn new() -> (accounts: Self)
        ensures
            accounts@ == Map::<Seq<char>, AccountId>::empty(),
    {
        Self::default()
    }

    /// Map a shop onto a connected account.
    pub fn insert(&mut self, shop: ShopId, account: AccountId)
        ensures
            final(self)@ == old(self)@.insert(shop@, account),
    {
        self.0.insert(shop.to_text(), account);
    }

    /// Builder form of [`Self::insert`].
    pub fn with(self, shop: ShopId, account: AccountId) -> (accounts: Self)
        ensures
            accounts@ == self@.insert(shop@, account),
    {
        let mut accounts = self;
        accounts.insert(shop, account);
        accounts
    }

    /// Resolve a shop's account, defaulting to the shop id itself.
    pub fn resolve(&self, shop: &ShopId) -> (account: AccountId)
        ensures
            account@ == settles_to(self@, shop@),
    {
        match self.0.get(shop.as_str()) {
            Some(account) => account.clone(),
            None => AccountId::from_string(shop.as_str()),
        }
    }
}

/// What one shop receives from one order.
#[derive(Debug, Clone, PartialEq)]
pub struct ShopSettlement {
    /// The shop.
    pub shop_id: ShopId,
    /// Connected account the money goes to.
    pub account_id: AccountId,
    /// Everything the shop is owed, with tax, before the platform fee.
    pub gross: Money,
    /// Tax the shop must remit, part of `gross`.
    pub tax: Money,
    /// Platform commission taken out of `gross`.
    pub platform_fee: Money,
    /// What actually lands in the shop's account.
    pub net: Money,
    /// Part of `gross` paid by the shopper.
    pub funded_by_customer: Money,
    /// Part of `gross` paid by third-party funders.
    pub funded_by_subsidy: Money,
}

/// What one funder owes for one order.
#[derive(Debug, Clone, PartialEq)]
pub struct FunderCharge {
    /// Account to bill.
    pub funder: AccountId,
    /// Total owed.
    pub amount: Money,
    /// Which shops the money is destined for.
    pub per_shop: OrderedMap<Money>,
}

impl View for FunderCharge {
    type V = SubsidyView;

    open spec fn view(&self) -> SubsidyView {
        SubsidyView { funder: self.funder, amount: self.amount, per_shop: self.per_shop@ }
    }
}

/// The views of a list of charges.
pub open spec fn charge_views(list: Seq<FunderCharge>) -> Seq<SubsidyView> {
    list.map_values(|charge: FunderCharge| charge@)
}

/// The full money-movement plan for an order.
#[derive(Debug, Clone, PartialEq)]
pub struct SettlementPlan {
    /// Currency of every amount.
    pub currency: Currency,
    /// What the shopper pays.
    pub collected_from_customer: Money,
    /// What funders pay.
    pub collected_from_funders: Money,
    /// Per-shop settlements.
    pub shops: Vec<ShopSettlement>,
    /// Per-funder charges.
    pub funders: Vec<FunderCharge>,
    /// Total platform commission across all shops.
    pub platform_fee_total: Money,
}

/// A settlement of one shop, with its account as text.
pub ghost struct SettlementView {
    /// The shop.
    pub shop_id: ShopId,
    /// Connected account the money goes to.
    pub account: Seq<char>,
    /// Everything the shop is owed.
    pub gross: Money,
    /// Tax the shop must remit.
    pub tax: Money,
    /// Platform commission.
    pub platform_fee: Money,
    /// What lands in the shop's account.
    pub net: Money,
    /// Part paid by the shopper.
    pub funded_by_customer: Money,
    /// Part paid by third-party funders.
    pub funded_by_subsidy: Money,
}

impl View for ShopSettlement {
    type V = SettlementView;

    open spec fn view(&self) -> SettlementView {
        SettlementView {
            shop_id: self.shop_id,
            account: self.account_id@,
            gross: self.gross,
            tax: self.tax,
            platform_fee: self.platform_fee,
            net: self.net,
            funded_by_customer: self.funded_by_customer,
            funded_by_subsidy: self.funded_by_subsidy,
        }
    }
}

/// The views of a list of settlements.
pub open spec fn settlement_views(list: Seq<ShopSettlement>) -> Seq<SettlementView> {
    list.map_values(|shop: ShopSettlement| shop@)
}

/// The settlements of a list of shops and the platform commission across them.
pub open spec fn settled(
    shops: Seq<ShopTotals>,
    accounts: Map<Seq<char>, AccountId>,
    fees: PlatformFeePolicy,
    currency: Currency,
) -> Result<(Seq<SettlementView>, Money), ErrorView>
    decreases shops.len(),
{
    if shops.len() == 0 {
        Ok((Seq::empty(), Money { minor: 0, currency }))
    } else {
        let totals = shops.last();
        match settled(shops.drop_last(), accounts, fees, currency) {
            Err(error) => Err(error),
            Ok((before, commission)) => match fees.fee(totals.merchant_gross, totals.tax) {
                Err(error) => Err(error),
                Ok(platform_fee) => match commission.plus(platform_fee) {
                    Err(error) => Err(error),
                    Ok(sum) => match totals.merchant_gross.minus(platform_fee) {
                        Err(error) => Err(error),
                        Ok(net) => Ok(
                            (
                                before.push(
                                    SettlementView {
                                        shop_id: totals.shop_id,
                                        account: settles_to(accounts, totals.shop_id@),
                                        gross: totals.merchant_gross,
                                        tax: totals.tax,
                                        platform_fee,
                                        net,
                                        funded_by_customer: totals.customer_total,
                                        funded_by_subsidy: totals.subsidy_discount,
                                    },
                                ),
                                sum,
                            ),
                        ),
                    },
                },
            },
        }
    }
}

/// What each shop is owed.
pub open spec fn gross_amounts(shops: Seq<SettlementView>) -> Seq<Money> {
    shops.map_values(|shop: SettlementView| shop.gross)
}

/// What each shop is paid out.
pub open spec fn net_amounts(shops: Seq<SettlementView>) -> Seq<Money> {
    shops.map_values(|shop: SettlementView| shop.net)
}

/// What the shopper pays towards each shop.
pub open spec fn customer_amounts(shops: Seq<SettlementView>) -> Seq<Money> {
    shops.map_values(|shop: SettlementView| shop.funded_by_customer)
}

/// What each funder owes.
pub open spec fn funder_amounts(funders: Seq<SubsidyView>) -> Seq<Money> {
    funders.map_values(|charge: SubsidyView| charge.amount)
}

/// Whether a settlement agrees with itself, and otherwise why not.
pub open spec fn shop_check(shop: SettlementView) -> Result<(), ErrorView> {
    if shop.platform_fee.minor < 0 || shop.net.minor < 0 {
        Err(
            ErrorView::Internal(
                "shop "@ + shop.shop_id@ + " would settle a negative amount"@,
            ),
        )
    } else {
        match shop.funded_by_customer.plus(shop.funded_by_subsidy) {
            Err(error) => Err(error),
            Ok(funded) => if funded != shop.gross {
                Err(
                    ErrorView::Internal(
                        "shop "@ + shop.shop_id@ + " funding "@ + funded.text()
                            + " does not match gross "@ + shop.gross.text(),
                    ),
                )
            } else {
                Ok(())
            },
        }
    }
}

/// The check of the first `n` settlements.
pub open spec fn shops_check(shops: Seq<SettlementView>, n: int) -> Result<(), ErrorView>
    decreases n,
{
    if n <= 0 {
        Ok(())
    } else {
        match shops_check(shops, n - 1) {
            Err(error) => Err(error),
            Ok(_) => shop_check(shops[n - 1]),
        }
    }
}

/// Whether a plan balances, and otherwise why not.
pub open spec fn plan_balance(
    customer: Money,
    funder: Money,
    shops: Seq<SettlementView>,
    funders: Seq<SubsidyView>,
    currency: Currency,
) -> Result<(), ErrorView> {
    match customer.plus(funder) {
        Err(error) => Err(error),
        Ok(inflow) => match total(gross_amounts(shops), currency) {
            Err(error) => Err(error),
            Ok(outflow) => if inflow != outflow {
                Err(
                    ErrorView::Internal(
                        "settlement imbalance: collected "@ + inflow.text() + " but owe "@
                            + outflow.text(),
                    ),
                )
            } else {
                match total(customer_amounts(shops), currency) {
                    Err(error) => Err(error),
                    Ok(shares) => if shares != customer {
                        Err(
                            ErrorView::Internal(
                                "customer-funded shares "@ + shares.text() + " do not sum to "@
                                    + customer.text(),
                            ),
                        )
                    } else {
                        match total(funder_amounts(funders), currency) {
                            Err(error) => Err(error),
                            Ok(charged) => if charged != funder {
                                Err(
                                    ErrorView::Internal(
                                        "funder charges "@ + charged.text()
                                            + " do not sum to "@ + funder.text(),
                                    ),
                                )
                            } else {
                                shops_check(shops, shops.len() as int)
                            },
                        }
                    },
                }
            },
        },
    }
}

/// The position of a shop in a list of settlements, or the length when it is not there.
pub open spec fn settlement_index(shops: Seq<ShopSettlement>, shop: Seq<char>) -> int
    decreases shops.len(),
{
    if shops.len() == 0 || shops[0].shop_id@ == shop {
        0
    } else {
        1 + settlement_index(shops.drop_first(), shop)
    }
}

/// The position of a shop's settlement is where it first occurs.
pub proof fn lemma_settlement_index(shops: Seq<ShopSettlement>, shop: Seq<char>, at: int)
    requires
        0 <= at <= shops.len(),
        at < shops.len() ==> shops[at].shop_id@ == shop,
        forall|i: int| 0 <= i < at ==> (#[trigger] shops[i]).shop_id@ != shop,
    ensures
        settlement_index(shops, shop) == at,
    decreases shops.len(),
{
    if at > 0 {
        assert(shops[0].shop_id@ != shop);
        let rest = shops.drop_first();
        assert forall|i: int| 0 <= i < at - 1 implies (#[trigger] rest[i]).shop_id@ != shop by {
            assert(rest[i] == shops[i + 1]);
        }
        lemma_settlement_index(rest, shop, at - 1);
    }
}

/// What building a plan from a quote returns.
pub open spec fn plan_result(
    quote: Quote,
    accounts: Map<Seq<char>, AccountId>,
    fees: PlatformFeePolicy,
    plan: Result<SettlementPlan, Error>,
) -> bool {
    match settled(quote.shop_totals@, accounts, fees, quote.currency) {
        Err(error) => plan is Err && plan->Err_0@ == error,
        Ok((shops, commission)) => match plan_balance(
            quote.totals.total,
            quote.totals.subsidy_discount,
            shops,
            subsidy_views(quote.subsidies@),
            quote.currency,
        ) {
            Err(error) => plan is Err && plan->Err_0@ == error,
            Ok(_) => {
                &&& plan is Ok
                &&& plan->Ok_0.currency == quote.currency
                &&& plan->Ok_0.collected_from_customer == quote.totals.total
                &&& plan->Ok_0.collected_from_funders == quote.totals.subsidy_discount
                &&& settlement_views(plan->Ok_0.shops@) == shops
                &&& charge_views(plan->Ok_0.funders@) == subsidy_views(quote.subsidies@)
                &&& plan->Ok_0.platform_fee_total == commission
            },
        },
    }
}

impl SettlementPlan {
    /// Whether the plan balances, and otherwise why not.
    pub open spec fn check(self) -> Result<(), ErrorView> {
        plan_balance(
            self.collected_from_customer,
            self.collected_from_funders,
            settlement_views(self.shops@),
            charge_views(self.funders@),
            self.currency,
        )
    }

    /// Build a plan from a priced quote.
    pub fn from_quote(
        quote: &Quote,
        accounts: &ShopAccounts,
        fees: &PlatformFeePolicy,
    ) -> (plan: Result<Self, Error>)
        ensures
            plan_result(*quote, accounts@, *fees, plan),
    {
        let currency = quote.currency;
        let ghost list = quote.shop_totals@;
        let mut shops: Vec<ShopSettlement> = Vec::new();
        let mut commission = Money::zero(currency);
        let mut n: usize = 0;
        assert(list.take(0) =~= Seq::<ShopTotals>::empty());
        assert(settlement_views(shops@) =~= Seq::<SettlementView>::empty());
        while n < quote.shop_totals.len()
            invariant
                list == quote.shop_totals@,
                currency == quote.currency,
                n <= list.len(),
                settled(list.take(n as int), accounts@, *fees, currency) == Ok::<
                    (Seq<SettlementView>, Money),
                    ErrorView,
                >((settlement_views(shops@), commission)),
            decreases list.len() - n,
        {
            assert(list.take(n + 1).drop_last() =~= list.take(n as int));
            proof {
                if settled(list.take(n + 1), accounts@, *fees, currency) is Err {
                    lemma_prefix_error_stays(
                        |part: Seq<ShopTotals>| settled(part, accounts@, *fees, currency),
                        list,
                        n + 1,
                    );
                }
            }
            let ghost before = settlement_views(shops@);
            let totals = &quote.shop_totals[n];
            let platform_fee = match fees.fee_for(totals.merchant_gross, totals.tax) {
                Ok(fee) => fee,
                Err(error) => return Err(error),
            };
            commission = match commission.try_add(platform_fee) {
                Ok(sum) => sum,
                Err(error) => return Err(error),
            };
            let net = match totals.merchant_gross.try_sub(platform_fee) {
                Ok(net) => net,
                Err(error) => return Err(error),
            };
            let shop = ShopSettlement {
                shop_id: totals.shop_id.clone(),
                account_id: accounts.resolve(&totals.shop_id),
                gross: totals.merchant_gross,
                tax: totals.tax,
                platform_fee,
                net,
                funded_by_customer: totals.customer_total,
                funded_by_subsidy: totals.subsidy_discount,
            };
            let ghost view = shop@;
            shops.push(shop);
            assert(settlement_views(shops@) =~= before.push(view));
            n += 1;
        }
        assert(list.take(n as int) =~= list);
        let mut funders: Vec<FunderCharge> = Vec::new();
        let ghost owed = subsidy_views(quote.subsidies@);
        let mut k: usize = 0;
        while k < quote.subsidies.len()
            invariant
                owed == subsidy_views(quote.subsidies@),
                k <= owed.len(),
                funders@.len() == k,
                forall|i: int| 0 <= i < k ==> (#[trigger] funders@[i])@ == owed[i],
            decreases owed.len() - k,
        {
            let subsidy = &quote.subsidies[k];
            assert(owed[k as int] == subsidy@);
            funders.push(
                FunderCharge {
                    funder: subsidy.funder.clone(),
                    amount: subsidy.amount,
                    per_shop: copy_amounts(&subsidy.per_shop),
                },
            );
            k += 1;
        }
        assert(charge_views(funders@) =~= owed);
        let plan = SettlementPlan {
            currency,
            collected_from_customer: quote.totals.total,
            collected_from_funders: quote.totals.subsidy_discount,
            shops,
            funders,
            platform_fee_total: commission,
        };
        match plan.verify() {
            Ok(_) => Ok(plan),
            Err(error) => Err(error),
        }
    }

    /// Settlement for one shop.
    pub fn shop(&self, shop_id: &ShopId) -> (settlement: Option<&ShopSettlement>)
        ensures
            ({
                let at = settlement_index(self.shops@, shop_id@);
                match settlement {
                    Some(found) => 0 <= at < self.shops@.len() && *found == self.shops@[at]
                        && found.shop_id@ == shop_id@,
                    None => at == self.shops@.len() && forall|i: int|
                        0 <= i < self.shops@.len() ==> (#[trigger] self.shops@[i]).shop_id@
                            != shop_id@,
                }
            }),
    {
        let mut i: usize = 0;
        while i < self.shops.len()
            invariant
                i <= self.shops@.len(),
                forall|j: int| 0 <= j < i ==> (#[trigger] self.shops@[j]).shop_id@ != shop_id@,
            decreases self.shops@.len() - i,
        {
            if self.shops[i].shop_id.same(shop_id) {
                proof {
                    lemma_settlement_index(self.shops@, shop_id@, i as int);
                }
                return Some(&self.shops[i]);
            }
            i += 1;
        }
        proof {
            lemma_settlement_index(self.shops@, shop_id@, i as int);
        }
        None
    }

    /// Total owed to shops before fees.
    pub fn gross_total(&self) -> (amount: Result<Money, Error>)
        ensures
            outcome(amount) == total(gross_amounts(settlement_views(self.shops@)), self.currency),
    {
        let ghost all = gross_amounts(settlement_views(self.shops@));
        let mut amounts: Vec<Money> = Vec::new();
        let mut i: usize = 0;
        while i < self.shops.len()
            invariant
                i <= self.shops@.len(),
                all == gross_amounts(settlement_views(self.shops@)),
                amounts@ == all.take(i as int),
            decreases self.shops@.len() - i,
        {
            amounts.push(self.shops[i].gross);
            i += 1;
            assert(amounts@ =~= all.take(i as int));
        }
        assert(amounts@ =~= all);
        Money::sum(amounts.as_slice(), self.currency)
    }

    /// Total that will actually be paid out to shops.
    pub fn net_total(&self) -> (amount: Result<Money, Error>)
        ensures
            outcome(amount) == total(net_amounts(settlement_views(self.shops@)), self.currency),
    {
        let ghost all = net_amounts(settlement_views(self.shops@));
        let mut amounts: Vec<Money> = Vec::new();
        let mut i: usize = 0;
        while i < self.shops.len()
            invariant
                i <= self.shops@.len(),
                all == net_amounts(settlement_views(self.shops@)),
                amounts@ == all.take(i as int),
            decreases self.shops@.len() - i,
        {
            amounts.push(self.shops[i].net);
            i += 1;
            assert(amounts@ =~= all.take(i as int));
        }
        assert(amounts@ =~= all);
        Money::sum(amounts.as_slice(), self.currency)
    }

    fn customer_shares(&self) -> (shares: Vec<Money>)
        ensures
            shares@ == customer_amounts(settlement_views(self.shops@)),
    {
        let ghost all = customer_amounts(settlement_views(self.shops@));
        let mut shares: Vec<Money> = Vec::new();
        let mut i: usize = 0;
        while i < self.shops.len()
            invariant
                i <= self.shops@.len(),
                all == customer_amounts(settlement_views(self.shops@)),
                shares@ == all.take(i as int),
            decreases self.shops@.len() - i,
        {
            shares.push(self.shops[i].funded_by_customer);
            i += 1;
            assert(shares@ =~= all.take(i as int));
        }
        assert(shares@ =~= all);
        shares
    }

    /// Check that the plan balances. Called automatically by [`Self::from_quote`].
    pub fn verify(&self) -> (balanced: Result<(), Error>)
        ensures
            outcome(balanced) == self.check(),
    {
        let inflow = match self.collected_from_customer.try_add(self.collected_from_funders) {
            Ok(inflow) => inflow,
            Err(error) => return Err(error),
        };
        let outflow = match self.gross_total() {
            Ok(outflow) => outflow,
            Err(error) => return Err(error),
        };
        if inflow != outflow {
            let mut message = join3(
                "settlement imbalance: collected ",
                inflow.to_text().as_str(),
                " but owe ",
            );
            message.append(outflow.to_text().as_str());
            return Err(Error::internal(message.as_str()));
        }
        let shares = self.customer_shares();
        let customer = match Money::sum(shares.as_slice(), self.currency) {
            Ok(customer) => customer,
            Err(error) => return Err(error),
        };
        if customer != self.collected_from_customer {
            let mut message = join3(
                "customer-funded shares ",
                customer.to_text().as_str(),
                " do not sum to ",
            );
            message.append(self.collected_from_customer.to_text().as_str());
            return Err(Error::internal(message.as_str()));
        }
        let ghost owed = funder_amounts(charge_views(self.funders@));
        let mut charges: Vec<Money> = Vec::new();
        let mut k: usize = 0;
        while k < self.funders.len()
            invariant
                k <= self.funders@.len(),
                owed == funder_amounts(charge_views(self.funders@)),
                charges@ == owed.take(k as int),
            decreases self.funders@.len() - k,
        {
            charges.push(self.funders[k].amount);
            k += 1;
            assert(charges@ =~= owed.take(k as int));
        }
        assert(charges@ =~= owed);
        let charged = match Money::sum(charges.as_slice(), self.currency) {
            Ok(charged) => charged,
            Err(error) => return Err(error),
        };
        if charged != self.collected_from_funders {
            let mut message = join3(
                "funder charges ",
                charged.to_text().as_str(),
                " do not sum to ",
            );
            message.append(self.collected_from_funders.to_text().as_str());
            return Err(Error::internal(message.as_str()));
        }
        let ghost views = settlement_views(self.shops@);
        let mut n: usize = 0;
        while n < self.shops.len()
            invariant
                views == settlement_views(self.shops@),
                n <= views.len(),
                shops_check(views, n as int) is Ok,
                self.check() == shops_check(views, views.len() as int),
            decreases views.len() - n,
        {
            assert(views[n as int] == self.shops@[n as int]@);
            proof {
                if shops_check(views, n + 1) is Err {
                    lemma_error_stays(|k: int| shops_check(views, k), n + 1, views.len() as int);
                }
            }
            let shop = &self.shops[n];
            if shop.platform_fee.is_negative() || shop.net.is_negative() {
                return Err(
                    Error::internal(
                        join3(
                            "shop ",
                            shop.shop_id.as_str(),
                            " would settle a negative amount",
                        ).as_str(),
                    ),
                );
            }
            let funded = match shop.funded_by_customer.try_add(shop.funded_by_subsidy) {
                Ok(funded) => funded,
                Err(error) => return Err(error),
            };
            if funded != shop.gross {
                let mut message = join3("shop ", shop.shop_id.as_str(), " funding ");
                message.append(funded.to_text().as_str());
                message.append(" does not match gross ");
                message.append(shop.gross.to_text().as_str());
                return Err(Error::internal(message.as_str()));
            }
            n += 1;
        }
        Ok(())
    }

    /// Split an amount actually collected from the shopper across the shops,
    /// proportionally to what each shop is owed by the shopper.
    ///
    /// Used when the amount charged differs from the plan (partial capture) so
    /// that every shop shares the shortfall fairly and to the cent.
    pub fn prorate_customer_amount(&self, amount: Money) -> (shares: Result<
        Vec<(ShopId, Money)>,
        Error,
    >)
        ensures
            match weighted_allocation(amount, customer_amounts(settlement_views(self.shops@))) {
                Ok(parts) => {
                    &&& shares is Ok
                    &&& shares->Ok_0@.len() == self.shops@.len()
                    &&& parts.len() == self.shops@.len()
                    &&& forall|i: int|
                        0 <= i < self.shops@.len() ==> #[trigger] shares->Ok_0@[i] == (
                            self.shops@[i].shop_id,
                            parts[i],
                        )
                },
                Err(error) => shares is Err && shares->Err_0@ == error,
            },
    {
        let weights = self.customer_shares();
        let parts = match allocate_by_weights(amount, weights.as_slice()) {
            Ok(parts) => parts,
            Err(error) => return Err(error),
        };
        proof {
            law_good_weights(amount, weights@);
            law_allocation_succeeds(amount, minors(weights@));
        }
        let mut shares: Vec<(ShopId, Money)> = Vec::new();
        let mut i: usize = 0;
        while i < self.shops.len()
            invariant
                i <= self.shops@.len(),
                parts@.len() == self.shops@.len(),
                shares@.len() == i,
                forall|j: int|
                    0 <= j < i ==> #[trigger] shares@[j] == (self.shops@[j].shop_id, parts@[j]),
            decreases self.shops@.len() - i,
        {
            shares.push((self.shops[i].shop_id.clone(), parts[i]));
            i += 1;
        }
        Ok(shares)
    }
}

/// A plan that was built pays every shop what it is owed: what the shopper and the
/// funders pay is what the shops are owed, no shop settles a negative amount, and what
/// each is owed is what was paid for it.
pub proof fn law_settlements_balance(plan: SettlementPlan, i: int)
    requires
        plan.check() is Ok,
        0 <= i < plan.shops@.len(),
    ensures
        total(gross_amounts(settlement_views(plan.shops@)), plan.currency)
            == plan.collected_from_customer.plus(plan.collected_from_funders),
        plan.shops@[i].platform_fee.minor >= 0,
        plan.shops@[i].net.minor >= 0,
        plan.shops@[i].funded_by_customer.plus(plan.shops@[i].funded_by_subsidy) == Ok::<
            Money,
            ErrorView,
        >(plan.shops@[i].gross),
{
    let views = settlement_views(plan.shops@);
    lemma_shop_passed(views, views.len() as int, i);
    assert(views[i] == plan.shops@[i]@);
}

proof fn lemma_shop_passed(shops: Seq<SettlementView>, n: int, i: int)
    requires
        shops_check(shops, n) is Ok,
        0 <= i < n,
    ensures
        shop_check(shops[i]) is Ok,
    decreases n,
{
    if i < n - 1 {
        lemma_shop_passed(shops, n - 1, i);
    }
}

/// The fee is the commission on what the shop is owed, without its tax unless tax is part
/// of the base, plus the fixed component: rounding is off by less than one minor unit and
/// by at most half of one for the half modes. It is less only where it would be more than
/// what the shop is owed.
pub proof fn law_fees_are_commission_plus_fixed(policy: PlatformFeePolicy, gross: Money, tax: Money)
    requires
        gross.minor >= 0,
    ensures
        policy.fee(gross, tax) matches Ok(fee) ==> {
            let base = if policy.include_tax_in_base {
                gross.minor as int
            } else if tax.minor > gross.minor {
                0
            } else {
                gross.minor - tax.minor
            };
            let fixed = match policy.fixed_per_shop {
                Some(amount) => amount.minor as int,
                None => 0,
            };
            let off = (fee.minor - fixed) * 10_000 - base * policy.percentage_basis_points;
            let halves = policy.rounding is HalfUp || policy.rounding is HalfEven;
            &&& fee.currency == gross.currency
            &&& fee.minor < gross.minor ==> -10_000 < off < 10_000
            &&& fee.minor < gross.minor && halves ==> -10_000 <= 2 * off <= 10_000
            &&& fee.minor >= gross.minor ==> fee.minor == gross.minor && off < 10_000
        },
{
    if let Ok(fee) = policy.fee(gross, tax) {
        let base = if policy.include_tax_in_base {
            gross
        } else {
            at_least_nothing(gross.minus(tax)->Ok_0)
        };
        law_scaling_is_proportional(
            base,
            policy.percentage_basis_points as int,
            10_000,
            policy.rounding,
        );
    }
}

/// Tax carries no commission: charging more tax on top, to the shopper's cost, leaves the
/// fee as it is, with and without a fixed component. Only what the shop is owed caps it.
pub proof fn law_tax_carries_no_commission(
    policy: PlatformFeePolicy,
    gross: Money,
    tax: Money,
    more_gross: Money,
    more_tax: Money,
)
    requires
        !policy.include_tax_in_base,
        more_gross.minor - gross.minor == more_tax.minor - tax.minor,
        more_gross.currency == gross.currency,
        more_tax.currency == tax.currency,
        0 <= gross.minor <= more_gross.minor,
    ensures
        policy.fee(gross, tax) matches Ok(fee) ==> {
            &&& policy.fee(more_gross, more_tax) is Ok
            &&& fee.minor < gross.minor ==> policy.fee(more_gross, more_tax) == Ok::<
                Money,
                ErrorView,
            >(fee)
            &&& fee.minor <= policy.fee(more_gross, more_tax)->Ok_0.minor
        },
{
}

/// A fee can be told for every shop that is owed something in the currency of the policy,
/// at any commission up to the whole.
pub proof fn law_fees_can_be_told(policy: PlatformFeePolicy, gross: Money, tax: Money)
    requires
        0 <= policy.percentage_basis_points <= 10_000,
        0 <= tax.minor <= gross.minor,
        tax.currency == gross.currency,
        policy.fixed_per_shop matches Some(fixed) ==> {
            &&& fixed.currency == gross.currency
            &&& 0 <= fixed.minor
            &&& gross.minor + fixed.minor < i64::MAX
        },
    ensures
        policy.fee(gross, tax) matches Ok(fee) && 0 <= fee.minor <= gross.minor,
        policy.percentage_basis_points == 0 && policy.fixed_per_shop is None ==> policy.fee(
            gross,
            tax,
        )->Ok_0.minor == 0,
{
    let base = if policy.include_tax_in_base {
        gross
    } else {
        at_least_nothing(gross.minus(tax)->Ok_0)
    };
    let rate = policy.percentage_basis_points as int;
    law_scaling_is_proportional(base, rate, 10_000, policy.rounding);
    assert(0 <= base.minor * rate <= base.minor * 10_000) by (nonlinear_arith)
        requires
            0 <= rate <= 10_000,
            base.minor >= 0,
    ;
    let commission = base.scaled(rate, 10_000, policy.rounding)->Ok_0;
    assert(0 <= commission.minor <= gross.minor);
    if rate == 0 {
        assert(base.minor * rate == 0) by (nonlinear_arith)
            requires
                rate == 0,
        ;
        assert(commission.minor == 0);
    }
}

proof fn lemma_settled(
    shops: Seq<ShopTotals>,
    accounts: Map<Seq<char>, AccountId>,
    fees: PlatformFeePolicy,
    currency: Currency,
)
    requires
        settled(shops, accounts, fees, currency) is Ok,
    ensures
        ({
            let (list, commission) = settled(shops, accounts, fees, currency)->Ok_0;
            &&& list.len() == shops.len()
            &&& commission.currency == currency
            &&& commission.minor == sum(
                list.map_values(|shop: SettlementView| shop.platform_fee.minor as int),
            )
            &&& forall|i: int|
                0 <= i < shops.len() ==> {
                    let shop = #[trigger] list[i];
                    let totals = shops[i];
                    &&& fees.fee(totals.merchant_gross, totals.tax) == Ok::<Money, ErrorView>(
                        shop.platform_fee,
                    )
                    &&& shop.shop_id == totals.shop_id
                    &&& shop.account == settles_to(accounts, totals.shop_id@)
                    &&& shop.gross == totals.merchant_gross
                    &&& shop.tax == totals.tax
                    &&& shop.net.minor == totals.merchant_gross.minor - shop.platform_fee.minor
                    &&& shop.net.currency == totals.merchant_gross.currency
                    &&& shop.funded_by_customer == totals.customer_total
                    &&& shop.funded_by_subsidy == totals.subsidy_discount
                }
        }),
    decreases shops.len(),
{
    let (list, commission) = settled(shops, accounts, fees, currency)->Ok_0;
    let taken = list.map_values(|shop: SettlementView| shop.platform_fee.minor as int);
    if shops.len() == 0 {
        assert(taken =~= Seq::<int>::empty());
    } else {
        let rest = shops.drop_last();
        lemma_settled(rest, accounts, fees, currency);
        let (before, _) = settled(rest, accounts, fees, currency)->Ok_0;
        let earlier = before.map_values(|shop: SettlementView| shop.platform_fee.minor as int);
        lemma_sum_push(earlier, list.last().platform_fee.minor as int);
        assert(taken =~= earlier.push(list.last().platform_fee.minor as int));
        assert forall|i: int| 0 <= i < rest.len() implies #[trigger] list[i] == before[i]
            && rest[i] == shops[i] by {}
    }
}

/// A settlement pays every shop of the quote what it is owed less the fee, to the account
/// it is mapped onto or else to one named after it, and the platform keeps the fees and
/// nothing more.
pub proof fn law_shops_net_their_gross_less_the_fee(
    quote: Quote,
    accounts: Map<Seq<char>, AccountId>,
    fees: PlatformFeePolicy,
    plan: SettlementPlan,
    i: int,
)
    requires
        plan_result(quote, accounts, fees, Ok(plan)),
        0 <= i < quote.shop_totals@.len(),
    ensures
        plan.shops@.len() == quote.shop_totals@.len(),
        ({
            let shop = plan.shops@[i];
            let owed = quote.shop_totals@[i];
            &&& shop.shop_id == owed.shop_id
            &&& accounts.contains_key(owed.shop_id@) ==> shop.account_id@
                == accounts[owed.shop_id@]@
            &&& !accounts.contains_key(owed.shop_id@) ==> shop.account_id@ == owed.shop_id@
            &&& shop.gross == owed.merchant_gross
            &&& shop.tax == owed.tax
            &&& shop.net.minor + shop.platform_fee.minor == owed.merchant_gross.minor
            &&& fees.fee(owed.merchant_gross, owed.tax) == Ok::<Money, ErrorView>(
                shop.platform_fee,
            )
            &&& shop.funded_by_customer == owed.customer_total
            &&& shop.funded_by_subsidy == owed.subsidy_discount
        }),
        plan.collected_from_customer == quote.totals.total,
        plan.collected_from_funders == quote.totals.subsidy_discount,
        plan.platform_fee_total.minor == sum(
            plan.shops@.map_values(|shop: ShopSettlement| shop.platform_fee.minor as int),
        ),
{
    lemma_settled(quote.shop_totals@, accounts, fees, quote.currency);
    let (list, _) = settled(quote.shop_totals@, accounts, fees, quote.currency)->Ok_0;
    assert(settlement_views(plan.shops@) == list);
    assert(list[i] == plan.shops@[i]@);
    assert(plan.shops@.map_values(|shop: ShopSettlement| shop.platform_fee.minor as int)
        =~= list.map_values(|shop: SettlementView| shop.platform_fee.minor as int));
}

/// Every funder of a quote is charged what it owes, for the shops it owes it for.
pub proof fn law_funders_are_charged_what_they_owe(
    quote: Quote,
    accounts: Map<Seq<char>, AccountId>,
    fees: PlatformFeePolicy,
    plan: SettlementPlan,
    k: int,
)
    requires
        plan_result(quote, accounts, fees, Ok(plan)),
        0 <= k < quote.subsidies@.len(),
    ensures
        plan.funders@.len() == quote.subsidies@.len(),
        plan.funders@[k].funder == quote.subsidies@[k].funder,
        plan.funders@[k].amount == quote.subsidies@[k].amount,
        plan.funders@[k].per_shop@ == quote.subsidies@[k].per_shop@,
{
    let views = subsidy_views(quote.subsidies@);
    assert(charge_views(plan.funders@) == views);
    assert(views[k] == quote.subsidies@[k]@);
    assert(charge_views(plan.funders@)[k] == plan.funders@[k]@);
}

/// A plan that passes its check collects exactly what the shops are owed: what is owed is
/// what the shopper and the funders pay together, the shopper's parts of the shops add up
/// to what the shopper pays, and the funders' charges to what the funders pay.
pub proof fn law_checked_plans_add_up(plan: SettlementPlan)
    requires
        plan.check() is Ok,
    ensures
        sum(plan.shops@.map_values(|shop: ShopSettlement| shop.gross.minor as int))
            == plan.collected_from_customer.minor + plan.collected_from_funders.minor,
        sum(plan.shops@.map_values(|shop: ShopSettlement| shop.funded_by_customer.minor as int))
            == plan.collected_from_customer.minor,
        sum(plan.funders@.map_values(|charge: FunderCharge| charge.amount.minor as int))
            == plan.collected_from_funders.minor,
{
    let views = settlement_views(plan.shops@);
    let charges = charge_views(plan.funders@);
    law_total_is_the_sum(gross_amounts(views), plan.currency);
    law_total_is_the_sum(customer_amounts(views), plan.currency);
    law_total_is_the_sum(funder_amounts(charges), plan.currency);
    assert(plan.shops@.map_values(|shop: ShopSettlement| shop.gross.minor as int) =~= minors(
        gross_amounts(views),
    ));
    assert(plan.shops@.map_values(|shop: ShopSettlement| shop.funded_by_customer.minor as int)
        =~= minors(customer_amounts(views)));
    assert(plan.funders@.map_values(|charge: FunderCharge| charge.amount.minor as int) =~= minors(
        funder_amounts(charges),
    ));
}

/// A collected amount is shared in proportion to what the shopper pays for each shop: each
/// share is less than one minor unit away from the exact proportion, no share of what is
/// planned at most is more than planned, and the shares add up to the amount.
pub proof fn law_collections_are_prorated(plan: SettlementPlan, amount: Money, i: int)
    requires
        0 <= i < plan.shops@.len(),
        forall|k: int|
            0 <= k < plan.shops@.len() ==> (#[trigger] plan.shops@[k]).funded_by_customer.currency
                == amount.currency && plan.shops@[k].funded_by_customer.minor >= 0,
        sum(plan.shops@.map_values(|shop: ShopSettlement| shop.funded_by_customer.minor as int))
            > 0,
    ensures
        weighted_allocation(amount, customer_amounts(settlement_views(plan.shops@))) matches Ok(
            parts,
        ) && {
            let all = sum(
                plan.shops@.map_values(|shop: ShopSettlement| shop.funded_by_customer.minor as int),
            );
            let due = plan.shops@[i].funded_by_customer.minor;
            &&& parts.len() == plan.shops@.len()
            &&& parts[i].currency == amount.currency
            &&& -all < parts[i].minor * all - amount.minor * due < all
            &&& 0 <= amount.minor <= all ==> 0 <= parts[i].minor <= due
            &&& sum(minors(parts)) == amount.minor
        },
{
    let weights = customer_amounts(settlement_views(plan.shops@));
    let plain = plan.shops@.map_values(
        |shop: ShopSettlement| shop.funded_by_customer.minor as int,
    );
    assert(minors(weights) =~= plain);
    assert forall|k: int| 0 <= k < weights.len() implies (#[trigger] weights[k]).currency
        == amount.currency by {
        assert(weights[k] == plan.shops@[k].funded_by_customer);
    }
    assert forall|k: int| 0 <= k < plain.len() implies #[trigger] plain[k] >= 0 by {
        assert(plan.shops@[k].funded_by_customer.minor >= 0);
    }
    law_good_weights(amount, weights);
    law_allocation_succeeds(amount, plain);
    law_parts_are_proportional(amount.minor as int, plain, i);
    law_parts_sum_to_the_whole(amount.minor as int, plain);
    if 0 <= amount.minor <= sum(plain) {
        law_parts_stay_within_their_weights(amount.minor as int, plain, i);
    }
    let part = parts_of(amount.minor as int, plain)[i];
    assert(i64::MIN <= part <= i64::MAX);
}

/// A shop is paid at the account that is kept for it, and else at the one of its own name.
pub proof fn law_shops_are_paid_at_their_account(
    accounts: Map<Seq<char>, AccountId>,
    shop: Seq<char>,
)
    ensures
        accounts.contains_key(shop) ==> settles_to(accounts, shop) == accounts[shop]@,
        !accounts.contains_key(shop) ==> settles_to(accounts, shop) == shop,
{
}

} // verus!
