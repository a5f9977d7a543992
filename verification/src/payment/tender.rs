//! Multi-tender payments: paying one order with several instruments.
//!
//! A shopper may combine a gift card, shop credit and a card in a single
//! checkout. Two rules make this safe:
//!
//! * **Stored value is spent first.** Gift cards and credit are cheapest for
//!   the merchant (no interchange) and worthless to the shopper if the order
//!   fails, so they are applied before card networks.
//! * **Every tender records what it paid for, per shop.** Without that,
//!   partially refunding a three-shop order paid with a gift card plus a card
//!   is guesswork. [`PlannedTender::shop_allocation`] keeps the mapping exact.

use vstd::prelude::*;

use crate::amounts::{amount_under, amounts_listed, get_amount, sum_amounts};
use crate::collections::OrderedMap;
use crate::error::{outcome, Error, ErrorView};
use crate::folds::lemma_error_stays;
use crate::gateway::{GatewayId, InstrumentRef};
use crate::ids::{GiftCardId, PaymentMethodId, ShopId};
use crate::money::allocation::{
    law_allocation_succeeds, law_good_weights, law_parts_are_proportional,
    law_parts_stay_within_their_weights, law_parts_sum_to_the_whole, parts_of,
    weighted_allocation,
};
use crate::money::{
    all_in, allocate_by_weights, law_total_is_the_sum, law_total_succeeds, minors, total,
    Currency, Money,
};
use crate::pricing::totals::{
    each_shop_once, lemma_shop_index_bounds, lemma_shop_index_names,
};
use crate::pricing::{Quote, ShopTotals};
use crate::sums::{lemma_sum_non_negative, lemma_sum_update, sum};
use crate::text::{join, join3};

verus! {

/// The kind of instrument behind one tender.
#[derive(Debug, PartialEq)]
pub enum TenderKind {
    /// A gift card balance.
    GiftCard {
        /// The card.
        gift_card_id: GiftCardId,
        /// Masked code, for receipts.
        masked_code: String,
    },
    /// Shop credit, spendable only at one shop.
    ShopCredit {
        /// The shop whose credit this is.
        shop_id: ShopId,
    },
    /// A charge through a payment gateway.
    Gateway {
        /// Which gateway.
        gateway: GatewayId,
        /// The vaulted instrument, when the shopper picked a saved card.
        payment_method_id: Option<PaymentMethodId>,
        /// Token to charge.
        instrument: InstrumentRef,
        /// Display label, e.g. `"visa •••• 4242"`.
        label: String,
    },
}

impl Clone for TenderKind {
    fn clone(&self) -> (kind: Self)
        ensures
            kind == *self,
    {
        match self {
            TenderKind::GiftCard { gift_card_id, masked_code } => TenderKind::GiftCard {
                gift_card_id: gift_card_id.clone(),
                masked_code: masked_code.clone(),
            },
            TenderKind::ShopCredit { shop_id } => TenderKind::ShopCredit {
                shop_id: shop_id.clone(),
            },
            TenderKind::Gateway { gateway, payment_method_id, instrument, label } => {
                TenderKind::Gateway {
                    gateway: gateway.clone(),
                    payment_method_id: payment_method_id.clone(),
                    instrument: instrument.clone(),
                    label: label.clone(),
                }
            },
        }
    }
}

impl TenderKind {
    /// Whether the tender draws on a balance that is kept here.
    pub open spec fn stored_value(self) -> bool {
        self is GiftCard || self is ShopCredit
    }

    /// Application order: stored value first, gateways last.
    pub open spec fn rank(self) -> u8 {
        match self {
            TenderKind::GiftCard { .. } => 0,
            TenderKind::ShopCredit { .. } => 1,
            TenderKind::Gateway { .. } => 2,
        }
    }

    /// A label for receipts.
    pub open spec fn receipt_label(self) -> Seq<char> {
        match self {
            TenderKind::GiftCard { masked_code, .. } => "Gift card "@ + masked_code@,
            TenderKind::ShopCredit { shop_id } => "Store credit ("@ + shop_id@ + ")"@,
            TenderKind::Gateway { label, .. } => label@,
        }
    }

    /// The shop this tender is restricted to, if any.
    pub open spec fn own_shop(self) -> Option<ShopId> {
        match self {
            TenderKind::ShopCredit { shop_id } => Some(shop_id),
            _ => None,
        }
    }

    /// Whether this tender draws on a stored-value balance we control.
    pub fn is_stored_value(&self) -> (stored: bool)
        ensures
            stored == self.stored_value(),
    {
        match self {
            TenderKind::GiftCard { .. } => true,
            TenderKind::ShopCredit { .. } => true,
            TenderKind::Gateway { .. } => false,
        }
    }

    /// Application order: stored value first, gateways last.
    pub fn default_priority(&self) -> (priority: u8)
        ensures
            priority == self.rank(),
    {
        match self {
            TenderKind::GiftCard { .. } => 0,
            TenderKind::ShopCredit { .. } => 1,
            TenderKind::Gateway { .. } => 2,
        }
    }

    /// The shop this tender is restricted to, if any.
    pub fn restricted_shop(&self) -> (shop: Option<&ShopId>)
        ensures
            match shop {
                Some(id) => self.own_shop() == Some(*id),
                None => self.own_shop() is None,
            },
    {
        match self {
            TenderKind::ShopCredit { shop_id } => Some(shop_id),
            _ => None,
        }
    }

    /// A label for receipts.
    pub fn label(&self) -> (label: String)
        ensures
            label@ == self.receipt_label(),
    {
        match self {
            TenderKind::GiftCard { masked_code, .. } => join("Gift card ", masked_code.as_str()),
            TenderKind::ShopCredit { shop_id } => join3("Store credit (", shop_id.as_str(), ")"),
            TenderKind::Gateway { label, .. } => label.clone(),
        }
    }
}

/// An instrument the shopper is offering, with whatever balance it has.
#[derive(Debug, Clone, PartialEq)]
pub struct TenderOffer {
    /// The instrument.
    pub kind: TenderKind,
    /// Spendable balance. `None` means "no limit", which only makes sense for
    /// gateway tenders.
    pub available: Option<Money>,
    /// Restrict this tender to one shop's share of the order. Gift cards issued
    /// by a single shop set this; shop credit sets it implicitly.
    pub restricted_to_shop: Option<ShopId>,
    /// Hard cap the shopper asked for ("put $20 on this card").
    pub max_amount: Option<Money>,
    /// Lower applies first; defaults to [`TenderKind::default_priority`].
    pub priority: Option<u8>,
}

impl TenderOffer {
    /// The rank of the offer: lower applies first.
    pub open spec fn rank(self) -> u8 {
        match self.priority {
            Some(priority) => priority,
            None => self.kind.rank(),
        }
    }

    /// The shop whose share of the order the offer is restricted to, if any.
    pub open spec fn restriction(self) -> Option<ShopId> {
        match self.restricted_to_shop {
            Some(shop) => Some(shop),
            None => self.kind.own_shop(),
        }
    }

    /// A gateway tender with no balance limit.
    pub fn gateway(gateway: GatewayId, instrument: InstrumentRef, label: &str) -> (offer: Self)
        ensures
            offer.kind matches TenderKind::Gateway {
                gateway: to,
                payment_method_id,
                instrument: charged,
                label: shown,
            } && to == gateway && payment_method_id is None && charged == instrument && shown@
                == label@,
            offer.available is None,
            offer.restricted_to_shop is None,
            offer.max_amount is None,
            offer.priority is None,
    {
        TenderOffer {
            kind: TenderKind::Gateway {
                gateway,
                payment_method_id: None,
                instrument,
                label: label.to_owned(),
            },
            available: None,
            restricted_to_shop: None,
            max_amount: None,
            priority: None,
        }
    }

    /// A gift card tender with a known balance.
    pub fn gift_card(gift_card_id: GiftCardId, masked_code: &str, available: Money) -> (
    offer: Self)
        ensures
            offer.kind matches TenderKind::GiftCard { gift_card_id: card, masked_code: shown }
                && card == gift_card_id && shown@ == masked_code@,
            offer.available == Some(available),
            offer.restricted_to_shop is None,
            offer.max_amount is None,
            offer.priority is None,
    {
        TenderOffer {
            kind: TenderKind::GiftCard { gift_card_id, masked_code: masked_code.to_owned() },
            available: Some(available),
            restricted_to_shop: None,
            max_amount: None,
            priority: None,
        }
    }

    /// A shop-credit tender.
    pub fn shop_credit(shop_id: ShopId, available: Money) -> (offer: Self)
        ensures
            offer == (TenderOffer {
                kind: TenderKind::ShopCredit { shop_id },
                available: Some(available),
                restricted_to_shop: Some(shop_id),
                max_amount: None,
                priority: None,
            }),
    {
        TenderOffer {
            kind: TenderKind::ShopCredit { shop_id: shop_id.clone() },
            available: Some(available),
            restricted_to_shop: Some(shop_id),
            max_amount: None,
            priority: None,
        }
    }

    /// Builder: link a saved payment method.
    pub fn with_payment_method(self, id: PaymentMethodId) -> (offer: Self)
        ensures
            offer == (TenderOffer {
                kind: match self.kind {
                    TenderKind::Gateway { gateway, instrument, label, .. } => TenderKind::Gateway {
                        gateway,
                        payment_method_id: Some(id),
                        instrument,
                        label,
                    },
                    other => other,
                },
                ..self
            }),
    {
        let kind = match self.kind {
            TenderKind::Gateway { gateway, instrument, label, .. } => TenderKind::Gateway {
                gateway,
                payment_method_id: Some(id),
                instrument,
                label,
            },
            other => other,
        };
        TenderOffer {
            kind,
            available: self.available,
            restricted_to_shop: self.restricted_to_shop,
            max_amount: self.max_amount,
            priority: self.priority,
        }
    }

    /// Builder: restrict a gift card to one shop.
    pub fn restricted_to(self, shop_id: ShopId) -> (offer: Self)
        ensures
            offer == (TenderOffer { restricted_to_shop: Some(shop_id), ..self }),
    {
        TenderOffer { restricted_to_shop: Some(shop_id), ..self }
    }

    /// Builder: cap how much may be taken from this instrument.
    pub fn capped_at(self, max: Money) -> (offer: Self)
        ensures
            offer == (TenderOffer { max_amount: Some(max), ..self }),
    {
        TenderOffer { max_amount: Some(max), ..self }
    }

    fn effective_priority(&self) -> (rank: u8)
        ensures
            rank == self.rank(),
    {
        match self.priority {
            Some(priority) => priority,
            None => self.kind.default_priority(),
        }
    }

    fn shop_restriction(&self) -> (shop: Option<&ShopId>)
        ensures
            match shop {
                Some(id) => self.restriction() == Some(*id),
                None => self.restriction() is None,
            },
    {
        match &self.restricted_to_shop {
            Some(shop) => Some(shop),
            None => self.kind.restricted_shop(),
        }
    }
}

/// One instrument with the amount it will be charged.
#[derive(Debug, Clone, PartialEq)]
pub struct PlannedTender {
    /// The instrument.
    pub kind: TenderKind,
    /// Amount to take from it.
    pub amount: Money,
    /// How that amount is attributed to each shop, keyed by shop id. This is
    /// what makes partial refunds reversible against the right instrument.
    pub shop_allocation: OrderedMap<Money>,
}

/// One instrument with the amount it will be charged, its attribution as a map.
pub ghost struct PlannedView {
    /// The instrument.
    pub kind: TenderKind,
    /// Amount to take from it.
    pub amount: Money,
    /// How that amount is attributed to each shop.
    pub shop_allocation: Map<Seq<char>, Money>,
}

impl View for PlannedTender {
    type V = PlannedView;

    open spec fn view(&self) -> PlannedView {
        PlannedView {
            kind: self.kind,
            amount: self.amount,
            shop_allocation: self.shop_allocation@,
        }
    }
}

/// The views of a list of tenders.
pub open spec fn planned_views(list: Seq<PlannedTender>) -> Seq<PlannedView> {
    list.map_values(|tender: PlannedTender| tender@)
}

impl PlannedTender {
    /// Amount attributed to one shop.
    pub fn amount_for_shop(&self, shop_id: &ShopId, currency: Currency) -> (amount: Money)
        ensures
            amount == amount_under(self.shop_allocation@, shop_id@, currency),
    {
        get_amount(&self.shop_allocation, shop_id.as_str(), currency)
    }
}

/// The complete funding plan for an order.
#[derive(Debug, Clone, PartialEq)]
pub struct TenderPlan {
    /// Currency of every amount.
    pub currency: Currency,
    /// Amount that must be collected in total.
    pub total_due: Money,
    /// Instruments and their amounts, in application order.
    pub tenders: Vec<PlannedTender>,
}

/// Whether the offer at `i` is applied before the one at `j`: by rank, then as offered.
pub open spec fn offered_before(offers: Seq<TenderOffer>, i: int, j: int) -> bool {
    offers[i].rank() < offers[j].rank() || (offers[i].rank() == offers[j].rank() && i < j)
}

/// Whether `order` lists positions of `offers`, each before those applied later.
pub open spec fn offers_in_order(offers: Seq<TenderOffer>, order: Seq<int>) -> bool {
    &&& forall|k: int| 0 <= k < order.len() ==> 0 <= #[trigger] order[k] < offers.len()
    &&& forall|j: int, k: int|
        0 <= j < k < order.len() ==> offered_before(
            offers,
            #[trigger] order[j],
            #[trigger] order[k],
        )
}

/// Whether `order` lists the positions of all `offers` in the order of application.
pub open spec fn is_offer_order(offers: Seq<TenderOffer>, order: Seq<int>) -> bool {
    order.len() == offers.len() && offers_in_order(offers, order)
}

/// The positions held in a list.
pub open spec fn places(list: Seq<usize>) -> Seq<int> {
    list.map_values(|i: usize| i as int)
}

fn offer_order(offers: &[TenderOffer]) -> (order: Vec<usize>)
    ensures
        is_offer_order(offers@, places(order@)),
{
    let mut order: Vec<usize> = Vec::new();
    let mut n: usize = 0;
    while n < offers.len()
        invariant
            n <= offers@.len(),
            order@.len() == n,
            forall|k: int| 0 <= k < n ==> (#[trigger] order@[k]) < n,
            offers_in_order(offers@, places(order@)),
        decreases offers@.len() - n,
    {
        let ghost before = places(order@);
        let ghost listed = order@;
        let rank = offers[n].effective_priority();
        let mut at: usize = n;
        while at > 0 && rank < offers[order[at - 1]].effective_priority()
            invariant
                n < offers@.len(),
                rank == offers@[n as int].rank(),
                at <= n,
                order@ == listed,
                order@.len() == n,
                forall|k: int| 0 <= k < n ==> (#[trigger] order@[k]) < n,
                forall|k: int|
                    at <= k < n ==> rank < offers@[(#[trigger] order@[k]) as int].rank(),
            ensures
                at > 0 ==> rank >= offers@[order@[at - 1] as int].rank(),
            decreases at,
        {
            at -= 1;
        }
        order.insert(at, n);
        proof {
            let list = offers@;
            let after = places(order@);
            assert forall|k: int| 0 <= k < at implies list[(#[trigger] listed[k]) as int].rank()
                <= rank by {
                if k < at - 1 {
                    assert(offered_before(list, before[k], before[at - 1]));
                }
            }
            assert(after =~= before.insert(at as int, n as int));
            assert forall|k: int| 0 <= k < after.len() implies 0 <= #[trigger] after[k]
                < list.len() by {
                if k < at {
                    assert(after[k] == before[k]);
                } else if k > at {
                    assert(after[k] == before[k - 1]);
                }
            }
            assert forall|j: int, k: int| 0 <= j < k < after.len() implies offered_before(
                list,
                #[trigger] after[j],
                #[trigger] after[k],
            ) by {
                if k < at {
                    assert(after[j] == before[j] && after[k] == before[k]);
                } else if k == at {
                    assert(after[j] == listed[j] as int);
                } else if j < at {
                    assert(after[j] == before[j] && after[k] == before[k - 1]);
                } else if j == at {
                    assert(after[k] == listed[k - 1] as int);
                } else {
                    assert(after[j] == before[j - 1] && after[k] == before[k - 1]);
                }
            }
            assert forall|k: int| 0 <= k < n + 1 implies (#[trigger] order@[k]) < n + 1 by {
                if k < at {
                    assert(order@[k] == listed[k]);
                } else if k > at {
                    assert(order@[k] == listed[k - 1]);
                }
            }
        }
        n += 1;
    }
    order
}

/// The position of a shop in a list of totals, or the length when it is not there.
pub open spec fn shop_at(shops: Seq<ShopTotals>, shop: Seq<char>) -> int {
    crate::pricing::totals::shop_index(shops, shop)
}

/// What an offer could pay at most, before its own limits: its shop's share, or all that
/// is outstanding.
pub open spec fn addressable(
    shops: Seq<ShopTotals>,
    remaining: Seq<Money>,
    offer: TenderOffer,
    outstanding: Money,
    currency: Currency,
) -> Money {
    match offer.restriction() {
        Some(shop) => if shop_at(shops, shop@) < shops.len() {
            remaining[shop_at(shops, shop@)]
        } else {
            Money { minor: 0, currency }
        },
        None => outstanding,
    }
}

/// An amount, limited where there is a limit.
pub open spec fn limited(amount: Money, limit: Option<Money>) -> Result<Money, ErrorView> {
    match limit {
        None => Ok(amount),
        Some(most) => if most.currency != amount.currency {
            Err(
                ErrorView::CurrencyMismatch {
                    expected: most.currency,
                    actual: amount.currency,
                },
            )
        } else {
            amount.smaller(most)
        },
    }
}

/// The attribution of shares to the first `n` shops; a shop without a share has none.
pub open spec fn attributed(shops: Seq<ShopTotals>, shares: Seq<Money>, n: int) -> Map<
    Seq<char>,
    Money,
>
    decreases n,
{
    if n <= 0 {
        Map::empty()
    } else {
        let before = attributed(shops, shares, n - 1);
        if shares[n - 1].minor == 0 {
            before
        } else {
            before.insert(shops[n - 1].shop_id@, shares[n - 1])
        }
    }
}

/// What remains of each share once the shares are paid.
pub open spec fn paid_down(remaining: Seq<Money>, shares: Seq<Money>) -> Seq<Money> {
    Seq::new(
        remaining.len(),
        |i: int|
            Money {
                minor: (remaining[i].minor - shares[i].minor) as i64,
                currency: remaining[i].currency,
            },
    )
}

/// What one offer changes: what remains per shop, and the tender that it becomes, if any.
pub ghost struct TenderStep {
    /// What remains to be paid to each shop.
    pub remaining: Seq<Money>,
    /// The tender.
    pub tender: Option<PlannedView>,
}

/// What applying an offer leads to.
pub open spec fn tender_step(
    shops: Seq<ShopTotals>,
    remaining: Seq<Money>,
    offer: TenderOffer,
    currency: Currency,
) -> Result<TenderStep, ErrorView> {
    match total(remaining, currency) {
        Err(error) => Err(error),
        Ok(outstanding) => {
            let share = addressable(shops, remaining, offer, outstanding, currency);
            if outstanding.minor <= 0 || share.minor <= 0 {
                Ok(TenderStep { remaining, tender: None })
            } else {
                match limited(share, offer.available) {
                    Err(error) => Err(error),
                    Ok(affordable) => match limited(affordable, offer.max_amount) {
                        Err(error) => Err(error),
                        Ok(amount) => if amount.minor <= 0 {
                            Ok(TenderStep { remaining, tender: None })
                        } else {
                            charged(shops, remaining, offer, amount)
                        },
                    },
                }
            }
        },
    }
}

/// What charging an amount to an offer leads to.
pub open spec fn charged(
    shops: Seq<ShopTotals>,
    remaining: Seq<Money>,
    offer: TenderOffer,
    amount: Money,
) -> Result<TenderStep, ErrorView> {
    match offer.restriction() {
        Some(shop) => {
            let at = shop_at(shops, shop@);
            Ok(
                TenderStep {
                    remaining: remaining.update(
                        at,
                        Money {
                            minor: (remaining[at].minor - amount.minor) as i64,
                            currency: remaining[at].currency,
                        },
                    ),
                    tender: Some(
                        PlannedView {
                            kind: offer.kind,
                            amount,
                            shop_allocation: Map::empty().insert(shop@, amount),
                        },
                    ),
                },
            )
        },
        None => match weighted_allocation(amount, remaining) {
            Err(error) => Err(error),
            Ok(shares) => Ok(
                TenderStep {
                    remaining: paid_down(remaining, shares),
                    tender: Some(
                        PlannedView {
                            kind: offer.kind,
                            amount,
                            shop_allocation: attributed(shops, shares, shops.len() as int),
                        },
                    ),
                },
            ),
        },
    }
}

/// What remains per shop and the tenders so far, after the first `n` offers in `order`.
pub open spec fn tendered(
    shops: Seq<ShopTotals>,
    offers: Seq<TenderOffer>,
    order: Seq<int>,
    n: int,
    currency: Currency,
) -> Result<(Seq<Money>, Seq<PlannedView>), ErrorView>
    decreases n,
{
    if n <= 0 {
        Ok((shops.map_values(|totals: ShopTotals| totals.customer_total), Seq::empty()))
    } else {
        match tendered(shops, offers, order, n - 1, currency) {
            Err(error) => Err(error),
            Ok((remaining, tenders)) => match tender_step(
                shops,
                remaining,
                offers[order[n - 1]],
                currency,
            ) {
                Err(error) => Err(error),
                Ok(step) => Ok(
                    (
                        step.remaining,
                        match step.tender {
                            Some(tender) => tenders.push(tender),
                            None => tenders,
                        },
                    ),
                ),
            },
        }
    }
}

/// What each tender is charged.
pub open spec fn tender_amounts(tenders: Seq<PlannedView>) -> Seq<Money> {
    tenders.map_values(|tender: PlannedView| tender.amount)
}

/// Whether a tender is attributed to shops in full, and otherwise why not.
pub open spec fn tender_check(tender: PlannedView, currency: Currency) -> Result<(), ErrorView> {
    match total(amounts_listed(tender.shop_allocation), currency) {
        Err(error) => Err(error),
        Ok(allocated) => if allocated != tender.amount {
            Err(
                ErrorView::Internal(
                    "tender '"@ + tender.kind.receipt_label() + "' allocates "@
                        + allocated.text() + " of its "@ + tender.amount.text() + " charge"@,
                ),
            )
        } else {
            Ok(())
        },
    }
}

/// The check of the first `n` tenders.
pub open spec fn tenders_check(tenders: Seq<PlannedView>, currency: Currency, n: int) -> Result<
    (),
    ErrorView,
>
    decreases n,
{
    if n <= 0 {
        Ok(())
    } else {
        match tenders_check(tenders, currency, n - 1) {
            Err(error) => Err(error),
            Ok(_) => tender_check(tenders[n - 1], currency),
        }
    }
}

/// Whether a list of tenders collects what is due, and otherwise why not.
pub open spec fn collects(due: Money, tenders: Seq<PlannedView>, currency: Currency) -> Result<
    (),
    ErrorView,
> {
    match total(tender_amounts(tenders), currency) {
        Err(error) => Err(error),
        Ok(collected) => if collected != due {
            Err(
                ErrorView::Internal(
                    "tender plan collects "@ + collected.text() + " but "@ + due.text()
                        + " is due"@,
                ),
            )
        } else {
            tenders_check(tenders, currency, tenders.len() as int)
        },
    }
}

/// The tenders for a quote, given the order in which the offers are applied.
pub open spec fn funding(
    shops: Seq<ShopTotals>,
    due: Money,
    offers: Seq<TenderOffer>,
    order: Seq<int>,
    currency: Currency,
) -> Result<Seq<PlannedView>, ErrorView> {
    match tendered(shops, offers, order, order.len() as int, currency) {
        Err(error) => Err(error),
        Ok((remaining, tenders)) => match total(remaining, currency) {
            Err(error) => Err(error),
            Ok(outstanding) => if outstanding.minor > 0 {
                match due.minus(outstanding) {
                    Err(error) => Err(error),
                    Ok(covered) => Err(
                        ErrorView::InsufficientFunds {
                            source_name: "the selected payment methods"@,
                            available: covered,
                            required: due,
                        },
                    ),
                }
            } else {
                match collects(due, tenders, currency) {
                    Err(error) => Err(error),
                    Ok(_) => Ok(tenders),
                }
            },
        },
    }
}

/// What building a plan from a quote returns.
pub open spec fn funding_result(
    quote: Quote,
    offers: Seq<TenderOffer>,
    plan: Result<TenderPlan, Error>,
) -> bool {
    exists|order: Seq<int>| #[trigger]
        is_offer_order(offers, order) && match funding(
            quote.shop_totals@,
            quote.totals.total,
            offers,
            order,
            quote.currency,
        ) {
            Err(error) => plan is Err && plan->Err_0@ == error,
            Ok(tenders) => {
                &&& plan is Ok
                &&& plan->Ok_0.currency == quote.currency
                &&& plan->Ok_0.total_due == quote.totals.total
                &&& planned_views(plan->Ok_0.tenders@) == tenders
            },
        }
}

/// What is charged to an offer fits in what remains of its shop, or in what is
/// outstanding.
proof fn lemma_step_amounts(
    shops: Seq<ShopTotals>,
    remaining: Seq<Money>,
    offer: TenderOffer,
    currency: Currency,
    outstanding: Money,
    affordable: Money,
    amount: Money,
)
    requires
        remaining.len() == shops.len(),
        total(remaining, currency) == Ok::<Money, ErrorView>(outstanding),
        outstanding.minor > 0,
        addressable(shops, remaining, offer, outstanding, currency).minor > 0,
        limited(
            addressable(shops, remaining, offer, outstanding, currency),
            offer.available,
        ) == Ok::<Money, ErrorView>(affordable),
        limited(affordable, offer.max_amount) == Ok::<Money, ErrorView>(amount),
        amount.minor > 0,
    ensures
        amount.currency == currency,
        amount.minor <= addressable(shops, remaining, offer, outstanding, currency).minor,
        offer.restriction() matches Some(shop) ==> 0 <= shop_at(shops, shop@) < shops.len()
            && remaining[shop_at(shops, shop@)].currency == currency,
{
    law_total_is_the_sum(remaining, currency);
    if offer.restriction() is Some {
        let shop = offer.restriction()->0;
        crate::pricing::totals::lemma_shop_index_bounds(shops, shop@);
    }
}

proof fn lemma_step_shares(remaining: Seq<Money>, amount: Money, currency: Currency, i: int)
    requires
        total(remaining, currency) is Ok,
        0 < amount.minor <= total(remaining, currency)->Ok_0.minor,
        amount.currency == currency,
        weighted_allocation(amount, remaining) is Ok,
        0 <= i < remaining.len(),
    ensures
        ({
            let shares = weighted_allocation(amount, remaining)->Ok_0;
            &&& shares.len() == remaining.len()
            &&& shares[i].currency == currency
            &&& remaining[i].currency == currency
            &&& 0 <= shares[i].minor <= remaining[i].minor
        }),
{
    law_total_is_the_sum(remaining, currency);
    law_good_weights(amount, remaining);
    law_parts_sum_to_the_whole(amount.minor as int, minors(remaining));
    law_parts_stay_within_their_weights(amount.minor as int, minors(remaining), i);
    assert(minors(remaining)[i] == remaining[i].minor);
    let part = parts_of(amount.minor as int, minors(remaining))[i];
    assert(0 <= part <= remaining[i].minor);
}

impl TenderPlan {
    /// Whether the plan adds up, and otherwise why not.
    pub open spec fn check(self) -> Result<(), ErrorView> {
        collects(self.total_due, planned_views(self.tenders@), self.currency)
    }

    fn find_shop(quote: &Quote, shop: &ShopId) -> (at: usize)
        ensures
            at == shop_at(quote.shop_totals@, shop@),
            at <= quote.shop_totals@.len(),
    {
        let mut at: usize = 0;
        while at < quote.shop_totals.len() && !quote.shop_totals[at].shop_id.same(shop)
            invariant
                at <= quote.shop_totals@.len(),
                forall|i: int|
                    0 <= i < at ==> (#[trigger] quote.shop_totals@[i]).shop_id@ != shop@,
            ensures
                at < quote.shop_totals@.len() ==> quote.shop_totals@[at as int].shop_id@ == shop@,
            decreases quote.shop_totals@.len() - at,
        {
            at += 1;
        }
        proof {
            crate::pricing::totals::lemma_shop_index(quote.shop_totals@, shop@, at as int);
        }
        at
    }

    fn limit(amount: Money, most: Option<Money>) -> (capped: Result<Money, Error>)
        ensures
            outcome(capped) == limited(amount, most),
    {
        match most {
            None => Ok(amount),
            Some(most) => match most.assert_same_currency(amount) {
                Ok(_) => amount.try_min(most),
                Err(error) => Err(error),
            },
        }
    }

    fn apply_offer(
        quote: &Quote,
        remaining: &mut Vec<Money>,
        offer: &TenderOffer,
    ) -> (tender: Result<Option<PlannedTender>, Error>)
        requires
            old(remaining)@.len() == quote.shop_totals@.len(),
        ensures
            final(remaining)@.len() == old(remaining)@.len(),
            match tender_step(
                quote.shop_totals@,
                old(remaining)@,
                *offer,
                quote.currency,
            ) {
                Err(error) => tender is Err && tender->Err_0@ == error,
                Ok(step) => {
                    &&& tender is Ok
                    &&& final(remaining)@ == step.remaining
                    &&& match tender->Ok_0 {
                        Some(planned) => step.tender == Some(planned@),
                        None => step.tender is None,
                    }
                },
            },
    {
        let currency = quote.currency;
        let ghost shops = quote.shop_totals@;
        let ghost start = remaining@;
        let outstanding = match Money::sum(remaining.as_slice(), currency) {
            Ok(outstanding) => outstanding,
            Err(error) => return Err(error),
        };
        if !outstanding.is_positive() {
            return Ok(None);
        }
        // How much of the order this instrument is allowed to touch.
        let share = match offer.shop_restriction() {
            Some(shop) => {
                let at = Self::find_shop(quote, shop);
                if at < remaining.len() {
                    remaining[at]
                } else {
                    Money::zero(currency)
                }
            },
            None => outstanding,
        };
        if !share.is_positive() {
            return Ok(None);
        }
        let affordable = match Self::limit(share, offer.available) {
            Ok(amount) => amount,
            Err(error) => return Err(error),
        };
        let amount = match Self::limit(affordable, offer.max_amount) {
            Ok(amount) => amount,
            Err(error) => return Err(error),
        };
        if !amount.is_positive() {
            return Ok(None);
        }
        proof {
            lemma_step_amounts(shops, start, *offer, currency, outstanding, affordable, amount);
        }
        // Attribute the amount to shops and deduct it.
        let mut shop_allocation: OrderedMap<Money> = OrderedMap::new();
        match offer.shop_restriction() {
            Some(shop) => {
                let at = Self::find_shop(quote, shop);
                let rest = match remaining[at].try_sub(amount) {
                    Ok(rest) => rest,
                    Err(error) => return Err(error),
                };
                remaining.set(at, rest);
                shop_allocation.insert(shop.to_text(), amount);
            },
            None => {
                let shares = match allocate_by_weights(amount, remaining.as_slice()) {
                    Ok(shares) => shares,
                    Err(error) => return Err(error),
                };
                let ghost target = paid_down(start, shares@);
                proof {
                    law_good_weights(amount, start);
                    law_allocation_succeeds(amount, minors(start));
                }
                let mut i: usize = 0;
                while i < shares.len()
                    invariant
                        shops == quote.shop_totals@,
                        weighted_allocation(amount, start) == Ok::<Seq<Money>, ErrorView>(
                            shares@,
                        ),
                        total(start, currency) == Ok::<Money, ErrorView>(outstanding),
                        0 < amount.minor <= outstanding.minor,
                        amount.currency == currency,
                        start.len() == shops.len(),
                        shares@.len() == start.len(),
                        remaining@.len() == start.len(),
                        i <= shares@.len(),
                        target == paid_down(start, shares@),
                        forall|j: int| 0 <= j < i ==> #[trigger] remaining@[j] == target[j],
                        forall|j: int|
                            i <= j < start.len() ==> #[trigger] remaining@[j] == start[j],
                        shop_allocation@ == attributed(shops, shares@, i as int),
                    decreases shares@.len() - i,
                {
                    proof {
                        lemma_step_shares(start, amount, currency, i as int);
                    }
                    assert(remaining@[i as int] == start[i as int]);
                    if !shares[i].is_zero() {
                        let rest = match remaining[i].try_sub(shares[i]) {
                            Ok(rest) => rest,
                            Err(error) => return Err(error),
                        };
                        remaining.set(i, rest);
                        shop_allocation.insert(quote.shop_totals[i].shop_id.to_text(), shares[i]);
                    }
                    assert(remaining@[i as int] == target[i as int]);
                    i += 1;
                }
                assert(remaining@ =~= target);
            },
        }
        Ok(Some(PlannedTender { kind: offer.kind.clone(), amount, shop_allocation }))
    }

    /// Build a plan covering `quote` from the offered instruments.
    ///
    /// Fails with [`Error::InsufficientFunds`] if the offers cannot cover the
    /// total — better to know before charging the gift card than after.
    pub fn build(quote: &Quote, offers: &[TenderOffer]) -> (plan: Result<Self, Error>)
        ensures
            funding_result(*quote, offers@, plan),
    {
        let currency = quote.currency;
        let total_due = quote.totals.total;
        let ghost shops = quote.shop_totals@;
        // Remaining amount owed per shop, in quote order.
        let ghost start = shops.map_values(|totals: ShopTotals| totals.customer_total);
        let mut remaining: Vec<Money> = Vec::new();
        let mut i: usize = 0;
        while i < quote.shop_totals.len()
            invariant
                shops == quote.shop_totals@,
                start == shops.map_values(|totals: ShopTotals| totals.customer_total),
                i <= shops.len(),
                remaining@ == start.take(i as int),
            decreases shops.len() - i,
        {
            remaining.push(quote.shop_totals[i].customer_total);
            i += 1;
            assert(remaining@ =~= start.take(i as int));
        }
        assert(remaining@ =~= start);
        let order = offer_order(offers);
        let ghost sequence = places(order@);
        assert(is_offer_order(offers@, sequence));
        let mut tenders: Vec<PlannedTender> = Vec::new();
        assert(planned_views(tenders@) =~= Seq::<PlannedView>::empty());
        let mut n: usize = 0;
        while n < order.len()
            invariant
                shops == quote.shop_totals@,
                currency == quote.currency,
                total_due == quote.totals.total,
                sequence == places(order@),
                is_offer_order(offers@, sequence),
                n <= order@.len(),
                remaining@.len() == shops.len(),
                tendered(shops, offers@, sequence, n as int, currency) == Ok::<
                    (Seq<Money>, Seq<PlannedView>),
                    ErrorView,
                >((remaining@, planned_views(tenders@))),
            decreases order@.len() - n,
        {
            assert(sequence[n as int] == order@[n as int] as int);
            let ghost before = planned_views(tenders@);
            match Self::apply_offer(quote, &mut remaining, &offers[order[n]]) {
                Ok(tender) => match tender {
                    Some(planned) => {
                        let ghost view = planned@;
                        tenders.push(planned);
                        assert(planned_views(tenders@) =~= before.push(view));
                    },
                    None => {},
                },
                Err(error) => {
                    proof {
                        lemma_error_stays(
                            |k: int| tendered(shops, offers@, sequence, k, currency),
                            n + 1,
                            order@.len() as int,
                        );
                    }
                    return Err(error);
                },
            }
            n += 1;
        }
        let outstanding = match Money::sum(remaining.as_slice(), currency) {
            Ok(outstanding) => outstanding,
            Err(error) => return Err(error),
        };
        if outstanding.is_positive() {
            let covered = match total_due.try_sub(outstanding) {
                Ok(covered) => covered,
                Err(error) => return Err(error),
            };
            return Err(
                Error::InsufficientFunds {
                    source_name: "the selected payment methods".to_owned(),
                    available: covered,
                    required: total_due,
                },
            );
        }
        let plan = TenderPlan { currency, total_due, tenders };
        match plan.verify() {
            Ok(_) => Ok(plan),
            Err(error) => Err(error),
        }
    }

    /// The gateway tenders, which are the ones that need an authorisation.
    pub fn gateway_tenders(&self) -> (tenders: Vec<&PlannedTender>)
        ensures
            tenders@.map_values(|tender: &PlannedTender| *tender) == picked(self.tenders@, false),
    {
        self.pick(false)
    }

    /// The stored-value tenders, which are settled internally.
    pub fn stored_value_tenders(&self) -> (tenders: Vec<&PlannedTender>)
        ensures
            tenders@.map_values(|tender: &PlannedTender| *tender) == picked(self.tenders@, true),
    {
        self.pick(true)
    }

    fn pick(&self, stored: bool) -> (tenders: Vec<&PlannedTender>)
        ensures
            tenders@.map_values(|tender: &PlannedTender| *tender) == picked(self.tenders@, stored),
    {
        let mut tenders: Vec<&PlannedTender> = Vec::new();
        let mut n: usize = 0;
        assert(self.tenders@.take(0) =~= Seq::<PlannedTender>::empty());
        assert(tenders@.map_values(|tender: &PlannedTender| *tender)
            =~= Seq::<PlannedTender>::empty());
        while n < self.tenders.len()
            invariant
                n <= self.tenders@.len(),
                tenders@.map_values(|tender: &PlannedTender| *tender) == picked(
                    self.tenders@.take(n as int),
                    stored,
                ),
            decreases self.tenders@.len() - n,
        {
            let ghost before = tenders@.map_values(|tender: &PlannedTender| *tender);
            assert(self.tenders@.take(n + 1).drop_last() =~= self.tenders@.take(n as int));
            if self.tenders[n].kind.is_stored_value() == stored {
                tenders.push(&self.tenders[n]);
                assert(tenders@.map_values(|tender: &PlannedTender| *tender) =~= before.push(
                    self.tenders@[n as int],
                ));
            }
            n += 1;
        }
        assert(self.tenders@.take(n as int) =~= self.tenders@);
        tenders
    }

    /// Total that will be charged to gateways.
    pub fn gateway_total(&self) -> (amount: Result<Money, Error>)
        ensures
            outcome(amount) == total(
                picked(self.tenders@, false).map_values(|tender: PlannedTender| tender.amount),
                self.currency,
            ),
    {
        let tenders = self.gateway_tenders();
        let ghost list = picked(self.tenders@, false);
        let ghost all = list.map_values(|tender: PlannedTender| tender.amount);
        let mut amounts: Vec<Money> = Vec::new();
        let mut i: usize = 0;
        while i < tenders.len()
            invariant
                i <= tenders@.len(),
                list == tenders@.map_values(|tender: &PlannedTender| *tender),
                all == list.map_values(|tender: PlannedTender| tender.amount),
                amounts@ == all.take(i as int),
            decreases tenders@.len() - i,
        {
            assert(list[i as int] == *tenders@[i as int]);
            amounts.push(tenders[i].amount);
            i += 1;
            assert(amounts@ =~= all.take(i as int));
        }
        assert(amounts@ =~= all);
        Money::sum(amounts.as_slice(), self.currency)
    }

    /// Check that the plan adds up.
    pub fn verify(&self) -> (verified: Result<(), Error>)
        ensures
            outcome(verified) == self.check(),
    {
        let ghost views = planned_views(self.tenders@);
        let ghost all = tender_amounts(views);
        let mut amounts: Vec<Money> = Vec::new();
        let mut i: usize = 0;
        while i < self.tenders.len()
            invariant
                i <= self.tenders@.len(),
                views == planned_views(self.tenders@),
                all == tender_amounts(views),
                amounts@ == all.take(i as int),
            decreases self.tenders@.len() - i,
        {
            assert(views[i as int] == self.tenders@[i as int]@);
            amounts.push(self.tenders[i].amount);
            i += 1;
            assert(amounts@ =~= all.take(i as int));
        }
        assert(amounts@ =~= all);
        let collected = match Money::sum(amounts.as_slice(), self.currency) {
            Ok(collected) => collected,
            Err(error) => return Err(error),
        };
        if collected != self.total_due {
            let mut message = join3(
                "tender plan collects ",
                collected.to_text().as_str(),
                " but ",
            );
            message.append(self.total_due.to_text().as_str());
            message.append(" is due");
            return Err(Error::internal(message.as_str()));
        }
        let mut n: usize = 0;
        while n < self.tenders.len()
            invariant
                views == planned_views(self.tenders@),
                n <= views.len(),
                tenders_check(views, self.currency, n as int) is Ok,
                self.check() == tenders_check(views, self.currency, views.len() as int),
            decreases views.len() - n,
        {
            assert(views[n as int] == self.tenders@[n as int]@);
            proof {
                if tenders_check(views, self.currency, n + 1) is Err {
                    lemma_error_stays(
                        |k: int| tenders_check(views, self.currency, k),
                        n + 1,
                        views.len() as int,
                    );
                }
            }
            let tender = &self.tenders[n];
            let allocated = match sum_amounts(&tender.shop_allocation, self.currency) {
                Ok(allocated) => allocated,
                Err(error) => return Err(error),
            };
            if allocated != tender.amount {
                let mut message = join3(
                    "tender '",
                    tender.kind.label().as_str(),
                    "' allocates ",
                );
                message.append(allocated.to_text().as_str());
                message.append(" of its ");
                message.append(tender.amount.to_text().as_str());
                message.append(" charge");
                return Err(Error::internal(message.as_str()));
            }
            n += 1;
        }
        Ok(())
    }
}

/// The tenders that draw on stored value, or those that do not.
pub open spec fn picked(tenders: Seq<PlannedTender>, stored: bool) -> Seq<PlannedTender>
    decreases tenders.len(),
{
    if tenders.len() == 0 {
        Seq::empty()
    } else {
        let before = picked(tenders.drop_last(), stored);
        if tenders.last().kind.stored_value() == stored {
            before.push(tenders.last())
        } else {
            before
        }
    }
}

/// Stored value is spent first: among offers that keep their default rank, gift cards and
/// shop credit are applied before any gateway.
pub proof fn law_stored_value_is_spent_first(
    offers: Seq<TenderOffer>,
    order: Seq<int>,
    j: int,
    k: int,
)
    requires
        is_offer_order(offers, order),
        0 <= j < order.len(),
        0 <= k < order.len(),
        offers[order[j]].priority is None,
        offers[order[k]].priority is None,
        offers[order[j]].kind.stored_value(),
        !offers[order[k]].kind.stored_value(),
    ensures
        j < k,
{
    if k < j {
        assert(offered_before(offers, order[k], order[j]));
    }
}

/// What an offer is charged is what the shops are owed less: paying with it lowers what is
/// outstanding by exactly the amount of its tender, and by no more than its balance and
/// the shopper's cap.
pub proof fn law_tenders_pay_what_they_charge(
    shops: Seq<ShopTotals>,
    remaining: Seq<Money>,
    offer: TenderOffer,
    currency: Currency,
)
    requires
        remaining.len() == shops.len(),
    ensures
        tender_step(shops, remaining, offer, currency) matches Ok(step) ==> {
            &&& step.remaining.len() == remaining.len()
            &&& all_in(step.remaining, currency)
            &&& step.tender is None ==> step.remaining == remaining
            &&& step.tender matches Some(tender) ==> {
                &&& tender.amount.minor > 0
                &&& tender.amount.currency == currency
                &&& sum(minors(step.remaining)) == sum(minors(remaining)) - tender.amount.minor
                &&& offer.available matches Some(most) ==> tender.amount.minor <= most.minor
                &&& offer.max_amount matches Some(most) ==> tender.amount.minor <= most.minor
            }
        },
{
    if tender_step(shops, remaining, offer, currency) is Ok {
        law_total_is_the_sum(remaining, currency);
        let step = tender_step(shops, remaining, offer, currency)->Ok_0;
        if step.tender is Some {
            let outstanding = total(remaining, currency)->Ok_0;
            let share = addressable(shops, remaining, offer, outstanding, currency);
            let affordable = limited(share, offer.available)->Ok_0;
            let amount = limited(affordable, offer.max_amount)->Ok_0;
            lemma_step_amounts(
                shops,
                remaining,
                offer,
                currency,
                outstanding,
                affordable,
                amount,
            );
            match offer.restriction() {
                Some(shop) => {
                    let at = shop_at(shops, shop@);
                    lemma_sum_update(minors(remaining), at, remaining[at].minor - amount.minor);
                    assert(minors(step.remaining) =~= minors(remaining).update(
                        at,
                        remaining[at].minor - amount.minor,
                    ));
                },
                None => {
                    let shares = weighted_allocation(amount, remaining)->Ok_0;
                    law_good_weights(amount, remaining);
                    law_allocation_succeeds(amount, minors(remaining));
                    let left = minors(step.remaining);
                    assert forall|i: int| 0 <= i < remaining.len() implies #[trigger] minors(
                        remaining,
                    )[i] == left[i] + minors(shares)[i] by {
                        lemma_step_shares(remaining, amount, currency, i);
                    }
                    crate::sums::lemma_sum_add(left, minors(shares), minors(remaining));
                    assert forall|i: int| 0 <= i < step.remaining.len() implies (
                    #[trigger] step.remaining[i]).currency == currency by {
                        lemma_step_shares(remaining, amount, currency, i);
                    }
                },
            }
        }
    }
}

/// A plan that adds up collects exactly what is due, and every tender is attributed to
/// shops in full.
pub proof fn law_plans_collect_what_is_due(plan: TenderPlan, i: int)
    requires
        plan.check() is Ok,
        0 <= i < plan.tenders@.len(),
    ensures
        total(tender_amounts(planned_views(plan.tenders@)), plan.currency) == Ok::<
            Money,
            ErrorView,
        >(plan.total_due),
        total(amounts_listed(plan.tenders@[i].shop_allocation@), plan.currency) == Ok::<
            Money,
            ErrorView,
        >(plan.tenders@[i].amount),
{
    let views = planned_views(plan.tenders@);
    lemma_tender_passed(views, plan.currency, views.len() as int, i);
    assert(views[i] == plan.tenders@[i]@);
}

/// What a list of tenders pays a shop, in minor units.
pub open spec fn paid_to(tenders: Seq<PlannedView>, shop: Seq<char>, currency: Currency) -> int
    decreases tenders.len(),
{
    if tenders.len() == 0 {
        0
    } else {
        paid_to(tenders.drop_last(), shop, currency) + amount_under(
            tenders.last().shop_allocation,
            shop,
            currency,
        ).minor
    }
}

proof fn lemma_attributed(
    shops: Seq<ShopTotals>,
    shares: Seq<Money>,
    n: int,
    currency: Currency,
    i: int,
)
    requires
        each_shop_once(shops),
        0 <= n <= shops.len(),
        0 <= i < shops.len(),
    ensures
        amount_under(attributed(shops, shares, n), shops[i].shop_id@, currency).minor == if i < n {
            shares[i].minor as int
        } else {
            0
        },
    decreases n,
{
    if n > 0 {
        lemma_attributed(shops, shares, n - 1, currency, i);
        if i < n - 1 {
            assert(shops[i].shop_id@ != shops[n - 1].shop_id@);
        } else if n - 1 < i {
            assert(shops[n - 1].shop_id@ != shops[i].shop_id@);
        }
    }
}

proof fn lemma_step_pays(
    shops: Seq<ShopTotals>,
    remaining: Seq<Money>,
    offer: TenderOffer,
    currency: Currency,
    i: int,
)
    requires
        each_shop_once(shops),
        remaining.len() == shops.len(),
        0 <= i < shops.len(),
        tender_step(shops, remaining, offer, currency) is Ok,
    ensures
        ({
            let step = tender_step(shops, remaining, offer, currency)->Ok_0;
            &&& step.remaining.len() == remaining.len()
            &&& remaining[i].minor >= 0 ==> step.remaining[i].minor >= 0
            &&& remaining[i].minor == step.remaining[i].minor + match step.tender {
                Some(tender) => amount_under(
                    tender.shop_allocation,
                    shops[i].shop_id@,
                    currency,
                ).minor as int,
                None => 0,
            }
        }),
{
    let step = tender_step(shops, remaining, offer, currency)->Ok_0;
    if step.tender is Some {
        let outstanding = total(remaining, currency)->Ok_0;
        let share = addressable(shops, remaining, offer, outstanding, currency);
        let affordable = limited(share, offer.available)->Ok_0;
        let amount = limited(affordable, offer.max_amount)->Ok_0;
        lemma_step_amounts(shops, remaining, offer, currency, outstanding, affordable, amount);
        match offer.restriction() {
            Some(shop) => {
                let at = shop_at(shops, shop@);
                lemma_shop_index_names(shops, shop@);
                if i < at {
                    assert(shops[i].shop_id@ != shops[at].shop_id@);
                } else if at < i {
                    assert(shops[at].shop_id@ != shops[i].shop_id@);
                }
            },
            None => {
                let shares = weighted_allocation(amount, remaining)->Ok_0;
                lemma_step_shares(remaining, amount, currency, i);
                lemma_attributed(shops, shares, shops.len() as int, currency, i);
            },
        }
    }
}

proof fn lemma_tendered_pays(
    shops: Seq<ShopTotals>,
    offers: Seq<TenderOffer>,
    order: Seq<int>,
    n: int,
    currency: Currency,
    i: int,
)
    requires
        each_shop_once(shops),
        0 <= i < shops.len(),
        shops[i].customer_total.minor >= 0,
        tendered(shops, offers, order, n, currency) is Ok,
    ensures
        ({
            let (remaining, tenders) = tendered(shops, offers, order, n, currency)->Ok_0;
            &&& remaining.len() == shops.len()
            &&& remaining[i].minor >= 0
            &&& remaining[i].minor + paid_to(tenders, shops[i].shop_id@, currency)
                == shops[i].customer_total.minor
        }),
    decreases n,
{
    if n > 0 {
        lemma_tendered_pays(shops, offers, order, n - 1, currency, i);
        let (before, earlier) = tendered(shops, offers, order, n - 1, currency)->Ok_0;
        let offer = offers[order[n - 1]];
        lemma_step_pays(shops, before, offer, currency, i);
        if let Some(tender) = tender_step(shops, before, offer, currency)->Ok_0.tender {
            assert(earlier.push(tender).drop_last() =~= earlier);
        }
    }
}

/// The tenders of a plan cover each shop in full: what they pay a shop, taken together, is
/// what the shopper owes it. A quote names each shop once, and here it owes none less than
/// nothing.
pub proof fn law_tenders_cover_each_shop(
    shops: Seq<ShopTotals>,
    due: Money,
    offers: Seq<TenderOffer>,
    order: Seq<int>,
    currency: Currency,
    i: int,
)
    requires
        each_shop_once(shops),
        forall|k: int| 0 <= k < shops.len() ==> (#[trigger] shops[k]).customer_total.minor >= 0,
        0 <= i < shops.len(),
    ensures
        funding(shops, due, offers, order, currency) matches Ok(tenders) ==> paid_to(
            tenders,
            shops[i].shop_id@,
            currency,
        ) == shops[i].customer_total.minor,
{
    if funding(shops, due, offers, order, currency) is Ok {
        let n = order.len() as int;
        let (remaining, tenders) = tendered(shops, offers, order, n, currency)->Ok_0;
        lemma_tendered_pays(shops, offers, order, n, currency, i);
        law_total_is_the_sum(remaining, currency);
        let left = minors(remaining);
        assert forall|k: int| 0 <= k < left.len() implies #[trigger] left[k] >= 0 by {
            assert(shops[k].customer_total.minor >= 0);
            lemma_tendered_pays(shops, offers, order, n, currency, k);
        }
        lemma_sum_non_negative(left);
        assert(left[i] == remaining[i].minor);
    }
}

proof fn lemma_tender_passed(tenders: Seq<PlannedView>, currency: Currency, n: int, i: int)
    requires
        tenders_check(tenders, currency, n) is Ok,
        0 <= i < n,
    ensures
        tender_check(tenders[i], currency) is Ok,
    decreases n,
{
    if i < n - 1 {
        lemma_tender_passed(tenders, currency, n - 1, i);
    }
}

/// Value that is bound to a shop pays for that shop alone: its tender is attributed to the
/// shop in full, takes no more than the shop is still owed, and leaves what every other
/// shop is owed as it was.
pub proof fn law_bound_value_stays_with_its_shop(
    shops: Seq<ShopTotals>,
    remaining: Seq<Money>,
    offer: TenderOffer,
    currency: Currency,
    shop: ShopId,
    i: int,
)
    requires
        remaining.len() == shops.len(),
        offer.restriction() == Some(shop),
        0 <= i < shops.len(),
    ensures
        tender_step(shops, remaining, offer, currency) matches Ok(step) ==> {
            let at = shop_at(shops, shop@);
            &&& i != at ==> step.remaining[i] == remaining[i]
            &&& step.tender matches Some(tender) ==> {
                &&& 0 <= at < shops.len()
                &&& tender.shop_allocation == Map::<Seq<char>, Money>::empty().insert(
                    shop@,
                    tender.amount,
                )
                &&& tender.amount.minor <= remaining[at].minor
            }
        },
{
    if tender_step(shops, remaining, offer, currency) is Ok {
        let step = tender_step(shops, remaining, offer, currency)->Ok_0;
        if step.tender is Some {
            law_total_is_the_sum(remaining, currency);
            let outstanding = total(remaining, currency)->Ok_0;
            let share = addressable(shops, remaining, offer, outstanding, currency);
            let affordable = limited(share, offer.available)->Ok_0;
            let amount = limited(affordable, offer.max_amount)->Ok_0;
            lemma_step_amounts(
                shops,
                remaining,
                offer,
                currency,
                outstanding,
                affordable,
                amount,
            );
        }
    }
}

/// What an offer may pay for at most of what is open: all of it, or what is open for the
/// one shop that the offer or its kind is bound to.
pub open spec fn open_to(shops: Seq<ShopTotals>, remaining: Seq<Money>, offer: TenderOffer) -> int {
    let bound = if offer.restricted_to_shop is Some {
        offer.restricted_to_shop
    } else if offer.kind is ShopCredit {
        Some(offer.kind->ShopCredit_shop_id)
    } else {
        None
    };
    match bound {
        None => sum(minors(remaining)),
        Some(shop) => sum(
            Seq::new(
                shops.len(),
                |i: int|
                    if shops[i].shop_id@ == shop@ {
                        remaining[i].minor as int
                    } else {
                        0
                    },
            ),
        ),
    }
}

/// The least of an amount and an optional limit on it.
pub open spec fn at_most(amount: int, limit: Option<Money>) -> int {
    match limit {
        Some(most) => if most.minor < amount {
            most.minor as int
        } else {
            amount
        },
        None => amount,
    }
}

proof fn lemma_single_term(terms: Seq<int>, at: int)
    requires
        0 <= at < terms.len(),
        forall|i: int| 0 <= i < terms.len() && i != at ==> #[trigger] terms[i] == 0,
    ensures
        sum(terms) == terms[at],
    decreases terms.len(),
{
    let rest = terms.drop_last();
    if at < rest.len() {
        assert forall|i: int| 0 <= i < rest.len() && i != at implies #[trigger] rest[i] == 0 by {
            assert(terms[i] == 0);
        }
        lemma_single_term(rest, at);
        assert(terms[terms.len() - 1] == 0);
    } else {
        lemma_no_terms(rest);
    }
}

proof fn lemma_no_terms(terms: Seq<int>)
    requires
        forall|i: int| 0 <= i < terms.len() ==> #[trigger] terms[i] == 0,
    ensures
        sum(terms) == 0,
    decreases terms.len(),
{
    if terms.len() > 0 {
        assert(terms[terms.len() - 1] == 0);
        assert forall|i: int| 0 <= i < terms.drop_last().len() implies #[trigger] terms.drop_last()[i]
            == 0 by {
            assert(terms[i] == 0);
        }
        lemma_no_terms(terms.drop_last());
    }
}

/// An offer pays as much as it can: all that is open to it, as far as its balance and the
/// shopper's cap allow, and it becomes a tender of its own kind exactly where that is more
/// than nothing.
pub proof fn law_offers_pay_all_they_can(
    shops: Seq<ShopTotals>,
    remaining: Seq<Money>,
    offer: TenderOffer,
    currency: Currency,
)
    requires
        each_shop_once(shops),
        remaining.len() == shops.len(),
        all_in(remaining, currency),
        forall|i: int| 0 <= i < remaining.len() ==> (#[trigger] remaining[i]).minor >= 0,
        sum(minors(remaining)) <= i64::MAX,
        offer.available matches Some(most) ==> most.currency == currency,
        offer.max_amount matches Some(most) ==> most.currency == currency,
    ensures
        tender_step(shops, remaining, offer, currency) matches Ok(step) && {
            let amount = at_most(
                at_most(open_to(shops, remaining, offer), offer.available),
                offer.max_amount,
            );
            &&& step.tender is Some <==> amount > 0
            &&& step.tender matches Some(tender) ==> tender.amount == (Money {
                minor: amount as i64,
                currency,
            }) && tender.kind == offer.kind
        },
{
    law_total_succeeds(remaining, currency);
    law_total_is_the_sum(remaining, currency);
    assert forall|i: int| 0 <= i < remaining.len() implies #[trigger] minors(remaining)[i]
        >= 0 by {
        assert(remaining[i].minor >= 0);
    }
    lemma_sum_non_negative(minors(remaining));
    let outstanding = total(remaining, currency)->Ok_0;
    let share = addressable(shops, remaining, offer, outstanding, currency);
    if let Some(shop) = offer.restriction() {
        let at = shop_at(shops, shop@);
        lemma_shop_index_names(shops, shop@);
        lemma_shop_index_bounds(shops, shop@);
        let terms = Seq::new(
            shops.len(),
            |i: int|
                if shops[i].shop_id@ == shop@ {
                    remaining[i].minor as int
                } else {
                    0
                },
        );
        if at < shops.len() {
            assert forall|i: int| 0 <= i < terms.len() && i != at implies #[trigger] terms[i]
                == 0 by {
                if i < at {
                    assert(shops[i].shop_id@ != shops[at].shop_id@);
                } else {
                    assert(shops[at].shop_id@ != shops[i].shop_id@);
                }
            }
            lemma_single_term(terms, at);
            assert(remaining[at].currency == currency);
            assert(minors(remaining)[at] == remaining[at].minor);
        } else {
            assert forall|i: int| 0 <= i < terms.len() implies #[trigger] terms[i] == 0 by {
                assert(shops[i].shop_id@ != shop@);
            }
            lemma_no_terms(terms);
        }
    } else {
        let amount = Money { minor: 0, currency };
        law_good_weights(amount, remaining);
        if remaining.len() > 0 {
            let paid = at_most(
                at_most(outstanding.minor as int, offer.available),
                offer.max_amount,
            );
            if paid > 0 {
                let charge = Money { minor: paid as i64, currency };
                law_good_weights(charge, remaining);
                law_allocation_succeeds(charge, minors(remaining));
            }
        } else {
            assert(minors(remaining) =~= Seq::<int>::empty());
        }
    }
}

/// An offer that is bound to no shop pays each shop in proportion to what is open for it:
/// a shop's part is less than one minor unit away from the exact proportion, no more than
/// is open, and what stays open is the rest.
pub proof fn law_unbound_offers_pay_in_proportion(
    shops: Seq<ShopTotals>,
    remaining: Seq<Money>,
    offer: TenderOffer,
    currency: Currency,
    i: int,
)
    requires
        each_shop_once(shops),
        remaining.len() == shops.len(),
        offer.restricted_to_shop is None,
        !(offer.kind is ShopCredit),
        0 <= i < shops.len(),
    ensures
        tender_step(shops, remaining, offer, currency) matches Ok(step) ==> (
        step.tender matches Some(tender) ==> {
            let part = amount_under(tender.shop_allocation, shops[i].shop_id@, currency).minor;
            let all = sum(minors(remaining));
            &&& -all < part * all - tender.amount.minor * remaining[i].minor < all
            &&& 0 <= part <= remaining[i].minor
            &&& step.remaining[i].minor == remaining[i].minor - part
        }),
{
    if tender_step(shops, remaining, offer, currency) is Ok {
        let step = tender_step(shops, remaining, offer, currency)->Ok_0;
        if step.tender is Some {
            law_total_is_the_sum(remaining, currency);
            let outstanding = total(remaining, currency)->Ok_0;
            let share = addressable(shops, remaining, offer, outstanding, currency);
            let affordable = limited(share, offer.available)->Ok_0;
            let amount = limited(affordable, offer.max_amount)->Ok_0;
            lemma_step_amounts(shops, remaining, offer, currency, outstanding, affordable, amount);
            lemma_step_pays(shops, remaining, offer, currency, i);
            let shares = weighted_allocation(amount, remaining)->Ok_0;
            lemma_attributed(shops, shares, shops.len() as int, currency, i);
            lemma_step_shares(remaining, amount, currency, i);
            law_good_weights(amount, remaining);
            law_parts_sum_to_the_whole(amount.minor as int, minors(remaining));
            law_parts_are_proportional(amount.minor as int, minors(remaining), i);
            let part = parts_of(amount.minor as int, minors(remaining))[i];
            assert(0 <= part <= amount.minor);
            assert(shares[i].minor == part);
            assert(minors(remaining)[i] == remaining[i].minor);
        }
    }
}

/// Gift cards go before shop credit and shop credit before gateways, unless the shopper
/// ranks an offer otherwise; a lower rank goes first, and of equal ranks what was offered
/// first.
pub proof fn law_offers_apply_by_rank(offers: Seq<TenderOffer>, order: Seq<int>, j: int, k: int)
    requires
        is_offer_order(offers, order),
        0 <= j < k < order.len(),
    ensures
        ({
            let first = offers[order[j]];
            let second = offers[order[k]];
            &&& first.priority is Some && second.priority is Some ==> first.priority->0
                <= second.priority->0
            &&& first.priority is Some && first.priority == second.priority ==> order[j] < order[k]
            &&& first.priority is None && second.priority is None ==> {
                &&& first.kind is Gateway ==> second.kind is Gateway
                &&& first.kind is ShopCredit ==> !(second.kind is GiftCard)
                &&& first.kind is GiftCard && second.kind is GiftCard ==> order[j] < order[k]
                &&& first.kind is Gateway && second.kind is Gateway ==> order[j] < order[k]
            }
        }),
{
    assert(offered_before(offers, order[j], order[k]));
}

proof fn lemma_tendered_is_open(
    shops: Seq<ShopTotals>,
    offers: Seq<TenderOffer>,
    order: Seq<int>,
    n: int,
    currency: Currency,
)
    requires
        each_shop_once(shops),
        0 <= n <= order.len(),
        forall|k: int| 0 <= k < shops.len() ==> (#[trigger] shops[k]).customer_total.minor >= 0,
        tendered(shops, offers, order, n, currency) is Ok,
    ensures
        ({
            let remaining = tendered(shops, offers, order, n, currency)->Ok_0.0;
            &&& remaining.len() == shops.len()
            &&& forall|i: int| 0 <= i < shops.len() ==> (#[trigger] remaining[i]).minor >= 0
        }),
{
    let remaining = tendered(shops, offers, order, n, currency)->Ok_0.0;
    assert forall|i: int| 0 <= i < shops.len() implies (#[trigger] remaining[i]).minor >= 0 by {
        assert(shops[i].customer_total.minor >= 0);
        lemma_tendered_pays(shops, offers, order, n, currency, i);
    }
    if shops.len() == 0 {
        lemma_tendered_len(shops, offers, order, n, currency);
    } else {
        assert(shops[0].customer_total.minor >= 0);
        lemma_tendered_pays(shops, offers, order, n, currency, 0);
    }
}

proof fn lemma_tendered_len(
    shops: Seq<ShopTotals>,
    offers: Seq<TenderOffer>,
    order: Seq<int>,
    n: int,
    currency: Currency,
)
    requires
        tendered(shops, offers, order, n, currency) is Ok,
    ensures
        tendered(shops, offers, order, n, currency)->Ok_0.0.len() == shops.len(),
    decreases n,
{
    if n > 0 {
        lemma_tendered_len(shops, offers, order, n - 1, currency);
        let (before, _) = tendered(shops, offers, order, n - 1, currency)->Ok_0;
        law_tenders_pay_what_they_charge(shops, before, offers[order[n - 1]], currency);
    }
}

/// An instrument without a limit pays for whatever the others leave: with one among the
/// offers nothing stays open.
pub proof fn law_unlimited_offers_leave_nothing_open(
    shops: Seq<ShopTotals>,
    offers: Seq<TenderOffer>,
    order: Seq<int>,
    n: int,
    currency: Currency,
    k: int,
)
    requires
        each_shop_once(shops),
        0 <= k < n <= order.len(),
        forall|i: int| 0 <= i < shops.len() ==> (#[trigger] shops[i]).customer_total.minor >= 0,
        offers[order[k]].restricted_to_shop is None,
        !(offers[order[k]].kind is ShopCredit),
        offers[order[k]].available is None,
        offers[order[k]].max_amount is None,
    ensures
        tendered(shops, offers, order, n, currency) matches Ok((remaining, tenders)) ==> sum(
            minors(remaining),
        ) == 0,
    decreases n,
{
    if tendered(shops, offers, order, n, currency) is Ok {
        let (before, _) = tendered(shops, offers, order, n - 1, currency)->Ok_0;
        let (remaining, _) = tendered(shops, offers, order, n, currency)->Ok_0;
        let offer = offers[order[n - 1]];
        lemma_tendered_is_open(shops, offers, order, n - 1, currency);
        lemma_tendered_is_open(shops, offers, order, n, currency);
        law_tenders_pay_what_they_charge(shops, before, offer, currency);
        law_total_is_the_sum(before, currency);
        assert forall|i: int| 0 <= i < before.len() implies #[trigger] minors(before)[i] >= 0 by {
            assert(before[i].minor >= 0);
        }
        assert forall|i: int| 0 <= i < remaining.len() implies #[trigger] minors(remaining)[i]
            >= 0 by {
            assert(remaining[i].minor >= 0);
        }
        lemma_sum_non_negative(minors(before));
        lemma_sum_non_negative(minors(remaining));
        if k < n - 1 {
            law_unlimited_offers_leave_nothing_open(shops, offers, order, n - 1, currency, k);
        } else {
            let step = tender_step(shops, before, offer, currency)->Ok_0;
            if sum(minors(before)) > 0 {
                assert(step.tender is Some);
                assert(step.tender->0.amount.minor == sum(minors(before)));
            }
        }
    }
}

/// Offers that leave something open do not fund an order: the error names what is due and
/// what the offers cover of it. Where nothing is left open the order is funded, provided
/// the tenders come to what is due.
pub proof fn law_short_offers_are_refused(
    shops: Seq<ShopTotals>,
    due: Money,
    offers: Seq<TenderOffer>,
    order: Seq<int>,
    currency: Currency,
)
    requires
        due.currency == currency,
        due.minor >= 0,
        tendered(shops, offers, order, order.len() as int, currency) is Ok,
        total(tendered(shops, offers, order, order.len() as int, currency)->Ok_0.0, currency) is Ok,
    ensures
        ({
            let remaining = tendered(
                shops,
                offers,
                order,
                order.len() as int,
                currency,
            )->Ok_0.0;
            let open = sum(minors(remaining));
            &&& funding(shops, due, offers, order, currency) is Ok ==> open <= 0
            &&& open > 0 ==> (funding(
                shops,
                due,
                offers,
                order,
                currency,
            ) matches Err(ErrorView::InsufficientFunds { available, required, .. })
                && required == due && available.minor + open == due.minor)
        }),
{
    let remaining = tendered(shops, offers, order, order.len() as int, currency)->Ok_0.0;
    law_total_is_the_sum(remaining, currency);
}

proof fn lemma_picked_part(tenders: Seq<PlannedTender>, stored: bool)
    ensures
        sum(picked(tenders, stored).map_values(|tender: PlannedTender| tender.amount.minor as int))
            == sum(
            tenders.map_values(
                |tender: PlannedTender|
                    if (tender.kind is GiftCard || tender.kind is ShopCredit) == stored {
                        tender.amount.minor as int
                    } else {
                        0
                    },
            ),
        ),
    decreases tenders.len(),
{
    let parts = tenders.map_values(
        |tender: PlannedTender|
            if (tender.kind is GiftCard || tender.kind is ShopCredit) == stored {
                tender.amount.minor as int
            } else {
                0
            },
    );
    let found = picked(tenders, stored).map_values(
        |tender: PlannedTender| tender.amount.minor as int,
    );
    if tenders.len() == 0 {
        assert(found =~= Seq::<int>::empty());
    } else {
        let rest = tenders.drop_last();
        lemma_picked_part(rest, stored);
        assert(parts.drop_last() =~= rest.map_values(
            |tender: PlannedTender|
                if (tender.kind is GiftCard || tender.kind is ShopCredit) == stored {
                    tender.amount.minor as int
                } else {
                    0
                },
        ));
        if tenders.last().kind.stored_value() == stored {
            assert(found.drop_last() =~= picked(rest, stored).map_values(
                |tender: PlannedTender| tender.amount.minor as int,
            ));
        }
    }
}

/// What is charged to gateways is what the tenders that are neither gift cards nor shop
/// credit come to.
pub proof fn law_gateways_are_charged_the_rest(plan: TenderPlan)
    ensures
        total(
            picked(plan.tenders@, false).map_values(|tender: PlannedTender| tender.amount),
            plan.currency,
        ) matches Ok(amount) ==> amount.minor == sum(
            plan.tenders@.map_values(
                |tender: PlannedTender|
                    if tender.kind is Gateway {
                        tender.amount.minor as int
                    } else {
                        0
                    },
            ),
        ),
{
    let amounts = picked(plan.tenders@, false).map_values(|tender: PlannedTender| tender.amount);
    law_total_is_the_sum(amounts, plan.currency);
    lemma_picked_part(plan.tenders@, false);
    assert(minors(amounts) =~= picked(plan.tenders@, false).map_values(
        |tender: PlannedTender| tender.amount.minor as int,
    ));
    assert(plan.tenders@.map_values(
        |tender: PlannedTender|
            if tender.kind is Gateway {
                tender.amount.minor as int
            } else {
                0
            },
    ) =~= plan.tenders@.map_values(
        |tender: PlannedTender|
            if (tender.kind is GiftCard || tender.kind is ShopCredit) == false {
                tender.amount.minor as int
            } else {
                0
            },
    ));
}

} // verus!
