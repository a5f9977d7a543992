//! Discounts, promotions and third-party subsidies.
//!
//! # Merchant-funded vs. subsidised discounts
//!
//! *Who pays* for a discount changes both the money movement and the tax base:
//!
//! * [`DiscountFunding::Merchant`] — the shop gives up revenue. The shop
//!   receives less, and in most jurisdictions the taxable base shrinks too
//!   (it is a genuine price reduction).
//! * [`DiscountFunding::Subsidy`] — a third party (the platform, a brand, an
//!   employer, a government programme) pays the difference on the shopper's
//!   behalf. The shop still receives the full price, the *funder* is billed for
//!   the subsidised portion, and the taxable base is normally **unchanged**
//!   because the shop's consideration has not changed.

use vstd::prelude::*;

use crate::collections::{
    comes_before, lemma_text_before_asymmetric, lemma_text_before_total,
    lemma_text_before_transitive, text_before,
};
use crate::error::{outcome, Error, ErrorView};
use crate::ids::{is_generated, AccountId, DiscountId, LineItemId, ShopId};
use crate::money::{law_scaling_is_proportional, Money, Rounding};
use crate::text::{join3, optional_text, same_text};
use crate::time::Timestamp;

verus! {

/// What a discount is worth.
#[derive(Debug, Clone, Copy, PartialEq, Structural)]
pub enum DiscountValue {
    /// A percentage expressed in basis points (1 000 bp = 10 %).
    Percentage {
        /// Rate in basis points.
        basis_points: i64,
        /// Optional ceiling on the resulting amount.
        max_amount: Option<Money>,
    },
    /// A fixed amount off.
    Amount {
        /// The amount to subtract, capped at the remaining base.
        amount: Money,
    },
    /// Waives shipping charges for the matched scope.
    FreeShipping,
}

/// Which part of the cart a discount applies to.
#[derive(Debug, Clone, PartialEq, Eq)]
pub enum DiscountScope {
    /// Applies to every line in the cart.
    Order,
    /// Applies to all lines sold by one shop.
    Shop {
        /// The shop whose lines are discounted.
        shop_id: ShopId,
    },
    /// Applies to specific lines.
    LineItems {
        /// Lines to discount.
        line_ids: Vec<LineItemId>,
    },
    /// Applies to every line carrying one of these SKUs.
    Skus {
        /// SKUs to discount.
        skus: Vec<String>,
    },
}

/// Whether a list of identifiers holds a line.
pub open spec fn lists_line(lines: Seq<LineItemId>, line: Seq<char>) -> bool {
    exists|i: int| 0 <= i < lines.len() && (#[trigger] lines[i])@ == line
}

/// Whether a list of SKUs holds one.
pub open spec fn lists_sku(skus: Seq<String>, sku: Seq<char>) -> bool {
    exists|i: int| 0 <= i < skus.len() && (#[trigger] skus[i])@ == sku
}

/// Whether a list of identifiers holds a line.
pub fn has_line_id(lines: &Vec<LineItemId>, line: &LineItemId) -> (found: bool)
    ensures
        found == lists_line(lines@, line@),
{
    let mut i: usize = 0;
    while i < lines.len()
        invariant
            i <= lines@.len(),
            forall|j: int| 0 <= j < i ==> (#[trigger] lines@[j])@ != line@,
        decreases lines@.len() - i,
    {
        if lines[i].same(line) {
            return true;
        }
        i += 1;
    }
    false
}

/// Whether a list of SKUs holds one.
pub fn has_sku(skus: &Vec<String>, sku: &str) -> (found: bool)
    ensures
        found == lists_sku(skus@, sku@),
{
    let mut i: usize = 0;
    while i < skus.len()
        invariant
            i <= skus@.len(),
            forall|j: int| 0 <= j < i ==> (#[trigger] skus@[j])@ != sku@,
        decreases skus@.len() - i,
    {
        if same_text(skus[i].as_str(), sku) {
            return true;
        }
        i += 1;
    }
    false
}

impl DiscountScope {
    /// Whether a line is in the scope.
    pub open spec fn covers(self, shop: Seq<char>, line: Seq<char>, sku: Seq<char>) -> bool {
        match self {
            DiscountScope::Order => true,
            DiscountScope::Shop { shop_id } => shop_id@ == shop,
            DiscountScope::LineItems { line_ids } => lists_line(line_ids@, line),
            DiscountScope::Skus { skus } => lists_sku(skus@, sku),
        }
    }
}

/// Who absorbs the cost of a discount.
#[derive(Debug, PartialEq, Eq)]
pub enum DiscountFunding {
    /// The selling shop gives up revenue.
    Merchant,
    /// A third party reimburses the shop.
    Subsidy {
        /// Account that will be billed for the subsidised amount.
        funder: AccountId,
        /// Optional label shown on statements, e.g. `"Welcome promotion"`.
        program: Option<String>,
    },
}

impl Clone for DiscountFunding {
    fn clone(&self) -> (funding: Self)
        ensures
            funding == *self,
    {
        match self {
            DiscountFunding::Merchant => DiscountFunding::Merchant,
            DiscountFunding::Subsidy { funder, program } => DiscountFunding::Subsidy {
                funder: funder.clone(),
                program: program.clone(),
            },
        }
    }
}

impl DiscountFunding {
    /// The subsidising account, if any.
    pub open spec fn payer(self) -> Option<AccountId> {
        match self {
            DiscountFunding::Merchant => None,
            DiscountFunding::Subsidy { funder, .. } => Some(funder),
        }
    }

    /// The subsidising account, if any.
    pub fn funder(&self) -> (funder: Option<&AccountId>)
        ensures
            match funder {
                Some(account) => self.payer() == Some(*account),
                None => self.payer() is None,
            },
    {
        match self {
            DiscountFunding::Merchant => None,
            DiscountFunding::Subsidy { funder, .. } => Some(funder),
        }
    }

    /// Whether this funding source triggers a split settlement.
    pub fn is_subsidy(&self) -> (subsidy: bool)
        ensures
            subsidy == (self is Subsidy),
    {
        match self {
            DiscountFunding::Merchant => false,
            DiscountFunding::Subsidy { .. } => true,
        }
    }
}

/// Constraints that must hold for a discount to be usable.
#[derive(Debug, Clone, Copy, PartialEq, Structural)]
pub struct DiscountConditions {
    /// Cart (or scoped) subtotal must reach this amount.
    pub minimum_subtotal: Option<Money>,
    /// Not usable before this instant.
    pub starts_at: Option<Timestamp>,
    /// Not usable at or after this instant.
    pub ends_at: Option<Timestamp>,
    /// Global redemption cap.
    pub max_redemptions: Option<u64>,
    /// Redemptions already used.
    pub redemptions: u64,
}

impl Default for DiscountConditions {
    fn default() -> (conditions: Self)
        ensures
            conditions == (DiscountConditions {
                minimum_subtotal: None,
                starts_at: None,
                ends_at: None,
                max_redemptions: None,
                redemptions: 0,
            }),
    {
        DiscountConditions {
            minimum_subtotal: None,
            starts_at: None,
            ends_at: None,
            max_redemptions: None,
            redemptions: 0,
        }
    }
}

impl DiscountConditions {
    /// Whether the conditions hold at `now` for a subtotal, and otherwise which is the
    /// first that does not.
    pub open spec fn met(self, now: Timestamp, subtotal: Money) -> Result<(), ErrorView> {
        if self.starts_at is Some && now.before(self.starts_at->0) {
            Err(ErrorView::Validation("discount is not active yet"@))
        } else if self.ends_at is Some && !now.before(self.ends_at->0) {
            Err(ErrorView::Validation("discount has expired"@))
        } else if self.max_redemptions is Some && self.redemptions >= self.max_redemptions->0 {
            Err(ErrorView::Validation("discount redemption limit reached"@))
        } else {
            match self.minimum_subtotal {
                None => Ok(()),
                Some(minimum) => if subtotal.currency != minimum.currency {
                    Err(
                        ErrorView::CurrencyMismatch {
                            expected: subtotal.currency,
                            actual: minimum.currency,
                        },
                    )
                } else if subtotal.minor < minimum.minor {
                    Err(
                        ErrorView::Validation(
                            "order does not meet the "@ + minimum.text()
                                + " minimum for this discount"@,
                        ),
                    )
                } else {
                    Ok(())
                },
            }
        }
    }

    /// Check the time window, the redemption cap and the minimum.
    fn check(&self, now: Timestamp, scoped_subtotal: Money) -> (checked: Result<(), Error>)
        ensures
            outcome(checked) == self.met(now, scoped_subtotal),
    {
        if let Some(starts_at) = self.starts_at {
            if now.is_before(starts_at) {
                return Err(Error::validation("discount is not active yet"));
            }
        }
        if let Some(ends_at) = self.ends_at {
            if !now.is_before(ends_at) {
                return Err(Error::validation("discount has expired"));
            }
        }
        if let Some(max) = self.max_redemptions {
            if self.redemptions >= max {
                return Err(Error::validation("discount redemption limit reached"));
            }
        }
        if let Some(minimum) = self.minimum_subtotal {
            match scoped_subtotal.assert_same_currency(minimum) {
                Ok(_) => {},
                Err(error) => return Err(error),
            }
            if scoped_subtotal.minor() < minimum.minor() {
                return Err(
                    Error::validation(
                        join3(
                            "order does not meet the ",
                            minimum.to_text().as_str(),
                            " minimum for this discount",
                        ).as_str(),
                    ),
                );
            }
        }
        Ok(())
    }
}

/// A promotion definition.
#[derive(Debug, Clone, PartialEq)]
pub struct Discount {
    /// Identifier.
    pub id: DiscountId,
    /// Code the shopper types in; `None` for automatic promotions.
    pub code: Option<String>,
    /// Description shown on the receipt.
    pub description: String,
    /// What it is worth.
    pub value: DiscountValue,
    /// What it applies to.
    pub scope: DiscountScope,
    /// Who pays for it.
    pub funding: DiscountFunding,
    /// Lower numbers apply first. Stacking order is significant for
    /// percentage discounts, so it is explicit rather than implied.
    pub priority: i32,
    /// When `false`, this discount refuses to combine with any other.
    pub stackable: bool,
    /// Eligibility rules.
    pub conditions: DiscountConditions,
    /// Overrides the default taxable-base behaviour of the funding source.
    pub reduces_taxable_base_override: Option<bool>,
}

impl Discount {
    /// The code of the promotion, or its description when it has none.
    pub open spec fn label(self) -> Seq<char> {
        match self.code {
            Some(code) => code@,
            None => self.description@,
        }
    }

    /// Whether the promotion lowers the amount tax is computed on.
    pub open spec fn lowers_base(self) -> bool {
        match self.reduces_taxable_base_override {
            Some(reduces) => reduces,
            None => !(self.funding is Subsidy),
        }
    }

    /// What the promotion is worth against a base: never more than the base, never
    /// less than nothing.
    pub open spec fn worth(self, base: Money, rounding: Rounding) -> Result<Money, ErrorView> {
        let raw = match self.value {
            DiscountValue::Percentage { basis_points, max_amount } => match base.scaled(
                basis_points as int,
                10_000,
                rounding,
            ) {
                Err(error) => Err(error),
                Ok(computed) => match max_amount {
                    Some(cap) => computed.smaller(cap),
                    None => Ok(computed),
                },
            },
            DiscountValue::Amount { amount } => Ok(amount),
            DiscountValue::FreeShipping => Ok(Money { minor: 0, currency: base.currency }),
        };
        match raw {
            Err(error) => Err(error),
            Ok(amount) => match amount.smaller(base) {
                Err(error) => Err(error),
                Ok(capped) => capped.larger(Money { minor: 0, currency: base.currency }),
            },
        }
    }

    /// A generated promotion by the shop over the whole order, without conditions.
    pub open spec fn is_plain(self, code: Seq<char>, description: Seq<char>) -> bool {
        &&& is_generated(self.id@, "disc"@)
        &&& optional_text(self.code) == Some(code)
        &&& self.description@ == description
        &&& self.scope == DiscountScope::Order
        &&& self.funding == DiscountFunding::Merchant
        &&& self.priority == 0
        &&& self.stackable
        &&& self.conditions == (DiscountConditions {
            minimum_subtotal: None,
            starts_at: None,
            ends_at: None,
            max_redemptions: None,
            redemptions: 0,
        })
        &&& self.reduces_taxable_base_override is None
    }

    /// A merchant-funded percentage discount over the whole order.
    pub fn percentage_off(code: &str, description: &str, basis_points: i64) -> (discount: Self)
        ensures
            discount.is_plain(code@, description@),
            discount.value == (DiscountValue::Percentage { basis_points, max_amount: None }),
    {
        Discount {
            id: DiscountId::new(),
            code: Some(code.to_owned()),
            description: description.to_owned(),
            value: DiscountValue::Percentage { basis_points, max_amount: None },
            scope: DiscountScope::Order,
            funding: DiscountFunding::Merchant,
            priority: 0,
            stackable: true,
            conditions: DiscountConditions::default(),
            reduces_taxable_base_override: None,
        }
    }

    /// A merchant-funded fixed-amount discount over the whole order.
    pub fn amount_off(code: &str, description: &str, amount: Money) -> (discount: Self)
        ensures
            discount.is_plain(code@, description@),
            discount.value == (DiscountValue::Amount { amount }),
    {
        Discount {
            id: DiscountId::new(),
            code: Some(code.to_owned()),
            description: description.to_owned(),
            value: DiscountValue::Amount { amount },
            scope: DiscountScope::Order,
            funding: DiscountFunding::Merchant,
            priority: 0,
            stackable: true,
            conditions: DiscountConditions::default(),
            reduces_taxable_base_override: None,
        }
    }

    /// Builder: restrict the discount to a scope.
    pub fn with_scope(self, scope: DiscountScope) -> (discount: Self)
        ensures
            discount == (Discount { scope, ..self }),
    {
        Discount { scope, ..self }
    }

    /// Builder: make a third party fund the discount, which turns it into a
    /// payment split at settlement time.
    pub fn funded_by(self, funder: AccountId, program: &str) -> (discount: Self)
        ensures
            discount == (Discount { funding: discount.funding, ..self }),
            discount.funding.payer() == Some(funder),
            discount.funding matches DiscountFunding::Subsidy { program: label, .. }
                ==> optional_text(label) == Some(program@),
    {
        Discount {
            funding: DiscountFunding::Subsidy { funder, program: Some(program.to_owned()) },
            ..self
        }
    }

    /// Builder: set the stacking priority (lower applies first).
    pub fn with_priority(self, priority: i32) -> (discount: Self)
        ensures
            discount == (Discount { priority, ..self }),
    {
        Discount { priority, ..self }
    }

    /// Builder: forbid combining this discount with others.
    pub fn exclusive(self) -> (discount: Self)
        ensures
            discount == (Discount { stackable: false, ..self }),
    {
        Discount { stackable: false, ..self }
    }

    /// Builder: set eligibility conditions.
    pub fn with_conditions(self, conditions: DiscountConditions) -> (discount: Self)
        ensures
            discount == (Discount { conditions, ..self }),
    {
        Discount { conditions, ..self }
    }

    /// Builder: explicitly control whether the discount lowers the tax base.
    pub fn reducing_taxable_base(self, reduces: bool) -> (discount: Self)
        ensures
            discount == (Discount { reduces_taxable_base_override: Some(reduces), ..self }),
    {
        Discount { reduces_taxable_base_override: Some(reduces), ..self }
    }

    /// Whether this discount lowers the amount tax is computed on.
    ///
    /// Defaults to `true` for merchant-funded discounts and `false` for
    /// subsidies, which is the standard treatment in the US and the EU.
    pub fn reduces_taxable_base(&self) -> (reduces: bool)
        ensures
            reduces == self.lowers_base(),
    {
        match self.reduces_taxable_base_override {
            Some(reduces) => reduces,
            None => !self.funding.is_subsidy(),
        }
    }

    /// Whether the discount matches a given line.
    pub fn matches_line(&self, shop_id: &ShopId, line_id: &LineItemId, sku: &str) -> (matched: bool)
        ensures
            matched == self.scope.covers(shop_id@, line_id@, sku@),
    {
        match &self.scope {
            DiscountScope::Order => true,
            DiscountScope::Shop { shop_id: scoped } => scoped.same(shop_id),
            DiscountScope::LineItems { line_ids } => has_line_id(line_ids, line_id),
            DiscountScope::Skus { skus } => has_sku(skus, sku),
        }
    }

    /// Validate eligibility against the subtotal of the lines it matches.
    pub fn check_eligibility(&self, now: Timestamp, scoped_subtotal: Money) -> (eligible: Result<
        (),
        Error,
    >)
        ensures
            outcome(eligible) == self.conditions.met(now, scoped_subtotal),
    {
        self.conditions.check(now, scoped_subtotal)
    }

    /// Compute the discount amount against a base, capped at the base.
    pub fn amount_for(&self, base: Money, rounding: Rounding) -> (amount: Result<Money, Error>)
        ensures
            outcome(amount) == self.worth(base, rounding),
    {
        let raw = match &self.value {
            DiscountValue::Percentage { basis_points, max_amount } => {
                let computed = match base.mul_basis_points(*basis_points, rounding) {
                    Ok(computed) => computed,
                    Err(error) => return Err(error),
                };
                match max_amount {
                    Some(cap) => match computed.try_min(*cap) {
                        Ok(capped) => capped,
                        Err(error) => return Err(error),
                    },
                    None => computed,
                }
            },
            DiscountValue::Amount { amount } => *amount,
            // Shipping waivers are handled by the pricing engine, which knows
            // the shipping charges; against item bases they are worth nothing.
            DiscountValue::FreeShipping => Money::zero(base.currency()),
        };
        // Never discount more than what is left, and never produce a credit.
        match raw.try_min(base) {
            Ok(capped) => capped.try_max(Money::zero(base.currency())),
            Err(error) => Err(error),
        }
    }

    /// Whether the discount waives shipping.
    pub fn is_free_shipping(&self) -> (free: bool)
        ensures
            free == (self.value is FreeShipping),
    {
        match self.value {
            DiscountValue::FreeShipping => true,
            _ => false,
        }
    }

    /// The code of the promotion, or its description when it has none.
    pub fn shown_as(&self) -> (label: String)
        ensures
            label@ == self.label(),
    {
        match &self.code {
            Some(code) => code.clone(),
            None => self.description.clone(),
        }
    }
}

/// A discount is never worth more than what is left, and never less than nothing.
pub proof fn law_discounts_are_capped(discount: Discount, base: Money, rounding: Rounding)
    requires
        base.minor >= 0,
    ensures
        discount.worth(base, rounding) matches Ok(amount) ==> {
            &&& 0 <= amount.minor <= base.minor
            &&& amount.currency == base.currency
        },
{
}

/// Whether promotion `a`, listed at `i`, applies before `b`, listed at `j`: by priority,
/// then subsidies last, then by identifier, then as listed.
pub open spec fn applies_before(a: Discount, i: int, b: Discount, j: int) -> bool {
    if a.priority != b.priority {
        a.priority < b.priority
    } else if (a.funding is Subsidy) != (b.funding is Subsidy) {
        b.funding is Subsidy
    } else if a.id@ != b.id@ {
        text_before(a.id@, b.id@)
    } else {
        i < j
    }
}

/// Whether `order` lists the positions of `discounts` in the order of application.
pub open spec fn is_application_order(discounts: Seq<Discount>, order: Seq<int>) -> bool {
    &&& order.len() == discounts.len()
    &&& in_order(discounts, order)
}

/// Whether `order` lists positions of `discounts`, each before those that apply later.
pub open spec fn in_order(discounts: Seq<Discount>, order: Seq<int>) -> bool {
    &&& forall|k: int| 0 <= k < order.len() ==> 0 <= #[trigger] order[k] < discounts.len()
    &&& forall|j: int, k: int|
        0 <= j < k < order.len() ==> applies_before(
            discounts[#[trigger] order[j]],
            order[j],
            discounts[#[trigger] order[k]],
            order[k],
        )
}

/// The order of application is a strict total order.
pub proof fn lemma_applies_before(
    a: Discount,
    i: int,
    b: Discount,
    j: int,
    c: Discount,
    k: int,
)
    ensures
        !applies_before(a, i, a, i),
        applies_before(a, i, b, j) && applies_before(b, j, c, k) ==> applies_before(a, i, c, k),
        i != j ==> applies_before(a, i, b, j) || applies_before(b, j, a, i),
        applies_before(a, i, b, j) ==> !applies_before(b, j, a, i),
{
    lemma_text_before_asymmetric(a.id@, b.id@);
    lemma_text_before_asymmetric(b.id@, c.id@);
    if text_before(a.id@, b.id@) && text_before(b.id@, c.id@) {
        lemma_text_before_transitive(a.id@, b.id@, c.id@);
        lemma_text_before_asymmetric(a.id@, c.id@);
    }
    if a.id@ != b.id@ {
        lemma_text_before_total(a.id@, b.id@);
    }
}

/// No promotion is applied twice, so each is applied exactly once.
pub proof fn law_each_discount_is_applied_once(
    discounts: Seq<Discount>,
    order: Seq<int>,
    j: int,
    k: int,
)
    requires
        is_application_order(discounts, order),
        0 <= j < k < order.len(),
    ensures
        order[j] != order[k],
{
    let a = discounts[order[j]];
    lemma_applies_before(a, order[j], a, order[j], a, order[j]);
}

/// Subsidies apply after merchant discounts of the same priority.
pub proof fn law_subsidies_apply_last(
    discounts: Seq<Discount>,
    order: Seq<int>,
    j: int,
    k: int,
)
    requires
        is_application_order(discounts, order),
        0 <= j < k < order.len(),
        discounts[order[j]].priority == discounts[order[k]].priority,
        discounts[order[j]].funding is Subsidy,
    ensures
        discounts[order[k]].funding is Subsidy,
{
    assert(applies_before(discounts[order[j]], order[j], discounts[order[k]], order[k]));
}

fn is_earlier(discounts: &[Discount], i: usize, j: usize) -> (earlier: bool)
    requires
        i < discounts@.len(),
        j < discounts@.len(),
    ensures
        earlier == applies_before(discounts@[i as int], i as int, discounts@[j as int], j as int),
{
    let a = &discounts[i];
    let b = &discounts[j];
    if a.priority != b.priority {
        a.priority < b.priority
    } else if a.funding.is_subsidy() != b.funding.is_subsidy() {
        b.funding.is_subsidy()
    } else if !a.id.same(&b.id) {
        comes_before(a.id.as_str(), b.id.as_str())
    } else {
        i < j
    }
}

/// The positions held in a list.
pub open spec fn positions(list: Seq<usize>) -> Seq<int> {
    list.map_values(|i: usize| i as int)
}

/// The positions of `discounts` in the order they must be applied.
pub fn application_order(discounts: &[Discount]) -> (order: Vec<usize>)
    ensures
        is_application_order(discounts@, positions(order@)),
{
    let mut order: Vec<usize> = Vec::new();
    let mut n: usize = 0;
    while n < discounts.len()
        invariant
            n <= discounts@.len(),
            order@.len() == n,
            forall|k: int| 0 <= k < n ==> (#[trigger] order@[k]) < n,
            in_order(discounts@, positions(order@)),
        decreases discounts@.len() - n,
    {
        let ghost before = positions(order@);
        let ghost listed = order@;
        let mut at: usize = n;
        assert forall|k: int| 0 <= k < n implies (#[trigger] order@[k]) < n by {}
        while at > 0 && is_earlier(discounts, n, order[at - 1])
            invariant
                n < discounts@.len(),
                at <= n,
                order@ == listed,
                order@.len() == n,
                forall|k: int| 0 <= k < n ==> (#[trigger] order@[k]) < n,
                forall|k: int|
                    at <= k < n ==> applies_before(
                        discounts@[n as int],
                        n as int,
                        discounts@[(#[trigger] order@[k]) as int],
                        order@[k] as int,
                    ),
            ensures
                at > 0 ==> !applies_before(
                    discounts@[n as int],
                    n as int,
                    discounts@[order@[at - 1] as int],
                    order@[at - 1] as int,
                ),
            decreases at,
        {
            at -= 1;
        }
        order.insert(at, n);
        proof {
            let list = discounts@;
            let after = positions(order@);
            let me = n as int;
            assert forall|k: int| 0 <= k < at implies #[trigger] applies_before(
                list[listed[k] as int],
                listed[k] as int,
                list[me],
                me,
            ) by {
                let last = listed[at - 1] as int;
                lemma_applies_before(list[last], last, list[me], me, list[me], me);
                assert(applies_before(list[last], last, list[me], me));
                if k < at - 1 {
                    let it = listed[k] as int;
                    assert(before[k] == it && before[at - 1] == last);
                    assert(applies_before(
                        list[before[k]],
                        before[k],
                        list[before[at - 1]],
                        before[at - 1],
                    ));
                    lemma_applies_before(list[it], it, list[last], last, list[me], me);
                }
            }
            assert(after =~= before.insert(at as int, me));
            assert forall|k: int| 0 <= k < after.len() implies 0 <= #[trigger] after[k]
                < list.len() by {
                if k < at {
                    assert(after[k] == before[k]);
                } else if k > at {
                    assert(after[k] == before[k - 1]);
                }
            }
            assert forall|j: int, k: int| 0 <= j < k < after.len() implies applies_before(
                list[#[trigger] after[j]],
                after[j],
                list[#[trigger] after[k]],
                after[k],
            ) by {
                if k < at {
                    assert(after[j] == before[j] && after[k] == before[k]);
                } else if k == at {
                    assert(after[j] == listed[j] as int);
                } else if j < at {
                    assert(after[j] == before[j] && after[k] == before[k - 1]);
                } else if j == at {
                    assert(after[k] == listed[k - 1] as int);
                } else {
                    assert(after[j] == before[j - 1] && after[k] == before[k - 1]);
                }
            }
            assert forall|k: int| 0 <= k < n + 1 implies (#[trigger] order@[k]) < n + 1 by {
                if k < at {
                    assert(order@[k] == listed[k]);
                } else if k > at {
                    assert(order@[k] == listed[k - 1]);
                }
            }
        }
        n += 1;
    }
    order
}

/// Whether position `k` holds the first promotion in `order` that cannot be combined.
pub open spec fn first_exclusive(discounts: Seq<Discount>, order: Seq<int>, k: int) -> bool {
    &&& 0 <= k < order.len()
    &&& !discounts[order[k]].stackable
    &&& forall|j: int| 0 <= j < k ==> discounts[#[trigger] order[j]].stackable
}

/// The error that names a promotion as one that cannot be combined.
pub open spec fn not_combinable(discount: Discount) -> ErrorView {
    ErrorView::Validation(
        "discount '"@ + discount.label() + "' cannot be combined with other promotions"@,
    )
}

/// Whether `result` is what ordering the promotions returns.
pub open spec fn ordering_result(
    discounts: Seq<Discount>,
    order: Seq<int>,
    result: Result<(), ErrorView>,
) -> bool {
    match result {
        Ok(_) => discounts.len() <= 1 || forall|k: int|
            0 <= k < order.len() ==> discounts[#[trigger] order[k]].stackable,
        Err(error) => discounts.len() > 1 && exists|k: int| #[trigger]
            first_exclusive(discounts, order, k) && error == not_combinable(discounts[order[k]]),
    }
}

/// Reject an illegal combination: a promotion that is not stackable alongside any other.
pub fn check_combination(discounts: &[Discount], order: &Vec<usize>) -> (combined: Result<
    (),
    Error,
>)
    requires
        is_application_order(discounts@, positions(order@)),
    ensures
        ordering_result(discounts@, positions(order@), outcome(combined)),
{
    let ghost places = positions(order@);
    if order.len() > 1 {
        let mut k: usize = 0;
        while k < order.len()
            invariant
                k <= order@.len(),
                places == positions(order@),
                discounts@.len() > 1,
                is_application_order(discounts@, places),
                forall|j: int| 0 <= j < k ==> discounts@[#[trigger] places[j]].stackable,
            decreases order@.len() - k,
        {
            assert(places[k as int] == order@[k as int] as int);
            let discount = &discounts[order[k]];
            if !discount.stackable {
                assert(first_exclusive(discounts@, places, k as int));
                return Err(
                    Error::validation(
                        join3(
                            "discount '",
                            discount.shown_as().as_str(),
                            "' cannot be combined with other promotions",
                        ).as_str(),
                    ),
                );
            }
            k += 1;
        }
    }
    Ok(())
}

/// Sorts discounts into the order they must be applied and rejects illegal
/// combinations (a non-stackable discount alongside anything else).
pub fn order_for_application<'a>(discounts: &'a [Discount]) -> (ordered: Result<
    Vec<&'a Discount>,
    Error,
>)
    ensures
        exists|order: Seq<int>| #[trigger]
            is_application_order(discounts@, order) && match ordered {
                Ok(list) => {
                    &&& ordering_result(discounts@, order, Ok(()))
                    &&& list@.len() == order.len()
                    &&& forall|k: int|
                        0 <= k < order.len() ==> *(#[trigger] list@[k]) == discounts@[order[k]]
                },
                Err(error) => ordering_result(discounts@, order, Err(error@)),
            },
{
    let order = application_order(discounts);
    let ghost places = positions(order@);
    match check_combination(discounts, &order) {
        Ok(_) => {},
        Err(error) => {
            assert(is_application_order(discounts@, places));
            return Err(error);
        },
    }
    let mut list: Vec<&'a Discount> = Vec::new();
    let mut k: usize = 0;
    while k < order.len()
        invariant
            k <= order@.len(),
            places == positions(order@),
            is_application_order(discounts@, places),
            list@.len() == k,
            forall|j: int| 0 <= j < k ==> *(#[trigger] list@[j]) == discounts@[places[j]],
        decreases order@.len() - k,
    {
        assert(places[k as int] == order@[k as int] as int);
        list.push(&discounts[order[k]]);
        k += 1;
    }
    assert(is_application_order(discounts@, places));
    Ok(list)
}

/// A percentage off is that part of the base: less than one minor unit off, and at most
/// half of one for the half modes. A ceiling takes the smaller of the two.
pub proof fn law_percentages_are_taken_off_the_base(
    discount: Discount,
    base: Money,
    rounding: Rounding,
    rate: i64,
    ceiling: Money,
)
    requires
        base.minor >= 0,
        0 <= rate <= 10_000,
        ceiling.currency == base.currency,
        ceiling.minor >= 0,
    ensures
        ({
            let plain = Discount {
                value: DiscountValue::Percentage { basis_points: rate, max_amount: None },
                ..discount
            };
            let capped = Discount {
                value: DiscountValue::Percentage { basis_points: rate, max_amount: Some(ceiling) },
                ..discount
            };
            plain.worth(base, rounding) matches Ok(amount) && {
                let off = amount.minor * 10_000 - base.minor * rate;
                &&& amount.currency == base.currency
                &&& -10_000 < off < 10_000
                &&& (rounding is HalfUp || rounding is HalfEven) ==> -10_000 <= 2 * off <= 10_000
                &&& capped.worth(base, rounding) == Ok::<Money, ErrorView>(
                    if ceiling.minor < amount.minor {
                        ceiling
                    } else {
                        amount
                    },
                )
            }
        }),
{
    law_scaling_is_proportional(base, rate as int, 10_000, rounding);
    assert(0 <= base.minor * rate <= base.minor * 10_000) by (nonlinear_arith)
        requires
            0 <= rate <= 10_000,
            base.minor >= 0,
    ;
    let amount = base.scaled(rate as int, 10_000, rounding)->Ok_0;
    assert(0 <= amount.minor <= base.minor);
}

/// A fixed amount off is that amount, or the whole base where the base is less; against
/// goods free shipping is worth nothing.
pub proof fn law_fixed_amounts_are_taken_off(discount: Discount, base: Money, rounding: Rounding)
    requires
        base.minor >= 0,
    ensures
        discount.value matches DiscountValue::Amount { amount } ==> {
            &&& amount.currency != base.currency ==> discount.worth(base, rounding) is Err
            &&& amount.currency == base.currency && 0 <= amount.minor <= base.minor
                ==> discount.worth(base, rounding) == Ok::<Money, ErrorView>(amount)
            &&& amount.currency == base.currency && amount.minor > base.minor ==> discount.worth(
                base,
                rounding,
            ) == Ok::<Money, ErrorView>(base)
        },
        discount.value is FreeShipping ==> discount.worth(base, rounding) == Ok::<
            Money,
            ErrorView,
        >(Money { minor: 0, currency: base.currency }),
{
}

/// A promotion is usable exactly from its start on and before its end, while redemptions
/// are left and once the subtotal reaches the minimum.
pub proof fn law_conditions_gate_promotions(
    conditions: DiscountConditions,
    now: Timestamp,
    subtotal: Money,
)
    ensures
        conditions.met(now, subtotal) is Ok <==> {
            &&& conditions.starts_at matches Some(start) ==> start.seconds < now.seconds || (
            start.seconds == now.seconds && start.nanos <= now.nanos)
            &&& conditions.ends_at matches Some(end) ==> now.seconds < end.seconds || (now.seconds
                == end.seconds && now.nanos < end.nanos)
            &&& conditions.max_redemptions matches Some(most) ==> conditions.redemptions < most
            &&& conditions.minimum_subtotal matches Some(minimum) ==> minimum.currency
                == subtotal.currency && subtotal.minor >= minimum.minor
        },
{
}

/// A promotion over the whole order covers every line, one for a shop the lines of that
/// shop, one for lines those lines and one for SKUs the lines that carry one of them.
pub proof fn law_scopes_cover_what_they_name(
    scope: DiscountScope,
    shop: Seq<char>,
    line: Seq<char>,
    sku: Seq<char>,
)
    ensures
        scope is Order ==> scope.covers(shop, line, sku),
        scope matches DiscountScope::Shop { shop_id } ==> scope.covers(shop, line, sku) == (shop
            == shop_id@),
        scope matches DiscountScope::LineItems { line_ids } ==> {
            &&& forall|j: int|
                0 <= j < line_ids@.len() && (#[trigger] line_ids@[j])@ == line ==> scope.covers(
                    shop,
                    line,
                    sku,
                )
            &&& (forall|j: int| 0 <= j < line_ids@.len() ==> (#[trigger] line_ids@[j])@ != line)
                ==> !scope.covers(shop, line, sku)
        },
        scope matches DiscountScope::Skus { skus } ==> {
            &&& forall|j: int|
                0 <= j < skus@.len() && (#[trigger] skus@[j])@ == sku ==> scope.covers(
                    shop,
                    line,
                    sku,
                )
            &&& (forall|j: int| 0 <= j < skus@.len() ==> (#[trigger] skus@[j])@ != sku)
                ==> !scope.covers(shop, line, sku)
        },
{
    match scope {
        DiscountScope::LineItems { line_ids } => {
            assert forall|j: int|
                0 <= j < line_ids@.len() && (#[trigger] line_ids@[j])@ == line implies scope.covers(
                shop,
                line,
                sku,
            ) by {
                assert(lists_line(line_ids@, line));
            }
        },
        DiscountScope::Skus { skus } => {
            assert forall|j: int|
                0 <= j < skus@.len() && (#[trigger] skus@[j])@ == sku implies scope.covers(
                shop,
                line,
                sku,
            ) by {
                assert(lists_sku(skus@, sku));
            }
        },
        _ => {},
    }
}

/// A lower priority number applies first.
pub proof fn law_lower_priorities_apply_first(
    discounts: Seq<Discount>,
    order: Seq<int>,
    j: int,
    k: int,
)
    requires
        is_application_order(discounts, order),
        0 <= j < k < order.len(),
    ensures
        discounts[order[j]].priority <= discounts[order[k]].priority,
{
    assert(applies_before(discounts[order[j]], order[j], discounts[order[k]], order[k]));
}

/// Promotions combine exactly where each of them may be combined; a promotion on its own
/// always applies.
pub proof fn law_exclusive_promotions_stand_alone(
    discounts: Seq<Discount>,
    order: Seq<int>,
    result: Result<(), ErrorView>,
    i: int,
)
    requires
        is_application_order(discounts, order),
        ordering_result(discounts, order, result),
        0 <= i < order.len(),
    ensures
        discounts.len() == 1 ==> result is Ok,
        discounts.len() > 1 && !discounts[order[i]].stackable ==> result is Err,
        (forall|k: int| 0 <= k < discounts.len() ==> (#[trigger] discounts[k]).stackable)
            ==> result is Ok,
{
}

/// A promotion that the shop gives lowers the price that is taxed; one that a third party
/// pays for does not, unless the promotion says otherwise.
pub proof fn law_subsidies_leave_the_taxed_price(discount: Discount)
    ensures
        discount.reduces_taxable_base_override is None ==> (discount.lowers_base()
            <==> discount.funding is Merchant),
        discount.reduces_taxable_base_override is Some ==> discount.lowers_base()
            == discount.reduces_taxable_base_override->Some_0,
{
}

} // verus!
