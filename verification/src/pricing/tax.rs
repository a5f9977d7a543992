//! Gateway-agnostic tax calculation.
//!
//! Tax is pluggable: implement [`TaxCalculator`] to delegate to a tax service.
//! The bundled [`RateTableTaxCalculator`] is a complete implementation for
//! rate-table jurisdictions.

use vstd::arithmetic::div_mod::lemma_fundamental_div_mod_converse;
use vstd::prelude::*;

use crate::address::Jurisdiction;
use crate::error::{outcome, Error, ErrorView};
use crate::folds::{lemma_error_stays, lemma_finding_stays};
use crate::money::allocation::{
    allocation, law_allocation_succeeds, law_parts_are_proportional, law_parts_sum_to_the_whole,
    non_negative, parts_of, wide_ints,
};
use crate::money::{
    allocate_widely, law_scaling_is_proportional, minors, total, Currency, Money, Rounding,
};
use crate::sums::{lemma_sum_non_negative, lemma_sum_push, lemma_sum_scale, sum};
use crate::text::{same_ignoring_case, same_text};
use crate::wide::Integer;

verus! {

/// A product classification outside the named ones.
///
/// Only [`TaxCode::new`] makes one, and never for a code that a named variant
/// stands for.
#[derive(Debug, PartialEq, Eq, Hash)]
pub struct OtherTaxCode {
    code: String,
}

impl OtherTaxCode {
    /// The code.
    pub closed spec fn text(self) -> Seq<char> {
        self.code@
    }
}

/// Product tax classification, e.g. `standard`, `food`, `digital`.
#[derive(Debug, PartialEq, Eq, Hash)]
pub enum TaxCode {
    /// The default rate for ordinary goods.
    STANDARD,
    /// Goods that are not taxed at all.
    EXEMPT,
    /// Any other classification.
    Other(OtherTaxCode),
}

impl View for TaxCode {
    type V = Seq<char>;

    open spec fn view(&self) -> Seq<char> {
        match *self {
            TaxCode::STANDARD => "standard"@,
            TaxCode::EXEMPT => "exempt"@,
            TaxCode::Other(other) => other.text(),
        }
    }
}

impl Clone for TaxCode {
    fn clone(&self) -> (code: Self)
        ensures
            code == *self,
    {
        match self {
            TaxCode::STANDARD => TaxCode::STANDARD,
            TaxCode::EXEMPT => TaxCode::EXEMPT,
            TaxCode::Other(other) => TaxCode::Other(OtherTaxCode { code: other.code.clone() }),
        }
    }
}

impl Default for TaxCode {
    fn default() -> (code: Self)
        ensures
            code == TaxCode::STANDARD,
    {
        TaxCode::STANDARD
    }
}

impl TaxCode {
    /// Create a tax code.
    pub fn new(code: &str) -> (made: Self)
        ensures
            made@ == code@,
    {
        if same_text(code, "standard") {
            TaxCode::STANDARD
        } else if same_text(code, "exempt") {
            TaxCode::EXEMPT
        } else {
            TaxCode::Other(OtherTaxCode { code: code.to_owned() })
        }
    }

    /// The conventional code for shipping charges.
    pub fn shipping() -> (made: Self)
        ensures
            made@ == "shipping"@,
    {
        TaxCode::Other(OtherTaxCode { code: "shipping".to_owned() })
    }

    /// The code as a string slice.
    pub fn as_str(&self) -> (code: &str)
        ensures
            code@ == self@,
    {
        match self {
            TaxCode::STANDARD => "standard",
            TaxCode::EXEMPT => "exempt",
            TaxCode::Other(other) => other.code.as_str(),
        }
    }

    /// Whether this code is exempt from all taxation.
    pub fn is_exempt(&self) -> (exempt: bool)
        ensures
            exempt == (self@ == "exempt"@),
    {
        same_text(self.as_str(), "exempt")
    }

    /// Whether two codes are the same.
    pub fn same(&self, other: &Self) -> (same: bool)
        ensures
            same == (self@ == other@),
    {
        same_text(self.as_str(), other.as_str())
    }
}

/// Whether catalogue prices already contain tax.
#[derive(Debug, Clone, Copy, PartialEq, Eq, Hash, Structural)]
pub enum TaxMode {
    /// Tax is added on top of the price.
    Exclusive,
    /// The price already includes tax; tax is extracted from it.
    Inclusive,
}

impl Default for TaxMode {
    fn default() -> (mode: Self)
        ensures
            mode == TaxMode::Exclusive,
    {
        TaxMode::Exclusive
    }
}

/// One taxable amount to be priced.
#[derive(Debug, Clone, PartialEq)]
pub struct TaxLineRequest {
    /// Caller-defined reference echoed back in the result (usually a line id).
    pub reference: String,
    /// Product classification.
    pub tax_code: TaxCode,
    /// The amount tax is computed on, after taxable discounts.
    pub taxable_base: Money,
}

/// Everything a calculator needs to price a whole cart.
#[derive(Debug, Clone, PartialEq)]
pub struct TaxRequest {
    /// Currency of all amounts.
    pub currency: Currency,
    /// Inclusive or exclusive pricing.
    pub mode: TaxMode,
    /// Where the supply is consumed. Drives destination-based sales tax/VAT.
    pub destination: Jurisdiction,
    /// Where the goods ship from, for origin-based jurisdictions.
    pub origin: Option<Jurisdiction>,
    /// The customer's tax exemption / reverse-charge registration, if any.
    pub customer_tax_id: Option<String>,
    /// Lines to tax.
    pub lines: Vec<TaxLineRequest>,
}

/// A single named component of a tax amount (state, county, city, VAT).
#[derive(Debug, PartialEq)]
pub struct TaxComponent {
    /// Human-readable name shown on the invoice.
    pub name: String,
    /// Rate in basis points (1 bp = 0.01 %).
    pub rate_basis_points: i64,
    /// Amount attributable to this component.
    pub amount: Money,
}

impl Clone for TaxComponent {
    fn clone(&self) -> (component: Self)
        ensures
            component == *self,
    {
        TaxComponent {
            name: self.name.clone(),
            rate_basis_points: self.rate_basis_points,
            amount: self.amount,
        }
    }
}

/// Tax computed for a single line.
#[derive(Debug, Clone, PartialEq)]
pub struct TaxLineResult {
    /// Echo of [`TaxLineRequest::reference`].
    pub reference: String,
    /// Total tax for the line.
    pub tax: Money,
    /// Per-jurisdiction breakdown; sums to `tax`.
    pub components: Vec<TaxComponent>,
    /// For inclusive pricing, the price net of tax.
    pub net: Money,
}

/// The result of taxing a whole request.
#[derive(Debug, Clone, PartialEq)]
pub struct TaxQuote {
    /// One entry per requested line, in the same order.
    pub lines: Vec<TaxLineResult>,
}

/// The position of the first result for a reference, or the length when there is none.
pub open spec fn result_index(lines: Seq<TaxLineResult>, reference: Seq<char>) -> int
    decreases lines.len(),
{
    if lines.len() == 0 || lines[0].reference@ == reference {
        0
    } else {
        1 + result_index(lines.drop_first(), reference)
    }
}

proof fn lemma_result_index(lines: Seq<TaxLineResult>, reference: Seq<char>, at: int)
    requires
        0 <= at <= lines.len(),
        at < lines.len() ==> lines[at].reference@ == reference,
        forall|i: int| 0 <= i < at ==> (#[trigger] lines[i]).reference@ != reference,
    ensures
        result_index(lines, reference) == at,
    decreases lines.len(),
{
    if at > 0 {
        assert(lines[0].reference@ != reference);
        let rest = lines.drop_first();
        assert forall|i: int| 0 <= i < at - 1 implies (#[trigger] rest[i]).reference@
            != reference by {
            assert(rest[i] == lines[i + 1]);
        }
        lemma_result_index(rest, reference, at - 1);
    }
}

impl TaxQuote {
    /// The taxes of all lines.
    pub open spec fn taxes(self) -> Seq<Money> {
        self.lines@.map_values(|line: TaxLineResult| line.tax)
    }

    /// Total tax across all lines.
    pub fn total(&self, currency: Currency) -> (amount: Result<Money, Error>)
        ensures
            outcome(amount) == total(self.taxes(), currency),
    {
        let mut taxes: Vec<Money> = Vec::new();
        let mut i: usize = 0;
        while i < self.lines.len()
            invariant
                i <= self.lines@.len(),
                taxes@ == self.taxes().take(i as int),
            decreases self.lines@.len() - i,
        {
            taxes.push(self.lines[i].tax);
            i += 1;
            assert(taxes@ =~= self.taxes().take(i as int));
        }
        assert(taxes@ =~= self.taxes());
        Money::sum(taxes.as_slice(), currency)
    }

    /// Look up the tax for a reference.
    pub fn line(&self, reference: &str) -> (line: Option<&TaxLineResult>)
        ensures
            ({
                let at = result_index(self.lines@, reference@);
                match line {
                    Some(found) => 0 <= at < self.lines@.len() && *found == self.lines@[at]
                        && found.reference@ == reference@,
                    None => at == self.lines@.len() && forall|i: int|
                        0 <= i < self.lines@.len() ==> (#[trigger] self.lines@[i]).reference@
                            != reference@,
                }
            }),
    {
        let mut i: usize = 0;
        while i < self.lines.len()
            invariant
                i <= self.lines@.len(),
                forall|j: int|
                    0 <= j < i ==> (#[trigger] self.lines@[j]).reference@ != reference@,
            decreases self.lines@.len() - i,
        {
            if same_text(self.lines[i].reference.as_str(), reference) {
                proof {
                    lemma_result_index(self.lines@, reference@, i as int);
                }
                return Some(&self.lines[i]);
            }
            i += 1;
        }
        proof {
            lemma_result_index(self.lines@, reference@, i as int);
        }
        None
    }
}

/// Pluggable tax engine.
pub trait TaxCalculator {
    /// Compute tax for every line in `request`.
    fn quote(&self, request: &TaxRequest) -> Result<TaxQuote, Error>;
}

/// A rate applicable to a jurisdiction and (optionally) a product class.
#[derive(Debug, Clone, PartialEq)]
pub struct TaxRule {
    /// Invoice label, e.g. `"CA State Tax"`.
    pub name: String,
    /// Where the rule applies. More specific rules win within the same `layer`.
    pub jurisdiction: Jurisdiction,
    /// Restrict to a product class; `None` applies to every class.
    pub tax_code: Option<TaxCode>,
    /// Rate in basis points.
    pub rate_basis_points: i64,
    /// Rules in the same layer are mutually exclusive (e.g. only one "state"
    /// rate applies); rules in different layers stack.
    pub layer: String,
    /// When `true`, this rate applies to base + previously computed tax,
    /// otherwise to the base alone.
    pub compound: bool,
}

impl TaxRule {
    /// Whether the rule covers a destination and a product class.
    pub open spec fn applies(self, destination: Jurisdiction, code: TaxCode) -> bool {
        self.jurisdiction.covers(destination) && match self.tax_code {
            Some(required) => required@ == code@,
            None => true,
        }
    }

    /// What decides between rules of one layer: first how specific the jurisdiction
    /// is, then whether it names a region, then whether the rule names a product class.
    pub open spec fn strength(self) -> int {
        self.jurisdiction.depth() * 4 + (if self.jurisdiction.region is Some {
            2int
        } else {
            0int
        }) + (if self.tax_code is Some {
            1int
        } else {
            0int
        })
    }

    /// A simple, non-compound rule.
    pub fn new(
        name: &str,
        layer: &str,
        jurisdiction: Jurisdiction,
        rate_basis_points: i64,
    ) -> (rule: Self)
        ensures
            rule.name@ == name@,
            rule.layer@ == layer@,
            rule.jurisdiction == jurisdiction,
            rule.rate_basis_points == rate_basis_points,
            rule.tax_code is None,
            !rule.compound,
    {
        TaxRule {
            name: name.to_owned(),
            jurisdiction,
            tax_code: None,
            rate_basis_points,
            layer: layer.to_owned(),
            compound: false,
        }
    }

    /// Builder: restrict the rule to one product class.
    pub fn for_tax_code(self, code: TaxCode) -> (rule: Self)
        ensures
            rule == (TaxRule { tax_code: Some(code), ..self }),
    {
        TaxRule { tax_code: Some(code), ..self }
    }

    /// Builder: make the rule compound on top of previously applied layers.
    pub fn compounding(self) -> (rule: Self)
        ensures
            rule == (TaxRule { compound: true, ..self }),
    {
        TaxRule { compound: true, ..self }
    }

    fn applies_to(&self, destination: &Jurisdiction, code: &TaxCode) -> (applies: bool)
        ensures
            applies == self.applies(*destination, *code),
    {
        if !self.jurisdiction.matches(destination) {
            return false;
        }
        match &self.tax_code {
            Some(required) => required.same(code),
            None => true,
        }
    }

    fn rating(&self) -> (strength: u8)
        ensures
            strength == self.strength(),
    {
        let depth: u8 = self.jurisdiction.specificity();
        let region: u8 = if self.jurisdiction.region.is_some() {
            2
        } else {
            0
        };
        let named: u8 = if self.tax_code.is_some() {
            1
        } else {
            0
        };
        depth * 4 + region + named
    }
}

/// The position in `chosen` of the rule for a layer, or its length when there is none.
pub open spec fn layer_position(rules: Seq<TaxRule>, chosen: Seq<int>, layer: Seq<char>) -> int
    decreases chosen.len(),
{
    if chosen.len() == 0 || rules[chosen[0]].layer@ == layer {
        0
    } else {
        1 + layer_position(rules, chosen.drop_first(), layer)
    }
}

proof fn lemma_layer_position(rules: Seq<TaxRule>, chosen: Seq<int>, layer: Seq<char>)
    ensures
        0 <= layer_position(rules, chosen, layer) <= chosen.len(),
        layer_position(rules, chosen, layer) < chosen.len()
            ==> rules[chosen[layer_position(rules, chosen, layer)]].layer@ == layer,
        forall|k: int|
            0 <= k < layer_position(rules, chosen, layer)
                ==> rules[#[trigger] chosen[k]].layer@ != layer,
    decreases chosen.len(),
{
    if chosen.len() > 0 && rules[chosen[0]].layer@ != layer {
        let rest = chosen.drop_first();
        lemma_layer_position(rules, rest, layer);
        assert forall|k: int| 0 <= k < layer_position(rules, chosen, layer) implies rules[
        #[trigger] chosen[k]].layer@ != layer by {
            if k > 0 {
                assert(rest[k - 1] == chosen[k]);
            }
        }
    }
}

proof fn lemma_layer_position_is(rules: Seq<TaxRule>, chosen: Seq<int>, layer: Seq<char>, at: int)
    requires
        0 <= at <= chosen.len(),
        at < chosen.len() ==> rules[chosen[at]].layer@ == layer,
        forall|k: int| 0 <= k < at ==> rules[#[trigger] chosen[k]].layer@ != layer,
    ensures
        layer_position(rules, chosen, layer) == at,
{
    lemma_layer_position(rules, chosen, layer);
    let p = layer_position(rules, chosen, layer);
    if p < at {
        assert(rules[chosen[p]].layer@ != layer);
    }
    if at < p {
        assert(rules[chosen[at]].layer@ != layer);
    }
}

/// The winning rule of each layer among the first `n` rules, by position in the
/// table, with the layers in the order they are first seen.
pub open spec fn winners(
    rules: Seq<TaxRule>,
    n: int,
    destination: Jurisdiction,
    code: TaxCode,
) -> Seq<int>
    decreases n,
{
    if n <= 0 {
        Seq::empty()
    } else {
        let before = winners(rules, n - 1, destination, code);
        let rule = rules[n - 1];
        let at = layer_position(rules, before, rule.layer@);
        if !rule.applies(destination, code) {
            before
        } else if at == before.len() {
            before.push(n - 1)
        } else if rule.strength() > rules[before[at]].strength() {
            before.update(at, n - 1)
        } else {
            before
        }
    }
}

/// The rules among `chosen` that are compound, or that are not, in order.
pub open spec fn pick(rules: Seq<TaxRule>, chosen: Seq<int>, compound: bool) -> Seq<int>
    decreases chosen.len(),
{
    if chosen.len() == 0 {
        Seq::empty()
    } else {
        let rest = pick(rules, chosen.drop_last(), compound);
        if rules[chosen.last()].compound == compound {
            rest.push(chosen.last())
        } else {
            rest
        }
    }
}

/// The rules that tax a product class at a destination, by position in the table:
/// plain layers first, so that compound layers see the full accumulated tax.
pub open spec fn effective(
    rules: Seq<TaxRule>,
    destination: Jurisdiction,
    code: TaxCode,
) -> Seq<int> {
    let chosen = winners(rules, rules.len() as int, destination, code);
    pick(rules, chosen, false) + pick(rules, chosen, true)
}

proof fn lemma_winners_in_table(
    rules: Seq<TaxRule>,
    n: int,
    destination: Jurisdiction,
    code: TaxCode,
)
    requires
        0 <= n <= rules.len(),
    ensures
        forall|k: int|
            0 <= k < winners(rules, n, destination, code).len() ==> 0 <= #[trigger] winners(
                rules,
                n,
                destination,
                code,
            )[k] < n,
    decreases n,
{
    if n > 0 {
        lemma_winners_in_table(rules, n - 1, destination, code);
        lemma_layer_position(
            rules,
            winners(rules, n - 1, destination, code),
            rules[n - 1].layer@,
        );
    }
}

/// The tax of one line.
pub ghost struct LineTax {
    /// Tax of the whole line.
    pub tax: Money,
    /// The price net of tax.
    pub net: Money,
    /// Tax per rule.
    pub amounts: Seq<Money>,
}

/// Tax added on top of a base by the first `n` rules: the accumulated tax and the
/// amount of each rule.
pub open spec fn added(
    rules: Seq<TaxRule>,
    chosen: Seq<int>,
    n: int,
    base: Money,
    rounding: Rounding,
    currency: Currency,
) -> Result<(Money, Seq<Money>), ErrorView>
    decreases n,
{
    if n <= 0 {
        Ok((Money { minor: 0, currency }, Seq::empty()))
    } else {
        match added(rules, chosen, n - 1, base, rounding, currency) {
            Err(error) => Err(error),
            Ok((tax, amounts)) => {
                let rule = rules[chosen[n - 1]];
                let taxed = if rule.compound {
                    base.plus(tax)
                } else {
                    Ok(base)
                };
                match taxed {
                    Err(error) => Err(error),
                    Ok(taxed) => match taxed.scaled(
                        rule.rate_basis_points as int,
                        10_000,
                        rounding,
                    ) {
                        Err(error) => Err(error),
                        Ok(amount) => match tax.plus(amount) {
                            Err(error) => Err(error),
                            Ok(sum) => Ok((sum, amounts.push(amount))),
                        },
                    },
                }
            },
        }
    }
}

/// A net price at which the tax of every layer is a whole number, and those taxes.
pub ghost struct Makeup {
    /// The net price.
    pub net: int,
    /// Its tax per rule.
    pub taxes: Seq<int>,
}

impl Makeup {
    /// The net price with its tax.
    pub open spec fn gross(self) -> int {
        self.net + sum(self.taxes)
    }

    /// The makeup with one more layer. A plain layer taxes the net price. A compound
    /// layer taxes the net price and the tax so far, on a net price that is ten
    /// thousand times as large, so that its tax is a whole number too.
    pub open spec fn layered(self, rate: int, compound: bool) -> Makeup {
        if compound {
            Makeup {
                net: self.net * 10_000,
                taxes: self.taxes.map_values(|tax: int| tax * 10_000).push(rate * self.gross()),
            }
        } else {
            Makeup { net: self.net, taxes: self.taxes.push(rate * (self.net / 10_000)) }
        }
    }
}

/// What a taxed price is made of under the first `n` of the chosen rules.
pub open spec fn makeup(rules: Seq<TaxRule>, chosen: Seq<int>, n: int) -> Makeup
    decreases n,
{
    if n <= 0 {
        Makeup { net: 10_000, taxes: Seq::empty() }
    } else {
        let rule = rules[chosen[n - 1]];
        makeup(rules, chosen, n - 1).layered(rule.rate_basis_points as int, rule.compound)
    }
}

/// What a price taxed by all the chosen rules is made of.
pub open spec fn price_makeup(rules: Seq<TaxRule>, chosen: Seq<int>) -> Makeup {
    makeup(rules, chosen, chosen.len() as int)
}

/// The tax of one line under a table of rules.
pub open spec fn taxed_line(
    rules: Seq<TaxRule>,
    rounding: Rounding,
    request: TaxRequest,
    line: TaxLineRequest,
) -> Result<LineTax, ErrorView> {
    let base = line.taxable_base;
    let chosen = used_rules(rules, request, line);
    if base.currency != request.currency {
        Err(ErrorView::CurrencyMismatch { expected: request.currency, actual: base.currency })
    } else if request.mode is Exclusive {
        match added(rules, chosen, chosen.len() as int, base, rounding, request.currency) {
            Ok((tax, amounts)) => Ok(LineTax { tax, net: base, amounts }),
            Err(error) => Err(error),
        }
    } else {
        extracted(price_makeup(rules, chosen), base, rounding)
    }
}

/// The tax that a price contains, given what such a price is made of.
pub open spec fn extracted(price: Makeup, base: Money, rounding: Rounding) -> Result<
    LineTax,
    ErrorView,
> {
    match base.scaled(sum(price.taxes), price.gross(), rounding) {
        Err(error) => Err(error),
        Ok(tax) => match allocation(tax, price.taxes) {
            Err(error) => Err(error),
            Ok(amounts) => match base.minus(tax) {
                Err(error) => Err(error),
                Ok(net) => Ok(LineTax { tax, net, amounts }),
            },
        },
    }
}

/// The rules that tax a line: none for exempt goods.
pub open spec fn used_rules(rules: Seq<TaxRule>, request: TaxRequest, line: TaxLineRequest) -> Seq<
    int,
> {
    if line.tax_code@ == "exempt"@ {
        Seq::empty()
    } else {
        effective(rules, request.destination, line.tax_code)
    }
}

/// Whether a result reports the tax of a line, rule by rule.
pub open spec fn reports(
    result: TaxLineResult,
    rules: Seq<TaxRule>,
    chosen: Seq<int>,
    line: TaxLineRequest,
    tax: LineTax,
) -> bool {
    &&& result.reference == line.reference
    &&& result.tax == tax.tax
    &&& result.net == tax.net
    &&& result.components@.len() == chosen.len()
    &&& tax.amounts.len() == chosen.len()
    &&& forall|k: int|
        0 <= k < chosen.len() ==> #[trigger] result.components@[k] == (TaxComponent {
            name: rules[chosen[k]].name,
            rate_basis_points: rules[chosen[k]].rate_basis_points,
            amount: tax.amounts[k],
        })
}

/// Whether a result reports the tax of line `i` of a request.
pub open spec fn reports_line(
    result: TaxLineResult,
    rules: Seq<TaxRule>,
    rounding: Rounding,
    request: TaxRequest,
    i: int,
) -> bool {
    let line = request.lines@[i];
    let tax = taxed_line(rules, rounding, request, line);
    tax is Ok && reports(result, rules, used_rules(rules, request, line), line, tax->Ok_0)
}

/// The error of the first of the first `n` lines that cannot be taxed.
pub open spec fn first_failure(
    rules: Seq<TaxRule>,
    rounding: Rounding,
    request: TaxRequest,
    n: int,
) -> Option<ErrorView>
    decreases n,
{
    if n <= 0 {
        None
    } else {
        match first_failure(rules, rounding, request, n - 1) {
            Some(error) => Some(error),
            None => match taxed_line(rules, rounding, request, request.lines@[n - 1]) {
                Ok(_) => None,
                Err(error) => Some(error),
            },
        }
    }
}

/// A tax engine backed by an in-memory rate table.
///
/// Within each `layer` the most specific matching rule wins (a postal-code rule
/// beats a state rule beats a country rule), and rules that name an explicit
/// `tax_code` beat catch-all rules. Layers then stack, in the order they are
/// first seen, with compound layers applying to base + accumulated tax.
#[derive(Debug, Clone)]
pub struct RateTableTaxCalculator {
    rules: Vec<TaxRule>,
    rounding: Rounding,
}

impl Default for RateTableTaxCalculator {
    fn default() -> (calculator: Self)
        ensures
            calculator.table() == Seq::<TaxRule>::empty(),
            calculator.mode() == Rounding::HalfUp,
    {
        Self::new()
    }
}

impl RateTableTaxCalculator {
    /// The rules, in the order they were added.
    pub closed spec fn table(self) -> Seq<TaxRule> {
        self.rules@
    }

    /// How fractions of a minor unit are rounded.
    pub closed spec fn mode(self) -> Rounding {
        self.rounding
    }

    /// An empty table: everything is untaxed.
    pub fn new() -> (calculator: Self)
        ensures
            calculator.table() == Seq::<TaxRule>::empty(),
            calculator.mode() == Rounding::HalfUp,
    {
        RateTableTaxCalculator { rules: Vec::new(), rounding: Rounding::HalfUp }
    }

    /// Build from a set of rules.
    pub fn with_rules(rules: Vec<TaxRule>) -> (calculator: Self)
        ensures
            calculator.table() == rules@,
            calculator.mode() == Rounding::HalfUp,
    {
        RateTableTaxCalculator { rules, rounding: Rounding::HalfUp }
    }

    /// Add one rule.
    pub fn add_rule(&mut self, rule: TaxRule)
        ensures
            final(self).table() == old(self).table().push(rule),
            final(self).mode() == old(self).mode(),
    {
        self.rules.push(rule);
    }

    /// Override the rounding mode (default [`Rounding::HalfUp`]).
    pub fn with_rounding(self, rounding: Rounding) -> (calculator: Self)
        ensures
            calculator.table() == self.table(),
            calculator.mode() == rounding,
    {
        RateTableTaxCalculator { rules: self.rules, rounding }
    }

    /// Select the winning rule per layer for a destination and product class, by
    /// position in the table.
    pub fn effective_rules(&self, destination: &Jurisdiction, code: &TaxCode) -> (chosen: Vec<
        usize,
    >)
        ensures
            chosen@.map_values(|i: usize| i as int) == effective(
                self.table(),
                *destination,
                *code,
            ),
            forall|k: int| 0 <= k < chosen@.len() ==> #[trigger] chosen@[k] < self.table().len(),
    {
        let ghost rules = self.rules@;
        let mut chosen: Vec<usize> = Vec::new();
        let mut n: usize = 0;
        assert(chosen@.map_values(|i: usize| i as int) =~= Seq::<int>::empty());
        while n < self.rules.len()
            invariant
                rules == self.rules@,
                n <= rules.len(),
                chosen@.map_values(|i: usize| i as int) == winners(
                    rules,
                    n as int,
                    *destination,
                    *code,
                ),
                forall|k: int| 0 <= k < chosen@.len() ==> #[trigger] chosen@[k] < n,
            decreases rules.len() - n,
        {
            let ghost before = chosen@.map_values(|i: usize| i as int);
            if self.rules[n].applies_to(destination, code) {
                let mut at: usize = 0;
                while at < chosen.len() && !same_text(
                    self.rules[chosen[at]].layer.as_str(),
                    self.rules[n].layer.as_str(),
                )
                    invariant
                        rules == self.rules@,
                        n < rules.len(),
                        before == chosen@.map_values(|i: usize| i as int),
                        forall|k: int| 0 <= k < chosen@.len() ==> #[trigger] chosen@[k] < n,
                        at <= chosen@.len(),
                        forall|k: int|
                            0 <= k < at ==> rules[#[trigger] before[k]].layer@
                                != rules[n as int].layer@,
                    ensures
                        at < chosen@.len() ==> rules[before[at as int]].layer@
                            == rules[n as int].layer@,
                    decreases chosen@.len() - at,
                {
                    assert(before[at as int] == chosen@[at as int]);
                    at += 1;
                }
                proof {
                    if at < chosen@.len() {
                        assert(before[at as int] == chosen@[at as int]);
                    }
                    lemma_layer_position_is(rules, before, rules[n as int].layer@, at as int);
                }
                if at == chosen.len() {
                    chosen.push(n);
                    assert(chosen@.map_values(|i: usize| i as int) =~= before.push(n as int));
                } else if self.rules[n].rating() > self.rules[chosen[at]].rating() {
                    chosen[at] = n;
                    assert(chosen@.map_values(|i: usize| i as int) =~= before.update(
                        at as int,
                        n as int,
                    ));
                }
            }
            n += 1;
        }
        let ghost all = chosen@.map_values(|i: usize| i as int);
        // Non-compound layers first so compound layers see the full accumulated tax.
        let mut ordered = self.select(&chosen, false);
        let mut compound = self.select(&chosen, true);
        let ghost plain = ordered@;
        let ghost stacked = compound@;
        ordered.append(&mut compound);
        assert(ordered@.map_values(|i: usize| i as int) =~= pick(rules, all, false) + pick(
            rules,
            all,
            true,
        ));
        ordered
    }

    fn select(&self, chosen: &Vec<usize>, compound: bool) -> (picked: Vec<usize>)
        requires
            forall|k: int| 0 <= k < chosen@.len() ==> #[trigger] chosen@[k] < self.rules@.len(),
        ensures
            picked@.map_values(|i: usize| i as int) == pick(
                self.rules@,
                chosen@.map_values(|i: usize| i as int),
                compound,
            ),
            forall|k: int| 0 <= k < picked@.len() ==> #[trigger] picked@[k] < self.rules@.len(),
    {
        let ghost all = chosen@.map_values(|i: usize| i as int);
        let mut picked: Vec<usize> = Vec::new();
        let mut i: usize = 0;
        assert(all.take(0) =~= Seq::<int>::empty());
        assert(picked@.map_values(|i: usize| i as int) =~= Seq::<int>::empty());
        while i < chosen.len()
            invariant
                all == chosen@.map_values(|i: usize| i as int),
                i <= chosen@.len(),
                forall|k: int|
                    0 <= k < chosen@.len() ==> #[trigger] chosen@[k] < self.rules@.len(),
                forall|k: int|
                    0 <= k < picked@.len() ==> #[trigger] picked@[k] < self.rules@.len(),
                picked@.map_values(|i: usize| i as int) == pick(
                    self.rules@,
                    all.take(i as int),
                    compound,
                ),
            decreases chosen@.len() - i,
        {
            let ghost before = picked@.map_values(|i: usize| i as int);
            assert(all.take(i + 1).drop_last() =~= all.take(i as int));
            let index: usize = chosen[i];
            assert(all.take(i + 1).last() == index);
            if self.rules[index].compound == compound {
                picked.push(index);
                assert(picked@.map_values(|i: usize| i as int) =~= before.push(index as int));
            }
            i += 1;
        }
        assert(all.take(i as int) =~= all);
        picked
    }

    fn add_tax(
        &self,
        chosen: &Vec<usize>,
        line: &TaxLineRequest,
        currency: Currency,
    ) -> (result: Result<TaxLineResult, Error>)
        requires
            forall|k: int| 0 <= k < chosen@.len() ==> #[trigger] chosen@[k] < self.rules@.len(),
        ensures
            ({
                let all = chosen@.map_values(|i: usize| i as int);
                match added(
                    self.rules@,
                    all,
                    all.len() as int,
                    line.taxable_base,
                    self.rounding,
                    currency,
                ) {
                    Ok((tax, amounts)) => result is Ok && reports(
                        result->Ok_0,
                        self.rules@,
                        all,
                        *line,
                        LineTax { tax, net: line.taxable_base, amounts },
                    ),
                    Err(error) => result is Err && result->Err_0@ == error,
                }
            }),
    {
        let ghost all = chosen@.map_values(|i: usize| i as int);
        let ghost mut amounts: Seq<Money> = Seq::empty();
        let mut components: Vec<TaxComponent> = Vec::new();
        let mut accumulated = Money::zero(currency);
        let mut n: usize = 0;
        while n < chosen.len()
            invariant
                all == chosen@.map_values(|i: usize| i as int),
                forall|k: int|
                    0 <= k < chosen@.len() ==> #[trigger] chosen@[k] < self.rules@.len(),
                n <= chosen@.len(),
                added(self.rules@, all, n as int, line.taxable_base, self.rounding, currency)
                    == Ok::<(Money, Seq<Money>), ErrorView>((accumulated, amounts)),
                components@.len() == n,
                amounts.len() == n,
                forall|k: int|
                    0 <= k < n ==> #[trigger] components@[k] == (TaxComponent {
                        name: self.rules@[all[k]].name,
                        rate_basis_points: self.rules@[all[k]].rate_basis_points,
                        amount: amounts[k],
                    }),
            decreases chosen@.len() - n,
        {
            let rule = &self.rules[chosen[n]];
            assert(all[n as int] == chosen@[n as int]);
            let ghost step = added(
                self.rules@,
                all,
                n + 1,
                line.taxable_base,
                self.rounding,
                currency,
            );
            let base = if rule.compound {
                match line.taxable_base.try_add(accumulated) {
                    Ok(base) => base,
                    Err(error) => {
                        proof {
                            lemma_error_stays(
                                |k: int| added(self.rules@, all, k, line.taxable_base, self.rounding, currency),
                                n + 1,
                                all.len() as int,
                            );
                        }
                        return Err(error);
                    },
                }
            } else {
                line.taxable_base
            };
            let amount = match base.mul_basis_points(rule.rate_basis_points, self.rounding) {
                Ok(amount) => amount,
                Err(error) => {
                    proof {
                        lemma_error_stays(
                            |k: int| added(self.rules@, all, k, line.taxable_base, self.rounding, currency),
                            n + 1,
                            all.len() as int,
                        );
                    }
                    return Err(error);
                },
            };
            accumulated = match accumulated.try_add(amount) {
                Ok(sum) => sum,
                Err(error) => {
                    proof {
                        lemma_error_stays(
                            |k: int| added(self.rules@, all, k, line.taxable_base, self.rounding, currency),
                            n + 1,
                            all.len() as int,
                        );
                    }
                    return Err(error);
                },
            };
            components.push(
                TaxComponent {
                    name: rule.name.clone(),
                    rate_basis_points: rule.rate_basis_points,
                    amount,
                },
            );
            proof {
                amounts = amounts.push(amount);
            }
            n += 1;
        }
        Ok(
            TaxLineResult {
                reference: line.reference.clone(),
                tax: accumulated,
                components,
                net: line.taxable_base,
            },
        )
    }

    /// What a price taxed by the chosen rules is made of: the whole tax, the price with it,
    /// and the tax per rule.
    fn price_makeup(&self, chosen: &Vec<usize>) -> (price: (Integer, Integer, Vec<Integer>))
        requires
            forall|k: int| 0 <= k < chosen@.len() ==> #[trigger] chosen@[k] < self.rules@.len(),
        ensures
            ({
                let whole = price_makeup(self.rules@, chosen@.map_values(|i: usize| i as int));
                &&& price.0@ == sum(whole.taxes)
                &&& price.1@ == whole.gross()
                &&& wide_ints(price.2@) == whole.taxes
            }),
    {
        let ghost all = chosen@.map_values(|i: usize| i as int);
        // A ten-thousandth of the net price.
        let mut unit = Integer::new(1);
        let mut taxed = Integer::new(0);
        let mut taxes: Vec<Integer> = Vec::new();
        let mut n: usize = 0;
        assert(wide_ints(taxes@) =~= Seq::<int>::empty());
        while n < chosen.len()
            invariant
                all == chosen@.map_values(|i: usize| i as int),
                forall|k: int|
                    0 <= k < chosen@.len() ==> #[trigger] chosen@[k] < self.rules@.len(),
                n <= chosen@.len(),
                ({
                    let so_far = makeup(self.rules@, all, n as int);
                    &&& so_far.net == unit@ * 10_000
                    &&& taxed@ == sum(so_far.taxes)
                    &&& wide_ints(taxes@) == so_far.taxes
                }),
            decreases chosen@.len() - n,
        {
            let rule = &self.rules[chosen[n]];
            assert(all[n as int] == chosen@[n as int]);
            let rate: i64 = rule.rate_basis_points;
            let ghost so_far = makeup(self.rules@, all, n as int);
            let ghost before = wide_ints(taxes@);
            if rule.compound {
                let net = unit.times(10_000);
                let tax = net.plus(&taxed).times(rate);
                assert(so_far.gross() * rate == rate * so_far.gross()) by (nonlinear_arith);
                let ghost widened = so_far.taxes.map_values(|tax: int| tax * 10_000);
                proof {
                    assert forall|k: int| 0 <= k < widened.len() implies #[trigger] widened[k]
                        == 10_000 * so_far.taxes[k] by {}
                    lemma_sum_scale(so_far.taxes, widened, 10_000);
                    lemma_sum_push(widened, tax@);
                }
                taxed = taxed.times(10_000).plus(&tax);
                taxes = widen(&taxes);
                taxes.push(tax);
                assert(wide_ints(taxes@) =~= widened.push(tax@));
                unit = net;
            } else {
                let tax = unit.times(rate);
                proof {
                    assert(unit@ * rate == rate * unit@) by (nonlinear_arith);
                    lemma_sum_push(so_far.taxes, tax@);
                }
                taxed = taxed.plus(&tax);
                taxes.push(tax);
                assert(wide_ints(taxes@) =~= before.push(tax@));
            }
            n += 1;
        }
        let gross = unit.times(10_000).plus(&taxed);
        (taxed, gross, taxes)
    }

    fn extract_tax(&self, chosen: &Vec<usize>, line: &TaxLineRequest) -> (result: Result<
        TaxLineResult,
        Error,
    >)
        requires
            forall|k: int| 0 <= k < chosen@.len() ==> #[trigger] chosen@[k] < self.rules@.len(),
        ensures
            ({
                let all = chosen@.map_values(|i: usize| i as int);
                match extracted(
                    price_makeup(self.rules@, all),
                    line.taxable_base,
                    self.rounding,
                ) {
                    Ok(tax) => result is Ok && reports(
                        result->Ok_0,
                        self.rules@,
                        all,
                        *line,
                        tax,
                    ),
                    Err(error) => result is Err && result->Err_0@ == error,
                }
            }),
    {
        let ghost all = chosen@.map_values(|i: usize| i as int);
        proof {
            lemma_makeup(self.rules@, all, all.len() as int);
        }
        let (taxed, gross, weights) = self.price_makeup(chosen);
        // Extract the total tax embedded in the gross, then split it across layers
        // proportionally so the components still sum exactly to the total.
        let tax = match line.taxable_base.mul_wide_ratio(&taxed, &gross, self.rounding) {
            Ok(tax) => tax,
            Err(error) => return Err(error),
        };
        let shares = match allocate_widely(tax, &weights) {
            Ok(shares) => shares,
            Err(error) => return Err(error),
        };
        assert(weights@.len() == wide_ints(weights@).len());
        let net = match line.taxable_base.try_sub(tax) {
            Ok(net) => net,
            Err(error) => return Err(error),
        };
        let mut components: Vec<TaxComponent> = Vec::new();
        let mut k: usize = 0;
        while k < chosen.len()
            invariant
                all == chosen@.map_values(|i: usize| i as int),
                forall|k: int|
                    0 <= k < chosen@.len() ==> #[trigger] chosen@[k] < self.rules@.len(),
                shares@.len() == chosen@.len(),
                k <= chosen@.len(),
                components@.len() == k,
                forall|j: int|
                    0 <= j < k ==> #[trigger] components@[j] == (TaxComponent {
                        name: self.rules@[all[j]].name,
                        rate_basis_points: self.rules@[all[j]].rate_basis_points,
                        amount: shares@[j],
                    }),
            decreases chosen@.len() - k,
        {
            let rule = &self.rules[chosen[k]];
            assert(all[k as int] == chosen@[k as int]);
            components.push(
                TaxComponent {
                    name: rule.name.clone(),
                    rate_basis_points: rule.rate_basis_points,
                    amount: shares[k],
                },
            );
            k += 1;
        }
        Ok(TaxLineResult { reference: line.reference.clone(), tax, components, net })
    }
}

/// The taxes on a net price that is ten thousand times as large.
fn widen(taxes: &Vec<Integer>) -> (wider: Vec<Integer>)
    ensures
        wide_ints(wider@) == wide_ints(taxes@).map_values(|tax: int| tax * 10_000),
{
    let mut wider: Vec<Integer> = Vec::new();
    let mut k: usize = 0;
    while k < taxes.len()
        invariant
            k <= taxes@.len(),
            wider@.len() == k,
            forall|j: int| 0 <= j < k ==> (#[trigger] wider@[j])@ == taxes@[j]@ * 10_000,
        decreases taxes@.len() - k,
    {
        wider.push(taxes[k].times(10_000));
        k += 1;
    }
    assert(wide_ints(wider@) =~= wide_ints(taxes@).map_values(|tax: int| tax * 10_000));
    wider
}

proof fn lemma_makeup(rules: Seq<TaxRule>, chosen: Seq<int>, n: int)
    requires
        0 <= n <= chosen.len(),
    ensures
        makeup(rules, chosen, n).taxes.len() == n,
    decreases n,
{
    if n > 0 {
        lemma_makeup(rules, chosen, n - 1);
    }
}

impl TaxCalculator for RateTableTaxCalculator {
    fn quote(&self, request: &TaxRequest) -> (quote: Result<TaxQuote, Error>)
        ensures
            match first_failure(
                self.table(),
                self.mode(),
                *request,
                request.lines@.len() as int,
            ) {
                Some(error) => quote is Err && quote->Err_0@ == error,
                None => {
                    &&& quote is Ok
                    &&& quote->Ok_0.lines@.len() == request.lines@.len()
                    &&& forall|i: int|
                        0 <= i < request.lines@.len() ==> reports_line(
                            #[trigger] quote->Ok_0.lines@[i],
                            self.table(),
                            self.mode(),
                            *request,
                            i,
                        )
                },
            },
    {
        let ghost rules = self.rules@;
        let mut lines: Vec<TaxLineResult> = Vec::new();
        let mut n: usize = 0;
        while n < request.lines.len()
            invariant
                rules == self.rules@,
                n <= request.lines@.len(),
                lines@.len() == n,
                first_failure(rules, self.rounding, *request, n as int) is None,
                forall|i: int|
                    0 <= i < n ==> reports_line(
                        #[trigger] lines@[i],
                        rules,
                        self.rounding,
                        *request,
                        i,
                    ),
            decreases request.lines@.len() - n,
        {
            let line = &request.lines[n];
            if line.taxable_base.currency() != request.currency {
                proof {
                    lemma_finding_stays(
                        |k: int| first_failure(rules, self.rounding, *request, k),
                        n + 1,
                        request.lines@.len() as int,
                    );
                }
                return Err(
                    Error::CurrencyMismatch {
                        expected: request.currency,
                        actual: line.taxable_base.currency(),
                    },
                );
            }
            let chosen: Vec<usize> = if line.tax_code.is_exempt() {
                Vec::new()
            } else {
                self.effective_rules(&request.destination, &line.tax_code)
            };
            let ghost all = chosen@.map_values(|i: usize| i as int);
            assert(all =~= used_rules(rules, *request, *line));
            let taxed = match request.mode {
                TaxMode::Exclusive => self.add_tax(&chosen, line, request.currency),
                TaxMode::Inclusive => self.extract_tax(&chosen, line),
            };
            match taxed {
                Ok(result) => {
                    assert(reports_line(result, rules, self.rounding, *request, n as int));
                    lines.push(result);
                },
                Err(error) => {
                    proof {
                        lemma_finding_stays(
                            |k: int| first_failure(rules, self.rounding, *request, k),
                            n + 1,
                            request.lines@.len() as int,
                        );
                    }
                    return Err(error);
                },
            }
            n += 1;
        }
        Ok(TaxQuote { lines })
    }
}

/// A calculator that never charges tax. Useful for tests and tax-free regions.
#[derive(Debug, Clone, Copy)]
pub struct NoTaxCalculator;

impl Default for NoTaxCalculator {
    fn default() -> (calculator: Self)
        ensures
            calculator == NoTaxCalculator,
    {
        NoTaxCalculator
    }
}

impl TaxCalculator for NoTaxCalculator {
    fn quote(&self, request: &TaxRequest) -> (quote: Result<TaxQuote, Error>)
        ensures
            quote is Ok,
            quote->Ok_0.lines@.len() == request.lines@.len(),
            forall|i: int|
                0 <= i < request.lines@.len() ==> {
                    let line = #[trigger] quote->Ok_0.lines@[i];
                    &&& line.reference == request.lines@[i].reference
                    &&& line.tax == (Money { minor: 0, currency: request.currency })
                    &&& line.components@.len() == 0
                    &&& line.net == request.lines@[i].taxable_base
                },
    {
        let mut lines: Vec<TaxLineResult> = Vec::new();
        let mut n: usize = 0;
        while n < request.lines.len()
            invariant
                n <= request.lines@.len(),
                lines@.len() == n,
                forall|i: int|
                    0 <= i < n ==> {
                        let line = #[trigger] lines@[i];
                        &&& line.reference == request.lines@[i].reference
                        &&& line.tax == (Money { minor: 0, currency: request.currency })
                        &&& line.components@.len() == 0
                        &&& line.net == request.lines@[i].taxable_base
                    },
            decreases request.lines@.len() - n,
        {
            let line = &request.lines[n];
            lines.push(
                TaxLineResult {
                    reference: line.reference.clone(),
                    tax: Money::zero(request.currency),
                    components: Vec::new(),
                    net: line.taxable_base,
                },
            );
            n += 1;
        }
        Ok(TaxQuote { lines })
    }
}

proof fn lemma_added_sums(
    rules: Seq<TaxRule>,
    chosen: Seq<int>,
    n: int,
    base: Money,
    rounding: Rounding,
    currency: Currency,
)
    requires
        0 <= n,
    ensures
        added(rules, chosen, n, base, rounding, currency) matches Ok((tax, amounts)) ==> {
            &&& amounts.len() == n
            &&& tax.minor == sum(minors(amounts))
            &&& tax.currency == currency
        },
    decreases n,
{
    if n > 0 {
        lemma_added_sums(rules, chosen, n - 1, base, rounding, currency);
        if let Ok((tax, amounts)) = added(rules, chosen, n, base, rounding, currency) {
            let before = added(rules, chosen, n - 1, base, rounding, currency)->Ok_0;
            assert(minors(amounts).drop_last() =~= minors(before.1));
        }
    } else {
        assert(minors(Seq::<Money>::empty()) =~= Seq::<int>::empty());
    }
}

/// The components of a line's tax sum to that tax, and in inclusive pricing the
/// net price and the tax make up the price.
pub proof fn law_components_sum_to_the_tax(
    rules: Seq<TaxRule>,
    rounding: Rounding,
    request: TaxRequest,
    line: TaxLineRequest,
)
    ensures
        taxed_line(rules, rounding, request, line) matches Ok(tax) ==> {
            &&& sum(minors(tax.amounts)) == tax.tax.minor
            &&& tax.tax.currency == request.currency
            &&& tax.net.currency == request.currency
            &&& request.mode is Inclusive ==> tax.net.minor + tax.tax.minor
                == line.taxable_base.minor
            &&& request.mode is Exclusive ==> tax.net == line.taxable_base
        },
{
    let chosen = used_rules(rules, request, line);
    lemma_added_sums(
        rules,
        chosen,
        chosen.len() as int,
        line.taxable_base,
        rounding,
        request.currency,
    );
    if let Ok(tax) = taxed_line(rules, rounding, request, line) {
        if request.mode is Inclusive {
            law_allocation_succeeds(tax.tax, price_makeup(rules, chosen).taxes);
        }
    }
}

proof fn lemma_exact_rounding(mode: Rounding, value: int, denominator: int)
    requires
        denominator > 0,
    ensures
        mode.rounded(value * denominator, denominator) == value,
{
    lemma_fundamental_div_mod_converse(value * denominator, denominator, value, 0);
}

spec fn fits(figure: int) -> bool {
    i64::MIN <= figure <= i64::MAX
}

proof fn lemma_added_is_the_makeup(
    rules: Seq<TaxRule>,
    chosen: Seq<int>,
    n: int,
    price: Makeup,
    k: int,
    net: Money,
    rounding: Rounding,
)
    requires
        0 <= n <= chosen.len(),
        forall|i: int| 0 <= i < chosen.len() ==> rules[#[trigger] chosen[i]].rate_basis_points >= 0,
        makeup(rules, chosen, n) == price,
        k >= 0,
        net.minor == k * price.net,
        fits(k * price.gross()),
    ensures
        price.net >= 10_000,
        price.net % 10_000 == 0,
        price.taxes.len() == n,
        forall|i: int| 0 <= i < n ==> #[trigger] price.taxes[i] >= 0,
        sum(price.taxes) >= 0,
        added(rules, chosen, n, net, rounding, net.currency) matches Ok((tax, amounts)) && {
            &&& tax == (Money { minor: (k * sum(price.taxes)) as i64, currency: net.currency })
            &&& fits(k * sum(price.taxes))
            &&& amounts.len() == n
            &&& forall|i: int|
                0 <= i < n ==> #[trigger] amounts[i] == (Money {
                    minor: (k * price.taxes[i]) as i64,
                    currency: net.currency,
                }) && fits(k * price.taxes[i])
        },
    decreases n,
{
    if n <= 0 {
        assert(k * 0 == 0) by (nonlinear_arith);
    } else {
        let inner = makeup(rules, chosen, n - 1);
        let rule = rules[chosen[n - 1]];
        let rate = rule.rate_basis_points as int;
        lemma_makeup(rules, chosen, n - 1);
        let part = price.taxes[n - 1];
        if rule.compound {
            let widened = inner.taxes.map_values(|tax: int| tax * 10_000);
            assert forall|i: int| 0 <= i < widened.len() implies #[trigger] widened[i] == 10_000
                * inner.taxes[i] by {}
            lemma_sum_scale(inner.taxes, widened, 10_000);
            lemma_sum_push(widened, part);
            let g = inner.gross();
            let q = 10_000 * k;
            assert(q * inner.net == k * price.net) by (nonlinear_arith)
                requires
                    q == 10_000 * k,
                    price.net == inner.net * 10_000,
            ;
            assert(price.gross() == 10_000 * g + rate * g);
            lemma_rates_are_taxes(rules, chosen, n - 1);
            assert(q * g <= k * price.gross() && 0 <= q * g) by (nonlinear_arith)
                requires
                    q == 10_000 * k,
                    price.gross() == 10_000 * g + rate * g,
                    k >= 0,
                    rate >= 0,
                    g >= 0,
            ;
            lemma_added_is_the_makeup(rules, chosen, n - 1, inner, q, net, rounding);
            let before = added(rules, chosen, n - 1, net, rounding, net.currency)->Ok_0;
            assert(q * inner.net + q * sum(inner.taxes) == q * g) by (nonlinear_arith)
                requires
                    g == inner.net + sum(inner.taxes),
            ;
            let taxed = Money { minor: (q * g) as i64, currency: net.currency };
            assert(net.plus(before.0) == Ok::<Money, ErrorView>(taxed));
            assert(taxed.minor * rate == (k * part) * 10_000) by (nonlinear_arith)
                requires
                    taxed.minor == q * g,
                    q == 10_000 * k,
                    part == rate * g,
            ;
            lemma_exact_rounding(rounding, k * part, 10_000);
            assert(q * sum(inner.taxes) + k * part == k * sum(price.taxes)) by (nonlinear_arith)
                requires
                    q == 10_000 * k,
                    sum(price.taxes) == 10_000 * sum(inner.taxes) + part,
            ;
            assert(part >= 0) by (nonlinear_arith)
                requires
                    part == rate * g,
                    rate >= 0,
                    g >= 0,
            ;
            lemma_part_bound(k, part, sum(price.taxes), price.gross());
            assert forall|i: int| 0 <= i < n - 1 implies k * #[trigger] price.taxes[i] == q
                * inner.taxes[i] && price.taxes[i] >= 0 by {
                assert(price.taxes[i] == inner.taxes[i] * 10_000);
                assert(k * (inner.taxes[i] * 10_000) == q * inner.taxes[i]) by (nonlinear_arith)
                    requires
                        q == 10_000 * k,
                ;
            }
        } else {
            lemma_sum_push(inner.taxes, part);
            lemma_rates_are_taxes(rules, chosen, n - 1);
            let unit = inner.net / 10_000;
            assert(part == rate * unit);
            assert(part >= 0) by (nonlinear_arith)
                requires
                    part == rate * unit,
                    rate >= 0,
                    unit >= 0,
            ;
            assert(k * inner.gross() <= k * price.gross() && 0 <= k * inner.gross())
                by (nonlinear_arith)
                requires
                    k >= 0,
                    0 <= inner.gross() <= price.gross(),
            ;
            lemma_added_is_the_makeup(rules, chosen, n - 1, inner, k, net, rounding);
            assert(net.minor * rate == (k * part) * 10_000) by (nonlinear_arith)
                requires
                    net.minor == k * inner.net,
                    inner.net == 10_000 * unit,
                    part == rate * unit,
            ;
            lemma_exact_rounding(rounding, k * part, 10_000);
            assert(k * sum(inner.taxes) + k * part == k * sum(price.taxes)) by (nonlinear_arith)
                requires
                    sum(price.taxes) == sum(inner.taxes) + part,
            ;
            lemma_part_bound(k, part, sum(price.taxes), price.gross());
            assert forall|i: int| 0 <= i < n - 1 implies #[trigger] price.taxes[i]
                == inner.taxes[i] by {}
        }
    }
}

proof fn lemma_part_bound(k: int, part: int, whole: int, gross: int)
    requires
        k >= 0,
        0 <= part <= whole <= gross,
        fits(k * gross),
    ensures
        fits(k * part),
        fits(k * whole),
{
    assert(0 <= k * part <= k * gross && 0 <= k * whole <= k * gross) by (nonlinear_arith)
        requires
            k >= 0,
            0 <= part <= whole <= gross,
    ;
}

proof fn lemma_rates_are_taxes(rules: Seq<TaxRule>, chosen: Seq<int>, n: int)
    requires
        0 <= n <= chosen.len(),
        forall|i: int| 0 <= i < chosen.len() ==> rules[#[trigger] chosen[i]].rate_basis_points >= 0,
    ensures
        ({
            let price = makeup(rules, chosen, n);
            &&& price.net >= 10_000
            &&& price.net % 10_000 == 0
            &&& sum(price.taxes) >= 0
            &&& non_negative(price.taxes)
        }),
    decreases n,
{
    if n > 0 {
        let inner = makeup(rules, chosen, n - 1);
        let price = makeup(rules, chosen, n);
        let rule = rules[chosen[n - 1]];
        let rate = rule.rate_basis_points as int;
        lemma_rates_are_taxes(rules, chosen, n - 1);
        let g = inner.gross();
        let unit = inner.net / 10_000;
        assert(rate * g >= 0 && rate * unit >= 0) by (nonlinear_arith)
            requires
                rate >= 0,
                g >= 0,
                unit >= 0,
        ;
        assert forall|i: int| 0 <= i < price.taxes.len() implies #[trigger] price.taxes[i] >= 0 by {
            if i < inner.taxes.len() {
                assert(inner.taxes[i] >= 0);
            }
        }
        lemma_sum_non_negative(price.taxes);
    }
}

/// Inclusive pricing undoes exclusive pricing, with compound layers too: a price made of
/// a net amount and the exact tax that the rules add to it contains that tax, layer by
/// layer.
pub proof fn law_inclusive_pricing_undoes_exclusive_pricing(
    rules: Seq<TaxRule>,
    chosen: Seq<int>,
    k: int,
    net: Money,
    gross: Money,
    rounding: Rounding,
)
    requires
        forall|i: int| 0 <= i < chosen.len() ==> rules[#[trigger] chosen[i]].rate_basis_points >= 0,
        k >= 0,
        net.minor == k * price_makeup(rules, chosen).net,
        gross.minor == k * price_makeup(rules, chosen).gross(),
        gross.currency == net.currency,
    ensures
        added(rules, chosen, chosen.len() as int, net, rounding, net.currency) matches Ok(
            (tax, amounts),
        ) && {
            &&& net.plus(tax) == Ok::<Money, ErrorView>(gross)
            &&& extracted(price_makeup(rules, chosen), gross, rounding) matches Ok(line) && {
                &&& line.tax == tax
                &&& line.net == net
                &&& line.amounts =~= amounts
            }
        },
{
    let n = chosen.len() as int;
    let price = price_makeup(rules, chosen);
    lemma_added_is_the_makeup(rules, chosen, n, price, k, net, rounding);
    lemma_rates_are_taxes(rules, chosen, n);
    let (tax, amounts) = added(rules, chosen, n, net, rounding, net.currency)->Ok_0;
    let whole = sum(price.taxes);
    let g = price.gross();
    assert(k * price.net + k * whole == k * g) by (nonlinear_arith)
        requires
            g == price.net + whole,
    ;
    assert(gross.minor * whole == (k * whole) * g) by (nonlinear_arith)
        requires
            gross.minor == k * g,
    ;
    lemma_exact_rounding(rounding, k * whole, g);
    if n > 0 {
        law_allocation_succeeds(tax, price.taxes);
        let parts = parts_of(tax.minor as int, price.taxes);
        assert forall|i: int| 0 <= i < n implies parts[i] == k * #[trigger] price.taxes[i] by {
            law_parts_sum_to_the_whole(tax.minor as int, price.taxes);
            lemma_sum_non_negative(price.taxes);
            if whole > 0 {
                law_parts_are_proportional(tax.minor as int, price.taxes, i);
                let p = parts[i];
                let w = price.taxes[i];
                assert(p == k * w) by (nonlinear_arith)
                    requires
                        -whole < p * whole - (k * whole) * w < whole,
                        whole > 0,
                ;
            } else {
                assert(price.taxes[i] == 0);
                assert(k * 0 == 0) by (nonlinear_arith);
            }
        }
        let line = extracted(price_makeup(rules, chosen), gross, rounding)->Ok_0;
        assert forall|i: int| 0 <= i < n implies #[trigger] line.amounts[i] == amounts[i] by {
            assert(parts[i] == k * price.taxes[i]);
        }
    } else {
        assert(whole == 0);
        assert(k * 0 == 0) by (nonlinear_arith);
    }
}

/// Exempt lines are never taxed.
pub proof fn law_exempt_lines_are_not_taxed(
    rules: Seq<TaxRule>,
    rounding: Rounding,
    request: TaxRequest,
    line: TaxLineRequest,
)
    requires
        line.tax_code@ == "exempt"@,
        line.taxable_base.currency == request.currency,
    ensures
        taxed_line(rules, rounding, request, line) == Ok::<LineTax, ErrorView>(
            LineTax {
                tax: Money { minor: 0, currency: request.currency },
                net: line.taxable_base,
                amounts: Seq::empty(),
            },
        ),
{
    let base = line.taxable_base;
    assert(base.minor * 0 == 0);
    assert(rounding.rounded(0, 10_000) == 0);
}

/// Within a layer the most specific applicable rule wins, and of equally specific
/// rules the one that was added first.
pub proof fn law_most_specific_rule_wins(
    rules: Seq<TaxRule>,
    n: int,
    destination: Jurisdiction,
    code: TaxCode,
    j: int,
)
    requires
        0 <= j < n <= rules.len(),
        rules[j].applies(destination, code),
    ensures
        ({
            let chosen = winners(rules, n, destination, code);
            let at = layer_position(rules, chosen, rules[j].layer@);
            &&& 0 <= at < chosen.len()
            &&& rules[chosen[at]].layer@ == rules[j].layer@
            &&& rules[chosen[at]].applies(destination, code)
            &&& rules[chosen[at]].strength() >= rules[j].strength()
            &&& rules[chosen[at]].strength() == rules[j].strength() ==> chosen[at] <= j
        }),
    decreases n,
{
    let layer = rules[j].layer@;
    let before = winners(rules, n - 1, destination, code);
    let chosen = winners(rules, n, destination, code);
    let rule = rules[n - 1];
    lemma_layer_position(rules, before, rule.layer@);
    lemma_layer_position(rules, before, layer);
    lemma_winners_in_table(rules, n - 1, destination, code);
    let spot = layer_position(rules, before, rule.layer@);
    if j < n - 1 {
        law_most_specific_rule_wins(rules, n - 1, destination, code, j);
        let at = layer_position(rules, before, layer);
        assert forall|k: int| 0 <= k < at implies rules[#[trigger] chosen[k]].layer@
            != layer by {
            assert(rules[before[k]].layer@ != layer);
        }
        lemma_layer_position_is(rules, chosen, layer, at);
    } else {
        if spot < before.len() {
            lemma_winner_applies(rules, n - 1, destination, code, spot);
        }
        assert forall|k: int| 0 <= k < spot implies rules[#[trigger] chosen[k]].layer@
            != layer by {
            assert(rules[before[k]].layer@ != layer);
        }
        lemma_layer_position_is(rules, chosen, layer, spot);
    }
}

/// Of rules of one layer, one for a postal code beats one for a state, and that beats one
/// for a country, whatever else the rules say.
pub proof fn law_postal_rules_beat_state_rules(postal: TaxRule, state: TaxRule, country: TaxRule)
    requires
        postal.jurisdiction.postal_code is Some,
        state.jurisdiction.postal_code is None,
        state.jurisdiction.region is Some,
        country.jurisdiction.postal_code is None,
        country.jurisdiction.region is None,
    ensures
        postal.strength() > state.strength(),
        state.strength() > country.strength(),
{
}

proof fn lemma_winner_applies(
    rules: Seq<TaxRule>,
    n: int,
    destination: Jurisdiction,
    code: TaxCode,
    k: int,
)
    requires
        0 <= n <= rules.len(),
        0 <= k < winners(rules, n, destination, code).len(),
    ensures
        rules[winners(rules, n, destination, code)[k]].applies(destination, code),
    decreases n,
{
    if n > 0 {
        let before = winners(rules, n - 1, destination, code);
        lemma_layer_position(rules, before, rules[n - 1].layer@);
        let spot = layer_position(rules, before, rules[n - 1].layer@);
        if k < before.len() {
            lemma_winner_applies(rules, n - 1, destination, code, k);
        }
    }
}

/// What a rule taxes of a price that does not contain tax: the price, and for a compound
/// layer the tax of the layers before it too.
pub open spec fn taxed_amount(
    rules: Seq<TaxRule>,
    chosen: Seq<int>,
    base: Money,
    amounts: Seq<Money>,
    k: int,
) -> int {
    if rules[chosen[k]].compound {
        base.minor + sum(minors(amounts).take(k))
    } else {
        base.minor as int
    }
}

/// Tax on top of a price is each rule's rate on what the rule taxes: less than one minor
/// unit off, and at most half of one for the half modes.
pub proof fn law_exclusive_tax_is_each_rate_on_its_base(
    rules: Seq<TaxRule>,
    chosen: Seq<int>,
    n: int,
    base: Money,
    rounding: Rounding,
    currency: Currency,
    k: int,
)
    requires
        0 <= k < n <= chosen.len(),
    ensures
        added(rules, chosen, n, base, rounding, currency) matches Ok((tax, amounts)) ==> {
            let rate = rules[chosen[k]].rate_basis_points;
            let off = amounts[k].minor * 10_000 - taxed_amount(rules, chosen, base, amounts, k)
                * rate;
            &&& amounts.len() == n
            &&& tax.minor == sum(minors(amounts))
            &&& -10_000 < off < 10_000
            &&& (rounding is HalfUp || rounding is HalfEven) ==> -10_000 <= 2 * off <= 10_000
        },
    decreases n,
{
    if added(rules, chosen, n, base, rounding, currency) is Ok {
        let (tax, amounts) = added(rules, chosen, n, base, rounding, currency)->Ok_0;
        let (tax_before, before) = added(
            rules,
            chosen,
            n - 1,
            base,
            rounding,
            currency,
        )->Ok_0;
        lemma_added_sums(rules, chosen, n - 1, base, rounding, currency);
        lemma_added_sums(rules, chosen, n, base, rounding, currency);
        lemma_added_amounts(rules, chosen, n - 1, base, rounding, currency);
        if k < n - 1 {
            law_exclusive_tax_is_each_rate_on_its_base(
                rules,
                chosen,
                n - 1,
                base,
                rounding,
                currency,
                k,
            );
            assert(amounts[k] == before[k]);
            assert(minors(amounts).take(k) =~= minors(before).take(k));
        } else {
            let rule = rules[chosen[n - 1]];
            let taxed = if rule.compound {
                base.plus(tax_before)->Ok_0
            } else {
                base
            };
            law_scaling_is_proportional(
                taxed,
                rule.rate_basis_points as int,
                10_000,
                rounding,
            );
            assert(minors(amounts).take(k) =~= minors(before));
        }
    }
}

proof fn lemma_added_amounts(
    rules: Seq<TaxRule>,
    chosen: Seq<int>,
    n: int,
    base: Money,
    rounding: Rounding,
    currency: Currency,
)
    requires
        0 <= n <= chosen.len(),
    ensures
        added(rules, chosen, n, base, rounding, currency) matches Ok((_, amounts))
            ==> amounts.len() == n,
    decreases n,
{
    if n > 0 {
        lemma_added_amounts(rules, chosen, n - 1, base, rounding, currency);
    }
}

/// The rates of a list of rules.
pub open spec fn rates(rules: Seq<TaxRule>, chosen: Seq<int>) -> Seq<int> {
    chosen.map_values(|k: int| rules[k].rate_basis_points as int)
}

proof fn lemma_plain_makeup(rules: Seq<TaxRule>, chosen: Seq<int>, n: int)
    requires
        0 <= n <= chosen.len(),
        forall|k: int| 0 <= k < chosen.len() ==> !rules[#[trigger] chosen[k]].compound,
    ensures
        makeup(rules, chosen, n).net == 10_000,
        makeup(rules, chosen, n).taxes =~= rates(rules, chosen).take(n),
    decreases n,
{
    if n > 0 {
        lemma_plain_makeup(rules, chosen, n - 1);
        assert(!rules[chosen[n - 1]].compound);
        let rate = rules[chosen[n - 1]].rate_basis_points as int;
        assert(rate * (10_000int / 10_000) == rate);
    }
}

/// The tax that a price contains under rates that do not compound is the price times the
/// rates over ten thousand basis points more than the rates, less than one minor unit off
/// and at most half of one for the half modes; the rest of the price is net.
pub proof fn law_inclusive_tax_is_the_rate_within_the_price(
    rules: Seq<TaxRule>,
    chosen: Seq<int>,
    base: Money,
    rounding: Rounding,
)
    requires
        forall|k: int| 0 <= k < chosen.len() ==> !rules[#[trigger] chosen[k]].compound,
        sum(rates(rules, chosen)) > -10_000,
    ensures
        extracted(price_makeup(rules, chosen), base, rounding) matches Ok(line) ==> {
            let whole = sum(rates(rules, chosen));
            let off = line.tax.minor * (10_000 + whole) - base.minor * whole;
            &&& -(10_000 + whole) < off < 10_000 + whole
            &&& (rounding is HalfUp || rounding is HalfEven) ==> -(10_000 + whole) <= 2 * off
                <= 10_000 + whole
            &&& line.net.minor == base.minor - line.tax.minor
            &&& line.tax.currency == base.currency
        },
{
    let n = chosen.len() as int;
    lemma_plain_makeup(rules, chosen, n);
    assert(rates(rules, chosen).take(n) =~= rates(rules, chosen));
    let price = price_makeup(rules, chosen);
    law_scaling_is_proportional(base, sum(price.taxes), price.gross(), rounding);
}

/// The tax that a price contains is split over the rules in proportion to what each adds to
/// a net price, less than one minor unit off.
pub proof fn law_contained_tax_is_split_by_layer(
    rules: Seq<TaxRule>,
    chosen: Seq<int>,
    base: Money,
    rounding: Rounding,
    k: int,
)
    requires
        forall|i: int| 0 <= i < chosen.len() ==> rules[#[trigger] chosen[i]].rate_basis_points >= 0,
        sum(price_makeup(rules, chosen).taxes) > 0,
        0 <= k < chosen.len(),
    ensures
        extracted(price_makeup(rules, chosen), base, rounding) matches Ok(line) ==> {
            let taxes = price_makeup(rules, chosen).taxes;
            let whole = sum(taxes);
            &&& line.amounts.len() == chosen.len()
            &&& -whole < line.amounts[k].minor * whole - line.tax.minor * taxes[k] < whole
        },
{
    let n = chosen.len() as int;
    let price = price_makeup(rules, chosen);
    lemma_makeup(rules, chosen, n);
    lemma_rates_are_taxes(rules, chosen, n);
    if let Ok(line) = extracted(price, base, rounding) {
        law_allocation_succeeds(line.tax, price.taxes);
        law_parts_sum_to_the_whole(line.tax.minor as int, price.taxes);
        law_parts_are_proportional(line.tax.minor as int, price.taxes, k);
        let part = parts_of(line.tax.minor as int, price.taxes)[k];
        assert(i64::MIN <= part <= i64::MAX);
    }
}

/// What each rule adds to a net price: a plain rule its rate on the price, a compound one
/// its rate on the price with the tax of the rules before it.
pub proof fn law_makeups_follow_the_rates(rules: Seq<TaxRule>, chosen: Seq<int>, n: int)
    requires
        0 < n <= chosen.len(),
        forall|i: int| 0 <= i < chosen.len() ==> rules[#[trigger] chosen[i]].rate_basis_points >= 0,
    ensures
        ({
            let before = makeup(rules, chosen, n - 1);
            let after = makeup(rules, chosen, n);
            let rule = rules[chosen[n - 1]];
            let last = after.taxes[n - 1];
            &&& after.taxes.len() == n
            &&& !rule.compound ==> last * 10_000 == rule.rate_basis_points * after.net
            &&& rule.compound ==> last * 10_000 == rule.rate_basis_points * (after.net + sum(
                after.taxes.take(n - 1),
            ))
            &&& forall|i: int|
                0 <= i < n - 1 ==> #[trigger] after.taxes[i] * before.net == before.taxes[i]
                    * after.net
        }),
{
    let before = makeup(rules, chosen, n - 1);
    let after = makeup(rules, chosen, n);
    let rule = rules[chosen[n - 1]];
    let rate = rule.rate_basis_points as int;
    lemma_makeup(rules, chosen, n - 1);
    lemma_makeup(rules, chosen, n);
    lemma_rates_are_taxes(rules, chosen, n - 1);
    let unit = before.net / 10_000;
    if rule.compound {
        let widened = before.taxes.map_values(|tax: int| tax * 10_000);
        assert(after.taxes.take(n - 1) =~= widened);
        assert forall|i: int| 0 <= i < widened.len() implies #[trigger] widened[i] == 10_000
            * before.taxes[i] by {}
        lemma_sum_scale(before.taxes, widened, 10_000);
        let g = before.gross();
        assert((rate * g) * 10_000 == rate * (10_000 * g)) by (nonlinear_arith);
        assert forall|i: int| 0 <= i < n - 1 implies #[trigger] after.taxes[i] * before.net
            == before.taxes[i] * after.net by {
            let t = before.taxes[i];
            let m = before.net;
            assert(after.taxes[i] == t * 10_000);
            assert((t * 10_000) * m == t * (m * 10_000)) by (nonlinear_arith);
        }
    } else {
        assert((rate * unit) * 10_000 == rate * (unit * 10_000)) by (nonlinear_arith);
        assert forall|i: int| 0 <= i < n - 1 implies #[trigger] after.taxes[i] * before.net
            == before.taxes[i] * after.net by {
            assert(after.taxes[i] == before.taxes[i]);
        }
    }
}

proof fn lemma_pick_holds(rules: Seq<TaxRule>, chosen: Seq<int>, compound: bool, k: int)
    requires
        0 <= k < chosen.len(),
        rules[chosen[k]].compound == compound,
    ensures
        pick(rules, chosen, compound).contains(chosen[k]),
    decreases chosen.len(),
{
    let rest = chosen.drop_last();
    let picked = pick(rules, chosen, compound);
    if k < rest.len() {
        lemma_pick_holds(rules, rest, compound, k);
        let before = pick(rules, rest, compound);
        let i = choose|i: int| 0 <= i < before.len() && before[i] == rest[k];
        assert(picked[i] == chosen[k]);
    } else {
        assert(picked[picked.len() - 1] == chosen[k]);
    }
}

proof fn lemma_picked(rules: Seq<TaxRule>, chosen: Seq<int>, compound: bool, i: int)
    requires
        0 <= i < pick(rules, chosen, compound).len(),
    ensures
        rules[pick(rules, chosen, compound)[i]].compound == compound,
        chosen.contains(pick(rules, chosen, compound)[i]),
    decreases chosen.len(),
{
    let rest = chosen.drop_last();
    let before = pick(rules, rest, compound);
    if i < before.len() {
        lemma_picked(rules, rest, compound, i);
        let k = choose|k: int| 0 <= k < rest.len() && rest[k] == before[i];
        assert(chosen[k] == before[i]);
    } else {
        assert(chosen[chosen.len() - 1] == pick(rules, chosen, compound)[i]);
    }
}

/// A line is taxed by rules that apply to it, and in every layer with a rule that applies
/// one such rule does: none of the layer is more specific, and of equally specific ones it
/// was added first. Plain layers come before compound ones.
pub proof fn law_lines_are_taxed_by_the_best_rule_of_each_layer(
    rules: Seq<TaxRule>,
    destination: Jurisdiction,
    code: TaxCode,
    j: int,
    a: int,
    b: int,
)
    ensures
        0 <= j < rules.len() && rules[j].applies(destination, code) ==> {
            let used = effective(rules, destination, code);
            exists|i: int|
                0 <= i < used.len() && {
                    let rule = rules[#[trigger] used[i]];
                    &&& rule.layer@ == rules[j].layer@
                    &&& rule.strength() >= rules[j].strength()
                    &&& rule.strength() == rules[j].strength() ==> used[i] <= j
                }
        },
        0 <= a < effective(rules, destination, code).len() ==> {
            let used = effective(rules, destination, code);
            &&& 0 <= used[a] < rules.len()
            &&& rules[used[a]].applies(destination, code)
            &&& a < b < used.len() && rules[used[a]].compound ==> rules[used[b]].compound
        },
{
    let n = rules.len() as int;
    let chosen = winners(rules, n, destination, code);
    let used = effective(rules, destination, code);
    let plain = pick(rules, chosen, false);
    let compound = pick(rules, chosen, true);
    if 0 <= j < n && rules[j].applies(destination, code) {
        law_most_specific_rule_wins(rules, n, destination, code, j);
        let at = layer_position(rules, chosen, rules[j].layer@);
        let best = chosen[at];
        lemma_pick_holds(rules, chosen, rules[best].compound, at);
        if rules[best].compound {
            let i = choose|i: int| 0 <= i < compound.len() && compound[i] == best;
            assert(used[plain.len() + i] == best);
        } else {
            let i = choose|i: int| 0 <= i < plain.len() && plain[i] == best;
            assert(used[i] == best);
        }
    }
    if 0 <= a < used.len() {
        lemma_used(rules, destination, code, a);
        if a < b < used.len() {
            lemma_used(rules, destination, code, b);
        }
    }
}

proof fn lemma_used(rules: Seq<TaxRule>, destination: Jurisdiction, code: TaxCode, a: int)
    requires
        0 <= a < effective(rules, destination, code).len(),
    ensures
        ({
            let used = effective(rules, destination, code);
            let chosen = winners(rules, rules.len() as int, destination, code);
            &&& 0 <= used[a] < rules.len()
            &&& rules[used[a]].applies(destination, code)
            &&& rules[used[a]].compound == (a >= pick(rules, chosen, false).len())
        }),
{
    let n = rules.len() as int;
    let chosen = winners(rules, n, destination, code);
    let plain = pick(rules, chosen, false);
    let used = effective(rules, destination, code);
    lemma_winners_in_table(rules, n, destination, code);
    if a < plain.len() {
        lemma_picked(rules, chosen, false, a);
        assert(used[a] == plain[a]);
    } else {
        lemma_picked(rules, chosen, true, a - plain.len());
        assert(used[a] == pick(rules, chosen, true)[a - plain.len()]);
    }
    let k = choose|k: int| 0 <= k < chosen.len() && chosen[k] == used[a];
    lemma_winner_applies(rules, n, destination, code, k);
}

/// A rule applies in its country, in its region there and at its postal code, as far as it
/// names them, whatever the case of their letters, and to its class of products where it
/// names one. A deeper place outweighs a named class, and at one place the class decides.
pub proof fn law_rules_apply_where_they_say(
    rule: TaxRule,
    other: TaxRule,
    destination: Jurisdiction,
    code: TaxCode,
)
    ensures
        rule.applies(destination, code) <==> {
            &&& rule.jurisdiction.country == destination.country
            &&& rule.jurisdiction.region matches Some(region) ==> destination.region is Some
                && same_ignoring_case(region@, destination.region->0@)
            &&& rule.jurisdiction.postal_code matches Some(postal)
                ==> destination.postal_code is Some && same_ignoring_case(
                postal@,
                destination.postal_code->0@,
            )
            &&& rule.tax_code matches Some(class) ==> class@ == code@
        },
        rule.jurisdiction == other.jurisdiction && rule.tax_code is Some && other.tax_code is None
            ==> rule.strength() > other.strength(),
        rule.jurisdiction.depth() > other.jurisdiction.depth() ==> rule.strength()
            > other.strength(),
{
}

/// A line in another currency than the request is refused; an exempt one is taxed by no
/// rule, and any other by the rules of its class at the destination.
pub proof fn law_lines_are_taxed_at_the_destination(
    rules: Seq<TaxRule>,
    rounding: Rounding,
    request: TaxRequest,
    line: TaxLineRequest,
)
    ensures
        line.taxable_base.currency != request.currency ==> taxed_line(
            rules,
            rounding,
            request,
            line,
        ) is Err,
        line.tax_code@ == "exempt"@ ==> used_rules(rules, request, line).len() == 0,
        line.tax_code@ != "exempt"@ ==> used_rules(rules, request, line) == effective(
            rules,
            request.destination,
            line.tax_code,
        ),
        taxed_line(rules, rounding, request, line) matches Ok(tax) ==> {
            let used = used_rules(rules, request, line);
            &&& request.mode is Exclusive ==> added(
                rules,
                used,
                used.len() as int,
                line.taxable_base,
                rounding,
                request.currency,
            ) == Ok::<(Money, Seq<Money>), ErrorView>((tax.tax, tax.amounts))
            &&& request.mode is Inclusive ==> extracted(
                price_makeup(rules, used),
                line.taxable_base,
                rounding,
            ) == Ok::<LineTax, ErrorView>(tax)
        },
{
}

/// A rule is the stronger of two by how deep its jurisdiction reaches; of two as deep, by
/// naming a region; and else by naming a tax code.
pub proof fn law_specific_rules_are_stronger(a: TaxRule, b: TaxRule)
    ensures
        a.strength() > b.strength() <==> {
            let deep = a.jurisdiction.depth() as int;
            let other = b.jurisdiction.depth() as int;
            let regions = (a.jurisdiction.region is Some) == (b.jurisdiction.region is Some);
            ||| deep > other
            ||| deep == other && a.jurisdiction.region is Some && b.jurisdiction.region is None
            ||| deep == other && regions && a.tax_code is Some && b.tax_code is None
        },
{
}

} // verus!
