//! Gateway routing.
//!
//! Real deployments run more than one processor: a primary, a fallback for when
//! it has an incident, a local acquirer for a particular currency, and a wallet
//! provider. The registry picks the right adapter for a payment from declarative
//! rules, so routing policy lives in configuration instead of in `if` statements
//! scattered through the checkout code.

use vstd::prelude::*;

use crate::address::CountryCode;
use crate::collections::{listed, OrderedMap};
use crate::error::{outcome, Error, ErrorView};
use crate::gateway::{Capabilities, GatewayId};
use crate::money::Currency;
use crate::text::join3;

verus! {

/// A routing condition. All specified fields must match.
#[derive(Debug, Clone, PartialEq, Eq)]
pub struct RoutingRule {
    /// Restrict to one currency.
    pub currency: Option<Currency>,
    /// Restrict to buyers in one country.
    pub country: Option<CountryCode>,
    /// Require a capability, e.g. `"connected_accounts"`.
    pub required_capability: Option<&'static str>,
    /// Lower numbers are tried first.
    pub priority: i32,
    /// Gateway to use when the rule matches.
    pub gateway: GatewayId,
}

impl RoutingRule {
    /// A rule that sends everything to one gateway.
    pub fn always(gateway: GatewayId) -> (rule: Self)
        ensures
            rule == (RoutingRule {
                currency: None,
                country: None,
                required_capability: None,
                priority: 0,
                gateway,
            }),
    {
        RoutingRule {
            currency: None,
            country: None,
            required_capability: None,
            priority: 0,
            gateway,
        }
    }

    /// Builder: restrict to a currency.
    pub fn for_currency(self, currency: Currency) -> (rule: Self)
        ensures
            rule == (RoutingRule { currency: Some(currency), ..self }),
    {
        RoutingRule { currency: Some(currency), ..self }
    }

    /// Builder: restrict to a buyer country.
    pub fn for_country(self, country: CountryCode) -> (rule: Self)
        ensures
            rule == (RoutingRule { country: Some(country), ..self }),
    {
        RoutingRule { country: Some(country), ..self }
    }

    /// Builder: require a capability.
    pub fn requiring(self, capability: &'static str) -> (rule: Self)
        ensures
            rule == (RoutingRule { required_capability: Some(capability), ..self }),
    {
        RoutingRule { required_capability: Some(capability), ..self }
    }

    /// Builder: set the priority.
    pub fn with_priority(self, priority: i32) -> (rule: Self)
        ensures
            rule == (RoutingRule { priority, ..self }),
    {
        RoutingRule { priority, ..self }
    }
}

/// What a payment needs from a gateway.
#[derive(Debug, Clone, PartialEq, Eq)]
pub struct RoutingContext {
    /// Currency of the charge.
    pub currency: Option<Currency>,
    /// Buyer's country.
    pub country: Option<CountryCode>,
    /// Capabilities the payment requires.
    pub required_capabilities: Vec<&'static str>,
    /// Force a specific gateway, bypassing the rules.
    pub preferred: Option<GatewayId>,
}

impl Default for RoutingContext {
    fn default() -> (context: Self)
        ensures
            context.currency is None,
            context.country is None,
            context.required_capabilities@.len() == 0,
            context.preferred is None,
    {
        RoutingContext {
            currency: None,
            country: None,
            required_capabilities: Vec::new(),
            preferred: None,
        }
    }
}

impl RoutingContext {
    /// Route a charge in `currency`.
    pub fn for_currency(currency: Currency) -> (context: Self)
        ensures
            context.currency == Some(currency),
            context.country is None,
            context.required_capabilities@.len() == 0,
            context.preferred is None,
    {
        RoutingContext {
            currency: Some(currency),
            country: None,
            required_capabilities: Vec::new(),
            preferred: None,
        }
    }

    /// Builder: require a capability.
    pub fn requiring(self, capability: &'static str) -> (context: Self)
        ensures
            context == (RoutingContext {
                required_capabilities: context.required_capabilities,
                ..self
            }),
            context.required_capabilities@ == self.required_capabilities@.push(capability),
    {
        let mut required_capabilities = self.required_capabilities;
        required_capabilities.push(capability);
        RoutingContext { required_capabilities, ..self }
    }

    /// Builder: pin the gateway.
    pub fn preferring(self, gateway: GatewayId) -> (context: Self)
        ensures
            context == (RoutingContext { preferred: Some(gateway), ..self }),
    {
        RoutingContext { preferred: Some(gateway), ..self }
    }
}

/// A registered adapter: its identifier and what it can do.
#[derive(Debug, Clone)]
pub struct GatewayRecord {
    /// Stable identifier of the adapter.
    pub id: GatewayId,
    /// What the adapter supports.
    pub capabilities: Capabilities,
}

/// Whether the first `n` required capabilities are available, and otherwise which is the
/// first that is not.
pub open spec fn capable(record: GatewayRecord, required: Seq<&'static str>, n: int) -> Result<
    (),
    ErrorView,
>
    decreases n,
{
    if n <= 0 {
        Ok(())
    } else {
        match capable(record, required, n - 1) {
            Err(error) => Err(error),
            Ok(_) => record.capabilities.required(record.id@, required[n - 1]@),
        }
    }
}

/// A capability that is missing among the first of a list is missing in all of it.
pub proof fn lemma_incapable(record: GatewayRecord, required: Seq<&'static str>, n: int, m: int)
    requires
        0 <= n <= m,
        capable(record, required, n) is Err,
    ensures
        capable(record, required, m) == capable(record, required, n),
    decreases m - n,
{
    if n < m {
        lemma_incapable(record, required, n, m - 1);
    }
}

/// Whether an adapter can handle a payment.
pub open spec fn suits(record: GatewayRecord, context: RoutingContext) -> Result<(), ErrorView> {
    if context.currency is Some && !record.capabilities.accepts(context.currency->0) {
        Err(
            ErrorView::Configuration(
                "gateway '"@ + record.id@ + "' does not support "@
                    + context.currency->0.letters(),
            ),
        )
    } else {
        capable(
            record,
            context.required_capabilities@,
            context.required_capabilities@.len() as int,
        )
    }
}

/// What looking an adapter up gives.
pub open spec fn lookup(records: Map<Seq<char>, GatewayRecord>, id: Seq<char>) -> Result<
    GatewayRecord,
    ErrorView,
> {
    if records.contains_key(id) {
        Ok(records[id])
    } else {
        Err(ErrorView::Configuration("no gateway registered as '"@ + id + "'"@))
    }
}

/// What sending a payment to one adapter gives.
pub open spec fn pinned(
    records: Map<Seq<char>, GatewayRecord>,
    id: Seq<char>,
    context: RoutingContext,
) -> Result<GatewayRecord, ErrorView> {
    match lookup(records, id) {
        Err(error) => Err(error),
        Ok(record) => match suits(record, context) {
            Err(error) => Err(error),
            Ok(_) => Ok(record),
        },
    }
}

/// Whether a rule sends a payment to its gateway.
pub open spec fn applies(
    records: Map<Seq<char>, GatewayRecord>,
    rule: RoutingRule,
    context: RoutingContext,
) -> bool {
    &&& rule.currency is Some ==> context.currency == rule.currency
    &&& rule.country is Some ==> context.country == rule.country
    &&& records.contains_key(rule.gateway@)
    &&& rule.required_capability is Some ==> records[rule.gateway@].capabilities.required(
        rule.gateway@,
        rule.required_capability->0@,
    ) is Ok
    &&& suits(records[rule.gateway@], context) is Ok
}

/// The position of the first rule that applies, or the length when none does.
pub open spec fn first_rule(
    records: Map<Seq<char>, GatewayRecord>,
    rules: Seq<RoutingRule>,
    context: RoutingContext,
) -> int
    decreases rules.len(),
{
    if rules.len() == 0 || applies(records, rules[0], context) {
        0
    } else {
        1 + first_rule(records, rules.drop_first(), context)
    }
}

proof fn lemma_first_rule(
    records: Map<Seq<char>, GatewayRecord>,
    rules: Seq<RoutingRule>,
    context: RoutingContext,
    at: int,
)
    requires
        0 <= at <= rules.len(),
        at < rules.len() ==> applies(records, rules[at], context),
        forall|i: int| 0 <= i < at ==> !applies(records, #[trigger] rules[i], context),
    ensures
        first_rule(records, rules, context) == at,
    decreases rules.len(),
{
    if at > 0 {
        assert(!applies(records, rules[0], context));
        let rest = rules.drop_first();
        assert forall|i: int| 0 <= i < at - 1 implies !applies(
            records,
            #[trigger] rest[i],
            context,
        ) by {
            assert(rest[i] == rules[i + 1]);
        }
        lemma_first_rule(records, rest, context, at - 1);
    }
}

/// What routing a payment gives: the preferred gateway, else that of the first rule that
/// applies, else the default.
pub open spec fn routing(
    records: Map<Seq<char>, GatewayRecord>,
    rules: Seq<RoutingRule>,
    default_gateway: Option<GatewayId>,
    context: RoutingContext,
) -> Result<GatewayRecord, ErrorView> {
    match context.preferred {
        Some(preferred) => pinned(records, preferred@, context),
        None => {
            let at = first_rule(records, rules, context);
            if at < rules.len() {
                Ok(records[rules[at].gateway@])
            } else {
                match default_gateway {
                    Some(id) => pinned(records, id@, context),
                    None => Err(ErrorView::Configuration("no gateway is configured"@)),
                }
            }
        },
    }
}

/// The position after all rules whose priority is no greater.
pub open spec fn rule_spot(rules: Seq<RoutingRule>, priority: i32) -> int
    decreases rules.len(),
{
    if rules.len() == 0 || rules[0].priority > priority {
        0
    } else {
        1 + rule_spot(rules.drop_first(), priority)
    }
}

proof fn lemma_rule_spot(rules: Seq<RoutingRule>, priority: i32, at: int)
    requires
        0 <= at <= rules.len(),
        at < rules.len() ==> rules[at].priority > priority,
        forall|i: int| 0 <= i < at ==> (#[trigger] rules[i]).priority <= priority,
    ensures
        rule_spot(rules, priority) == at,
    decreases rules.len(),
{
    if at > 0 {
        assert(rules[0].priority <= priority);
        let rest = rules.drop_first();
        assert forall|i: int| 0 <= i < at - 1 implies (#[trigger] rest[i]).priority
            <= priority by {
            assert(rest[i] == rules[i + 1]);
        }
        lemma_rule_spot(rest, priority, at - 1);
    }
}

/// Whether rules are listed by priority.
pub open spec fn by_priority(rules: Seq<RoutingRule>) -> bool {
    forall|i: int, j: int|
        0 <= i < j < rules.len() ==> (#[trigger] rules[i]).priority <= (
        #[trigger] rules[j]).priority
}

/// Adding a rule keeps the rules listed by priority, each after the earlier ones of its
/// own priority.
pub proof fn law_rules_stay_by_priority(rules: Seq<RoutingRule>, rule: RoutingRule)
    requires
        by_priority(rules),
    ensures
        0 <= rule_spot(rules, rule.priority) <= rules.len(),
        by_priority(rules.insert(rule_spot(rules, rule.priority), rule)),
        forall|i: int|
            0 <= i < rules.len() ==> ((#[trigger] rules[i]).priority <= rule.priority <==> i
                < rule_spot(rules, rule.priority)),
{
    lemma_rule_spot_bounds(rules, rule.priority);
    let at = rule_spot(rules, rule.priority);
    let after = rules.insert(at, rule);
    assert forall|i: int| 0 <= i < rules.len() implies ((#[trigger] rules[i]).priority
        <= rule.priority <==> i < at) by {
        if i >= at {
            assert(rules[at].priority > rule.priority);
        }
    }
    assert forall|i: int, j: int| 0 <= i < j < after.len() implies (#[trigger] after[i]).priority
        <= (#[trigger] after[j]).priority by {
        if j < at {
        } else if i < at {
            if j > at {
                assert(after[j] == rules[j - 1]);
            }
        } else if i == at {
            assert(after[j] == rules[j - 1]);
            assert(rules[at].priority <= rules[j - 1].priority);
        } else {
            assert(after[i] == rules[i - 1]);
            assert(after[j] == rules[j - 1]);
        }
    }
}

proof fn lemma_rule_spot_bounds(rules: Seq<RoutingRule>, priority: i32)
    ensures
        0 <= rule_spot(rules, priority) <= rules.len(),
        rule_spot(rules, priority) < rules.len() ==> rules[rule_spot(rules, priority)].priority
            > priority,
        forall|i: int|
            0 <= i < rule_spot(rules, priority) ==> (#[trigger] rules[i]).priority <= priority,
    decreases rules.len(),
{
    if rules.len() > 0 && rules[0].priority <= priority {
        let rest = rules.drop_first();
        lemma_rule_spot_bounds(rest, priority);
        assert forall|i: int| 0 <= i < rule_spot(rules, priority) implies (
        #[trigger] rules[i]).priority <= priority by {
            if i > 0 {
                assert(rest[i - 1] == rules[i]);
            }
        }
    }
}

/// Holds the registered adapters and decides which one handles a payment.
#[derive(Clone)]
pub struct GatewayRegistry {
    gateways: OrderedMap<GatewayRecord>,
    rules: Vec<RoutingRule>,
    default_gateway: Option<GatewayId>,
}

impl Default for GatewayRegistry {
    fn default() -> (registry: Self)
        ensures
            registry.records() == Map::<Seq<char>, GatewayRecord>::empty(),
            registry.rule_list() == Seq::<RoutingRule>::empty(),
            registry.fallback() is None,
    {
        Self::new()
    }
}

impl GatewayRegistry {
    /// The registered adapters.
    pub closed spec fn records(self) -> Map<Seq<char>, GatewayRecord> {
        self.gateways@
    }

    /// The routing rules, in the order they are tried.
    pub closed spec fn rule_list(self) -> Seq<RoutingRule> {
        self.rules@
    }

    /// The fallback gateway.
    pub closed spec fn fallback(self) -> Option<GatewayId> {
        self.default_gateway
    }

    /// An empty registry.
    pub fn new() -> (registry: Self)
        ensures
            registry.records() == Map::<Seq<char>, GatewayRecord>::empty(),
            registry.rule_list() == Seq::<RoutingRule>::empty(),
            registry.fallback() is None,
    {
        GatewayRegistry { gateways: OrderedMap::new(), rules: Vec::new(), default_gateway: None }
    }

    /// Register an adapter. The first one registered becomes the default.
    pub fn register(self, gateway: GatewayRecord) -> (registry: Self)
        ensures
            registry.records() == self.records().insert(gateway.id@, gateway),
            registry.rule_list() == self.rule_list(),
            registry.fallback() == match self.fallback() {
                Some(id) => Some(id),
                None => Some(gateway.id),
            },
    {
        let default_gateway = match self.default_gateway {
            Some(id) => Some(id),
            None => Some(gateway.id.clone()),
        };
        let mut gateways = self.gateways;
        gateways.insert(gateway.id.to_text(), gateway);
        GatewayRegistry { gateways, rules: self.rules, default_gateway }
    }

    /// Add a routing rule.
    pub fn with_rule(self, rule: RoutingRule) -> (registry: Self)
        ensures
            registry.records() == self.records(),
            registry.rule_list() == self.rule_list().insert(
                rule_spot(self.rule_list(), rule.priority),
                rule,
            ),
            registry.fallback() == self.fallback(),
    {
        let mut rules = self.rules;
        let mut at: usize = 0;
        while at < rules.len() && rules[at].priority <= rule.priority
            invariant
                at <= rules@.len(),
                forall|i: int| 0 <= i < at ==> (#[trigger] rules@[i]).priority <= rule.priority,
            ensures
                at < rules@.len() ==> rules@[at as int].priority > rule.priority,
            decreases rules@.len() - at,
        {
            at += 1;
        }
        proof {
            lemma_rule_spot(rules@, rule.priority, at as int);
        }
        rules.insert(at, rule);
        GatewayRegistry {
            gateways: self.gateways,
            rules,
            default_gateway: self.default_gateway,
        }
    }

    /// Set the fallback gateway explicitly.
    pub fn with_default(self, gateway: GatewayId) -> (registry: Self)
        ensures
            registry.records() == self.records(),
            registry.rule_list() == self.rule_list(),
            registry.fallback() == Some(gateway),
    {
        GatewayRegistry {
            gateways: self.gateways,
            rules: self.rules,
            default_gateway: Some(gateway),
        }
    }

    /// Look an adapter up by id.
    pub fn get(&self, id: &GatewayId) -> (record: Result<&GatewayRecord, Error>)
        ensures
            match record {
                Ok(found) => lookup(self.records(), id@) == Ok::<GatewayRecord, ErrorView>(*found),
                Err(error) => lookup(self.records(), id@) == Err::<GatewayRecord, ErrorView>(
                    error@,
                ),
            },
    {
        match self.gateways.get(id.as_str()) {
            Some(record) => Ok(record),
            None => Err(
                Error::configuration(
                    join3("no gateway registered as '", id.as_str(), "'").as_str(),
                ),
            ),
        }
    }

    /// Every registered adapter, in the order of the identifiers.
    pub fn all(&self) -> (list: Vec<&GatewayRecord>)
        ensures
            list@.len() == listed(self.records()).len(),
            forall|i: int|
                0 <= i < list@.len() ==> *(#[trigger] list@[i]) == self.records()[listed(
                    self.records(),
                )[i]],
    {
        let count = self.gateways.len();
        let mut list: Vec<&GatewayRecord> = Vec::new();
        let mut n: usize = 0;
        while n < count
            invariant
                n <= count,
                count == self.gateways.keys().len(),
                self.gateways.keys() == listed(self.records()),
                list@.len() == n,
                forall|i: int|
                    0 <= i < n ==> *(#[trigger] list@[i]) == self.records()[listed(
                        self.records(),
                    )[i]],
            decreases count - n,
        {
            list.push(self.gateways.value_at(n));
            n += 1;
        }
        list
    }

    /// Choose the adapter for a payment.
    pub fn route(&self, context: &RoutingContext) -> (chosen: Result<&GatewayRecord, Error>)
        ensures
            match chosen {
                Ok(record) => routing(
                    self.records(),
                    self.rule_list(),
                    self.fallback(),
                    *context,
                ) == Ok::<GatewayRecord, ErrorView>(*record),
                Err(error) => routing(
                    self.records(),
                    self.rule_list(),
                    self.fallback(),
                    *context,
                ) == Err::<GatewayRecord, ErrorView>(error@),
            },
    {
        if let Some(preferred) = &context.preferred {
            return self.pin(preferred, context);
        }
        let mut at: usize = 0;
        while at < self.rules.len() && !self.rule_applies(at, context)
            invariant
                at <= self.rules@.len(),
                forall|i: int|
                    0 <= i < at ==> !applies(self.records(), #[trigger] self.rules@[i], *context),
            ensures
                at < self.rules@.len() ==> applies(
                    self.records(),
                    self.rules@[at as int],
                    *context,
                ),
            decreases self.rules@.len() - at,
        {
            at += 1;
        }
        proof {
            lemma_first_rule(self.records(), self.rules@, *context, at as int);
        }
        if at < self.rules.len() {
            return self.get(&self.rules[at].gateway);
        }
        match &self.default_gateway {
            Some(id) => self.pin(id, context),
            None => Err(Error::configuration("no gateway is configured")),
        }
    }

    fn pin(&self, id: &GatewayId, context: &RoutingContext) -> (chosen: Result<
        &GatewayRecord,
        Error,
    >)
        ensures
            match chosen {
                Ok(record) => pinned(self.records(), id@, *context) == Ok::<
                    GatewayRecord,
                    ErrorView,
                >(*record),
                Err(error) => pinned(self.records(), id@, *context) == Err::<
                    GatewayRecord,
                    ErrorView,
                >(error@),
            },
    {
        let record = match self.get(id) {
            Ok(record) => record,
            Err(error) => return Err(error),
        };
        match check(record, context) {
            Ok(_) => Ok(record),
            Err(error) => Err(error),
        }
    }

    fn rule_applies(&self, at: usize, context: &RoutingContext) -> (applied: bool)
        requires
            at < self.rules@.len(),
        ensures
            applied == applies(self.records(), self.rules@[at as int], *context),
    {
        let rule = &self.rules[at];
        if let Some(currency) = rule.currency {
            match context.currency {
                Some(actual) => if actual != currency {
                    return false;
                },
                None => return false,
            }
        }
        if let Some(country) = rule.country {
            match context.country {
                Some(actual) => if actual != country {
                    return false;
                },
                None => return false,
            }
        }
        let record = match self.gateways.get(rule.gateway.as_str()) {
            Some(record) => record,
            None => return false,
        };
        if let Some(capability) = rule.required_capability {
            if record.capabilities.require(&rule.gateway, capability).is_err() {
                return false;
            }
        }
        check(record, context).is_ok()
    }
}

fn check(record: &GatewayRecord, context: &RoutingContext) -> (suited: Result<(), Error>)
    ensures
        outcome(suited) == suits(*record, *context),
{
    if let Some(currency) = context.currency {
        if !record.capabilities.supports_currency(currency) {
            let mut message = join3(
                "gateway '",
                record.id.as_str(),
                "' does not support ",
            );
            message.append(currency.code().as_str());
            return Err(Error::configuration(message.as_str()));
        }
    }
    let ghost required = context.required_capabilities@;
    let mut n: usize = 0;
    while n < context.required_capabilities.len()
        invariant
            required == context.required_capabilities@,
            context.currency is None || record.capabilities.accepts(context.currency->0),
            n <= required.len(),
            capable(*record, required, n as int) is Ok,
        decreases required.len() - n,
    {
        match record.capabilities.require(&record.id, context.required_capabilities[n]) {
            Ok(_) => {},
            Err(error) => {
                proof {
                    lemma_incapable(*record, required, n + 1, required.len() as int);
                }
                return Err(error);
            },
        }
        n += 1;
    }
    Ok(())
}

/// Whatever gateway is chosen can handle the payment.
pub proof fn law_chosen_gateways_suit(
    records: Map<Seq<char>, GatewayRecord>,
    rules: Seq<RoutingRule>,
    default_gateway: Option<GatewayId>,
    context: RoutingContext,
)
    ensures
        routing(records, rules, default_gateway, context) matches Ok(record) ==> suits(
            record,
            context,
        ) is Ok,
{
    lemma_first_rule_applies(records, rules, context);
}

proof fn lemma_first_rule_applies(
    records: Map<Seq<char>, GatewayRecord>,
    rules: Seq<RoutingRule>,
    context: RoutingContext,
)
    ensures
        0 <= first_rule(records, rules, context) <= rules.len(),
        first_rule(records, rules, context) < rules.len() ==> applies(
            records,
            rules[first_rule(records, rules, context)],
            context,
        ),
    decreases rules.len(),
{
    if rules.len() > 0 && !applies(records, rules[0], context) {
        lemma_first_rule_applies(records, rules.drop_first(), context);
    }
}

proof fn lemma_capable_of_all(record: GatewayRecord, required: Seq<&'static str>, n: int)
    requires
        0 <= n <= required.len(),
    ensures
        capable(record, required, n) is Ok <==> forall|i: int|
            0 <= i < n ==> record.capabilities.offers((#[trigger] required[i])@) == Some(true),
    decreases n,
{
    if n > 0 {
        lemma_capable_of_all(record, required, n - 1);
        if capable(record, required, n) is Ok {
            assert forall|i: int| 0 <= i < n implies record.capabilities.offers(
                (#[trigger] required[i])@,
            ) == Some(true) by {
                if i < n - 1 {
                    assert(capable(record, required, n - 1) is Ok);
                }
            }
        } else if capable(record, required, n - 1) is Ok {
            assert(record.capabilities.offers(required[n - 1]@) != Some(true));
        }
    }
}

/// A gateway suits a payment exactly when it takes the currency and has every capability
/// that the payment needs.
pub proof fn law_gateways_suit_by_currency_and_capability(
    record: GatewayRecord,
    context: RoutingContext,
)
    ensures
        suits(record, context) is Ok <==> {
            &&& context.currency is Some ==> record.capabilities.accepts(context.currency->Some_0)
            &&& forall|i: int|
                0 <= i < context.required_capabilities@.len() ==> record.capabilities.offers(
                    (#[trigger] context.required_capabilities@[i])@,
                ) == Some(true)
        },
{
    lemma_capable_of_all(
        record,
        context.required_capabilities@,
        context.required_capabilities@.len() as int,
    );
}

/// A payment goes to the gateway that was asked for; else to that of the first rule that
/// applies; else to the default. It goes nowhere where that gateway is missing or does not
/// suit it.
pub proof fn law_payments_are_routed_by_preference(
    records: Map<Seq<char>, GatewayRecord>,
    rules: Seq<RoutingRule>,
    default_gateway: Option<GatewayId>,
    context: RoutingContext,
    at: int,
)
    requires
        0 <= at <= rules.len(),
        at < rules.len() ==> applies(records, rules[at], context),
        forall|i: int| 0 <= i < at ==> !applies(records, #[trigger] rules[i], context),
    ensures
        ({
            let chosen = routing(records, rules, default_gateway, context);
            &&& context.preferred matches Some(id) ==> {
                &&& chosen is Ok <==> records.contains_key(id@) && suits(
                    records[id@],
                    context,
                ) is Ok
                &&& chosen is Ok ==> chosen->Ok_0 == records[id@]
            }
            &&& context.preferred is None && at < rules.len() ==> chosen == Ok::<
                GatewayRecord,
                ErrorView,
            >(records[rules[at].gateway@])
            &&& context.preferred is None && at == rules.len() ==> {
                &&& chosen is Ok <==> default_gateway is Some && records.contains_key(
                    default_gateway->Some_0@,
                ) && suits(records[default_gateway->Some_0@], context) is Ok
                &&& chosen is Ok ==> chosen->Ok_0 == records[default_gateway->Some_0@]
            }
        }),
{
    lemma_first_rule(records, rules, context, at);
}

/// A rule applies exactly to payments in its currency and country, where it names them, and
/// where its gateway is there, has what the rule asks for and suits the payment.
pub proof fn law_rules_apply_to_what_they_name(
    records: Map<Seq<char>, GatewayRecord>,
    rule: RoutingRule,
    context: RoutingContext,
)
    ensures
        applies(records, rule, context) <==> {
            &&& rule.currency is None || context.currency == rule.currency
            &&& rule.country is None || context.country == rule.country
            &&& records.contains_key(rule.gateway@)
            &&& rule.required_capability is None || records[rule.gateway@].capabilities.offers(
                rule.required_capability->Some_0@,
            ) == Some(true)
            &&& suits(records[rule.gateway@], context) is Ok
        },
{
}

} // verus!
