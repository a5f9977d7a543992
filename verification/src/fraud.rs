//! Gateway-agnostic fraud screening.
//!
//! Processors have their own risk engines, and you should use them. This module
//! covers the part they cannot see: your own order history, your own cart
//! composition, and the policies your business wants applied *before* a card is
//! charged. It runs as a pre-authorisation gate and returns a decision plus the
//! signals that produced it, so a review queue can show a human why.

use vstd::prelude::*;

use crate::address::CountryCode;
use crate::error::Error;
use crate::ids::{CustomerId, ShopId};
use crate::money::Money;
use crate::pricing::Quote;
use crate::sums::{lemma_sum_concat, sum};
use crate::text::{digits, join, join3, push_digits, unsigned_to_text};

verus! {

/// What to do with a payment.
#[derive(Debug, Clone, Copy, PartialEq, Eq, PartialOrd, Ord, Structural)]
pub enum RiskDecision {
    /// Proceed.
    Allow,
    /// Proceed, but flag for manual review after authorisation.
    Review,
    /// Do not charge.
    Block,
}

impl RiskDecision {
    /// The name of the decision.
    pub open spec fn name(self) -> Seq<char> {
        match self {
            RiskDecision::Allow => "Allow"@,
            RiskDecision::Review => "Review"@,
            RiskDecision::Block => "Block"@,
        }
    }

    /// The name of the decision.
    pub fn as_str(self) -> (name: &'static str)
        ensures
            name@ == self.name(),
    {
        match self {
            RiskDecision::Allow => "Allow",
            RiskDecision::Review => "Review",
            RiskDecision::Block => "Block",
        }
    }
}

/// One reason contributing to a risk score.
#[derive(Debug, PartialEq)]
pub struct RiskSignal {
    /// Machine-readable rule name.
    pub code: String,
    /// Human explanation for the review queue.
    pub description: String,
    /// Points added to the score.
    pub weight: u16,
}

/// One reason contributing to a risk score, its texts as characters.
pub ghost struct SignalView {
    /// Machine-readable rule name.
    pub code: Seq<char>,
    /// Human explanation for the review queue.
    pub description: Seq<char>,
    /// Points added to the score.
    pub weight: u16,
}

impl View for RiskSignal {
    type V = SignalView;

    open spec fn view(&self) -> SignalView {
        SignalView { code: self.code@, description: self.description@, weight: self.weight }
    }
}

impl Clone for RiskSignal {
    fn clone(&self) -> (signal: Self)
        ensures
            signal == *self,
    {
        RiskSignal {
            code: self.code.clone(),
            description: self.description.clone(),
            weight: self.weight,
        }
    }
}

/// The views of a list of signals.
pub open spec fn signal_views(signals: Seq<RiskSignal>) -> Seq<SignalView> {
    signals.map_values(|signal: RiskSignal| signal@)
}

/// The result of screening.
#[derive(Debug, Clone, PartialEq)]
pub struct RiskAssessment {
    /// Total score, 0-100 by convention.
    pub score: u16,
    /// The decision.
    pub decision: RiskDecision,
    /// Signals that fired.
    pub signals: Vec<RiskSignal>,
}

/// The result of screening, its signals as a sequence.
pub ghost struct AssessmentView {
    /// Total score.
    pub score: u16,
    /// The decision.
    pub decision: RiskDecision,
    /// Signals that fired.
    pub signals: Seq<SignalView>,
}

impl View for RiskAssessment {
    type V = AssessmentView;

    open spec fn view(&self) -> AssessmentView {
        AssessmentView {
            score: self.score,
            decision: self.decision,
            signals: signal_views(self.signals@),
        }
    }
}

/// The codes of a list of signals, with commas between them.
pub open spec fn codes_joined(signals: Seq<SignalView>) -> Seq<char>
    decreases signals.len(),
{
    if signals.len() == 0 {
        Seq::empty()
    } else if signals.len() == 1 {
        signals[0].code
    } else {
        codes_joined(signals.drop_last()) + ", "@ + signals.last().code
    }
}

/// A clean assessment with no signals.
pub open spec fn clean() -> AssessmentView {
    AssessmentView { score: 0, decision: RiskDecision::Allow, signals: Seq::empty() }
}

impl RiskAssessment {
    /// A clean assessment with no signals.
    pub fn allow() -> (assessment: Self)
        ensures
            assessment@ == clean(),
    {
        let assessment = RiskAssessment {
            score: 0,
            decision: RiskDecision::Allow,
            signals: Vec::new(),
        };
        assert(assessment@.signals =~= Seq::<SignalView>::empty());
        assessment
    }

    /// Whether the payment may proceed.
    pub fn is_allowed(&self) -> (allowed: bool)
        ensures
            allowed == (self.decision != RiskDecision::Block),
    {
        self.decision != RiskDecision::Block
    }

    /// A one-line summary for logs.
    pub fn summary(&self) -> (line: String)
        ensures
            line@ == self.decision.name() + " (score "@ + digits(self.score as nat) + "): "@
                + codes_joined(self@.signals),
    {
        let mut line = join(self.decision.as_str(), " (score ");
        push_digits(&mut line, self.score as u64);
        line.append("): ");
        let ghost start = line@;
        let ghost all = self@.signals;
        let mut codes = String::new();
        let mut n: usize = 0;
        assert(all.take(0) =~= Seq::<SignalView>::empty());
        while n < self.signals.len()
            invariant
                all == self@.signals,
                n <= self.signals@.len(),
                codes@ == codes_joined(all.take(n as int)),
            decreases self.signals@.len() - n,
        {
            assert(all.take(n + 1).drop_last() =~= all.take(n as int));
            assert(all[n as int] == self.signals@[n as int]@);
            if n > 0 {
                codes.append(", ");
            }
            codes.append(self.signals[n].code.as_str());
            assert(n == 0 ==> codes@ =~= all[0].code);
            n += 1;
        }
        assert(all.take(n as int) =~= all);
        line.append(codes.as_str());
        line
    }
}

/// Everything the engine is allowed to look at.
#[derive(Clone)]
pub struct RiskContext<'a> {
    /// The priced cart.
    pub quote: Option<&'a Quote>,
    /// The shopper, if known.
    pub customer_id: Option<CustomerId>,
    /// Country the card was issued in.
    pub card_country: Option<CountryCode>,
    /// Country the goods ship to.
    pub shipping_country: Option<CountryCode>,
    /// Country on the billing address.
    pub billing_country: Option<CountryCode>,
    /// Successful orders this customer has completed before.
    pub prior_successful_orders: u32,
    /// Payment attempts from this customer in the last hour.
    pub attempts_last_hour: u32,
    /// Distinct instruments this customer tried in the last hour.
    pub distinct_instruments_last_hour: u32,
    /// Whether the shopper's email has been verified.
    pub email_verified: bool,
    /// Client IP country, when your edge provides it.
    pub ip_country: Option<CountryCode>,
}

impl<'a> Default for RiskContext<'a> {
    fn default() -> (context: Self)
        ensures
            context == (RiskContext {
                quote: None,
                customer_id: None,
                card_country: None,
                shipping_country: None,
                billing_country: None,
                prior_successful_orders: 0,
                attempts_last_hour: 0,
                distinct_instruments_last_hour: 0,
                email_verified: false,
                ip_country: None,
            }),
    {
        RiskContext {
            quote: None,
            customer_id: None,
            card_country: None,
            shipping_country: None,
            billing_country: None,
            prior_successful_orders: 0,
            attempts_last_hour: 0,
            distinct_instruments_last_hour: 0,
            email_verified: false,
            ip_country: None,
        }
    }
}

/// Pluggable screening engine.
pub trait FraudEngine {
    /// Screen a payment.
    fn assess(&self, context: &RiskContext<'_>) -> Result<RiskAssessment, Error>;
}

/// Thresholds for [`RuleBasedFraudEngine`].
#[derive(Debug, Clone)]
pub struct FraudPolicy {
    /// Orders above this amount attract a signal.
    pub high_value_threshold: Option<Money>,
    /// Score at or above which the payment is queued for review.
    pub review_score: u16,
    /// Score at or above which the payment is blocked.
    pub block_score: u16,
    /// Attempts per hour above which velocity fires.
    pub max_attempts_per_hour: u32,
    /// Distinct instruments per hour above which card testing fires.
    pub max_instruments_per_hour: u32,
    /// Shops in one cart above which the order looks like a resale run.
    pub max_shops_per_order: usize,
    /// Shops that are never screened, e.g. your own first-party store.
    pub trusted_shops: Vec<ShopId>,
}

impl Default for FraudPolicy {
    fn default() -> (policy: Self)
        ensures
            policy.high_value_threshold is None,
            policy.review_score == 40,
            policy.block_score == 75,
            policy.max_attempts_per_hour == 5,
            policy.max_instruments_per_hour == 3,
            policy.max_shops_per_order == 6,
            policy.trusted_shops@.len() == 0,
    {
        FraudPolicy {
            high_value_threshold: None,
            review_score: 40,
            block_score: 75,
            max_attempts_per_hour: 5,
            max_instruments_per_hour: 3,
            max_shops_per_order: 6,
            trusted_shops: Vec::new(),
        }
    }
}

impl FraudPolicy {
    /// Whether a shop is never screened.
    pub open spec fn trusts(self, shop: Seq<char>) -> bool {
        exists|i: int|
            0 <= i < self.trusted_shops@.len() && (#[trigger] self.trusted_shops@[i])@ == shop
    }

    /// Whether every shop of a priced cart is never screened.
    pub open spec fn trusts_all(self, quote: Option<&Quote>) -> bool {
        match quote {
            Some(quote) => quote.shop_totals@.len() > 0 && forall|i: int|
                0 <= i < quote.shop_totals@.len() ==> self.trusts(
                    (#[trigger] quote.shop_totals@[i]).shop_id@,
                ),
            None => false,
        }
    }

    fn is_trusted(&self, shop: &ShopId) -> (trusted: bool)
        ensures
            trusted == self.trusts(shop@),
    {
        let mut i: usize = 0;
        while i < self.trusted_shops.len()
            invariant
                i <= self.trusted_shops@.len(),
                forall|j: int| 0 <= j < i ==> (#[trigger] self.trusted_shops@[j])@ != shop@,
            decreases self.trusted_shops@.len() - i,
        {
            if self.trusted_shops[i].same(shop) {
                return true;
            }
            i += 1;
        }
        false
    }

    fn all_trusted(&self, quote: Option<&Quote>) -> (trusted: bool)
        ensures
            trusted == self.trusts_all(quote),
    {
        match quote {
            Some(priced) => {
                let mut i: usize = 0;
                while i < priced.shop_totals.len()
                    invariant
                        quote == Some(priced),
                        i <= priced.shop_totals@.len(),
                        forall|j: int|
                            0 <= j < i ==> self.trusts((#[trigger] priced.shop_totals@[j]).shop_id@),
                    decreases priced.shop_totals@.len() - i,
                {
                    if !self.is_trusted(&priced.shop_totals[i].shop_id) {
                        return false;
                    }
                    i += 1;
                }
                priced.shop_totals.len() > 0
            },
            None => false,
        }
    }

    /// The signal of an order of high value, if it is one.
    pub open spec fn high_value(self, context: RiskContext<'_>) -> Seq<SignalView> {
        match (self.high_value_threshold, context.quote) {
            (Some(threshold), Some(quote)) => if quote.totals.total.more_than(threshold) {
                seq![
                    SignalView {
                        code: "high_value"@,
                        description: "order total "@ + quote.totals.total.text() + " exceeds the "@
                            + threshold.text() + " review threshold"@,
                        weight: 25,
                    },
                ]
            } else {
                Seq::empty()
            },
            _ => Seq::empty(),
        }
    }

    /// The signal of too many attempts, if there are too many.
    pub open spec fn velocity(self, context: RiskContext<'_>) -> Seq<SignalView> {
        if context.attempts_last_hour > self.max_attempts_per_hour {
            seq![
                SignalView {
                    code: "velocity"@,
                    description: digits(context.attempts_last_hour as nat)
                        + " payment attempts in the last hour"@,
                    weight: 30,
                },
            ]
        } else {
            Seq::empty()
        }
    }

    /// The signal of too many instruments, if there are too many.
    pub open spec fn card_testing(self, context: RiskContext<'_>) -> Seq<SignalView> {
        if context.distinct_instruments_last_hour > self.max_instruments_per_hour {
            seq![
                SignalView {
                    code: "card_testing"@,
                    description: digits(context.distinct_instruments_last_hour as nat)
                        + " different instruments tried in the last hour"@,
                    weight: 45,
                },
            ]
        } else {
            Seq::empty()
        }
    }

    /// The signal of a card from another country than the goods go to, if it is one.
    pub open spec fn country_mismatch(context: RiskContext<'_>) -> Seq<SignalView> {
        match (context.card_country, context.shipping_country) {
            (Some(card), Some(shipping)) => if card != shipping {
                seq![
                    SignalView {
                        code: "country_mismatch"@,
                        description: "card issued in "@ + card.letters() + " but shipping to "@
                            + shipping.letters(),
                        weight: 20,
                    },
                ]
            } else {
                Seq::empty()
            },
            _ => Seq::empty(),
        }
    }

    /// The signal of a client in another country than is billed, if it is one.
    pub open spec fn ip_mismatch(context: RiskContext<'_>) -> Seq<SignalView> {
        match (context.billing_country, context.ip_country) {
            (Some(billing), Some(ip)) => if billing != ip {
                seq![
                    SignalView {
                        code: "ip_mismatch"@,
                        description: "billing country "@ + billing.letters()
                            + " does not match IP country "@ + ip.letters(),
                        weight: 15,
                    },
                ]
            } else {
                Seq::empty()
            },
            _ => Seq::empty(),
        }
    }

    /// The signal of an unknown shopper, if it is one.
    pub open spec fn new_customer(context: RiskContext<'_>) -> Seq<SignalView> {
        if context.prior_successful_orders == 0 && !context.email_verified {
            seq![
                SignalView {
                    code: "new_unverified_customer"@,
                    description: "first order from an unverified email address"@,
                    weight: 15,
                },
            ]
        } else {
            Seq::empty()
        }
    }

    /// The signal of an order from many shops, if it is one.
    pub open spec fn many_shops(self, context: RiskContext<'_>) -> Seq<SignalView> {
        match context.quote {
            Some(quote) => if quote.shop_totals@.len() > self.max_shops_per_order {
                seq![
                    SignalView {
                        code: "many_shops"@,
                        description: digits(quote.shop_totals@.len())
                            + " shops in a single order"@,
                        weight: 10,
                    },
                ]
            } else {
                Seq::empty()
            },
            None => Seq::empty(),
        }
    }

    /// Every signal that fires, in the order of the rules.
    pub open spec fn fired(self, context: RiskContext<'_>) -> Seq<SignalView> {
        self.high_value(context) + self.velocity(context) + self.card_testing(context)
            + FraudPolicy::country_mismatch(context) + FraudPolicy::ip_mismatch(context)
            + FraudPolicy::new_customer(context) + self.many_shops(context)
    }

    /// The decision for a score.
    pub open spec fn decides(self, score: u16) -> RiskDecision {
        if score >= self.block_score {
            RiskDecision::Block
        } else if score >= self.review_score {
            RiskDecision::Review
        } else {
            RiskDecision::Allow
        }
    }

    /// The assessment of a payment.
    pub open spec fn assessed(self, context: RiskContext<'_>) -> AssessmentView {
        if self.trusts_all(context.quote) {
            clean()
        } else {
            let signals = self.fired(context);
            let score = score_of(signals);
            AssessmentView { score, decision: self.decides(score), signals }
        }
    }
}

/// The weights of a list of signals.
pub open spec fn weights(signals: Seq<SignalView>) -> Seq<int> {
    signals.map_values(|signal: SignalView| signal.weight as int)
}

/// The score of a list of signals: the sum of their weights, at most one hundred.
pub open spec fn score_of(signals: Seq<SignalView>) -> u16 {
    let points = sum(weights(signals));
    if points > 100 {
        100
    } else {
        points as u16
    }
}

/// A transparent, deterministic rule engine.
///
/// Every rule is additive and named, so an assessment can always be explained
/// and replayed — which matters when a shopper asks why their order was blocked.
#[derive(Debug, Clone)]
pub struct RuleBasedFraudEngine {
    policy: FraudPolicy,
}

impl Default for RuleBasedFraudEngine {
    fn default() -> (engine: Self)
        ensures
            engine.rules().high_value_threshold is None,
            engine.rules().review_score == 40,
            engine.rules().block_score == 75,
            engine.rules().max_attempts_per_hour == 5,
            engine.rules().max_instruments_per_hour == 3,
            engine.rules().max_shops_per_order == 6,
            engine.rules().trusted_shops@.len() == 0,
    {
        RuleBasedFraudEngine { policy: FraudPolicy::default() }
    }
}

fn add_signal(signals: &mut Vec<RiskSignal>, code: &str, description: &str, weight: u16)
    ensures
        signal_views(final(signals)@) == signal_views(old(signals)@) + seq![
            SignalView { code: code@, description: description@, weight },
        ],
{
    let ghost before = signal_views(signals@);
    signals.push(
        RiskSignal { code: code.to_owned(), description: description.to_owned(), weight },
    );
    assert(signal_views(signals@) =~= before + seq![
        SignalView { code: code@, description: description@, weight },
    ]);
}

impl RuleBasedFraudEngine {
    /// The thresholds in use.
    pub closed spec fn rules(self) -> FraudPolicy {
        self.policy
    }

    /// An engine with default thresholds.
    pub fn new() -> (engine: Self)
        ensures
            engine.rules().high_value_threshold is None,
            engine.rules().review_score == 40,
            engine.rules().block_score == 75,
            engine.rules().max_attempts_per_hour == 5,
            engine.rules().max_instruments_per_hour == 3,
            engine.rules().max_shops_per_order == 6,
            engine.rules().trusted_shops@.len() == 0,
    {
        Self::default()
    }

    /// An engine with explicit thresholds.
    pub fn with_policy(policy: FraudPolicy) -> (engine: Self)
        ensures
            engine.rules() == policy,
    {
        RuleBasedFraudEngine { policy }
    }

    /// The policy in use.
    pub fn policy(&self) -> (policy: &FraudPolicy)
        ensures
            *policy == self.rules(),
    {
        &self.policy
    }

    fn signals(&self, context: &RiskContext<'_>) -> (signals: Vec<RiskSignal>)
        ensures
            signal_views(signals@) == self.rules().fired(*context),
    {
        let ghost rules = self.rules();
        let mut signals: Vec<RiskSignal> = Vec::new();
        assert(signal_views(signals@) =~= Seq::<SignalView>::empty());
        if let Some(threshold) = self.policy.high_value_threshold {
            if let Some(quote) = context.quote {
                if quote.totals.total.exceeds(threshold) {
                    let mut text = join3(
                        "order total ",
                        quote.totals.total.to_text().as_str(),
                        " exceeds the ",
                    );
                    text.append(threshold.to_text().as_str());
                    text.append(" review threshold");
                    add_signal(&mut signals, "high_value", text.as_str(), 25);
                }
            }
        }
        let ghost first = rules.high_value(*context);
        assert(signal_views(signals@) =~= first);
        if context.attempts_last_hour > self.policy.max_attempts_per_hour {
            let count = unsigned_to_text(context.attempts_last_hour as u64);
            let text = join(count.as_str(), " payment attempts in the last hour");
            add_signal(&mut signals, "velocity", text.as_str(), 30);
        }
        let ghost second = first + rules.velocity(*context);
        assert(signal_views(signals@) =~= second);
        if context.distinct_instruments_last_hour > self.policy.max_instruments_per_hour {
            let count = unsigned_to_text(context.distinct_instruments_last_hour as u64);
            let text = join(count.as_str(), " different instruments tried in the last hour");
            add_signal(&mut signals, "card_testing", text.as_str(), 45);
        }
        let ghost third = second + rules.card_testing(*context);
        assert(signal_views(signals@) =~= third);
        if let Some(card) = context.card_country {
            if let Some(shipping) = context.shipping_country {
                if card != shipping {
                    let mut text = join3(
                        "card issued in ",
                        card.as_str().as_str(),
                        " but shipping to ",
                    );
                    text.append(shipping.as_str().as_str());
                    add_signal(&mut signals, "country_mismatch", text.as_str(), 20);
                }
            }
        }
        let ghost fourth = third + FraudPolicy::country_mismatch(*context);
        assert(signal_views(signals@) =~= fourth);
        if let Some(billing) = context.billing_country {
            if let Some(ip) = context.ip_country {
                if billing != ip {
                    let mut text = join3(
                        "billing country ",
                        billing.as_str().as_str(),
                        " does not match IP country ",
                    );
                    text.append(ip.as_str().as_str());
                    add_signal(&mut signals, "ip_mismatch", text.as_str(), 15);
                }
            }
        }
        let ghost fifth = fourth + FraudPolicy::ip_mismatch(*context);
        assert(signal_views(signals@) =~= fifth);
        if context.prior_successful_orders == 0 && !context.email_verified {
            add_signal(
                &mut signals,
                "new_unverified_customer",
                "first order from an unverified email address",
                15,
            );
        }
        let ghost sixth = fifth + FraudPolicy::new_customer(*context);
        assert(signal_views(signals@) =~= sixth);
        if let Some(quote) = context.quote {
            if quote.shop_totals.len() > self.policy.max_shops_per_order {
                let count = unsigned_to_text(quote.shop_totals.len() as u64);
                let text = join(count.as_str(), " shops in a single order");
                add_signal(&mut signals, "many_shops", text.as_str(), 10);
            }
        }
        assert(signal_views(signals@) =~= sixth + rules.many_shops(*context));
        signals
    }
}

/// A rule fires at most once, with its own weight.
proof fn lemma_weights_of_rules(policy: FraudPolicy, context: RiskContext<'_>)
    ensures
        policy.fired(context).len() <= 7,
        forall|i: int|
            0 <= i < policy.fired(context).len() ==> 0 < (#[trigger] policy.fired(context)[i]).weight
                <= 45,
{
}

impl FraudEngine for RuleBasedFraudEngine {
    fn assess(&self, context: &RiskContext<'_>) -> (assessment: Result<RiskAssessment, Error>)
        ensures
            assessment matches Ok(made) && made@ == self.rules().assessed(*context),
    {
        if self.policy.all_trusted(context.quote) {
            return Ok(RiskAssessment::allow());
        }
        let signals = self.signals(context);
        let ghost views = signal_views(signals@);
        proof {
            lemma_weights_of_rules(self.rules(), *context);
        }
        let mut points: u32 = 0;
        let mut n: usize = 0;
        assert(weights(views.take(0)) =~= Seq::<int>::empty());
        while n < signals.len()
            invariant
                views == signal_views(signals@),
                views.len() <= 7,
                forall|i: int| 0 <= i < views.len() ==> 0 < (#[trigger] views[i]).weight <= 45,
                n <= signals@.len(),
                points == sum(weights(views.take(n as int))),
                points <= 45 * n,
            decreases signals@.len() - n,
        {
            assert(views[n as int] == signals@[n as int]@);
            assert(weights(views.take(n + 1)) =~= weights(views.take(n as int)).push(
                views[n as int].weight as int,
            ));
            proof {
                crate::sums::lemma_sum_push(
                    weights(views.take(n as int)),
                    views[n as int].weight as int,
                );
            }
            points += signals[n].weight as u32;
            n += 1;
        }
        assert(views.take(n as int) =~= views);
        let score: u16 = if points > 100 {
            100
        } else {
            points as u16
        };
        let decision = if score >= self.policy.block_score {
            RiskDecision::Block
        } else if score >= self.policy.review_score {
            RiskDecision::Review
        } else {
            RiskDecision::Allow
        };
        Ok(RiskAssessment { score, decision, signals })
    }
}

/// An engine that allows everything. The default when none is configured.
#[derive(Debug, Clone, Copy)]
pub struct AllowAllFraudEngine;

impl Default for AllowAllFraudEngine {
    fn default() -> (engine: Self)
        ensures
            engine == AllowAllFraudEngine,
    {
        AllowAllFraudEngine
    }
}

impl FraudEngine for AllowAllFraudEngine {
    fn assess(&self, _context: &RiskContext<'_>) -> (assessment: Result<RiskAssessment, Error>)
        ensures
            assessment matches Ok(made) && made@ == clean(),
    {
        Ok(RiskAssessment::allow())
    }
}

/// Scores stay between nothing and one hundred, and every decision but the one for wholly
/// trusted carts follows from the score.
pub proof fn law_scores_are_capped(policy: FraudPolicy, context: RiskContext<'_>)
    ensures
        policy.assessed(context).score <= 100,
        !policy.trusts_all(context.quote) ==> policy.assessed(context).decision == policy.decides(
            policy.assessed(context).score,
        ),
{
    lemma_weights_of_rules(policy, context);
    let signals = policy.fired(context);
    assert forall|i: int| 0 <= i < signals.len() implies #[trigger] weights(signals)[i] >= 0 by {
        assert(signals[i].weight > 0);
    }
    crate::sums::lemma_sum_non_negative(weights(signals));
}

/// Rules are additive: a context in which more of them fire never scores less.
pub proof fn law_rules_are_additive(fewer: Seq<SignalView>, more: Seq<SignalView>)
    ensures
        score_of(fewer) <= score_of(fewer + more),
{
    assert(weights(fewer + more) =~= weights(fewer) + weights(more));
    lemma_sum_concat(weights(fewer), weights(more));
    crate::sums::lemma_sum_non_negative(weights(more));
    crate::sums::lemma_sum_non_negative(weights(fewer));
}

proof fn lemma_points_add_up(first: Seq<SignalView>, second: Seq<SignalView>)
    ensures
        sum(weights(first + second)) == sum(weights(first)) + sum(weights(second)),
{
    assert(weights(first + second) =~= weights(first) + weights(second));
    lemma_sum_concat(weights(first), weights(second));
}

proof fn lemma_points_of_a_rule(signals: Seq<SignalView>)
    requires
        signals.len() <= 1,
    ensures
        sum(weights(signals)) == if signals.len() == 1 {
            signals[0].weight as int
        } else {
            0
        },
{
    if signals.len() == 1 {
        assert(weights(signals).drop_last() =~= Seq::<int>::empty());
        reveal_with_fuel(sum, 2);
    }
}

/// A payment scores the points of the rules that it breaks, up to one hundred: an order
/// above the threshold, too many attempts, too many instruments, a card from another
/// country than the goods go to, a client in another country than is billed, a first order
/// from an unverified address, and too many shops.
pub proof fn law_broken_rules_add_their_points(policy: FraudPolicy, context: RiskContext<'_>)
    requires
        !policy.trusts_all(context.quote),
    ensures
        ({
            let value: int = if policy.high_value_threshold is Some && context.quote is Some
                && context.quote->Some_0.totals.total.currency
                == policy.high_value_threshold->Some_0.currency
                && context.quote->Some_0.totals.total.minor
                > policy.high_value_threshold->Some_0.minor {
                25
            } else {
                0
            };
            let attempts: int = if context.attempts_last_hour > policy.max_attempts_per_hour {
                30
            } else {
                0
            };
            let instruments: int = if context.distinct_instruments_last_hour
                > policy.max_instruments_per_hour {
                45
            } else {
                0
            };
            let card: int = if context.card_country is Some && context.shipping_country is Some
                && context.card_country->Some_0 != context.shipping_country->Some_0 {
                20
            } else {
                0
            };
            let client: int = if context.billing_country is Some && context.ip_country is Some
                && context.billing_country->Some_0 != context.ip_country->Some_0 {
                15
            } else {
                0
            };
            let shopper: int = if context.prior_successful_orders == 0 && !context.email_verified {
                15
            } else {
                0
            };
            let shops: int = if context.quote is Some && context.quote->Some_0.shop_totals@.len()
                > policy.max_shops_per_order {
                10
            } else {
                0
            };
            let points = value + attempts + instruments + card + client + shopper + shops;
            &&& points <= 100 ==> policy.assessed(context).score == points
            &&& points > 100 ==> policy.assessed(context).score == 100
        }),
{
    let a = policy.high_value(context);
    let b = policy.velocity(context);
    let c = policy.card_testing(context);
    let d = FraudPolicy::country_mismatch(context);
    let e = FraudPolicy::ip_mismatch(context);
    let f = FraudPolicy::new_customer(context);
    let g = policy.many_shops(context);
    lemma_points_of_a_rule(a);
    lemma_points_of_a_rule(b);
    lemma_points_of_a_rule(c);
    lemma_points_of_a_rule(d);
    lemma_points_of_a_rule(e);
    lemma_points_of_a_rule(f);
    lemma_points_of_a_rule(g);
    lemma_points_add_up(a, b);
    lemma_points_add_up(a + b, c);
    lemma_points_add_up(a + b + c, d);
    lemma_points_add_up(a + b + c + d, e);
    lemma_points_add_up(a + b + c + d + e, f);
    lemma_points_add_up(a + b + c + d + e + f, g);
}

/// A payment is blocked from the blocking score on, reviewed from the review score on and
/// allowed below both; a higher score is never treated more leniently where the blocking
/// score is the higher one.
pub proof fn law_scores_decide(policy: FraudPolicy, score: u16)
    ensures
        policy.decides(score) is Block <==> policy.block_score <= score,
        policy.decides(score) is Review <==> policy.review_score <= score < policy.block_score,
        policy.decides(score) is Allow <==> score < policy.block_score && score
            < policy.review_score,
{
}

/// A shop is trusted exactly when the policy lists it. A cart is not screened exactly when
/// it is priced, has a shop and only trusted ones; it then scores nothing and is allowed.
pub proof fn law_trusted_shops_are_not_screened(
    policy: FraudPolicy,
    context: RiskContext<'_>,
    shop: Seq<char>,
)
    ensures
        policy.trusts(shop) <==> exists|i: int|
            0 <= i < policy.trusted_shops@.len() && (#[trigger] policy.trusted_shops@[i])@
                == shop,
        policy.trusts_all(context.quote) <==> context.quote is Some
            && context.quote->Some_0.shop_totals@.len() > 0 && forall|i: int|
            0 <= i < context.quote->Some_0.shop_totals@.len() ==> policy.trusts(
                (#[trigger] context.quote->Some_0.shop_totals@[i]).shop_id@,
            ),
        policy.trusts_all(context.quote) ==> {
            &&& policy.assessed(context).score == 0
            &&& policy.assessed(context).decision is Allow
            &&& policy.assessed(context).signals.len() == 0
        },
{
}

} // verus!
