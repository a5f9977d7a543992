//! The checkout orchestrator.
//!
//! [`CheckoutEngine`] holds the decisions of the whole payment lifecycle:
//!
//! ```text
//! quote     -> live totals for the checkout page
//! checkout  -> place the order, redeem stored value, authorise the gateways
//! confirm   -> merchant approval to take the held funds
//! capture   -> take funds, per order or per shipment
//! refund    -> return funds to every instrument, shop and funder involved
//! cancel    -> release holds and give stored value back
//! ```
//!
//! The engine talks to no gateway and no store itself. The application loads
//! what is asked for, sends what is prepared, and hands the answers back;
//! [`CheckoutStep`] says in which order.
//!
//! Every operation that moves money is idempotent given the same key, and every
//! failure path unwinds the stored-value redemptions it made, so a declined
//! card never leaves a gift card silently drained.

pub mod flow;
pub mod laws;
pub mod reconcile;
pub mod stored_value;
pub mod transfers;

pub use flow::CheckoutStep;
pub use reconcile::{OrderWebhookHandler, WebhookAction};
pub use stored_value::{
    credit_owner, redeem_credit, redeem_gift_card, refund_credit, refund_gift_card, release_credit,
    release_gift_card, stored_value_offers,
};
pub use transfers::{fee_for, fee_share, shop_share, transfers_for};

use vstd::prelude::*;

use crate::address::CountryCode;
use crate::amounts::copy_amounts;
use crate::cart::Cart;
use crate::error::{outcome, DeclineCode, Error, ErrorView};
use crate::fraud::{codes_joined, RiskAssessment, RiskContext, RiskDecision};
use crate::gateway::registry::{capable, lemma_incapable, lookup, GatewayRecord};
use crate::gateway::{
    AuthorizeRequest, CancelRequest, CaptureMode, CaptureRequest, GatewayId, GatewayRefundRequest,
    GatewayRegistry, InstrumentRef, NextAction, RoutingContext,
};
use crate::ids::{is_generated, CartId, FulfillmentGroupId, OrderId};
use crate::money::allocation::{list_outcome, weighted_allocation};
use crate::money::{allocate_by_weights, total, Currency, Money};
use crate::order::{stored_amounts, Order, OrderStatus};
use crate::payment::method::ChargeInitiator;
use crate::payment::refund::{
    refund, RefundPlan, RefundRecord, RefundRequest, TenderRefund,
};
use crate::payment::split::{plan_result, PlatformFeePolicy, SettlementPlan, ShopAccounts};
use crate::payment::tender::{funding_result, planned_views, TenderKind, TenderOffer, TenderPlan};
use crate::payment::{Payment, PaymentStatus};
use crate::pricing::{Discount, Quote};
use crate::storage::IdempotencyOutcome;
use crate::text::{digits, join, join3, lemma_digits, optional_text, push_digits, same_text};
use crate::time::Timestamp;
use crate::Metadata;
use transfers::{fees_of, transfer_views, transfers_of, TransferView};

verus! {

/// Engine-wide policy.
#[derive(Clone)]
pub struct CheckoutConfig {
    /// Commission taken from each shop.
    pub platform_fee: PlatformFeePolicy,
    /// Where each shop's money is sent.
    pub accounts: ShopAccounts,
    /// Whether to capture immediately or hold funds until fulfilment.
    ///
    /// Delivery businesses should use [`CaptureMode::Manual`]: authorise at
    /// checkout, capture when the goods arrive.
    pub capture_mode: CaptureMode,
    /// Whether to route splits to connected accounts at the gateway.
    pub use_connected_accounts: bool,
    /// Text shown on the shopper's statement.
    pub statement_descriptor: Option<String>,
}

impl Default for CheckoutConfig {
    fn default() -> (config: Self)
        ensures
            config.platform_fee == (PlatformFeePolicy {
                percentage_basis_points: 0,
                fixed_per_shop: None,
                include_tax_in_base: false,
                rounding: crate::money::Rounding::HalfUp,
            }),
            config.accounts@ == Map::<Seq<char>, crate::ids::AccountId>::empty(),
            config.capture_mode == CaptureMode::Automatic,
            !config.use_connected_accounts,
            config.statement_descriptor is None,
    {
        CheckoutConfig {
            platform_fee: PlatformFeePolicy::none(),
            accounts: ShopAccounts::new(),
            capture_mode: CaptureMode::Automatic,
            use_connected_accounts: false,
            statement_descriptor: None,
        }
    }
}

/// Caller-supplied risk signals.
#[derive(Debug, Clone)]
pub struct RiskInputs {
    /// Successful orders this shopper has completed before.
    pub prior_successful_orders: u32,
    /// Payment attempts in the last hour.
    pub attempts_last_hour: u32,
    /// Distinct instruments tried in the last hour.
    pub distinct_instruments_last_hour: u32,
    /// Whether the shopper's email is verified.
    pub email_verified: bool,
    /// Country of the client IP.
    pub ip_country: Option<CountryCode>,
    /// Country the card was issued in.
    pub card_country: Option<CountryCode>,
}

impl Default for RiskInputs {
    fn default() -> (inputs: Self)
        ensures
            inputs == (RiskInputs {
                prior_successful_orders: 0,
                attempts_last_hour: 0,
                distinct_instruments_last_hour: 0,
                email_verified: false,
                ip_country: None,
                card_country: None,
            }),
    {
        RiskInputs {
            prior_successful_orders: 0,
            attempts_last_hour: 0,
            distinct_instruments_last_hour: 0,
            email_verified: false,
            ip_country: None,
            card_country: None,
        }
    }
}

/// What the caller asks for at checkout.
#[derive(Debug, Clone)]
pub struct CheckoutRequest {
    /// Cart to convert into an order.
    pub cart_id: CartId,
    /// Gateway instruments the shopper chose. Stored value staged on the cart
    /// (gift cards, shop credit) is added automatically and applied first.
    pub tenders: Vec<TenderOffer>,
    /// Makes retries safe. Reuse the same key when retrying a failed request.
    pub idempotency_key: String,
    /// Override the engine's capture mode for this order.
    pub capture_mode: Option<CaptureMode>,
    /// Who initiated the charge.
    pub initiator: ChargeInitiator,
    /// Signals for the fraud engine that only the caller knows.
    pub risk: RiskInputs,
}

impl CheckoutRequest {
    /// A checkout with one gateway instrument.
    pub fn new(cart_id: CartId, idempotency_key: &str) -> (request: Self)
        ensures
            request.cart_id == cart_id,
            request.tenders@.len() == 0,
            request.idempotency_key@ == idempotency_key@,
            request.capture_mode is None,
            request.initiator == ChargeInitiator::CustomerOnSession,
            request.risk == (RiskInputs {
                prior_successful_orders: 0,
                attempts_last_hour: 0,
                distinct_instruments_last_hour: 0,
                email_verified: false,
                ip_country: None,
                card_country: None,
            }),
    {
        CheckoutRequest {
            cart_id,
            tenders: Vec::new(),
            idempotency_key: idempotency_key.to_owned(),
            capture_mode: None,
            initiator: ChargeInitiator::CustomerOnSession,
            risk: RiskInputs::default(),
        }
    }

    /// The key under which the request is kept, apart from those of other operations.
    pub fn claim_key(&self) -> (key: String)
        ensures
            key@ == "checkout:"@ + self.idempotency_key@,
    {
        join("checkout:", self.idempotency_key.as_str())
    }

    /// What tells the request from others under the same key: its cart.
    pub fn fingerprint(&self) -> (fingerprint: String)
        ensures
            fingerprint@ == self.cart_id@,
    {
        self.cart_id.as_str().to_owned()
    }

    /// The order that an earlier run of the request placed, once its key was claimed. A
    /// request that is still being served is refused.
    pub fn placed_before(&self, answer: Result<IdempotencyOutcome, Error>) -> (placed: Result<
        Option<OrderId>,
        Error,
    >)
        ensures
            match answer {
                Ok(IdempotencyOutcome::Started) => placed matches Ok(nothing) && nothing is None,
                Ok(IdempotencyOutcome::Completed(text)) => placed matches Ok(Some(id)) && id@
                    == text@,
                Ok(IdempotencyOutcome::InFlight) => placed matches Err(error) && error@ == (
                ErrorView::Conflict {
                    kind: "checkout"@,
                    id: self.idempotency_key@,
                    message: "a request with this key is still being served"@,
                }),
                Err(error) => placed == Err::<Option<OrderId>, Error>(error),
            },
    {
        match answer {
            Ok(IdempotencyOutcome::Started) => Ok(None),
            Ok(IdempotencyOutcome::Completed(text)) => Ok(
                Some(OrderId::from_string(text.as_str())),
            ),
            Ok(IdempotencyOutcome::InFlight) => Err(
                Error::conflict(
                    "checkout",
                    self.idempotency_key.as_str(),
                    "a request with this key is still being served",
                ),
            ),
            Err(error) => Err(error),
        }
    }

    /// Builder: add a tender.
    pub fn with_tender(self, tender: TenderOffer) -> (request: Self)
        ensures
            request == (CheckoutRequest { tenders: request.tenders, ..self }),
            request.tenders@ == self.tenders@.push(tender),
    {
        let mut tenders = self.tenders;
        tenders.push(tender);
        CheckoutRequest { tenders, ..self }
    }

    /// Builder: hold funds instead of capturing them.
    pub fn holding_funds(self) -> (request: Self)
        ensures
            request == (CheckoutRequest { capture_mode: Some(CaptureMode::Manual), ..self }),
    {
        CheckoutRequest { capture_mode: Some(CaptureMode::Manual), ..self }
    }
}

/// The outcome of a checkout.
#[derive(Debug, Clone)]
pub struct CheckoutResult {
    /// The placed order.
    pub order: Order,
    /// Payments created, one per gateway tender.
    pub payments: Vec<Payment>,
    /// The risk assessment that allowed the charge.
    pub risk: RiskAssessment,
    /// Shopper action required to finish (3-D Secure, redirect).
    pub next_action: Option<NextAction>,
}

impl CheckoutResult {
    /// Whether the shopper still has to do something.
    pub fn requires_action(&self) -> (required: bool)
        ensures
            required == (self.next_action is Some),
    {
        self.next_action.is_some()
    }
}

/// The promotions that were found, in order.
pub open spec fn found_discounts(found: Seq<Option<Discount>>) -> Seq<Discount>
    decreases found.len(),
{
    if found.len() == 0 {
        Seq::empty()
    } else {
        match found.last() {
            Some(discount) => found_discounts(found.drop_last()).push(discount),
            None => found_discounts(found.drop_last()),
        }
    }
}

/// The promotions that apply to a cart: the automatic ones, then what was found under each
/// of its codes. A code that leads nowhere is skipped.
pub fn resolve_discounts(automatic: Vec<Discount>, found: Vec<Option<Discount>>) -> (
discounts: Vec<Discount>)
    ensures
        discounts@ == automatic@ + found_discounts(found@),
{
    let ghost all = found@;
    let mut rest = found;
    let mut discounts = automatic;
    let ghost start = discounts@;
    let mut n: usize = 0;
    let count = rest.len();
    assert(all.take(0) =~= Seq::<Option<Discount>>::empty());
    assert(start + Seq::<Discount>::empty() =~= start);
    assert(rest@ =~= all.skip(0));
    while n < count
        invariant
            n <= count,
            count == all.len(),
            rest@ == all.skip(n as int),
            discounts@ == start + found_discounts(all.take(n as int)),
        decreases count - n,
    {
        assert(all.take(n + 1).drop_last() =~= all.take(n as int));
        let ghost before = discounts@;
        let next = rest.remove(0);
        assert(rest@ =~= all.skip(n + 1));
        if let Some(discount) = next {
            discounts.push(discount);
            assert(discounts@ =~= start + found_discounts(all.take(n as int)).push(discount));
        }
        n += 1;
    }
    assert(all.take(n as int) =~= all);
    discounts
}

/// Convenience helper to build an [`InstrumentRef`] from a raw client token.
pub fn single_use(token: &str) -> (instrument: InstrumentRef)
    ensures
        instrument matches InstrumentRef::SingleUseToken { token: text } && text@ == token@,
{
    InstrumentRef::SingleUseToken { token: token.to_owned() }
}

/// The country of an optional address.
pub open spec fn country_of(address: Option<crate::address::Address>) -> Option<CountryCode> {
    match address {
        Some(found) => Some(found.country),
        None => None,
    }
}

fn read_country(address: &Option<crate::address::Address>) -> (country: Option<CountryCode>)
    ensures
        country == country_of(*address),
{
    match address {
        Some(found) => Some(found.country),
        None => None,
    }
}

/// What the fraud engine is told about a checkout.
pub fn risk_context<'a>(cart: &Cart, quote: &'a Quote, inputs: &RiskInputs) -> (
context: RiskContext<'a>)
    ensures
        context == (RiskContext {
            quote: Some(quote),
            customer_id: cart.customer_id,
            card_country: inputs.card_country,
            shipping_country: country_of(cart.shipping_address),
            billing_country: country_of(cart.billing_address),
            prior_successful_orders: inputs.prior_successful_orders,
            attempts_last_hour: inputs.attempts_last_hour,
            distinct_instruments_last_hour: inputs.distinct_instruments_last_hour,
            email_verified: inputs.email_verified,
            ip_country: inputs.ip_country,
        }),
{
    RiskContext {
        quote: Some(quote),
        customer_id: cart.customer_id.clone(),
        card_country: inputs.card_country,
        shipping_country: read_country(&cart.shipping_address),
        billing_country: read_country(&cart.billing_address),
        prior_successful_orders: inputs.prior_successful_orders,
        attempts_last_hour: inputs.attempts_last_hour,
        distinct_instruments_last_hour: inputs.distinct_instruments_last_hour,
        email_verified: inputs.email_verified,
        ip_country: inputs.ip_country,
    }
}

/// What screening a payment returns.
pub open spec fn screening(risk: RiskAssessment) -> Result<(), ErrorView> {
    if risk.decision is Block {
        Err(
            ErrorView::Declined {
                code: DeclineCode::Fraudulent,
                message: risk.decision.name() + " (score "@ + digits(risk.score as nat) + "): "@
                    + codes_joined(risk@.signals),
            },
        )
    } else {
        Ok(())
    }
}

/// Refuse a blocked payment before any money moves.
pub fn screen(risk: &RiskAssessment) -> (screened: Result<(), Error>)
    ensures
        outcome(screened) == screening(*risk),
{
    if risk.decision == RiskDecision::Block {
        return Err(
            Error::Declined { code: DeclineCode::Fraudulent, message: risk.summary() },
        );
    }
    Ok(())
}

// Placing the order.

/// Whether an order is the one that a cart, its price, its settlement and its funding make,
/// with its payment pending.
pub open spec fn is_placed(
    order: Order,
    cart: Cart,
    quote: Quote,
    settlement: SettlementPlan,
    plan: TenderPlan,
) -> bool {
    &&& is_generated(order.id@, "ord"@)
    &&& order.cart_id == Some(cart.id)
    &&& order.customer_id == cart.customer_id
    &&& order.currency == cart.currency
    &&& order.status == OrderStatus::PendingPayment
    &&& order.quote == quote
    &&& order.settlement == settlement
    &&& planned_views(order.tenders@) == planned_views(plan.tenders@)
    &&& order.fulfillment_groups@.len() == cart.fulfillment_groups@.len()
    &&& forall|i: int|
        0 <= i < cart.fulfillment_groups@.len() ==> crate::order::same_group(
            #[trigger] order.fulfillment_groups@[i],
            cart.fulfillment_groups@[i],
        )
    &&& order.payments@.len() == 0
    &&& order.refunds@.len() == 0
    &&& order.amount_captured == (Money { minor: 0, currency: cart.currency })
    &&& order.amount_refunded == (Money { minor: 0, currency: cart.currency })
    &&& order.shipping_address == cart.shipping_address
    &&& order.billing_address == cart.billing_address
    &&& order.metadata@ == cart.metadata@
    &&& order.version == 1
}

/// What placing an order gives, once its funding and its settlement are known. The first
/// that fails decides the error.
pub open spec fn placing(
    cart: Cart,
    quote: Quote,
    plan: Result<TenderPlan, Error>,
    settlement: Result<SettlementPlan, Error>,
    order: Result<Order, Error>,
) -> bool {
    match plan {
        Err(error) => order is Err && order->Err_0@ == error@,
        Ok(tenders) => match settlement {
            Err(error) => order is Err && order->Err_0@ == error@,
            Ok(split) => match Order::refused(cart, quote, tenders) {
                Some(error) => order is Err && order->Err_0@ == error,
                None => order matches Ok(made) && is_placed(made, cart, quote, split, tenders),
            },
        },
    }
}

// Charging the gateways.

/// The idempotency key of a tender's authorisation.
pub open spec fn charge_key(request_key: Seq<char>, index: nat) -> Seq<char> {
    request_key + ":tender:"@ + digits(index)
}

/// What a gateway must be able to do for a charge: to hold funds, and to route parts of them
/// to connected accounts.
pub open spec fn required_of(mode: CaptureMode, connected: bool) -> Seq<&'static str> {
    let held = match mode {
        CaptureMode::Manual => seq!["delayed_capture"],
        CaptureMode::Automatic => Seq::empty(),
    };
    if connected {
        held.push("connected_accounts").push("application_fees")
    } else {
        held
    }
}

/// What a gateway must be able to do for a capture: to take part of what is held, and to take
/// more after an earlier capture.
pub open spec fn required_for_capture(payment: Payment, share: Money) -> Seq<&'static str> {
    let part = if held_of(payment, payment.amount.currency).more_than(share) {
        seq!["partial_capture"]
    } else {
        Seq::empty()
    };
    if payment.amount_captured.minor != 0 {
        part.push("multi_capture")
    } else {
        part
    }
}

/// What a gateway must be able to do for a refund: to refund, and to refund part of a charge.
pub open spec fn required_for_refund(payment: Payment, amount: Money) -> Seq<&'static str> {
    if payment.refundable() matches Ok(rest) && rest.more_than(amount) {
        seq!["refunds", "partial_refunds"]
    } else {
        seq!["refunds"]
    }
}

/// What is required of a gateway, or the first capability that it lacks.
pub open spec fn able(record: GatewayRecord, required: Seq<&'static str>) -> Result<
    (),
    ErrorView,
> {
    capable(record, required, required.len() as int)
}

fn require_all(record: &GatewayRecord, required: &Vec<&'static str>) -> (checked: Result<
    (),
    Error,
>)
    ensures
        outcome(checked) == able(*record, required@),
{
    let mut n: usize = 0;
    while n < required.len()
        invariant
            n <= required@.len(),
            capable(*record, required@, n as int) is Ok,
        decreases required@.len() - n,
    {
        match record.capabilities.require(&record.id, required[n]) {
            Ok(_) => {},
            Err(error) => {
                proof {
                    lemma_incapable(*record, required@, n + 1, required@.len() as int);
                }
                return Err(error);
            },
        }
        n += 1;
    }
    Ok(())
}

/// The gateway that handles a tender, or why it cannot.
pub open spec fn route_of(
    records: Map<Seq<char>, GatewayRecord>,
    gateway: Seq<char>,
    currency: Currency,
    mode: CaptureMode,
    connected: bool,
) -> Result<GatewayRecord, ErrorView> {
    match lookup(records, gateway) {
        Err(error) => Err(error),
        Ok(record) => if !record.capabilities.accepts(currency) {
            Err(
                ErrorView::Configuration(
                    "gateway '"@ + record.id@ + "' does not support "@ + currency.letters(),
                ),
            )
        } else {
            match able(record, required_of(mode, connected)) {
                Err(error) => Err(error),
                Ok(_) => Ok(record),
            }
        },
    }
}

/// How a charge is split at the gateway, or why it cannot be: nothing is split without
/// connected accounts.
pub open spec fn split_of(order: Order, amount: Money, connected: bool) -> Result<
    (Seq<TransferView>, Option<Money>),
    ErrorView,
> {
    if !connected {
        Ok((Seq::empty(), None))
    } else {
        match transfers_of(order, amount, order.settlement.shops@.len() as int) {
            Err(error) => Err(error),
            Ok(transfers) => match fees_of(
                order,
                amount,
                order.settlement.shops@.len() as int,
            ) {
                Err(error) => Err(error),
                Ok(fee) => Ok((transfers, Some(fee))),
            },
        }
    }
}

/// A payment and the charge that is sent to its gateway.
#[derive(Debug, Clone)]
pub struct PlannedCharge {
    /// The payment, before the gateway is asked.
    pub payment: Payment,
    /// What the gateway is asked.
    pub charge: AuthorizeRequest,
}

/// Whether a payment is the one of a gateway tender, before the gateway is asked.
pub open spec fn is_payment(
    payment: Payment,
    order: Order,
    index: int,
    request: CheckoutRequest,
    gateway: Seq<char>,
) -> bool {
    let tender = order.tenders@[index];
    &&& is_generated(payment.id@, "pay"@)
    &&& payment.order_id == order.id
    &&& payment.gateway@ == gateway
    &&& payment.transaction_id is None
    &&& payment.idempotency_key@ == charge_key(request.idempotency_key@, index as nat)
    &&& payment.amount == tender.amount
    &&& payment.status == PaymentStatus::Created
    &&& payment.captures@.len() == 0
    &&& !payment.confirmed
    &&& payment.next_action is None
    &&& payment.tender_index == Some(index as usize)
    &&& payment.shop_allocation@ == tender.shop_allocation@
    &&& payment.failure_message is None
    &&& payment.version == 0
    &&& payment.sound()
    &&& tender.kind matches TenderKind::Gateway { payment_method_id, label, .. } && {
        &&& payment.instrument_label@ == label@
        &&& match payment_method_id {
            Some(id) => payment.metadata@.dom() == Set::empty().insert("payment_method_id"@)
                && payment.metadata@["payment_method_id"@]@ == id@,
            None => payment.metadata@ == Map::<Seq<char>, String>::empty(),
        }
    }
}

/// Whether a charge is the one that is sent for a gateway tender.
pub open spec fn is_charge(
    charge: AuthorizeRequest,
    cart: Cart,
    order: Order,
    index: int,
    request: CheckoutRequest,
    config: CheckoutConfig,
) -> bool {
    let tender = order.tenders@[index];
    &&& charge.idempotency_key@ == charge_key(request.idempotency_key@, index as nat)
    &&& charge.amount == tender.amount
    &&& tender.kind matches TenderKind::Gateway { instrument, .. } && charge.instrument
        == instrument
    &&& charge.customer_id == cart.customer_id
    &&& charge.order_id == Some(order.id)
    &&& charge.capture_mode == mode_of(request, config)
    &&& charge.initiator == request.initiator
    &&& charge.statement_descriptor == config.statement_descriptor
    &&& optional_text(charge.description) == Some("Order "@ + order.id@)
    &&& charge.return_url is None
    &&& charge.metadata@ == Map::<Seq<char>, String>::empty()
    &&& split_of(order, tender.amount, config.use_connected_accounts) == Ok::<
        (Seq<TransferView>, Option<Money>),
        ErrorView,
    >((transfer_views(charge.transfers@), charge.application_fee))
}

/// Whether funds are captured at once or held.
pub open spec fn mode_of(request: CheckoutRequest, config: CheckoutConfig) -> CaptureMode {
    match request.capture_mode {
        Some(mode) => mode,
        None => config.capture_mode,
    }
}

/// What preparing the charge of a tender gives: nothing for stored value.
pub open spec fn charge_planned(
    records: Map<Seq<char>, GatewayRecord>,
    config: CheckoutConfig,
    cart: Cart,
    order: Order,
    index: int,
    request: CheckoutRequest,
    planned: Result<Option<PlannedCharge>, Error>,
) -> bool {
    let tender = order.tenders@[index];
    match tender.kind {
        TenderKind::Gateway { gateway, .. } => match route_of(
            records,
            gateway@,
            order.currency,
            mode_of(request, config),
            config.use_connected_accounts,
        ) {
            Err(error) => planned is Err && planned->Err_0@ == error,
            Ok(record) => match split_of(order, tender.amount, config.use_connected_accounts) {
                Err(error) => planned is Err && planned->Err_0@ == error,
                Ok(_) => match planned {
                    Ok(made) => {
                        &&& made matches Some(plan)
                        &&& is_payment(plan.payment, order, index, request, record.id@)
                        &&& is_charge(plan.charge, cart, order, index, request, config)
                        &&& plan.charge.check() is Ok
                    },
                    Err(error) => exists|charge: AuthorizeRequest| #[trigger]
                        is_charge(charge, cart, order, index, request, config)
                            && charge.check() == Err::<(), ErrorView>(error@),
                },
            },
        },
        _ => planned matches Ok(nothing) && nothing is None,
    }
}

/// A checkout in progress: the order, and what was paid of it so far.
#[derive(Debug, Clone)]
pub struct Placement {
    /// The order.
    pub order: Order,
    /// The payments that were authorised.
    pub payments: Vec<Payment>,
    /// The first outstanding shopper action, if any.
    pub next_action: Option<NextAction>,
}

/// The first outstanding shopper action of a list of payments.
pub open spec fn first_action(payments: Seq<Payment>) -> Option<NextAction>
    decreases payments.len(),
{
    if payments.len() == 0 {
        None
    } else if payments[0].next_action is Some {
        payments[0].next_action
    } else {
        first_action(payments.drop_first())
    }
}

/// What was captured of each payment.
pub open spec fn captured_amounts(payments: Seq<Payment>) -> Seq<Money> {
    payments.map_values(|payment: Payment| payment.amount_captured)
}

/// Whether a payment waits for the shopper.
pub open spec fn any_waiting(payments: Seq<Payment>) -> bool {
    exists|i: int| 0 <= i < payments.len() && (#[trigger] payments[i]).status is RequiresAction
}

/// What was collected for an order: what the gateways captured, and its stored value.
pub open spec fn collected(order: Order, payments: Seq<Payment>) -> Result<Money, ErrorView> {
    match total(captured_amounts(payments), order.currency) {
        Err(error) => Err(error),
        Ok(captured) => match total(stored_amounts(order.tenders@), order.currency) {
            Err(error) => Err(error),
            Ok(stored) => captured.plus(stored),
        },
    }
}

/// What reflecting the payments on an order returns and leaves. An order that waits for the
/// shopper stays pending.
pub open spec fn concluded(
    order: Order,
    payments: Seq<Payment>,
    after: Order,
    done: Result<(), Error>,
) -> bool {
    match collected(order, payments) {
        Err(error) => outcome(done) == Err::<(), ErrorView>(error) && after == order,
        Ok(amount) => if any_waiting(payments) {
            done is Ok && after == order
        } else if amount.minor > 0 {
            order.capture_recorded(amount, after, done)
        } else {
            order.moved(OrderStatus::Authorized, after, done)
        },
    }
}

fn sum_captured(payments: &Vec<Payment>, currency: Currency) -> (amount: Result<Money, Error>)
    ensures
        outcome(amount) == total(captured_amounts(payments@), currency),
{
    let ghost all = captured_amounts(payments@);
    let mut amounts: Vec<Money> = Vec::new();
    let mut n: usize = 0;
    while n < payments.len()
        invariant
            all == captured_amounts(payments@),
            n <= payments@.len(),
            amounts@ == all.take(n as int),
        decreases payments@.len() - n,
    {
        amounts.push(payments[n].amount_captured);
        n += 1;
        assert(amounts@ =~= all.take(n as int));
    }
    assert(amounts@ =~= all);
    Money::sum(amounts.as_slice(), currency)
}

impl Placement {
    /// A checkout of an order of which nothing was paid.
    pub fn new(order: Order) -> (placement: Self)
        ensures
            placement.order == order,
            placement.payments@.len() == 0,
            placement.next_action is None,
    {
        Placement { order, payments: Vec::new(), next_action: None }
    }

    /// A checkout that an earlier run of the request finished, from what is stored of it.
    pub fn replayed(order: Order, payments: Vec<Payment>) -> (placement: Self)
        ensures
            placement.order == order,
            placement.payments == payments,
            placement.next_action == first_action(payments@),
    {
        let mut next_action: Option<NextAction> = None;
        let mut n: usize = payments.len();
        assert(payments@.skip(n as int) =~= Seq::<Payment>::empty());
        while n > 0
            invariant
                n <= payments@.len(),
                next_action == first_action(payments@.skip(n as int)),
            decreases n,
        {
            n -= 1;
            let ghost rest = payments@.skip(n as int);
            assert(rest.drop_first() =~= payments@.skip(n + 1));
            assert(rest[0] == payments@[n as int]);
            if payments[n].next_action.is_some() {
                next_action = payments[n].next_action.clone();
            }
        }
        assert(payments@.skip(0) =~= payments@);
        Placement { order, payments, next_action }
    }

    /// Take in a payment that a gateway authorised.
    pub fn accept(&mut self, payment: Payment)
        ensures
            final(self).payments@ == old(self).payments@.push(payment),
            final(self).next_action == match old(self).next_action {
                Some(action) => Some(action),
                None => payment.next_action,
            },
            old(self).order.has_payment(payment.id@) ==> final(self).order == old(self).order,
            !old(self).order.has_payment(payment.id@) ==> {
                &&& (Order { payments: final(self).order.payments, ..old(self).order }).touched(
                    final(self).order,
                )
                &&& final(self).order.payments@ == old(self).order.payments@.push(payment.id)
            },
    {
        if self.next_action.is_none() {
            self.next_action = payment.next_action.clone();
        }
        self.order.attach_payment(payment.id.clone());
        self.payments.push(payment);
    }

    /// Reflect the payments on the order.
    pub fn conclude(&mut self) -> (done: Result<(), Error>)
        ensures
            concluded(old(self).order, old(self).payments@, final(self).order, done),
            final(self).payments == old(self).payments,
            final(self).next_action == old(self).next_action,
    {
        let captured = match sum_captured(&self.payments, self.order.currency) {
            Ok(captured) => captured,
            Err(error) => return Err(error),
        };
        let stored = match self.order.stored_value_total() {
            Ok(stored) => stored,
            Err(error) => return Err(error),
        };
        let amount = match captured.try_add(stored) {
            Ok(amount) => amount,
            Err(error) => return Err(error),
        };
        let mut n: usize = 0;
        while n < self.payments.len()
            invariant
                *self == *old(self),
                collected(old(self).order, old(self).payments@) == Ok::<Money, ErrorView>(amount),
                n <= self.payments@.len(),
                forall|i: int|
                    0 <= i < n ==> !((#[trigger] self.payments@[i]).status is RequiresAction),
            decreases self.payments@.len() - n,
        {
            if self.payments[n].status == PaymentStatus::RequiresAction {
                // Stay in PendingPayment until the shopper finishes the challenge.
                assert(self.payments@[n as int].status is RequiresAction);
                return Ok(());
            }
            n += 1;
        }
        if amount.is_positive() {
            self.order.record_capture(amount)
        } else {
            self.order.transition_to(OrderStatus::Authorized)
        }
    }

    /// Mark the order as failed.
    pub fn abandon(&mut self) -> (done: Result<(), Error>)
        ensures
            old(self).order.moved(OrderStatus::Failed, final(self).order, done),
            final(self).payments == old(self).payments,
            final(self).next_action == old(self).next_action,
    {
        self.order.transition_to(OrderStatus::Failed)
    }

    /// The outcome of the checkout.
    pub fn finish(self, risk: RiskAssessment) -> (result: CheckoutResult)
        ensures
            result == (CheckoutResult {
                order: self.order,
                payments: self.payments,
                risk,
                next_action: self.next_action,
            }),
    {
        CheckoutResult {
            order: self.order,
            payments: self.payments,
            risk,
            next_action: self.next_action,
        }
    }
}

// Capturing.

/// What can still be captured of a payment, or nothing where that cannot be told.
pub open spec fn held_of(payment: Payment, currency: Currency) -> Money {
    match payment.capturable() {
        Ok(amount) => amount,
        Err(_) => Money { minor: 0, currency },
    }
}

/// What can still be captured of each payment.
pub open spec fn held_amounts(payments: Seq<Payment>, currency: Currency) -> Seq<Money> {
    payments.map_values(|payment: Payment| held_of(payment, currency))
}

/// What is captured of each payment so that an amount is captured in all.
pub open spec fn capture_split(order: Order, payments: Seq<Payment>, amount: Money) -> Result<
    Seq<Money>,
    ErrorView,
> {
    let held = held_amounts(payments, order.currency);
    match total(held, order.currency) {
        Err(error) => Err(error),
        Ok(available) => if amount.more_than(available) {
            Err(
                ErrorView::Validation(
                    "cannot capture "@ + amount.text() + ": only "@ + available.text()
                        + " is held across this order's payments"@,
                ),
            )
        } else {
            weighted_allocation(amount, held)
        },
    }
}

/// Split a capture across an order's payments, in proportion to what each still holds.
pub fn capture_shares(order: &Order, payments: &Vec<Payment>, amount: Money) -> (shares: Result<
    Vec<Money>,
    Error,
>)
    ensures
        list_outcome(shares) == capture_split(*order, payments@, amount),
{
    let ghost all = held_amounts(payments@, order.currency);
    let mut held: Vec<Money> = Vec::new();
    let mut n: usize = 0;
    while n < payments.len()
        invariant
            all == held_amounts(payments@, order.currency),
            n <= payments@.len(),
            held@ == all.take(n as int),
        decreases payments@.len() - n,
    {
        let capturable = match payments[n].capturable_amount() {
            Ok(amount) => amount,
            Err(_) => Money::zero(order.currency),
        };
        held.push(capturable);
        n += 1;
        assert(held@ =~= all.take(n as int));
    }
    assert(held@ =~= all);
    let available = match Money::sum(held.as_slice(), order.currency) {
        Ok(available) => available,
        Err(error) => return Err(error),
    };
    if amount.exceeds(available) {
        let mut message = join3("cannot capture ", amount.to_text().as_str(), ": only ");
        message.append(available.to_text().as_str());
        message.append(" is held across this order's payments");
        return Err(Error::validation(message.as_str()));
    }
    allocate_by_weights(amount, held.as_slice())
}

/// What is captured for one shipment, where there is anything to capture.
pub open spec fn shipment_due(order: Order, group: Seq<char>) -> Result<Money, ErrorView> {
    match order.group_amount(group) {
        Err(error) => Err(error),
        Ok(due) => if due.minor > 0 {
            Ok(due)
        } else {
            Err(ErrorView::Validation("this shipment has no capturable amount"@))
        },
    }
}

/// The amount to capture for one shipment.
///
/// This is the delivery workflow: authorise the whole basket at checkout,
/// then take money for each shipment as it is delivered.
pub fn shipment_amount(order: &Order, group_id: &FulfillmentGroupId) -> (amount: Result<
    Money,
    Error,
>)
    ensures
        outcome(amount) == shipment_due(*order, group_id@),
{
    let amount = match order.amount_for_fulfillment_group(group_id) {
        Ok(amount) => amount,
        Err(error) => return Err(error),
    };
    if !amount.is_positive() {
        return Err(Error::validation("this shipment has no capturable amount"));
    }
    Ok(amount)
}

/// What approving the capture of a payment returns and leaves.
pub open spec fn approved(payment: Payment, after: Payment, done: Result<bool, Error>) -> bool {
    &&& outcome(done) == Ok::<bool, ErrorView>(payment.status.capturable())
    &&& payment.status.capturable() ==> (Payment { confirmed: true, ..payment }).touched(after)
    &&& !payment.status.capturable() ==> after == payment
}

/// Approve the capture of a payment whose funds are held; whether there was anything to
/// approve.
pub fn confirm_payment(payment: &mut Payment) -> (confirmed: Result<bool, Error>)
    ensures
        approved(*old(payment), *final(payment), confirmed),
{
    if !payment.status.is_capturable() {
        return Ok(false);
    }
    match payment.confirm() {
        Ok(_) => Ok(true),
        Err(error) => Err(error),
    }
}

/// What recording on an order what was captured returns and leaves.
pub open spec fn capture_finished(
    order: Order,
    captured: Money,
    after: Order,
    done: Result<bool, Error>,
) -> bool {
    if captured.minor > 0 {
        match done {
            Ok(recorded) => recorded && order.capture_recorded(captured, after, Ok(())),
            Err(error) => order.capture_recorded(captured, after, Err(error)),
        }
    } else {
        done == Ok::<bool, Error>(false) && after == order
    }
}

/// Record what was captured on the order; whether there was anything to record.
pub fn finish_capture(order: &mut Order, captured: Money) -> (done: Result<bool, Error>)
    ensures
        capture_finished(*old(order), captured, *final(order), done),
{
    if !captured.is_positive() {
        return Ok(false);
    }
    match order.record_capture(captured) {
        Ok(_) => Ok(true),
        Err(error) => Err(error),
    }
}

// Cancelling.

/// What asking to cancel an order returns.
pub open spec fn cancellable(order: Order, payments: Seq<Payment>) -> Result<(), ErrorView> {
    match total(captured_amounts(payments), order.currency) {
        Err(error) => Err(error),
        Ok(captured) => if captured.minor > 0 {
            Err(
                ErrorView::Validation(
                    "this order has captured funds; refund it instead of cancelling"@,
                ),
            )
        } else {
            Ok(())
        },
    }
}

/// Whether an order can still be cancelled: not once a gateway has taken money.
pub fn check_cancel(order: &Order, payments: &Vec<Payment>) -> (checked: Result<(), Error>)
    ensures
        outcome(checked) == cancellable(*order, payments@),
{
    let captured = match sum_captured(payments, order.currency) {
        Ok(captured) => captured,
        Err(error) => return Err(error),
    };
    if captured.is_positive() {
        return Err(
            Error::validation("this order has captured funds; refund it instead of cancelling"),
        );
    }
    Ok(())
}

/// What cancelling an order returns and leaves. The stored value was recorded as collected
/// at checkout; it has been handed back, so the order no longer holds any of it.
pub open spec fn canceled(order: Order, after: Order, done: Result<(), Error>) -> bool {
    match total(stored_amounts(order.tenders@), order.currency) {
        Err(error) => outcome(done) == Err::<(), ErrorView>(error) && after == order,
        Ok(stored) => if stored.minor <= 0 {
            order.moved(OrderStatus::Canceled, after, done)
        } else {
            match stored.smaller(order.amount_captured) {
                Err(error) => outcome(done) == Err::<(), ErrorView>(error) && after == order,
                Ok(reversible) => exists|rest: Order, reversed: Result<(), Error>| #[trigger]
                    order.capture_reversed(reversible, rest, reversed) && match reversed {
                        Err(error) => outcome(done) == Err::<(), ErrorView>(error@) && after == rest,
                        Ok(_) => rest.moved(OrderStatus::Canceled, after, done),
                    },
            }
        },
    }
}

/// Mark an order as cancelled, once its holds and its stored value have been released.
pub fn finish_cancel(order: &mut Order) -> (done: Result<(), Error>)
    ensures
        canceled(*old(order), *final(order), done),
{
    let stored = match order.stored_value_total() {
        Ok(stored) => stored,
        Err(error) => return Err(error),
    };
    if stored.is_positive() {
        let reversible = match stored.try_min(order.amount_captured) {
            Ok(reversible) => reversible,
            Err(error) => return Err(error),
        };
        let reversed = order.reverse_capture(reversible);
        assert(old(order).capture_reversed(reversible, *order, reversed));
        match reversed {
            Ok(_) => {},
            Err(error) => return Err(error),
        }
    }
    order.transition_to(OrderStatus::Canceled)
}

// Refunding.

/// Whether a refund with a key was already recorded on an order.
pub open spec fn repeated(order: Order, key: Seq<char>) -> bool {
    exists|i: int|
        0 <= i < order.refunds@.len() && (#[trigger] order.refunds@[i]).idempotency_key@ == key
}

/// Plan a refund; nothing where a refund with the same key was already made.
pub fn plan_refund(order: &Order, request: &RefundRequest) -> (plan: Result<
    Option<RefundPlan>,
    Error,
>)
    ensures
        if repeated(*order, request.idempotency_key@) {
            plan matches Ok(nothing) && nothing is None
        } else {
            match refund(*order, *request) {
                Err(error) => plan is Err && plan->Err_0@ == error,
                Ok(view) => plan matches Ok(Some(made)) && made@ == view,
            }
        },
{
    let mut n: usize = 0;
    while n < order.refunds.len()
        invariant
            n <= order.refunds@.len(),
            forall|i: int|
                0 <= i < n ==> (#[trigger] order.refunds@[i]).idempotency_key@
                    != request.idempotency_key@,
        decreases order.refunds@.len() - n,
    {
        if same_text(order.refunds[n].idempotency_key.as_str(), request.idempotency_key.as_str()) {
            assert(order.refunds@[n as int].idempotency_key@ == request.idempotency_key@);
            return Ok(None);
        }
        n += 1;
    }
    match RefundPlan::build(order, request) {
        Ok(plan) => Ok(Some(plan)),
        Err(error) => Err(error),
    }
}

/// The idempotency key of the refund of a gateway tender.
pub open spec fn gateway_refund_key(request_key: Seq<char>, index: nat) -> Seq<char> {
    request_key + ":"@ + digits(index)
}

/// The idempotency key of the refund of a gateway tender. A payment keeps what was refunded
/// under it: see [`Payment::refund_reference`].
pub fn key_of_refund(request: &RefundRequest, tender_index: usize) -> (key: String)
    ensures
        key@ == gateway_refund_key(request.idempotency_key@, tender_index as nat),
{
    let mut key = join(request.idempotency_key.as_str(), ":");
    push_digits(&mut key, tender_index as u64);
    key
}

/// The position of the first payment of a tender, or the length when there is none.
pub open spec fn payment_at(payments: Seq<Payment>, index: usize) -> int
    decreases payments.len(),
{
    if payments.len() == 0 || payments[0].tender_index == Some(index) {
        0
    } else {
        1 + payment_at(payments.drop_first(), index)
    }
}

proof fn lemma_payment_at(payments: Seq<Payment>, index: usize, at: int)
    requires
        0 <= at <= payments.len(),
        at < payments.len() ==> payments[at].tender_index == Some(index),
        forall|i: int| 0 <= i < at ==> (#[trigger] payments[i]).tender_index != Some(index),
    ensures
        payment_at(payments, index) == at,
    decreases payments.len(),
{
    if at > 0 {
        assert(payments[0].tender_index != Some(index));
        let rest = payments.drop_first();
        assert forall|i: int| 0 <= i < at - 1 implies (#[trigger] rest[i]).tender_index != Some(
            index,
        ) by {
            assert(rest[i] == payments[i + 1]);
        }
        lemma_payment_at(rest, index, at - 1);
    }
}

/// Find the payment of a tender.
pub fn find_payment(payments: &Vec<Payment>, tender_index: usize) -> (at: Result<usize, Error>)
    ensures
        ({
            let found = payment_at(payments@, tender_index);
            outcome(at) == if found < payments@.len() {
                Ok::<usize, ErrorView>(found as usize)
            } else {
                Err(
                    ErrorView::Internal(
                        "no payment found for tender "@ + digits(tender_index as nat),
                    ),
                )
            }
        }),
        at matches Ok(position) ==> position < payments@.len(),
{
    let mut at: usize = 0;
    while at < payments.len() && payments[at].tender_index != Some(tender_index)
        invariant
            at <= payments@.len(),
            forall|i: int|
                0 <= i < at ==> (#[trigger] payments@[i]).tender_index != Some(tender_index),
        ensures
            at < payments@.len() ==> payments@[at as int].tender_index == Some(tender_index),
        decreases payments@.len() - at,
    {
        at += 1;
    }
    proof {
        lemma_payment_at(payments@, tender_index, at as int);
    }
    if at < payments.len() {
        return Ok(at);
    }
    let mut message = "no payment found for tender ".to_owned();
    push_digits(&mut message, tender_index as u64);
    Err(Error::internal(message.as_str()))
}

/// Record a refund on an order, once every instrument has got its part back.
pub fn finish_refund(
    order: &mut Order,
    plan: RefundPlan,
    request: &RefundRequest,
    gateway_references: Vec<String>,
) -> (done: Result<(), Error>)
    ensures
        exists|record: RefundRecord| #[trigger]
            is_record(record, plan, *request, gateway_references@) && old(order).refund_recorded(
                record,
                *final(order),
                done,
            ),
        done is Ok ==> repeated(*final(order), request.idempotency_key@),
{
    let mut record = RefundRecord::new(plan, request);
    record.gateway_references = gateway_references;
    let ghost kept = record;
    assert(is_record(kept, plan, *request, gateway_references@));
    let done = order.record_refund(record);
    proof {
        if done is Ok {
            let last = order.refunds@.len() - 1;
            assert(order.refunds@[last] == kept);
        }
    }
    done
}

/// Whether a record is the one of a refund.
pub open spec fn is_record(
    record: RefundRecord,
    plan: RefundPlan,
    request: RefundRequest,
    references: Seq<String>,
) -> bool {
    &&& is_generated(record.id@, "re"@)
    &&& record.plan == plan
    &&& record.reason == request.reason
    &&& record.idempotency_key == request.idempotency_key
    &&& record.note == request.note
    &&& record.gateway_references@ == references
}

// What the engine prepares for a payment.

/// What preparing the capture of a payment's share gives.
pub open spec fn capture_planned(
    records: Map<Seq<char>, GatewayRecord>,
    payment: Payment,
    share: Money,
    now: Timestamp,
    planned: Result<Option<CaptureRequest>, Error>,
) -> bool {
    if share.minor <= 0 {
        planned matches Ok(nothing) && nothing is None
    } else {
        match lookup(records, payment.gateway@) {
            Err(error) => planned is Err && planned->Err_0@ == error,
            Ok(record) => match payment.capture_check(share, now) {
                Err(error) => planned is Err && planned->Err_0@ == error,
                Ok(_) => match able(record, required_for_capture(payment, share)) {
                    Err(error) => planned is Err && planned->Err_0@ == error,
                    Ok(_) => match payment.transaction_id {
                        None => planned is Err && planned->Err_0@ == ErrorView::Internal(
                            "payment has no transaction id"@,
                        ),
                        Some(transaction) => {
                            &&& planned matches Ok(Some(capture))
                            &&& capture.idempotency_key@ == payment.id@ + ":capture:"@
                                + digits(payment.captures@.len())
                            &&& capture.transaction_id == transaction
                            &&& capture.amount == share
                            &&& !capture.final_capture
                        },
                    },
                },
            },
        }
    }
}

/// What preparing the release of a payment's hold gives.
pub open spec fn cancel_planned(
    records: Map<Seq<char>, GatewayRecord>,
    payment: Payment,
    planned: Result<Option<CancelRequest>, Error>,
) -> bool {
    match payment.transaction_id {
        None => planned matches Ok(nothing) && nothing is None,
        Some(transaction) => if !payment.status.capturable() && !(
        payment.status is RequiresAction) {
            planned matches Ok(nothing) && nothing is None
        } else {
            match lookup(records, payment.gateway@) {
                Err(error) => planned is Err && planned->Err_0@ == error,
                Ok(_) => {
                    &&& planned matches Ok(Some(cancel))
                    &&& cancel.idempotency_key@ == payment.id@ + ":cancel"@
                    &&& cancel.transaction_id == transaction
                    &&& optional_text(cancel.reason) == Some("order canceled"@)
                },
            }
        },
    }
}

/// What preparing the release of a payment of a failed checkout gives.
pub open spec fn rollback_planned(
    records: Map<Seq<char>, GatewayRecord>,
    payment: Payment,
    planned: Option<CancelRequest>,
) -> bool {
    match payment.transaction_id {
        None => planned is None,
        Some(transaction) => if lookup(
            records,
            payment.gateway@,
        ) is Err {
            planned is None
        } else {
            &&& planned matches Some(cancel)
            &&& cancel.idempotency_key@ == payment.id@ + ":rollback"@
            &&& cancel.transaction_id == transaction
            &&& optional_text(cancel.reason) == Some("checkout failed"@)
        },
    }
}

/// What preparing the refund of a gateway tender through its payment gives.
pub open spec fn refund_planned(
    records: Map<Seq<char>, GatewayRecord>,
    connected: bool,
    request: RefundRequest,
    tender: TenderRefund,
    payment: Payment,
    planned: Result<GatewayRefundRequest, Error>,
) -> bool {
    match payment.transaction_id {
        None => planned is Err && planned->Err_0@ == ErrorView::Internal(
            "payment has no transaction id"@,
        ),
        Some(transaction) => match lookup(records, payment.gateway@) {
            Err(error) => planned is Err && planned->Err_0@ == error,
            Ok(record) => match able(record, required_for_refund(payment, tender.amount)) {
                Err(error) => planned is Err && planned->Err_0@ == error,
                Ok(_) => {
                    &&& planned matches Ok(refund)
                    &&& refund.idempotency_key@ == gateway_refund_key(
                        request.idempotency_key@,
                        tender.tender_index as nat,
                    )
                    &&& refund.transaction_id == transaction
                    &&& refund.amount == tender.amount
                    &&& refund.reason == request.reason
                    &&& refund.reverse_transfers == connected
                    &&& refund.refund_application_fee == request.refund_platform_fee
                    &&& refund.metadata@ == Map::<Seq<char>, String>::empty()
                },
            },
        },
    }
}

/// Orchestrates the whole payment lifecycle.
#[derive(Clone)]
pub struct CheckoutEngine {
    gateways: GatewayRegistry,
    config: CheckoutConfig,
}

impl CheckoutEngine {
    /// The gateways in use.
    pub closed spec fn registry(self) -> GatewayRegistry {
        self.gateways
    }

    /// The configuration in use.
    pub closed spec fn settings(self) -> CheckoutConfig {
        self.config
    }

    /// Build an engine with the default policy.
    pub fn new(gateways: GatewayRegistry) -> (engine: Self)
        ensures
            engine.registry() == gateways,
            engine.settings().capture_mode == CaptureMode::Automatic,
            !engine.settings().use_connected_accounts,
            engine.settings().statement_descriptor is None,
            engine.settings().platform_fee == (PlatformFeePolicy {
                percentage_basis_points: 0,
                fixed_per_shop: None,
                include_tax_in_base: false,
                rounding: crate::money::Rounding::HalfUp,
            }),
            engine.settings().accounts@ == Map::<Seq<char>, crate::ids::AccountId>::empty(),
    {
        CheckoutEngine { gateways, config: CheckoutConfig::default() }
    }

    /// Builder: set the engine policy.
    pub fn with_config(self, config: CheckoutConfig) -> (engine: Self)
        ensures
            engine.registry() == self.registry(),
            engine.settings() == config,
    {
        CheckoutEngine { gateways: self.gateways, config }
    }

    /// The configuration in use.
    pub fn config(&self) -> (config: &CheckoutConfig)
        ensures
            *config == self.settings(),
    {
        &self.config
    }

    /// The gateways in use.
    pub fn gateways(&self) -> (gateways: &GatewayRegistry)
        ensures
            *gateways == self.registry(),
    {
        &self.gateways
    }

    /// Create the order of a priced cart: decide how the total is funded and who gets paid.
    pub fn place(&self, cart: &Cart, quote: Quote, offers: &[TenderOffer]) -> (order: Result<
        Order,
        Error,
    >)
        ensures
            exists|plan: Result<TenderPlan, Error>, settlement: Result<SettlementPlan, Error>|
                funding_result(quote, offers@, plan) && plan_result(
                    quote,
                    self.settings().accounts@,
                    self.settings().platform_fee,
                    settlement,
                ) && #[trigger] placing(*cart, quote, plan, settlement, order),
    {
        let plan = TenderPlan::build(&quote, offers);
        let settlement = SettlementPlan::from_quote(
            &quote,
            &self.config.accounts,
            &self.config.platform_fee,
        );
        let ghost planned = plan;
        let ghost settled = settlement;
        let ghost priced = quote;
        let tenders = match plan {
            Ok(tenders) => tenders,
            Err(error) => {
                let order = Err(error);
                assert(placing(*cart, priced, planned, settled, order));
                return order;
            },
        };
        let split = match settlement {
            Ok(split) => split,
            Err(error) => {
                let order = Err(error);
                assert(placing(*cart, priced, planned, settled, order));
                return order;
            },
        };
        let mut order = match Order::from_quote(cart, quote, split, &tenders) {
            Ok(order) => order,
            Err(error) => {
                let order = Err(error);
                assert(placing(*cart, priced, planned, settled, order));
                return order;
            },
        };
        match order.transition_to(OrderStatus::PendingPayment) {
            Ok(_) => {},
            Err(error) => return Err(error),
        }
        let order = Ok(order);
        assert(placing(*cart, priced, planned, settled, order));
        order
    }

    fn route(&self, gateway: &GatewayId, cart: &Cart, currency: Currency, mode: CaptureMode) -> (
    record: Result<&GatewayRecord, Error>)
        ensures
            ({
                let route = route_of(
                    self.registry().records(),
                    gateway@,
                    currency,
                    mode,
                    self.settings().use_connected_accounts,
                );
                match record {
                    Ok(found) => route == Ok::<GatewayRecord, ErrorView>(*found),
                    Err(error) => route == Err::<GatewayRecord, ErrorView>(error@),
                }
            }),
    {
        let mut required: Vec<&'static str> = Vec::new();
        if mode == CaptureMode::Manual {
            required.push("delayed_capture");
        }
        if self.config.use_connected_accounts {
            required.push("connected_accounts");
            required.push("application_fees");
        }
        assert(required@ =~= required_of(mode, self.settings().use_connected_accounts));
        let context = RoutingContext {
            currency: Some(currency),
            country: read_country(&cart.billing_address),
            required_capabilities: required,
            preferred: Some(gateway.clone()),
        };
        self.gateways.route(&context)
    }

    /// Prepare the charge of one tender of an order; nothing for stored value.
    pub fn plan_charge(&self, cart: &Cart, order: &Order, index: usize, request: &CheckoutRequest) -> (
    planned: Result<Option<PlannedCharge>, Error>)
        requires
            index < order.tenders@.len(),
        ensures
            charge_planned(
                self.registry().records(),
                self.settings(),
                *cart,
                *order,
                index as int,
                *request,
                planned,
            ),
    {
        let tender = &order.tenders[index];
        let mode = match request.capture_mode {
            Some(mode) => mode,
            None => self.config.capture_mode,
        };
        match &tender.kind {
            TenderKind::Gateway { gateway, payment_method_id, instrument, label } => {
                let record = match self.route(gateway, cart, order.currency, mode) {
                    Ok(record) => record,
                    Err(error) => return Err(error),
                };
                let mut key = join(request.idempotency_key.as_str(), ":tender:");
                push_digits(&mut key, index as u64);
                let mut payment = Payment::new(
                    order.id.clone(),
                    record.id.clone(),
                    tender.amount,
                    key.as_str(),
                    label.as_str(),
                );
                payment.tender_index = Some(index);
                payment.shop_allocation = copy_amounts(&tender.shop_allocation);
                if let Some(id) = payment_method_id {
                    payment.metadata.insert("payment_method_id".to_owned(), id.to_text());
                    assert(payment.metadata@.dom() =~= Set::empty().insert("payment_method_id"@));
                }
                let mut charge = AuthorizeRequest::new(
                    key.as_str(),
                    tender.amount,
                    instrument.clone(),
                ).for_order(order.id.clone());
                charge.customer_id = cart.customer_id.clone();
                charge.capture_mode = mode;
                charge.initiator = request.initiator;
                charge.statement_descriptor = self.config.statement_descriptor.clone();
                charge.description = Some(join("Order ", order.id.as_str()));
                assert(transfer_views(charge.transfers@) =~= Seq::<TransferView>::empty());
                if self.config.use_connected_accounts {
                    charge.transfers =
                    match transfers_for(order, tender.amount) {
                        Ok(transfers) => transfers,
                        Err(error) => return Err(error),
                    };
                    charge.application_fee =
                    match fee_for(order, tender.amount) {
                        Ok(fee) => Some(fee),
                        Err(error) => return Err(error),
                    };
                }
                assert(is_charge(
                    charge,
                    *cart,
                    *order,
                    index as int,
                    *request,
                    self.settings(),
                ));
                match charge.validate() {
                    Ok(_) => Ok(Some(PlannedCharge { payment, charge })),
                    Err(error) => Err(error),
                }
            },
            _ => Ok(None),
        }
    }

    /// Prepare the capture of a payment's share; nothing for a share of nothing.
    pub fn plan_capture(&self, payment: &Payment, share: Money, now: Timestamp) -> (
    planned: Result<Option<CaptureRequest>, Error>)
        ensures
            capture_planned(self.registry().records(), *payment, share, now, planned),
    {
        if !share.is_positive() {
            return Ok(None);
        }
        let record = match self.gateways.get(&payment.gateway) {
            Ok(record) => record,
            Err(error) => return Err(error),
        };
        match payment.check_capture(share, now) {
            Ok(_) => {},
            Err(error) => return Err(error),
        }
        let mut required: Vec<&'static str> = Vec::new();
        if let Ok(held) = payment.capturable_amount() {
            if held.exceeds(share) {
                required.push("partial_capture");
            }
        }
        if !payment.amount_captured.is_zero() {
            required.push("multi_capture");
        }
        assert(required@ =~= required_for_capture(*payment, share));
        match require_all(record, &required) {
            Ok(_) => {},
            Err(error) => return Err(error),
        }
        let transaction_id = match &payment.transaction_id {
            Some(id) => id.clone(),
            None => return Err(Error::internal("payment has no transaction id")),
        };
        let mut idempotency_key = join(payment.id.as_str(), ":capture:");
        push_digits(&mut idempotency_key, payment.captures.len() as u64);
        Ok(
            Some(
                CaptureRequest {
                    idempotency_key,
                    transaction_id,
                    amount: share,
                    final_capture: false,
                },
            ),
        )
    }

    /// Prepare the release of a payment's hold; nothing where nothing is held.
    pub fn plan_cancel(&self, payment: &Payment) -> (planned: Result<Option<CancelRequest>, Error>)
        ensures
            cancel_planned(self.registry().records(), *payment, planned),
    {
        let transaction_id = match &payment.transaction_id {
            Some(id) => id.clone(),
            None => return Ok(None),
        };
        if !payment.status.is_capturable() && payment.status != PaymentStatus::RequiresAction {
            return Ok(None);
        }
        match self.gateways.get(&payment.gateway) {
            Ok(_) => {},
            Err(error) => return Err(error),
        }
        Ok(
            Some(
                CancelRequest {
                    idempotency_key: join(payment.id.as_str(), ":cancel"),
                    transaction_id,
                    reason: Some("order canceled".to_owned()),
                },
            ),
        )
    }

    /// Prepare the release of a payment of a checkout that failed; nothing where there is no
    /// transaction, or no gateway to tell.
    pub fn plan_rollback(&self, payment: &Payment) -> (planned: Option<CancelRequest>)
        ensures
            rollback_planned(self.registry().records(), *payment, planned),
    {
        let transaction_id = match &payment.transaction_id {
            Some(id) => id.clone(),
            None => return None,
        };
        match self.gateways.get(&payment.gateway) {
            Ok(_) => {},
            Err(_) => return None,
        }
        Some(
            CancelRequest {
                idempotency_key: join(payment.id.as_str(), ":rollback"),
                transaction_id,
                reason: Some("checkout failed".to_owned()),
            },
        )
    }

    /// Prepare the refund of a gateway tender through its payment.
    pub fn plan_gateway_refund(
        &self,
        request: &RefundRequest,
        tender: &TenderRefund,
        payment: &Payment,
    ) -> (planned: Result<GatewayRefundRequest, Error>)
        ensures
            refund_planned(
                self.registry().records(),
                self.settings().use_connected_accounts,
                *request,
                *tender,
                *payment,
                planned,
            ),
    {
        let transaction_id = match &payment.transaction_id {
            Some(id) => id.clone(),
            None => return Err(Error::internal("payment has no transaction id")),
        };
        let record = match self.gateways.get(&payment.gateway) {
            Ok(record) => record,
            Err(error) => return Err(error),
        };
        let mut required: Vec<&'static str> = Vec::new();
        required.push("refunds");
        if let Ok(rest) = payment.refundable_amount() {
            if rest.exceeds(tender.amount) {
                required.push("partial_refunds");
            }
        }
        assert(required@ =~= required_for_refund(*payment, tender.amount));
        match require_all(record, &required) {
            Ok(_) => {},
            Err(error) => return Err(error),
        }
        Ok(
            GatewayRefundRequest {
                idempotency_key: key_of_refund(request, tender.tender_index),
                transaction_id,
                amount: tender.amount,
                reason: request.reason,
                reverse_transfers: self.config.use_connected_accounts,
                refund_application_fee: request.refund_platform_fee,
                metadata: Metadata::new(),
            },
        )
    }
}

proof fn lemma_capable(record: GatewayRecord, required: Seq<&'static str>, n: int, i: int)
    requires
        0 <= i < n,
        capable(record, required, n) is Ok,
    ensures
        record.capabilities.offers(required[i]@) == Some(true),
    decreases n,
{
    if i < n - 1 {
        lemma_capable(record, required, n - 1, i);
    }
}

/// What a gateway cannot do is found out before anything is asked of it: where its
/// capabilities were checked, it offers each that the operation needs.
pub proof fn law_capabilities_are_checked_first(
    record: GatewayRecord,
    required: Seq<&'static str>,
    i: int,
)
    requires
        able(record, required) is Ok,
        0 <= i < required.len(),
    ensures
        record.capabilities.offers(required[i]@) == Some(true),
{
    lemma_capable(record, required, required.len() as int, i);
}

/// Retrying a checkout is safe at the gateways: under the same key a tender is charged under
/// the same key again, and no two tenders share one.
pub proof fn law_retries_reuse_their_keys(
    key: Seq<char>,
    first: PlannedCharge,
    first_order: Order,
    first_cart: Cart,
    first_request: CheckoutRequest,
    first_config: CheckoutConfig,
    i: int,
    second: PlannedCharge,
    second_order: Order,
    second_cart: Cart,
    second_request: CheckoutRequest,
    second_config: CheckoutConfig,
    j: int,
)
    requires
        0 <= i,
        0 <= j,
        first_request.idempotency_key@ == key,
        second_request.idempotency_key@ == key,
        is_charge(first.charge, first_cart, first_order, i, first_request, first_config),
        is_charge(second.charge, second_cart, second_order, j, second_request, second_config),
    ensures
        first.charge.idempotency_key@ == second.charge.idempotency_key@ <==> i == j,
{
    lemma_digits(i as nat);
    lemma_digits(j as nat);
    let head = key + ":tender:"@;
    let a = charge_key(key, i as nat);
    let b = charge_key(key, j as nat);
    assert(a.skip(head.len() as int) =~= digits(i as nat));
    assert(b.skip(head.len() as int) =~= digits(j as nat));
}

/// A refund that was recorded is not made again: asking for it a second time, under the
/// same key, plans nothing.
pub proof fn law_refunds_are_made_once(
    order: Order,
    record: RefundRecord,
    after: Order,
    done: Result<(), Error>,
)
    requires
        order.refund_recorded(record, after, done),
        done is Ok,
    ensures
        repeated(after, record.idempotency_key@),
        forall|key: Seq<char>| repeated(order, key) ==> #[trigger] repeated(after, key),
{
    let last = after.refunds@.len() - 1;
    assert(after.refunds@[last] == record);
    assert forall|key: Seq<char>| repeated(order, key) implies #[trigger] repeated(after, key) by {
        let i = choose|i: int|
            0 <= i < order.refunds@.len() && (#[trigger] order.refunds@[i]).idempotency_key@ == key;
        assert(after.refunds@[i] == order.refunds@[i]);
    }
}

/// The parts of a capture add up to the captured amount, and none is more than its payment
/// still holds.
pub proof fn law_captures_stay_within_their_holds(
    order: Order,
    payments: Seq<Payment>,
    amount: Money,
    i: int,
)
    requires
        capture_split(order, payments, amount) is Ok,
        amount.minor >= 0,
        amount.currency == order.currency,
        0 <= i < payments.len(),
    ensures
        ({
            let shares = capture_split(order, payments, amount)->Ok_0;
            &&& shares.len() == payments.len()
            &&& crate::sums::sum(crate::money::minors(shares)) == amount.minor
            &&& 0 <= shares[i].minor <= held_of(payments[i], order.currency).minor
        }),
{
    let held = held_amounts(payments, order.currency);
    crate::money::allocation::law_good_weights(amount, held);
    crate::money::allocation::law_allocation_succeeds(amount, crate::money::minors(held));
    crate::money::law_total_is_the_sum(held, order.currency);
    crate::money::allocation::law_parts_stay_within_their_weights(
        amount.minor as int,
        crate::money::minors(held),
        i,
    );
    assert(held[i] == held_of(payments[i], order.currency));
}

/// A cancelled order of which only stored value had been collected holds nothing any more.
pub proof fn law_cancelled_orders_hold_nothing(order: Order, after: Order, done: Result<(), Error>)
    requires
        canceled(order, after, done),
        done is Ok,
        order.amount_captured.currency == order.currency,
        0 <= order.amount_captured.minor,
        total(stored_amounts(order.tenders@), order.currency) matches Ok(stored)
            && order.amount_captured.minor <= stored.minor,
    ensures
        after.status is Canceled,
        after.amount_captured.minor == 0,
{
}

} // verus!
