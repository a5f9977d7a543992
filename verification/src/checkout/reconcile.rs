//! Orders and payments that change out of band.
//!
//! Asynchronous flows — a 3-D Secure challenge finishing, a bank debit
//! settling, an authorisation lapsing — complete out of band, and the webhook
//! is the only notification you get.

use vstd::prelude::*;

use crate::error::{outcome, Error, ErrorView};
use crate::gateway::registry::lookup;
use crate::gateway::{AuthorizeResponse, GatewayEvent, GatewayEventKind, GatewayRegistry};
use crate::money::Money;
use crate::order::{Order, OrderStatus};
use crate::payment::Payment;
use crate::text::optional_text;

verus! {

/// What a verified webhook asks for.
#[derive(Debug, Clone, Copy, PartialEq, Eq, Structural)]
pub enum WebhookAction {
    /// Nothing: acknowledge it.
    Acknowledge,
    /// Read the transaction from the gateway again and fold its state into the payment.
    Refetch,
    /// Record the payment as failed, and the order with it.
    Fail,
    /// Record the authorisation as released.
    Cancel,
    /// Record the authorisation as lapsed.
    Expire,
}

/// What an event about a known payment asks for.
pub open spec fn action_of(kind: GatewayEventKind) -> WebhookAction {
    match kind {
        GatewayEventKind::PaymentAuthorized => WebhookAction::Refetch,
        GatewayEventKind::PaymentCaptured => WebhookAction::Refetch,
        GatewayEventKind::PaymentFailed => WebhookAction::Fail,
        GatewayEventKind::PaymentCanceled => WebhookAction::Cancel,
        GatewayEventKind::AuthorizationExpired => WebhookAction::Expire,
        _ => WebhookAction::Acknowledge,
    }
}

/// Reconciles orders and payments from verified gateway webhooks.
///
/// The handler re-reads the transaction from the gateway rather than trusting
/// the amounts in the event body, so an out-of-order or replayed delivery still
/// converges on the provider's current truth.
#[derive(Clone)]
pub struct OrderWebhookHandler {
    gateways: GatewayRegistry,
}

impl OrderWebhookHandler {
    /// The gateways in use.
    pub closed spec fn registry(self) -> GatewayRegistry {
        self.gateways
    }

    /// Build a handler over the same registry as the engine.
    pub fn new(gateways: GatewayRegistry) -> (handler: Self)
        ensures
            handler.registry() == gateways,
    {
        OrderWebhookHandler { gateways }
    }

    /// What an event asks for, given the payment that its transaction belongs to. An event
    /// without a transaction, or about a payment we do not know, is acknowledged: retrying
    /// will not make it ours.
    pub fn handle(&self, event: &GatewayEvent, payment: Option<&Payment>) -> (action: Result<
        WebhookAction,
        Error,
    >)
        ensures
            outcome(action) == match payment {
                None => Ok::<WebhookAction, ErrorView>(WebhookAction::Acknowledge),
                Some(known) => if event.transaction_id is None {
                    Ok(WebhookAction::Acknowledge)
                } else if action_of(event.kind) is Refetch {
                    match lookup(self.registry().records(), known.gateway@) {
                        Err(error) => Err(error),
                        Ok(_) => Ok(WebhookAction::Refetch),
                    }
                } else {
                    Ok(action_of(event.kind))
                },
            },
    {
        let known = match payment {
            Some(known) => known,
            None => return Ok(WebhookAction::Acknowledge),
        };
        if event.transaction_id.is_none() {
            return Ok(WebhookAction::Acknowledge);
        }
        match &event.kind {
            GatewayEventKind::PaymentAuthorized | GatewayEventKind::PaymentCaptured => {
                match self.gateways.get(&known.gateway) {
                    Ok(_) => Ok(WebhookAction::Refetch),
                    Err(error) => Err(error),
                }
            },
            GatewayEventKind::PaymentFailed => Ok(WebhookAction::Fail),
            GatewayEventKind::PaymentCanceled => Ok(WebhookAction::Cancel),
            GatewayEventKind::AuthorizationExpired => Ok(WebhookAction::Expire),
            // Refunds and disputes are driven from our side or handled by a
            // dedicated handler; acknowledging keeps the provider from retrying.
            _ => Ok(WebhookAction::Acknowledge),
        }
    }
}

/// What an amount has grown by, where it has.
pub open spec fn gain(before: Money, after: Money) -> Result<Option<Money>, ErrorView> {
    match after.minus(before) {
        Err(error) => Err(error),
        Ok(more) => if more.minor > 0 {
            Ok(Some(more))
        } else {
            Ok(None)
        },
    }
}

/// What a payment has captured beyond an earlier amount, where it has.
pub fn newly_captured(before: Money, payment: &Payment) -> (delta: Result<Option<Money>, Error>)
    ensures
        outcome(delta) == gain(before, payment.amount_captured),
{
    let more = match payment.amount_captured.try_sub(before) {
        Ok(more) => more,
        Err(error) => return Err(error),
    };
    if more.is_positive() {
        Ok(Some(more))
    } else {
        Ok(None)
    }
}

/// Record that the gateway reported a payment as failed.
pub fn fail_payment(payment: &mut Payment)
    ensures
        (Payment {
            status: crate::payment::PaymentStatus::Failed,
            failure_message: final(payment).failure_message,
            next_action: None,
            ..*old(payment)
        }).touched(*final(payment)),
        optional_text(final(payment).failure_message) == Some(
            "the gateway reported the payment as failed"@,
        ),
{
    payment.record_failure("the gateway reported the payment as failed");
}

/// Fail an order whose payment failed; whether it changed its state. An order that is
/// beyond failing stays as it is.
pub fn fail_order(order: &mut Order) -> (allowed: bool)
    ensures
        allowed == (old(order).status is Failed || old(order).status.may_become(
            OrderStatus::Failed,
        )),
        allowed ==> old(order).moved(OrderStatus::Failed, *final(order), Ok(())),
        !allowed ==> *final(order) == *old(order),
{
    order.transition_to(OrderStatus::Failed).is_ok()
}

/// A replayed delivery converges on the provider's current truth: folding the same state into
/// a payment again changes none of its figures, and captures nothing more.
pub proof fn law_replays_converge(
    payment: Payment,
    state: AuthorizeResponse,
    once: Payment,
    twice: Payment,
)
    requires
        payment.authorized(state, once),
        once.authorized(state, twice),
    ensures
        twice.transaction_id == once.transaction_id,
        twice.amount_authorized == once.amount_authorized,
        twice.amount_captured == once.amount_captured,
        twice.amount_refunded == once.amount_refunded,
        twice.status == once.status,
        twice.confirmed == once.confirmed,
        twice.captures@ == once.captures@,
        twice.next_action == once.next_action,
        twice.amount_captured.minus(once.amount_captured) == Ok::<Money, ErrorView>(
            Money { minor: 0, currency: state.amount_captured.currency },
        ),
{
}

/// Which events change a payment, and how: success is read again from the gateway, failure,
/// cancellation and expiry are taken at its word, and everything else is acknowledged.
pub proof fn law_events_are_acted_on(kind: GatewayEventKind)
    ensures
        action_of(kind) is Refetch <==> kind is PaymentAuthorized || kind is PaymentCaptured,
        action_of(kind) is Fail <==> kind is PaymentFailed,
        action_of(kind) is Cancel <==> kind is PaymentCanceled,
        action_of(kind) is Expire <==> kind is AuthorizationExpired,
{
}

/// What a delivery adds is what was captured since, and nothing where nothing was.
pub proof fn law_gains_are_what_came_since(before: Money, after: Money)
    requires
        0 <= before.minor,
        0 <= after.minor,
        before.currency == after.currency,
    ensures
        gain(before, after) is Ok,
        gain(before, after)->Ok_0 is Some <==> after.minor > before.minor,
        gain(before, after)->Ok_0 is Some ==> gain(before, after)->Ok_0->Some_0.minor
            == after.minor - before.minor,
{
}

} // verus!
