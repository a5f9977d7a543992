//! Payment attempts: authorisation, confirmation, capture and cancellation.

pub mod dispute;
pub mod method;
pub mod refund;
pub mod refund_laws;
pub mod split;
pub mod tender;

pub use dispute::{Dispute, DisputeStatus};
pub use method::{CardSummary, ChargeInitiator, PaymentMethodKind, PaymentMethodRef};
pub use refund::{RefundPlan, RefundRecord, RefundRequest, RefundScope, ShopRefund, TenderRefund};
pub use split::{FunderCharge, PlatformFeePolicy, SettlementPlan, ShopAccounts, ShopSettlement};
pub use tender::{PlannedTender, TenderKind, TenderOffer, TenderPlan};

use vstd::prelude::*;

use crate::cart::next_version;
use crate::collections::OrderedMap;
use crate::error::{outcome, Error, ErrorView};
use crate::gateway::{AuthorizeResponse, CaptureResponse, GatewayId, NextAction, TransactionStatus};
use crate::ids::{is_generated, CaptureId, FulfillmentGroupId, OrderId, PaymentId};
use crate::money::Money;
use crate::text::{join, join3, optional_text};
use crate::time::{Duration, Timestamp};
use crate::Metadata;

verus! {

/// Where a payment attempt is in its lifecycle.
#[derive(Debug, Clone, Copy, PartialEq, Eq, Hash, Structural)]
pub enum PaymentStatus {
    /// Created but not yet sent to the gateway.
    Created,
    /// The shopper must complete 3-D Secure or a redirect.
    RequiresAction,
    /// Funds are held, and the merchant has not yet approved capture.
    Authorized,
    /// Some of the hold has been captured; more may follow.
    PartiallyCaptured,
    /// The full amount has been captured.
    Captured,
    /// The hold was released.
    Canceled,
    /// The attempt failed or was declined.
    Failed,
    /// The hold lapsed before it was captured.
    Expired,
}

impl PaymentStatus {
    /// The name of the status.
    pub open spec fn name(self) -> Seq<char> {
        match self {
            PaymentStatus::Created => "Created"@,
            PaymentStatus::RequiresAction => "RequiresAction"@,
            PaymentStatus::Authorized => "Authorized"@,
            PaymentStatus::PartiallyCaptured => "PartiallyCaptured"@,
            PaymentStatus::Captured => "Captured"@,
            PaymentStatus::Canceled => "Canceled"@,
            PaymentStatus::Failed => "Failed"@,
            PaymentStatus::Expired => "Expired"@,
        }
    }

    /// Whether funds can still be captured from this payment.
    pub open spec fn capturable(self) -> bool {
        self is Authorized || self is PartiallyCaptured
    }

    /// Whether the payment can no longer change.
    pub open spec fn final_state(self) -> bool {
        self is Captured || self is Canceled || self is Failed || self is Expired
    }

    /// The payment status that a gateway transaction status stands for.
    pub open spec fn of(status: TransactionStatus, fully_captured: bool) -> PaymentStatus {
        match status {
            TransactionStatus::RequiresAction => PaymentStatus::RequiresAction,
            TransactionStatus::Pending => PaymentStatus::RequiresAction,
            TransactionStatus::Authorized => PaymentStatus::Authorized,
            TransactionStatus::Captured => PaymentStatus::Captured,
            TransactionStatus::PartiallyCaptured => if fully_captured {
                PaymentStatus::Captured
            } else {
                PaymentStatus::PartiallyCaptured
            },
            TransactionStatus::Canceled => PaymentStatus::Canceled,
            TransactionStatus::Failed => PaymentStatus::Failed,
        }
    }

    /// The name of the status.
    pub fn as_str(self) -> (name: &'static str)
        ensures
            name@ == self.name(),
    {
        match self {
            PaymentStatus::Created => "Created",
            PaymentStatus::RequiresAction => "RequiresAction",
            PaymentStatus::Authorized => "Authorized",
            PaymentStatus::PartiallyCaptured => "PartiallyCaptured",
            PaymentStatus::Captured => "Captured",
            PaymentStatus::Canceled => "Canceled",
            PaymentStatus::Failed => "Failed",
            PaymentStatus::Expired => "Expired",
        }
    }

    /// Whether funds can still be captured from this payment.
    pub fn is_capturable(self) -> (capturable: bool)
        ensures
            capturable == self.capturable(),
    {
        match self {
            PaymentStatus::Authorized | PaymentStatus::PartiallyCaptured => true,
            _ => false,
        }
    }

    /// Whether the payment can no longer change.
    pub fn is_terminal(self) -> (terminal: bool)
        ensures
            terminal == self.final_state(),
    {
        match self {
            PaymentStatus::Captured | PaymentStatus::Canceled | PaymentStatus::Failed
            | PaymentStatus::Expired => true,
            _ => false,
        }
    }

    /// Map a gateway transaction status onto a payment status.
    pub fn from_transaction(status: TransactionStatus, fully_captured: bool) -> (mapped: Self)
        ensures
            mapped == PaymentStatus::of(status, fully_captured),
    {
        match status {
            TransactionStatus::RequiresAction | TransactionStatus::Pending => {
                PaymentStatus::RequiresAction
            },
            TransactionStatus::Authorized => PaymentStatus::Authorized,
            TransactionStatus::Captured => PaymentStatus::Captured,
            TransactionStatus::PartiallyCaptured => {
                if fully_captured {
                    PaymentStatus::Captured
                } else {
                    PaymentStatus::PartiallyCaptured
                }
            },
            TransactionStatus::Canceled => PaymentStatus::Canceled,
            TransactionStatus::Failed => PaymentStatus::Failed,
        }
    }
}

/// One capture against an authorisation.
#[derive(Debug, Clone, PartialEq)]
pub struct Capture {
    /// Our identifier.
    pub id: CaptureId,
    /// The gateway's identifier for this capture.
    pub gateway_reference: String,
    /// Amount taken.
    pub amount: Money,
    /// Whether this capture closed the authorisation.
    pub final_capture: bool,
    /// When it happened.
    pub captured_at: Timestamp,
    /// Which fulfilment triggered it, when capture follows delivery.
    pub fulfillment_group_id: Option<FulfillmentGroupId>,
}

/// A single payment attempt against one gateway tender.
#[derive(Debug, Clone, PartialEq)]
pub struct Payment {
    /// Identifier.
    pub id: PaymentId,
    /// The order being paid.
    pub order_id: OrderId,
    /// Gateway handling the charge.
    pub gateway: GatewayId,
    /// Gateway transaction identifier, once the authorisation exists.
    pub transaction_id: Option<String>,
    /// Idempotency key used for the authorisation.
    pub idempotency_key: String,
    /// Amount the payment was created for.
    pub amount: Money,
    /// Amount actually authorised.
    pub amount_authorized: Money,
    /// Amount captured so far.
    pub amount_captured: Money,
    /// Amount refunded so far.
    pub amount_refunded: Money,
    /// Lifecycle state.
    pub status: PaymentStatus,
    /// Captures made against the authorisation.
    pub captures: Vec<Capture>,
    /// Whether the merchant has approved capturing the held funds.
    ///
    /// Required before [`Payment::record_capture`] will accept anything, which
    /// implements the "merchant must explicitly confirm before capture" rule.
    pub confirmed: bool,
    /// When the hold lapses.
    pub authorization_expires_at: Option<Timestamp>,
    /// Outstanding shopper action, if any.
    pub next_action: Option<NextAction>,
    /// Receipt label for the instrument used.
    pub instrument_label: String,
    /// Index of the tender in the order that this payment settles.
    pub tender_index: Option<usize>,
    /// How this payment's amount maps onto shops, copied from the tender plan.
    pub shop_allocation: OrderedMap<Money>,
    /// Why the payment failed, if it did.
    pub failure_message: Option<String>,
    /// Free-form data.
    pub metadata: Metadata,
    /// Creation time.
    pub created_at: Timestamp,
    /// Last update.
    pub updated_at: Timestamp,
    /// Optimistic concurrency token.
    pub version: u64,
}

impl Payment {
    /// What is still capturable from the authorisation.
    pub open spec fn capturable(self) -> Result<Money, ErrorView> {
        if !self.status.capturable() {
            Ok(Money { minor: 0, currency: self.amount.currency })
        } else {
            self.amount_authorized.minus(self.amount_captured)
        }
    }

    /// What is still refundable.
    pub open spec fn refundable(self) -> Result<Money, ErrorView> {
        self.amount_captured.minus(self.amount_refunded)
    }

    /// Whether the authorisation has lapsed at `now`.
    pub open spec fn lapsed(self, now: Timestamp) -> bool {
        match self.authorization_expires_at {
            Some(expiry) => self.status.capturable() && !now.before(expiry),
            None => false,
        }
    }

    /// The refusal of a step to a state named `to`.
    pub open spec fn no_transition(self, to: Seq<char>) -> ErrorView {
        ErrorView::InvalidTransition {
            kind: "payment"@,
            id: self.id@,
            from: self.status.name(),
            to,
        }
    }

    /// The payment after a change that recorded itself.
    pub open spec fn touched(self, after: Payment) -> bool {
        after == (Payment {
            updated_at: after.updated_at,
            version: next_version(self.version),
            ..self
        })
    }

    /// Whether a capture may be sent to the gateway, and otherwise why not.
    pub open spec fn capture_check(self, amount: Money, now: Timestamp) -> Result<(), ErrorView> {
        if !self.status.capturable() {
            Err(self.no_transition("captured"@))
        } else if !self.confirmed {
            Err(
                ErrorView::Validation(
                    "the capture must be confirmed by the merchant before funds are taken"@,
                ),
            )
        } else if self.lapsed(now) {
            Err(
                ErrorView::Validation(
                    "the authorization has expired; re-authorize the payment before capturing"@,
                ),
            )
        } else if amount.minor <= 0 {
            Err(ErrorView::Validation("capture amount must be positive"@))
        } else {
            match self.capturable() {
                Err(error) => Err(error),
                Ok(left) => if amount.more_than(left) {
                    Err(
                        ErrorView::Validation(
                            "cannot capture "@ + amount.text() + ": only "@ + left.text()
                                + " remains authorized"@,
                        ),
                    )
                } else {
                    Ok(())
                },
            }
        }
    }

    /// Create a payment for one gateway tender, before contacting the gateway.
    pub fn new(
        order_id: OrderId,
        gateway: GatewayId,
        amount: Money,
        idempotency_key: &str,
        instrument_label: &str,
    ) -> (payment: Self)
        ensures
            is_generated(payment.id@, "pay"@),
            payment.order_id == order_id,
            payment.gateway == gateway,
            payment.transaction_id is None,
            payment.idempotency_key@ == idempotency_key@,
            payment.amount == amount,
            payment.amount_authorized == (Money { minor: 0, currency: amount.currency }),
            payment.amount_captured == (Money { minor: 0, currency: amount.currency }),
            payment.amount_refunded == (Money { minor: 0, currency: amount.currency }),
            payment.status == PaymentStatus::Created,
            payment.captures@.len() == 0,
            !payment.confirmed,
            payment.authorization_expires_at is None,
            payment.next_action is None,
            payment.instrument_label@ == instrument_label@,
            payment.tender_index is None,
            payment.shop_allocation@ == Map::<Seq<char>, Money>::empty(),
            payment.failure_message is None,
            payment.metadata@ == Map::<Seq<char>, String>::empty(),
            payment.version == 0,
            payment.sound(),
    {
        let now = Timestamp::now();
        let zero = Money::zero(amount.currency());
        Payment {
            id: PaymentId::new(),
            order_id,
            gateway,
            transaction_id: None,
            idempotency_key: idempotency_key.to_owned(),
            amount,
            amount_authorized: zero,
            amount_captured: zero,
            amount_refunded: zero,
            status: PaymentStatus::Created,
            captures: Vec::new(),
            confirmed: false,
            authorization_expires_at: None,
            next_action: None,
            instrument_label: instrument_label.to_owned(),
            tender_index: None,
            shop_allocation: OrderedMap::new(),
            failure_message: None,
            metadata: Metadata::new(),
            created_at: now,
            updated_at: now,
            version: 0,
        }
    }

    /// Amount still capturable from the authorisation.
    pub fn capturable_amount(&self) -> (amount: Result<Money, Error>)
        ensures
            outcome(amount) == self.capturable(),
    {
        if !self.status.is_capturable() {
            return Ok(Money::zero(self.amount.currency()));
        }
        self.amount_authorized.try_sub(self.amount_captured)
    }

    /// Amount still refundable.
    pub fn refundable_amount(&self) -> (amount: Result<Money, Error>)
        ensures
            outcome(amount) == self.refundable(),
    {
        self.amount_captured.try_sub(self.amount_refunded)
    }

    /// Whether the authorisation has lapsed at `now`.
    pub fn is_authorization_expired(&self, now: Timestamp) -> (expired: bool)
        ensures
            expired == self.lapsed(now),
    {
        match self.authorization_expires_at {
            Some(expiry) => self.status.is_capturable() && !now.is_before(expiry),
            None => false,
        }
    }

    /// Time left before the hold lapses.
    pub fn time_until_expiry(&self, now: Timestamp) -> (left: Option<Duration>)
        requires
            now.in_calendar(),
            self.authorization_expires_at matches Some(expiry) ==> expiry.in_calendar(),
        ensures
            match self.authorization_expires_at {
                Some(expiry) => left matches Some(span) && span.length() == expiry.instant()
                    - now.instant(),
                None => left is None,
            },
    {
        match self.authorization_expires_at {
            Some(expiry) => Some(expiry.since(now)),
            None => None,
        }
    }

    /// What the merchant's approval returns and leaves.
    pub open spec fn approval_recorded(self, after: Payment, done: Result<(), Error>) -> bool {
        if self.status is Created || (self.status.final_state() && !(self.status is Captured)) {
            outcome(done) == Err::<(), ErrorView>(self.no_transition("confirmed"@)) && after
                == self
        } else {
            done is Ok && (Payment { confirmed: true, ..self }).touched(after)
        }
    }

    /// Merchant approval to capture. Idempotent.
    pub fn confirm(&mut self) -> (done: Result<(), Error>)
        ensures
            old(self).approval_recorded(*final(self), done),
            old(self).sound() ==> final(self).sound(),
    {
        if self.status == PaymentStatus::Created || (self.status.is_terminal() && self.status
            != PaymentStatus::Captured) {
            return Err(
                Error::invalid_transition(
                    "payment",
                    self.id.as_str(),
                    self.status.as_str(),
                    "confirmed",
                ),
            );
        }
        self.confirmed = true;
        self.touch();
        Ok(())
    }

    /// What folding an authorisation response into a payment leads to.
    pub open spec fn authorized(self, response: AuthorizeResponse, after: Payment) -> bool {
        let taken = response.amount_captured.minor != 0;
        let full = taken && response.amount_captured.currency
            == response.amount_authorized.currency && response.amount_captured.minor
            >= response.amount_authorized.minor;
        &&& (Payment {
            transaction_id: Some(response.transaction_id),
            amount_authorized: response.amount_authorized,
            amount_captured: response.amount_captured,
            authorization_expires_at: response.expires_at,
            next_action: response.next_action,
            status: PaymentStatus::of(response.status, full),
            confirmed: self.confirmed || taken,
            captures: after.captures,
            ..self
        }).touched(after)
        &&& if taken && self.captures@.len() == 0 {
            &&& after.captures@.len() == 1
            &&& is_generated(after.captures@[0].id@, "cap"@)
            &&& after.captures@[0].gateway_reference == response.transaction_id
            &&& after.captures@[0].amount == response.amount_captured
            &&& after.captures@[0].final_capture == full
            &&& after.captures@[0].fulfillment_group_id is None
        } else {
            after.captures@ == self.captures@
        }
    }

    /// What recording an authorisation returns and leaves.
    pub open spec fn authorization_recorded(
        self,
        response: AuthorizeResponse,
        after: Payment,
        done: Result<(), Error>,
    ) -> bool {
        if self.amount.currency == response.amount_authorized.currency {
            done is Ok && self.authorized(response, after)
        } else {
            &&& outcome(done) == Err::<(), ErrorView>(
                ErrorView::CurrencyMismatch {
                    expected: self.amount.currency,
                    actual: response.amount_authorized.currency,
                },
            )
            &&& after == self
        }
    }

    /// Fold a gateway authorisation response into the aggregate.
    pub fn record_authorization(&mut self, response: &AuthorizeResponse) -> (done: Result<
        (),
        Error,
    >)
        ensures
            old(self).authorization_recorded(*response, *final(self), done),
    {
        match self.amount.assert_same_currency(response.amount_authorized) {
            Ok(_) => {},
            Err(error) => return Err(error),
        }
        self.transaction_id = Some(response.transaction_id.clone());
        self.amount_authorized = response.amount_authorized;
        self.amount_captured = response.amount_captured;
        self.authorization_expires_at = response.expires_at;
        self.next_action = response.next_action.clone();
        let taken = !response.amount_captured.is_zero();
        let full = taken && response.amount_captured.currency()
            == response.amount_authorized.currency() && response.amount_captured.minor()
            >= response.amount_authorized.minor();
        self.status = PaymentStatus::from_transaction(response.status, full);
        if taken {
            // An automatic capture is implicitly confirmed by the merchant.
            self.confirmed = true;
            if self.captures.len() == 0 {
                self.captures.push(
                    Capture {
                        id: CaptureId::new(),
                        gateway_reference: response.transaction_id.clone(),
                        amount: response.amount_captured,
                        final_capture: full,
                        captured_at: Timestamp::now(),
                        fulfillment_group_id: None,
                    },
                );
            }
        }
        self.touch();
        Ok(())
    }

    /// Validate a capture before it is sent to the gateway.
    pub fn check_capture(&self, amount: Money, now: Timestamp) -> (checked: Result<(), Error>)
        ensures
            outcome(checked) == self.capture_check(amount, now),
    {
        if !self.status.is_capturable() {
            return Err(
                Error::invalid_transition(
                    "payment",
                    self.id.as_str(),
                    self.status.as_str(),
                    "captured",
                ),
            );
        }
        if !self.confirmed {
            return Err(
                Error::validation(
                    "the capture must be confirmed by the merchant before funds are taken",
                ),
            );
        }
        if self.is_authorization_expired(now) {
            return Err(
                Error::validation(
                    "the authorization has expired; re-authorize the payment before capturing",
                ),
            );
        }
        if !amount.is_positive() {
            return Err(Error::validation("capture amount must be positive"));
        }
        let left = match self.capturable_amount() {
            Ok(left) => left,
            Err(error) => return Err(error),
        };
        if amount.exceeds(left) {
            let mut message = join3("cannot capture ", amount.to_text().as_str(), ": only ");
            message.append(left.to_text().as_str());
            message.append(" remains authorized");
            return Err(Error::validation(message.as_str()));
        }
        Ok(())
    }

    /// What folding a capture response into a payment returns and leaves.
    pub open spec fn capture_recorded(
        self,
        response: CaptureResponse,
        group: Option<FulfillmentGroupId>,
        after: Payment,
        done: Result<(), Error>,
    ) -> bool {
        let sum = self.amount_captured.plus(response.amount_captured);
        if !self.confirmed {
            outcome(done) == Err::<(), ErrorView>(
                ErrorView::Validation(
                    "the capture must be confirmed by the merchant before funds are taken"@,
                ),
            ) && after == self
        } else if self.amount.currency != response.amount_captured.currency {
            outcome(done) == Err::<(), ErrorView>(
                ErrorView::CurrencyMismatch {
                    expected: self.amount.currency,
                    actual: response.amount_captured.currency,
                },
            ) && after == self
        } else if sum is Err {
            outcome(done) == Err::<(), ErrorView>(sum->Err_0) && after == self
        } else if sum->Ok_0.more_than(self.amount_authorized) {
            outcome(done) == Err::<(), ErrorView>(
                ErrorView::Internal(
                    "captured "@ + sum->Ok_0.text() + " exceeds authorized "@
                        + self.amount_authorized.text(),
                ),
            ) && after == self
        } else {
            let full = sum->Ok_0 == self.amount_authorized;
            &&& done is Ok
            &&& (Payment {
                amount_captured: sum->Ok_0,
                captures: after.captures,
                status: if full {
                    PaymentStatus::Captured
                } else {
                    PaymentStatus::PartiallyCaptured
                },
                ..self
            }).touched(after)
            &&& after.captures@.len() == self.captures@.len() + 1
            &&& after.captures@.drop_last() == self.captures@
            &&& is_generated(after.captures@.last().id@, "cap"@)
            &&& after.captures@.last().gateway_reference == response.capture_reference
            &&& after.captures@.last().amount == response.amount_captured
            &&& after.captures@.last().final_capture == full
            &&& after.captures@.last().fulfillment_group_id == group
        }
    }

    /// Fold a gateway capture response into the aggregate.
    pub fn record_capture(
        &mut self,
        response: &CaptureResponse,
        fulfillment_group_id: Option<FulfillmentGroupId>,
    ) -> (done: Result<(), Error>)
        ensures
            old(self).capture_recorded(*response, fulfillment_group_id, *final(self), done),
            old(self).sound() && response.amount_captured.minor >= 0 ==> final(self).sound(),
    {
        if !self.confirmed {
            return Err(
                Error::validation(
                    "the capture must be confirmed by the merchant before funds are taken",
                ),
            );
        }
        match self.amount.assert_same_currency(response.amount_captured) {
            Ok(_) => {},
            Err(error) => return Err(error),
        }
        let captured = match self.amount_captured.try_add(response.amount_captured) {
            Ok(sum) => sum,
            Err(error) => return Err(error),
        };
        if captured.exceeds(self.amount_authorized) {
            let mut message = join3(
                "captured ",
                captured.to_text().as_str(),
                " exceeds authorized ",
            );
            message.append(self.amount_authorized.to_text().as_str());
            return Err(Error::internal(message.as_str()));
        }
        self.amount_captured = captured;
        let full = captured == self.amount_authorized;
        self.captures.push(
            Capture {
                id: CaptureId::new(),
                gateway_reference: response.capture_reference.clone(),
                amount: response.amount_captured,
                final_capture: full,
                captured_at: Timestamp::now(),
                fulfillment_group_id,
            },
        );
        assert(self.captures@.drop_last() =~= old(self).captures@);
        self.status = if full {
            PaymentStatus::Captured
        } else {
            PaymentStatus::PartiallyCaptured
        };
        self.touch();
        Ok(())
    }

    /// What releasing the authorisation returns and leaves.
    pub open spec fn cancellation_recorded(self, after: Payment, done: Result<(), Error>) -> bool {
        if self.amount_captured.minor > 0 {
            &&& outcome(done) == Err::<(), ErrorView>(
                ErrorView::Validation(
                    "cannot cancel a payment that has captured funds; refund it instead"@,
                ),
            )
            &&& after == self
        } else {
            done is Ok && (Payment {
                status: PaymentStatus::Canceled,
                next_action: None,
                ..self
            }).touched(after)
        }
    }

    /// Mark the authorisation as released.
    pub fn record_cancellation(&mut self) -> (done: Result<(), Error>)
        ensures
            old(self).cancellation_recorded(*final(self), done),
            old(self).sound() ==> final(self).sound(),
    {
        if self.amount_captured.is_positive() {
            return Err(
                Error::validation(
                    "cannot cancel a payment that has captured funds; refund it instead",
                ),
            );
        }
        self.status = PaymentStatus::Canceled;
        self.next_action = None;
        self.touch();
        Ok(())
    }

    /// Mark the payment as failed.
    pub fn record_failure(&mut self, message: &str)
        ensures
            (Payment {
                status: PaymentStatus::Failed,
                failure_message: final(self).failure_message,
                next_action: None,
                ..*old(self)
            }).touched(*final(self)),
            optional_text(final(self).failure_message) == Some(message@),
            old(self).sound() ==> final(self).sound(),
    {
        self.status = PaymentStatus::Failed;
        self.failure_message = Some(message.to_owned());
        self.next_action = None;
        self.touch();
    }

    /// What a lapsed authorisation leaves.
    pub open spec fn expiry_recorded(self, after: Payment) -> bool {
        &&& self.status.capturable() ==> (Payment {
            status: PaymentStatus::Expired,
            ..self
        }).touched(after)
        &&& !self.status.capturable() ==> after == self
    }

    /// Mark a lapsed authorisation as expired.
    pub fn record_expiry(&mut self)
        ensures
            old(self).expiry_recorded(*final(self)),
            old(self).sound() ==> final(self).sound(),
    {
        if self.status.is_capturable() {
            self.status = PaymentStatus::Expired;
            self.touch();
        }
    }

    /// What recording a refund returns and leaves.
    pub open spec fn refund_recorded(
        self,
        amount: Money,
        after: Payment,
        done: Result<(), Error>,
    ) -> bool {
        match self.refundable() {
            Err(error) => outcome(done) == Err::<(), ErrorView>(error) && after == self,
            Ok(left) => if amount.more_than(left) {
                outcome(done) == Err::<(), ErrorView>(
                    ErrorView::Validation(
                        "cannot refund "@ + amount.text() + ": only "@ + left.text()
                            + " is refundable on this payment"@,
                    ),
                ) && after == self
            } else {
                match self.amount_refunded.plus(amount) {
                    Err(error) => outcome(done) == Err::<(), ErrorView>(error) && after == self,
                    Ok(sum) => done is Ok && (Payment { amount_refunded: sum, ..self }).touched(
                        after,
                    ),
                }
            },
        }
    }

    /// Record money returned to the shopper on this payment.
    pub fn record_refund(&mut self, amount: Money) -> (done: Result<(), Error>)
        ensures
            old(self).refund_recorded(amount, *final(self), done),
            old(self).sound() && amount.minor >= 0 ==> final(self).sound(),
    {
        let left = match self.refundable_amount() {
            Ok(left) => left,
            Err(error) => return Err(error),
        };
        if amount.exceeds(left) {
            let mut message = join3("cannot refund ", amount.to_text().as_str(), ": only ");
            message.append(left.to_text().as_str());
            message.append(" is refundable on this payment");
            return Err(Error::validation(message.as_str()));
        }
        self.amount_refunded =
        match self.amount_refunded.try_add(amount) {
            Ok(sum) => sum,
            Err(error) => return Err(error),
        };
        self.touch();
        Ok(())
    }

    /// Whether a refund made under a key was recorded.
    pub open spec fn refunded_under(self, key: Seq<char>) -> bool {
        self.metadata@.contains_key(refund_note(key))
    }

    /// The gateway's reference of the refund that was recorded under a key, if one was.
    pub fn refund_reference(&self, key: &str) -> (reference: Option<String>)
        ensures
            match reference {
                Some(text) => self.refunded_under(key@) && text
                    == self.metadata@[refund_note(key@)],
                None => !self.refunded_under(key@),
            },
    {
        match self.metadata.get(join("refund:", key).as_str()) {
            Some(text) => Some(text.clone()),
            None => None,
        }
    }

    /// What recording a refund under a key returns and leaves: nothing changes where one
    /// was recorded under the key before.
    pub open spec fn keyed_refund_recorded(
        self,
        amount: Money,
        key: Seq<char>,
        reference: Seq<char>,
        after: Payment,
        done: Result<(), Error>,
    ) -> bool {
        if self.refunded_under(key) {
            done is Ok && after == self
        } else {
            let noted = refund_note(key);
            &&& self.refund_recorded(
                amount,
                (Payment { metadata: self.metadata, ..after }),
                done,
            )
            &&& done is Err ==> after == self
            &&& done is Ok ==> {
                &&& after.metadata@.contains_key(noted)
                &&& after.metadata@ == self.metadata@.insert(noted, after.metadata@[noted])
                &&& after.metadata@[noted]@ == reference
            }
        }
    }

    /// Record money returned to the shopper on this payment by a refund that the gateway
    /// made under a key. A refund is recorded once under its key.
    pub fn record_refund_under(&mut self, amount: Money, key: &str, reference: &str) -> (
    done: Result<(), Error>)
        ensures
            old(self).keyed_refund_recorded(amount, key@, reference@, *final(self), done),
            old(self).sound() && amount.minor >= 0 ==> final(self).sound(),
    {
        let note = join("refund:", key);
        if self.metadata.contains_key(note.as_str()) {
            return Ok(());
        }
        match self.record_refund(amount) {
            Ok(_) => {},
            Err(error) => return Err(error),
        }
        self.metadata.insert(note, reference.to_owned());
        Ok(())
    }

    fn touch(&mut self)
        ensures
            old(self).touched(*final(self)),
    {
        self.updated_at = Timestamp::now();
        self.version = self.version.saturating_add(1);
    }

    /// Whether the amounts of a payment agree: one currency, no more captured than was
    /// authorised, no more refunded than was captured.
    pub open spec fn sound(self) -> bool {
        &&& self.amount_authorized.currency == self.amount.currency
        &&& self.amount_captured.currency == self.amount.currency
        &&& self.amount_refunded.currency == self.amount.currency
        &&& 0 <= self.amount_refunded.minor <= self.amount_captured.minor
            <= self.amount_authorized.minor
    }
}

/// The note that a refund leaves on its payment.
pub open spec fn refund_note(key: Seq<char>) -> Seq<char> {
    "refund:"@ + key
}

/// A refund is recorded on its payment once: recording it again under the same key changes
/// nothing.
pub proof fn law_refunds_are_recorded_once(
    payment: Payment,
    amount: Money,
    key: Seq<char>,
    reference: Seq<char>,
    after: Payment,
    done: Result<(), Error>,
    repeat: Money,
    other: Seq<char>,
    again: Payment,
    repeated: Result<(), Error>,
)
    requires
        payment.keyed_refund_recorded(amount, key, reference, after, done),
        done is Ok,
        after.keyed_refund_recorded(repeat, key, other, again, repeated),
    ensures
        repeated is Ok,
        again == after,
{
}

/// A capture that passes the check before it is sent can be recorded when the gateway
/// takes exactly that amount.
pub proof fn law_checked_captures_are_recorded(
    payment: Payment,
    amount: Money,
    now: Timestamp,
    response: CaptureResponse,
    group: Option<FulfillmentGroupId>,
    after: Payment,
    done: Result<(), Error>,
)
    requires
        payment.sound(),
        payment.capture_check(amount, now) is Ok,
        amount.currency == payment.amount.currency,
        response.amount_captured == amount,
        payment.capture_recorded(response, group, after, done),
    ensures
        done is Ok,
        after.amount_captured.minor == payment.amount_captured.minor + amount.minor,
        after.sound(),
{
}

/// Nothing is captured without the merchant's approval.
pub proof fn law_capture_needs_confirmation(
    payment: Payment,
    response: CaptureResponse,
    group: Option<FulfillmentGroupId>,
    after: Payment,
    done: Result<(), Error>,
)
    requires
        !payment.confirmed,
        payment.capture_recorded(response, group, after, done),
    ensures
        done is Err,
        after == payment,
{
}

/// What a gateway says of a transaction decides the status of its payment.
pub proof fn law_statuses_follow_the_gateway(status: TransactionStatus, full: bool)
    ensures
        PaymentStatus::of(status, full) is RequiresAction <==> status is RequiresAction
            || status is Pending,
        PaymentStatus::of(status, full) is Authorized <==> status is Authorized,
        PaymentStatus::of(status, full) is Captured <==> status is Captured || (
        status is PartiallyCaptured && full),
        PaymentStatus::of(status, full) is PartiallyCaptured <==> status is PartiallyCaptured
            && !full,
        PaymentStatus::of(status, full) is Canceled <==> status is Canceled,
        PaymentStatus::of(status, full) is Failed <==> status is Failed,
        !(PaymentStatus::of(status, full) is Created),
        !(PaymentStatus::of(status, full) is Expired),
{
}

/// Funds can be taken only from a hold, and a payment whose funds are taken, released,
/// refused or lapsed does not change again.
pub proof fn law_holds_are_open_or_settled(status: PaymentStatus)
    ensures
        status.capturable() <==> status is Authorized || status is PartiallyCaptured,
        status.final_state() <==> status is Captured || status is Canceled || status is Failed
            || status is Expired,
        !(status.capturable() && status.final_state()),
{
}

/// A capture may be sent exactly when the payment holds funds, the merchant confirmed it,
/// the hold has not lapsed and the amount is positive and no more than what is held and not
/// yet taken.
pub proof fn law_captures_stay_within_the_hold(payment: Payment, amount: Money, now: Timestamp)
    requires
        payment.sound(),
        amount.currency == payment.amount.currency,
        now.normal(),
        payment.authorization_expires_at is Some
            ==> payment.authorization_expires_at->Some_0.normal(),
    ensures
        payment.capture_check(amount, now) is Ok <==> {
            &&& payment.status is Authorized || payment.status is PartiallyCaptured
            &&& payment.confirmed
            &&& payment.authorization_expires_at is Some ==> now.instant()
                < payment.authorization_expires_at->Some_0.instant()
            &&& 0 < amount.minor <= payment.amount_authorized.minor
                - payment.amount_captured.minor
        },
{
}

/// What can still be taken is what is held and not taken, and nothing once there is no hold;
/// what can still be given back is what was taken and not given back.
pub proof fn law_the_rest_is_what_was_not_used(payment: Payment)
    requires
        payment.sound(),
    ensures
        payment.capturable() is Ok,
        payment.status.capturable() ==> payment.capturable()->Ok_0.minor
            == payment.amount_authorized.minor - payment.amount_captured.minor,
        !payment.status.capturable() ==> payment.capturable()->Ok_0.minor == 0,
        payment.capturable()->Ok_0.currency == payment.amount.currency,
        payment.refundable() is Ok,
        payment.refundable()->Ok_0.minor == payment.amount_captured.minor
            - payment.amount_refunded.minor,
        payment.refundable()->Ok_0.currency == payment.amount.currency,
{
}

/// A hold lapses at its expiry, not before, and only while it is open.
pub proof fn law_holds_lapse_at_their_expiry(payment: Payment, now: Timestamp)
    requires
        now.normal(),
        payment.authorization_expires_at is Some
            ==> payment.authorization_expires_at->Some_0.normal(),
    ensures
        payment.lapsed(now) <==> payment.status.capturable()
            && payment.authorization_expires_at is Some && payment.authorization_expires_at->Some_0
            .instant() <= now.instant(),
{
}

/// A capture is recorded exactly when the merchant confirmed it and it keeps within what is
/// held. It adds its amount to what was taken; the payment is captured once all that is held
/// was taken and partially captured before that.
pub proof fn law_recorded_captures_add_up(
    payment: Payment,
    response: CaptureResponse,
    group: Option<FulfillmentGroupId>,
    after: Payment,
    done: Result<(), Error>,
)
    requires
        payment.sound(),
        response.amount_captured.minor >= 0,
        payment.capture_recorded(response, group, after, done),
    ensures
        done is Ok <==> payment.confirmed && response.amount_captured.currency
            == payment.amount.currency && response.amount_captured.minor
            <= payment.amount_authorized.minor - payment.amount_captured.minor,
        done is Ok ==> {
            &&& after.amount_captured.minor == payment.amount_captured.minor
                + response.amount_captured.minor
            &&& after.amount_authorized == payment.amount_authorized
            &&& after.amount_refunded == payment.amount_refunded
            &&& after.status is Captured <==> after.amount_captured.minor
                == payment.amount_authorized.minor
            &&& after.status is PartiallyCaptured <==> after.amount_captured.minor
                < payment.amount_authorized.minor
            &&& after.captures@.len() == payment.captures@.len() + 1
            &&& after.captures@.last().amount == response.amount_captured
            &&& after.captures@.last().fulfillment_group_id == group
        },
        done is Err ==> after == payment,
{
}

/// A refund is recorded exactly when it gives back no more than was taken and not yet given
/// back. It adds its amount to what was given back and leaves the rest of the payment alone.
pub proof fn law_recorded_refunds_add_up(
    payment: Payment,
    amount: Money,
    after: Payment,
    done: Result<(), Error>,
)
    requires
        payment.sound(),
        amount.minor >= 0,
        amount.currency == payment.amount.currency,
        payment.refund_recorded(amount, after, done),
    ensures
        done is Ok <==> amount.minor <= payment.amount_captured.minor
            - payment.amount_refunded.minor,
        done is Ok ==> {
            &&& after.amount_refunded.minor == payment.amount_refunded.minor + amount.minor
            &&& after.amount_refunded.currency == payment.amount.currency
            &&& after.amount_captured == payment.amount_captured
            &&& after.amount_authorized == payment.amount_authorized
            &&& after.status == payment.status
            &&& after.captures == payment.captures
        },
        done is Err ==> after == payment,
{
}

/// An authorisation is recorded as the gateway gave it. What it took at once counts as
/// captured and confirmed, and an authorisation that took all it holds is a full capture.
pub proof fn law_authorizations_are_recorded_as_given(
    payment: Payment,
    response: AuthorizeResponse,
    after: Payment,
)
    requires
        payment.authorized(response, after),
        response.amount_captured.currency == response.amount_authorized.currency,
    ensures
        after.amount_authorized == response.amount_authorized,
        after.amount_captured == response.amount_captured,
        after.amount_refunded == payment.amount_refunded,
        after.authorization_expires_at == response.expires_at,
        after.transaction_id == Some(response.transaction_id),
        after.confirmed <==> payment.confirmed || response.amount_captured.minor != 0,
        response.status is PartiallyCaptured ==> (after.status is Captured
            <==> response.amount_captured.minor != 0 && response.amount_captured.minor
            >= response.amount_authorized.minor),
        response.status is Authorized ==> after.status is Authorized,
        response.status is Failed ==> after.status is Failed,
        response.amount_captured.minor == 0 ==> after.captures@ == payment.captures@,
        response.amount_captured.minor != 0 && payment.captures@.len() == 0 ==> (
        after.captures@.len() == 1 && after.captures@[0].amount == response.amount_captured),
{
}

/// The merchant can approve a payment from when the gateway answered for it until it is
/// cancelled, failed or expired; approving changes nothing but the approval.
pub proof fn law_payments_are_approved_while_they_live(
    payment: Payment,
    after: Payment,
    done: Result<(), Error>,
)
    requires
        payment.approval_recorded(after, done),
    ensures
        done is Err <==> payment.status is Created || payment.status is Canceled
            || payment.status is Failed || payment.status is Expired,
        done is Ok ==> after.confirmed,
        done is Err ==> after == payment,
        after.status == payment.status,
        after.amount_captured == payment.amount_captured,
        after.amount_authorized == payment.amount_authorized,
{
}

/// An answer is recorded exactly when it is in the currency of the payment.
pub proof fn law_answers_are_in_the_currency_of_the_payment(
    payment: Payment,
    response: AuthorizeResponse,
    after: Payment,
    done: Result<(), Error>,
)
    requires
        payment.authorization_recorded(response, after, done),
    ensures
        done is Ok <==> response.amount_authorized.currency == payment.amount.currency,
        done is Err ==> after == payment,
        done is Ok ==> after.amount_authorized == response.amount_authorized
            && after.amount_captured == response.amount_captured,
{
}

/// A hold is released exactly while nothing was taken from it, and lapses only while it is
/// open; neither moves any money.
pub proof fn law_untouched_holds_are_released(
    payment: Payment,
    after: Payment,
    done: Result<(), Error>,
)
    ensures
        payment.cancellation_recorded(after, done) ==> {
            &&& done is Ok <==> payment.amount_captured.minor <= 0
            &&& done is Ok ==> after.status is Canceled && after.next_action is None
            &&& done is Err ==> after == payment
            &&& after.amount_captured == payment.amount_captured
            &&& after.amount_refunded == payment.amount_refunded
        },
        payment.expiry_recorded(after) ==> {
            &&& payment.status is Authorized || payment.status is PartiallyCaptured
                ==> after.status is Expired
            &&& !(payment.status is Authorized || payment.status is PartiallyCaptured) ==> after
                == payment
            &&& after.amount_captured == payment.amount_captured
        },
{
}

} // verus!
