//! A deterministic in-process gateway.
//!
//! `MockGateway` offers the whole surface of a gateway with real
//! bookkeeping: authorisations expire, captures are validated against the
//! remaining hold, refunds cannot exceed captures, and idempotency keys replay
//! the original response. That makes it useful well beyond unit tests — it is a
//! working sandbox for local development and integration environments.
//!
//! Behaviour is driven by the instrument token, so tests can trigger any
//! outcome without configuration:
//!
//! | token contains | outcome |
//! |---|---|
//! | `decline` | generic decline |
//! | `insufficient` | insufficient funds |
//! | `expired` | expired card |
//! | `3ds` / `authentication` | requires a 3-D Secure challenge |
//! | `error` | retryable gateway error |
//! | anything else | success |

use vstd::prelude::*;

use crate::collections::{copy_texts, OrderedMap};
use crate::error::{DeclineCode, Error, ErrorView};
use crate::gateway::json::{
    json_content, json_document, member, optional_member, parse_json, text_json, text_member,
    JsonView, ObjectBuilder,
};
use crate::gateway::{
    authorize_outcome, capture_outcome, event_outcome, gateway_refund_outcome, AuthorizeRequest,
    AuthorizeResponse, AuthorizeView, CancelRequest, Capabilities, CaptureMode, CaptureRequest,
    CaptureResponse, CaptureView, CustomerRequest, EventKindView, EventView, GatewayEvent,
    GatewayEventKind, GatewayId, GatewayRefundRequest, GatewayRefundResponse, GatewayRefundView,
    InstrumentRef, NextAction, NextActionView, RefundStatus, TransactionStatus, VaultRequest,
};
use crate::ids::is_generated;
use crate::money::Money;
use crate::payment::method::{CardSummary, PaymentMethodKind, PaymentMethodRef};
use crate::secret::SecretString;
use crate::text::{
    contains_text, digits, join, join3, lower, occurs_in, optional_text, push_digits, same_text,
    signed_to_text, to_lower, trimmed,
};
use crate::time::{Duration, Timestamp};
use crate::webhook::{hmac_sha256_hex, signature, verify_hmac_sha256, Headers};

verus! {

/// Identifier of the mock adapter.
pub const MOCK_GATEWAY_ID: &'static str = "mock";

/// A capture that was answered.
#[derive(Debug)]
struct Taking {
    reference: String,
    status: TransactionStatus,
    amount: Money,
    total: Money,
}

impl View for Taking {
    type V = CaptureView;

    closed spec fn view(&self) -> CaptureView {
        CaptureView {
            capture_reference: self.reference@,
            status: self.status,
            amount_captured: self.amount,
            total_captured: self.total,
            raw: None,
        }
    }
}

/// A refund that was answered.
#[derive(Debug)]
struct Return {
    reference: String,
    amount: Money,
}

impl View for Return {
    type V = GatewayRefundView;

    closed spec fn view(&self) -> GatewayRefundView {
        GatewayRefundView {
            refund_reference: self.reference@,
            amount: self.amount,
            status: RefundStatus::Succeeded,
            raw: None,
        }
    }
}

/// A charge that the gateway keeps the books of.
#[derive(Debug)]
struct Transaction {
    id: String,
    authorized: Money,
    captured: Money,
    refunded: Money,
    status: TransactionStatus,
    expires_at: Timestamp,
    captures: OrderedMap<Taking>,
    refunds: OrderedMap<Return>,
}

spec fn takings(map: Map<Seq<char>, Taking>) -> Map<Seq<char>, CaptureView> {
    map.map_values(|taking: Taking| taking@)
}

spec fn returns_of(map: Map<Seq<char>, Return>) -> Map<Seq<char>, GatewayRefundView> {
    map.map_values(|entry: Return| entry@)
}

/// A charge that the gateway keeps the books of.
pub ghost struct TransactionView {
    /// Identifier.
    pub id: Seq<char>,
    /// Amount held.
    pub authorized: Money,
    /// Amount taken.
    pub captured: Money,
    /// Amount given back.
    pub refunded: Money,
    /// State of the charge.
    pub status: TransactionStatus,
    /// When the hold lapses.
    pub expires_at: Timestamp,
    /// Answers to captures by idempotency key.
    pub captures: Map<Seq<char>, CaptureView>,
    /// Answers to refunds by idempotency key.
    pub refunds: Map<Seq<char>, GatewayRefundView>,
}

impl View for Transaction {
    type V = TransactionView;

    closed spec fn view(&self) -> TransactionView {
        TransactionView {
            id: self.id@,
            authorized: self.authorized,
            captured: self.captured,
            refunded: self.refunded,
            status: self.status,
            expires_at: self.expires_at,
            captures: takings(self.captures@),
            refunds: returns_of(self.refunds@),
        }
    }
}

/// An authorisation that was answered.
#[derive(Debug)]
struct Opening {
    id: String,
    authorized: Money,
    captured: Money,
    status: TransactionStatus,
    expires_at: Timestamp,
    challenge: Option<String>,
}

/// The answer that opens a charge.
pub open spec fn opening(
    id: Seq<char>,
    authorized: Money,
    captured: Money,
    status: TransactionStatus,
    expires_at: Timestamp,
    challenge: Option<Seq<char>>,
) -> AuthorizeView {
    AuthorizeView {
        transaction_id: id,
        status,
        amount_authorized: authorized,
        amount_captured: captured,
        expires_at: Some(expires_at),
        next_action: match challenge {
            Some(url) => Some(NextActionView::Redirect(url)),
            None => None,
        },
        processor_reference: Some("mockproc_"@ + id),
        raw: Some(charge_payload(id)),
    }
}

impl View for Opening {
    type V = AuthorizeView;

    closed spec fn view(&self) -> AuthorizeView {
        opening(
            self.id@,
            self.authorized,
            self.captured,
            self.status,
            self.expires_at,
            optional_text(self.challenge),
        )
    }
}

/// An in-process payment gateway with full authorisation bookkeeping.
pub struct MockGateway {
    id: GatewayId,
    capabilities: Capabilities,
    transactions: OrderedMap<Transaction>,
    idempotency: OrderedMap<Opening>,
    customers: OrderedMap<String>,
    counter: u64,
    webhook_secret: SecretString,
}

/// What the gateway keeps.
pub ghost struct MockState {
    /// Its identifier.
    pub id: Seq<char>,
    /// What it can do.
    pub capabilities: Capabilities,
    /// Charges by identifier.
    pub transactions: Map<Seq<char>, TransactionView>,
    /// Answers to authorisations by idempotency key.
    pub keys: Map<Seq<char>, AuthorizeView>,
    /// Customers at the gateway by our identifiers.
    pub customers: Map<Seq<char>, Seq<char>>,
    /// The next number for an identifier.
    pub counter: u64,
    /// Signs webhooks.
    pub secret: Seq<char>,
}

spec fn texts(map: Map<Seq<char>, String>) -> Map<Seq<char>, Seq<char>> {
    map.map_values(|text: String| text@)
}

spec fn openings(map: Map<Seq<char>, Opening>) -> Map<Seq<char>, AuthorizeView> {
    map.map_values(|answered: Opening| answered@)
}

spec fn charges(map: Map<Seq<char>, Transaction>) -> Map<Seq<char>, TransactionView> {
    map.map_values(|transaction: Transaction| transaction@)
}

impl View for MockGateway {
    type V = MockState;

    closed spec fn view(&self) -> MockState {
        MockState {
            id: self.id@,
            capabilities: self.capabilities,
            transactions: charges(self.transactions@),
            keys: openings(self.idempotency@),
            customers: texts(self.customers@),
            counter: self.counter,
            secret: self.webhook_secret@,
        }
    }
}

/// A number with at least eight digits.
pub open spec fn eight_digits(n: nat) -> Seq<char> {
    if digits(n).len() >= 8 {
        digits(n)
    } else {
        Seq::new((8 - digits(n).len()) as nat, |i: int| '0') + digits(n)
    }
}

/// An identifier with a prefix and a number.
pub open spec fn numbered(prefix: Seq<char>, n: u64) -> Seq<char> {
    prefix + "_"@ + eight_digits(n as nat)
}

/// What a token makes the gateway do.
pub ghost enum Simulation {
    /// Fail.
    Fails(ErrorView),
    /// Ask for a 3-D Secure challenge.
    Challenge,
    /// Succeed.
    Succeeds,
}

/// What a token makes a gateway do.
pub open spec fn simulated(gateway: Seq<char>, instrument_token: Seq<char>) -> Simulation {
    let token = lower(instrument_token);
    if occurs_in("insufficient"@, token) {
        Simulation::Fails(
            ErrorView::Declined {
                code: DeclineCode::InsufficientFunds,
                message: "the card has insufficient funds"@,
            },
        )
    } else if occurs_in("expired"@, token) {
        Simulation::Fails(
            ErrorView::Declined {
                code: DeclineCode::ExpiredCard,
                message: "the card has expired"@,
            },
        )
    } else if occurs_in("decline"@, token) {
        Simulation::Fails(
            ErrorView::Declined {
                code: DeclineCode::GenericDecline,
                message: "the card was declined"@,
            },
        )
    } else if occurs_in("error"@, token) {
        Simulation::Fails(
            ErrorView::Gateway {
                gateway,
                provider_code: Some("api_error"@),
                message: "the gateway is temporarily unavailable"@,
                retryable: true,
            },
        )
    } else if occurs_in("3ds"@, token) || occurs_in("authentication"@, token) {
        Simulation::Challenge
    } else {
        Simulation::Succeeds
    }
}

/// The payload of a charge.
pub open spec fn charge_payload(id: Seq<char>) -> JsonView {
    JsonView::Object(
        Map::<Seq<char>, JsonView>::empty().insert(
            "object"@,
            JsonView::Text("mock_transaction"@),
        ).insert("id"@, JsonView::Text(id)),
    )
}

impl TransactionView {
    /// The answer that describes a charge.
    pub open spec fn answer(self) -> AuthorizeView {
        opening(
            self.id,
            self.authorized,
            self.captured,
            self.status,
            self.expires_at,
            None,
        )
    }
}

/// The refusal where a hold would lapse beyond the calendar.
pub open spec fn beyond_calendar() -> ErrorView {
    ErrorView::Internal("the expiry lies beyond the calendar"@)
}

impl MockState {
    /// The state once a number is used.
    pub open spec fn drawn(self) -> MockState {
        MockState {
            counter: if self.counter == u64::MAX {
                0
            } else {
                (self.counter + 1) as u64
            },
            ..self
        }
    }

    /// The answer that describes the charge with an identifier.
    pub open spec fn found(self, transaction: Seq<char>) -> Result<AuthorizeView, ErrorView> {
        if self.transactions.contains_key(transaction) {
            Ok(self.transactions[transaction].answer())
        } else {
            Err(ErrorView::NotFound { kind: "transaction"@, id: transaction })
        }
    }

    /// Why a request is refused before anything is charged, when it is.
    pub open spec fn refusal(self, request: AuthorizeRequest) -> Option<ErrorView> {
        let currency = request.amount.currency;
        let delayed = self.capabilities.required(self.id, "delayed_capture"@);
        let connected = self.capabilities.required(self.id, "connected_accounts"@);
        let fees = self.capabilities.required(self.id, "application_fees"@);
        if request.check() is Err {
            Some(request.check()->Err_0)
        } else if !self.capabilities.accepts(currency) {
            Some(
                ErrorView::Configuration(
                    "gateway '"@ + self.id + "' does not support "@ + currency.letters(),
                ),
            )
        } else if request.capture_mode is Manual && delayed is Err {
            Some(delayed->Err_0)
        } else if request.transfers@.len() > 0 && connected is Err {
            Some(connected->Err_0)
        } else if request.application_fee is Some && fees is Err {
            Some(fees->Err_0)
        } else {
            None
        }
    }

    /// The state once a charge is opened under an idempotency key, and the answer.
    pub open spec fn opened(
        self,
        key: Seq<char>,
        authorized: Money,
        captured: Money,
        status: TransactionStatus,
        expires_at: Timestamp,
        challenge: Option<Seq<char>>,
    ) -> (MockState, AuthorizeView) {
        let charge = TransactionView {
            id: numbered("txn"@, self.counter),
            authorized,
            captured,
            refunded: Money { minor: 0, currency: authorized.currency },
            status,
            expires_at,
            captures: Map::empty(),
            refunds: Map::empty(),
        };
        let answer = opening(charge.id, authorized, captured, status, expires_at, challenge);
        (
            MockState {
                transactions: self.transactions.insert(charge.id, charge),
                keys: self.keys.insert(key, answer),
                ..self.drawn()
            },
            answer,
        )
    }

    /// The state after an authorisation, and the answer to it.
    pub open spec fn authorizing(self, request: AuthorizeRequest, now: Timestamp) -> (
        MockState,
        Result<AuthorizeView, ErrorView>,
    ) {
        let key = request.idempotency_key@;
        let zero = Money { minor: 0, currency: request.amount.currency };
        let expiry = now.later(self.capabilities.authorization_validity);
        if self.refusal(request) is Some {
            (self, Err(self.refusal(request)->0))
        } else if self.keys.contains_key(key) {
            (self, Ok(self.keys[key]))
        } else {
            match simulated(self.id, request.instrument.token_text()) {
                Simulation::Fails(error) => (self, Err(error)),
                Simulation::Challenge => match expiry {
                    None => (self, Err(beyond_calendar())),
                    Some(expires_at) => {
                        let (after, answer) = self.drawn().opened(
                            key,
                            zero,
                            zero,
                            TransactionStatus::RequiresAction,
                            expires_at,
                            Some("https://mock-gateway.test/3ds/"@ + numbered("acs"@, self.counter)),
                        );
                        (after, Ok(answer))
                    },
                },
                Simulation::Succeeds => match expiry {
                    None => (self, Err(beyond_calendar())),
                    Some(expires_at) => {
                        let automatic = request.capture_mode is Automatic;
                        let (after, answer) = self.opened(
                            key,
                            request.amount,
                            if automatic {
                                request.amount
                            } else {
                                zero
                            },
                            if automatic {
                                TransactionStatus::Captured
                            } else {
                                TransactionStatus::Authorized
                            },
                            expires_at,
                            None,
                        );
                        (after, Ok(answer))
                    },
                },
            }
        }
    }

    /// The charge after a new capture, or why it is refused.
    pub open spec fn capturing(self, request: CaptureRequest, now: Timestamp) -> Result<
        TransactionView,
        ErrorView,
    > {
        let id = request.transaction_id@;
        let charge = self.transactions[id];
        let remaining = charge.authorized.minus(charge.captured);
        let partial = self.capabilities.required(self.id, "partial_capture"@);
        let multiple = self.capabilities.required(self.id, "multi_capture"@);
        let sum = charge.captured.plus(request.amount);
        if !self.transactions.contains_key(id) {
            Err(ErrorView::NotFound { kind: "transaction"@, id })
        } else if !(charge.status is Authorized || charge.status is PartiallyCaptured) {
            Err(
                ErrorView::InvalidTransition {
                    kind: "transaction"@,
                    id: charge.id,
                    from: charge.status.name(),
                    to: "Captured"@,
                },
            )
        } else if !now.before(charge.expires_at) {
            Err(
                ErrorView::Gateway {
                    gateway: self.id,
                    provider_code: Some("authorization_expired"@),
                    message: "the authorization has expired"@,
                    retryable: false,
                },
            )
        } else if remaining is Err {
            Err(remaining->Err_0)
        } else if request.amount.more_than(remaining->Ok_0) {
            Err(
                ErrorView::Validation(
                    "cannot capture "@ + request.amount.text() + ": only "@
                        + remaining->Ok_0.text() + " remains authorized"@,
                ),
            )
        } else if remaining->Ok_0.more_than(request.amount) && partial is Err {
            Err(partial->Err_0)
        } else if charge.captured.minor != 0 && multiple is Err {
            Err(multiple->Err_0)
        } else if sum is Err {
            Err(sum->Err_0)
        } else {
            Ok(
                TransactionView {
                    captured: sum->Ok_0,
                    authorized: if request.final_capture {
                        sum->Ok_0
                    } else {
                        charge.authorized
                    },
                    status: if sum->Ok_0 == charge.authorized || request.final_capture {
                        TransactionStatus::Captured
                    } else {
                        TransactionStatus::PartiallyCaptured
                    },
                    ..charge
                },
            )
        }
    }

    /// The state with a charge in place of what was known of it.
    pub open spec fn with_charge(self, key: Seq<char>, charge: TransactionView) -> MockState {
        MockState { transactions: self.transactions.insert(key, charge), ..self }
    }

    /// The state after a capture, and the answer to it. A key that captured from the charge
    /// before gives the first answer again.
    pub open spec fn captured(self, request: CaptureRequest, now: Timestamp) -> (
        MockState,
        Result<CaptureView, ErrorView>,
    ) {
        let id = request.transaction_id@;
        let key = request.idempotency_key@;
        if self.transactions.contains_key(id) && self.transactions[id].captures.contains_key(key) {
            (self, Ok(self.transactions[id].captures[key]))
        } else {
            match self.capturing(request, now) {
                Err(error) => (self, Err(error)),
                Ok(charge) => {
                    let answer = CaptureView {
                        capture_reference: "cap_"@ + charge.id,
                        status: charge.status,
                        amount_captured: request.amount,
                        total_captured: charge.captured,
                        raw: None,
                    };
                    let kept = TransactionView {
                        captures: charge.captures.insert(key, answer),
                        ..charge
                    };
                    (self.with_charge(id, kept), Ok(answer))
                },
            }
        }
    }

    /// The charge after it is voided, or why it is refused.
    pub open spec fn canceling(self, id: Seq<char>) -> Result<TransactionView, ErrorView> {
        if !self.transactions.contains_key(id) {
            Err(ErrorView::NotFound { kind: "transaction"@, id })
        } else if self.transactions[id].captured.minor > 0 {
            Err(ErrorView::Validation("cannot void a transaction that has captured funds"@))
        } else {
            Ok(
                TransactionView {
                    status: TransactionStatus::Canceled,
                    ..self.transactions[id]
                },
            )
        }
    }

    /// The charge after a new refund, or why it is refused.
    pub open spec fn refunding(self, request: GatewayRefundRequest) -> Result<
        TransactionView,
        ErrorView,
    > {
        let id = request.transaction_id@;
        let charge = self.transactions[id];
        let refunds = self.capabilities.required(self.id, "refunds"@);
        let partial = self.capabilities.required(self.id, "partial_refunds"@);
        let refundable = charge.captured.minus(charge.refunded);
        let sum = charge.refunded.plus(request.amount);
        if refunds is Err {
            Err(refunds->Err_0)
        } else if !self.transactions.contains_key(id) {
            Err(ErrorView::NotFound { kind: "transaction"@, id })
        } else if refundable is Err {
            Err(refundable->Err_0)
        } else if request.amount.more_than(refundable->Ok_0) {
            Err(
                ErrorView::Validation(
                    "cannot refund "@ + request.amount.text() + ": only "@
                        + refundable->Ok_0.text() + " is refundable"@,
                ),
            )
        } else if refundable->Ok_0.more_than(request.amount) && partial is Err {
            Err(partial->Err_0)
        } else if sum is Err {
            Err(sum->Err_0)
        } else {
            Ok(TransactionView { refunded: sum->Ok_0, ..charge })
        }
    }

    /// The state after a refund, and the answer to it. A key that refunded the charge before
    /// gives the first answer again.
    pub open spec fn refunded(self, request: GatewayRefundRequest) -> (
        MockState,
        Result<GatewayRefundView, ErrorView>,
    ) {
        let id = request.transaction_id@;
        let key = request.idempotency_key@;
        if self.transactions.contains_key(id) && self.transactions[id].refunds.contains_key(key) {
            (self, Ok(self.transactions[id].refunds[key]))
        } else {
            match self.refunding(request) {
                Err(error) => (self, Err(error)),
                Ok(charge) => {
                    let answer = GatewayRefundView {
                        refund_reference: "re_"@ + charge.id + "_"@ + crate::text::integer_text(
                            charge.refunded.minor as int,
                        ),
                        amount: request.amount,
                        status: RefundStatus::Succeeded,
                        raw: None,
                    };
                    let kept = TransactionView {
                        refunds: charge.refunds.insert(key, answer),
                        ..charge
                    };
                    (self.with_charge(id, kept), Ok(answer))
                },
            }
        }
    }

    /// The event a webhook is about, or why it is refused.
    pub open spec fn notified(self, payload: Seq<u8>, headers: Headers, now: Timestamp) -> Result<
        EventView,
        ErrorView,
    > {
        match headers.value("x-mock-signature"@) {
            None => Err(ErrorView::WebhookVerification("missing 'x-mock-signature' header"@)),
            Some(expected) => if signature(self.secret, payload) != lower(trimmed(expected)) {
                Err(ErrorView::WebhookVerification("signature does not match"@))
            } else {
                match json_document(payload) {
                    Err(message) => Err(
                        ErrorView::WebhookVerification("invalid JSON body: "@ + message),
                    ),
                    Ok(body) => Ok(event_of(self.id, body, now)),
                }
            },
        }
    }
}

/// The normalised type of an event.
pub open spec fn event_kind(provider_type: Seq<char>) -> EventKindView {
    if provider_type == "payment.authorized"@ {
        EventKindView::PaymentAuthorized
    } else if provider_type == "payment.captured"@ {
        EventKindView::PaymentCaptured
    } else if provider_type == "payment.failed"@ {
        EventKindView::PaymentFailed
    } else if provider_type == "payment.canceled"@ {
        EventKindView::PaymentCanceled
    } else if provider_type == "refund.succeeded"@ {
        EventKindView::RefundSucceeded
    } else if provider_type == "dispute.opened"@ {
        EventKindView::DisputeOpened
    } else {
        EventKindView::Unknown(provider_type)
    }
}

/// The event that a payload describes.
pub open spec fn event_of(gateway: Seq<char>, body: JsonView, now: Timestamp) -> EventView {
    EventView {
        provider_event_id: body.member("id"@).text_or(""@),
        gateway,
        kind: event_kind(body.member("type"@).text_or("unknown"@)),
        transaction_id: body.member("data"@).member("transaction_id"@).text(),
        amount: None,
        occurred_at: now,
        raw: Some(body),
    }
}

/// Normalise the type of an event.
pub fn map_event(provider_type: &str) -> (kind: GatewayEventKind)
    ensures
        kind@ == event_kind(provider_type@),
{
    if same_text(provider_type, "payment.authorized") {
        GatewayEventKind::PaymentAuthorized
    } else if same_text(provider_type, "payment.captured") {
        GatewayEventKind::PaymentCaptured
    } else if same_text(provider_type, "payment.failed") {
        GatewayEventKind::PaymentFailed
    } else if same_text(provider_type, "payment.canceled") {
        GatewayEventKind::PaymentCanceled
    } else if same_text(provider_type, "refund.succeeded") {
        GatewayEventKind::RefundSucceeded
    } else if same_text(provider_type, "dispute.opened") {
        GatewayEventKind::DisputeOpened
    } else {
        GatewayEventKind::Unknown { provider_type: provider_type.to_owned() }
    }
}

fn answer_with(
    id: &str,
    authorized: Money,
    captured: Money,
    status: TransactionStatus,
    expires_at: Timestamp,
    challenge: Option<&String>,
) -> (response: AuthorizeResponse)
    ensures
        response@ == opening(
            id@,
            authorized,
            captured,
            status,
            expires_at,
            match challenge {
                Some(url) => Some(url@),
                None => None,
            },
        ),
{
    let payload = ObjectBuilder::new().with("object", text_json("mock_transaction")).with(
        "id",
        text_json(id),
    ).build();
    AuthorizeResponse {
        transaction_id: id.to_owned(),
        status,
        amount_authorized: authorized,
        amount_captured: captured,
        expires_at: Some(expires_at),
        next_action: match challenge {
            Some(url) => Some(NextAction::Redirect { url: url.clone() }),
            None => None,
        },
        processor_reference: Some(join("mockproc_", id)),
        raw: Some(payload),
    }
}

fn describe(transaction: &Transaction) -> (response: AuthorizeResponse)
    ensures
        response@ == transaction@.answer(),
{
    answer_with(
        transaction.id.as_str(),
        transaction.authorized,
        transaction.captured,
        transaction.status,
        transaction.expires_at,
        None,
    )
}

fn replay(answered: &Opening) -> (response: AuthorizeResponse)
    ensures
        response@ == answered@,
{
    answer_with(
        answered.id.as_str(),
        answered.authorized,
        answered.captured,
        answered.status,
        answered.expires_at,
        answered.challenge.as_ref(),
    )
}

/// What a token makes the gateway do.
enum Answer {
    Challenge,
    Success,
}

impl MockGateway {
    /// A gateway with every capability enabled.
    pub fn new() -> (gateway: Self)
        ensures
            gateway@.id == "mock"@,
            gateway@.capabilities.delayed_capture,
            gateway@.capabilities.partial_capture,
            gateway@.capabilities.multi_capture,
            gateway@.capabilities.refunds,
            gateway@.capabilities.partial_refunds,
            gateway@.capabilities.connected_accounts,
            gateway@.capabilities.application_fees,
            gateway@.capabilities.stored_credentials,
            gateway@.capabilities.webhooks,
            gateway@.capabilities.disputes,
            gateway@.capabilities.three_d_secure,
            gateway@.capabilities.authorization_validity == (Duration {
                seconds: 604_800,
                nanos: 0,
            }),
            gateway@.capabilities.currencies@ == Map::<Seq<char>, ()>::empty(),
            gateway@.transactions == Map::<Seq<char>, TransactionView>::empty(),
            gateway@.keys == Map::<Seq<char>, AuthorizeView>::empty(),
            gateway@.customers == Map::<Seq<char>, Seq<char>>::empty(),
            gateway@.counter == 1,
            gateway@.secret == "whsec_mock"@,
    {
        Self::with_parts(GatewayId::from_static("mock"), Capabilities::full())
    }

    fn with_parts(id: GatewayId, capabilities: Capabilities) -> (gateway: Self)
        ensures
            gateway@.id == id@,
            gateway@.capabilities == capabilities,
            gateway@.transactions == Map::<Seq<char>, TransactionView>::empty(),
            gateway@.keys == Map::<Seq<char>, AuthorizeView>::empty(),
            gateway@.customers == Map::<Seq<char>, Seq<char>>::empty(),
            gateway@.counter == 1,
            gateway@.secret == "whsec_mock"@,
    {
        let gateway = MockGateway {
            id,
            capabilities,
            transactions: OrderedMap::new(),
            idempotency: OrderedMap::new(),
            customers: OrderedMap::new(),
            counter: 1,
            webhook_secret: SecretString::new("whsec_mock"),
        };
        assert(gateway@.transactions =~= Map::<Seq<char>, TransactionView>::empty());
        assert(gateway@.keys =~= Map::<Seq<char>, AuthorizeView>::empty());
        assert(gateway@.customers =~= Map::<Seq<char>, Seq<char>>::empty());
        gateway
    }

    /// A gateway with a custom id, for testing multi-gateway routing.
    pub fn with_id(id: GatewayId) -> (gateway: Self)
        ensures
            gateway@.id == id@,
            gateway@.capabilities.delayed_capture,
            gateway@.capabilities.partial_capture,
            gateway@.capabilities.multi_capture,
            gateway@.capabilities.refunds,
            gateway@.capabilities.partial_refunds,
            gateway@.capabilities.connected_accounts,
            gateway@.capabilities.application_fees,
            gateway@.capabilities.stored_credentials,
            gateway@.capabilities.webhooks,
            gateway@.capabilities.disputes,
            gateway@.capabilities.three_d_secure,
            gateway@.capabilities.authorization_validity == (Duration {
                seconds: 604_800,
                nanos: 0,
            }),
            gateway@.capabilities.currencies@ == Map::<Seq<char>, ()>::empty(),
            gateway@.transactions == Map::<Seq<char>, TransactionView>::empty(),
            gateway@.keys == Map::<Seq<char>, AuthorizeView>::empty(),
            gateway@.customers == Map::<Seq<char>, Seq<char>>::empty(),
            gateway@.counter == 1,
            gateway@.secret == "whsec_mock"@,
    {
        Self::with_parts(id, Capabilities::full())
    }

    /// A gateway with restricted capabilities, to test capability errors.
    pub fn with_capabilities(capabilities: Capabilities) -> (gateway: Self)
        ensures
            gateway@.id == "mock"@,
            gateway@.capabilities == capabilities,
            gateway@.transactions == Map::<Seq<char>, TransactionView>::empty(),
            gateway@.keys == Map::<Seq<char>, AuthorizeView>::empty(),
            gateway@.customers == Map::<Seq<char>, Seq<char>>::empty(),
            gateway@.counter == 1,
            gateway@.secret == "whsec_mock"@,
    {
        Self::with_parts(GatewayId::from_static("mock"), capabilities)
    }

    /// The gateway's identifier.
    pub fn id(&self) -> (id: GatewayId)
        ensures
            id@ == self@.id,
    {
        self.id.clone()
    }

    /// What the gateway can do.
    pub fn capabilities(&self) -> (capabilities: &Capabilities)
        ensures
            *capabilities == self@.capabilities,
    {
        &self.capabilities
    }

    /// The secret used to sign this gateway's webhooks.
    pub fn webhook_secret(&self) -> (secret: &SecretString)
        ensures
            secret@ == self@.secret,
    {
        &self.webhook_secret
    }

    /// Current state of a transaction, for assertions in tests.
    pub fn transaction_captured(&self, transaction_id: &str) -> (captured: Option<Money>)
        ensures
            captured == if self@.transactions.contains_key(transaction_id@) {
                Some(self@.transactions[transaction_id@].captured)
            } else {
                None
            },
    {
        match self.transactions.get(transaction_id) {
            Some(transaction) => Some(transaction.captured),
            None => None,
        }
    }

    fn next_id(&mut self, prefix: &str) -> (id: String)
        ensures
            id@ == numbered(prefix@, old(self)@.counter),
            final(self)@ == old(self)@.drawn(),
    {
        let value: u64 = self.counter;
        self.counter = value.wrapping_add(1);
        let mut number = String::new();
        push_digits(&mut number, value);
        assert(number@ =~= digits(value as nat));
        let mut id = join(prefix, "_");
        let ghost start = id@;
        let count = number.as_str().unicode_len();
        let mut i: usize = count;
        while i < 8
            invariant
                count <= i,
                i <= 8 || i == count,
                id@ == start + Seq::new((i - count) as nat, |j: int| '0'),
            decreases 8 - i,
        {
            id.push('0');
            i += 1;
            assert(id@ =~= start + Seq::new((i - count) as nat, |j: int| '0'));
        }
        id.append(number.as_str());
        assert(id@ =~= numbered(prefix@, value));
        id
    }

    fn simulate(&self, instrument: &InstrumentRef) -> (answer: Result<Answer, Error>)
        ensures
            match answer {
                Ok(Answer::Challenge) => simulated(self@.id, instrument.token_text())
                    is Challenge,
                Ok(Answer::Success) => simulated(self@.id, instrument.token_text()) is Succeeds,
                Err(error) => simulated(self@.id, instrument.token_text()) == Simulation::Fails(
                    error@,
                ),
            },
    {
        let token = to_lower(instrument.token());
        if contains_text(token.as_str(), "insufficient") {
            return Err(
                Error::Declined {
                    code: DeclineCode::InsufficientFunds,
                    message: "the card has insufficient funds".to_owned(),
                },
            );
        }
        if contains_text(token.as_str(), "expired") {
            return Err(
                Error::Declined {
                    code: DeclineCode::ExpiredCard,
                    message: "the card has expired".to_owned(),
                },
            );
        }
        if contains_text(token.as_str(), "decline") {
            return Err(
                Error::Declined {
                    code: DeclineCode::GenericDecline,
                    message: "the card was declined".to_owned(),
                },
            );
        }
        if contains_text(token.as_str(), "error") {
            return Err(
                Error::Gateway {
                    gateway: self.id.to_text(),
                    provider_code: Some("api_error".to_owned()),
                    message: "the gateway is temporarily unavailable".to_owned(),
                    retryable: true,
                },
            );
        }
        if contains_text(token.as_str(), "3ds") || contains_text(
            token.as_str(),
            "authentication",
        ) {
            return Ok(Answer::Challenge);
        }
        Ok(Answer::Success)
    }

    fn build_response(&self, transaction_id: &str) -> (response: Result<AuthorizeResponse, Error>)
        ensures
            authorize_outcome(response) == self@.found(transaction_id@),
    {
        match self.transactions.get(transaction_id) {
            Some(transaction) => Ok(describe(transaction)),
            None => Err(Error::not_found("transaction", transaction_id)),
        }
    }

    /// Build a signed webhook payload, so integration tests can exercise the
    /// full verify → deduplicate → handle path.
    pub fn sign_webhook(&self, payload: &[u8]) -> (headers: Headers)
        ensures
            headers@ == Map::<Seq<char>, Seq<char>>::empty().insert(
                lower("x-mock-signature"@),
                signature(self@.secret, payload@),
            ),
    {
        let text = hmac_sha256_hex(&self.webhook_secret, payload);
        Headers::new().with("x-mock-signature", text.as_str())
    }

    /// Force an authorisation to look expired at `now`, for testing expiry handling.
    pub fn expire_authorization(&mut self, transaction_id: &str, now: Timestamp) -> (
    done: Result<(), Error>)
        ensures
            ({
                let id = transaction_id@;
                let past = now.later(Duration { seconds: (-1) as i64, nanos: 0 });
                match done {
                    Ok(_) => old(self)@.transactions.contains_key(id) && past is Some && final(self)@ == old(self)@.with_charge(
                        id,
                        TransactionView {
                            expires_at: past->0,
                            ..old(self)@.transactions[id]
                        },
                    ),
                    Err(error) => final(self)@ == old(self)@ && error@ == if old(self)@.transactions.contains_key(id) {
                        beyond_calendar()
                    } else {
                        ErrorView::NotFound { kind: "transaction"@, id }
                    } && (old(self)@.transactions.contains_key(id) ==> past is None),
                }
            }),
    {
        let ghost before = self@;
        if !self.transactions.contains_key(transaction_id) {
            return Err(Error::not_found("transaction", transaction_id));
        }
        let past = match now.plus(Duration { seconds: -1, nanos: 0 }) {
            Some(at) => at,
            None => return Err(Error::internal("the expiry lies beyond the calendar")),
        };
        if let Some(stored) = self.transactions.remove(transaction_id) {
            let mut transaction = stored;
            transaction.expires_at = past;
            self.transactions.insert(transaction_id.to_owned(), transaction);
        }
        assert(self@.transactions =~= before.with_charge(
            transaction_id@,
            TransactionView { expires_at: past, ..before.transactions[transaction_id@] },
        ).transactions);
        Ok(())
    }

    /// Register a customer, once.
    pub fn upsert_customer(&mut self, request: &CustomerRequest) -> (customer: String)
        ensures
            ({
                let key = request.customer_id@;
                let known = old(self)@.customers;
                if known.contains_key(key) {
                    customer@ == known[key] && final(self)@ == old(self)@
                } else {
                    customer@ == numbered("cus"@, old(self)@.counter) && final(self)@ == (
                    MockState {
                        customers: known.insert(key, customer@),
                        ..old(self)@.drawn()
                    })
                }
            }),
    {
        if let Some(existing) = self.customers.get(request.customer_id.as_str()) {
            return existing.clone();
        }
        let ghost known = self@.customers;
        let id = self.next_id("cus");
        self.customers.insert(request.customer_id.to_text(), id.clone());
        assert(self@.customers =~= known.insert(request.customer_id@, id@));
        id
    }

    /// The card that a gateway vaults in a year.
    pub open spec fn is_test_card(card: CardSummary, year: i32) -> bool {
        &&& card.brand@ == "visa"@
        &&& card.last4@ == "4242"@
        &&& card.exp_month == 12
        &&& card.exp_year == year + 3
        &&& card.country is None
        &&& card.funding is None
        &&& card.fingerprint is None
    }

    /// Vault an instrument in a given year, so that it does not vault cards that are
    /// already expired.
    pub fn vault_payment_method(&mut self, request: &VaultRequest, year: i32) -> (method: Result<
        PaymentMethodRef,
        Error,
    >)
        requires
            year <= i32::MAX - 3,
        ensures
            ({
                let stored = old(self)@.capabilities.required(
                    old(self)@.id,
                    "stored_credentials"@,
                );
                let refused = CardSummary::refused("4242"@, 12, (year + 3) as i32);
                match method {
                    Ok(made) => {
                        &&& stored is Ok
                        &&& refused is None
                        &&& is_generated(made.id@, "pm"@)
                        &&& made.customer_id@ == request.customer_id@
                        &&& made.gateway@ == old(self)@.id
                        &&& made.gateway_token@ == numbered("pm"@, old(self)@.counter)
                        &&& made.kind matches PaymentMethodKind::Card(card)
                            && Self::is_test_card(card, year)
                        &&& optional_text(made.gateway_customer_id) == Some(
                            request.gateway_customer_id@,
                        )
                        &&& made.billing_address is None
                        &&& !made.is_default
                        &&& made.reusable == request.allow_off_session
                        &&& made.metadata@ == request.metadata@
                        &&& final(self)@ == old(self)@.drawn()
                    },
                    Err(error) => {
                        &&& final(self)@ == old(self)@
                        &&& stored is Err ==> stored->Err_0 == error@
                        &&& stored is Ok ==> refused == Some(error@)
                    },
                }
            }),
    {
        match self.capabilities.require(&self.id, "stored_credentials") {
            Ok(_) => {},
            Err(error) => return Err(error),
        }
        let card = match CardSummary::new("visa", "4242", 12, year + 3) {
            Ok(card) => card,
            Err(error) => return Err(error),
        };
        let token = self.next_id("pm");
        let mut method = PaymentMethodRef::new(
            request.customer_id.clone(),
            self.id.clone(),
            token.as_str(),
            PaymentMethodKind::Card(card),
        ).with_gateway_customer(request.gateway_customer_id.as_str());
        method.reusable = request.allow_off_session;
        method.metadata = copy_texts(&request.metadata);
        Ok(method)
    }

    /// Forget an instrument. There is nothing to forget.
    pub fn detach_payment_method(&self, _token: &str) -> (done: Result<(), Error>)
        ensures
            done is Ok,
    {
        Ok(())
    }

    /// The instruments of a customer in a given year: one test card.
    pub fn list_payment_methods(&self, _gateway_customer_id: &str, year: i32) -> (
    methods: Result<Vec<PaymentMethodKind>, Error>)
        requires
            year <= i32::MAX - 3,
        ensures
            match methods {
                Ok(list) => list@.len() == 1 && (list@[0] matches PaymentMethodKind::Card(card)
                    && Self::is_test_card(card, year)) && CardSummary::refused(
                    "4242"@,
                    12,
                    (year + 3) as i32,
                ) is None,
                Err(error) => CardSummary::refused("4242"@, 12, (year + 3) as i32) == Some(error@),
            },
    {
        match CardSummary::new("visa", "4242", 12, year + 3) {
            Ok(card) => {
                let mut list: Vec<PaymentMethodKind> = Vec::new();
                list.push(PaymentMethodKind::Card(card));
                Ok(list)
            },
            Err(error) => Err(error),
        }
    }

    fn open_charge(
        &mut self,
        key: &str,
        authorized: Money,
        captured: Money,
        status: TransactionStatus,
        expires_at: Timestamp,
        challenge: Option<String>,
    ) -> (response: AuthorizeResponse)
        ensures
            ({
                let (after, answer) = old(self)@.opened(
                    key@,
                    authorized,
                    captured,
                    status,
                    expires_at,
                    optional_text(challenge),
                );
                final(self)@ == after && response@ == answer
            }),
    {
        let ghost before = self@;
        let id = self.next_id("txn");
        let transaction = Transaction {
            id: id.clone(),
            authorized,
            captured,
            refunded: Money::zero(authorized.currency()),
            status,
            expires_at,
            captures: OrderedMap::new(),
            refunds: OrderedMap::new(),
        };
        let answered = Opening {
            id: id.clone(),
            authorized,
            captured,
            status,
            expires_at,
            challenge,
        };
        let response = replay(&answered);
        let ghost charge = transaction@;
        assert(charge.captures =~= Map::<Seq<char>, CaptureView>::empty());
        assert(charge.refunds =~= Map::<Seq<char>, GatewayRefundView>::empty());
        self.transactions.insert(id, transaction);
        self.idempotency.insert(key.to_owned(), answered);
        assert(self@.transactions =~= before.transactions.insert(charge.id, charge));
        assert(self@.keys =~= before.keys.insert(key@, response@));
        response
    }

    /// Place a hold on, or charge, an instrument at `now`.
    pub fn authorize(&mut self, request: &AuthorizeRequest, now: Timestamp) -> (response: Result<
        AuthorizeResponse,
        Error,
    >)
        ensures
            final(self)@ == old(self)@.authorizing(*request, now).0,
            authorize_outcome(response) == old(self)@.authorizing(*request, now).1,
    {
        match request.validate() {
            Ok(_) => {},
            Err(error) => return Err(error),
        }
        if !self.capabilities.supports_currency(request.amount.currency()) {
            let mut message = join3("gateway '", self.id.as_str(), "' does not support ");
            message.append(request.amount.currency().code().as_str());
            return Err(Error::configuration(message.as_str()));
        }
        if request.capture_mode == CaptureMode::Manual {
            match self.capabilities.require(&self.id, "delayed_capture") {
                Ok(_) => {},
                Err(error) => return Err(error),
            }
        }
        if request.transfers.len() > 0 {
            match self.capabilities.require(&self.id, "connected_accounts") {
                Ok(_) => {},
                Err(error) => return Err(error),
            }
        }
        if request.application_fee.is_some() {
            match self.capabilities.require(&self.id, "application_fees") {
                Ok(_) => {},
                Err(error) => return Err(error),
            }
        }
        // Replaying the same key must not charge twice.
        if let Some(known) = self.idempotency.get(request.idempotency_key.as_str()) {
            return Ok(replay(known));
        }
        let answer = match self.simulate(&request.instrument) {
            Ok(answer) => answer,
            Err(error) => return Err(error),
        };
        let expires_at = match now.plus(self.capabilities.authorization_validity) {
            Some(at) => at,
            None => return Err(Error::internal("the expiry lies beyond the calendar")),
        };
        let zero = Money::zero(request.amount.currency());
        match answer {
            Answer::Challenge => {
                let challenge = self.next_id("acs");
                let url = join("https://mock-gateway.test/3ds/", challenge.as_str());
                Ok(
                    self.open_charge(
                        request.idempotency_key.as_str(),
                        zero,
                        zero,
                        TransactionStatus::RequiresAction,
                        expires_at,
                        Some(url),
                    ),
                )
            },
            Answer::Success => {
                let automatic = request.capture_mode == CaptureMode::Automatic;
                Ok(
                    self.open_charge(
                        request.idempotency_key.as_str(),
                        request.amount,
                        if automatic {
                            request.amount
                        } else {
                            zero
                        },
                        if automatic {
                            TransactionStatus::Captured
                        } else {
                            TransactionStatus::Authorized
                        },
                        expires_at,
                        None,
                    ),
                )
            },
        }
    }

    fn check_capture(&self, request: &CaptureRequest, now: Timestamp) -> (sum: Result<Money, Error>)
        ensures
            match sum {
                Ok(captured) => self@.capturing(*request, now) matches Ok(charge)
                    && charge.captured == captured,
                Err(error) => self@.capturing(*request, now) == Err::<TransactionView, ErrorView>(
                    error@,
                ),
            },
    {
        let transaction = match self.transactions.get(request.transaction_id.as_str()) {
            Some(transaction) => transaction,
            None => {
                return Err(Error::not_found("transaction", request.transaction_id.as_str()));
            },
        };
        if transaction.status != TransactionStatus::Authorized && transaction.status
            != TransactionStatus::PartiallyCaptured {
            return Err(
                Error::invalid_transition(
                    "transaction",
                    transaction.id.as_str(),
                    transaction.status.as_str(),
                    "Captured",
                ),
            );
        }
        if !now.is_before(transaction.expires_at) {
            return Err(
                Error::Gateway {
                    gateway: self.id.to_text(),
                    provider_code: Some("authorization_expired".to_owned()),
                    message: "the authorization has expired".to_owned(),
                    retryable: false,
                },
            );
        }
        let remaining = match transaction.authorized.try_sub(transaction.captured) {
            Ok(remaining) => remaining,
            Err(error) => return Err(error),
        };
        if request.amount.exceeds(remaining) {
            let mut message = join3(
                "cannot capture ",
                request.amount.to_text().as_str(),
                ": only ",
            );
            message.append(remaining.to_text().as_str());
            message.append(" remains authorized");
            return Err(Error::validation(message.as_str()));
        }
        if remaining.exceeds(request.amount) {
            match self.capabilities.require(&self.id, "partial_capture") {
                Ok(_) => {},
                Err(error) => return Err(error),
            }
        }
        if !transaction.captured.is_zero() {
            match self.capabilities.require(&self.id, "multi_capture") {
                Ok(_) => {},
                Err(error) => return Err(error),
            }
        }
        transaction.captured.try_add(request.amount)
    }

    /// Take funds from an existing authorisation at `now`.
    pub fn capture(&mut self, request: &CaptureRequest, now: Timestamp) -> (response: Result<
        CaptureResponse,
        Error,
    >)
        ensures
            final(self)@ == old(self)@.captured(*request, now).0,
            capture_outcome(response) == old(self)@.captured(*request, now).1,
    {
        let ghost before = self@;
        // Replaying the same key must not capture twice.
        if let Some(transaction) = self.transactions.get(request.transaction_id.as_str()) {
            if let Some(known) = transaction.captures.get(request.idempotency_key.as_str()) {
                return Ok(
                    CaptureResponse {
                        capture_reference: known.reference.clone(),
                        status: known.status,
                        amount_captured: known.amount,
                        total_captured: known.total,
                        raw: None,
                    },
                );
            }
        }
        let captured = match self.check_capture(request, now) {
            Ok(captured) => captured,
            Err(error) => return Err(error),
        };
        let mut transaction = match self.transactions.remove(request.transaction_id.as_str()) {
            Some(transaction) => transaction,
            None => {
                assert(false);
                return Err(Error::not_found("transaction", request.transaction_id.as_str()));
            },
        };
        transaction.captured = captured;
        let fully = transaction.captured == transaction.authorized || request.final_capture;
        transaction.status =
        if fully {
            if request.final_capture {
                transaction.authorized = transaction.captured;
            }
            TransactionStatus::Captured
        } else {
            TransactionStatus::PartiallyCaptured
        };
        let response = CaptureResponse {
            capture_reference: join("cap_", transaction.id.as_str()),
            status: transaction.status,
            amount_captured: request.amount,
            total_captured: transaction.captured,
            raw: None,
        };
        let ghost charge = transaction@;
        let taking = Taking {
            reference: response.capture_reference.clone(),
            status: response.status,
            amount: response.amount_captured,
            total: response.total_captured,
        };
        transaction.captures.insert(request.idempotency_key.clone(), taking);
        assert(transaction@.captures =~= charge.captures.insert(
            request.idempotency_key@,
            response@,
        ));
        let ghost kept = transaction@;
        self.transactions.insert(request.transaction_id.clone(), transaction);
        assert(self@.transactions =~= before.with_charge(
            request.transaction_id@,
            kept,
        ).transactions);
        Ok(response)
    }

    /// Release an authorisation without taking funds.
    pub fn cancel(&mut self, request: &CancelRequest) -> (response: Result<
        AuthorizeResponse,
        Error,
    >)
        ensures
            match old(self)@.canceling(request.transaction_id@) {
                Ok(charge) => {
                    &&& final(self)@ == old(self)@.with_charge(request.transaction_id@, charge)
                    &&& authorize_outcome(response) == Ok::<AuthorizeView, ErrorView>(
                        charge.answer(),
                    )
                },
                Err(error) => final(self)@ == old(self)@ && authorize_outcome(response) == Err::<
                    AuthorizeView,
                    ErrorView,
                >(error),
            },
    {
        let ghost before = self@;
        let held = match self.transactions.get(request.transaction_id.as_str()) {
            Some(transaction) => transaction.captured,
            None => {
                return Err(Error::not_found("transaction", request.transaction_id.as_str()));
            },
        };
        if held.is_positive() {
            return Err(Error::validation("cannot void a transaction that has captured funds"));
        }
        let mut transaction = match self.transactions.remove(request.transaction_id.as_str()) {
            Some(transaction) => transaction,
            None => {
                assert(false);
                return Err(Error::not_found("transaction", request.transaction_id.as_str()));
            },
        };
        transaction.status = TransactionStatus::Canceled;
        let response = describe(&transaction);
        let ghost charge = transaction@;
        self.transactions.insert(request.transaction_id.clone(), transaction);
        assert(self@.transactions =~= before.with_charge(
            request.transaction_id@,
            charge,
        ).transactions);
        Ok(response)
    }

    fn check_refund(&self, request: &GatewayRefundRequest) -> (sum: Result<Money, Error>)
        ensures
            match sum {
                Ok(refunded) => self@.refunding(*request) matches Ok(charge) && charge.refunded
                    == refunded,
                Err(error) => self@.refunding(*request) == Err::<TransactionView, ErrorView>(
                    error@,
                ),
            },
    {
        match self.capabilities.require(&self.id, "refunds") {
            Ok(_) => {},
            Err(error) => return Err(error),
        }
        let transaction = match self.transactions.get(request.transaction_id.as_str()) {
            Some(transaction) => transaction,
            None => {
                return Err(Error::not_found("transaction", request.transaction_id.as_str()));
            },
        };
        let refundable = match transaction.captured.try_sub(transaction.refunded) {
            Ok(refundable) => refundable,
            Err(error) => return Err(error),
        };
        if request.amount.exceeds(refundable) {
            let mut message = join3(
                "cannot refund ",
                request.amount.to_text().as_str(),
                ": only ",
            );
            message.append(refundable.to_text().as_str());
            message.append(" is refundable");
            return Err(Error::validation(message.as_str()));
        }
        if refundable.exceeds(request.amount) {
            match self.capabilities.require(&self.id, "partial_refunds") {
                Ok(_) => {},
                Err(error) => return Err(error),
            }
        }
        transaction.refunded.try_add(request.amount)
    }

    /// Return funds to the shopper.
    pub fn refund(&mut self, request: &GatewayRefundRequest) -> (response: Result<
        GatewayRefundResponse,
        Error,
    >)
        ensures
            final(self)@ == old(self)@.refunded(*request).0,
            gateway_refund_outcome(response) == old(self)@.refunded(*request).1,
    {
        let ghost before = self@;
        // Replaying the same key must not refund twice.
        if let Some(transaction) = self.transactions.get(request.transaction_id.as_str()) {
            if let Some(known) = transaction.refunds.get(request.idempotency_key.as_str()) {
                return Ok(
                    GatewayRefundResponse {
                        refund_reference: known.reference.clone(),
                        amount: known.amount,
                        status: RefundStatus::Succeeded,
                        raw: None,
                    },
                );
            }
        }
        let refunded = match self.check_refund(request) {
            Ok(refunded) => refunded,
            Err(error) => return Err(error),
        };
        let mut transaction = match self.transactions.remove(request.transaction_id.as_str()) {
            Some(transaction) => transaction,
            None => {
                assert(false);
                return Err(Error::not_found("transaction", request.transaction_id.as_str()));
            },
        };
        transaction.refunded = refunded;
        let mut reference = join3("re_", transaction.id.as_str(), "_");
        reference.append(signed_to_text(transaction.refunded.minor()).as_str());
        let response = GatewayRefundResponse {
            refund_reference: reference.clone(),
            amount: request.amount,
            status: RefundStatus::Succeeded,
            raw: None,
        };
        let ghost charge = transaction@;
        transaction.refunds.insert(
            request.idempotency_key.clone(),
            Return { reference, amount: request.amount },
        );
        assert(transaction@.refunds =~= charge.refunds.insert(
            request.idempotency_key@,
            response@,
        ));
        let ghost kept = transaction@;
        self.transactions.insert(request.transaction_id.clone(), transaction);
        assert(self@.transactions =~= before.with_charge(
            request.transaction_id@,
            kept,
        ).transactions);
        Ok(response)
    }

    /// The current state of a transaction.
    pub fn fetch_transaction(&self, transaction_id: &str) -> (response: Result<
        AuthorizeResponse,
        Error,
    >)
        ensures
            authorize_outcome(response) == self@.found(transaction_id@),
    {
        self.build_response(transaction_id)
    }

    /// The event that a payload describes, received at `now`.
    pub fn read_event(&self, body: serde_json::Value, now: Timestamp) -> (event: GatewayEvent)
        ensures
            event@ == event_of(self@.id, json_content(body), now),
    {
        let provider_type = text_member(&body, "type", "unknown");
        let provider_event_id = text_member(&body, "id", "");
        let transaction_id = optional_member(member(&body, "data"), "transaction_id");
        GatewayEvent {
            provider_event_id,
            gateway: self.id.clone(),
            kind: map_event(provider_type.as_str()),
            transaction_id,
            amount: None,
            occurred_at: now,
            raw: Some(body),
        }
    }

    /// Verify and normalise a webhook received at `now`.
    pub fn parse_webhook(&self, payload: &[u8], headers: &Headers, now: Timestamp) -> (
    event: Result<GatewayEvent, Error>)
        ensures
            event_outcome(event) == self@.notified(payload@, *headers, now),
    {
        let expected = match headers.require("x-mock-signature") {
            Ok(expected) => expected,
            Err(error) => {
                proof {
                    reveal_strlit("missing '");
                    reveal_strlit("x-mock-signature");
                    reveal_strlit("' header");
                    reveal_strlit("missing 'x-mock-signature' header");
                    assert("missing '"@ + "x-mock-signature"@ + "' header"@
                        =~= "missing 'x-mock-signature' header"@);
                }
                return Err(error);
            },
        };
        match verify_hmac_sha256(&self.webhook_secret, payload, expected) {
            Ok(_) => {},
            Err(error) => return Err(error),
        }
        match parse_json(payload) {
            Ok(body) => Ok(self.read_event(body, now)),
            Err(message) => Err(
                Error::WebhookVerification(join("invalid JSON body: ", message.as_str())),
            ),
        }
    }
}

impl Default for MockGateway {
    fn default() -> (gateway: Self)
        ensures
            gateway@.id == "mock"@,
            gateway@.capabilities.delayed_capture,
            gateway@.capabilities.partial_capture,
            gateway@.capabilities.multi_capture,
            gateway@.capabilities.refunds,
            gateway@.capabilities.partial_refunds,
            gateway@.capabilities.connected_accounts,
            gateway@.capabilities.application_fees,
            gateway@.capabilities.stored_credentials,
            gateway@.capabilities.webhooks,
            gateway@.capabilities.disputes,
            gateway@.capabilities.three_d_secure,
            gateway@.capabilities.authorization_validity == (Duration {
                seconds: 604_800,
                nanos: 0,
            }),
            gateway@.capabilities.currencies@ == Map::<Seq<char>, ()>::empty(),
            gateway@.transactions == Map::<Seq<char>, TransactionView>::empty(),
            gateway@.keys == Map::<Seq<char>, AuthorizeView>::empty(),
            gateway@.customers == Map::<Seq<char>, Seq<char>>::empty(),
            gateway@.counter == 1,
            gateway@.secret == "whsec_mock"@,
    {
        Self::new()
    }
}

/// Whether the books are in order: nothing is captured beyond what is held, and nothing is
/// refunded beyond what is captured.
pub open spec fn in_order(charge: TransactionView) -> bool {
    &&& charge.authorized.currency == charge.captured.currency
    &&& charge.authorized.currency == charge.refunded.currency
    &&& 0 <= charge.refunded.minor <= charge.captured.minor <= charge.authorized.minor
}

/// The gateway keeps its books in order: a capture of a positive amount takes no more than
/// what is held, and a refund of a positive amount gives back no more than what was taken.
pub proof fn law_books_stay_in_order(
    state: MockState,
    capture: CaptureRequest,
    refund: GatewayRefundRequest,
    now: Timestamp,
)
    requires
        state.transactions.contains_key(capture.transaction_id@) ==> in_order(
            state.transactions[capture.transaction_id@],
        ),
        state.transactions.contains_key(refund.transaction_id@) ==> in_order(
            state.transactions[refund.transaction_id@],
        ),
        capture.amount.minor > 0,
        refund.amount.minor > 0,
    ensures
        state.capturing(capture, now) matches Ok(charge) ==> in_order(charge),
        state.refunding(refund) matches Ok(charge) ==> in_order(charge),
{
}

/// The same idempotency key never charges twice: once a request was answered, asking again
/// under its key changes nothing, and where it is not refused it gives the same answer.
pub proof fn law_idempotency_keys_never_charge_twice(
    state: MockState,
    request: AuthorizeRequest,
    now: Timestamp,
    repeat: AuthorizeRequest,
    later: Timestamp,
)
    requires
        state.authorizing(request, now).1 is Ok,
        repeat.idempotency_key@ == request.idempotency_key@,
    ensures
        ({
            let (after, answer) = state.authorizing(request, now);
            let (again, repeated) = after.authorizing(repeat, later);
            &&& again == after
            &&& repeated is Ok <==> state.refusal(repeat) is None
            &&& repeated is Ok ==> repeated == answer
        }),
{
    let (after, answer) = state.authorizing(request, now);
    assert(after.refusal(repeat) == state.refusal(repeat));
}

/// The same idempotency key never captures twice: once a capture was answered, asking again
/// under its key changes nothing and gives the same answer.
pub proof fn law_keys_never_capture_twice(
    state: MockState,
    request: CaptureRequest,
    now: Timestamp,
    repeat: CaptureRequest,
    later: Timestamp,
)
    requires
        state.captured(request, now).1 is Ok,
        repeat.transaction_id@ == request.transaction_id@,
        repeat.idempotency_key@ == request.idempotency_key@,
    ensures
        ({
            let (after, answer) = state.captured(request, now);
            after.captured(repeat, later) == (after, answer)
        }),
{
}

/// The same idempotency key never refunds twice: once a refund was answered, asking again
/// under its key changes nothing and gives the same answer.
pub proof fn law_keys_never_refund_twice(
    state: MockState,
    request: GatewayRefundRequest,
    repeat: GatewayRefundRequest,
)
    requires
        state.refunded(request).1 is Ok,
        repeat.transaction_id@ == request.transaction_id@,
        repeat.idempotency_key@ == request.idempotency_key@,
    ensures
        ({
            let (after, answer) = state.refunded(request);
            after.refunded(repeat) == (after, answer)
        }),
{
}

/// Releasing a hold again changes nothing.
pub proof fn law_cancelling_twice_changes_nothing(state: MockState, id: Seq<char>)
    requires
        state.canceling(id) is Ok,
    ensures
        ({
            let charge = state.canceling(id)->Ok_0;
            let after = state.with_charge(id, charge);
            &&& after.canceling(id) == Ok::<TransactionView, ErrorView>(charge)
            &&& after.with_charge(id, charge) == after
        }),
{
    let charge = state.canceling(id)->Ok_0;
    let after = state.with_charge(id, charge);
    assert(after.with_charge(id, charge).transactions =~= after.transactions);
}

/// Declined and failed attempts leave no trace.
pub proof fn law_failures_leave_no_trace(state: MockState, request: AuthorizeRequest, now: Timestamp)
    ensures
        state.authorizing(request, now).1 is Err ==> state.authorizing(request, now).0 == state,
{
}

/// What the gateway signs, it accepts.
pub proof fn law_signed_webhooks_verify(
    state: MockState,
    payload: Seq<u8>,
    headers: Headers,
    now: Timestamp,
)
    requires
        headers@ == Map::<Seq<char>, Seq<char>>::empty().insert(
            lower("x-mock-signature"@),
            signature(state.secret, payload),
        ),
    ensures
        json_document(payload) matches Ok(body) ==> state.notified(payload, headers, now) == Ok::<
            EventView,
            ErrorView,
        >(event_of(state.id, body, now)),
{
    crate::webhook::law_signatures_verify(state.secret, payload);
}

/// A charge is refused outright exactly when it is inconsistent, in a currency that the
/// gateway does not take, or needs something that the gateway cannot do.
pub proof fn law_impossible_charges_are_refused(state: MockState, request: AuthorizeRequest)
    ensures
        state.refusal(request) is None <==> {
            &&& request.check() is Ok
            &&& state.capabilities.accepts(request.amount.currency)
            &&& request.capture_mode is Manual ==> state.capabilities.delayed_capture
            &&& request.transfers@.len() > 0 ==> state.capabilities.connected_accounts
            &&& request.application_fee is Some ==> state.capabilities.application_fees
        },
{
    crate::gateway::law_capabilities_have_names(state.capabilities);
}

/// A new charge that goes through holds the amount that was asked for, and takes it at once
/// exactly where it is to be captured automatically.
pub proof fn law_charges_hold_what_was_asked_for(
    state: MockState,
    request: AuthorizeRequest,
    now: Timestamp,
)
    requires
        !state.keys.contains_key(request.idempotency_key@),
        simulated(state.id, request.instrument.token_text()) is Succeeds,
        state.authorizing(request, now).1 is Ok,
    ensures
        ({
            let answer = state.authorizing(request, now).1->Ok_0;
            let after = state.authorizing(request, now).0;
            &&& answer.amount_authorized == request.amount
            &&& request.capture_mode is Automatic ==> answer.amount_captured == request.amount
                && answer.status is Captured
            &&& !(request.capture_mode is Automatic) ==> answer.amount_captured.minor == 0
                && answer.status is Authorized
            &&& answer.next_action is None
            &&& after.transactions.contains_key(answer.transaction_id)
            &&& after.transactions[answer.transaction_id].authorized == request.amount
            &&& after.transactions[answer.transaction_id].captured == answer.amount_captured
            &&& after.transactions[answer.transaction_id].refunded.minor == 0
        }),
{
}

/// A capture takes its amount from the hold exactly when the charge is open, the hold has
/// not lapsed, enough is left of it and the gateway can take part of it, or take again,
/// where that is asked. A final capture closes the hold.
pub proof fn law_captures_take_from_the_hold(
    state: MockState,
    request: CaptureRequest,
    now: Timestamp,
)
    requires
        state.transactions.contains_key(request.transaction_id@),
        in_order(state.transactions[request.transaction_id@]),
        request.amount.currency == state.transactions[request.transaction_id@].authorized.currency,
        request.amount.minor >= 0,
    ensures
        ({
            let charge = state.transactions[request.transaction_id@];
            let rest = charge.authorized.minor - charge.captured.minor;
            let taken = state.capturing(request, now);
            &&& taken is Ok <==> {
                &&& charge.status is Authorized || charge.status is PartiallyCaptured
                &&& now.before(charge.expires_at)
                &&& request.amount.minor <= rest
                &&& request.amount.minor < rest ==> state.capabilities.partial_capture
                &&& charge.captured.minor != 0 ==> state.capabilities.multi_capture
            }
            &&& taken is Ok ==> {
                &&& taken->Ok_0.captured.minor == charge.captured.minor + request.amount.minor
                &&& taken->Ok_0.refunded == charge.refunded
                &&& taken->Ok_0.status is Captured <==> request.final_capture
                    || request.amount.minor == rest
                &&& request.final_capture ==> taken->Ok_0.authorized == taken->Ok_0.captured
                &&& !request.final_capture ==> taken->Ok_0.authorized == charge.authorized
            }
        }),
{
    crate::gateway::law_capabilities_have_names(state.capabilities);
}

/// A refund gives back its amount exactly when no more than was taken and not yet given back
/// is asked for, and the gateway refunds, in parts where that is asked.
pub proof fn law_refunds_give_back_what_was_taken(state: MockState, request: GatewayRefundRequest)
    requires
        state.transactions.contains_key(request.transaction_id@),
        in_order(state.transactions[request.transaction_id@]),
        request.amount.currency == state.transactions[request.transaction_id@].authorized.currency,
        request.amount.minor >= 0,
    ensures
        ({
            let charge = state.transactions[request.transaction_id@];
            let rest = charge.captured.minor - charge.refunded.minor;
            let returned = state.refunding(request);
            &&& returned is Ok <==> {
                &&& state.capabilities.refunds
                &&& request.amount.minor <= rest
                &&& request.amount.minor < rest ==> state.capabilities.partial_refunds
            }
            &&& returned is Ok ==> {
                &&& returned->Ok_0.refunded.minor == charge.refunded.minor + request.amount.minor
                &&& returned->Ok_0.captured == charge.captured
                &&& returned->Ok_0.authorized == charge.authorized
            }
        }),
{
    crate::gateway::law_capabilities_have_names(state.capabilities);
}

/// A charge is voided exactly when nothing was taken from it, and then takes nothing any
/// more.
pub proof fn law_untouched_charges_are_voided(
    state: MockState,
    id: Seq<char>,
    request: CaptureRequest,
    now: Timestamp,
)
    ensures
        state.canceling(id) is Ok <==> state.transactions.contains_key(id)
            && state.transactions[id].captured.minor <= 0,
        state.canceling(id) is Ok && request.transaction_id@ == id ==> state.with_charge(
            id,
            state.canceling(id)->Ok_0,
        ).capturing(request, now) is Err,
{
}

/// A charge that the shopper has to confirm first holds and takes nothing yet, and says where
/// to confirm it.
pub proof fn law_challenged_charges_hold_nothing(
    state: MockState,
    request: AuthorizeRequest,
    now: Timestamp,
)
    requires
        !state.keys.contains_key(request.idempotency_key@),
        simulated(state.id, request.instrument.token_text()) is Challenge,
        state.authorizing(request, now).1 is Ok,
    ensures
        ({
            let answer = state.authorizing(request, now).1->Ok_0;
            let after = state.authorizing(request, now).0;
            &&& answer.status is RequiresAction
            &&& answer.amount_authorized.minor == 0
            &&& answer.amount_captured.minor == 0
            &&& answer.next_action is Some
            &&& answer.next_action->Some_0 is Redirect
            &&& after.transactions.contains_key(answer.transaction_id)
            &&& after.transactions[answer.transaction_id].authorized.minor == 0
            &&& after.keys[request.idempotency_key@] == answer
        }),
{
}

} // verus!
