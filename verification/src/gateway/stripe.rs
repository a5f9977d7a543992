//! Stripe adapter (Payment Intents API).
//!
//! The adapter is transport-agnostic: for each operation it builds an
//! [`HttpRequest`] and interprets the [`HttpResponse`] that the application's
//! own client brings back. It speaks Stripe's form-encoded API, forwards
//! idempotency keys on the `Idempotency-Key` header, and normalises Stripe's
//! error and decline codes into [`DeclineCode`] so the rest of the crate stays
//! provider-neutral.

use vstd::prelude::*;
use vstd::utf8::encode_utf8;

use crate::collections::{copy_texts, listed, OrderedMap};
use crate::error::{DeclineCode, Error, ErrorView};
use crate::gateway::http::{FormBody, HttpRequest, HttpResponse, RequestView};
use crate::gateway::json::{
    copy_json, integer_of_json, is_json_object, json_content, json_document, member, null_json,
    optional_member, parse_json, text_member, text_of_json, unsigned_of_json, JsonView,
};
use crate::gateway::{
    authorize_outcome, capture_outcome, event_outcome, gateway_refund_outcome, AuthorizeRequest,
    AuthorizeResponse, AuthorizeView, CancelRequest, Capabilities, CaptureMode, CaptureRequest,
    CaptureResponse, CaptureView, CustomerRequest, EventKindView, EventView, GatewayEvent,
    GatewayEventKind, GatewayId, GatewayRefundRequest, GatewayRefundResponse, GatewayRefundView,
    InstrumentRef, NextAction, NextActionView, RefundReason, RefundStatus, TransactionStatus,
    TransferInstruction, VaultRequest,
};
use crate::ids::is_generated;
use crate::money::{Currency, Money};
use crate::payment::method::{CardSummary, ChargeInitiator, PaymentMethodKind, PaymentMethodRef};
use crate::secret::{bytes_equal, lemma_same_bytes_same_text, SecretString};
use crate::text::{
    chars_of, find_char, first_index, integer_text, join, join3, lower, optional_text,
    parse_signed, piece_views, pieces, same_text, signed_of, signed_to_text, slice_of, split_on,
    text_of, to_lower, trim, trimmed,
};
use crate::time::{Duration, Timestamp};
use crate::webhook::{distance, hmac_sha256_hex, signature, verify_timestamp_freshness, Headers};

verus! {

/// Identifier of the Stripe adapter.
pub const STRIPE_GATEWAY_ID: &'static str = "stripe";

/// Stripe's Payment Intents adapter.
pub struct StripeGateway {
    secret_key: SecretString,
    webhook_secret: Option<SecretString>,
    base_url: String,
    api_version: String,
    signature_tolerance_seconds: i64,
}

/// How a Stripe adapter is set up.
pub ghost struct StripeView {
    /// Authenticates requests.
    pub secret_key: Seq<char>,
    /// Signs webhooks, when it is known.
    pub webhook_secret: Option<Seq<char>>,
    /// Where requests go.
    pub base_url: Seq<char>,
    /// The pinned API version.
    pub api_version: Seq<char>,
    /// How far a webhook's timestamp may be from now, in seconds.
    pub tolerance: i64,
}

impl View for StripeGateway {
    type V = StripeView;

    closed spec fn view(&self) -> StripeView {
        StripeView {
            secret_key: self.secret_key@,
            webhook_secret: match self.webhook_secret {
                Some(secret) => Some(secret@),
                None => None,
            },
            base_url: self.base_url@,
            api_version: self.api_version@,
            tolerance: self.signature_tolerance_seconds,
        }
    }
}

/// A field with an optional value.
pub open spec fn optional_field(key: Seq<char>, value: Option<Seq<char>>) -> Seq<
    (Seq<char>, Seq<char>),
> {
    match value {
        Some(text) => seq![(key, text)],
        None => Seq::empty(),
    }
}

/// The fields of the first `n` entries of a metadata map, in key order.
pub open spec fn metadata_fields(metadata: Map<Seq<char>, String>, n: int) -> Seq<
    (Seq<char>, Seq<char>),
>
    decreases n,
{
    if n <= 0 {
        Seq::empty()
    } else {
        let key = listed(metadata)[n - 1];
        metadata_fields(metadata, n - 1).push(("metadata["@ + key + "]"@, metadata[key]@))
    }
}

fn set_metadata(form: &mut FormBody, metadata: &OrderedMap<String>)
    ensures
        final(form)@ == old(form)@ + metadata_fields(
            metadata@,
            listed(metadata@).len() as int,
        ),
{
    let ghost start = form@;
    let count = metadata.len();
    let mut n: usize = 0;
    assert(start + Seq::<(Seq<char>, Seq<char>)>::empty() =~= start);
    while n < count
        invariant
            n <= count,
            count == metadata.keys().len(),
            metadata.keys() == listed(metadata@),
            form@ == start + metadata_fields(metadata@, n as int),
        decreases count - n,
    {
        let key = join3("metadata[", metadata.key_at(n), "]");
        let ghost before = metadata_fields(metadata@, n as int);
        form.set(key.as_str(), metadata.value_at(n).as_str());
        assert(form@ =~= start + before.push((key@, metadata@[listed(metadata@)[n as int]]@)));
        n += 1;
    }
}

fn set_optional(form: &mut FormBody, key: &str, value: &Option<String>)
    ensures
        final(form)@ == old(form)@ + optional_field(key@, optional_text(*value)),
{
    let ghost start = form@;
    match value {
        Some(text) => {
            form.set(key, text.as_str());
        },
        None => {},
    }
    assert(form@ =~= start + optional_field(key@, optional_text(*value)));
}

/// The normalised reason of a decline.
pub open spec fn decline_of(code: Seq<char>) -> DeclineCode {
    if code == "insufficient_funds"@ {
        DeclineCode::InsufficientFunds
    } else if code == "expired_card"@ {
        DeclineCode::ExpiredCard
    } else if code == "incorrect_number"@ || code == "invalid_number"@ {
        DeclineCode::IncorrectNumber
    } else if code == "incorrect_cvc"@ || code == "invalid_cvc"@ {
        DeclineCode::IncorrectCvc
    } else if code == "incorrect_zip"@ {
        DeclineCode::IncorrectPostalCode
    } else if code == "fraudulent"@ || code == "merchant_blacklist"@ || code == "pickup_card"@ {
        DeclineCode::Fraudulent
    } else if code == "lost_card"@ || code == "stolen_card"@ {
        DeclineCode::LostOrStolenCard
    } else if code == "card_velocity_exceeded"@ || code == "withdrawal_count_limit_exceeded"@ {
        DeclineCode::LimitExceeded
    } else if code == "authentication_required"@ {
        DeclineCode::AuthenticationRequired
    } else if code == "processing_error"@ || code == "issuer_not_available"@ || code
        == "try_again_later"@ {
        DeclineCode::ProcessingError
    } else if code == "currency_not_supported"@ || code == "card_not_supported"@ {
        DeclineCode::Unsupported
    } else {
        DeclineCode::GenericDecline
    }
}

/// Normalise a Stripe decline code.
pub fn map_decline_code(code: Option<&str>) -> (decline: DeclineCode)
    ensures
        decline == match code {
            Some(text) => decline_of(text@),
            None => DeclineCode::GenericDecline,
        },
{
    let code = match code {
        Some(code) => code,
        None => return DeclineCode::GenericDecline,
    };
    if same_text(code, "insufficient_funds") {
        DeclineCode::InsufficientFunds
    } else if same_text(code, "expired_card") {
        DeclineCode::ExpiredCard
    } else if same_text(code, "incorrect_number") || same_text(code, "invalid_number") {
        DeclineCode::IncorrectNumber
    } else if same_text(code, "incorrect_cvc") || same_text(code, "invalid_cvc") {
        DeclineCode::IncorrectCvc
    } else if same_text(code, "incorrect_zip") {
        DeclineCode::IncorrectPostalCode
    } else if same_text(code, "fraudulent") || same_text(code, "merchant_blacklist") || same_text(
        code,
        "pickup_card",
    ) {
        DeclineCode::Fraudulent
    } else if same_text(code, "lost_card") || same_text(code, "stolen_card") {
        DeclineCode::LostOrStolenCard
    } else if same_text(code, "card_velocity_exceeded") || same_text(
        code,
        "withdrawal_count_limit_exceeded",
    ) {
        DeclineCode::LimitExceeded
    } else if same_text(code, "authentication_required") {
        DeclineCode::AuthenticationRequired
    } else if same_text(code, "processing_error") || same_text(code, "issuer_not_available")
        || same_text(code, "try_again_later") {
        DeclineCode::ProcessingError
    } else if same_text(code, "currency_not_supported") || same_text(code, "card_not_supported") {
        DeclineCode::Unsupported
    } else {
        DeclineCode::GenericDecline
    }
}

/// Stripe's word for the reason of a refund, if it has one.
pub open spec fn reason_word(reason: RefundReason) -> Option<Seq<char>> {
    match reason {
        RefundReason::Duplicate => Some("duplicate"@),
        RefundReason::Fraudulent => Some("fraudulent"@),
        RefundReason::RequestedByCustomer => Some("requested_by_customer"@),
        RefundReason::OrderCanceled => Some("requested_by_customer"@),
        RefundReason::Unavailable => Some("requested_by_customer"@),
        RefundReason::Other => None,
    }
}

/// Stripe's word for the reason of a refund, if it has one.
pub fn refund_reason(reason: RefundReason) -> (word: Option<&'static str>)
    ensures
        match word {
            Some(text) => reason_word(reason) == Some(text@),
            None => reason_word(reason) is None,
        },
{
    match reason {
        RefundReason::Duplicate => Some("duplicate"),
        RefundReason::Fraudulent => Some("fraudulent"),
        RefundReason::RequestedByCustomer | RefundReason::OrderCanceled
        | RefundReason::Unavailable => Some("requested_by_customer"),
        RefundReason::Other => None,
    }
}

// Responses.

/// The error that a failure payload describes.
pub open spec fn failure_of(body: JsonView, retryable: bool) -> ErrorView {
    let error = body.member("error"@);
    let message = error.member("message"@).text_or("Stripe returned an error with no message"@);
    let code = error.member("code"@).text();
    let decline = error.member("decline_code"@).text();
    let kind = error.member("type"@).text();
    if kind == Some("card_error"@) || decline is Some {
        ErrorView::Declined {
            code: if decline is Some {
                decline_of(decline->0)
            } else if code is Some {
                decline_of(code->0)
            } else {
                DeclineCode::GenericDecline
            },
            message,
        }
    } else {
        ErrorView::Gateway {
            gateway: "stripe"@,
            provider_code: code,
            message,
            retryable: retryable || kind == Some("api_error"@),
        }
    }
}

/// What a response body holds; null where it is no JSON.
pub open spec fn body_or_null(response: HttpResponse) -> JsonView {
    match json_document(response.body@) {
        Ok(body) => body,
        Err(_) => JsonView::Null,
    }
}

/// The payload of a response, or the error it describes.
pub open spec fn interpreted(response: HttpResponse) -> Result<JsonView, ErrorView> {
    if response.succeeded() {
        Ok(body_or_null(response))
    } else {
        Err(failure_of(body_or_null(response), response.may_be_retried()))
    }
}

/// A document, or the error in its place.
pub open spec fn document_outcome(document: Result<serde_json::Value, Error>) -> Result<
    JsonView,
    ErrorView,
> {
    match document {
        Ok(value) => Ok(json_content(value)),
        Err(error) => Err(error@),
    }
}

/// The state of a payment intent.
pub open spec fn intent_status(status: Seq<char>) -> TransactionStatus {
    if status == "succeeded"@ {
        TransactionStatus::Captured
    } else if status == "requires_capture"@ {
        TransactionStatus::Authorized
    } else if status == "requires_action"@ || status == "requires_confirmation"@ {
        TransactionStatus::RequiresAction
    } else if status == "processing"@ {
        TransactionStatus::Pending
    } else if status == "canceled"@ {
        TransactionStatus::Canceled
    } else {
        TransactionStatus::Failed
    }
}

/// The outstanding action of a payment intent.
pub open spec fn intent_action(intent: JsonView) -> Option<NextActionView> {
    let action = intent.member("next_action"@);
    let url = action.member("redirect_to_url"@).member("url"@).text();
    let secret = intent.member("client_secret"@).text();
    if !(action is Object) {
        None
    } else if url is Some {
        Some(NextActionView::Redirect(url->0))
    } else if secret is Some {
        Some(NextActionView::UseSdk(secret->0))
    } else {
        None
    }
}

/// When a hold lapses: seven days after it was created. The outer `None` stands for a day
/// beyond the calendar.
pub open spec fn intent_expiry(intent: JsonView) -> Option<Option<Timestamp>> {
    match intent.member("created"@).integer() {
        None => Some(None),
        Some(created) => match Timestamp::at_second(created as int) {
            None => Some(None),
            Some(at) => match at.later(Duration { seconds: 604_800, nanos: 0 }) {
                None => None,
                Some(expiry) => Some(Some(expiry)),
            },
        },
    }
}

/// The answer that a payment intent describes.
pub open spec fn intent_answer(intent: JsonView) -> Result<AuthorizeView, ErrorView> {
    let status = intent_status(intent.member("status"@).text_or(""@));
    let received = intent.member("amount_received"@).integer_or(0);
    let authorized: i64 = match status {
        TransactionStatus::Authorized => intent.member("amount_capturable"@).integer_or(0),
        TransactionStatus::Captured => intent.member("amount"@).integer_or(0),
        _ => 0,
    };
    match Currency::of_code(intent.member("currency"@).text_or("usd"@)) {
        Err(error) => Err(error),
        Ok(currency) => match intent_expiry(intent) {
            None => Err(ErrorView::Internal("the expiry lies beyond the calendar"@)),
            Some(expires_at) => Ok(
                AuthorizeView {
                    transaction_id: intent.member("id"@).text_or(""@),
                    status,
                    amount_authorized: Money { minor: authorized, currency },
                    amount_captured: Money { minor: received, currency },
                    expires_at,
                    next_action: intent_action(intent),
                    processor_reference: intent.member("latest_charge"@).text(),
                    raw: Some(intent),
                },
            ),
        },
    }
}

/// The answer that a response describes.
pub open spec fn authorize_answer(response: HttpResponse) -> Result<AuthorizeView, ErrorView> {
    match interpreted(response) {
        Err(error) => Err(error),
        Ok(body) => intent_answer(body),
    }
}

/// The state of a refund.
pub open spec fn refund_status(status: Seq<char>) -> RefundStatus {
    if status == "succeeded"@ {
        RefundStatus::Succeeded
    } else if status == "pending"@ || status == "requires_action"@ {
        RefundStatus::Pending
    } else if status == "canceled"@ {
        RefundStatus::Canceled
    } else {
        RefundStatus::Failed
    }
}

/// The refund that a response describes.
pub open spec fn refund_answer(response: HttpResponse) -> Result<GatewayRefundView, ErrorView> {
    match interpreted(response) {
        Err(error) => Err(error),
        Ok(body) => match Currency::of_code(body.member("currency"@).text_or("usd"@)) {
            Err(error) => Err(error),
            Ok(currency) => Ok(
                GatewayRefundView {
                    refund_reference: body.member("id"@).text_or(""@),
                    amount: Money { minor: body.member("amount"@).integer_or(0), currency },
                    status: refund_status(body.member("status"@).text_or(""@)),
                    raw: Some(body),
                },
            ),
        },
    }
}

// Requests.

/// The fields that name an instrument.
pub open spec fn instrument_fields(instrument: InstrumentRef) -> Seq<(Seq<char>, Seq<char>)> {
    match instrument {
        InstrumentRef::SingleUseToken { token } => seq![("payment_method"@, token@)],
        InstrumentRef::Vaulted { token, customer_token } => seq![
            ("payment_method"@, token@),
            ("customer"@, customer_token@),
        ],
    }
}

/// The first transfer group that transfers name.
pub open spec fn named_group(transfers: Seq<TransferInstruction>) -> Option<Seq<char>>
    decreases transfers.len(),
{
    if transfers.len() == 0 {
        None
    } else if transfers[0].transfer_group is Some {
        Some(transfers[0].transfer_group->0@)
    } else {
        named_group(transfers.drop_first())
    }
}

/// The fields that route a charge. Stripe routes a charge to at most one connected
/// account inline; several share a transfer group.
pub open spec fn transfer_fields(request: AuthorizeRequest) -> Seq<(Seq<char>, Seq<char>)> {
    let transfers = request.transfers@;
    if transfers.len() == 0 {
        Seq::empty()
    } else if transfers.len() == 1 {
        seq![
            ("transfer_data[destination]"@, transfers[0].destination@),
            ("transfer_data[amount]"@, integer_text(transfers[0].amount.minor as int)),
        ] + optional_field("transfer_group"@, optional_text(transfers[0].transfer_group))
    } else {
        seq![
            (
                "transfer_group"@,
                match named_group(transfers) {
                    Some(group) => group,
                    None => match request.order_id {
                        Some(order) => order@,
                        None => request.idempotency_key@,
                    },
                },
            ),
        ]
    }
}

/// The fields that describe the charge itself.
pub open spec fn charge_fields(request: AuthorizeRequest) -> Seq<(Seq<char>, Seq<char>)> {
    seq![
        ("amount"@, integer_text(request.amount.minor as int)),
        ("currency"@, lower(request.amount.currency.letters())),
        ("confirm"@, "true"@),
        (
            "capture_method"@,
            match request.capture_mode {
                CaptureMode::Automatic => "automatic"@,
                CaptureMode::Manual => "manual"@,
            },
        ),
    ]
}

/// The fields that depend on who charges and how it is shown.
pub open spec fn detail_fields(request: AuthorizeRequest) -> Seq<(Seq<char>, Seq<char>)> {
    let off_session = if request.initiator is MerchantOffSession {
        Some("true"@)
    } else {
        None
    };
    let fee = match request.application_fee {
        Some(fee) => if fee.minor > 0 {
            Some(integer_text(fee.minor as int))
        } else {
            None
        },
        None => None,
    };
    optional_field("off_session"@, off_session) + optional_field(
        "statement_descriptor"@,
        optional_text(request.statement_descriptor),
    ) + optional_field("description"@, optional_text(request.description)) + optional_field(
        "return_url"@,
        optional_text(request.return_url),
    ) + optional_field("application_fee_amount"@, fee)
}

/// The fields that tie a charge to our records.
pub open spec fn reference_fields(request: AuthorizeRequest) -> Seq<(Seq<char>, Seq<char>)> {
    optional_field(
        "metadata[order_id]"@,
        match request.order_id {
            Some(order) => Some(order@),
            None => None,
        },
    ) + optional_field(
        "metadata[customer_id]"@,
        match request.customer_id {
            Some(customer) => Some(customer@),
            None => None,
        },
    ) + metadata_fields(request.metadata@, listed(request.metadata@).len() as int)
}

/// The form of an authorisation.
pub open spec fn authorize_form(request: AuthorizeRequest) -> Seq<(Seq<char>, Seq<char>)> {
    charge_fields(request) + instrument_fields(request.instrument) + detail_fields(request)
        + transfer_fields(request) + reference_fields(request)
}

/// The form of a capture.
pub open spec fn capture_form(request: CaptureRequest) -> Seq<(Seq<char>, Seq<char>)> {
    seq![("amount_to_capture"@, integer_text(request.amount.minor as int))]
}

/// The form of a refund.
pub open spec fn refund_form(request: GatewayRefundRequest) -> Seq<(Seq<char>, Seq<char>)> {
    seq![
        ("payment_intent"@, request.transaction_id@),
        ("amount"@, integer_text(request.amount.minor as int)),
    ] + optional_field("reason"@, reason_word(request.reason)) + optional_field(
        "reverse_transfer"@,
        if request.reverse_transfers {
            Some("true"@)
        } else {
            None
        },
    ) + optional_field(
        "refund_application_fee"@,
        if request.refund_application_fee {
            Some("true"@)
        } else {
            None
        },
    ) + metadata_fields(request.metadata@, listed(request.metadata@).len() as int)
}

/// The capture that an answer describes.
pub open spec fn capture_answer(request: CaptureRequest, response: HttpResponse) -> Result<
    CaptureView,
    ErrorView,
> {
    match authorize_answer(response) {
        Err(error) => Err(error),
        Ok(intent) => Ok(
            CaptureView {
                capture_reference: match intent.processor_reference {
                    Some(reference) => reference,
                    None => intent.transaction_id,
                },
                status: intent.status,
                amount_captured: request.amount,
                total_captured: intent.amount_captured,
                raw: intent.raw,
            },
        ),
    }
}

impl StripeView {
    /// A request with authentication, version and, where there is one, idempotency key.
    pub open spec fn signed(self, request: RequestView, key: Option<Seq<char>>) -> RequestView {
        let versioned = request.with_bearer_auth(self.secret_key).with_header(
            "stripe-version"@,
            self.api_version,
        );
        match key {
            Some(text) => versioned.with_header("idempotency-key"@, text),
            None => versioned,
        }
    }

    /// A form request.
    pub open spec fn form_request(
        self,
        path: Seq<char>,
        form: Seq<(Seq<char>, Seq<char>)>,
        key: Option<Seq<char>>,
    ) -> RequestView {
        self.signed(RequestView::post_form(self.base_url + path, form), key)
    }

    /// The event a webhook is about, or why it is refused.
    pub open spec fn notified(self, payload: Seq<u8>, headers: Headers, now: Timestamp) -> Result<
        EventView,
        ErrorView,
    > {
        match self.webhook_secret {
            None => Err(
                ErrorView::Configuration("no Stripe webhook signing secret configured"@),
            ),
            Some(secret) => match headers.value("stripe-signature"@) {
                None => Err(
                    ErrorView::WebhookVerification("missing 'stripe-signature' header"@),
                ),
                Some(header) => match signature_refused(
                    secret,
                    self.tolerance,
                    payload,
                    signed_parts(pieces(header, ',')),
                    now,
                ) {
                    Some(error) => Err(error),
                    None => match json_document(payload) {
                        Err(message) => Err(
                            ErrorView::WebhookVerification("invalid JSON body: "@ + message),
                        ),
                        Ok(body) => Ok(event_of(body, now)),
                    },
                },
            },
        }
    }
}

// Webhooks.

/// What a signature header says: a timestamp, and candidate signatures.
pub ghost struct SignedParts {
    /// Seconds since the Unix epoch.
    pub timestamp: Option<i64>,
    /// Candidate signatures.
    pub candidates: Seq<Seq<char>>,
}

/// What a header says with one more piece, `name=value`.
pub open spec fn with_piece(parts: SignedParts, piece: Seq<char>) -> SignedParts {
    let part = trimmed(piece);
    let at = first_index(part, '=');
    if at >= part.len() {
        parts
    } else if part.take(at) == "t"@ {
        SignedParts { timestamp: signed_of(part.skip(at + 1)), ..parts }
    } else if part.take(at) == "v1"@ {
        SignedParts { candidates: parts.candidates.push(part.skip(at + 1)), ..parts }
    } else {
        parts
    }
}

/// What a list of pieces says.
pub open spec fn signed_parts(list: Seq<Seq<char>>) -> SignedParts
    decreases list.len(),
{
    if list.len() == 0 {
        SignedParts { timestamp: None, candidates: Seq::empty() }
    } else {
        with_piece(signed_parts(list.drop_last()), list.last())
    }
}

/// The bytes that are signed: the timestamp, a dot, and the raw body.
pub open spec fn signed_bytes(timestamp: i64, payload: Seq<u8>) -> Seq<u8> {
    encode_utf8(integer_text(timestamp as int)).push(46) + payload
}

/// Whether one of a list of candidates is a signature.
pub open spec fn any_matches(candidates: Seq<Seq<char>>, expected: Seq<char>) -> bool {
    exists|i: int| 0 <= i < candidates.len() && trimmed(#[trigger] candidates[i]) == expected
}

/// Why a signature is refused, when it is.
pub open spec fn signature_refused(
    secret: Seq<char>,
    tolerance: i64,
    payload: Seq<u8>,
    parts: SignedParts,
    now: Timestamp,
) -> Option<ErrorView> {
    match parts.timestamp {
        None => Some(ErrorView::WebhookVerification("Stripe-Signature has no timestamp"@)),
        Some(timestamp) => if distance(now.seconds, timestamp) > tolerance {
            Some(
                ErrorView::WebhookVerification(
                    "timestamp is "@ + crate::text::digits(distance(now.seconds, timestamp))
                        + "s away from now, tolerance is "@ + integer_text(tolerance as int)
                        + "s"@,
                ),
            )
        } else if !any_matches(
            parts.candidates,
            signature(secret, signed_bytes(timestamp, payload)),
        ) {
            Some(ErrorView::WebhookVerification("no Stripe-Signature v1 entry matched"@))
        } else {
            None
        },
    }
}

/// The normalised type of an event.
pub open spec fn event_kind(provider_type: Seq<char>, object: JsonView) -> EventKindView {
    if provider_type == "payment_intent.amount_capturable_updated"@ {
        EventKindView::PaymentAuthorized
    } else if provider_type == "payment_intent.succeeded"@ || provider_type
        == "charge.captured"@ {
        EventKindView::PaymentCaptured
    } else if provider_type == "payment_intent.payment_failed"@ || provider_type
        == "charge.failed"@ {
        EventKindView::PaymentFailed
    } else if provider_type == "payment_intent.canceled"@ {
        EventKindView::PaymentCanceled
    } else if provider_type == "charge.expired"@ {
        EventKindView::AuthorizationExpired
    } else if provider_type == "charge.refunded"@ || provider_type == "refund.created"@ {
        EventKindView::RefundSucceeded
    } else if provider_type == "refund.failed"@ {
        EventKindView::RefundFailed
    } else if provider_type == "charge.dispute.created"@ {
        EventKindView::DisputeOpened
    } else if provider_type == "charge.dispute.closed"@ {
        EventKindView::DisputeClosed(object.member("status"@).text() == Some("won"@))
    } else if provider_type == "payout.paid"@ {
        EventKindView::PayoutPaid
    } else {
        EventKindView::Unknown(provider_type)
    }
}

/// The amount an event is about, when it names one in a known currency.
pub open spec fn event_amount(object: JsonView) -> Option<Money> {
    match (object.member("amount"@).integer(), object.member("currency"@).text()) {
        (Some(minor), Some(code)) => match Currency::of_code(code) {
            Ok(currency) => Some(Money { minor, currency }),
            Err(_) => None,
        },
        _ => None,
    }
}

/// When an event happened; `now` where it does not say.
pub open spec fn event_time(body: JsonView, now: Timestamp) -> Timestamp {
    match body.member("created"@).integer() {
        Some(created) => match Timestamp::at_second(created as int) {
            Some(at) => at,
            None => now,
        },
        None => now,
    }
}

/// The event that a payload describes.
pub open spec fn event_of(body: JsonView, now: Timestamp) -> EventView {
    let object = body.member("data"@).member("object"@);
    let intent = object.member("payment_intent"@).text();
    EventView {
        provider_event_id: body.member("id"@).text_or(""@),
        gateway: "stripe"@,
        kind: event_kind(body.member("type"@).text_or("unknown"@), object),
        transaction_id: if intent is Some {
            intent
        } else {
            object.member("id"@).text()
        },
        amount: event_amount(object),
        occurred_at: event_time(body, now),
        raw: Some(body),
    }
}

fn text_is(document: &serde_json::Value, key: &str, wanted: &str) -> (found: bool)
    ensures
        found == (json_content(*document).member(key@).text() == Some(wanted@)),
{
    match text_of_json(member(document, key)) {
        Some(text) => same_text(text, wanted),
        None => false,
    }
}

fn integer_member(document: &serde_json::Value, key: &str) -> (number: i64)
    ensures
        number == json_content(*document).member(key@).integer_or(0),
{
    match integer_of_json(member(document, key)) {
        Some(number) => number,
        None => 0,
    }
}

/// Normalise the type of an event about an object.
pub fn map_event(provider_type: &str, object: &serde_json::Value) -> (kind: GatewayEventKind)
    ensures
        kind@ == event_kind(provider_type@, json_content(*object)),
{
    if same_text(provider_type, "payment_intent.amount_capturable_updated") {
        GatewayEventKind::PaymentAuthorized
    } else if same_text(provider_type, "payment_intent.succeeded") || same_text(
        provider_type,
        "charge.captured",
    ) {
        GatewayEventKind::PaymentCaptured
    } else if same_text(provider_type, "payment_intent.payment_failed") || same_text(
        provider_type,
        "charge.failed",
    ) {
        GatewayEventKind::PaymentFailed
    } else if same_text(provider_type, "payment_intent.canceled") {
        GatewayEventKind::PaymentCanceled
    } else if same_text(provider_type, "charge.expired") {
        GatewayEventKind::AuthorizationExpired
    } else if same_text(provider_type, "charge.refunded") || same_text(
        provider_type,
        "refund.created",
    ) {
        GatewayEventKind::RefundSucceeded
    } else if same_text(provider_type, "refund.failed") {
        GatewayEventKind::RefundFailed
    } else if same_text(provider_type, "charge.dispute.created") {
        GatewayEventKind::DisputeOpened
    } else if same_text(provider_type, "charge.dispute.closed") {
        GatewayEventKind::DisputeClosed { won: text_is(object, "status", "won") }
    } else if same_text(provider_type, "payout.paid") {
        GatewayEventKind::PayoutPaid
    } else {
        GatewayEventKind::Unknown { provider_type: provider_type.to_owned() }
    }
}

/// What a signature header says.
#[derive(Debug)]
pub struct SignatureHeader {
    /// Seconds since the Unix epoch.
    pub timestamp: Option<i64>,
    /// Candidate signatures.
    pub candidates: Vec<String>,
}

impl View for SignatureHeader {
    type V = SignedParts;

    open spec fn view(&self) -> SignedParts {
        SignedParts {
            timestamp: self.timestamp,
            candidates: self.candidates@.map_values(|text: String| text@),
        }
    }
}

/// Read a `t=<timestamp>,v1=<hex>,v1=<hex>` header.
pub fn read_signature_header(header: &str) -> (parts: SignatureHeader)
    ensures
        parts@ == signed_parts(pieces(header@, ',')),
{
    let chars = chars_of(header);
    let list = split_on(&chars, ',');
    let ghost all = pieces(header@, ',');
    let mut parts = SignatureHeader { timestamp: None, candidates: Vec::new() };
    let mut n: usize = 0;
    assert(all.take(0) =~= Seq::<Seq<char>>::empty());
    assert(parts@.candidates =~= Seq::<Seq<char>>::empty());
    while n < list.len()
        invariant
            n <= list@.len(),
            piece_views(list@) == all,
            parts@ == signed_parts(all.take(n as int)),
        decreases list@.len() - n,
    {
        assert(all.take(n + 1).drop_last() =~= all.take(n as int));
        assert(all[n as int] == list@[n as int]@);
        let ghost before = parts@;
        let piece = text_of(&list[n], 0, list[n].len());
        assert(piece@ =~= list@[n as int]@);
        let part = trim(piece.as_str());
        let part_chars = chars_of(part.as_str());
        let at = find_char(&part_chars, '=');
        if at < part_chars.len() {
            let name = text_of(&part_chars, 0, at);
            let rest = slice_of(&part_chars, at + 1, part_chars.len());
            assert(name@ =~= part@.take(at as int));
            assert(rest@ =~= part@.skip(at + 1));
            if same_text(name.as_str(), "t") {
                parts.timestamp = parse_signed(&rest);
                assert(parts@.candidates =~= before.candidates);
            } else if same_text(name.as_str(), "v1") {
                let value = text_of(&rest, 0, rest.len());
                assert(value@ =~= rest@);
                parts.candidates.push(value);
                assert(parts@.candidates =~= before.candidates.push(rest@));
            }
        }
        n += 1;
    }
    assert(all.take(n as int) =~= all);
    parts
}

fn has_match(candidates: &Vec<String>, expected: &str) -> (found: bool)
    ensures
        found == any_matches(candidates@.map_values(|text: String| text@), expected@),
{
    let ghost all = candidates@.map_values(|text: String| text@);
    let mut i: usize = 0;
    while i < candidates.len()
        invariant
            i <= candidates@.len(),
            all == candidates@.map_values(|text: String| text@),
            forall|j: int| 0 <= j < i ==> trimmed(#[trigger] all[j]) != expected@,
        decreases candidates@.len() - i,
    {
        let candidate = trim(candidates[i].as_str());
        assert(all[i as int] == candidates@[i as int]@);
        proof {
            lemma_same_bytes_same_text(expected@, candidate@);
        }
        if bytes_equal(expected.as_bytes(), candidate.as_str().as_bytes()) {
            return true;
        }
        i += 1;
    }
    false
}

impl StripeGateway {
    /// Build an adapter from a secret key.
    pub fn new(secret_key: SecretString) -> (gateway: Self)
        ensures
            gateway@ == (StripeView {
                secret_key: secret_key@,
                webhook_secret: None,
                base_url: "https://api.stripe.com"@,
                api_version: "2024-06-20"@,
                tolerance: 300,
            }),
    {
        StripeGateway {
            secret_key,
            webhook_secret: None,
            base_url: "https://api.stripe.com".to_owned(),
            api_version: "2024-06-20".to_owned(),
            signature_tolerance_seconds: 300,
        }
    }

    /// Builder: set the webhook signing secret (`whsec_…`).
    pub fn with_webhook_secret(self, secret: SecretString) -> (gateway: Self)
        ensures
            gateway@ == (StripeView { webhook_secret: Some(secret@), ..self@ }),
    {
        StripeGateway { webhook_secret: Some(secret), ..self }
    }

    /// Builder: point at a different base URL (a local mock, a proxy).
    pub fn with_base_url(self, base_url: &str) -> (gateway: Self)
        ensures
            gateway@ == (StripeView { base_url: base_url@, ..self@ }),
    {
        StripeGateway { base_url: base_url.to_owned(), ..self }
    }

    /// Builder: pin the Stripe API version.
    pub fn with_api_version(self, version: &str) -> (gateway: Self)
        ensures
            gateway@ == (StripeView { api_version: version@, ..self@ }),
    {
        StripeGateway { api_version: version.to_owned(), ..self }
    }

    /// The adapter's identifier.
    pub fn id(&self) -> (id: GatewayId)
        ensures
            id@ == "stripe"@,
    {
        GatewayId::from_static("stripe")
    }

    /// What Stripe can do.
    pub fn capabilities(&self) -> (capabilities: Capabilities)
        ensures
            capabilities.delayed_capture,
            capabilities.partial_capture,
            !capabilities.multi_capture,
            capabilities.refunds,
            capabilities.partial_refunds,
            capabilities.connected_accounts,
            capabilities.application_fees,
            capabilities.stored_credentials,
            capabilities.webhooks,
            capabilities.disputes,
            capabilities.three_d_secure,
            capabilities.authorization_validity == (Duration { seconds: 604_800, nanos: 0 }),
            capabilities.currencies@ == Map::<Seq<char>, ()>::empty(),
    {
        // Stripe closes the authorisation after the first capture.
        Capabilities { multi_capture: false, ..Capabilities::full() }
    }

    fn request(&self, request: HttpRequest, idempotency_key: Option<&str>) -> (signed: HttpRequest)
        ensures
            signed@ == self@.signed(
                request@,
                match idempotency_key {
                    Some(key) => Some(key@),
                    None => None,
                },
            ),
    {
        let versioned = request.with_bearer_auth(&self.secret_key).with_header(
            "stripe-version",
            self.api_version.as_str(),
        );
        match idempotency_key {
            Some(key) => versioned.with_header("idempotency-key", key),
            None => versioned,
        }
    }

    fn form_request(&self, path: &str, form: &FormBody, idempotency_key: Option<&str>) -> (
    signed: HttpRequest)
        ensures
            signed@ == self@.form_request(
                path@,
                form@,
                match idempotency_key {
                    Some(key) => Some(key@),
                    None => None,
                },
            ),
    {
        let url = join(self.base_url.as_str(), path);
        self.request(HttpRequest::post_form(url.as_str(), form), idempotency_key)
    }

    /// The payload of a response, or the error it describes.
    pub fn interpret(&self, response: &HttpResponse) -> (body: Result<serde_json::Value, Error>)
        ensures
            document_outcome(body) == interpreted(*response),
    {
        let body = match response.json_body() {
            Ok(body) => body,
            Err(_) => null_json(),
        };
        if response.is_success() {
            return Ok(body);
        }
        Err(self.map_error(&body, response.is_retryable()))
    }

    /// Translate a Stripe error payload into a crate error.
    pub fn map_error(&self, body: &serde_json::Value, retryable: bool) -> (error: Error)
        ensures
            error@ == failure_of(json_content(*body), retryable),
    {
        let error = member(body, "error");
        let message = text_member(error, "message", "Stripe returned an error with no message");
        let code = optional_member(error, "code");
        let decline = text_of_json(member(error, "decline_code"));
        if text_is(error, "type", "card_error") || decline.is_some() {
            let known = match decline {
                Some(text) => map_decline_code(Some(text)),
                None => match &code {
                    Some(text) => map_decline_code(Some(text.as_str())),
                    None => map_decline_code(None),
                },
            };
            return Error::Declined { code: known, message };
        }
        Error::Gateway {
            gateway: "stripe".to_owned(),
            provider_code: code,
            message,
            retryable: retryable || text_is(error, "type", "api_error"),
        }
    }

    /// The answer that a payment intent describes.
    pub fn parse_intent(&self, intent: &serde_json::Value) -> (response: Result<
        AuthorizeResponse,
        Error,
    >)
        ensures
            authorize_outcome(response) == intent_answer(json_content(*intent)),
    {
        let currency = match Currency::from_code(text_member(intent, "currency", "usd").as_str()) {
            Ok(currency) => currency,
            Err(error) => return Err(error),
        };
        let word = text_member(intent, "status", "");
        let status = word.as_str();
        let amount = integer_member(intent, "amount");
        let capturable = integer_member(intent, "amount_capturable");
        let received = integer_member(intent, "amount_received");
        let transaction_status = if same_text(status, "succeeded") {
            TransactionStatus::Captured
        } else if same_text(status, "requires_capture") {
            TransactionStatus::Authorized
        } else if same_text(status, "requires_action") || same_text(
            status,
            "requires_confirmation",
        ) {
            TransactionStatus::RequiresAction
        } else if same_text(status, "processing") {
            TransactionStatus::Pending
        } else if same_text(status, "canceled") {
            TransactionStatus::Canceled
        } else {
            TransactionStatus::Failed
        };
        let authorized: i64 = match transaction_status {
            TransactionStatus::Authorized => capturable,
            TransactionStatus::Captured => amount,
            _ => 0,
        };
        let action = member(intent, "next_action");
        let next_action = if is_json_object(action) {
            match text_of_json(member(member(action, "redirect_to_url"), "url")) {
                Some(url) => Some(NextAction::Redirect { url: url.to_owned() }),
                None => match text_of_json(member(intent, "client_secret")) {
                    Some(secret) => Some(
                        NextAction::UseSdk { client_secret: secret.to_owned() },
                    ),
                    None => None,
                },
            }
        } else {
            None
        };
        // Stripe holds card authorisations for 7 days.
        let expires_at = match integer_of_json(member(intent, "created")) {
            Some(created) => match Timestamp::from_seconds(created) {
                Some(at) => match at.plus(Duration::days(7)) {
                    Some(expiry) => Some(expiry),
                    None => return Err(Error::internal("the expiry lies beyond the calendar")),
                },
                None => None,
            },
            None => None,
        };
        Ok(
            AuthorizeResponse {
                transaction_id: text_member(intent, "id", ""),
                status: transaction_status,
                amount_authorized: Money::from_minor(authorized, currency),
                amount_captured: Money::from_minor(received, currency),
                expires_at,
                next_action,
                processor_reference: optional_member(intent, "latest_charge"),
                raw: Some(copy_json(intent)),
            },
        )
    }

    /// The request that registers a customer.
    pub fn customer_request(&self, request: &CustomerRequest) -> (http: HttpRequest)
        ensures
            http@ == self@.form_request(
                "/v1/customers"@,
                seq![("metadata[customer_id]"@, request.customer_id@)] + optional_field(
                    "email"@,
                    optional_text(request.email),
                ) + optional_field("name"@, optional_text(request.name)) + metadata_fields(
                    request.metadata@,
                    listed(request.metadata@).len() as int,
                ),
                Some("customer:"@ + request.customer_id@),
            ),
    {
        let mut form = FormBody::new();
        form.set("metadata[customer_id]", request.customer_id.as_str());
        assert(form@ =~= seq![("metadata[customer_id]"@, request.customer_id@)]);
        set_optional(&mut form, "email", &request.email);
        set_optional(&mut form, "name", &request.name);
        set_metadata(&mut form, &request.metadata);
        let key = join("customer:", request.customer_id.as_str());
        self.form_request("/v1/customers", &form, Some(key.as_str()))
    }

    /// The customer that a response describes.
    pub fn customer_response(&self, response: &HttpResponse) -> (customer: Result<String, Error>)
        ensures
            match customer {
                Ok(id) => interpreted(*response) matches Ok(body) && body.member("id"@).text()
                    == Some(id@),
                Err(error) => match interpreted(*response) {
                    Ok(body) => body.member("id"@).text() is None && error@ == ErrorView::Internal(
                        "Stripe customer response had no id"@,
                    ),
                    Err(failure) => error@ == failure,
                },
            },
    {
        let body = match self.interpret(response) {
            Ok(body) => body,
            Err(error) => return Err(error),
        };
        match text_of_json(member(&body, "id")) {
            Some(id) => Ok(id.to_owned()),
            None => Err(Error::internal("Stripe customer response had no id")),
        }
    }

    /// The request that vaults an instrument.
    pub fn vault_request(&self, request: &VaultRequest) -> (http: HttpRequest)
        ensures
            http@ == self@.form_request(
                "/v1/payment_methods/"@ + request.setup_token@ + "/attach"@,
                seq![("customer"@, request.gateway_customer_id@)],
                Some("vault:"@ + request.setup_token@),
            ),
    {
        let mut form = FormBody::new();
        form.set("customer", request.gateway_customer_id.as_str());
        assert(form@ =~= seq![("customer"@, request.gateway_customer_id@)]);
        let path = join3("/v1/payment_methods/", request.setup_token.as_str(), "/attach");
        let key = join("vault:", request.setup_token.as_str());
        self.form_request(path.as_str(), &form, Some(key.as_str()))
    }

    /// The last digits, month and year of the card that a payload describes.
    pub open spec fn card_numbers(card: JsonView) -> (Seq<char>, u32, i32) {
        (
            card.member("last4"@).text_or("0000"@),
            match card.member("exp_month"@).unsigned() {
                Some(month) => month as u32,
                None => 12,
            },
            card.member("exp_year"@).integer_or(2099) as i32,
        )
    }

    /// Whether an instrument is the one that a payload describes.
    pub open spec fn is_described(kind: PaymentMethodKind, body: JsonView) -> bool {
        let card = body.member("card"@);
        if card is Object {
            &&& kind matches PaymentMethodKind::Card(summary)
            &&& summary.brand@ == card.member("brand"@).text_or("unknown"@)
            &&& (summary.last4@, summary.exp_month, summary.exp_year) == Self::card_numbers(card)
            &&& optional_text(summary.country) == card.member("country"@).text()
            &&& optional_text(summary.funding) == card.member("funding"@).text()
            &&& optional_text(summary.fingerprint) == card.member("fingerprint"@).text()
        } else {
            kind matches PaymentMethodKind::Other { provider_type } && provider_type@
                == body.member("type"@).text_or("unknown"@)
        }
    }

    /// Why the card that a payload describes is refused, when it is.
    pub open spec fn card_refused(body: JsonView) -> Option<ErrorView> {
        let card = body.member("card"@);
        let (last4, month, year) = Self::card_numbers(card);
        if card is Object {
            CardSummary::refused(last4, month, year)
        } else {
            None
        }
    }

    /// The instrument that a response describes.
    pub fn vault_response(&self, request: &VaultRequest, response: &HttpResponse) -> (
    method: Result<PaymentMethodRef, Error>)
        ensures
            match method {
                Ok(made) => {
                    &&& interpreted(*response) is Ok
                    &&& Self::card_refused(interpreted(*response)->Ok_0) is None
                    &&& Self::is_described(made.kind, interpreted(*response)->Ok_0)
                    &&& is_generated(made.id@, "pm"@)
                    &&& made.customer_id@ == request.customer_id@
                    &&& made.gateway@ == "stripe"@
                    &&& made.gateway_token@ == interpreted(*response)->Ok_0.member("id"@).text_or(
                        ""@,
                    )
                    &&& optional_text(made.gateway_customer_id) == Some(
                        request.gateway_customer_id@,
                    )
                    &&& made.billing_address is None
                    &&& !made.is_default
                    &&& made.reusable == request.allow_off_session
                    &&& made.metadata@ == request.metadata@
                },
                Err(error) => match interpreted(*response) {
                    Ok(body) => Self::card_refused(body) == Some(error@),
                    Err(failure) => error@ == failure,
                },
            },
    {
        let body = match self.interpret(response) {
            Ok(body) => body,
            Err(error) => return Err(error),
        };
        let card = member(&body, "card");
        let kind = if is_json_object(card) {
            let brand = text_member(card, "brand", "unknown");
            let last4 = text_member(card, "last4", "0000");
            let month: u32 = match unsigned_of_json(member(card, "exp_month")) {
                Some(month) => month as u32,
                None => 12,
            };
            let year: i64 = match integer_of_json(member(card, "exp_year")) {
                Some(year) => year,
                None => 2099,
            };
            let mut summary = match CardSummary::new(
                brand.as_str(),
                last4.as_str(),
                month,
                year as i32,
            ) {
                Ok(summary) => summary,
                Err(error) => return Err(error),
            };
            summary.country = optional_member(card, "country");
            summary.funding = optional_member(card, "funding");
            summary.fingerprint = optional_member(card, "fingerprint");
            PaymentMethodKind::Card(summary)
        } else {
            PaymentMethodKind::Other { provider_type: text_member(&body, "type", "unknown") }
        };
        let token = text_member(&body, "id", "");
        let mut method = PaymentMethodRef::new(
            request.customer_id.clone(),
            self.id(),
            token.as_str(),
            kind,
        ).with_gateway_customer(request.gateway_customer_id.as_str());
        method.reusable = request.allow_off_session;
        method.metadata = copy_texts(&request.metadata);
        Ok(method)
    }

    /// The request that forgets an instrument.
    pub fn detach_request(&self, token: &str) -> (http: HttpRequest)
        ensures
            http@ == self@.form_request(
                "/v1/payment_methods/"@ + token@ + "/detach"@,
                Seq::empty(),
                None,
            ),
    {
        let path = join3("/v1/payment_methods/", token, "/detach");
        self.form_request(path.as_str(), &FormBody::new(), None)
    }

    /// Whether an instrument was forgotten.
    pub fn detach_response(&self, response: &HttpResponse) -> (done: Result<(), Error>)
        ensures
            match done {
                Ok(_) => interpreted(*response) is Ok,
                Err(error) => interpreted(*response) == Err::<JsonView, ErrorView>(error@),
            },
    {
        match self.interpret(response) {
            Ok(_) => Ok(()),
            Err(error) => Err(error),
        }
    }

    /// The request that authorises a charge.
    pub fn authorize_request(&self, request: &AuthorizeRequest) -> (http: Result<HttpRequest, Error>)
        ensures
            match http {
                Ok(made) => request.check() is Ok && made@ == self@.form_request(
                    "/v1/payment_intents"@,
                    authorize_form(*request),
                    Some(request.idempotency_key@),
                ),
                Err(error) => request.check() == Err::<(), ErrorView>(error@),
            },
    {
        match request.validate() {
            Ok(_) => {},
            Err(error) => return Err(error),
        }
        let mut form = FormBody::new();
        form.set("amount", signed_to_text(request.amount.minor()).as_str());
        form.set("currency", to_lower(request.amount.currency().code().as_str()).as_str());
        form.set("confirm", "true");
        let mode = match request.capture_mode {
            CaptureMode::Automatic => "automatic",
            CaptureMode::Manual => "manual",
        };
        form.set("capture_method", mode);
        assert(form@ =~= charge_fields(*request));
        match &request.instrument {
            InstrumentRef::SingleUseToken { token } => {
                form.set("payment_method", token.as_str());
            },
            InstrumentRef::Vaulted { token, customer_token } => {
                form.set("payment_method", token.as_str());
                form.set("customer", customer_token.as_str());
            },
        }
        assert(form@ =~= charge_fields(*request) + instrument_fields(request.instrument));
        self.set_details(&mut form, request);
        self.set_transfers(&mut form, request);
        self.set_references(&mut form, request);
        Ok(
            self.form_request(
                "/v1/payment_intents",
                &form,
                Some(request.idempotency_key.as_str()),
            ),
        )
    }

    fn set_details(&self, form: &mut FormBody, request: &AuthorizeRequest)
        ensures
            final(form)@ == old(form)@ + detail_fields(*request),
    {
        let ghost start = form@;
        if request.initiator == ChargeInitiator::MerchantOffSession {
            form.set("off_session", "true");
        }
        let ghost first = optional_field(
            "off_session"@,
            if request.initiator is MerchantOffSession {
                Some("true"@)
            } else {
                None
            },
        );
        assert(form@ =~= start + first);
        set_optional(form, "statement_descriptor", &request.statement_descriptor);
        set_optional(form, "description", &request.description);
        set_optional(form, "return_url", &request.return_url);
        if let Some(fee) = request.application_fee {
            if fee.is_positive() {
                form.set("application_fee_amount", signed_to_text(fee.minor()).as_str());
            }
        }
        assert(form@ =~= start + detail_fields(*request));
    }

    fn set_transfers(&self, form: &mut FormBody, request: &AuthorizeRequest)
        ensures
            final(form)@ == old(form)@ + transfer_fields(*request),
    {
        let ghost start = form@;
        if request.transfers.len() == 0 {
            assert(form@ =~= start + transfer_fields(*request));
        } else if request.transfers.len() == 1 {
            let transfer = &request.transfers[0];
            form.set("transfer_data[destination]", transfer.destination.as_str());
            form.set("transfer_data[amount]", signed_to_text(transfer.amount.minor()).as_str());
            set_optional(form, "transfer_group", &transfer.transfer_group);
            assert(form@ =~= start + transfer_fields(*request));
        } else {
            let group = Self::find_group(request);
            form.set("transfer_group", group.as_str());
            assert(form@ =~= start + transfer_fields(*request));
        }
    }

    fn find_group(request: &AuthorizeRequest) -> (group: String)
        ensures
            group@ == match named_group(request.transfers@) {
                Some(named) => named,
                None => match request.order_id {
                    Some(order) => order@,
                    None => request.idempotency_key@,
                },
            },
    {
        let ghost all = request.transfers@;
        let mut n: usize = 0;
        assert(all.skip(0) =~= all);
        while n < request.transfers.len()
            invariant
                all == request.transfers@,
                n <= all.len(),
                named_group(all) == named_group(all.skip(n as int)),
            decreases all.len() - n,
        {
            assert(all.skip(n as int)[0] == all[n as int]);
            assert(all.skip(n as int).drop_first() =~= all.skip(n + 1));
            if let Some(group) = &request.transfers[n].transfer_group {
                return group.clone();
            }
            n += 1;
        }
        match &request.order_id {
            Some(order) => order.to_text(),
            None => request.idempotency_key.clone(),
        }
    }

    fn set_references(&self, form: &mut FormBody, request: &AuthorizeRequest)
        ensures
            final(form)@ == old(form)@ + reference_fields(*request),
    {
        let ghost start = form@;
        if let Some(order) = &request.order_id {
            form.set("metadata[order_id]", order.as_str());
        }
        if let Some(customer) = &request.customer_id {
            form.set("metadata[customer_id]", customer.as_str());
        }
        set_metadata(form, &request.metadata);
        assert(form@ =~= start + reference_fields(*request));
    }

    /// The answer to an authorisation, a cancellation or a look-up that a response describes.
    pub fn authorize_response(&self, response: &HttpResponse) -> (answer: Result<
        AuthorizeResponse,
        Error,
    >)
        ensures
            authorize_outcome(answer) == authorize_answer(*response),
    {
        match self.interpret(response) {
            Ok(body) => self.parse_intent(&body),
            Err(error) => Err(error),
        }
    }

    /// The request that captures an authorisation.
    pub fn capture_request(&self, request: &CaptureRequest) -> (http: HttpRequest)
        ensures
            http@ == self@.form_request(
                "/v1/payment_intents/"@ + request.transaction_id@ + "/capture"@,
                capture_form(*request),
                Some(request.idempotency_key@),
            ),
    {
        let mut form = FormBody::new();
        form.set("amount_to_capture", signed_to_text(request.amount.minor()).as_str());
        assert(form@ =~= seq![("amount_to_capture"@, integer_text(request.amount.minor as int))]);
        let path = join3("/v1/payment_intents/", request.transaction_id.as_str(), "/capture");
        self.form_request(path.as_str(), &form, Some(request.idempotency_key.as_str()))
    }

    /// The result of a capture that a response describes.
    pub fn capture_response(&self, request: &CaptureRequest, response: &HttpResponse) -> (
    capture: Result<CaptureResponse, Error>)
        ensures
            capture_outcome(capture) == capture_answer(*request, *response),
    {
        let intent = match self.authorize_response(response) {
            Ok(intent) => intent,
            Err(error) => return Err(error),
        };
        let reference = match &intent.processor_reference {
            Some(reference) => reference.clone(),
            None => intent.transaction_id.clone(),
        };
        Ok(
            CaptureResponse {
                capture_reference: reference,
                status: intent.status,
                amount_captured: request.amount,
                total_captured: intent.amount_captured,
                raw: intent.raw,
            },
        )
    }

    /// The request that releases an authorisation.
    pub fn cancel_request(&self, request: &CancelRequest) -> (http: HttpRequest)
        ensures
            http@ == self@.form_request(
                "/v1/payment_intents/"@ + request.transaction_id@ + "/cancel"@,
                optional_field("cancellation_reason"@, optional_text(request.reason)),
                Some(request.idempotency_key@),
            ),
    {
        let mut form = FormBody::new();
        set_optional(&mut form, "cancellation_reason", &request.reason);
        assert(form@ =~= optional_field("cancellation_reason"@, optional_text(request.reason)));
        let path = join3("/v1/payment_intents/", request.transaction_id.as_str(), "/cancel");
        self.form_request(path.as_str(), &form, Some(request.idempotency_key.as_str()))
    }

    /// The request that refunds a charge.
    pub fn refund_request(&self, request: &GatewayRefundRequest) -> (http: HttpRequest)
        ensures
            http@ == self@.form_request(
                "/v1/refunds"@,
                refund_form(*request),
                Some(request.idempotency_key@),
            ),
    {
        let ghost base = seq![
            ("payment_intent"@, request.transaction_id@),
            ("amount"@, integer_text(request.amount.minor as int)),
        ];
        let ghost reason = optional_field("reason"@, reason_word(request.reason));
        let ghost reverse = optional_field(
            "reverse_transfer"@,
            if request.reverse_transfers {
                Some("true"@)
            } else {
                None
            },
        );
        let ghost fee = optional_field(
            "refund_application_fee"@,
            if request.refund_application_fee {
                Some("true"@)
            } else {
                None
            },
        );
        let mut form = FormBody::new();
        form.set("payment_intent", request.transaction_id.as_str());
        form.set("amount", signed_to_text(request.amount.minor()).as_str());
        form.set_opt("reason", refund_reason(request.reason));
        assert(form@ =~= base + reason);
        if request.reverse_transfers {
            form.set("reverse_transfer", "true");
        }
        assert(form@ =~= base + reason + reverse);
        if request.refund_application_fee {
            form.set("refund_application_fee", "true");
        }
        assert(form@ =~= base + reason + reverse + fee);
        set_metadata(&mut form, &request.metadata);
        self.form_request("/v1/refunds", &form, Some(request.idempotency_key.as_str()))
    }

    /// The refund that a response describes.
    pub fn refund_response(&self, response: &HttpResponse) -> (refund: Result<
        GatewayRefundResponse,
        Error,
    >)
        ensures
            gateway_refund_outcome(refund) == refund_answer(*response),
    {
        let body = match self.interpret(response) {
            Ok(body) => body,
            Err(error) => return Err(error),
        };
        let currency = match Currency::from_code(text_member(&body, "currency", "usd").as_str()) {
            Ok(currency) => currency,
            Err(error) => return Err(error),
        };
        let word = text_member(&body, "status", "");
        let status = if same_text(word.as_str(), "succeeded") {
            RefundStatus::Succeeded
        } else if same_text(word.as_str(), "pending") || same_text(
            word.as_str(),
            "requires_action",
        ) {
            RefundStatus::Pending
        } else if same_text(word.as_str(), "canceled") {
            RefundStatus::Canceled
        } else {
            RefundStatus::Failed
        };
        Ok(
            GatewayRefundResponse {
                refund_reference: text_member(&body, "id", ""),
                amount: Money::from_minor(integer_member(&body, "amount"), currency),
                status,
                raw: Some(body),
            },
        )
    }

    /// The request that looks up a transaction.
    pub fn fetch_request(&self, transaction_id: &str) -> (http: HttpRequest)
        ensures
            http@ == self@.signed(
                RequestView::get(self@.base_url + ("/v1/payment_intents/"@ + transaction_id@)),
                None,
            ),
    {
        let path = join("/v1/payment_intents/", transaction_id);
        let url = join(self.base_url.as_str(), path.as_str());
        self.request(HttpRequest::get(url.as_str()), None)
    }

    /// The event that a payload describes, received at `now`.
    pub fn read_event(&self, body: serde_json::Value, now: Timestamp) -> (event: GatewayEvent)
        ensures
            event@ == event_of(json_content(body), now),
    {
        let provider_type = text_member(&body, "type", "unknown");
        let provider_event_id = text_member(&body, "id", "");
        let object = member(member(&body, "data"), "object");
        let kind = map_event(provider_type.as_str(), object);
        let amount = match integer_of_json(member(object, "amount")) {
            Some(minor) => match text_of_json(member(object, "currency")) {
                Some(code) => match Currency::from_code(code) {
                    Ok(currency) => Some(Money::from_minor(minor, currency)),
                    Err(_) => None,
                },
                None => None,
            },
            None => None,
        };
        let occurred_at = match integer_of_json(member(&body, "created")) {
            Some(created) => match Timestamp::from_seconds(created) {
                Some(at) => at,
                None => now,
            },
            None => now,
        };
        let transaction_id = match optional_member(object, "payment_intent") {
            Some(intent) => Some(intent),
            None => optional_member(object, "id"),
        };
        GatewayEvent {
            provider_event_id,
            gateway: self.id(),
            kind,
            transaction_id,
            amount,
            occurred_at,
            raw: Some(body),
        }
    }

    fn check_signature(
        secret: &SecretString,
        tolerance: i64,
        payload: &[u8],
        parts: &SignatureHeader,
        now: Timestamp,
    ) -> (checked: Result<(), Error>)
        ensures
            match checked {
                Ok(_) => signature_refused(secret@, tolerance, payload@, parts@, now) is None,
                Err(error) => signature_refused(secret@, tolerance, payload@, parts@, now) == Some(
                    error@,
                ),
            },
    {
        let timestamp = match parts.timestamp {
            Some(timestamp) => timestamp,
            None => {
                return Err(
                    Error::WebhookVerification("Stripe-Signature has no timestamp".to_owned()),
                );
            },
        };
        match verify_timestamp_freshness(timestamp, now, tolerance) {
            Ok(_) => {},
            Err(error) => return Err(error),
        }
        // The signed payload is "<timestamp>.<raw body>".
        let text = signed_to_text(timestamp);
        let mut signed: Vec<u8> = vstd::slice::slice_to_vec(text.as_str().as_bytes());
        signed.push(46);
        let mut rest: Vec<u8> = vstd::slice::slice_to_vec(payload);
        signed.append(&mut rest);
        assert(signed@ =~= signed_bytes(timestamp, payload@));
        let expected = hmac_sha256_hex(secret, signed.as_slice());
        if !has_match(&parts.candidates, expected.as_str()) {
            return Err(
                Error::WebhookVerification("no Stripe-Signature v1 entry matched".to_owned()),
            );
        }
        Ok(())
    }

    /// Verify and normalise a webhook received at `now`. The signature is checked against
    /// the raw body before anything in it is read.
    pub fn parse_webhook(&self, payload: &[u8], headers: &Headers, now: Timestamp) -> (
    event: Result<GatewayEvent, Error>)
        ensures
            event_outcome(event) == self@.notified(payload@, *headers, now),
    {
        let secret = match &self.webhook_secret {
            Some(secret) => secret,
            None => {
                return Err(
                    Error::configuration("no Stripe webhook signing secret configured"),
                );
            },
        };
        let header = match headers.require("stripe-signature") {
            Ok(header) => header,
            Err(error) => {
                proof {
                    reveal_strlit("missing '");
                    reveal_strlit("stripe-signature");
                    reveal_strlit("' header");
                    reveal_strlit("missing 'stripe-signature' header");
                    assert("missing '"@ + "stripe-signature"@ + "' header"@
                        =~= "missing 'stripe-signature' header"@);
                }
                return Err(error);
            },
        };
        let parts = read_signature_header(header);
        match Self::check_signature(
            secret,
            self.signature_tolerance_seconds,
            payload,
            &parts,
            now,
        ) {
            Ok(_) => {},
            Err(error) => return Err(error),
        }
        match parse_json(payload) {
            Ok(body) => Ok(self.read_event(body, now)),
            Err(message) => Err(
                Error::WebhookVerification(join("invalid JSON body: ", message.as_str())),
            ),
        }
    }
}

/// A webhook that is accepted was signed with the adapter's secret, and its timestamp is
/// within the tolerance of now.
pub proof fn law_accepted_webhooks_are_fresh_and_signed(
    gateway: StripeView,
    payload: Seq<u8>,
    headers: Headers,
    now: Timestamp,
)
    requires
        gateway.notified(payload, headers, now) is Ok,
    ensures
        gateway.webhook_secret is Some,
        headers.value("stripe-signature"@) is Some,
        ({
            let parts = signed_parts(pieces(headers.value("stripe-signature"@)->0, ','));
            &&& parts.timestamp is Some
            &&& distance(now.seconds, parts.timestamp->0) <= gateway.tolerance
            &&& any_matches(
                parts.candidates,
                signature(
                    gateway.webhook_secret->0,
                    signed_bytes(parts.timestamp->0, payload),
                ),
            )
        }),
{
}

/// Which word of Stripe's stands for which state of a charge; any other is a failure.
pub proof fn law_states_go_by_their_words(status: Seq<char>)
    ensures
        intent_status(status) is Captured <==> status == "succeeded"@,
        intent_status(status) is Authorized <==> status == "requires_capture"@,
        intent_status(status) is RequiresAction <==> status == "requires_action"@ || status
            == "requires_confirmation"@,
        intent_status(status) is Pending <==> status == "processing"@,
        intent_status(status) is Canceled <==> status == "canceled"@,
        refund_status(status) is Succeeded <==> status == "succeeded"@,
        refund_status(status) is Pending <==> status == "pending"@ || status
            == "requires_action"@,
        refund_status(status) is Canceled <==> status == "canceled"@,
{
    reveal_strlit("succeeded");
    reveal_strlit("requires_capture");
    reveal_strlit("requires_action");
    reveal_strlit("requires_confirmation");
    reveal_strlit("processing");
    reveal_strlit("canceled");
    reveal_strlit("pending");
    assert("succeeded"@.len() == 9);
    assert("requires_capture"@.len() == 16);
    assert("requires_action"@.len() == 15);
    assert("requires_confirmation"@.len() == 21);
    assert("processing"@.len() == 10);
    assert("canceled"@.len() == 8);
    assert("pending"@.len() == 7);
}

/// Which of Stripe's codes stands for which reason of a decline.
pub proof fn law_declines_go_by_their_codes(code: Seq<char>)
    ensures
        decline_of(code) is InsufficientFunds <==> code == "insufficient_funds"@,
        decline_of(code) is ExpiredCard <==> code == "expired_card"@,
        decline_of(code) is IncorrectNumber <==> code == "incorrect_number"@ || code
            == "invalid_number"@,
        decline_of(code) is IncorrectCvc <==> code == "incorrect_cvc"@ || code == "invalid_cvc"@,
        decline_of(code) is IncorrectPostalCode <==> code == "incorrect_zip"@,
        decline_of(code) is Fraudulent <==> code == "fraudulent"@ || code
            == "merchant_blacklist"@ || code == "pickup_card"@,
        decline_of(code) is LostOrStolenCard <==> code == "lost_card"@ || code
            == "stolen_card"@,
        decline_of(code) is LimitExceeded <==> code == "card_velocity_exceeded"@ || code
            == "withdrawal_count_limit_exceeded"@,
        decline_of(code) is AuthenticationRequired <==> code == "authentication_required"@,
        decline_of(code) is ProcessingError <==> code == "processing_error"@ || code
            == "issuer_not_available"@ || code == "try_again_later"@,
        decline_of(code) is Unsupported <==> code == "currency_not_supported"@ || code
            == "card_not_supported"@,
{
    reveal_strlit("insufficient_funds");
    reveal_strlit("expired_card");
    reveal_strlit("incorrect_number");
    reveal_strlit("invalid_number");
    reveal_strlit("incorrect_cvc");
    reveal_strlit("invalid_cvc");
    reveal_strlit("incorrect_zip");
    reveal_strlit("fraudulent");
    reveal_strlit("merchant_blacklist");
    reveal_strlit("pickup_card");
    reveal_strlit("lost_card");
    reveal_strlit("stolen_card");
    reveal_strlit("card_velocity_exceeded");
    reveal_strlit("withdrawal_count_limit_exceeded");
    reveal_strlit("authentication_required");
    reveal_strlit("processing_error");
    reveal_strlit("issuer_not_available");
    reveal_strlit("try_again_later");
    reveal_strlit("currency_not_supported");
    reveal_strlit("card_not_supported");
    assert("insufficient_funds"@.len() == 18);
    assert("expired_card"@.len() == 12);
    assert("incorrect_number"@.len() == 16);
    assert("invalid_number"@.len() == 14);
    assert("incorrect_cvc"@.len() == 13);
    assert("invalid_cvc"@.len() == 11);
    assert("incorrect_zip"@.len() == 13);
    assert("fraudulent"@.len() == 10);
    assert("merchant_blacklist"@.len() == 18);
    assert("pickup_card"@.len() == 11);
    assert("lost_card"@.len() == 9);
    assert("stolen_card"@.len() == 11);
    assert("card_velocity_exceeded"@.len() == 22);
    assert("withdrawal_count_limit_exceeded"@.len() == 31);
    assert("authentication_required"@.len() == 23);
    assert("processing_error"@.len() == 16);
    assert("issuer_not_available"@.len() == 20);
    assert("try_again_later"@.len() == 15);
    assert("currency_not_supported"@.len() == 22);
    assert("card_not_supported"@.len() == 18);
    assert("incorrect_cvc"@[10] != "incorrect_zip"@[10]);
    assert("insufficient_funds"@[0] != "merchant_blacklist"@[0]);
    assert("invalid_cvc"@[0] != "pickup_card"@[0]);
    assert("invalid_cvc"@[0] != "stolen_card"@[0]);
    assert("pickup_card"@[0] != "stolen_card"@[0]);
    assert("incorrect_number"@[0] != "processing_error"@[0]);
    assert("card_velocity_exceeded"@[1] != "currency_not_supported"@[1]);
    assert("insufficient_funds"@[0] != "card_not_supported"@[0]);
    assert("merchant_blacklist"@[0] != "card_not_supported"@[0]);
}

/// Which of Stripe's events stands for what.
pub proof fn law_events_go_by_their_types(kind: Seq<char>, object: JsonView)
    ensures
        event_kind(kind, object) is PaymentAuthorized <==> kind
            == "payment_intent.amount_capturable_updated"@,
        event_kind(kind, object) is PaymentCaptured <==> kind == "payment_intent.succeeded"@
            || kind == "charge.captured"@,
        event_kind(kind, object) is PaymentFailed <==> kind == "payment_intent.payment_failed"@
            || kind == "charge.failed"@,
        event_kind(kind, object) is PaymentCanceled <==> kind == "payment_intent.canceled"@,
        event_kind(kind, object) is AuthorizationExpired <==> kind == "charge.expired"@,
        event_kind(kind, object) is RefundSucceeded <==> kind == "charge.refunded"@ || kind
            == "refund.created"@,
        event_kind(kind, object) is RefundFailed <==> kind == "refund.failed"@,
        event_kind(kind, object) is DisputeOpened <==> kind == "charge.dispute.created"@,
        event_kind(kind, object) is DisputeClosed <==> kind == "charge.dispute.closed"@,
        event_kind(kind, object) is PayoutPaid <==> kind == "payout.paid"@,
{
    reveal_strlit("payment_intent.amount_capturable_updated");
    reveal_strlit("payment_intent.succeeded");
    reveal_strlit("charge.captured");
    reveal_strlit("payment_intent.payment_failed");
    reveal_strlit("charge.failed");
    reveal_strlit("payment_intent.canceled");
    reveal_strlit("charge.expired");
    reveal_strlit("charge.refunded");
    reveal_strlit("refund.created");
    reveal_strlit("refund.failed");
    reveal_strlit("charge.dispute.created");
    reveal_strlit("charge.dispute.closed");
    reveal_strlit("payout.paid");
    assert("payment_intent.amount_capturable_updated"@.len() == 40);
    assert("payment_intent.succeeded"@.len() == 24);
    assert("charge.captured"@.len() == 15);
    assert("payment_intent.payment_failed"@.len() == 29);
    assert("charge.failed"@.len() == 13);
    assert("payment_intent.canceled"@.len() == 23);
    assert("charge.expired"@.len() == 14);
    assert("charge.refunded"@.len() == 15);
    assert("refund.created"@.len() == 14);
    assert("refund.failed"@.len() == 13);
    assert("charge.dispute.created"@.len() == 22);
    assert("charge.dispute.closed"@.len() == 21);
    assert("payout.paid"@.len() == 11);
    assert("charge.captured"@[7] != "charge.refunded"@[7]);
    assert("charge.expired"@[0] != "refund.created"@[0]);
    assert("charge.failed"@[0] != "refund.failed"@[0]);
}

/// A charge is read as holding what can still be captured while it is held, and its whole
/// amount once it is captured; what was received is what was captured; the hold lapses seven
/// days after it was made.
pub proof fn law_charges_are_read_as_told(intent: JsonView)
    requires
        intent_answer(intent) is Ok,
    ensures
        ({
            let answer = intent_answer(intent)->Ok_0;
            &&& answer.amount_captured.minor == intent.member("amount_received"@).integer_or(0)
            &&& answer.status is Authorized ==> answer.amount_authorized.minor == intent.member(
                "amount_capturable"@,
            ).integer_or(0)
            &&& answer.status is Captured ==> answer.amount_authorized.minor == intent.member(
                "amount"@,
            ).integer_or(0)
            &&& !(answer.status is Authorized) && !(answer.status is Captured)
                ==> answer.amount_authorized.minor == 0
            &&& answer.amount_authorized.currency == answer.amount_captured.currency
            &&& intent.member("created"@).integer() is Some && answer.expires_at is Some
                ==> answer.expires_at->Some_0.instant() == (intent.member(
                "created"@,
            ).integer()->Some_0 + 7 * 86_400) * 1_000_000_000
        }),
{
}

/// A charge is asked for with its amount in minor units, is to be captured by hand exactly
/// where funds are to be held, and keeps back a fee exactly where there is one.
pub proof fn law_forms_ask_for_the_amount(request: AuthorizeRequest)
    ensures
        charge_fields(request)[0] == ("amount"@, integer_text(request.amount.minor as int)),
        charge_fields(request)[3].1 == "manual"@ <==> request.capture_mode is Manual,
        authorize_form(request).len() >= 4,
        authorize_form(request)[0] == charge_fields(request)[0],
        authorize_form(request)[3] == charge_fields(request)[3],
        request.application_fee is Some && request.application_fee->Some_0.minor > 0
            ==> detail_fields(request).last() == (
            "application_fee_amount"@,
            integer_text(request.application_fee->Some_0.minor as int),
        ),
        request.transfers@.len() == 1 ==> transfer_fields(request)[0].1
            == request.transfers@[0].destination@ && transfer_fields(request)[1].1
            == integer_text(request.transfers@[0].amount.minor as int),
        request.transfers@.len() == 0 ==> transfer_fields(request).len() == 0,
{
    reveal_strlit("manual");
    reveal_strlit("automatic");
    assert("manual"@.len() != "automatic"@.len());
}

/// A failure is a decline exactly when the card is at fault or Stripe names a reason for it;
/// any other is the gateway's, and can be retried where the answer, or its type, says so.
pub proof fn law_declines_are_told_apart(body: JsonView, retryable: bool)
    ensures
        ({
            let error = body.member("error"@);
            let failure = failure_of(body, retryable);
            &&& failure is Declined <==> error.member("type"@).text() == Some("card_error"@)
                || error.member("decline_code"@).text() is Some
            &&& failure is Gateway ==> (failure->retryable <==> retryable || error.member(
                "type"@,
            ).text() == Some("api_error"@))
            &&& failure is Declined || failure is Gateway
        }),
{
}

/// A capture and a refund ask for their amounts, in minor units, and a refund takes back the
/// transfer and the fee exactly where that is asked for.
pub proof fn law_captures_and_refunds_ask_for_their_amounts(
    capture: CaptureRequest,
    refund: GatewayRefundRequest,
)
    ensures
        capture_form(capture) == seq![
            ("amount_to_capture"@, integer_text(capture.amount.minor as int)),
        ],
        refund_form(refund)[0] == ("payment_intent"@, refund.transaction_id@),
        refund_form(refund)[1] == ("amount"@, integer_text(refund.amount.minor as int)),
        refund_form(refund).len() == 2 + (if refund.reason is Other {
            0int
        } else {
            1
        }) + (if refund.reverse_transfers {
            1int
        } else {
            0
        }) + (if refund.refund_application_fee {
            1int
        } else {
            0
        }) + listed(refund.metadata@).len(),
{
    lemma_metadata_len(refund.metadata@, listed(refund.metadata@).len() as int);
}

proof fn lemma_metadata_len(metadata: Map<Seq<char>, String>, n: int)
    requires
        n >= 0,
    ensures
        metadata_fields(metadata, n).len() == n,
    decreases n,
{
    if n > 0 {
        lemma_metadata_len(metadata, n - 1);
    }
}

/// A capture is read as having taken what was asked for, and what was received is what was
/// taken in all.
pub proof fn law_captures_are_read_as_told(request: CaptureRequest, response: HttpResponse)
    requires
        capture_answer(request, response) is Ok,
    ensures
        capture_answer(request, response)->Ok_0.amount_captured == request.amount,
        authorize_answer(response) is Ok,
        capture_answer(request, response)->Ok_0.total_captured == authorize_answer(
            response,
        )->Ok_0.amount_captured,
        capture_answer(request, response)->Ok_0.status == authorize_answer(response)->Ok_0.status,
{
}

/// A charge that waits for the shopper says how to go on: by the address to be sent to where
/// there is one, else by its secret.
pub proof fn law_waiting_charges_say_how_to_go_on(intent: JsonView)
    requires
        intent_answer(intent) is Ok,
    ensures
        ({
            let next = intent_answer(intent)->Ok_0.next_action;
            let action = intent.member("next_action"@);
            let url = action.member("redirect_to_url"@).member("url"@).text();
            let secret = intent.member("client_secret"@).text();
            &&& next is Some <==> action is Object && (url is Some || secret is Some)
            &&& next is Some && url is Some ==> next->Some_0 == NextActionView::Redirect(
                url->Some_0,
            )
            &&& next is Some && url is None ==> next->Some_0 == NextActionView::UseSdk(
                secret->Some_0,
            )
        }),
{
}

/// An instrument is a card exactly when its description has one, and the card is described
/// as told.
pub proof fn law_cards_are_described_as_told(kind: PaymentMethodKind, body: JsonView)
    requires
        StripeGateway::is_described(kind, body),
    ensures
        kind is Card <==> body.member("card"@) is Object,
        kind matches PaymentMethodKind::Card(summary) ==> {
            let card = body.member("card"@);
            &&& card.member("brand"@).text() is Some ==> summary.brand@ == card.member(
                "brand"@,
            ).text()->Some_0
            &&& card.member("last4"@).text() is Some ==> summary.last4@ == card.member(
                "last4"@,
            ).text()->Some_0
            &&& optional_text(summary.country) == card.member("country"@).text()
            &&& optional_text(summary.fingerprint) == card.member("fingerprint"@).text()
            &&& card.member("exp_year"@).integer() is Some && i32::MIN <= card.member(
                "exp_year"@,
            ).integer()->Some_0 <= i32::MAX ==> summary.exp_year == card.member(
                "exp_year"@,
            ).integer()->Some_0
            &&& card.member("exp_month"@).unsigned() is Some && card.member(
                "exp_month"@,
            ).unsigned()->Some_0 <= u32::MAX ==> summary.exp_month == card.member(
                "exp_month"@,
            ).unsigned()->Some_0
        },
{
}

/// An event is told of the payment it names, else of its own object, for the amount in minor
/// units that it gives, under the identifier that it came with.
pub proof fn law_events_are_read_as_told(body: JsonView, now: Timestamp)
    ensures
        ({
            let event = event_of(body, now);
            let object = body.member("data"@).member("object"@);
            let intent = object.member("payment_intent"@).text();
            let code = object.member("currency"@).text();
            &&& body.member("id"@).text() is Some ==> event.provider_event_id == body.member(
                "id"@,
            ).text()->Some_0
            &&& intent is Some ==> event.transaction_id == intent
            &&& intent is None ==> event.transaction_id == object.member("id"@).text()
            &&& event.amount is Some <==> object.member("amount"@).integer() is Some && code is Some
                && Currency::of_code(code->Some_0) is Ok
            &&& event.amount is Some ==> event.amount->Some_0.minor == object.member(
                "amount"@,
            ).integer()->Some_0 && Currency::of_code(code->Some_0) == Ok::<Currency, ErrorView>(
                event.amount->Some_0.currency,
            )
        }),
{
}

} // verus!
