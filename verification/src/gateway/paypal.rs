//! PayPal adapter (Orders v2 + Payments v2).
//!
//! Like the Stripe adapter it carries no HTTP client of its own: it builds an
//! [`HttpRequest`] for each operation and interprets the [`HttpResponse`].
//!
//! PayPal differs from card processors in ways the abstraction has to absorb:
//!
//! * Amounts are decimal strings with the currency's own scale, not minor
//!   units, so every amount is converted through [`Money::to_decimal_string`].
//! * An order must be *approved by the buyer* before it can be captured, so
//!   an authorisation is answered with [`NextAction::Redirect`] to the approval
//!   link.
//! * Splits are expressed as `purchase_units`, one per recipient, each with its
//!   own `payee` and `platform_fees`.

use vstd::prelude::*;

use crate::error::{outcome, DeclineCode, Error, ErrorView};
use crate::folds::lemma_error_stays;
use crate::gateway::http::{request_outcome, HttpRequest, HttpResponse, RequestView};
use crate::gateway::json::{
    copy_json, element, json_content, json_contents, json_document, list_json, list_of_json,
    make_optional_json, member, null_json, optional_json, optional_member, parse_json, text_json,
    text_member, text_of_json, truth_json, JsonView, ObjectBuilder,
};
use crate::gateway::{
    authorize_outcome, capture_outcome, event_outcome, gateway_refund_outcome, AuthorizeRequest,
    AuthorizeResponse, AuthorizeView, CancelRequest, Capabilities, CaptureMode, CaptureRequest,
    CaptureResponse, CaptureView, EventKindView, EventView, GatewayEvent, GatewayEventKind,
    GatewayId, GatewayRefundRequest, GatewayRefundResponse, GatewayRefundView, NextAction,
    NextActionView, RefundReason, RefundStatus, TransactionStatus,
};
use crate::money::decimal::{decimal_text, parsed};
use crate::money::{Currency, Money};
use crate::secret::SecretString;
use crate::text::{digits, join, join3, optional_text, same_text, unsigned_to_text};
use crate::time::{parse_rfc3339, rfc3339_instant, Duration, Timestamp};
use crate::webhook::Headers;

verus! {

/// Identifier of the PayPal adapter.
pub const PAYPAL_GATEWAY_ID: &'static str = "paypal";

/// PayPal's Orders v2 adapter.
pub struct PayPalGateway {
    access_token: SecretString,
    base_url: String,
    webhook_id: Option<String>,
    brand_name: Option<String>,
}

/// How a PayPal adapter is set up.
pub ghost struct PayPalView {
    /// Authenticates requests.
    pub access_token: Seq<char>,
    /// Where requests go.
    pub base_url: Seq<char>,
    /// Identifies our webhook when notifications are verified.
    pub webhook_id: Option<Seq<char>>,
    /// Shown on the approval page.
    pub brand_name: Option<Seq<char>>,
}

impl View for PayPalGateway {
    type V = PayPalView;

    closed spec fn view(&self) -> PayPalView {
        PayPalView {
            access_token: self.access_token@,
            base_url: self.base_url@,
            webhook_id: optional_text(self.webhook_id),
            brand_name: optional_text(self.brand_name),
        }
    }
}

// Amounts.

/// An amount as PayPal writes it.
pub open spec fn amount_content(amount: Money) -> JsonView {
    JsonView::Object(
        Map::<Seq<char>, JsonView>::empty().insert(
            "currency_code"@,
            JsonView::Text(amount.currency.letters()),
        ).insert("value"@, JsonView::Text(decimal_text(amount))),
    )
}

/// The amount that PayPal writes; nothing where it names none.
pub open spec fn amount_in(amount: JsonView, currency: Currency) -> Result<Money, ErrorView> {
    match amount.member("value"@).text() {
        Some(text) => parsed(text, currency),
        None => Ok(Money { minor: 0, currency }),
    }
}

/// The sum of the amounts of the first `n` entries that have a status, or none.
pub open spec fn amounts_summed(
    entries: Seq<JsonView>,
    currency: Currency,
    status: Seq<char>,
    n: int,
) -> Result<Money, ErrorView>
    decreases n,
{
    if n <= 0 {
        Ok(Money { minor: 0, currency })
    } else {
        let entry = entries[n - 1];
        match amounts_summed(entries, currency, status, n - 1) {
            Err(error) => Err(error),
            Ok(before) => if entry.member("status"@).text() is Some && entry.member(
                "status"@,
            ).text() != Some(status) {
                Ok(before)
            } else {
                match amount_in(entry.member("amount"@), currency) {
                    Err(error) => Err(error),
                    Ok(amount) => before.plus(amount),
                }
            },
        }
    }
}

/// The sum of the amounts of a list of entries; nothing where it is no list.
pub open spec fn entries_summed(entries: JsonView, currency: Currency, status: Seq<char>) -> Result<
    Money,
    ErrorView,
> {
    match entries {
        JsonView::List(items) => amounts_summed(items, currency, status, items.len() as int),
        _ => Ok(Money { minor: 0, currency }),
    }
}

/// Read an amount as PayPal writes it.
pub fn parse_amount(amount: &serde_json::Value, currency: Currency) -> (parsed: Result<
    Money,
    Error,
>)
    ensures
        outcome(parsed) == amount_in(json_content(*amount), currency),
{
    match text_of_json(member(amount, "value")) {
        Some(text) => Money::parse_decimal(text, currency),
        None => Ok(Money::zero(currency)),
    }
}

/// Add up the amounts of a list of entries that have a status, or none.
pub fn sum_amounts(entries: &serde_json::Value, currency: Currency, status: &str) -> (sum: Result<
    Money,
    Error,
>)
    ensures
        outcome(sum) == entries_summed(json_content(*entries), currency, status@),
{
    let items = match list_of_json(entries) {
        Some(items) => items,
        None => return Ok(Money::zero(currency)),
    };
    let ghost all = json_contents(items@);
    let mut total = Money::zero(currency);
    let mut n: usize = 0;
    while n < items.len()
        invariant
            n <= items@.len(),
            all == json_contents(items@),
            json_content(*entries) == JsonView::List(all),
            outcome(Ok::<Money, Error>(total)) == amounts_summed(all, currency, status@, n as int),
        decreases items@.len() - n,
    {
        proof {
            if amounts_summed(all, currency, status@, n + 1) is Err {
                lemma_error_stays(
                    |k: int| amounts_summed(all, currency, status@, k),
                    n + 1,
                    all.len() as int,
                );
            }
        }
        let entry = &items[n];
        assert(json_content(*entry) == all[n as int]);
        let counted = match text_of_json(member(entry, "status")) {
            Some(text) => same_text(text, status),
            None => true,
        };
        if counted {
            let amount = match parse_amount(member(entry, "amount"), currency) {
                Ok(amount) => amount,
                Err(error) => return Err(error),
            };
            total = match total.try_add(amount) {
                Ok(sum) => sum,
                Err(error) => return Err(error),
            };
        }
        n += 1;
    }
    Ok(total)
}

// Errors.

/// The normalised reason of a decline, when an issue is one.
pub open spec fn decline_of(issue: Seq<char>) -> Option<DeclineCode> {
    if issue == "INSTRUMENT_DECLINED"@ || issue == "PAYER_CANNOT_PAY"@ || issue
        == "TRANSACTION_REFUSED"@ {
        Some(DeclineCode::GenericDecline)
    } else if issue == "INSUFFICIENT_FUNDS"@ {
        Some(DeclineCode::InsufficientFunds)
    } else if issue == "CARD_EXPIRED"@ {
        Some(DeclineCode::ExpiredCard)
    } else if issue == "PAYER_ACTION_REQUIRED"@ || issue == "PAYMENT_DENIED"@ {
        Some(DeclineCode::AuthenticationRequired)
    } else if issue == "CURRENCY_NOT_SUPPORTED"@ || issue == "INSTRUMENT_NOT_SUPPORTED"@ {
        Some(DeclineCode::Unsupported)
    } else {
        None
    }
}

/// Normalise a PayPal issue, when it is a decline.
pub fn map_decline(issue: &str) -> (decline: Option<DeclineCode>)
    ensures
        decline == decline_of(issue@),
{
    if same_text(issue, "INSTRUMENT_DECLINED") || same_text(issue, "PAYER_CANNOT_PAY")
        || same_text(issue, "TRANSACTION_REFUSED") {
        Some(DeclineCode::GenericDecline)
    } else if same_text(issue, "INSUFFICIENT_FUNDS") {
        Some(DeclineCode::InsufficientFunds)
    } else if same_text(issue, "CARD_EXPIRED") {
        Some(DeclineCode::ExpiredCard)
    } else if same_text(issue, "PAYER_ACTION_REQUIRED") || same_text(issue, "PAYMENT_DENIED") {
        Some(DeclineCode::AuthenticationRequired)
    } else if same_text(issue, "CURRENCY_NOT_SUPPORTED") || same_text(
        issue,
        "INSTRUMENT_NOT_SUPPORTED",
    ) {
        Some(DeclineCode::Unsupported)
    } else {
        None
    }
}

/// The error that a failure payload describes.
pub open spec fn failure_of(body: JsonView, retryable: bool) -> ErrorView {
    let detail = body.member("details"@).at(0);
    let issue = detail.member("issue"@).text_or(body.member("name"@).text_or("UNKNOWN"@));
    let message = detail.member("description"@).text_or(
        body.member("message"@).text_or("PayPal returned an error"@),
    );
    match decline_of(issue) {
        Some(code) => ErrorView::Declined { code, message },
        None => ErrorView::Gateway {
            gateway: "paypal"@,
            provider_code: Some(issue),
            message,
            retryable,
        },
    }
}

/// What a response body holds; null where it is no JSON.
pub open spec fn body_or_null(response: HttpResponse) -> JsonView {
    match json_document(response.body@) {
        Ok(body) => body,
        Err(_) => JsonView::Null,
    }
}

/// The payload of a response, or the error it describes.
pub open spec fn interpreted(response: HttpResponse) -> Result<JsonView, ErrorView> {
    if response.succeeded() && response.body@.len() == 0 {
        Ok(JsonView::Null)
    } else if response.succeeded() {
        Ok(body_or_null(response))
    } else {
        Err(failure_of(body_or_null(response), response.may_be_retried()))
    }
}

/// A document, or the error in its place.
pub open spec fn document_outcome(document: Result<serde_json::Value, Error>) -> Result<
    JsonView,
    ErrorView,
> {
    match document {
        Ok(value) => Ok(json_content(value)),
        Err(error) => Err(error@),
    }
}

// Orders.

/// The state of an order, given what is authorised on it.
pub open spec fn order_status(status: Seq<char>, authorized: Money) -> TransactionStatus {
    if status == "COMPLETED"@ {
        TransactionStatus::Captured
    } else if status == "CREATED"@ || status == "SAVED"@ || status == "PAYER_ACTION_REQUIRED"@
        || status == "APPROVED"@ {
        TransactionStatus::RequiresAction
    } else if status == "VOIDED"@ {
        TransactionStatus::Canceled
    } else if authorized.minor != 0 {
        TransactionStatus::Authorized
    } else {
        TransactionStatus::Pending
    }
}

/// Where the first link of a list that asks for approval leads.
pub open spec fn approval_url(links: Seq<JsonView>) -> Option<Seq<char>>
    decreases links.len(),
{
    if links.len() == 0 {
        None
    } else if links[0].member("rel"@).text() == Some("approve"@) {
        links[0].member("href"@).text()
    } else {
        approval_url(links.drop_first())
    }
}

/// Where an order is approved.
pub open spec fn order_approval(order: JsonView) -> Option<NextActionView> {
    match order.member("links"@) {
        JsonView::List(links) => match approval_url(links) {
            Some(url) => Some(NextActionView::Redirect(url)),
            None => None,
        },
        _ => None,
    }
}

/// The amounts of an order: its total, what is captured and what is authorised.
pub open spec fn order_amounts(order: JsonView) -> Result<(Money, Money, Money), ErrorView> {
    let unit = order.member("purchase_units"@).at(0);
    let payments = unit.member("payments"@);
    match Currency::of_code(unit.member("amount"@).member("currency_code"@).text_or("USD"@)) {
        Err(error) => Err(error),
        Ok(currency) => match amount_in(unit.member("amount"@), currency) {
            Err(error) => Err(error),
            Ok(total) => match entries_summed(
                payments.member("captures"@),
                currency,
                "COMPLETED"@,
            ) {
                Err(error) => Err(error),
                Ok(captured) => match entries_summed(
                    payments.member("authorizations"@),
                    currency,
                    "CREATED"@,
                ) {
                    Err(error) => Err(error),
                    Ok(authorized) => Ok((total, captured, authorized)),
                },
            },
        },
    }
}

/// The identifier of the first capture of an order, or else of its first authorisation.
pub open spec fn order_reference(order: JsonView) -> Option<Seq<char>> {
    let payments = order.member("purchase_units"@).at(0).member("payments"@);
    let capture = payments.member("captures"@).at(0).member("id"@).text();
    if capture is Some {
        capture
    } else {
        payments.member("authorizations"@).at(0).member("id"@).text()
    }
}

/// The answer that an order describes at `now`. PayPal honours an authorisation for 29 days.
pub open spec fn order_answer(order: JsonView, now: Timestamp) -> Result<AuthorizeView, ErrorView> {
    match order_amounts(order) {
        Err(error) => Err(error),
        Ok((total, captured, authorized)) => {
            let status = order_status(order.member("status"@).text_or(""@), authorized);
            match now.later(Duration { seconds: 2_505_600, nanos: 0 }) {
                None => Err(ErrorView::Internal("the expiry lies beyond the calendar"@)),
                Some(expiry) => Ok(
                    AuthorizeView {
                        transaction_id: order.member("id"@).text_or(""@),
                        status,
                        amount_authorized: if authorized.minor != 0 {
                            authorized
                        } else if status is Captured {
                            total
                        } else {
                            Money { minor: 0, currency: total.currency }
                        },
                        amount_captured: captured,
                        expires_at: Some(expiry),
                        next_action: if status is RequiresAction {
                            order_approval(order)
                        } else {
                            None
                        },
                        processor_reference: order_reference(order),
                        raw: Some(order),
                    },
                ),
            }
        },
    }
}

/// The answer that a response describes at `now`.
pub open spec fn authorize_answer(response: HttpResponse, now: Timestamp) -> Result<
    AuthorizeView,
    ErrorView,
> {
    match interpreted(response) {
        Err(error) => Err(error),
        Ok(order) => order_answer(order, now),
    }
}

// Requests.

/// The text of an order's identifier, if there is one.
pub open spec fn order_text(request: AuthorizeRequest) -> Option<Seq<char>> {
    match request.order_id {
        Some(order) => Some(order@),
        None => None,
    }
}

/// The one purchase unit of a charge without transfers.
pub open spec fn whole_unit(request: AuthorizeRequest) -> JsonView {
    JsonView::Object(
        Map::<Seq<char>, JsonView>::empty().insert(
            "reference_id"@,
            JsonView::Text(
                match order_text(request) {
                    Some(order) => order,
                    None => "default"@,
                },
            ),
        ).insert("amount"@, amount_content(request.amount)).insert(
            "custom_id"@,
            optional_json(order_text(request)),
        ).insert("description"@, optional_json(optional_text(request.description))),
    )
}

/// How the platform's fee is taken out of a unit.
pub open spec fn fee_instruction(fee: Money) -> JsonView {
    JsonView::Object(
        Map::<Seq<char>, JsonView>::empty().insert(
            "disbursement_mode"@,
            JsonView::Text("INSTANT"@),
        ).insert(
            "platform_fees"@,
            JsonView::List(
                seq![
                    JsonView::Object(
                        Map::<Seq<char>, JsonView>::empty().insert(
                            "amount"@,
                            amount_content(fee),
                        ),
                    ),
                ],
            ),
        ),
    )
}

/// The purchase unit of one transfer of a charge. The first carries the platform's fee.
pub open spec fn transfer_unit(request: AuthorizeRequest, index: int) -> JsonView {
    let transfer = request.transfers@[index];
    let unit = Map::<Seq<char>, JsonView>::empty().insert(
        "reference_id"@,
        JsonView::Text("unit-"@ + digits(index as nat)),
    ).insert("amount"@, amount_content(transfer.amount)).insert(
        "payee"@,
        JsonView::Object(
            Map::<Seq<char>, JsonView>::empty().insert(
                "merchant_id"@,
                JsonView::Text(transfer.destination@),
            ),
        ),
    ).insert("description"@, optional_json(optional_text(transfer.description)));
    match request.application_fee {
        Some(fee) => if index == 0 && fee.minor > 0 {
            JsonView::Object(unit.insert("payment_instruction"@, fee_instruction(fee)))
        } else {
            JsonView::Object(unit)
        },
        None => JsonView::Object(unit),
    }
}

/// The purchase units of a charge: one per recipient, so PayPal performs the split itself.
pub open spec fn units_of(request: AuthorizeRequest) -> Seq<JsonView> {
    if request.transfers@.len() == 0 {
        seq![whole_unit(request)]
    } else {
        Seq::new(request.transfers@.len(), |i: int| transfer_unit(request, i))
    }
}

/// PayPal's word for when funds are taken.
pub open spec fn intent_word(mode: CaptureMode) -> Seq<char> {
    match mode {
        CaptureMode::Automatic => "CAPTURE"@,
        CaptureMode::Manual => "AUTHORIZE"@,
    }
}

/// The body of a capture.
pub open spec fn capture_body(request: CaptureRequest) -> JsonView {
    JsonView::Object(
        Map::<Seq<char>, JsonView>::empty().insert(
            "amount"@,
            amount_content(request.amount),
        ).insert("final_capture"@, JsonView::Truth(request.final_capture)),
    )
}

/// The body of a refund.
pub open spec fn refund_body(request: GatewayRefundRequest) -> JsonView {
    JsonView::Object(
        Map::<Seq<char>, JsonView>::empty().insert(
            "amount"@,
            amount_content(request.amount),
        ).insert(
            "note_to_payer"@,
            JsonView::Text("Refund: "@ + reason_name(request.reason)),
        ),
    )
}

/// How the approval page looks and where it leads back to.
pub open spec fn payment_source(brand: Option<Seq<char>>, url: Option<Seq<char>>) -> JsonView {
    JsonView::Object(
        Map::<Seq<char>, JsonView>::empty().insert(
            "paypal"@,
            JsonView::Object(
                Map::<Seq<char>, JsonView>::empty().insert(
                    "experience_context"@,
                    JsonView::Object(
                        Map::<Seq<char>, JsonView>::empty().insert(
                            "brand_name"@,
                            optional_json(brand),
                        ).insert("return_url"@, optional_json(url)).insert(
                            "user_action"@,
                            JsonView::Text("PAY_NOW"@),
                        ),
                    ),
                ),
            ),
        ),
    )
}

/// The name of a refund's reason.
pub open spec fn reason_name(reason: RefundReason) -> Seq<char> {
    match reason {
        RefundReason::RequestedByCustomer => "RequestedByCustomer"@,
        RefundReason::Unavailable => "Unavailable"@,
        RefundReason::OrderCanceled => "OrderCanceled"@,
        RefundReason::Fraudulent => "Fraudulent"@,
        RefundReason::Duplicate => "Duplicate"@,
        RefundReason::Other => "Other"@,
    }
}

fn name_of_reason(reason: RefundReason) -> (name: &'static str)
    ensures
        name@ == reason_name(reason),
{
    match reason {
        RefundReason::RequestedByCustomer => "RequestedByCustomer",
        RefundReason::Unavailable => "Unavailable",
        RefundReason::OrderCanceled => "OrderCanceled",
        RefundReason::Fraudulent => "Fraudulent",
        RefundReason::Duplicate => "Duplicate",
        RefundReason::Other => "Other",
    }
}

/// Why a webhook without a header is refused.
pub open spec fn missing_header(name: Seq<char>) -> ErrorView {
    ErrorView::WebhookVerification("missing '"@ + name + "' header"@)
}

/// The headers that a webhook must have, in the order in which they are looked up, each
/// with the field under which it is sent on.
pub open spec fn signature_headers() -> Seq<(Seq<char>, Seq<char>)> {
    seq![
        ("auth_algo"@, "paypal-auth-algo"@),
        ("cert_url"@, "paypal-cert-url"@),
        ("transmission_id"@, "paypal-transmission-id"@),
        ("transmission_sig"@, "paypal-transmission-sig"@),
        ("transmission_time"@, "paypal-transmission-time"@),
    ]
}

/// The fields made of the first `n` of a list of headers, or why they cannot be made.
pub open spec fn header_fields(headers: Headers, names: Seq<(Seq<char>, Seq<char>)>, n: int) -> Result<
    Map<Seq<char>, JsonView>,
    ErrorView,
>
    decreases n,
{
    if n <= 0 {
        Ok(Map::empty())
    } else {
        match header_fields(headers, names, n - 1) {
            Err(error) => Err(error),
            Ok(fields) => match headers.value(names[n - 1].1) {
                Some(value) => Ok(fields.insert(names[n - 1].0, JsonView::Text(value))),
                None => Err(missing_header(names[n - 1].1)),
            },
        }
    }
}

/// What PayPal is asked about a webhook, or why it is refused before that.
pub open spec fn verification_of(webhook_id: Seq<char>, headers: Headers, event: JsonView) -> Result<
    JsonView,
    ErrorView,
> {
    match header_fields(headers, signature_headers(), 5) {
        Err(error) => Err(error),
        Ok(fields) => Ok(
            JsonView::Object(
                fields.insert("webhook_id"@, JsonView::Text(webhook_id)).insert(
                    "webhook_event"@,
                    event,
                ),
            ),
        ),
    }
}

impl PayPalView {
    /// A request with authentication and, where there is one, idempotency key.
    pub open spec fn signed(self, request: RequestView, key: Option<Seq<char>>) -> RequestView {
        let authenticated = request.with_bearer_auth(self.access_token);
        match key {
            Some(text) => authenticated.with_header("paypal-request-id"@, text),
            None => authenticated,
        }
    }

    /// A JSON request, or why it cannot be made.
    pub open spec fn json_request(self, path: Seq<char>, body: JsonView, key: Option<Seq<char>>) -> Result<
        RequestView,
        ErrorView,
    > {
        match RequestView::post_json(self.base_url + path, body) {
            Err(error) => Err(error),
            Ok(request) => Ok(self.signed(request, key)),
        }
    }

    /// The body of an authorisation.
    pub open spec fn authorize_body(self, request: AuthorizeRequest) -> JsonView {
        let body = Map::<Seq<char>, JsonView>::empty().insert(
            "intent"@,
            JsonView::Text(intent_word(request.capture_mode)),
        ).insert("purchase_units"@, JsonView::List(units_of(request)));
        if self.brand_name is Some || request.return_url is Some {
            JsonView::Object(
                body.insert(
                    "payment_source"@,
                    payment_source(self.brand_name, optional_text(request.return_url)),
                ),
            )
        } else {
            JsonView::Object(body)
        }
    }

    /// The request that asks PayPal to verify a webhook, or why it is refused before that.
    pub open spec fn verification(self, payload: Seq<u8>, headers: Headers) -> Result<
        RequestView,
        ErrorView,
    > {
        match self.webhook_id {
            None => Err(ErrorView::Configuration("no PayPal webhook id configured"@)),
            Some(id) => match json_document(payload) {
                Err(message) => Err(
                    ErrorView::WebhookVerification("invalid JSON body: "@ + message),
                ),
                Ok(event) => match verification_of(id, headers, event) {
                    Err(error) => Err(error),
                    Ok(body) => self.json_request(
                        "/v1/notifications/verify-webhook-signature"@,
                        body,
                        None,
                    ),
                },
            },
        }
    }
}

// Webhooks.

/// The normalised type of an event.
pub open spec fn event_kind(event_type: Seq<char>, resource: JsonView) -> EventKindView {
    if event_type == "PAYMENT.AUTHORIZATION.CREATED"@ {
        EventKindView::PaymentAuthorized
    } else if event_type == "PAYMENT.CAPTURE.COMPLETED"@ || event_type
        == "CHECKOUT.ORDER.COMPLETED"@ {
        EventKindView::PaymentCaptured
    } else if event_type == "PAYMENT.CAPTURE.DENIED"@ {
        EventKindView::PaymentFailed
    } else if event_type == "PAYMENT.AUTHORIZATION.VOIDED"@ {
        EventKindView::PaymentCanceled
    } else if event_type == "PAYMENT.CAPTURE.REFUNDED"@ {
        EventKindView::RefundSucceeded
    } else if event_type == "CUSTOMER.DISPUTE.CREATED"@ {
        EventKindView::DisputeOpened
    } else if event_type == "CUSTOMER.DISPUTE.RESOLVED"@ {
        EventKindView::DisputeClosed(
            resource.member("dispute_outcome"@).member("outcome_code"@).text() == Some(
                "RESOLVED_SELLER_FAVOUR"@,
            ),
        )
    } else if event_type == "PAYMENT.PAYOUTSBATCH.SUCCESS"@ {
        EventKindView::PayoutPaid
    } else {
        EventKindView::Unknown(event_type)
    }
}

/// The amount an event is about; nothing where it names none, in a known currency.
pub open spec fn event_amount(amount: JsonView) -> Option<Money> {
    match Currency::of_code(amount.member("currency_code"@).text_or("USD"@)) {
        Ok(currency) => match amount_in(amount, currency) {
            Ok(found) => Some(found),
            Err(_) => None,
        },
        Err(_) => None,
    }
}

/// When an event happened; `now` where it does not say.
pub open spec fn event_time(body: JsonView, now: Timestamp) -> Timestamp {
    match body.member("create_time"@).text() {
        Some(text) => match rfc3339_instant(text) {
            Some((seconds, nanos)) => Timestamp { seconds, nanos },
            None => now,
        },
        None => now,
    }
}

/// The event that a payload describes.
pub open spec fn event_of(body: JsonView, now: Timestamp) -> EventView {
    let resource = body.member("resource"@);
    EventView {
        provider_event_id: body.member("id"@).text_or(""@),
        gateway: "paypal"@,
        kind: event_kind(body.member("event_type"@).text_or("unknown"@), resource),
        transaction_id: resource.member("id"@).text(),
        amount: event_amount(resource.member("amount"@)),
        occurred_at: event_time(body, now),
        raw: Some(body),
    }
}

/// The event of a webhook that PayPal has answered for, or why it is refused.
pub open spec fn verified_event(payload: Seq<u8>, answer: HttpResponse, now: Timestamp) -> Result<
    EventView,
    ErrorView,
> {
    match json_document(payload) {
        Err(message) => Err(ErrorView::WebhookVerification("invalid JSON body: "@ + message)),
        Ok(body) => match interpreted(answer) {
            Err(error) => Err(error),
            Ok(result) => if result.member("verification_status"@).text() == Some("SUCCESS"@) {
                Ok(event_of(body, now))
            } else {
                Err(
                    ErrorView::WebhookVerification(
                        "PayPal reported the webhook signature as invalid"@,
                    ),
                )
            },
        },
    }
}

fn text_is(document: &serde_json::Value, key: &str, wanted: &str) -> (found: bool)
    ensures
        found == (json_content(*document).member(key@).text() == Some(wanted@)),
{
    match text_of_json(member(document, key)) {
        Some(text) => same_text(text, wanted),
        None => false,
    }
}

/// Normalise the type of an event about a resource.
pub fn map_event(event_type: &str, resource: &serde_json::Value) -> (kind: GatewayEventKind)
    ensures
        kind@ == event_kind(event_type@, json_content(*resource)),
{
    if same_text(event_type, "PAYMENT.AUTHORIZATION.CREATED") {
        GatewayEventKind::PaymentAuthorized
    } else if same_text(event_type, "PAYMENT.CAPTURE.COMPLETED") || same_text(
        event_type,
        "CHECKOUT.ORDER.COMPLETED",
    ) {
        GatewayEventKind::PaymentCaptured
    } else if same_text(event_type, "PAYMENT.CAPTURE.DENIED") {
        GatewayEventKind::PaymentFailed
    } else if same_text(event_type, "PAYMENT.AUTHORIZATION.VOIDED") {
        GatewayEventKind::PaymentCanceled
    } else if same_text(event_type, "PAYMENT.CAPTURE.REFUNDED") {
        GatewayEventKind::RefundSucceeded
    } else if same_text(event_type, "CUSTOMER.DISPUTE.CREATED") {
        GatewayEventKind::DisputeOpened
    } else if same_text(event_type, "CUSTOMER.DISPUTE.RESOLVED") {
        GatewayEventKind::DisputeClosed {
            won: text_is(
                member(resource, "dispute_outcome"),
                "outcome_code",
                "RESOLVED_SELLER_FAVOUR",
            ),
        }
    } else if same_text(event_type, "PAYMENT.PAYOUTSBATCH.SUCCESS") {
        GatewayEventKind::PayoutPaid
    } else {
        GatewayEventKind::Unknown { provider_type: event_type.to_owned() }
    }
}

fn find_approval(links: &Vec<serde_json::Value>) -> (url: Option<String>)
    ensures
        optional_text(url) == approval_url(json_contents(links@)),
{
    let ghost all = json_contents(links@);
    let mut n: usize = 0;
    assert(all.skip(0) =~= all);
    while n < links.len()
        invariant
            all == json_contents(links@),
            n <= all.len(),
            approval_url(all) == approval_url(all.skip(n as int)),
        decreases all.len() - n,
    {
        assert(all.skip(n as int)[0] == json_content(links@[n as int]));
        assert(all.skip(n as int).drop_first() =~= all.skip(n + 1));
        if text_is(&links[n], "rel", "approve") {
            return optional_member(&links[n], "href");
        }
        n += 1;
    }
    None
}

/// The amounts of an order: its total, what is captured and what is authorised.
struct OrderAmounts {
    total: Money,
    captured: Money,
    authorized: Money,
}

fn read_amounts(order: &serde_json::Value) -> (amounts: Result<OrderAmounts, Error>)
    ensures
        match amounts {
            Ok(read) => order_amounts(json_content(*order)) == Ok::<
                (Money, Money, Money),
                ErrorView,
            >((read.total, read.captured, read.authorized)),
            Err(error) => order_amounts(json_content(*order)) == Err::<
                (Money, Money, Money),
                ErrorView,
            >(error@),
        },
{
    let unit = element(member(order, "purchase_units"), 0);
    let amount = member(unit, "amount");
    let code = text_member(amount, "currency_code", "USD");
    let currency = match Currency::from_code(code.as_str()) {
        Ok(currency) => currency,
        Err(error) => return Err(error),
    };
    let total = match parse_amount(amount, currency) {
        Ok(total) => total,
        Err(error) => return Err(error),
    };
    let payments = member(unit, "payments");
    let captured = match sum_amounts(member(payments, "captures"), currency, "COMPLETED") {
        Ok(captured) => captured,
        Err(error) => return Err(error),
    };
    let authorized = match sum_amounts(member(payments, "authorizations"), currency, "CREATED") {
        Ok(authorized) => authorized,
        Err(error) => return Err(error),
    };
    Ok(OrderAmounts { total, captured, authorized })
}

fn header_json(headers: &Headers, name: &str) -> (value: Result<serde_json::Value, Error>)
    ensures
        match value {
            Ok(made) => headers.value(name@) is Some && json_content(made) == JsonView::Text(
                headers.value(name@)->0,
            ),
            Err(error) => headers.value(name@) is None && error@ == missing_header(name@),
        },
{
    match headers.require(name) {
        Ok(text) => Ok(text_json(text)),
        Err(error) => Err(error),
    }
}

impl PayPalGateway {
    /// Build an adapter from an OAuth access token.
    ///
    /// Token refresh is the caller's concern: wrap it in your transport, where
    /// it can be shared with the rest of your PayPal integration.
    pub fn new(access_token: SecretString) -> (gateway: Self)
        ensures
            gateway@ == (PayPalView {
                access_token: access_token@,
                base_url: "https://api-m.paypal.com"@,
                webhook_id: None,
                brand_name: None,
            }),
    {
        PayPalGateway {
            access_token,
            base_url: "https://api-m.paypal.com".to_owned(),
            webhook_id: None,
            brand_name: None,
        }
    }

    /// Builder: point at the sandbox or a mock.
    pub fn with_base_url(self, base_url: &str) -> (gateway: Self)
        ensures
            gateway@ == (PayPalView { base_url: base_url@, ..self@ }),
    {
        PayPalGateway { base_url: base_url.to_owned(), ..self }
    }

    /// Builder: set the webhook id used to verify notifications.
    pub fn with_webhook_id(self, webhook_id: &str) -> (gateway: Self)
        ensures
            gateway@ == (PayPalView { webhook_id: Some(webhook_id@), ..self@ }),
    {
        PayPalGateway { webhook_id: Some(webhook_id.to_owned()), ..self }
    }

    /// Builder: set the brand shown on the approval page.
    pub fn with_brand_name(self, brand_name: &str) -> (gateway: Self)
        ensures
            gateway@ == (PayPalView { brand_name: Some(brand_name@), ..self@ }),
    {
        PayPalGateway { brand_name: Some(brand_name.to_owned()), ..self }
    }

    /// The adapter's identifier.
    pub fn id(&self) -> (id: GatewayId)
        ensures
            id@ == "paypal"@,
    {
        GatewayId::from_static("paypal")
    }

    /// What PayPal can do.
    pub fn capabilities(&self) -> (capabilities: Capabilities)
        ensures
            capabilities.delayed_capture,
            capabilities.partial_capture,
            capabilities.multi_capture,
            capabilities.refunds,
            capabilities.partial_refunds,
            capabilities.connected_accounts,
            capabilities.application_fees,
            !capabilities.stored_credentials,
            capabilities.webhooks,
            capabilities.disputes,
            !capabilities.three_d_secure,
            capabilities.authorization_validity == (Duration { seconds: 2_505_600, nanos: 0 }),
            capabilities.currencies@ == Map::<Seq<char>, ()>::empty(),
    {
        Capabilities {
            // Instruments are vaulted through PayPal's separate Vault API.
            stored_credentials: false,
            // Buyer authentication happens on PayPal's own approval page.
            three_d_secure: false,
            authorization_validity: Duration::days(29),
            ..Capabilities::full()
        }
    }

    fn request(&self, request: HttpRequest, idempotency_key: Option<&str>) -> (signed: HttpRequest)
        ensures
            signed@ == self@.signed(
                request@,
                match idempotency_key {
                    Some(key) => Some(key@),
                    None => None,
                },
            ),
    {
        let authenticated = request.with_bearer_auth(&self.access_token);
        match idempotency_key {
            // PayPal calls the idempotency header "PayPal-Request-Id".
            Some(key) => authenticated.with_header("paypal-request-id", key),
            None => authenticated,
        }
    }

    fn json_request(&self, path: &str, body: &serde_json::Value, idempotency_key: Option<&str>) -> (
    signed: Result<HttpRequest, Error>)
        ensures
            request_outcome(signed) == self@.json_request(
                path@,
                json_content(*body),
                match idempotency_key {
                    Some(key) => Some(key@),
                    None => None,
                },
            ),
    {
        let url = join(self.base_url.as_str(), path);
        match HttpRequest::post_json(url.as_str(), body) {
            Ok(request) => Ok(self.request(request, idempotency_key)),
            Err(error) => Err(error),
        }
    }

    /// The payload of a response, or the error it describes.
    pub fn interpret(&self, response: &HttpResponse) -> (body: Result<serde_json::Value, Error>)
        ensures
            document_outcome(body) == interpreted(*response),
    {
        if response.is_success() && response.body.len() == 0 {
            return Ok(null_json());
        }
        let body = match response.json_body() {
            Ok(body) => body,
            Err(_) => null_json(),
        };
        if response.is_success() {
            return Ok(body);
        }
        let detail = element(member(&body, "details"), 0);
        let issue = match optional_member(detail, "issue") {
            Some(issue) => issue,
            None => text_member(&body, "name", "UNKNOWN"),
        };
        let message = match optional_member(detail, "description") {
            Some(description) => description,
            None => text_member(&body, "message", "PayPal returned an error"),
        };
        match map_decline(issue.as_str()) {
            Some(code) => Err(Error::Declined { code, message }),
            None => Err(
                Error::Gateway {
                    gateway: "paypal".to_owned(),
                    provider_code: Some(issue),
                    message,
                    retryable: response.is_retryable(),
                },
            ),
        }
    }

    /// An amount as PayPal writes it.
    pub fn amount_object(amount: Money) -> (document: serde_json::Value)
        ensures
            json_content(document) == amount_content(amount),
    {
        let code = amount.currency().code();
        let value = amount.to_decimal_string();
        ObjectBuilder::new().with("currency_code", text_json(code.as_str())).with(
            "value",
            text_json(value.as_str()),
        ).build()
    }

    /// The answer that an order describes at `now`.
    pub fn parse_order(&self, order: &serde_json::Value, now: Timestamp) -> (response: Result<
        AuthorizeResponse,
        Error,
    >)
        ensures
            authorize_outcome(response) == order_answer(json_content(*order), now),
    {
        let amounts = match read_amounts(order) {
            Ok(amounts) => amounts,
            Err(error) => return Err(error),
        };
        let word = text_member(order, "status", "");
        let status = word.as_str();
        let transaction_status = if same_text(status, "COMPLETED") {
            TransactionStatus::Captured
        } else if same_text(status, "CREATED") || same_text(status, "SAVED") || same_text(
            status,
            "PAYER_ACTION_REQUIRED",
        ) || same_text(status, "APPROVED") {
            TransactionStatus::RequiresAction
        } else if same_text(status, "VOIDED") {
            TransactionStatus::Canceled
        } else if !amounts.authorized.is_zero() {
            TransactionStatus::Authorized
        } else {
            TransactionStatus::Pending
        };
        let amount_authorized = if !amounts.authorized.is_zero() {
            amounts.authorized
        } else if transaction_status == TransactionStatus::Captured {
            amounts.total
        } else {
            Money::zero(amounts.total.currency())
        };
        let next_action = if transaction_status == TransactionStatus::RequiresAction {
            match list_of_json(member(order, "links")) {
                Some(links) => match find_approval(links) {
                    Some(url) => Some(NextAction::Redirect { url }),
                    None => None,
                },
                None => None,
            }
        } else {
            None
        };
        let payments = member(element(member(order, "purchase_units"), 0), "payments");
        let processor_reference = match optional_member(
            element(member(payments, "captures"), 0),
            "id",
        ) {
            Some(id) => Some(id),
            None => optional_member(element(member(payments, "authorizations"), 0), "id"),
        };
        // PayPal honours an authorisation for 29 days, with a 3-day guaranteed window.
        let expires_at = match now.plus(Duration::days(29)) {
            Some(expiry) => Some(expiry),
            None => return Err(Error::internal("the expiry lies beyond the calendar")),
        };
        Ok(
            AuthorizeResponse {
                transaction_id: text_member(order, "id", ""),
                status: transaction_status,
                amount_authorized,
                amount_captured: amounts.captured,
                expires_at,
                next_action,
                processor_reference,
                raw: Some(copy_json(order)),
            },
        )
    }

    fn make_whole_unit(request: &AuthorizeRequest) -> (unit: serde_json::Value)
        ensures
            json_content(unit) == whole_unit(*request),
    {
        let (reference, custom) = match &request.order_id {
            Some(order) => (text_json(order.as_str()), text_json(order.as_str())),
            None => (text_json("default"), null_json()),
        };
        ObjectBuilder::new().with("reference_id", reference).with(
            "amount",
            Self::amount_object(request.amount),
        ).with("custom_id", custom).with(
            "description",
            make_optional_json(&request.description),
        ).build()
    }

    fn make_fee_instruction(fee: Money) -> (instruction: serde_json::Value)
        ensures
            json_content(instruction) == fee_instruction(fee),
    {
        let taken = ObjectBuilder::new().with("amount", Self::amount_object(fee)).build();
        let mut fees: Vec<serde_json::Value> = Vec::new();
        fees.push(taken);
        assert(json_contents(fees@) =~= seq![json_content(taken)]);
        ObjectBuilder::new().with("disbursement_mode", text_json("INSTANT")).with(
            "platform_fees",
            list_json(fees),
        ).build()
    }

    fn make_transfer_unit(request: &AuthorizeRequest, index: usize) -> (unit: serde_json::Value)
        requires
            index < request.transfers@.len(),
        ensures
            json_content(unit) == transfer_unit(*request, index as int),
    {
        let transfer = &request.transfers[index];
        let number = unsigned_to_text(index as u64);
        let reference = join("unit-", number.as_str());
        let payee = ObjectBuilder::new().with(
            "merchant_id",
            text_json(transfer.destination.as_str()),
        ).build();
        let unit = ObjectBuilder::new().with("reference_id", text_json(reference.as_str())).with(
            "amount",
            Self::amount_object(transfer.amount),
        ).with("payee", payee).with("description", make_optional_json(&transfer.description));
        if let Some(fee) = request.application_fee {
            if index == 0 && fee.is_positive() {
                return unit.with("payment_instruction", Self::make_fee_instruction(fee)).build();
            }
        }
        unit.build()
    }

    fn make_units(request: &AuthorizeRequest) -> (units: Vec<serde_json::Value>)
        ensures
            json_contents(units@) == units_of(*request),
    {
        let mut units: Vec<serde_json::Value> = Vec::new();
        if request.transfers.len() == 0 {
            units.push(Self::make_whole_unit(request));
            assert(json_contents(units@) =~= units_of(*request));
            return units;
        }
        let mut index: usize = 0;
        while index < request.transfers.len()
            invariant
                index <= request.transfers@.len(),
                units@.len() == index,
                forall|i: int|
                    0 <= i < index ==> json_content(#[trigger] units@[i]) == transfer_unit(
                        *request,
                        i,
                    ),
            decreases request.transfers@.len() - index,
        {
            units.push(Self::make_transfer_unit(request, index));
            index += 1;
        }
        assert(json_contents(units@) =~= units_of(*request));
        units
    }

    fn make_payment_source(&self, request: &AuthorizeRequest) -> (source: serde_json::Value)
        ensures
            json_content(source) == payment_source(
                self@.brand_name,
                optional_text(request.return_url),
            ),
    {
        let context = ObjectBuilder::new().with(
            "brand_name",
            make_optional_json(&self.brand_name),
        ).with("return_url", make_optional_json(&request.return_url)).with(
            "user_action",
            text_json("PAY_NOW"),
        ).build();
        let paypal = ObjectBuilder::new().with("experience_context", context).build();
        ObjectBuilder::new().with("paypal", paypal).build()
    }

    /// The request that authorises a charge.
    pub fn authorize_request(&self, request: &AuthorizeRequest) -> (http: Result<HttpRequest, Error>)
        ensures
            request_outcome(http) == match request.check() {
                Err(error) => Err::<RequestView, ErrorView>(error),
                Ok(_) => self@.json_request(
                    "/v2/checkout/orders"@,
                    self@.authorize_body(*request),
                    Some(request.idempotency_key@),
                ),
            },
    {
        match request.validate() {
            Ok(_) => {},
            Err(error) => return Err(error),
        }
        let intent = match request.capture_mode {
            CaptureMode::Automatic => text_json("CAPTURE"),
            CaptureMode::Manual => text_json("AUTHORIZE"),
        };
        let mut builder = ObjectBuilder::new().with("intent", intent).with(
            "purchase_units",
            list_json(Self::make_units(request)),
        );
        if self.brand_name.is_some() || request.return_url.is_some() {
            builder = builder.with("payment_source", self.make_payment_source(request));
        }
        let body = builder.build();
        self.json_request(
            "/v2/checkout/orders",
            &body,
            Some(request.idempotency_key.as_str()),
        )
    }

    /// The answer to an authorisation or a look-up that a response describes at `now`.
    pub fn authorize_response(&self, response: &HttpResponse, now: Timestamp) -> (answer: Result<
        AuthorizeResponse,
        Error,
    >)
        ensures
            authorize_outcome(answer) == authorize_answer(*response, now),
    {
        match self.interpret(response) {
            Ok(order) => self.parse_order(&order, now),
            Err(error) => Err(error),
        }
    }

    /// The request that captures an authorisation.
    ///
    /// PayPal captures an *authorization*, not the order, so the caller passes
    /// the authorization id it received.
    pub fn capture_request(&self, request: &CaptureRequest) -> (http: Result<HttpRequest, Error>)
        ensures
            request_outcome(http) == self@.json_request(
                "/v2/payments/authorizations/"@ + request.transaction_id@ + "/capture"@,
                capture_body(*request),
                Some(request.idempotency_key@),
            ),
    {
        let body = ObjectBuilder::new().with("amount", Self::amount_object(request.amount)).with(
            "final_capture",
            truth_json(request.final_capture),
        ).build();
        let path = join3(
            "/v2/payments/authorizations/",
            request.transaction_id.as_str(),
            "/capture",
        );
        self.json_request(path.as_str(), &body, Some(request.idempotency_key.as_str()))
    }

    /// The result of a capture that a response describes.
    pub open spec fn capture_answer(request: CaptureRequest, response: HttpResponse) -> Result<
        CaptureView,
        ErrorView,
    > {
        match interpreted(response) {
            Err(error) => Err(error),
            Ok(capture) => match Currency::of_code(
                capture.member("amount"@).member("currency_code"@).text_or("USD"@),
            ) {
                Err(error) => Err(error),
                Ok(currency) => match amount_in(capture.member("amount"@), currency) {
                    Err(error) => Err(error),
                    Ok(amount) => Ok(
                        CaptureView {
                            capture_reference: capture.member("id"@).text_or(""@),
                            status: if request.final_capture {
                                TransactionStatus::Captured
                            } else {
                                TransactionStatus::PartiallyCaptured
                            },
                            amount_captured: amount,
                            total_captured: amount,
                            raw: Some(capture),
                        },
                    ),
                },
            },
        }
    }

    /// The result of a capture that a response describes.
    pub fn capture_response(&self, request: &CaptureRequest, response: &HttpResponse) -> (
    capture: Result<CaptureResponse, Error>)
        ensures
            capture_outcome(capture) == Self::capture_answer(*request, *response),
    {
        let capture = match self.interpret(response) {
            Ok(capture) => capture,
            Err(error) => return Err(error),
        };
        let code = text_member(member(&capture, "amount"), "currency_code", "USD");
        let currency = match Currency::from_code(code.as_str()) {
            Ok(currency) => currency,
            Err(error) => return Err(error),
        };
        let amount = match parse_amount(member(&capture, "amount"), currency) {
            Ok(amount) => amount,
            Err(error) => return Err(error),
        };
        let status = if request.final_capture {
            TransactionStatus::Captured
        } else {
            TransactionStatus::PartiallyCaptured
        };
        Ok(
            CaptureResponse {
                capture_reference: text_member(&capture, "id", ""),
                status,
                amount_captured: amount,
                total_captured: amount,
                raw: Some(capture),
            },
        )
    }

    /// The request that releases an authorisation.
    pub fn cancel_request(&self, request: &CancelRequest) -> (http: Result<HttpRequest, Error>)
        ensures
            request_outcome(http) == self@.json_request(
                "/v2/payments/authorizations/"@ + request.transaction_id@ + "/void"@,
                JsonView::Object(Map::<Seq<char>, JsonView>::empty()),
                Some(request.idempotency_key@),
            ),
    {
        let body = ObjectBuilder::new().build();
        let path = join3(
            "/v2/payments/authorizations/",
            request.transaction_id.as_str(),
            "/void",
        );
        self.json_request(path.as_str(), &body, Some(request.idempotency_key.as_str()))
    }

    /// The answer to a cancellation that a response describes.
    pub fn cancel_response(&self, request: &CancelRequest, response: &HttpResponse) -> (
    answer: Result<AuthorizeResponse, Error>)
        ensures
            authorize_outcome(answer) == match interpreted(*response) {
                Err(error) => Err::<AuthorizeView, ErrorView>(error),
                Ok(_) => Ok(
                    AuthorizeView {
                        transaction_id: request.transaction_id@,
                        status: TransactionStatus::Canceled,
                        amount_authorized: Money { minor: 0, currency: Currency::USD },
                        amount_captured: Money { minor: 0, currency: Currency::USD },
                        expires_at: None,
                        next_action: None,
                        processor_reference: None,
                        raw: None,
                    },
                ),
            },
    {
        match self.interpret(response) {
            Ok(_) => {},
            Err(error) => return Err(error),
        }
        Ok(
            AuthorizeResponse {
                transaction_id: request.transaction_id.clone(),
                status: TransactionStatus::Canceled,
                amount_authorized: Money::zero(Currency::USD),
                amount_captured: Money::zero(Currency::USD),
                expires_at: None,
                next_action: None,
                processor_reference: None,
                raw: None,
            },
        )
    }

    /// The request that refunds a capture.
    pub fn refund_request(&self, request: &GatewayRefundRequest) -> (http: Result<
        HttpRequest,
        Error,
    >)
        ensures
            request_outcome(http) == self@.json_request(
                "/v2/payments/captures/"@ + request.transaction_id@ + "/refund"@,
                refund_body(*request),
                Some(request.idempotency_key@),
            ),
    {
        let note = join("Refund: ", name_of_reason(request.reason));
        let body = ObjectBuilder::new().with("amount", Self::amount_object(request.amount)).with(
            "note_to_payer",
            text_json(note.as_str()),
        ).build();
        let path = join3("/v2/payments/captures/", request.transaction_id.as_str(), "/refund");
        self.json_request(path.as_str(), &body, Some(request.idempotency_key.as_str()))
    }

    /// The refund that a response describes.
    pub open spec fn refund_answer(response: HttpResponse) -> Result<GatewayRefundView, ErrorView> {
        match interpreted(response) {
            Err(error) => Err(error),
            Ok(refund) => match Currency::of_code(
                refund.member("amount"@).member("currency_code"@).text_or("USD"@),
            ) {
                Err(error) => Err(error),
                Ok(currency) => match amount_in(refund.member("amount"@), currency) {
                    Err(error) => Err(error),
                    Ok(amount) => {
                        let status = refund.member("status"@).text_or(""@);
                        Ok(
                            GatewayRefundView {
                                refund_reference: refund.member("id"@).text_or(""@),
                                amount,
                                status: if status == "COMPLETED"@ {
                                    RefundStatus::Succeeded
                                } else if status == "PENDING"@ {
                                    RefundStatus::Pending
                                } else if status == "CANCELLED"@ {
                                    RefundStatus::Canceled
                                } else {
                                    RefundStatus::Failed
                                },
                                raw: Some(refund),
                            },
                        )
                    },
                },
            },
        }
    }

    /// The refund that a response describes.
    pub fn refund_response(&self, response: &HttpResponse) -> (refund: Result<
        GatewayRefundResponse,
        Error,
    >)
        ensures
            gateway_refund_outcome(refund) == Self::refund_answer(*response),
    {
        let refund = match self.interpret(response) {
            Ok(refund) => refund,
            Err(error) => return Err(error),
        };
        let code = text_member(member(&refund, "amount"), "currency_code", "USD");
        let currency = match Currency::from_code(code.as_str()) {
            Ok(currency) => currency,
            Err(error) => return Err(error),
        };
        let amount = match parse_amount(member(&refund, "amount"), currency) {
            Ok(amount) => amount,
            Err(error) => return Err(error),
        };
        let word = text_member(&refund, "status", "");
        let status = if same_text(word.as_str(), "COMPLETED") {
            RefundStatus::Succeeded
        } else if same_text(word.as_str(), "PENDING") {
            RefundStatus::Pending
        } else if same_text(word.as_str(), "CANCELLED") {
            RefundStatus::Canceled
        } else {
            RefundStatus::Failed
        };
        Ok(
            GatewayRefundResponse {
                refund_reference: text_member(&refund, "id", ""),
                amount,
                status,
                raw: Some(refund),
            },
        )
    }

    /// The request that looks up an order.
    pub fn fetch_request(&self, transaction_id: &str) -> (http: HttpRequest)
        ensures
            http@ == self@.signed(
                RequestView::get(self@.base_url + ("/v2/checkout/orders/"@ + transaction_id@)),
                None,
            ),
    {
        let path = join("/v2/checkout/orders/", transaction_id);
        let url = join(self.base_url.as_str(), path.as_str());
        self.request(HttpRequest::get(url.as_str()), None)
    }

    /// The request that asks PayPal to verify a webhook.
    ///
    /// PayPal signs with a certificate chain rather than a shared secret, so
    /// verification is delegated to their API.
    pub fn verification_request(&self, payload: &[u8], headers: &Headers) -> (http: Result<
        HttpRequest,
        Error,
    >)
        ensures
            request_outcome(http) == self@.verification(payload@, *headers),
    {
        let webhook_id = match &self.webhook_id {
            Some(id) => id,
            None => return Err(Error::configuration("no PayPal webhook id configured")),
        };
        let event = match parse_json(payload) {
            Ok(event) => event,
            Err(message) => {
                return Err(
                    Error::WebhookVerification(join("invalid JSON body: ", message.as_str())),
                );
            },
        };
        proof {
            reveal_with_fuel(header_fields, 6);
        }
        let auth_algo = match header_json(headers, "paypal-auth-algo") {
            Ok(value) => value,
            Err(error) => return Err(error),
        };
        let cert_url = match header_json(headers, "paypal-cert-url") {
            Ok(value) => value,
            Err(error) => return Err(error),
        };
        let transmission_id = match header_json(headers, "paypal-transmission-id") {
            Ok(value) => value,
            Err(error) => return Err(error),
        };
        let transmission_sig = match header_json(headers, "paypal-transmission-sig") {
            Ok(value) => value,
            Err(error) => return Err(error),
        };
        let transmission_time = match header_json(headers, "paypal-transmission-time") {
            Ok(value) => value,
            Err(error) => return Err(error),
        };
        let body = ObjectBuilder::new().with("auth_algo", auth_algo).with(
            "cert_url",
            cert_url,
        ).with("transmission_id", transmission_id).with(
            "transmission_sig",
            transmission_sig,
        ).with("transmission_time", transmission_time).with(
            "webhook_id",
            text_json(webhook_id.as_str()),
        ).with("webhook_event", event).build();
        self.json_request("/v1/notifications/verify-webhook-signature", &body, None)
    }

    /// The event that a payload describes, received at `now`.
    pub fn read_event(&self, body: serde_json::Value, now: Timestamp) -> (event: GatewayEvent)
        ensures
            event@ == event_of(json_content(body), now),
    {
        let event_type = text_member(&body, "event_type", "unknown");
        let resource = member(&body, "resource");
        let kind = map_event(event_type.as_str(), resource);
        let stated = member(resource, "amount");
        let code = text_member(stated, "currency_code", "USD");
        let amount = match Currency::from_code(code.as_str()) {
            Ok(currency) => match parse_amount(stated, currency) {
                Ok(amount) => Some(amount),
                Err(_) => None,
            },
            Err(_) => None,
        };
        let occurred_at = match text_of_json(member(&body, "create_time")) {
            Some(text) => match parse_rfc3339(text) {
                Some((seconds, nanos)) => Timestamp { seconds, nanos },
                None => now,
            },
            None => now,
        };
        GatewayEvent {
            provider_event_id: text_member(&body, "id", ""),
            gateway: self.id(),
            kind,
            transaction_id: optional_member(resource, "id"),
            amount,
            occurred_at,
            raw: Some(body),
        }
    }

    /// The event of a webhook received at `now`, once PayPal has answered for it.
    pub fn parse_webhook(&self, payload: &[u8], answer: &HttpResponse, now: Timestamp) -> (
    event: Result<GatewayEvent, Error>)
        ensures
            event_outcome(event) == verified_event(payload@, *answer, now),
    {
        let body = match parse_json(payload) {
            Ok(body) => body,
            Err(message) => {
                return Err(
                    Error::WebhookVerification(join("invalid JSON body: ", message.as_str())),
                );
            },
        };
        let result = match self.interpret(answer) {
            Ok(result) => result,
            Err(error) => return Err(error),
        };
        if !text_is(&result, "verification_status", "SUCCESS") {
            return Err(
                Error::WebhookVerification(
                    "PayPal reported the webhook signature as invalid".to_owned(),
                ),
            );
        }
        Ok(self.read_event(body, now))
    }
}

/// An amount that PayPal is sent reads back as the same amount, except for the one whose
/// size does not fit.
pub proof fn law_amounts_survive_the_wire(amount: Money)
    requires
        amount.currency.digits() <= 4,
        amount.minor != i64::MIN,
    ensures
        amount_in(amount_content(amount), amount.currency) == Ok::<Money, ErrorView>(amount),
{
    crate::money::decimal::law_decimal_round_trip(amount);
    assert(amount_content(amount).member("value"@) == JsonView::Text(decimal_text(amount)));
}

/// A webhook is only accepted when PayPal has confirmed it.
pub proof fn law_unconfirmed_webhooks_are_refused(
    payload: Seq<u8>,
    answer: HttpResponse,
    now: Timestamp,
)
    requires
        verified_event(payload, answer, now) is Ok,
    ensures
        interpreted(answer) is Ok,
        interpreted(answer)->Ok_0.member("verification_status"@).text() == Some("SUCCESS"@),
{
}

/// Which word of PayPal's stands for which state of an order; one that it has no word for is
/// authorised where something is held, and pending where nothing is.
pub proof fn law_states_go_by_their_words(status: Seq<char>, held: Money)
    ensures
        order_status(status, held) is Captured <==> status == "COMPLETED"@,
        order_status(status, held) is RequiresAction <==> status == "CREATED"@ || status
            == "SAVED"@ || status == "PAYER_ACTION_REQUIRED"@ || status == "APPROVED"@,
        order_status(status, held) is Canceled <==> status == "VOIDED"@,
        order_status(status, held) is Authorized ==> held.minor != 0,
        order_status(status, held) is Pending ==> held.minor == 0,
        !(order_status(status, held) is Failed),
{
    reveal_strlit("COMPLETED");
    reveal_strlit("CREATED");
    reveal_strlit("SAVED");
    reveal_strlit("PAYER_ACTION_REQUIRED");
    reveal_strlit("APPROVED");
    reveal_strlit("VOIDED");
    assert("COMPLETED"@.len() == 9);
    assert("CREATED"@.len() == 7);
    assert("SAVED"@.len() == 5);
    assert("PAYER_ACTION_REQUIRED"@.len() == 21);
    assert("APPROVED"@.len() == 8);
    assert("VOIDED"@.len() == 6);
}

/// Which of PayPal's issues stands for which reason of a decline; any other is none.
pub proof fn law_declines_go_by_their_issues(issue: Seq<char>)
    ensures
        decline_of(issue) == Some(DeclineCode::GenericDecline) <==> issue
            == "INSTRUMENT_DECLINED"@ || issue == "PAYER_CANNOT_PAY"@ || issue
            == "TRANSACTION_REFUSED"@,
        decline_of(issue) == Some(DeclineCode::InsufficientFunds) <==> issue
            == "INSUFFICIENT_FUNDS"@,
        decline_of(issue) == Some(DeclineCode::ExpiredCard) <==> issue == "CARD_EXPIRED"@,
        decline_of(issue) == Some(DeclineCode::AuthenticationRequired) <==> issue
            == "PAYER_ACTION_REQUIRED"@ || issue == "PAYMENT_DENIED"@,
        decline_of(issue) == Some(DeclineCode::Unsupported) <==> issue
            == "CURRENCY_NOT_SUPPORTED"@ || issue == "INSTRUMENT_NOT_SUPPORTED"@,
{
    reveal_strlit("INSTRUMENT_DECLINED");
    reveal_strlit("PAYER_CANNOT_PAY");
    reveal_strlit("TRANSACTION_REFUSED");
    reveal_strlit("INSUFFICIENT_FUNDS");
    reveal_strlit("CARD_EXPIRED");
    reveal_strlit("PAYER_ACTION_REQUIRED");
    reveal_strlit("PAYMENT_DENIED");
    reveal_strlit("CURRENCY_NOT_SUPPORTED");
    reveal_strlit("INSTRUMENT_NOT_SUPPORTED");
    assert("INSTRUMENT_DECLINED"@.len() == 19);
    assert("PAYER_CANNOT_PAY"@.len() == 16);
    assert("TRANSACTION_REFUSED"@.len() == 19);
    assert("INSUFFICIENT_FUNDS"@.len() == 18);
    assert("CARD_EXPIRED"@.len() == 12);
    assert("PAYER_ACTION_REQUIRED"@.len() == 21);
    assert("PAYMENT_DENIED"@.len() == 14);
    assert("CURRENCY_NOT_SUPPORTED"@.len() == 22);
    assert("INSTRUMENT_NOT_SUPPORTED"@.len() == 24);
    assert("INSTRUMENT_DECLINED"@[0] != "TRANSACTION_REFUSED"@[0]);
}

/// Which of PayPal's events stands for what.
pub proof fn law_events_go_by_their_types(kind: Seq<char>, resource: JsonView)
    ensures
        event_kind(kind, resource) is PaymentAuthorized <==> kind
            == "PAYMENT.AUTHORIZATION.CREATED"@,
        event_kind(kind, resource) is PaymentCaptured <==> kind == "PAYMENT.CAPTURE.COMPLETED"@
            || kind == "CHECKOUT.ORDER.COMPLETED"@,
        event_kind(kind, resource) is PaymentFailed <==> kind == "PAYMENT.CAPTURE.DENIED"@,
        event_kind(kind, resource) is PaymentCanceled <==> kind
            == "PAYMENT.AUTHORIZATION.VOIDED"@,
        event_kind(kind, resource) is RefundSucceeded <==> kind == "PAYMENT.CAPTURE.REFUNDED"@,
        event_kind(kind, resource) is DisputeOpened <==> kind == "CUSTOMER.DISPUTE.CREATED"@,
        event_kind(kind, resource) is DisputeClosed <==> kind == "CUSTOMER.DISPUTE.RESOLVED"@,
        event_kind(kind, resource) is PayoutPaid <==> kind == "PAYMENT.PAYOUTSBATCH.SUCCESS"@,
{
    reveal_strlit("PAYMENT.AUTHORIZATION.CREATED");
    reveal_strlit("PAYMENT.CAPTURE.COMPLETED");
    reveal_strlit("CHECKOUT.ORDER.COMPLETED");
    reveal_strlit("PAYMENT.CAPTURE.DENIED");
    reveal_strlit("PAYMENT.AUTHORIZATION.VOIDED");
    reveal_strlit("PAYMENT.CAPTURE.REFUNDED");
    reveal_strlit("CUSTOMER.DISPUTE.CREATED");
    reveal_strlit("CUSTOMER.DISPUTE.RESOLVED");
    reveal_strlit("PAYMENT.PAYOUTSBATCH.SUCCESS");
    assert("PAYMENT.AUTHORIZATION.CREATED"@.len() == 29);
    assert("PAYMENT.CAPTURE.COMPLETED"@.len() == 25);
    assert("CHECKOUT.ORDER.COMPLETED"@.len() == 24);
    assert("PAYMENT.CAPTURE.DENIED"@.len() == 22);
    assert("PAYMENT.AUTHORIZATION.VOIDED"@.len() == 28);
    assert("PAYMENT.CAPTURE.REFUNDED"@.len() == 24);
    assert("CUSTOMER.DISPUTE.CREATED"@.len() == 24);
    assert("CUSTOMER.DISPUTE.RESOLVED"@.len() == 25);
    assert("PAYMENT.PAYOUTSBATCH.SUCCESS"@.len() == 28);
    assert("CHECKOUT.ORDER.COMPLETED"@[0] != "PAYMENT.CAPTURE.REFUNDED"@[0]);
    assert("CHECKOUT.ORDER.COMPLETED"@[1] != "CUSTOMER.DISPUTE.CREATED"@[1]);
    assert("PAYMENT.CAPTURE.REFUNDED"@[0] != "CUSTOMER.DISPUTE.CREATED"@[0]);
    assert("PAYMENT.CAPTURE.COMPLETED"@[0] != "CUSTOMER.DISPUTE.RESOLVED"@[0]);
    assert("PAYMENT.AUTHORIZATION.VOIDED"@[8] != "PAYMENT.PAYOUTSBATCH.SUCCESS"@[8]);
}

/// An order is read as holding what its authorisations hold; one that is captured without
/// any holds its total, and any other nothing. Its hold lapses 29 days from now.
pub proof fn law_orders_are_read_as_told(order: JsonView, now: Timestamp)
    requires
        order_answer(order, now) is Ok,
        now.normal(),
    ensures
        ({
            let answer = order_answer(order, now)->Ok_0;
            let (all, captured, held) = order_amounts(order)->Ok_0;
            &&& order_amounts(order) is Ok
            &&& answer.amount_captured == captured
            &&& held.minor != 0 ==> answer.amount_authorized == held
            &&& held.minor == 0 && answer.status is Captured ==> answer.amount_authorized == all
            &&& held.minor == 0 && !(answer.status is Captured)
                ==> answer.amount_authorized.minor == 0
            &&& answer.expires_at is Some
            &&& answer.expires_at->Some_0.instant() == now.instant() + 29 * 86_400 * 1_000_000_000
            &&& answer.next_action is Some ==> answer.status is RequiresAction
        }),
{
}

/// An entry counts towards a sum exactly when it has the status asked for, or names none.
pub proof fn law_entries_add_up(
    entries: Seq<JsonView>,
    currency: Currency,
    status: Seq<char>,
    n: int,
)
    requires
        0 <= n < entries.len(),
        amounts_summed(entries, currency, status, n + 1) is Ok,
    ensures
        ({
            let before = amounts_summed(entries, currency, status, n);
            let after = amounts_summed(entries, currency, status, n + 1);
            let named = entries[n].member("status"@).text();
            let amount = amount_in(entries[n].member("amount"@), currency);
            &&& before is Ok
            &&& named is None || named == Some(status) ==> amount is Ok && after->Ok_0.minor
                == before->Ok_0.minor + amount->Ok_0.minor
            &&& named is Some && named != Some(status) ==> after == before
        }),
        amounts_summed(entries, currency, status, 0)->Ok_0.minor == 0,
{
}

/// A charge is one unit over its amount, or one unit for each transfer over the amount of
/// the transfer, to its recipient; only the first carries the fee, where there is one.
pub proof fn law_units_carry_their_amounts(request: AuthorizeRequest, i: int)
    requires
        0 <= i < request.transfers@.len() || (request.transfers@.len() == 0 && i == 0),
    ensures
        request.transfers@.len() == 0 ==> units_of(request).len() == 1 && units_of(
            request,
        )[0].member("amount"@) == amount_content(request.amount),
        request.transfers@.len() > 0 ==> {
            &&& units_of(request).len() == request.transfers@.len()
            &&& units_of(request)[i].member("amount"@) == amount_content(
                request.transfers@[i].amount,
            )
            &&& units_of(request)[i].member("payee"@).member("merchant_id"@).text() == Some(
                request.transfers@[i].destination@,
            )
            &&& units_of(request)[i].member("payment_instruction"@) is Object <==> i == 0
                && request.application_fee is Some && request.application_fee->Some_0.minor > 0
        },
        intent_word(request.capture_mode) == "CAPTURE"@ <==> request.capture_mode is Automatic,
{
    reveal_strlit("reference_id");
    reveal_strlit("amount");
    reveal_strlit("payee");
    reveal_strlit("description");
    reveal_strlit("custom_id");
    reveal_strlit("payment_instruction");
    reveal_strlit("CAPTURE");
    reveal_strlit("AUTHORIZE");
    assert("CAPTURE"@.len() == 7);
    assert("AUTHORIZE"@.len() == 9);
    assert("reference_id"@.len() == 12);
    assert("amount"@.len() == 6);
    assert("payee"@.len() == 5);
    assert("description"@.len() == 11);
    assert("custom_id"@.len() == 9);
    assert("payment_instruction"@.len() == 19);
}

/// A capture and a refund ask for their amounts, and a capture says whether it is the last.
pub proof fn law_captures_and_refunds_ask_for_their_amounts(
    capture: CaptureRequest,
    refund: GatewayRefundRequest,
)
    requires
        capture.amount.currency.digits() <= 4,
        capture.amount.minor > i64::MIN,
        refund.amount.currency.digits() <= 4,
        refund.amount.minor > i64::MIN,
    ensures
        amount_in(capture_body(capture).member("amount"@), capture.amount.currency) == Ok::<
            Money,
            ErrorView,
        >(capture.amount),
        capture_body(capture).member("final_capture"@) == JsonView::Truth(capture.final_capture),
        amount_in(refund_body(refund).member("amount"@), refund.amount.currency) == Ok::<
            Money,
            ErrorView,
        >(refund.amount),
{
    reveal_strlit("amount");
    reveal_strlit("final_capture");
    reveal_strlit("note_to_payer");
    assert("amount"@.len() == 6);
    assert("final_capture"@.len() == 13);
    assert("note_to_payer"@.len() == 13);
    law_amounts_survive_the_wire(capture.amount);
    law_amounts_survive_the_wire(refund.amount);
}

/// An answer to a capture or a refund is read as its own amount says, in its own currency.
pub proof fn law_answers_are_read_as_told(
    request: CaptureRequest,
    response: HttpResponse,
    body: JsonView,
    currency: Currency,
)
    requires
        interpreted(response) == Ok::<JsonView, ErrorView>(body),
        Currency::of_code(body.member("amount"@).member("currency_code"@).text_or("USD"@)) == Ok::<
            Currency,
            ErrorView,
        >(currency),
    ensures
        PayPalGateway::capture_answer(request, response) matches Ok(taken) ==> {
            &&& amount_in(body.member("amount"@), currency) == Ok::<Money, ErrorView>(
                taken.amount_captured,
            )
            &&& taken.status is Captured <==> request.final_capture
        },
        PayPalGateway::refund_answer(response) matches Ok(returned) ==> {
            &&& amount_in(body.member("amount"@), currency) == Ok::<Money, ErrorView>(
                returned.amount,
            )
            &&& returned.status is Succeeded <==> body.member("status"@).text_or(""@)
                == "COMPLETED"@
        },
{
}

/// The first link that is marked for approval is where the shopper is sent.
pub proof fn law_shoppers_go_to_the_approval_link(order: JsonView, links: Seq<JsonView>, at: int)
    requires
        order.member("links"@) == JsonView::List(links),
        0 <= at < links.len(),
        links[at].member("rel"@).text() == Some("approve"@),
        forall|i: int|
            0 <= i < at ==> (#[trigger] links[i]).member("rel"@).text() != Some("approve"@),
        links[at].member("href"@).text() is Some,
    ensures
        order_approval(order) == Some(
            NextActionView::Redirect(links[at].member("href"@).text()->Some_0),
        ),
{
    lemma_first_approval(links, at);
}

proof fn lemma_first_approval(links: Seq<JsonView>, at: int)
    requires
        0 <= at < links.len(),
        links[at].member("rel"@).text() == Some("approve"@),
        forall|i: int|
            0 <= i < at ==> (#[trigger] links[i]).member("rel"@).text() != Some("approve"@),
    ensures
        approval_url(links) == links[at].member("href"@).text(),
    decreases at,
{
    if at > 0 {
        assert(links[0].member("rel"@).text() != Some("approve"@));
        let rest = links.drop_first();
        assert forall|i: int| 0 <= i < at - 1 implies (#[trigger] rest[i]).member("rel"@).text()
            != Some("approve"@) by {
            assert(rest[i] == links[i + 1]);
        }
        assert(rest[at - 1] == links[at]);
        lemma_first_approval(rest, at - 1);
    }
}

/// The fee that is kept back of a split charge is named once, with its amount.
pub proof fn law_fees_are_named_with_their_amount(request: AuthorizeRequest, fee: Money)
    requires
        request.transfers@.len() > 0,
        request.application_fee == Some(fee),
        fee.minor > 0,
    ensures
        units_of(request)[0].member("payment_instruction"@).member("platform_fees"@) matches
            JsonView::List(fees) && fees.len() == 1 && fees[0].member("amount"@)
            == amount_content(fee),
{
    reveal_strlit("disbursement_mode");
    reveal_strlit("platform_fees");
    assert("disbursement_mode"@.len() == 17);
    assert("platform_fees"@.len() == 13);
}

/// An event is told of the resource it names, for the amount that it gives, under the
/// identifier that it came with.
pub proof fn law_events_are_read_as_told(body: JsonView, now: Timestamp, amount: Money)
    requires
        body.member("resource"@).member("amount"@) == amount_content(amount),
        amount.currency.digits() <= 4,
        amount.minor != i64::MIN,
        Currency::of_code(amount.currency.letters()) == Ok::<Currency, ErrorView>(
            amount.currency,
        ),
    ensures
        ({
            let event = event_of(body, now);
            &&& event.amount == Some(amount)
            &&& event.transaction_id == body.member("resource"@).member("id"@).text()
            &&& body.member("id"@).text() is Some ==> event.provider_event_id == body.member(
                "id"@,
            ).text()->Some_0
        }),
{
    law_amounts_survive_the_wire(amount);
    reveal_strlit("currency_code");
    reveal_strlit("value");
    assert("currency_code"@.len() == 13);
    assert("value"@.len() == 5);
}

} // verus!
