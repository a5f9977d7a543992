use payments::error::{DeclineCode, Error};
use payments::gateway::http::{HttpRequest, HttpResponse, MockTransport};
use payments::gateway::stripe::{map_decline_code, StripeGateway, STRIPE_GATEWAY_ID};
use payments::gateway::{
    AuthorizeRequest, AuthorizeResponse, CancelRequest, CaptureRequest, CustomerRequest,
    GatewayEventKind, GatewayId, GatewayRefundRequest, InstrumentRef, NextAction, RefundReason,
    RefundStatus, TransactionStatus, TransferInstruction,
};
use payments::ids::{AccountId, CustomerId, OrderId};
use payments::money::{Currency, Money};
use payments::payment::method::ChargeInitiator;
use payments::secret::SecretString;
use payments::time::Timestamp;
use payments::webhook::{hmac_sha256_hex, Headers};

fn usd(minor: i64) -> Money {
    Money::from_minor(minor, Currency::USD)
}

fn json(text: &str) -> serde_json::Value {
    serde_json::from_str(text).unwrap()
}

fn gateway() -> StripeGateway {
    StripeGateway::new(SecretString::new("sk_test_123"))
        .with_webhook_secret(SecretString::new("whsec_test"))
}

fn intent(status: &str, amount: i64, capturable: i64, received: i64) -> serde_json::Value {
    let created = Timestamp::now().seconds;
    json(&format!(
        r#"{{
            "id": "pi_123",
            "object": "payment_intent",
            "status": "{status}",
            "currency": "usd",
            "amount": {amount},
            "amount_capturable": {capturable},
            "amount_received": {received},
            "created": {created},
            "latest_charge": "ch_123"
        }}"#
    ))
}

/// Sends a request to the canned provider.
fn send(transport: &mut MockTransport, request: HttpRequest) -> HttpResponse {
    transport.execute(request).unwrap()
}

fn authorize(
    stripe: &StripeGateway,
    transport: &mut MockTransport,
    request: &AuthorizeRequest,
) -> Result<AuthorizeResponse, Error> {
    let response = send(transport, stripe.authorize_request(request)?);
    stripe.authorize_response(&response)
}

#[test]
fn authorize_builds_the_expected_form_and_headers() {
    let mut transport = MockTransport::new();
    transport.push_response(HttpResponse::json(200, intent("requires_capture", 10_000, 10_000, 0)));
    let stripe = gateway();

    let mut request = AuthorizeRequest::new(
        "idem-1",
        usd(10_000),
        InstrumentRef::Vaulted { token: "pm_1".into(), customer_token: "cus_1".into() },
    )
    .manual_capture()
    .for_order(OrderId::from_string("ord_9"));
    request.initiator = ChargeInitiator::MerchantOffSession;
    request.statement_descriptor = Some("SHOP".into());

    let response = authorize(&stripe, &mut transport, &request).unwrap();
    assert_eq!(response.status, TransactionStatus::Authorized);
    assert_eq!(response.amount_authorized, usd(10_000));
    assert!(response.expires_at.is_some());

    let sent = transport.last_request().unwrap();
    assert_eq!(sent.url, "https://api.stripe.com/v1/payment_intents");
    assert_eq!(sent.headers.get("idempotency-key").unwrap(), "idem-1");
    assert_eq!(sent.headers.get("authorization").unwrap(), "Bearer sk_test_123");

    let body = sent.body_string();
    assert!(body.contains("amount=10000"));
    assert!(body.contains("currency=usd"));
    assert!(body.contains("capture_method=manual"));
    assert!(body.contains("off_session=true"));
    assert!(body.contains("payment_method=pm_1"));
    assert!(body.contains("customer=cus_1"));
    assert!(body.contains("metadata%5Border_id%5D=ord_9"));
}

#[test]
fn a_single_split_uses_transfer_data_and_many_use_a_transfer_group() {
    let mut transport = MockTransport::new();
    transport.push_response(HttpResponse::json(200, intent("succeeded", 10_000, 0, 10_000)));
    let stripe = gateway();

    let one = AuthorizeRequest::new(
        "idem-1",
        usd(10_000),
        InstrumentRef::SingleUseToken { token: "pm_1".into() },
    )
    .with_transfers(vec![TransferInstruction {
        destination: AccountId::from_string("acct_shop1"),
        amount: usd(9_000),
        description: None,
        transfer_group: Some("grp_1".into()),
    }])
    .with_application_fee(usd(1_000));

    authorize(&stripe, &mut transport, &one).unwrap();
    let body = transport.last_request().unwrap().body_string();
    assert!(body.contains("transfer_data%5Bdestination%5D=acct_shop1"));
    assert!(body.contains("transfer_data%5Bamount%5D=9000"));
    assert!(body.contains("application_fee_amount=1000"));

    transport.push_response(HttpResponse::json(200, intent("succeeded", 10_000, 0, 10_000)));
    let many = AuthorizeRequest::new(
        "idem-2",
        usd(10_000),
        InstrumentRef::SingleUseToken { token: "pm_1".into() },
    )
    .for_order(OrderId::from_string("ord_7"))
    .with_transfers(vec![
        TransferInstruction {
            destination: AccountId::from_string("acct_a"),
            amount: usd(5_000),
            description: None,
            transfer_group: None,
        },
        TransferInstruction {
            destination: AccountId::from_string("acct_b"),
            amount: usd(4_000),
            description: None,
            transfer_group: None,
        },
    ]);
    authorize(&stripe, &mut transport, &many).unwrap();
    let body = transport.last_request().unwrap().body_string();
    assert!(body.contains("transfer_group=ord_7"));
    assert!(!body.contains("transfer_data"));
}

#[test]
fn card_errors_become_typed_declines() {
    let mut transport = MockTransport::new();
    transport.push_response(HttpResponse::json(
        402,
        json(
            r#"{"error": {
                "type": "card_error",
                "code": "card_declined",
                "decline_code": "insufficient_funds",
                "message": "Your card has insufficient funds."
            }}"#,
        ),
    ));
    let stripe = gateway();

    let error = authorize(
        &stripe,
        &mut transport,
        &AuthorizeRequest::new(
            "idem-1",
            usd(100),
            InstrumentRef::SingleUseToken { token: "pm_1".into() },
        ),
    )
    .unwrap_err();

    match error {
        Error::Declined { code, .. } => assert_eq!(code, DeclineCode::InsufficientFunds),
        other => panic!("expected a decline, got {other:?}"),
    }
}

#[test]
fn api_errors_are_marked_retryable() {
    let mut transport = MockTransport::new();
    transport.push_response(HttpResponse::json(
        500,
        json(r#"{"error": {"type": "api_error", "message": "internal"}}"#),
    ));
    let stripe = gateway();
    let response = send(&mut transport, stripe.fetch_request("pi_123"));
    let error = stripe.authorize_response(&response).unwrap_err();
    assert!(error.is_retryable());
}

#[test]
fn requires_action_surfaces_the_redirect() {
    let mut transport = MockTransport::new();
    let mut body = intent("requires_action", 10_000, 0, 0);
    body["next_action"] = json(r#"{"redirect_to_url": {"url": "https://3ds.example"}}"#);
    transport.push_response(HttpResponse::json(200, body));
    let stripe = gateway();

    let answer = send(&mut transport, stripe.fetch_request("pi_123"));
    let response = stripe.authorize_response(&answer).unwrap();
    assert_eq!(response.status, TransactionStatus::RequiresAction);
    assert_eq!(
        response.next_action,
        Some(NextAction::Redirect { url: "https://3ds.example".into() })
    );
}

#[test]
fn capture_and_refund_round_trip() {
    let mut transport = MockTransport::new();
    transport.push_response(HttpResponse::json(200, intent("succeeded", 10_000, 0, 6_000)));
    transport.push_response(HttpResponse::json(
        200,
        json(r#"{"id": "re_1", "amount": 2000, "currency": "usd", "status": "succeeded"}"#),
    ));
    let stripe = gateway();

    let request = CaptureRequest {
        idempotency_key: "cap-1".into(),
        transaction_id: "pi_123".into(),
        amount: usd(6_000),
        final_capture: true,
    };
    let answer = send(&mut transport, stripe.capture_request(&request));
    let capture = stripe.capture_response(&request, &answer).unwrap();
    assert_eq!(capture.amount_captured, usd(6_000));
    assert_eq!(capture.capture_reference, "ch_123");
    assert!(transport.requests()[0].url.ends_with("/v1/payment_intents/pi_123/capture"));

    let request = GatewayRefundRequest {
        idempotency_key: "ref-1".into(),
        transaction_id: "pi_123".into(),
        amount: usd(2_000),
        reason: RefundReason::RequestedByCustomer,
        reverse_transfers: true,
        refund_application_fee: true,
        metadata: Default::default(),
    };
    let answer = send(&mut transport, stripe.refund_request(&request));
    let refund = stripe.refund_response(&answer).unwrap();
    assert_eq!(refund.status, RefundStatus::Succeeded);
    let body = transport.last_request().unwrap().body_string();
    assert!(body.contains("reverse_transfer=true"));
    assert!(body.contains("reason=requested_by_customer"));
}

fn sign(secret: &str, payload: &[u8], timestamp: i64) -> String {
    let mut signed = timestamp.to_string().into_bytes();
    signed.push(b'.');
    signed.extend_from_slice(payload);
    format!("t={timestamp},v1={}", hmac_sha256_hex(&SecretString::new(secret), &signed))
}

#[test]
fn webhook_signatures_are_verified_against_the_raw_body() {
    let stripe = gateway();
    let now = Timestamp::now();
    let created = now.seconds;
    let payload = json(&format!(
        r#"{{
            "id": "evt_1",
            "type": "payment_intent.succeeded",
            "created": {created},
            "data": {{"object": {{"id": "pi_123", "amount": 10000, "currency": "usd"}}}}
        }}"#
    ))
    .to_string()
    .into_bytes();

    let headers =
        Headers::new().with("Stripe-Signature", &sign("whsec_test", &payload, now.seconds));
    let event = stripe.parse_webhook(&payload, &headers, now).unwrap();
    assert_eq!(event.provider_event_id, "evt_1");
    assert_eq!(event.kind, GatewayEventKind::PaymentCaptured);
    assert_eq!(event.transaction_id.as_deref(), Some("pi_123"));
    assert_eq!(event.amount, Some(usd(10_000)));

    // Wrong secret.
    let bad = Headers::new().with("Stripe-Signature", &sign("whsec_other", &payload, now.seconds));
    assert!(stripe.parse_webhook(&payload, &bad, now).is_err());

    // Replayed outside the tolerance window.
    let old = Headers::new()
        .with("Stripe-Signature", &sign("whsec_test", &payload, now.seconds - 100_000));
    assert!(stripe.parse_webhook(&payload, &old, now).is_err());

    // Missing header.
    assert!(stripe.parse_webhook(&payload, &Headers::new(), now).is_err());
}

#[test]
fn dispute_events_carry_the_outcome() {
    let stripe = gateway();
    let now = Timestamp::now();
    let created = now.seconds;
    let payload = json(&format!(
        r#"{{
            "id": "evt_2",
            "type": "charge.dispute.closed",
            "created": {created},
            "data": {{"object": {{"id": "dp_1", "status": "won", "payment_intent": "pi_9"}}}}
        }}"#
    ))
    .to_string()
    .into_bytes();
    let headers =
        Headers::new().with("Stripe-Signature", &sign("whsec_test", &payload, now.seconds));

    let event = stripe.parse_webhook(&payload, &headers, now).unwrap();
    assert_eq!(event.kind, GatewayEventKind::DisputeClosed { won: true });
}

#[test]
fn decline_code_mapping_is_conservative() {
    assert_eq!(map_decline_code(Some("stolen_card")), DeclineCode::LostOrStolenCard);
    assert_eq!(
        map_decline_code(Some("authentication_required")),
        DeclineCode::AuthenticationRequired
    );
    assert_eq!(map_decline_code(Some("something_new")), DeclineCode::GenericDecline);
    assert_eq!(map_decline_code(None), DeclineCode::GenericDecline);
}

#[test]
fn capabilities_reflect_stripe_limitations() {
    let stripe = gateway();
    let capabilities = stripe.capabilities();
    assert!(capabilities.partial_capture);
    assert!(!capabilities.multi_capture, "Stripe closes the auth on first capture");
    let id = GatewayId::from_static(STRIPE_GATEWAY_ID);
    assert!(capabilities.require(&id, "multi_capture").is_err());
}

#[test]
fn holds_last_seven_days_from_their_creation() {
    let stripe = gateway();
    let body = intent("requires_capture", 500, 500, 0);
    let created = body["created"].as_i64().unwrap();
    let response = stripe.authorize_response(&HttpResponse::json(200, body)).unwrap();
    assert_eq!(response.expires_at.unwrap().seconds, created + 7 * 86_400);
}

#[test]
fn cancelling_posts_the_reason() {
    let stripe = gateway();
    let sent = stripe.cancel_request(&CancelRequest {
        idempotency_key: "void-1".into(),
        transaction_id: "pi_123".into(),
        reason: Some("abandoned".into()),
    });
    assert!(sent.url.ends_with("/v1/payment_intents/pi_123/cancel"));
    assert_eq!(sent.headers.get("idempotency-key").unwrap(), "void-1");
}

#[test]
fn customers_are_read_back() {
    let stripe = gateway();
    let sent = stripe.customer_request(&CustomerRequest {
        customer_id: CustomerId::from_string("cus_local"),
        email: Some("a@example.com".into()),
        name: None,
        metadata: Default::default(),
    });
    assert!(sent.body_string().contains("email=a%40example.com"));
    let id = stripe.customer_response(&HttpResponse::json(200, json(r#"{"id": "cus_9"}"#)));
    assert_eq!(id.unwrap(), "cus_9");
}
