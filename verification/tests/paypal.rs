use payments::error::{DeclineCode, Error};
use payments::gateway::http::{HttpRequest, HttpResponse, MockTransport};
use payments::gateway::paypal::{
    map_decline, parse_amount, PayPalGateway, PAYPAL_GATEWAY_ID,
};
use payments::gateway::{
    AuthorizeRequest, AuthorizeResponse, CaptureRequest, GatewayEventKind, GatewayId,
    GatewayRefundRequest, InstrumentRef, NextAction, RefundStatus, TransactionStatus,
    TransferInstruction,
};
use payments::ids::{AccountId, OrderId};
use payments::money::{Currency, Money};
use payments::secret::SecretString;
use payments::time::Timestamp;
use payments::webhook::Headers;

fn usd(minor: i64) -> Money {
    Money::from_minor(minor, Currency::USD)
}

fn json(text: &str) -> serde_json::Value {
    serde_json::from_str(text).unwrap()
}

fn gateway() -> PayPalGateway {
    PayPalGateway::new(SecretString::new("A21AA..."))
        .with_base_url("https://api-m.sandbox.paypal.com")
        .with_webhook_id("WH-123")
}

fn token() -> InstrumentRef {
    InstrumentRef::SingleUseToken { token: "n/a".into() }
}

fn canned(status: u16, body: &str) -> MockTransport {
    let mut transport = MockTransport::new();
    transport.push_response(HttpResponse::json(status, json(body)));
    transport
}

fn send(transport: &mut MockTransport, request: HttpRequest) -> HttpResponse {
    transport.execute(request).unwrap()
}

fn authorize(
    paypal: &PayPalGateway,
    transport: &mut MockTransport,
    request: &AuthorizeRequest,
) -> Result<AuthorizeResponse, Error> {
    let response = send(transport, paypal.authorize_request(request)?);
    paypal.authorize_response(&response, Timestamp::now())
}

fn sent_body(transport: &MockTransport) -> serde_json::Value {
    serde_json::from_slice(transport.last_request().unwrap().body.as_ref().unwrap()).unwrap()
}

#[test]
fn amounts_are_sent_as_decimal_strings() {
    let mut transport = canned(
        201,
        r#"{
            "id": "5O190127TN364715T",
            "status": "CREATED",
            "purchase_units": [{"amount": {"currency_code": "USD", "value": "123.45"}}],
            "links": [{"rel": "approve", "href": "https://paypal.test/approve"}]
        }"#,
    );
    let paypal = gateway();

    let response = authorize(
        &paypal,
        &mut transport,
        &AuthorizeRequest::new("idem-1", usd(12_345), token())
            .for_order(OrderId::from_string("ord_1")),
    )
    .unwrap();

    assert_eq!(response.status, TransactionStatus::RequiresAction);
    assert_eq!(
        response.next_action,
        Some(NextAction::Redirect { url: "https://paypal.test/approve".into() })
    );

    let sent = transport.last_request().unwrap();
    assert_eq!(sent.headers.get("paypal-request-id").unwrap(), "idem-1");
    let body = sent_body(&transport);
    assert_eq!(body["intent"], "CAPTURE");
    // Decimal string, not minor units.
    assert_eq!(body["purchase_units"][0]["amount"]["value"], "123.45");
}

#[test]
fn zero_decimal_currencies_are_not_scaled() {
    let mut transport = canned(
        201,
        r#"{
            "id": "o1",
            "status": "CREATED",
            "purchase_units": [{"amount": {"currency_code": "JPY", "value": "1200"}}]
        }"#,
    );
    let paypal = gateway();
    authorize(
        &paypal,
        &mut transport,
        &AuthorizeRequest::new("idem-1", Money::from_minor(1_200, Currency::JPY), token()),
    )
    .unwrap();

    let body = sent_body(&transport);
    assert_eq!(body["purchase_units"][0]["amount"]["value"], "1200");
}

#[test]
fn splits_become_one_purchase_unit_per_payee() {
    let mut transport = canned(
        201,
        r#"{
            "id": "o1",
            "status": "CREATED",
            "purchase_units": [{"amount": {"currency_code": "USD", "value": "100.00"}}]
        }"#,
    );
    let paypal = gateway();

    authorize(
        &paypal,
        &mut transport,
        &AuthorizeRequest::new("idem-1", usd(10_000), token())
            .with_transfers(vec![
                TransferInstruction {
                    destination: AccountId::from_string("MERCHANT_A"),
                    amount: usd(6_000),
                    description: Some("Shop A".into()),
                    transfer_group: None,
                },
                TransferInstruction {
                    destination: AccountId::from_string("MERCHANT_B"),
                    amount: usd(3_500),
                    description: Some("Shop B".into()),
                    transfer_group: None,
                },
            ])
            .with_application_fee(usd(500)),
    )
    .unwrap();

    let body = sent_body(&transport);
    let units = body["purchase_units"].as_array().unwrap();
    assert_eq!(units.len(), 2);
    assert_eq!(units[0]["payee"]["merchant_id"], "MERCHANT_A");
    assert_eq!(units[0]["amount"]["value"], "60.00");
    assert_eq!(units[1]["amount"]["value"], "35.00");
    assert_eq!(units[0]["payment_instruction"]["platform_fees"][0]["amount"]["value"], "5.00");
}

#[test]
fn instrument_declined_is_normalised() {
    let mut transport = canned(
        422,
        r#"{
            "name": "UNPROCESSABLE_ENTITY",
            "details": [{"issue": "INSTRUMENT_DECLINED", "description": "The instrument was declined."}]
        }"#,
    );
    let paypal = gateway();

    let error = authorize(
        &paypal,
        &mut transport,
        &AuthorizeRequest::new("idem-1", usd(100), token()),
    )
    .unwrap_err();
    assert!(matches!(error, Error::Declined { code: DeclineCode::GenericDecline, .. }));
}

#[test]
fn captured_orders_report_their_totals() {
    let mut transport = canned(
        200,
        r#"{
            "id": "o1",
            "status": "COMPLETED",
            "purchase_units": [{
                "amount": {"currency_code": "USD", "value": "100.00"},
                "payments": {"captures": [
                    {"id": "cap_1", "status": "COMPLETED", "amount": {"currency_code": "USD", "value": "60.00"}},
                    {"id": "cap_2", "status": "COMPLETED", "amount": {"currency_code": "USD", "value": "40.00"}}
                ]}
            }]
        }"#,
    );
    let paypal = gateway();

    let answer = send(&mut transport, paypal.fetch_request("o1"));
    let response = paypal.authorize_response(&answer, Timestamp::now()).unwrap();
    assert_eq!(response.status, TransactionStatus::Captured);
    assert_eq!(response.amount_captured, usd(10_000));
    assert_eq!(response.processor_reference.as_deref(), Some("cap_1"));
}

#[test]
fn refunds_post_to_the_capture() {
    let mut transport = canned(
        201,
        r#"{"id": "re_1", "status": "COMPLETED", "amount": {"currency_code": "USD", "value": "25.00"}}"#,
    );
    let paypal = gateway();

    let request = GatewayRefundRequest {
        idempotency_key: "ref-1".into(),
        transaction_id: "cap_1".into(),
        amount: usd(2_500),
        reason: Default::default(),
        reverse_transfers: false,
        refund_application_fee: false,
        metadata: Default::default(),
    };
    let answer = send(&mut transport, paypal.refund_request(&request).unwrap());
    let refund = paypal.refund_response(&answer).unwrap();

    assert_eq!(refund.amount, usd(2_500));
    assert_eq!(refund.status, RefundStatus::Succeeded);
    assert!(transport
        .last_request()
        .unwrap()
        .url
        .ends_with("/v2/payments/captures/cap_1/refund"));
}

fn delivery_headers() -> Headers {
    Headers::new()
        .with("paypal-auth-algo", "SHA256withRSA")
        .with("paypal-cert-url", "https://api.paypal.com/cert")
        .with("paypal-transmission-id", "tx-1")
        .with("paypal-transmission-sig", "sig")
        .with("paypal-transmission-time", "2024-01-01T00:00:00Z")
}

#[test]
fn webhooks_are_verified_through_paypals_api() {
    let mut transport = canned(200, r#"{"verification_status": "SUCCESS"}"#);
    let paypal = gateway();

    let payload = json(
        r#"{
            "id": "WH-EVT-1",
            "event_type": "PAYMENT.CAPTURE.COMPLETED",
            "create_time": "2024-01-01T00:00:00Z",
            "resource": {"id": "cap_1", "amount": {"currency_code": "USD", "value": "10.00"}}
        }"#,
    )
    .to_string()
    .into_bytes();

    let headers = delivery_headers();
    let answer =
        send(&mut transport, paypal.verification_request(&payload, &headers).unwrap());
    let event = paypal.parse_webhook(&payload, &answer, Timestamp::now()).unwrap();
    assert_eq!(event.provider_event_id, "WH-EVT-1");
    assert_eq!(event.kind, GatewayEventKind::PaymentCaptured);
    assert_eq!(event.amount, Some(usd(1_000)));
    // 2024-01-01T00:00:00Z.
    assert_eq!(event.occurred_at.seconds, 1_704_067_200);

    let sent = sent_body(&transport);
    assert_eq!(sent["webhook_id"], "WH-123");
    assert_eq!(sent["webhook_event"]["id"], "WH-EVT-1");
}

#[test]
fn a_failed_verification_is_rejected() {
    let mut transport = canned(200, r#"{"verification_status": "FAILURE"}"#);
    let paypal = gateway();

    let headers = delivery_headers();
    let payload = b"{\"id\":\"x\"}";
    let answer = send(&mut transport, paypal.verification_request(payload, &headers).unwrap());
    let error = paypal.parse_webhook(payload, &answer, Timestamp::now()).unwrap_err();
    assert!(matches!(error, Error::WebhookVerification(_)));
}

#[test]
fn capabilities_reflect_paypal_limitations() {
    let paypal = gateway();
    let capabilities = paypal.capabilities();
    assert!(capabilities.multi_capture);
    assert!(!capabilities.stored_credentials);
    let id = GatewayId::from_static(PAYPAL_GATEWAY_ID);
    assert!(capabilities.require(&id, "stored_credentials").is_err());
}

#[test]
fn amounts_survive_the_wire() {
    for minor in [0, 1, -1, 99, 12_345, i64::MAX] {
        let document = PayPalGateway::amount_object(usd(minor));
        assert_eq!(parse_amount(&document, Currency::USD).unwrap(), usd(minor));
    }
}

#[test]
fn captures_go_to_the_authorisation() {
    let paypal = gateway();
    let request = CaptureRequest {
        idempotency_key: "cap-1".into(),
        transaction_id: "auth_1".into(),
        amount: usd(2_500),
        final_capture: true,
    };
    let sent = paypal.capture_request(&request).unwrap();
    assert!(sent.url.ends_with("/v2/payments/authorizations/auth_1/capture"));
    let body = json(&sent.body_string());
    assert_eq!(body["amount"]["value"], "25.00");
    assert_eq!(body["final_capture"], true);
}

#[test]
fn only_known_issues_are_declines() {
    assert_eq!(map_decline("INSTRUMENT_DECLINED"), Some(DeclineCode::GenericDecline));
    assert_eq!(map_decline("MALFORMED_REQUEST"), None);
}
