use payments::error::{DeclineCode, Error};
use payments::gateway::http::{
    percent_encode, FormBody, HttpRequest, HttpResponse, Method, MockTransport,
};
use payments::gateway::mock::MockGateway;
use payments::gateway::registry::{GatewayRecord, GatewayRegistry, RoutingContext, RoutingRule};
use payments::gateway::{
    AuthorizeRequest, CancelRequest, Capabilities, CaptureMode, CaptureRequest, CustomerRequest,
    GatewayEventKind, GatewayId, GatewayRefundRequest, InstrumentRef, NextAction, RefundStatus,
    TransactionStatus, TransferInstruction,
};
use payments::ids::{AccountId, CustomerId};
use payments::money::{Currency, Money};
use payments::secret::SecretString;
use payments::time::Timestamp;

fn usd(minor: i64) -> Money {
    Money::from_minor(minor, Currency::USD)
}

fn json(text: &str) -> serde_json::Value {
    serde_json::from_str(text).unwrap()
}

#[test]
fn capability_checks_name_the_missing_feature() {
    let capabilities = Capabilities::default();
    let id = GatewayId::from_static("basic");
    let error = capabilities.require(&id, "delayed_capture").unwrap_err();
    assert!(matches!(error, Error::UnsupportedCapability { capability: "delayed_capture", .. }));
    assert!(capabilities.require(&id, "refunds").is_ok());
    assert!(capabilities.require(&id, "teleportation").is_err());
    assert!(Capabilities::full().require(&id, "multi_capture").is_ok());
}

#[test]
fn currency_restrictions() {
    let mut capabilities = Capabilities::full();
    assert!(capabilities.supports_currency(Currency::JPY));
    capabilities.currencies.insert("USD".to_owned(), ());
    assert!(capabilities.supports_currency(Currency::USD));
    assert!(!capabilities.supports_currency(Currency::JPY));
}

#[test]
fn authorize_requests_are_validated_before_the_network_call() {
    let instrument = InstrumentRef::SingleUseToken { token: "tok".into() };
    let mut request = AuthorizeRequest::new("key-1", usd(1_000), instrument);
    assert!(request.validate().is_ok());

    request.transfers = vec![TransferInstruction {
        destination: AccountId::from_string("acct_a"),
        amount: usd(900),
        description: None,
        transfer_group: None,
    }];
    request.application_fee = Some(usd(200));
    assert!(request.validate().is_err(), "1100 routed out of a 1000 charge");

    request.application_fee = Some(usd(100));
    assert!(request.validate().is_ok());

    request.idempotency_key = "  ".into();
    assert!(request.validate().is_err());
}

#[test]
fn transaction_status_helpers() {
    assert!(TransactionStatus::Captured.has_funds());
    assert!(!TransactionStatus::Authorized.has_funds());
    assert!(TransactionStatus::Failed.is_terminal());
}

// Registry.

fn stub(id: &'static str, capabilities: Capabilities) -> GatewayRecord {
    GatewayRecord { id: GatewayId::from_static(id), capabilities }
}

fn registry() -> GatewayRegistry {
    let mut eur_only = Capabilities::full();
    eur_only.currencies.insert("EUR".to_owned(), ());
    let basic = Capabilities::default();

    GatewayRegistry::new()
        .register(stub("primary", Capabilities::full()))
        .register(stub("eu", eur_only))
        .register(stub("legacy", basic))
}

#[test]
fn falls_back_to_the_default_gateway() {
    let registry = registry();
    let chosen = registry.route(&RoutingContext::for_currency(Currency::USD)).unwrap();
    assert_eq!(chosen.id.as_str(), "primary");
}

#[test]
fn currency_rules_win_over_the_default() {
    let registry = registry().with_rule(
        RoutingRule::always(GatewayId::from_static("eu")).for_currency(Currency::EUR),
    );
    let chosen = registry.route(&RoutingContext::for_currency(Currency::EUR)).unwrap();
    assert_eq!(chosen.id.as_str(), "eu");

    let chosen = registry.route(&RoutingContext::for_currency(Currency::USD)).unwrap();
    assert_eq!(chosen.id.as_str(), "primary");
}

#[test]
fn rules_that_cannot_satisfy_the_context_are_skipped() {
    let registry = registry()
        .with_rule(RoutingRule::always(GatewayId::from_static("legacy")).with_priority(-10));
    // `legacy` cannot do delayed capture, so routing falls through.
    let context = RoutingContext::for_currency(Currency::USD).requiring("delayed_capture");
    let chosen = registry.route(&context).unwrap();
    assert_eq!(chosen.id.as_str(), "primary");
}

#[test]
fn preferred_gateway_is_honoured_but_still_validated() {
    let registry = registry();
    let context =
        RoutingContext::for_currency(Currency::USD).preferring(GatewayId::from_static("eu"));
    // `eu` only handles EUR, so pinning it for USD is an error rather than
    // a silent reroute.
    assert!(registry.route(&context).is_err());

    let context =
        RoutingContext::for_currency(Currency::EUR).preferring(GatewayId::from_static("eu"));
    assert_eq!(registry.route(&context).unwrap().id.as_str(), "eu");
}

#[test]
fn unknown_gateways_and_empty_registries_error() {
    let registry = registry();
    assert!(registry.get(&GatewayId::from_static("nope")).is_err());
    assert!(GatewayRegistry::new().route(&RoutingContext::default()).is_err());
    assert_eq!(registry.all().len(), 3);
}

#[test]
fn registering_twice_replaces_the_adapter() {
    let registry = registry().register(stub("primary", Capabilities::default()));
    assert_eq!(registry.all().len(), 3);
    let kept = registry.get(&GatewayId::from_static("primary")).unwrap();
    assert!(!kept.capabilities.delayed_capture);
}

#[test]
fn lower_priority_numbers_win() {
    let registry = registry()
        .with_rule(RoutingRule::always(GatewayId::from_static("primary")).with_priority(5))
        .with_rule(RoutingRule::always(GatewayId::from_static("legacy")).with_priority(1));
    let chosen = registry.route(&RoutingContext::for_currency(Currency::USD)).unwrap();
    assert_eq!(chosen.id.as_str(), "legacy");
}

// HTTP.

#[test]
fn form_encoding_handles_nesting_and_special_characters() {
    let body = FormBody::new()
        .with("amount", "1099")
        .with("metadata[order_id]", "ord_1")
        .with("description", "Café & co");
    let encoded = body.encode();
    assert!(encoded.contains("metadata%5Border_id%5D=ord_1"));
    assert!(encoded.contains("description=Caf%C3%A9+%26+co"));
    assert!(encoded.starts_with("amount=1099&"));
}

#[test]
fn optional_fields_are_skipped() {
    let mut body = FormBody::new();
    let missing: Option<&str> = None;
    body.set_opt("a", Some("1"));
    body.set_opt("b", missing);
    assert_eq!(body.encode(), "a=1");
}

#[test]
fn bearer_auth_is_only_materialised_on_the_request() {
    let secret = SecretString::new("sk_test_123");
    let request = HttpRequest::get("https://api.example.com").with_bearer_auth(&secret);
    assert_eq!(request.headers.get("authorization").unwrap(), "Bearer sk_test_123");
    // The secret itself still refuses to print.
    assert_eq!(secret.to_text(), "***redacted***");
}

#[test]
fn response_helpers() {
    let ok = HttpResponse::json(200, json(r#"{"id": "ch_1"}"#));
    assert!(ok.is_success());
    assert_eq!(ok.json_body().unwrap()["id"], "ch_1");

    let rate_limited = HttpResponse::json(429, json("{}"));
    assert!(!rate_limited.is_success());
    assert!(rate_limited.is_retryable());

    let bad_request = HttpResponse::json(400, json("{}"));
    assert!(!bad_request.is_retryable());
}

#[test]
fn mock_transport_records_requests_and_replays_responses() {
    let mut transport = MockTransport::new();
    transport.push_response(HttpResponse::json(200, json(r#"{"ok": true}"#)));

    let response = transport.execute(HttpRequest::get("https://example.com/x")).unwrap();
    assert!(response.is_success());
    assert_eq!(transport.last_request().unwrap().url, "https://example.com/x");
    assert_eq!(transport.requests().len(), 1);

    // Running out of canned responses is an explicit error, not a hang.
    assert!(transport.execute(HttpRequest::get("https://example.com/y")).is_err());
}

#[test]
fn transport_errors_are_replayed_in_turn() {
    let mut transport = MockTransport::new();
    transport.push_error("connection reset");
    transport.push_response(HttpResponse::json(200, json("{}")));
    assert!(transport.execute(HttpRequest::get("https://example.com/x")).is_err());
    assert!(transport.execute(HttpRequest::get("https://example.com/x")).is_ok());
    assert_eq!(transport.requests().len(), 2);
}

#[test]
fn percent_encoding_keeps_unreserved_characters() {
    assert_eq!(percent_encode("aZ09-_.~ /é"), "aZ09-_.~+%2F%C3%A9");
    assert_eq!(percent_encode(""), "");
    assert_eq!(percent_encode("Café & co"), "Caf%C3%A9+%26+co");
}

#[test]
fn percent_encoding_is_safe_and_loses_nothing() {
    let texts = ["", " ", "+", "%20", "a b", "a+b", "é", "e\u{301}", "=&?#", "\u{1f600}", "\n\0"];
    for first in texts {
        let encoded = percent_encode(first);
        assert!(encoded.chars().all(|c| c.is_ascii_alphanumeric() || "-_.~+%".contains(c)));
        for second in texts {
            let joined = format!("{first}{second}");
            assert_eq!(percent_encode(&joined), encoded.clone() + &percent_encode(second));
            assert_eq!(encoded == percent_encode(second), first == second);
        }
    }
}

#[test]
fn json_requests_carry_their_document() {
    let request = HttpRequest::post_json("https://example.com", &json(r#"{"a":[1,true]}"#)).unwrap();
    assert_eq!(request.method, Method::Post);
    assert_eq!(request.body_string(), r#"{"a":[1,true]}"#);
    assert_eq!(request.headers.get("content-type").unwrap(), "application/json");
}

#[test]
fn broken_bodies_are_replaced_not_refused() {
    let mut request = HttpRequest::get("https://example.com");
    request.body = Some(vec![b'a', 0xff, b'b']);
    assert_eq!(request.body_string(), "a\u{fffd}b");
}

#[test]
fn unreadable_responses_are_gateway_errors() {
    let response = HttpResponse { status: 200, headers: Default::default(), body: b"{".to_vec() };
    assert!(matches!(response.json_body(), Err(Error::Gateway { retryable: false, .. })));
}

// The mock gateway.

fn request(key: &str, token: &str, amount: i64) -> AuthorizeRequest {
    AuthorizeRequest::new(
        key,
        usd(amount),
        InstrumentRef::SingleUseToken { token: token.to_owned() },
    )
}

fn capture_request(key: &str, transaction_id: &str, amount: i64, last: bool) -> CaptureRequest {
    CaptureRequest {
        idempotency_key: key.into(),
        transaction_id: transaction_id.into(),
        amount: usd(amount),
        final_capture: last,
    }
}

fn refund_request(key: &str, transaction_id: &str, amount: i64) -> GatewayRefundRequest {
    GatewayRefundRequest {
        idempotency_key: key.into(),
        transaction_id: transaction_id.into(),
        amount: usd(amount),
        reason: Default::default(),
        reverse_transfers: true,
        refund_application_fee: true,
        metadata: Default::default(),
    }
}

#[test]
fn automatic_capture_takes_the_money_immediately() {
    let mut gateway = MockGateway::new();
    let response =
        gateway.authorize(&request("k1", "tok_visa", 10_000), Timestamp::now()).unwrap();
    assert_eq!(response.status, TransactionStatus::Captured);
    assert_eq!(response.amount_captured, usd(10_000));
}

#[test]
fn manual_capture_holds_then_captures_in_parts() {
    let now = Timestamp::now();
    let mut gateway = MockGateway::new();
    let authorization =
        gateway.authorize(&request("k1", "tok_visa", 10_000).manual_capture(), now).unwrap();
    assert_eq!(authorization.status, TransactionStatus::Authorized);
    assert!(authorization.amount_captured.is_zero());
    let id = authorization.transaction_id;

    let first = gateway.capture(&capture_request("c1", &id, 4_000, false), now).unwrap();
    assert_eq!(first.status, TransactionStatus::PartiallyCaptured);

    let second = gateway.capture(&capture_request("c2", &id, 6_000, false), now).unwrap();
    assert_eq!(second.status, TransactionStatus::Captured);
    assert_eq!(second.total_captured, usd(10_000));

    // Nothing left to take.
    assert!(gateway.capture(&capture_request("c3", &id, 1, false), now).is_err());
}

#[test]
fn final_capture_releases_the_remainder() {
    let now = Timestamp::now();
    let mut gateway = MockGateway::new();
    let authorization =
        gateway.authorize(&request("k1", "tok_visa", 10_000).manual_capture(), now).unwrap();
    let id = authorization.transaction_id;
    gateway.capture(&capture_request("c1", &id, 6_000, true), now).unwrap();
    let state = gateway.fetch_transaction(&id).unwrap();
    assert_eq!(state.status, TransactionStatus::Captured);
    assert_eq!(state.amount_authorized, usd(6_000));
}

#[test]
fn idempotency_keys_never_charge_twice() {
    let now = Timestamp::now();
    let mut gateway = MockGateway::new();
    let first = gateway.authorize(&request("same-key", "tok_visa", 5_000), now).unwrap();
    let second = gateway.authorize(&request("same-key", "tok_visa", 5_000), now).unwrap();
    assert_eq!(first.transaction_id, second.transaction_id);
}

#[test]
fn declines_are_normalised() {
    let now = Timestamp::now();
    let mut gateway = MockGateway::new();
    let error = gateway.authorize(&request("k1", "tok_insufficient", 100), now).unwrap_err();
    assert!(matches!(error, Error::Declined { code: DeclineCode::InsufficientFunds, .. }));

    let error = gateway.authorize(&request("k2", "tok_decline", 100), now).unwrap_err();
    assert!(matches!(error, Error::Declined { code: DeclineCode::GenericDecline, .. }));

    let error = gateway.authorize(&request("k3", "tok_error", 100), now).unwrap_err();
    assert!(error.is_retryable());
}

#[test]
fn three_d_secure_returns_a_next_action() {
    let mut gateway = MockGateway::new();
    let response = gateway.authorize(&request("k1", "tok_3ds", 100), Timestamp::now()).unwrap();
    assert_eq!(response.status, TransactionStatus::RequiresAction);
    assert!(matches!(response.next_action, Some(NextAction::Redirect { .. })));
}

#[test]
fn mock_expired_authorizations_cannot_be_captured() {
    let now = Timestamp::now();
    let mut gateway = MockGateway::new();
    let authorization =
        gateway.authorize(&request("k1", "tok_visa", 1_000).manual_capture(), now).unwrap();
    let id = authorization.transaction_id;
    gateway.expire_authorization(&id, now).unwrap();

    let error = gateway.capture(&capture_request("c1", &id, 1_000, false), now).unwrap_err();
    assert!(matches!(error, Error::Gateway { .. }));
}

#[test]
fn refunds_are_bounded_by_captures() {
    let mut gateway = MockGateway::new();
    let authorization =
        gateway.authorize(&request("k1", "tok_visa", 10_000), Timestamp::now()).unwrap();
    let id = authorization.transaction_id;
    let refund = gateway.refund(&refund_request("r1", &id, 4_000)).unwrap();
    assert_eq!(refund.status, RefundStatus::Succeeded);

    let error = gateway.refund(&refund_request("r2", &id, 6_001)).unwrap_err();
    assert!(matches!(error, Error::Validation(_)));
}

#[test]
fn voiding_a_captured_transaction_is_refused() {
    let mut gateway = MockGateway::new();
    let authorization =
        gateway.authorize(&request("k1", "tok_visa", 1_000), Timestamp::now()).unwrap();
    assert!(gateway
        .cancel(&CancelRequest {
            idempotency_key: "v1".into(),
            transaction_id: authorization.transaction_id,
            reason: None,
        })
        .is_err());
}

#[test]
fn missing_capabilities_are_reported_before_charging() {
    let mut capabilities = Capabilities::full();
    capabilities.delayed_capture = false;
    let mut gateway = MockGateway::with_capabilities(capabilities);

    let error = gateway
        .authorize(&request("k1", "tok_visa", 1_000).manual_capture(), Timestamp::now())
        .unwrap_err();
    assert!(matches!(error, Error::UnsupportedCapability { .. }));
}

#[test]
fn webhooks_are_verified_and_normalised() {
    let now = Timestamp::now();
    let gateway = MockGateway::new();
    let payload = json(
        r#"{
            "id": "evt_1",
            "type": "payment.captured",
            "data": { "transaction_id": "txn_00000001" }
        }"#,
    )
    .to_string()
    .into_bytes();

    let headers = gateway.sign_webhook(&payload);
    let event = gateway.parse_webhook(&payload, &headers, now).unwrap();
    assert_eq!(event.provider_event_id, "evt_1");
    assert_eq!(event.kind, GatewayEventKind::PaymentCaptured);
    assert_eq!(event.transaction_id.as_deref(), Some("txn_00000001"));

    // Tampering invalidates the signature.
    let tampered =
        json(r#"{"id": "evt_2", "type": "payment.captured"}"#).to_string().into_bytes();
    assert!(gateway.parse_webhook(&tampered, &headers, now).is_err());
}

#[test]
fn customers_are_created_once() {
    let mut gateway = MockGateway::new();
    let request = CustomerRequest {
        customer_id: CustomerId::from_string("cus_local"),
        email: Some("a@example.com".into()),
        name: None,
        metadata: Default::default(),
    };
    let first = gateway.upsert_customer(&request);
    let second = gateway.upsert_customer(&request);
    assert_eq!(first, second);
}

#[test]
fn keys_replay_the_original_answer() {
    let now = Timestamp::now();
    let mut gateway = MockGateway::new();
    let challenged = gateway.authorize(&request("k1", "tok_3ds", 100), now).unwrap();
    let replayed = gateway.authorize(&request("k1", "tok_3ds", 100), now).unwrap();
    assert_eq!(replayed.transaction_id, challenged.transaction_id);
    assert_eq!(replayed.next_action, challenged.next_action);
    assert!(replayed.next_action.is_some());

    let mut held = request("k2", "tok_visa", 10_000);
    held.capture_mode = CaptureMode::Manual;
    let id = gateway.authorize(&held, now).unwrap().transaction_id;
    let first = gateway.capture(&capture_request("c1", &id, 4_000, false), now).unwrap();
    let again = gateway.capture(&capture_request("c1", &id, 4_000, false), now).unwrap();
    assert_eq!(first.total_captured, usd(4_000));
    assert_eq!(again.total_captured, usd(4_000));
    assert_eq!(gateway.transaction_captured(&id), Some(usd(4_000)));
    // The first answer, also once the charge has moved on.
    assert_eq!(gateway.authorize(&held, now).unwrap().amount_captured, usd(0));

    let refunded = gateway.refund(&refund_request("r1", &id, 1_500)).unwrap();
    let repeated = gateway.refund(&refund_request("r1", &id, 1_500)).unwrap();
    assert_eq!(refunded.refund_reference, format!("re_{}_1500", id));
    assert_eq!(repeated.refund_reference, refunded.refund_reference);
    let other = gateway.refund(&refund_request("r2", &id, 2_500)).unwrap();
    assert_eq!(other.refund_reference, format!("re_{}_4000", id));
}

#[test]
fn releasing_a_hold_twice_changes_nothing() {
    let now = Timestamp::now();
    let mut gateway = MockGateway::new();
    let mut held = request("k1", "tok_visa", 1_000);
    held.capture_mode = CaptureMode::Manual;
    let id = gateway.authorize(&held, now).unwrap().transaction_id;
    let cancel = CancelRequest {
        idempotency_key: "v1".into(),
        transaction_id: id.clone(),
        reason: None,
    };
    let first = gateway.cancel(&cancel).unwrap();
    let again = gateway.cancel(&cancel).unwrap();
    assert_eq!(first.status, TransactionStatus::Canceled);
    assert_eq!(again.status, TransactionStatus::Canceled);
    assert!(gateway.capture(&capture_request("c1", &id, 1, false), now).is_err());
}
