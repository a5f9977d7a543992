use payments::address::{Address, CountryCode};
use payments::cart::{Cart, CartItem};
use payments::error::Error;
use payments::fraud::{
    AllowAllFraudEngine, FraudEngine, FraudPolicy, RiskContext, RiskDecision, RuleBasedFraudEngine,
};
use payments::gateway::{GatewayId, InstrumentRef};
use payments::ids::{AccountId, CustomerId, OrderId, PaymentId};
use payments::ledger::GiftCard;
use payments::money::{Currency, Money};
use payments::order::{Order, OrderStatus};
use payments::payment::dispute::Dispute;
use payments::payment::method::{PaymentMethodKind, PaymentMethodRef};
use payments::payment::refund::{RefundPlan, RefundRecord, RefundRequest};
use payments::payment::split::{PlatformFeePolicy, SettlementPlan, ShopAccounts};
use payments::payment::tender::{TenderOffer, TenderPlan};
use payments::pricing::{Discount, NoTaxCalculator, PricingEngine};
use payments::reporting::{DateRange, Reporting};
use payments::secret::SecretString;
use payments::storage::memory::{
    InMemoryCartRepository, InMemoryDisputeRepository, InMemoryGiftCardRepository,
    InMemoryIdempotencyStore, InMemoryOrderRepository, InMemoryPaymentMethodRepository,
    InMemoryProcessedEventStore,
};
use payments::storage::IdempotencyOutcome;
use payments::time::Timestamp;
use payments::webhook::{
    hmac_sha256_hex, verify_hmac_sha256, verify_timestamp_freshness, Headers, WebhookOutcome,
    WebhookProcessor, WebhookStep,
};

fn usd(minor: i64) -> Money {
    Money::from_minor(minor, Currency::USD)
}

// Fraud.

fn policy() -> FraudPolicy {
    FraudPolicy { high_value_threshold: Some(usd(100_000)), ..Default::default() }
}

#[test]
fn a_clean_order_is_allowed() {
    let engine = RuleBasedFraudEngine::with_policy(policy());
    let context = RiskContext {
        prior_successful_orders: 12,
        email_verified: true,
        card_country: Some(CountryCode::US),
        shipping_country: Some(CountryCode::US),
        ..Default::default()
    };
    let assessment = engine.assess(&context).unwrap();
    assert_eq!(assessment.decision, RiskDecision::Allow);
    assert!(assessment.signals.is_empty());
}

#[test]
fn card_testing_is_blocked() {
    let engine = RuleBasedFraudEngine::with_policy(policy());
    let context = RiskContext {
        attempts_last_hour: 9,
        distinct_instruments_last_hour: 8,
        ..Default::default()
    };
    let assessment = engine.assess(&context).unwrap();
    assert_eq!(assessment.decision, RiskDecision::Block);
    assert!(!assessment.is_allowed());
    assert!(assessment.signals.iter().any(|signal| signal.code == "card_testing"));
    assert!(assessment.summary().contains("card_testing"));
}

#[test]
fn a_mismatched_new_customer_lands_in_review() {
    let engine = RuleBasedFraudEngine::with_policy(policy());
    let context = RiskContext {
        card_country: Some(CountryCode::US),
        shipping_country: Some(CountryCode::DE),
        billing_country: Some(CountryCode::US),
        ip_country: Some(CountryCode::DE),
        prior_successful_orders: 0,
        email_verified: false,
        ..Default::default()
    };
    let assessment = engine.assess(&context).unwrap();
    assert_eq!(assessment.decision, RiskDecision::Review);
    assert!(assessment.is_allowed(), "review still lets the charge through");
    assert_eq!(assessment.score, 50);
}

#[test]
fn scores_are_capped_at_100() {
    let engine = RuleBasedFraudEngine::with_policy(policy());
    let context = RiskContext {
        attempts_last_hour: 99,
        distinct_instruments_last_hour: 99,
        card_country: Some(CountryCode::US),
        shipping_country: Some(CountryCode::JP),
        billing_country: Some(CountryCode::US),
        ip_country: Some(CountryCode::JP),
        prior_successful_orders: 0,
        email_verified: false,
        ..Default::default()
    };
    let assessment = engine.assess(&context).unwrap();
    assert_eq!(assessment.score, 100);
}

#[test]
fn the_allow_all_engine_never_blocks() {
    let assessment = AllowAllFraudEngine.assess(&RiskContext::default()).unwrap();
    assert_eq!(assessment.decision, RiskDecision::Allow);
}

// Storage.

#[test]
fn optimistic_concurrency_rejects_stale_writes() {
    let mut repository = InMemoryCartRepository::new();
    let mut cart = Cart::new(Currency::USD);
    cart.apply_discount_code("SAVE"); // version 1
    repository.save(cart.clone()).unwrap();

    // Two readers both mutate the version-1 cart.
    let mut a = repository.get(&cart.id).unwrap().clone();
    let mut b = repository.get(&cart.id).unwrap().clone();
    a.apply_discount_code("A");
    b.apply_discount_code("B");

    repository.save(a).unwrap();
    let error = repository.save(b).unwrap_err();
    assert!(matches!(error, Error::Conflict { .. }));
}

#[test]
fn gift_cards_are_looked_up_by_hash_only() {
    let mut repository = InMemoryGiftCardRepository::new();
    let card = GiftCard::issue("GIFT-1111-2222", Money::from_minor(1_000, Currency::USD)).unwrap();
    repository.save(card).unwrap();

    assert!(repository.find_by_code("gift11112222").is_some());
    assert!(repository.find_by_code("GIFT-1111-2223").is_none());
}

#[test]
fn idempotency_keys_replay_and_detect_payload_changes() {
    let mut store = InMemoryIdempotencyStore::new();
    assert_eq!(store.begin("k", "fp").unwrap(), IdempotencyOutcome::Started);
    assert_eq!(store.begin("k", "fp").unwrap(), IdempotencyOutcome::InFlight);

    store.complete("k", "{\"ok\":true}").unwrap();
    assert_eq!(
        store.begin("k", "fp").unwrap(),
        IdempotencyOutcome::Completed("{\"ok\":true}".to_owned())
    );

    let error = store.begin("k", "different").unwrap_err();
    assert!(matches!(error, Error::IdempotencyConflict { .. }));

    store.abort("k");
    assert_eq!(store.begin("k", "fp").unwrap(), IdempotencyOutcome::Started);
}

#[test]
fn only_one_default_payment_method_per_customer() {
    let mut repository = InMemoryPaymentMethodRepository::new();
    let customer = CustomerId::new();
    let mut first = PaymentMethodRef::new(
        customer.clone(),
        GatewayId::from_static("mock"),
        "tok_1",
        PaymentMethodKind::Wallet { provider: "paypal".into() },
    );
    first.is_default = true;
    repository.save(first);

    let mut second = PaymentMethodRef::new(
        customer.clone(),
        GatewayId::from_static("mock"),
        "tok_2",
        PaymentMethodKind::Wallet { provider: "paypal".into() },
    );
    second.is_default = true;
    let second_id = second.id.clone();
    repository.save(second);

    let methods = repository.list_for_customer(&customer);
    assert_eq!(methods.iter().filter(|method| method.is_default).count(), 1);
    assert_eq!(repository.default_for_customer(&customer).unwrap().id, second_id);
}

#[test]
fn processed_events_deduplicate() {
    let mut store = InMemoryProcessedEventStore::new();
    assert!(store.mark_processed("evt_1"));
    assert!(!store.mark_processed("evt_1"));
    store.unmark("evt_1");
    assert!(store.mark_processed("evt_1"));
}

// Reporting.

fn place(items: &[(&str, i64)], discounts: Vec<Discount>) -> Order {
    let engine = PricingEngine::new(NoTaxCalculator);
    let mut cart = Cart::new(Currency::USD);
    cart.set_shipping_address(Address::new(CountryCode::US));
    for (shop, price) in items {
        cart.add_item(CartItem::new(shop, "sku", "Item", usd(*price), 1).unwrap()).unwrap();
    }
    let quote = engine.quote(&cart, &discounts).unwrap();
    let settlement = SettlementPlan::from_quote(
        &quote,
        &ShopAccounts::new(),
        &PlatformFeePolicy::percentage(1_000),
    )
    .unwrap();
    let tenders = TenderPlan::build(
        &quote,
        &[TenderOffer::gateway(
            GatewayId::from_static("mock"),
            InstrumentRef::SingleUseToken { token: "tok".into() },
            "card",
        )],
    )
    .unwrap();
    let mut order = Order::from_quote(&cart, quote, settlement, &tenders).unwrap();
    order.transition_to(OrderStatus::Authorized).unwrap();
    let total = order.total();
    order.record_capture(total).unwrap();
    order
}

#[test]
fn sales_report_aggregates_captures_and_refunds() {
    let mut repository = InMemoryOrderRepository::new();
    let first = place(&[("shop-1", 10_000)], vec![]);
    repository.save(first).unwrap();

    let mut second = place(&[("shop-1", 6_000), ("shop-2", 4_000)], vec![]);
    let plan = RefundPlan::build(&second, &RefundRequest::amount("r1", usd(2_000))).unwrap();
    second
        .record_refund(RefundRecord::new(plan, &RefundRequest::amount("r1", usd(2_000))))
        .unwrap();
    repository.save(second).unwrap();

    let reporting = Reporting::new(repository.list_all());
    let report = reporting.sales(Currency::USD, DateRange::all_time()).unwrap();

    assert_eq!(report.order_count, 2);
    assert_eq!(report.gross_volume, usd(20_000));
    assert_eq!(report.refunded, usd(2_000));
    assert_eq!(report.net_volume, usd(18_000));
    // 10 % of 100.00 in each order.
    assert_eq!(report.platform_fees, usd(2_000));
    assert_eq!(report.average_order_value(), usd(10_000));
    assert_eq!(report.refund_rate_basis_points(), 1_000);
}

#[test]
fn shop_report_nets_off_fees_and_refunds() {
    let mut repository = InMemoryOrderRepository::new();
    let order = place(&[("shop-1", 10_000), ("shop-2", 5_000)], vec![]);
    repository.save(order).unwrap();

    let reporting = Reporting::new(repository.list_all());
    let reports = reporting.by_shop(Currency::USD, DateRange::all_time()).unwrap();

    assert_eq!(reports.len(), 2);
    assert_eq!(reports[0].shop_id.as_str(), "shop-1");
    assert_eq!(reports[0].gross, usd(10_000));
    assert_eq!(reports[0].platform_fees, usd(1_000));
    assert_eq!(reports[0].net, usd(9_000));
}

#[test]
fn funder_report_tracks_subsidies_and_reclaims() {
    let mut repository = InMemoryOrderRepository::new();
    let subsidy = Discount::amount_off("SUB", "Benefit", usd(2_000))
        .funded_by(AccountId::from_string("acct_funder"), "benefit");
    let mut order = place(&[("shop-1", 10_000)], vec![subsidy]);

    let plan = RefundPlan::build(&order, &RefundRequest::full("r1")).unwrap();
    order.record_refund(RefundRecord::new(plan, &RefundRequest::full("r1"))).unwrap();
    repository.save(order).unwrap();

    let reporting = Reporting::new(repository.list_all());
    let reports = reporting.by_funder(Currency::USD, DateRange::all_time()).unwrap();
    assert_eq!(reports.len(), 1);
    assert_eq!(reports[0].funded, usd(2_000));
    assert_eq!(reports[0].reclaimed, usd(2_000));
    assert_eq!(reports[0].net, usd(0));
}

#[test]
fn ranges_and_currencies_filter_the_input() {
    let mut repository = InMemoryOrderRepository::new();
    repository.save(place(&[("shop-1", 1_000)], vec![])).unwrap();
    let reporting = Reporting::new(repository.list_all());

    let now = Timestamp::now();
    let past = DateRange::new(
        Timestamp { seconds: now.seconds - 30 * 86_400, nanos: now.nanos },
        Timestamp { seconds: now.seconds - 86_400, nanos: now.nanos },
    );
    assert_eq!(reporting.sales(Currency::USD, past).unwrap().order_count, 0);
    assert_eq!(
        reporting.sales(Currency::EUR, DateRange::all_time()).unwrap().order_count,
        0
    );
}

// Webhooks.

#[test]
fn headers_are_case_insensitive() {
    let headers = Headers::new().with("Stripe-Signature", "abc");
    assert_eq!(headers.get("stripe-signature"), Some("abc"));
    assert_eq!(headers.get("STRIPE-SIGNATURE"), Some("abc"));
    assert!(headers.require("missing").is_err());
}

#[test]
fn signature_verification_rejects_tampering() {
    let secret = SecretString::new("whsec");
    let payload = b"{\"id\":\"evt_1\"}";
    let signature = hmac_sha256_hex(&secret, payload);
    assert!(verify_hmac_sha256(&secret, payload, &signature).is_ok());
    assert!(verify_hmac_sha256(&secret, b"{\"id\":\"evt_2\"}", &signature).is_err());
    assert!(verify_hmac_sha256(&SecretString::new("other"), payload, &signature).is_err());
}

#[test]
fn signatures_are_hmac_sha256_in_hex() {
    let secret = SecretString::new("key");
    let payload = b"The quick brown fox jumps over the lazy dog";
    assert_eq!(
        hmac_sha256_hex(&secret, payload),
        "f7bc83f430538424b13298e6aa6fb143ef4d59a14946175997479dbc2d1a3cd8"
    );
}

#[test]
fn replay_window_is_enforced() {
    let now = Timestamp::now();
    assert!(verify_timestamp_freshness(now.seconds, now, 300).is_ok());
    assert!(verify_timestamp_freshness(now.seconds - 3_600, now, 300).is_err());
}

/// Runs a payload through a processor whose gateway signs with `x-signature`, and counts
/// the handler calls.
fn process(
    processor: &WebhookProcessor,
    store: &mut InMemoryProcessedEventStore,
    payload: &[u8],
    headers: &Headers,
    failing: bool,
    calls: &mut usize,
) -> Result<WebhookOutcome, Error> {
    let id = GatewayId::from_static("fake");
    processor.find(&id)?;
    let secret = SecretString::new("whsec");
    verify_hmac_sha256(&secret, payload, headers.require("x-signature")?)?;
    let event = String::from_utf8_lossy(payload).to_string();
    let delivery = processor.deliver(&id, &event);
    let mut step = delivery.first_step();
    loop {
        step = match step {
            WebhookStep::Mark { key } => delivery.marked(store.mark_processed(&key)),
            WebhookStep::Handle { index } => {
                *calls += 1;
                let result = if failing { Err(Error::storage("transient")) } else { Ok(()) };
                delivery.handled(index, result)
            }
            WebhookStep::Release { key, error } => {
                store.unmark(&key);
                return Err(error);
            }
            WebhookStep::Done { outcome } => return Ok(outcome),
        };
    }
}

fn signed_headers(payload: &[u8]) -> Headers {
    let signature = hmac_sha256_hex(&SecretString::new("whsec"), payload);
    Headers::new().with("X-Signature", &signature)
}

#[test]
fn duplicates_are_dropped_and_failures_stay_retryable() {
    let mut calls = 0;
    let mut store = InMemoryProcessedEventStore::new();
    let processor = WebhookProcessor::new()
        .register_gateway(GatewayId::from_static("fake"))
        .register_handler();

    let payload = b"evt_1";
    let headers = signed_headers(payload);

    assert_eq!(
        process(&processor, &mut store, payload, &headers, false, &mut calls).unwrap(),
        WebhookOutcome::Processed
    );
    assert_eq!(
        process(&processor, &mut store, payload, &headers, false, &mut calls).unwrap(),
        WebhookOutcome::Duplicate
    );
    assert_eq!(calls, 1);

    // An unsigned request never reaches the handler.
    assert!(
        process(&processor, &mut store, payload, &Headers::new(), false, &mut calls).is_err()
    );

    // A failing handler releases the dedupe key so the retry is processed.
    let payload2 = b"evt_2";
    let headers2 = signed_headers(payload2);
    assert!(process(&processor, &mut store, payload2, &headers2, true, &mut calls).is_err());
    assert!(process(&processor, &mut store, payload2, &headers2, true, &mut calls).is_err());
    assert_eq!(calls, 3);
}

#[test]
fn unknown_gateway_is_a_configuration_error() {
    let processor = WebhookProcessor::new();
    let error = processor.find(&GatewayId::from_static("nope")).unwrap_err();
    assert!(matches!(error, Error::Configuration(_)));
}

#[test]
fn listed_headers_are_in_order() {
    let headers = Headers::new().with("B", "2").with("A", "1");
    assert_eq!(
        headers.iter(),
        vec![("a".to_owned(), "1".to_owned()), ("b".to_owned(), "2".to_owned())]
    );
}

#[test]
fn changed_carts_can_be_saved_again() {
    let mut repository = InMemoryCartRepository::new();
    let mut cart = Cart::new(Currency::USD);
    repository.save(cart.clone()).unwrap();
    cart.apply_discount_code("A");
    repository.save(cart.clone()).unwrap();
    cart.apply_discount_code("B");
    repository.save(cart.clone()).unwrap();
    assert_eq!(repository.get(&cart.id).unwrap().discount_codes, vec!["A", "B"]);
}

#[test]
fn fraud_rules_are_additive() {
    let engine = RuleBasedFraudEngine::with_policy(policy());
    let clean = RiskContext {
        prior_successful_orders: 12,
        email_verified: true,
        ..Default::default()
    };
    let velocity = RiskContext { attempts_last_hour: 9, ..clean.clone() };
    let testing = RiskContext { distinct_instruments_last_hour: 8, ..clean.clone() };
    let both = RiskContext { attempts_last_hour: 9, ..testing.clone() };
    let base = engine.assess(&clean).unwrap().score;
    let first = engine.assess(&velocity).unwrap().score;
    let second = engine.assess(&testing).unwrap().score;
    assert_eq!(base, 0);
    assert!(first > 0 && second > 0);
    assert_eq!(engine.assess(&both).unwrap().score, first + second);
}

#[test]
fn stale_disputes_are_refused() {
    let mut repository = InMemoryDisputeRepository::new();
    let dispute = Dispute::open(
        PaymentId::from_string("pay_1"),
        OrderId::from_string("ord_1"),
        GatewayId::from_static("mock"),
        "dp_ref",
        usd(1_000),
    );
    repository.save(dispute.clone()).unwrap();
    let now = Timestamp::now();
    let mut won = repository.get(&dispute.id).unwrap().clone();
    let mut accepted = repository.get(&dispute.id).unwrap().clone();
    won.close(true, now).unwrap();
    accepted.accept(now).unwrap();
    repository.save(won).unwrap();
    assert!(matches!(repository.save(accepted), Err(Error::Conflict { kind: "dispute", .. })));
    assert_eq!(repository.list_for_order(&OrderId::from_string("ord_1")).len(), 1);
}
