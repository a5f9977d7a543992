use chrono::{TimeZone, Utc};
use payments::address::{Address, CountryCode, Jurisdiction};
use payments::cart::{Cart, CartItem, FulfillmentKey, FulfillmentStatus};
use payments::error::Error;
use payments::gateway::{
    AuthorizeResponse, CaptureResponse, GatewayId, InstrumentRef, TransactionStatus,
};
use payments::ids::{AccountId, CustomerId, GiftCardId, OrderId, PaymentId, ShopId};
use payments::money::{Currency, Money};
use payments::order::{Order, OrderStatus};
use payments::payment::dispute::{Dispute, DisputeEvidence, DisputeStatus};
use payments::payment::method::{
    CardSummary, ChargeInitiator, PaymentMethodKind, PaymentMethodRef,
};
use payments::payment::refund::{RefundLineRequest, RefundPlan, RefundRecord, RefundRequest};
use payments::payment::split::{PlatformFeePolicy, SettlementPlan, ShopAccounts, ShopSettlement};
use payments::payment::tender::{TenderOffer, TenderPlan};
use payments::payment::{Payment, PaymentStatus};
use payments::pricing::{
    Discount, NoTaxCalculator, PricingEngine, Quote, RateTableTaxCalculator, TaxRule,
};
use payments::time::{Duration, Timestamp};

fn usd(minor: i64) -> Money {
    Money::from_minor(minor, Currency::USD)
}

fn sum(amounts: &[Money]) -> Money {
    Money::sum(amounts, Currency::USD).unwrap()
}

fn shifted(at: Timestamp, seconds: i64) -> Timestamp {
    Timestamp { seconds: at.seconds + seconds, nanos: at.nanos }
}

fn free(_key: &FulfillmentKey, _currency: Currency) -> Result<Money, Error> {
    Ok(usd(0))
}

fn card_offer() -> TenderOffer {
    TenderOffer::gateway(
        GatewayId::from_static("mock"),
        InstrumentRef::SingleUseToken { token: "tok_visa".into() },
        "visa •••• 4242",
    )
}

fn order_with(items: &[(&str, i64)]) -> Order {
    let engine = PricingEngine::new(NoTaxCalculator);
    let mut cart = Cart::new(Currency::USD);
    cart.set_shipping_address(Address::new(CountryCode::US));
    for (shop, price) in items {
        cart.add_item(CartItem::new(shop, "sku", "Item", usd(*price), 1).unwrap()).unwrap();
    }
    cart.regroup_fulfillment(&free).unwrap();

    let quote = engine.quote(&cart, &[]).unwrap();
    let settlement =
        SettlementPlan::from_quote(&quote, &ShopAccounts::new(), &PlatformFeePolicy::none())
            .unwrap();
    let tenders = TenderPlan::build(&quote, &[card_offer()]).unwrap();
    Order::from_quote(&cart, quote, settlement, &tenders).unwrap()
}

#[test]
fn capture_progresses_the_status() {
    let mut order = order_with(&[("shop-1", 10_000)]);
    assert_eq!(order.status, OrderStatus::Draft);
    order.transition_to(OrderStatus::Authorized).unwrap();

    order.record_capture(usd(4_000)).unwrap();
    assert_eq!(order.status, OrderStatus::PartiallyCaptured);
    order.record_capture(usd(6_000)).unwrap();
    assert_eq!(order.status, OrderStatus::Paid);
    assert!(order.record_capture(usd(1)).is_err());
}

#[test]
fn illegal_transitions_are_rejected() {
    let mut order = order_with(&[("shop-1", 1_000)]);
    assert!(order.transition_to(OrderStatus::Fulfilled).is_err());
    order.transition_to(OrderStatus::Authorized).unwrap();
    order.transition_to(OrderStatus::Canceled).unwrap();
    assert!(order.status.is_terminal());
    assert!(order.transition_to(OrderStatus::Paid).is_err());
}

#[test]
fn per_shipment_amounts_support_capture_on_delivery() {
    let mut order = order_with(&[("shop-1", 6_000), ("shop-2", 4_000)]);
    assert_eq!(order.fulfillment_groups.len(), 2);

    let first = order.fulfillment_groups[0].id.clone();
    assert_eq!(order.amount_for_fulfillment_group(&first).unwrap(), usd(6_000));

    order.set_fulfillment_status(&first, FulfillmentStatus::Processing).unwrap();
    order.set_fulfillment_status(&first, FulfillmentStatus::Shipped).unwrap();
    order.set_fulfillment_status(&first, FulfillmentStatus::Delivered).unwrap();
    assert!(!order.is_fully_fulfilled());

    assert!(order.set_fulfillment_status(&first, FulfillmentStatus::Processing).is_err());
}

#[test]
fn tender_plan_must_match_the_order_total() {
    let engine = PricingEngine::new(NoTaxCalculator);
    let mut cart = Cart::new(Currency::USD);
    cart.set_shipping_address(Address::new(CountryCode::US));
    cart.add_item(CartItem::new("shop-1", "sku", "Item", usd(1_000), 1).unwrap()).unwrap();
    let quote = engine.quote(&cart, &[]).unwrap();
    let settlement =
        SettlementPlan::from_quote(&quote, &ShopAccounts::new(), &PlatformFeePolicy::none())
            .unwrap();
    let mut tenders = TenderPlan::build(&quote, &[card_offer()]).unwrap();
    tenders.total_due = usd(999);
    assert!(Order::from_quote(&cart, quote, settlement, &tenders).is_err());
}

#[test]
fn reversing_a_capture_undoes_it() {
    let mut order = order_with(&[("shop-1", 1_000)]);
    order.transition_to(OrderStatus::Authorized).unwrap();
    order.record_capture(usd(400)).unwrap();
    order.reverse_capture(usd(400)).unwrap();
    assert_eq!(order.amount_captured, usd(0));
    assert!(matches!(order.reverse_capture(usd(1)), Err(Error::Validation(_))));
}

// Payments.

fn payment() -> Payment {
    Payment::new(
        OrderId::from_string("ord_1"),
        GatewayId::from_static("mock"),
        usd(10_000),
        "key-1",
        "visa •••• 4242",
    )
}

fn authorization(amount: i64, captured: i64, status: TransactionStatus) -> AuthorizeResponse {
    AuthorizeResponse {
        transaction_id: "txn_1".into(),
        status,
        amount_authorized: usd(amount),
        amount_captured: usd(captured),
        expires_at: Timestamp::now().plus(Duration::days(7)),
        next_action: None,
        processor_reference: None,
        raw: None,
    }
}

fn capture(amount: i64) -> CaptureResponse {
    CaptureResponse {
        capture_reference: format!("cap_{amount}"),
        status: TransactionStatus::PartiallyCaptured,
        amount_captured: usd(amount),
        total_captured: usd(amount),
        raw: None,
    }
}

#[test]
fn authorize_then_confirm_then_capture() {
    let mut payment = payment();
    payment
        .record_authorization(&authorization(10_000, 0, TransactionStatus::Authorized))
        .unwrap();
    assert_eq!(payment.status, PaymentStatus::Authorized);
    assert_eq!(payment.capturable_amount().unwrap(), usd(10_000));

    // Capture is refused until the merchant confirms.
    assert!(payment.check_capture(usd(1_000), Timestamp::now()).is_err());
    payment.confirm().unwrap();
    payment.check_capture(usd(4_000), Timestamp::now()).unwrap();

    payment.record_capture(&capture(4_000), None).unwrap();
    assert_eq!(payment.status, PaymentStatus::PartiallyCaptured);
    assert_eq!(payment.capturable_amount().unwrap(), usd(6_000));

    payment.record_capture(&capture(6_000), None).unwrap();
    assert_eq!(payment.status, PaymentStatus::Captured);
    assert!(payment.captures.last().unwrap().final_capture);
    assert_eq!(payment.capturable_amount().unwrap(), usd(0));
}

#[test]
fn automatic_capture_is_implicitly_confirmed() {
    let mut payment = payment();
    payment
        .record_authorization(&authorization(10_000, 10_000, TransactionStatus::Captured))
        .unwrap();
    assert_eq!(payment.status, PaymentStatus::Captured);
    assert!(payment.confirmed);
    assert_eq!(payment.captures.len(), 1);
    assert_eq!(payment.refundable_amount().unwrap(), usd(10_000));
}

#[test]
fn cannot_capture_more_than_authorized() {
    let mut payment = payment();
    payment
        .record_authorization(&authorization(10_000, 0, TransactionStatus::Authorized))
        .unwrap();
    payment.confirm().unwrap();
    assert!(payment.check_capture(usd(10_001), Timestamp::now()).is_err());
    assert!(payment.check_capture(usd(0), Timestamp::now()).is_err());
}

#[test]
fn mod_expired_authorizations_cannot_be_captured() {
    let mut payment = payment();
    let mut response = authorization(10_000, 0, TransactionStatus::Authorized);
    response.expires_at = Some(shifted(Timestamp::now(), -3_600));
    payment.record_authorization(&response).unwrap();
    payment.confirm().unwrap();

    assert!(payment.is_authorization_expired(Timestamp::now()));
    assert!(payment.check_capture(usd(100), Timestamp::now()).is_err());

    payment.record_expiry();
    assert_eq!(payment.status, PaymentStatus::Expired);
    assert!(payment.status.is_terminal());
}

#[test]
fn captured_payments_cannot_be_voided() {
    let mut payment = payment();
    payment
        .record_authorization(&authorization(10_000, 10_000, TransactionStatus::Captured))
        .unwrap();
    assert!(payment.record_cancellation().is_err());
}

#[test]
fn refunds_cannot_exceed_captures() {
    let mut payment = payment();
    payment
        .record_authorization(&authorization(10_000, 10_000, TransactionStatus::Captured))
        .unwrap();
    payment.record_refund(usd(4_000)).unwrap();
    assert_eq!(payment.refundable_amount().unwrap(), usd(6_000));
    assert!(payment.record_refund(usd(6_001)).is_err());
    payment.record_refund(usd(6_000)).unwrap();
    assert_eq!(payment.refundable_amount().unwrap(), usd(0));
}

#[test]
fn confirming_an_uncontacted_payment_is_rejected() {
    let mut payment = payment();
    assert!(payment.confirm().is_err());
}

#[test]
fn unconfirmed_captures_are_not_recorded() {
    let mut payment = payment();
    payment
        .record_authorization(&authorization(10_000, 0, TransactionStatus::Authorized))
        .unwrap();
    assert!(matches!(payment.record_capture(&capture(1_000), None), Err(Error::Validation(_))));
    assert_eq!(payment.amount_captured, usd(0));
}

#[test]
fn the_hold_counts_down_to_its_expiry() {
    let mut payment = payment();
    let now = Timestamp::now();
    assert_eq!(payment.time_until_expiry(now), None);
    let mut response = authorization(10_000, 0, TransactionStatus::Authorized);
    response.expires_at = Some(shifted(now, 90));
    payment.record_authorization(&response).unwrap();
    assert_eq!(payment.time_until_expiry(now), Some(Duration { seconds: 90, nanos: 0 }));
}

// Instruments.

fn card() -> CardSummary {
    CardSummary::new("visa", "4242", 12, 2030).unwrap()
}

fn midnight(year: i32, month: u32, day: u32) -> Timestamp {
    let at = Utc.with_ymd_and_hms(year, month, day, 0, 0, 0).unwrap();
    Timestamp::from_seconds(at.timestamp()).unwrap()
}

#[test]
fn rejects_anything_that_is_not_last_four_digits() {
    assert!(CardSummary::new("visa", "4242424242424242", 12, 2030).is_err());
    assert!(CardSummary::new("visa", "42a2", 12, 2030).is_err());
    assert!(CardSummary::new("visa", "4242", 13, 2030).is_err());
    assert!(CardSummary::new("visa", "4242", 12, 30).is_err());
}

#[test]
fn expiry_check() {
    let now = midnight(2031, 1, 1);
    assert!(card().is_expired(now));
    assert!(!card().is_expired(midnight(2030, 12, 31)));
}

#[test]
fn expired_cards_decline_before_touching_the_gateway() {
    let method = PaymentMethodRef::new(
        CustomerId::new(),
        GatewayId::from_static("mock"),
        "tok_123",
        PaymentMethodKind::Card(card()),
    );
    let now = midnight(2031, 1, 1);
    let error = method.ensure_usable(now).unwrap_err();
    assert!(matches!(error, Error::Declined { .. }));
    assert_eq!(method.display_label(), "visa •••• 4242");
}

#[test]
fn off_session_requires_consent() {
    assert!(ChargeInitiator::MerchantOffSession.requires_stored_consent());
    assert!(!ChargeInitiator::CustomerOnSession.requires_stored_consent());
}

// Disputes.

fn dispute() -> Dispute {
    Dispute::open(
        PaymentId::from_string("pay_1"),
        OrderId::from_string("ord_1"),
        GatewayId::from_static("mock"),
        "dp_provider_1",
        Money::from_minor(10_000, Currency::USD),
    )
}

fn evidence() -> DisputeEvidence {
    DisputeEvidence { shipping_documentation: Some("1Z999".into()), ..Default::default() }
}

#[test]
fn evidence_submission_moves_to_review() {
    let now = Timestamp::now();
    let mut dispute = dispute().due_by(shifted(now, 7 * 86_400));
    dispute.submit_evidence(evidence(), now).unwrap();
    assert_eq!(dispute.status, DisputeStatus::UnderReview);
    assert!(dispute.submit_evidence(evidence(), now).is_err(), "already submitted");
}

#[test]
fn late_or_empty_evidence_is_refused() {
    let now = Timestamp::now();
    let mut overdue = dispute().due_by(shifted(now, -86_400));
    assert!(overdue.is_overdue(now));
    assert!(overdue.submit_evidence(evidence(), now).is_err());

    let mut in_time = dispute().due_by(shifted(now, 86_400));
    assert!(in_time.submit_evidence(DisputeEvidence::default(), now).is_err());
}

#[test]
fn closing_is_final() {
    let now = Timestamp::now();
    let mut dispute = dispute();
    dispute.close(true, now).unwrap();
    assert_eq!(dispute.status, DisputeStatus::Won);
    assert!(dispute.status.is_terminal());
    assert!(dispute.close(false, now).is_err());
    assert!(dispute.accept(now).is_err());
}

#[test]
fn exposure_includes_the_dispute_fee() {
    let mut dispute = dispute();
    assert_eq!(dispute.total_exposure().unwrap(), Money::from_minor(10_000, Currency::USD));
    dispute.fee = Some(Money::from_minor(1_500, Currency::USD));
    assert_eq!(dispute.total_exposure().unwrap(), Money::from_minor(11_500, Currency::USD));
}

// Settlement.

fn tax_ten_percent() -> PricingEngine<RateTableTaxCalculator> {
    PricingEngine::new(RateTableTaxCalculator::with_rules(vec![TaxRule::new(
        "CA",
        "state",
        Jurisdiction::region(CountryCode::US, "CA"),
        1_000,
    )]))
}

fn quote_for(items: Vec<CartItem>, discounts: Vec<Discount>) -> Quote {
    let mut cart = Cart::new(Currency::USD);
    cart.set_shipping_address(Address::new(CountryCode::US).with_region("CA"));
    for item in items {
        cart.add_item(item).unwrap();
    }
    tax_ten_percent().quote(&cart, &discounts).unwrap()
}

#[test]
fn single_shop_settles_the_whole_charge() {
    let quote =
        quote_for(vec![CartItem::new("shop-1", "a", "A", usd(10_000), 1).unwrap()], vec![]);
    let plan =
        SettlementPlan::from_quote(&quote, &ShopAccounts::new(), &PlatformFeePolicy::none())
            .unwrap();

    assert_eq!(plan.shops.len(), 1);
    assert_eq!(plan.shops[0].gross, usd(11_000));
    assert_eq!(plan.shops[0].net, usd(11_000));
    assert_eq!(plan.collected_from_customer, usd(11_000));
}

#[test]
fn platform_fee_excludes_tax_by_default() {
    let quote =
        quote_for(vec![CartItem::new("shop-1", "a", "A", usd(10_000), 1).unwrap()], vec![]);
    let plan = SettlementPlan::from_quote(
        &quote,
        &ShopAccounts::new(),
        &PlatformFeePolicy::percentage(1_000), // 10 %
    )
    .unwrap();

    // 10 % of the 100.00 of goods, not of the 110.00 gross.
    assert_eq!(plan.shops[0].platform_fee, usd(1_000));
    assert_eq!(plan.shops[0].net, usd(10_000));
    assert_eq!(plan.platform_fee_total, usd(1_000));
}

#[test]
fn fee_can_include_tax_when_configured() {
    let quote =
        quote_for(vec![CartItem::new("shop-1", "a", "A", usd(10_000), 1).unwrap()], vec![]);
    let mut policy = PlatformFeePolicy::percentage(1_000);
    policy.include_tax_in_base = true;
    let plan = SettlementPlan::from_quote(&quote, &ShopAccounts::new(), &policy).unwrap();
    assert_eq!(plan.shops[0].platform_fee, usd(1_100));
}

#[test]
fn subsidised_orders_bill_the_funder_and_keep_the_shop_whole() {
    let subsidy = Discount::amount_off("SUB", "Employer benefit", usd(3_000))
        .funded_by(AccountId::from_string("acct_employer"), "benefit");
    let quote =
        quote_for(vec![CartItem::new("shop-1", "a", "A", usd(10_000), 1).unwrap()], vec![subsidy]);
    let plan =
        SettlementPlan::from_quote(&quote, &ShopAccounts::new(), &PlatformFeePolicy::none())
            .unwrap();

    assert_eq!(plan.collected_from_customer, usd(8_000)); // 100 - 30 + 10 tax
    assert_eq!(plan.collected_from_funders, usd(3_000));
    assert_eq!(plan.shops[0].gross, usd(11_000));
    assert_eq!(plan.funders.len(), 1);
    assert_eq!(plan.funders[0].funder, AccountId::from_string("acct_employer"));
    plan.verify().unwrap();
}

#[test]
fn multi_shop_split_balances_to_the_cent() {
    let quote = quote_for(
        vec![
            CartItem::new("shop-1", "a", "A", usd(3_333), 1).unwrap(),
            CartItem::new("shop-2", "b", "B", usd(3_333), 1).unwrap(),
            CartItem::new("shop-3", "c", "C", usd(3_334), 1).unwrap(),
        ],
        vec![Discount::amount_off("TEN", "$10 off", usd(1_000))],
    );

    let accounts = ShopAccounts::new()
        .with(ShopId::from_string("shop-1"), AccountId::from_string("acct_1"));
    let plan =
        SettlementPlan::from_quote(&quote, &accounts, &PlatformFeePolicy::percentage(250)).unwrap();

    assert_eq!(plan.shops.len(), 3);
    assert_eq!(plan.shop(&ShopId::from_string("shop-1")).unwrap().account_id.as_str(), "acct_1");
    // Unmapped shops fall back to an account named after the shop.
    assert_eq!(plan.shop(&ShopId::from_string("shop-2")).unwrap().account_id.as_str(), "shop-2");
    assert_eq!(plan.gross_total().unwrap(), quote.totals.merchant_gross);
    plan.verify().unwrap();
}

#[test]
fn prorating_a_partial_collection_is_exact() {
    let quote = quote_for(
        vec![
            CartItem::new("shop-1", "a", "A", usd(3_333), 1).unwrap(),
            CartItem::new("shop-2", "b", "B", usd(3_333), 1).unwrap(),
            CartItem::new("shop-3", "c", "C", usd(3_334), 1).unwrap(),
        ],
        vec![],
    );
    let plan =
        SettlementPlan::from_quote(&quote, &ShopAccounts::new(), &PlatformFeePolicy::none())
            .unwrap();

    let shares = plan.prorate_customer_amount(usd(1_000)).unwrap();
    let amounts: Vec<Money> = shares.iter().map(|(_, amount)| *amount).collect();
    assert_eq!(sum(&amounts), usd(1_000));
    assert_eq!(shares.len(), 3);
}

#[test]
fn imbalanced_plans_are_rejected() {
    let plan = SettlementPlan {
        currency: Currency::USD,
        collected_from_customer: usd(1_000),
        collected_from_funders: usd(0),
        shops: vec![ShopSettlement {
            shop_id: ShopId::from_string("shop-1"),
            account_id: AccountId::from_string("acct_1"),
            gross: usd(999),
            tax: usd(0),
            platform_fee: usd(0),
            net: usd(999),
            funded_by_customer: usd(999),
            funded_by_subsidy: usd(0),
        }],
        funders: vec![],
        platform_fee_total: usd(0),
    };
    assert!(plan.verify().is_err());
}

// Tenders.

fn untaxed(items: &[(&str, i64)]) -> Quote {
    let engine = PricingEngine::new(NoTaxCalculator);
    let mut cart = Cart::new(Currency::USD);
    cart.set_shipping_address(Address::new(CountryCode::US));
    for (shop, price) in items {
        cart.add_item(CartItem::new(shop, "sku", "Item", usd(*price), 1).unwrap()).unwrap();
    }
    engine.quote(&cart, &[]).unwrap()
}

#[test]
fn a_single_card_covers_everything() {
    let quote = untaxed(&[("shop-1", 10_000)]);
    let plan = TenderPlan::build(&quote, &[card_offer()]).unwrap();
    assert_eq!(plan.tenders.len(), 1);
    assert_eq!(plan.tenders[0].amount, usd(10_000));
    assert_eq!(plan.gateway_total().unwrap(), usd(10_000));
}

#[test]
fn stored_value_is_spent_before_the_card() {
    let quote = untaxed(&[("shop-1", 10_000)]);
    let gift = TenderOffer::gift_card(GiftCardId::from_string("gc_1"), "****1234", usd(3_000));
    let plan = TenderPlan::build(&quote, &[card_offer(), gift]).unwrap();

    assert_eq!(plan.tenders.len(), 2);
    assert!(plan.tenders[0].kind.is_stored_value());
    assert_eq!(plan.tenders[0].amount, usd(3_000));
    assert_eq!(plan.tenders[1].amount, usd(7_000));
    plan.verify().unwrap();
}

#[test]
fn shop_credit_only_pays_for_its_own_shop() {
    let quote = untaxed(&[("shop-1", 6_000), ("shop-2", 4_000)]);
    let credit = TenderOffer::shop_credit(ShopId::from_string("shop-2"), usd(9_999));
    let plan = TenderPlan::build(&quote, &[card_offer(), credit]).unwrap();

    let stored = plan.stored_value_tenders();
    let credit_tender = stored[0];
    // Capped at shop-2's share, even though the balance would cover more.
    assert_eq!(credit_tender.amount, usd(4_000));
    assert_eq!(
        credit_tender.amount_for_shop(&ShopId::from_string("shop-2"), Currency::USD),
        usd(4_000)
    );
    assert_eq!(
        credit_tender.amount_for_shop(&ShopId::from_string("shop-1"), Currency::USD),
        usd(0)
    );
    assert_eq!(plan.gateway_total().unwrap(), usd(6_000));
}

#[test]
fn credit_for_a_shop_that_is_not_in_the_cart_is_skipped() {
    let quote = untaxed(&[("shop-1", 5_000)]);
    let credit = TenderOffer::shop_credit(ShopId::from_string("shop-9"), usd(5_000));
    let plan = TenderPlan::build(&quote, &[card_offer(), credit]).unwrap();
    assert_eq!(plan.tenders.len(), 1);
    assert_eq!(plan.gateway_total().unwrap(), usd(5_000));
}

#[test]
fn unrestricted_tenders_are_prorated_across_shops() {
    let quote = untaxed(&[("shop-1", 3_333), ("shop-2", 3_333), ("shop-3", 3_334)]);
    let gift = TenderOffer::gift_card(GiftCardId::from_string("gc_1"), "****1234", usd(1_000));
    let plan = TenderPlan::build(&quote, &[card_offer(), gift]).unwrap();

    let gift_tender = &plan.tenders[0];
    let shares: Vec<Money> = (0..gift_tender.shop_allocation.len())
        .map(|index| *gift_tender.shop_allocation.value_at(index))
        .collect();
    assert_eq!(sum(&shares), usd(1_000));
    assert_eq!(gift_tender.shop_allocation.len(), 3);
    plan.verify().unwrap();
}

#[test]
fn tenders_cover_each_shop() {
    let items = [("shop-1", 3_333), ("shop-2", 3_333), ("shop-3", 3_335)];
    let quote = untaxed(&items);
    let offers = [
        card_offer(),
        TenderOffer::gift_card(GiftCardId::from_string("gc_1"), "****1234", usd(1_000)),
        TenderOffer::shop_credit(ShopId::from_string("shop-2"), usd(777)),
    ];
    let plan = TenderPlan::build(&quote, &offers).unwrap();
    assert_eq!(plan.tenders.len(), 3);
    for (shop, price) in items {
        let shop = ShopId::from_string(shop);
        let paid: i64 = plan
            .tenders
            .iter()
            .map(|tender| tender.amount_for_shop(&shop, Currency::USD).minor())
            .sum();
        assert_eq!(paid, price);
    }
}

#[test]
fn insufficient_offers_fail_before_anything_is_charged() {
    let quote = untaxed(&[("shop-1", 10_000)]);
    let gift = TenderOffer::gift_card(GiftCardId::from_string("gc_1"), "****1234", usd(3_000));
    let error = TenderPlan::build(&quote, &[gift]).unwrap_err();
    match error {
        Error::InsufficientFunds { available, required, .. } => {
            assert_eq!(available, usd(3_000));
            assert_eq!(required, usd(10_000));
        }
        other => panic!("unexpected error: {other:?}"),
    }
}

#[test]
fn shopper_caps_are_respected() {
    let quote = untaxed(&[("shop-1", 10_000)]);
    let capped = card_offer().capped_at(usd(4_000));
    let second = TenderOffer::gateway(
        GatewayId::from_static("mock"),
        InstrumentRef::SingleUseToken { token: "tok_mc".into() },
        "mastercard •••• 5555",
    );
    let plan = TenderPlan::build(&quote, &[capped, second]).unwrap();
    assert_eq!(plan.tenders.len(), 2);
    assert_eq!(plan.tenders[0].amount, usd(4_000));
    assert_eq!(plan.tenders[1].amount, usd(6_000));
}

#[test]
fn a_fully_gift_carded_order_needs_no_gateway() {
    let quote = untaxed(&[("shop-1", 2_500)]);
    let gift = TenderOffer::gift_card(GiftCardId::from_string("gc_1"), "****1234", usd(5_000));
    let plan = TenderPlan::build(&quote, &[gift, card_offer()]).unwrap();
    assert_eq!(plan.tenders.len(), 1);
    assert_eq!(plan.gateway_total().unwrap(), usd(0));
}

// Refunds.

fn build_order(
    items: &[(&str, i64, u32)],
    discounts: Vec<Discount>,
    offers: Vec<TenderOffer>,
    fees: PlatformFeePolicy,
) -> Order {
    let mut cart = Cart::new(Currency::USD);
    cart.set_shipping_address(Address::new(CountryCode::US).with_region("CA"));
    for (shop, price, qty) in items {
        cart.add_item(CartItem::new(shop, "sku", "Item", usd(*price), *qty).unwrap()).unwrap();
    }
    let quote = tax_ten_percent().quote(&cart, &discounts).unwrap();
    let settlement = SettlementPlan::from_quote(&quote, &ShopAccounts::new(), &fees).unwrap();
    let tenders = TenderPlan::build(&quote, &offers).unwrap();
    let mut order = Order::from_quote(&cart, quote, settlement, &tenders).unwrap();
    order.transition_to(OrderStatus::Authorized).unwrap();
    let total = order.total();
    order.record_capture(total).unwrap();
    order
}

#[test]
fn full_refund_returns_everything_across_shops() {
    let order = build_order(
        &[("shop-1", 6_000, 1), ("shop-2", 4_000, 1)],
        vec![],
        vec![card_offer()],
        PlatformFeePolicy::none(),
    );

    let plan = RefundPlan::build(&order, &RefundRequest::full("r1")).unwrap();
    assert_eq!(plan.total, order.total());
    assert_eq!(plan.shops.len(), 2);
    assert_eq!(plan.tax_refunded, usd(1_000));
    assert_eq!(plan.tenders.len(), 1);
    plan.verify().unwrap();
}

#[test]
fn partial_line_refund_only_returns_those_units() {
    let order = build_order(
        &[("shop-1", 2_500, 4)],
        vec![],
        vec![card_offer()],
        PlatformFeePolicy::none(),
    );
    let line_id = order.quote.lines[0].line_id.clone();

    let plan = RefundPlan::build(
        &order,
        &RefundRequest::lines("r1", vec![RefundLineRequest { line_id, quantity: 1 }]),
    )
    .unwrap();

    // One of four units: 25.00 + 2.50 tax.
    assert_eq!(plan.total, usd(2_750));
    assert_eq!(plan.lines[0].quantity, 1);
    assert_eq!(plan.tax_refunded, usd(250));
}

#[test]
fn repeated_partial_refunds_sum_exactly_to_the_whole() {
    // A price that does not divide evenly by the quantity is where
    // per-unit rounding usually leaks a cent.
    let mut order = build_order(
        &[("shop-1", 3_333, 3)],
        vec![],
        vec![card_offer()],
        PlatformFeePolicy::none(),
    );
    let line_id = order.quote.lines[0].line_id.clone();
    let total = order.total();

    let mut refunded = usd(0);
    for index in 0..3 {
        let key = format!("r{index}");
        let plan = RefundPlan::build(
            &order,
            &RefundRequest::lines(
                &key,
                vec![RefundLineRequest { line_id: line_id.clone(), quantity: 1 }],
            ),
        )
        .unwrap();
        refunded = refunded.try_add(plan.total).unwrap();
        order.record_refund(RefundRecord::new(plan, &RefundRequest::full("x"))).unwrap();
    }
    assert_eq!(refunded, total, "three unit refunds must return the whole order");
    assert_eq!(order.status, OrderStatus::Refunded);
}

#[test]
fn refunding_more_units_than_exist_is_rejected() {
    let order = build_order(
        &[("shop-1", 1_000, 2)],
        vec![],
        vec![card_offer()],
        PlatformFeePolicy::none(),
    );
    let line_id = order.quote.lines[0].line_id.clone();
    assert!(RefundPlan::build(
        &order,
        &RefundRequest::lines("r1", vec![RefundLineRequest { line_id, quantity: 3 }])
    )
    .is_err());
}

#[test]
fn subsidies_are_reclaimed_from_the_funder() {
    let subsidy = Discount::amount_off("SUB", "Employer benefit", usd(3_000))
        .funded_by(AccountId::from_string("acct_employer"), "benefit");
    let order = build_order(
        &[("shop-1", 10_000, 1)],
        vec![subsidy],
        vec![card_offer()],
        PlatformFeePolicy::none(),
    );

    let plan = RefundPlan::build(&order, &RefundRequest::full("r1")).unwrap();
    assert_eq!(plan.total, usd(8_000), "the shopper only paid 80.00");
    assert_eq!(plan.subsidy_reclaimed, usd(3_000));
    assert_eq!(plan.funders[0].funder, AccountId::from_string("acct_employer"));
    assert_eq!(plan.shops[0].gross, usd(11_000), "the shop gives back everything it got");
    plan.verify().unwrap();
}

#[test]
fn multi_tender_refunds_return_to_each_instrument() {
    let gift = TenderOffer::gift_card(GiftCardId::from_string("gc_1"), "****1234", usd(3_000));
    let order = build_order(
        &[("shop-1", 10_000, 1)],
        vec![],
        vec![gift, card_offer()],
        PlatformFeePolicy::none(),
    );
    assert_eq!(order.tenders.len(), 2);

    let plan = RefundPlan::build(&order, &RefundRequest::full("r1")).unwrap();
    assert_eq!(plan.total, usd(11_000));
    assert_eq!(plan.amount_for_tender(0), usd(3_000), "gift card gets its balance back");
    assert_eq!(plan.amount_for_tender(1), usd(8_000));
    plan.verify().unwrap();
}

#[test]
fn partial_refund_with_gift_card_is_prorated_across_tenders() {
    let gift = TenderOffer::gift_card(GiftCardId::from_string("gc_1"), "****1234", usd(3_000));
    let order = build_order(
        &[("shop-1", 5_000, 2)],
        vec![],
        vec![gift, card_offer()],
        PlatformFeePolicy::none(),
    );
    let line_id = order.quote.lines[0].line_id.clone();

    let plan = RefundPlan::build(
        &order,
        &RefundRequest::lines("r1", vec![RefundLineRequest { line_id, quantity: 1 }]),
    )
    .unwrap();

    assert_eq!(plan.total, usd(5_500));
    let returned = plan.amount_for_tender(0).try_add(plan.amount_for_tender(1)).unwrap();
    assert_eq!(returned, usd(5_500));
    assert!(plan.amount_for_tender(0).is_positive(), "gift card shares the refund");
}

#[test]
fn platform_fee_is_returned_proportionally() {
    let order = build_order(
        &[("shop-1", 10_000, 2)],
        vec![],
        vec![card_offer()],
        PlatformFeePolicy::percentage(1_000),
    );
    assert_eq!(order.settlement.shops[0].platform_fee, usd(2_000));
    let line_id = order.quote.lines[0].line_id.clone();

    let plan = RefundPlan::build(
        &order,
        &RefundRequest::lines("r1", vec![RefundLineRequest { line_id, quantity: 1 }]),
    )
    .unwrap();
    // Half the order is returned, so half the commission goes back.
    assert_eq!(plan.shops[0].platform_fee_returned, usd(1_000));
    assert_eq!(plan.shops[0].net, usd(10_000));
}

#[test]
fn flat_amount_refunds_are_prorated_across_shops() {
    let order = build_order(
        &[("shop-1", 6_000, 1), ("shop-2", 4_000, 1)],
        vec![],
        vec![card_offer()],
        PlatformFeePolicy::none(),
    );

    let plan = RefundPlan::build(&order, &RefundRequest::amount("r1", usd(1_000))).unwrap();
    assert_eq!(plan.total, usd(1_000));
    assert_eq!(plan.shops.len(), 2);
    plan.verify().unwrap();
}

#[test]
fn refunding_more_than_was_captured_is_rejected() {
    let order = build_order(
        &[("shop-1", 1_000, 1)],
        vec![],
        vec![card_offer()],
        PlatformFeePolicy::none(),
    );
    assert!(RefundPlan::build(&order, &RefundRequest::amount("r1", usd(999_999))).is_err());
}

#[test]
fn a_second_full_refund_finds_nothing_left() {
    let mut order = build_order(
        &[("shop-1", 1_000, 1)],
        vec![],
        vec![card_offer()],
        PlatformFeePolicy::none(),
    );
    let plan = RefundPlan::build(&order, &RefundRequest::full("r1")).unwrap();
    order.record_refund(RefundRecord::new(plan, &RefundRequest::full("r1"))).unwrap();
    assert_eq!(order.status, OrderStatus::Refunded);
    assert!(RefundPlan::build(&order, &RefundRequest::full("r2")).is_err());
}

// Figures that stay put.

#[test]
fn orders_never_reprice() {
    let mut order = order_with(&[("shop-1", 6_000), ("shop-2", 4_000)]);
    let quote = order.quote.clone();
    let first = order.fulfillment_groups[0].id.clone();
    order.transition_to(OrderStatus::Authorized).unwrap();
    order.record_capture(usd(10_000)).unwrap();
    order.set_fulfillment_status(&first, FulfillmentStatus::Processing).unwrap();
    let request = RefundRequest::amount("r-1", usd(1_000));
    let plan = RefundPlan::build(&order, &request).unwrap();
    order.record_refund(RefundRecord::new(plan, &request)).unwrap();
    assert_eq!(order.total(), usd(10_000));
    assert_eq!(order.quote.totals, quote.totals);
    assert_eq!(order.quote.lines.len(), quote.lines.len());
    for (before, after) in quote.lines.iter().zip(order.quote.lines.iter()) {
        assert_eq!(before.customer_total, after.customer_total);
        assert_eq!(before.tax, after.tax);
    }
}

#[test]
fn shipments_share_the_order_total() {
    let order = order_with(&[("shop-1", 6_000), ("shop-2", 4_000), ("shop-3", 1)]);
    let mut amounts = Vec::new();
    for group in order.fulfillment_groups.iter() {
        amounts.push(order.amount_for_fulfillment_group(&group.id).unwrap());
    }
    assert_eq!(amounts.len(), 3);
    assert_eq!(sum(&amounts), order.total());
}

#[test]
fn fees_stop_at_the_gross() {
    let policy = PlatformFeePolicy::percentage(1_000).plus_fixed(usd(30));
    assert_eq!(policy.fee_for(usd(1_000), usd(0)).unwrap(), usd(130));
    assert_eq!(policy.fee_for(usd(20), usd(0)).unwrap(), usd(20));
}

#[test]
fn captures_beyond_the_hold_change_nothing() {
    let mut payment = payment();
    payment
        .record_authorization(&authorization(10_000, 0, TransactionStatus::Authorized))
        .unwrap();
    payment.confirm().unwrap();
    payment.record_capture(&capture(4_000), None).unwrap();
    let before = payment.clone();
    assert!(matches!(payment.record_capture(&capture(6_001), None), Err(Error::Internal(_))));
    assert_eq!(payment, before);
    payment.record_capture(&capture(6_000), None).unwrap();
    assert_eq!(payment.status, PaymentStatus::Captured);
}

#[test]
fn refunds_are_recorded_once_under_their_key() {
    let mut payment = payment();
    payment
        .record_authorization(&authorization(10_000, 10_000, TransactionStatus::Captured))
        .unwrap();
    assert_eq!(payment.refund_reference("r-1:0"), None);
    payment.record_refund_under(usd(4_000), "r-1:0", "re_1").unwrap();
    assert_eq!(payment.amount_refunded, usd(4_000));
    assert_eq!(payment.refund_reference("r-1:0").unwrap(), "re_1");
    let before = payment.clone();
    payment.record_refund_under(usd(4_000), "r-1:0", "re_2").unwrap();
    assert_eq!(payment, before);
    assert!(payment.record_refund_under(usd(6_001), "r-2:0", "re_3").is_err());
    assert_eq!(payment, before);
    payment.record_refund_under(usd(6_000), "r-2:0", "re_3").unwrap();
    assert_eq!(payment.amount_refunded, usd(10_000));
}

#[test]
fn cards_are_good_through_the_last_second_of_their_month() {
    let at = |seconds: i64| Timestamp { seconds, nanos: 0 };
    // 1 March 2024, after a leap day, and 1 January 2031.
    let leap = CardSummary::new("visa", "4242", 2, 2024).unwrap();
    assert!(!leap.is_expired(at(1_709_251_199)));
    assert!(leap.is_expired(at(1_709_251_200)));
    let last = CardSummary::new("visa", "4242", 12, 2030).unwrap();
    assert!(!last.is_expired(at(1_924_991_999)));
    assert!(last.is_expired(at(1_924_992_000)));
}
