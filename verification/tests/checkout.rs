use payments::address::{Address, CountryCode};
use payments::cart::{Cart, CartItem, FulfillmentKey};
use payments::checkout::flow::CheckoutStep;
use payments::checkout::reconcile::{
    fail_order, fail_payment, newly_captured, OrderWebhookHandler, WebhookAction,
};
use payments::checkout::stored_value::{
    credit_owner, redeem_credit, redeem_gift_card, refund_credit, refund_gift_card, release_credit,
    release_gift_card, stored_value_offers,
};
use payments::checkout::transfers::{fee_for, shop_share, transfers_for};
use payments::checkout::{
    capture_shares, check_cancel, confirm_payment, find_payment, finish_cancel, finish_capture,
    finish_refund, key_of_refund, plan_refund, resolve_discounts, risk_context, screen,
    shipment_amount, single_use, CheckoutConfig, CheckoutEngine, CheckoutRequest, CheckoutResult, Placement,
    RiskInputs,
};
use payments::error::{DeclineCode, Error};
use payments::fraud::{
    AllowAllFraudEngine, FraudEngine, FraudPolicy, RiskAssessment, RuleBasedFraudEngine,
};
use payments::gateway::mock::MockGateway;
use payments::gateway::registry::{GatewayRecord, GatewayRegistry};
use payments::gateway::{
    Capabilities, CaptureMode, GatewayEvent, GatewayEventKind, GatewayId, TransactionStatus,
};
use payments::ids::{AccountId, CartId, CustomerId, OrderId, ShopId};
use payments::ledger::{GiftCard, GiftCardStatus, ShopCreditAccount};
use payments::money::{Currency, Money};
use payments::order::{Order, OrderStatus};
use payments::payment::refund::{RefundLineRequest, RefundRequest};
use payments::payment::split::{PlatformFeePolicy, ShopAccounts};
use payments::payment::tender::{TenderKind, TenderOffer};
use payments::payment::{Payment, PaymentStatus};
use payments::pricing::{Discount, NoTaxCalculator, PricingEngine};
use payments::storage::memory::{
    InMemoryGiftCardRepository, InMemoryIdempotencyStore, InMemoryOrderRepository,
    InMemoryPaymentRepository, InMemoryShopCreditRepository,
};
use payments::storage::IdempotencyOutcome;
use payments::time::Timestamp;

fn usd(minor: i64) -> Money {
    Money::from_minor(minor, Currency::USD)
}

fn free(_key: &FulfillmentKey, _currency: Currency) -> Result<Money, Error> {
    Ok(usd(0))
}

fn card(token: &str) -> TenderOffer {
    TenderOffer::gateway(GatewayId::from_static("mock"), single_use(token), "visa •••• 4242")
}

fn cart_of(items: &[(&str, &str, i64, u32)]) -> Cart {
    let mut cart = Cart::for_customer(CustomerId::from_string("cus_1"), Currency::USD);
    cart.set_shipping_address(Address::new(CountryCode::US));
    for (shop, sku, price, quantity) in items {
        cart.add_item(CartItem::new(shop, sku, "Item", usd(*price), *quantity).unwrap()).unwrap();
    }
    cart.regroup_fulfillment(&free).unwrap();
    cart
}

fn request(cart: &Cart, token: &str) -> CheckoutRequest {
    CheckoutRequest::new(cart.id.clone(), "order-1").with_tender(card(token))
}

/// A shop on in-memory stores and the mock gateway.
struct Desk {
    orders: InMemoryOrderRepository,
    payments: InMemoryPaymentRepository,
    cards: InMemoryGiftCardRepository,
    credit: InMemoryShopCreditRepository,
    keys: InMemoryIdempotencyStore,
    gateway: MockGateway,
    engine: CheckoutEngine,
}

impl Desk {
    fn new(config: CheckoutConfig) -> Self {
        Desk::with_gateway(MockGateway::new(), config)
    }

    fn with_gateway(gateway: MockGateway, config: CheckoutConfig) -> Self {
        let record =
            GatewayRecord { id: gateway.id(), capabilities: gateway.capabilities().clone() };
        Desk {
            orders: InMemoryOrderRepository::new(),
            payments: InMemoryPaymentRepository::new(),
            cards: InMemoryGiftCardRepository::new(),
            credit: InMemoryShopCreditRepository::new(),
            keys: InMemoryIdempotencyStore::new(),
            gateway,
            engine: CheckoutEngine::new(GatewayRegistry::new().register(record))
                .with_config(config),
        }
    }

    fn account(&self, order: &Order, shop: &ShopId) -> Option<ShopCreditAccount> {
        let owner = credit_owner(order).unwrap();
        self.credit.get(&owner, shop, order.currency).cloned()
    }

    fn redeem(&mut self, order: &Order, index: usize) -> Result<(), Error> {
        match &order.tenders[index].kind {
            TenderKind::GiftCard { gift_card_id, .. } => {
                let found = self.cards.get(gift_card_id).cloned();
                match redeem_gift_card(order, index, gift_card_id, found, Timestamp::now())? {
                    Some(card) => self.cards.save(card),
                    None => Ok(()),
                }
            }
            TenderKind::ShopCredit { shop_id } => {
                let found = self.account(order, shop_id);
                match redeem_credit(order, index, shop_id, found)? {
                    Some(account) => self.credit.save(account),
                    None => Ok(()),
                }
            }
            TenderKind::Gateway { .. } => Ok(()),
        }
    }

    fn release(&mut self, order: &Order, index: usize) -> Result<(), Error> {
        match &order.tenders[index].kind {
            TenderKind::GiftCard { gift_card_id, .. } => {
                let Some(card) = self.cards.get(gift_card_id).cloned() else { return Ok(()) };
                match release_gift_card(order, card, Timestamp::now())? {
                    Some(card) => self.cards.save(card),
                    None => Ok(()),
                }
            }
            TenderKind::ShopCredit { shop_id } => {
                let Some(account) = self.account(order, shop_id) else { return Ok(()) };
                match release_credit(order, account)? {
                    Some(account) => self.credit.save(account),
                    None => Ok(()),
                }
            }
            TenderKind::Gateway { .. } => Ok(()),
        }
    }

    fn authorize(
        &mut self,
        cart: &Cart,
        placement: &mut Placement,
        index: usize,
        request: &CheckoutRequest,
    ) -> Result<(), Error> {
        let Some(plan) = self.engine.plan_charge(cart, &placement.order, index, request)? else {
            return Ok(());
        };
        let mut payment = plan.payment;
        match self.gateway.authorize(&plan.charge, Timestamp::now()) {
            Ok(response) => {
                payment.record_authorization(&response)?;
                self.payments.save(payment.clone())?;
                placement.accept(payment);
                Ok(())
            }
            Err(error) => {
                payment.record_failure(&error.to_text());
                self.payments.save(payment).ok();
                Err(error)
            }
        }
    }

    fn open(
        &self,
        cart: &Cart,
        discounts: &[Discount],
        request: &CheckoutRequest,
    ) -> Result<(Placement, RiskAssessment), Error> {
        cart.validate()?;
        let quote = PricingEngine::new(NoTaxCalculator).quote(cart, discounts)?;
        let risk = AllowAllFraudEngine.assess(&risk_context(cart, &quote, &request.risk))?;
        screen(&risk)?;
        let cards: Vec<Option<GiftCard>> =
            cart.gift_card_codes.iter().map(|code| self.cards.find_by_code(code).cloned()).collect();
        let mut accounts: Vec<Option<ShopCreditAccount>> = Vec::new();
        if let Some(owner) = &cart.customer_id {
            for totals in &quote.shop_totals {
                accounts.push(self.credit.get(owner, &totals.shop_id, cart.currency).cloned());
            }
        }
        let mut offers = stored_value_offers(cart, &quote, &cards, &accounts, Timestamp::now());
        offers.extend(request.tenders.iter().cloned());
        Ok((Placement::new(self.engine.place(cart, quote, &offers)?), risk))
    }

    fn act(
        &mut self,
        step: CheckoutStep,
        cart: &Cart,
        request: &CheckoutRequest,
        placement: &mut Placement,
    ) -> Result<(), Error> {
        match step {
            CheckoutStep::SaveOrder => self.orders.save(placement.order.clone()),
            CheckoutStep::Redeem(index) => self.redeem(&placement.order, index),
            CheckoutStep::Authorize(index) => self.authorize(cart, placement, index, request),
            CheckoutStep::Conclude => {
                placement.conclude()?;
                self.orders.save(placement.order.clone())
            }
            CheckoutStep::Complete => {
                self.keys.complete(&request.claim_key(), placement.order.id.as_str())
            }
            CheckoutStep::Void(index) => {
                match self.engine.plan_rollback(&placement.payments[index]) {
                    Some(cancel) => self.gateway.cancel(&cancel).map(|_| ()),
                    None => Ok(()),
                }
            }
            CheckoutStep::Release(index) => self.release(&placement.order, index),
            CheckoutStep::SaveFailed => {
                placement.abandon()?;
                self.orders.save(placement.order.clone())
            }
            _ => unreachable!(),
        }
    }

    fn checkout(
        &mut self,
        cart: &Cart,
        discounts: &[Discount],
        request: &CheckoutRequest,
    ) -> Result<CheckoutResult, Error> {
        let mut opened: Option<(Placement, RiskAssessment)> = None;
        let mut placed: Option<OrderId> = None;
        let mut failure: Option<Error> = None;
        let mut step = CheckoutStep::first();
        while !step.is_over() {
            if step == CheckoutStep::Claim {
                let answer = self.keys.begin(&request.claim_key(), &request.fingerprint());
                step = CheckoutStep::claimed(&answer);
                match request.placed_before(answer) {
                    Ok(before) => placed = before,
                    Err(error) => failure = Some(error),
                }
                continue;
            }
            let done = match step {
                CheckoutStep::Open => self.open(cart, discounts, request).map(|order| {
                    opened = Some(order);
                }),
                CheckoutStep::Replay => {
                    let id = placed.clone().unwrap();
                    let order = self.orders.get(&id).unwrap().clone();
                    let placement = Placement::replayed(order, self.payments_of(&id));
                    opened = Some((placement, RiskAssessment::allow()));
                    Ok(())
                }
                CheckoutStep::Forget => {
                    self.keys.abort(&request.claim_key());
                    Ok(())
                }
                _ => self.act(step, cart, request, &mut opened.as_mut().unwrap().0),
            };
            let succeeded = done.is_ok();
            if let Err(error) = done {
                if failure.is_none() {
                    failure = Some(error);
                }
            }
            let (tenders, payments) = match &opened {
                Some((placement, _)) => (placement.order.tenders.len(), placement.payments.len()),
                None => (0, 0),
            };
            step = step.next(succeeded, tenders, payments);
        }
        match failure {
            Some(error) if step == CheckoutStep::Failed => Err(error),
            _ => {
                let (placement, risk) = opened.unwrap();
                Ok(placement.finish(risk))
            }
        }
    }

    fn payments_of(&self, order: &OrderId) -> Vec<Payment> {
        self.payments.list_for_order(order).into_iter().cloned().collect()
    }

    fn confirm(&mut self, order: &OrderId) {
        for mut payment in self.payments_of(order) {
            if confirm_payment(&mut payment).unwrap() {
                self.payments.save(payment).unwrap();
            }
        }
    }

    fn capture(&mut self, id: &OrderId, amount: Money) -> Result<Order, Error> {
        let mut order = self.orders.get(id).unwrap().clone();
        let payments = self.payments_of(id);
        let shares = capture_shares(&order, &payments, amount)?;
        let mut total = Money::zero(order.currency);
        for (mut payment, share) in payments.into_iter().zip(shares) {
            let now = Timestamp::now();
            let Some(capture) = self.engine.plan_capture(&payment, share, now)? else { continue };
            let response = self.gateway.capture(&capture, now)?;
            payment.record_capture(&response, None)?;
            self.payments.save(payment)?;
            total = total.try_add(share)?;
        }
        if finish_capture(&mut order, total)? {
            self.orders.save(order.clone())?;
        }
        Ok(order)
    }

    fn cancel(&mut self, id: &OrderId) -> Result<Order, Error> {
        let mut order = self.orders.get(id).unwrap().clone();
        let payments = self.payments_of(id);
        check_cancel(&order, &payments)?;
        for mut payment in payments {
            let Some(cancel) = self.engine.plan_cancel(&payment)? else { continue };
            self.gateway.cancel(&cancel)?;
            payment.record_cancellation()?;
            self.payments.save(payment)?;
        }
        for index in 0..order.tenders.len() {
            self.release(&order, index)?;
        }
        finish_cancel(&mut order)?;
        self.orders.save(order.clone())?;
        Ok(order)
    }

    fn refund(&mut self, id: &OrderId, request: &RefundRequest) -> Result<Order, Error> {
        let mut order = self.orders.get(id).unwrap().clone();
        let Some(plan) = plan_refund(&order, request)? else { return Ok(order) };
        let payments = self.payments_of(id);
        let mut references = Vec::new();
        for tender in &plan.tenders {
            match &tender.kind {
                TenderKind::Gateway { .. } => {
                    let at = find_payment(&payments, tender.tender_index)?;
                    let mut payment = payments[at].clone();
                    let key = key_of_refund(request, tender.tender_index);
                    if let Some(reference) = payment.refund_reference(&key) {
                        references.push(reference);
                        continue;
                    }
                    let refund = self.engine.plan_gateway_refund(request, tender, &payment)?;
                    let reference = self.gateway.refund(&refund)?.refund_reference;
                    payment.record_refund_under(tender.amount, &key, &reference)?;
                    self.payments.save(payment)?;
                    references.push(reference);
                }
                TenderKind::GiftCard { gift_card_id, .. } => {
                    let found = self.cards.get(gift_card_id).cloned();
                    let refunded = refund_gift_card(
                        &order,
                        tender.tender_index,
                        tender.amount,
                        gift_card_id,
                        &request.idempotency_key,
                        found,
                        Timestamp::now(),
                    )?;
                    if let Some(card) = refunded {
                        self.cards.save(card)?;
                    }
                }
                TenderKind::ShopCredit { shop_id } => {
                    let found = self.account(&order, shop_id);
                    let key = request.idempotency_key.as_str();
                    let index = tender.tender_index;
                    let refunded =
                        refund_credit(&order, index, tender.amount, shop_id, key, found)?;
                    if let Some(account) = refunded {
                        self.credit.save(account)?;
                    }
                }
            }
        }
        finish_refund(&mut order, plan, request, references)?;
        self.orders.save(order.clone())?;
        Ok(order)
    }
}

fn stocked() -> (Desk, Cart, GiftCard) {
    let mut desk = Desk::new(CheckoutConfig::default());
    let gift = GiftCard::issue("GIFT-2024-ABCD", usd(3_000)).unwrap();
    desk.cards.save(gift.clone()).unwrap();
    let mut account = ShopCreditAccount::new(
        CustomerId::from_string("cus_1"),
        ShopId::from_string("bookstore"),
        Currency::USD,
    );
    account.grant(usd(1_000), "loyalty reward", None).unwrap();
    desk.credit.save(account).unwrap();
    let mut cart =
        cart_of(&[("bookstore", "BOOK", 3_000, 2), ("record-shop", "LP", 4_000, 1)]);
    cart.add_gift_card("GIFT-2024-ABCD");
    cart.set_apply_shop_credit(true);
    (desk, cart, gift)
}

fn credit_balance(desk: &Desk) -> Money {
    desk.credit
        .get(
            &CustomerId::from_string("cus_1"),
            &ShopId::from_string("bookstore"),
            Currency::USD,
        )
        .unwrap()
        .balance()
}

#[test]
fn a_card_checkout_is_paid_at_once() {
    let mut desk = Desk::new(CheckoutConfig::default());
    let cart = cart_of(&[("shop-1", "sku", 10_000, 1)]);
    let result = desk.checkout(&cart, &[], &request(&cart, "tok_visa")).unwrap();
    assert_eq!(result.order.status, OrderStatus::Paid);
    assert_eq!(result.payments.len(), 1);
    assert_eq!(result.payments[0].status, PaymentStatus::Captured);
    assert_eq!(result.payments[0].idempotency_key, "order-1:tender:0");
    assert!(!result.requires_action());
    assert_eq!(result.order.payments.len(), 1);
    let stored = desk.orders.get(&result.order.id).unwrap();
    assert_eq!(stored.amount_captured, usd(10_000));
}

#[test]
fn several_tenders_fund_one_order() {
    let (mut desk, cart, gift) = stocked();
    let result = desk.checkout(&cart, &[], &request(&cart, "tok_visa")).unwrap();
    let amounts: Vec<Money> = result.order.tenders.iter().map(|tender| tender.amount).collect();
    assert_eq!(amounts, vec![usd(3_000), usd(1_000), usd(6_000)]);
    assert_eq!(result.order.status, OrderStatus::Paid);
    assert!(desk.cards.get(&gift.id).unwrap().balance.is_zero());
    assert!(credit_balance(&desk).is_zero());
}

#[test]
fn a_declined_card_gives_stored_value_back() {
    let (mut desk, cart, gift) = stocked();
    let error = desk.checkout(&cart, &[], &request(&cart, "tok_decline")).unwrap_err();
    assert!(matches!(error, Error::Declined { code: DeclineCode::GenericDecline, .. }));
    let kept = desk.cards.get(&gift.id).unwrap();
    assert_eq!(kept.balance, usd(3_000));
    assert_eq!(kept.status, GiftCardStatus::Active);
    assert_eq!(credit_balance(&desk), usd(1_000));
    let orders = desk.orders.list_all();
    assert_eq!(orders.len(), 1);
    assert_eq!(orders[0].status, OrderStatus::Failed);
}

#[test]
fn a_second_declined_card_releases_the_first() {
    let mut desk = Desk::new(CheckoutConfig::default());
    let cart = cart_of(&[("shop-1", "sku", 10_000, 1)]);
    let request = CheckoutRequest::new(cart.id.clone(), "order-1")
        .holding_funds()
        .with_tender(card("tok_visa").capped_at(usd(4_000)))
        .with_tender(card("tok_insufficient"));
    let error = desk.checkout(&cart, &[], &request).unwrap_err();
    assert!(matches!(error, Error::Declined { code: DeclineCode::InsufficientFunds, .. }));
    let id = desk.orders.list_all()[0].id.clone();
    let held: Vec<String> = desk
        .payments_of(&id)
        .into_iter()
        .filter_map(|payment| payment.transaction_id)
        .collect();
    assert_eq!(held.len(), 1);
    let state = desk.gateway.fetch_transaction(&held[0]).unwrap();
    assert_eq!(state.status, TransactionStatus::Canceled);
}

#[test]
fn checkouts_that_need_the_shopper_stay_pending() {
    let mut desk = Desk::new(CheckoutConfig::default());
    let cart = cart_of(&[("shop-1", "sku", 100, 1)]);
    let result = desk.checkout(&cart, &[], &request(&cart, "tok_3ds")).unwrap();
    assert!(result.requires_action());
    assert_eq!(result.order.status, OrderStatus::PendingPayment);
}

#[test]
fn shipments_are_captured_as_they_are_delivered() {
    let mut config = CheckoutConfig::default();
    config.capture_mode = CaptureMode::Manual;
    let mut desk = Desk::new(config);
    let cart = cart_of(&[("shop-1", "a", 6_000, 1), ("shop-2", "b", 4_000, 1)]);
    let result = desk.checkout(&cart, &[], &request(&cart, "tok_visa")).unwrap();
    let id = result.order.id.clone();
    assert_eq!(result.order.status, OrderStatus::Authorized);

    // Nothing is captured before the merchant approves it.
    assert!(desk.capture(&id, usd(6_000)).is_err());
    desk.confirm(&id);

    let first = result.order.fulfillment_groups[0].id.clone();
    let due = shipment_amount(&result.order, &first).unwrap();
    assert_eq!(due, usd(6_000));
    let order = desk.capture(&id, due).unwrap();
    assert_eq!(order.status, OrderStatus::PartiallyCaptured);
    let order = desk.capture(&id, usd(4_000)).unwrap();
    assert_eq!(order.status, OrderStatus::Paid);
    let error = desk.capture(&id, usd(1)).unwrap_err();
    assert_eq!(
        error.to_text(),
        Error::validation(
            "cannot capture 0.01 USD: only 0.00 USD is held across this order's payments"
        )
        .to_text()
    );
}

#[test]
fn captures_are_spread_over_the_holds() {
    let mut desk = Desk::new(CheckoutConfig::default());
    let cart = cart_of(&[("shop-1", "sku", 10_000, 1)]);
    let request = CheckoutRequest::new(cart.id.clone(), "order-1")
        .holding_funds()
        .with_tender(card("tok_visa").capped_at(usd(2_500)))
        .with_tender(card("tok_mc"));
    let result = desk.checkout(&cart, &[], &request).unwrap();
    let shares = capture_shares(&result.order, &result.payments, usd(1_001)).unwrap();
    assert_eq!(Money::sum(&shares, Currency::USD).unwrap(), usd(1_001));
    assert_eq!(shares, vec![usd(250), usd(751)]);
}

#[test]
fn cancelling_gives_everything_back() {
    let (mut desk, cart, gift) = stocked();
    let request = request(&cart, "tok_visa").holding_funds();
    let result = desk.checkout(&cart, &[], &request).unwrap();
    let order = desk.cancel(&result.order.id).unwrap();
    assert_eq!(order.status, OrderStatus::Canceled);
    assert!(order.amount_captured.is_zero());
    assert_eq!(desk.cards.get(&gift.id).unwrap().balance, usd(3_000));
    assert_eq!(credit_balance(&desk), usd(1_000));
}

#[test]
fn captured_orders_are_not_cancelled() {
    let mut desk = Desk::new(CheckoutConfig::default());
    let cart = cart_of(&[("shop-1", "sku", 1_000, 1)]);
    let result = desk.checkout(&cart, &[], &request(&cart, "tok_visa")).unwrap();
    assert!(matches!(desk.cancel(&result.order.id), Err(Error::Validation(_))));
}

#[test]
fn refunds_return_to_every_instrument_once() {
    let (mut desk, cart, gift) = stocked();
    let result = desk.checkout(&cart, &[], &request(&cart, "tok_visa")).unwrap();
    let id = result.order.id.clone();
    let book = result.order.quote.lines[0].line_id.clone();
    let asked = RefundRequest::lines(
        "refund-1",
        vec![RefundLineRequest { line_id: book, quantity: 1 }],
    );
    let order = desk.refund(&id, &asked).unwrap();
    assert_eq!(order.refunds.len(), 1);
    assert_eq!(order.refunds[0].plan.total, usd(3_000));
    assert_eq!(order.refunds[0].gateway_references.len(), 1);
    let back = desk.cards.get(&gift.id).unwrap().balance;
    let credit = credit_balance(&desk);
    let by_card = order.refunds[0].plan.amount_for_tender(2);
    assert_eq!(
        Money::sum(&[back, credit, by_card], Currency::USD).unwrap(),
        usd(3_000)
    );

    // The same key refunds nothing more.
    let again = desk.refund(&id, &asked).unwrap();
    assert_eq!(again.refunds.len(), 1);
    assert_eq!(desk.cards.get(&gift.id).unwrap().balance, back);
}

#[test]
fn connected_accounts_get_their_share() {
    let mut config = CheckoutConfig::default();
    config.use_connected_accounts = true;
    config.platform_fee = PlatformFeePolicy::percentage(1_000);
    config.accounts = ShopAccounts::new()
        .with(ShopId::from_string("shop-1"), AccountId::from_string("acct_1"));
    let desk = Desk::new(config);
    let cart = cart_of(&[("shop-1", "a", 6_000, 1), ("shop-2", "b", 4_000, 1)]);
    let quote = PricingEngine::new(NoTaxCalculator).quote(&cart, &[]).unwrap();
    let order = desk.engine.place(&cart, quote, &[card("tok_visa")]).unwrap();
    assert_eq!(order.status, OrderStatus::PendingPayment);
    assert_eq!(
        shop_share(&order, &ShopId::from_string("shop-1"), usd(10_000)).unwrap(),
        usd(6_000)
    );
    assert_eq!(fee_for(&order, usd(10_000)).unwrap(), usd(1_000));
    let transfers = transfers_for(&order, usd(10_000)).unwrap();
    assert_eq!(transfers.len(), 2);
    assert_eq!(transfers[0].amount, usd(5_400));
    assert_eq!(transfers[0].destination.as_str(), "acct_1");
    assert_eq!(transfers[1].amount, usd(3_600));

    let plan = desk.engine.plan_charge(&cart, &order, 0, &request(&cart, "tok_visa"));
    let charge = plan.unwrap().unwrap().charge;
    assert_eq!(charge.transfers, transfers);
    assert_eq!(charge.application_fee, Some(usd(1_000)));
    assert_eq!(charge.description, Some(format!("Order {}", order.id.as_str())));
}

#[test]
fn blocked_checkouts_are_declined_as_fraud() {
    let cart = cart_of(&[("shop-1", "a", 6_000, 1)]);
    let quote = PricingEngine::new(NoTaxCalculator).quote(&cart, &[]).unwrap();
    let inputs = RiskInputs {
        attempts_last_hour: 99,
        distinct_instruments_last_hour: 99,
        ..Default::default()
    };
    let context = risk_context(&cart, &quote, &inputs);
    assert_eq!(context.shipping_country, Some(CountryCode::US));
    let risk = RuleBasedFraudEngine::with_policy(FraudPolicy::default()).assess(&context).unwrap();
    match screen(&risk) {
        Err(Error::Declined { code: DeclineCode::Fraudulent, message }) => {
            assert_eq!(message, risk.summary());
        }
        other => panic!("expected a block, got {other:?}"),
    }
}

#[test]
fn unknown_codes_are_left_out() {
    let automatic = vec![Discount::amount_off("AUTO", "Welcome", usd(100))];
    let found = vec![None, Some(Discount::amount_off("TEN", "$10 off", usd(1_000)))];
    let discounts = resolve_discounts(automatic, found);
    assert_eq!(discounts.len(), 2);
    assert_eq!(discounts[1].description, "$10 off");
}

#[test]
fn lost_gift_cards_stop_the_checkout() {
    let (desk, cart, gift) = stocked();
    let quote = PricingEngine::new(NoTaxCalculator).quote(&cart, &[]).unwrap();
    let offers =
        stored_value_offers(&cart, &quote, &vec![Some(gift.clone())], &vec![], Timestamp::now());
    assert_eq!(offers.len(), 1);
    let order =
        desk.engine.place(&cart, quote, &[offers[0].clone(), card("tok_visa")]).unwrap();
    let lost = redeem_gift_card(&order, 0, &gift.id, None, Timestamp::now());
    assert!(matches!(lost, Err(Error::NotFound { kind: "gift card", .. })));

    // Spending twice under the same order changes nothing.
    let spent =
        redeem_gift_card(&order, 0, &gift.id, Some(gift.clone()), Timestamp::now()).unwrap();
    let again = redeem_gift_card(&order, 0, &gift.id, spent, Timestamp::now()).unwrap();
    assert!(again.is_none());
}

#[test]
fn tenders_without_a_payment_are_reported() {
    let error = find_payment(&vec![], 3).unwrap_err();
    assert!(matches!(&error, Error::Internal(message) if message == "no payment found for tender 3"));
}

#[test]
fn failures_unwind_in_order() {
    let mut step = CheckoutStep::Authorize(1).next(false, 2, 1);
    let mut seen = vec![];
    while !step.is_over() {
        seen.push(step);
        step = step.next(true, 2, 1);
    }
    assert_eq!(
        seen,
        vec![
            CheckoutStep::Void(0),
            CheckoutStep::Release(0),
            CheckoutStep::Release(1),
            CheckoutStep::SaveFailed,
            CheckoutStep::Forget,
        ]
    );
    assert_eq!(step, CheckoutStep::Failed);
}

fn event(kind: GatewayEventKind, transaction: Option<&str>) -> GatewayEvent {
    GatewayEvent {
        provider_event_id: "evt_1".into(),
        gateway: GatewayId::from_static("mock"),
        kind,
        transaction_id: transaction.map(|id| id.to_owned()),
        amount: None,
        occurred_at: Timestamp::now(),
        raw: None,
    }
}

#[test]
fn webhooks_reconcile_payments() {
    let mut desk = Desk::new(CheckoutConfig::default());
    let cart = cart_of(&[("shop-1", "sku", 100, 1)]);
    let result = desk.checkout(&cart, &[], &request(&cart, "tok_3ds")).unwrap();
    let handler = OrderWebhookHandler::new(desk.engine.gateways().clone());
    let mut payment = result.payments[0].clone();

    let captured = event(GatewayEventKind::PaymentCaptured, payment.transaction_id.as_deref());
    assert_eq!(handler.handle(&captured, None).unwrap(), WebhookAction::Acknowledge);
    assert_eq!(handler.handle(&captured, Some(&payment)).unwrap(), WebhookAction::Refetch);
    let expired = event(GatewayEventKind::AuthorizationExpired, Some("txn"));
    assert_eq!(handler.handle(&expired, Some(&payment)).unwrap(), WebhookAction::Expire);
    let refunded = event(GatewayEventKind::RefundSucceeded, Some("txn"));
    assert_eq!(handler.handle(&refunded, Some(&payment)).unwrap(), WebhookAction::Acknowledge);
    assert_eq!(newly_captured(usd(0), &payment).unwrap(), None);

    fail_payment(&mut payment);
    assert_eq!(payment.status, PaymentStatus::Failed);
    let mut order = result.order.clone();
    assert!(fail_order(&mut order));
    assert_eq!(order.status, OrderStatus::Failed);
}

#[test]
fn requests_start_empty() {
    let request = CheckoutRequest::new(CartId::from_string("cart_1"), "key");
    assert!(request.tenders.is_empty());
    assert_eq!(request.capture_mode, None);
    assert_eq!(request.holding_funds().capture_mode, Some(CaptureMode::Manual));
}

#[test]
fn tenders_are_redeemed_once() {
    let (mut desk, cart, gift) = stocked();
    let result = desk.checkout(&cart, &[], &request(&cart, "tok_visa")).unwrap();
    let left = desk.cards.get(&gift.id).unwrap().balance;
    let credit = credit_balance(&desk);
    for index in 0..result.order.tenders.len() {
        desk.redeem(&result.order, index).unwrap();
    }
    assert_eq!(desk.cards.get(&gift.id).unwrap().balance, left);
    assert_eq!(desk.cards.get(&gift.id).unwrap().redemptions.len(), 1);
    assert_eq!(credit_balance(&desk), credit);
}

#[test]
fn retried_checkouts_give_the_same_order_back() {
    let (mut desk, cart, gift) = stocked();
    let first = desk.checkout(&cart, &[], &request(&cart, "tok_visa")).unwrap();
    let left = desk.cards.get(&gift.id).unwrap().clone();
    let credit = credit_balance(&desk);
    let second = desk.checkout(&cart, &[], &request(&cart, "tok_visa")).unwrap();
    assert_eq!(second.order, first.order);
    assert_eq!(second.payments, first.payments);
    assert_eq!(second.payments[0].idempotency_key, "order-1:tender:2");
    assert_eq!(desk.orders.list_all().len(), 1);
    assert_eq!(desk.payments_of(&first.order.id).len(), 1);
    assert_eq!(desk.cards.get(&gift.id).unwrap(), &left);
    assert_eq!(credit_balance(&desk), credit);
}

#[test]
fn replays_still_ask_for_the_shopper() {
    let mut desk = Desk::new(CheckoutConfig::default());
    let cart = cart_of(&[("shop-1", "sku", 100, 1)]);
    let first = desk.checkout(&cart, &[], &request(&cart, "tok_3ds")).unwrap();
    let second = desk.checkout(&cart, &[], &request(&cart, "tok_3ds")).unwrap();
    assert_eq!(second.order.id, first.order.id);
    assert!(second.requires_action());
    assert_eq!(second.next_action, first.next_action);
}

#[test]
fn failed_checkouts_can_be_retried_under_their_key() {
    let (mut desk, cart, gift) = stocked();
    let error = desk.checkout(&cart, &[], &request(&cart, "tok_decline")).unwrap_err();
    assert!(matches!(error, Error::Declined { .. }));
    assert_eq!(desk.orders.list_all().len(), 1);
    let result = desk.checkout(&cart, &[], &request(&cart, "tok_visa")).unwrap();
    assert_eq!(result.order.status, OrderStatus::Paid);
    assert_eq!(desk.orders.list_all().len(), 2);
    assert!(desk.cards.get(&gift.id).unwrap().balance.is_zero());
}

#[test]
fn keys_belong_to_one_checkout_at_a_time() {
    let mut desk = Desk::new(CheckoutConfig::default());
    let cart = cart_of(&[("shop-1", "sku", 100, 1)]);
    let asked = request(&cart, "tok_visa");
    assert_eq!(asked.claim_key(), "checkout:order-1");
    assert_eq!(asked.fingerprint(), cart.id.as_str());
    desk.keys.begin(&asked.claim_key(), &asked.fingerprint()).unwrap();
    let error = desk.checkout(&cart, &[], &asked).unwrap_err();
    assert!(matches!(&error, Error::Conflict { id, .. } if id == "order-1"));
    assert!(desk.orders.list_all().is_empty());
    desk.keys.abort(&asked.claim_key());
    desk.checkout(&cart, &[], &asked).unwrap();

    let other = cart_of(&[("shop-1", "sku", 100, 1)]);
    let error = desk.checkout(&other, &[], &request(&other, "tok_visa")).unwrap_err();
    assert!(matches!(error, Error::IdempotencyConflict { .. }));
    assert_eq!(desk.orders.list_all().len(), 1);
}

#[test]
fn carts_that_cannot_be_priced_leave_their_key_free() {
    let mut desk = Desk::new(CheckoutConfig::default());
    let empty = Cart::new(Currency::USD);
    desk.checkout(&empty, &[], &request(&empty, "tok_visa")).unwrap_err();
    let answer = desk.keys.begin("checkout:order-1", empty.id.as_str()).unwrap();
    assert_eq!(answer, IdempotencyOutcome::Started);
}

#[test]
fn shop_credit_is_refunded_once_per_key() {
    let (mut desk, cart, _) = stocked();
    let result = desk.checkout(&cart, &[], &request(&cart, "tok_visa")).unwrap();
    let shop = ShopId::from_string("bookstore");
    let found = desk.account(&result.order, &shop);
    let account =
        refund_credit(&result.order, 1, usd(400), &shop, "r-1", found).unwrap().unwrap();
    assert_eq!(account.balance(), usd(400));
    let again =
        refund_credit(&result.order, 1, usd(400), &shop, "r-1", Some(account.clone())).unwrap();
    assert!(again.is_none());
    let more = refund_credit(&result.order, 1, usd(400), &shop, "r-2", Some(account)).unwrap();
    assert_eq!(more.unwrap().balance(), usd(800));
}

#[test]
fn gift_cards_are_refunded_once_per_key() {
    let (mut desk, cart, gift) = stocked();
    let order = desk.checkout(&cart, &[], &request(&cart, "tok_visa")).unwrap().order;
    let now = Timestamp::now();
    let found = desk.cards.get(&gift.id).cloned();
    let card = refund_gift_card(&order, 0, usd(500), &gift.id, "r-1", found, now).unwrap().unwrap();
    assert_eq!(card.balance, usd(500));
    let again =
        refund_gift_card(&order, 0, usd(500), &gift.id, "r-1", Some(card.clone()), now).unwrap();
    assert!(again.is_none());
    let more = refund_gift_card(&order, 0, usd(500), &gift.id, "r-2", Some(card), now).unwrap();
    assert_eq!(more.unwrap().balance, usd(1_000));
}

#[test]
fn refunds_that_stopped_half_way_can_be_retried() {
    let (mut desk, cart, gift) = stocked();
    let placed = desk.checkout(&cart, &[], &request(&cart, "tok_visa")).unwrap().order;
    let whole = RefundRequest::full("r-1");
    let mut interrupted = desk.orders.get(&placed.id).unwrap().clone();
    desk.refund(&placed.id, &whole).unwrap();
    let card = desk.cards.get(&gift.id).unwrap().clone();
    let credit = credit_balance(&desk);
    let payment = desk.payments_of(&placed.id)[0].clone();
    assert_eq!(card.balance, usd(3_000));
    assert_eq!(credit, usd(1_000));
    assert_eq!(payment.amount_refunded, usd(6_000));

    // Everything was sent, but the order was not saved.
    interrupted.version = desk.orders.get(&placed.id).unwrap().version + 1;
    desk.orders.save(interrupted).unwrap();
    let order = desk.refund(&placed.id, &whole).unwrap();
    assert_eq!(order.amount_refunded, usd(10_000));
    assert_eq!(order.refunds.len(), 1);
    assert_eq!(order.refunds[0].gateway_references.len(), 1);
    assert_eq!(desk.cards.get(&gift.id).unwrap(), &card);
    assert_eq!(credit_balance(&desk), credit);
    assert_eq!(desk.payments_of(&placed.id)[0], payment);
}

#[test]
fn every_unit_can_be_refunded_by_itself() {
    let mut desk = Desk::new(CheckoutConfig::default());
    let cart = cart_of(&[("shop-1", "sku", 400, 3)]);
    let promotion = Discount::amount_off("SUB", "s", usd(100))
        .funded_by(AccountId::from_string("acct_x"), "p");
    let placed = desk.checkout(&cart, &[promotion], &request(&cart, "tok_visa")).unwrap().order;
    assert_eq!(placed.amount_captured, usd(1_100));
    let line = placed.quote.lines[0].line_id.clone();
    let mut returned = Vec::new();
    let mut reclaimed = Vec::new();
    for key in ["u-1", "u-2", "u-3"] {
        let unit = vec![RefundLineRequest { line_id: line.clone(), quantity: 1 }];
        let order = desk.refund(&placed.id, &RefundRequest::lines(key, unit)).unwrap();
        let plan = order.refunds.last().unwrap().plan.clone();
        assert_eq!(plan.lines[0].merchant_amount.minor(), plan.total.minor() + plan.subsidy_reclaimed.minor());
        returned.push(plan.total.minor());
        reclaimed.push(plan.subsidy_reclaimed.minor());
    }
    assert_eq!(returned, vec![367, 367, 366]);
    assert_eq!(reclaimed, vec![34, 33, 33]);
    let order = desk.orders.get(&placed.id).unwrap();
    assert_eq!(order.amount_refunded, usd(1_100));
    assert_eq!(order.status, OrderStatus::Refunded);
}

#[test]
fn replayed_states_converge() {
    let mut desk = Desk::new(CheckoutConfig::default());
    let cart = cart_of(&[("shop-1", "sku", 2_500, 1)]);
    let result = desk.checkout(&cart, &[], &request(&cart, "tok_visa")).unwrap();
    let mut payment = result.payments[0].clone();
    let transaction = payment.transaction_id.clone().unwrap();
    let state = desk.gateway.fetch_transaction(&transaction).unwrap();
    let before = payment.amount_captured;
    payment.record_authorization(&state).unwrap();
    payment.record_authorization(&state).unwrap();
    assert_eq!(payment.status, PaymentStatus::Captured);
    assert_eq!(payment.captures.len(), 1);
    assert_eq!(newly_captured(before, &payment).unwrap(), None);
}

#[test]
fn capabilities_are_checked_before_the_gateway_is_asked() {
    let cart = cart_of(&[("shop-1", "sku", 10_000, 1)]);

    let mut capabilities = Capabilities::full();
    capabilities.multi_capture = false;
    capabilities.partial_refunds = false;
    let gateway = MockGateway::with_capabilities(capabilities);
    let mut desk = Desk::with_gateway(gateway, CheckoutConfig::default());
    let result =
        desk.checkout(&cart, &[], &request(&cart, "tok_visa").holding_funds()).unwrap();
    let id = result.order.id.clone();
    desk.confirm(&id);
    desk.capture(&id, usd(4_000)).unwrap();
    let error = desk.capture(&id, usd(6_000)).unwrap_err();
    assert!(matches!(error, Error::UnsupportedCapability { capability: "multi_capture", .. }));
    let error = desk.refund(&id, &RefundRequest::amount("r-1", usd(1_000))).unwrap_err();
    assert!(matches!(error, Error::UnsupportedCapability { capability: "partial_refunds", .. }));
    desk.refund(&id, &RefundRequest::amount("r-2", usd(4_000))).unwrap();

    let mut capabilities = Capabilities::full();
    capabilities.partial_capture = false;
    let gateway = MockGateway::with_capabilities(capabilities);
    let mut desk = Desk::with_gateway(gateway, CheckoutConfig::default());
    let result =
        desk.checkout(&cart, &[], &request(&cart, "tok_visa").holding_funds()).unwrap();
    let id = result.order.id.clone();
    desk.confirm(&id);
    let error = desk.capture(&id, usd(4_000)).unwrap_err();
    assert!(matches!(error, Error::UnsupportedCapability { capability: "partial_capture", .. }));
    assert_eq!(desk.capture(&id, usd(10_000)).unwrap().status, OrderStatus::Paid);

    let mut capabilities = Capabilities::full();
    capabilities.connected_accounts = false;
    let gateway = MockGateway::with_capabilities(capabilities);
    let config = CheckoutConfig { use_connected_accounts: true, ..CheckoutConfig::default() };
    let mut desk = Desk::with_gateway(gateway, config);
    let error = desk.checkout(&cart, &[], &request(&cart, "tok_visa")).unwrap_err();
    assert!(matches!(
        error,
        Error::UnsupportedCapability { capability: "connected_accounts", .. }
    ));
}
