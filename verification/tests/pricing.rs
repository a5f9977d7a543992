use payments::address::{Address, CountryCode, Jurisdiction};
use payments::cart::{Cart, CartItem, FulfillmentKey, FulfillmentMethod, FulfillmentSelection};
use payments::error::Error;
use payments::ids::{AccountId, DiscountId, LineItemId, ShopId};
use payments::money::{Currency, Money, Rounding};
use payments::pricing::discount::order_for_application;
use payments::pricing::{
    CurrencyConverter, Discount, DiscountConditions, DiscountFunding, DiscountScope, DiscountValue,
    ExchangeRate, NoTaxCalculator, PricingConfig, PricingEngine, RateTableTaxCalculator,
    StaticCurrencyConverter, TaxCalculator, TaxCode, TaxLineRequest, TaxMode, TaxRequest, TaxRule,
};
use payments::time::Timestamp;

fn usd(minor: i64) -> Money {
    Money::from_minor(minor, Currency::USD)
}

#[test]
fn funding_drives_the_taxable_base_by_default() {
    let merchant = Discount::percentage_off("SAVE10", "10% off", 1_000);
    assert!(merchant.reduces_taxable_base());

    let subsidised = Discount::amount_off("WELCOME", "Platform credit", usd(500))
        .funded_by(AccountId::from_string("acct_platform"), "welcome");
    assert!(!subsidised.reduces_taxable_base());
    assert!(subsidised.funding.is_subsidy());

    let overridden = subsidised.clone().reducing_taxable_base(true);
    assert!(overridden.reduces_taxable_base());
}

#[test]
fn amounts_are_capped_at_the_base_and_never_negative() {
    let discount = Discount::amount_off("BIG", "$50 off", usd(5_000));
    assert_eq!(discount.amount_for(usd(2_000), Rounding::HalfUp).unwrap(), usd(2_000));
    assert_eq!(discount.amount_for(usd(0), Rounding::HalfUp).unwrap(), usd(0));
}

#[test]
fn percentage_respects_its_cap() {
    let mut discount = Discount::percentage_off("HALF", "50% off", 5_000);
    discount.value =
        DiscountValue::Percentage { basis_points: 5_000, max_amount: Some(usd(1_000)) };
    assert_eq!(discount.amount_for(usd(10_000), Rounding::HalfUp).unwrap(), usd(1_000));
    assert_eq!(discount.amount_for(usd(1_000), Rounding::HalfUp).unwrap(), usd(500));
}

#[test]
fn conditions_gate_eligibility() {
    let now = Timestamp::now();
    let hour_ago = Timestamp { seconds: now.seconds - 3_600, nanos: now.nanos };
    let discount = Discount::amount_off("MIN", "$5 off orders over $50", usd(500)).with_conditions(
        DiscountConditions {
            minimum_subtotal: Some(usd(5_000)),
            ends_at: Some(hour_ago),
            ..Default::default()
        },
    );
    assert!(discount.check_eligibility(now, usd(6_000)).is_err(), "expired");

    let active = Discount::amount_off("MIN", "$5 off orders over $50", usd(500)).with_conditions(
        DiscountConditions { minimum_subtotal: Some(usd(5_000)), ..Default::default() },
    );
    assert!(active.check_eligibility(now, usd(4_999)).is_err(), "below minimum");
    assert!(active.check_eligibility(now, usd(5_000)).is_ok());
}

#[test]
fn redemption_cap_is_enforced() {
    let discount = Discount::percentage_off("ONCE", "one use", 1_000).with_conditions(
        DiscountConditions { max_redemptions: Some(1), redemptions: 1, ..Default::default() },
    );
    assert!(discount.check_eligibility(Timestamp::now(), usd(10_000)).is_err());
}

#[test]
fn scope_matching() {
    let shop = ShopId::from_string("shop-1");
    let line = LineItemId::from_string("li-1");
    let shop_scoped = Discount::percentage_off("S", "shop", 500)
        .with_scope(DiscountScope::Shop { shop_id: shop.clone() });
    assert!(shop_scoped.matches_line(&shop, &line, "tee"));
    assert!(!shop_scoped.matches_line(&ShopId::from_string("shop-2"), &line, "tee"));

    let sku_scoped = Discount::percentage_off("K", "sku", 500)
        .with_scope(DiscountScope::Skus { skus: vec!["tee".into()] });
    assert!(sku_scoped.matches_line(&shop, &line, "tee"));
    assert!(!sku_scoped.matches_line(&shop, &line, "mug"));
}

#[test]
fn ordering_puts_subsidies_last_and_rejects_exclusives() {
    let a = Discount::percentage_off("A", "a", 1_000).with_priority(10);
    let b = Discount::percentage_off("B", "b", 500).with_priority(1);
    let c = Discount::amount_off("C", "c", usd(100))
        .funded_by(AccountId::from_string("acct_x"), "p")
        .with_priority(1);

    let candidates = [a.clone(), b.clone(), c.clone()];
    let ordered = order_for_application(&candidates).unwrap();
    assert_eq!(ordered[0].code.as_deref(), Some("B"));
    assert_eq!(ordered[1].code.as_deref(), Some("C"));
    assert_eq!(ordered[2].code.as_deref(), Some("A"));

    let exclusive = Discount::percentage_off("X", "x", 2_000).exclusive();
    assert!(order_for_application(&[a, exclusive]).is_err());
}

#[test]
fn decimal_rates_are_exact() {
    let rate = ExchangeRate::from_decimal(Currency::USD, Currency::EUR, "0.92").unwrap();
    assert_eq!((rate.numerator, rate.denominator), (92, 100));

    let converted =
        rate.convert(Money::from_minor(10_000, Currency::USD), Rounding::HalfEven).unwrap();
    assert_eq!(converted, Money::from_minor(9_200, Currency::EUR));
}

#[test]
fn conversion_accounts_for_differing_exponents() {
    // 1 USD = 150 JPY. $12.34 -> 1851 JPY (0 decimals).
    let rate = ExchangeRate::from_decimal(Currency::USD, Currency::JPY, "150").unwrap();
    let converted =
        rate.convert(Money::from_minor(1_234, Currency::USD), Rounding::HalfEven).unwrap();
    assert_eq!(converted, Money::from_minor(1_851, Currency::JPY));
}

#[test]
fn markup_is_added_on_top() {
    let rate = ExchangeRate::from_decimal(Currency::USD, Currency::EUR, "1")
        .unwrap()
        .with_markup(200); // 2 %
    let converted =
        rate.convert(Money::from_minor(10_000, Currency::USD), Rounding::HalfEven).unwrap();
    assert_eq!(converted.minor(), 10_200);
}

#[test]
fn static_converter_derives_inverses() {
    let converter = StaticCurrencyConverter::new()
        .with(ExchangeRate::from_decimal(Currency::USD, Currency::EUR, "0.5").unwrap());

    let forward =
        converter.convert(Money::from_minor(1_000, Currency::USD), Currency::EUR).unwrap();
    assert_eq!(forward.minor(), 500);

    let backward =
        converter.convert(Money::from_minor(500, Currency::EUR), Currency::USD).unwrap();
    assert_eq!(backward.minor(), 1_000);

    let identity = converter.convert(Money::from_minor(1, Currency::USD), Currency::USD).unwrap();
    assert_eq!(identity.minor(), 1);

    assert!(converter.rate(Currency::GBP, Currency::JPY).is_err());
}

#[test]
fn rejects_invalid_rates() {
    assert!(ExchangeRate::new(Currency::USD, Currency::EUR, 1, 0).is_err());
    assert!(ExchangeRate::from_decimal(Currency::USD, Currency::EUR, "abc").is_err());
}

fn california() -> RateTableTaxCalculator {
    RateTableTaxCalculator::with_rules(vec![
        TaxRule::new("US Federal", "federal", Jurisdiction::country(CountryCode::US), 0),
        TaxRule::new("CA State Tax", "state", Jurisdiction::region(CountryCode::US, "CA"), 725),
        TaxRule::new(
            "SF District Tax",
            "district",
            Jurisdiction {
                country: CountryCode::US,
                region: Some("CA".into()),
                postal_code: Some("94107".into()),
            },
            113,
        ),
        TaxRule::new("CA Groceries", "state", Jurisdiction::region(CountryCode::US, "CA"), 0)
            .for_tax_code(TaxCode::new("food")),
    ])
}

fn request(mode: TaxMode, lines: Vec<TaxLineRequest>) -> TaxRequest {
    TaxRequest {
        currency: Currency::USD,
        mode,
        destination: Jurisdiction {
            country: CountryCode::US,
            region: Some("CA".into()),
            postal_code: Some("94107".into()),
        },
        origin: None,
        customer_tax_id: None,
        lines,
    }
}

#[test]
fn layers_stack_and_specific_rules_win() {
    let calculator = california();
    let quote = calculator
        .quote(&request(
            TaxMode::Exclusive,
            vec![TaxLineRequest {
                reference: "l1".into(),
                tax_code: TaxCode::STANDARD,
                taxable_base: usd(10_000),
            }],
        ))
        .unwrap();

    // 7.25 % state + 1.13 % district = 838 cents.
    assert_eq!(quote.lines[0].tax, usd(838));
    assert_eq!(quote.lines[0].components.len(), 3);
    let amounts: Vec<Money> = quote.lines[0].components.iter().map(|c| c.amount).collect();
    let sum = Money::sum(&amounts, Currency::USD).unwrap();
    assert_eq!(sum, quote.lines[0].tax);
}

#[test]
fn product_class_overrides_the_generic_rate() {
    let quote = california()
        .quote(&request(
            TaxMode::Exclusive,
            vec![TaxLineRequest {
                reference: "food".into(),
                tax_code: TaxCode::new("food"),
                taxable_base: usd(10_000),
            }],
        ))
        .unwrap();
    // State rate replaced by the 0 % grocery rate, district still applies.
    assert_eq!(quote.lines[0].tax, usd(113));
}

#[test]
fn exempt_lines_are_never_taxed() {
    let quote = california()
        .quote(&request(
            TaxMode::Exclusive,
            vec![TaxLineRequest {
                reference: "e".into(),
                tax_code: TaxCode::EXEMPT,
                taxable_base: usd(10_000),
            }],
        ))
        .unwrap();
    assert!(quote.lines[0].tax.is_zero());
}

#[test]
fn inclusive_pricing_extracts_rather_than_adds() {
    let calculator = RateTableTaxCalculator::with_rules(vec![TaxRule::new(
        "VAT",
        "vat",
        Jurisdiction::country(CountryCode::DE),
        1_900,
    )]);
    let quote = calculator
        .quote(&TaxRequest {
            currency: Currency::EUR,
            mode: TaxMode::Inclusive,
            destination: Jurisdiction::country(CountryCode::DE),
            origin: None,
            customer_tax_id: None,
            lines: vec![TaxLineRequest {
                reference: "l".into(),
                tax_code: TaxCode::STANDARD,
                taxable_base: Money::from_minor(11_900, Currency::EUR),
            }],
        })
        .unwrap();
    assert_eq!(quote.lines[0].tax, Money::from_minor(1_900, Currency::EUR));
    assert_eq!(quote.lines[0].net, Money::from_minor(10_000, Currency::EUR));
}

#[test]
fn compound_rates_apply_on_top_of_earlier_layers() {
    let calculator = RateTableTaxCalculator::with_rules(vec![
        TaxRule::new(
            "GST",
            "federal",
            Jurisdiction::country(CountryCode::new("CA").unwrap()),
            500,
        ),
        TaxRule::new(
            "QST",
            "provincial",
            Jurisdiction::region(CountryCode::new("CA").unwrap(), "QC"),
            997,
        )
        .compounding(),
    ]);
    let quote = calculator
        .quote(&TaxRequest {
            currency: Currency::CAD,
            mode: TaxMode::Exclusive,
            destination: Jurisdiction::region(CountryCode::new("CA").unwrap(), "QC"),
            origin: None,
            customer_tax_id: None,
            lines: vec![TaxLineRequest {
                reference: "l".into(),
                tax_code: TaxCode::STANDARD,
                taxable_base: Money::from_minor(10_000, Currency::CAD),
            }],
        })
        .unwrap();
    // 5 % of 100.00 = 5.00; 9.975 % of 105.00 = 10.47.
    assert_eq!(quote.lines[0].components[0].amount.minor(), 500);
    assert_eq!(quote.lines[0].components[1].amount.minor(), 1_047);
    assert_eq!(quote.lines[0].tax.minor(), 1_547);
}

#[test]
fn no_tax_calculator_is_a_valid_implementation() {
    let quote = NoTaxCalculator
        .quote(&request(
            TaxMode::Exclusive,
            vec![TaxLineRequest {
                reference: "l".into(),
                tax_code: TaxCode::STANDARD,
                taxable_base: usd(999),
            }],
        ))
        .unwrap();
    assert!(quote.total(Currency::USD).unwrap().is_zero());
}

fn engine() -> PricingEngine<RateTableTaxCalculator> {
    let tax = RateTableTaxCalculator::with_rules(vec![TaxRule::new(
        "CA State Tax",
        "state",
        Jurisdiction::region(CountryCode::US, "CA"),
        1_000, // a round 10 % keeps the assertions readable
    )]);
    PricingEngine::new(tax)
}

fn cart_with(items: Vec<CartItem>) -> Cart {
    let mut cart = Cart::new(Currency::USD);
    cart.set_shipping_address(Address::new(CountryCode::US).with_region("CA"));
    for item in items {
        cart.add_item(item).unwrap();
    }
    cart
}

fn ten_dollars(_key: &FulfillmentKey, _currency: Currency) -> Result<Money, Error> {
    Ok(usd(1_000))
}

#[test]
fn prices_a_simple_single_shop_cart() {
    let cart = cart_with(vec![
        CartItem::new("shop-1", "tee", "T-shirt", usd(2_000), 2).unwrap(),
        CartItem::new("shop-1", "mug", "Mug", usd(1_000), 1).unwrap(),
    ]);
    let quote = engine().quote(&cart, &[]).unwrap();

    assert_eq!(quote.totals.subtotal, usd(5_000));
    assert_eq!(quote.totals.tax, usd(500));
    assert_eq!(quote.amount_due(), usd(5_500));
    assert_eq!(quote.totals.merchant_gross, usd(5_500));
    quote.verify().unwrap();
}

#[test]
fn merchant_discount_lowers_the_tax_base() {
    let cart = cart_with(vec![CartItem::new("shop-1", "tee", "T", usd(10_000), 1).unwrap()]);
    let discount = Discount::percentage_off("SAVE10", "10% off", 1_000);
    let quote = engine().quote(&cart, &[discount]).unwrap();

    assert_eq!(quote.totals.merchant_discount, usd(1_000));
    assert_eq!(quote.lines[0].taxable_base, usd(9_000));
    assert_eq!(quote.totals.tax, usd(900));
    assert_eq!(quote.amount_due(), usd(9_900));
    // The shop absorbed the discount, so it is owed the discounted price.
    assert_eq!(quote.totals.merchant_gross, usd(9_900));
}

#[test]
fn subsidy_leaves_the_tax_base_and_the_shop_whole() {
    let cart = cart_with(vec![CartItem::new("shop-1", "tee", "T", usd(10_000), 1).unwrap()]);
    let subsidy = Discount::amount_off("PLATFORM20", "Platform promotion", usd(2_000))
        .funded_by(AccountId::from_string("acct_platform"), "welcome");
    let quote = engine().quote(&cart, &[subsidy]).unwrap();

    // Tax is still charged on the full 100.00 because the shop's
    // consideration did not change.
    assert_eq!(quote.lines[0].taxable_base, usd(10_000));
    assert_eq!(quote.totals.tax, usd(1_000));
    assert_eq!(quote.amount_due(), usd(9_000)); // 100 - 20 + 10 tax
    assert_eq!(quote.totals.merchant_gross, usd(11_000));
    assert_eq!(quote.subsidies.len(), 1);
    assert_eq!(quote.subsidies[0].amount, usd(2_000));
    quote.verify().unwrap();
}

#[test]
fn stacked_discounts_apply_in_priority_order() {
    let cart = cart_with(vec![CartItem::new("shop-1", "tee", "T", usd(10_000), 1).unwrap()]);
    let ten_off = Discount::amount_off("TEN", "$10 off", usd(1_000)).with_priority(1);
    let then_half = Discount::percentage_off("HALF", "50% off", 5_000).with_priority(2);

    let quote = engine().quote(&cart, &[then_half, ten_off]).unwrap();
    // $100 - $10 = $90, then 50 % of the remaining $90 = $45.
    assert_eq!(quote.totals.merchant_discount, usd(5_500));
    assert_eq!(quote.lines[0].taxable_base, usd(4_500));
}

#[test]
fn order_level_discount_is_prorated_across_shops_without_losing_a_cent() {
    let cart = cart_with(vec![
        CartItem::new("shop-1", "a", "A", usd(3_333), 1).unwrap(),
        CartItem::new("shop-2", "b", "B", usd(3_333), 1).unwrap(),
        CartItem::new("shop-3", "c", "C", usd(3_334), 1).unwrap(),
    ]);
    let discount = Discount::amount_off("TEN", "$10 off", usd(1_000));
    let quote = engine().quote(&cart, &[discount]).unwrap();

    let amounts: Vec<Money> = quote.lines.iter().map(|line| line.merchant_discount).collect();
    let allocated = Money::sum(&amounts, Currency::USD).unwrap();
    assert_eq!(allocated, usd(1_000), "allocation must be exact");
    assert_eq!(quote.shop_totals.len(), 3);
    quote.verify().unwrap();
}

#[test]
fn shop_scoped_discount_only_touches_that_shop() {
    let cart = cart_with(vec![
        CartItem::new("shop-1", "a", "A", usd(5_000), 1).unwrap(),
        CartItem::new("shop-2", "b", "B", usd(5_000), 1).unwrap(),
    ]);
    let discount = Discount::percentage_off("S1", "Shop 1 sale", 2_000)
        .with_scope(DiscountScope::Shop { shop_id: ShopId::from_string("shop-1") });
    let quote = engine().quote(&cart, &[discount]).unwrap();

    assert_eq!(quote.shop(&ShopId::from_string("shop-1")).unwrap().merchant_discount, usd(1_000));
    assert_eq!(quote.shop(&ShopId::from_string("shop-2")).unwrap().merchant_discount, usd(0));
}

#[test]
fn free_shipping_waives_only_matching_groups() {
    let mut cart = cart_with(vec![
        CartItem::new("shop-1", "a", "A", usd(5_000), 1).unwrap().with_fulfillment(
            FulfillmentSelection::new(FulfillmentMethod::Shipping {
                carrier: "ups".into(),
                service: "ground".into(),
            }),
        ),
        CartItem::new("shop-2", "b", "B", usd(5_000), 1).unwrap().with_fulfillment(
            FulfillmentSelection::new(FulfillmentMethod::Shipping {
                carrier: "ups".into(),
                service: "ground".into(),
            }),
        ),
    ]);
    cart.regroup_fulfillment(&ten_dollars).unwrap();

    let discount = Discount {
        id: DiscountId::new(),
        code: Some("FREESHIP1".into()),
        description: "Free shipping from shop 1".into(),
        value: DiscountValue::FreeShipping,
        scope: DiscountScope::Shop { shop_id: ShopId::from_string("shop-1") },
        funding: DiscountFunding::Merchant,
        priority: 0,
        stackable: true,
        conditions: DiscountConditions::default(),
        reduces_taxable_base_override: None,
    };

    let quote = engine().quote(&cart, &[discount]).unwrap();
    assert_eq!(quote.totals.shipping, usd(2_000));
    assert_eq!(quote.totals.merchant_discount, usd(1_000));
    let shop1 = quote.shipping.iter().find(|s| s.shop_id.as_str() == "shop-1").unwrap();
    assert_eq!(shop1.customer_total, usd(0));
    let shop2 = quote.shipping.iter().find(|s| s.shop_id.as_str() == "shop-2").unwrap();
    assert_eq!(shop2.customer_total, usd(1_100));
}

#[test]
fn ineligible_codes_are_reported_not_fatal() {
    let cart = cart_with(vec![CartItem::new("shop-1", "a", "A", usd(1_000), 1).unwrap()]);
    let discount = Discount::amount_off("BIGSPEND", "$5 off over $500", usd(500)).with_conditions(
        DiscountConditions { minimum_subtotal: Some(usd(50_000)), ..Default::default() },
    );
    let quote = engine().quote(&cart, &[discount]).unwrap();

    assert_eq!(quote.totals.merchant_discount, usd(0));
    assert_eq!(quote.rejected_discounts.len(), 1);
    assert_eq!(quote.rejected_discounts[0].code, "BIGSPEND");
    assert_eq!(quote.amount_due(), usd(1_100));
}

#[test]
fn a_discount_can_never_exceed_the_cart_value() {
    let cart = cart_with(vec![CartItem::new("shop-1", "a", "A", usd(1_000), 1).unwrap()]);
    let discount = Discount::amount_off("HUGE", "$500 off", usd(50_000));
    let quote = engine().quote(&cart, &[discount]).unwrap();

    assert_eq!(quote.totals.merchant_discount, usd(1_000));
    assert_eq!(quote.amount_due(), usd(0));
    quote.verify().unwrap();
}

#[test]
fn inclusive_tax_mode_extracts_instead_of_adding() {
    let tax = RateTableTaxCalculator::with_rules(vec![TaxRule::new(
        "VAT",
        "vat",
        Jurisdiction::country(CountryCode::DE),
        2_000,
    )]);
    let engine = PricingEngine::with_config(
        tax,
        PricingConfig {
            tax_mode: TaxMode::Inclusive,
            rounding: Rounding::HalfUp,
            fallback_jurisdiction: Jurisdiction::country(CountryCode::DE),
        },
    );
    let mut cart = Cart::new(Currency::EUR);
    cart.set_shipping_address(Address::new(CountryCode::DE));
    cart.add_item(
        CartItem::new("shop-1", "a", "A", Money::from_minor(12_000, Currency::EUR), 1).unwrap(),
    )
    .unwrap();

    let quote = engine.quote(&cart, &[]).unwrap();
    assert_eq!(quote.amount_due(), Money::from_minor(12_000, Currency::EUR));
    assert_eq!(quote.totals.tax, Money::from_minor(2_000, Currency::EUR));
    quote.verify().unwrap();
}

#[test]
fn empty_cart_is_rejected() {
    let cart = Cart::new(Currency::USD);
    assert!(engine().quote(&cart, &[]).is_err());
}

#[test]
fn promotions_expire_at_the_end_of_their_window() {
    let cart = cart_with(vec![CartItem::new("shop-1", "a", "A", usd(1_000), 1).unwrap()]);
    let end = Timestamp::from_seconds(1_700_000_000).unwrap();
    let discount = Discount::amount_off("LATE", "$1 off", usd(100)).with_conditions(
        DiscountConditions { ends_at: Some(end), ..Default::default() },
    );
    let before = Timestamp { seconds: end.seconds - 1, nanos: 0 };
    let quote = engine().quote_at(&cart, &[discount.clone()], before).unwrap();
    assert_eq!(quote.totals.merchant_discount, usd(100));
    let after = Timestamp { seconds: end.seconds + 1, nanos: 0 };
    let quote = engine().quote_at(&cart, &[discount], after).unwrap();
    assert_eq!(quote.totals.merchant_discount, usd(0));
    assert_eq!(quote.rejected_discounts.len(), 1);
}

#[test]
fn quotes_add_up_to_their_totals() {
    let mut cart = cart_with(vec![
        CartItem::new("shop-1", "tee", "T", usd(3_333), 1).unwrap(),
        CartItem::new("shop-2", "mug", "M", usd(1_667), 2).unwrap(),
    ]);
    cart.regroup_fulfillment(&ten_dollars).unwrap();
    let quote = engine()
        .quote(&cart, &[Discount::percentage_off("SAVE7", "7% off", 700)])
        .unwrap();
    let mut total = 0;
    let mut tax = 0;
    for line in quote.lines.iter() {
        total += line.customer_total.minor();
        tax += line.tax.minor();
    }
    for charge in quote.shipping.iter() {
        total += charge.customer_total.minor();
        tax += charge.tax.minor();
    }
    assert_eq!(quote.totals.total, usd(total));
    assert_eq!(quote.totals.tax, usd(tax));
    let shops: i64 = quote.shop_totals.iter().map(|shop| shop.customer_total.minor()).sum();
    assert_eq!(shops, total);
    quote.verify().unwrap();
}

#[test]
fn inverting_twice_gives_the_rate_back() {
    let rate = ExchangeRate::new(Currency::USD, Currency::EUR, 3, 7).unwrap();
    let inverse = rate.inverse().unwrap();
    assert_eq!((inverse.numerator, inverse.denominator), (7, 3));
    assert_eq!((inverse.from, inverse.to), (Currency::EUR, Currency::USD));
    let twice = inverse.inverse().unwrap();
    assert_eq!((twice.numerator, twice.denominator), (3, 7));
    assert_eq!((twice.from, twice.to), (Currency::USD, Currency::EUR));
}

fn tax_of(calculator: &RateTableTaxCalculator, tax_code: TaxCode) -> Money {
    let line = TaxLineRequest { reference: "l".into(), tax_code, taxable_base: usd(10_000) };
    calculator.quote(&request(TaxMode::Exclusive, vec![line])).unwrap().lines[0].tax
}

#[test]
fn postal_code_rules_beat_state_rules_without_naming_the_state() {
    let postal = |region: Option<&str>| Jurisdiction {
        country: CountryCode::US,
        region: region.map(|name| name.to_owned()),
        postal_code: Some("94107".into()),
    };
    let state = Jurisdiction::region(CountryCode::US, "CA");
    let food = TaxCode::new("food");
    let mut table = RateTableTaxCalculator::with_rules(vec![
        TaxRule::new("Country", "sales", Jurisdiction::country(CountryCode::US), 100),
        TaxRule::new("State", "sales", state.clone(), 200),
        TaxRule::new("State food", "sales", state, 300).for_tax_code(TaxCode::new("food")),
        TaxRule::new("Postal code", "sales", postal(None), 400),
    ]);
    assert_eq!(tax_of(&table, TaxCode::STANDARD), usd(400));
    assert_eq!(tax_of(&table, food.clone()), usd(400));
    table.add_rule(TaxRule::new("District", "sales", postal(Some("CA")), 500));
    table.add_rule(TaxRule::new("Later", "sales", postal(None), 600));
    assert_eq!(tax_of(&table, TaxCode::STANDARD), usd(500));
    table.add_rule(TaxRule::new("Any food", "sales", postal(None), 700).for_tax_code(food.clone()));
    assert_eq!(tax_of(&table, food), usd(500));
}

fn canada() -> CountryCode {
    CountryCode::new("CA").unwrap()
}

fn quebec(second: bool) -> RateTableTaxCalculator {
    let place = || Jurisdiction::country(canada());
    let mut table = RateTableTaxCalculator::with_rules(vec![
        TaxRule::new("GST", "federal", place(), 500),
        TaxRule::new("QST", "provincial", place(), 1_000).compounding(),
    ]);
    if second {
        table.add_rule(TaxRule::new("Eco", "eco", place(), 2_000).compounding());
    }
    table
}

fn cad(minor: i64) -> Money {
    Money::from_minor(minor, Currency::CAD)
}

fn in_canada(calculator: &RateTableTaxCalculator, mode: TaxMode, base: i64) -> Result<Vec<i64>, Error> {
    let quote = calculator.quote(&TaxRequest {
        currency: Currency::CAD,
        mode,
        destination: Jurisdiction::country(canada()),
        origin: None,
        customer_tax_id: None,
        lines: vec![TaxLineRequest {
            reference: "l".into(),
            tax_code: TaxCode::STANDARD,
            taxable_base: cad(base),
        }],
    })?;
    let line = &quote.lines[0];
    let mut figures = vec![line.net.minor(), line.tax.minor()];
    figures.extend(line.components.iter().map(|component| component.amount.minor()));
    Ok(figures)
}

#[test]
fn inclusive_prices_contain_compound_layers() {
    let table = quebec(false);
    assert_eq!(in_canada(&table, TaxMode::Exclusive, 10_000).unwrap(), vec![10_000, 1_550, 500, 1_050]);
    assert_eq!(in_canada(&table, TaxMode::Inclusive, 11_550).unwrap(), vec![10_000, 1_550, 500, 1_050]);
    let table = quebec(true);
    let added = in_canada(&table, TaxMode::Exclusive, 10_000).unwrap();
    assert_eq!(added, vec![10_000, 3_860, 500, 1_050, 2_310]);
    assert_eq!(in_canada(&table, TaxMode::Inclusive, 13_860).unwrap(), added);
    // 10 000 of 13 860 are tax-free: 1 is left of 1, and 72 of 100.
    assert_eq!(in_canada(&table, TaxMode::Inclusive, 1).unwrap()[1], 0);
    assert_eq!(in_canada(&table, TaxMode::Inclusive, 100).unwrap()[1], 28);
    assert_eq!(in_canada(&table, TaxMode::Inclusive, -13_860).unwrap()[1], -3_860);
}

#[test]
fn inclusive_compound_prices_are_quoted() {
    let engine = PricingEngine::with_config(
        quebec(false),
        PricingConfig {
            tax_mode: TaxMode::Inclusive,
            rounding: Rounding::HalfUp,
            fallback_jurisdiction: Jurisdiction::country(canada()),
        },
    );
    let mut cart = Cart::new(Currency::CAD);
    cart.set_shipping_address(Address::new(canada()));
    cart.add_item(CartItem::new("shop-1", "a", "A", cad(11_550), 1).unwrap()).unwrap();
    let quote = engine.quote(&cart, &[]).unwrap();
    assert_eq!(quote.amount_due(), cad(11_550));
    assert_eq!(quote.totals.tax, cad(1_550));
    quote.verify().unwrap();
}

#[test]
fn inclusive_prices_contain_any_number_of_compound_layers() {
    let layered = |layers: &[(i64, bool)]| {
        let mut table = RateTableTaxCalculator::new();
        for (index, (rate, compound)) in layers.iter().enumerate() {
            let place = Jurisdiction::country(canada());
            let rule = TaxRule::new(&format!("tax {index}"), &format!("layer {index}"), place, *rate);
            table.add_rule(if *compound { rule.compounding() } else { rule });
        }
        table
    };

    let mut layers = vec![(500, false)];
    layers.extend([(1_000, true); 4]);
    let table = layered(&layers);
    let added = in_canada(&table, TaxMode::Exclusive, 1_000_000).unwrap();
    assert_eq!(added, vec![1_000_000, 537_305, 50_000, 105_000, 115_500, 127_050, 139_755]);
    assert_eq!(in_canada(&table, TaxMode::Inclusive, 1_537_305).unwrap(), added);
    assert_eq!(
        in_canada(&table, TaxMode::Inclusive, 9_999).unwrap(),
        vec![6_504, 3_495, 325, 683, 751, 827, 909]
    );

    let mut layers = vec![(997, false)];
    layers.extend([(997, true); 6]);
    let table = layered(&layers);
    assert_eq!(
        in_canada(&table, TaxMode::Inclusive, 123_457).unwrap(),
        vec![63_474, 59_983, 6_329, 6_959, 7_653, 8_416, 9_255, 10_178, 11_193]
    );

    let table = layered(&[(100, true); 30]);
    let figures = in_canada(&table, TaxMode::Inclusive, 1_000_000).unwrap();
    assert_eq!(figures[..4], [741_923, 258_077, 7_419, 7_493]);
    assert_eq!(figures[31], 9_901);
    assert_eq!(figures[2..].iter().sum::<i64>(), 258_077);

    // Rates of any size.
    let table = layered(&[(i64::MAX, false), (1, false)]);
    assert_eq!(in_canada(&table, TaxMode::Inclusive, 100).unwrap(), vec![0, 100, 100, 0]);
    let table = layered(&[(500, false), (i64::MAX / 10_000, true)]);
    assert_eq!(in_canada(&table, TaxMode::Inclusive, 100).unwrap(), vec![0, 100, 0, 100]);
}
