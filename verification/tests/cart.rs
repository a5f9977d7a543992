use payments::address::{Address, CountryCode};
use payments::cart::{
    Cart, CartItem, CartService, FlatShippingRate, FulfillmentGroup, FulfillmentKey,
    FulfillmentMethod, FulfillmentSelection, FulfillmentStatus,
};
use payments::error::Error;
use payments::ids::{CartId, CustomerId, ShopId};
use payments::money::{Currency, Money};
use payments::pricing::TaxCode;
use payments::storage::memory::InMemoryCartRepository;
use payments::time::Timestamp;

fn usd(minor: i64) -> Money {
    Money::from_minor(minor, Currency::USD)
}

fn sample_item(shop: &str, sku: &str, price: i64, qty: u32) -> CartItem {
    CartItem::new(shop, sku, sku, usd(price), qty).unwrap()
}

fn digital_is_free(key: &FulfillmentKey, _currency: Currency) -> Result<Money, Error> {
    Ok(match key.method {
        FulfillmentMethod::Digital => usd(0),
        _ => usd(599),
    })
}

fn free(_key: &FulfillmentKey, _currency: Currency) -> Result<Money, Error> {
    Ok(usd(0))
}

#[test]
fn group_ids_are_stable_and_discriminating() {
    let shop = ShopId::from_string("shop-1");
    let selection = FulfillmentSelection::new(FulfillmentMethod::LocalDelivery {
        window: Some("18:00-20:00".into()),
    })
    .with_origin("warehouse-a");

    let a = selection.key(&shop).deterministic_id();
    let b = selection.key(&shop).deterministic_id();
    assert_eq!(a, b, "same key must produce the same id");

    let other_origin = selection.clone().with_origin("warehouse-b");
    assert_ne!(a, other_origin.key(&shop).deterministic_id());

    let other_shop = selection.key(&ShopId::from_string("shop-2")).deterministic_id();
    assert_ne!(a, other_shop);
}

#[test]
fn different_keys_get_different_ids() {
    let shop = ShopId::from_string("shop-1");
    let methods = [
        FulfillmentMethod::Digital,
        FulfillmentMethod::Pickup { location: None },
        FulfillmentMethod::Pickup { location: Some("".into()) },
        FulfillmentMethod::Pickup { location: Some("a".into()) },
        FulfillmentMethod::LocalDelivery { window: None },
        FulfillmentMethod::LocalDelivery { window: Some("a".into()) },
        FulfillmentMethod::Shipping { carrier: "ab".into(), service: "c".into() },
        FulfillmentMethod::Shipping { carrier: "a".into(), service: "bc".into() },
    ];
    let mut ids = Vec::new();
    for method in methods {
        let selection = FulfillmentSelection::new(method);
        ids.push(selection.key(&shop).deterministic_id());
        ids.push(selection.clone().with_origin("").key(&shop).deterministic_id());
        ids.push(selection.clone().with_origin("a").key(&shop).deterministic_id());
        let epoch = Timestamp { seconds: 0, nanos: 0 };
        ids.push(selection.with_schedule(epoch).key(&shop).deterministic_id());
    }
    for (i, first) in ids.iter().enumerate() {
        for second in &ids[i + 1..] {
            assert_ne!(first, second);
        }
    }
}

#[test]
fn digital_goods_capture_immediately() {
    assert!(!FulfillmentMethod::Digital.prefers_delayed_capture());
    assert!(FulfillmentMethod::Pickup { location: None }.prefers_delayed_capture());
}

#[test]
fn status_machine_rejects_illegal_jumps() {
    assert!(FulfillmentStatus::Pending.can_transition_to(FulfillmentStatus::Processing));
    assert!(!FulfillmentStatus::Pending.can_transition_to(FulfillmentStatus::Delivered));
    assert!(FulfillmentStatus::Canceled.is_terminal());
}

#[test]
fn group_from_key_defaults_to_shipping_tax_code() {
    let key = FulfillmentSelection::default().key(&ShopId::from_string("s"));
    let group = FulfillmentGroup::from_key(key, Money::from_minor(500, Currency::USD));
    assert_eq!(group.shipping_tax_code, TaxCode::shipping());
    assert!(group.items.is_empty());
}

#[test]
fn identical_lines_merge_but_different_ones_do_not() {
    let mut cart = Cart::new(Currency::USD);
    cart.add_item(sample_item("shop-1", "tee", 2_000, 1)).unwrap();
    cart.add_item(sample_item("shop-1", "tee", 2_000, 2)).unwrap();
    assert_eq!(cart.items.len(), 1);
    assert_eq!(cart.items[0].quantity, 3);

    cart.add_item(sample_item("shop-2", "tee", 2_000, 1)).unwrap();
    assert_eq!(cart.items.len(), 2, "different shops must not merge");

    let scheduled = sample_item("shop-1", "tee", 2_000, 1).with_fulfillment(
        FulfillmentSelection::new(FulfillmentMethod::Pickup { location: Some("store-9".into()) }),
    );
    cart.add_item(scheduled).unwrap();
    assert_eq!(cart.items.len(), 3, "different fulfilment must not merge");
}

#[test]
fn mod_currency_is_enforced() {
    let mut cart = Cart::new(Currency::USD);
    let eur = CartItem::new("s", "x", "x", Money::from_minor(100, Currency::EUR), 1).unwrap();
    assert!(matches!(cart.add_item(eur), Err(Error::CurrencyMismatch { .. })));
}

#[test]
fn quantity_and_removal() {
    let mut cart = Cart::new(Currency::USD);
    let index = cart.add_item(sample_item("shop-1", "tee", 1_000, 1)).unwrap();
    let id = cart.items[index].id.clone();
    cart.set_quantity(&id, 5).unwrap();
    assert_eq!(cart.subtotal().unwrap(), usd(5_000));
    cart.set_quantity(&id, 0).unwrap();
    assert!(cart.items.is_empty());
    assert!(cart.set_quantity(&id, 1).is_err());
}

#[test]
fn grouping_splits_by_shop_and_schedule() {
    let mut cart = Cart::new(Currency::USD);
    cart.add_item(sample_item("shop-1", "a", 1_000, 1)).unwrap();
    cart.add_item(sample_item("shop-2", "b", 1_000, 1)).unwrap();
    cart.add_item(
        sample_item("shop-1", "c", 1_000, 1)
            .with_fulfillment(FulfillmentSelection::new(FulfillmentMethod::Digital)),
    )
    .unwrap();

    cart.regroup_fulfillment(&digital_is_free).unwrap();

    assert_eq!(cart.fulfillment_groups.len(), 3);
    assert!(cart.items.iter().all(|item| item.fulfillment_group_id.is_some()));
    cart.validate().unwrap();

    // Regrouping is idempotent.
    let before = cart.fulfillment_groups.clone();
    cart.regroup_fulfillment(&digital_is_free).unwrap();
    assert_eq!(before, cart.fulfillment_groups);
}

#[test]
fn removing_an_item_prunes_its_group() {
    let mut cart = Cart::new(Currency::USD);
    let index = cart.add_item(sample_item("shop-1", "a", 1_000, 1)).unwrap();
    let id = cart.items[index].id.clone();
    cart.add_item(sample_item("shop-2", "b", 1_000, 1)).unwrap();
    cart.regroup_fulfillment(&free).unwrap();
    assert_eq!(cart.fulfillment_groups.len(), 2);
    cart.remove_item(&id).unwrap();
    assert_eq!(cart.fulfillment_groups.len(), 1);
    cart.validate().unwrap();
}

#[test]
fn version_increments_on_mutation() {
    let mut cart = Cart::new(Currency::USD);
    assert_eq!(cart.version, 0);
    cart.add_item(sample_item("shop-1", "a", 100, 1)).unwrap();
    assert_eq!(cart.version, 1);
    cart.apply_discount_code("SAVE10");
    cart.apply_discount_code("save10"); // duplicate, ignored
    assert_eq!(cart.discount_codes.len(), 1);
    assert_eq!(cart.version, 2);
}

#[test]
fn empty_cart_fails_validation() {
    assert!(Cart::new(Currency::USD).validate().is_err());
}

#[test]
fn multi_shop_detection() {
    let mut cart = Cart::new(Currency::USD);
    cart.add_item(sample_item("shop-1", "a", 100, 1)).unwrap();
    assert!(!cart.is_multi_shop());
    cart.add_item(sample_item("shop-2", "b", 100, 1)).unwrap();
    assert!(cart.is_multi_shop());
    assert_eq!(cart.unit_count(), 2);
}

#[test]
fn items_need_a_quantity_and_a_price() {
    assert!(matches!(
        CartItem::new("s", "x", "x", usd(1), 0),
        Err(Error::Validation(message)) if message == "quantity must be at least 1"
    ));
    assert!(matches!(
        CartItem::new("s", "x", "x", usd(-1), 1),
        Err(Error::Validation(message)) if message == "unit price cannot be negative"
    ));
}

/// Loads a cart, changes it, and saves what comes back.
struct Desk<F: Fn(&FulfillmentKey, Currency) -> Result<Money, Error>> {
    carts: InMemoryCartRepository,
    service: CartService<F>,
}

impl<F: Fn(&FulfillmentKey, Currency) -> Result<Money, Error>> Desk<F> {
    fn new(rates: F) -> Self {
        Desk {
            carts: InMemoryCartRepository::new(),
            service: CartService::with_shipping(rates),
        }
    }

    fn load(&self, id: &CartId) -> Result<Cart, Error> {
        self.service.get(self.carts.get(id).cloned(), id)
    }

    fn save(&mut self, cart: Cart) -> Cart {
        self.carts.save(cart.clone()).unwrap();
        cart
    }

    fn create(&mut self, customer: Option<CustomerId>) -> Cart {
        let cart = self.service.create(customer, Currency::USD);
        self.save(cart)
    }

    fn add(&mut self, id: &CartId, item: CartItem) -> Cart {
        let cart = self.load(id).unwrap();
        let cart = self.service.add_item(cart, item).unwrap();
        self.save(cart)
    }
}

fn flat(_key: &FulfillmentKey, currency: Currency) -> Result<Money, Error> {
    use_rate(currency)
}

fn use_rate(currency: Currency) -> Result<Money, Error> {
    let FlatShippingRate(price) = FlatShippingRate(usd(599));
    assert_eq!(price.currency(), currency);
    Ok(price)
}

#[test]
fn full_cart_lifecycle() {
    let mut desk = Desk::new(flat);
    let cart = desk.create(Some(CustomerId::new()));
    let cart = desk
        .add(&cart.id, CartItem::new("shop-1", "tee", "T-shirt", usd(2_000), 2).unwrap());
    assert_eq!(cart.subtotal().unwrap(), usd(4_000));
    assert_eq!(cart.fulfillment_groups.len(), 1);
    assert_eq!(cart.fulfillment_groups[0].shipping_price, usd(599));

    let line = cart.items[0].id.clone();
    let loaded = desk.load(&cart.id).unwrap();
    let cart = desk.service.set_quantity(loaded, &line, 5).unwrap();
    let cart = desk.save(cart);
    assert_eq!(cart.subtotal().unwrap(), usd(10_000));

    let loaded = desk.load(&cart.id).unwrap();
    let cart = desk.service.apply_discount_code(loaded, "SAVE10").unwrap();
    let cart = desk.save(cart);
    assert_eq!(cart.discount_codes, vec!["SAVE10".to_owned()]);

    let loaded = desk.load(&cart.id).unwrap();
    let cart = desk
        .service
        .set_shipping_address(loaded, Address::new(CountryCode::US).with_region("CA"))
        .unwrap();
    let cart = desk.save(cart);
    assert!(cart.shipping_address.is_some());
    assert!(cart.fulfillment_groups[0].destination.is_some());

    let loaded = desk.load(&cart.id).unwrap();
    let cart = desk.service.remove_item(loaded, &line).unwrap();
    let cart = desk.save(cart);
    assert!(cart.items.is_empty());
    assert!(cart.fulfillment_groups.is_empty());

    desk.carts.delete(&cart.id);
    assert!(desk.load(&cart.id).is_err());
}

#[test]
fn shipping_is_rated_per_shipment() {
    let mut desk = Desk::new(flat);
    let cart = desk.create(None);
    desk.add(&cart.id, CartItem::new("shop-1", "a", "A", usd(1_000), 1).unwrap());
    let cart = desk.add(&cart.id, CartItem::new("shop-2", "b", "B", usd(1_000), 1).unwrap());

    assert_eq!(cart.fulfillment_groups.len(), 2, "one shipment per shop");
    let prices: Vec<Money> = cart.fulfillment_groups.iter().map(|g| g.shipping_price).collect();
    let shipping = Money::sum(&prices, Currency::USD).unwrap();
    assert_eq!(shipping, usd(1_198));
}

#[test]
fn flat_rates_serve_every_shipment() {
    let service = CartService::with_shipping(FlatShippingRate(usd(599)));
    let cart = service.create(None, Currency::USD);
    let cart = service.add_item(cart, sample_item("shop-1", "a", 1_000, 1)).unwrap();
    assert_eq!(cart.fulfillment_groups[0].shipping_price, usd(599));
    let free = CartService::new();
    let cart = free.regroup(cart).unwrap();
    assert_eq!(cart.fulfillment_groups[0].shipping_price, usd(0));
}

#[test]
fn unknown_carts_report_not_found() {
    let desk = Desk::new(flat);
    let error = desk.load(&CartId::from_string("cart_missing")).unwrap_err();
    assert!(matches!(error, Error::NotFound { .. }));
}

#[test]
fn closure_shipping_rates_work() {
    let rates = |key: &FulfillmentKey, currency: Currency| -> Result<Money, Error> {
        Ok(if key.shop_id.as_str() == "shop-free" {
            Money::zero(currency)
        } else {
            Money::from_minor(1_000, currency)
        })
    };
    let mut desk = Desk::new(rates);

    let cart = desk.create(None);
    desk.add(&cart.id, CartItem::new("shop-free", "a", "A", usd(100), 1).unwrap());
    let cart = desk.add(&cart.id, CartItem::new("shop-paid", "b", "B", usd(100), 1).unwrap());

    let free = cart
        .fulfillment_groups
        .iter()
        .find(|group| group.shop_id.as_str() == "shop-free")
        .unwrap();
    assert!(free.shipping_price.is_zero());
}

#[test]
fn regrouping_twice_changes_nothing() {
    let mut cart = Cart::new(Currency::USD);
    cart.set_shipping_address(Address::new(CountryCode::US));
    cart.add_item(sample_item("shop-1", "tee", 2_000, 1)).unwrap();
    cart.add_item(sample_item("shop-2", "mug", 1_000, 1)).unwrap();
    let ungrouped = cart.version;
    cart.regroup_fulfillment(&digital_is_free).unwrap();
    assert_eq!(cart.version, ungrouped + 1);
    let once = cart.clone();
    cart.regroup_fulfillment(&digital_is_free).unwrap();
    assert_eq!(cart, once);
    cart.validate().unwrap();

    // Another charge or another destination is a change.
    cart.regroup_fulfillment(&free).unwrap();
    assert_eq!(cart.version, once.version + 1);
    cart.regroup_fulfillment(&free).unwrap();
    assert_eq!(cart.version, once.version + 1);
    cart.set_shipping_address(Address::new(CountryCode::DE));
    let moved = cart.version;
    cart.regroup_fulfillment(&free).unwrap();
    assert_eq!(cart.version, moved + 1);
    cart.fulfillment_groups[0].status = FulfillmentStatus::Shipped;
    cart.regroup_fulfillment(&free).unwrap();
    assert_eq!(cart.version, moved + 2);
    cart.items[0].fulfillment_group_id = None;
    cart.regroup_fulfillment(&free).unwrap();
    assert_eq!(cart.version, moved + 3);
    assert!(cart.items[0].fulfillment_group_id.is_some());
}

#[test]
fn unchanged_carts_need_no_saving() {
    let service = CartService::with_shipping(FlatShippingRate(usd(599)));
    let cart = service.create(None, Currency::USD);
    let loaded = cart.version;
    let cart = service.add_item(cart, sample_item("shop-1", "a", 1_000, 1)).unwrap();
    assert!(service.needs_saving(loaded, &cart));
    let loaded = cart.version;
    let same = service.regroup(cart.clone()).unwrap();
    assert_eq!(same, cart);
    assert!(!service.needs_saving(loaded, &same));
}

#[test]
fn emptied_carts_have_no_shipments() {
    let mut cart = Cart::new(Currency::USD);
    let index = cart.add_item(sample_item("shop-1", "tee", 2_000, 1)).unwrap();
    cart.regroup_fulfillment(&free).unwrap();
    let id = cart.items[index].id.clone();
    cart.remove_item(&id).unwrap();
    assert!(cart.fulfillment_groups.is_empty());

    cart.add_item(sample_item("shop-1", "tee", 2_000, 1)).unwrap();
    cart.regroup_fulfillment(&free).unwrap();
    cart.clear();
    assert!(cart.items.is_empty());
    assert!(cart.fulfillment_groups.is_empty());
}
