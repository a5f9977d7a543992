//! Cart service: what each cart operation does between loading a cart and saving it.

use vstd::prelude::*;

use crate::address::Address;
use crate::cart::{
    answers_all, rate_failure, regroups, Cart, CartItem, FulfillmentKey,
};
use crate::error::{outcome, Error, ErrorView};
use crate::ids::{is_generated, CartId, CustomerId, LineItemId};
use crate::money::{Currency, Money};

verus! {

/// Decides the shipping charge for a shipment.
///
/// A closure is enough for flat and per-shop rates; wrap a carrier-rating API
/// in a struct for anything more involved.
pub trait ShippingRates {
    /// Whether the source may be asked about a shipment.
    spec fn answers(&self, key: FulfillmentKey, currency: Currency) -> bool;

    /// The charge for one shipment.
    fn rate_for(&self, key: &FulfillmentKey, currency: Currency) -> Result<Money, Error>
        requires
            self.answers(*key, currency),
    ;
}

/// Charges the same amount for every shipment.
#[derive(Debug, Clone, Copy)]
pub struct FlatShippingRate(pub Money);

impl ShippingRates for FlatShippingRate {
    open spec fn answers(&self, key: FulfillmentKey, currency: Currency) -> bool {
        true
    }

    fn rate_for(&self, _key: &FulfillmentKey, currency: Currency) -> (rate: Result<Money, Error>)
        ensures
            outcome(rate) == if self.0.currency == currency {
                Ok::<Money, ErrorView>(self.0)
            } else {
                Err(
                    ErrorView::CurrencyMismatch {
                        expected: currency,
                        actual: self.0.currency,
                    },
                )
            },
    {
        if self.0.currency() != currency {
            return Err(
                Error::CurrencyMismatch { expected: currency, actual: self.0.currency() },
            );
        }
        Ok(self.0)
    }
}

/// Never charges for shipping.
#[derive(Debug, Clone, Copy, Default)]
pub struct FreeShipping;

impl ShippingRates for FreeShipping {
    open spec fn answers(&self, key: FulfillmentKey, currency: Currency) -> bool {
        true
    }

    fn rate_for(&self, _key: &FulfillmentKey, currency: Currency) -> (rate: Result<Money, Error>)
        ensures
            outcome(rate) == Ok::<Money, ErrorView>(Money { minor: 0, currency }),
    {
        Ok(Money::zero(currency))
    }
}

impl<F: Fn(&FulfillmentKey, Currency) -> Result<Money, Error>> ShippingRates for F {
    open spec fn answers(&self, key: FulfillmentKey, currency: Currency) -> bool {
        call_requires(*self, (&key, currency))
    }

    fn rate_for(&self, key: &FulfillmentKey, currency: Currency) -> (rate: Result<Money, Error>)
        ensures
            call_ensures(*self, (key, currency), rate),
    {
        self(key, currency)
    }
}

/// Whether `after` is what a mutated cart becomes before it is saved: regrouped while
/// it holds items, without shipments once it is empty.
pub open spec fn settles<R: ShippingRates>(rates: &R, before: Cart, after: Cart) -> bool {
    if before.items@.len() > 0 {
        regroups(rates, before, after)
    } else {
        &&& after == (Cart { fulfillment_groups: after.fulfillment_groups, ..before })
        &&& after.fulfillment_groups@.len() == 0
    }
}

/// What settling a mutated cart returns.
pub open spec fn settlement<R: ShippingRates>(
    rates: &R,
    before: Cart,
    saved: Result<Cart, Error>,
) -> bool {
    match saved {
        Ok(after) => settles(rates, before, after),
        Err(error) => before.items@.len() > 0 && rate_failure(rates, before, error),
    }
}

/// Mutates loaded carts; what comes back is to be saved.
///
/// Every operation takes the cart as it was read, so a concurrent modification
/// surfaces as [`Error::Conflict`] when the result is saved rather than as a lost
/// update. A failed operation gives no cart back, so nothing of it is saved.
#[derive(Clone)]
pub struct CartService<R: ShippingRates> {
    /// Where shipping charges come from.
    pub shipping: R,
}

impl CartService<FreeShipping> {
    /// Build a service with free shipping.
    pub fn new() -> (service: Self)
        ensures
            service.shipping == FreeShipping,
    {
        CartService { shipping: FreeShipping }
    }
}

impl<R: ShippingRates> CartService<R> {
    /// Build a service with a shipping-rate source.
    pub fn with_shipping(shipping: R) -> (service: Self)
        ensures
            service.shipping == shipping,
    {
        CartService { shipping }
    }

    /// Create an empty cart to be saved.
    pub fn create(&self, customer_id: Option<CustomerId>, currency: Currency) -> (cart: Cart)
        ensures
            is_generated(cart.id@, "cart"@),
            cart.customer_id == customer_id,
            cart.currency == currency,
            cart.items@.len() == 0,
            cart.fulfillment_groups@.len() == 0,
            cart.discount_codes@.len() == 0,
            cart.gift_card_codes@.len() == 0,
            !cart.apply_shop_credit,
            cart.shipping_address is None,
            cart.billing_address is None,
            cart.version == 1,
    {
        let mut cart = Cart::new(currency);
        cart.customer_id = customer_id;
        cart.version = 1;
        cart
    }

    /// The cart that was looked up, or a precise not-found error.
    pub fn get(&self, found: Option<Cart>, id: &CartId) -> (cart: Result<Cart, Error>)
        ensures
            match found {
                Some(stored) => cart == Ok::<Cart, Error>(stored),
                None => outcome(cart) == Err::<Cart, ErrorView>(
                    ErrorView::NotFound { kind: "cart"@, id: id@ },
                ),
            },
    {
        match found {
            Some(stored) => Ok(stored),
            None => Err(Error::not_found(CartId::kind(), id.as_str())),
        }
    }

    /// Add an item and re-group shipments.
    pub fn add_item(&self, cart: Cart, item: CartItem) -> (saved: Result<Cart, Error>)
        requires
            answers_all(&self.shipping, cart.currency),
        ensures
            exists|after: Cart, index: Result<usize, Error>| #[trigger]
                cart.addition(item, after, index) && match index {
                    Ok(_) => settlement(&self.shipping, after, saved),
                    Err(error) => saved == Err::<Cart, Error>(error),
                },
    {
        let mut changed = cart;
        let index = changed.add_item(item);
        assert(cart.addition(item, changed, index));
        match index {
            Ok(_) => self.settle(changed),
            Err(error) => Err(error),
        }
    }

    /// Change a line's quantity; zero removes the line.
    pub fn set_quantity(&self, cart: Cart, line: &LineItemId, quantity: u32) -> (saved: Result<
        Cart,
        Error,
    >)
        requires
            answers_all(&self.shipping, cart.currency),
        ensures
            exists|after: Cart, done: Result<(), Error>| #[trigger]
                cart.requantified(*line, quantity, after, done) && match done {
                    Ok(_) => settlement(&self.shipping, after, saved),
                    Err(error) => saved == Err::<Cart, Error>(error),
                },
    {
        let mut changed = cart;
        let done = changed.set_quantity(line, quantity);
        assert(cart.requantified(*line, quantity, changed, done));
        match done {
            Ok(_) => self.settle(changed),
            Err(error) => Err(error),
        }
    }

    /// Remove a line.
    pub fn remove_item(&self, cart: Cart, line: &LineItemId) -> (saved: Result<Cart, Error>)
        requires
            answers_all(&self.shipping, cart.currency),
        ensures
            exists|after: Cart, done: Result<(), Error>| #[trigger]
                cart.removal(after, *line, done) && match done {
                    Ok(_) => settlement(&self.shipping, after, saved),
                    Err(error) => saved == Err::<Cart, Error>(error),
                },
    {
        let mut changed = cart;
        let done = changed.remove_item(line);
        assert(cart.removal(changed, *line, done));
        match done {
            Ok(_) => self.settle(changed),
            Err(error) => Err(error),
        }
    }

    /// Empty the cart.
    pub fn clear(&self, cart: Cart) -> (saved: Result<Cart, Error>)
        requires
            answers_all(&self.shipping, cart.currency),
        ensures
            exists|after: Cart| #[trigger]
                cart.cleared(after) && settlement(&self.shipping, after, saved),
    {
        let mut changed = cart;
        changed.clear();
        assert(cart.cleared(changed));
        self.settle(changed)
    }

    /// Apply a promotion code.
    pub fn apply_discount_code(&self, cart: Cart, code: &str) -> (saved: Result<Cart, Error>)
        requires
            answers_all(&self.shipping, cart.currency),
        ensures
            exists|after: Cart| #[trigger]
                cart.code_applied(code@, after) && settlement(&self.shipping, after, saved),
    {
        let mut changed = cart;
        changed.apply_discount_code(code);
        assert(cart.code_applied(code@, changed));
        self.settle(changed)
    }

    /// Remove a promotion code.
    pub fn remove_discount_code(&self, cart: Cart, code: &str) -> (saved: Result<Cart, Error>)
        requires
            answers_all(&self.shipping, cart.currency),
        ensures
            exists|after: Cart| #[trigger]
                cart.code_removed(code@, after) && settlement(&self.shipping, after, saved),
    {
        let mut changed = cart;
        changed.remove_discount_code(code);
        assert(cart.code_removed(code@, changed));
        self.settle(changed)
    }

    /// Stage a gift card for redemption at checkout.
    pub fn add_gift_card(&self, cart: Cart, code: &str) -> (saved: Result<Cart, Error>)
        requires
            answers_all(&self.shipping, cart.currency),
        ensures
            exists|after: Cart| #[trigger]
                cart.gift_card_added(code@, after) && settlement(&self.shipping, after, saved),
    {
        let mut changed = cart;
        changed.add_gift_card(code);
        assert(cart.gift_card_added(code@, changed));
        self.settle(changed)
    }

    /// Choose whether the shopper's shop credit is spent at checkout.
    pub fn set_apply_shop_credit(&self, cart: Cart, apply: bool) -> (saved: Result<Cart, Error>)
        requires
            answers_all(&self.shipping, cart.currency),
        ensures
            exists|after: Cart| #[trigger]
                cart.credit_chosen(apply, after) && settlement(&self.shipping, after, saved),
    {
        let mut changed = cart;
        changed.set_apply_shop_credit(apply);
        assert(cart.credit_chosen(apply, changed));
        self.settle(changed)
    }

    /// Set the destination address and re-rate shipping.
    pub fn set_shipping_address(&self, cart: Cart, address: Address) -> (saved: Result<
        Cart,
        Error,
    >)
        requires
            answers_all(&self.shipping, cart.currency),
        ensures
            exists|after: Cart| #[trigger]
                (Cart { shipping_address: Some(address), ..cart }).touched(after) && settlement(
                    &self.shipping,
                    after,
                    saved,
                ),
    {
        let mut changed = cart;
        changed.set_shipping_address(address);
        assert((Cart { shipping_address: Some(address), ..cart }).touched(changed));
        self.settle(changed)
    }

    /// Re-group shipments and re-rate shipping without other changes.
    pub fn regroup(&self, cart: Cart) -> (saved: Result<Cart, Error>)
        requires
            answers_all(&self.shipping, cart.currency),
        ensures
            settlement(&self.shipping, cart, saved),
    {
        self.settle(cart)
    }

    /// Whether a cart has to be saved, given the version at which it was read. A cart that
    /// no operation changed keeps its version and is left where it is.
    pub fn needs_saving(&self, loaded: u64, cart: &Cart) -> (needed: bool)
        ensures
            needed == (cart.version != loaded || loaded == u64::MAX),
    {
        cart.version != loaded || loaded == u64::MAX
    }

    /// Bring the shipments of a mutated cart up to date.
    fn settle(&self, cart: Cart) -> (saved: Result<Cart, Error>)
        requires
            answers_all(&self.shipping, cart.currency),
        ensures
            settlement(&self.shipping, cart, saved),
    {
        let mut settled = cart;
        if settled.items.len() > 0 {
            match settled.regroup_fulfillment(&self.shipping) {
                Ok(_) => Ok(settled),
                Err(error) => Err(error),
            }
        } else {
            settled.fulfillment_groups.clear();
            Ok(settled)
        }
    }
}

/// A cart that is left empty keeps no shipments: whatever operation emptied it, what is
/// saved holds no fulfilment groups.
pub proof fn law_empty_carts_have_no_shipments<R: ShippingRates>(
    rates: &R,
    before: Cart,
    after: Cart,
)
    requires
        settles(rates, before, after),
        before.items@.len() == 0,
    ensures
        after.items@.len() == 0,
        after.fulfillment_groups@.len() == 0,
{
}

} // verus!
