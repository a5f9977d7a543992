//! Gift cards and shop credit at checkout: what a cart offers, spending it on
//! an order, and giving it back.

use vstd::prelude::*;

use crate::cart::Cart;
use crate::error::{Error, ErrorView};
use crate::ids::{CustomerId, GiftCardId, OrderId, ShopId};
use crate::ledger::credit::{gives_back, CreditEntryKind, ShopCreditAccount};
use crate::ledger::giftcard::{GiftCard, GiftCardRedemption, GiftCardStatus};
use crate::money::{Currency, Money};
use crate::order::Order;
use crate::payment::tender::{TenderKind, TenderOffer};
use crate::pricing::{Quote, ShopTotals};
use crate::text::{digits, join, join3, optional_text, push_digits};
use crate::time::Timestamp;

verus! {

// What a cart offers.

/// The gift cards of a list that were found and can be spent in a currency.
pub open spec fn spendable_cards(
    found: Seq<Option<GiftCard>>,
    currency: Currency,
    now: Timestamp,
) -> Seq<GiftCard>
    decreases found.len(),
{
    if found.len() == 0 {
        Seq::empty()
    } else {
        let before = spendable_cards(found.drop_last(), currency, now);
        match found.last() {
            Some(card) => if card.usable(now) && card.currency == currency {
                before.push(card)
            } else {
                before
            },
            None => before,
        }
    }
}

/// The shops of a quote at which there is credit to spend, with the credit. The accounts
/// are those of the shops of the quote, in its order.
pub open spec fn spendable_credit(
    shops: Seq<ShopTotals>,
    found: Seq<Option<ShopCreditAccount>>,
    n: int,
) -> Seq<(ShopId, Money)>
    decreases n,
{
    if n <= 0 {
        Seq::empty()
    } else {
        let before = spendable_credit(shops, found, n - 1);
        match found[n - 1] {
            Some(account) => if account.remaining().minor > 0 {
                before.push((shops[n - 1].shop_id, account.remaining()))
            } else {
                before
            },
            None => before,
        }
    }
}

/// Whether an offer is the one of a gift card.
pub open spec fn offers_card(offer: TenderOffer, card: GiftCard) -> bool {
    &&& offer.kind matches TenderKind::GiftCard { gift_card_id, masked_code } && gift_card_id
        == card.id && masked_code@ == card.masked_code@
    &&& offer.available == Some(card.balance)
    &&& offer.restricted_to_shop == card.shop_id
    &&& offer.max_amount is None
    &&& offer.priority is None
}

/// The offer of credit at a shop.
pub open spec fn credit_offer(credit: (ShopId, Money)) -> TenderOffer {
    TenderOffer {
        kind: TenderKind::ShopCredit { shop_id: credit.0 },
        available: Some(credit.1),
        restricted_to_shop: Some(credit.0),
        max_amount: None,
        priority: None,
    }
}

/// The credit that a cart asks to be applied. Without a known shopper there is none.
pub open spec fn applied_credit(
    cart: Cart,
    shops: Seq<ShopTotals>,
    found: Seq<Option<ShopCreditAccount>>,
) -> Seq<(ShopId, Money)> {
    if cart.apply_shop_credit && cart.customer_id is Some {
        spendable_credit(
            shops,
            found,
            if shops.len() < found.len() {
                shops.len() as int
            } else {
                found.len() as int
            },
        )
    } else {
        Seq::empty()
    }
}

/// Whether a list of offers is what a cart implies.
pub open spec fn are_offers(
    offers: Seq<TenderOffer>,
    cards: Seq<GiftCard>,
    credit: Seq<(ShopId, Money)>,
) -> bool {
    &&& offers.len() == cards.len() + credit.len()
    &&& forall|i: int| 0 <= i < cards.len() ==> offers_card(#[trigger] offers[i], cards[i])
    &&& forall|i: int|
        cards.len() <= i < offers.len() ==> #[trigger] offers[i] == credit_offer(
            credit[i - cards.len()],
        )
}

/// Build the tender offers implied by a cart: gift cards staged on it and
/// the shopper's shop credit, in the order they should be applied.
///
/// `cards` holds what was found under each gift card code of the cart, and `accounts` the
/// shopper's credit account at each shop of the quote.
pub fn stored_value_offers(
    cart: &Cart,
    quote: &Quote,
    cards: &Vec<Option<GiftCard>>,
    accounts: &Vec<Option<ShopCreditAccount>>,
    now: Timestamp,
) -> (offers: Vec<TenderOffer>)
    ensures
        are_offers(
            offers@,
            spendable_cards(cards@, cart.currency, now),
            applied_credit(*cart, quote.shop_totals@, accounts@),
        ),
{
    let ghost all = spendable_cards(cards@, cart.currency, now);
    let mut offers: Vec<TenderOffer> = Vec::new();
    let mut n: usize = 0;
    assert(cards@.take(0) =~= Seq::<Option<GiftCard>>::empty());
    while n < cards.len()
        invariant
            n <= cards@.len(),
            are_offers(
                offers@,
                spendable_cards(cards@.take(n as int), cart.currency, now),
                Seq::empty(),
            ),
        decreases cards@.len() - n,
    {
        assert(cards@.take(n + 1).drop_last() =~= cards@.take(n as int));
        if let Some(card) = &cards[n] {
            if card.is_redeemable(now) && card.currency == cart.currency {
                let mut offer = TenderOffer::gift_card(
                    card.id.clone(),
                    card.masked_code.as_str(),
                    card.balance,
                );
                if let Some(shop) = &card.shop_id {
                    offer = offer.restricted_to(shop.clone());
                }
                offers.push(offer);
            }
        }
        n += 1;
    }
    assert(cards@.take(n as int) =~= cards@);
    if !cart.apply_shop_credit || cart.customer_id.is_none() {
        return offers;
    }
    let ghost shops = quote.shop_totals@;
    let mut k: usize = 0;
    while k < quote.shop_totals.len() && k < accounts.len()
        invariant
            shops == quote.shop_totals@,
            k <= shops.len(),
            k <= accounts@.len(),
            are_offers(offers@, all, spendable_credit(shops, accounts@, k as int)),
        decreases shops.len() - k,
    {
        let ghost before = spendable_credit(shops, accounts@, k as int);
        let ghost earlier = offers@;
        if let Some(account) = &accounts[k] {
            let balance = account.balance();
            if balance.is_positive() {
                let ghost credit = (shops[k as int].shop_id, balance);
                offers.push(
                    TenderOffer::shop_credit(quote.shop_totals[k].shop_id.clone(), balance),
                );
                assert(spendable_credit(shops, accounts@, k + 1) == before.push(credit));
                assert forall|i: int| all.len() <= i < offers@.len() implies #[trigger] offers@[i]
                    == credit_offer(before.push(credit)[i - all.len()]) by {
                    if i < earlier.len() {
                        assert(offers@[i] == earlier[i]);
                    }
                }
                assert forall|i: int| 0 <= i < all.len() implies offers_card(
                    #[trigger] offers@[i],
                    all[i],
                ) by {
                    assert(offers@[i] == earlier[i]);
                }
            }
        }
        k += 1;
    }
    offers
}

// Spending stored value on an order.

/// The idempotency key of a tender's redemption.
pub open spec fn redemption_key(order: Seq<char>, index: nat) -> Seq<char> {
    order + ":tender:"@ + digits(index)
}

fn make_redemption_key(order: &OrderId, index: usize) -> (key: String)
    ensures
        key@ == redemption_key(order@, index as nat),
{
    let mut key = join(order.as_str(), ":tender:");
    push_digits(&mut key, index as u64);
    key
}

/// The owner of the shop credit spent on an order.
pub fn credit_owner(order: &Order) -> (owner: Result<CustomerId, Error>)
    ensures
        match owner {
            Ok(id) => order.customer_id == Some(id),
            Err(error) => order.customer_id is None && error@ == ErrorView::Internal(
                "shop credit without a customer"@,
            ),
        },
{
    match &order.customer_id {
        Some(id) => Ok(id.clone()),
        None => Err(Error::internal("shop credit without a customer")),
    }
}

/// A card after an order spent an amount of it.
pub open spec fn card_spent(
    card: GiftCard,
    order: OrderId,
    amount: Money,
    now: Timestamp,
    key: Seq<char>,
    after: GiftCard,
) -> bool {
    let left = card.redeeming(amount, now, Some(key));
    let last = after.redemptions@.last();
    &&& left is Ok
    &&& after.redemptions@.len() > 0
    &&& optional_text(last.idempotency_key) == Some(key)
    &&& card.moved(
        GiftCardRedemption {
            order_id: order,
            amount: Money { minor: (-amount.minor) as i64, currency: amount.currency },
            occurred_at: now,
            idempotency_key: last.idempotency_key,
        },
        left->Ok_0,
        if left->Ok_0.minor == 0 {
            GiftCardStatus::Depleted
        } else {
            card.status
        },
        after,
    )
}

/// What spending a gift card on a tender of an order gives: the card to save, or nothing
/// where the tender was already applied.
pub open spec fn card_redeemed(
    order: Order,
    index: int,
    id: Seq<char>,
    found: Option<GiftCard>,
    now: Timestamp,
    result: Result<Option<GiftCard>, Error>,
) -> bool {
    let key = redemption_key(order.id@, index as nat);
    let amount = order.tenders@[index].amount;
    match found {
        None => result is Err && result->Err_0@ == (ErrorView::NotFound {
            kind: "gift card"@,
            id,
        }),
        Some(card) => if card.keyed(key) {
            result matches Ok(nothing) && nothing is None
        } else {
            match card.redeeming(amount, now, Some(key)) {
                Err(error) => result is Err && result->Err_0@ == error,
                Ok(_) => result matches Ok(Some(after)) && card_spent(
                    card,
                    order.id,
                    amount,
                    now,
                    key,
                    after,
                ),
            }
        },
    }
}

/// Spend a gift card on a tender of an order.
pub fn redeem_gift_card(
    order: &Order,
    index: usize,
    gift_card_id: &GiftCardId,
    found: Option<GiftCard>,
    now: Timestamp,
) -> (result: Result<Option<GiftCard>, Error>)
    requires
        index < order.tenders@.len(),
    ensures
        card_redeemed(*order, index as int, gift_card_id@, found, now, result),
{
    let mut card = match found {
        Some(card) => card,
        None => return Err(Error::not_found("gift card", gift_card_id.as_str())),
    };
    let key = make_redemption_key(&order.id, index);
    if card.has_key(key.as_str()) {
        return Ok(None);
    }
    match card.redeem(order.tenders[index].amount, order.id.clone(), now, Some(key)) {
        Ok(_) => Ok(Some(card)),
        Err(error) => Err(error),
    }
}

/// An account after an order spent an amount of it.
pub open spec fn credit_spent(
    account: ShopCreditAccount,
    order: OrderId,
    amount: Money,
    key: Seq<char>,
    after: ShopCreditAccount,
) -> bool {
    let left = account.redeeming(amount, Some(key));
    let last = after.entries@.last();
    &&& left is Ok
    &&& optional_text(last.idempotency_key) == Some(key)
    &&& account.extended(
        Money { minor: (-amount.minor) as i64, currency: amount.currency },
        CreditEntryKind::Redemption { order_id: order },
        last.idempotency_key,
        left->Ok_0,
        after,
    )
}

/// What spending shop credit on a tender of an order gives: the account to save, or nothing
/// where the tender was already applied.
pub open spec fn credit_redeemed(
    order: Order,
    index: int,
    shop: Seq<char>,
    found: Option<ShopCreditAccount>,
    result: Result<Option<ShopCreditAccount>, Error>,
) -> bool {
    let key = redemption_key(order.id@, index as nat);
    let amount = order.tenders@[index].amount;
    match found {
        None => result is Err && result->Err_0@ == (ErrorView::NotFound {
            kind: "shop credit"@,
            id: shop,
        }),
        Some(account) => if account.keyed(key) {
            result matches Ok(nothing) && nothing is None
        } else {
            match account.redeeming(amount, Some(key)) {
                Err(error) => result is Err && result->Err_0@ == error,
                Ok(_) => result matches Ok(Some(after)) && credit_spent(
                    account,
                    order.id,
                    amount,
                    key,
                    after,
                ),
            }
        },
    }
}

/// Spend shop credit on a tender of an order.
pub fn redeem_credit(
    order: &Order,
    index: usize,
    shop_id: &ShopId,
    found: Option<ShopCreditAccount>,
) -> (result: Result<Option<ShopCreditAccount>, Error>)
    requires
        index < order.tenders@.len(),
    ensures
        credit_redeemed(*order, index as int, shop_id@, found, result),
{
    let mut account = match found {
        Some(account) => account,
        None => return Err(Error::not_found("shop credit", shop_id.as_str())),
    };
    let key = make_redemption_key(&order.id, index);
    if account.has_key(key.as_str()) {
        return Ok(None);
    }
    match account.redeem(order.tenders[index].amount, order.id.clone(), Some(key)) {
        Ok(_) => {},
        Err(error) => return Err(error),
    }
    Ok(Some(account))
}

// Giving stored value back.

/// A card after an amount was put back on it, under a key where there is one.
pub open spec fn card_restored(
    card: GiftCard,
    order: OrderId,
    amount: Money,
    now: Timestamp,
    key: Option<Seq<char>>,
    after: GiftCard,
) -> bool {
    let left = card.restoring(amount, order@);
    let last = after.redemptions@.last();
    &&& left is Ok
    &&& after.redemptions@.len() > 0
    &&& optional_text(last.idempotency_key) == key
    &&& card.moved(
        GiftCardRedemption {
            order_id: order,
            amount,
            occurred_at: now,
            idempotency_key: last.idempotency_key,
        },
        left->Ok_0,
        if card.status is Depleted && left->Ok_0.minor > 0 {
            GiftCardStatus::Active
        } else {
            card.status
        },
        after,
    )
}

/// What giving a gift card back all that an order spent of it gives: the card to save, or
/// nothing where the order spent nothing.
pub open spec fn card_released(
    order: OrderId,
    card: GiftCard,
    now: Timestamp,
    result: Result<Option<GiftCard>, Error>,
) -> bool {
    match card.spent(order@) {
        Err(error) => result is Err && result->Err_0@ == error,
        Ok(spent) => if spent.minor <= 0 {
            result matches Ok(nothing) && nothing is None
        } else {
            match card.restoring(spent, order@) {
                Err(error) => result is Err && result->Err_0@ == error,
                Ok(_) => result matches Ok(Some(after)) && card_restored(
                    card,
                    order,
                    spent,
                    now,
                    None,
                    after,
                ),
            }
        },
    }
}

/// Give a gift card back all that an order spent of it.
pub fn release_gift_card(order: &Order, card: GiftCard, now: Timestamp) -> (result: Result<
    Option<GiftCard>,
    Error,
>)
    ensures
        card_released(order.id, card, now, result),
{
    let mut card = card;
    let spent = match card.redeemed_for(&order.id) {
        Ok(spent) => spent,
        Err(error) => return Err(error),
    };
    if !spent.is_positive() {
        return Ok(None);
    }
    match card.restore(spent, order.id.clone(), now) {
        Ok(_) => Ok(Some(card)),
        Err(error) => Err(error),
    }
}

/// An account after an amount was given back to it.
pub open spec fn credit_restored(
    account: ShopCreditAccount,
    order: OrderId,
    amount: Money,
    key: Option<Seq<char>>,
    after: ShopCreditAccount,
) -> bool {
    let left = account.reversing(amount, order@, key);
    let last = after.entries@.last();
    &&& left is Ok
    &&& optional_text(last.idempotency_key) == key
    &&& account.extended(
        amount,
        CreditEntryKind::Reversal { order_id: order },
        last.idempotency_key,
        left->Ok_0,
        after,
    )
}

/// What giving an account back all that an order spent of it gives: the account to save, or
/// nothing where the order spent nothing.
pub open spec fn credit_released(
    order: OrderId,
    account: ShopCreditAccount,
    result: Result<Option<ShopCreditAccount>, Error>,
) -> bool {
    match account.spent(order@) {
        Err(error) => result is Err && result->Err_0@ == error,
        Ok(spent) => if spent.minor <= 0 {
            result matches Ok(nothing) && nothing is None
        } else {
            match account.reversing(spent, order@, None) {
                Err(error) => result is Err && result->Err_0@ == error,
                Ok(_) => result matches Ok(Some(after)) && credit_restored(
                    account,
                    order,
                    spent,
                    None,
                    after,
                ),
            }
        },
    }
}

/// Give an account back all that an order spent of it.
pub fn release_credit(order: &Order, account: ShopCreditAccount) -> (result: Result<
    Option<ShopCreditAccount>,
    Error,
>)
    requires
        account.sized(),
    ensures
        credit_released(order.id, account, result),
{
    let mut account = account;
    let spent = match account.redeemed_for(&order.id) {
        Ok(spent) => spent,
        Err(error) => return Err(error),
    };
    if !spent.is_positive() {
        return Ok(None);
    }
    match account.reverse(spent, order.id.clone(), None) {
        Ok(_) => {},
        Err(error) => return Err(error),
    }
    Ok(Some(account))
}

/// The idempotency key of what a refund gives back to a tender.
pub open spec fn refund_key(request_key: Seq<char>, order: Seq<char>, index: nat) -> Seq<char> {
    request_key + ":"@ + redemption_key(order, index)
}

fn make_refund_key(request_key: &str, order: &OrderId, index: usize) -> (key: String)
    ensures
        key@ == refund_key(request_key@, order@, index as nat),
{
    join3(request_key, ":", make_redemption_key(order, index).as_str())
}

/// What putting a refund back on a gift card gives: the card to save, or nothing where the
/// refund was already put back.
pub open spec fn card_refunded(
    order: Order,
    index: nat,
    amount: Money,
    id: Seq<char>,
    request_key: Seq<char>,
    found: Option<GiftCard>,
    now: Timestamp,
    result: Result<Option<GiftCard>, Error>,
) -> bool {
    let key = refund_key(request_key, order.id@, index);
    match found {
        None => result is Err && result->Err_0@ == (ErrorView::NotFound {
            kind: "gift card"@,
            id,
        }),
        Some(card) => if card.restored_under(order.id@, key) {
            result matches Ok(nothing) && nothing is None
        } else {
            match card.restoring(amount, order.id@) {
                Err(error) => result is Err && result->Err_0@ == error,
                Ok(_) => result matches Ok(Some(after)) && card_restored(
                    card,
                    order.id,
                    amount,
                    now,
                    Some(key),
                    after,
                ),
            }
        },
    }
}

/// Put the refund of a tender back on a gift card.
pub fn refund_gift_card(
    order: &Order,
    index: usize,
    amount: Money,
    gift_card_id: &GiftCardId,
    request_key: &str,
    found: Option<GiftCard>,
    now: Timestamp,
) -> (result: Result<Option<GiftCard>, Error>)
    ensures
        card_refunded(
            *order,
            index as nat,
            amount,
            gift_card_id@,
            request_key@,
            found,
            now,
            result,
        ),
{
    let mut card = match found {
        Some(card) => card,
        None => return Err(Error::not_found("gift card", gift_card_id.as_str())),
    };
    let key = make_refund_key(request_key, &order.id, index);
    if card.is_restored(&order.id, key.as_str()) {
        return Ok(None);
    }
    match card.put_back(amount, order.id.clone(), now, Some(key)) {
        Ok(_) => Ok(Some(card)),
        Err(error) => Err(error),
    }
}

/// What giving a refund back to a credit account gives: the account to save, or nothing
/// where the refund was already given back.
pub open spec fn credit_refunded(
    order: Order,
    index: nat,
    amount: Money,
    shop: Seq<char>,
    request_key: Seq<char>,
    found: Option<ShopCreditAccount>,
    result: Result<Option<ShopCreditAccount>, Error>,
) -> bool {
    let key = refund_key(request_key, order.id@, index);
    match found {
        None => result is Err && result->Err_0@ == (ErrorView::NotFound {
            kind: "shop credit"@,
            id: shop,
        }),
        Some(account) => if account.reversed_under(order.id@, key) {
            result matches Ok(nothing) && nothing is None
        } else {
            match account.reversing(amount, order.id@, Some(key)) {
                Err(error) => result is Err && result->Err_0@ == error,
                Ok(_) => result matches Ok(Some(after)) && credit_restored(
                    account,
                    order.id,
                    amount,
                    Some(key),
                    after,
                ),
            }
        },
    }
}

/// Put the refund of a tender back on a credit account.
pub fn refund_credit(
    order: &Order,
    index: usize,
    amount: Money,
    shop_id: &ShopId,
    request_key: &str,
    found: Option<ShopCreditAccount>,
) -> (result: Result<Option<ShopCreditAccount>, Error>)
    requires
        found matches Some(account) ==> account.sized(),
    ensures
        credit_refunded(
            *order,
            index as nat,
            amount,
            shop_id@,
            request_key@,
            found,
            result,
        ),
{
    let mut account = match found {
        Some(account) => account,
        None => return Err(Error::not_found("shop credit", shop_id.as_str())),
    };
    let key = make_refund_key(request_key, &order.id, index);
    if account.is_reversed(&order.id, key.as_str()) {
        return Ok(None);
    }
    match account.reverse(amount, order.id.clone(), Some(key)) {
        Ok(_) => {},
        Err(error) => return Err(error),
    }
    Ok(Some(account))
}

/// A tender spends its gift card once: redeeming it a second time changes nothing.
pub proof fn law_gift_cards_are_spent_once(
    order: Order,
    index: int,
    id: Seq<char>,
    card: GiftCard,
    first: Timestamp,
    redeemed: Result<Option<GiftCard>, Error>,
    second: Timestamp,
    again: Result<Option<GiftCard>, Error>,
)
    requires
        card_redeemed(order, index, id, Some(card), first, redeemed),
        redeemed matches Ok(Some(spent)) && card_redeemed(
            order,
            index,
            id,
            Some(spent),
            second,
            again,
        ),
    ensures
        again == Ok::<Option<GiftCard>, Error>(None),
{
    let spent = redeemed->Ok_0->0;
    let last = spent.redemptions@.len() - 1;
    assert(optional_text(spent.redemptions@[last].idempotency_key) == Some(
        redemption_key(order.id@, index as nat),
    ));
}

/// A tender spends its shop credit once: redeeming it a second time changes nothing.
pub proof fn law_shop_credit_is_spent_once(
    order: Order,
    index: int,
    shop: Seq<char>,
    account: ShopCreditAccount,
    redeemed: Result<Option<ShopCreditAccount>, Error>,
    again: Result<Option<ShopCreditAccount>, Error>,
)
    requires
        credit_redeemed(order, index, shop, Some(account), redeemed),
        redeemed matches Ok(Some(spent)) && credit_redeemed(
            order,
            index,
            shop,
            Some(spent),
            again,
        ),
    ensures
        again == Ok::<Option<ShopCreditAccount>, Error>(None),
{
    let spent = redeemed->Ok_0->0;
    let last = spent.entries@.len() - 1;
    assert(optional_text(spent.entries@[last].idempotency_key) == Some(
        redemption_key(order.id@, index as nat),
    ));
}

/// A refund goes back to a gift card once: putting it back a second time under the same key
/// changes nothing, so a refund that stopped half way can be retried.
pub proof fn law_gift_cards_are_refunded_once(
    order: Order,
    index: nat,
    amount: Money,
    id: Seq<char>,
    request_key: Seq<char>,
    card: GiftCard,
    first: Timestamp,
    refunded: Result<Option<GiftCard>, Error>,
    repeat: Money,
    second: Timestamp,
    again: Result<Option<GiftCard>, Error>,
)
    requires
        card_refunded(order, index, amount, id, request_key, Some(card), first, refunded),
        refunded matches Ok(Some(whole)) && card_refunded(
            order,
            index,
            repeat,
            id,
            request_key,
            Some(whole),
            second,
            again,
        ),
    ensures
        again == Ok::<Option<GiftCard>, Error>(None),
{
    let whole = refunded->Ok_0->0;
    let last = whole.redemptions@.len() - 1;
    assert(whole.redemptions@[last].order_id@ == order.id@);
}

/// A refund goes back to a credit account once: giving it back a second time under the same
/// key changes nothing, so a refund that stopped half way can be retried.
pub proof fn law_shop_credit_is_refunded_once(
    order: Order,
    index: nat,
    amount: Money,
    shop: Seq<char>,
    request_key: Seq<char>,
    account: ShopCreditAccount,
    refunded: Result<Option<ShopCreditAccount>, Error>,
    repeat: Money,
    again: Result<Option<ShopCreditAccount>, Error>,
)
    requires
        credit_refunded(order, index, amount, shop, request_key, Some(account), refunded),
        refunded matches Ok(Some(whole)) && credit_refunded(
            order,
            index,
            repeat,
            shop,
            request_key,
            Some(whole),
            again,
        ),
    ensures
        again == Ok::<Option<ShopCreditAccount>, Error>(None),
{
    let whole = refunded->Ok_0->0;
    let last = whole.entries@.len() - 1;
    assert(gives_back(
        whole.entries@[last],
        order.id@,
        refund_key(request_key, order.id@, index),
    ));
}

/// A gift card that an unfinished checkout spent is whole again once it is released: the
/// release succeeds, and the balance and the status are what they were before.
pub proof fn law_releasing_restores_a_gift_card(
    order: Order,
    index: int,
    id: Seq<char>,
    card: GiftCard,
    first: Timestamp,
    redeemed: Result<Option<GiftCard>, Error>,
    second: Timestamp,
    released: Result<Option<GiftCard>, Error>,
)
    requires
        card.sound(),
        crate::ledger::giftcard::spent_on(
            card.redemptions@,
            order.id@,
            card.currency,
            card.redemptions@.len() as int,
        ) == Ok::<Money, ErrorView>(Money { minor: 0, currency: card.currency }),
        card_redeemed(order, index, id, Some(card), first, redeemed),
        redeemed matches Ok(Some(spent)) && card_released(order.id, spent, second, released),
    ensures
        released matches Ok(Some(whole)) && whole.balance == card.balance && whole.status
            == card.status,
{
    let key = redemption_key(order.id@, index as nat);
    let spent = redeemed->Ok_0->0;
    crate::ledger::giftcard::law_restoring_undoes_a_redemption(
        card,
        order.tenders@[index].amount,
        order.id,
        first,
        spent.redemptions@.last().idempotency_key,
        spent,
        Money { minor: 0, currency: card.currency },
    );
}

/// Shop credit that an unfinished checkout spent is whole again once it is released: the
/// release succeeds, and the balance is what it was before.
pub proof fn law_releasing_restores_shop_credit(
    order: Order,
    index: int,
    shop: Seq<char>,
    account: ShopCreditAccount,
    redeemed: Result<Option<ShopCreditAccount>, Error>,
    released: Result<Option<ShopCreditAccount>, Error>,
)
    requires
        account.sound(),
        crate::ledger::credit::spent_on(
            account.entries@,
            order.id@,
            account.currency,
            account.entries@.len() as int,
        ) == Ok::<Money, ErrorView>(Money { minor: 0, currency: account.currency }),
        credit_redeemed(order, index, shop, Some(account), redeemed),
        redeemed matches Ok(Some(spent)) && credit_released(order.id, spent, released),
    ensures
        released matches Ok(Some(whole)) && whole.remaining() == account.remaining(),
{
    let spent = redeemed->Ok_0->0;
    crate::ledger::credit::law_spent_credit_can_be_reversed(
        account,
        order.tenders@[index].amount,
        order.id,
        spent.entries@.last().idempotency_key,
        spent,
        Money { minor: 0, currency: account.currency },
    );
}

/// The cards that are offered are those that were found, can be used and are in the currency
/// of the cart, in the order of its codes.
pub proof fn law_usable_cards_are_offered(
    found: Seq<Option<GiftCard>>,
    card: GiftCard,
    currency: Currency,
    now: Timestamp,
)
    ensures
        card.usable(now) && card.currency == currency ==> spendable_cards(
            found.push(Some(card)),
            currency,
            now,
        ) == spendable_cards(found, currency, now).push(card),
        !card.usable(now) || card.currency != currency ==> spendable_cards(
            found.push(Some(card)),
            currency,
            now,
        ) == spendable_cards(found, currency, now),
        spendable_cards(found.push(None), currency, now) == spendable_cards(found, currency, now),
        spendable_cards(Seq::empty(), currency, now) == Seq::<GiftCard>::empty(),
{
    assert(found.push(Some(card)).drop_last() =~= found);
    assert(found.push(None).drop_last() =~= found);
}

/// Credit is offered only where the cart asks for it and the shopper is known, and then at
/// every shop of the quote at which something is left.
pub proof fn law_credit_is_offered_where_it_is_left(
    cart: Cart,
    shops: Seq<ShopTotals>,
    found: Seq<Option<ShopCreditAccount>>,
    n: int,
)
    requires
        0 <= n < shops.len(),
        n < found.len(),
    ensures
        !cart.apply_shop_credit || cart.customer_id is None ==> applied_credit(
            cart,
            shops,
            found,
        ).len() == 0,
        found[n] matches Some(account) ==> {
            &&& account.remaining().minor > 0 ==> spendable_credit(shops, found, n + 1)
                == spendable_credit(shops, found, n).push((shops[n].shop_id, account.remaining()))
            &&& account.remaining().minor <= 0 ==> spendable_credit(shops, found, n + 1)
                == spendable_credit(shops, found, n)
        },
        found[n] is None ==> spendable_credit(shops, found, n + 1) == spendable_credit(
            shops,
            found,
            n,
        ),
        cart.apply_shop_credit && cart.customer_id is Some && shops.len() == found.len()
            ==> applied_credit(cart, shops, found) == spendable_credit(
            shops,
            found,
            shops.len() as int,
        ),
{
}

/// A card offers its balance and a shop its credit, each no further than the card or the
/// credit reaches.
pub proof fn law_offers_are_worth_what_is_left(
    offer: TenderOffer,
    card: GiftCard,
    credit: (ShopId, Money),
)
    requires
        offers_card(offer, card),
    ensures
        offer.kind is GiftCard,
        offer.available == Some(card.balance),
        offer.restricted_to_shop == card.shop_id,
        credit_offer(credit).kind is ShopCredit,
        credit_offer(credit).available == Some(credit.1),
        credit_offer(credit).restricted_to_shop == Some(credit.0),
{
}

/// Spending a card on a tender takes the amount of the tender off its balance and notes it
/// as spent; a card with nothing left is depleted.
pub proof fn law_spent_cards_have_less(
    card: GiftCard,
    order: OrderId,
    amount: Money,
    now: Timestamp,
    key: Seq<char>,
    after: GiftCard,
)
    requires
        card.sound(),
        card_spent(card, order, amount, now, key, after),
    ensures
        after.balance.minor == card.balance.minor - amount.minor,
        after.balance.currency == card.currency,
        after.redemptions@.len() == card.redemptions@.len() + 1,
        after.redemptions@.last().order_id == order,
        after.redemptions@.last().amount.minor == -amount.minor,
        after.status is Depleted <==> after.balance.minor == 0,
        after.balance.minor > 0 ==> after.status is Active,
{
}

/// Putting money back on a card adds it to its balance and notes it; a depleted card becomes
/// active again.
pub proof fn law_restored_cards_have_more(
    card: GiftCard,
    order: OrderId,
    amount: Money,
    now: Timestamp,
    key: Option<Seq<char>>,
    after: GiftCard,
)
    requires
        card.sound(),
        card_restored(card, order, amount, now, key, after),
    ensures
        after.balance.minor == card.balance.minor + amount.minor,
        after.redemptions@.len() == card.redemptions@.len() + 1,
        after.redemptions@.last().order_id == order,
        after.redemptions@.last().amount.minor == amount.minor,
        card.status is Depleted ==> after.status is Active,
        !(card.status is Depleted) ==> after.status == card.status,
{
}

/// Spending credit takes the amount off the balance, giving it back adds it; both are noted
/// under the order.
pub proof fn law_credit_moves_by_its_amount(
    account: ShopCreditAccount,
    order: OrderId,
    amount: Money,
    key: Seq<char>,
    after: ShopCreditAccount,
)
    requires
        account.sound(),
    ensures
        credit_spent(account, order, amount, key, after) ==> {
            &&& after.remaining().minor == account.remaining().minor - amount.minor
            &&& after.entries@.len() == account.entries@.len() + 1
            &&& after.entries@.last().kind == (CreditEntryKind::Redemption { order_id: order })
            &&& after.entries@.last().amount.minor == -amount.minor
        },
        credit_restored(account, order, amount, Some(key), after) ==> {
            &&& after.remaining().minor == account.remaining().minor + amount.minor
            &&& after.entries@.len() == account.entries@.len() + 1
            &&& after.entries@.last().kind == (CreditEntryKind::Reversal { order_id: order })
            &&& after.entries@.last().amount.minor == amount.minor
        },
{
    crate::ledger::credit::law_balance_is_derived_from_entries(account);
}

/// No two tenders of an order share a key, and neither do the refunds of two tenders.
pub proof fn law_tenders_have_their_own_keys(
    request: Seq<char>,
    order: Seq<char>,
    i: nat,
    j: nat,
)
    ensures
        redemption_key(order, i) == redemption_key(order, j) <==> i == j,
        refund_key(request, order, i) == refund_key(request, order, j) <==> i == j,
{
    crate::text::lemma_digits(i);
    crate::text::lemma_digits(j);
    let head = order + ":tender:"@;
    assert(redemption_key(order, i).skip(head.len() as int) =~= digits(i));
    assert(redemption_key(order, j).skip(head.len() as int) =~= digits(j));
    let start = request + ":"@;
    assert(refund_key(request, order, i).skip(start.len() as int) =~= redemption_key(order, i));
    assert(refund_key(request, order, j).skip(start.len() as int) =~= redemption_key(order, j));
}

} // verus!
