use payments::error::Error;
use payments::ids::{CustomerId, OrderId, ShopId};
use payments::ledger::{GiftCard, GiftCardStatus, ShopCreditAccount};
use payments::money::{Currency, Money};
use payments::time::Timestamp;

fn usd(minor: i64) -> Money {
    Money::from_minor(minor, Currency::USD)
}

fn account() -> ShopCreditAccount {
    ShopCreditAccount::new(
        CustomerId::from_string("cus_1"),
        ShopId::from_string("shop-1"),
        Currency::USD,
    )
}

#[test]
fn balance_is_derived_from_entries() {
    let mut account = account();
    assert_eq!(account.balance(), usd(0));
    account.grant(usd(5_000), "goodwill", None).unwrap();
    account.grant(usd(1_000), "loyalty", None).unwrap();
    assert_eq!(account.balance(), usd(6_000));
    assert_eq!(account.entries.len(), 2);
}

#[test]
fn cannot_spend_more_than_the_balance() {
    let mut account = account();
    account.grant(usd(1_000), "goodwill", None).unwrap();
    let error = account.redeem(usd(1_001), OrderId::from_string("ord_1"), None).unwrap_err();
    assert!(matches!(error, Error::InsufficientFunds { .. }));
    assert_eq!(account.balance(), usd(1_000));
}

#[test]
fn redemption_and_reversal_round_trip() {
    let mut account = account();
    let order = OrderId::from_string("ord_1");
    account.grant(usd(5_000), "goodwill", None).unwrap();
    account.redeem(usd(2_000), order.clone(), None).unwrap();
    assert_eq!(account.balance(), usd(3_000));
    assert_eq!(account.redeemed_for(&order).unwrap(), usd(2_000));

    account.reverse(usd(500), order.clone(), None).unwrap();
    assert_eq!(account.balance(), usd(3_500));
    assert_eq!(account.redeemed_for(&order).unwrap(), usd(1_500));

    // Over-reversing would create money out of nothing.
    assert!(account.reverse(usd(2_000), order, None).is_err());
}

#[test]
fn idempotency_keys_prevent_double_application() {
    let mut account = account();
    account.grant(usd(1_000), "welcome", Some("key-1".into())).unwrap();
    let error = account.grant(usd(1_000), "welcome", Some("key-1".into())).unwrap_err();
    assert!(matches!(error, Error::Conflict { .. }));
    assert_eq!(account.balance(), usd(1_000));
}

#[test]
fn no_key_is_recorded_twice() {
    let mut account = account();
    let order = OrderId::from_string("ord_1");
    account.grant(usd(1_000), "welcome", Some("key-1".into())).unwrap();
    account.redeem(usd(400), order.clone(), Some("key-2".into())).unwrap();
    assert!(account.redeem(usd(400), order.clone(), Some("key-1".into())).is_err());
    assert!(account.reverse(usd(100), order.clone(), Some("key-2".into())).is_err());
    assert!(account.reverse(usd(100), order.clone(), Some("key-1".into())).is_err());
    account.reverse(usd(100), order, Some("key-3".into())).unwrap();
    account.grant(usd(1), "loyalty", None).unwrap();
    account.grant(usd(1), "loyalty", None).unwrap();

    let keys: Vec<&String> =
        account.entries.iter().filter_map(|entry| entry.idempotency_key.as_ref()).collect();
    assert_eq!(keys, vec!["key-1", "key-2", "key-3"]);
    assert_eq!(account.balance(), usd(702));
}

#[test]
fn credit_currency_is_enforced() {
    let mut account = account();
    assert!(account.grant(Money::from_minor(100, Currency::EUR), "x", None).is_err());
    assert!(account.grant(usd(0), "x", None).is_err());
}

fn card() -> GiftCard {
    GiftCard::issue("GIFT-1234-5678", usd(5_000)).unwrap()
}

#[test]
fn codes_are_hashed_normalised_and_masked() {
    let card = card();
    assert_ne!(card.code_hash, "GIFT-1234-5678");
    assert_eq!(card.code_hash.len(), 64);
    assert!(!card.masked_code.contains("1234"));
    assert!(card.matches_code("gift12345678"));
    assert!(card.matches_code("GIFT-1234-5678"));
    assert!(!card.matches_code("GIFT-1234-5679"));
    assert!(GiftCard::issue("short", usd(100)).is_err());
}

#[test]
fn codes_hash_with_sha256() {
    // The digest of "GIFT12345678", without the separators.
    let hash = payments::ledger::hash_gift_card_code("gift-1234-5678");
    assert_eq!(hash, payments::ledger::hash_gift_card_code("GIFT12345678"));
    assert_eq!(
        payments::ledger::hash_gift_card_code("abc"),
        "b5d4045c3f466fa91fe2cc6abe79232a1a57cdf104f7a26e716e0a1e2789df78"
    );
    assert_eq!(
        payments::ledger::hash_gift_card_code("ä-1"),
        payments::ledger::hash_gift_card_code("ä1")
    );
}

#[test]
fn redemption_reduces_the_balance_and_depletes_the_card() {
    let mut card = card();
    let order = OrderId::from_string("ord_1");
    let now = Timestamp::now();
    card.redeem(usd(2_000), order.clone(), now, None).unwrap();
    assert_eq!(card.balance, usd(3_000));
    assert_eq!(card.status, GiftCardStatus::Active);

    card.redeem(usd(3_000), order.clone(), now, None).unwrap();
    assert_eq!(card.status, GiftCardStatus::Depleted);
    assert!(card.ensure_redeemable(now).is_err());
    assert_eq!(card.redeemed_for(&order).unwrap(), usd(5_000));
}

#[test]
fn cannot_overspend() {
    let mut card = card();
    let error = card
        .redeem(usd(5_001), OrderId::from_string("ord_1"), Timestamp::now(), None)
        .unwrap_err();
    assert!(matches!(error, Error::InsufficientFunds { .. }));
}

#[test]
fn expiry_blocks_redemption() {
    let now = Timestamp::now();
    let yesterday = Timestamp { seconds: now.seconds - 86_400, nanos: now.nanos };
    let mut expired = card().expiring_at(yesterday);
    assert!(!expired.is_redeemable(now));
    assert!(expired.redeem(usd(100), OrderId::from_string("o"), now, None).is_err());
    assert_eq!(expired.applicable_amount(usd(100), now).unwrap(), usd(0));
}

#[test]
fn refunds_restore_the_balance() {
    let mut card = card();
    let order = OrderId::from_string("ord_1");
    let now = Timestamp::now();
    card.redeem(usd(5_000), order.clone(), now, None).unwrap();
    assert_eq!(card.status, GiftCardStatus::Depleted);

    card.restore(usd(1_000), order.clone(), now).unwrap();
    assert_eq!(card.balance, usd(1_000));
    assert_eq!(card.status, GiftCardStatus::Active);
    assert_eq!(card.redeemed_for(&order).unwrap(), usd(4_000));

    assert!(card.restore(usd(9_999), order, now).is_err());
}

#[test]
fn applicable_amount_is_capped_by_the_balance() {
    let card = card();
    let now = Timestamp::now();
    assert_eq!(card.applicable_amount(usd(9_000), now).unwrap(), usd(5_000));
    assert_eq!(card.applicable_amount(usd(1_000), now).unwrap(), usd(1_000));
}

#[test]
fn idempotent_redemption_is_rejected_not_duplicated() {
    let mut card = card();
    let order = OrderId::from_string("ord_1");
    let now = Timestamp::now();
    card.redeem(usd(1_000), order.clone(), now, Some("k1".into())).unwrap();
    assert!(card.redeem(usd(1_000), order, now, Some("k1".into())).is_err());
    assert_eq!(card.balance, usd(4_000));
}

#[test]
fn movements_explain_the_balance() {
    let mut card = card();
    let now = Timestamp::now();
    card.redeem(usd(2_000), OrderId::from_string("ord_1"), now, None).unwrap();
    card.redeem(usd(500), OrderId::from_string("ord_2"), now, None).unwrap();
    card.restore(usd(700), OrderId::from_string("ord_1"), now).unwrap();
    let moved: i64 = card.redemptions.iter().map(|movement| movement.amount.minor()).sum();
    assert_eq!(moved, -1_800);
    assert_eq!(card.balance.minor(), card.initial_balance.minor() + moved);
    assert_eq!(card.redeemed_for(&OrderId::from_string("ord_1")).unwrap(), usd(1_300));
}

#[test]
fn refunds_can_be_put_back_under_a_key() {
    let mut card = GiftCard::issue("GIFT-2024-ABCD", usd(3_000)).unwrap();
    let order = OrderId::from_string("ord_1");
    let now = Timestamp::now();
    card.redeem(usd(2_000), order.clone(), now, None).unwrap();
    card.put_back(usd(500), order.clone(), now, Some("r-1".into())).unwrap();
    assert_eq!(card.balance, usd(1_500));
    assert_eq!(card.redeemed_for(&order).unwrap(), usd(1_500));
    assert!(card.is_restored(&order, "r-1"));
    assert!(!card.is_restored(&order, "r-2"));
    assert!(!card.is_restored(&OrderId::from_string("ord_2"), "r-1"));
}

#[test]
fn reversals_are_found_by_order_and_key() {
    let mut account = ShopCreditAccount::new(
        CustomerId::from_string("cus_1"),
        ShopId::from_string("shop-1"),
        Currency::USD,
    );
    let order = OrderId::from_string("ord_1");
    account.grant(usd(1_000), "welcome", Some("g-1".into())).unwrap();
    account.redeem(usd(600), order.clone(), Some("t-1".into())).unwrap();
    account.reverse(usd(200), order.clone(), Some("r-1".into())).unwrap();
    assert!(account.is_reversed(&order, "r-1"));
    assert!(!account.is_reversed(&order, "t-1"));
    assert!(!account.is_reversed(&OrderId::from_string("ord_2"), "r-1"));
}
