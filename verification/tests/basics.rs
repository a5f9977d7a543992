use payments::address::{Address, CountryCode, Jurisdiction};
use payments::collections::OrderedMap;
use payments::error::{DeclineCode, Error, ErrorCategory};
use payments::ids::{OrderId, ShopId};
use payments::secret::{mask_tail, SecretString};
use payments::sorting::{sort_positions, Rank};
use payments::text::{
    contains_text, parse_signed, chars_of, equal_ignoring_case, signed_to_text, split_on, to_lower,
    to_upper, trim,
};
use payments::time::{Duration, Timestamp};

#[test]
fn country_codes_normalise() {
    assert_eq!(CountryCode::new("us").unwrap(), CountryCode::US);
    assert!(CountryCode::new("USA").is_err());
}

#[test]
fn jurisdiction_matching_is_hierarchical() {
    let address = Address::new(CountryCode::US).with_region("CA").with_postal_code("94107");
    let target = address.jurisdiction();

    assert!(Jurisdiction::country(CountryCode::US).matches(&target));
    assert!(Jurisdiction::region(CountryCode::US, "ca").matches(&target));
    assert!(!Jurisdiction::region(CountryCode::US, "NY").matches(&target));
    assert!(!Jurisdiction::country(CountryCode::DE).matches(&target));

    assert_eq!(Jurisdiction::country(CountryCode::US).specificity(), 1);
    assert_eq!(target.specificity(), 3);
}

#[test]
fn unnamed_countries_keep_their_letters() {
    assert_eq!(CountryCode::new("fr").unwrap().as_str(), "FR");
    assert_eq!(CountryCode::default(), CountryCode::US);
    assert_eq!(Address::default().country, CountryCode::US);
}

#[test]
fn categories_and_retryability() {
    let declined =
        Error::Declined { code: DeclineCode::ProcessingError, message: "try again".into() };
    assert_eq!(declined.category(), ErrorCategory::Declined);
    assert!(declined.is_retryable());

    let fraud = Error::Declined { code: DeclineCode::Fraudulent, message: "nope".into() };
    assert!(!fraud.is_retryable());
    // Never leak the fraud signal to the shopper.
    assert!(!fraud.customer_message().to_lowercase().contains("fraud"));

    assert_eq!(Error::not_found("cart", "abc").category(), ErrorCategory::NotFound);
}

#[test]
fn errors_render_their_details() {
    assert_eq!(Error::not_found("cart", "abc").to_text(), "cart not found: abc");
    let gateway = Error::Gateway {
        gateway: "stripe".into(),
        provider_code: Some("api".into()),
        message: "down".into(),
        retryable: true,
    };
    assert!(gateway.is_retryable());
    assert!(gateway.to_text().contains("stripe"));
}

#[test]
fn ids_are_prefixed_unique_and_serde_transparent() {
    let a = OrderId::new();
    let b = OrderId::new();
    assert_ne!(a, b);
    assert!(a.as_str().starts_with("ord_"));
    assert_eq!(serde_json::to_string(&a.to_text()).unwrap(), format!("\"{}\"", a.as_str()));

    let external = ShopId::from_string("shop-42");
    assert_eq!(external.as_str(), "shop-42");
    assert_eq!(ShopId::kind(), "shop");
}

#[test]
fn generated_ids_end_in_hex_digits() {
    let id = OrderId::new();
    let digits = &id.as_str()[4..];
    assert_eq!(digits.len(), 32);
    assert!(digits.chars().all(|c| c.is_ascii_digit() || ('a'..='f').contains(&c)));
}

#[test]
fn secrets_never_render_their_contents() {
    let secret = SecretString::new("whsec_topsecret");
    assert_eq!(secret.to_text(), "***redacted***");
    assert_eq!(secret.debug_text(), "SecretString(***redacted***)");
    assert!(!secret.debug_text().contains("topsecret"));
    assert_eq!(secret.len(), 15);
}

#[test]
fn comparison_is_value_based() {
    assert!(SecretString::new("a") == SecretString::new("a"));
    assert!(SecretString::new("a") != SecretString::new("b"));
    assert!(!SecretString::new("abc").constant_time_eq("abcd"));
}

#[test]
fn masking() {
    assert_eq!(mask_tail("GIFT-1234-5678", 4), "**********5678");
    assert_eq!(mask_tail("abc", 4), "***");
}

#[test]
fn ordered_maps_list_their_keys_in_order() {
    let mut map: OrderedMap<u32> = OrderedMap::new();
    map.insert("b".to_owned(), 2);
    map.insert("a".to_owned(), 1);
    map.insert("b".to_owned(), 3);
    assert_eq!(map.len(), 2);
    assert_eq!((map.key_at(0), *map.value_at(0)), ("a", 1));
    assert_eq!((map.key_at(1), *map.value_at(1)), ("b", 3));
    assert_eq!(map.remove("a"), Some(1));
    assert!(map.get("a").is_none());
}

#[test]
fn texts_fold_trim_and_split() {
    assert_eq!(to_upper("aBc-1"), "ABC-1");
    assert_eq!(to_lower("AbC-1"), "abc-1");
    assert_eq!(trim("  a b\t"), "a b");
    assert!(equal_ignoring_case("Save10", "sAVE10"));
    assert!(contains_text("hello world", "lo w"));
    assert_eq!(signed_to_text(i64::MIN), "-9223372036854775808");
    assert_eq!(parse_signed(&chars_of("-42")), Some(-42));
    assert_eq!(parse_signed(&chars_of("4 2")), None);
    let pieces = split_on(&chars_of("a,,b"), ',');
    assert_eq!(pieces, vec![vec!['a'], vec![], vec!['b']]);
}

#[test]
fn sorting_keeps_ties_in_place() {
    let rank = |first: i128, second: i128| Rank { first, second, third: 0 };
    let ranks = vec![rank(2, 0), rank(1, 5), rank(2, 0), rank(1, 3)];
    assert_eq!(sort_positions(&ranks), vec![3, 1, 0, 2]);
}

#[test]
fn instants_move_by_spans() {
    let start = Timestamp::from_seconds(1_700_000_000).unwrap();
    let later = start.plus(Duration::days(7)).unwrap();
    assert_eq!(later.seconds - start.seconds, 604_800);
    assert!(start.is_before(later));
    assert_eq!(later.since(start), Duration::days(7));
    assert!(Timestamp::from_seconds(i64::MAX).is_none());
    assert!(Timestamp::now().is_before(Timestamp::from_seconds(4_000_000_000).unwrap()));
}

#[test]
fn postal_codes_are_more_specific_than_regions() {
    let postal = |region: Option<&str>| Jurisdiction {
        country: CountryCode::US,
        region: region.map(|name| name.to_owned()),
        postal_code: Some("94107".into()),
    };
    let state = Jurisdiction::region(CountryCode::US, "CA");
    let country = Jurisdiction::country(CountryCode::US);
    for code in [postal(None), postal(Some("CA"))] {
        assert!(code.specificity() > state.specificity());
        assert!(state.specificity() > country.specificity());
    }
    assert_eq!(postal(None).specificity(), 3);
    assert_eq!(state.specificity(), 2);
}

#[test]
fn addresses_are_compared_by_their_texts() {
    let home = Address::new(CountryCode::US).with_region("CA").with_postal_code("94107");
    assert!(home.same(&home.clone()));
    assert!(!home.same(&Address::new(CountryCode::US).with_region("CA")));
    assert!(!Address::new(CountryCode::US).same(&Address::new(CountryCode::DE)));
}
