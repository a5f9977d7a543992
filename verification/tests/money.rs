use payments::money::{
    allocate, allocate_by_weights, allocate_evenly, allocate_widely, Currency, Money, Rounding,
};
use payments::wide::{Integer, Natural};
use payments::Error;

fn usd(minor: i64) -> Money {
    Money::from_minor(minor, Currency::USD)
}

fn minors(parts: &[Money]) -> Vec<i64> {
    parts.iter().map(|m| m.minor()).collect()
}

#[test]
fn parses_and_renders_decimals() {
    let m = Money::parse_decimal("19.99", Currency::USD).unwrap();
    assert_eq!(m.minor(), 1999);
    assert_eq!(m.to_text(), "19.99 USD");

    let jpy = Money::parse_decimal("1200", Currency::JPY).unwrap();
    assert_eq!(jpy.minor(), 1200);
    assert_eq!(jpy.to_decimal_string(), "1200");

    let kwd = Money::parse_decimal("1.234", Currency::from_code("KWD").unwrap()).unwrap();
    assert_eq!(kwd.minor(), 1234);

    assert!(Money::parse_decimal("1.999", Currency::USD).is_err());
    assert!(Money::parse_decimal("abc", Currency::USD).is_err());
    assert_eq!(Money::parse_decimal("-0.05", Currency::USD).unwrap().minor(), -5);
    assert_eq!(Money::parse_decimal(".5", Currency::USD).unwrap().minor(), 50);
}

#[test]
fn rounding_modes_behave() {
    assert_eq!(Rounding::HalfUp.divide(5, 2).unwrap(), 3);
    assert_eq!(Rounding::HalfUp.divide(-5, 2).unwrap(), -3);
    assert_eq!(Rounding::HalfEven.divide(5, 2).unwrap(), 2);
    assert_eq!(Rounding::HalfEven.divide(7, 2).unwrap(), 4);
    assert_eq!(Rounding::Down.divide(-5, 2).unwrap(), -2);
    assert_eq!(Rounding::Up.divide(5, 4).unwrap(), 2);
    assert_eq!(Rounding::Floor.divide(-5, 4).unwrap(), -2);
    assert_eq!(Rounding::Ceil.divide(-5, 4).unwrap(), -1);
}

#[test]
fn inclusive_tax_extraction() {
    let gross = Money::from_minor(12_000, Currency::USD);
    let tax = gross.tax_from_inclusive(2_000, Rounding::HalfUp).unwrap();
    assert_eq!(tax.minor(), 2_000);
}

#[test]
fn currency_mismatch_is_an_error() {
    let usd = Money::from_minor(100, Currency::USD);
    let eur = Money::from_minor(100, Currency::EUR);
    assert!(usd.try_add(eur).is_err());
    assert!(usd.partial_cmp(&eur).is_none());
}

#[test]
fn table_is_sorted_and_consistent_with_consts() {
    let known: [(&str, u8); 41] = [
        ("AED", 2), ("AUD", 2), ("BHD", 3), ("BRL", 2), ("CAD", 2), ("CHF", 2), ("CLP", 0),
        ("CNY", 2), ("COP", 2), ("CZK", 2), ("DKK", 2), ("EUR", 2), ("GBP", 2), ("HKD", 2),
        ("HUF", 2), ("IDR", 2), ("ILS", 2), ("INR", 2), ("ISK", 0), ("JOD", 3), ("JPY", 0),
        ("KRW", 0), ("KWD", 3), ("MXN", 2), ("MYR", 2), ("NOK", 2), ("NZD", 2), ("OMR", 3),
        ("PHP", 2), ("PLN", 2), ("RON", 2), ("SAR", 2), ("SEK", 2), ("SGD", 2), ("THB", 2),
        ("TND", 3), ("TRY", 2), ("TWD", 2), ("USD", 2), ("VND", 0), ("ZAR", 2),
    ];
    assert!(known.windows(2).all(|w| w[0].0 < w[1].0), "the table must stay sorted");
    for (code, exponent) in known {
        let currency = Currency::from_code(code).unwrap();
        assert_eq!(currency.code(), code);
        assert_eq!(currency.exponent(), exponent);
    }
    assert_eq!(Currency::from_code("usd").unwrap(), Currency::USD);
    assert_eq!(Currency::from_code("JPY").unwrap().exponent(), 0);
    assert_eq!(Currency::USD.minor_units_per_major(), 100);
    assert_eq!(Currency::JPY.minor_units_per_major(), 1);
}

#[test]
fn rejects_bad_codes() {
    assert!(Currency::from_code("US").is_err());
    assert!(Currency::from_code("XXX").is_err());
    assert!(Currency::new("XBT", 8).is_err());
    assert!(Currency::new("XBT", 4).is_ok());
}

#[test]
fn serde_roundtrip() {
    let json = serde_json::to_string(&Currency::EUR.code()).unwrap();
    assert_eq!(json, "\"EUR\"");
    let code: String = serde_json::from_str(&json).unwrap();
    let back = Currency::from_code(&code).unwrap();
    assert_eq!(back, Currency::EUR);
}

#[test]
fn largest_remainder_is_exact() {
    let total = Money::from_minor(1_000, Currency::USD);
    let parts = allocate(total, &[333, 333, 334]).unwrap();
    assert_eq!(minors(&parts).iter().sum::<i64>(), 1_000);
}

#[test]
fn indivisible_amounts_are_deterministic() {
    let total = Money::from_minor(10, Currency::USD);
    assert_eq!(minors(&allocate(total, &[1, 1, 1]).unwrap()), vec![4, 3, 3]);
    assert_eq!(minors(&allocate(total, &[1, 1, 1]).unwrap()), vec![4, 3, 3]);
}

#[test]
fn negative_totals_split_symmetrically() {
    let refund = Money::from_minor(-10, Currency::USD);
    let parts = allocate(refund, &[1, 1, 1]).unwrap();
    assert_eq!(minors(&parts), vec![-4, -3, -3]);
    assert_eq!(minors(&parts).iter().sum::<i64>(), -10);
}

#[test]
fn zero_weights_receive_nothing() {
    let total = Money::from_minor(500, Currency::USD);
    let parts = allocate(total, &[0, 5, 5]).unwrap();
    assert_eq!(minors(&parts), vec![0, 250, 250]);
}

#[test]
fn all_zero_weights_split_evenly() {
    let total = Money::from_minor(7, Currency::USD);
    let parts = allocate(total, &[0, 0, 0]).unwrap();
    assert_eq!(minors(&parts).iter().sum::<i64>(), 7);
}

#[test]
fn rejects_negative_weights() {
    let total = Money::from_minor(100, Currency::USD);
    assert!(allocate(total, &[-1, 2]).is_err());
}

#[test]
fn exhaustive_sum_invariant() {
    for total in 0..=200i64 {
        for weights in [
            vec![1, 2, 3],
            vec![7, 11, 13, 17],
            vec![1, 0, 0, 1],
            vec![999, 1],
            vec![5],
        ] {
            let money = Money::from_minor(total, Currency::USD);
            let parts = allocate(money, &weights).unwrap();
            assert_eq!(
                parts.iter().map(|m| m.minor()).sum::<i64>(),
                total,
                "weights {weights:?} total {total}"
            );
        }
    }
}

#[test]
fn even_splits_give_the_rest_to_the_first() {
    assert_eq!(minors(&allocate_evenly(usd(11), 3).unwrap()), vec![4, 4, 3]);
    assert!(allocate_evenly(usd(0), 0).unwrap().is_empty());
    assert!(matches!(allocate_evenly(usd(1), 0), Err(Error::Allocation(_))));
}

#[test]
fn money_weights_must_share_the_currency() {
    let weights = [usd(60), usd(40)];
    assert_eq!(minors(&allocate_by_weights(usd(50), &weights).unwrap()), vec![30, 20]);
    let mixed = [usd(60), Money::from_minor(40, Currency::EUR)];
    assert!(matches!(
        allocate_by_weights(usd(50), &mixed),
        Err(Error::CurrencyMismatch { .. })
    ));
}

#[test]
fn arithmetic_refuses_to_overflow() {
    assert!(matches!(usd(i64::MAX).try_add(usd(1)), Err(Error::Money(_))));
    assert!(matches!(usd(i64::MIN).try_sub(usd(1)), Err(Error::Money(_))));
    assert!(matches!(usd(i64::MAX).try_mul(2), Err(Error::Money(_))));
    assert!(matches!(Money::from_major(i64::MAX, Currency::USD), Err(Error::Money(_))));
    assert!(matches!(Rounding::HalfUp.divide(1, 0), Err(Error::Money(_))));
}

#[test]
fn ratios_are_in_basis_points() {
    assert_eq!(usd(250).ratio_basis_points(usd(1_000)).unwrap(), 2_500);
    assert_eq!(usd(250).ratio_basis_points(usd(0)).unwrap(), 0);
    assert_eq!(usd(1_999).mul_basis_points(825, Rounding::HalfUp).unwrap(), usd(165));
    assert_eq!(usd(100).mul_ratio(1, 3, Rounding::HalfUp).unwrap(), usd(33));
}

#[test]
fn decimals_round_trip() {
    for minor in [0, 1, -1, 99, 100, -12_345, i64::MAX, i64::MIN + 1] {
        let amount = usd(minor);
        let back = Money::parse_decimal(&amount.to_decimal_string(), Currency::USD).unwrap();
        assert_eq!(back, amount);
    }
    assert_eq!(usd(i64::MIN).to_decimal_string(), "-92233720368547758.08");
}

#[test]
fn sums_and_extremes() {
    assert_eq!(Money::sum(&[usd(1), usd(2), usd(3)], Currency::USD).unwrap(), usd(6));
    assert_eq!(Money::sum(&[], Currency::USD).unwrap(), usd(0));
    assert!(Money::sum(&[usd(1)], Currency::EUR).is_err());
    assert_eq!(usd(5).try_min(usd(7)).unwrap(), usd(5));
    assert_eq!(usd(5).try_max(usd(7)).unwrap(), usd(7));
    assert_eq!(usd(-5).abs(), usd(5));
    assert_eq!(usd(-5).clamp_non_negative(), usd(0));
    assert!(usd(5) < usd(7));
}

#[test]
fn parts_stay_within_a_unit_of_their_share() {
    let weights = [1, 2, 4, 0];
    for amount in [100, -100, 7, -7, 1, -1, 0] {
        let parts = allocate(usd(amount), &weights).unwrap();
        for (part, weight) in parts.iter().zip(weights) {
            let off = part.minor() * 7 - amount * weight;
            assert!(-7 < off && off < 7);
        }
    }
    let parts: Vec<i64> = allocate(usd(-7), &weights).unwrap().iter().map(|p| p.minor()).collect();
    assert_eq!(parts, vec![-1, -2, -4, 0]);
}

// Numbers of any size.

fn power_of_ten(exponent: u32) -> Natural {
    let mut power = Natural::new(1);
    for _ in 0..exponent {
        power = power.times(10);
    }
    power
}

fn wide(n: i64, zeros: u32) -> Integer {
    let mut number = Integer::new(n);
    for _ in 0..zeros {
        number = number.times(10);
    }
    number
}

fn same(a: &Natural, b: &Natural) -> bool {
    !a.less(b) && !b.less(a)
}

#[test]
fn naturals_of_any_size_add_up() {
    let big = power_of_ten(40);
    assert!(power_of_ten(39).less(&big));
    assert!(!big.less(&power_of_ten(39)));
    assert!(!big.less(&big.copy()));
    let sum = big.plus(&Natural::new(u64::MAX));
    assert!(big.less(&sum));
    assert!(same(&sum.minus(&big), &Natural::new(u64::MAX)));
    assert!(same(&sum.minus(&Natural::new(u64::MAX)), &big));
    assert!(sum.minus(&sum).is_zero());
    assert!(big.times(0).is_zero());
    assert!(!big.is_zero());

    // 2^64 is one more than the largest 64-bit number.
    let edge = Natural::new(u64::MAX).plus(&Natural::new(1));
    assert!(Natural::new(u64::MAX).less(&edge));
    assert!(same(&edge, &Natural::new(1 << 32).times(1 << 32)));
}

#[test]
fn naturals_of_any_size_divide() {
    let (quotient, remainder) =
        power_of_ten(30).divided_by(&power_of_ten(12).times(7)).unwrap();
    assert_eq!(quotient, 142_857_142_857_142_857);
    assert!(same(&remainder, &power_of_ten(12)));

    let (quotient, remainder) = power_of_ten(12).divided_by(&power_of_ten(30)).unwrap();
    assert_eq!(quotient, 0);
    assert!(same(&remainder, &power_of_ten(12)));

    let most = power_of_ten(20).times(u64::MAX);
    let (quotient, remainder) = most.divided_by(&power_of_ten(20)).unwrap();
    assert_eq!(quotient, u64::MAX);
    assert!(remainder.is_zero());
    assert!(most.plus(&power_of_ten(20)).divided_by(&power_of_ten(20)).is_none());
}

#[test]
fn integers_of_any_size_have_a_sign() {
    let plus = wide(3, 30);
    let minus = wide(-3, 30);
    assert!(!plus.is_negative());
    assert!(minus.is_negative());
    assert!(same(plus.size(), minus.size()));
    assert!(plus.plus(&minus).size().is_zero());
    assert!(!plus.plus(&minus).is_negative());
    assert!(minus.plus(&wide(1, 30)).is_negative());
    assert!(!minus.times(-1).is_negative());
    assert!(!minus.times(0).is_negative());
    assert!(minus.copy().is_negative());
    assert!(same(Integer::new(i64::MIN).size(), &Natural::new(1 << 63)));
}

#[test]
fn amounts_scale_by_wide_fractions() {
    let third = |amount: i64, rounding: Rounding| {
        usd(amount).mul_wide_ratio(&wide(1, 40), &wide(3, 40), rounding)
    };
    assert_eq!(third(100, Rounding::HalfUp).unwrap(), usd(33));
    assert_eq!(third(100, Rounding::Up).unwrap(), usd(34));
    assert_eq!(third(-100, Rounding::Down).unwrap(), usd(-33));
    assert_eq!(third(-100, Rounding::Floor).unwrap(), usd(-34));
    assert_eq!(third(-100, Rounding::Ceil).unwrap(), usd(-33));

    let modes = [
        Rounding::HalfUp, Rounding::HalfEven, Rounding::Down, Rounding::Up, Rounding::Floor,
        Rounding::Ceil,
    ];
    for mode in modes {
        for amount in [-7, -5, -1, 0, 1, 5, 7] {
            for (top, bottom) in [(1, 2), (-1, 2), (3, -2), (-5, -3), (0, 7)] {
                assert_eq!(
                    usd(amount).mul_wide_ratio(&wide(top, 25), &wide(bottom, 25), mode).unwrap(),
                    usd(amount).mul_ratio(top, bottom, mode).unwrap()
                );
            }
        }
    }

    assert_eq!(
        usd(i64::MIN).mul_wide_ratio(&wide(1, 30), &wide(1, 30), Rounding::HalfUp).unwrap(),
        usd(i64::MIN)
    );
    let error = usd(1).mul_wide_ratio(&wide(1, 30), &wide(0, 0), Rounding::HalfUp).unwrap_err();
    assert!(matches!(&error, Error::Money(text) if text == "division by zero"));
    for (amount, top) in [(i64::MIN, -1), (1, i64::MAX)] {
        let error =
            usd(amount).mul_wide_ratio(&wide(top, 30), &wide(1, 29 + (top < 0) as u32), Rounding::HalfUp);
        assert!(matches!(&error.unwrap_err(), Error::Money(text) if text == "amount out of range"));
    }
}

#[test]
fn amounts_are_allocated_by_wide_weights() {
    let list = |weights: &[i64], zeros: u32| -> Vec<Integer> {
        weights.iter().map(|weight| wide(*weight, zeros)).collect()
    };
    for weights in [vec![1, 1, 1], vec![0, 5, 5], vec![333, 333, 334], vec![0, 0, 0], vec![7]] {
        for amount in [10, -7, 0, 100, i64::MAX, i64::MIN] {
            assert_eq!(
                allocate_widely(usd(amount), &list(&weights, 30)).unwrap(),
                allocate(usd(amount), &weights).unwrap()
            );
        }
    }
    let unequal = vec![wide(1, 40), wide(1, 40).plus(&wide(1, 0))];
    assert_eq!(minors(&allocate_widely(usd(1), &unequal).unwrap()), vec![0, 1]);
    assert!(matches!(allocate_widely(usd(1), &list(&[-1, 2], 30)), Err(Error::Allocation(_))));
    assert!(matches!(allocate_widely(usd(1), &Vec::new()), Err(Error::Allocation(_))));
    assert!(allocate_widely(usd(0), &Vec::new()).unwrap().is_empty());
}
