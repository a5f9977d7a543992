//! Amounts kept under a key, such as one per shop or one per funder.

use vstd::prelude::*;

use crate::collections::{listed, OrderedMap};
use crate::error::{outcome, Error, ErrorView};
use crate::money::{total, Currency, Money};

verus! {

/// The amounts of a map, in the order of its keys.
pub open spec fn amounts_listed(map: Map<Seq<char>, Money>) -> Seq<Money> {
    listed(map).map_values(|key: Seq<char>| map[key])
}

/// The amount under a key, or nothing.
pub open spec fn amount_under(map: Map<Seq<char>, Money>, key: Seq<char>, currency: Currency) -> Money {
    if map.contains_key(key) {
        map[key]
    } else {
        Money { minor: 0, currency }
    }
}

/// The amount under a key, or nothing.
pub fn get_amount(map: &OrderedMap<Money>, key: &str, currency: Currency) -> (amount: Money)
    ensures
        amount == amount_under(map@, key@, currency),
{
    match map.get(key) {
        Some(amount) => *amount,
        None => Money::zero(currency),
    }
}

/// The sum of the amounts of a map.
pub fn sum_amounts(map: &OrderedMap<Money>, currency: Currency) -> (amount: Result<Money, Error>)
    ensures
        outcome(amount) == total(amounts_listed(map@), currency),
{
    let mut amounts: Vec<Money> = Vec::new();
    let count = map.len();
    let ghost all = amounts_listed(map@);
    let mut i: usize = 0;
    while i < count
        invariant
            i <= count,
            count == map.keys().len(),
            map.keys() == listed(map@),
            all == amounts_listed(map@),
            amounts@ == all.take(i as int),
        decreases count - i,
    {
        amounts.push(*map.value_at(i));
        i += 1;
        assert(amounts@ =~= all.take(i as int));
    }
    assert(amounts@ =~= all);
    Money::sum(amounts.as_slice(), currency)
}

/// A map with an amount added to the one under a key.
pub open spec fn bumped(
    map: Map<Seq<char>, Money>,
    key: Seq<char>,
    amount: Money,
    currency: Currency,
) -> Result<Map<Seq<char>, Money>, ErrorView> {
    match amount_under(map, key, currency).plus(amount) {
        Ok(sum) => Ok(map.insert(key, sum)),
        Err(error) => Err(error),
    }
}

/// Add an amount to the one under a key.
pub fn bump(map: &mut OrderedMap<Money>, key: &str, amount: Money, currency: Currency) -> (
done: Result<(), Error>)
    ensures
        match done {
            Ok(_) => bumped(old(map)@, key@, amount, currency) == Ok::<
                Map<Seq<char>, Money>,
                ErrorView,
            >(final(map)@),
            Err(error) => bumped(old(map)@, key@, amount, currency) == Err::<
                Map<Seq<char>, Money>,
                ErrorView,
            >(error@) && final(map)@ == old(map)@,
        },
{
    match get_amount(map, key, currency).try_add(amount) {
        Ok(sum) => {
            map.insert(key.to_owned(), sum);
            Ok(())
        },
        Err(error) => Err(error),
    }
}

/// A copy of a map.
pub fn copy_amounts(map: &OrderedMap<Money>) -> (copy: OrderedMap<Money>)
    ensures
        copy@ == map@,
{
    let copy = map.clone();
    assert(copy@ =~= map@);
    copy
}

/// Adding to the amount under a key adds to it, from nothing where there was none, and
/// leaves the amounts under other keys.
pub proof fn law_amounts_grow_under_their_key(
    map: Map<Seq<char>, Money>,
    key: Seq<char>,
    amount: Money,
    currency: Currency,
    other: Seq<char>,
)
    requires
        bumped(map, key, amount, currency) is Ok,
    ensures
        ({
            let after = bumped(map, key, amount, currency)->Ok_0;
            &&& after.contains_key(key)
            &&& map.contains_key(key) ==> after[key].minor == map[key].minor + amount.minor
            &&& !map.contains_key(key) ==> after[key].minor == amount.minor
            &&& other != key ==> after.contains_key(other) == map.contains_key(other)
                && after[other] == map[other]
            &&& amount_under(after, other, currency).minor == amount_under(
                map,
                other,
                currency,
            ).minor + if other == key {
                amount.minor as int
            } else {
                0
            }
        }),
{
}

} // verus!
